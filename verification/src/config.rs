//! The hotel configuration: its name and how many rooms of each type it has.
use vstd::prelude::*;

verus! {

/// A kind of room and how many rooms of that kind the hotel has.
#[derive(Clone, Debug)]
pub struct RoomConfig {
    pub room_type: String,
    pub count: u32,
}

/// The hotel: its name and its room kinds, in the order in which rooms are numbered.
#[derive(Clone, Debug)]
pub struct Hotel {
    pub name: String,
    pub rooms: Vec<RoomConfig>,
}

/// The whole configuration file.
#[derive(Clone, Debug)]
pub struct Config {
    pub hotel: Hotel,
}

/// The room type of every room number, in numbering order: room kinds are
/// numbered in the order in which the configuration lists them, each kind
/// taking `count` consecutive numbers.
pub open spec fn room_types(rooms: Seq<RoomConfig>) -> Seq<Seq<char>>
    decreases rooms.len(),
{
    if rooms.len() == 0 {
        Seq::empty()
    } else {
        let last = rooms.last();
        room_types(rooms.drop_last()) + Seq::new(last.count as nat, |_i: int| last.room_type@)
    }
}

/// The number of rooms in the hotel.
pub open spec fn total_rooms(rooms: Seq<RoomConfig>) -> nat {
    room_types(rooms).len()
}

pub(crate) proof fn lemma_room_types_prefix(rooms: Seq<RoomConfig>, i: int)
    requires
        0 <= i < rooms.len(),
    ensures
        room_types(rooms.take(i + 1)) == room_types(rooms.take(i)) + Seq::new(
            rooms[i].count as nat,
            |_k: int| rooms[i].room_type@,
        ),
{
    assert(rooms.take(i + 1).drop_last() =~= rooms.take(i));
}

pub(crate) proof fn lemma_room_types_prefix_len(rooms: Seq<RoomConfig>, i: int)
    requires
        0 <= i <= rooms.len(),
    ensures
        room_types(rooms.take(i)).len() <= room_types(rooms).len(),
    decreases rooms.len() - i,
{
    if i < rooms.len() {
        lemma_room_types_prefix(rooms, i);
        lemma_room_types_prefix_len(rooms, i + 1);
    } else {
        assert(rooms.take(i) =~= rooms);
    }
}


/// Whether the rooms can all be numbered by `u32` values from 0.
pub fn numbering_fits(rooms: &Vec<RoomConfig>) -> (fits: bool)
    ensures
        fits == (total_rooms(rooms@) <= u32::MAX),
{
    let mut total: u64 = 0;
    let mut i: usize = 0;
    while i < rooms.len()
        invariant
            0 <= i <= rooms.len(),
            total == room_types(rooms@.take(i as int)).len(),
            total <= u32::MAX,
        decreases rooms.len() - i,
    {
        proof {
            lemma_room_types_prefix(rooms@, i as int);
        }
        total = total + rooms[i].count as u64;
        i = i + 1;
        if total > u32::MAX as u64 {
            proof {
                lemma_room_types_prefix_len(rooms@, i as int);
            }
            return false;
        }
    }
    proof {
        assert(rooms@.take(rooms@.len() as int) =~= rooms@);
    }
    true
}

} // verus!
