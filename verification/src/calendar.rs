//! The booking calendar: for every night of the booking horizon, every room
//! of the hotel with its type and whether it is still available.
use std::collections::HashMap;
use vstd::prelude::*;

use crate::config::{
    lemma_room_types_prefix, lemma_room_types_prefix_len, room_types, Config, RoomConfig,
};

verus! {

/// The number of nights the calendar covers, numbered from 0.
pub const HORIZON_NIGHTS: u32 = 30;

/// One room on one night.
#[derive(Clone, Debug)]
pub struct HotelRoom {
    pub room_type: String,
    pub available: bool,
}

impl View for HotelRoom {
    type V = (Seq<char>, bool);

    open spec fn view(&self) -> (Seq<char>, bool) {
        (self.room_type@, self.available)
    }
}

/// For each night, the rooms of the hotel keyed by room number.
#[derive(Clone, Debug)]
pub struct BookingCalendar {
    pub calendar: HashMap<u32, HashMap<u32, HotelRoom>>,
}

/// The rooms of one night, by room number, as plain values.
pub open spec fn night_view(night: Map<u32, HotelRoom>) -> Map<u32, (Seq<char>, bool)> {
    night.map_values(|room: HotelRoom| room@)
}

impl View for BookingCalendar {
    type V = Map<u32, Map<u32, (Seq<char>, bool)>>;

    open spec fn view(&self) -> Map<u32, Map<u32, (Seq<char>, bool)>> {
        self.calendar@.map_values(|night: HashMap<u32, HotelRoom>| night_view(night@))
    }
}

/// A night of an empty hotel whose rooms, numbered from 0, have the given types:
/// every room is available.
pub open spec fn empty_night(types: Seq<Seq<char>>) -> Map<u32, (Seq<char>, bool)> {
    Map::new(|n: u32| (n as int) < types.len(), |n: u32| (types[n as int], true))
}

/// The calendar of an empty hotel: the same empty night on every night of the horizon.
pub open spec fn empty_calendar(types: Seq<Seq<char>>) -> Map<u32, Map<u32, (Seq<char>, bool)>> {
    Map::new(|d: u32| d < HORIZON_NIGHTS, |d: u32| empty_night(types))
}

impl BookingCalendar {
    /// Builds the calendar of the configured hotel with every room available on
    /// every night. Rooms are numbered from 0 in the order of the configuration.
    pub fn new(config: Config) -> (result: BookingCalendar)
        requires
            room_types(config.hotel.rooms@).len() <= u32::MAX,
        ensures
            result@ == empty_calendar(room_types(config.hotel.rooms@)),
            forall|d: u32| #[trigger] result.calendar@.contains_key(d) <==> d < HORIZON_NIGHTS,
            forall|d: u32, n: u32|
                d < HORIZON_NIGHTS ==> (#[trigger] result.calendar@[d]@.contains_key(n) <==> (n as int)
                    < room_types(config.hotel.rooms@).len()),
            forall|d: u32, n: u32|
                d < HORIZON_NIGHTS && (n as int) < room_types(config.hotel.rooms@).len() ==> {
                    &&& (#[trigger] result.calendar@[d]@[n]).available
                    &&& result.calendar@[d]@[n].room_type@ == room_types(config.hotel.rooms@)[n as int]
                },
    {
        let rooms = &config.hotel.rooms;
        let ghost all = rooms@;
        let mut calendar: HashMap<u32, HashMap<u32, HotelRoom>> = HashMap::new();
        for day_number in 0..HORIZON_NIGHTS
            invariant
                all == rooms@,
                room_types(all).len() <= u32::MAX,
                calendar@.map_values(|night: HashMap<u32, HotelRoom>| night_view(night@)) =~= Map::new(
                    |d: u32| d < day_number,
                    |d: u32| empty_night(room_types(all)),
                ),
        {
            let night = Self::empty_hotel(rooms);
            let ghost old_calendar = calendar@;
            calendar.insert(day_number, night);
            proof {
                assert(calendar@ == old_calendar.insert(day_number, night));
                let target = Map::new(
                    |d: u32| d < day_number + 1,
                    |d: u32| empty_night(room_types(all)),
                );
                let got = calendar@.map_values(|night: HashMap<u32, HotelRoom>| night_view(night@));
                let old_got = old_calendar.map_values(|night: HashMap<u32, HotelRoom>| night_view(night@));
                assert forall|d: u32| #[trigger] got.contains_key(d) == target.contains_key(d) by {
                    assert(got.contains_key(d) == calendar@.contains_key(d));
                    assert(old_got.contains_key(d) == old_calendar.contains_key(d));
                }
                assert forall|d: u32| got.contains_key(d) implies #[trigger] got[d] == target[d] by {
                    assert(got[d] == night_view(calendar@[d]@));
                    if d != day_number {
                        assert(old_calendar.contains_key(d));
                        assert(old_got[d] == night_view(old_calendar[d]@));
                    }
                }
                assert(got =~= target);
            }
        }
        let result = BookingCalendar { calendar };
        proof {
            lemma_new_hotel_every_room_free(room_types(all));
            assert forall|d: u32| #[trigger] result.calendar@.contains_key(d) <==> d < HORIZON_NIGHTS by {
                assert(result@.contains_key(d) == result.calendar@.contains_key(d));
            }
            assert forall|d: u32, n: u32|
                d < HORIZON_NIGHTS implies (#[trigger] result.calendar@[d]@.contains_key(n) <==> (n as int)
                    < room_types(all).len()) by {
                assert(result.calendar@.contains_key(d));
                assert(result@[d] == night_view(result.calendar@[d]@));
                assert(night_view(result.calendar@[d]@).contains_key(n) == result.calendar@[d]@.contains_key(n));
            }
            assert forall|d: u32, n: u32|
                d < HORIZON_NIGHTS && (n as int) < room_types(all).len() implies {
                    &&& (#[trigger] result.calendar@[d]@[n]).available
                    &&& result.calendar@[d]@[n].room_type@ == room_types(all)[n as int]
                } by {
                assert(result.calendar@.contains_key(d));
                assert(result@[d] == night_view(result.calendar@[d]@));
                assert(result@[d].contains_key(n));
                assert(result@[d][n] == result.calendar@[d]@[n]@);
            }
        }
        result
    }

    /// One night of the empty hotel: every room, numbered from 0 in the order
    /// of the configuration, with its type and available.
    fn empty_hotel(rooms: &Vec<RoomConfig>) -> (empty_hotel: HashMap<u32, HotelRoom>)
        requires
            room_types(rooms@).len() <= u32::MAX,
        ensures
            night_view(empty_hotel@) == empty_night(room_types(rooms@)),
    {
        let ghost all = rooms@;
        let mut room_number: u32 = 0;
        let mut empty_hotel: HashMap<u32, HotelRoom> = HashMap::new();
        let ghost mut placed: Seq<Seq<char>> = Seq::empty();
        let mut i: usize = 0;
        proof {
            assert(all.take(0) =~= Seq::<RoomConfig>::empty());
        }
        while i < rooms.len()
            invariant
                all == rooms@,
                room_types(all).len() <= u32::MAX,
                0 <= i <= rooms.len(),
                placed == room_types(all.take(i as int)),
                room_number as int == placed.len(),
                night_view(empty_hotel@) =~= empty_night(placed),
            decreases rooms.len() - i,
        {
            let room = &rooms[i];
            proof {
                lemma_room_types_prefix(all, i as int);
                lemma_room_types_prefix_len(all, i as int + 1);
            }
            let ghost before = placed;
            let mut k: u32 = 0;
            while k < room.count
                invariant
                    all == rooms@,
                    *room == all[i as int],
                    0 <= i < rooms.len(),
                    room_types(all).len() <= u32::MAX,
                    room_types(all.take(i as int + 1)).len() <= room_types(all).len(),
                    room_types(all.take(i as int + 1)) == before + Seq::new(
                        room.count as nat,
                        |_k: int| room.room_type@,
                    ),
                    k <= room.count,
                    placed == before + Seq::new(k as nat, |_k: int| room.room_type@),
                    room_number as int == placed.len(),
                    night_view(empty_hotel@) =~= empty_night(placed),
                decreases room.count - k,
            {
                let empty_room = HotelRoom { room_type: room.room_type.clone(), available: true };
                let ghost old_hotel = empty_hotel@;
                empty_hotel.insert(room_number, empty_room);
                proof {
                    assert(empty_hotel@ == old_hotel.insert(room_number, empty_room));
                    let old_placed = placed;
                    placed = placed.push(room.room_type@);
                    assert(night_view(old_hotel) == empty_night(old_placed));
                    assert(empty_room@ == (room.room_type@, true));
                    assert forall|n: u32| #[trigger] night_view(empty_hotel@).contains_key(n)
                        == empty_night(placed).contains_key(n) by {
                        assert(night_view(empty_hotel@).contains_key(n) == empty_hotel@.contains_key(n));
                        assert(night_view(old_hotel).contains_key(n) == old_hotel.contains_key(n));
                        assert(empty_night(old_placed).contains_key(n) == (n < old_placed.len()));
                        assert(empty_night(placed).contains_key(n) == (n < placed.len()));
                    }
                    assert forall|n: u32| night_view(empty_hotel@).contains_key(n) implies
                        #[trigger] night_view(empty_hotel@)[n] == empty_night(placed)[n] by {
                        assert(night_view(empty_hotel@)[n] == empty_hotel@[n]@);
                        if n != room_number {
                            assert(night_view(old_hotel).contains_key(n));
                            assert(night_view(old_hotel)[n] == old_hotel[n]@);
                            assert(empty_night(old_placed)[n] == (old_placed[n as int], true));
                            assert(placed[n as int] == old_placed[n as int]);
                        } else {
                            assert(placed[n as int] == room.room_type@);
                        }
                    }
                    assert(night_view(empty_hotel@) =~= empty_night(placed));
                }
                room_number = room_number + 1;
                k = k + 1;
                proof {
                    assert(placed =~= before + Seq::new(k as nat, |_k: int| room.room_type@));
                }
            }
            i = i + 1;
            proof {
                assert(placed =~= room_types(all.take(i as int)));
            }
        }
        proof {
            assert(all.take(rooms.len() as int) =~= all);
        }
        empty_hotel
    }
}

/// The (room number, night) slots of a calendar.
pub open spec fn calendar_slots(cal: Map<u32, Map<u32, (Seq<char>, bool)>>) -> Set<(u32, u32)> {
    Set::new(|slot: (u32, u32)| cal.contains_key(slot.1) && cal[slot.1].contains_key(slot.0))
}

impl BookingCalendar {
    /// One (room number, night) pair for every room of every night of the
    /// calendar, each once, in the maps' own order: the rows of a calendar store.
    pub fn slots(&self) -> (rows: Vec<(u32, u32)>)
        ensures
            rows@.to_set() == calendar_slots(self@),
            rows@.no_duplicates(),
            forall|room: u32, day: u32|
                #[trigger] rows@.contains((room, day)) <==> self.calendar@.contains_key(day)
                    && self.calendar@[day]@.contains_key(room),
    {
        broadcast use vstd::std_specs::hash::axiom_spec_keys_iter;

        let mut rows: Vec<(u32, u32)> = Vec::new();
        for day in dit: self.calendar.keys()
            invariant
                dit.seq().unref().to_set() == self.calendar@.dom(),
                dit.seq().no_duplicates(),
                rows@.no_duplicates(),
                forall|slot: (u32, u32)|
                    #[trigger] rows@.contains(slot) <==> (exists|j: int|
                        0 <= j < dit.index() && *dit.seq()[j] == slot.1)
                        && self@.contains_key(slot.1) && self@[slot.1].contains_key(slot.0),
            ensures
                rows@.no_duplicates(),
                forall|slot: (u32, u32)|
                    #[trigger] rows@.contains(slot) <==> self@.contains_key(slot.1)
                        && self@[slot.1].contains_key(slot.0),
        {
            let day: u32 = *day;
            let ghost before = rows@;
            let ghost di = dit.index();
            proof {
                assert(dit.seq().unref().to_set().contains(day)) by {
                    assert(dit.seq().unref()[di] == day);
                }
                assert forall|j: int| 0 <= j < di implies *dit.seq()[j] != day by {
                    assert(dit.seq()[j] != dit.seq()[di]);
                }
            }
            let night = self.calendar.get(&day).unwrap();
            for room in rit: night.keys()
                invariant
                    rit.seq().unref().to_set() == night@.dom(),
                    rit.seq().no_duplicates(),
                    self.calendar@.contains_key(day),
                    *night == self.calendar@[day],
                    before.no_duplicates(),
                    forall|j: int| 0 <= j < di ==> *dit.seq()[j] != day,
                    forall|slot: (u32, u32)|
                        #[trigger] before.contains(slot) <==> (exists|j: int|
                            0 <= j < di && *dit.seq()[j] == slot.1) && self@.contains_key(slot.1)
                            && self@[slot.1].contains_key(slot.0),
                    rows@.no_duplicates(),
                    forall|slot: (u32, u32)|
                        #[trigger] rows@.contains(slot) <==> before.contains(slot) || (slot.1 == day
                            && exists|k: int| 0 <= k < rit.index() && rit.seq().unref()[k] == slot.0),
                ensures
                    rows@.no_duplicates(),
                    forall|slot: (u32, u32)|
                        #[trigger] rows@.contains(slot) <==> before.contains(slot) || (slot.1 == day
                            && night@.contains_key(slot.0)),
            {
                let room: u32 = *room;
                let ghost ri = rit.index();
                proof {
                    assert forall|k: int| 0 <= k < ri implies *rit.seq()[k] != room by {
                        assert(rit.seq()[k] != rit.seq()[ri]);
                    }
                    assert(rit.seq().unref()[ri] == room);
                    assert forall|k: int| 0 <= k < ri implies rit.seq().unref()[k] != room by {
                        assert(rit.seq().unref()[k] == *rit.seq()[k]);
                    }
                    assert(!rows@.contains((room, day)));
                }
                let ghost mid = rows@;
                rows.push((room, day));
                proof {
                    assert forall|slot: (u32, u32)|
                        #[trigger] rows@.contains(slot) <==> before.contains(slot) || (slot.1 == day
                            && exists|k: int| 0 <= k < ri + 1 && rit.seq().unref()[k] == slot.0) by {
                        if rows@.contains(slot) {
                            let i = choose|i: int| 0 <= i < rows@.len() && rows@[i] == slot;
                            if i < mid.len() {
                                assert(mid.contains(slot));
                            }
                        }
                        if slot == (room, day) {
                            assert(rows@[mid.len() as int] == slot);
                        } else if mid.contains(slot) {
                            let i = choose|i: int| 0 <= i < mid.len() && mid[i] == slot;
                            assert(rows@[i] == slot);
                        }
                    }
                    assert forall|i: int, j: int|
                        0 <= i < rows@.len() && 0 <= j < rows@.len() && i != j implies rows@[i]
                        != rows@[j] by {
                        if i < mid.len() && j < mid.len() {
                        } else if i < mid.len() {
                            assert(mid.contains(rows@[i]));
                        } else if j < mid.len() {
                            assert(mid.contains(rows@[j]));
                        }
                    }
                }
            }
            proof {
                assert forall|slot: (u32, u32)|
                    #[trigger] rows@.contains(slot) <==> (exists|j: int|
                        0 <= j < di + 1 && *dit.seq()[j] == slot.1) && self@.contains_key(slot.1)
                        && self@[slot.1].contains_key(slot.0) by {
                    if slot.1 == day && self@.contains_key(day) && self@[day].contains_key(slot.0) {
                        assert(night@.contains_key(slot.0));
                    }
                    if rows@.contains(slot) && !before.contains(slot) {
                        assert(*dit.seq()[di] == slot.1);
                    }
                }
            }
        }
        proof {
            assert forall|room: u32, day: u32|
                #[trigger] rows@.contains((room, day)) <==> self.calendar@.contains_key(day)
                    && self.calendar@[day]@.contains_key(room) by {
                if self.calendar@.contains_key(day) {
                    assert(self@[day] == night_view(self.calendar@[day]@));
                    assert(self@[day].contains_key(room) == self.calendar@[day]@.contains_key(room));
                }
            }
            assert forall|slot: (u32, u32)| #[trigger] rows@.to_set().contains(slot) == calendar_slots(self@).contains(slot) by {}
            assert(rows@.to_set() =~= calendar_slots(self@));
        }
        rows
    }
}

/// A new hotel's calendar has a slot for exactly each room number below the
/// number of rooms on each night of the horizon: the store built from it gets
/// one row per room and night.
pub proof fn lemma_new_calendar_slots(types: Seq<Seq<char>>)
    ensures
        calendar_slots(empty_calendar(types)) == Set::new(
            |slot: (u32, u32)| (slot.0 as int) < types.len() && slot.1 < HORIZON_NIGHTS,
        ),
{
    assert(calendar_slots(empty_calendar(types)) =~= Set::new(
        |slot: (u32, u32)| (slot.0 as int) < types.len() && slot.1 < HORIZON_NIGHTS,
    ));
}

/// In the calendar of a new hotel, every night of the horizon holds every
/// room number below the number of rooms, with that room's configured type,
/// and every such room is available; no other night or room number is there.
pub proof fn lemma_new_hotel_every_room_free(types: Seq<Seq<char>>)
    ensures
        forall|d: u32| #[trigger] empty_calendar(types).contains_key(d) <==> d < HORIZON_NIGHTS,
        forall|d: u32, n: u32|
            d < HORIZON_NIGHTS ==> (#[trigger] empty_calendar(types)[d].contains_key(n) <==> (n as int)
                < types.len()),
        forall|d: u32, n: u32|
            d < HORIZON_NIGHTS && (n as int) < types.len() ==> #[trigger] empty_calendar(types)[d][n]
                == (types[n as int], true),
{
}

/// A slot of a calendar is a room number of a night, whatever that room's
/// availability: every room of every night has its slot.
pub proof fn lemma_slots_ignore_availability(cal: Map<u32, Map<u32, (Seq<char>, bool)>>)
    ensures
        forall|room: u32, day: u32|
            #[trigger] calendar_slots(cal).contains((room, day)) <==> cal.contains_key(day)
                && cal[day].contains_key(room),
{
}

} // verus!
