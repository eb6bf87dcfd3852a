//! The decisions of the booking workflow: which rooms are free for a whole
//! stay, which of them is taken, and the protocol by which a room is booked
//! night after night against the calendar store.
use std::collections::HashSet;
use vstd::prelude::*;

verus! {

/// Why a step of the workflow did not succeed.
#[derive(Clone, Copy, Debug, PartialEq, Eq, Structural)]
pub enum WorkflowError {
    /// No room meets the request.
    NoAvailableRooms,
    /// An update meant for one night of one room changed another number of rows.
    MoreThanOneRowChanged,
}

impl WorkflowError {
    /// The text that reports the error.
    pub fn message(&self) -> (text: String)
        ensures
            text@ == match self {
                WorkflowError::NoAvailableRooms => "no available rooms"@,
                WorkflowError::MoreThanOneRowChanged => "More than one row changed"@,
            },
    {
        match self {
            WorkflowError::NoAvailableRooms => "no available rooms".to_owned(),
            WorkflowError::MoreThanOneRowChanged => "More than one row changed".to_owned(),
        }
    }
}

/// The nights of a stay of `n_days` nights from `start_day`, in order; the
/// search asks the store about each of them after the first night.
pub fn stay_nights(start_day: u32, n_days: u32) -> (nights: Vec<u32>)
    requires
        start_day + n_days <= u32::MAX,
    ensures
        nights@ == Seq::new(n_days as nat, |i: int| (start_day + i) as u32),
{
    let end_day: u32 = start_day + n_days;
    let mut nights: Vec<u32> = Vec::new();
    let mut day: u32 = start_day;
    while day < end_day
        invariant
            start_day <= day <= end_day,
            end_day == start_day + n_days,
            nights@ == Seq::new((day - start_day) as nat, |i: int| (start_day + i) as u32),
        decreases end_day - day,
    {
        nights.push(day);
        day = day + 1;
        proof {
            assert(nights@ =~= Seq::new((day - start_day) as nat, |i: int| (start_day + i) as u32));
        }
    }
    nights
}

/// A room is available on a night when every row the store returned for it says so.
pub fn check_room_available(rows: &Vec<bool>) -> (available: bool)
    ensures
        available == (forall|i: int| 0 <= i < rows@.len() ==> #[trigger] rows@[i]),
{
    let mut available: bool = true;
    let mut i: usize = 0;
    while i < rows.len()
        invariant
            0 <= i <= rows.len(),
            available == (forall|j: int| 0 <= j < i ==> #[trigger] rows@[j]),
        decreases rows.len() - i,
    {
        available = available && rows[i];
        i = i + 1;
    }
    available
}

/// The verdict on an update that books one room for one night: it must have
/// changed exactly one row.
pub fn assign_room(rows_changed: usize) -> (result: Result<(), WorkflowError>)
    ensures
        result is Ok <==> rows_changed == 1,
        result is Err ==> result == Err::<(), WorkflowError>(WorkflowError::MoreThanOneRowChanged),
{
    if rows_changed != 1 {
        Err(WorkflowError::MoreThanOneRowChanged)
    } else {
        Ok(())
    }
}

/// A room is free for the whole request when it is free on the first night and
/// on every night of the stay.
pub open spec fn free_every_night(first_night: Seq<u32>, nights: Seq<Seq<u32>>, room: u32) -> bool {
    &&& first_night.contains(room)
    &&& forall|i: int| 0 <= i < nights.len() ==> (#[trigger] nights[i]).contains(room)
}

/// The rooms that are free on the first night and on every night of the stay.
pub open spec fn rooms_free_for_stay(first_night: Seq<u32>, nights: Seq<Seq<u32>>) -> Set<u32> {
    Set::new(|room: u32| free_every_night(first_night, nights, room))
}

/// The rooms of a list, as a set.
fn room_set(rooms: &Vec<u32>) -> (set: HashSet<u32>)
    ensures
        set@ == rooms@.to_set(),
{
    let mut set: HashSet<u32> = HashSet::new();
    let mut i: usize = 0;
    while i < rooms.len()
        invariant
            0 <= i <= rooms.len(),
            set@ == rooms@.take(i as int).to_set(),
        decreases rooms.len() - i,
    {
        proof {
            assert(rooms@.take(i as int + 1) =~= rooms@.take(i as int).push(rooms@[i as int]));
            rooms@.take(i as int).lemma_push_to_set_commute(rooms@[i as int]);
        }
        set.insert(rooms[i]);
        i = i + 1;
    }
    proof {
        assert(rooms@.take(rooms@.len() as int) =~= rooms@);
    }
    set
}

/// Intersects the rooms free on the first night of a request with the rooms
/// free on each night of the stay (`nights[i]` lists the rooms of the wanted
/// type that are free on night `i` of the stay).
pub fn search_rooms(first_night: &Vec<u32>, nights: &Vec<Vec<u32>>) -> (available: HashSet<u32>)
    ensures
        available@ == rooms_free_for_stay(first_night@, nights@.map_values(|n: Vec<u32>| n@)),
        forall|room: u32|
            #[trigger] available@.contains(room) <==> (first_night@.contains(room) && forall|i: int|
                0 <= i < nights@.len() ==> (#[trigger] nights@[i]@).contains(room)),
{
    let ghost night_views = nights@.map_values(|n: Vec<u32>| n@);
    let mut available = room_set(first_night);
    let mut i: usize = 0;
    while i < nights.len()
        invariant
            0 <= i <= nights.len(),
            night_views == nights@.map_values(|n: Vec<u32>| n@),
            available@ == rooms_free_for_stay(first_night@, night_views.take(i as int)),
        decreases nights.len() - i,
    {
        let night = room_set(&nights[i]);
        let mut next: HashSet<u32> = HashSet::new();
        let mut k: usize = 0;
        while k < first_night.len()
            invariant
                0 <= i < nights.len(),
                0 <= k <= first_night.len(),
                night_views == nights@.map_values(|n: Vec<u32>| n@),
                night@ == nights@[i as int]@.to_set(),
                available@ == rooms_free_for_stay(first_night@, night_views.take(i as int)),
                next@ == Set::new(
                    |room: u32|
                        first_night@.take(k as int).contains(room) && available@.contains(room)
                            && night@.contains(room),
                ),
            decreases first_night.len() - k,
        {
            let room = first_night[k];
            if available.contains(&room) && night.contains(&room) {
                next.insert(room);
            }
            k = k + 1;
            proof {
                let now = first_night@.take(k as int);
                let before = first_night@.take(k - 1);
                assert(now =~= before.push(room));
                assert forall|r: u32| #[trigger] now.contains(r) == (before.contains(r) || r == room) by {
                    if now.contains(r) {
                        let j = choose|j: int| 0 <= j < now.len() && now[j] == r;
                        if j < before.len() {
                            assert(before[j] == r);
                        }
                    }
                    if before.contains(r) {
                        let j = choose|j: int| 0 <= j < before.len() && before[j] == r;
                        assert(now[j] == r);
                    }
                    if r == room {
                        assert(now[k - 1] == r);
                    }
                }
                assert(next@ =~= Set::new(
                    |r: u32|
                        first_night@.take(k as int).contains(r) && available@.contains(r)
                            && night@.contains(r),
                ));
            }
        }
        available = next;
        i = i + 1;
        proof {
            assert(first_night@.take(first_night@.len() as int) =~= first_night@);
            let prev = night_views.take(i - 1);
            let cur = night_views.take(i as int);
            assert(cur =~= prev.push(night_views[i - 1]));
            assert forall|room: u32| available@.contains(room) == free_every_night(first_night@, cur, room) by {
                if free_every_night(first_night@, cur, room) {
                    assert forall|j: int| 0 <= j < prev.len() implies (#[trigger] prev[j]).contains(room) by {
                        assert(cur[j] == prev[j]);
                    }
                    assert(cur[i - 1] == night_views[i - 1]);
                }
                if available@.contains(room) {
                    assert forall|j: int| 0 <= j < cur.len() implies (#[trigger] cur[j]).contains(room) by {
                        if j < i - 1 {
                            assert(cur[j] == prev[j]);
                        }
                    }
                }
            }
            assert(available@ =~= rooms_free_for_stay(first_night@, cur));
        }
    }
    proof {
        assert(night_views.take(nights@.len() as int) =~= night_views);
        lemma_search_finds_exactly_the_free_rooms(first_night@, night_views);
        assert forall|room: u32|
            #[trigger] available@.contains(room) <==> (first_night@.contains(room) && forall|i: int|
                0 <= i < nights@.len() ==> (#[trigger] nights@[i]@).contains(room)) by {
            if first_night@.contains(room) && forall|i: int|
                0 <= i < nights@.len() ==> (#[trigger] nights@[i]@).contains(room) {
                assert forall|i: int| 0 <= i < night_views.len() implies (#[trigger] night_views[i]).contains(room) by {
                    assert(night_views[i] == nights@[i]@);
                }
            }
            if available@.contains(room) {
                assert forall|i: int| 0 <= i < nights@.len() implies (#[trigger] nights@[i]@).contains(room) by {
                    assert(night_views[i] == nights@[i]@);
                }
            }
        }
    }
    available
}

/// Picks one of the available rooms; which one is left to the set's own order.
pub fn select_room(available_rooms: &HashSet<u32>) -> (selected: Result<u32, WorkflowError>)
    ensures
        selected is Ok <==> !available_rooms@.is_empty(),
        match selected {
            Ok(room) => available_rooms@.contains(room),
            Err(e) => e == WorkflowError::NoAvailableRooms,
        },
{
    proof {
        broadcast use vstd::std_specs::hash::axiom_spec_hash_keys_iter;
    }
    for room in it: available_rooms.iter()
        invariant
            it.index() == 0,
            it.seq().unref().to_set() == available_rooms@,
        ensures
            available_rooms@.is_empty(),
    {
        proof {
            assert(it.seq().unref().to_set() == available_rooms@);
            assert(it.seq().unref()[0] == *room);
        }
        return Ok(*room);
    }
    Err(WorkflowError::NoAvailableRooms)
}

/// A room selected among the rooms found free for a stay is free on the first
/// night of the request and on every night of the stay, so the guest keeps one
/// room throughout; and nothing is selected only when no room is free throughout.
pub proof fn lemma_selected_room_free_for_stay(
    first_night: Seq<u32>,
    nights: Seq<Seq<u32>>,
    available: Set<u32>,
    selected: Result<u32, WorkflowError>,
)
    requires
        available == rooms_free_for_stay(first_night, nights),
        selected is Ok <==> !available.is_empty(),
        selected matches Ok(room) ==> available.contains(room),
    ensures
        selected matches Ok(room) ==> (first_night.contains(room) && forall|i: int|
            0 <= i < nights.len() ==> (#[trigger] nights[i]).contains(room)),
        selected is Err <==> (forall|room: u32|
            !(#[trigger] first_night.contains(room) && forall|i: int|
                0 <= i < nights.len() ==> (#[trigger] nights[i]).contains(room))),
{
    lemma_search_finds_exactly_the_free_rooms(first_night, nights);
    if selected is Err {
        assert forall|room: u32|
            !(#[trigger] first_night.contains(room) && forall|i: int|
                0 <= i < nights.len() ==> (#[trigger] nights[i]).contains(room)) by {
            if first_night.contains(room) && forall|i: int|
                0 <= i < nights.len() ==> (#[trigger] nights[i]).contains(room) {
                assert(available.contains(room));
            }
        }
    } else {
        let room = selected->Ok_0;
        assert(available.contains(room));
        assert(first_night.contains(room) && forall|i: int|
            0 <= i < nights.len() ==> (#[trigger] nights[i]).contains(room));
    }
}

/// The search is sound and complete: a room is among the rooms free for a stay
/// exactly when it is free on the first night and on each night of the stay.
pub proof fn lemma_search_finds_exactly_the_free_rooms(first_night: Seq<u32>, nights: Seq<Seq<u32>>)
    ensures
        forall|room: u32|
            #[trigger] rooms_free_for_stay(first_night, nights).contains(room) <==> (
            first_night.contains(room) && forall|i: int|
                0 <= i < nights.len() ==> (#[trigger] nights[i]).contains(room)),
{
}

/// Lengthening a stay by one night keeps exactly the rooms that were free for
/// the shorter stay and are free on the added night; a stay with no further
/// night keeps every room free on the first night.
pub proof fn lemma_search_one_more_night(first_night: Seq<u32>, nights: Seq<Seq<u32>>, night: Seq<u32>)
    ensures
        rooms_free_for_stay(first_night, nights.push(night)) == rooms_free_for_stay(
            first_night,
            nights,
        ).intersect(night.to_set()),
        rooms_free_for_stay(first_night, Seq::empty()) == first_night.to_set(),
{
    lemma_search_finds_exactly_the_free_rooms(first_night, nights);
    lemma_search_finds_exactly_the_free_rooms(first_night, nights.push(night));
    lemma_search_finds_exactly_the_free_rooms(first_night, Seq::empty());
    let longer = nights.push(night);
    assert forall|room: u32|
        rooms_free_for_stay(first_night, longer).contains(room) == rooms_free_for_stay(
            first_night,
            nights,
        ).intersect(night.to_set()).contains(room) by {
        if first_night.contains(room) && (forall|i: int| 0 <= i < nights.len() ==> (#[trigger] nights[i]).contains(room))
            && night.contains(room) {
            assert forall|i: int| 0 <= i < longer.len() implies (#[trigger] longer[i]).contains(room) by {
                if i < nights.len() {
                    assert(longer[i] == nights[i]);
                }
            }
        }
        if rooms_free_for_stay(first_night, longer).contains(room) {
            assert(longer[nights.len() as int] == night);
            assert forall|i: int| 0 <= i < nights.len() implies (#[trigger] nights[i]).contains(room) by {
                assert(longer[i] == nights[i]);
            }
        }
    }
    assert(rooms_free_for_stay(first_night, longer) =~= rooms_free_for_stay(first_night, nights).intersect(
        night.to_set(),
    ));
    assert(rooms_free_for_stay(first_night, Seq::empty()) =~= first_night.to_set());
}

} // verus!
