//! Booking one room for every night of a stay against the calendar store.
//!
//! The store is outside the library: the caller asks it what each action
//! requests and hands the answer back as an event. For every night, in order,
//! the room must be reported available, then the booking update must change
//! exactly one row, then the room must be reported no longer available.
use vstd::prelude::*;

use crate::workflow::{assign_room, WorkflowError};

verus! {

/// What an allocation waits for.
#[derive(Clone, Copy, Debug, PartialEq, Eq, Structural)]
pub enum AllocationPhase {
    /// The room's availability on the current night, before booking it.
    VerifyFree,
    /// The number of rows the booking update changed.
    Assign,
    /// The room's availability on the current night, after booking it.
    ConfirmBooked,
    /// Nothing: every night is booked.
    Finished,
    /// Nothing: the allocation stopped.
    Failed,
}

/// What the store answered.
#[derive(Clone, Copy, Debug, PartialEq, Eq, Structural)]
pub enum AllocationEvent {
    /// Whether the room is available on the night asked about.
    Availability(bool),
    /// How many rows the booking update changed.
    RowsChanged(usize),
}

/// Why an allocation stopped.
#[derive(Clone, Copy, Debug, PartialEq, Eq, Structural)]
pub enum AllocationFailure {
    /// The room was not available on a night it was to be booked for.
    RoomNotAvailable,
    /// The booking update did not change exactly one row.
    Update(WorkflowError),
    /// The room was still available on a night right after it was booked.
    StillAvailable,
}

/// What the caller is to do next.
#[derive(Clone, Copy, Debug, PartialEq, Eq, Structural)]
pub enum AllocationAction {
    /// Ask the store whether the room is available on the night.
    CheckAvailable { room_number: u32, day: u32 },
    /// Book the room for the night in the store.
    Assign { room_number: u32, day: u32 },
    /// The room is booked for every night of the stay.
    Done,
    /// The allocation stopped.
    Abort(AllocationFailure),
}

/// The progress of booking `room_number` for the nights `start_day .. end_day`.
#[derive(Clone, Copy, Debug, PartialEq, Eq, Structural)]
pub struct Allocation {
    pub room_number: u32,
    pub start_day: u32,
    pub end_day: u32,
    /// The night being booked.
    pub day: u32,
    pub phase: AllocationPhase,
}

impl Allocation {
    /// The nights are in order and the current one lies in the stay while one is being booked.
    pub open spec fn wf(self) -> bool {
        &&& self.start_day <= self.day <= self.end_day
        &&& (self.phase is VerifyFree || self.phase is Assign || self.phase is ConfirmBooked)
            ==> self.day < self.end_day
        &&& self.phase is Finished ==> self.day == self.end_day
    }

    /// The same allocation, stopped.
    pub open spec fn failed(self) -> Allocation {
        Allocation { phase: AllocationPhase::Failed, ..self }
    }

    /// The state and action that follow an event; an event that the allocation
    /// does not wait for stops it.
    pub open spec fn next(self, event: AllocationEvent) -> (Allocation, AllocationAction) {
        match (self.phase, event) {
            (AllocationPhase::VerifyFree, AllocationEvent::Availability(true)) => (
                Allocation { phase: AllocationPhase::Assign, ..self },
                AllocationAction::Assign { room_number: self.room_number, day: self.day },
            ),
            (AllocationPhase::VerifyFree, AllocationEvent::Availability(false)) => (
                self.failed(),
                AllocationAction::Abort(AllocationFailure::RoomNotAvailable),
            ),
            (AllocationPhase::Assign, AllocationEvent::RowsChanged(rows)) => if rows == 1 {
                (
                    Allocation { phase: AllocationPhase::ConfirmBooked, ..self },
                    AllocationAction::CheckAvailable { room_number: self.room_number, day: self.day },
                )
            } else {
                (
                    self.failed(),
                    AllocationAction::Abort(
                        AllocationFailure::Update(WorkflowError::MoreThanOneRowChanged),
                    ),
                )
            },
            (AllocationPhase::ConfirmBooked, AllocationEvent::Availability(false)) => if self.day
                + 1 < self.end_day {
                (
                    Allocation {
                        phase: AllocationPhase::VerifyFree,
                        day: (self.day + 1) as u32,
                        ..self
                    },
                    AllocationAction::CheckAvailable {
                        room_number: self.room_number,
                        day: (self.day + 1) as u32,
                    },
                )
            } else {
                (
                    Allocation { phase: AllocationPhase::Finished, day: self.end_day, ..self },
                    AllocationAction::Done,
                )
            },
            (AllocationPhase::ConfirmBooked, AllocationEvent::Availability(true)) => (
                self.failed(),
                AllocationAction::Abort(AllocationFailure::StillAvailable),
            ),
            _ => (self.failed(), AllocationAction::Abort(AllocationFailure::RoomNotAvailable)),
        }
    }

    /// The allocation of `room_number` for `n_days` nights from `start_day`,
    /// and the first thing to do: nothing is left when the stay has no night.
    pub open spec fn initial(room_number: u32, start_day: u32, n_days: u32) -> (Allocation, AllocationAction) {
        if n_days == 0 {
            (
                Allocation {
                    room_number,
                    start_day,
                    end_day: start_day,
                    day: start_day,
                    phase: AllocationPhase::Finished,
                },
                AllocationAction::Done,
            )
        } else {
            (
                Allocation {
                    room_number,
                    start_day,
                    end_day: (start_day + n_days) as u32,
                    day: start_day,
                    phase: AllocationPhase::VerifyFree,
                },
                AllocationAction::CheckAvailable { room_number, day: start_day },
            )
        }
    }

    /// Starts booking `room_number` for `n_days` nights from `start_day`.
    pub fn start(room_number: u32, start_day: u32, n_days: u32) -> (result: (Allocation, AllocationAction))
        requires
            start_day + n_days <= u32::MAX,
        ensures
            result == Self::initial(room_number, start_day, n_days),
            result.0.wf(),
            result.1 == AllocationAction::Done <==> n_days == 0,
            n_days > 0 ==> (result.1 == (AllocationAction::CheckAvailable { room_number, day: start_day })),
            result.0.room_number == room_number,
            result.0.start_day == start_day,
            result.0.end_day == start_day + n_days,
    {
        let end_day: u32 = start_day + n_days;
        if start_day < end_day {
            (
                Allocation {
                    room_number,
                    start_day,
                    end_day,
                    day: start_day,
                    phase: AllocationPhase::VerifyFree,
                },
                AllocationAction::CheckAvailable { room_number, day: start_day },
            )
        } else {
            (
                Allocation {
                    room_number,
                    start_day,
                    end_day,
                    day: start_day,
                    phase: AllocationPhase::Finished,
                },
                AllocationAction::Done,
            )
        }
    }

    /// Takes the store's answer to the last action and says what to do next.
    pub fn step(&mut self, event: AllocationEvent) -> (action: AllocationAction)
        requires
            old(self).wf(),
        ensures
            (*final(self), action) == old(self).next(event),
            final(self).wf(),
            action == AllocationAction::Done <==> final(self).phase is Finished,
            action is Abort <==> final(self).phase is Failed,
            (action == AllocationAction::Done ==> ({
                &&& old(self).phase is ConfirmBooked
                &&& event == AllocationEvent::Availability(false)
                &&& old(self).day + 1 == old(self).end_day
            })),
            (action matches AllocationAction::Assign { room_number, day } ==> ({
                &&& old(self).phase is VerifyFree
                &&& event == AllocationEvent::Availability(true)
                &&& room_number == old(self).room_number
                &&& day == old(self).day
            })),
            (old(self).phase is VerifyFree && event == AllocationEvent::Availability(false) ==> action
                == AllocationAction::Abort(AllocationFailure::RoomNotAvailable)),
            (old(self).phase is Assign && (event matches AllocationEvent::RowsChanged(rows) && rows
                != 1) ==> action == AllocationAction::Abort(
                AllocationFailure::Update(WorkflowError::MoreThanOneRowChanged),
            )),
            (old(self).phase is ConfirmBooked && event == AllocationEvent::Availability(true) ==> action
                == AllocationAction::Abort(AllocationFailure::StillAvailable)),
    {
        match (self.phase, event) {
            (AllocationPhase::VerifyFree, AllocationEvent::Availability(available)) => {
                if available {
                    self.phase = AllocationPhase::Assign;
                    AllocationAction::Assign { room_number: self.room_number, day: self.day }
                } else {
                    self.phase = AllocationPhase::Failed;
                    AllocationAction::Abort(AllocationFailure::RoomNotAvailable)
                }
            },
            (AllocationPhase::Assign, AllocationEvent::RowsChanged(rows)) => {
                match assign_room(rows) {
                    Ok(()) => {
                        self.phase = AllocationPhase::ConfirmBooked;
                        AllocationAction::CheckAvailable { room_number: self.room_number, day: self.day }
                    },
                    Err(e) => {
                        self.phase = AllocationPhase::Failed;
                        AllocationAction::Abort(AllocationFailure::Update(e))
                    },
                }
            },
            (AllocationPhase::ConfirmBooked, AllocationEvent::Availability(available)) => {
                if available {
                    self.phase = AllocationPhase::Failed;
                    AllocationAction::Abort(AllocationFailure::StillAvailable)
                } else if self.day + 1 < self.end_day {
                    self.day = self.day + 1;
                    self.phase = AllocationPhase::VerifyFree;
                    AllocationAction::CheckAvailable { room_number: self.room_number, day: self.day }
                } else {
                    self.day = self.end_day;
                    self.phase = AllocationPhase::Finished;
                    AllocationAction::Done
                }
            },
            _ => {
                self.phase = AllocationPhase::Failed;
                AllocationAction::Abort(AllocationFailure::RoomNotAvailable)
            },
        }
    }
}

/// The state reached and the actions issued when the events are answered in turn.
pub open spec fn run(a: Allocation, events: Seq<AllocationEvent>) -> (Allocation, Seq<AllocationAction>)
    decreases events.len(),
{
    if events.len() == 0 {
        (a, Seq::empty())
    } else {
        let (b, action) = a.next(events[0]);
        let (c, rest) = run(b, events.drop_first());
        (c, seq![action] + rest)
    }
}

/// The store's answers when every one of `nights` nights goes well: the room
/// is available, the update changes one row, the room is then taken.
pub open spec fn nightly_answers(nights: nat) -> Seq<AllocationEvent>
    decreases nights,
{
    if nights == 0 {
        Seq::empty()
    } else {
        seq![
            AllocationEvent::Availability(true),
            AllocationEvent::RowsChanged(1),
            AllocationEvent::Availability(false),
        ] + nightly_answers((nights - 1) as nat)
    }
}

/// The actions issued while the nights `day .. end_day` of a stay are booked
/// without trouble, after the first check of night `day`.
pub open spec fn nightly_actions(room_number: u32, day: u32, end_day: u32) -> Seq<AllocationAction>
    decreases end_day - day,
{
    if day + 1 >= end_day {
        seq![
            AllocationAction::Assign { room_number, day },
            AllocationAction::CheckAvailable { room_number, day },
            AllocationAction::Done,
        ]
    } else {
        seq![
            AllocationAction::Assign { room_number, day },
            AllocationAction::CheckAvailable { room_number, day },
            AllocationAction::CheckAvailable { room_number, day: (day + 1) as u32 },
        ] + nightly_actions(room_number, (day + 1) as u32, end_day)
    }
}

proof fn lemma_run_failed(a: Allocation, events: Seq<AllocationEvent>)
    requires
        a.phase is Failed,
    ensures
        run(a, events).0.phase is Failed,
    decreases events.len(),
{
    if events.len() > 0 {
        lemma_run_failed(a.next(events[0]).0, events.drop_first());
    }
}

proof fn lemma_run_finished(a: Allocation, events: Seq<AllocationEvent>)
    requires
        a.phase is Finished,
    ensures
        run(a, events).0.phase is Finished <==> events.len() == 0,
{
    if events.len() > 0 {
        lemma_run_failed(a.next(events[0]).0, events.drop_first());
    }
}

proof fn lemma_run_three(a: Allocation, events: Seq<AllocationEvent>)
    requires
        events.len() >= 3,
    ensures
        ({
            let (b, x) = a.next(events[0]);
            let (c, y) = b.next(events[1]);
            let (d, z) = c.next(events[2]);
            let (e, rest) = run(d, events.skip(3));
            run(a, events) == (e, seq![x, y, z] + rest)
        }),
{
    let (b, x) = a.next(events[0]);
    let (c, y) = b.next(events[1]);
    let (d, z) = c.next(events[2]);
    let e1 = events.drop_first();
    let e2 = e1.drop_first();
    let e3 = e2.drop_first();
    assert(e3 =~= events.skip(3));
    let (r, rest) = run(d, e3);
    assert(run(c, e2) == (r, seq![z] + rest));
    assert(run(b, e1) == (r, seq![y] + (seq![z] + rest)));
    assert(run(a, events) == (r, seq![x] + (seq![y] + (seq![z] + rest))));
    assert(seq![x] + (seq![y] + (seq![z] + rest)) =~= seq![x, y, z] + rest);
}

/// From a check of night `day`, the run finishes exactly on the answers of a
/// trouble-free stay, and then issues the trouble-free actions.
proof fn lemma_run_from_night(a: Allocation, events: Seq<AllocationEvent>)
    requires
        a.wf(),
        a.phase is VerifyFree,
    ensures
        run(a, events).0.phase is Finished <==> events == nightly_answers((a.end_day - a.day) as nat),
        events == nightly_answers((a.end_day - a.day) as nat) ==> run(a, events).1 == nightly_actions(
            a.room_number,
            a.day,
            a.end_day,
        ),
    decreases a.end_day - a.day,
{
    let n = (a.end_day - a.day) as nat;
    let good = nightly_answers(n);
    assert(good == seq![
        AllocationEvent::Availability(true),
        AllocationEvent::RowsChanged(1),
        AllocationEvent::Availability(false),
    ] + nightly_answers((n - 1) as nat));
    assert(good.skip(3) =~= nightly_answers((n - 1) as nat));
    if events.len() < 3 {
        lemma_run_short(a, events);
        assert(events != good);
    } else {
        lemma_run_three(a, events);
        let (b, x) = a.next(events[0]);
        let (c, y) = b.next(events[1]);
        let (d, z) = c.next(events[2]);
        let ok = events[0] == AllocationEvent::Availability(true) && events[1]
            == AllocationEvent::RowsChanged(1) && events[2] == AllocationEvent::Availability(false);
        if !ok {
            if events[0] != AllocationEvent::Availability(true) {
                assert(b.phase is Failed);
                lemma_run_failed(b, events.drop_first());
                lemma_run_three_failed(b, c, d, events);
            } else if events[1] != AllocationEvent::RowsChanged(1) {
                assert(c.phase is Failed);
                lemma_run_three_failed(b, c, d, events);
            } else {
                assert(d.phase is Failed);
                lemma_run_three_failed(b, c, d, events);
            }
            assert(events[0] == good[0] && events[1] == good[1] && events[2] == good[2] ==> ok);
            assert(events != good);
        } else {
            if a.day + 1 < a.end_day {
                assert(d.phase is VerifyFree && d.day == a.day + 1);
                lemma_run_from_night(d, events.skip(3));
                assert((d.end_day - d.day) as nat == n - 1);
                assert(events == good <==> events.skip(3) == good.skip(3)) by {
                    if events.skip(3) == good.skip(3) {
                        assert forall|i: int| 0 <= i < events.len() implies events[i] == good[i] by {
                            if i >= 3 {
                                assert(events[i] == events.skip(3)[i - 3]);
                            }
                        }
                        assert(events =~= good);
                    }
                }
            } else {
                assert(d.phase is Finished);
                lemma_run_finished(d, events.skip(3));
                assert(n == 1);
                assert(nightly_answers(0) =~= Seq::<AllocationEvent>::empty());
                assert(events == good <==> events.skip(3).len() == 0) by {
                    if events.skip(3).len() == 0 {
                        assert(events =~= good);
                    }
                }
                assert(run(d, Seq::<AllocationEvent>::empty()).1 =~= Seq::<AllocationAction>::empty());
            }
            if events == good {
                assert(seq![x, y, z] + run(d, events.skip(3)).1 =~= nightly_actions(
                    a.room_number,
                    a.day,
                    a.end_day,
                ));
            }
        }
    }
}

proof fn lemma_run_three_failed(b: Allocation, c: Allocation, d: Allocation, events: Seq<AllocationEvent>)
    requires
        events.len() >= 3,
        c == b.next(events[1]).0,
        d == c.next(events[2]).0,
        b.phase is Failed || c.phase is Failed || d.phase is Failed,
    ensures
        run(d, events.skip(3)).0.phase is Failed,
{
    assert(d.phase is Failed);
    lemma_run_failed(d, events.skip(3));
}

proof fn lemma_run_short(a: Allocation, events: Seq<AllocationEvent>)
    requires
        a.wf(),
        a.phase is VerifyFree,
        events.len() < 3,
    ensures
        !(run(a, events).0.phase is Finished),
{
    if events.len() > 0 {
        let (b, x) = a.next(events[0]);
        let e1 = events.drop_first();
        assert(run(a, events).0 == run(b, e1).0);
        assert(b.phase is Assign || b.phase is Failed);
        if e1.len() > 0 {
            let (c, y) = b.next(e1[0]);
            let e2 = e1.drop_first();
            assert(run(b, e1).0 == run(c, e2).0);
            assert(c.phase is ConfirmBooked || c.phase is Failed);
            if e2.len() > 0 {
                let (d, z) = c.next(e2[0]);
                let e3 = e2.drop_first();
                assert(e3.len() == 0);
                assert(run(c, e2).0 == run(d, e3).0);
                assert(run(d, e3).0 == d);
                if d.phase is Finished {
                    assert(c.phase is ConfirmBooked);
                    assert(b.phase is Assign);
                    assert(a.day + 1 >= a.end_day);
                }
            } else {
                assert(run(c, e2).0 == c);
            }
        } else {
            assert(run(b, e1).0 == b);
        }
    }
}

/// A stay is booked to the end exactly when the store gives, night after
/// night, the answers of a trouble-free booking; the allocation then checks,
/// books and re-checks the same room on every night of the stay, in order.
pub proof fn lemma_allocation_books_every_night(
    room_number: u32,
    start_day: u32,
    n_days: u32,
    events: Seq<AllocationEvent>,
)
    requires
        start_day + n_days <= u32::MAX,
    ensures
        ({
            let (a, first) = Allocation::initial(room_number, start_day, n_days);
            &&& run(a, events).0.phase is Finished <==> events == nightly_answers(n_days as nat)
            &&& n_days == 0 ==> first == AllocationAction::Done
            &&& n_days > 0 ==> first == AllocationAction::CheckAvailable { room_number, day: start_day }
            &&& n_days > 0 && events == nightly_answers(n_days as nat) ==> run(a, events).1
                == nightly_actions(room_number, start_day, (start_day + n_days) as u32)
        }),
{
    let (a, first) = Allocation::initial(room_number, start_day, n_days);
    if n_days == 0 {
        lemma_run_finished(a, events);
        assert(nightly_answers(0) =~= Seq::<AllocationEvent>::empty());
        if events.len() == 0 {
            assert(events =~= nightly_answers(0));
        }
    } else {
        assert(a.wf() && a.phase is VerifyFree);
        assert((a.end_day - a.day) as nat == n_days as nat);
        lemma_run_from_night(a, events);
    }
}

proof fn lemma_run_append(a: Allocation, e1: Seq<AllocationEvent>, e2: Seq<AllocationEvent>)
    ensures
        run(a, e1 + e2) == (run(run(a, e1).0, e2).0, run(a, e1).1 + run(run(a, e1).0, e2).1),
    decreases e1.len(),
{
    if e1.len() == 0 {
        assert(e1 + e2 =~= e2);
        assert(run(a, e1).1 + run(a, e2).1 =~= run(a, e2).1);
    } else {
        let b = a.next(e1[0]).0;
        lemma_run_append(b, e1.drop_first(), e2);
        assert((e1 + e2).drop_first() =~= e1.drop_first() + e2);
        assert(seq![a.next(e1[0]).1] + (run(b, e1.drop_first()).1 + run(run(b, e1.drop_first()).0, e2).1)
            =~= (seq![a.next(e1[0]).1] + run(b, e1.drop_first()).1) + run(run(b, e1.drop_first()).0, e2).1);
    }
}

proof fn lemma_run_len(a: Allocation, events: Seq<AllocationEvent>)
    ensures
        run(a, events).1.len() == events.len(),
    decreases events.len(),
{
    if events.len() > 0 {
        lemma_run_len(a.next(events[0]).0, events.drop_first());
    }
}

/// The state after the first `k` answers, and the action issued on answer `k`.
proof fn lemma_run_at(a: Allocation, events: Seq<AllocationEvent>, k: int)
    requires
        0 <= k < events.len(),
    ensures
        run(a, events.take(k + 1)).0 == run(a, events.take(k)).0.next(events[k]).0,
        run(a, events).1[k] == run(a, events.take(k)).0.next(events[k]).1,
        k > 0 ==> run(a, events).1[k - 1] == run(a, events.take(k)).1[k - 1],
{
    let s = run(a, events.take(k)).0;
    let one = seq![events[k]];
    assert(events.take(k + 1) =~= events.take(k) + one);
    lemma_run_append(a, events.take(k), one);
    assert(one.drop_first() =~= Seq::<AllocationEvent>::empty());
    assert(one[0] == events[k]);
    let b = s.next(events[k]).0;
    assert(run(b, one.drop_first()) == (b, Seq::<AllocationAction>::empty()));
    assert(run(s, one) == (b, seq![s.next(events[k]).1] + Seq::<AllocationAction>::empty()));
    assert(run(s, one).1 =~= seq![s.next(events[k]).1]);
    assert(events =~= events.take(k) + events.skip(k));
    lemma_run_append(a, events.take(k), events.skip(k));
    lemma_run_len(a, events.take(k));
    let rest = events.skip(k);
    assert(rest[0] == events[k]);
    assert(run(s, rest).1[0] == s.next(events[k]).1);
}

/// What an allocation started from `first` has issued last after the first `k`
/// answers: the first action, or the action issued on answer `k - 1`.
pub open spec fn last_action(
    a: Allocation,
    first: AllocationAction,
    events: Seq<AllocationEvent>,
    k: int,
) -> AllocationAction {
    if k == 0 {
        first
    } else {
        run(a, events.take(k)).1[k - 1]
    }
}

/// While a night is being booked, the last action issued concerns that night.
proof fn lemma_last_action(
    room_number: u32,
    start_day: u32,
    n_days: u32,
    events: Seq<AllocationEvent>,
    k: int,
)
    requires
        start_day + n_days <= u32::MAX,
        0 <= k <= events.len(),
    ensures
        ({
            let (a, first) = Allocation::initial(room_number, start_day, n_days);
            let s = run(a, events.take(k)).0;
            let last = last_action(a, first, events, k);
            &&& s.wf()
            &&& s.room_number == room_number
            &&& s.start_day == start_day
            &&& s.end_day == a.end_day
            &&& s.phase is VerifyFree ==> last == AllocationAction::CheckAvailable { room_number, day: s.day }
            &&& s.phase is Assign ==> last == AllocationAction::Assign { room_number, day: s.day }
            &&& s.phase is ConfirmBooked ==> last == AllocationAction::CheckAvailable { room_number, day: s.day }
        }),
    decreases k,
{
    let (a, first) = Allocation::initial(room_number, start_day, n_days);
    if k == 0 {
        assert(events.take(0) =~= Seq::<AllocationEvent>::empty());
    } else {
        lemma_last_action(room_number, start_day, n_days, events, k - 1);
        lemma_run_at(a, events, k - 1);
        lemma_run_at(a, events.take(k), k - 1);
        assert(events.take(k).take(k - 1) =~= events.take(k - 1));
        assert(events.take(k).take(k) =~= events.take(k));
        assert(events.take(k)[k - 1] == events[k - 1]);
    }
}

/// A reservation is honoured: in any run, the room is booked for a night only
/// in answer to a check of that very night which found the room available, the
/// night lies in the stay, and once the allocation has finished or stopped it
/// books nothing more.
pub proof fn lemma_booking_only_after_a_free_night(
    room_number: u32,
    start_day: u32,
    n_days: u32,
    events: Seq<AllocationEvent>,
    k: int,
)
    requires
        start_day + n_days <= u32::MAX,
        0 <= k < events.len(),
    ensures
        ({
            let (a, first) = Allocation::initial(room_number, start_day, n_days);
            let actions = run(a, events).1;
            let before = run(a, events.take(k)).0;
            &&& actions[k] matches AllocationAction::Assign { room_number: r, day: d } ==> {
                &&& r == room_number
                &&& start_day <= d < start_day + n_days
                &&& last_action(a, first, events, k) == AllocationAction::CheckAvailable {
                    room_number,
                    day: d,
                }
                &&& events[k] == AllocationEvent::Availability(true)
            }
            &&& (before.phase is Finished || before.phase is Failed) ==> actions[k] is Abort
        }),
{
    let (a, first) = Allocation::initial(room_number, start_day, n_days);
    lemma_last_action(room_number, start_day, n_days, events, k);
    lemma_run_at(a, events, k);
}

/// What each answer of the store leads to. The allocation reports the stay
/// booked (`Done`) exactly when it has finished, and only on the "taken"
/// answer that confirms the booking of the stay's last night; it stops
/// (`Abort`) exactly when it fails. A room found unavailable before booking
/// stops it with `RoomNotAvailable`; an update that changes other than one
/// row stops it with `MoreThanOneRowChanged`; a room still available after
/// booking stops it with `StillAvailable`. A booking is issued only for the
/// allocation's room and current night, on an "available" answer.
pub proof fn lemma_answer_outcomes(s: Allocation, event: AllocationEvent)
    requires
        s.wf(),
    ensures
        ({
            let (t, action) = s.next(event);
            &&& t.wf()
            &&& t.room_number == s.room_number
            &&& t.start_day == s.start_day
            &&& t.end_day == s.end_day
            &&& action == AllocationAction::Done <==> t.phase is Finished
            &&& action is Abort <==> t.phase is Failed
            &&& action == AllocationAction::Done ==> {
                &&& s.phase is ConfirmBooked
                &&& event == AllocationEvent::Availability(false)
                &&& s.day + 1 == s.end_day
            }
            &&& action matches AllocationAction::Assign { room_number, day } ==> {
                &&& s.phase is VerifyFree
                &&& event == AllocationEvent::Availability(true)
                &&& room_number == s.room_number
                &&& day == s.day
            }
            &&& s.phase is VerifyFree && event == AllocationEvent::Availability(false) ==> action
                == AllocationAction::Abort(AllocationFailure::RoomNotAvailable)
            &&& s.phase is Assign && (event matches AllocationEvent::RowsChanged(rows) && rows != 1)
                ==> action == AllocationAction::Abort(
                AllocationFailure::Update(WorkflowError::MoreThanOneRowChanged),
            )
            &&& s.phase is ConfirmBooked && event == AllocationEvent::Availability(true) ==> action
                == AllocationAction::Abort(AllocationFailure::StillAvailable)
        }),
{
}

/// In any run, the stay is reported booked (`Done`) only once the store has
/// given, night after night and in order, exactly the answers of a
/// trouble-free booking of every night of the stay: each night found
/// available, booked with one row changed, then found taken.
pub proof fn lemma_done_only_after_every_night_booked(
    room_number: u32,
    start_day: u32,
    n_days: u32,
    events: Seq<AllocationEvent>,
    k: int,
)
    requires
        start_day + n_days <= u32::MAX,
        0 <= k < events.len(),
        run(Allocation::initial(room_number, start_day, n_days).0, events).1[k]
            == AllocationAction::Done,
    ensures
        n_days > 0,
        events.take(k + 1) == nightly_answers(n_days as nat),
        k + 1 == 3 * n_days,
{
    let (a, first) = Allocation::initial(room_number, start_day, n_days);
    lemma_last_action(room_number, start_day, n_days, events, k);
    lemma_run_at(a, events, k);
    let s = run(a, events.take(k)).0;
    lemma_answer_outcomes(s, events[k]);
    assert(run(a, events.take(k + 1)).0.phase is Finished);
    lemma_allocation_books_every_night(room_number, start_day, n_days, events.take(k + 1));
    assert(events.take(k + 1).len() == k + 1);
    lemma_nightly_answers_len(n_days as nat);
    if n_days == 0 {
        assert(nightly_answers(0) =~= Seq::<AllocationEvent>::empty());
    }
}

proof fn lemma_nightly_answers_len(nights: nat)
    ensures
        nightly_answers(nights).len() == 3 * nights,
    decreases nights,
{
    if nights > 0 {
        lemma_nightly_answers_len((nights - 1) as nat);
    }
}

} // verus!
