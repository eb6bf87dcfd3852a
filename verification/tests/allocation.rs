use bookrs::allocation::{
    Allocation, AllocationAction, AllocationEvent, AllocationFailure, AllocationPhase,
};
use bookrs::workflow::WorkflowError;

use AllocationAction::{Abort, Assign, CheckAvailable, Done};
use AllocationEvent::{Availability, RowsChanged};

#[test]
fn stay_without_nights_is_done_at_once() {
    let (a, first) = Allocation::start(3, 10, 0);
    assert_eq!(first, Done);
    assert_eq!(a.phase, AllocationPhase::Finished);
}

#[test]
fn two_night_stay_checks_books_and_rechecks_each_night() {
    let (mut a, first) = Allocation::start(4, 6, 2);
    assert_eq!(first, CheckAvailable { room_number: 4, day: 6 });
    let answers = [
        Availability(true),
        RowsChanged(1),
        Availability(false),
        Availability(true),
        RowsChanged(1),
        Availability(false),
    ];
    let actions: Vec<AllocationAction> = answers.iter().map(|e| a.step(*e)).collect();
    assert_eq!(
        actions,
        vec![
            Assign { room_number: 4, day: 6 },
            CheckAvailable { room_number: 4, day: 6 },
            CheckAvailable { room_number: 4, day: 7 },
            Assign { room_number: 4, day: 7 },
            CheckAvailable { room_number: 4, day: 7 },
            Done,
        ]
    );
    assert_eq!(a.phase, AllocationPhase::Finished);
    assert_eq!(a.day, 8);
}

#[test]
fn unavailable_room_stops_the_allocation() {
    let (mut a, _) = Allocation::start(1, 0, 3);
    assert_eq!(a.step(Availability(false)), Abort(AllocationFailure::RoomNotAvailable));
    assert_eq!(a.phase, AllocationPhase::Failed);
}

#[test]
fn update_changing_other_than_one_row_stops_the_allocation() {
    let (mut a, _) = Allocation::start(1, 0, 3);
    a.step(Availability(true));
    assert_eq!(
        a.step(RowsChanged(2)),
        Abort(AllocationFailure::Update(WorkflowError::MoreThanOneRowChanged))
    );
    let (mut b, _) = Allocation::start(1, 0, 3);
    b.step(Availability(true));
    assert_eq!(
        b.step(RowsChanged(0)),
        Abort(AllocationFailure::Update(WorkflowError::MoreThanOneRowChanged))
    );
}

#[test]
fn room_still_available_after_booking_stops_the_allocation() {
    let (mut a, _) = Allocation::start(1, 5, 1);
    a.step(Availability(true));
    a.step(RowsChanged(1));
    assert_eq!(a.step(Availability(true)), Abort(AllocationFailure::StillAvailable));
}

#[test]
fn second_night_failure_keeps_the_first_night_booked_in_order() {
    let (mut a, _) = Allocation::start(2, 0, 2);
    a.step(Availability(true));
    a.step(RowsChanged(1));
    assert_eq!(a.step(Availability(false)), CheckAvailable { room_number: 2, day: 1 });
    assert_eq!(a.day, 1);
    assert_eq!(a.step(Availability(false)), Abort(AllocationFailure::RoomNotAvailable));
}

#[test]
fn stay_ending_on_the_last_night_number() {
    let (mut a, first) = Allocation::start(0, u32::MAX - 1, 1);
    assert_eq!(first, CheckAvailable { room_number: 0, day: u32::MAX - 1 });
    a.step(Availability(true));
    a.step(RowsChanged(1));
    assert_eq!(a.step(Availability(false)), Done);
}

#[test]
fn unexpected_answer_stops_the_allocation() {
    let (mut a, _) = Allocation::start(1, 0, 2);
    assert_eq!(a.step(RowsChanged(1)), Abort(AllocationFailure::RoomNotAvailable));
    assert_eq!(a.phase, AllocationPhase::Failed);
    let (mut done, _) = Allocation::start(1, 0, 0);
    assert_eq!(done.step(Availability(false)), Abort(AllocationFailure::RoomNotAvailable));
}

#[test]
fn night_already_booked_is_never_booked_again() {
    let (mut a, first) = Allocation::start(8, 3, 2);
    assert_eq!(first, CheckAvailable { room_number: 8, day: 3 });
    let answers = [Availability(false), Availability(true), RowsChanged(1), Availability(false)];
    let actions: Vec<AllocationAction> = answers.iter().map(|e| a.step(*e)).collect();
    assert!(actions.iter().all(|x| matches!(x, Abort(_))));
    assert_eq!(actions[0], Abort(AllocationFailure::RoomNotAvailable));
}
