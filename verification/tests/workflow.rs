use std::collections::HashSet;

use bookrs::workflow::{
    assign_room, check_room_available, search_rooms, select_room, stay_nights, WorkflowError,
};

#[test]
fn room_is_available_when_every_row_says_so() {
    assert!(check_room_available(&vec![true]));
    assert!(check_room_available(&vec![true, true]));
    assert!(!check_room_available(&vec![true, false]));
    assert!(!check_room_available(&vec![false]));
}

#[test]
fn room_is_available_when_no_row_is_returned() {
    assert!(check_room_available(&vec![]));
}

#[test]
fn assignment_must_change_exactly_one_row() {
    assert_eq!(assign_room(1), Ok(()));
    assert_eq!(assign_room(0), Err(WorkflowError::MoreThanOneRowChanged));
    assert_eq!(assign_room(2), Err(WorkflowError::MoreThanOneRowChanged));
}

#[test]
fn search_keeps_the_rooms_free_on_every_night() {
    let first = vec![1, 2, 3, 4];
    let nights = vec![vec![1, 2, 3, 4], vec![4, 2, 9], vec![2, 4, 4]];
    let found = search_rooms(&first, &nights);
    let expected: HashSet<u32> = [2, 4].into_iter().collect();
    assert_eq!(found, expected);
}

#[test]
fn search_of_a_stay_without_nights_gives_the_first_night_rooms() {
    let found = search_rooms(&vec![5, 6, 5], &vec![]);
    let expected: HashSet<u32> = [5, 6].into_iter().collect();
    assert_eq!(found, expected);
}

#[test]
fn search_finds_nothing_when_one_night_is_full() {
    let found = search_rooms(&vec![1, 2], &vec![vec![1, 2], vec![]]);
    assert!(found.is_empty());
    assert!(search_rooms(&vec![], &vec![vec![1]]).is_empty());
}

#[test]
fn select_takes_a_room_of_the_set() {
    let one: HashSet<u32> = [7].into_iter().collect();
    assert_eq!(select_room(&one), Ok(7));
    let many: HashSet<u32> = [1, 2, 3].into_iter().collect();
    let room = select_room(&many).unwrap();
    assert!(many.contains(&room));
}

#[test]
fn select_fails_on_no_room() {
    assert_eq!(select_room(&HashSet::new()), Err(WorkflowError::NoAvailableRooms));
}

#[test]
fn selected_room_after_search_is_free_all_stay() {
    let first = vec![10, 11, 12];
    let nights = vec![vec![12, 11], vec![11, 12, 13], vec![11]];
    let room = select_room(&search_rooms(&first, &nights)).unwrap();
    assert_eq!(room, 11);
    assert!(first.contains(&room) && nights.iter().all(|n| n.contains(&room)));
}

#[test]
fn stay_nights_run_from_the_first_night() {
    assert_eq!(stay_nights(3, 4), vec![3, 4, 5, 6]);
    assert!(stay_nights(9, 0).is_empty());
    assert_eq!(stay_nights(u32::MAX - 1, 1), vec![u32::MAX - 1]);
}

#[test]
fn errors_report_the_original_texts() {
    assert_eq!(WorkflowError::NoAvailableRooms.message(), "no available rooms");
    assert_eq!(WorkflowError::MoreThanOneRowChanged.message(), "More than one row changed");
}
