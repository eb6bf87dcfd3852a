use std::collections::HashSet;

use bookrs::calendar::{BookingCalendar, HORIZON_NIGHTS};
use bookrs::config::{numbering_fits, Config, Hotel, RoomConfig};

fn hotel(rooms: Vec<(&str, u32)>) -> Config {
    Config {
        hotel: Hotel {
            name: "Grand".to_string(),
            rooms: rooms
                .into_iter()
                .map(|(t, c)| RoomConfig { room_type: t.to_string(), count: c })
                .collect(),
        },
    }
}

#[test]
fn new_calendar_numbers_rooms_in_configuration_order() {
    let cal = BookingCalendar::new(hotel(vec![("king", 2), ("2 queen", 1)]));
    assert_eq!(cal.calendar.len(), 30);
    for day in 0..30u32 {
        let night = &cal.calendar[&day];
        assert_eq!(night.len(), 3);
        assert_eq!(night[&0].room_type, "king");
        assert_eq!(night[&1].room_type, "king");
        assert_eq!(night[&2].room_type, "2 queen");
        assert!(night.values().all(|r| r.available));
    }
    assert!(!cal.calendar.contains_key(&30));
}

#[test]
fn new_calendar_keeps_kinds_with_no_rooms_out() {
    let cal = BookingCalendar::new(hotel(vec![("suite", 0), ("king", 1), ("suite", 2)]));
    let night = &cal.calendar[&7];
    assert_eq!(night.len(), 3);
    assert_eq!(night[&0].room_type, "king");
    assert_eq!(night[&1].room_type, "suite");
    assert_eq!(night[&2].room_type, "suite");
}

#[test]
fn new_calendar_of_a_hotel_without_rooms_has_empty_nights() {
    let cal = BookingCalendar::new(hotel(vec![]));
    assert_eq!(cal.calendar.len(), HORIZON_NIGHTS as usize);
    assert!(cal.calendar.values().all(|n| n.is_empty()));
}

#[test]
fn slots_list_every_room_of_every_night_once() {
    let cal = BookingCalendar::new(hotel(vec![("king", 2), ("twin", 3)]));
    let rows = cal.slots();
    assert_eq!(rows.len(), 150);
    let set: HashSet<(u32, u32)> = rows.iter().cloned().collect();
    assert_eq!(set.len(), 150);
    for day in 0..30u32 {
        for room in 0..5u32 {
            assert!(set.contains(&(room, day)));
        }
    }
    assert!(!set.contains(&(5, 0)));
}

#[test]
fn numbering_fits_up_to_the_largest_room_number() {
    let fits = hotel(vec![("king", u32::MAX)]);
    assert!(numbering_fits(&fits.hotel.rooms));
    let too_many = hotel(vec![("king", u32::MAX), ("twin", 1)]);
    assert!(!numbering_fits(&too_many.hotel.rooms));
    assert!(numbering_fits(&hotel(vec![]).hotel.rooms));
}
