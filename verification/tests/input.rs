use bookrs::input::{
    is_quit, is_quit_lowered, parse_number, parse_request, parse_room_type, InputError, RequestLine,
};

fn number(line: &str) -> Result<u32, InputError> {
    parse_number(RequestLine::NightCount, line)
}

#[test]
fn quit_word_ends_the_session_whatever_its_case() {
    assert!(is_quit("quit"));
    assert!(is_quit("quit\n"));
    assert!(is_quit("QUIT \r\n"));
    assert!(is_quit("Quit\t"));
}

#[test]
fn other_lines_do_not_end_the_session() {
    assert!(!is_quit(" quit"));
    assert!(!is_quit("quits"));
    assert!(!is_quit("qui"));
    assert!(!is_quit(""));
    assert!(!is_quit("3\n"));
}

#[test]
fn lowered_quit_ignores_unicode_trailing_space() {
    assert!(is_quit_lowered("quit\u{3000}\u{85}"));
    assert!(!is_quit_lowered("QUIT"));
}

#[test]
fn numbers_are_read_in_decimal() {
    assert_eq!(number("12\n").unwrap(), 12);
    assert_eq!(number("+7").unwrap(), 7);
    assert_eq!(number("0").unwrap(), 0);
    assert_eq!(number("4294967295\n").unwrap(), u32::MAX);
}

#[test]
fn bad_numbers_are_refused() {
    assert!(number("").is_err());
    assert!(number("\n").is_err());
    assert!(number("-1").is_err());
    assert!(number("+").is_err());
    assert!(number(" 5").is_err());
    assert!(number("1_000").is_err());
    assert!(number("4294967296").is_err());
    assert!(number("seven").is_err());
}

#[test]
fn room_type_loses_trailing_white_space_only() {
    assert_eq!(parse_room_type("  king \n"), "  king");
    assert_eq!(parse_room_type("2 queen"), "2 queen");
}

#[test]
fn request_reads_its_three_lines() {
    let (start, n, room_type) = parse_request("3\n", "2\n", "king\n").unwrap();
    assert_eq!((start, n, room_type.as_str()), (3, 2, "king"));
}

fn failing_line(r: Result<(u32, u32, String), InputError>) -> RequestLine {
    match r {
        Err(InputError::InvalidNumber(line, _)) => line,
        Ok(_) => panic!("request was read"),
    }
}

#[test]
fn request_reports_the_first_line_that_is_not_a_number() {
    assert_eq!(failing_line(parse_request("x\n", "2\n", "king\n")), RequestLine::StartDay);
    assert_eq!(failing_line(parse_request("x\n", "y\n", "king\n")), RequestLine::StartDay);
    assert_eq!(failing_line(parse_request("3\n", "two\n", "king\n")), RequestLine::NightCount);
}

#[test]
fn request_error_carries_the_parser_error() {
    match parse_request("\n", "2\n", "king\n") {
        Err(InputError::InvalidNumber(_, e)) => {
            assert_eq!(*e.kind(), std::num::IntErrorKind::Empty)
        }
        Ok(_) => panic!("request was read"),
    }
    match parse_request("3", "4294967296", "king") {
        Err(InputError::InvalidNumber(_, e)) => {
            assert_eq!(*e.kind(), std::num::IntErrorKind::PosOverflow)
        }
        Ok(_) => panic!("request was read"),
    }
}
