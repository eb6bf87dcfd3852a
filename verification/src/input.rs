//! The operator's input lines: the word that ends the session, and the
//! numbers and room type of a booking request.
use std::num::ParseIntError;
use vstd::prelude::*;

verus! {

/// `std::num::ParseIntError`, the error of parsing an integer, carried as it is.
#[verifier::external_type_specification]
#[verifier::external_body]
pub struct ExParseIntError(ParseIntError);

/// Whether a character has the Unicode `White_Space` property (PropList.txt).
pub open spec fn is_white_space(c: char) -> bool {
    let u = c as u32;
    ||| 0x9 <= u <= 0xD
    ||| u == 0x20
    ||| u == 0x85
    ||| u == 0xA0
    ||| u == 0x1680
    ||| 0x2000 <= u <= 0x200A
    ||| u == 0x2028
    ||| u == 0x2029
    ||| u == 0x202F
    ||| u == 0x205F
    ||| u == 0x3000
}

/// A text without its trailing white space.
pub open spec fn trim_trailing_white_space(s: Seq<char>) -> Seq<char>
    decreases s.len(),
{
    if s.len() > 0 && is_white_space(s.last()) {
        trim_trailing_white_space(s.drop_last())
    } else {
        s
    }
}

/// Whether a character is an ASCII decimal digit.
pub open spec fn is_decimal_digit(c: char) -> bool {
    '0' <= c <= '9'
}

/// The value of a string of decimal digits.
pub open spec fn digits_value(d: Seq<char>) -> nat
    decreases d.len(),
{
    if d.len() == 0 {
        0
    } else {
        digits_value(d.drop_last()) * 10 + ((d.last() as u32) - ('0' as u32)) as nat
    }
}

/// The `u32` that a text writes in decimal: an optional `+`, then one or more
/// digits, of a value that fits; `None` for any other text.
pub open spec fn decimal_u32(s: Seq<char>) -> Option<u32> {
    let digits = if s.len() > 0 && s[0] == '+' { s.drop_first() } else { s };
    if digits.len() > 0 && (forall|i: int| 0 <= i < digits.len() ==> is_decimal_digit(#[trigger] digits[i]))
        && digits_value(digits) <= u32::MAX {
        Some(digits_value(digits) as u32)
    } else {
        None
    }
}

/// What `str::to_lowercase` makes of a text (Unicode's lowercase mapping).
pub uninterp spec fn lowercase(s: Seq<char>) -> Seq<char>;

/// The word that ends the session.
pub open spec fn quit_word() -> Seq<char> {
    seq!['q', 'u', 'i', 't']
}

/// `str::trim_end`: the text without its trailing characters that have the
/// Unicode `White_Space` property, as its documentation says.
#[verifier::external_body]
fn trim_end(s: &str) -> (trimmed: &str)
    ensures
        trimmed@ == trim_trailing_white_space(s@),
{
    s.trim_end()
}

/// `str::to_lowercase`: the lowercase mapping of the text; the mapping is
/// Unicode's and is not spelled out here, only named.
#[verifier::external_body]
fn to_lowercase(s: &str) -> (lowered: String)
    ensures
        lowered@ == lowercase(s@),
{
    s.to_lowercase()
}

/// `<u32 as FromStr>::from_str` (`str::parse::<u32>`): succeeds exactly on an
/// optional `+` followed by decimal digits whose value fits, with that value,
/// as its documentation says; which error it returns otherwise is not stated.
#[verifier::external_body]
fn parse_u32(s: &str) -> (parsed: Result<u32, ParseIntError>)
    ensures
        parsed is Ok <==> decimal_u32(s@) is Some,
        parsed matches Ok(v) ==> decimal_u32(s@) == Some(v),
{
    s.parse::<u32>()
}

/// Whether an already lowercased line is the word `quit`, trailing white space aside.
pub fn is_quit_lowered(lowered: &str) -> (quit: bool)
    ensures
        quit == (trim_trailing_white_space(lowered@) == quit_word()),
{
    let trimmed = trim_end(lowered).to_owned();
    let word = "quit".to_owned();
    proof {
        reveal_strlit("quit");
        assert("quit"@ =~= quit_word());
    }
    trimmed == word
}

/// Whether a line asks to end the session: lowercased and without trailing
/// white space, it is the word `quit`.
pub fn is_quit(line: &str) -> (quit: bool)
    ensures
        quit == (trim_trailing_white_space(lowercase(line@)) == quit_word()),
{
    let lowered = to_lowercase(line);
    is_quit_lowered(lowered.as_str())
}

/// The numeric lines of a request.
#[derive(Clone, Copy, Debug, PartialEq, Eq, Structural)]
pub enum RequestLine {
    /// The first night of the stay.
    StartDay,
    /// The number of nights.
    NightCount,
}

/// Why a request could not be read.
#[derive(Debug)]
pub enum InputError {
    /// The given line of the request does not write a decimal `u32`; the
    /// parser's own error is carried as it is.
    InvalidNumber(RequestLine, ParseIntError),
}

impl InputError {
    /// The line of the request that could not be read.
    pub open spec fn line(self) -> RequestLine {
        match self {
            InputError::InvalidNumber(line, _) => line,
        }
    }
}

/// Whether a line of a request writes a `u32` in decimal, trailing white space aside.
pub open spec fn reads_as_number(line: Seq<char>) -> bool {
    decimal_u32(trim_trailing_white_space(line)) is Some
}

/// Reads the given numeric line of a request: trailing white space aside, the
/// line must write a `u32` in decimal.
pub fn parse_number(which: RequestLine, line: &str) -> (parsed: Result<u32, InputError>)
    ensures
        parsed is Ok <==> reads_as_number(line@),
        parsed matches Ok(v) ==> decimal_u32(trim_trailing_white_space(line@)) == Some(v),
        parsed matches Err(e) ==> e.line() == which,
{
    match parse_u32(trim_end(line)) {
        Ok(v) => Ok(v),
        Err(e) => Err(InputError::InvalidNumber(which, e)),
    }
}

/// The room type of a request, without the trailing white space of its line.
pub fn parse_room_type(line: &str) -> (room_type: String)
    ensures
        room_type@ == trim_trailing_white_space(line@),
{
    trim_end(line).to_owned()
}

/// Reads a request from its three lines: the first night, the number of
/// nights and the room type. The first line that is not a number is reported.
pub fn parse_request(start_day_line: &str, n_days_line: &str, room_type_line: &str) -> (request:
    Result<(u32, u32, String), InputError>)
    ensures
        request is Ok <==> (reads_as_number(start_day_line@) && reads_as_number(n_days_line@)),
        request matches Ok((start_day, n_days, room_type)) ==> {
            &&& decimal_u32(trim_trailing_white_space(start_day_line@)) == Some(start_day)
            &&& decimal_u32(trim_trailing_white_space(n_days_line@)) == Some(n_days)
            &&& room_type@ == trim_trailing_white_space(room_type_line@)
        },
        request matches Err(e) ==> (e.line() == RequestLine::StartDay <==> !reads_as_number(
            start_day_line@,
        )),
{
    let room_type = parse_room_type(room_type_line);
    let start_day = match parse_number(RequestLine::StartDay, start_day_line) {
        Ok(v) => v,
        Err(e) => return Err(e),
    };
    let n_days = match parse_number(RequestLine::NightCount, n_days_line) {
        Ok(v) => v,
        Err(e) => return Err(e),
    };
    Ok((start_day, n_days, room_type))
}

} // verus!
