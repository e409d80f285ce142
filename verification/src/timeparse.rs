//! The time parser: a trimmed text fragment is read first as
//! `DD.MM.YYYY HH:MM` (with a configured fixed UTC offset attached) and,
//! failing that, as a bare `DD.MM.YYYY` date. No other layouts and no
//! leniency: the layouts are fixed-width and must cover the whole text.
use vstd::prelude::*;

use crate::dates::{valid_offset_seconds, Date, DateTime, MatchTime};

verus! {

/// Neither layout matched; the offending text is carried for
/// diagnostics.
#[derive(Debug)]
pub struct TimeParseError {
    pub text: String,
}

pub open spec fn is_digit(c: char) -> bool {
    '0' <= c && c <= '9'
}

pub open spec fn digit_val(c: char) -> int {
    c as int - '0' as int
}

/// The two-digit number at position `i`.
pub open spec fn two_digit(s: Seq<char>, i: int) -> int {
    10 * digit_val(s[i]) + digit_val(s[i + 1])
}

/// The four-digit number at position `i`.
pub open spec fn four_digit(s: Seq<char>, i: int) -> int {
    1000 * digit_val(s[i]) + 100 * digit_val(s[i + 1]) + 10 * digit_val(s[i + 2]) + digit_val(
        s[i + 3],
    )
}

/// The text is shaped `DD.MM.YYYY`: ten characters, digits and dots in
/// their fixed places.
pub open spec fn date_text_shape(s: Seq<char>) -> bool {
    &&& s.len() == 10
    &&& is_digit(s[0])
    &&& is_digit(s[1])
    &&& s[2] == '.'
    &&& is_digit(s[3])
    &&& is_digit(s[4])
    &&& s[5] == '.'
    &&& is_digit(s[6])
    &&& is_digit(s[7])
    &&& is_digit(s[8])
    &&& is_digit(s[9])
}

/// The date read from a `DD.MM.YYYY`-shaped text.
pub open spec fn date_of_text(s: Seq<char>) -> Date {
    Date { year: four_digit(s, 6) as i32, month: two_digit(s, 3) as u8, day: two_digit(s, 0) as u8 }
}

/// The text is a valid bare date: right shape and an existing calendar
/// date.
pub open spec fn valid_date_text(s: Seq<char>) -> bool {
    date_text_shape(s) && date_of_text(s).valid()
}

/// The text is shaped `DD.MM.YYYY HH:MM`.
pub open spec fn datetime_text_shape(s: Seq<char>) -> bool {
    &&& s.len() == 16
    &&& date_text_shape(s.take(10))
    &&& s[10] == ' '
    &&& is_digit(s[11])
    &&& is_digit(s[12])
    &&& s[13] == ':'
    &&& is_digit(s[14])
    &&& is_digit(s[15])
}

/// The timestamp read from a `DD.MM.YYYY HH:MM`-shaped text, with the
/// configured offset attached unchanged.
pub open spec fn datetime_of_text(s: Seq<char>, offset_seconds: int) -> DateTime {
    DateTime {
        date: date_of_text(s.take(10)),
        hour: two_digit(s, 11) as u8,
        minute: two_digit(s, 14) as u8,
        offset_seconds: offset_seconds as i32,
    }
}

/// The text is a valid timestamp: right shape, existing date, and a
/// time of day on the 24-hour clock.
pub open spec fn valid_datetime_text(s: Seq<char>) -> bool {
    &&& datetime_text_shape(s)
    &&& date_of_text(s.take(10)).valid()
    &&& two_digit(s, 11) <= 23
    &&& two_digit(s, 14) <= 59
}

/// What the parser yields on a given text: a timestamp where the long
/// layout matches, a bare date where only the short one does, and
/// nothing otherwise.
pub open spec fn parse_time_spec(s: Seq<char>, offset_seconds: int) -> Option<MatchTime> {
    if valid_datetime_text(s) {
        Some(MatchTime::DateTime(datetime_of_text(s, offset_seconds)))
    } else if valid_date_text(s) {
        Some(MatchTime::DateOnly(date_of_text(s)))
    } else {
        None
    }
}

/// Whatever the parser yields is a valid time value: the parsed fields
/// are in range and the attached offset is the configured one.
pub proof fn lemma_parse_time_spec_valid(s: Seq<char>, off: int)
    requires
        valid_offset_seconds(off),
    ensures
        parse_time_spec(s, off) matches Some(t) ==> t.valid(),
{
}

/// The numeric value of a digit character, or nothing.
fn char_digit(c: char) -> (r: Option<u8>)
    ensures
        r is Some <==> is_digit(c),
        r matches Some(v) ==> v == digit_val(c),
{
    if '0' <= c && c <= '9' {
        Some(((c as u32) - ('0' as u32)) as u8)
    } else {
        None
    }
}

/// The two-digit number starting at `i`, or nothing if either
/// character is not a digit.
fn read_two_digit(s: &str, i: usize) -> (r: Option<u8>)
    requires
        i + 2 <= s@.len() <= usize::MAX,
    ensures
        r is Some <==> is_digit(s@[i as int]) && is_digit(s@[i as int + 1]),
        r matches Some(v) ==> v == two_digit(s@, i as int),
{
    let d0 = char_digit(s.get_char(i));
    let d1 = char_digit(s.get_char(i + 1));
    match (d0, d1) {
        (Some(a), Some(b)) => Some(10 * a + b),
        _ => None,
    }
}

/// The four-digit number starting at `i`, or nothing.
fn read_four_digit(s: &str, i: usize) -> (r: Option<u16>)
    requires
        i + 4 <= s@.len() <= usize::MAX,
    ensures
        r is Some <==> is_digit(s@[i as int]) && is_digit(s@[i as int + 1]) && is_digit(
            s@[i as int + 2],
        ) && is_digit(s@[i as int + 3]),
        r matches Some(v) ==> v == four_digit(s@, i as int),
{
    let d0 = char_digit(s.get_char(i));
    let d1 = char_digit(s.get_char(i + 1));
    let d2 = char_digit(s.get_char(i + 2));
    let d3 = char_digit(s.get_char(i + 3));
    match (d0, d1, d2, d3) {
        (Some(a), Some(b), Some(c), Some(d)) => Some(
            1000 * (a as u16) + 100 * (b as u16) + 10 * (c as u16) + (d as u16),
        ),
        _ => None,
    }
}

/// Whether `d` exists in month `m` of year `y`, executably.
fn day_exists(y: i32, m: u8, d: u8) -> (r: bool)
    requires
        0 <= y <= 9999,
        1 <= m <= 12,
    ensures
        r == (1 <= d <= crate::dates::days_in_month(y as int, m as int)),
{
    let max: u8 = if m == 2 {
        if (y % 4 == 0 && y % 100 != 0) || y % 400 == 0 {
            29
        } else {
            28
        }
    } else if m == 4 || m == 6 || m == 9 || m == 11 {
        30
    } else {
        31
    };
    1 <= d && d <= max
}

/// The date read from the ten characters starting at the front of `s`,
/// if they are a valid `DD.MM.YYYY` date.
fn read_date(s: &str) -> (r: Option<Date>)
    requires
        10 <= s@.len() <= usize::MAX,
    ensures
        r is Some <==> valid_date_text(s@.take(10)),
        r matches Some(d) ==> d == date_of_text(s@.take(10)),
{
    let day = read_two_digit(s, 0);
    let dot1 = s.get_char(2);
    let month = read_two_digit(s, 3);
    let dot2 = s.get_char(5);
    let year = read_four_digit(s, 6);
    match (day, month, year) {
        (Some(d), Some(m), Some(y)) => {
            if dot1 == '.' && dot2 == '.' && 1 <= m && m <= 12 && day_exists(y as i32, m, d) {
                let date = Date { year: y as i32, month: m, day: d };
                assert(s@.take(10)[0] == s@[0]);
                assert(s@.take(10)[1] == s@[1]);
                assert(s@.take(10)[2] == s@[2]);
                assert(s@.take(10)[3] == s@[3]);
                assert(s@.take(10)[4] == s@[4]);
                assert(s@.take(10)[5] == s@[5]);
                assert(s@.take(10)[6] == s@[6]);
                assert(s@.take(10)[7] == s@[7]);
                assert(s@.take(10)[8] == s@[8]);
                assert(s@.take(10)[9] == s@[9]);
                Some(date)
            } else {
                None
            }
        },
        _ => None,
    }
}

/// The time parser. Attempts `DD.MM.YYYY HH:MM` first, then bare
/// `DD.MM.YYYY`; fails with the original text when neither layout
/// matches the whole fragment.
pub fn parse_time(text: &str, offset_seconds: i32) -> (r: Result<MatchTime, TimeParseError>)
    requires
        valid_offset_seconds(offset_seconds as int),
    ensures
        r matches Ok(t) ==> parse_time_spec(text@, offset_seconds as int) == Some(t),
        r matches Err(e) ==> parse_time_spec(text@, offset_seconds as int) is None && e.text@
            == text@,
{
    let n = text.unicode_len();
    if n == 16 {
        let date = read_date(text);
        let sep1 = text.get_char(10);
        let hour = read_two_digit(text, 11);
        let sep2 = text.get_char(13);
        let minute = read_two_digit(text, 14);
        if let (Some(d), Some(h), Some(mi)) = (date, hour, minute) {
            if sep1 == ' ' && sep2 == ':' && h <= 23 && mi <= 59 {
                return Ok(
                    MatchTime::DateTime(
                        DateTime { date: d, hour: h, minute: mi, offset_seconds },
                    ),
                );
            }
        }
        assert(!valid_datetime_text(text@));
        assert(!valid_date_text(text@));
        Err(TimeParseError { text: text.to_owned() })
    } else if n == 10 {
        assert(!valid_datetime_text(text@));
        match read_date(text) {
            Some(d) => {
                assert(text@.take(10) =~= text@);
                Ok(MatchTime::DateOnly(d))
            },
            None => {
                assert(text@.take(10) =~= text@);
                Err(TimeParseError { text: text.to_owned() })
            },
        }
    } else {
        assert(!valid_datetime_text(text@));
        assert(!valid_date_text(text@));
        Err(TimeParseError { text: text.to_owned() })
    }
}

} // verus!
