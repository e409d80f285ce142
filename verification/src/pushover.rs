//! Notification payloads: the message structure posted to the push
//! service, and the formatting of a match's time back into the text
//! layouts the parser reads. Rendering templates and the HTTP call
//! are the orchestration layer's work.
use vstd::prelude::*;

use crate::dates::{Date, DateTime, MatchTime};
use crate::filter::{regex_match, TeamPattern};
use crate::matches::Match;

verus! {

/// One push message as the service's form API takes it; `html` is
/// always 1 since the rendered message text is HTML.
#[derive(Debug)]
pub struct PushOverMessage<'a> {
    pub token: &'a str,
    pub user: &'a str,
    pub title: &'a str,
    pub message: &'a str,
    pub html: u8,
    pub priority: i8,
    pub sound: &'a str,
}

impl<'a> PushOverMessage<'a> {
    pub fn new(
        token: &'a str,
        user: &'a str,
        title: &'a str,
        message: &'a str,
        priority: i8,
        sound: &'a str,
    ) -> (r: Self)
        ensures
            r.token@ == token@,
            r.user@ == user@,
            r.title@ == title@,
            r.message@ == message@,
            r.html == 1u8,
            r.priority == priority,
            r.sound@ == sound@,
    {
        PushOverMessage { token, user, title, message, html: 1, priority, sound }
    }
}

/// The character of one decimal digit.
pub open spec fn digit_char(d: int) -> char {
    if d == 0 {
        '0'
    } else if d == 1 {
        '1'
    } else if d == 2 {
        '2'
    } else if d == 3 {
        '3'
    } else if d == 4 {
        '4'
    } else if d == 5 {
        '5'
    } else if d == 6 {
        '6'
    } else if d == 7 {
        '7'
    } else if d == 8 {
        '8'
    } else {
        '9'
    }
}

/// A date written back in the `DD.MM.YYYY` layout.
pub open spec fn format_date_spec(d: Date) -> Seq<char> {
    seq![
        digit_char(d.day as int / 10),
        digit_char(d.day as int % 10),
        '.',
        digit_char(d.month as int / 10),
        digit_char(d.month as int % 10),
        '.',
        digit_char(d.year as int / 1000),
        digit_char((d.year as int / 100) % 10),
        digit_char((d.year as int / 10) % 10),
        digit_char(d.year as int % 10),
    ]
}

/// A timestamp written back in the `DD.MM.YYYY HH:MM` layout.
pub open spec fn format_datetime_spec(dt: DateTime) -> Seq<char> {
    format_date_spec(dt.date) + seq![
        ' ',
        digit_char(dt.hour as int / 10),
        digit_char(dt.hour as int % 10),
        ':',
        digit_char(dt.minute as int / 10),
        digit_char(dt.minute as int % 10),
    ]
}

/// A match time written back in the layout it was read in: with the
/// time of day when one is present, bare date otherwise.
pub open spec fn format_time_spec(t: MatchTime) -> Seq<char> {
    match t {
        MatchTime::DateTime(dt) => format_datetime_spec(dt),
        MatchTime::DateOnly(d) => format_date_spec(d),
    }
}

/// One decimal digit as a one-character text.
fn digit_str(d: u8) -> (r: &'static str)
    requires
        d <= 9,
    ensures
        r@ =~= seq![digit_char(d as int)],
{
    proof {
        reveal_strlit("0");
        reveal_strlit("1");
        reveal_strlit("2");
        reveal_strlit("3");
        reveal_strlit("4");
        reveal_strlit("5");
        reveal_strlit("6");
        reveal_strlit("7");
        reveal_strlit("8");
        reveal_strlit("9");
    }
    match d {
        0 => "0",
        1 => "1",
        2 => "2",
        3 => "3",
        4 => "4",
        5 => "5",
        6 => "6",
        7 => "7",
        8 => "8",
        _ => "9",
    }
}

/// Formats a date as `DD.MM.YYYY`.
pub fn format_date(d: &Date) -> (r: String)
    requires
        d.valid(),
    ensures
        r@ == format_date_spec(*d),
{
    proof {
        reveal_strlit(".");
    }
    let mut s = String::new();
    s.append(digit_str(d.day / 10));
    s.append(digit_str(d.day % 10));
    s.append(".");
    s.append(digit_str(d.month / 10));
    s.append(digit_str(d.month % 10));
    s.append(".");
    s.append(digit_str((d.year / 1000) as u8));
    s.append(digit_str(((d.year / 100) % 10) as u8));
    s.append(digit_str(((d.year / 10) % 10) as u8));
    s.append(digit_str((d.year % 10) as u8));
    proof {
        assert(s@ =~= format_date_spec(*d));
    }
    s
}

/// Formats a timestamp as `DD.MM.YYYY HH:MM`.
pub fn format_datetime(dt: &DateTime) -> (r: String)
    requires
        dt.valid(),
    ensures
        r@ == format_datetime_spec(*dt),
{
    proof {
        reveal_strlit(" ");
        reveal_strlit(":");
    }
    let mut s = format_date(&dt.date);
    s.append(" ");
    s.append(digit_str(dt.hour / 10));
    s.append(digit_str(dt.hour % 10));
    s.append(":");
    s.append(digit_str(dt.minute / 10));
    s.append(digit_str(dt.minute % 10));
    proof {
        assert(s@ =~= format_datetime_spec(*dt));
    }
    s
}

/// Formats a match time in the layout it was read in.
pub fn format_time(t: &MatchTime) -> (r: String)
    requires
        t.valid(),
    ensures
        r@ == format_time_spec(*t),
{
    match t {
        MatchTime::DateTime(dt) => format_datetime(dt),
        MatchTime::DateOnly(d) => format_date(d),
    }
}

/// A digit character carries exactly its digit.
proof fn lemma_digit_char_val(x: int)
    requires
        0 <= x <= 9,
    ensures
        crate::timeparse::is_digit(digit_char(x)),
        crate::timeparse::digit_val(digit_char(x)) == x,
{
}

/// A formatted date is a valid date text carrying the same date.
proof fn lemma_format_date_round_trip(d: Date)
    requires
        d.valid(),
    ensures
        crate::timeparse::valid_date_text(format_date_spec(d)),
        crate::timeparse::date_of_text(format_date_spec(d)) == d,
{
    let s = format_date_spec(d);
    let day = d.day as int;
    let month = d.month as int;
    let year = d.year as int;
    lemma_digit_char_val(day / 10);
    lemma_digit_char_val(day % 10);
    lemma_digit_char_val(month / 10);
    lemma_digit_char_val(month % 10);
    lemma_digit_char_val(year / 1000);
    lemma_digit_char_val((year / 100) % 10);
    lemma_digit_char_val((year / 10) % 10);
    lemma_digit_char_val(year % 10);
    assert(crate::timeparse::two_digit(s, 0) == 10 * (day / 10) + day % 10);
    assert(10 * (day / 10) + day % 10 == day);
    assert(crate::timeparse::two_digit(s, 3) == 10 * (month / 10) + month % 10);
    assert(10 * (month / 10) + month % 10 == month);
    assert(crate::timeparse::four_digit(s, 6) == 1000 * (year / 1000) + 100 * ((year / 100) % 10)
        + 10 * ((year / 10) % 10) + year % 10);
    assert((year / 100) / 10 == year / 1000) by (nonlinear_arith)
        requires
            0 <= year <= 9999,
    ;
    assert((year / 10) / 10 == year / 100) by (nonlinear_arith)
        requires
            0 <= year <= 9999,
    ;
    assert(year / 100 == 10 * ((year / 100) / 10) + (year / 100) % 10);
    assert(year / 10 == 10 * ((year / 10) / 10) + (year / 10) % 10);
    assert(year == 10 * (year / 10) + year % 10);
    assert(1000 * (year / 1000) + 100 * ((year / 100) % 10) + 10 * ((year / 10) % 10) + year % 10
        == year);
    assert(crate::timeparse::date_of_text(s) == d);
}

/// Law: formatting writes a time back into exactly the text the
/// parser reads as that same time, offsets agreeing.
pub proof fn lemma_format_parse_round_trip(t: MatchTime, off: int)
    requires
        t.valid(),
        crate::dates::valid_offset_seconds(off),
        t matches MatchTime::DateTime(dt) ==> dt.offset_seconds as int == off,
    ensures
        crate::timeparse::parse_time_spec(format_time_spec(t), off) == Some(t),
{
    match t {
        MatchTime::DateOnly(d) => {
            lemma_format_date_round_trip(d);
            let s = format_time_spec(t);
            assert(s.len() == 10);
            assert(s.take(10) =~= s);
            assert(!crate::timeparse::valid_datetime_text(s));
        },
        MatchTime::DateTime(dt) => {
            lemma_format_date_round_trip(dt.date);
            let s = format_time_spec(t);
            let fd = format_date_spec(dt.date);
            assert(s.len() == 16);
            assert(s.take(10) =~= fd);
            let hour = dt.hour as int;
            let minute = dt.minute as int;
            lemma_digit_char_val(hour / 10);
            lemma_digit_char_val(hour % 10);
            lemma_digit_char_val(minute / 10);
            lemma_digit_char_val(minute % 10);
            assert(s[10] == ' ' && s[13] == ':');
            assert(crate::timeparse::two_digit(s, 11) == 10 * (hour / 10) + hour % 10);
            assert(10 * (hour / 10) + hour % 10 == hour);
            assert(crate::timeparse::two_digit(s, 14) == 10 * (minute / 10) + minute % 10);
            assert(10 * (minute / 10) + minute % 10 == minute);
            assert(crate::timeparse::valid_datetime_text(s));
            assert(crate::timeparse::datetime_of_text(s, off) == dt);
        },
    }
}

/// What the delivery layer renders one notification from: whether the
/// pattern matched the home side, and the match's time formatted back
/// into its source layout.
#[derive(Debug)]
pub struct MessageData {
    pub is_home_match: bool,
    pub formatted_date: String,
}

/// The per-match message inputs, computed from the record and the
/// team pattern alone.
pub fn prepare_message(m: &Match, pattern: &TeamPattern) -> (r: MessageData)
    requires
        m@.time.valid(),
    ensures
        r.is_home_match == regex_match(pattern.source(), m@.home),
        r.formatted_date@ == format_time_spec(m@.time),
{
    MessageData {
        is_home_match: pattern.is_match(m.home_team.as_str()),
        formatted_date: format_time(&m.time),
    }
}

} // verus!
