//! Calendar model: dates, timestamps with a fixed UTC offset, and the
//! date-or-datetime union carried by every fixture.
use vstd::prelude::*;

verus! {

/// A calendar date in the proleptic Gregorian calendar.
#[derive(Clone, Copy, PartialEq, Eq, Structural, Debug)]
pub struct Date {
    pub year: i32,
    pub month: u8,
    pub day: u8,
}

/// A full timestamp: a date, a time of day, and a fixed UTC offset in
/// seconds (the offset is attached as configured, never converted).
#[derive(Clone, Copy, PartialEq, Eq, Structural, Debug)]
pub struct DateTime {
    pub date: Date,
    pub hour: u8,
    pub minute: u8,
    pub offset_seconds: i32,
}

/// A fixture's time: either a full timestamp or a bare calendar date.
/// Fixtures without a kickoff time must still be orderable and
/// filterable by date alone, so both variants expose a date projection.
#[derive(Clone, Copy, PartialEq, Eq, Structural, Debug)]
pub enum MatchTime {
    DateTime(DateTime),
    DateOnly(Date),
}

pub open spec fn is_leap_year(y: int) -> bool {
    (y % 4 == 0 && y % 100 != 0) || y % 400 == 0
}

pub open spec fn days_in_month(y: int, m: int) -> int {
    if m == 2 {
        if is_leap_year(y) {
            29
        } else {
            28
        }
    } else if m == 4 || m == 6 || m == 9 || m == 11 {
        30
    } else {
        31
    }
}

/// A UTC offset is strictly less than one day, in either direction.
pub open spec fn valid_offset_seconds(s: int) -> bool {
    -86399 <= s <= 86399
}

impl Date {
    /// Well-formedness: the year fits four digits and the day exists in
    /// its month.
    pub open spec fn valid(self) -> bool {
        &&& 0 <= self.year <= 9999
        &&& 1 <= self.month <= 12
        &&& 1 <= self.day <= days_in_month(self.year as int, self.month as int)
    }

    /// The civil day count of this date: consecutive dates map to
    /// consecutive numbers, so differences are exact day spans.
    pub open spec fn day_number_spec(self) -> int {
        let y = if self.month <= 2 {
            self.year + 399
        } else {
            self.year + 400
        };
        let era = y / 400;
        let yoe = y % 400;
        let mp = if self.month > 2 {
            self.month - 3
        } else {
            self.month + 9
        };
        let doy = (153 * mp + 2) / 5 + self.day - 1;
        let doe = yoe * 365 + yoe / 4 - yoe / 100 + doy;
        era * 146097 + doe
    }

    /// Day count as an executable value.
    pub fn day_number(&self) -> (n: u64)
        requires
            self.valid(),
        ensures
            n == self.day_number_spec(),
    {
        let y: u64 = if self.month <= 2 {
            (self.year as u64) + 399
        } else {
            (self.year as u64) + 400
        };
        let era: u64 = y / 400;
        let yoe: u64 = y % 400;
        let mp: u64 = if self.month > 2 {
            (self.month as u64) - 3
        } else {
            (self.month as u64) + 9
        };
        let doy: u64 = (153 * mp + 2) / 5 + (self.day as u64) - 1;
        let doe: u64 = yoe * 365 + yoe / 4 - yoe / 100 + doy;
        era * 146097 + doe
    }
}

/// The following day in the calendar.
pub open spec fn next_date(d: Date) -> Date {
    if d.day < days_in_month(d.year as int, d.month as int) {
        Date { year: d.year, month: d.month, day: (d.day + 1) as u8 }
    } else if d.month < 12 {
        Date { year: d.year, month: (d.month + 1) as u8, day: 1 }
    } else {
        Date { year: (d.year + 1) as i32, month: 1, day: 1 }
    }
}

/// Law: the day count steps by exactly one from each date to the
/// next, so differences of day counts are exact day spans.
pub proof fn lemma_day_number_succ(d: Date)
    requires
        d.valid(),
        !(d.year == 9999 && d.month == 12 && d.day == 31),
    ensures
        next_date(d).valid(),
        next_date(d).day_number_spec() == d.day_number_spec() + 1,
{
    let y = d.year as int;
    let m = d.month as int;
    let day = d.day as int;
    if day < days_in_month(y, m) {
        // same month: only the day-of-year term moves
    } else if m == 2 {
        // the one boundary that crosses the shifted-year mark
        let yo = y + 399;
        let yn = y + 400;
        assert(yn % 4 == y % 4);
        assert(yn % 100 == y % 100);
        assert(yn % 400 == y % 400);
        assert(is_leap_year(y) <==> ((yn % 400) % 4 == 0 && (yn % 400) % 100 != 0) || yn % 400
            == 0);
        if yo % 400 == 399 {
            assert(yn / 400 == yo / 400 + 1);
            assert(yn % 400 == 0);
            assert(is_leap_year(y));
        } else {
            assert(yn / 400 == yo / 400);
            assert(yn % 400 == yo % 400 + 1);
        }
    } else if m < 12 {
        // month rollover within one shifted year: the day-of-year
        // formula's step equals the closing month's length
    } else {
        // December to January: the shifted year is unchanged, and the
        // day-of-year steps from the last of December to New Year
    }
}

impl DateTime {
    pub open spec fn valid(self) -> bool {
        &&& self.date.valid()
        &&& self.hour <= 23
        &&& self.minute <= 59
        &&& valid_offset_seconds(self.offset_seconds as int)
    }
}

impl MatchTime {
    /// The date component, regardless of whether a time of day is
    /// present: the single projection used by filtering and ordering.
    pub open spec fn date_spec(self) -> Date {
        match self {
            MatchTime::DateTime(dt) => dt.date,
            MatchTime::DateOnly(d) => d,
        }
    }

    pub fn date(&self) -> (d: Date)
        ensures
            d == self.date_spec(),
    {
        match self {
            MatchTime::DateTime(dt) => dt.date,
            MatchTime::DateOnly(d) => *d,
        }
    }

    pub open spec fn valid(self) -> bool {
        match self {
            MatchTime::DateTime(dt) => dt.valid(),
            MatchTime::DateOnly(d) => d.valid(),
        }
    }
}

} // verus!
