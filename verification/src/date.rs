//! Calendar dates as plain year/month/day values.
//!
//! A `Date` is valid when the month and day exist in the proleptic Gregorian
//! calendar (leap years included) and the year has at most four digits, which
//! is what the ISO-8601 feeds this crate consumes can carry. Dates order
//! chronologically, which for year/month/day triples is lexicographic order.

use vstd::prelude::*;

use crate::decimal::{
    all_digits, char_digit, digit_val, digits_val, is_digit_char, pad2, pad4, u64_to_pad2,
    u64_to_pad4,
};

verus! {

/// A calendar date.
#[derive(Clone, Copy, Debug, PartialEq, Eq, Structural)]
pub struct Date {
    pub year: i32,
    pub month: u8,
    pub day: u8,
}

/// Whether `y` is a leap year in the Gregorian calendar.
pub open spec fn is_leap_year(y: int) -> bool {
    y % 4 == 0 && (y % 100 != 0 || y % 400 == 0)
}

/// The number of days of month `m` in year `y`.
pub open spec fn days_in_month(y: int, m: int) -> int
    recommends
        1 <= m <= 12,
{
    if m == 2 {
        if is_leap_year(y) {
            29
        } else {
            28
        }
    } else if m == 4 || m == 6 || m == 9 || m == 11 {
        30
    } else {
        31
    }
}

/// Whether the triple names an existing calendar date with a four-digit year.
pub open spec fn valid_ymd(y: int, m: int, d: int) -> bool {
    &&& 0 <= y <= 9999
    &&& 1 <= m <= 12
    &&& 1 <= d <= days_in_month(y, m)
}

impl Date {
    /// The year of this date.
    pub open spec fn spec_year(self) -> int {
        self.year as int
    }

    /// The month of this date.
    pub open spec fn spec_month(self) -> int {
        self.month as int
    }

    /// The day of this date.
    pub open spec fn spec_day(self) -> int {
        self.day as int
    }

    /// Whether this date exists in the calendar.
    pub open spec fn valid(self) -> bool {
        valid_ymd(self.spec_year(), self.spec_month(), self.spec_day())
    }

    /// A single integer that orders dates chronologically.
    pub open spec fn to_key(self) -> int {
        self.spec_year() * 10000 + self.spec_month() * 100 + self.spec_day()
    }

    /// Builds a date, or nothing when the triple names no calendar day.
    pub fn from_ymd_opt(year: i32, month: u32, day: u32) -> (r: Option<Date>)
        ensures
            valid_ymd(year as int, month as int, day as int) <==> r is Some,
            r matches Some(date) ==> {
                &&& date.spec_year() == year
                &&& date.spec_month() == month
                &&& date.spec_day() == day
                &&& date.valid()
            },
    {
        if year < 0 || year > 9999 || month < 1 || month > 12 || day < 1 {
            return None;
        }
        let max_day: u32 = if month == 2 {
            let leap = year % 4 == 0 && (year % 100 != 0 || year % 400 == 0);
            if leap {
                29
            } else {
                28
            }
        } else if month == 4 || month == 6 || month == 9 || month == 11 {
            30
        } else {
            31
        };
        if day > max_day {
            return None;
        }
        Some(Date { year, month: month as u8, day: day as u8 })
    }

    /// Whether this date is strictly later than `other`.
    pub fn is_after(&self, other: &Date) -> (r: bool)
        requires
            self.valid(),
            other.valid(),
        ensures
            r == (self.to_key() > other.to_key()),
    {
        if self.year != other.year {
            self.year > other.year
        } else if self.month != other.month {
            self.month > other.month
        } else {
            self.day > other.day
        }
    }

    /// The ISO-8601 rendering of a valid date.
    pub open spec fn iso_chars(self) -> Seq<char> {
        pad4(self.spec_year() as nat) + seq!['-'] + pad2(self.spec_month() as nat) + seq!['-']
            + pad2(self.spec_day() as nat)
    }

    /// Renders this date as `YYYY-MM-DD`.
    pub fn format_iso(&self) -> (s: String)
        requires
            self.valid(),
        ensures
            s@ == self.iso_chars(),
    {
        proof {
            reveal_strlit("-");
        }
        let mut s = u64_to_pad4(self.year as u64);
        s.append("-");
        let m = u64_to_pad2(self.month as u64);
        s.append(m.as_str());
        s.append("-");
        let d = u64_to_pad2(self.day as u64);
        s.append(d.as_str());
        proof {
            assert(s@ =~= self.iso_chars());
        }
        s
    }
}

/// What parsing `YYYY-MM-DD` yields: the date when the text has exactly that
/// shape and names an existing calendar day, nothing otherwise.
pub open spec fn spec_parse_ymd(s: Seq<char>) -> Option<Date> {
    if s.len() == 10 && all_digits(s.subrange(0, 4)) && s[4] == '-' && all_digits(
        s.subrange(5, 7),
    ) && s[7] == '-' && all_digits(s.subrange(8, 10)) {
        let y = digits_val(s.subrange(0, 4));
        let m = digits_val(s.subrange(5, 7));
        let d = digits_val(s.subrange(8, 10));
        if valid_ymd(y, m, d) {
            Some(Date { year: y as i32, month: m as u8, day: d as u8 })
        } else {
            None
        }
    } else {
        None
    }
}

/// A group of at most four digits has a value under ten thousand.
proof fn lemma_digits_val_bound(s: Seq<char>)
    requires
        all_digits(s),
        s.len() <= 4,
    ensures
        0 <= digits_val(s),
        s.len() <= 1 ==> digits_val(s) < 10,
        s.len() <= 2 ==> digits_val(s) < 100,
        s.len() <= 3 ==> digits_val(s) < 1000,
        digits_val(s) < 10000,
    decreases s.len(),
{
    if s.len() > 0 {
        assert(is_digit_char(s.last()));
        assert(0 <= digit_val(s.last()) <= 9);
        assert(all_digits(s.drop_last())) by {
            assert(forall|i: int| 0 <= i < s.len() - 1 ==> #[trigger] s.drop_last()[i] == s[i]);
        }
        lemma_digits_val_bound(s.drop_last());
    }
}

/// Reads a group of digit characters out of `s` and gives its value.
fn parse_digit_group(s: &str, from: usize, to: usize) -> (r: Option<u64>)
    requires
        from <= to <= s@.len(),
        to - from <= 4,
    ensures
        r is Some <==> all_digits(s@.subrange(from as int, to as int)),
        r matches Some(v) ==> v == digits_val(s@.subrange(from as int, to as int)) && v < 10000,
{
    let ghost g = s@.subrange(from as int, to as int);
    let mut i = from;
    let mut acc: u64 = 0;
    while i < to
        invariant
            from <= i <= to <= s@.len(),
            to - from <= 4,
            g == s@.subrange(from as int, to as int),
            all_digits(g.subrange(0, i - from)),
            acc == digits_val(g.subrange(0, i - from)),
            acc < 10000,
        decreases to - i,
    {
        let c = s.get_char(i);
        match char_digit(c) {
            Some(d) => {
                proof {
                    assert(g.subrange(0, i + 1 - from).drop_last() =~= g.subrange(0, i - from));
                    assert(g.subrange(0, i + 1 - from).last() == s@[i as int]);
                    lemma_digits_val_bound(g.subrange(0, i - from));
                }
                acc = acc * 10 + d;
                i = i + 1;
            },
            None => {
                proof {
                    assert(g[i - from] == s@[i as int]);
                    assert(!all_digits(g));
                }
                return None;
            },
        }
    }
    proof {
        assert(g.subrange(0, g.len() as int) =~= g);
    }
    Some(acc)
}

/// Parses `YYYY-MM-DD`; yields the date exactly when the text has that shape
/// and names an existing calendar day.
pub fn parse_ymd(s: &str) -> (r: Option<Date>)
    ensures
        r == spec_parse_ymd(s@),
{
    let n = s.unicode_len();
    if n != 10 {
        return None;
    }
    if s.get_char(4) != '-' || s.get_char(7) != '-' {
        return None;
    }
    let y = match parse_digit_group(s, 0, 4) {
        Some(v) => v,
        None => {
            return None;
        },
    };
    let m = match parse_digit_group(s, 5, 7) {
        Some(v) => v,
        None => {
            return None;
        },
    };
    let d = match parse_digit_group(s, 8, 10) {
        Some(v) => v,
        None => {
            return None;
        },
    };
    proof {
        lemma_digits_val_bound(s@.subrange(0, 4));
        lemma_digits_val_bound(s@.subrange(5, 7));
        lemma_digits_val_bound(s@.subrange(8, 10));
    }
    Date::from_ymd_opt(y as i32, m as u32, d as u32)
}

/// The index of the first comma in `s`, or its length when it has none.
pub open spec fn first_comma(s: Seq<char>) -> int
    decreases s.len(),
{
    if s.len() == 0 {
        0
    } else if s[0] == ',' {
        0
    } else {
        1 + first_comma(s.skip(1))
    }
}

/// `first_comma` stays within the sequence and marks the first comma.
proof fn lemma_first_comma(s: Seq<char>)
    ensures
        0 <= first_comma(s) <= s.len(),
        forall|i: int| 0 <= i < first_comma(s) ==> #[trigger] s[i] != ',',
        first_comma(s) < s.len() ==> s[first_comma(s)] == ',',
    decreases s.len(),
{
    if s.len() > 0 && s[0] != ',' {
        lemma_first_comma(s.skip(1));
        assert forall|i: int| 1 <= i < first_comma(s) implies #[trigger] s[i] != ',' by {
            assert(s.skip(1)[i - 1] == s[i]);
        }
        if first_comma(s) < s.len() {
            assert(s.skip(1)[first_comma(s.skip(1))] == s[first_comma(s)]);
        }
    }
}

/// What parsing a broker date-and-time field yields: the text before the
/// first comma, read as `YYYY-MM-DD`.
pub open spec fn spec_parse_date_time(s: Seq<char>) -> Option<Date> {
    spec_parse_ymd(s.take(first_comma(s)))
}

/// Parses the date of a broker date-and-time field: the part before the
/// first comma, as `YYYY-MM-DD`.
pub fn parse_date_time(s: &str) -> (r: Option<Date>)
    ensures
        r == spec_parse_date_time(s@),
{
    let n = s.unicode_len();
    let mut end: usize = 0;
    while end < n && s.get_char(end) != ','
        invariant
            0 <= end <= n == s@.len(),
            forall|i: int| 0 <= i < end ==> #[trigger] s@[i] != ',',
        decreases n - end,
    {
        end = end + 1;
    }
    proof {
        lemma_first_comma(s@);
        if end < n {
            assert(s@[end as int] == ',');
        }
        assert(first_comma(s@) == end) by {
            if first_comma(s@) < end {
                assert(s@[first_comma(s@)] != ',');
            }
        }
    }
    let prefix = s.substring_char(0, end);
    proof {
        assert(prefix@ =~= s@.take(first_comma(s@)));
    }
    parse_ymd(prefix)
}

} // verus!
