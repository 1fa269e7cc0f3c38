//! Calendar dates and the day arithmetic the range resolver is built on.
//!
//! A purchase record carries a calendar date (the `YYYY-MM-DD` shape of the
//! feed), not a timestamp. All reasoning about ranges reduces to the
//! position of a date on the time line, `day_index`: the number of days
//! between 0000-01-01 and the date in the proleptic Gregorian calendar.

use vstd::prelude::*;

verus! {

/// A proleptic Gregorian calendar date with a four-digit year.
#[derive(Clone, Copy, Debug, PartialEq, Eq, Structural, Hash)]
pub struct Date {
    pub year: u32,
    pub month: u32,
    pub day: u32,
}

pub open spec fn is_leap_year(y: int) -> bool {
    y % 4 == 0 && (y % 100 != 0 || y % 400 == 0)
}

pub open spec fn days_in_month(y: int, m: int) -> int {
    if m == 2 {
        if is_leap_year(y) {
            29
        } else {
            28
        }
    } else if m == 4 || m == 6 || m == 9 || m == 11 {
        30
    } else {
        31
    }
}

/// Days of year `y` that lie in the months before month `m`.
pub open spec fn days_before_month(y: int, m: int) -> int
    decreases m,
{
    if m <= 1 {
        0
    } else {
        days_before_month(y, m - 1) + days_in_month(y, m - 1)
    }
}

/// Days on the time line before year `y` starts (year 0 starts at day 0).
pub open spec fn days_before_year(y: int) -> int
    decreases y,
{
    if y <= 0 {
        0
    } else {
        days_before_year(y - 1) + if is_leap_year(y - 1) {
            366int
        } else {
            365int
        }
    }
}

/// The day index of the last representable date, 9999-12-31.
pub open spec fn max_day_index() -> int {
    days_before_year(10000) - 1
}

impl Date {
    /// The date names an existing calendar day with a four-digit year.
    pub open spec fn wf(self) -> bool {
        &&& self.year <= 9999
        &&& 1 <= self.month <= 12
        &&& 1 <= self.day <= days_in_month(self.year as int, self.month as int)
    }

    /// Number of days between 0000-01-01 and this date.
    pub open spec fn day_index(self) -> int {
        days_before_year(self.year as int) + days_before_month(
            self.year as int,
            self.month as int,
        ) + self.day - 1
    }
}

/// `days_before_month` grows with the month.
proof fn lemma_days_before_month_mono(y: int, m1: int, m2: int)
    requires
        1 <= m1 <= m2 <= 13,
    ensures
        days_before_month(y, m1) <= days_before_month(y, m2),
    decreases m2 - m1,
{
    if m1 < m2 {
        lemma_days_before_month_mono(y, m1, m2 - 1);
        assert(days_before_month(y, m2) == days_before_month(y, m2 - 1) + days_in_month(
            y,
            m2 - 1,
        ));
    }
}

/// The whole year `y` occupies `days_before_month(y, 13)` days.
proof fn lemma_year_length(y: int)
    ensures
        days_before_month(y, 13) == if is_leap_year(y) {
            366int
        } else {
            365int
        },
        days_before_month(y, 12) == if is_leap_year(y) {
            335int
        } else {
            334int
        },
{
    assert(days_before_month(y, 1) == 0);
    assert(days_before_month(y, 2) == 31);
    assert(days_before_month(y, 3) == days_before_month(y, 2) + days_in_month(y, 2));
    assert(days_before_month(y, 4) == days_before_month(y, 3) + 31);
    assert(days_before_month(y, 5) == days_before_month(y, 4) + 30);
    assert(days_before_month(y, 6) == days_before_month(y, 5) + 31);
    assert(days_before_month(y, 7) == days_before_month(y, 6) + 30);
    assert(days_before_month(y, 8) == days_before_month(y, 7) + 31);
    assert(days_before_month(y, 9) == days_before_month(y, 8) + 31);
    assert(days_before_month(y, 10) == days_before_month(y, 9) + 30);
    assert(days_before_month(y, 11) == days_before_month(y, 10) + 31);
    assert(days_before_month(y, 12) == days_before_month(y, 11) + 30);
    assert(days_before_month(y, 13) == days_before_month(y, 12) + 31);
}

/// `days_before_year` grows with the year.
proof fn lemma_days_before_year_mono(y1: int, y2: int)
    requires
        y1 <= y2,
    ensures
        days_before_year(y1) <= days_before_year(y2),
    decreases y2 - y1,
{
    if y1 < y2 {
        lemma_days_before_year_mono(y1, y2 - 1);
    }
}

/// No well-formed date lies past 9999-12-31.
pub proof fn lemma_day_index_max(d: Date)
    requires
        d.wf(),
    ensures
        0 <= d.day_index() <= max_day_index(),
{
    let y = d.year as int;
    let m = d.month as int;
    assert(days_before_month(y, 1) == 0);
    lemma_days_before_month_mono(y, 1, m);
    lemma_days_before_year_mono(0, y);
    assert(days_before_month(y, m + 1) == days_before_month(y, m) + days_in_month(y, m));
    lemma_days_before_month_mono(y, m + 1, 13);
    lemma_year_length(y);
    assert(days_before_year(y + 1) == days_before_year(y) + if is_leap_year(y) {
        366int
    } else {
        365int
    });
    lemma_days_before_year_mono(y + 1, 10000);
}

/// A well-formed date's index lies within its month and year.
proof fn lemma_day_index_bounds(d: Date)
    requires
        d.wf(),
    ensures
        0 <= days_before_month(d.year as int, d.month as int),
        days_before_year(d.year as int) + days_before_month(d.year as int, d.month as int)
            <= d.day_index(),
        d.day_index() < days_before_year(d.year as int) + days_before_month(
            d.year as int,
            d.month as int + 1,
        ),
        d.day_index() < days_before_year(d.year as int + 1),
{
    let y = d.year as int;
    let m = d.month as int;
    assert(days_before_month(y, 1) == 0);
    lemma_days_before_month_mono(y, 1, m);
    assert(days_before_month(y, m + 1) == days_before_month(y, m) + days_in_month(y, m));
    lemma_days_before_month_mono(y, m + 1, 13);
    lemma_year_length(y);
    assert(days_before_year(y + 1) == days_before_year(y) + if is_leap_year(y) {
        366int
    } else {
        365int
    });
}

/// A day index names exactly one calendar day: two well-formed dates at the
/// same position on the time line are the same date.
pub proof fn lemma_day_index_injective(a: Date, b: Date)
    requires
        a.wf(),
        b.wf(),
        a.day_index() == b.day_index(),
    ensures
        a == b,
{
    lemma_day_index_bounds(a);
    lemma_day_index_bounds(b);
    if a.year < b.year {
        lemma_days_before_year_mono(a.year as int + 1, b.year as int);
    }
    if b.year < a.year {
        lemma_days_before_year_mono(b.year as int + 1, a.year as int);
    }
    assert(a.year == b.year);
    if a.month < b.month {
        lemma_days_before_month_mono(a.year as int, a.month as int + 1, b.month as int);
    }
    if b.month < a.month {
        lemma_days_before_month_mono(b.year as int, b.month as int + 1, a.month as int);
    }
    assert(a.month == b.month);
}

/// Whether year `y` is a leap year.
pub fn is_leap(y: u32) -> (r: bool)
    ensures
        r == is_leap_year(y as int),
{
    y % 4 == 0 && (y % 100 != 0 || y % 400 == 0)
}

/// Number of days in month `m` of year `y`.
pub fn month_days(y: u32, m: u32) -> (r: u32)
    requires
        1 <= m <= 12,
    ensures
        r == days_in_month(y as int, m as int),
{
    if m == 2 {
        if is_leap(y) {
            29
        } else {
            28
        }
    } else if m == 4 || m == 6 || m == 9 || m == 11 {
        30
    } else {
        31
    }
}

/// Days of year `y` that precede month `m`, as a number.
fn month_offset(y: u32, m: u32) -> (r: u32)
    requires
        1 <= m <= 12,
    ensures
        r == days_before_month(y as int, m as int),
        r <= 335,
{
    proof {
        let yi = y as int;
        assert(days_before_month(yi, 1) == 0);
        assert(days_before_month(yi, 2) == 31);
        assert(days_before_month(yi, 3) == days_before_month(yi, 2) + days_in_month(yi, 2));
        assert(days_before_month(yi, 4) == days_before_month(yi, 3) + 31);
        assert(days_before_month(yi, 5) == days_before_month(yi, 4) + 30);
        assert(days_before_month(yi, 6) == days_before_month(yi, 5) + 31);
        assert(days_before_month(yi, 7) == days_before_month(yi, 6) + 30);
        assert(days_before_month(yi, 8) == days_before_month(yi, 7) + 31);
        assert(days_before_month(yi, 9) == days_before_month(yi, 8) + 31);
        assert(days_before_month(yi, 10) == days_before_month(yi, 9) + 30);
        assert(days_before_month(yi, 11) == days_before_month(yi, 10) + 31);
        assert(days_before_month(yi, 12) == days_before_month(yi, 11) + 30);
    }
    let leap_add: u32 = if is_leap(y) {
        1
    } else {
        0
    };
    match m {
        1 => 0,
        2 => 31,
        3 => 59 + leap_add,
        4 => 90 + leap_add,
        5 => 120 + leap_add,
        6 => 151 + leap_add,
        7 => 181 + leap_add,
        8 => 212 + leap_add,
        9 => 243 + leap_add,
        10 => 273 + leap_add,
        11 => 304 + leap_add,
        _ => 334 + leap_add,
    }
}

impl Date {
    /// Builds the date `y`-`m`-`d` if it names an existing calendar day.
    pub fn new(year: u32, month: u32, day: u32) -> (r: Option<Date>)
        ensures
            r matches Some(d) ==> d == (Date { year, month, day }) && d.wf(),
            r is None <==> !(Date { year, month, day }).wf(),
    {
        if year <= 9999 && 1 <= month && month <= 12 && 1 <= day && day <= month_days(
            year,
            month,
        ) {
            Some(Date { year, month, day })
        } else {
            None
        }
    }

    /// The date's position on the time line, as a number.
    pub fn day_number(&self) -> (r: u32)
        requires
            self.wf(),
        ensures
            r == self.day_index(),
    {
        let mut acc: u32 = 0;
        let mut i: u32 = 0;
        while i < self.year
            invariant
                i <= self.year <= 9999,
                acc == days_before_year(i as int),
                acc <= 366 * i,
            decreases self.year - i,
        {
            if is_leap(i) {
                acc = acc + 366;
            } else {
                acc = acc + 365;
            }
            i = i + 1;
        }
        acc + month_offset(self.year, self.month) + self.day - 1
    }

    /// The calendar day after this one.
    pub fn next_day(&self) -> (r: Date)
        requires
            self.wf(),
            self.day_index() < max_day_index(),
        ensures
            r.wf(),
            r.day_index() == self.day_index() + 1,
    {
        let dim = month_days(self.year, self.month);
        if self.day < dim {
            Date { year: self.year, month: self.month, day: self.day + 1 }
        } else if self.month < 12 {
            let r = Date { year: self.year, month: self.month + 1, day: 1 };
            proof {
                assert(days_before_month(self.year as int, self.month as int + 1)
                    == days_before_month(self.year as int, self.month as int) + days_in_month(
                    self.year as int,
                    self.month as int,
                ));
            }
            r
        } else {
            proof {
                lemma_year_length(self.year as int);
                assert(days_before_year(self.year as int + 1) == days_before_year(self.year as int)
                    + if is_leap_year(self.year as int) {
                        366int
                    } else {
                        365int
                    });
                if self.year == 9999 {
                    assert(self.day_index() == max_day_index());
                }
            }
            Date { year: self.year + 1, month: 1, day: 1 }
        }
    }

    /// The calendar day before this one.
    pub fn prev_day(&self) -> (r: Date)
        requires
            self.wf(),
            self.day_index() >= 1,
        ensures
            r.wf(),
            r.day_index() == self.day_index() - 1,
    {
        if self.day > 1 {
            Date { year: self.year, month: self.month, day: self.day - 1 }
        } else if self.month > 1 {
            let r = Date { year: self.year, month: self.month - 1, day: month_days(
                self.year,
                self.month - 1,
            ) };
            proof {
                assert(days_before_month(self.year as int, self.month as int) == days_before_month(
                    self.year as int,
                    self.month as int - 1,
                ) + days_in_month(self.year as int, self.month as int - 1));
            }
            r
        } else {
            proof {
                if self.year == 0 {
                    assert(self.day_index() == 0);
                }
                lemma_year_length(self.year as int - 1);
                assert(days_before_year(self.year as int) == days_before_year(self.year as int - 1)
                    + if is_leap_year(self.year as int - 1) {
                        366int
                    } else {
                        365int
                    });
            }
            Date { year: self.year - 1, month: 12, day: 31 }
        }
    }

    /// True iff this date is on or before `other` on the time line.
    pub fn on_or_before(&self, other: &Date) -> (r: bool)
        requires
            self.wf(),
            other.wf(),
        ensures
            r == (self.day_index() <= other.day_index()),
    {
        self.day_number() <= other.day_number()
    }

    /// True iff this date is strictly before `other` on the time line.
    pub fn before(&self, other: &Date) -> (r: bool)
        requires
            self.wf(),
            other.wf(),
        ensures
            r == (self.day_index() < other.day_index()),
    {
        self.day_number() < other.day_number()
    }
}

/// A digit character's value.
pub open spec fn digit_val(c: char) -> int {
    c as int - 48
}

pub open spec fn is_digit(c: char) -> bool {
    48 <= c as int <= 57
}

/// Whether the characters spell a date in the feed's `YYYY-MM-DD` shape.
pub open spec fn is_iso_date_seq(s: Seq<char>) -> bool {
    &&& s.len() == 10
    &&& is_digit(s[0]) && is_digit(s[1]) && is_digit(s[2]) && is_digit(s[3])
    &&& s[4] == '-'
    &&& is_digit(s[5]) && is_digit(s[6])
    &&& s[7] == '-'
    &&& is_digit(s[8]) && is_digit(s[9])
}

/// The date that `YYYY-MM-DD` characters spell.
pub open spec fn date_of_seq(s: Seq<char>) -> Date {
    Date {
        year: (digit_val(s[0]) * 1000 + digit_val(s[1]) * 100 + digit_val(s[2]) * 10 + digit_val(
            s[3],
        )) as u32,
        month: (digit_val(s[5]) * 10 + digit_val(s[6])) as u32,
        day: (digit_val(s[8]) * 10 + digit_val(s[9])) as u32,
    }
}

/// The digit's value, if the character is one.
fn digit_of(c: char) -> (r: Option<u32>)
    ensures
        r is Some <==> is_digit(c),
        r matches Some(v) ==> v == digit_val(c) && v <= 9,
{
    let u = c as u32;
    if 48 <= u && u <= 57 {
        Some(u - 48)
    } else {
        None
    }
}

impl Date {
    /// Parses the feed's `YYYY-MM-DD` date shape. `None` when the text has
    /// a different shape or does not name an existing calendar day.
    pub fn parse(s: &str) -> (r: Option<Date>)
        ensures
            r matches Some(d) ==> is_iso_date_seq(s@) && d == date_of_seq(s@) && d.wf(),
            r is None <==> !(is_iso_date_seq(s@) && date_of_seq(s@).wf()),
    {
        if s.unicode_len() != 10 {
            return None;
        }
        let y0 = match digit_of(s.get_char(0)) {
            Some(v) => v,
            None => {
                return None;
            },
        };
        let y1 = match digit_of(s.get_char(1)) {
            Some(v) => v,
            None => {
                return None;
            },
        };
        let y2 = match digit_of(s.get_char(2)) {
            Some(v) => v,
            None => {
                return None;
            },
        };
        let y3 = match digit_of(s.get_char(3)) {
            Some(v) => v,
            None => {
                return None;
            },
        };
        if s.get_char(4) as u32 != 45 {
            return None;
        }
        let m0 = match digit_of(s.get_char(5)) {
            Some(v) => v,
            None => {
                return None;
            },
        };
        let m1 = match digit_of(s.get_char(6)) {
            Some(v) => v,
            None => {
                return None;
            },
        };
        if s.get_char(7) as u32 != 45 {
            return None;
        }
        let d0 = match digit_of(s.get_char(8)) {
            Some(v) => v,
            None => {
                return None;
            },
        };
        let d1 = match digit_of(s.get_char(9)) {
            Some(v) => v,
            None => {
                return None;
            },
        };
        let year = y0 * 1000 + y1 * 100 + y2 * 10 + y3;
        let month = m0 * 10 + m1;
        let day = d0 * 10 + d1;
        Date::new(year, month, day)
    }
}

/// Relies on `String::push`: appends the given character to the end of the
/// string.
#[verifier::external_body]
fn push_char(s: &mut String, c: char)
    ensures
        final(s)@ == old(s)@.push(c),
{
    s.push(c);
}

/// The character of one decimal digit.
pub open spec fn digit_char(v: int) -> char {
    if v == 0 {
        '0'
    } else if v == 1 {
        '1'
    } else if v == 2 {
        '2'
    } else if v == 3 {
        '3'
    } else if v == 4 {
        '4'
    } else if v == 5 {
        '5'
    } else if v == 6 {
        '6'
    } else if v == 7 {
        '7'
    } else if v == 8 {
        '8'
    } else {
        '9'
    }
}

/// The digit's character.
fn digit_char_of(v: u32) -> (r: char)
    requires
        v <= 9,
    ensures
        r == digit_char(v as int),
{
    match v {
        0 => '0',
        1 => '1',
        2 => '2',
        3 => '3',
        4 => '4',
        5 => '5',
        6 => '6',
        7 => '7',
        8 => '8',
        _ => '9',
    }
}

/// The `YYYY-MM-DD` characters of a date.
pub open spec fn iso_seq_of(d: Date) -> Seq<char> {
    seq![
        digit_char(d.year as int / 1000),
        digit_char((d.year as int / 100) % 10),
        digit_char((d.year as int / 10) % 10),
        digit_char(d.year as int % 10),
        '-',
        digit_char(d.month as int / 10),
        digit_char(d.month as int % 10),
        '-',
        digit_char(d.day as int / 10),
        digit_char(d.day as int % 10),
    ]
}

impl Date {
    /// Writes the date in the feed's `YYYY-MM-DD` shape.
    pub fn iso(&self) -> (r: String)
        requires
            self.wf(),
        ensures
            r@ == iso_seq_of(*self),
    {
        let mut out = String::new();
        push_char(&mut out, digit_char_of(self.year / 1000));
        push_char(&mut out, digit_char_of(self.year / 100 % 10));
        push_char(&mut out, digit_char_of(self.year / 10 % 10));
        push_char(&mut out, digit_char_of(self.year % 10));
        push_char(&mut out, '-');
        push_char(&mut out, digit_char_of(self.month / 10));
        push_char(&mut out, digit_char_of(self.month % 10));
        push_char(&mut out, '-');
        push_char(&mut out, digit_char_of(self.day / 10));
        push_char(&mut out, digit_char_of(self.day % 10));
        proof {
            assert(out@ =~= iso_seq_of(*self));
        }
        out
    }
}

/// Writing a date in the feed's shape and parsing it back returns the same
/// date.
pub proof fn lemma_iso_round_trip(d: Date)
    requires
        d.wf(),
    ensures
        is_iso_date_seq(iso_seq_of(d)),
        date_of_seq(iso_seq_of(d)) == d,
{
    let y = d.year as int;
    let m = d.month as int;
    let dd = d.day as int;
    vstd::arithmetic::div_mod::lemma_fundamental_div_mod(y, 10);
    vstd::arithmetic::div_mod::lemma_fundamental_div_mod(y / 10, 10);
    vstd::arithmetic::div_mod::lemma_fundamental_div_mod(y / 100, 10);
    vstd::arithmetic::div_mod::lemma_div_denominator(y, 10, 10);
    vstd::arithmetic::div_mod::lemma_div_denominator(y, 100, 10);
    vstd::arithmetic::div_mod::lemma_fundamental_div_mod(m, 10);
    vstd::arithmetic::div_mod::lemma_fundamental_div_mod(dd, 10);
    assert(y == 1000 * (y / 1000) + 100 * ((y / 100) % 10) + 10 * ((y / 10) % 10) + y % 10);
    assert(m == 10 * (m / 10) + m % 10);
    assert(dd == 10 * (dd / 10) + dd % 10);
}

/// The day after the given date, as the feed's date arithmetic needs it.
pub fn next_day(date: Date) -> (r: Date)
    requires
        date.wf(),
        date.day_index() < max_day_index(),
    ensures
        r.wf(),
        r.day_index() == date.day_index() + 1,
{
    date.next_day()
}

} // verus!
