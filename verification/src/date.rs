//! The calendar: dates as plain year/month/day values, the working-day
//! policy (weekdays count, Saturday and Sunday do not), the successor
//! operation that all range iteration uses, and the `YYYY-MM-DD` text form
//! in which dates travel through configuration and command lines.

use vstd::prelude::*;
use chrono::Datelike;

verus! {

/// A calendar date in the proleptic Gregorian calendar, with no time
/// component. Valid dates (see [`WorkDate::wf`]) keep the year within
/// four digits so that every date has a `YYYY-MM-DD` text form.
#[derive(Clone, Copy, PartialEq, Eq, Structural, Debug)]
pub struct WorkDate {
    pub year: u32,
    pub month: u32,
    pub day: u32,
}

/// A day of the week, derived from the date alone.
#[derive(Clone, Copy, PartialEq, Eq, Structural, Debug)]
pub enum Weekday {
    Monday,
    Tuesday,
    Wednesday,
    Thursday,
    Friday,
    Saturday,
    Sunday,
}

/// A leap year: divisible by 4, except centuries not divisible by 400.
pub open spec fn spec_is_leap_year(year: u32) -> bool {
    (year % 4 == 0 && year % 100 != 0) || year % 400 == 0
}

/// The number of days in a month of a given year.
pub open spec fn spec_days_in_month(year: u32, month: u32) -> int {
    if month == 2 {
        if spec_is_leap_year(year) {
            29
        } else {
            28
        }
    } else if month == 4 || month == 6 || month == 9 || month == 11 {
        30
    } else {
        31
    }
}

pub fn is_leap_year(year: u32) -> (r: bool)
    ensures
        r == spec_is_leap_year(year),
{
    (year % 4 == 0 && year % 100 != 0) || year % 400 == 0
}

pub fn days_in_month(year: u32, month: u32) -> (r: u32)
    ensures
        r == spec_days_in_month(year, month),
{
    if month == 2 {
        if is_leap_year(year) {
            29
        } else {
            28
        }
    } else if month == 4 || month == 6 || month == 9 || month == 11 {
        30
    } else {
        31
    }
}

impl WorkDate {
    /// A well-formed date: month and day exist in that year's calendar and
    /// the year has four decimal digits.
    pub open spec fn wf(self) -> bool {
        &&& 1 <= self.year <= 9999
        &&& 1 <= self.month <= 12
        &&& 1 <= self.day <= spec_days_in_month(self.year, self.month)
    }

    /// A total order on dates: later years, then later months, then later
    /// days.
    pub open spec fn spec_lt(self, other: WorkDate) -> bool {
        ||| self.year < other.year
        ||| (self.year == other.year && self.month < other.month)
        ||| (self.year == other.year && self.month == other.month && self.day < other.day)
    }

    pub open spec fn spec_le(self, other: WorkDate) -> bool {
        self.spec_lt(other) || self == other
    }

    /// An integer that embeds the date order: strictly monotone along
    /// [`WorkDate::spec_succ`] and along [`WorkDate::spec_lt`]. Loop
    /// termination measures are stated with it.
    pub open spec fn key(self) -> int {
        372 * self.year + 31 * self.month + self.day
    }

    /// The calendar successor of a date.
    pub open spec fn spec_succ(self) -> WorkDate {
        if self.day < spec_days_in_month(self.year, self.month) {
            WorkDate { day: (self.day + 1) as u32, ..self }
        } else if self.month < 12 {
            WorkDate { month: (self.month + 1) as u32, day: 1, ..self }
        } else {
            WorkDate { year: (self.year + 1) as u32, month: 1, day: 1 }
        }
    }

    /// Builds a date after checking that it exists in the calendar.
    pub fn new(year: u32, month: u32, day: u32) -> (r: Option<WorkDate>)
        ensures
            match r {
                Some(d) => d.wf() && d.year == year && d.month == month && d.day == day,
                None => !(WorkDate { year, month, day }).wf(),
            },
    {
        if 1 <= year && year <= 9999 && 1 <= month && month <= 12 && 1 <= day && day
            <= days_in_month(year, month) {
            Some(WorkDate { year, month, day })
        } else {
            None
        }
    }

    /// The day after this one. The last representable day has no successor.
    pub fn succ(self) -> (r: WorkDate)
        requires
            self.wf(),
            !(self.year == 9999 && self.month == 12 && self.day == 31),
        ensures
            r == self.spec_succ(),
            r.wf(),
            r.key() > self.key(),
            self.spec_lt(r),
    {
        if self.day < days_in_month(self.year, self.month) {
            WorkDate { day: self.day + 1, ..self }
        } else if self.month < 12 {
            WorkDate { month: self.month + 1, day: 1, ..self }
        } else {
            WorkDate { year: self.year + 1, month: 1, day: 1 }
        }
    }

    pub fn lt(self, other: WorkDate) -> (r: bool)
        ensures
            r == self.spec_lt(other),
    {
        self.year < other.year || (self.year == other.year && self.month < other.month) || (
        self.year == other.year && self.month == other.month && self.day < other.day)
    }

    pub fn le(self, other: WorkDate) -> (r: bool)
        ensures
            r == self.spec_le(other),
    {
        self.year < other.year || (self.year == other.year && self.month < other.month) || (
        self.year == other.year && self.month == other.month && self.day <= other.day)
    }
}

/// The date order agrees with the integer key, so `key(b) - key(a)`
/// decreases while a cursor walks from `a` toward `b`.
pub proof fn lemma_lt_key(a: WorkDate, b: WorkDate)
    requires
        a.wf(),
        b.wf(),
    ensures
        a.spec_lt(b) <==> a.key() < b.key(),
{
}

/// Zeller's congruence: 0 stands for Saturday, 1 for Sunday, 2 for Monday
/// and so on through 6 for Friday. January and February count as months 13
/// and 14 of the preceding year.
pub open spec fn zeller(d: WorkDate) -> int {
    let y: int = if d.month <= 2 {
        d.year - 1
    } else {
        d.year as int
    };
    let m: int = if d.month <= 2 {
        d.month + 12
    } else {
        d.month as int
    };
    let k = y % 100;
    let j = y / 100;
    (d.day + (13 * (m + 1)) / 5 + k + k / 4 + j / 4 + 5 * j) % 7
}

/// The day of the week of a date, by Zeller's congruence.
pub open spec fn spec_weekday(d: WorkDate) -> Weekday {
    let z = zeller(d);
    if z == 0 {
        Weekday::Saturday
    } else if z == 1 {
        Weekday::Sunday
    } else if z == 2 {
        Weekday::Monday
    } else if z == 3 {
        Weekday::Tuesday
    } else if z == 4 {
        Weekday::Wednesday
    } else if z == 5 {
        Weekday::Thursday
    } else {
        Weekday::Friday
    }
}

/// A working day is any day other than Saturday and Sunday.
pub open spec fn spec_is_working_day(d: WorkDate) -> bool {
    spec_weekday(d) != Weekday::Saturday && spec_weekday(d) != Weekday::Sunday
}

impl WorkDate {
    /// The day of the week this date falls on.
    pub fn weekday(self) -> (r: Weekday)
        requires
            self.wf(),
        ensures
            r == spec_weekday(self),
    {
        let y: u32 = if self.month <= 2 {
            self.year - 1
        } else {
            self.year
        };
        let m: u32 = if self.month <= 2 {
            self.month + 12
        } else {
            self.month
        };
        let k = y % 100;
        let j = y / 100;
        let z = (self.day + (13 * (m + 1)) / 5 + k + k / 4 + j / 4 + 5 * j) % 7;
        if z == 0 {
            Weekday::Saturday
        } else if z == 1 {
            Weekday::Sunday
        } else if z == 2 {
            Weekday::Monday
        } else if z == 3 {
            Weekday::Tuesday
        } else if z == 4 {
            Weekday::Wednesday
        } else if z == 5 {
            Weekday::Thursday
        } else {
            Weekday::Friday
        }
    }
}

/// True unless the date falls on a Saturday or a Sunday; declared time off
/// never excludes a day, it only reduces the day's quota.
pub fn is_working_day(d: WorkDate) -> (r: bool)
    requires
        d.wf(),
    ensures
        r == spec_is_working_day(d),
{
    let w = d.weekday();
    w != Weekday::Saturday && w != Weekday::Sunday
}

/// A date fails the working-day policy exactly when its weekday is
/// Saturday or Sunday.
pub proof fn lemma_not_working_day_iff_weekend(d: WorkDate)
    ensures
        !spec_is_working_day(d) <==> (spec_weekday(d) == Weekday::Saturday || spec_weekday(d)
            == Weekday::Sunday),
{
}

/// The decimal digit character for a value below ten.
pub open spec fn digit_char(n: int) -> char {
    if n == 0 {
        '0'
    } else if n == 1 {
        '1'
    } else if n == 2 {
        '2'
    } else if n == 3 {
        '3'
    } else if n == 4 {
        '4'
    } else if n == 5 {
        '5'
    } else if n == 6 {
        '6'
    } else if n == 7 {
        '7'
    } else if n == 8 {
        '8'
    } else {
        '9'
    }
}

pub open spec fn is_digit(c: char) -> bool {
    48 <= c as u32 <= 57
}

pub open spec fn digit_val(c: char) -> int {
    c as u32 - 48
}

/// A number below one hundred, zero-padded to two digit characters.
pub open spec fn two_digits(n: int) -> Seq<char> {
    seq![digit_char(n / 10), digit_char(n % 10)]
}

/// A number below ten thousand, zero-padded to four digit characters.
pub open spec fn four_digits(n: int) -> Seq<char> {
    seq![
        digit_char(n / 1000),
        digit_char((n / 100) % 10),
        digit_char((n / 10) % 10),
        digit_char(n % 10),
    ]
}

/// The `YYYY-MM-DD` text form of a date.
pub open spec fn iso_of(d: WorkDate) -> Seq<char> {
    four_digits(d.year as int) + seq!['-'] + two_digits(d.month as int) + seq!['-'] + two_digits(
        d.day as int,
    )
}

/// Digit characters map back to their values.
proof fn lemma_digit_char_val(n: int)
    requires
        0 <= n < 10,
    ensures
        is_digit(digit_char(n)),
        digit_val(digit_char(n)) == n,
{
}

/// A digit character is recovered from its value.
proof fn lemma_digit_val_char(c: char)
    requires
        is_digit(c),
    ensures
        digit_char(digit_val(c)) == c,
{
    vstd::utf8::char_u32_cast(c, c as u32);
    if c as u32 == 48 {
        vstd::utf8::char_u32_cast('0', 48);
    } else if c as u32 == 49 {
        vstd::utf8::char_u32_cast('1', 49);
    } else if c as u32 == 50 {
        vstd::utf8::char_u32_cast('2', 50);
    } else if c as u32 == 51 {
        vstd::utf8::char_u32_cast('3', 51);
    } else if c as u32 == 52 {
        vstd::utf8::char_u32_cast('4', 52);
    } else if c as u32 == 53 {
        vstd::utf8::char_u32_cast('5', 53);
    } else if c as u32 == 54 {
        vstd::utf8::char_u32_cast('6', 54);
    } else if c as u32 == 55 {
        vstd::utf8::char_u32_cast('7', 55);
    } else {
        vstd::utf8::char_u32_cast('8', 56);
        vstd::utf8::char_u32_cast('9', 57);
    }
}

/// The character at each position of the text form of a well-formed date.
proof fn lemma_iso_index(d: WorkDate)
    requires
        d.wf(),
    ensures
        iso_of(d).len() == 10,
        iso_of(d)[0] == digit_char(d.year as int / 1000),
        iso_of(d)[1] == digit_char((d.year as int / 100) % 10),
        iso_of(d)[2] == digit_char((d.year as int / 10) % 10),
        iso_of(d)[3] == digit_char(d.year as int % 10),
        iso_of(d)[4] == '-',
        iso_of(d)[5] == digit_char(d.month as int / 10),
        iso_of(d)[6] == digit_char(d.month as int % 10),
        iso_of(d)[7] == '-',
        iso_of(d)[8] == digit_char(d.day as int / 10),
        iso_of(d)[9] == digit_char(d.day as int % 10),
{
}

/// Appends a single decimal digit character.
fn push_digit(s: &mut String, n: u32)
    requires
        n < 10,
    ensures
        final(s)@ == old(s)@ + seq![digit_char(n as int)],
{
    proof {
        reveal_strlit("0");
        reveal_strlit("1");
        reveal_strlit("2");
        reveal_strlit("3");
        reveal_strlit("4");
        reveal_strlit("5");
        reveal_strlit("6");
        reveal_strlit("7");
        reveal_strlit("8");
        reveal_strlit("9");
    }
    if n == 0 {
        s.append("0");
        proof {
            assert(s@ =~= old(s)@ + seq![digit_char(n as int)]);
        }
    } else if n == 1 {
        s.append("1");
        proof {
            assert(s@ =~= old(s)@ + seq![digit_char(n as int)]);
        }
    } else if n == 2 {
        s.append("2");
        proof {
            assert(s@ =~= old(s)@ + seq![digit_char(n as int)]);
        }
    } else if n == 3 {
        s.append("3");
        proof {
            assert(s@ =~= old(s)@ + seq![digit_char(n as int)]);
        }
    } else if n == 4 {
        s.append("4");
        proof {
            assert(s@ =~= old(s)@ + seq![digit_char(n as int)]);
        }
    } else if n == 5 {
        s.append("5");
        proof {
            assert(s@ =~= old(s)@ + seq![digit_char(n as int)]);
        }
    } else if n == 6 {
        s.append("6");
        proof {
            assert(s@ =~= old(s)@ + seq![digit_char(n as int)]);
        }
    } else if n == 7 {
        s.append("7");
        proof {
            assert(s@ =~= old(s)@ + seq![digit_char(n as int)]);
        }
    } else if n == 8 {
        s.append("8");
        proof {
            assert(s@ =~= old(s)@ + seq![digit_char(n as int)]);
        }
    } else {
        s.append("9");
        proof {
            assert(s@ =~= old(s)@ + seq![digit_char(n as int)]);
        }
    }
}

impl WorkDate {
    /// The `YYYY-MM-DD` form of this date, zero-padded.
    pub fn format_iso(self) -> (r: String)
        requires
            self.wf(),
        ensures
            r@ == iso_of(self),
    {
        let mut s = String::new();
        push_digit(&mut s, self.year / 1000);
        push_digit(&mut s, (self.year / 100) % 10);
        push_digit(&mut s, (self.year / 10) % 10);
        push_digit(&mut s, self.year % 10);
        proof {
            reveal_strlit("-");
        }
        s.append("-");
        push_digit(&mut s, self.month / 10);
        push_digit(&mut s, self.month % 10);
        s.append("-");
        push_digit(&mut s, self.day / 10);
        push_digit(&mut s, self.day % 10);
        proof {
            assert(s@ =~= iso_of(self));
        }
        s
    }
}

/// The value of a digit character, or `None` for any other character.
fn digit(c: char) -> (r: Option<u32>)
    ensures
        match r {
            Some(v) => is_digit(c) && v == digit_val(c) && v < 10,
            None => !is_digit(c),
        },
{
    let u = c as u32;
    if 48 <= u && u <= 57 {
        Some(u - 48)
    } else {
        None
    }
}

/// The text form determines the date: every field of a well-formed date
/// is recovered from the digit characters of `iso_of`.
#[verifier::rlimit(80)]
proof fn lemma_iso_inverts(d: WorkDate)
    requires
        d.wf(),
    ensures
        iso_of(d).len() == 10,
        is_digit(iso_of(d)[0]),
        is_digit(iso_of(d)[1]),
        is_digit(iso_of(d)[2]),
        is_digit(iso_of(d)[3]),
        is_digit(iso_of(d)[5]),
        is_digit(iso_of(d)[6]),
        is_digit(iso_of(d)[8]),
        is_digit(iso_of(d)[9]),
        iso_of(d)[4] == '-',
        iso_of(d)[7] == '-',
        d.year == 1000 * digit_val(iso_of(d)[0]) + 100 * digit_val(iso_of(d)[1]) + 10 * digit_val(
            iso_of(d)[2],
        ) + digit_val(iso_of(d)[3]),
        d.month == 10 * digit_val(iso_of(d)[5]) + digit_val(iso_of(d)[6]),
        d.day == 10 * digit_val(iso_of(d)[8]) + digit_val(iso_of(d)[9]),
{
    lemma_iso_index(d);
    lemma_digit_char_val(d.year as int / 1000);
    lemma_digit_char_val((d.year as int / 100) % 10);
    lemma_digit_char_val((d.year as int / 10) % 10);
    lemma_digit_char_val(d.year as int % 10);
    lemma_digit_char_val(d.month as int / 10);
    lemma_digit_char_val(d.month as int % 10);
    lemma_digit_char_val(d.day as int / 10);
    lemma_digit_char_val(d.day as int % 10);
    assert(d.year == (d.year as int / 1000) * 1000 + ((d.year as int / 100) % 10) * 100 + ((
    d.year as int / 10) % 10) * 10 + d.year as int % 10);
    assert(d.month == (d.month as int / 10) * 10 + d.month as int % 10);
    assert(d.day == (d.day as int / 10) * 10 + d.day as int % 10);
}

/// Ten characters shaped like `YYYY-MM-DD`: digits around two dashes.
pub open spec fn iso_shape_ok(s: Seq<char>) -> bool {
    &&& s.len() == 10
    &&& s[4] == '-'
    &&& s[7] == '-'
    &&& is_digit(s[0])
    &&& is_digit(s[1])
    &&& is_digit(s[2])
    &&& is_digit(s[3])
    &&& is_digit(s[5])
    &&& is_digit(s[6])
    &&& is_digit(s[8])
    &&& is_digit(s[9])
}

/// The date a string of the `YYYY-MM-DD` shape denotes, valid or not.
pub open spec fn iso_date_of(s: Seq<char>) -> WorkDate {
    WorkDate {
        year: (1000 * digit_val(s[0]) + 100 * digit_val(s[1]) + 10 * digit_val(s[2]) + digit_val(
            s[3],
        )) as u32,
        month: (10 * digit_val(s[5]) + digit_val(s[6])) as u32,
        day: (10 * digit_val(s[8]) + digit_val(s[9])) as u32,
    }
}

/// A string that is not shaped like a date, or denotes an invalid one, is
/// the text form of no well-formed date.
proof fn lemma_iso_parse_none(s: Seq<char>)
    requires
        !iso_shape_ok(s) || !iso_date_of(s).wf(),
    ensures
        forall|d: WorkDate| d.wf() ==> s != iso_of(d),
{
    assert forall|d: WorkDate| d.wf() implies s != iso_of(d) by {
        if s == iso_of(d) {
            lemma_iso_inverts(d);
            assert(iso_shape_ok(s));
            assert(iso_date_of(s) == d);
        }
    }
}

/// A string of the right shape that denotes a well-formed date is exactly
/// that date's text form.
#[verifier::rlimit(80)]
proof fn lemma_iso_parse_some(s: Seq<char>, d: WorkDate)
    requires
        iso_shape_ok(s),
        d == iso_date_of(s),
        d.wf(),
    ensures
        s == iso_of(d),
{
    lemma_iso_index(d);
    assert(d.year as int / 1000 == digit_val(s[0]));
    assert((d.year as int / 100) % 10 == digit_val(s[1]));
    assert((d.year as int / 10) % 10 == digit_val(s[2]));
    assert(d.year as int % 10 == digit_val(s[3]));
    assert(d.month as int / 10 == digit_val(s[5]));
    assert(d.month as int % 10 == digit_val(s[6]));
    assert(d.day as int / 10 == digit_val(s[8]));
    assert(d.day as int % 10 == digit_val(s[9]));
    lemma_digit_val_char(s[0]);
    lemma_digit_val_char(s[1]);
    lemma_digit_val_char(s[2]);
    lemma_digit_val_char(s[3]);
    lemma_digit_val_char(s[5]);
    lemma_digit_val_char(s[6]);
    lemma_digit_val_char(s[8]);
    lemma_digit_val_char(s[9]);
    assert(s =~= iso_of(d));
}

/// Reads a `YYYY-MM-DD` string back into the date it denotes. Exactly the
/// strings produced by [`WorkDate::format_iso`] from well-formed dates are
/// accepted.
pub fn parse_iso_date(s: &str) -> (r: Option<WorkDate>)
    ensures
        match r {
            Some(d) => d.wf() && s@ == iso_of(d),
            None => forall|d: WorkDate| d.wf() ==> s@ != iso_of(d),
        },
{
    let n = s.unicode_len();
    if n != 10 {
        proof {
            lemma_iso_parse_none(s@);
        }
        return None;
    }
    let dash4 = s.get_char(4);
    let dash7 = s.get_char(7);
    if dash4 != '-' || dash7 != '-' {
        proof {
            lemma_iso_parse_none(s@);
        }
        return None;
    }
    let d0 = digit(s.get_char(0));
    let d1 = digit(s.get_char(1));
    let d2 = digit(s.get_char(2));
    let d3 = digit(s.get_char(3));
    let d5 = digit(s.get_char(5));
    let d6 = digit(s.get_char(6));
    let d8 = digit(s.get_char(8));
    let d9 = digit(s.get_char(9));
    match (d0, d1, d2, d3, d5, d6, d8, d9) {
        (
            Some(y0),
            Some(y1),
            Some(y2),
            Some(y3),
            Some(m0),
            Some(m1),
            Some(a0),
            Some(a1),
        ) => {
            let year = y0 * 1000 + y1 * 100 + y2 * 10 + y3;
            let month = m0 * 10 + m1;
            let day = a0 * 10 + a1;
            proof {
                assert(iso_shape_ok(s@));
                assert(iso_date_of(s@) == (WorkDate { year, month, day }));
            }
            match WorkDate::new(year, month, day) {
                Some(d) => {
                    proof {
                        lemma_iso_parse_some(s@, d);
                    }
                    Some(d)
                },
                None => {
                    proof {
                        lemma_iso_parse_none(s@);
                    }
                    None
                },
            }
        },
        _ => {
            proof {
                lemma_iso_parse_none(s@);
            }
            None
        },
    }
}

/// Relies on chrono's `Utc::now` with the `Datelike` accessors: `month`
/// is documented to return 1 through 12 and `day` 1 through 31; nothing
/// else is assumed of the clock.
#[verifier::external_body]
fn current_date_parts() -> (r: (i32, u32, u32))
    ensures
        1 <= r.1 <= 12,
        1 <= r.2 <= 31,
{
    let now = chrono::Utc::now().date_naive();
    (now.year(), now.month(), now.day())
}

/// The date today, by the system clock, whenever the clock answers a
/// date the calendar here can hold; the caller decides what to do in the
/// far-fetched case that it does not.
pub fn today() -> (r: Option<WorkDate>)
    ensures
        r matches Some(d) ==> d.wf(),
{
    let (y, m, d) = current_date_parts();
    if y < 1 || y > 9999 {
        return None;
    }
    WorkDate::new(y as u32, m, d)
}

} // verus!
