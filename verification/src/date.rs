//! Calendar dates (year, month, day) as plain values, with chrono deciding
//! which triples name a date, and the twelve months of the year.

use vstd::prelude::*;

verus! {

/// The earliest year that a `chrono::NaiveDate` can hold.
pub const MIN_YEAR: i32 = -262143;

/// The latest year that a `chrono::NaiveDate` can hold.
pub const MAX_YEAR: i32 = 262142;

/// Whether `year` is a leap year of the proleptic Gregorian calendar.
pub open spec fn is_leap_year(year: int) -> bool {
    (year % 4 == 0 && year % 100 != 0) || year % 400 == 0
}

/// The number of days of `month` (1 to 12) in `year`.
pub open spec fn days_in_month(year: int, month: int) -> int {
    if month == 2 {
        if is_leap_year(year) {
            29
        } else {
            28
        }
    } else if month == 4 || month == 6 || month == 9 || month == 11 {
        30
    } else {
        31
    }
}

/// Whether (`year`, `month`, `day`) names a day that a `chrono::NaiveDate`
/// can hold.
pub open spec fn valid_ymd(year: int, month: int, day: int) -> bool {
    &&& MIN_YEAR <= year <= MAX_YEAR
    &&& 1 <= month <= 12
    &&& 1 <= day <= days_in_month(year, month)
}

/// Strict chronological order of two dates given as (year, month, day).
pub open spec fn date_lt(a: (i32, u32, u32), b: (i32, u32, u32)) -> bool {
    ||| a.0 < b.0
    ||| a.0 == b.0 && a.1 < b.1
    ||| a.0 == b.0 && a.1 == b.1 && a.2 < b.2
}

#[verifier::external_type_specification]
#[verifier::external_body]
pub struct ExNaiveDate(chrono::NaiveDate);

/// Calls `chrono::NaiveDate::from_ymd_opt`, which returns `None` exactly
/// when the year is out of its range or the month or the day does not
/// exist, and `Some` otherwise.
#[verifier::external_body]
fn naive_date_from_ymd(year: i32, month: u32, day: u32) -> (r: Option<chrono::NaiveDate>)
    ensures
        r is Some <==> valid_ymd(year as int, month as int, day as int),
{
    chrono::NaiveDate::from_ymd_opt(year, month, day)
}

/// A day of the calendar. Its fields always name a day that chrono can
/// hold; dates are ordered by year, then month, then day.
#[derive(Clone, Copy, Debug, PartialEq, Eq, Structural, Hash, PartialOrd, Ord)]
pub struct Date {
    year: i32,
    month: u32,
    day: u32,
}

impl View for Date {
    type V = (i32, u32, u32);

    closed spec fn view(&self) -> (i32, u32, u32) {
        (self.year, self.month, self.day)
    }
}

impl Date {
    #[verifier::type_invariant]
    closed spec fn well_formed(self) -> bool {
        valid_ymd(self.year as int, self.month as int, self.day as int)
    }

    /// The date with the given year, month (1 to 12) and day of the month,
    /// or `None` where chrono knows no such day.
    pub fn from_ymd(year: i32, month: u32, day: u32) -> (r: Option<Date>)
        ensures
            r is Some <==> valid_ymd(year as int, month as int, day as int),
            r matches Some(d) ==> d@ == (year, month, day),
    {
        match naive_date_from_ymd(year, month, day) {
            Some(_) => Some(Date { year, month, day }),
            None => None,
        }
    }

    /// The year.
    pub fn year(&self) -> (r: i32)
        ensures
            r == self@.0,
    {
        self.year
    }

    /// The month, from 1 (January) to 12 (December).
    pub fn month(&self) -> (r: u32)
        ensures
            r == self@.1,
            1 <= r <= 12,
    {
        proof {
            use_type_invariant(self);
        }
        self.month
    }

    /// The day of the month, from 1.
    pub fn day(&self) -> (r: u32)
        ensures
            r == self@.2,
            1 <= r <= days_in_month(self@.0 as int, self@.1 as int),
    {
        proof {
            use_type_invariant(self);
        }
        self.day
    }

    /// Whether `self` comes strictly before `other`.
    pub fn is_before(&self, other: &Date) -> (r: bool)
        ensures
            r == date_lt(self@, other@),
    {
        self.year < other.year || (self.year == other.year && (self.month < other.month || (
        self.month == other.month && self.day < other.day)))
    }

    /// Whether `self` and `other` are the same day.
    pub fn same_day(&self, other: &Date) -> (r: bool)
        ensures
            r == (self@ == other@),
    {
        self.year == other.year && self.month == other.month && self.day == other.day
    }
}

impl Default for Date {
    /// The first of January 1970, as for `chrono::NaiveDate`.
    fn default() -> (r: Date)
        ensures
            r@ == (1970i32, 1u32, 1u32),
    {
        Date { year: 1970, month: 1, day: 1 }
    }
}


/// A month of the year, in calendar order (the months of `chrono::Month`).
#[derive(Clone, Copy, Debug, PartialEq, Eq, Structural, Hash)]
pub enum Month {
    January,
    February,
    March,
    April,
    May,
    June,
    July,
    August,
    September,
    October,
    November,
    December,
}

/// The position of `m` in the year counted from 0 (January) to 11
/// (December): the value of `chrono::Month` as an integer.
pub open spec fn month_ordinal0(m: Month) -> int {
    match m {
        Month::January => 0,
        Month::February => 1,
        Month::March => 2,
        Month::April => 3,
        Month::May => 4,
        Month::June => 5,
        Month::July => 6,
        Month::August => 7,
        Month::September => 8,
        Month::October => 9,
        Month::November => 10,
        Month::December => 11,
    }
}

/// The English name of `m`, as `chrono::Month::name` gives it.
pub open spec fn month_name(m: Month) -> &'static str {
    match m {
        Month::January => "January",
        Month::February => "February",
        Month::March => "March",
        Month::April => "April",
        Month::May => "May",
        Month::June => "June",
        Month::July => "July",
        Month::August => "August",
        Month::September => "September",
        Month::October => "October",
        Month::November => "November",
        Month::December => "December",
    }
}

/// The twelve months in calendar order.
pub open spec fn months_in_order() -> Seq<Month> {
    seq![
        Month::January,
        Month::February,
        Month::March,
        Month::April,
        Month::May,
        Month::June,
        Month::July,
        Month::August,
        Month::September,
        Month::October,
        Month::November,
        Month::December,
    ]
}

impl Month {
    /// The twelve months in calendar order.
    pub fn all() -> (r: Vec<Month>)
        ensures
            r@ == months_in_order(),
    {
        let r = vec![
            Month::January,
            Month::February,
            Month::March,
            Month::April,
            Month::May,
            Month::June,
            Month::July,
            Month::August,
            Month::September,
            Month::October,
            Month::November,
            Month::December,
        ];
        assert(r@ =~= months_in_order());
        r
    }

    /// The month as an integer from 0 (January) to 11 (December), as
    /// `chrono::Month` casts to `u32`.
    pub fn ordinal0(self) -> (r: u32)
        ensures
            r == month_ordinal0(self),
    {
        match self {
            Month::January => 0,
            Month::February => 1,
            Month::March => 2,
            Month::April => 3,
            Month::May => 4,
            Month::June => 5,
            Month::July => 6,
            Month::August => 7,
            Month::September => 8,
            Month::October => 9,
            Month::November => 10,
            Month::December => 11,
        }
    }

    /// The month number from 1 (January) to 12 (December).
    pub fn number_from_month(self) -> (r: u32)
        ensures
            r == month_ordinal0(self) + 1,
    {
        self.ordinal0() + 1
    }

    /// The month whose number is `number` (1 to 12), or `None`.
    pub fn from_number(number: u32) -> (r: Option<Month>)
        ensures
            r is Some <==> 1 <= number <= 12,
            r matches Some(m) ==> month_ordinal0(m) + 1 == number,
    {
        match number {
            1 => Some(Month::January),
            2 => Some(Month::February),
            3 => Some(Month::March),
            4 => Some(Month::April),
            5 => Some(Month::May),
            6 => Some(Month::June),
            7 => Some(Month::July),
            8 => Some(Month::August),
            9 => Some(Month::September),
            10 => Some(Month::October),
            11 => Some(Month::November),
            12 => Some(Month::December),
            _ => None,
        }
    }

    /// The English name of the month.
    pub fn name(self) -> (r: &'static str)
        ensures
            r == month_name(self),
    {
        match self {
            Month::January => "January",
            Month::February => "February",
            Month::March => "March",
            Month::April => "April",
            Month::May => "May",
            Month::June => "June",
            Month::July => "July",
            Month::August => "August",
            Month::September => "September",
            Month::October => "October",
            Month::November => "November",
            Month::December => "December",
        }
    }
}

/// The twelve months come in calendar order, each once, at the position
/// given by its 0-based number.
pub proof fn law_month_positions(m: Month, n: Month)
    ensures
        months_in_order().len() == 12,
        0 <= month_ordinal0(m) < 12,
        months_in_order()[month_ordinal0(m)] == m,
        month_ordinal0(m) == month_ordinal0(n) ==> m == n,
{
}

/// The order of dates is a strict total order.
pub proof fn law_date_order(a: (i32, u32, u32), b: (i32, u32, u32), c: (i32, u32, u32))
    ensures
        !date_lt(a, a),
        date_lt(a, b) ==> !date_lt(b, a),
        date_lt(a, b) && date_lt(b, c) ==> date_lt(a, c),
        date_lt(a, b) || a == b || date_lt(b, a),
{
}

/// Dates are ordered chronologically: an earlier year comes first; in the
/// same year an earlier month comes first; in the same month an earlier day
/// of the month comes first.
pub proof fn law_date_order_is_chronological(a: (i32, u32, u32), b: (i32, u32, u32))
    ensures
        a.0 < b.0 ==> date_lt(a, b),
        a.0 == b.0 && a.1 < b.1 ==> date_lt(a, b),
        a.0 == b.0 && a.1 == b.1 ==> (date_lt(a, b) <==> a.2 < b.2),
        a.0 > b.0 ==> !date_lt(a, b),
        a.0 == b.0 && a.1 > b.1 ==> !date_lt(a, b),
{
}

/// The months in calendar order, January to December.
pub open spec fn calendar() -> Seq<Month> {
    seq![
        Month::January,
        Month::February,
        Month::March,
        Month::April,
        Month::May,
        Month::June,
        Month::July,
        Month::August,
        Month::September,
        Month::October,
        Month::November,
        Month::December,
    ]
}

/// The English names of the months, January to December.
pub open spec fn english_month_names() -> Seq<&'static str> {
    seq![
        "January",
        "February",
        "March",
        "April",
        "May",
        "June",
        "July",
        "August",
        "September",
        "October",
        "November",
        "December",
    ]
}

/// A month's 0-based position is its place in the calendar (January 0 to
/// December 11), the months listed for choosing come in calendar order, and
/// the month with number `n` is the `n`-th month of the calendar.
pub proof fn law_months_follow_the_calendar(m: Month, n: int)
    ensures
        0 <= month_ordinal0(m) < 12,
        calendar()[month_ordinal0(m)] == m,
        months_in_order() == calendar(),
        1 <= n <= 12 ==> month_ordinal0(calendar()[n - 1]) + 1 == n,
{
    assert(months_in_order() =~= calendar());
}

/// A month's name is its English calendar name.
pub proof fn law_month_names_are_english(m: Month)
    ensures
        month_name(m) == english_month_names()[month_ordinal0(m)],
{
}

} // verus!
