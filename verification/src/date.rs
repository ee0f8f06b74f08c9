//! Calendar dates, read from and written as `YYYY-MM-DD`.

use vstd::prelude::*;
use vstd::string::*;

use crate::text::{
    all_digits, chars_of, find_char, is_digit, lemma_position, lemma_position_bounds,
    lemma_zero_padded_value, numeral_within, parse_numeral, position, push_zero_padded,
    zero_padded,
};

verus! {

/// A calendar date. The components are taken as read: no month or day is
/// refused for being off the calendar.
#[derive(Clone, Copy, Debug, PartialEq, Eq, Structural)]
pub struct Date {
    /// Year, usually 1970 or later
    pub year: u16,
    /// Month number, 1-12
    pub month: u8,
    /// Day of the month, 1-31
    pub day: u8,
}

/// Why a text is no date.
#[derive(Clone, Copy, Debug, PartialEq, Eq, Structural)]
pub enum DateParseError {
    /// The text does not have exactly three components between dashes
    InvalidComponents,
    /// The first component is no year
    YearParseError,
    /// The second component is no month
    MonthParseError,
    /// The third component is no day
    DayParseError,
}

/// The date that `s` writes: three numerals with a dash between each two,
/// the year up to 65535, the month and the day up to 255.
pub open spec fn parse_date(s: Seq<char>) -> Result<Date, DateParseError> {
    let first = position(s, '-');
    let rest = s.skip(first + 1);
    let second = position(rest, '-');
    let last = rest.skip(second + 1);
    if first >= s.len() || second >= rest.len() || last.contains('-') {
        Err(DateParseError::InvalidComponents)
    } else {
        match numeral_within(s.take(first), u16::MAX as nat) {
            None => Err(DateParseError::YearParseError),
            Some(year) => match numeral_within(rest.take(second), u8::MAX as nat) {
                None => Err(DateParseError::MonthParseError),
                Some(month) => match numeral_within(last, u8::MAX as nat) {
                    None => Err(DateParseError::DayParseError),
                    Some(day) => Ok(
                        Date { year: year as u16, month: month as u8, day: day as u8 },
                    ),
                },
            },
        }
    }
}

/// How `date` is written: the year on at least four digits, the month and
/// the day on at least two, zeros in front.
pub open spec fn date_text(date: Date) -> Seq<char> {
    zero_padded(date.year as nat, 4) + seq!['-'] + zero_padded(date.month as nat, 2) + seq!['-']
        + zero_padded(date.day as nat, 2)
}

/// Whether `year` has a 29th of February.
pub open spec fn is_leap_year(year: int) -> bool {
    year % 4 == 0 && (year % 100 != 0 || year % 400 == 0)
}

/// The number of days of `year`.
pub open spec fn days_in_year(year: int) -> int {
    if is_leap_year(year) {
        366
    } else {
        365
    }
}

/// The number of days of the month `month` of `year`.
pub open spec fn days_in_month(year: int, month: int) -> int {
    if month == 2 {
        if is_leap_year(year) {
            29
        } else {
            28
        }
    } else if month == 4 || month == 6 || month == 9 || month == 11 {
        30
    } else {
        31
    }
}

/// The number of days from the first of January 1970 to the first of
/// January of `year`.
pub open spec fn days_before_year(year: int) -> int
    decreases year,
{
    if year <= 1970 {
        0
    } else {
        days_before_year(year - 1) + days_in_year(year - 1)
    }
}

/// The number of days from the first of January of `year` to the first of
/// its month `month`.
pub open spec fn days_before_month(year: int, month: int) -> int
    decreases month,
{
    if month <= 1 {
        0
    } else {
        days_before_month(year, month - 1) + days_in_month(year, month - 1)
    }
}

/// Whether `date` is a day of the calendar, not before 1970.
pub open spec fn is_calendar_date(date: Date) -> bool {
    &&& date.year >= 1970
    &&& 1 <= date.month <= 12
    &&& 1 <= date.day <= days_in_month(date.year as int, date.month as int)
}

/// The number of days from the first of January 1970 to `date`.
pub open spec fn epoch_day(date: Date) -> int {
    days_before_year(date.year as int) + days_before_month(date.year as int, date.month as int)
        + date.day - 1
}

fn leap_year(year: u32) -> (r: bool)
    ensures
        r == is_leap_year(year as int),
{
    year % 4 == 0 && (year % 100 != 0 || year % 400 == 0)
}

fn month_length(year: u32, month: u32) -> (r: u32)
    ensures
        r == days_in_month(year as int, month as int),
{
    if month == 2 {
        if leap_year(year) {
            29
        } else {
            28
        }
    } else if month == 4 || month == 6 || month == 9 || month == 11 {
        30
    } else {
        31
    }
}

proof fn lemma_years_add_up(from: int, to: int)
    requires
        1970 <= from <= to,
    ensures
        days_before_year(from) <= days_before_year(to),
    decreases to - from,
{
    if from < to {
        lemma_years_add_up(from, to - 1);
    }
}

proof fn lemma_months_add_up(year: int, from: int, to: int)
    requires
        1 <= from <= to,
    ensures
        days_before_month(year, from) <= days_before_month(year, to),
    decreases to - from,
{
    if from < to {
        lemma_months_add_up(year, from, to - 1);
    }
}

proof fn lemma_day_within_year(date: Date)
    requires
        is_calendar_date(date),
    ensures
        days_before_year(date.year as int) <= epoch_day(date) < days_before_year(date.year + 1),
{
    let year = date.year as int;
    lemma_months_add_up(year, 1, date.month as int);
    lemma_months_add_up(year, date.month + 1, 13);
    assert(days_before_month(year, 13) == days_in_year(year)) by {
        reveal_with_fuel(days_before_month, 14);
    }
}

/// No two days of the calendar are equally far from the first of January
/// 1970.
pub proof fn lemma_epoch_day_is_one_to_one(one: Date, other: Date)
    requires
        is_calendar_date(one),
        is_calendar_date(other),
        epoch_day(one) == epoch_day(other),
    ensures
        one == other,
{
    lemma_day_within_year(one);
    lemma_day_within_year(other);
    if one.year < other.year {
        lemma_years_add_up(one.year + 1, other.year as int);
    } else if other.year < one.year {
        lemma_years_add_up(other.year + 1, one.year as int);
    } else {
        let year = one.year as int;
        if one.month < other.month {
            lemma_months_add_up(year, one.month + 1, other.month as int);
        } else if other.month < one.month {
            lemma_months_add_up(year, other.month + 1, one.month as int);
        }
    }
}

proof fn lemma_digits_hold_no_dash(digits: Seq<char>)
    requires
        all_digits(digits),
    ensures
        !digits.contains('-'),
{
    if digits.contains('-') {
        let i = choose|i: int| 0 <= i < digits.len() && digits[i] == '-';
        assert(is_digit(digits[i]));
    }
}

/// A date is read back from what it is written as.
pub proof fn lemma_reads_back(date: Date)
    ensures
        parse_date(date_text(date)) == Ok::<Date, DateParseError>(date),
{
    let year = zero_padded(date.year as nat, 4);
    let month = zero_padded(date.month as nat, 2);
    let day = zero_padded(date.day as nat, 2);
    lemma_zero_padded_value(date.year as nat, 4);
    lemma_zero_padded_value(date.month as nat, 2);
    lemma_zero_padded_value(date.day as nat, 2);
    lemma_digits_hold_no_dash(year);
    lemma_digits_hold_no_dash(month);
    lemma_digits_hold_no_dash(day);
    let text = date_text(date);
    assert forall|k: int| 0 <= k < year.len() implies text[k] != '-' by {
        assert(text[k] == year[k]);
        assert(year.contains(year[k]));
    }
    assert(text[year.len() as int] == '-');
    lemma_position(text, '-', year.len() as int);
    let rest = text.skip(year.len() as int + 1);
    assert(rest =~= month + seq!['-'] + day);
    assert forall|k: int| 0 <= k < month.len() implies rest[k] != '-' by {
        assert(rest[k] == month[k]);
        assert(month.contains(month[k]));
    }
    assert(rest[month.len() as int] == '-');
    lemma_position(rest, '-', month.len() as int);
    assert(rest.skip(month.len() as int + 1) =~= day);
    assert(text.take(year.len() as int) =~= year);
    assert(rest.take(month.len() as int) =~= month);
}

impl Date {
    /// Reads a date written as `YYYY-MM-DD`.
    pub fn from_str(s: &str) -> (r: Result<Date, DateParseError>)
        ensures
            r == parse_date(s@),
    {
        let chars = chars_of(s);
        let len = chars.len();
        let first = find_char(&chars, 0, '-');
        assert(chars@.skip(0) =~= s@);
        if first >= len {
            return Err(DateParseError::InvalidComponents);
        }
        let ghost rest = s@.skip(first + 1);
        let second = find_char(&chars, first + 1, '-');
        assert(chars@.skip(first + 1) =~= rest);
        if second >= len {
            return Err(DateParseError::InvalidComponents);
        }
        let ghost last = rest.skip(second - first);
        let third = find_char(&chars, second + 1, '-');
        proof {
            assert(chars@.skip(second + 1) =~= last);
            assert(chars@.subrange(0, first as int) =~= s@.take(first as int));
            assert(chars@.subrange(first + 1, second as int) =~= rest.take(second - first - 1));
            assert(chars@.subrange(second + 1, len as int) =~= last);
            lemma_position_bounds(last, '-');
        }
        if third < len {
            return Err(DateParseError::InvalidComponents);
        }
        let year = match parse_numeral(&chars, 0, first, u16::MAX as u32) {
            Some(n) => n as u16,
            None => {
                return Err(DateParseError::YearParseError);
            },
        };
        let month = match parse_numeral(&chars, first + 1, second, u8::MAX as u32) {
            Some(n) => n as u8,
            None => {
                return Err(DateParseError::MonthParseError);
            },
        };
        let day = match parse_numeral(&chars, second + 1, len, u8::MAX as u32) {
            Some(n) => n as u8,
            None => {
                return Err(DateParseError::DayParseError);
            },
        };
        Ok(Date { year, month, day })
    }

    /// The day of the calendar that comes `day` days after the first of
    /// January 1970: nothing where its year is beyond the years that a
    /// date holds, which end with 65535.
    pub fn from_epoch_day(day: u32) -> (r: Option<Date>)
        ensures
            r is Some <==> day < days_before_year(u16::MAX + 1),
            r matches Some(date) ==> is_calendar_date(date) && epoch_day(date) == day,
    {
        let mut year: u32 = 1970;
        let mut rest: u32 = day;
        loop
            invariant
                1970 <= year <= u16::MAX + 1,
                rest + days_before_year(year as int) == day,
            ensures
                year <= u16::MAX,
                rest < days_in_year(year as int),
            decreases u16::MAX + 1 - year,
        {
            if year > u16::MAX as u32 {
                return None;
            }
            let length: u32 = if leap_year(year) {
                366
            } else {
                365
            };
            if rest < length {
                break ;
            }
            rest = rest - length;
            year = year + 1;
        }
        let mut month: u32 = 1;
        while rest >= month_length(year, month)
            invariant
                1970 <= year <= u16::MAX,
                1 <= month <= 12,
                rest + days_before_month(year as int, month as int) + days_before_year(year as int)
                    == day,
                rest + days_before_month(year as int, month as int) < days_in_year(year as int),
            decreases 12 - month,
        {
            proof {
                if month == 12 {
                    reveal_with_fuel(days_before_month, 13);
                    assert(days_before_month(year as int, 12) + 31 == days_in_year(year as int));
                }
            }
            rest = rest - month_length(year, month);
            month = month + 1;
        }
        proof {
            lemma_years_add_up(year + 1, u16::MAX + 1);
        }
        Some(Date { year: year as u16, month: month as u8, day: (rest + 1) as u8 })
    }

    /// Writes the date as `YYYY-MM-DD`.
    pub fn to_string(&self) -> (r: String)
        ensures
            r@ == date_text(*self),
    {
        let mut out = String::new();
        proof {
            reveal_strlit("-");
        }
        push_zero_padded(&mut out, self.year as u32, 4);
        out.append("-");
        push_zero_padded(&mut out, self.month as u32, 2);
        out.append("-");
        push_zero_padded(&mut out, self.day as u32, 2);
        assert(out@ =~= date_text(*self));
        out
    }
}

} // verus!
