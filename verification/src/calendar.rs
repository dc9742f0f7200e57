//! Calendar dates and times of day without a time zone.

use crate::error::DateParseError;
use crate::text::{all_digits, chars_of, decimal_value, is_digit};
use vstd::prelude::*;

verus! {

/// Earliest year a date can carry.
pub const MIN_YEAR: i32 = -262143;

/// Latest year a date can carry.
pub const MAX_YEAR: i32 = 262142;

/// Leap years of the proleptic Gregorian calendar.
pub open spec fn is_leap_year(year: int) -> bool {
    year % 4 == 0 && (year % 100 != 0 || year % 400 == 0)
}

/// Number of days of `month` (1 to 12) in `year`; 0 for any other month.
pub open spec fn days_in_month(year: int, month: int) -> int {
    if month == 2 {
        if is_leap_year(year) {
            29
        } else {
            28
        }
    } else if month == 4 || month == 6 || month == 9 || month == 11 {
        30
    } else if 1 <= month <= 12 {
        31
    } else {
        0
    }
}

/// The day `day` of `month` exists in `year`, and the year can be carried.
pub open spec fn is_calendar_date(year: int, month: int, day: int) -> bool {
    &&& MIN_YEAR <= year <= MAX_YEAR
    &&& 1 <= month <= 12
    &&& 1 <= day <= days_in_month(year, month)
}

/// `hour:minute:second` is a time of day. Second 60 is a leap second.
pub open spec fn is_clock_time(hour: int, minute: int, second: int) -> bool {
    &&& 0 <= hour <= 23
    &&& 0 <= minute <= 59
    &&& 0 <= second <= 60
}

/// The mathematical value of a [`LocalDateTime`]: six numbers.
pub struct Moment {
    pub year: int,
    pub month: int,
    pub day: int,
    pub hour: int,
    pub minute: int,
    pub second: int,
}

impl Moment {
    /// The date exists and the time is a time of day.
    pub open spec fn is_valid(self) -> bool {
        &&& is_calendar_date(self.year, self.month, self.day)
        &&& is_clock_time(self.hour, self.minute, self.second)
    }

    /// Year, month and day.
    pub open spec fn date(self) -> (int, int, int) {
        (self.year, self.month, self.day)
    }

    /// The moment written as `YYYY-MM-DD HH:MM:SS`.
    pub open spec fn text(self) -> Seq<char> {
        year_text(self.year) + seq!['-'] + two_digits(self.month) + seq!['-'] + two_digits(
            self.day,
        ) + seq![' '] + clock_text(self.hour, self.minute, self.second)
    }
}

/// The character of the decimal digit `digit` (0 to 9).
pub open spec fn digit_char(digit: int) -> char {
    (digit + 48) as char
}

/// `number` (0 to 99) in two decimal digits.
pub open spec fn two_digits(number: int) -> Seq<char> {
    seq![digit_char(number / 10), digit_char(number % 10)]
}

/// `number` (0 to 9999) in four decimal digits.
pub open spec fn four_digits(number: int) -> Seq<char> {
    two_digits(number / 100) + two_digits(number % 100)
}

/// A time of day written as `HH:MM:SS`.
pub open spec fn clock_text(hour: int, minute: int, second: int) -> Seq<char> {
    two_digits(hour) + seq![':'] + two_digits(minute) + seq![':'] + two_digits(second)
}

/// A year as text: four digits from 0 to 9999, otherwise a sign and at least
/// four digits.
pub open spec fn year_text(year: int) -> Seq<char> {
    if 0 <= year <= 9999 {
        four_digits(year)
    } else if year < 0 {
        seq!['-'] + magnitude_text(-year)
    } else {
        seq!['+'] + magnitude_text(year)
    }
}

/// `number` (0 to 999999) in decimal, padded with zeros to four digits.
pub open spec fn magnitude_text(number: int) -> Seq<char> {
    if number < 10000 {
        four_digits(number)
    } else if number < 100000 {
        seq![digit_char(number / 10000)] + four_digits(number % 10000)
    } else {
        two_digits(number / 10000) + four_digits(number % 10000)
    }
}

/// Two digits write the number they were made from.
pub proof fn lemma_two_digits(number: int)
    requires
        0 <= number <= 99,
    ensures
        two_digits(number).len() == 2,
        all_digits(two_digits(number)),
        decimal_value(two_digits(number)) == number,
        pair_value(two_digits(number), 0) == number,
{
    let s = two_digits(number);
    assert(s.drop_last() =~= seq![digit_char(number / 10)]);
    assert(s.drop_last().drop_last() =~= Seq::<char>::empty());
    reveal_with_fuel(decimal_value, 3);
}

/// Four digits write the number they were made from.
pub proof fn lemma_four_digits(number: int)
    requires
        0 <= number <= 9999,
    ensures
        four_digits(number).len() == 4,
        all_digits(four_digits(number)),
        decimal_value(four_digits(number)) == number,
{
    let s = four_digits(number);
    let high = number / 100;
    let low = number % 100;
    lemma_two_digits(high);
    lemma_two_digits(low);
    assert(s =~= seq![
        digit_char(high / 10),
        digit_char(high % 10),
        digit_char(low / 10),
        digit_char(low % 10),
    ]);
    assert(s.drop_last() =~= two_digits(high).push(digit_char(low / 10)));
    assert(s.drop_last().drop_last() =~= two_digits(high));
    reveal_with_fuel(decimal_value, 3);
}

/// A time written as `HH:MM:SS` has that form and writes its three numbers.
pub proof fn lemma_clock_text(hour: int, minute: int, second: int)
    requires
        0 <= hour <= 99,
        0 <= minute <= 99,
        0 <= second <= 99,
    ensures
        is_clock_text(clock_text(hour, minute, second)),
        pair_value(clock_text(hour, minute, second), 0) == hour,
        pair_value(clock_text(hour, minute, second), 3) == minute,
        pair_value(clock_text(hour, minute, second), 6) == second,
{
    let s = clock_text(hour, minute, second);
    assert(s =~= seq![
        digit_char(hour / 10),
        digit_char(hour % 10),
        ':',
        digit_char(minute / 10),
        digit_char(minute % 10),
        ':',
        digit_char(second / 10),
        digit_char(second % 10),
    ]);
}

/// Where the pieces of a written moment stand: the year in the first four
/// characters, the day in the ninth and tenth, the time in the last eight.
pub proof fn lemma_text_pieces(moment: Moment)
    requires
        moment.is_valid(),
        0 <= moment.year <= 9999,
    ensures
        moment.text().len() == 19,
        moment.text().subrange(0, 4) == four_digits(moment.year),
        moment.text().subrange(5, 7) == two_digits(moment.month),
        moment.text().subrange(8, 10) == two_digits(moment.day),
        moment.text().subrange(11, 19) == clock_text(moment.hour, moment.minute, moment.second),
{
    let t = moment.text();
    lemma_four_digits(moment.year);
    lemma_two_digits(moment.month);
    lemma_two_digits(moment.day);
    lemma_clock_text(moment.hour, moment.minute, moment.second);
    assert(t.len() == 19);
    assert(t.subrange(0, 4) =~= four_digits(moment.year));
    assert(t.subrange(5, 7) =~= two_digits(moment.month));
    assert(t.subrange(8, 10) =~= two_digits(moment.day));
    assert(t.subrange(11, 19) =~= clock_text(moment.hour, moment.minute, moment.second));
}

/// `chrono::NaiveDate::from_ymd_opt`, asked only whether it finds a date.
/// The contract restates its documentation: there is a date exactly when the
/// year lies within chrono's range, the month is 1 to 12 and the day exists in
/// that month of the proleptic Gregorian calendar.
#[verifier::external_body]
pub(crate) fn date_exists(year: i32, month: u32, day: u32) -> (found: bool)
    ensures
        found == is_calendar_date(year as int, month as int, day as int),
{
    chrono::NaiveDate::from_ymd_opt(year, month, day).is_some()
}

/// The two digits of `s` at `at` and `at + 1`, read as a number.
pub open spec fn pair_value(s: Seq<char>, at: int) -> int {
    (s[at] as int - 48) * 10 + (s[at + 1] as int - 48)
}

/// `s` has the form `HH:MM:SS`: eight characters, ASCII digits around two
/// colons.
pub open spec fn is_clock_text(s: Seq<char>) -> bool {
    &&& s.len() == 8
    &&& is_digit(s[0])
    &&& is_digit(s[1])
    &&& s[2] == ':'
    &&& is_digit(s[3])
    &&& is_digit(s[4])
    &&& s[5] == ':'
    &&& is_digit(s[6])
    &&& is_digit(s[7])
}

/// The time of day that `s` writes: `FormatError` where `s` is not of the
/// form `HH:MM:SS`, `DateError` where the numbers are no time of day.
pub open spec fn clock_of_text(s: Seq<char>) -> Result<(int, int, int), DateParseError> {
    if !is_clock_text(s) {
        Err(DateParseError::FormatError)
    } else if !is_clock_time(pair_value(s, 0), pair_value(s, 3), pair_value(s, 6)) {
        Err(DateParseError::DateError)
    } else {
        Ok((pair_value(s, 0), pair_value(s, 3), pair_value(s, 6)))
    }
}

/// `chrono::NaiveTime::parse_from_str` with the format `%H:%M:%S`, on a text
/// of the form `HH:MM:SS`, handing out the time's hour, minute, second and
/// nanosecond. The contract restates chrono's documentation for that format:
/// a time is found exactly when the hour is at most 23, the minute at most 59
/// and the second at most 60; second 60 is a leap second, which chrono keeps
/// as second 59 with one thousand million nanoseconds.
#[verifier::external_body]
pub(crate) fn read_clock(text: &str, format: &str) -> (fields: Option<(u32, u32, u32, u32)>)
    requires
        is_clock_text(text@),
        format@ == "%H:%M:%S"@,
    ensures
        fields is Some <==> is_clock_time(
            pair_value(text@, 0),
            pair_value(text@, 3),
            pair_value(text@, 6),
        ),
        fields matches Some((hour, minute, second, nanosecond)) ==> {
            &&& hour == pair_value(text@, 0)
            &&& minute == pair_value(text@, 3)
            &&& pair_value(text@, 6) <= 59 ==> second == pair_value(text@, 6) && nanosecond == 0
            &&& pair_value(text@, 6) == 60 ==> second == 59 && nanosecond == 1_000_000_000
        },
{
    match chrono::NaiveTime::parse_from_str(text, format) {
        Ok(time) => Some(
            (
                chrono::Timelike::hour(&time),
                chrono::Timelike::minute(&time),
                chrono::Timelike::second(&time),
                chrono::Timelike::nanosecond(&time),
            ),
        ),
        Err(_) => None,
    }
}

/// Whether `chars` have the form `HH:MM:SS`.
pub fn has_clock_form(chars: &Vec<char>) -> (shaped: bool)
    ensures
        shaped == is_clock_text(chars@),
{
    chars.len() == 8 && digit(chars[0]) && digit(chars[1]) && chars[2] == ':' && digit(chars[3])
        && digit(chars[4]) && chars[5] == ':' && digit(chars[6]) && digit(chars[7])
}

fn digit(c: char) -> (yes: bool)
    ensures
        yes == is_digit(c),
{
    '0' <= c && c <= '9'
}

/// Reads a time of day written as `HH:MM:SS`. Second 60 is read as a leap
/// second.
pub fn parse_clock(text: &str) -> (time: Result<(u32, u32, u32), DateParseError>)
    ensures
        match time {
            Ok((hour, minute, second)) => clock_of_text(text@) == Ok::<
                (int, int, int),
                DateParseError,
            >((hour as int, minute as int, second as int)),
            Err(e) => clock_of_text(text@) == Err::<(int, int, int), DateParseError>(e),
        },
{
    let chars = chars_of(text);
    if !has_clock_form(&chars) {
        return Err(DateParseError::FormatError);
    }
    match read_clock(text, "%H:%M:%S") {
        Some((hour, minute, second, nanosecond)) => {
            if nanosecond == 0 {
                Ok((hour, minute, second))
            } else {
                Ok((hour, minute, 60))
            }
        },
        None => Err(DateParseError::DateError),
    }
}

/// `String::push`: the character is appended.
pub assume_specification[ String::push ](text: &mut String, c: char)
    ensures
        final(text)@ == old(text)@.push(c),
;

fn push_digit(out: &mut String, digit: u32)
    requires
        digit <= 9,
    ensures
        final(out)@ == old(out)@.push(digit_char(digit as int)),
{
    let code: u8 = 48u8 + (digit as u8);
    out.push(code as char);
}

fn push_two_digits(out: &mut String, number: u32)
    requires
        number <= 99,
    ensures
        final(out)@ == old(out)@ + two_digits(number as int),
{
    push_digit(out, number / 10);
    push_digit(out, number % 10);
    assert(final(out)@ =~= old(out)@ + two_digits(number as int));
}

fn push_four_digits(out: &mut String, number: u32)
    requires
        number <= 9999,
    ensures
        final(out)@ == old(out)@ + four_digits(number as int),
{
    push_two_digits(out, number / 100);
    push_two_digits(out, number % 100);
    assert(final(out)@ =~= old(out)@ + four_digits(number as int));
}

fn push_year(out: &mut String, year: i32)
    requires
        MIN_YEAR <= year <= MAX_YEAR,
    ensures
        final(out)@ == old(out)@ + year_text(year as int),
{
    if 0 <= year && year <= 9999 {
        push_four_digits(out, year as u32);
    } else {
        let size: u32 = if year < 0 {
            out.push('-');
            (-year) as u32
        } else {
            out.push('+');
            year as u32
        };
        if size >= 100000 {
            push_two_digits(out, size / 10000);
        } else if size >= 10000 {
            push_digit(out, size / 10000);
        }
        push_four_digits(out, size % 10000);
        assert(final(out)@ =~= old(out)@ + year_text(year as int));
    }
}

/// A date and a time of day with no time zone attached. Every value is an
/// existing calendar date with a time of day; second 60 stands for a leap
/// second.
#[derive(Clone, Copy, Debug, PartialEq, Eq)]
pub struct LocalDateTime {
    year: i32,
    month: u32,
    day: u32,
    hour: u32,
    minute: u32,
    second: u32,
}

impl View for LocalDateTime {
    type V = Moment;

    closed spec fn view(&self) -> Moment {
        Moment {
            year: self.year as int,
            month: self.month as int,
            day: self.day as int,
            hour: self.hour as int,
            minute: self.minute as int,
            second: self.second as int,
        }
    }
}

impl LocalDateTime {
    /// Every moment is an existing date with a time of day.
    #[verifier::type_invariant]
    pub open spec fn well_formed(self) -> bool {
        self@.is_valid()
    }

    /// The moment of the six numbers, where they name an existing date and a
    /// time of day, and `None` where they do not.
    pub fn from_ymd_hms(
        year: i32,
        month: u32,
        day: u32,
        hour: u32,
        minute: u32,
        second: u32,
    ) -> (made: Option<LocalDateTime>)
        ensures
            made is Some <==> is_calendar_date(year as int, month as int, day as int)
                && is_clock_time(hour as int, minute as int, second as int),
            made matches Some(t) ==> t@ == (Moment {
                year: year as int,
                month: month as int,
                day: day as int,
                hour: hour as int,
                minute: minute as int,
                second: second as int,
            }),
    {
        if hour <= 23 && minute <= 59 && second <= 60 && date_exists(year, month, day) {
            Some(LocalDateTime { year, month, day, hour, minute, second })
        } else {
            None
        }
    }

    /// The year. Like every moment handed out, this one is valid.
    pub fn year(&self) -> (year: i32)
        ensures
            year == self@.year,
            self@.is_valid(),
    {
        proof {
            use_type_invariant(self);
        }
        self.year
    }

    /// The month, 1 to 12.
    pub fn month(&self) -> (month: u32)
        ensures
            month == self@.month,
            self@.is_valid(),
    {
        proof {
            use_type_invariant(self);
        }
        self.month
    }

    /// The day of the month, from 1.
    pub fn day(&self) -> (day: u32)
        ensures
            day == self@.day,
            self@.is_valid(),
    {
        proof {
            use_type_invariant(self);
        }
        self.day
    }

    /// The hour, 0 to 23.
    pub fn hour(&self) -> (hour: u32)
        ensures
            hour == self@.hour,
            self@.is_valid(),
    {
        proof {
            use_type_invariant(self);
        }
        self.hour
    }

    /// The minute, 0 to 59.
    pub fn minute(&self) -> (minute: u32)
        ensures
            minute == self@.minute,
            self@.is_valid(),
    {
        proof {
            use_type_invariant(self);
        }
        self.minute
    }

    /// The second, 0 to 59, or 60 for a leap second.
    pub fn second(&self) -> (second: u32)
        ensures
            second == self@.second,
            self@.is_valid(),
    {
        proof {
            use_type_invariant(self);
        }
        self.second
    }

    /// The moment written as `YYYY-MM-DD HH:MM:SS`.
    pub fn to_string(&self) -> (text: String)
        ensures
            text@ == self@.text(),
    {
        proof {
            use_type_invariant(self);
        }
        let mut out = String::new();
        push_year(&mut out, self.year);
        out.push('-');
        push_two_digits(&mut out, self.month);
        out.push('-');
        push_two_digits(&mut out, self.day);
        out.push(' ');
        push_two_digits(&mut out, self.hour);
        out.push(':');
        push_two_digits(&mut out, self.minute);
        out.push(':');
        push_two_digits(&mut out, self.second);
        assert(out@ =~= self@.text());
        out
    }
}

} // verus!
