//! Reading the time window of an outage from the text that announces it,
//! such as `Le Dimanche 7 août 2022 de 09:00:00 à 15:00:00`.

use crate::calendar::{
    is_clock_text, lemma_clock_text, lemma_four_digits, lemma_text_pieces, lemma_two_digits,
    pair_value, parse_clock, LocalDateTime, Moment,
};
use crate::error::DateParseError;
use crate::month::{lemma_spellings_name_their_month, month_from_name, month_name, month_number};
use crate::native_date_time_range::{NaiveDateTimeRange, Span};
use crate::pattern::{match_groups, pattern_groups};
use crate::text::{all_digits, chars_of, decimal_value, lemma_decimal_bound, read_short_number};
use vstd::prelude::*;

verus! {

/// The form of an announcement, anchored at the end of the text only: a day
/// of one or two digits, a month name, a year of four digits, anything
/// without a digit, the time the outage starts, the word `à`, the time it
/// ends. The groups are, in this order: day, month, year, start, end.
pub open spec fn date_pattern() -> Seq<char> {
    r"(?P<day>\d{1,2})\s+(?P<month>\S+)\s+(?P<year>\d{4})\D+(?P<from>\d{2}:\d{2}:\d{2})\s+à\s+(?P<to>\d{2}:\d{2}:\d{2})$"@
}

/// The numeric fields have their form: a day of one or two digits, a year
/// of four, two times written `HH:MM:SS`.
pub open spec fn fields_are_formed(
    day: Seq<char>,
    year: Seq<char>,
    from_time: Seq<char>,
    to_time: Seq<char>,
) -> bool {
    &&& 1 <= day.len() <= 2
    &&& all_digits(day)
    &&& year.len() == 4
    &&& all_digits(year)
    &&& is_clock_text(from_time)
    &&& is_clock_text(to_time)
}

/// The moment on the day `day` of `month` in `year`, at the time that
/// `time` writes.
pub open spec fn moment_of_fields(
    day: Seq<char>,
    month: int,
    year: Seq<char>,
    time: Seq<char>,
) -> Moment {
    Moment {
        year: decimal_value(year),
        month,
        day: decimal_value(day),
        hour: pair_value(time, 0),
        minute: pair_value(time, 3),
        second: pair_value(time, 6),
    }
}

/// The time window that the five fields of an announcement describe. Both
/// ends lie on the one date that is written, also where the end is the
/// earlier time.
///
/// `FormatError` where a numeric field does not have its form; otherwise
/// `MonthError` where the month is not known; otherwise `DateError` where the
/// date does not exist or a time is no time of day.
pub open spec fn range_of_fields(
    day: Seq<char>,
    month: Seq<char>,
    year: Seq<char>,
    from_time: Seq<char>,
    to_time: Seq<char>,
) -> Result<Span, DateParseError> {
    if !fields_are_formed(day, year, from_time, to_time) {
        Err(DateParseError::FormatError)
    } else {
        match month_number(month) {
            None => Err(DateParseError::MonthError),
            Some(m) => {
                let start = moment_of_fields(day, m, year, from_time);
                let end = moment_of_fields(day, m, year, to_time);
                if start.is_valid() && end.is_valid() {
                    Ok(Span { start, end })
                } else {
                    Err(DateParseError::DateError)
                }
            },
        }
    }
}

/// The groups of a match hold the five fields: the whole match and five
/// groups that took part.
pub open spec fn holds_fields(groups: Seq<Option<Seq<char>>>) -> bool {
    &&& groups.len() == 6
    &&& groups[1] is Some
    &&& groups[2] is Some
    &&& groups[3] is Some
    &&& groups[4] is Some
    &&& groups[5] is Some
}

/// The time window that the outcome of a match against [`date_pattern`]
/// describes: `FormatError` where there was no match.
pub open spec fn range_of_groups(groups: Option<Seq<Option<Seq<char>>>>) -> Result<
    Span,
    DateParseError,
> {
    match groups {
        Some(found) => if holds_fields(found) {
            range_of_fields(
                found[1]->0,
                found[2]->0,
                found[3]->0,
                found[4]->0,
                found[5]->0,
            )
        } else {
            Err(DateParseError::FormatError)
        },
        None => Err(DateParseError::FormatError),
    }
}

/// The time window that `text` announces.
pub open spec fn range_of_text(text: Seq<char>) -> Result<Span, DateParseError> {
    range_of_groups(pattern_groups(date_pattern(), text))
}

/// Both ends of a window read from five fields are valid moments on the one
/// date that the fields write: the day and the year as written, the month
/// that the name stands for.
pub proof fn lemma_range_on_written_date(
    day: Seq<char>,
    month: Seq<char>,
    year: Seq<char>,
    from_time: Seq<char>,
    to_time: Seq<char>,
)
    ensures
        range_of_fields(day, month, year, from_time, to_time) matches Ok(span) ==> {
            &&& month_number(month) is Some
            &&& span.start.date() == (
                decimal_value(year),
                month_number(month)->0,
                decimal_value(day),
            )
            &&& span.end.date() == span.start.date()
            &&& span.start.is_valid()
            &&& span.end.is_valid()
        },
{
}

/// Both ends of a window read from a text are valid moments on the one date
/// that the matched day, month and year write.
pub proof fn lemma_text_range_on_written_date(text: Seq<char>)
    ensures
        range_of_text(text) matches Ok(span) ==> {
            &&& pattern_groups(date_pattern(), text) matches Some(found)
            &&& holds_fields(found)
            &&& month_number(found[2]->0) is Some
            &&& span.start.date() == (
                decimal_value(found[3]->0),
                month_number(found[2]->0)->0,
                decimal_value(found[1]->0),
            )
            &&& span.end.date() == span.start.date()
            &&& span.start.is_valid()
            &&& span.end.is_valid()
        },
{
}

/// Which fields give which outcome. A field out of form is a `FormatError`;
/// with the fields in form, a month that no spelling names is a
/// `MonthError`, whatever the numbers; with a known month, numbers that name
/// no date or no time of day are a `DateError`; all else is a window.
pub proof fn lemma_outcome_of_fields(
    day: Seq<char>,
    month: Seq<char>,
    year: Seq<char>,
    from_time: Seq<char>,
    to_time: Seq<char>,
)
    ensures
        range_of_fields(day, month, year, from_time, to_time) == Err::<Span, DateParseError>(
            DateParseError::FormatError,
        ) <==> !fields_are_formed(day, year, from_time, to_time),
        range_of_fields(day, month, year, from_time, to_time) == Err::<Span, DateParseError>(
            DateParseError::MonthError,
        ) <==> fields_are_formed(day, year, from_time, to_time) && month_number(month) is None,
        range_of_fields(day, month, year, from_time, to_time) == Err::<Span, DateParseError>(
            DateParseError::DateError,
        ) <==> fields_are_formed(day, year, from_time, to_time) && month_number(month) is Some
            && !(moment_of_fields(day, month_number(month)->0, year, from_time).is_valid()
            && moment_of_fields(day, month_number(month)->0, year, to_time).is_valid()),
        range_of_fields(day, month, year, from_time, to_time) is Ok <==> fields_are_formed(
            day,
            year,
            from_time,
            to_time,
        ) && month_number(month) is Some && moment_of_fields(
            day,
            month_number(month)->0,
            year,
            from_time,
        ).is_valid() && moment_of_fields(day, month_number(month)->0, year, to_time).is_valid(),
{
}

/// A window is read back from its own writing. Where both ends lie on one
/// date in a year of four digits, the pieces of the two moments written as
/// `YYYY-MM-DD HH:MM:SS` (the day, the year, the two times) and the name of
/// the month are fields that give the same window again.
pub proof fn lemma_written_range_reads_back(span: Span)
    requires
        span.start.is_valid(),
        span.end.is_valid(),
        span.start.date() == span.end.date(),
        0 <= span.start.year <= 9999,
    ensures
        range_of_fields(
            span.start.text().subrange(8, 10),
            month_name(span.start.month),
            span.start.text().subrange(0, 4),
            span.start.text().subrange(11, 19),
            span.end.text().subrange(11, 19),
        ) == Ok::<Span, DateParseError>(span),
{
    let start = span.start;
    let end = span.end;
    lemma_text_pieces(start);
    lemma_text_pieces(end);
    lemma_two_digits(start.day);
    lemma_four_digits(start.year);
    lemma_clock_text(start.hour, start.minute, start.second);
    lemma_clock_text(end.hour, end.minute, end.second);
    lemma_spellings_name_their_month(start.month);
}

/// `made` is the outcome `wanted`, the range taken by its value.
pub open spec fn is_outcome(
    made: Result<NaiveDateTimeRange, DateParseError>,
    wanted: Result<Span, DateParseError>,
) -> bool {
    match made {
        Ok(range) => wanted == Ok::<Span, DateParseError>(range@),
        Err(e) => wanted == Err::<Span, DateParseError>(e),
    }
}

/// Builds the time window from the five fields of an announcement. The
/// start and the end lie on the one date written, whichever time is the
/// earlier.
///
/// A numeric field out of form is a `FormatError`; failing that, an unknown
/// month is a `MonthError`; failing that, a date that does not exist or a
/// time that is no time of day is a `DateError`.
pub fn parse_fields(day: &str, month: &str, year: &str, from_time: &str, to_time: &str) -> (made:
    Result<NaiveDateTimeRange, DateParseError>)
    ensures
        is_outcome(made, range_of_fields(day@, month@, year@, from_time@, to_time@)),
        made matches Ok(range) ==> range@.start.date() == range@.end.date()
            && range@.start.is_valid() && range@.end.is_valid(),
{
    let day_chars = chars_of(day);
    let year_chars = chars_of(year);
    if day_chars.len() > 2 || year_chars.len() != 4 {
        return Err(DateParseError::FormatError);
    }
    let day_number = match read_short_number(&day_chars) {
        Some(n) => n,
        None => {
            return Err(DateParseError::FormatError);
        },
    };
    let year_number = match read_short_number(&year_chars) {
        Some(n) => n,
        None => {
            return Err(DateParseError::FormatError);
        },
    };
    let from_clock = parse_clock(from_time);
    let to_clock = parse_clock(to_time);
    if let Err(DateParseError::FormatError) = from_clock {
        return Err(DateParseError::FormatError);
    }
    if let Err(DateParseError::FormatError) = to_clock {
        return Err(DateParseError::FormatError);
    }
    let month_number = match month_from_name(month) {
        Some(m) => m,
        None => {
            return Err(DateParseError::MonthError);
        },
    };
    proof {
        lemma_decimal_bound(year@);
    }
    match (from_clock, to_clock) {
        (Ok((h1, m1, s1)), Ok((h2, m2, s2))) => {
            let start = LocalDateTime::from_ymd_hms(
                year_number as i32,
                month_number,
                day_number,
                h1,
                m1,
                s1,
            );
            let end = LocalDateTime::from_ymd_hms(
                year_number as i32,
                month_number,
                day_number,
                h2,
                m2,
                s2,
            );
            match (start, end) {
                (Some(start), Some(end)) => Ok(NaiveDateTimeRange::new_from_range(start, end)),
                _ => Err(DateParseError::DateError),
            }
        },
        _ => Err(DateParseError::DateError),
    }
}

/// Builds the time window from the outcome of a match against
/// [`date_pattern`]: no match, or one without the five fields, is a
/// `FormatError`.
pub fn range_from_groups(groups: &Option<Vec<Option<String>>>) -> (made: Result<
    NaiveDateTimeRange,
    DateParseError,
>)
    ensures
        is_outcome(made, range_of_groups(groups.deep_view())),
        made matches Ok(range) ==> range@.start.date() == range@.end.date()
            && range@.start.is_valid() && range@.end.is_valid(),
{
    match groups {
        Some(found) => {
            if found.len() != 6 {
                return Err(DateParseError::FormatError);
            }
            proof {
                let shown = found.deep_view();
                assert(shown.len() == 6);
                assert(shown[1] == found[1].deep_view());
                assert(shown[2] == found[2].deep_view());
                assert(shown[3] == found[3].deep_view());
                assert(shown[4] == found[4].deep_view());
                assert(shown[5] == found[5].deep_view());
            }
            match (&found[1], &found[2], &found[3], &found[4], &found[5]) {
                (Some(day), Some(month), Some(year), Some(from_time), Some(to_time)) => {
                    parse_fields(
                        day.as_str(),
                        month.as_str(),
                        year.as_str(),
                        from_time.as_str(),
                        to_time.as_str(),
                    )
                },
                _ => Err(DateParseError::FormatError),
            }
        },
        None => Err(DateParseError::FormatError),
    }
}

/// Parse a string and return a [`NaiveDateTimeRange`] containing both start
/// and end. Words before the day, such as the day of the week, are passed
/// over; nothing may follow the end time.
///
/// A text that [`date_pattern`] does not match is a `FormatError`; the
/// fields of one that it matches are read as [`parse_fields`] reads them.
pub fn parse_from_str(date_string: &str) -> (made: Result<NaiveDateTimeRange, DateParseError>)
    ensures
        is_outcome(made, range_of_text(date_string@)),
        made matches Ok(range) ==> range@.start.date() == range@.end.date()
            && range@.start.is_valid() && range@.end.is_valid(),
{
    let groups = match_groups(
        r"(?P<day>\d{1,2})\s+(?P<month>\S+)\s+(?P<year>\d{4})\D+(?P<from>\d{2}:\d{2}:\d{2})\s+à\s+(?P<to>\d{2}:\d{2}:\d{2})$",
        date_string,
    );
    range_from_groups(&groups)
}

} // verus!
