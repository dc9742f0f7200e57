use ceb_outages::calendar::{parse_clock, LocalDateTime};
use ceb_outages::error::DateParseError;
use ceb_outages::month::month_from_name;
use ceb_outages::native_date_time_range::NaiveDateTimeRange;
use ceb_outages::utils::{parse_fields, parse_from_str, range_from_groups};

fn moment(y: i32, mo: u32, d: u32, h: u32, mi: u32, s: u32) -> LocalDateTime {
    LocalDateTime::from_ymd_hms(y, mo, d, h, mi, s).unwrap()
}

#[test]
fn both_ends_lie_on_the_written_date() {
    let t = parse_from_str("Le mardi 16 mai 2023 de  08:30:00 à  16:30:00").unwrap();
    let (s, e) = (t.get_start(), t.get_end());
    assert_eq!((s.year(), s.month(), s.day()), (2023, 5, 16));
    assert_eq!((e.year(), e.month(), e.day()), (2023, 5, 16));
    assert_eq!((s.hour(), s.minute(), s.second()), (8, 30, 0));
    assert_eq!((e.hour(), e.minute(), e.second()), (16, 30, 0));
}

#[test]
fn day_of_two_digits_is_read_whole() {
    for (text, day) in [
        ("Le lundi 10 juin 2024 de 09:00:00 à 12:00:00", 10),
        ("Le jeudi 20 juin 2024 de 09:00:00 à 12:00:00", 20),
        ("Le dimanche 30 juin 2024 de 09:00:00 à 12:00:00", 30),
        ("Le samedi 01 juin 2024 de 09:00:00 à 12:00:00", 1),
        ("Le samedi 1 juin 2024 de 09:00:00 à 12:00:00", 1),
    ] {
        assert_eq!(parse_from_str(text).unwrap().get_start().day(), day, "{}", text);
    }
}

#[test]
fn end_before_start_stays_on_the_same_date() {
    let t = parse_from_str("Le lundi 3 juin 2024 de 22:00:00 à 02:00:00").unwrap();
    assert_eq!(t.get_start().to_string(), "2024-06-03 22:00:00");
    assert_eq!(t.get_end().to_string(), "2024-06-03 02:00:00");
}

#[test]
fn leading_words_are_passed_over() {
    let plain = parse_from_str("7 août 2022 de 09:00:00 à 15:00:00").unwrap();
    let wordy = parse_from_str("Avis: coupure le Dimanche 7 août 2022 de 09:00:00 à 15:00:00").unwrap();
    let lines = parse_from_str("Avis\nLe Dimanche\t7 août\n2022 --- 09:00:00 à 15:00:00").unwrap();
    assert_eq!(plain, wordy);
    assert_eq!(plain, lines);
    assert_eq!(plain.get_start(), moment(2022, 8, 7, 9, 0, 0));
    assert_eq!(plain.get_end(), moment(2022, 8, 7, 15, 0, 0));
}

#[test]
fn nothing_may_follow_the_end_time() {
    assert_eq!(
        parse_from_str("Le Dimanche 7 août 2022 de 09:00:00 à 15:00:00 environ"),
        Err(DateParseError::FormatError)
    );
    assert_eq!(
        parse_from_str("Le Dimanche 7 août 2022 de 09:00:00 à 15:00:00 "),
        Err(DateParseError::FormatError)
    );
}

#[test]
fn text_of_another_form_is_a_format_error() {
    for text in [
        "",
        "demain",
        "7 août 2022",
        "7 août 22 de 09:00:00 à 15:00:00",
        "7 août 2022 de 9:00:00 à 15:00:00",
        "7 août 2022 de 09:00 à 15:00",
        "7 août 2022 de 09:00:00 a 15:00:00",
        "7 août 2022 de 09:00:00 - 15:00:00",
        "août 2022 de 09:00:00 à 15:00:00",
        "7août 2022 de 09:00:00 à 15:00:00",
        "7 août 2022 09:00:00 à 15:00:00 2022",
    ] {
        assert_eq!(parse_from_str(text), Err(DateParseError::FormatError), "{:?}", text);
    }
}

#[test]
fn digits_of_other_scripts_are_a_format_error() {
    assert_eq!(
        parse_from_str("Le ٧ août 2022 de 09:00:00 à 15:00:00"),
        Err(DateParseError::FormatError)
    );
    assert_eq!(
        parse_from_str("Le 7 août ٢٠٢٢ de 09:00:00 à 15:00:00"),
        Err(DateParseError::FormatError)
    );
    assert_eq!(
        parse_from_str("Le 7 août 2022 de ٠٩:00:00 à 15:00:00"),
        Err(DateParseError::FormatError)
    );
}

#[test]
fn unknown_month_is_a_month_error() {
    for text in [
        "7 aôut 2022 de 09:00:00 à 15:00:00",
        "7 august 2022 de 09:00:00 à 15:00:00",
        "7 decembre 2022 de 09:00:00 à 15:00:00",
        "7 aoüt 2022 de 09:00:00 à 15:00:00",
        "7 08 2022 de 09:00:00 à 15:00:00",
        "7 août. 2022 de 09:00:00 à 15:00:00",
    ] {
        assert_eq!(parse_from_str(text), Err(DateParseError::MonthError), "{:?}", text);
    }
}

#[test]
fn date_that_does_not_exist_is_a_date_error() {
    for text in [
        "31 avril 2023 de 09:00:00 à 15:00:00",
        "29 février 2023 de 09:00:00 à 15:00:00",
        "30 fevrier 2024 de 09:00:00 à 15:00:00",
        "0 mai 2023 de 09:00:00 à 15:00:00",
        "00 mai 2023 de 09:00:00 à 15:00:00",
        "32 mai 2023 de 09:00:00 à 15:00:00",
        "99 mai 2023 de 09:00:00 à 15:00:00",
        "7 mai 2023 de 24:00:00 à 15:00:00",
        "7 mai 2023 de 09:60:00 à 15:00:00",
        "7 mai 2023 de 09:00:00 à 15:00:61",
        "7 mai 2023 de 09:00:00 à 99:99:99",
    ] {
        assert_eq!(parse_from_str(text), Err(DateParseError::DateError), "{:?}", text);
    }
    assert!(parse_from_str("29 février 2024 de 09:00:00 à 15:00:00").is_ok());
    assert!(parse_from_str("29 février 2000 de 09:00:00 à 15:00:00").is_ok());
    assert_eq!(
        parse_from_str("29 février 1900 de 09:00:00 à 15:00:00"),
        Err(DateParseError::DateError)
    );
}

#[test]
fn form_is_judged_before_month_and_month_before_date() {
    assert_eq!(
        parse_fields("7", "brumaire", "2022", "9:00:00", "15:00:00"),
        Err(DateParseError::FormatError)
    );
    assert_eq!(
        parse_fields("31", "brumaire", "2022", "25:00:00", "15:00:00"),
        Err(DateParseError::MonthError)
    );
    assert_eq!(
        parse_fields("31", "avril", "2022", "09:00:00", "15:00:00"),
        Err(DateParseError::DateError)
    );
}

#[test]
fn fields_must_have_their_form() {
    let ok = parse_fields("7", "août", "2022", "09:00:00", "15:00:00").unwrap();
    assert_eq!(ok.get_start(), moment(2022, 8, 7, 9, 0, 0));
    assert_eq!(ok.get_end(), moment(2022, 8, 7, 15, 0, 0));
    for (d, y, f, t) in [
        ("", "2022", "09:00:00", "15:00:00"),
        ("007", "2022", "09:00:00", "15:00:00"),
        ("+7", "2022", "09:00:00", "15:00:00"),
        ("7", "022", "09:00:00", "15:00:00"),
        ("7", "02022", "09:00:00", "15:00:00"),
        ("7", "-202", "09:00:00", "15:00:00"),
        ("7", "2022", "09-00-00", "15:00:00"),
        ("7", "2022", "09:00:00", "15:00:0"),
        ("7", "2022", " 09:00:00", "15:00:00"),
        ("7", "2022", "09:00:00", "15:00:000"),
    ] {
        assert_eq!(parse_fields(d, "août", y, f, t), Err(DateParseError::FormatError));
    }
}

#[test]
fn year_of_four_digits_may_start_with_zeros() {
    let t = parse_fields("7", "mai", "0099", "09:00:00", "15:00:00").unwrap();
    assert_eq!(t.get_start().year(), 99);
    assert_eq!(t.get_start().to_string(), "0099-05-07 09:00:00");
    let zero = parse_fields("7", "mai", "0000", "09:00:00", "15:00:00").unwrap();
    assert_eq!(zero.get_start().year(), 0);
}

#[test]
fn groups_of_a_match_give_the_range() {
    let some = |s: &str| Some(s.to_string());
    let whole = some("7 août 2022 de 09:00:00 à 15:00:00");
    let groups = Some(vec![
        whole.clone(),
        some("7"),
        some("août"),
        some("2022"),
        some("09:00:00"),
        some("15:00:00"),
    ]);
    let made = range_from_groups(&groups).unwrap();
    assert_eq!(made.get_start(), moment(2022, 8, 7, 9, 0, 0));
    assert_eq!(made.get_end(), moment(2022, 8, 7, 15, 0, 0));

    assert_eq!(range_from_groups(&None), Err(DateParseError::FormatError));
    assert_eq!(range_from_groups(&Some(vec![])), Err(DateParseError::FormatError));
    let short = Some(vec![whole.clone(), some("7"), some("août"), some("2022"), some("09:00:00")]);
    assert_eq!(range_from_groups(&short), Err(DateParseError::FormatError));
    let hole = Some(vec![whole, some("7"), None, some("2022"), some("09:00:00"), some("15:00:00")]);
    assert_eq!(range_from_groups(&hole), Err(DateParseError::FormatError));
}

#[test]
fn both_spellings_name_the_same_month() {
    assert_eq!(month_from_name("février"), Some(2));
    assert_eq!(month_from_name("fevrier"), Some(2));
    assert_eq!(month_from_name("août"), Some(8));
    assert_eq!(month_from_name("aout"), Some(8));
    let accented = parse_from_str("7 février 2022 de 09:00:00 à 15:00:00").unwrap();
    let plain = parse_from_str("7 fevrier 2022 de 09:00:00 à 15:00:00").unwrap();
    assert_eq!(accented, plain);
    assert_eq!(accented.get_start().month(), 2);
    let accented = parse_from_str("7 août 2022 de 09:00:00 à 15:00:00").unwrap();
    let plain = parse_from_str("7 aout 2022 de 09:00:00 à 15:00:00").unwrap();
    assert_eq!(accented, plain);
    assert_eq!(accented.get_start().month(), 8);
}

#[test]
fn twelve_months_have_their_numbers() {
    let names = [
        "janvier", "février", "mars", "avril", "mai", "juin", "juillet", "août", "septembre",
        "octobre", "novembre", "décembre",
    ];
    for (i, name) in names.iter().enumerate() {
        assert_eq!(month_from_name(name), Some(i as u32 + 1), "{}", name);
    }
}

#[test]
fn month_names_are_read_in_any_case() {
    assert_eq!(month_from_name("JANVIER"), Some(1));
    assert_eq!(month_from_name("Février"), Some(2));
    assert_eq!(month_from_name("FÉVRIER"), Some(2));
    assert_eq!(month_from_name("FEVRIER"), Some(2));
    assert_eq!(month_from_name("AOÛT"), Some(8));
    assert_eq!(month_from_name("Août"), Some(8));
    assert_eq!(month_from_name("AoUt"), Some(8));
    assert_eq!(month_from_name("DÉCEMBRE"), Some(12));
    assert_eq!(month_from_name("Septembre"), Some(9));
}

#[test]
fn other_spellings_name_no_month() {
    for token in [
        "", "jan", "janv.", "janviers", " janvier", "decembre", "DECEMBRE", "aôut", "aoùt",
        "fèvrier", "févrîer", "march", "mаi", "juln", "e\u{301}", "fe\u{301}vrier", "décembre\n",
    ] {
        assert_eq!(month_from_name(token), None, "{:?}", token);
    }
}

#[test]
fn clock_is_read_digit_by_digit() {
    assert_eq!(parse_clock("09:05:03"), Ok((9, 5, 3)));
    assert_eq!(parse_clock("00:00:00"), Ok((0, 0, 0)));
    assert_eq!(parse_clock("23:59:59"), Ok((23, 59, 59)));
    assert_eq!(parse_clock("12:34:56"), Ok((12, 34, 56)));
}

#[test]
fn second_sixty_is_a_leap_second() {
    assert_eq!(parse_clock("23:59:60"), Ok((23, 59, 60)));
    assert_eq!(parse_clock("08:15:60"), Ok((8, 15, 60)));
    let t = parse_from_str("7 mai 2023 de 09:00:00 à 15:00:60").unwrap();
    assert_eq!(t.get_end().second(), 60);
    assert_eq!(t.get_end().to_string(), "2023-05-07 15:00:60");
}

#[test]
fn clock_out_of_range_is_a_date_error() {
    assert_eq!(parse_clock("24:00:00"), Err(DateParseError::DateError));
    assert_eq!(parse_clock("23:60:00"), Err(DateParseError::DateError));
    assert_eq!(parse_clock("23:59:61"), Err(DateParseError::DateError));
    assert_eq!(parse_clock("99:99:99"), Err(DateParseError::DateError));
}

#[test]
fn clock_of_another_form_is_a_format_error() {
    for text in ["", "9:05:03", "09:05", "09:05:3", "09.05.03", "09:05:03 ", " 09:05:03", "０９:05:03", "0a:05:03", "09:05:030"] {
        assert_eq!(parse_clock(text), Err(DateParseError::FormatError), "{:?}", text);
    }
}

#[test]
fn written_range_reads_back() {
    let names = [
        "janvier", "février", "mars", "avril", "mai", "juin", "juillet", "août", "septembre",
        "octobre", "novembre", "décembre",
    ];
    let cases = [
        (moment(2022, 8, 7, 9, 0, 0), moment(2022, 8, 7, 15, 0, 0)),
        (moment(2024, 2, 29, 0, 0, 0), moment(2024, 2, 29, 23, 59, 59)),
        (moment(1999, 12, 31, 23, 59, 60), moment(1999, 12, 31, 0, 0, 1)),
        (moment(7, 1, 1, 1, 2, 3), moment(7, 1, 1, 4, 5, 6)),
        (moment(9999, 10, 10, 10, 10, 10), moment(9999, 10, 10, 10, 10, 10)),
    ];
    for (start, end) in cases {
        let range = NaiveDateTimeRange::new_from_range(start, end);
        let from = range.get_start().to_string();
        let to = range.get_end().to_string();
        let month = names[start.month() as usize - 1];
        let again = parse_fields(&from[8..10], month, &from[0..4], &from[11..19], &to[11..19]);
        assert_eq!(again, Ok(range));
        let text = format!(
            "Le {} {} {} de {} à {}",
            &from[8..10],
            month,
            &from[0..4],
            &from[11..19],
            &to[11..19]
        );
        let parsed = parse_from_str(&text).unwrap();
        assert_eq!(parsed, range);
        assert_eq!(parsed.get_start().to_string(), from);
        assert_eq!(parsed.get_end().to_string(), to);
    }
}

#[test]
fn setters_replace_one_end() {
    let a = moment(2022, 7, 8, 9, 10, 11);
    let b = moment(2022, 7, 8, 17, 0, 5);
    let c = moment(2023, 1, 2, 3, 4, 5);
    let mut range = NaiveDateTimeRange::new_from_range(a, b);
    range.set_start(c);
    assert_eq!(range.get_start(), c);
    assert_eq!(range.get_end(), b);
    range.set_end(a);
    assert_eq!(range.get_start(), c);
    assert_eq!(range.get_end(), a);
}

#[test]
fn every_clock_text_is_read_by_its_numbers() {
    for hour in 0..100u32 {
        for minute in 0..100u32 {
            for second in 0..100u32 {
                let text = format!("{:02}:{:02}:{:02}", hour, minute, second);
                let wanted = if hour <= 23 && minute <= 59 && second <= 60 {
                    Ok((hour, minute, second))
                } else {
                    Err(DateParseError::DateError)
                };
                assert_eq!(parse_clock(&text), wanted, "{}", text);
            }
        }
    }
}
