use std::str::FromStr;

use ceb_outages::calendar::LocalDateTime;
use ceb_outages::cebdata::PowerOutages;
use ceb_outages::native_date_time_range::NaiveDateTimeRange;
use ceb_outages::utils::parse_from_str;
use chrono::{Datelike, NaiveDate, NaiveDateTime};

fn as_chrono(moment: LocalDateTime) -> NaiveDateTime {
    NaiveDate::from_ymd_opt(moment.year(), moment.month(), moment.day())
        .unwrap()
        .and_hms_opt(moment.hour(), moment.minute(), moment.second())
        .unwrap()
}

#[test]
fn test_cebdata() {
    let data = r#"{"blackriver":"<h3>Black River<\/h3>\r\n<table class=\"table table-sm fs-12\" id=\"table-mauritius-blackriver\" class=\"display:none;\">\r\n    <thead>\r\n        <th class=\"col bt-0\" style=\"width: 45%\">Date<\/th>\r\n        <th class=\"col bt-0\" style=\"width: 15%\">Locality<\/th>\r\n        <th class=\"col bt-0\" style=\"width: 40%\">Streets<\/th>\r\n    <\/thead>\r\n    <tbody>\r\n        \r\n<tr>\r\n    <td class=\"align-top\">Le mardi 16 mai 2023 de  08:30:00 à  16:30:00<\/td>\r\n    <td class=\"align-top\">RIVIERE NOIRE<\/td>\r\n    <td class=\"align-top\">MORC RAMDANEE<\/td>\r\n<\/tr>\r\n\r\n<tr>\r\n    <td class=\"align-top\"><\/td>\r\n    <td class=\"align-top\"><\/td>\r\n    <td class=\"align-top\"><\/td>\r\n<\/tr>\r\n\r\n    <\/tbody>\r\n<\/table>\r\n"}"#;

    let pos = PowerOutages::new(data.to_string()).unwrap();
    assert_eq!(pos.len(), 1);
    let region = pos.get_region("blackriver".to_string());
    let po = &region.unwrap().get_poweroutages().get(0).unwrap().clone();
    assert_eq!(
        as_chrono(po.date().get_start()),
        NaiveDateTime::from_str("2023-05-16T08:30:00").unwrap()
    );
    assert_eq!(po.locality(), "RIVIERE NOIRE");
}

#[test]
fn test_range() {
    let s = LocalDateTime::from_ymd_hms(2022, 7, 8, 9, 10, 11).unwrap();
    let e = LocalDateTime::from_ymd_hms(2022, 7, 8, 17, 00, 05).unwrap();
    let dtrg = NaiveDateTimeRange::new_from_range(s, e);
    assert_eq!(dtrg.get_start().to_string(), "2022-07-08 09:10:11");
    assert_eq!(dtrg.get_end().to_string(), "2022-07-08 17:00:05");
    assert_eq!(dtrg.get_start().year(), 2022);
    assert_eq!(as_chrono(dtrg.get_start()).year(), 2022);
}

#[test]
fn test_french_localized_date_range() {
    let t = parse_from_str("Le Dimanche 7 août 2022 de  09:00:00 à  15:00:00").unwrap();
    assert_eq!(t.get_start().to_string(), "2022-08-07 09:00:00");
    assert_eq!(t.get_end().to_string(), "2022-08-07 15:00:00");
}
