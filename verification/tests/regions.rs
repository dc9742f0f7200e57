use ceb_outages::calendar::LocalDateTime;
use ceb_outages::cebdata::{PowerOutage, Region};
use ceb_outages::error::{DateParseError, RegionError};
use ceb_outages::native_date_time_range::NaiveDateTimeRange;
use ceb_outages::table::{extract_rows, TableRow};

fn row(date: Option<&str>, locality: Option<&str>, streets: Option<&str>) -> TableRow {
    TableRow {
        date: date.map(String::from),
        locality: locality.map(String::from),
        streets: streets.map(String::from),
    }
}

fn table(header: &[&str], rows: &[&[&str]]) -> String {
    let mut html = String::from("<h3>Region</h3>\n<table>\n<thead>");
    for label in header {
        html.push_str(&format!("<th>{}</th>", label));
    }
    html.push_str("</thead>\n<tbody>\n");
    for cells in rows {
        html.push_str("<tr>");
        for cell in cells.iter() {
            html.push_str(&format!("<td> {} </td>", cell));
        }
        html.push_str("</tr>\n");
    }
    html.push_str("</tbody>\n</table>\n");
    html
}

const MONDAY: &str = "Le lundi 3 juin 2024 de 09:00:00 à 12:00:00";
const TUESDAY: &str = "Le mardi 4 juin 2024 de 13:30:00 à 16:45:10";

#[test]
fn rows_are_read_under_their_labels() {
    let html = table(
        &["Date", "Locality", "Streets"],
        &[&[MONDAY, "MOKA", "RUE A"], &[TUESDAY, "VERDUN", "RUE B"]],
    );
    let rows = extract_rows(&html).unwrap();
    assert_eq!(
        rows,
        vec![
            row(Some(MONDAY), Some("MOKA"), Some("RUE A")),
            row(Some(TUESDAY), Some("VERDUN"), Some("RUE B")),
        ]
    );
}

#[test]
fn rows_follow_the_labels_not_the_positions() {
    let html = table(
        &["Streets", "Remarks", "Date", "Locality"],
        &[&["RUE A", "none", MONDAY, "MOKA"]],
    );
    assert_eq!(
        extract_rows(&html).unwrap(),
        vec![row(Some(MONDAY), Some("MOKA"), Some("RUE A"))]
    );
}

#[test]
fn short_rows_lack_the_later_columns() {
    let html = table(
        &["Date", "Locality", "Streets"],
        &[&[MONDAY, "MOKA"], &[TUESDAY], &[]],
    );
    assert_eq!(
        extract_rows(&html).unwrap(),
        vec![
            row(Some(MONDAY), Some("MOKA"), None),
            row(Some(TUESDAY), None, None),
            row(None, None, None),
        ]
    );
}

#[test]
fn only_the_first_table_is_read() {
    let first = table(&["Date", "Locality", "Streets"], &[&[MONDAY, "MOKA", "RUE A"]]);
    let second = table(&["Date", "Locality", "Streets"], &[&[TUESDAY, "VERDUN", "RUE B"]]);
    let rows = extract_rows(&format!("{}<p>and</p>{}", first, second)).unwrap();
    assert_eq!(rows, vec![row(Some(MONDAY), Some("MOKA"), Some("RUE A"))]);
}

#[test]
fn fragment_without_table_is_an_error() {
    assert_eq!(extract_rows(""), Err(RegionError::NoTableError));
    assert_eq!(extract_rows("<h3>Moka</h3><p>Rien</p>"), Err(RegionError::NoTableError));
    assert_eq!(Region::new(String::new()).unwrap_err(), RegionError::NoTableError);
    assert_eq!(
        Region::new("<ul><li>Le lundi</li></ul>".to_string()).unwrap_err(),
        RegionError::NoTableError
    );
}

#[test]
fn table_without_rows_is_an_empty_region() {
    let html = table(&["Date", "Locality", "Streets"], &[]);
    assert_eq!(extract_rows(&html).unwrap(), vec![]);
    let region = Region::new(html).unwrap();
    assert_eq!(region.get_poweroutages().len(), 0);
    assert_eq!(Region::new("<table></table>".to_string()).unwrap().get_poweroutages().len(), 0);
    assert_eq!(Region::from_rows(&vec![]).unwrap().get_poweroutages().len(), 0);
}

#[test]
fn row_with_empty_date_is_left_out() {
    let rows = vec![
        row(Some(MONDAY), Some("MOKA"), Some("RUE A")),
        row(Some(""), Some("NOWHERE"), Some("RUE X")),
        row(None, Some("NOWHERE"), Some("RUE Y")),
        row(Some(TUESDAY), Some("VERDUN"), Some("RUE B")),
        row(None, None, None),
    ];
    let with = Region::from_rows(&rows).unwrap();
    let kept = vec![rows[0].clone(), rows[3].clone()];
    let without = Region::from_rows(&kept).unwrap();
    assert_eq!(with, without);
    let outages = with.get_poweroutages();
    assert_eq!(outages.len(), 2);
    assert_eq!(outages[0].locality(), "MOKA");
    assert_eq!(outages[1].locality(), "VERDUN");
    assert_eq!(outages[0].date().get_start().to_string(), "2024-06-03 09:00:00");
    assert_eq!(outages[1].date().get_end().to_string(), "2024-06-04 16:45:10");
}

#[test]
fn empty_date_cell_in_the_markup_is_left_out() {
    let html = table(
        &["Date", "Locality", "Streets"],
        &[&["", "", ""], &[MONDAY, "MOKA", "RUE A"], &["  ", "VERDUN", "RUE B"], &[]],
    );
    let outages = Region::new(html).unwrap().get_poweroutages();
    assert_eq!(outages.len(), 1);
    assert_eq!(outages[0].locality(), "MOKA");
    assert_eq!(outages[0].streets(), "RUE A");
}

#[test]
fn table_without_date_column_is_an_empty_region() {
    let html = table(&["Locality", "Streets"], &[&["MOKA", "RUE A"], &["VERDUN", "RUE B"]]);
    assert_eq!(Region::new(html).unwrap().get_poweroutages().len(), 0);
}

#[test]
fn unreadable_date_fails_the_region() {
    let rows = vec![
        row(Some(MONDAY), Some("MOKA"), Some("RUE A")),
        row(Some("bientôt"), Some("VERDUN"), Some("RUE B")),
        row(Some(TUESDAY), Some("VERDUN"), Some("RUE B")),
    ];
    assert_eq!(Region::from_rows(&rows).unwrap_err(), DateParseError::FormatError);
    let html = table(
        &["Date", "Locality", "Streets"],
        &[&[MONDAY, "MOKA", "RUE A"], &["bientôt", "VERDUN", "RUE B"]],
    );
    assert_eq!(
        Region::new(html).unwrap_err(),
        RegionError::DateParseFailure(DateParseError::FormatError)
    );
}

#[test]
fn first_unreadable_date_gives_the_error() {
    let rows = vec![
        row(Some(""), None, None),
        row(Some("Le 3 brumaire 2024 de 09:00:00 à 12:00:00"), None, None),
        row(Some("Le 31 juin 2024 de 09:00:00 à 12:00:00"), None, None),
        row(Some("bientôt"), None, None),
    ];
    assert_eq!(Region::from_rows(&rows).unwrap_err(), DateParseError::MonthError);
    let later = vec![rows[2].clone(), rows[1].clone()];
    assert_eq!(Region::from_rows(&later).unwrap_err(), DateParseError::DateError);
}

#[test]
fn missing_cells_get_placeholders() {
    let rows = vec![
        row(Some(MONDAY), None, Some("RUE A")),
        row(Some(MONDAY), Some("MOKA"), None),
        row(Some(MONDAY), None, None),
        row(Some(MONDAY), Some(""), Some("")),
    ];
    let outages = Region::from_rows(&rows).unwrap().get_poweroutages();
    assert_eq!(outages.len(), 4);
    assert_eq!((outages[0].locality(), outages[0].streets()), ("<locality missing>", "RUE A"));
    assert_eq!((outages[1].locality(), outages[1].streets()), ("MOKA", "<streets missing>"));
    assert_eq!(
        (outages[2].locality(), outages[2].streets()),
        ("<locality missing>", "<streets missing>")
    );
    assert_eq!((outages[3].locality(), outages[3].streets()), ("", ""));
}

#[test]
fn missing_columns_in_the_markup_get_placeholders() {
    let no_locality = table(&["Date", "Streets"], &[&[MONDAY, "RUE A"]]);
    let outages = Region::new(no_locality).unwrap().get_poweroutages();
    assert_eq!(outages.len(), 1);
    assert_eq!(outages[0].locality(), "<locality missing>");
    assert_eq!(outages[0].streets(), "RUE A");

    let no_streets = table(&["Date", "Locality"], &[&[MONDAY, "MOKA"]]);
    let outages = Region::new(no_streets).unwrap().get_poweroutages();
    assert_eq!(outages[0].locality(), "MOKA");
    assert_eq!(outages[0].streets(), "<streets missing>");

    let short_row = table(&["Date", "Locality", "Streets"], &[&[MONDAY, "MOKA"]]);
    let outages = Region::new(short_row).unwrap().get_poweroutages();
    assert_eq!(outages[0].locality(), "MOKA");
    assert_eq!(outages[0].streets(), "<streets missing>");
}

#[test]
fn one_row_gives_one_record() {
    let read = PowerOutage::from_row(&row(Some(TUESDAY), Some("VERDUN"), Some("RUE B")));
    let outage = read.unwrap().unwrap();
    let start = LocalDateTime::from_ymd_hms(2024, 6, 4, 13, 30, 0).unwrap();
    let end = LocalDateTime::from_ymd_hms(2024, 6, 4, 16, 45, 10).unwrap();
    assert_eq!(*outage.date(), NaiveDateTimeRange::new_from_range(start, end));
    assert_eq!(outage.locality(), "VERDUN");
    assert_eq!(outage.streets(), "RUE B");
    assert_eq!(
        outage,
        PowerOutage::new(
            NaiveDateTimeRange::new_from_range(start, end),
            "VERDUN".to_string(),
            "RUE B".to_string()
        )
    );

    assert_eq!(PowerOutage::from_row(&row(None, Some("VERDUN"), Some("RUE B"))), None);
    assert_eq!(PowerOutage::from_row(&row(Some(""), Some("VERDUN"), Some("RUE B"))), None);
    assert_eq!(
        PowerOutage::from_row(&row(Some(" "), Some("VERDUN"), Some("RUE B"))),
        Some(Err(DateParseError::FormatError))
    );
}

#[test]
fn copies_are_equal_and_apart() {
    let rows = vec![row(Some(MONDAY), Some("MOKA"), Some("RUE A"))];
    let region = Region::from_rows(&rows).unwrap();
    let copy = region.clone();
    assert_eq!(region, copy);
    let mut outages = region.get_poweroutages();
    let outage = outages[0].clone();
    assert_eq!(outage, outages[0]);
    outages.clear();
    assert_eq!(region.get_poweroutages().len(), 1);
    assert_eq!(region.get_poweroutages()[0], outage);
}
