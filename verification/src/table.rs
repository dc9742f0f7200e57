//! The rows of the first table of an HTML fragment, as `table_extract` reads
//! them: each row a mapping from the labels of the header cells to the text
//! of the cell below.

use crate::error::RegionError;
use vstd::prelude::*;

verus! {

/// `table_extract::Table`: a table read from HTML, its rows in the order of
/// the markup.
#[verifier::external_type_specification]
#[verifier::external_body]
pub struct ExTable(table_extract::Table);

/// `table_extract::Row`: one row of a table.
#[verifier::external_type_specification]
#[verifier::external_body]
pub struct ExRow<'a>(table_extract::Row<'a>);

/// The rows of the first table that `table_extract` finds in `html`, each as
/// the mapping from header label to cell text; `None` where it finds no
/// table.
pub uninterp spec fn first_table_rows(html: Seq<char>) -> Option<Seq<Map<Seq<char>, Seq<char>>>>;

/// The rows that a table holds, in order, each as the mapping from header
/// label to cell text.
pub uninterp spec fn table_rows(table: table_extract::Table) -> Seq<Map<Seq<char>, Seq<char>>>;

/// The cells that a row holds: the mapping from header label to cell text. A
/// label is missing where the table has no such header, or the row no cell
/// at the header's position.
pub uninterp spec fn row_cells(row: table_extract::Row) -> Map<Seq<char>, Seq<char>>;

/// `table_extract::Table::find_first`: the first table of the fragment, where
/// there is one. What it holds depends on the fragment alone.
pub assume_specification[ table_extract::Table::find_first ](html: &str) -> (found: Option<
    table_extract::Table,
>)
    ensures
        match found {
            Some(table) => first_table_rows(html@) == Some(table_rows(table)),
            None => first_table_rows(html@).is_none(),
        },
;

/// `table_extract::Table::iter`, collected: the rows of the table in order.
#[verifier::external_body]
fn rows_of<'a>(table: &'a table_extract::Table) -> (rows: Vec<table_extract::Row<'a>>)
    ensures
        rows@.len() == table_rows(*table).len(),
        forall|i: int|
            0 <= i < rows@.len() ==> row_cells(#[trigger] rows@[i]) == table_rows(*table)[i],
{
    table.iter().collect()
}

/// `table_extract::Row::get`: the text of the cell under `header`, where the
/// row has one.
pub assume_specification<'a>[ table_extract::Row::<'a>::get ](
    row: &table_extract::Row<'a>,
    header: &str,
) -> (cell: Option<&'a str>)
    ensures
        match cell {
            Some(text) => row_cells(*row).contains_key(header@) && row_cells(*row)[header@]
                == text@,
            None => !row_cells(*row).contains_key(header@),
        },
;

/// What a row of the outage table says, column by column. A field is `None`
/// where the row has no cell under that label.
#[derive(Debug, Clone, PartialEq, Eq)]
pub struct TableRow {
    /// The cell under `Date`.
    pub date: Option<String>,
    /// The cell under `Locality`.
    pub locality: Option<String>,
    /// The cell under `Streets`.
    pub streets: Option<String>,
}

/// The mathematical value of a [`TableRow`].
pub struct RowView {
    pub date: Option<Seq<char>>,
    pub locality: Option<Seq<char>>,
    pub streets: Option<Seq<char>>,
}

impl View for TableRow {
    type V = RowView;

    open spec fn view(&self) -> RowView {
        RowView {
            date: self.date.deep_view(),
            locality: self.locality.deep_view(),
            streets: self.streets.deep_view(),
        }
    }
}

/// The text under `label`, where the cells have that label.
pub open spec fn cell_of(cells: Map<Seq<char>, Seq<char>>, label: Seq<char>) -> Option<Seq<char>> {
    if cells.contains_key(label) {
        Some(cells[label])
    } else {
        None
    }
}

/// The three columns of a row of cells.
pub open spec fn row_of_cells(cells: Map<Seq<char>, Seq<char>>) -> RowView {
    RowView {
        date: cell_of(cells, "Date"@),
        locality: cell_of(cells, "Locality"@),
        streets: cell_of(cells, "Streets"@),
    }
}

/// The rows of the first table of `html`, column by column, in the order of
/// the markup; `None` where `html` holds no table.
pub open spec fn rows_of_text(html: Seq<char>) -> Option<Seq<RowView>> {
    match first_table_rows(html) {
        Some(rows) => Some(Seq::new(rows.len(), |i: int| row_of_cells(rows[i]))),
        None => None,
    }
}

/// The views of `rows`, in order.
pub open spec fn row_views(rows: Seq<TableRow>) -> Seq<RowView> {
    Seq::new(rows.len(), |i: int| rows[i]@)
}

fn cell(row: &table_extract::Row, label: &str) -> (text: Option<String>)
    ensures
        text.deep_view() == cell_of(row_cells(*row), label@),
{
    match row.get(label) {
        Some(text) => Some(String::from_str(text)),
        None => None,
    }
}

/// Reads the rows of the first table of `html`. The labels are the texts of
/// the header cells; a row shorter than the header lacks the later columns.
pub fn extract_rows(html: &str) -> (rows: Result<Vec<TableRow>, RegionError>)
    ensures
        match rows {
            Ok(found) => rows_of_text(html@) == Some(row_views(found@)),
            Err(e) => e == RegionError::NoTableError && rows_of_text(html@).is_none(),
        },
{
    let table = match table_extract::Table::find_first(html) {
        Some(table) => table,
        None => {
            return Err(RegionError::NoTableError);
        },
    };
    let rows = rows_of(&table);
    let mut found: Vec<TableRow> = Vec::new();
    let mut i: usize = 0;
    while i < rows.len()
        invariant
            i <= rows.len(),
            found.len() == i,
            rows@.len() == table_rows(table).len(),
            forall|k: int|
                0 <= k < rows@.len() ==> row_cells(#[trigger] rows@[k]) == table_rows(table)[k],
            forall|k: int|
                0 <= k < i ==> (#[trigger] found@[k])@ == row_of_cells(table_rows(table)[k]),
        decreases rows.len() - i,
    {
        let row = &rows[i];
        let date = cell(row, "Date");
        let locality = cell(row, "Locality");
        let streets = cell(row, "Streets");
        found.push(TableRow { date, locality, streets });
        i += 1;
    }
    assert(row_views(found@) =~= rows_of_text(html@)->0);
    Ok(found)
}

} // verus!
