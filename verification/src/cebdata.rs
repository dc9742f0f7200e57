//! Outage records, the regions that list them, and the catalog of all
//! regions.

use crate::error::{CatalogError, CatalogFault, DateParseError, NotFoundError, RegionError};
use crate::json::{decode_entries, decoded_entries};
use crate::native_date_time_range::{NaiveDateTimeRange, Span};
use crate::table::{extract_rows, row_views, rows_of_text, RowView, TableRow};
use crate::utils::{parse_from_str, range_of_text};
use vstd::prelude::*;

verus! {

/// The mathematical value of a [`PowerOutage`].
pub struct OutageView {
    pub date: Span,
    pub locality: Seq<char>,
    pub streets: Seq<char>,
}

/// One scheduled interruption: when, and where.
#[derive(Debug, PartialEq, Eq)]
pub struct PowerOutage {
    date: NaiveDateTimeRange,
    locality: String,
    streets: String,
}

impl View for PowerOutage {
    type V = OutageView;

    closed spec fn view(&self) -> OutageView {
        OutageView { date: self.date@, locality: self.locality@, streets: self.streets@ }
    }
}

/// A row with no date is passed over: its `Date` cell is missing or empty.
pub open spec fn row_is_skipped(row: RowView) -> bool {
    match row.date {
        Some(date) => date.len() == 0,
        None => true,
    }
}

/// The text of a cell, or `placeholder` where the row has no such cell.
pub open spec fn text_or(cell: Option<Seq<char>>, placeholder: Seq<char>) -> Seq<char> {
    match cell {
        Some(text) => text,
        None => placeholder,
    }
}

/// The record that a row with a date gives: the window that its date
/// announces, with its locality and streets, each replaced by a placeholder
/// where the row has no such cell. A date that cannot be read is an error.
pub open spec fn outage_of_row(row: RowView) -> Result<OutageView, DateParseError>
    recommends
        !row_is_skipped(row),
{
    match range_of_text(row.date->0) {
        Ok(date) => Ok(
            OutageView {
                date,
                locality: text_or(row.locality, "<locality missing>"@),
                streets: text_or(row.streets, "<streets missing>"@),
            },
        ),
        Err(e) => Err(e),
    }
}

/// The records of a table, in the order of its rows. Rows with no date are
/// left out. The first row whose date cannot be read fails the whole table.
pub open spec fn region_of_rows(rows: Seq<RowView>) -> Result<Seq<OutageView>, DateParseError>
    decreases rows.len(),
{
    if rows.len() == 0 {
        Ok(Seq::empty())
    } else {
        match region_of_rows(rows.drop_last()) {
            Err(e) => Err(e),
            Ok(before) => if row_is_skipped(rows.last()) {
                Ok(before)
            } else {
                match outage_of_row(rows.last()) {
                    Ok(outage) => Ok(before.push(outage)),
                    Err(e) => Err(e),
                }
            },
        }
    }
}

/// The region that an HTML fragment describes: the records of its first
/// table.
pub open spec fn region_of_text(html: Seq<char>) -> Result<Seq<OutageView>, RegionError> {
    match rows_of_text(html) {
        None => Err(RegionError::NoTableError),
        Some(rows) => match region_of_rows(rows) {
            Ok(outages) => Ok(outages),
            Err(e) => Err(RegionError::DateParseFailure(e)),
        },
    }
}

impl Clone for PowerOutage {
    fn clone(&self) -> (copy: Self)
        ensures
            copy@ == self@,
    {
        PowerOutage {
            date: self.date,
            locality: self.locality.clone(),
            streets: self.streets.clone(),
        }
    }
}

impl PowerOutage {
    /// A record of the three values.
    pub fn new(date: NaiveDateTimeRange, locality: String, streets: String) -> (outage: Self)
        ensures
            outage@ == (OutageView { date: date@, locality: locality@, streets: streets@ }),
    {
        Self { date, locality, streets }
    }

    /// Reads the record of one row. `None` where the row is passed over for
    /// want of a date; an error where its date cannot be read.
    pub fn from_row(row: &TableRow) -> (read: Option<Result<PowerOutage, DateParseError>>)
        ensures
            match read {
                None => row_is_skipped(row@),
                Some(Ok(outage)) => !row_is_skipped(row@) && outage_of_row(row@) == Ok::<
                    OutageView,
                    DateParseError,
                >(outage@),
                Some(Err(e)) => !row_is_skipped(row@) && outage_of_row(row@) == Err::<
                    OutageView,
                    DateParseError,
                >(e),
            },
    {
        let text = match &row.date {
            Some(text) => text,
            None => {
                return None;
            },
        };
        if text.as_str().is_empty() {
            return None;
        }
        let date = match parse_from_str(text.as_str()) {
            Ok(date) => date,
            Err(e) => {
                return Some(Err(e));
            },
        };
        let locality = match &row.locality {
            Some(text) => text.clone(),
            None => String::from_str("<locality missing>"),
        };
        let streets = match &row.streets {
            Some(text) => text.clone(),
            None => String::from_str("<streets missing>"),
        };
        Some(Ok(PowerOutage::new(date, locality, streets)))
    }

    /// When the power is cut.
    pub fn date(&self) -> (date: &NaiveDateTimeRange)
        ensures
            date@ == self@.date,
    {
        &self.date
    }

    /// The locality, or `<locality missing>`.
    pub fn locality(&self) -> (locality: &str)
        ensures
            locality@ == self@.locality,
    {
        self.locality.as_str()
    }

    /// The streets, or `<streets missing>`.
    pub fn streets(&self) -> (streets: &str)
        ensures
            streets@ == self@.streets,
    {
        self.streets.as_str()
    }
}

/// The views of `outages`, in order.
pub open spec fn outage_views(outages: Seq<PowerOutage>) -> Seq<OutageView> {
    Seq::new(outages.len(), |i: int| outages[i]@)
}

/// The scheduled outages of one region, in the order of the source rows.
#[derive(Debug, PartialEq, Eq)]
pub struct Region(Vec<PowerOutage>);

impl View for Region {
    type V = Seq<OutageView>;

    closed spec fn view(&self) -> Seq<OutageView> {
        outage_views(self.0@)
    }
}

fn copy_outages(outages: &Vec<PowerOutage>) -> (copy: Vec<PowerOutage>)
    ensures
        outage_views(copy@) == outage_views(outages@),
{
    let mut copy: Vec<PowerOutage> = Vec::new();
    let mut i: usize = 0;
    while i < outages.len()
        invariant
            i <= outages.len(),
            copy.len() == i,
            forall|k: int| 0 <= k < i ==> (#[trigger] copy@[k])@ == outages@[k]@,
        decreases outages.len() - i,
    {
        copy.push(outages[i].clone());
        i += 1;
    }
    assert(outage_views(copy@) =~= outage_views(outages@));
    copy
}

impl Clone for Region {
    fn clone(&self) -> (copy: Self)
        ensures
            copy@ == self@,
    {
        Region(copy_outages(&self.0))
    }
}

impl Region {
    /// Reads a region from the HTML fragment that describes it: the rows of
    /// its first table, those with no date left out.
    pub fn new(region_data_html: String) -> (made: Result<Region, RegionError>)
        ensures
            match made {
                Ok(region) => region_of_text(region_data_html@) == Ok::<
                    Seq<OutageView>,
                    RegionError,
                >(region@),
                Err(e) => region_of_text(region_data_html@) == Err::<Seq<OutageView>, RegionError>(
                    e,
                ),
            },
    {
        let rows = match extract_rows(region_data_html.as_str()) {
            Ok(rows) => rows,
            Err(e) => {
                return Err(e);
            },
        };
        match Region::from_rows(&rows) {
            Ok(region) => Ok(region),
            Err(e) => Err(RegionError::DateParseFailure(e)),
        }
    }

    /// Reads a region from the rows of its table.
    pub fn from_rows(rows: &Vec<TableRow>) -> (made: Result<Region, DateParseError>)
        ensures
            match made {
                Ok(region) => region_of_rows(row_views(rows@)) == Ok::<
                    Seq<OutageView>,
                    DateParseError,
                >(region@),
                Err(e) => region_of_rows(row_views(rows@)) == Err::<
                    Seq<OutageView>,
                    DateParseError,
                >(e),
            },
    {
        let ghost all = row_views(rows@);
        let mut region_data: Vec<PowerOutage> = Vec::new();
        let mut i: usize = 0;
        proof {
            assert(all.take(0) =~= Seq::<RowView>::empty());
            assert(outage_views(region_data@) =~= Seq::<OutageView>::empty());
        }
        while i < rows.len()
            invariant
                i <= rows.len(),
                all == row_views(rows@),
                region_of_rows(all.take(i as int)) == Ok::<Seq<OutageView>, DateParseError>(
                    outage_views(region_data@),
                ),
            decreases rows.len() - i,
        {
            proof {
                assert(all.take(i + 1).drop_last() =~= all.take(i as int));
                assert(all.take(i + 1).last() == rows@[i as int]@);
            }
            match PowerOutage::from_row(&rows[i]) {
                None => {},
                Some(Ok(outage)) => {
                    proof {
                        assert(outage_views(region_data@.push(outage)) =~= outage_views(
                            region_data@,
                        ).push(outage@));
                    }
                    region_data.push(outage);
                },
                Some(Err(e)) => {
                    proof {
                        lemma_failure_stays(all, i + 1);
                    }
                    return Err(e);
                },
            }
            i += 1;
        }
        assert(all.take(rows.len() as int) =~= all);
        Ok(Region(region_data))
    }

    /// The records of the region, copied.
    pub fn get_poweroutages(&self) -> (outages: Vec<PowerOutage>)
        ensures
            outage_views(outages@) == self@,
    {
        copy_outages(&self.0)
    }
}

/// Once the first rows of a table have failed, so has the table.
pub proof fn lemma_failure_stays(rows: Seq<RowView>, n: int)
    requires
        0 <= n <= rows.len(),
        region_of_rows(rows.take(n)) is Err,
    ensures
        region_of_rows(rows) == region_of_rows(rows.take(n)),
    decreases rows.len() - n,
{
    if n < rows.len() {
        assert(rows.take(n + 1).drop_last() =~= rows.take(n));
        lemma_failure_stays(rows, n + 1);
    } else {
        assert(rows.take(n) =~= rows);
    }
}

/// The rows that are kept: those with a date, in their order.
pub open spec fn kept_rows(rows: Seq<RowView>) -> Seq<RowView> {
    rows.filter(|row: RowView| !row_is_skipped(row))
}

/// A region is its kept rows, one record for each, in the order of the
/// rows; it fails with the error of the first kept row whose date cannot be
/// read.
pub proof fn lemma_region_is_kept_rows(rows: Seq<RowView>)
    ensures
        match region_of_rows(rows) {
            Ok(outages) => {
                &&& outages.len() == kept_rows(rows).len()
                &&& forall|k: int|
                    0 <= k < outages.len() ==> outage_of_row(#[trigger] kept_rows(rows)[k]) == Ok::<
                        OutageView,
                        DateParseError,
                    >(outages[k])
            },
            Err(e) => exists|k: int|
                {
                    &&& 0 <= k < kept_rows(rows).len()
                    &&& #[trigger] outage_of_row(kept_rows(rows)[k]) == Err::<
                        OutageView,
                        DateParseError,
                    >(e)
                    &&& forall|j: int|
                        0 <= j < k ==> outage_of_row(#[trigger] kept_rows(rows)[j]) is Ok
                },
        },
    decreases rows.len(),
{
    reveal(Seq::filter);
    if rows.len() > 0 {
        let before = rows.drop_last();
        lemma_region_is_kept_rows(before);
        match region_of_rows(before) {
            Err(e) => {
                let k = choose|k: int|
                    {
                        &&& 0 <= k < kept_rows(before).len()
                        &&& #[trigger] outage_of_row(kept_rows(before)[k]) == Err::<
                            OutageView,
                            DateParseError,
                        >(e)
                        &&& forall|j: int|
                            0 <= j < k ==> outage_of_row(#[trigger] kept_rows(before)[j]) is Ok
                    };
                assert(forall|j: int|
                    0 <= j < kept_rows(before).len() ==> kept_rows(rows)[j] == kept_rows(
                        before,
                    )[j]);
                assert(outage_of_row(kept_rows(rows)[k]) == Err::<OutageView, DateParseError>(e));
            },
            Ok(outages) => {
                if !row_is_skipped(rows.last()) {
                    let n = kept_rows(before).len() as int;
                    assert(kept_rows(rows) == kept_rows(before).push(rows.last()));
                    assert(forall|j: int|
                        0 <= j < n ==> kept_rows(rows)[j] == kept_rows(before)[j]);
                    assert(kept_rows(rows)[n] == rows.last());
                    if let Err(e) = outage_of_row(rows.last()) {
                        assert(outage_of_row(kept_rows(rows)[n]) == Err::<
                            OutageView,
                            DateParseError,
                        >(e));
                    }
                }
            },
        }
    }
}

/// A row with no date leaves no trace: the region is that of the table
/// without the row.
pub proof fn lemma_skipped_row_is_left_out(rows: Seq<RowView>, at: int)
    requires
        0 <= at < rows.len(),
        row_is_skipped(rows[at]),
    ensures
        region_of_rows(rows) == region_of_rows(rows.remove(at)),
    decreases rows.len(),
{
    if at == rows.len() - 1 {
        assert(rows.remove(at) =~= rows.drop_last());
    } else {
        assert(rows.remove(at).drop_last() =~= rows.drop_last().remove(at));
        assert(rows.remove(at).last() == rows.last());
        lemma_skipped_row_is_left_out(rows.drop_last(), at);
    }
}

/// A row whose date is there and cannot be read fails the whole region.
pub proof fn lemma_unreadable_date_fails(rows: Seq<RowView>, at: int)
    requires
        0 <= at < rows.len(),
        !row_is_skipped(rows[at]),
        range_of_text(rows[at].date->0) is Err,
    ensures
        region_of_rows(rows) is Err,
    decreases rows.len(),
{
    if at < rows.len() - 1 {
        lemma_unreadable_date_fails(rows.drop_last(), at);
    }
}

/// A record carries the locality and the streets of its row, and the
/// placeholder for each that the row lacks.
pub proof fn lemma_missing_cells_get_placeholders(row: RowView)
    ensures
        outage_of_row(row) matches Ok(outage) ==> {
            &&& range_of_text(row.date->0) == Ok::<Span, DateParseError>(outage.date)
            &&& row.locality is None ==> outage.locality == "<locality missing>"@
            &&& row.locality matches Some(text) ==> outage.locality == text
            &&& row.streets is None ==> outage.streets == "<streets missing>"@
            &&& row.streets matches Some(text) ==> outage.streets == text
        },
{
}

/// The texts of `names`, in order.
pub open spec fn name_texts(names: Seq<String>) -> Seq<Seq<char>> {
    Seq::new(names.len(), |i: int| names[i]@)
}

/// The views of `regions`, in order.
pub open spec fn region_views(regions: Seq<Region>) -> Seq<Seq<OutageView>> {
    Seq::new(regions.len(), |i: int| regions[i]@)
}

/// The mapping that gives each name the region at its position.
pub open spec fn catalog_map(names: Seq<Seq<char>>, regions: Seq<Seq<OutageView>>) -> Map<
    Seq<char>,
    Seq<OutageView>,
>
    decreases names.len(),
{
    if names.len() == 0 || names.len() != regions.len() {
        Map::empty()
    } else {
        catalog_map(names.drop_last(), regions.drop_last()).insert(names.last(), regions.last())
    }
}

/// The catalog of a list of entries, each a region's name and the HTML
/// fragment that describes it. A name that comes twice keeps its last
/// region. The first entry whose fragment gives no region fails the whole
/// catalog, under that entry's name.
pub open spec fn catalog_of_entries(entries: Seq<(Seq<char>, Seq<char>)>) -> Result<
    Map<Seq<char>, Seq<OutageView>>,
    CatalogFault,
>
    decreases entries.len(),
{
    if entries.len() == 0 {
        Ok(Map::empty())
    } else {
        match catalog_of_entries(entries.drop_last()) {
            Err(fault) => Err(fault),
            Ok(before) => match region_of_text(entries.last().1) {
                Ok(region) => Ok(before.insert(entries.last().0, region)),
                Err(cause) => Err(
                    CatalogFault::RegionParseError { region: entries.last().0, cause },
                ),
            },
        }
    }
}

/// The catalog that a JSON document describes.
pub open spec fn catalog_of_text(json: Seq<char>) -> Result<
    Map<Seq<char>, Seq<OutageView>>,
    CatalogFault,
> {
    match decoded_entries(json) {
        Some(entries) => catalog_of_entries(entries),
        None => Err(CatalogFault::DecodeError),
    }
}

/// `made` is the outcome `wanted`, each side taken by its value.
pub open spec fn is_catalog_outcome(
    made: Result<PowerOutages, CatalogError>,
    wanted: Result<Map<Seq<char>, Seq<OutageView>>, CatalogFault>,
) -> bool {
    match made {
        Ok(catalog) => wanted == Ok::<Map<Seq<char>, Seq<OutageView>>, CatalogFault>(catalog@),
        Err(e) => wanted == Err::<Map<Seq<char>, Seq<OutageView>>, CatalogFault>(e@),
    }
}

/// What a mapping of distinct names holds: a region under each name and
/// under no other key.
proof fn lemma_catalog_map(names: Seq<Seq<char>>, regions: Seq<Seq<OutageView>>)
    requires
        names.len() == regions.len(),
        names.no_duplicates(),
    ensures
        catalog_map(names, regions).dom().finite(),
        catalog_map(names, regions).dom().len() == names.len(),
        forall|i: int|
            0 <= i < names.len() ==> catalog_map(names, regions).contains_key(#[trigger] names[i])
                && catalog_map(names, regions)[names[i]] == regions[i],
        forall|key: Seq<char>| #[trigger]
            catalog_map(names, regions).contains_key(key) ==> names.contains(key),
    decreases names.len(),
{
    if names.len() > 0 {
        let before = catalog_map(names.drop_last(), regions.drop_last());
        lemma_catalog_map(names.drop_last(), regions.drop_last());
        let last = names.len() - 1;
        assert(!before.contains_key(names.last())) by {
            if before.contains_key(names.last()) {
                let j = choose|j: int|
                    0 <= j < names.drop_last().len() && names.drop_last()[j] == names.last();
                assert(names[j] == names[last]);
            }
        }
        assert forall|i: int| 0 <= i < names.len() implies catalog_map(names, regions).contains_key(
            #[trigger] names[i],
        ) && catalog_map(names, regions)[names[i]] == regions[i] by {
            if i < last {
                assert(names.drop_last()[i] == names[i]);
                assert(regions.drop_last()[i] == regions[i]);
                assert(names[i] != names[last]);
            }
        }
        assert forall|key: Seq<char>| #[trigger]
            catalog_map(names, regions).contains_key(key) implies names.contains(key) by {
            if key == names.last() {
                assert(names[last] == key);
            } else {
                assert(before.contains_key(key));
                let j = choose|j: int|
                    0 <= j < names.drop_last().len() && names.drop_last()[j] == key;
                assert(names[j] == key);
            }
        }
    }
}

/// Giving a name that is there a new region changes the mapping at that
/// name alone.
proof fn lemma_catalog_replace(
    names: Seq<Seq<char>>,
    regions: Seq<Seq<OutageView>>,
    at: int,
    region: Seq<OutageView>,
)
    requires
        names.len() == regions.len(),
        names.no_duplicates(),
        0 <= at < names.len(),
    ensures
        catalog_map(names, regions.update(at, region)) == catalog_map(names, regions).insert(
            names[at],
            region,
        ),
{
    let changed = catalog_map(names, regions.update(at, region));
    let wanted = catalog_map(names, regions).insert(names[at], region);
    lemma_catalog_map(names, regions);
    lemma_catalog_map(names, regions.update(at, region));
    assert forall|key: Seq<char>| changed.contains_key(key) == wanted.contains_key(key) by {
        if changed.contains_key(key) {
            let j = choose|j: int| 0 <= j < names.len() && names[j] == key;
            assert(catalog_map(names, regions).contains_key(names[j]));
        }
        if wanted.contains_key(key) && key != names[at] {
            let j = choose|j: int| 0 <= j < names.len() && names[j] == key;
            assert(changed.contains_key(names[j]));
        }
    }
    assert forall|key: Seq<char>| changed.contains_key(key) implies changed[key] == wanted[key] by {
        let j = choose|j: int| 0 <= j < names.len() && names[j] == key;
        assert(changed[names[j]] == regions.update(at, region)[j]);
        assert(catalog_map(names, regions)[names[j]] == regions[j]);
    }
    assert(changed =~= wanted);
}

/// Once the first entries have failed, so has the catalog.
proof fn lemma_catalog_failure_stays(entries: Seq<(Seq<char>, Seq<char>)>, n: int)
    requires
        0 <= n <= entries.len(),
        catalog_of_entries(entries.take(n)) is Err,
    ensures
        catalog_of_entries(entries) == catalog_of_entries(entries.take(n)),
    decreases entries.len() - n,
{
    if n < entries.len() {
        assert(entries.take(n + 1).drop_last() =~= entries.take(n));
        lemma_catalog_failure_stays(entries, n + 1);
    } else {
        assert(entries.take(n) =~= entries);
    }
}

fn find_name(names: &Vec<String>, name: &String) -> (at: Option<usize>)
    ensures
        match at {
            Some(j) => j < names.len() && names@[j as int]@ == name@,
            None => !name_texts(names@).contains(name@),
        },
{
    let mut i: usize = 0;
    while i < names.len()
        invariant
            i <= names.len(),
            forall|k: int| 0 <= k < i ==> names@[k]@ != name@,
        decreases names.len() - i,
    {
        if names[i] == *name {
            return Some(i);
        }
        i += 1;
    }
    assert(!name_texts(names@).contains(name@)) by {
        if name_texts(names@).contains(name@) {
            let k = choose|k: int| 0 <= k < names.len() && name_texts(names@)[k] == name@;
            assert(names@[k]@ == name@);
        }
    }
    None
}

/// The scheduled outages of every region, under the regions' names.
#[derive(Debug)]
pub struct PowerOutages {
    names: Vec<String>,
    regions: Vec<Region>,
}

impl View for PowerOutages {
    type V = Map<Seq<char>, Seq<OutageView>>;

    closed spec fn view(&self) -> Map<Seq<char>, Seq<OutageView>> {
        catalog_map(name_texts(self.names@), region_views(self.regions@))
    }
}

impl PowerOutages {
    #[verifier::type_invariant]
    spec fn well_formed(self) -> bool {
        &&& self.names.len() == self.regions.len()
        &&& name_texts(self.names@).no_duplicates()
    }

    /// Builds the catalog from a JSON document that maps each region's name
    /// to the HTML fragment that describes the region. One region that
    /// cannot be read fails the whole catalog: none is built without it.
    pub fn new(data: String) -> (made: Result<PowerOutages, CatalogError>)
        ensures
            is_catalog_outcome(made, catalog_of_text(data@)),
    {
        match decode_entries(data.as_str()) {
            Ok(entries) => PowerOutages::from_entries(&entries),
            Err(_) => Err(CatalogError::DecodeError),
        }
    }

    /// Builds the catalog from the decoded entries, each a region's name and
    /// its HTML fragment, taken in their order.
    pub fn from_entries(entries: &Vec<(String, String)>) -> (made: Result<
        PowerOutages,
        CatalogError,
    >)
        ensures
            is_catalog_outcome(made, catalog_of_entries(entries.deep_view())),
    {
        let ghost all = entries.deep_view();
        let mut names: Vec<String> = Vec::new();
        let mut regions: Vec<Region> = Vec::new();
        let mut i: usize = 0;
        proof {
            assert(all.take(0) =~= Seq::<(Seq<char>, Seq<char>)>::empty());
        }
        while i < entries.len()
            invariant
                i <= entries.len(),
                all == entries.deep_view(),
                names.len() == regions.len(),
                name_texts(names@).no_duplicates(),
                catalog_of_entries(all.take(i as int)) == Ok::<
                    Map<Seq<char>, Seq<OutageView>>,
                    CatalogFault,
                >(catalog_map(name_texts(names@), region_views(regions@))),
            decreases entries.len() - i,
        {
            let name = entries[i].0.clone();
            let html = entries[i].1.clone();
            proof {
                assert(all.take(i + 1).drop_last() =~= all.take(i as int));
                assert(all.take(i + 1).last() == (name@, html@));
            }
            let region = match Region::new(html) {
                Ok(region) => region,
                Err(cause) => {
                    proof {
                        lemma_catalog_failure_stays(all, i + 1);
                    }
                    return Err(CatalogError::RegionParseError { region: name, cause });
                },
            };
            let ghost old_names = name_texts(names@);
            let ghost old_regions = region_views(regions@);
            match find_name(&names, &name) {
                Some(at) => {
                    proof {
                        lemma_catalog_replace(old_names, old_regions, at as int, region@);
                        assert(region_views(regions@.update(at as int, region))
                            =~= old_regions.update(at as int, region@));
                    }
                    regions.set(at, region);
                },
                None => {
                    proof {
                        assert(name_texts(names@.push(name)) =~= old_names.push(name@));
                        assert(region_views(regions@.push(region)) =~= old_regions.push(region@));
                        assert(old_names.push(name@).drop_last() =~= old_names);
                        assert(old_regions.push(region@).drop_last() =~= old_regions);
                    }
                    names.push(name);
                    regions.push(region);
                },
            }
            i += 1;
        }
        assert(all.take(entries.len() as int) =~= all);
        Ok(PowerOutages { names, regions })
    }

    /// The region of that name, copied: the catalog keeps its own. A name
    /// that the catalog does not hold is an error.
    pub fn get_region(&self, region_name: String) -> (found: Result<Region, NotFoundError>)
        ensures
            match found {
                Ok(region) => self@.contains_key(region_name@) && region@ == self@[region_name@],
                Err(_) => !self@.contains_key(region_name@),
            },
    {
        proof {
            use_type_invariant(self);
            lemma_catalog_map(name_texts(self.names@), region_views(self.regions@));
        }
        match find_name(&self.names, &region_name) {
            Some(at) => {
                assert(name_texts(self.names@)[at as int] == region_name@);
                assert(region_views(self.regions@)[at as int] == self.regions@[at as int]@);
                Ok(self.regions[at].clone())
            },
            None => Err(NotFoundError),
        }
    }

    /// The number of regions.
    pub fn len(&self) -> (count: usize)
        ensures
            self@.dom().finite(),
            count == self@.dom().len(),
    {
        proof {
            use_type_invariant(self);
            lemma_catalog_map(name_texts(self.names@), region_views(self.regions@));
        }
        self.names.len()
    }
}

/// A catalog that is built holds a region for every entry, under the names
/// of the entries and no other: each name has the region of the last entry
/// that carries it.
pub proof fn lemma_catalog_holds_its_entries(entries: Seq<(Seq<char>, Seq<char>)>)
    ensures
        catalog_of_entries(entries) matches Ok(catalog) ==> {
            &&& catalog.dom().finite()
            &&& forall|name: Seq<char>| #[trigger]
                catalog.contains_key(name) <==> exists|i: int|
                    0 <= i < entries.len() && (#[trigger] entries[i]).0 == name
            &&& forall|i: int|
                0 <= i < entries.len() && (forall|j: int|
                    i < j < entries.len() ==> (#[trigger] entries[j]).0 != entries[i].0)
                    ==> region_of_text((#[trigger] entries[i]).1) == Ok::<
                    Seq<OutageView>,
                    RegionError,
                >(catalog[entries[i].0])
            &&& forall|i: int|
                0 <= i < entries.len() ==> region_of_text((#[trigger] entries[i]).1) is Ok
        },
    decreases entries.len(),
{
    if entries.len() > 0 {
        let before = entries.drop_last();
        let last = entries.len() - 1;
        lemma_catalog_holds_its_entries(before);
        if let Ok(catalog) = catalog_of_entries(entries) {
            let earlier = catalog_of_entries(before)->Ok_0;
            assert(forall|i: int| 0 <= i < before.len() ==> before[i] == entries[i]);
            assert forall|name: Seq<char>| #[trigger] catalog.contains_key(name) implies exists|
                i: int,
            |
                0 <= i < entries.len() && (#[trigger] entries[i]).0 == name by {
                if name == entries[last].0 {
                } else {
                    assert(earlier.contains_key(name));
                    let i = choose|i: int|
                        0 <= i < before.len() && (#[trigger] before[i]).0 == name;
                    assert(entries[i].0 == name);
                }
            }
            assert forall|name: Seq<char>|
                (exists|i: int|
                    0 <= i < entries.len() && (#[trigger] entries[i]).0
                        == name) implies #[trigger] catalog.contains_key(name) by {
                let i = choose|i: int| 0 <= i < entries.len() && (#[trigger] entries[i]).0 == name;
                if i < last {
                    assert(before[i].0 == name);
                    assert(earlier.contains_key(name));
                }
            }
            assert forall|i: int|
                0 <= i < entries.len() && (forall|j: int|
                    i < j < entries.len() ==> (#[trigger] entries[j]).0
                        != entries[i].0) implies region_of_text((#[trigger] entries[i]).1) == Ok::<
                Seq<OutageView>,
                RegionError,
            >(catalog[entries[i].0]) by {
                if i < last {
                    assert(entries[last].0 != entries[i].0);
                    assert(forall|j: int|
                        i < j < before.len() ==> (#[trigger] before[j]).0 != before[i].0) by {
                        assert(forall|j: int| i < j < before.len() ==> before[j] == entries[j]);
                    }
                    assert(before[i] == entries[i]);
                }
            }
        }
    }
}

/// A catalog that fails names the first entry whose fragment gives no
/// region, and the reason; every entry before it gives one.
pub proof fn lemma_catalog_fails_at_first_failure(entries: Seq<(Seq<char>, Seq<char>)>)
    ensures
        catalog_of_entries(entries) matches Err(fault) ==> exists|i: int|
            {
                &&& 0 <= i < entries.len()
                &&& region_of_text((#[trigger] entries[i]).1) is Err
                &&& fault == (CatalogFault::RegionParseError {
                    region: entries[i].0,
                    cause: region_of_text(entries[i].1)->Err_0,
                })
                &&& forall|j: int| 0 <= j < i ==> region_of_text((#[trigger] entries[j]).1) is Ok
            },
    decreases entries.len(),
{
    if entries.len() > 0 {
        let before = entries.drop_last();
        let last = entries.len() - 1;
        lemma_catalog_fails_at_first_failure(before);
        lemma_catalog_holds_its_entries(before);
        assert(forall|i: int| 0 <= i < before.len() ==> before[i] == entries[i]);
        match catalog_of_entries(before) {
            Err(fault) => {
                let i = choose|i: int|
                    {
                        &&& 0 <= i < before.len()
                        &&& region_of_text((#[trigger] before[i]).1) is Err
                        &&& fault == (CatalogFault::RegionParseError {
                            region: before[i].0,
                            cause: region_of_text(before[i].1)->Err_0,
                        })
                        &&& forall|j: int|
                            0 <= j < i ==> region_of_text((#[trigger] before[j]).1) is Ok
                    };
                assert(entries[i] == before[i]);
                assert(forall|j: int|
                    0 <= j < i ==> region_of_text((#[trigger] entries[j]).1) is Ok) by {
                    assert(forall|j: int| 0 <= j < i ==> before[j] == entries[j]);
                }
            },
            Ok(_) => {
                if region_of_text(entries[last].1) is Err {
                    assert(forall|j: int|
                        0 <= j < last ==> region_of_text((#[trigger] entries[j]).1) is Ok) by {
                        assert(forall|j: int| 0 <= j < last ==> before[j] == entries[j]);
                    }
                }
            },
        }
    }
}

} // verus!
