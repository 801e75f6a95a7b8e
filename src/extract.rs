use vstd::prelude::*;
use crate::table::{Cell, CellModel, CellTag, Row, ScrapeError, Table, TableModel};

verus! {

/// The first table of an HTML document as scraper reads it: `None` where the
/// document holds no table element, else for each row element of that table
/// in document order, the `th` and `td` elements in it in document order,
/// each as its element name and its descendant text.
pub uninterp spec fn first_table_cells(html: Seq<char>) -> Option<Seq<Seq<(Seq<char>, Seq<char>)>>>;

/// Relies on scraper: Html::parse_document with the permissive HTML parsing
/// rules, Selector::parse on three fixed selectors, Html::select and
/// ElementRef::select for the first `table`, its `tr` elements and their
/// `th, td` elements in document order, Element::name and ElementRef::text.
/// The result depends on the document text alone.
#[verifier::external_body]
fn scrape_first_table(html: &str) -> (r: Option<Vec<Vec<(String, String)>>>)
    ensures
        r matches Some(rows) ==> first_table_cells(html@) == Some(rows.deep_view()),
        r is None ==> first_table_cells(html@) is None,
{
    let doc = scraper::Html::parse_document(html);
    let table = doc.select(&scraper::Selector::parse("table").ok()?).next()?;
    let tr = scraper::Selector::parse("tr").ok()?;
    let cell = scraper::Selector::parse("th, td").ok()?;
    Some(table.select(&tr).map(|row| row.select(&cell).map(|c|
        (c.value().name().to_string(), c.text().collect())).collect()).collect())
}

/// The tag of an element name: header for `th`, data for any other name.
pub open spec fn tag_of_name(name: Seq<char>) -> CellTag {
    if name == "th"@ {
        CellTag::Header
    } else {
        CellTag::Data
    }
}

/// The cell for an element name and its text.
pub open spec fn cell_of_parts(p: (Seq<char>, Seq<char>)) -> CellModel {
    (tag_of_name(p.0), p.1)
}

/// The table for scraped rows of (element name, text) pairs.
pub open spec fn table_of_parts(rows: Seq<Seq<(Seq<char>, Seq<char>)>>) -> TableModel {
    rows.map_values(|r: Seq<(Seq<char>, Seq<char>)>| r.map_values(|p: (Seq<char>, Seq<char>)| cell_of_parts(p)))
}

/// The table of an HTML document: `None` where it has no table element.
pub open spec fn found_table(html: Seq<char>) -> Option<TableModel> {
    match first_table_cells(html) {
        Some(rows) => Some(table_of_parts(rows)),
        None => None,
    }
}

/// The cell for an element named `name` holding `text`: a header cell for
/// `th`, a data cell for any other name.
pub fn cell_from_parts(name: String, text: String) -> (r: Cell)
    ensures
        r@ == cell_of_parts((name@, text@)),
{
    let th = String::from_str("th");
    let tag = if name == th {
        CellTag::Header
    } else {
        CellTag::Data
    };
    Cell { tag, text }
}

fn row_from_parts(parts: &Vec<(String, String)>) -> (r: Row)
    ensures
        r@ == parts.deep_view().map_values(|p: (Seq<char>, Seq<char>)| cell_of_parts(p)),
{
    let ghost dv = parts.deep_view();
    let mut cells: Vec<Cell> = Vec::new();
    let mut j: usize = 0;
    while j < parts.len()
        invariant
            j <= parts@.len(),
            dv == parts.deep_view(),
            cells@.len() == j,
            forall|q: int| 0 <= q < j ==> #[trigger] cells@[q]@ == cell_of_parts(dv[q]),
        decreases parts@.len() - j,
    {
        let name = parts[j].0.clone();
        let text = parts[j].1.clone();
        assert(dv[j as int] == (parts@[j as int].0@, parts@[j as int].1@));
        cells.push(cell_from_parts(name, text));
        j = j + 1;
    }
    let r = Row { cells };
    assert(r@ =~= dv.map_values(|p: (Seq<char>, Seq<char>)| cell_of_parts(p)));
    r
}

/// Builds the table for scraped rows of (element name, text) pairs.
pub fn table_from_parts(rows: &Vec<Vec<(String, String)>>) -> (r: Table)
    ensures
        r@ == table_of_parts(rows.deep_view()),
{
    let ghost dv = rows.deep_view();
    let mut out: Vec<Row> = Vec::new();
    let mut i: usize = 0;
    while i < rows.len()
        invariant
            i <= rows@.len(),
            dv == rows.deep_view(),
            out@.len() == i,
            forall|q: int| 0 <= q < i ==> #[trigger] out@[q]@ == dv[q].map_values(
                |p: (Seq<char>, Seq<char>)| cell_of_parts(p),
            ),
        decreases rows@.len() - i,
    {
        assert(dv[i as int] == rows@[i as int].deep_view());
        out.push(row_from_parts(&rows[i]));
        i = i + 1;
    }
    let r = Table { rows: out };
    assert(r@ =~= table_of_parts(dv));
    r
}

/// Parses an HTML document and reads its first table. Fails with `NotFound`
/// exactly where the document holds no table element.
pub fn extract(html: &str) -> (r: Result<Table, ScrapeError>)
    ensures
        found_table(html@) is None ==> r == Err::<Table, ScrapeError>(ScrapeError::NotFound),
        found_table(html@) matches Some(t) ==> (r matches Ok(tb) && tb@ == t),
{
    match scrape_first_table(html) {
        Some(rows) => Ok(table_from_parts(&rows)),
        None => Err(ScrapeError::NotFound),
    }
}

} // verus!
