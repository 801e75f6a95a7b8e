use vstd::prelude::*;
use crate::table::{Cell, CellModel, RowModel, ScrapeError, Table, TableModel};

verus! {

/// The bytes of one delimited-text record holding the given fields, as the
/// csv crate's writer produces them (fields quoted where needed, one line
/// terminator).
pub uninterp spec fn csv_record(fields: Seq<Seq<char>>) -> Seq<u8>;

/// Relies on csv::Writer::from_writer, write_record and into_inner on a
/// fresh in-memory writer: the bytes of exactly one record. Writing into a
/// `Vec` cannot fail, and a fresh writer has no field count to hold a first
/// record to, so `None` does not come.
#[verifier::external_body]
fn encode_record(fields: &Vec<String>) -> (r: Option<Vec<u8>>)
    ensures
        r is Some,
        r matches Some(b) ==> b@ == csv_record(fields.deep_view()),
{
    let mut w = csv::Writer::from_writer(Vec::new());
    w.write_record(fields).ok()?;
    w.into_inner().ok()
}

/// The fields of a record: the texts of a row's cells, in order.
pub open spec fn record_fields(r: RowModel) -> Seq<Seq<char>> {
    r.map_values(|c: CellModel| c.1)
}

/// The records of a table: one for each row, the first one being the header.
pub open spec fn csv_records(t: TableModel) -> Seq<Seq<Seq<char>>> {
    t.map_values(|r: RowModel| record_fields(r))
}

/// The bytes of the first `n` records.
pub open spec fn csv_prefix(recs: Seq<Seq<Seq<char>>>, n: int) -> Seq<u8>
    decreases n,
{
    if n <= 0 {
        Seq::empty()
    } else {
        csv_prefix(recs, n - 1) + csv_record(recs[n - 1])
    }
}

/// The delimited text of a table with at least one row.
pub open spec fn csv_text(t: TableModel) -> Seq<u8> {
    csv_prefix(csv_records(t), t.len() as int)
}

/// Each record of a table has exactly as many fields as its row has cells,
/// and there is one record for each row: nothing is padded or cut.
pub proof fn lemma_records_match_rows(t: TableModel)
    ensures
        csv_records(t).len() == t.len(),
        forall|i: int| 0 <= i < t.len() ==> (#[trigger] csv_records(t)[i]).len() == t[i].len(),
        forall|i: int, j: int|
            0 <= i < t.len() && 0 <= j < t[i].len() ==> #[trigger] csv_records(t)[i][j] == t[i][j].1,
{
}

fn row_fields(cells: &Vec<Cell>) -> (r: Vec<String>)
    ensures
        r.deep_view() == cells@.map_values(|c: Cell| c@).map_values(
            |c: CellModel| c.1,
        ),
{
    let mut fields: Vec<String> = Vec::new();
    let mut i: usize = 0;
    while i < cells.len()
        invariant
            i <= cells@.len(),
            fields@.len() == i,
            forall|k: int| 0 <= k < i ==> #[trigger] fields@[k]@ == cells@[k].text@,
        decreases cells@.len() - i,
    {
        fields.push(cells[i].text.clone());
        i = i + 1;
    }
    assert(fields.deep_view() =~= cells@.map_values(|c: Cell| c@).map_values(
        |c: CellModel| c.1,
    ));
    fields
}

/// Writes a table as delimited text: the first row as header record, then
/// each further row as a data record, each with as many fields as it has
/// cells. A table without rows has no header and is refused.
pub fn table_to_csv(table: &Table) -> (r: Result<Vec<u8>, ScrapeError>)
    ensures
        table@.len() == 0 ==> r == Err::<Vec<u8>, ScrapeError>(ScrapeError::EmptyTable),
        table@.len() > 0 ==> (r matches Ok(b) && b@ == csv_text(table@)),
{
    if table.rows.len() == 0 {
        return Err(ScrapeError::EmptyTable);
    }
    let ghost recs = csv_records(table@);
    let mut out: Vec<u8> = Vec::new();
    let mut i: usize = 0;
    while i < table.rows.len()
        invariant
            i <= table.rows@.len(),
            recs == csv_records(table@),
            out@ == csv_prefix(recs, i as int),
        decreases table.rows@.len() - i,
    {
        let fields = row_fields(&table.rows[i].cells);
        assert(fields.deep_view() == recs[i as int]);
        let mut bytes = encode_record(&fields).unwrap();
        out.append(&mut bytes);
        i = i + 1;
    }
    Ok(out)
}

} // verus!
