use vstd::prelude::*;
use crate::table::{tag_name, Cell, CellModel, Row, RowModel, Table, TableModel};

verus! {

/// The two flat key/value dialects.
#[derive(Clone, Copy, Debug, PartialEq, Eq, Structural)]
pub enum Dialect {
    /// `[]` before each row, `tag = "text"` for each cell.
    Toml,
    /// `-` before each row, `tag: "text"` for each cell.
    Yaml,
}

pub open spec fn row_marker(d: Dialect) -> Seq<char> {
    match d {
        Dialect::Toml => "[]\n"@,
        Dialect::Yaml => "-\n"@,
    }
}

pub open spec fn key_separator(d: Dialect) -> Seq<char> {
    match d {
        Dialect::Toml => " = \""@,
        Dialect::Yaml => ": \""@,
    }
}

/// One cell's line: the tag as key, the text quoted and not escaped.
pub open spec fn flat_cell(d: Dialect, c: CellModel) -> Seq<char> {
    tag_name(c.0) + key_separator(d) + c.1 + "\"\n"@
}

/// The lines of the first `n` cells of a row.
pub open spec fn flat_cells(d: Dialect, r: RowModel, n: int) -> Seq<char>
    decreases n,
{
    if n <= 0 {
        Seq::empty()
    } else {
        flat_cells(d, r, n - 1) + flat_cell(d, r[n - 1])
    }
}

/// A row: its marker line, then one line for each cell.
pub open spec fn flat_row(d: Dialect, r: RowModel) -> Seq<char> {
    row_marker(d) + flat_cells(d, r, r.len() as int)
}

/// The document of the first `n` rows of a table.
pub open spec fn flat_rows(d: Dialect, t: TableModel, n: int) -> Seq<char>
    decreases n,
{
    if n <= 0 {
        Seq::empty()
    } else {
        flat_rows(d, t, n - 1) + flat_row(d, t[n - 1])
    }
}

/// The whole document of a table in a dialect.
pub open spec fn flat_text(d: Dialect, t: TableModel) -> Seq<char> {
    flat_rows(d, t, t.len() as int)
}

fn marker(d: Dialect) -> (r: &'static str)
    ensures
        r@ == row_marker(d),
{
    match d {
        Dialect::Toml => "[]\n",
        Dialect::Yaml => "-\n",
    }
}

fn separator(d: Dialect) -> (r: &'static str)
    ensures
        r@ == key_separator(d),
{
    match d {
        Dialect::Toml => " = \"",
        Dialect::Yaml => ": \"",
    }
}

fn write_row(d: Dialect, row: &Row, out: &mut String)
    ensures
        final(out)@ == old(out)@ + flat_row(d, row@),
{
    out.append(marker(d));
    let ghost start = out@;
    let mut i: usize = 0;
    while i < row.cells.len()
        invariant
            i <= row.cells@.len(),
            out@ == start + flat_cells(d, row@, i as int),
        decreases row.cells@.len() - i,
    {
        let cell: &Cell = &row.cells[i];
        out.append(cell.tag.name());
        out.append(separator(d));
        out.append(cell.text.as_str());
        out.append("\"\n");
        i = i + 1;
    }
}

/// Writes a table in a flat key/value dialect. Cells of one row that share a
/// tag give repeated keys; text is quoted and not escaped.
pub fn table_to_flat(d: Dialect, table: &Table) -> (r: String)
    ensures
        r@ == flat_text(d, table@),
{
    let mut out = String::new();
    let mut i: usize = 0;
    while i < table.rows.len()
        invariant
            i <= table.rows@.len(),
            out@ == flat_rows(d, table@, i as int),
        decreases table.rows@.len() - i,
    {
        write_row(d, &table.rows[i], &mut out);
        i = i + 1;
    }
    out
}

} // verus!
