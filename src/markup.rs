use vstd::prelude::*;
use crate::table::{tag_name, Cell, CellModel, Row, RowModel, Table, TableModel};

verus! {

/// The character data that stands for one character of cell text.
pub open spec fn escaped_char(c: char) -> Seq<char> {
    if c == '<' {
        "&lt;"@
    } else if c == '>' {
        "&gt;"@
    } else if c == '&' {
        "&amp;"@
    } else {
        seq![c]
    }
}

/// Cell text as character data: `<`, `>` and `&` become entity references.
pub open spec fn escaped_text(s: Seq<char>) -> Seq<char>
    decreases s.len(),
{
    if s.len() == 0 {
        Seq::empty()
    } else {
        escaped_char(s[0]) + escaped_text(s.drop_first())
    }
}

/// Whether `s` starts with the `n` characters of `p`.
pub open spec fn starts_with(s: Seq<char>, p: Seq<char>, n: int) -> bool {
    0 <= n <= s.len() && s.subrange(0, n) == p
}

/// Character data read back as text: the entity references `&lt;`, `&gt;`
/// and `&amp;` resolved, every other character kept.
pub open spec fn unescaped_text(s: Seq<char>) -> Seq<char>
    decreases s.len(),
{
    if s.len() == 0 {
        Seq::empty()
    } else if starts_with(s, "&lt;"@, 4) {
        seq!['<'] + unescaped_text(s.subrange(4, s.len() as int))
    } else if starts_with(s, "&gt;"@, 4) {
        seq!['>'] + unescaped_text(s.subrange(4, s.len() as int))
    } else if starts_with(s, "&amp;"@, 5) {
        seq!['&'] + unescaped_text(s.subrange(5, s.len() as int))
    } else {
        seq![s[0]] + unescaped_text(s.drop_first())
    }
}

/// The character data written for a cell's text reads back, entity
/// references resolved, as exactly that text.
pub proof fn lemma_cell_text_reads_back(s: Seq<char>)
    ensures
        unescaped_text(escaped_text(s)) == s,
    decreases s.len(),
{
    reveal_strlit("&lt;");
    reveal_strlit("&gt;");
    reveal_strlit("&amp;");
    if s.len() > 0 {
        let rest = s.drop_first();
        let e = escaped_text(s);
        lemma_cell_text_reads_back(rest);
        let c = s[0];
        if c == '<' {
            assert(e.subrange(0, 4) =~= escaped_char(c));
            assert(e.subrange(4, e.len() as int) =~= escaped_text(rest));
        } else if c == '>' {
            assert(e.subrange(0, 4) =~= escaped_char(c));
            assert(e.subrange(4, e.len() as int) =~= escaped_text(rest));
            assert(!starts_with(e, "&lt;"@, 4)) by {
                if starts_with(e, "&lt;"@, 4) {
                    assert(e.subrange(0, 4)[1] == e[1]);
                }
            }
        } else if c == '&' {
            assert(e.subrange(0, 5) =~= escaped_char(c));
            assert(e.subrange(5, e.len() as int) =~= escaped_text(rest));
            assert(!starts_with(e, "&lt;"@, 4)) by {
                if starts_with(e, "&lt;"@, 4) {
                    assert(e.subrange(0, 4)[1] == e[1]);
                }
            }
            assert(!starts_with(e, "&gt;"@, 4)) by {
                if starts_with(e, "&gt;"@, 4) {
                    assert(e.subrange(0, 4)[1] == e[1]);
                }
            }
        } else {
            assert(e[0] == c);
            assert(e.drop_first() =~= escaped_text(rest));
            assert(!starts_with(e, "&lt;"@, 4)) by {
                if starts_with(e, "&lt;"@, 4) {
                    assert(e.subrange(0, 4)[0] == e[0]);
                }
            }
            assert(!starts_with(e, "&gt;"@, 4)) by {
                if starts_with(e, "&gt;"@, 4) {
                    assert(e.subrange(0, 4)[0] == e[0]);
                }
            }
            assert(!starts_with(e, "&amp;"@, 5)) by {
                if starts_with(e, "&amp;"@, 5) {
                    assert(e.subrange(0, 5)[0] == e[0]);
                }
            }
        }
        assert(seq![c] + rest =~= s);
    }
}

/// Relies on xml::escape::escape_str_pcdata, which replaces each `<`, `>`
/// and `&` by its entity reference and keeps every other character.
#[verifier::external_body]
fn escape_text(s: &str) -> (r: String)
    ensures
        r@ == escaped_text(s@),
{
    xml::escape::escape_str_pcdata(s).into_owned()
}

/// One cell element, on a line of its own at depth two.
pub open spec fn markup_cell(c: CellModel) -> Seq<char> {
    "    <"@ + tag_name(c.0) + ">"@ + escaped_text(c.1) + "</"@ + tag_name(c.0) + ">\n"@
}

pub open spec fn markup_cells(r: RowModel, n: int) -> Seq<char>
    decreases n,
{
    if n <= 0 {
        Seq::empty()
    } else {
        markup_cells(r, n - 1) + markup_cell(r[n - 1])
    }
}

/// One `tr` element at depth one; a row without cells is a single line.
pub open spec fn markup_row(r: RowModel) -> Seq<char> {
    if r.len() == 0 {
        "  <tr></tr>\n"@
    } else {
        "  <tr>\n"@ + markup_cells(r, r.len() as int) + "  </tr>\n"@
    }
}

pub open spec fn markup_rows(t: TableModel, n: int) -> Seq<char>
    decreases n,
{
    if n <= 0 {
        Seq::empty()
    } else {
        markup_rows(t, n - 1) + markup_row(t[n - 1])
    }
}

/// The `table` element of a table; a table without rows is `<table></table>`.
pub open spec fn markup_text(t: TableModel) -> Seq<char> {
    if t.len() == 0 {
        "<table></table>"@
    } else {
        "<table>\n"@ + markup_rows(t, t.len() as int) + "</table>"@
    }
}

fn write_row(row: &Row, out: &mut String)
    ensures
        final(out)@ == old(out)@ + markup_row(row@),
{
    if row.cells.len() == 0 {
        out.append("  <tr></tr>\n");
        return;
    }
    out.append("  <tr>\n");
    let ghost start = out@;
    let mut i: usize = 0;
    while i < row.cells.len()
        invariant
            i <= row.cells@.len(),
            out@ == start + markup_cells(row@, i as int),
        decreases row.cells@.len() - i,
    {
        let cell: &Cell = &row.cells[i];
        let ghost before = out@;
        let name = cell.tag.name();
        out.append("    <");
        out.append(name);
        out.append(">");
        let text = escape_text(cell.text.as_str());
        out.append(text.as_str());
        out.append("</");
        out.append(name);
        out.append(">\n");
        assert(row@[i as int] == cell@);
        assert(out@ =~= before + markup_cell(cell@));
        i = i + 1;
    }
    out.append("  </tr>\n");
}

/// Writes a table as indented markup: a `table` element holding one `tr`
/// element for each row, which holds one `th` or `td` element for each cell.
pub fn table_to_markup(table: &Table) -> (r: String)
    ensures
        r@ == markup_text(table@),
{
    if table.rows.len() == 0 {
        return String::from_str("<table></table>");
    }
    let mut out = String::from_str("<table>\n");
    let ghost start = out@;
    let mut i: usize = 0;
    while i < table.rows.len()
        invariant
            i <= table.rows@.len(),
            out@ == start + markup_rows(table@, i as int),
        decreases table.rows@.len() - i,
    {
        write_row(&table.rows[i], &mut out);
        i = i + 1;
    }
    out.append("</table>");
    out
}

} // verus!
