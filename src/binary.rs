use vstd::prelude::*;
use vstd::utf8::encode_utf8;
use crate::table::{tag_name, Cell, CellModel, Row, RowModel, ScrapeError, Table, TableModel};

verus! {

/// The largest length that the binary map format can write.
pub const MAX_LEN: u64 = 0xffff_ffff;

/// A length as two big-endian bytes.
pub open spec fn be16(n: nat) -> Seq<u8> {
    seq![(n / 256) as u8, (n % 256) as u8]
}

/// A length as four big-endian bytes.
pub open spec fn be32(n: nat) -> Seq<u8> {
    be16(n / 0x1_0000) + be16(n % 0x1_0000)
}

/// The header of an array of `n` items: fixarray, array 16 or array 32.
pub open spec fn array_header(n: nat) -> Seq<u8> {
    if n < 16 {
        seq![(0x90 + n) as u8]
    } else if n < 0x1_0000 {
        seq![0xdcu8] + be16(n)
    } else {
        seq![0xddu8] + be32(n)
    }
}

/// The header of a string of `n` bytes: fixstr, str 8, str 16 or str 32.
pub open spec fn str_header(n: nat) -> Seq<u8> {
    if n < 32 {
        seq![(0xa0 + n) as u8]
    } else if n < 256 {
        seq![0xd9u8, n as u8]
    } else if n < 0x1_0000 {
        seq![0xdau8] + be16(n)
    } else {
        seq![0xdbu8] + be32(n)
    }
}

/// A string value: its header, then its UTF-8 bytes.
pub open spec fn packed_str(s: Seq<char>) -> Seq<u8> {
    str_header(encode_utf8(s).len()) + encode_utf8(s)
}

/// A cell as a map of two entries: `name` to its tag, `content` to its text.
pub open spec fn packed_cell(c: CellModel) -> Seq<u8> {
    seq![0x82u8] + packed_str("name"@) + packed_str(tag_name(c.0)) + packed_str("content"@)
        + packed_str(c.1)
}

pub open spec fn packed_cells(r: RowModel, n: int) -> Seq<u8>
    decreases n,
{
    if n <= 0 {
        Seq::empty()
    } else {
        packed_cells(r, n - 1) + packed_cell(r[n - 1])
    }
}

/// A row as an array of its cells.
pub open spec fn packed_row(r: RowModel) -> Seq<u8> {
    array_header(r.len()) + packed_cells(r, r.len() as int)
}

pub open spec fn packed_rows(t: TableModel, n: int) -> Seq<u8>
    decreases n,
{
    if n <= 0 {
        Seq::empty()
    } else {
        packed_rows(t, n - 1) + packed_row(t[n - 1])
    }
}

/// A table as an array of its rows.
pub open spec fn packed_table(t: TableModel) -> Seq<u8> {
    array_header(t.len()) + packed_rows(t, t.len() as int)
}

/// Every count and every text of the table fits the format's 32-bit lengths.
pub open spec fn packable(t: TableModel) -> bool {
    &&& t.len() <= MAX_LEN
    &&& forall|i: int| 0 <= i < t.len() ==> (#[trigger] t[i]).len() <= MAX_LEN
    &&& forall|i: int, j: int|
        0 <= i < t.len() && 0 <= j < t[i].len() ==> encode_utf8(#[trigger] t[i][j].1).len()
            <= MAX_LEN
}

/// UTF-8 takes at most four bytes for each character.
pub proof fn lemma_utf8_len_bound(s: Seq<char>)
    ensures
        encode_utf8(s).len() <= 4 * s.len(),
    decreases s.len(),
{
    if s.len() > 0 {
        lemma_utf8_len_bound(s.drop_first());
        assert(vstd::utf8::encode_scalar(s[0] as u32).len() <= 4);
    }
}

fn push_be16(out: &mut Vec<u8>, n: usize)
    requires
        n < 0x1_0000,
    ensures
        final(out)@ == old(out)@ + be16(n as nat),
{
    out.push((n / 256) as u8);
    out.push((n % 256) as u8);
    assert(final(out)@ =~= old(out)@ + be16(n as nat));
}

fn push_be32(out: &mut Vec<u8>, n: usize)
    requires
        n <= MAX_LEN,
    ensures
        final(out)@ == old(out)@ + be32(n as nat),
{
    push_be16(out, n / 0x1_0000);
    push_be16(out, n % 0x1_0000);
    assert(final(out)@ =~= old(out)@ + be32(n as nat));
}

fn push_array_header(out: &mut Vec<u8>, n: usize)
    requires
        n <= MAX_LEN,
    ensures
        final(out)@ == old(out)@ + array_header(n as nat),
{
    if n < 16 {
        out.push((0x90 + n) as u8);
        assert(final(out)@ =~= old(out)@ + array_header(n as nat));
    } else if n < 0x1_0000 {
        out.push(0xdc);
        push_be16(out, n);
        assert(final(out)@ =~= old(out)@ + array_header(n as nat));
    } else {
        out.push(0xdd);
        push_be32(out, n);
        assert(final(out)@ =~= old(out)@ + array_header(n as nat));
    }
}

fn push_str(out: &mut Vec<u8>, s: &str)
    requires
        encode_utf8(s@).len() <= MAX_LEN,
    ensures
        final(out)@ == old(out)@ + packed_str(s@),
{
    let bytes = s.as_bytes();
    let n = bytes.len();
    if n < 32 {
        out.push((0xa0 + n) as u8);
    } else if n < 256 {
        out.push(0xd9);
        out.push(n as u8);
    } else if n < 0x1_0000 {
        out.push(0xda);
        push_be16(out, n);
    } else {
        out.push(0xdb);
        push_be32(out, n);
    }
    assert(out@ =~= old(out)@ + str_header(n as nat));
    let ghost start = out@;
    let mut i: usize = 0;
    while i < n
        invariant
            i <= n,
            n == bytes@.len(),
            out@ == start + bytes@.subrange(0, i as int),
        decreases n - i,
    {
        out.push(bytes[i]);
        assert(bytes@.subrange(0, i + 1) =~= bytes@.subrange(0, i as int).push(bytes@[i as int]));
        i = i + 1;
    }
    assert(bytes@.subrange(0, n as int) =~= bytes@);
}

fn push_cell(out: &mut Vec<u8>, cell: &Cell)
    requires
        encode_utf8(cell.text@).len() <= MAX_LEN,
    ensures
        final(out)@ == old(out)@ + packed_cell(cell@),
{
    proof {
        reveal_strlit("name");
        reveal_strlit("content");
        reveal_strlit("th");
        reveal_strlit("td");
        lemma_utf8_len_bound("name"@);
        lemma_utf8_len_bound("content"@);
        lemma_utf8_len_bound(tag_name(cell.tag));
    }
    out.push(0x82);
    push_str(out, "name");
    push_str(out, cell.tag.name());
    push_str(out, "content");
    push_str(out, cell.text.as_str());
    assert(out@ =~= old(out)@ + packed_cell(cell@));
}

fn push_row(out: &mut Vec<u8>, row: &Row)
    requires
        row@.len() <= MAX_LEN,
        forall|j: int| 0 <= j < row@.len() ==> encode_utf8(#[trigger] row@[j].1).len() <= MAX_LEN,
    ensures
        final(out)@ == old(out)@ + packed_row(row@),
{
    push_array_header(out, row.cells.len());
    let ghost start = out@;
    let mut j: usize = 0;
    while j < row.cells.len()
        invariant
            j <= row.cells@.len(),
            forall|q: int| 0 <= q < row@.len() ==> encode_utf8(#[trigger] row@[q].1).len() <= MAX_LEN,
            out@ == start + packed_cells(row@, j as int),
        decreases row.cells@.len() - j,
    {
        assert(row@[j as int] == row.cells@[j as int]@);
        assert(encode_utf8(row@[j as int].1).len() <= MAX_LEN);
        push_cell(out, &row.cells[j]);
        j = j + 1;
    }
}

fn text_fits(s: &str) -> (r: bool)
    ensures
        r == (encode_utf8(s@).len() <= MAX_LEN),
{
    let n = s.as_bytes().len();
    n as u64 <= MAX_LEN
}

/// Whether every count and text of the table fits the format.
pub fn table_is_packable(table: &Table) -> (r: bool)
    ensures
        r == packable(table@),
{
    if table.rows.len() as u64 > MAX_LEN {
        return false;
    }
    let mut i: usize = 0;
    while i < table.rows.len()
        invariant
            i <= table.rows@.len(),
            forall|p: int| 0 <= p < i ==> (#[trigger] table@[p]).len() <= MAX_LEN,
            forall|p: int, q: int|
                0 <= p < i && 0 <= q < table@[p].len() ==> encode_utf8(#[trigger] table@[p][q].1).len()
                    <= MAX_LEN,
        decreases table.rows@.len() - i,
    {
        let row = &table.rows[i];
        if row.cells.len() as u64 > MAX_LEN {
            assert(table@[i as int].len() == row.cells@.len());
            return false;
        }
        let mut j: usize = 0;
        while j < row.cells.len()
            invariant
                i < table.rows@.len(),
                row == &table.rows@[i as int],
                j <= row.cells@.len(),
                forall|q: int| 0 <= q < j ==> encode_utf8(#[trigger] table@[i as int][q].1).len() <= MAX_LEN,
            decreases row.cells@.len() - j,
        {
            if !text_fits(row.cells[j].text.as_str()) {
                assert(table@[i as int][j as int].1 == row.cells@[j as int].text@);
                return false;
            }
            assert(table@[i as int][j as int].1 == row.cells@[j as int].text@);
            j = j + 1;
        }
        i = i + 1;
    }
    true
}

/// Encodes a table in the binary map format: an array of rows, each an
/// array of `{name, content}` maps, in order, duplicates and empty texts
/// kept. Fails when a count or a text is too long for the format.
pub fn table_to_binary(table: &Table) -> (r: Result<Vec<u8>, ScrapeError>)
    ensures
        r is Ok <==> packable(table@),
        r matches Ok(b) ==> b@ == packed_table(table@),
        r matches Err(e) ==> e == ScrapeError::Encode,
{
    if !table_is_packable(table) {
        return Err(ScrapeError::Encode);
    }
    let mut out: Vec<u8> = Vec::new();
    push_array_header(&mut out, table.rows.len());
    let ghost start = out@;
    let mut i: usize = 0;
    while i < table.rows.len()
        invariant
            i <= table.rows@.len(),
            packable(table@),
            out@ == start + packed_rows(table@, i as int),
        decreases table.rows@.len() - i,
    {
        assert(table@[i as int] == table.rows@[i as int]@);
        assert(table@[i as int].len() <= MAX_LEN);
        assert forall|j: int| 0 <= j < table@[i as int].len() implies encode_utf8(
            #[trigger] table@[i as int][j].1,
        ).len() <= MAX_LEN by {}
        push_row(&mut out, &table.rows[i]);
        i = i + 1;
    }
    Ok(out)
}

} // verus!
