use vstd::prelude::*;
use vstd::utf8::encode_utf8;
use crate::binary::{
    array_header, be16, be32, lemma_utf8_len_bound, packable, packed_cell, packed_cells, packed_row,
    packed_rows, packed_str, packed_table, MAX_LEN,
};
use crate::table::{tag_name, CellModel, RowModel, TableModel};

verus! {

/// A decoded cell: the bytes of its name and of its content.
pub type DecodedCell = (Seq<u8>, Seq<u8>);

/// The value of two big-endian bytes.
pub open spec fn be16_value(b: Seq<u8>) -> nat {
    (b[0] as nat) * 256 + (b[1] as nat)
}

/// The value of four big-endian bytes.
pub open spec fn be32_value(b: Seq<u8>) -> nat {
    be16_value(b.subrange(0, 2)) * 0x1_0000 + be16_value(b.subrange(2, 4))
}

/// Reads an array header: the item count and the bytes after it.
pub open spec fn read_array_header(b: Seq<u8>) -> Option<(nat, Seq<u8>)> {
    if b.len() == 0 {
        None
    } else if 0x90 <= b[0] <= 0x9f {
        Some(((b[0] - 0x90) as nat, b.drop_first()))
    } else if b[0] == 0xdc && b.len() >= 3 {
        Some((be16_value(b.subrange(1, 3)), b.subrange(3, b.len() as int)))
    } else if b[0] == 0xdd && b.len() >= 5 {
        Some((be32_value(b.subrange(1, 5)), b.subrange(5, b.len() as int)))
    } else {
        None
    }
}

/// Reads a string header: the byte length and the bytes after it.
pub open spec fn read_str_header(b: Seq<u8>) -> Option<(nat, Seq<u8>)> {
    if b.len() == 0 {
        None
    } else if 0xa0 <= b[0] <= 0xbf {
        Some(((b[0] - 0xa0) as nat, b.drop_first()))
    } else if b[0] == 0xd9 && b.len() >= 2 {
        Some((b[1] as nat, b.subrange(2, b.len() as int)))
    } else if b[0] == 0xda && b.len() >= 3 {
        Some((be16_value(b.subrange(1, 3)), b.subrange(3, b.len() as int)))
    } else if b[0] == 0xdb && b.len() >= 5 {
        Some((be32_value(b.subrange(1, 5)), b.subrange(5, b.len() as int)))
    } else {
        None
    }
}

/// Reads a string: its bytes and the bytes after it.
pub open spec fn read_str(b: Seq<u8>) -> Option<(Seq<u8>, Seq<u8>)> {
    match read_str_header(b) {
        Some((n, rest)) => if n <= rest.len() {
            Some((rest.subrange(0, n as int), rest.subrange(n as int, rest.len() as int)))
        } else {
            None
        },
        None => None,
    }
}

/// Reads a `{name, content}` map.
pub open spec fn read_cell(b: Seq<u8>) -> Option<(DecodedCell, Seq<u8>)> {
    if b.len() == 0 || b[0] != 0x82 {
        None
    } else {
        match read_str(b.drop_first()) {
            Some((k1, r1)) => if k1 != encode_utf8("name"@) {
                None
            } else {
                match read_str(r1) {
                    Some((name, r2)) => match read_str(r2) {
                        Some((k2, r3)) => if k2 != encode_utf8("content"@) {
                            None
                        } else {
                            match read_str(r3) {
                                Some((content, r4)) => Some(((name, content), r4)),
                                None => None,
                            }
                        },
                        None => None,
                    },
                    None => None,
                }
            },
            None => None,
        }
    }
}

/// Reads `n` maps in a row.
pub open spec fn read_cells(b: Seq<u8>, n: nat) -> Option<(Seq<DecodedCell>, Seq<u8>)>
    decreases n,
{
    if n == 0 {
        Some((Seq::empty(), b))
    } else {
        match read_cells(b, (n - 1) as nat) {
            Some((cs, rest)) => match read_cell(rest) {
                Some((c, rest2)) => Some((cs.push(c), rest2)),
                None => None,
            },
            None => None,
        }
    }
}

/// Reads an array of maps.
pub open spec fn read_row(b: Seq<u8>) -> Option<(Seq<DecodedCell>, Seq<u8>)> {
    match read_array_header(b) {
        Some((n, rest)) => read_cells(rest, n),
        None => None,
    }
}

/// Reads `n` rows in a row.
pub open spec fn read_rows(b: Seq<u8>, n: nat) -> Option<(Seq<Seq<DecodedCell>>, Seq<u8>)>
    decreases n,
{
    if n == 0 {
        Some((Seq::empty(), b))
    } else {
        match read_rows(b, (n - 1) as nat) {
            Some((rs, rest)) => match read_row(rest) {
                Some((r, rest2)) => Some((rs.push(r), rest2)),
                None => None,
            },
            None => None,
        }
    }
}

/// Decodes the binary map format: an array of rows, nothing after it.
pub open spec fn decode_table(b: Seq<u8>) -> Option<Seq<Seq<DecodedCell>>> {
    match read_array_header(b) {
        Some((n, rest)) => match read_rows(rest, n) {
            Some((rows, tail)) => if tail.len() == 0 {
                Some(rows)
            } else {
                None
            },
            None => None,
        },
        None => None,
    }
}

/// What decoding should give for a cell: its tag name and text as UTF-8.
pub open spec fn cell_bytes(c: CellModel) -> DecodedCell {
    (encode_utf8(tag_name(c.0)), encode_utf8(c.1))
}

pub open spec fn row_bytes(r: RowModel) -> Seq<DecodedCell> {
    r.map_values(|c: CellModel| cell_bytes(c))
}

pub open spec fn table_bytes(t: TableModel) -> Seq<Seq<DecodedCell>> {
    t.map_values(|r: RowModel| row_bytes(r))
}

proof fn lemma_be16(n: nat, rest: Seq<u8>)
    requires
        n < 0x1_0000,
    ensures
        be16(n).len() == 2,
        be16_value(be16(n)) == n,
        (be16(n) + rest).subrange(0, 2) == be16(n),
{
    assert(n / 256 < 256) by (nonlinear_arith)
        requires
            n < 0x1_0000,
    ;
    assert(n == (n / 256) * 256 + n % 256) by (nonlinear_arith);
    assert((be16(n) + rest).subrange(0, 2) =~= be16(n));
}

proof fn lemma_be32(n: nat, rest: Seq<u8>)
    requires
        n <= MAX_LEN,
    ensures
        be32(n).len() == 4,
        be32_value(be32(n)) == n,
        (be32(n) + rest).subrange(0, 4) == be32(n),
{
    assert(n / 0x1_0000 < 0x1_0000) by (nonlinear_arith)
        requires
            n <= MAX_LEN,
    ;
    assert(n % 0x1_0000 < 0x1_0000) by (nonlinear_arith);
    assert(n == (n / 0x1_0000) * 0x1_0000 + n % 0x1_0000) by (nonlinear_arith);
    lemma_be16(n / 0x1_0000, Seq::empty());
    lemma_be16(n % 0x1_0000, Seq::empty());
    assert(be32(n).subrange(0, 2) =~= be16(n / 0x1_0000));
    assert(be32(n).subrange(2, 4) =~= be16(n % 0x1_0000));
    assert((be32(n) + rest).subrange(0, 4) =~= be32(n));
}

proof fn lemma_read_array_header(n: nat, rest: Seq<u8>)
    requires
        n <= MAX_LEN,
    ensures
        read_array_header(array_header(n) + rest) == Some((n, rest)),
{
    let b = array_header(n) + rest;
    if n < 16 {
        assert(b.drop_first() =~= rest);
    } else if n < 0x1_0000 {
        lemma_be16(n, rest);
        assert(b.subrange(1, 3) =~= be16(n));
        assert(b.subrange(3, b.len() as int) =~= rest);
    } else {
        lemma_be32(n, rest);
        assert(b.subrange(1, 5) =~= be32(n));
        assert(b.subrange(5, b.len() as int) =~= rest);
    }
}

proof fn lemma_read_str(s: Seq<char>, rest: Seq<u8>)
    requires
        encode_utf8(s).len() <= MAX_LEN,
    ensures
        read_str(packed_str(s) + rest) == Some((encode_utf8(s), rest)),
{
    let e = encode_utf8(s);
    let n = e.len();
    let b = packed_str(s) + rest;
    let after = e + rest;
    if n < 32 {
        assert(b.drop_first() =~= after);
    } else if n < 256 {
        assert(b.subrange(2, b.len() as int) =~= after);
    } else if n < 0x1_0000 {
        lemma_be16(n, after);
        assert(b.subrange(1, 3) =~= be16(n));
        assert(b.subrange(3, b.len() as int) =~= after);
    } else {
        lemma_be32(n, after);
        assert(b.subrange(1, 5) =~= be32(n));
        assert(b.subrange(5, b.len() as int) =~= after);
    }
    assert(read_str_header(b) == Some((n, after)));
    assert(after.subrange(0, n as int) =~= e);
    assert(after.subrange(n as int, after.len() as int) =~= rest);
}

#[verifier::spinoff_prover]
#[verifier::rlimit(40)]
proof fn lemma_read_cell(c: CellModel, rest: Seq<u8>)
    requires
        encode_utf8(c.1).len() <= MAX_LEN,
    ensures
        read_cell(packed_cell(c) + rest) == Some((cell_bytes(c), rest)),
{
    reveal_strlit("name");
    reveal_strlit("content");
    reveal_strlit("th");
    reveal_strlit("td");
    lemma_utf8_len_bound("name"@);
    lemma_utf8_len_bound("content"@);
    lemma_utf8_len_bound(tag_name(c.0));
    let r4 = packed_str(c.1) + rest;
    let r3 = packed_str("content"@) + r4;
    let r2 = packed_str(tag_name(c.0)) + r3;
    let r1 = packed_str("name"@) + r2;
    let b = packed_cell(c) + rest;
    assert(b =~= seq![0x82u8] + r1);
    assert(b.drop_first() =~= r1);
    assert(encode_utf8("name"@).len() <= MAX_LEN);
    assert(encode_utf8("content"@).len() <= MAX_LEN);
    assert(encode_utf8(tag_name(c.0)).len() <= MAX_LEN);
    lemma_read_str("name"@, r2);
    lemma_read_str(tag_name(c.0), r3);
    lemma_read_str("content"@, r4);
    lemma_read_str(c.1, rest);
    assert(read_str(r1) == Some((encode_utf8("name"@), r2)));
    assert(read_str(r2) == Some((encode_utf8(tag_name(c.0)), r3)));
    assert(read_str(r3) == Some((encode_utf8("content"@), r4)));
    assert(read_str(r4) == Some((encode_utf8(c.1), rest)));
}

proof fn lemma_read_cells(r: RowModel, n: nat, rest: Seq<u8>)
    requires
        n <= r.len(),
        forall|j: int| 0 <= j < r.len() ==> encode_utf8(#[trigger] r[j].1).len() <= MAX_LEN,
    ensures
        read_cells(packed_cells(r, n as int) + rest, n) == Some((row_bytes(r).take(n as int), rest)),
    decreases n,
{
    if n == 0 {
        assert(packed_cells(r, 0) + rest =~= rest);
        assert(row_bytes(r).take(0) =~= Seq::<DecodedCell>::empty());
    } else {
        let m = (n - 1) as nat;
        let tail = packed_cell(r[m as int]) + rest;
        assert(packed_cells(r, n as int) + rest =~= packed_cells(r, m as int) + tail);
        lemma_read_cells(r, m, tail);
        assert(encode_utf8(r[m as int].1).len() <= MAX_LEN);
        lemma_read_cell(r[m as int], rest);
        assert(row_bytes(r).take(m as int).push(cell_bytes(r[m as int])) =~= row_bytes(r).take(
            n as int,
        ));
    }
}

proof fn lemma_read_row(r: RowModel, rest: Seq<u8>)
    requires
        r.len() <= MAX_LEN,
        forall|j: int| 0 <= j < r.len() ==> encode_utf8(#[trigger] r[j].1).len() <= MAX_LEN,
    ensures
        read_row(packed_row(r) + rest) == Some((row_bytes(r), rest)),
{
    let body = packed_cells(r, r.len() as int) + rest;
    assert(packed_row(r) + rest =~= array_header(r.len()) + body);
    lemma_read_array_header(r.len(), body);
    lemma_read_cells(r, r.len(), rest);
    assert(row_bytes(r).take(r.len() as int) =~= row_bytes(r));
}

proof fn lemma_read_rows(t: TableModel, n: nat, rest: Seq<u8>)
    requires
        n <= t.len(),
        packable(t),
    ensures
        read_rows(packed_rows(t, n as int) + rest, n) == Some((table_bytes(t).take(n as int), rest)),
    decreases n,
{
    if n == 0 {
        assert(packed_rows(t, 0) + rest =~= rest);
        assert(table_bytes(t).take(0) =~= Seq::<Seq<DecodedCell>>::empty());
    } else {
        let m = (n - 1) as nat;
        let row = t[m as int];
        let tail = packed_row(row) + rest;
        assert(packed_rows(t, n as int) + rest =~= packed_rows(t, m as int) + tail);
        lemma_read_rows(t, m, tail);
        assert(row.len() <= MAX_LEN);
        assert forall|j: int| 0 <= j < row.len() implies encode_utf8(#[trigger] row[j].1).len()
            <= MAX_LEN by {
            assert(encode_utf8(t[m as int][j].1).len() <= MAX_LEN);
        }
        lemma_read_row(row, rest);
        assert(table_bytes(t).take(m as int).push(row_bytes(row)) =~= table_bytes(t).take(n as int));
    }
}

/// Decoding the binary output of a table gives back every row and every
/// cell in order, with its tag name and its text byte for byte; repeated
/// tag names in a row, empty rows and empty texts included.
pub proof fn lemma_binary_round_trip(t: TableModel)
    requires
        packable(t),
    ensures
        decode_table(packed_table(t)) == Some(table_bytes(t)),
{
    let body = packed_rows(t, t.len() as int);
    assert(packed_table(t) == array_header(t.len()) + body);
    lemma_read_array_header(t.len(), body);
    lemma_read_rows(t, t.len(), Seq::empty());
    assert(body + Seq::<u8>::empty() =~= body);
    assert(table_bytes(t).take(t.len() as int) =~= table_bytes(t));
}

} // verus!
