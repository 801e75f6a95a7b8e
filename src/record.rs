use vstd::prelude::*;
use vstd::relations::sorted_by;
use crate::table::{Table, TableModel};

verus! {

/// Lexicographic order on texts, character by character, by code point.
pub open spec fn str_le(a: Seq<char>, b: Seq<char>) -> bool
    decreases a.len(),
{
    if a.len() == 0 {
        true
    } else if b.len() == 0 {
        false
    } else if a[0] < b[0] {
        true
    } else if a[0] > b[0] {
        false
    } else {
        str_le(a.drop_first(), b.drop_first())
    }
}

/// [`str_le`] as a relation.
pub open spec fn text_order() -> spec_fn(Seq<char>, Seq<char>) -> bool {
    |a: Seq<char>, b: Seq<char>| str_le(a, b)
}

/// Relies on slice::sort for `String`: the result is a permutation of the
/// input in ascending order. `String` orders by UTF-8 bytes, which is the
/// code point order of the characters.
#[verifier::external_body]
fn sort_texts(v: &mut Vec<String>)
    ensures
        final(v).deep_view().to_multiset() == old(v).deep_view().to_multiset(),
        sorted_by(final(v).deep_view(), text_order()),
{
    v.sort();
}

/// The texts at column `k` of the first `n` rows, in row order; a row with
/// no cell at `k` gives none.
pub open spec fn column_raw(t: TableModel, k: int, n: int) -> Seq<Seq<char>>
    decreases n,
{
    if n <= 0 {
        Seq::empty()
    } else {
        column_raw(t, k, n - 1) + if 0 <= k < t[n - 1].len() {
            seq![t[n - 1][k].1]
        } else {
            Seq::empty()
        }
    }
}

/// The largest cell count among the first `n` rows.
pub open spec fn width(t: TableModel, n: int) -> nat
    decreases n,
{
    if n <= 0 {
        0
    } else if width(t, n - 1) >= t[n - 1].len() {
        width(t, n - 1)
    } else {
        t[n - 1].len()
    }
}

/// `cols` holds, for each column index of the table, that column's texts
/// sorted ascending.
pub open spec fn is_column_sort(t: TableModel, cols: Seq<Seq<Seq<char>>>) -> bool {
    &&& cols.len() == width(t, t.len() as int)
    &&& forall|k: int|
        0 <= k < cols.len() ==> {
            &&& #[trigger] cols[k].to_multiset() == column_raw(t, k, t.len() as int).to_multiset()
            &&& sorted_by(cols[k], text_order())
        }
}

/// The length of the longest of the first `n` columns.
pub open spec fn max_len(cols: Seq<Seq<Seq<char>>>, n: int) -> nat
    decreases n,
{
    if n <= 0 {
        0
    } else if max_len(cols, n - 1) >= cols[n - 1].len() {
        max_len(cols, n - 1)
    } else {
        cols[n - 1].len()
    }
}

/// The value of output record `i` at column `k`: the `i`-th sorted entry, or
/// empty text where the column is shorter.
pub open spec fn record_value(cols: Seq<Seq<Seq<char>>>, i: int, k: int) -> Seq<char> {
    if i < cols[k].len() {
        cols[k][i]
    } else {
        Seq::empty()
    }
}

/// The output records: record `i` pairs the `i`-th entries of all columns.
pub open spec fn records_of(cols: Seq<Seq<Seq<char>>>) -> Seq<Seq<Seq<char>>> {
    Seq::new(
        max_len(cols, cols.len() as int),
        |i: int| Seq::new(cols.len(), |k: int| record_value(cols, i, k)),
    )
}

fn column_at(table: &Table, k: usize) -> (r: Vec<String>)
    ensures
        r.deep_view() == column_raw(table@, k as int, table@.len() as int),
{
    let mut col: Vec<String> = Vec::new();
    let mut i: usize = 0;
    while i < table.rows.len()
        invariant
            i <= table.rows@.len(),
            col.deep_view() == column_raw(table@, k as int, i as int),
        decreases table.rows@.len() - i,
    {
        let ghost before = col.deep_view();
        if k < table.rows[i].cells.len() {
            col.push(table.rows[i].cells[k].text.clone());
            assert(col.deep_view() =~= before + seq![table@[i as int][k as int].1]);
        } else {
            assert(col.deep_view() =~= before + Seq::<Seq<char>>::empty());
        }
        i = i + 1;
    }
    col
}

fn table_width(table: &Table) -> (r: usize)
    ensures
        r == width(table@, table@.len() as int),
{
    let mut w: usize = 0;
    let mut i: usize = 0;
    while i < table.rows.len()
        invariant
            i <= table.rows@.len(),
            w == width(table@, i as int),
        decreases table.rows@.len() - i,
    {
        if w < table.rows[i].cells.len() {
            w = table.rows[i].cells.len();
        }
        i = i + 1;
    }
    w
}

/// Two texts that are each at most the other are equal.
pub proof fn lemma_str_le_antisymmetric(a: Seq<char>, b: Seq<char>)
    requires
        str_le(a, b),
        str_le(b, a),
    ensures
        a == b,
    decreases a.len(),
{
    if a.len() == 0 {
        assert(a =~= b);
    } else {
        assert(b.len() > 0);
        assert(a[0] == b[0]);
        lemma_str_le_antisymmetric(a.drop_first(), b.drop_first());
        assert(a =~= seq![a[0]] + a.drop_first());
        assert(b =~= seq![b[0]] + b.drop_first());
    }
}

/// Two sequences of texts, each sorted ascending, with the same entries
/// counted with multiplicity, are equal.
pub proof fn lemma_sorted_unique(a: Seq<Seq<char>>, b: Seq<Seq<char>>)
    requires
        sorted_by(a, text_order()),
        sorted_by(b, text_order()),
        a.to_multiset() == b.to_multiset(),
    ensures
        a == b,
    decreases a.len(),
{
    broadcast use vstd::seq_lib::group_to_multiset_ensures;
    vstd::seq_lib::to_multiset_len(a);
    vstd::seq_lib::to_multiset_len(b);
    if a.len() > 0 {
        assert(b.to_multiset().count(a[0]) > 0);
        assert(b.contains(a[0]));
        let j = choose|j: int| 0 <= j < b.len() && b[j] == a[0];
        assert(a.to_multiset().count(b[0]) > 0);
        assert(a.contains(b[0]));
        let i = choose|i: int| 0 <= i < a.len() && a[i] == b[0];
        assert(str_le(a[0], b[0])) by {
            if i > 0 {
                assert((text_order())(a[0], a[i]));
            } else {
                assert(str_le(a[0], a[0])) by {
                    lemma_str_le_reflexive(a[0]);
                }
            }
        }
        assert(str_le(b[0], a[0])) by {
            if j > 0 {
                assert((text_order())(b[0], b[j]));
            } else {
                lemma_str_le_reflexive(b[0]);
            }
        }
        lemma_str_le_antisymmetric(a[0], b[0]);
        assert(a.remove(0) =~= a.drop_first());
        assert(b.remove(0) =~= b.drop_first());
        assert(sorted_by(a.drop_first(), text_order())) by {
            assert forall|p: int, q: int| 0 <= p < q < a.drop_first().len() implies #[trigger] (
            text_order())(a.drop_first()[p], a.drop_first()[q]) by {
                assert((text_order())(a[p + 1], a[q + 1]));
            }
        }
        assert(sorted_by(b.drop_first(), text_order())) by {
            assert forall|p: int, q: int| 0 <= p < q < b.drop_first().len() implies #[trigger] (
            text_order())(b.drop_first()[p], b.drop_first()[q]) by {
                assert((text_order())(b[p + 1], b[q + 1]));
            }
        }
        lemma_sorted_unique(a.drop_first(), b.drop_first());
        assert(a =~= seq![a[0]] + a.drop_first());
        assert(b =~= seq![b[0]] + b.drop_first());
    }
}

/// Every text is at most itself.
pub proof fn lemma_str_le_reflexive(a: Seq<char>)
    ensures
        str_le(a, a),
    decreases a.len(),
{
    if a.len() > 0 {
        lemma_str_le_reflexive(a.drop_first());
    }
}

/// The sorted columns of a table are determined by the table: the column
/// transform has exactly one result.
pub proof fn lemma_column_sort_unique(t: TableModel, c1: Seq<Seq<Seq<char>>>, c2: Seq<Seq<Seq<char>>>)
    requires
        is_column_sort(t, c1),
        is_column_sort(t, c2),
    ensures
        c1 == c2,
{
    assert forall|k: int| 0 <= k < c1.len() implies #[trigger] c1[k] == c2[k] by {
        assert(c1[k].to_multiset() == column_raw(t, k, t.len() as int).to_multiset());
        assert(c2[k].to_multiset() == column_raw(t, k, t.len() as int).to_multiset());
        lemma_sorted_unique(c1[k], c2[k]);
    }
    assert(c1 =~= c2);
}

/// For each column index, the texts of that column over all rows, sorted
/// ascending on their own: the column transform, which does not keep rows
/// together.
pub fn sorted_columns(table: &Table) -> (r: Vec<Vec<String>>)
    ensures
        is_column_sort(table@, r.deep_view()),
{
    let w = table_width(table);
    let mut cols: Vec<Vec<String>> = Vec::new();
    let mut k: usize = 0;
    while k < w
        invariant
            k <= w,
            w == width(table@, table@.len() as int),
            cols@.len() == k,
            forall|j: int|
                0 <= j < k ==> {
                    &&& #[trigger] cols@[j].deep_view().to_multiset() == column_raw(
                        table@,
                        j,
                        table@.len() as int,
                    ).to_multiset()
                    &&& sorted_by(cols@[j].deep_view(), text_order())
                },
        decreases w - k,
    {
        let mut col = column_at(table, k);
        sort_texts(&mut col);
        let ghost prev = cols@;
        let ghost sorted = col.deep_view();
        cols.push(col);
        assert forall|j: int| 0 <= j <= k implies {
            &&& #[trigger] cols@[j].deep_view().to_multiset() == column_raw(
                table@,
                j,
                table@.len() as int,
            ).to_multiset()
            &&& sorted_by(cols@[j].deep_view(), text_order())
        } by {
            if j < k {
                assert(cols@[j] == prev[j]);
            } else {
                assert(cols@[j].deep_view() == sorted);
            }
        }
        k = k + 1;
    }
    let ghost dv = cols.deep_view();
    assert forall|j: int| 0 <= j < dv.len() implies {
        &&& #[trigger] dv[j].to_multiset() == column_raw(table@, j, table@.len() as int).to_multiset()
        &&& sorted_by(dv[j], text_order())
    } by {
        assert(dv[j] == cols@[j].deep_view());
    }
    cols
}


fn max_column_len(cols: &Vec<Vec<String>>) -> (r: usize)
    ensures
        r == max_len(cols.deep_view(), cols@.len() as int),
{
    let ghost dv = cols.deep_view();
    let mut m: usize = 0;
    let mut k: usize = 0;
    while k < cols.len()
        invariant
            k <= cols@.len(),
            dv == cols.deep_view(),
            m == max_len(dv, k as int),
        decreases cols@.len() - k,
    {
        assert(dv[k as int].len() == cols@[k as int]@.len());
        if m < cols[k].len() {
            m = cols[k].len();
        }
        k = k + 1;
    }
    m
}

/// Pairs the `i`-th entries of all columns into record `i`, for `i` up to
/// the longest column's length; a shorter column gives empty text.
pub fn reassemble(cols: &Vec<Vec<String>>) -> (r: Vec<Vec<String>>)
    ensures
        r.deep_view() == records_of(cols.deep_view()),
{
    let ghost dv = cols.deep_view();
    let n = max_column_len(cols);
    let mut recs: Vec<Vec<String>> = Vec::new();
    let mut i: usize = 0;
    while i < n
        invariant
            i <= n,
            dv == cols.deep_view(),
            n == max_len(dv, dv.len() as int),
            recs@.len() == i,
            forall|j: int|
                0 <= j < i ==> #[trigger] recs@[j].deep_view() == Seq::new(
                    dv.len(),
                    |k: int| record_value(dv, j, k),
                ),
        decreases n - i,
    {
        let mut rec: Vec<String> = Vec::new();
        let mut k: usize = 0;
        while k < cols.len()
            invariant
                k <= cols@.len(),
                dv == cols.deep_view(),
                rec@.len() == k,
                forall|q: int| 0 <= q < k ==> #[trigger] rec@[q]@ == record_value(dv, i as int, q),
            decreases cols@.len() - k,
        {
            assert(dv[k as int] == cols@[k as int].deep_view());
            if i < cols[k].len() {
                rec.push(cols[k][i].clone());
            } else {
                rec.push(String::new());
            }
            k = k + 1;
        }
        assert(rec.deep_view() =~= Seq::new(dv.len(), |k: int| record_value(dv, i as int, k)));
        recs.push(rec);
        i = i + 1;
    }
    assert(recs.deep_view() =~= records_of(dv)) by {
        assert forall|j: int| 0 <= j < n implies #[trigger] recs.deep_view()[j] == records_of(dv)[j] by {
            assert(recs.deep_view()[j] == recs@[j].deep_view());
        }
    }
    recs
}

/// Every column's length is at most the longest column's length.
proof fn lemma_max_len_bounds(cols: Seq<Seq<Seq<char>>>, n: int, k: int)
    requires
        0 <= k < n <= cols.len(),
    ensures
        cols[k].len() <= max_len(cols, n),
    decreases n,
{
    if k < n - 1 {
        lemma_max_len_bounds(cols, n - 1, k);
    }
}

/// In the output records, the values at each column index come in ascending
/// order from one record to the next, as far as that column has entries;
/// the records after that hold empty text there.
pub proof fn lemma_record_columns_sorted(t: TableModel, cols: Seq<Seq<Seq<char>>>)
    requires
        is_column_sort(t, cols),
    ensures
        forall|k: int| 0 <= k < cols.len() ==> #[trigger] cols[k].len() <= records_of(cols).len(),
        forall|k: int, i: int, j: int|
            #![trigger records_of(cols)[i][k], records_of(cols)[j][k]]
            0 <= k < cols.len() && 0 <= i < j < cols[k].len() ==> str_le(
                records_of(cols)[i][k],
                records_of(cols)[j][k],
            ),
        forall|k: int, i: int|
            0 <= k < cols.len() && cols[k].len() <= i < records_of(cols).len() ==> (
            #[trigger] records_of(cols)[i][k]).len() == 0,
{
    assert forall|k: int| 0 <= k < cols.len() implies #[trigger] cols[k].len() <= records_of(
        cols,
    ).len() by {
        lemma_max_len_bounds(cols, cols.len() as int, k);
    }
    assert forall|k: int, i: int, j: int|
        #![trigger records_of(cols)[i][k], records_of(cols)[j][k]]
        0 <= k < cols.len() && 0 <= i < j < cols[k].len() implies str_le(records_of(cols)[i][k], records_of(cols)[j][k]) by {
        lemma_max_len_bounds(cols, cols.len() as int, k);
        assert(cols[k].to_multiset() == column_raw(t, k, t.len() as int).to_multiset());
        assert(sorted_by(cols[k], text_order()));
        assert((text_order())(cols[k][i], cols[k][j]));
        assert(str_le(cols[k][i], cols[k][j]));
        assert(records_of(cols)[i][k] == cols[k][i]);
        assert(records_of(cols)[j][k] == cols[k][j]);
    }
}


/// A lowercase hexadecimal digit.
pub open spec fn hex_digit(d: nat) -> char {
    if d < 10 {
        digit_char(d)
    } else if d == 10 {
        'a'
    } else if d == 11 {
        'b'
    } else if d == 12 {
        'c'
    } else if d == 13 {
        'd'
    } else if d == 14 {
        'e'
    } else {
        'f'
    }
}

/// One character inside a JSON string as serde_json writes it: a quote and
/// a backslash escaped by a backslash, the control characters below U+0020
/// as the short escapes b, t, n, f, r or as u00 and two lowercase hex
/// digits, every other character as itself.
pub open spec fn json_escaped_char(c: char) -> Seq<char> {
    if c == '"' {
        seq!['\\', '"']
    } else if c == '\\' {
        seq!['\\', '\\']
    } else if c == '\u{8}' {
        seq!['\\', 'b']
    } else if c == '\t' {
        seq!['\\', 't']
    } else if c == '\n' {
        seq!['\\', 'n']
    } else if c == '\u{c}' {
        seq!['\\', 'f']
    } else if c == '\r' {
        seq!['\\', 'r']
    } else if (c as u32) < 0x20 {
        seq!['\\', 'u', '0', '0', hex_digit((c as u32 / 16) as nat), hex_digit((c as u32 % 16) as nat)]
    } else {
        seq![c]
    }
}

pub open spec fn json_escaped(s: Seq<char>) -> Seq<char>
    decreases s.len(),
{
    if s.len() == 0 {
        Seq::empty()
    } else {
        json_escaped_char(s[0]) + json_escaped(s.drop_first())
    }
}

/// The JSON string literal of a text: quotes around its escaped characters.
pub open spec fn json_quoted(s: Seq<char>) -> Seq<char> {
    seq!['"'] + json_escaped(s) + seq!['"']
}

/// Relies on serde_json::to_string on a `str`: the JSON string literal of
/// the text. Serialising a `str` into memory cannot fail, so `None` does not
/// come.
#[verifier::external_body]
fn quote_json(s: &str) -> (r: Option<String>)
    ensures
        r is Some,
        r matches Some(q) ==> q@ == json_quoted(s@),
{
    serde_json::to_string(s).ok()
}

pub open spec fn digit_char(d: nat) -> char {
    if d == 0 {
        '0'
    } else if d == 1 {
        '1'
    } else if d == 2 {
        '2'
    } else if d == 3 {
        '3'
    } else if d == 4 {
        '4'
    } else if d == 5 {
        '5'
    } else if d == 6 {
        '6'
    } else if d == 7 {
        '7'
    } else if d == 8 {
        '8'
    } else {
        '9'
    }
}

/// The decimal digits of a number, without leading zeros.
pub open spec fn decimal(n: nat) -> Seq<char>
    decreases n,
{
    if n < 10 {
        seq![digit_char(n)]
    } else {
        decimal(n / 10) + seq![digit_char(n % 10)]
    }
}

fn digit_text(d: usize) -> (r: &'static str)
    requires
        d < 10,
    ensures
        r@ == seq![digit_char(d as nat)],
{
    proof {
        reveal_strlit("0");
        reveal_strlit("1");
        reveal_strlit("2");
        reveal_strlit("3");
        reveal_strlit("4");
        reveal_strlit("5");
        reveal_strlit("6");
        reveal_strlit("7");
        reveal_strlit("8");
        reveal_strlit("9");
    }
    let r = if d == 0 {
        "0"
    } else if d == 1 {
        "1"
    } else if d == 2 {
        "2"
    } else if d == 3 {
        "3"
    } else if d == 4 {
        "4"
    } else if d == 5 {
        "5"
    } else if d == 6 {
        "6"
    } else if d == 7 {
        "7"
    } else if d == 8 {
        "8"
    } else {
        "9"
    };
    assert(r@ =~= seq![digit_char(d as nat)]);
    r
}

fn decimal_text(n: usize) -> (r: String)
    ensures
        r@ == decimal(n as nat),
    decreases n,
{
    if n < 10 {
        String::from_str(digit_text(n))
    } else {
        let mut s = decimal_text(n / 10);
        s.append(digit_text(n % 10));
        s
    }
}

/// One member of an output record: `"col_<k>":` and the quoted value.
pub open spec fn json_member(k: nat, v: Seq<char>) -> Seq<char> {
    "\"col_"@ + decimal(k) + "\":"@ + json_quoted(v)
}

pub open spec fn json_members(rec: Seq<Seq<char>>, n: int) -> Seq<char>
    decreases n,
{
    if n <= 0 {
        Seq::empty()
    } else if n == 1 {
        json_member(0, rec[0])
    } else {
        json_members(rec, n - 1) + ","@ + json_member((n - 1) as nat, rec[n - 1])
    }
}

/// An output record as a JSON object, members in column order.
pub open spec fn json_object(rec: Seq<Seq<char>>) -> Seq<char> {
    "{"@ + json_members(rec, rec.len() as int) + "}"@
}

pub open spec fn json_objects(recs: Seq<Seq<Seq<char>>>, n: int) -> Seq<char>
    decreases n,
{
    if n <= 0 {
        Seq::empty()
    } else if n == 1 {
        json_object(recs[0])
    } else {
        json_objects(recs, n - 1) + ","@ + json_object(recs[n - 1])
    }
}

/// The document for a table: its type, and its output records as data.
pub open spec fn json_document(recs: Seq<Seq<Seq<char>>>) -> Seq<char> {
    "{\"type\":\"table\",\"data\":["@ + json_objects(recs, recs.len() as int) + "]}"@
}

/// The document given in place of a table that has no rows.
pub open spec fn json_not_a_table() -> Seq<char> {
    "{\"error\":\"Input is not a table\"}"@
}

fn write_object(rec: &Vec<String>, out: &mut String)
    ensures
        final(out)@ == old(out)@ + json_object(rec.deep_view()),
{
    let ghost dv = rec.deep_view();
    out.append("{");
    let ghost start = out@;
    let mut k: usize = 0;
    while k < rec.len()
        invariant
            k <= rec@.len(),
            dv == rec.deep_view(),
            out@ == start + json_members(dv, k as int),
        decreases rec@.len() - k,
    {
        if k > 0 {
            out.append(",");
        }
        out.append("\"col_");
        let digits = decimal_text(k);
        out.append(digits.as_str());
        out.append("\":");
        let q = quote_json(rec[k].as_str()).unwrap();
        out.append(q.as_str());
        assert(dv[k as int] == rec@[k as int]@);
        k = k + 1;
    }
    out.append("}");
}

/// Writes output records as the structured-record document.
pub fn records_to_json(recs: &Vec<Vec<String>>) -> (r: String)
    ensures
        r@ == json_document(recs.deep_view()),
{
    let ghost dv = recs.deep_view();
    let mut out = String::from_str("{\"type\":\"table\",\"data\":[");
    let ghost start = out@;
    let mut i: usize = 0;
    while i < recs.len()
        invariant
            i <= recs@.len(),
            dv == recs.deep_view(),
            out@ == start + json_objects(dv, i as int),
        decreases recs@.len() - i,
    {
        if i > 0 {
            out.append(",");
        }
        assert(dv[i as int] == recs@[i as int].deep_view());
        write_object(&recs[i], &mut out);
        i = i + 1;
    }
    out.append("]}");
    out
}

/// Writes a table as the structured-record document: the column transform,
/// then one object for each output record. A table without rows gives the
/// error document. The sorted columns, and so the document, are determined
/// by the table (see [`lemma_column_sort_unique`]).
pub fn table_to_json(table: &Table) -> (r: String)
    ensures
        table@.len() == 0 ==> r@ == json_not_a_table(),
        table@.len() > 0 ==> exists|cols: Seq<Seq<Seq<char>>>|
            is_column_sort(table@, cols) && r@ == json_document(records_of(cols)),
{
    if table.rows.len() == 0 {
        return String::from_str("{\"error\":\"Input is not a table\"}");
    }
    let cols = sorted_columns(table);
    let recs = reassemble(&cols);
    let s = records_to_json(&recs);
    assert(is_column_sort(table@, cols.deep_view()));
    s
}

} // verus!
