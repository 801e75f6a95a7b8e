use std::collections::HashMap;

use data_scraping::binary::table_to_binary;
use data_scraping::cleanup::remove_unuseful_chars;
use data_scraping::delimited::table_to_csv;
use data_scraping::extract::{cell_from_parts, extract};
use data_scraping::flat::{table_to_flat, Dialect};
use data_scraping::formats::{
    html_to_csv, html_to_json, html_to_msgpack, html_to_toml, html_to_xml, html_to_yaml,
    serialize, Format, Output,
};
use data_scraping::markup::table_to_markup;
use data_scraping::record::{reassemble, records_to_json, sorted_columns, table_to_json};
use data_scraping::table::{Cell, CellTag, Row, ScrapeError, Table};

const TWO_BY_TWO: &str =
    "<table><tr><th>A</th><th>B</th></tr><tr><td>2</td><td>1</td></tr></table>";

fn cell(tag: CellTag, text: &str) -> Cell {
    Cell::new(tag, text.to_string())
}

fn table(rows: Vec<Vec<Cell>>) -> Table {
    Table::new(rows.into_iter().map(Row::new).collect())
}

fn shape(t: &Table) -> Vec<Vec<(CellTag, String)>> {
    t.rows
        .iter()
        .map(|r| r.cells.iter().map(|c| (c.tag, c.text.clone())).collect())
        .collect()
}

#[test]
fn extract_reads_tags_and_text_in_order() {
    let t = extract(TWO_BY_TWO).unwrap();
    assert_eq!(
        shape(&t),
        vec![
            vec![(CellTag::Header, "A".to_string()), (CellTag::Header, "B".to_string())],
            vec![(CellTag::Data, "2".to_string()), (CellTag::Data, "1".to_string())],
        ]
    );
}

#[test]
fn extract_flattens_nested_text_and_unescapes() {
    let t = extract("<table><tr><td>a<b>b</b>c &amp; d</td></tr></table>").unwrap();
    assert_eq!(shape(&t), vec![vec![(CellTag::Data, "abc & d".to_string())]]);
}

#[test]
fn extract_takes_only_the_first_table() {
    let t = extract("<table><tr><td>x</td></tr></table><table><tr><td>y</td></tr></table>")
        .unwrap();
    assert_eq!(shape(&t), vec![vec![(CellTag::Data, "x".to_string())]]);
}

#[test]
fn cell_from_parts_names() {
    assert_eq!(cell_from_parts("th".to_string(), "x".to_string()).tag, CellTag::Header);
    assert_eq!(cell_from_parts("td".to_string(), "x".to_string()).tag, CellTag::Data);
}

#[test]
fn no_table_fails_everywhere_but_records() {
    let html = "<p>no table here</p>";
    assert!(matches!(extract(html), Err(ScrapeError::NotFound)));
    assert_eq!(html_to_csv(html), Err(ScrapeError::NotFound));
    assert_eq!(html_to_xml(html), Err(ScrapeError::NotFound));
    assert_eq!(html_to_toml(html), Err(ScrapeError::NotFound));
    assert_eq!(html_to_yaml(html), Err(ScrapeError::NotFound));
    assert_eq!(html_to_msgpack(html), Err(ScrapeError::NotFound));
    assert_eq!(html_to_json(html).unwrap(), "{\"error\":\"Input is not a table\"}");
    for f in [
        Format::DelimitedText,
        Format::Markup,
        Format::FlatToml,
        Format::FlatYaml,
        Format::BinaryMap,
    ] {
        assert!(matches!(serialize(f, extract(html)), Err(ScrapeError::NotFound)));
    }
    match serialize(Format::StructuredRecord, extract(html)) {
        Ok(Output::Text(s)) => assert_eq!(s, "{\"error\":\"Input is not a table\"}"),
        other => panic!("unexpected {:?}", other),
    }
}

#[test]
fn serialize_passes_parse_errors_through() {
    assert!(matches!(
        serialize(Format::Markup, Err(ScrapeError::Parse)),
        Err(ScrapeError::Parse)
    ));
}

#[test]
fn scenario_two_by_two_csv() {
    let out = html_to_csv(TWO_BY_TWO).unwrap();
    assert_eq!(String::from_utf8(out).unwrap(), "A,B\n2,1\n");
}

#[test]
fn scenario_two_by_two_records() {
    let out = html_to_json(TWO_BY_TWO).unwrap();
    assert_eq!(
        out,
        "{\"type\":\"table\",\"data\":[{\"col_0\":\"2\",\"col_1\":\"1\"},{\"col_0\":\"A\",\"col_1\":\"B\"}]}"
    );
    let v: serde_json::Value = serde_json::from_str(&out).unwrap();
    assert_eq!(v["data"][0]["col_0"], "2");
    assert_eq!(v["data"][1]["col_1"], "B");
}

#[test]
fn csv_records_keep_their_own_lengths() {
    let t = table(vec![
        vec![cell(CellTag::Header, "h")],
        vec![cell(CellTag::Data, "b"), cell(CellTag::Data, "c,d")],
        vec![],
        vec![cell(CellTag::Data, "say \"hi\""), cell(CellTag::Data, ""), cell(CellTag::Data, "z")],
    ]);
    let out = String::from_utf8(table_to_csv(&t).unwrap()).unwrap();
    assert_eq!(out, "h\nb,\"c,d\"\n\"\"\n\"say \"\"hi\"\"\",,z\n");
}

#[test]
fn empty_table_scenario() {
    let html = "<table></table>";
    assert_eq!(html_to_csv(html), Err(ScrapeError::EmptyTable));
    assert_eq!(html_to_xml(html).unwrap(), "<table></table>");
    assert_eq!(html_to_msgpack(html).unwrap(), vec![0x90u8]);
    assert_eq!(html_to_toml(html).unwrap(), "");
    assert_eq!(html_to_yaml(html).unwrap(), "");
    assert_eq!(html_to_json(html).unwrap(), "{\"error\":\"Input is not a table\"}");
}

#[test]
fn markup_layout_and_escaping() {
    let t = table(vec![
        vec![cell(CellTag::Header, "a<b&c>")],
        vec![],
    ]);
    assert_eq!(
        table_to_markup(&t),
        "<table>\n  <tr>\n    <th>a&lt;b&amp;c&gt;</th>\n  </tr>\n  <tr></tr>\n</table>"
    );
}

#[test]
fn markup_round_trip_through_extraction() {
    let html = "<table><tr><th>x &amp; y</th><td>1 &lt; 2</td></tr><tr><td></td><td>b</td><th>c</th></tr></table>";
    let t = extract(html).unwrap();
    let markup = table_to_markup(&t);
    let again = extract(&markup).unwrap();
    assert_eq!(shape(&again), shape(&t));
}

#[test]
fn flat_dialects_keep_duplicate_keys() {
    let t = table(vec![
        vec![cell(CellTag::Header, "A"), cell(CellTag::Header, "B")],
        vec![cell(CellTag::Data, "1"), cell(CellTag::Data, "q\"x")],
    ]);
    assert_eq!(
        table_to_flat(Dialect::Toml, &t),
        "[]\nth = \"A\"\nth = \"B\"\n[]\ntd = \"1\"\ntd = \"q\"x\"\n"
    );
    assert_eq!(
        table_to_flat(Dialect::Yaml, &t),
        "-\nth: \"A\"\nth: \"B\"\n-\ntd: \"1\"\ntd: \"q\"x\"\n"
    );
}

#[test]
fn binary_round_trip_with_a_decoder() {
    let t = table(vec![
        vec![cell(CellTag::Header, "A"), cell(CellTag::Header, "A")],
        vec![],
        vec![cell(CellTag::Data, ""), cell(CellTag::Data, "héllo")],
    ]);
    let bytes = table_to_binary(&t).unwrap();
    let decoded: Vec<Vec<HashMap<String, String>>> = rmp_serde::from_slice(&bytes).unwrap();
    let expected: Vec<Vec<HashMap<String, String>>> = shape(&t)
        .into_iter()
        .map(|r| {
            r.into_iter()
                .map(|(tag, text)| {
                    let mut m = HashMap::new();
                    m.insert("name".to_string(), tag.name().to_string());
                    m.insert("content".to_string(), text);
                    m
                })
                .collect()
        })
        .collect();
    assert_eq!(decoded, expected);
}

#[test]
fn binary_exact_bytes() {
    let t = table(vec![vec![cell(CellTag::Data, "x")]]);
    let mut expected = vec![0x91u8, 0x91, 0x82, 0xa4];
    expected.extend_from_slice(b"name");
    expected.extend_from_slice(&[0xa2]);
    expected.extend_from_slice(b"td");
    expected.extend_from_slice(&[0xa7]);
    expected.extend_from_slice(b"content");
    expected.extend_from_slice(&[0xa1, b'x']);
    assert_eq!(table_to_binary(&t).unwrap(), expected);
}

#[test]
fn binary_long_lengths_use_wider_headers() {
    let long = "y".repeat(300);
    let row: Vec<Cell> = (0..20).map(|_| cell(CellTag::Data, "")).collect();
    let t = table(vec![row, vec![cell(CellTag::Data, &long)]]);
    let bytes = table_to_binary(&t).unwrap();
    assert_eq!(&bytes[0..4], &[0x92, 0xdc, 0x00, 0x14]);
    let decoded: Vec<Vec<HashMap<String, String>>> = rmp_serde::from_slice(&bytes).unwrap();
    assert_eq!(decoded[0].len(), 20);
    assert_eq!(decoded[1][0]["content"], long);
}

#[test]
fn record_columns_are_sorted_on_their_own() {
    let t = table(vec![
        vec![cell(CellTag::Data, "b"), cell(CellTag::Data, "z")],
        vec![cell(CellTag::Data, "c"), cell(CellTag::Data, "x")],
        vec![cell(CellTag::Data, "a"), cell(CellTag::Data, "y")],
    ]);
    let cols = sorted_columns(&t);
    assert_eq!(cols, vec![vec!["a", "b", "c"], vec!["x", "y", "z"]]);
    let recs = reassemble(&cols);
    assert_eq!(recs, vec![vec!["a", "x"], vec!["b", "y"], vec!["c", "z"]]);
    let out = table_to_json(&t);
    let v: serde_json::Value = serde_json::from_str(&out).unwrap();
    for k in 0..2 {
        let key = format!("col_{}", k);
        let col: Vec<String> =
            (0..3).map(|i| v["data"][i][&key].as_str().unwrap().to_string()).collect();
        let mut sorted = col.clone();
        sorted.sort();
        assert_eq!(col, sorted);
    }
}

#[test]
fn records_pad_short_columns_with_empty_text() {
    let t = table(vec![
        vec![cell(CellTag::Data, "b"), cell(CellTag::Data, "q")],
        vec![cell(CellTag::Data, "a")],
    ]);
    let recs = reassemble(&sorted_columns(&t));
    assert_eq!(recs, vec![vec!["a", "q"], vec!["b", ""]]);
}

#[test]
fn records_quote_and_number_columns() {
    let row: Vec<Cell> = (0..11).map(|i| cell(CellTag::Data, &format!("v{}", i))).collect();
    let t = table(vec![row]);
    let out = table_to_json(&t);
    assert!(out.contains("\"col_10\":\"v10\""));
    let recs = vec![vec!["a\"b\n".to_string()]];
    assert_eq!(
        records_to_json(&recs),
        "{\"type\":\"table\",\"data\":[{\"col_0\":\"a\\\"b\\n\"}]}"
    );
}

#[test]
fn records_of_empty_rows_have_no_data() {
    let t = table(vec![vec![], vec![]]);
    assert_eq!(table_to_json(&t), "{\"type\":\"table\",\"data\":[]}");
}

#[test]
fn cleanup_collapses_whitespace_and_blocks() {
    let out = remove_unuseful_chars("a\n\tb {x: 1}  c\rd");
    assert_eq!(out, "a b c d");
}

#[test]
fn cleanup_removes_hover_runs() {
    let out = remove_unuseful_chars("<p>x</p> css.a:hover <td>y</td>");
    assert_eq!(out, "<p>x</p> <td>y</td>");
}

#[test]
fn table_from_parts_maps_names_to_tags() {
    let rows = vec![vec![
        ("th".to_string(), "h".to_string()),
        ("td".to_string(), "d".to_string()),
    ]];
    let t = data_scraping::extract::table_from_parts(&rows);
    assert_eq!(
        shape(&t),
        vec![vec![(CellTag::Header, "h".to_string()), (CellTag::Data, "d".to_string())]]
    );
}
