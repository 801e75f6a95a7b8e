use vstd::prelude::*;
use crate::binary::{packable, packed_table, table_to_binary};
use crate::delimited::{csv_text, table_to_csv};
use crate::extract::{extract, found_table};
use crate::flat::{flat_text, table_to_flat, Dialect};
use crate::markup::{markup_text, table_to_markup};
use crate::record::{is_column_sort, json_document, json_not_a_table, records_of, table_to_json};
use crate::table::{ScrapeError, Table, TableModel};

verus! {

/// The output formats.
#[derive(Clone, Copy, Debug, PartialEq, Eq, Structural)]
pub enum Format {
    DelimitedText,
    StructuredRecord,
    Markup,
    FlatToml,
    FlatYaml,
    BinaryMap,
}

/// What a serializer hands back: text, or bytes.
#[derive(Clone, Debug)]
pub enum Output {
    Text(String),
    Bytes(Vec<u8>),
}

/// The structured-record document of a table.
pub open spec fn is_record_document(t: TableModel, s: Seq<char>) -> bool {
    if t.len() == 0 {
        s == json_not_a_table()
    } else {
        exists|cols: Seq<Seq<Seq<char>>>| is_column_sort(t, cols) && s == json_document(records_of(cols))
    }
}

/// `o` is the output of format `f` for table `t`.
pub open spec fn is_output(f: Format, t: TableModel, o: Output) -> bool {
    match (f, o) {
        (Format::DelimitedText, Output::Bytes(b)) => t.len() > 0 && b@ == csv_text(t),
        (Format::StructuredRecord, Output::Text(s)) => is_record_document(t, s@),
        (Format::Markup, Output::Text(s)) => s@ == markup_text(t),
        (Format::FlatToml, Output::Text(s)) => s@ == flat_text(Dialect::Toml, t),
        (Format::FlatYaml, Output::Text(s)) => s@ == flat_text(Dialect::Yaml, t),
        (Format::BinaryMap, Output::Bytes(b)) => b@ == packed_table(t),
        _ => false,
    }
}

/// The errors that format `f` may give for a table it was handed.
pub open spec fn may_fail_with(f: Format, t: TableModel, e: ScrapeError) -> bool {
    match f {
        Format::DelimitedText => e == ScrapeError::EmptyTable && t.len() == 0,
        Format::BinaryMap => e == ScrapeError::Encode && !packable(t),
        _ => false,
    }
}

/// Whether format `f` is owed success on table `t`: delimited text needs a
/// first row, the binary format needs lengths that fit; the others always
/// succeed.
pub open spec fn always_succeeds(f: Format, t: TableModel) -> bool {
    match f {
        Format::DelimitedText => t.len() > 0,
        Format::BinaryMap => packable(t),
        _ => true,
    }
}

/// Serializes the result of an extraction in a format. An extraction that
/// found no table gives `NotFound` in every format but the structured
/// record, which gives its error document instead; other extraction errors
/// pass through.
pub fn serialize(format: Format, extracted: Result<Table, ScrapeError>) -> (r: Result<Output, ScrapeError>)
    ensures
        extracted == Err::<Table, ScrapeError>(ScrapeError::NotFound) ==> if format
            == Format::StructuredRecord {
            r matches Ok(Output::Text(s)) && s@ == json_not_a_table()
        } else {
            r == Err::<Output, ScrapeError>(ScrapeError::NotFound)
        },
        extracted is Err && extracted->Err_0 != ScrapeError::NotFound ==> r == Err::<
            Output,
            ScrapeError,
        >(extracted->Err_0),
        extracted matches Ok(t) ==> match r {
            Ok(o) => is_output(format, t@, o),
            Err(e) => may_fail_with(format, t@, e),
        },
        extracted matches Ok(t) && always_succeeds(format, t@) ==> r is Ok,
{
    let table = match extracted {
        Ok(t) => t,
        Err(ScrapeError::NotFound) => {
            if format == Format::StructuredRecord {
                return Ok(Output::Text(String::from_str("{\"error\":\"Input is not a table\"}")));
            } else {
                return Err(ScrapeError::NotFound);
            }
        },
        Err(e) => return Err(e),
    };
    match format {
        Format::DelimitedText => match table_to_csv(&table) {
            Ok(b) => Ok(Output::Bytes(b)),
            Err(e) => Err(e),
        },
        Format::StructuredRecord => Ok(Output::Text(table_to_json(&table))),
        Format::Markup => Ok(Output::Text(table_to_markup(&table))),
        Format::FlatToml => Ok(Output::Text(table_to_flat(Dialect::Toml, &table))),
        Format::FlatYaml => Ok(Output::Text(table_to_flat(Dialect::Yaml, &table))),
        Format::BinaryMap => match table_to_binary(&table) {
            Ok(b) => Ok(Output::Bytes(b)),
            Err(e) => Err(e),
        },
    }
}

/// The first table of an HTML document as delimited text. Fails with
/// `NotFound` where there is no table, with `EmptyTable` where it has no
/// rows.
pub fn html_to_csv(html: &str) -> (r: Result<Vec<u8>, ScrapeError>)
    ensures
        found_table(html@) is None ==> r == Err::<Vec<u8>, ScrapeError>(ScrapeError::NotFound),
        found_table(html@) matches Some(t) ==> if t.len() == 0 {
            r == Err::<Vec<u8>, ScrapeError>(ScrapeError::EmptyTable)
        } else {
            r matches Ok(b) && b@ == csv_text(t)
        },
{
    let t = extract(html)?;
    table_to_csv(&t)
}

/// The first table of an HTML document as the structured-record document;
/// a document without a table gives the error document. Never fails.
pub fn html_to_json(html: &str) -> (r: Result<String, ScrapeError>)
    ensures
        found_table(html@) is None ==> (r matches Ok(s) && s@ == json_not_a_table()),
        found_table(html@) matches Some(t) ==> (r matches Ok(s) && is_record_document(t, s@)),
{
    match extract(html) {
        Ok(t) => Ok(table_to_json(&t)),
        Err(_) => Ok(String::from_str("{\"error\":\"Input is not a table\"}")),
    }
}

/// The first table of an HTML document as indented markup.
pub fn html_to_xml(html: &str) -> (r: Result<String, ScrapeError>)
    ensures
        found_table(html@) is None ==> r == Err::<String, ScrapeError>(ScrapeError::NotFound),
        found_table(html@) matches Some(t) ==> (r matches Ok(s) && s@ == markup_text(t)),
{
    let t = extract(html)?;
    Ok(table_to_markup(&t))
}

/// The first table of an HTML document in the flat `[]` / `tag = "text"`
/// dialect.
pub fn html_to_toml(html: &str) -> (r: Result<String, ScrapeError>)
    ensures
        found_table(html@) is None ==> r == Err::<String, ScrapeError>(ScrapeError::NotFound),
        found_table(html@) matches Some(t) ==> (r matches Ok(s) && s@ == flat_text(Dialect::Toml, t)),
{
    let t = extract(html)?;
    Ok(table_to_flat(Dialect::Toml, &t))
}

/// The first table of an HTML document in the flat `-` / `tag: "text"`
/// dialect.
pub fn html_to_yaml(html: &str) -> (r: Result<String, ScrapeError>)
    ensures
        found_table(html@) is None ==> r == Err::<String, ScrapeError>(ScrapeError::NotFound),
        found_table(html@) matches Some(t) ==> (r matches Ok(s) && s@ == flat_text(Dialect::Yaml, t)),
{
    let t = extract(html)?;
    Ok(table_to_flat(Dialect::Yaml, &t))
}

/// The first table of an HTML document in the binary map format. Fails with
/// `NotFound` where there is no table, with `Encode` where a count or a text
/// is too long for the format.
pub fn html_to_msgpack(html: &str) -> (r: Result<Vec<u8>, ScrapeError>)
    ensures
        found_table(html@) is None ==> r == Err::<Vec<u8>, ScrapeError>(ScrapeError::NotFound),
        found_table(html@) matches Some(t) ==> if packable(t) {
            r matches Ok(b) && b@ == packed_table(t)
        } else {
            r == Err::<Vec<u8>, ScrapeError>(ScrapeError::Encode)
        },
{
    let t = extract(html)?;
    table_to_binary(&t)
}

} // verus!
