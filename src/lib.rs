//! Extraction of the first HTML table of a document into a row/cell model,
//! and its serialisation into delimited text, structured records, markup,
//! two flat key/value dialects and a binary map encoding.

pub mod table;
pub mod cleanup;
pub mod extract;
pub mod delimited;
pub mod record;
pub mod markup;
pub mod flat;
pub mod binary;
pub mod unpack;
pub mod formats;
