use vstd::prelude::*;

verus! {

/// Whether a cell came from a header (`th`) or a data (`td`) element.
#[derive(Clone, Copy, Debug, PartialEq, Eq, Structural)]
pub enum CellTag {
    Header,
    Data,
}

/// One cell: its tag and its flattened text.
#[derive(Clone, Debug)]
pub struct Cell {
    pub tag: CellTag,
    pub text: String,
}

/// One row: its cells in document order.
#[derive(Clone, Debug)]
pub struct Row {
    pub cells: Vec<Cell>,
}

/// A table: its rows in document order.
#[derive(Clone, Debug)]
pub struct Table {
    pub rows: Vec<Row>,
}

/// What can go wrong while extracting or serialising a table.
#[derive(Clone, Copy, Debug, PartialEq, Eq, Structural)]
pub enum ScrapeError {
    /// The document holds no table element.
    NotFound,
    /// The table has no rows, and the format needs a first row.
    EmptyTable,
    /// The document or a selector could not be parsed.
    Parse,
    /// The format could not encode the table.
    Encode,
}

/// Mathematical model of a cell.
pub type CellModel = (CellTag, Seq<char>);

/// Mathematical model of a row.
pub type RowModel = Seq<CellModel>;

/// Mathematical model of a table.
pub type TableModel = Seq<RowModel>;

impl View for Cell {
    type V = CellModel;

    open spec fn view(&self) -> CellModel {
        (self.tag, self.text@)
    }
}

impl View for Row {
    type V = RowModel;

    open spec fn view(&self) -> RowModel {
        self.cells@.map_values(|c: Cell| c@)
    }
}

impl View for Table {
    type V = TableModel;

    open spec fn view(&self) -> TableModel {
        self.rows@.map_values(|r: Row| r@)
    }
}

/// The element name that a tag stands for.
pub open spec fn tag_name(t: CellTag) -> Seq<char> {
    match t {
        CellTag::Header => "th"@,
        CellTag::Data => "td"@,
    }
}

impl CellTag {
    /// The element name of this tag: `th` or `td`.
    pub fn name(&self) -> (r: &'static str)
        ensures
            r@ == tag_name(*self),
    {
        match self {
            CellTag::Header => "th",
            CellTag::Data => "td",
        }
    }
}

impl Cell {
    pub fn new(tag: CellTag, text: String) -> (r: Cell)
        ensures
            r@ == (tag, text@),
    {
        Cell { tag, text }
    }
}

impl Row {
    pub fn new(cells: Vec<Cell>) -> (r: Row)
        ensures
            r.cells@ == cells@,
    {
        Row { cells }
    }
}

impl Table {
    pub fn new(rows: Vec<Row>) -> (r: Table)
        ensures
            r.rows@ == rows@,
    {
        Table { rows }
    }
}

} // verus!
