use vstd::prelude::*;

verus! {

/// Server settings: the port to listen on and the database to connect to.
pub struct Config {
    pub port: u16,
    pub database_url: String,
}

/// A row of a grid as clients see it.
///
/// `height` is the bit pattern of an IEEE-754 double: the library carries
/// sizes through unchanged and never computes with them.
#[derive(Clone, Copy, Debug, PartialEq, Eq)]
pub struct Row {
    pub id: i64,
    pub row_index: i32,
    pub height: u64,
}

/// A column of a grid as clients see it; `width` is a double's bit pattern.
#[derive(Clone, Copy, Debug, PartialEq, Eq)]
pub struct Column {
    pub id: i64,
    pub column_index: i32,
    pub width: u64,
}

/// A cell joined with the position and size of its row and column.
#[derive(Clone, Debug)]
pub struct Cell {
    pub id: i64,
    pub value: Option<String>,
    pub formula: Option<String>,
    pub row_index: i32,
    pub height: u64,
    pub column_index: i32,
    pub width: u64,
}

/// The nested grid of one sheet.
#[derive(Clone, Debug)]
pub struct Grid {
    pub rows: Vec<Row>,
    pub columns: Vec<Column>,
    pub cells: Vec<Cell>,
}

/// A window over the list of sheets.
#[derive(Clone, Copy, Debug, PartialEq, Eq)]
pub struct Pagination {
    pub start: i64,
    pub limit: i64,
}

/// Number of sheets listed when the request names no limit.
pub fn default_limit() -> (r: i64)
    ensures
        r == 100,
{
    100
}

impl Pagination {
    /// The window used when the request names neither start nor limit.
    pub fn new() -> (r: Pagination)
        ensures
            r.start == 0,
            r.limit == 100,
    {
        Pagination { start: 0, limit: default_limit() }
    }
}

/// A sparse update of one cell.
///
/// Each field has three states: `None` leaves the stored field as it is,
/// `Some(None)` clears it, `Some(Some(v))` sets it to `v`.
#[derive(Clone, Debug)]
pub struct UpdateCellPayload {
    pub value: Option<Option<String>>,
    pub formula: Option<Option<String>>,
}

/// A new name for a sheet.
#[derive(Clone, Debug)]
pub struct UpdateSheetPayload {
    pub name: String,
}

/// A request to create a sheet with a grid of the given size.
#[derive(Clone, Debug)]
pub struct CreateSheetPayload {
    pub name: String,
    pub row_count: i64,
    pub col_count: i64,
}

/// Number of rows of a new sheet when the request names none.
pub fn default_row_count() -> (r: i64)
    ensures
        r == 1000,
{
    1000
}

/// Number of columns of a new sheet when the request names none.
pub fn default_col_count() -> (r: i64)
    ensures
        r == 26,
{
    26
}

impl CreateSheetPayload {
    /// A request for a sheet named `name` of the default size.
    pub fn with_name(name: String) -> (r: CreateSheetPayload)
        ensures
            r.name == name,
            r.row_count == 1000,
            r.col_count == 26,
    {
        CreateSheetPayload { name, row_count: default_row_count(), col_count: default_col_count() }
    }
}

/// A persisted sheet. Timestamps are microseconds since the Unix epoch.
#[derive(Clone, Debug)]
pub struct SheetItem {
    pub id: i64,
    pub name: String,
    pub created_at: i64,
    pub updated_at: i64,
}

/// A persisted row; `height` is a double's bit pattern.
#[derive(Clone, Copy, Debug, PartialEq, Eq)]
pub struct RowItem {
    pub id: i64,
    pub sheet_id: i64,
    pub row_index: i32,
    pub height: u64,
}

/// A persisted column; `width` is a double's bit pattern.
#[derive(Clone, Copy, Debug, PartialEq, Eq)]
pub struct ColumnItem {
    pub id: i64,
    pub sheet_id: i64,
    pub column_index: i32,
    pub width: u64,
}

/// A persisted cell. Timestamps are microseconds since the Unix epoch.
#[derive(Clone, Debug)]
pub struct CellItem {
    pub id: i64,
    pub sheet_id: i64,
    pub row_id: i64,
    pub column_id: i64,
    pub value: Option<String>,
    pub formula: Option<String>,
    pub created_at: i64,
    pub updated_at: i64,
}

} // verus!
