//! Assembling the grid that clients read from persisted records.
use vstd::prelude::*;
use crate::types::{Cell, Column, ColumnItem, Grid, Row, RowItem};

verus! {

/// The row clients see for a persisted row.
pub open spec fn row_view(r: RowItem) -> Row {
    Row { id: r.id, row_index: r.row_index, height: r.height }
}

/// The column clients see for a persisted column.
pub open spec fn column_view(c: ColumnItem) -> Column {
    Column { id: c.id, column_index: c.column_index, width: c.width }
}

/// The grid of one sheet: its rows and columns without their sheet, in the
/// order given, and its cells, already joined with their row and column,
/// as they are.
pub fn create_grid(rows: Vec<RowItem>, cols: Vec<ColumnItem>, cells: Vec<Cell>) -> (r: Grid)
    ensures
        r.rows@ == rows@.map_values(|x: RowItem| row_view(x)),
        r.columns@ == cols@.map_values(|x: ColumnItem| column_view(x)),
        r.cells@ == cells@,
{
    let mut out_rows: Vec<Row> = Vec::with_capacity(rows.len());
    let mut i: usize = 0;
    while i < rows.len()
        invariant
            i <= rows@.len(),
            out_rows@.len() == i,
            forall|j: int| 0 <= j < i ==> #[trigger] out_rows@[j] == row_view(rows@[j]),
        decreases rows@.len() - i,
    {
        let item = rows[i];
        out_rows.push(Row { id: item.id, row_index: item.row_index, height: item.height });
        i = i + 1;
    }
    let mut out_cols: Vec<Column> = Vec::with_capacity(cols.len());
    let mut i: usize = 0;
    while i < cols.len()
        invariant
            i <= cols@.len(),
            out_cols@.len() == i,
            forall|j: int| 0 <= j < i ==> #[trigger] out_cols@[j] == column_view(cols@[j]),
        decreases cols@.len() - i,
    {
        let item = cols[i];
        out_cols.push(Column { id: item.id, column_index: item.column_index, width: item.width });
        i = i + 1;
    }
    assert(out_rows@ =~= rows@.map_values(|x: RowItem| row_view(x)));
    assert(out_cols@ =~= cols@.map_values(|x: ColumnItem| column_view(x)));
    Grid { rows: out_rows, columns: out_cols, cells }
}

} // verus!
