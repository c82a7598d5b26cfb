//! The grid of a new sheet: rows and columns numbered from one, and one
//! empty cell for every (row, column) pair.
use vstd::prelude::*;
use crate::types::{RowItem, ColumnItem, CreateSheetPayload};
use crate::error::AppError;

verus! {

/// Values of a new row or column: its sheet and its 1-based index.
pub type IndexValues = (i64, i32);

/// Values of a new empty cell: its sheet, row and column.
pub type NewCell = (i64, i64, i64);

/// Number of rows or columns a requested count gives; a count below one
/// gives none.
pub open spec fn provisioned_count(count: i64) -> nat {
    if count > 0 {
        count as nat
    } else {
        0
    }
}

/// Accepts a creation request whose counts fit a row or column index;
/// a larger count is a `BadRequest` naming the field.
pub fn check_counts(payload: &CreateSheetPayload) -> (r: Result<(), AppError>)
    ensures
        r is Ok <==> payload.row_count <= i32::MAX && payload.col_count <= i32::MAX,
        r matches Err(e) ==> e is BadRequest,
{
    if payload.row_count <= i32::MAX as i64 && payload.col_count <= i32::MAX as i64 {
        return Ok(());
    }
    let field = if payload.row_count > i32::MAX as i64 { "rowCount" } else { "colCount" };
    let mut errors: Vec<(String, String)> = Vec::new();
    errors.push((String::from_str(field), String::from_str("is too large")));
    Err(AppError::process_bad_request(errors))
}

/// The rows (or columns) to insert for a new sheet: indexes `1..=count`,
/// in order, or none when `count` is not positive.
pub fn index_values(sheet_id: i64, count: i64) -> (r: Vec<IndexValues>)
    requires
        count <= i32::MAX,
    ensures
        r@.len() == provisioned_count(count),
        forall|i: int| 0 <= i < r@.len() ==> #[trigger] r@[i] == (sheet_id, (i + 1) as i32),
{
    let mut out: Vec<IndexValues> = Vec::new();
    let mut i: i32 = 0;
    while (i as i64) < count
        invariant
            count <= i32::MAX,
            0 <= i,
            i <= provisioned_count(count),
            out@.len() == i,
            forall|j: int| 0 <= j < out@.len() ==> #[trigger] out@[j] == (sheet_id, (j + 1) as i32),
        decreases count - i,
    {
        out.push((sheet_id, i + 1));
        i = i + 1;
    }
    out
}

/// One cell for every (row, column) pair, row by row: the `k`-th cell lies
/// in row `k / C` and column `k % C`, where `C` is the number of columns.
pub open spec fn cross_product(sheet_id: i64, rows: Seq<RowItem>, cols: Seq<ColumnItem>) -> Seq<NewCell> {
    Seq::new(
        rows.len() * cols.len(),
        |k: int| (sheet_id, rows[k / cols.len() as int].id, cols[k % cols.len() as int].id),
    )
}

/// The cells of a new sheet whose rows and columns were just created: one
/// empty cell per (row, column) pair, none when either list is empty.
pub fn cell_cross_product(sheet_id: i64, rows: &Vec<RowItem>, cols: &Vec<ColumnItem>) -> (r: Vec<NewCell>)
    requires
        rows@.len() * cols@.len() <= usize::MAX,
    ensures
        r@ == cross_product(sheet_id, rows@, cols@),
{
    let ghost nr = rows@.len() as int;
    let ghost nc = cols@.len() as int;
    if rows.len() == 0 || cols.len() == 0 {
        proof {
            assert(nr * nc == 0) by (nonlinear_arith)
                requires
                    nr == 0 || nc == 0,
            ;
        }
        let empty: Vec<NewCell> = Vec::new();
        assert(empty@ =~= cross_product(sheet_id, rows@, cols@));
        return empty;
    }
    let mut out: Vec<NewCell> = Vec::with_capacity(rows.len() * cols.len());
    let mut i: usize = 0;
    while i < rows.len()
        invariant
            nr == rows@.len(),
            nc == cols@.len(),
            nc > 0,
            nr * nc <= usize::MAX,
            i <= nr,
            out@.len() == i * nc,
            forall|k: int|
                0 <= k < out@.len() ==> #[trigger] out@[k] == (sheet_id, rows@[k / nc].id, cols@[k % nc].id),
        decreases nr - i,
    {
        let mut j: usize = 0;
        while j < cols.len()
            invariant
                nr == rows@.len(),
                nc == cols@.len(),
                nc > 0,
                i < nr,
                j <= nc,
                out@.len() == i * nc + j,
                forall|k: int|
                    0 <= k < out@.len() ==> #[trigger] out@[k] == (sheet_id, rows@[k / nc].id, cols@[k % nc].id),
            decreases nc - j,
        {
            proof {
                vstd::arithmetic::div_mod::lemma_fundamental_div_mod_converse(i * nc + j, nc, i as int, j as int);
            }
            out.push((sheet_id, rows[i].id, cols[j].id));
            j = j + 1;
        }
        proof {
            assert((i + 1) * nc == i * nc + nc) by (nonlinear_arith);
        }
        i = i + 1;
    }
    assert(out@ =~= cross_product(sheet_id, rows@, cols@));
    out
}

/// Rows numbered `1, 2, ...` in order, as `index_values` asks for them.
pub open spec fn numbered_rows(rows: Seq<RowItem>) -> bool {
    forall|i: int| 0 <= i < rows.len() ==> #[trigger] rows[i].row_index == i + 1
}

/// Columns numbered `1, 2, ...` in order, as `index_values` asks for them.
pub open spec fn numbered_columns(cols: Seq<ColumnItem>) -> bool {
    forall|i: int| 0 <= i < cols.len() ==> #[trigger] cols[i].column_index == i + 1
}

/// The (row index, column index) position of the `k`-th cell of
/// `cross_product`: the indexes of the row and column it refers to.
pub open spec fn position_of(rows: Seq<RowItem>, cols: Seq<ColumnItem>, k: int) -> (int, int) {
    (rows[k / cols.len() as int].row_index as int, cols[k % cols.len() as int].column_index as int)
}

/// Some cell of the cross-product lies at row index `a` and column index `b`.
pub open spec fn has_cell_at(rows: Seq<RowItem>, cols: Seq<ColumnItem>, a: int, b: int) -> bool {
    exists|k: int| 0 <= k < rows.len() * cols.len() && #[trigger] position_of(rows, cols, k) == (a, b)
}

/// A provisioned grid is exactly the full cross-product.
///
/// For rows numbered `1..=R` and columns numbered `1..=C`, the new cells
/// number `R * C` (none when `R` or `C` is zero), every cell lies at a
/// position in `1..=R` by `1..=C`, no two cells share a position, and every
/// such position holds a cell.
pub proof fn lemma_provision_covers_grid(sheet_id: i64, rows: Seq<RowItem>, cols: Seq<ColumnItem>)
    requires
        numbered_rows(rows),
        numbered_columns(cols),
    ensures
        cross_product(sheet_id, rows, cols).len() == rows.len() * cols.len(),
        rows.len() == 0 || cols.len() == 0 ==> cross_product(sheet_id, rows, cols).len() == 0,
        forall|k: int|
            0 <= k < cross_product(sheet_id, rows, cols).len() ==> 1 <= (#[trigger] position_of(rows, cols, k)).0
                <= rows.len() && 1 <= position_of(rows, cols, k).1 <= cols.len(),
        forall|k1: int, k2: int|
            0 <= k1 < k2 < cross_product(sheet_id, rows, cols).len() ==> #[trigger] position_of(rows, cols, k1)
                != #[trigger] position_of(rows, cols, k2),
        forall|a: int, b: int|
            1 <= a <= rows.len() && 1 <= b <= cols.len() ==> #[trigger] has_cell_at(rows, cols, a, b),
{
    let nr = rows.len() as int;
    let nc = cols.len() as int;
    assert(nr == 0 || nc == 0 ==> nr * nc == 0) by (nonlinear_arith);
    assert forall|k: int| 0 <= k < nr * nc implies 1 <= (#[trigger] position_of(rows, cols, k)).0 <= nr && 1
        <= position_of(rows, cols, k).1 <= nc by {
        lemma_cell_slot(nr, nc, k);
    }
    assert forall|k1: int, k2: int| 0 <= k1 < k2 < nr * nc implies #[trigger] position_of(rows, cols, k1)
        != #[trigger] position_of(rows, cols, k2) by {
        lemma_cell_slot(nr, nc, k1);
        lemma_cell_slot(nr, nc, k2);
        vstd::arithmetic::div_mod::lemma_fundamental_div_mod(k1, nc);
        vstd::arithmetic::div_mod::lemma_fundamental_div_mod(k2, nc);
    }
    assert forall|a: int, b: int| 1 <= a <= nr && 1 <= b <= nc implies #[trigger] has_cell_at(rows, cols, a, b) by {
        let k = (a - 1) * nc + (b - 1);
        vstd::arithmetic::div_mod::lemma_fundamental_div_mod_converse(k, nc, a - 1, b - 1);
        assert(a * nc <= nr * nc) by (nonlinear_arith)
            requires
                1 <= a <= nr,
                nc >= 1,
        ;
        assert((a - 1) * nc + nc == a * nc) by (nonlinear_arith);
        assert(position_of(rows, cols, k) == (a, b));
    }
}

/// The `k`-th of `nr * nc` cells lies in row `k / nc` and column `k % nc`,
/// both in range.
pub proof fn lemma_cell_slot(nr: int, nc: int, k: int)
    requires
        nr >= 0,
        nc >= 0,
        0 <= k < nr * nc,
    ensures
        nc > 0,
        0 <= k / nc < nr,
        0 <= k % nc < nc,
{
    assert(nc > 0) by (nonlinear_arith)
        requires
            0 <= k < nr * nc,
            nr >= 0,
            nc >= 0,
    ;
    vstd::arithmetic::div_mod::lemma_fundamental_div_mod(k, nc);
    let q = k / nc;
    let r = k % nc;
    assert(0 <= q < nr) by (nonlinear_arith)
        requires
            k == nc * q + r,
            0 <= r < nc,
            0 <= k < nr * nc,
            nc > 0,
    ;
}

} // verus!
