//! Copying a sheet's grid into a new sheet.
//!
//! The source rows and columns are inserted again under the new sheet in
//! the order they were fetched; the store hands back the new identities in
//! that same order, so pairing old and new identities by position gives the
//! identity maps through which every source cell is redirected.
use vstd::prelude::*;
use vstd::string::StringExecFns;
use std::collections::HashMap;
use crate::types::{RowItem, ColumnItem, CellItem};
use crate::error::AppError;

verus! {

broadcast use vstd::std_specs::hash::group_hash_axioms;

/// Marker appended to the name of a copied sheet.
pub open spec fn copy_name_of(name: Seq<char>) -> Seq<char> {
    name + " (Copy)"@
}

/// Name of the sheet that copies a sheet named `name`.
pub fn copy_name(name: &str) -> (r: String)
    ensures
        r@ == copy_name_of(name@),
{
    let s = <String as StringExecFns>::from_str(name);
    s.concat(" (Copy)")
}

/// Values of a row inserted for a copy: sheet, row index and height.
pub type RowValues = (i64, i32, u64);

/// Values of a column inserted for a copy: sheet, column index and width.
pub type ColumnValues = (i64, i32, u64);

/// The rows to insert under `new_sheet_id` so that it has the same row
/// indexes and heights as `rows`, in the same order.
pub fn copied_row_values(rows: &Vec<RowItem>, new_sheet_id: i64) -> (r: Vec<RowValues>)
    ensures
        r@.len() == rows@.len(),
        forall|i: int|
            0 <= i < r@.len() ==> #[trigger] r@[i] == (new_sheet_id, rows@[i].row_index, rows@[i].height),
{
    let mut out: Vec<RowValues> = Vec::with_capacity(rows.len());
    let mut i: usize = 0;
    while i < rows.len()
        invariant
            i <= rows@.len(),
            out@.len() == i,
            forall|j: int|
                0 <= j < i ==> #[trigger] out@[j] == (new_sheet_id, rows@[j].row_index, rows@[j].height),
        decreases rows@.len() - i,
    {
        out.push((new_sheet_id, rows[i].row_index, rows[i].height));
        i = i + 1;
    }
    out
}

/// The columns to insert under `new_sheet_id` so that it has the same
/// column indexes and widths as `cols`, in the same order.
pub fn copied_column_values(cols: &Vec<ColumnItem>, new_sheet_id: i64) -> (r: Vec<ColumnValues>)
    ensures
        r@.len() == cols@.len(),
        forall|i: int|
            0 <= i < r@.len() ==> #[trigger] r@[i] == (new_sheet_id, cols@[i].column_index, cols@[i].width),
{
    let mut out: Vec<ColumnValues> = Vec::with_capacity(cols.len());
    let mut i: usize = 0;
    while i < cols.len()
        invariant
            i <= cols@.len(),
            out@.len() == i,
            forall|j: int|
                0 <= j < i ==> #[trigger] out@[j] == (new_sheet_id, cols@[j].column_index, cols@[j].width),
        decreases cols@.len() - i,
    {
        out.push((new_sheet_id, cols[i].column_index, cols[i].width));
        i = i + 1;
    }
    out
}

/// Identities of the given rows, in order.
pub open spec fn row_ids_of(rows: Seq<RowItem>) -> Seq<i64> {
    rows.map_values(|r: RowItem| r.id)
}

/// Identities of the given columns, in order.
pub open spec fn column_ids_of(cols: Seq<ColumnItem>) -> Seq<i64> {
    cols.map_values(|c: ColumnItem| c.id)
}

/// Identities of the given rows, in order.
pub fn row_ids(rows: &Vec<RowItem>) -> (r: Vec<i64>)
    ensures
        r@ == row_ids_of(rows@),
{
    let mut out: Vec<i64> = Vec::with_capacity(rows.len());
    let mut i: usize = 0;
    while i < rows.len()
        invariant
            i <= rows@.len(),
            out@ == row_ids_of(rows@.take(i as int)),
        decreases rows@.len() - i,
    {
        out.push(rows[i].id);
        proof {
            assert(rows@.take(i + 1) == rows@.take(i as int).push(rows@[i as int]));
        }
        i = i + 1;
        proof {
            assert(out@ =~= row_ids_of(rows@.take(i as int)));
        }
    }
    assert(rows@.take(rows@.len() as int) == rows@);
    out
}

/// Identities of the given columns, in order.
pub fn column_ids(cols: &Vec<ColumnItem>) -> (r: Vec<i64>)
    ensures
        r@ == column_ids_of(cols@),
{
    let mut out: Vec<i64> = Vec::with_capacity(cols.len());
    let mut i: usize = 0;
    while i < cols.len()
        invariant
            i <= cols@.len(),
            out@ == column_ids_of(cols@.take(i as int)),
        decreases cols@.len() - i,
    {
        out.push(cols[i].id);
        proof {
            assert(cols@.take(i + 1) == cols@.take(i as int).push(cols@[i as int]));
        }
        i = i + 1;
        proof {
            assert(out@ =~= column_ids_of(cols@.take(i as int)));
        }
    }
    assert(cols@.take(cols@.len() as int) == cols@);
    out
}

/// The map that sends the first `n` source identities to the new identity
/// at the same position; a later position wins over an earlier one.
pub open spec fn paired_prefix(src: Seq<i64>, new: Seq<i64>, n: int) -> Map<i64, i64>
    decreases n,
{
    if n <= 0 {
        Map::empty()
    } else {
        paired_prefix(src, new, n - 1).insert(src[n - 1], new[n - 1])
    }
}

/// Source identities paired with new identities by position, up to the
/// shorter of the two sequences.
pub open spec fn pairing(src: Seq<i64>, new: Seq<i64>) -> Map<i64, i64> {
    paired_prefix(src, new, if src.len() <= new.len() { src.len() as int } else { new.len() as int })
}

/// No identity occurs twice.
pub open spec fn distinct_ids(ids: Seq<i64>) -> bool {
    forall|a: int, b: int| 0 <= a < b < ids.len() ==> ids[a] != ids[b]
}

/// With distinct source ids, the `j`-th source id is sent to the `j`-th new id.
pub proof fn lemma_paired_prefix_lookup(src: Seq<i64>, new: Seq<i64>, n: int, j: int)
    requires
        0 <= j < n <= src.len(),
        n <= new.len(),
        distinct_ids(src),
    ensures
        paired_prefix(src, new, n).contains_key(src[j]),
        paired_prefix(src, new, n)[src[j]] == new[j],
    decreases n,
{
    if j < n - 1 {
        lemma_paired_prefix_lookup(src, new, n - 1, j);
        assert(src[n - 1] != src[j]);
    }
}

/// Pairs each source identity with the new identity at the same position,
/// as far as the shorter of the two lists goes.
pub fn pair_ids(source_ids: &Vec<i64>, new_ids: &Vec<i64>) -> (r: HashMap<i64, i64>)
    ensures
        r@ == pairing(source_ids@, new_ids@),
{
    let n: usize = if source_ids.len() <= new_ids.len() { source_ids.len() } else { new_ids.len() };
    let mut map: HashMap<i64, i64> = HashMap::new();
    let mut i: usize = 0;
    while i < n
        invariant
            n <= source_ids@.len(),
            n <= new_ids@.len(),
            n == if source_ids@.len() <= new_ids@.len() { source_ids@.len() } else { new_ids@.len() },
            i <= n,
            map@ == paired_prefix(source_ids@, new_ids@, i as int),
        decreases n - i,
    {
        map.insert(source_ids[i], new_ids[i]);
        i = i + 1;
    }
    map
}

/// A cell to insert for a copy, under the new sheet: the new row and
/// column it belongs to and the content of its source cell.
#[derive(Clone, Debug)]
pub struct CellCopy {
    pub row_id: i64,
    pub column_id: i64,
    pub value: Option<String>,
    pub formula: Option<String>,
}

/// Every cell's row and column are covered by the two identity maps.
pub open spec fn all_mapped(cells: Seq<CellItem>, row_map: Map<i64, i64>, col_map: Map<i64, i64>) -> bool {
    forall|k: int|
        0 <= k < cells.len() ==> row_map.contains_key(#[trigger] cells[k].row_id)
            && col_map.contains_key(cells[k].column_id)
}

/// The copy of `c` under the given identity maps.
pub open spec fn cell_copy_of(c: CellItem, row_map: Map<i64, i64>, col_map: Map<i64, i64>) -> CellCopy {
    CellCopy { row_id: row_map[c.row_id], column_id: col_map[c.column_id], value: c.value, formula: c.formula }
}

/// The copies of `cells`, in order, under the given identity maps.
pub open spec fn cell_copies_of(cells: Seq<CellItem>, row_map: Map<i64, i64>, col_map: Map<i64, i64>) -> Seq<CellCopy> {
    cells.map_values(|c: CellItem| cell_copy_of(c, row_map, col_map))
}

/// An equal copy of an optional text.
pub fn copy_text(t: &Option<String>) -> (r: Option<String>)
    ensures
        r == *t,
{
    match t {
        Some(s) => Some(s.clone()),
        None => None,
    }
}

/// Redirects every source cell to the new row and column that its own
/// row and column were copied to.
///
/// Fails with `InternalServerError` exactly when some cell's row or column
/// is missing from the maps, which the maps built from a consistent sheet
/// never allow.
pub fn remap_cells(
    cells: &Vec<CellItem>,
    row_map: &HashMap<i64, i64>,
    col_map: &HashMap<i64, i64>,
) -> (r: Result<Vec<CellCopy>, AppError>)
    ensures
        r is Ok <==> all_mapped(cells@, row_map@, col_map@),
        r matches Ok(v) ==> v@ == cell_copies_of(cells@, row_map@, col_map@),
        r matches Err(e) ==> e is InternalServerError,
{
    let mut out: Vec<CellCopy> = Vec::with_capacity(cells.len());
    let mut i: usize = 0;
    while i < cells.len()
        invariant
            i <= cells@.len(),
            out@ == cell_copies_of(cells@.take(i as int), row_map@, col_map@),
            all_mapped(cells@.take(i as int), row_map@, col_map@),
        decreases cells@.len() - i,
    {
        let cell = &cells[i];
        let row_id = match row_map.get(&cell.row_id) {
            Some(id) => *id,
            None => {
                proof {
                    assert(!all_mapped(cells@, row_map@, col_map@)) by {
                        assert(!row_map@.contains_key(cells@[i as int].row_id));
                    }
                }
                return Err(AppError::InternalServerError);
            },
        };
        let column_id = match col_map.get(&cell.column_id) {
            Some(id) => *id,
            None => {
                proof {
                    assert(!all_mapped(cells@, row_map@, col_map@)) by {
                        assert(!col_map@.contains_key(cells@[i as int].column_id));
                    }
                }
                return Err(AppError::InternalServerError);
            },
        };
        out.push(CellCopy { row_id, column_id, value: copy_text(&cell.value), formula: copy_text(&cell.formula) });
        proof {
            assert(cells@.take(i + 1) == cells@.take(i as int).push(cells@[i as int]));
            assert(row_map@.contains_key(cells@[i as int].row_id));
            assert(col_map@.contains_key(cells@[i as int].column_id));
        }
        let ghost before = cells@.take(i as int);
        i = i + 1;
        proof {
            assert(out@ =~= cell_copies_of(cells@.take(i as int), row_map@, col_map@));
            assert forall|k: int| 0 <= k < i implies row_map@.contains_key(#[trigger] cells@.take(i as int)[k].row_id)
                && col_map@.contains_key(cells@.take(i as int)[k].column_id) by {
                if k < i - 1 {
                    assert(cells@.take(i as int)[k] == before[k]);
                    assert(row_map@.contains_key(before[k].row_id));
                } else {
                    assert(cells@.take(i as int)[k] == cells@[k]);
                }
            }
        }
    }
    assert(cells@.take(cells@.len() as int) == cells@);
    Ok(out)
}

/// Some row of `rows` has identity `id`.
pub open spec fn row_listed(rows: Seq<RowItem>, id: i64) -> bool {
    exists|j: int| 0 <= j < rows.len() && (#[trigger] rows[j]).id == id
}

/// Some column of `cols` has identity `id`.
pub open spec fn column_listed(cols: Seq<ColumnItem>, id: i64) -> bool {
    exists|j: int| 0 <= j < cols.len() && (#[trigger] cols[j]).id == id
}

/// Every cell refers to one of the given rows and one of the given columns.
pub open spec fn cells_within(cells: Seq<CellItem>, rows: Seq<RowItem>, cols: Seq<ColumnItem>) -> bool {
    forall|k: int|
        0 <= k < cells.len() ==> row_listed(rows, (#[trigger] cells[k]).row_id) && column_listed(
            cols,
            cells[k].column_id,
        )
}

/// A copied grid keeps its content in place.
///
/// Let the rows and columns of a consistent sheet (distinct identities,
/// every cell referring to one of them) be inserted again, and the new
/// identities come back in insertion order. Then the identity maps built by
/// pairing cover every cell, and the copy of each cell lies in the new row
/// that copies its row and in the new column that copies its column, with
/// the same value and formula. Since `copied_row_values` and
/// `copied_column_values` keep every index and size, each cell of the copy
/// sits at the same (row index, column index) position as its source.
pub proof fn lemma_copy_keeps_content(
    rows: Seq<RowItem>,
    new_row_ids: Seq<i64>,
    cols: Seq<ColumnItem>,
    new_col_ids: Seq<i64>,
    cells: Seq<CellItem>,
)
    requires
        new_row_ids.len() == rows.len(),
        new_col_ids.len() == cols.len(),
        distinct_ids(row_ids_of(rows)),
        distinct_ids(column_ids_of(cols)),
        cells_within(cells, rows, cols),
    ensures
        all_mapped(cells, pairing(row_ids_of(rows), new_row_ids), pairing(column_ids_of(cols), new_col_ids)),
        forall|k: int, j: int, m: int|
            #![trigger cells[k], rows[j], cols[m]]
            0 <= k < cells.len() && 0 <= j < rows.len() && 0 <= m < cols.len() && rows[j].id == cells[k].row_id
                && cols[m].id == cells[k].column_id ==> cell_copies_of(
                cells,
                pairing(row_ids_of(rows), new_row_ids),
                pairing(column_ids_of(cols), new_col_ids),
            )[k] == (CellCopy {
                row_id: new_row_ids[j],
                column_id: new_col_ids[m],
                value: cells[k].value,
                formula: cells[k].formula,
            }),
{
    let rids = row_ids_of(rows);
    let cids = column_ids_of(cols);
    let rm = pairing(rids, new_row_ids);
    let cm = pairing(cids, new_col_ids);
    assert forall|k: int| 0 <= k < cells.len() implies rm.contains_key(#[trigger] cells[k].row_id)
        && cm.contains_key(cells[k].column_id) by {
        let j = choose|j: int| 0 <= j < rows.len() && rows[j].id == cells[k].row_id;
        let m = choose|m: int| 0 <= m < cols.len() && cols[m].id == cells[k].column_id;
        lemma_paired_prefix_lookup(rids, new_row_ids, rids.len() as int, j);
        lemma_paired_prefix_lookup(cids, new_col_ids, cids.len() as int, m);
    }
    assert forall|k: int, j: int, m: int|
        #![trigger cells[k], rows[j], cols[m]]
        0 <= k < cells.len() && 0 <= j < rows.len() && 0 <= m < cols.len() && rows[j].id == cells[k].row_id
            && cols[m].id == cells[k].column_id implies cell_copies_of(cells, rm, cm)[k] == (CellCopy {
            row_id: new_row_ids[j],
            column_id: new_col_ids[m],
            value: cells[k].value,
            formula: cells[k].formula,
        }) by {
        lemma_paired_prefix_lookup(rids, new_row_ids, rids.len() as int, j);
        lemma_paired_prefix_lookup(cids, new_col_ids, cids.len() as int, m);
    }
}

} // verus!
