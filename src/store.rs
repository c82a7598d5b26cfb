//! An in-memory store that runs the sheet operations end to end.
//!
//! Every operation first plans all of its writes and only then applies
//! them, so a failing operation leaves the store as it found it, as a
//! rolled-back transaction would. Identities come from one counter shared
//! by all tables, handed out in insertion order.
use vstd::prelude::*;
use crate::types::{Cell, CellItem, ColumnItem, CreateSheetPayload, Grid, RowItem, SheetItem, UpdateCellPayload, UpdateSheetPayload};
use crate::patch::{apply_cell_patch, patched};
use crate::grid::{column_view, create_grid, row_view};
use vstd::pervasive::VecAdditionalExecFns;
use crate::error::AppError;
use crate::clone::{
    cells_within, column_listed, distinct_ids, lemma_copy_keeps_content, row_listed,
    all_mapped, cell_copies_of, copied_column_values, copied_row_values, copy_name, copy_name_of, copy_text,
    column_ids, column_ids_of, pair_ids, pairing, remap_cells, row_ids, row_ids_of, CellCopy,
};
use crate::chunk::{chunks, chunk_at, chunk_count, lemma_chunk_bounds, CELL_INSERT_CHUNK_SIZE};
use crate::provision::{
    check_counts,
    cell_cross_product, cross_product, has_cell_at, index_values, lemma_cell_slot, lemma_provision_covers_grid,
    numbered_columns, numbered_rows, position_of, provisioned_count,
};

verus! {

/// Sheets with their rows, columns and cells.
pub struct MemoryStore {
    pub sheets: Vec<SheetItem>,
    pub rows: Vec<RowItem>,
    pub columns: Vec<ColumnItem>,
    pub cells: Vec<CellItem>,
    /// The identity the next inserted record receives.
    pub next_id: i64,
    /// Height given to rows created with a new sheet (a double's bits).
    pub default_height: u64,
    /// Width given to columns created with a new sheet (a double's bits).
    pub default_width: u64,
}

/// The cells stored for `records`, with identities from `first_id` on.
pub open spec fn stored_cells(records: Seq<CellCopy>, sheet_id: i64, first_id: int, now: i64) -> Seq<CellItem> {
    Seq::new(
        records.len(),
        |k: int|
            CellItem {
                id: (first_id + k) as i64,
                sheet_id,
                row_id: records[k].row_id,
                column_id: records[k].column_id,
                value: records[k].value,
                formula: records[k].formula,
                created_at: now,
                updated_at: now,
            },
    )
}

/// The rows of a new sheet: indexes `1..=count`, identities from `first_id` on.
pub open spec fn fresh_rows(sheet_id: i64, count: nat, first_id: int, height: u64) -> Seq<RowItem> {
    Seq::new(
        count,
        |i: int| RowItem { id: (first_id + i) as i64, sheet_id, row_index: (i + 1) as i32, height },
    )
}

/// The columns of a new sheet: indexes `1..=count`, identities from `first_id` on.
pub open spec fn fresh_columns(sheet_id: i64, count: nat, first_id: int, width: u64) -> Seq<ColumnItem> {
    Seq::new(
        count,
        |i: int| ColumnItem { id: (first_id + i) as i64, sheet_id, column_index: (i + 1) as i32, width },
    )
}

/// One empty cell per (row, column) pair, row by row, for rows with
/// identities from `first_row` and columns from `first_col` on.
pub open spec fn empty_grid(first_row: int, nr: nat, first_col: int, nc: nat) -> Seq<CellCopy> {
    Seq::new(
        nr * nc,
        |k: int|
            CellCopy {
                row_id: (first_row + k / (nc as int)) as i64,
                column_id: (first_col + k % (nc as int)) as i64,
                value: None,
                formula: None,
            },
    )
}

/// Identities suffice for a sheet of `nr` rows and `nc` columns, and its
/// cells can be counted in memory.
pub open spec fn room_for_grid(next_id: i64, nr: nat, nc: nat) -> bool {
    next_id + 1 + nr + nc + nr * nc <= i64::MAX && nr * nc <= usize::MAX
}

/// Every identity in `s` lies in `1..bound`, and no two are equal.
pub open spec fn sheets_ok(s: Seq<SheetItem>, bound: i64) -> bool {
    &&& forall|i: int| 0 <= i < s.len() ==> 1 <= #[trigger] s[i].id < bound
    &&& forall|a: int, b: int| 0 <= a < b < s.len() ==> #[trigger] s[a].id != #[trigger] s[b].id
}

/// Appending records with fresh, increasing identities keeps `sheets_ok`.
pub proof fn lemma_sheets_append(old: Seq<SheetItem>, new: Seq<SheetItem>, b1: i64, b2: i64)
    requires
        sheets_ok(old, b1),
        1 <= b1 <= b2,
        forall|i: int| 0 <= i < new.len() ==> b1 <= #[trigger] new[i].id < b2,
        forall|a: int, b: int| 0 <= a < b < new.len() ==> #[trigger] new[a].id < #[trigger] new[b].id,
    ensures
        sheets_ok(old + new, b2),
{
    let s = old + new;
    assert forall|i: int| 0 <= i < s.len() implies 1 <= #[trigger] s[i].id < b2 by {
        if i >= old.len() {
            assert(s[i] == new[i - old.len()]);
        }
    }
    assert forall|a: int, b: int| 0 <= a < b < s.len() implies #[trigger] s[a].id != #[trigger] s[b].id by {
        if b >= old.len() {
            assert(s[b] == new[b - old.len()]);
            if a >= old.len() {
                assert(s[a] == new[a - old.len()]);
                assert(new[a - old.len()].id < new[b - old.len()].id);
            }
        }
    }
}

/// Every identity in `s` lies in `1..bound`, and no two are equal.
pub open spec fn rows_ok(s: Seq<RowItem>, bound: i64) -> bool {
    &&& forall|i: int| 0 <= i < s.len() ==> 1 <= #[trigger] s[i].id < bound
    &&& forall|a: int, b: int| 0 <= a < b < s.len() ==> #[trigger] s[a].id != #[trigger] s[b].id
}

/// Appending records with fresh, increasing identities keeps `rows_ok`.
pub proof fn lemma_rows_append(old: Seq<RowItem>, new: Seq<RowItem>, b1: i64, b2: i64)
    requires
        rows_ok(old, b1),
        1 <= b1 <= b2,
        forall|i: int| 0 <= i < new.len() ==> b1 <= #[trigger] new[i].id < b2,
        forall|a: int, b: int| 0 <= a < b < new.len() ==> #[trigger] new[a].id < #[trigger] new[b].id,
    ensures
        rows_ok(old + new, b2),
{
    let s = old + new;
    assert forall|i: int| 0 <= i < s.len() implies 1 <= #[trigger] s[i].id < b2 by {
        if i >= old.len() {
            assert(s[i] == new[i - old.len()]);
        }
    }
    assert forall|a: int, b: int| 0 <= a < b < s.len() implies #[trigger] s[a].id != #[trigger] s[b].id by {
        if b >= old.len() {
            assert(s[b] == new[b - old.len()]);
            if a >= old.len() {
                assert(s[a] == new[a - old.len()]);
                assert(new[a - old.len()].id < new[b - old.len()].id);
            }
        }
    }
}

/// Every identity in `s` lies in `1..bound`, and no two are equal.
pub open spec fn columns_ok(s: Seq<ColumnItem>, bound: i64) -> bool {
    &&& forall|i: int| 0 <= i < s.len() ==> 1 <= #[trigger] s[i].id < bound
    &&& forall|a: int, b: int| 0 <= a < b < s.len() ==> #[trigger] s[a].id != #[trigger] s[b].id
}

/// Appending records with fresh, increasing identities keeps `columns_ok`.
pub proof fn lemma_columns_append(old: Seq<ColumnItem>, new: Seq<ColumnItem>, b1: i64, b2: i64)
    requires
        columns_ok(old, b1),
        1 <= b1 <= b2,
        forall|i: int| 0 <= i < new.len() ==> b1 <= #[trigger] new[i].id < b2,
        forall|a: int, b: int| 0 <= a < b < new.len() ==> #[trigger] new[a].id < #[trigger] new[b].id,
    ensures
        columns_ok(old + new, b2),
{
    let s = old + new;
    assert forall|i: int| 0 <= i < s.len() implies 1 <= #[trigger] s[i].id < b2 by {
        if i >= old.len() {
            assert(s[i] == new[i - old.len()]);
        }
    }
    assert forall|a: int, b: int| 0 <= a < b < s.len() implies #[trigger] s[a].id != #[trigger] s[b].id by {
        if b >= old.len() {
            assert(s[b] == new[b - old.len()]);
            if a >= old.len() {
                assert(s[a] == new[a - old.len()]);
                assert(new[a - old.len()].id < new[b - old.len()].id);
            }
        }
    }
}

/// Every identity in `s` lies in `1..bound`, and no two are equal.
pub open spec fn cells_ok(s: Seq<CellItem>, bound: i64) -> bool {
    &&& forall|i: int| 0 <= i < s.len() ==> 1 <= #[trigger] s[i].id < bound
    &&& forall|a: int, b: int| 0 <= a < b < s.len() ==> #[trigger] s[a].id != #[trigger] s[b].id
}

/// Appending records with fresh, increasing identities keeps `cells_ok`.
pub proof fn lemma_cells_append(old: Seq<CellItem>, new: Seq<CellItem>, b1: i64, b2: i64)
    requires
        cells_ok(old, b1),
        1 <= b1 <= b2,
        forall|i: int| 0 <= i < new.len() ==> b1 <= #[trigger] new[i].id < b2,
        forall|a: int, b: int| 0 <= a < b < new.len() ==> #[trigger] new[a].id < #[trigger] new[b].id,
    ensures
        cells_ok(old + new, b2),
{
    let s = old + new;
    assert forall|i: int| 0 <= i < s.len() implies 1 <= #[trigger] s[i].id < b2 by {
        if i >= old.len() {
            assert(s[i] == new[i - old.len()]);
        }
    }
    assert forall|a: int, b: int| 0 <= a < b < s.len() implies #[trigger] s[a].id != #[trigger] s[b].id by {
        if b >= old.len() {
            assert(s[b] == new[b - old.len()]);
            if a >= old.len() {
                assert(s[a] == new[a - old.len()]);
                assert(new[a - old.len()].id < new[b - old.len()].id);
            }
        }
    }
}

/// Every item kept by a filter comes from the filtered sequence.
pub proof fn lemma_filter_members<A>(s: Seq<A>, p: spec_fn(A) -> bool)
    ensures
        forall|j: int| 0 <= j < s.filter(p).len() ==> s.contains(#[trigger] s.filter(p)[j]),
    decreases s.len(),
{
    reveal_with_fuel(Seq::filter, 1);
    if s.len() > 0 {
        let d = s.drop_last();
        lemma_filter_members(d, p);
        let f = s.filter(p);
        let g = d.filter(p);
        assert forall|j: int| 0 <= j < f.len() implies s.contains(#[trigger] f[j]) by {
            if j < g.len() {
                assert(f[j] == g[j]);
                assert(d.contains(g[j]));
                let m = choose|m: int| 0 <= m < d.len() && d[m] == g[j];
                assert(s[m] == d[m]);
            } else {
                assert(f[j] == s[s.len() - 1]);
            }
        }
    }
}

/// A filter keeps a key that no two items share unshared.
pub proof fn lemma_filter_keeps_unique<A>(s: Seq<A>, p: spec_fn(A) -> bool, key: spec_fn(A) -> i64)
    requires
        forall|a: int, b: int| 0 <= a < b < s.len() ==> key(#[trigger] s[a]) != key(#[trigger] s[b]),
    ensures
        forall|a: int, b: int|
            0 <= a < b < s.filter(p).len() ==> key(#[trigger] s.filter(p)[a]) != key(#[trigger] s.filter(p)[b]),
    decreases s.len(),
{
    reveal_with_fuel(Seq::filter, 1);
    if s.len() > 0 {
        let d = s.drop_last();
        assert forall|a: int, b: int| 0 <= a < b < d.len() implies key(#[trigger] d[a]) != key(#[trigger] d[b]) by {
            assert(d[a] == s[a] && d[b] == s[b]);
        }
        lemma_filter_keeps_unique(d, p, key);
        lemma_filter_members(d, p);
        let f = s.filter(p);
        let g = d.filter(p);
        assert forall|a: int, b: int| 0 <= a < b < f.len() implies key(#[trigger] f[a]) != key(#[trigger] f[b]) by {
            assert(f[a] == g[a]);
            if b < g.len() {
                assert(f[b] == g[b]);
            } else {
                assert(f[b] == s[s.len() - 1]);
                assert(d.contains(g[a]));
                let m = choose|m: int| 0 <= m < d.len() && d[m] == g[a];
                assert(s[m] == d[m]);
            }
        }
    }
}

/// In a consistent store the grid of any one sheet is consistent too:
/// its row and column identities are distinct, and each of its cells lies
/// in one of its rows and one of its columns.
pub proof fn lemma_sheet_grid_consistent(
    rows: Seq<RowItem>,
    cols: Seq<ColumnItem>,
    cells: Seq<CellItem>,
    id: i64,
    bound: i64,
)
    requires
        rows_ok(rows, bound),
        columns_ok(cols, bound),
        cells_placed(cells, rows, cols),
    ensures
        distinct_ids(row_ids_of(rows_of_sheet(rows, id))),
        distinct_ids(column_ids_of(columns_of_sheet(cols, id))),
        cells_within(cells_of_sheet(cells, id), rows_of_sheet(rows, id), columns_of_sheet(cols, id)),
        forall|k: int|
            0 <= k < cells_of_sheet(cells, id).len() ==> (#[trigger] cells_of_sheet(cells, id)[k]).sheet_id == id,
{
    let sr = rows_of_sheet(rows, id);
    let sc = columns_of_sheet(cols, id);
    let sx = cells_of_sheet(cells, id);
    lemma_filter_keeps_unique(rows, row_in_sheet(id), |x: RowItem| x.id);
    lemma_filter_keeps_unique(cols, column_in_sheet(id), |x: ColumnItem| x.id);
    assert forall|a: int, b: int| 0 <= a < b < row_ids_of(sr).len() implies row_ids_of(sr)[a] != row_ids_of(sr)[b] by {
        assert(row_ids_of(sr)[a] == sr[a].id && row_ids_of(sr)[b] == sr[b].id);
    }
    assert forall|a: int, b: int| 0 <= a < b < column_ids_of(sc).len() implies column_ids_of(sc)[a] != column_ids_of(sc)[b] by {
        assert(column_ids_of(sc)[a] == sc[a].id && column_ids_of(sc)[b] == sc[b].id);
    }
    lemma_filter_members(cells, cell_in_sheet(id));
    cells.filter_lemma(cell_in_sheet(id));
    rows.filter_lemma(row_in_sheet(id));
    cols.filter_lemma(column_in_sheet(id));
    assert forall|k: int| 0 <= k < sx.len() implies (#[trigger] sx[k]).sheet_id == id by {
        assert(cell_in_sheet(id)(sx[k]));
    }
    assert forall|k: int| 0 <= k < sx.len() implies row_listed(sr, (#[trigger] sx[k]).row_id) && column_listed(
        sc,
        sx[k].column_id,
    ) by {
        let c = sx[k];
        assert(cell_in_sheet(id)(c));
        assert(cells.contains(c));
        let m = choose|m: int| 0 <= m < cells.len() && cells[m] == c;
        assert(has_row(rows, cells[m].row_id, cells[m].sheet_id));
        let q = choose|q: int| 0 <= q < rows.len() && (#[trigger] rows[q]).id == c.row_id && rows[q].sheet_id == c.sheet_id;
        assert(row_in_sheet(id)(rows[q]));
        assert(sr.contains(rows[q]));
        let j = choose|j: int| 0 <= j < sr.len() && sr[j] == rows[q];
        assert(sr[j].id == c.row_id);
        assert(has_column(cols, cells[m].column_id, cells[m].sheet_id));
        let w = choose|w: int| 0 <= w < cols.len() && (#[trigger] cols[w]).id == c.column_id && cols[w].sheet_id == c.sheet_id;
        assert(column_in_sheet(id)(cols[w]));
        assert(sc.contains(cols[w]));
        let v = choose|v: int| 0 <= v < sc.len() && sc[v] == cols[w];
        assert(sc[v].id == c.column_id);
    }
}

/// Some row with identity `id` belongs to sheet `sheet_id`.
pub open spec fn has_row(rows: Seq<RowItem>, id: i64, sheet_id: i64) -> bool {
    exists|m: int| 0 <= m < rows.len() && (#[trigger] rows[m]).id == id && rows[m].sheet_id == sheet_id
}

/// Some column with identity `id` belongs to sheet `sheet_id`.
pub open spec fn has_column(cols: Seq<ColumnItem>, id: i64, sheet_id: i64) -> bool {
    exists|m: int| 0 <= m < cols.len() && (#[trigger] cols[m]).id == id && cols[m].sheet_id == sheet_id
}

/// Every cell lies in a row and a column of its own sheet.
pub open spec fn cells_placed(cells: Seq<CellItem>, rows: Seq<RowItem>, cols: Seq<ColumnItem>) -> bool {
    forall|k: int|
        0 <= k < cells.len() ==> has_row(rows, (#[trigger] cells[k]).row_id, cells[k].sheet_id) && has_column(
            cols,
            cells[k].column_id,
            cells[k].sheet_id,
        )
}

/// More rows and columns keep every cell placed.
pub proof fn lemma_placed_grow(
    cells: Seq<CellItem>,
    rows: Seq<RowItem>,
    cols: Seq<ColumnItem>,
    more_rows: Seq<RowItem>,
    more_cols: Seq<ColumnItem>,
)
    requires
        cells_placed(cells, rows, cols),
    ensures
        cells_placed(cells, rows + more_rows, cols + more_cols),
{
    assert forall|k: int| 0 <= k < cells.len() implies has_row(rows + more_rows, (#[trigger] cells[k]).row_id, cells[k].sheet_id)
        && has_column(cols + more_cols, cells[k].column_id, cells[k].sheet_id) by {
        let m = choose|m: int| 0 <= m < rows.len() && (#[trigger] rows[m]).id == cells[k].row_id && rows[m].sheet_id == cells[k].sheet_id;
        assert((rows + more_rows)[m] == rows[m]);
        let q = choose|q: int| 0 <= q < cols.len() && (#[trigger] cols[q]).id == cells[k].column_id && cols[q].sheet_id == cells[k].sheet_id;
        assert((cols + more_cols)[q] == cols[q]);
    }
}

impl MemoryStore {
    /// The store is consistent: every identity lies below `next_id` and is
    /// unique within its table, and every cell lies in a row and a column
    /// of its own sheet.
    pub open spec fn wf(&self) -> bool {
        &&& 1 <= self.next_id
        &&& sheets_ok(self.sheets@, self.next_id)
        &&& rows_ok(self.rows@, self.next_id)
        &&& columns_ok(self.columns@, self.next_id)
        &&& cells_ok(self.cells@, self.next_id)
        &&& cells_placed(self.cells@, self.rows@, self.columns@)
    }

    /// An empty store whose new rows and columns get the given sizes.
    pub fn new(default_height: u64, default_width: u64) -> (r: MemoryStore)
        ensures
            r.sheets@.len() == 0,
            r.rows@.len() == 0,
            r.columns@.len() == 0,
            r.cells@.len() == 0,
            r.next_id == 1,
            r.wf(),
            r.default_height == default_height,
            r.default_width == default_width,
    {
        MemoryStore {
            sheets: Vec::new(),
            rows: Vec::new(),
            columns: Vec::new(),
            cells: Vec::new(),
            next_id: 1,
            default_height,
            default_width,
        }
    }

    /// Writes `records` as cells of `sheet_id`, in batches of at most
    /// `batch_size`. Whatever the batch size, the batches together write
    /// every record once, in order, with the same identities.
    pub fn insert_cells(&mut self, sheet_id: i64, records: Vec<CellCopy>, batch_size: usize, now: i64)
        requires
            old(self).next_id + records@.len() <= i64::MAX,
            batch_size > 0,
        ensures
            old(self).wf() && (forall|k: int|
                0 <= k < records@.len() ==> has_row(old(self).rows@, (#[trigger] records@[k]).row_id, sheet_id)
                    && has_column(old(self).columns@, records@[k].column_id, sheet_id)) ==> final(self).wf(),
            final(self).cells@ == old(self).cells@ + stored_cells(records@, sheet_id, old(self).next_id as int, now),
            final(self).next_id == old(self).next_id + records@.len(),
            final(self).sheets == old(self).sheets,
            final(self).rows == old(self).rows,
            final(self).columns == old(self).columns,
            final(self).default_height == old(self).default_height,
            final(self).default_width == old(self).default_width,
    {
        let ghost items = records@;
        let ghost first = self.next_id as int;
        let ghost n = batch_size as nat;
        let ghost len = items.len() as int;
        let batches = chunks(records, batch_size);
        let mut t: usize = 0;
        proof {
            assert(self.cells@ =~= old(self).cells@ + stored_cells(items.take(0), sheet_id, first, now));
        }
        while t < batches.len()
            invariant
                n == batch_size,
                first == old(self).next_id,
                len == items.len(),
                first + len <= i64::MAX,
                batches@.len() == chunk_count(items.len(), n),
                forall|i: int| 0 <= i < batches@.len() ==> #[trigger] batches@[i]@ == chunk_at(items, n, i),
                t <= batches@.len(),
                t * n <= len || t == batches@.len(),
                self.cells@ == old(self).cells@ + stored_cells(
                    items.take(if t * n <= len { t * n } else { len }),
                    sheet_id,
                    first,
                    now,
                ),
                self.next_id == first + if t * n <= len { t * n } else { len },
                self.sheets == old(self).sheets,
                self.rows == old(self).rows,
                self.columns == old(self).columns,
                self.default_height == old(self).default_height,
                self.default_width == old(self).default_width,
            decreases batches@.len() - t,
        {
            proof {
                lemma_chunk_bounds(items.len(), n, t as int);
                lemma_chunk_bounds(items.len(), n, t + 1);
            }
            let ghost start = t * n;
            let ghost end = if (t + 1) * n <= len { (t + 1) * n } else { len };
            let batch = &batches[t];
            assert(batch@ == items.subrange(start, end));
            let mut k: usize = 0;
            while k < batch.len()
                invariant
                    first + len <= i64::MAX,
                    len == items.len(),
                    0 <= start < end <= len,
                    batch@.len() == end - start,
                    batch@ == items.subrange(start, end),
                    k <= batch@.len(),
                    self.cells@ == old(self).cells@ + stored_cells(items.take(start + k), sheet_id, first, now),
                    self.next_id == first + start + k,
                    self.sheets == old(self).sheets,
                    self.rows == old(self).rows,
                    self.columns == old(self).columns,
                    self.default_height == old(self).default_height,
                    self.default_width == old(self).default_width,
                decreases batch@.len() - k,
            {
                let rec = &batch[k];
                let cell = CellItem {
                    id: self.next_id,
                    sheet_id,
                    row_id: rec.row_id,
                    column_id: rec.column_id,
                    value: copy_text(&rec.value),
                    formula: copy_text(&rec.formula),
                    created_at: now,
                    updated_at: now,
                };
                self.cells.push(cell);
                self.next_id = self.next_id + 1;
                proof {
                    assert(k < batch@.len());
                    assert(start + k < end);
                    assert(items.subrange(start, end)[k as int] == items[start + k]);
                    assert(batch@[k as int] == items.subrange(start, end)[k as int]);
                    assert(items[start + k] == batch@[k as int]);
                    assert(self.cells@ =~= old(self).cells@ + stored_cells(items.take(start + k + 1), sheet_id, first, now));
                }
                k = k + 1;
            }
            t = t + 1;
        }
        proof {
            lemma_chunk_bounds(items.len(), n, t as int);
            assert(items.take(len) =~= items);
            if old(self).wf() && (forall|k: int|
                0 <= k < items.len() ==> has_row(old(self).rows@, (#[trigger] items[k]).row_id, sheet_id)
                    && has_column(old(self).columns@, items[k].column_id, sheet_id)) {
                let added = stored_cells(items, sheet_id, first, now);
                lemma_cells_append(old(self).cells@, added, old(self).next_id, self.next_id);
                let all = old(self).cells@ + added;
                assert forall|k: int| 0 <= k < all.len() implies has_row(self.rows@, (#[trigger] all[k]).row_id, all[k].sheet_id)
                    && has_column(self.columns@, all[k].column_id, all[k].sheet_id) by {
                    if k >= old(self).cells@.len() {
                        assert(all[k] == added[k - old(self).cells@.len()]);
                        assert(items[k - old(self).cells@.len()] == items[k - old(self).cells@.len()]);
                    } else {
                        assert(all[k] == old(self).cells@[k]);
                    }
                }
            }
        }
    }

    /// Creates a sheet named as asked with rows `1..=R` and columns
    /// `1..=C` (a count below one gives none) and one empty cell for every
    /// (row, column) pair.
    ///
    /// A count above `i32::MAX` is a `BadRequest`; a grid the identity
    /// space cannot hold is a `Database` error. On failure nothing changes.
    pub fn create_sheet(&mut self, payload: CreateSheetPayload, now: i64) -> (r: Result<SheetItem, AppError>)
        ensures
            payload.row_count > i32::MAX || payload.col_count > i32::MAX ==> r matches Err(AppError::BadRequest { .. }),
            payload.row_count <= i32::MAX && payload.col_count <= i32::MAX && !room_for_grid(
                old(self).next_id,
                provisioned_count(payload.row_count),
                provisioned_count(payload.col_count),
            ) ==> r matches Err(AppError::Database(_)),
            payload.row_count <= i32::MAX && payload.col_count <= i32::MAX && room_for_grid(
                old(self).next_id,
                provisioned_count(payload.row_count),
                provisioned_count(payload.col_count),
            ) ==> r is Ok,
            old(self).wf() ==> final(self).wf(),
            old(self).wf() && r is Ok ==> forall|j: int|
                0 <= j < old(self).sheets@.len() ==> (#[trigger] old(self).sheets@[j]).id != old(self).next_id,
            r is Err ==> *final(self) == *old(self),
            r matches Ok(sheet) ==> {
                let nr = provisioned_count(payload.row_count);
                let nc = provisioned_count(payload.col_count);
                let first = old(self).next_id as int;
                &&& sheet == (SheetItem { id: old(self).next_id, name: payload.name, created_at: now, updated_at: now })
                &&& final(self).sheets@ == old(self).sheets@.push(sheet)
                &&& final(self).rows@ == old(self).rows@ + fresh_rows(sheet.id, nr, first + 1, old(self).default_height)
                &&& final(self).columns@ == old(self).columns@ + fresh_columns(
                    sheet.id,
                    nc,
                    first + 1 + nr,
                    old(self).default_width,
                )
                &&& final(self).cells@ == old(self).cells@ + stored_cells(
                    empty_grid(first + 1, nr, first + 1 + nr, nc),
                    sheet.id,
                    first + 1 + nr + nc,
                    now,
                )
                &&& final(self).next_id == first + 1 + nr + nc + nr * nc
                &&& final(self).default_height == old(self).default_height
                &&& final(self).default_width == old(self).default_width
            },
    {
        match check_counts(&payload) {
            Ok(()) => {},
            Err(e) => {
                return Err(e);
            },
        }
        let ghost nr = provisioned_count(payload.row_count);
        let ghost nc = provisioned_count(payload.col_count);
        let rn: i128 = if payload.row_count > 0 { payload.row_count as i128 } else { 0 };
        let cn: i128 = if payload.col_count > 0 { payload.col_count as i128 } else { 0 };
        proof {
            assert(0 <= rn * cn) by (nonlinear_arith)
                requires
                    0 <= rn,
                    0 <= cn,
            ;
            assert(rn * cn <= i32::MAX as int * i32::MAX as int) by (nonlinear_arith)
                requires
                    0 <= rn <= i32::MAX,
                    0 <= cn <= i32::MAX,
            ;
        }
        if (self.next_id as i128) + 1 + rn + cn + rn * cn > i64::MAX as i128 || rn * cn > usize::MAX as i128 {
            return Err(AppError::Database(String::from_str("identifier space exhausted")));
        }
        let sheet_id = self.next_id;
        let sheet = SheetItem { id: sheet_id, name: payload.name, created_at: now, updated_at: now };
        let ghost first = sheet_id as int;

        let row_values = index_values(sheet_id, payload.row_count);
        let mut new_rows: Vec<RowItem> = Vec::with_capacity(row_values.len());
        let mut id: i64 = sheet_id + 1;
        let mut i: usize = 0;
        while i < row_values.len()
            invariant
                row_values@.len() == nr,
                nr == rn,
                first == sheet_id,
                first + 1 + nr <= i64::MAX,
                forall|j: int| 0 <= j < row_values@.len() ==> #[trigger] row_values@[j] == (sheet_id, (j + 1) as i32),
                i <= nr,
                id == first + 1 + i,
                new_rows@ == fresh_rows(sheet_id, i as nat, first + 1, self.default_height),
            decreases nr - i,
        {
            let (sid, index) = row_values[i];
            new_rows.push(RowItem { id, sheet_id: sid, row_index: index, height: self.default_height });
            id = id + 1;
            i = i + 1;
            assert(new_rows@ =~= fresh_rows(sheet_id, i as nat, first + 1, self.default_height));
        }

        let col_values = index_values(sheet_id, payload.col_count);
        let col_base: i64 = sheet_id + 1 + rn as i64;
        let mut new_cols: Vec<ColumnItem> = Vec::with_capacity(col_values.len());
        let mut id: i64 = col_base;
        let mut i: usize = 0;
        while i < col_values.len()
            invariant
                col_values@.len() == nc,
                nc == cn,
                nr == rn,
                first == sheet_id,
                col_base == first + 1 + nr,
                col_base + nc <= i64::MAX,
                forall|j: int| 0 <= j < col_values@.len() ==> #[trigger] col_values@[j] == (sheet_id, (j + 1) as i32),
                i <= nc,
                id == col_base + i,
                new_cols@ == fresh_columns(sheet_id, i as nat, col_base as int, self.default_width),
            decreases nc - i,
        {
            let (sid, index) = col_values[i];
            new_cols.push(ColumnItem { id, sheet_id: sid, column_index: index, width: self.default_width });
            id = id + 1;
            i = i + 1;
            assert(new_cols@ =~= fresh_columns(sheet_id, i as nat, col_base as int, self.default_width));
        }

        let triples = cell_cross_product(sheet_id, &new_rows, &new_cols);
        let ghost grid = empty_grid(first + 1, nr, first + 1 + nr, nc);
        let mut records: Vec<CellCopy> = Vec::with_capacity(triples.len());
        let mut k: usize = 0;
        while k < triples.len()
            invariant
                triples@ == cross_product(sheet_id, new_rows@, new_cols@),
                new_rows@ == fresh_rows(sheet_id, nr, first + 1, self.default_height),
                new_cols@ == fresh_columns(sheet_id, nc, first + 1 + nr, self.default_width),
                grid == empty_grid(first + 1, nr, first + 1 + nr, nc),
                k <= triples@.len(),
                records@ == grid.take(k as int),
            decreases triples@.len() - k,
        {
            let (_, row_id, column_id) = triples[k];
            records.push(CellCopy { row_id, column_id, value: None, formula: None });
            proof {
                lemma_cell_slot(nr as int, nc as int, k as int);
            }
            k = k + 1;
            assert(records@ =~= grid.take(k as int));
        }
        assert(grid.take(grid.len() as int) =~= grid);

        self.sheets.push(SheetItem { id: sheet.id, name: sheet.name.clone(), created_at: now, updated_at: now });
        self.rows.append(&mut new_rows);
        self.columns.append(&mut new_cols);
        self.next_id = sheet_id + 1 + rn as i64 + cn as i64;
        proof {
            if old(self).wf() {
                let fr = fresh_rows(sheet_id, nr, first + 1, self.default_height);
                let fc = fresh_columns(sheet_id, nc, first + 1 + nr, self.default_width);
                lemma_sheets_append(old(self).sheets@, seq![sheet], old(self).next_id, self.next_id);
                assert(self.sheets@ =~= old(self).sheets@ + seq![sheet]);
                lemma_rows_append(old(self).rows@, fr, old(self).next_id, self.next_id);
                lemma_columns_append(old(self).columns@, fc, old(self).next_id, self.next_id);
                lemma_cells_append(old(self).cells@, Seq::empty(), old(self).next_id, self.next_id);
                assert(old(self).cells@ + Seq::<CellItem>::empty() =~= old(self).cells@);
                lemma_placed_grow(old(self).cells@, old(self).rows@, old(self).columns@, fr, fc);
                assert(self.wf());
                let base_r = old(self).rows@.len() as int;
                let base_c = old(self).columns@.len() as int;
                assert forall|k: int| 0 <= k < grid.len() implies has_row(self.rows@, (#[trigger] grid[k]).row_id, sheet_id)
                    && has_column(self.columns@, grid[k].column_id, sheet_id) by {
                    lemma_cell_slot(nr as int, nc as int, k);
                    assert(self.rows@[base_r + k / (nc as int)] == fr[k / (nc as int)]);
                    assert(self.columns@[base_c + k % (nc as int)] == fc[k % (nc as int)]);
                }
            }
        }
        self.insert_cells(sheet_id, records, CELL_INSERT_CHUNK_SIZE, now);
        Ok(sheet)
    }

    /// Applies the sparse update `payload` to cell `cell_id` of sheet
    /// `sheet_id`: present fields are set (a null clears), absent fields
    /// and everything else are kept. `NotFound`, with nothing changed,
    /// when that sheet has no such cell.
    pub fn update_cell(&mut self, sheet_id: i64, cell_id: i64, payload: UpdateCellPayload) -> (r: Result<(), AppError>)
        ensures
            (r matches Err(AppError::NotFound)) <==> !(exists|j: int|
                0 <= j < old(self).cells@.len() && #[trigger] old(self).cells@[j].id == cell_id
                    && old(self).cells@[j].sheet_id == sheet_id),
            r is Err ==> (r matches Err(AppError::NotFound)),
            r is Err ==> *final(self) == *old(self),
            old(self).wf() ==> final(self).wf(),
            r is Ok ==> exists|j: int|
                0 <= j < old(self).cells@.len() && #[trigger] old(self).cells@[j].id == cell_id
                    && old(self).cells@[j].sheet_id == sheet_id && final(self).cells@ == old(self).cells@.update(
                    j,
                    CellItem {
                        value: patched(old(self).cells@[j].value, payload.value),
                        formula: patched(old(self).cells@[j].formula, payload.formula),
                        ..old(self).cells@[j]
                    },
                ),
            final(self).cells@.len() == old(self).cells@.len(),
            forall|j: int|
                0 <= j < old(self).cells@.len() ==> (#[trigger] final(self).cells@[j]).id == old(self).cells@[j].id,
            final(self).sheets == old(self).sheets,
            final(self).rows == old(self).rows,
            final(self).columns == old(self).columns,
            final(self).next_id == old(self).next_id,
            final(self).default_height == old(self).default_height,
            final(self).default_width == old(self).default_width,
    {
        let mut i: usize = 0;
        while i < self.cells.len()
            invariant
                *self == *old(self),
                i <= self.cells@.len(),
                forall|j: int|
                    0 <= j < i ==> !(#[trigger] self.cells@[j].id == cell_id && self.cells@[j].sheet_id == sheet_id),
            decreases self.cells@.len() - i,
        {
            if self.cells[i].id == cell_id && self.cells[i].sheet_id == sheet_id {
                let updated = apply_cell_patch(copy_cell(&self.cells[i]), payload);
                self.cells.set(i, updated);
                return Ok(());
            }
            i = i + 1;
        }
        Err(AppError::NotFound)
    }

    /// Renames sheet `id`; `NotFound`, with nothing changed, when there is
    /// no such sheet.
    pub fn update_sheet(&mut self, id: i64, payload: UpdateSheetPayload) -> (r: Result<(), AppError>)
        ensures
            (r matches Err(AppError::NotFound)) <==> !(exists|j: int|
                0 <= j < old(self).sheets@.len() && #[trigger] old(self).sheets@[j].id == id),
            r is Err ==> (r matches Err(AppError::NotFound)),
            r is Err ==> *final(self) == *old(self),
            old(self).wf() ==> final(self).wf(),
            r is Ok ==> exists|j: int|
                0 <= j < old(self).sheets@.len() && #[trigger] old(self).sheets@[j].id == id
                    && final(self).sheets@ == old(self).sheets@.update(
                    j,
                    SheetItem { name: payload.name, ..old(self).sheets@[j] },
                ),
            final(self).sheets@.len() == old(self).sheets@.len(),
            forall|j: int|
                0 <= j < old(self).sheets@.len() ==> (#[trigger] final(self).sheets@[j]).id == old(self).sheets@[j].id,
            final(self).rows == old(self).rows,
            final(self).columns == old(self).columns,
            final(self).cells == old(self).cells,
            final(self).next_id == old(self).next_id,
            final(self).default_height == old(self).default_height,
            final(self).default_width == old(self).default_width,
    {
        match self.find_sheet(id) {
            Some(i) => {
                let s = &self.sheets[i];
                let renamed = SheetItem { id: s.id, name: payload.name, created_at: s.created_at, updated_at: s.updated_at };
                self.sheets.set(i, renamed);
                Ok(())
            },
            None => Err(AppError::NotFound),
        }
    }

    /// The sheets that deleting sheet `id` keeps, in stored order.
    fn kept_sheets(&self, id: i64) -> (r: Vec<SheetItem>)
        ensures
            r@ == self.sheets@.filter(sheet_kept(id)),
    {
        let mut kept: Vec<SheetItem> = Vec::new();
        let mut i: usize = 0;
        while i < self.sheets.len()
            invariant
                i <= self.sheets@.len(),
                kept@ == self.sheets@.take(i as int).filter(sheet_kept(id)),
            decreases self.sheets@.len() - i,
        {
            proof {
                let s = self.sheets@.take(i + 1);
                assert(s.drop_last() == self.sheets@.take(i as int));
                assert(s.last() == self.sheets@[i as int]);
                reveal_with_fuel(Seq::filter, 1);
                assert(s.filter(sheet_kept(id)) == if sheet_kept(id)(s.last()) {
                    s.drop_last().filter(sheet_kept(id)).push(s.last())
                } else {
                    s.drop_last().filter(sheet_kept(id))
                });
            }
            if self.sheets[i].id != id {
                kept.push(copy_sheet(&self.sheets[i]));
            }
            i = i + 1;
        }
        assert(self.sheets@.take(self.sheets@.len() as int) == self.sheets@);
        kept
    }

    /// The rows that deleting sheet `id` keeps, in stored order.
    fn kept_rows(&self, id: i64) -> (r: Vec<RowItem>)
        ensures
            r@ == self.rows@.filter(row_kept(id)),
    {
        let mut kept: Vec<RowItem> = Vec::new();
        let mut i: usize = 0;
        while i < self.rows.len()
            invariant
                i <= self.rows@.len(),
                kept@ == self.rows@.take(i as int).filter(row_kept(id)),
            decreases self.rows@.len() - i,
        {
            proof {
                let s = self.rows@.take(i + 1);
                assert(s.drop_last() == self.rows@.take(i as int));
                assert(s.last() == self.rows@[i as int]);
                reveal_with_fuel(Seq::filter, 1);
                assert(s.filter(row_kept(id)) == if row_kept(id)(s.last()) {
                    s.drop_last().filter(row_kept(id)).push(s.last())
                } else {
                    s.drop_last().filter(row_kept(id))
                });
            }
            if self.rows[i].sheet_id != id {
                kept.push(self.rows[i]);
            }
            i = i + 1;
        }
        assert(self.rows@.take(self.rows@.len() as int) == self.rows@);
        kept
    }

    /// The columns that deleting sheet `id` keeps, in stored order.
    fn kept_columns(&self, id: i64) -> (r: Vec<ColumnItem>)
        ensures
            r@ == self.columns@.filter(column_kept(id)),
    {
        let mut kept: Vec<ColumnItem> = Vec::new();
        let mut i: usize = 0;
        while i < self.columns.len()
            invariant
                i <= self.columns@.len(),
                kept@ == self.columns@.take(i as int).filter(column_kept(id)),
            decreases self.columns@.len() - i,
        {
            proof {
                let s = self.columns@.take(i + 1);
                assert(s.drop_last() == self.columns@.take(i as int));
                assert(s.last() == self.columns@[i as int]);
                reveal_with_fuel(Seq::filter, 1);
                assert(s.filter(column_kept(id)) == if column_kept(id)(s.last()) {
                    s.drop_last().filter(column_kept(id)).push(s.last())
                } else {
                    s.drop_last().filter(column_kept(id))
                });
            }
            if self.columns[i].sheet_id != id {
                kept.push(self.columns[i]);
            }
            i = i + 1;
        }
        assert(self.columns@.take(self.columns@.len() as int) == self.columns@);
        kept
    }

    /// The cells that deleting sheet `id` keeps, in stored order.
    fn kept_cells(&self, id: i64) -> (r: Vec<CellItem>)
        ensures
            r@ == self.cells@.filter(cell_kept(id)),
    {
        let mut kept: Vec<CellItem> = Vec::new();
        let mut i: usize = 0;
        while i < self.cells.len()
            invariant
                i <= self.cells@.len(),
                kept@ == self.cells@.take(i as int).filter(cell_kept(id)),
            decreases self.cells@.len() - i,
        {
            proof {
                let s = self.cells@.take(i + 1);
                assert(s.drop_last() == self.cells@.take(i as int));
                assert(s.last() == self.cells@[i as int]);
                reveal_with_fuel(Seq::filter, 1);
                assert(s.filter(cell_kept(id)) == if cell_kept(id)(s.last()) {
                    s.drop_last().filter(cell_kept(id)).push(s.last())
                } else {
                    s.drop_last().filter(cell_kept(id))
                });
            }
            if self.cells[i].sheet_id != id {
                kept.push(copy_cell(&self.cells[i]));
            }
            i = i + 1;
        }
        assert(self.cells@.take(self.cells@.len() as int) == self.cells@);
        kept
    }

    /// Deletes sheet `id` together with its rows, columns and cells,
    /// keeping everything else in order; `NotFound`, with nothing changed,
    /// when there is no such sheet.
    pub fn delete_sheet(&mut self, id: i64) -> (r: Result<(), AppError>)
        ensures
            (r matches Err(AppError::NotFound)) <==> !(exists|j: int|
                0 <= j < old(self).sheets@.len() && #[trigger] old(self).sheets@[j].id == id),
            r is Err ==> (r matches Err(AppError::NotFound)),
            r is Err ==> *final(self) == *old(self),
            old(self).wf() ==> final(self).wf(),
            r is Ok ==> {
                &&& final(self).sheets@ == old(self).sheets@.filter(sheet_kept(id))
                &&& final(self).rows@ == old(self).rows@.filter(row_kept(id))
                &&& final(self).columns@ == old(self).columns@.filter(column_kept(id))
                &&& final(self).cells@ == old(self).cells@.filter(cell_kept(id))
                &&& final(self).next_id == old(self).next_id
                &&& final(self).default_height == old(self).default_height
                &&& final(self).default_width == old(self).default_width
            },
    {
        if self.find_sheet(id).is_none() {
            return Err(AppError::NotFound);
        }

        let kept_sheets = self.kept_sheets(id);
        let kept_rows = self.kept_rows(id);
        let kept_columns = self.kept_columns(id);
        let kept_cells = self.kept_cells(id);
        proof {
            if old(self).wf() {
                let b = self.next_id;
                lemma_filter_members(self.sheets@, sheet_kept(id));
                lemma_filter_members(self.rows@, row_kept(id));
                lemma_filter_members(self.columns@, column_kept(id));
                lemma_filter_members(self.cells@, cell_kept(id));
                lemma_filter_keeps_unique(self.sheets@, sheet_kept(id), |x: SheetItem| x.id);
                lemma_filter_keeps_unique(self.rows@, row_kept(id), |x: RowItem| x.id);
                lemma_filter_keeps_unique(self.columns@, column_kept(id), |x: ColumnItem| x.id);
                lemma_filter_keeps_unique(self.cells@, cell_kept(id), |x: CellItem| x.id);
                self.cells@.filter_lemma(cell_kept(id));
                self.rows@.filter_lemma(row_kept(id));
                self.columns@.filter_lemma(column_kept(id));
                assert forall|j: int| 0 <= j < kept_sheets@.len() implies 1 <= #[trigger] kept_sheets@[j].id < b by {
                    assert(self.sheets@.contains(kept_sheets@[j]));
                }
                assert forall|j: int| 0 <= j < kept_rows@.len() implies 1 <= #[trigger] kept_rows@[j].id < b by {
                    assert(self.rows@.contains(kept_rows@[j]));
                }
                assert forall|j: int| 0 <= j < kept_columns@.len() implies 1 <= #[trigger] kept_columns@[j].id < b by {
                    assert(self.columns@.contains(kept_columns@[j]));
                }
                assert forall|j: int| 0 <= j < kept_cells@.len() implies 1 <= #[trigger] kept_cells@[j].id < b by {
                    assert(self.cells@.contains(kept_cells@[j]));
                }
                assert forall|k: int| 0 <= k < kept_cells@.len() implies has_row(kept_rows@, (#[trigger] kept_cells@[k]).row_id, kept_cells@[k].sheet_id)
                    && has_column(kept_columns@, kept_cells@[k].column_id, kept_cells@[k].sheet_id) by {
                    let c = kept_cells@[k];
                    assert(cell_kept(id)(c));
                    assert(self.cells@.contains(c));
                    let m = choose|m: int| 0 <= m < self.cells@.len() && self.cells@[m] == c;
                    assert(has_row(self.rows@, self.cells@[m].row_id, self.cells@[m].sheet_id));
                    let q = choose|q: int| 0 <= q < self.rows@.len() && (#[trigger] self.rows@[q]).id == c.row_id && self.rows@[q].sheet_id == c.sheet_id;
                    assert(row_kept(id)(self.rows@[q]));
                    assert(kept_rows@.contains(self.rows@[q]));
                    let j = choose|j: int| 0 <= j < kept_rows@.len() && kept_rows@[j] == self.rows@[q];
                    assert(kept_rows@[j].id == c.row_id);
                    assert(has_column(self.columns@, self.cells@[m].column_id, self.cells@[m].sheet_id));
                    let w = choose|w: int| 0 <= w < self.columns@.len() && (#[trigger] self.columns@[w]).id == c.column_id && self.columns@[w].sheet_id == c.sheet_id;
                    assert(column_kept(id)(self.columns@[w]));
                    assert(kept_columns@.contains(self.columns@[w]));
                    let v = choose|v: int| 0 <= v < kept_columns@.len() && kept_columns@[v] == self.columns@[w];
                    assert(kept_columns@[v].id == c.column_id);
                }
            }
        }
        self.sheets = kept_sheets;
        self.rows = kept_rows;
        self.columns = kept_columns;
        self.cells = kept_cells;
        Ok(())
    }

    /// The first stored row with identity `id`, if any.
    pub fn row_by_id(&self, id: i64) -> (r: Option<RowItem>)
        ensures
            r == first_row_with(self.rows@, id),
    {
        let mut i: usize = 0;
        assert(self.rows@.skip(0) == self.rows@);
        while i < self.rows.len()
            invariant
                i <= self.rows@.len(),
                first_row_with(self.rows@, id) == first_row_with(self.rows@.skip(i as int), id),
            decreases self.rows@.len() - i,
        {
            assert(self.rows@.skip(i as int).drop_first() == self.rows@.skip(i + 1));
            if self.rows[i].id == id {
                return Some(self.rows[i]);
            }
            i = i + 1;
        }
        None
    }

    /// The first stored column with identity `id`, if any.
    pub fn column_by_id(&self, id: i64) -> (r: Option<ColumnItem>)
        ensures
            r == first_column_with(self.columns@, id),
    {
        let mut i: usize = 0;
        assert(self.columns@.skip(0) == self.columns@);
        while i < self.columns.len()
            invariant
                i <= self.columns@.len(),
                first_column_with(self.columns@, id) == first_column_with(self.columns@.skip(i as int), id),
            decreases self.columns@.len() - i,
        {
            assert(self.columns@.skip(i as int).drop_first() == self.columns@.skip(i + 1));
            if self.columns[i].id == id {
                return Some(self.columns[i]);
            }
            i = i + 1;
        }
        None
    }

    /// The grid of sheet `id`: its rows and columns in stored order, and
    /// each of its cells whose row and column exist, joined with their
    /// index and size. `NotFound` when there is no such sheet.
    pub fn get_sheet_by_id(&self, id: i64) -> (r: Result<Grid, AppError>)
        ensures
            (r matches Err(AppError::NotFound)) <==> !(exists|j: int|
                0 <= j < self.sheets@.len() && #[trigger] self.sheets@[j].id == id),
            r is Err ==> (r matches Err(AppError::NotFound)),
            r matches Ok(g) ==> {
                &&& g.rows@ == rows_of_sheet(self.rows@, id).map_values(|x: RowItem| row_view(x))
                &&& g.columns@ == columns_of_sheet(self.columns@, id).map_values(|x: ColumnItem| column_view(x))
                &&& g.cells@ == joined_cells(cells_of_sheet(self.cells@, id), self.rows@, self.columns@)
            },
    {
        if self.find_sheet(id).is_none() {
            return Err(AppError::NotFound);
        }
        let rows = self.sheet_rows(id);
        let cols = self.sheet_columns(id);
        let cells = self.sheet_cells(id);
        let mut joined: Vec<Cell> = Vec::new();
        let mut k: usize = 0;
        while k < cells.len()
            invariant
                k <= cells@.len(),
                joined@ == joined_cells(cells@.take(k as int), self.rows@, self.columns@),
            decreases cells@.len() - k,
        {
            let c = &cells[k];
            proof {
                let s = cells@.take(k + 1);
                assert(s.drop_last() == cells@.take(k as int));
                assert(s.last() == cells@[k as int]);
            }
            match (self.row_by_id(c.row_id), self.column_by_id(c.column_id)) {
                (Some(row), Some(col)) => {
                    joined.push(
                        Cell {
                            id: c.id,
                            value: copy_text(&c.value),
                            formula: copy_text(&c.formula),
                            row_index: row.row_index,
                            height: row.height,
                            column_index: col.column_index,
                            width: col.width,
                        },
                    );
                },
                _ => {},
            }
            k = k + 1;
        }
        assert(cells@.take(cells@.len() as int) == cells@);
        Ok(create_grid(rows, cols, joined))
    }

    /// Position of the first sheet with identity `id`.
    pub fn find_sheet(&self, id: i64) -> (r: Option<usize>)
        ensures
            r matches Some(i) ==> i < self.sheets@.len() && self.sheets@[i as int].id == id,
            r is None ==> forall|j: int| 0 <= j < self.sheets@.len() ==> #[trigger] self.sheets@[j].id != id,
    {
        let mut i: usize = 0;
        while i < self.sheets.len()
            invariant
                i <= self.sheets@.len(),
                forall|j: int| 0 <= j < i ==> #[trigger] self.sheets@[j].id != id,
            decreases self.sheets@.len() - i,
        {
            if self.sheets[i].id == id {
                return Some(i);
            }
            i = i + 1;
        }
        None
    }

    /// The rows of sheet `sheet_id`, in stored order.
    pub fn sheet_rows(&self, sheet_id: i64) -> (r: Vec<RowItem>)
        ensures
            r@ == rows_of_sheet(self.rows@, sheet_id),
    {
        let mut out: Vec<RowItem> = Vec::new();
        let mut i: usize = 0;
        while i < self.rows.len()
            invariant
                i <= self.rows@.len(),
                out@ == rows_of_sheet(self.rows@.take(i as int), sheet_id),
            decreases self.rows@.len() - i,
        {
            proof {
                let s = self.rows@.take(i + 1);
                assert(s.drop_last() == self.rows@.take(i as int));
                assert(s.last() == self.rows@[i as int]);
                reveal_with_fuel(Seq::filter, 1);
                assert(s.filter(row_in_sheet(sheet_id)) == if row_in_sheet(sheet_id)(s.last()) {
                    s.drop_last().filter(row_in_sheet(sheet_id)).push(s.last())
                } else {
                    s.drop_last().filter(row_in_sheet(sheet_id))
                });
            }
            if self.rows[i].sheet_id == sheet_id {
                out.push(self.rows[i]);
            }
            i = i + 1;
        }
        assert(self.rows@.take(self.rows@.len() as int) == self.rows@);
        out
    }

    /// The columns of sheet `sheet_id`, in stored order.
    pub fn sheet_columns(&self, sheet_id: i64) -> (r: Vec<ColumnItem>)
        ensures
            r@ == columns_of_sheet(self.columns@, sheet_id),
    {
        let mut out: Vec<ColumnItem> = Vec::new();
        let mut i: usize = 0;
        while i < self.columns.len()
            invariant
                i <= self.columns@.len(),
                out@ == columns_of_sheet(self.columns@.take(i as int), sheet_id),
            decreases self.columns@.len() - i,
        {
            proof {
                let s = self.columns@.take(i + 1);
                assert(s.drop_last() == self.columns@.take(i as int));
                assert(s.last() == self.columns@[i as int]);
                reveal_with_fuel(Seq::filter, 1);
                assert(s.filter(column_in_sheet(sheet_id)) == if column_in_sheet(sheet_id)(s.last()) {
                    s.drop_last().filter(column_in_sheet(sheet_id)).push(s.last())
                } else {
                    s.drop_last().filter(column_in_sheet(sheet_id))
                });
            }
            if self.columns[i].sheet_id == sheet_id {
                out.push(self.columns[i]);
            }
            i = i + 1;
        }
        assert(self.columns@.take(self.columns@.len() as int) == self.columns@);
        out
    }

    /// The cells of sheet `sheet_id`, empty ones included, in stored order.
    pub fn sheet_cells(&self, sheet_id: i64) -> (r: Vec<CellItem>)
        ensures
            r@ == cells_of_sheet(self.cells@, sheet_id),
    {
        let mut out: Vec<CellItem> = Vec::new();
        let mut i: usize = 0;
        while i < self.cells.len()
            invariant
                i <= self.cells@.len(),
                out@ == cells_of_sheet(self.cells@.take(i as int), sheet_id),
            decreases self.cells@.len() - i,
        {
            proof {
                let s = self.cells@.take(i + 1);
                assert(s.drop_last() == self.cells@.take(i as int));
                assert(s.last() == self.cells@[i as int]);
                reveal_with_fuel(Seq::filter, 1);
                assert(s.filter(cell_in_sheet(sheet_id)) == if cell_in_sheet(sheet_id)(s.last()) {
                    s.drop_last().filter(cell_in_sheet(sheet_id)).push(s.last())
                } else {
                    s.drop_last().filter(cell_in_sheet(sheet_id))
                });
            }
            if self.cells[i].sheet_id == sheet_id {
                out.push(copy_cell(&self.cells[i]));
            }
            i = i + 1;
        }
        assert(self.cells@.take(self.cells@.len() as int) == self.cells@);
        out
    }

    /// Copies sheet `id` into a new sheet named after it with a copy
    /// marker: its rows and columns, with the same indexes and sizes in
    /// the same order, and every one of its cells, empty ones included,
    /// moved to the new row and column that copy its own.
    ///
    /// Fails with `NotFound` when no sheet has identity `id`, with
    /// `Database` when the identity space cannot hold the copy, and with
    /// `InternalServerError` when a cell refers to a row or column outside
    /// its sheet. On failure nothing changes.
    pub fn duplicate_sheet(&mut self, id: i64, now: i64) -> (r: Result<SheetItem, AppError>)
        ensures
            ({
                let src_rows = rows_of_sheet(old(self).rows@, id);
                let src_cols = columns_of_sheet(old(self).columns@, id);
                let src_cells = cells_of_sheet(old(self).cells@, id);
                let first = old(self).next_id as int;
                let nr = src_rows.len() as int;
                let nc = src_cols.len() as int;
                let rm = pairing(row_ids_of(src_rows), fresh_ids(first + 1, nr as nat));
                let cm = pairing(column_ids_of(src_cols), fresh_ids(first + 1 + nr, nc as nat));
                let exists_src = exists|j: int| 0 <= j < old(self).sheets@.len() && #[trigger] old(self).sheets@[j].id == id;
                let room = first + 1 + nr + nc + src_cells.len() <= i64::MAX;
                &&& (r matches Err(AppError::NotFound)) <==> !exists_src
                &&& exists_src && !room ==> (r matches Err(AppError::Database(_)))
                &&& exists_src && room ==> (r is Ok <==> all_mapped(src_cells, rm, cm))
                &&& exists_src && room && !all_mapped(src_cells, rm, cm) ==> (r matches Err(AppError::InternalServerError))
                &&& r is Err ==> *final(self) == *old(self)
                &&& old(self).wf() ==> final(self).wf()
                &&& old(self).wf() && exists_src && room ==> r is Ok
                &&& old(self).wf() && r is Ok ==> forall|j: int|
                    0 <= j < old(self).sheets@.len() ==> (#[trigger] old(self).sheets@[j]).id != old(self).next_id
                &&& old(self).wf() && r is Ok ==> forall|k: int|
                    0 <= k < src_cells.len() ==> exists|j: int, m: int|
                        0 <= j < nr && 0 <= m < nc && src_rows[j].id == (#[trigger] src_cells[k]).row_id
                            && src_cols[m].id == src_cells[k].column_id
                            && final(self).cells@[old(self).cells@.len() + k].row_id
                            == final(self).rows@[old(self).rows@.len() + j].id
                            && final(self).cells@[old(self).cells@.len() + k].column_id
                            == final(self).columns@[old(self).columns@.len() + m].id
                            && final(self).cells@[old(self).cells@.len() + k].value == src_cells[k].value
                            && final(self).cells@[old(self).cells@.len() + k].formula == src_cells[k].formula
                &&& r matches Ok(sheet) ==> {
                    &&& sheet.id == old(self).next_id
                    &&& sheet.created_at == now
                    &&& sheet.updated_at == now
                    &&& exists|j: int|
                        0 <= j < old(self).sheets@.len() && #[trigger] old(self).sheets@[j].id == id && sheet.name@
                            == copy_name_of(old(self).sheets@[j].name@)
                    &&& final(self).sheets@ == old(self).sheets@.push(sheet)
                    &&& final(self).rows@ == old(self).rows@ + copied_rows(src_rows, sheet.id, first + 1)
                    &&& final(self).columns@ == old(self).columns@ + copied_columns(src_cols, sheet.id, first + 1 + nr)
                    &&& final(self).cells@ == old(self).cells@ + stored_cells(
                        cell_copies_of(src_cells, rm, cm),
                        sheet.id,
                        first + 1 + nr + nc,
                        now,
                    )
                    &&& final(self).next_id == first + 1 + nr + nc + src_cells.len()
                    &&& final(self).default_height == old(self).default_height
                    &&& final(self).default_width == old(self).default_width
                }
            }),
    {
        let idx = match self.find_sheet(id) {
            Some(i) => i,
            None => {
                return Err(AppError::NotFound);
            },
        };
        let src_rows = self.sheet_rows(id);
        let src_cols = self.sheet_columns(id);
        let src_cells = self.sheet_cells(id);
        let ghost first = self.next_id as int;
        let ghost nr = src_rows@.len() as int;
        let ghost nc = src_cols@.len() as int;
        if (self.next_id as i128) + 1 + (src_rows.len() as i128) + (src_cols.len() as i128) + (src_cells.len() as i128)
            > i64::MAX as i128 {
            return Err(AppError::Database(String::from_str("identifier space exhausted")));
        }
        let new_id = self.next_id;
        let name = copy_name(self.sheets[idx].name.as_str());

        let row_values = copied_row_values(&src_rows, new_id);
        let mut new_rows: Vec<RowItem> = Vec::with_capacity(row_values.len());
        let mut next: i64 = new_id + 1;
        let mut i: usize = 0;
        while i < row_values.len()
            invariant
                row_values@.len() == nr,
                src_rows@.len() == nr,
                first == new_id,
                first + 1 + nr <= i64::MAX,
                forall|j: int|
                    0 <= j < row_values@.len() ==> #[trigger] row_values@[j] == (new_id, src_rows@[j].row_index, src_rows@[j].height),
                i <= nr,
                next == first + 1 + i,
                new_rows@ == copied_rows(src_rows@.take(i as int), new_id, first + 1),
            decreases nr - i,
        {
            let (sid, index, height) = row_values[i];
            new_rows.push(RowItem { id: next, sheet_id: sid, row_index: index, height });
            next = next + 1;
            i = i + 1;
            assert(new_rows@ =~= copied_rows(src_rows@.take(i as int), new_id, first + 1));
        }
        assert(src_rows@.take(nr) == src_rows@);

        let col_values = copied_column_values(&src_cols, new_id);
        let mut new_cols: Vec<ColumnItem> = Vec::with_capacity(col_values.len());
        let col_base: i64 = next;
        let mut i: usize = 0;
        while i < col_values.len()
            invariant
                col_values@.len() == nc,
                src_cols@.len() == nc,
                col_base == first + 1 + nr,
                col_base + nc <= i64::MAX,
                forall|j: int|
                    0 <= j < col_values@.len() ==> #[trigger] col_values@[j] == (new_id, src_cols@[j].column_index, src_cols@[j].width),
                i <= nc,
                next == col_base + i,
                new_cols@ == copied_columns(src_cols@.take(i as int), new_id, col_base as int),
            decreases nc - i,
        {
            let (sid, index, width) = col_values[i];
            new_cols.push(ColumnItem { id: next, sheet_id: sid, column_index: index, width });
            next = next + 1;
            i = i + 1;
            assert(new_cols@ =~= copied_columns(src_cols@.take(i as int), new_id, col_base as int));
        }
        assert(src_cols@.take(nc) == src_cols@);

        let new_row_ids = row_ids(&new_rows);
        let new_col_ids = column_ids(&new_cols);
        assert(new_row_ids@ =~= fresh_ids(first + 1, nr as nat));
        assert(new_col_ids@ =~= fresh_ids(first + 1 + nr, nc as nat));
        let row_map = pair_ids(&row_ids(&src_rows), &new_row_ids);
        let col_map = pair_ids(&column_ids(&src_cols), &new_col_ids);
        proof {
            if old(self).wf() {
                lemma_sheet_grid_consistent(self.rows@, self.columns@, self.cells@, id, self.next_id);
                lemma_copy_keeps_content(src_rows@, new_row_ids@, src_cols@, new_col_ids@, src_cells@);
            }
        }
        let copies = match remap_cells(&src_cells, &row_map, &col_map) {
            Ok(v) => v,
            Err(e) => {
                return Err(e);
            },
        };

        let sheet = SheetItem { id: new_id, name, created_at: now, updated_at: now };
        self.sheets.push(SheetItem { id: new_id, name: sheet.name.clone(), created_at: now, updated_at: now });
        self.rows.append(&mut new_rows);
        self.columns.append(&mut new_cols);
        self.next_id = next;
        let ghost mid_rows = self.rows@;
        let ghost mid_cols = self.columns@;
        let ghost mid_cells = self.cells@;
        let ghost recs = copies@;
        proof {
            if old(self).wf() {
                let cr = copied_rows(src_rows@, new_id, first + 1);
                let cc = copied_columns(src_cols@, new_id, first + 1 + nr);
                lemma_sheets_append(old(self).sheets@, seq![sheet], old(self).next_id, self.next_id);
                assert(self.sheets@ =~= old(self).sheets@ + seq![sheet]);
                lemma_rows_append(old(self).rows@, cr, old(self).next_id, self.next_id);
                lemma_columns_append(old(self).columns@, cc, old(self).next_id, self.next_id);
                lemma_cells_append(old(self).cells@, Seq::empty(), old(self).next_id, self.next_id);
                assert(old(self).cells@ + Seq::<CellItem>::empty() =~= old(self).cells@);
                lemma_placed_grow(old(self).cells@, old(self).rows@, old(self).columns@, cr, cc);
                assert(self.wf());
                lemma_sheet_grid_consistent(old(self).rows@, old(self).columns@, old(self).cells@, id, old(self).next_id);
                lemma_copy_keeps_content(src_rows@, new_row_ids@, src_cols@, new_col_ids@, src_cells@);
                let base_r = old(self).rows@.len() as int;
                let base_c = old(self).columns@.len() as int;
                assert forall|k: int| 0 <= k < recs.len() implies has_row(self.rows@, (#[trigger] recs[k]).row_id, new_id)
                    && has_column(self.columns@, recs[k].column_id, new_id) by {
                    let c = src_cells@[k];
                    let j = choose|j: int| 0 <= j < src_rows@.len() && src_rows@[j].id == c.row_id;
                    let m = choose|m: int| 0 <= m < src_cols@.len() && src_cols@[m].id == c.column_id;
                    assert(src_rows@[j].id == src_cells@[k].row_id && src_cols@[m].id == src_cells@[k].column_id);
                    assert(self.rows@[base_r + j] == cr[j]);
                    assert(self.columns@[base_c + m] == cc[m]);
                }
            }
        }
        self.insert_cells(new_id, copies, CELL_INSERT_CHUNK_SIZE, now);
        proof {
            if old(self).wf() {
                lemma_sheet_grid_consistent(old(self).rows@, old(self).columns@, old(self).cells@, id, old(self).next_id);
                lemma_copy_keeps_content(src_rows@, new_row_ids@, src_cols@, new_col_ids@, src_cells@);
                let base_r = old(self).rows@.len() as int;
                let base_c = old(self).columns@.len() as int;
                let base_x = old(self).cells@.len() as int;
                assert forall|k: int| 0 <= k < src_cells@.len() implies exists|j: int, m: int|
                    0 <= j < nr && 0 <= m < nc && src_rows@[j].id == (#[trigger] src_cells@[k]).row_id
                        && src_cols@[m].id == src_cells@[k].column_id
                        && self.cells@[base_x + k].row_id == self.rows@[base_r + j].id
                        && self.cells@[base_x + k].column_id == self.columns@[base_c + m].id
                        && self.cells@[base_x + k].value == src_cells@[k].value
                        && self.cells@[base_x + k].formula == src_cells@[k].formula by {
                    let c = src_cells@[k];
                    let j = choose|j: int| 0 <= j < src_rows@.len() && src_rows@[j].id == c.row_id;
                    let m = choose|m: int| 0 <= m < src_cols@.len() && src_cols@[m].id == c.column_id;
                    assert(src_rows@[j].id == src_cells@[k].row_id && src_cols@[m].id == src_cells@[k].column_id);
                    assert(self.cells@[base_x + k] == stored_cells(recs, new_id, first + 1 + nr + nc, now)[k]);
                    assert(self.rows@[base_r + j] == mid_rows[base_r + j]);
                    assert(self.columns@[base_c + m] == mid_cols[base_c + m]);
                }
            }
        }
        Ok(sheet)
    }
}

/// Whether a row belongs to sheet `sheet_id`.
pub open spec fn row_in_sheet(sheet_id: i64) -> spec_fn(RowItem) -> bool {
    |r: RowItem| r.sheet_id == sheet_id
}

/// Whether a column belongs to sheet `sheet_id`.
pub open spec fn column_in_sheet(sheet_id: i64) -> spec_fn(ColumnItem) -> bool {
    |c: ColumnItem| c.sheet_id == sheet_id
}

/// Whether a cell belongs to sheet `sheet_id`.
pub open spec fn cell_in_sheet(sheet_id: i64) -> spec_fn(CellItem) -> bool {
    |c: CellItem| c.sheet_id == sheet_id
}

/// Whether a sheet is other than sheet `id`.
pub open spec fn sheet_kept(id: i64) -> spec_fn(SheetItem) -> bool {
    |s: SheetItem| s.id != id
}

/// Whether a row belongs to a sheet other than sheet `id`.
pub open spec fn row_kept(id: i64) -> spec_fn(RowItem) -> bool {
    |r: RowItem| r.sheet_id != id
}

/// Whether a column belongs to a sheet other than sheet `id`.
pub open spec fn column_kept(id: i64) -> spec_fn(ColumnItem) -> bool {
    |c: ColumnItem| c.sheet_id != id
}

/// Whether a cell belongs to a sheet other than sheet `id`.
pub open spec fn cell_kept(id: i64) -> spec_fn(CellItem) -> bool {
    |c: CellItem| c.sheet_id != id
}

/// The rows of sheet `sheet_id`, in stored order.
pub open spec fn rows_of_sheet(rows: Seq<RowItem>, sheet_id: i64) -> Seq<RowItem> {
    rows.filter(row_in_sheet(sheet_id))
}

/// The columns of sheet `sheet_id`, in stored order.
pub open spec fn columns_of_sheet(cols: Seq<ColumnItem>, sheet_id: i64) -> Seq<ColumnItem> {
    cols.filter(column_in_sheet(sheet_id))
}

/// The cells of sheet `sheet_id`, in stored order.
pub open spec fn cells_of_sheet(cells: Seq<CellItem>, sheet_id: i64) -> Seq<CellItem> {
    cells.filter(cell_in_sheet(sheet_id))
}

/// The first row of `rows` with identity `id`, if any.
pub open spec fn first_row_with(rows: Seq<RowItem>, id: i64) -> Option<RowItem>
    decreases rows.len(),
{
    if rows.len() == 0 {
        None
    } else if rows[0].id == id {
        Some(rows[0])
    } else {
        first_row_with(rows.drop_first(), id)
    }
}

/// The first column of `cols` with identity `id`, if any.
pub open spec fn first_column_with(cols: Seq<ColumnItem>, id: i64) -> Option<ColumnItem>
    decreases cols.len(),
{
    if cols.len() == 0 {
        None
    } else if cols[0].id == id {
        Some(cols[0])
    } else {
        first_column_with(cols.drop_first(), id)
    }
}

/// `c` joined with its row and column, when both exist.
pub open spec fn joined_cell(c: CellItem, rows: Seq<RowItem>, cols: Seq<ColumnItem>) -> Option<Cell> {
    match (first_row_with(rows, c.row_id), first_column_with(cols, c.column_id)) {
        (Some(row), Some(col)) => Some(
            Cell {
                id: c.id,
                value: c.value,
                formula: c.formula,
                row_index: row.row_index,
                height: row.height,
                column_index: col.column_index,
                width: col.width,
            },
        ),
        _ => None,
    }
}

/// The cells that have both their row and column, joined with them, in
/// order; the others are left out, as an inner join leaves them.
pub open spec fn joined_cells(cells: Seq<CellItem>, rows: Seq<RowItem>, cols: Seq<ColumnItem>) -> Seq<Cell>
    decreases cells.len(),
{
    if cells.len() == 0 {
        Seq::empty()
    } else {
        let before = joined_cells(cells.drop_last(), rows, cols);
        match joined_cell(cells.last(), rows, cols) {
            Some(j) => before.push(j),
            None => before,
        }
    }
}

/// `count` consecutive identities from `first_id` on.
pub open spec fn fresh_ids(first_id: int, count: nat) -> Seq<i64> {
    Seq::new(count, |i: int| (first_id + i) as i64)
}

/// Copies of `src` under sheet `sheet_id`, with identities from `first_id`
/// on, keeping each row's index and height.
pub open spec fn copied_rows(src: Seq<RowItem>, sheet_id: i64, first_id: int) -> Seq<RowItem> {
    Seq::new(
        src.len(),
        |i: int| RowItem { id: (first_id + i) as i64, sheet_id, row_index: src[i].row_index, height: src[i].height },
    )
}

/// Copies of `src` under sheet `sheet_id`, with identities from `first_id`
/// on, keeping each column's index and width.
pub open spec fn copied_columns(src: Seq<ColumnItem>, sheet_id: i64, first_id: int) -> Seq<ColumnItem> {
    Seq::new(
        src.len(),
        |i: int|
            ColumnItem { id: (first_id + i) as i64, sheet_id, column_index: src[i].column_index, width: src[i].width },
    )
}

/// An equal copy of a sheet record.
pub fn copy_sheet(s: &SheetItem) -> (r: SheetItem)
    ensures
        r == *s,
{
    SheetItem { id: s.id, name: s.name.clone(), created_at: s.created_at, updated_at: s.updated_at }
}

/// An equal copy of a cell.
pub fn copy_cell(c: &CellItem) -> (r: CellItem)
    ensures
        r == *c,
{
    CellItem {
        id: c.id,
        sheet_id: c.sheet_id,
        row_id: c.row_id,
        column_id: c.column_id,
        value: copy_text(&c.value),
        formula: copy_text(&c.formula),
        created_at: c.created_at,
        updated_at: c.updated_at,
    }
}

/// A sheet made by `create_sheet` holds its full grid.
///
/// Its `nr` rows are numbered `1..=nr` and its `nc` columns `1..=nc`;
/// it has `nr * nc` cells, all empty, each referring to one of its rows and
/// one of its columns; no two cells lie at the same (row index, column
/// index) position, and every position in `1..=nr` by `1..=nc` holds one.
pub proof fn lemma_created_sheet_is_full_grid(
    sheet_id: i64,
    nr: nat,
    nc: nat,
    first: int,
    height: u64,
    width: u64,
    now: i64,
)
    requires
        nr <= i32::MAX,
        nc <= i32::MAX,
    ensures
        ({
            let rows = fresh_rows(sheet_id, nr, first + 1, height);
            let cols = fresh_columns(sheet_id, nc, first + 1 + nr, width);
            let cells = stored_cells(empty_grid(first + 1, nr, first + 1 + nr, nc), sheet_id, first + 1 + nr + nc, now);
            &&& numbered_rows(rows)
            &&& numbered_columns(cols)
            &&& cells.len() == nr * nc
            &&& forall|k: int|
                0 <= k < cells.len() ==> {
                    &&& 0 <= k / (nc as int) < nr
                    &&& 0 <= k % (nc as int) < nc
                    &&& (#[trigger] cells[k]).sheet_id == sheet_id
                    &&& cells[k].row_id == rows[k / (nc as int)].id
                    &&& cells[k].column_id == cols[k % (nc as int)].id
                    &&& cells[k].value is None
                    &&& cells[k].formula is None
                }
            &&& forall|k1: int, k2: int|
                0 <= k1 < k2 < cells.len() ==> #[trigger] position_of(rows, cols, k1) != #[trigger] position_of(
                    rows,
                    cols,
                    k2,
                )
            &&& forall|a: int, b: int| 1 <= a <= nr && 1 <= b <= nc ==> #[trigger] has_cell_at(rows, cols, a, b)
        }),
{
    let rows = fresh_rows(sheet_id, nr, first + 1, height);
    let cols = fresh_columns(sheet_id, nc, first + 1 + nr, width);
    let cells = stored_cells(empty_grid(first + 1, nr, first + 1 + nr, nc), sheet_id, first + 1 + nr + nc, now);
    assert(rows.len() == nr && cols.len() == nc);
    lemma_provision_covers_grid(sheet_id, rows, cols);
    assert forall|k: int| 0 <= k < cells.len() implies {
        &&& 0 <= k / (nc as int) < nr
        &&& 0 <= k % (nc as int) < nc
        &&& (#[trigger] cells[k]).sheet_id == sheet_id
        &&& cells[k].row_id == rows[k / (nc as int)].id
        &&& cells[k].column_id == cols[k % (nc as int)].id
        &&& cells[k].value is None
        &&& cells[k].formula is None
    } by {
        lemma_cell_slot(nr as int, nc as int, k);
    }
}

} // verus!
