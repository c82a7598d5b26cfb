use sheeter::chunk::{chunks, CELL_INSERT_CHUNK_SIZE};
use sheeter::clone::{copy_name, pair_ids, remap_cells, CellCopy};
use sheeter::error::{found, require_exists, AppError};
use sheeter::grid::create_grid;
use sheeter::patch::{apply_cell_patch, cell_update_assignments, CellField};
use sheeter::provision::{cell_cross_product, check_counts, index_values};
use sheeter::store::MemoryStore;
use sheeter::types::{
    default_col_count, default_limit, default_row_count, Cell, CellItem, ColumnItem, CreateSheetPayload, Pagination,
    RowItem, UpdateCellPayload, UpdateSheetPayload,
};

const HEIGHT: u64 = 0x4039000000000000;
const WIDTH: u64 = 0x4059000000000000;

fn store() -> MemoryStore {
    MemoryStore::new(HEIGHT, WIDTH)
}

fn payload(name: &str, rows: i64, cols: i64) -> CreateSheetPayload {
    CreateSheetPayload { name: name.to_string(), row_count: rows, col_count: cols }
}

fn position(store: &MemoryStore, cell: &CellItem) -> (i32, i32) {
    let row = store.rows.iter().find(|r| r.id == cell.row_id).expect("row of cell");
    let col = store.columns.iter().find(|c| c.id == cell.column_id).expect("column of cell");
    assert_eq!(row.sheet_id, cell.sheet_id);
    assert_eq!(col.sheet_id, cell.sheet_id);
    (row.row_index, col.column_index)
}

fn cell(id: i64, sheet_id: i64, row_id: i64, column_id: i64, value: Option<&str>, formula: Option<&str>) -> CellItem {
    CellItem {
        id,
        sheet_id,
        row_id,
        column_id,
        value: value.map(|v| v.to_string()),
        formula: formula.map(|f| f.to_string()),
        created_at: 0,
        updated_at: 0,
    }
}

#[test]
fn defaults_match_the_api() {
    assert_eq!(default_limit(), 100);
    assert_eq!(default_row_count(), 1000);
    assert_eq!(default_col_count(), 26);
    let p = Pagination::new();
    assert_eq!((p.start, p.limit), (0, 100));
    let c = CreateSheetPayload::with_name("Plan".to_string());
    assert_eq!((c.name.as_str(), c.row_count, c.col_count), ("Plan", 1000, 26));
}

#[test]
fn create_three_by_two_gives_six_empty_cells() {
    let mut s = store();
    let sheet = s.create_sheet(payload("Budget", 3, 2), 7).unwrap();
    assert_eq!(sheet.id, 1);
    assert_eq!(sheet.name, "Budget");
    assert_eq!((sheet.created_at, sheet.updated_at), (7, 7));
    assert_eq!(s.rows.iter().map(|r| r.row_index).collect::<Vec<_>>(), vec![1, 2, 3]);
    assert_eq!(s.columns.iter().map(|c| c.column_index).collect::<Vec<_>>(), vec![1, 2]);
    assert!(s.rows.iter().all(|r| r.height == HEIGHT && r.sheet_id == sheet.id));
    assert!(s.columns.iter().all(|c| c.width == WIDTH && c.sheet_id == sheet.id));
    assert_eq!(s.cells.len(), 6);
    let mut positions: Vec<(i32, i32)> = s.cells.iter().map(|c| position(&s, c)).collect();
    positions.sort();
    assert_eq!(positions, vec![(1, 1), (1, 2), (2, 1), (2, 2), (3, 1), (3, 2)]);
    assert!(s.cells.iter().all(|c| c.value.is_none() && c.formula.is_none()));
    assert_eq!(s.next_id, 1 + 1 + 3 + 2 + 6);
}

#[test]
fn create_with_no_columns_gives_no_cells() {
    let mut s = store();
    s.create_sheet(payload("Tall", 4, 0), 0).unwrap();
    assert_eq!(s.rows.len(), 4);
    assert_eq!(s.columns.len(), 0);
    assert_eq!(s.cells.len(), 0);
}

#[test]
fn create_with_negative_counts_gives_empty_grid() {
    let mut s = store();
    s.create_sheet(payload("Empty", -5, -1), 0).unwrap();
    assert_eq!(s.sheets.len(), 1);
    assert!(s.rows.is_empty() && s.columns.is_empty() && s.cells.is_empty());
}

#[test]
fn create_with_too_many_rows_is_bad_request() {
    let mut s = store();
    let r = s.create_sheet(payload("Huge", i32::MAX as i64 + 1, 1), 0);
    assert!(matches!(r, Err(AppError::BadRequest { .. })));
    assert!(s.sheets.is_empty());
}

#[test]
fn create_past_the_identity_space_is_database_error() {
    let mut s = store();
    s.next_id = i64::MAX - 3;
    let r = s.create_sheet(payload("Late", 2, 2), 0);
    assert!(matches!(r, Err(AppError::Database(_))));
    assert!(s.sheets.is_empty() && s.rows.is_empty());
}

#[test]
fn create_large_grid_crosses_batches() {
    let mut s = store();
    s.create_sheet(payload("Wide", 101, 50), 0).unwrap();
    assert_eq!(s.cells.len(), 5050);
    assert!(s.cells.len() > CELL_INSERT_CHUNK_SIZE);
    let ids: Vec<i64> = s.cells.iter().map(|c| c.id).collect();
    let first = 1 + 1 + 101 + 50;
    assert_eq!(ids, (first..first + 5050).collect::<Vec<i64>>());
    let last = s.cells.last().unwrap().clone();
    assert_eq!(position(&s, &last), (101, 50));
}

#[test]
fn duplicate_copies_structure_and_content() {
    let mut s = store();
    let src = s.create_sheet(payload("Budget", 3, 2), 1).unwrap();
    let target = s.cells[3].id;
    s.update_cell(src.id, target, UpdateCellPayload { value: Some(Some("42".to_string())), formula: Some(Some("=6*7".to_string())) })
        .unwrap();
    let copy = s.duplicate_sheet(src.id, 2).unwrap();
    assert_eq!(copy.name, "Budget (Copy)");
    assert_eq!(s.sheets.len(), 2);
    let rows: Vec<&RowItem> = s.rows.iter().filter(|r| r.sheet_id == copy.id).collect();
    let cols: Vec<&ColumnItem> = s.columns.iter().filter(|c| c.sheet_id == copy.id).collect();
    assert_eq!(rows.iter().map(|r| (r.row_index, r.height)).collect::<Vec<_>>(), vec![(1, HEIGHT), (2, HEIGHT), (3, HEIGHT)]);
    assert_eq!(cols.iter().map(|c| (c.column_index, c.width)).collect::<Vec<_>>(), vec![(1, WIDTH), (2, WIDTH)]);
    let mut source: Vec<((i32, i32), Option<String>, Option<String>)> = s
        .cells
        .iter()
        .filter(|c| c.sheet_id == src.id)
        .map(|c| (position(&s, c), c.value.clone(), c.formula.clone()))
        .collect();
    let mut copied: Vec<((i32, i32), Option<String>, Option<String>)> = s
        .cells
        .iter()
        .filter(|c| c.sheet_id == copy.id)
        .map(|c| (position(&s, c), c.value.clone(), c.formula.clone()))
        .collect();
    source.sort();
    copied.sort();
    assert_eq!(copied.len(), 6);
    assert_eq!(source, copied);
    assert!(copied.contains(&((2, 2), Some("42".to_string()), Some("=6*7".to_string()))));
}

#[test]
fn duplicate_is_independent_of_its_source() {
    let mut s = store();
    let src = s.create_sheet(payload("Budget", 3, 2), 0).unwrap();
    let copy = s.duplicate_sheet(src.id, 0).unwrap();
    let copied_ids: Vec<i64> = s.cells.iter().filter(|c| c.sheet_id == copy.id).map(|c| c.id).collect();
    let first = s.cells.iter().find(|c| c.sheet_id == src.id).unwrap().id;
    s.update_cell(src.id, first, UpdateCellPayload { value: Some(Some("x".to_string())), formula: None }).unwrap();
    assert!(s.cells.iter().filter(|c| c.sheet_id == copy.id).all(|c| c.value.is_none()));
    assert_eq!(copied_ids.len(), 6);
    assert!(s.rows.iter().filter(|r| r.sheet_id == copy.id).all(|r| r.id > src.id));
}

#[test]
fn duplicate_of_missing_sheet_is_not_found() {
    let mut s = store();
    s.create_sheet(payload("Only", 1, 1), 0).unwrap();
    let r = s.duplicate_sheet(99, 0);
    assert!(matches!(r, Err(AppError::NotFound)));
    assert_eq!(s.sheets.len(), 1);
    assert_eq!(s.rows.len(), 1);
    assert_eq!(s.cells.len(), 1);
}

#[test]
fn duplicate_with_stray_cell_is_internal_error() {
    let mut s = store();
    let src = s.create_sheet(payload("Broken", 1, 1), 0).unwrap();
    s.cells.push(cell(500, src.id, 777, 3, None, None));
    let before = s.sheets.len();
    let r = s.duplicate_sheet(src.id, 0);
    assert!(matches!(r, Err(AppError::InternalServerError)));
    assert_eq!(s.sheets.len(), before);
}

#[test]
fn patch_with_no_fields_changes_nothing() {
    let c = cell(1, 1, 2, 3, Some("a"), Some("=b"));
    let r = apply_cell_patch(c, UpdateCellPayload { value: None, formula: None });
    assert_eq!(r.value.as_deref(), Some("a"));
    assert_eq!(r.formula.as_deref(), Some("=b"));
}

#[test]
fn patch_with_null_value_clears_value_only() {
    let c = cell(1, 1, 2, 3, Some("a"), Some("=b"));
    let r = apply_cell_patch(c, UpdateCellPayload { value: Some(None), formula: None });
    assert_eq!(r.value, None);
    assert_eq!(r.formula.as_deref(), Some("=b"));
}

#[test]
fn patch_with_value_sets_value_only() {
    let c = cell(1, 1, 2, 3, None, Some("=b"));
    let r = apply_cell_patch(c, UpdateCellPayload { value: Some(Some("42".to_string())), formula: None });
    assert_eq!(r.value.as_deref(), Some("42"));
    assert_eq!(r.formula.as_deref(), Some("=b"));
    assert_eq!((r.id, r.sheet_id, r.row_id, r.column_id), (1, 1, 2, 3));
}

#[test]
fn update_assignments_follow_present_fields() {
    let none = cell_update_assignments(&UpdateCellPayload { value: None, formula: None });
    assert!(none.is_empty());
    let both = cell_update_assignments(&UpdateCellPayload { value: Some(None), formula: Some(Some("=1".to_string())) });
    assert_eq!(both.len(), 2);
    assert_eq!(both[0].field, CellField::Value);
    assert_eq!(both[0].bound, None);
    assert_eq!(both[1].field, CellField::Formula);
    assert_eq!(both[1].bound.as_deref(), Some("=1"));
    assert_eq!(CellField::Value.column_name(), "value");
    assert_eq!(CellField::Formula.column_name(), "formula");
}

#[test]
fn update_cell_outside_sheet_is_not_found() {
    let mut s = store();
    let a = s.create_sheet(payload("A", 1, 1), 0).unwrap();
    let b = s.create_sheet(payload("B", 1, 1), 0).unwrap();
    let cell_of_a = s.cells.iter().find(|c| c.sheet_id == a.id).unwrap().id;
    let r = s.update_cell(b.id, cell_of_a, UpdateCellPayload { value: Some(Some("v".to_string())), formula: None });
    assert!(matches!(r, Err(AppError::NotFound)));
    assert!(s.cells.iter().all(|c| c.value.is_none()));
}

#[test]
fn update_cell_clears_and_sets() {
    let mut s = store();
    let a = s.create_sheet(payload("A", 1, 1), 0).unwrap();
    let id = s.cells[0].id;
    s.update_cell(a.id, id, UpdateCellPayload { value: Some(Some("1".to_string())), formula: Some(Some("=1".to_string())) })
        .unwrap();
    s.update_cell(a.id, id, UpdateCellPayload { value: Some(None), formula: None }).unwrap();
    assert_eq!(s.cells[0].value, None);
    assert_eq!(s.cells[0].formula.as_deref(), Some("=1"));
}

#[test]
fn rename_and_delete_sheet() {
    let mut s = store();
    let a = s.create_sheet(payload("A", 2, 2), 0).unwrap();
    let b = s.create_sheet(payload("B", 1, 3), 0).unwrap();
    s.update_sheet(a.id, UpdateSheetPayload { name: "Renamed".to_string() }).unwrap();
    assert_eq!(s.sheets[0].name, "Renamed");
    assert!(matches!(s.update_sheet(42, UpdateSheetPayload { name: "x".to_string() }), Err(AppError::NotFound)));
    s.delete_sheet(a.id).unwrap();
    assert_eq!(s.sheets.len(), 1);
    assert_eq!(s.sheets[0].id, b.id);
    assert!(s.rows.iter().all(|r| r.sheet_id == b.id) && s.rows.len() == 1);
    assert!(s.columns.iter().all(|c| c.sheet_id == b.id) && s.columns.len() == 3);
    assert!(s.cells.iter().all(|c| c.sheet_id == b.id) && s.cells.len() == 3);
    assert!(matches!(s.delete_sheet(a.id), Err(AppError::NotFound)));
}

#[test]
fn chunk_size_does_not_change_output() {
    let items: Vec<u32> = (0..7).collect();
    let len = items.len();
    for n in [1, len, len + 1, 2 * len] {
        let batches = chunks(items.clone(), n);
        assert!(batches.iter().all(|b| !b.is_empty() && b.len() <= n));
        let joined: Vec<u32> = batches.into_iter().flatten().collect();
        assert_eq!(joined, items);
    }
    assert_eq!(chunks(items.clone(), 3).iter().map(|b| b.len()).collect::<Vec<_>>(), vec![3, 3, 1]);
    assert!(chunks(Vec::<u32>::new(), 4).is_empty());
}

#[test]
fn index_values_number_from_one() {
    assert_eq!(index_values(9, 3), vec![(9, 1), (9, 2), (9, 3)]);
    assert!(index_values(9, 0).is_empty());
    assert!(index_values(9, -2).is_empty());
}

#[test]
fn cross_product_goes_row_by_row() {
    let rows = vec![
        RowItem { id: 10, sheet_id: 1, row_index: 1, height: HEIGHT },
        RowItem { id: 11, sheet_id: 1, row_index: 2, height: HEIGHT },
    ];
    let cols = vec![
        ColumnItem { id: 20, sheet_id: 1, column_index: 1, width: WIDTH },
        ColumnItem { id: 21, sheet_id: 1, column_index: 2, width: WIDTH },
        ColumnItem { id: 22, sheet_id: 1, column_index: 3, width: WIDTH },
    ];
    let cells = cell_cross_product(1, &rows, &cols);
    assert_eq!(cells, vec![(1, 10, 20), (1, 10, 21), (1, 10, 22), (1, 11, 20), (1, 11, 21), (1, 11, 22)]);
    assert!(cell_cross_product(1, &rows, &Vec::new()).is_empty());
}

#[test]
fn copy_name_appends_marker() {
    assert_eq!(copy_name("Budget"), "Budget (Copy)");
    assert_eq!(copy_name(""), " (Copy)");
}

#[test]
fn remap_redirects_cells_and_reports_misses() {
    let rm = pair_ids(&vec![10, 11], &vec![110, 111]);
    let cm = pair_ids(&vec![20], &vec![120]);
    assert_eq!(rm.get(&11), Some(&111));
    let cells = vec![cell(1, 1, 11, 20, Some("v"), None), cell(2, 1, 10, 20, None, Some("=f"))];
    let copies: Vec<CellCopy> = remap_cells(&cells, &rm, &cm).unwrap();
    assert_eq!((copies[0].row_id, copies[0].column_id, copies[0].value.as_deref()), (111, 120, Some("v")));
    assert_eq!((copies[1].row_id, copies[1].column_id, copies[1].formula.as_deref()), (110, 120, Some("=f")));
    let stray = vec![cell(3, 1, 12, 20, None, None)];
    assert!(matches!(remap_cells(&stray, &rm, &cm), Err(AppError::InternalServerError)));
    let short = pair_ids(&vec![1, 2, 3], &vec![7]);
    assert_eq!(short.len(), 1);
}

#[test]
fn grid_keeps_rows_columns_and_cells() {
    let rows = vec![RowItem { id: 5, sheet_id: 1, row_index: 1, height: HEIGHT }];
    let cols = vec![ColumnItem { id: 6, sheet_id: 1, column_index: 1, width: WIDTH }];
    let cells = vec![Cell {
        id: 7,
        value: Some("x".to_string()),
        formula: None,
        row_index: 1,
        height: HEIGHT,
        column_index: 1,
        width: WIDTH,
    }];
    let g = create_grid(rows, cols, cells);
    assert_eq!((g.rows[0].id, g.rows[0].row_index, g.rows[0].height), (5, 1, HEIGHT));
    assert_eq!((g.columns[0].id, g.columns[0].column_index, g.columns[0].width), (6, 1, WIDTH));
    assert_eq!(g.cells[0].value.as_deref(), Some("x"));
}

#[test]
fn errors_map_to_status_and_text() {
    assert_eq!(AppError::NotFound.status_code(), 404);
    assert_eq!(AppError::InternalServerError.status_code(), 500);
    assert_eq!(AppError::Database("boom".to_string()).status_code(), 500);
    assert_eq!(AppError::BadRequest { errors: Vec::new() }.status_code(), 400);
    assert_eq!(AppError::NotFound.message(), "request path not found");
    assert!(matches!(found::<i32>(None), Err(AppError::NotFound)));
    assert_eq!(found(Some(3)).ok(), Some(3));
    assert!(require_exists(Some(true)).is_ok());
    assert!(matches!(require_exists(Some(false)), Err(AppError::NotFound)));
    assert!(matches!(require_exists(None), Err(AppError::NotFound)));
}

#[test]
fn bad_request_groups_messages_by_field() {
    let e = AppError::process_bad_request(vec![
        ("name".to_string(), "required".to_string()),
        ("rowCount".to_string(), "too large".to_string()),
        ("name".to_string(), "too short".to_string()),
    ]);
    match e {
        AppError::BadRequest { errors } => {
            assert_eq!(errors.len(), 2);
            assert_eq!(errors[0].0, "name");
            assert_eq!(errors[0].1, vec!["required".to_string(), "too short".to_string()]);
            assert_eq!(errors[1].0, "rowCount");
            assert_eq!(errors[1].1, vec!["too large".to_string()]);
        },
        _ => panic!("expected a bad request"),
    }
}

#[test]
fn create_then_duplicate_scenario() {
    let mut s = store();
    let src = s.create_sheet(payload("Plan", 3, 2), 0).unwrap();
    assert_eq!(s.rows.len(), 3);
    assert_eq!(s.columns.len(), 2);
    assert_eq!(s.cells.len(), 6);
    let copy = s.duplicate_sheet(src.id, 0).unwrap();
    assert_eq!(copy.name, "Plan (Copy)");
    assert_ne!(copy.id, src.id);
    let rows: Vec<&RowItem> = s.rows.iter().filter(|r| r.sheet_id == copy.id).collect();
    let cols: Vec<&ColumnItem> = s.columns.iter().filter(|c| c.sheet_id == copy.id).collect();
    let cells: Vec<&CellItem> = s.cells.iter().filter(|c| c.sheet_id == copy.id).collect();
    assert_eq!((rows.len(), cols.len(), cells.len()), (3, 2, 6));
    let source_ids: Vec<i64> = s.cells.iter().filter(|c| c.sheet_id == src.id).map(|c| c.id).collect();
    assert!(cells.iter().all(|c| !source_ids.contains(&c.id)));
    assert!(rows.iter().all(|r| s.rows.iter().filter(|o| o.id == r.id).count() == 1));
    let mut positions: Vec<(i32, i32)> = cells.iter().map(|c| position(&s, c)).collect();
    positions.sort();
    assert_eq!(positions, vec![(1, 1), (1, 2), (2, 1), (2, 2), (3, 1), (3, 2)]);
    assert!(cells.iter().all(|c| c.value.is_none() && c.formula.is_none()));
}

#[test]
fn get_sheet_assembles_joined_grid() {
    let mut s = store();
    let a = s.create_sheet(payload("A", 2, 2), 0).unwrap();
    s.create_sheet(payload("B", 1, 1), 0).unwrap();
    let target = s.cells.iter().find(|c| c.sheet_id == a.id).unwrap().id;
    s.update_cell(a.id, target, UpdateCellPayload { value: Some(Some("v".to_string())), formula: None }).unwrap();
    let g = s.get_sheet_by_id(a.id).unwrap();
    assert_eq!(g.rows.iter().map(|r| r.row_index).collect::<Vec<_>>(), vec![1, 2]);
    assert_eq!(g.columns.iter().map(|c| c.column_index).collect::<Vec<_>>(), vec![1, 2]);
    assert_eq!(g.cells.len(), 4);
    assert!(g.cells.iter().all(|c| c.height == HEIGHT && c.width == WIDTH));
    let first = g.cells.iter().find(|c| c.id == target).unwrap();
    assert_eq!((first.row_index, first.column_index, first.value.as_deref()), (1, 1, Some("v")));
    assert!(matches!(s.get_sheet_by_id(404), Err(AppError::NotFound)));
}

#[test]
fn batch_size_does_not_change_stored_cells() {
    let len: usize = 7;
    let mut results: Vec<Vec<(i64, i64, i64, Option<String>)>> = Vec::new();
    for n in [1, len, len + 1, 2 * len] {
        let mut s = store();
        let sheet = s.create_sheet(payload("S", 1, 1), 0).unwrap();
        let row = s.rows[0].id;
        let col = s.columns[0].id;
        let records: Vec<CellCopy> = (0..len)
            .map(|k| CellCopy { row_id: row, column_id: col, value: Some(k.to_string()), formula: None })
            .collect();
        s.insert_cells(sheet.id, records, n, 9);
        results.push(s.cells.iter().map(|c| (c.id, c.row_id, c.column_id, c.value.clone())).collect());
    }
    assert_eq!(results[0].len(), 1 + len);
    assert!(results.iter().all(|r| *r == results[0]));
}

#[test]
fn check_counts_names_the_large_field() {
    assert!(check_counts(&payload("ok", 3, 2)).is_ok());
    match check_counts(&payload("big", 1, i32::MAX as i64 + 1)) {
        Err(AppError::BadRequest { errors }) => assert_eq!(errors[0].0, "colCount"),
        _ => panic!("expected a bad request"),
    }
}
