//! Sparse updates of one cell.
//!
//! Each field of an update is absent (leave the stored field), an explicit
//! null (clear it) or a value (set it). Only the present fields become
//! assignments of the update statement.
use vstd::prelude::*;
use crate::types::{CellItem, UpdateCellPayload};
use crate::clone::copy_text;

verus! {

/// A field of a cell that an update can write.
#[derive(Clone, Copy, Debug, PartialEq, Eq, Structural)]
pub enum CellField {
    Value,
    Formula,
}

impl CellField {
    /// Name of the database column that holds this field.
    pub fn column_name(&self) -> (r: &'static str)
        ensures
            r@ == match self {
                CellField::Value => "value"@,
                CellField::Formula => "formula"@,
            },
    {
        match self {
            CellField::Value => "value",
            CellField::Formula => "formula",
        }
    }
}

/// One assignment of an update statement: the field, and the text bound to
/// it (`None` binds a null, which clears the field).
#[derive(Clone, Debug)]
pub struct Assignment {
    pub field: CellField,
    pub bound: Option<String>,
}

/// A stored field after an update of it: absent keeps it, present replaces
/// it (a null clears it).
pub open spec fn patched(stored: Option<String>, update: Option<Option<String>>) -> Option<String> {
    match update {
        None => stored,
        Some(v) => v,
    }
}

/// The assignments an update makes: the value first if present, then the
/// formula if present.
pub open spec fn assignments_of(payload: UpdateCellPayload) -> Seq<Assignment> {
    (match payload.value {
        Some(v) => seq![Assignment { field: CellField::Value, bound: v }],
        None => Seq::empty(),
    }) + (match payload.formula {
        Some(f) => seq![Assignment { field: CellField::Formula, bound: f }],
        None => Seq::empty(),
    })
}

/// `cell` after one assignment.
pub open spec fn assigned(cell: CellItem, a: Assignment) -> CellItem {
    match a.field {
        CellField::Value => CellItem { value: a.bound, ..cell },
        CellField::Formula => CellItem { formula: a.bound, ..cell },
    }
}

/// `cell` after the given assignments, in order.
pub open spec fn assigned_all(cell: CellItem, s: Seq<Assignment>) -> CellItem
    decreases s.len(),
{
    if s.len() == 0 {
        cell
    } else {
        assigned(assigned_all(cell, s.drop_last()), s.last())
    }
}

/// The assignments of the update statement for `payload`, one per present
/// field; none when no field is present, in which case the update is a
/// no-op that still succeeds.
pub fn cell_update_assignments(payload: &UpdateCellPayload) -> (r: Vec<Assignment>)
    ensures
        r@ == assignments_of(*payload),
{
    let mut out: Vec<Assignment> = Vec::new();
    match &payload.value {
        Some(v) => {
            out.push(Assignment { field: CellField::Value, bound: copy_text(v) });
        },
        None => {},
    }
    match &payload.formula {
        Some(f) => {
            out.push(Assignment { field: CellField::Formula, bound: copy_text(f) });
        },
        None => {},
    }
    assert(out@ =~= assignments_of(*payload));
    out
}

/// `cell` after the update `payload`: each present field replaced (a null
/// clears it), each absent field and everything else kept.
pub fn apply_cell_patch(cell: CellItem, payload: UpdateCellPayload) -> (r: CellItem)
    ensures
        r.value == patched(cell.value, payload.value),
        r.formula == patched(cell.formula, payload.formula),
        r.id == cell.id,
        r.sheet_id == cell.sheet_id,
        r.row_id == cell.row_id,
        r.column_id == cell.column_id,
        r.created_at == cell.created_at,
        r.updated_at == cell.updated_at,
{
    let value = match payload.value {
        Some(v) => v,
        None => cell.value,
    };
    let formula = match payload.formula {
        Some(f) => f,
        None => cell.formula,
    };
    CellItem { value, formula, ..cell }
}

/// The statement's assignments do what the update says: applied in order
/// to a stored cell they give exactly the patched cell.
pub proof fn lemma_assignments_apply_patch(cell: CellItem, payload: UpdateCellPayload)
    ensures
        assigned_all(cell, assignments_of(payload)) == (CellItem {
            value: patched(cell.value, payload.value),
            formula: patched(cell.formula, payload.formula),
            ..cell
        }),
{
    let s = assignments_of(payload);
    reveal_with_fuel(assigned_all, 3);
    match payload.value {
        Some(v) => {
            match payload.formula {
                Some(f) => {
                    assert(s.drop_last() =~= seq![Assignment { field: CellField::Value, bound: v }]);
                    assert(s.drop_last().drop_last() =~= Seq::<Assignment>::empty());
                },
                None => {
                    assert(s.drop_last() =~= Seq::<Assignment>::empty());
                },
            }
        },
        None => {
            match payload.formula {
                Some(f) => {
                    assert(s.drop_last() =~= Seq::<Assignment>::empty());
                },
                None => {
                    assert(s =~= Seq::<Assignment>::empty());
                },
            }
        },
    }
}

} // verus!
