//! The cell value type: an immutable mine/empty kind and a mutable
//! disclosure status.

use vstd::prelude::*;

verus! {

/// Whether a cell hides a bomb. Fixed at construction time.
#[derive(Clone, Copy, PartialEq, Eq, Structural, Debug)]
pub enum CellType {
    Empty,
    Bomb,
}

/// The disclosure state of a cell.
///
/// `Hidden` is the initial state. `toggle_cell_flag` moves a cell between
/// `Hidden` and `Flagged`; `reveal_cell` moves a `Hidden` cell to `Revealed`
/// (empty cell) or `Killed` (bomb). `Revealed` and `Killed` are terminal.
#[derive(Clone, Copy, PartialEq, Eq, Structural, Debug)]
pub enum CellStatus {
    Hidden,
    Flagged,
    Revealed,
    Killed,
}

/// One grid position: an immutable type and a mutable status.
#[derive(Clone, Copy, PartialEq, Eq, Structural, Debug)]
pub struct Cell {
    pub cell_type: CellType,
    pub cell_status: CellStatus,
}

/// The status a cell moves to when its flag is toggled: `Hidden` and
/// `Flagged` swap; the toggle is never applied to any other status.
pub open spec fn toggled_status(s: CellStatus) -> CellStatus {
    if s == CellStatus::Hidden {
        CellStatus::Flagged
    } else {
        CellStatus::Hidden
    }
}

/// Toggling a cell's flag twice restores the status it started from,
/// whenever that status is one the toggle accepts.
pub proof fn lemma_toggle_roundtrip(s: CellStatus)
    requires
        s == CellStatus::Hidden || s == CellStatus::Flagged,
    ensures
        toggled_status(toggled_status(s)) == s,
        toggled_status(CellStatus::Hidden) == CellStatus::Flagged,
{
}

impl Cell {
    /// A fresh cell of the given type; every cell starts out hidden.
    pub fn new(cell_type: CellType) -> (c: Cell)
        ensures
            c.cell_type == cell_type,
            c.cell_status == CellStatus::Hidden,
    {
        Cell { cell_type, cell_status: CellStatus::Hidden }
    }
}

} // verus!
