//! Flagging a cell: what it does to the grid and to the number of flags.

use vstd::prelude::*;

use crate::cell::{CellInfo, CellState};
use crate::grid::{in_grid, with_cell};
use crate::proximity::same_values;

verus! {

/// What flagging `(x, y)` adds to the number of flags on the board.
pub open spec fn flag_delta(rows: Seq<Seq<CellInfo>>, x: int, y: int) -> int {
    if !in_grid(rows, x, y) {
        0
    } else {
        match rows[y][x].state {
            CellState::Idle => 1,
            CellState::Flagged => -1,
            CellState::Cleared => 0,
        }
    }
}

/// The grid after `(x, y)` is flagged: an idle cell gets its flag, a
/// flagged cell loses it, and anything else changes nothing.
pub open spec fn flag_toggled(rows: Seq<Seq<CellInfo>>, x: int, y: int) -> Seq<Seq<CellInfo>> {
    if !in_grid(rows, x, y) {
        rows
    } else {
        match rows[y][x].state {
            CellState::Idle => with_cell(
                rows,
                x,
                y,
                CellInfo { value: rows[y][x].value, state: CellState::Flagged },
            ),
            CellState::Flagged => with_cell(
                rows,
                x,
                y,
                CellInfo { value: rows[y][x].value, state: CellState::Idle },
            ),
            CellState::Cleared => rows,
        }
    }
}

/// Flagging changes the state of one cell at most, and never what a cell
/// holds.
pub proof fn lemma_flag_keeps_values(rows: Seq<Seq<CellInfo>>, x: int, y: int)
    ensures
        same_values(rows, flag_toggled(rows, x, y)),
{
}

/// Flagging an idle cell puts a flag on it and counts one flag more;
/// flagging a flagged cell makes it idle and counts one flag less; a
/// cleared cell stays cleared and counts nothing. No other cell changes.
pub proof fn lemma_flag_one_cell(rows: Seq<Seq<CellInfo>>, x: int, y: int)
    requires
        in_grid(rows, x, y),
    ensures
        rows[y][x].state == CellState::Idle ==> flag_toggled(rows, x, y)[y][x].state
            == CellState::Flagged && flag_delta(rows, x, y) == 1,
        rows[y][x].state == CellState::Flagged ==> flag_toggled(rows, x, y)[y][x].state
            == CellState::Idle && flag_delta(rows, x, y) == -1,
        rows[y][x].state == CellState::Cleared ==> flag_toggled(rows, x, y)[y][x].state
            == CellState::Cleared && flag_delta(rows, x, y) == 0,
        forall|a: int, b: int|
            in_grid(rows, a, b) && !(a == x && b == y) ==> #[trigger] flag_toggled(rows, x, y)[b][a]
                == rows[b][a],
{
}

/// Flagging the same position twice gives the grid back as it was, and the
/// two counts cancel.
pub proof fn lemma_flag_twice(rows: Seq<Seq<CellInfo>>, x: int, y: int)
    ensures
        flag_toggled(flag_toggled(rows, x, y), x, y) == rows,
        flag_delta(rows, x, y) + flag_delta(flag_toggled(rows, x, y), x, y) == 0,
{
    if in_grid(rows, x, y) {
        let once = flag_toggled(rows, x, y);
        let twice = flag_toggled(once, x, y);
        assert(twice[y] =~= rows[y]);
        assert(twice =~= rows);
    }
}

} // verus!
