//! The cells around a cell, and the mines among them.

use vstd::prelude::*;

use crate::cell::{CellInfo, CellValue};
use crate::grid::in_grid;

verus! {

/// Whether `(bx, by)` touches `(ax, ay)`: at most one step away along each
/// axis, and not the same position.
pub open spec fn adjacent(ax: int, ay: int, bx: int, by: int) -> bool {
    &&& ax - 1 <= bx <= ax + 1
    &&& ay - 1 <= by <= ay + 1
    &&& !(ax == bx && ay == by)
}

/// The position `(x, y)` alone if it names a cell of the grid, nothing if
/// it does not.
pub open spec fn cell_if_in(rows: Seq<Seq<CellInfo>>, x: int, y: int) -> Seq<(int, int)> {
    if in_grid(rows, x, y) {
        seq![(x, y)]
    } else {
        Seq::empty()
    }
}

/// The positions around `(x, y)` that name a cell of the grid, row by row
/// from the upper left.
pub open spec fn neighbor_coords(rows: Seq<Seq<CellInfo>>, x: int, y: int) -> Seq<(int, int)> {
    cell_if_in(rows, x - 1, y - 1) + cell_if_in(rows, x, y - 1) + cell_if_in(rows, x + 1, y - 1)
        + cell_if_in(rows, x - 1, y) + cell_if_in(rows, x + 1, y) + cell_if_in(rows, x - 1, y + 1)
        + cell_if_in(rows, x, y + 1) + cell_if_in(rows, x + 1, y + 1)
}

/// A list of positions as the board hands it out, read as mathematical
/// positions.
pub open spec fn as_coords(cells: Seq<(usize, usize)>) -> Seq<(int, int)> {
    cells.map_values(|cell: (usize, usize)| (cell.0 as int, cell.1 as int))
}

/// One if `(x, y)` names a cell that holds a mine, zero if not.
pub open spec fn mine_at(rows: Seq<Seq<CellInfo>>, x: int, y: int) -> nat {
    if in_grid(rows, x, y) && rows[y][x].value == CellValue::Mine {
        1
    } else {
        0
    }
}

/// The number of mines around `(x, y)`: the cell itself does not count, and
/// neither does a position beyond the edge.
pub open spec fn adjacent_mines(rows: Seq<Seq<CellInfo>>, x: int, y: int) -> nat {
    mine_at(rows, x - 1, y - 1) + mine_at(rows, x, y - 1) + mine_at(rows, x + 1, y - 1) + mine_at(
        rows,
        x - 1,
        y,
    ) + mine_at(rows, x + 1, y) + mine_at(rows, x - 1, y + 1) + mine_at(rows, x, y + 1) + mine_at(
        rows,
        x + 1,
        y + 1,
    )
}

/// The number of mines at the listed positions.
pub(crate) open spec fn mines_among(rows: Seq<Seq<CellInfo>>, coords: Seq<(int, int)>) -> nat
    decreases coords.len(),
{
    if coords.len() == 0 {
        0
    } else {
        mines_among(rows, coords.drop_last()) + mine_at(rows, coords.last().0, coords.last().1)
    }
}

/// The mines of two lists, one after the other, add up.
pub(crate) proof fn lemma_mines_among_concat(
    rows: Seq<Seq<CellInfo>>,
    front: Seq<(int, int)>,
    back: Seq<(int, int)>,
)
    ensures
        mines_among(rows, front + back) == mines_among(rows, front) + mines_among(rows, back),
    decreases back.len(),
{
    if back.len() == 0 {
        assert(front + back =~= front);
    } else {
        assert((front + back).drop_last() =~= front + back.drop_last());
        lemma_mines_among_concat(rows, front, back.drop_last());
    }
}

/// A position beyond the edge holds no mine, so leaving it out of the list
/// changes nothing.
pub(crate) proof fn lemma_mines_among_cell(rows: Seq<Seq<CellInfo>>, x: int, y: int)
    ensures
        mines_among(rows, cell_if_in(rows, x, y)) == mine_at(rows, x, y),
{
    reveal_with_fuel(mines_among, 2);
}

/// The mines at the positions around a cell are the mines around the cell.
pub(crate) proof fn lemma_mines_among_neighbors(rows: Seq<Seq<CellInfo>>, x: int, y: int)
    ensures
        mines_among(rows, neighbor_coords(rows, x, y)) == adjacent_mines(rows, x, y),
{
    let c1 = cell_if_in(rows, x - 1, y - 1);
    let c2 = cell_if_in(rows, x, y - 1);
    let c3 = cell_if_in(rows, x + 1, y - 1);
    let c4 = cell_if_in(rows, x - 1, y);
    let c5 = cell_if_in(rows, x + 1, y);
    let c6 = cell_if_in(rows, x - 1, y + 1);
    let c7 = cell_if_in(rows, x, y + 1);
    let c8 = cell_if_in(rows, x + 1, y + 1);
    lemma_mines_among_cell(rows, x - 1, y - 1);
    lemma_mines_among_cell(rows, x, y - 1);
    lemma_mines_among_cell(rows, x + 1, y - 1);
    lemma_mines_among_cell(rows, x - 1, y);
    lemma_mines_among_cell(rows, x + 1, y);
    lemma_mines_among_cell(rows, x - 1, y + 1);
    lemma_mines_among_cell(rows, x, y + 1);
    lemma_mines_among_cell(rows, x + 1, y + 1);
    lemma_mines_among_concat(rows, c1, c2);
    lemma_mines_among_concat(rows, c1 + c2, c3);
    lemma_mines_among_concat(rows, c1 + c2 + c3, c4);
    lemma_mines_among_concat(rows, c1 + c2 + c3 + c4, c5);
    lemma_mines_among_concat(rows, c1 + c2 + c3 + c4 + c5, c6);
    lemma_mines_among_concat(rows, c1 + c2 + c3 + c4 + c5 + c6, c7);
    lemma_mines_among_concat(rows, c1 + c2 + c3 + c4 + c5 + c6 + c7, c8);
}

/// What one more candidate adds to a list of positions: itself, if it names
/// a cell of the grid, and nothing else.
proof fn lemma_append_cell(front: Seq<(int, int)>, rows: Seq<Seq<CellInfo>>, x: int, y: int)
    ensures
        (front + cell_if_in(rows, x, y)).len() <= front.len() + 1,
        forall|a: int, b: int|
            (#[trigger] (front + cell_if_in(rows, x, y)).contains((a, b))) <==> front.contains((a, b))
                || (a == x && b == y && in_grid(rows, x, y)),
        front.no_duplicates() && !front.contains((x, y)) ==> (front + cell_if_in(
            rows,
            x,
            y,
        )).no_duplicates(),
{
    let longer = front + cell_if_in(rows, x, y);
    assert forall|a: int, b: int|
        (#[trigger] longer.contains((a, b))) <==> front.contains((a, b)) || (a == x && b == y
            && in_grid(rows, x, y)) by {
        if longer.contains((a, b)) {
            let i = choose|i: int| 0 <= i < longer.len() && longer[i] == (a, b);
            if i < front.len() {
                assert(front[i] == (a, b));
            }
        }
        if front.contains((a, b)) {
            let i = choose|i: int| 0 <= i < front.len() && front[i] == (a, b);
            assert(longer[i] == (a, b));
        }
        if a == x && b == y && in_grid(rows, x, y) {
            assert(longer[front.len() as int] == (a, b));
        }
    }
    if front.no_duplicates() && !front.contains((x, y)) {
        assert forall|i: int, j: int| 0 <= i < longer.len() && 0 <= j < longer.len() && i != j implies longer[i]
            != longer[j] by {
            if i < front.len() && j < front.len() {
                assert(longer[i] == front[i] && longer[j] == front[j]);
            } else if i < front.len() {
                assert(front.contains(front[i]));
            } else if j < front.len() {
                assert(front.contains(front[j]));
            }
        }
    }
}

/// The positions around a cell are the cells of the grid that touch it,
/// each listed once.
pub proof fn lemma_neighbor_coords(rows: Seq<Seq<CellInfo>>, x: int, y: int)
    ensures
        neighbor_coords(rows, x, y).len() <= 8,
        neighbor_coords(rows, x, y).no_duplicates(),
        forall|a: int, b: int|
            (#[trigger] neighbor_coords(rows, x, y).contains((a, b))) <==> in_grid(rows, a, b)
                && adjacent(x, y, a, b),
{
    let s0 = Seq::<(int, int)>::empty();
    let s1 = s0 + cell_if_in(rows, x - 1, y - 1);
    let s2 = s1 + cell_if_in(rows, x, y - 1);
    let s3 = s2 + cell_if_in(rows, x + 1, y - 1);
    let s4 = s3 + cell_if_in(rows, x - 1, y);
    let s5 = s4 + cell_if_in(rows, x + 1, y);
    let s6 = s5 + cell_if_in(rows, x - 1, y + 1);
    let s7 = s6 + cell_if_in(rows, x, y + 1);
    let s8 = s7 + cell_if_in(rows, x + 1, y + 1);
    assert(s1 =~= cell_if_in(rows, x - 1, y - 1));
    assert(s8 == neighbor_coords(rows, x, y));
    lemma_append_cell(s0, rows, x - 1, y - 1);
    lemma_append_cell(s1, rows, x, y - 1);
    lemma_append_cell(s2, rows, x + 1, y - 1);
    lemma_append_cell(s3, rows, x - 1, y);
    lemma_append_cell(s4, rows, x + 1, y);
    lemma_append_cell(s5, rows, x - 1, y + 1);
    lemma_append_cell(s6, rows, x, y + 1);
    lemma_append_cell(s7, rows, x + 1, y + 1);
}

} // verus!
