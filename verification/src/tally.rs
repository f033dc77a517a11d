//! Counting the cells of a kind, in a sequence of cells and in a whole grid.

use vstd::prelude::*;
use vstd::seq_lib::{
    to_multiset_build, to_multiset_contains, to_multiset_len, to_multiset_remove,
    to_multiset_update,
};

use crate::cell::{CellInfo, CellState, CellValue};
use crate::grid::{in_grid, rectangular, with_cell};

verus! {

/// The cells that hold a mine.
pub open spec fn mine() -> spec_fn(CellInfo) -> bool {
    |cell: CellInfo| cell.value == CellValue::Mine
}

/// Every cell.
pub open spec fn any() -> spec_fn(CellInfo) -> bool {
    |cell: CellInfo| true
}

/// The cells that the player has neither flagged nor cleared.
pub open spec fn idle() -> spec_fn(CellInfo) -> bool {
    |cell: CellInfo| cell.state == CellState::Idle
}

/// One if `cell` is of the kind, zero if not.
pub open spec fn one_if(kind: spec_fn(CellInfo) -> bool, cell: CellInfo) -> nat {
    if kind(cell) {
        1
    } else {
        0
    }
}

/// How many of `cells` are of the kind.
pub open spec fn count_where(cells: Seq<CellInfo>, kind: spec_fn(CellInfo) -> bool) -> nat
    decreases cells.len(),
{
    if cells.len() == 0 {
        0
    } else {
        count_where(cells.drop_last(), kind) + one_if(kind, cells.last())
    }
}

/// How many cells of the grid are of the kind.
pub open spec fn total_where(rows: Seq<Seq<CellInfo>>, kind: spec_fn(CellInfo) -> bool) -> nat
    decreases rows.len(),
{
    if rows.len() == 0 {
        0
    } else {
        total_where(rows.drop_last(), kind) + count_where(rows.last(), kind)
    }
}

/// The number of mines among `cells`.
pub open spec fn mine_count(cells: Seq<CellInfo>) -> nat {
    count_where(cells, mine())
}

/// The number of mines on the grid.
pub open spec fn mine_total(rows: Seq<Seq<CellInfo>>) -> nat {
    total_where(rows, mine())
}

/// The number of cells on the grid.
pub open spec fn cell_total(rows: Seq<Seq<CellInfo>>) -> nat {
    total_where(rows, any())
}

/// The number of idle cells on the grid.
pub open spec fn idle_total(rows: Seq<Seq<CellInfo>>) -> nat {
    total_where(rows, idle())
}

/// Counting every cell of a sequence gives its length.
pub proof fn lemma_count_any(cells: Seq<CellInfo>)
    ensures
        count_where(cells, any()) == cells.len(),
    decreases cells.len(),
{
    if cells.len() > 0 {
        lemma_count_any(cells.drop_last());
    }
}

/// A cell appended to a sequence counts once if it is of the kind.
pub proof fn lemma_count_push(cells: Seq<CellInfo>, cell: CellInfo, kind: spec_fn(CellInfo) -> bool)
    ensures
        count_where(cells.push(cell), kind) == count_where(cells, kind) + one_if(kind, cell),
{
    assert(cells.push(cell).drop_last() =~= cells);
}

/// Replacing one cell of a sequence takes the old cell out of the count and
/// brings the new one in.
pub proof fn lemma_count_update(
    cells: Seq<CellInfo>,
    i: int,
    cell: CellInfo,
    kind: spec_fn(CellInfo) -> bool,
)
    requires
        0 <= i < cells.len(),
    ensures
        count_where(cells.update(i, cell), kind) + one_if(kind, cells[i]) == count_where(cells, kind)
            + one_if(kind, cell),
    decreases cells.len(),
{
    if i == cells.len() - 1 {
        assert(cells.update(i, cell).drop_last() =~= cells.drop_last());
    } else {
        assert(cells.update(i, cell).drop_last() =~= cells.drop_last().update(i, cell));
        lemma_count_update(cells.drop_last(), i, cell, kind);
    }
}

/// The count of a concatenation is the sum of the counts.
pub proof fn lemma_count_concat(
    front: Seq<CellInfo>,
    back: Seq<CellInfo>,
    kind: spec_fn(CellInfo) -> bool,
)
    ensures
        count_where(front + back, kind) == count_where(front, kind) + count_where(back, kind),
    decreases back.len(),
{
    if back.len() == 0 {
        assert(front + back =~= front);
    } else {
        assert((front + back).drop_last() =~= front + back.drop_last());
        lemma_count_concat(front, back.drop_last(), kind);
    }
}

/// Taking one cell out of a sequence takes it out of the count.
pub proof fn lemma_count_remove(cells: Seq<CellInfo>, i: int, kind: spec_fn(CellInfo) -> bool)
    requires
        0 <= i < cells.len(),
    ensures
        count_where(cells.remove(i), kind) + one_if(kind, cells[i]) == count_where(cells, kind),
    decreases cells.len(),
{
    if i == cells.len() - 1 {
        assert(cells.remove(i) =~= cells.drop_last());
    } else {
        assert(cells.remove(i).drop_last() =~= cells.drop_last().remove(i));
        lemma_count_remove(cells.drop_last(), i, kind);
    }
}

/// Two sequences that hold the same cells, in whatever order, hold as many
/// cells of each kind.
pub proof fn lemma_count_rearranged(
    before: Seq<CellInfo>,
    after: Seq<CellInfo>,
    kind: spec_fn(CellInfo) -> bool,
)
    requires
        before.to_multiset() == after.to_multiset(),
    ensures
        count_where(before, kind) == count_where(after, kind),
    decreases before.len(),
{
    broadcast use vstd::multiset::group_multiset_axioms;

    to_multiset_len(before);
    to_multiset_len(after);
    if before.len() > 0 {
        let cell = before.last();
        let rest = before.drop_last();
        assert(before == rest.push(cell));
        to_multiset_build(rest, cell);
        to_multiset_contains(after, cell);
        let i = choose|i: int| 0 <= i < after.len() && after[i] == cell;
        to_multiset_remove(after, i);
        assert(rest.to_multiset() =~= after.remove(i).to_multiset());
        lemma_count_rearranged(rest, after.remove(i), kind);
        lemma_count_remove(after, i, kind);
    }
}

/// Two cells that change places leave the sequence with the same cells.
pub proof fn lemma_swap_rearranges(cells: Seq<CellInfo>, i: int, j: int)
    requires
        0 <= i < cells.len(),
        0 <= j < cells.len(),
    ensures
        cells.update(i, cells[j]).update(j, cells[i]).to_multiset() == cells.to_multiset(),
{
    broadcast use vstd::multiset::group_multiset_axioms;

    to_multiset_update(cells, i, cells[j]);
    to_multiset_update(cells.update(i, cells[j]), j, cells[i]);
    to_multiset_contains(cells, cells[i]);
    to_multiset_contains(cells, cells[j]);
    assert(cells.contains(cells[i]));
    assert(cells.contains(cells[j]));
    assert(cells.update(i, cells[j]).update(j, cells[i]).to_multiset() =~= cells.to_multiset());
}

/// Replacing one row of a grid takes the old row out of the total and brings
/// the new one in.
pub proof fn lemma_total_update(
    rows: Seq<Seq<CellInfo>>,
    y: int,
    row: Seq<CellInfo>,
    kind: spec_fn(CellInfo) -> bool,
)
    requires
        0 <= y < rows.len(),
    ensures
        total_where(rows.update(y, row), kind) + count_where(rows[y], kind) == total_where(rows, kind)
            + count_where(row, kind),
    decreases rows.len(),
{
    if y == rows.len() - 1 {
        assert(rows.update(y, row).drop_last() =~= rows.drop_last());
    } else {
        assert(rows.update(y, row).drop_last() =~= rows.drop_last().update(y, row));
        lemma_total_update(rows.drop_last(), y, row, kind);
    }
}

/// Replacing one cell of a grid takes the old cell out of the total and
/// brings the new one in.
pub proof fn lemma_total_with_cell(
    rows: Seq<Seq<CellInfo>>,
    x: int,
    y: int,
    cell: CellInfo,
    kind: spec_fn(CellInfo) -> bool,
)
    requires
        in_grid(rows, x, y),
    ensures
        total_where(with_cell(rows, x, y, cell), kind) + one_if(kind, rows[y][x]) == total_where(
            rows,
            kind,
        ) + one_if(kind, cell),
{
    lemma_count_update(rows[y], x, cell, kind);
    lemma_total_update(rows, y, rows[y].update(x, cell), kind);
}

/// A grid that was cut row by row out of a sequence of cells holds as many
/// cells of a kind as the sequence does.
pub proof fn lemma_total_row_major(
    rows: Seq<Seq<CellInfo>>,
    cells: Seq<CellInfo>,
    width: int,
    height: int,
    kind: spec_fn(CellInfo) -> bool,
)
    requires
        0 <= width,
        0 <= height,
        rectangular(rows, width, height),
        cells.len() == height * width,
        forall|r: int, c: int|
            0 <= r < height && 0 <= c < width ==> #[trigger] rows[r][c] == cells[r * width + c],
    ensures
        total_where(rows, kind) == count_where(cells, kind),
    decreases height,
{
    if height == 0 {
        assert(cells.len() == 0) by (nonlinear_arith)
            requires
                cells.len() == height * width,
                height == 0,
        ;
    } else {
        let cut = (height - 1) * width;
        assert(cut + width == height * width) by (nonlinear_arith)
            requires
                cut == (height - 1) * width,
        ;
        assert(0 <= cut) by (nonlinear_arith)
            requires
                cut == (height - 1) * width,
                height >= 1,
                width >= 0,
        ;
        let front = cells.take(cut);
        let upper = rows.drop_last();
        assert forall|r: int, c: int| 0 <= r < height - 1 && 0 <= c < width implies #[trigger] upper[r][c]
            == front[r * width + c] by {
            assert(r * width + c < cut) by (nonlinear_arith)
                requires
                    0 <= r < height - 1,
                    0 <= c < width,
                    cut == (height - 1) * width,
            ;
            assert(0 <= r * width + c) by (nonlinear_arith)
                requires
                    0 <= r,
                    0 <= c,
                    0 <= width,
            ;
            assert(upper[r][c] == rows[r][c]);
        }
        lemma_total_row_major(upper, front, width, height - 1, kind);
        assert(cells =~= front + rows.last()) by {
            assert forall|k: int| 0 <= k < width implies rows.last()[k] == cells[cut + k] by {
                assert(rows[height - 1][k] == cells[(height - 1) * width + k]);
            }
        }
        lemma_count_concat(front, rows.last(), kind);
    }
}

} // verus!
