//! Laying out the cells of a new board: mines first, then a random
//! rearrangement.

use vstd::prelude::*;
use vstd::seq_lib::to_multiset_contains;

use crate::cell::{CellInfo, CellState, CellValue};
use crate::grid::{in_grid, rectangular};
use crate::random::random_below;
use crate::tally::{
    count_where, lemma_count_concat, lemma_count_push, lemma_count_rearranged,
    lemma_swap_rearranges, mine, mine_count, one_if,
};

verus! {

/// A cell as it is before the game starts.
pub open spec fn untouched(cell: CellInfo) -> bool {
    cell.state == CellState::Idle && (cell.value == CellValue::Mine || cell.value
        == CellValue::Proximity(0))
}

/// A sequence of `count` copies of `cell`.
spec fn repeated(cell: CellInfo, count: nat) -> Seq<CellInfo> {
    Seq::new(count, |k: int| cell)
}

/// The grid that holds `cells` row after row, `width` cells to a row.
pub open spec fn rows_of(cells: Seq<CellInfo>, width: int, height: int) -> Seq<Seq<CellInfo>> {
    Seq::new(height as nat, |r: int| Seq::new(width as nat, |c: int| cells[r * width + c]))
}

/// A board as it is laid out at the start of a game: the right size, nothing
/// flagged or cleared, and no proximity counted yet.
pub open spec fn fresh_layout(rows: Seq<Seq<CellInfo>>, width: int, height: int) -> bool {
    &&& rectangular(rows, width, height)
    &&& forall|x: int, y: int| in_grid(rows, x, y) ==> untouched(#[trigger] rows[y][x])
}

/// Copies of one cell are all of a kind or none of them is.
proof fn lemma_count_repeated(cell: CellInfo, count: nat, kind: spec_fn(CellInfo) -> bool)
    ensures
        count_where(repeated(cell, count), kind) == count * one_if(kind, cell),
    decreases count,
{
    let one = one_if(kind, cell);
    if count > 0 {
        let fewer = (count - 1) as nat;
        assert(repeated(cell, count).drop_last() =~= repeated(cell, fewer));
        assert(repeated(cell, count).last() == cell);
        lemma_count_repeated(cell, fewer, kind);
        assert(count_where(repeated(cell, count), kind) == count_where(repeated(cell, fewer), kind)
            + one);
        assert(count * one == fewer * one + one) by (nonlinear_arith)
            requires
                fewer == count - 1,
        ;
    } else {
        assert(repeated(cell, count).len() == 0);
        assert(count * one == 0) by (nonlinear_arith)
            requires
                count == 0,
        ;
    }
}

/// Appends `count` copies of a cell.
fn push_cells(cells: &mut Vec<CellInfo>, cell: CellInfo, count: usize)
    ensures
        final(cells)@ == old(cells)@ + repeated(cell, count as nat),
{
    let mut done: usize = 0;
    while done < count
        invariant
            done <= count,
            cells@ == old(cells)@ + repeated(cell, done as nat),
        decreases count - done,
    {
        cells.push(cell);
        done += 1;
    }
}

/// The cells with those at `i` and `j` exchanged.
pub open spec fn swapped(cells: Seq<CellInfo>, i: int, j: int) -> Seq<CellInfo> {
    cells.update(i, cells[j]).update(j, cells[i])
}

/// Whether `picks` is a full set of draws for rearranging `count` cells:
/// one draw for each place from the last down to the second, each at or
/// before its place. The draw at `k` is for the place `count - 1 - k`.
pub open spec fn fair_picks(picks: Seq<int>, count: int) -> bool {
    &&& picks.len() == if count > 0 {
        count - 1
    } else {
        0
    }
    &&& forall|k: int| 0 <= k < picks.len() ==> 0 <= #[trigger] picks[k] <= count - 1 - k
}

/// The cells after the draws: from the last place down, the cell at each
/// place changes places with the cell at the place drawn for it.
pub open spec fn dealt_by(cells: Seq<CellInfo>, picks: Seq<int>) -> Seq<CellInfo>
    decreases picks.len(),
{
    if picks.len() == 0 {
        cells
    } else {
        swapped(dealt_by(cells, picks.drop_last()), cells.len() - picks.len(), picks.last())
    }
}

/// Whatever is drawn, the cells after the draws are the cells before them,
/// in some order.
pub proof fn lemma_dealt_rearranges(cells: Seq<CellInfo>, picks: Seq<int>)
    requires
        picks.len() <= cells.len(),
        forall|k: int| 0 <= k < picks.len() ==> 0 <= #[trigger] picks[k] <= cells.len() - 1 - k,
    ensures
        dealt_by(cells, picks).len() == cells.len(),
        dealt_by(cells, picks).to_multiset() == cells.to_multiset(),
    decreases picks.len(),
{
    if picks.len() > 0 {
        let earlier = picks.drop_last();
        assert forall|k: int| 0 <= k < earlier.len() implies 0 <= #[trigger] earlier[k]
            <= cells.len() - 1 - k by {
            assert(earlier[k] == picks[k]);
        }
        lemma_dealt_rearranges(cells, earlier);
        let place = cells.len() - picks.len();
        assert(0 <= picks[picks.len() - 1] <= place);
        lemma_swap_rearranges(dealt_by(cells, earlier), place, picks.last());
    }
}

/// Exchanges the cells at `i` and `j`.
fn swap_cells(cells: &mut Vec<CellInfo>, i: usize, j: usize)
    requires
        i < old(cells)@.len(),
        j < old(cells)@.len(),
    ensures
        final(cells)@ == swapped(old(cells)@, i as int, j as int),
{
    let first = cells[i];
    let second = cells[j];
    cells[i] = second;
    cells[j] = first;
}

/// Rearranges the cells at random: from the last place down to the second,
/// the cell at each place changes places with a cell drawn from those at
/// or before it. Which cells are drawn is left open; whatever is drawn, the
/// outcome is what those draws give, and so the cells are the same
/// afterwards, in some order.
fn shuffle(cells: &mut Vec<CellInfo>)
    ensures
        final(cells)@.len() == old(cells)@.len(),
        final(cells)@.to_multiset() == old(cells)@.to_multiset(),
        exists|picks: Seq<int>|
            #[trigger] fair_picks(picks, old(cells)@.len() as int) && final(cells)@ == dealt_by(
                old(cells)@,
                picks,
            ),
{
    let count = cells.len();
    let ghost mut picks: Seq<int> = Seq::empty();
    if count > 1 {
        let mut rng = rand::thread_rng();
        let mut place: usize = count - 1;
        while place > 0
            invariant
                place < count,
                cells@.len() == count,
                old(cells)@.len() == count,
                cells@.to_multiset() == old(cells)@.to_multiset(),
                picks.len() == count - 1 - place,
                forall|k: int| 0 <= k < picks.len() ==> 0 <= #[trigger] picks[k] <= count - 1 - k,
                cells@ == dealt_by(old(cells)@, picks),
            decreases place,
        {
            let pick = random_below(&mut rng, place + 1);
            proof {
                lemma_swap_rearranges(cells@, place as int, pick as int);
                let drawn = picks.push(pick as int);
                assert(drawn.drop_last() =~= picks);
                picks = drawn;
            }
            swap_cells(cells, place, pick);
            place -= 1;
        }
    }
    proof {
        assert(fair_picks(picks, old(cells)@.len() as int));
    }
}

/// Deals the cells of a new board: `mines` mines and, for the rest, cells
/// with no mine and nothing counted around them, all idle, in a random
/// order.
pub(crate) fn deal(total: usize, mines: usize) -> (cells: Vec<CellInfo>)
    requires
        mines <= total,
    ensures
        cells@.len() == total,
        mine_count(cells@) == mines,
        forall|k: int| 0 <= k < total ==> untouched(#[trigger] cells@[k]),
{
    let mine_cell = CellInfo { value: CellValue::Mine, state: CellState::Idle };
    let safe_cell = CellInfo { value: CellValue::Proximity(0), state: CellState::Idle };
    let mut cells: Vec<CellInfo> = Vec::new();
    push_cells(&mut cells, mine_cell, mines);
    push_cells(&mut cells, safe_cell, total - mines);
    let ghost sorted = cells@;
    proof {
        let mined = repeated(mine_cell, mines as nat);
        let safe = repeated(safe_cell, (total - mines) as nat);
        assert(sorted =~= mined + safe);
        lemma_count_repeated(mine_cell, mines as nat, mine());
        lemma_count_repeated(safe_cell, (total - mines) as nat, mine());
        lemma_count_concat(mined, safe, mine());
        assert(mines * one_if(mine(), mine_cell) == mines) by (nonlinear_arith)
            requires
                one_if(mine(), mine_cell) == 1,
        ;
        assert((total - mines) * one_if(mine(), safe_cell) == 0) by (nonlinear_arith)
            requires
                one_if(mine(), safe_cell) == 0,
        ;
    }
    shuffle(&mut cells);
    proof {
        lemma_count_rearranged(sorted, cells@, mine());
        assert forall|k: int| 0 <= k < total implies untouched(#[trigger] cells@[k]) by {
            to_multiset_contains(cells@, cells@[k]);
            to_multiset_contains(sorted, cells@[k]);
            assert(cells@.contains(cells@[k]));
            assert(sorted.contains(cells@[k]));
        }
    }
    cells
}

/// Counts the mines among the cells.
pub(crate) fn count_mines(cells: &Vec<CellInfo>) -> (count: usize)
    ensures
        count == mine_count(cells@),
{
    let mut count: usize = 0;
    let mut seen: usize = 0;
    while seen < cells.len()
        invariant
            seen <= cells.len(),
            count <= seen,
            count == mine_count(cells@.take(seen as int)),
        decreases cells.len() - seen,
    {
        proof {
            assert(cells@.take(seen + 1) =~= cells@.take(seen as int).push(cells@[seen as int]));
            lemma_count_push(cells@.take(seen as int), cells@[seen as int], mine());
        }
        if cells[seen].value == CellValue::Mine {
            count += 1;
        }
        seen += 1;
    }
    proof {
        assert(cells@.take(cells@.len() as int) =~= cells@);
    }
    count
}

} // verus!
