//! Counting, for each cell that holds no mine, the mines around it.

use vstd::prelude::*;

use crate::cell::{CellInfo, CellValue};
use crate::grid::{in_grid, rectangular, with_cell};
use crate::neighbors::{adjacent_mines, mine_at};
use crate::tally::{mine_count, mine_total};

verus! {

/// The cell at `(x, y)` once its mines are counted: a mine stays a mine, and
/// any other cell gets the number of mines around it.
pub open spec fn counted_cell(rows: Seq<Seq<CellInfo>>, x: int, y: int) -> CellInfo {
    CellInfo {
        value: match rows[y][x].value {
            CellValue::Mine => CellValue::Mine,
            CellValue::Proximity(_) => CellValue::Proximity(adjacent_mines(rows, x, y) as u32),
        },
        state: rows[y][x].state,
    }
}

/// The grid once the mines around `(x, y)` are counted. A position that
/// names no cell changes nothing.
pub(crate) open spec fn with_proximity(rows: Seq<Seq<CellInfo>>, x: int, y: int) -> Seq<Seq<CellInfo>> {
    if in_grid(rows, x, y) {
        with_cell(rows, x, y, counted_cell(rows, x, y))
    } else {
        rows
    }
}

/// The grid once the mines around every cell are counted.
pub open spec fn counted(rows: Seq<Seq<CellInfo>>) -> Seq<Seq<CellInfo>> {
    Seq::new(rows.len(), |y: int| Seq::new(rows[y].len(), |x: int| counted_cell(rows, x, y)))
}

/// The grid while the count goes on, column by column and down each column:
/// the cells before `(x, y)` are counted and the others are not.
pub(crate) open spec fn counted_before(rows: Seq<Seq<CellInfo>>, x: int, y: int) -> Seq<Seq<CellInfo>> {
    Seq::new(
        rows.len(),
        |r: int|
            Seq::new(
                rows[r].len(),
                |c: int|
                    if c < x || (c == x && r < y) {
                        counted_cell(rows, c, r)
                    } else {
                        rows[r][c]
                    },
            ),
    )
}

/// Whether every cell that holds no mine shows the number of mines around
/// it.
pub open spec fn proximities_counted(rows: Seq<Seq<CellInfo>>) -> bool {
    forall|x: int, y: int|
        in_grid(rows, x, y) ==> ((#[trigger] rows[y][x]).value matches CellValue::Proximity(count)
            ==> count == adjacent_mines(rows, x, y))
}

/// Whether two grids have the same shape and their mines at the same places.
pub open spec fn same_mines(first: Seq<Seq<CellInfo>>, second: Seq<Seq<CellInfo>>) -> bool {
    &&& first.len() == second.len()
    &&& forall|y: int| 0 <= y < first.len() ==> (#[trigger] first[y]).len() == second[y].len()
    &&& forall|x: int, y: int|
        in_grid(first, x, y) ==> ((#[trigger] first[y][x]).value == CellValue::Mine
            <==> second[y][x].value == CellValue::Mine)
}

/// Whether two grids have the same shape and every cell holds the same in
/// both, whatever its state.
pub open spec fn same_values(first: Seq<Seq<CellInfo>>, second: Seq<Seq<CellInfo>>) -> bool {
    &&& first.len() == second.len()
    &&& forall|y: int| 0 <= y < first.len() ==> (#[trigger] first[y]).len() == second[y].len()
    &&& forall|x: int, y: int|
        in_grid(first, x, y) ==> (#[trigger] first[y][x]).value == second[y][x].value
}

/// The number of mines around a cell depends on where the mines are and on
/// nothing else.
pub proof fn lemma_same_mines_around(
    first: Seq<Seq<CellInfo>>,
    second: Seq<Seq<CellInfo>>,
    x: int,
    y: int,
)
    requires
        same_mines(first, second),
    ensures
        adjacent_mines(first, x, y) == adjacent_mines(second, x, y),
{
    lemma_same_mine_at(first, second, x - 1, y - 1);
    lemma_same_mine_at(first, second, x, y - 1);
    lemma_same_mine_at(first, second, x + 1, y - 1);
    lemma_same_mine_at(first, second, x - 1, y);
    lemma_same_mine_at(first, second, x + 1, y);
    lemma_same_mine_at(first, second, x - 1, y + 1);
    lemma_same_mine_at(first, second, x, y + 1);
    lemma_same_mine_at(first, second, x + 1, y + 1);
}

/// Two grids with their mines at the same places agree on whether a
/// position holds one.
pub proof fn lemma_same_mine_at(
    first: Seq<Seq<CellInfo>>,
    second: Seq<Seq<CellInfo>>,
    x: int,
    y: int,
)
    requires
        same_mines(first, second),
    ensures
        mine_at(first, x, y) == mine_at(second, x, y),
{
    if in_grid(first, x, y) {
        assert(first[y].len() == second[y].len());
        assert(first[y][x].value == CellValue::Mine <==> second[y][x].value == CellValue::Mine);
    } else if 0 <= y < first.len() {
        assert(first[y].len() == second[y].len());
    }
}

/// No cell has more than eight mines around it.
pub proof fn lemma_adjacent_mines_bound(rows: Seq<Seq<CellInfo>>, x: int, y: int)
    ensures
        adjacent_mines(rows, x, y) <= 8,
{
}

/// Counting leaves the mines where they are.
pub proof fn lemma_counting_keeps_mines(rows: Seq<Seq<CellInfo>>)
    ensures
        same_mines(rows, counted(rows)),
{
}

/// Counting changes no state: nothing is flagged or cleared by it.
pub proof fn lemma_counting_keeps_states(rows: Seq<Seq<CellInfo>>, x: int, y: int)
    requires
        in_grid(rows, x, y),
    ensures
        counted(rows)[y][x].state == rows[y][x].state,
{
}

/// The count leaves the mines where they are however far it has gone.
proof fn lemma_count_so_far_keeps_mines(rows: Seq<Seq<CellInfo>>, x: int, y: int)
    ensures
        same_mines(rows, counted_before(rows, x, y)),
{
}

/// After the count every cell that holds no mine shows the number of mines
/// around it.
pub proof fn lemma_counted_is_counted(rows: Seq<Seq<CellInfo>>)
    ensures
        proximities_counted(counted(rows)),
{
    let after = counted(rows);
    lemma_counting_keeps_mines(rows);
    assert forall|x: int, y: int| in_grid(after, x, y) implies ((#[trigger] after[y][x]).value matches CellValue::Proximity(
        count,
    ) ==> count == adjacent_mines(after, x, y)) by {
        lemma_same_mines_around(rows, after, x, y);
        lemma_adjacent_mines_bound(rows, x, y);
    }
}

/// Counting the cell at `(x, y)` is the next step of the count.
pub(crate) proof fn lemma_count_step(rows: Seq<Seq<CellInfo>>, x: int, y: int)
    requires
        in_grid(rows, x, y),
    ensures
        with_proximity(counted_before(rows, x, y), x, y) == counted_before(rows, x, y + 1),
{
    let before = counted_before(rows, x, y);
    let after = counted_before(rows, x, y + 1);
    let stepped = with_proximity(before, x, y);
    lemma_count_so_far_keeps_mines(rows, x, y);
    lemma_same_mines_around(rows, before, x, y);
    assert(stepped.len() == after.len());
    assert forall|r: int| 0 <= r < after.len() implies #[trigger] stepped[r] =~= after[r] by {}
    assert(stepped =~= after);
}

/// Past the last row of a column the count goes on at the top of the next
/// column.
pub(crate) proof fn lemma_count_next_column(rows: Seq<Seq<CellInfo>>, x: int)
    ensures
        counted_before(rows, x, rows.len() as int) == counted_before(rows, x + 1, 0),
{
    let first = counted_before(rows, x, rows.len() as int);
    let second = counted_before(rows, x + 1, 0);
    assert forall|r: int| 0 <= r < first.len() implies #[trigger] first[r] =~= second[r] by {}
    assert(first =~= second);
}

/// Before the first column nothing is counted, and past the last column
/// everything is.
pub(crate) proof fn lemma_count_ends(rows: Seq<Seq<CellInfo>>, width: int, height: int)
    requires
        rectangular(rows, width, height),
    ensures
        counted_before(rows, 0, 0) == rows,
        counted_before(rows, width, 0) == counted(rows),
{
    let first = counted_before(rows, 0, 0);
    assert forall|r: int| 0 <= r < first.len() implies #[trigger] first[r] =~= rows[r] by {}
    assert(first =~= rows);
    let last = counted_before(rows, width, 0);
    let all = counted(rows);
    assert forall|r: int| 0 <= r < last.len() implies #[trigger] last[r] =~= all[r] by {}
    assert(last =~= all);
}

/// A grid whose cells hold what they held when the mines were counted
/// still shows, in every cell without a mine, the number of mines around
/// it.
pub proof fn lemma_same_values_counted(first: Seq<Seq<CellInfo>>, second: Seq<Seq<CellInfo>>)
    requires
        same_values(first, second),
        proximities_counted(first),
    ensures
        proximities_counted(second),
{
    assert(same_mines(first, second));
    assert forall|x: int, y: int| in_grid(second, x, y) implies ((#[trigger] second[y][x]).value matches CellValue::Proximity(
        count,
    ) ==> count == adjacent_mines(second, x, y)) by {
        assert(first[y].len() == second[y].len());
        assert(first[y][x].value == second[y][x].value);
        lemma_same_mines_around(first, second, x, y);
    }
}

/// Two grids with their mines at the same places hold as many mines.
pub proof fn lemma_same_mines_total(first: Seq<Seq<CellInfo>>, second: Seq<Seq<CellInfo>>)
    requires
        same_mines(first, second),
    ensures
        mine_total(first) == mine_total(second),
    decreases first.len(),
{
    if first.len() > 0 {
        let last = first.len() - 1;
        assert(first[last].len() == second[last].len());
        assert forall|x: int| 0 <= x < first[last].len() implies (first[last][x].value
            == CellValue::Mine <==> second[last][x].value == CellValue::Mine) by {
            assert(in_grid(first, x, last));
            assert((first[last][x]).value == CellValue::Mine <==> second[last][x].value
                == CellValue::Mine);
        }
        lemma_same_mines_count(first.last(), second.last());
        assert forall|x: int, y: int| in_grid(first.drop_last(), x, y) implies ((
        #[trigger] first.drop_last()[y][x]).value == CellValue::Mine <==> second.drop_last()[y][x].value
            == CellValue::Mine) by {
            assert(in_grid(first, x, y));
            assert(first[y][x].value == CellValue::Mine <==> second[y][x].value
                == CellValue::Mine);
        }
        assert forall|y: int| 0 <= y < first.drop_last().len() implies (
        #[trigger] first.drop_last()[y]).len() == second.drop_last()[y].len() by {
            assert(first[y].len() == second[y].len());
        }
        lemma_same_mines_total(first.drop_last(), second.drop_last());
    }
}

/// Two rows with their mines at the same places hold as many mines.
pub proof fn lemma_same_mines_count(first: Seq<CellInfo>, second: Seq<CellInfo>)
    requires
        first.len() == second.len(),
        forall|x: int|
            0 <= x < first.len() ==> (first[x].value == CellValue::Mine <==> second[x].value
                == CellValue::Mine),
    ensures
        mine_count(first) == mine_count(second),
    decreases first.len(),
{
    if first.len() > 0 {
        lemma_same_mines_count(first.drop_last(), second.drop_last());
    }
}

/// Counting the mines a second time changes nothing.
pub proof fn lemma_counted_twice(rows: Seq<Seq<CellInfo>>)
    ensures
        counted(counted(rows)) == counted(rows),
{
    let once = counted(rows);
    let twice = counted(once);
    lemma_counting_keeps_mines(rows);
    assert forall|y: int| 0 <= y < once.len() implies #[trigger] twice[y] =~= once[y] by {
        assert forall|x: int| 0 <= x < once[y].len() implies twice[y][x] == once[y][x] by {
            lemma_same_mines_around(rows, once, x, y);
        }
    }
    assert(twice =~= once);
}

} // verus!
