//! What clearing a cell uncovers: the cell itself and, where it shows no
//! mine around it, the cells around it, and so on from cell to cell.

use vstd::prelude::*;

use crate::cell::{CellInfo, CellState, CellValue};
use crate::grid::{in_grid, with_cell};
use crate::neighbors::{
    adjacent, adjacent_mines, lemma_neighbor_coords, mine_at, neighbor_coords,
};
use crate::proximity::{proximities_counted, same_values};

verus! {

/// Whether `(x, y)` names a cell that is neither flagged nor cleared.
pub open spec fn idle_at(rows: Seq<Seq<CellInfo>>, x: int, y: int) -> bool {
    in_grid(rows, x, y) && rows[y][x].state == CellState::Idle
}

/// Whether `(x, y)` names a cell with no mine in it and none counted around
/// it: clearing such a cell goes on to the cells around it.
pub open spec fn spreads_at(rows: Seq<Seq<CellInfo>>, x: int, y: int) -> bool {
    in_grid(rows, x, y) && rows[y][x].value == CellValue::Proximity(0)
}

/// Whether clearing goes on from the position at `i` of the path to the
/// next one.
pub open spec fn flood_link(rows: Seq<Seq<CellInfo>>, path: Seq<(int, int)>, i: int) -> bool {
    &&& spreads_at(rows, path[i].0, path[i].1)
    &&& adjacent(path[i].0, path[i].1, path[i + 1].0, path[i + 1].1)
}

/// Whether the position at `i` of the path can be cleared.
pub open spec fn flood_stop(rows: Seq<Seq<CellInfo>>, path: Seq<(int, int)>, i: int) -> bool {
    idle_at(rows, path[i].0, path[i].1)
}

/// A way along which clearing travels: every cell on it is idle, each
/// touches the one before, and every cell but the last spreads.
pub open spec fn flood_path(rows: Seq<Seq<CellInfo>>, path: Seq<(int, int)>) -> bool {
    &&& path.len() > 0
    &&& forall|i: int| 0 <= i < path.len() ==> #[trigger] flood_stop(rows, path, i)
    &&& forall|i: int| 0 <= i < path.len() - 1 ==> #[trigger] flood_link(rows, path, i)
}

/// Whether `path` is a way for clearing from `(sx, sy)` to `(x, y)`.
pub open spec fn flood_path_between(
    rows: Seq<Seq<CellInfo>>,
    path: Seq<(int, int)>,
    sx: int,
    sy: int,
    x: int,
    y: int,
) -> bool {
    flood_path(rows, path) && path.first() == (sx, sy) && path.last() == (x, y)
}

/// Whether clearing `(sx, sy)` uncovers `(x, y)`.
pub open spec fn floods(rows: Seq<Seq<CellInfo>>, sx: int, sy: int, x: int, y: int) -> bool {
    exists|path: Seq<(int, int)>| #[trigger] flood_path_between(rows, path, sx, sy, x, y)
}

/// The cell once it is cleared.
pub open spec fn cleared(cell: CellInfo) -> CellInfo {
    CellInfo { value: cell.value, state: CellState::Cleared }
}

/// The grid after `(sx, sy)` is cleared: every cell that the clearing
/// uncovers is cleared, and every other cell is as it was.
pub open spec fn flood_cleared(rows: Seq<Seq<CellInfo>>, sx: int, sy: int) -> Seq<Seq<CellInfo>> {
    Seq::new(
        rows.len(),
        |y: int|
            Seq::new(
                rows[y].len(),
                |x: int|
                    if floods(rows, sx, sy, x, y) {
                        cleared(rows[y][x])
                    } else {
                        rows[y][x]
                    },
            ),
    )
}

/// Clearing an idle cell uncovers that cell.
pub proof fn lemma_flood_start(rows: Seq<Seq<CellInfo>>, sx: int, sy: int)
    requires
        idle_at(rows, sx, sy),
    ensures
        floods(rows, sx, sy, sx, sy),
{
    let path = seq![(sx, sy)];
    assert(flood_stop(rows, path, 0));
    assert(flood_path_between(rows, path, sx, sy, sx, sy));
}

/// Clearing uncovers nothing but idle cells, and only if it starts at one.
pub proof fn lemma_flood_idle(rows: Seq<Seq<CellInfo>>, sx: int, sy: int, x: int, y: int)
    requires
        floods(rows, sx, sy, x, y),
    ensures
        idle_at(rows, sx, sy),
        idle_at(rows, x, y),
{
    let path = choose|path: Seq<(int, int)>| flood_path_between(rows, path, sx, sy, x, y);
    assert(flood_stop(rows, path, 0));
    assert(flood_stop(rows, path, path.len() - 1));
}

/// From an uncovered cell that spreads, clearing goes on to every idle cell
/// that touches it.
pub proof fn lemma_flood_extend(
    rows: Seq<Seq<CellInfo>>,
    sx: int,
    sy: int,
    x: int,
    y: int,
    nx: int,
    ny: int,
)
    requires
        floods(rows, sx, sy, x, y),
        spreads_at(rows, x, y),
        adjacent(x, y, nx, ny),
        idle_at(rows, nx, ny),
    ensures
        floods(rows, sx, sy, nx, ny),
{
    let path = choose|path: Seq<(int, int)>| flood_path_between(rows, path, sx, sy, x, y);
    let longer = path.push((nx, ny));
    assert forall|i: int| 0 <= i < longer.len() implies #[trigger] flood_stop(rows, longer, i) by {
        if i < path.len() {
            assert(flood_stop(rows, path, i));
        }
    }
    assert forall|i: int| 0 <= i < longer.len() - 1 implies #[trigger] flood_link(rows, longer, i) by {
        if i < path.len() - 1 {
            assert(flood_link(rows, path, i));
        }
    }
    assert(flood_path_between(rows, longer, sx, sy, nx, ny));
}

/// From a cell that does not spread, clearing goes nowhere: it uncovers
/// that cell and no other.
pub proof fn lemma_flood_stays(rows: Seq<Seq<CellInfo>>, sx: int, sy: int, x: int, y: int)
    requires
        !spreads_at(rows, sx, sy),
        floods(rows, sx, sy, x, y),
    ensures
        x == sx && y == sy,
{
    let path = choose|path: Seq<(int, int)>| flood_path_between(rows, path, sx, sy, x, y);
    if path.len() > 1 {
        assert(flood_link(rows, path, 0));
    }
}

/// Every cell that clearing uncovers, other than the first one, touches a
/// cell that spreads.
pub proof fn lemma_flood_border(rows: Seq<Seq<CellInfo>>, sx: int, sy: int, x: int, y: int)
    requires
        floods(rows, sx, sy, x, y),
        !(x == sx && y == sy),
    ensures
        exists|px: int, py: int|
            #![trigger floods(rows, sx, sy, px, py)]
            floods(rows, sx, sy, px, py) && spreads_at(rows, px, py) && adjacent(px, py, x, y),
{
    let path = choose|path: Seq<(int, int)>| flood_path_between(rows, path, sx, sy, x, y);
    let shorter = path.drop_last();
    let last = path.len() - 1;
    assert(path.len() > 1);
    assert(flood_link(rows, path, last - 1));
    assert forall|i: int| 0 <= i < shorter.len() implies #[trigger] flood_stop(rows, shorter, i) by {
        assert(flood_stop(rows, path, i));
    }
    assert forall|i: int| 0 <= i < shorter.len() - 1 implies #[trigger] flood_link(
        rows,
        shorter,
        i,
    ) by {
        assert(flood_link(rows, path, i));
    }
    let (px, py) = path[last - 1];
    assert(flood_path_between(rows, shorter, sx, sy, px, py));
    assert(floods(rows, sx, sy, px, py));
    assert(path[last - 1 + 1] == (x, y));
    assert(spreads_at(rows, px, py) && adjacent(px, py, x, y));
}

/// Clearing a cell that is flagged or cleared already, or a position that
/// names no cell, changes nothing.
pub proof fn lemma_flood_blocked(rows: Seq<Seq<CellInfo>>, sx: int, sy: int)
    requires
        !idle_at(rows, sx, sy),
    ensures
        flood_cleared(rows, sx, sy) == rows,
{
    let after = flood_cleared(rows, sx, sy);
    assert forall|y: int| 0 <= y < rows.len() implies #[trigger] after[y] =~= rows[y] by {
        assert forall|x: int| 0 <= x < rows[y].len() implies after[y][x] == rows[y][x] by {
            if floods(rows, sx, sy, x, y) {
                lemma_flood_idle(rows, sx, sy, x, y);
            }
        }
    }
    assert(after =~= rows);
}

/// Clearing an idle cell that does not spread, a mine or a cell with mines
/// around it, clears that cell and no other.
pub proof fn lemma_flood_single(rows: Seq<Seq<CellInfo>>, sx: int, sy: int)
    requires
        idle_at(rows, sx, sy),
        !spreads_at(rows, sx, sy),
    ensures
        flood_cleared(rows, sx, sy) == with_cell(rows, sx, sy, cleared(rows[sy][sx])),
{
    let after = flood_cleared(rows, sx, sy);
    let wanted = with_cell(rows, sx, sy, cleared(rows[sy][sx]));
    lemma_flood_start(rows, sx, sy);
    assert forall|y: int| 0 <= y < rows.len() implies #[trigger] after[y] =~= wanted[y] by {
        assert forall|x: int| 0 <= x < rows[y].len() implies after[y][x] == wanted[y][x] by {
            if floods(rows, sx, sy, x, y) {
                lemma_flood_stays(rows, sx, sy, x, y);
            }
        }
    }
    assert(after =~= wanted);
}

/// Clearing changes the state of cells and nothing else: the grid keeps
/// its shape and every cell holds what it held.
pub proof fn lemma_flood_keeps_values(rows: Seq<Seq<CellInfo>>, sx: int, sy: int)
    ensures
        same_values(rows, flood_cleared(rows, sx, sy)),
{
}

/// A cell that the clearing does not uncover is as it was: if it was idle it
/// is idle still, whether it holds a mine or not.
pub proof fn lemma_flood_keeps_rest(rows: Seq<Seq<CellInfo>>, sx: int, sy: int, x: int, y: int)
    requires
        in_grid(rows, x, y),
    ensures
        floods(rows, sx, sy, x, y) ==> flood_cleared(rows, sx, sy)[y][x] == cleared(rows[y][x]),
        !floods(rows, sx, sy, x, y) ==> flood_cleared(rows, sx, sy)[y][x] == rows[y][x],
{
}

/// Clearing takes idle cells to cleared and changes no other state: a flag
/// stays where it is, and what was cleared stays cleared.
pub proof fn lemma_flood_states(rows: Seq<Seq<CellInfo>>, sx: int, sy: int, x: int, y: int)
    requires
        in_grid(rows, x, y),
    ensures
        flood_cleared(rows, sx, sy)[y][x].state == rows[y][x].state || (rows[y][x].state
            == CellState::Idle && flood_cleared(rows, sx, sy)[y][x].state == CellState::Cleared),
{
    if floods(rows, sx, sy, x, y) {
        lemma_flood_idle(rows, sx, sy, x, y);
    }
}

/// After the clearing no idle cell is left next to a cell that was
/// uncovered and spreads: the whole region is cleared, and its border with
/// it.
pub proof fn lemma_flood_complete(
    rows: Seq<Seq<CellInfo>>,
    sx: int,
    sy: int,
    x: int,
    y: int,
    nx: int,
    ny: int,
)
    requires
        floods(rows, sx, sy, x, y),
        spreads_at(rows, x, y),
        adjacent(x, y, nx, ny),
        in_grid(rows, nx, ny),
    ensures
        flood_cleared(rows, sx, sy)[ny][nx].state != CellState::Idle,
{
    if idle_at(rows, nx, ny) {
        lemma_flood_extend(rows, sx, sy, x, y, nx, ny);
    }
}

/// A mine that touches a cell counts among the mines around that cell.
pub proof fn lemma_mine_nearby_counts(rows: Seq<Seq<CellInfo>>, x: int, y: int, nx: int, ny: int)
    requires
        adjacent(x, y, nx, ny),
    ensures
        mine_at(rows, nx, ny) <= adjacent_mines(rows, x, y),
{
}

/// On a grid whose mines are counted, clearing uncovers no mine but the
/// one, if any, that it starts at.
pub proof fn lemma_flood_spares_mines(rows: Seq<Seq<CellInfo>>, sx: int, sy: int, x: int, y: int)
    requires
        proximities_counted(rows),
        floods(rows, sx, sy, x, y),
        !(x == sx && y == sy),
    ensures
        rows[y][x].value != CellValue::Mine,
{
    lemma_flood_border(rows, sx, sy, x, y);
    let (px, py) = choose|px: int, py: int|
        #![trigger floods(rows, sx, sy, px, py)]
        floods(rows, sx, sy, px, py) && spreads_at(rows, px, py) && adjacent(px, py, x, y);
    lemma_flood_idle(rows, sx, sy, x, y);
    lemma_mine_nearby_counts(rows, px, py, x, y);
    assert(rows[py][px].value == CellValue::Proximity(0));
    assert(adjacent_mines(rows, px, py) == 0);
}

/// Whether the cell at `(x, y)` was idle at the start and is cleared now.
spec fn opened(start: Seq<Seq<CellInfo>>, now: Seq<Seq<CellInfo>>, x: int, y: int) -> bool {
    &&& in_grid(start, x, y)
    &&& start[y][x].state == CellState::Idle
    &&& now[y][x].state == CellState::Cleared
}

/// Whether the cell at `(x, y)` is as it was at the start, or as it was but
/// for having been cleared.
spec fn kept_or_opened(
    start: Seq<Seq<CellInfo>>,
    now: Seq<Seq<CellInfo>>,
    x: int,
    y: int,
) -> bool {
    &&& now[y][x].value == start[y][x].value
    &&& (now[y][x].state == start[y][x].state || opened(start, now, x, y))
}

/// Whether nothing is left to do at `(x, y)`, or what is left is noted.
spec fn settled(now: Seq<Seq<CellInfo>>, pending: Seq<(int, int)>, x: int, y: int) -> bool {
    !idle_at(now, x, y) || pending.contains((x, y))
}

/// Whether a noted position, if it can be cleared at all, is one that
/// clearing `(sx, sy)` uncovers.
spec fn rightly_noted(start: Seq<Seq<CellInfo>>, sx: int, sy: int, at: (int, int)) -> bool {
    idle_at(start, at.0, at.1) ==> floods(start, sx, sy, at.0, at.1)
}

/// The state of clearing `(sx, sy)` part of the way, with the positions yet
/// to be looked at in `pending`: the grid has changed only in that cells
/// were cleared, every cleared cell is one that the clearing uncovers, and
/// nothing that it uncovers is forgotten.
pub(crate) closed spec fn flood_progress(
    start: Seq<Seq<CellInfo>>,
    sx: int,
    sy: int,
    now: Seq<Seq<CellInfo>>,
    pending: Seq<(int, int)>,
) -> bool {
    &&& now.len() == start.len()
    &&& forall|y: int| 0 <= y < start.len() ==> (#[trigger] now[y]).len() == start[y].len()
    &&& forall|x: int, y: int| in_grid(start, x, y) ==> #[trigger] kept_or_opened(start, now, x, y)
    &&& forall|x: int, y: int| #[trigger] opened(start, now, x, y) ==> floods(start, sx, sy, x, y)
    &&& forall|k: int| 0 <= k < pending.len() ==> rightly_noted(start, sx, sy, #[trigger] pending[k])
    &&& forall|x: int, y: int, nx: int, ny: int|
        #![trigger opened(start, now, x, y), settled(now, pending, nx, ny)]
        opened(start, now, x, y) && spreads_at(start, x, y) && adjacent(x, y, nx, ny) ==> settled(
            now,
            pending,
            nx,
            ny,
        )
    &&& settled(now, pending, sx, sy)
}

/// Clearing begins with nothing cleared and the first position noted.
pub(crate) proof fn lemma_progress_begin(start: Seq<Seq<CellInfo>>, sx: int, sy: int)
    ensures
        flood_progress(start, sx, sy, start, seq![(sx, sy)]),
{
    let pending = seq![(sx, sy)];
    assert(pending[0] == (sx, sy));
    if idle_at(start, sx, sy) {
        lemma_flood_start(start, sx, sy);
    }
}

/// A noted position that cannot be cleared is dropped.
pub(crate) proof fn lemma_progress_skip(
    start: Seq<Seq<CellInfo>>,
    sx: int,
    sy: int,
    now: Seq<Seq<CellInfo>>,
    pending: Seq<(int, int)>,
)
    requires
        flood_progress(start, sx, sy, now, pending),
        pending.len() > 0,
        !idle_at(now, pending.last().0, pending.last().1),
    ensures
        flood_progress(start, sx, sy, now, pending.drop_last()),
{
    let rest = pending.drop_last();
    assert forall|k: int| 0 <= k < rest.len() implies rightly_noted(
        start,
        sx,
        sy,
        #[trigger] rest[k],
    ) by {
        assert(rest[k] == pending[k]);
    }
    assert forall|nx: int, ny: int| settled(now, pending, nx, ny) implies #[trigger] settled(
        now,
        rest,
        nx,
        ny,
    ) by {
        lemma_still_noted(now, pending, nx, ny);
    }
    assert forall|x: int, y: int, nx: int, ny: int|
        #![trigger opened(start, now, x, y), settled(now, rest, nx, ny)]
        opened(start, now, x, y) && spreads_at(start, x, y) && adjacent(
            x,
            y,
            nx,
            ny,
        ) implies settled(now, rest, nx, ny) by {
        assert(settled(now, pending, nx, ny));
    }
}

/// A position that was noted is still noted after the last one is taken
/// off, unless it is that one.
proof fn lemma_still_noted(now: Seq<Seq<CellInfo>>, pending: Seq<(int, int)>, nx: int, ny: int)
    requires
        pending.len() > 0,
        settled(now, pending, nx, ny),
    ensures
        !idle_at(now, nx, ny) || pending.last() == (nx, ny) || pending.drop_last().contains((nx, ny)),
{
    if idle_at(now, nx, ny) {
        let k = choose|k: int| 0 <= k < pending.len() && pending[k] == (nx, ny);
        if k < pending.len() - 1 {
            assert(pending.drop_last()[k] == (nx, ny));
        }
    }
}

/// The positions noted after a cell is cleared: those noted before, less
/// the cell, and the cells around it if it spreads.
pub(crate) open spec fn noted_after(now: Seq<Seq<CellInfo>>, pending: Seq<(int, int)>) -> Seq<(int, int)> {
    if spreads_at(now, pending.last().0, pending.last().1) {
        pending.drop_last() + neighbor_coords(now, pending.last().0, pending.last().1)
    } else {
        pending.drop_last()
    }
}

/// A noted position that can be cleared is cleared, and if it spreads the
/// cells around it are noted.
pub(crate) proof fn lemma_progress_open(
    start: Seq<Seq<CellInfo>>,
    sx: int,
    sy: int,
    now: Seq<Seq<CellInfo>>,
    pending: Seq<(int, int)>,
)
    requires
        flood_progress(start, sx, sy, now, pending),
        pending.len() > 0,
        idle_at(now, pending.last().0, pending.last().1),
    ensures
        flood_progress(
            start,
            sx,
            sy,
            with_cell(
                now,
                pending.last().0,
                pending.last().1,
                cleared(now[pending.last().1][pending.last().0]),
            ),
            noted_after(now, pending),
        ),
{
    let (cx, cy) = pending.last();
    let next = with_cell(now, cx, cy, cleared(now[cy][cx]));
    let rest = noted_after(now, pending);
    let kept = pending.drop_last();
    let around = neighbor_coords(now, cx, cy);
    lemma_neighbor_coords(now, cx, cy);
    assert(kept_or_opened(start, now, cx, cy));
    assert(rightly_noted(start, sx, sy, pending[pending.len() - 1]));
    assert(floods(start, sx, sy, cx, cy));
    assert forall|x: int, y: int| in_grid(start, x, y) implies #[trigger] kept_or_opened(
        start,
        next,
        x,
        y,
    ) by {
        assert(kept_or_opened(start, now, x, y));
    }
    assert forall|x: int, y: int| #[trigger] opened(start, next, x, y) implies floods(
        start,
        sx,
        sy,
        x,
        y,
    ) by {
        if !(x == cx && y == cy) {
            assert(opened(start, now, x, y));
        }
    }
    assert forall|k: int| 0 <= k < rest.len() implies rightly_noted(
        start,
        sx,
        sy,
        #[trigger] rest[k],
    ) by {
        if k < kept.len() {
            assert(rest[k] == pending[k]);
        } else {
            let (nx, ny) = rest[k];
            assert(around[k - kept.len()] == (nx, ny));
            assert(around.contains((nx, ny)));
            if idle_at(start, nx, ny) {
                lemma_flood_extend(start, sx, sy, cx, cy, nx, ny);
            }
        }
    }
    assert forall|nx: int, ny: int| settled(now, pending, nx, ny) implies #[trigger] settled(
        next,
        rest,
        nx,
        ny,
    ) by {
        lemma_still_noted(now, pending, nx, ny);
        if kept.contains((nx, ny)) {
            let k = choose|k: int| 0 <= k < kept.len() && kept[k] == (nx, ny);
            assert(rest[k] == (nx, ny));
        }
    }
    assert forall|x: int, y: int, nx: int, ny: int|
        #![trigger opened(start, next, x, y), settled(next, rest, nx, ny)]
        opened(start, next, x, y) && spreads_at(start, x, y) && adjacent(
            x,
            y,
            nx,
            ny,
        ) implies settled(next, rest, nx, ny) by {
        if x == cx && y == cy {
            if in_grid(now, nx, ny) {
                assert(around.contains((nx, ny)));
                let k = choose|k: int| 0 <= k < around.len() && around[k] == (nx, ny);
                assert(rest[kept.len() + k] == (nx, ny));
            }
        } else {
            assert(opened(start, now, x, y));
            assert(settled(now, pending, nx, ny));
        }
    }
    assert(settled(now, pending, sx, sy));
}

/// When no position is left to look at, the grid is the one that clearing
/// `(sx, sy)` was to give.
pub(crate) proof fn lemma_progress_done(
    start: Seq<Seq<CellInfo>>,
    sx: int,
    sy: int,
    now: Seq<Seq<CellInfo>>,
)
    requires
        flood_progress(start, sx, sy, now, Seq::empty()),
    ensures
        now == flood_cleared(start, sx, sy),
{
    let wanted = flood_cleared(start, sx, sy);
    assert forall|y: int| 0 <= y < now.len() implies #[trigger] now[y] =~= wanted[y] by {
        assert forall|x: int| 0 <= x < now[y].len() implies now[y][x] == wanted[y][x] by {
            assert(kept_or_opened(start, now, x, y));
            if floods(start, sx, sy, x, y) {
                let path = choose|path: Seq<(int, int)>|
                    flood_path_between(start, path, sx, sy, x, y);
                lemma_path_opened(start, sx, sy, now, path, path.len() - 1);
            } else {
                assert(!opened(start, now, x, y));
            }
        }
    }
    assert(now =~= wanted);
}

/// When no position is left to look at, every cell on a way from the first
/// cell has been cleared.
proof fn lemma_path_opened(
    start: Seq<Seq<CellInfo>>,
    sx: int,
    sy: int,
    now: Seq<Seq<CellInfo>>,
    path: Seq<(int, int)>,
    i: int,
)
    requires
        flood_progress(start, sx, sy, now, Seq::empty()),
        flood_path(start, path),
        path.first() == (sx, sy),
        0 <= i < path.len(),
    ensures
        opened(start, now, path[i].0, path[i].1),
    decreases i,
{
    let none = Seq::<(int, int)>::empty();
    let (x, y) = path[i];
    assert(flood_stop(start, path, i));
    assert(kept_or_opened(start, now, x, y));
    if i == 0 {
        assert(settled(now, none, sx, sy));
    } else {
        lemma_path_opened(start, sx, sy, now, path, i - 1);
        let (px, py) = path[i - 1];
        assert(flood_link(start, path, i - 1));
        assert(opened(start, now, px, py));
        assert(settled(now, none, x, y));
    }
}

} // verus!
