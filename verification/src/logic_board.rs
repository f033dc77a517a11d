//! The board: a grid of cells with the operations of the game.

use array2d::Array2D;
use vstd::prelude::*;

use crate::cell::{CellInfo, CellState, CellValue};
use crate::flag::{flag_delta, flag_toggled, lemma_flag_keeps_values};
use crate::flood::{
    cleared, flood_cleared, flood_progress, idle_at, lemma_flood_blocked,
    lemma_flood_keeps_values, lemma_progress_begin, lemma_progress_done, lemma_progress_open,
    lemma_progress_skip, spreads_at,
};
use crate::grid::{
    grid_as_rows, grid_from_row_major, grid_get, grid_get_mut, grid_rows, in_grid,
    lemma_with_same_cell, rectangular, with_cell,
};
use crate::layout::{count_mines, deal, fresh_layout, rows_of, untouched};
use crate::neighbors::{
    adjacent, as_coords, cell_if_in, lemma_mines_among_neighbors, lemma_neighbor_coords,
    mines_among, neighbor_coords,
};
use crate::proximity::{
    counted, counted_before, lemma_adjacent_mines_bound, lemma_count_ends,
    lemma_count_next_column, lemma_count_step, lemma_counted_is_counted,
    lemma_counting_keeps_mines, lemma_same_mines_total, proximities_counted, with_proximity,
};
use crate::tally::{
    any, cell_total, idle, idle_total, lemma_count_any, lemma_total_row_major,
    lemma_total_with_cell, mine, mine_count, mine_total,
};

verus! {

/// Why a board could not be made.
#[derive(Clone, Copy, Debug, PartialEq, Eq, Structural)]
pub enum BoardError {
    /// The board would have more cells than can be counted.
    TooLarge,
    /// There are more mines than cells.
    TooManyMines,
    /// The number of cells is not the width times the height.
    WrongCellCount,
}

/// What a pair of checked coordinates adds to a list of positions: the
/// position, if neither coordinate ran out of range and it names a cell of
/// the grid.
spec fn checked_coords(rows: Seq<Seq<CellInfo>>, x: Option<usize>, y: Option<usize>) -> Seq<
    (int, int),
> {
    if x.is_some() && y.is_some() {
        cell_if_in(rows, x.unwrap() as int, y.unwrap() as int)
    } else {
        Seq::empty()
    }
}

/// A minesweeper board: a grid of cells, some of which hold mines. It is
/// made once, its mines are counted by `init`, and the player then clears
/// and flags its cells. The board has no notion of a game won or lost: a
/// mine that was cleared shows in the rows as a cleared cell that holds a
/// mine, and it is for the caller to end the game on it.
pub struct LogicBoard {
    width: usize,
    height: usize,
    mines: usize,
    board: Array2D<CellInfo>,
}

impl View for LogicBoard {
    type V = Seq<Seq<CellInfo>>;

    /// The cells of the board, row by row: the cell at `(x, y)` is
    /// `self@[y][x]`.
    closed spec fn view(&self) -> Seq<Seq<CellInfo>> {
        grid_rows(self.board)
    }
}

impl LogicBoard {
    #[verifier::type_invariant]
    spec fn well_formed(&self) -> bool {
        rectangular(grid_rows(self.board), self.width as int, self.height as int)
    }

    /// The number of mines that the board was made with.
    pub closed spec fn mines(&self) -> nat {
        self.mines as nat
    }

    /// Puts the cells on a grid, row after row.
    fn assemble(width: usize, height: usize, mines: usize, cells: &Vec<CellInfo>) -> (board:
        LogicBoard)
        requires
            cells@.len() == width * height,
        ensures
            board@ == rows_of(cells@, width as int, height as int),
            board.mines() == mines,
    {
        assert(width * height == height * width) by (nonlinear_arith);
        let board = grid_from_row_major(cells, height, width);
        proof {
            let rows = grid_rows(board);
            let wanted = rows_of(cells@, width as int, height as int);
            assert forall|r: int| 0 <= r < height implies #[trigger] rows[r] =~= wanted[r] by {
                assert forall|c: int| 0 <= c < width implies rows[r][c] == wanted[r][c] by {
                    assert(rows[r][c] == cells@[r * width + c]);
                }
            }
            assert(rows =~= wanted);
        }
        LogicBoard { width, height, mines, board }
    }

    /// Makes a board of the given cells, which are taken row after row,
    /// `width` cells to a row. It fails unless there are `width * height`
    /// of them.
    pub fn from_cells(width: usize, height: usize, cells: Vec<CellInfo>) -> (made: Result<
        LogicBoard,
        BoardError,
    >)
        ensures
            made.is_ok() <==> cells@.len() == width * height,
            made matches Ok(board) ==> board@ == rows_of(cells@, width as int, height as int)
                && cell_total(board@) == width * height && mine_total(board@) == mine_count(cells@)
                && board.mines() == mine_count(cells@),
            made matches Err(error) ==> error == BoardError::WrongCellCount,
    {
        let count = cells.len();
        match width.checked_mul(height) {
            Some(total) => {
                if total == count {
                    let mines = count_mines(&cells);
                    let board = Self::assemble(width, height, mines, &cells);
                    proof {
                        assert(width * height == height * width) by (nonlinear_arith);
                        lemma_total_row_major(
                            board@,
                            cells@,
                            width as int,
                            height as int,
                            mine(),
                        );
                        lemma_total_row_major(board@, cells@, width as int, height as int, any());
                        lemma_count_any(cells@);
                    }
                    Ok(board)
                } else {
                    Err(BoardError::WrongCellCount)
                }
            },
            None => Err(BoardError::WrongCellCount),
        }
    }

    /// Makes a board of `width` by `height` cells with `mines` mines at
    /// random places. Nothing is flagged or cleared, and every other cell
    /// has proximity zero until `init` counts. It fails if the cells cannot
    /// be counted or the mines are more than the cells.
    pub fn new_random(width: usize, height: usize, mines: usize) -> (made: Result<
        LogicBoard,
        BoardError,
    >)
        ensures
            made.is_ok() <==> mines <= width * height <= usize::MAX,
            made matches Ok(board) ==> fresh_layout(board@, width as int, height as int)
                && cell_total(board@) == width * height && mine_total(board@) == mines
                && board.mines() == mines,
            made matches Err(error) ==> error == (if width * height > usize::MAX {
                BoardError::TooLarge
            } else {
                BoardError::TooManyMines
            }),
    {
        let total = match width.checked_mul(height) {
            Some(total) => total,
            None => {
                return Err(BoardError::TooLarge);
            },
        };
        if mines > total {
            return Err(BoardError::TooManyMines);
        }
        let cells = deal(total, mines);
        let board = Self::assemble(width, height, mines, &cells);
        proof {
            assert(width * height == height * width) by (nonlinear_arith);
            lemma_total_row_major(board@, cells@, width as int, height as int, mine());
            lemma_total_row_major(board@, cells@, width as int, height as int, any());
            lemma_count_any(cells@);
            assert forall|x: int, y: int| in_grid(board@, x, y) implies untouched(
                #[trigger] board@[y][x],
            ) by {
                assert(0 <= y * width + x < total) by (nonlinear_arith)
                    requires
                        0 <= x < width,
                        0 <= y < height,
                        total == width * height,
                ;
            }
        }
        Ok(board)
    }

    /// Counts the mines around every cell. A cell that holds a mine stays
    /// as it is, and nothing is flagged or cleared by the count.
    pub fn init(&mut self)
        ensures
            final(self)@ == counted(old(self)@),
            proximities_counted(final(self)@),
            mine_total(final(self)@) == mine_total(old(self)@),
            final(self).mines() == old(self).mines(),
    {
        proof {
            use_type_invariant(&*self);
            lemma_count_ends(self@, self.width as int, self.height as int);
            lemma_counted_is_counted(self@);
            lemma_counting_keeps_mines(self@);
            lemma_same_mines_total(self@, counted(self@));
        }
        let width = self.width;
        let height = self.height;
        let mut x: usize = 0;
        while x < width
            invariant
                x <= width,
                self@ == counted_before(old(self)@, x as int, 0),
                rectangular(old(self)@, width as int, height as int),
                self.mines() == old(self).mines(),
            decreases width - x,
        {
            let mut y: usize = 0;
            while y < height
                invariant
                    x < width,
                    y <= height,
                    self@ == counted_before(old(self)@, x as int, y as int),
                    rectangular(old(self)@, width as int, height as int),
                    self.mines() == old(self).mines(),
                decreases height - y,
            {
                proof {
                    lemma_count_step(old(self)@, x as int, y as int);
                }
                self.write_proximity(x, y);
                y += 1;
            }
            proof {
                lemma_count_next_column(old(self)@, x as int);
            }
            x += 1;
        }
    }

    /// The cell at `(x, y)`, if there is one.
    fn get_cell(&self, x: usize, y: usize) -> (cell: Option<&CellInfo>)
        ensures
            in_grid(self@, x as int, y as int) ==> cell == Some(&self@[y as int][x as int]),
            !in_grid(self@, x as int, y as int) ==> cell.is_none(),
    {
        grid_get(&self.board, y, x)
    }

    /// The cell at `(x, y)` to write to, if there is one.
    fn get_cell_mut(&mut self, x: usize, y: usize) -> (cell: Option<&mut CellInfo>)
        ensures
            in_grid(old(self)@, x as int, y as int) ==> cell.is_some() && *cell.unwrap() == old(
                self,
            )@[y as int][x as int] && final(self)@ == with_cell(
                old(self)@,
                x as int,
                y as int,
                *final(cell.unwrap()),
            ),
            !in_grid(old(self)@, x as int, y as int) ==> cell.is_none() && final(self)@ == old(
                self,
            )@,
            final(self).mines() == old(self).mines(),
    {
        proof {
            use_type_invariant(&*self);
        }
        grid_get_mut(&mut self.board, y, x)
    }

    /// The position `(x, y)`, if it names a cell.
    fn checked_cell(&self, x: usize, y: usize) -> (cell: Option<(usize, usize)>)
        ensures
            cell == (if in_grid(self@, x as int, y as int) {
                Some((x, y))
            } else {
                None
            }),
    {
        match self.get_cell(x, y) {
            Some(_) => Some((x, y)),
            None => None,
        }
    }

    /// Appends the position to the list if neither coordinate ran out of
    /// range and the position names a cell.
    fn push_checked(&self, points: &mut Vec<(usize, usize)>, x: Option<usize>, y: Option<usize>)
        ensures
            as_coords(final(points)@) == as_coords(old(points)@) + checked_coords(self@, x, y),
    {
        let ghost before = points@;
        if let Some(cx) = x {
            if let Some(cy) = y {
                if let Some(cell) = self.checked_cell(cx, cy) {
                    points.push(cell);
                    proof {
                        assert(as_coords(points@) =~= as_coords(before) + checked_coords(
                            self@,
                            x,
                            y,
                        ));
                    }
                    return ;
                }
            }
        }
        proof {
            assert(as_coords(points@) =~= as_coords(before) + checked_coords(self@, x, y));
        }
    }

    /// The cells that touch `(x, y)`: up to eight of them, fewer at an edge
    /// or in a corner of the grid, each listed once and `(x, y)` itself
    /// never.
    pub fn get_proximity_cells(&self, x: usize, y: usize) -> (cells: Vec<(usize, usize)>)
        ensures
            as_coords(cells@) == neighbor_coords(self@, x as int, y as int),
            cells@.len() <= 8,
            as_coords(cells@).no_duplicates(),
            forall|a: int, b: int|
                (#[trigger] as_coords(cells@).contains((a, b))) <==> in_grid(self@, a, b)
                    && adjacent(x as int, y as int, a, b),
    {
        proof {
            use_type_invariant(self);
            lemma_neighbor_coords(self@, x as int, y as int);
        }
        let left = x.checked_sub(1);
        let right = x.checked_add(1);
        let above = y.checked_sub(1);
        let below = y.checked_add(1);
        let mut points: Vec<(usize, usize)> = Vec::new();
        proof {
            assert(as_coords(points@) =~= Seq::<(int, int)>::empty());
        }
        self.push_checked(&mut points, left, above);
        self.push_checked(&mut points, Some(x), above);
        self.push_checked(&mut points, right, above);
        self.push_checked(&mut points, left, Some(y));
        self.push_checked(&mut points, right, Some(y));
        self.push_checked(&mut points, left, below);
        self.push_checked(&mut points, Some(x), below);
        self.push_checked(&mut points, right, below);
        proof {
            let rows = self@;
            let (a, b) = (x as int, y as int);
            assert(checked_coords(rows, left, above) == cell_if_in(rows, a - 1, b - 1));
            assert(checked_coords(rows, Some(x), above) == cell_if_in(rows, a, b - 1));
            assert(checked_coords(rows, right, above) == cell_if_in(rows, a + 1, b - 1));
            assert(checked_coords(rows, left, Some(y)) == cell_if_in(rows, a - 1, b));
            assert(checked_coords(rows, right, Some(y)) == cell_if_in(rows, a + 1, b));
            assert(checked_coords(rows, left, below) == cell_if_in(rows, a - 1, b + 1));
            assert(checked_coords(rows, Some(x), below) == cell_if_in(rows, a, b + 1));
            assert(checked_coords(rows, right, below) == cell_if_in(rows, a + 1, b + 1));
            assert(as_coords(points@) =~= neighbor_coords(rows, a, b));
        }
        points
    }

    /// Counts the mines around `(x, y)` and writes the number into the
    /// cell, unless the cell holds a mine.
    fn write_proximity(&mut self, x: usize, y: usize)
        ensures
            final(self)@ == with_proximity(old(self)@, x as int, y as int),
            final(self).mines() == old(self).mines(),
    {
        let nearby = self.get_proximity_cells(x, y);
        let ghost around = neighbor_coords(self@, x as int, y as int);
        let mut proximity: u32 = 0;
        let mut seen: usize = 0;
        while seen < nearby.len()
            invariant
                seen <= nearby.len() <= 8,
                as_coords(nearby@) == around,
                proximity == mines_among(self@, around.take(seen as int)),
                proximity <= seen,
            decreases nearby.len() - seen,
        {
            let (cx, cy) = nearby[seen];
            proof {
                assert(around[seen as int] == (cx as int, cy as int));
                assert(around.take(seen + 1).drop_last() =~= around.take(seen as int));
            }
            if let Some(cell) = self.get_cell(cx, cy) {
                if cell.value == CellValue::Mine {
                    proximity += 1;
                }
            }
            seen += 1;
        }
        proof {
            assert(around.take(seen as int) =~= around);
            lemma_mines_among_neighbors(self@, x as int, y as int);
            lemma_adjacent_mines_bound(self@, x as int, y as int);
            if in_grid(self@, x as int, y as int) {
                lemma_with_same_cell(self@, x as int, y as int);
            }
        }
        if let Some(cell) = self.get_cell_mut(x, y) {
            match cell.value {
                CellValue::Proximity(_) => {
                    cell.value = CellValue::Proximity(proximity);
                },
                CellValue::Mine => {},
            }
        }
    }

    /// Puts a flag on an idle cell or takes the flag off a flagged one, and
    /// says by how much the number of flags on the board has grown: one,
    /// minus one, or zero where there is no cell or the cell is cleared.
    pub fn flag_cell(&mut self, x: usize, y: usize) -> (delta: i8)
        ensures
            final(self)@ == flag_toggled(old(self)@, x as int, y as int),
            delta == flag_delta(old(self)@, x as int, y as int),
            mine_total(final(self)@) == mine_total(old(self)@),
            final(self).mines() == old(self).mines(),
    {
        proof {
            lemma_flag_keeps_values(self@, x as int, y as int);
            lemma_same_mines_total(self@, flag_toggled(self@, x as int, y as int));
            if in_grid(self@, x as int, y as int) {
                lemma_with_same_cell(self@, x as int, y as int);
            }
        }
        match self.get_cell_mut(x, y) {
            Some(cell) => {
                match cell.state {
                    CellState::Flagged => {
                        cell.state = CellState::Idle;
                        -1
                    },
                    CellState::Idle => {
                        cell.state = CellState::Flagged;
                        1
                    },
                    CellState::Cleared => 0,
                }
            },
            None => 0,
        }
    }

    /// A copy of the cells for display, one `Vec` for each row.
    pub fn get_board_rows(&self) -> (rows: Vec<Vec<CellInfo>>)
        ensures
            rows@.len() == self@.len(),
            forall|y: int| 0 <= y < rows@.len() ==> (#[trigger] rows@[y])@ == self@[y],
    {
        proof {
            use_type_invariant(self);
        }
        if self.width == 0 {
            let mut rows: Vec<Vec<CellInfo>> = Vec::new();
            let mut y: usize = 0;
            while y < self.height
                invariant
                    y <= self.height,
                    rows@.len() == y,
                    self.width == 0,
                    rectangular(self@, self.width as int, self.height as int),
                    forall|r: int| 0 <= r < y ==> (#[trigger] rows@[r])@ == self@[r],
                decreases self.height - y,
            {
                let row: Vec<CellInfo> = Vec::new();
                proof {
                    assert(row@ =~= self@[y as int]);
                }
                rows.push(row);
                y += 1;
            }
            rows
        } else {
            grid_as_rows(&self.board)
        }
    }

    /// Clears the cell at `(x, y)` if it is idle, and says whether the
    /// clearing is to go on to the cells around it.
    fn open_cell(&mut self, x: usize, y: usize) -> (spread: bool)
        ensures
            idle_at(old(self)@, x as int, y as int) ==> final(self)@ == with_cell(
                old(self)@,
                x as int,
                y as int,
                cleared(old(self)@[y as int][x as int]),
            ) && spread == spreads_at(old(self)@, x as int, y as int),
            !idle_at(old(self)@, x as int, y as int) ==> final(self)@ == old(self)@ && !spread,
            final(self).mines() == old(self).mines(),
    {
        proof {
            if in_grid(self@, x as int, y as int) {
                lemma_with_same_cell(self@, x as int, y as int);
            }
        }
        match self.get_cell_mut(x, y) {
            Some(cell) => {
                match cell.state {
                    CellState::Idle => {
                        cell.state = CellState::Cleared;
                        match cell.value {
                            CellValue::Proximity(count) => count == 0,
                            CellValue::Mine => false,
                        }
                    },
                    _ => false,
                }
            },
            None => false,
        }
    }

    /// Notes the cells around `(x, y)` as cells to be cleared.
    fn clear_around(&self, x: usize, y: usize, pending: &mut Vec<(usize, usize)>)
        ensures
            as_coords(final(pending)@) == as_coords(old(pending)@) + neighbor_coords(
                self@,
                x as int,
                y as int,
            ),
    {
        let nearby_cells = self.get_proximity_cells(x, y);
        let mut noted: usize = 0;
        while noted < nearby_cells.len()
            invariant
                noted <= nearby_cells.len(),
                as_coords(pending@) == as_coords(old(pending)@) + as_coords(nearby_cells@).take(
                    noted as int,
                ),
            decreases nearby_cells.len() - noted,
        {
            let ghost before = pending@;
            pending.push(nearby_cells[noted]);
            proof {
                let taken = as_coords(nearby_cells@).take(noted as int);
                let more = as_coords(nearby_cells@).take(noted + 1);
                assert(more =~= taken.push(as_coords(nearby_cells@)[noted as int]));
                assert(as_coords(pending@) =~= as_coords(before).push(
                    as_coords(nearby_cells@)[noted as int],
                ));
                assert(as_coords(pending@) =~= as_coords(old(pending)@) + more);
            }
            noted += 1;
        }
        proof {
            assert(as_coords(nearby_cells@).take(noted as int) =~= as_coords(nearby_cells@));
        }
    }

    /// Clears the cell at `(x, y)` if it is idle. Where the cell shows no
    /// mine around it, the cells around it are cleared in the same way, and
    /// so on. A flagged or cleared cell, or a position beyond the edge,
    /// changes nothing. A mine is cleared like any other cell: the caller
    /// sees it in the rows afterwards.
    pub fn clear_cell(&mut self, x: usize, y: usize)
        ensures
            final(self)@ == flood_cleared(old(self)@, x as int, y as int),
            !idle_at(old(self)@, x as int, y as int) ==> final(self)@ == old(self)@,
            mine_total(final(self)@) == mine_total(old(self)@),
            final(self).mines() == old(self).mines(),
    {
        let ghost start = self@;
        proof {
            if !idle_at(start, x as int, y as int) {
                lemma_flood_blocked(start, x as int, y as int);
            }
            lemma_flood_keeps_values(start, x as int, y as int);
            lemma_same_mines_total(start, flood_cleared(start, x as int, y as int));
        }
        let mut pending: Vec<(usize, usize)> = Vec::new();
        pending.push((x, y));
        proof {
            lemma_progress_begin(start, x as int, y as int);
            assert(as_coords(pending@) =~= seq![(x as int, y as int)]);
        }
        while pending.len() > 0
            invariant
                flood_progress(start, x as int, y as int, self@, as_coords(pending@)),
                self.mines() == old(self).mines(),
            decreases idle_total(self@), pending@.len(),
        {
            let ghost now = self@;
            let ghost noted = as_coords(pending@);
            let (cx, cy) = pending.pop().unwrap();
            proof {
                assert(noted.last() == (cx as int, cy as int));
                assert(as_coords(pending@) =~= noted.drop_last());
                if idle_at(now, cx as int, cy as int) {
                    lemma_progress_open(start, x as int, y as int, now, noted);
                    lemma_total_with_cell(
                        now,
                        cx as int,
                        cy as int,
                        cleared(now[cy as int][cx as int]),
                        idle(),
                    );
                } else {
                    lemma_progress_skip(start, x as int, y as int, now, noted);
                }
            }
            if self.open_cell(cx, cy) {
                proof {
                    assert(neighbor_coords(self@, cx as int, cy as int) =~= neighbor_coords(
                        now,
                        cx as int,
                        cy as int,
                    ));
                }
                self.clear_around(cx, cy, &mut pending);
            }
        }
        proof {
            assert(as_coords(pending@) =~= Seq::<(int, int)>::empty());
            lemma_progress_done(start, x as int, y as int, self@);
        }
    }
}

} // verus!
