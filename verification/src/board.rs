//! A game in progress: the board, the number of mines not yet flagged, and
//! the seconds played. Each thing that happens is a message, and `update`
//! says what it does to the game.

use vstd::prelude::*;

use crate::cell::{CellAction, CellInfo, CellState};
use crate::flag::{flag_delta, flag_toggled};
use crate::flood::flood_cleared;
use crate::grid::{in_grid, rectangular};
use crate::layout::untouched;
use crate::logic_board::{BoardError, LogicBoard};
use crate::proximity::proximities_counted;
use crate::tally::mine_total;

verus! {

/// The size of a board and the number of its mines.
#[derive(Clone, Copy, Debug, PartialEq, Eq, Structural)]
pub struct Props {
    pub height: usize,
    pub width: usize,
    pub mines: usize,
}

/// What can happen to a game: the player asks something of the cell at
/// `(x, y)`, or a second goes by.
#[derive(Clone, Copy, Debug, PartialEq, Eq, Structural)]
pub enum Msg {
    CellMsg(usize, usize, CellAction),
    SecondElapsed,
}

/// A game in progress.
pub struct Board {
    board: LogicBoard,
    remaining_mines: i64,
    seconds_elapsed: u64,
}

/// A game as the contracts see it.
pub struct BoardView {
    /// The cells, row by row.
    pub rows: Seq<Seq<CellInfo>>,
    /// The mines less the flags.
    pub remaining_mines: int,
    /// The seconds played.
    pub seconds_elapsed: int,
}

/// The number kept within what the counter of mines can hold.
pub open spec fn counter_of(number: int) -> int {
    if number < i64::MIN {
        i64::MIN as int
    } else if number > i64::MAX {
        i64::MAX as int
    } else {
        number
    }
}

/// The seconds after one more, which the clock stops counting at the end
/// of its range.
pub open spec fn clock_after(seconds: int) -> int {
    if seconds < u64::MAX {
        seconds + 1
    } else {
        seconds
    }
}

/// A board at the start of a game: the right size, the right number of
/// mines, nothing flagged or cleared, and the mines around each cell
/// counted.
pub open spec fn ready_to_play(rows: Seq<Seq<CellInfo>>, props: Props) -> bool {
    &&& rectangular(rows, props.width as int, props.height as int)
    &&& mine_total(rows) == props.mines
    &&& proximities_counted(rows)
    &&& forall|x: int, y: int| in_grid(rows, x, y) ==> (#[trigger] rows[y][x]).state == CellState::Idle
}

/// The game after a message: clearing changes the cells, flagging changes
/// the cells and takes from the counter of mines what the flag adds to the
/// flags, and a second moves the clock.
pub open spec fn updated(game: BoardView, msg: Msg) -> BoardView {
    match msg {
        Msg::CellMsg(x, y, CellAction::Clear) => BoardView {
            rows: flood_cleared(game.rows, x as int, y as int),
            ..game
        },
        Msg::CellMsg(x, y, CellAction::Flag) => BoardView {
            rows: flag_toggled(game.rows, x as int, y as int),
            remaining_mines: counter_of(
                game.remaining_mines - flag_delta(game.rows, x as int, y as int),
            ),
            ..game
        },
        Msg::SecondElapsed => BoardView { seconds_elapsed: clock_after(game.seconds_elapsed), ..game },
    }
}

/// A flag put on a cell and taken off again leaves the game as it was,
/// unless the counter of mines was at the end of its range.
pub proof fn lemma_flag_and_unflag(game: BoardView, x: usize, y: usize)
    requires
        i64::MIN < game.remaining_mines < i64::MAX,
    ensures
        updated(updated(game, Msg::CellMsg(x, y, CellAction::Flag)), Msg::CellMsg(x, y, CellAction::Flag))
            == game,
{
    crate::flag::lemma_flag_twice(game.rows, x as int, y as int);
}

impl View for Board {
    type V = BoardView;

    closed spec fn view(&self) -> BoardView {
        BoardView {
            rows: self.board@,
            remaining_mines: self.remaining_mines as int,
            seconds_elapsed: self.seconds_elapsed as int,
        }
    }
}

impl Board {
    /// Starts a game: lays out a board with the mines at random places and
    /// counts the mines around each cell. It fails where the board cannot
    /// be made.
    pub fn create(props: Props) -> (made: Result<Board, BoardError>)
        ensures
            made.is_ok() <==> props.mines <= props.width * props.height <= usize::MAX,
            made matches Ok(game) ==> ready_to_play(game@.rows, props) && game@.remaining_mines
                == counter_of(props.mines as int) && game@.seconds_elapsed == 0,
            made matches Err(error) ==> error == (if props.width * props.height > usize::MAX {
                BoardError::TooLarge
            } else {
                BoardError::TooManyMines
            }),
    {
        match LogicBoard::new_random(props.width, props.height, props.mines) {
            Ok(mut board) => {
                let ghost layout = board@;
                board.init();
                proof {
                    assert forall|x: int, y: int| in_grid(board@, x, y) implies (
                    #[trigger] board@[y][x]).state == CellState::Idle by {
                        assert(untouched(layout[y][x]));
                    }
                }
                let remaining_mines: i64 = if props.mines as u64 > i64::MAX as u64 {
                    i64::MAX
                } else {
                    props.mines as i64
                };
                Ok(Board { board, remaining_mines, seconds_elapsed: 0 })
            },
            Err(error) => Err(error),
        }
    }

    /// Takes a message and says whether the game is to be drawn again,
    /// which it always is.
    pub fn update(&mut self, msg: Msg) -> (redraw: bool)
        ensures
            final(self)@ == updated(old(self)@, msg),
            redraw,
    {
        match msg {
            Msg::CellMsg(x, y, action) => match action {
                CellAction::Clear => {
                    self.board.clear_cell(x, y);
                },
                CellAction::Flag => {
                    let delta = self.board.flag_cell(x, y);
                    if delta == 1 {
                        if self.remaining_mines > i64::MIN {
                            self.remaining_mines = self.remaining_mines - 1;
                        }
                    } else if delta == -1 {
                        if self.remaining_mines < i64::MAX {
                            self.remaining_mines = self.remaining_mines + 1;
                        }
                    }
                },
            },
            Msg::SecondElapsed => {
                if self.seconds_elapsed < u64::MAX {
                    self.seconds_elapsed = self.seconds_elapsed + 1;
                }
            },
        }
        true
    }

    /// The mines less the flags.
    pub fn remaining_mines(&self) -> (remaining: i64)
        ensures
            remaining == self@.remaining_mines,
    {
        self.remaining_mines
    }

    /// The seconds played.
    pub fn seconds_elapsed(&self) -> (seconds: u64)
        ensures
            seconds == self@.seconds_elapsed,
    {
        self.seconds_elapsed
    }

    /// A copy of the cells for display, one `Vec` for each row.
    pub fn rows(&self) -> (rows: Vec<Vec<CellInfo>>)
        ensures
            rows@.len() == self@.rows.len(),
            forall|y: int| 0 <= y < rows@.len() ==> (#[trigger] rows@[y])@ == self@.rows[y],
    {
        self.board.get_board_rows()
    }
}

} // verus!
