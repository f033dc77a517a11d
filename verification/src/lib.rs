//! Minesweeper with machine-checked contracts.
//!
//! A [`logic_board::LogicBoard`] is a grid of cells, some of which hold
//! mines. It is laid out at random, counts for every cell the mines around
//! it, and lets the player clear and flag cells. A [`board::Board`] is a game
//! played on such a board, with a counter of the mines left to flag and a
//! clock.
//!
//! Every function states what it returns and what it changes over a plain
//! picture of the grid: a sequence of rows, each a sequence of cells, with
//! the cell at column `x` and row `y` at `rows[y][x]`. The modules `flag`,
//! `flood`, `neighbors` and `proximity` say in those terms what flagging,
//! clearing, the cells around a cell and the count of mines are; `tally`
//! counts cells; `layout` deals the cells of a new board. The grid itself
//! is stored in an `array2d::Array2D`, and `grid` states what is relied on
//! from it; `random` does the same for the source of randomness.

pub mod board;
pub mod cell;
pub mod flag;
pub mod flood;
pub mod grid;
pub mod layout;
pub mod logic_board;
pub mod neighbors;
pub mod proximity;
pub mod random;
pub mod tally;
