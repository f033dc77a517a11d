//! Cells of a minesweeper board: what a cell holds, what the player has done
//! to it, and how it is shown.

use vstd::prelude::*;

verus! {

/// What the player has done to a cell.
#[derive(Clone, Copy, Debug, PartialEq, Eq, Structural)]
pub enum CellState {
    Idle,
    Flagged,
    Cleared,
}

/// What a cell holds: a mine, or the number of mines around it.
#[derive(Clone, Copy, Debug, PartialEq, Eq, Structural)]
pub enum CellValue {
    Proximity(u32),
    Mine,
}

/// One cell of the board.
#[derive(Clone, Copy, Debug, PartialEq, Eq, Structural)]
pub struct CellInfo {
    pub value: CellValue,
    pub state: CellState,
}

/// What the player asks of a cell.
#[derive(Clone, Copy, Debug, PartialEq, Eq, Structural)]
pub enum CellAction {
    Clear,
    Flag,
}

/// What the player did to the button of a cell.
#[derive(Clone, Copy, Debug, PartialEq, Eq, Structural)]
pub enum Msg {
    Click,
    RightClick,
}

/// What a cell shows to the player.
#[derive(Clone, Copy, Debug, PartialEq, Eq, Structural)]
pub enum Symbol {
    /// Nothing.
    Blank,
    /// A flag.
    Flag,
    /// A mine that was cleared.
    Bomb,
    /// The number of mines around the cell, never zero.
    Count(u32),
}

/// What a click asks for: the left button clears, the right button flags.
pub open spec fn action_of(msg: Msg) -> CellAction {
    match msg {
        Msg::Click => CellAction::Clear,
        Msg::RightClick => CellAction::Flag,
    }
}

/// What the cell shows: a flag if it is flagged, nothing while it is idle,
/// and once it is cleared what it holds, a bomb or the number of mines
/// around it, with nothing in place of zero.
pub open spec fn symbol_of(cell: CellInfo) -> Symbol {
    match cell.state {
        CellState::Flagged => Symbol::Flag,
        CellState::Idle => Symbol::Blank,
        CellState::Cleared => match cell.value {
            CellValue::Proximity(count) => if count == 0 {
                Symbol::Blank
            } else {
                Symbol::Count(count)
            },
            CellValue::Mine => Symbol::Bomb,
        },
    }
}

/// The style class of the cell: by its state, and for a cleared cell by
/// whether it held a mine.
pub open spec fn class_of(cell: CellInfo) -> Seq<char> {
    match cell.state {
        CellState::Flagged => "flagged"@,
        CellState::Idle => ""@,
        CellState::Cleared => match cell.value {
            CellValue::Proximity(_) => "cleared"@,
            CellValue::Mine => "mine"@,
        },
    }
}

/// A cell that is not cleared shows nothing of what it holds: two such
/// cells in the same state look the same.
pub proof fn lemma_symbol_hides_value(first: CellInfo, second: CellInfo)
    requires
        first.state == second.state,
        first.state != CellState::Cleared,
    ensures
        symbol_of(first) == symbol_of(second),
        class_of(first) == class_of(second),
{
}

impl Msg {
    /// What the click asks of the cell.
    pub fn action(&self) -> (action: CellAction)
        ensures
            action == action_of(*self),
    {
        match self {
            Msg::Click => CellAction::Clear,
            Msg::RightClick => CellAction::Flag,
        }
    }
}

impl CellInfo {
    /// What the cell shows to the player.
    pub fn symbol(&self) -> (symbol: Symbol)
        ensures
            symbol == symbol_of(*self),
    {
        match self.state {
            CellState::Flagged => Symbol::Flag,
            CellState::Idle => Symbol::Blank,
            CellState::Cleared => match self.value {
                CellValue::Proximity(count) => {
                    if count == 0 {
                        Symbol::Blank
                    } else {
                        Symbol::Count(count)
                    }
                },
                CellValue::Mine => Symbol::Bomb,
            },
        }
    }

    /// The style class of the cell.
    pub fn class(&self) -> (name: &'static str)
        ensures
            name@ == class_of(*self),
    {
        match self.state {
            CellState::Flagged => "flagged",
            CellState::Idle => "",
            CellState::Cleared => match self.value {
                CellValue::Proximity(_) => "cleared",
                CellValue::Mine => "mine",
            },
        }
    }
}

} // verus!
