use minesweeper::board::{Board, Msg, Props};
use minesweeper::cell::{CellAction, CellInfo, CellState, CellValue, Symbol};
use minesweeper::logic_board::BoardError;

fn cell(value: CellValue, state: CellState) -> CellInfo {
    CellInfo { value, state }
}

fn first_cell_where(game: &Board, wanted: fn(&CellInfo) -> bool) -> Option<(usize, usize)> {
    for (y, row) in game.rows().iter().enumerate() {
        for (x, cell) in row.iter().enumerate() {
            if wanted(cell) {
                return Some((x, y));
            }
        }
    }
    None
}

#[test]
fn a_click_clears_and_a_right_click_flags() {
    assert_eq!(minesweeper::cell::Msg::Click.action(), CellAction::Clear);
    assert_eq!(minesweeper::cell::Msg::RightClick.action(), CellAction::Flag);
}

#[test]
fn symbol_of_each_kind_of_cell() {
    assert_eq!(cell(CellValue::Mine, CellState::Idle).symbol(), Symbol::Blank);
    assert_eq!(cell(CellValue::Proximity(3), CellState::Idle).symbol(), Symbol::Blank);
    assert_eq!(cell(CellValue::Mine, CellState::Flagged).symbol(), Symbol::Flag);
    assert_eq!(cell(CellValue::Proximity(0), CellState::Flagged).symbol(), Symbol::Flag);
    assert_eq!(cell(CellValue::Mine, CellState::Cleared).symbol(), Symbol::Bomb);
    assert_eq!(cell(CellValue::Proximity(0), CellState::Cleared).symbol(), Symbol::Blank);
    assert_eq!(cell(CellValue::Proximity(1), CellState::Cleared).symbol(), Symbol::Count(1));
    assert_eq!(cell(CellValue::Proximity(8), CellState::Cleared).symbol(), Symbol::Count(8));
}

#[test]
fn class_of_each_kind_of_cell() {
    assert_eq!(cell(CellValue::Mine, CellState::Idle).class(), "");
    assert_eq!(cell(CellValue::Proximity(2), CellState::Idle).class(), "");
    assert_eq!(cell(CellValue::Mine, CellState::Flagged).class(), "flagged");
    assert_eq!(cell(CellValue::Proximity(2), CellState::Flagged).class(), "flagged");
    assert_eq!(cell(CellValue::Mine, CellState::Cleared).class(), "mine");
    assert_eq!(cell(CellValue::Proximity(0), CellState::Cleared).class(), "cleared");
    assert_eq!(cell(CellValue::Proximity(5), CellState::Cleared).class(), "cleared");
}

#[test]
fn a_new_game_is_ready_to_play() {
    let game = Board::create(Props { height: 16, width: 16, mines: 40 }).unwrap();
    assert_eq!(game.remaining_mines(), 40);
    assert_eq!(game.seconds_elapsed(), 0);
    let rows = game.rows();
    assert_eq!(rows.len(), 16);
    let mut mines = 0;
    for row in &rows {
        assert_eq!(row.len(), 16);
        for cell in row {
            assert_eq!(cell.state, CellState::Idle);
            if cell.value == CellValue::Mine {
                mines += 1;
            }
        }
    }
    assert_eq!(mines, 40);
}

#[test]
fn a_new_game_has_its_mines_counted() {
    let game = Board::create(Props { height: 1, width: 3, mines: 3 }).unwrap();
    assert_eq!(game.rows(), vec![vec![cell(CellValue::Mine, CellState::Idle); 3]]);
    let game = Board::create(Props { height: 2, width: 1, mines: 1 }).unwrap();
    let rows = game.rows();
    let values = (rows[0][0].value, rows[1][0].value);
    assert!(
        values == (CellValue::Mine, CellValue::Proximity(1))
            || values == (CellValue::Proximity(1), CellValue::Mine)
    );
}

#[test]
fn a_game_is_as_wide_as_its_width() {
    let game = Board::create(Props { height: 2, width: 5, mines: 0 }).unwrap();
    let rows = game.rows();
    assert_eq!(rows.len(), 2);
    assert_eq!(rows[0].len(), 5);
}

#[test]
fn a_game_that_cannot_be_made() {
    assert_eq!(
        Board::create(Props { height: 2, width: 2, mines: 5 }).err(),
        Some(BoardError::TooManyMines)
    );
    assert_eq!(
        Board::create(Props { height: usize::MAX, width: 2, mines: 5 }).err(),
        Some(BoardError::TooLarge)
    );
}

#[test]
fn a_second_moves_the_clock_and_nothing_else() {
    let mut game = Board::create(Props { height: 3, width: 3, mines: 2 }).unwrap();
    let rows = game.rows();
    assert!(game.update(Msg::SecondElapsed));
    assert!(game.update(Msg::SecondElapsed));
    assert_eq!(game.seconds_elapsed(), 2);
    assert_eq!(game.remaining_mines(), 2);
    assert_eq!(game.rows(), rows);
}

#[test]
fn a_flag_takes_one_from_the_counter_and_gives_it_back() {
    let mut game = Board::create(Props { height: 3, width: 3, mines: 2 }).unwrap();
    let rows = game.rows();
    assert!(game.update(Msg::CellMsg(1, 2, CellAction::Flag)));
    assert_eq!(game.remaining_mines(), 1);
    assert_eq!(game.rows()[2][1].state, CellState::Flagged);
    assert!(game.update(Msg::CellMsg(0, 0, CellAction::Flag)));
    assert!(game.update(Msg::CellMsg(2, 0, CellAction::Flag)));
    assert_eq!(game.remaining_mines(), -1);
    assert!(game.update(Msg::CellMsg(0, 0, CellAction::Flag)));
    assert!(game.update(Msg::CellMsg(2, 0, CellAction::Flag)));
    assert!(game.update(Msg::CellMsg(1, 2, CellAction::Flag)));
    assert_eq!(game.remaining_mines(), 2);
    assert_eq!(game.rows(), rows);
    assert_eq!(game.seconds_elapsed(), 0);
}

#[test]
fn a_flag_off_the_board_or_on_a_cleared_cell_leaves_the_counter() {
    let mut game = Board::create(Props { height: 2, width: 2, mines: 0 }).unwrap();
    assert!(game.update(Msg::CellMsg(2, 2, CellAction::Flag)));
    assert_eq!(game.remaining_mines(), 0);
    assert!(game.update(Msg::CellMsg(0, 0, CellAction::Clear)));
    assert!(game.update(Msg::CellMsg(1, 1, CellAction::Flag)));
    assert_eq!(game.remaining_mines(), 0);
    for row in game.rows() {
        for cell in row {
            assert_eq!(cell.state, CellState::Cleared);
        }
    }
}

#[test]
fn clearing_a_mine_shows_in_the_rows() {
    let mut game = Board::create(Props { height: 4, width: 4, mines: 5 }).unwrap();
    let (x, y) = first_cell_where(&game, |cell| cell.value == CellValue::Mine).unwrap();
    assert!(game.update(Msg::CellMsg(x, y, CellAction::Clear)));
    let rows = game.rows();
    assert_eq!(rows[y][x], cell(CellValue::Mine, CellState::Cleared));
    assert_eq!(rows[y][x].symbol(), Symbol::Bomb);
    let cleared = rows.iter().flatten().filter(|cell| cell.state == CellState::Cleared).count();
    assert_eq!(cleared, 1);
    assert_eq!(game.remaining_mines(), 5);
}

#[test]
fn clearing_a_safe_cell_uncovers_no_mine() {
    for _ in 0..20 {
        let mut game = Board::create(Props { height: 8, width: 8, mines: 6 }).unwrap();
        let (x, y) = first_cell_where(&game, |cell| cell.value != CellValue::Mine).unwrap();
        assert!(game.update(Msg::CellMsg(x, y, CellAction::Clear)));
        assert_eq!(game.rows()[y][x].state, CellState::Cleared);
        assert!(first_cell_where(&game, |cell| {
            cell.value == CellValue::Mine && cell.state == CellState::Cleared
        })
        .is_none());
    }
}
