use minesweeper::cell::{CellInfo, CellState, CellValue};
use minesweeper::logic_board::{BoardError, LogicBoard};

fn mine() -> CellInfo {
    CellInfo { value: CellValue::Mine, state: CellState::Idle }
}

fn safe() -> CellInfo {
    CellInfo { value: CellValue::Proximity(0), state: CellState::Idle }
}

fn count_mines(rows: &Vec<Vec<CellInfo>>) -> usize {
    let mut count = 0;
    for row in rows {
        for cell in row {
            if cell.value == CellValue::Mine {
                count += 1;
            }
        }
    }
    count
}

fn check_fresh(width: usize, height: usize, mines: usize) {
    let board = LogicBoard::new_random(width, height, mines).unwrap();
    let rows = board.get_board_rows();
    assert_eq!(rows.len(), height);
    for row in &rows {
        assert_eq!(row.len(), width);
        for cell in row {
            assert_eq!(cell.state, CellState::Idle);
            assert!(cell.value == CellValue::Mine || cell.value == CellValue::Proximity(0));
        }
    }
    assert_eq!(count_mines(&rows), mines);
}

#[test]
fn random_board_has_requested_mines_and_size() {
    check_fresh(16, 16, 40);
    check_fresh(9, 9, 10);
    check_fresh(30, 16, 99);
    check_fresh(5, 3, 1);
    check_fresh(3, 5, 14);
}

#[test]
fn random_board_takes_every_mine_count_up_to_the_cells() {
    for mines in 0..=12 {
        check_fresh(4, 3, mines);
    }
}

#[test]
fn random_board_without_cells() {
    check_fresh(0, 0, 0);
    check_fresh(0, 4, 0);
    check_fresh(4, 0, 0);
    check_fresh(1, 1, 0);
    check_fresh(1, 1, 1);
}

#[test]
fn random_board_is_wide_by_width_and_tall_by_height() {
    let board = LogicBoard::new_random(7, 2, 3).unwrap();
    let rows = board.get_board_rows();
    assert_eq!(rows.len(), 2);
    assert_eq!(rows[0].len(), 7);
    assert_eq!(rows[1].len(), 7);
}

#[test]
fn too_many_mines_are_refused() {
    assert_eq!(LogicBoard::new_random(2, 2, 5).err(), Some(BoardError::TooManyMines));
    assert_eq!(LogicBoard::new_random(0, 9, 1).err(), Some(BoardError::TooManyMines));
    assert!(LogicBoard::new_random(2, 2, 4).is_ok());
}

#[test]
fn a_board_too_large_to_count_is_refused() {
    assert_eq!(LogicBoard::new_random(usize::MAX, 2, 0).err(), Some(BoardError::TooLarge));
    assert_eq!(
        LogicBoard::new_random(usize::MAX, usize::MAX, usize::MAX).err(),
        Some(BoardError::TooLarge)
    );
}

#[test]
fn the_mines_reach_every_place() {
    // With one mine on two cells, both places must turn up over many boards.
    let mut first = 0;
    let mut second = 0;
    for _ in 0..400 {
        let rows = LogicBoard::new_random(2, 1, 1).unwrap().get_board_rows();
        assert_eq!(count_mines(&rows), 1);
        if rows[0][0].value == CellValue::Mine {
            first += 1;
        } else {
            second += 1;
        }
    }
    assert!(first > 0);
    assert!(second > 0);
}

#[test]
fn the_last_cell_takes_part_in_the_shuffle() {
    let mut seen_mine_last = false;
    for _ in 0..400 {
        let rows = LogicBoard::new_random(3, 3, 1).unwrap().get_board_rows();
        if rows[2][2].value == CellValue::Mine {
            seen_mine_last = true;
        }
    }
    assert!(seen_mine_last);
}

#[test]
fn cells_are_laid_out_row_after_row() {
    let cells = vec![mine(), safe(), safe(), safe(), safe(), mine()];
    let board = LogicBoard::from_cells(3, 2, cells).unwrap();
    let rows = board.get_board_rows();
    assert_eq!(rows, vec![vec![mine(), safe(), safe()], vec![safe(), safe(), mine()]]);
}

#[test]
fn cells_keep_their_state_and_value() {
    let flagged = CellInfo { value: CellValue::Proximity(3), state: CellState::Flagged };
    let cleared = CellInfo { value: CellValue::Mine, state: CellState::Cleared };
    let board = LogicBoard::from_cells(1, 2, vec![flagged, cleared]).unwrap();
    assert_eq!(board.get_board_rows(), vec![vec![flagged], vec![cleared]]);
}

#[test]
fn a_wrong_number_of_cells_is_refused() {
    assert_eq!(
        LogicBoard::from_cells(2, 2, vec![mine(), safe(), safe()]).err(),
        Some(BoardError::WrongCellCount)
    );
    assert_eq!(LogicBoard::from_cells(1, 1, vec![]).err(), Some(BoardError::WrongCellCount));
    assert_eq!(
        LogicBoard::from_cells(usize::MAX, 2, vec![safe()]).err(),
        Some(BoardError::WrongCellCount)
    );
    assert!(LogicBoard::from_cells(0, 0, vec![]).is_ok());
}

#[test]
fn rows_of_a_board_without_columns() {
    let board = LogicBoard::from_cells(0, 3, vec![]).unwrap();
    let rows = board.get_board_rows();
    assert_eq!(rows.len(), 3);
    assert!(rows.iter().all(|row| row.is_empty()));
    let board = LogicBoard::from_cells(3, 0, vec![]).unwrap();
    assert!(board.get_board_rows().is_empty());
}
