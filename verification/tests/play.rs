use minesweeper::cell::{CellInfo, CellState, CellValue};
use minesweeper::logic_board::LogicBoard;

fn mine() -> CellInfo {
    CellInfo { value: CellValue::Mine, state: CellState::Idle }
}

fn safe() -> CellInfo {
    CellInfo { value: CellValue::Proximity(0), state: CellState::Idle }
}

/// A board from a picture: `*` is a mine, anything else is not.
fn board_of(picture: &[&str]) -> LogicBoard {
    let height = picture.len();
    let width = if height == 0 { 0 } else { picture[0].len() };
    let mut cells = Vec::new();
    for line in picture {
        for mark in line.chars() {
            cells.push(if mark == '*' { mine() } else { safe() });
        }
    }
    LogicBoard::from_cells(width, height, cells).unwrap()
}

fn states(board: &LogicBoard) -> Vec<Vec<CellState>> {
    board
        .get_board_rows()
        .iter()
        .map(|row| row.iter().map(|cell| cell.state).collect())
        .collect()
}

fn values(board: &LogicBoard) -> Vec<Vec<CellValue>> {
    board
        .get_board_rows()
        .iter()
        .map(|row| row.iter().map(|cell| cell.value).collect())
        .collect()
}

fn sorted(mut cells: Vec<(usize, usize)>) -> Vec<(usize, usize)> {
    cells.sort();
    cells
}

const I: CellState = CellState::Idle;
const F: CellState = CellState::Flagged;
const C: CellState = CellState::Cleared;
const M: CellValue = CellValue::Mine;

fn p(count: u32) -> CellValue {
    CellValue::Proximity(count)
}

#[test]
fn empty_three_by_three_clears_whole() {
    let mut board = LogicBoard::new_random(3, 3, 0).unwrap();
    board.init();
    for row in board.get_board_rows() {
        for cell in row {
            assert_eq!(cell.value, CellValue::Proximity(0));
            assert_eq!(cell.state, CellState::Idle);
        }
    }
    board.clear_cell(0, 0);
    assert_eq!(states(&board), vec![vec![C, C, C], vec![C, C, C], vec![C, C, C]]);
}

#[test]
fn one_by_two_with_a_mine() {
    let mut board = LogicBoard::from_cells(1, 2, vec![mine(), safe()]).unwrap();
    board.init();
    assert_eq!(values(&board), vec![vec![M], vec![p(1)]]);
    board.clear_cell(0, 1);
    assert_eq!(states(&board), vec![vec![I], vec![C]]);
    board.clear_cell(0, 0);
    assert_eq!(states(&board), vec![vec![C], vec![C]]);
    assert_eq!(values(&board), vec![vec![M], vec![p(1)]]);
}

#[test]
fn clearing_a_mine_does_not_spread() {
    let mut board = board_of(&["*..", "...", "..."]);
    board.init();
    board.clear_cell(0, 0);
    assert_eq!(states(&board), vec![vec![C, I, I], vec![I, I, I], vec![I, I, I]]);
}

#[test]
fn flag_then_flag_again() {
    let mut board = LogicBoard::from_cells(1, 1, vec![safe()]).unwrap();
    assert_eq!(board.flag_cell(0, 0), 1);
    assert_eq!(states(&board), vec![vec![F]]);
    assert_eq!(board.flag_cell(0, 0), -1);
    assert_eq!(states(&board), vec![vec![I]]);
}

#[test]
fn flag_on_a_cleared_cell_or_off_the_board() {
    let mut board = board_of(&["*.", ".."]);
    board.init();
    board.clear_cell(1, 1);
    assert_eq!(states(&board), vec![vec![I, I], vec![I, C]]);
    assert_eq!(board.flag_cell(1, 1), 0);
    assert_eq!(board.flag_cell(2, 0), 0);
    assert_eq!(board.flag_cell(0, 2), 0);
    assert_eq!(board.flag_cell(usize::MAX, usize::MAX), 0);
    assert_eq!(states(&board), vec![vec![I, I], vec![I, C]]);
}

#[test]
fn flag_touches_one_cell_and_no_value() {
    let mut board = board_of(&["*..", "...", "..*"]);
    board.init();
    let before = values(&board);
    assert_eq!(board.flag_cell(2, 1), 1);
    assert_eq!(states(&board), vec![vec![I, I, I], vec![I, I, F], vec![I, I, I]]);
    assert_eq!(values(&board), before);
}

#[test]
fn proximity_counts_the_mines_around() {
    let mut board = board_of(&["*..", "...", "..*"]);
    board.init();
    assert_eq!(
        values(&board),
        vec![vec![M, p(1), p(0)], vec![p(1), p(2), p(1)], vec![p(0), p(1), M]]
    );
}

#[test]
fn proximity_of_a_cell_ringed_by_mines_is_eight() {
    let mut board = board_of(&["***", "*.*", "***"]);
    board.init();
    assert_eq!(
        values(&board),
        vec![vec![M, M, M], vec![M, p(8), M], vec![M, M, M]]
    );
}

#[test]
fn proximity_does_not_wrap_round_the_edges() {
    let mut board = board_of(&["*...", "....", "...."]);
    board.init();
    assert_eq!(
        values(&board),
        vec![
            vec![M, p(1), p(0), p(0)],
            vec![p(1), p(1), p(0), p(0)],
            vec![p(0), p(0), p(0), p(0)]
        ]
    );
}

#[test]
fn proximity_matches_a_count_by_hand_on_random_boards() {
    for (width, height, mines) in [(16usize, 16usize, 40usize), (5, 9, 12), (1, 7, 3), (7, 1, 3)] {
        let mut board = LogicBoard::new_random(width, height, mines).unwrap();
        board.init();
        let rows = board.get_board_rows();
        for y in 0..height {
            for x in 0..width {
                let mut around = 0;
                for ny in y.saturating_sub(1)..=(y + 1).min(height - 1) {
                    for nx in x.saturating_sub(1)..=(x + 1).min(width - 1) {
                        if (nx, ny) != (x, y) && rows[ny][nx].value == CellValue::Mine {
                            around += 1;
                        }
                    }
                }
                match rows[y][x].value {
                    CellValue::Mine => {},
                    CellValue::Proximity(count) => assert_eq!(count, around),
                }
                assert_eq!(rows[y][x].state, CellState::Idle);
            }
        }
    }
}

#[test]
fn init_twice_is_init_once() {
    let mut board = board_of(&["*..", "...", "..*"]);
    board.init();
    let once = board.get_board_rows();
    board.init();
    assert_eq!(board.get_board_rows(), once);
}

#[test]
fn init_keeps_flags_and_cleared_cells() {
    let flagged = CellInfo { value: CellValue::Proximity(0), state: CellState::Flagged };
    let cleared = CellInfo { value: CellValue::Proximity(7), state: CellState::Cleared };
    let mut board = LogicBoard::from_cells(3, 1, vec![flagged, mine(), cleared]).unwrap();
    board.init();
    assert_eq!(
        board.get_board_rows(),
        vec![vec![
            CellInfo { value: p(1), state: F },
            mine(),
            CellInfo { value: p(1), state: C }
        ]]
    );
}

#[test]
fn clearing_a_flagged_or_cleared_cell_changes_nothing() {
    let mut board = board_of(&["....", "....", "...*"]);
    board.init();
    assert_eq!(board.flag_cell(0, 0), 1);
    let before = board.get_board_rows();
    board.clear_cell(0, 0);
    assert_eq!(board.get_board_rows(), before);
    board.clear_cell(2, 2);
    let after_first = board.get_board_rows();
    assert_eq!(after_first[2][2].state, C);
    board.clear_cell(2, 2);
    assert_eq!(board.get_board_rows(), after_first);
}

#[test]
fn clearing_off_the_board_changes_nothing() {
    let mut board = board_of(&["..", ".."]);
    board.init();
    let before = board.get_board_rows();
    board.clear_cell(2, 0);
    board.clear_cell(0, 2);
    board.clear_cell(usize::MAX, usize::MAX);
    assert_eq!(board.get_board_rows(), before);
}

#[test]
fn clearing_spreads_over_the_empty_region_and_its_border() {
    let mut board = board_of(&[".....", ".....", "..*..", ".....", "....*"]);
    board.init();
    assert_eq!(
        values(&board),
        vec![
            vec![p(0), p(0), p(0), p(0), p(0)],
            vec![p(0), p(1), p(1), p(1), p(0)],
            vec![p(0), p(1), M, p(1), p(0)],
            vec![p(0), p(1), p(1), p(2), p(1)],
            vec![p(0), p(0), p(0), p(1), M]
        ]
    );
    board.clear_cell(0, 0);
    assert_eq!(
        states(&board),
        vec![
            vec![C, C, C, C, C],
            vec![C, C, C, C, C],
            vec![C, C, I, C, C],
            vec![C, C, C, C, C],
            vec![C, C, C, C, I]
        ]
    );
}

#[test]
fn clearing_stops_at_a_wall_of_numbers() {
    let mut board = board_of(&["..*..", "..*..", "..*.."]);
    board.init();
    board.clear_cell(0, 1);
    assert_eq!(
        states(&board),
        vec![vec![C, C, I, I, I], vec![C, C, I, I, I], vec![C, C, I, I, I]]
    );
}

#[test]
fn clearing_a_number_clears_only_that_cell() {
    let mut board = board_of(&["..*..", "..*..", "..*.."]);
    board.init();
    board.clear_cell(1, 1);
    assert_eq!(
        states(&board),
        vec![vec![I, I, I, I, I], vec![I, C, I, I, I], vec![I, I, I, I, I]]
    );
}

#[test]
fn clearing_goes_round_flags_but_not_through_them() {
    let mut board = board_of(&[".....", "....."]);
    board.init();
    assert_eq!(board.flag_cell(2, 0), 1);
    assert_eq!(board.flag_cell(2, 1), 1);
    board.clear_cell(0, 0);
    assert_eq!(states(&board), vec![vec![C, C, F, I, I], vec![C, C, F, I, I]]);
    assert_eq!(board.flag_cell(2, 1), -1);
    board.clear_cell(1, 1);
    assert_eq!(states(&board), vec![vec![C, C, F, I, I], vec![C, C, I, I, I]]);
    board.clear_cell(2, 1);
    assert_eq!(states(&board), vec![vec![C, C, F, C, C], vec![C, C, C, C, C]]);
}

#[test]
fn clearing_before_the_count_spreads_everywhere() {
    // Before `init` every cell without a mine shows zero, so nothing stops
    // the spread but the mines themselves, which are cleared and spread no
    // further.
    let mut board = board_of(&["..*", "..."]);
    board.clear_cell(0, 0);
    assert_eq!(states(&board), vec![vec![C, C, C], vec![C, C, C]]);
}

#[test]
fn clearing_a_large_empty_board() {
    let mut board = LogicBoard::new_random(200, 200, 0).unwrap();
    board.init();
    board.clear_cell(100, 100);
    for row in board.get_board_rows() {
        for cell in row {
            assert_eq!(cell.state, CellState::Cleared);
        }
    }
}

#[test]
fn clearing_never_uncovers_a_mine_it_did_not_start_at() {
    for _ in 0..20 {
        let mut board = LogicBoard::new_random(12, 12, 20).unwrap();
        board.init();
        let before = board.get_board_rows();
        let mut start = None;
        for y in 0..12 {
            for x in 0..12 {
                if start.is_none() && before[y][x].value != CellValue::Mine {
                    start = Some((x, y));
                }
            }
        }
        let (x, y) = start.unwrap();
        board.clear_cell(x, y);
        for row in board.get_board_rows() {
            for cell in row {
                if cell.value == CellValue::Mine {
                    assert_eq!(cell.state, CellState::Idle);
                }
            }
        }
    }
}

#[test]
fn neighbours_in_the_middle_at_an_edge_and_in_a_corner() {
    let board = board_of(&["...", "...", "..."]);
    assert_eq!(
        sorted(board.get_proximity_cells(1, 1)),
        vec![(0, 0), (0, 1), (0, 2), (1, 0), (1, 2), (2, 0), (2, 1), (2, 2)]
    );
    assert_eq!(sorted(board.get_proximity_cells(0, 0)), vec![(0, 1), (1, 0), (1, 1)]);
    assert_eq!(sorted(board.get_proximity_cells(2, 2)), vec![(1, 1), (1, 2), (2, 1)]);
    assert_eq!(
        sorted(board.get_proximity_cells(1, 0)),
        vec![(0, 0), (0, 1), (1, 1), (2, 0), (2, 1)]
    );
    assert_eq!(
        sorted(board.get_proximity_cells(0, 1)),
        vec![(0, 0), (0, 2), (1, 0), (1, 1), (1, 2)]
    );
}

#[test]
fn neighbours_of_a_position_off_the_board() {
    let board = board_of(&["...", "...", "..."]);
    assert_eq!(sorted(board.get_proximity_cells(3, 1)), vec![(2, 0), (2, 1), (2, 2)]);
    assert_eq!(sorted(board.get_proximity_cells(3, 3)), vec![(2, 2)]);
    assert_eq!(sorted(board.get_proximity_cells(4, 1)), vec![]);
    assert_eq!(sorted(board.get_proximity_cells(usize::MAX, usize::MAX)), vec![]);
    assert_eq!(sorted(board.get_proximity_cells(usize::MAX, 0)), vec![]);
}

#[test]
fn neighbours_on_a_narrow_board() {
    let board = board_of(&["."]);
    assert_eq!(board.get_proximity_cells(0, 0), vec![]);
    let board = board_of(&[".", ".", "."]);
    assert_eq!(sorted(board.get_proximity_cells(0, 1)), vec![(0, 0), (0, 2)]);
    let board = board_of(&["..."]);
    assert_eq!(sorted(board.get_proximity_cells(1, 0)), vec![(0, 0), (2, 0)]);
}

#[test]
fn neighbours_come_row_by_row() {
    let board = board_of(&["...", "...", "..."]);
    assert_eq!(
        board.get_proximity_cells(1, 1),
        vec![(0, 0), (1, 0), (2, 0), (0, 1), (2, 1), (0, 2), (1, 2), (2, 2)]
    );
}

#[test]
fn rows_are_a_copy() {
    let mut board = board_of(&["*.", ".."]);
    let mut rows = board.get_board_rows();
    rows[0][0].state = CellState::Cleared;
    assert_eq!(board.get_board_rows()[0][0].state, CellState::Idle);
    assert_eq!(board.flag_cell(0, 0), 1);
    assert_eq!(rows[0][0].state, CellState::Cleared);
}
