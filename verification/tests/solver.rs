use std::str::FromStr;
use sudoku::{solve, Board};

const EMPTY: &str =
    "000000000000000000000000000000000000000000000000000000000000000000000000000000000";
const FIRST_OF_EMPTY: &str =
    "123456789456789123789123456214365897365897214897214365531642978642978531978531642";
const PUZZLE: &str =
    "500063017001008050690000400000057304032010800000206100008001702973080000206004090";
const SOLUTION: &str =
    "584963217321748956697125483169857324732419865845236179458691732973582641216374598";

#[test]
fn empty_board_gives_least_solution() {
    let solved = solve(Board::from_str(EMPTY).unwrap(), 0).unwrap();
    assert_eq!(String::from(solved), FIRST_OF_EMPTY);
}

#[test]
fn open_puzzle_gives_least_of_its_solutions() {
    let top_rows =
        "584963217321748956697125483000000000000000000000000000000000000000000000000000000";
    let solved = solve(Board::from_str(top_rows).unwrap(), 0).unwrap();
    assert_eq!(
        String::from(solved),
        "584963217321748956697125483132456798456879132879231564213584679765392841948617325"
    );

    let bottom_rows =
        "000000000000000000000000000000000000000000000000000000458691732973582641216374598";
    let solved = solve(Board::from_str(bottom_rows).unwrap(), 0).unwrap();
    assert_eq!(
        String::from(solved),
        "124735869365819274789246153531427986642958317897163425458691732973582641216374598"
    );
}

#[test]
fn solution_keeps_the_clues() {
    let puzzle = Board::from_str(PUZZLE).unwrap();
    let solved = String::from(solve(puzzle, 0).unwrap());
    for (given, found) in PUZZLE.chars().zip(solved.chars()) {
        if given != '0' {
            assert_eq!(given, found);
        }
    }
}

#[test]
fn solution_is_full_and_consistent() {
    let solved = solve(Board::from_str(EMPTY).unwrap(), 0).unwrap();
    let cells: Vec<char> = String::from(solved).chars().collect();
    assert_eq!(cells.len(), 81);
    for p in 0..81 {
        assert!(('1'..='9').contains(&cells[p]));
        for q in 0..81 {
            let same_row = p / 9 == q / 9;
            let same_column = p % 9 == q % 9;
            let same_block = p / 27 == q / 27 && (p % 9) / 3 == (q % 9) / 3;
            if p != q && (same_row || same_column || same_block) {
                assert_ne!(cells[p], cells[q]);
            }
        }
    }
}

#[test]
fn cell_without_candidate_gives_none() {
    let stuck =
        "123456780000000009000000000000000000000000000000000000000000000000000000000000000";
    let board = Board::from_str(stuck).unwrap();
    assert!(solve(board, 0).is_none());
}

#[test]
fn search_from_the_end_returns_the_board() {
    let board = Board::from_str(PUZZLE).unwrap();
    assert_eq!(solve(board, 81), Some(board));
}

#[test]
fn search_leaves_earlier_cells_alone() {
    let board = Board::from_str(EMPTY).unwrap();
    assert_eq!(
        String::from(solve(board, 80).unwrap()),
        "000000000000000000000000000000000000000000000000000000000000000000000000000000001"
    );
    assert_eq!(
        String::from(solve(board, 72).unwrap()),
        "000000000000000000000000000000000000000000000000000000000000000000000000123456789"
    );
}

#[test]
fn solved_board_solves_to_itself() {
    let board = Board::from_str(SOLUTION).unwrap();
    assert_eq!(solve(board, 0), Some(board));
}

#[test]
fn placed_digit_blocks_its_row_column_and_block() {
    let board = Board::from_str(EMPTY).unwrap().set(40, 5);
    for idx in 0..81 {
        let same_row = idx / 9 == 4;
        let same_column = idx % 9 == 4;
        let same_block = idx / 27 == 1 && (idx % 9) / 3 == 1;
        assert_eq!(board.is_valid(idx, 5), !(same_row || same_column || same_block));
        assert!(board.is_valid(idx, 6));
        assert_eq!(board.is_occupied(idx), idx == 40);
    }
}

#[test]
fn placing_writes_one_cell() {
    let board = Board::from_str(EMPTY).unwrap();
    let next = board.set(0, 9).set(80, 9).set(10, 1);
    assert_eq!(
        String::from(next),
        "900000000010000000000000000000000000000000000000000000000000000000000000000000009"
    );
    assert_eq!(String::from(board), EMPTY);
}
