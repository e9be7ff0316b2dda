use std::str::FromStr;

use rayon::iter::{IntoParallelRefIterator, ParallelIterator};
use sudoku::{collect_records, split_record, try_solve, Board, Verdict};

const EMPTY: &str =
    "000000000000000000000000000000000000000000000000000000000000000000000000000000000";
const FIRST_OF_EMPTY: &str =
    "123456789456789123789123456214365897365897214897214365531642978642978531978531642";
const PUZZLE: &str =
    "500063017001008050690000400000057304032010800000206100008001702973080000206004090";
const SOLUTION: &str =
    "584963217321748956697125483169857324732419865845236179458691732973582641216374598";
const STUCK: &str =
    "123456780000000009000000000000000000000000000000000000000000000000000000000000000";

fn lines_of(data: &str) -> Vec<String> {
    data.lines().map(String::from).collect()
}

fn pair(puzzle: &str, solution: &str) -> (String, String) {
    (String::from(puzzle), String::from(solution))
}

#[test]
fn test_read_and_solve_with_valid_csv() {
    let csv_data = "puzzle,solution\n000000000000000000000000000000000000000000000000000000000000000000000000000000000,123456789456789123789123456234567891567891234891234567345678912678912345912345678\n";
    let records = collect_records(&lines_of(csv_data));
    assert_eq!(records.len(), 1);
    let verdict = try_solve(&records[0].0, &records[0].1);
    assert_eq!(
        verdict,
        Verdict::Mismatch {
            expected: Board::from_str(&records[0].1).unwrap(),
            found: Board::from_str(FIRST_OF_EMPTY).unwrap(),
        }
    );
}

#[test]
fn test_read_and_solve_with_empty_csv() {
    let csv_data = "puzzle,solution\n";
    assert!(collect_records(&lines_of(csv_data)).is_empty());
}

#[test]
fn test_read_and_solve_with_invalid_lines() {
    let csv_data = "puzzle,solution\ninvalid_line_without_comma\n000000000000000000000000000000000000000000000000000000000000000000000000000000000,123456789456789123789123456234567891567891234891234567345678912678912345912345678\n";
    let records = collect_records(&lines_of(csv_data));
    assert_eq!(
        records,
        vec![pair(
            EMPTY,
            "123456789456789123789123456234567891567891234891234567345678912678912345912345678"
        )]
    );
    assert!(matches!(
        try_solve(&records[0].0, &records[0].1),
        Verdict::Mismatch { .. }
    ));
}

#[test]
fn test_try_solve_with_solution_containing_zeros() {
    let verdict = try_solve("000000000000000000000000000000000000000000000000000000000000000000000000000000000", "000000000000000000000000000000000000000000000000000000000000000000000000000000000");
    assert_eq!(
        verdict,
        Verdict::Mismatch {
            expected: Board::from_str(EMPTY).unwrap(),
            found: Board::from_str(FIRST_OF_EMPTY).unwrap(),
        }
    );
}

#[test]
fn line_with_one_comma_splits_in_two() {
    assert_eq!(split_record("ab,cd"), Some(pair("ab", "cd")));
    assert_eq!(split_record(","), Some(pair("", "")));
    assert_eq!(split_record("ab,"), Some(pair("ab", "")));
    assert_eq!(split_record(",cd"), Some(pair("", "cd")));
    assert_eq!(split_record("\u{fc}b,\u{df}"), Some(pair("\u{fc}b", "\u{df}")));
    let line = format!("{PUZZLE},{SOLUTION}");
    assert_eq!(split_record(&line), Some(pair(PUZZLE, SOLUTION)));
}

#[test]
fn line_without_comma_is_no_record() {
    assert_eq!(split_record(""), None);
    assert_eq!(split_record("ab"), None);
    assert_eq!(split_record(PUZZLE), None);
}

#[test]
fn line_with_more_commas_is_no_record() {
    assert_eq!(split_record("a,b,c"), None);
    assert_eq!(split_record(",,"), None);
    assert_eq!(split_record("a,b,"), None);
}

#[test]
fn header_is_passed_over() {
    let lines = vec![String::from("1,2"), String::from("3,4"), String::from("5,6")];
    assert_eq!(collect_records(&lines), vec![pair("3", "4"), pair("5", "6")]);
    assert!(collect_records(&lines[..1].to_vec()).is_empty());
    assert!(collect_records(&Vec::new()).is_empty());
}

#[test]
fn lines_that_are_no_record_are_left_out() {
    let lines = lines_of("h\n\na,b\nno comma\nc,d,e\n,\ne,f");
    assert_eq!(
        collect_records(&lines),
        vec![pair("a", "b"), pair("", ""), pair("e", "f")]
    );
}

#[test]
fn expected_solution_is_confirmed() {
    assert_eq!(try_solve(PUZZLE, SOLUTION), Verdict::Confirmed);
    assert_eq!(try_solve(EMPTY, FIRST_OF_EMPTY), Verdict::Confirmed);
    assert_eq!(try_solve(SOLUTION, SOLUTION), Verdict::Confirmed);
}

#[test]
fn other_solution_is_a_mismatch() {
    assert_eq!(
        try_solve(EMPTY, SOLUTION),
        Verdict::Mismatch {
            expected: Board::from_str(SOLUTION).unwrap(),
            found: Board::from_str(FIRST_OF_EMPTY).unwrap(),
        }
    );
}

#[test]
fn puzzle_without_solution_is_unsolved() {
    assert_eq!(try_solve(STUCK, SOLUTION), Verdict::Unsolved);
}

#[test]
fn expected_solution_with_empty_cells_is_checked() {
    assert_eq!(
        try_solve(PUZZLE, PUZZLE),
        Verdict::Mismatch {
            expected: Board::from_str(PUZZLE).unwrap(),
            found: Board::from_str(SOLUTION).unwrap(),
        }
    );
    assert_eq!(try_solve(STUCK, EMPTY), Verdict::Unsolved);
    assert_eq!(try_solve(STUCK, STUCK), Verdict::Unsolved);
}

#[test]
fn record_that_cannot_be_checked_is_skipped() {
    // the puzzle is no board
    assert_eq!(try_solve("", SOLUTION), Verdict::Skipped);
    assert_eq!(try_solve(&PUZZLE.replace('5', "x"), SOLUTION), Verdict::Skipped);
    assert_eq!(try_solve(&PUZZLE.replacen('0', "5", 1), SOLUTION), Verdict::Skipped);
    // the expected solution is no board
    assert_eq!(try_solve(PUZZLE, "123"), Verdict::Skipped);
    assert_eq!(try_solve(PUZZLE, &SOLUTION.replace('5', "4")), Verdict::Skipped);
}

#[test]
fn workers_give_the_verdicts_of_a_single_pass() {
    let records = vec![
        pair(PUZZLE, SOLUTION),
        pair(EMPTY, SOLUTION),
        pair(STUCK, SOLUTION),
        pair(PUZZLE, PUZZLE),
        pair(EMPTY, FIRST_OF_EMPTY),
        pair("", ""),
        pair(SOLUTION, SOLUTION),
        pair(STUCK, FIRST_OF_EMPTY),
    ];
    let one_by_one: Vec<Verdict> = records.iter().map(|r| try_solve(&r.0, &r.1)).collect();
    let side_by_side: Vec<Verdict> = records.par_iter().map(|r| try_solve(&r.0, &r.1)).collect();
    assert_eq!(one_by_one, side_by_side);
    assert_eq!(
        one_by_one,
        vec![
            Verdict::Confirmed,
            Verdict::Mismatch {
                expected: Board::from_str(SOLUTION).unwrap(),
                found: Board::from_str(FIRST_OF_EMPTY).unwrap(),
            },
            Verdict::Unsolved,
            Verdict::Mismatch {
                expected: Board::from_str(PUZZLE).unwrap(),
                found: Board::from_str(SOLUTION).unwrap(),
            },
            Verdict::Confirmed,
            Verdict::Skipped,
            Verdict::Confirmed,
            Verdict::Unsolved,
        ]
    );
}
