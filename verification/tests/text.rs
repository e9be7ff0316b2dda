use std::str::FromStr;
use sudoku::{solve, Board, BoardConversionError};

const VALID: [&str; 4] = [
    "000000000000000000000000000000000000000000000000000000000000000000000000000000000",
    "500063017001008050690000400000057304032010800000206100008001702973080000206004090",
    "584963217321748956697125483169857324732419865845236179458691732973582641216374598",
    "123456789000000000000000000000000000000000000000000000000000000000000000000000001",
];

#[test]
fn text_survives_reading_and_writing() {
    for text in &VALID {
        let board = Board::from_str(text).unwrap();
        assert_eq!(String::from(board), *text);
        assert_eq!(board.to_string(), *text);
    }
}

#[test]
fn written_board_reads_back_equal() {
    for text in &VALID {
        let board = Board::from_str(text).unwrap();
        assert_eq!(Board::from_str(&String::from(board)), Ok(board));
    }
}

#[test]
fn solved_board_reads_back_equal() {
    for text in &VALID {
        let solved = solve(Board::from_str(text).unwrap(), 0).unwrap();
        let written = String::from(solved);
        assert!(!written.contains('0'));
        assert_eq!(Board::from_str(&written), Ok(solved));
    }
}

#[test]
fn wrong_length_is_rejected() {
    let eighty = "0".repeat(80);
    let eighty_two = "0".repeat(82);
    assert_eq!(Board::from_str(""), Err(BoardConversionError));
    assert_eq!(Board::from_str(&eighty), Err(BoardConversionError));
    assert_eq!(Board::from_str(&eighty_two), Err(BoardConversionError));
}

#[test]
fn character_that_is_no_digit_is_rejected() {
    for bad in ["a", " ", "/", ":", ".", "-"] {
        for at in [0, 40, 80] {
            let text = format!("{}{}{}", "0".repeat(at), bad, "0".repeat(80 - at));
            assert_eq!(text.len(), 81);
            assert_eq!(Board::from_str(&text), Err(BoardConversionError));
        }
    }
}

#[test]
fn digit_outside_ascii_is_rejected() {
    // 81 characters, the first an Arabic-Indic digit one
    let text = format!("\u{661}{}", "0".repeat(80));
    assert_eq!(text.chars().count(), 81);
    assert_eq!(Board::from_str(&text), Err(BoardConversionError));
    // 81 bytes, with a character of two bytes
    let text = format!("\u{e9}{}", "0".repeat(79));
    assert_eq!(text.len(), 81);
    assert_eq!(Board::from_str(&text), Err(BoardConversionError));
}

#[test]
fn repeated_digit_in_a_row_is_rejected() {
    let text = format!("{}7{}7{}", "0".repeat(27), "0".repeat(7), "0".repeat(45));
    assert_eq!(text.len(), 81);
    assert_eq!(Board::from_str(&text), Err(BoardConversionError));
}

#[test]
fn repeated_digit_in_a_column_is_rejected() {
    let text = format!("{}7{}7{}", "0".repeat(4), "0".repeat(71), "0".repeat(4));
    assert_eq!(text.len(), 81);
    assert_eq!(Board::from_str(&text), Err(BoardConversionError));
}

#[test]
fn repeated_digit_in_a_block_is_rejected() {
    // cells 60 and 80: last block, different rows and columns
    let text = format!("{}7{}7", "0".repeat(60), "0".repeat(19));
    assert_eq!(text.len(), 81);
    assert_eq!(Board::from_str(&text), Err(BoardConversionError));
}

#[test]
fn same_digit_in_unrelated_cells_is_accepted() {
    // cells 0 and 40 share no row, column or block
    let text = format!("7{}7{}", "0".repeat(39), "0".repeat(40));
    assert_eq!(text.len(), 81);
    assert!(Board::from_str(&text).is_ok());
}

#[test]
fn boards_compare_by_their_cells() {
    let empty = Board::from_str(VALID[0]).unwrap();
    let built = empty.set(0, 1).set(1, 2).set(2, 3).set(3, 4).set(4, 5);
    let built = built.set(5, 6).set(6, 7).set(7, 8).set(8, 9).set(80, 1);
    assert_eq!(built, Board::from_str(VALID[3]).unwrap());
    assert_ne!(built, empty);
}

#[test]
fn error_message() {
    assert_eq!(BoardConversionError.to_string(), "Invalid board format");
}
