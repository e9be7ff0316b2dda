//! The textual form of a grid: 81 ASCII digits in row-major order, `'0'` for an empty
//! cell.

use vstd::prelude::*;
use crate::grid::{consistent, is_grid, same_house};

verus! {

/// The character is one of `'0'` to `'9'`.
pub open spec fn is_digit(c: char) -> bool {
    '0' <= c && c <= '9'
}

/// The value of a digit character.
pub open spec fn digit_of(c: char) -> u16 {
    (c as int - '0' as int) as u16
}

/// The character that stands for a cell value.
pub open spec fn char_of(d: u16) -> char {
    (d as int + '0' as int) as char
}

/// The text has 81 characters, all of them digits.
pub open spec fn is_board_text(s: Seq<char>) -> bool {
    &&& s.len() == 81
    &&& forall|i: int| 0 <= i < 81 ==> is_digit(#[trigger] s[i])
}

/// The cell values that a text spells out, character by character.
pub open spec fn text_grid(s: Seq<char>) -> Seq<u16> {
    Seq::new(s.len(), |i: int| digit_of(s[i]))
}

/// The text that spells out a grid, cell by cell.
pub open spec fn grid_text(g: Seq<u16>) -> Seq<char> {
    Seq::new(g.len(), |i: int| char_of(g[i]))
}

/// The text describes a board: it is 81 digits long and no digit other than `'0'`
/// occurs twice in a row, a column or a block.
pub open spec fn parses(s: Seq<char>) -> bool {
    is_board_text(s) && consistent(text_grid(s))
}

/// Reading a board text and writing the grid out again gives the text back.
pub proof fn lemma_text_round_trip(s: Seq<char>)
    requires
        is_board_text(s),
    ensures
        is_grid(text_grid(s)),
        grid_text(text_grid(s)) == s,
{
    assert forall|i: int| 0 <= i < 81 implies #[trigger] text_grid(s)[i] <= 9 && char_of(
        text_grid(s)[i],
    ) == s[i] by {
        assert(is_digit(s[i]));
    }
    assert(grid_text(text_grid(s)) =~= s);
}

/// Writing a grid out and reading the text back gives the grid: the text of a grid is
/// a board text, and the text of a consistent grid describes a board.
pub proof fn lemma_grid_round_trip(g: Seq<u16>)
    requires
        is_grid(g),
    ensures
        is_board_text(grid_text(g)),
        text_grid(grid_text(g)) == g,
        consistent(g) ==> parses(grid_text(g)),
{
    assert forall|i: int| 0 <= i < 81 implies is_digit(#[trigger] grid_text(g)[i]) && digit_of(
        grid_text(g)[i],
    ) == g[i] by {
        assert(g[i] <= 9);
    }
    assert(text_grid(grid_text(g)) =~= g);
}

/// Two cells that share a row, a column or a block spell the same digit other than
/// `'0'`.
pub open spec fn repeats_digit(s: Seq<char>) -> bool {
    exists|p: int, q: int|
        0 <= p < 81 && 0 <= q < 81 && p != q && same_house(p, q) && #[trigger] s[p] != '0' && s[p]
            == #[trigger] s[q]
}

/// The texts that describe a board are the texts of 81 digits that repeat no digit
/// within a row, a column or a block. Every other text is rejected: one that is not 81
/// characters long, one that holds a character that is no digit, one that repeats a
/// digit.
pub proof fn lemma_parses_exactly(s: Seq<char>)
    ensures
        parses(s) <==> is_board_text(s) && !repeats_digit(s),
{
    let g = text_grid(s);
    if is_board_text(s) {
        lemma_text_round_trip(s);
        if repeats_digit(s) {
            let (p, q) = choose|p: int, q: int|
                0 <= p < 81 && 0 <= q < 81 && p != q && same_house(p, q) && #[trigger] s[p] != '0'
                    && s[p] == #[trigger] s[q];
            assert(is_digit(s[p]));
            assert(g[p] == g[q]);
            assert(g[p] != 0);
        } else {
            assert forall|p: int, q: int|
                0 <= p < 81 && 0 <= q < 81 && p != q && same_house(p, q) && #[trigger] g[p] != 0
                implies g[p] != #[trigger] g[q] by {
                assert(is_digit(s[p]) && is_digit(s[q]));
                if g[p] == g[q] {
                    assert(s[p] == s[q]);
                }
            }
        }
    }
}

/// A text that spells the same digit other than `'0'` twice in one row is rejected.
pub proof fn lemma_repeated_in_row_rejected(s: Seq<char>, p: int, q: int)
    requires
        0 <= p < 81,
        0 <= q < 81,
        p != q,
        p / 9 == q / 9,
        s[p] != '0',
        s[p] == s[q],
    ensures
        !parses(s),
{
    assert(same_house(p, q));
    lemma_parses_exactly(s);
}

} // verus!
