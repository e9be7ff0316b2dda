//! The board: a grid together with one bitset per row, column and block that records
//! which digits the house already holds, so that a placement is checked in constant time.

use vstd::prelude::*;
use vstd::std_specs::cmp::PartialEqSpecImpl;
use vstd::utf8::{is_ascii_chars, is_ascii_chars_encode_utf8};
use crate::grid::{
    consistent, empty_grid, house_holds, house_of, lemma_free_is_placeable,
    lemma_held_not_placeable, lemma_house_in_range, lemma_place_consistent, lemma_place_holds,
    placeable, same_house, House,
};
use crate::text::{
    digit_of, grid_text, is_board_text, is_digit, lemma_grid_round_trip, lemma_text_round_trip,
    parses, text_grid,
};

verus! {

/// The error of a text that describes no board: it is not 81 characters long, holds a
/// character that is no ASCII digit, or repeats a digit within a row, column or block.
#[derive(Debug, PartialEq, Eq, Structural)]
pub struct BoardConversionError;

impl BoardConversionError {
    /// The message of the error.
    pub fn to_string(&self) -> (message: String)
        ensures
            message@ == "Invalid board format"@,
    {
        "Invalid board format".to_owned()
    }
}

/// A partially or fully filled grid with its constraint state.
#[derive(Copy, Clone, Debug)]
pub struct Board {
    /// For each row, the digits that it holds: bit `d` stands for digit `d`.
    rows: [u16; 9],
    /// For each column, the digits that it holds.
    columns: [u16; 9],
    /// For each block, the digits that it holds.
    blocks: [u16; 9],
    /// The cells in row-major order, 0 for an empty cell.
    cells: [u16; 81],
}

impl View for Board {
    type V = Seq<u16>;

    /// The 81 cells in row-major order, 0 for an empty cell.
    closed spec fn view(&self) -> Seq<u16> {
        self.cells@
    }
}

/// Digit `d` is marked in the bitset `mask`.
spec fn marked(mask: u16, d: u16) -> bool {
    mask & (1u16 << d) != 0
}

/// The nine bitsets of one kind of house mark exactly the digits placed in each house.
spec fn masks_track(masks: Seq<u16>, g: Seq<u16>, kind: House) -> bool {
    &&& masks.len() == 9
    &&& forall|u: int, d: u16|
        0 <= u < 9 && d < 16 ==> (#[trigger] marked(masks[u], d) <==> d != 0 && house_holds(
            g,
            kind,
            u,
            d,
        ))
}

/// Marking `a` in a bitset marks `a` and leaves every other mark as it was.
proof fn lemma_mark_added(mask: u16, a: u16, d: u16)
    by (bit_vector)
    requires
        a < 16,
        d < 16,
    ensures
        ((mask | (1u16 << a)) & (1u16 << d) != 0) == (a == d || (mask & (1u16 << d)) != 0),
{
}

/// The zero bitset marks nothing.
proof fn lemma_no_marks(d: u16)
    by (bit_vector)
    requires
        d < 16,
    ensures
        0u16 & (1u16 << d) == 0,
{
}

/// Two bitsets with the same marks are the same bitset.
proof fn lemma_same_marks(a: u16, b: u16)
    requires
        forall|d: u16| d < 16 ==> (#[trigger] marked(a, d) <==> marked(b, d)),
    ensures
        a == b,
{
    assert(a == b) by (bit_vector)
        requires
            marked(a, 0) == marked(b, 0),
            marked(a, 1) == marked(b, 1),
            marked(a, 2) == marked(b, 2),
            marked(a, 3) == marked(b, 3),
            marked(a, 4) == marked(b, 4),
            marked(a, 5) == marked(b, 5),
            marked(a, 6) == marked(b, 6),
            marked(a, 7) == marked(b, 7),
            marked(a, 8) == marked(b, 8),
            marked(a, 9) == marked(b, 9),
            marked(a, 10) == marked(b, 10),
            marked(a, 11) == marked(b, 11),
            marked(a, 12) == marked(b, 12),
            marked(a, 13) == marked(b, 13),
            marked(a, 14) == marked(b, 14),
            marked(a, 15) == marked(b, 15),
    ;
}

/// Bitsets that track the same grid are the same.
proof fn lemma_masks_determined(a: Seq<u16>, b: Seq<u16>, g: Seq<u16>, kind: House)
    requires
        masks_track(a, g, kind),
        masks_track(b, g, kind),
    ensures
        a == b,
{
    assert forall|u: int| 0 <= u < 9 implies a[u] == b[u] by {
        assert forall|d: u16| d < 16 implies (#[trigger] marked(a[u], d) <==> marked(b[u], d)) by {
            assert(marked(a[u], d) <==> d != 0 && house_holds(g, kind, u, d));
            assert(marked(b[u], d) <==> d != 0 && house_holds(g, kind, u, d));
        }
        lemma_same_marks(a[u], b[u]);
    }
    assert(a =~= b);
}

/// Marking `d` in the bitset of the house of the empty cell `pos` keeps the bitsets in
/// step with the grid in which `d` is written at `pos`.
proof fn lemma_mark_tracks(masks: Seq<u16>, g: Seq<u16>, kind: House, pos: int, d: u16)
    requires
        masks_track(masks, g, kind),
        g.len() == 81,
        0 <= pos < 81,
        g[pos] == 0,
        1 <= d <= 9,
    ensures
        masks_track(
            masks.update(house_of(kind, pos), masks[house_of(kind, pos)] | (1u16 << d)),
            g.update(pos, d),
            kind,
        ),
{
    let h = house_of(kind, pos);
    lemma_house_in_range(kind, pos);
    let after = masks.update(h, masks[h] | (1u16 << d));
    assert forall|u: int, e: u16| 0 <= u < 9 && e < 16 implies (#[trigger] marked(after[u], e)
        <==> e != 0 && house_holds(g.update(pos, d), kind, u, e)) by {
        assert(marked(masks[u], e) <==> e != 0 && house_holds(g, kind, u, e));
        if u == h {
            lemma_mark_added(masks[h], d, e);
        }
        if e != 0 {
            lemma_place_holds(g, kind, pos, d, u, e);
        }
    }
}

/// The grid spelt out by the first `n` characters of a text, the other cells empty.
spec fn prefix_grid(s: Seq<char>, n: int) -> Seq<u16> {
    Seq::new(
        81,
        |k: int|
            if k < n {
                digit_of(s[k])
            } else {
                0u16
            },
    )
}

impl Board {
    /// The invariant of every board: the cells form a consistent grid, and the bitset
    /// of each row, column and block marks exactly the digits that its cells hold.
    #[verifier::type_invariant]
    pub closed spec fn wf(&self) -> bool {
        &&& consistent(self.cells@)
        &&& masks_track(self.rows@, self.cells@, House::Row)
        &&& masks_track(self.columns@, self.cells@, House::Column)
        &&& masks_track(self.blocks@, self.cells@, House::Block)
    }

    /// The cells of a board form a consistent grid.
    pub proof fn lemma_consistent(self)
        requires
            self.wf(),
        ensures
            consistent(self@),
    {
    }

    /// The bitsets are derived from the cells: two boards with the same cells are the
    /// same in every field, so that comparing the cells compares the boards.
    pub proof fn lemma_cells_determine_board(self, other: Board)
        requires
            self.wf(),
            other.wf(),
            self@ == other@,
        ensures
            self == other,
    {
        lemma_masks_determined(self.rows@, other.rows@, self.cells@, House::Row);
        lemma_masks_determined(self.columns@, other.columns@, self.cells@, House::Column);
        lemma_masks_determined(self.blocks@, other.blocks@, self.cells@, House::Block);
        assert(self.rows =~= other.rows);
        assert(self.columns =~= other.columns);
        assert(self.blocks =~= other.blocks);
        assert(self.cells =~= other.cells);
    }

    /// The board with no digit placed.
    fn empty() -> (b: Board)
        ensures
            b@ == empty_grid(),
    {
        let masks: [u16; 9] = [0; 9];
        let cells: [u16; 81] = [0; 81];
        proof {
            assert(cells@ =~= empty_grid());
            assert forall|u: int, d: u16| 0 <= u < 9 && d < 16 implies !#[trigger] marked(
                masks@[u],
                d,
            ) by {
                lemma_no_marks(d);
            }
        }
        Board { rows: masks, columns: masks, blocks: masks, cells }
    }

    /// The text of the board: 81 digits in row-major order, `'0'` for an empty cell.
    /// Read back, the text gives a board with the same cells.
    pub fn to_string(&self) -> (text: String)
        ensures
            text@ == grid_text(self@),
            parses(text@),
            text_grid(text@) == self@,
    {
        String::from(*self)
    }

    /// Whether the cell at `idx` holds a digit.
    pub fn is_occupied(&self, idx: usize) -> (occupied: bool)
        requires
            idx < 81,
        ensures
            occupied == (self@[idx as int] != 0),
    {
        self.cells[idx] != 0
    }

    /// Whether digit `nr` occurs nowhere in the row, column and block of cell `idx`,
    /// so that writing it there breaks no constraint.
    pub fn is_valid(&self, idx: usize, nr: u16) -> (valid: bool)
        requires
            idx < 81,
            1 <= nr <= 9,
        ensures
            valid == placeable(self@, idx as int, nr),
    {
        proof {
            use_type_invariant(self);
        }
        let y: usize = idx / 9;
        let bitvalue: u16 = 1u16 << nr;
        if (self.rows[y] & bitvalue) != 0 {
            proof {
                assert(marked(self.rows@[y as int], nr));
                lemma_held_not_placeable(self.cells@, House::Row, idx as int, nr);
            }
            return false;
        }
        let x: usize = idx % 9;
        if (self.columns[x] & bitvalue) != 0 {
            proof {
                assert(marked(self.columns@[x as int], nr));
                lemma_held_not_placeable(self.cells@, House::Column, idx as int, nr);
            }
            return false;
        }
        let x3: usize = x / 3;
        let y3: usize = y / 3;
        let off: usize = y3 * 3 + x3;
        if (self.blocks[off] & bitvalue) != 0 {
            proof {
                assert(marked(self.blocks@[off as int], nr));
                lemma_held_not_placeable(self.cells@, House::Block, idx as int, nr);
            }
            return false;
        }
        proof {
            assert(!marked(self.rows@[y as int], nr));
            assert(!marked(self.columns@[x as int], nr));
            assert(!marked(self.blocks@[off as int], nr));
            lemma_free_is_placeable(self.cells@, idx as int, nr);
        }
        true
    }

    /// The board with digit `nr` written into the empty cell `idx`. The digit must be
    /// valid there: nothing is checked again.
    pub fn set(&self, idx: usize, nr: u16) -> (next: Board)
        requires
            idx < 81,
            1 <= nr <= 9,
            self@[idx as int] == 0,
            placeable(self@, idx as int, nr),
        ensures
            next@ == self@.update(idx as int, nr),
            next.wf(),
    {
        proof {
            use_type_invariant(self);
        }
        let y: usize = idx / 9;
        let x: usize = idx % 9;
        let x3: usize = x / 3;
        let y3: usize = y / 3;
        let off: usize = y3 * 3 + x3;
        let bitvalue: u16 = 1u16 << nr;

        let mut rows = self.rows;
        let mut columns = self.columns;
        let mut blocks = self.blocks;
        let mut cells = self.cells;
        rows[y] = rows[y] | bitvalue;
        columns[x] = columns[x] | bitvalue;
        blocks[off] = blocks[off] | bitvalue;
        cells[idx] = nr;
        proof {
            lemma_place_consistent(self.cells@, idx as int, nr);
            lemma_mark_tracks(self.rows@, self.cells@, House::Row, idx as int, nr);
            lemma_mark_tracks(self.columns@, self.cells@, House::Column, idx as int, nr);
            lemma_mark_tracks(self.blocks@, self.cells@, House::Block, idx as int, nr);
            assert(rows@ =~= self.rows@.update(y as int, self.rows@[y as int] | (1u16 << nr)));
            assert(columns@ =~= self.columns@.update(
                x as int,
                self.columns@[x as int] | (1u16 << nr),
            ));
            assert(blocks@ =~= self.blocks@.update(
                off as int,
                self.blocks@[off as int] | (1u16 << nr),
            ));
            assert(cells@ =~= self.cells@.update(idx as int, nr));
        }
        let next = Board { rows, columns, blocks, cells };
        proof {
            use_type_invariant(&next);
        }
        next
    }
}

impl PartialEq for Board {
    /// Two boards are equal when their cells hold the same values.
    fn eq(&self, other: &Self) -> (equal: bool) {
        let mut idx: usize = 0;
        while idx < 81
            invariant
                idx <= 81,
                forall|k: int| 0 <= k < idx ==> self.cells@[k] == other.cells@[k],
            decreases 81 - idx,
        {
            if self.cells[idx] != other.cells[idx] {
                return false;
            }
            idx += 1;
        }
        proof {
            assert(self.cells@ =~= other.cells@);
        }
        true
    }
}

impl PartialEqSpecImpl for Board {
    open spec fn obeys_eq_spec() -> bool {
        true
    }

    open spec fn eq_spec(&self, other: &Self) -> bool {
        self@ == other@
    }
}

impl Eq for Board {}

impl std::str::FromStr for Board {
    type Err = BoardConversionError;

    /// Reads a board from its text of 81 digits, `'0'` for an empty cell.
    ///
    /// Fails exactly on the texts that describe no board: those that are not 81
    /// characters long, hold a character that is no ASCII digit, or repeat a digit
    /// within a row, a column or a block. The board that is read holds the digits of
    /// the text, and written out again it gives the text back.
    fn from_str(s: &str) -> (r: Result<Self, Self::Err>)
        ensures
            r is Ok <==> parses(s@),
            r matches Ok(b) ==> b.wf() && b@ == text_grid(s@) && grid_text(b@) == s@,
    {
        let bytes: &[u8] = s.as_bytes();
        if bytes.len() != 81 {
            proof {
                if is_board_text(s@) {
                    is_ascii_chars_encode_utf8(s@);
                }
            }
            return Err(BoardConversionError);
        }
        if !s.is_ascii() {
            return Err(BoardConversionError);
        }
        proof {
            is_ascii_chars_encode_utf8(s@);
        }
        let mut board = Board::empty();
        let mut idx: usize = 0;
        proof {
            assert(board@ =~= prefix_grid(s@, 0));
        }
        while idx < 81
            invariant
                idx <= 81,
                s@.len() == 81,
                bytes@.len() == 81,
                forall|k: int| 0 <= k < 81 ==> s@[k] as u8 == #[trigger] bytes@[k],
                is_ascii_chars(s@),
                forall|k: int| 0 <= k < idx ==> is_digit(#[trigger] s@[k]),
                board@ == prefix_grid(s@, idx as int),
            decreases 81 - idx,
        {
            let c: u8 = bytes[idx];
            if c < '0' as u8 || c > '9' as u8 {
                proof {
                    assert(!is_digit(s@[idx as int]));
                }
                return Err(BoardConversionError);
            }
            let b: u16 = (c - '0' as u8) as u16;
            proof {
                assert(is_digit(s@[idx as int]));
                assert(b == digit_of(s@[idx as int]));
            }
            if b != 0 {
                if board.is_valid(idx, b) {
                    board = board.set(idx, b);
                } else {
                    proof {
                        let g = text_grid(s@);
                        let q = choose|q: int|
                            0 <= q < 81 && same_house(idx as int, q) && board@[q] == b;
                        assert(same_house(q, idx as int));
                        assert(g[q] == g[idx as int]);
                    }
                    return Err(BoardConversionError);
                }
            }
            proof {
                assert(board@ =~= prefix_grid(s@, idx + 1));
            }
            idx += 1;
        }
        proof {
            use_type_invariant(&board);
            assert(board@ =~= text_grid(s@));
            lemma_text_round_trip(s@);
        }
        Ok(board)
    }
}

/// What is assumed of `String::push` of the standard library: afterwards the string
/// holds what it held before, followed by `ch`.
pub assume_specification[ String::push ](s: &mut String, ch: char)
    ensures
        final(s)@ == old(s)@.push(ch),
;

impl From<Board> for String {
    /// The text of the board: 81 digits in row-major order, `'0'` for an empty cell.
    /// Read back, the text gives a board with the same cells.
    fn from(board: Board) -> (text: String)
        ensures
            text@ == grid_text(board@),
            parses(text@),
            text_grid(text@) == board@,
    {
        proof {
            use_type_invariant(&board);
            lemma_grid_round_trip(board.cells@);
        }
        let mut ret = String::new();
        let mut idx: usize = 0;
        while idx < 81
            invariant
                idx <= 81,
                consistent(board.cells@),
                ret@ == grid_text(board.cells@).take(idx as int),
            decreases 81 - idx,
        {
            let digit: u16 = board.cells[idx];
            ret.push(('0' as u8 + digit as u8) as char);
            proof {
                assert(ret@ =~= grid_text(board.cells@).take(idx + 1));
            }
            idx += 1;
        }
        proof {
            assert(ret@ =~= grid_text(board.cells@));
        }
        ret
    }
}

/// A specification cannot build a `String`, so the text of a board is stated on `from`
/// itself and not by `from_spec`.
impl vstd::std_specs::convert::FromSpecImpl<Board> for String {
    open spec fn obeys_from_spec() -> bool {
        false
    }

    open spec fn from_spec(v: Board) -> String {
        arbitrary()
    }
}

} // verus!
