//! The mathematical model of a Sudoku grid: 81 cells in row-major order, each holding
//! a digit 1–9 or 0 for "empty", together with the houses (rows, columns, blocks) that
//! constrain them.

use vstd::prelude::*;

verus! {

/// The three kinds of house in which a digit may occur at most once.
pub enum House {
    Row,
    Column,
    Block,
}

/// Index (0–8) of the house of the given kind that contains cell `pos`.
pub open spec fn house_of(kind: House, pos: int) -> int {
    match kind {
        House::Row => pos / 9,
        House::Column => pos % 9,
        House::Block => (pos / 9) / 3 * 3 + (pos % 9) / 3,
    }
}

/// Two positions see each other when they share a row, a column or a block.
/// Every position sees itself.
pub open spec fn same_house(p: int, q: int) -> bool {
    ||| house_of(House::Row, p) == house_of(House::Row, q)
    ||| house_of(House::Column, p) == house_of(House::Column, q)
    ||| house_of(House::Block, p) == house_of(House::Block, q)
}

/// A grid has 81 cells, each 0 (empty) or a digit 1–9.
pub open spec fn is_grid(g: Seq<u16>) -> bool {
    &&& g.len() == 81
    &&& forall|i: int| 0 <= i < 81 ==> #[trigger] g[i] <= 9
}

/// The grid with no digit placed.
pub open spec fn empty_grid() -> Seq<u16> {
    Seq::new(81, |i: int| 0u16)
}

/// A grid is consistent when no digit occurs twice in any row, column or block.
pub open spec fn consistent(g: Seq<u16>) -> bool {
    &&& is_grid(g)
    &&& forall|p: int, q: int|
        0 <= p < 81 && 0 <= q < 81 && p != q && same_house(p, q) && #[trigger] g[p] != 0
            ==> g[p] != #[trigger] g[q]
}

/// Digit `d` occurs nowhere in the row, column or block of `pos`.
pub open spec fn placeable(g: Seq<u16>, pos: int, d: u16) -> bool {
    forall|q: int| 0 <= q < 81 && same_house(pos, q) ==> #[trigger] g[q] != d
}

/// Some cell of house `u` of the given kind holds digit `d`.
pub open spec fn house_holds(g: Seq<u16>, kind: House, u: int, d: u16) -> bool {
    exists|q: int| 0 <= q < 81 && house_of(kind, q) == u && #[trigger] g[q] == d
}

/// Every cell lies in a house 0–8 of each kind.
pub proof fn lemma_house_in_range(kind: House, pos: int)
    requires
        0 <= pos < 81,
    ensures
        0 <= house_of(kind, pos) < 9,
{
}

/// A digit held by one of the houses of `pos` cannot be placed at `pos`.
pub proof fn lemma_held_not_placeable(g: Seq<u16>, kind: House, pos: int, d: u16)
    requires
        0 <= pos < 81,
        house_holds(g, kind, house_of(kind, pos), d),
    ensures
        !placeable(g, pos, d),
{
    let q = choose|q: int| 0 <= q < 81 && house_of(kind, q) == house_of(kind, pos) && g[q] == d;
    assert(same_house(pos, q));
}

/// A digit held by none of the three houses of `pos` can be placed at `pos`.
pub proof fn lemma_free_is_placeable(g: Seq<u16>, pos: int, d: u16)
    requires
        0 <= pos < 81,
        !house_holds(g, House::Row, house_of(House::Row, pos), d),
        !house_holds(g, House::Column, house_of(House::Column, pos), d),
        !house_holds(g, House::Block, house_of(House::Block, pos), d),
    ensures
        placeable(g, pos, d),
{
}

/// Writing a placeable digit into an empty cell keeps the grid consistent.
pub proof fn lemma_place_consistent(g: Seq<u16>, pos: int, d: u16)
    requires
        consistent(g),
        0 <= pos < 81,
        1 <= d <= 9,
        g[pos] == 0,
        placeable(g, pos, d),
    ensures
        consistent(g.update(pos, d)),
{
    let h = g.update(pos, d);
    assert forall|p: int, q: int|
        0 <= p < 81 && 0 <= q < 81 && p != q && same_house(p, q) && #[trigger] h[p] != 0
        implies h[p] != #[trigger] h[q] by {
        if p == pos {
            assert(g[q] != d);
        } else if q == pos {
            assert(same_house(pos, p));
            assert(g[p] != d);
        } else {
            assert(g[p] != g[q]);
        }
    }
}

/// After digit `d` is written into the empty cell `pos`, a house holds a digit exactly
/// when it held it before or it is the house of `pos` and the digit is `d`.
pub proof fn lemma_place_holds(g: Seq<u16>, kind: House, pos: int, d: u16, u: int, e: u16)
    requires
        g.len() == 81,
        0 <= pos < 81,
        g[pos] == 0,
        e != 0,
    ensures
        house_holds(g.update(pos, d), kind, u, e) <==> (u == house_of(kind, pos) && e == d)
            || house_holds(g, kind, u, e),
{
    let h = g.update(pos, d);
    if house_holds(h, kind, u, e) {
        let q = choose|q: int| 0 <= q < 81 && house_of(kind, q) == u && h[q] == e;
        if q != pos {
            assert(g[q] == e);
        }
    }
    if u == house_of(kind, pos) && e == d {
        assert(h[pos] == e);
    }
    if house_holds(g, kind, u, e) {
        let q = choose|q: int| 0 <= q < 81 && house_of(kind, q) == u && g[q] == e;
        assert(h[q] == e);
    }
}

} // verus!
