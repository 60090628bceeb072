//! The rule of the game, stated over plain sequences of booleans.
//!
//! A grid of `w` columns and `h` rows is a sequence of `w * h` booleans, row
//! after row. Its edges are joined: the row above the first is the last, the
//! column right of the last is the first.

use vstd::prelude::*;

verus! {

/// The coordinate before `i` on a ring of `n`.
pub open spec fn wrap_prev(i: int, n: int) -> int {
    if i == 0 {
        n - 1
    } else {
        i - 1
    }
}

/// The coordinate after `i` on a ring of `n`.
pub open spec fn wrap_next(i: int, n: int) -> int {
    if i == n - 1 {
        0
    } else {
        i + 1
    }
}

/// Where the cell at (`row`, `col`) stands in a grid of `w` columns.
pub open spec fn cell_index(w: int, row: int, col: int) -> int {
    row * w + col
}

/// 1 if the cell at (`row`, `col`) is alive, else 0.
pub open spec fn alive_at(cells: Seq<bool>, w: int, row: int, col: int) -> int {
    if cells[cell_index(w, row, col)] {
        1
    } else {
        0
    }
}

/// How many of the eight positions around (`row`, `col`) hold a live cell.
/// On a grid with fewer than three rows or columns some of the eight
/// positions coincide; each position is still counted once.
pub open spec fn live_neighbors(cells: Seq<bool>, w: int, h: int, row: int, col: int) -> int {
    let north = wrap_prev(row, h);
    let south = wrap_next(row, h);
    let west = wrap_prev(col, w);
    let east = wrap_next(col, w);
    alive_at(cells, w, north, west) + alive_at(cells, w, north, col) + alive_at(
        cells,
        w,
        north,
        east,
    ) + alive_at(cells, w, row, west) + alive_at(cells, w, row, east) + alive_at(
        cells,
        w,
        south,
        west,
    ) + alive_at(cells, w, south, col) + alive_at(cells, w, south, east)
}

/// The rule B3/S23: a cell is alive in the next generation exactly when it
/// has three live neighbours, or is alive and has two.
pub open spec fn lives_on(alive: bool, neighbors: int) -> bool {
    neighbors == 3 || (alive && neighbors == 2)
}

/// The generation after `cells`: the rule applied to every cell at once.
pub open spec fn next_generation(cells: Seq<bool>, w: int, h: int) -> Seq<bool> {
    Seq::new(
        cells.len(),
        |i: int| lives_on(cells[i], live_neighbors(cells, w, h, i / w, i % w)),
    )
}

/// A grid of `n` cells, none of them alive.
pub open spec fn all_dead(n: int) -> Seq<bool> {
    Seq::new(n as nat, |i: int| false)
}

/// The pattern that a fresh universe starts from: of `n` cells, those whose
/// index is even or a multiple of seven are alive.
pub open spec fn seed_pattern(n: int) -> Seq<bool> {
    Seq::new(n as nat, |i: int| i % 2 == 0 || i % 7 == 0)
}

/// A cell inside the grid has an index inside the sequence, and the index
/// gives back its row and column.
pub proof fn lemma_cell_index(w: int, h: int, row: int, col: int)
    requires
        0 <= row < h,
        0 <= col < w,
    ensures
        0 <= cell_index(w, row, col) < w * h,
        cell_index(w, row, col) / w == row,
        cell_index(w, row, col) % w == col,
{
    assert(0 <= row * w + col < w * h) by (nonlinear_arith)
        requires
            0 <= row < h,
            0 <= col < w,
    ;
    vstd::arithmetic::div_mod::lemma_fundamental_div_mod_converse(row * w + col, w, row, col);
}

/// An index inside the sequence is that of a cell inside the grid.
pub proof fn lemma_index_cell(w: int, h: int, i: int)
    requires
        0 <= i < w * h,
        0 <= w,
        0 <= h,
    ensures
        0 <= i / w < h,
        0 <= i % w < w,
        cell_index(w, i / w, i % w) == i,
{
    assert(w > 0) by (nonlinear_arith)
        requires
            0 <= i < w * h,
            0 <= w,
    ;
    vstd::arithmetic::div_mod::lemma_fundamental_div_mod(i, w);
    vstd::arithmetic::div_mod::lemma_mod_bound(i, w);
    let q = i / w;
    let r = i % w;
    assert(i == w * q + r);
    assert(0 <= q < h) by (nonlinear_arith)
        requires
            i == w * q + r,
            0 <= r < w,
            0 <= i < w * h,
    ;
    assert(q * w == w * q) by (nonlinear_arith);
}

} // verus!
