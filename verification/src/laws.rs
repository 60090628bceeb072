//! What holds of the rule on every grid: facts about `next_generation`,
//! which is what a tick replaces the cells by.

use crate::life::{
    all_dead, cell_index, lemma_cell_index, lemma_index_cell, live_neighbors, next_generation,
    wrap_next, wrap_prev,
};
use vstd::prelude::*;

verus! {

/// Whether (`row`, `col`) has its index inside a grid of `w` by `h` cells and
/// is given back by that index.
pub open spec fn indexed(w: int, h: int, row: int, col: int) -> bool {
    &&& 0 <= cell_index(w, row, col) < w * h
    &&& cell_index(w, row, col) / w == row
    &&& cell_index(w, row, col) % w == col
}

/// The eight positions around a cell of the grid, and the cell itself, are
/// cells of the grid.
pub proof fn lemma_neighborhood(w: int, h: int, row: int, col: int)
    requires
        0 <= row < h,
        0 <= col < w,
    ensures
        indexed(w, h, wrap_prev(row, h), wrap_prev(col, w)),
        indexed(w, h, wrap_prev(row, h), col),
        indexed(w, h, wrap_prev(row, h), wrap_next(col, w)),
        indexed(w, h, row, wrap_prev(col, w)),
        indexed(w, h, row, col),
        indexed(w, h, row, wrap_next(col, w)),
        indexed(w, h, wrap_next(row, h), wrap_prev(col, w)),
        indexed(w, h, wrap_next(row, h), col),
        indexed(w, h, wrap_next(row, h), wrap_next(col, w)),
{
    let north = wrap_prev(row, h);
    let south = wrap_next(row, h);
    let west = wrap_prev(col, w);
    let east = wrap_next(col, w);
    lemma_cell_index(w, h, north, west);
    lemma_cell_index(w, h, north, col);
    lemma_cell_index(w, h, north, east);
    lemma_cell_index(w, h, row, west);
    lemma_cell_index(w, h, row, col);
    lemma_cell_index(w, h, row, east);
    lemma_cell_index(w, h, south, west);
    lemma_cell_index(w, h, south, col);
    lemma_cell_index(w, h, south, east);
}

/// No spontaneous life: the generation after a grid without a live cell has
/// no live cell.
pub proof fn lemma_dead_stays_dead(w: int, h: int)
    requires
        0 <= w,
        0 <= h,
    ensures
        next_generation(all_dead(w * h), w, h) == all_dead(w * h),
{
    let cells = all_dead(w * h);
    assert(0 <= w * h) by (nonlinear_arith)
        requires
            0 <= w,
            0 <= h,
    ;
    let next = next_generation(cells, w, h);
    assert forall|i: int| 0 <= i < w * h implies !next[i] by {
        lemma_index_cell(w, h, i);
        lemma_neighborhood(w, h, i / w, i % w);
        assert(live_neighbors(cells, w, h, i / w, i % w) == 0);
    }
    assert(next =~= cells);
}

/// Underpopulation: a live cell none of whose neighbours is alive is dead in
/// the next generation.
pub proof fn lemma_lonely_cell_dies(cells: Seq<bool>, w: int, h: int, row: int, col: int)
    requires
        cells.len() == w * h,
        0 <= row < h,
        0 <= col < w,
        cells[cell_index(w, row, col)],
        live_neighbors(cells, w, h, row, col) == 0,
    ensures
        !next_generation(cells, w, h)[cell_index(w, row, col)],
{
    lemma_cell_index(w, h, row, col);
}

/// Whether (`r`, `c`) belongs to the block of two by two cells whose upper
/// left cell is (`row`, `col`); the block runs on across an edge.
pub open spec fn in_block(w: int, h: int, row: int, col: int, r: int, c: int) -> bool {
    (r == row || r == wrap_next(row, h)) && (c == col || c == wrap_next(col, w))
}

/// The grid whose only live cells are the block at (`row`, `col`).
pub open spec fn block(w: int, h: int, row: int, col: int) -> Seq<bool> {
    Seq::new((w * h) as nat, |i: int| in_block(w, h, row, col, i / w, i % w))
}

/// The block is a still life: on a grid of at least three rows and three
/// columns it is its own next generation, wherever it stands, also across
/// an edge.
pub proof fn lemma_block_is_still(w: int, h: int, row: int, col: int)
    requires
        3 <= w,
        3 <= h,
        0 <= row < h,
        0 <= col < w,
    ensures
        next_generation(block(w, h, row, col), w, h) == block(w, h, row, col),
{
    let cells = block(w, h, row, col);
    assert(0 <= w * h) by (nonlinear_arith)
        requires
            0 <= w,
            0 <= h,
    ;
    let next = next_generation(cells, w, h);
    assert forall|i: int| 0 <= i < w * h implies next[i] == cells[i] by {
        lemma_index_cell(w, h, i);
        lemma_neighborhood(w, h, i / w, i % w);
    }
    assert(next =~= cells);
}

/// Whether (`r`, `c`) is one of the three cells in row `row` around column
/// `col`.
pub open spec fn in_row_blinker(w: int, row: int, col: int, r: int, c: int) -> bool {
    r == row && (c == wrap_prev(col, w) || c == col || c == wrap_next(col, w))
}

/// Whether (`r`, `c`) is one of the three cells in column `col` around row
/// `row`.
pub open spec fn in_column_blinker(h: int, row: int, col: int, r: int, c: int) -> bool {
    c == col && (r == wrap_prev(row, h) || r == row || r == wrap_next(row, h))
}

/// The grid whose only live cells are three in a row, centred at
/// (`row`, `col`).
pub open spec fn row_blinker(w: int, h: int, row: int, col: int) -> Seq<bool> {
    Seq::new((w * h) as nat, |i: int| in_row_blinker(w, row, col, i / w, i % w))
}

/// The grid whose only live cells are three in a column, centred at
/// (`row`, `col`).
pub open spec fn column_blinker(w: int, h: int, row: int, col: int) -> Seq<bool> {
    Seq::new((w * h) as nat, |i: int| in_column_blinker(h, row, col, i / w, i % w))
}

/// On a grid of at least five rows and five columns, three live cells in a
/// row turn into three in a column about the same centre.
pub proof fn lemma_row_blinker_turns(w: int, h: int, row: int, col: int)
    requires
        5 <= w,
        5 <= h,
        0 <= row < h,
        0 <= col < w,
    ensures
        next_generation(row_blinker(w, h, row, col), w, h) == column_blinker(w, h, row, col),
{
    let cells = row_blinker(w, h, row, col);
    let turned = column_blinker(w, h, row, col);
    assert(0 <= w * h) by (nonlinear_arith)
        requires
            0 <= w,
            0 <= h,
    ;
    let next = next_generation(cells, w, h);
    assert forall|i: int| 0 <= i < w * h implies next[i] == turned[i] by {
        lemma_index_cell(w, h, i);
        lemma_neighborhood(w, h, i / w, i % w);
    }
    assert(next =~= turned);
}

/// On a grid of at least five rows and five columns, three live cells in a
/// column turn into three in a row about the same centre.
pub proof fn lemma_column_blinker_turns(w: int, h: int, row: int, col: int)
    requires
        5 <= w,
        5 <= h,
        0 <= row < h,
        0 <= col < w,
    ensures
        next_generation(column_blinker(w, h, row, col), w, h) == row_blinker(w, h, row, col),
{
    let cells = column_blinker(w, h, row, col);
    let turned = row_blinker(w, h, row, col);
    assert(0 <= w * h) by (nonlinear_arith)
        requires
            0 <= w,
            0 <= h,
    ;
    let next = next_generation(cells, w, h);
    assert forall|i: int| 0 <= i < w * h implies next[i] == turned[i] by {
        lemma_index_cell(w, h, i);
        lemma_neighborhood(w, h, i / w, i % w);
    }
    assert(next =~= turned);
}

/// The blinker has period two: the second generation after three live cells
/// in a row is those three cells again.
pub proof fn lemma_blinker_period_two(w: int, h: int, row: int, col: int)
    requires
        5 <= w,
        5 <= h,
        0 <= row < h,
        0 <= col < w,
    ensures
        next_generation(next_generation(row_blinker(w, h, row, col), w, h), w, h) == row_blinker(
            w,
            h,
            row,
            col,
        ),
{
    lemma_row_blinker_turns(w, h, row, col);
    lemma_column_blinker_turns(w, h, row, col);
}

} // verus!
