//! The universe: a torus of cells and the operations that change it.

use crate::bits::{bits_of, block_bit};
use crate::codec::{decode, decode_error, decoded_cells, side_length, DecodeError};
use crate::life::{
    alive_at, all_dead, cell_index, lemma_cell_index, live_neighbors, next_generation,
    seed_pattern,
};
use fixedbitset::FixedBitSet;
use vstd::prelude::*;

verus! {

/// Width and height of a fresh universe.
pub const SIZE: u32 = 64;

/// The state of one cell.
#[derive(Clone, Copy, Debug, PartialEq, Eq)]
pub enum Cell {
    /// Dead cell
    Dead,
    /// Alive cell
    Alive,
}

/// Returned by [`Universe::random`] when it is handed a number of draws other
/// than the number of cells.
#[derive(Clone, Copy, Debug, PartialEq, Eq)]
pub struct DrawCountError {
    /// The number of cells of the universe.
    pub expected: usize,
    /// The number of draws that were supplied.
    pub found: usize,
}

/// A grid of cells whose edges are joined, kept row after row in one bit set.
pub struct Universe {
    /// Width of the universe
    width: u32,
    /// Height of the universe
    height: u32,
    /// One bit per cell; row `n` starts at bit `width * n`
    cells: FixedBitSet,
}

impl View for Universe {
    type V = Seq<bool>;

    /// The cells, row after row; `true` is alive.
    closed spec fn view(&self) -> Seq<bool> {
        bits_of(self.cells)
    }
}

/// Whether some pair of `list` names the cell with index `i` in a grid of `w`
/// columns.
pub open spec fn listed(list: Seq<(u32, u32)>, w: int, i: int) -> bool {
    exists|k: int|
        0 <= k < list.len() && cell_index(w, (#[trigger] list[k]).0 as int, list[k].1 as int) == i
}

impl Universe {
    /// The number of columns.
    pub closed spec fn spec_width(&self) -> u32 {
        self.width
    }

    /// The number of rows.
    pub closed spec fn spec_height(&self) -> u32 {
        self.height
    }

    /// There is one cell for each position, and their number fits in 32 bits.
    pub open spec fn wf(&self) -> bool {
        &&& self@.len() == self.spec_width() * self.spec_height()
        &&& self.spec_width() * self.spec_height() <= u32::MAX
    }

    /// Whether (`row`, `col`) is a position of this universe.
    pub open spec fn in_bounds(&self, row: u32, col: u32) -> bool {
        row < self.spec_height() && col < self.spec_width()
    }

    /// Create a new universe with the default size (64 x 64) and pattern
    pub fn new() -> (u: Universe)
        ensures
            u.wf(),
            u.spec_width() == SIZE,
            u.spec_height() == SIZE,
            u@ == seed_pattern(SIZE * SIZE),
    {
        let width = SIZE;
        let height = SIZE;
        let size: usize = (width as usize) * (height as usize);
        let mut cells = FixedBitSet::with_capacity(size);
        let mut i: usize = 0;
        while i < size
            invariant
                i <= size,
                size == 4096,
                bits_of(cells).len() == size,
                forall|j: int| 0 <= j < i ==> bits_of(cells)[j] == (j % 2 == 0 || j % 7 == 0),
            decreases size - i,
        {
            cells.set(i, i % 2 == 0 || i % 7 == 0);
            i += 1;
        }
        assert(bits_of(cells) =~= seed_pattern(SIZE * SIZE));
        Universe { width, height, cells }
    }

    /// Replaces the cells by dead ones, as many as the dimensions ask for.
    fn reset(&mut self)
        requires
            old(self).spec_width() * old(self).spec_height() <= u32::MAX,
        ensures
            final(self).wf(),
            final(self).spec_width() == old(self).spec_width(),
            final(self).spec_height() == old(self).spec_height(),
            final(self)@ == all_dead(old(self).spec_width() * old(self).spec_height()),
    {
        assert(0 <= self.width * self.height) by (nonlinear_arith);
        let size: usize = (self.width as usize) * (self.height as usize);
        self.cells = FixedBitSet::with_capacity(size);
    }

    /// Clear universe: every cell is dead afterwards, the dimensions stay.
    pub fn clear(&mut self)
        requires
            old(self).wf(),
        ensures
            final(self).wf(),
            final(self).spec_width() == old(self).spec_width(),
            final(self).spec_height() == old(self).spec_height(),
            final(self)@ == all_dead(old(self).spec_width() * old(self).spec_height()),
    {
        self.reset();
    }

    /// Clears the universe and gives cell `i` the state `draws[i]`.
    ///
    /// The draws come from the caller's random source, one per cell. With any
    /// other number of draws nothing changes and the error says how many
    /// were needed.
    pub fn random(&mut self, draws: &[bool]) -> (r: Result<(), DrawCountError>)
        requires
            old(self).wf(),
        ensures
            final(self).wf(),
            final(self).spec_width() == old(self).spec_width(),
            final(self).spec_height() == old(self).spec_height(),
            draws@.len() == old(self)@.len() ==> r is Ok && final(self)@ == draws@,
            draws@.len() != old(self)@.len() ==> final(self)@ == old(self)@ && r == Err::<
                (),
                DrawCountError,
            >(DrawCountError { expected: old(self)@.len() as usize, found: draws@.len() as usize }),
    {
        let size: usize = self.cells.len();
        if draws.len() != size {
            return Err(DrawCountError { expected: size, found: draws.len() });
        }
        self.reset();
        let mut i: usize = 0;
        while i < size
            invariant
                i <= size,
                draws@.len() == size,
                self.wf(),
                self@.len() == size,
                self.spec_width() == old(self).spec_width(),
                self.spec_height() == old(self).spec_height(),
                forall|j: int| 0 <= j < i ==> self@[j] == draws@[j],
            decreases size - i,
        {
            self.cells.set(i, draws[i]);
            i += 1;
        }
        assert(self@ =~= draws@);
        Ok(())
    }

    /// Set a cell
    pub fn set_cell(&mut self, row: u32, column: u32, alive: bool)
        requires
            old(self).wf(),
            old(self).in_bounds(row, column),
        ensures
            final(self).wf(),
            final(self).spec_width() == old(self).spec_width(),
            final(self).spec_height() == old(self).spec_height(),
            final(self)@ == old(self)@.update(
                cell_index(old(self).spec_width() as int, row as int, column as int),
                alive,
            ),
    {
        proof {
            lemma_cell_index(self.width as int, self.height as int, row as int, column as int);
        }
        let idx = self.get_index(row, column);
        self.cells.set(idx, alive);
    }

    /// Toggle a cell
    pub fn toggle_cell(&mut self, row: u32, column: u32)
        requires
            old(self).wf(),
            old(self).in_bounds(row, column),
        ensures
            final(self).wf(),
            final(self).spec_width() == old(self).spec_width(),
            final(self).spec_height() == old(self).spec_height(),
            final(self)@ == old(self)@.update(
                cell_index(old(self).spec_width() as int, row as int, column as int),
                !old(self)@[cell_index(old(self).spec_width() as int, row as int, column as int)],
            ),
    {
        proof {
            lemma_cell_index(self.width as int, self.height as int, row as int, column as int);
        }
        let idx = self.get_index(row, column);
        let cell = self.cells.contains(idx);
        self.cells.set(idx, !cell);
    }

    /// Set the width of the universe.
    ///
    /// Resets all cells to the dead state.
    pub fn set_width(&mut self, width: u32)
        requires
            old(self).wf(),
            width * old(self).spec_height() <= u32::MAX,
        ensures
            final(self).wf(),
            final(self).spec_width() == width,
            final(self).spec_height() == old(self).spec_height(),
            final(self)@ == all_dead(width * old(self).spec_height()),
    {
        self.width = width;
        self.reset();
    }

    /// Set the height of the universe.
    ///
    /// Resets all cells to the dead state.
    pub fn set_height(&mut self, height: u32)
        requires
            old(self).wf(),
            old(self).spec_width() * height <= u32::MAX,
        ensures
            final(self).wf(),
            final(self).spec_width() == old(self).spec_width(),
            final(self).spec_height() == height,
            final(self)@ == all_dead(old(self).spec_width() * height),
    {
        self.height = height;
        self.reset();
    }

    /// Returns the width of the universe
    pub fn width(&self) -> (w: u32)
        ensures
            w == self.spec_width(),
    {
        self.width
    }

    /// Returns the height of the universe
    pub fn height(&self) -> (h: u32)
        ensures
            h == self.spec_height(),
    {
        self.height
    }

    /// Get index in the linear array. No wrapping is applied.
    pub fn get_index(&self, row: u32, column: u32) -> (idx: usize)
        requires
            cell_index(self.spec_width() as int, row as int, column as int) <= usize::MAX,
        ensures
            idx == cell_index(self.spec_width() as int, row as int, column as int),
    {
        assert(0 <= row * self.width) by (nonlinear_arith);
        (row as usize) * (self.width as usize) + (column as usize)
    }

    /// The state of the cell at (`row`, `column`).
    pub fn get_cell(&self, row: u32, column: u32) -> (c: Cell)
        requires
            self.wf(),
            self.in_bounds(row, column),
        ensures
            c == if self@[cell_index(self.spec_width() as int, row as int, column as int)] {
                Cell::Alive
            } else {
                Cell::Dead
            },
    {
        proof {
            lemma_cell_index(self.width as int, self.height as int, row as int, column as int);
        }
        let idx = self.get_index(row, column);
        if self.cells.contains(idx) {
            Cell::Alive
        } else {
            Cell::Dead
        }
    }

    /// 1 if the cell at (`row`, `column`) is alive, else 0.
    fn alive_count(&self, row: u32, column: u32) -> (n: u8)
        requires
            self.wf(),
            self.in_bounds(row, column),
        ensures
            n == alive_at(self@, self.spec_width() as int, row as int, column as int),
    {
        proof {
            lemma_cell_index(self.width as int, self.height as int, row as int, column as int);
        }
        let idx = self.get_index(row, column);
        if self.cells.contains(idx) {
            1
        } else {
            0
        }
    }

    /// Get count of neighbors next to given coordinates, across the joined
    /// edges.
    pub fn live_neighbor_count(&self, row: u32, column: u32) -> (count: u8)
        requires
            self.wf(),
            self.in_bounds(row, column),
        ensures
            count == live_neighbors(
                self@,
                self.spec_width() as int,
                self.spec_height() as int,
                row as int,
                column as int,
            ),
            count <= 8,
    {
        let north = if row == 0 {
            self.height - 1
        } else {
            row - 1
        };
        let south = if row == self.height - 1 {
            0
        } else {
            row + 1
        };
        let west = if column == 0 {
            self.width - 1
        } else {
            column - 1
        };
        let east = if column == self.width - 1 {
            0
        } else {
            column + 1
        };

        let mut count: u8 = 0;
        count += self.alive_count(north, west);
        count += self.alive_count(north, column);
        count += self.alive_count(north, east);
        count += self.alive_count(row, west);
        count += self.alive_count(row, east);
        count += self.alive_count(south, west);
        count += self.alive_count(south, column);
        count += self.alive_count(south, east);
        count
    }

    /// Run a tick of the simulation: every cell is judged against the
    /// generation before the tick, and the new generation replaces the old
    /// one as a whole.
    pub fn tick(&mut self)
        requires
            old(self).wf(),
        ensures
            final(self).wf(),
            final(self).spec_width() == old(self).spec_width(),
            final(self).spec_height() == old(self).spec_height(),
            final(self)@ == next_generation(
                old(self)@,
                old(self).spec_width() as int,
                old(self).spec_height() as int,
            ),
    {
        let mut next = self.cells.clone();
        let ghost w = self.width as int;
        let ghost h = self.height as int;
        let ghost after = next_generation(self@, w, h);
        let mut row: u32 = 0;
        while row < self.height
            invariant
                *self == *old(self),
                self.wf(),
                w == self.width,
                h == self.height,
                after == next_generation(self@, w, h),
                row <= self.height,
                bits_of(next).len() == self@.len(),
                forall|i: int| 0 <= i < row * w && i < self@.len() ==> bits_of(next)[i] == after[i],
            decreases self.height - row,
        {
            let mut col: u32 = 0;
            while col < self.width
                invariant
                    *self == *old(self),
                    self.wf(),
                    w == self.width,
                    h == self.height,
                    after == next_generation(self@, w, h),
                    row < self.height,
                    col <= self.width,
                    bits_of(next).len() == self@.len(),
                    forall|i: int|
                        0 <= i < row * w + col && i < self@.len() ==> bits_of(next)[i] == after[i],
                decreases self.width - col,
            {
                proof {
                    lemma_cell_index(w, h, row as int, col as int);
                }
                let idx = self.get_index(row, col);
                let cell = self.cells.contains(idx);
                let live_neighbors = self.live_neighbor_count(row, col);
                let alive = live_neighbors == 3 || (cell && live_neighbors == 2);
                assert(after[idx as int] == alive);
                next.set(idx, alive);
                col += 1;
            }
            assert((row + 1) * w == row * w + w) by (nonlinear_arith);
            row += 1;
        }
        proof {
            assert(self@.len() == h * w) by (nonlinear_arith)
                requires
                    self@.len() == w * h,
            ;
            assert(bits_of(next) =~= after);
        }
        self.cells = next;
    }

    /// Import a world from its textual form.
    ///
    /// A text that is accepted replaces the dimensions and the cells. One
    /// that is refused leaves the universe as it was.
    pub fn import_file(&mut self, file: &str) -> (r: Result<(), DecodeError>)
        ensures
            match decode_error(file@) {
                Some(e) => r == Err::<(), DecodeError>(e) && *final(self) == *old(self),
                None => {
                    &&& r is Ok
                    &&& final(self).wf()
                    &&& final(self).spec_width() == side_length(file@)
                    &&& final(self).spec_height() == side_length(file@)
                    &&& final(self)@ == decoded_cells(file@)
                },
            },
    {
        match decode(file) {
            Err(e) => Err(e),
            Ok((side, cells)) => {
                self.width = side;
                self.height = side;
                self.cells = cells;
                Ok(())
            },
        }
    }

    /// Get the dead and alive values of the entire universe, packed 32 cells
    /// to a block: cell `i` is bit `i % 32` of block `i / 32`.
    pub fn get_cells(&self) -> (blocks: &[u32])
        ensures
            blocks@.len() == (self@.len() + 31) / 32,
            forall|i: int|
                0 <= i < self@.len() ==> self@[i] == block_bit(#[trigger] blocks@[i / 32], i % 32),
    {
        self.cells.as_slice()
    }

    /// Set cells to be alive in a universe by passing the row and column
    /// of each cell as an array. Every other cell keeps its state.
    pub fn set_cells(&mut self, cells: &[(u32, u32)])
        requires
            old(self).wf(),
            forall|k: int| 0 <= k < cells@.len() ==> old(self).in_bounds(cells@[k].0, cells@[k].1),
        ensures
            final(self).wf(),
            final(self).spec_width() == old(self).spec_width(),
            final(self).spec_height() == old(self).spec_height(),
            final(self)@.len() == old(self)@.len(),
            forall|i: int|
                0 <= i < old(self)@.len() ==> final(self)@[i] == (old(self)@[i] || listed(
                    cells@,
                    old(self).spec_width() as int,
                    i,
                )),
    {
        let ghost w = self.width as int;
        let mut k: usize = 0;
        while k < cells.len()
            invariant
                k <= cells@.len(),
                self.wf(),
                w == self.width,
                self.spec_width() == old(self).spec_width(),
                self.spec_height() == old(self).spec_height(),
                self@.len() == old(self)@.len(),
                forall|j: int| 0 <= j < cells@.len() ==> self.in_bounds(cells@[j].0, cells@[j].1),
                forall|i: int|
                    0 <= i < self@.len() ==> self@[i] == (old(self)@[i] || listed(
                        cells@.take(k as int),
                        w,
                        i,
                    )),
            decreases cells@.len() - k,
        {
            let (row, col) = cells[k];
            proof {
                lemma_cell_index(w, self.height as int, row as int, col as int);
            }
            let idx = self.get_index(row, col);
            let ghost before = self@;
            self.cells.set(idx, true);
            proof {
                let shorter = cells@.take(k as int);
                let longer = cells@.take(k + 1);
                assert(longer[k as int] == cells@[k as int]);
                assert forall|i: int| 0 <= i < self@.len() implies self@[i] == (old(self)@[i]
                    || listed(longer, w, i)) by {
                    if listed(shorter, w, i) {
                        let j = choose|j: int|
                            0 <= j < shorter.len() && cell_index(
                                w,
                                (#[trigger] shorter[j]).0 as int,
                                shorter[j].1 as int,
                            ) == i;
                        assert(longer[j] == shorter[j]);
                    }
                    if listed(longer, w, i) {
                        let j = choose|j: int|
                            0 <= j < longer.len() && cell_index(
                                w,
                                (#[trigger] longer[j]).0 as int,
                                longer[j].1 as int,
                            ) == i;
                        if j < k {
                            assert(shorter[j] == longer[j]);
                        }
                    }
                }
            }
            k += 1;
        }
        assert(cells@.take(cells@.len() as int) =~= cells@);
    }
}

} // verus!
