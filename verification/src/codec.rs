//! The textual form of a world: rows of `#` (alive) and `.` (dead).
//!
//! The grid is square. Its side is one less than the number of characters
//! before the first line break; the markers then fill the grid from the first
//! cell on, whatever lines they stand in.

use crate::bits::bits_of;
use fixedbitset::FixedBitSet;
use vstd::prelude::*;
use vstd::std_specs::iter::IteratorSpec;

verus! {

/// The length that the first line is taken to have in a text without a
/// line break.
pub const FALLBACK_LINE_LENGTH: usize = 101;

/// The largest side whose square still fits in 32 bits.
pub const MAX_SIDE: usize = 65535;

/// Why a text was not accepted as a world.
#[derive(Clone, Copy, Debug, PartialEq, Eq)]
pub enum DecodeError {
    /// The text begins with a line break, so the grid has no side.
    EmptyFirstLine,
    /// The grid would have more cells than 32 bits can count.
    TooLarge,
    /// The text holds more markers than the grid has cells.
    Overrun,
}

/// Whether `i` is the place of the first line break of `text`.
pub open spec fn first_break(text: Seq<char>, i: int) -> bool {
    &&& 0 <= i < text.len()
    &&& text[i] == '\n'
    &&& forall|j: int| 0 <= j < i ==> text[j] != '\n'
}

/// The number of characters before the first line break, or the fallback
/// where there is none.
pub open spec fn first_line_length(text: Seq<char>) -> int {
    if exists|i: int| first_break(text, i) {
        choose|i: int| first_break(text, i)
    } else {
        FALLBACK_LINE_LENGTH as int
    }
}

/// The side of the grid that `text` describes.
pub open spec fn side_length(text: Seq<char>) -> int {
    first_line_length(text) - 1
}

/// The markers of `text` in order, `#` as `true` and `.` as `false`; every
/// other character is passed over.
pub open spec fn markers(text: Seq<char>) -> Seq<bool>
    decreases text.len(),
{
    if text.len() == 0 {
        Seq::empty()
    } else if text.last() == '#' {
        markers(text.drop_last()).push(true)
    } else if text.last() == '.' {
        markers(text.drop_last()).push(false)
    } else {
        markers(text.drop_last())
    }
}

/// The error that `text` is refused with, if it is refused.
pub open spec fn decode_error(text: Seq<char>) -> Option<DecodeError> {
    let side = side_length(text);
    if side < 0 {
        Some(DecodeError::EmptyFirstLine)
    } else if side * side > u32::MAX {
        Some(DecodeError::TooLarge)
    } else if markers(text).len() > side * side {
        Some(DecodeError::Overrun)
    } else {
        None
    }
}

/// The cells of the grid that `text` describes: the markers first, and dead
/// cells where the markers run out before the grid is full.
pub open spec fn decoded_cells(text: Seq<char>) -> Seq<bool> {
    let side = side_length(text);
    let m = markers(text);
    Seq::new((side * side) as nat, |i: int| i < m.len() && m[i])
}

/// A text has at least as many markers as any of its prefixes.
pub proof fn lemma_markers_prefix(text: Seq<char>, n: int)
    requires
        0 <= n <= text.len(),
    ensures
        markers(text.take(n)).len() <= markers(text).len(),
    decreases text.len(),
{
    if n == text.len() {
        assert(text.take(n) =~= text);
    } else {
        assert(text.drop_last().take(n) =~= text.take(n));
        lemma_markers_prefix(text.drop_last(), n);
    }
}

/// The markers of a prefix that is one character longer.
pub proof fn lemma_markers_step(text: Seq<char>, n: int)
    requires
        0 <= n < text.len(),
    ensures
        markers(text.take(n + 1)) == if text[n] == '#' {
            markers(text.take(n)).push(true)
        } else if text[n] == '.' {
            markers(text.take(n)).push(false)
        } else {
            markers(text.take(n))
        },
{
    assert(text.take(n + 1).drop_last() =~= text.take(n));
    assert(text.take(n + 1).last() == text[n]);
}

/// The number of characters before the first line break of `text`. The
/// count stops at `MAX_SIDE + 2`: from there on the grid is too large
/// whatever the exact length is.
fn measure_first_line(text: &str) -> (n: usize)
    ensures
        n <= MAX_SIDE + 2,
        n <= MAX_SIDE + 1 ==> n == first_line_length(text@),
        n == MAX_SIDE + 2 ==> first_line_length(text@) >= MAX_SIDE + 2,
{
    broadcast use vstd::string::axiom_spec_iter, vstd::string::next_postcondition;

    let mut it = text.chars();
    let mut n: usize = 0;
    let ghost mut pos: int = 0;
    loop
        invariant
            0 <= pos <= text@.len(),
            it.remaining() == text@.skip(pos),
            it.obeys_prophetic_iter_laws(),
            n <= MAX_SIDE + 2,
            n <= MAX_SIDE + 1 ==> n == pos,
            n == MAX_SIDE + 2 ==> pos >= MAX_SIDE + 2,
            forall|j: int| 0 <= j < pos ==> text@[j] != '\n',
        decreases text@.len() - pos,
    {
        let ghost before = it.remaining();
        match it.next() {
            None => {
                assert(pos == text@.len());
                assert(!(exists|i: int| first_break(text@, i)));
                return FALLBACK_LINE_LENGTH;
            },
            Some(c) => {
                assert(c == text@[pos]);
                if c == '\n' {
                    assert(first_break(text@, pos));
                    return n;
                }
                if n <= MAX_SIDE + 1 {
                    n += 1;
                }
                proof {
                    assert(before.drop_first() =~= text@.skip(pos + 1));
                    pos = pos + 1;
                }
            },
        }
    }
}

/// Decodes `text` into the side of its grid and the cells of the grid.
pub fn decode(text: &str) -> (r: Result<(u32, FixedBitSet), DecodeError>)
    ensures
        match decode_error(text@) {
            Some(e) => r == Err::<(u32, FixedBitSet), DecodeError>(e),
            None => r is Ok && r->Ok_0.0 == side_length(text@) && bits_of(r->Ok_0.1)
                == decoded_cells(text@),
        },
{
    broadcast use vstd::string::axiom_spec_iter, vstd::string::next_postcondition;

    let first = measure_first_line(text);
    if first == 0 {
        return Err(DecodeError::EmptyFirstLine);
    }
    let side: usize = first - 1;
    if side > MAX_SIDE {
        assert(side_length(text@) * side_length(text@) > u32::MAX) by (nonlinear_arith)
            requires
                side_length(text@) >= 65536,
        ;
        return Err(DecodeError::TooLarge);
    }
    assert(side * side <= u32::MAX) by (nonlinear_arith)
        requires
            0 <= side <= 65535,
    ;
    let size: usize = side * side;
    let mut cells = FixedBitSet::with_capacity(size);
    let mut counter: usize = 0;
    let mut it = text.chars();
    let ghost mut pos: int = 0;
    loop
        invariant
            0 <= pos <= text@.len(),
            it.remaining() == text@.skip(pos),
            it.obeys_prophetic_iter_laws(),
            side <= MAX_SIDE,
            side == side_length(text@),
            size == side * side,
            size <= u32::MAX,
            counter == markers(text@.take(pos)).len(),
            counter <= size,
            bits_of(cells).len() == size,
            forall|i: int|
                0 <= i < size ==> bits_of(cells)[i] == (i < counter && markers(text@.take(pos))[i]),
        decreases text@.len() - pos,
    {
        let ghost before = it.remaining();
        match it.next() {
            None => {
                proof {
                    assert(pos == text@.len());
                    assert(text@.take(pos) =~= text@);
                    assert(bits_of(cells) =~= decoded_cells(text@));
                }
                return Ok((side as u32, cells));
            },
            Some(c) => {
                proof {
                    assert(c == text@[pos]);
                    lemma_markers_step(text@, pos);
                    lemma_markers_prefix(text@, pos + 1);
                }
                if c == '#' || c == '.' {
                    if counter >= size {
                        return Err(DecodeError::Overrun);
                    }
                    cells.set(counter, c == '#');
                    counter = counter + 1;
                }
                proof {
                    assert(before.drop_first() =~= text@.skip(pos + 1));
                    pos = pos + 1;
                }
            },
        }
    }
}

} // verus!
