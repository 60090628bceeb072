//! What this library takes on trust about `fixedbitset::FixedBitSet`.
//!
//! Nothing here is proved: each contract restates what the bit set's
//! implementation does, over the sequence of booleans that it holds.

use fixedbitset::FixedBitSet;
use vstd::prelude::*;

verus! {

/// Makes `fixedbitset::FixedBitSet` known to the verifier as an opaque type.
#[verifier::external_type_specification]
#[verifier::external_body]
pub struct ExFixedBitSet(fixedbitset::FixedBitSet);

/// The bits that a set holds, by index: as many entries as the set's length
/// in bits, entry `i` being whether bit `i` is enabled.
pub uninterp spec fn bits_of(s: FixedBitSet) -> Seq<bool>;

/// `FixedBitSet::with_capacity`: a set of `bits` bits, all of them clear.
pub assume_specification[ FixedBitSet::with_capacity ](bits: usize) -> (s: FixedBitSet)
    ensures
        bits_of(s) == Seq::new(bits as nat, |i: int| false),
;

/// `FixedBitSet::len`: the length in bits, not the number of enabled bits.
pub assume_specification[ FixedBitSet::len ](s: &FixedBitSet) -> (n: usize)
    ensures
        n == bits_of(*s).len(),
;

/// `FixedBitSet::contains`: within the length, whether the bit is enabled.
/// Nothing is claimed here about indices at or past the length.
pub assume_specification[ FixedBitSet::contains ](s: &FixedBitSet, bit: usize) -> (r: bool)
    ensures
        bit < bits_of(*s).len() ==> r == bits_of(*s)[bit as int],
;

/// `FixedBitSet::set`: overwrites one bit and leaves every other bit and the
/// length as they were. It panics when `bit` is not below the length, so
/// that is required of the caller.
pub assume_specification[ FixedBitSet::set ](s: &mut FixedBitSet, bit: usize, enabled: bool)
    requires
        bit < bits_of(*old(s)).len(),
    ensures
        bits_of(*final(s)) == bits_of(*old(s)).update(bit as int, enabled),
;

/// `FixedBitSet::clone`: a copy that holds the same bits.
pub assume_specification[ <FixedBitSet as Clone>::clone ](s: &FixedBitSet) -> (r: FixedBitSet)
    ensures
        bits_of(r) == bits_of(*s),
;

/// `FixedBitSet::as_slice`: the packed blocks, 32 bits to a block, bit `i` of
/// the set being bit `i % 32` (counted from the least significant) of
/// block `i / 32`.
pub assume_specification[ FixedBitSet::as_slice ](s: &FixedBitSet) -> (r: &[u32])
    ensures
        r@.len() == (bits_of(*s).len() + 31) / 32,
        forall|i: int|
            0 <= i < bits_of(*s).len() ==> bits_of(*s)[i] == block_bit(#[trigger] r@[i / 32], i % 32),
;

/// Whether bit `k` of `block`, counted from the least significant, is set.
pub open spec fn block_bit(block: u32, k: int) -> bool {
    block & (1u32 << (k as u32)) != 0
}

} // verus!
