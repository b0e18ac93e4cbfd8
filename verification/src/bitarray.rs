//! The fixed-size bit array that carries the 162 channel bits of a WSPR
//! transmission, held in `bitvec`'s `BitArray`.
use vstd::prelude::*;
use bitvec::array::BitArray;
use bitvec::order::Lsb0;

verus! {

/// Number of channel bits in a WSPR transmission.
pub const NUM_CHANNEL_BITS: usize = 162;

/// Number of bits the array holds: 162 bits of storage rounded up to whole
/// 32-bit elements, as `bitvec` lays out a bit array.
pub const ARRAY_BITS: usize = 192;

/// A `bitvec` bit array (`[u32; 6]` storage, least significant bit first)
/// large enough for the 162 channel bits of a transmission. Its contents are
/// `bits_view`, of length `ARRAY_BITS`.
#[verifier::external_body]
pub struct WSPRBits {
    bits: BitArray<[u32; 6], Lsb0>,
}

/// The bits held by a `WSPRBits`, in index order.
pub uninterp spec fn bits_view(b: WSPRBits) -> Seq<bool>;

impl View for WSPRBits {
    type V = Seq<bool>;

    open spec fn view(&self) -> Seq<bool> {
        bits_view(*self)
    }
}

/// `BitArray::ZERO`: a bit array of `[u32; 6]` storage has 6 * 32 = 192
/// bits, all of them cleared.
#[verifier::external_body]
fn zeroed_bits() -> (r: WSPRBits)
    ensures
        bits_view(r) == Seq::new(ARRAY_BITS as nat, |i: int| false),
{
    WSPRBits { bits: BitArray::ZERO }
}

/// `BitSlice::set` (reached through `DerefMut`): overwrites the bit at
/// `index` with `value` and leaves all others; it panics when `index` is not
/// below the length, which `requires` rules out.
#[verifier::external_body]
fn set_bit(b: &mut WSPRBits, index: usize, value: bool)
    requires
        index < bits_view(*old(b)).len(),
    ensures
        bits_view(*final(b)) == bits_view(*old(b)).update(index as int, value),
{
    b.bits.set(index, value)
}

/// `BitSlice::get` (reached through `Deref`) with a `usize` index: the bit at
/// `index` when it is below the length, `None` otherwise.
#[verifier::external_body]
fn get_bit(b: &WSPRBits, index: usize) -> (r: Option<bool>)
    ensures
        index < bits_view(*b).len() ==> r == Some(bits_view(*b)[index as int]),
        index >= bits_view(*b).len() ==> r is None,
{
    b.bits.get(index).as_deref().copied()
}

impl WSPRBits {
    /// An array of `ARRAY_BITS` cleared bits.
    pub fn zeroed() -> (r: WSPRBits)
        ensures
            r@ == Seq::new(ARRAY_BITS as nat, |i: int| false),
    {
        zeroed_bits()
    }

    /// The bit at `index`, or `None` past the end.
    pub fn get(&self, index: usize) -> (r: Option<bool>)
        ensures
            index < self@.len() ==> r == Some(self@[index as int]),
            index >= self@.len() ==> r is None,
    {
        get_bit(self, index)
    }

    /// Overwrites the bit at `index` with `value`.
    pub fn set(&mut self, index: usize, value: bool)
        requires
            index < old(self)@.len(),
        ensures
            final(self)@ == old(self)@.update(index as int, value),
    {
        set_bit(self, index, value)
    }
}

} // verus!
