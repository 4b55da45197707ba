//! The packed bit buffer behind a matrix, and the calls into `bitvec` that
//! read and write it.

use bitvec::boxed::BitBox;
use bitvec::order::Lsb0;
use bitvec::vec::BitVec;
use vstd::prelude::*;

verus! {

/// A packed buffer of bits, least-significant-bit first within `usize`
/// words. Verus sees only the sequence of bits it holds, `bits_of`.
#[verifier::external_body]
#[derive(Hash)]
pub struct Storage {
    buf: BitBox<usize, Lsb0>,
}

/// The bits that a buffer holds, in order.
pub uninterp spec fn bits_of(s: Storage) -> Seq<bool>;

/// The largest number of bits that one buffer can hold.
pub open spec fn max_bits() -> nat {
    (usize::MAX as nat) / 8
}

/// Relies on `BitVec::repeat` and `BitVec::into_boxed_bitslice`: a buffer of
/// `len` bits, all `false`. `repeat` panics above `BitSlice::MAX_BITS`
/// (`usize::MAX >> 3`).
#[verifier::external_body]
pub(crate) fn zeroed(len: usize) -> (r: Storage)
    requires
        len <= max_bits(),
    ensures
        bits_of(r) == Seq::new(len as nat, |k: int| false),
{
    Storage { buf: BitVec::<usize, Lsb0>::repeat(false, len).into_boxed_bitslice() }
}

/// Relies on `FromIterator<bool>` for `BitVec` and
/// `BitVec::into_boxed_bitslice`: a buffer holding the given bits in order.
#[verifier::external_body]
pub(crate) fn from_bools(v: &Vec<bool>) -> (r: Storage)
    requires
        v@.len() <= max_bits(),
    ensures
        bits_of(r) == v@,
{
    Storage { buf: v.iter().copied().collect::<BitVec<usize, Lsb0>>().into_boxed_bitslice() }
}

/// Relies on `Clone` for `BitBox`: a buffer with the same bits.
#[verifier::external_body]
pub(crate) fn duplicate(s: &Storage) -> (r: Storage)
    ensures
        bits_of(r) == bits_of(*s),
{
    Storage { buf: s.buf.clone() }
}

/// Relies on `Index<usize>` for `BitSlice`: the bit at offset `k`; it
/// panics past the end.
#[verifier::external_body]
pub(crate) fn bit(s: &Storage, k: usize) -> (r: bool)
    requires
        k < bits_of(*s).len(),
    ensures
        r == bits_of(*s)[k as int],
{
    s.buf[k]
}

/// Relies on `BitSlice::set`: writes `v` at offset `k`; it panics past the
/// end.
#[verifier::external_body]
pub(crate) fn set_bit(s: &mut Storage, k: usize, v: bool)
    requires
        k < bits_of(*old(s)).len(),
    ensures
        bits_of(*final(s)) == bits_of(*old(s)).update(k as int, v),
{
    s.buf.set(k, v)
}

/// Relies on `BitSlice::fill`: every bit becomes `v`.
#[verifier::external_body]
pub(crate) fn fill(s: &mut Storage, v: bool)
    ensures
        bits_of(*final(s)) == Seq::new(bits_of(*old(s)).len(), |k: int| v),
{
    s.buf.fill(v)
}

/// Relies on `Index<Range<usize>>` for `BitSlice` and its bit iterator: the
/// bits at offsets `start` up to `end`, copied out. The slicing panics on a
/// range past the end.
#[verifier::external_body]
pub(crate) fn bit_range(s: &Storage, start: usize, end: usize) -> (r: Vec<bool>)
    requires
        start <= end <= bits_of(*s).len(),
    ensures
        r@ == bits_of(*s).subrange(start as int, end as int),
{
    s.buf[start..end].iter().by_vals().collect()
}

/// Relies on `PartialEq` for `BitBox`: equal lengths and equal bits.
#[verifier::external_body]
pub(crate) fn same_bits(a: &Storage, b: &Storage) -> (r: bool)
    ensures
        r == (bits_of(*a) == bits_of(*b)),
{
    a.buf == b.buf
}

/// Relies on `FromIterator<char>` for `String`: the given characters, in
/// order.
#[verifier::external_body]
pub(crate) fn text_of_chars(cs: Vec<char>) -> (r: String)
    ensures
        r@ == cs@,
{
    cs.into_iter().collect()
}

} // verus!
