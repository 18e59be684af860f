//! Bit strings: the pieces that a peer has, and the pieces that are complete.
use bitvec::order::Msb0;
use bitvec::vec::BitVec;
use vstd::prelude::*;

verus! {

/// A string of bits, kept in a `bitvec::vec::BitVec` over bytes in which the
/// most significant bit of each byte comes first.
#[verifier::external_body]
#[derive(Debug)]
pub struct Bitfield {
    inner: BitVec<u8, Msb0>,
}

/// The bits of a bit string, in order.
pub uninterp spec fn bits(b: Bitfield) -> Seq<bool>;

/// The bytes that hold the bits of a bit string.
pub uninterp spec fn raw_bytes(b: Bitfield) -> Seq<u8>;

/// The most bits that a bit string can hold.
pub open spec fn max_bits() -> nat {
    (usize::MAX / 8) as nat
}

/// Bit `k` of a byte, counted from the most significant one.
pub open spec fn bit_from_top(byte: u8, k: int) -> bool {
    (byte >> ((7 - k) as u8)) & 1 == 1
}

/// The bits of a byte string: those of the first byte come first, and of each
/// byte the most significant bit comes first.
pub open spec fn bits_of_bytes(bytes: Seq<u8>) -> Seq<bool> {
    Seq::new(8 * bytes.len(), |i: int| bit_from_top(bytes[i / 8], i % 8))
}

impl Bitfield {
    /// `BitVec::new`: a bit string without bits.
    #[verifier::external_body]
    pub(crate) fn new() -> (b: Bitfield)
        ensures
            bits(b) == Seq::<bool>::empty(),
            raw_bytes(b) == Seq::<u8>::empty(),
    {
        Bitfield { inner: BitVec::new() }
    }

    /// `BitVec::repeat`: `len` bits, all of them `bit`. It panics on a length
    /// above `BitSlice::MAX_BITS`, which is an eighth of the machine word.
    #[verifier::external_body]
    pub(crate) fn repeat(bit: bool, len: usize) -> (b: Bitfield)
        requires
            len <= max_bits(),
        ensures
            bits(b) == Seq::new(len as nat, |i: int| bit),
    {
        Bitfield { inner: BitVec::repeat(bit, len) }
    }

    /// `BitVec::from_vec`: all bits of `bytes`, which become the storage of the
    /// bit string. It panics where the bits are more than `BitSlice::MAX_BITS`.
    #[verifier::external_body]
    pub(crate) fn from_vec(bytes: Vec<u8>) -> (b: Bitfield)
        requires
            8 * bytes@.len() <= max_bits(),
        ensures
            bits(b) == bits_of_bytes(bytes@),
            raw_bytes(b) == bytes@,
    {
        Bitfield { inner: BitVec::from_vec(bytes) }
    }

    /// `BitVec::len`: the number of bits, never above `BitSlice::MAX_BITS`.
    #[verifier::external_body]
    pub(crate) fn len(&self) -> (n: usize)
        ensures
            n == bits(*self).len(),
            n <= max_bits(),
    {
        self.inner.len()
    }

    /// `BitVec::as_raw_slice`: the bytes that hold the bits.
    #[verifier::external_body]
    pub(crate) fn as_raw_slice(&self) -> (bytes: &[u8])
        ensures
            bytes@ == raw_bytes(*self),
    {
        self.inner.as_raw_slice()
    }

    /// `BitSlice::set`: writes one bit, in the byte that holds it, and leaves
    /// the others alone. It panics on an index that is out of bounds.
    #[verifier::external_body]
    pub(crate) fn set(&mut self, index: usize, value: bool)
        requires
            index < bits(*old(self)).len(),
        ensures
            bits(*final(self)) == bits(*old(self)).update(index as int, value),
            raw_bytes(*final(self)).len() == raw_bytes(*old(self)).len(),
            bits(*old(self)) == bits_of_bytes(raw_bytes(*old(self))) ==> bits(*final(self))
                == bits_of_bytes(raw_bytes(*final(self))),
    {
        self.inner.set(index, value);
    }

    /// `BitSlice::get`: the bit at `index`, or nothing where the index is out
    /// of bounds.
    #[verifier::external_body]
    pub(crate) fn get(&self, index: usize) -> (bit: Option<bool>)
        ensures
            bit == (if index < bits(*self).len() {
                Some(bits(*self)[index as int])
            } else {
                None
            }),
    {
        self.inner.get(index).as_deref().copied()
    }

    /// `BitSlice::iter_zeros`, its first item: the index of the first bit that
    /// is `false`, or nothing where every bit is `true`.
    #[verifier::external_body]
    pub(crate) fn first_zero(&self) -> (index: Option<usize>)
        ensures
            index is None <==> (forall|i: int| 0 <= i < bits(*self).len() ==> #[trigger] bits(*self)[i]),
            index matches Some(n) ==> {
                &&& n < bits(*self).len()
                &&& !bits(*self)[n as int]
                &&& forall|i: int| 0 <= i < n ==> #[trigger] bits(*self)[i]
            },
    {
        self.inner.iter_zeros().next()
    }
}

/// Bit `i` of a byte string lies in byte `i / 8`; the first bit of a byte counts
/// 128, and each further one half of the one before.
pub proof fn law_bits_of_bytes(bytes: Seq<u8>, i: int)
    requires
        0 <= i < 8 * bytes.len(),
    ensures
        bits_of_bytes(bytes).len() == 8 * bytes.len(),
        ({
            let byte = bytes[i / 8];
            let k = i % 8;
            let unit: int = if k == 0 {
                128
            } else if k == 1 {
                64
            } else if k == 2 {
                32
            } else if k == 3 {
                16
            } else if k == 4 {
                8
            } else if k == 5 {
                4
            } else if k == 6 {
                2
            } else {
                1
            };
            bits_of_bytes(bytes)[i] <==> (byte as int / unit) % 2 == 1
        }),
{
    let byte = bytes[i / 8];
    assert((byte >> 7u8) & 1 == (byte / 128) % 2) by (bit_vector);
    assert((byte >> 6u8) & 1 == (byte / 64) % 2) by (bit_vector);
    assert((byte >> 5u8) & 1 == (byte / 32) % 2) by (bit_vector);
    assert((byte >> 4u8) & 1 == (byte / 16) % 2) by (bit_vector);
    assert((byte >> 3u8) & 1 == (byte / 8) % 2) by (bit_vector);
    assert((byte >> 2u8) & 1 == (byte / 4) % 2) by (bit_vector);
    assert((byte >> 1u8) & 1 == (byte / 2) % 2) by (bit_vector);
    assert((byte >> 0u8) & 1 == byte % 2) by (bit_vector);
    assert(bits_of_bytes(bytes)[i] == bit_from_top(byte, i % 8));
}

/// A bit string can hold an eighth of the numbers of a machine word.
pub proof fn law_max_bits()
    ensures
        8 * max_bits() <= usize::MAX < 8 * (max_bits() + 1),
{
}

} // verus!
