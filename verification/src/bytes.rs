//! Big-endian integers in byte strings.
use vstd::arithmetic::div_mod::lemma_div_denominator;
use vstd::arithmetic::power::{lemma_pow_positive, pow};
use vstd::prelude::*;

verus! {

/// The `width` bytes of `n`, most significant first.
pub open spec fn be_bytes(n: nat, width: nat) -> Seq<u8>
    decreases width,
{
    if width == 0 {
        Seq::empty()
    } else {
        be_bytes(n / 256, (width - 1) as nat).push((n % 256) as u8)
    }
}

/// The number whose bytes, most significant first, are `s`.
pub open spec fn be_value(s: Seq<u8>) -> nat
    decreases s.len(),
{
    if s.len() == 0 {
        0
    } else {
        be_value(s.drop_last()) * 256 + s.last() as nat
    }
}

/// The count of numbers that fit in `width` bytes.
pub open spec fn byte_range(width: nat) -> nat
    decreases width,
{
    if width == 0 {
        1
    } else {
        byte_range((width - 1) as nat) * 256
    }
}

/// The number of bytes of a machine word.
pub open spec fn word_width() -> nat {
    if usize::BITS == 64 {
        8
    } else {
        4
    }
}

pub proof fn lemma_be_bytes_len(n: nat, width: nat)
    ensures
        be_bytes(n, width).len() == width,
    decreases width,
{
    if width > 0 {
        lemma_be_bytes_len(n / 256, (width - 1) as nat);
    }
}

/// Reading back the bytes of a number that fits gives the number.
pub proof fn law_be_value_of_be_bytes(n: nat, width: nat)
    requires
        n < byte_range(width),
    ensures
        be_value(be_bytes(n, width)) == n,
    decreases width,
{
    lemma_be_bytes_len(n, width);
    if width > 0 {
        law_be_value_of_be_bytes(n / 256, (width - 1) as nat);
        assert(be_bytes(n, width).drop_last() =~= be_bytes(n / 256, (width - 1) as nat));
    }
}

/// The bytes of the number that a byte string spells are that string.
pub proof fn law_be_bytes_of_be_value(s: Seq<u8>)
    ensures
        be_bytes(be_value(s), s.len()) == s,
        be_value(s) < byte_range(s.len()),
    decreases s.len(),
{
    if s.len() > 0 {
        law_be_bytes_of_be_value(s.drop_last());
        assert(s.drop_last().push(s.last()) =~= s);
    }
}

pub proof fn lemma_u32_range()
    ensures
        byte_range(4) == u32::MAX + 1,
        byte_range(2) == u16::MAX + 1,
{
    reveal_with_fuel(byte_range, 5);
}

/// Appends the four bytes of `n`.
pub fn push_be_u32(out: &mut Vec<u8>, n: u32)
    ensures
        final(out)@ == old(out)@ + be_bytes(n as nat, 4),
{
    let ghost before = out@;
    let n1: u32 = n / 256;
    let n2: u32 = n1 / 256;
    let n3: u32 = n2 / 256;
    out.push((n3 % 256) as u8);
    out.push((n2 % 256) as u8);
    out.push((n1 % 256) as u8);
    out.push((n % 256) as u8);
    proof {
        reveal_with_fuel(be_bytes, 5);
        assert(out@ =~= before + be_bytes(n as nat, 4));
    }
}

/// Appends the bytes of a machine word.
pub fn push_be_usize(out: &mut Vec<u8>, n: usize)
    ensures
        final(out)@ == old(out)@ + be_bytes(n as nat, word_width()),
{
    if usize::BITS == 64 {
        let ghost before = out@;
        let n1: usize = n / 256;
        let n2: usize = n1 / 256;
        let n3: usize = n2 / 256;
        let n4: usize = n3 / 256;
        let n5: usize = n4 / 256;
        let n6: usize = n5 / 256;
        let n7: usize = n6 / 256;
        out.push((n7 % 256) as u8);
        out.push((n6 % 256) as u8);
        out.push((n5 % 256) as u8);
        out.push((n4 % 256) as u8);
        out.push((n3 % 256) as u8);
        out.push((n2 % 256) as u8);
        out.push((n1 % 256) as u8);
        out.push((n % 256) as u8);
        proof {
            reveal_with_fuel(be_bytes, 9);
            assert(out@ =~= before + be_bytes(n as nat, 8));
        }
    } else {
        push_be_u32(out, n as u32);
    }
}

/// The number that the four bytes from `at` on spell.
pub fn read_be_u32(bytes: &[u8], at: usize) -> (n: u32)
    requires
        at + 4 <= bytes@.len(),
    ensures
        n as nat == be_value(bytes@.subrange(at as int, at + 4)),
{
    let ghost s = bytes@.subrange(at as int, at + 4);
    proof {
        reveal_with_fuel(be_value, 5);
        law_be_bytes_of_be_value(s);
        lemma_u32_range();
        assert(s.drop_last().drop_last().drop_last().drop_last() =~= Seq::empty());
    }
    let b0: u32 = bytes[at] as u32;
    let b1: u32 = bytes[at + 1] as u32;
    let b2: u32 = bytes[at + 2] as u32;
    let b3: u32 = bytes[at + 3] as u32;
    ((b0 * 256 + b1) * 256 + b2) * 256 + b3
}

/// The number that the two bytes from `at` on spell.
pub fn read_be_u16(bytes: &[u8], at: usize) -> (n: u16)
    requires
        at + 2 <= bytes@.len(),
    ensures
        n as nat == be_value(bytes@.subrange(at as int, at + 2)),
{
    let ghost s = bytes@.subrange(at as int, at + 2);
    proof {
        reveal_with_fuel(be_value, 3);
        law_be_bytes_of_be_value(s);
        lemma_u32_range();
        assert(s.drop_last().drop_last() =~= Seq::empty());
    }
    let b0: u16 = bytes[at] as u16;
    let b1: u16 = bytes[at + 1] as u16;
    b0 * 256 + b1
}

/// The bytes of `bytes` from `from` on.
pub fn tail(bytes: &[u8], from: usize) -> (out: Vec<u8>)
    requires
        from <= bytes@.len(),
    ensures
        out@ == bytes@.skip(from as int),
{
    let mut out: Vec<u8> = Vec::new();
    let mut i: usize = from;
    while i < bytes.len()
        invariant
            from <= i <= bytes@.len(),
            out@ == bytes@.subrange(from as int, i as int),
        decreases bytes@.len() - i,
    {
        out.push(bytes[i]);
        i = i + 1;
        assert(out@ =~= bytes@.subrange(from as int, i as int));
    }
    assert(out@ =~= bytes@.skip(from as int));
    out
}

/// Appends all of `more`.
pub fn push_all(out: &mut Vec<u8>, more: &[u8])
    ensures
        final(out)@ == old(out)@ + more@,
{
    let ghost before = out@;
    let mut i: usize = 0;
    while i < more.len()
        invariant
            i <= more@.len(),
            out@ == before + more@.take(i as int),
        decreases more@.len() - i,
    {
        out.push(more[i]);
        i = i + 1;
        assert(out@ =~= before + more@.take(i as int));
    }
    assert(more@.take(i as int) =~= more@);
}

/// `n` zero bytes.
pub open spec fn zeros(n: nat) -> Seq<u8> {
    Seq::new(n, |i: int| 0u8)
}

/// Appends `n` zero bytes.
pub fn push_zeros(out: &mut Vec<u8>, n: usize)
    ensures
        final(out)@ == old(out)@ + zeros(n as nat),
{
    let ghost before = out@;
    let mut i: usize = 0;
    while i < n
        invariant
            i <= n,
            out@ == before + zeros(i as nat),
        decreases n - i,
    {
        out.push(0);
        i = i + 1;
        assert(out@ =~= before + zeros(i as nat));
    }
}

/// The number that the four bytes of `bytes` from `at` on spell, the first byte
/// counting most.
pub open spec fn quad(bytes: Seq<u8>, at: int) -> int {
    bytes[at] * 16777216 + bytes[at + 1] * 65536 + bytes[at + 2] * 256 + bytes[at + 3]
}

/// Byte `i` of the bytes of a number counts for as many as there are numbers of
/// the bytes after it.
pub proof fn law_be_bytes_digits(n: nat, width: nat, i: int)
    requires
        0 <= i < width,
    ensures
        be_bytes(n, width).len() == width,
        be_bytes(n, width)[i] == (n as int / pow(256, (width - 1 - i) as nat)) % 256,
    decreases width,
{
    lemma_be_bytes_len(n, width);
    lemma_be_bytes_len(n / 256, (width - 1) as nat);
    reveal(pow);
    if i < width - 1 {
        let rest = (width - 2 - i) as nat;
        law_be_bytes_digits(n / 256, (width - 1) as nat, i);
        lemma_pow_positive(256, rest);
        lemma_div_denominator(n as int, 256, pow(256, rest));
        assert(pow(256, (width - 1 - i) as nat) == 256 * pow(256, rest));
    } else {
        assert(pow(256, 0) == 1);
    }
}

/// The number that bytes spell has those bytes as its digits, and is too small
/// to have more.
pub proof fn law_be_value_digits(s: Seq<u8>, i: int)
    requires
        0 <= i < s.len(),
    ensures
        s[i] == (be_value(s) as int / pow(256, (s.len() - 1 - i) as nat)) % 256,
        be_value(s) < pow(256, s.len()),
{
    law_be_bytes_of_be_value(s);
    law_be_bytes_digits(be_value(s), s.len(), i);
    law_byte_range(s.len());
}

/// The count of numbers that fit in some bytes is a power of the count that fit
/// in one.
pub proof fn law_byte_range(width: nat)
    ensures
        byte_range(width) == pow(256, width),
    decreases width,
{
    reveal(pow);
    if width > 0 {
        law_byte_range((width - 1) as nat);
    }
}

/// What four and what two bytes spell.
pub proof fn law_be_value_of_fields(s: Seq<u8>)
    ensures
        s.len() == 4 ==> be_value(s) == quad(s, 0),
        s.len() == 2 ==> be_value(s) == s[0] * 256 + s[1],
{
    reveal_with_fuel(be_value, 5);
    if s.len() == 4 {
        assert(s.drop_last().drop_last().drop_last().drop_last() =~= Seq::empty());
    }
    if s.len() == 2 {
        assert(s.drop_last().drop_last() =~= Seq::empty());
    }
}

/// Four bytes spell the number whose bytes they are.
pub proof fn law_quad_of_be_bytes(bytes: Seq<u8>, at: int, n: u32)
    requires
        0 <= at,
        at + 4 <= bytes.len(),
        bytes.subrange(at, at + 4) == be_bytes(n as nat, 4),
    ensures
        quad(bytes, at) == n,
{
    let four = bytes.subrange(at, at + 4);
    lemma_u32_range();
    law_be_value_of_be_bytes(n as nat, 4);
    law_be_value_of_fields(four);
    assert(four[0] == bytes[at] && four[1] == bytes[at + 1] && four[2] == bytes[at + 2] && four[3]
        == bytes[at + 3]);
}

/// A machine word is as many bytes as it has eights of bits.
pub proof fn law_word_width()
    ensures
        8 * word_width() == usize::BITS,
{
}

/// Zero bytes are as many as asked for, and zero.
pub proof fn law_zeros(n: nat)
    ensures
        zeros(n).len() == n,
        forall|i: int| 0 <= i < n ==> #[trigger] zeros(n)[i] == 0,
{
}

} // verus!
