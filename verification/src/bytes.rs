//! Big-endian byte assembly: the container stores its sizes, timestamps and
//! stream ids as 24- or 32-bit big-endian fields.

use vstd::prelude::*;
use vstd::arithmetic::div_mod::{
    lemma_fundamental_div_mod, lemma_fundamental_div_mod_converse, lemma_div_denominator,
    lemma_small_mod,
};

verus! {

/// The value of a byte sequence read big-endian: the first byte is the most
/// significant.
pub open spec fn be_of(b: Seq<u8>) -> nat
    decreases b.len(),
{
    if b.len() == 0 {
        0
    } else {
        be_of(b.drop_last()) * 256 + b.last() as nat
    }
}

/// The three big-endian bytes of a value below 2^24.
pub open spec fn be24_bytes(n: u32) -> Seq<u8> {
    seq![((n / 0x10000) % 0x100) as u8, ((n / 0x100) % 0x100) as u8, (n % 0x100) as u8]
}

/// The four big-endian bytes of a 32-bit value.
pub open spec fn be32_bytes(n: u32) -> Seq<u8> {
    seq![
        ((n / 0x1000000) % 0x100) as u8,
        ((n / 0x10000) % 0x100) as u8,
        ((n / 0x100) % 0x100) as u8,
        (n % 0x100) as u8,
    ]
}

/// A big-endian value is bounded by 256 to the power of its byte count.
pub proof fn lemma_be_of_bound(b: Seq<u8>)
    ensures
        b.len() == 0 ==> be_of(b) == 0,
        b.len() <= 1 ==> be_of(b) < 0x100,
        b.len() <= 2 ==> be_of(b) < 0x10000,
        b.len() <= 3 ==> be_of(b) < 0x1000000,
        b.len() <= 4 ==> be_of(b) < 0x100000000,
    decreases b.len(),
{
    if b.len() > 0 {
        lemma_be_of_bound(b.drop_last());
    }
}

/// Spells out the big-endian value of exactly three bytes.
pub proof fn lemma_be_of_three(s: Seq<u8>)
    requires
        s.len() == 3,
    ensures
        be_of(s) == (s[0] as nat) * 0x10000 + (s[1] as nat) * 0x100 + s[2] as nat,
{
    let s01 = s.drop_last();
    let s0 = s01.drop_last();
    assert(s0.drop_last().len() == 0);
    assert(be_of(s0.drop_last()) == 0);
    assert(be_of(s0) == s[0] as nat);
    assert(be_of(s01) == (s[0] as nat) * 256 + s[1] as nat);
    assert(be_of(s) == ((s[0] as nat) * 256 + s[1] as nat) * 256 + s[2] as nat);
}

/// Spells out the big-endian value of exactly four bytes.
pub proof fn lemma_be_of_four(s: Seq<u8>)
    requires
        s.len() == 4,
    ensures
        be_of(s) == (s[0] as nat) * 0x1000000 + (s[1] as nat) * 0x10000 + (s[2] as nat) * 0x100
            + s[3] as nat,
{
    let s012 = s.drop_last();
    lemma_be_of_three(s012);
    assert(be_of(s) == ((s[0] as nat) * 0x10000 + (s[1] as nat) * 0x100 + s[2] as nat) * 256
        + s[3] as nat);
}

/// Reading back the three big-endian bytes of a value below 2^24 yields the
/// value.
pub proof fn lemma_be_of_be24(n: u32)
    requires
        n < 0x1000000,
    ensures
        be_of(be24_bytes(n)) == n,
{
    let b = be24_bytes(n);
    lemma_be_of_three(b);
    lemma_fundamental_div_mod(n as int, 0x100);
    lemma_fundamental_div_mod(n as int / 0x100, 0x100);
    lemma_div_denominator(n as int, 0x100, 0x100);
    assert(n as int / 0x10000 == n as int / 0x100 / 0x100);
    lemma_small_mod((n as int / 0x10000) as nat, 0x100);
}

/// Reading back the four big-endian bytes of a value yields the value.
pub proof fn lemma_be_of_be32(n: u32)
    ensures
        be_of(be32_bytes(n)) == n,
{
    let b = be32_bytes(n);
    lemma_be_of_four(b);
    lemma_fundamental_div_mod(n as int, 0x100);
    lemma_fundamental_div_mod(n as int / 0x100, 0x100);
    lemma_fundamental_div_mod(n as int / 0x100 / 0x100, 0x100);
    lemma_div_denominator(n as int, 0x100, 0x100);
    lemma_div_denominator(n as int / 0x100, 0x100, 0x100);
    assert(n as int / 0x10000 == n as int / 0x100 / 0x100);
    assert(n as int / 0x1000000 == n as int / 0x10000 / 0x100);
    lemma_small_mod((n as int / 0x1000000) as nat, 0x100);
}

/// Three big-endian bytes are recovered from the value they encode.
pub proof fn lemma_be24_of_be_of(s: Seq<u8>)
    requires
        s.len() == 3,
    ensures
        be_of(s) < 0x1000000,
        be24_bytes(be_of(s) as u32) == s,
{
    lemma_be_of_bound(s);
    lemma_be_of_three(s);
    let n = be_of(s) as int;
    let q1 = (s[0] as int) * 0x100 + s[1] as int;
    lemma_fundamental_div_mod_converse(n, 0x100, q1, s[2] as int);
    lemma_fundamental_div_mod_converse(q1, 0x100, s[0] as int, s[1] as int);
    lemma_div_denominator(n, 0x100, 0x100);
    assert(n / 0x10000 == q1 / 0x100);
    lemma_small_mod(s[0] as nat, 0x100);
    assert(be24_bytes(be_of(s) as u32) =~= s);
}

/// The big-endian value of a slice of at most four bytes.
pub fn be_bytes_to_u32(bytes: &[u8]) -> (r: u32)
    requires
        bytes@.len() <= 4,
    ensures
        r == be_of(bytes@),
{
    let len = bytes.len();
    let mut r: u32 = 0;
    let mut i: usize = 0;
    proof {
        assert(bytes@.subrange(0, 0) =~= Seq::<u8>::empty());
    }
    while i < len
        invariant
            i <= len,
            len == bytes@.len() <= 4,
            r == be_of(bytes@.subrange(0, i as int)),
        decreases len - i,
    {
        proof {
            lemma_be_of_bound(bytes@.subrange(0, i as int));
            assert(bytes@.subrange(0, i + 1).drop_last() =~= bytes@.subrange(0, i as int));
        }
        r = r * 256 + bytes[i] as u32;
        i = i + 1;
    }
    proof {
        assert(bytes@.subrange(0, len as int) =~= bytes@);
    }
    r
}

/// Appends the three big-endian bytes of a value below 2^24.
pub fn push_be24(out: &mut Vec<u8>, n: u32)
    requires
        n < 0x1000000,
    ensures
        final(out)@ == old(out)@ + be24_bytes(n),
{
    out.push(((n / 0x10000) % 0x100) as u8);
    out.push(((n / 0x100) % 0x100) as u8);
    out.push((n % 0x100) as u8);
    proof {
        assert(out@ =~= old(out)@ + be24_bytes(n));
    }
}

/// Appends the four big-endian bytes of a 32-bit value.
pub fn push_be32(out: &mut Vec<u8>, n: u32)
    ensures
        final(out)@ == old(out)@ + be32_bytes(n),
{
    out.push(((n / 0x1000000) % 0x100) as u8);
    out.push(((n / 0x10000) % 0x100) as u8);
    out.push(((n / 0x100) % 0x100) as u8);
    out.push((n % 0x100) as u8);
    proof {
        assert(out@ =~= old(out)@ + be32_bytes(n));
    }
}

} // verus!
