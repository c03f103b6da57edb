//! Fixed-width big-endian integers on the wire.
//!
//! Every numeric field of the frame format is encoded as a fixed-width
//! big-endian integer. This module gives the byte-level meaning of those
//! fields and verified readers and writers for them.

use vstd::prelude::*;

verus! {

use vstd::arithmetic::div_mod::lemma_fundamental_div_mod;
use vstd::arithmetic::div_mod::lemma_div_denominator;

/// The value of the 4-byte big-endian integer at position `i` of `s`.
pub open spec fn be32_at(s: Seq<u8>, i: int) -> nat
    recommends
        0 <= i,
        i + 4 <= s.len(),
{
    (s[i] as nat) * 0x1000000 + (s[i + 1] as nat) * 0x10000 + (s[i + 2] as nat) * 0x100 + (s[i
        + 3] as nat)
}

/// The value of the 8-byte big-endian integer at position `i` of `s`.
pub open spec fn be64_at(s: Seq<u8>, i: int) -> nat
    recommends
        0 <= i,
        i + 8 <= s.len(),
{
    (s[i] as nat) * 0x100000000000000 + (s[i + 1] as nat) * 0x1000000000000 + (s[i
        + 2] as nat) * 0x10000000000 + (s[i + 3] as nat) * 0x100000000 + (s[i + 4] as nat)
        * 0x1000000 + (s[i + 5] as nat) * 0x10000 + (s[i + 6] as nat) * 0x100 + (s[i + 7] as nat)
}

/// The 4-byte big-endian encoding of `n`.
pub open spec fn be32_bytes(n: nat) -> Seq<u8>
    recommends
        n < 0x100000000,
{
    seq![
        ((n / 0x1000000) % 0x100) as u8,
        ((n / 0x10000) % 0x100) as u8,
        ((n / 0x100) % 0x100) as u8,
        (n % 0x100) as u8,
    ]
}

/// The 8-byte big-endian encoding of `n`.
pub open spec fn be64_bytes(n: nat) -> Seq<u8>
    recommends
        n < 0x10000000000000000,
{
    seq![
        ((n / 0x100000000000000) % 0x100) as u8,
        ((n / 0x1000000000000) % 0x100) as u8,
        ((n / 0x10000000000) % 0x100) as u8,
        ((n / 0x100000000) % 0x100) as u8,
        ((n / 0x1000000) % 0x100) as u8,
        ((n / 0x10000) % 0x100) as u8,
        ((n / 0x100) % 0x100) as u8,
        (n % 0x100) as u8,
    ]
}

/// A value below `0x100 * k` has all its base-256 digits above position `k` zero.
proof fn lemma_digit_split(n: nat, c: nat)
    requires
        0 < c,
    ensures
        n == c * (n / c) + n % c,
        n % c < c,
{
    lemma_fundamental_div_mod(n as int, c as int);
}

/// Decoding the 4-byte big-endian encoding of `n` gives back `n`.
pub proof fn lemma_be32_roundtrip(n: nat)
    requires
        n < 0x100000000,
    ensures
        be32_bytes(n).len() == 4,
        be32_at(be32_bytes(n), 0) == n,
{
    lemma_digit_split(n, 0x100);
    lemma_digit_split(n / 0x100, 0x100);
    lemma_digit_split(n / 0x10000, 0x100);
    lemma_div_denominator(n as int, 0x100, 0x100);
    lemma_div_denominator(n as int, 0x10000, 0x100);
    assert(n / 0x1000000 < 0x100) by (nonlinear_arith)
        requires
            n < 0x100000000,
    ;
    assert((n / 0x1000000) % 0x100 == n / 0x1000000) by {
        vstd::arithmetic::div_mod::lemma_small_mod((n / 0x1000000) as nat, 0x100);
    }
}

/// Decoding the 8-byte big-endian encoding of `n` gives back `n`.
pub proof fn lemma_be64_roundtrip(n: nat)
    requires
        n < 0x10000000000000000,
    ensures
        be64_bytes(n).len() == 8,
        be64_at(be64_bytes(n), 0) == n,
{
    lemma_digit_split(n, 0x100);
    lemma_digit_split(n / 0x100, 0x100);
    lemma_digit_split(n / 0x10000, 0x100);
    lemma_digit_split(n / 0x1000000, 0x100);
    lemma_digit_split(n / 0x100000000, 0x100);
    lemma_digit_split(n / 0x10000000000, 0x100);
    lemma_digit_split(n / 0x1000000000000, 0x100);
    lemma_div_denominator(n as int, 0x100, 0x100);
    lemma_div_denominator(n as int, 0x10000, 0x100);
    lemma_div_denominator(n as int, 0x1000000, 0x100);
    lemma_div_denominator(n as int, 0x100000000, 0x100);
    lemma_div_denominator(n as int, 0x10000000000, 0x100);
    lemma_div_denominator(n as int, 0x1000000000000, 0x100);
    assert(n / 0x100000000000000 < 0x100) by (nonlinear_arith)
        requires
            n < 0x10000000000000000,
    ;
    assert((n / 0x100000000000000) % 0x100 == n / 0x100000000000000) by {
        vstd::arithmetic::div_mod::lemma_small_mod((n / 0x100000000000000) as nat, 0x100);
    }
}

/// Reads the 4-byte big-endian integer at position `i` of `s`.
pub fn read_be32(s: &[u8], i: usize) -> (r: u32)
    requires
        i + 4 <= s@.len(),
    ensures
        r as nat == be32_at(s@, i as int),
{
    (s[i] as u32) * 0x1000000 + (s[i + 1] as u32) * 0x10000 + (s[i + 2] as u32) * 0x100 + (s[i
        + 3] as u32)
}

/// Reads the 8-byte big-endian integer at position `i` of `s`.
pub fn read_be64(s: &[u8], i: usize) -> (r: u64)
    requires
        i + 8 <= s@.len(),
    ensures
        r as nat == be64_at(s@, i as int),
{
    (s[i] as u64) * 0x100000000000000 + (s[i + 1] as u64) * 0x1000000000000 + (s[i
        + 2] as u64) * 0x10000000000 + (s[i + 3] as u64) * 0x100000000 + (s[i + 4] as u64)
        * 0x1000000 + (s[i + 5] as u64) * 0x10000 + (s[i + 6] as u64) * 0x100 + (s[i + 7] as u64)
}

/// Appends the 4-byte big-endian encoding of `n` to `out`.
pub fn push_be32(out: &mut Vec<u8>, n: u32)
    ensures
        final(out)@ == old(out)@ + be32_bytes(n as nat),
{
    out.push((n / 0x1000000) as u8);
    out.push(((n / 0x10000) % 0x100) as u8);
    out.push(((n / 0x100) % 0x100) as u8);
    out.push((n % 0x100) as u8);
    proof {
        assert((n as nat / 0x1000000) % 0x100 == n as nat / 0x1000000) by {
            vstd::arithmetic::div_mod::lemma_small_mod((n as nat / 0x1000000) as nat, 0x100);
        }
        assert(final(out)@ =~= old(out)@ + be32_bytes(n as nat));
    }
}

/// Appends the 8-byte big-endian encoding of `n` to `out`.
pub fn push_be64(out: &mut Vec<u8>, n: u64)
    ensures
        final(out)@ == old(out)@ + be64_bytes(n as nat),
{
    out.push((n / 0x100000000000000) as u8);
    out.push(((n / 0x1000000000000) % 0x100) as u8);
    out.push(((n / 0x10000000000) % 0x100) as u8);
    out.push(((n / 0x100000000) % 0x100) as u8);
    out.push(((n / 0x1000000) % 0x100) as u8);
    out.push(((n / 0x10000) % 0x100) as u8);
    out.push(((n / 0x100) % 0x100) as u8);
    out.push((n % 0x100) as u8);
    proof {
        assert((n as nat / 0x100000000000000) % 0x100 == n as nat / 0x100000000000000) by {
            vstd::arithmetic::div_mod::lemma_small_mod(
                (n as nat / 0x100000000000000) as nat,
                0x100,
            );
        }
        assert(final(out)@ =~= old(out)@ + be64_bytes(n as nat));
    }
}

} // verus!
