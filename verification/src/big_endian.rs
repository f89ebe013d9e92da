//! Big-endian byte encodings of the fixed-width integers in the binary
//! format, with the proofs that writing and reading them back is the
//! identity.

use vstd::prelude::*;
use vstd::arithmetic::div_mod::{lemma_fundamental_div_mod, lemma_div_denominator};

verus! {

/// The four big-endian bytes of a 32-bit value, most significant first.
pub open spec fn spec_be32(x: u32) -> Seq<u8> {
    seq![
        (x / 0x1000000 % 256) as u8,
        (x / 0x10000 % 256) as u8,
        (x / 0x100 % 256) as u8,
        (x % 256) as u8,
    ]
}

/// The eight big-endian bytes of a 64-bit value, most significant first.
pub open spec fn spec_be64(x: u64) -> Seq<u8> {
    seq![
        (x / 0x100000000000000 % 256) as u8,
        (x / 0x1000000000000 % 256) as u8,
        (x / 0x10000000000 % 256) as u8,
        (x / 0x100000000 % 256) as u8,
        (x / 0x1000000 % 256) as u8,
        (x / 0x10000 % 256) as u8,
        (x / 0x100 % 256) as u8,
        (x % 256) as u8,
    ]
}

/// The value of four big-endian bytes.
pub open spec fn be_val32(s: Seq<u8>) -> nat
    recommends
        s.len() == 4,
{
    (((s[0] * 256 + s[1]) * 256 + s[2]) * 256 + s[3]) as nat
}

/// The value of eight big-endian bytes.
pub open spec fn be_val64(s: Seq<u8>) -> nat
    recommends
        s.len() == 8,
{
    (((((((s[0] * 256 + s[1]) * 256 + s[2]) * 256 + s[3]) * 256 + s[4]) * 256 + s[5]) * 256 + s[6])
        * 256 + s[7]) as nat
}

/// Reading back the four bytes of a 32-bit value gives the value.
pub proof fn lemma_be32_val(x: u32)
    ensures
        be_val32(spec_be32(x)) == x,
{
    let xi = x as int;
    lemma_fundamental_div_mod(xi, 256);
    lemma_fundamental_div_mod(xi / 256, 256);
    lemma_fundamental_div_mod(xi / 65536, 256);
    lemma_div_denominator(xi, 256, 256);
    lemma_div_denominator(xi, 65536, 256);
    vstd::arithmetic::div_mod::lemma_div_is_ordered(xi, 0xffffffff, 0x1000000);
    assert(xi / 0x1000000 % 256 == xi / 0x1000000) by {
        vstd::arithmetic::div_mod::lemma_small_mod((xi / 0x1000000) as nat, 256);
    }
}

/// Reading back the eight bytes of a 64-bit value gives the value.
pub proof fn lemma_be64_val(x: u64)
    ensures
        be_val64(spec_be64(x)) == x,
{
    let xi = x as int;
    lemma_fundamental_div_mod(xi, 256);
    lemma_fundamental_div_mod(xi / 0x100, 256);
    lemma_fundamental_div_mod(xi / 0x10000, 256);
    lemma_fundamental_div_mod(xi / 0x1000000, 256);
    lemma_fundamental_div_mod(xi / 0x100000000, 256);
    lemma_fundamental_div_mod(xi / 0x10000000000, 256);
    lemma_fundamental_div_mod(xi / 0x1000000000000, 256);
    lemma_div_denominator(xi, 0x100, 256);
    lemma_div_denominator(xi, 0x10000, 256);
    lemma_div_denominator(xi, 0x1000000, 256);
    lemma_div_denominator(xi, 0x100000000, 256);
    lemma_div_denominator(xi, 0x10000000000, 256);
    lemma_div_denominator(xi, 0x1000000000000, 256);
    vstd::arithmetic::div_mod::lemma_div_is_ordered(xi, 0xffffffffffffffff, 0x100000000000000);
    assert(xi / 0x100000000000000 % 256 == xi / 0x100000000000000) by {
        vstd::arithmetic::div_mod::lemma_small_mod((xi / 0x100000000000000) as nat, 256);
    }
}

/// Appends the four big-endian bytes of a 32-bit value.
pub fn push_be32(out: &mut Vec<u8>, x: u32)
    ensures
        final(out)@ == old(out)@ + spec_be32(x),
{
    out.push((x / 0x1000000 % 256) as u8);
    out.push((x / 0x10000 % 256) as u8);
    out.push((x / 0x100 % 256) as u8);
    out.push((x % 256) as u8);
    proof {
        assert(out@ =~= old(out)@ + spec_be32(x));
    }
}

/// Appends the eight big-endian bytes of a 64-bit value.
pub fn push_be64(out: &mut Vec<u8>, x: u64)
    ensures
        final(out)@ == old(out)@ + spec_be64(x),
{
    out.push((x / 0x100000000000000 % 256) as u8);
    out.push((x / 0x1000000000000 % 256) as u8);
    out.push((x / 0x10000000000 % 256) as u8);
    out.push((x / 0x100000000 % 256) as u8);
    out.push((x / 0x1000000 % 256) as u8);
    out.push((x / 0x10000 % 256) as u8);
    out.push((x / 0x100 % 256) as u8);
    out.push((x % 256) as u8);
    proof {
        assert(out@ =~= old(out)@ + spec_be64(x));
    }
}

/// Reads the 32-bit value of four big-endian bytes at an offset.
pub fn read_be32(s: &[u8], off: usize) -> (r: u32)
    requires
        off + 4 <= s@.len(),
    ensures
        r as nat == be_val32(s@.subrange(off as int, off + 4)),
{
    let b0 = s[off] as u32;
    let b1 = s[off + 1] as u32;
    let b2 = s[off + 2] as u32;
    let b3 = s[off + 3] as u32;
    let r = ((b0 * 256 + b1) * 256 + b2) * 256 + b3;
    proof {
        let sub = s@.subrange(off as int, off + 4);
        assert(sub[0] == s@[off as int] && sub[1] == s@[off + 1] && sub[2] == s@[off + 2] && sub[3]
            == s@[off + 3]);
    }
    r
}

/// Reads the 64-bit value of eight big-endian bytes at an offset.
pub fn read_be64(s: &[u8], off: usize) -> (r: u64)
    requires
        off + 8 <= s@.len(),
    ensures
        r as nat == be_val64(s@.subrange(off as int, off + 8)),
{
    let b0 = s[off] as u64;
    let b1 = s[off + 1] as u64;
    let b2 = s[off + 2] as u64;
    let b3 = s[off + 3] as u64;
    let b4 = s[off + 4] as u64;
    let b5 = s[off + 5] as u64;
    let b6 = s[off + 6] as u64;
    let b7 = s[off + 7] as u64;
    let r = ((((((b0 * 256 + b1) * 256 + b2) * 256 + b3) * 256 + b4) * 256 + b5) * 256 + b6) * 256
        + b7;
    proof {
        let sub = s@.subrange(off as int, off + 8);
        assert(sub[0] == s@[off as int] && sub[1] == s@[off + 1] && sub[2] == s@[off + 2] && sub[3]
            == s@[off + 3] && sub[4] == s@[off + 4] && sub[5] == s@[off + 5] && sub[6] == s@[off + 6]
            && sub[7] == s@[off + 7]);
    }
    r
}

/// Casting a signed 64-bit value to unsigned and back is the identity: the
/// binary format stores amounts in two's complement.
pub proof fn lemma_i64_cast_round_trip(x: i64)
    ensures
        (x as u64) as i64 == x,
{
    assert((x as u64) as i64 == x) by (bit_vector);
}

} // verus!
