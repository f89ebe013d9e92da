//! Decimal text for 64-bit integers: the digit strings the text codecs
//! write, and the grammar they accept back.  The grammar is plain base-10:
//! digits only, an optional leading minus sign for signed values, no leading
//! plus sign, and no separators.

use vstd::prelude::*;

verus! {

/// True of the ASCII digit bytes `0` through `9`.
pub open spec fn is_digit(b: u8) -> bool {
    48 <= b && b <= 57
}

/// A non-empty, all-digit byte sequence.
pub open spec fn all_digits(s: Seq<u8>) -> bool {
    s.len() > 0 && forall|i: int| 0 <= i < s.len() ==> is_digit(#[trigger] s[i])
}

/// The numeric value of a digit sequence, most significant digit first.
pub open spec fn dec_val(s: Seq<u8>) -> nat
    decreases s.len(),
{
    if s.len() == 0 {
        0
    } else {
        dec_val(s.drop_last()) * 10 + (if is_digit(s.last()) {
            (s.last() - 48) as nat
        } else {
            0
        })
    }
}

/// The canonical digit string of a natural number: no leading zeros, except
/// that zero itself is the single digit `0`.
pub open spec fn spec_u64_digits(n: nat) -> Seq<u8>
    decreases n,
{
    if n < 10 {
        seq![(48 + n) as u8]
    } else {
        spec_u64_digits(n / 10).push((48 + n % 10) as u8)
    }
}

/// The digit string of a signed value: a minus sign before the magnitude
/// when it is negative.
pub open spec fn spec_i64_digits(v: i64) -> Seq<u8> {
    if v >= 0 {
        spec_u64_digits(v as nat)
    } else {
        seq![45u8] + spec_u64_digits((-(v as int)) as nat)
    }
}

/// The unsigned value a token parses to: defined exactly when the token is
/// all digits and the value fits in 64 bits.
pub open spec fn spec_parse_u64(s: Seq<u8>) -> Option<u64> {
    if all_digits(s) && dec_val(s) <= u64::MAX {
        Some(dec_val(s) as u64)
    } else {
        None
    }
}

/// The signed value a token parses to: an optional leading minus sign, then
/// digits, the result fitting in a signed 64-bit value.
pub open spec fn spec_parse_i64(s: Seq<u8>) -> Option<i64> {
    if s.len() > 0 && s[0] == 45 {
        let m = s.subrange(1, s.len() as int);
        if all_digits(m) && dec_val(m) <= 0x8000000000000000 {
            Some((-(dec_val(m) as int)) as i64)
        } else {
            None
        }
    } else {
        if all_digits(s) && dec_val(s) <= i64::MAX {
            Some(dec_val(s) as i64)
        } else {
            None
        }
    }
}

/// Every canonical digit string is non-empty and all digits.
pub proof fn lemma_digits_shape(n: nat)
    ensures
        all_digits(spec_u64_digits(n)),
    decreases n,
{
    if n >= 10 {
        lemma_digits_shape(n / 10);
        let d = spec_u64_digits(n);
        assert(forall|i: int|
            0 <= i < d.len() - 1 ==> d[i] == #[trigger] spec_u64_digits(n / 10)[i]);
    }
}

/// Formatting then evaluating a natural number gives it back.
pub proof fn lemma_dec_val_of_digits(n: nat)
    ensures
        dec_val(spec_u64_digits(n)) == n,
    decreases n,
{
    if n < 10 {
        let s = spec_u64_digits(n);
        assert(s.drop_last() =~= Seq::<u8>::empty());
        assert(s.last() == (48 + n) as u8);
        assert(is_digit(s.last()));
        assert(dec_val(s) == dec_val(s.drop_last()) * 10 + ((s.last() - 48) as nat));
        assert(dec_val(s.drop_last()) == 0);
        assert(((s.last() - 48) as nat) == n);
    } else {
        lemma_dec_val_of_digits(n / 10);
        let s = spec_u64_digits(n);
        assert(s.drop_last() =~= spec_u64_digits(n / 10));
        vstd::arithmetic::div_mod::lemma_fundamental_div_mod(n as int, 10);
    }
}

/// The value of a digit prefix never exceeds the value of the whole.
pub proof fn lemma_dec_val_monotone(s: Seq<u8>, j: int)
    requires
        0 <= j <= s.len(),
    ensures
        dec_val(s.take(j)) <= dec_val(s),
    decreases s.len() - j,
{
    if j < s.len() {
        lemma_dec_val_monotone(s, j + 1);
        assert(s.take(j + 1).drop_last() =~= s.take(j));
        assert(dec_val(s.take(j)) <= dec_val(s.take(j + 1)));
    } else {
        assert(s.take(j) =~= s);
    }
}


/// Parsing the canonical digit string of an unsigned value gives it back.
pub proof fn lemma_parse_format_u64(n: u64)
    ensures
        spec_parse_u64(spec_u64_digits(n as nat)) == Some(n),
{
    lemma_digits_shape(n as nat);
    lemma_dec_val_of_digits(n as nat);
}

/// Parsing the canonical digit string of a signed value gives it back.
pub proof fn lemma_parse_format_i64(v: i64)
    ensures
        spec_parse_i64(spec_i64_digits(v)) == Some(v),
{
    if v >= 0 {
        let s = spec_i64_digits(v);
        lemma_digits_shape(v as nat);
        lemma_dec_val_of_digits(v as nat);
        assert(is_digit(s[0]));
        assert(s[0] != 45);
    } else {
        let m = (-(v as int)) as nat;
        let s = spec_i64_digits(v);
        lemma_digits_shape(m);
        lemma_dec_val_of_digits(m);
        assert(s[0] == 45);
        assert(s.subrange(1, s.len() as int) =~= spec_u64_digits(m));
        assert(m <= 0x8000000000000000);
        assert((-(m as int)) as i64 == v);
    }
}

/// Writes the decimal digits of an unsigned value.
pub fn format_u64(n: u64) -> (r: Vec<u8>)
    ensures
        r@ == spec_u64_digits(n as nat),
{
    let mut low: Vec<u8> = Vec::new();
    let mut m: u64 = n;
    proof {
        assert(spec_u64_digits(n as nat) =~= spec_u64_digits(m as nat) + low@.reverse());
    }
    while m >= 10
        invariant
            spec_u64_digits(n as nat) == spec_u64_digits(m as nat) + low@.reverse(),
        decreases m,
    {
        let d: u8 = (m % 10) as u8 + 48;
        let ghost pre = low@;
        low.push(d);
        m = m / 10;
        proof {
            assert(low@.reverse() =~= seq![d] + pre.reverse());
            assert(spec_u64_digits(n as nat) =~= spec_u64_digits(m as nat) + low@.reverse());
        }
    }
    let mut r: Vec<u8> = Vec::new();
    r.push(m as u8 + 48);
    proof {
        assert(r@ =~= spec_u64_digits(m as nat));
    }
    while low.len() > 0
        invariant
            spec_u64_digits(n as nat) == r@ + low@.reverse(),
        decreases low@.len(),
    {
        let ghost prelow = low@;
        let ghost prer = r@;
        let d: u8 = low.pop().unwrap();
        r.push(d);
        proof {
            assert(r@ + low@.reverse() =~= prer + prelow.reverse());
        }
    }
    proof {
        assert(spec_u64_digits(n as nat) =~= r@);
    }
    r
}

/// Writes the decimal digits of a signed value, with a minus sign when it
/// is negative.
pub fn format_i64(v: i64) -> (r: Vec<u8>)
    ensures
        r@ == spec_i64_digits(v),
{
    if v >= 0 {
        format_u64(v as u64)
    } else {
        let mag: u64 = if v == i64::MIN {
            0x8000000000000000u64
        } else {
            (-v) as u64
        };
        proof {
            assert(mag as nat == (-(v as int)) as nat);
        }
        let mut r: Vec<u8> = Vec::new();
        r.push(45);
        let digits = format_u64(mag);
        crate::ascii::push_all(&mut r, digits.as_slice());
        proof {
            assert(r@ =~= spec_i64_digits(v));
        }
        r
    }
}

/// Parses an unsigned decimal token: digits only, value at most `u64::MAX`.
pub fn parse_u64(s: &[u8]) -> (r: Option<u64>)
    ensures
        r == spec_parse_u64(s@),
{
    if s.len() == 0 {
        return None;
    }
    let mut acc: u64 = 0;
    let mut i: usize = 0;
    while i < s.len()
        invariant
            0 < s@.len(),
            i <= s@.len(),
            forall|j: int| 0 <= j < i ==> is_digit(#[trigger] s@[j]),
            acc as nat == dec_val(s@.take(i as int)),
        decreases s@.len() - i,
    {
        let b: u8 = s[i];
        if b < 48 || b > 57 {
            return None;
        }
        let d: u64 = (b - 48) as u64;
        proof {
            assert(s@.take(i + 1).drop_last() =~= s@.take(i as int));
        }
        if acc > (u64::MAX - d) / 10 {
            proof {
                lemma_dec_val_monotone(s@, i + 1);
            }
            return None;
        }
        acc = acc * 10 + d;
        i = i + 1;
    }
    proof {
        assert(s@.take(s@.len() as int) =~= s@);
    }
    Some(acc)
}

/// Parses a signed decimal token: an optional leading minus sign, then
/// digits, the value fitting in a signed 64-bit integer.
pub fn parse_i64(s: &[u8]) -> (r: Option<i64>)
    ensures
        r == spec_parse_i64(s@),
{
    if s.len() > 0 && s[0] == 45 {
        let mag = parse_u64_from(s, 1);
        match mag {
            None => None,
            Some(m) => {
                if m > 0x8000000000000000u64 {
                    None
                } else if m == 0x8000000000000000u64 {
                    Some(i64::MIN)
                } else {
                    Some(-(m as i64))
                }
            },
        }
    } else {
        match parse_u64(s) {
            None => None,
            Some(m) => {
                if m > i64::MAX as u64 {
                    None
                } else {
                    Some(m as i64)
                }
            },
        }
    }
}

/// Parses the digits of a slice from an offset on, as [`parse_u64`] does on
/// the whole.
fn parse_u64_from(s: &[u8], from: usize) -> (r: Option<u64>)
    requires
        from <= s@.len(),
    ensures
        r == spec_parse_u64(s@.subrange(from as int, s@.len() as int)),
{
    let sub = crate::ascii::copy_range(s, from, s.len());
    parse_u64(sub.as_slice())
}

} // verus!
