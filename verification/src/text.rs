//! The bridge between byte streams and `String` values.  The codecs work on
//! bytes; descriptions and diagnostic payloads cross into `String` here,
//! specified by vstd's UTF-8 model (`encode_utf8` / `decode_utf8`).

use vstd::prelude::*;
use vstd::utf8::{
    valid_utf8, decode_utf8, encode_utf8, decode_utf8_encode_utf8, partial_valid_utf8,
    partial_valid_utf8_extend_ascii_block, is_leading_byte_width_1,
};

use crate::ascii::push_all;
use vstd::string::StrSliceExecFns;

verus! {

/// Relies on `String::from_utf8`: it returns the string whose UTF-8
/// encoding is the given bytes exactly when the bytes are valid UTF-8, and
/// fails exactly otherwise.
#[verifier::external_body]
pub fn bytes_to_string(v: Vec<u8>) -> (r: Option<String>)
    ensures
        r matches Some(s) ==> valid_utf8(v@) && s@ == decode_utf8(v@),
        r is None ==> !valid_utf8(v@),
{
    String::from_utf8(v).ok()
}

/// Decoding valid bytes and re-encoding the characters gives the bytes
/// back.
pub proof fn lemma_decode_then_encode(b: Seq<u8>)
    requires
        valid_utf8(b),
    ensures
        encode_utf8(decode_utf8(b)) == b,
{
    decode_utf8_encode_utf8(b);
}

/// A sequence of ASCII bytes is valid UTF-8.
pub proof fn lemma_ascii_valid_utf8(b: Seq<u8>)
    requires
        forall|i: int| 0 <= i < b.len() ==> #[trigger] b[i] < 0x80,
    ensures
        valid_utf8(b),
{
    assert(b.subrange(0, 0) =~= Seq::<u8>::empty());
    assert(partial_valid_utf8(b, 0));
    assert(forall|i: int| 0 <= i < b.len() ==> #[trigger] is_leading_byte_width_1(b[i]));
    partial_valid_utf8_extend_ascii_block(b, 0, b.len() as int);
    assert(b.subrange(0, b.len() as int) =~= b);
}

/// Turns a vector of ASCII bytes into the string they spell.
pub fn ascii_to_string(v: Vec<u8>) -> (r: String)
    requires
        forall|i: int| 0 <= i < v@.len() ==> #[trigger] v@[i] < 0x80,
    ensures
        r@ == decode_utf8(v@),
        encode_utf8(r@) == v@,
{
    proof {
        lemma_ascii_valid_utf8(v@);
    }
    let ghost bytes = v@;
    match bytes_to_string(v) {
        Some(s) => {
            proof {
                lemma_decode_then_encode(bytes);
            }
            s
        },
        None => vstd::pervasive::unreached(),
    }
}

/// True of the ASCII whitespace characters.
pub open spec fn is_ws_char(c: char) -> bool {
    c == ' ' || c == '\t' || c == '\n' || c == '\r' || c == '\u{b}' || c == '\u{c}'
}

/// The character sequence without its leading ASCII whitespace.
pub open spec fn trim_front_chars(s: Seq<char>) -> Seq<char>
    decreases s.len(),
{
    if s.len() > 0 && is_ws_char(s[0]) {
        trim_front_chars(s.drop_first())
    } else {
        s
    }
}

/// The character sequence without its trailing ASCII whitespace.
pub open spec fn trim_back_chars(s: Seq<char>) -> Seq<char>
    decreases s.len(),
{
    if s.len() > 0 && is_ws_char(s.last()) {
        trim_back_chars(s.drop_last())
    } else {
        s
    }
}

/// The character sequence without leading and trailing ASCII whitespace.
pub open spec fn trim_chars(s: Seq<char>) -> Seq<char> {
    trim_back_chars(trim_front_chars(s))
}

/// Executable ASCII whitespace test on a character.
pub fn is_ws_char_exec(c: char) -> (r: bool)
    ensures
        r == is_ws_char(c),
{
    c == ' ' || c == '\t' || c == '\n' || c == '\r' || c == '\u{b}' || c == '\u{c}'
}

/// Trims leading and trailing ASCII whitespace from a string.
pub fn trim_str(s: &str) -> (r: String)
    ensures
        r@ == trim_chars(s@),
{
    let n = s.unicode_len();
    let mut from: usize = 0;
    proof {
        assert(s@.subrange(0, s@.len() as int) =~= s@);
    }
    while from < n && is_ws_char_exec(s.get_char(from))
        invariant
            n == s@.len(),
            from <= n,
            trim_front_chars(s@.subrange(from as int, s@.len() as int)) == trim_front_chars(s@),
        decreases n - from,
    {
        proof {
            let rest = s@.subrange(from as int, s@.len() as int);
            assert(rest.drop_first() =~= s@.subrange(from + 1, s@.len() as int));
        }
        from = from + 1;
    }
    proof {
        let rest = s@.subrange(from as int, s@.len() as int);
        assert(trim_front_chars(rest) == rest);
    }
    let mut to: usize = n;
    while to > from && is_ws_char_exec(s.get_char(to - 1))
        invariant
            n == s@.len(),
            from <= to <= n,
            trim_front_chars(s@) == s@.subrange(from as int, s@.len() as int),
            trim_back_chars(s@.subrange(from as int, to as int)) == trim_chars(s@),
        decreases to,
    {
        proof {
            let cur = s@.subrange(from as int, to as int);
            assert(cur.drop_last() =~= s@.subrange(from as int, to - 1));
        }
        to = to - 1;
    }
    proof {
        let cur = s@.subrange(from as int, to as int);
        assert(trim_back_chars(cur) == cur);
    }
    let piece = s.substring_char(from, to);
    piece.to_owned()
}

/// Byte-for-byte equality of two strings, which coincides with equality of
/// their character sequences.
pub fn str_eq(a: &str, b: &str) -> (r: bool)
    ensures
        r == (a@ == b@),
{
    let r = crate::ascii::eq_bytes(a.as_bytes(), b.as_bytes());
    proof {
        vstd::utf8::encode_utf8_decode_utf8(a@);
        vstd::utf8::encode_utf8_decode_utf8(b@);
    }
    r
}

} // verus!
