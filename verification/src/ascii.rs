//! Byte-level helpers shared by the text codecs: ASCII whitespace trimming,
//! ASCII case folding, byte search, and splitting a byte stream into lines
//! the way a buffered line reader does (splitting on `\n`, dropping one
//! trailing `\r` per line, and not yielding a final empty line).

use vstd::prelude::*;

verus! {

/// True of the ASCII whitespace bytes (tab through carriage return, space).
pub open spec fn is_ws(b: u8) -> bool {
    b == 32 || (9 <= b && b <= 13)
}

/// ASCII lower-casing of one byte; other bytes are unchanged.
pub open spec fn lower(b: u8) -> u8 {
    if 65 <= b && b <= 90 {
        (b + 32) as u8
    } else {
        b
    }
}

/// ASCII upper-casing of one byte; other bytes are unchanged.
pub open spec fn upper(b: u8) -> u8 {
    if 97 <= b && b <= 122 {
        (b - 32) as u8
    } else {
        b
    }
}

/// ASCII lower-casing of a byte sequence.
pub open spec fn lower_all(s: Seq<u8>) -> Seq<u8> {
    s.map_values(|b: u8| lower(b))
}

/// ASCII upper-casing of a byte sequence.
pub open spec fn upper_all(s: Seq<u8>) -> Seq<u8> {
    s.map_values(|b: u8| upper(b))
}

/// The sequence without its leading ASCII whitespace.
pub open spec fn trim_front(s: Seq<u8>) -> Seq<u8>
    decreases s.len(),
{
    if s.len() > 0 && is_ws(s[0]) {
        trim_front(s.drop_first())
    } else {
        s
    }
}

/// The sequence without its trailing ASCII whitespace.
pub open spec fn trim_back(s: Seq<u8>) -> Seq<u8>
    decreases s.len(),
{
    if s.len() > 0 && is_ws(s.last()) {
        trim_back(s.drop_last())
    } else {
        s
    }
}

/// The sequence without leading and trailing ASCII whitespace.
pub open spec fn trim(s: Seq<u8>) -> Seq<u8> {
    trim_back(trim_front(s))
}

/// A line without one trailing carriage return, as a line reader yields it.
pub open spec fn strip_cr(l: Seq<u8>) -> Seq<u8> {
    if l.len() > 0 && l.last() == 13 {
        l.drop_last()
    } else {
        l
    }
}

/// Tail-recursive worker for [`split_lines`]: `cur` is the line being read,
/// `acc` the lines already read.
pub open spec fn lines_rec(s: Seq<u8>, i: int, cur: Seq<u8>, acc: Seq<Seq<u8>>) -> Seq<Seq<u8>>
    decreases s.len() - i,
{
    if i < 0 || i >= s.len() {
        if cur.len() == 0 {
            acc
        } else {
            acc.push(strip_cr(cur))
        }
    } else if s[i] == 10 {
        lines_rec(s, i + 1, Seq::empty(), acc.push(strip_cr(cur)))
    } else {
        lines_rec(s, i + 1, cur.push(s[i]), acc)
    }
}

/// The lines of a byte stream: split on `\n`, one trailing `\r` dropped from
/// each line, and no final empty line after a trailing `\n`.
pub open spec fn split_lines(s: Seq<u8>) -> Seq<Seq<u8>> {
    lines_rec(s, 0, Seq::empty(), Seq::empty())
}

/// Every byte of the sequence satisfies the predicate.
pub open spec fn all_bytes(s: Seq<u8>, p: spec_fn(u8) -> bool) -> bool {
    forall|i: int| 0 <= i < s.len() ==> p(#[trigger] s[i])
}

/// A predicate closed under concatenation.
pub proof fn lemma_all_bytes_concat(a: Seq<u8>, b: Seq<u8>, p: spec_fn(u8) -> bool)
    requires
        all_bytes(a, p),
        all_bytes(b, p),
    ensures
        all_bytes(a + b, p),
{
    assert forall|i: int| 0 <= i < (a + b).len() implies p(#[trigger] (a + b)[i]) by {
        if i < a.len() {
            assert((a + b)[i] == a[i]);
        } else {
            assert((a + b)[i] == b[i - a.len()]);
        }
    }
}

/// Reading a stretch without a newline accumulates it into the current
/// line.
pub proof fn lemma_lines_consume(s: Seq<u8>, i: int, j: int, cur: Seq<u8>, acc: Seq<Seq<u8>>)
    requires
        0 <= i <= j <= s.len(),
        forall|t: int| i <= t < j ==> s[t] != 10,
    ensures
        lines_rec(s, i, cur, acc) == lines_rec(s, j, cur + s.subrange(i, j), acc),
    decreases j - i,
{
    if i == j {
        assert(cur + s.subrange(i, j) =~= cur);
    } else {
        lemma_lines_consume(s, i + 1, j, cur.push(s[i]), acc);
        assert(cur.push(s[i]) + s.subrange(i + 1, j) =~= cur + s.subrange(i, j));
    }
}

/// Lines already read pass through; the rest of the stream splits on its
/// own.
pub proof fn lemma_lines_shift(s: Seq<u8>, i: int, cur: Seq<u8>, acc: Seq<Seq<u8>>)
    requires
        0 <= i <= s.len(),
    ensures
        lines_rec(s, i, cur, acc) == acc + lines_rec(s.skip(i), 0, cur, Seq::empty()),
    decreases s.len() - i,
{
    let rest = s.skip(i);
    if i >= s.len() {
        assert(rest.len() == 0);
        if cur.len() == 0 {
            assert(acc + Seq::<Seq<u8>>::empty() =~= acc);
        } else {
            assert(acc + Seq::<Seq<u8>>::empty().push(strip_cr(cur)) =~= acc.push(strip_cr(cur)));
        }
    } else {
        assert(rest[0] == s[i]);
        assert(rest.len() == s.len() - i);
        if s[i] == 10 {
            lemma_lines_shift(s, i + 1, Seq::empty(), acc.push(strip_cr(cur)));
            lemma_lines_shift(rest, 1, Seq::empty(), Seq::<Seq<u8>>::empty().push(strip_cr(cur)));
            assert(rest.skip(1) =~= s.skip(i + 1));
            assert(acc + (Seq::<Seq<u8>>::empty().push(strip_cr(cur)) + lines_rec(
                s.skip(i + 1),
                0,
                Seq::empty(),
                Seq::empty(),
            )) =~= acc.push(strip_cr(cur)) + lines_rec(s.skip(i + 1), 0, Seq::empty(), Seq::empty()));
        } else {
            lemma_lines_shift(s, i + 1, cur.push(s[i]), acc);
            lemma_lines_shift(rest, 1, cur.push(s[i]), Seq::<Seq<u8>>::empty());
            assert(rest.skip(1) =~= s.skip(i + 1));
        }
    }
}

/// Splitting a stream that opens with one complete line peels that line.
pub proof fn lemma_split_lines_peel(l: Seq<u8>, rest: Seq<u8>)
    requires
        forall|t: int| 0 <= t < l.len() ==> l[t] != 10,
        l.len() == 0 || l.last() != 13,
    ensures
        split_lines(l + seq![10u8] + rest) == seq![l] + split_lines(rest),
{
    let s = l + seq![10u8] + rest;
    assert(forall|t: int| 0 <= t < l.len() ==> #[trigger] s[t] == l[t]);
    lemma_lines_consume(s, 0, l.len() as int, Seq::empty(), Seq::empty());
    assert(Seq::<u8>::empty() + s.subrange(0, l.len() as int) =~= l);
    assert(s[l.len() as int] == 10);
    assert(lines_rec(s, l.len() as int, l, Seq::empty()) == lines_rec(
        s,
        l.len() + 1 as int,
        Seq::empty(),
        Seq::<Seq<u8>>::empty().push(strip_cr(l)),
    ));
    assert(strip_cr(l) == l);
    lemma_lines_shift(s, l.len() + 1 as int, Seq::empty(), Seq::<Seq<u8>>::empty().push(l));
    assert(s.skip(l.len() + 1 as int) =~= rest);
    assert(Seq::<Seq<u8>>::empty().push(l) + split_lines(rest) =~= seq![l] + split_lines(rest));
}

/// Executable ASCII whitespace test.
pub fn is_ws_byte(b: u8) -> (r: bool)
    ensures
        r == is_ws(b),
{
    b == 32 || (9 <= b && b <= 13)
}

/// Executable ASCII lower-casing of one byte.
pub fn lower_byte(b: u8) -> (r: u8)
    ensures
        r == lower(b),
{
    if 65 <= b && b <= 90 {
        b + 32
    } else {
        b
    }
}

/// Executable ASCII upper-casing of one byte.
pub fn upper_byte(b: u8) -> (r: u8)
    ensures
        r == upper(b),
{
    if 97 <= b && b <= 122 {
        b - 32
    } else {
        b
    }
}

/// Copies a slice into a fresh vector.
pub fn copy_range(s: &[u8], from: usize, to: usize) -> (r: Vec<u8>)
    requires
        from <= to <= s@.len(),
    ensures
        r@ == s@.subrange(from as int, to as int),
{
    let mut r: Vec<u8> = Vec::new();
    let mut i: usize = from;
    while i < to
        invariant
            from <= i <= to <= s@.len(),
            r@ == s@.subrange(from as int, i as int),
        decreases to - i,
    {
        r.push(s[i]);
        proof {
            assert(r@ =~= s@.subrange(from as int, i + 1));
        }
        i = i + 1;
    }
    r
}

/// ASCII lower-casing of a whole slice, into a fresh vector.
pub fn lower_vec(s: &[u8]) -> (r: Vec<u8>)
    ensures
        r@ == lower_all(s@),
{
    let mut r: Vec<u8> = Vec::new();
    let mut i: usize = 0;
    while i < s.len()
        invariant
            i <= s@.len(),
            r@ == lower_all(s@.take(i as int)),
        decreases s@.len() - i,
    {
        r.push(lower_byte(s[i]));
        proof {
            assert(r@ =~= lower_all(s@.take(i + 1)));
        }
        i = i + 1;
    }
    proof {
        assert(s@.take(s@.len() as int) =~= s@);
    }
    r
}

/// ASCII upper-casing of a whole slice, into a fresh vector.
pub fn upper_vec(s: &[u8]) -> (r: Vec<u8>)
    ensures
        r@ == upper_all(s@),
{
    let mut r: Vec<u8> = Vec::new();
    let mut i: usize = 0;
    while i < s.len()
        invariant
            i <= s@.len(),
            r@ == upper_all(s@.take(i as int)),
        decreases s@.len() - i,
    {
        r.push(upper_byte(s[i]));
        proof {
            assert(r@ =~= upper_all(s@.take(i + 1)));
        }
        i = i + 1;
    }
    proof {
        assert(s@.take(s@.len() as int) =~= s@);
    }
    r
}

/// Trims leading and trailing ASCII whitespace from a byte slice.
pub fn trim_slice(s: &[u8]) -> (r: Vec<u8>)
    ensures
        r@ == trim(s@),
{
    let mut from: usize = 0;
    proof {
        assert(s@.subrange(0, s@.len() as int) =~= s@);
    }
    while from < s.len() && is_ws_byte(s[from])
        invariant
            from <= s@.len(),
            trim_front(s@.subrange(from as int, s@.len() as int)) == trim_front(s@),
        decreases s@.len() - from,
    {
        proof {
            let rest = s@.subrange(from as int, s@.len() as int);
            assert(rest.drop_first() =~= s@.subrange(from + 1, s@.len() as int));
        }
        from = from + 1;
    }
    proof {
        let rest = s@.subrange(from as int, s@.len() as int);
        assert(trim_front(rest) == rest);
    }
    let mut to: usize = s.len();
    while to > from && is_ws_byte(s[to - 1])
        invariant
            from <= to <= s@.len(),
            trim_front(s@) == s@.subrange(from as int, s@.len() as int),
            trim_back(s@.subrange(from as int, to as int)) == trim(s@),
        decreases to,
    {
        proof {
            let cur = s@.subrange(from as int, to as int);
            assert(cur.drop_last() =~= s@.subrange(from as int, to - 1));
        }
        to = to - 1;
    }
    proof {
        let cur = s@.subrange(from as int, to as int);
        assert(trim_back(cur) == cur);
    }
    copy_range(s, from, to)
}

/// Splits a byte stream into lines.
pub fn lines_of(s: &[u8]) -> (r: Vec<Vec<u8>>)
    ensures
        r.deep_view() == split_lines(s@),
{
    let mut acc: Vec<Vec<u8>> = Vec::new();
    let mut cur: Vec<u8> = Vec::new();
    let mut i: usize = 0;
    proof {
        assert(acc.deep_view() =~~= Seq::<Seq<u8>>::empty());
        assert(cur@ =~= Seq::<u8>::empty());
    }
    while i < s.len()
        invariant
            i <= s@.len(),
            lines_rec(s@, i as int, cur@, acc.deep_view()) == split_lines(s@),
        decreases s@.len() - i,
    {
        if s[i] == 10 {
            let ghost pre = acc.deep_view();
            let ghost curv = cur@;
            let stripped = strip_cr_vec(cur);
            acc.push(stripped);
            proof {
                assert(acc.deep_view() =~~= pre.push(strip_cr(curv)));
            }
            cur = Vec::new();
        } else {
            cur.push(s[i]);
        }
        i = i + 1;
    }
    if cur.len() > 0 {
        let ghost pre = acc.deep_view();
        let ghost curv = cur@;
        let stripped = strip_cr_vec(cur);
        acc.push(stripped);
        proof {
            assert(acc.deep_view() =~~= pre.push(strip_cr(curv)));
        }
    }
    acc
}

/// Byte-for-byte equality of two slices.
pub fn eq_bytes(a: &[u8], b: &[u8]) -> (r: bool)
    ensures
        r == (a@ == b@),
{
    if a.len() != b.len() {
        return false;
    }
    let mut i: usize = 0;
    while i < a.len()
        invariant
            i <= a@.len(),
            a@.len() == b@.len(),
            forall|j: int| 0 <= j < i ==> a@[j] == b@[j],
        decreases a@.len() - i,
    {
        if a[i] != b[i] {
            return false;
        }
        i = i + 1;
    }
    proof {
        assert(a@ =~= b@);
    }
    true
}

/// Appends every byte of a slice to a vector.
pub fn push_all(out: &mut Vec<u8>, s: &[u8])
    ensures
        final(out)@ == old(out)@ + s@,
{
    let mut i: usize = 0;
    while i < s.len()
        invariant
            i <= s@.len(),
            out@ == old(out)@ + s@.take(i as int),
        decreases s@.len() - i,
    {
        out.push(s[i]);
        proof {
            assert(out@ =~= old(out)@ + s@.take(i + 1));
        }
        i = i + 1;
    }
    proof {
        assert(old(out)@ + s@.take(s@.len() as int) =~= old(out)@ + s@);
    }
}

/// True when the byte occurs in the slice.
pub fn contains_byte(s: &[u8], b: u8) -> (r: bool)
    ensures
        r == s@.contains(b),
{
    let mut i: usize = 0;
    while i < s.len()
        invariant
            i <= s@.len(),
            forall|j: int| 0 <= j < i ==> s@[j] != b,
        decreases s@.len() - i,
    {
        if s[i] == b {
            proof {
                assert(s@[i as int] == b);
            }
            return true;
        }
        i = i + 1;
    }
    false
}

/// Drops one trailing carriage return from a line, if present.
fn strip_cr_vec(l: Vec<u8>) -> (r: Vec<u8>)
    ensures
        r@ == strip_cr(l@),
{
    let mut l = l;
    if l.len() > 0 && l[l.len() - 1] == 13 {
        l.pop();
    }
    l
}

} // verus!

