//! A small string-keyed map with insertion-order entries: the shape the TXT
//! codec's sections and the command-line arguments are handed around in.
//! Inserting an existing key overwrites its value in place; lookup takes
//! the first entry with the key.

use vstd::prelude::*;

verus! {

/// The entries a dictionary holds after inserting a key and value: the
/// first entry with that key is overwritten, or a new entry is appended.
pub open spec fn spec_dict_insert(
    d: Seq<(Seq<char>, Seq<char>)>,
    k: Seq<char>,
    v: Seq<char>,
) -> Seq<(Seq<char>, Seq<char>)>
    decreases d.len(),
{
    if d.len() == 0 {
        seq![(k, v)]
    } else if d[0].0 == k {
        seq![(k, v)] + d.drop_first()
    } else {
        seq![d[0]] + spec_dict_insert(d.drop_first(), k, v)
    }
}

/// The value of the first entry with the key, if any.
pub open spec fn spec_dict_lookup(d: Seq<(Seq<char>, Seq<char>)>, key: Seq<char>) -> Option<
    Seq<char>,
>
    decreases d.len(),
{
    if d.len() == 0 {
        None
    } else if d[0].0 == key {
        Some(d[0].1)
    } else {
        spec_dict_lookup(d.drop_first(), key)
    }
}

/// A string-keyed map kept as a vector of entries in insertion order.
#[derive(Debug)]
pub struct Dict {
    /// The key/value entries.
    pub entries: Vec<(String, String)>,
}

impl View for Dict {
    type V = Seq<(Seq<char>, Seq<char>)>;

    open spec fn view(&self) -> Seq<(Seq<char>, Seq<char>)> {
        Seq::new(self.entries@.len(), |i: int| (self.entries@[i].0@, self.entries@[i].1@))
    }
}

impl Dict {
    /// An empty dictionary.
    pub fn new() -> (r: Self)
        ensures
            r@ == Seq::<(Seq<char>, Seq<char>)>::empty(),
    {
        let r = Dict { entries: Vec::new() };
        proof {
            assert(r@ =~= Seq::<(Seq<char>, Seq<char>)>::empty());
        }
        r
    }

    /// The number of entries.
    pub fn len(&self) -> (r: usize)
        ensures
            r == self@.len(),
    {
        self.entries.len()
    }

    /// Inserts a key and value, overwriting the value of an existing key.
    pub fn insert(&mut self, k: String, v: String)
        ensures
            final(self)@ == spec_dict_insert(old(self)@, k@, v@),
    {
        let ghost kview = k@;
        let ghost vview = v@;
        let mut j: usize = 0;
        while j < self.entries.len()
            invariant
                j <= self.entries@.len(),
                k@ == kview,
                v@ == vview,
                self == old(self),
                forall|t: int| 0 <= t < j ==> #[trigger] self.entries@[t].0@ != kview,
        decreases self.entries@.len() - j,
        {
            if crate::text::str_eq(self.entries[j].0.as_str(), k.as_str()) {
                self.entries.set(j, (k, v));
                proof {
                    lemma_insert_found(old(self)@, kview, vview, j as int);
                    assert(self@ =~= old(self)@.update(j as int, (kview, vview)));
                }
                return;
            }
            j = j + 1;
        }
        self.entries.push((k, v));
        proof {
            lemma_insert_missing(old(self)@, kview, vview);
            assert(self@ =~= old(self)@.push((kview, vview)));
        }
    }

    /// The value for a key, if the key is present.
    pub fn get(&self, key: &str) -> (r: Option<&String>)
        ensures
            match r {
                Some(v) => spec_dict_lookup(self@, key@) == Some(v@),
                None => spec_dict_lookup(self@, key@) is None,
            },
    {
        let mut j: usize = 0;
        proof {
            assert(self@.skip(0) =~= self@);
        }
        while j < self.entries.len()
            invariant
                j <= self.entries@.len(),
                spec_dict_lookup(self@.skip(j as int), key@) == spec_dict_lookup(self@, key@),
            decreases self.entries@.len() - j,
        {
            proof {
                let rest = self@.skip(j as int);
                assert(rest[0] == self@[j as int]);
                assert(rest.drop_first() =~= self@.skip(j + 1));
            }
            if crate::text::str_eq(self.entries[j].0.as_str(), key) {
                return Some(&self.entries[j].1);
            }
            j = j + 1;
        }
        proof {
            assert(self@.skip(self@.len() as int) =~= Seq::<(Seq<char>, Seq<char>)>::empty());
        }
        None
    }

    /// True when the key is present.
    pub fn contains_key(&self, key: &str) -> (r: bool)
        ensures
            r == (spec_dict_lookup(self@, key@) is Some),
    {
        self.get(key).is_some()
    }
}

/// Overwriting the first entry that holds the key is what
/// [`spec_dict_insert`] does when the key is present there.
proof fn lemma_insert_found(d: Seq<(Seq<char>, Seq<char>)>, k: Seq<char>, v: Seq<char>, j: int)
    requires
        0 <= j < d.len(),
        d[j].0 == k,
        forall|t: int| 0 <= t < j ==> #[trigger] d[t].0 != k,
    ensures
        spec_dict_insert(d, k, v) == d.update(j, (k, v)),
    decreases j,
{
    if j == 0 {
        assert(spec_dict_insert(d, k, v) == seq![(k, v)] + d.drop_first());
        assert(seq![(k, v)] + d.drop_first() =~= d.update(0, (k, v)));
    } else {
        lemma_insert_found(d.drop_first(), k, v, j - 1);
        assert(d.drop_first()[j - 1] == d[j]);
        assert(forall|t: int| 0 <= t < j - 1 ==> #[trigger] d.drop_first()[t].0 != k);
        assert(seq![d[0]] + d.drop_first().update(j - 1, (k, v)) =~= d.update(j, (k, v)));
    }
}

/// Appending is what [`spec_dict_insert`] does when the key is absent.
proof fn lemma_insert_missing(d: Seq<(Seq<char>, Seq<char>)>, k: Seq<char>, v: Seq<char>)
    requires
        forall|t: int| 0 <= t < d.len() ==> #[trigger] d[t].0 != k,
    ensures
        spec_dict_insert(d, k, v) == d.push((k, v)),
    decreases d.len(),
{
    if d.len() == 0 {
        assert(spec_dict_insert(d, k, v) =~= d.push((k, v)));
    } else {
        lemma_insert_missing(d.drop_first(), k, v);
        assert(seq![d[0]] + d.drop_first().push((k, v)) =~= d.push((k, v)));
    }
}

} // verus!
