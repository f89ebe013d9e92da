//! Comparison of two record streams by transaction id: the count of
//! differences a diff tool reports.  Records are keyed by `tx_id`, the last
//! record with a key winning; a difference is a key present on one side
//! only, or present on both with different records.

use vstd::prelude::*;

use crate::types::{YPBankRecord, RecordModel};

verus! {

/// Inserting into a key-indexed entry list: the first entry with the key
/// is overwritten, or a new entry is appended.
pub open spec fn spec_assoc_insert(
    l: Seq<(u64, RecordModel)>,
    k: u64,
    v: RecordModel,
) -> Seq<(u64, RecordModel)>
    decreases l.len(),
{
    if l.len() == 0 {
        seq![(k, v)]
    } else if l[0].0 == k {
        seq![(k, v)] + l.drop_first()
    } else {
        seq![l[0]] + spec_assoc_insert(l.drop_first(), k, v)
    }
}

/// The record of the first entry with the key, if any.
pub open spec fn spec_assoc_get(l: Seq<(u64, RecordModel)>, k: u64) -> Option<RecordModel>
    decreases l.len(),
{
    if l.len() == 0 {
        None
    } else if l[0].0 == k {
        Some(l[0].1)
    } else {
        spec_assoc_get(l.drop_first(), k)
    }
}

/// The key index of a record sequence: every record inserted in order, the
/// last record with a key winning.
pub open spec fn spec_tx_index(rs: Seq<RecordModel>) -> Seq<(u64, RecordModel)>
    decreases rs.len(),
{
    if rs.len() == 0 {
        Seq::empty()
    } else {
        spec_assoc_insert(spec_tx_index(rs.drop_last()), rs.last().tx_id, rs.last())
    }
}

/// The differences charged to the left index from position `i` on: one for
/// each entry whose key the right index lacks or maps to another record.
pub open spec fn count_changed(
    l1: Seq<(u64, RecordModel)>,
    i: int,
    l2: Seq<(u64, RecordModel)>,
) -> nat
    decreases l1.len() - i,
{
    if i < 0 || i >= l1.len() {
        0
    } else {
        (match spec_assoc_get(l2, l1[i].0) {
            None => 1 as nat,
            Some(r2) => if r2 == l1[i].1 {
                0 as nat
            } else {
                1 as nat
            },
        }) + count_changed(l1, i + 1, l2)
    }
}

/// The differences charged to the right index from position `i` on: one
/// for each entry whose key the left index lacks.
pub open spec fn count_extra(
    l2: Seq<(u64, RecordModel)>,
    i: int,
    l1: Seq<(u64, RecordModel)>,
) -> nat
    decreases l2.len() - i,
{
    if i < 0 || i >= l2.len() {
        0
    } else {
        (if spec_assoc_get(l1, l2[i].0) is None {
            1 as nat
        } else {
            0 as nat
        }) + count_extra(l2, i + 1, l1)
    }
}

/// The number of differences between two record streams.
pub open spec fn spec_diff_count(rs1: Seq<RecordModel>, rs2: Seq<RecordModel>) -> nat {
    count_changed(spec_tx_index(rs1), 0, spec_tx_index(rs2)) + count_extra(
        spec_tx_index(rs2),
        0,
        spec_tx_index(rs1),
    )
}

/// The models of an entry vector.
pub open spec fn entries_view(v: Seq<(u64, YPBankRecord)>) -> Seq<(u64, RecordModel)> {
    v.map_values(|p: (u64, YPBankRecord)| (p.0, p.1@))
}

/// Field-by-field equality of two records, which coincides with equality
/// of their models.
pub fn records_equal(a: &YPBankRecord, b: &YPBankRecord) -> (r: bool)
    ensures
        r == (a@ == b@),
{
    let same = a.tx_id == b.tx_id && a.tx_type == b.tx_type && a.from_user_id == b.from_user_id
        && a.to_user_id == b.to_user_id && a.amount == b.amount && a.timestamp == b.timestamp
        && a.status == b.status && a.description == b.description;
    proof {
        if same {
            assert(a@ =~= b@);
        }
    }
    same
}

/// Inserts a record into an entry vector under its key, overwriting the
/// first entry with that key.
fn index_insert(v: &mut Vec<(u64, YPBankRecord)>, rec: YPBankRecord)
    ensures
        entries_view(final(v)@) == spec_assoc_insert(entries_view(old(v)@), rec@.tx_id, rec@),
{
    let ghost key = rec@.tx_id;
    let ghost model = rec@;
    let mut j: usize = 0;
    while j < v.len()
        invariant
            j <= v@.len(),
            v == old(v),
            rec@ == model,
            rec.tx_id == key,
            forall|t: int| 0 <= t < j ==> #[trigger] v@[t].0 != key,
        decreases v@.len() - j,
    {
        if v[j].0 == rec.tx_id {
            v.set(j, (rec.tx_id, rec));
            proof {
                lemma_assoc_insert_found(entries_view(old(v)@), key, model, j as int);
                assert(entries_view(v@) =~= entries_view(old(v)@).update(j as int, (key, model)));
            }
            return;
        }
        j = j + 1;
    }
    v.push((rec.tx_id, rec));
    proof {
        lemma_assoc_insert_missing(entries_view(old(v)@), key, model);
        assert(entries_view(v@) =~= entries_view(old(v)@).push((key, model)));
    }
}

/// Overwriting the first entry that holds the key is what
/// [`spec_assoc_insert`] does when the key is present there.
proof fn lemma_assoc_insert_found(l: Seq<(u64, RecordModel)>, k: u64, v: RecordModel, j: int)
    requires
        0 <= j < l.len(),
        l[j].0 == k,
        forall|t: int| 0 <= t < j ==> #[trigger] l[t].0 != k,
    ensures
        spec_assoc_insert(l, k, v) == l.update(j, (k, v)),
    decreases j,
{
    if j == 0 {
        assert(seq![(k, v)] + l.drop_first() =~= l.update(0, (k, v)));
    } else {
        lemma_assoc_insert_found(l.drop_first(), k, v, j - 1);
        assert(l.drop_first()[j - 1] == l[j]);
        assert(forall|t: int| 0 <= t < j - 1 ==> #[trigger] l.drop_first()[t].0 != k);
        assert(seq![l[0]] + l.drop_first().update(j - 1, (k, v)) =~= l.update(j, (k, v)));
    }
}

/// Appending is what [`spec_assoc_insert`] does when the key is absent.
proof fn lemma_assoc_insert_missing(l: Seq<(u64, RecordModel)>, k: u64, v: RecordModel)
    requires
        forall|t: int| 0 <= t < l.len() ==> #[trigger] l[t].0 != k,
    ensures
        spec_assoc_insert(l, k, v) == l.push((k, v)),
    decreases l.len(),
{
    if l.len() == 0 {
        assert(spec_assoc_insert(l, k, v) =~= l.push((k, v)));
    } else {
        lemma_assoc_insert_missing(l.drop_first(), k, v);
        assert(seq![l[0]] + l.drop_first().push((k, v)) =~= l.push((k, v)));
    }
}

/// Builds the key index of a record slice.
fn build_index(records: &[YPBankRecord]) -> (r: Vec<(u64, YPBankRecord)>)
    ensures
        entries_view(r@) == spec_tx_index(records.deep_view()),
{
    let mut r: Vec<(u64, YPBankRecord)> = Vec::new();
    let mut i: usize = 0;
    proof {
        assert(records.deep_view().take(0) =~= Seq::<RecordModel>::empty());
        assert(entries_view(r@) =~= Seq::<(u64, RecordModel)>::empty());
    }
    while i < records.len()
        invariant
            i <= records@.len(),
            entries_view(r@) == spec_tx_index(records.deep_view().take(i as int)),
        decreases records@.len() - i,
    {
        let rec = records[i].clone_record();
        proof {
            assert(rec@ == records.deep_view()[i as int]);
            assert(records.deep_view().take(i + 1).drop_last() =~= records.deep_view().take(
                i as int,
            ));
            assert(records.deep_view().take(i + 1).last() == records.deep_view()[i as int]);
        }
        index_insert(&mut r, rec);
        i = i + 1;
    }
    proof {
        assert(records.deep_view().take(records@.len() as int) =~= records.deep_view());
    }
    r
}

/// Looks a key up in an entry vector, as [`spec_assoc_get`] describes.
fn index_get<'a>(v: &'a Vec<(u64, YPBankRecord)>, k: u64) -> (r: Option<&'a YPBankRecord>)
    ensures
        match r {
            Some(rec) => spec_assoc_get(entries_view(v@), k) == Some(rec@),
            None => spec_assoc_get(entries_view(v@), k) is None,
        },
{
    let mut j: usize = 0;
    proof {
        assert(entries_view(v@).skip(0) =~= entries_view(v@));
    }
    while j < v.len()
        invariant
            j <= v@.len(),
            spec_assoc_get(entries_view(v@).skip(j as int), k) == spec_assoc_get(
                entries_view(v@),
                k,
            ),
        decreases v@.len() - j,
    {
        proof {
            let rest = entries_view(v@).skip(j as int);
            assert(rest[0] == entries_view(v@)[j as int]);
            assert(rest.drop_first() =~= entries_view(v@).skip(j + 1));
        }
        if v[j].0 == k {
            return Some(&v[j].1);
        }
        j = j + 1;
    }
    proof {
        assert(entries_view(v@).skip(v@.len() as int) =~= Seq::<(u64, RecordModel)>::empty());
    }
    None
}

/// The key index never holds more entries than the stream has records.
proof fn lemma_insert_len(l: Seq<(u64, RecordModel)>, k: u64, v: RecordModel)
    ensures
        spec_assoc_insert(l, k, v).len() <= l.len() + 1,
    decreases l.len(),
{
    if l.len() > 0 && l[0].0 != k {
        lemma_insert_len(l.drop_first(), k, v);
    }
}

/// The key index never holds more entries than the stream has records.
proof fn lemma_index_len(rs: Seq<RecordModel>)
    ensures
        spec_tx_index(rs).len() <= rs.len(),
    decreases rs.len(),
{
    if rs.len() > 0 {
        lemma_index_len(rs.drop_last());
        lemma_insert_len(spec_tx_index(rs.drop_last()), rs.last().tx_id, rs.last());
    }
}

/// Counts the differences between two record streams, keyed by `tx_id`
/// with the last record per key winning: entries changed or missing on the
/// right, plus entries on the right whose key the left does not have.
pub fn compare_records(records1: &[YPBankRecord], records2: &[YPBankRecord]) -> (r: usize)
    requires
        records1@.len() + records2@.len() <= usize::MAX,
    ensures
        r == spec_diff_count(records1.deep_view(), records2.deep_view()),
{
    let ix1 = build_index(records1);
    let ix2 = build_index(records2);
    let ghost l1 = entries_view(ix1@);
    let ghost l2 = entries_view(ix2@);
    proof {
        lemma_index_len(records1.deep_view());
        lemma_index_len(records2.deep_view());
    }
    let mut diffs: usize = 0;
    let mut j: usize = 0;
    while j < ix1.len()
        invariant
            j <= ix1@.len(),
            l1 == entries_view(ix1@),
            l2 == entries_view(ix2@),
            diffs + count_changed(l1, j as int, l2) == count_changed(l1, 0, l2),
            diffs <= j,
        decreases ix1@.len() - j,
    {
        proof {
            assert(l1[j as int] == (ix1@[j as int].0, ix1@[j as int].1@));
        }
        let got = index_get(&ix2, ix1[j].0);
        let changed = match got {
            None => true,
            Some(rec2) => !records_equal(&ix1[j].1, rec2),
        };
        if changed {
            diffs = diffs + 1;
        }
        j = j + 1;
    }
    let mut j: usize = 0;
    let ghost base = diffs as int;
    while j < ix2.len()
        invariant
            j <= ix2@.len(),
            l1 == entries_view(ix1@),
            l2 == entries_view(ix2@),
            diffs + count_extra(l2, j as int, l1) == base + count_extra(l2, 0, l1),
            diffs <= base + j,
            base + ix2@.len() <= usize::MAX,
        decreases ix2@.len() - j,
    {
        proof {
            assert(l2[j as int] == (ix2@[j as int].0, ix2@[j as int].1@));
        }
        let got = index_get(&ix1, ix2[j].0);
        if got.is_none() {
            diffs = diffs + 1;
        }
        j = j + 1;
    }
    diffs
}

} // verus!
