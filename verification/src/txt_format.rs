//! The TXT codec: `#`-delimited sections of `key: value` lines, one section
//! per record.
//!
//! On decode, a line opening with `#` delimits sections and is discarded,
//! blank lines are dropped, and every remaining line must hold a colon.
//! Keys are trimmed and lower-cased, values trimmed; when a key repeats,
//! the last occurrence wins.  Each section must supply all eight record
//! keys.  On encode, each record is written as a `# Record <index> (<type>)`
//! line, the eight `key: value` lines in fixed order, and one blank line
//! between records.  Section order is preserved both ways.

use vstd::prelude::*;
use vstd::utf8::{valid_utf8, decode_utf8, encode_utf8};

use crate::ascii::{split_lines, trim, trim_front, trim_back, is_ws, lower_all, lines_of,
    trim_slice, lower_vec, eq_bytes, copy_range, push_all, all_bytes, lemma_all_bytes_concat,
    lemma_split_lines_peel};
use crate::decimal::{spec_parse_u64, spec_parse_i64, spec_u64_digits, spec_i64_digits, parse_u64,
    parse_i64, format_u64, format_i64};
use crate::dict::{Dict, spec_dict_insert};
use crate::error::{ParserError, ErrModel, err_matches};
use crate::keywords::{
    spec_key_tx_id, spec_key_tx_type, spec_key_from_user_id, spec_key_to_user_id, spec_key_amount,
    spec_key_timestamp, spec_key_status, spec_key_description, spec_record_prefix,
    spec_paren_open, spec_paren_close, spec_kv_sep, key_tx_id, key_tx_type, key_from_user_id,
    key_to_user_id, key_amount, key_timestamp, key_status, key_description, record_prefix,
    paren_open, paren_close, kv_sep,
};
use crate::text::{bytes_to_string, lemma_decode_then_encode};
use crate::types::{
    YPBankRecord, RecordModel, TransactionType, Status, spec_tx_type_of_text, spec_status_of_text,
    spec_tx_type_name, spec_status_name, desc_bytes, txt_safe,
};

verus! {

/// The UTF-8 bytes of each line of a section of text lines.
pub open spec fn lines_bytes(ls: Seq<Seq<char>>) -> Seq<Seq<u8>> {
    ls.map_values(|l: Seq<char>| encode_utf8(l))
}

/// The UTF-8 bytes of every line of every section.
pub open spec fn sections_bytes(ss: Seq<Seq<Seq<char>>>) -> Seq<Seq<Seq<u8>>> {
    ss.map_values(|sec: Seq<Seq<char>>| lines_bytes(sec))
}

/// A section-delimiter line: it opens with `#`.
pub open spec fn is_delim(l: Seq<u8>) -> bool {
    l.len() > 0 && l[0] == 35
}

/// A blank line: nothing but ASCII whitespace.
pub open spec fn is_blank(l: Seq<u8>) -> bool {
    trim(l).len() == 0
}

/// Tail-recursive worker for [`spec_sections`]: `cur` is the section being
/// read, `acc` the sections already read.
pub open spec fn sections_rec(
    lines: Seq<Seq<u8>>,
    i: int,
    cur: Seq<Seq<u8>>,
    acc: Seq<Seq<Seq<u8>>>,
) -> Seq<Seq<Seq<u8>>>
    decreases lines.len() - i,
{
    if i < 0 || i >= lines.len() {
        if cur.len() == 0 {
            acc
        } else {
            acc.push(cur)
        }
    } else if is_delim(lines[i]) {
        if cur.len() == 0 {
            sections_rec(lines, i + 1, cur, acc)
        } else {
            sections_rec(lines, i + 1, Seq::empty(), acc.push(cur))
        }
    } else if is_blank(lines[i]) {
        sections_rec(lines, i + 1, cur, acc)
    } else {
        sections_rec(lines, i + 1, cur.push(lines[i]), acc)
    }
}

/// The sections of a line sequence: delimiter lines discarded, blank lines
/// dropped, the rest grouped.
pub open spec fn spec_sections(lines: Seq<Seq<u8>>) -> Seq<Seq<Seq<u8>>> {
    sections_rec(lines, 0, Seq::empty(), Seq::empty())
}

/// Every line of the stream is valid UTF-8 and so can be read as text.
pub open spec fn all_lines_utf8(lines: Seq<Seq<u8>>) -> bool {
    forall|i: int| 0 <= i < lines.len() ==> valid_utf8(#[trigger] lines[i])
}

/// Position of the first colon in a line, from `i` on; the length when
/// there is none.
pub open spec fn colon_rec(l: Seq<u8>, i: int) -> int
    decreases l.len() - i,
{
    if i < 0 || i >= l.len() {
        l.len() as int
    } else if l[i] == 58 {
        i
    } else {
        colon_rec(l, i + 1)
    }
}

/// Position of the first colon in a line; the length when there is none.
pub open spec fn colon_ix(l: Seq<u8>) -> int {
    colon_rec(l, 0)
}

/// The line holds a colon and so is a `key: value` line.
pub open spec fn line_has_colon(l: Seq<u8>) -> bool {
    colon_ix(l) < l.len()
}

/// The key of a `key: value` line: before the first colon, trimmed and
/// lower-cased.
pub open spec fn spec_line_key(l: Seq<u8>) -> Seq<u8> {
    lower_all(trim(l.take(colon_ix(l))))
}

/// The value of a `key: value` line: after the first colon, trimmed.  A
/// line without a colon has an empty value.
pub open spec fn spec_line_value(l: Seq<u8>) -> Seq<u8> {
    if colon_ix(l) < l.len() {
        trim(l.skip(colon_ix(l) + 1))
    } else {
        Seq::empty()
    }
}

/// Every line of the section is a `key: value` line.
pub open spec fn section_all_kv(sec: Seq<Seq<u8>>) -> bool {
    forall|i: int| 0 <= i < sec.len() ==> line_has_colon(#[trigger] sec[i])
}

/// Every section consists of `key: value` lines.
pub open spec fn sections_all_kv(secs: Seq<Seq<Seq<u8>>>) -> bool {
    forall|i: int| 0 <= i < secs.len() ==> section_all_kv(#[trigger] secs[i])
}

/// The value of the last line of the section whose key matches, if any.
pub open spec fn spec_lookup(sec: Seq<Seq<u8>>, key: Seq<u8>) -> Option<Seq<u8>>
    decreases sec.len(),
{
    if sec.len() == 0 {
        None
    } else if spec_line_key(sec.last()) == key {
        Some(spec_line_value(sec.last()))
    } else {
        spec_lookup(sec.drop_last(), key)
    }
}

/// What one section decodes to.  Keys are looked up and their values
/// parsed in the record's field order; a missing key is the field's own
/// `Missing` error, a present key with an unparsable value a `ParseError`.
#[verifier::opaque]
pub open spec fn spec_record_of_section(sec: Seq<Seq<u8>>) -> Result<RecordModel, ErrModel> {
    if !section_all_kv(sec) {
        Err(ErrModel::Parse)
    } else if spec_lookup(sec, spec_key_tx_id()) is None {
        Err(ErrModel::MissingTxId)
    } else if spec_parse_u64(spec_lookup(sec, spec_key_tx_id())->Some_0) is None {
        Err(ErrModel::Parse)
    } else if spec_lookup(sec, spec_key_tx_type()) is None {
        Err(ErrModel::MissingTransactionType)
    } else if spec_tx_type_of_text(spec_lookup(sec, spec_key_tx_type())->Some_0) is None {
        Err(ErrModel::Parse)
    } else if spec_lookup(sec, spec_key_from_user_id()) is None {
        Err(ErrModel::MissingFromUserId)
    } else if spec_parse_u64(spec_lookup(sec, spec_key_from_user_id())->Some_0) is None {
        Err(ErrModel::Parse)
    } else if spec_lookup(sec, spec_key_to_user_id()) is None {
        Err(ErrModel::MissingToUserId)
    } else if spec_parse_u64(spec_lookup(sec, spec_key_to_user_id())->Some_0) is None {
        Err(ErrModel::Parse)
    } else if spec_lookup(sec, spec_key_amount()) is None {
        Err(ErrModel::MissingAmount)
    } else if spec_parse_i64(spec_lookup(sec, spec_key_amount())->Some_0) is None {
        Err(ErrModel::Parse)
    } else if spec_lookup(sec, spec_key_timestamp()) is None {
        Err(ErrModel::MissingTimestamp)
    } else if spec_parse_u64(spec_lookup(sec, spec_key_timestamp())->Some_0) is None {
        Err(ErrModel::Parse)
    } else if spec_lookup(sec, spec_key_status()) is None {
        Err(ErrModel::MissingStatus)
    } else if spec_status_of_text(spec_lookup(sec, spec_key_status())->Some_0) is None {
        Err(ErrModel::Parse)
    } else if spec_lookup(sec, spec_key_description()) is None {
        Err(ErrModel::MissingDescription)
    } else if !valid_utf8(spec_lookup(sec, spec_key_description())->Some_0) {
        Err(ErrModel::Parse)
    } else {
        Ok(
            RecordModel {
                tx_id: spec_parse_u64(spec_lookup(sec, spec_key_tx_id())->Some_0)->Some_0,
                tx_type: spec_tx_type_of_text(spec_lookup(sec, spec_key_tx_type())->Some_0)
                    ->Some_0,
                from_user_id: spec_parse_u64(
                    spec_lookup(sec, spec_key_from_user_id())->Some_0,
                )->Some_0,
                to_user_id: spec_parse_u64(spec_lookup(sec, spec_key_to_user_id())->Some_0)
                    ->Some_0,
                amount: spec_parse_i64(spec_lookup(sec, spec_key_amount())->Some_0)->Some_0,
                timestamp: spec_parse_u64(spec_lookup(sec, spec_key_timestamp())->Some_0)->Some_0,
                status: spec_status_of_text(spec_lookup(sec, spec_key_status())->Some_0)->Some_0,
                description: decode_utf8(spec_lookup(sec, spec_key_description())->Some_0),
            },
        )
    }
}

/// What a sequence of sections decodes to, in order; the first failing
/// section aborts the whole decode.
pub open spec fn spec_txt_records(secs: Seq<Seq<Seq<u8>>>) -> Result<Seq<RecordModel>, ErrModel>
    decreases secs.len(),
{
    if secs.len() == 0 {
        Ok(Seq::empty())
    } else {
        match spec_record_of_section(secs[0]) {
            Err(e) => Err(e),
            Ok(r) => match spec_txt_records(secs.drop_first()) {
                Err(e) => Err(e),
                Ok(rest) => Ok(seq![r] + rest),
            },
        }
    }
}

/// What a whole TXT byte stream decodes to: every line must read as text,
/// every kept line must hold a colon, and every section must yield a
/// record.
pub open spec fn spec_txt_decode(s: Seq<u8>) -> Result<Seq<RecordModel>, ErrModel> {
    let lines = split_lines(s);
    if !all_lines_utf8(lines) {
        Err(ErrModel::Parse)
    } else if !sections_all_kv(spec_sections(lines)) {
        Err(ErrModel::Parse)
    } else {
        spec_txt_records(spec_sections(lines))
    }
}

/// One `key: value` line, with its newline.
pub open spec fn spec_kv_line(key: Seq<u8>, value: Seq<u8>) -> Seq<u8> {
    key + spec_kv_sep() + value + seq![10u8]
}

/// The delimiter line of the record at an index, with its newline.
pub open spec fn spec_txt_delim(i: nat, t: TransactionType) -> Seq<u8> {
    spec_record_prefix() + spec_u64_digits(i) + spec_paren_open() + spec_tx_type_name(t)
        + spec_paren_close() + seq![10u8]
}

/// The block of one record at an index: its delimiter line, then the eight
/// `key: value` lines in fixed order.
#[verifier::opaque]
pub open spec fn spec_txt_block(i: nat, r: RecordModel) -> Seq<u8> {
    spec_txt_delim(i, r.tx_type) + spec_kv_line(spec_key_tx_id(), spec_u64_digits(r.tx_id as nat))
        + spec_kv_line(spec_key_tx_type(), spec_tx_type_name(r.tx_type)) + spec_kv_line(
        spec_key_from_user_id(),
        spec_u64_digits(r.from_user_id as nat),
    ) + spec_kv_line(spec_key_to_user_id(), spec_u64_digits(r.to_user_id as nat)) + spec_kv_line(
        spec_key_amount(),
        spec_i64_digits(r.amount),
    ) + spec_kv_line(spec_key_timestamp(), spec_u64_digits(r.timestamp as nat)) + spec_kv_line(
        spec_key_status(),
        spec_status_name(r.status),
    ) + spec_kv_line(spec_key_description(), desc_bytes(r))
}

/// The blocks of the records from index `i0` on, separated by one blank
/// line, with none after the last.
pub open spec fn spec_txt_tail(rs: Seq<RecordModel>, i0: nat) -> Seq<u8>
    decreases rs.len(),
{
    if rs.len() == 0 {
        Seq::empty()
    } else if rs.len() == 1 {
        spec_txt_block(i0, rs[0])
    } else {
        spec_txt_block(i0, rs[0]) + seq![10u8] + spec_txt_tail(rs.drop_first(), i0 + 1)
    }
}

/// A whole TXT stream.
pub open spec fn spec_txt_encode(rs: Seq<RecordModel>) -> Seq<u8> {
    spec_txt_tail(rs, 0)
}

/// Position of the first colon in a line; the length when there is none.
pub fn colon_pos(l: &[u8]) -> (r: usize)
    ensures
        r as int == colon_ix(l@),
        r <= l@.len(),
{
    let mut i: usize = 0;
    while i < l.len()
        invariant
            i <= l@.len(),
            colon_rec(l@, i as int) == colon_ix(l@),
        decreases l@.len() - i,
    {
        if l[i] == 58 {
            return i;
        }
        i = i + 1;
    }
    i
}

/// The trimmed, lower-cased key of a line.
fn line_key_vec(l: &[u8]) -> (r: Vec<u8>)
    ensures
        r@ == spec_line_key(l@),
{
    let c = colon_pos(l);
    let head = copy_range(l, 0, c);
    proof {
        assert(head@ =~= l@.take(colon_ix(l@)));
    }
    let trimmed = trim_slice(head.as_slice());
    lower_vec(trimmed.as_slice())
}

/// The trimmed value of a line.
fn line_value_vec(l: &[u8]) -> (r: Vec<u8>)
    requires
        colon_ix(l@) < l@.len(),
    ensures
        r@ == spec_line_value(l@),
{
    let c = colon_pos(l);
    let n = l.len();
    proof {
        assert(c < n);
    }
    let tail = copy_range(l, c + 1, n);
    proof {
        assert(tail@ =~= l@.skip(colon_ix(l@) + 1));
    }
    trim_slice(tail.as_slice())
}

/// Reader and writer of the TXT byte stream.
pub struct YPBankTxtParser;

impl YPBankTxtParser {
    /// Splits a byte stream into sections of text lines: delimiter lines
    /// discarded, blank lines dropped.  A line that is not valid UTF-8
    /// fails the whole read with a `ParseError`.
    pub fn read_sections(data: &[u8]) -> (r: Result<Vec<Vec<String>>, ParserError>)
        ensures
            match r {
                Ok(secs) => all_lines_utf8(split_lines(data@)) && sections_bytes(secs.deep_view())
                    == spec_sections(split_lines(data@)),
                Err(e) => e is ParseError && !all_lines_utf8(split_lines(data@)),
            },
    {
        let lines = lines_of(data);
        let ghost lb = lines.deep_view();
        let mut acc: Vec<Vec<String>> = Vec::new();
        let mut cur: Vec<String> = Vec::new();
        let mut i: usize = 0;
        proof {
            assert(sections_bytes(acc.deep_view()) =~~= Seq::<Seq<Seq<u8>>>::empty());
            assert(lines_bytes(cur.deep_view()) =~~= Seq::<Seq<u8>>::empty());
        }
        while i < lines.len()
            invariant
                i <= lines@.len(),
                lb == lines.deep_view(),
                lb == split_lines(data@),
                forall|j: int| 0 <= j < i ==> valid_utf8(#[trigger] lb[j]),
                sections_rec(lb, i as int, lines_bytes(cur.deep_view()), sections_bytes(
                    acc.deep_view(),
                )) == spec_sections(lb),
            decreases lines@.len() - i,
        {
            let line = &lines[i];
            let mut raw: Vec<u8> = Vec::new();
            push_all(&mut raw, line.as_slice());
            proof {
                assert(raw@ =~= lb[i as int]);
            }
            let text = match bytes_to_string(raw) {
                Some(s) => s,
                None => {
                    proof {
                        assert(!valid_utf8(lb[i as int]));
                        assert(!all_lines_utf8(lb));
                    }
                    return Err(ParserError::ParseError("Unreadable line".to_owned()));
                },
            };
            proof {
                lemma_decode_then_encode(lb[i as int]);
                assert(encode_utf8(text@) == lb[i as int]);
            }
            let is_delim_line = line.len() > 0 && line[0] == 35;
            let trimmed = trim_slice(line.as_slice());
            let is_blank_line = trimmed.len() == 0;
            if is_delim_line {
                if cur.len() > 0 {
                    let ghost preacc = acc.deep_view();
                    let ghost precur = cur.deep_view();
                    acc.push(cur);
                    cur = Vec::new();
                    proof {
                        assert(sections_bytes(acc.deep_view()) =~~= sections_bytes(preacc).push(
                            lines_bytes(precur),
                        ));
                        assert(lines_bytes(cur.deep_view()) =~~= Seq::<Seq<u8>>::empty());
                    }
                }
            } else if is_blank_line {
            } else {
                let ghost precur = cur.deep_view();
                cur.push(text);
                proof {
                    assert(lines_bytes(cur.deep_view()) =~~= lines_bytes(precur).push(
                        lb[i as int],
                    ));
                }
            }
            i = i + 1;
        }
        if cur.len() > 0 {
            let ghost preacc = acc.deep_view();
            let ghost precur = cur.deep_view();
            acc.push(cur);
            proof {
                assert(sections_bytes(acc.deep_view()) =~~= sections_bytes(preacc).push(
                    lines_bytes(precur),
                ));
            }
        }
        Ok(acc)
    }

    /// Turns sections of `key: value` lines into dictionaries, one per
    /// section, later occurrences of a key overwriting earlier ones.  A
    /// line without a colon, or one whose key or value cannot be kept as
    /// text, fails the whole pass with a `ParseError`.
    pub fn parse_sections(sections: Vec<Vec<String>>) -> (r: Result<Vec<Dict>, ParserError>)
        ensures
            match r {
                Ok(ds) => {
                    &&& ds@.len() == sections@.len()
                    &&& forall|i: int|
                        0 <= i < ds@.len() ==> section_dictable(
                            #[trigger] lines_bytes(sections.deep_view()[i]),
                        )
                    &&& forall|i: int|
                        0 <= i < ds@.len() ==> #[trigger] ds@[i]@ == spec_section_dict(
                            lines_bytes(sections.deep_view()[i]),
                        )
                },
                Err(e) => e is ParseError && exists|i: int|
                    0 <= i < sections@.len() && !section_dictable(
                        #[trigger] lines_bytes(sections.deep_view()[i]),
                    ),
            },
    {
        let mut ds: Vec<Dict> = Vec::new();
        let mut i: usize = 0;
        while i < sections.len()
            invariant
                i <= sections@.len(),
                ds@.len() == i,
                forall|j: int|
                    0 <= j < i ==> section_dictable(
                        #[trigger] lines_bytes(sections.deep_view()[j]),
                    ),
                forall|j: int|
                    0 <= j < i ==> #[trigger] ds@[j]@ == spec_section_dict(
                        lines_bytes(sections.deep_view()[j]),
                    ),
            decreases sections@.len() - i,
        {
            let sec = &sections[i];
            let ghost secb = lines_bytes(sections.deep_view()[i as int]);
            let d = match section_to_dict(sec, Ghost(secb)) {
                Some(d) => d,
                None => {
                    proof {
                        assert(0 <= i < sections@.len() && !section_dictable(
                            lines_bytes(sections.deep_view()[i as int]),
                        ));
                    }
                    return Err(ParserError::ParseError("Invalid line format".to_owned()));
                },
            };
            ds.push(d);
            i = i + 1;
        }
        Ok(ds)
    }

    /// Decodes a whole TXT byte stream, exactly as [`spec_txt_decode`]
    /// describes it.
    pub fn from_read(data: &[u8]) -> (r: Result<Vec<YPBankRecord>, ParserError>)
        ensures
            match spec_txt_decode(data@) {
                Ok(ms) => r matches Ok(v) && v.deep_view() == ms,
                Err(me) => r matches Err(e) && err_matches(e, me),
            },
    {
        let sections = match Self::read_sections(data) {
            Ok(s) => s,
            Err(e) => {
                return Err(e);
            },
        };
        let ghost secsb = spec_sections(split_lines(data@));
        let mut i: usize = 0;
        proof {
            assert(sections.deep_view().len() == secsb.len());
        }
        while i < sections.len()
            invariant
                i <= sections@.len(),
                sections_bytes(sections.deep_view()) == secsb,
                secsb == spec_sections(split_lines(data@)),
                all_lines_utf8(split_lines(data@)),
                forall|j: int| 0 <= j < i ==> section_all_kv(#[trigger] secsb[j]),
            decreases sections@.len() - i,
        {
            proof {
                assert(secsb[i as int] == lines_bytes(sections.deep_view()[i as int]));
            }
            if !section_check_kv(&sections[i], Ghost(secsb[i as int])) {
                proof {
                    assert(0 <= i < secsb.len() && !section_all_kv(secsb[i as int]));
                    assert(!sections_all_kv(secsb));
                }
                return Err(ParserError::ParseError("Invalid line format".to_owned()));
            }
            i = i + 1;
        }
        proof {
            assert(sections_all_kv(secsb));
        }
        let mut recs: Vec<YPBankRecord> = Vec::new();
        let mut i: usize = 0;
        proof {
            assert(recs.deep_view() =~= Seq::<RecordModel>::empty());
            assert(secsb.skip(0) =~= secsb);
        }
        while i < sections.len()
            invariant
                i <= sections@.len(),
                sections_bytes(sections.deep_view()) == secsb,
                secsb == spec_sections(split_lines(data@)),
                all_lines_utf8(split_lines(data@)),
                sections_all_kv(secsb),
                match spec_txt_records(secsb.skip(i as int)) {
                    Ok(rest) => spec_txt_records(secsb) matches Ok(all) && all == recs.deep_view()
                        + rest,
                    Err(e) => spec_txt_records(secsb) matches Err(e2) && e2 == e,
                },
            decreases sections@.len() - i,
        {
            let ghost rem = secsb.skip(i as int);
            proof {
                assert(rem[0] == secsb[i as int]);
                assert(rem.drop_first() =~= secsb.skip(i + 1));
                assert(secsb[i as int] == lines_bytes(sections.deep_view()[i as int]));
            }
            let sec = &sections[i];
            let rec = match extract_record(sec, Ghost(secsb[i as int])) {
                Ok(rec) => rec,
                Err(e) => {
                    proof {
                        assert(rem.len() > 0);
                    }
                    return Err(e);
                },
            };
            let ghost pre = recs.deep_view();
            recs.push(rec);
            proof {
                assert(recs.deep_view() =~= pre.push(rec@));
                match spec_txt_records(rem.drop_first()) {
                    Ok(rest2) => {
                        assert(pre + (seq![rec@] + rest2) =~= recs.deep_view() + rest2);
                    },
                    Err(_) => {},
                }
            }
            i = i + 1;
        }
        proof {
            assert(secsb.skip(secsb.len() as int) =~= Seq::<Seq<Seq<u8>>>::empty());
            assert(recs.deep_view() + Seq::<RecordModel>::empty() =~= recs.deep_view());
        }
        Ok(recs)
    }

    /// Appends the TXT stream of the records to the output.  An empty
    /// record sequence is refused with a `ParseError`.
    pub fn write_to(out: &mut Vec<u8>, records: &Vec<YPBankRecord>) -> (r: Result<(), ParserError>)
        ensures
            records@.len() == 0 ==> (r matches Err(e) && err_matches(e, ErrModel::Parse)
                && final(out)@ == old(out)@),
            records@.len() > 0 ==> (r is Ok && final(out)@ == old(out)@ + spec_txt_encode(
                records.deep_view(),
            )),
    {
        if records.len() == 0 {
            return Err(ParserError::ParseError("No records to write".to_owned()));
        }
        let ghost dv = records.deep_view();
        let mut i: usize = 0;
        while i < records.len()
            invariant
                i <= records@.len(),
                records@.len() > 0,
                dv == records.deep_view(),
                old(out)@ + spec_txt_encode(dv) == out@ + (if i == 0 {
                    spec_txt_tail(dv, 0)
                } else if (i as int) < dv.len() {
                    seq![10u8] + spec_txt_tail(dv.skip(i as int), i as nat)
                } else {
                    Seq::<u8>::empty()
                }),
            decreases records@.len() - i,
        {
            let ghost sub = dv.skip(i as int);
            proof {
                assert(sub[0] == dv[i as int]);
                assert(sub.drop_first() =~= dv.skip(i + 1));
                assert(dv.skip(0) =~= dv);
                assert(records@[i as int]@ == dv[i as int]);
            }
            if i > 0 {
                out.push(10);
            }
            push_block(out, i as u64, &records[i], Ghost(i as nat));
            i = i + 1;
        }
        Ok(())
    }
}

/// A section every line of which can become a dictionary entry: it has a
/// colon, and its key and value read as text.
pub open spec fn section_dictable(sec: Seq<Seq<u8>>) -> bool {
    forall|i: int|
        0 <= i < sec.len() ==> line_has_colon(#[trigger] sec[i]) && valid_utf8(
            spec_line_key(sec[i]),
        ) && valid_utf8(spec_line_value(sec[i]))
}

/// The dictionary of a section: its lines' keys and values, inserted in
/// order.
pub open spec fn spec_section_dict(sec: Seq<Seq<u8>>) -> Seq<(Seq<char>, Seq<char>)>
    decreases sec.len(),
{
    if sec.len() == 0 {
        Seq::empty()
    } else {
        spec_dict_insert(
            spec_section_dict(sec.drop_last()),
            decode_utf8(spec_line_key(sec.last())),
            decode_utf8(spec_line_value(sec.last())),
        )
    }
}

/// Builds the dictionary of one section, or nothing when some line lacks a
/// colon or its key or value cannot be kept as text.
fn section_to_dict(sec: &Vec<String>, Ghost(secb): Ghost<Seq<Seq<u8>>>) -> (r: Option<Dict>)
    requires
        secb == lines_bytes(sec.deep_view()),
    ensures
        match r {
            Some(d) => section_dictable(secb) && d@ == spec_section_dict(secb),
            None => !section_dictable(secb),
        },
{
    let mut d = Dict::new();
    let mut j: usize = 0;
    proof {
        assert(secb.take(0) =~= Seq::<Seq<u8>>::empty());
        assert(d@ =~= spec_section_dict(secb.take(0)));
    }
    while j < sec.len()
        invariant
            j <= sec@.len(),
            secb == lines_bytes(sec.deep_view()),
            forall|t: int|
                0 <= t < j ==> line_has_colon(#[trigger] secb[t]) && valid_utf8(
                    spec_line_key(secb[t]),
                ) && valid_utf8(spec_line_value(secb[t])),
            d@ == spec_section_dict(secb.take(j as int)),
        decreases sec@.len() - j,
    {
        let line = &sec[j];
        let lb = line.as_str().as_bytes();
        proof {
            assert(lb@ == secb[j as int]);
        }
        let c = colon_pos(lb);
        if c >= lb.len() {
            return None;
        }
        let key_raw = line_key_vec(lb);
        let val_raw = line_value_vec(lb);
        let key = match bytes_to_string(key_raw) {
            Some(s) => s,
            None => {
                return None;
            },
        };
        let value = match bytes_to_string(val_raw) {
            Some(s) => s,
            None => {
                return None;
            },
        };
        d.insert(key, value);
        proof {
            assert(secb.take(j + 1).drop_last() =~= secb.take(j as int));
            assert(secb.take(j + 1).last() == secb[j as int]);
        }
        j = j + 1;
    }
    proof {
        assert(secb.take(secb.len() as int) =~= secb);
    }
    Some(d)
}

/// True when every line of the section holds a colon.
fn section_check_kv(sec: &Vec<String>, Ghost(secb): Ghost<Seq<Seq<u8>>>) -> (r: bool)
    requires
        secb == lines_bytes(sec.deep_view()),
    ensures
        r == section_all_kv(secb),
{
    let mut j: usize = 0;
    while j < sec.len()
        invariant
            j <= sec@.len(),
            secb == lines_bytes(sec.deep_view()),
            forall|t: int| 0 <= t < j ==> line_has_colon(#[trigger] secb[t]),
        decreases sec@.len() - j,
    {
        let lb = sec[j].as_str().as_bytes();
        proof {
            assert(lb@ == secb[j as int]);
        }
        let c = colon_pos(lb);
        if c >= lb.len() {
            return false;
        }
        j = j + 1;
    }
    true
}

/// Extracts the record of one section, exactly as
/// [`spec_record_of_section`] describes it.
#[verifier::rlimit(100)]
fn extract_record(sec: &Vec<String>, Ghost(secb): Ghost<Seq<Seq<u8>>>) -> (r: Result<
    YPBankRecord,
    ParserError,
>)
    requires
        secb == lines_bytes(sec.deep_view()),
    ensures
        match spec_record_of_section(secb) {
            Ok(m) => r matches Ok(rec) && rec@ == m,
            Err(me) => r matches Err(e) && err_matches(e, me),
        },
{
    proof {
        reveal(spec_record_of_section);
    }
    let mut j: usize = 0;
    while j < sec.len()
        invariant
            j <= sec@.len(),
            secb == lines_bytes(sec.deep_view()),
            forall|t: int| 0 <= t < j ==> line_has_colon(#[trigger] secb[t]),
        decreases sec@.len() - j,
    {
        let lb = sec[j].as_str().as_bytes();
        proof {
            assert(lb@ == secb[j as int]);
        }
        let c = colon_pos(lb);
        if c >= lb.len() {
            proof {
                reveal(spec_record_of_section);
                assert(!line_has_colon(secb[j as int]));
                assert(!section_all_kv(secb));
            }
            return Err(ParserError::ParseError("Invalid line format".to_owned()));
        }
        j = j + 1;
    }
    let k = key_tx_id();
    let tx_id_raw = match lookup_value(sec, k.as_slice(), Ghost(secb)) {
        Some(v) => v,
        None => {
            return Err(ParserError::MissingTxId);
        },
    };
    let tx_id = match parse_u64(tx_id_raw.as_slice()) {
        Some(v) => v,
        None => {
            return Err(ParserError::ParseError("Failed to parse tx_id".to_owned()));
        },
    };
    let k = key_tx_type();
    let tx_type_raw = match lookup_value(sec, k.as_slice(), Ghost(secb)) {
        Some(v) => v,
        None => {
            return Err(ParserError::MissingTransactionType);
        },
    };
    let tx_type = match TransactionType::from_text(tx_type_raw.as_slice()) {
        Some(v) => v,
        None => {
            return Err(ParserError::ParseError("Failed to parse tx_type".to_owned()));
        },
    };
    let k = key_from_user_id();
    let from_raw = match lookup_value(sec, k.as_slice(), Ghost(secb)) {
        Some(v) => v,
        None => {
            return Err(ParserError::MissingFromUserId);
        },
    };
    let from_user_id = match parse_u64(from_raw.as_slice()) {
        Some(v) => v,
        None => {
            return Err(ParserError::ParseError("Failed to parse from_user_id".to_owned()));
        },
    };
    let k = key_to_user_id();
    let to_raw = match lookup_value(sec, k.as_slice(), Ghost(secb)) {
        Some(v) => v,
        None => {
            return Err(ParserError::MissingToUserId);
        },
    };
    let to_user_id = match parse_u64(to_raw.as_slice()) {
        Some(v) => v,
        None => {
            return Err(ParserError::ParseError("Failed to parse to_user_id".to_owned()));
        },
    };
    let k = key_amount();
    let amount_raw = match lookup_value(sec, k.as_slice(), Ghost(secb)) {
        Some(v) => v,
        None => {
            return Err(ParserError::MissingAmount);
        },
    };
    let amount = match parse_i64(amount_raw.as_slice()) {
        Some(v) => v,
        None => {
            return Err(ParserError::ParseError("Failed to parse amount".to_owned()));
        },
    };
    let k = key_timestamp();
    let ts_raw = match lookup_value(sec, k.as_slice(), Ghost(secb)) {
        Some(v) => v,
        None => {
            return Err(ParserError::MissingTimestamp);
        },
    };
    let timestamp = match parse_u64(ts_raw.as_slice()) {
        Some(v) => v,
        None => {
            return Err(ParserError::ParseError("Failed to parse timestamp".to_owned()));
        },
    };
    let k = key_status();
    let status_raw = match lookup_value(sec, k.as_slice(), Ghost(secb)) {
        Some(v) => v,
        None => {
            return Err(ParserError::MissingStatus);
        },
    };
    let status = match Status::from_text(status_raw.as_slice()) {
        Some(v) => v,
        None => {
            return Err(ParserError::ParseError("Failed to parse status".to_owned()));
        },
    };
    let k = key_description();
    let desc_raw = match lookup_value(sec, k.as_slice(), Ghost(secb)) {
        Some(v) => v,
        None => {
            return Err(ParserError::MissingDescription);
        },
    };
    let description = match bytes_to_string(desc_raw) {
        Some(s) => s,
        None => {
            return Err(ParserError::ParseError("Failed to parse description".to_owned()));
        },
    };
    Ok(
        YPBankRecord {
            tx_id,
            tx_type,
            from_user_id,
            to_user_id,
            amount,
            timestamp,
            status,
            description,
        },
    )
}

/// The value of the last line whose key matches, as [`spec_lookup`] gives
/// it.
#[verifier::rlimit(100)]
#[verifier::spinoff_prover]
fn lookup_value(sec: &Vec<String>, key: &[u8], Ghost(secb): Ghost<Seq<Seq<u8>>>) -> (r: Option<
    Vec<u8>,
>)
    requires
        secb == lines_bytes(sec.deep_view()),
    ensures
        match r {
            Some(v) => spec_lookup(secb, key@) == Some(v@),
            None => spec_lookup(secb, key@) is None,
        },
{
    let mut j: usize = sec.len();
    proof {
        assert(secb.take(secb.len() as int) =~= secb);
    }
    while j > 0
        invariant
            j <= sec@.len(),
            secb == lines_bytes(sec.deep_view()),
            spec_lookup(secb.take(j as int), key@) == spec_lookup(secb, key@),
        decreases j,
    {
        j = j - 1;
        let lb = sec[j].as_str().as_bytes();
        proof {
            assert(lb@ == secb[j as int]);
            assert(secb.take(j + 1).drop_last() =~= secb.take(j as int));
            assert(secb.take(j + 1).last() == secb[j as int]);
        }
        let lk = line_key_vec(lb);
        if eq_bytes(lk.as_slice(), key) {
            let c = colon_pos(lb);
            if c < lb.len() {
                let v = line_value_vec(lb);
                return Some(v);
            } else {
                let v = line_value_vec_nocolon(lb);
                return Some(v);
            }
        }
    }
    proof {
        assert(secb.take(0) =~= Seq::<Seq<u8>>::empty());
    }
    None
}

/// The value of a line without a colon: the trim of its empty tail.
fn line_value_vec_nocolon(l: &[u8]) -> (r: Vec<u8>)
    requires
        colon_ix(l@) >= l@.len(),
    ensures
        r@ == spec_line_value(l@),
{
    let r: Vec<u8> = Vec::new();
    proof {
        assert(r@ =~= spec_line_value(l@));
    }
    r
}

/// Appends the block of one record at an index.
#[verifier::rlimit(100)]
fn push_block(out: &mut Vec<u8>, index: u64, rec: &YPBankRecord, Ghost(i): Ghost<nat>)
    requires
        index as nat == i,
    ensures
        final(out)@ == old(out)@ + spec_txt_block(i, rec@),
{
    proof {
        reveal(spec_txt_block);
    }
    let w = record_prefix();
    push_all(out, w.as_slice());
    let digits = format_u64(index);
    push_all(out, digits.as_slice());
    let w = paren_open();
    push_all(out, w.as_slice());
    let name = rec.tx_type.name_bytes();
    push_all(out, name.as_slice());
    let w = paren_close();
    push_all(out, w.as_slice());
    out.push(10);
    let k = key_tx_id();
    push_kv_line(out, k.as_slice(), format_u64(rec.tx_id).as_slice());
    let k = key_tx_type();
    let name = rec.tx_type.name_bytes();
    push_kv_line(out, k.as_slice(), name.as_slice());
    let k = key_from_user_id();
    push_kv_line(out, k.as_slice(), format_u64(rec.from_user_id).as_slice());
    let k = key_to_user_id();
    push_kv_line(out, k.as_slice(), format_u64(rec.to_user_id).as_slice());
    let k = key_amount();
    push_kv_line(out, k.as_slice(), format_i64(rec.amount).as_slice());
    let k = key_timestamp();
    push_kv_line(out, k.as_slice(), format_u64(rec.timestamp).as_slice());
    let k = key_status();
    let name = rec.status.name_bytes();
    push_kv_line(out, k.as_slice(), name.as_slice());
    let k = key_description();
    push_kv_line(out, k.as_slice(), rec.description.as_str().as_bytes());
    proof {
        assert(out@ =~= old(out)@ + spec_txt_block(i, rec@));
    }
}

/// Appends one `key: value` line, with its newline.
fn push_kv_line(out: &mut Vec<u8>, key: &[u8], value: &[u8])
    ensures
        final(out)@ == old(out)@ + spec_kv_line(key@, value@),
{
    push_all(out, key);
    let w = kv_sep();
    push_all(out, w.as_slice());
    push_all(out, value);
    out.push(10);
    proof {
        assert(out@ =~= old(out)@ + spec_kv_line(key@, value@));
    }
}

/// A byte that may stand in a section key: a lower-case letter or an
/// underscore.
pub open spec fn txt_key_byte(b: u8) -> bool {
    (97 <= b && b <= 122) || b == 95
}

/// The content of one `key: value` line, without its newline.
pub open spec fn kv_content(key: Seq<u8>, value: Seq<u8>) -> Seq<u8> {
    key + spec_kv_sep() + value
}

/// The contents of the eight `key: value` lines of one record's section.
pub open spec fn kv_lines_of(r: RecordModel) -> Seq<Seq<u8>> {
    seq![
        kv_content(spec_key_tx_id(), spec_u64_digits(r.tx_id as nat)),
        kv_content(spec_key_tx_type(), spec_tx_type_name(r.tx_type)),
        kv_content(spec_key_from_user_id(), spec_u64_digits(r.from_user_id as nat)),
        kv_content(spec_key_to_user_id(), spec_u64_digits(r.to_user_id as nat)),
        kv_content(spec_key_amount(), spec_i64_digits(r.amount)),
        kv_content(spec_key_timestamp(), spec_u64_digits(r.timestamp as nat)),
        kv_content(spec_key_status(), spec_status_name(r.status)),
        kv_content(spec_key_description(), desc_bytes(r)),
    ]
}

/// The content of a record's delimiter line, without its newline.
pub open spec fn dline(i0: nat, r: RecordModel) -> Seq<u8> {
    spec_record_prefix() + spec_u64_digits(i0) + spec_paren_open() + spec_tx_type_name(r.tx_type)
        + spec_paren_close()
}

/// The line list of an encoded record sequence from index `i0` on.
pub open spec fn txt_tail_lines(rs: Seq<RecordModel>, i0: nat) -> Seq<Seq<u8>>
    decreases rs.len(),
{
    if rs.len() == 0 {
        Seq::empty()
    } else if rs.len() == 1 {
        seq![dline(i0, rs[0])] + kv_lines_of(rs[0])
    } else {
        seq![dline(i0, rs[0])] + kv_lines_of(rs[0]) + seq![Seq::<u8>::empty()] + txt_tail_lines(
            rs.drop_first(),
            i0 + 1,
        )
    }
}

/// A value token is trim-stable: empty, or no whitespace at either edge.
pub open spec fn value_shaped(v: Seq<u8>) -> bool {
    &&& v.len() == 0 || (!is_ws(v.first()) && !is_ws(v.last()))
    &&& all_bytes(v, |b: u8| b != 10)
    &&& valid_utf8(v)
}

/// Trimming keeps the head byte of a sequence that does not start with
/// whitespace.
proof fn lemma_trim_back_keeps_head(s: Seq<u8>)
    requires
        s.len() > 0,
        !is_ws(s[0]),
    ensures
        trim_back(s).len() > 0,
        trim_back(s)[0] == s[0],
    decreases s.len(),
{
    if is_ws(s.last()) {
        assert(s.len() > 1);
        lemma_trim_back_keeps_head(s.drop_last());
    }
}

/// Trimming a single leading space recovers a trim-stable value.
proof fn lemma_trim_space_prefix(v: Seq<u8>)
    requires
        v.len() == 0 || (!is_ws(v.first()) && !is_ws(v.last())),
    ensures
        trim(seq![32u8] + v) == v,
{
    let s = seq![32u8] + v;
    assert(is_ws(s[0]));
    assert(s.drop_first() =~= v);
    if v.len() == 0 {
        assert(v =~= Seq::<u8>::empty());
        assert(s.drop_first() =~= Seq::<u8>::empty());
        assert(trim_front(Seq::<u8>::empty()) =~= Seq::<u8>::empty());
        assert(trim_front(s) =~= Seq::<u8>::empty());
        assert(trim_back(Seq::<u8>::empty()) =~= Seq::<u8>::empty());
    } else {
        assert(trim_front(v) == v);
        assert(trim_back(v) == v);
    }
}

/// The digits and names written as values are trim-stable tokens.
proof fn lemma_value_shapes(r: RecordModel)
    requires
        txt_safe(r),
    ensures
        value_shaped(spec_u64_digits(r.tx_id as nat)),
        value_shaped(spec_tx_type_name(r.tx_type)),
        value_shaped(spec_u64_digits(r.from_user_id as nat)),
        value_shaped(spec_u64_digits(r.to_user_id as nat)),
        value_shaped(spec_i64_digits(r.amount)),
        value_shaped(spec_u64_digits(r.timestamp as nat)),
        value_shaped(spec_status_name(r.status)),
        value_shaped(desc_bytes(r)),
{
    crate::decimal::lemma_digits_shape(r.tx_id as nat);
    crate::decimal::lemma_digits_shape(r.from_user_id as nat);
    crate::decimal::lemma_digits_shape(r.to_user_id as nat);
    crate::decimal::lemma_digits_shape(r.timestamp as nat);
    if r.amount < 0 {
        crate::decimal::lemma_digits_shape((-(r.amount as int)) as nat);
        assert(spec_i64_digits(r.amount)[0] == 45);
        assert(spec_i64_digits(r.amount).last() == spec_u64_digits(
            (-(r.amount as int)) as nat,
        ).last());
    } else {
        crate::decimal::lemma_digits_shape(r.amount as nat);
    }
    assert forall|s: Seq<u8>|
        crate::decimal::all_digits(s) implies value_shaped(s) && all_bytes(
        s,
        |b: u8| b != 10,
    ) by {
        assert(forall|i: int| 0 <= i < s.len() ==> 48 <= #[trigger] s[i] <= 57);
        crate::text::lemma_ascii_valid_utf8(s);
    }
    crate::text::lemma_ascii_valid_utf8(spec_tx_type_name(r.tx_type));
    crate::text::lemma_ascii_valid_utf8(spec_status_name(r.status));
    crate::text::lemma_ascii_valid_utf8(spec_i64_digits(r.amount));
    vstd::utf8::encode_utf8_valid_utf8(r.description);
    let d = desc_bytes(r);
    assert(all_bytes(d, |b: u8| b != 10)) by {
        assert(forall|q: int| 0 <= q < d.len() && d[q] == 10 ==> d.contains(10));
    }
}

/// The first colon of a line lies where the first colon byte lies.
proof fn lemma_colon_at(l: Seq<u8>, k: int)
    requires
        0 <= k < l.len(),
        forall|t: int| 0 <= t < k ==> l[t] != 58,
        l[k] == 58,
    ensures
        colon_ix(l) == k,
{
    lemma_colon_from(l, 0, k);
}

/// Helper for [`lemma_colon_at`]: the search from `i` finds `k`.
proof fn lemma_colon_from(l: Seq<u8>, i: int, k: int)
    requires
        0 <= i <= k < l.len(),
        forall|t: int| i <= t < k ==> l[t] != 58,
        l[k] == 58,
    ensures
        colon_rec(l, i) == k,
    decreases k - i,
{
    if i < k {
        lemma_colon_from(l, i + 1, k);
    }
}

/// Everything a `key: value` line satisfies: it is no delimiter, not
/// blank, holds its colon right after the key, and gives back its key and
/// value.
#[verifier::rlimit(100)]
#[verifier::spinoff_prover]
proof fn lemma_kv_line_shape(key: Seq<u8>, value: Seq<u8>)
    requires
        key.len() > 0,
        all_bytes(key, |b: u8| txt_key_byte(b)),
        value_shaped(value),
    ensures
        !is_delim(kv_content(key, value)),
        !is_blank(kv_content(key, value)),
        all_bytes(kv_content(key, value), |b: u8| b != 10),
        kv_content(key, value).len() > 0,
        kv_content(key, value).last() != 13,
        valid_utf8(kv_content(key, value)),
        line_has_colon(kv_content(key, value)),
        spec_line_key(kv_content(key, value)) == lower_all(key),
        spec_line_value(kv_content(key, value)) == value,
{
    broadcast use vstd::utf8::valid_utf8_concat;

    let l = kv_content(key, value);
    assert(l.len() == key.len() + 2 + value.len());
    assert(forall|t: int| 0 <= t < key.len() ==> #[trigger] l[t] == key[t]);
    assert(l[key.len() as int] == 58);
    assert(l[key.len() + 1 as int] == 32);
    assert(forall|t: int|
        key.len() + 2 <= t < l.len() ==> #[trigger] l[t] == value[t - key.len() - 2]);
    assert(l[0] == key[0]);
    assert(txt_key_byte(key[0]));
    assert(!is_delim(l));
    assert(!is_ws(l[0]));
    assert(trim_front(l) == l);
    lemma_trim_back_keeps_head(l);
    assert(!is_blank(l));
    lemma_colon_at(l, key.len() as int);
    assert(line_has_colon(l));
    assert(l.take(key.len() as int) =~= key);
    assert(trim(key) == key) by {
        assert(!is_ws(key[0]));
        assert(!is_ws(key.last()));
        assert(trim_front(key) == key);
        assert(trim_back(key) == key);
    }
    assert(spec_line_key(l) == lower_all(key));
    assert(l.skip(key.len() + 1 as int) =~= seq![32u8] + value);
    lemma_trim_space_prefix(value);
    assert(spec_line_value(l) == value);
    if value.len() > 0 {
        assert(l.last() == value.last());
        assert(l.last() != 13);
    } else {
        assert(l.last() == 32);
    }
    assert(all_bytes(l, |b: u8| b != 10)) by {
        lemma_all_bytes_concat(key, spec_kv_sep(), |b: u8| b != 10);
        lemma_all_bytes_concat(key + spec_kv_sep(), value, |b: u8| b != 10);
        assert(l == key + spec_kv_sep() + value);
    }
    assert(valid_utf8(l)) by {
        crate::text::lemma_ascii_valid_utf8(key);
        crate::text::lemma_ascii_valid_utf8(spec_kv_sep());
        assert(valid_utf8(key + spec_kv_sep()));
        assert(valid_utf8((key + spec_kv_sep()) + value));
        assert(l =~= (key + spec_kv_sep()) + value);
    }
}

/// The delimiter line opens with `#`, reads as text, and holds no newline.
#[verifier::rlimit(100)]
proof fn lemma_dline_shape(i0: nat, r: RecordModel)
    ensures
        is_delim(dline(i0, r)),
        all_bytes(dline(i0, r), |b: u8| b != 10),
        dline(i0, r).len() > 0,
        dline(i0, r).last() != 13,
        valid_utf8(dline(i0, r)),
{
    let l = dline(i0, r);
    crate::decimal::lemma_digits_shape(i0);
    assert(l[0] == 35);
    assert(l.last() == 41);
    assert(forall|i: int| 0 <= i < l.len() ==> #[trigger] l[i] < 0x80) by {
        assert(forall|i: int|
            0 <= i < spec_u64_digits(i0).len() ==> #[trigger] spec_u64_digits(i0)[i] < 0x80);
    }
    crate::text::lemma_ascii_valid_utf8(l);
}

/// The keys of the eight section lines.
proof fn lemma_keys_shape()
    ensures
        all_bytes(spec_key_tx_id(), |b: u8| txt_key_byte(b)),
        all_bytes(spec_key_tx_type(), |b: u8| txt_key_byte(b)),
        all_bytes(spec_key_from_user_id(), |b: u8| txt_key_byte(b)),
        all_bytes(spec_key_to_user_id(), |b: u8| txt_key_byte(b)),
        all_bytes(spec_key_amount(), |b: u8| txt_key_byte(b)),
        all_bytes(spec_key_timestamp(), |b: u8| txt_key_byte(b)),
        all_bytes(spec_key_status(), |b: u8| txt_key_byte(b)),
        all_bytes(spec_key_description(), |b: u8| txt_key_byte(b)),
        lower_all(spec_key_tx_id()) == spec_key_tx_id(),
        lower_all(spec_key_tx_type()) == spec_key_tx_type(),
        lower_all(spec_key_from_user_id()) == spec_key_from_user_id(),
        lower_all(spec_key_to_user_id()) == spec_key_to_user_id(),
        lower_all(spec_key_amount()) == spec_key_amount(),
        lower_all(spec_key_timestamp()) == spec_key_timestamp(),
        lower_all(spec_key_status()) == spec_key_status(),
        lower_all(spec_key_description()) == spec_key_description(),
{
    assert(lower_all(spec_key_tx_id()) =~= spec_key_tx_id());
    assert(lower_all(spec_key_tx_type()) =~= spec_key_tx_type());
    assert(lower_all(spec_key_from_user_id()) =~= spec_key_from_user_id());
    assert(lower_all(spec_key_to_user_id()) =~= spec_key_to_user_id());
    assert(lower_all(spec_key_amount()) =~= spec_key_amount());
    assert(lower_all(spec_key_timestamp()) =~= spec_key_timestamp());
    assert(lower_all(spec_key_status()) =~= spec_key_status());
    assert(lower_all(spec_key_description()) =~= spec_key_description());
}

/// One record's section gives its record back.
#[verifier::rlimit(100)]
#[verifier::spinoff_prover]
proof fn lemma_section_record(r: RecordModel)
    requires
        txt_safe(r),
    ensures
        section_all_kv(kv_lines_of(r)),
        spec_record_of_section(kv_lines_of(r)) == Ok::<RecordModel, ErrModel>(r),
{
    reveal(spec_record_of_section);
    lemma_keys_shape();
    lemma_value_shapes(r);
    let sec = kv_lines_of(r);
    let l1 = kv_content(spec_key_tx_id(), spec_u64_digits(r.tx_id as nat));
    let l2 = kv_content(spec_key_tx_type(), spec_tx_type_name(r.tx_type));
    let l3 = kv_content(spec_key_from_user_id(), spec_u64_digits(r.from_user_id as nat));
    let l4 = kv_content(spec_key_to_user_id(), spec_u64_digits(r.to_user_id as nat));
    let l5 = kv_content(spec_key_amount(), spec_i64_digits(r.amount));
    let l6 = kv_content(spec_key_timestamp(), spec_u64_digits(r.timestamp as nat));
    let l7 = kv_content(spec_key_status(), spec_status_name(r.status));
    let l8 = kv_content(spec_key_description(), desc_bytes(r));
    lemma_kv_line_shape(spec_key_tx_id(), spec_u64_digits(r.tx_id as nat));
    lemma_kv_line_shape(spec_key_tx_type(), spec_tx_type_name(r.tx_type));
    lemma_kv_line_shape(spec_key_from_user_id(), spec_u64_digits(r.from_user_id as nat));
    lemma_kv_line_shape(spec_key_to_user_id(), spec_u64_digits(r.to_user_id as nat));
    lemma_kv_line_shape(spec_key_amount(), spec_i64_digits(r.amount));
    lemma_kv_line_shape(spec_key_timestamp(), spec_u64_digits(r.timestamp as nat));
    lemma_kv_line_shape(spec_key_status(), spec_status_name(r.status));
    lemma_kv_line_shape(spec_key_description(), desc_bytes(r));
    assert(section_all_kv(sec)) by {
        assert(forall|i: int| 0 <= i < sec.len() ==> line_has_colon(#[trigger] sec[i]));
    }
    assert(sec.drop_last() =~= seq![l1, l2, l3, l4, l5, l6, l7]);
    assert(seq![l1, l2, l3, l4, l5, l6, l7].drop_last() =~= seq![l1, l2, l3, l4, l5, l6]);
    assert(seq![l1, l2, l3, l4, l5, l6].drop_last() =~= seq![l1, l2, l3, l4, l5]);
    assert(seq![l1, l2, l3, l4, l5].drop_last() =~= seq![l1, l2, l3, l4]);
    assert(seq![l1, l2, l3, l4].drop_last() =~= seq![l1, l2, l3]);
    assert(seq![l1, l2, l3].drop_last() =~= seq![l1, l2]);
    assert(seq![l1, l2].drop_last() =~= seq![l1]);
    assert(seq![l1].drop_last() =~= Seq::<Seq<u8>>::empty());
    assert(sec =~= seq![l1, l2, l3, l4, l5, l6, l7, l8]);
    assert(spec_key_tx_id() != spec_key_tx_type());
    assert(spec_key_tx_id() != spec_key_from_user_id());
    assert(spec_key_tx_id() != spec_key_to_user_id());
    assert(spec_key_tx_id() != spec_key_amount());
    assert(spec_key_tx_id() != spec_key_timestamp());
    assert(spec_key_tx_id() != spec_key_status());
    assert(spec_key_tx_id() != spec_key_description());
    assert(spec_key_tx_type() != spec_key_from_user_id());
    assert(spec_key_tx_type() != spec_key_to_user_id());
    assert(spec_key_tx_type() != spec_key_amount());
    assert(spec_key_tx_type() != spec_key_timestamp());
    assert(spec_key_tx_type() != spec_key_status());
    assert(spec_key_tx_type() != spec_key_description());
    assert(spec_key_from_user_id() != spec_key_to_user_id());
    assert(spec_key_from_user_id() != spec_key_amount());
    assert(spec_key_from_user_id() != spec_key_timestamp());
    assert(spec_key_from_user_id() != spec_key_status());
    assert(spec_key_from_user_id() != spec_key_description());
    assert(spec_key_to_user_id() != spec_key_amount());
    assert(spec_key_to_user_id() != spec_key_timestamp());
    assert(spec_key_to_user_id() != spec_key_status());
    assert(spec_key_to_user_id() != spec_key_description());
    assert(spec_key_amount() != spec_key_timestamp());
    assert(spec_key_amount() != spec_key_status());
    assert(spec_key_amount() != spec_key_description());
    assert(spec_key_timestamp() != spec_key_status());
    assert(spec_key_timestamp() != spec_key_description());
    assert(spec_key_status() != spec_key_description());
    assert(spec_lookup(seq![l1, l2, l3, l4, l5, l6, l7, l8], spec_key_description()) == Some(desc_bytes(r)));
    assert(spec_lookup(sec, spec_key_description()) == Some(desc_bytes(r)));
    assert(spec_lookup(seq![l1, l2, l3, l4, l5, l6, l7, l8], spec_key_status()) == spec_lookup(seq![l1, l2, l3, l4, l5, l6, l7], spec_key_status()));
    assert(spec_lookup(seq![l1, l2, l3, l4, l5, l6, l7], spec_key_status()) == Some(spec_status_name(r.status)));
    assert(spec_lookup(sec, spec_key_status()) == Some(spec_status_name(r.status)));
    assert(spec_lookup(seq![l1, l2, l3, l4, l5, l6, l7, l8], spec_key_timestamp()) == spec_lookup(seq![l1, l2, l3, l4, l5, l6, l7], spec_key_timestamp()));
    assert(spec_lookup(seq![l1, l2, l3, l4, l5, l6, l7], spec_key_timestamp()) == spec_lookup(seq![l1, l2, l3, l4, l5, l6], spec_key_timestamp()));
    assert(spec_lookup(seq![l1, l2, l3, l4, l5, l6], spec_key_timestamp()) == Some(spec_u64_digits(r.timestamp as nat)));
    assert(spec_lookup(sec, spec_key_timestamp()) == Some(spec_u64_digits(r.timestamp as nat)));
    assert(spec_lookup(seq![l1, l2, l3, l4, l5, l6, l7, l8], spec_key_amount()) == spec_lookup(seq![l1, l2, l3, l4, l5, l6, l7], spec_key_amount()));
    assert(spec_lookup(seq![l1, l2, l3, l4, l5, l6, l7], spec_key_amount()) == spec_lookup(seq![l1, l2, l3, l4, l5, l6], spec_key_amount()));
    assert(spec_lookup(seq![l1, l2, l3, l4, l5, l6], spec_key_amount()) == spec_lookup(seq![l1, l2, l3, l4, l5], spec_key_amount()));
    assert(spec_lookup(seq![l1, l2, l3, l4, l5], spec_key_amount()) == Some(spec_i64_digits(r.amount)));
    assert(spec_lookup(sec, spec_key_amount()) == Some(spec_i64_digits(r.amount)));
    assert(spec_lookup(seq![l1, l2, l3, l4, l5, l6, l7, l8], spec_key_to_user_id()) == spec_lookup(seq![l1, l2, l3, l4, l5, l6, l7], spec_key_to_user_id()));
    assert(spec_lookup(seq![l1, l2, l3, l4, l5, l6, l7], spec_key_to_user_id()) == spec_lookup(seq![l1, l2, l3, l4, l5, l6], spec_key_to_user_id()));
    assert(spec_lookup(seq![l1, l2, l3, l4, l5, l6], spec_key_to_user_id()) == spec_lookup(seq![l1, l2, l3, l4, l5], spec_key_to_user_id()));
    assert(spec_lookup(seq![l1, l2, l3, l4, l5], spec_key_to_user_id()) == spec_lookup(seq![l1, l2, l3, l4], spec_key_to_user_id()));
    assert(spec_lookup(seq![l1, l2, l3, l4], spec_key_to_user_id()) == Some(spec_u64_digits(r.to_user_id as nat)));
    assert(spec_lookup(sec, spec_key_to_user_id()) == Some(spec_u64_digits(r.to_user_id as nat)));
    assert(spec_lookup(seq![l1, l2, l3, l4, l5, l6, l7, l8], spec_key_from_user_id()) == spec_lookup(seq![l1, l2, l3, l4, l5, l6, l7], spec_key_from_user_id()));
    assert(spec_lookup(seq![l1, l2, l3, l4, l5, l6, l7], spec_key_from_user_id()) == spec_lookup(seq![l1, l2, l3, l4, l5, l6], spec_key_from_user_id()));
    assert(spec_lookup(seq![l1, l2, l3, l4, l5, l6], spec_key_from_user_id()) == spec_lookup(seq![l1, l2, l3, l4, l5], spec_key_from_user_id()));
    assert(spec_lookup(seq![l1, l2, l3, l4, l5], spec_key_from_user_id()) == spec_lookup(seq![l1, l2, l3, l4], spec_key_from_user_id()));
    assert(spec_lookup(seq![l1, l2, l3, l4], spec_key_from_user_id()) == spec_lookup(seq![l1, l2, l3], spec_key_from_user_id()));
    assert(spec_lookup(seq![l1, l2, l3], spec_key_from_user_id()) == Some(spec_u64_digits(r.from_user_id as nat)));
    assert(spec_lookup(sec, spec_key_from_user_id()) == Some(spec_u64_digits(r.from_user_id as nat)));
    assert(spec_lookup(seq![l1, l2, l3, l4, l5, l6, l7, l8], spec_key_tx_type()) == spec_lookup(seq![l1, l2, l3, l4, l5, l6, l7], spec_key_tx_type()));
    assert(spec_lookup(seq![l1, l2, l3, l4, l5, l6, l7], spec_key_tx_type()) == spec_lookup(seq![l1, l2, l3, l4, l5, l6], spec_key_tx_type()));
    assert(spec_lookup(seq![l1, l2, l3, l4, l5, l6], spec_key_tx_type()) == spec_lookup(seq![l1, l2, l3, l4, l5], spec_key_tx_type()));
    assert(spec_lookup(seq![l1, l2, l3, l4, l5], spec_key_tx_type()) == spec_lookup(seq![l1, l2, l3, l4], spec_key_tx_type()));
    assert(spec_lookup(seq![l1, l2, l3, l4], spec_key_tx_type()) == spec_lookup(seq![l1, l2, l3], spec_key_tx_type()));
    assert(spec_lookup(seq![l1, l2, l3], spec_key_tx_type()) == spec_lookup(seq![l1, l2], spec_key_tx_type()));
    assert(spec_lookup(seq![l1, l2], spec_key_tx_type()) == Some(spec_tx_type_name(r.tx_type)));
    assert(spec_lookup(sec, spec_key_tx_type()) == Some(spec_tx_type_name(r.tx_type)));
    assert(spec_lookup(seq![l1, l2, l3, l4, l5, l6, l7, l8], spec_key_tx_id()) == spec_lookup(seq![l1, l2, l3, l4, l5, l6, l7], spec_key_tx_id()));
    assert(spec_lookup(seq![l1, l2, l3, l4, l5, l6, l7], spec_key_tx_id()) == spec_lookup(seq![l1, l2, l3, l4, l5, l6], spec_key_tx_id()));
    assert(spec_lookup(seq![l1, l2, l3, l4, l5, l6], spec_key_tx_id()) == spec_lookup(seq![l1, l2, l3, l4, l5], spec_key_tx_id()));
    assert(spec_lookup(seq![l1, l2, l3, l4, l5], spec_key_tx_id()) == spec_lookup(seq![l1, l2, l3, l4], spec_key_tx_id()));
    assert(spec_lookup(seq![l1, l2, l3, l4], spec_key_tx_id()) == spec_lookup(seq![l1, l2, l3], spec_key_tx_id()));
    assert(spec_lookup(seq![l1, l2, l3], spec_key_tx_id()) == spec_lookup(seq![l1, l2], spec_key_tx_id()));
    assert(spec_lookup(seq![l1, l2], spec_key_tx_id()) == spec_lookup(seq![l1], spec_key_tx_id()));
    assert(spec_lookup(seq![l1], spec_key_tx_id()) == Some(spec_u64_digits(r.tx_id as nat)));
    assert(spec_lookup(sec, spec_key_tx_id()) == Some(spec_u64_digits(r.tx_id as nat)));
    crate::decimal::lemma_parse_format_u64(r.tx_id);
    crate::decimal::lemma_parse_format_u64(r.from_user_id);
    crate::decimal::lemma_parse_format_u64(r.to_user_id);
    crate::decimal::lemma_parse_format_u64(r.timestamp);
    crate::decimal::lemma_parse_format_i64(r.amount);
    crate::types::lemma_tx_type_text_round(r.tx_type);
    crate::types::lemma_status_text_round(r.status);
    vstd::utf8::encode_utf8_valid_utf8(r.description);
    vstd::utf8::encode_utf8_decode_utf8(r.description);
    let m = spec_record_of_section(sec)->Ok_0;
    assert(m =~= r);
}

/// Every structural fact of every line of one record's section.
proof fn lemma_kv_lines_facts(r: RecordModel)
    requires
        txt_safe(r),
    ensures
        forall|k: int|
            0 <= k < kv_lines_of(r).len() ==> !is_delim(#[trigger] kv_lines_of(r)[k]) && !is_blank(
                kv_lines_of(r)[k],
            ) && valid_utf8(kv_lines_of(r)[k]) && all_bytes(kv_lines_of(r)[k], |b: u8| b != 10)
                && kv_lines_of(r)[k].len() > 0 && kv_lines_of(r)[k].last() != 13,
{
    lemma_keys_shape();
    lemma_value_shapes(r);
    lemma_kv_line_shape(spec_key_tx_id(), spec_u64_digits(r.tx_id as nat));
    lemma_kv_line_shape(spec_key_tx_type(), spec_tx_type_name(r.tx_type));
    lemma_kv_line_shape(spec_key_from_user_id(), spec_u64_digits(r.from_user_id as nat));
    lemma_kv_line_shape(spec_key_to_user_id(), spec_u64_digits(r.to_user_id as nat));
    lemma_kv_line_shape(spec_key_amount(), spec_i64_digits(r.amount));
    lemma_kv_line_shape(spec_key_timestamp(), spec_u64_digits(r.timestamp as nat));
    lemma_kv_line_shape(spec_key_status(), spec_status_name(r.status));
    lemma_kv_line_shape(spec_key_description(), desc_bytes(r));
}

/// Grouping passes finished sections through; the rest of the lines group
/// on their own.
proof fn lemma_sections_shift(lines: Seq<Seq<u8>>, i: int, cur: Seq<Seq<u8>>, acc: Seq<Seq<Seq<u8>>>)
    requires
        0 <= i <= lines.len(),
    ensures
        sections_rec(lines, i, cur, acc) == acc + sections_rec(
            lines.skip(i),
            0,
            cur,
            Seq::empty(),
        ),
    decreases lines.len() - i,
{
    let rest = lines.skip(i);
    if i >= lines.len() {
        assert(rest.len() == 0);
        if cur.len() == 0 {
            assert(acc + Seq::<Seq<Seq<u8>>>::empty() =~= acc);
        } else {
            assert(acc + Seq::<Seq<Seq<u8>>>::empty().push(cur) =~= acc.push(cur));
        }
    } else {
        assert(rest[0] == lines[i]);
        assert(rest.skip(1) =~= lines.skip(i + 1));
        if is_delim(lines[i]) {
            if cur.len() == 0 {
                lemma_sections_shift(lines, i + 1, cur, acc);
                lemma_sections_shift(rest, 1, cur, Seq::empty());
            } else {
                lemma_sections_shift(lines, i + 1, Seq::empty(), acc.push(cur));
                lemma_sections_shift(rest, 1, Seq::empty(), Seq::<Seq<Seq<u8>>>::empty().push(cur));
                assert(acc + (Seq::<Seq<Seq<u8>>>::empty().push(cur) + sections_rec(
                    lines.skip(i + 1),
                    0,
                    Seq::empty(),
                    Seq::empty(),
                )) =~= acc.push(cur) + sections_rec(
                    lines.skip(i + 1),
                    0,
                    Seq::empty(),
                    Seq::empty(),
                ));
            }
        } else if is_blank(lines[i]) {
            lemma_sections_shift(lines, i + 1, cur, acc);
            lemma_sections_shift(rest, 1, cur, Seq::empty());
        } else {
            lemma_sections_shift(lines, i + 1, cur.push(lines[i]), acc);
            lemma_sections_shift(rest, 1, cur.push(lines[i]), Seq::empty());
        }
    }
}

/// A stretch of ordinary lines accumulates into the current section.
proof fn lemma_sections_consume(
    lines: Seq<Seq<u8>>,
    i: int,
    j: int,
    cur: Seq<Seq<u8>>,
    acc: Seq<Seq<Seq<u8>>>,
)
    requires
        0 <= i <= j <= lines.len(),
        forall|t: int| i <= t < j ==> !is_delim(#[trigger] lines[t]) && !is_blank(lines[t]),
    ensures
        sections_rec(lines, i, cur, acc) == sections_rec(
            lines,
            j,
            cur + lines.subrange(i, j),
            acc,
        ),
    decreases j - i,
{
    if i == j {
        assert(cur + lines.subrange(i, j) =~= cur);
    } else {
        lemma_sections_consume(lines, i + 1, j, cur.push(lines[i]), acc);
        assert(cur.push(lines[i]) + lines.subrange(i + 1, j) =~= cur + lines.subrange(i, j));
    }
}

/// The lines of one block followed by more stream: its delimiter line, its
/// eight section lines, then the rest.
#[verifier::rlimit(100)]
#[verifier::spinoff_prover]
proof fn lemma_block_lines(i0: nat, r: RecordModel, tail: Seq<u8>)
    requires
        txt_safe(r),
    ensures
        split_lines(spec_txt_block(i0, r) + tail) == seq![dline(i0, r)] + kv_lines_of(r)
            + split_lines(tail),
{
    reveal(spec_txt_block);
    lemma_dline_shape(i0, r);
    lemma_kv_lines_facts(r);
    let d0 = dline(i0, r);
    let k = kv_lines_of(r);
    let s = spec_txt_block(i0, r) + tail;
    let r8 = k[7] + seq![10u8] + tail;
    let r7 = k[6] + seq![10u8] + r8;
    let r6 = k[5] + seq![10u8] + r7;
    let r5 = k[4] + seq![10u8] + r6;
    let r4 = k[3] + seq![10u8] + r5;
    let r3 = k[2] + seq![10u8] + r4;
    let r2 = k[1] + seq![10u8] + r3;
    let r1 = k[0] + seq![10u8] + r2;
    assert(s =~= d0 + seq![10u8] + r1);
    lemma_split_lines_peel(d0, r1);
    lemma_split_lines_peel(k[0], r2);
    lemma_split_lines_peel(k[1], r3);
    lemma_split_lines_peel(k[2], r4);
    lemma_split_lines_peel(k[3], r5);
    lemma_split_lines_peel(k[4], r6);
    lemma_split_lines_peel(k[5], r7);
    lemma_split_lines_peel(k[6], r8);
    lemma_split_lines_peel(k[7], tail);
    assert(split_lines(s) =~= seq![d0] + k + split_lines(tail));
}

/// The line list of an encoded record sequence.
proof fn lemma_txt_tail_lines(rs: Seq<RecordModel>, i0: nat)
    requires
        rs.len() > 0,
        forall|i: int| 0 <= i < rs.len() ==> txt_safe(#[trigger] rs[i]),
    ensures
        split_lines(spec_txt_tail(rs, i0)) == txt_tail_lines(rs, i0),
    decreases rs.len(),
{
    let r = rs[0];
    assert(txt_safe(r));
    if rs.len() == 1 {
        lemma_block_lines(i0, r, Seq::empty());
        assert(spec_txt_block(i0, r) + Seq::<u8>::empty() =~= spec_txt_tail(rs, i0));
        assert(split_lines(Seq::<u8>::empty()) =~= Seq::<Seq<u8>>::empty());
        assert(seq![dline(i0, r)] + kv_lines_of(r) + Seq::<Seq<u8>>::empty() =~= txt_tail_lines(
            rs,
            i0,
        ));
    } else {
        let rest = rs.drop_first();
        let tailenc = spec_txt_tail(rest, i0 + 1);
        lemma_block_lines(i0, r, seq![10u8] + tailenc);
        assert(spec_txt_block(i0, r) + (seq![10u8] + tailenc) =~= spec_txt_tail(rs, i0));
        lemma_split_lines_peel(Seq::empty(), tailenc);
        assert(Seq::<u8>::empty() + seq![10u8] + tailenc =~= seq![10u8] + tailenc);
        assert(forall|i: int| 0 <= i < rest.len() ==> txt_safe(#[trigger] rest[i]));
        lemma_txt_tail_lines(rest, i0 + 1);
        assert(seq![dline(i0, r)] + kv_lines_of(r) + (seq![Seq::<u8>::empty()] + txt_tail_lines(
            rest,
            i0 + 1,
        )) =~= txt_tail_lines(rs, i0));
    }
}

/// Every line of an encoded record sequence reads as text.
proof fn lemma_txt_lines_utf8(rs: Seq<RecordModel>, i0: nat)
    requires
        rs.len() > 0,
        forall|i: int| 0 <= i < rs.len() ==> txt_safe(#[trigger] rs[i]),
    ensures
        all_lines_utf8(txt_tail_lines(rs, i0)),
    decreases rs.len(),
{
    let r = rs[0];
    assert(txt_safe(r));
    lemma_dline_shape(i0, r);
    lemma_kv_lines_facts(r);
    let l = txt_tail_lines(rs, i0);
    if rs.len() == 1 {
        assert forall|i: int| 0 <= i < l.len() implies valid_utf8(#[trigger] l[i]) by {
            if i == 0 {
                assert(l[i] == dline(i0, r));
            } else {
                assert(l[i] == kv_lines_of(r)[i - 1]);
            }
        }
    } else {
        let rest = rs.drop_first();
        assert(forall|i: int| 0 <= i < rest.len() ==> txt_safe(#[trigger] rest[i]));
        lemma_txt_lines_utf8(rest, i0 + 1);
        crate::text::lemma_ascii_valid_utf8(Seq::empty());
        assert forall|i: int| 0 <= i < l.len() implies valid_utf8(#[trigger] l[i]) by {
            if i == 0 {
                assert(l[i] == dline(i0, r));
            } else if i < 9 {
                assert(l[i] == kv_lines_of(r)[i - 1]);
            } else if i == 9 {
                assert(l[i] == Seq::<u8>::empty());
            } else {
                assert(l[i] == txt_tail_lines(rest, i0 + 1)[i - 10]);
            }
        }
    }
}

/// Grouping the lines of an encoded record sequence gives one section per
/// record, in order.
#[verifier::rlimit(100)]
#[verifier::spinoff_prover]
proof fn lemma_txt_sections(rs: Seq<RecordModel>, i0: nat, acc: Seq<Seq<Seq<u8>>>)
    requires
        rs.len() > 0,
        forall|i: int| 0 <= i < rs.len() ==> txt_safe(#[trigger] rs[i]),
    ensures
        sections_rec(txt_tail_lines(rs, i0), 0, Seq::empty(), acc) == acc + Seq::new(
            rs.len(),
            |k: int| kv_lines_of(rs[k]),
        ),
    decreases rs.len(),
{
    let r = rs[0];
    assert(txt_safe(r));
    lemma_dline_shape(i0, r);
    lemma_kv_lines_facts(r);
    let l = txt_tail_lines(rs, i0);
    assert(l[0] == dline(i0, r));
    assert(is_delim(l[0]));
    assert(sections_rec(l, 0, Seq::empty(), acc) == sections_rec(l, 1, Seq::empty(), acc));
    assert(forall|t: int| 1 <= t < 9 ==> #[trigger] l[t] == kv_lines_of(r)[t - 1]);
    lemma_sections_consume(l, 1, 9, Seq::empty(), acc);
    assert(Seq::<Seq<u8>>::empty() + l.subrange(1, 9) =~= kv_lines_of(r));
    let sec0 = kv_lines_of(r);
    if rs.len() == 1 {
        assert(l.len() == 9);
        assert(sections_rec(l, 9, sec0, acc) == acc.push(sec0));
        assert(acc.push(sec0) =~= acc + Seq::new(rs.len() as int as nat, |k: int| kv_lines_of(
            rs[k],
        )));
    } else {
        let rest = rs.drop_first();
        assert(forall|i: int| 0 <= i < rest.len() ==> txt_safe(#[trigger] rest[i]));
        assert(l[9] =~= Seq::<u8>::empty());
        assert(!is_delim(l[9]));
        assert(is_blank(l[9]));
        assert(sections_rec(l, 9, sec0, acc) == sections_rec(l, 10, sec0, acc));
        lemma_sections_shift(l, 10, sec0, acc);
        let t = txt_tail_lines(rest, i0 + 1);
        assert(l.skip(10) =~= t);
        lemma_dline_shape((i0 + 1) as nat, rest[0]);
        assert(t[0] == dline((i0 + 1) as nat, rest[0]));
        assert(is_delim(t[0]));
        assert(sections_rec(t, 0, sec0, Seq::empty()) == sections_rec(
            t,
            1,
            Seq::empty(),
            Seq::<Seq<Seq<u8>>>::empty().push(sec0),
        ));
        lemma_txt_sections(rest, (i0 + 1) as nat, Seq::<Seq<Seq<u8>>>::empty().push(sec0));
        assert(sections_rec(t, 0, Seq::empty(), Seq::<Seq<Seq<u8>>>::empty().push(sec0))
            == sections_rec(t, 1, Seq::empty(), Seq::<Seq<Seq<u8>>>::empty().push(sec0)));
        assert(acc + (Seq::<Seq<Seq<u8>>>::empty().push(sec0) + Seq::new(
            rest.len(),
            |k: int| kv_lines_of(rest[k]),
        )) =~= acc + Seq::new(rs.len(), |k: int| kv_lines_of(rs[k])));
    }
}

/// Decoding the sections of an encoded record sequence gives the records
/// back.
proof fn lemma_txt_records_of(rs: Seq<RecordModel>)
    requires
        forall|i: int| 0 <= i < rs.len() ==> txt_safe(#[trigger] rs[i]),
    ensures
        spec_txt_records(Seq::new(rs.len(), |k: int| kv_lines_of(rs[k]))) == Ok::<
            Seq<RecordModel>,
            ErrModel,
        >(rs),
    decreases rs.len(),
{
    let secs = Seq::new(rs.len(), |k: int| kv_lines_of(rs[k]));
    if rs.len() == 0 {
        assert(rs =~= Seq::<RecordModel>::empty());
    } else {
        assert(txt_safe(rs[0]));
        lemma_section_record(rs[0]);
        let rest = rs.drop_first();
        assert(forall|i: int| 0 <= i < rest.len() ==> txt_safe(#[trigger] rest[i]));
        lemma_txt_records_of(rest);
        assert(secs.drop_first() =~= Seq::new(rest.len(), |k: int| kv_lines_of(rest[k])));
        assert(seq![rs[0]] + rest =~= rs);
    }
}

/// Round trip: decoding an encoded record sequence gives the records back,
/// provided every description is TXT-safe: no line break, and no
/// whitespace at either edge that trimming would eat.
pub proof fn lemma_txt_round_trip(rs: Seq<RecordModel>)
    requires
        rs.len() > 0,
        forall|i: int| 0 <= i < rs.len() ==> txt_safe(#[trigger] rs[i]),
    ensures
        spec_txt_decode(spec_txt_encode(rs)) == Ok::<Seq<RecordModel>, ErrModel>(rs),
{
    lemma_txt_tail_lines(rs, 0);
    lemma_txt_lines_utf8(rs, 0);
    lemma_txt_sections(rs, 0, Seq::empty());
    let secs = Seq::new(rs.len(), |k: int| kv_lines_of(rs[k]));
    assert(Seq::<Seq<Seq<u8>>>::empty() + secs =~= secs);
    assert(spec_sections(split_lines(spec_txt_encode(rs))) == secs);
    assert forall|k: int| 0 <= k < secs.len() implies section_all_kv(#[trigger] secs[k]) by {
        assert(txt_safe(rs[k]));
        lemma_section_record(rs[k]);
        assert(secs[k] == kv_lines_of(rs[k]));
    }
    lemma_txt_records_of(rs);
}

} // verus!
