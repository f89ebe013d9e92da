//! The CSV codec: a fixed, mandatory header line, then one line per record
//! with eight comma-separated fields.
//!
//! The field splitter is quote-aware: a `"` toggles an in-quotes state (and
//! is itself dropped), and commas inside quotes do not split fields.  There
//! is no escape for a literal quote inside a quoted field: that is a known
//! limitation of the dialect, not a defect.  On encode, a description
//! holding a comma or a colon is wrapped in quotes.

use vstd::prelude::*;
use vstd::utf8::{valid_utf8, decode_utf8, encode_utf8};

use crate::ascii::{
    split_lines, lines_rec, trim, upper_all, lines_of, trim_slice, upper_vec, eq_bytes,
    contains_byte, push_all, strip_cr, all_bytes, lemma_all_bytes_concat, lemma_split_lines_peel,
};
use crate::decimal::{spec_parse_u64, spec_parse_i64, spec_u64_digits, spec_i64_digits, parse_u64,
    parse_i64, format_u64, format_i64};
use crate::error::{ParserError, ErrModel, err_matches};
use crate::keywords::{spec_header_csv, header_csv};
use crate::text::bytes_to_string;
use crate::types::{
    YPBankRecord, RecordModel, TransactionType, Status, spec_tx_type_of_text, spec_status_of_text,
    spec_tx_type_name, spec_status_name, desc_bytes, csv_safe,
};

verus! {

/// Tail-recursive worker for [`split_fields`]: `inq` is the in-quotes
/// state, `cur` the field being read, `acc` the fields already read.
pub open spec fn fields_rec(s: Seq<u8>, i: int, inq: bool, cur: Seq<u8>, acc: Seq<Seq<u8>>) -> Seq<
    Seq<u8>,
>
    decreases s.len() - i,
{
    if i < 0 || i >= s.len() {
        acc.push(cur)
    } else if s[i] == 34 {
        fields_rec(s, i + 1, !inq, cur, acc)
    } else if s[i] == 44 && !inq {
        fields_rec(s, i + 1, false, Seq::empty(), acc.push(cur))
    } else {
        fields_rec(s, i + 1, inq, cur.push(s[i]), acc)
    }
}

/// The quote-aware fields of one line.  Always at least one field.
pub open spec fn split_fields(s: Seq<u8>) -> Seq<Seq<u8>> {
    fields_rec(s, 0, false, Seq::empty(), Seq::empty())
}

/// A line matches the canonical header after trimming, case-insensitively.
pub open spec fn spec_header_ok(l: Seq<u8>) -> bool {
    upper_all(trim(l)) == spec_header_csv()
}

/// What one record line decodes to.  A line with other than eight fields,
/// or any field that fails its grammar, is a `ParseError`.  The fields are
/// checked left to right.
#[verifier::opaque]
pub open spec fn spec_parse_row(l: Seq<u8>) -> Result<RecordModel, ErrModel> {
    let fs = split_fields(l);
    if fs.len() != 8 {
        Err(ErrModel::Parse)
    } else if spec_parse_u64(fs[0]) is None {
        Err(ErrModel::Parse)
    } else if spec_tx_type_of_text(fs[1]) is None {
        Err(ErrModel::Parse)
    } else if spec_parse_u64(fs[2]) is None {
        Err(ErrModel::Parse)
    } else if spec_parse_u64(fs[3]) is None {
        Err(ErrModel::Parse)
    } else if spec_parse_i64(fs[4]) is None {
        Err(ErrModel::Parse)
    } else if spec_parse_u64(fs[5]) is None {
        Err(ErrModel::Parse)
    } else if spec_status_of_text(fs[6]) is None {
        Err(ErrModel::Parse)
    } else if !valid_utf8(fs[7]) {
        Err(ErrModel::Parse)
    } else {
        Ok(
            RecordModel {
                tx_id: spec_parse_u64(fs[0])->Some_0,
                tx_type: spec_tx_type_of_text(fs[1])->Some_0,
                from_user_id: spec_parse_u64(fs[2])->Some_0,
                to_user_id: spec_parse_u64(fs[3])->Some_0,
                amount: spec_parse_i64(fs[4])->Some_0,
                timestamp: spec_parse_u64(fs[5])->Some_0,
                status: spec_status_of_text(fs[6])->Some_0,
                description: decode_utf8(fs[7]),
            },
        )
    }
}

/// What a sequence of record lines decodes to.  A line that is not valid
/// UTF-8 could not have been read as text and is skipped; a line that reads
/// but does not parse fails the whole decode.
pub open spec fn spec_parse_rows(lines: Seq<Seq<u8>>) -> Result<Seq<RecordModel>, ErrModel>
    decreases lines.len(),
{
    if lines.len() == 0 {
        Ok(Seq::empty())
    } else if !valid_utf8(lines[0]) {
        spec_parse_rows(lines.drop_first())
    } else {
        match spec_parse_row(lines[0]) {
            Err(e) => Err(e),
            Ok(r) => match spec_parse_rows(lines.drop_first()) {
                Err(e) => Err(e),
                Ok(rest) => Ok(seq![r] + rest),
            },
        }
    }
}

/// What a whole CSV byte stream decodes to: an empty stream or an
/// unreadable header line is a `ParseError`; a first line other than the
/// canonical header is `WrongCsvHeader` carrying that line; then the
/// record lines.
pub open spec fn spec_csv_decode(s: Seq<u8>) -> Result<Seq<RecordModel>, ErrModel> {
    let ls = split_lines(s);
    if ls.len() == 0 {
        Err(ErrModel::Parse)
    } else if !valid_utf8(ls[0]) {
        Err(ErrModel::Parse)
    } else if !spec_header_ok(ls[0]) {
        Err(ErrModel::WrongCsvHeader(decode_utf8(ls[0])))
    } else {
        spec_parse_rows(ls.drop_first())
    }
}

/// The description field as written: quoted when it holds a comma or a
/// colon.
pub open spec fn spec_csv_field_desc(r: RecordModel) -> Seq<u8> {
    let d = desc_bytes(r);
    if d.contains(44) || d.contains(58) {
        seq![34u8] + d + seq![34u8]
    } else {
        d
    }
}

/// One record line, without its newline.
#[verifier::opaque]
pub open spec fn spec_csv_row(r: RecordModel) -> Seq<u8> {
    spec_u64_digits(r.tx_id as nat) + seq![44u8] + spec_tx_type_name(r.tx_type) + seq![44u8]
        + spec_u64_digits(r.from_user_id as nat) + seq![44u8] + spec_u64_digits(r.to_user_id as nat)
        + seq![44u8] + spec_i64_digits(r.amount) + seq![44u8] + spec_u64_digits(r.timestamp as nat)
        + seq![44u8] + spec_status_name(r.status) + seq![44u8] + spec_csv_field_desc(r)
}

/// The record lines of a stream, each with its newline.
pub open spec fn spec_csv_rows(rs: Seq<RecordModel>) -> Seq<u8>
    decreases rs.len(),
{
    if rs.len() == 0 {
        Seq::empty()
    } else {
        spec_csv_row(rs[0]) + seq![10u8] + spec_csv_rows(rs.drop_first())
    }
}

/// A whole CSV stream: the header line, then the record lines.
pub open spec fn spec_csv_encode(rs: Seq<RecordModel>) -> Seq<u8> {
    spec_header_csv() + seq![10u8] + spec_csv_rows(rs)
}

/// Splits one line into its quote-aware fields.
pub fn split_fields_vec(s: &[u8]) -> (r: Vec<Vec<u8>>)
    ensures
        r.deep_view() == split_fields(s@),
{
    let mut acc: Vec<Vec<u8>> = Vec::new();
    let mut cur: Vec<u8> = Vec::new();
    let mut inq: bool = false;
    let mut i: usize = 0;
    proof {
        assert(acc.deep_view() =~~= Seq::<Seq<u8>>::empty());
        assert(cur@ =~= Seq::<u8>::empty());
    }
    while i < s.len()
        invariant
            i <= s@.len(),
            fields_rec(s@, i as int, inq, cur@, acc.deep_view()) == split_fields(s@),
        decreases s@.len() - i,
    {
        let b = s[i];
        if b == 34 {
            inq = !inq;
        } else if b == 44 && !inq {
            let ghost pre = acc.deep_view();
            let ghost curv = cur@;
            acc.push(cur);
            cur = Vec::new();
            proof {
                assert(acc.deep_view() =~~= pre.push(curv));
            }
        } else {
            cur.push(b);
        }
        i = i + 1;
    }
    let ghost pre = acc.deep_view();
    let ghost curv = cur@;
    acc.push(cur);
    proof {
        assert(acc.deep_view() =~~= pre.push(curv));
    }
    acc
}

/// Parses one record line, exactly as [`spec_parse_row`] describes it.
#[verifier::rlimit(100)]
pub fn parse_row(l: &[u8]) -> (r: Result<YPBankRecord, ParserError>)
    ensures
        match spec_parse_row(l@) {
            Ok(m) => r matches Ok(rec) && rec@ == m,
            Err(me) => r matches Err(e) && err_matches(e, me),
        },
{
    proof {
        reveal(spec_parse_row);
    }
    let fields = split_fields_vec(l);
    proof {
        assert forall|k: int| 0 <= k < fields@.len() implies fields.deep_view()[k] == fields@[k]@
        by {
            assert(fields.deep_view()[k] =~= fields@[k]@);
        }
    }
    if fields.len() != 8 {
        return Err(ParserError::ParseError("Invalid record, expect 8 fields".to_owned()));
    }
    let tx_id = match parse_u64(fields[0].as_slice()) {
        Some(v) => v,
        None => {
            return Err(ParserError::ParseError("Failed to parse tx_id".to_owned()));
        },
    };
    let tx_type = match TransactionType::from_text(fields[1].as_slice()) {
        Some(v) => v,
        None => {
            return Err(ParserError::ParseError("Failed to parse tx_type".to_owned()));
        },
    };
    let from_user_id = match parse_u64(fields[2].as_slice()) {
        Some(v) => v,
        None => {
            return Err(ParserError::ParseError("Failed to parse from_user_id".to_owned()));
        },
    };
    let to_user_id = match parse_u64(fields[3].as_slice()) {
        Some(v) => v,
        None => {
            return Err(ParserError::ParseError("Failed to parse to_user_id".to_owned()));
        },
    };
    let amount = match parse_i64(fields[4].as_slice()) {
        Some(v) => v,
        None => {
            return Err(ParserError::ParseError("Failed to parse amount".to_owned()));
        },
    };
    let timestamp = match parse_u64(fields[5].as_slice()) {
        Some(v) => v,
        None => {
            return Err(ParserError::ParseError("Failed to parse timestamp".to_owned()));
        },
    };
    let status = match Status::from_text(fields[6].as_slice()) {
        Some(v) => v,
        None => {
            return Err(ParserError::ParseError("Failed to parse status".to_owned()));
        },
    };
    let mut desc_raw: Vec<u8> = Vec::new();
    push_all(&mut desc_raw, fields[7].as_slice());
    proof {
        assert(desc_raw@ =~= fields.deep_view()[7]);
    }
    let description = match bytes_to_string(desc_raw) {
        Some(s) => s,
        None => {
            return Err(ParserError::ParseError("Failed to parse description".to_owned()));
        },
    };
    Ok(
        YPBankRecord {
            tx_id,
            tx_type,
            from_user_id,
            to_user_id,
            amount,
            timestamp,
            status,
            description,
        },
    )
}

/// Parses the lines of a vector from `start` on, as [`spec_parse_rows`]
/// describes the corresponding line sequence.
fn parse_rows_vec(lines: &Vec<Vec<u8>>, start: usize) -> (r: Result<Vec<YPBankRecord>, ParserError>)
    requires
        start <= lines@.len(),
    ensures
        match spec_parse_rows(lines.deep_view().skip(start as int)) {
            Ok(ms) => r matches Ok(v) && v.deep_view() == ms,
            Err(me) => r matches Err(e) && err_matches(e, me),
        },
{
    let mut recs: Vec<YPBankRecord> = Vec::new();
    let mut i: usize = start;
    proof {
        assert(recs.deep_view() =~= Seq::<RecordModel>::empty());
    }
    while i < lines.len()
        invariant
            start <= i <= lines@.len(),
            match spec_parse_rows(lines.deep_view().skip(i as int)) {
                Ok(rest) => spec_parse_rows(lines.deep_view().skip(start as int)) matches Ok(all)
                    && all == recs.deep_view() + rest,
                Err(e) => spec_parse_rows(lines.deep_view().skip(start as int)) matches Err(e2)
                    && e2 == e,
            },
        decreases lines@.len() - i,
    {
        let ghost rem = lines.deep_view().skip(i as int);
        proof {
            assert(rem[0] == lines.deep_view()[i as int]);
            assert(lines.deep_view().skip(i + 1) =~= rem.drop_first());
        }
        let line = &lines[i];
        let mut probe: Vec<u8> = Vec::new();
        push_all(&mut probe, line.as_slice());
        proof {
            assert(probe@ =~= rem[0]);
        }
        if bytes_to_string(probe).is_none() {
            i = i + 1;
            continue;
        }
        let rec = match parse_row(line.as_slice()) {
            Ok(rec) => rec,
            Err(e) => {
                return Err(e);
            },
        };
        let ghost pre = recs.deep_view();
        recs.push(rec);
        proof {
            assert(recs.deep_view() =~= pre.push(rec@));
            match spec_parse_rows(rem.drop_first()) {
                Ok(rest2) => {
                    assert(pre + (seq![rec@] + rest2) =~= recs.deep_view() + rest2);
                },
                Err(_) => {},
            }
        }
        i = i + 1;
    }
    proof {
        assert(lines.deep_view().skip(lines@.len() as int) =~= Seq::<Seq<u8>>::empty());
        assert(recs.deep_view() + Seq::<RecordModel>::empty() =~= recs.deep_view());
    }
    Ok(recs)
}

/// Reader and writer of the CSV byte stream.
pub struct YPBankCsvParser;

impl YPBankCsvParser {
    /// True when the line is the canonical header, after trimming and
    /// ASCII case folding.
    pub fn check_header(header: &[u8]) -> (r: bool)
        ensures
            r == spec_header_ok(header@),
    {
        let trimmed = trim_slice(header);
        let upped = upper_vec(trimmed.as_slice());
        let expected = header_csv();
        eq_bytes(upped.as_slice(), expected.as_slice())
    }

    /// Decodes a whole CSV byte stream, exactly as [`spec_csv_decode`]
    /// describes it.
    pub fn from_read(data: &[u8]) -> (r: Result<Vec<YPBankRecord>, ParserError>)
        ensures
            match spec_csv_decode(data@) {
                Ok(ms) => r matches Ok(v) && v.deep_view() == ms,
                Err(me) => r matches Err(e) && err_matches(e, me),
            },
    {
        let lines = lines_of(data);
        if lines.len() == 0 {
            return Err(ParserError::ParseError("Empty file".to_owned()));
        }
        let mut header_raw: Vec<u8> = Vec::new();
        push_all(&mut header_raw, lines[0].as_slice());
        proof {
            assert(header_raw@ =~= lines.deep_view()[0]);
        }
        let header = match bytes_to_string(header_raw) {
            Some(s) => s,
            None => {
                return Err(ParserError::ParseError("Empty file".to_owned()));
            },
        };
        if !Self::check_header(lines[0].as_slice()) {
            return Err(ParserError::WrongCsvHeader(header));
        }
        parse_rows_vec(&lines, 1)
    }

    /// Appends the CSV stream of the records to the output: the canonical
    /// header line, then one line per record.  An empty record sequence is
    /// refused with a `ParseError`.
    pub fn write_to(out: &mut Vec<u8>, records: &Vec<YPBankRecord>) -> (r: Result<(), ParserError>)
        ensures
            records@.len() == 0 ==> (r matches Err(e) && err_matches(e, ErrModel::Parse)
                && final(out)@ == old(out)@),
            records@.len() > 0 ==> (r is Ok && final(out)@ == old(out)@ + spec_csv_encode(
                records.deep_view(),
            )),
    {
        if records.len() == 0 {
            return Err(ParserError::ParseError("No records to write".to_owned()));
        }
        let hdr = header_csv();
        push_all(out, hdr.as_slice());
        out.push(10);
        let ghost base = out@;
        proof {
            assert(base =~= old(out)@ + spec_header_csv() + seq![10u8]);
        }
        let mut i: usize = 0;
        while i < records.len()
            invariant
                i <= records@.len(),
                out@ == old(out)@ + spec_header_csv() + seq![10u8] + spec_csv_rows_upto(
                    records.deep_view(),
                    i as int,
                ),
            decreases records@.len() - i,
        {
            let ghost pre = out@;
            let rec = &records[i];
            proof {
                assert(records@[i as int]@ == records.deep_view()[i as int]);
            }
            let res = rec.write_to(out);
            proof {
                lemma_csv_rows_upto_snoc(records.deep_view(), i as int);
                assert(out@ =~= old(out)@ + spec_header_csv() + seq![10u8] + spec_csv_rows_upto(
                    records.deep_view(),
                    i + 1,
                ));
            }
            i = i + 1;
        }
        proof {
            lemma_csv_rows_upto_all(records.deep_view());
            assert(out@ =~= old(out)@ + spec_csv_encode(records.deep_view()));
        }
        Ok(())
    }
}

/// The record lines of the first `n` records.
pub open spec fn spec_csv_rows_upto(rs: Seq<RecordModel>, n: int) -> Seq<u8>
    decreases n,
{
    if n <= 0 {
        Seq::empty()
    } else {
        spec_csv_rows_upto(rs, n - 1) + spec_csv_row(rs[n - 1]) + seq![10u8]
    }
}

/// One more record appends one more line.
proof fn lemma_csv_rows_upto_snoc(rs: Seq<RecordModel>, n: int)
    requires
        0 <= n,
    ensures
        spec_csv_rows_upto(rs, n + 1) == spec_csv_rows_upto(rs, n) + spec_csv_row(rs[n])
            + seq![10u8],
{
}

/// All the records' lines, in either reading.
proof fn lemma_csv_rows_upto_all(rs: Seq<RecordModel>)
    ensures
        spec_csv_rows_upto(rs, rs.len() as int) == spec_csv_rows(rs),
    decreases rs.len(),
{
    lemma_csv_rows_prefix(rs, rs.len() as int);
}

/// The first `n` lines of a record sequence agree with the head-recursive
/// reading.
proof fn lemma_csv_rows_prefix(rs: Seq<RecordModel>, n: int)
    requires
        0 <= n <= rs.len(),
    ensures
        spec_csv_rows_upto(rs, n) + spec_csv_rows(rs.skip(n)) == spec_csv_rows(rs),
    decreases n,
{
    if n == 0 {
        assert(rs.skip(0) =~= rs);
        assert(Seq::<u8>::empty() + spec_csv_rows(rs) =~= spec_csv_rows(rs));
    } else {
        lemma_csv_rows_prefix(rs, n - 1);
        let tailn1 = rs.skip(n - 1);
        assert(tailn1.len() > 0);
        assert(tailn1[0] == rs[n - 1]);
        assert(tailn1.drop_first() =~= rs.skip(n));
        assert(spec_csv_rows(tailn1) == spec_csv_row(rs[n - 1]) + seq![10u8] + spec_csv_rows(
            rs.skip(n),
        ));
        assert(spec_csv_rows_upto(rs, n) + spec_csv_rows(rs.skip(n)) =~= spec_csv_rows_upto(
            rs,
            n - 1,
        ) + spec_csv_rows(tailn1));
    }
}

impl YPBankRecord {
    /// Decodes record lines without a header: every readable line must be a
    /// record line; unreadable lines are skipped.
    pub fn from_read(data: &[u8]) -> (r: Result<Vec<YPBankRecord>, ParserError>)
        ensures
            match spec_parse_rows(split_lines(data@)) {
                Ok(ms) => r matches Ok(v) && v.deep_view() == ms,
                Err(me) => r matches Err(e) && err_matches(e, me),
            },
    {
        let lines = lines_of(data);
        proof {
            assert(lines.deep_view().skip(0) =~= lines.deep_view());
        }
        parse_rows_vec(&lines, 0)
    }

    /// Parses one record from one CSV line.
    pub fn from_string(s: &str) -> (r: Result<Self, ParserError>)
        ensures
            match spec_parse_row(encode_utf8(s@)) {
                Ok(m) => r matches Ok(rec) && rec@ == m,
                Err(me) => r matches Err(e) && err_matches(e, me),
            },
    {
        parse_row(s.as_bytes())
    }

    /// Appends this record's CSV line, with its newline, to the output.
    /// Writing to a byte vector cannot fail.
    #[verifier::rlimit(100)]
    #[verifier::spinoff_prover]
    pub fn write_to(&self, out: &mut Vec<u8>) -> (r: Result<(), String>)
        ensures
            r is Ok,
            final(out)@ == old(out)@ + spec_csv_row(self@) + seq![10u8],
    {
        proof {
            reveal(spec_csv_row);
        }
        let digits = format_u64(self.tx_id);
        push_all(out, digits.as_slice());
        out.push(44);
        let name = self.tx_type.name_bytes();
        push_all(out, name.as_slice());
        out.push(44);
        let digits = format_u64(self.from_user_id);
        push_all(out, digits.as_slice());
        out.push(44);
        let digits = format_u64(self.to_user_id);
        push_all(out, digits.as_slice());
        out.push(44);
        let digits = format_i64(self.amount);
        push_all(out, digits.as_slice());
        out.push(44);
        let digits = format_u64(self.timestamp);
        push_all(out, digits.as_slice());
        out.push(44);
        let name = self.status.name_bytes();
        push_all(out, name.as_slice());
        out.push(44);
        let desc = self.description.as_str().as_bytes();
        proof {
            assert(desc@ == desc_bytes(self@));
        }
        let quoted = contains_byte(desc, 44) || contains_byte(desc, 58);
        if quoted {
            out.push(34);
            push_all(out, desc);
            out.push(34);
        } else {
            push_all(out, desc);
        }
        out.push(10);
        proof {
            assert(out@ =~= old(out)@ + spec_csv_row(self@) + seq![10u8]);
        }
        Ok(())
    }
}

/// A byte that may stand in an unquoted CSV token: a minus sign, a digit
/// or a letter.  Such bytes are ASCII and are none of the structural bytes.
pub open spec fn csv_token(b: u8) -> bool {
    b == 45 || (48 <= b && b <= 57) || (65 <= b && b <= 90) || (97 <= b && b <= 122)
}

/// The digit strings of unsigned values are made of token bytes.
proof fn lemma_u64_digits_token(n: nat)
    ensures
        all_bytes(spec_u64_digits(n), |b: u8| csv_token(b)),
{
    crate::decimal::lemma_digits_shape(n);
}

/// The digit strings of signed values are made of token bytes.
proof fn lemma_i64_digits_token(v: i64)
    ensures
        all_bytes(spec_i64_digits(v), |b: u8| csv_token(b)),
{
    if v >= 0 {
        lemma_u64_digits_token(v as nat);
    } else {
        lemma_u64_digits_token((-(v as int)) as nat);
        lemma_all_bytes_concat(
            seq![45u8],
            spec_u64_digits((-(v as int)) as nat),
            |b: u8| csv_token(b),
        );
    }
}

/// The enumeration names are made of token bytes.
proof fn lemma_names_token(t: TransactionType, st: Status)
    ensures
        all_bytes(spec_tx_type_name(t), |b: u8| csv_token(b)),
        all_bytes(spec_status_name(st), |b: u8| csv_token(b)),
{
}

/// Reading a stretch free of quotes and commas accumulates it into the
/// current field.
proof fn lemma_fields_consume_plain(s: Seq<u8>, i: int, j: int, cur: Seq<u8>, acc: Seq<Seq<u8>>)
    requires
        0 <= i <= j <= s.len(),
        forall|t: int| i <= t < j ==> s[t] != 34 && s[t] != 44,
    ensures
        fields_rec(s, i, false, cur, acc) == fields_rec(s, j, false, cur + s.subrange(i, j), acc),
    decreases j - i,
{
    if i == j {
        assert(cur + s.subrange(i, j) =~= cur);
    } else {
        lemma_fields_consume_plain(s, i + 1, j, cur.push(s[i]), acc);
        assert(cur.push(s[i]) + s.subrange(i + 1, j) =~= cur + s.subrange(i, j));
    }
}

/// Inside quotes, a stretch free of quotes accumulates whole, commas
/// included.
proof fn lemma_fields_consume_quoted(s: Seq<u8>, i: int, j: int, cur: Seq<u8>, acc: Seq<Seq<u8>>)
    requires
        0 <= i <= j <= s.len(),
        forall|t: int| i <= t < j ==> s[t] != 34,
    ensures
        fields_rec(s, i, true, cur, acc) == fields_rec(s, j, true, cur + s.subrange(i, j), acc),
    decreases j - i,
{
    if i == j {
        assert(cur + s.subrange(i, j) =~= cur);
    } else {
        lemma_fields_consume_quoted(s, i + 1, j, cur.push(s[i]), acc);
        assert(cur.push(s[i]) + s.subrange(i + 1, j) =~= cur + s.subrange(i, j));
    }
}

/// One token field followed by its comma.
proof fn lemma_field_step(s: Seq<u8>, i: int, f: Seq<u8>, acc: Seq<Seq<u8>>)
    requires
        0 <= i,
        i + f.len() < s.len(),
        s.subrange(i, i + f.len() as int) == f,
        all_bytes(f, |b: u8| csv_token(b)),
        s[i + f.len() as int] == 44,
    ensures
        fields_rec(s, i, false, Seq::empty(), acc) == fields_rec(
            s,
            i + f.len() + 1 as int,
            false,
            Seq::empty(),
            acc.push(f),
        ),
{
    assert(forall|t: int|
        i <= t < i + f.len() ==> #[trigger] s[t] == f[t - i] && csv_token(f[t - i]));
    lemma_fields_consume_plain(s, i, i + f.len() as int, Seq::empty(), acc);
    assert(Seq::<u8>::empty() + s.subrange(i, i + f.len() as int) =~= f);
}

/// The eight fields of an encoded record line.
#[verifier::rlimit(100)]
#[verifier::spinoff_prover]
proof fn lemma_csv_row_fields(r: RecordModel)
    requires
        csv_safe(r),
    ensures
        split_fields(spec_csv_row(r)) == seq![
            spec_u64_digits(r.tx_id as nat),
            spec_tx_type_name(r.tx_type),
            spec_u64_digits(r.from_user_id as nat),
            spec_u64_digits(r.to_user_id as nat),
            spec_i64_digits(r.amount),
            spec_u64_digits(r.timestamp as nat),
            spec_status_name(r.status),
            desc_bytes(r),
        ],
{
    reveal(spec_csv_row);
    let s = spec_csv_row(r);
    let f0 = spec_u64_digits(r.tx_id as nat);
    let f1 = spec_tx_type_name(r.tx_type);
    let f2 = spec_u64_digits(r.from_user_id as nat);
    let f3 = spec_u64_digits(r.to_user_id as nat);
    let f4 = spec_i64_digits(r.amount);
    let f5 = spec_u64_digits(r.timestamp as nat);
    let f6 = spec_status_name(r.status);
    let d = desc_bytes(r);
    let fd = spec_csv_field_desc(r);
    lemma_u64_digits_token(r.tx_id as nat);
    lemma_u64_digits_token(r.from_user_id as nat);
    lemma_u64_digits_token(r.to_user_id as nat);
    lemma_u64_digits_token(r.timestamp as nat);
    lemma_i64_digits_token(r.amount);
    lemma_names_token(r.tx_type, r.status);
    assert(Seq::<Seq<u8>>::empty().push(f0) =~= seq![f0]);
    assert(seq![f0].push(f1) =~= seq![f0, f1]);
    assert(seq![f0, f1].push(f2) =~= seq![f0, f1, f2]);
    assert(seq![f0, f1, f2].push(f3) =~= seq![f0, f1, f2, f3]);
    assert(seq![f0, f1, f2, f3].push(f4) =~= seq![f0, f1, f2, f3, f4]);
    assert(seq![f0, f1, f2, f3, f4].push(f5) =~= seq![f0, f1, f2, f3, f4, f5]);
    assert(seq![f0, f1, f2, f3, f4, f5].push(f6) =~= seq![f0, f1, f2, f3, f4, f5, f6]);
    let p0: int = 0;
    let p1 = p0 + f0.len() + 1;
    let p2 = p1 + f1.len() + 1;
    let p3 = p2 + f2.len() + 1;
    let p4 = p3 + f3.len() + 1;
    let p5 = p4 + f4.len() + 1;
    let p6 = p5 + f5.len() + 1;
    let p7 = p6 + f6.len() + 1;
    assert(s.len() == p7 + fd.len());
    assert(s.subrange(p0 as int, p0 + f0.len() as int) =~= f0);
    assert(s[p0 + f0.len() as int] == 44);
    lemma_field_step(s, p0 as int, f0, Seq::empty());
    assert(s.subrange(p1 as int, p1 + f1.len() as int) =~= f1);
    assert(s[p1 + f1.len() as int] == 44);
    lemma_field_step(s, p1 as int, f1, seq![f0]);
    assert(s.subrange(p2 as int, p2 + f2.len() as int) =~= f2);
    assert(s[p2 + f2.len() as int] == 44);
    lemma_field_step(s, p2 as int, f2, seq![f0, f1]);
    assert(s.subrange(p3 as int, p3 + f3.len() as int) =~= f3);
    assert(s[p3 + f3.len() as int] == 44);
    lemma_field_step(s, p3 as int, f3, seq![f0, f1, f2]);
    assert(s.subrange(p4 as int, p4 + f4.len() as int) =~= f4);
    assert(s[p4 + f4.len() as int] == 44);
    lemma_field_step(s, p4 as int, f4, seq![f0, f1, f2, f3]);
    assert(s.subrange(p5 as int, p5 + f5.len() as int) =~= f5);
    assert(s[p5 + f5.len() as int] == 44);
    lemma_field_step(s, p5 as int, f5, seq![f0, f1, f2, f3, f4]);
    assert(s.subrange(p6 as int, p6 + f6.len() as int) =~= f6);
    assert(s[p6 + f6.len() as int] == 44);
    lemma_field_step(s, p6 as int, f6, seq![f0, f1, f2, f3, f4, f5]);
    let acc7 = seq![f0, f1, f2, f3, f4, f5, f6];
    if d.contains(44) || d.contains(58) {
        assert(s[p7 as int] == 34);
        assert(fields_rec(s, p7 as int, false, Seq::empty(), acc7) == fields_rec(
            s,
            p7 + 1 as int,
            true,
            Seq::empty(),
            acc7,
        ));
        assert(forall|t: int|
            p7 + 1 <= t < p7 + 1 + d.len() ==> #[trigger] s[t] == d[t - (p7 + 1)]);
        assert(forall|t: int| p7 + 1 <= t < p7 + 1 + d.len() ==> s[t] != 34) by {
            assert(forall|q: int| 0 <= q < d.len() && d[q] == 34 ==> d.contains(34));
        }
        lemma_fields_consume_quoted(s, p7 + 1 as int, p7 + 1 + d.len() as int, Seq::empty(), acc7);
        assert(Seq::<u8>::empty() + s.subrange(p7 + 1 as int, p7 + 1 + d.len() as int) =~= d);
        assert(s[p7 + 1 + d.len() as int] == 34);
        assert(fields_rec(s, p7 + 1 + d.len() as int, true, d, acc7) == fields_rec(
            s,
            p7 + 2 + d.len() as int,
            false,
            d,
            acc7,
        ));
        assert(p7 + 2 + d.len() == s.len());
        assert(fields_rec(s, s.len() as int, false, d, acc7) == acc7.push(d));
        assert(acc7.push(d) =~= seq![f0, f1, f2, f3, f4, f5, f6, d]);
    } else {
        assert(forall|t: int| p7 <= t < p7 + d.len() ==> #[trigger] s[t] == d[t - p7]);
        assert(forall|t: int| p7 <= t < p7 + d.len() ==> s[t] != 34 && s[t] != 44) by {
            assert(forall|q: int| 0 <= q < d.len() && d[q] == 34 ==> d.contains(34));
            assert(forall|q: int| 0 <= q < d.len() && d[q] == 44 ==> d.contains(44));
        }
        lemma_fields_consume_plain(s, p7 as int, p7 + d.len() as int, Seq::empty(), acc7);
        assert(Seq::<u8>::empty() + s.subrange(p7 as int, p7 + d.len() as int) =~= d);
        assert(p7 + d.len() == s.len());
        assert(fields_rec(s, s.len() as int, false, d, acc7) == acc7.push(d));
        assert(acc7.push(d) =~= seq![f0, f1, f2, f3, f4, f5, f6, d]);
    }
}

/// An encoded record line is valid UTF-8, holds no newline, does not end
/// with a carriage return, and parses back to its record.
#[verifier::rlimit(100)]
#[verifier::spinoff_prover]
proof fn lemma_csv_row_parses(r: RecordModel)
    requires
        csv_safe(r),
    ensures
        valid_utf8(spec_csv_row(r)),
        all_bytes(spec_csv_row(r), |b: u8| b != 10),
        spec_csv_row(r).len() > 0,
        spec_csv_row(r).last() != 13,
        spec_parse_row(spec_csv_row(r)) == Ok::<RecordModel, crate::error::ErrModel>(r),
{
    broadcast use vstd::utf8::valid_utf8_concat;

    reveal(spec_csv_row);
    reveal(spec_parse_row);
    lemma_csv_row_fields(r);
    let s = spec_csv_row(r);
    let d = desc_bytes(r);
    let fd = spec_csv_field_desc(r);
    crate::decimal::lemma_parse_format_u64(r.tx_id);
    crate::decimal::lemma_parse_format_u64(r.from_user_id);
    crate::decimal::lemma_parse_format_u64(r.to_user_id);
    crate::decimal::lemma_parse_format_u64(r.timestamp);
    crate::decimal::lemma_parse_format_i64(r.amount);
    crate::types::lemma_tx_type_text_round(r.tx_type);
    crate::types::lemma_status_text_round(r.status);
    vstd::utf8::encode_utf8_valid_utf8(r.description);
    vstd::utf8::encode_utf8_decode_utf8(r.description);
    let m = spec_parse_row(s)->Ok_0;
    assert(m =~= r);
    lemma_u64_digits_token(r.tx_id as nat);
    lemma_u64_digits_token(r.from_user_id as nat);
    lemma_u64_digits_token(r.to_user_id as nat);
    lemma_u64_digits_token(r.timestamp as nat);
    lemma_i64_digits_token(r.amount);
    lemma_names_token(r.tx_type, r.status);
    let token_or_comma = |b: u8| csv_token(b) || b == 44 || b == 34;
    let f0 = spec_u64_digits(r.tx_id as nat);
    let f1 = spec_tx_type_name(r.tx_type);
    let f2 = spec_u64_digits(r.from_user_id as nat);
    let f3 = spec_u64_digits(r.to_user_id as nat);
    let f4 = spec_i64_digits(r.amount);
    let f5 = spec_u64_digits(r.timestamp as nat);
    let f6 = spec_status_name(r.status);
    let head = f0 + seq![44u8] + f1 + seq![44u8] + f2 + seq![44u8] + f3 + seq![44u8] + f4
        + seq![44u8] + f5 + seq![44u8] + f6 + seq![44u8];
    assert(all_bytes(head, token_or_comma)) by {
        lemma_all_bytes_concat(f0, seq![44u8], token_or_comma);
        lemma_all_bytes_concat(f0 + seq![44u8], f1, token_or_comma);
        lemma_all_bytes_concat(f0 + seq![44u8] + f1, seq![44u8], token_or_comma);
        lemma_all_bytes_concat(f0 + seq![44u8] + f1 + seq![44u8], f2, token_or_comma);
        lemma_all_bytes_concat(f0 + seq![44u8] + f1 + seq![44u8] + f2, seq![44u8], token_or_comma);
        lemma_all_bytes_concat(
            f0 + seq![44u8] + f1 + seq![44u8] + f2 + seq![44u8],
            f3,
            token_or_comma,
        );
        lemma_all_bytes_concat(
            f0 + seq![44u8] + f1 + seq![44u8] + f2 + seq![44u8] + f3,
            seq![44u8],
            token_or_comma,
        );
        lemma_all_bytes_concat(
            f0 + seq![44u8] + f1 + seq![44u8] + f2 + seq![44u8] + f3 + seq![44u8],
            f4,
            token_or_comma,
        );
        lemma_all_bytes_concat(
            f0 + seq![44u8] + f1 + seq![44u8] + f2 + seq![44u8] + f3 + seq![44u8] + f4,
            seq![44u8],
            token_or_comma,
        );
        lemma_all_bytes_concat(
            f0 + seq![44u8] + f1 + seq![44u8] + f2 + seq![44u8] + f3 + seq![44u8] + f4
                + seq![44u8],
            f5,
            token_or_comma,
        );
        lemma_all_bytes_concat(
            f0 + seq![44u8] + f1 + seq![44u8] + f2 + seq![44u8] + f3 + seq![44u8] + f4 + seq![44u8]
                + f5,
            seq![44u8],
            token_or_comma,
        );
        lemma_all_bytes_concat(
            f0 + seq![44u8] + f1 + seq![44u8] + f2 + seq![44u8] + f3 + seq![44u8] + f4 + seq![44u8]
                + f5 + seq![44u8],
            f6,
            token_or_comma,
        );
        lemma_all_bytes_concat(
            f0 + seq![44u8] + f1 + seq![44u8] + f2 + seq![44u8] + f3 + seq![44u8] + f4 + seq![44u8]
                + f5 + seq![44u8] + f6,
            seq![44u8],
            token_or_comma,
        );
    }
    assert(s =~= head + fd);
    crate::text::lemma_ascii_valid_utf8(head);
    if d.contains(44) || d.contains(58) {
        crate::text::lemma_ascii_valid_utf8(seq![34u8]);
        assert(valid_utf8(seq![34u8] + d));
        assert(valid_utf8(seq![34u8] + d + seq![34u8]));
        assert(valid_utf8(head + fd));
        assert(s.last() == 34);
    } else {
        assert(valid_utf8(head + fd));
        if d.len() > 0 {
            assert(s.last() == d.last());
        } else {
            assert(s.last() == 44);
        }
    }
    assert(valid_utf8(s));
    assert(all_bytes(s, |b: u8| b != 10)) by {
        assert(forall|q: int| 0 <= q < d.len() && d[q] == 10 ==> d.contains(10));
        assert(all_bytes(d, |b: u8| b != 10));
        assert(all_bytes(head, |b: u8| b != 10));
        if d.contains(44) || d.contains(58) {
            lemma_all_bytes_concat(seq![34u8], d, |b: u8| b != 10);
            lemma_all_bytes_concat(seq![34u8] + d, seq![34u8], |b: u8| b != 10);
        }
        lemma_all_bytes_concat(head, fd, |b: u8| b != 10);
        assert(s == head + fd);
    }
}

/// Decoding the record lines of an encoded sequence gives the records
/// back.
proof fn lemma_csv_rows_round(rs: Seq<RecordModel>)
    requires
        forall|i: int| 0 <= i < rs.len() ==> csv_safe(#[trigger] rs[i]),
    ensures
        split_lines(spec_csv_rows(rs)).len() == rs.len(),
        spec_parse_rows(split_lines(spec_csv_rows(rs))) == Ok::<Seq<RecordModel>, ErrModel>(rs),
    decreases rs.len(),
{
    if rs.len() == 0 {
        assert(split_lines(spec_csv_rows(rs)) =~= Seq::<Seq<u8>>::empty());
        assert(rs =~= Seq::<RecordModel>::empty());
    } else {
        let r = rs[0];
        let rest = rs.drop_first();
        assert(csv_safe(r));
        lemma_csv_row_parses(r);
        lemma_split_lines_peel(spec_csv_row(r), spec_csv_rows(rest));
        assert(spec_csv_row(r) + seq![10u8] + spec_csv_rows(rest) =~= spec_csv_rows(rs));
        assert(forall|i: int| 0 <= i < rest.len() ==> csv_safe(#[trigger] rest[i]));
        lemma_csv_rows_round(rest);
        let lines = split_lines(spec_csv_rows(rs));
        assert(lines == seq![spec_csv_row(r)] + split_lines(spec_csv_rows(rest)));
        assert(lines[0] == spec_csv_row(r));
        assert(lines.drop_first() =~= split_lines(spec_csv_rows(rest)));
        assert(seq![r] + rest =~= rs);
    }
}

/// The canonical header line is made of its own upper-case ASCII bytes.
proof fn lemma_header_line_ok()
    ensures
        valid_utf8(spec_header_csv()),
        all_bytes(spec_header_csv(), |b: u8| b != 10),
        spec_header_csv().last() != 13,
        spec_header_ok(spec_header_csv()),
{
    let h = spec_header_csv();
    assert(forall|i: int| 0 <= i < h.len() ==> #[trigger] h[i] < 0x80);
    crate::text::lemma_ascii_valid_utf8(h);
    assert(trim(h) == h);
    assert(upper_all(h) =~= h);
}

/// Round trip: decoding an encoded record sequence gives the records back,
/// provided every description is CSV-safe: no quote, no line break, no
/// trailing carriage return.
pub proof fn lemma_csv_round_trip(rs: Seq<RecordModel>)
    requires
        forall|i: int| 0 <= i < rs.len() ==> csv_safe(#[trigger] rs[i]),
    ensures
        spec_csv_decode(spec_csv_encode(rs)) == Ok::<Seq<RecordModel>, ErrModel>(rs),
{
    let h = spec_header_csv();
    lemma_header_line_ok();
    lemma_split_lines_peel(h, spec_csv_rows(rs));
    assert(h + seq![10u8] + spec_csv_rows(rs) =~= spec_csv_encode(rs));
    let lines = split_lines(spec_csv_encode(rs));
    assert(lines == seq![h] + split_lines(spec_csv_rows(rs)));
    assert(lines[0] == h);
    assert(lines.len() > 0);
    lemma_csv_rows_round(rs);
    assert(lines.drop_first() =~= split_lines(spec_csv_rows(rs)));
}


/// A readable first line that is not the canonical header fails the whole
/// decode with `WrongCsvHeader`, carrying that line.
pub proof fn lemma_csv_wrong_header(s: Seq<u8>)
    requires
        split_lines(s).len() > 0,
        valid_utf8(split_lines(s)[0]),
        !spec_header_ok(split_lines(s)[0]),
    ensures
        spec_csv_decode(s) == Err::<Seq<RecordModel>, ErrModel>(
            ErrModel::WrongCsvHeader(decode_utf8(split_lines(s)[0])),
        ),
{
}

/// A readable record line with other than eight fields fails its parse
/// with a `ParseError`.
pub proof fn lemma_csv_field_count(l: Seq<u8>)
    requires
        split_fields(l).len() != 8,
    ensures
        spec_parse_row(l) == Err::<RecordModel, ErrModel>(ErrModel::Parse),
{
    reveal(spec_parse_row);
}

} // verus!
