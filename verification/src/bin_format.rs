//! The binary (BIN) codec: one length-prefixed, magic-tagged frame per
//! record, frames concatenated with no stream header or footer.
//!
//! Frame layout, all integers big-endian:
//! magic `59 50 42 4E`, a 4-byte body size, then the body: `tx_id` (8),
//! `tx_type` (1), `from_user_id` (8), `to_user_id` (8), `amount` (8, two's
//! complement), `timestamp` (8), `status` (1), description length (4), and
//! the description bytes in UTF-8.  The fixed part of the body is 46 bytes.

use vstd::prelude::*;
use vstd::utf8::{valid_utf8, decode_utf8, encode_utf8};

use crate::ascii::{copy_range, push_all};
use crate::big_endian::{
    spec_be32, spec_be64, be_val32, be_val64, lemma_be32_val, lemma_be64_val, push_be32, push_be64,
    read_be32, read_be64, lemma_i64_cast_round_trip,
};
use crate::error::{ParserError, ErrModel, err_matches};
use crate::types::{
    YPBankRecord, RecordModel, TransactionType, Status, spec_tx_type_byte, spec_status_byte,
    spec_tx_type_of_byte, spec_status_of_byte, desc_bytes, bin_safe,
};
use crate::{MIN_BODY_SIZE, MAX_RECORD_SIZE, spec_magic};

verus! {

/// A record whose description length fits the 32-bit size field.
pub open spec fn bin_len_ok(r: RecordModel) -> bool {
    desc_bytes(r).len() + MIN_BODY_SIZE <= u32::MAX
}

/// The body of one frame: the fixed fields, then the description.
pub open spec fn spec_bin_body(r: RecordModel) -> Seq<u8> {
    spec_be64(r.tx_id) + seq![spec_tx_type_byte(r.tx_type)] + spec_be64(r.from_user_id)
        + spec_be64(r.to_user_id) + spec_be64(r.amount as u64) + spec_be64(r.timestamp)
        + seq![spec_status_byte(r.status)] + spec_be32(desc_bytes(r).len() as u32) + desc_bytes(r)
}

/// One whole frame: magic, body size, body.
#[verifier::opaque]
pub open spec fn spec_bin_frame(r: RecordModel) -> Seq<u8> {
    spec_magic() + spec_be32((MIN_BODY_SIZE + desc_bytes(r).len()) as u32) + spec_bin_body(r)
}

/// The byte stream of a record sequence: its frames, concatenated.
pub open spec fn spec_bin_encode(rs: Seq<RecordModel>) -> Seq<u8>
    decreases rs.len(),
{
    if rs.len() == 0 {
        Seq::empty()
    } else {
        spec_bin_frame(rs[0]) + spec_bin_encode(rs.drop_first())
    }
}

/// What one frame body decodes to.  The checks run in wire order: the
/// transaction type byte, the status byte, the description length against
/// the bytes left in the body, then UTF-8 validity of the description.
/// Extra body bytes beyond the description are ignored.
#[verifier::opaque]
pub open spec fn spec_parse_body(b: Seq<u8>) -> Result<RecordModel, ErrModel>
    recommends
        b.len() >= MIN_BODY_SIZE,
{
    let dl = be_val32(b.subrange(42, 46));
    if spec_tx_type_of_byte(b[8]) is None {
        Err(ErrModel::WrongTransactionType(b[8]))
    } else if spec_status_of_byte(b[41]) is None {
        Err(ErrModel::WrongStatusType(b[41]))
    } else if dl > b.len() - MIN_BODY_SIZE {
        Err(
            ErrModel::DescriptionOverflow {
                desc_len: dl as u32,
                remaining: (b.len() - MIN_BODY_SIZE) as nat,
            },
        )
    } else if !valid_utf8(b.subrange(46, 46 + dl as int)) {
        Err(ErrModel::Utf8)
    } else {
        Ok(
            RecordModel {
                tx_id: be_val64(b.subrange(0, 8)) as u64,
                tx_type: spec_tx_type_of_byte(b[8]).unwrap(),
                from_user_id: be_val64(b.subrange(9, 17)) as u64,
                to_user_id: be_val64(b.subrange(17, 25)) as u64,
                amount: (be_val64(b.subrange(25, 33)) as u64) as i64,
                timestamp: be_val64(b.subrange(33, 41)) as u64,
                status: spec_status_of_byte(b[41]).unwrap(),
                description: decode_utf8(b.subrange(46, 46 + dl as int)),
            },
        )
    }
}

/// What a whole byte stream decodes to.  An empty rest of stream ends the
/// loop; a partial frame header, a bad magic, a body size out of bounds, or
/// a short body each abort the whole decode with the error shown.
pub open spec fn spec_bin_decode(s: Seq<u8>) -> Result<Seq<RecordModel>, ErrModel>
    decreases s.len(),
{
    if s.len() == 0 {
        Ok(Seq::empty())
    } else if s.len() < 8 {
        Err(ErrModel::UnexpectedEof { expected: 8, actual: s.len() })
    } else if s.subrange(0, 4) != spec_magic() {
        Err(ErrModel::InvalidMagic(s.subrange(0, 4)))
    } else {
        let size = be_val32(s.subrange(4, 8));
        if size < MIN_BODY_SIZE {
            Err(ErrModel::RecordTooSmall(size as u32))
        } else if size > MAX_RECORD_SIZE {
            Err(ErrModel::RecordTooLarge(size as u32))
        } else if s.len() - 8 < size {
            Err(ErrModel::UnexpectedEof { expected: size, actual: (s.len() - 8) as nat })
        } else {
            match spec_parse_body(s.subrange(8, 8 + size as int)) {
                Err(e) => Err(e),
                Ok(r) => match spec_bin_decode(s.skip(8 + size as int)) {
                    Err(e) => Err(e),
                    Ok(rest) => Ok(seq![r] + rest),
                },
            }
        }
    }
}

/// Reader and writer of the BIN byte stream.
pub struct YPBankBinParser;

impl YPBankBinParser {
    /// Parses one frame body.  A body shorter than the fixed 46 bytes is an
    /// `UnexpectedEof`; otherwise the result is exactly what
    /// [`spec_parse_body`] gives.
    pub fn parse_record_body(body: &[u8]) -> (r: Result<YPBankRecord, ParserError>)
        ensures
            body@.len() < MIN_BODY_SIZE ==> (r matches Err(e) && err_matches(
                e,
                ErrModel::UnexpectedEof { expected: MIN_BODY_SIZE as nat, actual: body@.len() },
            )),
            body@.len() >= MIN_BODY_SIZE ==> match spec_parse_body(body@) {
                Ok(m) => r matches Ok(rec) && rec@ == m,
                Err(me) => r matches Err(e) && err_matches(e, me),
            },
    {
        proof {
            reveal(spec_parse_body);
        }
        if body.len() < MIN_BODY_SIZE {
            return Err(
                ParserError::UnexpectedEof { expected: MIN_BODY_SIZE, actual: body.len() },
            );
        }
        let tx_id = read_be64(body, 0);
        let tx_type = match TransactionType::from_byte(body[8]) {
            Ok(t) => t,
            Err(e) => {
                return Err(e);
            },
        };
        let from_user_id = read_be64(body, 9);
        let to_user_id = read_be64(body, 17);
        let amount = read_be64(body, 25) as i64;
        let timestamp = read_be64(body, 33);
        let status = match Status::from_byte(body[41]) {
            Ok(t) => t,
            Err(e) => {
                return Err(e);
            },
        };
        let desc_len = read_be32(body, 42);
        let remaining = body.len() - MIN_BODY_SIZE;
        if desc_len as usize > remaining {
            return Err(ParserError::DescriptionOverflow { desc_len, remaining });
        }
        let desc_raw = copy_range(body, MIN_BODY_SIZE, MIN_BODY_SIZE + desc_len as usize);
        let description = match crate::text::bytes_to_string(desc_raw) {
            Some(s) => s,
            None => {
                return Err(ParserError::Utf8Error);
            },
        };
        Ok(
            YPBankRecord {
                tx_id,
                tx_type,
                from_user_id,
                to_user_id,
                amount,
                timestamp,
                status,
                description,
            },
        )
    }

    /// Decodes a whole byte stream of frames, exactly as
    /// [`spec_bin_decode`] describes it.
    #[verifier::rlimit(100)]
    #[verifier::spinoff_prover]
    pub fn from_read(data: &[u8]) -> (r: Result<Vec<YPBankRecord>, ParserError>)
        ensures
            match spec_bin_decode(data@) {
                Ok(ms) => r matches Ok(v) && v.deep_view() == ms,
                Err(me) => r matches Err(e) && err_matches(e, me),
            },
    {
        let mut recs: Vec<YPBankRecord> = Vec::new();
        let mut off: usize = 0;
        proof {
            assert(data@.skip(0) =~= data@);
            assert(recs.deep_view() =~~= Seq::<RecordModel>::empty());
        }
        loop
            invariant
                off <= data@.len(),
                match spec_bin_decode(data@.skip(off as int)) {
                    Ok(rest) => spec_bin_decode(data@) matches Ok(all) && all == recs.deep_view()
                        + rest,
                    Err(e) => spec_bin_decode(data@) matches Err(e2) && e2 == e,
                },
            decreases data@.len() - off,
        {
            let ghost rem = data@.skip(off as int);
            let avail = data.len() - off;
            if avail == 0 {
                proof {
                    assert(recs.deep_view() + Seq::<RecordModel>::empty() =~= recs.deep_view());
                }
                return Ok(recs);
            }
            if avail < 8 {
                return Err(ParserError::UnexpectedEof { expected: 8, actual: avail });
            }
            let m0 = data[off];
            let m1 = data[off + 1];
            let m2 = data[off + 2];
            let m3 = data[off + 3];
            proof {
                assert(rem.subrange(0, 4) =~= seq![m0, m1, m2, m3]);
            }
            if !(m0 == 0x59 && m1 == 0x50 && m2 == 0x42 && m3 == 0x4E) {
                proof {
                    assert(rem.subrange(0, 4) != spec_magic());
                }
                let magic: [u8; 4] = [m0, m1, m2, m3];
                proof {
                    assert(magic@ =~= rem.subrange(0, 4));
                }
                return Err(ParserError::InvalidMagic(magic));
            }
            proof {
                assert(rem.subrange(0, 4) =~= spec_magic());
            }
            let size32 = read_be32(data, off + 4);
            proof {
                assert(data@.subrange(off + 4, off + 8) =~= rem.subrange(4, 8));
            }
            let size = size32 as usize;
            if size < MIN_BODY_SIZE {
                return Err(ParserError::RecordTooSmall(size32, MIN_BODY_SIZE));
            }
            if size > MAX_RECORD_SIZE {
                return Err(ParserError::RecordTooLarge(size32, MAX_RECORD_SIZE));
            }
            if avail - 8 < size {
                return Err(ParserError::UnexpectedEof { expected: size, actual: avail - 8 });
            }
            let body = copy_range(data, off + 8, off + 8 + size);
            proof {
                assert(body@ =~= rem.subrange(8, 8 + size as int));
            }
            let rec = match Self::parse_record_body(body.as_slice()) {
                Ok(rec) => rec,
                Err(e) => {
                    return Err(e);
                },
            };
            let ghost pre = recs.deep_view();
            recs.push(rec);
            proof {
                assert(recs.deep_view() =~= pre.push(rec@));
                assert(data@.skip(off + 8 + size as int) =~= rem.skip(8 + size as int));
                let m = spec_parse_body(rem.subrange(8, 8 + size as int))->Ok_0;
                assert(rec@ == m);
                match spec_bin_decode(rem.skip(8 + size as int)) {
                    Ok(rest2) => {
                        assert(spec_bin_decode(rem) == Ok::<Seq<RecordModel>, ErrModel>(
                            seq![m] + rest2,
                        ));
                        assert(pre + (seq![m] + rest2) =~= recs.deep_view() + rest2);
                    },
                    Err(_) => {},
                }
            }
            off = off + 8 + size;
        }
    }

    /// Decodes a byte slice of frames; the same as [`Self::from_read`].
    pub fn parse_bytes(data: &[u8]) -> (r: Result<Vec<YPBankRecord>, ParserError>)
        ensures
            match spec_bin_decode(data@) {
                Ok(ms) => r matches Ok(v) && v.deep_view() == ms,
                Err(me) => r matches Err(e) && err_matches(e, me),
            },
    {
        Self::from_read(data)
    }

    /// Appends the frames of the records to the output.  An empty record
    /// sequence is refused with a `ParseError`; otherwise the bytes written
    /// are exactly [`spec_bin_encode`] of the records.
    #[verifier::rlimit(100)]
    pub fn write_to(out: &mut Vec<u8>, records: &Vec<YPBankRecord>) -> (r: Result<
        (),
        ParserError,
    >)
        requires
            forall|i: int| 0 <= i < records@.len() ==> bin_len_ok(#[trigger] records@[i]@),
        ensures
            records@.len() == 0 ==> (r matches Err(e) && err_matches(e, ErrModel::Parse)
                && final(out)@ == old(out)@),
            records@.len() > 0 ==> (r is Ok && final(out)@ == old(out)@ + spec_bin_encode(
                records.deep_view(),
            )),
    {
        if records.len() == 0 {
            return Err(ParserError::ParseError("No records to write".to_owned()));
        }
        let mut i: usize = 0;
        while i < records.len()
            invariant
                i <= records@.len(),
                forall|j: int| 0 <= j < records@.len() ==> bin_len_ok(#[trigger] records@[j]@),
                out@ == old(out)@ + spec_bin_encode(records.deep_view().take(i as int)),
            decreases records@.len() - i,
        {
            let ghost done = records.deep_view().take(i as int);
            let rec = &records[i];
            proof {
                assert(records@[i as int]@ == records.deep_view()[i as int]);
            }
            push_frame(out, rec);
            proof {
                lemma_bin_encode_snoc(done, records.deep_view()[i as int]);
                assert(done.push(records.deep_view()[i as int]) =~= records.deep_view().take(
                    i + 1,
                ));
            }
            i = i + 1;
        }
        proof {
            assert(records.deep_view().take(records@.len() as int) =~= records.deep_view());
        }
        Ok(())
    }
}

/// Appends one frame to the output.
#[verifier::rlimit(100)]
fn push_frame(out: &mut Vec<u8>, rec: &YPBankRecord)
    requires
        bin_len_ok(rec@),
    ensures
        final(out)@ == old(out)@ + spec_bin_frame(rec@),
{
    let desc_slice = rec.description.as_str().as_bytes();
    proof {
        assert(desc_slice@ == desc_bytes(rec@));
    }
    let desc_len = desc_slice.len();
    let size32 = (MIN_BODY_SIZE + desc_len) as u32;
    out.push(0x59);
    out.push(0x50);
    out.push(0x42);
    out.push(0x4E);
    let ghost after_magic = out@;
    proof {
        assert(after_magic =~= old(out)@ + spec_magic());
    }
    push_be32(out, size32);
    push_be64(out, rec.tx_id);
    out.push(rec.tx_type.to_byte());
    push_be64(out, rec.from_user_id);
    push_be64(out, rec.to_user_id);
    push_be64(out, rec.amount as u64);
    push_be64(out, rec.timestamp);
    out.push(rec.status.to_byte());
    push_be32(out, desc_len as u32);
    push_all(out, desc_slice);
    proof {
        reveal(spec_bin_frame);
        assert(out@ =~= old(out)@ + spec_bin_frame(rec@));
    }
}

/// Appending one record to a sequence appends its frame to the encoding.
#[verifier::rlimit(100)]
pub proof fn lemma_bin_encode_snoc(rs: Seq<RecordModel>, r: RecordModel)
    ensures
        spec_bin_encode(rs.push(r)) == spec_bin_encode(rs) + spec_bin_frame(r),
    decreases rs.len(),
{
    if rs.len() == 0 {
        assert(rs.push(r).drop_first() =~= Seq::<RecordModel>::empty());
        assert(rs.push(r)[0] == r);
        assert(spec_bin_encode(rs.push(r)) == spec_bin_frame(r) + spec_bin_encode(
            Seq::<RecordModel>::empty(),
        ));
        assert(spec_bin_frame(r) + Seq::<u8>::empty() =~= spec_bin_encode(rs) + spec_bin_frame(r));
    } else {
        lemma_bin_encode_snoc(rs.drop_first(), r);
        assert(rs.push(r).drop_first() =~= rs.drop_first().push(r));
        assert(rs.push(r)[0] == rs[0]);
        assert(spec_bin_encode(rs.push(r)) == spec_bin_frame(rs[0]) + spec_bin_encode(
            rs.drop_first().push(r),
        ));
        assert(spec_bin_frame(rs[0]) + (spec_bin_encode(rs.drop_first()) + spec_bin_frame(r)) =~= (
        spec_bin_frame(rs[0]) + spec_bin_encode(rs.drop_first())) + spec_bin_frame(r));
    }
}

/// Where each field of a frame body lies.
#[verifier::rlimit(100)]
proof fn lemma_bin_body_slices(r: RecordModel)
    ensures
        spec_bin_body(r).len() == MIN_BODY_SIZE + desc_bytes(r).len(),
        spec_bin_body(r).subrange(0, 8) == spec_be64(r.tx_id),
        spec_bin_body(r)[8] == spec_tx_type_byte(r.tx_type),
        spec_bin_body(r).subrange(9, 17) == spec_be64(r.from_user_id),
        spec_bin_body(r).subrange(17, 25) == spec_be64(r.to_user_id),
        spec_bin_body(r).subrange(25, 33) == spec_be64(r.amount as u64),
        spec_bin_body(r).subrange(33, 41) == spec_be64(r.timestamp),
        spec_bin_body(r)[41] == spec_status_byte(r.status),
        spec_bin_body(r).subrange(42, 46) == spec_be32(desc_bytes(r).len() as u32),
        spec_bin_body(r).subrange(46, 46 + desc_bytes(r).len() as int) == desc_bytes(r),
{
    let b = spec_bin_body(r);
    assert(b.subrange(0, 8) =~= spec_be64(r.tx_id));
    assert(b.subrange(9, 17) =~= spec_be64(r.from_user_id));
    assert(b.subrange(17, 25) =~= spec_be64(r.to_user_id));
    assert(b.subrange(25, 33) =~= spec_be64(r.amount as u64));
    assert(b.subrange(33, 41) =~= spec_be64(r.timestamp));
    assert(b.subrange(42, 46) =~= spec_be32(desc_bytes(r).len() as u32));
    assert(b.subrange(46, 46 + desc_bytes(r).len() as int) =~= desc_bytes(r));
}

/// Round trip: decoding an encoded record sequence gives the records back,
/// provided every description fits under the decoder's size ceiling.
#[verifier::rlimit(100)]
#[verifier::spinoff_prover]
pub proof fn lemma_bin_round_trip(rs: Seq<RecordModel>)
    requires
        forall|i: int| 0 <= i < rs.len() ==> bin_safe(#[trigger] rs[i]),
    ensures
        spec_bin_decode(spec_bin_encode(rs)) == Ok::<Seq<RecordModel>, ErrModel>(rs),
    decreases rs.len(),
{
    reveal(spec_bin_frame);
    reveal(spec_parse_body);
    if rs.len() == 0 {
        assert(rs =~= Seq::<RecordModel>::empty());
    } else {
        let r = rs[0];
        let rest = rs.drop_first();
        let s = spec_bin_encode(rs);
        let d = desc_bytes(r);
        let frame = spec_bin_frame(r);
        assert(bin_safe(r));
        lemma_bin_body_slices(r);
        let size32 = (MIN_BODY_SIZE + d.len()) as u32;
        lemma_be32_val(size32);
        assert(s == frame + spec_bin_encode(rest));
        assert(s.subrange(0, 4) =~= spec_magic());
        assert(s.subrange(4, 8) =~= spec_be32(size32));
        let size = be_val32(s.subrange(4, 8));
        assert(size == MIN_BODY_SIZE + d.len());
        assert(s.len() == 8 + size + spec_bin_encode(rest).len());
        let body = s.subrange(8, 8 + size as int);
        assert(body =~= spec_bin_body(r));
        lemma_be64_val(r.tx_id);
        lemma_be64_val(r.from_user_id);
        lemma_be64_val(r.to_user_id);
        lemma_be64_val(r.amount as u64);
        lemma_be64_val(r.timestamp);
        lemma_i64_cast_round_trip(r.amount);
        lemma_be32_val(d.len() as u32);
        vstd::utf8::encode_utf8_valid_utf8(r.description);
        vstd::utf8::encode_utf8_decode_utf8(r.description);
        assert(spec_tx_type_of_byte(spec_tx_type_byte(r.tx_type)) == Some(r.tx_type));
        assert(spec_status_of_byte(spec_status_byte(r.status)) == Some(r.status));
        assert(spec_parse_body(body) matches Ok(m) && m =~= r);
        assert(s.skip(8 + size as int) =~= spec_bin_encode(rest));
        assert(forall|i: int| 0 <= i < rest.len() ==> bin_safe(#[trigger] rest[i]));
        lemma_bin_round_trip(rest);
        assert(seq![r] + rest =~= rs);
    }
}


/// The frame-size bounds: a body size below the fixed body size, or above
/// the allocation ceiling, fails the whole decode with the matching error.
pub proof fn lemma_bin_size_bounds(s: Seq<u8>)
    requires
        s.len() >= 8,
        s.subrange(0, 4) == spec_magic(),
    ensures
        be_val32(s.subrange(4, 8)) < MIN_BODY_SIZE ==> spec_bin_decode(s) == Err::<
            Seq<RecordModel>,
            ErrModel,
        >(ErrModel::RecordTooSmall(be_val32(s.subrange(4, 8)) as u32)),
        be_val32(s.subrange(4, 8)) > MAX_RECORD_SIZE ==> spec_bin_decode(s) == Err::<
            Seq<RecordModel>,
            ErrModel,
        >(ErrModel::RecordTooLarge(be_val32(s.subrange(4, 8)) as u32)),
{
}

/// A frame that does not open with the magic bytes fails the whole decode
/// with `InvalidMagic`, carrying the four bytes seen.
pub proof fn lemma_bin_invalid_magic(s: Seq<u8>)
    requires
        s.len() >= 8,
        s.subrange(0, 4) != spec_magic(),
    ensures
        spec_bin_decode(s) == Err::<Seq<RecordModel>, ErrModel>(
            ErrModel::InvalidMagic(s.subrange(0, 4)),
        ),
{
}

/// A description length above the bytes left in the body fails the record
/// with `DescriptionOverflow`.
pub proof fn lemma_bin_desc_overflow(b: Seq<u8>)
    requires
        b.len() >= MIN_BODY_SIZE,
        spec_tx_type_of_byte(b[8]) is Some,
        spec_status_of_byte(b[41]) is Some,
        be_val32(b.subrange(42, 46)) > b.len() - MIN_BODY_SIZE,
    ensures
        spec_parse_body(b) == Err::<RecordModel, ErrModel>(
            ErrModel::DescriptionOverflow {
                desc_len: be_val32(b.subrange(42, 46)) as u32,
                remaining: (b.len() - MIN_BODY_SIZE) as nat,
            },
        ),
{
    reveal(spec_parse_body);
}

} // verus!
