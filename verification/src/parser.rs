//! The dispatcher: the single entry point callers use.  It selects a codec
//! by format name, matched case-insensitively, and refuses any other name
//! without touching the data.

use vstd::prelude::*;
use vstd::utf8::encode_utf8;

use crate::ascii::{lower_all, lower_vec, eq_bytes};
use crate::bin_format::{YPBankBinParser, spec_bin_decode, spec_bin_encode, bin_len_ok};
use crate::csv_format::{YPBankCsvParser, spec_csv_decode, spec_csv_encode};
use crate::error::{ParserError, ErrModel, err_matches};
use crate::keywords::{spec_fmt_csv, spec_fmt_txt, spec_fmt_bin, fmt_csv, fmt_txt, fmt_bin};
use crate::txt_format::{YPBankTxtParser, spec_txt_decode, spec_txt_encode};
use crate::types::{YPBankRecord, RecordModel};

verus! {

/// The codec a format name selects, or none.
pub ghost enum Fmt {
    Csv,
    Txt,
    Bin,
    Unknown,
}

/// Which codec a format string selects: its name, lower-cased.
pub open spec fn spec_fmt(f: Seq<char>) -> Fmt {
    let fb = lower_all(encode_utf8(f));
    if fb == spec_fmt_csv() {
        Fmt::Csv
    } else if fb == spec_fmt_txt() {
        Fmt::Txt
    } else if fb == spec_fmt_bin() {
        Fmt::Bin
    } else {
        Fmt::Unknown
    }
}

/// What decoding a byte stream under a format selector yields.
pub open spec fn spec_decode(data: Seq<u8>, f: Seq<char>) -> Result<Seq<RecordModel>, ErrModel> {
    match spec_fmt(f) {
        Fmt::Csv => spec_csv_decode(data),
        Fmt::Txt => spec_txt_decode(data),
        Fmt::Bin => spec_bin_decode(data),
        Fmt::Unknown => Err(ErrModel::Unsupported(f)),
    }
}

/// Reader and writer of record streams in any of the three formats.
pub struct Parser;

impl Parser {
    /// Decodes a byte stream in the named format, exactly as
    /// [`spec_decode`] describes it.  An unknown format name fails with
    /// `UnsupportedFormat` without reading the data.
    pub fn from_read(data: &[u8], format: &str) -> (r: Result<Vec<YPBankRecord>, ParserError>)
        ensures
            match spec_decode(data@, format@) {
                Ok(ms) => r matches Ok(v) && v.deep_view() == ms,
                Err(me) => r matches Err(e) && err_matches(e, me),
            },
    {
        let fb = lower_vec(format.as_bytes());
        let csv = fmt_csv();
        let txt = fmt_txt();
        let bin = fmt_bin();
        if eq_bytes(fb.as_slice(), csv.as_slice()) {
            YPBankCsvParser::from_read(data)
        } else if eq_bytes(fb.as_slice(), txt.as_slice()) {
            YPBankTxtParser::from_read(data)
        } else if eq_bytes(fb.as_slice(), bin.as_slice()) {
            YPBankBinParser::from_read(data)
        } else {
            Err(ParserError::UnsupportedFormat(format.to_owned()))
        }
    }

    /// Appends the encoding of the records in the named format.  An
    /// unknown format name fails with `UnsupportedFormat`, an empty record
    /// sequence with a `ParseError`; in both cases the output is untouched.
    pub fn write_to(out: &mut Vec<u8>, records: &Vec<YPBankRecord>, format: &str) -> (r: Result<
        (),
        ParserError,
    >)
        requires
            spec_fmt(format@) is Bin ==> forall|i: int|
                0 <= i < records@.len() ==> bin_len_ok(#[trigger] records@[i]@),
        ensures
            spec_fmt(format@) is Unknown ==> (r matches Err(e) && err_matches(
                e,
                ErrModel::Unsupported(format@),
            ) && final(out)@ == old(out)@),
            !(spec_fmt(format@) is Unknown) && records@.len() == 0 ==> (r matches Err(e)
                && err_matches(e, ErrModel::Parse) && final(out)@ == old(out)@),
            spec_fmt(format@) is Csv && records@.len() > 0 ==> (r is Ok && final(out)@ == old(out)@
                + spec_csv_encode(records.deep_view())),
            spec_fmt(format@) is Txt && records@.len() > 0 ==> (r is Ok && final(out)@ == old(out)@
                + spec_txt_encode(records.deep_view())),
            spec_fmt(format@) is Bin && records@.len() > 0 ==> (r is Ok && final(out)@ == old(out)@
                + spec_bin_encode(records.deep_view())),
    {
        let fb = lower_vec(format.as_bytes());
        let csv = fmt_csv();
        let txt = fmt_txt();
        let bin = fmt_bin();
        if eq_bytes(fb.as_slice(), csv.as_slice()) {
            YPBankCsvParser::write_to(out, records)
        } else if eq_bytes(fb.as_slice(), txt.as_slice()) {
            YPBankTxtParser::write_to(out, records)
        } else if eq_bytes(fb.as_slice(), bin.as_slice()) {
            YPBankBinParser::write_to(out, records)
        } else {
            Err(ParserError::UnsupportedFormat(format.to_owned()))
        }
    }
}

/// The encoding the dispatcher writes under a format selector, defined for
/// the known formats.
pub open spec fn spec_encode(rs: Seq<RecordModel>, f: Seq<char>) -> Seq<u8>
    recommends
        !(spec_fmt(f) is Unknown),
{
    match spec_fmt(f) {
        Fmt::Csv => spec_csv_encode(rs),
        Fmt::Txt => spec_txt_encode(rs),
        Fmt::Bin => spec_bin_encode(rs),
        Fmt::Unknown => Seq::empty(),
    }
}

/// Round trip through the dispatcher: decoding what was encoded under any
/// known format selector gives the records back, provided every record is
/// safe for that format.
pub proof fn lemma_round_trip(rs: Seq<RecordModel>, f: Seq<char>)
    requires
        rs.len() > 0,
        !(spec_fmt(f) is Unknown),
        spec_fmt(f) is Csv ==> forall|i: int| 0 <= i < rs.len() ==> crate::types::csv_safe(
            #[trigger] rs[i],
        ),
        spec_fmt(f) is Txt ==> forall|i: int| 0 <= i < rs.len() ==> crate::types::txt_safe(
            #[trigger] rs[i],
        ),
        spec_fmt(f) is Bin ==> forall|i: int| 0 <= i < rs.len() ==> crate::types::bin_safe(
            #[trigger] rs[i],
        ),
    ensures
        spec_decode(spec_encode(rs, f), f) == Ok::<Seq<RecordModel>, ErrModel>(rs),
{
    match spec_fmt(f) {
        Fmt::Csv => crate::csv_format::lemma_csv_round_trip(rs),
        Fmt::Txt => crate::txt_format::lemma_txt_round_trip(rs),
        Fmt::Bin => crate::bin_format::lemma_bin_round_trip(rs),
        Fmt::Unknown => (),
    }
}

/// Cross-format round trip: records written as CSV, read back, re-written
/// as BIN and read again come back whole — in particular with their
/// `tx_id`, `amount`, `tx_type` and `status` untouched.
pub proof fn lemma_cross_format_round_trip(rs: Seq<RecordModel>)
    requires
        rs.len() > 0,
        forall|i: int|
            0 <= i < rs.len() ==> crate::types::csv_safe(#[trigger] rs[i])
                && crate::types::bin_safe(rs[i]),
    ensures
        spec_csv_decode(spec_csv_encode(rs)) == Ok::<Seq<RecordModel>, ErrModel>(rs),
        spec_bin_decode(spec_bin_encode(spec_csv_decode(spec_csv_encode(rs))->Ok_0)) == Ok::<
            Seq<RecordModel>,
            ErrModel,
        >(rs),
{
    crate::csv_format::lemma_csv_round_trip(rs);
    crate::bin_format::lemma_bin_round_trip(rs);
}

} // verus!
