//! A verified codec library for bank transaction records.
//!
//! Records can be read and written in three interchangeable representations:
//! a delimited text format (CSV) with a fixed header, a `#`-delimited
//! key/value text format (TXT), and a length-prefixed, magic-tagged binary
//! format (BIN).  The byte-exact wire formats are specified by spec
//! functions, every codec is verified against them, and round-trip laws are
//! proved for all three formats.

#![allow(unused_imports)]

use vstd::prelude::*;

pub mod ascii;
pub mod compare;
pub mod test_helpers;
pub mod parser;
pub mod txt_format;
pub mod dict;
pub mod csv_format;
pub mod bin_format;
pub mod text;
pub mod big_endian;
pub mod decimal;
pub mod error;
pub mod keywords;
pub mod types;

verus! {

/// Number of bytes in a BIN frame header: 4 magic bytes plus a 4-byte size.
pub const HEADER_SIZE: usize = 8;

/// Smallest legal BIN record body: the fixed fields without the description.
pub const MIN_BODY_SIZE: usize = 46;

/// Largest BIN record body accepted by the decoder, to bound allocation.
pub const MAX_RECORD_SIZE: usize = 10 * 1024 * 1024;

/// The four magic bytes that open every BIN frame.
pub open spec fn spec_magic() -> Seq<u8> {
    seq![0x59u8, 0x50u8, 0x42u8, 0x4Eu8]
}

/// The position of the last dot strictly before position `i` of a path, or
/// `-1` when there is none.
pub open spec fn dot_from_end(p: Seq<u8>, i: int) -> int
    decreases i,
{
    if i <= 0 {
        -1
    } else if p[i - 1] == 46 {
        i - 1
    } else {
        dot_from_end(p, i - 1)
    }
}

/// The format name a path's extension selects: `csv`, `txt` or `bin` after
/// the last dot choose themselves; any other extension, or none, falls
/// back to `csv`.
pub open spec fn spec_extract_format(p: Seq<u8>) -> Seq<u8> {
    let d = dot_from_end(p, p.len() as int);
    if d >= 0 {
        let ext = p.skip(d + 1);
        if ext == keywords::spec_fmt_csv() || ext == keywords::spec_fmt_txt() || ext
            == keywords::spec_fmt_bin() {
            ext
        } else {
            keywords::spec_fmt_csv()
        }
    } else {
        keywords::spec_fmt_csv()
    }
}

/// Maps a file path to the format its extension selects, with `csv` as the
/// default.
pub fn extract_format(file_path: &str) -> (r: String)
    ensures
        vstd::utf8::encode_utf8(r@) == spec_extract_format(vstd::utf8::encode_utf8(file_path@)),
{
    let p = file_path.as_bytes();
    let ghost pb = p@;
    proof {
        assert(pb == vstd::utf8::encode_utf8(file_path@));
    }
    let mut i: usize = p.len();
    while i > 0
        invariant
            i <= pb.len(),
            pb == p@,
            pb == vstd::utf8::encode_utf8(file_path@),
            dot_from_end(pb, i as int) == dot_from_end(pb, pb.len() as int),
        decreases i,
    {
        if p[i - 1] == 46 {
            let ext = ascii::copy_range(p, i, p.len());
            proof {
                assert(pb == vstd::utf8::encode_utf8(file_path@));
                assert(dot_from_end(pb, pb.len() as int) == i - 1);
                assert(ext@ =~= pb.skip(i as int));
            }
            let csv = keywords::fmt_csv();
            let txt = keywords::fmt_txt();
            let bin = keywords::fmt_bin();
            if ascii::eq_bytes(ext.as_slice(), csv.as_slice()) {
                return format_name_string(csv);
            } else if ascii::eq_bytes(ext.as_slice(), txt.as_slice()) {
                return format_name_string(txt);
            } else if ascii::eq_bytes(ext.as_slice(), bin.as_slice()) {
                return format_name_string(bin);
            } else {
                return format_name_string(csv);
            }
        }
        i = i - 1;
    }
    let csv = keywords::fmt_csv();
    format_name_string(csv)
}

/// Turns a three-letter format word into a `String`.
fn format_name_string(w: [u8; 3]) -> (r: String)
    requires
        forall|i: int| 0 <= i < 3 ==> #[trigger] w@[i] < 0x80,
    ensures
        vstd::utf8::encode_utf8(r@) == w@,
{
    let mut v: Vec<u8> = Vec::new();
    ascii::push_all(&mut v, w.as_slice());
    proof {
        assert(v@ =~= w@);
    }
    text::ascii_to_string(v)
}

/// The dictionary built from a flat list of `--flag value` pairs, keys and
/// values trimmed, later pairs overwriting earlier ones; a trailing
/// unpaired argument is ignored.
pub open spec fn spec_cli_args(
    args: Seq<Seq<char>>,
    i: int,
    acc: Seq<(Seq<char>, Seq<char>)>,
) -> Seq<(Seq<char>, Seq<char>)>
    decreases args.len() - i,
{
    if i < 0 || i + 1 >= args.len() {
        acc
    } else {
        spec_cli_args(
            args,
            i + 2,
            dict::spec_dict_insert(acc, text::trim_chars(args[i]), text::trim_chars(args[i + 1])),
        )
    }
}

/// Every flag of a pair stands among the valid arguments.
pub open spec fn cli_keys_valid(args: Seq<Seq<char>>, valid: Seq<Seq<char>>) -> bool {
    forall|k: int|
        0 <= k && 2 * k + 1 < args.len() ==> exists|j: int|
            0 <= j < valid.len() && #[trigger] args[2 * k] == valid[j]
}

/// True when some entry of the haystack equals the needle.
fn contains_str(hay: &[&str], needle: &str) -> (r: bool)
    ensures
        r == exists|j: int| 0 <= j < hay@.len() && (#[trigger] hay@[j])@ == needle@,
{
    let mut j: usize = 0;
    while j < hay.len()
        invariant
            j <= hay@.len(),
            forall|t: int| 0 <= t < j ==> (#[trigger] hay@[t])@ != needle@,
        decreases hay@.len() - j,
    {
        if text::str_eq(hay[j], needle) {
            proof {
                assert((hay@[j as int])@ == needle@);
            }
            return true;
        }
        j = j + 1;
    }
    false
}

/// Parses command-line arguments, taken in pairs, into a dictionary.  The
/// flag of every pair must be one of the valid arguments: any other flag
/// stops the tool, so such inputs are ruled out here.
pub fn parse_cli_args(args: &[String], valid_args: &[&str]) -> (r: dict::Dict)
    requires
        cli_keys_valid(args.deep_view(), valid_args.deep_view()),
    ensures
        r@ == spec_cli_args(args.deep_view(), 0, Seq::<(Seq<char>, Seq<char>)>::empty()),
{
    let ghost av = args.deep_view();
    let ghost vv = valid_args.deep_view();
    let mut d = dict::Dict::new();
    let mut i: usize = 0;
    while i + 1 < args.len()
        invariant
            av == args.deep_view(),
            vv == valid_args.deep_view(),
            cli_keys_valid(av, vv),
            i % 2 == 0,
            i <= args@.len() + 1,
            spec_cli_args(av, i as int, d@) == spec_cli_args(
                av,
                0,
                Seq::<(Seq<char>, Seq<char>)>::empty(),
            ),
        decreases args@.len() - i,
    {
        proof {
            assert(av[i as int] == args@[i as int]@);
            assert(av[i + 1] == args@[i + 1]@);
        }
        let key = text::trim_str(args[i].as_str());
        let value = text::trim_str(args[i + 1].as_str());
        d.insert(key, value);
        if !contains_str(valid_args, args[i].as_str()) {
            proof {
                let k = i as int / 2;
                assert(2 * k == i as int);
                assert(2 * k + 1 < av.len());
                let j = choose|j: int| 0 <= j < vv.len() && av[2 * k] == vv[j];
                assert(vv[j] == (valid_args@[j])@);
                assert(false);
            }
            return vstd::pervasive::unreached();
        }
        i = i + 2;
    }
    d
}

} // verus!
