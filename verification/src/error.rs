//! The error type shared by every codec, together with its mathematical
//! model.  Contracts speak of [`ErrModel`]: a spec-level copy of the error
//! in which string payloads are character sequences and informal diagnostic
//! messages are not pinned down.

use vstd::prelude::*;

verus! {

/// Everything that can go wrong while decoding or encoding records.
#[derive(Debug)]
pub enum ParserError {
    /// A field or line could not be parsed; the message is diagnostic text.
    ParseError(String),
    /// The first CSV line was not the canonical header; carries that line.
    WrongCsvHeader(String),
    /// The format selector was none of the known format names.
    UnsupportedFormat(String),
    /// A TXT section lacks the `tx_id` key.
    MissingTxId,
    /// A TXT section lacks the `from_user_id` key.
    MissingFromUserId,
    /// A TXT section lacks the `to_user_id` key.
    MissingToUserId,
    /// A TXT section lacks the `amount` key.
    MissingAmount,
    /// A TXT section lacks the `timestamp` key.
    MissingTimestamp,
    /// A TXT section lacks the `status` key.
    MissingStatus,
    /// A TXT section lacks the `tx_type` key.
    MissingTransactionType,
    /// A TXT section lacks the `description` key.
    MissingDescription,
    /// A BIN transaction-type byte outside 0, 1, 2; carries the byte.
    WrongTransactionType(u8),
    /// A BIN status byte outside 0, 1, 2; carries the byte.
    WrongStatusType(u8),
    /// The stream ended inside a BIN frame.
    UnexpectedEof { expected: usize, actual: usize },
    /// A BIN description length larger than the bytes left in the body.
    DescriptionOverflow { desc_len: u32, remaining: usize },
    /// A BIN frame that does not open with the magic bytes; carries them.
    InvalidMagic([u8; 4]),
    /// A BIN record size below the fixed body size; carries size and bound.
    RecordTooSmall(u32, usize),
    /// A BIN record size above the allocation ceiling; carries size and bound.
    RecordTooLarge(u32, usize),
    /// A description that is not valid UTF-8.
    Utf8Error,
}

/// The spec-level model of [`ParserError`].  `Parse` stands for any
/// `ParseError`: the diagnostic message text is not part of the contracts.
pub ghost enum ErrModel {
    Parse,
    WrongCsvHeader(Seq<char>),
    Unsupported(Seq<char>),
    MissingTxId,
    MissingFromUserId,
    MissingToUserId,
    MissingAmount,
    MissingTimestamp,
    MissingStatus,
    MissingTransactionType,
    MissingDescription,
    WrongTransactionType(u8),
    WrongStatusType(u8),
    UnexpectedEof { expected: nat, actual: nat },
    DescriptionOverflow { desc_len: u32, remaining: nat },
    InvalidMagic(Seq<u8>),
    RecordTooSmall(u32),
    RecordTooLarge(u32),
    Utf8,
}

/// Relates an executable error to its model: same variant, and the same
/// data payloads; only diagnostic message strings are left open.
pub open spec fn err_matches(e: ParserError, m: ErrModel) -> bool {
    match m {
        ErrModel::Parse => e is ParseError,
        ErrModel::WrongCsvHeader(h) => e matches ParserError::WrongCsvHeader(s) && s@ == h,
        ErrModel::Unsupported(f) => e matches ParserError::UnsupportedFormat(s) && s@ == f,
        ErrModel::MissingTxId => e is MissingTxId,
        ErrModel::MissingFromUserId => e is MissingFromUserId,
        ErrModel::MissingToUserId => e is MissingToUserId,
        ErrModel::MissingAmount => e is MissingAmount,
        ErrModel::MissingTimestamp => e is MissingTimestamp,
        ErrModel::MissingStatus => e is MissingStatus,
        ErrModel::MissingTransactionType => e is MissingTransactionType,
        ErrModel::MissingDescription => e is MissingDescription,
        ErrModel::WrongTransactionType(b) => e matches ParserError::WrongTransactionType(x) && x
            == b,
        ErrModel::WrongStatusType(b) => e matches ParserError::WrongStatusType(x) && x == b,
        ErrModel::UnexpectedEof { expected, actual } => e matches ParserError::UnexpectedEof {
            expected: ee,
            actual: aa,
        } && ee as nat == expected && aa as nat == actual,
        ErrModel::DescriptionOverflow { desc_len, remaining } => e
            matches ParserError::DescriptionOverflow { desc_len: d, remaining: r } && d == desc_len
            && r as nat == remaining,
        ErrModel::InvalidMagic(bs) => e matches ParserError::InvalidMagic(a) && a@ == bs,
        ErrModel::RecordTooSmall(n) => e matches ParserError::RecordTooSmall(x, _) && x == n,
        ErrModel::RecordTooLarge(n) => e matches ParserError::RecordTooLarge(x, _) && x == n,
        ErrModel::Utf8 => e is Utf8Error,
    }
}

} // verus!
