//! The record data model: one bank transaction, its two closed enumerations,
//! and their byte and text encodings.
//!
//! The two enumerations both travel as bytes 0/1/2 in the binary format, but
//! their numberings are independent: `Deposit` and `Success` are both 0 and
//! must never be confused.

use vstd::prelude::*;
use vstd::utf8::encode_utf8;

use crate::ascii::{upper_all, is_ws, upper_vec, eq_bytes};
use crate::error::ParserError;
use crate::keywords::{
    spec_deposit_upper, spec_withdrawal_upper, spec_transfer_upper, spec_pending_upper,
    spec_success_upper, spec_failure_upper, spec_deposit_name, spec_transfer_name,
    spec_withdrawal_name, spec_success_name, spec_failure_name, spec_pending_name, deposit_upper,
    withdrawal_upper, transfer_upper, pending_upper, success_upper, failure_upper, deposit_name,
    transfer_name, withdrawal_name, success_name, failure_name, pending_name,
};

verus! {

/// The kind of a transaction.  On the wire: byte 0/1/2 in BIN, the name in
/// CSV and TXT (matched case-insensitively on decode).
#[derive(Debug, Clone, Copy, PartialEq, Eq, Structural)]
pub enum TransactionType {
    /// Byte 0, name `Deposit`.
    Deposit,
    /// Byte 1, name `Transfer`.
    Transfer,
    /// Byte 2, name `Withdrawal`.
    Withdrawal,
}

/// The outcome of a transaction.  On the wire: byte 0/1/2 in BIN, the name
/// in CSV and TXT (matched case-insensitively on decode).
#[derive(Debug, Clone, Copy, PartialEq, Eq, Structural)]
pub enum Status {
    /// Byte 0, name `Success`.
    Success,
    /// Byte 1, name `Failure`.
    Failure,
    /// Byte 2, name `Pending`.
    Pending,
}

/// One bank transaction record, the unit every codec reads and writes.
#[derive(Debug, Clone, PartialEq)]
pub struct YPBankRecord {
    /// Caller-chosen identifier; not required to be unique in a stream.
    pub tx_id: u64,
    /// The kind of the transaction.
    pub tx_type: TransactionType,
    /// The account the amount leaves.
    pub from_user_id: u64,
    /// The account the amount reaches.
    pub to_user_id: u64,
    /// Signed amount; negative values are permitted by design.
    pub amount: i64,
    /// Seconds since an external epoch; interpretation is the caller's.
    pub timestamp: u64,
    /// The outcome of the transaction.
    pub status: Status,
    /// Free text of unbounded length.
    pub description: String,
}

/// The mathematical model of a record: plain integers and the description
/// as a character sequence.
#[verifier::ext_equal]
pub ghost struct RecordModel {
    /// Model of [`YPBankRecord::tx_id`].
    pub tx_id: u64,
    /// Model of [`YPBankRecord::tx_type`].
    pub tx_type: TransactionType,
    /// Model of [`YPBankRecord::from_user_id`].
    pub from_user_id: u64,
    /// Model of [`YPBankRecord::to_user_id`].
    pub to_user_id: u64,
    /// Model of [`YPBankRecord::amount`].
    pub amount: i64,
    /// Model of [`YPBankRecord::timestamp`].
    pub timestamp: u64,
    /// Model of [`YPBankRecord::status`].
    pub status: Status,
    /// Model of [`YPBankRecord::description`].
    pub description: Seq<char>,
}

impl View for YPBankRecord {
    type V = RecordModel;

    open spec fn view(&self) -> RecordModel {
        RecordModel {
            tx_id: self.tx_id,
            tx_type: self.tx_type,
            from_user_id: self.from_user_id,
            to_user_id: self.to_user_id,
            amount: self.amount,
            timestamp: self.timestamp,
            status: self.status,
            description: self.description@,
        }
    }
}

impl DeepView for YPBankRecord {
    type V = RecordModel;

    open spec fn deep_view(&self) -> RecordModel {
        self.view()
    }
}

/// The byte encoding a transaction type in the binary format.
pub open spec fn spec_tx_type_byte(t: TransactionType) -> u8 {
    match t {
        TransactionType::Deposit => 0,
        TransactionType::Transfer => 1,
        TransactionType::Withdrawal => 2,
    }
}

/// The transaction type a byte decodes to, if any.
pub open spec fn spec_tx_type_of_byte(b: u8) -> Option<TransactionType> {
    if b == 0 {
        Some(TransactionType::Deposit)
    } else if b == 1 {
        Some(TransactionType::Transfer)
    } else if b == 2 {
        Some(TransactionType::Withdrawal)
    } else {
        None
    }
}

/// The name a transaction type is written as in the text formats.
pub open spec fn spec_tx_type_name(t: TransactionType) -> Seq<u8> {
    match t {
        TransactionType::Deposit => spec_deposit_name(),
        TransactionType::Transfer => spec_transfer_name(),
        TransactionType::Withdrawal => spec_withdrawal_name(),
    }
}

/// The transaction type named by a text token, matched case-insensitively.
pub open spec fn spec_tx_type_of_text(s: Seq<u8>) -> Option<TransactionType> {
    if upper_all(s) == spec_deposit_upper() {
        Some(TransactionType::Deposit)
    } else if upper_all(s) == spec_withdrawal_upper() {
        Some(TransactionType::Withdrawal)
    } else if upper_all(s) == spec_transfer_upper() {
        Some(TransactionType::Transfer)
    } else {
        None
    }
}

/// The byte encoding a status in the binary format.
pub open spec fn spec_status_byte(s: Status) -> u8 {
    match s {
        Status::Success => 0,
        Status::Failure => 1,
        Status::Pending => 2,
    }
}

/// The status a byte decodes to, if any.
pub open spec fn spec_status_of_byte(b: u8) -> Option<Status> {
    if b == 0 {
        Some(Status::Success)
    } else if b == 1 {
        Some(Status::Failure)
    } else if b == 2 {
        Some(Status::Pending)
    } else {
        None
    }
}

/// The name a status is written as in the text formats.
pub open spec fn spec_status_name(s: Status) -> Seq<u8> {
    match s {
        Status::Success => spec_success_name(),
        Status::Failure => spec_failure_name(),
        Status::Pending => spec_pending_name(),
    }
}

/// The status named by a text token, matched case-insensitively.
pub open spec fn spec_status_of_text(s: Seq<u8>) -> Option<Status> {
    if upper_all(s) == spec_pending_upper() {
        Some(Status::Pending)
    } else if upper_all(s) == spec_success_upper() {
        Some(Status::Success)
    } else if upper_all(s) == spec_failure_upper() {
        Some(Status::Failure)
    } else {
        None
    }
}

impl YPBankRecord {
    /// A copy of this record, equal to it in every field.
    pub fn clone_record(&self) -> (r: Self)
        ensures
            r@ == self@,
    {
        YPBankRecord {
            tx_id: self.tx_id,
            tx_type: self.tx_type,
            from_user_id: self.from_user_id,
            to_user_id: self.to_user_id,
            amount: self.amount,
            timestamp: self.timestamp,
            status: self.status,
            description: self.description.clone(),
        }
    }
}

impl TransactionType {
    /// Decodes a transaction type from its binary byte: 0, 1 or 2.
    /// Any other byte is `WrongTransactionType`, carrying that byte.
    pub fn from_byte(value: u8) -> (r: Result<Self, ParserError>)
        ensures
            spec_tx_type_of_byte(value) matches Some(t) ==> r == Ok::<Self, ParserError>(t),
            spec_tx_type_of_byte(value) is None ==> (r matches Err(e) && e
                matches ParserError::WrongTransactionType(b) && b == value),
    {
        match value {
            0 => Ok(TransactionType::Deposit),
            1 => Ok(TransactionType::Transfer),
            2 => Ok(TransactionType::Withdrawal),
            _ => Err(ParserError::WrongTransactionType(value)),
        }
    }

    /// The binary byte of this transaction type.
    pub fn to_byte(self) -> (r: u8)
        ensures
            r == spec_tx_type_byte(self),
    {
        match self {
            TransactionType::Deposit => 0,
            TransactionType::Transfer => 1,
            TransactionType::Withdrawal => 2,
        }
    }

    /// Decodes a transaction type from its text name, case-insensitively.
    pub fn from_text(s: &[u8]) -> (r: Option<Self>)
        ensures
            r == spec_tx_type_of_text(s@),
    {
        let u = upper_vec(s);
        let dep = deposit_upper();
        let wdr = withdrawal_upper();
        let tra = transfer_upper();
        if eq_bytes(u.as_slice(), dep.as_slice()) {
            Some(TransactionType::Deposit)
        } else if eq_bytes(u.as_slice(), wdr.as_slice()) {
            Some(TransactionType::Withdrawal)
        } else if eq_bytes(u.as_slice(), tra.as_slice()) {
            Some(TransactionType::Transfer)
        } else {
            None
        }
    }

    /// The text name of this transaction type, as the encoders write it.
    pub fn name_bytes(self) -> (r: Vec<u8>)
        ensures
            r@ == spec_tx_type_name(self),
    {
        let mut r: Vec<u8> = Vec::new();
        match self {
            TransactionType::Deposit => {
                let w = deposit_name();
                crate::ascii::push_all(&mut r, w.as_slice());
            },
            TransactionType::Transfer => {
                let w = transfer_name();
                crate::ascii::push_all(&mut r, w.as_slice());
            },
            TransactionType::Withdrawal => {
                let w = withdrawal_name();
                crate::ascii::push_all(&mut r, w.as_slice());
            },
        }
        proof {
            assert(r@ =~= spec_tx_type_name(self));
        }
        r
    }
}

impl Status {
    /// Decodes a status from its binary byte: 0, 1 or 2.
    /// Any other byte is `WrongStatusType`, carrying that byte.
    pub fn from_byte(value: u8) -> (r: Result<Self, ParserError>)
        ensures
            spec_status_of_byte(value) matches Some(t) ==> r == Ok::<Self, ParserError>(t),
            spec_status_of_byte(value) is None ==> (r matches Err(e) && e
                matches ParserError::WrongStatusType(b) && b == value),
    {
        match value {
            0 => Ok(Status::Success),
            1 => Ok(Status::Failure),
            2 => Ok(Status::Pending),
            _ => Err(ParserError::WrongStatusType(value)),
        }
    }

    /// The binary byte of this status.
    pub fn to_byte(self) -> (r: u8)
        ensures
            r == spec_status_byte(self),
    {
        match self {
            Status::Success => 0,
            Status::Failure => 1,
            Status::Pending => 2,
        }
    }

    /// Decodes a status from its text name, case-insensitively.
    pub fn from_text(s: &[u8]) -> (r: Option<Self>)
        ensures
            r == spec_status_of_text(s@),
    {
        let u = upper_vec(s);
        let pen = pending_upper();
        let suc = success_upper();
        let fai = failure_upper();
        if eq_bytes(u.as_slice(), pen.as_slice()) {
            Some(Status::Pending)
        } else if eq_bytes(u.as_slice(), suc.as_slice()) {
            Some(Status::Success)
        } else if eq_bytes(u.as_slice(), fai.as_slice()) {
            Some(Status::Failure)
        } else {
            None
        }
    }

    /// The text name of this status, as the encoders write it.
    pub fn name_bytes(self) -> (r: Vec<u8>)
        ensures
            r@ == spec_status_name(self),
    {
        let mut r: Vec<u8> = Vec::new();
        match self {
            Status::Success => {
                let w = success_name();
                crate::ascii::push_all(&mut r, w.as_slice());
            },
            Status::Failure => {
                let w = failure_name();
                crate::ascii::push_all(&mut r, w.as_slice());
            },
            Status::Pending => {
                let w = pending_name();
                crate::ascii::push_all(&mut r, w.as_slice());
            },
        }
        proof {
            assert(r@ =~= spec_status_name(self));
        }
        r
    }
}


/// Decoding the written name of a transaction type gives the type back.
pub proof fn lemma_tx_type_text_round(t: TransactionType)
    ensures
        spec_tx_type_of_text(spec_tx_type_name(t)) == Some(t),
{
    match t {
        TransactionType::Deposit => {
            assert(upper_all(spec_deposit_name()) =~= spec_deposit_upper());
        },
        TransactionType::Transfer => {
            assert(upper_all(spec_transfer_name()) =~= spec_transfer_upper());
            assert(upper_all(spec_transfer_name()).len() == 8);
        },
        TransactionType::Withdrawal => {
            assert(upper_all(spec_withdrawal_name()) =~= spec_withdrawal_upper());
            assert(upper_all(spec_withdrawal_name()).len() == 10);
        },
    }
}

/// Decoding the written name of a status gives the status back.
pub proof fn lemma_status_text_round(s: Status)
    ensures
        spec_status_of_text(spec_status_name(s)) == Some(s),
{
    match s {
        Status::Success => {
            assert(upper_all(spec_success_name()) =~= spec_success_upper());
            assert(upper_all(spec_success_name())[0] == 83);
            assert(spec_pending_upper()[0] == 80);
        },
        Status::Failure => {
            assert(upper_all(spec_failure_name()) =~= spec_failure_upper());
            assert(upper_all(spec_failure_name())[0] == 70);
            assert(spec_pending_upper()[0] == 80);
            assert(spec_success_upper()[0] == 83);
        },
        Status::Pending => {
            assert(upper_all(spec_pending_name()) =~= spec_pending_upper());
        },
    }
}

/// The UTF-8 bytes of a record's description, as the codecs write them.
pub open spec fn desc_bytes(r: RecordModel) -> Seq<u8> {
    encode_utf8(r.description)
}

/// A record the CSV format can carry faithfully: its description holds no
/// line break and no quote character, and does not end with a carriage
/// return.  Quotes cannot be escaped in this CSV dialect, so a description
/// holding one is a known, documented limitation of the format.
pub open spec fn csv_safe(r: RecordModel) -> bool {
    let d = desc_bytes(r);
    &&& !d.contains(10)
    &&& !d.contains(34)
    &&& (d.len() == 0 || d.last() != 13)
}

/// A record the TXT format can carry faithfully: its description holds no
/// line break and neither starts nor ends with ASCII whitespace, which the
/// decoder would trim away.
pub open spec fn txt_safe(r: RecordModel) -> bool {
    let d = desc_bytes(r);
    &&& !d.contains(10)
    &&& (d.len() == 0 || (!is_ws(d.first()) && !is_ws(d.last())))
}

/// A record the BIN format can carry faithfully: its description fits under
/// the decoder's record-size ceiling.
pub open spec fn bin_safe(r: RecordModel) -> bool {
    desc_bytes(r).len() <= crate::MAX_RECORD_SIZE - crate::MIN_BODY_SIZE
}

} // verus!
