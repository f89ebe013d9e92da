//! Deterministic sample records, generated from a seed: the data the test
//! suites exchange through every codec.

use vstd::prelude::*;
use vstd::utf8::decode_utf8;

use crate::decimal::{spec_u64_digits, format_u64, is_digit, all_digits, lemma_digits_shape};
use crate::keywords::{
    spec_payment_word, spec_transfer_name, spec_deposit_name, spec_withdrawal_name, spec_fee_word,
    spec_refund_word, payment_word, transfer_name, deposit_name, withdrawal_name, fee_word,
    refund_word,
};
use crate::text::ascii_to_string;
use crate::types::{YPBankRecord, RecordModel, TransactionType, Status};

verus! {

/// The description word a seed selects.
pub open spec fn spec_test_word(i: u64) -> Seq<u8> {
    if i == 0 {
        spec_payment_word()
    } else if i == 1 {
        spec_transfer_name()
    } else if i == 2 {
        spec_deposit_name()
    } else if i == 3 {
        spec_withdrawal_name()
    } else if i == 4 {
        spec_fee_word()
    } else {
        spec_refund_word()
    }
}

/// The description bytes of a sample record: a word, a space, a number.
pub open spec fn spec_test_desc(seed: u64) -> Seq<u8> {
    spec_test_word((seed >> 40) % 6) + seq![32u8] + spec_u64_digits((seed % 1000) as nat)
}

/// The sample record a seed generates.
pub open spec fn spec_test_record(seed: u64) -> RecordModel {
    RecordModel {
        tx_id: (seed % 1000000 + 1) as u64,
        tx_type: if seed % 3 == 0 {
            TransactionType::Deposit
        } else if seed % 3 == 1 {
            TransactionType::Withdrawal
        } else {
            TransactionType::Transfer
        },
        from_user_id: ((seed >> 8) % 10000 + 1) as u64,
        to_user_id: ((seed >> 16) % 10000 + 1) as u64,
        amount: ((seed >> 24) % 100000 + 100) as i64,
        timestamp: (1640995200 + seed % 31536000) as u64,
        status: if (seed >> 32) % 3 == 0 {
            Status::Success
        } else if (seed >> 32) % 3 == 1 {
            Status::Failure
        } else {
            Status::Pending
        },
        description: decode_utf8(spec_test_desc(seed)),
    }
}

/// Creates one sample record with deterministic data from a seed.
pub fn create_test_record(seed: u64) -> (r: YPBankRecord)
    ensures
        r@ == spec_test_record(seed),
{
    let word_ix = (seed >> 40) % 6;
    let mut desc: Vec<u8> = Vec::new();
    if word_ix == 0 {
        let w = payment_word();
        crate::ascii::push_all(&mut desc, w.as_slice());
    } else if word_ix == 1 {
        let w = transfer_name();
        crate::ascii::push_all(&mut desc, w.as_slice());
    } else if word_ix == 2 {
        let w = deposit_name();
        crate::ascii::push_all(&mut desc, w.as_slice());
    } else if word_ix == 3 {
        let w = withdrawal_name();
        crate::ascii::push_all(&mut desc, w.as_slice());
    } else if word_ix == 4 {
        let w = fee_word();
        crate::ascii::push_all(&mut desc, w.as_slice());
    } else {
        let w = refund_word();
        crate::ascii::push_all(&mut desc, w.as_slice());
    }
    proof {
        assert(desc@ =~= spec_test_word((seed >> 40) % 6));
        assert(forall|i: int| 0 <= i < desc@.len() ==> #[trigger] desc@[i] < 0x80);
    }
    desc.push(32);
    let digits = format_u64(seed % 1000);
    proof {
        lemma_digits_shape((seed % 1000) as nat);
    }
    crate::ascii::push_all(&mut desc, digits.as_slice());
    proof {
        assert(desc@ =~= spec_test_desc(seed));
        assert(forall|i: int| 0 <= i < desc@.len() ==> #[trigger] desc@[i] < 0x80);
    }
    let description = ascii_to_string(desc);
    let tx_type = if seed % 3 == 0 {
        TransactionType::Deposit
    } else if seed % 3 == 1 {
        TransactionType::Withdrawal
    } else {
        TransactionType::Transfer
    };
    let status = if (seed >> 32) % 3 == 0 {
        Status::Success
    } else if (seed >> 32) % 3 == 1 {
        Status::Failure
    } else {
        Status::Pending
    };
    YPBankRecord {
        tx_id: seed % 1000000 + 1,
        tx_type,
        from_user_id: (seed >> 8) % 10000 + 1,
        to_user_id: (seed >> 16) % 10000 + 1,
        amount: ((seed >> 24) % 100000 + 100) as i64,
        timestamp: 1640995200 + seed % 31536000,
        status,
        description,
    }
}

/// Creates a vector of sample records from consecutive seeds.
#[verifier::rlimit(100)]
#[verifier::spinoff_prover]
pub fn create_test_records(count: usize, base_seed: u64) -> (r: Vec<YPBankRecord>)
    requires
        base_seed + count <= u64::MAX,
    ensures
        r@.len() == count,
        forall|i: int|
            0 <= i < count ==> #[trigger] r.deep_view()[i] == spec_test_record(
                (base_seed + i) as u64,
            ),
{
    let mut r: Vec<YPBankRecord> = Vec::new();
    let mut i: usize = 0;
    while i < count
        invariant
            i <= count,
            base_seed + count <= u64::MAX,
            r@.len() == i,
            forall|j: int|
                0 <= j < i ==> #[trigger] r.deep_view()[j] == spec_test_record(
                    (base_seed + j) as u64,
                ),
        decreases count - i,
    {
        let rec = create_test_record(base_seed + i as u64);
        let ghost pre = r.deep_view();
        r.push(rec);
        proof {
            assert(r.deep_view() =~= pre.push(rec@));
        }
        i = i + 1;
    }
    r
}

} // verus!
