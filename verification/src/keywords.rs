//! The literal byte strings of the wire formats: the canonical CSV header,
//! the enumeration names in the casings the codecs read and write, the TXT
//! section keys, and the format selector names.  Each word exists once as a
//! spec sequence and once as an executable array proved equal to it.

use vstd::prelude::*;

verus! {

/// The bytes of `"TX_ID,TX_TYPE,FROM_USER_ID,TO_USER_ID,AMOUNT,TIMESTAMP,STATUS,DESCRIPTION"`.
pub open spec fn spec_header_csv() -> Seq<u8> {
    seq![84u8, 88u8, 95u8, 73u8, 68u8, 44u8, 84u8, 88u8, 95u8, 84u8, 89u8, 80u8, 69u8, 44u8, 70u8, 82u8, 79u8, 77u8, 95u8, 85u8, 83u8, 69u8, 82u8, 95u8, 73u8, 68u8, 44u8, 84u8, 79u8, 95u8, 85u8, 83u8, 69u8, 82u8, 95u8, 73u8, 68u8, 44u8, 65u8, 77u8, 79u8, 85u8, 78u8, 84u8, 44u8, 84u8, 73u8, 77u8, 69u8, 83u8, 84u8, 65u8, 77u8, 80u8, 44u8, 83u8, 84u8, 65u8, 84u8, 85u8, 83u8, 44u8, 68u8, 69u8, 83u8, 67u8, 82u8, 73u8, 80u8, 84u8, 73u8, 79u8, 78u8]
}

/// Executable bytes of `"TX_ID,TX_TYPE,FROM_USER_ID,TO_USER_ID,AMOUNT,TIMESTAMP,STATUS,DESCRIPTION"`.
pub fn header_csv() -> (r: [u8; 73])
    ensures
        r@ == spec_header_csv(),
{
    let r: [u8; 73] = [84u8, 88u8, 95u8, 73u8, 68u8, 44u8, 84u8, 88u8, 95u8, 84u8, 89u8, 80u8, 69u8, 44u8, 70u8, 82u8, 79u8, 77u8, 95u8, 85u8, 83u8, 69u8, 82u8, 95u8, 73u8, 68u8, 44u8, 84u8, 79u8, 95u8, 85u8, 83u8, 69u8, 82u8, 95u8, 73u8, 68u8, 44u8, 65u8, 77u8, 79u8, 85u8, 78u8, 84u8, 44u8, 84u8, 73u8, 77u8, 69u8, 83u8, 84u8, 65u8, 77u8, 80u8, 44u8, 83u8, 84u8, 65u8, 84u8, 85u8, 83u8, 44u8, 68u8, 69u8, 83u8, 67u8, 82u8, 73u8, 80u8, 84u8, 73u8, 79u8, 78u8];
    proof {
        assert(r@ =~= spec_header_csv());
    }
    r
}

/// The bytes of `"DEPOSIT"`.
pub open spec fn spec_deposit_upper() -> Seq<u8> {
    seq![68u8, 69u8, 80u8, 79u8, 83u8, 73u8, 84u8]
}

/// Executable bytes of `"DEPOSIT"`.
pub fn deposit_upper() -> (r: [u8; 7])
    ensures
        r@ == spec_deposit_upper(),
{
    let r: [u8; 7] = [68u8, 69u8, 80u8, 79u8, 83u8, 73u8, 84u8];
    proof {
        assert(r@ =~= spec_deposit_upper());
    }
    r
}

/// The bytes of `"WITHDRAWAL"`.
pub open spec fn spec_withdrawal_upper() -> Seq<u8> {
    seq![87u8, 73u8, 84u8, 72u8, 68u8, 82u8, 65u8, 87u8, 65u8, 76u8]
}

/// Executable bytes of `"WITHDRAWAL"`.
pub fn withdrawal_upper() -> (r: [u8; 10])
    ensures
        r@ == spec_withdrawal_upper(),
{
    let r: [u8; 10] = [87u8, 73u8, 84u8, 72u8, 68u8, 82u8, 65u8, 87u8, 65u8, 76u8];
    proof {
        assert(r@ =~= spec_withdrawal_upper());
    }
    r
}

/// The bytes of `"TRANSFER"`.
pub open spec fn spec_transfer_upper() -> Seq<u8> {
    seq![84u8, 82u8, 65u8, 78u8, 83u8, 70u8, 69u8, 82u8]
}

/// Executable bytes of `"TRANSFER"`.
pub fn transfer_upper() -> (r: [u8; 8])
    ensures
        r@ == spec_transfer_upper(),
{
    let r: [u8; 8] = [84u8, 82u8, 65u8, 78u8, 83u8, 70u8, 69u8, 82u8];
    proof {
        assert(r@ =~= spec_transfer_upper());
    }
    r
}

/// The bytes of `"PENDING"`.
pub open spec fn spec_pending_upper() -> Seq<u8> {
    seq![80u8, 69u8, 78u8, 68u8, 73u8, 78u8, 71u8]
}

/// Executable bytes of `"PENDING"`.
pub fn pending_upper() -> (r: [u8; 7])
    ensures
        r@ == spec_pending_upper(),
{
    let r: [u8; 7] = [80u8, 69u8, 78u8, 68u8, 73u8, 78u8, 71u8];
    proof {
        assert(r@ =~= spec_pending_upper());
    }
    r
}

/// The bytes of `"SUCCESS"`.
pub open spec fn spec_success_upper() -> Seq<u8> {
    seq![83u8, 85u8, 67u8, 67u8, 69u8, 83u8, 83u8]
}

/// Executable bytes of `"SUCCESS"`.
pub fn success_upper() -> (r: [u8; 7])
    ensures
        r@ == spec_success_upper(),
{
    let r: [u8; 7] = [83u8, 85u8, 67u8, 67u8, 69u8, 83u8, 83u8];
    proof {
        assert(r@ =~= spec_success_upper());
    }
    r
}

/// The bytes of `"FAILURE"`.
pub open spec fn spec_failure_upper() -> Seq<u8> {
    seq![70u8, 65u8, 73u8, 76u8, 85u8, 82u8, 69u8]
}

/// Executable bytes of `"FAILURE"`.
pub fn failure_upper() -> (r: [u8; 7])
    ensures
        r@ == spec_failure_upper(),
{
    let r: [u8; 7] = [70u8, 65u8, 73u8, 76u8, 85u8, 82u8, 69u8];
    proof {
        assert(r@ =~= spec_failure_upper());
    }
    r
}

/// The bytes of `"Deposit"`.
pub open spec fn spec_deposit_name() -> Seq<u8> {
    seq![68u8, 101u8, 112u8, 111u8, 115u8, 105u8, 116u8]
}

/// Executable bytes of `"Deposit"`.
pub fn deposit_name() -> (r: [u8; 7])
    ensures
        r@ == spec_deposit_name(),
{
    let r: [u8; 7] = [68u8, 101u8, 112u8, 111u8, 115u8, 105u8, 116u8];
    proof {
        assert(r@ =~= spec_deposit_name());
    }
    r
}

/// The bytes of `"Transfer"`.
pub open spec fn spec_transfer_name() -> Seq<u8> {
    seq![84u8, 114u8, 97u8, 110u8, 115u8, 102u8, 101u8, 114u8]
}

/// Executable bytes of `"Transfer"`.
pub fn transfer_name() -> (r: [u8; 8])
    ensures
        r@ == spec_transfer_name(),
{
    let r: [u8; 8] = [84u8, 114u8, 97u8, 110u8, 115u8, 102u8, 101u8, 114u8];
    proof {
        assert(r@ =~= spec_transfer_name());
    }
    r
}

/// The bytes of `"Withdrawal"`.
pub open spec fn spec_withdrawal_name() -> Seq<u8> {
    seq![87u8, 105u8, 116u8, 104u8, 100u8, 114u8, 97u8, 119u8, 97u8, 108u8]
}

/// Executable bytes of `"Withdrawal"`.
pub fn withdrawal_name() -> (r: [u8; 10])
    ensures
        r@ == spec_withdrawal_name(),
{
    let r: [u8; 10] = [87u8, 105u8, 116u8, 104u8, 100u8, 114u8, 97u8, 119u8, 97u8, 108u8];
    proof {
        assert(r@ =~= spec_withdrawal_name());
    }
    r
}

/// The bytes of `"Success"`.
pub open spec fn spec_success_name() -> Seq<u8> {
    seq![83u8, 117u8, 99u8, 99u8, 101u8, 115u8, 115u8]
}

/// Executable bytes of `"Success"`.
pub fn success_name() -> (r: [u8; 7])
    ensures
        r@ == spec_success_name(),
{
    let r: [u8; 7] = [83u8, 117u8, 99u8, 99u8, 101u8, 115u8, 115u8];
    proof {
        assert(r@ =~= spec_success_name());
    }
    r
}

/// The bytes of `"Failure"`.
pub open spec fn spec_failure_name() -> Seq<u8> {
    seq![70u8, 97u8, 105u8, 108u8, 117u8, 114u8, 101u8]
}

/// Executable bytes of `"Failure"`.
pub fn failure_name() -> (r: [u8; 7])
    ensures
        r@ == spec_failure_name(),
{
    let r: [u8; 7] = [70u8, 97u8, 105u8, 108u8, 117u8, 114u8, 101u8];
    proof {
        assert(r@ =~= spec_failure_name());
    }
    r
}

/// The bytes of `"Pending"`.
pub open spec fn spec_pending_name() -> Seq<u8> {
    seq![80u8, 101u8, 110u8, 100u8, 105u8, 110u8, 103u8]
}

/// Executable bytes of `"Pending"`.
pub fn pending_name() -> (r: [u8; 7])
    ensures
        r@ == spec_pending_name(),
{
    let r: [u8; 7] = [80u8, 101u8, 110u8, 100u8, 105u8, 110u8, 103u8];
    proof {
        assert(r@ =~= spec_pending_name());
    }
    r
}

/// The bytes of `"tx_id"`.
pub open spec fn spec_key_tx_id() -> Seq<u8> {
    seq![116u8, 120u8, 95u8, 105u8, 100u8]
}

/// Executable bytes of `"tx_id"`.
pub fn key_tx_id() -> (r: [u8; 5])
    ensures
        r@ == spec_key_tx_id(),
{
    let r: [u8; 5] = [116u8, 120u8, 95u8, 105u8, 100u8];
    proof {
        assert(r@ =~= spec_key_tx_id());
    }
    r
}

/// The bytes of `"tx_type"`.
pub open spec fn spec_key_tx_type() -> Seq<u8> {
    seq![116u8, 120u8, 95u8, 116u8, 121u8, 112u8, 101u8]
}

/// Executable bytes of `"tx_type"`.
pub fn key_tx_type() -> (r: [u8; 7])
    ensures
        r@ == spec_key_tx_type(),
{
    let r: [u8; 7] = [116u8, 120u8, 95u8, 116u8, 121u8, 112u8, 101u8];
    proof {
        assert(r@ =~= spec_key_tx_type());
    }
    r
}

/// The bytes of `"from_user_id"`.
pub open spec fn spec_key_from_user_id() -> Seq<u8> {
    seq![102u8, 114u8, 111u8, 109u8, 95u8, 117u8, 115u8, 101u8, 114u8, 95u8, 105u8, 100u8]
}

/// Executable bytes of `"from_user_id"`.
pub fn key_from_user_id() -> (r: [u8; 12])
    ensures
        r@ == spec_key_from_user_id(),
{
    let r: [u8; 12] = [102u8, 114u8, 111u8, 109u8, 95u8, 117u8, 115u8, 101u8, 114u8, 95u8, 105u8, 100u8];
    proof {
        assert(r@ =~= spec_key_from_user_id());
    }
    r
}

/// The bytes of `"to_user_id"`.
pub open spec fn spec_key_to_user_id() -> Seq<u8> {
    seq![116u8, 111u8, 95u8, 117u8, 115u8, 101u8, 114u8, 95u8, 105u8, 100u8]
}

/// Executable bytes of `"to_user_id"`.
pub fn key_to_user_id() -> (r: [u8; 10])
    ensures
        r@ == spec_key_to_user_id(),
{
    let r: [u8; 10] = [116u8, 111u8, 95u8, 117u8, 115u8, 101u8, 114u8, 95u8, 105u8, 100u8];
    proof {
        assert(r@ =~= spec_key_to_user_id());
    }
    r
}

/// The bytes of `"amount"`.
pub open spec fn spec_key_amount() -> Seq<u8> {
    seq![97u8, 109u8, 111u8, 117u8, 110u8, 116u8]
}

/// Executable bytes of `"amount"`.
pub fn key_amount() -> (r: [u8; 6])
    ensures
        r@ == spec_key_amount(),
{
    let r: [u8; 6] = [97u8, 109u8, 111u8, 117u8, 110u8, 116u8];
    proof {
        assert(r@ =~= spec_key_amount());
    }
    r
}

/// The bytes of `"timestamp"`.
pub open spec fn spec_key_timestamp() -> Seq<u8> {
    seq![116u8, 105u8, 109u8, 101u8, 115u8, 116u8, 97u8, 109u8, 112u8]
}

/// Executable bytes of `"timestamp"`.
pub fn key_timestamp() -> (r: [u8; 9])
    ensures
        r@ == spec_key_timestamp(),
{
    let r: [u8; 9] = [116u8, 105u8, 109u8, 101u8, 115u8, 116u8, 97u8, 109u8, 112u8];
    proof {
        assert(r@ =~= spec_key_timestamp());
    }
    r
}

/// The bytes of `"status"`.
pub open spec fn spec_key_status() -> Seq<u8> {
    seq![115u8, 116u8, 97u8, 116u8, 117u8, 115u8]
}

/// Executable bytes of `"status"`.
pub fn key_status() -> (r: [u8; 6])
    ensures
        r@ == spec_key_status(),
{
    let r: [u8; 6] = [115u8, 116u8, 97u8, 116u8, 117u8, 115u8];
    proof {
        assert(r@ =~= spec_key_status());
    }
    r
}

/// The bytes of `"description"`.
pub open spec fn spec_key_description() -> Seq<u8> {
    seq![100u8, 101u8, 115u8, 99u8, 114u8, 105u8, 112u8, 116u8, 105u8, 111u8, 110u8]
}

/// Executable bytes of `"description"`.
pub fn key_description() -> (r: [u8; 11])
    ensures
        r@ == spec_key_description(),
{
    let r: [u8; 11] = [100u8, 101u8, 115u8, 99u8, 114u8, 105u8, 112u8, 116u8, 105u8, 111u8, 110u8];
    proof {
        assert(r@ =~= spec_key_description());
    }
    r
}

/// The bytes of `"# Record "`.
pub open spec fn spec_record_prefix() -> Seq<u8> {
    seq![35u8, 32u8, 82u8, 101u8, 99u8, 111u8, 114u8, 100u8, 32u8]
}

/// Executable bytes of `"# Record "`.
pub fn record_prefix() -> (r: [u8; 9])
    ensures
        r@ == spec_record_prefix(),
{
    let r: [u8; 9] = [35u8, 32u8, 82u8, 101u8, 99u8, 111u8, 114u8, 100u8, 32u8];
    proof {
        assert(r@ =~= spec_record_prefix());
    }
    r
}

/// The bytes of `" ("`.
pub open spec fn spec_paren_open() -> Seq<u8> {
    seq![32u8, 40u8]
}

/// Executable bytes of `" ("`.
pub fn paren_open() -> (r: [u8; 2])
    ensures
        r@ == spec_paren_open(),
{
    let r: [u8; 2] = [32u8, 40u8];
    proof {
        assert(r@ =~= spec_paren_open());
    }
    r
}

/// The bytes of `")"`.
pub open spec fn spec_paren_close() -> Seq<u8> {
    seq![41u8]
}

/// Executable bytes of `")"`.
pub fn paren_close() -> (r: [u8; 1])
    ensures
        r@ == spec_paren_close(),
{
    let r: [u8; 1] = [41u8];
    proof {
        assert(r@ =~= spec_paren_close());
    }
    r
}

/// The bytes of `": "`.
pub open spec fn spec_kv_sep() -> Seq<u8> {
    seq![58u8, 32u8]
}

/// Executable bytes of `": "`.
pub fn kv_sep() -> (r: [u8; 2])
    ensures
        r@ == spec_kv_sep(),
{
    let r: [u8; 2] = [58u8, 32u8];
    proof {
        assert(r@ =~= spec_kv_sep());
    }
    r
}

/// The bytes of `"csv"`.
pub open spec fn spec_fmt_csv() -> Seq<u8> {
    seq![99u8, 115u8, 118u8]
}

/// Executable bytes of `"csv"`.
pub fn fmt_csv() -> (r: [u8; 3])
    ensures
        r@ == spec_fmt_csv(),
{
    let r: [u8; 3] = [99u8, 115u8, 118u8];
    proof {
        assert(r@ =~= spec_fmt_csv());
    }
    r
}

/// The bytes of `"txt"`.
pub open spec fn spec_fmt_txt() -> Seq<u8> {
    seq![116u8, 120u8, 116u8]
}

/// Executable bytes of `"txt"`.
pub fn fmt_txt() -> (r: [u8; 3])
    ensures
        r@ == spec_fmt_txt(),
{
    let r: [u8; 3] = [116u8, 120u8, 116u8];
    proof {
        assert(r@ =~= spec_fmt_txt());
    }
    r
}

/// The bytes of `"bin"`.
pub open spec fn spec_fmt_bin() -> Seq<u8> {
    seq![98u8, 105u8, 110u8]
}

/// Executable bytes of `"bin"`.
pub fn fmt_bin() -> (r: [u8; 3])
    ensures
        r@ == spec_fmt_bin(),
{
    let r: [u8; 3] = [98u8, 105u8, 110u8];
    proof {
        assert(r@ =~= spec_fmt_bin());
    }
    r
}

/// The bytes of `"Payment"`.
pub open spec fn spec_payment_word() -> Seq<u8> {
    seq![80u8, 97u8, 121u8, 109u8, 101u8, 110u8, 116u8]
}

/// Executable bytes of `"Payment"`.
pub fn payment_word() -> (r: [u8; 7])
    ensures
        r@ == spec_payment_word(),
{
    let r: [u8; 7] = [80u8, 97u8, 121u8, 109u8, 101u8, 110u8, 116u8];
    proof {
        assert(r@ =~= spec_payment_word());
    }
    r
}

/// The bytes of `"Fee"`.
pub open spec fn spec_fee_word() -> Seq<u8> {
    seq![70u8, 101u8, 101u8]
}

/// Executable bytes of `"Fee"`.
pub fn fee_word() -> (r: [u8; 3])
    ensures
        r@ == spec_fee_word(),
{
    let r: [u8; 3] = [70u8, 101u8, 101u8];
    proof {
        assert(r@ =~= spec_fee_word());
    }
    r
}

/// The bytes of `"Refund"`.
pub open spec fn spec_refund_word() -> Seq<u8> {
    seq![82u8, 101u8, 102u8, 117u8, 110u8, 100u8]
}

/// Executable bytes of `"Refund"`.
pub fn refund_word() -> (r: [u8; 6])
    ensures
        r@ == spec_refund_word(),
{
    let r: [u8; 6] = [82u8, 101u8, 102u8, 117u8, 110u8, 100u8];
    proof {
        assert(r@ =~= spec_refund_word());
    }
    r
}

} // verus!