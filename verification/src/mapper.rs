//! Domain mapper: converts the generic wire representation into the
//! precisely-typed objects the canonical encoder expects — dispatching on
//! transaction type, deriving signature parity, resolving optional fields,
//! and checking every fixed-length field.

use vstd::prelude::*;

use crate::canonical::{
    AccessListItem, Header, Log, Receipt, ReceiptWithBloom, Signature, TransactionKind,
    TransactionSigned, TypedTransaction,
};
use crate::encoder::{
    access_item_rlp, be_bytes, cat_access_items, cat_access_wire, cat_logs, cat_wire_logs,
    header_rlp, kind_bytes, receipt_rlp, tx_encoding,
};
use crate::errors::{EraError, RequiredField, WireField};
use crate::rlp::be_decode;
use crate::rlp::{clone_bytes, min_be, rlp_list, rlp_str, trim_zeros, views_of};
use crate::wire;

verus! {

broadcast use vstd::seq::Seq::add_empty_left;


/// The recovery byte of a transaction: the first byte of its `v` field,
/// zero when the field is empty.
pub open spec fn v_byte(v: Seq<u8>) -> u8 {
    if v.len() == 0 {
        0
    } else {
        v[0]
    }
}

/// The protocol-era recovery values: 0/1 bare, 27/28 pre-fork, 37/38 with
/// replay protection; anything else is rejected.
pub open spec fn parity_ok(v: Seq<u8>) -> bool {
    let b = v_byte(v);
    b == 0 || b == 1 || b == 27 || b == 28 || b == 37 || b == 38
}

/// The parity bit each accepted recovery value denotes.
pub open spec fn parity_of(v: Seq<u8>) -> bool {
    let b = v_byte(v);
    b == 1 || b == 28 || b == 38
}

/// Derives the signature parity from the wire recovery byte.
pub fn get_y_parity(trace: &wire::Transaction) -> (r: Result<bool, EraError>)
    ensures
        match r {
            Ok(p) => parity_ok(trace.v@) && p == parity_of(trace.v@),
            Err(e) => !parity_ok(trace.v@) && e == EraError::InvalidSignatureParity,
        },
{
    let v: u8 = if trace.v.len() == 0 {
        0
    } else {
        trace.v[0]
    };
    if v == 0 || v == 1 {
        Ok(v == 1)
    } else if v == 27 || v == 28 {
        Ok(v == 28)
    } else if v == 37 || v == 38 {
        Ok(v == 38)
    } else {
        Err(EraError::InvalidSignatureParity)
    }
}

/// Maps a wire status code to the success flag: exactly the value one.
pub fn map_success(status: &i32) -> (r: bool)
    ensures
        r == (*status == 1),
{
    *status == 1
}

/// Maps an explicit wire type code to the canonical transaction type.
pub fn map_tx_type(tx_type: &i32) -> (r: Result<u8, EraError>)
    ensures
        match r {
            Ok(t) => (*tx_type == 0 || *tx_type == 1 || *tx_type == 2) && t == *tx_type,
            Err(e) => !(*tx_type == 0 || *tx_type == 1 || *tx_type == 2) && e
                == EraError::UnsupportedTransactionType,
        },
{
    if *tx_type == 0 {
        Ok(0)
    } else if *tx_type == 1 {
        Ok(1)
    } else if *tx_type == 2 {
        Ok(2)
    } else {
        Err(EraError::UnsupportedTransactionType)
    }
}

proof fn lemma_be_decode_prefix(s: Seq<u8>, k: int)
    requires
        0 <= k <= s.len(),
    ensures
        be_decode(s.take(k)) <= be_decode(s),
    decreases s.len(),
{
    if k < s.len() {
        let d = s.drop_last();
        assert(s.take(k) =~= d.take(k));
        lemma_be_decode_prefix(d, k);
        assert(be_decode(s) == be_decode(d) * 256 + s.last());
    } else {
        assert(s.take(k) =~= s);
    }
}

/// Parses a big-endian wire integer into a 128-bit value; values that do
/// not fit are malformed.
pub fn bigint_u128(bytes: &Vec<u8>, field: WireField) -> (r: Result<u128, EraError>)
    ensures
        match r {
            Ok(v) => v as nat == be_decode(bytes@),
            Err(e) => be_decode(bytes@) > u128::MAX && e == EraError::MalformedWireField(field),
        },
{
    let mut acc: u128 = 0;
    let mut i: usize = 0;
    let n = bytes.len();
    proof {
        assert(bytes@.take(0) =~= Seq::<u8>::empty());
    }
    while i < n
        invariant
            0 <= i <= n,
            n == bytes@.len(),
            acc as nat == be_decode(bytes@.take(i as int)),
        decreases n - i,
    {
        let b = bytes[i];
        if acc > (u128::MAX - (b as u128)) / 256 {
            proof {
                let t = bytes@.take(i + 1);
                assert(t.drop_last() =~= bytes@.take(i as int));
                assert(t.last() == bytes@[i as int]);
                assert(be_decode(t) == acc * 256 + b);
                assert(u128::MAX - b < 256 * ((u128::MAX - (b as u128)) / 256) + 256);
                lemma_be_decode_prefix(bytes@, i + 1);
            }
            return Err(EraError::MalformedWireField(field));
        }
        proof {
            let t = bytes@.take(i + 1);
            assert(t.drop_last() =~= bytes@.take(i as int));
            assert(t.last() == bytes@[i as int]);
            assert(acc * 256 <= ((u128::MAX - (b as u128)) / 256) * 256 <= u128::MAX - b);
        }
        acc = acc * 256 + (b as u128);
        i += 1;
    }
    proof {
        assert(bytes@.take(n as int) =~= bytes@);
    }
    Ok(acc)
}

/// The integer value an optional wire big-integer stands for: absent
/// means zero.
pub open spec fn opt_bigint_val(o: Option<wire::BigInt>) -> nat {
    match o {
        None => 0,
        Some(b) => be_decode(b.bytes@),
    }
}

/// Resolves an optional wire big-integer: absent defaults to zero rather
/// than failing.
pub fn opt_bigint_u128(o: &Option<wire::BigInt>, field: WireField) -> (r: Result<u128, EraError>)
    ensures
        match r {
            Ok(v) => v as nat == opt_bigint_val(*o),
            Err(e) => opt_bigint_val(*o) > u128::MAX && e == EraError::MalformedWireField(field),
        },
{
    match o {
        None => Ok(0),
        Some(b) => bigint_u128(&b.bytes, field),
    }
}

/// A wire timestamp as an unsigned count of seconds, by two's complement.
pub open spec fn seconds_to_u64(s: i64) -> u64 {
    if s >= 0 {
        s as u64
    } else {
        (s + 0x1_0000_0000_0000_0000) as u64
    }
}

fn timestamp_seconds(s: i64) -> (r: u64)
    ensures
        r == seconds_to_u64(s),
{
    if s >= 0 {
        s as u64
    } else {
        ((s as i128) + 0x1_0000_0000_0000_0000) as u64
    }
}

/// Copies a fixed-length wire field, failing when the length mismatches.
fn check_fixed(bytes: &Vec<u8>, want: usize, field: WireField) -> (r: Result<Vec<u8>, EraError>)
    ensures
        match r {
            Ok(v) => bytes@.len() == want && v@ == bytes@,
            Err(e) => bytes@.len() != want && e == EraError::MalformedWireField(field),
        },
{
    if bytes.len() == want {
        Ok(clone_bytes(bytes))
    } else {
        Err(EraError::MalformedWireField(field))
    }
}


/// The first thing wrong with a wire header, if anything: fixed-length
/// mismatches, then missing required fields, then malformed optionals.
pub open spec fn header_err(h: wire::BlockHeader) -> Option<EraError> {
    if h.parent_hash@.len() != 32 {
        Some(EraError::MalformedWireField(WireField::ParentHash))
    } else if h.uncle_hash@.len() != 32 {
        Some(EraError::MalformedWireField(WireField::UncleHash))
    } else if h.coinbase@.len() != 20 {
        Some(EraError::MalformedWireField(WireField::Coinbase))
    } else if h.state_root@.len() != 32 {
        Some(EraError::MalformedWireField(WireField::StateRoot))
    } else if h.transactions_root@.len() != 32 {
        Some(EraError::MalformedWireField(WireField::TransactionsRoot))
    } else if h.receipt_root@.len() != 32 {
        Some(EraError::MalformedWireField(WireField::ReceiptRoot))
    } else if h.logs_bloom@.len() != 256 {
        Some(EraError::MalformedWireField(WireField::LogsBloom))
    } else if h.difficulty is None {
        Some(EraError::MissingRequiredField(RequiredField::Difficulty))
    } else if h.timestamp is None {
        Some(EraError::MissingRequiredField(RequiredField::Timestamp))
    } else if h.mix_hash@.len() != 32 {
        Some(EraError::MalformedWireField(WireField::MixHash))
    } else if h.withdrawals_root@.len() != 0 && h.withdrawals_root@.len() != 32 {
        Some(EraError::MalformedWireField(WireField::WithdrawalsRoot))
    } else if h.base_fee_per_gas matches Some(b) && b.bytes@.len() != 0 && be_decode(b.bytes@)
        > u64::MAX {
        Some(EraError::MalformedWireField(WireField::BaseFeePerGas))
    } else {
        None
    }
}

/// The canonical header encoding, written over the wire fields it is
/// mapped from; meaningful when `header_err` is `None`.
pub open spec fn header_rlp_wire(h: wire::BlockHeader) -> Seq<u8> {
    rlp_list(
        rlp_str(h.parent_hash@) + rlp_str(h.uncle_hash@) + rlp_str(h.coinbase@) + rlp_str(
            h.state_root@,
        ) + rlp_str(h.transactions_root@) + rlp_str(h.receipt_root@) + rlp_str(h.logs_bloom@)
            + rlp_str((h.difficulty->Some_0).bytes@) + rlp_str(min_be(h.number as nat)) + rlp_str(
            min_be(h.gas_limit as nat),
        ) + rlp_str(min_be(h.gas_used as nat)) + rlp_str(
            min_be(seconds_to_u64((h.timestamp->Some_0).seconds) as nat),
        ) + rlp_str(h.extra_data@) + rlp_str(h.mix_hash@) + rlp_str(be_bytes(h.nonce as nat, 8)),
    )
}

/// Maps a wire header into the canonical header: strict fixed-length
/// copies, optionals resolved to absent when empty.
pub fn map_header(h: &wire::BlockHeader) -> (r: Result<Header, EraError>)
    ensures
        match r {
            Ok(ch) => {
                &&& header_err(*h) is None
                &&& ch.wf()
                &&& header_rlp(ch) == header_rlp_wire(*h)
                &&& ch.number == h.number
                &&& ch.gas_limit == h.gas_limit
                &&& ch.gas_used == h.gas_used
                &&& ch.nonce == h.nonce
                &&& ch.timestamp == seconds_to_u64((h.timestamp->Some_0).seconds)
                &&& ch.difficulty@ == (h.difficulty->Some_0).bytes@
                &&& (h.withdrawals_root@.len() == 0 ==> ch.withdrawals_root is None)
                &&& (h.withdrawals_root@.len() != 0 ==> (ch.withdrawals_root matches Some(w)
                    && w@ == h.withdrawals_root@))
                &&& (match h.base_fee_per_gas {
                    None => ch.base_fee_per_gas is None,
                    Some(b) => if b.bytes@.len() == 0 {
                        ch.base_fee_per_gas is None
                    } else {
                        ch.base_fee_per_gas == Some(be_decode(b.bytes@) as u64)
                    },
                })
            },
            Err(e) => header_err(*h) == Some(e),
        },
{
    let parent_hash = match check_fixed(&h.parent_hash, 32, WireField::ParentHash) {
        Ok(v) => v,
        Err(e) => { return Err(e); },
    };
    let ommers_hash = match check_fixed(&h.uncle_hash, 32, WireField::UncleHash) {
        Ok(v) => v,
        Err(e) => { return Err(e); },
    };
    let beneficiary = match check_fixed(&h.coinbase, 20, WireField::Coinbase) {
        Ok(v) => v,
        Err(e) => { return Err(e); },
    };
    let state_root = match check_fixed(&h.state_root, 32, WireField::StateRoot) {
        Ok(v) => v,
        Err(e) => { return Err(e); },
    };
    let transactions_root = match check_fixed(&h.transactions_root, 32, WireField::TransactionsRoot) {
        Ok(v) => v,
        Err(e) => { return Err(e); },
    };
    let receipts_root = match check_fixed(&h.receipt_root, 32, WireField::ReceiptRoot) {
        Ok(v) => v,
        Err(e) => { return Err(e); },
    };
    let logs_bloom = match check_fixed(&h.logs_bloom, 256, WireField::LogsBloom) {
        Ok(v) => v,
        Err(e) => { return Err(e); },
    };
    let difficulty = match &h.difficulty {
        Some(d) => clone_bytes(&d.bytes),
        None => { return Err(EraError::MissingRequiredField(RequiredField::Difficulty)); },
    };
    let timestamp = match &h.timestamp {
        Some(t) => timestamp_seconds(t.seconds),
        None => { return Err(EraError::MissingRequiredField(RequiredField::Timestamp)); },
    };
    let mix_hash = match check_fixed(&h.mix_hash, 32, WireField::MixHash) {
        Ok(v) => v,
        Err(e) => { return Err(e); },
    };
    let withdrawals_root = if h.withdrawals_root.len() == 0 {
        None
    } else {
        match check_fixed(&h.withdrawals_root, 32, WireField::WithdrawalsRoot) {
            Ok(v) => Some(v),
            Err(e) => { return Err(e); },
        }
    };
    let base_fee_per_gas = match &h.base_fee_per_gas {
        None => None,
        Some(b) => {
            if b.bytes.len() == 0 {
                None
            } else {
                match bigint_u128(&b.bytes, WireField::BaseFeePerGas) {
                    Ok(v) => {
                        if v > u64::MAX as u128 {
                            return Err(EraError::MalformedWireField(WireField::BaseFeePerGas));
                        }
                        Some(v as u64)
                    },
                    Err(e) => { return Err(e); },
                }
            }
        },
    };
    Ok(Header {
        parent_hash,
        ommers_hash,
        beneficiary,
        state_root,
        transactions_root,
        receipts_root,
        withdrawals_root,
        logs_bloom,
        difficulty,
        number: h.number,
        gas_limit: h.gas_limit,
        gas_used: h.gas_used,
        timestamp,
        extra_data: clone_bytes(&h.extra_data),
        mix_hash,
        nonce: h.nonce,
        base_fee_per_gas,
    })
}


/// The first thing wrong with a wire signature: the 32-byte `r` and `s`
/// values, then the recovery byte.
pub open spec fn sig_err(t: wire::Transaction) -> Option<EraError> {
    if t.r@.len() != 32 {
        Some(EraError::MalformedWireField(WireField::SignatureR))
    } else if t.s@.len() != 32 {
        Some(EraError::MalformedWireField(WireField::SignatureS))
    } else if !parity_ok(t.v@) {
        Some(EraError::InvalidSignatureParity)
    } else {
        None
    }
}

/// Maps the signature of a wire transaction: 32-byte `r` and `s`, parity
/// derived from the recovery byte.
pub fn map_signature(trace: &wire::Transaction) -> (r: Result<Signature, EraError>)
    ensures
        match r {
            Ok(sig) => {
                &&& sig_err(*trace) is None
                &&& sig.wf()
                &&& sig.v@ == trace.v@
                &&& sig.r@ == trace.r@
                &&& sig.s@ == trace.s@
                &&& sig.odd_y_parity == parity_of(trace.v@)
            },
            Err(e) => sig_err(*trace) == Some(e),
        },
{
    let r_bytes = match check_fixed(&trace.r, 32, WireField::SignatureR) {
        Ok(v) => v,
        Err(e) => { return Err(e); },
    };
    let s_bytes = match check_fixed(&trace.s, 32, WireField::SignatureS) {
        Ok(v) => v,
        Err(e) => { return Err(e); },
    };
    let odd_y_parity = match get_y_parity(trace) {
        Ok(p) => p,
        Err(e) => { return Err(e); },
    };
    Ok(Signature { v: clone_bytes(&trace.v), r: r_bytes, s: s_bytes, odd_y_parity })
}

/// The first wrong byte string in a list of fixed-length fields.
pub open spec fn byte_lists_err(items: Seq<Vec<u8>>, want: nat, field: WireField) -> Option<
    EraError,
>
    decreases items.len(),
{
    if items.len() == 0 {
        None
    } else {
        match byte_lists_err(items.drop_last(), want, field) {
            Some(e) => Some(e),
            None => if items.last()@.len() != want {
                Some(EraError::MalformedWireField(field))
            } else {
                None
            },
        }
    }
}

proof fn lemma_byte_lists_err_prefix(items: Seq<Vec<u8>>, k: int, want: nat, field: WireField)
    requires
        0 <= k <= items.len(),
        byte_lists_err(items.take(k), want, field) is Some,
    ensures
        byte_lists_err(items, want, field) == byte_lists_err(items.take(k), want, field),
    decreases items.len(),
{
    if k < items.len() {
        let d = items.drop_last();
        assert(items.take(k) =~= d.take(k));
        lemma_byte_lists_err_prefix(d, k, want, field);
    } else {
        assert(items.take(k) =~= items);
    }
}

/// Copies a list of fixed-length byte strings, failing on the first one
/// with the wrong length.
fn map_byte_lists(items: &Vec<Vec<u8>>, want: usize, field: WireField) -> (r: Result<
    Vec<Vec<u8>>,
    EraError,
>)
    ensures
        match r {
            Ok(v) => {
                &&& byte_lists_err(items@, want as nat, field) is None
                &&& views_of(v@) == views_of(items@)
                &&& forall|i: int| 0 <= i < v@.len() ==> (#[trigger] v@[i])@.len() == want
            },
            Err(e) => byte_lists_err(items@, want as nat, field) == Some(e),
        },
{
    let mut out: Vec<Vec<u8>> = Vec::new();
    let mut i: usize = 0;
    while i < items.len()
        invariant
            0 <= i <= items@.len(),
            out@.len() == i,
            byte_lists_err(items@.take(i as int), want as nat, field) is None,
            forall|j: int| 0 <= j < i ==> (#[trigger] out@[j])@ == items@[j]@,
            forall|j: int| 0 <= j < i ==> (#[trigger] out@[j])@.len() == want,
        decreases items@.len() - i,
    {
        proof {
            assert(items@.take(i + 1).drop_last() =~= items@.take(i as int));
            assert(items@.take(i + 1).last() == items@[i as int]);
        }
        match check_fixed(&items[i], want, field) {
            Ok(v) => {
                out.push(v);
            },
            Err(e) => {
                proof {
                    lemma_byte_lists_err_prefix(items@, i + 1, want as nat, field);
                }
                return Err(e);
            },
        }
        i += 1;
    }
    proof {
        assert(items@.take(items@.len() as int) =~= items@);
        assert(views_of(out@) =~= views_of(items@));
    }
    Ok(out)
}

/// The first thing wrong with a wire access list: a non-20-byte address,
/// then a non-32-byte storage key, item by item.
pub open spec fn access_list_err(items: Seq<wire::AccessTuple>) -> Option<EraError>
    decreases items.len(),
{
    if items.len() == 0 {
        None
    } else {
        match access_list_err(items.drop_last()) {
            Some(e) => Some(e),
            None => {
                let it = items.last();
                if it.address@.len() != 20 {
                    Some(EraError::MalformedWireField(WireField::AccessListAddress))
                } else {
                    byte_lists_err(it.storage_keys@, 32, WireField::StorageKey)
                }
            },
        }
    }
}

proof fn lemma_access_list_err_prefix(items: Seq<wire::AccessTuple>, k: int)
    requires
        0 <= k <= items.len(),
        access_list_err(items.take(k)) is Some,
    ensures
        access_list_err(items) == access_list_err(items.take(k)),
    decreases items.len(),
{
    if k < items.len() {
        let d = items.drop_last();
        assert(items.take(k) =~= d.take(k));
        lemma_access_list_err_prefix(d, k);
    } else {
        assert(items.take(k) =~= items);
    }
}

/// Maps a wire access list into canonical entries, checking every address
/// and storage key length.
pub fn map_access_list(items: &Vec<wire::AccessTuple>) -> (r: Result<Vec<AccessListItem>, EraError>)
    ensures
        match r {
            Ok(v) => {
                &&& access_list_err(items@) is None
                &&& cat_access_items(v@) == cat_access_wire(items@)
                &&& forall|i: int| 0 <= i < v@.len() ==> (#[trigger] v@[i]).wf()
            },
            Err(e) => access_list_err(items@) == Some(e),
        },
{
    let mut out: Vec<AccessListItem> = Vec::new();
    let mut i: usize = 0;
    while i < items.len()
        invariant
            0 <= i <= items@.len(),
            access_list_err(items@.take(i as int)) is None,
            cat_access_items(out@) == cat_access_wire(items@.take(i as int)),
            forall|j: int| 0 <= j < out@.len() ==> (#[trigger] out@[j]).wf(),
        decreases items@.len() - i,
    {
        proof {
            assert(items@.take(i + 1).drop_last() =~= items@.take(i as int));
            assert(items@.take(i + 1).last() == items@[i as int]);
        }
        let it = &items[i];
        let address = match check_fixed(&it.address, 20, WireField::AccessListAddress) {
            Ok(v) => v,
            Err(e) => {
                proof {
                    lemma_access_list_err_prefix(items@, i + 1);
                }
                return Err(e);
            },
        };
        let storage_keys = match map_byte_lists(&it.storage_keys, 32, WireField::StorageKey) {
            Ok(v) => v,
            Err(e) => {
                proof {
                    lemma_access_list_err_prefix(items@, i + 1);
                }
                return Err(e);
            },
        };
        let entry = AccessListItem { address, storage_keys };
        let ghost prev = out@;
        out.push(entry);
        proof {
            assert(out@.drop_last() =~= prev);
            assert(cat_access_items(out@) == cat_access_items(prev) + access_item_rlp(
                entry.address@,
                views_of(entry.storage_keys@),
            ));
        }
        i += 1;
    }
    proof {
        assert(items@.take(items@.len() as int) =~= items@);
    }
    Ok(out)
}

/// The first thing wrong with a wire log: a non-20-byte address, then a
/// non-32-byte topic.
pub open spec fn log_err(l: wire::Log) -> Option<EraError> {
    if l.address@.len() != 20 {
        Some(EraError::MalformedWireField(WireField::LogAddress))
    } else {
        byte_lists_err(l.topics@, 32, WireField::LogTopic)
    }
}

/// Maps a wire log into a canonical log, checking the address and every
/// topic length.
pub fn map_log(l: &wire::Log) -> (r: Result<Log, EraError>)
    ensures
        match r {
            Ok(cl) => {
                &&& log_err(*l) is None
                &&& cl.wf()
                &&& cl.address@ == l.address@
                &&& views_of(cl.topics@) == views_of(l.topics@)
                &&& cl.data@ == l.data@
            },
            Err(e) => log_err(*l) == Some(e),
        },
{
    let address = match check_fixed(&l.address, 20, WireField::LogAddress) {
        Ok(v) => v,
        Err(e) => { return Err(e); },
    };
    let topics = match map_byte_lists(&l.topics, 32, WireField::LogTopic) {
        Ok(v) => v,
        Err(e) => { return Err(e); },
    };
    Ok(Log { address, topics, data: clone_bytes(&l.data) })
}


/// The first wrong log in a list of wire logs.
pub open spec fn logs_err(logs: Seq<wire::Log>) -> Option<EraError>
    decreases logs.len(),
{
    if logs.len() == 0 {
        None
    } else {
        match logs_err(logs.drop_last()) {
            Some(e) => Some(e),
            None => log_err(logs.last()),
        }
    }
}

proof fn lemma_logs_err_prefix(logs: Seq<wire::Log>, k: int)
    requires
        0 <= k <= logs.len(),
        logs_err(logs.take(k)) is Some,
    ensures
        logs_err(logs) == logs_err(logs.take(k)),
    decreases logs.len(),
{
    if k < logs.len() {
        let d = logs.drop_last();
        assert(logs.take(k) =~= d.take(k));
        lemma_logs_err_prefix(d, k);
    } else {
        assert(logs.take(k) =~= logs);
    }
}

/// The first thing wrong with a wire transaction's receipt, for the
/// post-fork shape: the type code, a missing receipt, its logs, its bloom.
pub open spec fn receipt_err(t: wire::Transaction) -> Option<EraError> {
    if !(t.tx_type == 0 || t.tx_type == 1 || t.tx_type == 2) {
        Some(EraError::UnsupportedTransactionType)
    } else if t.receipt is None {
        Some(EraError::MissingRequiredField(RequiredField::Receipt))
    } else if logs_err((t.receipt->Some_0).logs@) is Some {
        logs_err((t.receipt->Some_0).logs@)
    } else if (t.receipt->Some_0).logs_bloom@.len() != 256 {
        Some(EraError::InvalidBloom)
    } else {
        None
    }
}

/// The post-fork receipt encoding, written over the wire fields it is
/// mapped from; meaningful when `receipt_err` is `None`.
pub open spec fn receipt_post_wire(t: wire::Transaction) -> Seq<u8> {
    let rec = t.receipt->Some_0;
    let prefix = if t.tx_type == 0 {
        Seq::<u8>::empty()
    } else {
        min_be(t.tx_type as nat)
    };
    prefix + rlp_list(
        rlp_str(min_be(if t.status == 1 { 1 as nat } else { 0 as nat })) + rlp_str(
            min_be(rec.cumulative_gas_used as nat),
        ) + rlp_str(rec.logs_bloom@) + rlp_list(cat_wire_logs(rec.logs@)),
    )
}

/// Maps a wire transaction to the post-fork receipt shape: success from
/// the status code, the type code, cumulative gas, checked logs, and the
/// 256-byte bloom.
pub fn map_receipt(trace: &wire::Transaction) -> (r: Result<ReceiptWithBloom, EraError>)
    ensures
        match r {
            Ok(rb) => {
                &&& receipt_err(*trace) is None
                &&& rb.wf()
                &&& rb.receipt.success == (trace.status == 1)
                &&& rb.receipt.tx_type == trace.tx_type
                &&& receipt_rlp(rb) == receipt_post_wire(*trace)
            },
            Err(e) => receipt_err(*trace) == Some(e),
        },
{
    let success = map_success(&trace.status);
    let tx_type = match map_tx_type(&trace.tx_type) {
        Ok(t) => t,
        Err(e) => { return Err(e); },
    };
    let trace_receipt = match &trace.receipt {
        Some(rec) => rec,
        None => { return Err(EraError::MissingRequiredField(RequiredField::Receipt)); },
    };
    let mut logs: Vec<Log> = Vec::new();
    let mut i: usize = 0;
    while i < trace_receipt.logs.len()
        invariant
            0 <= i <= trace_receipt.logs@.len(),
            trace.tx_type == 0 || trace.tx_type == 1 || trace.tx_type == 2,
            trace.receipt == Some(*trace_receipt),
            logs_err(trace_receipt.logs@.take(i as int)) is None,
            cat_logs(logs@) == cat_wire_logs(trace_receipt.logs@.take(i as int)),
        decreases trace_receipt.logs@.len() - i,
    {
        proof {
            assert(trace_receipt.logs@.take(i + 1).drop_last()
                =~= trace_receipt.logs@.take(i as int));
            assert(trace_receipt.logs@.take(i + 1).last() == trace_receipt.logs@[i as int]);
        }
        match map_log(&trace_receipt.logs[i]) {
            Ok(cl) => {
                let ghost prev = logs@;
                logs.push(cl);
                proof {
                    assert(logs@.drop_last() =~= prev);
                }
            },
            Err(e) => {
                proof {
                    lemma_logs_err_prefix(trace_receipt.logs@, i + 1);
                }
                return Err(e);
            },
        }
        i += 1;
    }
    proof {
        assert(trace_receipt.logs@.take(trace_receipt.logs@.len() as int)
            =~= trace_receipt.logs@);
    }
    let bloom = match check_fixed(&trace_receipt.logs_bloom, 256, WireField::LogsBloom) {
        Ok(v) => v,
        Err(_) => { return Err(EraError::InvalidBloom); },
    };
    let receipt = Receipt {
        success,
        tx_type,
        cumulative_gas_used: trace_receipt.cumulative_gas_used,
        logs,
    };
    Ok(ReceiptWithBloom { receipt, bloom })
}

/// The first thing wrong with a wire transaction: its type code, its
/// numeric fields, its destination, its access list, its signature, its
/// hash.
pub open spec fn tx_err(t: wire::Transaction) -> Option<EraError> {
    if !(t.tx_type == 0 || t.tx_type == 1 || t.tx_type == 2) {
        Some(EraError::UnsupportedTransactionType)
    } else if opt_bigint_val(t.gas_price) > u128::MAX {
        Some(EraError::MalformedWireField(WireField::GasPrice))
    } else if t.to@.len() != 0 && t.to@.len() != 20 {
        Some(EraError::MalformedWireField(WireField::To))
    } else if opt_bigint_val(t.value) > u128::MAX {
        Some(EraError::MalformedWireField(WireField::Value))
    } else if (t.tx_type == 1 || t.tx_type == 2) && access_list_err(t.access_list@) is Some {
        access_list_err(t.access_list@)
    } else if t.tx_type == 2 && opt_bigint_val(t.max_fee_per_gas) > u128::MAX {
        Some(EraError::MalformedWireField(WireField::MaxFeePerGas))
    } else if t.tx_type == 2 && opt_bigint_val(t.max_priority_fee_per_gas) > u128::MAX {
        Some(EraError::MalformedWireField(WireField::MaxPriorityFeePerGas))
    } else if sig_err(t) is Some {
        sig_err(t)
    } else if t.hash@.len() != 32 {
        Some(EraError::MalformedWireField(WireField::TransactionHash))
    } else {
        None
    }
}

/// The chain id recorded on a legacy transaction: none when the recovery
/// byte predates replay protection (27 or 28), chain one otherwise. The
/// legacy encoding never writes it; the field documents the mapping.
pub open spec fn legacy_chain_id(v: Seq<u8>) -> Option<u64> {
    if v_byte(v) == 27 || v_byte(v) == 28 {
        None
    } else {
        Some(1u64)
    }
}

/// The canonical transaction encoding, written over the wire fields it is
/// mapped from; meaningful when `tx_err` is `None`. The chain id of the
/// typed shapes is fixed at one.
pub open spec fn tx_enc_wire(t: wire::Transaction) -> Seq<u8> {
    let sig = rlp_str(trim_zeros(t.v@)) + rlp_str(trim_zeros(t.r@)) + rlp_str(trim_zeros(t.s@));
    if t.tx_type == 1 {
        min_be(1) + rlp_list(
            rlp_str(min_be(1)) + rlp_str(min_be(t.nonce as nat)) + rlp_str(
                min_be(opt_bigint_val(t.gas_price)),
            ) + rlp_str(min_be(t.gas_limit as nat)) + rlp_str(t.to@) + rlp_str(
                min_be(opt_bigint_val(t.value)),
            ) + rlp_str(t.input@) + rlp_list(cat_access_wire(t.access_list@)) + sig,
        )
    } else if t.tx_type == 2 {
        min_be(2) + rlp_list(
            rlp_str(min_be(1)) + rlp_str(min_be(t.nonce as nat)) + rlp_str(
                min_be(opt_bigint_val(t.max_fee_per_gas)),
            ) + rlp_str(min_be(opt_bigint_val(t.max_priority_fee_per_gas))) + rlp_str(
                min_be(t.gas_limit as nat),
            ) + rlp_str(t.to@) + rlp_str(min_be(opt_bigint_val(t.value))) + rlp_str(t.input@)
                + rlp_list(cat_access_wire(t.access_list@)) + sig,
        )
    } else {
        rlp_list(
            rlp_str(min_be(t.nonce as nat)) + rlp_str(min_be(opt_bigint_val(t.gas_price)))
                + rlp_str(min_be(t.gas_limit as nat)) + rlp_str(t.to@) + rlp_str(
                min_be(opt_bigint_val(t.value)),
            ) + rlp_str(t.input@) + sig,
        )
    }
}

/// Maps a wire transaction into a canonical signed transaction:
/// dispatches on the type code, defaults missing numeric fields to zero,
/// derives the signature parity, and checks every fixed-length field.
pub fn map_transaction(trace: &wire::Transaction) -> (r: Result<TransactionSigned, EraError>)
    ensures
        match r {
            Ok(ts) => {
                &&& tx_err(*trace) is None
                &&& ts.hash@ == trace.hash@
                &&& ts.signature.odd_y_parity == parity_of(trace.v@)
                &&& tx_encoding(ts) == tx_enc_wire(*trace)
                &&& (trace.tx_type == 0 ==> (ts.transaction matches TypedTransaction::Legacy {
                    chain_id,
                    ..
                } && chain_id == legacy_chain_id(trace.v@)))
                &&& (trace.tx_type == 1 ==> (ts.transaction matches TypedTransaction::Eip2930 {
                    chain_id,
                    ..
                } && chain_id == 1))
                &&& (trace.tx_type == 2 ==> (ts.transaction matches TypedTransaction::Eip1559 {
                    chain_id,
                    ..
                } && chain_id == 1))
            },
            Err(e) => tx_err(*trace) == Some(e),
        },
{
    let tx_type = match map_tx_type(&trace.tx_type) {
        Ok(t) => t,
        Err(e) => { return Err(e); },
    };
    let gas_price = match opt_bigint_u128(&trace.gas_price, WireField::GasPrice) {
        Ok(v) => v,
        Err(e) => { return Err(e); },
    };
    let to = if trace.to.len() == 0 {
        TransactionKind::Create
    } else {
        match check_fixed(&trace.to, 20, WireField::To) {
            Ok(a) => TransactionKind::Call(a),
            Err(e) => { return Err(e); },
        }
    };
    proof {
        assert(kind_bytes(to) =~= trace.to@);
    }
    let value = match opt_bigint_u128(&trace.value, WireField::Value) {
        Ok(v) => v,
        Err(e) => { return Err(e); },
    };
    let input = clone_bytes(&trace.input);
    let transaction: TypedTransaction = if tx_type == 0 {
        let vb: u8 = if trace.v.len() == 0 {
            0
        } else {
            trace.v[0]
        };
        let chain_id: Option<u64> = if vb == 27 || vb == 28 {
            None
        } else {
            Some(1)
        };
        TypedTransaction::Legacy {
            chain_id,
            nonce: trace.nonce,
            gas_price,
            gas_limit: trace.gas_limit,
            to,
            value,
            input,
        }
    } else if tx_type == 1 {
        let access_list = match map_access_list(&trace.access_list) {
            Ok(v) => v,
            Err(e) => { return Err(e); },
        };
        TypedTransaction::Eip2930 {
            chain_id: 1,
            nonce: trace.nonce,
            gas_price,
            gas_limit: trace.gas_limit,
            to,
            value,
            access_list,
            input,
        }
    } else {
        let access_list = match map_access_list(&trace.access_list) {
            Ok(v) => v,
            Err(e) => { return Err(e); },
        };
        let max_fee_per_gas = match opt_bigint_u128(&trace.max_fee_per_gas, WireField::MaxFeePerGas) {
            Ok(v) => v,
            Err(e) => { return Err(e); },
        };
        let max_priority_fee_per_gas = match opt_bigint_u128(
            &trace.max_priority_fee_per_gas,
            WireField::MaxPriorityFeePerGas,
        ) {
            Ok(v) => v,
            Err(e) => { return Err(e); },
        };
        TypedTransaction::Eip1559 {
            chain_id: 1,
            nonce: trace.nonce,
            gas_limit: trace.gas_limit,
            max_fee_per_gas,
            max_priority_fee_per_gas,
            to,
            value,
            access_list,
            input,
        }
    };
    let signature = match map_signature(trace) {
        Ok(sig) => sig,
        Err(e) => { return Err(e); },
    };
    let hash = match check_fixed(&trace.hash, 32, WireField::TransactionHash) {
        Ok(v) => v,
        Err(e) => { return Err(e); },
    };
    let ts = TransactionSigned { transaction, signature, hash };
    proof {
        assert(tx_encoding(ts) =~= tx_enc_wire(*trace));
    }
    Ok(ts)
}

} // verus!
