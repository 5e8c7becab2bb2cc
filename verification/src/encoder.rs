//! Canonical encoder: the exact pre-compression byte sequence of each
//! logical object — block header, transaction, body, receipt list, total
//! difficulty — over the nested list encoding of the `rlp` module.

use vstd::prelude::*;

use crate::canonical::{
    AccessListItem, BlockBody, Header, Log, ReceiptWithBloom, Signature, TransactionKind,
    TransactionSigned, TypedTransaction,
};
use crate::rlp::{
    min_be, push_all, rlp_append_str, rlp_append_u128, rlp_append_u64, rlp_list, rlp_str,
    rlp_wrap_list, trim_left, trim_zeros, views_of,
};
use crate::wire;

verus! {

broadcast use vstd::seq::Seq::add_empty_left;

/// Big-endian byte string of an integer, at a fixed width.
pub open spec fn be_bytes(n: nat, width: nat) -> Seq<u8>
    decreases width,
{
    if width == 0 {
        Seq::empty()
    } else {
        be_bytes(n / 256, (width - 1) as nat) + seq![(n % 256) as u8]
    }
}

/// Fixed-width big-endian encoding, as executable code.
pub fn encode_be(n: u64, width: usize) -> (r: Vec<u8>)
    ensures
        r@ == be_bytes(n as nat, width as nat),
    decreases width,
{
    if width == 0 {
        Vec::new()
    } else {
        let mut r = encode_be(n / 256, width - 1);
        r.push((n % 256) as u8);
        assert(r@ =~= be_bytes(n as nat, width as nat));
        r
    }
}

/// Concatenation of byte strings, each taken as one RLP string item.
pub open spec fn cat_strs(items: Seq<Seq<u8>>) -> Seq<u8>
    decreases items.len(),
{
    if items.len() == 0 {
        Seq::empty()
    } else {
        cat_strs(items.drop_last()) + rlp_str(items.last())
    }
}

/// Appends a list of byte strings as one RLP list item.
pub fn append_str_list(out: &mut Vec<u8>, items: &Vec<Vec<u8>>)
    ensures
        final(out)@ == old(out)@ + rlp_list(cat_strs(views_of(items@))),
{
    let ghost vs = views_of(items@);
    let mut payload: Vec<u8> = Vec::new();
    let mut i: usize = 0;
    while i < items.len()
        invariant
            0 <= i <= items@.len(),
            vs == views_of(items@),
            payload@ == cat_strs(vs.take(i as int)),
        decreases items@.len() - i,
    {
        rlp_append_str(&mut payload, items[i].as_slice());
        proof {
            assert(vs.take(i + 1).drop_last() =~= vs.take(i as int));
            assert(vs.take(i + 1).last() == items@[i as int]@);
        }
        i += 1;
    }
    proof {
        assert(vs.take(vs.len() as int) =~= vs);
    }
    let wrapped = rlp_wrap_list(payload);
    push_all(out, wrapped.as_slice());
}

/// One access-list entry as an RLP item: a list of the address and the
/// list of its storage keys.
pub open spec fn access_item_rlp(address: Seq<u8>, keys: Seq<Seq<u8>>) -> Seq<u8> {
    rlp_list(rlp_str(address) + rlp_list(cat_strs(keys)))
}

/// Concatenation of canonical access-list entries.
pub open spec fn cat_access_items(items: Seq<AccessListItem>) -> Seq<u8>
    decreases items.len(),
{
    if items.len() == 0 {
        Seq::empty()
    } else {
        cat_access_items(items.drop_last()) + access_item_rlp(
            items.last().address@,
            views_of(items.last().storage_keys@),
        )
    }
}

/// Concatenation of wire access-list entries; the bytes match the
/// canonical entries the mapper builds from them.
pub open spec fn cat_access_wire(items: Seq<wire::AccessTuple>) -> Seq<u8>
    decreases items.len(),
{
    if items.len() == 0 {
        Seq::empty()
    } else {
        cat_access_wire(items.drop_last()) + access_item_rlp(
            items.last().address@,
            views_of(items.last().storage_keys@),
        )
    }
}

fn append_access_item(out: &mut Vec<u8>, item: &AccessListItem)
    ensures
        final(out)@ == old(out)@ + access_item_rlp(
            item.address@,
            views_of(item.storage_keys@),
        ),
{
    let mut payload: Vec<u8> = Vec::new();
    rlp_append_str(&mut payload, item.address.as_slice());
    append_str_list(&mut payload, &item.storage_keys);
    let wrapped = rlp_wrap_list(payload);
    push_all(out, wrapped.as_slice());
}

/// Appends an access list as one RLP list item.
pub fn append_access_list(out: &mut Vec<u8>, items: &Vec<AccessListItem>)
    ensures
        final(out)@ == old(out)@ + rlp_list(cat_access_items(items@)),
{
    let mut payload: Vec<u8> = Vec::new();
    let mut i: usize = 0;
    while i < items.len()
        invariant
            0 <= i <= items@.len(),
            payload@ == cat_access_items(items@.take(i as int)),
        decreases items@.len() - i,
    {
        append_access_item(&mut payload, &items[i]);
        proof {
            assert(items@.take(i + 1).drop_last() =~= items@.take(i as int));
            assert(items@.take(i + 1).last() == items@[i as int]);
        }
        i += 1;
    }
    proof {
        assert(items@.take(items@.len() as int) =~= items@);
    }
    let wrapped = rlp_wrap_list(payload);
    push_all(out, wrapped.as_slice());
}

/// The trimmed signature fields of a transaction, in encoding order.
pub open spec fn sig_items(sig: Signature) -> Seq<u8> {
    rlp_str(trim_zeros(sig.v@)) + rlp_str(trim_zeros(sig.r@)) + rlp_str(trim_zeros(sig.s@))
}

fn append_sig_items(out: &mut Vec<u8>, sig: &Signature)
    ensures
        final(out)@ == old(out)@ + sig_items(*sig),
{
    let v = trim_left(sig.v.as_slice());
    rlp_append_str(out, v);
    let r = trim_left(sig.r.as_slice());
    rlp_append_str(out, r);
    let s = trim_left(sig.s.as_slice());
    rlp_append_str(out, s);
}

/// The destination field: an empty byte string for creation, the 20-byte
/// address for a call.
pub open spec fn kind_bytes(k: TransactionKind) -> Seq<u8> {
    match k {
        TransactionKind::Create => Seq::empty(),
        TransactionKind::Call(a) => a@,
    }
}

fn append_kind(out: &mut Vec<u8>, k: &TransactionKind)
    ensures
        final(out)@ == old(out)@ + rlp_str(kind_bytes(*k)),
{
    match k {
        TransactionKind::Create => {
            let empty: Vec<u8> = Vec::new();
            rlp_append_str(out, empty.as_slice());
        },
        TransactionKind::Call(a) => {
            rlp_append_str(out, a.as_slice());
        },
    }
}

/// The list payload of a canonical transaction, by variant.
pub open spec fn tx_payload(t: TypedTransaction, sig: Signature) -> Seq<u8> {
    match t {
        TypedTransaction::Legacy { nonce, gas_price, gas_limit, to, value, input, .. } => {
            rlp_str(min_be(nonce as nat)) + rlp_str(min_be(gas_price as nat)) + rlp_str(
                min_be(gas_limit as nat),
            ) + rlp_str(kind_bytes(to)) + rlp_str(min_be(value as nat)) + rlp_str(input@)
                + sig_items(sig)
        },
        TypedTransaction::Eip2930 {
            chain_id,
            nonce,
            gas_price,
            gas_limit,
            to,
            value,
            access_list,
            input,
        } => {
            rlp_str(min_be(chain_id as nat)) + rlp_str(min_be(nonce as nat)) + rlp_str(
                min_be(gas_price as nat),
            ) + rlp_str(min_be(gas_limit as nat)) + rlp_str(kind_bytes(to)) + rlp_str(
                min_be(value as nat),
            ) + rlp_str(input@) + rlp_list(cat_access_items(access_list@)) + sig_items(sig)
        },
        TypedTransaction::Eip1559 {
            chain_id,
            nonce,
            gas_limit,
            max_fee_per_gas,
            max_priority_fee_per_gas,
            to,
            value,
            access_list,
            input,
        } => {
            rlp_str(min_be(chain_id as nat)) + rlp_str(min_be(nonce as nat)) + rlp_str(
                min_be(max_fee_per_gas as nat),
            ) + rlp_str(min_be(max_priority_fee_per_gas as nat)) + rlp_str(
                min_be(gas_limit as nat),
            ) + rlp_str(kind_bytes(to)) + rlp_str(min_be(value as nat)) + rlp_str(input@)
                + rlp_list(cat_access_items(access_list@)) + sig_items(sig)
        },
    }
}

/// A whole transaction: the legacy shape is a bare list, the typed shapes
/// carry a single minimal-int type byte before the list.
pub open spec fn tx_encoding(ts: TransactionSigned) -> Seq<u8> {
    match ts.transaction {
        TypedTransaction::Legacy { .. } => rlp_list(tx_payload(ts.transaction, ts.signature)),
        TypedTransaction::Eip2930 { .. } => min_be(1) + rlp_list(
            tx_payload(ts.transaction, ts.signature),
        ),
        TypedTransaction::Eip1559 { .. } => min_be(2) + rlp_list(
            tx_payload(ts.transaction, ts.signature),
        ),
    }
}

/// Appends the encoding of one canonical transaction.
pub fn append_tx(out: &mut Vec<u8>, ts: &TransactionSigned)
    ensures
        final(out)@ == old(out)@ + tx_encoding(*ts),
{
    proof {
        crate::rlp::lemma_min_be_byte(1);
        crate::rlp::lemma_min_be_byte(2);
    }
    let mut payload: Vec<u8> = Vec::new();
    match &ts.transaction {
        TypedTransaction::Legacy { nonce, gas_price, gas_limit, to, value, input, .. } => {
            rlp_append_u64(&mut payload, *nonce);
            rlp_append_u128(&mut payload, *gas_price);
            rlp_append_u64(&mut payload, *gas_limit);
            append_kind(&mut payload, to);
            rlp_append_u128(&mut payload, *value);
            rlp_append_str(&mut payload, input.as_slice());
            append_sig_items(&mut payload, &ts.signature);
        },
        TypedTransaction::Eip2930 {
            chain_id,
            nonce,
            gas_price,
            gas_limit,
            to,
            value,
            access_list,
            input,
        } => {
            out.push(1u8);
            rlp_append_u64(&mut payload, *chain_id);
            rlp_append_u64(&mut payload, *nonce);
            rlp_append_u128(&mut payload, *gas_price);
            rlp_append_u64(&mut payload, *gas_limit);
            append_kind(&mut payload, to);
            rlp_append_u128(&mut payload, *value);
            rlp_append_str(&mut payload, input.as_slice());
            append_access_list(&mut payload, access_list);
            append_sig_items(&mut payload, &ts.signature);
        },
        TypedTransaction::Eip1559 {
            chain_id,
            nonce,
            gas_limit,
            max_fee_per_gas,
            max_priority_fee_per_gas,
            to,
            value,
            access_list,
            input,
        } => {
            out.push(2u8);
            rlp_append_u64(&mut payload, *chain_id);
            rlp_append_u64(&mut payload, *nonce);
            rlp_append_u128(&mut payload, *max_fee_per_gas);
            rlp_append_u128(&mut payload, *max_priority_fee_per_gas);
            rlp_append_u64(&mut payload, *gas_limit);
            append_kind(&mut payload, to);
            rlp_append_u128(&mut payload, *value);
            rlp_append_str(&mut payload, input.as_slice());
            append_access_list(&mut payload, access_list);
            append_sig_items(&mut payload, &ts.signature);
        },
    }
    assert(payload@ == tx_payload(ts.transaction, ts.signature));
    let wrapped = rlp_wrap_list(payload);
    push_all(out, wrapped.as_slice());
    assert(out@ =~= old(out)@ + tx_encoding(*ts));
}

/// The list payload of the canonical header: exactly fifteen fields, the
/// nonce as eight raw big-endian bytes.
pub open spec fn header_payload(h: Header) -> Seq<u8> {
    rlp_str(h.parent_hash@) + rlp_str(h.ommers_hash@) + rlp_str(h.beneficiary@) + rlp_str(
        h.state_root@,
    ) + rlp_str(h.transactions_root@) + rlp_str(h.receipts_root@) + rlp_str(h.logs_bloom@)
        + rlp_str(h.difficulty@) + rlp_str(min_be(h.number as nat)) + rlp_str(
        min_be(h.gas_limit as nat),
    ) + rlp_str(min_be(h.gas_used as nat)) + rlp_str(min_be(h.timestamp as nat)) + rlp_str(
        h.extra_data@,
    ) + rlp_str(h.mix_hash@) + rlp_str(be_bytes(h.nonce as nat, 8))
}

/// A canonical header as one RLP list.
pub open spec fn header_rlp(h: Header) -> Seq<u8> {
    rlp_list(header_payload(h))
}

/// Encodes a canonical block header.
pub fn encode_header(h: &Header) -> (r: Vec<u8>)
    ensures
        r@ == header_rlp(*h),
{
    let mut payload: Vec<u8> = Vec::new();
    rlp_append_str(&mut payload, h.parent_hash.as_slice());
    rlp_append_str(&mut payload, h.ommers_hash.as_slice());
    rlp_append_str(&mut payload, h.beneficiary.as_slice());
    rlp_append_str(&mut payload, h.state_root.as_slice());
    rlp_append_str(&mut payload, h.transactions_root.as_slice());
    rlp_append_str(&mut payload, h.receipts_root.as_slice());
    rlp_append_str(&mut payload, h.logs_bloom.as_slice());
    rlp_append_str(&mut payload, h.difficulty.as_slice());
    rlp_append_u64(&mut payload, h.number);
    rlp_append_u64(&mut payload, h.gas_limit);
    rlp_append_u64(&mut payload, h.gas_used);
    rlp_append_u64(&mut payload, h.timestamp);
    rlp_append_str(&mut payload, h.extra_data.as_slice());
    rlp_append_str(&mut payload, h.mix_hash.as_slice());
    let nonce_bytes = encode_be(h.nonce, 8);
    rlp_append_str(&mut payload, nonce_bytes.as_slice());
    assert(payload@ == header_payload(*h));
    rlp_wrap_list(payload)
}

/// Concatenation of transaction encodings.
pub open spec fn cat_txs(txs: Seq<TransactionSigned>) -> Seq<u8>
    decreases txs.len(),
{
    if txs.len() == 0 {
        Seq::empty()
    } else {
        cat_txs(txs.drop_last()) + tx_encoding(txs.last())
    }
}

/// Concatenation of header encodings.
pub open spec fn cat_headers(hs: Seq<Header>) -> Seq<u8>
    decreases hs.len(),
{
    if hs.len() == 0 {
        Seq::empty()
    } else {
        cat_headers(hs.drop_last()) + header_rlp(hs.last())
    }
}

/// A block body: the list of transactions, then the list of uncles as
/// full headers.
pub open spec fn body_rlp(body: BlockBody) -> Seq<u8> {
    rlp_list(rlp_list(cat_txs(body.transactions@)) + rlp_list(cat_headers(body.ommers@)))
}

/// Encodes a canonical block body.
pub fn encode_body(body: &BlockBody) -> (r: Vec<u8>)
    ensures
        r@ == body_rlp(*body),
{
    let mut tx_payload_bytes: Vec<u8> = Vec::new();
    let mut i: usize = 0;
    while i < body.transactions.len()
        invariant
            0 <= i <= body.transactions@.len(),
            tx_payload_bytes@ == cat_txs(body.transactions@.take(i as int)),
        decreases body.transactions@.len() - i,
    {
        append_tx(&mut tx_payload_bytes, &body.transactions[i]);
        proof {
            assert(body.transactions@.take(i + 1).drop_last()
                =~= body.transactions@.take(i as int));
            assert(body.transactions@.take(i + 1).last() == body.transactions@[i as int]);
        }
        i += 1;
    }
    proof {
        assert(body.transactions@.take(body.transactions@.len() as int)
            =~= body.transactions@);
    }
    let mut out = rlp_wrap_list(tx_payload_bytes);

    let mut uncle_payload: Vec<u8> = Vec::new();
    let mut j: usize = 0;
    while j < body.ommers.len()
        invariant
            0 <= j <= body.ommers@.len(),
            uncle_payload@ == cat_headers(body.ommers@.take(j as int)),
        decreases body.ommers@.len() - j,
    {
        let hb = encode_header(&body.ommers[j]);
        push_all(&mut uncle_payload, hb.as_slice());
        proof {
            assert(body.ommers@.take(j + 1).drop_last() =~= body.ommers@.take(j as int));
            assert(body.ommers@.take(j + 1).last() == body.ommers@[j as int]);
        }
        j += 1;
    }
    proof {
        assert(body.ommers@.take(body.ommers@.len() as int) =~= body.ommers@);
    }
    let uncles_wrapped = rlp_wrap_list(uncle_payload);
    push_all(&mut out, uncles_wrapped.as_slice());
    rlp_wrap_list(out)
}

/// A log entry as an RLP item: address, topic list, data.
pub open spec fn log_rlp(address: Seq<u8>, topics: Seq<Seq<u8>>, data: Seq<u8>) -> Seq<u8> {
    rlp_list(rlp_str(address) + rlp_list(cat_strs(topics)) + rlp_str(data))
}

/// Concatenation of canonical log encodings.
pub open spec fn cat_logs(logs: Seq<Log>) -> Seq<u8>
    decreases logs.len(),
{
    if logs.len() == 0 {
        Seq::empty()
    } else {
        cat_logs(logs.drop_last()) + log_rlp(
            logs.last().address@,
            views_of(logs.last().topics@),
            logs.last().data@,
        )
    }
}

/// Concatenation of wire log encodings; byte-equal to the canonical logs
/// mapped from them.
pub open spec fn cat_wire_logs(logs: Seq<wire::Log>) -> Seq<u8>
    decreases logs.len(),
{
    if logs.len() == 0 {
        Seq::empty()
    } else {
        cat_wire_logs(logs.drop_last()) + log_rlp(
            logs.last().address@,
            views_of(logs.last().topics@),
            logs.last().data@,
        )
    }
}

fn append_log(out: &mut Vec<u8>, address: &Vec<u8>, topics: &Vec<Vec<u8>>, data: &Vec<u8>)
    ensures
        final(out)@ == old(out)@ + log_rlp(address@, views_of(topics@), data@),
{
    let mut payload: Vec<u8> = Vec::new();
    rlp_append_str(&mut payload, address.as_slice());
    append_str_list(&mut payload, topics);
    rlp_append_str(&mut payload, data.as_slice());
    let wrapped = rlp_wrap_list(payload);
    push_all(out, wrapped.as_slice());
}

/// One post-fork receipt: the typed shapes carry a minimal-int type byte
/// before the list of success flag, cumulative gas, bloom and logs.
pub open spec fn receipt_rlp(rb: ReceiptWithBloom) -> Seq<u8> {
    let prefix = if rb.receipt.tx_type == 0 {
        Seq::<u8>::empty()
    } else {
        min_be(rb.receipt.tx_type as nat)
    };
    prefix + rlp_list(
        rlp_str(min_be(if rb.receipt.success { 1 as nat } else { 0 as nat })) + rlp_str(
            min_be(rb.receipt.cumulative_gas_used as nat),
        ) + rlp_str(rb.bloom@) + rlp_list(cat_logs(rb.receipt.logs@)),
    )
}

/// Concatenation of post-fork receipt encodings.
pub open spec fn cat_receipts(rs: Seq<ReceiptWithBloom>) -> Seq<u8>
    decreases rs.len(),
{
    if rs.len() == 0 {
        Seq::empty()
    } else {
        cat_receipts(rs.drop_last()) + receipt_rlp(rs.last())
    }
}

/// The post-fork receipt list as one RLP list.
pub open spec fn receipts_post_rlp(rs: Seq<ReceiptWithBloom>) -> Seq<u8> {
    rlp_list(cat_receipts(rs))
}

fn append_receipt(out: &mut Vec<u8>, rb: &ReceiptWithBloom)
    ensures
        final(out)@ == old(out)@ + receipt_rlp(*rb),
{
    if rb.receipt.tx_type != 0 {
        proof {
            crate::rlp::lemma_min_be_byte(rb.receipt.tx_type);
        }
        out.push(rb.receipt.tx_type);
    }
    let mut payload: Vec<u8> = Vec::new();
    rlp_append_u64(&mut payload, if rb.receipt.success { 1 } else { 0 });
    rlp_append_u64(&mut payload, rb.receipt.cumulative_gas_used);
    rlp_append_str(&mut payload, rb.bloom.as_slice());
    let mut logs_payload: Vec<u8> = Vec::new();
    let mut i: usize = 0;
    while i < rb.receipt.logs.len()
        invariant
            0 <= i <= rb.receipt.logs@.len(),
            logs_payload@ == cat_logs(rb.receipt.logs@.take(i as int)),
        decreases rb.receipt.logs@.len() - i,
    {
        let l = &rb.receipt.logs[i];
        append_log(&mut logs_payload, &l.address, &l.topics, &l.data);
        proof {
            assert(rb.receipt.logs@.take(i + 1).drop_last()
                =~= rb.receipt.logs@.take(i as int));
            assert(rb.receipt.logs@.take(i + 1).last() == rb.receipt.logs@[i as int]);
        }
        i += 1;
    }
    proof {
        assert(rb.receipt.logs@.take(rb.receipt.logs@.len() as int) =~= rb.receipt.logs@);
    }
    let logs_wrapped = rlp_wrap_list(logs_payload);
    push_all(&mut payload, logs_wrapped.as_slice());
    let wrapped = rlp_wrap_list(payload);
    push_all(out, wrapped.as_slice());
    assert(out@ =~= old(out)@ + receipt_rlp(*rb));
}

/// Encodes a post-fork receipt list.
pub fn encode_receipts_post(rs: &Vec<ReceiptWithBloom>) -> (r: Vec<u8>)
    ensures
        r@ == receipts_post_rlp(rs@),
{
    let mut payload: Vec<u8> = Vec::new();
    let mut i: usize = 0;
    while i < rs.len()
        invariant
            0 <= i <= rs@.len(),
            payload@ == cat_receipts(rs@.take(i as int)),
        decreases rs@.len() - i,
    {
        append_receipt(&mut payload, &rs[i]);
        proof {
            assert(rs@.take(i + 1).drop_last() =~= rs@.take(i as int));
            assert(rs@.take(i + 1).last() == rs@[i as int]);
        }
        i += 1;
    }
    proof {
        assert(rs@.take(rs@.len() as int) =~= rs@);
    }
    rlp_wrap_list(payload)
}

/// One pre-fork receipt, encoded directly from its wire form: state root,
/// cumulative gas, bloom, logs.
pub open spec fn wire_receipt_rlp(r: wire::TransactionReceipt) -> Seq<u8> {
    rlp_list(
        rlp_str(r.state_root@) + rlp_str(min_be(r.cumulative_gas_used as nat)) + rlp_str(
            r.logs_bloom@,
        ) + rlp_list(cat_wire_logs(r.logs@)),
    )
}

/// Appends one pre-fork wire receipt.
pub fn append_wire_receipt(out: &mut Vec<u8>, r: &wire::TransactionReceipt)
    ensures
        final(out)@ == old(out)@ + wire_receipt_rlp(*r),
{
    let mut payload: Vec<u8> = Vec::new();
    rlp_append_str(&mut payload, r.state_root.as_slice());
    rlp_append_u64(&mut payload, r.cumulative_gas_used);
    rlp_append_str(&mut payload, r.logs_bloom.as_slice());
    let mut logs_payload: Vec<u8> = Vec::new();
    let mut i: usize = 0;
    while i < r.logs.len()
        invariant
            0 <= i <= r.logs@.len(),
            logs_payload@ == cat_wire_logs(r.logs@.take(i as int)),
        decreases r.logs@.len() - i,
    {
        let l = &r.logs[i];
        append_log(&mut logs_payload, &l.address, &l.topics, &l.data);
        proof {
            assert(r.logs@.take(i + 1).drop_last() =~= r.logs@.take(i as int));
            assert(r.logs@.take(i + 1).last() == r.logs@[i as int]);
        }
        i += 1;
    }
    proof {
        assert(r.logs@.take(r.logs@.len() as int) =~= r.logs@);
    }
    let logs_wrapped = rlp_wrap_list(logs_payload);
    push_all(&mut payload, logs_wrapped.as_slice());
    let wrapped = rlp_wrap_list(payload);
    push_all(out, wrapped.as_slice());
}

/// The total-difficulty record payload: a 32-byte big-endian value, the
/// supplied bytes zero-padded on the left.
pub open spec fn encode_bigint_spec(b: Seq<u8>) -> Seq<u8> {
    if b.len() < 32 {
        Seq::new((32 - b.len()) as nat, |i: int| 0u8) + b
    } else {
        b
    }
}

/// Encodes an arbitrary-precision value for the total-difficulty record:
/// the big-endian bytes as supplied, zero-padded on the left to 32 bytes.
pub fn encode_bigint(big_int: wire::BigInt) -> (r: Vec<u8>)
    ensures
        r@ == encode_bigint_spec(big_int.bytes@),
{
    let n = big_int.bytes.len();
    let pad: usize = if n >= 32 {
        0
    } else {
        32 - n
    };
    let mut out: Vec<u8> = Vec::new();
    let mut i: usize = 0;
    while i < pad
        invariant
            0 <= i <= pad,
            out@ == Seq::new(i as nat, |k: int| 0u8),
        decreases pad - i,
    {
        out.push(0u8);
        proof {
            assert(Seq::new((i + 1) as nat, |k: int| 0u8)
                =~= Seq::new(i as nat, |k: int| 0u8).push(0u8));
        }
        i += 1;
    }
    push_all(&mut out, big_int.bytes.as_slice());
    proof {
        assert(out@ =~= encode_bigint_spec(big_int.bytes@));
    }
    out
}

} // verus!
