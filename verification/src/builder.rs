//! Archive builder: accumulates per-block records into an output sink,
//! tracks each block's starting offset, and emits the accumulator record
//! and the block-index trailer on finalization.

use vstd::prelude::*;

use crate::canonical::{BlockBody, Header, ReceiptWithBloom, TransactionSigned};
use crate::encoder::{
    append_wire_receipt, cat_headers, cat_receipts, cat_txs, encode_bigint, encode_bigint_spec,
    encode_body, encode_header, encode_receipts_post, wire_receipt_rlp,
};
use crate::errors::{EraError, RequiredField};
use crate::mapper::{
    header_err, header_rlp_wire, map_header, map_receipt, map_transaction, receipt_err,
    receipt_post_wire, tx_enc_wire, tx_err,
};
use crate::record::{
    encode_le, le_bytes, le_decode, lemma_concat_split, lemma_le_bytes_len, lemma_le_roundtrip,
    lemma_record_enc_len, lemma_record_round_trip, parse_record, record_enc, E2Store, E2StoreType,
};
use crate::rlp::{clone_bytes, pow256, push_all, rlp_list, rlp_wrap_list};
use crate::snap_utils::{snap_compress_of, snap_encode};
use crate::wire::{BigInt, VerifiableBlock};

verus! {

broadcast use vstd::seq::Seq::add_empty_left;

/// The block number at which the receipt representation changes from the
/// raw wire shape to the typed success-flag shape.
pub const BYZANTIUM_HARDFORK: u64 = 4_370_000;

/// The serialized Version record that opens every archive.
pub open spec fn version_bytes() -> Seq<u8> {
    record_enc(E2StoreType::Version, Seq::empty())
}

/// The transactions a block contributes: the genesis block always
/// contributes none, whatever its wire form carries.
pub open spec fn effective_txs(b: VerifiableBlock) -> Seq<crate::wire::Transaction> {
    if b.number == 0 {
        Seq::empty()
    } else {
        b.transactions@
    }
}

/// The first wrong transaction in a list.
pub open spec fn txs_err(ts: Seq<crate::wire::Transaction>) -> Option<EraError>
    decreases ts.len(),
{
    if ts.len() == 0 {
        None
    } else {
        match txs_err(ts.drop_last()) {
            Some(e) => Some(e),
            None => tx_err(ts.last()),
        }
    }
}

/// The first wrong uncle header in a list.
pub open spec fn uncles_err(hs: Seq<crate::wire::BlockHeader>) -> Option<EraError>
    decreases hs.len(),
{
    if hs.len() == 0 {
        None
    } else {
        match uncles_err(hs.drop_last()) {
            Some(e) => Some(e),
            None => header_err(hs.last()),
        }
    }
}

/// The first transaction without a receipt, for the pre-fork shape.
pub open spec fn pre_receipts_err(ts: Seq<crate::wire::Transaction>) -> Option<EraError>
    decreases ts.len(),
{
    if ts.len() == 0 {
        None
    } else {
        match pre_receipts_err(ts.drop_last()) {
            Some(e) => Some(e),
            None => if ts.last().receipt is None {
                Some(EraError::MissingRequiredField(RequiredField::Receipt))
            } else {
                None
            },
        }
    }
}

/// The first wrong receipt, for the post-fork shape.
pub open spec fn post_receipts_err(ts: Seq<crate::wire::Transaction>) -> Option<EraError>
    decreases ts.len(),
{
    if ts.len() == 0 {
        None
    } else {
        match post_receipts_err(ts.drop_last()) {
            Some(e) => Some(e),
            None => receipt_err(ts.last()),
        }
    }
}

/// Concatenation of transaction encodings, over wire transactions.
pub open spec fn cat_txs_wire(ts: Seq<crate::wire::Transaction>) -> Seq<u8>
    decreases ts.len(),
{
    if ts.len() == 0 {
        Seq::empty()
    } else {
        cat_txs_wire(ts.drop_last()) + tx_enc_wire(ts.last())
    }
}

/// Concatenation of header encodings, over wire headers.
pub open spec fn cat_headers_wire(hs: Seq<crate::wire::BlockHeader>) -> Seq<u8>
    decreases hs.len(),
{
    if hs.len() == 0 {
        Seq::empty()
    } else {
        cat_headers_wire(hs.drop_last()) + header_rlp_wire(hs.last())
    }
}

/// Concatenation of pre-fork receipt encodings.
pub open spec fn cat_receipts_pre(ts: Seq<crate::wire::Transaction>) -> Seq<u8>
    decreases ts.len(),
{
    if ts.len() == 0 {
        Seq::empty()
    } else {
        cat_receipts_pre(ts.drop_last()) + wire_receipt_rlp(ts.last().receipt->Some_0)
    }
}

/// Concatenation of post-fork receipt encodings, over wire transactions.
pub open spec fn cat_receipts_post_wire(ts: Seq<crate::wire::Transaction>) -> Seq<u8>
    decreases ts.len(),
{
    if ts.len() == 0 {
        Seq::empty()
    } else {
        cat_receipts_post_wire(ts.drop_last()) + receipt_post_wire(ts.last())
    }
}

/// The body encoding of a block, over its wire form.
pub open spec fn body_rlp_wire(b: VerifiableBlock) -> Seq<u8> {
    rlp_list(
        rlp_list(cat_txs_wire(effective_txs(b))) + rlp_list(cat_headers_wire(b.uncles@)),
    )
}

/// The receipt-list encoding of a block: the raw wire shape before the
/// hard-fork boundary, the typed shape from the boundary on.
pub open spec fn receipts_rlp_wire(b: VerifiableBlock) -> Seq<u8> {
    if b.number < BYZANTIUM_HARDFORK {
        rlp_list(cat_receipts_pre(effective_txs(b)))
    } else {
        rlp_list(cat_receipts_post_wire(effective_txs(b)))
    }
}

/// The first thing wrong with a whole block: its header, its total
/// difficulty, its transactions, its uncles, its receipts.
pub open spec fn block_err(b: VerifiableBlock) -> Option<EraError> {
    if b.header is None {
        Some(EraError::MissingRequiredField(RequiredField::Header))
    } else if header_err(b.header->Some_0) is Some {
        header_err(b.header->Some_0)
    } else if (b.header->Some_0).total_difficulty is None {
        Some(EraError::MissingRequiredField(RequiredField::TotalDifficulty))
    } else if txs_err(effective_txs(b)) is Some {
        txs_err(effective_txs(b))
    } else if uncles_err(b.uncles@) is Some {
        uncles_err(b.uncles@)
    } else if b.number < BYZANTIUM_HARDFORK {
        pre_receipts_err(effective_txs(b))
    } else {
        post_receipts_err(effective_txs(b))
    }
}

/// Whether any of the block's four record payloads exceeds the 32-bit
/// length field of the record format.
pub open spec fn block_oversized(b: VerifiableBlock) -> bool {
    ||| snap_compress_of(header_rlp_wire(b.header->Some_0)).len() > u32::MAX
    ||| snap_compress_of(body_rlp_wire(b)).len() > u32::MAX
    ||| snap_compress_of(receipts_rlp_wire(b)).len() > u32::MAX
    ||| encode_bigint_spec(((b.header->Some_0).total_difficulty->Some_0).bytes@).len() > u32::MAX
}

/// The four records a block contributes to the archive, in order: header,
/// body, receipts, total difficulty.
pub open spec fn block_record_stream(b: VerifiableBlock) -> Seq<u8> {
    let h = b.header->Some_0;
    record_enc(E2StoreType::CompressedHeader, snap_compress_of(header_rlp_wire(h))) + record_enc(
        E2StoreType::CompressedBody,
        snap_compress_of(body_rlp_wire(b)),
    ) + record_enc(E2StoreType::CompressedReceipts, snap_compress_of(receipts_rlp_wire(b)))
        + record_enc(
        E2StoreType::TotalDifficulty,
        encode_bigint_spec((h.total_difficulty->Some_0).bytes@),
    )
}


proof fn lemma_txs_err_prefix(ts: Seq<crate::wire::Transaction>, k: int)
    requires
        0 <= k <= ts.len(),
        txs_err(ts.take(k)) is Some,
    ensures
        txs_err(ts) == txs_err(ts.take(k)),
    decreases ts.len(),
{
    if k < ts.len() {
        let d = ts.drop_last();
        assert(ts.take(k) =~= d.take(k));
        lemma_txs_err_prefix(d, k);
    } else {
        assert(ts.take(k) =~= ts);
    }
}

proof fn lemma_uncles_err_prefix(hs: Seq<crate::wire::BlockHeader>, k: int)
    requires
        0 <= k <= hs.len(),
        uncles_err(hs.take(k)) is Some,
    ensures
        uncles_err(hs) == uncles_err(hs.take(k)),
    decreases hs.len(),
{
    if k < hs.len() {
        let d = hs.drop_last();
        assert(hs.take(k) =~= d.take(k));
        lemma_uncles_err_prefix(d, k);
    } else {
        assert(hs.take(k) =~= hs);
    }
}

proof fn lemma_pre_receipts_err_prefix(ts: Seq<crate::wire::Transaction>, k: int)
    requires
        0 <= k <= ts.len(),
        pre_receipts_err(ts.take(k)) is Some,
    ensures
        pre_receipts_err(ts) == pre_receipts_err(ts.take(k)),
    decreases ts.len(),
{
    if k < ts.len() {
        let d = ts.drop_last();
        assert(ts.take(k) =~= d.take(k));
        lemma_pre_receipts_err_prefix(d, k);
    } else {
        assert(ts.take(k) =~= ts);
    }
}

proof fn lemma_post_receipts_err_prefix(ts: Seq<crate::wire::Transaction>, k: int)
    requires
        0 <= k <= ts.len(),
        post_receipts_err(ts.take(k)) is Some,
    ensures
        post_receipts_err(ts) == post_receipts_err(ts.take(k)),
    decreases ts.len(),
{
    if k < ts.len() {
        let d = ts.drop_last();
        assert(ts.take(k) =~= d.take(k));
        lemma_post_receipts_err_prefix(d, k);
    } else {
        assert(ts.take(k) =~= ts);
    }
}


/// Maps a list of wire transactions, stopping at the first malformed one.
fn map_txs(txs_src: &Vec<crate::wire::Transaction>) -> (r: Result<
    Vec<TransactionSigned>,
    EraError,
>)
    ensures
        match r {
            Ok(v) => txs_err(txs_src@) is None && cat_txs(v@) == cat_txs_wire(txs_src@),
            Err(e) => txs_err(txs_src@) == Some(e),
        },
{
    let mut transactions: Vec<TransactionSigned> = Vec::new();
    let mut i: usize = 0;
    while i < txs_src.len()
        invariant
            0 <= i <= txs_src@.len(),
            txs_err(txs_src@.take(i as int)) is None,
            cat_txs(transactions@) == cat_txs_wire(txs_src@.take(i as int)),
        decreases txs_src@.len() - i,
    {
        proof {
            assert(txs_src@.take(i + 1).drop_last() =~= txs_src@.take(i as int));
            assert(txs_src@.take(i + 1).last() == txs_src@[i as int]);
        }
        match map_transaction(&txs_src[i]) {
            Ok(ts) => {
                let ghost prev = transactions@;
                transactions.push(ts);
                proof {
                    assert(transactions@.drop_last() =~= prev);
                }
            },
            Err(e) => {
                proof {
                    lemma_txs_err_prefix(txs_src@, i + 1);
                }
                return Err(e);
            },
        }
        i += 1;
    }
    proof {
        assert(txs_src@.take(txs_src@.len() as int) =~= txs_src@);
    }
    Ok(transactions)
}

/// Maps a list of wire uncle headers, stopping at the first malformed one.
fn map_uncles(uncles: &Vec<crate::wire::BlockHeader>) -> (r: Result<Vec<Header>, EraError>)
    ensures
        match r {
            Ok(v) => uncles_err(uncles@) is None && cat_headers(v@) == cat_headers_wire(uncles@),
            Err(e) => uncles_err(uncles@) == Some(e),
        },
{
    let mut ommers: Vec<Header> = Vec::new();
    let mut j: usize = 0;
    while j < uncles.len()
        invariant
            0 <= j <= uncles@.len(),
            uncles_err(uncles@.take(j as int)) is None,
            cat_headers(ommers@) == cat_headers_wire(uncles@.take(j as int)),
        decreases uncles@.len() - j,
    {
        proof {
            assert(uncles@.take(j + 1).drop_last() =~= uncles@.take(j as int));
            assert(uncles@.take(j + 1).last() == uncles@[j as int]);
        }
        match map_header(&uncles[j]) {
            Ok(uncle) => {
                let ghost prev = ommers@;
                ommers.push(uncle);
                proof {
                    assert(ommers@.drop_last() =~= prev);
                }
            },
            Err(e) => {
                proof {
                    lemma_uncles_err_prefix(uncles@, j + 1);
                }
                return Err(e);
            },
        }
        j += 1;
    }
    proof {
        assert(uncles@.take(uncles@.len() as int) =~= uncles@);
    }
    Ok(ommers)
}

/// Encodes a pre-fork receipt list straight from the wire transactions,
/// failing on the first transaction without a receipt.
fn receipts_payload_pre(txs_src: &Vec<crate::wire::Transaction>) -> (r: Result<Vec<u8>, EraError>)
    ensures
        match r {
            Ok(v) => pre_receipts_err(txs_src@) is None && v@ == rlp_list(
                cat_receipts_pre(txs_src@),
            ),
            Err(e) => pre_receipts_err(txs_src@) == Some(e),
        },
{
    let mut payload: Vec<u8> = Vec::new();
    let mut k: usize = 0;
    while k < txs_src.len()
        invariant
            0 <= k <= txs_src@.len(),
            pre_receipts_err(txs_src@.take(k as int)) is None,
            payload@ == cat_receipts_pre(txs_src@.take(k as int)),
        decreases txs_src@.len() - k,
    {
        proof {
            assert(txs_src@.take(k + 1).drop_last() =~= txs_src@.take(k as int));
            assert(txs_src@.take(k + 1).last() == txs_src@[k as int]);
        }
        match &txs_src[k].receipt {
            Some(rec) => {
                append_wire_receipt(&mut payload, rec);
            },
            None => {
                proof {
                    lemma_pre_receipts_err_prefix(txs_src@, k + 1);
                }
                return Err(EraError::MissingRequiredField(RequiredField::Receipt));
            },
        }
        k += 1;
    }
    proof {
        assert(txs_src@.take(txs_src@.len() as int) =~= txs_src@);
    }
    Ok(rlp_wrap_list(payload))
}

/// Maps and encodes a post-fork receipt list from the wire transactions,
/// failing on the first malformed receipt.
fn receipts_payload_post(txs_src: &Vec<crate::wire::Transaction>) -> (r: Result<Vec<u8>, EraError>)
    ensures
        match r {
            Ok(v) => post_receipts_err(txs_src@) is None && v@ == rlp_list(
                cat_receipts_post_wire(txs_src@),
            ),
            Err(e) => post_receipts_err(txs_src@) == Some(e),
        },
{
    let mut receipts: Vec<ReceiptWithBloom> = Vec::new();
    let mut k: usize = 0;
    while k < txs_src.len()
        invariant
            0 <= k <= txs_src@.len(),
            post_receipts_err(txs_src@.take(k as int)) is None,
            cat_receipts(receipts@) == cat_receipts_post_wire(txs_src@.take(k as int)),
        decreases txs_src@.len() - k,
    {
        proof {
            assert(txs_src@.take(k + 1).drop_last() =~= txs_src@.take(k as int));
            assert(txs_src@.take(k + 1).last() == txs_src@[k as int]);
        }
        match map_receipt(&txs_src[k]) {
            Ok(rb) => {
                let ghost prev = receipts@;
                receipts.push(rb);
                proof {
                    assert(receipts@.drop_last() =~= prev);
                }
            },
            Err(e) => {
                proof {
                    lemma_post_receipts_err_prefix(txs_src@, k + 1);
                }
                return Err(e);
            },
        }
        k += 1;
    }
    proof {
        assert(txs_src@.take(txs_src@.len() as int) =~= txs_src@);
    }
    Ok(encode_receipts_post(&receipts))
}

/// Maps, encodes and compresses a whole block into its four record
/// payloads: compressed header, compressed body, compressed receipts, and
/// the total-difficulty value, each within the record length limit.
fn block_payloads(block: &VerifiableBlock) -> (r: Result<
    (Vec<u8>, Vec<u8>, Vec<u8>, Vec<u8>),
    EraError,
>)
    ensures
        r is Ok <==> (block_err(*block) is None && !block_oversized(*block)),
        match r {
            Ok(p) => {
                &&& p.0@ == snap_compress_of(header_rlp_wire(block.header->Some_0))
                &&& p.1@ == snap_compress_of(body_rlp_wire(*block))
                &&& p.2@ == snap_compress_of(receipts_rlp_wire(*block))
                &&& p.3@ == encode_bigint_spec(
                    ((block.header->Some_0).total_difficulty->Some_0).bytes@,
                )
                &&& p.0@.len() <= u32::MAX
                &&& p.1@.len() <= u32::MAX
                &&& p.2@.len() <= u32::MAX
                &&& p.3@.len() <= u32::MAX
            },
            Err(e) => match block_err(*block) {
                Some(e2) => e == e2,
                None => block_oversized(*block) && e == EraError::OversizedRecord,
            },
        },
{
    let header = match &block.header {
        Some(h) => h,
        None => {
            return Err(EraError::MissingRequiredField(RequiredField::Header));
        },
    };
    let block_header = match map_header(header) {
        Ok(ch) => ch,
        Err(e) => {
            return Err(e);
        },
    };
    let total_difficulty = match &header.total_difficulty {
        Some(td) => td,
        None => {
            return Err(EraError::MissingRequiredField(RequiredField::TotalDifficulty));
        },
    };

    let no_txs: Vec<crate::wire::Transaction> = Vec::new();
    let txs_src: &Vec<crate::wire::Transaction> = if block.number == 0 {
        &no_txs
    } else {
        &block.transactions
    };
    proof {
        assert(txs_src@ =~= effective_txs(*block));
    }

    let transactions = match map_txs(txs_src) {
        Ok(v) => v,
        Err(e) => {
            return Err(e);
        },
    };
    let ommers = match map_uncles(&block.uncles) {
        Ok(v) => v,
        Err(e) => {
            return Err(e);
        },
    };
    let receipts_bytes = if block.number < BYZANTIUM_HARDFORK {
        match receipts_payload_pre(txs_src) {
            Ok(v) => v,
            Err(e) => {
                return Err(e);
            },
        }
    } else {
        match receipts_payload_post(txs_src) {
            Ok(v) => v,
            Err(e) => {
                return Err(e);
            },
        }
    };
    assert(receipts_bytes@ == receipts_rlp_wire(*block));
    assert(block_err(*block) is None);

    let header_rlp_bytes = encode_header(&block_header);
    let body = BlockBody { transactions, ommers };
    let body_bytes = encode_body(&body);
    assert(body_bytes@ == body_rlp_wire(*block));

    let compressed_header = match snap_encode(header_rlp_bytes.as_slice()) {
        Ok(v) => v,
        Err(_) => {
            proof {
                assert(false);
            }
            return Err(EraError::CorruptFrame);
        },
    };
    if compressed_header.len() > u32::MAX as usize {
        return Err(EraError::OversizedRecord);
    }
    let compressed_body = match snap_encode(body_bytes.as_slice()) {
        Ok(v) => v,
        Err(_) => {
            proof {
                assert(false);
            }
            return Err(EraError::CorruptFrame);
        },
    };
    if compressed_body.len() > u32::MAX as usize {
        return Err(EraError::OversizedRecord);
    }
    let compressed_receipts = match snap_encode(receipts_bytes.as_slice()) {
        Ok(v) => v,
        Err(_) => {
            proof {
                assert(false);
            }
            return Err(EraError::CorruptFrame);
        },
    };
    if compressed_receipts.len() > u32::MAX as usize {
        return Err(EraError::OversizedRecord);
    }
    let td_payload = encode_bigint(BigInt { bytes: clone_bytes(&total_difficulty.bytes) });
    if td_payload.len() > u32::MAX as usize {
        return Err(EraError::OversizedRecord);
    }
    Ok((compressed_header, compressed_body, compressed_receipts, td_payload))
}

/// The archive builder: the output sink it exclusively owns, a monotonic
/// byte cursor, the starting offset of each block added, and the number
/// of the first block once one has been added.
pub struct EraBuilder {
    pub writer: Vec<u8>,
    pub bytes_written: u64,
    pub indexes: Vec<u64>,
    pub starting: Option<u64>,
}

impl EraBuilder {
    /// The bytes written to the sink so far.
    pub open spec fn out(self) -> Seq<u8> {
        self.writer@
    }

    /// The absolute offset of each block's header record.
    pub open spec fn index_offsets(self) -> Seq<u64> {
        self.indexes@
    }

    /// The number of the first block added, if any.
    pub open spec fn starting_number_spec(self) -> Option<u64> {
        self.starting
    }

    /// The output cursor.
    pub open spec fn cursor(self) -> u64 {
        self.bytes_written
    }

    /// The builder's invariant: the cursor counts the sink's bytes, an
    /// empty builder has an empty sink, an accumulating builder's sink
    /// opens with the Version record, and index entries lie strictly
    /// below the cursor in ascending order, each with room for a block's
    /// four records after it.
    pub open spec fn wf(self) -> bool {
        &&& self.bytes_written == self.writer@.len()
        &&& (self.starting is None ==> self.indexes@.len() == 0 && self.writer@.len() == 0)
        &&& (self.starting is Some ==> self.writer@.len() >= 8 && self.writer@.subrange(0, 8)
            == version_bytes())
        &&& (forall|i: int| 0 <= i < self.indexes@.len() ==> (#[trigger] self.indexes@[i]) + 32
            <= self.bytes_written)
        &&& (forall|i: int, j: int| 0 <= i < j < self.indexes@.len() ==> self.indexes@[i]
            < self.indexes@[j])
    }

    /// Binds a builder to a fresh output sink; an archive starts at byte
    /// offset zero, so the sink must be empty.
    pub fn new(writer: Vec<u8>) -> (r: EraBuilder)
        requires
            writer@.len() == 0,
        ensures
            r.wf(),
            r.out() == Seq::<u8>::empty(),
            r.index_offsets() == Seq::<u64>::empty(),
            r.starting_number_spec() is None,
    {
        EraBuilder { writer, bytes_written: 0, indexes: Vec::new(), starting: None }
    }

    /// The number of blocks added so far.
    pub fn len(&self) -> (r: usize)
        ensures
            r == self.index_offsets().len(),
    {
        self.indexes.len()
    }

    /// The number of the first block added, if any.
    pub fn starting_number(&self) -> (r: Option<u64>)
        ensures
            r == self.starting_number_spec(),
    {
        self.starting
    }

    /// A view of the bytes written so far.
    pub fn output(&self) -> (r: &Vec<u8>)
        ensures
            r@ == self.out(),
    {
        &self.writer
    }

    /// Clears all accumulated state and rebinds to a new (empty) output
    /// sink, for starting the next archive. The old sink is dropped, not
    /// flushed: taking it first is the caller's responsibility.
    pub fn reset(&mut self, writer: Vec<u8>)
        requires
            writer@.len() == 0,
        ensures
            final(self).wf(),
            final(self).out() == Seq::<u8>::empty(),
            final(self).index_offsets() == Seq::<u64>::empty(),
            final(self).starting_number_spec() is None,
    {
        self.bytes_written = 0;
        self.indexes = Vec::new();
        self.starting = None;
        self.writer = writer;
    }



    /// Adds one block to the archive: on the first call writes the Version
    /// record and fixes the starting number; always records the block's
    /// header offset, then writes its Header, Body, Receipts and
    /// TotalDifficulty records in that order. A malformed block fails the
    /// call as a whole and leaves the builder unchanged.
    pub fn add(&mut self, block: &VerifiableBlock) -> (r: Result<(), EraError>)
        requires
            old(self).wf(),
        ensures
            final(self).wf(),
            r is Ok <==> (block_err(*block) is None && !block_oversized(*block)),
            match r {
                Ok(_) => {
                    &&& final(self).writer@ == old(self).writer@ + (if old(self).starting is None {
                        version_bytes()
                    } else {
                        Seq::<u8>::empty()
                    }) + block_record_stream(*block)
                    &&& final(self).indexes@ == old(self).indexes@.push(
                        (old(self).bytes_written + (if old(self).starting is None {
                            8int
                        } else {
                            0int
                        })) as u64,
                    )
                    &&& final(self).starting == (if old(self).starting is None {
                        Some(block.number)
                    } else {
                        old(self).starting
                    })
                },
                Err(e) => {
                    &&& final(self).writer@ == old(self).writer@
                    &&& final(self).indexes@ == old(self).indexes@
                    &&& final(self).starting == old(self).starting
                    &&& final(self).bytes_written == old(self).bytes_written
                    &&& (match block_err(*block) {
                        Some(e2) => e == e2,
                        None => block_oversized(*block) && e == EraError::OversizedRecord,
                    })
                },
            },
    {
        let (compressed_header, compressed_body, compressed_receipts, td_payload) =
            match block_payloads(block) {
            Ok(p) => p,
            Err(e) => {
                return Err(e);
            },
        };

        let first = self.starting.is_none();
        proof {
            crate::record::lemma_record_enc_len(E2StoreType::Version, Seq::empty());
            crate::record::lemma_record_enc_len(
                E2StoreType::CompressedHeader,
                compressed_header@,
            );
            crate::record::lemma_record_enc_len(E2StoreType::CompressedBody, compressed_body@);
            crate::record::lemma_record_enc_len(
                E2StoreType::CompressedReceipts,
                compressed_receipts@,
            );
            crate::record::lemma_record_enc_len(E2StoreType::TotalDifficulty, td_payload@);
        }
        if first {
            let version = E2Store {
                type_: E2StoreType::Version,
                length: 0,
                reserved: 0,
                data: Vec::new(),
            };
            let version_rec = version.into_bytes();
            push_all(&mut self.writer, version_rec.as_slice());
        }
        self.bytes_written = self.writer.len() as u64;
        self.indexes.push(self.bytes_written);

        let header_record = E2Store {
            type_: E2StoreType::CompressedHeader,
            length: compressed_header.len() as u32,
            reserved: 0,
            data: compressed_header,
        };
        let header_record_bytes = header_record.into_bytes();
        push_all(&mut self.writer, header_record_bytes.as_slice());

        let body_record = E2Store {
            type_: E2StoreType::CompressedBody,
            length: compressed_body.len() as u32,
            reserved: 0,
            data: compressed_body,
        };
        let body_record_bytes = body_record.into_bytes();
        push_all(&mut self.writer, body_record_bytes.as_slice());

        let receipts_record = E2Store {
            type_: E2StoreType::CompressedReceipts,
            length: compressed_receipts.len() as u32,
            reserved: 0,
            data: compressed_receipts,
        };
        let receipts_record_bytes = receipts_record.into_bytes();
        push_all(&mut self.writer, receipts_record_bytes.as_slice());

        let td_record = E2Store {
            type_: E2StoreType::TotalDifficulty,
            length: td_payload.len() as u32,
            reserved: 0,
            data: td_payload,
        };
        let td_record_bytes = td_record.into_bytes();
        push_all(&mut self.writer, td_record_bytes.as_slice());

        self.bytes_written = self.writer.len() as u64;
        if first {
            self.starting = Some(block.number);
        }

        proof {
            let prefix = if old(self).starting is None {
                version_bytes()
            } else {
                Seq::<u8>::empty()
            };
            assert(self.writer@ =~= old(self).writer@ + prefix + block_record_stream(*block));
            if old(self).starting is None {
                assert(self.writer@.subrange(0, 8) =~= version_bytes());
            } else {
                assert(self.writer@.subrange(0, 8) =~= old(self).writer@.subrange(0, 8));
            }
            assert forall|a: int| 0 <= a < self.indexes@.len() implies (
                #[trigger] self.indexes@[a]) + 32 <= self.bytes_written by {
                if a < old(self).indexes@.len() {
                    assert(old(self).indexes@[a] + 32 <= old(self).bytes_written);
                }
            }
            assert forall|a: int, b: int| 0 <= a < b < self.indexes@.len() implies
                self.indexes@[a] < self.indexes@[b] by {
                if b < old(self).indexes@.len() {
                } else {
                    if a < old(self).indexes@.len() {
                        assert(old(self).indexes@[a] + 32 <= old(self).bytes_written);
                    }
                }
            }
        }
        Ok(())
    }


    /// Finalizes the archive: writes the Accumulator record, then the
    /// BlockIndex trailer whose signed relative offsets resolve each
    /// block's header record from the slot position alone. Fails, leaving
    /// the builder unchanged, when a payload exceeds the record length
    /// field or the archive has grown past what signed offsets can span.
    pub fn finalize(&mut self, header_accumulator: Vec<u8>) -> (r: Result<(), EraError>)
        requires
            old(self).wf(),
            old(self).starting is Some,
        ensures
            final(self).wf(),
            final(self).indexes@ == old(self).indexes@,
            final(self).starting == old(self).starting,
            r is Ok <==> (header_accumulator@.len() <= u32::MAX && 16 + 8
                * old(self).indexes@.len() <= u32::MAX && old(self).bytes_written + 8
                + header_accumulator@.len() + 16 + 8 * old(self).indexes@.len() <= i64::MAX),
            match r {
                Ok(_) => final(self).writer@ == old(self).writer@ + record_enc(
                    E2StoreType::Accumulator,
                    header_accumulator@,
                ) + record_enc(
                    E2StoreType::BlockIndex,
                    trailer_payload(
                        old(self).starting->Some_0,
                        old(self).indexes@,
                        old(self).bytes_written + 8 + header_accumulator@.len(),
                    ),
                ),
                Err(e) => {
                    &&& final(self).writer@ == old(self).writer@
                    &&& final(self).bytes_written == old(self).bytes_written
                    &&& (if header_accumulator@.len() > u32::MAX || 16 + 8
                        * old(self).indexes@.len() > u32::MAX {
                        e == EraError::OversizedRecord
                    } else {
                        e == EraError::OversizedArchive
                    })
                },
            },
    {
        let count = self.indexes.len();
        let acc_len = header_accumulator.len();
        if acc_len > u32::MAX as usize {
            return Err(EraError::OversizedRecord);
        }
        let trailer_len: u128 = 16 + 8 * (count as u128);
        if trailer_len > u32::MAX as u128 {
            return Err(EraError::OversizedRecord);
        }
        let w_check: u128 = (self.bytes_written as u128) + 8 + (acc_len as u128);
        if w_check + trailer_len > i64::MAX as u128 {
            return Err(EraError::OversizedArchive);
        }

        proof {
            lemma_record_enc_len(E2StoreType::Accumulator, header_accumulator@);
        }
        let acc_record = E2Store {
            type_: E2StoreType::Accumulator,
            length: acc_len as u32,
            reserved: 0,
            data: header_accumulator,
        };
        let acc_record_bytes = acc_record.into_bytes();
        push_all(&mut self.writer, acc_record_bytes.as_slice());

        let w: u64 = self.writer.len() as u64;
        let start: u64 = match self.starting {
            Some(st) => st,
            None => {
                proof {
                    assert(false);
                }
                0
            },
        };
        let mut payload = encode_le(start, 8);
        let mut idx: usize = 0;
        proof {
            lemma_le_bytes_len(start as nat, 8);
        }
        while idx < count
            invariant
                0 <= idx <= count,
                count == self.indexes@.len(),
                self.indexes@ == old(self).indexes@,
                w as int + 16 + 8 * count <= i64::MAX,
                forall|a: int| 0 <= a < count ==> (#[trigger] self.indexes@[a]) < w,
                payload@ == le_bytes(start as nat, 8) + offsets_bytes(
                    self.indexes@.take(idx as int),
                    w as int,
                ),
                payload@.len() == 8 + 8 * idx,
            decreases count - idx,
        {
            let off = self.indexes[idx];
            let slot: i128 = (w as i128) + 16 + 8 * (idx as i128);
            let rel: i128 = (off as i128) - slot;
            let rel_u64: u64 = if rel >= 0 {
                rel as u64
            } else {
                (rel + 0x1_0000_0000_0000_0000) as u64
            };
            proof {
                assert(rel_u64 == twos64(off - (w as int + 16 + 8 * (idx as int))));
            }
            let chunk = encode_le(rel_u64, 8);
            push_all(&mut payload, chunk.as_slice());
            proof {
                lemma_le_bytes_len(rel_u64 as nat, 8);
                let t = self.indexes@.take(idx + 1);
                assert(t.drop_last() =~= self.indexes@.take(idx as int));
                assert(t.last() == self.indexes@[idx as int]);
            }
            idx += 1;
        }
        proof {
            assert(self.indexes@.take(count as int) =~= self.indexes@);
        }
        let count_bytes = encode_le(count as u64, 8);
        push_all(&mut payload, count_bytes.as_slice());
        proof {
            lemma_le_bytes_len(count as nat, 8);
            assert(payload@ == trailer_payload(start, self.indexes@, w as int));
        }

        let trailer_record = E2Store {
            type_: E2StoreType::BlockIndex,
            length: payload.len() as u32,
            reserved: 0,
            data: payload,
        };
        let trailer_record_bytes = trailer_record.into_bytes();
        proof {
            lemma_record_enc_len(
                E2StoreType::BlockIndex,
                trailer_payload(start, self.indexes@, w as int),
            );
        }
        push_all(&mut self.writer, trailer_record_bytes.as_slice());
        self.bytes_written = self.writer.len() as u64;

        proof {
            assert(self.writer@.subrange(0, 8) =~= old(self).writer@.subrange(0, 8));
            assert forall|a: int| 0 <= a < self.indexes@.len() implies (
                #[trigger] self.indexes@[a]) + 32 <= self.bytes_written by {
                assert(old(self).indexes@[a] + 32 <= old(self).bytes_written);
            }
        }
        Ok(())
    }

    /// Takes the finished bytes out of the builder, leaving an empty sink
    /// behind; the builder must be reset before further use.
    pub fn take_sink(&mut self) -> (r: Vec<u8>)
        ensures
            r@ == old(self).out(),
            final(self).writer@ == Seq::<u8>::empty(),
            final(self).indexes@ == old(self).indexes@,
            final(self).starting == old(self).starting,
            final(self).bytes_written == old(self).bytes_written,
    {
        let mut taken: Vec<u8> = Vec::new();
        core::mem::swap(&mut self.writer, &mut taken);
        taken
    }
}


/// The two's-complement 64-bit image of a signed relative offset.
pub open spec fn twos64(x: int) -> u64 {
    if x >= 0 {
        x as u64
    } else {
        (x + 0x1_0000_0000_0000_0000) as u64
    }
}

/// The signed value a 64-bit offset slot holds.
pub open spec fn untwos64(u: u64) -> int {
    if u < 0x8000_0000_0000_0000 {
        u as int
    } else {
        u - 0x1_0000_0000_0000_0000
    }
}

/// The offset slots of the block-index trailer: slot `i` holds the header
/// offset of block `i` minus the absolute file position of the slot
/// itself, where `w` is the position at which the trailer record starts.
pub open spec fn offsets_bytes(indexes: Seq<u64>, w: int) -> Seq<u8>
    decreases indexes.len(),
{
    if indexes.len() == 0 {
        Seq::empty()
    } else {
        offsets_bytes(indexes.drop_last(), w) + le_bytes(
            twos64(indexes.last() - (w + 16 + 8 * (indexes.len() - 1))) as nat,
            8,
        )
    }
}

/// The block-index trailer payload: starting number, one signed relative
/// offset per block in the order added, then the count, all little-endian.
pub open spec fn trailer_payload(start: u64, indexes: Seq<u64>, w: int) -> Seq<u8> {
    le_bytes(start as nat, 8) + offsets_bytes(indexes, w) + le_bytes(indexes.len(), 8)
}

pub proof fn lemma_offsets_bytes_len(indexes: Seq<u64>, w: int)
    ensures
        offsets_bytes(indexes, w).len() == 8 * indexes.len(),
    decreases indexes.len(),
{
    if indexes.len() > 0 {
        lemma_offsets_bytes_len(indexes.drop_last(), w);
        lemma_le_bytes_len(
            twos64(indexes.last() - (w + 16 + 8 * (indexes.len() - 1))) as nat,
            8,
        );
    }
}

proof fn lemma_offsets_at(indexes: Seq<u64>, w: int, i: int)
    requires
        0 <= i < indexes.len(),
    ensures
        offsets_bytes(indexes, w).subrange(8 * i, 8 * i + 8) == le_bytes(
            twos64(indexes[i] - (w + 16 + 8 * i)) as nat,
            8,
        ),
    decreases indexes.len(),
{
    let d = indexes.drop_last();
    let chunk = le_bytes(twos64(indexes.last() - (w + 16 + 8 * (indexes.len() - 1))) as nat, 8);
    lemma_offsets_bytes_len(d, w);
    lemma_le_bytes_len(twos64(indexes.last() - (w + 16 + 8 * (indexes.len() - 1))) as nat, 8);
    if i == indexes.len() - 1 {
        assert(offsets_bytes(indexes, w).subrange(8 * i, 8 * i + 8) =~= chunk);
    } else {
        lemma_offsets_at(d, w, i);
        assert(offsets_bytes(indexes, w).subrange(8 * i, 8 * i + 8) =~= offsets_bytes(
            d,
            w,
        ).subrange(8 * i, 8 * i + 8));
    }
}

/// Law: every index entry of a finalized trailer is independently
/// resolvable — the absolute file position of offset slot `i`, plus the
/// signed value the slot holds, is exactly the absolute offset at which
/// block `i`'s header record begins; the first eight payload bytes decode
/// to the starting number and the last eight to the block count.
pub proof fn lemma_trailer_resolves(start: u64, indexes: Seq<u64>, w: int, i: int)
    requires
        0 <= i < indexes.len(),
        0 <= w,
        w + 16 + 8 * indexes.len() as int <= i64::MAX,
        forall|j: int| 0 <= j < indexes.len() ==> (#[trigger] indexes[j]) <= w,
    ensures
        trailer_payload(start, indexes, w).len() == 16 + 8 * indexes.len() as int,
        le_decode(trailer_payload(start, indexes, w).subrange(0, 8)) == start,
        le_decode(
            trailer_payload(start, indexes, w).subrange(
                8 + 8 * indexes.len() as int,
                16 + 8 * indexes.len() as int,
            ),
        ) == indexes.len(),
        (w + 16 + 8 * i) + untwos64(
            (le_decode(trailer_payload(start, indexes, w).subrange(8 + 8 * i, 16 + 8 * i))) as u64,
        ) == indexes[i],
{
    let payload = trailer_payload(start, indexes, w);
    let start_b = le_bytes(start as nat, 8);
    let offs = offsets_bytes(indexes, w);
    let count_b = le_bytes(indexes.len(), 8);
    lemma_le_bytes_len(start as nat, 8);
    lemma_offsets_bytes_len(indexes, w);
    lemma_le_bytes_len(indexes.len(), 8);
    assert(pow256(8) == 0x1_0000_0000_0000_0000) by {
        reveal_with_fuel(pow256, 9);
    }
    assert(payload.subrange(0, payload.len() as int) =~= start_b + (offs + count_b));
    lemma_concat_split(payload, 0, start_b, offs + count_b);
    lemma_concat_split(payload, 8, offs, count_b);
    lemma_le_roundtrip(start as nat, 8);
    lemma_le_roundtrip(indexes.len(), 8);
    assert(payload.subrange(0, 8) == start_b);
    assert(payload.subrange(8 + 8 * indexes.len() as int, 16 + 8 * indexes.len() as int) =~= count_b);
    lemma_offsets_at(indexes, w, i);
    let rel = indexes[i] - (w + 16 + 8 * i);
    let chunk = le_bytes(twos64(rel) as nat, 8);
    assert(payload.subrange(8 + 8 * i, 16 + 8 * i) =~= offs.subrange(8 * i, 8 * i + 8)) by {
        assert(payload.subrange(8, 8 + 8 * indexes.len() as int) == offs);
        assert forall|k: int| 0 <= k < 8 implies #[trigger] offs[8 * i + k] == payload[8 + 8 * i + k] by {
            assert(payload.subrange(8, 8 + 8 * indexes.len() as int)[8 * i + k] == payload[8 + 8 * i
                + k]);
        }
    }
    lemma_le_roundtrip(twos64(rel) as nat, 8);
    assert(untwos64(twos64(rel)) == rel);
}

/// Law: reading record zero of an archive that a builder has produced
/// yields the Version marker with an empty payload.
pub proof fn lemma_archive_first_record(out: Seq<u8>)
    requires
        out.len() >= 8,
        out.subrange(0, 8) == version_bytes(),
    ensures
        parse_record(out, 0) == Ok::<_, EraError>(
            (E2StoreType::Version, 0 as nat, Seq::<u8>::empty(), 8int),
        ),
{
    lemma_record_enc_len(E2StoreType::Version, Seq::empty());
    lemma_record_round_trip(out, 0, E2StoreType::Version, Seq::empty());
}

/// Law: a block with number zero always contributes an empty transaction
/// list to its body record and an empty receipt list, even when its wire
/// form carries transactions.
pub proof fn lemma_genesis_block_empty_lists(b: VerifiableBlock)
    requires
        b.number == 0,
    ensures
        effective_txs(b) == Seq::<crate::wire::Transaction>::empty(),
        body_rlp_wire(b) == rlp_list(
            rlp_list(Seq::<u8>::empty()) + rlp_list(cat_headers_wire(b.uncles@)),
        ),
        receipts_rlp_wire(b) == rlp_list(Seq::<u8>::empty()),
{
}


/// Law: in a finalized archive — a prefix of block records opened by the
/// Version record, then the Accumulator record, then the BlockIndex
/// trailer — record zero reads back as the Version marker, the trailer
/// payload's first eight bytes decode to the starting number, its last
/// eight to the block count, and for each block the absolute position of
/// its offset slot plus the signed value stored there is exactly the
/// offset at which that block's header record begins.
pub proof fn lemma_finalized_archive_resolves(
    out: Seq<u8>,
    prefix: Seq<u8>,
    start: u64,
    indexes: Seq<u64>,
    acc: Seq<u8>,
    i: int,
)
    requires
        out == prefix + record_enc(E2StoreType::Accumulator, acc) + record_enc(
            E2StoreType::BlockIndex,
            trailer_payload(start, indexes, prefix.len() + 8 + acc.len() as int),
        ),
        prefix.len() >= 8,
        prefix.subrange(0, 8) == version_bytes(),
        acc.len() <= u32::MAX,
        16 + 8 * indexes.len() as int <= u32::MAX,
        prefix.len() + 8 + acc.len() + 16 + 8 * indexes.len() as int <= i64::MAX,
        forall|j: int| 0 <= j < indexes.len() ==> (#[trigger] indexes[j]) <= prefix.len(),
        0 <= i < indexes.len(),
    ensures
        parse_record(out, 0) == Ok::<_, EraError>(
            (E2StoreType::Version, 0 as nat, Seq::<u8>::empty(), 8int),
        ),
        ({
            let w = prefix.len() + 8 + acc.len();
            let payload = trailer_payload(start, indexes, w as int);
            &&& parse_record(out, w as int) == Ok::<_, EraError>(
                (E2StoreType::BlockIndex, 0 as nat, payload, out.len() as int),
            )
            &&& le_decode(payload.subrange(0, 8)) == start
            &&& le_decode(payload.subrange(8 + 8 * indexes.len() as int, 16 + 8
                * indexes.len() as int)) == indexes.len()
            &&& (w + 16 + 8 * i) + untwos64(
                (le_decode(payload.subrange(8 + 8 * i, 16 + 8 * i))) as u64,
            ) == indexes[i]
        }),
{
    let w = prefix.len() + 8 + acc.len();
    let acc_rec = record_enc(E2StoreType::Accumulator, acc);
    let payload = trailer_payload(start, indexes, w as int);
    let trailer_rec = record_enc(E2StoreType::BlockIndex, payload);
    lemma_record_enc_len(E2StoreType::Accumulator, acc);
    lemma_record_enc_len(E2StoreType::BlockIndex, payload);
    lemma_le_bytes_len(start as nat, 8);
    lemma_offsets_bytes_len(indexes, w as int);
    lemma_le_bytes_len(indexes.len(), 8);

    assert(out.subrange(0, 8) =~= prefix.subrange(0, 8));
    lemma_archive_first_record(out);

    assert(out.subrange(w as int, w as int + trailer_rec.len() as int) =~= trailer_rec);
    lemma_record_round_trip(out, w as int, E2StoreType::BlockIndex, payload);
    assert(out.len() == w + trailer_rec.len());

    lemma_trailer_resolves(start, indexes, w as int, i);
}

} // verus!
