//! End-to-end archive construction: record layout, the block index
//! trailer, genesis and hard-fork behavior, and rebuild idempotence.

use era1::builder::EraBuilder;
use era1::driver::build_archive;
use era1::encoder::encode_bigint;
use era1::errors::{EraError, RequiredField};
use era1::reader::decompress_store;
use era1::record::{read_record, E2Store, E2StoreType};
use era1::wire::{
    AccessTuple, BigInt, BlockHeader, Log, Timestamp, Transaction, TransactionReceipt,
    VerifiableBlock,
};

fn minimal_header(number: u64) -> BlockHeader {
    BlockHeader {
        parent_hash: vec![0x11; 32],
        uncle_hash: vec![0x22; 32],
        coinbase: vec![0x33; 20],
        state_root: vec![0x44; 32],
        transactions_root: vec![0x55; 32],
        receipt_root: vec![0x66; 32],
        logs_bloom: vec![0x00; 256],
        difficulty: Some(BigInt { bytes: vec![0x01] }),
        total_difficulty: Some(BigInt { bytes: vec![0x0f] }),
        number,
        gas_limit: 8_000_000,
        gas_used: 21_000,
        timestamp: Some(Timestamp { seconds: 1_438_269_988 }),
        extra_data: Vec::new(),
        mix_hash: vec![0x77; 32],
        nonce: 0x0102030405060708,
        withdrawals_root: Vec::new(),
        base_fee_per_gas: None,
    }
}

fn minimal_block(number: u64) -> VerifiableBlock {
    VerifiableBlock {
        number,
        header: Some(minimal_header(number)),
        transactions: Vec::new(),
        uncles: Vec::new(),
    }
}

fn minimal_receipt() -> TransactionReceipt {
    TransactionReceipt {
        state_root: vec![0x99; 32],
        cumulative_gas_used: 21_000,
        logs_bloom: vec![0x00; 256],
        logs: Vec::new(),
    }
}

fn legacy_tx(v: Vec<u8>, receipt: Option<TransactionReceipt>) -> Transaction {
    Transaction {
        to: vec![0xaa; 20],
        nonce: 1,
        gas_price: Some(BigInt { bytes: vec![0x05] }),
        gas_limit: 21_000,
        value: None,
        input: Vec::new(),
        v,
        r: vec![0x01; 32],
        s: vec![0x02; 32],
        tx_type: 0,
        access_list: Vec::new(),
        max_fee_per_gas: None,
        max_priority_fee_per_gas: None,
        hash: vec![0xbb; 32],
        status: 1,
        receipt,
    }
}

fn block_with_tx(number: u64, tx: Transaction) -> VerifiableBlock {
    VerifiableBlock {
        number,
        header: Some(minimal_header(number)),
        transactions: vec![tx],
        uncles: Vec::new(),
    }
}

fn read_all_records(data: &[u8]) -> Vec<(E2Store, usize)> {
    let mut records = Vec::new();
    let mut pos = 0usize;
    while pos < data.len() {
        let start = pos;
        let (rec, next) = read_record(data, pos).unwrap();
        records.push((rec, start));
        pos = next;
    }
    records
}

// Independent RLP oracle for expected bytes.
fn rlp_str_oracle(b: &[u8]) -> Vec<u8> {
    if b.len() == 1 && b[0] < 0x80 {
        return b.to_vec();
    }
    let mut out = rlp_len_oracle(0x80, b.len());
    out.extend_from_slice(b);
    out
}

fn rlp_list_oracle(payload: &[u8]) -> Vec<u8> {
    let mut out = rlp_len_oracle(0xc0, payload.len());
    out.extend_from_slice(payload);
    out
}

fn rlp_len_oracle(base: u8, n: usize) -> Vec<u8> {
    if n <= 55 {
        vec![base + n as u8]
    } else {
        let mut len_bytes = Vec::new();
        let mut m = n;
        while m > 0 {
            len_bytes.insert(0, (m % 256) as u8);
            m /= 256;
        }
        let mut out = vec![base + 55 + len_bytes.len() as u8];
        out.extend_from_slice(&len_bytes);
        out
    }
}

#[test]
fn three_block_archive_has_fifteen_records() {
    let mut builder = EraBuilder::new(Vec::new());
    for n in 100..103u64 {
        builder.add(&minimal_block(n)).unwrap();
    }
    assert_eq!(builder.len(), 3);
    assert_eq!(builder.starting_number(), Some(100));
    builder.finalize(vec![0xce; 32]).unwrap();

    let archive = builder.output().clone();
    let records = read_all_records(&archive);
    assert_eq!(records.len(), 15);
    assert!(matches!(records[0].0.type_, E2StoreType::Version));
    for b in 0..3 {
        assert!(matches!(records[1 + 4 * b].0.type_, E2StoreType::CompressedHeader));
        assert!(matches!(records[2 + 4 * b].0.type_, E2StoreType::CompressedBody));
        assert!(matches!(records[3 + 4 * b].0.type_, E2StoreType::CompressedReceipts));
        assert!(matches!(records[4 + 4 * b].0.type_, E2StoreType::TotalDifficulty));
    }
    assert!(matches!(records[13].0.type_, E2StoreType::Accumulator));
    assert_eq!(records[13].0.data, vec![0xce; 32]);
    assert!(matches!(records[14].0.type_, E2StoreType::BlockIndex));

    let trailer = &records[14].0.data;
    assert_eq!(trailer.len(), 16 + 8 * 3);
    let starting = u64::from_le_bytes(trailer[0..8].try_into().unwrap());
    assert_eq!(starting, 100);
    let count = u64::from_le_bytes(trailer[trailer.len() - 8..].try_into().unwrap());
    assert_eq!(count, 3);
}

#[test]
fn block_index_offsets_resolve_each_header_record() {
    let mut builder = EraBuilder::new(Vec::new());
    for n in 100..103u64 {
        builder.add(&minimal_block(n)).unwrap();
    }
    builder.finalize(vec![0xce; 32]).unwrap();
    let archive = builder.output().clone();
    let records = read_all_records(&archive);
    let trailer_start = records[14].1 as i64;
    let trailer = &records[14].0.data;
    for i in 0..3usize {
        let slot_position = trailer_start + 16 + 8 * i as i64;
        let offset =
            i64::from_le_bytes(trailer[8 + 8 * i..16 + 8 * i].try_into().unwrap());
        let target = (slot_position + offset) as usize;
        // The slot resolves to the absolute offset of block i's header record.
        assert_eq!(target, records[1 + 4 * i].1);
        let (rec, _) = read_record(&archive, target).unwrap();
        assert!(matches!(rec.type_, E2StoreType::CompressedHeader));
    }
}

#[test]
fn header_record_holds_canonical_header_encoding() {
    let mut builder = EraBuilder::new(Vec::new());
    builder.add(&minimal_block(100)).unwrap();
    let archive = builder.output().clone();
    let records = read_all_records(&archive);
    let header_bytes = decompress_store(&records[1].0).unwrap();

    let mut payload = Vec::new();
    payload.extend_from_slice(&rlp_str_oracle(&[0x11; 32]));
    payload.extend_from_slice(&rlp_str_oracle(&[0x22; 32]));
    payload.extend_from_slice(&rlp_str_oracle(&[0x33; 20]));
    payload.extend_from_slice(&rlp_str_oracle(&[0x44; 32]));
    payload.extend_from_slice(&rlp_str_oracle(&[0x55; 32]));
    payload.extend_from_slice(&rlp_str_oracle(&[0x66; 32]));
    payload.extend_from_slice(&rlp_str_oracle(&[0x00; 256]));
    payload.extend_from_slice(&rlp_str_oracle(&[0x01]));
    payload.extend_from_slice(&rlp_str_oracle(&[100]));
    payload.extend_from_slice(&rlp_str_oracle(&8_000_000u64.to_be_bytes()[5..]));
    payload.extend_from_slice(&rlp_str_oracle(&21_000u64.to_be_bytes()[6..]));
    payload.extend_from_slice(&rlp_str_oracle(&1_438_269_988u64.to_be_bytes()[4..]));
    payload.extend_from_slice(&rlp_str_oracle(&[]));
    payload.extend_from_slice(&rlp_str_oracle(&[0x77; 32]));
    payload.extend_from_slice(&rlp_str_oracle(&0x0102030405060708u64.to_be_bytes()));
    let expected = rlp_list_oracle(&payload);
    assert_eq!(header_bytes, expected);

    // Body of a block without transactions or uncles: two empty lists.
    let body_bytes = decompress_store(&records[2].0).unwrap();
    assert_eq!(body_bytes, vec![0xc2, 0xc0, 0xc0]);

    // Total difficulty: a 32-byte big-endian value, zero-padded on the
    // left.
    let mut td = vec![0u8; 31];
    td.push(0x0f);
    assert_eq!(records[4].0.data, td);
}

#[test]
fn encode_bigint_pads_big_endian() {
    let out = encode_bigint(BigInt { bytes: vec![1, 2, 3] });
    let mut expected = vec![0u8; 29];
    expected.extend_from_slice(&[1, 2, 3]);
    assert_eq!(out, expected);
    assert_eq!(encode_bigint(BigInt { bytes: Vec::new() }), vec![0u8; 32]);
}

#[test]
fn rebuilding_after_reset_is_byte_identical() {
    let mut builder = EraBuilder::new(Vec::new());
    for n in 100..103u64 {
        builder.add(&minimal_block(n)).unwrap();
    }
    builder.finalize(vec![0xce; 32]).unwrap();
    let first = builder.output().clone();

    builder.reset(Vec::new());
    assert_eq!(builder.len(), 0);
    assert_eq!(builder.starting_number(), None);
    for n in 100..103u64 {
        builder.add(&minimal_block(n)).unwrap();
    }
    builder.finalize(vec![0xce; 32]).unwrap();
    assert_eq!(*builder.output(), first);

    let blocks: Vec<VerifiableBlock> = (100..103u64).map(minimal_block).collect();
    let via_run = build_archive(&blocks, &vec![0xce; 32]).unwrap();
    assert_eq!(via_run, first);
}

#[test]
fn genesis_block_encodes_empty_transaction_list() {
    // A genesis block carrying transactions on the wire.
    let with_txs = block_with_tx(0, legacy_tx(vec![27], Some(minimal_receipt())));
    let without_txs = minimal_block(0);

    let a = build_archive(&vec![with_txs], &vec![0xce; 32]).unwrap();
    let b = build_archive(&vec![without_txs], &vec![0xce; 32]).unwrap();
    assert_eq!(a, b);

    let records = read_all_records(&a);
    let body = decompress_store(&records[2].0).unwrap();
    assert_eq!(body, vec![0xc2, 0xc0, 0xc0]);
    let receipts = decompress_store(&records[3].0).unwrap();
    assert_eq!(receipts, vec![0xc0]);
}

#[test]
fn receipt_shape_changes_at_hard_fork_boundary() {
    let pre = block_with_tx(4_369_999, legacy_tx(vec![27], Some(minimal_receipt())));
    let post = block_with_tx(4_370_000, legacy_tx(vec![27], Some(minimal_receipt())));

    let pre_archive = build_archive(&vec![pre], &vec![0xce; 32]).unwrap();
    let post_archive = build_archive(&vec![post], &vec![0xce; 32]).unwrap();

    let pre_receipts = decompress_store(&read_all_records(&pre_archive)[3].0).unwrap();
    let post_receipts = decompress_store(&read_all_records(&post_archive)[3].0).unwrap();

    // Pre-fork: {state root, cumulative gas, bloom, logs}.
    let mut pre_item = Vec::new();
    pre_item.extend_from_slice(&rlp_str_oracle(&[0x99; 32]));
    pre_item.extend_from_slice(&rlp_str_oracle(&[0x52, 0x08]));
    pre_item.extend_from_slice(&rlp_str_oracle(&[0x00; 256]));
    pre_item.extend_from_slice(&rlp_list_oracle(&[]));
    let expected_pre = rlp_list_oracle(&rlp_list_oracle(&pre_item));
    assert_eq!(pre_receipts, expected_pre);

    // Post-fork: {success, cumulative gas, bloom, logs}.
    let mut post_item = Vec::new();
    post_item.extend_from_slice(&rlp_str_oracle(&[0x01]));
    post_item.extend_from_slice(&rlp_str_oracle(&[0x52, 0x08]));
    post_item.extend_from_slice(&rlp_str_oracle(&[0x00; 256]));
    post_item.extend_from_slice(&rlp_list_oracle(&[]));
    let expected_post = rlp_list_oracle(&rlp_list_oracle(&post_item));
    assert_eq!(post_receipts, expected_post);

    assert_ne!(pre_receipts, post_receipts);
}

#[test]
fn failed_v_byte_is_invalid_signature_parity() {
    let mut builder = EraBuilder::new(Vec::new());
    builder.add(&minimal_block(100)).unwrap();
    let before = builder.output().clone();

    let bad = block_with_tx(101, legacy_tx(vec![99], Some(minimal_receipt())));
    assert_eq!(builder.add(&bad), Err(EraError::InvalidSignatureParity));

    // Nothing was written for the failed block, and the earlier block's
    // state is intact.
    assert_eq!(*builder.output(), before);
    assert_eq!(builder.len(), 1);

    builder.add(&minimal_block(102)).unwrap();
    builder.finalize(vec![0xce; 32]).unwrap();
    let records = read_all_records(&builder.output().clone());
    assert_eq!(records.len(), 11);
    let trailer = &records[10].0.data;
    let count = u64::from_le_bytes(trailer[trailer.len() - 8..].try_into().unwrap());
    assert_eq!(count, 2);
}

#[test]
fn typed_transactions_carry_type_prefix() {
    // An access-list transaction: the body embeds 0x01 before the list.
    let mut tx = legacy_tx(vec![1], Some(minimal_receipt()));
    tx.tx_type = 1;
    tx.access_list = vec![AccessTuple {
        address: vec![0xcc; 20],
        storage_keys: vec![vec![0xdd; 32]],
    }];
    let block = block_with_tx(4_370_000, tx);
    let archive = build_archive(&vec![block], &vec![0xce; 32]).unwrap();
    let records = read_all_records(&archive);
    let body = decompress_store(&records[2].0).unwrap();

    // The transaction list payload starts with the type byte.
    let mut item = Vec::new();
    item.extend_from_slice(&rlp_str_oracle(&[0x01])); // chain id
    item.extend_from_slice(&rlp_str_oracle(&[0x01])); // nonce
    item.extend_from_slice(&rlp_str_oracle(&[0x05])); // gas price
    item.extend_from_slice(&rlp_str_oracle(&[0x52, 0x08])); // gas limit
    item.extend_from_slice(&rlp_str_oracle(&[0xaa; 20])); // to
    item.extend_from_slice(&rlp_str_oracle(&[])); // value 0
    item.extend_from_slice(&rlp_str_oracle(&[])); // input
    let mut access_item = Vec::new();
    access_item.extend_from_slice(&rlp_str_oracle(&[0xcc; 20]));
    access_item.extend_from_slice(&rlp_list_oracle(&rlp_str_oracle(&[0xdd; 32])));
    let access_payload = rlp_list_oracle(&access_item);
    item.extend_from_slice(&rlp_list_oracle(&access_payload));
    item.extend_from_slice(&rlp_str_oracle(&[0x01])); // trimmed v
    item.extend_from_slice(&rlp_str_oracle(&[0x01; 32])); // trimmed r
    item.extend_from_slice(&rlp_str_oracle(&[0x02; 32])); // trimmed s
    let mut tx_encoding = vec![0x01];
    tx_encoding.extend_from_slice(&rlp_list_oracle(&item));

    let mut body_payload = rlp_list_oracle(&tx_encoding);
    body_payload.extend_from_slice(&rlp_list_oracle(&[]));
    let expected_body = rlp_list_oracle(&body_payload);
    assert_eq!(body, expected_body);

    // The receipts record carries the type byte too.
    let receipts = decompress_store(&records[3].0).unwrap();
    let mut receipt_item = Vec::new();
    receipt_item.extend_from_slice(&rlp_str_oracle(&[0x01]));
    receipt_item.extend_from_slice(&rlp_str_oracle(&[0x52, 0x08]));
    receipt_item.extend_from_slice(&rlp_str_oracle(&[0x00; 256]));
    receipt_item.extend_from_slice(&rlp_list_oracle(&[]));
    let mut receipt_encoding = vec![0x01];
    receipt_encoding.extend_from_slice(&rlp_list_oracle(&receipt_item));
    let expected_receipts = rlp_list_oracle(&receipt_encoding);
    assert_eq!(receipts, expected_receipts);
}

#[test]
fn log_entries_are_encoded_in_receipts() {
    let mut receipt = minimal_receipt();
    receipt.logs = vec![Log {
        address: vec![0xee; 20],
        topics: vec![vec![0xf0; 32], vec![0xf1; 32]],
        data: vec![0xde, 0xad],
    }];
    let block = block_with_tx(4_370_000, legacy_tx(vec![0], Some(receipt)));
    let archive = build_archive(&vec![block], &vec![0xce; 32]).unwrap();
    let receipts = decompress_store(&read_all_records(&archive)[3].0).unwrap();

    let mut log_item = Vec::new();
    log_item.extend_from_slice(&rlp_str_oracle(&[0xee; 20]));
    let mut topics = Vec::new();
    topics.extend_from_slice(&rlp_str_oracle(&[0xf0; 32]));
    topics.extend_from_slice(&rlp_str_oracle(&[0xf1; 32]));
    log_item.extend_from_slice(&rlp_list_oracle(&topics));
    log_item.extend_from_slice(&rlp_str_oracle(&[0xde, 0xad]));
    let log_encoding = rlp_list_oracle(&log_item);

    let mut receipt_item = Vec::new();
    receipt_item.extend_from_slice(&rlp_str_oracle(&[0x01]));
    receipt_item.extend_from_slice(&rlp_str_oracle(&[0x52, 0x08]));
    receipt_item.extend_from_slice(&rlp_str_oracle(&[0x00; 256]));
    receipt_item.extend_from_slice(&rlp_list_oracle(&log_encoding));
    let expected = rlp_list_oracle(&rlp_list_oracle(&receipt_item));
    assert_eq!(receipts, expected);
}

#[test]
fn missing_fields_fail_the_whole_add() {
    let mut builder = EraBuilder::new(Vec::new());

    let mut no_header = minimal_block(5);
    no_header.header = None;
    assert_eq!(
        builder.add(&no_header),
        Err(EraError::MissingRequiredField(RequiredField::Header))
    );

    let mut no_difficulty = minimal_block(5);
    no_difficulty.header.as_mut().unwrap().difficulty = None;
    assert_eq!(
        builder.add(&no_difficulty),
        Err(EraError::MissingRequiredField(RequiredField::Difficulty))
    );

    let mut no_timestamp = minimal_block(5);
    no_timestamp.header.as_mut().unwrap().timestamp = None;
    assert_eq!(
        builder.add(&no_timestamp),
        Err(EraError::MissingRequiredField(RequiredField::Timestamp))
    );

    let mut no_td = minimal_block(5);
    no_td.header.as_mut().unwrap().total_difficulty = None;
    assert_eq!(
        builder.add(&no_td),
        Err(EraError::MissingRequiredField(RequiredField::TotalDifficulty))
    );

    // A pre-fork block whose transaction has no receipt.
    let no_receipt = block_with_tx(5, legacy_tx(vec![27], None));
    assert_eq!(
        builder.add(&no_receipt),
        Err(EraError::MissingRequiredField(RequiredField::Receipt))
    );

    // Nothing was committed by any failed call.
    assert_eq!(builder.len(), 0);
    assert!(builder.output().is_empty());
}
