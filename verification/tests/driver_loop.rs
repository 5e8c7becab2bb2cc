//! The ingestion decisions: skipping malformed blocks, rejecting
//! reorganizations, and finalizing a full epoch.

use era1::builder::EraBuilder;
use era1::driver::{process_event, BlockResponse, DriverOutcome};
use era1::errors::{EraError, WireField};
use era1::record::{read_record, E2StoreType};
use era1::wire::{BigInt, BlockHeader, Timestamp, VerifiableBlock};

fn minimal_block(number: u64) -> VerifiableBlock {
    VerifiableBlock {
        number,
        header: Some(BlockHeader {
            parent_hash: vec![0x11; 32],
            uncle_hash: vec![0x22; 32],
            coinbase: vec![0x33; 20],
            state_root: vec![0x44; 32],
            transactions_root: vec![0x55; 32],
            receipt_root: vec![0x66; 32],
            logs_bloom: vec![0x00; 256],
            difficulty: Some(BigInt { bytes: vec![0x01] }),
            total_difficulty: Some(BigInt { bytes: vec![0x0f] }),
            number,
            gas_limit: 100,
            gas_used: 50,
            timestamp: Some(Timestamp { seconds: 12 }),
            extra_data: Vec::new(),
            mix_hash: vec![0x77; 32],
            nonce: 3,
            withdrawals_root: Vec::new(),
            base_fee_per_gas: None,
        }),
        transactions: Vec::new(),
        uncles: Vec::new(),
    }
}

#[test]
fn undo_events_are_a_hard_error() {
    let mut builder = EraBuilder::new(Vec::new());
    let values: Vec<String> = Vec::new();
    assert!(matches!(
        process_event(&mut builder, BlockResponse::Undo, &values),
        Err(EraError::UndoUnsupported)
    ));
    assert_eq!(builder.len(), 0);
}

#[test]
fn malformed_blocks_are_skipped_not_fatal() {
    let mut builder = EraBuilder::new(Vec::new());
    let values: Vec<String> = Vec::new();
    let mut bad = minimal_block(1);
    bad.header = None;
    match process_event(&mut builder, BlockResponse::New(bad), &values) {
        Ok(DriverOutcome::Skipped(e)) => {
            assert!(matches!(e, EraError::MissingRequiredField(_)));
        },
        other => panic!("expected a skipped block, got {:?}", other.is_ok()),
    }
    assert_eq!(builder.len(), 0);

    match process_event(&mut builder, BlockResponse::New(minimal_block(1)), &values) {
        Ok(DriverOutcome::Added) => {},
        _ => panic!("expected the block to be added"),
    }
    assert_eq!(builder.len(), 1);
}

#[test]
fn completed_epoch_is_finalized_and_builder_reset() {
    let mut builder = EraBuilder::new(Vec::new());
    let values = vec!["00".to_string(), "cafe".to_string()];
    let start = 8192u64;
    for n in start..start + 8191 {
        match process_event(&mut builder, BlockResponse::New(minimal_block(n)), &values) {
            Ok(DriverOutcome::Added) => {},
            _ => panic!("expected the block to be added"),
        }
    }
    let archive = match process_event(
        &mut builder,
        BlockResponse::New(minimal_block(start + 8191)),
        &values,
    ) {
        Ok(DriverOutcome::Finalized(bytes)) => bytes,
        _ => panic!("expected the epoch to finalize"),
    };
    assert_eq!(builder.len(), 0);
    assert_eq!(builder.starting_number(), None);
    assert!(builder.output().is_empty());

    // The finished archive opens with the Version record and closes with
    // the accumulator (the decoded hex value) and the block index.
    let (first, _) = read_record(&archive, 0).unwrap();
    assert!(matches!(first.type_, E2StoreType::Version));
    let mut pos = 0usize;
    let mut records = Vec::new();
    while pos < archive.len() {
        let (rec, next) = read_record(&archive, pos).unwrap();
        records.push(rec);
        pos = next;
    }
    assert_eq!(records.len(), 1 + 4 * 8192 + 2);
    let acc = &records[records.len() - 2];
    assert!(matches!(acc.type_, E2StoreType::Accumulator));
    assert_eq!(acc.data, vec![0xca, 0xfe]);
    let trailer = &records[records.len() - 1];
    assert!(matches!(trailer.type_, E2StoreType::BlockIndex));
    let starting = u64::from_le_bytes(trailer.data[0..8].try_into().unwrap());
    assert_eq!(starting, start);
    let count = u64::from_le_bytes(trailer.data[trailer.data.len() - 8..].try_into().unwrap());
    assert_eq!(count, 8192);
}

#[test]
fn missing_accumulator_entry_is_fatal() {
    let mut builder = EraBuilder::new(Vec::new());
    let values: Vec<String> = Vec::new();
    for n in 0..8191u64 {
        match process_event(&mut builder, BlockResponse::New(minimal_block(n)), &values) {
            Ok(DriverOutcome::Added) => {},
            _ => panic!("expected the block to be added"),
        }
    }
    assert!(matches!(
        process_event(&mut builder, BlockResponse::New(minimal_block(8191)), &values),
        Err(EraError::NoAccumulatorForEpoch)
    ));
    // The blocks stay accumulated; only finalization failed.
    assert_eq!(builder.len(), 8192);
}

#[test]
fn undecodable_accumulator_value_is_fatal() {
    let mut builder = EraBuilder::new(Vec::new());
    let values = vec!["not-hex".to_string()];
    for n in 0..8191u64 {
        process_event(&mut builder, BlockResponse::New(minimal_block(n)), &values).unwrap();
    }
    assert!(matches!(
        process_event(&mut builder, BlockResponse::New(minimal_block(8191)), &values),
        Err(EraError::MalformedWireField(WireField::AccumulatorValue))
    ));
}
