//! The compression adapter and the accumulator value decoding.

use era1::accumulator::{get_epoch, get_value_for_block, hex_decode, EPOCH_SIZE};
use era1::errors::{EraError, WireField};
use era1::reader::decompress_store;
use era1::record::{E2Store, E2StoreType};
use era1::snap_utils::{snap_decode, snap_encode, snap_round_trip};

#[test]
fn compress_then_decompress_is_identity() {
    for data in [
        Vec::new(),
        vec![0u8],
        vec![1, 2, 3, 4, 5],
        vec![0x55; 100_000],
        (0..=255u8).cycle().take(70_000).collect::<Vec<u8>>(),
    ] {
        assert_eq!(snap_round_trip(&data), data);
        let compressed = snap_encode(&data).unwrap();
        assert_eq!(snap_decode(&compressed).unwrap(), data);
    }
}

#[test]
fn compression_transforms_its_input() {
    let data = vec![9u8, 8, 7];
    let compressed = snap_encode(&data).unwrap();
    assert_ne!(compressed, data);
}

#[test]
fn corrupt_frame_is_rejected() {
    // A chunk type outside the frame format's reserved ranges.
    let garbage = vec![0x40u8, 1, 0, 0, 0xde, 0xad, 0xbe, 0xef, 0x00];
    assert_eq!(snap_decode(&garbage), Err(EraError::CorruptFrame));
}

#[test]
fn decompress_store_inflates_compressed_records() {
    let payload = b"era archive payload".to_vec();
    let compressed = snap_encode(&payload).unwrap();
    let rec = E2Store {
        type_: E2StoreType::CompressedBody,
        length: compressed.len() as u32,
        reserved: 0,
        data: compressed,
    };
    assert_eq!(decompress_store(&rec).unwrap(), payload);
}

#[test]
fn decompress_store_passes_raw_records_through() {
    let rec = E2Store {
        type_: E2StoreType::TotalDifficulty,
        length: 3,
        reserved: 0,
        data: vec![1, 2, 3],
    };
    assert_eq!(decompress_store(&rec).unwrap(), vec![1, 2, 3]);
}

#[test]
fn epoch_arithmetic() {
    assert_eq!(EPOCH_SIZE, 8192);
    assert_eq!(get_epoch(0), 0);
    assert_eq!(get_epoch(8191), 0);
    assert_eq!(get_epoch(8192), 1);
    assert_eq!(get_epoch(3 * 8192 + 17), 3);
}

#[test]
fn accumulator_lookup_by_epoch() {
    let values = vec!["aa".to_string(), "bb".to_string()];
    assert_eq!(get_value_for_block(&values, 0).unwrap(), "aa");
    assert_eq!(get_value_for_block(&values, 8191).unwrap(), "aa");
    assert_eq!(get_value_for_block(&values, 8192).unwrap(), "bb");
    assert!(get_value_for_block(&values, 2 * 8192).is_none());
}

#[test]
fn hex_decoding() {
    assert_eq!(hex_decode("0a0B").unwrap(), vec![0x0a, 0x0b]);
    assert_eq!(hex_decode("").unwrap(), Vec::<u8>::new());
    assert_eq!(
        hex_decode("0g"),
        Err(EraError::MalformedWireField(WireField::AccumulatorValue))
    );
    assert_eq!(
        hex_decode("abc"),
        Err(EraError::MalformedWireField(WireField::AccumulatorValue))
    );
}
