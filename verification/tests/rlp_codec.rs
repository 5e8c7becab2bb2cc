//! Minimal-integer and RLP item encoding, and the binary record codec.

use era1::errors::EraError;
use era1::record::{decode_le, encode_le, read_record, E2Store, E2StoreType};
use era1::rlp::{encode_number, encode_number_u128, rlp_append_str, rlp_wrap_list, trim_left};

#[test]
fn minimal_int_zero_is_empty() {
    assert_eq!(encode_number(0), Vec::<u8>::new());
    assert_eq!(encode_number_u128(0), Vec::<u8>::new());
}

#[test]
fn minimal_int_small_values() {
    assert_eq!(encode_number(1), vec![1]);
    assert_eq!(encode_number(127), vec![0x7f]);
    assert_eq!(encode_number(128), vec![0x80]);
    assert_eq!(encode_number(255), vec![0xff]);
    assert_eq!(encode_number(256), vec![1, 0]);
    assert_eq!(encode_number(0xdead_beef), vec![0xde, 0xad, 0xbe, 0xef]);
}

#[test]
fn minimal_int_has_no_leading_zero() {
    for n in [1u64, 255, 256, 65535, 65536, u64::MAX] {
        let b = encode_number(n);
        assert!(!b.is_empty());
        assert_ne!(b[0], 0);
    }
}

#[test]
fn minimal_int_round_trips() {
    for n in [0u64, 1, 7, 255, 256, 4096, 0xdead_beef, u64::MAX] {
        let b = encode_number(n);
        let mut back: u64 = 0;
        for byte in &b {
            back = back * 256 + *byte as u64;
        }
        assert_eq!(back, n);
    }
}

#[test]
fn trim_left_strips_leading_zeros() {
    assert_eq!(trim_left(&[0, 0, 1, 0, 2]), &[1, 0, 2]);
    assert_eq!(trim_left(&[5, 0]), &[5, 0]);
    assert_eq!(trim_left(&[0, 0, 0]), &[] as &[u8]);
    assert_eq!(trim_left(&[]), &[] as &[u8]);
}

#[test]
fn rlp_string_items() {
    let mut out = Vec::new();
    rlp_append_str(&mut out, b"dog");
    assert_eq!(out, vec![0x83, b'd', b'o', b'g']);

    let mut single = Vec::new();
    rlp_append_str(&mut single, &[0x7f]);
    assert_eq!(single, vec![0x7f]);

    let mut high = Vec::new();
    rlp_append_str(&mut high, &[0x80]);
    assert_eq!(high, vec![0x81, 0x80]);

    let mut empty = Vec::new();
    rlp_append_str(&mut empty, &[]);
    assert_eq!(empty, vec![0x80]);
}

#[test]
fn rlp_long_string_prefix() {
    let data = vec![7u8; 56];
    let mut out = Vec::new();
    rlp_append_str(&mut out, &data);
    assert_eq!(out[0], 0xb8);
    assert_eq!(out[1], 56);
    assert_eq!(&out[2..], &data[..]);
}

#[test]
fn rlp_lists() {
    let empty = rlp_wrap_list(Vec::new());
    assert_eq!(empty, vec![0xc0]);

    let mut payload = Vec::new();
    rlp_append_str(&mut payload, b"cat");
    rlp_append_str(&mut payload, b"dog");
    let list = rlp_wrap_list(payload);
    assert_eq!(
        list,
        vec![0xc8, 0x83, b'c', b'a', b't', 0x83, b'd', b'o', b'g']
    );

    let long = rlp_wrap_list(vec![1u8; 56]);
    assert_eq!(long[0], 0xf8);
    assert_eq!(long[1], 56);
}

#[test]
fn little_endian_codec() {
    assert_eq!(encode_le(0x3265, 2), vec![0x65, 0x32]);
    assert_eq!(encode_le(7, 4), vec![7, 0, 0, 0]);
    let data = vec![0x65, 0x32, 9, 0];
    assert_eq!(decode_le(&data, 0, 2), 0x3265);
    assert_eq!(decode_le(&data, 2, 2), 9);
}

#[test]
fn record_serialization_is_exact() {
    let rec = E2Store {
        type_: E2StoreType::TotalDifficulty,
        length: 3,
        reserved: 0,
        data: vec![0xaa, 0xbb, 0xcc],
    };
    assert_eq!(
        rec.into_bytes(),
        vec![0x06, 0x00, 0x03, 0x00, 0x00, 0x00, 0x00, 0x00, 0xaa, 0xbb, 0xcc]
    );
}

#[test]
fn version_record_tag_is_little_endian() {
    let rec = E2Store {
        type_: E2StoreType::Version,
        length: 0,
        reserved: 0,
        data: Vec::new(),
    };
    assert_eq!(rec.into_bytes(), vec![0x65, 0x32, 0, 0, 0, 0, 0, 0]);
}

#[test]
fn record_round_trip() {
    let rec = E2Store {
        type_: E2StoreType::Accumulator,
        length: 2,
        reserved: 0,
        data: vec![1, 2],
    };
    let bytes = rec.into_bytes();
    let (back, next) = read_record(&bytes, 0).unwrap();
    assert!(matches!(back.type_, E2StoreType::Accumulator));
    assert_eq!(back.length, 2);
    assert_eq!(back.reserved, 0);
    assert_eq!(back.data, vec![1, 2]);
    assert_eq!(next, bytes.len());
}

#[test]
fn unknown_record_type_is_rejected() {
    let bytes = vec![0x99, 0x00, 0, 0, 0, 0, 0, 0];
    assert!(matches!(read_record(&bytes, 0), Err(EraError::UnknownRecordType)));
}

#[test]
fn truncated_record_is_rejected() {
    let short = vec![0x06, 0x00, 0x05];
    assert!(matches!(read_record(&short, 0), Err(EraError::TruncatedRecord)));
    let missing_payload = vec![0x06, 0x00, 0x05, 0, 0, 0, 0, 0, 1, 2];
    assert!(matches!(read_record(&missing_payload, 0), Err(EraError::TruncatedRecord)));
}
