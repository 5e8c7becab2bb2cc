//! Field-level mapping: fixed-length checks, signature parity, type
//! dispatch and defaults.

use era1::builder::EraBuilder;
use era1::canonical::TypedTransaction;
use era1::errors::{EraError, WireField};
use era1::mapper::{
    bigint_u128, get_y_parity, map_header, map_log, map_receipt, map_success, map_transaction,
    map_tx_type,
};
use era1::wire::{BigInt, BlockHeader, Log, Timestamp, Transaction, TransactionReceipt, VerifiableBlock};

fn wire_header() -> BlockHeader {
    BlockHeader {
        parent_hash: vec![0x11; 32],
        uncle_hash: vec![0x22; 32],
        coinbase: vec![0x33; 20],
        state_root: vec![0x44; 32],
        transactions_root: vec![0x55; 32],
        receipt_root: vec![0x66; 32],
        logs_bloom: vec![0x00; 256],
        difficulty: Some(BigInt { bytes: vec![0x01] }),
        total_difficulty: Some(BigInt { bytes: vec![0x0f] }),
        number: 7,
        gas_limit: 100,
        gas_used: 50,
        timestamp: Some(Timestamp { seconds: 12 }),
        extra_data: Vec::new(),
        mix_hash: vec![0x77; 32],
        nonce: 3,
        withdrawals_root: Vec::new(),
        base_fee_per_gas: None,
    }
}

fn wire_tx() -> Transaction {
    Transaction {
        to: vec![0xaa; 20],
        nonce: 1,
        gas_price: Some(BigInt { bytes: vec![0x05] }),
        gas_limit: 21_000,
        value: None,
        input: Vec::new(),
        v: vec![27],
        r: vec![0x01; 32],
        s: vec![0x02; 32],
        tx_type: 0,
        access_list: Vec::new(),
        max_fee_per_gas: None,
        max_priority_fee_per_gas: None,
        hash: vec![0xbb; 32],
        status: 1,
        receipt: Some(TransactionReceipt {
            state_root: vec![0x99; 32],
            cumulative_gas_used: 21_000,
            logs_bloom: vec![0x00; 256],
            logs: Vec::new(),
        }),
    }
}

#[test]
fn fixed_length_header_fields_are_checked() {
    let mut h = wire_header();
    h.parent_hash = vec![0x11; 31];
    assert_eq!(
        map_header(&h).err().unwrap(),
        EraError::MalformedWireField(WireField::ParentHash)
    );

    let mut h = wire_header();
    h.coinbase = vec![0x33; 21];
    assert_eq!(
        map_header(&h).err().unwrap(),
        EraError::MalformedWireField(WireField::Coinbase)
    );

    let mut h = wire_header();
    h.logs_bloom = vec![0x00; 255];
    assert_eq!(
        map_header(&h).err().unwrap(),
        EraError::MalformedWireField(WireField::LogsBloom)
    );

    let mut h = wire_header();
    h.withdrawals_root = vec![0x01; 16];
    assert_eq!(
        map_header(&h).err().unwrap(),
        EraError::MalformedWireField(WireField::WithdrawalsRoot)
    );

    assert!(map_header(&wire_header()).is_ok());
}

#[test]
fn optional_header_fields_resolve_to_absent() {
    // An empty withdrawals root and an empty base fee mean absent, not
    // malformed.
    let mut h = wire_header();
    h.base_fee_per_gas = Some(BigInt { bytes: Vec::new() });
    let mapped = map_header(&h).unwrap();
    assert!(mapped.base_fee_per_gas.is_none());
    assert!(mapped.withdrawals_root.is_none());

    let mut h = wire_header();
    h.base_fee_per_gas = Some(BigInt { bytes: vec![0x03, 0xe8] });
    assert_eq!(map_header(&h).unwrap().base_fee_per_gas, Some(1000));

    let mut h = wire_header();
    h.base_fee_per_gas = Some(BigInt { bytes: vec![0x01; 9] });
    assert_eq!(
        map_header(&h).err().unwrap(),
        EraError::MalformedWireField(WireField::BaseFeePerGas)
    );
}

#[test]
fn signature_parity_follows_protocol_era_rules() {
    for (v, parity) in [
        (vec![0u8], false),
        (vec![1u8], true),
        (vec![27u8], false),
        (vec![28u8], true),
        (vec![37u8], false),
        (vec![38u8], true),
        (Vec::new(), false), // empty defaults to the byte zero
    ] {
        let mut t = wire_tx();
        t.v = v;
        assert_eq!(get_y_parity(&t).unwrap(), parity);
    }
    for bad in [2u8, 26, 29, 36, 39, 99, 255] {
        let mut t = wire_tx();
        t.v = vec![bad];
        assert_eq!(get_y_parity(&t), Err(EraError::InvalidSignatureParity));
    }
}

#[test]
fn transaction_type_dispatch() {
    assert_eq!(map_tx_type(&0).unwrap(), 0);
    assert_eq!(map_tx_type(&1).unwrap(), 1);
    assert_eq!(map_tx_type(&2).unwrap(), 2);
    assert_eq!(map_tx_type(&3), Err(EraError::UnsupportedTransactionType));
    assert_eq!(map_tx_type(&-1), Err(EraError::UnsupportedTransactionType));

    let mut t = wire_tx();
    t.tx_type = 5;
    assert_eq!(map_transaction(&t).err().unwrap(), EraError::UnsupportedTransactionType);
}

#[test]
fn transaction_fixed_length_fields_are_checked() {
    let mut t = wire_tx();
    t.r = vec![0x01; 31];
    assert_eq!(
        map_transaction(&t).err().unwrap(),
        EraError::MalformedWireField(WireField::SignatureR)
    );

    let mut t = wire_tx();
    t.s = vec![0x02; 33];
    assert_eq!(
        map_transaction(&t).err().unwrap(),
        EraError::MalformedWireField(WireField::SignatureS)
    );

    let mut t = wire_tx();
    t.to = vec![0xaa; 19];
    assert_eq!(
        map_transaction(&t).err().unwrap(),
        EraError::MalformedWireField(WireField::To)
    );

    let mut t = wire_tx();
    t.hash = vec![0xbb; 16];
    assert_eq!(
        map_transaction(&t).err().unwrap(),
        EraError::MalformedWireField(WireField::TransactionHash)
    );

    // An empty destination is contract creation, not an error.
    let mut t = wire_tx();
    t.to = Vec::new();
    assert!(map_transaction(&t).is_ok());
}

#[test]
fn oversized_numeric_fields_are_malformed() {
    assert_eq!(bigint_u128(&vec![0xff; 16], WireField::GasPrice).unwrap(), u128::MAX);
    assert_eq!(
        bigint_u128(&vec![0x01; 17], WireField::GasPrice),
        Err(EraError::MalformedWireField(WireField::GasPrice))
    );

    let mut t = wire_tx();
    t.gas_price = Some(BigInt { bytes: vec![0x01; 17] });
    assert_eq!(
        map_transaction(&t).err().unwrap(),
        EraError::MalformedWireField(WireField::GasPrice)
    );

    // Missing numeric fields default to zero rather than failing.
    let mut t = wire_tx();
    t.gas_price = None;
    t.value = None;
    assert!(map_transaction(&t).is_ok());
}

#[test]
fn receipt_mapping_checks_bloom_and_logs() {
    assert!(map_success(&1));
    assert!(!map_success(&0));
    assert!(!map_success(&2));

    let mut t = wire_tx();
    t.receipt.as_mut().unwrap().logs_bloom = vec![0x00; 255];
    assert_eq!(map_receipt(&t).err().unwrap(), EraError::InvalidBloom);

    let mut t = wire_tx();
    t.receipt = None;
    assert!(matches!(
        map_receipt(&t).err().unwrap(),
        EraError::MissingRequiredField(_)
    ));

    let mut t = wire_tx();
    t.receipt.as_mut().unwrap().logs = vec![Log {
        address: vec![0xee; 19],
        topics: Vec::new(),
        data: Vec::new(),
    }];
    assert_eq!(
        map_receipt(&t).err().unwrap(),
        EraError::MalformedWireField(WireField::LogAddress)
    );

    let bad_topic = Log {
        address: vec![0xee; 20],
        topics: vec![vec![0xf0; 31]],
        data: Vec::new(),
    };
    assert_eq!(
        map_log(&bad_topic).err().unwrap(),
        EraError::MalformedWireField(WireField::LogTopic)
    );

    let rb = map_receipt(&wire_tx()).unwrap();
    assert!(rb.receipt.success);
    assert_eq!(rb.receipt.tx_type, 0);
    assert_eq!(rb.receipt.cumulative_gas_used, 21_000);
}

#[test]
fn access_list_entries_are_checked() {
    let mut t = wire_tx();
    t.tx_type = 1;
    t.access_list = vec![era1::wire::AccessTuple {
        address: vec![0xcc; 19],
        storage_keys: Vec::new(),
    }];
    assert_eq!(
        map_transaction(&t).err().unwrap(),
        EraError::MalformedWireField(WireField::AccessListAddress)
    );

    let mut t = wire_tx();
    t.tx_type = 1;
    t.access_list = vec![era1::wire::AccessTuple {
        address: vec![0xcc; 20],
        storage_keys: vec![vec![0xdd; 31]],
    }];
    assert_eq!(
        map_transaction(&t).err().unwrap(),
        EraError::MalformedWireField(WireField::StorageKey)
    );
}

#[test]
fn one_bad_transaction_fails_the_block_only() {
    // One malformed transaction among good ones fails the enclosing add
    // as a whole; the builder commits nothing for that block.
    let mut builder = EraBuilder::new(Vec::new());
    let good = wire_tx();
    let mut bad = wire_tx();
    bad.v = vec![99];
    let block = VerifiableBlock {
        number: 10,
        header: Some(wire_header()),
        transactions: vec![good, bad],
        uncles: Vec::new(),
    };
    assert_eq!(builder.add(&block), Err(EraError::InvalidSignatureParity));
    assert_eq!(builder.len(), 0);
    assert!(builder.output().is_empty());
}

#[test]
fn uncle_headers_are_checked_like_headers() {
    let mut builder = EraBuilder::new(Vec::new());
    let mut uncle = wire_header();
    uncle.state_root = vec![0x44; 30];
    let block = VerifiableBlock {
        number: 10,
        header: Some(wire_header()),
        transactions: Vec::new(),
        uncles: vec![uncle],
    };
    assert_eq!(
        builder.add(&block),
        Err(EraError::MalformedWireField(WireField::StateRoot))
    );
}

#[test]
fn timestamp_is_taken_as_unsigned_seconds() {
    let mut h = wire_header();
    h.timestamp = Some(Timestamp { seconds: 1_438_269_988 });
    assert_eq!(map_header(&h).unwrap().timestamp, 1_438_269_988);

    // A negative wire value wraps to its two's-complement image.
    let mut h = wire_header();
    h.timestamp = Some(Timestamp { seconds: -1 });
    assert_eq!(map_header(&h).unwrap().timestamp, u64::MAX);
}

#[test]
fn mapped_header_copies_wire_fields() {
    let h = wire_header();
    let mapped = map_header(&h).unwrap();
    assert_eq!(mapped.parent_hash, vec![0x11; 32]);
    assert_eq!(mapped.beneficiary, vec![0x33; 20]);
    assert_eq!(mapped.difficulty, vec![0x01]);
    assert_eq!(mapped.number, 7);
    assert_eq!(mapped.nonce, 3);
}

#[test]
fn legacy_chain_id_follows_recovery_byte() {
    // Recovery values 27/28 predate replay protection and carry no chain
    // id; every other accepted value records chain one.
    for (v, expect_none) in [
        (vec![27u8], true),
        (vec![28u8], true),
        (vec![0u8], false),
        (vec![1u8], false),
        (vec![37u8], false),
        (vec![38u8], false),
        (Vec::new(), false),
    ] {
        let mut t = wire_tx();
        t.v = v;
        let ts = map_transaction(&t).unwrap();
        match ts.transaction {
            TypedTransaction::Legacy { chain_id, .. } => {
                if expect_none {
                    assert!(chain_id.is_none());
                } else {
                    assert_eq!(chain_id, Some(1));
                }
            },
            _ => panic!("expected a legacy transaction"),
        }
    }
}
