//! Generic wire-format representation of decoded blocks, as the streaming
//! collaborator delivers them: plain byte strings and integers, with
//! optional fields left optional.

use vstd::prelude::*;

verus! {

/// An arbitrary-precision integer carried as big-endian bytes.
pub struct BigInt {
    pub bytes: Vec<u8>,
}

/// A point in time, in seconds.
pub struct Timestamp {
    pub seconds: i64,
}

/// A log entry of a receipt.
pub struct Log {
    pub address: Vec<u8>,
    pub topics: Vec<Vec<u8>>,
    pub data: Vec<u8>,
}

/// A transaction receipt in wire form.
pub struct TransactionReceipt {
    pub state_root: Vec<u8>,
    pub cumulative_gas_used: u64,
    pub logs_bloom: Vec<u8>,
    pub logs: Vec<Log>,
}

/// One entry of an access list: an address and its storage keys.
pub struct AccessTuple {
    pub address: Vec<u8>,
    pub storage_keys: Vec<Vec<u8>>,
}

/// A transaction in wire form, with its receipt attached.
pub struct Transaction {
    pub to: Vec<u8>,
    pub nonce: u64,
    pub gas_price: Option<BigInt>,
    pub gas_limit: u64,
    pub value: Option<BigInt>,
    pub input: Vec<u8>,
    pub v: Vec<u8>,
    pub r: Vec<u8>,
    pub s: Vec<u8>,
    pub tx_type: i32,
    pub access_list: Vec<AccessTuple>,
    pub max_fee_per_gas: Option<BigInt>,
    pub max_priority_fee_per_gas: Option<BigInt>,
    pub hash: Vec<u8>,
    pub status: i32,
    pub receipt: Option<TransactionReceipt>,
}

/// A block header in wire form.
pub struct BlockHeader {
    pub parent_hash: Vec<u8>,
    pub uncle_hash: Vec<u8>,
    pub coinbase: Vec<u8>,
    pub state_root: Vec<u8>,
    pub transactions_root: Vec<u8>,
    pub receipt_root: Vec<u8>,
    pub logs_bloom: Vec<u8>,
    pub difficulty: Option<BigInt>,
    pub total_difficulty: Option<BigInt>,
    pub number: u64,
    pub gas_limit: u64,
    pub gas_used: u64,
    pub timestamp: Option<Timestamp>,
    pub extra_data: Vec<u8>,
    pub mix_hash: Vec<u8>,
    pub nonce: u64,
    pub withdrawals_root: Vec<u8>,
    pub base_fee_per_gas: Option<BigInt>,
}

/// A fully decoded block: header, transactions with receipts, uncles.
pub struct VerifiableBlock {
    pub number: u64,
    pub header: Option<BlockHeader>,
    pub transactions: Vec<Transaction>,
    pub uncles: Vec<BlockHeader>,
}

} // verus!
