//! Precisely-typed domain objects that the canonical encoder works on: the
//! domain mapper checks every fixed-length field before building them.

use vstd::prelude::*;

verus! {

/// A canonical block header: every hash and address field a strict
/// fixed-length copy, optional fields resolved.
pub struct Header {
    pub parent_hash: Vec<u8>,
    pub ommers_hash: Vec<u8>,
    pub beneficiary: Vec<u8>,
    pub state_root: Vec<u8>,
    pub transactions_root: Vec<u8>,
    pub receipts_root: Vec<u8>,
    pub withdrawals_root: Option<Vec<u8>>,
    pub logs_bloom: Vec<u8>,
    pub difficulty: Vec<u8>,
    pub number: u64,
    pub gas_limit: u64,
    pub gas_used: u64,
    pub timestamp: u64,
    pub extra_data: Vec<u8>,
    pub mix_hash: Vec<u8>,
    pub nonce: u64,
    pub base_fee_per_gas: Option<u64>,
}

impl Header {
    /// Fixed-length fields have their exact length: 32 bytes for hashes,
    /// 20 for the beneficiary address, 256 for the logs bloom.
    pub open spec fn wf(self) -> bool {
        &&& self.parent_hash@.len() == 32
        &&& self.ommers_hash@.len() == 32
        &&& self.beneficiary@.len() == 20
        &&& self.state_root@.len() == 32
        &&& self.transactions_root@.len() == 32
        &&& self.receipts_root@.len() == 32
        &&& (self.withdrawals_root matches Some(w) ==> w@.len() == 32)
        &&& self.logs_bloom@.len() == 256
        &&& self.mix_hash@.len() == 32
    }
}

/// The destination of a transaction: a call to an address, or contract
/// creation.
pub enum TransactionKind {
    Create,
    Call(Vec<u8>),
}

impl TransactionKind {
    pub open spec fn wf(self) -> bool {
        self matches TransactionKind::Call(a) ==> a@.len() == 20
    }
}

/// One access-list entry: a 20-byte address and 32-byte storage keys.
pub struct AccessListItem {
    pub address: Vec<u8>,
    pub storage_keys: Vec<Vec<u8>>,
}

impl AccessListItem {
    pub open spec fn wf(self) -> bool {
        &&& self.address@.len() == 20
        &&& forall|i: int| 0 <= i < self.storage_keys@.len()
            ==> (#[trigger] self.storage_keys@[i])@.len() == 32
    }
}

/// The recovered signature of a transaction: the raw recovery bytes as
/// supplied on the wire, the 32-byte `r` and `s` values, and the parity
/// bit derived from the recovery byte by protocol-era rules.
pub struct Signature {
    pub v: Vec<u8>,
    pub r: Vec<u8>,
    pub s: Vec<u8>,
    pub odd_y_parity: bool,
}

impl Signature {
    pub open spec fn wf(self) -> bool {
        &&& self.r@.len() == 32
        &&& self.s@.len() == 32
    }
}

/// The three canonical transaction shapes: legacy, access-list and
/// fee-market. Only the legacy shape may lack a chain id (when its
/// recovery value predates replay protection).
#[allow(inconsistent_fields)]
pub enum TypedTransaction {
    Legacy {
        chain_id: Option<u64>,
        nonce: u64,
        gas_price: u128,
        gas_limit: u64,
        to: TransactionKind,
        value: u128,
        input: Vec<u8>,
    },
    Eip2930 {
        chain_id: u64,
        nonce: u64,
        gas_price: u128,
        gas_limit: u64,
        to: TransactionKind,
        value: u128,
        access_list: Vec<AccessListItem>,
        input: Vec<u8>,
    },
    Eip1559 {
        chain_id: u64,
        nonce: u64,
        gas_limit: u64,
        max_fee_per_gas: u128,
        max_priority_fee_per_gas: u128,
        to: TransactionKind,
        value: u128,
        access_list: Vec<AccessListItem>,
        input: Vec<u8>,
    },
}

/// A canonical transaction with its recovered signature and hash; the
/// signature's raw fields are what the encoder writes, the hash only
/// identifies the transaction.
pub struct TransactionSigned {
    pub transaction: TypedTransaction,
    pub signature: Signature,
    pub hash: Vec<u8>,
}

/// The post-fork receipt shape: success flag, transaction type,
/// cumulative gas, logs.
pub struct Receipt {
    pub success: bool,
    pub tx_type: u8,
    pub cumulative_gas_used: u64,
    pub logs: Vec<Log>,
}

/// A canonical log entry: 20-byte address, 32-byte topics, data.
pub struct Log {
    pub address: Vec<u8>,
    pub topics: Vec<Vec<u8>>,
    pub data: Vec<u8>,
}

impl Log {
    pub open spec fn wf(self) -> bool {
        &&& self.address@.len() == 20
        &&& forall|i: int| 0 <= i < self.topics@.len()
            ==> (#[trigger] self.topics@[i])@.len() == 32
    }
}

/// A post-fork receipt bundled with its 256-byte bloom filter.
pub struct ReceiptWithBloom {
    pub receipt: Receipt,
    pub bloom: Vec<u8>,
}

impl ReceiptWithBloom {
    pub open spec fn wf(self) -> bool {
        self.bloom@.len() == 256
    }
}

/// A canonical block body: transactions and uncles as full headers.
pub struct BlockBody {
    pub transactions: Vec<TransactionSigned>,
    pub ommers: Vec<Header>,
}

} // verus!
