//! Error kinds of the archive encoder.

use vstd::prelude::*;

verus! {

/// A wire field whose bytes do not have the shape the mapping requires
/// (wrong fixed length, or a numeric value out of range).
#[derive(Clone, Copy, Debug, PartialEq, Eq, Structural)]
pub enum WireField {
    ParentHash,
    UncleHash,
    Coinbase,
    StateRoot,
    TransactionsRoot,
    ReceiptRoot,
    LogsBloom,
    MixHash,
    WithdrawalsRoot,
    BaseFeePerGas,
    GasPrice,
    Value,
    MaxFeePerGas,
    MaxPriorityFeePerGas,
    To,
    SignatureR,
    SignatureS,
    TransactionHash,
    AccessListAddress,
    StorageKey,
    LogAddress,
    LogTopic,
    AccumulatorValue,
}

/// A field that the wire form may omit but the archive cannot do without.
#[derive(Clone, Copy, Debug, PartialEq, Eq, Structural)]
pub enum RequiredField {
    Header,
    Difficulty,
    Timestamp,
    TotalDifficulty,
    Receipt,
}

/// Everything that can go wrong while mapping, encoding, or reading back
/// archive data.
#[derive(Clone, Copy, Debug, PartialEq, Eq, Structural)]
pub enum EraError {
    /// A fixed-length or numeric wire field has the wrong shape.
    MalformedWireField(WireField),
    /// A required header, timestamp, difficulty or receipt is absent.
    MissingRequiredField(RequiredField),
    /// The signature recovery byte is outside the protocol-era values.
    InvalidSignatureParity,
    /// A receipt bloom filter is not exactly 256 bytes long.
    InvalidBloom,
    /// A transaction type code outside the known variants.
    UnsupportedTransactionType,
    /// A record tag outside the known enumeration, on the reader side.
    UnknownRecordType,
    /// The stream ended before a whole record could be read.
    TruncatedRecord,
    /// Decompression failed on malformed input.
    CorruptFrame,
    /// A chain-reorganization event, which this encoder does not support.
    UndoUnsupported,
    /// No accumulator value is known for the epoch being finalized.
    NoAccumulatorForEpoch,
    /// A record payload longer than its 32-bit length field can carry.
    OversizedRecord,
    /// An archive so large that the signed relative offsets of the block
    /// index can no longer be represented.
    OversizedArchive,
}

} // verus!
