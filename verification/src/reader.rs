//! Reader-side helpers: decompressing the payload of a record according
//! to its type.

use vstd::prelude::*;

use crate::errors::EraError;
use crate::record::E2Store;
use crate::record::E2StoreType;
use crate::rlp::clone_bytes;
use crate::snap_utils::{snap_compress_of, snap_decode};

verus! {

/// Whether a record type carries a compressed payload.
pub open spec fn is_compressed_type(t: E2StoreType) -> bool {
    ||| t is CompressedHeader
    ||| t is CompressedBody
    ||| t is CompressedReceipts
}

/// Decompresses a record's payload when its type is a compressed one, and
/// hands the payload back unchanged otherwise. On a compressed record
/// that holds what the compressor produced, this returns the original
/// bytes.
pub fn decompress_store(store: &E2Store) -> (r: Result<Vec<u8>, EraError>)
    ensures
        is_compressed_type(store.type_) ==> forall|x: Seq<u8>|
            #![trigger snap_compress_of(x)]
            snap_compress_of(x) == store.data@ ==> r is Ok && r->Ok_0@ == x,
        !is_compressed_type(store.type_) ==> r is Ok && r->Ok_0@ == store.data@,
{
    match store.type_ {
        E2StoreType::CompressedHeader | E2StoreType::CompressedBody
            | E2StoreType::CompressedReceipts => snap_decode(store.data.as_slice()),
        _ => Ok(clone_bytes(&store.data)),
    }
}

} // verus!
