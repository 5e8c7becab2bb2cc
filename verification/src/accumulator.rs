//! Accumulator lookup: a flat ordered list of hex-encoded commitment
//! values, one per epoch index, addressed by block number.

use vstd::prelude::*;

use crate::errors::{EraError, WireField};

verus! {

/// The fixed number of consecutive blocks an archive covers.
pub const EPOCH_SIZE: u64 = 8192;

/// The epoch a block number belongs to.
pub fn get_epoch(block_number: u64) -> (r: u64)
    ensures
        r == block_number / EPOCH_SIZE,
{
    block_number / EPOCH_SIZE
}

/// Looks up the commitment value for the epoch of a block number; absent
/// when the list has no entry for that epoch.
pub fn get_value_for_block<'a>(data: &'a Vec<String>, block_number: u64) -> (r: Option<&'a String>)
    ensures
        match r {
            Some(v) => block_number / EPOCH_SIZE < data@.len() && v@ == data@[(block_number
                / EPOCH_SIZE) as int]@,
            None => block_number / EPOCH_SIZE >= data@.len(),
        },
{
    let epoch = get_epoch(block_number);
    if epoch < data.len() as u64 {
        Some(&data[epoch as usize])
    } else {
        None
    }
}

/// The value of a hexadecimal digit, or a negative number for any other
/// character.
pub open spec fn hex_digit_val(c: char) -> int {
    if '0' <= c && c <= '9' {
        c as int - '0' as int
    } else if 'a' <= c && c <= 'f' {
        10 + c as int - 'a' as int
    } else if 'A' <= c && c <= 'F' {
        10 + c as int - 'A' as int
    } else {
        -1
    }
}

pub open spec fn is_hex_digit(c: char) -> bool {
    hex_digit_val(c) >= 0
}

/// A decodable hex string: even length, hexadecimal digits throughout.
pub open spec fn valid_hex(s: Seq<char>) -> bool {
    s.len() % 2 == 0 && forall|i: int| 0 <= i < s.len() ==> is_hex_digit(s[i])
}

/// The bytes a hex string denotes: one byte for each digit pair.
pub open spec fn hex_bytes(s: Seq<char>) -> Seq<u8> {
    Seq::new(s.len() / 2, |i: int| (16 * hex_digit_val(s[2 * i]) + hex_digit_val(s[2 * i + 1])) as u8)
}

/// Relies on hex::decode: pairs of hexadecimal digits, upper or lower
/// case, decode to one byte each; an odd length or any other character is
/// rejected.
#[verifier::external_body]
pub fn hex_decode(s: &str) -> (r: Result<Vec<u8>, EraError>)
    ensures
        r is Ok <==> valid_hex(s@),
        r is Ok ==> r->Ok_0@ == hex_bytes(s@),
        r is Err ==> r->Err_0 == EraError::MalformedWireField(WireField::AccumulatorValue),
{
    match hex::decode(s) {
        Ok(v) => Ok(v),
        Err(_) => Err(EraError::MalformedWireField(WireField::AccumulatorValue)),
    }
}

} // verus!
