//! Compression adapter: the streaming Snappy frame format, used as a
//! black-box byte transform.

use vstd::prelude::*;

use crate::errors::EraError;

verus! {

/// The compressed frame that the streaming compressor produces for a given
/// byte sequence. The frame layout belongs to the outside crate, so the
/// result is named rather than spelled out; it depends on the input bytes
/// alone.
pub uninterp spec fn snap_compress_of(data: Seq<u8>) -> Seq<u8>;

/// Relies on snap's `write::FrameEncoder`: compression of a block never
/// fails, writing into a `Vec` sink cannot fail, and the frame produced is
/// a function of the input bytes alone.
#[verifier::external_body]
pub fn snap_encode(decoded_data: &[u8]) -> (r: Result<Vec<u8>, EraError>)
    ensures
        r is Ok,
        r->Ok_0@ == snap_compress_of(decoded_data@),
{
    let mut encoder = snap::write::FrameEncoder::new(Vec::new());
    if std::io::Write::write_all(&mut encoder, decoded_data).is_err() {
        return Err(EraError::CorruptFrame);
    }
    match encoder.into_inner() {
        Ok(v) => Ok(v),
        Err(_) => Err(EraError::CorruptFrame),
    }
}

/// Relies on snap's `read::FrameDecoder`: decompressing a frame that the
/// encoder produced yields the original bytes back; any other input may be
/// rejected as corrupt.
#[verifier::external_body]
pub fn snap_decode(encoded_data: &[u8]) -> (r: Result<Vec<u8>, EraError>)
    ensures
        forall|x: Seq<u8>|
            #![trigger snap_compress_of(x)]
            snap_compress_of(x) == encoded_data@ ==> r is Ok && r->Ok_0@ == x,
{
    let mut decoded_data = Vec::new();
    let mut decoder = snap::read::FrameDecoder::new(encoded_data);
    match std::io::Read::read_to_end(&mut decoder, &mut decoded_data) {
        Ok(_) => Ok(decoded_data),
        Err(_) => Err(EraError::CorruptFrame),
    }
}

/// Law: decompressing what was compressed yields the input back, for every
/// byte sequence.
pub fn snap_round_trip(data: &[u8]) -> (r: Vec<u8>)
    ensures
        r@ == data@,
{
    match snap_encode(data) {
        Ok(compressed) => {
            match snap_decode(compressed.as_slice()) {
                Ok(decoded) => decoded,
                Err(_) => {
                    proof {
                        assert(false);
                    }
                    Vec::new()
                },
            }
        },
        Err(_) => {
            proof {
                assert(false);
            }
            Vec::new()
        },
    }
}

} // verus!
