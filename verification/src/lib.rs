//! Verified encoder for era1 block archives.
//!
//! An archive packs, per block, a compressed canonical header, compressed
//! body, compressed receipts and the cumulative total difficulty, followed
//! by an accumulator commitment and a random-access block index trailer.

pub mod accumulator;
pub mod builder;
pub mod canonical;
pub mod driver;
pub mod encoder;
pub mod errors;
pub mod mapper;
pub mod reader;
pub mod record;
pub mod rlp;
pub mod snap_utils;
pub mod wire;
