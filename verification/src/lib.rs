//! Zarc: an archive format layered on the Zstandard container.
//!
//! An archive is a plain sequence of Zstd frames: a fixed 12-byte header
//! (a skippable frame), zero or more content frames holding file bytes,
//! one directory frame whose uncompressed payload is a stream of element
//! records (editions, files, frames), and a trailing skippable frame that
//! locates the directory and carries its digest.
//!
//! This crate is the format engine: the framing codec, the element and
//! trailer codecs, and the encoder and decoder state machines, all of them
//! specified and verified down to the bytes. Compression, hashing and
//! constant-time comparison are delegated to outside libraries through a
//! small set of trusted wrappers.

pub mod cbor;
pub mod decode;
pub mod directory;
pub mod encode;
pub mod strings;
pub mod timestamps;
pub mod trailer;
pub mod error;
pub mod framing;
pub mod integrity;
pub mod legacy;
pub mod ondemand;
pub mod order;
pub mod wire;
pub mod zstd;

use vstd::prelude::*;

verus! {

/// First byte of the archive magic (`0x65 0xAA 0xDC`).
pub const ZARC_MAGIC_0: u8 = 0x65;

/// Second byte of the archive magic.
pub const ZARC_MAGIC_1: u8 = 0xAA;

/// Third byte of the archive magic.
pub const ZARC_MAGIC_2: u8 = 0xDC;

/// Zarc format version.
pub const ZARC_VERSION: u8 = 1;

/// The three magic bytes as a sequence, for contracts.
pub open spec fn zarc_magic() -> Seq<u8> {
    seq![0x65u8, 0xAAu8, 0xDCu8]
}

/// The fixed 12-byte file magic: a Zstd skippable frame (nibble 0) whose
/// 4-byte payload is the Zarc magic and version.
pub open spec fn file_magic() -> Seq<u8> {
    seq![0x50u8, 0x2Au8, 0x4Du8, 0x18u8, 0x04u8, 0x00u8, 0x00u8, 0x00u8, 0x65u8, 0xAAu8, 0xDCu8,
        0x01u8]
}

/// Build the 12-byte file magic.
pub fn file_magic_bytes() -> (r: Vec<u8>)
    ensures
        r@ == file_magic(),
{
    let mut v: Vec<u8> = Vec::new();
    v.push(0x50);
    v.push(0x2A);
    v.push(0x4D);
    v.push(0x18);
    v.push(0x04);
    v.push(0x00);
    v.push(0x00);
    v.push(0x00);
    v.push(0x65);
    v.push(0xAA);
    v.push(0xDC);
    v.push(0x01);
    proof {
        assert(v@ =~= file_magic());
    }
    v
}

} // verus!
