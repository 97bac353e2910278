//! The outside crates that do the byte work: `crc32fast` for checksums and
//! `flate2` for DEFLATE streams. The checksum is stated here and the streams are
//! named; what the archive does with them is proved in `archive`.
use vstd::prelude::*;
use std::io::{Read, Write};

verus! {

/// One bit step of the reflected CRC-32 (IEEE) register, polynomial `0xEDB88320`.
pub open spec fn crc32_shift(c: u32) -> u32 {
    if c & 1u32 == 1u32 {
        (c >> 1u32) ^ 0xEDB8_8320u32
    } else {
        c >> 1u32
    }
}

/// The register after `n` bit steps.
pub open spec fn crc32_shifts(c: u32, n: nat) -> u32
    decreases n,
{
    if n == 0 {
        c
    } else {
        crc32_shifts(crc32_shift(c), (n - 1) as nat)
    }
}

/// The register after taking in the bytes of `data`, lowest bit first.
pub open spec fn crc32_register(c: u32, data: Seq<u8>) -> u32
    decreases data.len(),
{
    if data.len() == 0 {
        c
    } else {
        crc32_register(crc32_shifts(c ^ (data[0] as u32), 8), data.skip(1))
    }
}

/// The CRC-32 (IEEE) checksum of a byte sequence: the register starts with every bit
/// set, and the checksum is its complement after the last byte.
pub open spec fn spec_crc32(data: Seq<u8>) -> u32 {
    crc32_register(0xFFFF_FFFFu32, data) ^ 0xFFFF_FFFFu32
}

/// The DEFLATE stream that `flate2`'s encoder writes for `data` at the default level.
pub uninterp spec fn spec_deflate(data: Seq<u8>) -> Seq<u8>;

/// What `flate2`'s DEFLATE decoder reads out of `stream`, or `None` where it fails.
pub uninterp spec fn spec_inflate(stream: Seq<u8>) -> Option<Seq<u8>>;

/// Calls `crc32fast::hash`. The contract states that the result is the CRC-32 (IEEE)
/// checksum of the argument, which is what the crate computes (a reflected table
/// for the polynomial `0xEDB88320`, started from the complement of zero and
/// complemented at the end).
#[verifier::external_body]
pub(crate) fn crc32(data: &[u8]) -> (r: u32)
    ensures
        r == spec_crc32(data@),
{
    crc32fast::hash(data)
}

/// Compresses `data` with `flate2::write::DeflateEncoder` at the default level.
/// The contract states that it succeeds (the encoder writes into a `Vec`, which does
/// not fail, and a fresh encoder never reaches the stream states on which flate2's
/// writer reports an error), names the stream, and states that the decoder reads
/// `data` back out of it, which is what a lossless DEFLATE encoder promises.
#[verifier::external_body]
pub(crate) fn deflate(data: &[u8]) -> (r: Option<Vec<u8>>)
    ensures
        r is Some,
        r matches Some(v) ==> v@ == spec_deflate(data@) && spec_inflate(v@) == Some(data@),
{
    let mut encoder = flate2::write::DeflateEncoder::new(Vec::new(), flate2::Compression::default());
    match encoder.write_all(data) {
        Ok(()) => encoder.finish().ok(),
        Err(_) => None,
    }
}

/// Decompresses `stream` with `flate2::read::DeflateDecoder`, reading to its end.
/// The contract names the result: the decoded bytes, or `None` where decoding fails.
#[verifier::external_body]
pub(crate) fn inflate(stream: &[u8]) -> (r: Option<Vec<u8>>)
    ensures
        match r {
            Some(v) => spec_inflate(stream@) == Some(v@),
            None => spec_inflate(stream@) is None,
        },
{
    let mut decoder = flate2::read::DeflateDecoder::new(stream);
    let mut out = Vec::new();
    match decoder.read_to_end(&mut out) {
        Ok(_) => Some(out),
        Err(_) => None,
    }
}

} // verus!
