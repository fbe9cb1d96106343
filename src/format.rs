//! Detection of the compression wrapper of NBT data, and decoding.
//!
//! NBT data arrives raw, zlib-wrapped or gzip-wrapped. The wrapper is told
//! apart by the first two bytes; the data is then inflated by `flate2` where
//! it is compressed, its structure is checked, and the document is parsed by
//! the `nbt` crate.

use crate::shape::{check_nbt_shape, nbt_shape_ok};
use std::io::Read;
use vstd::prelude::*;

verus! {

#[verifier::external_type_specification]
#[verifier::external_body]
pub struct ExBlob(nbt::Blob);

#[verifier::external_type_specification]
#[verifier::external_body]
pub struct ExNbtError(nbt::Error);

#[verifier::external_type_specification]
#[verifier::external_body]
pub struct ExIoError(std::io::Error);

/// Whether `bytes` parse as an uncompressed NBT document.
pub uninterp spec fn parses_as_raw_nbt(bytes: Seq<u8>) -> bool;

/// The bytes that the gzip member `bytes` inflates to, if it is one.
pub uninterp spec fn gzip_inflated(bytes: Seq<u8>) -> Option<Seq<u8>>;

/// The bytes that the zlib stream `bytes` inflates to, if it is one.
pub uninterp spec fn zlib_inflated(bytes: Seq<u8>) -> Option<Seq<u8>>;

/// Relies on `nbt::Blob::from_reader` over a byte slice: whether it parses
/// depends on the bytes alone. The parser turns signed lengths into sizes
/// unchecked and recurses once per nesting level, so it is only handed data
/// whose lengths and nesting have been checked.
#[verifier::external_body]
fn read_raw(bytes: &[u8]) -> (r: Result<nbt::Blob, nbt::Error>)
    requires
        nbt_shape_ok(bytes@),
    ensures
        r is Ok == parses_as_raw_nbt(bytes@),
{
    let mut src = bytes;
    nbt::Blob::from_reader(&mut src)
}

/// Relies on `flate2::read::GzDecoder` read to its end over a byte slice:
/// the inflated bytes, or an error, depend on the input alone.
#[verifier::external_body]
fn gunzip(bytes: &[u8]) -> (r: Result<Vec<u8>, std::io::Error>)
    ensures
        match r {
            Ok(v) => gzip_inflated(bytes@) == Some(v@),
            Err(_) => gzip_inflated(bytes@) is None,
        },
{
    let mut out = Vec::new();
    match flate2::read::GzDecoder::new(bytes).read_to_end(&mut out) {
        Ok(_) => Ok(out),
        Err(e) => Err(e),
    }
}

/// Relies on `flate2::read::ZlibDecoder` read to its end over a byte slice:
/// the inflated bytes, or an error, depend on the input alone.
#[verifier::external_body]
fn zlib_inflate(bytes: &[u8]) -> (r: Result<Vec<u8>, std::io::Error>)
    ensures
        match r {
            Ok(v) => zlib_inflated(bytes@) == Some(v@),
            Err(_) => zlib_inflated(bytes@) is None,
        },
{
    let mut out = Vec::new();
    match flate2::read::ZlibDecoder::new(bytes).read_to_end(&mut out) {
        Ok(_) => Ok(out),
        Err(e) => Err(e),
    }
}

/// The wrapper around NBT data.
#[derive(Debug, Clone, Copy, PartialEq, Eq, Structural)]
pub enum Compression {
    Raw,
    Zlib,
    Gzip,
}

/// The wrapper that the leading bytes announce: `1F 8B` is gzip; `78 01`,
/// `78 9C` and `78 DA` are zlib; anything else, shorter input included, is
/// raw NBT.
pub open spec fn compression_of(bytes: Seq<u8>) -> Compression {
    if bytes.len() >= 2 && bytes[0] == 0x1Fu8 && bytes[1] == 0x8Bu8 {
        Compression::Gzip
    } else if bytes.len() >= 2 && bytes[0] == 0x78u8 && (bytes[1] == 0x01u8 || bytes[1] == 0x9Cu8
        || bytes[1] == 0xDAu8) {
        Compression::Zlib
    } else {
        Compression::Raw
    }
}

/// The uncompressed NBT data inside `bytes` when read through the wrapper
/// `compression`, if it can be inflated.
pub open spec fn unwrapped(compression: Compression, bytes: Seq<u8>) -> Option<Seq<u8>> {
    match compression {
        Compression::Raw => Some(bytes),
        Compression::Zlib => zlib_inflated(bytes),
        Compression::Gzip => gzip_inflated(bytes),
    }
}

/// Whether uncompressed data is a well-formed NBT document.
pub open spec fn decodes_raw(bytes: Seq<u8>) -> bool {
    nbt_shape_ok(bytes) && parses_as_raw_nbt(bytes)
}

/// Whether `bytes`, read through the wrapper `compression`, hold an NBT document.
pub open spec fn parses_as(compression: Compression, bytes: Seq<u8>) -> bool {
    match unwrapped(compression, bytes) {
        Some(data) => decodes_raw(data),
        None => false,
    }
}

/// Why NBT data could not be decoded.
#[derive(Debug, Clone, Copy, PartialEq, Eq, Structural)]
pub enum FormatError {
    /// The data, read through this wrapper, is no well-formed NBT document.
    Malformed { compression: Compression },
}

/// Tells the wrapper from the first two bytes.
pub fn detect_compression(bytes: &[u8]) -> (r: Compression)
    ensures
        r == compression_of(bytes@),
{
    if bytes.len() >= 2 && bytes[0] == 0x1Fu8 && bytes[1] == 0x8Bu8 {
        Compression::Gzip
    } else if bytes.len() >= 2 && bytes[0] == 0x78u8 && (bytes[1] == 0x01u8 || bytes[1] == 0x9Cu8
        || bytes[1] == 0xDAu8) {
        Compression::Zlib
    } else {
        Compression::Raw
    }
}

/// Decodes uncompressed NBT data. Data that is truncated, holds a negative
/// length, a tag of unknown type or nesting deeper than the limit is refused
/// before it reaches the parser.
pub fn read_uncompressed(bytes: &[u8]) -> (r: Result<nbt::Blob, FormatError>)
    ensures
        r is Ok == decodes_raw(bytes@),
        r matches Err(e) ==> e == (FormatError::Malformed { compression: Compression::Raw }),
{
    if !check_nbt_shape(bytes) {
        return Err(FormatError::Malformed { compression: Compression::Raw });
    }
    match read_raw(bytes) {
        Ok(blob) => Ok(blob),
        Err(_) => Err(FormatError::Malformed { compression: Compression::Raw }),
    }
}

/// Decodes `bytes` as NBT data read through the wrapper `compression`: the
/// data is inflated first where it is compressed, then decoded as
/// uncompressed data.
pub fn read_nbt(compression: Compression, bytes: &[u8]) -> (r: Result<nbt::Blob, FormatError>)
    ensures
        r is Ok == parses_as(compression, bytes@),
        r matches Err(e) ==> e == (FormatError::Malformed { compression }),
{
    let decoded = match compression {
        Compression::Raw => read_uncompressed(bytes),
        Compression::Zlib => match zlib_inflate(bytes) {
            Ok(data) => read_uncompressed(data.as_slice()),
            Err(_) => Err(FormatError::Malformed { compression }),
        },
        Compression::Gzip => match gunzip(bytes) {
            Ok(data) => read_uncompressed(data.as_slice()),
            Err(_) => Err(FormatError::Malformed { compression }),
        },
    };
    match decoded {
        Ok(blob) => Ok(blob),
        Err(_) => Err(FormatError::Malformed { compression }),
    }
}

/// Detects the wrapper of `bytes` and decodes the NBT document inside. The
/// data is read through the wrapper that its leading bytes announce, and
/// through no other.
pub fn detect_and_read_nbt(bytes: &[u8]) -> (r: Result<nbt::Blob, FormatError>)
    ensures
        r is Ok == parses_as(compression_of(bytes@), bytes@),
        r matches Err(e) ==> e == (FormatError::Malformed { compression: compression_of(bytes@) }),
{
    let compression = detect_compression(bytes);
    read_nbt(compression, bytes)
}

} // verus!
