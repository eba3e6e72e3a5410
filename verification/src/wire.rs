//! Wire payload helpers: decompression of block payloads.
//!
//! Compressed payloads are inflated through `zstd` and, where text is
//! expected, decoded as UTF-8; both steps are trusted to the outside
//! crates and named, so callers' contracts compose exactly.

use vstd::prelude::*;

verus! {

/// Errors turning wire bytes into usable payloads.
#[derive(Clone, Copy, Debug, PartialEq, Eq, Structural)]
pub enum DeserializeError {
    InvalidData,
    InvalidText,
    InvalidPayload,
}

/// What `zstd` inflates a frame to: `None` where the bytes are not a
/// well-formed frame. A pure function of the input bytes.
pub uninterp spec fn zstd_inflate(data: Seq<u8>) -> Option<Seq<u8>>;

/// Relies on `zstd::decode_all`: decompression succeeds or fails
/// depending on the input bytes alone.
#[verifier::external_body]
pub fn decompress_bytes(compressed_data: &[u8]) -> (r: Result<Vec<u8>, DeserializeError>)
    ensures
        match r {
            Ok(v) => zstd_inflate(compressed_data@) == Some(v@),
            Err(e) => zstd_inflate(compressed_data@) is None && e
                == DeserializeError::InvalidData,
        },
{
    match zstd::stream::decode_all(compressed_data) {
        Ok(v) => Ok(v),
        Err(_) => Err(DeserializeError::InvalidData),
    }
}

/// What UTF-8 decoding yields for a byte sequence: `None` where the
/// bytes are not valid UTF-8. A pure function of the input bytes.
pub uninterp spec fn utf8_chars(data: Seq<u8>) -> Option<Seq<char>>;

/// Relies on `String::from_utf8`: decoding succeeds or fails depending
/// on the input bytes alone.
#[verifier::external_body]
pub(crate) fn string_from_utf8(v: Vec<u8>) -> (r: Result<String, DeserializeError>)
    ensures
        match r {
            Ok(s) => utf8_chars(v@) == Some(s@),
            Err(e) => utf8_chars(v@) is None && e == DeserializeError::InvalidText,
        },
{
    match String::from_utf8(v) {
        Ok(s) => Ok(s),
        Err(_) => Err(DeserializeError::InvalidText),
    }
}

/// Inflate a compressed payload and decode it as UTF-8 text. Succeeds
/// exactly when the bytes form a well-formed frame whose content is
/// valid UTF-8.
pub fn decompress_to_string(compressed_data: &[u8]) -> (r: Result<String, DeserializeError>)
    ensures
        match r {
            Ok(s) => zstd_inflate(compressed_data@) matches Some(bytes) && utf8_chars(bytes)
                == Some(s@),
            Err(DeserializeError::InvalidData) => zstd_inflate(compressed_data@) is None,
            Err(DeserializeError::InvalidText) => zstd_inflate(compressed_data@) matches Some(
                bytes,
            ) && utf8_chars(bytes) is None,
            Err(DeserializeError::InvalidPayload) => false,
        },
{
    let bytes = match decompress_bytes(compressed_data) {
        Ok(v) => v,
        Err(e) => {
            return Err(e);
        },
    };
    string_from_utf8(bytes)
}

/// Decode an edit from its wire bytes. Succeeds exactly where the
/// payload grammar does, returning the edit the grammar denotes; see
/// [`crate::codec`] for the schema.
pub fn deserialize(buf: &[u8]) -> (r: Result<crate::edit::Edit, DeserializeError>)
    requires
        buf@.len() < 0x10000000000000,
    ensures
        match r {
            Ok(e) => crate::codec::sp_edit(buf@) == Some(crate::codec::edit_view(e)),
            Err(e) => crate::codec::sp_edit(buf@) is None && e == DeserializeError::InvalidPayload,
        },
{
    match crate::codec::decode_edit(buf) {
        Some(e) => Ok(e),
        None => Err(DeserializeError::InvalidPayload),
    }
}

} // verus!
