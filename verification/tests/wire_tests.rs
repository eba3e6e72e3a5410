use kg_indexer::proposals::parse_i64_or_zero;
use kg_indexer::wire::{decompress_bytes, decompress_to_string, DeserializeError};

#[test]
fn decompress_round_trips_text() {
    let text = "a block payload worth keeping";
    let compressed = zstd::stream::encode_all(text.as_bytes(), 3).unwrap();
    // The compressed frame is not the original bytes, so a wrapper that
    // handed its input back unchanged would fail both checks below.
    assert_ne!(compressed.as_slice(), text.as_bytes());

    let bytes = decompress_bytes(&compressed).unwrap();
    assert_eq!(bytes.as_slice(), text.as_bytes());

    let decoded = decompress_to_string(&compressed).unwrap();
    assert_eq!(decoded, text);
}

#[test]
fn decompress_rejects_garbage() {
    let r = decompress_to_string(&[1, 2, 3, 4, 5]);
    assert_eq!(r.unwrap_err(), DeserializeError::InvalidData);
}

#[test]
fn decompress_rejects_invalid_text() {
    let compressed = zstd::stream::encode_all(&[0xffu8, 0xfe, 0x01][..], 3).unwrap();
    let r = decompress_to_string(&compressed);
    assert_eq!(r.unwrap_err(), DeserializeError::InvalidText);
}

#[test]
fn parse_seconds_with_default() {
    assert_eq!(parse_i64_or_zero("1234567890"), 1234567890);
    assert_eq!(parse_i64_or_zero("-42"), -42);
    assert_eq!(parse_i64_or_zero("+42"), 42);
    assert_eq!(parse_i64_or_zero(""), 0);
    assert_eq!(parse_i64_or_zero("abc"), 0);
    assert_eq!(parse_i64_or_zero("12x"), 0);
    assert_eq!(parse_i64_or_zero("9223372036854775807"), i64::MAX);
    assert_eq!(parse_i64_or_zero("-9223372036854775808"), i64::MIN);
    assert_eq!(parse_i64_or_zero("9223372036854775808"), 0);
    assert_eq!(parse_i64_or_zero("99999999999999999999999"), 0);
}
