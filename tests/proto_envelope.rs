use crunch::proto::{unwrap, wrap};
use crunch::EnvelopeError;

#[test]
fn proto_round_trip() {
    let out = wrap("some-domain", "some-entity", b"some-content");
    let (content, md) = unwrap(&out).unwrap();
    assert_eq!(content, b"some-content");
    assert_eq!(md.domain, "some-domain");
    assert_eq!(md.entity, "some-entity");
    assert_eq!(md.timestamp, 0);
    assert_eq!(md.sequence, 0);
}

#[test]
fn proto_round_trip_long_content() {
    let content: Vec<u8> = (0..300u32).map(|i| (i % 251) as u8).collect();
    let out = wrap("d", "é", &content);
    let (back, md) = unwrap(&out).unwrap();
    assert_eq!(back, content);
    assert_eq!(md.entity, "é");
}

#[test]
fn proto_exact_bytes() {
    assert_eq!(
        wrap("a", "b", b"x"),
        vec![0x0A, 6, 0x0A, 1, b'a', 0x12, 1, b'b', 0x12, 1, b'x']
    );
    // empty fields are left out; the metadata is always written
    assert_eq!(wrap("", "", b""), vec![0x0A, 0]);
}

#[test]
fn proto_missing_metadata() {
    assert_eq!(unwrap(&[]).unwrap_err(), EnvelopeError::MetadataError);
    assert_eq!(unwrap(&[0x12, 1, b'x']).unwrap_err(), EnvelopeError::MetadataError);
}

#[test]
fn proto_malformed() {
    // truncated key, truncated length, tag zero
    assert_eq!(unwrap(&[0x0A]).unwrap_err(), EnvelopeError::ProtoError);
    assert_eq!(unwrap(&[0x0A, 5, 1]).unwrap_err(), EnvelopeError::ProtoError);
    assert_eq!(unwrap(&[0x00]).unwrap_err(), EnvelopeError::ProtoError);
    // metadata field 1 with a varint wire type
    assert_eq!(unwrap(&[0x0A, 2, 0x08, 1]).unwrap_err(), EnvelopeError::ProtoError);
    // domain that is not UTF-8
    assert_eq!(unwrap(&[0x0A, 3, 0x0A, 1, 0xFF]).unwrap_err(), EnvelopeError::ProtoError);
}

#[test]
fn proto_skips_unknown_fields_and_reads_stamps() {
    let (content, md) = unwrap(&[0x0A, 4, 0x18, 7, 0x20, 9, 0x18, 5, 0x2D, 1, 2, 3, 4]).unwrap();
    assert!(content.is_empty());
    assert_eq!(md.timestamp, 7);
    assert_eq!(md.sequence, 9);
}

#[test]
fn proto_repeated_metadata_merges() {
    let msg = [0x0A, 3, 0x0A, 1, b'a', 0x0A, 3, 0x12, 1, b'b', 0x12, 1, b'y', 0x12, 1, b'z'];
    let (content, md) = unwrap(&msg).unwrap();
    assert_eq!(md.domain, "a");
    assert_eq!(md.entity, "b");
    assert_eq!(content, b"z");
}
