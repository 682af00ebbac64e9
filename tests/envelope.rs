use crunch::envelope_capnp::envelope::Reader;
use crunch::{unwrap, wrap, EnvelopeError};

#[test]
fn test_can_serialize() {
    let domain = "some-domain";
    let entity = "some-entity";
    let message = b"some-content";
    let out = wrap(domain, entity, message);

    let decoded = unwrap(&out).expect("to be able to unwrap capnp message");

    assert_eq!(domain, decoded.1.domain);
    assert_eq!(entity, decoded.1.entity);
    assert_eq!(message, decoded.0.as_slice());
}

#[test]
fn round_trip_empty_fields() {
    let out = wrap("", "", b"");
    let (content, md) = unwrap(&out).unwrap();
    assert!(content.is_empty());
    assert_eq!(md.domain, "");
    assert_eq!(md.entity, "");
}

#[test]
fn round_trip_non_ascii_and_binary_content() {
    let content: Vec<u8> = (0u8..=255).collect();
    let out = wrap("bücher", "entité", &content);
    let (back, md) = unwrap(&out).unwrap();
    assert_eq!(back, content);
    assert_eq!(md.domain, "bücher");
    assert_eq!(md.entity, "entité");
}

#[test]
fn wrap_writes_the_expected_layout() {
    // content "x": one word; texts "a\0" and "b\0": one word each.
    let out = wrap("a", "b", b"x");
    assert_eq!(out.len(), 8 + 8 * 10);
    assert_eq!(&out[0..8], &[0, 0, 0, 0, 10, 0, 0, 0]);
    // root struct pointer: offset 0, no data, two pointers
    assert_eq!(&out[8..16], &[0, 0, 0, 0, 0, 0, 2, 0]);
    // metadata struct pointer: offset 2, two data words, two pointers
    assert_eq!(&out[16..24], &[8, 0, 0, 0, 2, 0, 2, 0]);
    // content list pointer: offset 0, byte elements, one element
    assert_eq!(&out[24..32], &[1, 0, 0, 0, 10, 0, 0, 0]);
    assert_eq!(&out[32..40], &[b'x', 0, 0, 0, 0, 0, 0, 0]);
    assert_eq!(&out[72..80], &[b'a', 0, 0, 0, 0, 0, 0, 0]);
    assert_eq!(&out[80..88], &[b'b', 0, 0, 0, 0, 0, 0, 0]);
}

#[test]
fn unwrap_rejects_garbage() {
    assert_eq!(unwrap(&[]).unwrap_err(), EnvelopeError::CapnpError);
    assert_eq!(unwrap(&[1, 2, 3]).unwrap_err(), EnvelopeError::CapnpError);
    // two segments are not accepted
    assert_eq!(unwrap(&[1, 0, 0, 0, 0, 0, 0, 0]).unwrap_err(), EnvelopeError::CapnpError);
    // a segment longer than the message
    assert_eq!(unwrap(&[0, 0, 0, 0, 5, 0, 0, 0]).unwrap_err(), EnvelopeError::CapnpError);
}

#[test]
fn unwrap_rejects_invalid_utf8_text() {
    let mut out = wrap("a", "b", b"");
    // with no content the domain text starts at byte 64
    assert_eq!(out[64], b'a');
    out[64] = 0xff;
    assert_eq!(unwrap(&out).unwrap_err(), EnvelopeError::CapnpError);
}

#[test]
fn unwrap_rejects_text_without_nul() {
    let mut out = wrap("a", "b", b"");
    out[65] = b'z';
    assert_eq!(unwrap(&out).unwrap_err(), EnvelopeError::CapnpError);
}

#[test]
fn null_root_reads_as_defaults() {
    let msg = [0u8, 0, 0, 0, 1, 0, 0, 0, 0, 0, 0, 0, 0, 0, 0, 0];
    let (content, md) = unwrap(&msg).unwrap();
    assert!(content.is_empty());
    assert_eq!(md.domain, "");
    assert_eq!(md.entity, "");
}

#[test]
fn reader_accessors() {
    let out = wrap("billing", "invoice", b"payload");
    let env = Reader::get_root(&out).unwrap();
    assert!(env.has_metadata());
    assert!(env.has_content());
    assert_eq!(env.reborrow().get_content().unwrap(), b"payload");
    let md = env.get_metadata().unwrap();
    assert!(md.has_domain());
    assert!(md.has_entity());
    assert_eq!(md.get_domain().unwrap(), "billing");
    assert_eq!(md.get_entity().unwrap(), "invoice");
    assert_eq!(md.get_timestamp(), 0);
    assert_eq!(md.get_sequence(), 0);
    // metadata: 2 data words + 2 pointers + "billing\0" (1 word) + "invoice\0" (1 word)
    assert_eq!(md.total_size().unwrap(), 6);
    // envelope: 2 pointers + content (1 word) + metadata
    assert_eq!(env.total_size().unwrap(), 9);
}
