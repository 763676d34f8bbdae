use base64_codec::codec::Base64Codec;
use base64_codec::transform::{decode_payload, encoded_size, CodecError};
use bytes::BytesMut;

fn buffer_of(text: &[u8]) -> BytesMut {
    BytesMut::from(text)
}

#[test]
fn new_has_unbounded_max_length() {
    let codec = Base64Codec::new(64);
    assert_eq!(codec.max_length(), usize::MAX);
}

#[test]
fn new_with_max_length_keeps_limit() {
    let codec = Base64Codec::new_with_max_length(256, 64);
    assert_eq!(codec.max_length(), 256);
}

#[test]
fn empty_frame_decodes_to_empty_payload() {
    let mut codec = Base64Codec::new(64);
    let mut buf = buffer_of(b"\n");
    assert_eq!(codec.decode(&mut buf), Ok(Some(Vec::new())));
    assert!(buf.is_empty());
}

#[test]
fn empty_buffer_gives_no_frame() {
    let mut codec = Base64Codec::new(64);
    let mut buf = BytesMut::new();
    assert_eq!(codec.decode(&mut buf), Ok(None));
}

#[test]
fn three_frames_in_one_buffer() {
    let codec_enc = Base64Codec::new(64);
    let mut buf = BytesMut::new();
    codec_enc.encode(b"one", &mut buf);
    codec_enc.encode(b"two", &mut buf);
    codec_enc.encode(b"three", &mut buf);
    let mut codec = Base64Codec::new_with_max_length(32, 64);
    assert_eq!(codec.decode(&mut buf), Ok(Some(b"one".to_vec())));
    assert_eq!(codec.decode(&mut buf), Ok(Some(b"two".to_vec())));
    assert_eq!(codec.decode(&mut buf), Ok(Some(b"three".to_vec())));
    assert_eq!(codec.decode(&mut buf), Ok(None));
    assert!(buf.is_empty());
}

#[test]
fn encode_appends_text_and_newline() {
    let codec = Base64Codec::new(64);
    let mut buf = buffer_of(b"x");
    codec.encode(b"Hello, World!", &mut buf);
    assert_eq!(&buf[..], b"xSGVsbG8sIFdvcmxkIQ\n");
    codec.encode(b"hi", &mut buf);
    assert_eq!(&buf[..], b"xSGVsbG8sIFdvcmxkIQ\naGk\n");
    codec.encode(b"", &mut buf);
    assert_eq!(&buf[..], b"xSGVsbG8sIFdvcmxkIQ\naGk\n\n");
}

#[test]
fn round_trip_binary_payloads() {
    let enc = Base64Codec::new(1024);
    let mut codec = Base64Codec::new_with_max_length(512, 1024);
    let payloads: Vec<Vec<u8>> = vec![
        vec![],
        vec![0],
        vec![10, 10, 10],
        vec![255, 0, 10, 13, 128],
        (0u8..=255).collect(),
    ];
    for p in payloads {
        let mut buf = BytesMut::new();
        enc.encode(&p, &mut buf);
        assert_eq!(codec.decode(&mut buf), Ok(Some(p.clone())));
        assert!(buf.is_empty());
    }
}

#[test]
fn frame_delivered_in_pieces() {
    let mut codec = Base64Codec::new_with_max_length(64, 128);
    let mut buf = BytesMut::new();
    for piece in [&b"SGVs"[..], &b"bG8s"[..], &b"IFdvcmxkIQ"[..]] {
        buf.extend_from_slice(piece);
        assert_eq!(codec.decode(&mut buf), Ok(None));
    }
    buf.extend_from_slice(b"\naG");
    assert_eq!(codec.decode(&mut buf), Ok(Some(b"Hello, World!".to_vec())));
    assert_eq!(&buf[..], b"aG");
    assert_eq!(codec.decode(&mut buf), Ok(None));
    buf.extend_from_slice(b"k\n");
    assert_eq!(codec.decode(&mut buf), Ok(Some(b"hi".to_vec())));
}

#[test]
fn bytes_arriving_one_at_a_time() {
    let mut codec = Base64Codec::new_with_max_length(64, 128);
    let mut buf = BytesMut::new();
    for b in b"SGVsbG8sIFdvcmxkIQ" {
        buf.extend_from_slice(&[*b]);
        assert_eq!(codec.decode(&mut buf), Ok(None));
    }
    assert_eq!(buf.len(), 18);
    buf.extend_from_slice(b"\n");
    assert_eq!(codec.decode(&mut buf), Ok(Some(b"Hello, World!".to_vec())));
}

#[test]
fn oversize_frame_is_reported_then_skipped() {
    let mut codec = Base64Codec::new_with_max_length(8, 64);
    let mut buf = buffer_of(b"AAAAAAAAAA");
    assert_eq!(codec.decode(&mut buf), Err(CodecError::LengthExceeded));
    assert_eq!(buf.len(), 10);
    buf.extend_from_slice(b"AAA\naGk\n");
    assert_eq!(codec.decode(&mut buf), Ok(None));
    assert_eq!(&buf[..], b"AAAA\naGk\n");
    assert_eq!(codec.decode(&mut buf), Ok(Some(b"hi".to_vec())));
    assert!(buf.is_empty());
}

#[test]
fn discard_drops_at_most_max_length_plus_one_per_call() {
    let mut codec = Base64Codec::new_with_max_length(4, 64);
    let mut buf = buffer_of(b"AAAAAA");
    assert_eq!(codec.decode(&mut buf), Err(CodecError::LengthExceeded));
    buf.extend_from_slice(b"\naGk\n");
    assert_eq!(codec.decode(&mut buf), Ok(None));
    assert_eq!(&buf[..], b"A\naGk\n");
    assert_eq!(codec.decode(&mut buf), Ok(Some(b"hi".to_vec())));
}

#[test]
fn frame_of_exactly_max_length_is_accepted() {
    let mut codec = Base64Codec::new_with_max_length(4, 64);
    let mut buf = buffer_of(b"aGVs\n");
    assert_eq!(codec.decode(&mut buf), Ok(Some(b"hel".to_vec())));
    let mut buf = buffer_of(b"aGVsbA\n");
    assert_eq!(codec.decode(&mut buf), Err(CodecError::LengthExceeded));
}

#[test]
fn invalid_payload_is_an_error() {
    let mut codec = Base64Codec::new(64);
    let mut buf = buffer_of(b"!!\naGk\n");
    assert_eq!(codec.decode(&mut buf), Err(CodecError::InvalidPayload));
    assert_eq!(codec.decode(&mut buf), Ok(Some(b"hi".to_vec())));
}

#[test]
fn content_beyond_min_capacity_is_left_alone() {
    let mut codec = Base64Codec::new(4);
    let mut buf = buffer_of(b"aGk\naGk\n");
    assert_eq!(codec.decode(&mut buf), Ok(None));
    assert_eq!(&buf[..], b"aGk\naGk\n");
}

#[test]
fn decode_payload_values() {
    assert_eq!(decode_payload(b"aGk"), Ok(b"hi".to_vec()));
    assert_eq!(decode_payload(b""), Ok(Vec::new()));
    assert_eq!(decode_payload(b"a"), Err(CodecError::InvalidPayload));
    assert_eq!(decode_payload(b"a*k"), Err(CodecError::InvalidPayload));
}

#[test]
fn encoded_size_values() {
    assert_eq!(encoded_size(0), 0);
    assert_eq!(encoded_size(1), 2);
    assert_eq!(encoded_size(2), 3);
    assert_eq!(encoded_size(3), 4);
    assert_eq!(encoded_size(4), 6);
    assert_eq!(encoded_size(13), 18);
}
