use buffa::encode_sink::PreSized;

#[test]
fn a_pre_sized_cursor_writes_in_order() {
    let mut cursor = PreSized::new(16);
    assert_eq!(cursor.written(), 0);
    cursor.put_u8(0x08);
    cursor.put_slice(&[0x96, 0x01]);
    cursor.put_u32_le(0x0403_0201);
    cursor.put_u64_le(0x0c0b_0a09_0807_0605);
    assert_eq!(cursor.written(), 15);
    assert_eq!(
        cursor.into_bytes(),
        vec![0x08, 0x96, 0x01, 1, 2, 3, 4, 5, 6, 7, 8, 9, 10, 11, 12]
    );
}

#[test]
fn a_cursor_may_be_filled_exactly() {
    let mut cursor = PreSized::new(4);
    cursor.put_u32_le(u32::MAX);
    assert_eq!(cursor.written(), 4);
    assert_eq!(cursor.into_bytes(), vec![0xff; 4]);
    let empty = PreSized::new(0);
    assert_eq!(empty.into_bytes(), Vec::<u8>::new());
}

use buffa::encode_sink::{Rope, RopeBuf, DEFAULT_MIN_SEGMENT};
use bytes::Bytes;

/// Every byte left in `buf`, read chunk by chunk.
fn drain(buf: &mut RopeBuf) -> Vec<u8> {
    let mut out = Vec::new();
    while buf.remaining() > 0 {
        let chunk = buf.chunk().to_vec();
        buf.advance(chunk.len());
        out.extend_from_slice(&chunk);
    }
    out
}

#[test]
fn default_matches_new() {
    let mut rope = Rope::default();
    // A small shared write must coalesce into the tail (min_segment is
    // the 4 KiB default, not 0).
    rope.put_shared(Bytes::from_static(b"tiny"));
    rope.put_shared(Bytes::new());
    assert_eq!(rope.segment_count(), 1);
    let segments = rope.into_segments();
    assert_eq!(segments.len(), 1);
    assert!(!segments[0].is_empty());
}

#[test]
fn advance_releases_consumed_segments() {
    let payload = Bytes::from(vec![3u8; 128]);
    let mut rope = Rope::with_min_segment(64);
    rope.put_shared(payload.clone());
    rope.put_slice(b"after");
    let mut buf = RopeBuf::from_rope(rope);

    // Two handles exist: `payload` and the segment inside `buf`.
    assert!(payload.clone().try_into_mut().is_err(), "not unique yet");
    buf.advance(128);
    // The consumed segment's handle is dropped; `payload` is unique.
    assert!(
        payload.try_into_mut().is_ok(),
        "consumed segment must be released before RopeBuf drop"
    );
    assert_eq!(drain(&mut buf), b"after".to_vec());
}

#[test]
fn small_writes_coalesce() {
    let mut rope = Rope::with_min_segment(16);
    rope.put_u8(1);
    rope.put_slice(b"abc");
    rope.put_u32_le(7);
    rope.put_u64_le(9);
    assert_eq!(rope.segment_count(), 1);
    let segments = rope.into_segments();
    assert_eq!(segments.len(), 1);
    assert_eq!(segments[0].len(), 1 + 3 + 4 + 8);
}

#[test]
fn large_shared_segment_is_not_copied() {
    let payload = Bytes::from(vec![0xAB; 64]);
    let ptr = payload.as_ptr();

    let mut rope = Rope::with_min_segment(64);
    rope.put_slice(b"head");
    rope.put_shared(payload);
    rope.put_slice(b"tail");

    let segments = rope.into_segments();
    assert_eq!(segments.len(), 3);
    assert_eq!(&segments[0][..], b"head");
    assert!(core::ptr::eq(segments[1].as_ptr(), ptr), "must not copy");
    assert_eq!(&segments[2][..], b"tail");
}

#[test]
fn small_shared_write_coalesces() {
    let mut rope = Rope::with_min_segment(64);
    rope.put_slice(b"a");
    rope.put_shared(Bytes::from_static(b"bc"));
    rope.put_slice(b"d");
    let segments = rope.into_segments();
    assert_eq!(segments.len(), 1);
    assert_eq!(&segments[0][..], b"abcd");
}

#[test]
fn segments_concatenate_to_contiguous_output() {
    let payload = Bytes::from(vec![0x11; 128]);

    let mut contiguous: Vec<u8> = Vec::new();
    contiguous.push(0x0A);
    contiguous.extend_from_slice(&payload);
    contiguous.extend_from_slice(&42u32.to_le_bytes());
    contiguous.extend_from_slice(&0x0102_0304_0506_0708u64.to_le_bytes());

    let mut rope = Rope::with_min_segment(64);
    rope.put_u8(0x0A);
    rope.put_shared(payload);
    rope.put_u32_le(42);
    rope.put_u64_le(0x0102_0304_0506_0708);

    assert_eq!(&rope.to_contiguous_bytes()[..], &contiguous[..]);
}

#[test]
fn rope_buf_traverses_segments() {
    let mut rope = Rope::with_min_segment(4);
    rope.put_slice(b"ab");
    rope.put_shared(Bytes::from_static(b"cdefgh"));
    rope.put_slice(b"ij");
    let mut buf = RopeBuf::from_rope(rope);

    assert_eq!(buf.remaining(), 10);
    assert_eq!(buf.chunk(), b"ab");
    buf.advance(3); // cross a segment boundary
    assert_eq!(buf.chunk(), b"defgh");
    let rest = drain(&mut buf);
    assert_eq!(&rest[..], b"defghij");
}

#[test]
fn max_threshold_never_segments() {
    let mut rope = Rope::with_min_segment(usize::MAX);
    rope.put_shared(Bytes::from(vec![1u8; 1024]));
    rope.put_slice(&vec![2u8; 1024]);
    assert_eq!(rope.segment_count(), 1);
}

#[test]
fn a_rope_counts_its_bytes() {
    let mut rope = Rope::new();
    assert!(rope.is_empty());
    assert_eq!(rope.len(), 0);
    rope.put_slice(b"");
    assert!(rope.is_empty());
    rope.put_shared(Bytes::from(vec![5u8; DEFAULT_MIN_SEGMENT]));
    rope.put_u8(6);
    assert!(!rope.is_empty());
    assert_eq!(rope.len(), DEFAULT_MIN_SEGMENT + 1);
    assert_eq!(rope.segment_count(), 2);
    let zero = Rope::with_min_segment(0);
    let mut zero = zero;
    zero.put_shared(Bytes::new());
    assert_eq!(zero.segment_count(), 0);
    zero.put_shared(Bytes::from_static(b"x"));
    assert_eq!(zero.segment_count(), 1);
    let mut buf = RopeBuf::from_rope(rope);
    assert_eq!(buf.remaining(), DEFAULT_MIN_SEGMENT + 1);
    buf.advance(DEFAULT_MIN_SEGMENT + 1);
    assert_eq!(buf.remaining(), 0);
    assert!(buf.chunk().is_empty());
}

const PAYLOAD_LEN: usize = 16;

/// The payload a sink holds after one write of each width.
fn payload() -> Vec<u8> {
    let mut expected = vec![0xAA];
    expected.extend_from_slice(b"abc");
    expected.extend_from_slice(&0x0403_0201u32.to_le_bytes());
    expected.extend_from_slice(&0x0807_0605_0403_0201u64.to_le_bytes());
    assert_eq!(expected.len(), PAYLOAD_LEN);
    expected
}

#[test]
fn pre_sized_matches_vec_for_every_write() {
    let mut cursor = PreSized::new(PAYLOAD_LEN);
    cursor.put_u8(0xAA);
    cursor.put_slice(b"abc");
    cursor.put_u32_le(0x0403_0201);
    cursor.put_u64_le(0x0807_0605_0403_0201);
    assert_eq!(cursor.written(), PAYLOAD_LEN);
    assert_eq!(cursor.into_bytes(), payload());

    // A rope given the same writes holds the same bytes.
    let mut rope = Rope::new();
    rope.put_u8(0xAA);
    rope.put_slice(b"abc");
    rope.put_u32_le(0x0403_0201);
    rope.put_u64_le(0x0807_0605_0403_0201);
    assert_eq!(&rope.to_contiguous_bytes()[..], &payload()[..]);
}
