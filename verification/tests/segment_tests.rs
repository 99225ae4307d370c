use hls_capture::segment::{ByteRange, Segment, SegmentKey};

#[test]
fn key_id_is_zero_padded() {
    let k = SegmentKey { discon_seq: 5, seq: 42 };
    assert_eq!(k.id_string(), "d0000000005s0000000042");
}

#[test]
fn key_id_grows_past_ten_digits() {
    let k = SegmentKey { discon_seq: 10_000_000_000, seq: 0 };
    assert_eq!(k.id_string(), "d10000000000s0000000000");
}

#[test]
fn key_id_of_max_counters() {
    let k = SegmentKey { discon_seq: u64::MAX, seq: u64::MAX };
    assert_eq!(k.id_string(), "d18446744073709551615s18446744073709551615");
}

#[test]
fn key_order_is_lexicographic_on_pairs() {
    let a = SegmentKey { discon_seq: 1, seq: 100 };
    let b = SegmentKey { discon_seq: 2, seq: 0 };
    let c = SegmentKey { discon_seq: 2, seq: 1 };
    assert!(a.key_lt(b));
    assert!(b.key_lt(c));
    assert!(!c.key_lt(b));
    assert!(!a.key_lt(a));
    assert!(a.key_le(a));
    assert!(a.key_le(c));
}

#[test]
fn sequence_segment_id_and_url() {
    let s = Segment::Sequence {
        url: String::from("http://example.com/seg1.ts"),
        byte_range: None,
        key: SegmentKey { discon_seq: 0, seq: 7 },
        format: None,
    };
    assert_eq!(s.id(), "d0000000000s0000000007");
    assert_eq!(s.url().as_str(), "http://example.com/seg1.ts");
    assert_eq!(s.key(), Some(SegmentKey { discon_seq: 0, seq: 7 }));
}

#[test]
fn initialization_segment_id() {
    let s = Segment::Initialization { url: String::from("http://example.com/init.mp4"), byte_range: None };
    assert_eq!(s.id(), "init");
    assert_eq!(s.key(), None);
}

#[test]
fn range_header_with_offset() {
    let s = Segment::Sequence {
        url: String::from("http://example.com/seg.ts"),
        byte_range: Some(ByteRange { length: 100, offset: Some(50) }),
        key: SegmentKey { discon_seq: 0, seq: 0 },
        format: None,
    };
    assert_eq!(s.byte_range_header(), Some(String::from("bytes=50-149")));
}

#[test]
fn range_header_offset_defaults_to_zero() {
    let s = Segment::Initialization {
        url: String::from("http://example.com/init.mp4"),
        byte_range: Some(ByteRange { length: 100, offset: None }),
    };
    assert_eq!(s.byte_range_header(), Some(String::from("bytes=0-99")));
}

#[test]
fn range_header_of_empty_range() {
    let s = Segment::Sequence {
        url: String::from("http://example.com/seg.ts"),
        byte_range: Some(ByteRange { length: 0, offset: Some(5) }),
        key: SegmentKey { discon_seq: 0, seq: 0 },
        format: None,
    };
    assert_eq!(s.byte_range_header(), Some(String::from("bytes=5-5")));
}

#[test]
fn no_range_header_without_byte_range() {
    let s = Segment::Sequence {
        url: String::from("http://example.com/seg.ts"),
        byte_range: None,
        key: SegmentKey { discon_seq: 0, seq: 0 },
        format: None,
    };
    assert_eq!(s.byte_range_header(), None);
}
