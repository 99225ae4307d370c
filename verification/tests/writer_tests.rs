use hls_capture::segment::{Segment, SegmentKey};
use hls_capture::stream::Stream;
use hls_capture::writer::SegmentWriter;

fn seq_segment(seq: u64) -> Segment {
    Segment::Sequence {
        url: String::from("http://example.com/seg.ts"),
        byte_range: None,
        key: SegmentKey { discon_seq: 0, seq },
        format: None,
    }
}

#[test]
fn writer_prepends_cached_initialization_bytes() {
    let mut w = SegmentWriter::new();
    w.accept_init(Stream::Main, vec![1, 2, 3]);
    let cmd = w.accept_sequence(Stream::Main, seq_segment(0), vec![4, 5], "ts");
    assert_eq!(cmd.contents, vec![1, 2, 3, 4, 5]);
}

#[test]
fn writer_without_initialization_writes_bytes_alone() {
    let mut w = SegmentWriter::new();
    let cmd = w.accept_sequence(Stream::Main, seq_segment(0), vec![9, 9], "ts");
    assert_eq!(cmd.contents, vec![9, 9]);
}

#[test]
fn writer_initialization_is_per_stream() {
    let mut w = SegmentWriter::new();
    let audio = Stream::Audio { name: String::from("eng"), lang: None };
    w.accept_init(audio, vec![7]);
    let cmd = w.accept_sequence(Stream::Main, seq_segment(0), vec![1], "ts");
    assert_eq!(cmd.contents, vec![1]);
}

#[test]
fn writer_derives_file_name_from_stream_key_and_extension() {
    let mut w = SegmentWriter::new();
    let cmd = w.accept_sequence(Stream::Main, seq_segment(42), vec![0], "ts");
    assert_eq!(cmd.file_name, "segment_main_d0000000000s0000000042.ts");

    let audio = Stream::Audio { name: String::from("eng"), lang: None };
    let cmd2 = w.accept_sequence(audio, seq_segment(1), vec![0], "m4a");
    assert_eq!(cmd2.file_name, "segment_audio_eng_d0000000000s0000000001.m4a");
}

#[test]
fn writer_records_manifest_in_consumption_order() {
    let mut w = SegmentWriter::new();
    w.accept_init(Stream::Main, vec![1]);
    let a = w.accept_sequence(Stream::Main, seq_segment(1), vec![2], "ts");
    let b = w.accept_sequence(Stream::Main, seq_segment(2), vec![3], "ts");
    let log = w.into_log();
    assert_eq!(log.len(), 2);
    assert!(log[0].0.same_stream(&Stream::Main));
    assert_eq!(log[0].2, a.file_name);
    assert_eq!(log[1].2, b.file_name);
    match &log[0].1 {
        Segment::Sequence { format, .. } => assert_eq!(format.as_deref(), Some("ts")),
        _ => panic!("manifests hold sequence segments"),
    }
}

#[test]
fn file_names_sort_like_ordering_keys() {
    // A small linear-congruential generator stands in for randomized keys.
    let mut state: u64 = 0x2545F4914F6CDD1D;
    let mut keys: Vec<SegmentKey> = Vec::new();
    for _ in 0..50 {
        state = state.wrapping_mul(6364136223846793005).wrapping_add(1442695040888963407);
        let discon = (state >> 40) % 10_000_000_000;
        state = state.wrapping_mul(6364136223846793005).wrapping_add(1442695040888963407);
        let seq = (state >> 24) % 10_000_000_000;
        keys.push(SegmentKey { discon_seq: discon, seq });
    }
    let mut w = SegmentWriter::new();
    let mut named: Vec<(SegmentKey, String)> = Vec::new();
    for k in &keys {
        let segment = Segment::Sequence {
            url: String::from("http://example.com/s.ts"),
            byte_range: None,
            key: *k,
            format: None,
        };
        let cmd = w.accept_sequence(Stream::Main, segment, vec![0], "ts");
        named.push((*k, cmd.file_name));
    }
    let mut by_key = named.clone();
    by_key.sort_by(|a, b| (a.0.discon_seq, a.0.seq).cmp(&(b.0.discon_seq, b.0.seq)));
    let mut by_name = named.clone();
    by_name.sort_by(|a, b| a.1.cmp(&b.1));
    for (x, y) in by_key.iter().zip(by_name.iter()) {
        assert_eq!(x.1, y.1);
    }
}
