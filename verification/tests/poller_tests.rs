use hls_capture::errors::PollError;
use hls_capture::playlist::{parse_media_playlist_info, parse_playlist_info, PlaylistInfoKind};
use hls_capture::segment::ByteRange;
use hls_capture::poller::{poll_media_playlist, Emission, PollerState, PollRound};
use hls_capture::segment::{Segment, SegmentKey};

const BASE: &str = "http://example.com/live/chunklist.m3u8";

fn poll(state: PollerState, playlist: &str) -> PollRound {
    let info = parse_media_playlist_info(playlist.as_bytes()).expect("playlist should parse");
    poll_media_playlist(state, &info, BASE)
}

fn sequence_keys(emissions: &[Emission]) -> Vec<SegmentKey> {
    emissions.iter().filter_map(|e| e.segment.key()).collect()
}

const SIMPLE: &str = "#EXTM3U\n\
#EXT-X-VERSION:3\n\
#EXT-X-TARGETDURATION:6\n\
#EXT-X-MEDIA-SEQUENCE:10\n\
#EXTINF:6.0,\nseg10.ts\n\
#EXTINF:6.0,\nseg11.ts\n\
#EXTINF:6.0,\nseg12.ts\n";

#[test]
fn poll_emits_every_new_segment() {
    let round = poll(PollerState::start(), SIMPLE);
    assert!(round.error.is_none());
    assert!(round.found_new);
    assert!(!round.ended);
    assert_eq!(round.emissions.len(), 3);
    let keys = sequence_keys(&round.emissions);
    assert_eq!(keys[0], SegmentKey { discon_seq: 0, seq: 10 });
    assert_eq!(keys[2], SegmentKey { discon_seq: 0, seq: 12 });
    assert_eq!(round.emissions[0].segment.url().as_str(), "http://example.com/live/seg10.ts");
    assert_eq!(round.state.last_key, Some(SegmentKey { discon_seq: 0, seq: 12 }));
}

#[test]
fn poll_accepted_keys_strictly_increase() {
    let round = poll(PollerState::start(), SIMPLE);
    let keys = sequence_keys(&round.emissions);
    for pair in keys.windows(2) {
        assert!(pair[0].key_lt(pair[1]));
    }
}

#[test]
fn poll_skips_consumed_segments() {
    let first = poll(PollerState::start(), SIMPLE);
    let second = poll(first.state, SIMPLE);
    assert!(second.error.is_none());
    assert_eq!(second.emissions.len(), 0);
    assert!(!second.found_new);
    assert_eq!(second.state.last_key, Some(SegmentKey { discon_seq: 0, seq: 12 }));
}

#[test]
fn poll_resumes_after_partial_consumption() {
    let state = PollerState {
        last_key: Some(SegmentKey { discon_seq: 0, seq: 11 }),
        init_sent: false,
        current_key: None,
    };
    let round = poll(state, SIMPLE);
    let keys = sequence_keys(&round.emissions);
    assert_eq!(keys, vec![SegmentKey { discon_seq: 0, seq: 12 }]);
}

const DISCONTINUOUS: &str = "#EXTM3U\n\
#EXT-X-TARGETDURATION:6\n\
#EXT-X-MEDIA-SEQUENCE:0\n\
#EXT-X-DISCONTINUITY-SEQUENCE:3\n\
#EXTINF:6.0,\na.ts\n\
#EXT-X-DISCONTINUITY\n\
#EXTINF:6.0,\nb.ts\n\
#EXTINF:6.0,\nc.ts\n";

#[test]
fn poll_tracks_discontinuity_generations() {
    let round = poll(PollerState::start(), DISCONTINUOUS);
    let keys = sequence_keys(&round.emissions);
    assert_eq!(keys, vec![
        SegmentKey { discon_seq: 3, seq: 0 },
        SegmentKey { discon_seq: 4, seq: 1 },
        SegmentKey { discon_seq: 4, seq: 2 },
    ]);
}

const WITH_MAP: &str = "#EXTM3U\n\
#EXT-X-TARGETDURATION:4\n\
#EXT-X-MEDIA-SEQUENCE:0\n\
#EXT-X-MAP:URI=\"init.mp4\"\n\
#EXTINF:4.0,\na.m4s\n\
#EXTINF:4.0,\nb.m4s\n\
#EXT-X-ENDLIST\n";

#[test]
fn poll_emits_initialization_once_before_first_segment() {
    let round = poll(PollerState::start(), WITH_MAP);
    assert!(round.ended);
    assert_eq!(round.emissions.len(), 3);
    match &round.emissions[0].segment {
        Segment::Initialization { url, .. } => {
            assert_eq!(url.as_str(), "http://example.com/live/init.mp4");
        },
        _ => panic!("expected the initialization request first"),
    }
    assert!(round.emissions[0].key.is_none());
    assert!(round.state.init_sent);

    let again = poll(round.state, WITH_MAP);
    assert_eq!(again.emissions.len(), 0);
}

const ENCRYPTED: &str = "#EXTM3U\n\
#EXT-X-TARGETDURATION:6\n\
#EXT-X-MEDIA-SEQUENCE:0\n\
#EXT-X-KEY:METHOD=AES-128,URI=\"key.bin\",IV=0x0123456789abcdef0123456789abcdef\n\
#EXTINF:6.0,\na.ts\n\
#EXTINF:6.0,\nb.ts\n";

#[test]
fn poll_carries_key_metadata_on_sequence_requests() {
    let round = poll(PollerState::start(), ENCRYPTED);
    assert_eq!(round.emissions.len(), 2);
    for e in &round.emissions {
        let key = e.key.as_ref().expect("sequence requests should carry the key");
        assert_eq!(key.uri.as_deref(), Some("key.bin"));
    }
    assert!(round.state.current_key.is_some());
}

#[test]
fn entry_playlist_parses_as_master_or_media() {
    let master = "#EXTM3U\n\
#EXT-X-STREAM-INF:BANDWIDTH=1280000\nlow.m3u8\n\
#EXT-X-STREAM-INF:BANDWIDTH=2560000\nhigh.m3u8\n";
    match parse_playlist_info(master.as_bytes()) {
        Some(PlaylistInfoKind::Master(m)) => {
            assert_eq!(m.variants.len(), 2);
            assert_eq!(m.variants[1].bandwidth, 2560000);
        },
        _ => panic!("expected a master playlist"),
    }
    match parse_playlist_info(SIMPLE.as_bytes()) {
        Some(PlaylistInfoKind::Media(info)) => assert_eq!(info.segments.len(), 3),
        _ => panic!("expected a media playlist"),
    }
    assert!(parse_playlist_info(b"not a playlist").is_none());
}

#[test]
fn media_info_exposes_header_fields() {
    let info = parse_media_playlist_info(SIMPLE.as_bytes()).unwrap();
    assert_eq!(info.header.target_duration, 6);
    assert_eq!(info.header.media_sequence, 10);
    assert_eq!(info.header.discontinuity_sequence, 0);
    assert!(!info.header.end_list);
    assert_eq!(info.segments.len(), 3);
    assert_eq!(info.segments[0].uri, "seg10.ts");
}

#[test]
fn poll_reports_malformed_base_as_invalid_uri() {
    let info = parse_media_playlist_info(SIMPLE.as_bytes()).unwrap();
    let round = poll_media_playlist(PollerState::start(), &info, "no scheme");
    assert_eq!(round.emissions.len(), 0);
    match round.error {
        Some(PollError::InvalidUri { uri }) => assert_eq!(uri, "seg10.ts"),
        other => panic!("expected an invalid-uri error, got {:?}", other),
    }
}

const ONE_BAD_URI: &str = "#EXTM3U\n\
#EXT-X-TARGETDURATION:6\n\
#EXT-X-MEDIA-SEQUENCE:0\n\
#EXTINF:6.0,\ngood.ts\n\
#EXTINF:6.0,\nhttp://[bad\n\
#EXTINF:6.0,\nlater.ts\n";

#[test]
fn poll_stops_at_first_malformed_uri_keeping_earlier_emissions() {
    let round = poll(PollerState::start(), ONE_BAD_URI);
    assert_eq!(round.emissions.len(), 1);
    assert_eq!(round.emissions[0].segment.url().as_str(), "http://example.com/live/good.ts");
    match round.error {
        Some(PollError::InvalidUri { uri }) => assert_eq!(uri, "http://[bad"),
        other => panic!("expected an invalid-uri error, got {:?}", other),
    }
    assert_eq!(round.state.last_key, Some(SegmentKey { discon_seq: 0, seq: 0 }));
}

const WITH_BYTERANGE: &str = "#EXTM3U\n\
#EXT-X-TARGETDURATION:6\n\
#EXT-X-MEDIA-SEQUENCE:0\n\
#EXT-X-BYTERANGE:100@50\n\
#EXTINF:6.0,\nall.ts\n";

#[test]
fn poll_carries_declared_byte_ranges() {
    let round = poll(PollerState::start(), WITH_BYTERANGE);
    assert_eq!(round.emissions.len(), 1);
    match &round.emissions[0].segment {
        Segment::Sequence { byte_range, .. } => {
            assert_eq!(*byte_range, Some(ByteRange { length: 100, offset: Some(50) }));
        },
        _ => panic!("expected a sequence request"),
    }
    assert_eq!(
        round.emissions[0].segment.byte_range_header(),
        Some(String::from("bytes=50-149"))
    );
}

const WINDOW_MOVED: &str = "#EXTM3U\n\
#EXT-X-TARGETDURATION:6\n\
#EXT-X-MEDIA-SEQUENCE:12\n\
#EXTINF:6.0,\nseg12.ts\n\
#EXTINF:6.0,\nseg13.ts\n\
#EXTINF:6.0,\nseg14.ts\n";

#[test]
fn poll_rounds_follow_a_moving_window() {
    let first = poll(PollerState::start(), SIMPLE);
    assert_eq!(first.emissions.len(), 3);
    let second = poll(first.state, WINDOW_MOVED);
    assert!(second.error.is_none());
    let keys = sequence_keys(&second.emissions);
    assert_eq!(keys, vec![
        SegmentKey { discon_seq: 0, seq: 13 },
        SegmentKey { discon_seq: 0, seq: 14 },
    ]);
    assert_eq!(second.state.last_key, Some(SegmentKey { discon_seq: 0, seq: 14 }));
}
