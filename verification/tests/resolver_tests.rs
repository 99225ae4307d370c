use hls_capture::errors::PlaylistError;
use hls_capture::playlist::{AlternativeEntry, MasterPlaylistInfo, VariantEntry};
use hls_capture::resolver::{build_stream_map, select_best_variant};
use hls_capture::stream::Stream;
use hls_capture::urls::join_url;

fn variant(uri: &str, bandwidth: u64) -> VariantEntry {
    VariantEntry {
        uri: String::from(uri),
        bandwidth,
        audio: None,
        video: None,
        subtitles: None,
    }
}

#[test]
fn resolver_picks_largest_bandwidth() {
    let variants = vec![
        variant("low.m3u8", 500000),
        variant("high.m3u8", 1200000),
        variant("mid.m3u8", 800000),
    ];
    assert_eq!(select_best_variant(&variants), Some(1));
}

#[test]
fn resolver_breaks_ties_by_source_order() {
    let variants = vec![variant("a.m3u8", 700000), variant("b.m3u8", 700000)];
    assert_eq!(select_best_variant(&variants), Some(0));
}

#[test]
fn resolver_rejects_empty_variant_index() {
    let variants: Vec<VariantEntry> = Vec::new();
    assert_eq!(select_best_variant(&variants), None);
    let master = MasterPlaylistInfo { variants: Vec::new(), alternatives: Vec::new() };
    match build_stream_map(&master, "http://example.com/master.m3u8") {
        Err(PlaylistError::NoVariants) => {},
        _ => panic!("expected a no-variants error"),
    }
}

#[test]
fn stream_map_registers_main_and_alternates() {
    let mut best = variant("high/chunklist.m3u8", 1200000);
    best.audio = Some(String::from("aud1"));
    let variants = vec![variant("low/chunklist.m3u8", 500000), best];
    let alternatives = vec![
        AlternativeEntry {
            group_id: String::from("aud1"),
            name: String::from("English"),
            language: Some(String::from("en")),
            uri: Some(String::from("audio/en.m3u8")),
        },
        AlternativeEntry {
            group_id: String::from("aud2"),
            name: String::from("Other group"),
            language: None,
            uri: Some(String::from("audio/other.m3u8")),
        },
        AlternativeEntry {
            group_id: String::from("aud1"),
            name: String::from("No uri"),
            language: None,
            uri: None,
        },
    ];
    let master = MasterPlaylistInfo { variants, alternatives };
    let map = build_stream_map(&master, "http://example.com/master.m3u8").unwrap();
    assert_eq!(map.len(), 2);
    assert!(map.entries[0].0.same_stream(&Stream::Main));
    assert_eq!(map.entries[0].1, "http://example.com/high/chunklist.m3u8");
    let audio = Stream::Audio { name: String::from("English"), lang: Some(String::from("en")) };
    assert!(map.entries[1].0.same_stream(&audio));
    assert_eq!(map.entries[1].1, "http://example.com/audio/en.m3u8");
}

#[test]
fn stream_map_rejects_unresolvable_uri() {
    let master = MasterPlaylistInfo {
        variants: vec![variant("chunklist.m3u8", 1000)],
        alternatives: Vec::new(),
    };
    match build_stream_map(&master, "not a base url") {
        Err(PlaylistError::InvalidUri { .. }) => {},
        _ => panic!("expected an invalid-uri error"),
    }
}

#[test]
fn join_url_resolves_relative_references() {
    assert_eq!(
        join_url("http://example.com/a/master.m3u8", "seg1.ts"),
        Some(String::from("http://example.com/a/seg1.ts"))
    );
    assert_eq!(
        join_url("http://example.com/a/master.m3u8", "http://other.org/x.ts"),
        Some(String::from("http://other.org/x.ts"))
    );
    assert_eq!(join_url("no scheme", "x.ts"), None);
}

#[test]
fn stream_map_covers_all_three_group_kinds() {
    let mut best = variant("v.m3u8", 9000);
    best.audio = Some(String::from("a"));
    best.video = Some(String::from("v"));
    best.subtitles = Some(String::from("s"));
    let alternatives = vec![
        AlternativeEntry {
            group_id: String::from("s"),
            name: String::from("german"),
            language: Some(String::from("de")),
            uri: Some(String::from("subs/de.m3u8")),
        },
        AlternativeEntry {
            group_id: String::from("v"),
            name: String::from("angle2"),
            language: None,
            uri: Some(String::from("angle2.m3u8")),
        },
        AlternativeEntry {
            group_id: String::from("a"),
            name: String::from("stereo"),
            language: None,
            uri: Some(String::from("stereo.m3u8")),
        },
    ];
    let master = MasterPlaylistInfo { variants: vec![best], alternatives };
    let map = build_stream_map(&master, "http://example.com/master.m3u8").unwrap();
    // Registration order: main, then the audio, video and subtitle groups.
    assert_eq!(map.len(), 4);
    assert!(map.entries[1].0.same_stream(&Stream::Audio {
        name: String::from("stereo"),
        lang: None,
    }));
    assert!(map.entries[2].0.same_stream(&Stream::Video {
        name: String::from("angle2"),
        lang: None,
    }));
    assert!(map.entries[3].0.same_stream(&Stream::Subtitle {
        name: String::from("german"),
        lang: Some(String::from("de")),
    }));
    assert_eq!(map.entries[3].1, "http://example.com/subs/de.m3u8");
}
