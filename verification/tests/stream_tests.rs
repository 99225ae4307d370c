use hls_capture::stream::Stream;

#[test]
fn main_stream_has_no_name() {
    assert_eq!(Stream::Main.name(), None);
    assert_eq!(Stream::Main.extension(), "ts");
    assert_eq!(Stream::Main.display_name(), "main");
}

#[test]
fn video_stream_name_and_extension() {
    let s = Stream::Video { name: String::from("hd"), lang: None };
    assert_eq!(s.name(), Some(String::from("hd")));
    assert_eq!(s.extension(), "ts");
    assert_eq!(s.display_name(), "video_hd");
}

#[test]
fn audio_stream_name_and_extension() {
    let s = Stream::Audio { name: String::from("eng"), lang: Some(String::from("en")) };
    assert_eq!(s.name(), Some(String::from("eng")));
    assert_eq!(s.extension(), "m4a");
    assert_eq!(s.display_name(), "audio_eng");
}

#[test]
fn subtitle_stream_name_and_extension() {
    let s = Stream::Subtitle { name: String::from("de"), lang: Some(String::from("de")) };
    assert_eq!(s.name(), Some(String::from("de")));
    assert_eq!(s.extension(), "vtt");
    assert_eq!(s.display_name(), "subtitle_de");
}

#[test]
fn same_stream_compares_identity() {
    let a = Stream::Audio { name: String::from("eng"), lang: Some(String::from("en")) };
    let b = Stream::Audio { name: String::from("eng"), lang: Some(String::from("en")) };
    let c = Stream::Audio { name: String::from("eng"), lang: None };
    let d = Stream::Video { name: String::from("eng"), lang: Some(String::from("en")) };
    assert!(a.same_stream(&b));
    assert!(!a.same_stream(&c));
    assert!(!a.same_stream(&d));
    assert!(!a.same_stream(&Stream::Main));
    assert!(Stream::Main.same_stream(&Stream::Main));
}
