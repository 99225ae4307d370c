//! Identity of a logical media track, used as a stable key for playlists,
//! caches and manifests, and in derived file names.

use vstd::prelude::*;
use vstd::string::StringExecFns;

verus! {

/// A logical track: the main rendition, or an alternate medium with a name
/// and an optional language. Immutable once constructed.
#[derive(Clone, Debug)]
pub enum Stream {
    Main,
    Video { name: String, lang: Option<String> },
    Audio { name: String, lang: Option<String> },
    Subtitle { name: String, lang: Option<String> },
}

/// Mathematical identity of a stream: the variant and the character content
/// of its fields.
pub enum StreamView {
    Main,
    Video { name: Seq<char>, lang: Option<Seq<char>> },
    Audio { name: Seq<char>, lang: Option<Seq<char>> },
    Subtitle { name: Seq<char>, lang: Option<Seq<char>> },
}

pub open spec fn opt_string_view(o: Option<String>) -> Option<Seq<char>> {
    match o {
        Option::None => Option::None,
        Option::Some(s) => Option::Some(s@),
    }
}

impl View for Stream {
    type V = StreamView;

    open spec fn view(&self) -> StreamView {
        match self {
            Stream::Main => StreamView::Main,
            Stream::Video { name, lang } => StreamView::Video {
                name: name@,
                lang: opt_string_view(*lang),
            },
            Stream::Audio { name, lang } => StreamView::Audio {
                name: name@,
                lang: opt_string_view(*lang),
            },
            Stream::Subtitle { name, lang } => StreamView::Subtitle {
                name: name@,
                lang: opt_string_view(*lang),
            },
        }
    }
}

impl StreamView {
    /// Display name used in file names: `main`, `video_<name>`, `audio_<name>`
    /// or `subtitle_<name>`.
    pub open spec fn display(self) -> Seq<char> {
        match self {
            StreamView::Main => seq!['m', 'a', 'i', 'n'],
            StreamView::Video { name, .. } => seq!['v', 'i', 'd', 'e', 'o', '_'] + name,
            StreamView::Audio { name, .. } => seq!['a', 'u', 'd', 'i', 'o', '_'] + name,
            StreamView::Subtitle { name, .. } => seq!['s', 'u', 'b', 't', 'i', 't', 'l', 'e', '_']
                + name,
        }
    }

    /// File extension chosen for segments of this stream.
    pub open spec fn extension(self) -> Seq<char> {
        match self {
            StreamView::Main => seq!['t', 's'],
            StreamView::Video { .. } => seq!['t', 's'],
            StreamView::Audio { .. } => seq!['m', '4', 'a'],
            StreamView::Subtitle { .. } => seq!['v', 't', 't'],
        }
    }

    /// Name of the stream, absent for the main rendition.
    pub open spec fn name(self) -> Option<Seq<char>> {
        match self {
            StreamView::Main => Option::None,
            StreamView::Video { name, .. } => Option::Some(name),
            StreamView::Audio { name, .. } => Option::Some(name),
            StreamView::Subtitle { name, .. } => Option::Some(name),
        }
    }
}

impl Stream {
    /// Name of the stream if it has one; the main rendition has none.
    pub fn name(&self) -> (r: Option<String>)
        ensures
            opt_string_view(r) == self@.name(),
    {
        match self {
            Stream::Main => Option::None,
            Stream::Video { name, .. } => Option::Some(name.clone()),
            Stream::Audio { name, .. } => Option::Some(name.clone()),
            Stream::Subtitle { name, .. } => Option::Some(name.clone()),
        }
    }

    /// File extension for segments of this stream.
    pub fn extension(&self) -> (r: String)
        ensures
            r@ == self@.extension(),
    {
        proof {
            reveal_strlit("ts");
            reveal_strlit("m4a");
            reveal_strlit("vtt");
        }
        match self {
            Stream::Main => {
                let r = String::from_str("ts");
                proof {
                    assert(r@ =~= self@.extension());
                }
                r
            },
            Stream::Video { .. } => {
                let r = String::from_str("ts");
                proof {
                    assert(r@ =~= self@.extension());
                }
                r
            },
            Stream::Audio { .. } => {
                let r = String::from_str("m4a");
                proof {
                    assert(r@ =~= self@.extension());
                }
                r
            },
            Stream::Subtitle { .. } => {
                let r = String::from_str("vtt");
                proof {
                    assert(r@ =~= self@.extension());
                }
                r
            },
        }
    }

    /// Display name used in derived file names.
    pub fn display_name(&self) -> (r: String)
        ensures
            r@ == self@.display(),
    {
        proof {
            reveal_strlit("main");
            reveal_strlit("video_");
            reveal_strlit("audio_");
            reveal_strlit("subtitle_");
        }
        match self {
            Stream::Main => {
                let r = String::from_str("main");
                proof {
                    assert(r@ =~= self@.display());
                }
                r
            },
            Stream::Video { name, .. } => {
                let mut r = String::from_str("video_");
                r.append(name.as_str());
                proof {
                    assert(r@ =~= self@.display());
                }
                r
            },
            Stream::Audio { name, .. } => {
                let mut r = String::from_str("audio_");
                r.append(name.as_str());
                proof {
                    assert(r@ =~= self@.display());
                }
                r
            },
            Stream::Subtitle { name, .. } => {
                let mut r = String::from_str("subtitle_");
                r.append(name.as_str());
                proof {
                    assert(r@ =~= self@.display());
                }
                r
            },
        }
    }

    /// Structural equality of stream identities.
    pub fn same_stream(&self, other: &Stream) -> (r: bool)
        ensures
            r == (self@ == other@),
    {
        match (self, other) {
            (Stream::Main, Stream::Main) => true,
            (Stream::Video { name: n1, lang: l1 }, Stream::Video { name: n2, lang: l2 }) => {
                *n1 == *n2 && opt_string_eq(l1, l2)
            },
            (Stream::Audio { name: n1, lang: l1 }, Stream::Audio { name: n2, lang: l2 }) => {
                *n1 == *n2 && opt_string_eq(l1, l2)
            },
            (
                Stream::Subtitle { name: n1, lang: l1 },
                Stream::Subtitle { name: n2, lang: l2 },
            ) => *n1 == *n2 && opt_string_eq(l1, l2),
            _ => {
                proof {
                    assert(self@ != other@);
                }
                false
            },
        }
    }
}

/// Equality of optional strings by character content.
pub fn opt_string_eq(a: &Option<String>, b: &Option<String>) -> (r: bool)
    ensures
        r == (opt_string_view(*a) == opt_string_view(*b)),
{
    match (a, b) {
        (Option::None, Option::None) => true,
        (Option::Some(x), Option::Some(y)) => *x == *y,
        _ => false,
    }
}

} // verus!
