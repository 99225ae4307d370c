//! Plain-value model of parsed playlists, and the trusted boundary to the
//! outside playlist parser and URL resolver.
//!
//! Parsed playlists arrive as opaque values of the parser crate's types; the
//! accessors below convert them, entry by entry, into the library's own
//! types, over which all further logic is verified.

use vstd::prelude::*;

use crate::segment::ByteRange;
use crate::stream::opt_string_view;

verus! {

#[verifier::external_type_specification]
#[verifier::external_body]
pub struct ExMediaPlaylist(m3u8_rs::MediaPlaylist);

#[verifier::external_type_specification]
#[verifier::external_body]
pub struct ExMasterPlaylist(m3u8_rs::MasterPlaylist);

#[verifier::external_type_specification]
#[verifier::external_body]
pub struct ExKey(m3u8_rs::Key);

/// Header fields of a media playlist that drive one poll round.
#[derive(Clone, Copy, PartialEq, Eq, Structural, Debug)]
pub struct PlaylistHeader {
    /// Target duration of one segment, in whole seconds.
    pub target_duration: u64,
    /// Sequence number of the first listed segment.
    pub media_sequence: u64,
    /// Discontinuity generation in force at the first listed segment.
    pub discontinuity_sequence: u64,
    /// True when the playlist declares the end of the stream.
    pub end_list: bool,
}

/// Initialization-segment reference declared on a media segment.
pub struct MapEntry {
    pub uri: String,
    pub byte_range: Option<ByteRange>,
}

/// One media segment entry of a playlist, as plain values. Key metadata is
/// carried through opaquely for the encryption collaborator.
pub struct SegmentEntry {
    pub uri: String,
    pub discontinuity: bool,
    pub byte_range: Option<ByteRange>,
    pub key: Option<m3u8_rs::Key>,
    pub map: Option<MapEntry>,
}

/// A media playlist as plain values.
pub struct MediaPlaylistInfo {
    pub header: PlaylistHeader,
    pub segments: Vec<SegmentEntry>,
}

/// One variant entry of a master playlist.
pub struct VariantEntry {
    pub uri: String,
    pub bandwidth: u64,
    pub audio: Option<String>,
    pub video: Option<String>,
    pub subtitles: Option<String>,
}

/// One alternate-media entry of a master playlist. Alternates are matched to
/// a variant's group references by group id alone.
pub struct AlternativeEntry {
    pub group_id: String,
    pub name: String,
    pub language: Option<String>,
    pub uri: Option<String>,
}

/// A master playlist as plain values.
pub struct MasterPlaylistInfo {
    pub variants: Vec<VariantEntry>,
    pub alternatives: Vec<AlternativeEntry>,
}

/// Mathematical value of a `MapEntry`.
pub struct MapEntryModel {
    pub uri: Seq<char>,
    pub byte_range: Option<ByteRange>,
}

/// Mathematical value of a `SegmentEntry`.
pub struct SegmentEntryModel {
    pub uri: Seq<char>,
    pub discontinuity: bool,
    pub byte_range: Option<ByteRange>,
    pub key: Option<m3u8_rs::Key>,
    pub map: Option<MapEntryModel>,
}

/// Mathematical value of a `VariantEntry`.
pub struct VariantEntryModel {
    pub uri: Seq<char>,
    pub bandwidth: u64,
    pub audio: Option<Seq<char>>,
    pub video: Option<Seq<char>>,
    pub subtitles: Option<Seq<char>>,
}

/// Mathematical value of an `AlternativeEntry`.
pub struct AlternativeEntryModel {
    pub group_id: Seq<char>,
    pub name: Seq<char>,
    pub language: Option<Seq<char>>,
    pub uri: Option<Seq<char>>,
}

impl MapEntry {
    pub open spec fn model(self) -> MapEntryModel {
        MapEntryModel { uri: self.uri@, byte_range: self.byte_range }
    }
}

impl SegmentEntry {
    pub open spec fn model(self) -> SegmentEntryModel {
        SegmentEntryModel {
            uri: self.uri@,
            discontinuity: self.discontinuity,
            byte_range: self.byte_range,
            key: self.key,
            map: match self.map {
                Option::None => Option::None,
                Option::Some(m) => Option::Some(m.model()),
            },
        }
    }
}

impl VariantEntry {
    pub open spec fn model(self) -> VariantEntryModel {
        VariantEntryModel {
            uri: self.uri@,
            bandwidth: self.bandwidth,
            audio: opt_string_view(self.audio),
            video: opt_string_view(self.video),
            subtitles: opt_string_view(self.subtitles),
        }
    }
}

impl AlternativeEntry {
    pub open spec fn model(self) -> AlternativeEntryModel {
        AlternativeEntryModel {
            group_id: self.group_id@,
            name: self.name@,
            language: opt_string_view(self.language),
            uri: opt_string_view(self.uri),
        }
    }
}

impl MediaPlaylistInfo {
    pub open spec fn models(self) -> Seq<SegmentEntryModel> {
        self.segments@.map_values(|e: SegmentEntry| e.model())
    }
}

impl MasterPlaylistInfo {
    pub open spec fn variant_models(self) -> Seq<VariantEntryModel> {
        self.variants@.map_values(|e: VariantEntry| e.model())
    }

    pub open spec fn alternative_models(self) -> Seq<AlternativeEntryModel> {
        self.alternatives@.map_values(|e: AlternativeEntry| e.model())
    }
}

/// Parse of entry-playlist text, as mathematical values.
pub enum ParsedPlaylistModel {
    Master { variants: Seq<VariantEntryModel>, alternatives: Seq<AlternativeEntryModel> },
    Media { header: PlaylistHeader, segments: Seq<SegmentEntryModel> },
}

/// Contents of an opaque media playlist: its header fields.
pub uninterp spec fn media_header_of(p: m3u8_rs::MediaPlaylist) -> PlaylistHeader;

/// Contents of an opaque media playlist: its segment entries, in order.
pub uninterp spec fn media_segments_of(p: m3u8_rs::MediaPlaylist) -> Seq<SegmentEntryModel>;

/// Contents of an opaque master playlist: its variant entries, in order.
pub uninterp spec fn master_variants_of(p: m3u8_rs::MasterPlaylist) -> Seq<VariantEntryModel>;

/// Contents of an opaque master playlist: its alternate-media entries, in order.
pub uninterp spec fn master_alternatives_of(p: m3u8_rs::MasterPlaylist) -> Seq<
    AlternativeEntryModel,
>;

/// What the entry-playlist parser returns on given text: a classified
/// playlist as mathematical values (the key metadata of a segment entry is
/// carried opaquely), or nothing when the text parses as neither kind.
pub uninterp spec fn parsed_playlist_model(bytes: Seq<u8>) -> Option<ParsedPlaylistModel>;

/// What the media-playlist parser returns on given text: header fields and
/// segment entries, or nothing when the text does not parse.
pub uninterp spec fn parsed_media_model(bytes: Seq<u8>) -> Option<
    (PlaylistHeader, Seq<SegmentEntryModel>),
>;

/// A fetched entry playlist, after classification.
enum ParsedPlaylist {
    Master(m3u8_rs::MasterPlaylist),
    Media(m3u8_rs::MediaPlaylist),
}

/// Relies on m3u8_rs::parse_playlist_res: parses playlist text as a master
/// playlist or a media playlist; anything unparsable is an error. The result
/// depends on the text alone.
#[verifier::external_body]
fn parse_playlist_raw(bytes: &[u8]) -> (r: Option<ParsedPlaylist>)
    ensures
        match r {
            Option::Some(ParsedPlaylist::Master(p)) => parsed_playlist_model(bytes@)
                == Option::Some(
                ParsedPlaylistModel::Master {
                    variants: master_variants_of(p),
                    alternatives: master_alternatives_of(p),
                },
            ),
            Option::Some(ParsedPlaylist::Media(p)) => parsed_playlist_model(bytes@)
                == Option::Some(
                ParsedPlaylistModel::Media {
                    header: media_header_of(p),
                    segments: media_segments_of(p),
                },
            ),
            Option::None => parsed_playlist_model(bytes@) is None,
        },
{
    match m3u8_rs::parse_playlist_res(bytes) {
        Ok(m3u8_rs::Playlist::MasterPlaylist(p)) => Some(ParsedPlaylist::Master(p)),
        Ok(m3u8_rs::Playlist::MediaPlaylist(p)) => Some(ParsedPlaylist::Media(p)),
        Err(_) => None,
    }
}

/// Relies on m3u8_rs::parse_media_playlist_res: parses playlist text as a
/// media playlist. The result depends on the text alone.
#[verifier::external_body]
fn parse_media_raw(bytes: &[u8]) -> (r: Option<m3u8_rs::MediaPlaylist>)
    ensures
        match r {
            Option::Some(p) => parsed_media_model(bytes@) == Option::Some(
                (media_header_of(p), media_segments_of(p)),
            ),
            Option::None => parsed_media_model(bytes@) is None,
        },
{
    m3u8_rs::parse_media_playlist_res(bytes).ok()
}

/// An entry playlist, parsed and classified, as plain values.
pub enum PlaylistInfoKind {
    Master(MasterPlaylistInfo),
    Media(MediaPlaylistInfo),
}

/// Parses entry-playlist text as either playlist kind and converts it to the
/// library's plain-value form.
pub fn parse_playlist_info(bytes: &[u8]) -> (r: Option<PlaylistInfoKind>)
    ensures
        match r {
            Option::Some(PlaylistInfoKind::Master(m)) => parsed_playlist_model(bytes@)
                == Option::Some(
                ParsedPlaylistModel::Master {
                    variants: m.variant_models(),
                    alternatives: m.alternative_models(),
                },
            ),
            Option::Some(PlaylistInfoKind::Media(info)) => parsed_playlist_model(bytes@)
                == Option::Some(
                ParsedPlaylistModel::Media { header: info.header, segments: info.models() },
            ),
            Option::None => parsed_playlist_model(bytes@) is None,
        },
{
    match parse_playlist_raw(bytes) {
        Option::Some(ParsedPlaylist::Master(p)) => Option::Some(
            PlaylistInfoKind::Master(master_info(&p)),
        ),
        Option::Some(ParsedPlaylist::Media(p)) => Option::Some(
            PlaylistInfoKind::Media(media_info(&p)),
        ),
        Option::None => Option::None,
    }
}

/// Parses media-playlist text and converts it to the library's plain-value
/// form.
pub fn parse_media_playlist_info(bytes: &[u8]) -> (r: Option<MediaPlaylistInfo>)
    ensures
        match r {
            Option::Some(info) => parsed_media_model(bytes@) == Option::Some(
                (info.header, info.models()),
            ),
            Option::None => parsed_media_model(bytes@) is None,
        },
{
    match parse_media_raw(bytes) {
        Option::Some(p) => Option::Some(media_info(&p)),
        Option::None => Option::None,
    }
}

/// Relies on the fields of m3u8_rs::MediaPlaylist: target_duration,
/// media_sequence, discontinuity_sequence and end_list, copied out.
#[verifier::external_body]
fn media_header(p: &m3u8_rs::MediaPlaylist) -> (r: PlaylistHeader)
    ensures
        r == media_header_of(*p),
{
    PlaylistHeader {
        target_duration: p.target_duration,
        media_sequence: p.media_sequence,
        discontinuity_sequence: p.discontinuity_sequence,
        end_list: p.end_list,
    }
}

/// Relies on Vec::len of m3u8_rs::MediaPlaylist::segments.
#[verifier::external_body]
fn media_segment_count(p: &m3u8_rs::MediaPlaylist) -> (r: usize)
    ensures
        r == media_segments_of(*p).len(),
{
    p.segments.len()
}

/// Relies on the fields of m3u8_rs::MediaSegment: uri, discontinuity,
/// byte_range, key and map, copied out of entry `i`.
#[verifier::external_body]
fn media_segment_entry(p: &m3u8_rs::MediaPlaylist, i: usize) -> (r: Option<SegmentEntry>)
    ensures
        match r {
            Option::Some(e) => i < media_segments_of(*p).len() && e.model() == media_segments_of(
                *p,
            )[i as int],
            Option::None => i >= media_segments_of(*p).len(),
        },
{
    p.segments.get(i).map(|s| SegmentEntry {
        uri: s.uri.clone(),
        discontinuity: s.discontinuity,
        byte_range: s.byte_range.as_ref().map(|b| ByteRange { length: b.length, offset: b.offset }),
        key: s.key.clone(),
        map: s.map.as_ref().map(|m| MapEntry {
            uri: m.uri.clone(),
            byte_range: m.byte_range.as_ref().map(
                |b| ByteRange { length: b.length, offset: b.offset },
            ),
        }),
    })
}

/// Relies on Vec::len of m3u8_rs::MasterPlaylist::variants.
#[verifier::external_body]
fn master_variant_count(p: &m3u8_rs::MasterPlaylist) -> (r: usize)
    ensures
        r == master_variants_of(*p).len(),
{
    p.variants.len()
}

/// Relies on the fields of m3u8_rs::VariantStream: uri, bandwidth and the
/// three alternate-media group identifiers, copied out of entry `i`.
#[verifier::external_body]
fn master_variant(p: &m3u8_rs::MasterPlaylist, i: usize) -> (r: Option<VariantEntry>)
    ensures
        match r {
            Option::Some(e) => i < master_variants_of(*p).len() && e.model() == master_variants_of(
                *p,
            )[i as int],
            Option::None => i >= master_variants_of(*p).len(),
        },
{
    p.variants.get(i).map(|v| VariantEntry {
        uri: v.uri.clone(),
        bandwidth: v.bandwidth,
        audio: v.audio.clone(),
        video: v.video.clone(),
        subtitles: v.subtitles.clone(),
    })
}

/// Relies on Vec::len of m3u8_rs::MasterPlaylist::alternatives.
#[verifier::external_body]
fn master_alternative_count(p: &m3u8_rs::MasterPlaylist) -> (r: usize)
    ensures
        r == master_alternatives_of(*p).len(),
{
    p.alternatives.len()
}

/// Relies on the fields of m3u8_rs::AlternativeMedia: group_id, name,
/// language and uri, copied out of entry `i`.
#[verifier::external_body]
fn master_alternative(p: &m3u8_rs::MasterPlaylist, i: usize) -> (r: Option<AlternativeEntry>)
    ensures
        match r {
            Option::Some(e) => i < master_alternatives_of(*p).len() && e.model()
                == master_alternatives_of(*p)[i as int],
            Option::None => i >= master_alternatives_of(*p).len(),
        },
{
    p.alternatives.get(i).map(|a| AlternativeEntry {
        group_id: a.group_id.clone(),
        name: a.name.clone(),
        language: a.language.clone(),
        uri: a.uri.clone(),
    })
}

/// Relies on the derived Clone of m3u8_rs::Key: a field-wise copy equal to
/// its source.
#[verifier::external_body]
pub(crate) fn clone_key(k: &m3u8_rs::Key) -> (r: m3u8_rs::Key)
    ensures
        r == *k,
{
    k.clone()
}

/// Converts an opaque media playlist into the library's plain-value form.
fn media_info(p: &m3u8_rs::MediaPlaylist) -> (r: MediaPlaylistInfo)
    ensures
        r.header == media_header_of(*p),
        r.models() == media_segments_of(*p),
{
    let header = media_header(p);
    let count = media_segment_count(p);
    let mut segments: Vec<SegmentEntry> = Vec::new();
    let mut i: usize = 0;
    while i < count
        invariant
            i <= count,
            count == media_segments_of(*p).len(),
            segments@.len() == i,
            forall|j: int| 0 <= j < i ==> segments@[j].model() == media_segments_of(*p)[j],
        decreases count - i,
    {
        let e = media_segment_entry(p, i);
        match e {
            Option::Some(entry) => {
                segments.push(entry);
            },
            Option::None => {
                proof {
                    assert(false);
                }
            },
        }
        i = i + 1;
    }
    let r = MediaPlaylistInfo { header, segments };
    proof {
        assert(r.models() =~= media_segments_of(*p));
    }
    r
}

/// Converts an opaque master playlist into the library's plain-value form.
fn master_info(p: &m3u8_rs::MasterPlaylist) -> (r: MasterPlaylistInfo)
    ensures
        r.variants@.map_values(|e: VariantEntry| e.model()) == master_variants_of(*p),
        r.alternatives@.map_values(|e: AlternativeEntry| e.model()) == master_alternatives_of(*p),
{
    let vcount = master_variant_count(p);
    let mut variants: Vec<VariantEntry> = Vec::new();
    let mut i: usize = 0;
    while i < vcount
        invariant
            i <= vcount,
            vcount == master_variants_of(*p).len(),
            variants@.len() == i,
            forall|j: int| 0 <= j < i ==> variants@[j].model() == master_variants_of(*p)[j],
        decreases vcount - i,
    {
        match master_variant(p, i) {
            Option::Some(entry) => {
                variants.push(entry);
            },
            Option::None => {
                proof {
                    assert(false);
                }
            },
        }
        i = i + 1;
    }
    let acount = master_alternative_count(p);
    let mut alternatives: Vec<AlternativeEntry> = Vec::new();
    let mut k: usize = 0;
    while k < acount
        invariant
            k <= acount,
            acount == master_alternatives_of(*p).len(),
            alternatives@.len() == k,
            forall|j: int| 0 <= j < k ==> alternatives@[j].model() == master_alternatives_of(*p)[j],
        decreases acount - k,
    {
        match master_alternative(p, k) {
            Option::Some(entry) => {
                alternatives.push(entry);
            },
            Option::None => {
                proof {
                    assert(false);
                }
            },
        }
        k = k + 1;
    }
    let r = MasterPlaylistInfo { variants, alternatives };
    proof {
        assert(r.variants@.map_values(|e: VariantEntry| e.model()) =~= master_variants_of(*p));
        assert(r.alternatives@.map_values(|e: AlternativeEntry| e.model()) =~= master_alternatives_of(
            *p,
        ));
    }
    r
}

} // verus!
