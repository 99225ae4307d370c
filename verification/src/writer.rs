//! The segment writer's bookkeeping: caching initialization bytes per stream,
//! prepending them to every sequence segment, deriving on-disk file names,
//! and recording per-stream manifests for the remux collaborator.
//!
//! The writer consumes completed downloads in whatever order the fetch
//! pipeline finishes them; file names carry the zero-padded ordering key so
//! that a lexicographic sort of names restores stream order.

use vstd::prelude::*;
use vstd::string::StringExecFns;

use crate::digits::{lemma_lex_concat, lemma_lex_irrefl, lemma_lex_prefix, lex_lt};
use crate::segment::{key_renders_fixed_width, lemma_key_id_order, Segment, SegmentKey};
use crate::stream::{Stream, StreamView};

verus! {

/// An instruction to the surrounding application: write `contents` to a fresh
/// file called `file_name` in the segments directory.
pub struct WriteCommand {
    pub file_name: String,
    pub contents: Vec<u8>,
}

/// Cached initialization bytes of `key`: the newest entry wins.
pub open spec fn cache_lookup(s: Seq<(Stream, Vec<u8>)>, key: StreamView) -> Option<Seq<u8>>
    decreases s.len(),
{
    if s.len() == 0 {
        Option::None
    } else if s.last().0@ == key {
        Option::Some(s.last().1@)
    } else {
        cache_lookup(s.drop_last(), key)
    }
}

/// The manifest of `key`: the recorded log, restricted to that stream, in
/// order.
pub open spec fn manifest_filter(
    log: Seq<(Stream, Segment, String)>,
    key: StreamView,
) -> Seq<(Segment, String)>
    decreases log.len(),
{
    if log.len() == 0 {
        Seq::empty()
    } else {
        let prefix = manifest_filter(log.drop_last(), key);
        if log.last().0@ == key {
            prefix.push((log.last().1, log.last().2))
        } else {
            prefix
        }
    }
}

/// `segment_<display>_<id>.<extension>`: the on-disk name of one persisted
/// sequence segment.
pub open spec fn spec_file_name(display: Seq<char>, key: SegmentKey, ext: Seq<char>) -> Seq<char> {
    seq!['s', 'e', 'g', 'm', 'e', 'n', 't', '_'] + display + seq!['_'] + key.spec_id() + seq!['.']
        + ext
}

/// Law: for one stream and one extension, file names sort lexicographically
/// exactly as their ordering keys sort, as long as both counters of each key
/// render in the fixed ten-digit width.
pub proof fn lemma_file_name_order(
    display: Seq<char>,
    ext: Seq<char>,
    k1: SegmentKey,
    k2: SegmentKey,
)
    requires
        key_renders_fixed_width(k1),
        key_renders_fixed_width(k2),
    ensures
        lex_lt(spec_file_name(display, k1, ext), spec_file_name(display, k2, ext)) == k1.spec_lt(
            k2,
        ),
        (spec_file_name(display, k1, ext) == spec_file_name(display, k2, ext)) == (k1 == k2),
{
    let p = seq!['s', 'e', 'g', 'm', 'e', 'n', 't', '_'] + display + seq!['_'];
    let sfx = seq!['.'] + ext;
    let id1 = k1.spec_id();
    let id2 = k2.spec_id();
    lemma_key_id_order(k1, k2);
    assert(spec_file_name(display, k1, ext) =~= p + (id1 + sfx));
    assert(spec_file_name(display, k2, ext) =~= p + (id2 + sfx));
    lemma_lex_prefix(p, id1 + sfx, id2 + sfx);
    lemma_lex_concat(id1, id2, sfx, sfx);
    lemma_lex_irrefl(sfx);
    assert(((id1 + sfx) == (id2 + sfx)) == (id1 == id2)) by {
        if id1 == id2 {
            assert(id1 + sfx =~= id2 + sfx);
        }
        if id1 + sfx == id2 + sfx {
            assert forall|i: int| 0 <= i < id1.len() implies id1[i] == id2[i] by {
                assert(id1[i] == (id1 + sfx)[i]);
                assert(id2[i] == (id2 + sfx)[i]);
            }
            assert(id1 =~= id2);
        }
    }
    assert((p + (id1 + sfx) == p + (id2 + sfx)) == ((id1 + sfx) == (id2 + sfx))) by {
        if id1 + sfx == id2 + sfx {
            assert(p + (id1 + sfx) =~= p + (id2 + sfx));
        }
        if p + (id1 + sfx) == p + (id2 + sfx) {
            assert forall|i: int| 0 <= i < (id1 + sfx).len() implies (id1 + sfx)[i] == (id2
                + sfx)[i] by {
                assert((id1 + sfx)[i] == (p + (id1 + sfx))[i + p.len()]);
                assert((id2 + sfx)[i] == (p + (id2 + sfx))[i + p.len()]);
            }
            assert(id1 + sfx =~= id2 + sfx);
        }
    }
}

/// Appends all of `src` to `dst`.
fn append_bytes(dst: &mut Vec<u8>, src: &Vec<u8>)
    ensures
        final (dst)@ == old(dst)@ + src@,
{
    let n = src.len();
    let mut i: usize = 0;
    while i < n
        invariant
            n == src@.len(),
            i <= n,
            dst@ == old(dst)@ + src@.subrange(0, i as int),
        decreases n - i,
    {
        dst.push(src[i]);
        proof {
            assert(old(dst)@ + src@.subrange(0, i as int + 1) =~= (old(dst)@ + src@.subrange(
                0,
                i as int,
            )).push(src@[i as int]));
        }
        i = i + 1;
    }
    proof {
        assert(src@.subrange(0, n as int) =~= src@);
    }
}

/// Builds the on-disk file name of one sequence segment.
fn build_file_name(stream: &Stream, key: SegmentKey, extension: &str) -> (r: String)
    ensures
        r@ == spec_file_name(stream@.display(), key, extension@),
{
    proof {
        reveal_strlit("segment_");
        reveal_strlit("_");
        reveal_strlit(".");
    }
    let mut r = String::from_str("segment_");
    let display = stream.display_name();
    r.append(display.as_str());
    r.append("_");
    let id = key.id_string();
    r.append(id.as_str());
    r.append(".");
    r.append(extension);
    proof {
        assert(r@ =~= spec_file_name(stream@.display(), key, extension@));
    }
    r
}

proof fn lemma_cache_lookup_at(s: Seq<(Stream, Vec<u8>)>, key: StreamView, k: int)
    requires
        0 <= k < s.len(),
        s[k].0@ == key,
        forall|j: int| k < j < s.len() ==> #[trigger] s[j].0@ != key,
    ensures
        cache_lookup(s, key) == Option::Some(s[k].1@),
    decreases s.len(),
{
    if k < s.len() - 1 {
        assert(s.last().0@ != key);
        assert(s.drop_last()[k] == s[k]);
        lemma_cache_lookup_at(s.drop_last(), key, k);
    }
}

proof fn lemma_cache_lookup_none(s: Seq<(Stream, Vec<u8>)>, key: StreamView)
    requires
        forall|j: int| 0 <= j < s.len() ==> #[trigger] s[j].0@ != key,
    ensures
        cache_lookup(s, key) is None,
    decreases s.len(),
{
    if s.len() > 0 {
        lemma_cache_lookup_none(s.drop_last(), key);
    }
}

/// Single consumer of completed `(stream, segment, bytes)` downloads.
pub struct SegmentWriter {
    init_cache: Vec<(Stream, Vec<u8>)>,
    log: Vec<(Stream, Segment, String)>,
}

impl SegmentWriter {
    /// Initialization bytes cached for a stream, if any arrived yet.
    pub closed spec fn cached_init(self, s: StreamView) -> Option<Seq<u8>> {
        cache_lookup(self.init_cache@, s)
    }

    /// Ordered manifest recorded so far for a stream.
    pub closed spec fn manifest_of(self, s: StreamView) -> Seq<(Segment, String)> {
        manifest_filter(self.log@, s)
    }

    /// A writer that has consumed nothing.
    pub fn new() -> (r: SegmentWriter)
        ensures
            forall|s: StreamView| #[trigger] r.cached_init(s) is None,
            forall|s: StreamView| #[trigger] r.manifest_of(s) == Seq::<(Segment, String)>::empty(),
    {
        SegmentWriter { init_cache: Vec::new(), log: Vec::new() }
    }

    /// Finds the cache entry whose bytes `cached_init` denotes.
    fn find_init(&self, stream: &Stream) -> (r: Option<usize>)
        ensures
            match r {
                Option::Some(k) => k < self.init_cache@.len() && self.init_cache@[k as int].0@
                    == stream@ && self.cached_init(stream@) == Option::Some(
                    self.init_cache@[k as int].1@,
                ),
                Option::None => self.cached_init(stream@) is None,
            },
    {
        let mut i: usize = self.init_cache.len();
        while i > 0
            invariant
                i <= self.init_cache@.len(),
                forall|j: int|
                    i <= j < self.init_cache@.len() ==> #[trigger] self.init_cache@[j].0@
                        != stream@,
            decreases i,
        {
            i = i - 1;
            let entry = &self.init_cache[i];
            if entry.0.same_stream(stream) {
                proof {
                    lemma_cache_lookup_at(self.init_cache@, stream@, i as int);
                }
                return Option::Some(i);
            }
        }
        proof {
            lemma_cache_lookup_none(self.init_cache@, stream@);
        }
        Option::None
    }

    /// Hands the recorded log over, e.g. to the remux collaborator: every
    /// consumed sequence segment with its stream and file name, in
    /// consumption order; each stream's manifest is its part of the log.
    pub fn into_log(self) -> (r: Vec<(Stream, Segment, String)>)
        ensures
            forall|s: StreamView| manifest_filter(r@, s) == self.manifest_of(s),
    {
        self.log
    }

    /// Consumes an initialization download: its bytes are cached for the
    /// stream, replacing any earlier ones; manifests are untouched.
    pub fn accept_init(&mut self, stream: Stream, bytes: Vec<u8>)
        ensures
            final (self).cached_init(stream@) == Option::Some(bytes@),
            forall|s: StreamView|
                s != stream@ ==> #[trigger] final (self).cached_init(s) == old(self).cached_init(
                    s,
                ),
            forall|s: StreamView| #[trigger] final (self).manifest_of(s) == old(self).manifest_of(
                s,
            ),
    {
        let ghost c0 = self.init_cache@;
        self.init_cache.push((stream, bytes));
        proof {
            assert(self.init_cache@.drop_last() =~= c0);
        }
    }

    /// Consumes a sequence download: prepends the stream's cached
    /// initialization bytes if any, fills the segment's format from the
    /// detected extension, derives the on-disk file name, and appends the
    /// pair to the stream's manifest.
    pub fn accept_sequence(
        &mut self,
        stream: Stream,
        segment: Segment,
        bytes: Vec<u8>,
        extension: &str,
    ) -> (r: WriteCommand)
        requires
            segment is Sequence,
        ensures
            r.contents@ == match old(self).cached_init(stream@) {
                Option::Some(init) => init + bytes@,
                Option::None => bytes@,
            },
            (match segment {
                Segment::Sequence { key, .. } => r.file_name@ == spec_file_name(
                    stream@.display(),
                    key,
                    extension@,
                ),
                _ => false,
            }),
            forall|s: StreamView| #[trigger] final (self).cached_init(s) == old(self).cached_init(
                s,
            ),
            forall|s: StreamView|
                s != stream@ ==> #[trigger] final (self).manifest_of(s) == old(self).manifest_of(
                    s,
                ),
            final (self).manifest_of(stream@).len() == old(self).manifest_of(stream@).len() + 1,
            final (self).manifest_of(stream@).drop_last() == old(self).manifest_of(stream@),
            ({
                let entry = final (self).manifest_of(stream@).last();
                &&& entry.1@ == r.file_name@
                &&& match (entry.0, segment) {
                    (
                        Segment::Sequence { url, byte_range, key, format },
                        Segment::Sequence { url: u0, byte_range: b0, key: k0, .. },
                    ) => {
                        &&& url@ == u0@
                        &&& byte_range == b0
                        &&& key == k0
                        &&& (match format {
                            Option::Some(f) => f@ == extension@,
                            Option::None => false,
                        })
                    },
                    _ => false,
                }
            }),
    {
        // Prepend cached initialization bytes: every persisted sequence
        // segment is self-contained.
        let found = self.find_init(&stream);
        let mut contents: Vec<u8> = Vec::new();
        match found {
            Option::Some(k) => {
                let entry = &self.init_cache[k];
                append_bytes(&mut contents, &entry.1);
            },
            Option::None => {},
        }
        append_bytes(&mut contents, &bytes);
        proof {
            match old(self).cached_init(stream@) {
                Option::Some(init_bytes) => {
                    assert(contents@ =~= init_bytes + bytes@);
                },
                Option::None => {
                    assert(contents@ =~= bytes@);
                },
            }
        }

        // Derive the file name from the display name, the padded key and the
        // detected extension, and fill the segment's format field.
        let (key, updated) = match segment {
            Segment::Sequence { url, byte_range, key, .. } => (
                key,
                Segment::Sequence {
                    url,
                    byte_range,
                    key,
                    format: Option::Some(String::from_str(extension)),
                },
            ),
            // Unreachable: the contract admits sequence segments only.
            Segment::Initialization { url, byte_range } => (
                SegmentKey { discon_seq: 0, seq: 0 },
                Segment::Initialization { url, byte_range },
            ),
        };
        let file_name = build_file_name(&stream, key, extension);

        // Record the manifest entry under its stream.
        let recorded = file_name.clone();
        let ghost l0 = self.log@;
        self.log.push((stream, updated, recorded));
        proof {
            assert(self.log@.drop_last() =~= l0);
        }
        WriteCommand { file_name, contents }
    }
}

} // verus!
