//! Playlist resolution: choosing the best variant of a variant index and
//! building the map from stream identity to absolute playlist URL.
//!
//! The surrounding application fetches the entry playlist once and parses it;
//! the selection and registration rules below are verified.

use vstd::prelude::*;
use vstd::string::StringExecFns;

use crate::errors::PlaylistError;
use crate::playlist::{AlternativeEntry, AlternativeEntryModel, MasterPlaylistInfo, VariantEntry,
    VariantEntryModel};
use crate::stream::{opt_string_view, Stream, StreamView};
use crate::urls::{join_url, joined_url};

verus! {

/// The map from stream identity to absolute media-playlist URL, built once
/// during resolution and read-only afterwards.
pub struct StreamMap {
    pub entries: Vec<(Stream, String)>,
}

impl StreamMap {
    /// Mathematical value: the registered pairs, in registration order.
    pub open spec fn model(self) -> Seq<(StreamView, Seq<char>)> {
        self.entries@.map_values(|e: (Stream, String)| (e.0@, e.1@))
    }

    /// Number of registered streams.
    pub fn len(&self) -> (r: usize)
        ensures
            r == self.model().len(),
    {
        self.entries.len()
    }
}

/// Index of the variant with the numerically largest bandwidth among the
/// first `n`, the earliest such winning ties.
pub open spec fn best_variant(vs: Seq<VariantEntryModel>, n: int) -> int
    decreases n,
{
    if n <= 1 {
        0
    } else {
        let b = best_variant(vs, n - 1);
        if vs[n - 1].bandwidth > vs[b].bandwidth {
            n - 1
        } else {
            b
        }
    }
}

pub proof fn lemma_best_variant_bounds(vs: Seq<VariantEntryModel>, n: int)
    requires
        n >= 1,
    ensures
        0 <= best_variant(vs, n) < n,
    decreases n,
{
    if n > 1 {
        lemma_best_variant_bounds(vs, n - 1);
    }
}

/// Law: the selected variant carries the maximal bandwidth, and every earlier
/// variant carries strictly less — ties go to the first in source order.
pub proof fn lemma_best_variant_is_max(vs: Seq<VariantEntryModel>, n: int)
    requires
        n >= 1,
        n <= vs.len(),
    ensures
        0 <= best_variant(vs, n) < n,
        forall|j: int| 0 <= j < n ==> #[trigger] vs[j].bandwidth <= vs[best_variant(vs, n)].bandwidth,
        forall|j: int|
            0 <= j < best_variant(vs, n) ==> #[trigger] vs[j].bandwidth < vs[best_variant(
                vs,
                n,
            )].bandwidth,
    decreases n,
{
    if n > 1 {
        lemma_best_variant_is_max(vs, n - 1);
    }
}

/// Selects the variant to capture: the first one of maximal bandwidth, or
/// nothing when the variant index declares no variants.
pub fn select_best_variant(variants: &Vec<VariantEntry>) -> (r: Option<usize>)
    ensures
        ({
            let vs = variants@.map_values(|v: VariantEntry| v.model());
            match r {
                Option::Some(k) => variants@.len() > 0 && k == best_variant(
                    vs,
                    vs.len() as int,
                ),
                Option::None => variants@.len() == 0,
            }
        }),
{
    let ghost vs = variants@.map_values(|v: VariantEntry| v.model());
    let n = variants.len();
    if n == 0 {
        return Option::None;
    }
    let mut best: usize = 0;
    let mut i: usize = 1;
    while i < n
        invariant
            n == variants@.len(),
            vs == variants@.map_values(|v: VariantEntry| v.model()),
            1 <= i <= n,
            best == best_variant(vs, i as int),
            best < i,
        decreases n - i,
    {
        proof {
            lemma_best_variant_bounds(vs, i as int);
        }
        if variants[i].bandwidth > variants[best].bandwidth {
            best = i;
        }
        i = i + 1;
    }
    Option::Some(best)
}

/// The stream identity registered for one alternate entry of a group kind.
#[derive(Clone, Copy, PartialEq, Eq, Structural, Debug)]
pub enum GroupRole {
    Audio,
    Video,
    Subtitle,
}

/// Stream identity of an alternate entry under a group role.
pub open spec fn role_stream(role: GroupRole, a: AlternativeEntryModel) -> StreamView {
    match role {
        GroupRole::Audio => StreamView::Audio { name: a.name, lang: a.language },
        GroupRole::Video => StreamView::Video { name: a.name, lang: a.language },
        GroupRole::Subtitle => StreamView::Subtitle { name: a.name, lang: a.language },
    }
}

/// An alternate entry belongs to the referenced group and has a URI.
pub open spec fn alt_selected(a: AlternativeEntryModel, group: Option<Seq<char>>) -> bool {
    match (group, a.uri) {
        (Option::Some(g), Option::Some(_)) => a.group_id == g,
        _ => false,
    }
}

/// URI of a selected alternate entry.
pub open spec fn alt_uri(a: AlternativeEntryModel) -> Seq<char> {
    match a.uri {
        Option::Some(u) => u,
        Option::None => Seq::empty(),
    }
}

/// Registered pair of a selected alternate entry (empty URL when the join
/// fails, in which case resolution errors instead of registering).
pub open spec fn alt_pair(base: Seq<char>, role: GroupRole, a: AlternativeEntryModel) -> (
    StreamView,
    Seq<char>,
) {
    (
        role_stream(role, a),
        match joined_url(base, alt_uri(a)) {
            Option::Some(u) => u,
            Option::None => Seq::empty(),
        },
    )
}

/// The pairs one group reference registers: every selected alternate among
/// the first `n`, in source order.
pub open spec fn group_pairs(
    base: Seq<char>,
    alts: Seq<AlternativeEntryModel>,
    group: Option<Seq<char>>,
    role: GroupRole,
    n: int,
) -> Seq<(StreamView, Seq<char>)>
    decreases n,
{
    if n <= 0 {
        Seq::empty()
    } else {
        let prefix = group_pairs(base, alts, group, role, n - 1);
        if alt_selected(alts[n - 1], group) {
            prefix.push(alt_pair(base, role, alts[n - 1]))
        } else {
            prefix
        }
    }
}

/// Some URI that resolution must join fails against `base`: the chosen
/// variant's own URI, or the URI of a selected alternate of one of its three
/// group references.
pub open spec fn some_join_fails(base: Seq<char>, m: MasterPlaylistInfo) -> bool {
    let vs = m.variants@.map_values(|v: VariantEntry| v.model());
    let alts = m.alternatives@.map_values(|a: AlternativeEntry| a.model());
    let best = vs[best_variant(vs, vs.len() as int)];
    joined_url(base, best.uri) is None || some_alt_fails(
        base,
        alts,
        best.audio,
        best.video,
        best.subtitles,
    )
}

/// Some selected alternate of one of the three group references has a URI
/// that does not resolve.
pub open spec fn some_alt_fails(
    base: Seq<char>,
    alts: Seq<AlternativeEntryModel>,
    g1: Option<Seq<char>>,
    g2: Option<Seq<char>>,
    g3: Option<Seq<char>>,
) -> bool {
    exists|j: int|
        #![trigger alt_group_join_fails(base, alts[j], g1)]
        #![trigger alt_group_join_fails(base, alts[j], g2)]
        #![trigger alt_group_join_fails(base, alts[j], g3)]
        0 <= j < alts.len() && (alt_group_join_fails(base, alts[j], g1) || alt_group_join_fails(
            base,
            alts[j],
            g2,
        ) || alt_group_join_fails(base, alts[j], g3))
}

/// A selected alternate of `group` whose URI does not resolve.
pub open spec fn alt_group_join_fails(
    base: Seq<char>,
    a: AlternativeEntryModel,
    group: Option<Seq<char>>,
) -> bool {
    alt_selected(a, group) && joined_url(base, alt_uri(a)) is None
}

/// Registers every alternate of one group reference, in source order.
fn add_group(
    entries: &mut Vec<(Stream, String)>,
    alternatives: &Vec<AlternativeEntry>,
    group: &Option<String>,
    role: GroupRole,
    base: &str,
) -> (r: Result<(), PlaylistError>)
    ensures
        ({
            let alts = alternatives@.map_values(|a: AlternativeEntry| a.model());
            match r {
                Result::Ok(()) => final (entries)@.map_values(|e: (Stream, String)| (e.0@, e.1@))
                    == old(entries)@.map_values(|e: (Stream, String)| (e.0@, e.1@)) + group_pairs(
                    base@,
                    alts,
                    opt_string_view(*group),
                    role,
                    alts.len() as int,
                ) && !(exists|j: int|
                    0 <= j < alts.len() && #[trigger] alt_group_join_fails(
                        base@,
                        alts[j],
                        opt_string_view(*group),
                    )),
                Result::Err(PlaylistError::InvalidUri { uri }) => exists|j: int|
                    0 <= j < alts.len() && #[trigger] alt_group_join_fails(
                        base@,
                        alts[j],
                        opt_string_view(*group),
                    ) && alts[j].uri == Option::Some(uri@),
                Result::Err(_) => false,
            }
        }),
{
    let ghost alts = alternatives@.map_values(|a: AlternativeEntry| a.model());
    let ghost e0 = old(entries)@.map_values(|e: (Stream, String)| (e.0@, e.1@));
    let g: &String = match group {
        Option::Some(g) => g,
        Option::None => {
            proof {
                lemma_group_pairs_no_group(base@, alts, role, alts.len() as int);
            }
            return Result::Ok(());
        },
    };
    let n = alternatives.len();
    let mut i: usize = 0;
    while i < n
        invariant
            n == alternatives@.len(),
            alts == alternatives@.map_values(|a: AlternativeEntry| a.model()),
            opt_string_view(*group) == Option::Some(g@),
            e0 == old(entries)@.map_values(|e: (Stream, String)| (e.0@, e.1@)),
            i <= n,
            entries@.map_values(|e: (Stream, String)| (e.0@, e.1@)) == e0 + group_pairs(
                base@,
                alts,
                Option::Some(g@),
                role,
                i as int,
            ),
            forall|j: int|
                0 <= j < i as int ==> !(#[trigger] alt_group_join_fails(
                    base@,
                    alts[j],
                    Option::Some(g@),
                )),
        decreases n - i,
    {
        let a = &alternatives[i];
        proof {
            assert(a.model() == alts[i as int]);
        }
        let selected_uri: Option<&String> = match &a.uri {
            Option::Some(u) => if a.group_id == *g {
                Option::Some(u)
            } else {
                Option::None
            },
            Option::None => Option::None,
        };
        if let Option::Some(uri) = selected_uri {
            match join_url(base, uri.as_str()) {
                Option::None => {
                    proof {
                        assert(alt_selected(alts[i as int], Option::Some(g@)));
                        assert(alt_group_join_fails(base@, alts[i as int], Option::Some(g@)));
                        assert(alts[i as int].uri == Option::Some(uri@));
                    }
                    return Result::Err(PlaylistError::InvalidUri { uri: uri.clone() });
                },
                Option::Some(joined) => {
                    let stream = match role {
                        GroupRole::Audio => Stream::Audio {
                            name: a.name.clone(),
                            lang: clone_opt_string(&a.language),
                        },
                        GroupRole::Video => Stream::Video {
                            name: a.name.clone(),
                            lang: clone_opt_string(&a.language),
                        },
                        GroupRole::Subtitle => Stream::Subtitle {
                            name: a.name.clone(),
                            lang: clone_opt_string(&a.language),
                        },
                    };
                    let ghost before = entries@;
                    entries.push((stream, joined));
                    proof {
                        assert(entries@.map_values(|e: (Stream, String)| (e.0@, e.1@)) =~= before.map_values(
                            |e: (Stream, String)| (e.0@, e.1@),
                        ).push((stream@, joined@)));
                        assert(entries@.map_values(|e: (Stream, String)| (e.0@, e.1@)) =~= e0
                            + group_pairs(base@, alts, Option::Some(g@), role, i as int + 1));
                    }
                },
            }
        } else {
            proof {
                assert(group_pairs(base@, alts, Option::Some(g@), role, i as int + 1)
                    =~= group_pairs(base@, alts, Option::Some(g@), role, i as int));
            }
        }
        i = i + 1;
    }
    Result::Ok(())
}

proof fn lemma_group_pairs_no_group(
    base: Seq<char>,
    alts: Seq<AlternativeEntryModel>,
    role: GroupRole,
    n: int,
)
    ensures
        group_pairs(base, alts, Option::None, role, n) == Seq::<(StreamView, Seq<char>)>::empty(),
    decreases n,
{
    if n > 0 {
        lemma_group_pairs_no_group(base, alts, role, n - 1);
    }
}

/// Builds the stream map of a variant index: the best variant is registered
/// as the main rendition, then every alternate of that variant's audio, video
/// and subtitle group references, each URI resolved against `base`. Fails
/// when no variants are declared, or when a URI does not resolve.
pub fn build_stream_map(master: &MasterPlaylistInfo, base: &str) -> (r: Result<
    StreamMap,
    PlaylistError,
>)
    ensures
        ({
            let vs = master.variants@.map_values(|v: VariantEntry| v.model());
            let alts = master.alternatives@.map_values(|a: AlternativeEntry| a.model());
            let best = vs[best_variant(vs, vs.len() as int)];
            match r {
                Result::Ok(m) => vs.len() > 0 && !some_join_fails(base@, *master) && m.model()
                    == seq![
                    (
                        StreamView::Main,
                        match joined_url(base@, best.uri) {
                            Option::Some(u) => u,
                            Option::None => Seq::empty(),
                        },
                    ),
                ] + group_pairs(base@, alts, best.audio, GroupRole::Audio, alts.len() as int)
                    + group_pairs(base@, alts, best.video, GroupRole::Video, alts.len() as int)
                    + group_pairs(
                    base@,
                    alts,
                    best.subtitles,
                    GroupRole::Subtitle,
                    alts.len() as int,
                ),
                Result::Err(PlaylistError::NoVariants) => vs.len() == 0,
                Result::Err(PlaylistError::InvalidUri { .. }) => vs.len() > 0 && some_join_fails(
                    base@,
                    *master,
                ),
                Result::Err(_) => false,
            }
        }),
{
    let ghost vs = master.variants@.map_values(|v: VariantEntry| v.model());
    let ghost alts = master.alternatives@.map_values(|a: AlternativeEntry| a.model());
    let k = match select_best_variant(&master.variants) {
        Option::Some(k) => k,
        Option::None => {
            return Result::Err(PlaylistError::NoVariants);
        },
    };
    proof {
        lemma_best_variant_bounds(vs, vs.len() as int);
    }
    let best = &master.variants[k];
    proof {
        assert(best.model() == vs[k as int]);
    }
    let main_url = match join_url(base, best.uri.as_str()) {
        Option::Some(u) => u,
        Option::None => {
            return Result::Err(PlaylistError::InvalidUri { uri: best.uri.clone() });
        },
    };
    let mut entries: Vec<(Stream, String)> = Vec::new();
    entries.push((Stream::Main, main_url));
    proof {
        assert(entries@.map_values(|e: (Stream, String)| (e.0@, e.1@)) =~= seq![
            (
                StreamView::Main,
                match joined_url(base@, vs[k as int].uri) {
                    Option::Some(u) => u,
                    Option::None => Seq::empty(),
                },
            ),
        ]);
    }
    match add_group(&mut entries, &master.alternatives, &best.audio, GroupRole::Audio, base) {
        Result::Ok(()) => {},
        Result::Err(e) => {
            proof {
                lemma_fail_in_group(base@, *master, alts, vs[k as int].audio);
            }
            return Result::Err(e);
        },
    }
    match add_group(&mut entries, &master.alternatives, &best.video, GroupRole::Video, base) {
        Result::Ok(()) => {},
        Result::Err(e) => {
            proof {
                lemma_fail_in_group(base@, *master, alts, vs[k as int].video);
            }
            return Result::Err(e);
        },
    }
    match add_group(
        &mut entries,
        &master.alternatives,
        &best.subtitles,
        GroupRole::Subtitle,
        base,
    ) {
        Result::Ok(()) => {},
        Result::Err(e) => {
            proof {
                lemma_fail_in_group(base@, *master, alts, vs[k as int].subtitles);
            }
            return Result::Err(e);
        },
    }
    proof {
        if some_join_fails(base@, *master) {
            assert(some_alt_fails(
                base@,
                alts,
                vs[k as int].audio,
                vs[k as int].video,
                vs[k as int].subtitles,
            ));
            let j = choose|j: int|
                0 <= j < alts.len() && (#[trigger] alt_group_join_fails(
                    base@,
                    alts[j],
                    vs[k as int].audio,
                ) || alt_group_join_fails(base@, alts[j], vs[k as int].video)
                    || alt_group_join_fails(base@, alts[j], vs[k as int].subtitles));
            assert(false);
        }
    }
    Result::Ok(StreamMap { entries })
}

/// A failing alternate join under any group reference of the chosen variant
/// makes the whole resolution fail.
proof fn lemma_fail_in_group(
    base: Seq<char>,
    m: MasterPlaylistInfo,
    alts: Seq<AlternativeEntryModel>,
    group: Option<Seq<char>>,
)
    requires
        m.variants@.len() > 0,
        alts == m.alternatives@.map_values(|a: AlternativeEntry| a.model()),
        ({
            let vs = m.variants@.map_values(|v: VariantEntry| v.model());
            let best = vs[best_variant(vs, vs.len() as int)];
            (group == best.audio || group == best.video || group == best.subtitles)
        }),
        exists|j: int|
            0 <= j < alts.len() && #[trigger] alt_group_join_fails(base, alts[j], group),
    ensures
        some_join_fails(base, m),
{
    let vs = m.variants@.map_values(|v: VariantEntry| v.model());
    let best = vs[best_variant(vs, vs.len() as int)];
    let j = choose|j: int|
        0 <= j < alts.len() && #[trigger] alt_group_join_fails(base, alts[j], group);
    if group == best.audio {
        assert(alt_group_join_fails(base, alts[j], best.audio));
        assert(0 <= j < alts.len() && (alt_group_join_fails(base, alts[j], best.audio)
            || alt_group_join_fails(base, alts[j], best.video) || alt_group_join_fails(
            base,
            alts[j],
            best.subtitles,
        )));
    } else if group == best.video {
        assert(alt_group_join_fails(base, alts[j], best.video));
        assert(0 <= j < alts.len() && (alt_group_join_fails(base, alts[j], best.audio)
            || alt_group_join_fails(base, alts[j], best.video) || alt_group_join_fails(
            base,
            alts[j],
            best.subtitles,
        )));
    } else {
        assert(alt_group_join_fails(base, alts[j], best.subtitles));
        assert(0 <= j < alts.len() && (alt_group_join_fails(base, alts[j], best.audio)
            || alt_group_join_fails(base, alts[j], best.video) || alt_group_join_fails(
            base,
            alts[j],
            best.subtitles,
        )));
    }
    assert(some_alt_fails(base, alts, best.audio, best.video, best.subtitles));
}

/// Clones an optional string.
fn clone_opt_string(o: &Option<String>) -> (r: Option<String>)
    ensures
        opt_string_view(r) == opt_string_view(*o),
{
    match o {
        Option::Some(s) => Option::Some(s.clone()),
        Option::None => Option::None,
    }
}

} // verus!
