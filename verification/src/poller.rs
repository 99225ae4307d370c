//! The per-stream playlist poller's decision core: given one freshly parsed
//! media playlist and the poller's state, compute exactly which fetch
//! requests to emit and the successor state.
//!
//! The surrounding application owns the loop: it fetches playlist text,
//! parses it, calls [`poll_media_playlist`], performs the emissions, and
//! sleeps until the next round or until cancellation.

use vstd::prelude::*;

use crate::errors::PollError;
use crate::playlist::{clone_key, MediaPlaylistInfo, PlaylistHeader, SegmentEntryModel};
use crate::segment::{Segment, SegmentKey};
use crate::urls::{join_url, joined_url};

verus! {

/// Per-stream poller state, carried from one poll round to the next.
pub struct PollerState {
    /// Ordering key of the last emitted sequence segment, if any.
    pub last_key: Option<SegmentKey>,
    /// Whether the stream's initialization segment request was already emitted.
    pub init_sent: bool,
    /// Key metadata in force, carried opaquely for the encryption collaborator.
    pub current_key: Option<m3u8_rs::Key>,
}

impl PollerState {
    /// State of a poller that has seen nothing yet.
    pub fn start() -> (r: PollerState)
        ensures
            r.last_key is None,
            !r.init_sent,
            r.current_key is None,
    {
        PollerState { last_key: Option::None, init_sent: false, current_key: Option::None }
    }
}

/// One fetch request emitted by a poll round: a segment identity plus the key
/// metadata under which its bytes must be decrypted (none for initialization
/// segments and clear streams).
pub struct Emission {
    pub segment: Segment,
    pub key: Option<m3u8_rs::Key>,
}

/// Result of one poll round: the emitted requests in order, the successor
/// state, and what the round found.
pub struct PollRound {
    pub emissions: Vec<Emission>,
    pub state: PollerState,
    /// True when at least one new sequence segment was found this round.
    pub found_new: bool,
    /// True when the playlist declared the end of the stream.
    pub ended: bool,
    /// A malformed URI stopped the walk, after the emissions already made.
    pub error: Option<PollError>,
}

/// Number of discontinuity marks among the first `n` entries.
pub open spec fn discon_count(segs: Seq<SegmentEntryModel>, n: int) -> int
    decreases n,
{
    if n <= 0 {
        0
    } else {
        discon_count(segs, n - 1) + if segs[n - 1].discontinuity {
            1int
        } else {
            0int
        }
    }
}

/// Discontinuity generation of entry `i`.
pub open spec fn entry_discon(h: PlaylistHeader, segs: Seq<SegmentEntryModel>, i: int) -> int {
    h.discontinuity_sequence + discon_count(segs, i + 1)
}

/// Sequence number of entry `i`.
pub open spec fn entry_seq(h: PlaylistHeader, i: int) -> int {
    h.media_sequence + i
}

/// Whether the key `(d, s)` comes strictly after `last`.
pub open spec fn newer_than(last: Option<SegmentKey>, d: int, s: int) -> bool {
    match last {
        Option::None => true,
        Option::Some(k) => (k.discon_seq as int) < d || ((k.discon_seq as int) == d && (
        k.seq as int) < s),
    }
}

/// Entry `i` is new: its ordering key comes after everything emitted before
/// this round.
pub open spec fn accepted(
    h: PlaylistHeader,
    segs: Seq<SegmentEntryModel>,
    last: Option<SegmentKey>,
    i: int,
) -> bool {
    0 <= i < segs.len() && newer_than(last, entry_discon(h, segs, i), entry_seq(h, i))
}

/// Number of accepted entries among the first `n`.
pub open spec fn accepted_count(
    h: PlaylistHeader,
    segs: Seq<SegmentEntryModel>,
    last: Option<SegmentKey>,
    n: int,
) -> int
    decreases n,
{
    if n <= 0 {
        0
    } else {
        accepted_count(h, segs, last, n - 1) + if accepted(h, segs, last, n - 1) {
            1int
        } else {
            0int
        }
    }
}

/// Ordering key of the last accepted entry among the first `n`, or `last`
/// when none is accepted.
pub open spec fn last_key_after(
    h: PlaylistHeader,
    segs: Seq<SegmentEntryModel>,
    last: Option<SegmentKey>,
    n: int,
) -> Option<SegmentKey>
    decreases n,
{
    if n <= 0 {
        last
    } else if accepted(h, segs, last, n - 1) {
        Option::Some(
            SegmentKey {
                discon_seq: entry_discon(h, segs, n - 1) as u64,
                seq: entry_seq(h, n - 1) as u64,
            },
        )
    } else {
        last_key_after(h, segs, last, n - 1)
    }
}

/// Key metadata in force after processing the first `n` entries: the last
/// key declaration on an accepted entry, or the state's own.
pub open spec fn key_after(
    h: PlaylistHeader,
    segs: Seq<SegmentEntryModel>,
    st: PollerState,
    n: int,
) -> Option<m3u8_rs::Key>
    decreases n,
{
    if n <= 0 {
        st.current_key
    } else if accepted(h, segs, st.last_key, n - 1) && segs[n - 1].key is Some {
        segs[n - 1].key
    } else {
        key_after(h, segs, st, n - 1)
    }
}

/// First accepted entry at or after `i` that carries initialization metadata;
/// `segs.len()` when there is none.
pub open spec fn first_map_from(
    h: PlaylistHeader,
    segs: Seq<SegmentEntryModel>,
    last: Option<SegmentKey>,
    i: int,
) -> int
    decreases segs.len() - i when 0 <= i <= segs.len()
{
    if i >= segs.len() {
        i
    } else if accepted(h, segs, last, i) && segs[i].map is Some {
        i
    } else {
        first_map_from(h, segs, last, i + 1)
    }
}

/// The entry whose initialization metadata this round would emit.
pub open spec fn init_index(
    h: PlaylistHeader,
    segs: Seq<SegmentEntryModel>,
    last: Option<SegmentKey>,
) -> int {
    first_map_from(h, segs, last, 0)
}

/// The walk stops at entry `i`: it is accepted but its URI, or the URI of the
/// initialization metadata it would emit, does not resolve against `base`.
pub open spec fn entry_fails(
    base: Seq<char>,
    h: PlaylistHeader,
    segs: Seq<SegmentEntryModel>,
    st: PollerState,
    i: int,
) -> bool {
    accepted(h, segs, st.last_key, i) && (joined_url(base, segs[i].uri) is None || (!st.init_sent
        && init_index(h, segs, st.last_key) == i && match segs[i].map {
        Option::Some(m) => joined_url(base, m.uri) is None,
        Option::None => false,
    }))
}

/// First failing entry at or after `i`; `segs.len()` when the whole walk
/// succeeds.
pub open spec fn fail_limit_from(
    base: Seq<char>,
    h: PlaylistHeader,
    segs: Seq<SegmentEntryModel>,
    st: PollerState,
    i: int,
) -> int
    decreases segs.len() - i when 0 <= i <= segs.len()
{
    if i >= segs.len() {
        i
    } else if entry_fails(base, h, segs, st, i) {
        i
    } else {
        fail_limit_from(base, h, segs, st, i + 1)
    }
}

/// Index before which the round's walk completes: the first failing entry, or
/// the playlist length when none fails.
pub open spec fn fail_limit(
    base: Seq<char>,
    h: PlaylistHeader,
    segs: Seq<SegmentEntryModel>,
    st: PollerState,
) -> int {
    fail_limit_from(base, h, segs, st, 0)
}

/// This round emits an initialization request, namely at `init_index`.
pub open spec fn emits_init(
    base: Seq<char>,
    h: PlaylistHeader,
    segs: Seq<SegmentEntryModel>,
    st: PollerState,
) -> bool {
    !st.init_sent && init_index(h, segs, st.last_key) < fail_limit(base, h, segs, st)
}

/// Position of entry `i`'s sequence emission in the round's emission list.
pub open spec fn seq_pos(
    h: PlaylistHeader,
    segs: Seq<SegmentEntryModel>,
    st: PollerState,
    i: int,
) -> int {
    accepted_count(h, segs, st.last_key, i) + if !st.init_sent && init_index(h, segs, st.last_key)
        <= i {
        1int
    } else {
        0int
    }
}

/// `e` is the sequence emission of entry `i`: its URL is the entry's URI
/// resolved against `base`, it carries the entry's byte range and ordering
/// key, no format yet, and the key metadata in force at `i`.
pub open spec fn is_seq_emission(
    e: Emission,
    base: Seq<char>,
    h: PlaylistHeader,
    segs: Seq<SegmentEntryModel>,
    st: PollerState,
    i: int,
) -> bool {
    &&& e.key == key_after(h, segs, st, i + 1)
    &&& match e.segment {
        Segment::Sequence { url, byte_range, key, format } => {
            &&& joined_url(base, segs[i].uri) == Option::Some(url@)
            &&& byte_range == segs[i].byte_range
            &&& key.discon_seq as int == entry_discon(h, segs, i)
            &&& key.seq as int == entry_seq(h, i)
            &&& format is None
        },
        _ => false,
    }
}

/// `e` is the initialization emission of entry `i`: the entry's
/// initialization URI resolved against `base`, its byte range, no key.
pub open spec fn is_init_emission(
    e: Emission,
    base: Seq<char>,
    segs: Seq<SegmentEntryModel>,
    i: int,
) -> bool {
    &&& e.key is None
    &&& match e.segment {
        Segment::Initialization { url, byte_range } => {
            match segs[i].map {
                Option::Some(m) => {
                    &&& joined_url(base, m.uri) == Option::Some(url@)
                    &&& byte_range == m.byte_range
                },
                Option::None => false,
            }
        },
        _ => false,
    }
}

/// The URI on which the walk stops when entry `limit` fails: the entry's own
/// URI when that is the unresolvable one, else its initialization URI.
pub open spec fn failing_uri(
    base: Seq<char>,
    segs: Seq<SegmentEntryModel>,
    limit: int,
) -> Seq<char> {
    if joined_url(base, segs[limit].uri) is None {
        segs[limit].uri
    } else {
        match segs[limit].map {
            Option::Some(m) => m.uri,
            Option::None => segs[limit].uri,
        }
    }
}

pub proof fn lemma_accepted_count_bounds(
    h: PlaylistHeader,
    segs: Seq<SegmentEntryModel>,
    last: Option<SegmentKey>,
    n: int,
)
    requires
        n >= 0,
    ensures
        0 <= accepted_count(h, segs, last, n) <= n,
    decreases n,
{
    if n > 0 {
        lemma_accepted_count_bounds(h, segs, last, n - 1);
    }
}

pub proof fn lemma_discon_count_bounds(segs: Seq<SegmentEntryModel>, n: int)
    requires
        n >= 0,
    ensures
        0 <= discon_count(segs, n) <= n,
    decreases n,
{
    if n > 0 {
        lemma_discon_count_bounds(segs, n - 1);
    }
}

pub proof fn lemma_discon_count_mono(segs: Seq<SegmentEntryModel>, m: int, n: int)
    requires
        0 <= m <= n,
    ensures
        discon_count(segs, m) <= discon_count(segs, n),
    decreases n,
{
    if m < n {
        lemma_discon_count_mono(segs, m, n - 1);
    }
}

/// Ordering keys strictly increase along the playlist.
pub proof fn lemma_keys_increase(
    h: PlaylistHeader,
    segs: Seq<SegmentEntryModel>,
    i: int,
    j: int,
)
    requires
        0 <= i < j < segs.len(),
    ensures
        entry_discon(h, segs, i) < entry_discon(h, segs, j) || (entry_discon(h, segs, i)
            == entry_discon(h, segs, j) && entry_seq(h, i) < entry_seq(h, j)),
{
    lemma_discon_count_mono(segs, i + 1, j + 1);
}

/// The running last key is either the round's starting key or the key of some
/// accepted entry among the first `n`.
pub proof fn lemma_last_key_cases(
    h: PlaylistHeader,
    segs: Seq<SegmentEntryModel>,
    last: Option<SegmentKey>,
    n: int,
)
    requires
        0 <= n <= segs.len(),
    ensures
        last_key_after(h, segs, last, n) == last || exists|j: int|
            0 <= j < n && accepted(h, segs, last, j) && last_key_after(h, segs, last, n)
                == Option::Some(
                SegmentKey {
                    discon_seq: entry_discon(h, segs, j) as u64,
                    seq: entry_seq(h, j) as u64,
                },
            ),
    decreases n,
{
    if n > 0 {
        if accepted(h, segs, last, n - 1) {
            assert(accepted(h, segs, last, n - 1) && last_key_after(h, segs, last, n)
                == Option::Some(
                SegmentKey {
                    discon_seq: entry_discon(h, segs, n - 1) as u64,
                    seq: entry_seq(h, n - 1) as u64,
                },
            ));
        } else {
            lemma_last_key_cases(h, segs, last, n - 1);
        }
    }
}

/// Testing an entry against the running last key is the same as testing it
/// against the round's starting key: keys only grow along the playlist.
pub proof fn lemma_accept_running(
    h: PlaylistHeader,
    segs: Seq<SegmentEntryModel>,
    last: Option<SegmentKey>,
    i: int,
)
    requires
        0 <= i < segs.len(),
        h.discontinuity_sequence + segs.len() <= u64::MAX,
        h.media_sequence + segs.len() <= u64::MAX,
    ensures
        newer_than(last_key_after(h, segs, last, i), entry_discon(h, segs, i), entry_seq(h, i))
            == accepted(h, segs, last, i),
{
    lemma_last_key_cases(h, segs, last, i);
    let running = last_key_after(h, segs, last, i);
    if running != last {
        let j = choose|j: int|
            0 <= j < i && accepted(h, segs, last, j) && running == Option::Some(
                SegmentKey {
                    discon_seq: entry_discon(h, segs, j) as u64,
                    seq: entry_seq(h, j) as u64,
                },
            );
        lemma_keys_increase(h, segs, j, i);
        lemma_discon_count_bounds(segs, j + 1);
        lemma_discon_count_bounds(segs, i + 1);
        assert(newer_than(running, entry_discon(h, segs, i), entry_seq(h, i)));
        assert(accepted(h, segs, last, i)) by {
            assert(accepted(h, segs, last, j));
        }
    }
}

pub proof fn lemma_first_map_from_ge(
    h: PlaylistHeader,
    segs: Seq<SegmentEntryModel>,
    last: Option<SegmentKey>,
    i: int,
)
    requires
        0 <= i <= segs.len(),
    ensures
        first_map_from(h, segs, last, i) >= i,
        first_map_from(h, segs, last, i) <= segs.len(),
    decreases segs.len() - i,
{
    if i < segs.len() && !(accepted(h, segs, last, i) && segs[i].map is Some) {
        lemma_first_map_from_ge(h, segs, last, i + 1);
    }
}

pub proof fn lemma_fail_limit_from_ge(
    base: Seq<char>,
    h: PlaylistHeader,
    segs: Seq<SegmentEntryModel>,
    st: PollerState,
    i: int,
)
    requires
        0 <= i <= segs.len(),
    ensures
        fail_limit_from(base, h, segs, st, i) >= i,
        fail_limit_from(base, h, segs, st, i) <= segs.len(),
    decreases segs.len() - i,
{
    if i < segs.len() && !entry_fails(base, h, segs, st, i) {
        lemma_fail_limit_from_ge(base, h, segs, st, i + 1);
    }
}

/// Law: within one poll round, the ordering keys of the accepted entries
/// strictly increase along the playlist, and every accepted key is strictly
/// newer than the key last emitted before the round — so the sequence of keys
/// a poller accepts over its lifetime is strictly increasing and no two
/// accepted segments of one stream share a key.
pub proof fn lemma_accepted_keys_increase(
    h: PlaylistHeader,
    segs: Seq<SegmentEntryModel>,
    last: Option<SegmentKey>,
    i: int,
    j: int,
)
    requires
        accepted(h, segs, last, i),
        accepted(h, segs, last, j),
        i < j,
    ensures
        entry_discon(h, segs, i) < entry_discon(h, segs, j) || (entry_discon(h, segs, i)
            == entry_discon(h, segs, j) && entry_seq(h, i) < entry_seq(h, j)),
        newer_than(last, entry_discon(h, segs, i), entry_seq(h, i)),
{
    lemma_keys_increase(h, segs, i, j);
}

/// Law: a key that is newer than a round's successor state is newer than the
/// key of every entry that round accepted — successive rounds only move
/// forward, never re-emitting an old key.
pub proof fn lemma_rounds_move_forward(
    h: PlaylistHeader,
    segs: Seq<SegmentEntryModel>,
    last: Option<SegmentKey>,
    n: int,
    i: int,
    d: int,
    s: int,
)
    requires
        0 <= n <= segs.len(),
        accepted(h, segs, last, i),
        i < n,
        newer_than(last_key_after(h, segs, last, n), d, s),
        h.discontinuity_sequence + segs.len() <= u64::MAX,
        h.media_sequence + segs.len() <= u64::MAX,
    ensures
        entry_discon(h, segs, i) < d || (entry_discon(h, segs, i) == d && entry_seq(h, i) < s),
    decreases n,
{
    lemma_discon_count_bounds(segs, i + 1);
    if accepted(h, segs, last, n - 1) {
        lemma_discon_count_bounds(segs, n);
        if i < n - 1 {
            lemma_keys_increase(h, segs, i, n - 1);
        }
    } else {
        lemma_rounds_move_forward(h, segs, last, n - 1, i, d, s);
    }
}

/// Law: a poll round over a playlist already fully consumed — every entry's
/// ordering key at or below the round's starting last key — accepts nothing,
/// emits nothing, and leaves every part of the state unchanged.
pub proof fn lemma_consumed_playlist_emits_nothing(
    base: Seq<char>,
    h: PlaylistHeader,
    segs: Seq<SegmentEntryModel>,
    st: PollerState,
)
    requires
        forall|i: int|
            0 <= i < segs.len() ==> !newer_than(
                st.last_key,
                entry_discon(h, segs, i),
                #[trigger] entry_seq(h, i),
            ),
    ensures
        fail_limit(base, h, segs, st) == segs.len(),
        accepted_count(h, segs, st.last_key, segs.len() as int) == 0,
        !emits_init(base, h, segs, st),
        last_key_after(h, segs, st.last_key, segs.len() as int) == st.last_key,
        key_after(h, segs, st, segs.len() as int) == st.current_key,
{
    assert forall|i: int| 0 <= i <= segs.len() implies accepted_count(h, segs, st.last_key, i)
        == 0 && last_key_after(h, segs, st.last_key, i) == st.last_key && key_after(h, segs, st, i)
        == st.current_key by {
        lemma_nothing_accepted_prefix(h, segs, st, i);
    }
    lemma_nothing_fails_suffix(base, h, segs, st, 0);
    lemma_first_map_from_ge(h, segs, st.last_key, 0);
    assert(init_index(h, segs, st.last_key) >= segs.len()) by {
        lemma_no_first_map_suffix(h, segs, st.last_key, 0);
    }
}

proof fn lemma_nothing_accepted_prefix(
    h: PlaylistHeader,
    segs: Seq<SegmentEntryModel>,
    st: PollerState,
    n: int,
)
    requires
        0 <= n <= segs.len(),
        forall|i: int|
            0 <= i < segs.len() ==> !newer_than(
                st.last_key,
                entry_discon(h, segs, i),
                #[trigger] entry_seq(h, i),
            ),
    ensures
        accepted_count(h, segs, st.last_key, n) == 0,
        last_key_after(h, segs, st.last_key, n) == st.last_key,
        key_after(h, segs, st, n) == st.current_key,
    decreases n,
{
    if n > 0 {
        lemma_nothing_accepted_prefix(h, segs, st, n - 1);
        assert(!accepted(h, segs, st.last_key, n - 1));
    }
}

proof fn lemma_nothing_fails_suffix(
    base: Seq<char>,
    h: PlaylistHeader,
    segs: Seq<SegmentEntryModel>,
    st: PollerState,
    i: int,
)
    requires
        0 <= i <= segs.len(),
        forall|j: int|
            0 <= j < segs.len() ==> !newer_than(
                st.last_key,
                entry_discon(h, segs, j),
                #[trigger] entry_seq(h, j),
            ),
    ensures
        fail_limit_from(base, h, segs, st, i) == segs.len(),
    decreases segs.len() - i,
{
    if i < segs.len() {
        assert(!accepted(h, segs, st.last_key, i));
        lemma_nothing_fails_suffix(base, h, segs, st, i + 1);
    }
}

proof fn lemma_no_first_map_suffix(
    h: PlaylistHeader,
    segs: Seq<SegmentEntryModel>,
    last: Option<SegmentKey>,
    i: int,
)
    requires
        0 <= i <= segs.len(),
        forall|j: int|
            0 <= j < segs.len() ==> !newer_than(
                last,
                entry_discon(h, segs, j),
                #[trigger] entry_seq(h, j),
            ),
    ensures
        first_map_from(h, segs, last, i) == segs.len(),
    decreases segs.len() - i,
{
    if i < segs.len() {
        assert(!accepted(h, segs, last, i));
        lemma_no_first_map_suffix(h, segs, last, i + 1);
    }
}

/// One poll round over a freshly fetched media playlist.
///
/// Walks the playlist entries in order, computing each entry's ordering key
/// from the declared media-sequence base and the running discontinuity count;
/// skips entries at or below the state's last emitted key; resolves URIs
/// against `base`; emits the stream's initialization request once, on the
/// first new entry carrying initialization metadata; and emits one sequence
/// request per new entry, carrying the key metadata in force. A URI that does
/// not resolve stops the walk: everything before it is still emitted and the
/// error is reported alongside.
pub fn poll_media_playlist(st: PollerState, pl: &MediaPlaylistInfo, base: &str) -> (r: PollRound)
    requires
        pl.header.media_sequence + pl.segments@.len() <= u64::MAX,
        pl.header.discontinuity_sequence + pl.segments@.len() <= u64::MAX,
    ensures
        ({
            let h = pl.header;
            let segs = pl.models();
            let n = segs.len() as int;
            let limit = fail_limit(base@, h, segs, st);
            &&& (r.error is Some) == (limit < n)
            &&& match r.error {
                Option::Some(PollError::InvalidUri { uri }) => limit < n && uri@ == failing_uri(
                    base@,
                    segs,
                    limit,
                ),
                Option::Some(_) => false,
                Option::None => true,
            }
            &&& r.emissions@.len() == accepted_count(h, segs, st.last_key, limit) + (if emits_init(
                base@,
                h,
                segs,
                st,
            ) {
                1int
            } else {
                0int
            })
            &&& forall|i: int|
                0 <= i < limit && #[trigger] accepted(h, segs, st.last_key, i) ==> seq_pos(
                    h,
                    segs,
                    st,
                    i,
                ) < r.emissions@.len() && is_seq_emission(
                    r.emissions@[seq_pos(h, segs, st, i)],
                    base@,
                    h,
                    segs,
                    st,
                    i,
                )
            &&& emits_init(base@, h, segs, st) ==> ({
                let i0 = init_index(h, segs, st.last_key);
                let p0 = accepted_count(h, segs, st.last_key, i0);
                0 <= p0 < r.emissions@.len() && is_init_emission(
                    r.emissions@[p0],
                    base@,
                    segs,
                    i0,
                )
            })
            &&& r.state.last_key == last_key_after(h, segs, st.last_key, limit)
            &&& r.state.init_sent == (st.init_sent || emits_init(base@, h, segs, st))
            &&& r.state.current_key == key_after(h, segs, st, limit)
            &&& r.found_new == (accepted_count(h, segs, st.last_key, limit) > 0)
            &&& r.ended == h.end_list
        }),
{
    let ghost h = pl.header;
    let ghost segs = pl.models();
    let ghost gn: int = segs.len() as int;
    let ghost fm = init_index(h, segs, st.last_key);
    let ghost fl = fail_limit(base@, h, segs, st);

    let n = pl.segments.len();
    let mut emissions: Vec<Emission> = Vec::new();
    let ghost st0 = st;
    let PollerState { last_key: mut running_last, init_sent: mut init_sent, current_key: mut current_key } = st;
    let mut found_new = false;
    let mut discon_offset: u64 = 0;
    let mut error: Option<PollError> = None;
    let mut failed = false;
    let mut i: usize = 0;

    proof {
        lemma_first_map_from_ge(h, segs, st0.last_key, 0);
        lemma_fail_limit_from_ge(base@, h, segs, st0, 0);
    }

    while i < n && !failed
        invariant
            n == segs.len(),
            segs == pl.models(),
            h == pl.header,
            gn == segs.len() as int,
            fm == init_index(h, segs, st0.last_key),
            fl == fail_limit(base@, h, segs, st0),
            h.media_sequence + n <= u64::MAX,
            h.discontinuity_sequence + n <= u64::MAX,
            0 <= i <= n,
            !failed ==> discon_offset == discon_count(segs, i as int),
            running_last == last_key_after(h, segs, st0.last_key, i as int),
            init_sent == (st0.init_sent || (fm < i as int)),
            current_key == key_after(h, segs, st0, i as int),
            found_new == (accepted_count(h, segs, st0.last_key, i as int) > 0),
            !failed ==> fail_limit_from(base@, h, segs, st0, i as int) == fl && fl >= i as int,
            !failed ==> error is None,
            failed ==> fl == i as int && i < n,
            failed ==> match error {
                Option::Some(PollError::InvalidUri { uri }) => uri@ == failing_uri(
                    base@,
                    segs,
                    fl,
                ),
                _ => false,
            },
            !st0.init_sent && fm >= i as int ==> first_map_from(h, segs, st0.last_key, i as int)
                == fm,
            emissions@.len() == accepted_count(h, segs, st0.last_key, i as int) + (
            if !st0.init_sent && fm < i as int {
                1int
            } else {
                0int
            }),
            forall|j: int|
                0 <= j < i as int && #[trigger] accepted(h, segs, st0.last_key, j) ==> seq_pos(
                    h,
                    segs,
                    st0,
                    j,
                ) < emissions@.len() && is_seq_emission(
                    emissions@[seq_pos(h, segs, st0, j)],
                    base@,
                    h,
                    segs,
                    st0,
                    j,
                ),
            !st0.init_sent && fm < i as int ==> ({
                let p0 = accepted_count(h, segs, st0.last_key, fm);
                0 <= p0 < emissions@.len() && is_init_emission(emissions@[p0], base@, segs, fm)
            }),
        decreases n - i + (if failed {
            0int
        } else {
            1int
        }),
    {
        let entry = &pl.segments[i];
        proof {
            assert(entry.model() == segs[i as int]);
            lemma_discon_count_bounds(segs, i as int);
        }
        // Track the discontinuity generation across every entry, skipped or not.
        if entry.discontinuity {
            discon_offset = discon_offset + 1;
        }
        let key = SegmentKey {
            discon_seq: pl.header.discontinuity_sequence + discon_offset,
            seq: pl.header.media_sequence + (i as u64),
        };
        proof {
            lemma_discon_count_bounds(segs, i as int + 1);
            assert(key.discon_seq as int == entry_discon(h, segs, i as int));
            assert(key.seq as int == entry_seq(h, i as int));
            lemma_accept_running(h, segs, st0.last_key, i as int);
        }
        // Skip entries already emitted in an earlier round.
        let is_new = match running_last {
            Option::None => true,
            Option::Some(lk) => lk.key_lt(key),
        };
        proof {
            assert(is_new == accepted(h, segs, st0.last_key, i as int));
        }
        if is_new {
            // Resolve the entry's URI; a failure stops the walk here.
            match join_url(base, entry.uri.as_str()) {
                Option::None => {
                    error = Option::Some(PollError::InvalidUri { uri: entry.uri.clone() });
                    failed = true;
                    proof {
                        assert(entry_fails(base@, h, segs, st0, i as int));
                        assert(fail_limit_from(base@, h, segs, st0, i as int) == i as int);
                        assert(failing_uri(base@, segs, i as int) == segs[i as int].uri);
                    }
                },
                Option::Some(seg_url) => {
                    // Emit the initialization request once, on the first new
                    // entry that carries initialization metadata.
                    let mut init_failed = false;
                    if !init_sent {
                        match &entry.map {
                            Option::Some(m) => {
                                proof {
                                    assert(first_map_from(h, segs, st0.last_key, i as int)
                                        == i as int);
                                    assert(fm == i as int);
                                }
                                match join_url(base, m.uri.as_str()) {
                                    Option::None => {
                                        error = Option::Some(
                                            PollError::InvalidUri { uri: m.uri.clone() },
                                        );
                                        failed = true;
                                        init_failed = true;
                                        proof {
                                            assert(entry_fails(base@, h, segs, st0, i as int));
                                            assert(fail_limit_from(base@, h, segs, st0, i as int)
                                                == i as int);
                                            assert(failing_uri(base@, segs, i as int) == match segs[i as int].map {
                                                Option::Some(mm) => mm.uri,
                                                Option::None => segs[i as int].uri,
                                            });
                                        }
                                    },
                                    Option::Some(init_url) => {
                                        let ghost em0 = emissions@;
                                        let init_em = Emission {
                                            segment: Segment::Initialization {
                                                url: init_url,
                                                byte_range: m.byte_range,
                                            },
                                            key: Option::None,
                                        };
                                        emissions.push(init_em);
                                        init_sent = true;
                                        proof {
                                            assert(is_init_emission(
                                                emissions@[em0.len() as int],
                                                base@,
                                                segs,
                                                fm,
                                            ));
                                            assert forall|j: int|
                                                0 <= j < i as int && #[trigger] accepted(
                                                    h,
                                                    segs,
                                                    st0.last_key,
                                                    j,
                                                ) implies seq_pos(h, segs, st0, j)
                                                < emissions@.len() && is_seq_emission(
                                                emissions@[seq_pos(h, segs, st0, j)],
                                                base@,
                                                h,
                                                segs,
                                                st0,
                                                j,
                                            ) by {
                                                lemma_accepted_count_bounds(h, segs, st0.last_key, j);
                                                assert(seq_pos(h, segs, st0, j) < em0.len()
                                                    && is_seq_emission(
                                                    em0[seq_pos(h, segs, st0, j)],
                                                    base@,
                                                    h,
                                                    segs,
                                                    st0,
                                                    j,
                                                ));
                                                assert(emissions@ == em0.push(init_em));
                                                assert(em0.push(init_em)[seq_pos(h, segs, st0, j)]
                                                    == em0[seq_pos(h, segs, st0, j)]);
                                                assert(emissions@[seq_pos(h, segs, st0, j)]
                                                    == em0[seq_pos(h, segs, st0, j)]);
                                            }
                                        }
                                    },
                                }
                            },
                            Option::None => {
                                proof {
                                    assert(!(accepted(h, segs, st0.last_key, i as int)
                                        && segs[i as int].map is Some));
                                    assert(first_map_from(h, segs, st0.last_key, i as int)
                                        == first_map_from(h, segs, st0.last_key, i as int + 1));
                                    lemma_first_map_from_ge(h, segs, st0.last_key, i as int + 1);
                                }
                            },
                        }
                    }
                    if !init_failed {
                        // Update the key metadata in force, then emit the
                        // sequence request under it.
                        match &entry.key {
                            Option::Some(k) => {
                                current_key = Option::Some(clone_key(k));
                            },
                            Option::None => {},
                        }
                        proof {
                            assert(current_key == key_after(h, segs, st0, i as int + 1));
                        }
                        let em_key = match &current_key {
                            Option::Some(k) => Option::Some(clone_key(k)),
                            Option::None => Option::None,
                        };
                        let ghost em1 = emissions@;
                        let seq_em = Emission {
                            segment: Segment::Sequence {
                                url: seg_url,
                                byte_range: entry.byte_range,
                                key,
                                format: Option::None,
                            },
                            key: em_key,
                        };
                        emissions.push(seq_em);
                        running_last = Option::Some(key);
                        found_new = true;
                        proof {
                            assert(!entry_fails(base@, h, segs, st0, i as int));
                            assert(fail_limit_from(base@, h, segs, st0, i as int)
                                == fail_limit_from(base@, h, segs, st0, i as int + 1));
                            assert(em1.len() == seq_pos(h, segs, st0, i as int));
                            assert(is_seq_emission(
                                emissions@[seq_pos(h, segs, st0, i as int)],
                                base@,
                                h,
                                segs,
                                st0,
                                i as int,
                            ));
                            assert forall|j: int|
                                0 <= j < i as int && #[trigger] accepted(h, segs, st0.last_key, j)
                                implies seq_pos(h, segs, st0, j) < emissions@.len()
                                && is_seq_emission(
                                emissions@[seq_pos(h, segs, st0, j)],
                                base@,
                                h,
                                segs,
                                st0,
                                j,
                            ) by {
                                lemma_accepted_count_bounds(h, segs, st0.last_key, j);
                                assert(seq_pos(h, segs, st0, j) < em1.len() && is_seq_emission(
                                    em1[seq_pos(h, segs, st0, j)],
                                    base@,
                                    h,
                                    segs,
                                    st0,
                                    j,
                                ));
                                assert(emissions@ == em1.push(seq_em));
                                assert(em1.push(seq_em)[seq_pos(h, segs, st0, j)] == em1[seq_pos(
                                    h,
                                    segs,
                                    st0,
                                    j,
                                )]);
                                assert(emissions@[seq_pos(h, segs, st0, j)] == em1[seq_pos(
                                    h,
                                    segs,
                                    st0,
                                    j,
                                )]);
                            }
                            if !st0.init_sent && fm < i as int + 1 {
                                let p0 = accepted_count(h, segs, st0.last_key, fm);
                                assert(em1.push(seq_em)[p0] == em1[p0]);
                                assert(emissions@[p0] == em1[p0]);
                            }
                        }
                    }
                },
            }
        } else {
            proof {
                assert(!(accepted(h, segs, st0.last_key, i as int) && segs[i as int].map is Some));
                assert(first_map_from(h, segs, st0.last_key, i as int)
                    == first_map_from(h, segs, st0.last_key, i as int + 1));
                lemma_first_map_from_ge(h, segs, st0.last_key, i as int + 1);
                assert(!entry_fails(base@, h, segs, st0, i as int));
                assert(fail_limit_from(base@, h, segs, st0, i as int)
                    == fail_limit_from(base@, h, segs, st0, i as int + 1));
            }
        }
        if !failed {
            i = i + 1;
            proof {
                lemma_fail_limit_from_ge(base@, h, segs, st0, i as int);
                if !st0.init_sent && fm >= i as int {
                    lemma_first_map_from_ge(h, segs, st0.last_key, i as int);
                }
            }
        }
    }

    proof {
        if !failed {
            assert(i == n);
            assert(fl == gn);
        }
        assert(fl == if failed {
            i as int
        } else {
            gn
        });
    }

    PollRound {
        emissions,
        state: PollerState { last_key: running_last, init_sent, current_key },
        found_new,
        ended: pl.header.end_list,
        error,
    }
}

} // verus!
