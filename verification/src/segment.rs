//! Identity of one fetchable unit of media: an initialization segment or a
//! sequence segment, with its URL, optional byte range, and ordering key.

use vstd::prelude::*;
use vstd::string::StringExecFns;

use crate::digits::{dec_seq, digit_len, lex_lt, lemma_dec_seq_len, lemma_digit_len_le,
    lemma_lex_concat, lemma_lex_prefix, lemma_dec_seq_order, padded_dec, padded_decimal, pow10};

verus! {

/// Optional sub-range of the resource behind a segment URL: a length and an
/// optional starting offset (zero when absent).
#[derive(Clone, Copy, PartialEq, Eq, Structural, Debug)]
pub struct ByteRange {
    pub length: u64,
    pub offset: Option<u64>,
}

impl ByteRange {
    /// First byte position covered by the range.
    pub open spec fn spec_start(self) -> int {
        match self.offset {
            Option::Some(o) => o as int,
            Option::None => 0,
        }
    }

    /// Last byte position covered by the range (start itself for an empty range).
    pub open spec fn spec_end(self) -> int {
        self.spec_start() + if self.length > 0 {
            self.length - 1
        } else {
            0
        }
    }
}

/// Ordering key of a sequence segment within one stream:
/// `(discontinuity_generation, sequence_number)`, compared lexicographically.
#[derive(Clone, Copy, PartialEq, Eq, Structural, Debug)]
pub struct SegmentKey {
    pub discon_seq: u64,
    pub seq: u64,
}

impl SegmentKey {
    /// Lexicographic order on `(discon_seq, seq)`.
    pub open spec fn spec_lt(self, other: SegmentKey) -> bool {
        self.discon_seq < other.discon_seq || (self.discon_seq == other.discon_seq
            && self.seq < other.seq)
    }

    /// `self <= other` in stream order.
    pub open spec fn spec_le(self, other: SegmentKey) -> bool {
        self.spec_lt(other) || self == other
    }

    /// True when `self` comes strictly before `other` in stream order.
    pub fn key_lt(self, other: SegmentKey) -> (r: bool)
        ensures
            r == self.spec_lt(other),
    {
        self.discon_seq < other.discon_seq || (self.discon_seq == other.discon_seq
            && self.seq < other.seq)
    }

    /// True when `self` comes no later than `other` in stream order.
    pub fn key_le(self, other: SegmentKey) -> (r: bool)
        ensures
            r == self.spec_le(other),
    {
        self.discon_seq < other.discon_seq || (self.discon_seq == other.discon_seq
            && self.seq <= other.seq)
    }

    /// Zero-padded rendering of the key: `d<digits>s<digits>`, each counter
    /// padded to at least ten digits.
    pub open spec fn spec_id(self) -> Seq<char> {
        seq!['d'] + padded_decimal(self.discon_seq as nat, 10) + seq!['s'] + padded_decimal(
            self.seq as nat,
            10,
        )
    }

    /// Renders the key as `d<10-digit>s<10-digit>`.
    pub fn id_string(self) -> (r: String)
        ensures
            r@ == self.spec_id(),
    {
        proof {
            reveal_strlit("d");
            reveal_strlit("s");
        }
        let mut r = String::from_str("d");
        let d_part = padded_dec(self.discon_seq, 10);
        r.append(d_part.as_str());
        r.append("s");
        let s_part = padded_dec(self.seq, 10);
        r.append(s_part.as_str());
        proof {
            assert(r@ =~= self.spec_id());
        }
        r
    }
}

/// Both counters of a key are below `10^10`, so each renders in exactly ten
/// digits. All larger keys render wider.
pub open spec fn key_renders_fixed_width(k: SegmentKey) -> bool {
    (k.discon_seq as nat) < pow10(10) && (k.seq as nat) < pow10(10)
}

/// Key renderings sort lexicographically exactly as keys sort numerically,
/// as long as both counters stay below ten digits; and the rendering is
/// injective there.
pub proof fn lemma_key_id_order(k1: SegmentKey, k2: SegmentKey)
    requires
        key_renders_fixed_width(k1),
        key_renders_fixed_width(k2),
    ensures
        lex_lt(k1.spec_id(), k2.spec_id()) == k1.spec_lt(k2),
        (k1.spec_id() == k2.spec_id()) == (k1 == k2),
        k1.spec_id().len() == 22,
        k2.spec_id().len() == 22,
{
    lemma_padded_is_fixed(k1.discon_seq);
    lemma_padded_is_fixed(k1.seq);
    lemma_padded_is_fixed(k2.discon_seq);
    lemma_padded_is_fixed(k2.seq);
    let d1 = dec_seq(k1.discon_seq as nat, 10);
    let d2 = dec_seq(k2.discon_seq as nat, 10);
    let s1 = dec_seq(k1.seq as nat, 10);
    let s2 = dec_seq(k2.seq as nat, 10);
    let t1 = seq!['s'] + s1;
    let t2 = seq!['s'] + s2;
    lemma_dec_seq_len(k1.discon_seq as nat, 10);
    lemma_dec_seq_len(k2.discon_seq as nat, 10);
    lemma_dec_seq_len(k1.seq as nat, 10);
    lemma_dec_seq_len(k2.seq as nat, 10);
    assert(k1.spec_id() =~= seq!['d'] + (d1 + t1));
    assert(k2.spec_id() =~= seq!['d'] + (d2 + t2));
    lemma_lex_prefix(seq!['d'], d1 + t1, d2 + t2);
    lemma_lex_concat(d1, d2, t1, t2);
    lemma_lex_prefix(seq!['s'], s1, s2);
    lemma_dec_seq_order(k1.discon_seq as nat, k2.discon_seq as nat, 10);
    lemma_dec_seq_order(k1.seq as nat, k2.seq as nat, 10);
    assert((k1.spec_id() == k2.spec_id()) == (d1 + t1 == d2 + t2)) by {
        if d1 + t1 == d2 + t2 {
            assert(k1.spec_id() =~= k2.spec_id());
        }
        if k1.spec_id() == k2.spec_id() {
            assert forall|i: int| 0 <= i < (d1 + t1).len() implies (d1 + t1)[i] == (d2 + t2)[i] by {
                assert((d1 + t1)[i] == k1.spec_id()[i + 1]);
                assert((d2 + t2)[i] == k2.spec_id()[i + 1]);
            }
            assert(d1 + t1 =~= d2 + t2);
        }
    }
    assert((d1 + t1 == d2 + t2) == (d1 == d2 && t1 == t2)) by {
        if d1 == d2 && t1 == t2 {
            assert(d1 + t1 =~= d2 + t2);
        }
        if d1 + t1 == d2 + t2 {
            assert forall|i: int| 0 <= i < d1.len() implies d1[i] == d2[i] by {
                assert(d1[i] == (d1 + t1)[i]);
                assert(d2[i] == (d2 + t2)[i]);
            }
            assert(d1 =~= d2);
            assert forall|i: int| 0 <= i < t1.len() implies t1[i] == t2[i] by {
                assert(t1[i] == (d1 + t1)[i + 10]);
                assert(t2[i] == (d2 + t2)[i + 10]);
            }
            assert(t1 =~= t2);
        }
    }
    assert((t1 == t2) == (s1 == s2)) by {
        if s1 == s2 {
            assert(t1 =~= t2);
        }
        if t1 == t2 {
            assert forall|i: int| 0 <= i < s1.len() implies s1[i] == s2[i] by {
                assert(s1[i] == t1[i + 1]);
                assert(s2[i] == t2[i + 1]);
            }
            assert(s1 =~= s2);
        }
    }
    assert(lex_lt(t1, t2) == lex_lt(s1, s2));
}

/// Below `10^10` the padded rendering is exactly ten digits wide.
proof fn lemma_padded_is_fixed(n: u64)
    requires
        (n as nat) < pow10(10),
    ensures
        padded_decimal(n as nat, 10) == dec_seq(n as nat, 10),
{
    lemma_digit_len_le(n as nat, 10);
}

/// One fetchable unit: a stream's initialization segment (container header),
/// or one media chunk with its ordering key. The format field of a sequence
/// segment starts unset and is filled by the writer once the bytes have been
/// inspected.
#[derive(Clone, Debug)]
pub enum Segment {
    Initialization { url: String, byte_range: Option<ByteRange> },
    Sequence {
        url: String,
        byte_range: Option<ByteRange>,
        key: SegmentKey,
        format: Option<String>,
    },
}

impl Segment {
    /// URL of the segment.
    pub open spec fn spec_url(self) -> Seq<char> {
        match self {
            Segment::Initialization { url, .. } => url@,
            Segment::Sequence { url, .. } => url@,
        }
    }

    /// Byte range of the segment, if one was declared.
    pub open spec fn spec_byte_range(self) -> Option<ByteRange> {
        match self {
            Segment::Initialization { byte_range, .. } => byte_range,
            Segment::Sequence { byte_range, .. } => byte_range,
        }
    }

    /// Ordering key, absent for initialization segments.
    pub open spec fn spec_key(self) -> Option<SegmentKey> {
        match self {
            Segment::Initialization { .. } => Option::None,
            Segment::Sequence { key, .. } => Option::Some(key),
        }
    }

    /// String identifier: `init` for an initialization segment, the padded
    /// key rendering for a sequence segment.
    pub open spec fn spec_id(self) -> Seq<char> {
        match self {
            Segment::Initialization { .. } => seq!['i', 'n', 'i', 't'],
            Segment::Sequence { key, .. } => key.spec_id(),
        }
    }

    /// URL of the segment.
    pub fn url(&self) -> (r: &String)
        ensures
            r@ == self.spec_url(),
    {
        match self {
            Segment::Initialization { url, .. } => url,
            Segment::Sequence { url, .. } => url,
        }
    }

    /// Ordering key, absent for initialization segments.
    pub fn key(&self) -> (r: Option<SegmentKey>)
        ensures
            r == self.spec_key(),
    {
        match self {
            Segment::Initialization { .. } => Option::None,
            Segment::Sequence { key, .. } => Option::Some(*key),
        }
    }

    /// String identifier of the segment.
    pub fn id(&self) -> (r: String)
        ensures
            r@ == self.spec_id(),
    {
        match self {
            Segment::Initialization { .. } => {
                proof {
                    reveal_strlit("init");
                }
                let r = String::from_str("init");
                proof {
                    assert(r@ =~= self.spec_id());
                }
                r
            },
            Segment::Sequence { key, .. } => key.id_string(),
        }
    }

    /// True when a range request for this segment stays within `u64` byte
    /// positions; the only inputs on which no header can be built.
    pub open spec fn range_fits(self) -> bool {
        match self.spec_byte_range() {
            Option::Some(b) => b.spec_end() <= u64::MAX,
            Option::None => true,
        }
    }

    /// Value for an HTTP `Range` header, `bytes=<start>-<end>`, when the
    /// segment declares a byte range; nothing otherwise.
    pub fn byte_range_header(&self) -> (r: Option<String>)
        requires
            self.range_fits(),
        ensures
            match self.spec_byte_range() {
                Option::Some(b) => r matches Option::Some(s) && s@ == spec_range_header(b),
                Option::None => r is None,
            },
    {
        let range = match self {
            Segment::Initialization { byte_range, .. } => byte_range,
            Segment::Sequence { byte_range, .. } => byte_range,
        };
        match range {
            Option::None => Option::None,
            Option::Some(b) => {
                proof {
                    reveal_strlit("bytes=");
                    reveal_strlit("-");
                }
                let start: u64 = match b.offset {
                    Option::Some(o) => o,
                    Option::None => 0,
                };
                let len_part: u64 = if b.length > 0 {
                    b.length - 1
                } else {
                    0
                };
                let end: u64 = start + len_part;
                let mut r = String::from_str("bytes=");
                let start_str = padded_dec(start, 1);
                r.append(start_str.as_str());
                r.append("-");
                let end_str = padded_dec(end, 1);
                r.append(end_str.as_str());
                proof {
                    assert(r@ =~= spec_range_header(*b));
                }
                Option::Some(r)
            },
        }
    }
}

/// `bytes=<start>-<end>` where start is the offset (zero when absent) and end
/// is the position of the last byte of the range.
pub open spec fn spec_range_header(b: ByteRange) -> Seq<char> {
    seq!['b', 'y', 't', 'e', 's', '='] + padded_decimal(b.spec_start() as nat, 1) + seq!['-']
        + padded_decimal(b.spec_end() as nat, 1)
}

} // verus!
