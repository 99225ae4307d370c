//! Decimal rendering of counters, and the lexicographic-order facts about it
//! that the on-disk naming scheme relies on.

use vstd::prelude::*;
use vstd::string::StringExecFns;

verus! {

/// Powers of ten.
pub open spec fn pow10(e: nat) -> nat
    decreases e,
{
    if e == 0 {
        1
    } else {
        10 * pow10((e - 1) as nat)
    }
}

/// Character for a single decimal digit.
pub open spec fn digit_char(d: nat) -> char {
    if d == 0 {
        '0'
    } else if d == 1 {
        '1'
    } else if d == 2 {
        '2'
    } else if d == 3 {
        '3'
    } else if d == 4 {
        '4'
    } else if d == 5 {
        '5'
    } else if d == 6 {
        '6'
    } else if d == 7 {
        '7'
    } else if d == 8 {
        '8'
    } else {
        '9'
    }
}

/// The `w` least significant decimal digits of `n`, most significant first.
/// When `n < pow10(w)` this is `n` zero-padded to exactly `w` digits.
pub open spec fn dec_seq(n: nat, w: nat) -> Seq<char>
    decreases w,
{
    if w == 0 {
        Seq::empty()
    } else {
        dec_seq(n / 10, (w - 1) as nat).push(digit_char(n % 10))
    }
}

/// Number of decimal digits of `n` (one for zero).
pub open spec fn digit_len(n: nat) -> nat
    decreases n,
{
    if n < 10 {
        1
    } else {
        1 + digit_len(n / 10)
    }
}

/// Decimal representation of `n`, zero-padded to at least `min_width` digits,
/// wider only when `n` itself has more digits.
pub open spec fn padded_decimal(n: nat, min_width: nat) -> Seq<char> {
    dec_seq(n, if digit_len(n) > min_width { digit_len(n) } else { min_width })
}

/// Strict lexicographic order on character sequences, by scalar value.
/// This is the order in which file names sort.
pub open spec fn lex_lt(s: Seq<char>, t: Seq<char>) -> bool
    decreases s.len(),
{
    if t.len() == 0 {
        false
    } else if s.len() == 0 {
        true
    } else if s[0] != t[0] {
        (s[0] as u32) < (t[0] as u32)
    } else {
        lex_lt(s.drop_first(), t.drop_first())
    }
}

pub proof fn lemma_dec_seq_len(n: nat, w: nat)
    ensures
        dec_seq(n, w).len() == w,
    decreases w,
{
    if w > 0 {
        lemma_dec_seq_len(n / 10, (w - 1) as nat);
    }
}

pub proof fn lemma_digit_len_bound(n: nat)
    ensures
        digit_len(n) >= 1,
        n < pow10(digit_len(n)),
    decreases n,
{
    if n < 10 {
        assert(pow10(1) == 10) by {
            reveal_with_fuel(pow10, 2);
        }
    } else {
        lemma_digit_len_bound(n / 10);
        let k = digit_len(n / 10);
        assert(n < 10 * pow10(k)) by (nonlinear_arith)
            requires
                n / 10 < pow10(k),
                n >= 10,
        ;
    }
}

pub proof fn lemma_digit_len_le(n: nat, e: nat)
    requires
        n < pow10(e),
        e >= 1,
    ensures
        digit_len(n) <= e,
    decreases e,
{
    if n >= 10 {
        assert(e >= 2) by {
            if e == 1 {
                assert(pow10(1) == 10) by {
                    reveal_with_fuel(pow10, 2);
                }
            }
        }
        assert(n / 10 < pow10((e - 1) as nat)) by (nonlinear_arith)
            requires
                n < 10 * pow10((e - 1) as nat),
        ;
        lemma_digit_len_le(n / 10, (e - 1) as nat);
    }
}

/// No sequence sorts strictly before itself.
pub proof fn lemma_lex_irrefl(s: Seq<char>)
    ensures
        !lex_lt(s, s),
    decreases s.len(),
{
    if s.len() > 0 {
        lemma_lex_irrefl(s.drop_first());
    }
}

/// Stripping one equal prefix does not change lexicographic comparison.
pub proof fn lemma_lex_prefix(p: Seq<char>, x: Seq<char>, y: Seq<char>)
    ensures
        lex_lt(p + x, p + y) == lex_lt(x, y),
    decreases p.len(),
{
    if p.len() == 0 {
        assert(p + x =~= x);
        assert(p + y =~= y);
    } else {
        assert((p + x).len() > 0 && (p + y).len() > 0);
        assert((p + x)[0] == p[0] && (p + y)[0] == p[0]);
        assert((p + x).drop_first() =~= p.drop_first() + x);
        assert((p + y).drop_first() =~= p.drop_first() + y);
        lemma_lex_prefix(p.drop_first(), x, y);
    }
}

/// Comparison of concatenations whose left parts have equal length: the left
/// parts decide, and only a tie passes the decision to the right parts.
pub proof fn lemma_lex_concat(x: Seq<char>, y: Seq<char>, u: Seq<char>, v: Seq<char>)
    requires
        x.len() == y.len(),
    ensures
        lex_lt(x + u, y + v) == (lex_lt(x, y) || (x == y && lex_lt(u, v))),
    decreases x.len(),
{
    if x.len() == 0 {
        assert(x + u =~= u);
        assert(y + v =~= v);
        assert(x =~= y);
    } else {
        assert((x + u)[0] == x[0] && (y + v)[0] == y[0]);
        assert((x + u).drop_first() =~= x.drop_first() + u);
        assert((y + v).drop_first() =~= y.drop_first() + v);
        lemma_lex_concat(x.drop_first(), y.drop_first(), u, v);
        if x[0] == y[0] {
            assert((x == y) == (x.drop_first() == y.drop_first())) by {
                if x.drop_first() == y.drop_first() {
                    assert forall|i: int| 0 <= i < x.len() implies x[i] == y[i] by {
                        if i > 0 {
                            assert(x[i] == x.drop_first()[i - 1]);
                            assert(y[i] == y.drop_first()[i - 1]);
                        }
                    }
                    assert(x =~= y);
                }
                if x == y {
                    assert(x.drop_first() =~= y.drop_first());
                }
            }
        } else {
            assert(x != y) by {
                if x == y {
                    assert(x[0] == y[0]);
                }
            }
        }
    }
}

/// On fixed-width decimal renderings, lexicographic order is numeric order,
/// and equal renderings mean equal numbers.
pub proof fn lemma_dec_seq_order(a: nat, b: nat, w: nat)
    requires
        a < pow10(w),
        b < pow10(w),
    ensures
        lex_lt(dec_seq(a, w), dec_seq(b, w)) == (a < b),
        (dec_seq(a, w) == dec_seq(b, w)) == (a == b),
    decreases w,
{
    if w == 0 {
        assert(pow10(0) == 1);
        assert(dec_seq(a, w) =~= dec_seq(b, w));
    } else {
        let wp = (w - 1) as nat;
        let xa = dec_seq(a / 10, wp);
        let xb = dec_seq(b / 10, wp);
        let da = digit_char(a % 10);
        let db = digit_char(b % 10);
        assert(dec_seq(a, w) =~= xa + seq![da]);
        assert(dec_seq(b, w) =~= xb + seq![db]);
        lemma_dec_seq_len(a / 10, wp);
        lemma_dec_seq_len(b / 10, wp);
        assert(a / 10 < pow10(wp) && b / 10 < pow10(wp)) by (nonlinear_arith)
            requires
                a < 10 * pow10(wp),
                b < 10 * pow10(wp),
        ;
        lemma_dec_seq_order(a / 10, b / 10, wp);
        lemma_lex_concat(xa, xb, seq![da], seq![db]);
        // A singleton comparison is a digit comparison.
        assert(lex_lt(seq![da], seq![db]) == (da != db && (da as u32) < (db as u32))) by {
            reveal_with_fuel(lex_lt, 2);
            assert(seq![da].drop_first() =~= Seq::<char>::empty());
            assert(seq![db].drop_first() =~= Seq::<char>::empty());
        }
        assert((da as u32) == 48 + a % 10 && (db as u32) == 48 + b % 10);
        assert((lex_lt(seq![da], seq![db])) == (a % 10 < b % 10));
        assert((da == db) == (a % 10 == b % 10));
        assert((seq![da] =~= seq![db]) == (da == db));
        assert(((xa + seq![da]) == (xb + seq![db])) == (xa == xb && da == db)) by {
            if xa == xb && da == db {
                assert(xa + seq![da] =~= xb + seq![db]);
            }
            if (xa + seq![da]) == (xb + seq![db]) {
                assert(da == (xa + seq![da])[wp as int]);
                assert(db == (xb + seq![db])[wp as int]);
                assert forall|i: int| 0 <= i < wp implies xa[i] == xb[i] by {
                    assert(xa[i] == (xa + seq![da])[i]);
                    assert(xb[i] == (xb + seq![db])[i]);
                }
                assert(xa =~= xb);
            }
        }
        // Combine digit-by-digit order with the value of a base-10 split.
        assert((a < b) == (a / 10 < b / 10 || (a / 10 == b / 10 && a % 10 < b % 10)))
            by (nonlinear_arith);
        assert((a == b) == (a / 10 == b / 10 && a % 10 == b % 10)) by (nonlinear_arith);
    }
}

/// Leaf of string rendering: one digit as a string slice.
fn digit_str(d: u64) -> (r: &'static str)
    requires
        d < 10,
    ensures
        r@ =~= seq![digit_char(d as nat)],
{
    proof {
        reveal_strlit("0");
        reveal_strlit("1");
        reveal_strlit("2");
        reveal_strlit("3");
        reveal_strlit("4");
        reveal_strlit("5");
        reveal_strlit("6");
        reveal_strlit("7");
        reveal_strlit("8");
        reveal_strlit("9");
    }
    if d == 0 {
        "0"
    } else if d == 1 {
        "1"
    } else if d == 2 {
        "2"
    } else if d == 3 {
        "3"
    } else if d == 4 {
        "4"
    } else if d == 5 {
        "5"
    } else if d == 6 {
        "6"
    } else if d == 7 {
        "7"
    } else if d == 8 {
        "8"
    } else {
        "9"
    }
}

/// The `w` least significant decimal digits of `n`, most significant first.
pub fn dec_width(n: u64, w: usize) -> (r: String)
    ensures
        r@ == dec_seq(n as nat, w as nat),
        r@.len() == w,
    decreases w,
{
    proof {
        lemma_dec_seq_len(n as nat, w as nat);
    }
    if w == 0 {
        String::new()
    } else {
        let mut s = dec_width(n / 10, w - 1);
        let d = digit_str(n % 10);
        s.append(d);
        proof {
            assert(dec_seq((n / 10) as nat, (w - 1) as nat).push(digit_char((n % 10) as nat))
                =~= dec_seq((n / 10) as nat, (w - 1) as nat) + d@);
        }
        s
    }
}

/// Number of decimal digits of `n`.
pub fn decimal_len(n: u64) -> (r: usize)
    ensures
        r == digit_len(n as nat),
        1 <= r <= 20,
    decreases n,
{
    proof {
        assert((n as nat) < pow10(20)) by {
            reveal_with_fuel(pow10, 21);
        }
        lemma_digit_len_le(n as nat, 20);
        lemma_digit_len_bound(n as nat);
    }
    if n < 10 {
        1
    } else {
        1 + decimal_len(n / 10)
    }
}

/// Decimal representation of `n`, zero-padded to at least `min_width` digits.
pub fn padded_dec(n: u64, min_width: usize) -> (r: String)
    ensures
        r@ == padded_decimal(n as nat, min_width as nat),
        r@.len() >= min_width,
{
    let len = decimal_len(n);
    let w = if len > min_width {
        len
    } else {
        min_width
    };
    proof {
        lemma_dec_seq_len(n as nat, w as nat);
    }
    dec_width(n, w)
}

} // verus!
