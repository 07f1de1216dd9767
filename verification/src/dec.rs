//! Signed arbitrary-precision decimal numbers.
//!
//! A `Dec` denotes the rational number `mant() / 10^scale`, where the
//! mantissa is held as a little-endian digit vector.  Addition,
//! multiplication, negation and comparison are exact; their contracts
//! pin the resulting mantissa and scale.
use vstd::prelude::*;

use crate::digits::digit_at;
use crate::digits::digits_wf;
use crate::digits::lemma_p10_adds;
use crate::digits::lemma_p10_pos;
use crate::digits::p10;
use crate::digits::seq_val;
use crate::digits::u_add;
use crate::digits::u_cmp;
use crate::digits::u_is_zero;
use crate::digits::u_mul;
use crate::digits::u_shift;
use crate::digits::u_sub;
use crate::digits::val_below;
use crate::Cmp;

verus! {

/// A signed decimal: `mant() / 10^scale`.
pub struct Dec {
    pub neg: bool,
    pub mag: Vec<u8>,
    pub scale: usize,
}

impl Dec {
    /// Digits are decimal and a negative number has a non-zero magnitude,
    /// so zero has a unique sign.
    pub open spec fn wf(self) -> bool {
        digits_wf(self.mag@) && (self.neg ==> seq_val(self.mag@) > 0)
    }

    /// The signed integer mantissa.
    pub open spec fn mant(self) -> int {
        if self.neg {
            -seq_val(self.mag@)
        } else {
            seq_val(self.mag@)
        }
    }
}

/// `a` denotes a strictly smaller number than `b`.
pub open spec fn dec_lt(a: Dec, b: Dec) -> bool {
    a.mant() * p10(b.scale as nat) < b.mant() * p10(a.scale as nat)
}

/// `a` and `b` denote the same number.
pub open spec fn dec_eq(a: Dec, b: Dec) -> bool {
    a.mant() * p10(b.scale as nat) == b.mant() * p10(a.scale as nat)
}

/// The number zero.
pub fn dec_zero() -> (r: Dec)
    ensures
        r.wf(),
        r.mant() == 0,
        r.scale == 0,
{
    Dec { neg: false, mag: Vec::new(), scale: 0 }
}

/// The decimal denoting the given integer.
pub fn dec_from_u64(n: u64) -> (r: Dec)
    ensures
        r.wf(),
        r.mant() == n,
        r.scale == 0,
{
    let mut mag: Vec<u8> = Vec::new();
    let mut m: u64 = n;
    while m > 0
        invariant
            digits_wf(mag@),
            seq_val(mag@) + m * p10(mag@.len() as nat) == n,
        decreases m,
    {
        let d: u8 = (m % 10) as u8;
        proof {
            let i = mag@.len() as int;
            let oldv = seq_val(mag@);
            assert(val_below(mag@.push(d), i + 1) == val_below(mag@.push(d), i) + digit_at(
                mag@.push(d),
                i,
            ) * p10(i as nat));
            crate::digits::lemma_val_below_congr(mag@.push(d), mag@, i);
            lemma_p10_pos(i as nat);
            assert(oldv + (m % 10) * p10(i as nat) + (m / 10) * (10 * p10(i as nat)) == oldv + m
                * p10(i as nat)) by (nonlinear_arith)
                requires
                    m >= 0 && p10(i as nat) >= 1,
            ;
        }
        mag.push(d);
        m = m / 10;
    }
    proof {
        assert(m * p10(mag@.len() as nat) == 0) by (nonlinear_arith)
            requires
                m == 0,
        ;
    }
    Dec { neg: false, mag, scale: 0 }
}

/// An independent copy of the same decimal.
pub fn dec_clone(a: &Dec) -> (r: Dec)
    requires
        a.wf(),
    ensures
        r.neg == a.neg,
        r.mag@ == a.mag@,
        r.scale == a.scale,
{
    let mag = u_shift(&a.mag, 0);
    proof {
        assert(mag@ =~= a.mag@);
    }
    Dec { neg: a.neg, mag, scale: a.scale }
}

/// The same number with the opposite sign.
pub fn dec_neg(a: &Dec) -> (r: Dec)
    requires
        a.wf(),
    ensures
        r.wf(),
        r.mant() == -a.mant(),
        r.scale == a.scale,
{
    let m = u_shift(&a.mag, 0);
    proof {
        assert(seq_val(a.mag@) * 1 == seq_val(a.mag@)) by (nonlinear_arith);
        crate::digits::lemma_val_below_bounds(m@, m@.len() as int);
    }
    if u_is_zero(&m) {
        Dec { neg: false, mag: m, scale: a.scale }
    } else {
        Dec { neg: !a.neg, mag: m, scale: a.scale }
    }
}

/// Exact addition; the result carries the larger of the two scales.
pub fn dec_add(a: &Dec, b: &Dec) -> (r: Dec)
    requires
        a.wf(),
        b.wf(),
    ensures
        r.wf(),
        r.scale == if a.scale >= b.scale {
            a.scale
        } else {
            b.scale
        },
        r.mant() == a.mant() * p10((r.scale - a.scale) as nat) + b.mant() * p10(
            (r.scale - b.scale) as nat,
        ),
{
    let t: usize = if a.scale >= b.scale {
        a.scale
    } else {
        b.scale
    };
    let am = u_shift(&a.mag, t - a.scale);
    let bm = u_shift(&b.mag, t - b.scale);
    proof {
        lemma_p10_pos((t - a.scale) as nat);
        lemma_p10_pos((t - b.scale) as nat);
        crate::digits::lemma_seq_val_nonneg(a.mag@);
        crate::digits::lemma_seq_val_nonneg(b.mag@);
        lemma_signed_scale(a.neg, seq_val(a.mag@), p10((t - a.scale) as nat));
        lemma_signed_scale(b.neg, seq_val(b.mag@), p10((t - b.scale) as nat));
    }
    if a.neg == b.neg {
        let mag = u_add(&am, &bm);
        let z = u_is_zero(&mag);
        let neg = a.neg && !z;
        Dec { neg, mag, scale: t }
    } else {
        match u_cmp(&am, &bm) {
            Cmp::Eq => {
                let mag = Vec::new();
                Dec { neg: false, mag, scale: t }
            },
            Cmp::Gt => {
                let mag = u_sub(&am, &bm);
                Dec { neg: a.neg, mag, scale: t }
            },
            Cmp::Lt => {
                let mag = u_sub(&bm, &am);
                Dec { neg: b.neg, mag, scale: t }
            },
        }
    }
}

/// Multiplying a non-negative magnitude by a positive power of ten keeps
/// the sign of the signed reading.
proof fn lemma_signed_scale(neg: bool, v: int, p: int)
    requires
        v >= 0,
        p >= 1,
    ensures
        (if neg {
            -v
        } else {
            v
        }) * p == if neg {
            -(v * p)
        } else {
            (v * p)
        },
        v * p >= 0,
        v > 0 ==> v * p > 0,
{
    assert((-v) * p == -(v * p)) by (nonlinear_arith);
    assert(v * p >= 0 && (v > 0 ==> v * p > 0)) by (nonlinear_arith)
        requires
            v >= 0 && p >= 1,
    ;
}

/// Exact multiplication; mantissas multiply and scales add.
pub fn dec_mul(a: &Dec, b: &Dec) -> (r: Dec)
    requires
        a.wf(),
        b.wf(),
        a.scale + b.scale <= usize::MAX,
    ensures
        r.wf(),
        r.scale == a.scale + b.scale,
        r.mant() == a.mant() * b.mant(),
{
    let mag = u_mul(&a.mag, &b.mag);
    let z = u_is_zero(&mag);
    let neg = (a.neg != b.neg) && !z;
    proof {
        let va = seq_val(a.mag@);
        let vb = seq_val(b.mag@);
        crate::digits::lemma_seq_val_nonneg(a.mag@);
        crate::digits::lemma_seq_val_nonneg(b.mag@);
        assert((-va) * vb == -(va * vb) && va * (-vb) == -(va * vb) && (-va) * (-vb) == va * vb)
            by (nonlinear_arith);
        if a.neg || b.neg {
            assert(va * vb > 0 || va * vb == 0) by (nonlinear_arith)
                requires
                    va >= 0 && vb >= 0,
            ;
        }
        assert(va * vb >= 0) by (nonlinear_arith)
            requires
                va >= 0 && vb >= 0,
        ;
    }
    Dec { neg, mag, scale: a.scale + b.scale }
}

/// For a positive factor, multiplying both sides keeps order and equality.
proof fn lemma_mul_order_iff(x: int, y: int, p: int)
    requires
        p >= 1,
    ensures
        (x < y) <==> (x * p < y * p),
        (x == y) <==> (x * p == y * p),
{
    assert(((x < y) <==> (x * p < y * p)) && ((x == y) <==> (x * p == y * p)))
        by (nonlinear_arith)
        requires
            p >= 1,
    ;
}

/// Three-way comparison of the denoted numbers.
pub fn dec_cmp(a: &Dec, b: &Dec) -> (r: Cmp)
    requires
        a.wf(),
        b.wf(),
    ensures
        r is Lt <==> dec_lt(*a, *b),
        r is Gt <==> dec_lt(*b, *a),
        r is Eq <==> dec_eq(*a, *b),
{
    let t: usize = if a.scale >= b.scale {
        a.scale
    } else {
        b.scale
    };
    let am = u_shift(&a.mag, t - a.scale);
    let bm = u_shift(&b.mag, t - b.scale);
    proof {
        lemma_p10_pos((t - a.scale) as nat);
        lemma_p10_pos((t - b.scale) as nat);
        lemma_p10_pos(a.scale as nat);
        lemma_p10_pos(b.scale as nat);
        lemma_p10_adds(b.scale as nat, (t - a.scale) as nat);
        lemma_p10_adds(a.scale as nat, (t - b.scale) as nat);
        crate::digits::lemma_seq_val_nonneg(a.mag@);
        crate::digits::lemma_seq_val_nonneg(b.mag@);
        lemma_signed_scale(a.neg, seq_val(a.mag@), p10((t - a.scale) as nat));
        lemma_signed_scale(b.neg, seq_val(b.mag@), p10((t - b.scale) as nat));
        // Both cross-multiplied forms live at the common scale `t`:
        // a.mant * p10(b.scale) * p10(t - a.scale - b.scale)... compare via
        // signed values of the shifted magnitudes.
        lemma_cmp_scaled(*a, *b, t as int, seq_val(am@), seq_val(bm@));
    }
    if a.neg && !b.neg {
        proof {
            crate::digits::lemma_val_below_bounds(bm@, bm@.len() as int);
        }
        return Cmp::Lt;
    }
    if !a.neg && b.neg {
        proof {
            crate::digits::lemma_val_below_bounds(am@, am@.len() as int);
        }
        return Cmp::Gt;
    }
    let c = u_cmp(&am, &bm);
    match c {
        Cmp::Eq => Cmp::Eq,
        Cmp::Lt => {
            if a.neg && b.neg {
                Cmp::Gt
            } else {
                Cmp::Lt
            }
        },
        Cmp::Gt => {
            if a.neg && b.neg {
                Cmp::Lt
            } else {
                Cmp::Gt
            }
        },
    }
}

/// The digit a character denotes, if any.
pub open spec fn digit_of(c: char) -> Option<u8> {
    if c == '0' {
        Some(0)
    } else if c == '1' {
        Some(1)
    } else if c == '2' {
        Some(2)
    } else if c == '3' {
        Some(3)
    } else if c == '4' {
        Some(4)
    } else if c == '5' {
        Some(5)
    } else if c == '6' {
        Some(6)
    } else if c == '7' {
        Some(7)
    } else if c == '8' {
        Some(8)
    } else if c == '9' {
        Some(9)
    } else {
        None
    }
}

/// Reading of an unsigned decimal literal: the accumulated integer value,
/// the number of digits after a dot if one was seen, and the digit count.
pub open spec fn parse_mag(s: Seq<char>) -> Option<(int, Option<nat>, nat)>
    decreases s.len(),
{
    if s.len() == 0 {
        Some((0int, None::<nat>, 0nat))
    } else {
        match parse_mag(s.drop_last()) {
            None => None,
            Some((v, dot, cnt)) => {
                let c = s.last();
                if c == '.' {
                    if dot is Some {
                        None
                    } else {
                        Some((v, Some(0nat), cnt))
                    }
                } else {
                    match digit_of(c) {
                        None => None,
                        Some(d) => Some(
                            (
                                v * 10 + d,
                                match dot {
                                    Some(k) => Some((k + 1) as nat),
                                    None => None,
                                },
                                (cnt + 1) as nat,
                            ),
                        ),
                    }
                }
            },
        }
    }
}

/// Reading of a signed decimal literal: the signed mantissa and the scale.
/// A lone sign, a second dot, a stray character, or a string without any
/// digit reads as nothing.
pub open spec fn parse_dec_str(s: Seq<char>) -> Option<(int, nat)> {
    let neg = s.len() > 0 && s[0] == '-';
    let rest = if neg {
        s.drop_first()
    } else {
        s
    };
    match parse_mag(rest) {
        None => None,
        Some((v, dot, cnt)) => if cnt == 0 {
            None
        } else {
            Some(
                (
                    if neg {
                        -v
                    } else {
                        v
                    },
                    match dot {
                        Some(k) => k,
                        None => 0nat,
                    },
                ),
            )
        },
    }
}

/// Once a prefix fails to read, the whole string fails to read.
proof fn lemma_parse_mag_prefix_none(s: Seq<char>, m: int)
    requires
        0 <= m <= s.len(),
        parse_mag(s.take(m)) is None,
    ensures
        parse_mag(s) is None,
    decreases s.len() - m,
{
    if m == s.len() {
        assert(s.take(m) =~= s);
    } else {
        assert(s.take(m + 1).drop_last() =~= s.take(m));
        lemma_parse_mag_prefix_none(s, m + 1);
    }
}

/// The digit a character denotes, if any.
fn digit_char_val(c: char) -> (r: Option<u8>)
    ensures
        r == digit_of(c),
{
    if c == '0' {
        Some(0)
    } else if c == '1' {
        Some(1)
    } else if c == '2' {
        Some(2)
    } else if c == '3' {
        Some(3)
    } else if c == '4' {
        Some(4)
    } else if c == '5' {
        Some(5)
    } else if c == '6' {
        Some(6)
    } else if c == '7' {
        Some(7)
    } else if c == '8' {
        Some(8)
    } else if c == '9' {
        Some(9)
    } else {
        None
    }
}

/// Reads a plain decimal literal such as `-12.0034`.  Returns the number
/// it denotes, or nothing when the string is not a decimal literal.
/// Only plain literals are read: exponent forms (`1e5`) and a leading
/// plus sign are rejected, a deliberate narrowing to what rate feeds
/// carry and what the grammar below states exactly.
pub fn dec_from_str(s: &str) -> (r: Option<Dec>)
    ensures
        r is Some <==> parse_dec_str(s@) is Some,
        r matches Some(d) ==> d.wf() && parse_dec_str(s@) == Some((d.mant(), d.scale as nat)),
{
    let n = s.unicode_len();
    let neg_sign = n > 0 && s.get_char(0) == '-';
    let start: usize = if neg_sign {
        1
    } else {
        0
    };
    let ghost rest: Seq<char> = if neg_sign {
        s@.drop_first()
    } else {
        s@
    };
    let mut mag: Vec<u8> = Vec::new();
    let mut seen_dot: bool = false;
    let mut scale: usize = 0;
    let mut cnt: usize = 0;
    let mut i: usize = start;
    proof {
        assert(rest.take(0) =~= Seq::<char>::empty());
    }
    while i < n
        invariant
            n == s@.len(),
            start <= i <= n,
            neg_sign == (s@.len() > 0 && s@[0] == '-'),
            start == if neg_sign {
                1int
            } else {
                0int
            },
            rest == if neg_sign {
                s@.drop_first()
            } else {
                s@
            },
            digits_wf(mag@),
            cnt <= i,
            scale <= i,
            !seen_dot ==> scale == 0,
            parse_mag(rest.take(i - start)) == Some(
                (
                    seq_val(mag@),
                    if seen_dot {
                        Some(scale as nat)
                    } else {
                        None::<nat>
                    },
                    cnt as nat,
                ),
            ),
        decreases n - i,
    {
        let c = s.get_char(i);
        proof {
            assert(rest.take(i - start + 1).drop_last() =~= rest.take(i - start));
            assert(rest.take(i - start + 1).last() == rest[i - start]);
            assert(rest[i - start] == c);
        }
        if c == '.' {
            if seen_dot {
                proof {
                    lemma_parse_mag_prefix_none(rest, i - start + 1);
                }
                return None;
            }
            seen_dot = true;
        } else {
            match digit_char_val(c) {
                None => {
                    proof {
                        lemma_parse_mag_prefix_none(rest, i - start + 1);
                    }
                    return None;
                },
                Some(d) => {
                    proof {
                        assert(d < 10);
                    }
                    let ghost vprev: int = seq_val(mag@);
                    let shifted = u_shift(&mag, 1);
                    let mut unit: Vec<u8> = Vec::new();
                    unit.push(d);
                    proof {
                        assert(seq_val(unit@) == val_below(unit@, 1));
                        assert(digit_at(unit@, 0) == d as int);
                        assert(p10(1) == 10 * p10(0));
                        assert(p10(0) == 1);
                        assert(val_below(unit@, 0) == 0);
                        assert(val_below(unit@, 1) == val_below(unit@, 0) + digit_at(unit@, 0)
                            * p10(0));
                        assert(seq_val(unit@) == d as int);
                        assert(seq_val(shifted@) == vprev * 10);
                    }
                    mag = u_add(&shifted, &unit);
                    proof {
                        assert(seq_val(mag@) == vprev * 10 + d);
                    }
                    cnt = cnt + 1;
                    if seen_dot {
                        scale = scale + 1;
                    }
                },
            }
        }
        i = i + 1;
    }
    proof {
        assert(rest.take(n - start) =~= rest);
    }
    if cnt == 0 {
        return None;
    }
    let z = u_is_zero(&mag);
    let neg = neg_sign && !z;
    proof {
        crate::digits::lemma_seq_val_nonneg(mag@);
    }
    Some(Dec { neg, mag, scale })
}

/// Cross-multiplied comparison agrees with comparison of the magnitudes
/// once both numbers are brought to a common scale.
proof fn lemma_cmp_scaled(a: Dec, b: Dec, t: int, va: int, vb: int)
    requires
        a.wf(),
        b.wf(),
        t >= a.scale,
        t >= b.scale,
        t <= a.scale + b.scale,
        va == seq_val(a.mag@) * p10((t - a.scale) as nat),
        vb == seq_val(b.mag@) * p10((t - b.scale) as nat),
    ensures
        dec_lt(a, b) <==> (if a.neg {
            -va
        } else {
            va
        }) < (if b.neg {
            -vb
        } else {
            vb
        }),
        dec_eq(a, b) <==> (if a.neg {
            -va
        } else {
            va
        }) == (if b.neg {
            -vb
        } else {
            vb
        }),
{
    let d = (t - a.scale - b.scale) as int;
    let e: int = if d >= 0 {
        d
    } else {
        0
    };
    // t <= a.scale + b.scale can fail only when one scale is 0; handle both
    // through the factored forms below.
    let pa = p10((t - a.scale) as nat);
    let pb = p10((t - b.scale) as nat);
    lemma_p10_pos((t - a.scale) as nat);
    lemma_p10_pos((t - b.scale) as nat);
    lemma_p10_pos(a.scale as nat);
    lemma_p10_pos(b.scale as nat);
    // a.mant * p10(b.scale) and b.mant * p10(a.scale), both multiplied by
    // p10(t - a.scale - b.scale) >= 1 when t >= a.scale + b.scale; otherwise
    // t == max(a.scale, b.scale) and the factors already match.
    assert(t - a.scale <= b.scale || t - b.scale <= a.scale);
    if t - a.scale <= b.scale {
        let k = (b.scale - (t - a.scale)) as nat;
        lemma_p10_adds((t - a.scale) as nat, k);
        assert(p10(b.scale as nat) == pa * p10(k));
        lemma_p10_pos(k);
        lemma_p10_adds((t - b.scale) as nat, k);
        assert(p10(k + (t - b.scale) as nat) == p10((t - b.scale) as nat) * p10(k));
        assert(k + (t - b.scale) == a.scale);
        assert(p10(a.scale as nat) == pb * p10(k));
        lemma_mul_order_iff(a.mant() * pa, b.mant() * pb, p10(k));
        assert((a.mant() * pa) * p10(k) == a.mant() * (pa * p10(k))) by (nonlinear_arith);
        assert((b.mant() * pb) * p10(k) == b.mant() * (pb * p10(k))) by (nonlinear_arith);
        assert(a.mant() * pa == (if a.neg {
            -va
        } else {
            va
        })) by (nonlinear_arith)
            requires
                va == seq_val(a.mag@) * pa && (a.neg ==> a.mant() == -seq_val(a.mag@)) && (!a.neg
                    ==> a.mant() == seq_val(a.mag@)),
        ;
        assert(b.mant() * pb == (if b.neg {
            -vb
        } else {
            vb
        })) by (nonlinear_arith)
            requires
                vb == seq_val(b.mag@) * pb && (b.neg ==> b.mant() == -seq_val(b.mag@)) && (!b.neg
                    ==> b.mant() == seq_val(b.mag@)),
        ;
    } else {
        let k = (a.scale - (t - b.scale)) as nat;
        lemma_p10_adds((t - b.scale) as nat, k);
        assert(p10(a.scale as nat) == pb * p10(k));
        lemma_p10_pos(k);
        lemma_p10_adds((t - a.scale) as nat, k);
        assert(k + (t - a.scale) == b.scale);
        assert(p10(b.scale as nat) == pa * p10(k));
        lemma_mul_order_iff(a.mant() * pa, b.mant() * pb, p10(k));
        assert((a.mant() * pa) * p10(k) == a.mant() * (pa * p10(k))) by (nonlinear_arith);
        assert((b.mant() * pb) * p10(k) == b.mant() * (pb * p10(k))) by (nonlinear_arith);
        assert(a.mant() * pa == (if a.neg {
            -va
        } else {
            va
        })) by (nonlinear_arith)
            requires
                va == seq_val(a.mag@) * pa && (a.neg ==> a.mant() == -seq_val(a.mag@)) && (!a.neg
                    ==> a.mant() == seq_val(a.mag@)),
        ;
        assert(b.mant() * pb == (if b.neg {
            -vb
        } else {
            vb
        })) by (nonlinear_arith)
            requires
                vb == seq_val(b.mag@) * pb && (b.neg ==> b.mant() == -seq_val(b.mag@)) && (!b.neg
                    ==> b.mant() == seq_val(b.mag@)),
        ;
    }
}

} // verus!
