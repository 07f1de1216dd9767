//! Little-endian base-10 digit vectors with exact integer semantics.
//!
//! A `Vec<u8>` holds the digits of a non-negative integer, least
//! significant digit first.  `seq_val` gives the integer a vector
//! denotes, and every operation here is proved against it.
use vstd::prelude::*;

verus! {

/// Every element is a decimal digit.
pub open spec fn digits_wf(s: Seq<u8>) -> bool {
    forall|i: int| 0 <= i < s.len() ==> s[i] < 10
}

/// Digit at position `i`, reading positions past the end as zero.
pub open spec fn digit_at(s: Seq<u8>, i: int) -> int {
    if 0 <= i < s.len() {
        s[i] as int
    } else {
        0
    }
}

/// Ten to the power `n`.
pub open spec fn p10(n: nat) -> int
    decreases n,
{
    if n == 0 {
        1
    } else {
        10 * p10((n - 1) as nat)
    }
}

/// Value of the digits at positions below `n`.
pub open spec fn val_below(s: Seq<u8>, n: int) -> int
    decreases n,
{
    if n <= 0 {
        0
    } else {
        val_below(s, n - 1) + digit_at(s, n - 1) * p10((n - 1) as nat)
    }
}

/// The integer a digit vector denotes.
pub open spec fn seq_val(s: Seq<u8>) -> int {
    val_below(s, s.len() as int)
}

/// Value of the digits at positions `i` and above, shifted down by `i`.
pub open spec fn val_from(s: Seq<u8>, i: int) -> int
    decreases s.len() - i,
{
    if i < 0 || i >= s.len() {
        0
    } else {
        digit_at(s, i) + 10 * val_from(s, i + 1)
    }
}

pub proof fn lemma_p10_pos(n: nat)
    ensures
        p10(n) >= 1,
    decreases n,
{
    if n > 0 {
        lemma_p10_pos((n - 1) as nat);
    }
}

pub proof fn lemma_p10_adds(a: nat, b: nat)
    ensures
        p10(a + b) == p10(a) * p10(b),
    decreases a,
{
    if a == 0 {
    } else {
        lemma_p10_adds((a - 1) as nat, b);
        assert(p10(a + b) == 10 * p10((a + b - 1) as nat));
        assert(10 * (p10((a - 1) as nat) * p10(b)) == (10 * p10((a - 1) as nat)) * p10(b))
            by (nonlinear_arith);
    }
}

/// Two vectors that agree on all positions below `n` have the same value below `n`.
pub proof fn lemma_val_below_congr(s: Seq<u8>, t: Seq<u8>, n: int)
    requires
        forall|j: int| 0 <= j < n ==> digit_at(s, j) == digit_at(t, j),
    ensures
        val_below(s, n) == val_below(t, n),
    decreases n,
{
    if n > 0 {
        lemma_val_below_congr(s, t, n - 1);
    }
}

/// Beyond the last digit the value stops growing.
pub proof fn lemma_val_below_ext(s: Seq<u8>, n: int)
    requires
        n >= s.len(),
    ensures
        val_below(s, n) == seq_val(s),
    decreases n,
{
    if n > s.len() {
        lemma_val_below_ext(s, n - 1);
    }
}

pub proof fn lemma_val_below_bounds(s: Seq<u8>, n: int)
    requires
        digits_wf(s),
        n >= 0,
    ensures
        0 <= val_below(s, n) < p10(n as nat),
    decreases n,
{
    if n == 0 {
    } else {
        lemma_val_below_bounds(s, n - 1);
        lemma_p10_pos((n - 1) as nat);
        assert(digit_at(s, n - 1) <= 9);
        assert(digit_at(s, n - 1) * p10((n - 1) as nat) <= 9 * p10((n - 1) as nat))
            by (nonlinear_arith)
            requires
                digit_at(s, n - 1) <= 9 && p10((n - 1) as nat) >= 1,
        ;
        assert(digit_at(s, n - 1) * p10((n - 1) as nat) >= 0) by (nonlinear_arith)
            requires
                digit_at(s, n - 1) >= 0 && p10((n - 1) as nat) >= 1,
        ;
        assert(val_below(s, n - 1) + 9 * p10((n - 1) as nat) < 10 * p10((n - 1) as nat));
    }
}

/// If the digits agree at and above position `i` up to `n`, except that
/// `s` has the strictly smaller digit at `i`, then `s` denotes the
/// smaller value below `n`.
pub proof fn lemma_val_below_lt(s: Seq<u8>, t: Seq<u8>, i: int, n: int)
    requires
        digits_wf(s),
        digits_wf(t),
        0 <= i < n,
        digit_at(s, i) < digit_at(t, i),
        forall|j: int| i < j < n ==> digit_at(s, j) == digit_at(t, j),
    ensures
        val_below(s, n) < val_below(t, n),
    decreases n - i,
{
    if n == i + 1 {
        lemma_val_below_bounds(s, i);
        lemma_val_below_bounds(t, i);
        lemma_p10_pos(i as nat);
        assert(digit_at(s, i) * p10(i as nat) + p10(i as nat) <= digit_at(t, i) * p10(i as nat))
            by (nonlinear_arith)
            requires
                digit_at(s, i) < digit_at(t, i) && p10(i as nat) >= 1,
        ;
    } else {
        lemma_val_below_lt(s, t, i, n - 1);
        lemma_p10_pos((n - 1) as nat);
        assert(digit_at(s, n - 1) == digit_at(t, n - 1));
    }
}

/// `val_from` at position 0 is the whole value.
pub proof fn lemma_val_from_all(s: Seq<u8>, i: int)
    requires
        0 <= i <= s.len(),
    ensures
        seq_val(s) == val_below(s, i) + p10(i as nat) * val_from(s, i),
    decreases s.len() - i,
{
    if i == s.len() {
        lemma_val_below_ext(s, i);
    } else {
        lemma_val_from_all(s, i + 1);
        lemma_p10_pos(i as nat);
        assert(p10((i + 1) as nat) == 10 * p10(i as nat));
        assert(p10(i as nat) * (digit_at(s, i) + 10 * val_from(s, i + 1)) == digit_at(s, i) * p10(
            i as nat,
        ) + (10 * p10(i as nat)) * val_from(s, i + 1)) by (nonlinear_arith);
    }
}

/// A well-formed digit vector denotes a non-negative integer.
pub proof fn lemma_seq_val_nonneg(s: Seq<u8>)
    requires
        digits_wf(s),
    ensures
        seq_val(s) >= 0,
{
    lemma_val_below_bounds(s, s.len() as int);
}

/// Digit-vector addition.
pub fn u_add(a: &Vec<u8>, b: &Vec<u8>) -> (r: Vec<u8>)
    requires
        digits_wf(a@),
        digits_wf(b@),
    ensures
        digits_wf(r@),
        seq_val(r@) == seq_val(a@) + seq_val(b@),
{
    let n = if a.len() > b.len() {
        a.len()
    } else {
        b.len()
    };
    let mut out: Vec<u8> = Vec::new();
    let mut carry: u8 = 0;
    let mut i: usize = 0;
    while i < n
        invariant
            digits_wf(a@),
            digits_wf(b@),
            i <= n,
            n >= a@.len(),
            n >= b@.len(),
            out@.len() == i,
            carry <= 1,
            digits_wf(out@),
            seq_val(out@) + carry * p10(i as nat) == val_below(a@, i as int) + val_below(
                b@,
                i as int,
            ),
        decreases n - i,
    {
        let da: u8 = if i < a.len() {
            a[i]
        } else {
            0
        };
        let db: u8 = if i < b.len() {
            b[i]
        } else {
            0
        };
        let s: u8 = da + db + carry;
        let dg: u8 = s % 10;
        let c2: u8 = s / 10;
        proof {
            let oldv = seq_val(out@);
            assert(val_below(out@.push(dg), i + 1) == val_below(out@.push(dg), i as int) + digit_at(
                out@.push(dg),
                i as int,
            ) * p10(i as nat));
            lemma_val_below_congr(out@.push(dg), out@, i as int);
            assert(digit_at(out@.push(dg), i as int) == dg as int);
            assert(seq_val(out@.push(dg)) == oldv + dg * p10(i as nat));
            assert(digit_at(a@, i as int) == da as int);
            assert(digit_at(b@, i as int) == db as int);
            assert(dg + 10 * c2 == da + db + carry);
            lemma_p10_pos(i as nat);
            assert(oldv + dg * p10(i as nat) + c2 * (10 * p10(i as nat)) == oldv + carry * p10(
                i as nat,
            ) + da * p10(i as nat) + db * p10(i as nat)) by (nonlinear_arith)
                requires
                    dg + 10 * c2 == da + db + carry && p10(i as nat) >= 1,
            ;
        }
        out.push(dg);
        carry = c2;
        i = i + 1;
    }
    proof {
        lemma_val_below_ext(a@, n as int);
        lemma_val_below_ext(b@, n as int);
    }
    if carry > 0 {
        proof {
            let oldv = seq_val(out@);
            assert(val_below(out@.push(carry), n + 1) == val_below(out@.push(carry), n as int)
                + digit_at(out@.push(carry), n as int) * p10(n as nat));
            lemma_val_below_congr(out@.push(carry), out@, n as int);
        }
        out.push(carry);
    }
    out
}

/// Digit-vector subtraction; the subtrahend may not exceed the minuend.
pub fn u_sub(a: &Vec<u8>, b: &Vec<u8>) -> (r: Vec<u8>)
    requires
        digits_wf(a@),
        digits_wf(b@),
        seq_val(b@) <= seq_val(a@),
    ensures
        digits_wf(r@),
        seq_val(r@) == seq_val(a@) - seq_val(b@),
{
    let n = if a.len() > b.len() {
        a.len()
    } else {
        b.len()
    };
    let mut out: Vec<u8> = Vec::new();
    let mut borrow: u8 = 0;
    let mut i: usize = 0;
    while i < n
        invariant
            digits_wf(a@),
            digits_wf(b@),
            i <= n,
            n >= a@.len(),
            n >= b@.len(),
            out@.len() == i,
            borrow <= 1,
            digits_wf(out@),
            seq_val(out@) == val_below(a@, i as int) - val_below(b@, i as int) + borrow * p10(
                i as nat,
            ),
        decreases n - i,
    {
        let da: u8 = if i < a.len() {
            a[i]
        } else {
            0
        };
        let db: u8 = if i < b.len() {
            b[i]
        } else {
            0
        };
        let s: u8 = da + 10 - db - borrow;
        let dg: u8 = s % 10;
        let b2: u8 = if s < 10 {
            1
        } else {
            0
        };
        proof {
            let oldv = seq_val(out@);
            assert(val_below(out@.push(dg), i + 1) == val_below(out@.push(dg), i as int) + digit_at(
                out@.push(dg),
                i as int,
            ) * p10(i as nat));
            lemma_val_below_congr(out@.push(dg), out@, i as int);
            assert(seq_val(out@.push(dg)) == oldv + dg * p10(i as nat));
            assert(digit_at(a@, i as int) == da as int);
            assert(digit_at(b@, i as int) == db as int);
            assert(borrow + dg == da - db + 10 * b2);
            lemma_p10_pos(i as nat);
            assert(oldv + dg * p10(i as nat) == val_below(a@, i as int) + da * p10(i as nat)
                - val_below(b@, i as int) - db * p10(i as nat) + b2 * (10 * p10(i as nat)))
                by (nonlinear_arith)
                requires
                    borrow + dg == da - db + 10 * b2 && p10(i as nat) >= 1 && oldv == val_below(
                        a@,
                        i as int,
                    ) - val_below(b@, i as int) + borrow * p10(i as nat),
            ;
        }
        out.push(dg);
        borrow = b2;
        i = i + 1;
    }
    proof {
        lemma_val_below_ext(a@, n as int);
        lemma_val_below_ext(b@, n as int);
        if borrow == 1 {
            lemma_val_below_bounds(out@, n as int);
            assert(false);
        }
    }
    out
}

/// Three-way magnitude comparison of digit vectors.
pub fn u_cmp(a: &Vec<u8>, b: &Vec<u8>) -> (r: crate::Cmp)
    requires
        digits_wf(a@),
        digits_wf(b@),
    ensures
        r is Lt <==> seq_val(a@) < seq_val(b@),
        r is Eq <==> seq_val(a@) == seq_val(b@),
        r is Gt <==> seq_val(a@) > seq_val(b@),
{
    let n = if a.len() > b.len() {
        a.len()
    } else {
        b.len()
    };
    proof {
        lemma_val_below_ext(a@, n as int);
        lemma_val_below_ext(b@, n as int);
    }
    let mut i: usize = n;
    while i > 0
        invariant
            digits_wf(a@),
            digits_wf(b@),
            i <= n,
            n >= a@.len(),
            n >= b@.len(),
            seq_val(a@) == val_below(a@, n as int),
            seq_val(b@) == val_below(b@, n as int),
            forall|j: int| i <= j < n ==> digit_at(a@, j) == digit_at(b@, j),
        decreases i,
    {
        i = i - 1;
        let da: u8 = if i < a.len() {
            a[i]
        } else {
            0
        };
        let db: u8 = if i < b.len() {
            b[i]
        } else {
            0
        };
        if da < db {
            proof {
                lemma_val_below_lt(a@, b@, i as int, n as int);
            }
            return crate::Cmp::Lt;
        }
        if da > db {
            proof {
                lemma_val_below_lt(b@, a@, i as int, n as int);
            }
            return crate::Cmp::Gt;
        }
    }
    proof {
        lemma_val_below_congr(a@, b@, n as int);
    }
    crate::Cmp::Eq
}

/// Multiplication of a digit vector by one digit.
pub fn u_mul_digit(b: &Vec<u8>, d: u8) -> (r: Vec<u8>)
    requires
        digits_wf(b@),
        d < 10,
    ensures
        digits_wf(r@),
        seq_val(r@) == d * seq_val(b@),
{
    let mut out: Vec<u8> = Vec::new();
    let mut carry: u8 = 0;
    let mut i: usize = 0;
    while i < b.len()
        invariant
            digits_wf(b@),
            d < 10,
            i <= b@.len(),
            out@.len() == i,
            carry <= 8,
            digits_wf(out@),
            seq_val(out@) + carry * p10(i as nat) == d * val_below(b@, i as int),
        decreases b@.len() - i,
    {
        proof {
            assert(b@[i as int] < 10);
            assert((d as int) * (b@[i as int] as int) <= 81) by (nonlinear_arith)
                requires
                    d < 10 && b@[i as int] < 10,
            ;
        }
        let t: u8 = d * b[i] + carry;
        let dg: u8 = t % 10;
        let c2: u8 = t / 10;
        proof {
            let oldv = seq_val(out@);
            assert(val_below(out@.push(dg), i + 1) == val_below(out@.push(dg), i as int) + digit_at(
                out@.push(dg),
                i as int,
            ) * p10(i as nat));
            lemma_val_below_congr(out@.push(dg), out@, i as int);
            assert(seq_val(out@.push(dg)) == oldv + dg * p10(i as nat));
            assert(digit_at(b@, i as int) == b@[i as int] as int);
            assert(dg + 10 * c2 == d * b@[i as int] + carry);
            lemma_p10_pos(i as nat);
            assert(oldv + dg * p10(i as nat) + c2 * (10 * p10(i as nat)) == d * (val_below(
                b@,
                i as int,
            ) + b@[i as int] * p10(i as nat))) by (nonlinear_arith)
                requires
                    dg + 10 * c2 == d * b@[i as int] + carry && p10(i as nat) >= 1 && oldv + carry
                        * p10(i as nat) == d * val_below(b@, i as int),
            ;
        }
        out.push(dg);
        carry = c2;
        i = i + 1;
    }
    if carry > 0 {
        proof {
            let oldv = seq_val(out@);
            assert(val_below(out@.push(carry), b@.len() as int + 1) == val_below(
                out@.push(carry),
                b@.len() as int,
            ) + digit_at(out@.push(carry), b@.len() as int) * p10(b@.len() as nat));
            lemma_val_below_congr(out@.push(carry), out@, b@.len() as int);
        }
        out.push(carry);
    }
    out
}

/// Appends `k` zero digits at the low end, multiplying the value by ten
/// to the power `k`.
pub fn u_shift(v: &Vec<u8>, k: usize) -> (r: Vec<u8>)
    requires
        digits_wf(v@),
    ensures
        digits_wf(r@),
        seq_val(r@) == seq_val(v@) * p10(k as nat),
        r@.len() == v@.len() + k,
        forall|t: int| 0 <= t < v@.len() ==> r@[k + t] == v@[t],
{
    let mut out: Vec<u8> = Vec::new();
    let mut i: usize = 0;
    while i < k
        invariant
            i <= k,
            out@.len() == i,
            digits_wf(out@),
            val_below(out@, i as int) == 0,
            forall|j: int| 0 <= j < i ==> digit_at(out@, j) == 0,
        decreases k - i,
    {
        proof {
            lemma_val_below_congr(out@.push(0u8), out@, i as int);
            assert(val_below(out@.push(0u8), i + 1) == val_below(out@.push(0u8), i as int)
                + digit_at(out@.push(0u8), i as int) * p10(i as nat));
            assert(digit_at(out@.push(0u8), i as int) == 0);
            assert forall|j: int| 0 <= j < i + 1 implies #[trigger] digit_at(out@.push(0u8), j)
                == 0 by {
                if j < i {
                    assert(out@.push(0u8)[j] == out@[j]);
                    assert(digit_at(out@, j) == 0);
                }
            }
        }
        out.push(0u8);
        i = i + 1;
    }
    let mut j: usize = 0;
    while j < v.len()
        invariant
            digits_wf(v@),
            j <= v@.len(),
            out@.len() == k + j,
            digits_wf(out@),
            forall|t: int| 0 <= t < k ==> digit_at(out@, t) == 0,
            val_below(out@, k as int) == 0,
            seq_val(out@) == val_below(v@, j as int) * p10(k as nat),
            forall|t: int| 0 <= t < j ==> out@[k + t] == v@[t],
        decreases v@.len() - j,
    {
        let d = v[j];
        proof {
            let oldv = seq_val(out@);
            let pos = (k + j) as int;
            assert(val_below(out@.push(d), pos + 1) == val_below(out@.push(d), pos) + digit_at(
                out@.push(d),
                pos,
            ) * p10(pos as nat));
            lemma_val_below_congr(out@.push(d), out@, pos);
            assert(seq_val(out@.push(d)) == oldv + d * p10(pos as nat));
            lemma_p10_adds(j as nat, k as nat);
            assert(digit_at(v@, j as int) == v@[j as int] as int);
            assert(oldv + d * (p10(j as nat) * p10(k as nat)) == (val_below(v@, j as int) + d * p10(
                j as nat,
            )) * p10(k as nat)) by (nonlinear_arith)
                requires
                    oldv == val_below(v@, j as int) * p10(k as nat),
            ;
            assert(forall|t: int|
                0 <= t < k ==> #[trigger] digit_at(out@.push(d), t) == digit_at(out@, t));
            lemma_val_below_congr(out@.push(d), out@, k as int);
        }
        out.push(d);
        j = j + 1;
    }
    out
}

/// Digit-vector multiplication, by Horner evaluation from the most
/// significant digit down.
pub fn u_mul(a: &Vec<u8>, b: &Vec<u8>) -> (r: Vec<u8>)
    requires
        digits_wf(a@),
        digits_wf(b@),
    ensures
        digits_wf(r@),
        seq_val(r@) == seq_val(a@) * seq_val(b@),
{
    let mut out: Vec<u8> = Vec::new();
    let mut i: usize = a.len();
    while i > 0
        invariant
            digits_wf(a@),
            digits_wf(b@),
            i <= a@.len(),
            digits_wf(out@),
            seq_val(out@) == val_from(a@, i as int) * seq_val(b@),
        decreases i,
    {
        i = i - 1;
        let shifted = u_shift(&out, 1);
        let part = u_mul_digit(b, a[i]);
        let next = u_add(&shifted, &part);
        proof {
            assert(val_from(a@, i as int) == digit_at(a@, i as int) + 10 * val_from(a@, i + 1));
            reveal_with_fuel(p10, 2);
            assert(p10(1) == 10);
            assert(seq_val(next@) == val_from(a@, i + 1) * seq_val(b@) * 10 + a@[i as int] * seq_val(
                b@,
            ));
            assert(val_from(a@, i + 1) * seq_val(b@) * 10 + a@[i as int] * seq_val(b@) == (digit_at(
                a@,
                i as int,
            ) + 10 * val_from(a@, i + 1)) * seq_val(b@)) by (nonlinear_arith)
                requires
                    digit_at(a@, i as int) == a@[i as int] as int,
            ;
        }
        out = next;
    }
    proof {
        lemma_val_from_all(a@, 0);
        assert(p10(0) == 1);
    }
    out
}

/// True exactly when the vector denotes zero.
pub fn u_is_zero(v: &Vec<u8>) -> (r: bool)
    requires
        digits_wf(v@),
    ensures
        r <==> seq_val(v@) == 0,
{
    let mut i: usize = 0;
    while i < v.len()
        invariant
            digits_wf(v@),
            i <= v@.len(),
            val_below(v@, i as int) == 0,
            forall|j: int| 0 <= j < i ==> digit_at(v@, j) == 0,
        decreases v@.len() - i,
    {
        if v[i] != 0 {
            proof {
                lemma_val_below_bounds(v@, i as int);
                lemma_p10_pos(i as nat);
                assert(digit_at(v@, i as int) * p10(i as nat) >= p10(i as nat)) by (nonlinear_arith)
                    requires
                        digit_at(v@, i as int) >= 1 && p10(i as nat) >= 1,
                ;
                assert(val_below(v@, i + 1) > 0);
                lemma_nonneg_from(v@, i + 1);
                lemma_val_below_ext(v@, v@.len() as int);
            }
            return false;
        }
        proof {
            assert(val_below(v@, i + 1) == val_below(v@, i as int) + digit_at(v@, i as int) * p10(
                i as nat,
            ));
            assert(digit_at(v@, i as int) == 0);
        }
        i = i + 1;
    }
    proof {
        lemma_val_below_ext(v@, v@.len() as int);
    }
    true
}

/// The value below a larger bound never drops when the digits are well formed.
proof fn lemma_nonneg_from(s: Seq<u8>, i: int)
    requires
        digits_wf(s),
        0 <= i,
    ensures
        val_below(s, s.len() as int) >= val_below(s, i),
    decreases
            if s.len() as int - i >= 0 {
                s.len() as int - i
            } else {
                0
            },
{
    if i < s.len() {
        lemma_nonneg_from(s, i + 1);
        lemma_p10_pos(i as nat);
        assert(digit_at(s, i) * p10(i as nat) >= 0) by (nonlinear_arith)
            requires
                digit_at(s, i) >= 0 && p10(i as nat) >= 1,
        ;
    } else {
        lemma_val_below_ext(s, i);
    }
}

} // verus!
