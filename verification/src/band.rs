//! The Wi-Fi band: which band the radio is on, which ones the access point
//! answers on, and how NetworkManager names a pinned band.

use vstd::prelude::*;
use crate::net::{Kind, Status};
use vstd::arithmetic::div_mod::{lemma_fundamental_div_mod, lemma_fundamental_div_mod_converse};
use vstd::arithmetic::power2::{lemma2_to64, lemma_pow2_strictly_increases, lemma_pow2_unfold, pow2};
use crate::number::{
    all_digits, digit_value, digits_at_most, digits_value, is_digit, lemma_digits_below,
    lemma_digits_shift_right, lemma_digits_split, lemma_log2_floor_bounds, lemma_pow10_adds,
    lemma_pow10_grows, lemma_pow2_pow5, log2_floor, pow10, pow5, pow5_of, round_even,
};
use crate::terse::{split_terse, terse_fields};
use crate::text::{
    chars_of, first_word, first_word_of, is, join, join_range, lines, split_lines, trim,
    trim_chars, string_views, views,
};

verus! {

// ---------------------------------------------------------------------------
// Frequencies
// ---------------------------------------------------------------------------

/// The length of a leading `+` or `-`.
pub open spec fn sign_len(t: Seq<char>) -> int {
    if t.len() > 0 && (t[0] == '+' || t[0] == '-') {
        1
    } else {
        0
    }
}

/// The digits before the point, the digits after it, and what follows.
pub open spec fn mantissa(u: Seq<char>) -> (Seq<char>, Seq<char>, Seq<char>) {
    let a = int_part_len(u);
    let r1 = u.skip(a as int);
    if r1.len() > 0 && r1[0] == '.' {
        let after = r1.drop_first();
        let f = int_part_len(after);
        (u.take(a as int), after.take(f as int), after.skip(f as int))
    } else {
        (u.take(a as int), seq![], r1)
    }
}

/// What may follow the digits: nothing, or `e` or `E`, an optional sign and
/// at least one digit; as whether the exponent is negative and its digits.
pub open spec fn exponent_part(r: Seq<char>) -> Option<(bool, Seq<char>)> {
    if r.len() == 0 {
        Some((false, seq![]))
    } else if r[0] == 'e' || r[0] == 'E' {
        let r3 = r.drop_first();
        let x = r3.skip(sign_len(r3));
        if x.len() > 0 && all_digits(x) {
            Some((sign_len(r3) == 1 && r3[0] == '-', x))
        } else {
            None
        }
    } else {
        None
    }
}

/// A number as Rust's `f64` parser reads it, in parts: the integer digits,
/// the fraction digits, whether the exponent is negative, and the
/// exponent's digits. The text is an optional sign, digits, an optional `.`
/// and digits (at least one digit in all), then optionally `e` or `E`, an
/// optional sign and at least one digit.
pub open spec fn float_parts(t: Seq<char>) -> Option<(Seq<char>, Seq<char>, bool, Seq<char>)> {
    let (ip, fp, rest) = mantissa(t.skip(sign_len(t)));
    if ip.len() + fp.len() == 0 {
        None
    } else {
        match exponent_part(rest) {
            Some((neg, x)) => Some((ip, fp, neg, x)),
            None => None,
        }
    }
}

/// The number that `digits` spell, times `10^shift`, rounded down.
pub open spec fn scaled_down(digits: Seq<char>, shift: int) -> int {
    if shift >= 0 {
        digits_value(digits) * pow10(shift as nat)
    } else {
        digits_value(digits) / (pow10((-shift) as nat) as int)
    }
}

/// `floor(log2(n / d))`, for `n, d >= 1`.
pub open spec fn log2_ratio(n: nat, d: nat) -> int {
    if n >= d {
        log2_floor(n / d) as int
    } else {
        -(log2_floor(((d - 1) as nat) / n) as int) - 1
    }
}

/// `n / d` rounded to the nearest binary double (53 significant bits, a tie
/// going to the even one), then rounded down to an integer.
pub open spec fn floor_of_double(n: nat, d: nat) -> nat {
    if n == 0 {
        0
    } else {
        let e = log2_ratio(n, d);
        if e >= 52 {
            let unit = pow2((e - 52) as nat);
            round_even(n, d * unit) * unit
        } else {
            let scale = pow2((52 - e) as nat);
            round_even(n * scale, d) / scale
        }
    }
}

/// Whether `(n * d + r) / (d * u)` rounds up to the next multiple of `u`.
spec fn rounds_up(n: nat, r: nat, d: nat, u: nat) -> bool {
    let rem = (n % u) * d + r;
    2 * rem > d * u || (2 * rem == d * u && (n / u) % 2 == 1)
}

/// Whether the fraction `r / d` reaches `1 - 2^-m`.
spec fn reaches_next(r: nat, d: nat, m: nat) -> bool {
    r * pow2(m) >= d * (pow2(m) - 1)
}

/// Rounding `n + r / d` at a fine binary scale `s` moves it to `n + 1`
/// exactly when the fraction reaches `1 - 1 / (2 * s)`.
proof fn lemma_round_scaled(nn: nat, d: nat, n: nat, r: nat, s: nat)
    requires
        d >= 1,
        nn == n * d + r,
        r < d,
        s >= 2,
        s % 2 == 0,
    ensures
        round_even(nn * s, d) / s == n + if 2 * r * s >= (2 * s - 1) * d {
            1nat
        } else {
            0nat
        },
{
    let rs = r * s;
    lemma_fundamental_div_mod(rs as int, d as int);
    let a = rs / d;
    let b = rs % d;
    assert(rs == d * a + b);
    assert(a < s) by (nonlinear_arith)
        requires
            rs == d * a + b,
            b >= 0,
            rs == r * s,
            r < d,
            d >= 1,
            s >= 2,
    ;
    assert(nn * s == (n * s + a) * d + b) by (nonlinear_arith)
        requires
            nn == n * d + r,
            rs == r * s,
            rs == d * a + b,
    ;
    lemma_fundamental_div_mod_converse((nn * s) as int, d as int, (n * s + a) as int, b as int);
    let q = n * s + a;
    assert(round_even(nn * s, d) == if 2 * b > d || (2 * b == d && q % 2 == 1) {
        q + 1
    } else {
        q
    });
    let h = s / 2;
    assert(s == 2 * h);
    if a + 1 < s {
        let x = round_even(nn * s, d);
        assert(n * s <= x < n * s + s);
        lemma_fundamental_div_mod_converse(x as int, s as int, n as int, (x - n * s) as int);
        assert(2 * r * s < (2 * s - 1) * d) by (nonlinear_arith)
            requires
                r * s == d * a + b,
                b < d,
                a + 1 < s,
                d >= 1,
        ;
    } else {
        assert(a == s - 1);
        assert(q == 2 * (n * h + h - 1) + 1) by (nonlinear_arith)
            requires
                q == n * s + a,
                a == s - 1,
                s == 2 * h,
                h >= 1,
        ;
        assert(q % 2 == 1);
        assert(2 * r * s >= (2 * s - 1) * d <==> 2 * b >= d) by (nonlinear_arith)
            requires
                r * s == d * a + b,
                a == s - 1,
        ;
        let x = round_even(nn * s, d);
        if 2 * b >= d {
            assert(x == n * s + s);
            assert(x == (n + 1) * s) by (nonlinear_arith)
                requires
                    x == n * s + s,
            ;
            lemma_fundamental_div_mod_converse(x as int, s as int, (n + 1) as int, 0);
        } else {
            assert(x == n * s + (s - 1));
            lemma_fundamental_div_mod_converse(x as int, s as int, n as int, (s - 1) as int);
        }
    }
}

/// Rounding `n + r / d` to a multiple of `u` starts from `n / u` multiples.
proof fn lemma_round_big(nn: nat, d: nat, n: nat, r: nat, u: nat)
    requires
        d >= 1,
        nn == n * d + r,
        r < d,
        u >= 1,
    ensures
        round_even(nn, d * u) == n / u + if rounds_up(n, r, d, u) {
            1nat
        } else {
            0nat
        },
{
    lemma_fundamental_div_mod(n as int, u as int);
    let q = n / u;
    let m = n % u;
    assert(nn == q * (d * u) + (m * d + r) && m * d + r < d * u) by (nonlinear_arith)
        requires
            nn == n * d + r,
            n == u * q + m,
            0 <= m < u,
            r < d,
    ;
    lemma_fundamental_div_mod_converse(nn as int, (d * u) as int, q as int, (m * d + r) as int);
}

/// How the remainder compares with half a unit, for an even unit.
proof fn lemma_half_unit(m: nat, u: nat, d: nat, r: nat)
    requires
        u >= 2,
        u % 2 == 0,
        m < u,
        r < d,
    ensures
        2 * (m * d + r) > d * u <==> (2 * m > u || (2 * m == u && r > 0)),
        2 * (m * d + r) == d * u <==> (2 * m == u && r == 0),
{
    if 2 * m > u {
        assert(2 * (m * d + r) > d * u) by (nonlinear_arith)
            requires
                2 * m >= u + 1,
                d >= 1,
        ;
    } else if 2 * m < u {
        assert(2 * (m * d + r) < d * u) by (nonlinear_arith)
            requires
                2 * m <= u - 2,
                r < d,
        ;
    } else {
        assert(2 * (m * d) == d * u) by (nonlinear_arith)
            requires
                2 * m == u,
        ;
    }
}

/// Where `n / d` lies below 1: in `[1/2, 1)` or below a half.
proof fn lemma_log2_ratio_below(nn: nat, d: nat)
    requires
        1 <= nn < d,
    ensures
        2 * nn >= d ==> log2_ratio(nn, d) == -1,
        2 * nn < d ==> log2_ratio(nn, d) <= -2,
{
    let t = ((d - 1) as nat) / nn;
    lemma_fundamental_div_mod((d - 1) as int, nn as int);
    if 2 * nn >= d {
        lemma_fundamental_div_mod_converse((d - 1) as int, nn as int, 1, (d - 1 - nn) as int);
        assert(log2_floor(1) == 0);
    } else {
        assert(t >= 2) by (nonlinear_arith)
            requires
                (d - 1) == nn * t + (d - 1) % (nn as int),
                (d - 1) % (nn as int) < nn,
                d - 1 >= 2 * nn,
                nn >= 1,
        ;
        assert(log2_floor(t) == 1 + log2_floor(t / 2));
    }
}

/// `floor_of_double` in the terms that a reading of the digits decides:
/// the whole part `n`, the fraction `r / d`, and, past `2^52`, the unit the
/// double rounds to.
proof fn lemma_floor_of_double(nn: nat, d: nat)
    requires
        d >= 1,
    ensures
        nn / d >= pow2(52) ==> floor_of_double(nn, d) == {
            let u = pow2((log2_floor(nn / d) - 52) as nat);
            ((nn / d) / u + if rounds_up(nn / d, nn % d, d, u) {
                1nat
            } else {
                0nat
            }) * u
        },
        1 <= nn / d < pow2(52) ==> floor_of_double(nn, d) == nn / d + if reaches_next(
            nn % d,
            d,
            (53 - log2_floor(nn / d)) as nat,
        ) {
            1nat
        } else {
            0nat
        },
        nn / d == 0 ==> floor_of_double(nn, d) == if reaches_next(nn % d, d, 54) {
            1nat
        } else {
            0nat
        },
        nn / d >= pow2(64) ==> floor_of_double(nn, d) >= pow2(64),
{
    lemma_fundamental_div_mod(nn as int, d as int);
    let n = nn / d;
    let r = nn % d;
    assert(nn == n * d + r) by (nonlinear_arith)
        requires
            nn == d * n + r,
    ;
    lemma2_to64();
    vstd::arithmetic::power2::lemma2_to64_rest();
    if n >= 1 {
        assert(nn >= d) by (nonlinear_arith)
            requires
                nn == n * d + r,
                n >= 1,
        ;
        let e = log2_floor(n);
        lemma_log2_floor_bounds(n);
        assert(log2_ratio(nn, d) == e);
        if n >= pow2(52) {
            if e < 52 {
                if e + 1 < 52 {
                    lemma_pow2_strictly_increases(e + 1, 52);
                }
                assert(false);
            }
            let u = pow2((e - 52) as nat);
            vstd::arithmetic::power2::lemma_pow2_pos((e - 52) as nat);
            lemma_round_big(nn, d, n, r, u);
            assert(floor_of_double(nn, d) == round_even(nn, d * u) * u);
            if n >= pow2(64) {
                if e < 64 {
                    if e + 1 < 64 {
                        lemma_pow2_strictly_increases(e + 1, 64);
                    }
                    assert(false);
                }
                vstd::arithmetic::power2::lemma_pow2_adds(52, (e - 52) as nat);
                assert(pow2(e) == pow2(52) * u);
                lemma_fundamental_div_mod(n as int, u as int);
                let q = n / u;
                assert(q >= pow2(52)) by (nonlinear_arith)
                    requires
                        n == u * q + n % u,
                        n % u < u,
                        n >= pow2(52) * u,
                        u >= 1,
                ;
                let x = round_even(nn, d * u);
                assert(x * u >= pow2(52) * u) by (nonlinear_arith)
                    requires
                        x >= q,
                        q >= pow2(52),
                        u >= 1,
                ;
                if e > 64 {
                    lemma_pow2_strictly_increases(64, e);
                }
            }
        } else {
            if e >= 52 {
                if e > 52 {
                    lemma_pow2_strictly_increases(52, e);
                }
                assert(false);
            }
            let s = pow2((52 - e) as nat);
            lemma_pow2_unfold((52 - e) as nat);
            lemma_pow2_unfold((53 - e) as nat);
            vstd::arithmetic::power2::lemma_pow2_pos((51 - e) as nat);
            lemma_round_scaled(nn, d, n, r, s);
            assert(pow2((53 - e) as nat) == 2 * s);
            assert(2 * r * s == r * (2 * s)) by (nonlinear_arith);
            assert((2 * s - 1) * d == d * (2 * s - 1)) by (nonlinear_arith);
        }
    } else {
        assert(n * d == 0) by (nonlinear_arith)
            requires
                n == 0,
        ;
        assert(nn == r);
        assert(nn < d);
        lemma_pow2_unfold(54);
        if nn == 0 {
            assert(d * (pow2(54) - 1) > 0) by (nonlinear_arith)
                requires
                    d >= 1,
                    pow2(54) >= 2,
            ;
        } else {
            lemma_log2_ratio_below(nn, d);
            if 2 * nn >= d {
                let s = pow2(53);
                lemma_pow2_unfold(53);
                lemma_round_scaled(nn, d, 0, r, s);
                assert(2 * r * s == r * pow2(54)) by (nonlinear_arith)
                    requires
                        pow2(54) == 2 * s,
                ;
                assert((2 * s - 1) * d == d * (pow2(54) - 1)) by (nonlinear_arith)
                    requires
                        pow2(54) == 2 * s,
                ;
            } else {
                let e = log2_ratio(nn, d);
                let s = pow2((52 - e) as nat);
                lemma_pow2_unfold((52 - e) as nat);
                vstd::arithmetic::power2::lemma_pow2_pos((51 - e) as nat);
                lemma_pow2_strictly_increases(53, (52 - e) as nat);
                lemma_round_scaled(nn, d, 0, r, s);
                assert(2 * r * s < (2 * s - 1) * d) by (nonlinear_arith)
                    requires
                        2 * r < d,
                        s >= 2,
                ;
                assert(r * pow2(54) < d * (pow2(54) - 1)) by (nonlinear_arith)
                    requires
                        2 * r < d,
                        pow2(54) >= 4,
                ;
            }
        }
    }
}

/// The first `m` digits of the fraction `.fd`, padded with zeros.
spec fn padded(fd: Seq<char>, m: nat) -> Seq<char> {
    Seq::new(m, |j: int| if j < fd.len() { fd[j] } else { '0' })
}

/// `10^m - 1` less the first `m` digits of `.fd`: their nines' complement.
spec fn complement(fd: Seq<char>, m: nat) -> int {
    pow10(m) - 1 - digits_value(padded(fd, m))
}

proof fn lemma_zeros_value(z: Seq<char>)
    requires
        forall|j: int| 0 <= j < z.len() ==> z[j] == '0',
    ensures
        digits_value(z) == 0,
    decreases z.len(),
{
    if z.len() > 0 {
        lemma_zeros_value(z.drop_last());
    }
}

proof fn lemma_padded_digits(fd: Seq<char>, m: nat)
    requires
        all_digits(fd),
    ensures
        all_digits(padded(fd, m)),
{
    assert forall|j: int| 0 <= j < padded(fd, m).len() implies is_digit(#[trigger] padded(fd, m)[j]) by {
        if j < fd.len() {
            assert(is_digit(fd[j]));
        }
    }
}

/// The first `m` digits of `.fd` are `.fd` rounded down to `m` places.
proof fn lemma_padded_bracket(fd: Seq<char>, m: nat)
    requires
        all_digits(fd),
    ensures
        digits_value(padded(fd, m)) * pow10(fd.len()) <= digits_value(fd) * pow10(m),
        digits_value(fd) * pow10(m) < (digits_value(padded(fd, m)) + 1) * pow10(fd.len()),
{
    let p = padded(fd, m);
    let len = fd.len();
    lemma_padded_digits(fd, m);
    let f = digits_value(p);
    let r = digits_value(fd);
    if m <= len {
        assert(p =~= fd.take(m as int));
        lemma_digits_split(fd, m as int);
        let rest = fd.skip(m as int);
        assert(all_digits(rest)) by {
            assert forall|j: int| 0 <= j < rest.len() implies is_digit(#[trigger] rest[j]) by {
                assert(rest[j] == fd[m + j]);
            }
        }
        lemma_digits_below(rest);
        lemma_pow10_adds((len - m) as nat, m);
        assert(((len - m) as nat + m) as nat == len);
        let t = digits_value(rest);
        let a = pow10((len - m) as nat);
        let b = pow10(m);
        lemma_pow10_grows(0, m);
        assert(f * (a * b) <= r * b && r * b < (f + 1) * (a * b)) by (nonlinear_arith)
            requires
                r == f * a + t,
                0 <= t < a,
                b >= 1,
        ;
        lemma_pow10_grows(0, m);
    } else {
        lemma_digits_split(p, len as int);
        assert(p.take(len as int) =~= fd);
        lemma_zeros_value(p.skip(len as int));
        lemma_pow10_adds((m - len) as nat, len);
        assert(((m - len) as nat + len) as nat == m);
        let a = pow10((m - len) as nat);
        let b = pow10(len);
        lemma_pow10_grows(0, len);
        assert(b >= 1);
        assert(f * b <= r * (a * b) && r * (a * b) < (f + 1) * b) by (nonlinear_arith)
            requires
                f == r * a + 0,
                b >= 1,
        ;
    }
}

/// One more digit multiplies the complement by ten and adds the digit's
/// complement.
proof fn lemma_complement_step(fd: Seq<char>, i: nat)
    requires
        all_digits(fd),
    ensures
        complement(fd, i + 1) == 10 * complement(fd, i) + 9 - digit_value(padded(fd, i + 1)[i as int]),
        complement(fd, i) >= 0,
{
    assert(padded(fd, i + 1).drop_last() =~= padded(fd, i));
    lemma_padded_digits(fd, i);
    lemma_digits_below(padded(fd, i));
    assert(pow10(i + 1) == 10 * pow10(i));
}

proof fn lemma_complement_grows(fd: Seq<char>, i: nat, j: nat)
    requires
        all_digits(fd),
        i <= j,
    ensures
        complement(fd, i) <= complement(fd, j),
    decreases j - i,
{
    if i < j {
        lemma_complement_grows(fd, i, (j - 1) as nat);
        lemma_complement_step(fd, (j - 1) as nat);
        lemma_padded_digits(fd, j);
        assert(is_digit(padded(fd, j)[j - 1]));
    }
}

/// `.fd` reaches `1 - 2^-m` exactly when the complement of its first `m`
/// digits is below `5^m`.
proof fn lemma_reaches_by_complement(fd: Seq<char>, m: nat)
    requires
        all_digits(fd),
    ensures
        reaches_next(digits_value(fd) as nat, pow10(fd.len()), m) <==> complement(fd, m) < pow5(m),
{
    lemma_digits_below(fd);
    lemma_padded_digits(fd, m);
    lemma_digits_below(padded(fd, m));
    lemma_padded_bracket(fd, m);
    lemma_pow2_pow5(m);
    lemma_pow5_pos(m);
    lemma_pow10_grows(0, fd.len());
    vstd::arithmetic::power2::lemma_pow2_pos(m);
    let r = digits_value(fd);
    let d = pow10(fd.len());
    let f = digits_value(padded(fd, m));
    let p2 = pow2(m);
    let p5 = pow5(m);
    let p10 = pow10(m);
    assert(r * p10 - d * (p10 - p5) == (r * p2 - d * (p2 - 1)) * p5) by (nonlinear_arith)
        requires
            p10 == p2 * p5,
    ;
    let x = r * p2 - d * (p2 - 1);
    if x >= 0 {
        assert(x * p5 >= 0) by (nonlinear_arith)
            requires
                x >= 0,
                p5 >= 1,
        ;
    } else {
        assert(x * p5 < 0) by (nonlinear_arith)
            requires
                x < 0,
                p5 >= 1,
        ;
    }
    let k = p10 - p5;
    if f >= k {
        assert(r * p10 >= d * k) by (nonlinear_arith)
            requires
                f * d <= r * p10,
                f >= k,
                d >= 1,
        ;
    } else {
        assert(r * p10 < d * k) by (nonlinear_arith)
            requires
                r * p10 < (f + 1) * d,
                f + 1 <= k,
                d >= 1,
        ;
    }
}

proof fn lemma_pow5_pos(m: nat)
    ensures
        pow5(m) >= 1,
{
    crate::number::lemma_pow5_grows(0, m);
}

/// Whether the digits `d[k..]` are not all zero.
fn any_nonzero(d: &[char], k: usize) -> (b: bool)
    requires
        k <= d@.len(),
        all_digits(d@.skip(k as int)),
    ensures
        b == (digits_value(d@.skip(k as int)) > 0),
{
    let ghost fd = d@.skip(k as int);
    let mut i = k;
    assert(fd.take(0) =~= Seq::<char>::empty());
    while i < d.len()
        invariant
            k <= i <= d@.len(),
            fd == d@.skip(k as int),
            all_digits(fd),
            digits_value(fd.take(i - k)) == 0,
        decreases d@.len() - i,
    {
        let ghost t = fd.take(i + 1 - k);
        assert(t.drop_last() =~= fd.take(i - k));
        assert(t.last() == d@[i as int]);
        if d[i] != '0' {
            proof {
                lemma_digits_split(fd, i + 1 - k);
                let rest = fd.skip(i + 1 - k);
                assert(all_digits(rest)) by {
                    assert forall|j: int| 0 <= j < rest.len() implies is_digit(#[trigger] rest[j]) by {
                        assert(rest[j] == fd[i + 1 - k + j]);
                    }
                }
                crate::number::lemma_digits_nonneg(rest);
                lemma_pow10_grows(0, (fd.len() - (i + 1 - k)) as nat);
                assert(is_digit(fd[i - k]));
                assert(digits_value(t) >= 1);
                assert(digits_value(t) * pow10((fd.len() - (i + 1 - k)) as nat) >= 1) by (nonlinear_arith)
                    requires
                        digits_value(t) >= 1,
                        pow10((fd.len() - (i + 1 - k)) as nat) >= 1,
                ;
            }
            return true;
        }
        i = i + 1;
    }
    assert(fd.take(i - k) =~= fd);
    false
}

/// How the fraction `.d[k..]` compares with one half: above it, and equal
/// to it.
fn half_flags(d: &[char], k: usize) -> (r: (bool, bool))
    requires
        k <= d@.len(),
        all_digits(d@.skip(k as int)),
    ensures
        r.0 == (2 * digits_value(d@.skip(k as int)) > pow10((d@.len() - k) as nat)),
        r.1 == (2 * digits_value(d@.skip(k as int)) == pow10((d@.len() - k) as nat)),
{
    let ghost fd = d@.skip(k as int);
    if k == d.len() {
        assert(fd =~= Seq::<char>::empty());
        return (false, false);
    }
    let c = d[k];
    proof {
        assert(fd.skip(1) =~= d@.skip(k + 1));
        assert(all_digits(fd.skip(1))) by {
            assert forall|j: int| 0 <= j < fd.skip(1).len() implies is_digit(#[trigger] fd.skip(1)[j]) by {
                assert(fd.skip(1)[j] == fd[j + 1]);
            }
        }
    }
    let rest = any_nonzero(d, k + 1);
    proof {
        let len = fd.len();
        lemma_digits_split(fd, 1);
        assert(fd.take(1).drop_last() =~= Seq::<char>::empty());
        assert(fd.take(1).last() == c);
        assert(digits_value(Seq::<char>::empty()) == 0);
        assert(digits_value(fd.take(1)) == digit_value(c));
        assert(is_digit(fd[0]));
        lemma_digits_below(fd.skip(1));
        assert(pow10(len as nat) == 10 * pow10((len - 1) as nat));
        let p = pow10((len - 1) as nat);
        let t = digits_value(fd.skip(1));
        let cv = digit_value(c);
        lemma_pow10_grows(0, (len - 1) as nat);
        crate::number::lemma_digits_nonneg(fd.skip(1));
        if cv > 5 {
            assert(2 * (cv * p + t) > 10 * p) by (nonlinear_arith)
                requires
                    cv >= 6,
                    p >= 1,
                    t >= 0,
            ;
        } else if cv < 5 {
            assert(2 * (cv * p + t) < 10 * p) by (nonlinear_arith)
                requires
                    0 <= cv <= 4,
                    0 <= t < p,
            ;
        } else {
            assert(cv * p == 5 * p);
        }
        assert(digits_value(fd) == cv * p + t);
        assert(rest == (t > 0));
        assert((c > '5') == (cv > 5));
        assert((c == '5') == (cv == 5));
    }
    (c > '5' || (c == '5' && rest), c == '5' && !rest)
}

/// Whether the fraction `.d[k..]` reaches `1 - 2^-m`, with `5^m` bounding
/// the digits' complement.
fn reaches_fraction(d: &[char], k: usize, m: u32) -> (b: bool)
    requires
        k <= d@.len(),
        all_digits(d@.skip(k as int)),
        1 <= m <= 54,
    ensures
        b == reaches_next(
            digits_value(d@.skip(k as int)) as nat,
            pow10((d@.len() - k) as nat),
            m as nat,
        ),
{
    let ghost fd = d@.skip(k as int);
    proof {
        lemma_reaches_by_complement(fd, m as nat);
        assert(padded(fd, 0) =~= Seq::<char>::empty());
    }
    let lim = pow5_of(m);
    proof {
        lemma_pow5_pos(m as nat);
    }
    let mut g: u128 = 0;
    let mut i: u32 = 0;
    while i < m
        invariant
            fd == d@.skip(k as int),
            all_digits(fd),
            k <= d@.len(),
            i <= m <= 54,
            lim == pow5(m as nat),
            lim <= 55511151231257827021181583404541015625,
            g == complement(fd, i as nat),
            g < lim,
            reaches_next(digits_value(fd) as nat, pow10(fd.len()), m as nat) <==> complement(fd, m as nat)
                < pow5(m as nat),
        decreases m - i,
    {
        proof {
            lemma_complement_step(fd, i as nat);
            lemma_complement_grows(fd, (i + 1) as nat, m as nat);
            lemma_padded_digits(fd, (i + 1) as nat);
        }
        if g > lim / 10 {
            return false;
        }
        let c: u128 = if (i as usize) < d.len() - k {
            assert(padded(fd, (i + 1) as nat)[i as int] == d@[k + i]);
            (d[k + (i as usize)] as u32 - '0' as u32) as u128
        } else {
            assert(padded(fd, (i + 1) as nat)[i as int] == '0');
            0
        };
        assert(c == digit_value(padded(fd, (i + 1) as nat)[i as int]));
        g = g * 10 + (9 - c);
        if g >= lim {
            return false;
        }
        i = i + 1;
    }
    true
}

/// The number `digits * 10^shift` as a fraction: numerator and denominator.
pub open spec fn as_fraction(digits: Seq<char>, shift: int) -> (nat, nat) {
    if shift >= 0 {
        ((digits_value(digits) * pow10(shift as nat)) as nat, 1)
    } else {
        (digits_value(digits) as nat, pow10((-shift) as nat))
    }
}

/// The whole MHz of a frequency as iw and nmcli print it (`5180`,
/// `5180.0`, `5.18e3`): the number that `f64`'s parser reads (the decimal
/// rounded to the nearest double), rounded down. A negative number, one
/// beyond `u64`, and text that is no decimal number read as no frequency.
/// The double's exponent range plays no part: below the normal range the
/// rounding still ends in 0, and past `f64`'s range the reading is beyond
/// `u64` all the same.
pub open spec fn mhz_of(token: Seq<char>) -> Option<u64> {
    match float_parts(token) {
        None => None,
        Some((ip, fp, eneg, x)) => {
            let e = if eneg {
                -digits_value(x)
            } else {
                digits_value(x)
            };
            let (nn, dd) = as_fraction(ip + fp, e - fp.len());
            let w = floor_of_double(nn, dd);
            if (token.len() > 0 && token[0] == '-') || w > u64::MAX {
                None
            } else {
                Some(w as u64)
            }
        },
    }
}

/// Length of the leading run of digits.
pub open spec fn int_part_len(s: Seq<char>) -> nat
    decreases s.len(),
{
    if s.len() == 0 || !is_digit(s[0]) {
        0
    } else {
        1 + int_part_len(s.drop_first())
    }
}

proof fn lemma_int_part(s: Seq<char>, k: int)
    requires
        0 <= k <= s.len(),
        forall|j: int| 0 <= j < k ==> is_digit(#[trigger] s[j]),
        k == s.len() || !is_digit(s[k]),
    ensures
        int_part_len(s) == k,
    decreases k,
{
    if k > 0 {
        lemma_int_part(s.drop_first(), k - 1);
    }
}

/// The end of the run of digits that starts at `from`.
fn digit_run(token: &[char], from: usize) -> (end: usize)
    requires
        from <= token@.len(),
    ensures
        from <= end <= token@.len(),
        forall|j: int| from <= j < end ==> is_digit(#[trigger] token@[j]),
        end == token@.len() || !is_digit(token@[end as int]),
        int_part_len(token@.skip(from as int)) == end - from,
{
    let mut i = from;
    while i < token.len() && '0' <= token[i] && token[i] <= '9'
        invariant
            from <= i <= token@.len(),
            forall|j: int| from <= j < i ==> is_digit(#[trigger] token@[j]),
        decreases token@.len() - i,
    {
        i = i + 1;
    }
    proof {
        let u = token@.skip(from as int);
        assert forall|j: int| 0 <= j < i - from implies is_digit(#[trigger] u[j]) by {
            assert(u[j] == token@[from + j]);
        }
        if i < token@.len() {
            assert(u[i - from] == token@[i as int]);
        }
        lemma_int_part(u, i - from);
    }
    i
}

/// Exponents at least this large all give the same reading.
const EXPONENT_CAP: u128 = 0x40_0000_0000_0000_0000;

/// The digits `token[from..]` as a number, capped at `EXPONENT_CAP`.
fn capped_exponent(token: &[char], from: usize) -> (e: u128)
    requires
        from <= token@.len(),
        all_digits(token@.skip(from as int)),
    ensures
        e == if digits_value(token@.skip(from as int)) < EXPONENT_CAP {
            digits_value(token@.skip(from as int))
        } else {
            EXPONENT_CAP as int
        },
{
    let ghost x = token@.skip(from as int);
    let mut e: u128 = 0;
    let mut i = from;
    assert(x.take(0) =~= Seq::<char>::empty());
    while i < token.len()
        invariant
            from <= i <= token@.len(),
            x == token@.skip(from as int),
            all_digits(x),
            e == if digits_value(x.take(i - from)) < EXPONENT_CAP {
                digits_value(x.take(i - from))
            } else {
                EXPONENT_CAP as int
            },
        decreases token@.len() - i,
    {
        let c = token[i];
        assert(x[i - from] == c);
        let d = (c as u32 - '0' as u32) as u128;
        proof {
            let t = x.take(i + 1 - from);
            assert(t.drop_last() =~= x.take(i - from));
            assert(t.last() == c);
            assert(all_digits(x.take(i - from)));
            crate::number::lemma_digits_below(x.take(i - from));
        }
        if e >= EXPONENT_CAP || e * 10 + d >= EXPONENT_CAP {
            e = EXPONENT_CAP;
        } else {
            e = e * 10 + d;
        }
        i = i + 1;
    }
    assert(x.take(i - from) =~= x);
    e
}

/// `scaled_down(d, shift)` computed, or `None` when it is beyond `u64`.
fn scale_digits(d: &[char], shift: i128) -> (r: Option<u64>)
    requires
        shift > -0x1_0000_0000_0000_0000_0000_0000,
        all_digits(d@),
        d@.len() > 0,
    ensures
        match r {
            Some(v) => v == scaled_down(d@, shift as int),
            None => scaled_down(d@, shift as int) > u64::MAX,
        },
{
    proof {
        crate::number::lemma_digits_below(d@);
        assert(d@.skip(0) =~= d@);
    }
    if shift >= 0 {
        let v = match digits_at_most(d, 0, 18446744073709551615u64) {
            Some(v) => v,
            None => {
                proof {
                    lemma_pow10_grows(0, shift as nat);
                    assert(digits_value(d@) * pow10(shift as nat) >= digits_value(d@)) by (nonlinear_arith)
                        requires
                            pow10(shift as nat) >= 1,
                            digits_value(d@) >= 0,
                    ;
                }
                return None;
            },
        };
        if v == 0 {
            return Some(0);
        }
        assert(pow10(0) == 1);
        assert(v * pow10(0nat) == v);
        let mut acc = v;
        let mut k: i128 = 0;
        while k < shift
            invariant
                0 <= k <= shift,
                v == digits_value(d@),
                v >= 1,
                acc == v * pow10(k as nat),
            decreases shift - k,
        {
            if acc > 1844674407370955161 {
                proof {
                    lemma_pow10_grows((k + 1) as nat, shift as nat);
                    assert(pow10((k + 1) as nat) == 10 * pow10(k as nat));
                    assert(v * pow10(shift as nat) >= v * pow10((k + 1) as nat)) by (nonlinear_arith)
                        requires
                            pow10(shift as nat) >= pow10((k + 1) as nat),
                            v >= 1,
                    ;
                    assert(v * pow10((k + 1) as nat) == acc * 10) by (nonlinear_arith)
                        requires
                            acc == v * pow10(k as nat),
                            pow10((k + 1) as nat) == 10 * pow10(k as nat),
                    ;
                }
                return None;
            }
            proof {
                assert(pow10((k + 1) as nat) == 10 * pow10(k as nat));
                assert(acc * 10 == v * pow10((k + 1) as nat)) by (nonlinear_arith)
                    requires
                        acc == v * pow10(k as nat),
                        pow10((k + 1) as nat) == 10 * pow10(k as nat),
                ;
            }
            acc = acc * 10;
            k = k + 1;
        }
        Some(acc)
    } else {
        let t: i128 = 0 - shift;
        if t >= d.len() as i128 {
            proof {
                lemma_pow10_grows(d@.len(), t as nat);
                assert(digits_value(d@) / (pow10(t as nat) as int) == 0) by (nonlinear_arith)
                    requires
                        0 <= digits_value(d@) < pow10(d@.len()),
                        pow10(d@.len()) <= pow10(t as nat),
                ;
            }
            return Some(0);
        }
        let keep = d.len() - (t as usize);
        let head = crate::text::copy_range(d, 0, keep);
        proof {
            lemma_digits_shift_right(d@, t as nat);
            assert(head@ =~= d@.take(d@.len() - t));
            assert(all_digits(head@));
            assert(head@.skip(0) =~= head@);
        }
        digits_at_most(head.as_slice(), 0, 18446744073709551615u64)
    }
}

/// Shifts far enough out give the same reading: far left, nothing or
/// beyond `u64`; far right, 0.
proof fn lemma_far_shifts(d: Seq<char>, s1: int, s2: int)
    requires
        all_digits(d),
        (s1 >= 20 && s2 >= 20) || (s1 <= -(d.len() as int) && s2 <= -(d.len() as int)),
    ensures
        scaled_down(d, s1) > u64::MAX <==> scaled_down(d, s2) > u64::MAX,
        scaled_down(d, s1) <= u64::MAX ==> scaled_down(d, s1) == scaled_down(d, s2),
{
    crate::number::lemma_digits_below(d);
    let v = digits_value(d);
    if s1 >= 20 {
        reveal_with_fuel(pow10, 21);
        lemma_pow10_grows(20, s1 as nat);
        lemma_pow10_grows(20, s2 as nat);
        if v > 0 {
            assert(v * pow10(s1 as nat) >= pow10(20)) by (nonlinear_arith)
                requires
                    v >= 1,
                    pow10(s1 as nat) >= pow10(20),
            ;
            assert(v * pow10(s2 as nat) >= pow10(20)) by (nonlinear_arith)
                requires
                    v >= 1,
                    pow10(s2 as nat) >= pow10(20),
            ;
        }
    } else {
        if s1 < 0 {
            lemma_pow10_grows(d.len(), (-s1) as nat);
            assert(v / (pow10((-s1) as nat) as int) == 0) by (nonlinear_arith)
                requires
                    0 <= v < pow10(d.len()),
                    pow10(d.len()) <= pow10((-s1) as nat),
            ;
        }
        if s2 < 0 {
            lemma_pow10_grows(d.len(), (-s2) as nat);
            assert(v / (pow10((-s2) as nat) as int) == 0) by (nonlinear_arith)
                requires
                    0 <= v < pow10(d.len()),
                    pow10(d.len()) <= pow10((-s2) as nat),
            ;
        }
        if s1 >= 0 || s2 >= 0 {
            assert(d.len() == 0);
            assert(v == 0);
            assert(v * pow10(s1 as nat) == 0 || s1 < 0);
            assert(v * pow10(s2 as nat) == 0 || s2 < 0);
        }
    }
}

/// Where the parts of `mantissa(token[from..])` lie in `token`.
fn mantissa_layout(token: &[char], from: usize) -> (r: (usize, usize, usize))
    requires
        from <= token@.len(),
    ensures
        from <= r.0 <= r.1 <= r.2 <= token@.len(),
        forall|j: int| from <= j < r.0 ==> is_digit(#[trigger] token@[j]),
        forall|j: int| r.1 <= j < r.2 ==> is_digit(#[trigger] token@[j]),
        mantissa(token@.skip(from as int)) == (
            token@.subrange(from as int, r.0 as int),
            token@.subrange(r.1 as int, r.2 as int),
            token@.skip(r.2 as int),
        ),
{
    let ghost t = token@;
    let ghost u = t.skip(from as int);
    let a_end = digit_run(token, from);
    proof {
        assert(u.skip((a_end - from) as int) =~= t.skip(a_end as int));
        assert(u.take((a_end - from) as int) =~= t.subrange(from as int, a_end as int));
        if a_end < token@.len() {
            assert(t.skip(a_end as int)[0] == t[a_end as int]);
        }
    }
    if a_end < token.len() && token[a_end] == '.' {
        let f_end = digit_run(token, a_end + 1);
        proof {
            let after = t.skip(a_end as int).drop_first();
            assert(after =~= t.skip(a_end + 1));
            assert(after.take((f_end - a_end - 1) as int) =~= t.subrange(a_end + 1, f_end as int));
            assert(after.skip((f_end - a_end - 1) as int) =~= t.skip(f_end as int));
        }
        (a_end, a_end + 1, f_end)
    } else {
        proof {
            assert(t.subrange(a_end as int, a_end as int) =~= Seq::<char>::empty());
        }
        (a_end, a_end, a_end)
    }
}

/// Where the exponent's digits start, and whether it is negative.
fn exponent_layout(token: &[char], from: usize) -> (r: Option<(bool, usize)>)
    requires
        from <= token@.len(),
    ensures
        match r {
            Some((neg, start)) => start <= token@.len() && exponent_part(token@.skip(from as int))
                == Some((neg, token@.skip(start as int))),
            None => exponent_part(token@.skip(from as int)) is None,
        },
{
    let ghost t = token@;
    let n = token.len();
    if from == n {
        assert(t.skip(from as int) =~= Seq::<char>::empty());
        assert(t.skip(n as int) =~= Seq::<char>::empty());
        return Some((false, n));
    }
    assert(t.skip(from as int)[0] == t[from as int]);
    if token[from] != 'e' && token[from] != 'E' {
        return None;
    }
    let mut k = from + 1;
    let mut neg = false;
    if k < n && (token[k] == '+' || token[k] == '-') {
        neg = token[k] == '-';
        k = k + 1;
    }
    let x_end = digit_run(token, k);
    proof {
        let r3 = t.skip(from as int).drop_first();
        assert(r3 =~= t.skip(from + 1));
        if from + 1 < n {
            assert(r3[0] == t[from + 1]);
        }
        assert(sign_len(r3) == k - from - 1);
        let x = r3.skip(sign_len(r3));
        assert(x =~= t.skip(k as int));
        if x_end < n {
            assert(x[x_end - k] == t[x_end as int]);
        } else {
            assert forall|j: int| 0 <= j < x.len() implies is_digit(#[trigger] x[j]) by {
                assert(x[j] == t[k + j]);
            }
        }
    }
    if x_end != n || x_end == k {
        return None;
    }
    Some((neg, k))
}

/// Reads a frequency in whole MHz.
#[verifier::rlimit(60)]
pub fn parse_mhz(token: &[char]) -> (r: Option<u64>)
    ensures
        r == mhz_of(token@),
{
    let n = token.len();
    if n > 0 && token[0] == '-' {
        return None;
    }
    let s: usize = if n > 0 && token[0] == '+' {
        1
    } else {
        0
    };
    let ghost t = token@;
    assert(sign_len(t) == s);
    let (a_end, f_start, f_end) = mantissa_layout(token, s);
    if (a_end - s) + (f_end - f_start) == 0 {
        return None;
    }
    let (exp_neg, e_start) = match exponent_layout(token, f_end) {
        Some(p) => p,
        None => return None,
    };
    let ghost x = t.skip(e_start as int);
    let ghost ip = t.subrange(s as int, a_end as int);
    let ghost fp = t.subrange(f_start as int, f_end as int);
    assert(float_parts(t) == Some((ip, fp, exp_neg, x)));
    let mut d = crate::text::copy_range(token, s, a_end);
    let fr = crate::text::copy_range(token, f_start, f_end);
    crate::text::push_all(&mut d, fr.as_slice());
    proof {
        assert(all_digits(x)) by {
            if e_start < n {
                assert(x.len() > 0);
            } else {
                assert(x.len() == 0);
            }
        }
        assert(all_digits(d@)) by {
            assert forall|j: int| 0 <= j < d@.len() implies is_digit(#[trigger] d@[j]) by {
                if j < a_end - s {
                    assert(d@[j] == t[s + j]);
                } else {
                    assert(d@[j] == t[f_start + j - (a_end - s)]);
                }
            }
        }
    }
    let e = capped_exponent(token, e_start);
    let f = (f_end - f_start) as i128;
    let shift: i128 = if exp_neg {
        0 - (e as i128) - f
    } else {
        (e as i128) - f
    };
    let ghost ev = if exp_neg {
        -digits_value(x)
    } else {
        digits_value(x)
    };
    let ghost ts = ev - (f_end - f_start);
    let ghost frac = as_fraction(d@, ts);
    let ghost nn = frac.0;
    let ghost dd = frac.1;
    proof {
        crate::number::lemma_digits_nonneg(x);
        crate::number::lemma_digits_nonneg(d@);
        if digits_value(x) >= EXPONENT_CAP {
            lemma_far_shifts(d@, ts, shift as int);
        }
        assert(d@ == ip + fp);
        assert(mhz_of(t) == if (t.len() > 0 && t[0] == '-') || floor_of_double(nn, dd) > u64::MAX {
            None
        } else {
            Some(floor_of_double(nn, dd) as u64)
        });
        lemma_pow10_grows(0, (-ts) as nat);
        assert(dd >= 1);
        assert(scaled_down(d@, ts) == nn / dd) by {
            if ts >= 0 {
                assert(nn / 1 == nn);
            }
        }
        lemma_floor_of_double(nn, dd);
        lemma2_to64();
        vstd::arithmetic::power2::lemma2_to64_rest();
    }
    let n = match scale_digits(d.as_slice(), shift) {
        Some(n) => n,
        None => {
            return None;
        },
    };
    assert(n == nn / dd);
    let len = d.len();
    let k: usize = if shift >= 0 {
        proof {
            assert(ts >= 0);
            assert(d@.skip(len as int) =~= Seq::<char>::empty());
            assert(nn % 1 == 0);
        }
        len
    } else if (0 - shift) as u128 > len as u128 {
        proof {
            assert(ts < 0 && -ts > len);
            crate::number::lemma_digits_below(d@);
            lemma_pow10_grows((len + 1) as nat, (-ts) as nat);
            assert(pow10((len + 1) as nat) == 10 * pow10(len as nat));
            assert(10 * nn < dd);
            vstd::arithmetic::div_mod::lemma_fundamental_div_mod_converse(nn as int, dd as int, 0, nn as int);
            assert(nn * pow2(54) < dd * (pow2(54) - 1)) by (nonlinear_arith)
                requires
                    10 * nn < dd,
                    pow2(54) >= 16,
            ;
        }
        return Some(0);
    } else {
        let l = (0 - shift) as usize;
        proof {
            assert(ts == shift);
            lemma_digits_split(d@, (len - l) as int);
            let rest = d@.skip((len - l) as int);
            assert(all_digits(rest)) by {
                assert forall|j: int| 0 <= j < rest.len() implies is_digit(#[trigger] rest[j]) by {
                    assert(rest[j] == d@[len - l + j]);
                }
            }
            lemma_digits_below(rest);
            vstd::arithmetic::div_mod::lemma_fundamental_div_mod_converse(
                nn as int,
                dd as int,
                digits_value(d@.take((len - l) as int)),
                digits_value(rest),
            );
        }
        len - l
    };
    proof {
        assert(dd == pow10((len - k) as nat));
        assert(nn % dd == digits_value(d@.skip(k as int)));
        lemma_fundamental_div_mod(nn as int, dd as int);
        let qq = nn / dd;
        let rm = nn % dd;
        assert(nn == dd * qq + rm);
        assert(nn == n * dd + rm) by (nonlinear_arith)
            requires
                nn == dd * qq + rm,
                n == qq,
        ;
        let fd = d@.skip(k as int);
        assert(all_digits(fd)) by {
            assert forall|j: int| 0 <= j < fd.len() implies is_digit(#[trigger] fd[j]) by {
                assert(fd[j] == d@[k + j]);
            }
        }
    }
    round_reading(d.as_slice(), k, n)
}

/// The reading of the number whose whole part is `n` and whose fraction is
/// `.d[k..]`: rounded to the nearest double, then down; `None` past `u64`.
fn round_reading(d: &[char], k: usize, n: u64) -> (r: Option<u64>)
    requires
        k <= d@.len(),
        all_digits(d@.skip(k as int)),
    ensures
        ({
            let dd = pow10((d@.len() - k) as nat);
            let w = floor_of_double((n * dd + digits_value(d@.skip(k as int))) as nat, dd);
            r == if w > u64::MAX {
                None
            } else {
                Some(w as u64)
            }
        }),
{
    let ghost fd = d@.skip(k as int);
    let ghost dd = pow10((d@.len() - k) as nat);
    let ghost nn = (n * dd + digits_value(fd)) as nat;
    proof {
        lemma_pow10_grows(0, (d@.len() - k) as nat);
        lemma_digits_below(fd);
        crate::number::lemma_digits_nonneg(fd);
        assert(n * dd >= 0) by (nonlinear_arith)
            requires
                dd >= 1,
        ;
        lemma_fundamental_div_mod_converse(nn as int, dd as int, n as int, digits_value(fd));
        lemma_floor_of_double(nn, dd);
        lemma2_to64();
        vstd::arithmetic::power2::lemma2_to64_rest();
    }
    if n >= 0x10_0000_0000_0000 {
        let lg = crate::number::floor_log2(n);
        proof {
            lemma_log2_floor_bounds(n as nat);
            if lg < 52 {
                if lg + 1 < 52 {
                    lemma_pow2_strictly_increases((lg + 1) as nat, 52);
                }
                assert(false);
            }
        }
        let u = crate::number::pow2_of(lg - 52);
        proof {
            if lg - 52 < 11 {
                lemma_pow2_strictly_increases((lg - 52) as nat, 11);
            }
            vstd::arithmetic::power2::lemma_pow2_pos((lg - 52) as nat);
        }
        let nw = n as u128;
        let q = nw / u;
        let r = nw % u;
        proof {
            lemma_fundamental_div_mod(n as int, u as int);
            assert((q + 1) * u <= n + u) by (nonlinear_arith)
                requires
                    (n as int) == (u as int) * (q as int) + (r as int),
                    r >= 0,
            ;
            assert(q * u <= (q + 1) * u) by (nonlinear_arith);
        }
        let up = if u == 1 {
            let (gt, eq) = half_flags(d, k);
            proof {
                assert(n % 1 == 0 && n / 1 == n);
                assert(dd * 1 == dd);
                let z = (n as nat) % 1;
                assert(z == 0);
                assert(z * dd == 0) by (nonlinear_arith)
                    requires
                        z == 0,
                ;
                assert(q == n);
            }
            let b = gt || (eq && q % 2 == 1);
            assert(b == rounds_up(n as nat, digits_value(fd) as nat, dd, u as nat));
            b
        } else {
            let nz = any_nonzero(d, k);
            proof {
                lemma_pow2_unfold((lg - 52) as nat);
                assert(u % 2 == 0);
                assert(r < u);
                assert(r as nat == (n as nat) % (u as nat) && q as nat == (n as nat) / (u as nat));
                lemma_half_unit(r as nat, u as nat, dd, digits_value(fd) as nat);
            }
            let b = 2 * r > u || (2 * r == u && (nz || q % 2 == 1));
            assert(b == rounds_up(n as nat, digits_value(fd) as nat, dd, u as nat));
            b
        };
        assert(up == rounds_up(n as nat, digits_value(fd) as nat, dd, u as nat));
        let w: u128 = if up {
            (q + 1) * u
        } else {
            q * u
        };
        if w > 0xffff_ffff_ffff_ffff {
            return None;
        }
        Some(w as u64)
    } else {
        let m: u32 = if n == 0 {
            54
        } else {
            let lg = crate::number::floor_log2(n);
            proof {
                lemma_log2_floor_bounds(n as nat);
                if lg >= 52 {
                    if lg > 52 {
                        lemma_pow2_strictly_increases(52, lg as nat);
                    }
                    assert(false);
                }
            }
            53 - lg
        };
        let bump = reaches_fraction(d, k, m);
        if bump {
            Some(n + 1)
        } else {
            Some(n)
        }
    }
}

/// `str::trim_end_matches(|c: char| !c.is_ascii_digit())`.
pub open spec fn trim_end_non_digits(s: Seq<char>) -> Seq<char>
    decreases s.len(),
{
    if s.len() > 0 && !is_digit(s.last()) {
        trim_end_non_digits(s.drop_last())
    } else {
        s
    }
}

proof fn lemma_trim_end_non_digits(s: Seq<char>, b: int)
    requires
        0 <= b <= s.len(),
        forall|j: int| b <= j < s.len() ==> !is_digit(#[trigger] s[j]),
        b == 0 || is_digit(s[b - 1]),
    ensures
        trim_end_non_digits(s) == s.take(b),
    decreases s.len() - b,
{
    if b == s.len() {
        assert(s.take(b) =~= s);
    } else {
        lemma_trim_end_non_digits(s.drop_last(), b);
        assert(s.drop_last().take(b) =~= s.take(b));
    }
}

pub fn trim_end_non_digit_chars(s: &[char]) -> (r: Vec<char>)
    ensures
        r@ == trim_end_non_digits(s@),
{
    let mut b = s.len();
    while b > 0 && !('0' <= s[b - 1] && s[b - 1] <= '9')
        invariant
            b <= s@.len(),
            forall|j: int| b <= j < s@.len() ==> !is_digit(#[trigger] s@[j]),
        decreases b,
    {
        b = b - 1;
    }
    proof {
        lemma_trim_end_non_digits(s@, b as int);
    }
    crate::text::copy_range(s, 0, b)
}

// ---------------------------------------------------------------------------
// Bands
// ---------------------------------------------------------------------------

/// The band a frequency lies in. The boundaries mirror the panel's frequency
/// label so the label and the band selector can never disagree.
pub open spec fn band_of(mhz: u64) -> Option<Seq<char>> {
    if 2400 <= mhz < 2500 {
        Some("2.4"@)
    } else if 4900 <= mhz < 5925 {
        Some("5"@)
    } else if 5925 <= mhz < 7125 {
        Some("6"@)
    } else {
        None
    }
}

pub fn band_for_freq(mhz: u64) -> (r: Option<&'static str>)
    ensures
        match r {
            Some(b) => band_of(mhz) == Some(b@),
            None => band_of(mhz) is None,
        },
{
    if 2400 <= mhz && mhz < 2500 {
        Some("2.4")
    } else if 4900 <= mhz && mhz < 5925 {
        Some("5")
    } else if 5925 <= mhz && mhz < 7125 {
        Some("6")
    } else {
        None
    }
}

/// The value of `802-11-wireless.band` that pins a band. NetworkManager
/// 1.44+ accepts a third value, so 5GHz and 6GHz can be pinned apart.
pub open spec fn nm_band(band: Seq<char>) -> Option<Seq<char>> {
    if band == "2.4"@ {
        Some("bg"@)
    } else if band == "5"@ {
        Some("a"@)
    } else if band == "6"@ {
        Some("6GHz"@)
    } else {
        None
    }
}

pub fn nm_band_for(band: &str) -> (r: Option<&'static str>)
    ensures
        match r {
            Some(v) => nm_band(band@) == Some(v@),
            None => nm_band(band@) is None,
        },
{
    let b = chars_of(band);
    if is(b.as_slice(), "2.4") {
        Some("bg")
    } else if is(b.as_slice(), "5") {
        Some("a")
    } else if is(b.as_slice(), "6") {
        Some("6GHz")
    } else {
        None
    }
}

/// The band that a `802-11-wireless.band` setting pins, "auto" for none.
pub open spec fn band_from_setting(raw: Seq<char>) -> Seq<char> {
    let t = trim(raw);
    if t == "bg"@ {
        "2.4"@
    } else if t == "a"@ {
        "5"@
    } else if t == "6GHz"@ {
        "6"@
    } else {
        "auto"@
    }
}

pub fn band_from_nm(raw: &str) -> (r: String)
    ensures
        r@ == band_from_setting(raw@),
{
    let c = chars_of(raw);
    let t = trim_chars(c.as_slice());
    if is(t.as_slice(), "bg") {
        String::from_str("2.4")
    } else if is(t.as_slice(), "a") {
        String::from_str("5")
    } else if is(t.as_slice(), "6GHz") {
        String::from_str("6")
    } else {
        String::from_str("auto")
    }
}

/// Pinning a band and reading the setting back gives the same band.
pub proof fn law_band_setting_round_trip(band: Seq<char>)
    requires
        nm_band(band) is Some,
    ensures
        band_from_setting(nm_band(band)->0) == band,
{
    reveal_strlit("2.4");
    reveal_strlit("5");
    reveal_strlit("6");
    reveal_strlit("bg");
    reveal_strlit("a");
    reveal_strlit("6GHz");
    let v = nm_band(band)->0;
    lemma_trim_plain(v);
}

/// A value with no whitespace at either end is its own trim.
proof fn lemma_trim_plain(s: Seq<char>)
    requires
        s.len() > 0,
        !crate::text::whitespace(s[0]),
        !crate::text::whitespace(s.last()),
    ensures
        trim(s) == s,
{
}

/// The band a frequency column reads as: the first word of the column,
/// taken as whole MHz.
pub open spec fn column_band(column: Seq<char>) -> Option<Seq<char>> {
    match first_word(column) {
        Some(w) => match mhz_of(w) {
            Some(m) => band_of(m),
            None => band_of(0),
        },
        None => band_of(0),
    }
}

/// One `FREQ,SSID` line names `ssid` on `band`.
pub open spec fn line_on(line: Seq<char>, ssid: Seq<char>, band: Seq<char>) -> bool {
    let f = terse_fields(line);
    f.len() >= 2 && join(f.skip(1), ':') == ssid && column_band(f[0]) == Some(band)
}

/// Some `FREQ,SSID` line names `ssid` on `band`.
pub open spec fn answers_on(ls: Seq<Seq<char>>, ssid: Seq<char>, band: Seq<char>) -> bool {
    exists|i: int| 0 <= i < ls.len() && #[trigger] line_on(ls[i], ssid, band)
}

/// The bands offered for `ssid`, low to high: the one in use, and every band
/// that a line of `nmcli -t -f FREQ,SSID dev wifi list` shows it on.
pub open spec fn offered_bands(
    listing: Option<Seq<char>>,
    ssid: Seq<char>,
    current: Seq<char>,
) -> Seq<Seq<char>> {
    let ls = match listing {
        Some(o) => lines(o),
        None => seq![],
    };
    let offered = |b: Seq<char>| current == b || answers_on(ls, ssid, b);
    (if offered("2.4"@) {
        seq!["2.4"@]
    } else {
        seq![]
    }) + (if offered("5"@) {
        seq!["5"@]
    } else {
        seq![]
    }) + (if offered("6"@) {
        seq!["6"@]
    } else {
        seq![]
    })
}

/// The lines of a listing, none when there is no listing.
pub open spec fn listing_lines(listing: Option<Seq<char>>) -> Seq<Seq<char>> {
    match listing {
        Some(o) => lines(o),
        None => seq![],
    }
}

/// The band in use is always among the options; every option is the band
/// in use or one the network answers on; and the options run from low to
/// high, each once.
pub proof fn law_bands_offered(listing: Option<Seq<char>>, ssid: Seq<char>, current: Seq<char>)
    requires
        current == "2.4"@ || current == "5"@ || current == "6"@,
    ensures
        offered_bands(listing, ssid, current).contains(current),
        forall|i: int|
            0 <= i < offered_bands(listing, ssid, current).len() ==> {
                let b = #[trigger] offered_bands(listing, ssid, current)[i];
                b == current || answers_on(listing_lines(listing), ssid, b)
            },
        forall|i: int, j: int|
            0 <= i < j < offered_bands(listing, ssid, current).len() ==> offered_bands(
                listing,
                ssid,
                current,
            )[i] != offered_bands(listing, ssid, current)[j],
{
    reveal_strlit("2.4");
    reveal_strlit("5");
    reveal_strlit("6");
    let o = offered_bands(listing, ssid, current);
    assert("2.4"@ != "5"@ && "2.4"@ != "6"@ && "5"@ != "6"@) by {
        assert("2.4"@.len() != "5"@.len());
        assert("5"@[0] != "6"@[0]);
    }
    if current == "2.4"@ {
        assert(o[0] == current);
    } else if current == "5"@ {
        assert(o.contains(current)) by {
            let k = if o[0] == "5"@ { 0int } else { 1int };
            assert(o[k] == current);
        }
    } else {
        assert(o.contains(current)) by {
            assert(o[o.len() - 1] == current);
        }
    }
}

fn line_band(line: &[char], ssid: &[char]) -> (r: Option<&'static str>)
    ensures
        ({
            let f = terse_fields(line@);
            let names = f.len() >= 2 && join(f.skip(1), ':') == ssid@;
            match r {
                Some(b) => names && column_band(f[0]) == Some(b@),
                None => !names || column_band(f[0]) is None,
            }
        }),
{
    let fields = split_terse(line);
    if fields.len() < 2 {
        return None;
    }
    let name = join_range(fields.as_slice(), 1, fields.len(), ':');
    assert(views(fields@).subrange(1, fields@.len() as int) =~= views(fields@).skip(1));
    if !crate::text::same(name.as_slice(), ssid) {
        return None;
    }
    assert(views(fields@)[0] == fields@[0]@);
    let mhz = match first_word_of(fields[0].as_slice()) {
        Some(w) => match parse_mhz(w.as_slice()) {
            Some(m) => m,
            None => 0,
        },
        None => 0,
    };
    band_for_freq(mhz)
}

/// Every band the SSID is reachable on, low to high, always including the one
/// already in use: a weak radio gets missed by plenty of scans, and the band
/// in use must never be absent from its own list of options. A band the AP
/// does not answer on is never offered: pinning to it would drop the
/// connection with nothing to reassociate to.
pub fn available_bands(listing: Option<&str>, ssid: &str, current: &str) -> (r: Vec<String>)
    ensures
        string_views(r@) == offered_bands(
            match listing {
                Some(o) => Some(o@),
                None => None,
            },
            ssid@,
            current@,
        ),
{
    proof {
        reveal_strlit("2.4");
        reveal_strlit("5");
        reveal_strlit("6");
    }
    let s = chars_of(ssid);
    let cur = chars_of(current);
    let mut on24 = is(cur.as_slice(), "2.4");
    let mut on5 = is(cur.as_slice(), "5");
    let mut on6 = is(cur.as_slice(), "6");
    let ls: Vec<Vec<char>> = match listing {
        Some(o) => {
            let c = chars_of(o);
            split_lines(c.as_slice())
        },
        None => Vec::new(),
    };
    let ghost lv = match listing {
        Some(o) => lines(o@),
        None => Seq::<Seq<char>>::empty(),
    };
    assert(views(ls@) =~= lv);
    let mut i: usize = 0;
    assert(!answers_on(lv.take(0), ssid@, "2.4"@));
    assert(!answers_on(lv.take(0), ssid@, "5"@));
    assert(!answers_on(lv.take(0), ssid@, "6"@));
    while i < ls.len()
        invariant
            i <= ls@.len(),
            views(ls@) == lv,
            s@ == ssid@,
            on24 == (current@ == "2.4"@ || answers_on(lv.take(i as int), ssid@, "2.4"@)),
            on5 == (current@ == "5"@ || answers_on(lv.take(i as int), ssid@, "5"@)),
            on6 == (current@ == "6"@ || answers_on(lv.take(i as int), ssid@, "6"@)),
        decreases ls@.len() - i,
    {
        let b = line_band(ls[i].as_slice(), s.as_slice());
        proof {
            reveal_strlit("2.4");
            reveal_strlit("5");
            reveal_strlit("6");
            assert(lv[i as int] == ls@[i as int]@);
            assert("2.4"@.len() == 3 && "5"@.len() == 1 && "6"@.len() == 1);
            assert("5"@[0] == '5' && "6"@[0] == '6');
            assert("2.4"@ != "5"@ && "2.4"@ != "6"@ && "5"@ != "6"@);
            let next = lv.take(i + 1);
            assert(next[i as int] == lv[i as int]);
            assert forall|band: Seq<char>| #[trigger]
                answers_on(next, ssid@, band) == (answers_on(lv.take(i as int), ssid@, band)
                    || line_on(lv[i as int], ssid@, band)) by {
                if answers_on(next, ssid@, band) {
                    let j = choose|j: int| 0 <= j < next.len() && #[trigger] line_on(next[j], ssid@, band);
                    if j < i {
                        assert(lv.take(i as int)[j] == next[j]);
                    }
                }
                if answers_on(lv.take(i as int), ssid@, band) {
                    let j = choose|j: int| 0 <= j < i && #[trigger] line_on(lv.take(i as int)[j], ssid@, band);
                    assert(next[j] == lv.take(i as int)[j]);
                }
            }
        }
        match b {
            Some(name) => {
                let n = chars_of(name);
                assert(line_on(lv[i as int], ssid@, name@));
                if is(n.as_slice(), "2.4") {
                    assert(!line_on(lv[i as int], ssid@, "5"@));
                    assert(!line_on(lv[i as int], ssid@, "6"@));
                    on24 = true;
                } else if is(n.as_slice(), "5") {
                    assert(!line_on(lv[i as int], ssid@, "2.4"@));
                    assert(!line_on(lv[i as int], ssid@, "6"@));
                    on5 = true;
                } else {
                    assert(name@ == "6"@);
                    assert(!line_on(lv[i as int], ssid@, "2.4"@));
                    assert(!line_on(lv[i as int], ssid@, "5"@));
                    on6 = true;
                }
            },
            None => {
                assert(!line_on(lv[i as int], ssid@, "2.4"@));
                assert(!line_on(lv[i as int], ssid@, "5"@));
                assert(!line_on(lv[i as int], ssid@, "6"@));
            },
        }
        i = i + 1;
    }
    assert(lv.take(ls@.len() as int) =~= lv);
    let mut r: Vec<String> = Vec::new();
    if on24 {
        r.push(String::from_str("2.4"));
    }
    if on5 {
        r.push(String::from_str("5"));
    }
    if on6 {
        r.push(String::from_str("6"));
    }
    assert(string_views(r@) =~= offered_bands(
        match listing {
            Some(o) => Some(o@),
            None => None,
        },
        ssid@,
        current@,
    ));
    r
}

// ---------------------------------------------------------------------------
// The band selector's state
// ---------------------------------------------------------------------------

#[derive(Debug, Clone)]
pub struct BandStatus {
    /// The band the radio is actually on.
    pub current: String,
    /// The pinned choice, "auto" when nothing is pinned.
    pub selected: String,
    pub available: Vec<String>,
    pub profile: String,
}

/// The band selector's state as plain values.
pub struct BandView {
    pub current: Seq<char>,
    pub selected: Seq<char>,
    pub available: Seq<Seq<char>>,
    pub profile: Seq<char>,
}

impl View for BandStatus {
    type V = BandView;

    open spec fn view(&self) -> BandView {
        BandView {
            current: self.current@,
            selected: self.selected@,
            available: string_views(self.available@),
            profile: self.profile@,
        }
    }
}

impl BandStatus {
    pub open spec fn is_empty(self) -> bool {
        &&& self.current@.len() == 0
        &&& self.selected@.len() == 0
        &&& self.available@.len() == 0
        &&& self.profile@.len() == 0
    }

    /// The state shown when there is no Wi-Fi link to describe.
    pub fn empty() -> (b: BandStatus)
        ensures
            b.is_empty(),
    {
        BandStatus {
            current: String::new(),
            selected: String::new(),
            available: Vec::new(),
            profile: String::new(),
        }
    }
}

/// The band selector only describes a Wi-Fi link with a known SSID.
pub open spec fn describes_band(status: Status) -> bool {
    status.kind == Kind::Wifi && status.ssid@.len() > 0
}

pub fn band_selector_applies(status: &Status) -> (r: bool)
    ensures
        r == describes_band(*status),
{
    status.kind == Kind::Wifi && status.ssid.as_str().unicode_len() > 0
}

/// The active connection's profile name, from the output of
/// `nmcli -e no -g GENERAL.CONNECTION device show <iface>`.
pub fn wifi_profile(output: Option<&str>) -> (r: String)
    ensures
        r@ == match output {
            Some(o) => trim(o@),
            None => Seq::<char>::empty(),
        },
{
    match output {
        Some(o) => {
            let c = chars_of(o);
            let t = trim_chars(c.as_slice());
            crate::text::string_from_chars(t.as_slice())
        },
        None => String::new(),
    }
}

/// The band that `freq_mhz` lies in, or "".
pub open spec fn current_band(status: Status) -> Seq<char> {
    match band_of(status.freq_mhz) {
        Some(b) => b,
        None => seq![],
    }
}

/// The band selector for a reading of the link: the band in use, the pinned
/// band read from the profile's `802-11-wireless.band` setting (`setting`,
/// the output of `nmcli -e no -g 802-11-wireless.band connection show
/// <profile>`), and the bands offered according to `listing`.
pub fn band_status(status: &Status, profile: &str, setting: Option<&str>, listing: Option<&str>) -> (b: BandStatus)
    ensures
        !describes_band(*status) ==> b.is_empty(),
        describes_band(*status) ==> {
            &&& b.current@ == current_band(*status)
            &&& b.selected@ == if profile@.len() == 0 {
                "auto"@
            } else {
                band_from_setting(
                    match setting {
                        Some(v) => v@,
                        None => Seq::<char>::empty(),
                    },
                )
            }
            &&& string_views(b.available@) == offered_bands(
                match listing {
                    Some(o) => Some(o@),
                    None => None,
                },
                status.ssid@,
                current_band(*status),
            )
            &&& b.profile@ == profile@
        },
{
    if !band_selector_applies(status) {
        return BandStatus::empty();
    }
    let current = match band_for_freq(status.freq_mhz) {
        Some(band) => String::from_str(band),
        None => String::new(),
    };
    let selected = if profile.unicode_len() == 0 {
        String::from_str("auto")
    } else {
        match setting {
            Some(v) => band_from_nm(v),
            None => {
                let none = String::new();
                band_from_nm(none.as_str())
            },
        }
    };
    let available = available_bands(listing, status.ssid.as_str(), current.as_str());
    BandStatus { current, selected, available, profile: String::from_str(profile) }
}

/// The band of a frequency is 2.4 GHz exactly on [2400, 2500) MHz, 5 GHz
/// exactly on [4900, 5925), 6 GHz exactly on [5925, 7125), and none
/// elsewhere.
pub proof fn law_band_ranges(mhz: u64)
    ensures
        (2400 <= mhz < 2500) <==> band_of(mhz) == Some("2.4"@),
        (4900 <= mhz < 5925) <==> band_of(mhz) == Some("5"@),
        (5925 <= mhz < 7125) <==> band_of(mhz) == Some("6"@),
        band_of(mhz) is None <==> !(2400 <= mhz < 2500 || 4900 <= mhz < 7125),
{
    reveal_strlit("2.4");
    reveal_strlit("5");
    reveal_strlit("6");
    assert("2.4"@ != "5"@ && "2.4"@ != "6"@ && "5"@ != "6"@) by {
        assert("2.4"@.len() == 3 && "5"@.len() == 1 && "6"@.len() == 1);
        assert("5"@[0] != "6"@[0]);
    }
}

} // verus!
