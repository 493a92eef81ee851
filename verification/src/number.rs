//! Decimal integers in text: `FromStr` for the integer types and their
//! `Display` form.

use vstd::prelude::*;
use vstd::arithmetic::power2::{lemma2_to64, lemma_pow2_strictly_increases, lemma_pow2_unfold, pow2};

verus! {

pub open spec fn is_digit(c: char) -> bool {
    '0' <= c && c <= '9'
}

pub open spec fn digit_value(c: char) -> int {
    c as int - '0' as int
}

pub open spec fn all_digits(s: Seq<char>) -> bool {
    forall|i: int| 0 <= i < s.len() ==> is_digit(#[trigger] s[i])
}

/// The number that a string of decimal digits spells.
pub open spec fn digits_value(s: Seq<char>) -> int
    decreases s.len(),
{
    if s.len() == 0 {
        0
    } else {
        digits_value(s.drop_last()) * 10 + digit_value(s.last())
    }
}

/// The integer that `str::parse` reads from `s`: an optional `+` (or `-`, for a
/// signed type) followed by one or more ASCII digits, and nothing else.
pub open spec fn int_literal(s: Seq<char>, signed: bool) -> Option<int> {
    if s.len() > 0 && (s[0] == '+' || (signed && s[0] == '-')) {
        let d = s.drop_first();
        if d.len() > 0 && all_digits(d) {
            Some(
                if s[0] == '-' {
                    -digits_value(d)
                } else {
                    digits_value(d)
                },
            )
        } else {
            None
        }
    } else if s.len() > 0 && all_digits(s) {
        Some(digits_value(s))
    } else {
        None
    }
}

/// `s.parse::<i64>().ok()`.
pub open spec fn parsed_i64(s: Seq<char>) -> Option<i64> {
    match int_literal(s, true) {
        Some(v) => if i64::MIN <= v <= i64::MAX {
            Some(v as i64)
        } else {
            None
        },
        None => None,
    }
}

/// `s.parse::<i32>().ok()`.
pub open spec fn parsed_i32(s: Seq<char>) -> Option<i32> {
    match int_literal(s, true) {
        Some(v) => if i32::MIN <= v <= i32::MAX {
            Some(v as i32)
        } else {
            None
        },
        None => None,
    }
}

/// `s.parse::<u64>().ok()`.
pub open spec fn parsed_u64(s: Seq<char>) -> Option<u64> {
    match int_literal(s, false) {
        Some(v) => if 0 <= v <= u64::MAX {
            Some(v as u64)
        } else {
            None
        },
        None => None,
    }
}

pub open spec fn digit_char(d: nat) -> char {
    (48 + d) as char
}

/// The decimal digits of `n`, most significant first.
pub open spec fn decimal_digits(n: nat) -> Seq<char>
    decreases n,
{
    if n < 10 {
        seq![digit_char(n)]
    } else {
        decimal_digits(n / 10) + seq![digit_char(n % 10)]
    }
}

/// `Display` for an integer.
pub open spec fn decimal(n: int) -> Seq<char> {
    if n < 0 {
        seq!['-'] + decimal_digits((-n) as nat)
    } else {
        decimal_digits(n as nat)
    }
}

pub proof fn lemma_digits_nonneg(s: Seq<char>)
    requires
        all_digits(s),
    ensures
        digits_value(s) >= 0,
    decreases s.len(),
{
    if s.len() > 0 {
        lemma_digits_nonneg(s.drop_last());
    }
}

proof fn lemma_digits_prefix(s: Seq<char>, k: int)
    requires
        all_digits(s),
        0 <= k <= s.len(),
    ensures
        digits_value(s.take(k)) <= digits_value(s),
    decreases s.len() - k,
{
    if k < s.len() {
        assert(all_digits(s.drop_last()));
        lemma_digits_prefix(s.drop_last(), k);
        assert(s.drop_last().take(k) =~= s.take(k));
        lemma_digits_nonneg(s.drop_last());
    } else {
        assert(s.take(k) =~= s);
    }
}

/// `floor(log2(n))`, 0 for 0 and 1.
pub open spec fn log2_floor(n: nat) -> nat
    decreases n,
{
    if n < 2 {
        0
    } else {
        1 + log2_floor(n / 2)
    }
}

/// `a / b` rounded to the nearest integer, a tie going to the even one.
pub open spec fn round_even(a: nat, b: nat) -> nat {
    let q = a / b;
    let r = a % b;
    if 2 * r > b || (2 * r == b && q % 2 == 1) {
        q + 1
    } else {
        q
    }
}

pub proof fn lemma_log2_floor_bounds(n: nat)
    requires
        n >= 1,
    ensures
        pow2(log2_floor(n)) <= n < pow2(log2_floor(n) + 1),
    decreases n,
{
    if n < 2 {
        lemma2_to64();
    } else {
        lemma_log2_floor_bounds(n / 2);
        lemma_pow2_unfold(log2_floor(n));
        lemma_pow2_unfold(log2_floor(n) + 1);
    }
}

/// `log2_floor(n)` computed.
pub fn floor_log2(n: u64) -> (l: u32)
    requires
        n >= 1,
    ensures
        l == log2_floor(n as nat),
        l < 64,
{
    proof {
        lemma_log2_floor_bounds(n as nat);
        lemma2_to64();
        if log2_floor(n as nat) >= 64 {
            if log2_floor(n as nat) > 64 {
                lemma_pow2_strictly_increases(64, log2_floor(n as nat));
            }
            assert(false);
        }
    }
    let mut l: u32 = 0;
    let mut m = n;
    while m >= 2
        invariant
            1 <= m,
            log2_floor(n as nat) < 64,
            l + log2_floor(m as nat) == log2_floor(n as nat),
        decreases m,
    {
        m = m / 2;
        l = l + 1;
    }
    l
}

/// `pow2(k)` computed.
pub fn pow2_of(k: u32) -> (p: u128)
    requires
        k <= 64,
    ensures
        p == pow2(k as nat),
{
    let mut p: u128 = 1;
    let mut i: u32 = 0;
    proof {
        lemma2_to64();
    }
    while i < k
        invariant
            i <= k <= 64,
            p == pow2(i as nat),
        decreases k - i,
    {
        proof {
            lemma_pow2_unfold((i + 1) as nat);
            lemma2_to64();
            if i + 1 < 64 {
                lemma_pow2_strictly_increases((i + 1) as nat, 64);
            }
        }
        p = p * 2;
        i = i + 1;
    }
    p
}

/// `round_even(a, b)` computed.
pub fn round_half_even(a: u128, b: u128) -> (q: u128)
    requires
        0 < b,
        a < 0x100_0000_0000_0000_0000_0000_0000_0000,
        b < 0x100_0000_0000_0000_0000_0000_0000_0000,
    ensures
        q == round_even(a as nat, b as nat),
        a / b <= q <= a / b + 1,
{
    let q = a / b;
    let r = a % b;
    assert(q <= a) by (nonlinear_arith)
        requires
            q == a / b,
            b >= 1,
    ;
    if 2 * r > b || (2 * r == b && q % 2 == 1) {
        q + 1
    } else {
        q
    }
}

/// `10^n`.
pub open spec fn pow10(n: nat) -> nat
    decreases n,
{
    if n == 0 {
        1
    } else {
        10 * pow10((n - 1) as nat)
    }
}

pub proof fn lemma_pow10_grows(a: nat, b: nat)
    requires
        a <= b,
    ensures
        1 <= pow10(a) <= pow10(b),
    decreases b,
{
    if b > 0 {
        lemma_pow10_grows(if a < b { a } else { 0 }, (b - 1) as nat);
    }
}

/// `5^n`.
pub open spec fn pow5(n: nat) -> nat
    decreases n,
{
    if n == 0 {
        1
    } else {
        5 * pow5((n - 1) as nat)
    }
}

pub proof fn lemma_pow10_adds(a: nat, b: nat)
    ensures
        pow10(a + b) == pow10(a) * pow10(b),
    decreases a,
{
    if a == 0 {
        assert(pow10(0) == 1);
        assert(a + b == b);
    } else {
        let a1 = (a - 1) as nat;
        lemma_pow10_adds(a1, b);
        assert((a + b) as nat == (a1 + b) as nat + 1);
        assert(pow10(a + b) == 10 * pow10(a1 + b));
        assert(pow10(a) == 10 * pow10(a1));
        let x = pow10(a1);
        let y = pow10(b);
        assert(10 * (x * y) == (10 * x) * y) by (nonlinear_arith);
    }
}

/// `10^n = 2^n * 5^n`.
pub proof fn lemma_pow2_pow5(n: nat)
    ensures
        pow10(n) == pow2(n) * pow5(n),
    decreases n,
{
    if n == 0 {
        vstd::arithmetic::power2::lemma2_to64();
    } else {
        let n1 = (n - 1) as nat;
        lemma_pow2_pow5(n1);
        lemma_pow2_unfold(n);
        assert(pow10(n) == 10 * pow10(n1));
        assert(pow5(n) == 5 * pow5(n1));
        let a = pow2(n1);
        let b = pow5(n1);
        assert(10 * (a * b) == (2 * a) * (5 * b)) by (nonlinear_arith);
    }
}

pub proof fn lemma_pow5_grows(a: nat, b: nat)
    requires
        a <= b,
    ensures
        1 <= pow5(a) <= pow5(b),
    decreases b,
{
    if b > 0 {
        lemma_pow5_grows(if a < b { a } else { 0 }, (b - 1) as nat);
    }
}

/// `5^m` computed, for `m <= 54`.
pub fn pow5_of(m: u32) -> (p: u128)
    requires
        m <= 54,
    ensures
        p == pow5(m as nat),
        p <= 55511151231257827021181583404541015625,
{
    assert(pow5(54) == 55511151231257827021181583404541015625) by {
        reveal_with_fuel(pow5, 55);
    }
    let mut p: u128 = 1;
    let mut i: u32 = 0;
    while i < m
        invariant
            i <= m <= 54,
            p == pow5(i as nat),
            pow5(54) == 55511151231257827021181583404541015625,
        decreases m - i,
    {
        proof {
            lemma_pow5_grows((i + 1) as nat, 54);
        }
        p = p * 5;
        i = i + 1;
    }
    proof {
        lemma_pow5_grows(m as nat, 54);
    }
    p
}

/// A string of `n` digits spells a number below `10^n`.
pub proof fn lemma_digits_below(s: Seq<char>)
    requires
        all_digits(s),
    ensures
        0 <= digits_value(s) < pow10(s.len()),
    decreases s.len(),
{
    if s.len() > 0 {
        assert(all_digits(s.drop_last()));
        lemma_digits_below(s.drop_last());
        let p = pow10(s.drop_last().len());
        let v = digits_value(s.drop_last());
        assert(is_digit(s[s.len() - 1]));
        assert(v * 10 + digit_value(s.last()) < 10 * p) by (nonlinear_arith)
            requires
                0 <= v < p,
                0 <= digit_value(s.last()) <= 9,
        ;
    }
}

/// The digits split at `m`: the leading part shifted left, plus the rest.
pub proof fn lemma_digits_split(s: Seq<char>, m: int)
    requires
        all_digits(s),
        0 <= m <= s.len(),
    ensures
        digits_value(s) == digits_value(s.take(m)) * pow10((s.len() - m) as nat) + digits_value(
            s.skip(m),
        ),
    decreases s.len() - m,
{
    if m == s.len() {
        assert(s.take(m) =~= s);
        assert(s.skip(m) =~= Seq::<char>::empty());
        assert(digits_value(s) * 1 == digits_value(s));
    } else {
        let d = s.drop_last();
        assert(all_digits(d));
        lemma_digits_split(d, m);
        assert(d.take(m) =~= s.take(m));
        assert(s.skip(m).drop_last() =~= d.skip(m));
        assert(s.skip(m).last() == s.last());
        let q = digits_value(s.take(m));
        let p = pow10((d.len() - m) as nat);
        let r = digits_value(d.skip(m));
        assert(pow10((s.len() - m) as nat) == 10 * p);
        assert((q * p + r) * 10 + digit_value(s.last()) == q * (10 * p) + (r * 10 + digit_value(
            s.last(),
        ))) by (nonlinear_arith);
    }
}

/// Dropping the last `t` digits divides by `10^t`.
pub proof fn lemma_digits_shift_right(s: Seq<char>, t: nat)
    requires
        all_digits(s),
        t <= s.len(),
    ensures
        digits_value(s) / (pow10(t) as int) == digits_value(s.take(s.len() - t)),
{
    let m = s.len() - t;
    lemma_digits_split(s, m);
    assert(all_digits(s.skip(m))) by {
        assert forall|j: int| 0 <= j < s.skip(m).len() implies is_digit(#[trigger] s.skip(m)[j]) by {
            assert(s.skip(m)[j] == s[m + j]);
        }
    }
    lemma_digits_below(s.skip(m));
    assert(s.skip(m).len() == t);
    lemma_pow10_grows(0, t);
    vstd::arithmetic::div_mod::lemma_fundamental_div_mod_converse(
        digits_value(s),
        pow10(t) as int,
        digits_value(s.take(m)),
        digits_value(s.skip(m)),
    );
}

/// The digits `s[start..]` as a number, when they are all digits, there is at
/// least one, and the number is at most `limit`.
pub(crate) fn digits_at_most(s: &[char], start: usize, limit: u64) -> (r: Option<u64>)
    requires
        start <= s@.len(),
        limit >= 9,
    ensures
        match r {
            Some(v) => {
                &&& s@.len() > start
                &&& all_digits(s@.skip(start as int))
                &&& v == digits_value(s@.skip(start as int))
                &&& v <= limit
            },
            None => !(s@.len() > start && all_digits(s@.skip(start as int)) && digits_value(
                s@.skip(start as int),
            ) <= limit),
        },
{
    let ghost d = s@.skip(start as int);
    if start == s.len() {
        return None;
    }
    let mut acc: u64 = 0;
    let mut i = start;
    while i < s.len()
        invariant
            start <= i <= s@.len(),
            d == s@.skip(start as int),
            all_digits(d.take(i - start)),
            acc == digits_value(d.take(i - start)),
            acc <= limit,
            limit >= 9,
        decreases s@.len() - i,
    {
        let c = s[i];
        if !('0' <= c && c <= '9') {
            assert(d[i - start] == c);
            return None;
        }
        let dv = (c as u32 - '0' as u32) as u64;
        proof {
            let t = d.take(i + 1 - start);
            assert(t.drop_last() =~= d.take(i - start));
            assert(t.last() == c);
            assert(all_digits(t));
        }
        if acc > (limit - dv) / 10 {
            proof {
                let t = d.take(i + 1 - start);
                assert(digits_value(t) == acc * 10 + dv);
                assert(acc * 10 + dv > limit) by (nonlinear_arith)
                    requires
                        acc > (limit - dv) / 10,
                        dv <= 9,
                        dv <= limit,
                ;
                if all_digits(d) {
                    lemma_digits_prefix(d, i + 1 - start);
                }
            }
            return None;
        }
        proof {
            assert(acc * 10 + dv <= limit) by (nonlinear_arith)
                requires
                    acc <= (limit - dv) / 10,
                    dv <= limit,
            ;
        }
        acc = acc * 10 + dv;
        i = i + 1;
    }
    assert(d.take(i - start) =~= d);
    Some(acc)
}

/// `s.parse::<i64>().ok()`.
pub fn parse_i64(s: &[char]) -> (r: Option<i64>)
    ensures
        r == parsed_i64(s@),
{
    if s.len() > 0 && (s[0] == '+' || s[0] == '-') {
        assert(s@.skip(1) =~= s@.drop_first());
        if s[0] == '-' {
            match digits_at_most(s, 1, 9223372036854775808u64) {
                Some(m) => Some((0i128 - m as i128) as i64),
                None => None,
            }
        } else {
            match digits_at_most(s, 1, 9223372036854775807u64) {
                Some(m) => Some(m as i64),
                None => None,
            }
        }
    } else {
        assert(s@.skip(0) =~= s@);
        match digits_at_most(s, 0, 9223372036854775807u64) {
            Some(m) => Some(m as i64),
            None => None,
        }
    }
}

/// `s.parse::<i32>().ok()`.
pub fn parse_i32(s: &[char]) -> (r: Option<i32>)
    ensures
        r == parsed_i32(s@),
{
    match parse_i64(s) {
        Some(v) => if -2147483648 <= v && v <= 2147483647 {
            Some(v as i32)
        } else {
            None
        },
        None => None,
    }
}

/// `s.parse::<u64>().ok()`.
pub fn parse_u64(s: &[char]) -> (r: Option<u64>)
    ensures
        r == parsed_u64(s@),
{
    if s.len() > 0 && s[0] == '+' {
        assert(s@.skip(1) =~= s@.drop_first());
        digits_at_most(s, 1, 18446744073709551615u64)
    } else {
        assert(s@.skip(0) =~= s@);
        if s.len() > 0 && s[0] == '-' {
            assert(!is_digit(s@[0]));
        }
        digits_at_most(s, 0, 18446744073709551615u64)
    }
}

fn digit_of(d: u64) -> (c: char)
    requires
        d < 10,
    ensures
        c == digit_char(d as nat),
{
    ((48 + d) as u8) as char
}

/// Appends the decimal digits of `n`.
pub fn push_digits(r: &mut Vec<char>, n: u64)
    ensures
        final(r)@ == old(r)@ + decimal_digits(n as nat),
    decreases n,
{
    if n < 10 {
        r.push(digit_of(n));
    } else {
        push_digits(r, n / 10);
        r.push(digit_of(n % 10));
    }
}

/// Appends the decimal digits of a 128-bit `n`.
pub fn push_digits_wide(r: &mut Vec<char>, n: u128)
    ensures
        final(r)@ == old(r)@ + decimal_digits(n as nat),
    decreases n,
{
    if n < 10 {
        r.push(digit_of(n as u64));
    } else {
        push_digits_wide(r, n / 10);
        r.push(digit_of((n % 10) as u64));
    }
}

/// Appends `Display` of `n`.
pub fn push_decimal(r: &mut Vec<char>, n: i64)
    ensures
        final(r)@ == old(r)@ + decimal(n as int),
{
    if n < 0 {
        r.push('-');
        push_digits(r, (0i128 - n as i128) as u64);
    } else {
        push_digits(r, n as u64);
    }
}

} // verus!
