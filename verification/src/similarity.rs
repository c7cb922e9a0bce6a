//! How much of one content another has kept.

use crate::linediff::{bytes_dropped, bytes_dropped_bounded, hunk_views, line_diff, line_hunks, removed_bytes};
use crate::strings::bytes_eq;
use crate::text::{is_binary, looks_binary};
use vstd::arithmetic::div_mod::{lemma_div_denominator, lemma_div_is_ordered, lemma_fundamental_div_mod};
use vstd::arithmetic::power2::{lemma2_to64, lemma_pow2_adds, lemma_pow2_pos, lemma_pow2_unfold, pow2};
use vstd::prelude::*;

verus! {

/// A similarity of one, in the unit of `content_similarity`.
pub const FULL_SIMILARITY: u32 = 0x200_0000;

/// The similarity from which a deleted and an added file are one renamed file: one half,
/// in the unit of `content_similarity`.
pub const RENAME_SIMILARITY: u32 = 0x100_0000;

/// `a / b`, rounded to the nearest whole number, a half to the even one.
pub open spec fn div_round(a: nat, b: nat) -> nat {
    if 2 * (a % b) > b || (2 * (a % b) == b && (a / b) % 2 == 1) {
        a / b + 1
    } else {
        a / b
    }
}

/// The weight of the last of the 24 leading binary digits of `n`.
pub open spec fn last_digit(n: nat) -> nat
    decreases n,
{
    if n < 0x100_0000 {
        1
    } else {
        2 * last_digit(n / 2)
    }
}

/// `n` rounded to 24 leading binary digits: what a single-precision number holds of it.
pub open spec fn to_single(n: nat) -> nat {
    div_round(n, last_digit(n)) * last_digit(n)
}

/// The single-precision quotient of two single-precision numbers, in units of two to the
/// power of -25. It is exact from one quarter up to one.
pub open spec fn single_ratio(a: nat, b: nat) -> nat {
    let fine = div_round(a * 0x200_0000, b);
    if fine < RENAME_SIMILARITY {
        fine
    } else {
        2 * div_round(a * 0x100_0000, b)
    }
}

/// The similarity of two contents, in units of two to the power of -25: the share of the
/// larger one that the bytes kept from `before` make up, in single precision. Equal
/// contents have a similarity of one; empty contents and binary ones that differ have none.
pub open spec fn similarity(before: Seq<u8>, after: Seq<u8>) -> nat {
    if before.len() == 0 || after.len() == 0 {
        0
    } else if before == after {
        FULL_SIMILARITY as nat
    } else if looks_binary(before) || looks_binary(after) {
        0
    } else {
        let kept = (before.len() - bytes_dropped(line_diff(before, after))) as nat;
        let larger = if before.len() < after.len() {
            after.len()
        } else {
            before.len()
        };
        single_ratio(to_single(kept), to_single(larger))
    }
}

fn round_div(a: u128, b: u128) -> (r: u128)
    requires
        0 < b,
        a < 0x1_0000_0000_0000_0000_0000_0000,
        b < 0x1_0000_0000_0000_0000_0000_0000,
    ensures
        r == div_round(a as nat, b as nat),
        r <= a + 1,
{
    let q: u128 = a / b;
    let m: u128 = a % b;
    assert(q <= a) by (nonlinear_arith)
        requires
            q == a / b,
            0 < b,
    ;
    if 2 * m > b || (2 * m == b && q % 2 == 1) {
        q + 1
    } else {
        q
    }
}

proof fn lemma_last_digit(n: nat, k: nat)
    requires
        n < 0x100_0000 * pow2(k),
    ensures
        1 <= last_digit(n) <= pow2(k),
        n / last_digit(n) < 0x100_0000,
        n > 0 ==> n / last_digit(n) > 0,
    decreases k,
{
    lemma_pow2_pos(k);
    if n >= 0x100_0000 {
        if k == 0 {
            lemma2_to64();
        }
        lemma_pow2_unfold(k);
        lemma_last_digit(n / 2, (k - 1) as nat);
        lemma_div_denominator(n as int, 2, last_digit(n / 2) as int);
    } else {
        assert(n / 1 == n);
    }
}

proof fn lemma_single_bounds(n: nat)
    requires
        n <= 0xffff_ffff_ffff_ffff,
    ensures
        1 <= last_digit(n) <= 0x100_0000_0000,
        div_round(n, last_digit(n)) <= 0x100_0000,
        to_single(n) <= 0x1_0000_0000_0000_0000,
        n > 0 ==> to_single(n) > 0,
{
    lemma2_to64();
    lemma_pow2_adds(8, 32);
    assert(pow2(40) == 0x100_0000_0000);
    lemma_last_digit(n, 40);
    let d = last_digit(n);
    let q = div_round(n, d);
    assert(q * d <= 0x100_0000 * 0x100_0000_0000) by (nonlinear_arith)
        requires
            0 <= q <= 0x100_0000,
            0 <= d <= 0x100_0000_0000,
    ;
    assert(n > 0 ==> q * d > 0) by (nonlinear_arith)
        requires
            n > 0 ==> q > 0,
            d > 0,
    ;
}

/// `n` in single precision.
fn single(n: usize) -> (r: u128)
    ensures
        r == to_single(n as nat),
        r <= 0x1_0000_0000_0000_0000,
        n > 0 ==> r > 0,
{
    let mut head: usize = n;
    let mut unit: u128 = 1;
    proof {
        lemma_single_bounds(n as nat);
    }
    while head >= 0x100_0000
        invariant
            unit >= 1,
            last_digit(n as nat) == unit * last_digit(head as nat),
            last_digit(n as nat) <= 0x100_0000_0000,
        decreases head,
    {
        let ghost rest = last_digit((head / 2) as nat);
        proof {
            lemma_single_bounds((head / 2) as nat);
            assert(unit * (2 * rest) == (unit * 2) * rest) by (nonlinear_arith);
            assert(unit * 2 <= (unit * 2) * rest) by (nonlinear_arith)
                requires
                    rest >= 1,
                    unit >= 1,
            ;
        }
        unit = unit * 2;
        head = head / 2;
    }
    assert(last_digit(head as nat) == 1);
    assert(unit * 1 == unit) by (nonlinear_arith);
    let q: u128 = round_div(n as u128, unit);
    assert(q * unit <= 0x1_0000_0000_0000_0000) by (nonlinear_arith)
        requires
            q <= 0x100_0000,
            unit <= 0x100_0000_0000,
    ;
    q * unit
}

proof fn lemma_ratio_bound(a: nat, b: nat)
    requires
        0 < b,
        a <= b,
    ensures
        single_ratio(a, b) <= FULL_SIMILARITY,
{
    lemma_div_round_bound(a * 0x100_0000, b, 0x100_0000);
}

proof fn lemma_div_round_bound(a: nat, b: nat, bound: nat)
    requires
        0 < b,
        a <= bound * b,
    ensures
        div_round(a, b) <= bound,
{
    lemma_fundamental_div_mod(a as int, b as int);
    let q = a / b;
    let m = a % b;
    assert(q <= bound) by (nonlinear_arith)
        requires
            a == b * q + m,
            a <= bound * b,
            0 < b,
            0 <= m,
    ;
    assert(q == bound ==> m == 0) by (nonlinear_arith)
        requires
            a == b * q + m,
            a <= bound * b,
            0 <= m,
    ;
}

proof fn lemma_div_round_monotone(a: nat, c: nat, b: nat)
    requires
        0 < b,
        a <= c,
    ensures
        div_round(a, b) <= div_round(c, b),
{
    lemma_fundamental_div_mod(a as int, b as int);
    lemma_fundamental_div_mod(c as int, b as int);
    lemma_div_is_ordered(a as int, c as int, b as int);
    let q = a / b;
    let p = c / b;
    if q == p {
        assert(b * q == b * p);
        assert(a % b <= c % b);
    }
}

proof fn lemma_single_monotone(n: nat, m: nat)
    requires
        n <= m,
    ensures
        to_single(n) <= to_single(m),
    decreases m,
{
    if m < 0x100_0000 {
        lemma_single_small(n);
        lemma_single_small(m);
    } else if n < 0x100_0000 {
        lemma_single_small(n);
        lemma_single_large(m);
    } else {
        lemma_digit_monotone(n, m);
        let d = last_digit(n);
        let e = last_digit(m);
        if d == e {
            lemma_digit_pos(n);
            lemma_div_round_monotone(n, m, d);
            assert(div_round(n, d) * d <= div_round(m, d) * d) by (nonlinear_arith)
                requires
                    div_round(n, d) <= div_round(m, d),
            ;
        } else {
            lemma_single_upper(n);
            lemma_single_lower(m);
            lemma_digit_step(n, m);
            assert(0x100_0000 * d <= 0x80_0000 * e) by (nonlinear_arith)
                requires
                    2 * d <= e,
            ;
        }
    }
}

proof fn lemma_digit_pos(n: nat)
    ensures
        last_digit(n) >= 1,
        n >= 0x100_0000 ==> last_digit(n) >= 2,
    decreases n,
{
    if n >= 0x100_0000 {
        lemma_digit_pos(n / 2);
    }
}

proof fn lemma_digit_monotone(n: nat, m: nat)
    requires
        n <= m,
    ensures
        last_digit(n) <= last_digit(m),
    decreases m,
{
    lemma_digit_pos(m);
    if n >= 0x100_0000 {
        lemma_digit_monotone(n / 2, m / 2);
    }
}

proof fn lemma_digit_step(n: nat, m: nat)
    requires
        n <= m,
        last_digit(n) != last_digit(m),
    ensures
        2 * last_digit(n) <= last_digit(m),
    decreases m,
{
    if n >= 0x100_0000 {
        lemma_digit_step(n / 2, m / 2);
    } else {
        lemma_digit_pos(m / 2);
    }
}

proof fn lemma_digit_range(n: nat)
    ensures
        n < 0x100_0000 * last_digit(n),
        n >= 0x100_0000 ==> 0x80_0000 * last_digit(n) <= n,
    decreases n,
{
    if n >= 0x100_0000 {
        lemma_digit_range(n / 2);
        if n / 2 < 0x100_0000 {
            assert(last_digit(n / 2) == 1);
        }
    }
}

proof fn lemma_single_upper(n: nat)
    ensures
        to_single(n) <= 0x100_0000 * last_digit(n),
{
    lemma_digit_pos(n);
    lemma_digit_range(n);
    let d = last_digit(n);
    lemma_div_round_bound(n, d, 0x100_0000);
    assert(div_round(n, d) * d <= 0x100_0000 * d) by (nonlinear_arith)
        requires
            div_round(n, d) <= 0x100_0000,
    ;
}

proof fn lemma_single_lower(n: nat)
    requires
        n >= 0x100_0000,
    ensures
        to_single(n) >= 0x80_0000 * last_digit(n),
{
    lemma_digit_pos(n);
    lemma_digit_range(n);
    let d = last_digit(n);
    lemma_fundamental_div_mod(n as int, d as int);
    let q = n / d;
    assert(q >= 0x80_0000) by (nonlinear_arith)
        requires
            n == d * q + n % d,
            n % d < d,
            0x80_0000 * d <= n,
            0 < d,
    ;
    assert(div_round(n, d) * d >= 0x80_0000 * d) by (nonlinear_arith)
        requires
            div_round(n, d) >= 0x80_0000,
    ;
}

proof fn lemma_single_small(n: nat)
    requires
        n < 0x100_0000,
    ensures
        to_single(n) == n,
{
    assert(n / 1 == n && n % 1 == 0);
    assert(last_digit(n) == 1);
    assert(div_round(n, 1) == n);
    assert(n * 1 == n) by (nonlinear_arith);
}

proof fn lemma_single_large(n: nat)
    requires
        n >= 0x100_0000,
    ensures
        to_single(n) >= 0x100_0000,
{
    lemma_digit_pos(n);
    lemma_single_lower(n);
    assert(0x80_0000 * last_digit(n) >= 0x80_0000 * 2) by (nonlinear_arith)
        requires
            last_digit(n) >= 2,
    ;
}

proof fn lemma_single_doubles(n: nat)
    ensures
        to_single(2 * n) == 2 * to_single(n),
{
    let d = last_digit(n);
    lemma_digit_pos(n);
    if 2 * n < 0x100_0000 {
        lemma_single_small(n);
        lemma_single_small(2 * n);
    } else {
        assert((2 * n) / 2 == n);
        assert(last_digit(2 * n) == 2 * d);
        lemma_fundamental_div_mod(n as int, d as int);
        let q = n / d;
        let m = n % d;
        assert(2 * n == q * (2 * d) + 2 * m) by (nonlinear_arith)
            requires
                n == d * q + m,
        ;
        vstd::arithmetic::div_mod::lemma_fundamental_div_mod_converse(
            (2 * n) as int,
            (2 * d) as int,
            q as int,
            (2 * m) as int,
        );
        assert(div_round(2 * n, 2 * d) == div_round(n, d));
        assert(div_round(n, d) * (2 * d) == 2 * (div_round(n, d) * d)) by (nonlinear_arith);
    }
}

/// A number in single precision is the number itself up to two to the power of 24, keeps
/// order and doubling, and is off by no more than one part in two to the power of 24.
pub proof fn single_precision_is_near(n: nat, m: nat)
    requires
        n <= m,
    ensures
        n <= 0x100_0000 ==> to_single(n) == n,
        to_single(n) <= to_single(m),
        to_single(2 * n) == 2 * to_single(n),
        0x100_0000 * to_single(n) <= 0x100_0001 * n,
        0x100_0001 * n <= 0x100_0000 * to_single(n) + 2 * n,
{
    lemma_single_monotone(n, m);
    lemma_single_doubles(n);
    if n < 0x100_0000 {
        lemma_single_small(n);
    } else {
        if n == 0x100_0000 {
            lemma_single_doubles(0x80_0000);
            lemma_single_small(0x80_0000);
        }
        lemma_digit_range(n);
        lemma_digit_pos(n);
        let d = last_digit(n);
        let q = n / d;
        let r = n % d;
        lemma_fundamental_div_mod(n as int, d as int);
        assert(2 * (div_round(n, d) * d) <= 2 * n + d && 2 * n <= 2 * (div_round(n, d) * d) + d) by (nonlinear_arith)
            requires
                n == d * q + r,
                0 <= r < d,
                div_round(n, d) == q || (div_round(n, d) == q + 1 && 2 * r >= d),
                div_round(n, d) == q ==> 2 * r <= d,
        ;
    }
}

proof fn lemma_singles_apart(n: nat, m: nat)
    requires
        to_single(n) < to_single(m),
    ensures
        to_single(m) <= 0x100_0000 * (to_single(m) - to_single(n)),
{
    if m <= n {
        lemma_single_monotone(m, n);
    }
    let x = to_single(n);
    let y = to_single(m);
    let e = last_digit(n);
    let d = last_digit(m);
    let p = div_round(n, e);
    let q = div_round(m, d);
    lemma_digit_pos(n);
    lemma_digit_pos(m);
    lemma_digit_monotone(n, m);
    lemma_single_upper(n);
    lemma_single_upper(m);
    if e == d {
        assert(d <= y - x) by (nonlinear_arith)
            requires
                x == p * d,
                y == q * d,
                x < y,
                0 < d,
        ;
    } else {
        lemma_digit_step(n, m);
        if m < 0x100_0000 {
            assert(d == 1);
        }
        lemma_single_lower(m);
        assert(x <= 0x80_0000 * d) by (nonlinear_arith)
            requires
                x <= 0x100_0000 * e,
                2 * e <= d,
        ;
        assert(y == 0x80_0000 * d || y >= 0x80_0001 * d) by (nonlinear_arith)
            requires
                y == q * d,
                y >= 0x80_0000 * d,
                0 < d,
        ;
        if y == 0x80_0000 * d {
            if d == 2 * e {
                assert(e <= y - x) by (nonlinear_arith)
                    requires
                        x == p * e,
                        y == 0x100_0000 * e,
                        x < y,
                        0 < e,
                ;
            } else {
                lemma_digit_gap(n, m);
                assert(x <= 0x40_0000 * d) by (nonlinear_arith)
                    requires
                        x <= 0x100_0000 * e,
                        4 * e <= d,
                ;
            }
        }
    }
}

proof fn lemma_digit_gap(n: nat, m: nat)
    requires
        n <= m,
        last_digit(n) != last_digit(m),
        last_digit(m) != 2 * last_digit(n),
    ensures
        4 * last_digit(n) <= last_digit(m),
    decreases m,
{
    if n >= 0x100_0000 {
        lemma_digit_gap(n / 2, m / 2);
    } else {
        assert(last_digit(n) == 1);
        assert(m >= 0x100_0000);
        assert(last_digit(m / 2) != 1);
        lemma_digit_pos(m / 2);
        assert(m / 2 >= 0x100_0000);
    }
}

/// The share that a part makes up of a whole reaches one half, in single precision, exactly
/// where twice the part reaches the whole.
pub proof fn half_means_half(part: nat, whole: nat)
    requires
        0 < whole,
        part <= whole,
    ensures
        single_ratio(to_single(part), to_single(whole)) >= 0x100_0000 <==> 2 * to_single(part) >= to_single(whole),
        whole <= 0x100_0000 ==> (single_ratio(to_single(part), to_single(whole)) >= 0x100_0000 <==> 2 * part >= whole),
{
    single_precision_is_near(part, whole);
    single_precision_is_near(whole, whole);
    let a = to_single(part);
    let b = to_single(whole);
    if whole < 0x100_0000 {
        lemma_single_small(whole);
    } else {
        lemma_single_large(whole);
    }
    if 2 * a < b {
        lemma_single_doubles(part);
        lemma_singles_apart(2 * part, whole);
        lemma_div_round_bound(a * 0x200_0000, b, 0xff_ffff);
    } else {
        lemma_div_round_reaches(a * 0x200_0000, b, 0x100_0000);
        lemma_div_round_reaches(a * 0x100_0000, b, 0x80_0000);
    }
}

proof fn lemma_div_round_reaches(a: nat, b: nat, bound: nat)
    requires
        0 < b,
        bound * b <= a,
    ensures
        bound <= div_round(a, b),
{
    lemma_fundamental_div_mod(a as int, b as int);
    let q = a / b;
    let m = a % b;
    assert(bound <= q) by (nonlinear_arith)
        requires
            a == b * q + m,
            bound * b <= a,
            0 <= m < b,
    ;
}

/// Similarity between two contents, in units of two to the power of -25, following gix's
/// rename-tracking metric: `(old_len - removed_bytes) / max(old_len, new_len)`, the
/// fraction of the larger side covered by source bytes retained across the diff, computed
/// in single precision. A delete and an add pair as a rename from `RENAME_SIMILARITY` on.
pub fn content_similarity(before: &[u8], after: &[u8]) -> (r: u32)
    ensures
        r == similarity(before@, after@),
        r <= FULL_SIMILARITY,
{
    if before.len() == 0 || after.len() == 0 {
        return 0;
    }
    if bytes_eq(before, after) {
        return FULL_SIMILARITY;
    }
    if is_binary(before) || is_binary(after) {
        return 0;
    }
    let hunks = line_hunks(before, after);
    let removed: usize = removed_bytes(&hunks);
    proof {
        bytes_dropped_bounded(hunk_views(hunks@));
    }
    let kept: usize = before.len() - removed;
    let larger: usize = if before.len() < after.len() {
        after.len()
    } else {
        before.len()
    };
    let a: u128 = single(kept);
    let b: u128 = single(larger);
    proof {
        lemma_single_monotone(kept as nat, larger as nat);
        lemma_ratio_bound(a as nat, b as nat);
        lemma_div_round_bound((a * 0x200_0000) as nat, b as nat, 0x200_0000);
    }
    let fine: u128 = round_div(a * 0x200_0000, b);
    if fine < RENAME_SIMILARITY as u128 {
        fine as u32
    } else {
        2 * round_div(a * 0x100_0000, b) as u32
    }
}

} // verus!
