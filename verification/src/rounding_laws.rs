//! That rounded numbers are as near as they can be.

use vstd::arithmetic::div_mod::*;
use vstd::arithmetic::power2::*;
use vstd::prelude::*;

use crate::binary64;
use crate::fmt_duration;
use crate::text;

verus! {

/// How far two numbers are apart.
pub open spec fn apart(a: int, b: int) -> int {
    if a < b {
        b - a
    } else {
        a - b
    }
}

/// A fraction is rounded to a whole number that is at most one half away, and to the even
/// one of two that are as near.
pub proof fn law_whole_numbers_are_nearest(n: nat, d: nat)
    requires
        d > 0,
    ensures
        2 * apart((binary64::half_even(n, d) * d) as int, n as int) <= d,
        2 * apart((binary64::half_even(n, d) * d) as int, n as int) == d ==> binary64::half_even(n, d) % 2
            == 0,
{
    let q = n / d;
    lemma_fundamental_div_mod(n as int, d as int);
    assert(q * d == d * q) by (nonlinear_arith);
    assert((q + 1) * d == q * d + d) by (nonlinear_arith);
}

/// No multiple of `u` is nearer to `a` than the rounded one.
proof fn lemma_multiples(a: nat, u: nat, k: nat)
    requires
        u > 0,
    ensures
        apart((binary64::half_even(a, u) * u) as int, a as int) <= apart((k * u) as int, a as int),
{
    let h = binary64::half_even(a, u);
    law_whole_numbers_are_nearest(a, u);
    if k > h {
        assert(k * u >= h * u + u) by (nonlinear_arith)
            requires
                k >= h + 1,
        ;
    } else if k < h {
        assert(h * u >= k * u + u) by (nonlinear_arith)
            requires
                h >= k + 1,
        ;
    }
}

proof fn lemma_spacing_exists(a: nat, d: nat, s: nat)
    requires
        d > 0,
        pow2(52) * pow2(s) * d <= a,
    ensures
        exists|t: nat| binary64::spaced(a, d, t),
    decreases a - pow2(s),
{
    lemma_pow2_pos(s);
    lemma_pow2_pos(52);
    assert(pow2(s) <= a) by (nonlinear_arith)
        requires
            pow2(52) * pow2(s) * d <= a,
            pow2(52) >= 1,
            pow2(s) >= 1,
            d >= 1,
    ;
    if a < pow2(53) * pow2(s) * d {
        assert(binary64::spaced(a, d, s));
    } else {
        lemma_pow2_unfold(s + 1);
        lemma_pow2_unfold(53);
        assert(pow2(52) * pow2(s + 1) * d == pow2(53) * pow2(s) * d) by (nonlinear_arith)
            requires
                pow2(s + 1) == 2 * pow2(s),
                pow2(53) == 2 * pow2(52),
        ;
        assert(pow2(s + 1) <= a) by (nonlinear_arith)
            requires
                pow2(52) * pow2(s + 1) * d <= a,
                pow2(52) >= 1,
                pow2(s + 1) >= 1,
                d >= 1,
        ;
        lemma_spacing_exists(a, d, s + 1);
    }
}

/// Where the doubles around `a / d` units are spaced `2^s` apart.
proof fn lemma_spacing(n: nat, d: nat) -> (s: nat)
    requires
        d > 0,
        n * binary64::one() >= pow2(53) * d,
    ensures
        binary64::spaced(n * binary64::one(), d, s),
        binary64::nearest(n, d) == binary64::half_even(n * binary64::one(), d * pow2(s)) * pow2(
            s,
        ),
{
    let a = n * binary64::one();
    lemma_pow2_unfold(53);
    lemma2_to64();
    assert(pow2(0) == 1);
    assert(pow2(52) * pow2(0) * d <= a) by (nonlinear_arith)
        requires
            pow2(53) == 2 * pow2(52),
            a >= pow2(53) * d,
            pow2(0) == 1,
    ;
    lemma_spacing_exists(a, d, 0);
    choose|s: nat| binary64::spaced(a, d, s)
}

/// No double, that is no multiple of a power of two by a number of at most 53 bits, is
/// nearer to a fraction than the one that it is rounded to.
pub proof fn law_no_double_is_nearer(n: nat, d: nat, m: nat, e: nat)
    requires
        d > 0,
        m < pow2(53),
    ensures
        apart((binary64::nearest(n, d) * d) as int, (n * binary64::one()) as int) <= apart(
            (m * pow2(e) * d) as int,
            (n * binary64::one()) as int,
        ),
{
    let a = n * binary64::one();
    if a < pow2(53) * d {
        lemma_multiples(a, d, m * pow2(e));
    } else {
        let s = lemma_spacing(n, d);
        let u = d * pow2(s);
        let h = binary64::half_even(a, u);
        lemma_pow2_pos(s);
        assert(u > 0) by (nonlinear_arith)
            requires
                u == d * pow2(s),
                d > 0,
                pow2(s) > 0,
        ;
        assert(binary64::nearest(n, d) * d == h * u) by (nonlinear_arith)
            requires
                binary64::nearest(n, d) == h * pow2(s),
                u == d * pow2(s),
        ;
        if e >= s {
            let k = (e - s) as nat;
            lemma_pow2_adds(s, k);
            lemma_multiples(a, u, m * pow2(k));
            assert(m * pow2(e) * d == m * pow2(k) * u) by (nonlinear_arith)
                requires
                    pow2(e) == pow2(s) * pow2(k),
                    u == d * pow2(s),
            ;
        } else {
            lemma_multiples(a, u, pow2(52));
            assert(pow2(52) * u <= a) by (nonlinear_arith)
                requires
                    pow2(52) * pow2(s) * d <= a,
                    u == d * pow2(s),
            ;
            lemma_pow2_adds(53, e);
            lemma_pow2_adds(52, s);
            if 53 + e < 52 + s {
                lemma_pow2_strictly_increases(53 + e, 52 + s);
            }
            assert(m * pow2(e) * d <= pow2(52) * u) by (nonlinear_arith)
                requires
                    m < pow2(53),
                    pow2(53) * pow2(e) == pow2(53 + e),
                    pow2(52) * pow2(s) == pow2(52 + s),
                    pow2(53 + e) <= pow2(52 + s),
                    u == d * pow2(s),
            ;
        }
    }
}

/// A whole number of at most 53 bits is a double, and is rounded to itself.
pub proof fn law_small_numbers_are_doubles(n: nat)
    requires
        n < pow2(53),
    ensures
        binary64::from_int(n) == n * binary64::one(),
{
    law_no_double_is_nearer(n, 1, n, 1074);
}

/// Rounding a fraction to a double changes it by at most one part in `2^53`.
proof fn lemma_relative(n: nat, d: nat)
    requires
        d > 0,
        n * binary64::one() >= pow2(53) * d,
    ensures
        pow2(53) * apart((binary64::nearest(n, d) * d) as int, (n * binary64::one()) as int) <= n
            * binary64::one(),
{
    let a = n * binary64::one();
    let s = lemma_spacing(n, d);
    let u = d * pow2(s);
    let h = binary64::half_even(a, u);
    lemma_pow2_pos(s);
    lemma_pow2_unfold(53);
    assert(u > 0) by (nonlinear_arith)
        requires
            u == d * pow2(s),
            d > 0,
            pow2(s) > 0,
    ;
    assert(binary64::nearest(n, d) * d == h * u) by (nonlinear_arith)
        requires
            binary64::nearest(n, d) == h * pow2(s),
            u == d * pow2(s),
    ;
    law_whole_numbers_are_nearest(a, u);
    let off = apart((h * u) as int, a as int);
    assert(pow2(53) * off <= a) by (nonlinear_arith)
        requires
            2 * off <= u,
            off >= 0,
            pow2(53) == 2 * pow2(52),
            pow2(52) * pow2(s) * d <= a,
            u == d * pow2(s),
    ;
}

/// The quotient of two whole numbers, shown with one digit behind the point or two, is off
/// by at most one half of the last digit.
pub proof fn law_shown_quotient_is_close(n: nat, d: nat, places: nat)
    requires
        1 <= d <= n,
        1 <= places,
        places * n < pow2(52),
    ensures
        2 * apart(
            (binary64::fixed_point(binary64::int_quotient(n, d), places) * d) as int,
            (places * n) as int,
        ) <= d,
{
    let one = binary64::one();
    lemma_pow2_unfold(53);
    lemma_pow2_pos(52);
    lemma_pow2_strictly_increases(53, 1074);
    assert(n <= places * n) by (nonlinear_arith)
        requires
            places >= 1,
    ;
    law_small_numbers_are_doubles(n);
    law_small_numbers_are_doubles(d);
    let x = n * one;
    let y = d * one;
    let q = binary64::nearest(x, y);
    assert(q == binary64::int_quotient(n, d));
    assert(y > 0) by (nonlinear_arith)
        requires
            y == d * one,
            d >= 1,
            one >= 1,
    ;
    assert(x * one >= pow2(53) * y) by (nonlinear_arith)
        requires
            x == n * one,
            y == d * one,
            d <= n,
            one >= pow2(53),
    ;
    lemma_relative(x, y);
    let v = binary64::half_even(q * places, one);
    law_whole_numbers_are_nearest(q * places, one);
    let e1 = apart((v * one) as int, (q * places) as int);
    let e2 = apart((q * y) as int, (x * one) as int);
    let e = apart((v * d) as int, (places * n) as int);
    lemma_errors(v, d, places, n, one, q, e1, e2, e);
    lemma_bound(
        pow2(53) as int,
        pow2(52) as int,
        e,
        e1,
        e2,
        d as int,
        places as int,
        n as int,
        one as int,
    );
    assert(2 * e <= d) by (nonlinear_arith)
        requires
            pow2(53) * e <= pow2(52) * d + places * n,
            places * n < pow2(52),
            pow2(53) == 2 * pow2(52),
            pow2(52) > 0,
    ;
}

proof fn lemma_bound(
    p: int,
    h: int,
    e: int,
    e1: int,
    e2: int,
    d: int,
    places: int,
    n: int,
    one: int,
)
    requires
        e * (one * one) <= e1 * (d * one) + places * e2,
        2 * e1 <= one,
        p * e2 <= n * one * one,
        p == 2 * h,
        h > 0,
        one > 0,
        d > 0,
        places > 0,
    ensures
        p * e <= h * d + places * n,
{
    let big = one * one;
    let y = d * one;
    let w = n * one * one;
    assert(big > 0) by (nonlinear_arith)
        requires
            big == one * one,
            one > 0,
    ;
    assert(y > 0) by (nonlinear_arith)
        requires
            y == d * one,
            one > 0,
            d > 0,
    ;
    assert(2 * (e1 * y) <= one * y) by (nonlinear_arith)
        requires
            2 * e1 <= one,
            y > 0,
    ;
    assert(one * y == d * big) by (nonlinear_arith)
        requires
            y == d * one,
            big == one * one,
    ;
    assert(w == n * big) by (nonlinear_arith)
        requires
            w == n * one * one,
            big == one * one,
    ;
    assert(places * (p * e2) <= places * w) by (nonlinear_arith)
        requires
            p * e2 <= w,
            places > 0,
    ;
    assert(p * (places * e2) == places * (p * e2)) by (nonlinear_arith);
    assert(places * w == (places * n) * big) by (nonlinear_arith)
        requires
            w == n * big,
    ;
    assert(p * (e * big) <= p * (e1 * y + places * e2)) by (nonlinear_arith)
        requires
            e * big <= e1 * y + places * e2,
            p > 0,
    ;
    assert(p * (e1 * y + places * e2) == p * (e1 * y) + p * (places * e2)) by (nonlinear_arith);
    let r = e1 * y;
    let t = d * big;
    assert(p * r <= h * t) by (nonlinear_arith)
        requires
            2 * r <= t,
            p == 2 * h,
            h > 0,
    ;
    assert(h * t == (h * d) * big) by (nonlinear_arith)
        requires
            t == d * big,
    ;
    assert(p * (e * big) == (p * e) * big) by (nonlinear_arith);
    let left = p * e;
    let a = h * d;
    let b = places * n;
    assert(left <= a + b) by (nonlinear_arith)
        requires
            left * big <= a * big + b * big,
            big > 0,
    ;
}

proof fn lemma_errors(
    v: nat,
    d: nat,
    places: nat,
    n: nat,
    one: nat,
    q: nat,
    e1: int,
    e2: int,
    e: int,
)
    requires
        e1 == apart((v * one) as int, (q * places) as int),
        e2 == apart((q * (d * one)) as int, (n * one * one) as int),
        e == apart((v * d) as int, (places * n) as int),
    ensures
        e * (one * one) <= e1 * (d * one) + places * e2,
{
    let y = d * one;
    let big = one * one;
    let a = v * one - q * places;
    let b = q * y - n * one * one;
    let c = v * d - places * n;
    assert((v * one) * y == (v * d) * big) by (nonlinear_arith)
        requires
            y == d * one,
            big == one * one,
    ;
    assert((q * places) * y == places * (q * y)) by (nonlinear_arith);
    assert(places * (n * one * one) == (places * n) * big) by (nonlinear_arith)
        requires
            big == one * one,
    ;
    assert(a * y == (v * one) * y - (q * places) * y) by (nonlinear_arith)
        requires
            a == v * one - q * places,
    ;
    assert(places * b == places * (q * y) - places * (n * one * one)) by (nonlinear_arith)
        requires
            b == q * y - n * one * one,
    ;
    assert(c * big == (v * d) * big - (places * n) * big) by (nonlinear_arith)
        requires
            c == v * d - places * n,
    ;
    assert(c * big == a * y + places * b);
    assert(a * y <= e1 * y && -(a * y) <= e1 * y) by (nonlinear_arith)
        requires
            e1 >= a,
            e1 >= -a,
            y >= 0,
    ;
    assert(places * b <= places * e2 && -(places * b) <= places * e2) by (nonlinear_arith)
        requires
            e2 >= b,
            e2 >= -b,
            places >= 0,
    ;
    if c >= 0 {
        assert(e == c);
    } else {
        assert(e * big == -(c * big)) by (nonlinear_arith)
            requires
                e == -c,
        ;
    }
}

/// A duration below half a day is shown in the unit that fits: as it is below a
/// microsecond, to the nearest tenth of a microsecond or a millisecond, and to the nearest
/// hundredth of a second from one second on.
pub proof fn law_precise_durations_are_close(ns: nat) -> (v: nat)
    requires
        ns < 43_200_000_000_000,
    ensures
        ns == 0 ==> fmt_duration::precise_text(ns) == "0"@,
        0 < ns < 1_000 ==> fmt_duration::precise_text(ns) == text::decimal(ns) + "ns"@,
        1_000 <= ns < 1_000_000 ==> fmt_duration::precise_text(ns) == text::decimal(v / 10) + "."@
            + text::decimal(v % 10) + "µs"@ && apart((v * 100) as int, ns as int) <= 50,
        1_000_000 <= ns < 1_000_000_000 ==> fmt_duration::precise_text(ns) == text::decimal(v / 10)
            + "."@ + text::decimal(v % 10) + "ms"@ && apart((v * 100_000) as int, ns as int)
            <= 50_000,
        1_000_000_000 <= ns ==> fmt_duration::precise_text(ns) == text::decimal(v / 100) + "."@
            + text::decimal2(v % 100) + "s"@ && apart((v * 10_000_000) as int, ns as int)
            <= 5_000_000,
{
    assert(pow2(52) == 4_503_599_627_370_496) by {
        lemma2_to64_rest();
    }
    if 1_000 <= ns < 1_000_000 {
        law_shown_quotient_is_close(ns, 1_000, 10);
        binary64::fixed_point(binary64::int_quotient(ns, 1_000), 10)
    } else if 1_000_000 <= ns < 1_000_000_000 {
        law_shown_quotient_is_close(ns, 1_000_000, 10);
        binary64::fixed_point(binary64::int_quotient(ns, 1_000_000), 10)
    } else if 1_000_000_000 <= ns {
        law_shown_quotient_is_close(ns, 1_000_000_000, 100);
        binary64::fixed_point(binary64::int_quotient(ns, 1_000_000_000), 100)
    } else {
        0
    }
}

proof fn lemma_apart_scaled(x: nat, y: nat, c: nat)
    ensures
        apart((x * c) as int, (y * c) as int) == apart(x as int, y as int) * c,
{
    if x < y {
        assert(x * c <= y * c && (y - x) * c == y * c - x * c) by (nonlinear_arith)
            requires
                x < y,
        ;
    } else {
        assert(y * c <= x * c && (x - y) * c == x * c - y * c) by (nonlinear_arith)
            requires
                y <= x,
        ;
    }
}

/// Over a whole number of seconds, no double is nearer to the growth per second than the
/// rate.
pub proof fn law_rate_over_whole_seconds(growth: nat, secs: nat, m: nat, e: nat)
    requires
        growth < pow2(53),
        0 < secs < pow2(53),
        m < pow2(53),
    ensures
        apart(
            (binary64::per_second(growth, secs * 1_000_000_000) * secs) as int,
            (growth * binary64::one()) as int,
        ) <= apart((m * pow2(e) * secs) as int, (growth * binary64::one()) as int),
{
    let one = binary64::one();
    let nanos = secs * 1_000_000_000;
    lemma_pow2_pos(1074);
    lemma_pow2_pos(53);
    assert(nanos / 1_000_000_000 == secs && nanos % 1_000_000_000 == 0);
    law_small_numbers_are_doubles(growth);
    law_small_numbers_are_doubles(secs);
    assert(pow2(53) == 9_007_199_254_740_992) by {
        lemma2_to64_rest();
    }
    law_small_numbers_are_doubles(0);
    law_small_numbers_are_doubles(1_000_000_000);
    let billion = binary64::from_int(1_000_000_000);
    assert(binary64::from_int(0) == 0) by (nonlinear_arith)
        requires
            binary64::from_int(0) == 0 * one,
    ;
    assert(billion > 0) by (nonlinear_arith)
        requires
            billion == 1_000_000_000 * one,
            one > 0,
    ;
    assert(binary64::quotient(0, billion) == 0) by {
        assert(0 * one == 0) by (nonlinear_arith);
        assert(pow2(53) * billion > 0) by (nonlinear_arith)
            requires
                pow2(53) > 0,
                billion > 0,
        ;
        assert(0nat / billion == 0 && 0nat % billion == 0) by (nonlinear_arith)
            requires
                billion > 0,
        ;
    }
    let r = binary64::seconds(nanos);
    assert(r == binary64::nearest(secs * one, one));
    law_no_double_is_nearer(secs * one, one, secs, 1074);
    assert(r * one == secs * one * one);
    assert(r == secs * one) by (nonlinear_arith)
        requires
            r * one == secs * one * one,
            one > 0,
    ;
    let q = binary64::per_second(growth, nanos);
    let d = secs * one;
    assert(q == binary64::nearest(growth * one, d));
    assert(d > 0) by (nonlinear_arith)
        requires
            d == secs * one,
            secs > 0,
            one > 0,
    ;
    law_no_double_is_nearer(growth * one, d, m, e);
    assert(q * d == (q * secs) * one) by (nonlinear_arith)
        requires
            d == secs * one,
    ;
    let x = m * pow2(e);
    assert(x * d == (x * secs) * one) by (nonlinear_arith)
        requires
            d == secs * one,
    ;
    lemma_apart_scaled(q * secs, growth * one, one);
    lemma_apart_scaled(x * secs, growth * one, one);
    let a = apart((q * secs) as int, (growth * one) as int);
    let b = apart((x * secs) as int, (growth * one) as int);
    assert(a <= b) by (nonlinear_arith)
        requires
            a * one <= b * one,
            one > 0,
    ;
}

/// A rounded fraction is a double.
proof fn lemma_is_double(n: nat, d: nat) -> (r: (nat, nat))
    requires
        d > 0,
    ensures
        r.0 < pow2(53),
        binary64::nearest(n, d) == r.0 * pow2(r.1),
{
    let a = n * binary64::one();
    lemma_pow2_unfold(53);
    lemma2_to64();
    let (h, s) = if a < pow2(53) * d {
        (binary64::half_even(a, d), 0nat)
    } else {
        let s = lemma_spacing(n, d);
        (binary64::half_even(a, d * pow2(s)), s)
    };
    let u = d * pow2(s);
    lemma_pow2_pos(s);
    assert(u > 0) by (nonlinear_arith)
        requires
            u == d * pow2(s),
            d > 0,
            pow2(s) > 0,
    ;
    if a < pow2(53) * d {
        assert(u == d) by (nonlinear_arith)
            requires
                u == d * pow2(s),
                pow2(s) == 1,
        ;
    }
    assert(a < pow2(53) * u) by {
        if a >= pow2(53) * d {
            assert(pow2(53) * pow2(s) * d == pow2(53) * u) by (nonlinear_arith)
                requires
                    u == d * pow2(s),
            ;
        }
    }
    law_whole_numbers_are_nearest(a, u);
    assert(h <= pow2(53)) by (nonlinear_arith)
        requires
            2 * (h * u - a) <= u,
            a < pow2(53) * u,
            u > 0,
    ;
    assert(binary64::nearest(n, d) == h * pow2(s));
    if h < pow2(53) {
        (h, s)
    } else {
        lemma_pow2_unfold(s + 1);
        assert(h * pow2(s) == pow2(52) * pow2(s + 1)) by (nonlinear_arith)
            requires
                h == 2 * pow2(52),
                pow2(s + 1) == 2 * pow2(s),
        ;
        lemma_pow2_pos(52);
        (pow2(52), s + 1)
    }
}

/// The parts of a second are rounded once: no double is nearer to them.
proof fn lemma_parts(r: nat) -> (q: nat)
    requires
        r < 1_000_000_000,
    ensures
        q == binary64::quotient(binary64::from_int(r), binary64::from_int(1_000_000_000)),
        binary64::nearest(q, binary64::one()) == q,
        pow2(53) * apart((q * 1_000_000_000) as int, (r * binary64::one()) as int) <= r
            * binary64::one(),
{
    let one = binary64::one();
    lemma_pow2_pos(1074);
    assert(pow2(53) == 9_007_199_254_740_992 && pow2(30) == 1_073_741_824) by {
        lemma2_to64();
        lemma2_to64_rest();
    }
    law_small_numbers_are_doubles(r);
    law_small_numbers_are_doubles(1_000_000_000);
    let x = r * one;
    let y = 1_000_000_000 * one;
    let q = binary64::nearest(x, y);
    assert(y > 0) by (nonlinear_arith)
        requires
            y == 1_000_000_000 * one,
            one > 0,
    ;
    let (m, e) = lemma_is_double(x, y);
    law_no_double_is_nearer(q, one, m, e);
    assert(binary64::nearest(q, one) == q) by (nonlinear_arith)
        requires
            binary64::nearest(q, one) * one == q * one,
            one > 0,
    ;
    if r == 0 {
        assert(x == 0) by (nonlinear_arith)
            requires
                x == 0 * one,
        ;
        assert(x * one == 0) by (nonlinear_arith)
            requires
                x == 0,
        ;
        assert(pow2(53) * y > 0) by (nonlinear_arith)
            requires
                pow2(53) > 0,
                y > 0,
        ;
        assert(0nat / y == 0 && 0nat % y == 0) by (nonlinear_arith)
            requires
                y > 0,
        ;
        assert(q == 0);
    } else {
        lemma_pow2_adds(53, 30);
        lemma_pow2_strictly_increases(83, 1074);
        assert(x * one >= pow2(53) * y) by (nonlinear_arith)
            requires
                x == r * one,
                r >= 1,
                y == 1_000_000_000 * one,
                one >= pow2(53) * pow2(30),
                pow2(30) == 1_073_741_824,
                pow2(53) > 0,
        ;
        lemma_relative(x, y);
        assert(q * y == (q * 1_000_000_000) * one) by (nonlinear_arith)
            requires
                y == 1_000_000_000 * one,
        ;
        lemma_apart_scaled(q * 1_000_000_000, x, one);
        let off = apart((q * 1_000_000_000) as int, x as int);
        let p = pow2(53);
        assert(p * off <= x) by (nonlinear_arith)
            requires
                p * (off * one) <= x * one,
                one > 0,
        ;
    }
    q
}

/// A span in seconds is right to fifty-one bits.
pub proof fn law_seconds_are_close(nanos: nat)
    requires
        nanos / 1_000_000_000 < pow2(53),
    ensures
        pow2(51) * apart(
            (binary64::seconds(nanos) * 1_000_000_000) as int,
            (nanos * binary64::one()) as int,
        ) <= nanos * binary64::one(),
{
    let one = binary64::one();
    let k = nanos / 1_000_000_000;
    let r = nanos % 1_000_000_000;
    let b = 1_000_000_000nat;
    let q = lemma_parts(r);
    law_small_numbers_are_doubles(k);
    let x = k * one + q;
    let s = binary64::nearest(x, one);
    assert(s == binary64::seconds(nanos));
    lemma_pow2_unfold(53);
    lemma_pow2_unfold(52);
    lemma_pow2_pos(51);
    lemma_pow2_pos(1074);
    lemma_pow2_strictly_increases(53, 1074);
    let e1 = apart(s as int, x as int);
    let e2 = apart((q * b) as int, (r * one) as int);
    let e = apart((s * b) as int, (nanos * one) as int);
    assert(nanos * one == (k * one) * b + r * one) by (nonlinear_arith)
        requires
            nanos == k * b + r,
    ;
    assert(x * b == (k * one) * b + q * b) by (nonlinear_arith)
        requires
            x == k * one + q,
    ;
    if k == 0 {
        assert(k * one == 0) by (nonlinear_arith)
            requires
                k == 0,
        ;
        assert(x == q);
        assert(s == q);
        assert(pow2(51) * e <= nanos * one) by (nonlinear_arith)
            requires
                pow2(53) * e <= r * one,
                r * one == nanos * one,
                pow2(53) == 4 * pow2(51),
                e >= 0,
                pow2(51) >= 0,
        ;
    } else {
        assert(k * one >= one) by (nonlinear_arith)
            requires
                k >= 1,
        ;
        assert(x * one >= pow2(53) * one) by (nonlinear_arith)
            requires
                x >= one,
                one >= pow2(53),
        ;
        lemma_relative(x, one);
        lemma_apart_scaled(s, x, one);
        let p = pow2(53);
        assert(p * e1 <= x) by (nonlinear_arith)
            requires
                p * (e1 * one) <= x * one,
                one > 0,
        ;
        lemma_apart_scaled(s, x, b);
        assert(e <= e1 * b + e2);
        let z = nanos * one;
        let w = r * one;
        assert(w <= z) by (nonlinear_arith)
            requires
                w == r * one,
                z == nanos * one,
                r <= nanos,
        ;
        assert(x * b <= z + e2);
        assert(p * (e1 * b) <= x * b) by (nonlinear_arith)
            requires
                p * e1 <= x,
        ;
        let h = pow2(51);
        let f = e1 * b;
        assert(p * e <= p * (f + e2)) by (nonlinear_arith)
            requires
                e <= f + e2,
                p > 0,
        ;
        assert(p * (f + e2) == p * f + p * e2) by (nonlinear_arith);
        assert(e2 <= w) by (nonlinear_arith)
            requires
                p * e2 <= w,
                p >= 1,
                e2 >= 0,
        ;
        assert(p * e <= 4 * z);
        assert(p * e == 4 * (h * e)) by (nonlinear_arith)
            requires
                p == 4 * h,
        ;
    }
}

/// No double is nearer to the growth over the span in seconds than the rate.
pub proof fn law_no_rate_is_nearer(growth: nat, nanos: nat, m: nat, e: nat)
    requires
        growth < pow2(53),
        binary64::seconds(nanos) > 0,
        m < pow2(53),
    ensures
        ({
            let secs = binary64::seconds(nanos);
            let one = binary64::one();
            apart(
                (binary64::per_second(growth, nanos) * secs) as int,
                (growth * one * one) as int,
            ) <= apart((m * pow2(e) * secs) as int, (growth * one * one) as int)
        }),
{
    law_small_numbers_are_doubles(growth);
    law_no_double_is_nearer(growth * binary64::one(), binary64::seconds(nanos), m, e);
}

/// The bits of a normal double say what it is: the upper ones, less one, how often it is
/// doubled, and the lower fifty-two the rest of its significand. All bits of zero are zero.
pub proof fn law_bits_say_the_double(m: nat, s: nat)
    requires
        pow2(52) <= m < pow2(53),
        s * pow2(52) + m <= u64::MAX,
    ensures
        binary64::bits_of(0) == 0,
        ({
            let x = m * pow2(s);
            let bits = binary64::bits_of(x) as nat;
            &&& bits / pow2(52) >= 1
            &&& (pow2(52) + bits % pow2(52)) * pow2((bits / pow2(52) - 1) as nat) == x
        }),
{
    lemma_pow2_pos(s);
    lemma_pow2_pos(52);
    lemma_pow2_unfold(53);
    let x = m * pow2(s);
    assert(x > 0) by (nonlinear_arith)
        requires
            x == m * pow2(s),
            m > 0,
            pow2(s) > 0,
    ;
    assert(s * pow2(52) >= 0) by (nonlinear_arith)
        requires
            s >= 0,
            pow2(52) > 0,
    ;
    let some = (s * pow2(52) + m) as u64;
    assert(binary64::is_bit_pattern(x, some));
    assert(binary64::is_bit_pattern(0, 0));
    let bits = binary64::bits_of(x);
    assert(binary64::is_bit_pattern(x, bits));
    let (mant, scale) = choose|mant: nat, scale: nat|
        #![trigger mant * pow2(scale)]
        {
            &&& pow2(52) <= mant < pow2(53)
            &&& x == mant * pow2(scale)
            &&& bits == scale * pow2(52) + mant
        };
    let h = pow2(52);
    let f = (mant - h) as nat;
    assert(bits == (scale + 1) * h + f) by (nonlinear_arith)
        requires
            bits == scale * h + mant,
            f == mant - h,
    ;
    lemma_fundamental_div_mod_converse(bits as int, h as int, (scale + 1) as int, f as int);
}

} // verus!
