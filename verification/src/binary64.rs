//! Double-precision (IEEE 754 binary64) arithmetic on non-negative numbers, carried
//! out with integers.
//!
//! Every finite double is a whole number of units of 2^-1074, the smallest positive
//! double. A double is specified by that number of units; the operations here round
//! to the nearest double, and to the one with the even significand when two are
//! equally near.

use vstd::arithmetic::div_mod::*;
use vstd::arithmetic::mul::*;
use vstd::arithmetic::power2::*;
use vstd::prelude::*;

use crate::time::{Duration, NANOS_PER_SEC};

verus! {

/// 2^52: the smallest significand of a normal double.
pub const MIN_SIGNIFICAND: u64 = 4_503_599_627_370_496;

/// 2^53: one past the largest significand.
pub const SIGNIFICAND_LIMIT: u64 = 9_007_199_254_740_992;

/// `n / d` rounded to a whole number, ties going to the even one.
pub open spec fn half_even(n: nat, d: nat) -> nat {
    let q = n / d;
    let twice = 2 * (n % d);
    if twice < d || (twice == d && q % 2 == 0) {
        q
    } else {
        q + 1
    }
}

/// The number of units in 1.0.
pub open spec fn one() -> nat {
    pow2(1074)
}

/// Whether `a / d` units lie where doubles are spaced `2^s` units apart.
pub open spec fn spaced(a: nat, d: nat, s: nat) -> bool {
    pow2(52) * pow2(s) * d <= a < pow2(53) * pow2(s) * d
}

/// The double nearest to the number `n / d`, in units.
pub open spec fn nearest(n: nat, d: nat) -> nat {
    let a = n * one();
    if a < pow2(53) * d {
        half_even(a, d)
    } else {
        let s = choose|s: nat| spaced(a, d, s);
        half_even(a, d * pow2(s)) * pow2(s)
    }
}

/// The double nearest to the whole number `n`.
pub open spec fn from_int(n: nat) -> nat {
    nearest(n, 1)
}

/// The quotient of two doubles, rounded to a double.
pub open spec fn quotient(x: nat, y: nat) -> nat {
    nearest(x, y)
}

/// The sum of two doubles, rounded to a double.
pub open spec fn sum(x: nat, y: nat) -> nat {
    nearest(x + y, one())
}

/// The double `x` as a whole number of `1 / places`: 10 places keep one digit after
/// the decimal point, 100 keep two.
pub open spec fn fixed_point(x: nat, places: nat) -> nat {
    half_even(x * places, one())
}

/// Whether `bits` is the bit pattern of the double of `x` units, for zero and for the
/// normal doubles: the exponent field counts the doublings of the significand.
pub open spec fn is_bit_pattern(x: nat, bits: u64) -> bool {
    if x == 0 {
        bits == 0
    } else {
        exists|mant: nat, scale: nat|
            #![trigger mant * pow2(scale)]
            {
                &&& pow2(52) <= mant < pow2(53)
                &&& x == mant * pow2(scale)
                &&& bits == scale * pow2(52) + mant
            }
    }
}

/// The bit pattern of the double of `x` units.
pub open spec fn bits_of(x: nat) -> u64 {
    choose|bits: u64| is_bit_pattern(x, bits)
}

/// A span of `nanos` nanoseconds as a double count of seconds: its whole seconds plus
/// the rest divided by a thousand million, each step rounded.
pub open spec fn seconds(nanos: nat) -> nat {
    sum(
        from_int(nanos / NANOS_PER_SEC as nat),
        quotient(from_int(nanos % NANOS_PER_SEC as nat), from_int(NANOS_PER_SEC as nat)),
    )
}

/// The double of `delta` divided by the seconds in `nanos` nanoseconds.
pub open spec fn per_second(delta: nat, nanos: nat) -> nat {
    quotient(from_int(delta), seconds(nanos))
}

/// The double of `n` divided by the double of `d`.
pub open spec fn int_quotient(n: nat, d: nat) -> nat {
    quotient(from_int(n), from_int(d))
}

proof fn lemma_powers()
    ensures
        pow2(0) == 1,
        pow2(52) == MIN_SIGNIFICAND,
        pow2(53) == SIGNIFICAND_LIMIT,
        pow2(54) == 2 * SIGNIFICAND_LIMIT,
        pow2(64) == 0x1_0000_0000_0000_0000,
        pow2(1) == 2,
{
    lemma2_to64();
    lemma2_to64_rest();
}

proof fn lemma_half_even_scaled(n: nat, d: nat, c: nat)
    requires
        d > 0,
        c > 0,
    ensures
        half_even(n * c, d * c) == half_even(n, d),
{
    let q = n / d;
    let r = n % d;
    lemma_fundamental_div_mod(n as int, d as int);
    assert(n * c == q * (d * c) + r * c) by (nonlinear_arith)
        requires
            n == d * q + r,
    ;
    assert(r * c < d * c) by (nonlinear_arith)
        requires
            r < d,
            c > 0,
    ;
    lemma_fundamental_div_mod_converse(
        (n * c) as int,
        (d * c) as int,
        q as int,
        (r * c) as int,
    );
    assert(2 * (r * c) < d * c <==> 2 * r < d) by (nonlinear_arith)
        requires
            c > 0,
    ;
    assert(2 * (r * c) == d * c <==> 2 * r == d) by (nonlinear_arith)
        requires
            c > 0,
    ;
}

/// Equal fractions round alike.
proof fn lemma_half_even_equal(a: nat, b: nat, p: nat, q: nat)
    requires
        b > 0,
        q > 0,
        a * q == p * b,
    ensures
        half_even(a, b) == half_even(p, q),
{
    lemma_half_even_scaled(a, b, q);
    lemma_half_even_scaled(p, q, b);
    assert(b * q == q * b) by (nonlinear_arith);
}

proof fn lemma_spacing_at_least(a: nat, d: nat, s: nat, t: nat)
    requires
        d > 0,
        spaced(a, d, s),
        spaced(a, d, t),
    ensures
        t <= s,
{
    if s < t {
        lemma_powers();
        lemma_pow2_adds(52, t);
        lemma_pow2_adds(53, s);
        if 53 + s < 52 + t {
            lemma_pow2_strictly_increases(53 + s, 52 + t);
        }
        assert(pow2(53) * pow2(s) * d <= pow2(52) * pow2(t) * d) by (nonlinear_arith)
            requires
                pow2(53) * pow2(s) == pow2(53 + s),
                pow2(52) * pow2(t) == pow2(52 + t),
                pow2(53 + s) <= pow2(52 + t),
        ;
    }
}

proof fn lemma_nearest_at(n: nat, d: nat, s: nat)
    requires
        d > 0,
        spaced(n * one(), d, s),
    ensures
        nearest(n, d) == half_even(n * one(), d * pow2(s)) * pow2(s),
{
    let a = n * one();
    lemma_powers();
    lemma_pow2_pos(s);
    if s == 0 {
        assert(a < pow2(53) * d) by (nonlinear_arith)
            requires
                a < pow2(53) * pow2(0) * d,
                pow2(0) == 1,
        ;
    } else {
        lemma_pow2_unfold(s);
        let h = pow2((s - 1) as nat);
        lemma_pow2_pos((s - 1) as nat);
        assert(a >= pow2(53) * d) by (nonlinear_arith)
            requires
                a >= pow2(52) * pow2(s) * d,
                pow2(53) == 2 * pow2(52),
                pow2(s) == 2 * h,
                h >= 1,
        ;
        let t = choose|t: nat| spaced(a, d, t);
        lemma_spacing_at_least(a, d, s, t);
        lemma_spacing_at_least(a, d, t, s);
    }
}

/// If `n / d` is `p / q` times `2^s` units and `p / q` has the size of a significand,
/// the nearest double is `p / q` rounded to a whole number, times `2^s` units.
proof fn lemma_nearest_as(n: nat, d: nat, p: nat, q: nat, s: nat)
    requires
        d > 0,
        q > 0,
        n * one() * q == p * (d * pow2(s)),
        pow2(52) * q <= p < pow2(53) * q,
    ensures
        nearest(n, d) == half_even(p, q) * pow2(s),
{
    let a = n * one();
    let b = d * pow2(s);
    lemma_pow2_pos(s);
    assert(b > 0) by (nonlinear_arith)
        requires
            b == d * pow2(s),
            d > 0,
            pow2(s) > 0,
    ;
    assert(pow2(52) * b <= a) by (nonlinear_arith)
        requires
            a * q == p * b,
            pow2(52) * q <= p,
            q > 0,
            b > 0,
    ;
    assert(a < pow2(53) * b) by (nonlinear_arith)
        requires
            a * q == p * b,
            p < pow2(53) * q,
            q > 0,
            b > 0,
    ;
    assert(pow2(52) * pow2(s) * d == pow2(52) * b) by (nonlinear_arith)
        requires
            b == d * pow2(s),
    ;
    assert(pow2(53) * pow2(s) * d == pow2(53) * b) by (nonlinear_arith)
        requires
            b == d * pow2(s),
    ;
    lemma_nearest_at(n, d, s);
    lemma_half_even_equal(a, b, p, q);
}

/// Rounding a number of the size of a significand.
proof fn lemma_half_even_significand(p: nat, q: nat)
    requires
        q > 0,
        pow2(52) * q <= p < pow2(53) * q,
    ensures
        pow2(52) <= half_even(p, q) <= pow2(53),
{
    let w = p / q;
    lemma_fundamental_div_mod(p as int, q as int);
    assert(pow2(52) <= w) by (nonlinear_arith)
        requires
            pow2(52) * q <= p,
            p == q * w + p % q,
            p % q < q,
            q > 0,
    ;
    assert(w < pow2(53)) by (nonlinear_arith)
        requires
            p < pow2(53) * q,
            p == q * w + p % q,
            0 <= p % q,
            q > 0,
    ;
}

/// A non-negative double: `mant` times `2^scale` units. Its view is that number of
/// units.
#[derive(Copy, Clone, Debug, PartialEq, Eq)]
pub struct Binary64 {
    mant: u64,
    scale: u32,
}

impl View for Binary64 {
    type V = nat;

    closed spec fn view(&self) -> nat {
        self.mant as nat * pow2(self.scale as nat)
    }
}

/// `n / d` rounded to a whole number, ties going to the even one.
fn round_half_even(n: u128, d: u128) -> (q: u128)
    requires
        0 < d <= 0x4000_0000_0000_0000_0000_0000_0000_0000,
        n < 0x8000_0000_0000_0000_0000_0000_0000_0000,
    ensures
        q == half_even(n as nat, d as nat),
{
    let q: u128 = n / d;
    let r: u128 = n % d;
    assert(q <= n) by (nonlinear_arith)
        requires
            q == n / d,
            d > 0,
            n >= 0,
    ;
    if 2 * r < d || (2 * r == d && q % 2 == 0) {
        q
    } else {
        q + 1
    }
}

/// Rounds `n` to a significand: the result is `q` and the power of two `j` that `q`
/// counts.
fn round_to_significand(n: u128) -> (r: (u128, u32))
    requires
        MIN_SIGNIFICAND <= n < 0x4000_0000_0000_0000_0000_0000_0000_0000,
    ensures
        pow2(52) * pow2(r.1 as nat) <= n < pow2(53) * pow2(r.1 as nat),
        r.0 == half_even(n as nat, pow2(r.1 as nat)),
        MIN_SIGNIFICAND <= r.0 <= SIGNIFICAND_LIMIT,
        r.1 <= 73,
{
    let mut j: u32 = 0;
    let mut p: u128 = 1;
    proof {
        lemma_powers();
    }
    while n >= p * 9_007_199_254_740_992
        invariant
            p == pow2(j as nat),
            j <= 73,
            p <= 0x200_0000_0000_0000_0000,
            p * MIN_SIGNIFICAND <= n,
            n < 0x4000_0000_0000_0000_0000_0000_0000_0000,
        decreases 73 - j,
    {
        proof {
            lemma_pow2_73();
            lemma_pow2_unfold((j + 1) as nat);
            if j + 1 < 73 {
                lemma_pow2_strictly_increases((j + 1) as nat, 73);
            }
        }
        p = p * 2;
        j = j + 1;
    }
    proof {
        lemma_powers();
        lemma_pow2_pos(j as nat);
        lemma_half_even_significand(n as nat, pow2(j as nat));
    }
    (round_half_even(n, p), j)
}

proof fn lemma_pow2_73()
    ensures
        pow2(73) == 0x200_0000_0000_0000_0000,
{
    lemma2_to64();
    lemma_pow2_adds(64, 9);
}

proof fn lemma_pow2_114()
    ensures
        pow2(114) == 0x4_0000_0000_0000_0000_0000_0000_0000,
{
    lemma2_to64();
    lemma2_to64_rest();
    lemma_pow2_adds(64, 50);
}

impl Binary64 {
    /// Normal, and between `2^-margin` and `2^(margin + 53)`.
    spec fn within(self, margin: nat) -> bool {
        &&& MIN_SIGNIFICAND <= self.mant < SIGNIFICAND_LIMIT
        &&& 1022 - margin <= self.scale <= 1074 + margin
    }

    spec fn is_zero(self) -> bool {
        self.mant == 0 && self.scale == 0
    }

    /// `q` times `2^scale` units, where `q` may have just outgrown the significand.
    fn from_rounded(q: u128, scale: u32) -> (x: Binary64)
        requires
            MIN_SIGNIFICAND <= q <= SIGNIFICAND_LIMIT,
            scale < 2040,
        ensures
            x@ == q * pow2(scale as nat),
            MIN_SIGNIFICAND <= x.mant < SIGNIFICAND_LIMIT,
            scale <= x.scale <= scale + 1,
            q < SIGNIFICAND_LIMIT ==> x.scale == scale,
    {
        if q == SIGNIFICAND_LIMIT as u128 {
            proof {
                lemma_pow2_unfold((scale + 1) as nat);
                lemma_powers();
                assert(MIN_SIGNIFICAND * pow2((scale + 1) as nat) == q * pow2(scale as nat))
                    by (nonlinear_arith)
                    requires
                        pow2((scale + 1) as nat) == 2 * pow2(scale as nat),
                        q == 2 * MIN_SIGNIFICAND,
                ;
            }
            Binary64 { mant: MIN_SIGNIFICAND, scale: scale + 1 }
        } else {
            Binary64 { mant: q as u64, scale }
        }
    }

    /// The double nearest to `n`.
    fn from_int(n: u128) -> (x: Binary64)
        requires
            n < 0x4000_0000_0000_0000_0000_0000_0000_0000,
        ensures
            x@ == from_int(n as nat),
            n == 0 ==> x.is_zero(),
            n > 0 ==> x.within(74) && x.scale >= 1022,
            0 < n < SIGNIFICAND_LIMIT ==> x.within(0),
            0 < n < 0x1_0000_0000_0000_0000 ==> x.within(12),
            0 < n < 0x1_0000_0000_0000_0000_0000_0000 ==> x.within(44),
    {
        proof {
            lemma_powers();
        }
        if n == 0 {
            proof {
                assert(0 * one() == 0) by (nonlinear_arith);
                assert(0 < pow2(53) * 1);
                assert(half_even(0, 1) == 0);
                assert(0 * pow2(0) == 0);
            }
            return Binary64 { mant: 0, scale: 0 };
        }
        if n < MIN_SIGNIFICAND as u128 {
            let mut m: u128 = n;
            let mut k: u32 = 0;
            while m < MIN_SIGNIFICAND as u128
                invariant
                    1 <= n,
                    k <= 52,
                    m == n * pow2(k as nat),
                    m < SIGNIFICAND_LIMIT,
                    pow2(52) == MIN_SIGNIFICAND,
                decreases 52 - k,
            {
                proof {
                    if k == 52 {
                        assert(m >= pow2(52)) by (nonlinear_arith)
                            requires
                                m == n * pow2(52),
                                n >= 1,
                                pow2(52) > 0,
                        ;
                    }
                    lemma_pow2_unfold((k + 1) as nat);
                    assert(m * 2 == n * pow2((k + 1) as nat)) by (nonlinear_arith)
                        requires
                            m == n * pow2(k as nat),
                            pow2((k + 1) as nat) == 2 * pow2(k as nat),
                    ;
                }
                m = m * 2;
                k = k + 1;
            }
            proof {
                let s = (1074 - k) as nat;
                lemma_pow2_adds(k as nat, s);
                assert(n * one() * 1 == m * (1 * pow2(s))) by (nonlinear_arith)
                    requires
                        one() == pow2(k as nat) * pow2(s),
                        m == n * pow2(k as nat),
                ;
                lemma_nearest_as(n as nat, 1, m as nat, 1, s);
                assert(half_even(m as nat, 1) == m);
            }
            Binary64 { mant: m as u64, scale: 1074 - k }
        } else {
            let (q, j) = round_to_significand(n);
            proof {
                let s = 1074 + j as nat;
                lemma_pow2_adds(1074, j as nat);
                lemma_pow2_pos(j as nat);
                assert(n * one() * pow2(j as nat) == n * (1 * pow2(s))) by (nonlinear_arith)
                    requires
                        pow2(s) == one() * pow2(j as nat),
                ;
                lemma_nearest_as(n as nat, 1, n as nat, pow2(j as nat), s);
                if n < SIGNIFICAND_LIMIT {
                    if j > 0 {
                        lemma_pow2_unfold(j as nat);
                        lemma_pow2_pos((j - 1) as nat);
                        assert(pow2(52) * pow2(j as nat) >= pow2(53)) by (nonlinear_arith)
                            requires
                                pow2(j as nat) >= 2,
                                pow2(53) == 2 * pow2(52),
                        ;
                    }
                    assert(half_even(n as nat, 1) == n);
                }
                if n < 0x1_0000_0000_0000_0000_0000_0000 && j > 43 {
                    lemma2_to64();
                    lemma_pow2_adds(64, 32);
                    lemma_pow2_adds(52, j as nat);
                    if 52 + j > 96 {
                        lemma_pow2_strictly_increases(96, (52 + j) as nat);
                    }
                }
                if n < 0x1_0000_0000_0000_0000 {
                    if j > 11 {
                        lemma_pow2_adds(52, j as nat);
                        if 52 + j > 64 {
                            lemma_pow2_strictly_increases(64, (52 + j) as nat);
                        }
                    }
                }
            }
            Self::from_rounded(q, 1074 + j)
        }
    }

    /// The quotient of two doubles.
    fn divided_by(self, y: Binary64) -> (x: Binary64)
        requires
            self.is_zero() || self.within(100),
            y.within(100),
        ensures
            x@ == quotient(self@, y@),
            self.is_zero() ==> x.is_zero(),
            !self.is_zero() ==> x.within(400),
            !self.is_zero() ==> 1074 + self.scale - y.scale - 53 <= x.scale <= 1074 + self.scale
                - y.scale - 51,
    {
        proof {
            lemma_powers();
            lemma_pow2_pos(y.scale as nat);
            assert(y@ > 0) by (nonlinear_arith)
                requires
                    y@ == y.mant as nat * pow2(y.scale as nat),
                    y.mant > 0,
                    pow2(y.scale as nat) > 0,
            ;
        }
        if self.mant == 0 {
            proof {
                assert(0 * pow2(0) == 0);
                assert(self@ * one() == 0) by (nonlinear_arith)
                    requires
                        self@ == 0,
                ;
                assert(pow2(53) * y@ > 0) by (nonlinear_arith)
                    requires
                        y@ > 0,
                        pow2(53) > 0,
                ;
                lemma_small_mod(0, y@);
                lemma_div_of0(y@ as int);
            }
            return Binary64 { mant: 0, scale: 0 };
        }
        let t: u32 = if self.mant >= y.mant { 52 } else { 53 };
        let n: u128 = if self.mant >= y.mant {
            self.mant as u128 * 4_503_599_627_370_496
        } else {
            self.mant as u128 * 9_007_199_254_740_992
        };
        let d: u128 = y.mant as u128;
        let scale: u32 = 1074 + self.scale - y.scale - t;
        proof {
            let s = scale as nat;
            assert(pow2(52) * d <= n < pow2(53) * d);
            lemma_half_even_significand(n as nat, d as nat);
            lemma_pow2_adds(t as nat, y.scale as nat);
            lemma_pow2_adds((t + y.scale) as nat, s);
            lemma_pow2_adds(self.scale as nat, 1074);
            let m = self.mant as nat;
            let (ps, pt, py, pz) = (
                pow2(self.scale as nat),
                pow2(t as nat),
                pow2(y.scale as nat),
                pow2(s),
            );
            assert(self@ * one() * d == n * (y@ * pz)) by (nonlinear_arith)
                requires
                    self@ == m * ps,
                    y@ == d * py,
                    n == m * pt,
                    ps * one() == pt * py * pz,
            ;
            lemma_nearest_as(self@, y@, n as nat, d as nat, s);
        }
        Self::from_rounded(round_half_even(n, d), scale)
    }

    /// The sum of two doubles of which at most one is zero.
    fn added_to(self, other: Binary64) -> (x: Binary64)
        requires
            self.is_zero() || self.within(100),
            other.is_zero() || other.within(100),
            !self.is_zero() || !other.is_zero(),
        ensures
            x@ == sum(self@, other@),
            MIN_SIGNIFICAND <= x.mant < SIGNIFICAND_LIMIT,
            self.scale <= x.scale,
            other.scale <= x.scale,
            x.scale <= self.scale + 2 || x.scale <= other.scale + 2,
    {
        proof {
            lemma_powers();
            lemma_pow2_pos(1074);
        }
        if self.mant == 0 {
            proof {
                assert(0 * pow2(0) == 0);
                other.lemma_representable();
            }
            return other;
        }
        if other.mant == 0 {
            proof {
                assert(0 * pow2(0) == 0);
                self.lemma_representable();
            }
            return self;
        }
        let (hi, lo): (Binary64, Binary64) = if self.scale >= other.scale {
            (self, other)
        } else {
            (other, self)
        };
        let k: u32 = hi.scale - lo.scale;
        let ghost pk = pow2(k as nat);
        let ghost pl = pow2(lo.scale as nat);
        let ghost total = (hi.mant as nat * pk + lo.mant as nat) as nat;
        proof {
            lemma_pow2_adds(lo.scale as nat, k as nat);
            assert(self@ + other@ == total * pl) by (nonlinear_arith)
                requires
                    self@ + other@ == hi.mant as nat * pow2(hi.scale as nat) + lo.mant as nat * pl,
                    pow2(hi.scale as nat) == pl * pk,
                    total == hi.mant as nat * pk + lo.mant as nat,
            ;
            lemma_pow2_pos(k as nat);
        }
        if k > 64 {
            proof {
                lemma_pow2_strictly_increases(64, k as nat);
                lemma_fundamental_div_mod_converse(
                    total as int,
                    pk as int,
                    hi.mant as int,
                    lo.mant as int,
                );
                assert(total >= pow2(52) * pk && total < pow2(53) * pk) by (nonlinear_arith)
                    requires
                        total == hi.mant as nat * pk + lo.mant as nat,
                        pow2(52) <= hi.mant,
                        hi.mant + 1 <= pow2(53),
                        lo.mant < pk,
                ;
                assert((self@ + other@) * one() * pk == total * (one() * pow2(hi.scale as nat)))
                    by (nonlinear_arith)
                    requires
                        self@ + other@ == total * pl,
                        pow2(hi.scale as nat) == pl * pk,
                ;
                lemma_nearest_as(self@ + other@, one(), total, pk, hi.scale as nat);
            }
            return hi;
        }
        let p: u128 = power_of_two(k);
        proof {
            if k < 64 {
                lemma_pow2_strictly_increases(k as nat, 64);
            }
            assert(hi.mant * p <= 0x1f_ffff_ffff_ffff * 0x1_0000_0000_0000_0000) by (nonlinear_arith)
                requires
                    hi.mant <= 0x1f_ffff_ffff_ffff,
                    p <= 0x1_0000_0000_0000_0000,
            ;
            assert(hi.mant * p >= hi.mant) by (nonlinear_arith)
                requires
                    p >= 1,
            ;
        }
        let n: u128 = hi.mant as u128 * p + lo.mant as u128;
        let (q, j) = round_to_significand(n);
        proof {
            let pj = pow2(j as nat);
            let s = (lo.scale + j) as nat;
            lemma_pow2_adds(lo.scale as nat, j as nat);
            lemma_pow2_pos(j as nat);
            assert((self@ + other@) * one() * pj == total * (one() * pow2(s))) by (nonlinear_arith)
                requires
                    self@ + other@ == total * pl,
                    pow2(s) == pl * pj,
            ;
            lemma_nearest_as(self@ + other@, one(), total, pj, s);
            // The sum is at least the larger summand and less than twice its double.
            if j < k {
                lemma_pow2_unfold((j + 1) as nat);
                if j + 1 < k {
                    lemma_pow2_strictly_increases((j + 1) as nat, k as nat);
                }
                assert(n >= pow2(53) * pj) by (nonlinear_arith)
                    requires
                        n >= hi.mant as nat * pk,
                        hi.mant >= pow2(52),
                        pk >= 2 * pj,
                        pow2(53) == 2 * pow2(52),
                ;
            }
            if j > k + 1 {
                lemma_pow2_unfold((k + 1) as nat);
                lemma_pow2_unfold((k + 2) as nat);
                if k + 2 < j {
                    lemma_pow2_strictly_increases((k + 2) as nat, j as nat);
                }
                assert(n < pow2(52) * pj) by (nonlinear_arith)
                    requires
                        n == hi.mant as nat * pk + lo.mant as nat,
                        hi.mant < pow2(53),
                        lo.mant < pow2(53),
                        pk >= 1,
                        pj >= 4 * pk,
                        pow2(53) == 2 * pow2(52),
                ;
            }
        }
        Self::from_rounded(q, lo.scale + j)
    }

    /// A normal double is its own nearest double.
    proof fn lemma_representable(self)
        requires
            MIN_SIGNIFICAND <= self.mant < SIGNIFICAND_LIMIT,
        ensures
            nearest(self@, one()) == self@,
    {
        lemma_powers();
        lemma_pow2_pos(1074);
        let m = self.mant as nat;
        let ps = pow2(self.scale as nat);
        assert(self@ * one() * 1 == m * (one() * ps)) by (nonlinear_arith)
            requires
                self@ == m * ps,
        ;
        lemma_nearest_as(self@, one(), m, 1, self.scale as nat);
        assert(half_even(m, 1) == m);
    }

    /// The bit pattern of a double.
    fn to_bits(self) -> (bits: u64)
        requires
            self.is_zero() || self.within(900),
        ensures
            bits == bits_of(self@),
    {
        proof {
            lemma_powers();
            lemma_pow2_pos(self.scale as nat);
            assert(0 * pow2(0) == 0);
        }
        if self.mant == 0 {
            proof {
                assert(is_bit_pattern(0, 0));
            }
            return 0;
        }
        let bits: u64 = self.scale as u64 * 4_503_599_627_370_496 + self.mant;
        proof {
            let m = self.mant as nat;
            let s = self.scale as nat;
            assert(m * pow2(s) > 0) by (nonlinear_arith)
                requires
                    m > 0,
                    pow2(s) > 0,
            ;
            assert(is_bit_pattern(self@, bits)) by {
                assert(self@ == m * pow2(s));
            }
            lemma_bit_pattern_unique(self@, bits, bits_of(self@));
        }
        bits
    }

    /// A double as a whole number of `1 / places`, rounded.
    fn to_fixed_point(self, places: u64) -> (v: u128)
        requires
            MIN_SIGNIFICAND <= self.mant < SIGNIFICAND_LIMIT,
            960 <= self.scale <= 1134,
            1 <= places <= 100,
        ensures
            v == fixed_point(self@, places as nat),
    {
        proof {
            lemma_powers();
            lemma_pow2_pos(1074);
            assert(self.mant * places <= 0x20_0000_0000_0000 * 100) by (nonlinear_arith)
                requires
                    self.mant <= 0x20_0000_0000_0000,
                    places <= 100,
            ;
        }
        let c: u128 = self.mant as u128 * places as u128;
        let ghost ps = pow2(self.scale as nat);
        if self.scale >= 1074 {
            let k: u32 = self.scale - 1074;
            let p: u128 = power_of_two(k);
            proof {
                if k < 60 {
                    lemma_pow2_strictly_increases(k as nat, 60);
                }
                lemma2_to64_rest();
                assert(c * p <= 0x20_0000_0000_0000 * 100 * 0x1000_0000_0000_0000) by (nonlinear_arith)
                    requires
                        c <= 0x20_0000_0000_0000 * 100,
                        p <= 0x1000_0000_0000_0000,
                ;
                lemma_pow2_adds(1074, k as nat);
                assert(self@ * places as nat * 1 == (c * p) as nat * one()) by (nonlinear_arith)
                    requires
                        self@ == self.mant as nat * ps,
                        ps == one() * p as nat,
                        c == self.mant * places,
                ;
                lemma_half_even_equal(self@ * places as nat, one(), (c * p) as nat, 1);
                assert(half_even((c * p) as nat, 1) == c * p);
            }
            c * p
        } else {
            let k: u32 = 1074 - self.scale;
            let p: u128 = power_of_two(k);
            proof {
                if k < 114 {
                    lemma_pow2_strictly_increases(k as nat, 114);
                }
                lemma_pow2_114();
                lemma_pow2_pos(k as nat);
                lemma_pow2_adds(self.scale as nat, k as nat);
                assert(self@ * places as nat * p as nat == c as nat * one()) by (nonlinear_arith)
                    requires
                        self@ == self.mant as nat * ps,
                        one() == ps * p as nat,
                        c == self.mant * places,
                ;
                lemma_half_even_equal(self@ * places as nat, one(), c as nat, p as nat);
            }
            round_half_even(c, p)
        }
    }
}

proof fn lemma_bit_pattern_unique(x: nat, a: u64, b: u64)
    requires
        is_bit_pattern(x, a),
        is_bit_pattern(x, b),
    ensures
        a == b,
{
    if x > 0 {
        let (m, s) = choose|mant: nat, scale: nat|
            #![trigger mant * pow2(scale)]
            pow2(52) <= mant < pow2(53) && x == mant * pow2(scale) && a == scale * pow2(52) + mant;
        let (n, t) = choose|mant: nat, scale: nat|
            #![trigger mant * pow2(scale)]
            pow2(52) <= mant < pow2(53) && x == mant * pow2(scale) && b == scale * pow2(52) + mant;
        lemma_pow2_pos(s);
        lemma_pow2_pos(t);
        lemma_significand_spaced(x, m, s);
        lemma_significand_spaced(x, n, t);
        lemma_spacing_at_least(x, 1, s, t);
        lemma_spacing_at_least(x, 1, t, s);
        assert(m == n) by (nonlinear_arith)
            requires
                m * pow2(s) == n * pow2(s),
                pow2(s) > 0,
        ;
    }
}

proof fn lemma_significand_spaced(x: nat, m: nat, s: nat)
    requires
        pow2(52) <= m < pow2(53),
        x == m * pow2(s),
        pow2(s) > 0,
    ensures
        spaced(x, 1, s),
{
    assert(pow2(52) * pow2(s) * 1 <= x < pow2(53) * pow2(s) * 1) by (nonlinear_arith)
        requires
            pow2(52) <= m < pow2(53),
            x == m * pow2(s),
            pow2(s) > 0,
    ;
}

/// `2^k`.
fn power_of_two(k: u32) -> (p: u128)
    requires
        k <= 114,
    ensures
        p == pow2(k as nat),
{
    let mut p: u128 = 1;
    let mut i: u32 = 0;
    proof {
        lemma_powers();
    }
    while i < k
        invariant
            i <= k <= 114,
            p == pow2(i as nat),
        decreases k - i,
    {
        proof {
            lemma_pow2_unfold((i + 1) as nat);
            lemma_pow2_strictly_increases(i as nat, 114);
            lemma_pow2_114();
        }
        p = p * 2;
        i = i + 1;
    }
    p
}

/// The double of `n` divided by the double of `d`, as a whole number of `1 / places`.
pub fn fixed_quotient(n: u128, d: u64, places: u64) -> (v: u128)
    requires
        n <= crate::time::MAX_DURATION_NANOS,
        1 <= d <= n,
        d <= 1_000_000_000,
        1 <= places <= 100,
    ensures
        v == fixed_point(int_quotient(n as nat, d as nat), places as nat),
{
    let x = Binary64::from_int(n);
    let y = Binary64::from_int(d as u128);
    let q = x.divided_by(y);
    q.to_fixed_point(places)
}

/// The bit pattern of the double of `n` divided by the double of `d`.
pub fn quotient_bits(n: u64, d: u64) -> (bits: u64)
    requires
        0 < d,
    ensures
        bits == bits_of(int_quotient(n as nat, d as nat)),
{
    let x = Binary64::from_int(n as u128);
    let y = Binary64::from_int(d as u128);
    x.divided_by(y).to_bits()
}

/// The bit pattern of the double of `delta` divided by the seconds in `elapsed`.
pub fn per_second_bits(delta: u64, elapsed: Duration) -> (bits: u64)
    requires
        elapsed@ > 0,
    ensures
        bits == bits_of(per_second(delta as nat, elapsed@)),
{
    let whole = Binary64::from_int(elapsed.as_secs() as u128);
    let rest = Binary64::from_int(elapsed.subsec_nanos() as u128);
    let billion = Binary64::from_int(1_000_000_000);
    let part = rest.divided_by(billion);
    let secs = whole.added_to(part);
    Binary64::from_int(delta as u128).divided_by(secs).to_bits()
}

} // verus!
