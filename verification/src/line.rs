//! Exact slopes and intercepts of lines through nanosecond observations.
//!
//! Coordinates are 64-bit, so a slope is a ratio of 64-bit magnitudes and an
//! intercept needs a 128-bit whole part. Everything here is exact: nothing is
//! rounded until a caller asks for it.

use crate::order::Ranked;
use vstd::prelude::*;

verus! {

/// Largest value of an unsigned 64-bit coordinate.
pub open spec fn max64() -> int {
    0xffff_ffff_ffff_ffff
}

/// A ratio `rise / run`, negated when `falling`.
#[derive(Copy, Clone, Debug)]
pub struct Slope {
    pub falling: bool,
    pub rise: u64,
    pub run: u64,
}

impl Slope {
    /// The signed numerator.
    pub open spec fn num(self) -> int {
        if self.falling {
            -(self.rise as int)
        } else {
            self.rise as int
        }
    }

    /// Equal as ratios, though perhaps written differently.
    pub open spec fn same_ratio(self, other: Slope) -> bool {
        self.num() * other.run == other.num() * self.run
    }
}

impl Ranked for Slope {
    open spec fn valid(self) -> bool {
        self.run > 0
    }

    open spec fn at_most(self, other: Self) -> bool {
        self.num() * other.run <= other.num() * self.run
    }

    proof fn at_most_is_total(a: Self, b: Self) {
    }

    proof fn at_most_is_transitive(a: Self, b: Self, c: Self) {
        let (an, ad) = (a.num(), a.run as int);
        let (bn, bd) = (b.num(), b.run as int);
        let (cn, cd) = (c.num(), c.run as int);
        assert(an * cd <= cn * ad) by (nonlinear_arith)
            requires
                an * bd <= bn * ad,
                bn * cd <= cn * bd,
                ad > 0,
                bd > 0,
                cd > 0,
        {
            assert((an * bd) * cd <= (bn * ad) * cd);
            assert((bn * cd) * ad <= (cn * bd) * ad);
            assert((an * cd) * bd <= (cn * ad) * bd);
        }
    }

    fn ranks_at_most(&self, other: &Self) -> (r: bool) {
        proof {
            lemma_product_fits(self.rise as int, other.run as int);
            lemma_product_fits(other.rise as int, self.run as int);
        }
        let left: u128 = self.rise as u128 * other.run as u128;
        let right: u128 = other.rise as u128 * self.run as u128;
        proof {
            let (an, ad, bn, bd) = (
                self.rise as int,
                self.run as int,
                other.rise as int,
                other.run as int,
            );
            assert((-an) * bd == -(an * bd)) by (nonlinear_arith);
            assert((-bn) * ad == -(bn * ad)) by (nonlinear_arith);
        }
        if self.falling {
            if other.falling {
                right <= left
            } else {
                true
            }
        } else if other.falling {
            left == 0 && right == 0
        } else {
            left <= right
        }
    }
}

/// A product of two 64-bit magnitudes fits 128 bits.
pub proof fn lemma_product_fits(a: int, b: int)
    requires
        0 <= a <= max64(),
        0 <= b <= max64(),
    ensures
        0 <= a * b <= max64() * max64(),
        max64() * max64() + max64() <= u128::MAX,
{
    assert(0 <= a * b <= max64() * max64()) by (nonlinear_arith)
        requires
            0 <= a <= max64(),
            0 <= b <= max64(),
    ;
    assert(0xffff_ffff_ffff_ffffint * 0xffff_ffff_ffff_ffffint + 0xffff_ffff_ffff_ffffint
        <= u128::MAX) by (nonlinear_arith);
}

/// `whole + part / run`, negated when `below`; `run` is the run of the slope
/// that the intercept belongs to. Zero is never `below`.
#[derive(Copy, Clone, Debug)]
pub struct Intercept {
    pub below: bool,
    pub whole: u128,
    pub part: u64,
}

impl Intercept {
    /// The intercept times `run`.
    pub open spec fn scaled(self, run: int) -> int {
        if self.below {
            -(self.whole * run + self.part)
        } else {
            self.whole * run + self.part
        }
    }

    /// Written in lowest form over `run`.
    pub open spec fn canonical(self, run: int) -> bool {
        &&& self.part < run
        &&& self.below ==> self.whole > 0 || self.part > 0
    }
}

impl Ranked for Intercept {
    open spec fn valid(self) -> bool {
        true
    }

    open spec fn at_most(self, other: Self) -> bool {
        self.scaled(max64() + 1) <= other.scaled(max64() + 1)
    }

    proof fn at_most_is_total(a: Self, b: Self) {
    }

    proof fn at_most_is_transitive(a: Self, b: Self, c: Self) {
    }

    fn ranks_at_most(&self, other: &Self) -> (r: bool) {
        if self.below {
            if other.below {
                other.whole < self.whole || (other.whole == self.whole && other.part <= self.part)
            } else {
                true
            }
        } else if other.below {
            self.whole == 0 && self.part == 0 && other.whole == 0 && other.part == 0
        } else {
            self.whole < other.whole || (self.whole == other.whole && self.part <= other.part)
        }
    }
}

/// The order of intercepts over one run is the order of their values.
pub proof fn intercepts_rank_by_value(a: Intercept, b: Intercept, run: int)
    requires
        a.canonical(run),
        b.canonical(run),
        0 < run <= max64(),
    ensures
        a.at_most(b) <==> a.scaled(run) <= b.scaled(run),
{
    lemma_lexicographic(a.whole as int, a.part as int, b.whole as int, b.part as int, run);
    lemma_lexicographic(b.whole as int, b.part as int, a.whole as int, a.part as int, run);
    assert(0 <= a.whole * run) by (nonlinear_arith)
        requires
            0 < run,
    ;
    assert(0 <= b.whole * run) by (nonlinear_arith)
        requires
            0 < run,
    ;
    if a.below != b.below {
        if a.below {
            assert(a.whole > 0 ==> a.whole * run > 0) by (nonlinear_arith)
                requires
                    0 < run,
            ;
        } else {
            assert(b.whole > 0 ==> b.whole * run > 0) by (nonlinear_arith)
                requires
                    0 < run,
            ;
        }
    }
}

proof fn lemma_lexicographic(w1: int, p1: int, w2: int, p2: int, run: int)
    requires
        0 <= p1 < run,
        0 <= p2 < run,
    ensures
        w1 * run + p1 <= w2 * run + p2 <==> (w1 < w2 || (w1 == w2 && p1 <= p2)),
{
    if w1 < w2 {
        assert(w1 * run + run <= w2 * run) by (nonlinear_arith)
            requires
                w1 < w2,
                run > 0,
        ;
    } else if w2 < w1 {
        assert(w2 * run + run <= w1 * run) by (nonlinear_arith)
            requires
                w2 < w1,
                run > 0,
        ;
    }
}

/// `host - slope * src` times the run of the slope: the height at which the
/// line through `(src, host)` meets the host axis, scaled to an integer.
pub open spec fn scaled_intercept(src: int, host: int, slope: Slope) -> int {
    host * slope.run - slope.num() * src
}

/// `c` is the intercept of the line of that slope through `(src, host)`.
pub open spec fn is_intercept(src: int, host: int, slope: Slope, c: Intercept) -> bool {
    &&& c.canonical(slope.run as int)
    &&& c.scaled(slope.run as int) == scaled_intercept(src, host, slope)
}

/// Where the line of slope `slope` through `(src_ns, host_ns)` meets the host
/// axis.
pub fn intercept(src_ns: u64, host_ns: u64, slope: &Slope) -> (c: Intercept)
    requires
        slope.run > 0,
    ensures
        is_intercept(src_ns as int, host_ns as int, *slope, c),
        c.whole < u128::MAX,
{
    proof {
        lemma_product_fits(slope.rise as int, src_ns as int);
    }
    let lift: u128 = slope.rise as u128 * src_ns as u128;
    let run: u128 = slope.run as u128;
    let whole: u128 = lift / run;
    let part: u128 = lift % run;
    let host: u128 = host_ns as u128;
    proof {
        let (l, d, q, r, h) = (lift as int, run as int, whole as int, part as int, host as int);
        assert(l == q * d + r && 0 <= r < d) by (nonlinear_arith)
            requires
                q == l / d,
                r == l % d,
                d > 0,
        ;
        assert(0 <= q <= l) by (nonlinear_arith)
            requires
                l == q * d + r,
                0 <= r < d,
                l >= 0,
        ;
        assert((h + q) * d == h * d + q * d) by (nonlinear_arith);
        assert((h - q) * d == h * d - q * d) by (nonlinear_arith);
        assert((q - h) * d == q * d - h * d) by (nonlinear_arith);
        assert((h - q - 1) * d == h * d - q * d - d) by (nonlinear_arith);
        assert((-(slope.rise as int)) * src_ns == -(slope.rise * src_ns)) by (nonlinear_arith);
    }
    if slope.falling {
        Intercept { below: false, whole: host + whole, part: part as u64 }
    } else if part == 0 && host >= whole {
        Intercept { below: false, whole: host - whole, part: 0 }
    } else if host > whole {
        Intercept { below: false, whole: host - whole - 1, part: (run - part) as u64 }
    } else {
        Intercept { below: true, whole: whole - host, part: part as u64 }
    }
}

/// The nearest integer to `n / d`, halves rounded away from zero.
pub open spec fn round_ratio(n: int, d: int) -> int {
    if n >= 0 {
        (2 * n + d) / (2 * d)
    } else {
        -((2 * (-n) + d) / (2 * d))
    }
}

/// The least integer at or above `n / d`, for `n >= 0`.
pub open spec fn ceil_ratio(n: int, d: int) -> int {
    (n + d - 1) / d
}

/// `x` forced into `lo ..= hi`.
pub open spec fn clamp(x: int, lo: int, hi: int) -> int {
    if x < lo {
        lo
    } else if x > hi {
        hi
    } else {
        x
    }
}

/// Distance of `a` and `b`.
pub open spec fn distance(a: int, b: int) -> int {
    if a <= b {
        b - a
    } else {
        a - b
    }
}

/// Rounding a non-negative `w + p / d` looks at the fraction alone.
pub proof fn lemma_round_mixed(w: int, p: int, d: int)
    requires
        w >= 0,
        0 <= p < d,
    ensures
        round_ratio(w * d + p, d) == w + if 2 * p >= d {
            1int
        } else {
            0int
        },
        round_ratio(-(w * d + p), d) == -round_ratio(w * d + p, d),
{
    let up = if 2 * p >= d {
        1int
    } else {
        0int
    };
    let x = 2 * (w * d + p) + d;
    assert(w * d >= 0) by (nonlinear_arith)
        requires
            w >= 0,
            d > 0,
    ;
    assert(x == (w + up) * (2 * d) + (2 * p + d - 2 * d * up)) by (nonlinear_arith)
        requires
            x == 2 * (w * d + p) + d,
    ;
    let rest = 2 * p + d - 2 * d * up;
    assert(0 <= rest < 2 * d);
    vstd::arithmetic::div_mod::lemma_fundamental_div_mod_converse(x, 2 * d, w + up, rest);
    assert(w > 0 ==> w * d > 0) by (nonlinear_arith)
        requires
            d > 0,
    ;
}

/// The ceiling of a non-negative `w + p / d`.
pub proof fn lemma_ceil_mixed(w: int, p: int, d: int)
    requires
        0 <= p < d,
    ensures
        ceil_ratio(w * d + p, d) == w + if p > 0 {
            1int
        } else {
            0int
        },
{
    let up = if p > 0 {
        1int
    } else {
        0int
    };
    let x = w * d + p + d - 1;
    let rest = p + d - 1 - d * up;
    assert(x == (w + up) * d + rest) by (nonlinear_arith)
        requires
            x == w * d + p + d - 1,
            rest == p + d - 1 - d * up,
    ;
    vstd::arithmetic::div_mod::lemma_fundamental_div_mod_converse(x, d, w + up, rest);
}

impl Slope {
    /// The slope as a fixed-point number: the nearest integer to
    /// `slope * scale`.
    pub fn fixed_point(&self, scale: u32) -> (n: i128)
        requires
            self.run > 0,
        ensures
            n == round_ratio(self.num() * scale, self.run as int),
    {
        proof {
            assert(0 <= self.rise * scale <= 0xffff_ffff_ffff_ffffint * 0xffff_ffffint)
                by (nonlinear_arith);
        }
        let x: u128 = self.rise as u128 * scale as u128;
        let run: u128 = self.run as u128;
        let whole: u128 = x / run;
        let part: u128 = x % run;
        proof {
            let (l, d, q, r) = (x as int, run as int, whole as int, part as int);
            assert(l == q * d + r && 0 <= r < d) by (nonlinear_arith)
                requires
                    q == l / d,
                    r == l % d,
                    d > 0,
            ;
            assert(0 <= q <= l) by (nonlinear_arith)
                requires
                    l == q * d + r,
                    0 <= r < d,
                    l >= 0,
            ;
            lemma_round_mixed(q, r, d);
            assert((-(self.rise as int)) * scale == -(self.rise * scale)) by (nonlinear_arith);
        }
        let up: u128 = if part >= run - part {
            1
        } else {
            0
        };
        let magnitude: i128 = (whole + up) as i128;
        if self.falling {
            -magnitude
        } else {
            magnitude
        }
    }
}

impl Intercept {
    /// The nearest integer, held to the 128-bit signed range.
    pub fn rounded(&self, run: u64) -> (n: i128)
        requires
            self.canonical(run as int),
            self.whole < u128::MAX,
        ensures
            n == clamp(
                round_ratio(self.scaled(run as int), run as int),
                i128::MIN as int,
                i128::MAX as int,
            ),
    {
        proof {
            lemma_round_mixed(self.whole as int, self.part as int, run as int);
        }
        let up: u128 = if self.part >= run - self.part {
            1
        } else {
            0
        };
        let magnitude: u128 = self.whole + up;
        if self.below {
            if magnitude > 0x7fff_ffff_ffff_ffff_ffff_ffff_ffff_ffff {
                i128::MIN
            } else {
                -(magnitude as i128)
            }
        } else if magnitude > 0x7fff_ffff_ffff_ffff_ffff_ffff_ffff_ffff {
            i128::MAX
        } else {
            magnitude as i128
        }
    }

    /// The distance to another intercept over the same run, rounded up and
    /// held to 64 bits.
    pub fn distance_up(&self, other: &Intercept, run: u64) -> (n: u64)
        requires
            self.canonical(run as int),
            other.canonical(run as int),
        ensures
            n == clamp(
                ceil_ratio(
                    distance(self.scaled(run as int), other.scaled(run as int)),
                    run as int,
                ),
                0,
                u64::MAX as int,
            ),
    {
        let ghost d = run as int;
        proof {
            lemma_lexicographic(
                self.whole as int,
                self.part as int,
                other.whole as int,
                other.part as int,
                d,
            );
            assert(0 <= self.whole * d) by (nonlinear_arith)
                requires
                    d > 0,
            ;
            assert(0 <= other.whole * d) by (nonlinear_arith)
                requires
                    d > 0,
            ;
        }
        if self.below == other.below {
            let self_high = other.whole < self.whole || (other.whole == self.whole && other.part
                <= self.part);
            let (hw, hp, lw, lp): (u128, u64, u128, u64) = if self_high {
                (self.whole, self.part, other.whole, other.part)
            } else {
                (other.whole, other.part, self.whole, self.part)
            };
            proof {
                assert((hw - lw) * d == hw * d - lw * d) by (nonlinear_arith);
                assert((hw - lw - 1) * d == hw * d - lw * d - d) by (nonlinear_arith);
            }
            let (whole, part): (u128, u64) = if hp >= lp {
                (hw - lw, hp - lp)
            } else {
                (hw - lw - 1, run - lp + hp)
            };
            proof {
                lemma_ceil_mixed(whole as int, part as int, d);
                assert(distance(self.scaled(d), other.scaled(d)) == whole * d + part);
            }
            if whole >= u64::MAX as u128 {
                u64::MAX
            } else if part > 0 {
                whole as u64 + 1
            } else {
                whole as u64
            }
        } else {
            let ghost total = distance(self.scaled(d), other.scaled(d));
            proof {
                assert((self.whole + other.whole) * d == self.whole * d + other.whole * d)
                    by (nonlinear_arith);
                assert((self.whole + other.whole + 1) * d == self.whole * d + other.whole * d + d)
                    by (nonlinear_arith);
                assert(total == self.whole * d + self.part + other.whole * d + other.part);
                if self.part + other.part < d {
                    lemma_ceil_mixed(self.whole + other.whole, self.part + other.part, d);
                } else {
                    lemma_ceil_mixed(
                        self.whole + other.whole + 1,
                        self.part + other.part - d,
                        d,
                    );
                }
            }
            if self.whole >= u64::MAX as u128 || other.whole >= u64::MAX as u128 {
                return u64::MAX;
            }
            let parts: u128 = self.part as u128 + other.part as u128;
            let up: u128 = if parts == 0 {
                0
            } else if parts <= run as u128 {
                1
            } else {
                2
            };
            let sum: u128 = self.whole + other.whole + up;
            if sum >= u64::MAX as u128 {
                u64::MAX
            } else {
                sum as u64
            }
        }
    }
}

} // verus!
