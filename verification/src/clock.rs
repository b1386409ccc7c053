//! Clock alignment between GPU-side sources and the host `CLOCK_REALTIME`.
//!
//! Every stored event carries a host-corrected nanosecond timestamp, so sorting
//! by timestamp gives one consistent order whichever source produced the event.
//! The mapping is affine, `host = offset + slope_num / slope_den * source`, with
//! the slope kept as a ratio of integers so that long captures do not drift.

use crate::line::{
    ceil_ratio, clamp, distance, intercept, is_intercept, round_ratio, Intercept, Slope,
};
use crate::order::{all_valid, is_upper_median, upper_median, Ranked};
use vstd::prelude::*;

verus! {

/// Denominator of a fitted slope: `2^30`.
pub const SLOPE_DENOMINATOR: u32 = 0x4000_0000;

/// Affine mapping from a monotonic source clock to host `CLOCK_REALTIME` ns.
#[derive(Copy, Clone, Debug)]
pub struct ClockOffset {
    pub offset_ns: i128,
    pub slope_num: i128,
    pub slope_den: i128,
    pub residual_max_ns: u64,
    pub fitted_at_host_ns: u64,
}

/// One paired observation of the two clocks.
#[derive(Copy, Clone, Debug)]
pub struct Pair {
    pub src_ns: u64,
    pub host_ns: u64,
}

/// Integer division that rounds toward zero.
pub open spec fn div_toward_zero(n: int, d: int) -> int {
    if n >= 0 && d > 0 {
        n / d
    } else if n < 0 && d > 0 {
        -((-n) / d)
    } else if n >= 0 {
        -(n / (-d))
    } else {
        (-n) / (-d)
    }
}

/// The low 64 bits of a non-negative integer.
pub open spec fn low64(x: int) -> int {
    x % 0x1_0000_0000_0000_0000
}

/// What an affine mapping sends `src` to: never below zero, and cut to 64 bits.
pub open spec fn affine(offset: int, num: int, den: int, src: int) -> int {
    let host = offset + div_toward_zero(num * src, den);
    if host < 0 {
        0
    } else {
        low64(host)
    }
}

/// The intermediate results of [`affine`] fit 128 bits.
pub open spec fn affine_fits(offset: int, num: int, den: int, src: int) -> bool {
    &&& den != 0
    &&& i128::MIN <= num * src <= i128::MAX
    &&& i128::MIN <= div_toward_zero(num * src, den) <= i128::MAX
    &&& i128::MIN <= offset + div_toward_zero(num * src, den) <= i128::MAX
}

/// If a timestamp can be mapped so can every earlier one.
proof fn lemma_maps_below(offset: int, num: int, den: int, a: int, b: int)
    requires
        0 <= a <= b,
        i128::MIN <= offset <= i128::MAX,
        affine_fits(offset, num, den, b),
    ensures
        affine_fits(offset, num, den, a),
{
    let (p, q) = (num * a, num * b);
    assert((0 <= p <= q) || (q <= p <= 0)) by (nonlinear_arith)
        requires
            0 <= a <= b,
            p == num * a,
            q == num * b,
    ;
    let d = if den > 0 {
        den
    } else {
        -den
    };
    let (x, y) = if q >= 0 && p >= 0 {
        (p, q)
    } else {
        (-p, -q)
    };
    vstd::arithmetic::div_mod::lemma_div_is_ordered(x, y, d);
    assert(0 <= x / d) by (nonlinear_arith)
        requires
            x >= 0,
            d > 0,
    ;
    assert(0int / d == 0) by (nonlinear_arith)
        requires
            d > 0,
    ;
}

impl ClockOffset {
    /// The mapping that leaves every timestamp as it is.
    pub fn identity() -> (c: Self)
        ensures
            c == (ClockOffset {
                offset_ns: 0,
                slope_num: 1,
                slope_den: 1,
                residual_max_ns: 0,
                fitted_at_host_ns: 0,
            }),
    {
        ClockOffset {
            offset_ns: 0,
            slope_num: 1,
            slope_den: 1,
            residual_max_ns: 0,
            fitted_at_host_ns: 0,
        }
    }

    /// Mapping `src` overflows no intermediate result.
    pub open spec fn can_map(self, src: int) -> bool {
        affine_fits(self.offset_ns as int, self.slope_num as int, self.slope_den as int, src)
    }

    /// Mapping overflows for no 64-bit timestamp.
    pub open spec fn maps_all(self) -> bool {
        forall|src: u64| #[trigger] self.can_map(src as int)
    }

    /// Whether every 64-bit timestamp can be mapped.
    pub fn maps_every_timestamp(&self) -> (b: bool)
        ensures
            b == self.maps_all(),
    {
        let most: i128 = u64::MAX as i128;
        proof {
            let d = self.slope_den as int;
            assert(d != 0 ==> 0int / d == 0) by (nonlinear_arith);
            assert(d != 0 ==> 0int / (-d) == 0) by (nonlinear_arith);
        }
        let fits = match self.slope_num.checked_mul(most) {
            Some(scaled) => match scaled.checked_div(self.slope_den) {
                Some(ratio) => self.offset_ns.checked_add(ratio).is_some(),
                None => false,
            },
            None => false,
        };
        proof {
            let last: u64 = u64::MAX;
            assert(fits == self.can_map(last as int));
            if fits {
                assert forall|src: u64| #[trigger] self.can_map(src as int) by {
                    lemma_maps_below(
                        self.offset_ns as int,
                        self.slope_num as int,
                        self.slope_den as int,
                        src as int,
                        last as int,
                    );
                }
            }
        }
        fits
    }

    /// Maps a raw source-clock timestamp to host-corrected ns.
    pub fn map(&self, src_ns: u64) -> (host_ns: u64)
        requires
            self.can_map(src_ns as int),
        ensures
            host_ns == affine(
                self.offset_ns as int,
                self.slope_num as int,
                self.slope_den as int,
                src_ns as int,
            ),
    {
        let scaled: i128 = self.slope_num * (src_ns as i128);
        let ratio: i128 = match scaled.checked_div(self.slope_den) {
            Some(q) => q,
            None => 0,
        };
        proof {
            let d = self.slope_den as int;
            assert(d != 0 ==> 0int / d == 0) by (nonlinear_arith);
            assert(d != 0 ==> 0int / (-d) == 0) by (nonlinear_arith);
        }
        let host: i128 = self.offset_ns + ratio;
        if host < 0 {
            0
        } else {
            let cut = host as u64;
            assert(cut == host % 0x1_0000_0000_0000_0000) by (bit_vector)
                requires
                    host >= 0,
                    cut == host as u64,
            ;
            cut
        }
    }
}

/// The slope of the line through two observations with different source times.
pub open spec fn slope_between(a: Pair, b: Pair) -> Slope {
    Slope {
        falling: (a.src_ns < b.src_ns) != (a.host_ns < b.host_ns) && a.host_ns != b.host_ns,
        rise: distance(a.host_ns as int, b.host_ns as int) as u64,
        run: distance(a.src_ns as int, b.src_ns as int) as u64,
    }
}

/// Slopes from observation `i` to the observations after it and before `j`;
/// observations at the same source time give none.
pub open spec fn slopes_from(pairs: Seq<Pair>, i: int, j: int) -> Seq<Slope>
    decreases j - i,
{
    if j <= i + 1 {
        Seq::empty()
    } else {
        let before = slopes_from(pairs, i, j - 1);
        if pairs[i].src_ns == pairs[j - 1].src_ns {
            before
        } else {
            before.push(slope_between(pairs[i], pairs[j - 1]))
        }
    }
}

/// Slopes from each of the first `i` observations to every later one.
pub open spec fn slopes_upto(pairs: Seq<Pair>, i: int) -> Seq<Slope>
    decreases i,
{
    if i <= 0 {
        Seq::empty()
    } else {
        slopes_upto(pairs, i - 1) + slopes_from(pairs, i - 1, pairs.len() as int)
    }
}

/// The slope of every line through two of the observations.
pub open spec fn pairwise_slopes(pairs: Seq<Pair>) -> Seq<Slope> {
    slopes_upto(pairs, pairs.len() as int)
}

/// `cs` holds, for each observation, the intercept of its line of that slope.
pub open spec fn are_intercepts(pairs: Seq<Pair>, slope: Slope, cs: Seq<Intercept>) -> bool {
    &&& cs.len() == pairs.len()
    &&& forall|i: int|
        0 <= i < pairs.len() ==> is_intercept(
            pairs[i].src_ns as int,
            pairs[i].host_ns as int,
            slope,
            #[trigger] cs[i],
        )
}

/// The largest distance, rounded up, from any of the first `n` intercepts to
/// `mid`.
pub open spec fn worst_distance(cs: Seq<Intercept>, n: int, mid: Intercept, run: int) -> int
    decreases n,
{
    if n <= 0 {
        0
    } else {
        let rest = worst_distance(cs, n - 1, mid, run);
        let here = ceil_ratio(distance(cs[n - 1].scaled(run), mid.scaled(run)), run);
        if here > rest {
            here
        } else {
            rest
        }
    }
}

/// `c` is the line of slope `slope` and intercept `mid`: the slope in fixed
/// point, the intercept to the nearest ns, and the largest residual rounded up.
pub open spec fn is_line_through(
    cs: Seq<Intercept>,
    slope: Slope,
    mid: Intercept,
    c: ClockOffset,
) -> bool {
    let run = slope.run as int;
    &&& c.slope_den == SLOPE_DENOMINATOR
    &&& c.slope_num == round_ratio(slope.num() * SLOPE_DENOMINATOR, run)
    &&& c.offset_ns == clamp(
        round_ratio(mid.scaled(run), run),
        i128::MIN as int,
        i128::MAX as int,
    )
    &&& c.residual_max_ns == clamp(
        worst_distance(cs, cs.len() as int, mid, run),
        0,
        u64::MAX as int,
    )
}

/// The Theil-Sen construction: the median slope over all lines through two
/// observations, then the median intercept of the lines of that slope through
/// each observation.
pub open spec fn is_theil_sen(
    pairs: Seq<Pair>,
    slope: Slope,
    cs: Seq<Intercept>,
    mid: Intercept,
    c: ClockOffset,
) -> bool {
    &&& is_upper_median(pairwise_slopes(pairs), slope)
    &&& are_intercepts(pairs, slope, cs)
    &&& is_upper_median(cs, mid)
    &&& is_line_through(cs, slope, mid, c)
}

/// `c` is the Theil-Sen fit of the observations.
pub open spec fn is_fit_of(pairs: Seq<Pair>, c: ClockOffset) -> bool {
    exists|slope: Slope, cs: Seq<Intercept>, mid: Intercept| #[trigger]
        is_theil_sen(pairs, slope, cs, mid, c)
}

/// No two observations differ in their source time.
pub open spec fn one_source_time(pairs: Seq<Pair>) -> bool {
    forall|i: int, j: int|
        0 <= i < pairs.len() && 0 <= j < pairs.len() ==> (#[trigger] pairs[i]).src_ns == (
        #[trigger] pairs[j]).src_ns
}

proof fn lemma_row_empty(pairs: Seq<Pair>, i: int, j: int)
    requires
        0 <= i < pairs.len(),
        j <= pairs.len(),
    ensures
        slopes_from(pairs, i, j).len() == 0 <==> (forall|k: int|
            i < k < j ==> (#[trigger] pairs[k]).src_ns == pairs[i].src_ns),
    decreases j - i,
{
    if j > i + 1 {
        lemma_row_empty(pairs, i, j - 1);
        if pairs[i].src_ns != pairs[j - 1].src_ns {
            assert(slopes_from(pairs, i, j).len() > 0);
        }
    }
}

proof fn lemma_no_slopes(pairs: Seq<Pair>, i: int)
    requires
        0 <= i <= pairs.len(),
    ensures
        slopes_upto(pairs, i).len() == 0 <==> (forall|k: int, l: int|
            0 <= k < i && k < l < pairs.len() ==> (#[trigger] pairs[k]).src_ns == (
            #[trigger] pairs[l]).src_ns),
    decreases i,
{
    if i > 0 {
        lemma_no_slopes(pairs, i - 1);
        lemma_row_empty(pairs, i - 1, pairs.len() as int);
        let row = slopes_from(pairs, i - 1, pairs.len() as int);
        if slopes_upto(pairs, i).len() == 0 {
            assert(slopes_upto(pairs, i - 1).len() == 0);
            assert(row.len() == 0);
        } else if slopes_upto(pairs, i - 1).len() == 0 {
            let l = choose|l: int|
                i - 1 < l < pairs.len() && (#[trigger] pairs[l]).src_ns != pairs[i - 1].src_ns;
            assert(pairs[i - 1].src_ns != pairs[l].src_ns);
        }
    }
}

/// There is a slope to take a median of unless all source times agree.
proof fn lemma_slopes_exist(pairs: Seq<Pair>)
    ensures
        pairwise_slopes(pairs).len() == 0 <==> one_source_time(pairs),
{
    lemma_no_slopes(pairs, pairs.len() as int);
    if pairwise_slopes(pairs).len() == 0 {
        assert forall|i: int, j: int|
            0 <= i < pairs.len() && 0 <= j < pairs.len() implies (#[trigger] pairs[i]).src_ns == (
        #[trigger] pairs[j]).src_ns by {
            if i > j {
                assert(pairs[j].src_ns == pairs[i].src_ns);
            }
        }
    }
}

pub proof fn lemma_slopes_valid(pairs: Seq<Pair>, i: int)
    requires
        0 <= i <= pairs.len(),
    ensures
        all_valid(slopes_upto(pairs, i)),
    decreases i,
{
    if i > 0 {
        lemma_slopes_valid(pairs, i - 1);
        lemma_row_valid(pairs, i - 1, pairs.len() as int);
        let a = slopes_upto(pairs, i - 1);
        let b = slopes_from(pairs, i - 1, pairs.len() as int);
        assert forall|k: int| 0 <= k < (a + b).len() implies (#[trigger] (a + b)[k]).valid() by {
            if k < a.len() {
                assert(a[k].valid());
            } else {
                assert(b[k - a.len()].valid());
            }
        }
    }
}

proof fn lemma_row_valid(pairs: Seq<Pair>, i: int, j: int)
    requires
        0 <= i < pairs.len(),
        j <= pairs.len(),
    ensures
        all_valid(slopes_from(pairs, i, j)),
    decreases j,
{
    if j > i + 1 {
        lemma_row_valid(pairs, i, j - 1);
    }
}

/// Fits an affine mapping with the Theil-Sen estimator: robust, and exact up to
/// the final rounding. `None` unless two observations have different source
/// times. The fit is stamped with the time at which it was made; see
/// [`ClockOffset::stamped`].
pub fn fit_theil_sen(pairs: &[Pair]) -> (fit: Option<ClockOffset>)
    ensures
        fit is None <==> one_source_time(pairs@),
        fit matches Some(c) ==> is_fit_of(pairs@, c),
{
    match theil_sen_line(pairs) {
        Some(line) => {
            let c = line.stamped(host_realtime_ns());
            proof {
                let (slope, cs, mid) = choose|slope: Slope, cs: Seq<Intercept>, mid: Intercept|
                    #[trigger]
                    is_theil_sen(pairs@, slope, cs, mid, line);
                assert(is_theil_sen(pairs@, slope, cs, mid, c));
            }
            Some(c)
        },
        None => None,
    }
}

impl ClockOffset {
    /// The fit, made at `now_ns`.
    pub fn stamped(self, now_ns: u64) -> (c: ClockOffset)
        ensures
            c == (ClockOffset { fitted_at_host_ns: now_ns, ..self }),
    {
        ClockOffset { fitted_at_host_ns: now_ns, ..self }
    }
}

/// The fit of the observations, not stamped yet.
fn theil_sen_line(pairs: &[Pair]) -> (fit: Option<ClockOffset>)
    ensures
        fit is None <==> one_source_time(pairs@),
        fit matches Some(c) ==> is_fit_of(pairs@, c) && c.fitted_at_host_ns == 0,
{
    let n = pairs.len();
    let mut slopes: Vec<Slope> = Vec::new();
    let mut i: usize = 0;
    while i < n
        invariant
            n == pairs@.len(),
            0 <= i <= n,
            slopes@ == slopes_upto(pairs@, i as int),
        decreases n - i,
    {
        let mut j: usize = i + 1;
        while j < n
            invariant
                n == pairs@.len(),
                0 <= i < j <= n,
                slopes@ == slopes_upto(pairs@, i as int) + slopes_from(pairs@, i as int, j as int),
            decreases n - j,
        {
            let a = pairs[i];
            let b = pairs[j];
            if a.src_ns != b.src_ns {
                let run: u64 = if a.src_ns < b.src_ns {
                    b.src_ns - a.src_ns
                } else {
                    a.src_ns - b.src_ns
                };
                let rise: u64 = if a.host_ns < b.host_ns {
                    b.host_ns - a.host_ns
                } else {
                    a.host_ns - b.host_ns
                };
                let falling = (a.src_ns < b.src_ns) != (a.host_ns < b.host_ns) && a.host_ns
                    != b.host_ns;
                let slope = Slope { falling, rise, run };
                slopes.push(slope);
                proof {
                    assert(slope == slope_between(a, b));
                }
            }
            j = j + 1;
            proof {
                assert(slopes@ =~= slopes_upto(pairs@, i as int) + slopes_from(
                    pairs@,
                    i as int,
                    j as int,
                ));
            }
        }
        i = i + 1;
    }
    proof {
        lemma_slopes_exist(pairs@);
    }
    if slopes.len() == 0 {
        return None;
    }
    proof {
        lemma_slopes_valid(pairs@, n as int);
    }
    let slope = upper_median(&slopes);
    let mut cs: Vec<Intercept> = Vec::new();
    let mut k: usize = 0;
    while k < n
        invariant
            n == pairs@.len(),
            0 <= k <= n,
            slope.run > 0,
            cs.len() == k,
            forall|l: int|
                0 <= l < k ==> is_intercept(
                    pairs@[l].src_ns as int,
                    pairs@[l].host_ns as int,
                    slope,
                    #[trigger] cs@[l],
                ),
            forall|l: int| 0 <= l < k ==> (#[trigger] cs@[l]).whole < u128::MAX,
        decreases n - k,
    {
        cs.push(intercept(pairs[k].src_ns, pairs[k].host_ns, &slope));
        k = k + 1;
    }
    proof {
        if n == 0 {
            assert(pairwise_slopes(pairs@).len() == 0);
        }
    }
    let mid = upper_median(&cs);
    let ghost at = choose|l: int| 0 <= l < cs@.len() && cs@[l] == mid;
    let mut worst: u64 = 0;
    let mut k: usize = 0;
    while k < n
        invariant
            n == pairs@.len(),
            0 <= k <= n,
            are_intercepts(pairs@, slope, cs@),
            mid.canonical(slope.run as int),
            worst == clamp(
                worst_distance(cs@, k as int, mid, slope.run as int),
                0,
                u64::MAX as int,
            ),
        decreases n - k,
    {
        let here = cs[k].distance_up(&mid, slope.run);
        if here > worst {
            worst = here;
        }
        k = k + 1;
    }
    let c = ClockOffset {
        offset_ns: mid.rounded(slope.run),
        slope_num: slope.fixed_point(SLOPE_DENOMINATOR),
        slope_den: SLOPE_DENOMINATOR as i128,
        residual_max_ns: worst,
        fitted_at_host_ns: 0,
    };
    proof {
        assert(is_theil_sen(pairs@, slope, cs@, mid, c));
    }
    Some(c)
}

/// A reading of the system clock.
#[verifier::external_type_specification]
#[verifier::external_body]
pub struct ExSystemTime(std::time::SystemTime);

/// The error for a clock reading before the epoch.
#[verifier::external_type_specification]
#[verifier::external_body]
pub struct ExSystemTimeError(std::time::SystemTimeError);

/// A reading of the monotonic clock.
#[verifier::external_type_specification]
#[verifier::external_body]
pub struct ExInstant(std::time::Instant);

/// `std::time::SystemTime::now`: some reading, nothing is claimed of it.
pub assume_specification[ std::time::SystemTime::now ]() -> std::time::SystemTime
;

/// `std::time::Instant::elapsed`: some span, nothing is claimed of it.
pub assume_specification[ std::time::Instant::elapsed ](
    i: &std::time::Instant,
) -> std::time::Duration
;

/// `std::time::Duration::as_nanos`: the length of the span in ns. Spans here come
/// from clock readings, so nothing is known of the number.
pub assume_specification[ std::time::Duration::as_nanos ](d: &std::time::Duration) -> u128
;

/// `std::time::SystemTime::duration_since` the Unix epoch; an error when the
/// reading is before it. Nothing is claimed of the span.
#[verifier::external_body]
fn since_epoch(t: &std::time::SystemTime) -> Result<std::time::Duration, std::time::SystemTimeError> {
    t.duration_since(std::time::UNIX_EPOCH)
}

/// Nanoseconds cut to 64 bits.
pub fn cut_nanos(n: u128) -> (ns: u64)
    ensures
        ns == low64(n as int),
{
    let ns = n as u64;
    assert(ns == n % 0x1_0000_0000_0000_0000) by (bit_vector)
        requires
            ns == n as u64,
    ;
    ns
}

/// What a reading of the system clock becomes: its ns since the Unix epoch cut to
/// 64 bits, or zero when it is earlier than that.
pub fn realtime_of(nanos_since_epoch: Option<u128>) -> (ns: u64)
    ensures
        ns == match nanos_since_epoch {
            Some(n) => low64(n as int),
            None => 0,
        },
{
    match nanos_since_epoch {
        Some(n) => cut_nanos(n),
        None => 0,
    }
}

/// Current host `CLOCK_REALTIME` in ns since the Unix epoch, zero when the
/// clock reads earlier than that. The reading is the machine's, and any value can
/// come of it; [`realtime_of`] says which value comes of which reading.
pub fn host_realtime_ns() -> u64 {
    match since_epoch(&std::time::SystemTime::now()) {
        Ok(d) => realtime_of(Some(d.as_nanos())),
        Err(_) => realtime_of(None),
    }
}

/// Monotonic ns since `start`. For short timing loops; never stored. The span is
/// the machine's, and any value can come of it; [`cut_nanos`] says which value
/// comes of which span.
pub fn host_monotonic_ns(start: &std::time::Instant) -> u64 {
    cut_nanos(start.elapsed().as_nanos())
}

/// Mapping a timestamp gives the offset plus the slope times the timestamp, rounded
/// toward zero; what would be before zero is zero.
pub proof fn mapping_is_the_line(offset: int, num: int, den: int, src: int)
    requires
        src >= 0,
        den > 0,
    ensures
        ({
            let whole: int = if num >= 0 {
                (num * src) / den
            } else {
                -(((-num) * src) / den)
            };
            &&& offset + whole < 0 ==> affine(offset, num, den, src) == 0
            &&& 0 <= offset + whole <= u64::MAX ==> affine(offset, num, den, src) == offset + whole
        }),
{
    assert(num >= 0 ==> num * src >= 0) by (nonlinear_arith)
        requires
            src >= 0,
    ;
    assert((-num) * src == -(num * src)) by (nonlinear_arith);
    assert(num < 0 ==> num * src <= 0) by (nonlinear_arith)
        requires
            src >= 0,
    ;
    assert(0int / den == 0) by (nonlinear_arith)
        requires
            den > 0,
    ;
}

} // verus!
