//! Periodic clock alignment: read the source clock and the host clock many
//! times over, drop the slowest tenth of the readings, and fit a line.

use crate::clock::{
    fit_theil_sen, host_realtime_ns, is_fit_of, one_source_time, ClockOffset, Pair,
};
use crate::order::{count_at_most, is_order_statistic, order_statistic_has_rank, sort};
use vstd::prelude::*;

verus! {

/// A clock that can be aligned with the host's: CUPTI, NVML or DCGM.
pub trait SourceClock: Send + Sync {
    /// A reading that the clock can give; any, unless an implementation says more.
    open spec fn may_read(&self, ns: u64) -> bool {
        true
    }

    fn read_ns(&self) -> (ns: u64)
        ensures
            self.may_read(ns),
    ;
}

/// One reading of the source clock between two readings of the host clock.
#[derive(Copy, Clone, Debug)]
pub struct Observation {
    pub before_ns: u64,
    pub src_ns: u64,
    pub after_ns: u64,
}

impl Observation {
    /// How long the reading took; zero when the host clock was set back.
    pub open spec fn latency_spec(self) -> u64 {
        if self.after_ns >= self.before_ns {
            (self.after_ns - self.before_ns) as u64
        } else {
            0
        }
    }

    /// The source time paired with the midpoint of the host times, which keeps
    /// systematic bias down.
    pub open spec fn pair_spec(self) -> Pair {
        Pair {
            src_ns: self.src_ns,
            host_ns: (self.before_ns + self.latency_spec() / 2) as u64,
        }
    }

    pub fn latency(&self) -> (ns: u64)
        ensures
            ns == self.latency_spec(),
    {
        self.after_ns.saturating_sub(self.before_ns)
    }

    pub fn pair(&self) -> (pair: Pair)
        ensures
            pair == self.pair_spec(),
    {
        let latency: u64 = self.latency();
        Pair { src_ns: self.src_ns, host_ns: self.before_ns + latency / 2 }
    }
}

/// The latencies of the observations.
pub open spec fn latencies(obs: Seq<Observation>) -> Seq<u64> {
    obs.map_values(|o: Observation| o.latency_spec())
}

/// The pairs of the observations that took at most `cutoff`, in order.
pub open spec fn pairs_within(obs: Seq<Observation>, cutoff: u64) -> Seq<Pair>
    decreases obs.len(),
{
    if obs.len() == 0 {
        Seq::empty()
    } else {
        let before = pairs_within(obs.drop_last(), cutoff);
        if obs.last().latency_spec() <= cutoff {
            before.push(obs.last().pair_spec())
        } else {
            before
        }
    }
}

/// `cutoff` is the latency nine tenths of the way up.
pub open spec fn is_cutoff(obs: Seq<Observation>, cutoff: u64) -> bool {
    is_order_statistic(latencies(obs), obs.len() as int * 9 / 10, cutoff)
}

/// What alignment gives for these observations: the fit of the pairs within the
/// latency cutoff, unless they allow none or it misses one by more than
/// `max_residual_ns`.
pub open spec fn is_alignment_of(
    obs: Seq<Observation>,
    cutoff: u64,
    max_residual_ns: u64,
    fit: Option<ClockOffset>,
) -> bool {
    &&& is_cutoff(obs, cutoff)
    &&& match fit {
        Some(c) => is_fit_of(pairs_within(obs, cutoff), c) && c.residual_max_ns <= max_residual_ns,
        None => one_source_time(pairs_within(obs, cutoff)) || exists|c: ClockOffset|
            #[trigger] is_fit_of(pairs_within(obs, cutoff), c) && c.residual_max_ns
                > max_residual_ns,
    }
}

/// Fits the observations that are not among the slowest tenth. `None` if they
/// do not determine a line, or if its residual is over `max_residual_ns`:
/// callers then stay with the previous offset.
pub fn fit_observations(obs: &Vec<Observation>, max_residual_ns: u64) -> (fit: Option<ClockOffset>)
    requires
        obs.len() > 0,
    ensures
        exists|cutoff: u64| #[trigger] is_alignment_of(obs@, cutoff, max_residual_ns, fit),
{
    let n = obs.len();
    let mut lats: Vec<u64> = Vec::new();
    let mut i: usize = 0;
    while i < n
        invariant
            n == obs.len(),
            0 <= i <= n,
            lats@ == latencies(obs@.take(i as int)),
        decreases n - i,
    {
        lats.push(obs[i].latency());
        i = i + 1;
        proof {
            assert(lats@ =~= latencies(obs@.take(i as int)));
        }
    }
    proof {
        assert(obs@.take(n as int) =~= obs@);
    }
    let sorted = sort(&lats);
    let rank: usize = (n / 10) * 9 + (n % 10) * 9 / 10;
    let cutoff: u64 = sorted[rank];
    let mut kept: Vec<Pair> = Vec::new();
    let mut i: usize = 0;
    while i < n
        invariant
            n == obs.len(),
            0 <= i <= n,
            kept@ == pairs_within(obs@.take(i as int), cutoff),
        decreases n - i,
    {
        proof {
            let upto = obs@.take(i + 1);
            assert(upto.drop_last() =~= obs@.take(i as int));
            assert(upto.last() == obs@[i as int]);
        }
        if obs[i].latency() <= cutoff {
            kept.push(obs[i].pair());
        }
        i = i + 1;
    }
    let fit = fit_theil_sen(kept.as_slice());
    let out = match fit {
        Some(c) => if c.residual_max_ns <= max_residual_ns {
            Some(c)
        } else {
            None
        },
        None => None,
    };
    proof {
        assert(is_cutoff(obs@, cutoff));
        assert(is_alignment_of(obs@, cutoff, max_residual_ns, out));
    }
    out
}

/// Reads both clocks `n` times and fits what was read.
pub fn measure(src: &dyn SourceClock, n: usize, max_residual_ns: u64) -> (fit: Option<
    ClockOffset,
>)
    requires
        n > 0,
    ensures
        exists|obs: Seq<Observation>, cutoff: u64|
            obs.len() == n && #[trigger] is_alignment_of(obs, cutoff, max_residual_ns, fit)
                && forall|i: int|
                0 <= i < obs.len() ==> src.may_read((#[trigger] obs[i]).src_ns),
{
    let mut obs: Vec<Observation> = Vec::new();
    while obs.len() < n
        invariant
            obs.len() <= n,
            forall|i: int| 0 <= i < obs.len() ==> src.may_read((#[trigger] obs[i]).src_ns),
        decreases n - obs.len(),
    {
        let before_ns = host_realtime_ns();
        let src_ns = src.read_ns();
        let after_ns = host_realtime_ns();
        obs.push(Observation { before_ns, src_ns, after_ns });
    }
    fit_observations(&obs, max_residual_ns)
}

/// A source clock that is the host's own.
pub struct HostClock;

impl SourceClock for HostClock {
    #[inline]
    fn read_ns(&self) -> u64 {
        host_realtime_ns()
    }
}

/// The offset in force, written by clock alignment and read for every event.
#[derive(Debug)]
pub struct OffsetHandle {
    inner: ClockOffset,
}

impl View for OffsetHandle {
    type V = ClockOffset;

    closed spec fn view(&self) -> ClockOffset {
        self.inner
    }
}

impl OffsetHandle {
    pub fn new(initial: ClockOffset) -> (handle: Self)
        ensures
            handle@ == initial,
    {
        OffsetHandle { inner: initial }
    }

    #[inline]
    pub fn current(&self) -> (c: ClockOffset)
        ensures
            c == self@,
    {
        self.inner
    }

    pub fn set(&mut self, c: ClockOffset)
        ensures
            final(self)@ == c,
    {
        self.inner = c;
    }
}

impl Default for OffsetHandle {
    fn default() -> (handle: Self)
        ensures
            handle@ == (ClockOffset {
                offset_ns: 0,
                slope_num: 1,
                slope_den: 1,
                residual_max_ns: 0,
                fitted_at_host_ns: 0,
            }),
    {
        Self::new(ClockOffset::identity())
    }
}

/// As many pairs lie within the cutoff as latencies do.
proof fn lemma_pairs_are_counted(obs: Seq<Observation>, cutoff: u64)
    ensures
        pairs_within(obs, cutoff).len() == count_at_most(latencies(obs), cutoff),
    decreases obs.len(),
{
    if obs.len() > 0 {
        lemma_pairs_are_counted(obs.drop_last(), cutoff);
        assert(latencies(obs).drop_last() =~= latencies(obs.drop_last()));
    }
}

/// Fewer than a tenth of the observations is left out of a fit.
pub proof fn most_observations_count(obs: Seq<Observation>, cutoff: u64)
    requires
        is_cutoff(obs, cutoff),
    ensures
        10 * (obs.len() - pairs_within(obs, cutoff).len()) < obs.len(),
{
    lemma_pairs_are_counted(obs, cutoff);
    order_statistic_has_rank(latencies(obs), obs.len() as int * 9 / 10, cutoff);
}

/// A pair puts the source reading at the middle of the two host readings, rounded
/// down: no later than the second and no earlier than the first.
pub proof fn pairs_take_the_middle(o: Observation)
    requires
        o.before_ns <= o.after_ns,
    ensures
        o.pair_spec().src_ns == o.src_ns,
        o.before_ns <= o.pair_spec().host_ns <= o.after_ns,
        0 <= o.before_ns + o.after_ns - 2 * o.pair_spec().host_ns <= 1,
        o.latency_spec() == o.after_ns - o.before_ns,
{
}

/// The pairs that are fitted are those of the observations within the cutoff, in
/// order.
pub proof fn fits_use_every_quick_observation(obs: Seq<Observation>, cutoff: u64)
    ensures
        pairs_within(obs, cutoff) == obs.filter(
            |o: Observation| o.latency_spec() <= cutoff,
        ).map_values(|o: Observation| o.pair_spec()),
    decreases obs.len(),
{
    reveal(Seq::filter);
    let quick = |o: Observation| o.latency_spec() <= cutoff;
    let pair = |o: Observation| o.pair_spec();
    if obs.len() > 0 {
        let front = obs.drop_last();
        fits_use_every_quick_observation(front, cutoff);
        if quick(obs.last()) {
            assert(front.filter(quick).push(obs.last()).map_values(pair) =~= front.filter(
                quick,
            ).map_values(pair).push(obs.last().pair_spec()));
        }
    } else {
        assert(obs.filter(quick).map_values(pair) =~= Seq::<Pair>::empty());
    }
}

} // verus!
