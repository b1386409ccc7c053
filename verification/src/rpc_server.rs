//! Answers to replay requests on an agent.
//!
//! Replaying kernels under the profiler needs CUPTI. Without it a synthetic agent
//! answers with plausible cards, and any other agent refuses.

use crate::intern::{hash, name_id};
use crate::model::{Bound, Confidence, ProfileRequest, Source, StallCount};
use vstd::prelude::*;

verus! {

#[derive(Copy, Clone, Debug, PartialEq, Eq, Structural)]
pub struct AgentRpcServer {
    pub synthetic: bool,
}

/// Pause between two cards of an answer.
pub const CARD_PAUSE_MS: u64 = 25;

/// What an agent without CUPTI answers.
pub const REPLAY_UNAVAILABLE: &'static str = "CUPTI_PROFILER_REPLAY_KERNEL not compiled in; rebuild agent with --features cupti-replay";

/// A made-up card. Numbers are in hundredths.
#[derive(Copy, Clone, Debug, PartialEq, Eq, Structural)]
pub struct SyntheticCard {
    pub correlation_id: u64,
    pub sm_active_pct: u32,
    pub achieved_occupancy_pct: u32,
    pub dram_bw_pct: u32,
    pub l1_bw_pct: u32,
    pub l2_bw_pct: u32,
    pub inst_throughput_pct: u32,
    pub theoretical_occupancy_pct: u32,
    pub arithmetic_intensity: u32,
    pub achieved_gflops: u32,
    pub bound: Bound,
    pub confidence: Confidence,
    pub source: Source,
    pub memory_stalls: StallCount,
    pub barrier_stalls: StallCount,
}

/// How far apart single-precision numbers lie at `n`.
pub open spec fn single_step(n: nat) -> nat
    decreases n,
{
    if n < 0x100_0000 {
        1
    } else {
        2 * single_step(n / 2)
    }
}

/// `n` in single precision: the nearest number, and of two the even one.
pub open spec fn as_single(n: nat) -> nat {
    let step = single_step(n);
    let (steps, rest) = (n / step, n % step);
    if 2 * rest > step || 2 * rest == step && steps % 2 == 1 {
        (steps + 1) * step
    } else {
        steps * step
    }
}

fn to_single(n: u128) -> (m: u128)
    requires
        n <= u64::MAX * 16,
    ensures
        m == as_single(n as nat),
        m <= 2 * n,
{
    let mut step: u128 = 1;
    let mut high: u128 = n;
    while high >= 0x100_0000
        invariant
            n <= u64::MAX * 16,
            step >= 1,
            step * high <= n,
            step > 1 ==> step <= n,
            single_step(n as nat) == step * single_step(high as nat),
        decreases high,
    {
        proof {
            let below = single_step((high / 2) as nat) as int;
            let (u, h) = (step as int, high as int);
            assert(u * (2 * below) == (2 * u) * below) by (nonlinear_arith);
            assert((2 * u) * (h / 2) <= u * h && 2 * u <= u * h) by (nonlinear_arith)
                requires
                    u >= 1,
                    h >= 2,
            ;
        }
        step = step * 2;
        high = high / 2;
    }
    assert(single_step(high as nat) == 1 && single_step(n as nat) == step);
    let steps: u128 = n / step;
    let rest: u128 = n % step;
    proof {
        vstd::arithmetic::div_mod::lemma_fundamental_div_mod(n as int, step as int);
        let (q, u) = (steps as int, step as int);
        assert(q * u == u * q && (q + 1) * u == q * u + u && q * u >= 0) by (nonlinear_arith)
            requires
                q >= 0,
                u >= 1,
        ;
        if n == 0 {
            assert(steps == 0 && rest == 0);
        }
        if u == 1 {
            assert(rest == 0);
        }
    }
    if 2 * rest > step || (2 * rest == step && steps % 2 == 1) {
        (steps + 1) * step
    } else {
        steps * step
    }
}

/// The card at position `i` of an answer: bounds take turns, activity rises and
/// memory traffic falls from card to card, each starting over in time. Positions
/// are counted in single precision.
pub open spec fn card_at(i: nat, correlation_id: u64) -> SyntheticCard {
    SyntheticCard {
        correlation_id,
        sm_active_pct: (100 * (35 + as_single(5 * as_single(i)) % 60)) as u32,
        achieved_occupancy_pct: 4_000,
        dram_bw_pct: (100 * (70 - as_single(3 * as_single(i)) % 40)) as u32,
        l1_bw_pct: 2_500,
        l2_bw_pct: 5_000,
        inst_throughput_pct: 6_000,
        theoretical_occupancy_pct: 6_000,
        arithmetic_intensity: 425,
        achieved_gflops: 120_000,
        bound: if i % 4 == 0 {
            Bound::Memory
        } else if i % 4 == 1 {
            Bound::Compute
        } else if i % 4 == 2 {
            Bound::Latency
        } else {
            Bound::Balanced
        },
        confidence: Confidence::High,
        source: Source::Replay,
        memory_stalls: StallCount {
            reason_id: name_id("MemoryThrottle"@) as u32,
            count: 1000,
        },
        barrier_stalls: StallCount { reason_id: name_id("Barrier"@) as u32, count: 250 },
    }
}

/// The ids that a request asks for: correlation ids if it gives any, else names.
pub open spec fn requested_ids(req: ProfileRequest) -> Seq<u64> {
    if req.correlation_ids@.len() > 0 {
        req.correlation_ids@
    } else {
        req.name_ids@
    }
}

/// The cards for some ids.
pub open spec fn cards_for(ids: Seq<u64>) -> Seq<SyntheticCard> {
    ids.map(|i: int, id: u64| card_at(i as nat, id))
}

fn synthetic_card(i: usize, correlation_id: u64) -> (c: SyntheticCard)
    ensures
        c == card_at(i as nat, correlation_id),
{
    let place: u128 = to_single(i as u128);
    let rise: u32 = (to_single(5 * place) % 60) as u32;
    let fall: u32 = (to_single(3 * place) % 40) as u32;
    let turn: u32 = (i % 4) as u32;
    SyntheticCard {
        correlation_id,
        sm_active_pct: 100 * (35 + rise),
        achieved_occupancy_pct: 4_000,
        dram_bw_pct: 100 * (70 - fall),
        l1_bw_pct: 2_500,
        l2_bw_pct: 5_000,
        inst_throughput_pct: 6_000,
        theoretical_occupancy_pct: 6_000,
        arithmetic_intensity: 425,
        achieved_gflops: 120_000,
        bound: if turn == 0 {
            Bound::Memory
        } else if turn == 1 {
            Bound::Compute
        } else if turn == 2 {
            Bound::Latency
        } else {
            Bound::Balanced
        },
        confidence: Confidence::High,
        source: Source::Replay,
        memory_stalls: StallCount { reason_id: hash("MemoryThrottle") as u32, count: 1000 },
        barrier_stalls: StallCount { reason_id: hash("Barrier") as u32, count: 250 },
    }
}

impl AgentRpcServer {
    /// The cards for a request, or why there are none.
    pub fn profile_kernels(&self, req: &ProfileRequest) -> (r: Result<
        Vec<SyntheticCard>,
        &'static str,
    >)
        ensures
            r is Ok <==> self.synthetic,
            r matches Ok(cards) ==> cards@ == cards_for(requested_ids(*req)),
            r matches Err(e) ==> e@ == REPLAY_UNAVAILABLE@,
    {
        if !self.synthetic {
            return Err(REPLAY_UNAVAILABLE);
        }
        let ids = if req.correlation_ids.len() > 0 {
            &req.correlation_ids
        } else {
            &req.name_ids
        };
        let mut cards: Vec<SyntheticCard> = Vec::new();
        let mut i: usize = 0;
        while i < ids.len()
            invariant
                0 <= i <= ids.len(),
                cards@ == cards_for(ids@.take(i as int)),
            decreases ids.len() - i,
        {
            cards.push(synthetic_card(i, ids[i]));
            i = i + 1;
            assert(cards@ =~= cards_for(ids@.take(i as int)));
        }
        assert(ids@.take(ids.len() as int) =~= ids@);
        Ok(cards)
    }
}

/// Made-up cards stay plausible: percentages are between thirty and a hundred.
pub proof fn made_up_cards_are_plausible(i: nat, correlation_id: u64)
    ensures
        3_500 <= card_at(i, correlation_id).sm_active_pct <= 9_500,
        3_000 < card_at(i, correlation_id).dram_bw_pct <= 7_000,
{
}

} // verus!
