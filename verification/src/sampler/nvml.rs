//! NVML metrics: one frame for each GPU and tick.

use crate::intern::{hash, name_id};
use crate::model::{MetricFrame, MetricPoint};
use vstd::prelude::*;

verus! {

/// Reads utilization, memory, power, clocks and throttling.
#[derive(Copy, Clone, Debug, PartialEq, Eq, Structural)]
pub struct NvmlSampler {
    pub node_id: u32,
    pub metric_hz: u32,
}

/// The ids of the metrics.
#[derive(Copy, Clone, Debug, PartialEq, Eq, Structural)]
pub struct MetricIds {
    pub util: u64,
    pub mem_util: u64,
    pub mem_used: u64,
    pub mem_free: u64,
    pub power: u64,
    pub power_limit: u64,
    pub sm_clock: u64,
    pub mem_clock: u64,
    pub temp: u64,
    pub fan: u64,
    pub throttle: u64,
}

impl MetricIds {
    pub fn new() -> (ids: Self)
        ensures
            ids == (MetricIds {
                util: name_id("gpu.util.percent"@),
                mem_util: name_id("gpu.mem.util.percent"@),
                mem_used: name_id("gpu.mem.used.bytes"@),
                mem_free: name_id("gpu.mem.free.bytes"@),
                power: name_id("gpu.power.watts"@),
                power_limit: name_id("gpu.power.limit.watts"@),
                sm_clock: name_id("gpu.sm.clock.hz"@),
                mem_clock: name_id("gpu.mem.clock.hz"@),
                temp: name_id("gpu.temp.celsius"@),
                fan: name_id("gpu.fan.percent"@),
                throttle: name_id("gpu.throttle.reasons.bitmask"@),
            }),
    {
        MetricIds {
            util: hash("gpu.util.percent"),
            mem_util: hash("gpu.mem.util.percent"),
            mem_used: hash("gpu.mem.used.bytes"),
            mem_free: hash("gpu.mem.free.bytes"),
            power: hash("gpu.power.watts"),
            power_limit: hash("gpu.power.limit.watts"),
            sm_clock: hash("gpu.sm.clock.hz"),
            mem_clock: hash("gpu.mem.clock.hz"),
            temp: hash("gpu.temp.celsius"),
            fan: hash("gpu.fan.percent"),
            throttle: hash("gpu.throttle.reasons.bitmask"),
        }
    }
}

/// What one GPU reported, as the bits of doubles; what it does not support is
/// missing.
#[derive(Copy, Clone, Debug)]
pub struct NvmlReadings {
    /// Utilization of the processors and of memory.
    pub util: Option<(u64, u64)>,
    /// Memory used and free.
    pub memory: Option<(u64, u64)>,
    pub power: Option<u64>,
    pub power_limit: Option<u64>,
    pub sm_clock: Option<u64>,
    pub mem_clock: Option<u64>,
    pub temp: Option<u64>,
    pub fan: Option<u64>,
    pub throttle: Option<u64>,
}

/// The point of a reading that is there.
pub open spec fn one_point(metric_id: u64, reading: Option<u64>) -> Seq<MetricPoint> {
    match reading {
        Some(value_bits) => seq![MetricPoint { metric_id, value_bits }],
        None => Seq::empty(),
    }
}

/// The points of a pair of readings that is there.
pub open spec fn two_points(first: u64, second: u64, reading: Option<(u64, u64)>) -> Seq<
    MetricPoint,
> {
    match reading {
        Some((a, b)) => seq![
            MetricPoint { metric_id: first, value_bits: a },
            MetricPoint { metric_id: second, value_bits: b },
        ],
        None => Seq::empty(),
    }
}

/// The points of what was reported, in a fixed order.
pub open spec fn points_of(r: NvmlReadings, ids: MetricIds) -> Seq<MetricPoint> {
    two_points(ids.util, ids.mem_util, r.util) + two_points(ids.mem_used, ids.mem_free, r.memory)
        + one_point(ids.power, r.power) + one_point(ids.power_limit, r.power_limit) + one_point(
        ids.sm_clock,
        r.sm_clock,
    ) + one_point(ids.mem_clock, r.mem_clock) + one_point(ids.temp, r.temp) + one_point(
        ids.fan,
        r.fan,
    ) + one_point(ids.throttle, r.throttle)
}

/// Adds the point of a reading that is there.
pub fn push_point(points: &mut Vec<MetricPoint>, metric_id: u64, reading: Option<u64>)
    ensures
        final(points)@ == old(points)@ + one_point(metric_id, reading),
{
    if let Some(value_bits) = reading {
        points.push(MetricPoint { metric_id, value_bits });
    }
    assert(points@ =~= old(points)@ + one_point(metric_id, reading));
}

/// Adds the points of a pair of readings that is there.
pub fn push_points(
    points: &mut Vec<MetricPoint>,
    first: u64,
    second: u64,
    reading: Option<(u64, u64)>,
)
    ensures
        final(points)@ == old(points)@ + two_points(first, second, reading),
{
    if let Some((a, b)) = reading {
        points.push(MetricPoint { metric_id: first, value_bits: a });
        points.push(MetricPoint { metric_id: second, value_bits: b });
    }
    assert(points@ =~= old(points)@ + two_points(first, second, reading));
}

/// The frame of what one GPU reported.
pub fn build_frame(
    r: &NvmlReadings,
    now_ns: u64,
    gpu_id: u32,
    node_id: u32,
    ids: &MetricIds,
) -> (frame: MetricFrame)
    ensures
        frame.node_id == node_id,
        frame.gpu_id == gpu_id,
        frame.ts_ns == now_ns,
        frame.points@ == points_of(*r, *ids),
{
    let mut points: Vec<MetricPoint> = Vec::new();
    push_points(&mut points, ids.util, ids.mem_util, r.util);
    assert(points@ =~= two_points(ids.util, ids.mem_util, r.util));
    push_points(&mut points, ids.mem_used, ids.mem_free, r.memory);
    push_point(&mut points, ids.power, r.power);
    push_point(&mut points, ids.power_limit, r.power_limit);
    push_point(&mut points, ids.sm_clock, r.sm_clock);
    push_point(&mut points, ids.mem_clock, r.mem_clock);
    push_point(&mut points, ids.temp, r.temp);
    push_point(&mut points, ids.fan, r.fan);
    push_point(&mut points, ids.throttle, r.throttle);
    MetricFrame { node_id, gpu_id, ts_ns: now_ns, points }
}

proof fn lemma_sum_holds(a: Seq<MetricPoint>, b: Seq<MetricPoint>)
    ensures
        forall|p: MetricPoint|
            a.contains(p) || b.contains(p) ==> #[trigger] (a + b).contains(p),
        (a + b).len() == a.len() + b.len(),
{
    assert forall|p: MetricPoint| a.contains(p) || b.contains(p) implies #[trigger] (a
        + b).contains(p) by {
        if a.contains(p) {
            let i = choose|i: int| 0 <= i < a.len() && a[i] == p;
            assert((a + b)[i] == p);
        } else {
            let i = choose|i: int| 0 <= i < b.len() && b[i] == p;
            assert((a + b)[a.len() + i] == p);
        }
    }
}

/// A reading is in the frame under the id of its metric, and what is missing adds
/// no point.
pub proof fn readings_are_reported_under_their_metrics(r: NvmlReadings, ids: MetricIds)
    ensures
        ({
            let ps = points_of(r, ids);
            let says = |id: u64, bits: u64|
                ps.contains(MetricPoint { metric_id: id, value_bits: bits });
            &&& r.util matches Some(u) ==> says(ids.util, u.0) && says(ids.mem_util, u.1)
            &&& r.memory matches Some(m) ==> says(ids.mem_used, m.0) && says(ids.mem_free, m.1)
            &&& r.power matches Some(v) ==> says(ids.power, v)
            &&& r.power_limit matches Some(v) ==> says(ids.power_limit, v)
            &&& r.sm_clock matches Some(v) ==> says(ids.sm_clock, v)
            &&& r.mem_clock matches Some(v) ==> says(ids.mem_clock, v)
            &&& r.temp matches Some(v) ==> says(ids.temp, v)
            &&& r.fan matches Some(v) ==> says(ids.fan, v)
            &&& r.throttle matches Some(v) ==> says(ids.throttle, v)
        }),
{
    let a = two_points(ids.util, ids.mem_util, r.util);
    let b = two_points(ids.mem_used, ids.mem_free, r.memory);
    let c = one_point(ids.power, r.power);
    let d = one_point(ids.power_limit, r.power_limit);
    let e = one_point(ids.sm_clock, r.sm_clock);
    let f = one_point(ids.mem_clock, r.mem_clock);
    let g = one_point(ids.temp, r.temp);
    let h = one_point(ids.fan, r.fan);
    let k = one_point(ids.throttle, r.throttle);
    lemma_sum_holds(a, b);
    lemma_sum_holds(a + b, c);
    lemma_sum_holds(a + b + c, d);
    lemma_sum_holds(a + b + c + d, e);
    lemma_sum_holds(a + b + c + d + e, f);
    lemma_sum_holds(a + b + c + d + e + f, g);
    lemma_sum_holds(a + b + c + d + e + f + g, h);
    lemma_sum_holds(a + b + c + d + e + f + g + h, k);
    if let Some(u) = r.util {
        assert(a[0] == (MetricPoint { metric_id: ids.util, value_bits: u.0 }));
        assert(a[1] == (MetricPoint { metric_id: ids.mem_util, value_bits: u.1 }));
    }
    if let Some(m) = r.memory {
        assert(b[0] == (MetricPoint { metric_id: ids.mem_used, value_bits: m.0 }));
        assert(b[1] == (MetricPoint { metric_id: ids.mem_free, value_bits: m.1 }));
    }
    if let Some(v) = r.power {
        assert(c[0] == (MetricPoint { metric_id: ids.power, value_bits: v }));
    }
    if let Some(v) = r.power_limit {
        assert(d[0] == (MetricPoint { metric_id: ids.power_limit, value_bits: v }));
    }
    if let Some(v) = r.sm_clock {
        assert(e[0] == (MetricPoint { metric_id: ids.sm_clock, value_bits: v }));
    }
    if let Some(v) = r.mem_clock {
        assert(f[0] == (MetricPoint { metric_id: ids.mem_clock, value_bits: v }));
    }
    if let Some(v) = r.temp {
        assert(g[0] == (MetricPoint { metric_id: ids.temp, value_bits: v }));
    }
    if let Some(v) = r.fan {
        assert(h[0] == (MetricPoint { metric_id: ids.fan, value_bits: v }));
    }
    if let Some(v) = r.throttle {
        assert(k[0] == (MetricPoint { metric_id: ids.throttle, value_bits: v }));
    }
}

} // verus!
