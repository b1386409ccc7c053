//! What the control plane asks of the database, and what it makes of the answers.

use crate::filters::decimals;
use crate::model::{KernelSol, ProfileRequest};
use crate::text::{append_decimal, decimal, joined};
use vstd::prelude::*;
use vstd::string::StringExecFns;

verus! {

#[derive(Debug, Clone)]
pub struct Node {
    pub node_id: u32,
    pub hostname: String,
    pub agent_version: String,
    pub num_gpus: u8,
    pub last_seen_ns: u64,
}

#[derive(Debug, Clone)]
pub struct StringEntry {
    pub id: u64,
    pub text: String,
}

#[derive(Copy, Clone, Debug, PartialEq, Eq, Structural)]
pub struct CorrelatedEvent {
    pub ts_ns: u64,
    pub duration_ns: u64,
    pub gpu_id: u8,
    pub category: u8,
    pub name_id: u64,
    pub pid: u32,
    pub stream_id: u32,
}

#[derive(Debug, Clone)]
pub struct TopKernelsInWindow {
    pub name_id: u64,
    pub name: String,
    pub total_duration_ns: u64,
    pub launches: u64,
    pub mean_duration_ns: u64,
}

/// What held a GPU up around a spike.
#[derive(Copy, Clone, Debug, PartialEq, Eq, Structural)]
pub enum Bottleneck {
    ComputeBound,
    MemoryBound,
    Unclassified,
}

/// A card as it is shown; numbers are single-precision bits.
#[derive(Debug, Clone)]
pub struct SolColumns {
    pub sm_active_pct: u32,
    pub achieved_occupancy_pct: u32,
    pub dram_bw_pct: u32,
    pub l1_bw_pct: u32,
    pub l2_bw_pct: u32,
    pub inst_throughput_pct: u32,
    pub arithmetic_intensity: u32,
    pub achieved_gflops: u32,
    pub bound: String,
    pub confidence: String,
    pub source: String,
}

/// A kernel near a spike, with its card if it has one.
#[derive(Debug, Clone)]
pub struct KernelInWindow {
    pub correlation_id: u64,
    pub name_id: u64,
    pub name: String,
    pub ts_ns: u64,
    pub duration_ns: u64,
    pub gpu_id: u8,
    pub sol: Option<SolColumns>,
}

/// A kernel near a spike as the database returns it. The card columns mean
/// nothing when `sol_rows` is zero.
#[derive(Debug, Clone)]
pub struct KernelRow {
    pub correlation_id: u64,
    pub name_id: u64,
    pub name: String,
    pub ts_ns: u64,
    pub duration_ns: u64,
    pub gpu_id: u8,
    pub sol: SolColumns,
    pub sol_rows: u64,
}

/// Everything needed to explain a spike; averages are the bits of doubles.
#[derive(Debug, Clone)]
pub struct SpikeContext {
    pub bucket_start_ns: u64,
    pub bucket_width_ns: u64,
    pub gpu_id: u8,
    pub metric_id: u64,
    pub metric_name: String,
    pub bottleneck: Bottleneck,
    pub avg_mem_util_bits: u64,
    pub avg_gpu_util_bits: u64,
    pub top_kernels: Vec<TopKernelsInWindow>,
    pub kernels_in_window: Vec<KernelInWindow>,
}

/// The outcome of a replay request.
#[derive(Debug, Clone)]
pub struct ProfileKernelsAck {
    pub node_id: u32,
    pub requested: u32,
    pub completed: u32,
    pub results: Vec<SolColumns>,
}

/// Time added on both sides of a spike's bucket.
pub const SPIKE_PAD_NS: u64 = 500_000_000;

/// How long a replay may take unless the caller says otherwise.
pub const REPLAY_TIMEOUT_MS: u32 = 5_000;

/// The most kernels that a ranking lists.
pub const MAX_TOP_KERNELS: u32 = 32;

/// Reads of the database.
pub struct Query;

/// Changes and actions.
pub struct Mutation;

/// Lists every node.
pub const NODES_QUERY: &'static str = "SELECT node_id, hostname, agent_version, num_gpus, last_seen_ns FROM nodes FINAL ORDER BY node_id";

pub const STRINGS_QUERY_0: &'static str = "SELECT id, text FROM strings FINAL WHERE id IN (";

pub const STRINGS_QUERY_1: &'static str = ")";

/// The texts behind some ids.
pub open spec fn strings_query(ids: Seq<char>) -> Seq<char> {
    STRINGS_QUERY_0@ + ids + STRINGS_QUERY_1@
}

pub fn strings_query_sql(ids: &str) -> (sql: String)
    ensures
        sql@ == strings_query(ids@),
{
    let mut sql = STRINGS_QUERY_0.to_string();
    sql.append(ids);
    sql.append(STRINGS_QUERY_1);
    sql
}

pub const SPIKES_QUERY_0: &'static str = "
            SELECT bucket_start_ns, bucket_width_ns, node_id, gpu_id,
                   metric_id, value, median, mad, z_mad
            FROM spikes
            WHERE bucket_start_ns >= ";

pub const SPIKES_QUERY_1: &'static str = "
              AND bucket_start_ns <  ";

pub const SPIKES_QUERY_2: &'static str = "
              AND z_mad >= 3.5
            ORDER BY bucket_start_ns
            LIMIT 1000
            ";

/// The spikes in a time range, most prominent ones only.
pub open spec fn spikes_query(start_ns: nat, end_ns: nat) -> Seq<char> {
    SPIKES_QUERY_0@ + decimal(start_ns) + SPIKES_QUERY_1@ + decimal(end_ns) + SPIKES_QUERY_2@
}

pub fn spikes_query_sql(start_ns: u64, end_ns: u64) -> (sql: String)
    ensures
        sql@ == spikes_query(start_ns as nat, end_ns as nat),
{
    let mut sql = SPIKES_QUERY_0.to_string();
    append_decimal(&mut sql, start_ns);
    sql.append(SPIKES_QUERY_1);
    append_decimal(&mut sql, end_ns);
    sql.append(SPIKES_QUERY_2);
    sql
}

pub const CORRELATED_QUERY_0: &'static str = "
            SELECT ts_ns, duration_ns, gpu_id, toUInt8(category) AS category,
                   name_id, pid, stream_id
            FROM events
            WHERE correlation_id = ";

pub const CORRELATED_QUERY_1: &'static str = "
            ORDER BY ts_ns
            LIMIT 64
            ";

/// The events that share a correlation id.
pub open spec fn correlated_query(correlation_id: nat) -> Seq<char> {
    CORRELATED_QUERY_0@ + decimal(correlation_id) + CORRELATED_QUERY_1@
}

pub fn correlated_query_sql(correlation_id: u64) -> (sql: String)
    ensures
        sql@ == correlated_query(correlation_id as nat),
{
    let mut sql = CORRELATED_QUERY_0.to_string();
    append_decimal(&mut sql, correlation_id);
    sql.append(CORRELATED_QUERY_1);
    sql
}

pub const TOP_KERNELS_QUERY_0: &'static str = "
            SELECT
                name_id,
                any(s.text) AS name,
                sum(duration_ns) AS total_duration_ns,
                count()          AS launches,
                toUInt64(avg(duration_ns)) AS mean_duration_ns
            FROM events AS e
            LEFT JOIN strings AS s FINAL ON s.id = e.name_id
            WHERE category = 'KERNEL'
              AND ts_ns >= ";

pub const TOP_KERNELS_QUERY_1: &'static str = "
              AND ts_ns <  ";

pub const TOP_KERNELS_QUERY_2: &'static str = "
              ";

pub const TOP_KERNELS_QUERY_3: &'static str = "
            GROUP BY name_id
            ORDER BY total_duration_ns DESC
            LIMIT ";

pub const TOP_KERNELS_QUERY_4: &'static str = "
            ";

/// The kernels that took the most time in a window.
pub open spec fn top_kernels_query(
    start_ns: nat,
    end_ns: nat,
    gpu_clause: Seq<char>,
    limit: nat,
) -> Seq<char> {
    TOP_KERNELS_QUERY_0@ + decimal(start_ns) + TOP_KERNELS_QUERY_1@ + decimal(end_ns)
        + TOP_KERNELS_QUERY_2@ + gpu_clause + TOP_KERNELS_QUERY_3@ + decimal(limit)
        + TOP_KERNELS_QUERY_4@
}

pub fn top_kernels_query_sql(
    start_ns: u64,
    end_ns: u64,
    gpu_clause: &str,
    limit: u32,
) -> (sql: String)
    ensures
        sql@ == top_kernels_query(start_ns as nat, end_ns as nat, gpu_clause@, limit as nat),
{
    let mut sql = TOP_KERNELS_QUERY_0.to_string();
    append_decimal(&mut sql, start_ns);
    sql.append(TOP_KERNELS_QUERY_1);
    append_decimal(&mut sql, end_ns);
    sql.append(TOP_KERNELS_QUERY_2);
    sql.append(gpu_clause);
    sql.append(TOP_KERNELS_QUERY_3);
    append_decimal(&mut sql, limit as u64);
    sql.append(TOP_KERNELS_QUERY_4);
    sql
}

pub const METRIC_NAME_QUERY_0: &'static str = "SELECT text FROM strings FINAL WHERE id = ";

pub const METRIC_NAME_QUERY_1: &'static str = " LIMIT 1";

/// The name behind a metric id.
pub open spec fn metric_name_query(metric_id: nat) -> Seq<char> {
    METRIC_NAME_QUERY_0@ + decimal(metric_id) + METRIC_NAME_QUERY_1@
}

pub fn metric_name_query_sql(metric_id: u64) -> (sql: String)
    ensures
        sql@ == metric_name_query(metric_id as nat),
{
    let mut sql = METRIC_NAME_QUERY_0.to_string();
    append_decimal(&mut sql, metric_id);
    sql.append(METRIC_NAME_QUERY_1);
    sql
}

pub const UTILIZATION_QUERY_0: &'static str = "
            SELECT
              avgIf(value, name_id IN (SELECT id FROM strings FINAL WHERE text IN ('gpu.util.percent','gpu_util'))) AS avg_gpu_util,
              avgIf(value, name_id IN (SELECT id FROM strings FINAL WHERE text IN ('gpu.mem.util.percent','mem_util'))) AS avg_mem_util
            FROM events
            WHERE category = 'METRIC'
              AND gpu_id = ";

pub const UTILIZATION_QUERY_1: &'static str = "
              AND ts_ns >= ";

pub const UTILIZATION_QUERY_2: &'static str = "
              AND ts_ns <  ";

pub const UTILIZATION_QUERY_3: &'static str = "
            ";

/// The mean utilization of a GPU in a window. Both the present and the former
/// metric names count.
pub open spec fn utilization_query(gpu_id: nat, win_start: nat, win_end: nat) -> Seq<char> {
    UTILIZATION_QUERY_0@ + decimal(gpu_id) + UTILIZATION_QUERY_1@ + decimal(win_start)
        + UTILIZATION_QUERY_2@ + decimal(win_end) + UTILIZATION_QUERY_3@
}

pub fn utilization_query_sql(gpu_id: u8, win_start: u64, win_end: u64) -> (sql: String)
    ensures
        sql@ == utilization_query(gpu_id as nat, win_start as nat, win_end as nat),
{
    let mut sql = UTILIZATION_QUERY_0.to_string();
    append_decimal(&mut sql, gpu_id as u64);
    sql.append(UTILIZATION_QUERY_1);
    append_decimal(&mut sql, win_start);
    sql.append(UTILIZATION_QUERY_2);
    append_decimal(&mut sql, win_end);
    sql.append(UTILIZATION_QUERY_3);
    sql
}

pub const SPIKE_KERNELS_QUERY_0: &'static str = "
            SELECT
                name_id,
                any(s.text) AS name,
                sum(duration_ns) AS total_duration_ns,
                count()          AS launches,
                toUInt64(avg(duration_ns)) AS mean_duration_ns
            FROM events AS e
            LEFT JOIN strings AS s FINAL ON s.id = e.name_id
            WHERE category = 'KERNEL'
              AND gpu_id = ";

pub const SPIKE_KERNELS_QUERY_1: &'static str = "
              AND ts_ns >= ";

pub const SPIKE_KERNELS_QUERY_2: &'static str = "
              AND ts_ns <  ";

pub const SPIKE_KERNELS_QUERY_3: &'static str = "
            GROUP BY name_id
            ORDER BY total_duration_ns DESC
            LIMIT 3
            ";

/// The three kernels that took the most time on a GPU in a window.
pub open spec fn spike_kernels_query(gpu_id: nat, win_start: nat, win_end: nat) -> Seq<char> {
    SPIKE_KERNELS_QUERY_0@ + decimal(gpu_id) + SPIKE_KERNELS_QUERY_1@ + decimal(win_start)
        + SPIKE_KERNELS_QUERY_2@ + decimal(win_end) + SPIKE_KERNELS_QUERY_3@
}

pub fn spike_kernels_query_sql(gpu_id: u8, win_start: u64, win_end: u64) -> (sql: String)
    ensures
        sql@ == spike_kernels_query(gpu_id as nat, win_start as nat, win_end as nat),
{
    let mut sql = SPIKE_KERNELS_QUERY_0.to_string();
    append_decimal(&mut sql, gpu_id as u64);
    sql.append(SPIKE_KERNELS_QUERY_1);
    append_decimal(&mut sql, win_start);
    sql.append(SPIKE_KERNELS_QUERY_2);
    append_decimal(&mut sql, win_end);
    sql.append(SPIKE_KERNELS_QUERY_3);
    sql
}

pub const WINDOW_KERNELS_QUERY_0: &'static str = "
            SELECT
                e.correlation_id    AS correlation_id,
                e.name_id           AS name_id,
                coalesce(s.text,'') AS name,
                e.ts_ns             AS ts_ns,
                e.duration_ns       AS duration_ns,
                e.gpu_id            AS gpu_id,
                argMax(k.sm_active_pct,          k.confidence) AS sm,
                argMax(k.achieved_occupancy_pct, k.confidence) AS occ,
                argMax(k.dram_bw_pct,            k.confidence) AS dram,
                argMax(k.l1_bw_pct,              k.confidence) AS l1,
                argMax(k.l2_bw_pct,              k.confidence) AS l2,
                argMax(k.inst_throughput_pct,    k.confidence) AS inst,
                argMax(k.arithmetic_intensity,   k.confidence) AS ai,
                argMax(k.achieved_gflops,        k.confidence) AS gflops,
                argMax(toString(k.bound),        k.confidence) AS bound,
                argMax(toString(k.confidence),   k.confidence) AS confidence,
                argMax(toString(k.source),       k.confidence) AS source,
                count(k.correlation_id)                        AS sol_rows
            FROM events AS e
            LEFT JOIN strings    AS s FINAL ON s.id = e.name_id
            LEFT JOIN kernel_sol AS k        ON k.correlation_id = e.correlation_id
            WHERE e.category = 'KERNEL'
              AND e.gpu_id = ";

pub const WINDOW_KERNELS_QUERY_1: &'static str = "
              AND e.ts_ns >= ";

pub const WINDOW_KERNELS_QUERY_2: &'static str = "
              AND e.ts_ns <  ";

pub const WINDOW_KERNELS_QUERY_3: &'static str = "
            GROUP BY e.correlation_id, e.name_id, s.text, e.ts_ns, e.duration_ns, e.gpu_id
            ORDER BY e.duration_ns DESC
            LIMIT 32
            ";

/// The longest kernels on a GPU in a window, each with its best card.
pub open spec fn window_kernels_query(gpu_id: nat, win_start: nat, win_end: nat) -> Seq<char> {
    WINDOW_KERNELS_QUERY_0@ + decimal(gpu_id) + WINDOW_KERNELS_QUERY_1@ + decimal(win_start)
        + WINDOW_KERNELS_QUERY_2@ + decimal(win_end) + WINDOW_KERNELS_QUERY_3@
}

pub fn window_kernels_query_sql(gpu_id: u8, win_start: u64, win_end: u64) -> (sql: String)
    ensures
        sql@ == window_kernels_query(gpu_id as nat, win_start as nat, win_end as nat),
{
    let mut sql = WINDOW_KERNELS_QUERY_0.to_string();
    append_decimal(&mut sql, gpu_id as u64);
    sql.append(WINDOW_KERNELS_QUERY_1);
    append_decimal(&mut sql, win_start);
    sql.append(WINDOW_KERNELS_QUERY_2);
    append_decimal(&mut sql, win_end);
    sql.append(WINDOW_KERNELS_QUERY_3);
    sql
}

/// The ids in decimal, with commas between.
pub open spec fn id_list(ids: Seq<u64>) -> Seq<char> {
    joined(decimals(ids.map_values(|i: u64| i as nat)), ","@)
}

/// The clause that keeps one GPU, if one is asked for.
pub open spec fn gpu_clause(gpu_id: Option<u8>) -> Seq<char> {
    match gpu_id {
        Some(g) => " AND gpu_id = "@ + decimal(g as nat),
        None => Seq::empty(),
    }
}

/// How many kernels a ranking lists: three unless asked otherwise, and never
/// more than the maximum.
pub open spec fn ranking_size(limit: Option<u32>) -> u32 {
    match limit {
        Some(n) => if n < MAX_TOP_KERNELS {
            n
        } else {
            MAX_TOP_KERNELS
        },
        None => 3,
    }
}

/// The window around a spike: its bucket with the padding on both sides, cut off
/// at the ends of time.
pub open spec fn spike_window_of(bucket_start_ns: u64, bucket_width_ns: u64) -> (u64, u64) {
    let start = bucket_start_ns - SPIKE_PAD_NS;
    let end = bucket_start_ns + bucket_width_ns + SPIKE_PAD_NS;
    (
        if start < 0 {
            0
        } else {
            start as u64
        },
        if end > u64::MAX {
            u64::MAX
        } else {
            end as u64
        },
    )
}

/// The name shown for a metric whose name is not known.
pub open spec fn nameless_metric(metric_id: u64) -> Seq<char> {
    "metric#"@ + decimal(metric_id as nat)
}

/// What held the GPU up: memory if it leads and is busy, else compute if it
/// leads and is busy.
pub open spec fn bottleneck_of(
    mem_leads: bool,
    mem_busy: bool,
    gpu_leads: bool,
    gpu_busy: bool,
) -> Bottleneck {
    if mem_leads && mem_busy {
        Bottleneck::MemoryBound
    } else if gpu_leads && gpu_busy {
        Bottleneck::ComputeBound
    } else {
        Bottleneck::Unclassified
    }
}

/// A kernel as it is shown: the card counts only if there is one.
pub open spec fn shown(r: KernelRow) -> KernelInWindow {
    KernelInWindow {
        correlation_id: r.correlation_id,
        name_id: r.name_id,
        name: r.name,
        ts_ns: r.ts_ns,
        duration_ns: r.duration_ns,
        gpu_id: r.gpu_id,
        sol: if r.sol_rows > 0 {
            Some(r.sol)
        } else {
            None
        },
    }
}

/// Mean utilization around a spike. The comparisons are made where the doubles
/// are.
#[derive(Copy, Clone, Debug, PartialEq, Eq, Structural)]
pub struct Utilization {
    pub avg_gpu_util_bits: u64,
    pub avg_mem_util_bits: u64,
    /// Memory is over compute by a fifth.
    pub mem_leads: bool,
    /// Memory is over five percent.
    pub mem_busy: bool,
    /// Compute is over memory by a fifth.
    pub gpu_leads: bool,
    /// Compute is over twenty percent.
    pub gpu_busy: bool,
}

impl Query {
    /// The texts behind some ids; nothing to ask without ids.
    pub fn strings(&self, ids: &Vec<u64>) -> (sql: Option<String>)
        ensures
            match sql {
                Some(s) => ids@.len() > 0 && s@ == strings_query(id_list(ids@)),
                None => ids@.len() == 0,
            },
    {
        if ids.len() == 0 {
            return None;
        }
        let mut list = String::new();
        let mut i: usize = 0;
        proof {
            assert(decimals(ids@.take(0).map_values(|i: u64| i as nat)) =~= Seq::<Seq<char>>::empty());
        }
        while i < ids.len()
            invariant
                0 <= i <= ids.len(),
                list@ == id_list(ids@.take(i as int)),
            decreases ids.len() - i,
        {
            if i > 0 {
                list.append(",");
            }
            append_decimal(&mut list, ids[i]);
            proof {
                let before = decimals(ids@.take(i as int).map_values(|i: u64| i as nat));
                let after = decimals(ids@.take(i + 1).map_values(|i: u64| i as nat));
                let last = decimal(ids@[i as int] as nat);
                assert(after =~= before.push(last));
                assert(before.push(last).drop_last() =~= before);
                assert(Seq::<char>::empty() + last =~= last);
            }
            i = i + 1;
        }
        proof {
            assert(ids@.take(ids.len() as int) =~= ids@);
        }
        Some(strings_query_sql(list.as_str()))
    }

    pub fn spikes(&self, start_ns: u64, end_ns: u64) -> (sql: String)
        ensures
            sql@ == spikes_query(start_ns as nat, end_ns as nat),
    {
        spikes_query_sql(start_ns, end_ns)
    }

    pub fn correlated(&self, correlation_id: u64) -> (sql: String)
        ensures
            sql@ == correlated_query(correlation_id as nat),
    {
        correlated_query_sql(correlation_id)
    }

    pub fn top_kernels_in_window(
        &self,
        start_ns: u64,
        end_ns: u64,
        gpu_id: Option<u8>,
        limit: Option<u32>,
    ) -> (sql: String)
        ensures
            sql@ == top_kernels_query(
                start_ns as nat,
                end_ns as nat,
                gpu_clause(gpu_id),
                ranking_size(limit) as nat,
            ),
    {
        let n: u32 = match limit {
            Some(n) => if n < MAX_TOP_KERNELS {
                n
            } else {
                MAX_TOP_KERNELS
            },
            None => 3,
        };
        let clause = match gpu_id {
            Some(g) => {
                let mut c = " AND gpu_id = ".to_string();
                append_decimal(&mut c, g as u64);
                c
            },
            None => String::new(),
        };
        top_kernels_query_sql(start_ns, end_ns, clause.as_str(), n)
    }

    /// The four queries that explain a spike.
    pub fn spike_queries(
        &self,
        bucket_start_ns: u64,
        bucket_width_ns: u64,
        gpu_id: u8,
        metric_id: u64,
    ) -> (q: SpikeQueries)
        ensures
            ({
                let (start, end) = spike_window_of(bucket_start_ns, bucket_width_ns);
                let (g, s, e) = (gpu_id as nat, start as nat, end as nat);
                &&& q.metric_name@ == metric_name_query(metric_id as nat)
                &&& q.utilization@ == utilization_query(g, s, e)
                &&& q.top_kernels@ == spike_kernels_query(g, s, e)
                &&& q.kernels_in_window@ == window_kernels_query(g, s, e)
            }),
    {
        let (start, end) = spike_window(bucket_start_ns, bucket_width_ns);
        SpikeQueries {
            metric_name: metric_name_query_sql(metric_id),
            utilization: utilization_query_sql(gpu_id, start, end),
            top_kernels: spike_kernels_query_sql(gpu_id, start, end),
            kernels_in_window: window_kernels_query_sql(gpu_id, start, end),
        }
    }

    /// Puts together what the queries found.
    pub fn spike_context(
        &self,
        bucket_start_ns: u64,
        bucket_width_ns: u64,
        gpu_id: u8,
        metric_id: u64,
        found: SpikeAnswers,
    ) -> (ctx: SpikeContext)
        ensures
            ctx.bucket_start_ns == bucket_start_ns,
            ctx.bucket_width_ns == bucket_width_ns,
            ctx.gpu_id == gpu_id,
            ctx.metric_id == metric_id,
            ctx.metric_name@ == match found.metric_name {
                Some(name) => name@,
                None => nameless_metric(metric_id),
            },
            ctx.bottleneck == bottleneck_of(
                found.utilization.mem_leads,
                found.utilization.mem_busy,
                found.utilization.gpu_leads,
                found.utilization.gpu_busy,
            ),
            ctx.avg_mem_util_bits == found.utilization.avg_mem_util_bits,
            ctx.avg_gpu_util_bits == found.utilization.avg_gpu_util_bits,
            ctx.top_kernels == found.top_kernels,
            ctx.kernels_in_window@ == found.kernels@.map_values(|r: KernelRow| shown(r)),
    {
        let SpikeAnswers { metric_name, utilization, top_kernels, kernels } = found;
        let metric_name = match metric_name {
            Some(name) => name,
            None => {
                let mut name = "metric#".to_string();
                append_decimal(&mut name, metric_id);
                name
            },
        };
        SpikeContext {
            bucket_start_ns,
            bucket_width_ns,
            gpu_id,
            metric_id,
            metric_name,
            bottleneck: classify_bottleneck(&utilization),
            avg_mem_util_bits: utilization.avg_mem_util_bits,
            avg_gpu_util_bits: utilization.avg_gpu_util_bits,
            top_kernels,
            kernels_in_window: show_all(kernels),
        }
    }
}

/// The queries that explain a spike.
#[derive(Debug, Clone)]
pub struct SpikeQueries {
    pub metric_name: String,
    pub utilization: String,
    pub top_kernels: String,
    pub kernels_in_window: String,
}

/// What those queries found.
#[derive(Debug, Clone)]
pub struct SpikeAnswers {
    pub metric_name: Option<String>,
    pub utilization: Utilization,
    pub top_kernels: Vec<TopKernelsInWindow>,
    pub kernels: Vec<KernelRow>,
}

/// The window around a spike.
pub fn spike_window(bucket_start_ns: u64, bucket_width_ns: u64) -> (w: (u64, u64))
    ensures
        w == spike_window_of(bucket_start_ns, bucket_width_ns),
{
    (
        bucket_start_ns.saturating_sub(SPIKE_PAD_NS),
        bucket_start_ns.saturating_add(bucket_width_ns).saturating_add(SPIKE_PAD_NS),
    )
}

fn classify_bottleneck(u: &Utilization) -> (b: Bottleneck)
    ensures
        b == bottleneck_of(u.mem_leads, u.mem_busy, u.gpu_leads, u.gpu_busy),
{
    if u.mem_leads && u.mem_busy {
        Bottleneck::MemoryBound
    } else if u.gpu_leads && u.gpu_busy {
        Bottleneck::ComputeBound
    } else {
        Bottleneck::Unclassified
    }
}

fn show_all(rows: Vec<KernelRow>) -> (out: Vec<KernelInWindow>)
    ensures
        out@ == rows@.map_values(|r: KernelRow| shown(r)),
{
    let ghost all = rows@;
    let mut out: Vec<KernelInWindow> = Vec::new();
    for r in it: rows.into_iter()
        invariant
            it.seq() == all,
            out@ == all.take(it.index()).map_values(|r: KernelRow| shown(r)),
    {
        let ghost i = it.index();
        let k = KernelInWindow {
            correlation_id: r.correlation_id,
            name_id: r.name_id,
            name: r.name,
            ts_ns: r.ts_ns,
            duration_ns: r.duration_ns,
            gpu_id: r.gpu_id,
            sol: if r.sol_rows > 0 {
                Some(r.sol)
            } else {
                None
            },
        };
        out.push(k);
        proof {
            assert(k == shown(all[i]));
            assert(out@ =~= all.take(i + 1).map_values(|r: KernelRow| shown(r)));
        }
    }
    proof {
        assert(all.take(all.len() as int) =~= all);
    }
    out
}

impl Mutation {
    /// What an agent is asked to replay.
    pub fn profile_request(
        &self,
        gpu_id: u32,
        window_start_ns: u64,
        window_end_ns: u64,
        correlation_ids: Vec<u64>,
        timeout_ms: Option<u32>,
    ) -> (req: ProfileRequest)
        ensures
            req.gpu_id == gpu_id,
            req.window_start_ns == window_start_ns,
            req.window_end_ns == window_end_ns,
            req.correlation_ids == correlation_ids,
            req.name_ids@.len() == 0,
            req.timeout_ms == match timeout_ms {
                Some(ms) => ms,
                None => REPLAY_TIMEOUT_MS,
            },
    {
        ProfileRequest {
            gpu_id,
            window_start_ns,
            window_end_ns,
            correlation_ids,
            name_ids: Vec::new(),
            timeout_ms: match timeout_ms {
                Some(ms) => ms,
                None => REPLAY_TIMEOUT_MS,
            },
        }
    }
}

/// `c` shows card `s`.
pub open spec fn shows_card(s: KernelSol, c: SolColumns) -> bool {
    &&& c.sm_active_pct == s.sm_active_pct
    &&& c.achieved_occupancy_pct == s.achieved_occupancy_pct
    &&& c.dram_bw_pct == s.dram_bw_pct
    &&& c.l1_bw_pct == s.l1_bw_pct
    &&& c.l2_bw_pct == s.l2_bw_pct
    &&& c.inst_throughput_pct == s.inst_throughput_pct
    &&& c.arithmetic_intensity == s.arithmetic_intensity
    &&& c.achieved_gflops == s.achieved_gflops
    &&& c.bound@ == s.bound.name_spec()
    &&& c.confidence@ == s.confidence.name_spec()
    &&& c.source@ == s.source.name_spec()
}

/// A card as it is shown.
pub fn kernel_sol_to_row(s: &KernelSol) -> (c: SolColumns)
    ensures
        shows_card(*s, c),
{
    SolColumns {
        sm_active_pct: s.sm_active_pct,
        achieved_occupancy_pct: s.achieved_occupancy_pct,
        dram_bw_pct: s.dram_bw_pct,
        l1_bw_pct: s.l1_bw_pct,
        l2_bw_pct: s.l2_bw_pct,
        inst_throughput_pct: s.inst_throughput_pct,
        arithmetic_intensity: s.arithmetic_intensity,
        achieved_gflops: s.achieved_gflops,
        bound: s.bound.name().to_string(),
        confidence: s.confidence.name().to_string(),
        source: s.source.name().to_string(),
    }
}

/// The window of a spike holds its bucket, and is wider than it by the padding
/// on each side where time allows.
pub proof fn spike_windows_hold_their_bucket(bucket_start_ns: u64, bucket_width_ns: u64)
    requires
        bucket_start_ns + bucket_width_ns <= u64::MAX,
    ensures
        ({
            let (start, end) = spike_window_of(bucket_start_ns, bucket_width_ns);
            &&& start <= bucket_start_ns
            &&& bucket_start_ns + bucket_width_ns <= end
            &&& SPIKE_PAD_NS <= bucket_start_ns ==> start + SPIKE_PAD_NS == bucket_start_ns
            &&& bucket_start_ns + bucket_width_ns + SPIKE_PAD_NS <= u64::MAX ==> end
                == bucket_start_ns + bucket_width_ns + SPIKE_PAD_NS
        }),
{
}

} // verus!
