//! What the queries of the control plane ask for.

use crate::graphql::{
    bottleneck_of, correlated_query, gpu_clause, id_list, metric_name_query, ranking_size, shown,
    shows_card, spike_kernels_query, spike_window_of, spikes_query, strings_query,
    top_kernels_query, utilization_query, window_kernels_query, Bottleneck, KernelRow, SolColumns,
    CORRELATED_QUERY_0, CORRELATED_QUERY_1,
    SPIKES_QUERY_0, SPIKES_QUERY_1, SPIKES_QUERY_2, SPIKE_KERNELS_QUERY_0, SPIKE_KERNELS_QUERY_1,
    SPIKE_KERNELS_QUERY_2, SPIKE_KERNELS_QUERY_3,
    TOP_KERNELS_QUERY_0, TOP_KERNELS_QUERY_1, TOP_KERNELS_QUERY_2, TOP_KERNELS_QUERY_3,
    TOP_KERNELS_QUERY_4, UTILIZATION_QUERY_0, UTILIZATION_QUERY_1, UTILIZATION_QUERY_2,
    UTILIZATION_QUERY_3, WINDOW_KERNELS_QUERY_0, WINDOW_KERNELS_QUERY_1, WINDOW_KERNELS_QUERY_2,
    WINDOW_KERNELS_QUERY_3,
};
use crate::model::KernelSol;
use crate::text::decimal;
use crate::timeline_laws::{ends_with, holds_part, lemma_clause};
use vstd::prelude::*;

verus! {

/// Utilization is averaged over the metrics of the GPU, from the
/// start of the window, inclusive, to its end, exclusive.
pub proof fn utilization_are_of_the_window(gpu_id: nat, start: nat, end: nat)
    ensures
        holds_part(
            utilization_query(gpu_id, start, end),
            "WHERE category = 'METRIC'\n              AND gpu_id = "@ + decimal(gpu_id)
                + "\n              AND ts_ns >= "@ + decimal(start) + "\n              AND ts_ns <  "@
                + decimal(end) + "\n"@,
        ),
{
    let head = UTILIZATION_QUERY_0@;
    let (one, two, rest) = (UTILIZATION_QUERY_1@, UTILIZATION_QUERY_2@, UTILIZATION_QUERY_3@);
    let tail = "WHERE category = 'METRIC'\n              AND gpu_id = "@;
    let (g, a, b) = (decimal(gpu_id), decimal(start), decimal(end));
    reveal_strlit(
        "\n            SELECT\n              avgIf(value, name_id IN (SELECT id FROM strings FINAL WHERE text IN ('gpu.util.percent','gpu_util'))) AS avg_gpu_util,\n              avgIf(value, name_id IN (SELECT id FROM strings FINAL WHERE text IN ('gpu.mem.util.percent','mem_util'))) AS avg_mem_util\n            FROM events\n            WHERE category = 'METRIC'\n              AND gpu_id = ",
    );
    reveal_strlit("WHERE category = 'METRIC'\n              AND gpu_id = ");
    reveal_strlit(
        "\n            ",
    );
    reveal_strlit("\n");
    assert(ends_with(head, tail)) by {
        assert(head.skip(head.len() - tail.len()) =~= tail);
    }
    assert(rest.take(1) =~= "\n"@);
    let mid = one + a + two;
    assert(utilization_query(gpu_id, start, end) =~= head + g + mid + b + rest);
    lemma_clause(head, tail, g, mid, b, rest, "\n"@);
    assert(tail + g + mid + b + "\n"@ =~= tail + g + one + a + two + b + "\n"@);
}

/// The top kernels are those of the GPU, from the
/// start of the window, inclusive, to its end, exclusive.
pub proof fn spike_kernels_are_of_the_window(gpu_id: nat, start: nat, end: nat)
    ensures
        holds_part(
            spike_kernels_query(gpu_id, start, end),
            "WHERE category = 'KERNEL'\n              AND gpu_id = "@ + decimal(gpu_id)
                + "\n              AND ts_ns >= "@ + decimal(start) + "\n              AND ts_ns <  "@
                + decimal(end) + "\n"@,
        ),
{
    let head = SPIKE_KERNELS_QUERY_0@;
    let (one, two, rest) = (SPIKE_KERNELS_QUERY_1@, SPIKE_KERNELS_QUERY_2@, SPIKE_KERNELS_QUERY_3@);
    let tail = "WHERE category = 'KERNEL'\n              AND gpu_id = "@;
    let (g, a, b) = (decimal(gpu_id), decimal(start), decimal(end));
    reveal_strlit(
        "\n            SELECT\n                name_id,\n                any(s.text) AS name,\n                sum(duration_ns) AS total_duration_ns,\n                count()          AS launches,\n                toUInt64(avg(duration_ns)) AS mean_duration_ns\n            FROM events AS e\n            LEFT JOIN strings AS s FINAL ON s.id = e.name_id\n            WHERE category = 'KERNEL'\n              AND gpu_id = ",
    );
    reveal_strlit("WHERE category = 'KERNEL'\n              AND gpu_id = ");
    reveal_strlit(
        "\n            GROUP BY name_id\n            ORDER BY total_duration_ns DESC\n            LIMIT 3\n            ",
    );
    reveal_strlit("\n");
    assert(ends_with(head, tail)) by {
        assert(head.skip(head.len() - tail.len()) =~= tail);
    }
    assert(rest.take(1) =~= "\n"@);
    let mid = one + a + two;
    assert(spike_kernels_query(gpu_id, start, end) =~= head + g + mid + b + rest);
    lemma_clause(head, tail, g, mid, b, rest, "\n"@);
    assert(tail + g + mid + b + "\n"@ =~= tail + g + one + a + two + b + "\n"@);
}

/// The kernels listed are those of the GPU, from the
/// start of the window, inclusive, to its end, exclusive.
pub proof fn window_kernels_are_of_the_window(gpu_id: nat, start: nat, end: nat)
    ensures
        holds_part(
            window_kernels_query(gpu_id, start, end),
            "WHERE e.category = 'KERNEL'\n              AND e.gpu_id = "@ + decimal(gpu_id)
                + "\n              AND e.ts_ns >= "@ + decimal(start) + "\n              AND e.ts_ns <  "@
                + decimal(end) + "\n"@,
        ),
{
    let head = WINDOW_KERNELS_QUERY_0@;
    let (one, two, rest) = (WINDOW_KERNELS_QUERY_1@, WINDOW_KERNELS_QUERY_2@, WINDOW_KERNELS_QUERY_3@);
    let tail = "WHERE e.category = 'KERNEL'\n              AND e.gpu_id = "@;
    let (g, a, b) = (decimal(gpu_id), decimal(start), decimal(end));
    reveal_strlit(
        "\n            SELECT\n                e.correlation_id    AS correlation_id,\n                e.name_id           AS name_id,\n                coalesce(s.text,'') AS name,\n                e.ts_ns             AS ts_ns,\n                e.duration_ns       AS duration_ns,\n                e.gpu_id            AS gpu_id,\n                argMax(k.sm_active_pct,          k.confidence) AS sm,\n                argMax(k.achieved_occupancy_pct, k.confidence) AS occ,\n                argMax(k.dram_bw_pct,            k.confidence) AS dram,\n                argMax(k.l1_bw_pct,              k.confidence) AS l1,\n                argMax(k.l2_bw_pct,              k.confidence) AS l2,\n                argMax(k.inst_throughput_pct,    k.confidence) AS inst,\n                argMax(k.arithmetic_intensity,   k.confidence) AS ai,\n                argMax(k.achieved_gflops,        k.confidence) AS gflops,\n                argMax(toString(k.bound),        k.confidence) AS bound,\n                argMax(toString(k.confidence),   k.confidence) AS confidence,\n                argMax(toString(k.source),       k.confidence) AS source,\n                count(k.correlation_id)                        AS sol_rows\n            FROM events AS e\n            LEFT JOIN strings    AS s FINAL ON s.id = e.name_id\n            LEFT JOIN kernel_sol AS k        ON k.correlation_id = e.correlation_id\n            WHERE e.category = 'KERNEL'\n              AND e.gpu_id = ",
    );
    reveal_strlit("WHERE e.category = 'KERNEL'\n              AND e.gpu_id = ");
    reveal_strlit(
        "\n            GROUP BY e.correlation_id, e.name_id, s.text, e.ts_ns, e.duration_ns, e.gpu_id\n            ORDER BY e.duration_ns DESC\n            LIMIT 32\n            ",
    );
    reveal_strlit("\n");
    assert(ends_with(head, tail)) by {
        assert(head.skip(head.len() - tail.len()) =~= tail);
    }
    assert(rest.take(1) =~= "\n"@);
    let mid = one + a + two;
    assert(window_kernels_query(gpu_id, start, end) =~= head + g + mid + b + rest);
    lemma_clause(head, tail, g, mid, b, rest, "\n"@);
    assert(tail + g + mid + b + "\n"@ =~= tail + g + one + a + two + b + "\n"@);
}

/// Spikes are those whose bucket starts within the range and that stand out by
/// three and a half deviations.
pub proof fn spikes_are_of_the_range(start: nat, end: nat)
    ensures
        holds_part(
            spikes_query(start, end),
            "FROM spikes\n            WHERE bucket_start_ns >= "@ + decimal(start)
                + "\n              AND bucket_start_ns <  "@ + decimal(end)
                + "\n              AND z_mad >= 3.5\n"@,
        ),
{
    let (head, mid, rest) = (SPIKES_QUERY_0@, SPIKES_QUERY_1@, SPIKES_QUERY_2@);
    let tail = "FROM spikes\n            WHERE bucket_start_ns >= "@;
    let last = "\n              AND z_mad >= 3.5\n"@;
    reveal_strlit(
        "\n            SELECT bucket_start_ns, bucket_width_ns, node_id, gpu_id,\n                   metric_id, value, median, mad, z_mad\n            FROM spikes\n            WHERE bucket_start_ns >= ",
    );
    reveal_strlit("FROM spikes\n            WHERE bucket_start_ns >= ");
    reveal_strlit(
        "\n              AND z_mad >= 3.5\n            ORDER BY bucket_start_ns\n            LIMIT 1000\n            ",
    );
    reveal_strlit("\n              AND z_mad >= 3.5\n");
    assert(ends_with(head, tail)) by {
        assert(head.skip(head.len() - tail.len()) =~= tail);
    }
    assert(rest.take(last.len() as int) =~= last);
    lemma_clause(head, tail, decimal(start), mid, decimal(end), rest, last);
}

/// A ranking is of the kernels within the window, of the GPU asked for if there is
/// one, by total time, and as long as asked for.
pub proof fn rankings_are_of_the_window(start: nat, end: nat, clause: Seq<char>, limit: nat)
    ensures
        holds_part(
            top_kernels_query(start, end, clause, limit),
            "WHERE category = 'KERNEL'\n              AND ts_ns >= "@ + decimal(start)
                + "\n              AND ts_ns <  "@ + decimal(end) + "\n              "@ + clause,
        ),
        holds_part(
            top_kernels_query(start, end, clause, limit),
            "ORDER BY total_duration_ns DESC\n            LIMIT "@ + decimal(limit) + "\n"@,
        ),
{
    let (head, mid, two) = (TOP_KERNELS_QUERY_0@, TOP_KERNELS_QUERY_1@, TOP_KERNELS_QUERY_2@);
    let (three, four) = (TOP_KERNELS_QUERY_3@, TOP_KERNELS_QUERY_4@);
    let tail = "WHERE category = 'KERNEL'\n              AND ts_ns >= "@;
    let by = "ORDER BY total_duration_ns DESC\n            LIMIT "@;
    let (a, b, n) = (decimal(start), decimal(end), decimal(limit));
    let sql = top_kernels_query(start, end, clause, limit);
    reveal_strlit(
        "\n            SELECT\n                name_id,\n                any(s.text) AS name,\n                sum(duration_ns) AS total_duration_ns,\n                count()          AS launches,\n                toUInt64(avg(duration_ns)) AS mean_duration_ns\n            FROM events AS e\n            LEFT JOIN strings AS s FINAL ON s.id = e.name_id\n            WHERE category = 'KERNEL'\n              AND ts_ns >= ",
    );
    reveal_strlit("WHERE category = 'KERNEL'\n              AND ts_ns >= ");
    reveal_strlit(
        "\n            GROUP BY name_id\n            ORDER BY total_duration_ns DESC\n            LIMIT ",
    );
    reveal_strlit("ORDER BY total_duration_ns DESC\n            LIMIT ");
    reveal_strlit("\n            ");
    reveal_strlit("\n");
    assert(ends_with(head, tail)) by {
        assert(head.skip(head.len() - tail.len()) =~= tail);
    }
    assert(ends_with(three, by)) by {
        assert(three.skip(three.len() - by.len()) =~= by);
    }
    assert(four.take(1) =~= "\n"@);
    let after = two + clause;
    let rest = after + three + n + four;
    assert(rest.take(after.len() as int) =~= after);
    assert(sql =~= head + a + mid + b + rest);
    lemma_clause(head, tail, a, mid, b, rest, after);
    assert(tail + a + mid + b + after =~= tail + a + mid + b + two + clause);
    let upto = head + a + mid + b + two + clause + three;
    let none = Seq::<char>::empty();
    assert(ends_with(upto, by)) by {
        assert(upto.skip(upto.len() - by.len()) =~= three.skip(three.len() - by.len()));
    }
    lemma_clause(upto, by, n, none, none, four, "\n"@);
    assert(sql =~= upto + n + none + none + four);
    assert(by + n + none + none + "\n"@ =~= by + n + "\n"@);
}

/// Correlated events are those that carry the correlation id.
pub proof fn correlated_events_share_the_id(correlation_id: nat)
    ensures
        holds_part(
            correlated_query(correlation_id),
            "FROM events\n            WHERE correlation_id = "@ + decimal(correlation_id) + "\n"@,
        ),
{
    let (head, rest) = (CORRELATED_QUERY_0@, CORRELATED_QUERY_1@);
    let tail = "FROM events\n            WHERE correlation_id = "@;
    let n = decimal(correlation_id);
    let none = Seq::<char>::empty();
    reveal_strlit(
        "\n            SELECT ts_ns, duration_ns, gpu_id, toUInt8(category) AS category,\n                   name_id, pid, stream_id\n            FROM events\n            WHERE correlation_id = ",
    );
    reveal_strlit("FROM events\n            WHERE correlation_id = ");
    reveal_strlit("\n            ORDER BY ts_ns\n            LIMIT 64\n            ");
    reveal_strlit("\n");
    assert(ends_with(head, tail)) by {
        assert(head.skip(head.len() - tail.len()) =~= tail);
    }
    assert(rest.take(1) =~= "\n"@);
    lemma_clause(head, tail, n, none, none, rest, "\n"@);
    assert(correlated_query(correlation_id) =~= head + n + none + none + rest);
    assert(tail + n + none + none + "\n"@ =~= tail + n + "\n"@);
}

/// Names are looked up by their own ids.
pub proof fn names_are_looked_up_by_id(metric_id: nat, ids: Seq<u64>)
    ensures
        metric_name_query(metric_id) == "SELECT text FROM strings FINAL WHERE id = "@ + decimal(
            metric_id,
        ) + " LIMIT 1"@,
        strings_query(id_list(ids)) == "SELECT id, text FROM strings FINAL WHERE id IN ("@
            + id_list(ids) + ")"@,
{
}

/// A list of ids holds each of them in decimal, in order, with commas between.
pub proof fn id_lists_hold_every_id(ids: Seq<u64>, id: u64)
    ensures
        id_list(Seq::empty()).len() == 0,
        id_list(seq![id]) == decimal(id as nat),
        ids.len() > 0 ==> id_list(ids.push(id)) == id_list(ids) + ","@ + decimal(id as nat),
{
    let f = |i: u64| i as nat;
    assert(crate::filters::decimals(seq![id].map_values(f)) =~= seq![decimal(id as nat)]);
    assert(crate::filters::decimals(Seq::<u64>::empty().map_values(f)) =~= Seq::<
        Seq<char>,
    >::empty());
    if ids.len() > 0 {
        let all = crate::filters::decimals(ids.push(id).map_values(f));
        assert(all.drop_last() =~= crate::filters::decimals(ids.map_values(f)));
        assert(all.last() == decimal(id as nat));
    }
}

/// A ranking lists three kernels unless asked otherwise, and never over
/// thirty-two; it keeps to one GPU if one is named.
pub proof fn rankings_are_bounded(limit: Option<u32>, gpu_id: Option<u8>)
    ensures
        limit is None ==> ranking_size(limit) == 3,
        limit matches Some(n) ==> (n <= 32 ==> ranking_size(limit) == n),
        limit matches Some(n) ==> (n > 32 ==> ranking_size(limit) == 32),
        gpu_id is None ==> gpu_clause(gpu_id).len() == 0,
        gpu_id matches Some(g) ==> gpu_clause(gpu_id) == " AND gpu_id = "@ + decimal(g as nat),
{
}

/// A spike is explained by the half second around its bucket: from half a second
/// before it starts to half a second after it ends, as far as time goes.
pub proof fn spikes_are_explained_by_their_surroundings(start: u64, width: u64)
    ensures
        ({
            let (from, to) = spike_window_of(start, width);
            &&& start >= 500_000_000 ==> from == start - 500_000_000
            &&& start < 500_000_000 ==> from == 0
            &&& start + width + 500_000_000 <= u64::MAX ==> to == start + width + 500_000_000
            &&& start + width + 500_000_000 > u64::MAX ==> to == u64::MAX
        }),
{
}

/// A GPU is held up by memory exactly if memory leads and is busy, and by compute
/// exactly if it is not and compute leads and is busy.
pub proof fn bottlenecks_need_a_busy_leader(mem: bool, mem_busy: bool, gpu: bool, gpu_busy: bool)
    ensures
        ({
            let b = bottleneck_of(mem, mem_busy, gpu, gpu_busy);
            &&& b == Bottleneck::MemoryBound <==> mem && mem_busy
            &&& b == Bottleneck::ComputeBound <==> gpu && gpu_busy && !(mem && mem_busy)
            &&& b == Bottleneck::Unclassified <==> !(mem && mem_busy) && !(gpu && gpu_busy)
        }),
{
}

/// A kernel near a spike is shown as it was stored, with its card exactly if it has
/// one.
pub proof fn kernels_are_shown_as_stored(r: KernelRow)
    ensures
        ({
            let k = shown(r);
            &&& k.correlation_id == r.correlation_id
            &&& k.name_id == r.name_id
            &&& k.name == r.name
            &&& k.ts_ns == r.ts_ns
            &&& k.duration_ns == r.duration_ns
            &&& k.gpu_id == r.gpu_id
            &&& r.sol_rows > 0 ==> k.sol == Some(r.sol)
            &&& r.sol_rows == 0 ==> k.sol is None
        }),
{
}

/// A card is shown with its own numbers.
pub proof fn cards_are_shown_as_they_are(s: KernelSol, c: SolColumns)
    requires
        shows_card(s, c),
    ensures
        c.sm_active_pct == s.sm_active_pct,
        c.achieved_occupancy_pct == s.achieved_occupancy_pct,
        c.dram_bw_pct == s.dram_bw_pct,
        c.l1_bw_pct == s.l1_bw_pct,
        c.l2_bw_pct == s.l2_bw_pct,
        c.inst_throughput_pct == s.inst_throughput_pct,
        c.arithmetic_intensity == s.arithmetic_intensity,
        c.achieved_gflops == s.achieved_gflops,
{
}

} // verus!
