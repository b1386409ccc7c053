//! What the queries of the timeline ask for.

use crate::arrow_tile::{ActivityTileRows, MetricTileRows, RawEventRows};
use crate::filters::{category_filter, gpu_filter, metric_filter};
use crate::lod::tile_for;
use crate::text::decimal;
use crate::timeline::{
    are_activity_columns, are_metric_columns, are_raw_columns, kind_of, label_of, planned_sql,
    string_view, ActivityTileRow, MetricTileRow, RawEventDbRow, TimelineKind, TimelineQuery,
    ACTIVITY_QUERY_0, ACTIVITY_QUERY_1, ACTIVITY_QUERY_2, ACTIVITY_QUERY_3, ACTIVITY_QUERY_4, ACTIVITY_QUERY_5,
    METRIC_QUERY_0, METRIC_QUERY_1, METRIC_QUERY_2, METRIC_QUERY_3, METRIC_QUERY_4, METRIC_QUERY_5,
    RAW_QUERY_0, RAW_QUERY_1, RAW_QUERY_2, RAW_QUERY_3, RAW_QUERY_4,
};
use vstd::prelude::*;

verus! {

/// The text holds `part`, with something before it and something after.
pub open spec fn holds_part(text: Seq<char>, part: Seq<char>) -> bool {
    exists|before: Seq<char>, after: Seq<char>| text == #[trigger] ((before + part) + after)
}

/// Text ends with `tail`.
pub open spec fn ends_with(text: Seq<char>, tail: Seq<char>) -> bool {
    text.len() >= tail.len() && text.skip(text.len() - tail.len()) == tail
}

/// A query that goes on `head`, a number, `mid`, a number and the rest asks for
/// the clause that spans the two numbers.
pub proof fn lemma_clause(
    head: Seq<char>,
    tail: Seq<char>,
    a: Seq<char>,
    mid: Seq<char>,
    b: Seq<char>,
    rest: Seq<char>,
    end: Seq<char>,
)
    requires
        ends_with(head, tail),
        rest.len() >= end.len(),
        rest.take(end.len() as int) == end,
    ensures
        holds_part(head + a + mid + b + rest, tail + a + mid + b + end),
{
    let before = head.take(head.len() - tail.len());
    let after = rest.skip(end.len() as int);
    let part = tail + a + mid + b + end;
    assert(head =~= before + tail);
    assert(rest =~= end + after);
    assert(head + a + mid + b + rest =~= (before + part) + after);
}

/// Raw events are asked for from the start of the range, inclusive, to its end,
/// exclusive: the query holds the clause with the request's own numbers.
pub proof fn raw_queries_span_the_range(q: TimelineQuery)
    ensures
        holds_part(
            planned_sql(q, TimelineKind::Raw),
            "WHERE ts_ns >= "@ + decimal(q.start_ns as nat) + "\n          AND ts_ns <  "@ + decimal(
                q.end_ns as nat,
            ) + "\n"@,
        ),
{
    let sql = planned_sql(q, TimelineKind::Raw);
    let (a, b) = (decimal(q.start_ns as nat), decimal(q.end_ns as nat));
    let rest = sql.skip((RAW_QUERY_0@ + a + RAW_QUERY_1@ + b).len() as int);
    reveal_strlit(
        "\n        SELECT ts_ns, duration_ns, gpu_id, toUInt8(category) AS category,\n               name_id, correlation_id, pid, stream_id\n        FROM events\n        WHERE ts_ns >= ",
    );
    reveal_strlit("WHERE ts_ns >= ");
    reveal_strlit("\n          AND ts_ns <  ");
    reveal_strlit("\n          ");
    reveal_strlit("\n");
    assert(ends_with(RAW_QUERY_0@, "WHERE ts_ns >= "@)) by {
        let head = RAW_QUERY_0@;
        assert(head.skip(head.len() - "WHERE ts_ns >= "@.len()) =~= "WHERE ts_ns >= "@);
    }
    assert(RAW_QUERY_1@ == "\n          AND ts_ns <  "@);
    assert(rest.len() >= RAW_QUERY_2@.len());
    assert(rest.take(1) =~= "\n"@);
    assert(sql =~= RAW_QUERY_0@ + a + RAW_QUERY_1@ + b + rest);
    lemma_clause(RAW_QUERY_0@, "WHERE ts_ns >= "@, a, RAW_QUERY_1@, b, rest, "\n"@);
}

/// Activity tiles are asked for at the width chosen for the range and its pixels, from
/// the start of the range, inclusive, to its end, exclusive.
pub proof fn activity_queries_span_the_range(q: TimelineQuery)
    requires
        q.start_ns < q.end_ns,
    ensures
        holds_part(
            planned_sql(q, TimelineKind::Activity),
            "FROM tiles_activity\n        WHERE bucket_width_ns = "@ + decimal(
                tile_for(q.end_ns - q.start_ns, q.pixels as int) as nat,
            ) + "\n          AND bucket_start_ns >= "@ + decimal(q.start_ns as nat)
                + "\n          AND bucket_start_ns <  "@ + decimal(q.end_ns as nat) + "\n"@,
        ),
{
    let sql = planned_sql(q, TimelineKind::Activity);
    let w = decimal(tile_for(q.end_ns - q.start_ns, q.pixels as int) as nat);
    let (a, b) = (decimal(q.start_ns as nat), decimal(q.end_ns as nat));
    let head = ACTIVITY_QUERY_0@;
    let (one, two) = (ACTIVITY_QUERY_1@, ACTIVITY_QUERY_2@);
    let tail = "FROM tiles_activity\n        WHERE bucket_width_ns = "@;
    let rest = sql.skip((head + w + one + a + two + b).len() as int);
    reveal_strlit(
        "\n        SELECT\n            bucket_start_ns,\n            bucket_width_ns,\n            gpu_id,\n            toUInt8(category) AS category,\n            countMerge(count) AS count,\n            sumMerge(sum_duration_ns) AS sum_duration_ns,\n            maxMerge(max_duration_ns) AS max_duration_ns,\n            arrayElement(topKMerge(16)(top_names), 1) AS top_name_id\n        FROM tiles_activity\n        WHERE bucket_width_ns = ",
    );
    reveal_strlit("FROM tiles_activity\n        WHERE bucket_width_ns = ");
    reveal_strlit("\n          ");
    reveal_strlit("\n");
    assert(ends_with(head, tail)) by {
        assert(head.skip(head.len() - tail.len()) =~= tail);
    }
    assert(rest.len() >= ACTIVITY_QUERY_3@.len());
    assert(rest.take(1) =~= "\n"@);
    let mid = one + a + two;
    assert(sql =~= head + w + mid + b + rest);
    lemma_clause(head, tail, w, mid, b, rest, "\n"@);
    assert(tail + w + mid + b + "\n"@ =~= tail + w + one + a + two + b + "\n"@);
}

/// Metric tiles are asked for at the width chosen for the range and its pixels, from
/// the start of the range, inclusive, to its end, exclusive.
pub proof fn metric_queries_span_the_range(q: TimelineQuery)
    requires
        q.start_ns < q.end_ns,
    ensures
        holds_part(
            planned_sql(q, TimelineKind::Metric),
            "FROM tiles_metric\n        WHERE bucket_width_ns = "@ + decimal(
                tile_for(q.end_ns - q.start_ns, q.pixels as int) as nat,
            ) + "\n          AND bucket_start_ns >= "@ + decimal(q.start_ns as nat)
                + "\n          AND bucket_start_ns <  "@ + decimal(q.end_ns as nat) + "\n"@,
        ),
{
    let sql = planned_sql(q, TimelineKind::Metric);
    let w = decimal(tile_for(q.end_ns - q.start_ns, q.pixels as int) as nat);
    let (a, b) = (decimal(q.start_ns as nat), decimal(q.end_ns as nat));
    let head = METRIC_QUERY_0@;
    let (one, two) = (METRIC_QUERY_1@, METRIC_QUERY_2@);
    let tail = "FROM tiles_metric\n        WHERE bucket_width_ns = "@;
    let rest = sql.skip((head + w + one + a + two + b).len() as int);
    reveal_strlit(
        "\n        SELECT\n            bucket_start_ns,\n            bucket_width_ns,\n            gpu_id,\n            metric_id,\n            quantileTDigestMerge(0.5)(p50_value) AS p50,\n            quantileTDigestMerge(0.99)(p99_value) AS p99,\n            minMerge(min_value) AS min,\n            maxMerge(max_value) AS max\n        FROM tiles_metric\n        WHERE bucket_width_ns = ",
    );
    reveal_strlit("FROM tiles_metric\n        WHERE bucket_width_ns = ");
    reveal_strlit("\n          ");
    reveal_strlit("\n");
    assert(ends_with(head, tail)) by {
        assert(head.skip(head.len() - tail.len()) =~= tail);
    }
    assert(rest.len() >= METRIC_QUERY_3@.len());
    assert(rest.take(1) =~= "\n"@);
    let mid = one + a + two;
    assert(sql =~= head + w + mid + b + rest);
    lemma_clause(head, tail, w, mid, b, rest, "\n"@);
    assert(tail + w + mid + b + "\n"@ =~= tail + w + one + a + two + b + "\n"@);
}

/// What is served is what was asked for; a client that asks for nothing in
/// particular gets raw events if a pixel covers less than a microsecond, and
/// activity otherwise. Names that are not known mean activity.
pub proof fn plans_serve_what_was_asked_for(q: TimelineQuery)
    ensures
        q.kind matches Some(kind) ==> label_of(q) == kind@,
        q.kind is None && q.end_ns - q.start_ns < 1_000 * q.pixels ==> label_of(q) == "raw"@,
        q.kind is None && q.end_ns - q.start_ns >= 1_000 * q.pixels ==> label_of(q)
            == "activity"@,
        kind_of("raw"@) == TimelineKind::Raw,
        kind_of("metric"@) == TimelineKind::Metric,
        kind_of("activity"@) == TimelineKind::Activity,
        forall|label: Seq<char>|
            label != "raw"@ && label != "metric"@ ==> #[trigger] kind_of(label)
                == TimelineKind::Activity,
{
    reveal_strlit("raw");
    reveal_strlit("metric");
    reveal_strlit("activity");
    assert("raw"@.len() == 3 && "metric"@.len() == 6 && "activity"@.len() == 8);
}

/// The filters that a client gives are part of the query: rows of other GPUs,
/// categories or metrics are not fetched.
pub proof fn queries_hold_their_filters(q: TimelineQuery)
    ensures
        holds_part(planned_sql(q, TimelineKind::Raw), gpu_filter(string_view(q.gpus))),
        holds_part(planned_sql(q, TimelineKind::Activity), gpu_filter(string_view(q.gpus))),
        holds_part(planned_sql(q, TimelineKind::Metric), gpu_filter(string_view(q.gpus))),
        holds_part(
            planned_sql(q, TimelineKind::Raw),
            category_filter(string_view(q.categories), "category"@),
        ),
        holds_part(
            planned_sql(q, TimelineKind::Activity),
            category_filter(string_view(q.categories), "category"@),
        ),
        holds_part(planned_sql(q, TimelineKind::Metric), metric_filter(string_view(q.metric_ids))),
{
    let w = decimal(tile_for(q.end_ns - q.start_ns, q.pixels as int) as nat);
    let (a, b) = (decimal(q.start_ns as nat), decimal(q.end_ns as nat));
    let gpus = gpu_filter(string_view(q.gpus));
    let cats = category_filter(string_view(q.categories), "category"@);
    let ids = metric_filter(string_view(q.metric_ids));
    let raw = RAW_QUERY_0@ + a + RAW_QUERY_1@ + b + RAW_QUERY_2@;
    lemma_two_parts(raw, gpus, RAW_QUERY_3@, cats, RAW_QUERY_4@);
    let activity = ACTIVITY_QUERY_0@ + w + ACTIVITY_QUERY_1@ + a + ACTIVITY_QUERY_2@ + b
        + ACTIVITY_QUERY_3@;
    lemma_two_parts(activity, gpus, ACTIVITY_QUERY_4@, cats, ACTIVITY_QUERY_5@);
    let metric = METRIC_QUERY_0@ + w + METRIC_QUERY_1@ + a + METRIC_QUERY_2@ + b + METRIC_QUERY_3@;
    lemma_two_parts(metric, gpus, METRIC_QUERY_4@, ids, METRIC_QUERY_5@);
}

proof fn lemma_two_parts(
    head: Seq<char>,
    one: Seq<char>,
    mid: Seq<char>,
    two: Seq<char>,
    end: Seq<char>,
)
    ensures
        holds_part(head + one + mid + two + end, one),
        holds_part(head + one + mid + two + end, two),
{
    let text = head + one + mid + two + end;
    assert(text =~= (head + one) + (mid + two + end));
    assert(text =~= ((head + one + mid) + two) + end);
}

/// Every column of activity tiles has one value for each row, in order: that row's own.
pub proof fn activity_columns_keep_their_rows(rows: Seq<ActivityTileRow>, c: ActivityTileRows, i: int)
    requires
        are_activity_columns(rows, c),
        0 <= i < rows.len(),
    ensures
        c.bucket_start_ns@.len() == rows.len() && c.bucket_start_ns@[i] == rows[i].bucket_start_ns,
        c.bucket_width_ns@.len() == rows.len() && c.bucket_width_ns@[i] == rows[i].bucket_width_ns,
        c.gpu_id@.len() == rows.len() && c.gpu_id@[i] == rows[i].gpu_id,
        c.category@.len() == rows.len() && c.category@[i] == rows[i].category,
        c.count@.len() == rows.len() && c.count@[i] == rows[i].count,
        c.sum_duration_ns@.len() == rows.len() && c.sum_duration_ns@[i] == rows[i].sum_duration_ns,
        c.max_duration_ns@.len() == rows.len() && c.max_duration_ns@[i] == rows[i].max_duration_ns,
        c.top_name_id@.len() == rows.len() && c.top_name_id@[i] == rows[i].top_name_id,
{
}

/// Every column of metric tiles has one value for each row, in order: that row's own.
pub proof fn metric_columns_keep_their_rows(rows: Seq<MetricTileRow>, c: MetricTileRows, i: int)
    requires
        are_metric_columns(rows, c),
        0 <= i < rows.len(),
    ensures
        c.bucket_start_ns@.len() == rows.len() && c.bucket_start_ns@[i] == rows[i].bucket_start_ns,
        c.bucket_width_ns@.len() == rows.len() && c.bucket_width_ns@[i] == rows[i].bucket_width_ns,
        c.gpu_id@.len() == rows.len() && c.gpu_id@[i] == rows[i].gpu_id,
        c.metric_id@.len() == rows.len() && c.metric_id@[i] == rows[i].metric_id,
        c.p50@.len() == rows.len() && c.p50@[i] == rows[i].p50,
        c.p99@.len() == rows.len() && c.p99@[i] == rows[i].p99,
        c.min@.len() == rows.len() && c.min@[i] == rows[i].min,
        c.max@.len() == rows.len() && c.max@[i] == rows[i].max,
{
}

/// Every column of raw events has one value for each row, in order: that row's own.
pub proof fn raw_columns_keep_their_rows(rows: Seq<RawEventDbRow>, c: RawEventRows, i: int)
    requires
        are_raw_columns(rows, c),
        0 <= i < rows.len(),
    ensures
        c.ts_ns@.len() == rows.len() && c.ts_ns@[i] == rows[i].ts_ns,
        c.duration_ns@.len() == rows.len() && c.duration_ns@[i] == rows[i].duration_ns,
        c.gpu_id@.len() == rows.len() && c.gpu_id@[i] == rows[i].gpu_id,
        c.category@.len() == rows.len() && c.category@[i] == rows[i].category,
        c.name_id@.len() == rows.len() && c.name_id@[i] == rows[i].name_id,
        c.correlation_id@.len() == rows.len() && c.correlation_id@[i] == rows[i].correlation_id,
        c.pid@.len() == rows.len() && c.pid@[i] == rows[i].pid,
        c.stream_id@.len() == rows.len() && c.stream_id@[i] == rows[i].stream_id,
{
}

} // verus!
