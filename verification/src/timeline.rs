//! The timeline endpoint: which rows to fetch for a time range, and how to turn
//! them into columns.

use crate::arrow_tile::{ActivityTileRows, MetricTileRows, RawEventRows};
use crate::filters::{
    category_filter, category_filter_sql, gpu_filter, gpu_filter_sql, metric_filter,
    metric_filter_sql,
};
use crate::lod::{choose_tile, should_serve_raw, tile_for, TILE_WIDTHS_NS};
use crate::text::{append_decimal, decimal, same_text};
use vstd::prelude::*;
use vstd::string::StringExecFns;

verus! {

/// What a client asks of the timeline. `start_ns` is inclusive, `end_ns` is
/// exclusive; lists are separated by commas.
#[derive(Clone, Debug)]
pub struct TimelineQuery {
    pub start_ns: u64,
    pub end_ns: u64,
    pub gpus: Option<String>,
    pub categories: Option<String>,
    /// Width of the timeline in CSS pixels.
    pub pixels: u32,
    pub kind: Option<String>,
    pub metric_ids: Option<String>,
}

/// The width assumed for a client that gives none.
pub fn default_pixels() -> (px: u32)
    ensures
        px == 2048,
{
    2048
}

/// What is served.
#[derive(Copy, Clone, Debug, PartialEq, Eq, Structural)]
pub enum TimelineKind {
    Activity,
    Metric,
    Raw,
}

/// Why a request is refused.
#[derive(Copy, Clone, Debug, PartialEq, Eq, Structural)]
pub enum TimelineError {
    /// The range holds nothing.
    EmptyRange,
}

impl TimelineError {
    pub fn message(self) -> (m: &'static str)
        ensures
            m@ == "end_ns must be > start_ns"@,
    {
        "end_ns must be > start_ns"
    }
}

/// What to run for a request: the query, and the name of the kind as the client
/// is told it.
#[derive(Clone, Debug)]
pub struct TimelinePlan {
    pub kind: TimelineKind,
    pub label: String,
    pub sql: String,
}

/// The text in an optional string.
pub open spec fn string_view(s: Option<String>) -> Option<Seq<char>> {
    match s {
        Some(t) => Some(t@),
        None => None,
    }
}

fn text_of_option(s: &Option<String>) -> (t: Option<&str>)
    ensures
        crate::filters::text_view(t) == string_view(*s),
{
    match s {
        Some(t) => Some(t.as_str()),
        None => None,
    }
}

pub const ACTIVITY_QUERY_0: &'static str = "
        SELECT
            bucket_start_ns,
            bucket_width_ns,
            gpu_id,
            toUInt8(category) AS category,
            countMerge(count) AS count,
            sumMerge(sum_duration_ns) AS sum_duration_ns,
            maxMerge(max_duration_ns) AS max_duration_ns,
            arrayElement(topKMerge(16)(top_names), 1) AS top_name_id
        FROM tiles_activity
        WHERE bucket_width_ns = ";

pub const ACTIVITY_QUERY_1: &'static str = "
          AND bucket_start_ns >= ";

pub const ACTIVITY_QUERY_2: &'static str = "
          AND bucket_start_ns <  ";

pub const ACTIVITY_QUERY_3: &'static str = "
          ";

pub const ACTIVITY_QUERY_4: &'static str = "
          ";

pub const ACTIVITY_QUERY_5: &'static str = "
        GROUP BY bucket_start_ns, bucket_width_ns, gpu_id, category
        ORDER BY bucket_start_ns, gpu_id, category
        ";

/// The query for activity tiles.
pub open spec fn activity_query(
    width: nat,
    start: nat,
    end: nat,
    gpu_filter: Seq<char>,
    cat_filter: Seq<char>,
) -> Seq<char> {
    ACTIVITY_QUERY_0@ + decimal(width) + ACTIVITY_QUERY_1@ + decimal(start) + ACTIVITY_QUERY_2@
        + decimal(end) + ACTIVITY_QUERY_3@ + gpu_filter + ACTIVITY_QUERY_4@ + cat_filter
        + ACTIVITY_QUERY_5@
}

pub fn activity_query_sql(
    width: u64,
    start: u64,
    end: u64,
    gpu_filter: &str,
    cat_filter: &str,
) -> (sql: String)
    ensures
        sql@ == activity_query(width as nat, start as nat, end as nat, gpu_filter@, cat_filter@),
{
    let mut sql = ACTIVITY_QUERY_0.to_string();
    append_decimal(&mut sql, width);
    sql.append(ACTIVITY_QUERY_1);
    append_decimal(&mut sql, start);
    sql.append(ACTIVITY_QUERY_2);
    append_decimal(&mut sql, end);
    sql.append(ACTIVITY_QUERY_3);
    sql.append(gpu_filter);
    sql.append(ACTIVITY_QUERY_4);
    sql.append(cat_filter);
    sql.append(ACTIVITY_QUERY_5);
    sql
}

pub const METRIC_QUERY_0: &'static str = "
        SELECT
            bucket_start_ns,
            bucket_width_ns,
            gpu_id,
            metric_id,
            quantileTDigestMerge(0.5)(p50_value) AS p50,
            quantileTDigestMerge(0.99)(p99_value) AS p99,
            minMerge(min_value) AS min,
            maxMerge(max_value) AS max
        FROM tiles_metric
        WHERE bucket_width_ns = ";

pub const METRIC_QUERY_1: &'static str = "
          AND bucket_start_ns >= ";

pub const METRIC_QUERY_2: &'static str = "
          AND bucket_start_ns <  ";

pub const METRIC_QUERY_3: &'static str = "
          ";

pub const METRIC_QUERY_4: &'static str = "
          ";

pub const METRIC_QUERY_5: &'static str = "
        GROUP BY bucket_start_ns, bucket_width_ns, gpu_id, metric_id
        ORDER BY bucket_start_ns, gpu_id, metric_id
        ";

/// The query for metric tiles.
pub open spec fn metric_query(
    width: nat,
    start: nat,
    end: nat,
    gpu_filter: Seq<char>,
    metric_filter: Seq<char>,
) -> Seq<char> {
    METRIC_QUERY_0@ + decimal(width) + METRIC_QUERY_1@ + decimal(start) + METRIC_QUERY_2@
        + decimal(end) + METRIC_QUERY_3@ + gpu_filter + METRIC_QUERY_4@ + metric_filter
        + METRIC_QUERY_5@
}

pub fn metric_query_sql(
    width: u64,
    start: u64,
    end: u64,
    gpu_filter: &str,
    metric_filter: &str,
) -> (sql: String)
    ensures
        sql@ == metric_query(width as nat, start as nat, end as nat, gpu_filter@, metric_filter@),
{
    let mut sql = METRIC_QUERY_0.to_string();
    append_decimal(&mut sql, width);
    sql.append(METRIC_QUERY_1);
    append_decimal(&mut sql, start);
    sql.append(METRIC_QUERY_2);
    append_decimal(&mut sql, end);
    sql.append(METRIC_QUERY_3);
    sql.append(gpu_filter);
    sql.append(METRIC_QUERY_4);
    sql.append(metric_filter);
    sql.append(METRIC_QUERY_5);
    sql
}

pub const RAW_QUERY_0: &'static str = "
        SELECT ts_ns, duration_ns, gpu_id, toUInt8(category) AS category,
               name_id, correlation_id, pid, stream_id
        FROM events
        WHERE ts_ns >= ";

pub const RAW_QUERY_1: &'static str = "
          AND ts_ns <  ";

pub const RAW_QUERY_2: &'static str = "
          ";

pub const RAW_QUERY_3: &'static str = "
          ";

pub const RAW_QUERY_4: &'static str = "
          AND category != 'METRIC'
        ORDER BY ts_ns
        LIMIT 200000
        ";

/// The query for raw events.
pub open spec fn raw_query(
    start: nat,
    end: nat,
    gpu_filter: Seq<char>,
    cat_filter: Seq<char>,
) -> Seq<char> {
    RAW_QUERY_0@ + decimal(start) + RAW_QUERY_1@ + decimal(end) + RAW_QUERY_2@ + gpu_filter
        + RAW_QUERY_3@ + cat_filter + RAW_QUERY_4@
}

pub fn raw_query_sql(start: u64, end: u64, gpu_filter: &str, cat_filter: &str) -> (sql: String)
    ensures
        sql@ == raw_query(start as nat, end as nat, gpu_filter@, cat_filter@),
{
    let mut sql = RAW_QUERY_0.to_string();
    append_decimal(&mut sql, start);
    sql.append(RAW_QUERY_1);
    append_decimal(&mut sql, end);
    sql.append(RAW_QUERY_2);
    sql.append(gpu_filter);
    sql.append(RAW_QUERY_3);
    sql.append(cat_filter);
    sql.append(RAW_QUERY_4);
    sql
}

/// The name of the kind served: the one asked for, else raw events for a range so
/// narrow that tiles are too coarse, else activity.
pub open spec fn label_of(q: TimelineQuery) -> Seq<char> {
    match q.kind {
        Some(kind) => kind@,
        None => if q.end_ns - q.start_ns < TILE_WIDTHS_NS[0] * q.pixels {
            "raw"@
        } else {
            "activity"@
        },
    }
}

/// The kind of that name; unknown names mean activity.
pub open spec fn kind_of(label: Seq<char>) -> TimelineKind {
    if label == "raw"@ {
        TimelineKind::Raw
    } else if label == "metric"@ {
        TimelineKind::Metric
    } else {
        TimelineKind::Activity
    }
}

/// The query to run for a request of that kind.
pub open spec fn planned_sql(q: TimelineQuery, kind: TimelineKind) -> Seq<char> {
    let width = tile_for(q.end_ns - q.start_ns, q.pixels as int);
    match kind {
        TimelineKind::Raw => raw_query(
            q.start_ns as nat,
            q.end_ns as nat,
            gpu_filter(string_view(q.gpus)),
            category_filter(string_view(q.categories), "category"@),
        ),
        TimelineKind::Metric => metric_query(
            width as nat,
            q.start_ns as nat,
            q.end_ns as nat,
            gpu_filter(string_view(q.gpus)),
            metric_filter(string_view(q.metric_ids)),
        ),
        TimelineKind::Activity => activity_query(
            width as nat,
            q.start_ns as nat,
            q.end_ns as nat,
            gpu_filter(string_view(q.gpus)),
            category_filter(string_view(q.categories), "category"@),
        ),
    }
}

/// Decides what to serve and how to fetch it. Refuses a range that holds
/// nothing.
pub fn plan(q: &TimelineQuery) -> (r: Result<TimelinePlan, TimelineError>)
    ensures
        r is Err <==> q.end_ns <= q.start_ns,
        r matches Err(e) ==> e == TimelineError::EmptyRange,
        r matches Ok(p) ==> {
            &&& p.label@ == label_of(*q)
            &&& p.kind == kind_of(label_of(*q))
            &&& p.sql@ == planned_sql(*q, p.kind)
        },
{
    if q.end_ns <= q.start_ns {
        return Err(TimelineError::EmptyRange);
    }
    let range: u64 = q.end_ns - q.start_ns;
    let label: String = match &q.kind {
        Some(kind) => kind.clone(),
        None => if should_serve_raw(range, q.pixels) {
            "raw".to_string()
        } else {
            "activity".to_string()
        },
    };
    let kind = if same_text(label.as_str(), "raw") {
        TimelineKind::Raw
    } else if same_text(label.as_str(), "metric") {
        TimelineKind::Metric
    } else {
        TimelineKind::Activity
    };
    let width: u64 = match choose_tile(range, q.pixels) {
        Some(w) => w,
        None => 4_096_000,
    };
    let gpus = gpu_filter_sql(text_of_option(&q.gpus));
    let sql = match kind {
        TimelineKind::Raw => {
            let cats = category_filter_sql(text_of_option(&q.categories), "category");
            raw_query_sql(q.start_ns, q.end_ns, gpus.as_str(), cats.as_str())
        },
        TimelineKind::Metric => {
            let ids = metric_filter_sql(text_of_option(&q.metric_ids));
            metric_query_sql(width, q.start_ns, q.end_ns, gpus.as_str(), ids.as_str())
        },
        TimelineKind::Activity => {
            let cats = category_filter_sql(text_of_option(&q.categories), "category");
            activity_query_sql(width, q.start_ns, q.end_ns, gpus.as_str(), cats.as_str())
        },
    };
    Ok(TimelinePlan { kind, label, sql })
}

/// A row of activity tiles as the database returns it.
#[derive(Copy, Clone, Debug, PartialEq, Eq, Structural)]
pub struct ActivityTileRow {
    pub bucket_start_ns: u64,
    pub bucket_width_ns: u64,
    pub gpu_id: u8,
    pub category: u8,
    pub count: u64,
    pub sum_duration_ns: u64,
    pub max_duration_ns: u64,
    pub top_name_id: u64,
}

/// The columns of some rows.
pub open spec fn are_activity_columns(rows: Seq<ActivityTileRow>, c: ActivityTileRows) -> bool {
    &&& c.bucket_start_ns@ == rows.map_values(|r: ActivityTileRow| r.bucket_start_ns)
    &&& c.bucket_width_ns@ == rows.map_values(|r: ActivityTileRow| r.bucket_width_ns)
    &&& c.gpu_id@ == rows.map_values(|r: ActivityTileRow| r.gpu_id)
    &&& c.category@ == rows.map_values(|r: ActivityTileRow| r.category)
    &&& c.count@ == rows.map_values(|r: ActivityTileRow| r.count)
    &&& c.sum_duration_ns@ == rows.map_values(|r: ActivityTileRow| r.sum_duration_ns)
    &&& c.max_duration_ns@ == rows.map_values(|r: ActivityTileRow| r.max_duration_ns)
    &&& c.top_name_id@ == rows.map_values(|r: ActivityTileRow| r.top_name_id)
}

/// Turns rows into columns.
pub fn activity_columns(rows: &Vec<ActivityTileRow>) -> (c: ActivityTileRows)
    ensures
        are_activity_columns(rows@, c),
        c.wf(),
{
    let mut c = ActivityTileRows::default();
    let mut i: usize = 0;
    proof {
        let none = rows@.take(0);
        assert(c.bucket_start_ns@ =~= none.map_values(|r: ActivityTileRow| r.bucket_start_ns));
        assert(c.bucket_width_ns@ =~= none.map_values(|r: ActivityTileRow| r.bucket_width_ns));
        assert(c.gpu_id@ =~= none.map_values(|r: ActivityTileRow| r.gpu_id));
        assert(c.category@ =~= none.map_values(|r: ActivityTileRow| r.category));
        assert(c.count@ =~= none.map_values(|r: ActivityTileRow| r.count));
        assert(c.sum_duration_ns@ =~= none.map_values(|r: ActivityTileRow| r.sum_duration_ns));
        assert(c.max_duration_ns@ =~= none.map_values(|r: ActivityTileRow| r.max_duration_ns));
        assert(c.top_name_id@ =~= none.map_values(|r: ActivityTileRow| r.top_name_id));
    }
    while i < rows.len()
        invariant
            0 <= i <= rows.len(),
            are_activity_columns(rows@.take(i as int), c),
        decreases rows.len() - i,
    {
        let r = rows[i];
        c.bucket_start_ns.push(r.bucket_start_ns);
        c.bucket_width_ns.push(r.bucket_width_ns);
        c.gpu_id.push(r.gpu_id);
        c.category.push(r.category);
        c.count.push(r.count);
        c.sum_duration_ns.push(r.sum_duration_ns);
        c.max_duration_ns.push(r.max_duration_ns);
        c.top_name_id.push(r.top_name_id);
        proof {
            let upto = rows@.take(i + 1);
            assert(upto =~= rows@.take(i as int).push(r));
            assert(c.bucket_start_ns@ =~= upto.map_values(|r: ActivityTileRow| r.bucket_start_ns));
            assert(c.bucket_width_ns@ =~= upto.map_values(|r: ActivityTileRow| r.bucket_width_ns));
            assert(c.gpu_id@ =~= upto.map_values(|r: ActivityTileRow| r.gpu_id));
            assert(c.category@ =~= upto.map_values(|r: ActivityTileRow| r.category));
            assert(c.count@ =~= upto.map_values(|r: ActivityTileRow| r.count));
            assert(c.sum_duration_ns@ =~= upto.map_values(|r: ActivityTileRow| r.sum_duration_ns));
            assert(c.max_duration_ns@ =~= upto.map_values(|r: ActivityTileRow| r.max_duration_ns));
            assert(c.top_name_id@ =~= upto.map_values(|r: ActivityTileRow| r.top_name_id));
        }
        i = i + 1;
    }
    proof {
        assert(rows@.take(rows.len() as int) =~= rows@);
    }
    c
}

/// A row of metric tiles as the database returns it; metric values are given by
/// their bits.
#[derive(Copy, Clone, Debug, PartialEq, Eq, Structural)]
pub struct MetricTileRow {
    pub bucket_start_ns: u64,
    pub bucket_width_ns: u64,
    pub gpu_id: u8,
    pub metric_id: u64,
    pub p50: u64,
    pub p99: u64,
    pub min: u64,
    pub max: u64,
}

/// The columns of some rows.
pub open spec fn are_metric_columns(rows: Seq<MetricTileRow>, c: MetricTileRows) -> bool {
    &&& c.bucket_start_ns@ == rows.map_values(|r: MetricTileRow| r.bucket_start_ns)
    &&& c.bucket_width_ns@ == rows.map_values(|r: MetricTileRow| r.bucket_width_ns)
    &&& c.gpu_id@ == rows.map_values(|r: MetricTileRow| r.gpu_id)
    &&& c.metric_id@ == rows.map_values(|r: MetricTileRow| r.metric_id)
    &&& c.p50@ == rows.map_values(|r: MetricTileRow| r.p50)
    &&& c.p99@ == rows.map_values(|r: MetricTileRow| r.p99)
    &&& c.min@ == rows.map_values(|r: MetricTileRow| r.min)
    &&& c.max@ == rows.map_values(|r: MetricTileRow| r.max)
}

/// Turns rows into columns.
pub fn metric_columns(rows: &Vec<MetricTileRow>) -> (c: MetricTileRows)
    ensures
        are_metric_columns(rows@, c),
        c.wf(),
{
    let mut c = MetricTileRows::default();
    let mut i: usize = 0;
    proof {
        let none = rows@.take(0);
        assert(c.bucket_start_ns@ =~= none.map_values(|r: MetricTileRow| r.bucket_start_ns));
        assert(c.bucket_width_ns@ =~= none.map_values(|r: MetricTileRow| r.bucket_width_ns));
        assert(c.gpu_id@ =~= none.map_values(|r: MetricTileRow| r.gpu_id));
        assert(c.metric_id@ =~= none.map_values(|r: MetricTileRow| r.metric_id));
        assert(c.p50@ =~= none.map_values(|r: MetricTileRow| r.p50));
        assert(c.p99@ =~= none.map_values(|r: MetricTileRow| r.p99));
        assert(c.min@ =~= none.map_values(|r: MetricTileRow| r.min));
        assert(c.max@ =~= none.map_values(|r: MetricTileRow| r.max));
    }
    while i < rows.len()
        invariant
            0 <= i <= rows.len(),
            are_metric_columns(rows@.take(i as int), c),
        decreases rows.len() - i,
    {
        let r = rows[i];
        c.bucket_start_ns.push(r.bucket_start_ns);
        c.bucket_width_ns.push(r.bucket_width_ns);
        c.gpu_id.push(r.gpu_id);
        c.metric_id.push(r.metric_id);
        c.p50.push(r.p50);
        c.p99.push(r.p99);
        c.min.push(r.min);
        c.max.push(r.max);
        proof {
            let upto = rows@.take(i + 1);
            assert(upto =~= rows@.take(i as int).push(r));
            assert(c.bucket_start_ns@ =~= upto.map_values(|r: MetricTileRow| r.bucket_start_ns));
            assert(c.bucket_width_ns@ =~= upto.map_values(|r: MetricTileRow| r.bucket_width_ns));
            assert(c.gpu_id@ =~= upto.map_values(|r: MetricTileRow| r.gpu_id));
            assert(c.metric_id@ =~= upto.map_values(|r: MetricTileRow| r.metric_id));
            assert(c.p50@ =~= upto.map_values(|r: MetricTileRow| r.p50));
            assert(c.p99@ =~= upto.map_values(|r: MetricTileRow| r.p99));
            assert(c.min@ =~= upto.map_values(|r: MetricTileRow| r.min));
            assert(c.max@ =~= upto.map_values(|r: MetricTileRow| r.max));
        }
        i = i + 1;
    }
    proof {
        assert(rows@.take(rows.len() as int) =~= rows@);
    }
    c
}

/// A raw event as the database returns it.
#[derive(Copy, Clone, Debug, PartialEq, Eq, Structural)]
pub struct RawEventDbRow {
    pub ts_ns: u64,
    pub duration_ns: u64,
    pub gpu_id: u8,
    pub category: u8,
    pub name_id: u64,
    pub correlation_id: u64,
    pub pid: u32,
    pub stream_id: u32,
}

/// The columns of some rows.
pub open spec fn are_raw_columns(rows: Seq<RawEventDbRow>, c: RawEventRows) -> bool {
    &&& c.ts_ns@ == rows.map_values(|r: RawEventDbRow| r.ts_ns)
    &&& c.duration_ns@ == rows.map_values(|r: RawEventDbRow| r.duration_ns)
    &&& c.gpu_id@ == rows.map_values(|r: RawEventDbRow| r.gpu_id)
    &&& c.category@ == rows.map_values(|r: RawEventDbRow| r.category)
    &&& c.name_id@ == rows.map_values(|r: RawEventDbRow| r.name_id)
    &&& c.correlation_id@ == rows.map_values(|r: RawEventDbRow| r.correlation_id)
    &&& c.pid@ == rows.map_values(|r: RawEventDbRow| r.pid)
    &&& c.stream_id@ == rows.map_values(|r: RawEventDbRow| r.stream_id)
}

/// Turns rows into columns.
pub fn raw_columns(rows: &Vec<RawEventDbRow>) -> (c: RawEventRows)
    ensures
        are_raw_columns(rows@, c),
        c.wf(),
{
    let mut c = RawEventRows::default();
    let mut i: usize = 0;
    proof {
        let none = rows@.take(0);
        assert(c.ts_ns@ =~= none.map_values(|r: RawEventDbRow| r.ts_ns));
        assert(c.duration_ns@ =~= none.map_values(|r: RawEventDbRow| r.duration_ns));
        assert(c.gpu_id@ =~= none.map_values(|r: RawEventDbRow| r.gpu_id));
        assert(c.category@ =~= none.map_values(|r: RawEventDbRow| r.category));
        assert(c.name_id@ =~= none.map_values(|r: RawEventDbRow| r.name_id));
        assert(c.correlation_id@ =~= none.map_values(|r: RawEventDbRow| r.correlation_id));
        assert(c.pid@ =~= none.map_values(|r: RawEventDbRow| r.pid));
        assert(c.stream_id@ =~= none.map_values(|r: RawEventDbRow| r.stream_id));
    }
    while i < rows.len()
        invariant
            0 <= i <= rows.len(),
            are_raw_columns(rows@.take(i as int), c),
        decreases rows.len() - i,
    {
        let r = rows[i];
        c.ts_ns.push(r.ts_ns);
        c.duration_ns.push(r.duration_ns);
        c.gpu_id.push(r.gpu_id);
        c.category.push(r.category);
        c.name_id.push(r.name_id);
        c.correlation_id.push(r.correlation_id);
        c.pid.push(r.pid);
        c.stream_id.push(r.stream_id);
        proof {
            let upto = rows@.take(i + 1);
            assert(upto =~= rows@.take(i as int).push(r));
            assert(c.ts_ns@ =~= upto.map_values(|r: RawEventDbRow| r.ts_ns));
            assert(c.duration_ns@ =~= upto.map_values(|r: RawEventDbRow| r.duration_ns));
            assert(c.gpu_id@ =~= upto.map_values(|r: RawEventDbRow| r.gpu_id));
            assert(c.category@ =~= upto.map_values(|r: RawEventDbRow| r.category));
            assert(c.name_id@ =~= upto.map_values(|r: RawEventDbRow| r.name_id));
            assert(c.correlation_id@ =~= upto.map_values(|r: RawEventDbRow| r.correlation_id));
            assert(c.pid@ =~= upto.map_values(|r: RawEventDbRow| r.pid));
            assert(c.stream_id@ =~= upto.map_values(|r: RawEventDbRow| r.stream_id));
        }
        i = i + 1;
    }
    proof {
        assert(rows@.take(rows.len() as int) =~= rows@);
    }
    c
}

} // verus!
