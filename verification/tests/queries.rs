use arrow::array::{Array, Float64Array, UInt64Array, UInt8Array};
use arrow::ipc::reader::StreamReader;
use perfweave::arrow_tile::{activity_to_arrow, metric_to_arrow, raw_to_arrow, ActivityTileRows};
use perfweave::filters::{
    category_filter_sql, gpu_filter_sql, metric_filter_sql, sanitize_u32_list, sanitize_u64_list,
};
use perfweave::graphql::{
    kernel_sol_to_row, spike_window, Bottleneck, KernelRow, Mutation, Query, SolColumns,
    SpikeAnswers, Utilization,
};
use perfweave::model::{Bound, Confidence, KernelSol, Source};
use perfweave::text::{
    chars_of, first_word_range, line_bounds, parse_unsigned, replace_text, split_bounds, text_of,
    upper_of,
};
use perfweave::timeline::{
    activity_columns, default_pixels, metric_columns, plan, raw_columns, ActivityTileRow,
    MetricTileRow, RawEventDbRow, TimelineError, TimelineKind, TimelineQuery,
};

#[test]
fn lists_are_sanitized() {
    assert_eq!(sanitize_u32_list("1, 2,x,3); DROP,4294967296,+7"), "1,2,7");
    assert_eq!(sanitize_u64_list("18446744073709551615,18446744073709551616"), "18446744073709551615");
    assert_eq!(sanitize_u32_list(""), "");
    let once = sanitize_u32_list(" 05 ,a,6");
    assert_eq!(once, "5,6");
    assert_eq!(sanitize_u32_list(&once), once);
}

#[test]
fn filters_hold_known_values_only() {
    assert_eq!(gpu_filter_sql(None), "");
    assert_eq!(gpu_filter_sql(Some("")), "");
    assert_eq!(gpu_filter_sql(Some("0,1")), " AND gpu_id IN (0,1)");
    assert_eq!(metric_filter_sql(Some("5")), " AND metric_id IN (5)");
    assert_eq!(
        category_filter_sql(Some("kernel, Memcpy,'; DROP"), "category"),
        " AND category IN ('KERNEL','MEMCPY')"
    );
    assert_eq!(category_filter_sql(Some("nothing"), "category"), "");
    assert_eq!(category_filter_sql(None, "category"), "");
}

fn query() -> TimelineQuery {
    TimelineQuery {
        start_ns: 1_000_000_000,
        end_ns: 2_000_000_000,
        gpus: Some("0".to_string()),
        categories: None,
        pixels: 1024,
        kind: None,
        metric_ids: Some("9".to_string()),
    }
}

#[test]
fn plans_pick_a_kind_and_a_tile() {
    let p = plan(&query()).unwrap();
    assert_eq!(p.kind, TimelineKind::Activity);
    assert_eq!(p.label, "activity");
    assert!(p.sql.contains("bucket_width_ns = 4096000"));
    assert!(p.sql.contains("bucket_start_ns >= 1000000000"));
    assert!(p.sql.contains("bucket_start_ns <  2000000000"));
    assert!(p.sql.contains(" AND gpu_id IN (0)"));
    let narrow = TimelineQuery { end_ns: 1_000_100_000, ..query() };
    let p = plan(&narrow).unwrap();
    assert_eq!(p.kind, TimelineKind::Raw);
    assert!(p.sql.contains("LIMIT 200000"));
    let metric = TimelineQuery { kind: Some("metric".to_string()), ..query() };
    let p = plan(&metric).unwrap();
    assert_eq!(p.kind, TimelineKind::Metric);
    assert!(p.sql.contains(" AND metric_id IN (9)"));
    let odd = TimelineQuery { kind: Some("odd".to_string()), ..query() };
    let p = plan(&odd).unwrap();
    assert_eq!((p.kind, p.label.as_str()), (TimelineKind::Activity, "odd"));
    assert_eq!(default_pixels(), 2048);
}

#[test]
fn empty_ranges_are_refused() {
    let empty = TimelineQuery { end_ns: 1_000_000_000, ..query() };
    let e = plan(&empty).unwrap_err();
    assert_eq!(e, TimelineError::EmptyRange);
    assert_eq!(e.message(), "end_ns must be > start_ns");
}

#[test]
fn activity_tiles_are_arrow_streams() {
    let row = |n: u64| ActivityTileRow {
        bucket_start_ns: n,
        bucket_width_ns: 8,
        gpu_id: 1,
        category: 3,
        count: 4,
        sum_duration_ns: 5,
        max_duration_ns: 6,
        top_name_id: 7,
    };
    let bytes = activity_to_arrow(&activity_columns(&vec![row(10), row(20)])).unwrap();
    let mut reader = StreamReader::try_new(bytes.as_slice(), None).unwrap();
    let names: Vec<String> =
        reader.schema().fields().iter().map(|f| f.name().to_string()).collect();
    assert_eq!(
        names,
        vec![
            "bucket_start_ns",
            "bucket_width_ns",
            "gpu_id",
            "category",
            "count",
            "sum_duration_ns",
            "max_duration_ns",
            "top_name_id"
        ]
    );
    assert!(reader.schema().fields().iter().all(|f| !f.is_nullable()));
    let batch = reader.next().unwrap().unwrap();
    let starts = batch.column(0).as_any().downcast_ref::<UInt64Array>().unwrap();
    assert_eq!(starts.values().to_vec(), vec![10, 20]);
    let gpus = batch.column(2).as_any().downcast_ref::<UInt8Array>().unwrap();
    assert_eq!(gpus.len(), 2);
    assert!(reader.next().is_none());
}

#[test]
fn metric_tiles_are_arrow_streams() {
    let rows = vec![MetricTileRow {
        bucket_start_ns: 1,
        bucket_width_ns: 2,
        gpu_id: 3,
        metric_id: 4,
        p50: 0.5f64.to_bits(),
        p99: 0.99f64.to_bits(),
        min: (-1.0f64).to_bits(),
        max: 2.0f64.to_bits(),
    }];
    let bytes = metric_to_arrow(&metric_columns(&rows)).unwrap();
    let mut reader = StreamReader::try_new(bytes.as_slice(), None).unwrap();
    let batch = reader.next().unwrap().unwrap();
    let value = |i: usize| batch.column(i).as_any().downcast_ref::<Float64Array>().unwrap().value(0);
    assert_eq!((value(4), value(5), value(6), value(7)), (0.5, 0.99, -1.0, 2.0));
    assert_eq!(batch.schema().field(7).name(), "max");
}

#[test]
fn raw_events_are_arrow_streams() {
    let rows = vec![RawEventDbRow {
        ts_ns: 1,
        duration_ns: 2,
        gpu_id: 3,
        category: 4,
        name_id: 5,
        correlation_id: 6,
        pid: 7,
        stream_id: 8,
    }];
    let bytes = raw_to_arrow(&raw_columns(&rows)).unwrap();
    let mut reader = StreamReader::try_new(bytes.as_slice(), None).unwrap();
    let batch = reader.next().unwrap().unwrap();
    assert_eq!((batch.num_rows(), batch.num_columns()), (1, 8));
}

#[test]
fn ragged_columns_make_no_batch() {
    let mut rows = ActivityTileRows::default();
    assert!(activity_to_arrow(&rows).is_some());
    rows.count.push(1);
    assert!(activity_to_arrow(&rows).is_none());
}

#[test]
fn queries_name_what_was_asked_for() {
    let q = Query;
    assert_eq!(q.strings(&Vec::new()), None);
    assert_eq!(
        q.strings(&vec![3, 4]).unwrap(),
        "SELECT id, text FROM strings FINAL WHERE id IN (3,4)"
    );
    assert!(q.spikes(1, 2).contains("bucket_start_ns >= 1"));
    assert!(q.correlated(77).contains("correlation_id = 77"));
    let top = q.top_kernels_in_window(1, 2, Some(3), Some(100));
    assert!(top.contains(" AND gpu_id = 3"));
    assert!(top.contains("LIMIT 32"));
    assert!(q.top_kernels_in_window(1, 2, None, None).contains("LIMIT 3"));
}

#[test]
fn spikes_are_explained_by_their_window() {
    assert_eq!(spike_window(2_000_000_000, 1_000_000_000), (1_500_000_000, 3_500_000_000));
    assert_eq!(spike_window(1, 1), (0, 500_000_002));
    assert_eq!(spike_window(u64::MAX, 1).1, u64::MAX);
    let q = Query.spike_queries(2_000_000_000, 1_000_000_000, 5, 6);
    assert_eq!(q.metric_name, "SELECT text FROM strings FINAL WHERE id = 6 LIMIT 1");
    for sql in [&q.utilization, &q.top_kernels, &q.kernels_in_window] {
        assert!(sql.contains("1500000000") && sql.contains("3500000000"));
    }
}

fn columns() -> SolColumns {
    SolColumns {
        sm_active_pct: 0,
        achieved_occupancy_pct: 0,
        dram_bw_pct: 0,
        l1_bw_pct: 0,
        l2_bw_pct: 0,
        inst_throughput_pct: 0,
        arithmetic_intensity: 0,
        achieved_gflops: 0,
        bound: String::new(),
        confidence: String::new(),
        source: String::new(),
    }
}

fn kernel(correlation_id: u64, sol_rows: u64) -> KernelRow {
    KernelRow {
        correlation_id,
        name_id: 1,
        name: "k".to_string(),
        ts_ns: 2,
        duration_ns: 3,
        gpu_id: 4,
        sol: columns(),
        sol_rows,
    }
}

fn context(mem_leads: bool, mem_busy: bool, gpu_leads: bool, gpu_busy: bool) -> Bottleneck {
    let found = SpikeAnswers {
        metric_name: None,
        utilization: Utilization {
            avg_gpu_util_bits: 0,
            avg_mem_util_bits: 0,
            mem_leads,
            mem_busy,
            gpu_leads,
            gpu_busy,
        },
        top_kernels: Vec::new(),
        kernels: vec![kernel(1, 0), kernel(2, 1)],
    };
    let ctx = Query.spike_context(1, 2, 3, 4, found);
    assert_eq!(ctx.metric_name, "metric#4");
    assert!(ctx.kernels_in_window[0].sol.is_none());
    assert!(ctx.kernels_in_window[1].sol.is_some());
    ctx.bottleneck
}

#[test]
fn bottlenecks_need_a_leader_that_is_busy() {
    assert!(matches!(context(true, true, false, false), Bottleneck::MemoryBound));
    assert!(matches!(context(false, false, true, true), Bottleneck::ComputeBound));
    assert!(matches!(context(true, false, false, true), Bottleneck::Unclassified));
}

#[test]
fn replay_requests_and_cards() {
    let req = Mutation.profile_request(1, 2, 3, vec![4], None);
    assert_eq!((req.gpu_id, req.timeout_ms), (1, 5_000));
    assert_eq!(req.correlation_ids, vec![4]);
    assert!(req.name_ids.is_empty());
    assert_eq!(Mutation.profile_request(1, 2, 3, Vec::new(), Some(9)).timeout_ms, 9);
    let card = KernelSol {
        correlation_id: 1,
        sm_active_pct: 2,
        achieved_occupancy_pct: 3,
        dram_bw_pct: 4,
        l1_bw_pct: 5,
        l2_bw_pct: 6,
        inst_throughput_pct: 7,
        theoretical_occupancy_pct: 8,
        arithmetic_intensity: 9,
        achieved_gflops: 10,
        bound: Bound::Latency,
        confidence: Confidence::Low,
        source: Source::HostSampling,
        stalls: Vec::new(),
    };
    let shown = kernel_sol_to_row(&card);
    assert_eq!(shown.achieved_gflops, 10);
    assert_eq!(shown.bound, Bound::Latency.name());
    assert_eq!(shown.confidence, Confidence::Low.name());
    assert_eq!(shown.source, Source::HostSampling.name());
}

#[test]
fn texts_are_taken_apart() {
    let cs = chars_of("a,,b");
    let parts: Vec<String> =
        split_bounds(&cs, ',').iter().map(|(a, b)| text_of(&cs, *a, *b)).collect();
    assert_eq!(parts, vec!["a", "", "b"]);
    let cs = chars_of("x\r\ny\n");
    let lines: Vec<String> = line_bounds(&cs).iter().map(|(a, b)| text_of(&cs, *a, *b)).collect();
    assert_eq!(lines, vec!["x", "y"]);
    let cs = chars_of("  12 kB");
    let (a, b) = first_word_range(&cs, 0, cs.len());
    assert_eq!(text_of(&cs, a, b), "12");
    assert_eq!(parse_unsigned(&cs, a, b, u64::MAX), Some(12));
    assert_eq!(parse_unsigned(&cs, 0, cs.len(), u64::MAX), None);
    assert_eq!(parse_unsigned(&cs, a, b, 11), None);
    assert_eq!(upper_of(&chars_of("aZé1"), 0, 4), "AZé1");
    assert_eq!(replace_text("aaa", "aa", "b"), "ba");
}
