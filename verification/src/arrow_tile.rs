//! Timeline columns as Arrow streams.

use arrow::array::{ArrayRef, Float64Array, RecordBatch, UInt32Array, UInt64Array, UInt8Array};
use arrow::buffer::Buffer;
use arrow::ipc::writer::StreamWriter;
use std::sync::Arc;
use vstd::prelude::*;

verus! {

/// The values of a column. Doubles are given by their bits.
#[derive(Debug)]
pub enum ColumnData {
    U8(Vec<u8>),
    U32(Vec<u32>),
    U64(Vec<u64>),
    Double(Vec<u64>),
}

/// The values of a column, as sequences.
pub enum Values {
    U8(Seq<u8>),
    U32(Seq<u32>),
    U64(Seq<u64>),
    Double(Seq<u64>),
}

impl Values {
    pub open spec fn len(self) -> nat {
        match self {
            Values::U8(v) => v.len(),
            Values::U32(v) => v.len(),
            Values::U64(v) => v.len(),
            Values::Double(v) => v.len(),
        }
    }
}

/// A named column without nulls.
#[derive(Debug)]
pub struct Column {
    pub name: &'static str,
    pub data: ColumnData,
}

impl View for Column {
    type V = (Seq<char>, Values);

    open spec fn view(&self) -> (Seq<char>, Values) {
        (
            self.name@,
            match self.data {
                ColumnData::U8(v) => Values::U8(v@),
                ColumnData::U32(v) => Values::U32(v@),
                ColumnData::U64(v) => Values::U64(v@),
                ColumnData::Double(v) => Values::Double(v@),
            },
        )
    }
}

/// Names and values of columns.
pub open spec fn views(columns: Seq<Column>) -> Seq<(Seq<char>, Values)> {
    columns.map_values(|c: Column| c@)
}

/// There is a column, and all columns are equally long.
pub open spec fn is_rectangular(columns: Seq<(Seq<char>, Values)>) -> bool {
    columns.len() > 0 && forall|i: int|
        0 <= i < columns.len() ==> (#[trigger] columns[i]).1.len() == columns[0].1.len()
}

/// The schema of these columns is small: few columns, and short names.
pub open spec fn has_small_schema(columns: Seq<Column>) -> bool {
    columns.len() <= 64 && forall|i: int|
        0 <= i < columns.len() ==> (#[trigger] columns[i]).name@.len() <= 64
}

/// The Arrow IPC stream of a batch with these columns, none of them nullable.
pub uninterp spec fn ipc_stream_of(columns: Seq<(Seq<char>, Values)>) -> Seq<u8>;

/// `RecordBatch::try_from_iter` makes a batch of the columns, in order, exactly
/// when there is one and all are equally long; `StreamWriter` then writes the
/// schema, the batch and the end mark, which does not fail for numbers written to
/// memory. On the little-endian machines that the library is for, the bytes depend
/// on the columns alone. Writing a schema of two gigabytes or more panics.
#[verifier::external_body]
fn arrow_stream(columns: Vec<Column>) -> (bytes: Option<Vec<u8>>)
    requires
        has_small_schema(columns@),
    ensures
        bytes is Some <==> is_rectangular(views(columns@)),
        bytes matches Some(b) ==> b@ == ipc_stream_of(views(columns@)),
{
    let arrays = columns.into_iter().map(|c| {
        let array: ArrayRef = match c.data {
            ColumnData::U8(v) => Arc::new(UInt8Array::from(v)),
            ColumnData::U32(v) => Arc::new(UInt32Array::from(v)),
            ColumnData::U64(v) => Arc::new(UInt64Array::from(v)),
            ColumnData::Double(v) => Arc::new(Float64Array::new(Buffer::from_vec(v).into(), None)),
        };
        (c.name, array)
    });
    let batch = RecordBatch::try_from_iter(arrays).ok()?;
    let mut writer = StreamWriter::try_new(Vec::new(), &batch.schema()).ok()?;
    writer.write(&batch).ok()?;
    writer.into_inner().ok()
}

/// The stream of some columns; none if they make no batch.
pub open spec fn encoded(columns: Seq<(Seq<char>, Values)>) -> Option<Seq<u8>> {
    if is_rectangular(columns) {
        Some(ipc_stream_of(columns))
    } else {
        None
    }
}

/// The bytes in an optional vector.
pub open spec fn bytes_view(b: Option<Vec<u8>>) -> Option<Seq<u8>> {
    match b {
        Some(v) => Some(v@),
        None => None,
    }
}

/// Activity tiles, column by column.
#[derive(Debug)]
pub struct ActivityTileRows {
    pub bucket_start_ns: Vec<u64>,
    pub bucket_width_ns: Vec<u64>,
    pub gpu_id: Vec<u8>,
    pub category: Vec<u8>,
    pub count: Vec<u64>,
    pub sum_duration_ns: Vec<u64>,
    pub max_duration_ns: Vec<u64>,
    pub top_name_id: Vec<u64>,
}

impl ActivityTileRows {
    /// All columns have the same length.
    pub open spec fn wf(self) -> bool {
        let n = self.bucket_start_ns@.len();
        &&& self.bucket_width_ns@.len() == n
        &&& self.gpu_id@.len() == n
        &&& self.category@.len() == n
        &&& self.count@.len() == n
        &&& self.sum_duration_ns@.len() == n
        &&& self.max_duration_ns@.len() == n
        &&& self.top_name_id@.len() == n
    }
}

impl Default for ActivityTileRows {
    fn default() -> (c: Self)
        ensures
            c.wf(),
            c.bucket_start_ns@.len() == 0,
    {
        ActivityTileRows {
            bucket_start_ns: Vec::new(),
            bucket_width_ns: Vec::new(),
            gpu_id: Vec::new(),
            category: Vec::new(),
            count: Vec::new(),
            sum_duration_ns: Vec::new(),
            max_duration_ns: Vec::new(),
            top_name_id: Vec::new(),
        }
    }
}

/// Metric tiles, column by column; metric values are given by their bits.
#[derive(Debug)]
pub struct MetricTileRows {
    pub bucket_start_ns: Vec<u64>,
    pub bucket_width_ns: Vec<u64>,
    pub gpu_id: Vec<u8>,
    pub metric_id: Vec<u64>,
    pub p50: Vec<u64>,
    pub p99: Vec<u64>,
    pub min: Vec<u64>,
    pub max: Vec<u64>,
}

impl MetricTileRows {
    /// All columns have the same length.
    pub open spec fn wf(self) -> bool {
        let n = self.bucket_start_ns@.len();
        &&& self.bucket_width_ns@.len() == n
        &&& self.gpu_id@.len() == n
        &&& self.metric_id@.len() == n
        &&& self.p50@.len() == n
        &&& self.p99@.len() == n
        &&& self.min@.len() == n
        &&& self.max@.len() == n
    }
}

impl Default for MetricTileRows {
    fn default() -> (c: Self)
        ensures
            c.wf(),
            c.bucket_start_ns@.len() == 0,
    {
        MetricTileRows {
            bucket_start_ns: Vec::new(),
            bucket_width_ns: Vec::new(),
            gpu_id: Vec::new(),
            metric_id: Vec::new(),
            p50: Vec::new(),
            p99: Vec::new(),
            min: Vec::new(),
            max: Vec::new(),
        }
    }
}

/// Raw events, column by column.
#[derive(Debug)]
pub struct RawEventRows {
    pub ts_ns: Vec<u64>,
    pub duration_ns: Vec<u64>,
    pub gpu_id: Vec<u8>,
    pub category: Vec<u8>,
    pub name_id: Vec<u64>,
    pub correlation_id: Vec<u64>,
    pub pid: Vec<u32>,
    pub stream_id: Vec<u32>,
}

impl RawEventRows {
    /// All columns have the same length.
    pub open spec fn wf(self) -> bool {
        let n = self.ts_ns@.len();
        &&& self.duration_ns@.len() == n
        &&& self.gpu_id@.len() == n
        &&& self.category@.len() == n
        &&& self.name_id@.len() == n
        &&& self.correlation_id@.len() == n
        &&& self.pid@.len() == n
        &&& self.stream_id@.len() == n
    }
}

impl Default for RawEventRows {
    fn default() -> (c: Self)
        ensures
            c.wf(),
            c.ts_ns@.len() == 0,
    {
        RawEventRows {
            ts_ns: Vec::new(),
            duration_ns: Vec::new(),
            gpu_id: Vec::new(),
            category: Vec::new(),
            name_id: Vec::new(),
            correlation_id: Vec::new(),
            pid: Vec::new(),
            stream_id: Vec::new(),
        }
    }
}

/// The columns of activity tiles.
pub open spec fn activity_schema(rows: ActivityTileRows) -> Seq<(Seq<char>, Values)> {
    seq![
        ("bucket_start_ns"@, Values::U64(rows.bucket_start_ns@)),
        ("bucket_width_ns"@, Values::U64(rows.bucket_width_ns@)),
        ("gpu_id"@, Values::U8(rows.gpu_id@)),
        ("category"@, Values::U8(rows.category@)),
        ("count"@, Values::U64(rows.count@)),
        ("sum_duration_ns"@, Values::U64(rows.sum_duration_ns@)),
        ("max_duration_ns"@, Values::U64(rows.max_duration_ns@)),
        ("top_name_id"@, Values::U64(rows.top_name_id@)),
    ]
}

/// Encodes activity tiles.
pub fn activity_to_arrow(rows: &ActivityTileRows) -> (bytes: Option<Vec<u8>>)
    ensures
        bytes_view(bytes) == encoded(activity_schema(*rows)),
{
    let mut columns: Vec<Column> = Vec::new();
    columns.push(
        Column { name: "bucket_start_ns", data: ColumnData::U64(rows.bucket_start_ns.clone()) },
    );
    columns.push(
        Column { name: "bucket_width_ns", data: ColumnData::U64(rows.bucket_width_ns.clone()) },
    );
    columns.push(Column { name: "gpu_id", data: ColumnData::U8(rows.gpu_id.clone()) });
    columns.push(Column { name: "category", data: ColumnData::U8(rows.category.clone()) });
    columns.push(Column { name: "count", data: ColumnData::U64(rows.count.clone()) });
    columns.push(
        Column { name: "sum_duration_ns", data: ColumnData::U64(rows.sum_duration_ns.clone()) },
    );
    columns.push(
        Column { name: "max_duration_ns", data: ColumnData::U64(rows.max_duration_ns.clone()) },
    );
    columns.push(Column { name: "top_name_id", data: ColumnData::U64(rows.top_name_id.clone()) });
    assert(views(columns@) =~= activity_schema(*rows));
    proof {
        reveal_strlit("bucket_start_ns");
        reveal_strlit("bucket_width_ns");
        reveal_strlit("gpu_id");
        reveal_strlit("category");
        reveal_strlit("count");
        reveal_strlit("sum_duration_ns");
        reveal_strlit("max_duration_ns");
        reveal_strlit("top_name_id");
    }
    arrow_stream(columns)
}

/// The columns of metric tiles.
pub open spec fn metric_schema(rows: MetricTileRows) -> Seq<(Seq<char>, Values)> {
    seq![
        ("bucket_start_ns"@, Values::U64(rows.bucket_start_ns@)),
        ("bucket_width_ns"@, Values::U64(rows.bucket_width_ns@)),
        ("gpu_id"@, Values::U8(rows.gpu_id@)),
        ("metric_id"@, Values::U64(rows.metric_id@)),
        ("p50"@, Values::Double(rows.p50@)),
        ("p99"@, Values::Double(rows.p99@)),
        ("min"@, Values::Double(rows.min@)),
        ("max"@, Values::Double(rows.max@)),
    ]
}

/// Encodes metric tiles.
pub fn metric_to_arrow(rows: &MetricTileRows) -> (bytes: Option<Vec<u8>>)
    ensures
        bytes_view(bytes) == encoded(metric_schema(*rows)),
{
    let mut columns: Vec<Column> = Vec::new();
    columns.push(
        Column { name: "bucket_start_ns", data: ColumnData::U64(rows.bucket_start_ns.clone()) },
    );
    columns.push(
        Column { name: "bucket_width_ns", data: ColumnData::U64(rows.bucket_width_ns.clone()) },
    );
    columns.push(Column { name: "gpu_id", data: ColumnData::U8(rows.gpu_id.clone()) });
    columns.push(Column { name: "metric_id", data: ColumnData::U64(rows.metric_id.clone()) });
    columns.push(Column { name: "p50", data: ColumnData::Double(rows.p50.clone()) });
    columns.push(Column { name: "p99", data: ColumnData::Double(rows.p99.clone()) });
    columns.push(Column { name: "min", data: ColumnData::Double(rows.min.clone()) });
    columns.push(Column { name: "max", data: ColumnData::Double(rows.max.clone()) });
    assert(views(columns@) =~= metric_schema(*rows));
    proof {
        reveal_strlit("bucket_start_ns");
        reveal_strlit("bucket_width_ns");
        reveal_strlit("gpu_id");
        reveal_strlit("metric_id");
        reveal_strlit("p50");
        reveal_strlit("p99");
        reveal_strlit("min");
        reveal_strlit("max");
    }
    arrow_stream(columns)
}

/// The columns of raw events.
pub open spec fn raw_schema(rows: RawEventRows) -> Seq<(Seq<char>, Values)> {
    seq![
        ("ts_ns"@, Values::U64(rows.ts_ns@)),
        ("duration_ns"@, Values::U64(rows.duration_ns@)),
        ("gpu_id"@, Values::U8(rows.gpu_id@)),
        ("category"@, Values::U8(rows.category@)),
        ("name_id"@, Values::U64(rows.name_id@)),
        ("correlation_id"@, Values::U64(rows.correlation_id@)),
        ("pid"@, Values::U32(rows.pid@)),
        ("stream_id"@, Values::U32(rows.stream_id@)),
    ]
}

/// Encodes raw events.
pub fn raw_to_arrow(rows: &RawEventRows) -> (bytes: Option<Vec<u8>>)
    ensures
        bytes_view(bytes) == encoded(raw_schema(*rows)),
{
    let mut columns: Vec<Column> = Vec::new();
    columns.push(Column { name: "ts_ns", data: ColumnData::U64(rows.ts_ns.clone()) });
    columns.push(Column { name: "duration_ns", data: ColumnData::U64(rows.duration_ns.clone()) });
    columns.push(Column { name: "gpu_id", data: ColumnData::U8(rows.gpu_id.clone()) });
    columns.push(Column { name: "category", data: ColumnData::U8(rows.category.clone()) });
    columns.push(Column { name: "name_id", data: ColumnData::U64(rows.name_id.clone()) });
    columns.push(
        Column { name: "correlation_id", data: ColumnData::U64(rows.correlation_id.clone()) },
    );
    columns.push(Column { name: "pid", data: ColumnData::U32(rows.pid.clone()) });
    columns.push(Column { name: "stream_id", data: ColumnData::U32(rows.stream_id.clone()) });
    assert(views(columns@) =~= raw_schema(*rows));
    proof {
        reveal_strlit("ts_ns");
        reveal_strlit("duration_ns");
        reveal_strlit("gpu_id");
        reveal_strlit("category");
        reveal_strlit("name_id");
        reveal_strlit("correlation_id");
        reveal_strlit("pid");
        reveal_strlit("stream_id");
    }
    arrow_stream(columns)
}

/// Columns of equal length are always encoded.
pub proof fn equal_columns_make_a_batch(a: ActivityTileRows, m: MetricTileRows, r: RawEventRows)
    requires
        a.wf(),
        m.wf(),
        r.wf(),
    ensures
        encoded(activity_schema(a)) is Some,
        encoded(metric_schema(m)) is Some,
        encoded(raw_schema(r)) is Some,
{
}

/// The columns sent are those of the rows under their own names, in the order that
/// clients expect.
pub proof fn columns_are_sent_under_their_names(
    a: ActivityTileRows,
    m: MetricTileRows,
    r: RawEventRows,
)
    ensures
        activity_schema(a).len() == 8,
        activity_schema(a)[0] == ("bucket_start_ns"@, Values::U64(a.bucket_start_ns@)),
        activity_schema(a)[1] == ("bucket_width_ns"@, Values::U64(a.bucket_width_ns@)),
        activity_schema(a)[2] == ("gpu_id"@, Values::U8(a.gpu_id@)),
        activity_schema(a)[3] == ("category"@, Values::U8(a.category@)),
        activity_schema(a)[4] == ("count"@, Values::U64(a.count@)),
        activity_schema(a)[5] == ("sum_duration_ns"@, Values::U64(a.sum_duration_ns@)),
        activity_schema(a)[6] == ("max_duration_ns"@, Values::U64(a.max_duration_ns@)),
        activity_schema(a)[7] == ("top_name_id"@, Values::U64(a.top_name_id@)),
        metric_schema(m).len() == 8,
        metric_schema(m)[0] == ("bucket_start_ns"@, Values::U64(m.bucket_start_ns@)),
        metric_schema(m)[1] == ("bucket_width_ns"@, Values::U64(m.bucket_width_ns@)),
        metric_schema(m)[2] == ("gpu_id"@, Values::U8(m.gpu_id@)),
        metric_schema(m)[3] == ("metric_id"@, Values::U64(m.metric_id@)),
        metric_schema(m)[4] == ("p50"@, Values::Double(m.p50@)),
        metric_schema(m)[5] == ("p99"@, Values::Double(m.p99@)),
        metric_schema(m)[6] == ("min"@, Values::Double(m.min@)),
        metric_schema(m)[7] == ("max"@, Values::Double(m.max@)),
        raw_schema(r).len() == 8,
        raw_schema(r)[0] == ("ts_ns"@, Values::U64(r.ts_ns@)),
        raw_schema(r)[1] == ("duration_ns"@, Values::U64(r.duration_ns@)),
        raw_schema(r)[2] == ("gpu_id"@, Values::U8(r.gpu_id@)),
        raw_schema(r)[3] == ("category"@, Values::U8(r.category@)),
        raw_schema(r)[4] == ("name_id"@, Values::U64(r.name_id@)),
        raw_schema(r)[5] == ("correlation_id"@, Values::U64(r.correlation_id@)),
        raw_schema(r)[6] == ("pid"@, Values::U32(r.pid@)),
        raw_schema(r)[7] == ("stream_id"@, Values::U32(r.stream_id@)),
{
}

} // verus!
