//! The canonical event model that agents send and the server stores.
//!
//! Measured values are carried as the bits of an IEEE 754 double or single:
//! nothing here computes with them.

use vstd::prelude::*;

verus! {

/// What an event describes.
#[derive(Copy, Clone, Debug, PartialEq, Eq, Structural)]
pub enum Category {
    Unspecified,
    Metric,
    ApiCall,
    Kernel,
    Memcpy,
    Memset,
    Sync,
    Overhead,
    Marker,
    Sol,
}

/// Direction of a copy.
#[derive(Copy, Clone, Debug, PartialEq, Eq, Structural)]
pub enum MemcpyKind {
    Unknown,
    H2d,
    D2h,
    D2d,
    H2h,
    P2p,
}

#[derive(Copy, Clone, Debug, PartialEq, Eq, Structural)]
pub struct KernelDetail {
    pub grid_x: u32,
    pub grid_y: u32,
    pub grid_z: u32,
    pub block_x: u32,
    pub block_y: u32,
    pub block_z: u32,
    pub static_shared_mem_bytes: u32,
    pub dynamic_shared_mem_bytes: u32,
    pub registers_per_thread: u32,
    pub local_mem_per_thread: u32,
    pub launch_cbid: u32,
}

#[derive(Copy, Clone, Debug, PartialEq, Eq, Structural)]
pub struct MemcpyDetail {
    pub kind: MemcpyKind,
    pub bytes: u64,
    pub src_device: u32,
    pub dst_device: u32,
}

#[derive(Copy, Clone, Debug, PartialEq, Eq, Structural)]
pub struct ApiCallDetail {
    pub cbid: u32,
    pub status: u32,
}

#[derive(Copy, Clone, Debug, PartialEq, Eq, Structural)]
pub struct MarkerDetail {
    pub domain_id: u64,
    pub color_argb: u32,
    pub message_id: u64,
}

#[derive(Clone, Debug)]
pub struct MetricSample {
    pub metric_id: u64,
    pub value_bits: u64,
    pub unit: String,
}

/// What bounds a kernel's speed.
#[derive(Copy, Clone, Debug, PartialEq, Eq, Structural)]
pub enum Bound {
    Unspecified,
    Memory,
    Compute,
    Latency,
    Balanced,
}

/// How far a speed-of-light card can be relied on.
#[derive(Copy, Clone, Debug, PartialEq, Eq, Structural)]
pub enum Confidence {
    Unspecified,
    Low,
    High,
}

/// Where a speed-of-light card comes from.
#[derive(Copy, Clone, Debug, PartialEq, Eq, Structural)]
pub enum Source {
    Unspecified,
    HostSampling,
    Replay,
}

impl Category {
    /// The number that stands for this category in messages.
    pub open spec fn code_spec(self) -> i32 {
        match self {
            Category::Unspecified => 0,
            Category::Metric => 1,
            Category::ApiCall => 2,
            Category::Kernel => 3,
            Category::Memcpy => 4,
            Category::Memset => 5,
            Category::Sync => 6,
            Category::Overhead => 7,
            Category::Marker => 8,
            Category::Sol => 9,
        }
    }

    pub fn code(self) -> (n: i32)
        ensures
            n == self.code_spec(),
    {
        match self {
            Category::Unspecified => 0,
            Category::Metric => 1,
            Category::ApiCall => 2,
            Category::Kernel => 3,
            Category::Memcpy => 4,
            Category::Memset => 5,
            Category::Sync => 6,
            Category::Overhead => 7,
            Category::Marker => 8,
            Category::Sol => 9,
        }
    }

    /// The category that a number stands for; other numbers stand for none.
    pub open spec fn coded(n: i32) -> Self {
        if n == 1 {
            Category::Metric
        } else if n == 2 {
            Category::ApiCall
        } else if n == 3 {
            Category::Kernel
        } else if n == 4 {
            Category::Memcpy
        } else if n == 5 {
            Category::Memset
        } else if n == 6 {
            Category::Sync
        } else if n == 7 {
            Category::Overhead
        } else if n == 8 {
            Category::Marker
        } else if n == 9 {
            Category::Sol
        } else {
            Category::Unspecified
        }
    }

    pub fn of_code(n: i32) -> (x: Self)
        ensures
            x == Self::coded(n),
    {
        match n {
            1 => Category::Metric,
            2 => Category::ApiCall,
            3 => Category::Kernel,
            4 => Category::Memcpy,
            5 => Category::Memset,
            6 => Category::Sync,
            7 => Category::Overhead,
            8 => Category::Marker,
            9 => Category::Sol,
            _ => Category::Unspecified,
        }
    }
}

impl MemcpyKind {
    /// The number that stands for this direction in messages.
    pub open spec fn code_spec(self) -> i32 {
        match self {
            MemcpyKind::Unknown => 0,
            MemcpyKind::H2d => 1,
            MemcpyKind::D2h => 2,
            MemcpyKind::D2d => 3,
            MemcpyKind::H2h => 4,
            MemcpyKind::P2p => 5,
        }
    }

    pub fn code(self) -> (n: i32)
        ensures
            n == self.code_spec(),
    {
        match self {
            MemcpyKind::Unknown => 0,
            MemcpyKind::H2d => 1,
            MemcpyKind::D2h => 2,
            MemcpyKind::D2d => 3,
            MemcpyKind::H2h => 4,
            MemcpyKind::P2p => 5,
        }
    }

    /// The direction that a number stands for; other numbers stand for none.
    pub open spec fn coded(n: i32) -> Self {
        if n == 1 {
            MemcpyKind::H2d
        } else if n == 2 {
            MemcpyKind::D2h
        } else if n == 3 {
            MemcpyKind::D2d
        } else if n == 4 {
            MemcpyKind::H2h
        } else if n == 5 {
            MemcpyKind::P2p
        } else {
            MemcpyKind::Unknown
        }
    }

    pub fn of_code(n: i32) -> (x: Self)
        ensures
            x == Self::coded(n),
    {
        match n {
            1 => MemcpyKind::H2d,
            2 => MemcpyKind::D2h,
            3 => MemcpyKind::D2d,
            4 => MemcpyKind::H2h,
            5 => MemcpyKind::P2p,
            _ => MemcpyKind::Unknown,
        }
    }
}

impl Bound {
    /// The number stored for this bound.
    pub open spec fn code_spec(self) -> i8 {
        match self {
            Bound::Unspecified => 0,
            Bound::Memory => 1,
            Bound::Compute => 2,
            Bound::Latency => 3,
            Bound::Balanced => 4,
        }
    }

    pub fn code(self) -> (n: i8)
        ensures
            n == self.code_spec(),
    {
        match self {
            Bound::Unspecified => 0,
            Bound::Memory => 1,
            Bound::Compute => 2,
            Bound::Latency => 3,
            Bound::Balanced => 4,
        }
    }

    /// The bound that a number stands for; other numbers stand for none.
    pub open spec fn coded(n: i32) -> Self {
        if n == 1 {
            Bound::Memory
        } else if n == 2 {
            Bound::Compute
        } else if n == 3 {
            Bound::Latency
        } else if n == 4 {
            Bound::Balanced
        } else {
            Bound::Unspecified
        }
    }

    pub fn of_code(n: i32) -> (x: Self)
        ensures
            x == Self::coded(n),
    {
        match n {
            1 => Bound::Memory,
            2 => Bound::Compute,
            3 => Bound::Latency,
            4 => Bound::Balanced,
            _ => Bound::Unspecified,
        }
    }

    pub open spec fn name_spec(self) -> Seq<char> {
        match self {
            Bound::Unspecified => "Unspecified"@,
            Bound::Memory => "Memory"@,
            Bound::Compute => "Compute"@,
            Bound::Latency => "Latency"@,
            Bound::Balanced => "Balanced"@,
        }
    }

    pub fn name(self) -> (s: &'static str)
        ensures
            s@ == self.name_spec(),
    {
        match self {
            Bound::Unspecified => "Unspecified",
            Bound::Memory => "Memory",
            Bound::Compute => "Compute",
            Bound::Latency => "Latency",
            Bound::Balanced => "Balanced",
        }
    }
}

impl Confidence {
    /// The number stored for this confidence. Queries prefer the larger.
    pub open spec fn code_spec(self) -> i8 {
        match self {
            Confidence::Unspecified => 0,
            Confidence::Low => 1,
            Confidence::High => 2,
        }
    }

    pub fn code(self) -> (n: i8)
        ensures
            n == self.code_spec(),
    {
        match self {
            Confidence::Unspecified => 0,
            Confidence::Low => 1,
            Confidence::High => 2,
        }
    }

    /// The confidence that a number stands for; other numbers stand for none.
    pub open spec fn coded(n: i32) -> Self {
        if n == 1 {
            Confidence::Low
        } else if n == 2 {
            Confidence::High
        } else {
            Confidence::Unspecified
        }
    }

    pub fn of_code(n: i32) -> (x: Self)
        ensures
            x == Self::coded(n),
    {
        match n {
            1 => Confidence::Low,
            2 => Confidence::High,
            _ => Confidence::Unspecified,
        }
    }

    pub open spec fn name_spec(self) -> Seq<char> {
        match self {
            Confidence::Unspecified => "Unspecified"@,
            Confidence::Low => "Low"@,
            Confidence::High => "High"@,
        }
    }

    pub fn name(self) -> (s: &'static str)
        ensures
            s@ == self.name_spec(),
    {
        match self {
            Confidence::Unspecified => "Unspecified",
            Confidence::Low => "Low",
            Confidence::High => "High",
        }
    }
}

impl Source {
    /// The number stored for this source.
    pub open spec fn code_spec(self) -> i8 {
        match self {
            Source::Unspecified => 0,
            Source::HostSampling => 1,
            Source::Replay => 2,
        }
    }

    pub fn code(self) -> (n: i8)
        ensures
            n == self.code_spec(),
    {
        match self {
            Source::Unspecified => 0,
            Source::HostSampling => 1,
            Source::Replay => 2,
        }
    }

    /// The source that a number stands for; other numbers stand for none.
    pub open spec fn coded(n: i32) -> Self {
        if n == 1 {
            Source::HostSampling
        } else if n == 2 {
            Source::Replay
        } else {
            Source::Unspecified
        }
    }

    pub fn of_code(n: i32) -> (x: Self)
        ensures
            x == Self::coded(n),
    {
        match n {
            1 => Source::HostSampling,
            2 => Source::Replay,
            _ => Source::Unspecified,
        }
    }

    pub open spec fn name_spec(self) -> Seq<char> {
        match self {
            Source::Unspecified => "Unspecified"@,
            Source::HostSampling => "HostSampling"@,
            Source::Replay => "Replay"@,
        }
    }

    pub fn name(self) -> (s: &'static str)
        ensures
            s@ == self.name_spec(),
    {
        match self {
            Source::Unspecified => "Unspecified",
            Source::HostSampling => "HostSampling",
            Source::Replay => "Replay",
        }
    }
}

#[derive(Copy, Clone, Debug, PartialEq, Eq, Structural)]
pub struct StallCount {
    pub reason_id: u32,
    pub count: u32,
}

/// A kernel's speed-of-light card. Percentages and rates are single-precision
/// bits.
#[derive(Clone, Debug)]
pub struct KernelSol {
    pub correlation_id: u64,
    pub sm_active_pct: u32,
    pub achieved_occupancy_pct: u32,
    pub dram_bw_pct: u32,
    pub l1_bw_pct: u32,
    pub l2_bw_pct: u32,
    pub inst_throughput_pct: u32,
    pub theoretical_occupancy_pct: u32,
    pub arithmetic_intensity: u32,
    pub achieved_gflops: u32,
    pub bound: Bound,
    pub confidence: Confidence,
    pub source: Source,
    pub stalls: Vec<StallCount>,
}

/// Details that depend on the category.
#[derive(Clone, Debug)]
pub enum Payload {
    Metric(MetricSample),
    Kernel(KernelDetail),
    Memcpy(MemcpyDetail),
    Api(ApiCallDetail),
    Marker(MarkerDetail),
    Sol(KernelSol),
}

#[derive(Clone, Debug)]
pub struct Event {
    pub ts_ns: u64,
    pub duration_ns: u64,
    pub node_id: u32,
    pub gpu_id: u32,
    pub pid: u32,
    pub tid: u32,
    pub ctx_id: u32,
    pub stream_id: u32,
    pub category: Category,
    pub name_id: u64,
    pub correlation_id: u64,
    pub parent_id: u64,
    pub payload: Option<Payload>,
}

/// One metric of a [`MetricFrame`].
#[derive(Copy, Clone, Debug, PartialEq, Eq, Structural)]
pub struct MetricPoint {
    pub metric_id: u64,
    pub value_bits: u64,
}

/// Every metric of one GPU at one time.
#[derive(Clone, Debug)]
pub struct MetricFrame {
    pub node_id: u32,
    pub gpu_id: u32,
    pub ts_ns: u64,
    pub points: Vec<MetricPoint>,
}

/// Announces the text behind a 64-bit name.
#[derive(Clone, Debug)]
pub struct StringIntern {
    pub id: u64,
    pub text: String,
}

/// A clock fit as it is sent.
#[derive(Copy, Clone, Debug, PartialEq, Eq, Structural)]
pub struct ClockOffsetRecord {
    pub node_id: u32,
    pub gpu_id: u32,
    pub offset_ns: i64,
    pub slope_num: i64,
    pub slope_den: i64,
    pub residual_max_ns: u64,
}

/// What an agent sends at once.
#[derive(Clone, Debug)]
pub struct Batch {
    pub events: Vec<Event>,
    pub strings: Vec<StringIntern>,
    pub offsets: Vec<ClockOffsetRecord>,
    pub metric_frames: Vec<MetricFrame>,
}

/// What an agent says of itself when it connects.
#[derive(Clone, Debug)]
pub struct AgentHello {
    pub node_id: u32,
    pub hostname: String,
    pub agent_version: String,
    pub num_gpus: u32,
    pub agent_rpc_addr: String,
}

/// How many events were taken and how many were dropped, since the stream
/// began.
#[derive(Copy, Clone, Debug, PartialEq, Eq, Structural)]
pub struct Ack {
    pub accepted: u64,
    pub dropped: u64,
}

/// A request to replay kernels under the profiler.
#[derive(Clone, Debug)]
pub struct ProfileRequest {
    pub gpu_id: u32,
    pub window_start_ns: u64,
    pub window_end_ns: u64,
    pub correlation_ids: Vec<u64>,
    pub name_ids: Vec<u64>,
    pub timeout_ms: u32,
}

/// Numbers in messages read back as what they were written for.
pub proof fn codes_round_trip(c: Category, k: MemcpyKind, b: Bound, conf: Confidence, src: Source)
    ensures
        Category::coded(c.code_spec()) == c,
        MemcpyKind::coded(k.code_spec()) == k,
        Bound::coded(b.code_spec() as i32) == b,
        Confidence::coded(conf.code_spec() as i32) == conf,
        Source::coded(src.code_spec() as i32) == src,
{
}

} // verus!
