//! CUPTI activity records.
//!
//! Records arrive packed, little-endian, with multi-byte fields at any offset.
//! The layouts are those of `cupti_activity.h` in CUDA 12.x.

use crate::intern::{hash, name_id};
use crate::model::{
    ApiCallDetail, Category, Event, KernelDetail, MemcpyDetail, MemcpyKind, Payload,
};
use vstd::prelude::*;

verus! {

/// Bytes in one buffer handed to CUPTI.
pub const BUF_SIZE: usize = 8_388_608;

/// The kinds of record that are read.
#[derive(Copy, Clone, Debug, PartialEq, Eq, Structural)]
pub enum ActivityKind {
    Invalid,
    Memcpy,
    Memset,
    Kernel,
    Driver,
    Runtime,
    ConcurrentKernel,
    Memcpy2,
    Overhead,
}

impl ActivityKind {
    /// The number that stands for this kind in a record.
    pub open spec fn code_spec(self) -> u32 {
        match self {
            ActivityKind::Invalid => 0,
            ActivityKind::Memcpy => 1,
            ActivityKind::Memset => 2,
            ActivityKind::Kernel => 3,
            ActivityKind::Driver => 4,
            ActivityKind::Runtime => 5,
            ActivityKind::ConcurrentKernel => 12,
            ActivityKind::Memcpy2 => 22,
            ActivityKind::Overhead => 27,
        }
    }

    pub fn code(self) -> (n: u32)
        ensures
            n == self.code_spec(),
    {
        match self {
            ActivityKind::Invalid => 0,
            ActivityKind::Memcpy => 1,
            ActivityKind::Memset => 2,
            ActivityKind::Kernel => 3,
            ActivityKind::Driver => 4,
            ActivityKind::Runtime => 5,
            ActivityKind::ConcurrentKernel => 12,
            ActivityKind::Memcpy2 => 22,
            ActivityKind::Overhead => 27,
        }
    }
}

/// The two bytes at `i`, least significant first.
pub open spec fn u16_at(s: Seq<u8>, i: int) -> u16 {
    (s[i] + 0x100 * s[i + 1]) as u16
}

/// The four bytes at `i`, least significant first.
pub open spec fn u32_at(s: Seq<u8>, i: int) -> u32 {
    (s[i] + 0x100 * s[i + 1] + 0x1_0000 * s[i + 2] + 0x100_0000 * s[i + 3]) as u32
}

/// The eight bytes at `i`, least significant first.
pub open spec fn u64_at(s: Seq<u8>, i: int) -> u64 {
    (u32_at(s, i) + 0x1_0000_0000 * u32_at(s, i + 4)) as u64
}

#[inline]
fn read_u16(buf: &[u8], i: usize) -> (v: u16)
    requires
        i + 2 <= buf.len(),
    ensures
        v == u16_at(buf@, i as int),
{
    (buf[i] as u16) + 0x100 * (buf[i + 1] as u16)
}

#[inline]
fn read_u32(buf: &[u8], i: usize) -> (v: u32)
    requires
        i + 4 <= buf.len(),
    ensures
        v == u32_at(buf@, i as int),
{
    (buf[i] as u32) + 0x100 * (buf[i + 1] as u32) + 0x1_0000 * (buf[i + 2] as u32) + 0x100_0000 * (
    buf[i + 3] as u32)
}

#[inline]
fn read_u64(buf: &[u8], i: usize) -> (v: u64)
    requires
        i + 8 <= buf.len(),
    ensures
        v == u64_at(buf@, i as int),
{
    (read_u32(buf, i) as u64) + 0x1_0000_0000 * (read_u32(buf, i + 4) as u64)
}

/// Bytes of a [`ActivityHeader`] record.
pub const HEADER_SIZE: usize = 4;

/// Bytes of a [`ActivityKernel7`] record.
pub const KERNEL7_SIZE: usize = 232;

/// Bytes of a [`ActivityMemcpy6`] record.
pub const MEMCPY6_SIZE: usize = 88;

/// Bytes of a [`ActivityMemset4`] record.
pub const MEMSET4_SIZE: usize = 76;

/// Bytes of a [`ActivityApi`] record.
pub const API_SIZE: usize = 40;

/// Header present on every record.
#[derive(Copy, Clone, Debug)]
pub struct ActivityHeader {
    pub kind: u32,
}

impl ActivityHeader {
    /// The record laid out in the first bytes of `s`.
    pub open spec fn laid_out(s: Seq<u8>) -> Self {
        ActivityHeader {
            kind: u32_at(s, 0),
        }
    }

    pub fn read(buf: &[u8]) -> (r: Self)
        requires
            buf.len() >= HEADER_SIZE,
        ensures
            r == Self::laid_out(buf@),
    {
        ActivityHeader {
            kind: read_u32(buf, 0),
        }
    }
}

/// `CUpti_ActivityKernel7` of CUDA 12.x, without its opaque access-policy window.
/// Pointers are held as addresses.
#[derive(Copy, Clone, Debug)]
pub struct ActivityKernel7 {
    pub kind: u32,
    pub cache_config: u8,
    pub compute_api_requested: u8,
    pub compute_api_executed: u8,
    pub shared_memory_config: u8,
    pub registers_per_thread: u32,
    pub partitioned_global_cache_requested: u32,
    pub partitioned_global_cache_executed: u32,
    pub start: u64,
    pub end: u64,
    pub completed: i32,
    pub device_id: u32,
    pub context_id: u32,
    pub stream_id: u32,
    pub grid_x: u32,
    pub grid_y: u32,
    pub grid_z: u32,
    pub block_x: u32,
    pub block_y: u32,
    pub block_z: u32,
    pub static_shared_memory: u32,
    pub dynamic_shared_memory: u32,
    pub local_memory_per_thread: u32,
    pub local_memory_total: u32,
    pub correlation_id: u32,
    pub grid_id: i64,
    pub name_ptr: u64,
    pub reserved0: u64,
    pub queued: u64,
    pub submitted: u64,
    pub launch_type: u8,
    pub is_shared_memory_carveout_requested: u8,
    pub shared_memory_carveout_requested: u8,
    pub padding: u8,
    pub shared_memory_executed: u32,
    pub graph_node_id: u64,
    pub shmem_limit_config: u32,
    pub graph_id: u32,
    pub channel_id: u32,
    pub channel_type: u32,
    pub cluster_x: u32,
    pub cluster_y: u32,
    pub cluster_z: u32,
    pub cluster_scheduling_policy: u32,
    pub local_memory_total_v2: u64,
    pub max_potential_cluster_size: u32,
    pub max_active_clusters: u32,
}

impl ActivityKernel7 {
    /// The record laid out in the first bytes of `s`.
    pub open spec fn laid_out(s: Seq<u8>) -> Self {
        ActivityKernel7 {
            kind: u32_at(s, 0),
            cache_config: s[4],
            compute_api_requested: s[5],
            compute_api_executed: s[6],
            shared_memory_config: s[7],
            registers_per_thread: u32_at(s, 8),
            partitioned_global_cache_requested: u32_at(s, 12),
            partitioned_global_cache_executed: u32_at(s, 16),
            start: u64_at(s, 20),
            end: u64_at(s, 28),
            completed: u32_at(s, 36) as i32,
            device_id: u32_at(s, 40),
            context_id: u32_at(s, 44),
            stream_id: u32_at(s, 48),
            grid_x: u32_at(s, 52),
            grid_y: u32_at(s, 56),
            grid_z: u32_at(s, 60),
            block_x: u32_at(s, 64),
            block_y: u32_at(s, 68),
            block_z: u32_at(s, 72),
            static_shared_memory: u32_at(s, 76),
            dynamic_shared_memory: u32_at(s, 80),
            local_memory_per_thread: u32_at(s, 84),
            local_memory_total: u32_at(s, 88),
            correlation_id: u32_at(s, 92),
            grid_id: u64_at(s, 96) as i64,
            name_ptr: u64_at(s, 104),
            reserved0: u64_at(s, 112),
            queued: u64_at(s, 120),
            submitted: u64_at(s, 128),
            launch_type: s[136],
            is_shared_memory_carveout_requested: s[137],
            shared_memory_carveout_requested: s[138],
            padding: s[139],
            shared_memory_executed: u32_at(s, 140),
            graph_node_id: u64_at(s, 144),
            shmem_limit_config: u32_at(s, 152),
            graph_id: u32_at(s, 156),
            channel_id: u32_at(s, 192),
            channel_type: u32_at(s, 196),
            cluster_x: u32_at(s, 200),
            cluster_y: u32_at(s, 204),
            cluster_z: u32_at(s, 208),
            cluster_scheduling_policy: u32_at(s, 212),
            local_memory_total_v2: u64_at(s, 216),
            max_potential_cluster_size: u32_at(s, 224),
            max_active_clusters: u32_at(s, 228),
        }
    }

    pub fn read(buf: &[u8]) -> (r: Self)
        requires
            buf.len() >= KERNEL7_SIZE,
        ensures
            r == Self::laid_out(buf@),
    {
        ActivityKernel7 {
            kind: read_u32(buf, 0),
            cache_config: buf[4],
            compute_api_requested: buf[5],
            compute_api_executed: buf[6],
            shared_memory_config: buf[7],
            registers_per_thread: read_u32(buf, 8),
            partitioned_global_cache_requested: read_u32(buf, 12),
            partitioned_global_cache_executed: read_u32(buf, 16),
            start: read_u64(buf, 20),
            end: read_u64(buf, 28),
            completed: read_u32(buf, 36) as i32,
            device_id: read_u32(buf, 40),
            context_id: read_u32(buf, 44),
            stream_id: read_u32(buf, 48),
            grid_x: read_u32(buf, 52),
            grid_y: read_u32(buf, 56),
            grid_z: read_u32(buf, 60),
            block_x: read_u32(buf, 64),
            block_y: read_u32(buf, 68),
            block_z: read_u32(buf, 72),
            static_shared_memory: read_u32(buf, 76),
            dynamic_shared_memory: read_u32(buf, 80),
            local_memory_per_thread: read_u32(buf, 84),
            local_memory_total: read_u32(buf, 88),
            correlation_id: read_u32(buf, 92),
            grid_id: read_u64(buf, 96) as i64,
            name_ptr: read_u64(buf, 104),
            reserved0: read_u64(buf, 112),
            queued: read_u64(buf, 120),
            submitted: read_u64(buf, 128),
            launch_type: buf[136],
            is_shared_memory_carveout_requested: buf[137],
            shared_memory_carveout_requested: buf[138],
            padding: buf[139],
            shared_memory_executed: read_u32(buf, 140),
            graph_node_id: read_u64(buf, 144),
            shmem_limit_config: read_u32(buf, 152),
            graph_id: read_u32(buf, 156),
            channel_id: read_u32(buf, 192),
            channel_type: read_u32(buf, 196),
            cluster_x: read_u32(buf, 200),
            cluster_y: read_u32(buf, 204),
            cluster_z: read_u32(buf, 208),
            cluster_scheduling_policy: read_u32(buf, 212),
            local_memory_total_v2: read_u64(buf, 216),
            max_potential_cluster_size: read_u32(buf, 224),
            max_active_clusters: read_u32(buf, 228),
        }
    }
}

/// `CUpti_ActivityMemcpy6`.
#[derive(Copy, Clone, Debug)]
pub struct ActivityMemcpy6 {
    pub kind: u32,
    pub copy_kind: u8,
    pub src_kind: u8,
    pub dst_kind: u8,
    pub flags: u8,
    pub bytes: u64,
    pub start: u64,
    pub end: u64,
    pub device_id: u32,
    pub context_id: u32,
    pub stream_id: u32,
    pub correlation_id: u32,
    pub runtime_correlation_id: u32,
    pub pad: u32,
    pub graph_node_id: u64,
    pub graph_id: u32,
    pub channel_id: u32,
    pub channel_type: u32,
    pub pad2: u32,
    pub copy_count: u64,
}

impl ActivityMemcpy6 {
    /// The record laid out in the first bytes of `s`.
    pub open spec fn laid_out(s: Seq<u8>) -> Self {
        ActivityMemcpy6 {
            kind: u32_at(s, 0),
            copy_kind: s[4],
            src_kind: s[5],
            dst_kind: s[6],
            flags: s[7],
            bytes: u64_at(s, 8),
            start: u64_at(s, 16),
            end: u64_at(s, 24),
            device_id: u32_at(s, 32),
            context_id: u32_at(s, 36),
            stream_id: u32_at(s, 40),
            correlation_id: u32_at(s, 44),
            runtime_correlation_id: u32_at(s, 48),
            pad: u32_at(s, 52),
            graph_node_id: u64_at(s, 56),
            graph_id: u32_at(s, 64),
            channel_id: u32_at(s, 68),
            channel_type: u32_at(s, 72),
            pad2: u32_at(s, 76),
            copy_count: u64_at(s, 80),
        }
    }

    pub fn read(buf: &[u8]) -> (r: Self)
        requires
            buf.len() >= MEMCPY6_SIZE,
        ensures
            r == Self::laid_out(buf@),
    {
        ActivityMemcpy6 {
            kind: read_u32(buf, 0),
            copy_kind: buf[4],
            src_kind: buf[5],
            dst_kind: buf[6],
            flags: buf[7],
            bytes: read_u64(buf, 8),
            start: read_u64(buf, 16),
            end: read_u64(buf, 24),
            device_id: read_u32(buf, 32),
            context_id: read_u32(buf, 36),
            stream_id: read_u32(buf, 40),
            correlation_id: read_u32(buf, 44),
            runtime_correlation_id: read_u32(buf, 48),
            pad: read_u32(buf, 52),
            graph_node_id: read_u64(buf, 56),
            graph_id: read_u32(buf, 64),
            channel_id: read_u32(buf, 68),
            channel_type: read_u32(buf, 72),
            pad2: read_u32(buf, 76),
            copy_count: read_u64(buf, 80),
        }
    }
}

/// `CUpti_ActivityMemset4`.
#[derive(Copy, Clone, Debug)]
pub struct ActivityMemset4 {
    pub kind: u32,
    pub value: u32,
    pub bytes: u64,
    pub start: u64,
    pub end: u64,
    pub device_id: u32,
    pub context_id: u32,
    pub stream_id: u32,
    pub correlation_id: u32,
    pub flags: u16,
    pub memory_kind: u16,
    pub graph_node_id: u64,
    pub graph_id: u32,
    pub channel_id: u32,
    pub channel_type: u32,
    pub pad: u32,
}

impl ActivityMemset4 {
    /// The record laid out in the first bytes of `s`.
    pub open spec fn laid_out(s: Seq<u8>) -> Self {
        ActivityMemset4 {
            kind: u32_at(s, 0),
            value: u32_at(s, 4),
            bytes: u64_at(s, 8),
            start: u64_at(s, 16),
            end: u64_at(s, 24),
            device_id: u32_at(s, 32),
            context_id: u32_at(s, 36),
            stream_id: u32_at(s, 40),
            correlation_id: u32_at(s, 44),
            flags: u16_at(s, 48),
            memory_kind: u16_at(s, 50),
            graph_node_id: u64_at(s, 52),
            graph_id: u32_at(s, 60),
            channel_id: u32_at(s, 64),
            channel_type: u32_at(s, 68),
            pad: u32_at(s, 72),
        }
    }

    pub fn read(buf: &[u8]) -> (r: Self)
        requires
            buf.len() >= MEMSET4_SIZE,
        ensures
            r == Self::laid_out(buf@),
    {
        ActivityMemset4 {
            kind: read_u32(buf, 0),
            value: read_u32(buf, 4),
            bytes: read_u64(buf, 8),
            start: read_u64(buf, 16),
            end: read_u64(buf, 24),
            device_id: read_u32(buf, 32),
            context_id: read_u32(buf, 36),
            stream_id: read_u32(buf, 40),
            correlation_id: read_u32(buf, 44),
            flags: read_u16(buf, 48),
            memory_kind: read_u16(buf, 50),
            graph_node_id: read_u64(buf, 52),
            graph_id: read_u32(buf, 60),
            channel_id: read_u32(buf, 64),
            channel_type: read_u32(buf, 68),
            pad: read_u32(buf, 72),
        }
    }
}

/// `CUpti_ActivityAPI`.
#[derive(Copy, Clone, Debug)]
pub struct ActivityApi {
    pub kind: u32,
    pub cbid: u32,
    pub start: u64,
    pub end: u64,
    pub process_id: u32,
    pub thread_id: u32,
    pub correlation_id: u32,
    pub return_value: u32,
}

impl ActivityApi {
    /// The record laid out in the first bytes of `s`.
    pub open spec fn laid_out(s: Seq<u8>) -> Self {
        ActivityApi {
            kind: u32_at(s, 0),
            cbid: u32_at(s, 4),
            start: u64_at(s, 8),
            end: u64_at(s, 16),
            process_id: u32_at(s, 24),
            thread_id: u32_at(s, 28),
            correlation_id: u32_at(s, 32),
            return_value: u32_at(s, 36),
        }
    }

    pub fn read(buf: &[u8]) -> (r: Self)
        requires
            buf.len() >= API_SIZE,
        ensures
            r == Self::laid_out(buf@),
    {
        ActivityApi {
            kind: read_u32(buf, 0),
            cbid: read_u32(buf, 4),
            start: read_u64(buf, 8),
            end: read_u64(buf, 16),
            process_id: read_u32(buf, 24),
            thread_id: read_u32(buf, 28),
            correlation_id: read_u32(buf, 32),
            return_value: read_u32(buf, 36),
        }
    }
}

/// A buffer for CUPTI to write records into.
pub struct ActivityBuffer {
    pub bytes: Vec<u8>,
}

impl ActivityBuffer {
    /// A buffer of zeros.
    pub fn allocate() -> (b: Self)
        ensures
            b.bytes@ == Seq::new(BUF_SIZE as nat, |i: int| 0u8),
    {
        let bytes: Vec<u8> = vec![0u8; BUF_SIZE];
        assert(bytes@ =~= Seq::new(BUF_SIZE as nat, |i: int| 0u8));
        ActivityBuffer { bytes }
    }
}

/// How long something took; zero if it ended before it began.
pub open spec fn elapsed(start: u64, end: u64) -> u64 {
    if end >= start {
        (end - start) as u64
    } else {
        0
    }
}

/// The copy direction that a record's `copy_kind` stands for.
pub open spec fn copy_direction(copy_kind: u8) -> MemcpyKind {
    if copy_kind == 1 {
        MemcpyKind::H2d
    } else if copy_kind == 2 {
        MemcpyKind::D2h
    } else if copy_kind == 3 {
        MemcpyKind::H2h
    } else if copy_kind == 4 {
        MemcpyKind::D2d
    } else if copy_kind == 10 {
        MemcpyKind::P2p
    } else {
        MemcpyKind::Unknown
    }
}

fn direction(copy_kind: u8) -> (d: MemcpyKind)
    ensures
        d == copy_direction(copy_kind),
{
    match copy_kind {
        1 => MemcpyKind::H2d,
        2 => MemcpyKind::D2h,
        3 => MemcpyKind::H2h,
        4 => MemcpyKind::D2d,
        10 => MemcpyKind::P2p,
        _ => MemcpyKind::Unknown,
    }
}

/// A kernel launch; `name` is the text its name pointer leads to, if it leads
/// anywhere.
pub open spec fn kernel_event(k: ActivityKernel7, name: Option<Seq<char>>) -> Event {
    Event {
        ts_ns: k.start,
        duration_ns: elapsed(k.start, k.end),
        node_id: 0,
        gpu_id: k.device_id,
        pid: 0,
        tid: 0,
        ctx_id: k.context_id,
        stream_id: k.stream_id,
        category: Category::Kernel,
        name_id: name_id(
            match name {
                Some(text) => text,
                None => "<unknown_kernel>"@,
            },
        ),
        correlation_id: k.correlation_id as u64,
        parent_id: 0,
        payload: Some(
            Payload::Kernel(
                KernelDetail {
                    grid_x: k.grid_x,
                    grid_y: k.grid_y,
                    grid_z: k.grid_z,
                    block_x: k.block_x,
                    block_y: k.block_y,
                    block_z: k.block_z,
                    static_shared_mem_bytes: k.static_shared_memory,
                    dynamic_shared_mem_bytes: k.dynamic_shared_memory,
                    registers_per_thread: k.registers_per_thread,
                    local_mem_per_thread: k.local_memory_per_thread,
                    launch_cbid: 0,
                },
            ),
        ),
    }
}

/// A copy between host and device memory.
pub open spec fn memcpy_event(m: ActivityMemcpy6) -> Event {
    Event {
        ts_ns: m.start,
        duration_ns: elapsed(m.start, m.end),
        node_id: 0,
        gpu_id: m.device_id,
        pid: 0,
        tid: 0,
        ctx_id: m.context_id,
        stream_id: m.stream_id,
        category: Category::Memcpy,
        name_id: name_id("cudaMemcpy"@),
        correlation_id: m.correlation_id as u64,
        parent_id: 0,
        payload: Some(
            Payload::Memcpy(
                MemcpyDetail {
                    kind: copy_direction(m.copy_kind),
                    bytes: m.bytes,
                    src_device: m.device_id,
                    dst_device: m.device_id,
                },
            ),
        ),
    }
}

/// A fill of device memory. The copy detail carries the byte count; the
/// category tells the two apart.
pub open spec fn memset_event(m: ActivityMemset4) -> Event {
    Event {
        ts_ns: m.start,
        duration_ns: elapsed(m.start, m.end),
        node_id: 0,
        gpu_id: m.device_id,
        pid: 0,
        tid: 0,
        ctx_id: m.context_id,
        stream_id: m.stream_id,
        category: Category::Memset,
        name_id: name_id("cudaMemset"@),
        correlation_id: m.correlation_id as u64,
        parent_id: 0,
        payload: Some(
            Payload::Memcpy(
                MemcpyDetail {
                    kind: MemcpyKind::Unknown,
                    bytes: m.bytes,
                    src_device: m.device_id,
                    dst_device: m.device_id,
                },
            ),
        ),
    }
}

/// A call of the driver or runtime API.
pub open spec fn api_event(a: ActivityApi) -> Event {
    Event {
        ts_ns: a.start,
        duration_ns: elapsed(a.start, a.end),
        node_id: 0,
        gpu_id: 0,
        pid: a.process_id,
        tid: a.thread_id,
        ctx_id: 0,
        stream_id: 0,
        category: Category::ApiCall,
        name_id: name_id("cuApi"@),
        correlation_id: a.correlation_id as u64,
        parent_id: 0,
        payload: Some(Payload::Api(ApiCallDetail { cbid: a.cbid, status: a.return_value })),
    }
}

/// Size of a record of that kind that is read whole; `None` for one that is
/// skipped.
pub open spec fn record_size(kind: u32) -> Option<int> {
    if kind == ActivityKind::Kernel.code_spec() || kind
        == ActivityKind::ConcurrentKernel.code_spec() {
        Some(KERNEL7_SIZE as int)
    } else if kind == ActivityKind::Memcpy.code_spec() || kind
        == ActivityKind::Memcpy2.code_spec() {
        Some(MEMCPY6_SIZE as int)
    } else if kind == ActivityKind::Memset.code_spec() {
        Some(MEMSET4_SIZE as int)
    } else if kind == ActivityKind::Runtime.code_spec() || kind
        == ActivityKind::Driver.code_spec() {
        Some(API_SIZE as int)
    } else {
        None
    }
}

/// The event in a record of that kind that is all there.
pub open spec fn record_event(kind: u32, s: Seq<u8>, name: Option<Seq<char>>) -> Event {
    if kind == ActivityKind::Kernel.code_spec() || kind
        == ActivityKind::ConcurrentKernel.code_spec() {
        kernel_event(ActivityKernel7::laid_out(s), name)
    } else if kind == ActivityKind::Memcpy.code_spec() || kind
        == ActivityKind::Memcpy2.code_spec() {
        memcpy_event(ActivityMemcpy6::laid_out(s))
    } else if kind == ActivityKind::Memset.code_spec() {
        memset_event(ActivityMemset4::laid_out(s))
    } else {
        api_event(ActivityApi::laid_out(s))
    }
}

/// How many bytes the record at the front of `s` takes, and the event in it. A
/// record that is cut short takes all that is left; one of another kind is
/// skipped by its header alone.
pub open spec fn parsed(s: Seq<u8>, name: Option<Seq<char>>) -> (int, Option<Event>) {
    if s.len() < HEADER_SIZE {
        (s.len() as int, None)
    } else {
        let kind = u32_at(s, 0);
        match record_size(kind) {
            None => (HEADER_SIZE as int, None),
            Some(size) => if s.len() < size {
                (s.len() as int, None)
            } else {
                (size, Some(record_event(kind, s, name)))
            },
        }
    }
}

/// Parses the record at the front of `buf`. `kernel_name` is the text that the
/// name pointer of a kernel record leads to.
pub fn parse_record(buf: &[u8], kernel_name: Option<&str>) -> (r: (usize, Option<Event>))
    ensures
        (r.0 as int, r.1) == parsed(
            buf@,
            match kernel_name {
                Some(text) => Some(text@),
                None => None,
            },
        ),
{
    let remaining: usize = buf.len();
    if remaining < HEADER_SIZE {
        return (remaining, None);
    }
    let kind: u32 = ActivityHeader::read(buf).kind;
    if kind == ActivityKind::Kernel.code() || kind == ActivityKind::ConcurrentKernel.code() {
        if remaining < KERNEL7_SIZE {
            return (remaining, None);
        }
        let k = ActivityKernel7::read(buf);
        let name_id: u64 = match kernel_name {
            Some(text) => hash(text),
            None => hash("<unknown_kernel>"),
        };
        let event = Event {
            ts_ns: k.start,
            duration_ns: k.end.saturating_sub(k.start),
            node_id: 0,
            gpu_id: k.device_id,
            pid: 0,
            tid: 0,
            ctx_id: k.context_id,
            stream_id: k.stream_id,
            category: Category::Kernel,
            name_id,
            correlation_id: k.correlation_id as u64,
            parent_id: 0,
            payload: Some(
                Payload::Kernel(
                    KernelDetail {
                        grid_x: k.grid_x,
                        grid_y: k.grid_y,
                        grid_z: k.grid_z,
                        block_x: k.block_x,
                        block_y: k.block_y,
                        block_z: k.block_z,
                        static_shared_mem_bytes: k.static_shared_memory,
                        dynamic_shared_mem_bytes: k.dynamic_shared_memory,
                        registers_per_thread: k.registers_per_thread,
                        local_mem_per_thread: k.local_memory_per_thread,
                        launch_cbid: 0,
                    },
                ),
            ),
        };
        (KERNEL7_SIZE, Some(event))
    } else if kind == ActivityKind::Memcpy.code() || kind == ActivityKind::Memcpy2.code() {
        if remaining < MEMCPY6_SIZE {
            return (remaining, None);
        }
        let m = ActivityMemcpy6::read(buf);
        let event = Event {
            ts_ns: m.start,
            duration_ns: m.end.saturating_sub(m.start),
            node_id: 0,
            gpu_id: m.device_id,
            pid: 0,
            tid: 0,
            ctx_id: m.context_id,
            stream_id: m.stream_id,
            category: Category::Memcpy,
            name_id: hash("cudaMemcpy"),
            correlation_id: m.correlation_id as u64,
            parent_id: 0,
            payload: Some(
                Payload::Memcpy(
                    MemcpyDetail {
                        kind: direction(m.copy_kind),
                        bytes: m.bytes,
                        src_device: m.device_id,
                        dst_device: m.device_id,
                    },
                ),
            ),
        };
        (MEMCPY6_SIZE, Some(event))
    } else if kind == ActivityKind::Memset.code() {
        if remaining < MEMSET4_SIZE {
            return (remaining, None);
        }
        let m = ActivityMemset4::read(buf);
        let event = Event {
            ts_ns: m.start,
            duration_ns: m.end.saturating_sub(m.start),
            node_id: 0,
            gpu_id: m.device_id,
            pid: 0,
            tid: 0,
            ctx_id: m.context_id,
            stream_id: m.stream_id,
            category: Category::Memset,
            name_id: hash("cudaMemset"),
            correlation_id: m.correlation_id as u64,
            parent_id: 0,
            payload: Some(
                Payload::Memcpy(
                    MemcpyDetail {
                        kind: MemcpyKind::Unknown,
                        bytes: m.bytes,
                        src_device: m.device_id,
                        dst_device: m.device_id,
                    },
                ),
            ),
        };
        (MEMSET4_SIZE, Some(event))
    } else if kind == ActivityKind::Runtime.code() || kind == ActivityKind::Driver.code() {
        if remaining < API_SIZE {
            return (remaining, None);
        }
        let a = ActivityApi::read(buf);
        let event = Event {
            ts_ns: a.start,
            duration_ns: a.end.saturating_sub(a.start),
            node_id: 0,
            gpu_id: 0,
            pid: a.process_id,
            tid: a.thread_id,
            ctx_id: 0,
            stream_id: 0,
            category: Category::ApiCall,
            name_id: hash("cuApi"),
            correlation_id: a.correlation_id as u64,
            parent_id: 0,
            payload: Some(Payload::Api(ApiCallDetail { cbid: a.cbid, status: a.return_value })),
        };
        (API_SIZE, Some(event))
    } else {
        (HEADER_SIZE, None)
    }
}

/// Parsing always moves on and never runs past the end, so a walk over a buffer
/// ends.
pub proof fn parsing_makes_progress(s: Seq<u8>, name: Option<Seq<char>>)
    requires
        s.len() > 0,
    ensures
        0 < parsed(s, name).0 <= s.len(),
{
}

/// Only a record's own bytes decide what it parses to.
pub proof fn parsing_ignores_later_bytes(s: Seq<u8>, later: Seq<u8>, name: Option<Seq<char>>)
    requires
        parsed(s, name).1 is Some,
    ensures
        parsed(s + later, name) == parsed(s, name),
{
    let t = s + later;
    assert forall|i: int| 0 <= i < s.len() implies #[trigger] t[i] == s[i] by {
    }
}

/// The number that some bytes spell, least significant first.
pub open spec fn number_in(s: Seq<u8>) -> int
    decreases s.len(),
{
    if s.len() == 0 {
        0
    } else {
        s[0] + 256 * number_in(s.drop_first())
    }
}

/// The number that the bytes of `s` from `from` up to `to` spell.
#[verifier::opaque]
pub open spec fn field(s: Seq<u8>, from: int, to: int) -> int {
    number_in(s.subrange(from, to))
}

proof fn lemma_field_step(s: Seq<u8>, from: int, to: int)
    requires
        0 <= from < to <= s.len(),
    ensures
        field(s, from, to) == s[from] + 256 * field(s, from + 1, to),
        field(s, to, to) == 0,
{
    reveal(field);
    assert(s.subrange(from, to).drop_first() =~= s.subrange(from + 1, to));
}

proof fn lemma_field_32(s: Seq<u8>, i: int)
    requires
        0 <= i,
        i + 4 <= s.len(),
    ensures
        u32_at(s, i) == field(s, i, i + 4),
{
    lemma_field_step(s, i, i + 4);
    lemma_field_step(s, i + 1, i + 4);
    lemma_field_step(s, i + 2, i + 4);
    lemma_field_step(s, i + 3, i + 4);
}

proof fn lemma_field_64(s: Seq<u8>, i: int)
    requires
        0 <= i,
        i + 8 <= s.len(),
    ensures
        u64_at(s, i) == field(s, i, i + 8),
{
    lemma_field_32(s, i + 4);
    lemma_field_step(s, i, i + 8);
    lemma_field_step(s, i + 1, i + 8);
    lemma_field_step(s, i + 2, i + 8);
    lemma_field_step(s, i + 3, i + 8);
}

/// What every event of a record says of when it happened: it starts when the
/// record says and lasts until the record's end, or no time if that comes first.
pub open spec fn spans(e: Event, start: int, end: int) -> bool {
    &&& e.ts_ns == start
    &&& end >= start ==> e.ts_ns + e.duration_ns == end
    &&& end < start ==> e.duration_ns == 0
}

/// A kernel record becomes the launch whose numbers stand at its places: the
/// event holds the record's start and end, device, context, stream, correlation
/// id, grid, block, memory and registers.
pub proof fn kernel_records_are_launches(s: Seq<u8>, name: Option<Seq<char>>)
    requires
        s.len() >= 232,
        field(s, 0, 4) == 3 || field(s, 0, 4) == 12,
    ensures
        parsed(s, name).0 == 232,
        parsed(s, name).1 matches Some(e) && {
            &&& e.category == Category::Kernel
            &&& spans(e, field(s, 20, 28), field(s, 28, 36))
            &&& e.gpu_id == field(s, 40, 44)
            &&& e.ctx_id == field(s, 44, 48)
            &&& e.stream_id == field(s, 48, 52)
            &&& e.correlation_id == field(s, 92, 96)
            &&& e.node_id == 0 && e.pid == 0 && e.tid == 0 && e.parent_id == 0
            &&& name matches Some(text) ==> e.name_id == name_id(text)
            &&& name is None ==> e.name_id == name_id("<unknown_kernel>"@)
            &&& e.payload matches Some(Payload::Kernel(k)) && {
                &&& k.grid_x == field(s, 52, 56)
                &&& k.grid_y == field(s, 56, 60)
                &&& k.grid_z == field(s, 60, 64)
                &&& k.block_x == field(s, 64, 68)
                &&& k.block_y == field(s, 68, 72)
                &&& k.block_z == field(s, 72, 76)
                &&& k.static_shared_mem_bytes == field(s, 76, 80)
                &&& k.dynamic_shared_mem_bytes == field(s, 80, 84)
                &&& k.local_mem_per_thread == field(s, 84, 88)
                &&& k.registers_per_thread == field(s, 8, 12)
                &&& k.launch_cbid == 0
            }
        },
{
    lemma_field_32(s, 0);
    lemma_field_32(s, 8);
    lemma_field_64(s, 20);
    lemma_field_64(s, 28);
    lemma_field_32(s, 40);
    lemma_field_32(s, 44);
    lemma_field_32(s, 48);
    lemma_field_32(s, 52);
    lemma_field_32(s, 56);
    lemma_field_32(s, 60);
    lemma_field_32(s, 64);
    lemma_field_32(s, 68);
    lemma_field_32(s, 72);
    lemma_field_32(s, 76);
    lemma_field_32(s, 80);
    lemma_field_32(s, 84);
    lemma_field_32(s, 92);
}

/// A copy record becomes the copy whose numbers stand at its places. The
/// direction is the one that CUPTI gives the byte after the kind.
pub proof fn copy_records_are_copies(s: Seq<u8>, name: Option<Seq<char>>)
    requires
        s.len() >= 88,
        field(s, 0, 4) == 1 || field(s, 0, 4) == 22,
    ensures
        parsed(s, name).0 == 88,
        parsed(s, name).1 matches Some(e) && {
            &&& e.category == Category::Memcpy
            &&& spans(e, field(s, 16, 24), field(s, 24, 32))
            &&& e.gpu_id == field(s, 32, 36)
            &&& e.ctx_id == field(s, 36, 40)
            &&& e.stream_id == field(s, 40, 44)
            &&& e.correlation_id == field(s, 44, 48)
            &&& e.node_id == 0 && e.pid == 0 && e.tid == 0 && e.parent_id == 0
            &&& e.name_id == name_id("cudaMemcpy"@)
            &&& e.payload matches Some(Payload::Memcpy(m)) && {
                &&& m.bytes == field(s, 8, 16)
                &&& m.src_device == e.gpu_id
                &&& m.dst_device == e.gpu_id
                &&& m.kind == MemcpyKind::H2d <==> s[4] == 1
                &&& m.kind == MemcpyKind::D2h <==> s[4] == 2
                &&& m.kind == MemcpyKind::H2h <==> s[4] == 3
                &&& m.kind == MemcpyKind::D2d <==> s[4] == 4
                &&& m.kind == MemcpyKind::P2p <==> s[4] == 10
            }
        },
{
    lemma_field_32(s, 0);
    lemma_field_64(s, 8);
    lemma_field_64(s, 16);
    lemma_field_64(s, 24);
    lemma_field_32(s, 32);
    lemma_field_32(s, 36);
    lemma_field_32(s, 40);
    lemma_field_32(s, 44);
}

/// A fill record becomes the fill whose numbers stand at its places.
pub proof fn fill_records_are_fills(s: Seq<u8>, name: Option<Seq<char>>)
    requires
        s.len() >= 76,
        field(s, 0, 4) == 2,
    ensures
        parsed(s, name).0 == 76,
        parsed(s, name).1 matches Some(e) && {
            &&& e.category == Category::Memset
            &&& spans(e, field(s, 16, 24), field(s, 24, 32))
            &&& e.gpu_id == field(s, 32, 36)
            &&& e.ctx_id == field(s, 36, 40)
            &&& e.stream_id == field(s, 40, 44)
            &&& e.correlation_id == field(s, 44, 48)
            &&& e.node_id == 0 && e.pid == 0 && e.tid == 0 && e.parent_id == 0
            &&& e.name_id == name_id("cudaMemset"@)
            &&& e.payload matches Some(Payload::Memcpy(m)) && {
                &&& m.kind == MemcpyKind::Unknown
                &&& m.bytes == field(s, 8, 16)
                &&& m.src_device == e.gpu_id
                &&& m.dst_device == e.gpu_id
            }
        },
{
    lemma_field_32(s, 0);
    lemma_field_64(s, 8);
    lemma_field_64(s, 16);
    lemma_field_64(s, 24);
    lemma_field_32(s, 32);
    lemma_field_32(s, 36);
    lemma_field_32(s, 40);
    lemma_field_32(s, 44);
}

/// An API record, of the driver or the runtime, becomes the call whose numbers
/// stand at its places.
pub proof fn api_records_are_calls(s: Seq<u8>, name: Option<Seq<char>>)
    requires
        s.len() >= 40,
        field(s, 0, 4) == 4 || field(s, 0, 4) == 5,
    ensures
        parsed(s, name).0 == 40,
        parsed(s, name).1 matches Some(e) && {
            &&& e.category == Category::ApiCall
            &&& spans(e, field(s, 8, 16), field(s, 16, 24))
            &&& e.pid == field(s, 24, 28)
            &&& e.tid == field(s, 28, 32)
            &&& e.correlation_id == field(s, 32, 36)
            &&& e.node_id == 0 && e.gpu_id == 0 && e.ctx_id == 0 && e.stream_id == 0
            &&& e.parent_id == 0
            &&& e.name_id == name_id("cuApi"@)
            &&& e.payload matches Some(Payload::Api(a)) && {
                &&& a.cbid == field(s, 4, 8)
                &&& a.status == field(s, 36, 40)
            }
        },
{
    lemma_field_32(s, 0);
    lemma_field_32(s, 4);
    lemma_field_64(s, 8);
    lemma_field_64(s, 16);
    lemma_field_32(s, 24);
    lemma_field_32(s, 28);
    lemma_field_32(s, 32);
    lemma_field_32(s, 36);
}

/// Any other kind of record is passed over by its header, and what is cut short
/// is passed over whole.
pub proof fn other_records_are_passed_over(s: Seq<u8>, name: Option<Seq<char>>)
    ensures
        s.len() < 4 ==> parsed(s, name) == (s.len() as int, None::<Event>),
        s.len() >= 4 ==> {
            let kind = field(s, 0, 4);
            let size: int = if kind == 3 || kind == 12 {
                232
            } else if kind == 1 || kind == 22 {
                88
            } else if kind == 2 {
                76
            } else if kind == 4 || kind == 5 {
                40
            } else {
                0
            };
            &&& size == 0 ==> parsed(s, name) == (4int, None::<Event>)
            &&& size > s.len() ==> parsed(s, name) == (s.len() as int, None::<Event>)
        },
{
    if s.len() >= 4 {
        lemma_field_32(s, 0);
    }
}

/// A kernel is tied to the call that launched it: records that carry the same
/// correlation id become events that carry the same, and records that carry
/// different ones become events that carry different ones.
pub proof fn kernels_are_tied_to_their_calls(
    kernel: Seq<u8>,
    call: Seq<u8>,
    name: Option<Seq<char>>,
    other_name: Option<Seq<char>>,
)
    requires
        kernel.len() >= 232,
        field(kernel, 0, 4) == 3 || field(kernel, 0, 4) == 12,
        call.len() >= 40,
        field(call, 0, 4) == 4 || field(call, 0, 4) == 5,
    ensures
        parsed(kernel, name).1 is Some,
        parsed(call, other_name).1 is Some,
        parsed(kernel, name).1->0.correlation_id == parsed(call, other_name).1->0.correlation_id
            <==> kernel.subrange(92, 96) == call.subrange(32, 36),
{
    kernel_records_are_launches(kernel, name);
    api_records_are_calls(call, other_name);
    reveal(field);
    if field(kernel, 92, 96) == field(call, 32, 36) {
        lemma_numbers_differ(kernel.subrange(92, 96), call.subrange(32, 36));
    }
}

/// Different bytes spell different numbers.
proof fn lemma_numbers_differ(a: Seq<u8>, b: Seq<u8>)
    requires
        a.len() == b.len(),
        number_in(a) == number_in(b),
    ensures
        a == b,
    decreases a.len(),
{
    if a.len() > 0 {
        assert(a[0] == b[0] && number_in(a.drop_first()) == number_in(b.drop_first()));
        lemma_numbers_differ(a.drop_first(), b.drop_first());
        assert(a =~= seq![a[0]] + a.drop_first());
        assert(b =~= seq![b[0]] + b.drop_first());
    }
}

/// The launch that a kernel record becomes carries the record's correlation id.
pub proof fn launches_carry_the_correlation_id(s: Seq<u8>, name: Option<Seq<char>>)
    requires
        s.len() >= 232,
        field(s, 0, 4) == 3 || field(s, 0, 4) == 12,
    ensures
        parsed(s, name).1 is Some,
        parsed(s, name).1->0.category == Category::Kernel,
        parsed(s, name).1->0.correlation_id == field(s, 92, 96),
{
    lemma_field_32(s, 0);
    lemma_field_32(s, 92);
}

} // verus!
