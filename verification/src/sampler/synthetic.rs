//! Synthetic metrics and kernel activity, for machines without a GPU. The events
//! are the same as those of a real source; only the numbers are made up.

use crate::intern::{hash, name_id};
use crate::model::{
    ApiCallDetail, Category, Event, KernelDetail, MemcpyDetail, MemcpyKind, MetricFrame,
    MetricPoint, Payload,
};
use rand::rngs::SmallRng;
use rand::{Rng, SeedableRng};
use vstd::prelude::*;

verus! {

/// Emulates some GPUs.
#[derive(Copy, Clone, Debug, PartialEq, Eq, Structural)]
pub struct SyntheticSampler {
    pub num_gpus: u32,
    pub metric_hz: u32,
    pub node_id: u32,
    pub seed: u64,
    /// Emit kernels, API calls and copies as well as metrics.
    pub burst: bool,
}

/// A small, fast random number generator.
#[verifier::external_type_specification]
#[verifier::external_body]
pub struct ExSmallRng(SmallRng);

/// `SmallRng::seed_from_u64`. The algorithm behind it differs between platforms, so
/// nothing is claimed of the numbers to come.
#[verifier::external_body]
fn seeded(seed: u64) -> (rng: SmallRng) {
    SmallRng::seed_from_u64(seed)
}

/// `Rng::gen_range` over `u32`: some number of the range. It panics on an empty
/// range.
#[verifier::external_body]
fn draw_u32(rng: &mut SmallRng, low: u32, high: u32) -> (n: u32)
    requires
        low < high,
    ensures
        low <= n < high,
{
    rng.gen_range(low..high)
}

/// `Rng::gen_range` over `u64`: some number of the range. It panics on an empty
/// range.
#[verifier::external_body]
fn draw_u64(rng: &mut SmallRng, low: u64, high: u64) -> (n: u64)
    requires
        low < high,
    ensures
        low <= n < high,
{
    rng.gen_range(low..high)
}

/// `Rng::gen_range` over indices: some index below `len`. It panics when there is
/// none.
#[verifier::external_body]
fn draw_index(rng: &mut SmallRng, len: usize) -> (i: usize)
    requires
        len > 0,
    ensures
        i < len,
{
    rng.gen_range(0..len)
}

impl SyntheticSampler {
    /// The generator for a run of this sampler, seeded by it. Which numbers it
    /// gives is left open, as it differs between platforms.
    pub fn rng(&self) -> (rng: SmallRng) {
        seeded(self.seed)
    }
}

/// The metrics emitted.
pub open spec fn metric_names() -> Seq<Seq<char>> {
    seq![
        "gpu.util.percent"@,
        "gpu.mem.util.percent"@,
        "gpu.mem.used.bytes"@,
        "gpu.power.watts"@,
        "gpu.sm.clock.hz"@,
        "gpu.mem.bandwidth.bytes_per_sec"@,
    ]
}

/// The kernels emitted.
pub open spec fn kernel_names() -> Seq<Seq<char>> {
    seq![
        "void cutlass::Kernel<cutlass::gemm::kernel::Gemm>(...)"@,
        "void at::native::vectorized_elementwise_kernel<...>(int, ...)"@,
        "void at::native::reduce_kernel<512, 1, ...>()"@,
        "void flash_attention::mha_fwd_kernel<...>()"@,
        "void cub::DeviceReduceKernel<...>()"@,
        "void nccl::ncclAllReduceRing<...>()"@,
        "void cudnn::conv::Conv2dKernel<...>()"@,
    ]
}

/// The API calls emitted.
pub open spec fn api_names() -> Seq<Seq<char>> {
    seq![
        "cuLaunchKernel"@,
        "cudaMemcpyAsync"@,
        "cudaMalloc"@,
        "cudaFree"@,
        "cudaStreamSynchronize"@,
        "cudaEventRecord"@,
        "cudaMemsetAsync"@,
    ]
}

/// The ids of some names.
pub open spec fn ids_of(names: Seq<Seq<char>>) -> Seq<u64> {
    names.map_values(|n: Seq<char>| name_id(n))
}

/// The ids of everything emitted.
#[derive(Debug)]
pub struct SyntheticIds {
    pub metrics: Vec<u64>,
    pub kernels: Vec<u64>,
    pub apis: Vec<u64>,
}

impl SyntheticIds {
    pub open spec fn wf(self) -> bool {
        &&& self.metrics@ == ids_of(metric_names())
        &&& self.kernels@ == ids_of(kernel_names())
        &&& self.apis@ == ids_of(api_names())
    }

    pub fn new() -> (ids: Self)
        ensures
            ids.wf(),
    {
        let mut metrics: Vec<u64> = Vec::new();
        metrics.push(hash("gpu.util.percent"));
        metrics.push(hash("gpu.mem.util.percent"));
        metrics.push(hash("gpu.mem.used.bytes"));
        metrics.push(hash("gpu.power.watts"));
        metrics.push(hash("gpu.sm.clock.hz"));
        metrics.push(hash("gpu.mem.bandwidth.bytes_per_sec"));
        assert(metrics@ =~= ids_of(metric_names()));
        let mut kernels: Vec<u64> = Vec::new();
        kernels.push(hash("void cutlass::Kernel<cutlass::gemm::kernel::Gemm>(...)"));
        kernels.push(hash("void at::native::vectorized_elementwise_kernel<...>(int, ...)"));
        kernels.push(hash("void at::native::reduce_kernel<512, 1, ...>()"));
        kernels.push(hash("void flash_attention::mha_fwd_kernel<...>()"));
        kernels.push(hash("void cub::DeviceReduceKernel<...>()"));
        kernels.push(hash("void nccl::ncclAllReduceRing<...>()"));
        kernels.push(hash("void cudnn::conv::Conv2dKernel<...>()"));
        assert(kernels@ =~= ids_of(kernel_names()));
        let mut apis: Vec<u64> = Vec::new();
        apis.push(hash("cuLaunchKernel"));
        apis.push(hash("cudaMemcpyAsync"));
        apis.push(hash("cudaMalloc"));
        apis.push(hash("cudaFree"));
        apis.push(hash("cudaStreamSynchronize"));
        apis.push(hash("cudaEventRecord"));
        apis.push(hash("cudaMemsetAsync"));
        assert(apis@ =~= ids_of(api_names()));
        SyntheticIds { metrics, kernels, apis }
    }
}

/// Times that leave room for a burst before the end of time.
pub open spec fn has_room(now_ns: u64) -> bool {
    now_ns <= u64::MAX - 2_000_000
}

/// What is drawn for a launch before its duration.
#[derive(Copy, Clone, Debug, PartialEq, Eq, Structural)]
pub struct LaunchDraw {
    pub kernel: usize,
    pub api: usize,
    /// When the call starts, after now.
    pub delay_ns: u64,
    pub api_dur_ns: u64,
    /// Time between the call's end and the kernel's start.
    pub gap_ns: u64,
}

impl LaunchDraw {
    pub open spec fn in_range(self) -> bool {
        &&& self.kernel < kernel_names().len()
        &&& self.api < api_names().len()
        &&& self.delay_ns < 1_000_000
        &&& 500 <= self.api_dur_ns < 5_000
        &&& 1_000 <= self.gap_ns < 20_000
    }
}

/// What is drawn for a launch after its duration.
#[derive(Copy, Clone, Debug, PartialEq, Eq, Structural)]
pub struct DetailDraw {
    pub api_stream: u32,
    pub cbid: u32,
    pub kernel_stream: u32,
    pub grid_x: u32,
    pub dynamic_shared: u32,
    pub registers: u32,
}

impl DetailDraw {
    pub open spec fn in_range(self) -> bool {
        &&& self.api_stream < 4
        &&& 1 <= self.cbid < 400
        &&& self.kernel_stream < 4
        &&& 1 <= self.grid_x < 512
        &&& self.dynamic_shared < 16384
        &&& 16 <= self.registers < 64
    }
}

/// How many kernels a GPU launches in a tick.
pub fn draw_launches(rng: &mut SmallRng) -> (n: u32)
    ensures
        4 <= n < 32,
{
    draw_u32(rng, 4, 32)
}

pub fn draw_launch(rng: &mut SmallRng) -> (d: LaunchDraw)
    ensures
        d.in_range(),
{
    let kernel = draw_index(rng, 7);
    let api = draw_index(rng, 7);
    let delay_ns = draw_u64(rng, 0, 1_000_000);
    let api_dur_ns = draw_u64(rng, 500, 5_000);
    let gap_ns = draw_u64(rng, 1_000, 20_000);
    LaunchDraw { kernel, api, delay_ns, api_dur_ns, gap_ns }
}

pub fn draw_detail(rng: &mut SmallRng) -> (d: DetailDraw)
    ensures
        d.in_range(),
{
    let api_stream = draw_u32(rng, 0, 4);
    let cbid = draw_u32(rng, 1, 400);
    let kernel_stream = draw_u32(rng, 0, 4);
    let grid_x = draw_u32(rng, 1, 512);
    let dynamic_shared = draw_u32(rng, 0, 16384);
    let registers = draw_u32(rng, 16, 64);
    DetailDraw { api_stream, cbid, kernel_stream, grid_x, dynamic_shared, registers }
}

/// The API call of a launch.
pub open spec fn api_event(
    now_ns: u64,
    correlation_id: u64,
    node_id: u32,
    gpu_id: u32,
    l: LaunchDraw,
    d: DetailDraw,
) -> Event {
    Event {
        ts_ns: (now_ns + l.delay_ns) as u64,
        duration_ns: l.api_dur_ns,
        node_id,
        gpu_id,
        pid: 12345,
        tid: 1,
        ctx_id: 1,
        stream_id: d.api_stream,
        category: Category::ApiCall,
        name_id: ids_of(api_names())[l.api as int],
        correlation_id,
        parent_id: 0,
        payload: Some(Payload::Api(ApiCallDetail { cbid: d.cbid, status: 0 })),
    }
}

/// The kernel of a launch.
pub open spec fn kernel_event(
    now_ns: u64,
    correlation_id: u64,
    node_id: u32,
    gpu_id: u32,
    l: LaunchDraw,
    kernel_dur_ns: u64,
    d: DetailDraw,
) -> Event {
    Event {
        ts_ns: (now_ns + l.delay_ns + l.api_dur_ns + l.gap_ns) as u64,
        duration_ns: kernel_dur_ns,
        node_id,
        gpu_id,
        pid: 12345,
        tid: 1,
        ctx_id: 1,
        stream_id: d.kernel_stream,
        category: Category::Kernel,
        name_id: ids_of(kernel_names())[l.kernel as int],
        correlation_id,
        parent_id: 0,
        payload: Some(
            Payload::Kernel(
                KernelDetail {
                    grid_x: d.grid_x,
                    grid_y: 1,
                    grid_z: 1,
                    block_x: 128,
                    block_y: 1,
                    block_z: 1,
                    static_shared_mem_bytes: 0,
                    dynamic_shared_mem_bytes: d.dynamic_shared,
                    registers_per_thread: d.registers,
                    local_mem_per_thread: 0,
                    launch_cbid: 211,
                },
            ),
        ),
    }
}

/// The API call and the kernel of a launch. They share a correlation id.
pub fn launch_events(
    ids: &SyntheticIds,
    now_ns: u64,
    correlation_id: u64,
    node_id: u32,
    gpu_id: u32,
    l: &LaunchDraw,
    kernel_dur_ns: u64,
    d: &DetailDraw,
) -> (events: (Event, Event))
    requires
        ids.wf(),
        has_room(now_ns),
        l.in_range(),
    ensures
        events.0 == api_event(now_ns, correlation_id, node_id, gpu_id, *l, *d),
        events.1 == kernel_event(now_ns, correlation_id, node_id, gpu_id, *l, kernel_dur_ns, *d),
{
    let api_start: u64 = now_ns + l.delay_ns;
    let kernel_start: u64 = api_start + l.api_dur_ns + l.gap_ns;
    let api = Event {
        ts_ns: api_start,
        duration_ns: l.api_dur_ns,
        node_id,
        gpu_id,
        pid: 12345,
        tid: 1,
        ctx_id: 1,
        stream_id: d.api_stream,
        category: Category::ApiCall,
        name_id: ids.apis[l.api],
        correlation_id,
        parent_id: 0,
        payload: Some(Payload::Api(ApiCallDetail { cbid: d.cbid, status: 0 })),
    };
    let kernel = Event {
        ts_ns: kernel_start,
        duration_ns: kernel_dur_ns,
        node_id,
        gpu_id,
        pid: 12345,
        tid: 1,
        ctx_id: 1,
        stream_id: d.kernel_stream,
        category: Category::Kernel,
        name_id: ids.kernels[l.kernel],
        correlation_id,
        parent_id: 0,
        payload: Some(
            Payload::Kernel(
                KernelDetail {
                    grid_x: d.grid_x,
                    grid_y: 1,
                    grid_z: 1,
                    block_x: 128,
                    block_y: 1,
                    block_z: 1,
                    static_shared_mem_bytes: 0,
                    dynamic_shared_mem_bytes: d.dynamic_shared,
                    registers_per_thread: d.registers,
                    local_mem_per_thread: 0,
                    launch_cbid: 211,
                },
            ),
        ),
    };
    (api, kernel)
}

/// What is drawn for a copy.
#[derive(Copy, Clone, Debug, PartialEq, Eq, Structural)]
pub struct CopyDraw {
    pub bytes: u64,
    /// Time on top of the transfer.
    pub overhead_ns: u64,
    /// When the copy starts, after now.
    pub delay_ns: u64,
}

impl CopyDraw {
    pub open spec fn in_range(self) -> bool {
        &&& 4_096 <= self.bytes < 16_777_216
        &&& 500 <= self.overhead_ns < 2_000
        &&& self.delay_ns < 500_000
    }
}

pub fn draw_copy(rng: &mut SmallRng) -> (d: CopyDraw)
    ensures
        d.in_range(),
{
    let bytes = draw_u64(rng, 4_096, 16_777_216);
    let overhead_ns = draw_u64(rng, 500, 2_000);
    let delay_ns = draw_u64(rng, 0, 500_000);
    CopyDraw { bytes, overhead_ns, delay_ns }
}

/// A copy as drawn, and how long its bytes take.
#[derive(Copy, Clone, Debug, PartialEq, Eq, Structural)]
pub struct Transfer {
    pub draw: CopyDraw,
    pub transfer_ns: u64,
}

impl Transfer {
    /// Twelve bytes a nanosecond, rounded down. Worked out in double precision, a
    /// whole number of nanoseconds may come out one short.
    pub open spec fn in_range(self) -> bool {
        &&& self.draw.in_range()
        &&& self.transfer_ns == self.draw.bytes / 12 || self.draw.bytes % 12 == 0
            && self.transfer_ns + 1 == self.draw.bytes / 12
    }

    /// Whether a copy of these bytes takes that long.
    pub fn is_timed(&self) -> (b: bool)
        ensures
            self.draw.in_range() ==> b == self.in_range(),
    {
        let ns: u64 = self.draw.bytes / 12;
        self.transfer_ns == ns || (self.draw.bytes % 12 == 0 && ns > 0 && self.transfer_ns == ns
            - 1)
    }
}

/// A copy from the host to a GPU.
pub open spec fn copy_event_of(now_ns: u64, node_id: u32, gpu_id: u32, c: Transfer) -> Event {
    let d = c.draw;
    Event {
        ts_ns: (now_ns + d.delay_ns) as u64,
        duration_ns: (c.transfer_ns + d.overhead_ns) as u64,
        node_id,
        gpu_id,
        pid: 12345,
        tid: 1,
        ctx_id: 1,
        stream_id: 0,
        category: Category::Memcpy,
        name_id: name_id("cudaMemcpyH2D"@),
        correlation_id: 0,
        parent_id: 0,
        payload: Some(
            Payload::Memcpy(
                MemcpyDetail {
                    kind: MemcpyKind::H2d,
                    bytes: d.bytes,
                    src_device: 0,
                    dst_device: gpu_id,
                },
            ),
        ),
    }
}

pub fn copy_event(now_ns: u64, node_id: u32, gpu_id: u32, c: &Transfer) -> (e: Event)
    requires
        has_room(now_ns),
        c.in_range(),
    ensures
        e == copy_event_of(now_ns, node_id, gpu_id, *c),
{
    let d = &c.draw;
    Event {
        ts_ns: now_ns + d.delay_ns,
        duration_ns: c.transfer_ns + d.overhead_ns,
        node_id,
        gpu_id,
        pid: 12345,
        tid: 1,
        ctx_id: 1,
        stream_id: 0,
        category: Category::Memcpy,
        name_id: hash("cudaMemcpyH2D"),
        correlation_id: 0,
        parent_id: 0,
        payload: Some(
            Payload::Memcpy(
                MemcpyDetail {
                    kind: MemcpyKind::H2d,
                    bytes: d.bytes,
                    src_device: 0,
                    dst_device: gpu_id,
                },
            ),
        ),
    }
}

/// A launch as drawn.
#[derive(Copy, Clone, Debug, PartialEq, Eq, Structural)]
pub struct Launch {
    pub draw: LaunchDraw,
    pub kernel_dur_ns: u64,
    pub detail: DetailDraw,
}

/// The events of some launches, call before kernel, numbered from `first`.
pub open spec fn launched(
    now_ns: u64,
    first: u64,
    node_id: u32,
    gpu_id: u32,
    launches: Seq<Launch>,
) -> Seq<Event>
    decreases launches.len(),
{
    if launches.len() == 0 {
        Seq::empty()
    } else {
        let before = launched(now_ns, first, node_id, gpu_id, launches.drop_last());
        let corr = (first + launches.len() - 1) as u64;
        let l = launches.last();
        before.push(api_event(now_ns, corr, node_id, gpu_id, l.draw, l.detail)).push(
            kernel_event(now_ns, corr, node_id, gpu_id, l.draw, l.kernel_dur_ns, l.detail),
        )
    }
}

/// The copy of a tick, if there is one.
pub open spec fn copied(
    now_ns: u64,
    node_id: u32,
    gpu_id: u32,
    copy: Option<Transfer>,
) -> Seq<Event> {
    match copy {
        Some(c) => seq![copy_event_of(now_ns, node_id, gpu_id, c)],
        None => Seq::empty(),
    }
}

impl SyntheticSampler {
    /// What a busy GPU does in a tick: its launches, numbered from `first`, and
    /// then its copy.
    fn burst_events(
        &self,
        ids: &SyntheticIds,
        now_ns: u64,
        gpu_id: u32,
        first: u64,
        launches: &Vec<Launch>,
        copy: Option<Transfer>,
    ) -> (events: Vec<Event>)
        requires
            ids.wf(),
            has_room(now_ns),
            first + launches.len() <= u64::MAX,
            forall|i: int| 0 <= i < launches.len() ==> (#[trigger] launches[i]).draw.in_range(),
            copy matches Some(c) ==> c.in_range(),
        ensures
            events@ == launched(now_ns, first, self.node_id, gpu_id, launches@) + copied(
                now_ns,
                self.node_id,
                gpu_id,
                copy,
            ),
    {
        let mut events: Vec<Event> = Vec::new();
        let mut i: usize = 0;
        while i < launches.len()
            invariant
                ids.wf(),
                has_room(now_ns),
                first + launches.len() <= u64::MAX,
                forall|i: int|
                    0 <= i < launches.len() ==> (#[trigger] launches[i]).draw.in_range(),
                0 <= i <= launches.len(),
                events@ == launched(now_ns, first, self.node_id, gpu_id, launches@.take(i as int)),
            decreases launches.len() - i,
        {
            assert(launches@.take(i + 1).drop_last() =~= launches@.take(i as int));
            let l = launches[i];
            let (api, kernel) = launch_events(
                ids,
                now_ns,
                first + i as u64,
                self.node_id,
                gpu_id,
                &l.draw,
                l.kernel_dur_ns,
                &l.detail,
            );
            events.push(api);
            events.push(kernel);
            i = i + 1;
        }
        assert(launches@.take(launches.len() as int) =~= launches@);
        if let Some(c) = copy {
            events.push(copy_event(now_ns, self.node_id, gpu_id, &c));
        }
        assert(events@ =~= launched(now_ns, first, self.node_id, gpu_id, launches@) + copied(
            now_ns,
            self.node_id,
            gpu_id,
            copy,
        ));
        events
    }
}

/// The points of the metrics, whose values are given in the order of the names.
pub open spec fn points_of(values: Seq<u64>) -> Seq<MetricPoint> {
    Seq::new(
        metric_names().len(),
        |i: int| MetricPoint { metric_id: name_id(metric_names()[i]), value_bits: values[i] },
    )
}

/// The frame of a GPU's metrics, whose values are given in the order of the
/// names. One value is needed for each name.
pub fn metric_frame(
    ids: &SyntheticIds,
    now_ns: u64,
    node_id: u32,
    gpu_id: u32,
    values: &Vec<u64>,
) -> (frame: MetricFrame)
    requires
        ids.wf(),
        values.len() == metric_names().len(),
    ensures
        frame.node_id == node_id,
        frame.gpu_id == gpu_id,
        frame.ts_ns == now_ns,
        frame.points@ == points_of(values@),
{
    let mut points: Vec<MetricPoint> = Vec::new();
    let mut i: usize = 0;
    while i < values.len()
        invariant
            0 <= i <= values.len(),
            ids.wf(),
            values.len() == metric_names().len(),
            points.len() == i,
            forall|k: int|
                0 <= k < i ==> #[trigger] points@[k] == (MetricPoint {
                    metric_id: name_id(metric_names()[k]),
                    value_bits: values@[k],
                }),
        decreases values.len() - i,
    {
        points.push(MetricPoint { metric_id: ids.metrics[i], value_bits: values[i] });
        i = i + 1;
    }
    assert(points@ =~= points_of(values@));
    MetricFrame { node_id, gpu_id, ts_ns: now_ns, points }
}

/// What is drawn for a GPU in a tick. Launches and the copy are drawn only for
/// bursts.
#[derive(Clone, Debug)]
pub struct GpuDraw {
    /// The values of the metrics, as the bits of doubles.
    pub values: Vec<u64>,
    pub launches: Vec<Launch>,
    pub copy: Option<Transfer>,
}

impl GpuDraw {
    pub open spec fn in_range(self) -> bool {
        &&& self.values@.len() == metric_names().len()
        &&& forall|i: int|
            0 <= i < self.launches@.len() ==> (#[trigger] self.launches@[i]).draw.in_range()
        &&& self.copy matches Some(c) ==> c.in_range()
    }
}

/// What the GPUs emit in a tick.
#[derive(Debug)]
pub struct Tick {
    pub frames: Vec<MetricFrame>,
    pub events: Vec<Event>,
    /// The first correlation id that is still unused.
    pub next: u64,
}

/// How many launches the first `n` GPUs make.
pub open spec fn launches_in(draws: Seq<GpuDraw>, n: int) -> nat
    decreases n,
{
    if n <= 0 {
        0
    } else {
        launches_in(draws, n - 1) + draws[n - 1].launches@.len()
    }
}

/// The events of the first `n` GPUs in turn: launches numbered on from GPU to GPU,
/// and each GPU's copy after its launches.
pub open spec fn burst_of(
    now_ns: u64,
    first: u64,
    node_id: u32,
    draws: Seq<GpuDraw>,
    n: int,
) -> Seq<Event>
    decreases n,
{
    if n <= 0 {
        Seq::empty()
    } else {
        let gpu_id = (n - 1) as u32;
        let from = (first + launches_in(draws, n - 1)) as u64;
        burst_of(now_ns, first, node_id, draws, n - 1) + (launched(
            now_ns,
            from,
            node_id,
            gpu_id,
            draws[n - 1].launches@,
        ) + copied(now_ns, node_id, gpu_id, draws[n - 1].copy))
    }
}

proof fn lemma_launches_add_up(draws: Seq<GpuDraw>, n: int, m: int)
    requires
        0 <= n <= m <= draws.len(),
    ensures
        launches_in(draws, n) <= launches_in(draws, m),
    decreases m,
{
    if n < m {
        lemma_launches_add_up(draws, n, m - 1);
    }
}

impl SyntheticSampler {
    /// One tick: a frame of metrics from each GPU and, if bursts are asked for, the
    /// events of each GPU, numbered from `first`.
    pub fn tick(&self, ids: &SyntheticIds, now_ns: u64, first: u64, draws: &Vec<GpuDraw>) -> (t:
        Tick)
        requires
            ids.wf(),
            draws.len() == self.num_gpus,
            forall|g: int| 0 <= g < draws.len() ==> (#[trigger] draws[g]).in_range(),
            self.burst ==> has_room(now_ns),
            self.burst ==> first + launches_in(draws@, draws.len() as int) <= u64::MAX,
        ensures
            t.frames.len() == self.num_gpus,
            forall|g: int|
                0 <= g < self.num_gpus ==> {
                    let frame = #[trigger] t.frames[g];
                    &&& frame.node_id == self.node_id
                    &&& frame.gpu_id == g
                    &&& frame.ts_ns == now_ns
                    &&& frame.points@ == points_of(draws[g].values@)
                },
            !self.burst ==> t.events.len() == 0 && t.next == first,
            self.burst ==> t.events@ == burst_of(
                now_ns,
                first,
                self.node_id,
                draws@,
                self.num_gpus as int,
            ) && t.next == first + launches_in(draws@, self.num_gpus as int),
    {
        let mut frames: Vec<MetricFrame> = Vec::new();
        let mut events: Vec<Event> = Vec::new();
        let mut next: u64 = first;
        let mut g: u32 = 0;
        while g < self.num_gpus
            invariant
                ids.wf(),
                draws.len() == self.num_gpus,
                forall|g: int| 0 <= g < draws.len() ==> (#[trigger] draws[g]).in_range(),
                self.burst ==> has_room(now_ns),
                self.burst ==> first + launches_in(draws@, draws.len() as int) <= u64::MAX,
                g <= self.num_gpus,
                frames.len() == g,
                forall|k: int|
                    0 <= k < g ==> {
                        let frame = #[trigger] frames[k];
                        &&& frame.node_id == self.node_id
                        &&& frame.gpu_id == k
                        &&& frame.ts_ns == now_ns
                        &&& frame.points@ == points_of(draws[k].values@)
                    },
                !self.burst ==> events.len() == 0 && next == first,
                self.burst ==> events@ == burst_of(
                    now_ns,
                    first,
                    self.node_id,
                    draws@,
                    g as int,
                ) && next == first + launches_in(draws@, g as int),
            decreases self.num_gpus - g,
        {
            let d = &draws[g as usize];
            frames.push(metric_frame(ids, now_ns, self.node_id, g, &d.values));
            if self.burst {
                proof {
                    lemma_launches_add_up(draws@, g + 1, draws.len() as int);
                }
                let mut more = self.burst_events(ids, now_ns, g, next, &d.launches, d.copy);
                next = next + d.launches.len() as u64;
                events.append(&mut more);
            }
            g = g + 1;
        }
        Tick { frames, events, next }
    }
}

/// A launch reads as on a real timeline: the kernel starts after its call has
/// returned, and the two share a correlation id.
pub proof fn kernels_follow_their_calls(
    now_ns: u64,
    correlation_id: u64,
    node_id: u32,
    gpu_id: u32,
    l: LaunchDraw,
    kernel_dur_ns: u64,
    d: DetailDraw,
)
    requires
        has_room(now_ns),
        l.in_range(),
    ensures
        ({
            let a = api_event(now_ns, correlation_id, node_id, gpu_id, l, d);
            let k = kernel_event(now_ns, correlation_id, node_id, gpu_id, l, kernel_dur_ns, d);
            &&& a.correlation_id == k.correlation_id
            &&& a.ts_ns >= now_ns
            &&& k.ts_ns >= a.ts_ns + a.duration_ns + 1_000
        }),
{
}

/// Launch `i` of a tick is a call and a kernel under the number `i` after the
/// first; no other event of the launches has that number.
pub proof fn launches_are_numbered(
    now_ns: u64,
    first: u64,
    node_id: u32,
    gpu_id: u32,
    launches: Seq<Launch>,
)
    requires
        first + launches.len() <= u64::MAX,
    ensures
        launched(now_ns, first, node_id, gpu_id, launches).len() == 2 * launches.len(),
        forall|i: int|
            0 <= i < launches.len() ==> {
                let events = launched(now_ns, first, node_id, gpu_id, launches);
                let corr = (first + i) as u64;
                let l = #[trigger] launches[i];
                &&& corr == first + i
                &&& events[2 * i] == api_event(now_ns, corr, node_id, gpu_id, l.draw, l.detail)
                &&& events[2 * i + 1] == kernel_event(
                    now_ns,
                    corr,
                    node_id,
                    gpu_id,
                    l.draw,
                    l.kernel_dur_ns,
                    l.detail,
                )
            },
    decreases launches.len(),
{
    if launches.len() > 0 {
        let front = launches.drop_last();
        launches_are_numbered(now_ns, first, node_id, gpu_id, front);
        assert forall|i: int| 0 <= i < front.len() implies #[trigger] launches[i] == front[i] by {
        }
    }
}

/// The ids of a tick are new: every launch is numbered from `first` on and below
/// the id that the next tick begins with. Copies have no number.
pub proof fn ticks_go_on_numbering(
    now_ns: u64,
    first: u64,
    node_id: u32,
    draws: Seq<GpuDraw>,
    n: int,
)
    requires
        0 <= n <= draws.len(),
        first + launches_in(draws, n) <= u64::MAX,
    ensures
        forall|i: int|
            0 <= i < burst_of(now_ns, first, node_id, draws, n).len() ==> {
                let e = #[trigger] burst_of(now_ns, first, node_id, draws, n)[i];
                ||| e.category == Category::Memcpy && e.correlation_id == 0
                ||| first <= e.correlation_id < first + launches_in(draws, n)
            },
    decreases n,
{
    if n > 0 {
        ticks_go_on_numbering(now_ns, first, node_id, draws, n - 1);
        let d = draws[n - 1];
        let from = (first + launches_in(draws, n - 1)) as u64;
        launches_are_numbered(now_ns, from, node_id, (n - 1) as u32, d.launches@);
        let before = burst_of(now_ns, first, node_id, draws, n - 1);
        let own = launched(now_ns, from, node_id, (n - 1) as u32, d.launches@);
        let all = burst_of(now_ns, first, node_id, draws, n);
        assert forall|i: int| 0 <= i < all.len() implies ({
            let e = #[trigger] all[i];
            ||| e.category == Category::Memcpy && e.correlation_id == 0
            ||| first <= e.correlation_id < first + launches_in(draws, n)
        }) by {
            if i < before.len() {
                assert(all[i] == before[i]);
            } else if i < before.len() + own.len() {
                let j = i - before.len();
                assert(all[i] == own[j]);
                let l = d.launches@[j / 2];
                assert(j == 2 * (j / 2) || j == 2 * (j / 2) + 1);
            }
        }
    }
}

/// The two events of a launch are of the GPU and node asked for, on the call's and
/// the kernel's own streams, named after what was drawn, and as long as was drawn.
pub proof fn launches_say_what_was_drawn(
    now_ns: u64,
    corr: u64,
    node_id: u32,
    gpu_id: u32,
    l: LaunchDraw,
    kernel_dur_ns: u64,
    d: DetailDraw,
)
    requires
        has_room(now_ns),
        l.in_range(),
    ensures
        ({
            let a = api_event(now_ns, corr, node_id, gpu_id, l, d);
            let k = kernel_event(now_ns, corr, node_id, gpu_id, l, kernel_dur_ns, d);
            &&& a.category == Category::ApiCall && k.category == Category::Kernel
            &&& a.correlation_id == corr && k.correlation_id == corr
            &&& a.node_id == node_id && k.node_id == node_id
            &&& a.gpu_id == gpu_id && k.gpu_id == gpu_id
            &&& a.ts_ns - now_ns == l.delay_ns
            &&& a.duration_ns == l.api_dur_ns
            &&& k.ts_ns - (a.ts_ns + a.duration_ns) == l.gap_ns
            &&& k.duration_ns == kernel_dur_ns
            &&& a.name_id == name_id(api_names()[l.api as int])
            &&& k.name_id == name_id(kernel_names()[l.kernel as int])
            &&& a.stream_id == d.api_stream && k.stream_id == d.kernel_stream
        }),
{
}

/// A copy is of the bytes drawn, from the host to the GPU, and lasts the transfer
/// and the overhead drawn.
pub proof fn copies_say_what_was_drawn(now_ns: u64, node_id: u32, gpu_id: u32, c: Transfer)
    requires
        has_room(now_ns),
        c.in_range(),
    ensures
        ({
            let e = copy_event_of(now_ns, node_id, gpu_id, c);
            &&& e.category == Category::Memcpy
            &&& e.ts_ns - now_ns == c.draw.delay_ns
            &&& e.duration_ns == c.transfer_ns + c.draw.overhead_ns
            &&& e.node_id == node_id && e.gpu_id == gpu_id
            &&& e.payload matches Some(Payload::Memcpy(m)) && m.kind == MemcpyKind::H2d && m.bytes
                == c.draw.bytes && m.dst_device == gpu_id
        }),
{
}

} // verus!
