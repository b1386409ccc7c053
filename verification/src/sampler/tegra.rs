//! Tegra and Jetson metrics, from sysfs.
//!
//! NVML is of little use on these boards. What does not exist on a given board is
//! skipped; a missing node never stops the sampler.

use crate::filters::text_view;
use crate::intern::{hash, name_id};
use crate::model::{MetricFrame, MetricPoint};
use crate::sampler::nvml::{one_point, push_point, push_points, two_points};
use crate::spike_detect::order_key;
use crate::text::{
    append_decimal, chars_have, chars_of, decimal, first_word, first_word_range, has_text,
    line_bounds, lines, lower, lower_of, parse_unsigned, parsed_unsigned, pieces,
    range_starts_with, starts_with, text_of, trim_range, trimmed,
};
use vstd::prelude::*;
use vstd::string::StringExecFns;

verus! {

/// Reads GPU load, clocks, temperatures, power and memory from sysfs.
#[derive(Copy, Clone, Debug, PartialEq, Eq, Structural)]
pub struct TegraSampler {
    pub node_id: u32,
    pub metric_hz: u32,
}

/// A device-tree model of a Tegra board: it names NVIDIA, and one of the board
/// families, in any case.
pub open spec fn names_tegra(model: Seq<char>) -> bool {
    let m = lower(model);
    has_text(m, "nvidia"@) && (has_text(m, "orin"@) || has_text(m, "xavier"@) || has_text(
        m,
        "jetson"@,
    ))
}

/// Whether this is a Tegra board: forced, or by its model.
pub fn is_tegra(forced: bool, model: Option<&str>) -> (b: bool)
    ensures
        b <==> forced || (model matches Some(m) && names_tegra(m@)),
{
    if forced {
        return true;
    }
    match model {
        Some(m) => {
            let cs = chars_of(m);
            let low = lower_of(&cs);
            chars_have(&low, "nvidia") && (chars_have(&low, "orin") || chars_have(&low, "xavier")
                || chars_have(&low, "jetson"))
        },
        None => false,
    }
}

/// Where the GPU's frequency node may be, in order of preference.
pub fn devfreq_candidates() -> (v: Vec<&'static str>)
    ensures
        v.len() == 4,
        v[0]@ == "/sys/class/devfreq/17000000.gv11b"@,
        v[1]@ == "/sys/class/devfreq/17000000.gp10b"@,
        v[2]@ == "/sys/class/devfreq/57000000.gpu"@,
        v[3]@ == "/sys/class/devfreq/13000000.gpu"@,
{
    let mut v: Vec<&'static str> = Vec::new();
    v.push("/sys/class/devfreq/17000000.gv11b");
    v.push("/sys/class/devfreq/17000000.gp10b");
    v.push("/sys/class/devfreq/57000000.gpu");
    v.push("/sys/class/devfreq/13000000.gpu");
    v
}

/// What exists under a frequency node.
#[derive(Clone, Debug)]
pub struct DevfreqProbe {
    pub root: String,
    pub exists: bool,
    pub has_cur_freq: bool,
    pub has_device_load: bool,
    pub has_load: bool,
}

/// The files to read for the GPU's clock and load.
#[derive(Clone, Debug)]
pub struct GpuNodes {
    pub clock: Option<String>,
    pub load: Option<String>,
}

/// The text in an optional string.
pub open spec fn path_view(p: Option<String>) -> Option<Seq<char>> {
    match p {
        Some(s) => Some(s@),
        None => None,
    }
}

/// Index of the first node that exists.
pub open spec fn first_existing(probes: Seq<DevfreqProbe>, n: int) -> Option<int>
    decreases n,
{
    if n <= 0 {
        None
    } else {
        match first_existing(probes, n - 1) {
            Some(i) => Some(i),
            None => if probes[n - 1].exists {
                Some(n - 1)
            } else {
                None
            },
        }
    }
}

/// The clock file of a node.
pub open spec fn clock_file(p: DevfreqProbe) -> Option<Seq<char>> {
    if p.has_cur_freq {
        Some(p.root@ + "/cur_freq"@)
    } else {
        None
    }
}

/// The load file of a node; the one under `device` is preferred.
pub open spec fn load_file(p: DevfreqProbe) -> Option<Seq<char>> {
    if p.has_device_load {
        Some(p.root@ + "/device/load"@)
    } else if p.has_load {
        Some(p.root@ + "/load"@)
    } else {
        None
    }
}

/// `g` holds the files of the first node that exists, and of no other.
pub open spec fn are_gpu_nodes(probes: Seq<DevfreqProbe>, g: GpuNodes) -> bool {
    match first_existing(probes, probes.len() as int) {
        Some(i) => {
            &&& path_view(g.clock) == clock_file(probes[i])
            &&& path_view(g.load) == load_file(probes[i])
        },
        None => g.clock is None && g.load is None,
    }
}

fn under(root: &str, file: &str) -> (path: String)
    ensures
        path@ == root@ + file@,
{
    let mut path = root.to_string();
    path.append(file);
    path
}

/// Chooses the files to read for the GPU.
pub fn choose_gpu_nodes(probes: &Vec<DevfreqProbe>) -> (g: GpuNodes)
    ensures
        are_gpu_nodes(probes@, g),
{
    let mut i: usize = 0;
    while i < probes.len()
        invariant
            0 <= i <= probes.len(),
            first_existing(probes@, i as int) is None,
        decreases probes.len() - i,
    {
        let p = &probes[i];
        if p.exists {
            proof {
                lemma_first_stays(probes@, i + 1, probes.len() as int);
            }
            let clock = if p.has_cur_freq {
                Some(under(p.root.as_str(), "/cur_freq"))
            } else {
                None
            };
            let load = if p.has_device_load {
                Some(under(p.root.as_str(), "/device/load"))
            } else if p.has_load {
                Some(under(p.root.as_str(), "/load"))
            } else {
                None
            };
            return GpuNodes { clock, load };
        }
        i = i + 1;
    }
    GpuNodes { clock: None, load: None }
}

proof fn lemma_first_stays(probes: Seq<DevfreqProbe>, n: int, m: int)
    requires
        0 <= n <= m,
        first_existing(probes, n) is Some,
    ensures
        first_existing(probes, m) == first_existing(probes, n),
    decreases m,
{
    if n < m {
        lemma_first_stays(probes, n, m - 1);
    }
}

/// A temperature sensor of interest: of the GPU, the CPU or the whole chip.
pub open spec fn is_chip_sensor(kind: Seq<char>) -> bool {
    let k = lower(kind);
    has_text(k, "gpu"@) || has_text(k, "cpu"@) || has_text(k, "soc"@) || has_text(k, "tj"@)
}

/// A directory entry that may be a temperature sensor.
#[derive(Clone, Debug)]
pub struct ZoneProbe {
    pub dir_name: String,
    pub has_temp: bool,
    /// What the sensor measures, if that can be read.
    pub kind: Option<String>,
}

/// The label of a sensor that is kept.
pub open spec fn zone_label(z: ZoneProbe) -> Option<Seq<char>> {
    match z.kind {
        Some(kind) => if starts_with(z.dir_name@, "thermal_zone"@) && z.has_temp
            && is_chip_sensor(trimmed(kind@)) {
            Some(trimmed(kind@))
        } else {
            None
        },
        None => None,
    }
}

fn chip_sensor(cs: &Vec<char>) -> (b: bool)
    ensures
        b == is_chip_sensor(cs@),
{
    let low = lower_of(cs);
    chars_have(&low, "gpu") || chars_have(&low, "cpu") || chars_have(&low, "soc") || chars_have(
        &low,
        "tj",
    )
}

/// Decides whether a sensor is kept, and under which label.
pub fn keep_zone(z: &ZoneProbe) -> (label: Option<String>)
    ensures
        path_view(label) == zone_label(*z),
{
    let name = chars_of(z.dir_name.as_str());
    let prefix = chars_of("thermal_zone");
    assert(name@.subrange(0, name.len() as int) =~= name@);
    if !range_starts_with(&name, 0, name.len(), &prefix) || !z.has_temp {
        return None;
    }
    match &z.kind {
        Some(kind) => {
            let cs = chars_of(kind.as_str());
            let (a, b) = trim_range(&cs, 0, cs.len());
            assert(cs@.subrange(0, cs.len() as int) =~= cs@);
            let label = text_of(&cs, a, b);
            let trimmed_chars = chars_of(label.as_str());
            if chip_sensor(&trimmed_chars) {
                Some(label)
            } else {
                None
            }
        },
        None => None,
    }
}

/// Channels of a power monitor.
pub const RAIL_CHANNELS: u8 = 8;

/// The file with a channel's power in milliwatts.
pub open spec fn rail_input(channel: u8) -> Seq<char> {
    "in_power"@ + decimal(channel as nat) + "_input"@
}

/// The file with a channel's power in milliwatts.
pub fn rail_input_file(channel: u8) -> (name: String)
    ensures
        name@ == rail_input(channel),
{
    let mut name = "in_power".to_string();
    append_decimal(&mut name, channel as u64);
    name.append("_input");
    name
}

/// The file with a channel's label.
pub fn rail_label_file(channel: u8) -> (name: String)
    ensures
        name@ == "in_label"@ + decimal(channel as nat),
{
    let mut name = "in_label".to_string();
    append_decimal(&mut name, channel as u64);
    name
}

/// A channel's label: what its file says, or its number.
pub open spec fn rail_label_of(channel: u8, label_file: Option<Seq<char>>) -> Seq<char> {
    match label_file {
        Some(text) => trimmed(text),
        None => "rail"@ + decimal(channel as nat),
    }
}

/// A channel's label: what its file says, or its number.
pub fn rail_label(channel: u8, label_file: Option<&str>) -> (label: String)
    ensures
        label@ == rail_label_of(channel, text_view(label_file)),
{
    match label_file {
        Some(text) => {
            let cs = chars_of(text);
            let (a, b) = trim_range(&cs, 0, cs.len());
            assert(cs@.subrange(0, cs.len() as int) =~= cs@);
            text_of(&cs, a, b)
        },
        None => {
            let mut label = "rail".to_string();
            append_decimal(&mut label, channel as u64);
            label
        },
    }
}

/// A channel of a power monitor.
#[derive(Clone, Debug)]
pub struct RailProbe {
    /// The directory of the monitor.
    pub dir: String,
    pub channel: u8,
    pub has_input: bool,
    /// What the label file says, if that can be read.
    pub label: Option<String>,
}

/// A file to read, with the label of what it measures.
#[derive(Clone, Debug)]
pub struct Sensor {
    pub label: String,
    pub path: String,
}

/// The files that a board has.
#[derive(Clone, Debug)]
pub struct DiscoveredPaths {
    pub gpu_clock: Option<String>,
    pub gpu_load: Option<String>,
    pub temp_zones: Vec<Sensor>,
    /// Rails of the power monitors, in milliwatts.
    pub power_rails: Vec<Sensor>,
}

/// Labels and paths.
pub open spec fn sensors(v: Seq<Sensor>) -> Seq<(Seq<char>, Seq<char>)> {
    v.map_values(|s: Sensor| (s.label@, s.path@))
}

/// The temperature file of a zone.
pub open spec fn temp_file(dir_name: Seq<char>) -> Seq<char> {
    "/sys/class/thermal/"@ + dir_name + "/temp"@
}

/// Labels and files of the zones that are kept, in order.
pub open spec fn kept_zones(zones: Seq<ZoneProbe>) -> Seq<(Seq<char>, Seq<char>)>
    decreases zones.len(),
{
    if zones.len() == 0 {
        Seq::empty()
    } else {
        let before = kept_zones(zones.drop_last());
        match zone_label(zones.last()) {
            Some(label) => before.push((label, temp_file(zones.last().dir_name@))),
            None => before,
        }
    }
}

/// Label and file of a channel.
pub open spec fn rail_of(r: RailProbe) -> (Seq<char>, Seq<char>) {
    (rail_label_of(r.channel, path_view(r.label)), r.dir@ + "/"@ + rail_input(r.channel))
}

/// Labels and files of the channels that have an input, in order.
pub open spec fn kept_rails(rails: Seq<RailProbe>) -> Seq<(Seq<char>, Seq<char>)>
    decreases rails.len(),
{
    if rails.len() == 0 {
        Seq::empty()
    } else {
        let before = kept_rails(rails.drop_last());
        if rails.last().has_input {
            before.push(rail_of(rails.last()))
        } else {
            before
        }
    }
}

fn zone_sensors(zones: &Vec<ZoneProbe>) -> (out: Vec<Sensor>)
    ensures
        sensors(out@) == kept_zones(zones@),
{
    let mut out: Vec<Sensor> = Vec::new();
    let mut i: usize = 0;
    assert(sensors(out@) =~= Seq::empty());
    while i < zones.len()
        invariant
            0 <= i <= zones.len(),
            sensors(out@) == kept_zones(zones@.take(i as int)),
        decreases zones.len() - i,
    {
        let ghost before = out@;
        assert(zones@.take(i + 1).drop_last() =~= zones@.take(i as int));
        let z = &zones[i];
        if let Some(label) = keep_zone(z) {
            let mut path = under("/sys/class/thermal/", z.dir_name.as_str());
            path.append("/temp");
            out.push(Sensor { label, path });
            assert(sensors(out@) =~= sensors(before).push((label@, path@)));
        }
        i = i + 1;
    }
    assert(zones@.take(zones.len() as int) =~= zones@);
    out
}

fn rail_sensors(rails: &Vec<RailProbe>) -> (out: Vec<Sensor>)
    ensures
        sensors(out@) == kept_rails(rails@),
{
    let mut out: Vec<Sensor> = Vec::new();
    let mut i: usize = 0;
    assert(sensors(out@) =~= Seq::empty());
    while i < rails.len()
        invariant
            0 <= i <= rails.len(),
            sensors(out@) == kept_rails(rails@.take(i as int)),
        decreases rails.len() - i,
    {
        let ghost before = out@;
        assert(rails@.take(i + 1).drop_last() =~= rails@.take(i as int));
        let r = &rails[i];
        if r.has_input {
            let label = match &r.label {
                Some(text) => rail_label(r.channel, Some(text.as_str())),
                None => rail_label(r.channel, None),
            };
            let mut path = under(r.dir.as_str(), "/");
            let file = rail_input_file(r.channel);
            path.append(file.as_str());
            out.push(Sensor { label, path });
            assert(sensors(out@) =~= sensors(before).push((label@, path@)));
        }
        i = i + 1;
    }
    assert(rails@.take(rails.len() as int) =~= rails@);
    out
}

/// Chooses the files to read on a board, from what was found on it.
pub fn discover_paths(
    nodes: &Vec<DevfreqProbe>,
    zones: &Vec<ZoneProbe>,
    rails: &Vec<RailProbe>,
) -> (paths: DiscoveredPaths)
    ensures
        are_gpu_nodes(nodes@, (GpuNodes { clock: paths.gpu_clock, load: paths.gpu_load })),
        sensors(paths.temp_zones@) == kept_zones(zones@),
        sensors(paths.power_rails@) == kept_rails(rails@),
{
    let gpu = choose_gpu_nodes(nodes);
    DiscoveredPaths {
        gpu_clock: gpu.clock,
        gpu_load: gpu.load,
        temp_zones: zone_sensors(zones),
        power_rails: rail_sensors(rails),
    }
}

/// The ids of the metrics.
#[derive(Copy, Clone, Debug, PartialEq, Eq, Structural)]
pub struct MetricIds {
    pub util: u64,
    pub sm_clock: u64,
    pub mem_used: u64,
    pub mem_free: u64,
    pub power_total: u64,
    pub temp: u64,
}

impl MetricIds {
    pub fn new() -> (ids: Self)
        ensures
            ids == (MetricIds {
                util: name_id("gpu.util.percent"@),
                sm_clock: name_id("gpu.sm.clock.hz"@),
                mem_used: name_id("gpu.mem.used.bytes"@),
                mem_free: name_id("gpu.mem.free.bytes"@),
                power_total: name_id("soc.power.watts"@),
                temp: name_id("gpu.temp.celsius"@),
            }),
    {
        MetricIds {
            util: hash("gpu.util.percent"),
            sm_clock: hash("gpu.sm.clock.hz"),
            mem_used: hash("gpu.mem.used.bytes"),
            mem_free: hash("gpu.mem.free.bytes"),
            power_total: hash("soc.power.watts"),
            temp: hash("gpu.temp.celsius"),
        }
    }
}

/// A temperature reading in degrees, as the bits of a double, with its label.
#[derive(Clone, Debug)]
pub struct ZoneReading {
    pub label: String,
    pub celsius_bits: u64,
}

/// The sensor is labelled as the GPU's.
pub open spec fn is_gpu_zone(z: ZoneReading) -> bool {
    has_text(lower(z.label@), "gpu"@)
}

/// The bits are those of no number.
pub open spec fn is_nan(bits: u64) -> bool {
    bits % 0x8000_0000_0000_0000 > 0x7ff0_0000_0000_0000
}

/// Orders readings by temperature; what is no number comes before every number.
pub open spec fn heat(bits: u64) -> int {
    if is_nan(bits) {
        -1
    } else {
        order_key(bits) as int
    }
}

/// `t` is the highest reading of the GPU's sensors; there is none without them.
pub open spec fn is_hottest(zones: Seq<ZoneReading>, t: Option<u64>) -> bool {
    match t {
        Some(bits) => {
            &&& exists|i: int|
                0 <= i < zones.len() && is_gpu_zone(#[trigger] zones[i]) && zones[i].celsius_bits
                    == bits
            &&& forall|i: int|
                0 <= i < zones.len() && is_gpu_zone(#[trigger] zones[i]) ==> heat(
                    zones[i].celsius_bits,
                ) <= heat(bits)
        },
        None => forall|i: int| 0 <= i < zones.len() ==> !is_gpu_zone(#[trigger] zones[i]),
    }
}

/// Whether `a` is no hotter than `b`.
fn at_most(a: u64, b: u64) -> (r: bool)
    ensures
        r == (heat(a) <= heat(b)),
{
    let negative: u64 = 0x8000_0000_0000_0000;
    let infinite: u64 = 0x7ff0_0000_0000_0000;
    if a % negative > infinite {
        true
    } else if b % negative > infinite {
        false
    } else if a < negative && b < negative {
        a <= b
    } else if a >= negative && b >= negative {
        a >= b
    } else {
        a >= negative
    }
}

/// The temperature of the GPU: the hottest of its sensors. A reading that is no
/// number counts only if there is no other.
pub fn gpu_temperature(zones: &Vec<ZoneReading>) -> (t: Option<u64>)
    ensures
        is_hottest(zones@, t),
{
    let mut best: Option<u64> = None;
    let mut i: usize = 0;
    while i < zones.len()
        invariant
            0 <= i <= zones.len(),
            is_hottest(zones@.take(i as int), best),
        decreases zones.len() - i,
    {
        let z = &zones[i];
        let cs = chars_of(z.label.as_str());
        let low = lower_of(&cs);
        let gpu = chars_have(&low, "gpu");
        let ghost so_far = zones@.take(i as int);
        let ghost upto = zones@.take(i + 1);
        let ghost before = best;
        proof {
            assert forall|k: int| 0 <= k < i implies #[trigger] upto[k] == so_far[k] by {
            }
            assert(upto[i as int] == *z);
        }
        if gpu {
            let hotter = match best {
                Some(b) => !at_most(z.celsius_bits, b),
                None => true,
            };
            if hotter {
                best = Some(z.celsius_bits);
            }
        }
        proof {
            if let Some(b) = before {
                let k = choose|k: int|
                    0 <= k < so_far.len() && is_gpu_zone(#[trigger] so_far[k])
                        && so_far[k].celsius_bits == b;
                assert(upto[k] == so_far[k]);
            }
            assert(is_hottest(upto, best));
        }
        i = i + 1;
    }
    assert(zones@.take(zones.len() as int) =~= zones@);
    best
}

/// A size in kilobytes that a line of `/proc/meminfo` gives after `key`.
pub open spec fn size_after(line: Seq<char>, key: Seq<char>) -> Option<nat> {
    let word = first_word(line.skip(key.len() as int));
    if word.len() == 0 {
        None
    } else {
        parsed_unsigned(word, u64::MAX as nat)
    }
}

/// Total and available memory in kilobytes, as the lines give them. A later line
/// replaces an earlier one.
pub open spec fn meminfo_sizes(ls: Seq<Seq<char>>) -> (Option<nat>, Option<nat>)
    decreases ls.len(),
{
    if ls.len() == 0 {
        (None, None)
    } else {
        let (total, free) = meminfo_sizes(ls.drop_last());
        let line = ls.last();
        if starts_with(line, "MemTotal:"@) {
            (size_after(line, "MemTotal:"@), free)
        } else if starts_with(line, "MemAvailable:"@) {
            (total, size_after(line, "MemAvailable:"@))
        } else {
            (total, free)
        }
    }
}

/// A number of kilobytes in bytes, cut to 64 bits.
pub open spec fn bytes_of_kb(kb: nat) -> nat {
    (kb * 1024) % 0x1_0000_0000_0000_0000
}

/// Used and free memory in bytes, if both sizes are known.
pub open spec fn memory_of(sizes: (Option<nat>, Option<nat>)) -> Option<(nat, nat)> {
    match sizes {
        (Some(total), Some(free)) => {
            let used = if total >= free {
                (total - free) as nat
            } else {
                0
            };
            Some((bytes_of_kb(used), bytes_of_kb(free)))
        },
        _ => None,
    }
}

/// The value of an optional number.
pub open spec fn as_nat(n: Option<u64>) -> Option<nat> {
    match n {
        Some(v) => Some(v as nat),
        None => None,
    }
}

fn size_in(cs: &Vec<char>, from: usize, to: usize, key: &Vec<char>) -> (n: Option<u64>)
    requires
        from <= to <= cs.len(),
        key.len() <= to - from,
    ensures
        as_nat(n) == size_after(cs@.subrange(from as int, to as int), key@),
{
    let start: usize = from + key.len();
    let (a, b) = first_word_range(cs, start, to);
    proof {
        assert(cs@.subrange(from as int, to as int).skip(key.len() as int) =~= cs@.subrange(
            start as int,
            to as int,
        ));
    }
    if a == b {
        return None;
    }
    parse_unsigned(cs, a, b, u64::MAX)
}

fn kb_to_bytes(kb: u64) -> (bytes: u64)
    ensures
        bytes == bytes_of_kb(kb as nat),
{
    kb.wrapping_mul(1024)
}

/// Used and free memory, from the text of `/proc/meminfo`.
pub fn parse_meminfo(text: &str) -> (mem: Option<(u64, u64)>)
    ensures
        match mem {
            Some((used, free)) => memory_of(meminfo_sizes(lines(text@))) == Some(
                (used as nat, free as nat),
            ),
            None => memory_of(meminfo_sizes(lines(text@))) is None,
        },
{
    let cs = chars_of(text);
    let bounds = line_bounds(&cs);
    let ghost ls = lines(text@);
    let total_key = chars_of("MemTotal:");
    let free_key = chars_of("MemAvailable:");
    let mut total: Option<u64> = None;
    let mut free: Option<u64> = None;
    let mut i: usize = 0;
    proof {
        assert(pieces(cs@, bounds@).len() == bounds@.len());
        assert(ls.take(0) =~= Seq::<Seq<char>>::empty());
    }
    while i < bounds.len()
        invariant
            0 <= i <= bounds.len(),
            ls == pieces(cs@, bounds@),
            forall|k: int|
                0 <= k < bounds.len() ==> (#[trigger] bounds[k]).0 <= bounds[k].1 <= cs.len(),
            total_key@ == "MemTotal:"@,
            free_key@ == "MemAvailable:"@,
            (as_nat(total), as_nat(free)) == meminfo_sizes(ls.take(i as int)),
        decreases bounds.len() - i,
    {
        let (from, to) = bounds[i];
        proof {
            assert(ls.take(i + 1).drop_last() =~= ls.take(i as int));
            assert(ls.take(i + 1).last() == cs@.subrange(from as int, to as int));
        }
        if range_starts_with(&cs, from, to, &total_key) {
            total = size_in(&cs, from, to, &total_key);
        } else if range_starts_with(&cs, from, to, &free_key) {
            free = size_in(&cs, from, to, &free_key);
        }
        i = i + 1;
    }
    proof {
        assert(ls.take(ls.len() as int) =~= ls);
    }
    match (total, free) {
        (Some(t), Some(f)) => {
            let used: u64 = t.saturating_sub(f);
            Some((kb_to_bytes(used), kb_to_bytes(f)))
        },
        _ => None,
    }
}

/// What the board reported, as the bits of doubles; what it does not have is
/// missing.
#[derive(Copy, Clone, Debug)]
pub struct TegraReadings {
    pub util: Option<u64>,
    pub sm_clock: Option<u64>,
    pub temp: Option<u64>,
    /// Memory used and free. Memory is shared with the system.
    pub memory: Option<(u64, u64)>,
    /// The sum over all rails, if it is positive.
    pub power_total: Option<u64>,
}

/// The points of what was reported, in a fixed order.
pub open spec fn points_of(r: TegraReadings, ids: MetricIds) -> Seq<MetricPoint> {
    one_point(ids.util, r.util) + one_point(ids.sm_clock, r.sm_clock) + one_point(
        ids.temp,
        r.temp,
    ) + two_points(ids.mem_used, ids.mem_free, r.memory) + one_point(ids.power_total, r.power_total)
}

/// The frame of what the board reported. There is one GPU.
pub fn build_frame(r: &TegraReadings, ids: &MetricIds, now_ns: u64, node_id: u32) -> (frame:
    MetricFrame)
    ensures
        frame.node_id == node_id,
        frame.gpu_id == 0,
        frame.ts_ns == now_ns,
        frame.points@ == points_of(*r, *ids),
{
    let mut points: Vec<MetricPoint> = Vec::new();
    push_point(&mut points, ids.util, r.util);
    assert(points@ =~= one_point(ids.util, r.util));
    push_point(&mut points, ids.sm_clock, r.sm_clock);
    push_point(&mut points, ids.temp, r.temp);
    push_points(&mut points, ids.mem_used, ids.mem_free, r.memory);
    push_point(&mut points, ids.power_total, r.power_total);
    MetricFrame { node_id, gpu_id: 0, ts_ns: now_ns, points }
}

/// Memory used is what is not available, and both are given in bytes; used and free
/// together are the total, where that is no less than what is available.
pub proof fn memory_is_shared_out(total: nat, free: nat)
    requires
        free <= total,
        total * 1024 <= u64::MAX,
    ensures
        memory_of((Some(total), Some(free))) matches Some((used, available)) && used + available
            == total * 1024 && available == free * 1024,
        memory_of((None, Some(free))) is None,
        memory_of((Some(total), None)) is None,
{
    assert((total - free) * 1024 + free * 1024 == total * 1024) by (nonlinear_arith);
}

/// A number is hotter than a lower one; what is no number is hotter than none.
pub proof fn heat_orders_numbers(a: u64, b: u64)
    requires
        !is_nan(a),
        !is_nan(b),
    ensures
        a < b < 0x8000_0000_0000_0000 ==> heat(a) < heat(b),
        a >= 0x8000_0000_0000_0000 && b < 0x8000_0000_0000_0000 ==> heat(a) < heat(b),
        0x8000_0000_0000_0000 <= a < b ==> heat(a) > heat(b),
        heat(0x7ff8_0000_0000_0000) < heat(a),
{
}

/// The files read are those of the first node that exists, and of no other.
pub proof fn the_first_node_is_read(probes: Seq<DevfreqProbe>, g: GpuNodes, i: int)
    requires
        are_gpu_nodes(probes, g),
        0 <= i < probes.len(),
        probes[i].exists,
        forall|k: int| 0 <= k < i ==> !(#[trigger] probes[k]).exists,
    ensures
        probes[i].has_cur_freq ==> path_view(g.clock) == Some(probes[i].root@ + "/cur_freq"@),
        !probes[i].has_cur_freq ==> g.clock is None,
        probes[i].has_device_load ==> path_view(g.load) == Some(
            probes[i].root@ + "/device/load"@,
        ),
        !probes[i].has_device_load && probes[i].has_load ==> path_view(g.load) == Some(
            probes[i].root@ + "/load"@,
        ),
        !probes[i].has_device_load && !probes[i].has_load ==> g.load is None,
{
    lemma_none_before(probes, i);
    lemma_first_stays(probes, i + 1, probes.len() as int);
}

proof fn lemma_none_before(probes: Seq<DevfreqProbe>, n: int)
    requires
        0 <= n <= probes.len(),
        forall|k: int| 0 <= k < n ==> !(#[trigger] probes[k]).exists,
    ensures
        first_existing(probes, n) is None,
    decreases n,
{
    if n > 0 {
        lemma_none_before(probes, n - 1);
    }
}

/// Sensors kept are those that can be read and measure the chip, in order, each
/// under the directory it was found in.
pub proof fn kept_zones_are_of_the_chip(zones: Seq<ZoneProbe>)
    ensures
        ({
            let kept = zones.filter(|z: ZoneProbe| zone_label(z) is Some);
            &&& kept_zones(zones).len() == kept.len()
            &&& forall|i: int|
                0 <= i < kept.len() ==> {
                    let z = #[trigger] kept[i];
                    &&& z.has_temp
                    &&& z.kind matches Some(kind) && kept_zones(zones)[i] == (
                        trimmed(kind@),
                        "/sys/class/thermal/"@ + z.dir_name@ + "/temp"@,
                    )
                }
        }),
    decreases zones.len(),
{
    reveal(Seq::filter);
    if zones.len() > 0 {
        kept_zones_are_of_the_chip(zones.drop_last());
    }
}

/// Rails kept are those with an input, in order, each with its own file.
pub proof fn kept_rails_have_inputs(rails: Seq<RailProbe>)
    ensures
        ({
            let kept = rails.filter(|r: RailProbe| r.has_input);
            &&& kept_rails(rails).len() == kept.len()
            &&& forall|i: int|
                0 <= i < kept.len() ==> {
                    let r = #[trigger] kept[i];
                    let (label, path) = kept_rails(rails)[i];
                    &&& path == r.dir@ + "/"@ + ("in_power"@ + decimal(r.channel as nat)
                        + "_input"@)
                    &&& r.label matches Some(text) ==> label == trimmed(text@)
                    &&& r.label is None ==> label == "rail"@ + decimal(r.channel as nat)
                }
        }),
    decreases rails.len(),
{
    reveal(Seq::filter);
    if rails.len() > 0 {
        kept_rails_have_inputs(rails.drop_last());
    }
}

} // verus!
