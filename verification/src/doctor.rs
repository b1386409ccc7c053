//! Environment checks with actionable fixes.
//!
//! Each check passes, warns or fails, and says in one sentence what to do about
//! it. Probing the environment is the caller's part.

use crate::text::{
    append_decimal, chars_of, decimal, same_text, text_of, texts, trim_range, trimmed,
};
use vstd::prelude::*;
use vstd::string::StringExecFns;

verus! {

#[derive(Copy, Clone, Debug, PartialEq, Eq, Structural)]
pub enum Status {
    Pass,
    Warn,
    Fail,
}

impl Status {
    pub open spec fn name_spec(self) -> Seq<char> {
        match self {
            Status::Pass => "ok"@,
            Status::Warn => "warn"@,
            Status::Fail => "fail"@,
        }
    }

    pub fn name(&self) -> (s: &'static str)
        ensures
            s@ == self.name_spec(),
    {
        match self {
            Status::Pass => "ok",
            Status::Warn => "warn",
            Status::Fail => "fail",
        }
    }

    /// The tag in front of a line of the report.
    pub open spec fn tag_spec(self) -> Seq<char> {
        match self {
            Status::Pass => "OK "@,
            Status::Warn => "WARN"@,
            Status::Fail => "FAIL"@,
        }
    }

    pub fn tag(&self) -> (s: &'static str)
        ensures
            s@ == self.tag_spec(),
    {
        match self {
            Status::Pass => "OK ",
            Status::Warn => "WARN",
            Status::Fail => "FAIL",
        }
    }
}

#[derive(Clone, Debug)]
pub struct Check {
    pub name: &'static str,
    pub status: Status,
    pub detail: String,
    pub fix: Option<&'static str>,
}

/// What a check says, as texts.
pub ghost struct CheckView {
    pub name: Seq<char>,
    pub status: Status,
    pub detail: Seq<char>,
    pub fix: Option<Seq<char>>,
}

impl View for Check {
    type V = CheckView;

    open spec fn view(&self) -> CheckView {
        CheckView {
            name: self.name@,
            status: self.status,
            detail: self.detail@,
            fix: match self.fix {
                Some(f) => Some(f@),
                None => None,
            },
        }
    }
}

/// A check that passes.
pub open spec fn pass(name: Seq<char>, detail: Seq<char>) -> CheckView {
    CheckView { name, status: Status::Pass, detail, fix: None }
}

/// A check that warns.
pub open spec fn warning(name: Seq<char>, detail: Seq<char>, fix: Seq<char>) -> CheckView {
    CheckView { name, status: Status::Warn, detail, fix: Some(fix) }
}

/// A check that fails.
pub open spec fn failure(name: Seq<char>, detail: Seq<char>, fix: Seq<char>) -> CheckView {
    CheckView { name, status: Status::Fail, detail, fix: Some(fix) }
}

/// GPU telemetry needs Linux.
pub fn check_os(os: &str, arch: &str) -> (c: Check)
    ensures
        c@ == if os@ == "linux"@ {
            pass("os"@, "linux "@ + arch@)
        } else {
            warning(
                "os"@,
                os@ + ": CUPTI/DCGM unavailable; only synthetic mode will work"@,
                "run on a Linux + CUDA 12+ host for real GPU telemetry"@,
            )
        },
{
    if same_text(os, "linux") {
        let mut detail = "linux ".to_string();
        detail.append(arch);
        Check { name: "os", status: Status::Pass, detail, fix: None }
    } else {
        let mut detail = os.to_string();
        detail.append(": CUPTI/DCGM unavailable; only synthetic mode will work");
        Check {
            name: "os",
            status: Status::Warn,
            detail,
            fix: Some("run on a Linux + CUDA 12+ host for real GPU telemetry"),
        }
    }
}

/// What became of asking NVML for its devices.
#[derive(Clone, Debug)]
pub enum NvmlProbe {
    /// This program cannot ask.
    NotBuilt,
    /// NVML did not start.
    InitFailed(String),
    /// NVML did not count.
    CountFailed(String),
    Devices(u32),
}

/// NVML must start and count its devices.
pub fn check_nvml(probe: &NvmlProbe) -> (c: Check)
    ensures
        c@ == match *probe {
            NvmlProbe::Devices(n) => pass("nvml"@, decimal(n as nat) + " device(s) detected"@),
            NvmlProbe::CountFailed(e) => failure(
                "nvml"@,
                "device_count: "@ + e@,
                "update the NVIDIA driver; `nvidia-smi` should work"@,
            ),
            NvmlProbe::InitFailed(e) => failure(
                "nvml"@,
                "init failed: "@ + e@,
                "install the NVIDIA driver; libnvidia-ml.so.1 must be on the loader path"@,
            ),
            NvmlProbe::NotBuilt => warning(
                "nvml"@,
                "binary built without NVML feature"@,
                "rebuild with `cargo build --release --features nvml,cupti`"@,
            ),
        },
{
    match probe {
        NvmlProbe::Devices(n) => {
            let mut detail = String::new();
            append_decimal(&mut detail, *n as u64);
            assert(detail@ =~= decimal(*n as nat));
            detail.append(" device(s) detected");
            Check { name: "nvml", status: Status::Pass, detail, fix: None }
        },
        NvmlProbe::CountFailed(e) => {
            let mut detail = "device_count: ".to_string();
            detail.append(e.as_str());
            Check {
                name: "nvml",
                status: Status::Fail,
                detail,
                fix: Some("update the NVIDIA driver; `nvidia-smi` should work"),
            }
        },
        NvmlProbe::InitFailed(e) => {
            let mut detail = "init failed: ".to_string();
            detail.append(e.as_str());
            Check {
                name: "nvml",
                status: Status::Fail,
                detail,
                fix: Some("install the NVIDIA driver; libnvidia-ml.so.1 must be on the loader path"),
            }
        },
        NvmlProbe::NotBuilt => Check {
            name: "nvml",
            status: Status::Warn,
            detail: "binary built without NVML feature".to_string(),
            fix: Some("rebuild with `cargo build --release --features nvml,cupti`"),
        },
    }
}

/// A place where a library may be.
#[derive(Copy, Clone, Debug)]
pub struct LibraryProbe {
    pub path: &'static str,
    pub exists: bool,
}

/// The first of `probes[from..]` that exists.
pub open spec fn first_library(probes: Seq<LibraryProbe>, from: int) -> Option<Seq<char>>
    decreases probes.len() - from,
{
    if from >= probes.len() {
        None
    } else if probes[from].exists {
        Some(probes[from].path@)
    } else {
        first_library(probes, from + 1)
    }
}

fn find_library(probes: &Vec<LibraryProbe>) -> (p: Option<&'static str>)
    ensures
        first_library(probes@, 0) == (match p {
            Some(path) => Some(path@),
            None => None,
        }),
{
    let mut i: usize = 0;
    while i < probes.len()
        invariant
            0 <= i <= probes.len(),
            first_library(probes@, 0) == first_library(probes@, i as int),
        decreases probes.len() - i,
    {
        if probes[i].exists {
            return Some(probes[i].path);
        }
        i = i + 1;
    }
    None
}

/// Where CUPTI usually is.
pub fn cupti_candidates() -> (v: Vec<&'static str>)
    ensures
        v@.map_values(|p: &'static str| p@) == seq![
            "/usr/local/cuda/extras/CUPTI/lib64/libcupti.so"@,
            "/usr/local/cuda/lib64/libcupti.so"@,
            "/opt/cuda/extras/CUPTI/lib64/libcupti.so"@,
        ],
{
    let v: Vec<&'static str> = vec![
        "/usr/local/cuda/extras/CUPTI/lib64/libcupti.so",
        "/usr/local/cuda/lib64/libcupti.so",
        "/opt/cuda/extras/CUPTI/lib64/libcupti.so",
    ];
    v
}

/// CUPTI should be in one of the places probed.
pub fn check_cupti(probes: &Vec<LibraryProbe>) -> (c: Check)
    ensures
        c@ == match first_library(probes@, 0) {
            Some(p) => pass("cupti"@, "found "@ + p),
            None => warning(
                "cupti"@,
                "libcupti.so not found in standard locations"@,
                "install CUDA Toolkit 12.x; CUPTI ships under $CUDA/extras/CUPTI"@,
            ),
        },
{
    match find_library(probes) {
        Some(p) => {
            let mut detail = "found ".to_string();
            detail.append(p);
            Check { name: "cupti", status: Status::Pass, detail, fix: None }
        },
        None => Check {
            name: "cupti",
            status: Status::Warn,
            detail: "libcupti.so not found in standard locations".to_string(),
            fix: Some("install CUDA Toolkit 12.x; CUPTI ships under $CUDA/extras/CUPTI"),
        },
    }
}

/// Where DCGM usually is.
pub fn dcgm_candidates() -> (v: Vec<&'static str>)
    ensures
        v@.map_values(|p: &'static str| p@) == seq![
            "/usr/lib/x86_64-linux-gnu/libdcgm.so.3"@,
            "/usr/lib64/libdcgm.so.3"@,
            "/usr/local/lib/libdcgm.so.3"@,
        ],
{
    let v: Vec<&'static str> = vec![
        "/usr/lib/x86_64-linux-gnu/libdcgm.so.3",
        "/usr/lib64/libdcgm.so.3",
        "/usr/local/lib/libdcgm.so.3",
    ];
    v
}

/// DCGM may be in one of the places probed.
pub fn check_dcgm(probes: &Vec<LibraryProbe>) -> (c: Check)
    ensures
        c@ == match first_library(probes@, 0) {
            Some(p) => pass("dcgm"@, "found "@ + p),
            None => warning(
                "dcgm"@,
                "libdcgm.so.3 not found (optional; profiling metrics will be absent)"@,
                "install datacenter-gpu-manager (`apt install datacenter-gpu-manager`)"@,
            ),
        },
{
    match find_library(probes) {
        Some(p) => {
            let mut detail = "found ".to_string();
            detail.append(p);
            Check { name: "dcgm", status: Status::Pass, detail, fix: None }
        },
        None => Check {
            name: "dcgm",
            status: Status::Warn,
            detail: "libdcgm.so.3 not found (optional; profiling metrics will be absent)".to_string(),
            fix: Some("install datacenter-gpu-manager (`apt install datacenter-gpu-manager`)"),
        },
    }
}

/// `nsys` should tell its version.
pub fn check_nsys(version: Option<&str>) -> (c: Check)
    ensures
        c@ == match version {
            Some(v) => pass("nsys"@, trimmed(v@)),
            None => warning(
                "nsys"@,
                "`nsys` not on PATH (offline import disabled)"@,
                "install Nsight Systems 2024.x or newer; add nsys to PATH"@,
            ),
        },
{
    match version {
        Some(v) => {
            let cs = chars_of(v);
            let (a, b) = trim_range(&cs, 0, cs.len());
            assert(cs@.subrange(0, cs.len() as int) =~= v@);
            Check { name: "nsys", status: Status::Pass, detail: text_of(&cs, a, b), fix: None }
        },
        None => Check {
            name: "nsys",
            status: Status::Warn,
            detail: "`nsys` not on PATH (offline import disabled)".to_string(),
            fix: Some("install Nsight Systems 2024.x or newer; add nsys to PATH"),
        },
    }
}

/// ClickHouse must answer at `url`.
pub fn check_clickhouse(url: &str, error: Option<&str>) -> (c: Check)
    ensures
        c@ == match error {
            None => pass("clickhouse"@, url@),
            Some(e) => failure(
                "clickhouse"@,
                url@ + ": "@ + e@,
                "start ClickHouse: docker run -d -p 8123:8123 -p 9000:9000 clickhouse/clickhouse-server:24.8"@,
            ),
        },
{
    match error {
        None => Check {
            name: "clickhouse",
            status: Status::Pass,
            detail: url.to_string(),
            fix: None,
        },
        Some(e) => {
            let mut detail = url.to_string();
            detail.append(": ");
            detail.append(e);
            Check {
                name: "clickhouse",
                status: Status::Fail,
                detail,
                fix: Some(
                    "start ClickHouse: docker run -d -p 8123:8123 -p 9000:9000 clickhouse/clickhouse-server:24.8",
                ),
            }
        },
    }
}

/// Whether some check fails.
pub open spec fn some_fail(checks: Seq<Check>) -> bool {
    exists|i: int| 0 <= i < checks.len() && (#[trigger] checks[i]).status == Status::Fail
}

#[derive(Clone, Debug)]
pub struct Report {
    pub checks: Vec<Check>,
    pub summary: &'static str,
}

/// Width of the column of names.
pub const NAME_WIDTH: usize = 14;

/// `s`, filled up with spaces to `width`.
pub open spec fn padded(s: Seq<char>, width: nat) -> Seq<char> {
    if s.len() >= width {
        s
    } else {
        s + Seq::new((width - s.len()) as nat, |i: int| ' ')
    }
}

/// The lines for a check: what it found and, unless it passes, what to do.
pub open spec fn lines_for(c: CheckView) -> Seq<Seq<char>> {
    let first = "["@ + c.status.tag_spec() + "] "@ + padded(c.name, NAME_WIDTH as nat) + " "@
        + c.detail;
    if c.status == Status::Pass {
        seq![first]
    } else {
        match c.fix {
            Some(f) => seq![first, "       fix: "@ + f],
            None => seq![first],
        }
    }
}

/// The lines for some checks.
pub open spec fn lines_for_all(checks: Seq<Check>) -> Seq<Seq<char>>
    decreases checks.len(),
{
    if checks.len() == 0 {
        Seq::empty()
    } else {
        lines_for_all(checks.drop_last()) + lines_for(checks.last()@)
    }
}

fn append_padded(out: &mut String, s: &str, width: usize)
    ensures
        final(out)@ == old(out)@ + padded(s@, width as nat),
{
    let cs = chars_of(s);
    out.append(s);
    let ghost start = out@;
    let ghost old_out = old(out)@;
    let mut n: usize = cs.len();
    while n < width
        invariant
            cs@.len() <= n,
            n <= width || n == cs@.len(),
            out@ == start + Seq::new((n - cs@.len()) as nat, |i: int| ' '),
        decreases width - n,
    {
        out.push(' ');
        n = n + 1;
        assert(out@ =~= start + Seq::new((n - cs@.len()) as nat, |i: int| ' '));
    }
    assert(out@ =~= old_out + padded(s@, width as nat));
}

fn first_line(c: &Check) -> (line: String)
    ensures
        line@ == "["@ + c.status.tag_spec() + "] "@ + padded(c.name@, NAME_WIDTH as nat) + " "@
            + c.detail@,
{
    let mut line = "[".to_string();
    line.append(c.status.tag());
    line.append("] ");
    append_padded(&mut line, c.name, NAME_WIDTH);
    line.append(" ");
    line.append(c.detail.as_str());
    line
}

impl Report {
    /// The report on some checks.
    pub fn of(checks: Vec<Check>) -> (r: Self)
        ensures
            r.checks == checks,
            r.summary@ == if some_fail(checks@) {
                "some checks failed; see fixes above"@
            } else {
                "ready"@
            },
    {
        let mut failed = false;
        let mut i: usize = 0;
        while i < checks.len()
            invariant
                0 <= i <= checks.len(),
                failed == some_fail(checks@.take(i as int)),
            decreases checks.len() - i,
        {
            let ghost before = checks@.take(i as int);
            let ghost all = checks@.take(i + 1);
            let fails = checks[i].status == Status::Fail;
            proof {
                if fails {
                    assert(all[i as int].status == Status::Fail);
                }
                if some_fail(before) {
                    let k = choose|k: int|
                        0 <= k < before.len() && (#[trigger] before[k]).status == Status::Fail;
                    assert(all[k] == before[k]);
                }
                if some_fail(all) {
                    let k = choose|k: int|
                        0 <= k < all.len() && (#[trigger] all[k]).status == Status::Fail;
                    if k < i {
                        assert(before[k] == all[k]);
                    }
                }
            }
            if fails {
                failed = true;
            }
            i = i + 1;
        }
        assert(checks@.take(checks.len() as int) =~= checks@);
        let summary = if failed {
            "some checks failed; see fixes above"
        } else {
            "ready"
        };
        Report { checks, summary }
    }

    /// The exit code that the report calls for: non-zero if some check fails.
    pub fn exit_code(&self) -> (code: i32)
        ensures
            code == if some_fail(self.checks@) {
                1i32
            } else {
                0i32
            },
    {
        let mut i: usize = 0;
        while i < self.checks.len()
            invariant
                0 <= i <= self.checks.len(),
                forall|k: int| 0 <= k < i ==> (#[trigger] self.checks@[k]).status != Status::Fail,
            decreases self.checks.len() - i,
        {
            if self.checks[i].status == Status::Fail {
                return 1;
            }
            i = i + 1;
        }
        0
    }

    /// The report as lines of text.
    pub fn lines(&self) -> (out: Vec<String>)
        ensures
            texts(out@) == lines_for_all(self.checks@) + seq![
                Seq::<char>::empty(),
                "summary: "@ + self.summary@,
            ],
    {
        let mut out: Vec<String> = Vec::new();
        let mut i: usize = 0;
        while i < self.checks.len()
            invariant
                0 <= i <= self.checks.len(),
                texts(out@) == lines_for_all(self.checks@.take(i as int)),
            decreases self.checks.len() - i,
        {
            let c = &self.checks[i];
            let ghost before = out@;
            let line = first_line(c);
            let ghost first = line@;
            out.push(line);
            if c.status != Status::Pass {
                if let Some(f) = c.fix {
                    let mut fix = "       fix: ".to_string();
                    fix.append(f);
                    out.push(fix);
                }
            }
            i = i + 1;
            proof {
                let all = self.checks@.take(i as int);
                assert(all.drop_last() =~= self.checks@.take(i - 1));
                assert(all.last() == *c);
                assert(texts(out@) =~= texts(before) + lines_for(c@));
            }
        }
        assert(self.checks@.take(self.checks.len() as int) =~= self.checks@);
        let ghost body = out@;
        out.push(String::new());
        let mut summary = "summary: ".to_string();
        summary.append(self.summary);
        out.push(summary);
        assert(texts(out@) =~= texts(body) + seq![
            Seq::<char>::empty(),
            "summary: "@ + self.summary@,
        ]);
        out
    }
}

} // verus!
