//! Settings, and what follows from them and from the host.

use crate::ports::{API_HTTP, COLLECTOR_GRPC};
use crate::sampler::nvml::NvmlSampler;
use crate::sampler::synthetic::SyntheticSampler;
use crate::sampler::tegra::TegraSampler;
use crate::sampler::{CuptiReceiver, DcgmSampler, DEFAULT_CUPTI_SOCKET};
use crate::text::{
    append_decimal, chars_of, decimal, lower, lower_of, replace_text, replaced, same_text, text_of,
    trim_range, trimmed,
};
use crate::uploader::UploaderConfig;
use vstd::prelude::*;
use vstd::string::StringExecFns;

verus! {

/// Short name, as used in logs.
pub const PRODUCT_NAME: &'static str = "perfweave";

/// Most events in one upload.
pub const MAX_BATCH_EVENTS: usize = 20_000;

/// Time between two uploads.
pub const FLUSH_INTERVAL_MS: u64 = 250;

/// Seed of the emulated GPUs.
pub const SYNTHETIC_SEED: u64 = 0xC0FFEE;

/// Events that wait in an agent at most.
pub const RING_CAPACITY: usize = 1_048_576;

/// How an agent runs.
#[derive(Clone, Debug)]
pub struct AgentConfig {
    /// Where events go.
    pub collector: String,
    /// Metric samples a second.
    pub metric_hz: u32,
    /// Emulate GPUs in place of reading real ones.
    pub synthetic: bool,
    /// Emulate kernels, API calls and copies too.
    pub synthetic_burst: bool,
    pub synthetic_gpus: u32,
    /// The node id to ask for; zero leaves it to the server.
    pub node_id: u32,
    pub hostname: Option<String>,
    pub ring_capacity: usize,
    /// Where the agent answers replay requests; empty for nowhere.
    pub rpc_listen: String,
}

impl Default for AgentConfig {
    fn default() -> (c: Self)
        ensures
            c.collector@ == "http://127.0.0.1:"@ + decimal(COLLECTOR_GRPC as nat),
            c.metric_hz == 1,
            !c.synthetic,
            !c.synthetic_burst,
            c.synthetic_gpus == 1,
            c.node_id == 0,
            c.hostname is None,
            c.ring_capacity == RING_CAPACITY,
            c.rpc_listen@ == "127.0.0.1:7780"@,
    {
        AgentConfig {
            collector: at_port("http://127.0.0.1:", COLLECTOR_GRPC),
            metric_hz: 1,
            synthetic: false,
            synthetic_burst: false,
            synthetic_gpus: 1,
            node_id: 0,
            hostname: None,
            ring_capacity: RING_CAPACITY,
            rpc_listen: "127.0.0.1:7780".to_string(),
        }
    }
}

/// An address that ends in a port.
pub fn at_port(host: &str, port: u16) -> (addr: String)
    ensures
        addr@ == host@ + decimal(port as nat),
{
    let mut addr = host.to_string();
    append_decimal(&mut addr, port as u64);
    addr
}

/// What an agent can use on its host.
#[derive(Clone, Debug)]
pub struct Host {
    /// A Tegra board, whose NVML tells little.
    pub tegra: bool,
    pub nvml: bool,
    pub dcgm: bool,
    /// Sockets in the file system.
    pub unix: bool,
    /// The socket for the injected library, if set.
    pub cupti_socket: Option<String>,
    /// Devices that NVML counts; zero if it cannot.
    pub devices: u32,
}

/// A sampler to run.
#[derive(Debug)]
pub enum SamplerChoice {
    Synthetic(SyntheticSampler),
    Tegra(TegraSampler),
    Nvml(NvmlSampler),
    Dcgm(DcgmSampler),
    Cupti(CuptiReceiver),
}

/// The samplers of a discrete GPU.
pub open spec fn gpu_samplers(nvml: bool, dcgm: bool, node_id: u32, metric_hz: u32) -> Seq<
    SamplerChoice,
> {
    (if nvml {
        seq![SamplerChoice::Nvml(NvmlSampler { node_id, metric_hz })]
    } else {
        Seq::<SamplerChoice>::empty()
    }) + (if dcgm {
        seq![SamplerChoice::Dcgm(DcgmSampler { node_id, metric_hz })]
    } else {
        Seq::<SamplerChoice>::empty()
    })
}

/// Where the injected library is expected.
pub open spec fn socket_for(host: Host) -> Seq<char> {
    match host.cupti_socket {
        Some(s) => s@,
        None => DEFAULT_CUPTI_SOCKET@,
    }
}

/// Whether `v` are `gpu` and, where `unix` is set, a receiver on `socket`.
pub open spec fn with_receiver(
    v: Seq<SamplerChoice>,
    gpu: Seq<SamplerChoice>,
    unix: bool,
    socket: Seq<char>,
) -> bool {
    if unix {
        &&& v.len() == gpu.len() + 1
        &&& v.drop_last() == gpu
        &&& v.last() matches SamplerChoice::Cupti(c) && c.socket_path@ == socket
    } else {
        v == gpu
    }
}

/// Whether `v` are the samplers of a host with real GPUs: sysfs alone on a Tegra
/// board, else what the host offers.
pub open spec fn are_real_samplers(v: Seq<SamplerChoice>, cfg: AgentConfig, host: Host) -> bool {
    if host.tegra {
        v == seq![
            SamplerChoice::Tegra(TegraSampler { node_id: cfg.node_id, metric_hz: cfg.metric_hz }),
        ]
    } else {
        with_receiver(
            v,
            gpu_samplers(host.nvml, host.dcgm, cfg.node_id, cfg.metric_hz),
            host.unix,
            socket_for(host),
        )
    }
}

/// The name in the environment, else what the command printed; nothing if that is
/// empty.
pub open spec fn known_hostname(env: Option<Seq<char>>, command: Option<Seq<char>>) -> Option<
    Seq<char>,
> {
    let name = match env {
        Some(e) => Some(e),
        None => match command {
            Some(c) => Some(trimmed(c)),
            None => None,
        },
    };
    match name {
        Some(n) => if n.len() > 0 {
            Some(n)
        } else {
            None
        },
        None => None,
    }
}

/// The view of an optional text.
pub open spec fn opt_text(s: Option<&str>) -> Option<Seq<char>> {
    match s {
        Some(t) => Some(t@),
        None => None,
    }
}

fn trimmed_text(s: &str) -> (t: String)
    ensures
        t@ == trimmed(s@),
{
    let cs = chars_of(s);
    let (a, b) = trim_range(&cs, 0, cs.len());
    assert(cs@.subrange(0, cs.len() as int) =~= s@);
    text_of(&cs, a, b)
}

fn is_empty_text(s: &str) -> (b: bool)
    ensures
        b == (s@.len() == 0),
{
    let b = same_text(s, "");
    proof {
        reveal_strlit("");
        assert(""@ =~= Seq::<char>::empty());
        if s@.len() == 0 {
            assert(s@ =~= ""@);
        }
    }
    b
}

fn hostname_best_effort(env: Option<&str>, command: Option<&str>) -> (name: Option<String>)
    ensures
        known_hostname(opt_text(env), opt_text(command)) == (match name {
            Some(n) => Some(n@),
            None => None,
        }),
{
    let name = match env {
        Some(e) => e.to_string(),
        None => match command {
            Some(c) => trimmed_text(c),
            None => {
                return None;
            },
        },
    };
    if is_empty_text(name.as_str()) {
        None
    } else {
        Some(name)
    }
}

impl AgentConfig {
    /// The name that the agent goes by.
    pub fn name(&self, env: Option<&str>, command: Option<&str>) -> (name: String)
        ensures
            name@ == match self.hostname {
                Some(h) => h@,
                None => match known_hostname(opt_text(env), opt_text(command)) {
                    Some(n) => n,
                    None => "unknown"@,
                },
            },
    {
        match &self.hostname {
            Some(h) => h.clone(),
            None => match hostname_best_effort(env, command) {
                Some(n) => n,
                None => "unknown".to_string(),
            },
        }
    }

    /// The samplers to run: emulated GPUs if asked for, else what the host offers.
    pub fn samplers(&self, host: &Host) -> (v: Vec<SamplerChoice>)
        ensures
            self.synthetic ==> v@ == seq![
                SamplerChoice::Synthetic(
                    SyntheticSampler {
                        num_gpus: self.synthetic_gpus,
                        metric_hz: self.metric_hz,
                        node_id: self.node_id,
                        seed: SYNTHETIC_SEED,
                        burst: self.synthetic_burst,
                    },
                ),
            ],
            !self.synthetic ==> are_real_samplers(v@, *self, *host),
    {
        if self.synthetic {
            let v: Vec<SamplerChoice> = vec![
                SamplerChoice::Synthetic(
                    SyntheticSampler {
                        num_gpus: self.synthetic_gpus,
                        metric_hz: self.metric_hz,
                        node_id: self.node_id,
                        seed: SYNTHETIC_SEED,
                        burst: self.synthetic_burst,
                    },
                ),
            ];
            v
        } else {
            self.build_real_samplers(host)
        }
    }

    fn build_real_samplers(&self, host: &Host) -> (v: Vec<SamplerChoice>)
        ensures
            are_real_samplers(v@, *self, *host),
    {
        let mut v: Vec<SamplerChoice> = Vec::new();
        if host.tegra {
            v.push(
                SamplerChoice::Tegra(
                    TegraSampler { node_id: self.node_id, metric_hz: self.metric_hz },
                ),
            );
            return v;
        }
        if host.nvml {
            v.push(
                SamplerChoice::Nvml(
                    NvmlSampler { node_id: self.node_id, metric_hz: self.metric_hz },
                ),
            );
        }
        if host.dcgm {
            v.push(
                SamplerChoice::Dcgm(
                    DcgmSampler { node_id: self.node_id, metric_hz: self.metric_hz },
                ),
            );
        }
        let ghost gpu = v@;
        assert(gpu =~= gpu_samplers(host.nvml, host.dcgm, self.node_id, self.metric_hz));
        if host.unix {
            let socket_path = match &host.cupti_socket {
                Some(s) => s.clone(),
                None => DEFAULT_CUPTI_SOCKET.to_string(),
            };
            v.push(SamplerChoice::Cupti(CuptiReceiver { socket_path }));
            assert(v@.drop_last() =~= gpu);
        }
        v
    }

    /// How many GPUs the agent announces.
    pub fn num_gpus(&self, host: &Host) -> (n: u32)
        ensures
            n == if self.synthetic {
                self.synthetic_gpus
            } else {
                host.devices
            },
    {
        if self.synthetic {
            self.synthetic_gpus
        } else {
            host.devices
        }
    }

    /// Whether the agent answers replay requests.
    pub fn serves_rpc(&self) -> (b: bool)
        ensures
            b == (self.rpc_listen@.len() > 0),
    {
        !is_empty_text(self.rpc_listen.as_str())
    }

    /// The address that the agent advertises for replay requests.
    pub fn rpc_addr(&self) -> (addr: String)
        ensures
            addr@ == if self.rpc_listen@.len() > 0 {
                "http://"@ + self.rpc_listen@
            } else {
                Seq::<char>::empty()
            },
    {
        if self.serves_rpc() {
            let mut addr = "http://".to_string();
            addr.append(self.rpc_listen.as_str());
            addr
        } else {
            String::new()
        }
    }

    /// How the agent uploads.
    pub fn uploader(&self, hostname: String, host: &Host) -> (u: UploaderConfig)
        ensures
            u.collector_url == self.collector,
            u.hostname == hostname,
            u.node_id == self.node_id,
            u.num_gpus == if self.synthetic {
                self.synthetic_gpus
            } else {
                host.devices
            },
            u.max_batch_events == MAX_BATCH_EVENTS,
            u.flush_interval_ms == FLUSH_INTERVAL_MS,
            u.agent_rpc_addr@ == if self.rpc_listen@.len() > 0 {
                "http://"@ + self.rpc_listen@
            } else {
                Seq::<char>::empty()
            },
    {
        UploaderConfig {
            collector_url: self.collector.clone(),
            hostname,
            node_id: self.node_id,
            num_gpus: self.num_gpus(host),
            max_batch_events: MAX_BATCH_EVENTS,
            flush_interval_ms: FLUSH_INTERVAL_MS,
            agent_rpc_addr: self.rpc_addr(),
        }
    }
}

/// How the agent inside `perfweave start` runs.
#[derive(Clone, Debug)]
pub struct Opts {
    pub collector_url: String,
    pub synthetic: bool,
    pub synthetic_gpus: u32,
}

impl Opts {
    /// Whether GPUs are emulated: if asked for, or if there are none.
    pub open spec fn emulates(&self, host: Host) -> bool {
        self.synthetic || !host.tegra && (!host.nvml || host.devices == 0)
    }

    /// How many GPUs are announced. A Tegra board has one.
    pub open spec fn gpus(&self, host: Host) -> u32 {
        if self.emulates(host) {
            if self.synthetic_gpus == 0 {
                1
            } else {
                self.synthetic_gpus
            }
        } else if host.tegra {
            1
        } else {
            host.devices
        }
    }

    fn emulating(&self, host: &Host) -> (b: bool)
        ensures
            b == self.emulates(*host),
    {
        self.synthetic || !host.tegra && (!host.nvml || host.devices == 0)
    }

    /// Whether the GPUs are emulated though nobody asked for it.
    pub fn falls_back(&self, host: &Host) -> (b: bool)
        ensures
            b == (self.emulates(*host) && !self.synthetic),
    {
        self.emulating(host) && !self.synthetic
    }

    pub fn num_gpus(&self, host: &Host) -> (n: u32)
        ensures
            n == self.gpus(*host),
    {
        if !self.emulating(host) {
            if host.tegra {
                1
            } else {
                host.devices
            }
        } else if self.synthetic_gpus == 0 {
            1
        } else {
            self.synthetic_gpus
        }
    }

    /// The samplers to run: those of the GPUs found, sysfs on a Tegra board, or
    /// emulated ones.
    pub fn samplers(&self, host: &Host) -> (v: Vec<SamplerChoice>)
        ensures
            v@ == if self.emulates(*host) {
                seq![
                    SamplerChoice::Synthetic(
                        SyntheticSampler {
                            num_gpus: self.gpus(*host),
                            metric_hz: 1000,
                            node_id: 0,
                            seed: SYNTHETIC_SEED,
                            burst: false,
                        },
                    ),
                ]
            } else if host.tegra {
                seq![SamplerChoice::Tegra(TegraSampler { node_id: 0, metric_hz: 10 })]
            } else {
                gpu_samplers(true, false, 0, 10)
            },
    {
        let mut v: Vec<SamplerChoice> = Vec::new();
        if self.emulating(host) {
            v.push(
                SamplerChoice::Synthetic(
                    SyntheticSampler {
                        num_gpus: self.num_gpus(host),
                        metric_hz: 1000,
                        node_id: 0,
                        seed: SYNTHETIC_SEED,
                        burst: false,
                    },
                ),
            );
        } else if host.tegra {
            v.push(SamplerChoice::Tegra(TegraSampler { node_id: 0, metric_hz: 10 }));
        } else {
            v.push(SamplerChoice::Nvml(NvmlSampler { node_id: 0, metric_hz: 10 }));
        }
        v
    }

    /// How the agent uploads.
    pub fn uploader(&self, hostname: String, host: &Host) -> (u: UploaderConfig)
        ensures
            u.collector_url == self.collector_url,
            u.hostname == hostname,
            u.node_id == 0,
            u.num_gpus == self.gpus(*host),
            u.max_batch_events == MAX_BATCH_EVENTS,
            u.flush_interval_ms == FLUSH_INTERVAL_MS,
            u.agent_rpc_addr@.len() == 0,
    {
        UploaderConfig {
            collector_url: self.collector_url.clone(),
            hostname,
            node_id: 0,
            num_gpus: self.num_gpus(host),
            max_batch_events: MAX_BATCH_EVENTS,
            flush_interval_ms: FLUSH_INTERVAL_MS,
            agent_rpc_addr: String::new(),
        }
    }
}

/// The name of the agent inside `perfweave start`: that in the environment unless
/// it is empty, else what the command printed unless that is empty.
pub fn local_hostname(env: Option<&str>, command: Option<&str>) -> (name: String)
    ensures
        name@ == match known_hostname(opt_text(env), None) {
            Some(n) => n,
            None => match known_hostname(None, opt_text(command)) {
                Some(n) => n,
                None => "local"@,
            },
        },
{
    match hostname_best_effort(env, None) {
        Some(n) => n,
        None => match hostname_best_effort(None, command) {
            Some(n) => n,
            None => "local".to_string(),
        },
    }
}

/// How to reach the database.
#[derive(Clone, Debug)]
pub struct ChConfig {
    pub url: String,
    pub user: String,
    pub password: String,
    pub database: String,
}

/// A setting, or what it is without one.
pub open spec fn setting_or(s: Option<String>, otherwise: Seq<char>) -> Seq<char> {
    match s {
        Some(t) => t@,
        None => otherwise,
    }
}

fn or_default(s: Option<String>, otherwise: &str) -> (t: String)
    ensures
        t@ == setting_or(s, otherwise@),
{
    match s {
        Some(t) => t,
        None => otherwise.to_string(),
    }
}

impl ChConfig {
    /// The settings of the environment; a local server's where there are none.
    pub fn from_settings(
        url: Option<String>,
        user: Option<String>,
        password: Option<String>,
        database: Option<String>,
    ) -> (c: Self)
        ensures
            c.url@ == setting_or(url, "http://127.0.0.1:8123"@),
            c.user@ == setting_or(user, "default"@),
            c.password@ == setting_or(password, ""@),
            c.database@ == setting_or(database, "default"@),
    {
        ChConfig {
            url: or_default(url, "http://127.0.0.1:8123"),
            user: or_default(user, "default"),
            password: or_default(password, ""),
            database: or_default(database, "default"),
        }
    }
}

/// How the server runs.
#[derive(Clone, Debug)]
pub struct AppConfig {
    /// Where HTTP, GraphQL and live streams are served.
    pub http_listen: String,
    /// Where agents connect.
    pub grpc_listen: String,
    /// The web bundle to serve, if any.
    pub web_dir: Option<String>,
    /// The database; that of the environment if not given.
    pub ch: Option<ChConfig>,
}

impl Default for AppConfig {
    fn default() -> (c: Self)
        ensures
            c.http_listen@ == "0.0.0.0:7777"@,
            c.grpc_listen@ == "0.0.0.0:7700"@,
            c.web_dir is None,
            c.ch is None,
    {
        AppConfig {
            http_listen: "0.0.0.0:7777".to_string(),
            grpc_listen: "0.0.0.0:7700".to_string(),
            web_dir: None,
            ch: None,
        }
    }
}

/// Where the command line serves HTTP unless told otherwise.
pub fn default_http_listen() -> (addr: String)
    ensures
        addr@ == "0.0.0.0:"@ + decimal(API_HTTP as nat),
{
    at_port("0.0.0.0:", API_HTTP)
}

/// Where the command line lets agents connect unless told otherwise.
pub fn default_grpc_listen() -> (addr: String)
    ensures
        addr@ == "0.0.0.0:"@ + decimal(COLLECTOR_GRPC as nat),
{
    at_port("0.0.0.0:", COLLECTOR_GRPC)
}

/// Where an agent on the same host connects to a server that listens on `listen`.
pub fn local_collector_url(listen: &str) -> (url: String)
    ensures
        url@ == "http://"@ + replaced(listen@, "0.0.0.0"@, "127.0.0.1"@),
{
    proof {
        reveal_strlit("0.0.0.0");
    }
    let host = replace_text(listen, "0.0.0.0", "127.0.0.1");
    let mut url = "http://".to_string();
    url.append(host.as_str());
    url
}

/// Where a browser on the same host finds a server that listens on `listen`.
pub fn browser_url(listen: &str) -> (url: String)
    ensures
        url@ == "http://"@ + replaced(listen@, "0.0.0.0"@, "localhost"@) + "/"@,
{
    proof {
        reveal_strlit("0.0.0.0");
    }
    let host = replace_text(listen, "0.0.0.0", "localhost");
    let mut url = "http://".to_string();
    url.append(host.as_str());
    url.append("/");
    url
}

/// Whether logs are written as JSON: as the setting says, in any case, and without
/// one unless a terminal reads them.
pub fn logs_as_json(setting: Option<&str>, terminal: bool) -> (b: bool)
    ensures
        b == match setting {
            Some(s) => lower(s@) == "json"@,
            None => !terminal,
        },
{
    match setting {
        Some(s) => {
            let cs = chars_of(s);
            let low = lower_of(&cs);
            let text = text_of(&low, 0, low.len());
            assert(low@.subrange(0, low.len() as int) =~= low@);
            same_text(text.as_str(), "json")
        },
        None => !terminal,
    }
}

} // verus!
