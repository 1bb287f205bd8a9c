//! Configuration of the headless node daemon, with command-line overrides.
use vstd::prelude::*;

use crate::paths::{join_path, string_join_path};
use crate::text::{chars_eq_str, chars_of, owned};

verus! {

/// The daemon's configuration.
#[derive(Debug, Clone)]
pub struct NodeConfig {
    pub network: NetworkConfig,
    pub hardware: HardwareConfig,
    pub models: ModelsConfig,
    pub daemon: DaemonConfig,
    pub low_power: LowPowerConfig,
}

/// Network settings.
#[derive(Debug, Clone)]
pub struct NetworkConfig {
    pub listen_port: u16,
    pub peers: Vec<String>,
    pub transport: TransportMode,
}

/// How the node reaches its peers.
#[derive(Debug, Clone, Copy, PartialEq, Eq, Structural)]
pub enum TransportMode {
    Lan,
    Wireguard,
    Both,
}

/// Hardware limits.
#[derive(Debug, Clone)]
pub struct HardwareConfig {
    pub max_memory_mb: u64,
    pub max_vram_mb: u64,
    pub gpu_layers: GpuLayerMode,
}

/// How many model layers go to the GPU.
#[derive(Debug, Clone, Copy, PartialEq, Eq, Structural)]
pub enum GpuLayerMode {
    Auto,
    /// No layer on the GPU.
    Off,
    Max,
    Fixed(u32),
}

/// Model storage and limits.
#[derive(Debug, Clone)]
pub struct ModelsConfig {
    pub directory: String,
    pub max_loaded: usize,
    pub auto_download: bool,
}

/// Daemon process settings.
#[derive(Debug, Clone)]
pub struct DaemonConfig {
    pub log_file: String,
    pub log_level: String,
    pub api_port: u16,
    pub low_power: bool,
}

/// Limits in low-power mode.
#[derive(Debug, Clone)]
pub struct LowPowerConfig {
    pub max_models: usize,
    pub battery_pause_threshold: u8,
    pub reduce_heartbeat: bool,
}

/// Overrides given on the command line.
#[derive(Debug, Clone)]
pub struct CliOverrides {
    pub port: Option<u16>,
    pub peers: Vec<String>,
    pub models_dir: Option<String>,
    pub low_power: bool,
    pub log_level: Option<String>,
    pub config_path: Option<String>,
    pub daemon_mode: bool,
    pub status_query: bool,
    pub shutdown_request: bool,
}

impl Default for CliOverrides {
    fn default() -> (o: Self)
        ensures
            o.port is None,
            o.peers@.len() == 0,
            o.models_dir is None,
            !o.low_power,
            o.log_level is None,
            o.config_path is None,
            !o.daemon_mode,
            !o.status_query,
            !o.shutdown_request,
    {
        CliOverrides {
            port: None,
            peers: Vec::new(),
            models_dir: None,
            low_power: false,
            log_level: None,
            config_path: None,
            daemon_mode: false,
            status_query: false,
            shutdown_request: false,
        }
    }
}

/// The daemon's data directory under a home directory.
pub open spec fn data_dir(home: Seq<char>) -> Seq<char> {
    join_path(home, ".resonantos"@)
}

/// The default configuration for a home directory: port 9741 on the LAN, no
/// peers, automatic GPU layers, models in `<home>/.resonantos/models` (two
/// at most, downloaded on demand), logs at `info` level in
/// `<home>/.resonantos/logs/node.log`, the control API on port 9742, and in
/// low-power mode one model, a pause at 20% battery and rarer heartbeats.
pub open spec fn default_config_for(home: Seq<char>, c: NodeConfig) -> bool {
    &&& c.network.listen_port == 9741
    &&& c.network.peers@.len() == 0
    &&& c.network.transport == TransportMode::Lan
    &&& c.hardware.max_memory_mb == 0
    &&& c.hardware.max_vram_mb == 0
    &&& c.hardware.gpu_layers == GpuLayerMode::Auto
    &&& c.models.directory@ == join_path(data_dir(home), "models"@)
    &&& c.models.max_loaded == 2
    &&& c.models.auto_download
    &&& c.daemon.log_file@ == join_path(join_path(data_dir(home), "logs"@), "node.log"@)
    &&& c.daemon.log_level@ == "info"@
    &&& c.daemon.api_port == 9742
    &&& !c.daemon.low_power
    &&& c.low_power.max_models == 1
    &&& c.low_power.battery_pause_threshold == 20
    &&& c.low_power.reduce_heartbeat
}

/// A GPU layer setting as written in the configuration file: a name
/// (`auto`, `none` or `max`) or a number of layers.
#[derive(Debug, Clone)]
pub enum GpuLayerSetting {
    Named(String),
    Count(u32),
}

/// The settings a configuration file gives, each `None` where the file
/// leaves it out: `[network]` listen_port, peers, transport; `[hardware]`
/// max_memory_mb, max_vram_mb, gpu_layers; `[models]` directory,
/// max_loaded, auto_download; `[daemon]` log_file, log_level, api_port,
/// low_power; `[low_power]` max_models, battery_pause_threshold,
/// reduce_heartbeat.
#[derive(Debug, Clone)]
pub struct ConfigFile {
    pub listen_port: Option<u16>,
    pub peers: Option<Vec<String>>,
    pub transport: Option<String>,
    pub max_memory_mb: Option<u64>,
    pub max_vram_mb: Option<u64>,
    pub gpu_layers: Option<GpuLayerSetting>,
    pub models_directory: Option<String>,
    pub max_loaded: Option<usize>,
    pub auto_download: Option<bool>,
    pub log_file: Option<String>,
    pub log_level: Option<String>,
    pub api_port: Option<u16>,
    pub low_power: Option<bool>,
    pub low_power_max_models: Option<usize>,
    pub battery_pause_threshold: Option<u8>,
    pub reduce_heartbeat: Option<bool>,
}

/// The transport a file names: `lan`, `wireguard` or `both`.
pub open spec fn transport_named(name: Seq<char>) -> Option<TransportMode> {
    if name == "lan"@ {
        Some(TransportMode::Lan)
    } else if name == "wireguard"@ {
        Some(TransportMode::Wireguard)
    } else if name == "both"@ {
        Some(TransportMode::Both)
    } else {
        None
    }
}

/// The GPU layer mode a file's setting names: `auto`, `none` (no layer on
/// the GPU), `max`, or a fixed number of layers.
pub open spec fn gpu_layers_named(g: GpuLayerSetting) -> Option<GpuLayerMode> {
    match g {
        GpuLayerSetting::Named(name) => if name@ == "auto"@ {
            Some(GpuLayerMode::Auto)
        } else if name@ == "none"@ {
            Some(GpuLayerMode::Off)
        } else if name@ == "max"@ {
            Some(GpuLayerMode::Max)
        } else {
            None
        },
        GpuLayerSetting::Count(n) => Some(GpuLayerMode::Fixed(n)),
    }
}

/// The value a file gives for a setting, or the default where it gives
/// none.
pub open spec fn given_or<T>(given: Option<T>, default: T) -> T {
    match given {
        Some(v) => v,
        None => default,
    }
}

/// The configuration loaded from a file's settings: each setting the file
/// gives (and, for the transport and GPU layers, names a known value of),
/// the default for `home` otherwise.
pub open spec fn config_from_file(home: Seq<char>, f: ConfigFile, c: NodeConfig) -> bool {
    &&& c.network.listen_port == given_or(f.listen_port, 9741u16)
    &&& c.network.peers@ == match f.peers {
        Some(p) => p@,
        None => Seq::<String>::empty(),
    }
    &&& c.network.transport == match f.transport {
        Some(t) => given_or(transport_named(t@), TransportMode::Lan),
        None => TransportMode::Lan,
    }
    &&& c.hardware.max_memory_mb == given_or(f.max_memory_mb, 0u64)
    &&& c.hardware.max_vram_mb == given_or(f.max_vram_mb, 0u64)
    &&& c.hardware.gpu_layers == match f.gpu_layers {
        Some(g) => given_or(gpu_layers_named(g), GpuLayerMode::Auto),
        None => GpuLayerMode::Auto,
    }
    &&& c.models.directory@ == match f.models_directory {
        Some(d) => d@,
        None => join_path(data_dir(home), "models"@),
    }
    &&& c.models.max_loaded == given_or(f.max_loaded, 2usize)
    &&& c.models.auto_download == given_or(f.auto_download, true)
    &&& c.daemon.log_file@ == match f.log_file {
        Some(l) => l@,
        None => join_path(join_path(data_dir(home), "logs"@), "node.log"@),
    }
    &&& c.daemon.log_level@ == match f.log_level {
        Some(l) => l@,
        None => "info"@,
    }
    &&& c.daemon.api_port == given_or(f.api_port, 9742u16)
    &&& c.daemon.low_power == given_or(f.low_power, false)
    &&& c.low_power.max_models == given_or(f.low_power_max_models, 1usize)
    &&& c.low_power.battery_pause_threshold == given_or(f.battery_pause_threshold, 20u8)
    &&& c.low_power.reduce_heartbeat == given_or(f.reduce_heartbeat, true)
}

/// The transport named by a file's text, if it is a known one.
pub fn transport_from_name(name: &str) -> (t: Option<TransportMode>)
    ensures
        t == transport_named(name@),
{
    let v = chars_of(name);
    if chars_eq_str(&v, "lan") {
        Some(TransportMode::Lan)
    } else if chars_eq_str(&v, "wireguard") {
        Some(TransportMode::Wireguard)
    } else if chars_eq_str(&v, "both") {
        Some(TransportMode::Both)
    } else {
        None
    }
}

/// The GPU layer mode named by a file's setting, if it is a known one.
pub fn gpu_layers_from_setting(g: &GpuLayerSetting) -> (m: Option<GpuLayerMode>)
    ensures
        m == gpu_layers_named(*g),
{
    match g {
        GpuLayerSetting::Named(name) => {
            let v = chars_of(name.as_str());
            if chars_eq_str(&v, "auto") {
                Some(GpuLayerMode::Auto)
            } else if chars_eq_str(&v, "none") {
                Some(GpuLayerMode::Off)
            } else if chars_eq_str(&v, "max") {
                Some(GpuLayerMode::Max)
            } else {
                None
            }
        },
        GpuLayerSetting::Count(n) => Some(GpuLayerMode::Fixed(*n)),
    }
}

/// The `[network]` settings of a file over the defaults `d`.
fn network_from_file(f: &ConfigFile, d: NetworkConfig) -> (n: NetworkConfig)
    ensures
        n.listen_port == given_or(f.listen_port, d.listen_port),
        n.peers@ == match f.peers {
            Some(p) => p@,
            None => d.peers@,
        },
        n.transport == match f.transport {
            Some(t) => given_or(transport_named(t@), d.transport),
            None => d.transport,
        },
{
    let mut n = d;
    match f.listen_port {
        Some(p) => {
            n.listen_port = p;
        },
        None => {},
    }
    match &f.peers {
        Some(p) => {
            n.peers = crate::agents::dag::copy_strings(p);
        },
        None => {},
    }
    match &f.transport {
        Some(t) => match transport_from_name(t.as_str()) {
            Some(m) => {
                n.transport = m;
            },
            None => {},
        },
        None => {},
    }
    n
}

/// The `[hardware]` settings of a file over the defaults `d`.
fn hardware_from_file(f: &ConfigFile, d: HardwareConfig) -> (h: HardwareConfig)
    ensures
        h.max_memory_mb == given_or(f.max_memory_mb, d.max_memory_mb),
        h.max_vram_mb == given_or(f.max_vram_mb, d.max_vram_mb),
        h.gpu_layers == match f.gpu_layers {
            Some(g) => given_or(gpu_layers_named(g), d.gpu_layers),
            None => d.gpu_layers,
        },
{
    let mut h = d;
    match f.max_memory_mb {
        Some(v) => {
            h.max_memory_mb = v;
        },
        None => {},
    }
    match f.max_vram_mb {
        Some(v) => {
            h.max_vram_mb = v;
        },
        None => {},
    }
    match &f.gpu_layers {
        Some(g) => match gpu_layers_from_setting(g) {
            Some(m) => {
                h.gpu_layers = m;
            },
            None => {},
        },
        None => {},
    }
    h
}

/// The `[models]` settings of a file over the defaults `d`.
fn models_from_file(f: &ConfigFile, d: ModelsConfig) -> (m: ModelsConfig)
    ensures
        m.directory@ == match f.models_directory {
            Some(x) => x@,
            None => d.directory@,
        },
        m.max_loaded == given_or(f.max_loaded, d.max_loaded),
        m.auto_download == given_or(f.auto_download, d.auto_download),
{
    let mut m = d;
    match &f.models_directory {
        Some(x) => {
            m.directory = x.clone();
        },
        None => {},
    }
    match f.max_loaded {
        Some(v) => {
            m.max_loaded = v;
        },
        None => {},
    }
    match f.auto_download {
        Some(v) => {
            m.auto_download = v;
        },
        None => {},
    }
    m
}

/// The `[daemon]` settings of a file over the defaults `d`.
fn daemon_from_file(f: &ConfigFile, d: DaemonConfig) -> (r: DaemonConfig)
    ensures
        r.log_file@ == match f.log_file {
            Some(x) => x@,
            None => d.log_file@,
        },
        r.log_level@ == match f.log_level {
            Some(x) => x@,
            None => d.log_level@,
        },
        r.api_port == given_or(f.api_port, d.api_port),
        r.low_power == given_or(f.low_power, d.low_power),
{
    let mut r = d;
    match &f.log_file {
        Some(x) => {
            r.log_file = x.clone();
        },
        None => {},
    }
    match &f.log_level {
        Some(x) => {
            r.log_level = x.clone();
        },
        None => {},
    }
    match f.api_port {
        Some(v) => {
            r.api_port = v;
        },
        None => {},
    }
    match f.low_power {
        Some(v) => {
            r.low_power = v;
        },
        None => {},
    }
    r
}

/// The `[low_power]` settings of a file over the defaults `d`.
fn low_power_from_file(f: &ConfigFile, d: LowPowerConfig) -> (l: LowPowerConfig)
    ensures
        l.max_models == given_or(f.low_power_max_models, d.max_models),
        l.battery_pause_threshold == given_or(f.battery_pause_threshold, d.battery_pause_threshold),
        l.reduce_heartbeat == given_or(f.reduce_heartbeat, d.reduce_heartbeat),
{
    let mut l = d;
    match f.low_power_max_models {
        Some(v) => {
            l.max_models = v;
        },
        None => {},
    }
    match f.battery_pause_threshold {
        Some(v) => {
            l.battery_pause_threshold = v;
        },
        None => {},
    }
    match f.reduce_heartbeat {
        Some(v) => {
            l.reduce_heartbeat = v;
        },
        None => {},
    }
    l
}

impl NodeConfig {
    /// Models that may be loaded at once in the current power mode.
    pub open spec fn effective_max_models_spec(&self) -> usize {
        if self.daemon.low_power {
            self.low_power.max_models
        } else {
            self.models.max_loaded
        }
    }

    /// The default configuration with data under `<home>/.resonantos`.
    pub fn with_home(home: &str) -> (c: Self)
        ensures
            default_config_for(home@, c),
    {
        let base = string_join_path(home, ".resonantos");
        let models_dir = string_join_path(base.as_str(), "models");
        let logs = string_join_path(base.as_str(), "logs");
        let log_file = string_join_path(logs.as_str(), "node.log");
        NodeConfig {
            network: NetworkConfig { listen_port: 9741, peers: Vec::new(), transport: TransportMode::Lan },
            hardware: HardwareConfig { max_memory_mb: 0, max_vram_mb: 0, gpu_layers: GpuLayerMode::Auto },
            models: ModelsConfig { directory: models_dir, max_loaded: 2, auto_download: true },
            daemon: DaemonConfig { log_file, log_level: owned("info"), api_port: 9742, low_power: false },
            low_power: LowPowerConfig { max_models: 1, battery_pause_threshold: 20, reduce_heartbeat: true },
        }
    }

    /// The configuration loaded from a configuration file, given as the
    /// settings read from it (`None` when there is no file): each setting
    /// the file gives, the default for `home` for every one it leaves out.
    pub fn load(home: &str, file: Option<&ConfigFile>) -> (c: Self)
        ensures
            file is None ==> default_config_for(home@, c),
            file matches Some(f) ==> config_from_file(home@, *f, c),
    {
        let d = NodeConfig::with_home(home);
        assert(d.network.peers@ =~= Seq::<String>::empty());
        match file {
            None => d,
            Some(f) => {
                let NodeConfig { network, hardware, models, daemon, low_power } = d;
                NodeConfig {
                    network: network_from_file(f, network),
                    hardware: hardware_from_file(f, hardware),
                    models: models_from_file(f, models),
                    daemon: daemon_from_file(f, daemon),
                    low_power: low_power_from_file(f, low_power),
                }
            },
        }
    }

    /// Applies command-line overrides: a port, a non-empty peer list, a
    /// models directory, low-power mode (only switched on) and a log level.
    pub fn apply_overrides(&mut self, overrides: &CliOverrides)
        ensures
            final(self).network.listen_port == match overrides.port {
                Some(p) => p,
                None => old(self).network.listen_port,
            },
            final(self).network.peers@ == if overrides.peers@.len() > 0 {
                overrides.peers@
            } else {
                old(self).network.peers@
            },
            final(self).network.transport == old(self).network.transport,
            final(self).models.directory == match overrides.models_dir {
                Some(d) => d,
                None => old(self).models.directory,
            },
            final(self).models.max_loaded == old(self).models.max_loaded,
            final(self).models.auto_download == old(self).models.auto_download,
            final(self).daemon.low_power == (old(self).daemon.low_power || overrides.low_power),
            final(self).daemon.log_level == match overrides.log_level {
                Some(l) => l,
                None => old(self).daemon.log_level,
            },
            final(self).daemon.log_file == old(self).daemon.log_file,
            final(self).daemon.api_port == old(self).daemon.api_port,
            final(self).hardware.max_memory_mb == old(self).hardware.max_memory_mb,
            final(self).hardware.max_vram_mb == old(self).hardware.max_vram_mb,
            final(self).hardware.gpu_layers == old(self).hardware.gpu_layers,
            final(self).low_power.max_models == old(self).low_power.max_models,
            final(self).low_power.battery_pause_threshold == old(self).low_power.battery_pause_threshold,
            final(self).low_power.reduce_heartbeat == old(self).low_power.reduce_heartbeat,
    {
        match overrides.port {
            Some(port) => {
                self.network.listen_port = port;
            },
            None => {},
        }
        if overrides.peers.len() > 0 {
            self.network.peers = crate::agents::dag::copy_strings(&overrides.peers);
        }
        match &overrides.models_dir {
            Some(dir) => {
                self.models.directory = dir.clone();
            },
            None => {},
        }
        if overrides.low_power {
            self.daemon.low_power = true;
        }
        match &overrides.log_level {
            Some(level) => {
                self.daemon.log_level = level.clone();
            },
            None => {},
        }
    }

    /// Seconds between heartbeats: 300 in low-power mode with reduced
    /// heartbeats, 60 otherwise.
    pub fn heartbeat_interval_secs(&self) -> (s: u64)
        ensures
            s == if self.daemon.low_power && self.low_power.reduce_heartbeat {
                300u64
            } else {
                60u64
            },
    {
        if self.daemon.low_power && self.low_power.reduce_heartbeat {
            300
        } else {
            60
        }
    }

    /// Models that may be loaded at once: the low-power limit in low-power
    /// mode, the normal limit otherwise.
    pub fn effective_max_models(&self) -> (n: usize)
        ensures
            n == self.effective_max_models_spec(),
            self.daemon.low_power ==> n == self.low_power.max_models,
            !self.daemon.low_power ==> n == self.models.max_loaded,
    {
        if self.daemon.low_power {
            self.low_power.max_models
        } else {
            self.models.max_loaded
        }
    }
}

/// Law: in low-power mode the model limit is the low-power limit, whatever
/// the heartbeat setting; otherwise it is the normal limit.
pub proof fn law_effective_model_limit(c: NodeConfig)
    ensures
        c.daemon.low_power ==> c.effective_max_models_spec() == c.low_power.max_models,
        !c.daemon.low_power ==> c.effective_max_models_spec() == c.models.max_loaded,
{
}

impl Default for NodeConfig {
    /// The defaults with data under the current directory's `.resonantos`
    /// (the home directory is read by the program around the library, which
    /// calls `with_home`).
    fn default() -> (c: Self)
        ensures
            default_config_for("."@, c),
    {
        NodeConfig::with_home(".")
    }
}

} // verus!
