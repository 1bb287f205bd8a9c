//! The headless node daemon: lifecycle, loaded models and status.
pub mod config;
pub mod control_api;
pub mod health_reporter;
pub mod optimizer_client;

use vstd::prelude::*;

use crate::clock::now_millis_u64;
use crate::daemon::config::NodeConfig;
use crate::ids::new_uuid;
use crate::text::{owned, push_decimal, push_str, string_from_chars, decimal};

verus! {

/// Status of the daemon as reported to its controller.
#[derive(Debug, Clone)]
pub struct DaemonStatus {
    pub node_id: u128,
    pub running: bool,
    pub uptime_secs: u64,
    pub models_loaded: Vec<String>,
    pub low_power: bool,
    pub listen_port: u16,
}

/// Errors of the daemon.
#[derive(Debug, Clone, PartialEq)]
pub enum DaemonError {
    StartFailed { reason: String },
    ShutdownTimeout { elapsed_ms: u64 },
    ModelLimitReached { max: usize },
    CommandFailed { reason: String },
}

/// The message of a daemon error.
pub open spec fn daemon_error_text(e: DaemonError) -> Seq<char> {
    match e {
        DaemonError::StartFailed { reason } => "Start failed: "@ + reason@,
        DaemonError::ShutdownTimeout { elapsed_ms } => "Shutdown timeout: "@ + decimal(elapsed_ms as nat) + "ms"@,
        DaemonError::ModelLimitReached { max } => "Model limit reached: max "@ + decimal(max as nat),
        DaemonError::CommandFailed { reason } => "Command failed: "@ + reason@,
    }
}

impl DaemonError {
    /// The human-readable message of the error.
    pub fn to_text(&self) -> (s: String)
        ensures
            s@ == daemon_error_text(*self),
    {
        let mut out: Vec<char> = Vec::new();
        match self {
            DaemonError::StartFailed { reason } => {
                push_str(&mut out, "Start failed: ");
                push_str(&mut out, reason.as_str());
            },
            DaemonError::ShutdownTimeout { elapsed_ms } => {
                push_str(&mut out, "Shutdown timeout: ");
                push_decimal(&mut out, *elapsed_ms);
                push_str(&mut out, "ms");
            },
            DaemonError::ModelLimitReached { max } => {
                push_str(&mut out, "Model limit reached: max ");
                push_decimal(&mut out, *max as u64);
            },
            DaemonError::CommandFailed { reason } => {
                push_str(&mut out, "Command failed: ");
                push_str(&mut out, reason.as_str());
            },
        }
        string_from_chars(&out)
    }
}

/// Uptime in seconds of a daemon started at `started_at_ms` (zero when never
/// started), at `now_ms`.
pub open spec fn uptime_at(started_at_ms: u64, now_ms: u64) -> u64 {
    if started_at_ms == 0 || now_ms < started_at_ms {
        0
    } else {
        ((now_ms - started_at_ms) / 1000) as u64
    }
}

/// The answer of a shutdown that began at `start_ms` and ended at
/// `end_ms`: a timeout when it took more than three seconds (a clock that
/// went backwards counts as no time).
pub open spec fn shutdown_outcome(start_ms: u64, end_ms: u64) -> Result<(), DaemonError> {
    let elapsed_ms: u64 = if end_ms >= start_ms {
        (end_ms - start_ms) as u64
    } else {
        0
    };
    if elapsed_ms > 3000 {
        Err(DaemonError::ShutdownTimeout { elapsed_ms })
    } else {
        Ok(())
    }
}

/// Decides a shutdown's answer from the clock's readings before and after.
pub fn shutdown_verdict(start_ms: u64, end_ms: u64) -> (r: Result<(), DaemonError>)
    ensures
        r == shutdown_outcome(start_ms, end_ms),
{
    let elapsed_ms = if end_ms >= start_ms {
        end_ms - start_ms
    } else {
        0
    };
    if elapsed_ms > 3000 {
        return Err(DaemonError::ShutdownTimeout { elapsed_ms });
    }
    Ok(())
}

/// The models without `model_id`.
pub open spec fn without_model(models: Seq<Seq<char>>, model_id: Seq<char>) -> Seq<Seq<char>>
    decreases models.len(),
{
    if models.len() == 0 {
        models
    } else {
        let r = without_model(models.drop_last(), model_id);
        if models.last() == model_id {
            r
        } else {
            r.push(models.last())
        }
    }
}

/// The texts of a list of strings.
pub open spec fn texts(v: Seq<String>) -> Seq<Seq<char>> {
    v.map_values(|s: String| s@)
}

/// The node daemon.
pub struct NodeDaemon {
    config: NodeConfig,
    running: bool,
    node_id: u128,
    started_at_ms: u64,
    models_loaded: Vec<String>,
}

impl NodeDaemon {
    /// The configuration.
    pub closed spec fn config_view(&self) -> NodeConfig {
        self.config
    }

    /// Whether the daemon runs.
    pub closed spec fn running_view(&self) -> bool {
        self.running
    }

    /// The node's ID.
    pub closed spec fn node_view(&self) -> u128 {
        self.node_id
    }

    /// Start time (milliseconds since the epoch), zero before the start.
    pub closed spec fn started_view(&self) -> u64 {
        self.started_at_ms
    }

    /// The loaded models, in order of loading.
    pub closed spec fn models_view(&self) -> Seq<Seq<char>> {
        texts(self.models_loaded@)
    }

    /// A stopped daemon with a fresh random node ID and no model.
    pub fn new(config: NodeConfig) -> (d: Self)
        ensures
            d.config_view() == config,
            !d.running_view(),
            d.started_view() == 0,
            d.models_view() == Seq::<Seq<char>>::empty(),
    {
        let d = NodeDaemon { config, running: false, node_id: new_uuid(), started_at_ms: 0, models_loaded: Vec::new() };
        assert(d.models_view() =~= Seq::<Seq<char>>::empty());
        d
    }

    /// Starts the daemon at `now_ms`.
    pub fn start_at(&mut self, now_ms: u64) -> (r: Result<(), DaemonError>)
        ensures
            r is Ok,
            final(self).running_view(),
            final(self).started_view() == now_ms,
            final(self).config_view() == old(self).config_view(),
            final(self).node_view() == old(self).node_view(),
            final(self).models_view() == old(self).models_view(),
    {
        self.running = true;
        self.started_at_ms = now_ms;
        Ok(())
    }

    /// Starts the daemon now.
    pub fn start(&mut self) -> (r: Result<(), DaemonError>)
        ensures
            r is Ok,
            final(self).running_view(),
            final(self).config_view() == old(self).config_view(),
            final(self).node_view() == old(self).node_view(),
            final(self).models_view() == old(self).models_view(),
    {
        let now = now_millis_u64();
        self.start_at(now)
    }

    /// Stops the daemon and unloads every model; a shutdown that took more
    /// than three seconds is reported as a timeout (after the fact). The
    /// answer is `shutdown_verdict` on the clock's readings before and after.
    pub fn shutdown(&mut self) -> (r: Result<(), DaemonError>)
        ensures
            !final(self).running_view(),
            final(self).models_view() == Seq::<Seq<char>>::empty(),
            final(self).config_view() == old(self).config_view(),
            final(self).node_view() == old(self).node_view(),
            exists|start_ms: u64, end_ms: u64| r == #[trigger] shutdown_outcome(start_ms, end_ms),
    {
        let start = now_millis_u64();
        self.running = false;
        self.models_loaded = Vec::new();
        assert(self.models_view() =~= Seq::<Seq<char>>::empty());
        let end = now_millis_u64();
        shutdown_verdict(start, end)
    }

    /// Whether the daemon runs.
    pub fn is_running(&self) -> (b: bool)
        ensures
            b == self.running_view(),
    {
        self.running
    }

    /// The node's ID.
    pub fn node_id(&self) -> (n: u128)
        ensures
            n == self.node_view(),
    {
        self.node_id
    }

    /// Uptime in whole seconds at `now_ms`.
    pub fn uptime_secs_at(&self, now_ms: u64) -> (s: u64)
        ensures
            s == uptime_at(self.started_view(), now_ms),
    {
        if self.started_at_ms == 0 || now_ms < self.started_at_ms {
            return 0;
        }
        (now_ms - self.started_at_ms) / 1000
    }

    /// Uptime in whole seconds now (`uptime_secs_at` at the clock's
    /// reading); zero before the start.
    pub fn uptime_secs(&self) -> (s: u64)
        ensures
            self.started_view() == 0 ==> s == 0,
            exists|now_ms: u64| s == #[trigger] uptime_at(self.started_view(), now_ms),
    {
        let now = now_millis_u64();
        self.uptime_secs_at(now)
    }

    /// Loads a model, unless as many models as the effective limit are
    /// already loaded.
    pub fn load_model(&mut self, model_id: &str) -> (r: Result<(), DaemonError>)
        ensures
            final(self).config_view() == old(self).config_view(),
            final(self).running_view() == old(self).running_view(),
            final(self).node_view() == old(self).node_view(),
            final(self).started_view() == old(self).started_view(),
            old(self).models_view().len() >= old(self).config_view().effective_max_models_spec() ==> r
                == Err::<(), DaemonError>(DaemonError::ModelLimitReached { max: old(self).config_view().effective_max_models_spec() })
                && final(self).models_view() == old(self).models_view(),
            old(self).models_view().len() < old(self).config_view().effective_max_models_spec() ==> r is Ok
                && final(self).models_view() == old(self).models_view().push(model_id@),
    {
        let max = self.config.effective_max_models();
        if self.models_loaded.len() >= max {
            return Err(DaemonError::ModelLimitReached { max });
        }
        let ghost before = self.models_loaded@;
        self.models_loaded.push(owned(model_id));
        assert(self.models_view() =~= texts(before).push(model_id@));
        Ok(())
    }

    /// Unloads every copy of a model (unloading a model not loaded is fine).
    pub fn unload_model(&mut self, model_id: &str) -> (r: Result<(), DaemonError>)
        ensures
            r is Ok,
            final(self).models_view() == without_model(old(self).models_view(), model_id@),
            final(self).config_view() == old(self).config_view(),
            final(self).running_view() == old(self).running_view(),
            final(self).node_view() == old(self).node_view(),
            final(self).started_view() == old(self).started_view(),
    {
        let ghost mv = self.models_view();
        let id = owned(model_id);
        let mut kept: Vec<String> = Vec::new();
        let mut i: usize = 0;
        while i < self.models_loaded.len()
            invariant
                i <= self.models_loaded@.len(),
                mv == self.models_view(),
                mv.len() == self.models_loaded@.len(),
                id@ == model_id@,
                texts(kept@) == without_model(mv.take(i as int), model_id@),
            decreases self.models_loaded.len() - i,
        {
            assert(mv.take(i + 1).drop_last() =~= mv.take(i as int));
            assert(mv.take(i + 1).last() == self.models_loaded@[i as int]@);
            if self.models_loaded[i] != id {
                let ghost before = kept@;
                kept.push(self.models_loaded[i].clone());
                assert(texts(kept@) =~= texts(before).push(self.models_loaded@[i as int]@));
            }
            i = i + 1;
        }
        assert(mv.take(i as int) =~= mv);
        self.models_loaded = kept;
        Ok(())
    }

    /// The loaded models.
    pub fn loaded_models(&self) -> (m: &Vec<String>)
        ensures
            texts(m@) == self.models_view(),
    {
        &self.models_loaded
    }

    /// The status at `now_ms`.
    pub fn status_at(&self, now_ms: u64) -> (s: DaemonStatus)
        ensures
            s.node_id == self.node_view(),
            s.running == self.running_view(),
            s.uptime_secs == uptime_at(self.started_view(), now_ms),
            texts(s.models_loaded@) == self.models_view(),
            s.low_power == self.config_view().daemon.low_power,
            s.listen_port == self.config_view().network.listen_port,
    {
        DaemonStatus {
            node_id: self.node_id,
            running: self.running,
            uptime_secs: self.uptime_secs_at(now_ms),
            models_loaded: crate::agents::dag::copy_strings(&self.models_loaded),
            low_power: self.config.daemon.low_power,
            listen_port: self.config.network.listen_port,
        }
    }

    /// The status now.
    pub fn status(&self) -> (s: DaemonStatus)
        ensures
            s.node_id == self.node_view(),
            s.running == self.running_view(),
            texts(s.models_loaded@) == self.models_view(),
            s.low_power == self.config_view().daemon.low_power,
            s.listen_port == self.config_view().network.listen_port,
    {
        let now = now_millis_u64();
        self.status_at(now)
    }
}

} // verus!
