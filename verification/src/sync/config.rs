//! Configuration of synchronisation.

use crate::retrieve::config::{interval_of_minutes, interval_seconds};
use crate::retrieve::embed::text_or;
use vstd::prelude::*;

verus! {

/// Which back end synchronises a workspace.
#[derive(Debug, Clone, Copy, PartialEq, Eq, Structural)]
pub enum SyncBackendKind {
    /// Git where the workspace lies in a git repository, none elsewhere.
    Auto,
    /// None, even in a git repository.
    Disabled,
    /// Git.
    Git,
}

impl Default for SyncBackendKind {
    fn default() -> (r: SyncBackendKind)
        ensures
            r == SyncBackendKind::Auto,
    {
        SyncBackendKind::Auto
    }
}

/// Configuration of synchronisation.
#[derive(Debug, Clone)]
pub struct SyncConfig {
    pub backend: SyncBackendKind,
    /// The name of the remote; `origin` if missing.
    pub remote: Option<String>,
    /// The name of the branch; the current one if missing.
    pub branch: Option<String>,
    /// How often to synchronise. Never, if missing or zero.
    pub sync_interval_minutes: Option<u32>,
}

impl Default for SyncConfig {
    fn default() -> (r: SyncConfig)
        ensures
            r.backend == SyncBackendKind::Auto,
            r.remote is None,
            r.branch is None,
            r.sync_interval_minutes is None,
    {
        SyncConfig {
            backend: SyncBackendKind::Auto,
            remote: None,
            branch: None,
            sync_interval_minutes: None,
        }
    }
}

impl SyncConfig {
    /// The name of the remote.
    pub fn remote(&self) -> (r: &str)
        ensures
            r@ == text_or(self.remote, "origin"@),
    {
        match &self.remote {
            Some(name) => name.as_str(),
            None => "origin",
        }
    }

    /// How often to synchronise, in seconds; nothing if never.
    pub fn sync_interval(&self) -> (r: Option<u64>)
        ensures
            r == interval_seconds(self.sync_interval_minutes),
    {
        interval_of_minutes(self.sync_interval_minutes)
    }
}

/// The remote is the one that is configured, whatever it is called, or `origin`
/// where none is; an interval of zero minutes means never, as none does.
pub proof fn remotes_and_intervals_as_configured(
    config: SyncConfig,
    remote: &str,
    seconds: Option<u64>,
)
    requires
        call_ensures(SyncConfig::remote, (&config,), remote),
        call_ensures(SyncConfig::sync_interval, (&config,), seconds),
    ensures
        config.remote is Some ==> remote@ == config.remote->0@,
        config.remote is None ==> remote@ == "origin"@,
        seconds is Some <==> config.sync_interval_minutes is Some
            && config.sync_interval_minutes->0 > 0,
        seconds is Some ==> seconds->0 == 60 * config.sync_interval_minutes->0,
{
}

} // verus!
