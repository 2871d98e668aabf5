//! The configuration of the command-line program.

use crate::retrieve::config::{interval_of_minutes, interval_seconds, RetrieveConfig};
use crate::sync::config::SyncConfig;
use crate::workspace::config::EnvOverrides;
use vstd::prelude::*;

verus! {

/// The configuration of a user on one machine.
#[derive(Debug, Clone)]
pub struct UserConfig {
    /// How often a watching program synchronises and refreshes the index.
    /// Never, if missing or zero.
    pub sync_interval_minutes: Option<u32>,
    pub sync: SyncConfig,
    pub retrieve: RetrieveConfig,
}

impl UserConfig {
    /// How often to synchronise and refresh, in seconds; nothing if never.
    pub fn sync_interval(&self) -> (r: Option<u64>)
        ensures
            r == interval_seconds(self.sync_interval_minutes),
    {
        interval_of_minutes(self.sync_interval_minutes)
    }

    /// Lets the environment override the configuration of indexing and
    /// search; see [`EnvOverrides::over`].
    pub fn apply_env_overrides(&mut self, env: &EnvOverrides)
        ensures
            final(self).retrieve@ == env.over(old(self).retrieve@),
            final(self).sync == old(self).sync,
            final(self).sync_interval_minutes == old(self).sync_interval_minutes,
    {
        env.apply(&mut self.retrieve);
    }
}

} // verus!
