//! Configuration as the core consumes it: plain values loaded once at
//! startup, immutable afterwards.

use vstd::prelude::*;

verus! {

/// Export settings: `mode` chooses pull or push; anything else
/// disables export.
pub struct PrometheusConfig {
    pub mode: String,
    pub push_url: Option<String>,
    pub listen_address: String,
}

/// The whole monitor configuration.
pub struct Config {
    pub api_url: String,
    pub api_secret: String,
    pub groups_to_monitor: Vec<String>,
    pub interval_seconds: u64,
    pub test_url: String,
    pub test_timeout_seconds: u64,
    pub prometheus: PrometheusConfig,
    pub reporter: Option<String>,
}

impl Config {
    /// What a loaded configuration must satisfy before the scheduler
    /// may run on it: a positive cycle interval, and a probe timeout
    /// of at least one second so the wait heuristic behaves sanely.
    pub open spec fn wf(self) -> bool {
        self.interval_seconds > 0 && self.test_timeout_seconds >= 1
    }

    /// Checks the loaded values; a configuration this refuses is a
    /// fatal startup error for the caller.
    pub fn validate(&self) -> (r: bool)
        ensures
            r == self.wf(),
    {
        self.interval_seconds > 0 && self.test_timeout_seconds >= 1
    }
}

} // verus!
