//! Settings of the monitoring of the server.

use vstd::prelude::*;

verus! {

/// What is monitored.
#[derive(Clone, Debug)]
pub struct MonitoringConfig {
    /// Whether metrics are gathered at all.
    pub enabled: bool,
    /// Whether the bandwidth of each viewer is written to the log.
    pub console_log_bandwidth: bool,
}

/// Monitoring is on unless it is configured off.
pub fn default_monitoring_enabled() -> (r: bool)
    ensures
        r,
{
    true
}

/// The bandwidth is not logged unless it is configured on.
pub fn default_console_log_bandwidth() -> (r: bool)
    ensures
        !r,
{
    false
}

impl Default for MonitoringConfig {
    fn default() -> (c: MonitoringConfig)
        ensures
            c.enabled,
            !c.console_log_bandwidth,
    {
        MonitoringConfig {
            enabled: default_monitoring_enabled(),
            console_log_bandwidth: default_console_log_bandwidth(),
        }
    }
}

} // verus!
