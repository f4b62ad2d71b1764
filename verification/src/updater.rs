//! Settings of the GitHub-Releases auto-updater, parameterised by
//! repository and binary.  The periodic check itself runs in the
//! application.

use std::time::Duration;
use vstd::prelude::*;

verus! {

/// The value of `Duration::from_secs(secs)`.
pub uninterp spec fn duration_from_secs(secs: u64) -> Duration;

#[verifier::external_body]
/// `Duration::from_secs`: a duration of exactly `secs` seconds.
fn duration_secs(secs: u64) -> (d: Duration)
    ensures
        d == duration_from_secs(secs),
{
    Duration::from_secs(secs)
}

/// Seconds between start-up and the first check, unless the agent says otherwise.
pub const DEFAULT_STARTUP_DELAY_SECS: u64 = 60;

/// Seconds between two checks, unless the agent says otherwise: one day.
pub const DEFAULT_CHECK_INTERVAL_SECS: u64 = 86400;

pub struct UpdaterConfig {
    pub github_owner: &'static str,
    pub github_repo: &'static str,
    pub bin_name: &'static str,
    pub current_version: &'static str,
    pub startup_delay: Duration,
    pub check_interval: Duration,
}

impl UpdaterConfig {
    /// Settings for `github_owner/github_repo`, checking a minute after
    /// start-up and then daily.
    pub fn new(
        github_owner: &'static str,
        github_repo: &'static str,
        bin_name: &'static str,
        current_version: &'static str,
    ) -> (cfg: Self)
        ensures
            cfg.github_owner == github_owner,
            cfg.github_repo == github_repo,
            cfg.bin_name == bin_name,
            cfg.current_version == current_version,
            cfg.startup_delay == duration_from_secs(DEFAULT_STARTUP_DELAY_SECS),
            cfg.check_interval == duration_from_secs(DEFAULT_CHECK_INTERVAL_SECS),
    {
        UpdaterConfig {
            github_owner,
            github_repo,
            bin_name,
            current_version,
            startup_delay: duration_secs(DEFAULT_STARTUP_DELAY_SECS),
            check_interval: duration_secs(DEFAULT_CHECK_INTERVAL_SECS),
        }
    }

    /// The same settings with the first check `d` after start-up.
    pub fn with_startup_delay(self, d: Duration) -> (cfg: Self)
        ensures
            cfg == (UpdaterConfig { startup_delay: d, ..self }),
    {
        UpdaterConfig { startup_delay: d, ..self }
    }

    /// The same settings with `d` between two checks.
    pub fn with_check_interval(self, d: Duration) -> (cfg: Self)
        ensures
            cfg == (UpdaterConfig { check_interval: d, ..self }),
    {
        UpdaterConfig { check_interval: d, ..self }
    }
}

/// How one update check ended.
pub enum CheckOutcome {
    /// A new release was installed.
    Updated,
    /// Already on the latest release.
    UpToDate,
    /// The check failed (network, release lookup, download, install).
    Failed,
    /// The check's task panicked.
    Panicked,
}

/// What the update loop does next.
pub enum UpdaterStep {
    /// Exit the process with this code, so that the service manager restarts
    /// it on the new binary.
    Exit(i32),
    /// Wait this long, then check again.
    WaitThenCheck(Duration),
}

/// The loop's first step: wait `startup_delay`, then check.
pub fn first_step(cfg: &UpdaterConfig) -> (s: UpdaterStep)
    ensures
        s == UpdaterStep::WaitThenCheck(cfg.startup_delay),
{
    UpdaterStep::WaitThenCheck(cfg.startup_delay)
}

/// The step after a check: exit with code 0 once an update is applied;
/// otherwise, whatever went wrong, wait `check_interval` and check again.
pub fn step_after_check(cfg: &UpdaterConfig, outcome: CheckOutcome) -> (s: UpdaterStep)
    ensures
        s == (match outcome {
            CheckOutcome::Updated => UpdaterStep::Exit(0),
            _ => UpdaterStep::WaitThenCheck(cfg.check_interval),
        }),
{
    match outcome {
        CheckOutcome::Updated => UpdaterStep::Exit(0),
        _ => UpdaterStep::WaitThenCheck(cfg.check_interval),
    }
}

} // verus!
