//! Decisions of the periodic health-check cycle. The loop itself —
//! timers, HTTP, sleeping — runs outside the library; it asks these
//! functions what to do and performs it.

use vstd::prelude::*;
use crate::model::str_eq;

verus! {

/// Which export surface the configuration chose.
#[derive(Clone, Copy, PartialEq, Eq, Structural, Debug)]
pub enum ExportMode {
    Pull,
    Push,
    Disabled,
}

/// The mode a configured string names: `pull` or `push`, with any
/// other word disabling export.
pub open spec fn spec_export_mode(m: Seq<char>) -> ExportMode {
    if m == "pull"@ {
        ExportMode::Pull
    } else if m == "push"@ {
        ExportMode::Push
    } else {
        ExportMode::Disabled
    }
}

/// Parses the configured export mode; an unrecognized word disables
/// export (a warning for the caller, not a startup failure).
pub fn parse_export_mode(mode: &str) -> (r: ExportMode)
    ensures
        r == spec_export_mode(mode@),
{
    if str_eq(mode, "pull") {
        ExportMode::Pull
    } else if str_eq(mode, "push") {
        ExportMode::Push
    } else {
        ExportMode::Disabled
    }
}

/// The heuristic wait between triggering the probes and reading their
/// results: half the probe timeout, and at least one second.
pub fn wait_seconds(test_timeout_seconds: u64) -> (r: u64)
    ensures
        r == (if test_timeout_seconds > 1 {
            test_timeout_seconds / 2
        } else {
            1u64
        }),
        r >= 1,
{
    if test_timeout_seconds > 1 {
        test_timeout_seconds / 2
    } else {
        1
    }
}

/// The probe timeout handed to the remote API, in milliseconds,
/// saturating at the integer limit.
pub fn trigger_timeout_ms(test_timeout_seconds: u64) -> (r: u64)
    ensures
        r == (if test_timeout_seconds <= u64::MAX / 1000 {
            test_timeout_seconds * 1000
        } else {
            u64::MAX as int
        }),
{
    if test_timeout_seconds <= u64::MAX / 1000 {
        test_timeout_seconds * 1000
    } else {
        u64::MAX
    }
}

/// What follows the fetch in one cycle.
pub enum AfterFetch {
    /// The fetch failed: no metrics update, no push; wait for the next tick.
    SkipCycle,
    /// Update the registry; the pull server (or nothing) serves it.
    UpdateOnly,
    /// Update the registry, then push it to this URL.
    UpdateAndPush { url: String },
    /// Update the registry; push mode is on but no push URL is
    /// configured, so warn and push nothing.
    UpdateWarnNoPushUrl,
}

/// Decides what one cycle does once the fetch attempt has come back.
pub fn plan_after_fetch(fetch_ok: bool, mode: &str, push_url: &Option<String>) -> (r: AfterFetch)
    ensures
        !fetch_ok ==> r is SkipCycle,
        (fetch_ok && spec_export_mode(mode@) is Push && push_url is Some) ==> (r matches
            AfterFetch::UpdateAndPush { url } && url@ == push_url.unwrap()@),
        (fetch_ok && spec_export_mode(mode@) is Push && push_url is None)
            ==> r is UpdateWarnNoPushUrl,
        (fetch_ok && !(spec_export_mode(mode@) is Push)) ==> r is UpdateOnly,
{
    if !fetch_ok {
        AfterFetch::SkipCycle
    } else {
        match parse_export_mode(mode) {
            ExportMode::Push => {
                match push_url {
                    Some(u) => AfterFetch::UpdateAndPush { url: u.clone() },
                    None => AfterFetch::UpdateWarnNoPushUrl,
                }
            },
            _ => AfterFetch::UpdateOnly,
        }
    }
}

} // verus!
