//! Which log files the start-up cleanup removes.  Setting up `tracing` and
//! walking the log directory are in the application.

use crate::text::str_eq;
use vstd::prelude::*;

verus! {

/// Logs older than this many seconds (seven days) are removed at start-up.
pub const MAX_LOG_AGE_SECS: u64 = 604800;

/// Whether a file is a stale log: its extension is `log` and its age,
/// given as whole seconds and nanoseconds, is known and above
/// `max_age_secs` seconds.
pub fn is_stale_log(ext: Option<&str>, age: Option<(u64, u32)>, max_age_secs: u64) -> (b: bool)
    ensures
        b == ((ext matches Some(e) && e@ == "log"@) && (age matches Some(a) && (a.0 > max_age_secs
            || (a.0 == max_age_secs && a.1 > 0)))),
{
    let is_log = match ext {
        Some(e) => str_eq(e, "log"),
        None => false,
    };
    let old_enough = match age {
        Some(a) => a.0 > max_age_secs || (a.0 == max_age_secs && a.1 > 0),
        None => false,
    };
    is_log && old_enough
}

} // verus!
