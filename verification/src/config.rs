//! The monitoring configuration: which containers to sample and how often.
//! Loading it from a file is the caller's concern; the defaults live here.

use vstd::prelude::*;

verus! {

/// Container names to sample and the polling interval in seconds.
pub struct Config {
    pub containers: Vec<String>,
    pub interval_seconds: Option<u64>,
}

impl Default for Config {
    /// No containers, a one-second interval.
    fn default() -> (c: Config)
        ensures
            c.containers@.len() == 0,
            c.interval_seconds == Some(1u64),
    {
        Config { containers: Vec::new(), interval_seconds: Some(1) }
    }
}

} // verus!
