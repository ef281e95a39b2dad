//! The resolved run configuration: one immutable value, shared
//! read-only by every shot. Text the engine's logic reads — method,
//! header lines, body template, assertion substring — is carried as
//! plain bytes; the target URL and output path only pass through to the
//! outside collaborators.

use vstd::prelude::*;

verus! {

/// Everything one load-test run is configured with.
pub struct Args {
    /// Target URL.
    pub url: String,
    /// Total number of shots to fire.
    pub count: u32,
    /// Maximum number of simultaneously in-flight shots.
    pub workers: u32,
    /// Where to persist the final report, if anywhere.
    pub output: Option<String>,
    /// Target throughput in requests per second; none means unthrottled.
    pub rps: Option<u32>,
    /// Request body template, if a body is to be sent.
    pub body: Option<Vec<u8>>,
    /// HTTP method, as given; normalized before use.
    pub method: Vec<u8>,
    /// Raw `Key: Value` header lines, in order.
    pub headers: Vec<Vec<u8>>,
    /// Per-request timeout in milliseconds.
    pub timeout: u64,
    /// Substring a 2xx response body must contain, if asserting.
    pub expect: Option<Vec<u8>>,
    /// Ramp-up duration in seconds; 0 means no ramp.
    pub ramp_up_secs: u64,
}

impl Args {
    /// The ramp-up duration in microseconds, saturating at the largest
    /// representable value.
    pub fn ramp_up_micros(&self) -> (r: u64)
        ensures
            r == if self.ramp_up_secs * 1_000_000 <= u64::MAX {
                self.ramp_up_secs * 1_000_000
            } else {
                u64::MAX as int
            },
    {
        if self.ramp_up_secs > u64::MAX / 1_000_000 {
            u64::MAX
        } else {
            self.ramp_up_secs * 1_000_000
        }
    }
}

} // verus!
