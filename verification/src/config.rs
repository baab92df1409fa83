//! Connection / session configuration: the declarative knobs applied when a device is opened.

use std::time::Duration;
use vstd::prelude::*;

verus! {

/// Default query timeout in milliseconds (one second).
pub const DEFAULT_QUERY_TIMEOUT_MS: u64 = 1000;

/// Default keepalive cadence in milliseconds: under the firmware's one-second silence auto-clear,
/// so a held override outlives it.
pub const DEFAULT_KEEPALIVE_CADENCE_MS: u64 = 500;

/// What `Duration::from_millis` returns for `ms`.
pub uninterp spec fn millis_duration(ms: u64) -> Duration;

/// Trusted: `std::time::Duration::from_millis`. Claims the result is the duration named by
/// `millis_duration(ms)`; nothing is claimed about its inner seconds/nanoseconds split.
#[verifier::external_body]
fn duration_from_millis(ms: u64) -> (d: Duration)
    ensures
        d == millis_duration(ms),
{
    Duration::from_millis(ms)
}

/// The default query timeout as a `Duration`.
pub fn default_query_timeout() -> (d: Duration)
    ensures
        d == millis_duration(DEFAULT_QUERY_TIMEOUT_MS),
{
    duration_from_millis(DEFAULT_QUERY_TIMEOUT_MS)
}

/// The default keepalive cadence as a `Duration`.
pub fn default_keepalive_cadence() -> (d: Duration)
    ensures
        d == millis_duration(DEFAULT_KEEPALIVE_CADENCE_MS),
{
    duration_from_millis(DEFAULT_KEEPALIVE_CADENCE_MS)
}

/// Declarative connection / session configuration: how long a query waits for its reply and how
/// often a held override is refreshed.
#[derive(Debug, Clone, Copy, PartialEq, Eq, Hash)]
pub struct ConnectOptions {
    /// How long queries wait for the correlated reply before timing out.
    pub query_timeout: Duration,
    /// How often a held override is refreshed to defeat the firmware's silence auto-clear.
    pub keepalive_cadence: Duration,
}

impl ConnectOptions {
    /// A fresh [`ConnectOptions`] with the defaults.
    pub fn new() -> (o: ConnectOptions)
        ensures
            o.query_timeout == millis_duration(DEFAULT_QUERY_TIMEOUT_MS),
            o.keepalive_cadence == millis_duration(DEFAULT_KEEPALIVE_CADENCE_MS),
    {
        ConnectOptions {
            query_timeout: default_query_timeout(),
            keepalive_cadence: default_keepalive_cadence(),
        }
    }
}

impl Default for ConnectOptions {
    fn default() -> (o: ConnectOptions)
        ensures
            o.query_timeout == millis_duration(DEFAULT_QUERY_TIMEOUT_MS),
            o.keepalive_cadence == millis_duration(DEFAULT_KEEPALIVE_CADENCE_MS),
    {
        ConnectOptions::new()
    }
}

} // verus!
