//! Server configuration: the knobs the relay runs with, and their defaults.
//!
//! Loading from the environment or a file is I/O and lives with the caller;
//! the library only defines the shape and the default values.

use vstd::prelude::*;

verus! {

broadcast use vstd::string::group_string_axioms;

/// Configuration of the relay.
#[derive(Debug, Clone)]
pub struct ServerConfig {
    /// Ingress UDP endpoint.
    pub bind_address: String,
    /// Upper bound on live sessions in the registry.
    pub max_sessions: usize,
    /// Upper bound on subscribers per session.
    pub max_fanout_per_session: usize,
    /// Ingress receive buffer and queue high-water hint, in bytes.
    pub buffer_size: usize,
    /// A session with no activity for longer than this is swept.
    pub session_timeout_secs: u64,
    /// Whether the metrics endpoint is served.
    pub enable_metrics: bool,
    /// Metrics HTTP endpoint.
    pub metrics_bind_address: String,
}

pub fn default_bind_address() -> (r: String)
    ensures
        r@ == "0.0.0.0:5004"@,
{
    "0.0.0.0:5004".to_string()
}

pub fn default_max_sessions() -> (r: usize)
    ensures
        r == 10000,
{
    10000
}

pub fn default_max_fanout_per_session() -> (r: usize)
    ensures
        r == 1000,
{
    1000
}

pub fn default_buffer_size() -> (r: usize)
    ensures
        r == 65536,
{
    65536
}

pub fn default_session_timeout_secs() -> (r: u64)
    ensures
        r == 300,
{
    300
}

pub fn default_enable_metrics() -> (r: bool)
    ensures
        r,
{
    true
}

pub fn default_metrics_bind_address() -> (r: String)
    ensures
        r@ == "0.0.0.0:9090"@,
{
    "0.0.0.0:9090".to_string()
}

impl Default for ServerConfig {
    /// The documented defaults.
    fn default() -> (r: Self)
        ensures
            r.bind_address@ == "0.0.0.0:5004"@,
            r.max_sessions == 10000,
            r.max_fanout_per_session == 1000,
            r.buffer_size == 65536,
            r.session_timeout_secs == 300,
            r.enable_metrics,
            r.metrics_bind_address@ == "0.0.0.0:9090"@,
    {
        ServerConfig {
            bind_address: default_bind_address(),
            max_sessions: default_max_sessions(),
            max_fanout_per_session: default_max_fanout_per_session(),
            buffer_size: default_buffer_size(),
            session_timeout_secs: default_session_timeout_secs(),
            enable_metrics: default_enable_metrics(),
            metrics_bind_address: default_metrics_bind_address(),
        }
    }
}

} // verus!
