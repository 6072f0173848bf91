//! libagent: keeps the Datadog Agent and Trace Agent running while the
//! library is loaded, and proxies HTTP requests and DogStatsD metrics to them.
//!
//! This crate holds the logic: HTTP request/response handling, configuration
//! rules, the respawn and shutdown state machines, the checks behind the C
//! interface, and metric counters.

pub mod text;
pub mod http;
pub mod stream;
pub mod uds;
pub mod pipe;
pub mod config;
pub mod logging;
pub mod process;
pub mod metrics;
pub mod monitor;
pub mod manager;
pub mod shutdown;
pub mod ffi;
pub mod exchange;

pub use config::{get_backoff_initial_secs, get_backoff_max_secs, get_graceful_shutdown_timeout_secs};
pub use http::{
    add_default_headers, build_request, header_lookup, memchr_crlf_crlf, parse_headers,
    parse_status_line, serialize_headers, Response,
};
pub use metrics::Metrics;
