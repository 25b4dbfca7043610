//! Readiness probing: the decisions of a tool that waits until every one of a
//! set of TCP and HTTP targets has become ready.
//!
//! The library resolves raw inputs into a [`ProbeSet`], hands out one probe
//! task per target, steps each task's retry loop on the results of its
//! attempts, and tells when the last task has reported. All network and
//! scheduling work is left to the caller, who feeds the results back in.

pub mod address;
pub mod http_url;
pub mod target;
pub mod prober;
pub mod resolver;
pub mod coordinator;
mod seq_facts;

pub use address::{IpAddress, SocketAddress};
pub use coordinator::{Coordinator, ReportError, RunStatus};
pub use http_url::HttpUrl;
pub use prober::{
    is_success, ConnectResult, HttpProber, HttpResult, ProbeOutcome, ProbeState, ProbeStep,
    ProbeTask, RetryLoop, SocketProber,
};
pub use resolver::{assemble, parse_urls, resolve, InputError};
pub use target::{ProbeSet, ProbeTarget};
