//! Relay core of a UDP forwarding proxy: the per-client session lifecycle.
//!
//! The library holds the decisions of the relay as verified state machines:
//! which upstream port a new session binds, when a session's send side declares
//! it expired, what its receive side does with each upstream event, and how the
//! dispatcher's registry of sessions is looked up, filled and lazily cleaned.
//! Sockets, threads and channels are driven by the program around it.

pub mod config;
pub mod key;
pub mod port;
pub mod registry;
pub mod session;

pub use config::{parse_port, Config, ConfigError, DEFAULT_BIND_ADDR};
pub use key::ClientKey;
pub use port::{random_upstream_port, upstream_port, FIRST_UPSTREAM_PORT, UPSTREAM_PORT_SPAN};
pub use registry::{Dispatched, Recovery, Registry, Route};
pub use session::{
    datagram_payload, forward_all, on_upstream, Inbound, ReceiveAction, SendAction, SendSide, Upstream,
    DATAGRAM_BUFFER_LEN, IDLE_TICK_LIMIT, INBOUND_WAIT_MS, UPSTREAM_READ_WAIT_MS,
};
