//! Guest-side HTTP CONNECT proxy muxed over a WebSocket to a client on the
//! operator's machine: wire frames, host and destination policy, the proxy
//! request reader, and the per-connection stream table.
pub mod protocol;
pub mod allowlist;
pub mod http1;
pub mod destination;
pub mod session;
pub mod relay;
pub mod status;
pub mod config;
