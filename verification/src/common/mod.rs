//! Shared pieces of the box daemons: the JSON error envelope, the path jail,
//! token and flag rules, browser origins, request ids and listen addresses.
use vstd::prelude::*;

pub mod auth;
pub mod config;
pub mod cors;
pub mod error;
pub mod jail;
pub mod listen;
pub mod request_id;

verus! {

/// Protocol version advertised by both daemons.
pub const PROTOCOL_VERSION: &'static str = "v1";

/// Name of the process-wide allocator the daemons install, for logs.
pub const GLOBAL_ALLOCATOR: &'static str = "mimalloc";

} // verus!
