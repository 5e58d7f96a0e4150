//! Verified core of a sandboxed Linux box for agents: the egress tunnel's
//! wire and policies, the computer-use request rules, the shared guards of
//! the exec daemon, and what a client makes of the daemons' answers.
pub mod text;
pub mod num;
pub mod egress;
pub mod net;
pub mod cua;
pub mod common;
pub mod exec;
pub mod chrome;
pub mod client;
