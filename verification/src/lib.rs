//! Verified core of a TCP/HTTP reverse-proxy load balancer.
//!
//! The crate holds the logic that a manager process and its worker processes
//! share: the backend pool with its round-robin selection cursor, the
//! health-checking state machine, the manager-to-worker synchronization
//! protocol (message application and its wire codec), the request-dispatch
//! retry policy, and the manager's worker supervision and admin operations.
//! All I/O (listeners, probes, the control channel itself) lives outside the
//! crate; it hands plain values in and takes plain values back.

pub mod config;
pub mod dispatch;
pub mod fairness;
pub mod manager;
pub mod monitor;
pub mod pool;
pub mod replica;
pub mod sync;
pub mod wire;
