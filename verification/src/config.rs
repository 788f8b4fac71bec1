//! Process configuration: listen addresses, health-check tuning, and the
//! load-balancing strategy. Immutable per process lifetime except via an
//! explicit `ConfigUpdate` sync message.

use vstd::prelude::*;
use crate::pool::Addr;

verus! {

/// How the dispatcher selects among healthy backends.
#[derive(Clone, Copy, PartialEq, Eq, Structural, Debug)]
pub enum Strategy {
    RoundRobin,
}

/// Configuration shared by manager and workers.
#[derive(Clone, Copy, PartialEq, Eq, Structural, Debug)]
pub struct Config {
    /// The proxy's client-facing listen address.
    pub public_addr: Addr,
    /// The operator-facing admin address.
    pub admin_addr: Addr,
    /// The internal control address carrying the sync protocol.
    pub control_addr: Addr,
    /// Milliseconds between health-check cycles.
    pub health_interval_ms: u64,
    /// Milliseconds before a liveness probe is abandoned.
    pub probe_timeout_ms: u64,
    /// Consecutive failed probes before a backend turns unhealthy.
    pub failure_threshold: u32,
    /// Selection strategy for the dispatcher.
    pub strategy: Strategy,
}

impl Config {
    /// A configuration the components can run under.
    pub open spec fn wf(self) -> bool {
        self.failure_threshold >= 1
    }
}

/// The defaults: public listener on port 8080, admin on 8687, the control
/// channel on loopback port 4000, one probe cycle per ten seconds with a
/// two-second probe timeout, three strikes before unhealthy.
impl Default for Config {
    fn default() -> (c: Config)
        ensures
            c == default_config(),
            c.wf(),
    {
        Config {
            public_addr: Addr { ip: 0, port: 8080 },
            admin_addr: Addr { ip: 0, port: 8687 },
            control_addr: Addr { ip: 0x7F000001, port: 4000 },
            health_interval_ms: 10000,
            probe_timeout_ms: 2000,
            failure_threshold: 3,
            strategy: Strategy::RoundRobin,
        }
    }
}

/// The value `Config::default` returns.
pub open spec fn default_config() -> Config {
    Config {
        public_addr: Addr { ip: 0, port: 8080 },
        admin_addr: Addr { ip: 0, port: 8687 },
        control_addr: Addr { ip: 0x7F000001, port: 4000 },
        health_interval_ms: 10000,
        probe_timeout_ms: 2000,
        failure_threshold: 3,
        strategy: Strategy::RoundRobin,
    }
}

} // verus!
