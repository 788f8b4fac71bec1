//! The request dispatcher's decision logic. Accepting, connecting and
//! relaying bytes are I/O and run outside the crate; per accepted client
//! connection the surrounding loop asks here what to do next, performs the
//! connect attempt, and reports back until the connection is relayed or
//! failed with a gateway-style error.

use vstd::prelude::*;
use crate::pool::{Addr, Pool, is_healthy};

verus! {

/// What the surrounding connection loop must do next.
pub enum DispatchAction {
    /// Try to open an upstream connection to this address (with the connect
    /// timeout); on success relay bytes, on failure or timeout ask again.
    Connect(Addr),
    /// Give up on this client connection with a gateway-style error: either
    /// no backend is healthy or the attempt budget is spent.
    FailGateway,
}

/// The per-connection retry budget.
pub struct Dispatcher {
    attempts_left: u32,
}

impl Dispatcher {
    /// Connect attempts still allowed for this client connection.
    pub closed spec fn attempts(self) -> int {
        self.attempts_left as int
    }

    /// A dispatcher for one client connection, allowed at most
    /// `max_attempts` upstream connect attempts.
    pub fn new(max_attempts: u32) -> (d: Dispatcher)
        ensures
            d.attempts() == max_attempts,
    {
        Dispatcher { attempts_left: max_attempts }
    }

    /// Decide the next step: while the budget lasts and the replica has a
    /// healthy backend, connect to the one round-robin selection returns;
    /// otherwise fail the client connection. Each `Connect` consumes one
    /// attempt and advances the pool's cursor past the selected backend.
    pub fn next_action(&mut self, pool: &mut Pool) -> (a: DispatchAction)
        requires
            old(pool).wf(),
        ensures
            final(pool).wf(),
            final(pool)@ == old(pool)@,
            match a {
                DispatchAction::Connect(addr) => {
                    &&& old(self).attempts() > 0
                    &&& final(self).attempts() == old(self).attempts() - 1
                    &&& match old(pool).spec_next() {
                        Some(j) => 0 <= j < old(pool)@.len() && is_healthy(old(pool)@[j]) && addr
                            == old(pool)@[j].address && final(pool).cursor_at() == if j + 1
                            == old(pool)@.len() {
                            0int
                        } else {
                            j + 1
                        },
                        None => false,
                    }
                },
                DispatchAction::FailGateway => {
                    &&& final(self).attempts() == old(self).attempts()
                    &&& final(pool).cursor_at() == old(pool).cursor_at()
                    &&& (old(self).attempts() == 0 || forall|i: int|
                        0 <= i < old(pool)@.len() ==> !is_healthy(old(pool)@[i]))
                },
            },
    {
        if self.attempts_left == 0 {
            return DispatchAction::FailGateway;
        }
        match pool.next() {
            Some(addr) => {
                self.attempts_left = self.attempts_left - 1;
                DispatchAction::Connect(addr)
            },
            None => DispatchAction::FailGateway,
        }
    }
}

} // verus!
