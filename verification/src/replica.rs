//! The worker's side: a replica pool fed only by received sync messages,
//! never by local events. When the control connection drops, the replica is
//! stale but keeps serving selections (bounded staleness, never block); a
//! fresh `FullPoolSnapshot` after re-subscribing makes it current again.

use vstd::prelude::*;
use crate::pool::{Addr, Backend, Pool, is_healthy};
use crate::dispatch::{DispatchAction, Dispatcher};
use crate::sync::{SyncMessage, SyncMessageV, apply_message, apply_msg_spec, msg_wf};
use crate::config::Config;

verus! {

/// A worker's local replica of the authoritative pool, with its own cursor
/// and the configuration it last received.
pub struct Replica {
    pool: Pool,
    config: Config,
    synced: bool,
}

impl Replica {
    /// The replicated pool contents.
    pub closed spec fn pool_state(self) -> Seq<Backend> {
        self.pool@
    }

    /// The replica's own selection cursor.
    pub closed spec fn cursor_at(self) -> int {
        self.pool.cursor_at()
    }

    /// The index the next selection returns, if any.
    pub closed spec fn spec_next(self) -> Option<int> {
        self.pool.spec_next()
    }

    /// The configuration the replica last received.
    pub closed spec fn cfg(self) -> Config {
        self.config
    }

    /// Whether the replica is current: a full snapshot has arrived on the
    /// present connection. While false the replica is stale — served, not
    /// trusted as current.
    pub closed spec fn is_synced(self) -> bool {
        self.synced
    }

    /// The inner pool keeps its invariant.
    pub closed spec fn wf(self) -> bool {
        self.pool.wf()
    }

    /// A replica before its first snapshot: empty and stale.
    pub fn new(config: Config) -> (r: Replica)
        ensures
            r.wf(),
            r.pool_state() =~= Seq::<Backend>::empty(),
            !r.is_synced(),
            r.cfg() == config,
    {
        Replica { pool: Pool::new(), config, synced: false }
    }

    /// Whether the replica is current (see [`Replica::is_synced`]).
    pub fn synced(&self) -> (b: bool)
        ensures
            b == self.is_synced(),
    {
        self.synced
    }

    /// The replica contents, for status or tests.
    pub fn contents(&self) -> (v: Vec<Backend>)
        ensures
            v@ == self.pool_state(),
    {
        self.pool.snapshot()
    }

    /// Apply one received message in receipt order: pool contents exactly per
    /// [`apply_msg_spec`]; a full snapshot marks the replica current; a
    /// config update replaces the configuration; replicas are never mutated
    /// by anything else.
    pub fn on_message(&mut self, msg: &SyncMessage)
        requires
            old(self).wf(),
            msg_wf(msg@),
        ensures
            final(self).wf(),
            final(self).pool_state() == apply_msg_spec(old(self).pool_state(), msg@),
            final(self).is_synced() == if msg@ is FullPoolSnapshot {
                true
            } else {
                old(self).is_synced()
            },
            final(self).cfg() == (match msg@ {
                SyncMessageV::ConfigUpdate(c) => c,
                _ => old(self).cfg(),
            }),
    {
        match msg {
            SyncMessage::FullPoolSnapshot(_) => {
                self.synced = true;
            },
            SyncMessage::ConfigUpdate(c) => {
                self.config = *c;
            },
            _ => {},
        }
        apply_message(&mut self.pool, msg);
    }

    /// The control connection dropped: the replica is stale from here on,
    /// but nothing of it is discarded — it keeps serving selections until a
    /// fresh snapshot arrives after re-subscribing.
    pub fn on_connection_lost(&mut self)
        ensures
            final(self).wf() == old(self).wf(),
            final(self).pool_state() == old(self).pool_state(),
            final(self).cursor_at() == old(self).cursor_at(),
            final(self).cfg() == old(self).cfg(),
            !final(self).is_synced(),
    {
        self.synced = false;
    }

    /// One dispatch decision against the replica (see
    /// [`Dispatcher::next_action`]): connect to the next healthy backend
    /// while the attempt budget lasts, else fail the client connection.
    pub fn dispatch(&mut self, d: &mut Dispatcher) -> (a: DispatchAction)
        requires
            old(self).wf(),
        ensures
            final(self).wf(),
            final(self).pool_state() == old(self).pool_state(),
            final(self).is_synced() == old(self).is_synced(),
            final(self).cfg() == old(self).cfg(),
            match a {
                DispatchAction::Connect(target) => {
                    &&& old(d).attempts() > 0
                    &&& final(d).attempts() == old(d).attempts() - 1
                    &&& exists|j: int|
                        0 <= j < old(self).pool_state().len() && is_healthy(
                            #[trigger] old(self).pool_state()[j],
                        ) && target == old(self).pool_state()[j].address
                },
                DispatchAction::FailGateway => {
                    &&& final(d).attempts() == old(d).attempts()
                    &&& (old(d).attempts() == 0 || forall|i: int|
                        0 <= i < old(self).pool_state().len() ==> !is_healthy(
                            old(self).pool_state()[i],
                        ))
                },
            },
    {
        let ghost pre = *self;
        let a = d.next_action(&mut self.pool);
        proof {
            match a {
                DispatchAction::Connect(target) => match pre.pool.spec_next() {
                    Some(j) => {
                        assert(0 <= j < pre.pool_state().len() && is_healthy(pre.pool_state()[j])
                            && target == pre.pool_state()[j].address);
                    },
                    None => (),
                },
                DispatchAction::FailGateway => (),
            }
        }
        a
    }

    /// Round-robin selection against the replica, synced or stale: the first
    /// healthy backend at or after the cursor, or `None` when none is
    /// healthy. Never blocks on the sync protocol.
    pub fn select_backend(&mut self) -> (r: Option<Addr>)
        requires
            old(self).wf(),
        ensures
            final(self).wf(),
            final(self).pool_state() == old(self).pool_state(),
            final(self).is_synced() == old(self).is_synced(),
            final(self).cfg() == old(self).cfg(),
            match old(self).spec_next() {
                Some(j) => 0 <= j < old(self).pool_state().len() && is_healthy(
                    old(self).pool_state()[j],
                ) && r == Some(old(self).pool_state()[j].address),
                None => r is None,
            },
            (r is None) <==> (forall|i: int|
                0 <= i < old(self).pool_state().len() ==> !is_healthy(old(self).pool_state()[i])),
    {
        self.pool.next()
    }
}

} // verus!
