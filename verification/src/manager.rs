//! The manager's side: the authoritative pool, the per-worker handles with
//! their bounded outbound sync queues, the bounded-retry supervision policy,
//! and the admin operations (add, remove, status). Spawning processes and
//! moving bytes happen outside the crate; every decision is taken here.

use vstd::prelude::*;
use crate::pool::{Addr, Backend, Pool, has_addr, initial_backend, mark_spec, addr_index,
    probe_step, unique_addrs};
use crate::sync::{SyncMessage, SyncMessageV, apply_msg_spec, clone_message};
use crate::config::Config;
use crate::monitor::record_probe;

verus! {

/// Manager-side bookkeeping for one worker process.
pub struct WorkerHandle {
    /// Identifier kept across respawns, for observability.
    pub id: u64,
    /// Whether the process is believed running.
    pub alive: bool,
    /// Respawns consumed under the bounded-retry policy.
    pub restarts: u32,
    /// Set when the worker's queue overflowed: it must resync from a fresh
    /// snapshot before trusting incremental messages again.
    pub needs_resync: bool,
    pub queue: Vec<SyncMessage>,
}

impl WorkerHandle {
    /// The outbound sync queue, oldest first.
    pub open spec fn queue_v(self) -> Seq<SyncMessageV> {
        self.queue@.map_values(|m: SyncMessage| m@)
    }
}

/// What enqueueing does to one worker's queue: appended while below the
/// bound; on overflow the queue is truncated and the worker marked for a
/// forced resync rather than growing memory without bound.
pub open spec fn enqueue_spec(q: Seq<SyncMessageV>, resync: bool, m: SyncMessageV, max: int) -> (
    Seq<SyncMessageV>,
    bool,
) {
    if q.len() < max {
        (q.push(m), resync)
    } else {
        (Seq::<SyncMessageV>::empty(), true)
    }
}

/// One message enqueued for one worker: the queue changes per
/// [`enqueue_spec`], everything else about the handle is kept.
pub open spec fn handle_enqueued(
    pre: WorkerHandle,
    post: WorkerHandle,
    m: SyncMessageV,
    max: int,
) -> bool {
    &&& post.id == pre.id
    &&& post.alive == pre.alive
    &&& post.restarts == pre.restarts
    &&& (post.queue_v(), post.needs_resync) == enqueue_spec(pre.queue_v(), pre.needs_resync, m, max)
}

/// One message fanned out to every worker: each handle per
/// [`handle_enqueued`].
pub open spec fn broadcast_post(
    pre: Seq<WorkerHandle>,
    post: Seq<WorkerHandle>,
    m: SyncMessageV,
    max: int,
) -> bool {
    &&& post.len() == pre.len()
    &&& forall|i: int| 0 <= i < pre.len() ==> #[trigger] handle_enqueued(pre[i], post[i], m, max)
}

/// What a probe outcome does to the worker queues: when it flips the probed
/// backend's health, the matching `HealthChanged` is fanned out to every
/// worker; otherwise the handles are untouched.
pub open spec fn probe_fanout_post(
    pre: Manager,
    post: Manager,
    address: Addr,
    success: bool,
    now: u64,
    max_queue: int,
) -> bool {
    let s = pre.pool_state();
    let threshold = pre.cfg().failure_threshold;
    if has_addr(s, address) && probe_step(s[addr_index(s, address)], success, threshold, now).health
        != s[addr_index(s, address)].health {
        broadcast_post(
            pre.workers_v(),
            post.workers_v(),
            SyncMessageV::HealthChanged(
                address,
                probe_step(s[addr_index(s, address)], success, threshold, now).health,
            ),
            max_queue,
        )
    } else {
        post.workers_v() == pre.workers_v()
    }
}

/// The manager: the one authoritative pool, its workers, the configuration.
pub struct Manager {
    pool: Pool,
    workers: Vec<WorkerHandle>,
    config: Config,
}

impl Manager {
    /// The authoritative pool contents.
    pub closed spec fn pool_state(self) -> Seq<Backend> {
        self.pool@
    }

    /// The worker handles.
    pub closed spec fn workers_v(self) -> Seq<WorkerHandle> {
        self.workers@
    }

    /// The configuration this manager runs under.
    pub closed spec fn cfg(self) -> Config {
        self.config
    }

    /// The inner pool keeps its own invariant.
    pub closed spec fn pool_wf(self) -> bool {
        self.pool.wf()
    }

    /// The authoritative pool keeps its invariant (in particular, unique
    /// addresses) and the configuration is runnable.
    pub open spec fn wf(self) -> bool {
        &&& self.pool_wf()
        &&& unique_addrs(self.pool_state())
        &&& self.cfg().wf()
    }

    /// A manager with an empty authoritative pool and no workers yet.
    pub fn new(config: Config) -> (m: Manager)
        requires
            config.wf(),
        ensures
            m.wf(),
            m.pool_state() =~= Seq::<Backend>::empty(),
            m.workers_v() =~= Seq::<WorkerHandle>::empty(),
            m.cfg() == config,
    {
        Manager { pool: Pool::new(), workers: Vec::new(), config }
    }

    /// How many worker slots exist.
    pub fn worker_count(&self) -> (n: usize)
        ensures
            n == self.workers_v().len(),
    {
        self.workers.len()
    }

    /// Register a newly spawned worker under `id`; returns its slot index.
    pub fn register_worker(&mut self, id: u64) -> (idx: usize)
        requires
            old(self).wf(),
        ensures
            final(self).wf(),
            final(self).pool_state() == old(self).pool_state(),
            final(self).cfg() == old(self).cfg(),
            idx == old(self).workers_v().len(),
            final(self).workers_v().len() == old(self).workers_v().len() + 1,
            forall|i: int| 0 <= i < old(self).workers_v().len()
                ==> final(self).workers_v()[i] == old(self).workers_v()[i],
            final(self).workers_v()[idx as int].id == id,
            final(self).workers_v()[idx as int].alive,
            final(self).workers_v()[idx as int].restarts == 0,
            !final(self).workers_v()[idx as int].needs_resync,
            final(self).workers_v()[idx as int].queue_v() =~= Seq::<SyncMessageV>::empty(),
    {
        let idx = self.workers.len();
        self.workers.push(
            WorkerHandle { id, alive: true, restarts: 0, needs_resync: false, queue: Vec::new() },
        );
        idx
    }

    /// Whether the worker in this slot is believed running.
    pub fn worker_alive(&self, widx: usize) -> (b: bool)
        requires
            widx < self.workers_v().len(),
        ensures
            b == self.workers_v()[widx as int].alive,
    {
        self.workers[widx].alive
    }

    /// Respawns this slot has consumed.
    pub fn worker_restarts(&self, widx: usize) -> (n: u32)
        requires
            widx < self.workers_v().len(),
        ensures
            n == self.workers_v()[widx as int].restarts,
    {
        self.workers[widx].restarts
    }

    /// Whether this worker's queue overflowed and it must resync.
    pub fn worker_needs_resync(&self, widx: usize) -> (b: bool)
        requires
            widx < self.workers_v().len(),
        ensures
            b == self.workers_v()[widx as int].needs_resync,
    {
        self.workers[widx].needs_resync
    }

    /// How many messages wait in this worker's queue.
    pub fn worker_queue_len(&self, widx: usize) -> (n: usize)
        requires
            widx < self.workers_v().len(),
        ensures
            n == self.workers_v()[widx as int].queue_v().len(),
    {
        self.workers[widx].queue.len()
    }

    /// The admin status query: an immediate copy of the authoritative pool.
    pub fn admin_status(&self) -> (v: Vec<Backend>)
        ensures
            v@ == self.pool_state(),
    {
        self.pool.snapshot()
    }

    /// Fan one message out to every worker's queue, bounded by `max_queue`.
    fn broadcast(&mut self, msg: SyncMessage, max_queue: usize)
        requires
            old(self).wf(),
        ensures
            final(self).wf(),
            final(self).pool_state() == old(self).pool_state(),
            final(self).cfg() == old(self).cfg(),
            broadcast_post(
                old(self).workers_v(),
                final(self).workers_v(),
                msg@,
                max_queue as int,
            ),
    {
        let n = self.workers.len();
        let mut i: usize = 0;
        while i < n
            invariant
                i <= n,
                old(self).wf(),
                self.pool == old(self).pool,
                self.cfg() == old(self).cfg(),
                n == self.workers_v().len(),
                n == old(self).workers_v().len(),
                forall|k: int| i <= k < n ==> self.workers_v()[k] == old(self).workers_v()[k],
                forall|k: int| 0 <= k < i ==> #[trigger] handle_enqueued(
                    old(self).workers_v()[k],
                    self.workers_v()[k],
                    msg@,
                    max_queue as int,
                ),
            decreases n - i,
        {
            let ghost pre_loop = self.workers@;
            let ghost prew = self.workers@[i as int];
            if self.workers[i].queue.len() < max_queue {
                let m = clone_message(&msg);
                let w = &mut self.workers[i];
                w.queue.push(m);
                proof {
                    assert(self.workers@[i as int].queue_v() =~= prew.queue_v().push(msg@));
                }
            } else {
                let w = &mut self.workers[i];
                w.queue.clear();
                w.needs_resync = true;
                proof {
                    assert(self.workers@[i as int].queue_v() =~= Seq::<SyncMessageV>::empty());
                }
            }
            proof {
                assert(handle_enqueued(
                    prew,
                    self.workers@[i as int],
                    msg@,
                    max_queue as int,
                ));
                assert(forall|k: int| 0 <= k < n && k != i ==> self.workers@[k] == pre_loop[k]);
            }
            i = i + 1;
        }
    }

    /// Admin add: apply to the authoritative pool first, then enqueue the
    /// change for every worker. Idempotent: a present address changes nothing
    /// and sends nothing. Returns whether the pool changed.
    pub fn admin_add(&mut self, address: Addr, max_queue: usize) -> (added: bool)
        requires
            old(self).wf(),
        ensures
            final(self).wf(),
            final(self).cfg() == old(self).cfg(),
            added == !has_addr(old(self).pool_state(), address),
            final(self).pool_state() == apply_msg_spec(
                old(self).pool_state(),
                SyncMessageV::BackendAdded(initial_backend(address)),
            ),
            if added {
                broadcast_post(
                    old(self).workers_v(),
                    final(self).workers_v(),
                    SyncMessageV::BackendAdded(initial_backend(address)),
                    max_queue as int,
                )
            } else {
                final(self).workers_v() == old(self).workers_v()
            },
    {
        let added = self.pool.add(address);
        if added {
            self.broadcast(SyncMessage::BackendAdded(Backend::new(address)), max_queue);
        }
        added
    }

    /// Admin remove: apply to the authoritative pool first, then enqueue the
    /// change for every worker. Idempotent: an absent address changes nothing
    /// and sends nothing. Returns whether the pool changed.
    pub fn admin_remove(&mut self, address: Addr, max_queue: usize) -> (removed: bool)
        requires
            old(self).wf(),
        ensures
            final(self).wf(),
            final(self).cfg() == old(self).cfg(),
            removed == has_addr(old(self).pool_state(), address),
            final(self).pool_state() == apply_msg_spec(
                old(self).pool_state(),
                SyncMessageV::BackendRemoved(address),
            ),
            if removed {
                broadcast_post(
                    old(self).workers_v(),
                    final(self).workers_v(),
                    SyncMessageV::BackendRemoved(address),
                    max_queue as int,
                )
            } else {
                final(self).workers_v() == old(self).workers_v()
            },
    {
        let removed = self.pool.remove(address);
        if removed {
            self.broadcast(SyncMessage::BackendRemoved(address), max_queue);
        }
        removed
    }

    /// Fold one probe outcome into the authoritative pool (the health
    /// monitor's policy) and propagate a `HealthChanged` message exactly when
    /// the health flipped.
    pub fn apply_probe(&mut self, address: Addr, success: bool, now: u64, max_queue: usize)
        requires
            old(self).wf(),
        ensures
            final(self).wf(),
            final(self).cfg() == old(self).cfg(),
            final(self).pool_state() == mark_spec(
                old(self).pool_state(),
                address,
                success,
                old(self).cfg().failure_threshold,
                now,
            ),
            probe_fanout_post(*old(self), *final(self), address, success, now, max_queue as int),
    {
        let threshold = self.config.failure_threshold;
        match record_probe(&mut self.pool, address, success, threshold, now) {
            Some(msg) => {
                self.broadcast(msg, max_queue);
            },
            None => {},
        }
    }

    /// The reply to a worker's `Subscribe`: a fresh full snapshot; the
    /// worker's queue restarts empty and its resync debt is cleared.
    pub fn subscribe_reply(&mut self, widx: usize) -> (snap: SyncMessage)
        requires
            old(self).wf(),
            widx < old(self).workers_v().len(),
        ensures
            final(self).wf(),
            final(self).pool_state() == old(self).pool_state(),
            final(self).cfg() == old(self).cfg(),
            snap@ == SyncMessageV::FullPoolSnapshot(old(self).pool_state()),
            final(self).workers_v().len() == old(self).workers_v().len(),
            forall|i: int| 0 <= i < old(self).workers_v().len() && i != widx
                ==> final(self).workers_v()[i] == old(self).workers_v()[i],
            final(self).workers_v()[widx as int].id == old(self).workers_v()[widx as int].id,
            final(self).workers_v()[widx as int].alive == old(self).workers_v()[
                widx as int
            ].alive,
            final(self).workers_v()[widx as int].restarts == old(self).workers_v()[
                widx as int
            ].restarts,
            !final(self).workers_v()[widx as int].needs_resync,
            final(self).workers_v()[widx as int].queue_v() =~= Seq::<SyncMessageV>::empty(),
    {
        let snap = SyncMessage::FullPoolSnapshot(self.pool.snapshot());
        let w = &mut self.workers[widx];
        w.queue.clear();
        w.needs_resync = false;
        snap
    }

    /// Hand out everything queued for one worker, oldest first, emptying the
    /// queue; the surrounding loop sends the messages on that worker's stream.
    pub fn take_outbox(&mut self, widx: usize) -> (out: Vec<SyncMessage>)
        requires
            old(self).wf(),
            widx < old(self).workers_v().len(),
        ensures
            final(self).wf(),
            final(self).pool_state() == old(self).pool_state(),
            final(self).cfg() == old(self).cfg(),
            out@.map_values(|m: SyncMessage| m@) == old(self).workers_v()[
                widx as int
            ].queue_v(),
            final(self).workers_v().len() == old(self).workers_v().len(),
            forall|i: int| 0 <= i < old(self).workers_v().len() && i != widx
                ==> final(self).workers_v()[i] == old(self).workers_v()[i],
            final(self).workers_v()[widx as int].id == old(self).workers_v()[widx as int].id,
            final(self).workers_v()[widx as int].alive == old(self).workers_v()[
                widx as int
            ].alive,
            final(self).workers_v()[widx as int].restarts == old(self).workers_v()[
                widx as int
            ].restarts,
            final(self).workers_v()[widx as int].needs_resync == old(self).workers_v()[
                widx as int
            ].needs_resync,
            final(self).workers_v()[widx as int].queue_v() =~= Seq::<SyncMessageV>::empty(),
    {
        let w = &mut self.workers[widx];
        let mut out: Vec<SyncMessage> = Vec::new();
        core::mem::swap(&mut out, &mut w.queue);
        out
    }

    /// Supervision: a worker exited unexpectedly. Under the bounded-retry
    /// policy, decide whether to respawn it (consuming one retry) or leave
    /// the slot unfilled — reduced capacity, never an unbounded loop.
    pub fn worker_exited(&mut self, widx: usize, max_restarts: u32) -> (respawn: bool)
        requires
            old(self).wf(),
            widx < old(self).workers_v().len(),
        ensures
            final(self).wf(),
            final(self).pool_state() == old(self).pool_state(),
            final(self).cfg() == old(self).cfg(),
            final(self).workers_v().len() == old(self).workers_v().len(),
            forall|i: int| 0 <= i < old(self).workers_v().len() && i != widx
                ==> final(self).workers_v()[i] == old(self).workers_v()[i],
            respawn == (old(self).workers_v()[widx as int].restarts < max_restarts),
            final(self).workers_v()[widx as int].id == old(self).workers_v()[widx as int].id,
            final(self).workers_v()[widx as int].alive == respawn,
            final(self).workers_v()[widx as int].restarts == if respawn {
                old(self).workers_v()[widx as int].restarts + 1
            } else {
                old(self).workers_v()[widx as int].restarts as int
            },
            final(self).workers_v()[widx as int].queue_v() == old(self).workers_v()[
                widx as int
            ].queue_v(),
    {
        let w = &mut self.workers[widx];
        if w.restarts < max_restarts {
            w.restarts = w.restarts + 1;
            w.alive = true;
            true
        } else {
            w.alive = false;
            false
        }
    }
}

} // verus!
