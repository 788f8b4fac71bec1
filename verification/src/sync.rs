//! The manager-to-worker synchronization protocol: the tagged messages that
//! replicate the authoritative pool, the (idempotent) way a replica applies
//! them, and the convergence laws.

use vstd::prelude::*;
use crate::pool::{
    Addr, Backend, Health, Pool, addr_index, has_addr, remove_addr, set_health, unique_addrs,
};
use crate::config::Config;

verus! {

/// One message on a worker's sync stream.
pub enum SyncMessage {
    /// A worker announces itself with its id (worker to manager).
    Subscribe(u64),
    /// The authoritative pool contents in full; precedes any incremental
    /// message on a stream, and restarts a stale replica.
    FullPoolSnapshot(Vec<Backend>),
    /// A backend entered the authoritative pool.
    BackendAdded(Backend),
    /// The backend with this address left the authoritative pool.
    BackendRemoved(Addr),
    /// The health of the backend with this address changed.
    HealthChanged(Addr, Health),
    /// The configuration changed.
    ConfigUpdate(Config),
}

/// The mathematical form of a message: the snapshot as a sequence.
pub enum SyncMessageV {
    Subscribe(u64),
    FullPoolSnapshot(Seq<Backend>),
    BackendAdded(Backend),
    BackendRemoved(Addr),
    HealthChanged(Addr, Health),
    ConfigUpdate(Config),
}

impl View for SyncMessage {
    type V = SyncMessageV;

    open spec fn view(&self) -> SyncMessageV {
        match *self {
            SyncMessage::Subscribe(id) => SyncMessageV::Subscribe(id),
            SyncMessage::FullPoolSnapshot(ref v) => SyncMessageV::FullPoolSnapshot(v@),
            SyncMessage::BackendAdded(b) => SyncMessageV::BackendAdded(b),
            SyncMessage::BackendRemoved(a) => SyncMessageV::BackendRemoved(a),
            SyncMessage::HealthChanged(a, h) => SyncMessageV::HealthChanged(a, h),
            SyncMessage::ConfigUpdate(c) => SyncMessageV::ConfigUpdate(c),
        }
    }
}

/// A snapshot a replica may trust: its addresses are unique.
pub open spec fn msg_wf(m: SyncMessageV) -> bool {
    m matches SyncMessageV::FullPoolSnapshot(bs) ==> unique_addrs(bs)
}

/// What one message does to pool contents. Incremental messages are
/// idempotent: re-adding a present backend, re-removing an absent one, or
/// re-applying a current health state changes nothing.
pub open spec fn apply_msg_spec(s: Seq<Backend>, m: SyncMessageV) -> Seq<Backend> {
    match m {
        SyncMessageV::Subscribe(_) => s,
        SyncMessageV::FullPoolSnapshot(bs) => bs,
        SyncMessageV::BackendAdded(b) => if has_addr(s, b.address) {
            s
        } else {
            s.push(b)
        },
        SyncMessageV::BackendRemoved(a) => remove_addr(s, a),
        SyncMessageV::HealthChanged(a, h) => set_health(s, a, h),
        SyncMessageV::ConfigUpdate(_) => s,
    }
}

/// A whole stream of messages folded into pool contents, oldest first.
pub open spec fn apply_all(s: Seq<Backend>, msgs: Seq<SyncMessageV>) -> Seq<Backend>
    decreases msgs.len(),
{
    if msgs.len() == 0 {
        s
    } else {
        apply_all(apply_msg_spec(s, msgs[0]), msgs.drop_first())
    }
}

/// A deep copy of backend contents (backends are plain values).
pub fn clone_backends(v: &Vec<Backend>) -> (r: Vec<Backend>)
    ensures
        r@ == v@,
{
    let n = v.len();
    let mut r: Vec<Backend> = Vec::new();
    let mut i: usize = 0;
    while i < n
        invariant
            i <= n,
            n == v@.len(),
            r@ == v@.subrange(0, i as int),
        decreases n - i,
    {
        r.push(v[i]);
        proof {
            assert(r@ =~= v@.subrange(0, i + 1 as int));
        }
        i = i + 1;
    }
    proof {
        assert(r@ =~= v@);
    }
    r
}

/// A copy of a message, for fan-out onto several worker queues.
pub fn clone_message(m: &SyncMessage) -> (r: SyncMessage)
    ensures
        r@ == m@,
{
    match m {
        SyncMessage::Subscribe(id) => SyncMessage::Subscribe(*id),
        SyncMessage::FullPoolSnapshot(v) => SyncMessage::FullPoolSnapshot(clone_backends(v)),
        SyncMessage::BackendAdded(b) => SyncMessage::BackendAdded(*b),
        SyncMessage::BackendRemoved(a) => SyncMessage::BackendRemoved(*a),
        SyncMessage::HealthChanged(a, h) => SyncMessage::HealthChanged(*a, *h),
        SyncMessage::ConfigUpdate(c) => SyncMessage::ConfigUpdate(*c),
    }
}

/// Apply one received message to a replica pool, in receipt order, exactly as
/// [`apply_msg_spec`] says. `Subscribe` and `ConfigUpdate` do not touch pool
/// contents (configuration is handled by the replica around the pool).
pub fn apply_message(pool: &mut Pool, msg: &SyncMessage)
    requires
        old(pool).wf(),
        msg_wf(msg@),
    ensures
        final(pool).wf(),
        final(pool)@ == apply_msg_spec(old(pool)@, msg@),
{
    match msg {
        SyncMessage::Subscribe(_) => {},
        SyncMessage::FullPoolSnapshot(v) => {
            let c = clone_backends(v);
            pool.replace_all(c);
        },
        SyncMessage::BackendAdded(b) => {
            pool.add_backend(*b);
        },
        SyncMessage::BackendRemoved(a) => {
            pool.remove(*a);
        },
        SyncMessage::HealthChanged(a, h) => {
            pool.set_backend_health(*a, *h);
        },
        SyncMessage::ConfigUpdate(_) => {},
    }
}

/// Applying a message keeps addresses unique.
pub proof fn lemma_apply_keeps_unique(s: Seq<Backend>, m: SyncMessageV)
    requires
        unique_addrs(s),
        msg_wf(m),
    ensures
        unique_addrs(apply_msg_spec(s, m)),
{
    match m {
        SyncMessageV::BackendAdded(b) => {
            if !has_addr(s, b.address) {
                let r = s.push(b);
                assert forall|i: int, j: int| 0 <= i < j < r.len() implies r[i].address
                    != r[j].address by {
                    if j == s.len() {
                        assert(r[i] == s[i]);
                    }
                }
            }
        },
        SyncMessageV::BackendRemoved(a) => {
            if has_addr(s, a) {
                let i = addr_index(s, a);
                assert(0 <= i < s.len() && s[i].address == a);
                crate::pool::lemma_remove_keeps_unique_addrs(s, i);
            }
        },
        SyncMessageV::HealthChanged(a, h) => {
            if has_addr(s, a) {
                let i = addr_index(s, a);
                let r = set_health(s, a, h);
                assert forall|x: int, y: int| 0 <= x < y < r.len() implies r[x].address
                    != r[y].address by {
                    assert(s[x].address != s[y].address);
                }
            }
        },
        _ => {},
    }
}

/// Law: applying any incremental message twice in a row is the same as
/// applying it once (idempotent apply).
pub proof fn lemma_apply_idempotent(s: Seq<Backend>, m: SyncMessageV)
    requires
        unique_addrs(s),
        msg_wf(m),
    ensures
        apply_msg_spec(apply_msg_spec(s, m), m) == apply_msg_spec(s, m),
{
    let s1 = apply_msg_spec(s, m);
    lemma_apply_keeps_unique(s, m);
    match m {
        SyncMessageV::BackendAdded(b) => {
            if !has_addr(s, b.address) {
                assert(s1[s.len() as int].address == b.address);
                assert(has_addr(s1, b.address));
            }
        },
        SyncMessageV::BackendRemoved(a) => {
            if has_addr(s, a) {
                let i = addr_index(s, a);
                assert(0 <= i < s.len() && s[i].address == a);
                crate::pool::lemma_remove_addr_membership(s, i, a);
                assert(!has_addr(s1, a));
            }
        },
        SyncMessageV::HealthChanged(a, h) => {
            if has_addr(s, a) {
                let i = addr_index(s, a);
                assert(0 <= i < s.len() && s[i].address == a);
                assert(s1[i].address == a);
                crate::pool::lemma_addr_index_agrees(s1, a, i);
                assert(s1[i].health == h);
                let s2 = apply_msg_spec(s1, m);
                assert(s2 =~= s1);
            }
        },
        _ => {},
    }
}

/// Law (sync convergence): a full snapshot of the authoritative contents,
/// followed by the same ordered incremental messages the authoritative pool
/// saw, brings a replica in any prior state to the authoritative contents.
pub proof fn lemma_sync_convergence(
    replica: Seq<Backend>,
    auth: Seq<Backend>,
    msgs: Seq<SyncMessageV>,
)
    ensures
        apply_all(apply_msg_spec(replica, SyncMessageV::FullPoolSnapshot(auth)), msgs)
            == apply_all(auth, msgs),
{
}

} // verus!
