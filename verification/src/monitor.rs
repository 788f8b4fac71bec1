//! The health monitor's decision logic. The probes themselves are I/O and run
//! outside the crate, each bounded by its own timeout; every probe outcome is
//! handed back here and folded into the authoritative pool, emitting a
//! `HealthChanged` message whenever the health state flips.

use vstd::prelude::*;
use crate::pool::{Addr, Backend, Health, Pool, addr_index, has_addr, mark_spec, probe_step,
    set_health, unique_addrs};
use crate::sync::{SyncMessage, SyncMessageV};

verus! {

/// Fold one probe outcome into the pool and report the sync message to
/// propagate: exactly when the backend's health flipped, `HealthChanged` with
/// the new state.
pub fn record_probe(pool: &mut Pool, address: Addr, success: bool, threshold: u32, now: u64) -> (r:
    Option<SyncMessage>)
    requires
        old(pool).wf(),
        threshold >= 1,
    ensures
        final(pool).wf(),
        final(pool)@ == mark_spec(old(pool)@, address, success, threshold, now),
        final(pool).cursor_at() == old(pool).cursor_at(),
        match r {
            Some(m) => has_addr(old(pool)@, address) && {
                let b = old(pool)@[addr_index(old(pool)@, address)];
                let nb = probe_step(b, success, threshold, now);
                nb.health != b.health && m@ == SyncMessageV::HealthChanged(address, nb.health)
            },
            None => !has_addr(old(pool)@, address) || {
                let b = old(pool)@[addr_index(old(pool)@, address)];
                probe_step(b, success, threshold, now).health == b.health
            },
        },
{
    match pool.mark_health(address, success, threshold, now) {
        Some(h) => Some(SyncMessage::HealthChanged(address, h)),
        None => None,
    }
}

/// The backend after `k` consecutive failed probes.
pub open spec fn probe_fail_n(b: Backend, k: nat, threshold: u32, now: u64) -> Backend
    decreases k,
{
    if k == 0 {
        b
    } else {
        probe_step(probe_fail_n(b, (k - 1) as nat, threshold, now), false, threshold, now)
    }
}

/// Law: starting from a clean failure counter, consecutive failed probes
/// leave the health state alone until the threshold is reached, and the
/// threshold-th failure turns the backend unhealthy; the counter counts the
/// failures exactly.
pub proof fn lemma_threshold_turns_unhealthy(b: Backend, threshold: u32, now: u64, k: nat)
    requires
        b.consecutive_failures == 0,
        threshold >= 1,
        k <= threshold,
    ensures
        probe_fail_n(b, k, threshold, now).consecutive_failures == k,
        probe_fail_n(b, k, threshold, now).address == b.address,
        k < threshold ==> probe_fail_n(b, k, threshold, now).health == b.health,
        k == threshold ==> probe_fail_n(b, k, threshold, now).health == Health::Unhealthy,
    decreases k,
{
    if k > 0 {
        lemma_threshold_turns_unhealthy(b, threshold, now, (k - 1) as nat);
    }
}

/// Law: one successful probe makes a backend healthy and clears its failure
/// counter, whatever state it was in (single-success recovery).
pub proof fn lemma_single_success_recovers(b: Backend, threshold: u32, now: u64)
    ensures
        probe_step(b, true, threshold, now).health == Health::Healthy,
        probe_step(b, true, threshold, now).consecutive_failures == 0,
        probe_step(b, true, threshold, now).address == b.address,
{
}

/// What replication maintains of a pool: membership, order and health.
/// Probe bookkeeping (failure counters, check stamps) stays manager-side.
pub open spec fn replicated_view(s: Seq<Backend>) -> Seq<(Addr, Health)> {
    s.map_values(|b: Backend| (b.address, b.health))
}

/// Law (probe propagation): folding one probe outcome into the authoritative
/// pool and applying the emitted `HealthChanged` to a replica holding the
/// same contents leave both with the same replicated view; when the health
/// did not flip (so nothing is emitted), the authoritative fold does not
/// change the replicated view at all.
pub proof fn lemma_probe_propagation(
    s: Seq<Backend>,
    a: Addr,
    success: bool,
    threshold: u32,
    now: u64,
)
    requires
        unique_addrs(s),
    ensures
        has_addr(s, a) ==> replicated_view(mark_spec(s, a, success, threshold, now))
            == replicated_view(
            set_health(s, a, probe_step(s[addr_index(s, a)], success, threshold, now).health),
        ),
        !has_addr(s, a) ==> mark_spec(s, a, success, threshold, now) == s,
        has_addr(s, a) && probe_step(s[addr_index(s, a)], success, threshold, now).health == s[
            addr_index(s, a)
        ].health ==> replicated_view(mark_spec(s, a, success, threshold, now))
            == replicated_view(s),
{
    if has_addr(s, a) {
        let i = addr_index(s, a);
        assert(0 <= i < s.len() && s[i].address == a);
        let nb = probe_step(s[i], success, threshold, now);
        let auth = mark_spec(s, a, success, threshold, now);
        let rep = set_health(s, a, nb.health);
        assert(replicated_view(auth) =~= replicated_view(rep));
        if nb.health == s[i].health {
            assert(replicated_view(auth) =~= replicated_view(s));
        }
    }
}

} // verus!
