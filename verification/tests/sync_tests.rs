use weldr::pool::{Addr, Backend, Health, Pool};
use weldr::sync::{SyncMessage, apply_message, clone_message};
use weldr::config::Config;
use weldr::manager::Manager;
use weldr::replica::Replica;

fn addr(n: u16) -> Addr {
    Addr { ip: 0x0A000000 + n as u32, port: 8000 + n }
}

fn healthy_backend(a: Addr) -> Backend {
    Backend { address: a, health: Health::Healthy, consecutive_failures: 0, last_checked: 1 }
}

const QMAX: usize = 64;

#[test]
fn snapshot_then_increments_converge() {
    // Authoritative side.
    let mut auth = Pool::new();
    auth.add(addr(1));
    auth.add(addr(2));
    // Replica starts from an unrelated state.
    let mut rep = Pool::new();
    rep.add(addr(9));
    apply_message(&mut rep, &SyncMessage::FullPoolSnapshot(auth.snapshot()));
    // The same ordered changes on both sides.
    auth.add(addr(3));
    apply_message(&mut rep, &SyncMessage::BackendAdded(Backend::new(addr(3))));
    auth.mark_health(addr(1), true, 3, 5);
    apply_message(&mut rep, &SyncMessage::HealthChanged(addr(1), Health::Healthy));
    auth.remove(addr(2));
    apply_message(&mut rep, &SyncMessage::BackendRemoved(addr(2)));
    // The replicated state is what selection depends on: membership, order
    // and health. Probe bookkeeping (counters, stamps) stays manager-side;
    // a HealthChanged message carries only the address and the new health.
    let view = |p: &Pool| -> Vec<(Addr, Health)> {
        p.snapshot().iter().map(|b| (b.address, b.health)).collect()
    };
    assert_eq!(view(&rep), view(&auth));
}

#[test]
fn incremental_apply_is_idempotent() {
    let mut p = Pool::new();
    let added = SyncMessage::BackendAdded(healthy_backend(addr(1)));
    apply_message(&mut p, &added);
    let once = p.snapshot();
    apply_message(&mut p, &added);
    assert_eq!(p.snapshot(), once);

    let health = SyncMessage::HealthChanged(addr(1), Health::Unhealthy);
    apply_message(&mut p, &health);
    let once = p.snapshot();
    apply_message(&mut p, &health);
    assert_eq!(p.snapshot(), once);

    let removed = SyncMessage::BackendRemoved(addr(1));
    apply_message(&mut p, &removed);
    let once = p.snapshot();
    apply_message(&mut p, &removed);
    assert_eq!(p.snapshot(), once);
}

#[test]
fn clone_message_copies_snapshot() {
    let m = SyncMessage::FullPoolSnapshot(vec![healthy_backend(addr(1)), Backend::new(addr(2))]);
    let c = clone_message(&m);
    match (m, c) {
        (SyncMessage::FullPoolSnapshot(a), SyncMessage::FullPoolSnapshot(b)) => assert_eq!(a, b),
        _ => panic!("clone changed the variant"),
    }
}

#[test]
fn admin_remove_propagates_and_is_never_selected() {
    let mut mgr = Manager::new(Config::default());
    let w = mgr.register_worker(0);
    for n in 1..4 {
        mgr.admin_add(addr(n), QMAX);
        mgr.apply_probe(addr(n), true, 1, QMAX);
    }
    // A subscribed worker builds its replica from the snapshot.
    let mut rep = Replica::new(Config::default());
    let snap = mgr.subscribe_reply(w);
    rep.on_message(&snap);
    assert!(rep.synced());
    // The snapshot already holds everything queued before subscribing.
    // Now remove B and propagate the change.
    mgr.admin_remove(addr(2), QMAX);
    for msg in mgr.take_outbox(w) {
        rep.on_message(&msg);
    }
    let contents = rep.contents();
    assert!(contents.iter().all(|b| b.address != addr(2)));
    assert_eq!(contents.len(), 2);
    for _ in 0..10 {
        let got = rep.select_backend().unwrap();
        assert_ne!(got, addr(2));
    }
}

#[test]
fn failing_probes_reroute_and_one_success_restores() {
    let mut mgr = Manager::new(Config::default());
    let w = mgr.register_worker(0);
    for n in 1..4 {
        mgr.admin_add(addr(n), QMAX);
        mgr.apply_probe(addr(n), true, 1, QMAX);
    }
    let mut rep = Replica::new(Config::default());
    let snap = mgr.subscribe_reply(w);
    rep.on_message(&snap);
    // Backend A fails probes for failure_threshold (3) consecutive cycles.
    for t in 0..3 {
        mgr.apply_probe(addr(1), false, 10 + t, QMAX);
    }
    for msg in mgr.take_outbox(w) {
        rep.on_message(&msg);
    }
    // The dispatcher now routes only to B and C.
    for _ in 0..6 {
        let got = rep.select_backend().unwrap();
        assert!(got == addr(2) || got == addr(3));
    }
    // One success restores A to the rotation.
    mgr.apply_probe(addr(1), true, 20, QMAX);
    for msg in mgr.take_outbox(w) {
        rep.on_message(&msg);
    }
    let mut saw_a = false;
    for _ in 0..6 {
        if rep.select_backend().unwrap() == addr(1) {
            saw_a = true;
        }
    }
    assert!(saw_a);
}

#[test]
fn stale_replica_serves_then_resyncs() {
    let mut mgr = Manager::new(Config::default());
    let w = mgr.register_worker(0);
    for n in 1..3 {
        mgr.admin_add(addr(n), QMAX);
        mgr.apply_probe(addr(n), true, 1, QMAX);
    }
    let mut rep = Replica::new(Config::default());
    let snap = mgr.subscribe_reply(w);
    rep.on_message(&snap);
    // The connection drops mid-stream: the replica is stale but keeps serving
    // from its last known contents.
    rep.on_connection_lost();
    assert!(!rep.synced());
    assert!(rep.select_backend().is_some());
    // The authoritative pool moves on meanwhile.
    mgr.admin_add(addr(3), QMAX);
    mgr.apply_probe(addr(3), true, 2, QMAX);
    // Reconnect: re-subscribe, get a fresh snapshot, match the authority.
    let snap = mgr.subscribe_reply(w);
    rep.on_message(&snap);
    assert!(rep.synced());
    assert_eq!(rep.contents(), mgr.admin_status());
}

#[test]
fn status_reflects_authoritative_pool_immediately() {
    let mut mgr = Manager::new(Config::default());
    assert!(mgr.admin_add(addr(1), QMAX));
    assert!(!mgr.admin_add(addr(1), QMAX));
    let status = mgr.admin_status();
    assert_eq!(status.len(), 1);
    assert_eq!(status[0].address, addr(1));
    assert_eq!(status[0].health, Health::Unknown);
    assert!(mgr.admin_remove(addr(1), QMAX));
    assert!(!mgr.admin_remove(addr(1), QMAX));
    assert_eq!(mgr.admin_status().len(), 0);
}

#[test]
fn queue_overflow_forces_resync() {
    let mut mgr = Manager::new(Config::default());
    let w = mgr.register_worker(0);
    // Queue bound of 1: the first change queues, the second overflows.
    mgr.admin_add(addr(1), 1);
    assert_eq!(mgr.worker_queue_len(w), 1);
    assert!(!mgr.worker_needs_resync(w));
    mgr.admin_add(addr(2), 1);
    assert_eq!(mgr.worker_queue_len(w), 0);
    assert!(mgr.worker_needs_resync(w));
    // A fresh subscribe clears the debt.
    let _snap = mgr.subscribe_reply(w);
    assert!(!mgr.worker_needs_resync(w));
}

#[test]
fn supervision_respawns_within_bound_then_gives_up() {
    let mut mgr = Manager::new(Config::default());
    let w = mgr.register_worker(7);
    assert!(mgr.worker_alive(w));
    for k in 1..4u32 {
        assert!(mgr.worker_exited(w, 3));
        assert_eq!(mgr.worker_restarts(w), k);
        assert!(mgr.worker_alive(w));
    }
    // The bound is spent: the slot stays unfilled.
    assert!(!mgr.worker_exited(w, 3));
    assert!(!mgr.worker_alive(w));
    assert_eq!(mgr.worker_restarts(w), 3);
}
