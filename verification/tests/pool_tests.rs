use weldr::pool::{Addr, Backend, Health, Pool, backends_unique};

fn addr(n: u16) -> Addr {
    Addr { ip: 0x0A000000 + n as u32, port: 8000 + n }
}

/// Make every backend in the pool healthy via a successful probe.
fn heal(pool: &mut Pool, addrs: &[Addr]) {
    for a in addrs {
        pool.mark_health(*a, true, 3, 1);
    }
}

#[test]
fn add_starts_unknown_and_is_idempotent() {
    let mut p = Pool::new();
    assert!(p.add(addr(1)));
    assert!(!p.add(addr(1)));
    assert_eq!(p.len(), 1);
    let b = p.get(addr(1)).unwrap();
    assert_eq!(b.health, Health::Unknown);
    assert_eq!(b.consecutive_failures, 0);
}

#[test]
fn remove_is_idempotent() {
    let mut p = Pool::new();
    p.add(addr(1));
    p.add(addr(2));
    assert!(p.remove(addr(1)));
    assert!(!p.remove(addr(1)));
    assert_eq!(p.len(), 1);
    assert!(!p.contains(addr(1)));
    assert!(p.contains(addr(2)));
}

#[test]
fn next_on_empty_pool_is_none() {
    let mut p = Pool::new();
    assert_eq!(p.next(), None);
}

#[test]
fn next_skips_unknown_and_unhealthy() {
    let mut p = Pool::new();
    p.add(addr(1));
    p.add(addr(2));
    // addr(1) stays Unknown; addr(2) becomes Healthy.
    p.mark_health(addr(2), true, 3, 1);
    for _ in 0..5 {
        assert_eq!(p.next(), Some(addr(2)));
    }
}

#[test]
fn next_returns_only_present_addresses() {
    let mut p = Pool::new();
    let addrs = [addr(1), addr(2), addr(3)];
    for a in &addrs {
        p.add(*a);
    }
    heal(&mut p, &addrs);
    p.remove(addr(2));
    for _ in 0..10 {
        let got = p.next().unwrap();
        assert!(p.contains(got));
        assert_ne!(got, addr(2));
    }
}

#[test]
fn all_unhealthy_reports_unavailable() {
    let mut p = Pool::new();
    let addrs = [addr(1), addr(2)];
    for a in &addrs {
        p.add(*a);
    }
    heal(&mut p, &addrs);
    // Three failed probes each, threshold 3: both unhealthy.
    for a in &addrs {
        for t in 0..3 {
            p.mark_health(*a, false, 3, 10 + t);
        }
    }
    for _ in 0..4 {
        assert_eq!(p.next(), None);
    }
    assert_eq!(p.len(), 2);
}

#[test]
fn round_robin_fairness_counts() {
    let mut p = Pool::new();
    let addrs = [addr(1), addr(2), addr(3)];
    for a in &addrs {
        p.add(*a);
    }
    heal(&mut p, &addrs);
    let mut counts = [0u32; 3];
    for _ in 0..10 {
        let got = p.next().unwrap();
        let i = addrs.iter().position(|a| *a == got).unwrap();
        counts[i] += 1;
    }
    // 10 selections over 3 backends: each gets 3 or 4, summing to 10.
    assert_eq!(counts.iter().sum::<u32>(), 10);
    for c in counts {
        assert!(c == 3 || c == 4);
    }
}

#[test]
fn round_robin_is_cyclic_in_order() {
    let mut p = Pool::new();
    let addrs = [addr(1), addr(2), addr(3)];
    for a in &addrs {
        p.add(*a);
    }
    heal(&mut p, &addrs);
    // The cursor advanced during heal-time selections is untouched by
    // mark_health, so selection starts at the cursor and cycles in order.
    let first = p.next().unwrap();
    let start = addrs.iter().position(|a| *a == first).unwrap();
    for k in 1..7 {
        let got = p.next().unwrap();
        assert_eq!(got, addrs[(start + k) % 3]);
    }
}

#[test]
fn threshold_failures_turn_unhealthy_one_success_recovers() {
    let mut p = Pool::new();
    p.add(addr(1));
    p.mark_health(addr(1), true, 3, 1);
    assert_eq!(p.get(addr(1)).unwrap().health, Health::Healthy);
    // Two failures: still healthy, counter grows.
    assert_eq!(p.mark_health(addr(1), false, 3, 2), None);
    assert_eq!(p.mark_health(addr(1), false, 3, 3), None);
    assert_eq!(p.get(addr(1)).unwrap().health, Health::Healthy);
    assert_eq!(p.get(addr(1)).unwrap().consecutive_failures, 2);
    // Third failure reaches the threshold.
    assert_eq!(p.mark_health(addr(1), false, 3, 4), Some(Health::Unhealthy));
    // One success restores health and clears the counter.
    assert_eq!(p.mark_health(addr(1), true, 3, 5), Some(Health::Healthy));
    let b = p.get(addr(1)).unwrap();
    assert_eq!(b.health, Health::Healthy);
    assert_eq!(b.consecutive_failures, 0);
    assert_eq!(b.last_checked, 5);
}

#[test]
fn unknown_backend_needs_threshold_failures_too() {
    let mut p = Pool::new();
    p.add(addr(7));
    assert_eq!(p.mark_health(addr(7), false, 2, 1), None);
    assert_eq!(p.get(addr(7)).unwrap().health, Health::Unknown);
    assert_eq!(p.mark_health(addr(7), false, 2, 2), Some(Health::Unhealthy));
}

#[test]
fn snapshot_copies_contents() {
    let mut p = Pool::new();
    p.add(addr(1));
    p.add(addr(2));
    let snap = p.snapshot();
    assert_eq!(snap.len(), 2);
    assert_eq!(snap[0].address, addr(1));
    assert_eq!(snap[1].address, addr(2));
    assert!(backends_unique(&snap));
}

#[test]
fn backends_unique_detects_duplicates() {
    let b1 = Backend::new(addr(1));
    let b2 = Backend::new(addr(2));
    let dup = Backend::new(addr(1));
    assert!(backends_unique(&vec![b1, b2]));
    assert!(!backends_unique(&vec![b1, b2, dup]));
}

#[test]
fn remove_keeps_selection_safe() {
    let mut p = Pool::new();
    let addrs = [addr(1), addr(2), addr(3), addr(4)];
    for a in &addrs {
        p.add(*a);
    }
    heal(&mut p, &addrs);
    // Interleave removals with selections; whatever comes out is present.
    p.next();
    p.remove(addr(3));
    for _ in 0..6 {
        let got = p.next().unwrap();
        assert!(p.contains(got));
    }
    p.remove(addr(1));
    p.remove(addr(2));
    p.remove(addr(4));
    assert_eq!(p.next(), None);
}
