use weldr::pool::{Addr, Pool};
use weldr::dispatch::{DispatchAction, Dispatcher};

fn addr(n: u16) -> Addr {
    Addr { ip: 0x7F000000 + n as u32, port: 7000 + n }
}

fn pool_of(healthy: &[Addr]) -> Pool {
    let mut p = Pool::new();
    for a in healthy {
        p.add(*a);
        p.mark_health(*a, true, 3, 1);
    }
    p
}

#[test]
fn connects_round_robin_until_budget_spent() {
    let mut p = pool_of(&[addr(1), addr(2)]);
    let mut d = Dispatcher::new(3);
    let mut seen = Vec::new();
    // Three failed attempts in a row consume the whole budget.
    for _ in 0..3 {
        match d.next_action(&mut p) {
            DispatchAction::Connect(a) => seen.push(a),
            DispatchAction::FailGateway => panic!("budget not spent yet"),
        }
    }
    assert_eq!(seen, vec![addr(1), addr(2), addr(1)]);
    assert!(matches!(d.next_action(&mut p), DispatchAction::FailGateway));
}

#[test]
fn no_healthy_backend_fails_immediately() {
    let mut p = Pool::new();
    p.add(addr(1));
    // Unknown health: not eligible.
    let mut d = Dispatcher::new(3);
    assert!(matches!(d.next_action(&mut p), DispatchAction::FailGateway));
}

#[test]
fn empty_pool_fails_immediately() {
    let mut p = Pool::new();
    let mut d = Dispatcher::new(3);
    assert!(matches!(d.next_action(&mut p), DispatchAction::FailGateway));
}

#[test]
fn zero_budget_never_connects() {
    let mut p = pool_of(&[addr(1)]);
    let mut d = Dispatcher::new(0);
    assert!(matches!(d.next_action(&mut p), DispatchAction::FailGateway));
}

#[test]
fn connect_targets_are_healthy_pool_members() {
    let mut p = pool_of(&[addr(1), addr(2), addr(3)]);
    p.mark_health(addr(2), false, 1, 2);
    let mut d = Dispatcher::new(6);
    for _ in 0..6 {
        match d.next_action(&mut p) {
            DispatchAction::Connect(a) => {
                assert!(p.contains(a));
                assert_ne!(a, addr(2));
            },
            DispatchAction::FailGateway => panic!("healthy backends remain"),
        }
    }
}
