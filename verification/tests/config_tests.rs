use weldr::config::{Config, Strategy};
use weldr::pool::Addr;
use weldr::replica::Replica;
use weldr::dispatch::{DispatchAction, Dispatcher};
use weldr::sync::SyncMessage;

#[test]
fn defaults_match_the_documented_addresses() {
    let c = Config::default();
    assert_eq!(c.public_addr, Addr { ip: 0, port: 8080 });
    assert_eq!(c.admin_addr, Addr { ip: 0, port: 8687 });
    assert_eq!(c.control_addr, Addr { ip: 0x7F000001, port: 4000 });
    assert_eq!(c.failure_threshold, 3);
    assert_eq!(c.strategy, Strategy::RoundRobin);
}

#[test]
fn config_update_reaches_the_replica() {
    let mut rep = Replica::new(Config::default());
    let mut c = Config::default();
    c.failure_threshold = 7;
    rep.on_message(&SyncMessage::ConfigUpdate(c));
    // A config update does not touch the pool contents.
    assert!(rep.contents().is_empty());
}

#[test]
fn replica_dispatch_fails_gateway_on_empty_replica() {
    let mut rep = Replica::new(Config::default());
    let mut d = Dispatcher::new(3);
    assert!(matches!(rep.dispatch(&mut d), DispatchAction::FailGateway));
}

#[test]
fn replica_dispatch_connects_to_replicated_backend() {
    let mut rep = Replica::new(Config::default());
    let a = Addr { ip: 0x0A000001, port: 8001 };
    let snap = vec![weldr::pool::Backend {
        address: a,
        health: weldr::pool::Health::Healthy,
        consecutive_failures: 0,
        last_checked: 1,
    }];
    rep.on_message(&SyncMessage::FullPoolSnapshot(snap));
    let mut d = Dispatcher::new(2);
    match rep.dispatch(&mut d) {
        DispatchAction::Connect(got) => assert_eq!(got, a),
        DispatchAction::FailGateway => panic!("a healthy backend is replicated"),
    }
}
