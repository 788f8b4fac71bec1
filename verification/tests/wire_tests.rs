use weldr::pool::{Addr, Backend, Health};
use weldr::config::{Config, Strategy};
use weldr::sync::SyncMessage;
use weldr::wire::{decode_message, encode_message, WIRE_VERSION};

fn addr(n: u16) -> Addr {
    Addr { ip: 0xC0A80000 + n as u32, port: 9000 + n }
}

fn backend(n: u16, h: Health, fails: u32, when: u64) -> Backend {
    Backend { address: addr(n), health: h, consecutive_failures: fails, last_checked: when }
}

fn round_trip(m: SyncMessage) -> (SyncMessage, usize) {
    let bytes = encode_message(&m);
    let n = bytes.len();
    let (got, used) = decode_message(&bytes).expect("own encoding must decode");
    assert_eq!(used, n);
    (got, used)
}

#[test]
fn subscribe_has_exact_bytes() {
    let bytes = encode_message(&SyncMessage::Subscribe(5));
    // Frame length 10 (version, tag, eight id bytes), version 1, tag 0.
    assert_eq!(bytes, vec![0, 0, 0, 10, WIRE_VERSION, 0, 0, 0, 0, 0, 0, 0, 0, 5]);
}

#[test]
fn subscribe_round_trips() {
    let (got, _) = round_trip(SyncMessage::Subscribe(0xDEAD_BEEF_1234_5678));
    match got {
        SyncMessage::Subscribe(id) => assert_eq!(id, 0xDEAD_BEEF_1234_5678),
        _ => panic!("wrong variant"),
    }
}

#[test]
fn snapshot_round_trips() {
    let list = vec![
        backend(1, Health::Healthy, 0, 11),
        backend(2, Health::Unhealthy, 9, 22),
        backend(3, Health::Unknown, 2, 33),
    ];
    let (got, _) = round_trip(SyncMessage::FullPoolSnapshot(list.clone()));
    match got {
        SyncMessage::FullPoolSnapshot(v) => assert_eq!(v, list),
        _ => panic!("wrong variant"),
    }
}

#[test]
fn empty_snapshot_round_trips() {
    let (got, used) = round_trip(SyncMessage::FullPoolSnapshot(vec![]));
    assert_eq!(used, 4 + 2 + 4);
    match got {
        SyncMessage::FullPoolSnapshot(v) => assert!(v.is_empty()),
        _ => panic!("wrong variant"),
    }
}

#[test]
fn backend_added_round_trips() {
    let b = backend(4, Health::Unknown, 0, 0);
    let (got, _) = round_trip(SyncMessage::BackendAdded(b));
    match got {
        SyncMessage::BackendAdded(g) => assert_eq!(g, b),
        _ => panic!("wrong variant"),
    }
}

#[test]
fn backend_removed_round_trips() {
    let (got, _) = round_trip(SyncMessage::BackendRemoved(addr(6)));
    match got {
        SyncMessage::BackendRemoved(a) => assert_eq!(a, addr(6)),
        _ => panic!("wrong variant"),
    }
}

#[test]
fn health_changed_round_trips() {
    let (got, _) = round_trip(SyncMessage::HealthChanged(addr(7), Health::Unhealthy));
    match got {
        SyncMessage::HealthChanged(a, h) => {
            assert_eq!(a, addr(7));
            assert_eq!(h, Health::Unhealthy);
        },
        _ => panic!("wrong variant"),
    }
}

#[test]
fn config_update_round_trips() {
    let c = Config {
        public_addr: addr(1),
        admin_addr: addr(2),
        control_addr: addr(3),
        health_interval_ms: 1234,
        probe_timeout_ms: 567,
        failure_threshold: 4,
        strategy: Strategy::RoundRobin,
    };
    let (got, _) = round_trip(SyncMessage::ConfigUpdate(c));
    match got {
        SyncMessage::ConfigUpdate(g) => assert_eq!(g, c),
        _ => panic!("wrong variant"),
    }
}

#[test]
fn short_input_is_incomplete() {
    assert!(decode_message(&vec![]).is_none());
    assert!(decode_message(&vec![0, 0, 0]).is_none());
    // A frame announcing more bytes than present is incomplete, not an error.
    let mut bytes = encode_message(&SyncMessage::Subscribe(1));
    bytes.pop();
    assert!(decode_message(&bytes).is_none());
}

#[test]
fn wrong_version_is_rejected() {
    let mut bytes = encode_message(&SyncMessage::Subscribe(1));
    bytes[4] = WIRE_VERSION + 1;
    assert!(decode_message(&bytes).is_none());
}

#[test]
fn unknown_tag_is_rejected() {
    let mut bytes = encode_message(&SyncMessage::Subscribe(1));
    bytes[5] = 200;
    assert!(decode_message(&bytes).is_none());
}

#[test]
fn bad_health_byte_is_rejected() {
    let b = backend(4, Health::Healthy, 0, 0);
    let mut bytes = encode_message(&SyncMessage::BackendAdded(b));
    // The health byte sits after the six address bytes of the payload.
    bytes[6 + 6] = 9;
    assert!(decode_message(&bytes).is_none());
}

#[test]
fn bad_health_byte_inside_snapshot_is_rejected() {
    let list = vec![backend(1, Health::Healthy, 0, 0), backend(2, Health::Healthy, 0, 0)];
    let mut bytes = encode_message(&SyncMessage::FullPoolSnapshot(list));
    // Corrupt the second backend's health byte: count (4) + one backend (19)
    // + address (6) into the payload, which starts at offset 6.
    bytes[6 + 4 + 19 + 6] = 77;
    assert!(decode_message(&bytes).is_none());
}

#[test]
fn trailing_bytes_are_left_for_the_next_message() {
    let mut bytes = encode_message(&SyncMessage::BackendRemoved(addr(1)));
    let first_len = bytes.len();
    let second = encode_message(&SyncMessage::Subscribe(3));
    bytes.extend_from_slice(&second);
    let (got, used) = decode_message(&bytes).unwrap();
    assert_eq!(used, first_len);
    match got {
        SyncMessage::BackendRemoved(a) => assert_eq!(a, addr(1)),
        _ => panic!("wrong variant"),
    }
    let rest: Vec<u8> = bytes[used..].to_vec();
    let (got2, _) = decode_message(&rest).unwrap();
    match got2 {
        SyncMessage::Subscribe(id) => assert_eq!(id, 3),
        _ => panic!("wrong variant"),
    }
}
