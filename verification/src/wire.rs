//! The control channel's wire form: each sync message travels as a
//! length-delimited frame — a four-byte big-endian frame length, a version
//! byte, a tag byte, and a fixed layout per tag. Decoding rejects anything
//! malformed; encoding then decoding returns the message exactly.

use vstd::prelude::*;
use crate::pool::{Addr, Backend, Health};
use crate::config::{Config, Strategy};
use crate::sync::{SyncMessage, SyncMessageV};

verus! {

/// The one wire version this crate speaks.
pub const WIRE_VERSION: u8 = 1;

/// Snapshots above this backend count are not encoded (keeps every length
/// comfortably inside a frame's four-byte length field).
pub const MAX_SNAPSHOT: usize = 0xFFFFFF;

/// Bytes of one encoded backend.
pub const BACKEND_WIRE_LEN: usize = 19;

/// Big-endian bytes of a `u16`.
pub open spec fn enc_u16(x: u16) -> Seq<u8> {
    seq![(x >> 8) as u8, (x & 0xff) as u8]
}

/// Big-endian bytes of a `u32`.
pub open spec fn enc_u32(x: u32) -> Seq<u8> {
    seq![
        (x >> 24) as u8,
        ((x >> 16) & 0xff) as u8,
        ((x >> 8) & 0xff) as u8,
        (x & 0xff) as u8,
    ]
}

/// Big-endian bytes of a `u64`.
pub open spec fn enc_u64(x: u64) -> Seq<u8> {
    seq![
        (x >> 56) as u8,
        ((x >> 48) & 0xff) as u8,
        ((x >> 40) & 0xff) as u8,
        ((x >> 32) & 0xff) as u8,
        ((x >> 24) & 0xff) as u8,
        ((x >> 16) & 0xff) as u8,
        ((x >> 8) & 0xff) as u8,
        (x & 0xff) as u8,
    ]
}

/// The `u16` two big-endian bytes hold.
pub open spec fn dec_u16(s: Seq<u8>, p: int) -> u16 {
    (((s[p] as u16) << 8) | (s[p + 1] as u16)) as u16
}

/// The `u32` four big-endian bytes hold.
pub open spec fn dec_u32(s: Seq<u8>, p: int) -> u32 {
    (((s[p] as u32) << 24) | ((s[p + 1] as u32) << 16) | ((s[p + 2] as u32) << 8) | (s[p
        + 3] as u32)) as u32
}

/// The `u64` eight big-endian bytes hold.
pub open spec fn dec_u64(s: Seq<u8>, p: int) -> u64 {
    (((s[p] as u64) << 56) | ((s[p + 1] as u64) << 48) | ((s[p + 2] as u64) << 40) | ((s[p
        + 3] as u64) << 32) | ((s[p + 4] as u64) << 24) | ((s[p + 5] as u64) << 16) | ((s[p
        + 6] as u64) << 8) | (s[p + 7] as u64)) as u64
}

pub proof fn lemma_u16_round_trip(x: u16)
    ensures
        dec_u16(enc_u16(x), 0) == x,
{
    let hi = (x >> 8) as u8;
    let lo = (x & 0xff) as u8;
    assert((((((x >> 8) as u8) as u16) << 8) | (((x & 0xff) as u8) as u16)) as u16 == x)
        by (bit_vector);
}

pub proof fn lemma_u32_round_trip(x: u32)
    ensures
        dec_u32(enc_u32(x), 0) == x,
{
    assert(((((x >> 24) as u8 as u32) << 24) | ((((x >> 16) & 0xff) as u8 as u32) << 16) | ((((x
        >> 8) & 0xff) as u8 as u32) << 8) | ((x & 0xff) as u8 as u32)) as u32 == x)
        by (bit_vector);
}

pub proof fn lemma_u64_round_trip(x: u64)
    ensures
        dec_u64(enc_u64(x), 0) == x,
{
    assert(((((x >> 56) as u8 as u64) << 56) | ((((x >> 48) & 0xff) as u8 as u64) << 48) | ((((x
        >> 40) & 0xff) as u8 as u64) << 40) | ((((x >> 32) & 0xff) as u8 as u64) << 32) | ((((x
        >> 24) & 0xff) as u8 as u64) << 24) | ((((x >> 16) & 0xff) as u8 as u64) << 16) | ((((x
        >> 8) & 0xff) as u8 as u64) << 8) | ((x & 0xff) as u8 as u64)) as u64 == x)
        by (bit_vector);
}

/// The byte for a health state.
pub open spec fn health_tag(h: Health) -> u8 {
    match h {
        Health::Healthy => 0,
        Health::Unhealthy => 1,
        Health::Unknown => 2,
    }
}

/// The health state a byte names, if any.
pub open spec fn dec_health(t: u8) -> Option<Health> {
    if t == 0 {
        Some(Health::Healthy)
    } else if t == 1 {
        Some(Health::Unhealthy)
    } else if t == 2 {
        Some(Health::Unknown)
    } else {
        None
    }
}

/// The byte for a strategy.
pub open spec fn strategy_tag(st: Strategy) -> u8 {
    match st {
        Strategy::RoundRobin => 0,
    }
}

/// The strategy a byte names, if any.
pub open spec fn dec_strategy(t: u8) -> Option<Strategy> {
    if t == 0 {
        Some(Strategy::RoundRobin)
    } else {
        None
    }
}

/// An address: four IP bytes, two port bytes.
pub open spec fn enc_addr(a: Addr) -> Seq<u8> {
    enc_u32(a.ip) + enc_u16(a.port)
}

pub open spec fn dec_addr(s: Seq<u8>, p: int) -> Addr {
    Addr { ip: dec_u32(s, p), port: dec_u16(s, p + 4) }
}

/// A backend: address, health byte, failure counter, last-checked stamp —
/// nineteen bytes.
pub open spec fn enc_backend(b: Backend) -> Seq<u8> {
    enc_addr(b.address) + seq![health_tag(b.health)] + enc_u32(b.consecutive_failures) + enc_u64(
        b.last_checked,
    )
}

pub open spec fn dec_backend(s: Seq<u8>, p: int) -> Option<Backend> {
    match dec_health(s[p + 6]) {
        Some(h) => Some(
            Backend {
                address: dec_addr(s, p),
                health: h,
                consecutive_failures: dec_u32(s, p + 7),
                last_checked: dec_u64(s, p + 11),
            },
        ),
        None => None,
    }
}

/// Backends one after another.
pub open spec fn enc_backends(bs: Seq<Backend>) -> Seq<u8>
    decreases bs.len(),
{
    if bs.len() == 0 {
        Seq::<u8>::empty()
    } else {
        enc_backend(bs[0]) + enc_backends(bs.drop_first())
    }
}

/// `count` backends read from position `p`.
pub open spec fn dec_backends(s: Seq<u8>, p: int, count: nat) -> Option<Seq<Backend>>
    decreases count,
{
    if count == 0 {
        Some(Seq::<Backend>::empty())
    } else if p < 0 || p + BACKEND_WIRE_LEN > s.len() {
        None
    } else {
        match dec_backend(s, p) {
            None => None,
            Some(b) => match dec_backends(s, p + BACKEND_WIRE_LEN, (count - 1) as nat) {
                None => None,
                Some(rest) => Some(seq![b] + rest),
            },
        }
    }
}

/// A configuration: three addresses, two timing fields, the threshold, the
/// strategy byte — thirty-nine bytes.
pub open spec fn enc_config(c: Config) -> Seq<u8> {
    enc_addr(c.public_addr) + enc_addr(c.admin_addr) + enc_addr(c.control_addr) + enc_u64(
        c.health_interval_ms,
    ) + enc_u64(c.probe_timeout_ms) + enc_u32(c.failure_threshold) + seq![strategy_tag(c.strategy)]
}

pub open spec fn dec_config(s: Seq<u8>, p: int) -> Option<Config> {
    match dec_strategy(s[p + 38]) {
        Some(st) => Some(
            Config {
                public_addr: dec_addr(s, p),
                admin_addr: dec_addr(s, p + 6),
                control_addr: dec_addr(s, p + 12),
                health_interval_ms: dec_u64(s, p + 18),
                probe_timeout_ms: dec_u64(s, p + 26),
                failure_threshold: dec_u32(s, p + 34),
                strategy: st,
            },
        ),
        None => None,
    }
}

/// The tag byte of a message.
pub open spec fn msg_tag(m: SyncMessageV) -> u8 {
    match m {
        SyncMessageV::Subscribe(_) => 0,
        SyncMessageV::FullPoolSnapshot(_) => 1,
        SyncMessageV::BackendAdded(_) => 2,
        SyncMessageV::BackendRemoved(_) => 3,
        SyncMessageV::HealthChanged(_, _) => 4,
        SyncMessageV::ConfigUpdate(_) => 5,
    }
}

/// The bytes after the tag.
pub open spec fn enc_payload(m: SyncMessageV) -> Seq<u8> {
    match m {
        SyncMessageV::Subscribe(id) => enc_u64(id),
        SyncMessageV::FullPoolSnapshot(bs) => enc_u32(bs.len() as u32) + enc_backends(bs),
        SyncMessageV::BackendAdded(b) => enc_backend(b),
        SyncMessageV::BackendRemoved(a) => enc_addr(a),
        SyncMessageV::HealthChanged(a, h) => enc_addr(a) + seq![health_tag(h)],
        SyncMessageV::ConfigUpdate(c) => enc_config(c),
    }
}

/// A message whose encoding stays within the frame length field.
pub open spec fn msg_encodable(m: SyncMessageV) -> bool {
    m matches SyncMessageV::FullPoolSnapshot(bs) ==> bs.len() <= MAX_SNAPSHOT
}

/// The frame: version, tag, payload.
pub open spec fn enc_frame(m: SyncMessageV) -> Seq<u8> {
    seq![WIRE_VERSION, msg_tag(m)] + enc_payload(m)
}

/// The full wire form: big-endian frame length, then the frame.
pub open spec fn enc_message(m: SyncMessageV) -> Seq<u8> {
    enc_u32(enc_frame(m).len() as u32) + enc_frame(m)
}

/// The message a payload holds under a tag, if any.
pub open spec fn dec_payload(tag: u8, body: Seq<u8>) -> Option<SyncMessageV> {
    if tag == 0 {
        if body.len() == 8 {
            Some(SyncMessageV::Subscribe(dec_u64(body, 0)))
        } else {
            None
        }
    } else if tag == 1 {
        if body.len() >= 4 {
            let count = dec_u32(body, 0) as nat;
            if body.len() == 4 + BACKEND_WIRE_LEN * count {
                match dec_backends(body, 4, count) {
                    Some(bs) => Some(SyncMessageV::FullPoolSnapshot(bs)),
                    None => None,
                }
            } else {
                None
            }
        } else {
            None
        }
    } else if tag == 2 {
        if body.len() == BACKEND_WIRE_LEN {
            match dec_backend(body, 0) {
                Some(b) => Some(SyncMessageV::BackendAdded(b)),
                None => None,
            }
        } else {
            None
        }
    } else if tag == 3 {
        if body.len() == 6 {
            Some(SyncMessageV::BackendRemoved(dec_addr(body, 0)))
        } else {
            None
        }
    } else if tag == 4 {
        if body.len() == 7 {
            match dec_health(body[6]) {
                Some(h) => Some(SyncMessageV::HealthChanged(dec_addr(body, 0), h)),
                None => None,
            }
        } else {
            None
        }
    } else if tag == 5 {
        if body.len() == 39 {
            match dec_config(body, 0) {
                Some(c) => Some(SyncMessageV::ConfigUpdate(c)),
                None => None,
            }
        } else {
            None
        }
    } else {
        None
    }
}

/// The first message in a byte stream and how many bytes it took, or `None`
/// while the bytes are malformed or still incomplete.
pub open spec fn spec_decode(s: Seq<u8>) -> Option<(SyncMessageV, int)> {
    if s.len() < 4 {
        None
    } else {
        let flen = dec_u32(s, 0) as int;
        if flen < 2 || s.len() < 4 + flen {
            None
        } else if s[4] != WIRE_VERSION {
            None
        } else {
            match dec_payload(s[5], s.subrange(6, 4 + flen)) {
                Some(m) => Some((m, 4 + flen)),
                None => None,
            }
        }
    }
}

/// Encoded backends take nineteen bytes each.
pub proof fn lemma_enc_backends_len(bs: Seq<Backend>)
    ensures
        enc_backends(bs).len() == BACKEND_WIRE_LEN * bs.len(),
    decreases bs.len(),
{
    if bs.len() > 0 {
        lemma_enc_backends_len(bs.drop_first());
    }
}

/// A `u16` sitting at `p` decodes to itself.
pub proof fn lemma_dec_u16_any(s: Seq<u8>, p: int, x: u16)
    requires
        0 <= p,
        p + 2 <= s.len(),
        s.subrange(p, p + 2) == enc_u16(x),
    ensures
        dec_u16(s, p) == x,
{
    assert(s[p] == enc_u16(x)[0] && s[p + 1] == enc_u16(x)[1]);
    lemma_u16_round_trip(x);
}

/// A `u32` sitting at `p` decodes to itself.
pub proof fn lemma_dec_u32_any(s: Seq<u8>, p: int, x: u32)
    requires
        0 <= p,
        p + 4 <= s.len(),
        s.subrange(p, p + 4) == enc_u32(x),
    ensures
        dec_u32(s, p) == x,
{
    assert(forall|k: int| 0 <= k < 4 ==> s[p + k] == enc_u32(x)[k]);
    assert(s[p] == enc_u32(x)[0] && s[p + 1] == enc_u32(x)[1] && s[p + 2] == enc_u32(x)[2] && s[p
        + 3] == enc_u32(x)[3]);
    lemma_u32_round_trip(x);
}

/// A `u64` sitting at `p` decodes to itself.
pub proof fn lemma_dec_u64_any(s: Seq<u8>, p: int, x: u64)
    requires
        0 <= p,
        p + 8 <= s.len(),
        s.subrange(p, p + 8) == enc_u64(x),
    ensures
        dec_u64(s, p) == x,
{
    assert(s[p] == enc_u64(x)[0] && s[p + 1] == enc_u64(x)[1] && s[p + 2] == enc_u64(x)[2] && s[p
        + 3] == enc_u64(x)[3] && s[p + 4] == enc_u64(x)[4] && s[p + 5] == enc_u64(x)[5] && s[p + 6]
        == enc_u64(x)[6] && s[p + 7] == enc_u64(x)[7]);
    lemma_u64_round_trip(x);
}

/// An address sitting at `p` decodes to itself.
pub proof fn lemma_dec_addr_any(s: Seq<u8>, p: int, a: Addr)
    requires
        0 <= p,
        p + 6 <= s.len(),
        s.subrange(p, p + 6) == enc_addr(a),
    ensures
        dec_addr(s, p) == a,
{
    let e = enc_addr(a);
    assert(s.subrange(p, p + 4) =~= s.subrange(p, p + 6).subrange(0, 4));
    assert(e.subrange(0, 4) =~= enc_u32(a.ip));
    assert(s.subrange(p + 4, p + 6) =~= s.subrange(p, p + 6).subrange(4, 6));
    assert(e.subrange(4, 6) =~= enc_u16(a.port));
    lemma_dec_u32_any(s, p, a.ip);
    lemma_dec_u16_any(s, p + 4, a.port);
}

/// A backend sitting at `p` decodes to itself.
pub proof fn lemma_dec_backend_any(s: Seq<u8>, p: int, b: Backend)
    requires
        0 <= p,
        p + BACKEND_WIRE_LEN <= s.len(),
        s.subrange(p, p + BACKEND_WIRE_LEN) == enc_backend(b),
    ensures
        dec_backend(s, p) == Some(b),
{
    let e = enc_backend(b);
    let w = BACKEND_WIRE_LEN as int;
    assert(s.subrange(p, p + 6) =~= s.subrange(p, p + w).subrange(0, 6));
    assert(e.subrange(0, 6) =~= enc_addr(b.address));
    assert(s[p + 6] == s.subrange(p, p + w)[6]);
    assert(e[6] == health_tag(b.health));
    assert(s.subrange(p + 7, p + 11) =~= s.subrange(p, p + w).subrange(7, 11));
    assert(e.subrange(7, 11) =~= enc_u32(b.consecutive_failures));
    assert(s.subrange(p + 11, p + 19) =~= s.subrange(p, p + w).subrange(11, 19));
    assert(e.subrange(11, 19) =~= enc_u64(b.last_checked));
    lemma_dec_addr_any(s, p, b.address);
    lemma_dec_u32_any(s, p + 7, b.consecutive_failures);
    lemma_dec_u64_any(s, p + 11, b.last_checked);
}

/// A run of backends sitting at `p` decodes to itself.
pub proof fn lemma_dec_backends_any(s: Seq<u8>, p: int, bs: Seq<Backend>)
    requires
        0 <= p,
        p + BACKEND_WIRE_LEN * bs.len() <= s.len(),
        s.subrange(p, p + BACKEND_WIRE_LEN * bs.len()) == enc_backends(bs),
    ensures
        dec_backends(s, p, bs.len()) == Some(bs),
    decreases bs.len(),
{
    if bs.len() > 0 {
        lemma_enc_backends_len(bs.drop_first());
        let e = enc_backends(bs);
        let w = BACKEND_WIRE_LEN as int;
        let all = w * bs.len();
        assert(e == enc_backend(bs[0]) + enc_backends(bs.drop_first()));
        assert(s.subrange(p, p + w) =~= s.subrange(p, p + all).subrange(0, w));
        assert(e.subrange(0, w) =~= enc_backend(bs[0]));
        lemma_dec_backend_any(s, p, bs[0]);
        assert(s.subrange(p + w, p + all) =~= s.subrange(p, p + all).subrange(w, all));
        assert(e.subrange(w, all) =~= enc_backends(bs.drop_first()));
        lemma_dec_backends_any(s, p + w, bs.drop_first());
        assert(seq![bs[0]] + bs.drop_first() =~= bs);
    }
}

/// A configuration sitting at `p` decodes to itself.
pub proof fn lemma_dec_config_any(s: Seq<u8>, p: int, c: Config)
    requires
        0 <= p,
        p + 39 <= s.len(),
        s.subrange(p, p + 39) == enc_config(c),
    ensures
        dec_config(s, p) == Some(c),
{
    let e = enc_config(c);
    assert(s.subrange(p, p + 6) =~= s.subrange(p, p + 39).subrange(0, 6));
    assert(e.subrange(0, 6) =~= enc_addr(c.public_addr));
    assert(s.subrange(p + 6, p + 12) =~= s.subrange(p, p + 39).subrange(6, 12));
    assert(e.subrange(6, 12) =~= enc_addr(c.admin_addr));
    assert(s.subrange(p + 12, p + 18) =~= s.subrange(p, p + 39).subrange(12, 18));
    assert(e.subrange(12, 18) =~= enc_addr(c.control_addr));
    assert(s.subrange(p + 18, p + 26) =~= s.subrange(p, p + 39).subrange(18, 26));
    assert(e.subrange(18, 26) =~= enc_u64(c.health_interval_ms));
    assert(s.subrange(p + 26, p + 34) =~= s.subrange(p, p + 39).subrange(26, 34));
    assert(e.subrange(26, 34) =~= enc_u64(c.probe_timeout_ms));
    assert(s.subrange(p + 34, p + 38) =~= s.subrange(p, p + 39).subrange(34, 38));
    assert(e.subrange(34, 38) =~= enc_u32(c.failure_threshold));
    assert(s[p + 38] == s.subrange(p, p + 39)[38]);
    assert(e[38] == strategy_tag(c.strategy));
    lemma_dec_addr_any(s, p, c.public_addr);
    lemma_dec_addr_any(s, p + 6, c.admin_addr);
    lemma_dec_addr_any(s, p + 12, c.control_addr);
    lemma_dec_u64_any(s, p + 18, c.health_interval_ms);
    lemma_dec_u64_any(s, p + 26, c.probe_timeout_ms);
    lemma_dec_u32_any(s, p + 34, c.failure_threshold);
}

/// Appending one backend to a run appends its bytes.
pub proof fn lemma_enc_backends_snoc(bs: Seq<Backend>, b: Backend)
    ensures
        enc_backends(bs.push(b)) == enc_backends(bs) + enc_backend(b),
    decreases bs.len(),
{
    let e = bs.push(b);
    assert(e.len() == bs.len() + 1);
    if bs.len() == 0 {
        assert(e[0] == b);
        assert(e.drop_first() =~= Seq::<Backend>::empty());
        assert(enc_backends(e) == enc_backend(b) + enc_backends(Seq::<Backend>::empty()));
        assert(enc_backends(Seq::<Backend>::empty()) == Seq::<u8>::empty());
        assert(enc_backends(bs) == Seq::<u8>::empty());
        assert(enc_backend(b) + Seq::<u8>::empty() =~= Seq::<u8>::empty() + enc_backend(b));
    } else {
        assert(e[0] == bs[0]);
        assert(e.drop_first() =~= bs.drop_first().push(b));
        assert(enc_backends(e) == enc_backend(bs[0]) + enc_backends(bs.drop_first().push(b)));
        lemma_enc_backends_snoc(bs.drop_first(), b);
        assert(enc_backends(bs) == enc_backend(bs[0]) + enc_backends(bs.drop_first()));
        assert((enc_backend(bs[0]) + enc_backends(bs.drop_first())) + enc_backend(b) =~= enc_backend(
            bs[0],
        ) + (enc_backends(bs.drop_first()) + enc_backend(b)));
    }
}

fn push_u16(out: &mut Vec<u8>, x: u16)
    ensures
        final(out)@ == old(out)@ + enc_u16(x),
{
    proof {
        assert(x >> 8 < 256 && (x & 0xff) < 256) by (bit_vector);
    }
    out.push((x >> 8) as u8);
    out.push((x & 0xff) as u8);
    proof {
        assert(out@ =~= old(out)@ + enc_u16(x));
    }
}

fn push_u32(out: &mut Vec<u8>, x: u32)
    ensures
        final(out)@ == old(out)@ + enc_u32(x),
{
    proof {
        assert(x >> 24 < 256 && ((x >> 16) & 0xff) < 256 && ((x >> 8) & 0xff) < 256 && (x & 0xff)
            < 256) by (bit_vector);
    }
    out.push((x >> 24) as u8);
    out.push(((x >> 16) & 0xff) as u8);
    out.push(((x >> 8) & 0xff) as u8);
    out.push((x & 0xff) as u8);
    proof {
        assert(out@ =~= old(out)@ + enc_u32(x));
    }
}

fn push_u64(out: &mut Vec<u8>, x: u64)
    ensures
        final(out)@ == old(out)@ + enc_u64(x),
{
    proof {
        assert(x >> 56 < 256 && ((x >> 48) & 0xff) < 256 && ((x >> 40) & 0xff) < 256 && ((x >> 32)
            & 0xff) < 256 && ((x >> 24) & 0xff) < 256 && ((x >> 16) & 0xff) < 256 && ((x >> 8)
            & 0xff) < 256 && (x & 0xff) < 256) by (bit_vector);
    }
    out.push((x >> 56) as u8);
    out.push(((x >> 48) & 0xff) as u8);
    out.push(((x >> 40) & 0xff) as u8);
    out.push(((x >> 32) & 0xff) as u8);
    out.push(((x >> 24) & 0xff) as u8);
    out.push(((x >> 16) & 0xff) as u8);
    out.push(((x >> 8) & 0xff) as u8);
    out.push((x & 0xff) as u8);
    proof {
        assert(out@ =~= old(out)@ + enc_u64(x));
    }
}

fn push_addr(out: &mut Vec<u8>, a: Addr)
    ensures
        final(out)@ == old(out)@ + enc_addr(a),
{
    push_u32(out, a.ip);
    push_u16(out, a.port);
    proof {
        assert(out@ =~= old(out)@ + enc_addr(a));
    }
}

/// The byte a health state travels as.
fn health_byte(h: Health) -> (t: u8)
    ensures
        t == health_tag(h),
{
    match h {
        Health::Healthy => 0,
        Health::Unhealthy => 1,
        Health::Unknown => 2,
    }
}

fn push_backend(out: &mut Vec<u8>, b: Backend)
    ensures
        final(out)@ == old(out)@ + enc_backend(b),
{
    push_addr(out, b.address);
    out.push(health_byte(b.health));
    push_u32(out, b.consecutive_failures);
    push_u64(out, b.last_checked);
    proof {
        assert(out@ =~= old(out)@ + enc_backend(b));
    }
}

fn push_config(out: &mut Vec<u8>, c: Config)
    ensures
        final(out)@ == old(out)@ + enc_config(c),
{
    push_addr(out, c.public_addr);
    push_addr(out, c.admin_addr);
    push_addr(out, c.control_addr);
    push_u64(out, c.health_interval_ms);
    push_u64(out, c.probe_timeout_ms);
    push_u32(out, c.failure_threshold);
    match c.strategy {
        Strategy::RoundRobin => out.push(0u8),
    }
    proof {
        assert(out@ =~= old(out)@ + enc_config(c));
    }
}

fn append_bytes(out: &mut Vec<u8>, src: &Vec<u8>)
    ensures
        final(out)@ == old(out)@ + src@,
{
    let n = src.len();
    let mut i: usize = 0;
    while i < n
        invariant
            i <= n,
            n == src@.len(),
            out@ == old(out)@ + src@.subrange(0, i as int),
        decreases n - i,
    {
        out.push(src[i]);
        proof {
            assert(old(out)@ + src@.subrange(0, i + 1 as int) =~= (old(out)@ + src@.subrange(
                0,
                i as int,
            )).push(src@[i as int]));
        }
        i = i + 1;
    }
    proof {
        assert(out@ =~= old(out)@ + src@);
    }
}

/// Encode one message into its wire form.
pub fn encode_message(m: &SyncMessage) -> (out: Vec<u8>)
    requires
        msg_encodable(m@),
    ensures
        out@ == enc_message(m@),
{
    let mut payload: Vec<u8> = Vec::new();
    let tag: u8;
    match m {
        SyncMessage::Subscribe(id) => {
            tag = 0;
            push_u64(&mut payload, *id);
        },
        SyncMessage::FullPoolSnapshot(v) => {
            tag = 1;
            let count = v.len();
            push_u32(&mut payload, count as u32);
            let mut i: usize = 0;
            while i < count
                invariant
                    i <= count,
                    count == v@.len(),
                    count <= MAX_SNAPSHOT,
                    payload@ == enc_u32(count as u32) + enc_backends(v@.take(i as int)),
                decreases count - i,
            {
                push_backend(&mut payload, v[i]);
                proof {
                    assert(v@.take(i + 1 as int) =~= v@.take(i as int).push(v@[i as int]));
                    lemma_enc_backends_snoc(v@.take(i as int), v@[i as int]);
                    assert(payload@ =~= enc_u32(count as u32) + enc_backends(
                        v@.take(i + 1 as int),
                    ));
                }
                i = i + 1;
            }
            proof {
                assert(v@.take(count as int) =~= v@);
                lemma_enc_backends_len(v@);
            }
        },
        SyncMessage::BackendAdded(b) => {
            tag = 2;
            push_backend(&mut payload, *b);
        },
        SyncMessage::BackendRemoved(a) => {
            tag = 3;
            push_addr(&mut payload, *a);
        },
        SyncMessage::HealthChanged(a, h) => {
            tag = 4;
            push_addr(&mut payload, *a);
            payload.push(health_byte(*h));
        },
        SyncMessage::ConfigUpdate(c) => {
            tag = 5;
            push_config(&mut payload, *c);
        },
    }
    proof {
        assert(payload@ =~= enc_payload(m@));
        assert(tag == msg_tag(m@));
    }
    let flen = payload.len() + 2;
    let mut out: Vec<u8> = Vec::new();
    push_u32(&mut out, flen as u32);
    out.push(WIRE_VERSION);
    out.push(tag);
    append_bytes(&mut out, &payload);
    proof {
        assert(out@ =~= enc_message(m@));
    }
    out
}

/// Law (codec round trip): an encoded message at the head of any byte
/// stream decodes back to exactly that message, consuming exactly its own
/// bytes.
#[verifier::rlimit(80)]
pub proof fn lemma_codec_round_trip(m: SyncMessageV, rest: Seq<u8>)
    requires
        msg_encodable(m),
    ensures
        spec_decode(enc_message(m) + rest) == Some((m, enc_message(m).len() as int)),
{
    let frame = enc_frame(m);
    let s = enc_message(m) + rest;
    match m {
        SyncMessageV::FullPoolSnapshot(bs) => lemma_enc_backends_len(bs),
        _ => (),
    }
    assert(2 <= frame.len() <= 0xFFFFFFFFu32);
    assert(s.subrange(0, 4) =~= enc_u32(frame.len() as u32));
    lemma_dec_u32_any(s, 0, frame.len() as u32);
    let flen = frame.len() as int;
    assert(s[4] == WIRE_VERSION && s[5] == msg_tag(m));
    let body = s.subrange(6, 4 + flen);
    assert(body =~= enc_payload(m));
    match m {
        SyncMessageV::Subscribe(id) => {
            assert(body.subrange(0, 8) =~= enc_u64(id));
            lemma_dec_u64_any(body, 0, id);
        },
        SyncMessageV::FullPoolSnapshot(bs) => {
            assert(body.subrange(0, 4) =~= enc_u32(bs.len() as u32));
            lemma_dec_u32_any(body, 0, bs.len() as u32);
            assert(body.subrange(4, 4 + BACKEND_WIRE_LEN * bs.len()) =~= enc_backends(bs));
            lemma_dec_backends_any(body, 4, bs);
        },
        SyncMessageV::BackendAdded(b) => {
            assert(body.subrange(0, BACKEND_WIRE_LEN as int) =~= enc_backend(b));
            lemma_dec_backend_any(body, 0, b);
        },
        SyncMessageV::BackendRemoved(a) => {
            assert(body.subrange(0, 6) =~= enc_addr(a));
            lemma_dec_addr_any(body, 0, a);
        },
        SyncMessageV::HealthChanged(a, h) => {
            assert(body.subrange(0, 6) =~= enc_addr(a));
            lemma_dec_addr_any(body, 0, a);
            assert(body[6] == health_tag(h));
        },
        SyncMessageV::ConfigUpdate(c) => {
            assert(body.subrange(0, 39) =~= enc_config(c));
            lemma_dec_config_any(body, 0, c);
        },
    }
}

/// What the whole stream decodes to, given what the snapshot body holds:
/// ties the backend-run parse to the full [`spec_decode`] result.
pub open spec fn snapshot_decode_agrees(buf: Seq<u8>, body: Seq<u8>, count: nat, used: int) -> bool {
    match dec_backends(body, 4, count) {
        Some(bs) => spec_decode(buf) == Some((SyncMessageV::FullPoolSnapshot(bs), used)),
        None => spec_decode(buf) is None,
    }
}

/// Invariant of the snapshot-decoding loop: what the already-decoded prefix
/// `done` says the whole run must decode to.
pub open spec fn snapshot_prefix_ok(body: Seq<u8>, count: nat, done: Seq<Backend>, i: nat) -> bool {
    match dec_backends(body, 4 + BACKEND_WIRE_LEN * i, (count - i) as nat) {
        Some(rest) => dec_backends(body, 4, count) == Some(done + rest),
        None => dec_backends(body, 4, count) is None,
    }
}

fn read_u16(buf: &Vec<u8>, p: usize) -> (x: u16)
    requires
        p + 2 <= buf@.len(),
    ensures
        x == dec_u16(buf@, p as int),
{
    proof {
        vstd::std_specs::vec::axiom_spec_len(buf);
    }
    ((buf[p] as u16) << 8) | (buf[p + 1] as u16)
}

fn read_u32(buf: &Vec<u8>, p: usize) -> (x: u32)
    requires
        p + 4 <= buf@.len(),
    ensures
        x == dec_u32(buf@, p as int),
{
    proof {
        vstd::std_specs::vec::axiom_spec_len(buf);
    }
    ((buf[p] as u32) << 24) | ((buf[p + 1] as u32) << 16) | ((buf[p + 2] as u32) << 8) | (buf[p
        + 3] as u32)
}

fn read_u64(buf: &Vec<u8>, p: usize) -> (x: u64)
    requires
        p + 8 <= buf@.len(),
    ensures
        x == dec_u64(buf@, p as int),
{
    proof {
        vstd::std_specs::vec::axiom_spec_len(buf);
    }
    ((buf[p] as u64) << 56) | ((buf[p + 1] as u64) << 48) | ((buf[p + 2] as u64) << 40) | ((buf[p
        + 3] as u64) << 32) | ((buf[p + 4] as u64) << 24) | ((buf[p + 5] as u64) << 16) | ((buf[p
        + 6] as u64) << 8) | (buf[p + 7] as u64)
}

/// Read the backend laid out at `p`, or `None` on a bad health byte.
fn read_backend(buf: &Vec<u8>, p: usize) -> (r: Option<Backend>)
    requires
        p + BACKEND_WIRE_LEN <= buf@.len(),
    ensures
        r == dec_backend(buf@, p as int),
{
    proof {
        vstd::std_specs::vec::axiom_spec_len(buf);
    }
    let hb = buf[p + 6];
    let h: Health;
    if hb == 0 {
        h = Health::Healthy;
    } else if hb == 1 {
        h = Health::Unhealthy;
    } else if hb == 2 {
        h = Health::Unknown;
    } else {
        return None;
    }
    Some(
        Backend {
            address: Addr { ip: read_u32(buf, p), port: read_u16(buf, p + 4) },
            health: h,
            consecutive_failures: read_u32(buf, p + 7),
            last_checked: read_u64(buf, p + 11),
        },
    )
}

/// Decode the first message in `buf`: the message and how many bytes it
/// took, or `None` while the bytes are malformed or still incomplete —
/// exactly as [`spec_decode`] says.
pub fn decode_message(buf: &Vec<u8>) -> (r: Option<(SyncMessage, usize)>)
    ensures
        match r {
            Some(p) => spec_decode(buf@) == Some((p.0@, p.1 as int)) && p.1 <= buf@.len(),
            None => spec_decode(buf@) is None,
        },
{
    let n = buf.len();
    if n < 4 {
        return None;
    }
    let flen32 = read_u32(buf, 0);
    if flen32 < 2 {
        return None;
    }
    if ((n - 4) as u64) < flen32 as u64 {
        return None;
    }
    let flen = flen32 as usize;
    let used = 4 + flen;
    let ghost body = buf@.subrange(6, 4 + flen as int);
    if buf[4] != WIRE_VERSION {
        return None;
    }
    let tag = buf[5];
    let body_len = flen - 2;
    if tag == 0 {
        if body_len != 8 {
            return None;
        }
        let id = read_u64(buf, 6);
        proof {
            assert(dec_u64(buf@, 6) == dec_u64(body, 0));
        }
        Some((SyncMessage::Subscribe(id), used))
    } else if tag == 1 {
        if body_len < 4 {
            return None;
        }
        let count32 = read_u32(buf, 6);
        proof {
            assert(dec_u32(buf@, 6) == dec_u32(body, 0));
        }
        let count = count32 as usize;
        if (body_len as u64) != 4u64 + 19u64 * (count as u64) {
            return None;
        }
        let mut done: Vec<Backend> = Vec::new();
        let mut i: usize = 0;
        proof {
            match dec_backends(body, 4, count as nat) {
                Some(rest) => {
                    assert(Seq::<Backend>::empty() + rest =~= rest);
                },
                None => (),
            }
        }
        proof {
            assert(snapshot_decode_agrees(buf@, body, count as nat, used as int));
        }
        while i < count
            invariant
                i <= count,
                n == buf@.len(),
                4 + flen <= n,
                used == 4 + flen,
                snapshot_decode_agrees(buf@, body, count as nat, used as int),
                flen - 2 == body_len,
                body == buf@.subrange(6, 4 + flen as int),
                body.len() == body_len,
                body_len == 4 + BACKEND_WIRE_LEN * count,
                done@.len() == i,
                snapshot_prefix_ok(body, count as nat, done@, i as nat),
            decreases count - i,
        {
            let p = 10 + 19 * i;
            proof {
                assert(4 + BACKEND_WIRE_LEN * (i as int) + BACKEND_WIRE_LEN <= body.len());
                assert(forall|k: int| 0 <= k < BACKEND_WIRE_LEN ==> #[trigger] body[4 + BACKEND_WIRE_LEN * (
                i as int) + k] == buf@[p + k]);
            }
            match read_backend(buf, p) {
                None => {
                    proof {
                        assert(dec_backend(body, 4 + BACKEND_WIRE_LEN * (i as int)) is None);
                        assert(dec_backends(
                            body,
                            4 + BACKEND_WIRE_LEN * (i as int),
                            (count - i) as nat,
                        ) is None);
                    }
                    return None;
                },
                Some(b) => {
                    proof {
                        assert(dec_backend(body, 4 + BACKEND_WIRE_LEN * (i as int)) == Some(b));
                        assert(dec_backends(
                            body,
                            4 + BACKEND_WIRE_LEN * (i as int),
                            (count - i) as nat,
                        ) == (match dec_backends(
                            body,
                            4 + BACKEND_WIRE_LEN * (i + 1 as int),
                            (count - i - 1) as nat,
                        ) {
                            None => None::<Seq<Backend>>,
                            Some(rest) => Some(seq![b] + rest),
                        }));
                        match dec_backends(
                            body,
                            4 + BACKEND_WIRE_LEN * (i + 1 as int),
                            (count - i - 1) as nat,
                        ) {
                            Some(rest) => {
                                assert((done@ + (seq![b] + rest)) =~= (done@.push(b) + rest));
                            },
                            None => (),
                        }
                    }
                    done.push(b);
                },
            }
            i = i + 1;
        }
        proof {
            assert(dec_backends(body, 4 + BACKEND_WIRE_LEN * (count as int), 0) == Some(
                Seq::<Backend>::empty(),
            ));
            assert(done@ + Seq::<Backend>::empty() =~= done@);
            assert(dec_backends(body, 4, count as nat) == Some(done@));
        }
        Some((SyncMessage::FullPoolSnapshot(done), used))
    } else if tag == 2 {
        if body_len != 19 {
            return None;
        }
        proof {
            assert(forall|k: int| 0 <= k < BACKEND_WIRE_LEN ==> #[trigger] body[k] == buf@[6 + k]);
        }
        match read_backend(buf, 6) {
            None => {
                proof {
                    assert(dec_backend(body, 0) is None);
                }
                None
            },
            Some(b) => {
                proof {
                    assert(dec_backend(body, 0) == Some(b));
                }
                Some((SyncMessage::BackendAdded(b), used))
            },
        }
    } else if tag == 3 {
        if body_len != 6 {
            return None;
        }
        let a = Addr { ip: read_u32(buf, 6), port: read_u16(buf, 10) };
        proof {
            assert(dec_addr(body, 0) == a);
        }
        Some((SyncMessage::BackendRemoved(a), used))
    } else if tag == 4 {
        if body_len != 7 {
            return None;
        }
        let a = Addr { ip: read_u32(buf, 6), port: read_u16(buf, 10) };
        let hb = buf[12];
        proof {
            assert(dec_addr(body, 0) == a);
            assert(body[6] == buf@[12]);
        }
        if hb == 0 {
            Some((SyncMessage::HealthChanged(a, Health::Healthy), used))
        } else if hb == 1 {
            Some((SyncMessage::HealthChanged(a, Health::Unhealthy), used))
        } else if hb == 2 {
            Some((SyncMessage::HealthChanged(a, Health::Unknown), used))
        } else {
            None
        }
    } else if tag == 5 {
        if body_len != 39 {
            return None;
        }
        let sb = buf[44];
        proof {
            assert(body[38] == buf@[44]);
        }
        if sb != 0 {
            return None;
        }
        let c = Config {
            public_addr: Addr { ip: read_u32(buf, 6), port: read_u16(buf, 10) },
            admin_addr: Addr { ip: read_u32(buf, 12), port: read_u16(buf, 16) },
            control_addr: Addr { ip: read_u32(buf, 18), port: read_u16(buf, 22) },
            health_interval_ms: read_u64(buf, 24),
            probe_timeout_ms: read_u64(buf, 32),
            failure_threshold: read_u32(buf, 40),
            strategy: Strategy::RoundRobin,
        };
        proof {
            assert(dec_config(body, 0) == Some(c));
        }
        Some((SyncMessage::ConfigUpdate(c), used))
    } else {
        None
    }
}

} // verus!
