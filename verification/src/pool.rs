//! The backend pool: an ordered set of upstream servers with health state and
//! a round-robin selection cursor.
//!
//! Exactly one authoritative pool exists (owned by the manager); every worker
//! holds a replica built from sync messages. Both are values of [`Pool`].
//! Selection skips backends that are not healthy; unhealthy backends stay in
//! the pool, eligible to recover.

use vstd::prelude::*;

verus! {

/// Health state of a single backend.
#[derive(Clone, Copy, PartialEq, Eq, Structural, Debug)]
pub enum Health {
    Healthy,
    Unhealthy,
    Unknown,
}

/// A backend address: an IPv4 address and a TCP port, held as plain integers.
#[derive(Clone, Copy, PartialEq, Eq, Structural, Debug)]
pub struct Addr {
    pub ip: u32,
    pub port: u16,
}

/// One upstream server: its address, health, and probe bookkeeping.
#[derive(Clone, Copy, PartialEq, Eq, Structural, Debug)]
pub struct Backend {
    pub address: Addr,
    pub health: Health,
    pub consecutive_failures: u32,
    pub last_checked: u64,
}

/// The backend a pool holds right after an address is added: health unknown,
/// no failures recorded yet.
pub open spec fn initial_backend(address: Addr) -> Backend {
    Backend { address, health: Health::Unknown, consecutive_failures: 0, last_checked: 0 }
}

/// Selection may return a backend only in this state.
pub open spec fn is_healthy(b: Backend) -> bool {
    b.health == Health::Healthy
}

/// No two entries share an address.
pub open spec fn unique_addrs(s: Seq<Backend>) -> bool {
    forall|i: int, j: int| 0 <= i < j < s.len() ==> s[i].address != s[j].address
}

/// Some entry has this address.
pub open spec fn has_addr(s: Seq<Backend>, a: Addr) -> bool {
    exists|i: int| 0 <= i < s.len() && s[i].address == a
}

/// The index of the entry with this address (meaningful when `has_addr` holds
/// and addresses are unique).
pub open spec fn addr_index(s: Seq<Backend>, a: Addr) -> int {
    choose|i: int| 0 <= i < s.len() && s[i].address == a
}

/// Every entry is healthy (and there is at least one).
pub open spec fn all_healthy(s: Seq<Backend>) -> bool {
    forall|i: int| 0 <= i < s.len() ==> is_healthy(s[i])
}

/// The cyclic index reached from `c` after `t` forward steps in a pool of
/// length `n`, for `0 <= c < n` and `0 <= t < n`.
pub open spec fn rr_idx(c: int, t: int, n: int) -> int {
    if c + t < n {
        c + t
    } else {
        c + t - n
    }
}

/// The index of the first healthy entry reached from cursor `c` in `t` or
/// more (but fewer than `s.len()`) forward steps, scanning cyclically.
pub open spec fn find_healthy_from(s: Seq<Backend>, c: int, t: int) -> Option<int>
    decreases s.len() - t,
{
    if t < 0 || t >= s.len() {
        None
    } else if is_healthy(s[rr_idx(c, t, s.len() as int)]) {
        Some(rr_idx(c, t, s.len() as int))
    } else {
        find_healthy_from(s, c, t + 1)
    }
}

impl Backend {
    /// A backend as first inserted into a pool.
    pub fn new(address: Addr) -> (b: Backend)
        ensures
            b == initial_backend(address),
    {
        Backend { address, health: Health::Unknown, consecutive_failures: 0, last_checked: 0 }
    }
}

/// The ordered pool of backends plus the round-robin cursor.
pub struct Pool {
    backends: Vec<Backend>,
    cursor: usize,
}

impl View for Pool {
    type V = Seq<Backend>;

    closed spec fn view(&self) -> Seq<Backend> {
        self.backends@
    }
}

impl Pool {
    /// The cursor, as a mathematical integer.
    pub closed spec fn cursor_at(self) -> int {
        self.cursor as int
    }

    /// Pool invariant: addresses are unique and the cursor is a valid index
    /// (or 0 when the pool is empty).
    pub open spec fn wf(self) -> bool {
        &&& unique_addrs(self@)
        &&& if self@.len() == 0 {
            self.cursor_at() == 0
        } else {
            0 <= self.cursor_at() < self@.len()
        }
    }

    /// The index of the backend the next selection returns, if any: the first
    /// healthy entry at or cyclically after the cursor.
    pub open spec fn spec_next(self) -> Option<int> {
        if self@.len() == 0 {
            None
        } else {
            find_healthy_from(self@, self.cursor_at(), 0)
        }
    }

    /// An empty pool.
    pub fn new() -> (p: Pool)
        ensures
            p.wf(),
            p@ =~= Seq::<Backend>::empty(),
            p.cursor_at() == 0,
    {
        Pool { backends: Vec::new(), cursor: 0 }
    }

    /// How many backends the pool holds, healthy or not.
    pub fn len(&self) -> (n: usize)
        ensures
            n == self@.len(),
    {
        self.backends.len()
    }

    /// The index of the entry with this address, scanning from the front.
    fn index_of(&self, address: Addr) -> (r: Option<usize>)
        ensures
            match r {
                Some(i) => i < self@.len() && self@[i as int].address == address,
                None => !has_addr(self@, address),
            },
    {
        let n = self.backends.len();
        let mut i: usize = 0;
        while i < n
            invariant
                i <= n,
                n == self@.len(),
                forall|t: int| 0 <= t < i ==> self@[t].address != address,
            decreases n - i,
        {
            if self.backends[i].address == address {
                return Some(i);
            }
            i = i + 1;
        }
        None
    }

    /// Whether some backend in the pool has this address.
    pub fn contains(&self, address: Addr) -> (r: bool)
        ensures
            r == has_addr(self@, address),
    {
        match self.index_of(address) {
            Some(_) => true,
            None => false,
        }
    }

    /// The backend registered under this address, if any.
    pub fn get(&self, address: Addr) -> (r: Option<Backend>)
        requires
            self.wf(),
        ensures
            match r {
                Some(b) => has_addr(self@, address) && 0 <= addr_index(self@, address)
                    < self@.len() && b == self@[addr_index(self@, address)],
                None => !has_addr(self@, address),
            },
    {
        match self.index_of(address) {
            Some(i) => {
                proof {
                    lemma_addr_index_agrees(self@, address, i as int);
                }
                Some(self.backends[i])
            },
            None => None,
        }
    }

    /// Insert a backend in unknown health; a no-op when the address is
    /// already present. Returns whether the pool changed.
    pub fn add(&mut self, address: Addr) -> (added: bool)
        requires
            old(self).wf(),
        ensures
            final(self).wf(),
            added == !has_addr(old(self)@, address),
            final(self)@ == if has_addr(old(self)@, address) {
                old(self)@
            } else {
                old(self)@.push(initial_backend(address))
            },
            final(self).cursor_at() == old(self).cursor_at(),
    {
        if self.contains(address) {
            false
        } else {
            let ghost pre = self@;
            self.backends.push(Backend::new(address));
            proof {
                assert forall|i: int, j: int| 0 <= i < j < self@.len() implies self@[i].address
                    != self@[j].address by {
                    if j == pre.len() {
                        assert(self@[i] == pre[i]);
                    }
                }
            }
            true
        }
    }

    /// Remove the entry with this address; a no-op when it is absent.
    /// Returns whether the pool changed. Order of the other entries is kept.
    pub fn remove(&mut self, address: Addr) -> (removed: bool)
        requires
            old(self).wf(),
        ensures
            final(self).wf(),
            removed == has_addr(old(self)@, address),
            final(self)@ == remove_addr(old(self)@, address),
            forall|x: Addr| has_addr(final(self)@, x) <==> has_addr(old(self)@, x) && x
                != address,
            final(self).cursor_at() == cursor_after_remove(
                old(self)@,
                address,
                old(self).cursor_at(),
            ),
    {
        let ghost pre = self@;
        match self.index_of(address) {
            None => {
                proof {
                    assert forall|x: Addr|
                        has_addr(self@, x) <==> has_addr(pre, x) && x != address by {
                        if has_addr(pre, x) && x != address {
                            assert(has_addr(self@, x));
                        }
                    }
                }
                false
            },
            Some(i) => {
                proof {
                    lemma_addr_index_agrees(pre, address, i as int);
                }
                self.backends.remove(i);
                if i < self.cursor {
                    self.cursor = self.cursor - 1;
                } else if self.cursor >= self.backends.len() {
                    self.cursor = 0;
                }
                proof {
                    lemma_remove_keeps_unique_addrs(pre, i as int);
                    assert(self@ == pre.remove(i as int));
                    assert forall|x: Addr|
                        has_addr(self@, x) <==> has_addr(pre, x) && x != address by {
                        lemma_remove_addr_membership(pre, i as int, x);
                    }
                }
                true
            },
        }
    }

    /// An immutable copy of the backends, for propagation.
    pub fn snapshot(&self) -> (v: Vec<Backend>)
        ensures
            v@ == self@,
    {
        let n = self.backends.len();
        let mut v: Vec<Backend> = Vec::new();
        let mut i: usize = 0;
        while i < n
            invariant
                i <= n,
                n == self@.len(),
                v@ == self@.subrange(0, i as int),
            decreases n - i,
        {
            v.push(self.backends[i]);
            proof {
                assert(v@ =~= self@.subrange(0, i + 1 as int));
            }
            i = i + 1;
        }
        proof {
            assert(v@ =~= self@);
        }
        v
    }

    /// The next backend in round-robin order: the first healthy entry at or
    /// cyclically after the cursor. Advances the cursor past the returned
    /// entry. Returns `None`, and leaves the cursor alone, when no backend is
    /// healthy — never a fault.
    pub fn next(&mut self) -> (r: Option<Addr>)
        requires
            old(self).wf(),
        ensures
            final(self).wf(),
            final(self)@ == old(self)@,
            match old(self).spec_next() {
                Some(j) => {
                    &&& 0 <= j < old(self)@.len()
                    &&& is_healthy(old(self)@[j])
                    &&& r == Some(old(self)@[j].address)
                    &&& final(self).cursor_at() == if j + 1 == old(self)@.len() {
                        0int
                    } else {
                        j + 1
                    }
                },
                None => r is None && final(self).cursor_at() == old(self).cursor_at(),
            },
            (r is None) <==> (forall|i: int|
                0 <= i < old(self)@.len() ==> !is_healthy(old(self)@[i])),
    {
        let ghost s = self@;
        let n = self.backends.len();
        if n == 0 {
            return None;
        }
        let c = self.cursor;
        let mut t: usize = 0;
        while t < n
            invariant
                self == old(self),
                old(self).wf(),
                s == old(self)@,
                self.cursor_at() == c as int,
                0 <= c < n,
                n == s.len(),
                t <= n,
                find_healthy_from(s, c as int, 0) == find_healthy_from(s, c as int, t as int),
                forall|u: int| 0 <= u < t ==> !is_healthy(s[rr_idx(c as int, u, n as int)]),
            decreases n - t,
        {
            let idx = if t >= n - c {
                t - (n - c)
            } else {
                c + t
            };
            proof {
                assert(idx as int == rr_idx(c as int, t as int, n as int));
            }
            if self.backends[idx].health == Health::Healthy {
                let a = self.backends[idx].address;
                self.cursor = if idx + 1 == n {
                    0
                } else {
                    idx + 1
                };
                proof {
                    assert(find_healthy_from(s, c as int, t as int) == Some(idx as int));
                }
                return Some(a);
            }
            t = t + 1;
        }
        proof {
            assert(find_healthy_from(s, c as int, n as int) is None);
            assert forall|i: int| 0 <= i < s.len() implies !is_healthy(s[i]) by {
                let u: int = if i >= c as int {
                    i - c
                } else {
                    i + n - c
                };
                assert(rr_idx(c as int, u, n as int) == i);
                assert(!is_healthy(s[rr_idx(c as int, u, n as int)]));
            }
        }
        None
    }
}

/// One probe outcome folded into a backend. On success: healthy, counter
/// cleared. On failure: counter up by one (saturating), and unhealthy once the
/// counter reaches the threshold. The probe time is recorded either way.
pub open spec fn probe_step(b: Backend, success: bool, threshold: u32, now: u64) -> Backend {
    if success {
        Backend { health: Health::Healthy, consecutive_failures: 0, last_checked: now, ..b }
    } else {
        let f = if b.consecutive_failures < u32::MAX {
            (b.consecutive_failures + 1) as u32
        } else {
            u32::MAX
        };
        let h = if f >= threshold {
            Health::Unhealthy
        } else {
            b.health
        };
        Backend { health: h, consecutive_failures: f, last_checked: now, ..b }
    }
}

/// The pool contents after one probe outcome for `a`: the entry for `a`
/// stepped by [`probe_step`], everything else unchanged; the contents
/// unchanged when `a` is absent.
pub open spec fn mark_spec(
    s: Seq<Backend>,
    a: Addr,
    success: bool,
    threshold: u32,
    now: u64,
) -> Seq<Backend> {
    if has_addr(s, a) {
        let i = addr_index(s, a);
        s.update(i, probe_step(s[i], success, threshold, now))
    } else {
        s
    }
}

impl Pool {
    /// Fold one probe outcome for `a` into the pool, per the health monitor's
    /// policy ([`probe_step`]). Returns the new health state when the probe
    /// flipped it, `None` when nothing flipped (or `a` is absent).
    pub fn mark_health(&mut self, address: Addr, success: bool, threshold: u32, now: u64) -> (r:
        Option<Health>)
        requires
            old(self).wf(),
        ensures
            final(self).wf(),
            final(self)@ == mark_spec(old(self)@, address, success, threshold, now),
            final(self).cursor_at() == old(self).cursor_at(),
            r == if has_addr(old(self)@, address) && probe_step(
                old(self)@[addr_index(old(self)@, address)],
                success,
                threshold,
                now,
            ).health != old(self)@[addr_index(old(self)@, address)].health {
                Some(
                    probe_step(
                        old(self)@[addr_index(old(self)@, address)],
                        success,
                        threshold,
                        now,
                    ).health,
                )
            } else {
                None::<Health>
            },
    {
        let ghost pre = self@;
        match self.index_of(address) {
            None => None,
            Some(i) => {
                proof {
                    lemma_addr_index_agrees(pre, address, i as int);
                }
                let b = self.backends[i];
                let nb = if success {
                    Backend {
                        health: Health::Healthy,
                        consecutive_failures: 0,
                        last_checked: now,
                        ..b
                    }
                } else {
                    let f = if b.consecutive_failures < u32::MAX {
                        b.consecutive_failures + 1
                    } else {
                        u32::MAX
                    };
                    let h = if f >= threshold {
                        Health::Unhealthy
                    } else {
                        b.health
                    };
                    Backend { health: h, consecutive_failures: f, last_checked: now, ..b }
                };
                self.backends[i] = nb;
                proof {
                    assert(nb == probe_step(b, success, threshold, now));
                    assert forall|x: int, y: int| 0 <= x < y < self@.len() implies self@[x].address
                        != self@[y].address by {
                        assert(pre[x].address != pre[y].address);
                    }
                }
                if nb.health == b.health {
                    None
                } else {
                    Some(nb.health)
                }
            },
        }
    }
}

/// The sequence with the entry for `a` set to health `h` (counters kept); the
/// sequence itself when `a` is absent.
pub open spec fn set_health(s: Seq<Backend>, a: Addr, h: Health) -> Seq<Backend> {
    if has_addr(s, a) {
        let i = addr_index(s, a);
        s.update(i, Backend { health: h, ..s[i] })
    } else {
        s
    }
}

impl Pool {
    /// Insert a backend as it stands (health included); a no-op when its
    /// address is already present. Used when applying replicated state.
    pub fn add_backend(&mut self, b: Backend) -> (added: bool)
        requires
            old(self).wf(),
        ensures
            final(self).wf(),
            added == !has_addr(old(self)@, b.address),
            final(self)@ == if has_addr(old(self)@, b.address) {
                old(self)@
            } else {
                old(self)@.push(b)
            },
            final(self).cursor_at() == old(self).cursor_at(),
    {
        if self.contains(b.address) {
            false
        } else {
            let ghost pre = self@;
            self.backends.push(b);
            proof {
                assert forall|i: int, j: int| 0 <= i < j < self@.len() implies self@[i].address
                    != self@[j].address by {
                    if j == pre.len() {
                        assert(self@[i] == pre[i]);
                    }
                }
            }
            true
        }
    }

    /// Set the health of the entry for `address` outright (replica apply of a
    /// health change); a no-op when it is absent. Returns whether an entry
    /// was found.
    pub fn set_backend_health(&mut self, address: Addr, h: Health) -> (found: bool)
        requires
            old(self).wf(),
        ensures
            final(self).wf(),
            found == has_addr(old(self)@, address),
            final(self)@ == set_health(old(self)@, address, h),
            final(self).cursor_at() == old(self).cursor_at(),
    {
        let ghost pre = self@;
        match self.index_of(address) {
            None => false,
            Some(i) => {
                proof {
                    lemma_addr_index_agrees(pre, address, i as int);
                }
                let b = self.backends[i];
                self.backends[i] = Backend { health: h, ..b };
                proof {
                    assert forall|x: int, y: int| 0 <= x < y < self@.len() implies self@[x].address
                        != self@[y].address by {
                        assert(pre[x].address != pre[y].address);
                    }
                }
                true
            },
        }
    }

    /// Replace the whole contents (a full snapshot) and reset the cursor.
    pub fn replace_all(&mut self, backends: Vec<Backend>)
        requires
            unique_addrs(backends@),
        ensures
            final(self).wf(),
            final(self)@ == backends@,
            final(self).cursor_at() == 0,
    {
        self.backends = backends;
        self.cursor = 0;
    }
}

/// Whether no two backends in the vector share an address; lets a caller
/// establish [`unique_addrs`] for decoded or hand-built contents.
pub fn backends_unique(v: &Vec<Backend>) -> (r: bool)
    ensures
        r == unique_addrs(v@),
{
    let n = v.len();
    let mut i: usize = 0;
    while i < n
        invariant
            i <= n,
            n == v@.len(),
            forall|x: int, y: int| 0 <= x < y < i ==> v@[x].address != v@[y].address,
        decreases n - i,
    {
        let mut j: usize = 0;
        while j < i
            invariant
                j <= i < n,
                n == v@.len(),
                forall|x: int, y: int| 0 <= x < y < i ==> v@[x].address != v@[y].address,
                forall|x: int| 0 <= x < j ==> v@[x].address != v@[i as int].address,
            decreases i - j,
        {
            if v[j].address == v[i].address {
                proof {
                    assert(0 <= j < i < v@.len() && v@[j as int].address == v@[i as int].address);
                }
                return false;
            }
            j = j + 1;
        }
        i = i + 1;
    }
    true
}

/// Where the cursor stands after removing `a`: entries before it shift it
/// back by one, and a cursor left past the end wraps to the front.
pub open spec fn cursor_after_remove(s: Seq<Backend>, a: Addr, c: int) -> int {
    if !has_addr(s, a) {
        c
    } else {
        let i = addr_index(s, a);
        let c2: int = if i < c {
            c - 1
        } else {
            c
        };
        if c2 >= s.len() - 1 {
            0int
        } else {
            c2
        }
    }
}

/// The sequence with the (unique) entry for `a` removed; the sequence itself
/// when `a` is absent.
pub open spec fn remove_addr(s: Seq<Backend>, a: Addr) -> Seq<Backend> {
    if has_addr(s, a) {
        s.remove(addr_index(s, a))
    } else {
        s
    }
}

/// With unique addresses, any index holding `a` is the `addr_index`.
pub proof fn lemma_addr_index_agrees(s: Seq<Backend>, a: Addr, i: int)
    requires
        unique_addrs(s),
        0 <= i < s.len(),
        s[i].address == a,
    ensures
        has_addr(s, a),
        addr_index(s, a) == i,
{
    assert(has_addr(s, a));
    let j = addr_index(s, a);
    assert(0 <= j < s.len() && s[j].address == a);
    if i < j {
        assert(s[i].address != s[j].address);
    } else if j < i {
        assert(s[j].address != s[i].address);
    }
}

/// Removing an entry keeps the remaining addresses unique.
pub proof fn lemma_remove_keeps_unique_addrs(s: Seq<Backend>, i: int)
    requires
        unique_addrs(s),
        0 <= i < s.len(),
    ensures
        unique_addrs(s.remove(i)),
{
    let r = s.remove(i);
    assert forall|x: int, y: int| 0 <= x < y < r.len() implies r[x].address != r[y].address by {
        let x0: int = if x < i {
            x
        } else {
            x + 1
        };
        let y0: int = if y < i {
            y
        } else {
            y + 1
        };
        assert(r[x] == s[x0]);
        assert(r[y] == s[y0]);
    }
}

/// After removing index `i`, an address is present exactly when it was
/// present before and is not the removed one (addresses unique).
pub proof fn lemma_remove_addr_membership(s: Seq<Backend>, i: int, x: Addr)
    requires
        unique_addrs(s),
        0 <= i < s.len(),
    ensures
        has_addr(s.remove(i), x) <==> (has_addr(s, x) && x != s[i].address),
{
    let r = s.remove(i);
    if has_addr(r, x) {
        let k = choose|k: int| 0 <= k < r.len() && r[k].address == x;
        let k0: int = if k < i {
            k
        } else {
            k + 1
        };
        assert(r[k] == s[k0]);
        assert(has_addr(s, x));
        if x == s[i].address {
            assert(s[k0].address == s[i].address && k0 != i);
            if k0 < i {
                assert(s[k0].address != s[i].address);
            } else {
                assert(s[i].address != s[k0].address);
            }
        }
    }
    if has_addr(s, x) && x != s[i].address {
        let k = choose|k: int| 0 <= k < s.len() && s[k].address == x;
        assert(k != i);
        let k1: int = if k < i {
            k
        } else {
            k - 1
        };
        assert(r[k1] == s[k]);
        assert(has_addr(r, x));
    }
}

} // verus!
