//! Round-robin fairness: with every backend healthy and no topology change,
//! `m` successive selections spread over the `n` backends so that each one is
//! chosen `m / n` or `m / n + 1` times (that is, the floor or the ceiling of
//! `m / n`).

use vstd::prelude::*;
use vstd::arithmetic::div_mod::{
    lemma_fundamental_div_mod, lemma_fundamental_div_mod_converse, lemma_mod_pos_bound,
};
use crate::pool::{Backend, all_healthy, find_healthy_from, is_healthy};

verus! {

/// The cursor after `k` successive selections on fixed contents `s`,
/// starting from cursor `c0`: each selection advances past the entry it
/// returned; a selection that returns nothing leaves the cursor alone.
pub open spec fn cursor_after(s: Seq<Backend>, c0: int, k: nat) -> int
    decreases k,
{
    if k == 0 {
        c0
    } else {
        let c = cursor_after(s, c0, (k - 1) as nat);
        match find_healthy_from(s, c, 0) {
            Some(j) => if j + 1 == s.len() {
                0int
            } else {
                j + 1
            },
            None => c,
        }
    }
}

/// The index the `k`-th selection (counting from zero) returns.
pub open spec fn selected_at(s: Seq<Backend>, c0: int, k: nat) -> Option<int> {
    find_healthy_from(s, cursor_after(s, c0, k), 0)
}

/// How many of the first `m` selections return index `i`.
pub open spec fn sel_count(s: Seq<Backend>, c0: int, i: int, m: nat) -> nat
    decreases m,
{
    if m == 0 {
        0
    } else {
        sel_count(s, c0, i, (m - 1) as nat) + if selected_at(s, c0, (m - 1) as nat) == Some(i) {
            1nat
        } else {
            0nat
        }
    }
}

/// How far index `i` lies ahead of cursor `c0`, cyclically.
pub open spec fn rr_offset(c0: int, i: int, n: int) -> int {
    if i >= c0 {
        i - c0
    } else {
        i + n - c0
    }
}

/// The share of `m` selections owed to the index `d` steps ahead of the
/// starting cursor: `m / n`, plus one for the first `m % n` indices.
pub open spec fn fair_share(m: nat, n: int, d: int) -> int {
    m as int / n + if (m as int) % n > d {
        1int
    } else {
        0int
    }
}

/// With every backend healthy, a selection returns the cursor itself.
proof fn lemma_all_healthy_selects_cursor(s: Seq<Backend>, c: int)
    requires
        all_healthy(s),
        0 <= c < s.len(),
    ensures
        find_healthy_from(s, c, 0) == Some(c),
{
    assert(is_healthy(s[c]));
}

/// With every backend healthy, the cursor walks the indices cyclically:
/// after `k` selections it stands at `(c0 + k) % n`.
proof fn lemma_cursor_after_mod(s: Seq<Backend>, c0: int, k: nat)
    requires
        all_healthy(s),
        s.len() >= 1,
        0 <= c0 < s.len(),
    ensures
        cursor_after(s, c0, k) == (c0 + k) % (s.len() as int),
    decreases k,
{
    let n: int = s.len() as int;
    if k == 0 {
        lemma_fundamental_div_mod_converse(c0, n, 0, c0);
    } else {
        lemma_cursor_after_mod(s, c0, (k - 1) as nat);
        let c: int = cursor_after(s, c0, (k - 1) as nat);
        lemma_mod_pos_bound(c0 + k - 1, n);
        lemma_all_healthy_selects_cursor(s, c);
        lemma_fundamental_div_mod(c0 + k - 1, n);
        let q: int = (c0 + k - 1) / n;
        assert(n * q == q * n && (q + 1) * n == q * n + n) by (nonlinear_arith);
        if c + 1 == n {
            lemma_fundamental_div_mod_converse(c0 + k, n, q + 1, 0);
        } else {
            lemma_fundamental_div_mod_converse(c0 + k, n, q, c + 1);
        }
    }
}

/// Law (round-robin fairness): with every backend healthy and the contents
/// unchanged, among the first `m` selections the backend at index `i` is
/// returned exactly `fair_share` times — `m / n`, plus one when `i` lies
/// within the first `m % n` indices after the starting cursor. In
/// particular each backend is selected `m / n` or `m / n + 1` times, and
/// exactly `m / n` times when `n` divides `m`.
pub proof fn lemma_round_robin_fairness(s: Seq<Backend>, c0: int, i: int, m: nat)
    requires
        all_healthy(s),
        s.len() >= 1,
        0 <= c0 < s.len(),
        0 <= i < s.len(),
    ensures
        sel_count(s, c0, i, m) == fair_share(
            m,
            s.len() as int,
            rr_offset(c0, i, s.len() as int),
        ),
        sel_count(s, c0, i, m) == m as int / (s.len() as int) || sel_count(s, c0, i, m) == m as int
            / (s.len() as int) + 1,
        (m as int) % (s.len() as int) == 0 ==> sel_count(s, c0, i, m) == m as int / (
        s.len() as int),
    decreases m,
{
    let n: int = s.len() as int;
    let d: int = rr_offset(c0, i, n);
    if m == 0 {
        lemma_fundamental_div_mod_converse(0, n, 0, 0);
    } else {
        lemma_round_robin_fairness(s, c0, i, (m - 1) as nat);
        lemma_fundamental_div_mod(m - 1, n);
        lemma_mod_pos_bound(m - 1, n);
        let q: int = (m - 1) / n;
        let r: int = (m - 1) % n;
        assert(n * q == q * n && (q + 1) * n == q * n + n) by (nonlinear_arith);
        lemma_cursor_after_mod(s, c0, (m - 1) as nat);
        lemma_mod_pos_bound(c0 + m - 1, n);
        let c: int = cursor_after(s, c0, (m - 1) as nat);
        lemma_all_healthy_selects_cursor(s, c);
        if c0 + r < n {
            lemma_fundamental_div_mod_converse(c0 + m - 1, n, q, c0 + r);
        } else {
            lemma_fundamental_div_mod_converse(c0 + m - 1, n, q + 1, c0 + r - n);
        }
        if r + 1 == n {
            lemma_fundamental_div_mod_converse(m as int, n, q + 1, 0);
        } else {
            lemma_fundamental_div_mod_converse(m as int, n, q, r + 1);
        }
    }
}

} // verus!
