//! Sliding-window request rate limiting, keyed by client address.
//!
//! The limiter keeps, per address, the timestamps of its recent requests.
//! A request at time `now` first prunes every recorded timestamp that has
//! left the window, then records `now` unconditionally, and is accepted
//! exactly when the count of still-recent timestamps before the new record
//! was below the limit. Timestamps are plain milliseconds supplied by the
//! caller, so a clock can be injected.

use vstd::prelude::*;

verus! {

/// Maximum number of requests recorded per address within one window
/// before further requests are rejected.
pub const REQUEST_LIMIT: usize = 120;

/// Width of the sliding window, in milliseconds.
pub const WINDOW_MILLIS: u64 = 10000;

/// A client network address, the key under which requests are counted:
/// an IPv4 address as its 32-bit value, or an IPv6 address as its 128-bit
/// value.
#[derive(Clone, Copy, PartialEq, Eq, Structural, Debug)]
pub enum ClientAddr {
    V4(u32),
    V6(u128),
}

/// The IPv4 address `a.b.c.d` as a `ClientAddr`.
pub fn client_addr_v4(a: u8, b: u8, c: u8, d: u8) -> (r: ClientAddr)
    ensures
        r matches ClientAddr::V4(v) && v == a * 0x1000000 + b * 0x10000 + c * 0x100 + d,
{
    ClientAddr::V4(
        (a as u32) * 0x1000000 + (b as u32) * 0x10000 + (c as u32) * 0x100 + (d as u32),
    )
}

/// The timestamps of `s` that lie strictly after `cutoff`, in their
/// original order.
pub open spec fn kept_after(s: Seq<u64>, cutoff: int) -> Seq<u64>
    decreases s.len(),
{
    if s.len() == 0 {
        Seq::empty()
    } else {
        let rest = kept_after(s.drop_last(), cutoff);
        if s.last() > cutoff {
            rest.push(s.last())
        } else {
            rest
        }
    }
}

/// The part of a history still recent at `now`: timestamps strictly inside
/// the window. A timestamp exactly at the boundary is pruned.
pub open spec fn recent_of(s: Seq<u64>, now: u64) -> Seq<u64> {
    kept_after(s, now - WINDOW_MILLIS)
}

/// Whether a request at `now` against history `h` is accepted: the count of
/// still-recent timestamps, before the new request is recorded, is below
/// the limit.
pub open spec fn accepts(h: Seq<u64>, now: u64) -> bool {
    recent_of(h, now).len() < REQUEST_LIMIT
}

/// The history after a request at `now`: stale timestamps pruned, then
/// `now` recorded whether or not the request was accepted.
pub open spec fn step(h: Seq<u64>, now: u64) -> Seq<u64> {
    recent_of(h, now).push(now)
}

struct AddrEntry {
    addr: ClientAddr,
    times: Vec<u64>,
}

spec fn unique_addrs(s: Seq<AddrEntry>) -> bool {
    forall|i: int, j: int| 0 <= i < j < s.len() ==> s[i].addr != s[j].addr
}

spec fn has_entry(s: Seq<AddrEntry>, a: ClientAddr) -> bool {
    exists|i: int| 0 <= i < s.len() && s[i].addr == a
}

spec fn entry_times(s: Seq<AddrEntry>, a: ClientAddr) -> Seq<u64> {
    if has_entry(s, a) {
        s[choose|i: int| 0 <= i < s.len() && s[i].addr == a].times@
    } else {
        Seq::empty()
    }
}

/// Sliding-window rate limiter. One record per address ever seen; a record
/// is created on first sight and kept (possibly pruned to empty) from then
/// on.
pub struct RateLimiter {
    entries: Vec<AddrEntry>,
}

impl RateLimiter {
    #[verifier::type_invariant]
    spec fn wf(&self) -> bool {
        unique_addrs(self.entries@)
    }

    /// The recorded request timestamps of `a`, oldest first; empty for an
    /// address never seen.
    pub closed spec fn history(&self, a: ClientAddr) -> Seq<u64> {
        entry_times(self.entries@, a)
    }

    /// A fresh limiter with no requests recorded for any address.
    pub fn new() -> (r: RateLimiter)
        ensures
            forall|a: ClientAddr| r.history(a) == Seq::<u64>::empty(),
    {
        RateLimiter { entries: Vec::new() }
    }

    /// Decide whether a request from `addr` at time `now` is accepted, and
    /// record it either way.
    ///
    /// The stored history of `a` is first pruned of every timestamp at or
    /// beyond the window boundary, then `now` is appended unconditionally:
    /// a rejected request still occupies a slot and counts toward later
    /// decisions. The request is accepted exactly when the pruned count,
    /// before the append, is below `REQUEST_LIMIT`. Histories of other
    /// addresses are untouched.
    pub fn check_if_rate_limited(&mut self, addr: ClientAddr, now: u64) -> (r: Result<(), String>)
        ensures
            final(self).history(addr) == step(old(self).history(addr), now),
            forall|a: ClientAddr|
                a != addr ==> final(self).history(a) == old(self).history(a),
            r is Ok <==> accepts(old(self).history(addr), now),
            r matches Err(m) ==> m@ == "IP is rate limited :("@,
    {
        proof {
            use_type_invariant(&*self);
        }
        let mut entries: Vec<AddrEntry> = Vec::new();
        std::mem::swap(&mut entries, &mut self.entries);
        let ghost s0 = entries@;

        // Find the record of `addr`, creating it on first sight.
        let mut idx: usize = 0;
        while idx < entries.len() && !addr_eq(&entries[idx].addr, &addr)
            invariant
                entries@ == s0,
                idx <= s0.len(),
                forall|j: int| 0 <= j < idx ==> s0[j].addr != addr,
            decreases s0.len() - idx,
        {
            idx = idx + 1;
        }
        if idx == entries.len() {
            entries.push(AddrEntry { addr, times: Vec::new() });
        }
        let ghost s1 = entries@;
        let ghost times0 = s1[idx as int].times@;
        proof {
            assert(idx < s1.len() && s1[idx as int].addr == addr);
            assert forall|i: int, j: int| 0 <= i < j < s1.len() implies s1[i].addr
                != s1[j].addr by {
                if j < s0.len() {
                    assert(s0[i].addr != s0[j].addr);
                }
            }
            assert(unique_addrs(s1));
            lemma_entry_times_at(s1, addr, idx as int);
            if idx < s0.len() {
                lemma_entry_times_at(s0, addr, idx as int);
            } else {
                assert(!has_entry(s0, addr));
            }
            assert(entry_times(s0, addr) == times0);
        }

        // Prune: keep only the timestamps still strictly inside the window.
        let mut kept: Vec<u64> = Vec::new();
        let mut j: usize = 0;
        while j < entries[idx].times.len()
            invariant
                entries@ == s1,
                idx < s1.len(),
                s1[idx as int].times@ == times0,
                j <= times0.len(),
                kept@ == kept_after(times0.take(j as int), now - WINDOW_MILLIS),
            decreases times0.len() - j,
        {
            let t = entries[idx].times[j];
            if t > now || now - t < WINDOW_MILLIS {
                kept.push(t);
            }
            proof {
                assert(times0.take(j + 1).drop_last() =~= times0.take(j as int));
                assert(times0.take(j + 1).last() == times0[j as int]);
            }
            j = j + 1;
        }
        proof {
            assert(times0.take(times0.len() as int) =~= times0);
            assert(kept@ == recent_of(times0, now));
        }

        // Record the current request unconditionally, then decide.
        kept.push(now);
        let count = kept.len();
        entries[idx] = AddrEntry { addr, times: kept };
        let ghost s2 = entries@;
        proof {
            assert forall|i: int, j: int| 0 <= i < j < s2.len() implies s2[i].addr
                != s2[j].addr by {
                if i != idx && j != idx {
                    assert(s1[i].addr != s1[j].addr);
                }
            }
            assert(unique_addrs(s2));
        }
        self.entries = entries;
        proof {
            lemma_entry_times_at(s2, addr, idx as int);
            assert(entry_times(s2, addr) == step(times0, now));
            assert forall|a: ClientAddr| a != addr implies entry_times(s2, a) == entry_times(
                s0,
                a,
            ) by {
                lemma_entry_times_other(s0, s2, a, addr, idx as int);
            }
        }
        if count > REQUEST_LIMIT {
            Err("IP is rate limited :(".to_owned())
        } else {
            Ok(())
        }
    }

    /// Count of recorded requests for `a`, pruned entries excluded, as of
    /// the last request that touched `a`.
    pub fn recorded_count(&self, a: ClientAddr) -> (n: usize)
        ensures
            n == self.history(a).len(),
    {
        proof {
            use_type_invariant(self);
        }
        let mut idx: usize = 0;
        while idx < self.entries.len() && !addr_eq(&self.entries[idx].addr, &a)
            invariant
                idx <= self.entries@.len(),
                forall|j: int| 0 <= j < idx ==> self.entries@[j].addr != a,
            decreases self.entries@.len() - idx,
        {
            idx = idx + 1;
        }
        if idx < self.entries.len() {
            proof {
                lemma_entry_times_at(self.entries@, a, idx as int);
            }
            self.entries[idx].times.len()
        } else {
            proof {
                assert(!has_entry(self.entries@, a));
            }
            0
        }
    }
}

impl Default for RateLimiter {
    /// Same as `new`: no requests recorded for any address.
    fn default() -> (r: RateLimiter)
        ensures
            forall|a: ClientAddr| r.history(a) == Seq::<u64>::empty(),
    {
        RateLimiter::new()
    }
}

fn addr_eq(x: &ClientAddr, y: &ClientAddr) -> (r: bool)
    ensures
        r == (x == y),
{
    match (x, y) {
        (ClientAddr::V4(p), ClientAddr::V4(q)) => p == q,
        (ClientAddr::V6(p), ClientAddr::V6(q)) => p == q,
        _ => false,
    }
}

proof fn lemma_entry_times_other(
    s0: Seq<AddrEntry>,
    s2: Seq<AddrEntry>,
    a: ClientAddr,
    new_addr: ClientAddr,
    idx: int,
)
    requires
        unique_addrs(s0),
        0 <= idx < s2.len(),
        s0.len() <= s2.len(),
        forall|j: int| 0 <= j < s0.len() && j != idx ==> s2[j] == s0[j],
        forall|j: int| s0.len() <= j < s2.len() ==> s2[j].addr == new_addr,
        s2[idx].addr == new_addr,
        idx < s0.len() ==> s0[idx].addr == new_addr,
        a != new_addr,
    ensures
        entry_times(s2, a) == entry_times(s0, a),
{
    if has_entry(s2, a) {
        let i2 = choose|i: int| 0 <= i < s2.len() && s2[i].addr == a;
        assert(i2 != idx);
        assert(i2 < s0.len());
        assert(s0[i2].addr == a);
        assert(has_entry(s0, a));
        let i0 = choose|i: int| 0 <= i < s0.len() && s0[i].addr == a;
        assert(s0[i0].addr == a && s0[i2].addr == a);
        assert(i0 == i2);
        assert(s2[i2] == s0[i2]);
    } else {
        if has_entry(s0, a) {
            let i0 = choose|i: int| 0 <= i < s0.len() && s0[i].addr == a;
            assert(i0 != idx);
            assert(s2[i0].addr == a);
            assert(has_entry(s2, a));
        }
        assert(!has_entry(s0, a));
    }
}

proof fn lemma_entry_times_at(s: Seq<AddrEntry>, a: ClientAddr, i: int)
    requires
        unique_addrs(s),
        0 <= i < s.len(),
        s[i].addr == a,
    ensures
        has_entry(s, a),
        entry_times(s, a) == s[i].times@,
{
    assert(has_entry(s, a));
    let j = choose|j: int| 0 <= j < s.len() && s[j].addr == a;
    assert(j == i);
}

} // verus!
