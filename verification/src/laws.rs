//! General properties of the sliding-window rate limiter, proved once and
//! for all over the spec-level model (`recent_of`, `accepts`, `step`).

use vstd::prelude::*;

verus! {

use crate::rate_limit::{accepts, kept_after, recent_of, step, REQUEST_LIMIT, WINDOW_MILLIS};

/// The history left behind by requests at each time of `times` in turn,
/// starting from history `h`. This is what a serialized sequence of
/// `check_if_rate_limited` calls leaves for one address.
pub open spec fn run(h: Seq<u64>, times: Seq<u64>) -> Seq<u64>
    decreases times.len(),
{
    if times.len() == 0 {
        h
    } else {
        step(run(h, times.drop_last()), times.last())
    }
}

/// Every timestamp that pruning keeps lies strictly after the cutoff.
pub proof fn lemma_kept_after_members(s: Seq<u64>, cutoff: int)
    ensures
        forall|i: int| 0 <= i < kept_after(s, cutoff).len() ==> kept_after(s, cutoff)[i] > cutoff,
    decreases s.len(),
{
    if s.len() > 0 {
        lemma_kept_after_members(s.drop_last(), cutoff);
        let rest = kept_after(s.drop_last(), cutoff);
        if s.last() > cutoff {
            assert(kept_after(s, cutoff) == rest.push(s.last()));
            assert forall|i: int| 0 <= i < rest.push(s.last()).len() implies rest.push(
                s.last(),
            )[i] > cutoff by {
                if i < rest.len() {
                    assert(rest[i] > cutoff);
                }
            }
        } else {
            assert(kept_after(s, cutoff) == rest);
        }
    }
}

/// Pruning a history whose timestamps are all at or before the cutoff
/// leaves nothing.
pub proof fn lemma_kept_after_all_stale(s: Seq<u64>, cutoff: int)
    requires
        forall|i: int| 0 <= i < s.len() ==> s[i] <= cutoff,
    ensures
        kept_after(s, cutoff) == Seq::<u64>::empty(),
    decreases s.len(),
{
    if s.len() > 0 {
        lemma_kept_after_all_stale(s.drop_last(), cutoff);
    }
}

/// Pruning a history whose timestamps all lie strictly after the cutoff
/// keeps it whole.
pub proof fn lemma_kept_after_all_recent(s: Seq<u64>, cutoff: int)
    requires
        forall|i: int| 0 <= i < s.len() ==> s[i] > cutoff,
    ensures
        kept_after(s, cutoff) == s,
    decreases s.len(),
{
    if s.len() > 0 {
        lemma_kept_after_all_recent(s.drop_last(), cutoff);
        assert(kept_after(s.drop_last(), cutoff).push(s.last()) =~= s);
    }
}

/// Pruning at a later cutoff ignores anything an earlier cutoff had already
/// dropped.
pub proof fn lemma_kept_after_absorb(s: Seq<u64>, c1: int, c2: int)
    requires
        c1 <= c2,
    ensures
        kept_after(kept_after(s, c1), c2) == kept_after(s, c2),
    decreases s.len(),
{
    if s.len() > 0 {
        lemma_kept_after_absorb(s.drop_last(), c1, c2);
        if s.last() > c1 {
            let k1 = kept_after(s, c1);
            assert(k1.drop_last() == kept_after(s.drop_last(), c1));
            assert(k1.last() == s.last());
        }
    }
}

/// Old requests never count against a later window: when `t2` lies more
/// than a window past `t1`, the history a request at `t2` is evaluated
/// against is the same as if everything from `t1` or before had already
/// been removed, and every timestamp it still counts lies strictly after
/// `t1`.
pub proof fn lemma_expired_requests_ignored(s: Seq<u64>, t1: u64, t2: u64)
    requires
        t1 < t2,
        t2 - t1 > WINDOW_MILLIS,
    ensures
        recent_of(s, t2) == recent_of(kept_after(s, t1 as int), t2),
        forall|i: int| 0 <= i < recent_of(s, t2).len() ==> recent_of(s, t2)[i] > t1,
        accepts(s, t2) == accepts(kept_after(s, t1 as int), t2),
{
    lemma_kept_after_absorb(s, t1 as int, t2 - WINDOW_MILLIS);
    lemma_kept_after_members(s, t2 - WINDOW_MILLIS);
}

/// A burst entirely inside one window, arriving after everything older has
/// expired, leaves exactly its own timestamps as the history: no request,
/// accepted or rejected, is lost or duplicated.
pub proof fn lemma_burst_history(h: Seq<u64>, times: Seq<u64>)
    requires
        times.len() > 0,
        forall|i: int| 0 <= i < h.len() ==> h[i] as int <= times[0] - WINDOW_MILLIS,
        forall|i: int, j: int|
            0 <= i <= j < times.len() ==> times[i] <= times[j] && times[j] - times[i]
                < WINDOW_MILLIS,
    ensures
        run(h, times) == times,
    decreases times.len(),
{
    if times.len() == 1 {
        lemma_kept_after_all_stale(h, times[0] - WINDOW_MILLIS);
        assert(times.drop_last().len() == 0);
        assert(run(h, times.drop_last()) == h);
        assert(run(h, times) == step(h, times[0]));
        assert(recent_of(h, times[0]).push(times[0]) =~= times);
    } else {
        let front = times.drop_last();
        let last = times.last();
        lemma_burst_history(h, front);
        assert(run(h, times) == step(front, last));
        assert(forall|i: int| 0 <= i < front.len() ==> front[i] as int > last - WINDOW_MILLIS);
        lemma_kept_after_all_recent(front, last as int - WINDOW_MILLIS);
        assert(recent_of(front, last) == front);
        assert(front.push(last) =~= times);
    }
}

/// Within one window, starting with everything older expired, the k-th
/// request from an address (counting from one) is accepted exactly when
/// k is at most `REQUEST_LIMIT`: the limit-th request is accepted, the
/// one after it is rejected, whatever mix of accepted and rejected
/// requests came before.
pub proof fn lemma_request_threshold(h: Seq<u64>, times: Seq<u64>, k: int)
    requires
        0 <= k < times.len(),
        forall|i: int| 0 <= i < h.len() ==> h[i] as int <= times[0] - WINDOW_MILLIS,
        forall|i: int, j: int|
            0 <= i <= j < times.len() ==> times[i] <= times[j] && times[j] - times[i]
                < WINDOW_MILLIS,
    ensures
        accepts(run(h, times.take(k)), times[k]) <==> k < REQUEST_LIMIT,
{
    if k == 0 {
        assert(times.take(0) =~= Seq::<u64>::empty());
        assert(run(h, times.take(0)) == h);
        lemma_kept_after_all_stale(h, times[0] - WINDOW_MILLIS);
    } else {
        let front = times.take(k);
        assert(front[0] == times[0]);
        lemma_burst_history(h, front);
        assert(forall|i: int| 0 <= i < front.len() ==> front[i] as int > times[k] - WINDOW_MILLIS);
        lemma_kept_after_all_recent(front, times[k] as int - WINDOW_MILLIS);
        assert(recent_of(front, times[k]) == front);
    }
}

/// Serialized calls lose no update: a burst of `n` requests inside one
/// window, after everything older has expired, leaves a history of length
/// exactly `n`, rejected requests included.
pub proof fn lemma_no_lost_requests(h: Seq<u64>, times: Seq<u64>)
    requires
        times.len() > 0,
        forall|i: int| 0 <= i < h.len() ==> h[i] as int <= times[0] - WINDOW_MILLIS,
        forall|i: int, j: int|
            0 <= i <= j < times.len() ==> times[i] <= times[j] && times[j] - times[i]
                < WINDOW_MILLIS,
    ensures
        run(h, times).len() == times.len(),
{
    lemma_burst_history(h, times);
}

/// Right after a request at `now`, every stored timestamp of that address
/// lies strictly inside the window: pruning is lazy, but never leaves a
/// stale record behind at the moment of access.
pub proof fn lemma_history_recent_after_step(h: Seq<u64>, now: u64)
    ensures
        forall|i: int|
            0 <= i < step(h, now).len() ==> step(h, now)[i] as int > now - WINDOW_MILLIS,
{
    lemma_kept_after_members(h, now - WINDOW_MILLIS);
    let recent = recent_of(h, now);
    assert forall|i: int| 0 <= i < step(h, now).len() implies step(h, now)[i] as int > now
        - WINDOW_MILLIS by {
        if i < recent.len() {
            assert(step(h, now)[i] == recent[i]);
        } else {
            assert(step(h, now)[i] == now);
        }
    }
}

/// A rejected request still occupies a slot: whatever the decision, the
/// new history is the pruned one plus the current timestamp.
pub proof fn lemma_rejected_requests_recorded(h: Seq<u64>, now: u64)
    ensures
        step(h, now).len() == recent_of(h, now).len() + 1,
        step(h, now).last() == now,
{
}

/// Once a full window passes with no request, the whole history of an
/// address — rejected requests included — is pruned by its next request.
pub proof fn lemma_idle_window_clears(h: Seq<u64>, now: u64)
    requires
        forall|i: int| 0 <= i < h.len() ==> h[i] as int <= now - WINDOW_MILLIS,
    ensures
        recent_of(h, now) == Seq::<u64>::empty(),
        step(h, now) == seq![now],
        accepts(h, now),
{
    lemma_kept_after_all_stale(h, now - WINDOW_MILLIS);
    assert(recent_of(h, now).push(now) =~= seq![now]);
}

} // verus!
