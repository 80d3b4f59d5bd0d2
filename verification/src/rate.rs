use vstd::prelude::*;

verus! {

// Sliding-window admission control for outbound search requests. The limiter
// never rejects: it only reports how long a caller must wait before its
// request may go out. The caller supplies the clock (milliseconds) and
// performs the wait; this keeps every decision a pure function of the
// recorded admission times.

/// Upper bound on any timestamp the limiter handles, far beyond any real
/// clock, so that window arithmetic cannot overflow.
pub const MAX_TIME_MS: i64 = 0x2000_0000_0000_0000;

/// The admission timestamps with those at or before `cutoff` evicted,
/// keeping order.
pub open spec fn retained(s: Seq<i64>, cutoff: int) -> Seq<i64>
    decreases s.len(),
{
    if s.len() == 0 {
        Seq::empty()
    } else {
        let r = retained(s.drop_last(), cutoff);
        if s.last() > cutoff {
            r.push(s.last())
        } else {
            r
        }
    }
}

/// How long an admission at `now` must wait, given the still-valid admission
/// timestamps: nothing while the window has room, otherwise until the oldest
/// retained admission leaves the window.
pub open spec fn wait_after_evict(kept: Seq<i64>, window: int, ceiling: int, now: int) -> int {
    if kept.len() >= ceiling && kept.len() > 0 {
        let w = kept[0] + window - now;
        if w > 0 {
            w
        } else {
            0
        }
    } else {
        0
    }
}

/// The wait an admission at `now` is told, starting from the given recorded
/// timestamps.
pub open spec fn wait_of(stamps: Seq<i64>, window: int, ceiling: int, now: int) -> int {
    wait_after_evict(retained(stamps, now - window), window, ceiling, now)
}

/// The recorded timestamps after admissions at each of `times`, starting from
/// an empty limiter: each admission first evicts what fell out of the window,
/// then records its own time.
pub open spec fn stamps_after(times: Seq<i64>, window: int) -> Seq<i64>
    decreases times.len(),
{
    if times.len() == 0 {
        Seq::empty()
    } else {
        retained(stamps_after(times.drop_last(), window), times.last() - window).push(times.last())
    }
}

/// Sliding-window rate limiter state: admission timestamps in milliseconds,
/// oldest first, the window length and the admission ceiling.
pub struct RateLimiter {
    pub stamps: Vec<i64>,
    pub window_ms: i64,
    pub ceiling: usize,
}

impl RateLimiter {
    /// Well-formed limiter state: window and timestamps within time bounds.
    pub open spec fn wf(self) -> bool {
        &&& 0 <= self.window_ms <= MAX_TIME_MS
        &&& forall|i: int| 0 <= i < self.stamps@.len() ==> 0 <= #[trigger] self.stamps@[i]
            <= MAX_TIME_MS
    }

    /// A fresh limiter with no admissions recorded.
    pub fn new(window_ms: i64, ceiling: usize) -> (r: RateLimiter)
        requires
            0 <= window_ms <= MAX_TIME_MS,
        ensures
            r.wf(),
            r.stamps@ == Seq::<i64>::empty(),
            r.window_ms == window_ms,
            r.ceiling == ceiling,
    {
        RateLimiter { stamps: Vec::new(), window_ms, ceiling }
    }

    /// Admits a request at time `now`: evicts timestamps that left the window,
    /// reports the wait the caller owes before sending, and records the
    /// admission. No request is ever rejected.
    pub fn admit_at(&mut self, now: i64) -> (wait_ms: i64)
        requires
            old(self).wf(),
            0 <= now <= MAX_TIME_MS,
        ensures
            final(self).wf(),
            final(self).window_ms == old(self).window_ms,
            final(self).ceiling == old(self).ceiling,
            final(self).stamps@ == retained(
                old(self).stamps@,
                now - old(self).window_ms,
            ).push(now),
            wait_ms == wait_of(
                old(self).stamps@,
                old(self).window_ms as int,
                old(self).ceiling as int,
                now as int,
            ),
            0 <= wait_ms,
    {
        let cutoff: i64 = now - self.window_ms;
        let n = self.stamps.len();
        let mut kept: Vec<i64> = Vec::new();
        let mut i: usize = 0;
        assert(self.stamps@.subrange(0, 0) =~= Seq::<i64>::empty());
        while i < n
            invariant
                i <= n,
                n == self.stamps@.len(),
                self.wf(),
                self == old(self),
                cutoff == now - self.window_ms,
                kept@ == retained(self.stamps@.subrange(0, i as int), cutoff as int),
                forall|m: int| 0 <= m < kept@.len() ==> 0 <= #[trigger] kept@[m] <= MAX_TIME_MS,
            decreases n - i,
        {
            assert(self.stamps@.subrange(0, i as int + 1).drop_last() =~= self.stamps@.subrange(
                0,
                i as int,
            ));
            assert(self.stamps@.subrange(0, i as int + 1).last() == self.stamps@[i as int]);
            let ts = self.stamps[i];
            if ts > cutoff {
                kept.push(ts);
            }
            i = i + 1;
        }
        assert(self.stamps@.subrange(0, n as int) =~= self.stamps@);
        let wait: i64 = if kept.len() >= self.ceiling && kept.len() > 0 {
            let oldest = kept[0];
            let w = oldest + self.window_ms - now;
            if w > 0 {
                w
            } else {
                0
            }
        } else {
            0
        };
        kept.push(now);
        self.stamps = kept;
        wait
    }
}

proof fn lemma_retained_identity(s: Seq<i64>, cutoff: int)
    requires
        forall|i: int| 0 <= i < s.len() ==> #[trigger] s[i] > cutoff,
    ensures
        retained(s, cutoff) == s,
    decreases s.len(),
{
    if s.len() > 0 {
        lemma_retained_identity(s.drop_last(), cutoff);
        assert(retained(s, cutoff) =~= s);
    }
}

proof fn lemma_stamps_after_no_eviction(times: Seq<i64>, window: int)
    requires
        forall|a: int, b: int| 0 <= a <= b < times.len() ==> #[trigger] times[a] <= #[trigger] times[b],
        times.len() > 0 ==> times.last() - times[0] < window,
    ensures
        stamps_after(times, window) == times,
    decreases times.len(),
{
    if times.len() > 0 {
        let front = times.drop_last();
        assert(front.len() > 0 ==> front.last() - front[0] < window);
        lemma_stamps_after_no_eviction(front, window);
        assert forall|i: int| 0 <= i < front.len() implies #[trigger] front[i] > times.last()
            - window by {
            assert(times[0] <= times[i]);
            assert(times.last() - times[0] < window);
        }
        lemma_retained_identity(front, times.last() - window);
        assert(stamps_after(times, window) =~= times);
    }
}

/// The window is enforced: starting from an empty limiter, admissions at the
/// nondecreasing times `times` — one more than the ceiling, all inside one
/// window — leave the final admission a wait that keeps it at or past the
/// point one full window after the first admission.
pub proof fn lemma_admissions_respect_window(times: Seq<i64>, window: int, ceiling: int)
    requires
        times.len() == ceiling + 1,
        ceiling >= 1,
        forall|a: int, b: int| 0 <= a <= b < times.len() ==> #[trigger] times[a] <= #[trigger] times[b],
        times.last() - times[0] < window,
    ensures
        times.last() + wait_of(
            stamps_after(times.drop_last(), window),
            window,
            ceiling,
            times.last() as int,
        ) >= times[0] + window,
{
    let front = times.drop_last();
    assert(front.len() > 0 ==> front.last() - front[0] < window);
    lemma_stamps_after_no_eviction(front, window);
    assert forall|i: int| 0 <= i < front.len() implies #[trigger] front[i] > times.last()
        - window by {
        assert(times[0] <= times[i]);
    }
    lemma_retained_identity(front, times.last() - window);
    assert(retained(stamps_after(front, window), times.last() - window) == front);
    assert(front[0] == times[0]);
    assert(wait_after_evict(front, window, ceiling, times.last() as int) == front[0] + window
        - times.last());
}

} // verus!
