//! Sliding-window tokens-per-minute admission control.
//!
//! The limiter never reads a clock: every operation takes the current time in
//! milliseconds, and `wait_if_needed` returns how long the caller must wait instead of
//! sleeping itself.

use vstd::prelude::*;

verus! {

/// The sliding window keeps the trailing sixty seconds.
pub open spec fn window_ms() -> int {
    60000
}

/// Safety margin added to a tokens-per-minute wait.
pub open spec fn margin_ms() -> int {
    100
}

/// Sum of the token counts of the window's entries.
pub open spec fn sum_tokens(w: Seq<(u64, u32)>) -> int
    decreases w.len(),
{
    if w.len() == 0 {
        0
    } else {
        w[0].1 + sum_tokens(w.drop_first())
    }
}

/// The window after lazy front eviction of entries older than `cutoff`.
/// On a time-sorted window this keeps exactly the entries at or after
/// `cutoff`.
pub open spec fn live(w: Seq<(u64, u32)>, cutoff: int) -> Seq<(u64, u32)>
    decreases w.len(),
{
    if w.len() == 0 {
        w
    } else if (w[0].0 as int) < cutoff {
        live(w.drop_first(), cutoff)
    } else {
        w
    }
}

pub open spec fn sorted_times(w: Seq<(u64, u32)>) -> bool {
    forall|i: int, j: int| 0 <= i < j < w.len() ==> w[i].0 <= w[j].0
}

/// Abstract state of a limiter.
pub struct LimiterView {
    pub max_tpm: u32,
    pub min_interval_ms: u64,
    pub window: Seq<(u64, u32)>,
    pub last_request_ms: Option<u64>,
    pub total_tokens: u64,
}

/// Well-formed limiter: entries in time order, window sum within `u32`.
pub open spec fn wf(v: LimiterView) -> bool {
    &&& sorted_times(v.window)
    &&& sum_tokens(v.window) <= u32::MAX
}

/// Wait owed to the minimum spacing between requests.
pub open spec fn interval_wait(v: LimiterView, now: int) -> int {
    match v.last_request_ms {
        Some(t) => if now - t < v.min_interval_ms {
            v.min_interval_ms - (now - t)
        } else {
            0
        },
        None => 0,
    }
}

/// Total wait `wait_if_needed` computes: the interval deficit first; then, on the
/// clock as it stands after that deficit, a budget wait until the oldest
/// live entry ages out of the window (plus a margin) if the live window sum
/// has reached the budget.
pub open spec fn wait_needed(v: LimiterView, now: int) -> int {
    let iw = interval_wait(v, now);
    let t1 = now + iw;
    let w = live(v.window, t1 - window_ms());
    if sum_tokens(w) >= v.max_tpm && w.len() > 0 {
        iw + (w[0].0 + window_ms() + margin_ms() - t1)
    } else {
        iw
    }
}

pub proof fn lemma_sum_nonneg(w: Seq<(u64, u32)>)
    ensures
        sum_tokens(w) >= 0,
    decreases w.len(),
{
    if w.len() > 0 {
        lemma_sum_nonneg(w.drop_first());
    }
}

pub proof fn lemma_sum_concat(a: Seq<(u64, u32)>, b: Seq<(u64, u32)>)
    ensures
        sum_tokens(a + b) == sum_tokens(a) + sum_tokens(b),
    decreases a.len(),
{
    if a.len() == 0 {
        assert(a + b =~= b);
    } else {
        assert((a + b).drop_first() =~= a.drop_first() + b);
        assert((a + b)[0] == a[0]);
        lemma_sum_concat(a.drop_first(), b);
    }
}

pub proof fn lemma_sum_snoc(w: Seq<(u64, u32)>, e: (u64, u32))
    ensures
        sum_tokens(w.push(e)) == sum_tokens(w) + e.1,
{
    assert(w.push(e) =~= w + seq![e]);
    lemma_sum_concat(w, seq![e]);
    assert(sum_tokens(seq![e]) == e.1 + sum_tokens(seq![e].drop_first()));
    assert(seq![e].drop_first() =~= Seq::<(u64, u32)>::empty());
}

/// Lazy eviction keeps a suffix: what survives sums to no more than the
/// whole, stays sorted, and its front (if any) is at or after the cutoff.
pub proof fn lemma_live_props(w: Seq<(u64, u32)>, cutoff: int)
    ensures
        sum_tokens(live(w, cutoff)) <= sum_tokens(w),
        sorted_times(w) ==> sorted_times(live(w, cutoff)),
        live(w, cutoff).len() > 0 ==> live(w, cutoff)[0].0 >= cutoff,
        live(live(w, cutoff), cutoff) == live(w, cutoff),
    decreases w.len(),
{
    if w.len() == 0 {
    } else if (w[0].0 as int) < cutoff {
        assert(sorted_times(w) ==> sorted_times(w.drop_first()));
        lemma_live_props(w.drop_first(), cutoff);
        lemma_sum_nonneg(w.drop_first());
    }
}

/// Sliding-window tokens-per-minute limiter with a minimum spacing between
/// requests and a lifetime token counter.
pub struct TPMLimiter {
    max_tpm: u32,
    min_interval_ms: u64,
    window: Vec<(u64, u32)>,
    last_request_ms: Option<u64>,
    total_tokens_used: u64,
}

impl View for TPMLimiter {
    type V = LimiterView;

    closed spec fn view(&self) -> LimiterView {
        LimiterView {
            max_tpm: self.max_tpm,
            min_interval_ms: self.min_interval_ms,
            window: self.window@,
            last_request_ms: self.last_request_ms,
            total_tokens: self.total_tokens_used,
        }
    }
}

impl TPMLimiter {
    pub fn new(max_tpm: u32, min_interval_secs: u64) -> (r: TPMLimiter)
        requires
            min_interval_secs <= u64::MAX / 1000,
        ensures
            r@.max_tpm == max_tpm,
            r@.min_interval_ms == min_interval_secs * 1000,
            r@.window == Seq::<(u64, u32)>::empty(),
            r@.last_request_ms is None,
            r@.total_tokens == 0,
            wf(r@),
    {
        TPMLimiter {
            max_tpm,
            min_interval_ms: min_interval_secs * 1000,
            window: Vec::new(),
            last_request_ms: None,
            total_tokens_used: 0,
        }
    }

    /// Record a completed request's token usage at time `now_ms`, then evict
    /// window entries older than one minute before `now_ms`.
    pub fn add_token_usage(&mut self, tokens: u32, now_ms: u64)
        requires
            wf(old(self)@),
            forall|i: int| 0 <= i < old(self)@.window.len()
                ==> old(self)@.window[i].0 <= now_ms,
            old(self)@.total_tokens + tokens <= u64::MAX,
            sum_tokens(old(self)@.window) + tokens <= u32::MAX,
        ensures
            wf(final(self)@),
            final(self)@.max_tpm == old(self)@.max_tpm,
            final(self)@.min_interval_ms == old(self)@.min_interval_ms,
            final(self)@.last_request_ms == old(self)@.last_request_ms,
            final(self)@.total_tokens == old(self)@.total_tokens + tokens,
            final(self)@.window
                == live(old(self)@.window.push((now_ms, tokens)), now_ms - window_ms()),
    {
        proof {
            lemma_sum_snoc(self@.window, (now_ms, tokens));
            lemma_sum_nonneg(self@.window);
        }
        self.window.push((now_ms, tokens));
        self.total_tokens_used = self.total_tokens_used + tokens as u64;
        let ghost pushed = self@.window;
        proof {
            assert(sorted_times(pushed));
            lemma_live_props(pushed, now_ms - window_ms());
        }
        let cutoff = if now_ms >= 60000 {
            now_ms - 60000
        } else {
            0
        };
        while self.window.len() > 0 && self.window[0].0 < cutoff
            invariant
                cutoff == if now_ms >= 60000 { now_ms - 60000 } else { 0 },
                live(self@.window, now_ms - window_ms())
                    == live(pushed, now_ms - window_ms()),
                self@.max_tpm == old(self)@.max_tpm,
                self@.min_interval_ms == old(self)@.min_interval_ms,
                self@.last_request_ms == old(self)@.last_request_ms,
                self@.total_tokens == old(self)@.total_tokens + tokens,
                sorted_times(self@.window),
                sum_tokens(self@.window) <= u32::MAX,
            decreases self@.window.len(),
        {
            proof {
                assert(self@.window.remove(0) =~= self@.window.drop_first());
                assert(sorted_times(self@.window.drop_first()));
                lemma_sum_nonneg(self@.window.drop_first());
            }
            self.window.remove(0);
        }
        proof {
            if self@.window.len() > 0 {
                assert(self@.window[0].0 >= cutoff);
                assert((self@.window[0].0 as int) >= now_ms - window_ms());
            }
            assert(live(self@.window, now_ms - window_ms()) == self@.window);
        }
    }

    /// Replace the token count of the most recent window entry (the usage was
    /// an estimate; the provider reported the actual count).  The entry's
    /// timestamp and the lifetime counter are untouched.  Without a window
    /// entry this does nothing.
    pub fn refine_last_usage(&mut self, tokens: u32)
        requires
            wf(old(self)@),
            old(self)@.window.len() > 0 ==> sum_tokens(old(self)@.window)
                - old(self)@.window.last().1 + tokens <= u32::MAX,
        ensures
            wf(final(self)@),
            final(self)@.max_tpm == old(self)@.max_tpm,
            final(self)@.min_interval_ms == old(self)@.min_interval_ms,
            final(self)@.last_request_ms == old(self)@.last_request_ms,
            final(self)@.total_tokens == old(self)@.total_tokens,
            old(self)@.window.len() == 0 ==> final(self)@.window == old(self)@.window,
            old(self)@.window.len() > 0 ==> final(self)@.window
                == old(self)@.window.update(old(self)@.window.len() - 1,
                    (old(self)@.window.last().0, tokens)),
    {
        let n = self.window.len();
        if n > 0 {
            let t = self.window[n - 1].0;
            proof {
                let w0 = self@.window;
                let w1 = w0.update(w0.len() - 1, (w0.last().0, tokens));
                assert(w0.drop_last().push(w0.last()) =~= w0);
                assert(w1.drop_last() =~= w0.drop_last());
                assert(w1.drop_last().push(w1.last()) =~= w1);
                lemma_sum_snoc(w0.drop_last(), w0.last());
                lemma_sum_snoc(w1.drop_last(), w1.last());
                lemma_sum_nonneg(w0.drop_last());
                assert(sorted_times(w1));
            }
            self.window.set(n - 1, (t, tokens));
        }
    }

    /// How long the caller must wait before issuing a request at `now_ms`,
    /// in milliseconds.  The window is pruned and the last-request time is
    /// set to `now_ms` whether or not a wait is owed.
    pub fn wait_if_needed(&mut self, now_ms: u64) -> (wait: u64)
        requires
            wf(old(self)@),
            forall|i: int| 0 <= i < old(self)@.window.len()
                ==> old(self)@.window[i].0 <= now_ms,
            old(self)@.last_request_ms matches Some(t) ==> t <= now_ms,
            now_ms + old(self)@.min_interval_ms + window_ms() + margin_ms() <= u64::MAX,
        ensures
            wf(final(self)@),
            final(self)@.max_tpm == old(self)@.max_tpm,
            final(self)@.min_interval_ms == old(self)@.min_interval_ms,
            final(self)@.total_tokens == old(self)@.total_tokens,
            final(self)@.last_request_ms == Some(now_ms),
            final(self)@.window == live(old(self)@.window,
                now_ms + interval_wait(old(self)@, now_ms as int) - window_ms()),
            wait == wait_needed(old(self)@, now_ms as int),
    {
        let iw: u64 = match self.last_request_ms {
            Some(t) => {
                let elapsed = now_ms - t;
                if elapsed < self.min_interval_ms {
                    self.min_interval_ms - elapsed
                } else {
                    0
                }
            },
            None => 0,
        };
        proof {
            assert(iw == interval_wait(self@, now_ms as int));
        }
        let t1 = now_ms + iw;
        let ghost w0 = self@.window;
        let cutoff = if t1 >= 60000 {
            t1 - 60000
        } else {
            0
        };
        proof {
            lemma_live_props(w0, t1 as int - window_ms());
        }
        while self.window.len() > 0 && self.window[0].0 < cutoff
            invariant
                cutoff == if t1 >= 60000 { t1 - 60000 } else { 0 },
                live(self@.window, t1 as int - window_ms())
                    == live(w0, t1 as int - window_ms()),
                forall|i: int| 0 <= i < self@.window.len()
                    ==> self@.window[i].0 <= now_ms,
                self@.max_tpm == old(self)@.max_tpm,
                self@.min_interval_ms == old(self)@.min_interval_ms,
                self@.last_request_ms == old(self)@.last_request_ms,
                self@.total_tokens == old(self)@.total_tokens,
                sorted_times(self@.window),
                sum_tokens(self@.window) <= u32::MAX,
            decreases self@.window.len(),
        {
            proof {
                assert(self@.window.remove(0) =~= self@.window.drop_first());
                assert(sorted_times(self@.window.drop_first()));
                lemma_sum_nonneg(self@.window.drop_first());
            }
            self.window.remove(0);
        }
        proof {
            if self@.window.len() > 0 {
                assert(self@.window[0].0 >= cutoff);
                assert((self@.window[0].0 as int) >= t1 as int - window_ms());
            }
            assert(live(self@.window, t1 as int - window_ms()) == self@.window);
        }
        let usage = self.window_sum();
        let wait = if usage >= self.max_tpm && self.window.len() > 0 {
            let oldest = self.window[0].0;
            iw + (oldest + 60000 + 100 - t1)
        } else {
            iw
        };
        self.last_request_ms = Some(now_ms);
        wait
    }

    /// Sum of the window entries no older than one minute before `now_ms`.
    pub fn get_current_tpm(&self, now_ms: u64) -> (r: u32)
        requires
            wf(self@),
        ensures
            r as int == sum_tokens(live(self@.window, now_ms as int - window_ms())),
    {
        let cutoff = if now_ms >= 60000 {
            now_ms - 60000
        } else {
            0
        };
        let n = self.window.len();
        let mut k: usize = 0;
        proof {
            assert(self@.window.subrange(0, n as int) =~= self@.window);
        }
        while k < n && self.window[k].0 < cutoff
            invariant
                0 <= k <= n,
                n == self@.window.len(),
                cutoff == if now_ms >= 60000 { now_ms - 60000 } else { 0 },
                sorted_times(self@.window),
                sum_tokens(self@.window) <= u32::MAX,
                live(self@.window, now_ms as int - window_ms())
                    == live(self@.window.subrange(k as int, n as int),
                        now_ms as int - window_ms()),
            decreases n - k,
        {
            proof {
                assert(self@.window.subrange(k as int, n as int).drop_first()
                    =~= self@.window.subrange(k + 1, n as int));
            }
            k = k + 1;
        }
        proof {
            let rest = self@.window.subrange(k as int, n as int);
            if rest.len() > 0 {
                assert(rest[0] == self@.window[k as int]);
            }
            assert(live(self@.window, now_ms as int - window_ms()) == rest);
        }
        self.sum_range(k)
    }

    /// Lifetime token counter; never pruned.
    pub fn get_total_tokens(&self) -> (r: u64)
        ensures
            r == self@.total_tokens,
    {
        self.total_tokens_used
    }

    /// The configured tokens-per-minute budget.
    pub fn max_tpm(&self) -> (r: u32)
        ensures
            r == self@.max_tpm,
    {
        self.max_tpm
    }

    /// Sum of the whole window (used after pruning, when everything is live).
    fn window_sum(&self) -> (r: u32)
        requires
            wf(self@),
        ensures
            r as int == sum_tokens(self@.window),
    {
        proof {
            assert(self@.window.subrange(0, self@.window.len() as int) =~= self@.window);
        }
        self.sum_range(0)
    }

    /// Sum of the window entries from index `k` on.
    fn sum_range(&self, k: usize) -> (r: u32)
        requires
            wf(self@),
            k <= self@.window.len(),
        ensures
            r as int == sum_tokens(self@.window.subrange(k as int, self@.window.len() as int)),
    {
        let n = self.window.len();
        let mut acc: u64 = 0;
        let mut j = k;
        proof {
            assert(self@.window.subrange(k as int, k as int)
                =~= Seq::<(u64, u32)>::empty());
        }
        while j < n
            invariant
                k <= j <= n,
                n == self@.window.len(),
                sorted_times(self@.window),
                sum_tokens(self@.window) <= u32::MAX,
                acc as int == sum_tokens(self@.window.subrange(k as int, j as int)),
                acc <= u32::MAX,
            decreases n - j,
        {
            proof {
                let w = self@.window;
                let left = w.subrange(0, k as int);
                let mid = w.subrange(k as int, j + 1);
                let right = w.subrange(j + 1, n as int);
                assert(mid =~= w.subrange(k as int, j as int).push(w[j as int]));
                lemma_sum_snoc(w.subrange(k as int, j as int), w[j as int]);
                assert(w =~= left + (mid + right));
                lemma_sum_concat(mid, right);
                lemma_sum_concat(left, mid + right);
                lemma_sum_nonneg(left);
                lemma_sum_nonneg(right);
                lemma_sum_nonneg(w.subrange(k as int, j as int));
            }
            acc = acc + self.window[j].1 as u64;
            j = j + 1;
        }
        proof {
            lemma_sum_nonneg(self@.window.subrange(k as int, n as int));
        }
        acc as u32
    }
}

} // verus!
