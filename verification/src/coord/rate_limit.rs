//! Per-caller rate limits, over a sliding window of request times.

use crate::net::IpAddress;
use crate::time::{Duration, Instant};
use vstd::prelude::*;

verus! {

/// How many requests are admitted within a window.
#[derive(Debug, Clone, Copy)]
pub struct Limit {
    /// The number of requests.
    pub max_requests: usize,
    /// The length of the window.
    pub window: Duration,
}

/// What a request is counted as.
#[derive(Debug, Clone, Copy, PartialEq, Eq, Structural)]
pub enum Bucket {
    /// A registration.
    Register,
    /// A heartbeat.
    Heartbeat,
    /// A token refresh or a deletion.
    Token,
    /// Anything else.
    Default,
}

impl Bucket {
    /// The limit of the bucket.
    pub open spec fn spec_limit(self) -> Limit {
        Limit {
            max_requests: match self {
                Bucket::Register => 5,
                Bucket::Heartbeat => 30,
                Bucket::Token => 10,
                Bucket::Default => 120,
            },
            window: Duration { nanos: 60_000_000_000 },
        }
    }

    /// The limit of the bucket.
    pub fn limit(self) -> (r: Limit)
        ensures
            r == self.spec_limit(),
    {
        let max_requests: usize = match self {
            Bucket::Register => 5,
            Bucket::Heartbeat => 30,
            Bucket::Token => 10,
            Bucket::Default => 120,
        };
        Limit { max_requests, window: Duration::from_secs(60) }
    }
}

/// The request times that are still in the window, once those at the front that
/// have left it are dropped.
pub open spec fn in_window(log: Seq<Instant>, window: Duration, now: Instant) -> Seq<Instant>
    decreases log.len(),
{
    if log.len() > 0 && now.since(log[0]) >= window.nanos {
        in_window(log.skip(1), window, now)
    } else {
        log
    }
}

/// Whether a request at `now` is admitted.
pub open spec fn admits(log: Seq<Instant>, limit: Limit, now: Instant) -> bool {
    in_window(log, limit.window, now).len() < limit.max_requests
}

/// The request times after a request at `now`.
pub open spec fn logged(log: Seq<Instant>, limit: Limit, now: Instant) -> Seq<Instant> {
    let kept = in_window(log, limit.window, now);
    if admits(log, limit, now) {
        kept.push(now)
    } else {
        kept
    }
}

struct BucketState {
    peer: IpAddress,
    bucket: Bucket,
    timestamps: Vec<Instant>,
}

/// The request times of every caller and bucket.
pub struct RateLimiter {
    state: Vec<BucketState>,
}

impl Default for RateLimiter {
    fn default() -> (r: Self)
        ensures
            r.wf(),
            forall|peer: IpAddress, bucket: Bucket|
                r.log(peer, bucket) == Seq::<Instant>::empty(),
    {
        RateLimiter { state: Vec::new() }
    }
}

impl RateLimiter {
    spec fn entry_for(self, i: int, peer: IpAddress, bucket: Bucket) -> bool {
        &&& 0 <= i < self.state@.len()
        &&& self.state@[i].peer == peer
        &&& self.state@[i].bucket == bucket
    }

    /// The request times that are kept of a caller in a bucket.
    pub closed spec fn log(self, peer: IpAddress, bucket: Bucket) -> Seq<Instant> {
        if exists|i: int| self.entry_for(i, peer, bucket) {
            self.state@[choose|i: int| self.entry_for(i, peer, bucket)].timestamps@
        } else {
            Seq::empty()
        }
    }

    /// A caller and bucket stand at most once.
    pub closed spec fn wf(self) -> bool {
        forall|i: int, j: int|
            0 <= i < j < self.state@.len() ==> !((#[trigger] self.state@[i]).peer == (
            #[trigger] self.state@[j]).peer && self.state@[i].bucket == self.state@[j].bucket)
    }

    proof fn lemma_log(self, i: int)
        requires
            self.wf(),
            0 <= i < self.state@.len(),
        ensures
            self.log(self.state@[i].peer, self.state@[i].bucket) == self.state@[i].timestamps@,
    {
        let p = self.state@[i].peer;
        let b = self.state@[i].bucket;
        assert(self.entry_for(i, p, b));
        let c = choose|c: int| self.entry_for(c, p, b);
        assert(self.entry_for(c, p, b));
        assert(c == i);
    }

    /// A limiter that has seen no request.
    pub fn new() -> (r: Self)
        ensures
            r.wf(),
            forall|peer: IpAddress, bucket: Bucket|
                r.log(peer, bucket) == Seq::<Instant>::empty(),
    {
        Self::default()
    }

    /// The entry of a caller and bucket, made empty where there was none.
    fn entry(&mut self, peer: IpAddress, bucket: Bucket) -> (r: usize)
        requires
            old(self).wf(),
        ensures
            final(self).wf(),
            final(self).entry_for(r as int, peer, bucket),
            forall|p: IpAddress, b: Bucket| #[trigger] final(self).log(p, b) == old(self).log(p, b),
    {
        let mut i: usize = 0;
        while i < self.state.len()
            invariant
                i <= self.state@.len(),
                *self == *old(self),
                self.wf(),
                forall|j: int| 0 <= j < i ==> !self.entry_for(j, peer, bucket),
            decreases self.state@.len() - i,
        {
            if self.state[i].peer == peer && self.state[i].bucket == bucket {
                return i;
            }
            i = i + 1;
        }
        let ghost n = self.state@.len() as int;
        self.state.push(BucketState { peer, bucket, timestamps: Vec::new() });
        proof {
            assert forall|a: int, b: int|
                0 <= a < b < self.state@.len() implies !((#[trigger] self.state@[a]).peer == (
            #[trigger] self.state@[b]).peer && self.state@[a].bucket == self.state@[b].bucket) by {
                if b == n {
                    assert(!old(self).entry_for(a, peer, bucket));
                }
            }
            assert(self.wf());
            assert forall|p: IpAddress, b: Bucket| #[trigger] self.log(p, b) == old(self).log(
                p,
                b,
            ) by {
                if exists|k: int| self.entry_for(k, p, b) {
                    let k = choose|k: int| self.entry_for(k, p, b);
                    assert(self.entry_for(k, p, b));
                    if k < n {
                        assert(old(self).entry_for(k, p, b));
                        old(self).lemma_log(k);
                        self.lemma_log(k);
                    } else {
                        self.lemma_log(k);
                        assert forall|j: int| !old(self).entry_for(j, p, b) by {}
                    }
                } else {
                    assert forall|j: int| !old(self).entry_for(j, p, b) by {
                        if old(self).entry_for(j, p, b) {
                            assert(self.entry_for(j, p, b));
                        }
                    }
                }
            }
        }
        self.state.len() - 1
    }

    /// Admits a request of a caller into a bucket, or says how long the caller is
    /// to wait: until the oldest request leaves the window, and a little longer.
    /// No other caller or bucket is touched.
    pub fn check(&mut self, peer: IpAddress, bucket: Bucket, now: Instant) -> (r: Result<
        (),
        Duration,
    >)
        requires
            old(self).wf(),
        ensures
            final(self).wf(),
            final(self).log(peer, bucket) == logged(
                old(self).log(peer, bucket),
                bucket.spec_limit(),
                now,
            ),
            forall|p: IpAddress, b: Bucket|
                p != peer || b != bucket ==> #[trigger] final(self).log(p, b) == old(self).log(
                    p,
                    b,
                ),
            match r {
                Ok(_) => admits(old(self).log(peer, bucket), bucket.spec_limit(), now),
                Err(wait) => {
                    let kept = in_window(
                        old(self).log(peer, bucket),
                        bucket.spec_limit().window,
                        now,
                    );
                    &&& !admits(old(self).log(peer, bucket), bucket.spec_limit(), now)
                    &&& wait.nanos == 60_000_000_000 - now.since(kept[0]) + 50_000_000
                    &&& now.since(kept[0]) < 60_000_000_000
                },
            },
    {
        let limit = bucket.limit();
        let i: usize = self.entry(peer, bucket);
        let ghost before = *self;
        let ghost log = self.state@[i as int].timestamps@;
        proof {
            self.lemma_log(i as int);
        }
        while self.state[i].timestamps.len() > 0 && now.duration_since(
            self.state[i].timestamps[0],
        ).nanos >= limit.window.nanos
            invariant
                i < self.state@.len(),
                self.state@.len() == before.state@.len(),
                self.state@[i as int].peer == peer,
                self.state@[i as int].bucket == bucket,
                forall|j: int|
                    0 <= j < self.state@.len() && j != i ==> self.state@[j] == before.state@[j],
                in_window(self.state@[i as int].timestamps@, limit.window, now) == in_window(
                    log,
                    limit.window,
                    now,
                ),
            decreases self.state@[i as int].timestamps@.len(),
        {
            let ghost t = self.state@[i as int].timestamps@;
            self.state[i].timestamps.remove(0);
            assert(self.state@[i as int].timestamps@ =~= t.skip(1));
        }
        let ghost kept = self.state@[i as int].timestamps@;
        assert(kept == in_window(log, limit.window, now));
        if self.state[i].timestamps.len() >= limit.max_requests {
            let oldest = self.state[i].timestamps[0];
            let past = now.duration_since(oldest);
            proof {
                before.lemma_replaced(*self, i as int);
            }
            return Err(Duration { nanos: limit.window.nanos - past.nanos + 50_000_000 });
        }
        self.state[i].timestamps.push(now);
        proof {
            before.lemma_replaced(*self, i as int);
        }
        Ok(())
    }

    /// Changing the times of one entry changes what is kept for it alone.
    proof fn lemma_replaced(self, after: RateLimiter, i: int)
        requires
            self.wf(),
            0 <= i < self.state@.len() == after.state@.len(),
            after.state@[i].peer == self.state@[i].peer,
            after.state@[i].bucket == self.state@[i].bucket,
            forall|j: int|
                0 <= j < self.state@.len() && j != i ==> after.state@[j] == self.state@[j],
        ensures
            after.wf(),
            after.log(self.state@[i].peer, self.state@[i].bucket) == after.state@[i].timestamps@,
            forall|p: IpAddress, b: Bucket|
                p != self.state@[i].peer || b != self.state@[i].bucket ==> #[trigger] after.log(
                    p,
                    b,
                ) == self.log(p, b),
    {
        assert(after.wf());
        after.lemma_log(i);
        assert forall|p: IpAddress, b: Bucket|
            p != self.state@[i].peer || b != self.state@[i].bucket implies #[trigger] after.log(
            p,
            b,
        ) == self.log(p, b) by {
            if exists|k: int| self.entry_for(k, p, b) {
                let k = choose|k: int| self.entry_for(k, p, b);
                assert(self.entry_for(k, p, b));
                assert(after.entry_for(k, p, b));
                self.lemma_log(k);
                after.lemma_log(k);
            } else {
                assert forall|k: int| !after.entry_for(k, p, b) by {
                    if after.entry_for(k, p, b) {
                        assert(self.entry_for(k, p, b));
                    }
                }
            }
        }
    }
}

/// The request times that are kept after a row of requests of one caller in one
/// bucket.
pub open spec fn log_after(requests: Seq<Instant>, limit: Limit) -> Seq<Instant>
    decreases requests.len(),
{
    if requests.len() == 0 {
        Seq::empty()
    } else {
        logged(log_after(requests.drop_last(), limit), limit, requests.last())
    }
}

/// The requests of the row that are admitted.
pub open spec fn admitted(requests: Seq<Instant>, limit: Limit) -> Seq<Instant>
    decreases requests.len(),
{
    if requests.len() == 0 {
        Seq::empty()
    } else {
        let earlier = admitted(requests.drop_last(), limit);
        if admits(log_after(requests.drop_last(), limit), limit, requests.last()) {
            earlier.push(requests.last())
        } else {
            earlier
        }
    }
}

/// Whether no request lies before an earlier one.
pub open spec fn in_order(requests: Seq<Instant>) -> bool {
    forall|i: int, j: int|
        0 <= i <= j < requests.len() ==> requests[i].nanos <= requests[j].nanos
}

proof fn lemma_in_window(log: Seq<Instant>, window: Duration, now: Instant)
    ensures
        in_window(log, window, now).len() <= log.len(),
        in_window(log, window, now) == log.skip(log.len() - in_window(log, window, now).len()),
        forall|j: int|
            0 <= j < log.len() - in_window(log, window, now).len() ==> now.since(
                #[trigger] log[j],
            ) >= window.nanos,
    decreases log.len(),
{
    if log.len() > 0 && now.since(log[0]) >= window.nanos {
        let rest = log.skip(1);
        lemma_in_window(rest, window, now);
        let kept = in_window(log, window, now);
        assert(rest.skip(rest.len() - kept.len()) =~= log.skip(log.len() - kept.len()));
        assert forall|j: int| 0 <= j < log.len() - kept.len() implies now.since(#[trigger] log[j])
            >= window.nanos by {
            if j > 0 {
                assert(log[j] == rest[j - 1]);
            }
        }
    } else {
        assert(log.skip(0) =~= log);
    }
}

/// What is kept is the end of what was admitted; what was dropped has left the
/// window.
proof fn lemma_log_is_recent(requests: Seq<Instant>, limit: Limit)
    requires
        in_order(requests),
    ensures
        ({
            let a = admitted(requests, limit);
            let l = log_after(requests, limit);
            &&& l.len() <= a.len()
            &&& l == a.skip(a.len() - l.len())
            &&& requests.len() > 0 ==> forall|i: int|
                0 <= i < a.len() ==> (#[trigger] a[i]).nanos <= requests.last().nanos
            &&& requests.len() > 0 ==> forall|i: int|
                0 <= i < a.len() - l.len() ==> (#[trigger] a[i]).nanos + limit.window.nanos
                    <= requests.last().nanos
            &&& requests.len() == 0 ==> a.len() == 0
        }),
    decreases requests.len(),
{
    if requests.len() == 0 {
        assert(admitted(requests, limit).skip(0) =~= log_after(requests, limit));
    } else {
        let before = requests.drop_last();
        let now = requests.last();
        lemma_log_is_recent(before, limit);
        let a0 = admitted(before, limit);
        let l0 = log_after(before, limit);
        let kept = in_window(l0, limit.window, now);
        lemma_in_window(l0, limit.window, now);
        assert forall|i: int| 0 <= i < a0.len() implies (#[trigger] a0[i]).nanos <= now.nanos by {
            assert(before.last().nanos <= now.nanos);
        }
        assert forall|i: int| 0 <= i < a0.len() - kept.len() implies (#[trigger] a0[i]).nanos
            + limit.window.nanos <= now.nanos by {
            if i < a0.len() - l0.len() {
                assert(before.last().nanos <= now.nanos);
            } else {
                let j = i - (a0.len() - l0.len());
                assert(l0[j] == a0[i]);
                assert(now.since(l0[j]) >= limit.window.nanos);
            }
        }
        assert(kept =~= a0.skip(a0.len() - kept.len()));
        let a = admitted(requests, limit);
        let l = log_after(requests, limit);
        if admits(l0, limit, now) {
            assert(l =~= a.skip(a.len() - l.len()));
            assert forall|i: int| 0 <= i < a.len() - l.len() implies (#[trigger] a[i]).nanos
                + limit.window.nanos <= now.nanos by {
                assert(a[i] == a0[i]);
            }
            assert forall|i: int| 0 <= i < a.len() implies (#[trigger] a[i]).nanos <= now.nanos by {
                if i < a0.len() {
                    assert(a[i] == a0[i]);
                }
            }
        }
    }
}

/// Never are more requests admitted within one window than the limit allows: of
/// the requests of one caller in one bucket, an admitted one and the one that is
/// admitted `max_requests` places later lie at least a window apart.
pub proof fn law_limit_is_kept(requests: Seq<Instant>, limit: Limit, i: int)
    requires
        in_order(requests),
        0 <= i,
        i + limit.max_requests < admitted(requests, limit).len(),
    ensures
        ({
            let a = admitted(requests, limit);
            a[i].nanos + limit.window.nanos <= a[i + limit.max_requests].nanos
        }),
    decreases requests.len(),
{
    if requests.len() > 0 {
        let before = requests.drop_last();
        let now = requests.last();
        let a = admitted(requests, limit);
        let a0 = admitted(before, limit);
        let l0 = log_after(before, limit);
        if i + limit.max_requests < a0.len() {
            law_limit_is_kept(before, limit, i);
        } else {
            lemma_log_is_recent(before, limit);
            lemma_in_window(l0, limit.window, now);
            let kept = in_window(l0, limit.window, now);
            assert(a[i + limit.max_requests] == now);
            if limit.max_requests > 0 {
                assert(a[i] == a0[i]);
                assert(i < a0.len() - kept.len());
                assert(before.last().nanos <= now.nanos);
                if i >= a0.len() - l0.len() {
                    let j = i - (a0.len() - l0.len());
                    assert(l0[j] == a0[i]);
                    assert(now.since(l0[j]) >= limit.window.nanos);
                }
            }
        }
    }
}

/// Those of a row of moments that lie within the window before `now`.
pub open spec fn recent(moments: Seq<Instant>, window: Duration, now: Instant) -> Seq<Instant> {
    moments.filter(is_recent(window, now))
}

/// Which moments lie within the window before `now`.
pub open spec fn is_recent(window: Duration, now: Instant) -> spec_fn(Instant) -> bool {
    |t: Instant| now.since(t) < window.nanos
}

proof fn lemma_filter_all(s: Seq<Instant>, pred: spec_fn(Instant) -> bool, holds: bool)
    requires
        forall|k: int| 0 <= k < s.len() ==> pred(#[trigger] s[k]) == holds,
    ensures
        s.filter(pred) == if holds {
            s
        } else {
            Seq::empty()
        },
    decreases s.len(),
{
    reveal(Seq::filter);
    if s.len() > 0 {
        lemma_filter_all(s.drop_last(), pred, holds);
        assert(pred(s[s.len() - 1]) == holds);
        if holds {
            assert(s.drop_last().push(s.last()) =~= s);
        }
    } else {
        assert(s =~= Seq::empty());
    }
}

proof fn lemma_admitted_in_order(requests: Seq<Instant>, limit: Limit)
    requires
        in_order(requests),
    ensures
        in_order(admitted(requests, limit)),
    decreases requests.len(),
{
    if requests.len() > 0 {
        let before = requests.drop_last();
        lemma_admitted_in_order(before, limit);
        lemma_log_is_recent(before, limit);
        let a = admitted(requests, limit);
        let a0 = admitted(before, limit);
        assert forall|i: int, j: int| 0 <= i <= j < a.len() implies a[i].nanos <= a[j].nanos by {
            if j < a0.len() {
                assert(a[i] == a0[i] && a[j] == a0[j]);
            } else if i < a0.len() {
                assert(a[i] == a0[i]);
                assert(a0[i].nanos <= before.last().nanos);
                assert(requests[requests.len() - 2].nanos <= requests[requests.len() - 1].nanos);
            }
        }
    }
}

/// What is kept for a caller, once the times that have left the window are dropped,
/// is all admitted requests that lie within the window.
proof fn lemma_kept_is_recent(requests: Seq<Instant>, limit: Limit, now: Instant)
    requires
        in_order(requests.push(now)),
    ensures
        in_window(log_after(requests, limit), limit.window, now) == recent(
            admitted(requests, limit),
            limit.window,
            now,
        ),
        in_order(admitted(requests, limit)),
{
    let pred = is_recent(limit.window, now);
    let a = admitted(requests, limit);
    let l = log_after(requests, limit);
    let kept = in_window(l, limit.window, now);
    assert forall|i: int, j: int| 0 <= i <= j < requests.len() implies requests[i].nanos
        <= requests[j].nanos by {
        assert(requests.push(now)[i].nanos <= requests.push(now)[j].nanos);
    }
    lemma_log_is_recent(requests, limit);
    lemma_admitted_in_order(requests, limit);
    lemma_in_window(l, limit.window, now);
    lemma_window_starts(l, limit.window, now);
    let n = a.len() - kept.len();
    let (front, back) = (a.take(n), a.skip(n));
    assert(kept =~= back);
    assert(a =~= front + back);
    if requests.len() > 0 {
        assert(requests.push(now)[requests.len() - 1].nanos <= requests.push(
            now,
        )[requests.len() as int].nanos);
        assert(requests.last().nanos <= now.nanos);
    }
    assert forall|k: int| 0 <= k < front.len() implies pred(#[trigger] front[k]) == false by {
        assert(front[k] == a[k]);
        if k >= a.len() - l.len() {
            assert(l[k - (a.len() - l.len())] == a[k]);
        }
    }
    assert forall|k: int| 0 <= k < back.len() implies pred(#[trigger] back[k]) == true by {
        assert(back[k] == a[n + k] && back[0] == a[n]);
        assert(a[n].nanos <= a[n + k].nanos <= now.nanos);
        assert(now.since(kept[0]) < limit.window.nanos);
    }
    lemma_filter_all(front, pred, false);
    lemma_filter_all(back, pred, true);
    Seq::filter_distributes_over_add(front, back, pred);
    assert(Seq::<Instant>::empty() + back =~= back);
}

proof fn lemma_window_starts(log: Seq<Instant>, window: Duration, now: Instant)
    ensures
        in_window(log, window, now).len() > 0 ==> now.since(in_window(log, window, now)[0])
            < window.nanos,
    decreases log.len(),
{
    if log.len() > 0 && now.since(log[0]) >= window.nanos {
        lemma_window_starts(log.skip(1), window, now);
    }
}

/// A request is admitted if and only if fewer than `max_requests` of all the
/// requests that were admitted before it lie within the window. One that is not
/// waits for the oldest of those to leave the window, and does not count itself.
pub proof fn law_admitted_iff_below_limit(requests: Seq<Instant>, limit: Limit, now: Instant)
    requires
        in_order(requests.push(now)),
    ensures
        ({
            let log = log_after(requests, limit);
            let seen = recent(admitted(requests, limit), limit.window, now);
            &&& admits(log, limit, now) <==> seen.len() < limit.max_requests
            &&& admitted(requests.push(now), limit) == if seen.len() < limit.max_requests {
                admitted(requests, limit).push(now)
            } else {
                admitted(requests, limit)
            }
            &&& seen.len() > 0 ==> in_window(log, limit.window, now)[0] == seen[0]
            &&& forall|k: int| 0 <= k < seen.len() ==> seen[0].nanos <= (#[trigger] seen[k]).nanos
        }),
{
    lemma_kept_is_recent(requests, limit, now);
    assert(requests.push(now).drop_last() =~= requests);
    let a = admitted(requests, limit);
    let l = log_after(requests, limit);
    assert forall|i: int, j: int| 0 <= i <= j < requests.len() implies requests[i].nanos
        <= requests[j].nanos by {
        assert(requests.push(now)[i].nanos <= requests.push(now)[j].nanos);
    }
    lemma_log_is_recent(requests, limit);
    lemma_in_window(l, limit.window, now);
    let seen = in_window(l, limit.window, now);
    assert forall|k: int| 0 <= k < seen.len() implies seen[0].nanos <= (#[trigger] seen[k]).nanos by {
        let n = a.len() - seen.len();
        assert(seen[k] == a[n + k] && seen[0] == a[n]);
    }
}

} // verus!
