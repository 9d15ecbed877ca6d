//! Sliding-window request limiter: at most `max` requests are let through in any
//! window of time of the configured length.
use std::collections::VecDeque;
use std::time::Instant;
use vstd::prelude::*;

verus! {

/// The monotonic clock reading of `std::time::Instant`, held opaque.
#[verifier::external_type_specification]
#[verifier::external_body]
pub struct ExInstant(Instant);

/// Calls `Instant::now`. The reading depends on when the call is made: nothing is
/// stated of it.
#[verifier::external_body]
fn clock_now() -> Instant {
    Instant::now()
}

/// Calls `Instant::elapsed` on `origin` and gives the time passed in whole
/// nanoseconds (`Duration::as_nanos`). It depends on when the call is made: nothing
/// is stated of it.
#[verifier::external_body]
fn nanos_since(origin: &Instant) -> u128 {
    origin.elapsed().as_nanos()
}

/// Requests the Typhoon API lets through per window.
pub const API_REQUESTS_PER_WINDOW: usize = 100;

/// The Typhoon API's window: one minute, in nanoseconds.
pub const API_WINDOW_NANOS: u128 = 60_000_000_000;

/// A request made at time `t` no longer counts at time `now` once more than
/// `window` nanoseconds have passed since it.
pub open spec fn expired(t: u128, now: u128, window: u128) -> bool {
    now > t + window
}

/// The predicate "still counts at `now`".
pub open spec fn counts_at(now: u128, window: u128) -> spec_fn(u128) -> bool {
    |t: u128| !expired(t, now, window)
}

/// `hits` with its expired entries at the front dropped.
pub open spec fn prune(hits: Seq<u128>, now: u128, window: u128) -> Seq<u128>
    decreases hits.len(),
{
    if hits.len() > 0 && expired(hits[0], now, window) {
        prune(hits.drop_first(), now, window)
    } else {
        hits
    }
}

/// Whether a request at `now` is let through.
pub open spec fn admits(hits: Seq<u128>, now: u128, window: u128, max: usize) -> bool {
    prune(hits, now, window).len() < max
}

/// The recorded request times after a request at `now`.
pub open spec fn after_request(hits: Seq<u128>, now: u128, window: u128, max: usize) -> Seq<u128> {
    let p = prune(hits, now, window);
    if p.len() < max {
        p.push(now)
    } else {
        p
    }
}

/// What a limiter is: its window in nanoseconds, its limit, and the times (in
/// nanoseconds since the limiter was made) of the requests it let through that
/// still count, oldest first.
pub struct LimiterView {
    pub window: u128,
    pub max: usize,
    pub hits: Seq<u128>,
}

/// Sliding-window limiter.
pub struct RateLimiter {
    origin: Instant,
    window: u128,
    max: usize,
    hits: VecDeque<u128>,
}

impl View for RateLimiter {
    type V = LimiterView;

    closed spec fn view(&self) -> LimiterView {
        LimiterView { window: self.window, max: self.max, hits: self.hits@ }
    }
}

impl RateLimiter {
    /// Never more recorded requests than the limit.
    #[verifier::type_invariant]
    spec fn within_limit(self) -> bool {
        self.hits@.len() <= self.max
    }

    /// A limiter that lets through at most `max` requests in any window of
    /// `window_nanos` nanoseconds.
    pub fn new(max: usize, window_nanos: u128) -> (r: Self)
        ensures
            r@.max == max,
            r@.window == window_nanos,
            r@.hits == Seq::<u128>::empty(),
    {
        RateLimiter { origin: clock_now(), window: window_nanos, max, hits: VecDeque::new() }
    }

    /// The request at `now` (nanoseconds since the limiter was made): drops the
    /// expired entries at the front, then records and allows the request if fewer
    /// than `max` remain; returns false otherwise.
    pub fn try_acquire_at(&mut self, now: u128) -> (r: bool)
        ensures
            r == admits(old(self)@.hits, now, old(self)@.window, old(self)@.max),
            final(self)@.hits == after_request(old(self)@.hits, now, old(self)@.window, old(self)@.max),
            final(self)@.window == old(self)@.window,
            final(self)@.max == old(self)@.max,
    {
        proof {
            use_type_invariant(&*self);
        }
        let mut hits: VecDeque<u128> = VecDeque::new();
        std::mem::swap(&mut hits, &mut self.hits);
        let ghost start = hits@;
        while hits.len() > 0 && now > hits[0] && now - hits[0] > self.window
            invariant
                prune(hits@, now, self.window) == prune(start, now, self.window),
                hits@.len() <= start.len(),
            decreases hits@.len(),
        {
            hits.pop_front();
        }
        assert(prune(hits@, now, self.window) == hits@);
        let allowed = hits.len() < self.max;
        if allowed {
            hits.push_back(now);
        }
        std::mem::swap(&mut hits, &mut self.hits);
        allowed
    }

    /// Records and allows a request now if fewer than `max` requests were let
    /// through within the window before it; returns false otherwise.
    pub fn try_acquire(&mut self) -> (r: bool)
        ensures
            final(self)@.window == old(self)@.window,
            final(self)@.max == old(self)@.max,
            exists|now: u128|
                r == admits(old(self)@.hits, now, old(self)@.window, old(self)@.max)
                    && final(self)@.hits == after_request(
                    old(self)@.hits,
                    now,
                    old(self)@.window,
                    old(self)@.max,
                ),
    {
        let now = nanos_since(&self.origin);
        self.try_acquire_at(now)
    }
}


/// The limiter's recorded times and its answers, for a limiter made with an
/// empty record and then asked at each time of `times` in turn.
pub open spec fn replay(window: u128, max: usize, times: Seq<u128>) -> (Seq<u128>, Seq<bool>)
    decreases times.len(),
{
    if times.len() == 0 {
        (Seq::empty(), Seq::empty())
    } else {
        let (hits, answers) = replay(window, max, times.drop_last());
        let now = times.last();
        (after_request(hits, now, window, max), answers.push(admits(hits, now, window, max)))
    }
}

/// The times of `times` whose answer in `answers` is yes, in order.
pub open spec fn granted_times(times: Seq<u128>, answers: Seq<bool>) -> Seq<u128>
    decreases times.len(),
{
    if times.len() == 0 {
        Seq::empty()
    } else {
        let p = granted_times(times.drop_last(), answers.drop_last());
        if answers.last() {
            p.push(times.last())
        } else {
            p
        }
    }
}

/// No time is later than a time after it.
pub open spec fn nondecreasing(s: Seq<u128>) -> bool {
    forall|i: int, j: int| 0 <= i <= j < s.len() ==> s[i] <= s[j]
}

/// The times `t` in the span of `window` nanoseconds that ends at `now`:
/// `now - t <= window`.
pub open spec fn in_span_ending(now: u128, window: u128) -> spec_fn(u128) -> bool {
    |t: u128| now - t <= window
}

/// The requests let through before request `i` that fall in the span of
/// `window` nanoseconds ending at its time.
pub open spec fn counted_before(window: u128, times: Seq<u128>, answers: Seq<bool>, i: int) -> Seq<u128> {
    granted_times(times.take(i), answers.take(i)).filter(in_span_ending(times[i], window))
}

proof fn lemma_filter_all<A>(s: Seq<A>, p: spec_fn(A) -> bool)
    requires
        forall|i: int| 0 <= i < s.len() ==> p(#[trigger] s[i]),
    ensures
        s.filter(p) == s,
    decreases s.len(),
{
    if s.len() == 0 {
        reveal(Seq::filter);
    } else {
        let t = s.drop_last();
        assert forall|i: int| 0 <= i < t.len() implies p(#[trigger] t[i]) by {
            assert(t[i] == s[i]);
        }
        lemma_filter_all(t, p);
        assert(t.push(s.last()) == s);
        t.lemma_filter_push(s.last(), p);
    }
}

proof fn lemma_filter_filter<A>(s: Seq<A>, p: spec_fn(A) -> bool, q: spec_fn(A) -> bool)
    requires
        forall|x: A| #[trigger] q(x) ==> p(x),
    ensures
        s.filter(p).filter(q) == s.filter(q),
    decreases s.len(),
{
    reveal(Seq::filter);
    broadcast use Seq::lemma_filter_push;
    if s.len() > 0 {
        lemma_filter_filter(s.drop_last(), p, q);
    }
}

proof fn lemma_filter_nondecreasing(s: Seq<u128>, p: spec_fn(u128) -> bool)
    requires
        nondecreasing(s),
    ensures
        nondecreasing(s.filter(p)),
        forall|i: int| 0 <= i < s.filter(p).len() ==> s.contains(#[trigger] s.filter(p)[i]),
    decreases s.len(),
{
    reveal(Seq::filter);
    broadcast use Seq::lemma_filter_push;
    broadcast use Seq::lemma_filter_pred, Seq::lemma_filter_contains;
    if s.len() > 0 {
        let t = s.drop_last();
        assert(nondecreasing(t));
        lemma_filter_nondecreasing(t, p);
        let f = t.filter(p);
        assert forall|i: int| 0 <= i < f.len() implies #[trigger] f[i] <= s.last() by {
            let k = choose|k: int| 0 <= k < t.len() && t[k] == f[i];
            assert(t[k] == s[k]);
        }
        assert forall|i: int| 0 <= i < f.len() implies s.contains(#[trigger] f[i]) by {
            let k = choose|k: int| 0 <= k < t.len() && t[k] == f[i];
            assert(s[k] == f[i]);
        }
        if p(s.last()) {
            assert(s.contains(s.last())) by {
                assert(s[s.len() - 1] == s.last());
            }
        }
    }
}

proof fn lemma_granted_times(times: Seq<u128>, answers: Seq<bool>)
    requires
        nondecreasing(times),
        answers.len() == times.len(),
    ensures
        nondecreasing(granted_times(times, answers)),
        forall|i: int|
            0 <= i < granted_times(times, answers).len() ==> #[trigger] granted_times(
                times,
                answers,
            )[i] <= times.last(),
    decreases times.len(),
{
    if times.len() > 0 {
        let t = times.drop_last();
        let a = answers.drop_last();
        assert(nondecreasing(t));
        lemma_granted_times(t, a);
        let g = granted_times(t, a);
        if t.len() > 0 {
            assert(t.last() <= times.last());
        }
    }
}

/// For times in order, dropping the expired entries at the front is keeping the
/// entries that still count.
proof fn lemma_prune_is_filter(s: Seq<u128>, now: u128, window: u128)
    requires
        nondecreasing(s),
    ensures
        prune(s, now, window) == s.filter(counts_at(now, window)),
    decreases s.len(),
{
    let p = counts_at(now, window);
    if s.len() == 0 {
    } else if expired(s[0], now, window) {
        let t = s.drop_first();
        assert(nondecreasing(t));
        lemma_prune_is_filter(t, now, window);
        t.lemma_filter_prepend(s[0], p);
        assert(seq![s[0]] + t == s);
    } else {
        assert forall|i: int| 0 <= i < s.len() implies p(#[trigger] s[i]) by {
            assert(s[0] <= s[i]);
        }
        lemma_filter_all(s, p);
    }
}

proof fn lemma_replay_prefix(window: u128, max: usize, times: Seq<u128>, k: int)
    requires
        0 <= k <= times.len(),
    ensures
        replay(window, max, times).1.len() == times.len(),
        replay(window, max, times).1.take(k) == replay(window, max, times.take(k)).1,
    decreases times.len(),
{
    if times.len() > 0 {
        if k == times.len() {
            assert(times.take(k) == times);
            lemma_replay_prefix(window, max, times.drop_last(), 0);
        } else {
            lemma_replay_prefix(window, max, times.drop_last(), k);
            assert(times.drop_last().take(k) == times.take(k));
        }
    }
}

/// The record a replay ends with: the granted times that still count at the last
/// time, never more than the limit, oldest first.
proof fn lemma_replay_state(window: u128, max: usize, times: Seq<u128>)
    requires
        nondecreasing(times),
        times.len() > 0,
    ensures
        replay(window, max, times).0 == granted_times(times, replay(window, max, times).1).filter(
            counts_at(times.last(), window),
        ),
        replay(window, max, times).0.len() <= max,
        nondecreasing(replay(window, max, times).0),
    decreases times.len(),
{
    broadcast use Seq::lemma_filter_push;
    let prev = times.drop_last();
    let now = times.last();
    let (h, a) = replay(window, max, prev);
    lemma_replay_prefix(window, max, prev, 0);
    let (h2, a2) = replay(window, max, times);
    assert(a2.drop_last() == a);
    assert(prev.len() == 0 ==> h.len() == 0);
    assert(nondecreasing(prev));
    if prev.len() > 0 {
        lemma_replay_state(window, max, prev);
    }
    // the pruned record is the granted times that still count now
    let g = granted_times(prev, a);
    let p = prune(h, now, window);
    assert(nondecreasing(h));
    lemma_prune_is_filter(h, now, window);
    if prev.len() > 0 {
        assert(prev.last() <= now);
        assert forall|x: u128| #[trigger] counts_at(now, window)(x) implies counts_at(
            prev.last(),
            window,
        )(x) by {}
        lemma_filter_filter(g, counts_at(prev.last(), window), counts_at(now, window));
    } else {
        assert(g == Seq::<u128>::empty());
    }
    assert(p == g.filter(counts_at(now, window)));
    assert(p.len() <= h.len()) by {
        h.lemma_filter_len(counts_at(now, window));
    }
    assert(granted_times(times, a2) == if a2.last() { g.push(now) } else { g });
    lemma_granted_times(times, a2);
    lemma_filter_nondecreasing(granted_times(times, a2), counts_at(now, window));
    if a2.last() {
        assert(g.push(now).filter(counts_at(now, window)) == p.push(now));
    }
}

/// One call, in plain arithmetic: when every recorded request is more than
/// `window` nanoseconds older than `now`, a limiter with a non-zero limit lets the
/// request through and keeps only it.
pub proof fn lemma_all_expired_admits(hits: Seq<u128>, now: u128, window: u128, max: usize)
    requires
        max > 0,
        forall|k: int| 0 <= k < hits.len() ==> now - #[trigger] hits[k] > window,
    ensures
        admits(hits, now, window, max),
        after_request(hits, now, window, max) == seq![now],
    decreases hits.len(),
{
    if hits.len() > 0 {
        let t = hits.drop_first();
        assert forall|k: int| 0 <= k < t.len() implies now - #[trigger] t[k] > window by {
            assert(t[k] == hits[k + 1]);
        }
        lemma_all_expired_admits(t, now, window, max);
    } else {
        assert(Seq::<u128>::empty().push(now) == seq![now]);
    }
}

/// One call, in plain arithmetic: when at least `max` requests are recorded and
/// the oldest of them is at most `window` nanoseconds older than `now`, the
/// request is refused and the record stays as it is.
pub proof fn lemma_full_window_refuses(hits: Seq<u128>, now: u128, window: u128, max: usize)
    requires
        hits.len() > 0,
        hits.len() >= max,
        now - hits[0] <= window,
    ensures
        !admits(hits, now, window, max),
        after_request(hits, now, window, max) == hits,
{
}

/// How the limiter answers, over any run of requests made at times in order from
/// a fresh limiter: a request is let through exactly when fewer than `max` of the
/// requests let through before it fall within the window ending at its time, so
/// no window ending at a request's time holds more than `max` requests let
/// through.
pub proof fn lemma_sliding_window(window: u128, max: usize, times: Seq<u128>)
    requires
        nondecreasing(times),
    ensures
        replay(window, max, times).1.len() == times.len(),
        forall|i: int|
            0 <= i < times.len() ==> (#[trigger] replay(window, max, times).1[i] <==> counted_before(
                window,
                times,
                replay(window, max, times).1,
                i,
            ).len() < max),
        forall|i: int|
            0 <= i < times.len() ==> #[trigger] granted_times(
                times.take(i + 1),
                replay(window, max, times).1.take(i + 1),
            ).filter(in_span_ending(times[i], window)).len() <= max,
{
    let answers = replay(window, max, times).1;
    lemma_replay_prefix(window, max, times, 0);
    assert forall|i: int| 0 <= i < times.len() implies (#[trigger] answers[i] <==> counted_before(
        window,
        times,
        answers,
        i,
    ).len() < max) && granted_times(times.take(i + 1), answers.take(i + 1)).filter(
        in_span_ending(times[i], window),
    ).len() <= max by {
        lemma_window_at(window, max, times, i);
        assert(counts_at(times[i], window) =~= in_span_ending(times[i], window));
    }
}

proof fn lemma_window_at(window: u128, max: usize, times: Seq<u128>, i: int)
    requires
        nondecreasing(times),
        0 <= i < times.len(),
    ensures
        replay(window, max, times).1[i] <==> counted_before(
            window,
            times,
            replay(window, max, times).1,
            i,
        ).len() < max,
        granted_times(times.take(i + 1), replay(window, max, times).1.take(i + 1)).filter(
            counts_at(times[i], window),
        ).len() <= max,
{
    broadcast use Seq::lemma_filter_push;
    let answers = replay(window, max, times).1;
    let now = times[i];
    let pre = times.take(i);
    let upto = times.take(i + 1);
    lemma_replay_prefix(window, max, times, i);
    lemma_replay_prefix(window, max, times, i + 1);
    assert(upto.drop_last() == pre);
    assert(upto.last() == now);
    let (h, a) = replay(window, max, pre);
    lemma_replay_prefix(window, max, pre, 0);
    assert(answers.take(i) == a);
    assert(answers.take(i + 1) == replay(window, max, upto).1);
    assert(answers.take(i + 1) == a.push(admits(h, now, window, max)));
    assert(answers[i] == answers.take(i + 1)[i]);
    let g = granted_times(pre, a);
    let c = counted_before(window, times, answers, i);
    assert(counts_at(now, window) =~= in_span_ending(times[i], window));
    assert(c == g.filter(counts_at(now, window)));
    assert(nondecreasing(pre));
    if i > 0 {
        lemma_replay_state(window, max, pre);
        assert(pre.last() <= now);
        assert forall|x: u128| #[trigger] counts_at(now, window)(x) implies counts_at(
            pre.last(),
            window,
        )(x) by {}
        lemma_filter_filter(g, counts_at(pre.last(), window), counts_at(now, window));
        lemma_prune_is_filter(h, now, window);
        h.lemma_filter_len(counts_at(now, window));
    } else {
        assert(h.len() == 0);
        assert(g == Seq::<u128>::empty());
    }
    assert(prune(h, now, window) == c);
    let b = answers.take(i + 1);
    assert(b.drop_last() == a);
    assert(upto.drop_last() == pre);
    if b.last() {
        assert(granted_times(upto, b) == g.push(now));
        assert(g.push(now).filter(counts_at(now, window)) == c.push(now));
    } else {
        assert(granted_times(upto, b) == g);
    }
}

} // verus!
