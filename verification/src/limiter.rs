//! A keyed gate that lets an action through at most once per interval.
//! Time is a count of nanoseconds on a clock that never runs backwards.
use crate::search::{first_where, lemma_first_is, lemma_first_where};
use vstd::prelude::*;

verus! {

/// The least time between two start-up probes of one child, in nanoseconds.
pub const START_INTERVAL: u64 = 2_000_000_000;

/// The least time between two health probes of one child, in nanoseconds.
pub const HEALTH_INTERVAL: u64 = 60_000_000_000;

/// The time between two reconciliation passes, in nanoseconds.
pub const HOUSEKEEPING_INTERVAL: u64 = 3_000_000_000;

/// The position of the bucket for `key`, or the number of buckets when the
/// key has none.
pub open spec fn bucket_position(buckets: Seq<(Seq<char>, u64)>, key: Seq<char>) -> int {
    first_where(buckets.len() as int, |j: int| keyed(buckets, key, j))
}

/// Whether the bucket at `j` is the one of `key`.
pub open spec fn keyed(buckets: Seq<(Seq<char>, u64)>, key: Seq<char>, j: int) -> bool {
    buckets[j].0 == key
}

/// What `bucket_position` returns: a position in range, with the bucket of
/// `key` there and none before it.
pub proof fn lemma_bucket_position(buckets: Seq<(Seq<char>, u64)>, key: Seq<char>)
    ensures
        0 <= bucket_position(buckets, key) <= buckets.len(),
        bucket_position(buckets, key) < buckets.len() ==> buckets[bucket_position(
            buckets,
            key,
        )].0 == key,
        forall|j: int| 0 <= j < bucket_position(buckets, key) ==> (#[trigger] buckets[j]).0 != key,
{
    let p = |j: int| keyed(buckets, key, j);
    lemma_first_where(buckets.len() as int, p);
    assert forall|j: int| 0 <= j < bucket_position(buckets, key) implies (#[trigger] buckets[j]).0
        != key by {
        assert(!p(j));
    }
}

/// Whether the limiter lets `key` through at `now`: the key has a bucket, and
/// more than `interval` has passed since the time stored in it.
pub open spec fn gate_open(
    buckets: Seq<(Seq<char>, u64)>,
    key: Seq<char>,
    now: u64,
    interval: u64,
) -> bool {
    let i = bucket_position(buckets, key);
    i < buckets.len() && now - buckets[i].1 > interval
}

/// The buckets after `key` asked at `now`: a first request stores `now`; a
/// request that is let through advances the stored time to `now`; a request
/// that is held back changes nothing.
pub open spec fn gate_after(
    buckets: Seq<(Seq<char>, u64)>,
    key: Seq<char>,
    now: u64,
    interval: u64,
) -> Seq<(Seq<char>, u64)> {
    let i = bucket_position(buckets, key);
    if i >= buckets.len() {
        buckets.push((key, now))
    } else if now - buckets[i].1 > interval {
        buckets.update(i, (key, now))
    } else {
        buckets
    }
}

/// The limiter's memory: for each key that has asked, the time it was last
/// let through, or first asked.
pub struct RateLimiter {
    pub buckets: Vec<(String, u64)>,
}

impl View for RateLimiter {
    type V = Seq<(Seq<char>, u64)>;

    open spec fn view(&self) -> Seq<(Seq<char>, u64)> {
        self.buckets.deep_view()
    }
}

impl RateLimiter {
    /// A limiter that no key has asked yet.
    pub fn new() -> (limiter: Self)
        ensures
            limiter@ == Seq::<(Seq<char>, u64)>::empty(),
    {
        let limiter = RateLimiter { buckets: Vec::new() };
        assert(limiter@ =~= Seq::<(Seq<char>, u64)>::empty());
        limiter
    }
}

/// Asks the limiter whether `key` may act at `now`. The first request for a key
/// is held back and starts its interval; a later one is let through when
/// more than `duration` has passed since the stored time, which then
/// becomes `now`.
pub fn rate_limit(limiter: &mut RateLimiter, key: String, now: u64, duration: u64) -> (permitted:
    bool)
    ensures
        permitted == gate_open(old(limiter)@, key@, now, duration),
        final(limiter)@ == gate_after(old(limiter)@, key@, now, duration),
{
    let ghost buckets = limiter@;
    let ghost hit = |j: int| keyed(buckets, key@, j);
    let mut i: usize = 0;
    while i < limiter.buckets.len()
        invariant
            i <= limiter.buckets.len(),
            limiter@ == buckets,
            old(limiter)@ == buckets,
            hit == (|j: int| keyed(buckets, key@, j)),
            forall|j: int| 0 <= j < i ==> !#[trigger] hit(j),
        decreases limiter.buckets.len() - i,
    {
        assert(buckets[i as int] == limiter.buckets[i as int].deep_view());
        if limiter.buckets[i].0 == key {
            proof {
                lemma_first_is(0, buckets.len() as int, hit, i as int);
            }
            let last = limiter.buckets[i].1;
            if now > last && now - last > duration {
                limiter.buckets[i].1 = now;
                assert(limiter@ =~= buckets.update(i as int, (key@, now)));
                return true;
            }
            return false;
        }
        i += 1;
    }
    proof {
        lemma_first_is(0, buckets.len() as int, hit, i as int);
    }
    limiter.buckets.push((key, now));
    assert(limiter@ =~= buckets.push((key@, now)));
    false
}

/// The first request for a key is never let through.
pub proof fn lemma_first_request_held(
    buckets: Seq<(Seq<char>, u64)>,
    key: Seq<char>,
    now: u64,
    interval: u64,
)
    requires
        bucket_position(buckets, key) == buckets.len(),
    ensures
        !gate_open(buckets, key, now, interval),
        gate_after(buckets, key, now, interval) == buckets.push((key, now)),
{
}

} // verus!
