//! A cached snapshot that is taken again once it is older than an interval.
use vstd::prelude::*;

verus! {

/// Time elapsed from `then` to `now` on a monotonic clock, zero if `now`
/// is earlier, as `Instant::duration_since` gives it.
pub open spec fn elapsed(then: u64, now: u64) -> nat {
    if now >= then {
        (now - then) as nat
    } else {
        0
    }
}

/// A cached value and the monotonic time (in nanoseconds) it was taken at.
pub struct Snapshot<T> {
    value: Option<T>,
    taken_at: Option<u64>,
}

/// Whether a cache holding `value` taken at `taken_at` is refreshed when
/// asked at `now` with the given interval: when it is empty, or when its age
/// has reached the interval.
pub open spec fn stale<T>(value: Option<T>, taken_at: Option<u64>, now: u64, interval: u64) -> bool {
    value is None || (taken_at matches Some(t) && elapsed(t, now) >= interval)
}

impl<T> Snapshot<T> {
    pub closed spec fn value(&self) -> Option<T> {
        self.value
    }

    pub closed spec fn taken_at(&self) -> Option<u64> {
        self.taken_at
    }

    /// An empty cache.
    pub fn new() -> (r: Self)
        ensures
            r.value() == None::<T>,
            r.taken_at() == None::<u64>,
    {
        Snapshot { value: None, taken_at: None }
    }

    /// The cached value, if any.
    pub fn cached(&self) -> (r: Option<&T>)
        ensures
            r == (match self.value() {
                Some(v) => Some(&v),
                None => None,
            }),
    {
        match &self.value {
            Some(v) => Some(v),
            None => None,
        }
    }

    /// Whether the value has to be taken again before answering at `now`.
    pub fn needs_refresh(&self, now: u64, interval: u64) -> (r: bool)
        ensures
            r == stale(self.value(), self.taken_at(), now, interval),
    {
        match (&self.value, self.taken_at) {
            (None, _) => true,
            (Some(_), Some(t)) => {
                let age: u64 = if now >= t {
                    now - t
                } else {
                    0
                };
                age >= interval
            },
            (Some(_), None) => false,
        }
    }

    /// Keeps `value`, taken at `now`.
    pub fn store(&mut self, value: T, now: u64)
        ensures
            final(self).value() == Some(value),
            final(self).taken_at() == Some(now),
    {
        self.value = Some(value);
        self.taken_at = Some(now);
    }

    /// Keeps `value` for good: it is never found stale.
    pub fn store_forever(&mut self, value: T)
        ensures
            final(self).value() == Some(value),
            final(self).taken_at() == None::<u64>,
    {
        self.value = Some(value);
        self.taken_at = None;
    }
}

/// A value just stored is handed out again, and is refreshed only once the
/// interval has passed since it was stored.
pub proof fn law_fresh_snapshot_reused<T>(value: T, taken: u64, now: u64, interval: u64)
    requires
        taken <= now,
    ensures
        stale(Some(value), Some(taken), now, interval) <==> now - taken >= interval,
{
}

/// A value stored for good is never refreshed.
pub proof fn law_forever_never_stale<T>(value: T, now: u64, interval: u64)
    ensures
        !stale(Some(value), None::<u64>, now, interval),
{
}

} // verus!
