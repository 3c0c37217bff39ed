//! A cache of one value that is refreshed on demand once it has expired.
//!
//! Time is a number on a clock that never goes back, in a unit of the
//! caller's choice: seconds, or something finer. The cache reads no clock
//! itself: each operation is told what time it is.

use crate::error::Error;
use vstd::prelude::*;

verus! {

/// Obtains a fresh value for a [`Cache`].
pub trait Refresher<T> {
    /// What one refresh may do: from the refresher before it, to the
    /// refresher after it and what came out. A refresher that does not say
    /// may do anything.
    open spec fn refreshes(&self, after: &Self, outcome: Result<T, Error>) -> bool {
        true
    }

    /// Obtains a fresh value, or fails.
    fn refresh(&mut self) -> (outcome: Result<T, Error>)
        ensures
            old(self).refreshes(final(self), outcome),
    ;
}

/// What a [`Cache`] holds.
pub struct CacheView<T> {
    pub cached: Option<T>,
    pub expiry_time: u64,
    pub refreshed: u64,
}

impl<T> CacheView<T> {
    /// Whether the cache has expired at `now`: it holds no value, or more
    /// than its expiry time has passed since it was refreshed.
    pub open spec fn is_expired(self, now: u64) -> bool {
        self.cached is None || now - self.refreshed > self.expiry_time
    }

    /// The cache once it was given `value` at `now`.
    pub open spec fn with_value(self, value: T, now: u64) -> CacheView<T> {
        CacheView { cached: Some(value), refreshed: now, ..self }
    }
}

/// A value that was set or refreshed at `now` has not expired at `now`, and
/// has expired exactly when more than the expiry time has passed.
pub proof fn lemma_fresh_after_set<T>(cache: CacheView<T>, value: T, now: u64, later: u64)
    ensures
        !cache.with_value(value, now).is_expired(now),
        cache.with_value(value, now).is_expired(later) == (later - now > cache.expiry_time),
{
}

/// A cache of one value, with the time after which the value has expired.
pub struct Cache<T> {
    cached: Option<T>,
    expiry_time: u64,
    refreshed: u64,
}

impl<T> View for Cache<T> {
    type V = CacheView<T>;

    closed spec fn view(&self) -> CacheView<T> {
        CacheView { cached: self.cached, expiry_time: self.expiry_time, refreshed: self.refreshed }
    }
}

impl<T> Cache<T> {
    /// A cache without a value.
    pub fn new(expiry_time: u64, now: u64) -> (cache: Self)
        ensures
            cache@ == (CacheView::<T> { cached: None, expiry_time, refreshed: now }),
    {
        Self { cached: None, expiry_time, refreshed: now }
    }

    /// Whether the cache has expired at `now`.
    pub fn is_expired(&self, now: u64) -> (expired: bool)
        ensures
            expired == self@.is_expired(now),
    {
        let is_timed_out = now > self.refreshed && now - self.refreshed > self.expiry_time;
        self.cached.is_none() || is_timed_out
    }

    /// Replaces the value, which counts as refreshed at `now`.
    pub fn set(&mut self, value: T, now: u64)
        ensures
            final(self)@ == old(self)@.with_value(value, now),
    {
        self.cached = Some(value);
        self.refreshed = now;
    }

    /// The cached value; it is refreshed first where it has expired at `now`.
    ///
    /// A cache that has not expired leaves the refresher alone. One that has
    /// expired refreshes once: a value that comes out is stored as of `now`,
    /// a failure comes back as it is and leaves the cache as it was.
    pub fn get<R: Refresher<T>>(&mut self, refresher: &mut R, now: u64) -> (value: Result<&T, Error>)
        ensures
            !old(self)@.is_expired(now) ==> {
                &&& *final(refresher) == *old(refresher)
                &&& final(self)@ == old(self)@
                &&& value matches Ok(v)
                &&& Some(*v) == old(self)@.cached
            },
            old(self)@.is_expired(now) ==> exists|outcome: Result<T, Error>|
                #[trigger] old(refresher).refreshes(final(refresher), outcome) && match outcome {
                    Ok(fresh) => {
                        &&& final(self)@ == old(self)@.with_value(fresh, now)
                        &&& value matches Ok(v)
                        &&& *v == fresh
                    },
                    Err(e) => final(self)@ == old(self)@ && value == Err::<&T, Error>(e),
                },
    {
        if self.is_expired(now) {
            match refresher.refresh() {
                Ok(fresh) => {
                    assert(old(refresher).refreshes(refresher, Ok(fresh)));
                    self.set(fresh, now);
                },
                Err(e) => {
                    assert(old(refresher).refreshes(refresher, Err(e)));
                    return Err(e);
                },
            }
        }
        match self.cached.as_ref() {
            Some(cached) => Ok(cached),
            None => vstd::pervasive::unreached(),
        }
    }

    /// The cached value, to change in place; it is refreshed first where it
    /// has expired at `now`, as [`Cache::get`] does.
    pub fn get_mut<R: Refresher<T>>(&mut self, refresher: &mut R, now: u64) -> (value: Result<
        &mut T,
        Error,
    >)
        ensures
            !old(self)@.is_expired(now) ==> {
                &&& *final(refresher) == *old(refresher)
                &&& value matches Ok(v)
                &&& Some(*v) == old(self)@.cached
                &&& final(self)@ == (CacheView { cached: Some(*final(v)), ..old(self)@ })
            },
            old(self)@.is_expired(now) ==> exists|outcome: Result<T, Error>|
                #[trigger] old(refresher).refreshes(final(refresher), outcome) && match outcome {
                    Ok(fresh) => {
                        &&& value matches Ok(v)
                        &&& *v == fresh
                        &&& final(self)@ == old(self)@.with_value(*final(v), now)
                    },
                    Err(e) => final(self)@ == old(self)@ && value == Err::<&mut T, Error>(e),
                },
    {
        if self.is_expired(now) {
            match refresher.refresh() {
                Ok(fresh) => {
                    assert(old(refresher).refreshes(refresher, Ok(fresh)));
                    self.set(fresh, now);
                },
                Err(e) => {
                    assert(old(refresher).refreshes(refresher, Err(e)));
                    return Err(e);
                },
            }
        }
        match self.cached.as_mut() {
            Some(cached) => Ok(cached),
            None => vstd::pervasive::unreached(),
        }
    }
}

} // verus!
