use dust_mail::cache::{Cache, Refresher};
use dust_mail::error::{Error, ErrorKind};

struct Counter {
    calls: u32,
    fail: bool,
}

impl Refresher<u32> for Counter {
    fn refresh(&mut self) -> Result<u32, Error> {
        self.calls += 1;
        if self.fail {
            Err(Error::new(ErrorKind::Io, "no connection".to_string()))
        } else {
            Ok(100 + self.calls)
        }
    }
}

#[test]
fn get_right_after_set_does_not_refresh() {
    let mut cache = Cache::new(10, 0);
    let mut counter = Counter { calls: 0, fail: false };
    cache.set(7, 50);
    assert_eq!(*cache.get(&mut counter, 50).unwrap(), 7);
    assert_eq!(*cache.get(&mut counter, 60).unwrap(), 7);
    assert_eq!(counter.calls, 0);
}

#[test]
fn get_after_expiry_refreshes_exactly_once_per_call() {
    let mut cache = Cache::new(10, 0);
    let mut counter = Counter { calls: 0, fail: false };
    cache.set(7, 50);
    assert_eq!(*cache.get(&mut counter, 61).unwrap(), 101);
    assert_eq!(counter.calls, 1);
    // The refreshed value is as fresh as the time of the refresh.
    assert_eq!(*cache.get(&mut counter, 71).unwrap(), 101);
    assert_eq!(counter.calls, 1);
    assert_eq!(*cache.get(&mut counter, 72).unwrap(), 102);
    assert_eq!(counter.calls, 2);
}

#[test]
fn empty_cache_has_expired() {
    let mut cache: Cache<u32> = Cache::new(10, 0);
    assert!(cache.is_expired(0));
    let mut counter = Counter { calls: 0, fail: false };
    assert_eq!(*cache.get(&mut counter, 0).unwrap(), 101);
    assert_eq!(counter.calls, 1);
    assert!(!cache.is_expired(10));
    assert!(cache.is_expired(11));
}

#[test]
fn clock_that_reads_earlier_than_the_refresh_counts_as_no_time_passed() {
    let mut cache = Cache::new(10, 100);
    cache.set(1u32, 100);
    assert!(!cache.is_expired(0));
    assert!(!cache.is_expired(110));
    assert!(cache.is_expired(111));
}

#[test]
fn failed_refresh_comes_back_and_leaves_the_cache_expired() {
    let mut cache = Cache::new(10, 0);
    cache.set(7u32, 0);
    let mut failing = Counter { calls: 0, fail: true };
    let error = cache.get(&mut failing, 20).unwrap_err();
    assert_eq!(*error.kind(), ErrorKind::Io);
    assert_eq!(error.message(), "no connection");
    assert_eq!(failing.calls, 1);
    assert!(cache.is_expired(20));
    // The next call tries again.
    assert!(cache.get(&mut failing, 20).is_err());
    assert_eq!(failing.calls, 2);
    let mut working = Counter { calls: 0, fail: false };
    assert_eq!(*cache.get(&mut working, 20).unwrap(), 101);
}

#[test]
fn get_mut_changes_the_cached_value() {
    let mut cache = Cache::new(10, 0);
    let mut counter = Counter { calls: 0, fail: false };
    *cache.get_mut(&mut counter, 0).unwrap() += 1;
    assert_eq!(counter.calls, 1);
    assert_eq!(*cache.get(&mut counter, 5).unwrap(), 102);
    assert_eq!(counter.calls, 1);
    let mut failing = Counter { calls: 0, fail: true };
    assert!(cache.get_mut(&mut failing, 50).is_err());
    assert_eq!(failing.calls, 1);
}
