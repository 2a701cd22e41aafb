use rstrf::async_cache::AsyncCache;
use std::cell::RefCell;

#[test]
fn start_then_store_makes_the_key_fresh() {
    let mut c: AsyncCache<u64, &str, u32> = AsyncCache::new();
    let aborted = RefCell::new(Vec::new());
    assert!(!c.is_fresh(&1));
    c.start(1, 100, |h| aborted.borrow_mut().push(h));
    assert!(aborted.borrow().is_empty());
    assert!(c.is_fresh(&1));
    assert!(c.get_stored().is_none());
    c.store(1, "one");
    assert_eq!(c.get_stored(), Some((&1, &"one")));
    assert!(c.is_fresh(&1));
    assert!(!c.is_fresh(&2));
}

#[test]
fn superseded_results_are_ignored_and_old_value_kept() {
    let mut c: AsyncCache<u64, &str, u32> = AsyncCache::new();
    let aborted = RefCell::new(Vec::new());
    c.start(1, 100, |h| aborted.borrow_mut().push(h));
    c.store(1, "one");
    // a new key supersedes; the stale value stays visible
    c.start(2, 200, |h| aborted.borrow_mut().push(h));
    assert!(aborted.borrow().is_empty());
    c.start(3, 300, |h| aborted.borrow_mut().push(h));
    assert_eq!(*aborted.borrow(), vec![200]);
    assert_eq!(c.get_stored(), Some((&1, &"one")));
    c.store(2, "two");
    assert_eq!(c.get_stored(), Some((&1, &"one")));
    c.store(3, "three");
    assert_eq!(c.get_stored(), Some((&3, &"three")));
}

#[test]
fn reset_forgets_everything() {
    let mut c: AsyncCache<u64, &str, u32> = AsyncCache::new();
    let aborted = RefCell::new(Vec::new());
    c.start(1, 100, |h| aborted.borrow_mut().push(h));
    c.store(1, "one");
    c.start(2, 200, |h| aborted.borrow_mut().push(h));
    c.reset(|h| aborted.borrow_mut().push(h));
    assert_eq!(*aborted.borrow(), vec![200]);
    assert!(c.get_stored().is_none());
    assert!(!c.is_fresh(&1));
    assert!(!c.is_fresh(&2));
    c.store(2, "late");
    assert!(c.get_stored().is_none());
    c.reset(|h| aborted.borrow_mut().push(h));
    assert_eq!(*aborted.borrow(), vec![200]);
}

#[test]
fn default_cache_is_empty() {
    let mut cache: AsyncCache<u32, &str, u8> = AsyncCache::default();
    assert!(cache.get_stored().is_none());
    assert!(!cache.busy());
    assert!(!cache.is_fresh(&1));
    let mut aborted = 0;
    cache.reset(|_| aborted += 1);
    assert_eq!(aborted, 0);
}

#[test]
fn request_starts_a_computation_only_for_a_new_key() {
    let mut cache: AsyncCache<u32, &str, u8> = AsyncCache::new();
    let aborted = RefCell::new(Vec::new());
    let task = cache.request(1, |k| (k * 10, 7), |h| aborted.borrow_mut().push(h));
    assert_eq!(task, Some(10));
    assert!(aborted.borrow().is_empty());
    assert!(cache.busy());
    // the same key is in flight: nothing to do, f is not called
    let mut called = false;
    assert!(cache
        .request(1, |k| { called = true; (k * 10, 8) }, |h| aborted.borrow_mut().push(h))
        .is_none());
    assert!(!called);
    // a new key aborts the computation in flight and starts its own
    let task = cache.request(2, |k| (k * 10, 9), |h| aborted.borrow_mut().push(h));
    assert_eq!(task, Some(20));
    assert_eq!(*aborted.borrow(), vec![7]);
    // the result of the superseded computation is ignored, the current one is stored
    cache.store(1, "one");
    assert!(cache.get_stored().is_none());
    cache.store(2, "two");
    assert_eq!(cache.get_stored(), Some((&2, &"two")));
    assert!(cache.request(2, |k| (k, 0), |h| aborted.borrow_mut().push(h)).is_none());
    // a new key keeps the stale value visible while it is computed
    assert_eq!(cache.request(3, |k| (k, 1), |h| aborted.borrow_mut().push(h)), Some(3));
    assert_eq!(cache.get_stored(), Some((&2, &"two")));
    assert_eq!(*aborted.borrow(), vec![7]);
}
