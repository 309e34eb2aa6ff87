use std::cell::Cell;
use std::rc::Rc;

use ttr_cache::{EntityFetcher, TTRCache};

/// A scripted data source for string keys: answers for the key `"a"` with
/// whatever `answer` currently holds, with absence for every other key, and
/// counts every call it receives.
struct ScriptedFetcher {
    answer: Rc<Cell<Option<u64>>>,
    calls: Rc<Cell<u64>>,
}

impl EntityFetcher<String, u64> for ScriptedFetcher {
    // Ghost item of the trait: it carries the fetcher's contract under
    // verification and is never called at run time.
    fn fetch_spec(&self, _key: String) -> Option<u64> {
        unreachable!()
    }

    fn fetch_entity(&self, key: &String) -> Option<u64> {
        self.calls.set(self.calls.get() + 1);
        if key == "a" {
            self.answer.get()
        } else {
            None
        }
    }
}

fn scripted(
    initial: Option<u64>,
    ttl: u64,
) -> (TTRCache<String, u64, ScriptedFetcher>, Rc<Cell<Option<u64>>>, Rc<Cell<u64>>) {
    let answer = Rc::new(Cell::new(initial));
    let calls = Rc::new(Cell::new(0u64));
    let fetcher = ScriptedFetcher { answer: Rc::clone(&answer), calls: Rc::clone(&calls) };
    (TTRCache::new(ttl, fetcher), answer, calls)
}

#[test]
fn fresh_fetch_returns_value_with_one_call() {
    let (mut cache, _answer, calls) = scripted(Some(42), 300);
    assert_eq!(cache.get_at(&"a".to_string(), 0), Some(&42));
    assert_eq!(calls.get(), 1);
}

#[test]
fn cache_hit_within_window_makes_no_call() {
    let (mut cache, _answer, calls) = scripted(Some(42), 300);
    assert_eq!(cache.get_at(&"a".to_string(), 0), Some(&42));
    assert_eq!(cache.get_at(&"a".to_string(), 0), Some(&42));
    assert_eq!(cache.get_at(&"a".to_string(), 299), Some(&42));
    assert_eq!(calls.get(), 1);
}

#[test]
fn staleness_triggers_refresh_and_updates_stamp() {
    let (mut cache, answer, calls) = scripted(Some(42), 300);
    assert_eq!(cache.get_at(&"a".to_string(), 0), Some(&42));
    answer.set(Some(43));
    assert_eq!(cache.get_at(&"a".to_string(), 300), Some(&43));
    assert_eq!(calls.get(), 2);
    // The stamp moved to 300: the entry is fresh again until 599.
    assert_eq!(cache.get_at(&"a".to_string(), 599), Some(&43));
    assert_eq!(calls.get(), 2);
}

#[test]
fn elapsed_equal_to_threshold_is_stale() {
    let (mut cache, _answer, calls) = scripted(Some(7), 300);
    assert_eq!(cache.get_at(&"a".to_string(), 100), Some(&7));
    assert_eq!(cache.get_at(&"a".to_string(), 399), Some(&7));
    assert_eq!(calls.get(), 1);
    assert_eq!(cache.get_at(&"a".to_string(), 400), Some(&7));
    assert_eq!(calls.get(), 2);
}

#[test]
fn failed_refresh_preserves_stale_value_and_stamp() {
    let (mut cache, answer, calls) = scripted(Some(42), 300);
    assert_eq!(cache.get_at(&"a".to_string(), 0), Some(&42));
    answer.set(Some(43));
    assert_eq!(cache.get_at(&"a".to_string(), 300), Some(&43));
    answer.set(None);
    // Stale at 600; the failed refresh serves the old value unchanged.
    assert_eq!(cache.get_at(&"a".to_string(), 600), Some(&43));
    assert_eq!(calls.get(), 3);
    // The stamp was not advanced, so the very next call retries at once.
    assert_eq!(cache.get_at(&"a".to_string(), 600), Some(&43));
    assert_eq!(calls.get(), 4);
    // A later successful refresh takes over again.
    answer.set(Some(44));
    assert_eq!(cache.get_at(&"a".to_string(), 601), Some(&44));
    assert_eq!(calls.get(), 5);
}

#[test]
fn failed_first_fetch_creates_no_entry() {
    let (mut cache, answer, calls) = scripted(None, 300);
    assert_eq!(cache.get_at(&"a".to_string(), 0), None);
    assert_eq!(calls.get(), 1);
    // No entry was created: the same key is fetched again right away.
    assert_eq!(cache.get_at(&"a".to_string(), 0), None);
    assert_eq!(calls.get(), 2);
    // Once the source has the value, the first successful fetch populates.
    answer.set(Some(9));
    assert_eq!(cache.get_at(&"a".to_string(), 0), Some(&9));
    assert_eq!(calls.get(), 3);
    assert_eq!(cache.get_at(&"a".to_string(), 299), Some(&9));
    assert_eq!(calls.get(), 3);
}

#[test]
fn never_found_key_retries_every_call() {
    let (mut cache, _answer, calls) = scripted(Some(42), 300);
    assert_eq!(cache.get_at(&"z".to_string(), 0), None);
    assert_eq!(calls.get(), 1);
    assert_eq!(cache.get_at(&"z".to_string(), 0), None);
    assert_eq!(calls.get(), 2);
    assert_eq!(cache.get_at(&"z".to_string(), 500), None);
    assert_eq!(calls.get(), 3);
}

#[test]
fn repeated_gets_within_window_are_pure_reads() {
    let (mut cache, answer, calls) = scripted(Some(42), 300);
    assert_eq!(cache.get_at(&"a".to_string(), 0), Some(&42));
    // Even if the source changes its mind, the fresh entry is served as is.
    answer.set(Some(99));
    for now in 1..300u64 {
        assert_eq!(cache.get_at(&"a".to_string(), now), Some(&42));
    }
    assert_eq!(calls.get(), 1);
}

#[test]
fn keys_are_independent() {
    let answer = Rc::new(Cell::new(Some(1u64)));
    let calls = Rc::new(Cell::new(0u64));
    let fetcher = ScriptedFetcher { answer: Rc::clone(&answer), calls: Rc::clone(&calls) };
    let mut cache = TTRCache::new(300, fetcher);
    assert_eq!(cache.get_at(&"a".to_string(), 0), Some(&1));
    assert_eq!(cache.get_at(&"z".to_string(), 0), None);
    // The failed fetch for "z" touched neither the entry for "a" ...
    assert_eq!(cache.get_at(&"a".to_string(), 299), Some(&1));
    assert_eq!(calls.get(), 2);
    // ... nor did the later refresh of "a" create one for "z".
    answer.set(Some(2));
    assert_eq!(cache.get_at(&"a".to_string(), 300), Some(&2));
    assert_eq!(cache.get_at(&"z".to_string(), 300), None);
    assert_eq!(calls.get(), 4);
}

#[test]
fn zero_threshold_fetches_on_every_call() {
    let (mut cache, answer, calls) = scripted(Some(5), 0);
    assert_eq!(cache.get_at(&"a".to_string(), 10), Some(&5));
    answer.set(Some(6));
    assert_eq!(cache.get_at(&"a".to_string(), 10), Some(&6));
    assert_eq!(calls.get(), 2);
}

#[test]
fn wall_clock_get_populates_and_serves() {
    let (mut cache, _answer, calls) = scripted(Some(42), u64::MAX);
    assert_eq!(cache.get(&"a".to_string()), Some(&42));
    assert_eq!(calls.get(), 1);
    // With the largest threshold the entry can never go stale again.
    assert_eq!(cache.get(&"a".to_string()), Some(&42));
    assert_eq!(calls.get(), 1);
    assert_eq!(cache.get(&"z".to_string()), None);
    assert_eq!(calls.get(), 2);
}
