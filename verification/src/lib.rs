//! A time-to-refresh (TTR) cache: a key-value store that lazily re-fetches
//! an entry from an external data source once the entry's age reaches a
//! configured staleness threshold.
//!
//! The cache owns one [`EntityFetcher`] and calls it synchronously from the
//! calling path of [`TTRCache::get`]; there is no background refresh, no
//! eviction, and no internal synchronization.

pub mod keys;
pub mod model;

use vstd::prelude::*;

use crate::keys::CacheKey;
use crate::model::after_get;

verus! {

/// Data source interface for fetching entities.
///
/// The cache consumes this capability; it is implemented externally. The
/// fetcher is invoked synchronously on the calling path of `get`, and its
/// behaviour is described by the spec function `fetch_spec`: each
/// implementation chooses what its answers are, and `fetch_entity` must
/// return exactly that answer.
pub trait EntityFetcher<K, V> {
    /// The answer this source gives for `key`, as a mathematical function
    /// of the source and the key.
    spec fn fetch_spec(&self, key: K) -> Option<V>;

    /// Fetches an entity by key.
    ///
    /// Returns `Some(V)` if found, `None` otherwise.
    fn fetch_entity(&self, key: &K) -> (r: Option<V>)
        ensures
            r == self.fetch_spec(*key),
    ;
}

/// One stored entry: the key it is filed under, the time of the last
/// successful fetch, and the value that fetch produced.
struct CacheEntry<K, V> {
    key: K,
    stamp: u64,
    value: V,
}

/// Cache that re-fetches stale entries when they are asked for.
///
/// Types:
/// - `K`: key type (must implement [`CacheKey`])
/// - `V`: value type
/// - `F`: fetcher implementing [`EntityFetcher<K, V>`]
///
/// The contents are modelled by [`TTRCache::model`], a map from key views to
/// `(stamp, value)` pairs; every operation's contract is stated over that
/// map with the step function [`after_get`].
pub struct TTRCache<K, V, F> where K: CacheKey, F: EntityFetcher<K, V> {
    ttl: u64,
    entries: Vec<CacheEntry<K, V>>,
    fetcher: F,
}

impl<K, V, F> TTRCache<K, V, F> where K: CacheKey, F: EntityFetcher<K, V> {
    /// The map built from a sequence of entries, later entries winning.
    spec fn entries_model(s: Seq<CacheEntry<K, V>>) -> Map<<K as View>::V, (u64, V)>
        decreases s.len(),
    {
        if s.len() == 0 {
            Map::empty()
        } else {
            Self::entries_model(s.drop_last()).insert(
                s.last().key@,
                (s.last().stamp, s.last().value),
            )
        }
    }

    /// No two stored entries are filed under the same key view.
    spec fn distinct_keys(s: Seq<CacheEntry<K, V>>) -> bool {
        forall|i: int, j: int|
            0 <= i < j < s.len() ==> s[i].key@ != s[j].key@
    }

    /// The mathematical contents of the cache: for each key view with a
    /// populated entry, the time of its last successful fetch and the value
    /// that fetch produced.
    pub closed spec fn model(self) -> Map<<K as View>::V, (u64, V)> {
        Self::entries_model(self.entries@)
    }

    /// The staleness threshold the cache was constructed with.
    pub closed spec fn threshold(self) -> u64 {
        self.ttl
    }

    /// The fetcher the cache owns.
    pub closed spec fn data_source(self) -> F {
        self.fetcher
    }

    /// Well-formedness: the store holds at most one entry per key view.
    pub closed spec fn wf(self) -> bool {
        Self::distinct_keys(self.entries@)
    }

    /// A key view is in the model exactly when some stored entry carries it.
    proof fn lemma_model_dom(s: Seq<CacheEntry<K, V>>, kv: <K as View>::V)
        ensures
            Self::entries_model(s).dom().contains(kv) <==> exists|i: int|
                0 <= i < s.len() && s[i].key@ == kv,
        decreases s.len(),
    {
        if s.len() == 0 {
        } else {
            let t = s.drop_last();
            Self::lemma_model_dom(t, kv);
            if s.last().key@ == kv {
                assert(s[s.len() - 1].key@ == kv);
            } else {
                if exists|i: int| 0 <= i < s.len() && s[i].key@ == kv {
                    let i = choose|i: int| 0 <= i < s.len() && s[i].key@ == kv;
                    assert(t[i].key@ == kv);
                }
                if exists|i: int| 0 <= i < t.len() && t[i].key@ == kv {
                    let i = choose|i: int| 0 <= i < t.len() && t[i].key@ == kv;
                    assert(s[i].key@ == kv);
                }
            }
        }
    }

    /// Dropping the last entry keeps the keys distinct.
    proof fn lemma_distinct_drop_last(s: Seq<CacheEntry<K, V>>)
        requires
            Self::distinct_keys(s),
            s.len() > 0,
        ensures
            Self::distinct_keys(s.drop_last()),
    {
        let t = s.drop_last();
        assert forall|i: int, j: int| 0 <= i < j < t.len() implies t[i].key@ != t[j].key@ by {
            assert(s[i].key@ != s[j].key@);
        }
    }

    /// Under distinct keys, the model maps the key view of the entry at `i`
    /// to exactly that entry's stamp and value.
    proof fn lemma_model_at(s: Seq<CacheEntry<K, V>>, i: int)
        requires
            Self::distinct_keys(s),
            0 <= i < s.len(),
        ensures
            Self::entries_model(s).dom().contains(s[i].key@),
            Self::entries_model(s)[s[i].key@] == (s[i].stamp, s[i].value),
        decreases s.len(),
    {
        if i == s.len() - 1 {
        } else {
            let t = s.drop_last();
            Self::lemma_distinct_drop_last(s);
            Self::lemma_model_at(t, i);
            assert(t[i] == s[i]);
            assert(s.last().key@ != s[i].key@);
        }
    }

    /// Appending an entry whose key view is new keeps the keys distinct.
    proof fn lemma_distinct_push(s: Seq<CacheEntry<K, V>>, e: CacheEntry<K, V>)
        requires
            Self::distinct_keys(s),
            forall|j: int| 0 <= j < s.len() ==> s[j].key@ != e.key@,
        ensures
            Self::distinct_keys(s.push(e)),
    {
        let u = s.push(e);
        assert forall|i: int, j: int| 0 <= i < j < u.len() implies u[i].key@ != u[j].key@ by {
            if j < s.len() {
                assert(s[i].key@ != s[j].key@);
            } else {
                assert(u[j] == e);
                assert(s[i].key@ != e.key@);
            }
        }
    }

    /// Appending an entry inserts its key view into the model.
    proof fn lemma_model_push(s: Seq<CacheEntry<K, V>>, e: CacheEntry<K, V>)
        ensures
            Self::entries_model(s.push(e)) == Self::entries_model(s).insert(
                e.key@,
                (e.stamp, e.value),
            ),
    {
        assert(s.push(e).drop_last() =~= s);
        assert(s.push(e).last() == e);
    }

    /// Overwriting the entry at `i` with one filed under the same key view
    /// keeps the keys distinct and inserts the new stamp and value into the
    /// model.
    proof fn lemma_model_update(s: Seq<CacheEntry<K, V>>, i: int, e: CacheEntry<K, V>)
        requires
            Self::distinct_keys(s),
            0 <= i < s.len(),
            e.key@ == s[i].key@,
        ensures
            Self::distinct_keys(s.update(i, e)),
            Self::entries_model(s.update(i, e)) == Self::entries_model(s).insert(
                e.key@,
                (e.stamp, e.value),
            ),
        decreases s.len(),
    {
        let u = s.update(i, e);
        assert forall|a: int, b: int| 0 <= a < b < u.len() implies u[a].key@ != u[b].key@ by {
            assert(s[a].key@ != s[b].key@);
            assert(u[a].key@ == s[a].key@ && u[b].key@ == s[b].key@);
        }
        let t = s.drop_last();
        if i == s.len() - 1 {
            assert(u.drop_last() =~= t);
            assert(u.last() == e);
            assert(Self::entries_model(u) == Self::entries_model(t).insert(
                e.key@,
                (e.stamp, e.value),
            ));
            assert(Self::entries_model(s) == Self::entries_model(t).insert(
                s.last().key@,
                (s.last().stamp, s.last().value),
            ));
            assert(Self::entries_model(t).insert(e.key@, (e.stamp, e.value)) =~= Self::entries_model(
                s,
            ).insert(e.key@, (e.stamp, e.value)));
        } else {
            Self::lemma_distinct_drop_last(s);
            assert(u.drop_last() =~= t.update(i, e));
            assert(u.last() == s.last());
            assert(t[i] == s[i]);
            Self::lemma_model_update(t, i, e);
            let lk = s.last().key@;
            let lv = (s.last().stamp, s.last().value);
            assert(s[i].key@ != lk);
            assert(Self::entries_model(u) == Self::entries_model(t).insert(
                e.key@,
                (e.stamp, e.value),
            ).insert(lk, lv));
            assert(Self::entries_model(t).insert(e.key@, (e.stamp, e.value)).insert(lk, lv)
                =~= Self::entries_model(t).insert(lk, lv).insert(e.key@, (e.stamp, e.value)));
            assert(Self::entries_model(s) == Self::entries_model(t).insert(lk, lv));
        }
    }

    /// Creates a new cache with the given staleness threshold and fetcher.
    ///
    /// The cache starts cold: no fetch is performed at construction time and
    /// the contents are empty.
    pub fn new(ttl: u64, fetcher: F) -> (c: Self)
        ensures
            c.wf(),
            c.model() == Map::<<K as View>::V, (u64, V)>::empty(),
            c.threshold() == ttl,
            c.data_source() == fetcher,
    {
        TTRCache { ttl, entries: Vec::new(), fetcher }
    }

    /// The position of the entry filed under `key`'s view, if any.
    fn find_index(&self, key: &K) -> (r: Option<usize>)
        ensures
            match r {
                Some(i) => i < self.entries@.len() && self.entries@[i as int].key@ == key@,
                None => forall|j: int| 0 <= j < self.entries@.len() ==> self.entries@[j].key@ != key@,
            },
    {
        let mut i: usize = 0;
        while i < self.entries.len()
            invariant
                i <= self.entries@.len(),
                forall|j: int| 0 <= j < i ==> self.entries@[j].key@ != key@,
            decreases self.entries@.len() - i,
        {
            if self.entries[i].key.key_eq(key) {
                return Some(i);
            }
            i = i + 1;
        }
        None
    }

    /// Asks the fetcher for `key` unconditionally and, on success, files the
    /// answer under `key`'s view with stamp `now`, overwriting any previous
    /// entry; a failed fetch leaves the contents untouched.
    fn fetch_entity(&mut self, key: &K, now: u64)
        requires
            old(self).wf(),
        ensures
            final(self).wf(),
            final(self).threshold() == old(self).threshold(),
            final(self).data_source() == old(self).data_source(),
            final(self).model() == match old(self).data_source().fetch_spec(*key) {
                Some(v) => old(self).model().insert(key@, (now, v)),
                None => old(self).model(),
            },
    {
        let fetched = self.fetcher.fetch_entity(key);
        match fetched {
            Some(v) => {
                let ghost s0 = self.entries@;
                match self.find_index(key) {
                    Some(i) => {
                        self.entries[i] = CacheEntry { key: key.clone_key(), stamp: now, value: v };
                        proof {
                            Self::lemma_model_update(s0, i as int, self.entries@[i as int]);
                        }
                    },
                    None => {
                        self.entries.push(CacheEntry { key: key.clone_key(), stamp: now, value: v });
                        proof {
                            let e = self.entries@.last();
                            Self::lemma_distinct_push(s0, e);
                            Self::lemma_model_push(s0, e);
                        }
                    },
                }
            },
            None => {},
        }
    }

    /// Re-fetches the entry for `key` if it is missing or if its age at
    /// `now` has reached the threshold; otherwise leaves the cache as it is.
    /// In either case the contents afterwards are one `get` step of the
    /// model.
    fn refresh(&mut self, key: &K, now: u64)
        requires
            old(self).wf(),
        ensures
            final(self).wf(),
            final(self).threshold() == old(self).threshold(),
            final(self).data_source() == old(self).data_source(),
            final(self).model() == after_get(
                old(self).model(),
                old(self).threshold(),
                key@,
                now,
                old(self).data_source().fetch_spec(*key),
            ),
    {
        match self.find_index(key) {
            None => {
                proof {
                    Self::lemma_model_dom(self.entries@, key@);
                }
                self.fetch_entity(key, now);
            },
            Some(i) => {
                let stamp = self.entries[i].stamp;
                proof {
                    Self::lemma_model_at(self.entries@, i as int);
                }
                if now >= stamp && now - stamp >= self.ttl {
                    self.fetch_entity(key, now);
                }
            },
        }
    }

    /// Gets the value for `key` as of time `now`, refreshing first if the
    /// entry is missing or stale.
    ///
    /// Returns a reference to the value now stored for `key` — just fetched,
    /// still fresh, or left over stale from a failed refresh — and `None`
    /// exactly when `key` has never been fetched successfully.
    pub fn get_at(&mut self, key: &K, now: u64) -> (r: Option<&V>)
        requires
            old(self).wf(),
        ensures
            final(self).wf(),
            final(self).threshold() == old(self).threshold(),
            final(self).data_source() == old(self).data_source(),
            final(self).model() == after_get(
                old(self).model(),
                old(self).threshold(),
                key@,
                now,
                old(self).data_source().fetch_spec(*key),
            ),
            match r {
                Some(v) => final(self).model().dom().contains(key@) && *v == final(self).model()[key@].1,
                None => !final(self).model().dom().contains(key@),
            },
    {
        self.refresh(key, now);
        match self.find_index(key) {
            Some(i) => {
                proof {
                    Self::lemma_model_at(self.entries@, i as int);
                }
                Some(&self.entries[i].value)
            },
            None => {
                proof {
                    Self::lemma_model_dom(self.entries@, key@);
                }
                None
            },
        }
    }

    /// Gets the value for `key` at the current wall-clock time, refreshing
    /// if stale.
    ///
    /// Returns `Some(&V)` if found, `None` otherwise. The wall clock is not
    /// under the cache's control, so the contract only says that the new
    /// contents are one `get` step of the model at some time; `get_at`
    /// carries the exact, time-indexed contract.
    pub fn get(&mut self, key: &K) -> (r: Option<&V>)
        requires
            old(self).wf(),
        ensures
            final(self).wf(),
            final(self).threshold() == old(self).threshold(),
            final(self).data_source() == old(self).data_source(),
            exists|now: u64|
                final(self).model() == after_get(
                    old(self).model(),
                    old(self).threshold(),
                    key@,
                    now,
                    old(self).data_source().fetch_spec(*key),
                ),
            match r {
                Some(v) => final(self).model().dom().contains(key@) && *v == final(self).model()[key@].1,
                None => !final(self).model().dom().contains(key@),
            },
    {
        let now = now_units();
        self.get_at(key, now)
    }
}

/// The current wall-clock time in milliseconds since the Unix epoch.
///
/// Relies on `std::time::SystemTime::now`; the clock is outside the
/// program's control, so nothing is promised of the result.
#[verifier::external_body]
fn now_units() -> u64 {
    match std::time::SystemTime::now().duration_since(std::time::UNIX_EPOCH) {
        Ok(d) => d.as_millis() as u64,
        Err(_) => 0,
    }
}

} // verus!
