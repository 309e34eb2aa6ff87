//! The mathematical model of one `get` step.
//!
//! The contents of the cache are modelled as a `Map` from key views to pairs
//! `(stamp, value)`, where `stamp` is the time of the last successful fetch.
//! [`after_get`] says what that map becomes when `get` runs for one key at a
//! given time, for every possible answer of the fetcher; the proof functions
//! below state the laws of that step.

use vstd::prelude::*;

verus! {

/// Whether the entry for `k` must be (re-)fetched at time `now`: a missing
/// entry always needs a fetch, and a present one needs it exactly when its
/// age has reached the threshold `ttl`.
///
/// The boundary is inclusive: an age exactly equal to `ttl` is stale.
pub open spec fn needs_refresh<KV, V>(m: Map<KV, (u64, V)>, ttl: u64, k: KV, now: u64) -> bool {
    !m.dom().contains(k) || now >= m[k].0 + ttl
}

/// The cache contents after one `get` step for key `k` at time `now`, when
/// the fetcher's answer for `k` is `fetched`.
///
/// A fresh entry is served as it is; a needed fetch that succeeds overwrites
/// the entry (value and stamp both); a needed fetch that fails leaves the
/// map untouched, so a stale entry keeps being served and a missing key
/// stays missing.
pub open spec fn after_get<KV, V>(
    m: Map<KV, (u64, V)>,
    ttl: u64,
    k: KV,
    now: u64,
    fetched: Option<V>,
) -> Map<KV, (u64, V)> {
    if needs_refresh(m, ttl, k, now) {
        match fetched {
            Some(v) => m.insert(k, (now, v)),
            None => m,
        }
    } else {
        m
    }
}

/// A key with no entry stays absent when the fetch fails: the step changes
/// nothing and the key is still outside the map.
pub proof fn lemma_missing_key_failed_fetch<KV, V>(m: Map<KV, (u64, V)>, ttl: u64, k: KV, now: u64)
    requires
        !m.dom().contains(k),
    ensures
        after_get(m, ttl, k, now, None::<V>) == m,
        !after_get(m, ttl, k, now, None::<V>).dom().contains(k),
{
}

/// A fresh entry is a pure read: whatever the fetcher would answer, a `get`
/// before the entry's stamp plus `ttl` leaves the cache exactly as it was,
/// and the entry it serves is the stored one.
pub proof fn lemma_fresh_entry_served<KV, V>(
    m: Map<KV, (u64, V)>,
    ttl: u64,
    k: KV,
    now: u64,
    fetched: Option<V>,
)
    requires
        m.dom().contains(k),
        now < m[k].0 + ttl,
    ensures
        after_get(m, ttl, k, now, fetched) == m,
        after_get(m, ttl, k, now, fetched)[k] == m[k],
{
}

/// A needed fetch that succeeds overwrites the entry wholesale: both the
/// stored value and the stored stamp become those of the new fetch, and no
/// other key is touched.
pub proof fn lemma_refresh_updates_entry<KV, V>(
    m: Map<KV, (u64, V)>,
    ttl: u64,
    k: KV,
    now: u64,
    v: V,
)
    requires
        needs_refresh(m, ttl, k, now),
    ensures
        after_get(m, ttl, k, now, Some(v)) == m.insert(k, (now, v)),
        after_get(m, ttl, k, now, Some(v))[k] == (now, v),
        after_get(m, ttl, k, now, Some(v)).dom().contains(k),
{
}

/// A failed refresh of a populated key preserves the stale entry unchanged:
/// the old value keeps being served and the stamp is not advanced, so the
/// next `get` at or after the same age retries the fetch.
pub proof fn lemma_failed_refresh_preserves_entry<KV, V>(
    m: Map<KV, (u64, V)>,
    ttl: u64,
    k: KV,
    now: u64,
)
    requires
        m.dom().contains(k),
    ensures
        after_get(m, ttl, k, now, None::<V>) == m,
        after_get(m, ttl, k, now, None::<V>)[k] == m[k],
        needs_refresh(m, ttl, k, now) ==> needs_refresh(
            after_get(m, ttl, k, now, None::<V>),
            ttl,
            k,
            now,
        ),
{
}

/// Idempotence of `get` inside the freshness window: once a needed fetch has
/// populated the entry at time `now`, every further `get` step strictly
/// before `now + ttl` is a pure read — it changes nothing, whatever the
/// fetcher would then answer — and the entry served is still `(now, v)`.
pub proof fn lemma_get_idempotent_within_window<KV, V>(
    m: Map<KV, (u64, V)>,
    ttl: u64,
    k: KV,
    now: u64,
    v: V,
    later: u64,
    fetched: Option<V>,
)
    requires
        needs_refresh(m, ttl, k, now),
        later < now + ttl,
    ensures
        after_get(after_get(m, ttl, k, now, Some(v)), ttl, k, later, fetched) == after_get(
            m,
            ttl,
            k,
            now,
            Some(v),
        ),
        after_get(m, ttl, k, now, Some(v))[k] == (now, v),
{
}

} // verus!
