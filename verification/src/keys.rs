use vstd::prelude::*;

verus! {

/// A key type for the cache.
///
/// The cache stores entries in a structure keyed by the mathematical view
/// (`@`) of the key, so a key type must provide an executable equality test
/// that agrees with view equality, and a way to duplicate a key without
/// changing its view.
pub trait CacheKey: View + Sized {
    /// Executable equality on keys; it must decide equality of the views.
    fn key_eq(&self, other: &Self) -> (r: bool)
        ensures
            r <==> self@ == other@,
    ;

    /// Duplicates the key; the copy has the same view as the key itself.
    fn clone_key(&self) -> (r: Self)
        ensures
            r@ == self@,
    ;
}

impl CacheKey for u64 {
    fn key_eq(&self, other: &Self) -> (r: bool) {
        *self == *other
    }

    fn clone_key(&self) -> (r: Self) {
        *self
    }
}

impl CacheKey for u32 {
    fn key_eq(&self, other: &Self) -> (r: bool) {
        *self == *other
    }

    fn clone_key(&self) -> (r: Self) {
        *self
    }
}

impl CacheKey for usize {
    fn key_eq(&self, other: &Self) -> (r: bool) {
        *self == *other
    }

    fn clone_key(&self) -> (r: Self) {
        *self
    }
}

impl CacheKey for String {
    fn key_eq(&self, other: &Self) -> (r: bool) {
        *self == *other
    }

    fn clone_key(&self) -> (r: Self) {
        self.clone()
    }
}

} // verus!
