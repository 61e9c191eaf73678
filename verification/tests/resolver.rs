//! The cache of collection ids.
use couchbase_core::collection_resolver_cached::{
    broken_off, CollectionResolverCached, FormattedCollectionPath, Resolve,
};

/// Answers every ask with one id and revision, and counts the asks.
struct Counting {
    cache: CollectionResolverCached,
    asked: u32,
}

impl Counting {
    fn resolve(&mut self) -> (u32, u64) {
        match self.cache.resolve_collection_id("scope", "collection") {
            Resolve::Known(id, rev) => (id, rev),
            Resolve::Wait(_) => panic!("nobody else is asking"),
            Resolve::Fetch(ticket) => {
                self.asked += 1;
                let woken = self.cache.resolved("scope", "collection", 9, 4);
                assert_eq!(woken, Some(ticket));
                (9, 4)
            }
        }
    }
}

fn warm_cache_at_rev_4() -> Counting {
    let mut warm = Counting {
        cache: CollectionResolverCached::new(),
        asked: 0,
    };
    assert_eq!(warm.resolve(), (9, 4));
    assert_eq!(warm.asked, 1);
    assert_eq!(warm.resolve(), (9, 4));
    assert_eq!(warm.asked, 1);
    warm
}

#[test]
fn invalidation_older_than_the_cached_entry_is_declined() {
    let mut warm = warm_cache_at_rev_4();
    warm.cache.invalidate_collection_id("scope", "collection", 2);
    assert_eq!(warm.resolve(), (9, 4));
    assert_eq!(
        warm.asked, 1,
        "an invalidation from an older manifest should have left the entry alone"
    );
}

#[test]
fn invalidation_at_the_cached_revision_drops_the_entry() {
    let mut warm = warm_cache_at_rev_4();
    warm.cache.invalidate_collection_id("scope", "collection", 4);
    warm.resolve();
    assert_eq!(
        warm.asked, 2,
        "a refusal from the manifest we resolved against is about our id"
    );
}

#[test]
fn invalidation_newer_than_the_cached_entry_drops_the_entry() {
    let mut warm = warm_cache_at_rev_4();
    warm.cache.invalidate_collection_id("scope", "collection", 5);
    warm.resolve();
    assert_eq!(warm.asked, 2);
}

#[test]
fn invalidation_without_a_revision_drops_the_entry() {
    let mut warm = warm_cache_at_rev_4();
    warm.cache.invalidate_collection_id("scope", "collection", 0);
    warm.resolve();
    assert_eq!(warm.asked, 2);
}

#[test]
fn others_wait_for_whoever_asked_first() {
    let mut cache = CollectionResolverCached::new();
    let Resolve::Fetch(ticket) = cache.resolve_collection_id("s", "c") else {
        panic!("nobody asked yet");
    };
    assert_eq!(cache.resolve_collection_id("s", "c"), Resolve::Wait(ticket));
    let Resolve::Fetch(other) = cache.resolve_collection_id("s", "d") else {
        panic!("another collection");
    };
    assert_ne!(ticket, other);
    assert_eq!(cache.failed("s", "c"), Some(ticket));
    assert!(!cache.has_entry("s", "c"));
    assert!(matches!(
        cache.resolve_collection_id("s", "c"),
        Resolve::Fetch(_)
    ));
}

#[test]
fn a_collection_without_an_id_is_still_known() {
    let mut cache = CollectionResolverCached::new();
    cache.resolve_collection_id("_default", "_default");
    cache.resolved("_default", "_default", 0, 3);
    assert_eq!(
        cache.resolve_collection_id("_default", "_default"),
        Resolve::Known(0, 3)
    );
}

#[test]
fn a_path_is_the_two_names_however_long_they_are() {
    assert_eq!(FormattedCollectionPath::new("s", "c").as_str(), "s.c");
    let long = "x".repeat(251);
    assert_eq!(
        FormattedCollectionPath::new(&long, &long).as_str(),
        format!("{long}.{long}")
    );
    assert_eq!(
        broken_off("cancelled").message(),
        "failed to join resolve collection id task: cancelled"
    );
}

#[test]
fn an_ask_that_fails_late_leaves_what_is_served() {
    let mut cache = CollectionResolverCached::new();
    assert!(matches!(
        cache.resolve_collection_id("s", "c"),
        Resolve::Fetch(_)
    ));
    cache.invalidate_collection_id("s", "c", 0);
    let Resolve::Fetch(second) = cache.resolve_collection_id("s", "c") else {
        panic!("the entry is gone, so the next caller asks");
    };
    assert_eq!(cache.resolved("s", "c", 9, 4), Some(second));
    assert_eq!(cache.failed("s", "c"), None);
    assert!(!cache.has_entry("s", "c"));
    assert_eq!(
        cache.resolve_collection_id("s", "c"),
        Resolve::Known(9, 4)
    );
    cache.invalidate_collection_id("s", "other", 0);
    assert!(matches!(
        cache.resolve_collection_id("s", "c"),
        Resolve::Fetch(_)
    ));
}
