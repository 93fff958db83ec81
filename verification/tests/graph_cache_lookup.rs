use leet_render::cache::{RenderGraphCache, RenderGraphShapeHash};
use leet_render::error::RenderGraphError;

#[test]
fn lookup_with_unset_hash_is_refused() {
    let mut cache = RenderGraphCache::new();
    let r = cache.get_graph(RenderGraphShapeHash::invalid(), 1, 0, false);
    assert!(matches!(
        r,
        Err(RenderGraphError::InvalidState { reason: "render graph cache lookup requires a valid graph-shape hash" })
    ));
    assert!(cache.is_empty());
}

#[test]
fn stored_graph_is_reused_until_force_clear() {
    let mut cache = RenderGraphCache::with_capacity(2);
    let hash = RenderGraphShapeHash::from_raw(7);
    let first = cache.get_graph(hash, 1, 10, false).unwrap();
    assert_eq!(first.entry_index, 0);
    assert!(first.needs_rebuild);
    // Without a stored graph the slot cannot serve a hit yet.
    let again = cache.get_graph(hash, 1, 11, false).unwrap();
    assert_eq!(again.entry_index, 1);
    assert!(again.needs_rebuild);
    cache.store_final_graph(0);
    let hit = cache.get_graph(hash, 1, 12, false).unwrap();
    assert_eq!(hit.entry_index, 0);
    assert!(!hit.needs_rebuild);
    assert_eq!(cache.entries()[0].last_used_frame, 12);
    // Another camera-setup count is a different shape.
    let other = cache.get_graph(hash, 2, 13, false).unwrap();
    assert!(other.needs_rebuild);
    let forced = cache.get_graph(hash, 1, 14, true).unwrap();
    assert!(forced.needs_rebuild);
}

#[test]
fn full_cache_rebuilds_least_recently_used_slot() {
    let mut cache = RenderGraphCache::with_capacity(2);
    let a = RenderGraphShapeHash::from_raw(1);
    let b = RenderGraphShapeHash::from_raw(2);
    let c = RenderGraphShapeHash::from_raw(3);
    cache.get_graph(a, 1, 5, false).unwrap();
    cache.store_final_graph(0);
    cache.get_graph(b, 1, 6, false).unwrap();
    cache.store_final_graph(1);
    // Touch `a` so `b` becomes the oldest.
    assert!(!cache.get_graph(a, 1, 7, false).unwrap().needs_rebuild);
    let evicted = cache.get_graph(c, 1, 8, false).unwrap();
    assert_eq!(evicted.entry_index, 1);
    assert!(evicted.needs_rebuild);
    assert_eq!(cache.len(), 2);
    assert_eq!(cache.entries()[1].shape_hash, c);
    assert_eq!(cache.entries()[1].rebuild_generation, 2);
    assert!(!cache.entries()[1].has_final_graph);
    assert_eq!(cache.max_entries(), 2);
}

#[test]
fn zero_capacity_keeps_one_slot() {
    let cache = RenderGraphCache::with_capacity(0);
    assert_eq!(cache.max_entries(), 1);
}
