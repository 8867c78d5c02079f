use oxtub::buffer::replacer::LruKReplacer;

#[test]
fn empty_replacer_evicts_nothing() {
    let mut replacer = LruKReplacer::new(10, 2);
    assert_eq!(replacer.evict(), None);
    assert_eq!(replacer.size(), 0);
}

#[test]
fn evict_single_frame() {
    let mut replacer = LruKReplacer::new(10, 2);

    // Doesn't evict pinned frame
    replacer.record_access(1, 0);
    assert_eq!(replacer.size(), 0);
    assert_eq!(replacer.evict(), None);

    // Evicts after unpin
    replacer.set_evictable(1, true);
    assert_eq!(replacer.size(), 1);
    assert_eq!(replacer.evict(), Some(1));
}

#[test]
fn eviction_prefer_frames_fewer_than_k_accesses() {
    let mut replacer = LruKReplacer::new(10, 2);

    replacer.record_access(1, 0);
    replacer.record_access(1, 0);
    replacer.record_access(2, 0);
    replacer.set_evictable(1, true);
    replacer.set_evictable(2, true);

    assert_eq!(replacer.size(), 2);
    assert_eq!(replacer.evict(), Some(2));
    assert_eq!(replacer.evict(), Some(1));
}

#[test]
fn eviction_tie_breaking_between_frames_fewer_than_k_accesses() {
    let mut replacer = LruKReplacer::new(10, 2);
    replacer.record_access(1, 0);
    replacer.record_access(2, 0);
    replacer.set_evictable(1, true);
    replacer.set_evictable(2, true);
    assert_eq!(replacer.evict(), Some(1));
}

#[test]
fn eviction_largest_backward_k_distance_amongst_full_history_frames() {
    let mut replacer = LruKReplacer::new(10, 2);
    replacer.record_access(1, 0);
    replacer.record_access(2, 0);
    replacer.record_access(1, 0);
    replacer.record_access(2, 0);
    replacer.set_evictable(1, true);
    replacer.set_evictable(2, true);
    assert_eq!(replacer.evict(), Some(1));
}

#[test]
fn only_last_k_timestamps_retained() {
    let mut replacer = LruKReplacer::new(10, 2);
    replacer.record_access(1, 0); // t=1
    replacer.record_access(2, 0); // t=2
    replacer.record_access(1, 0); // t=3
    replacer.record_access(2, 0); // t=4

    // If we evict here, frame 1 would be the victim

    replacer.record_access(1, 0); // t=5, drops frame 1's t=1
    replacer.set_evictable(1, true);
    replacer.set_evictable(2, true);
    assert_eq!(replacer.evict(), Some(2));
}

#[test]
fn cant_evict_twice() {
    let mut replacer = LruKReplacer::new(10, 2);
    replacer.record_access(1, 0);
    replacer.set_evictable(1, true);
    assert_eq!(replacer.evict(), Some(1));
    assert_eq!(replacer.evict(), None);
}

#[test]
fn size_tracks_evictable_frames() {
    let mut replacer = LruKReplacer::new(10, 2);

    replacer.record_access(1, 0);
    replacer.record_access(2, 0);
    assert_eq!(replacer.size(), 0);

    replacer.set_evictable(1, true);
    assert_eq!(replacer.size(), 1);

    replacer.set_evictable(2, true);
    assert_eq!(replacer.size(), 2);

    replacer.set_evictable(1, false);
    assert_eq!(replacer.size(), 1);
    assert_eq!(replacer.evict(), Some(2));
    assert_eq!(replacer.size(), 0);
}

#[test]
fn remove_evictable_node() {
    let mut replacer = LruKReplacer::new(10, 2);
    replacer.record_access(1, 0);
    replacer.set_evictable(1, true);
    replacer.remove(1);
    assert_eq!(replacer.size(), 0);
    assert_eq!(replacer.evict(), None);
}

#[test]
fn evicted_frame_starts_a_fresh_history() {
    let mut replacer = LruKReplacer::new(10, 2);
    replacer.record_access(1, 0);
    replacer.record_access(1, 0);
    replacer.set_evictable(1, true);
    assert_eq!(replacer.evict(), Some(1));
    // Frame 1 comes back with one access: +inf distance again, so it goes
    // before frame 2, which has two.
    replacer.record_access(2, 0);
    replacer.record_access(2, 0);
    replacer.record_access(1, 0);
    replacer.set_evictable(1, true);
    replacer.set_evictable(2, true);
    assert_eq!(replacer.evict(), Some(1));
    assert_eq!(replacer.evict(), Some(2));
}

#[test]
fn setting_evictable_twice_counts_once() {
    let mut replacer = LruKReplacer::new(4, 3);
    replacer.record_access(0, 0);
    replacer.set_evictable(0, true);
    replacer.set_evictable(0, true);
    assert_eq!(replacer.size(), 1);
    replacer.set_evictable(0, false);
    replacer.set_evictable(0, false);
    assert_eq!(replacer.size(), 0);
    assert_eq!(replacer.evict(), None);
}
