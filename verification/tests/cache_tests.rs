use sylphie::cache::LruCache;

#[test]
fn holds_what_was_stored() {
    let mut cache: LruCache<u32> = LruCache::new(4);
    assert_eq!(cache.capacity(), 4);
    assert_eq!(cache.get(b"a"), None);
    cache.insert(b"a".to_vec(), 1);
    cache.insert(b"b".to_vec(), 2);
    assert_eq!(cache.get(b"a"), Some(&1));
    assert_eq!(cache.get(b"b"), Some(&2));
    assert_eq!(cache.len(), 2);
    cache.insert(b"a".to_vec(), 10);
    assert_eq!(cache.get(b"a"), Some(&10));
    assert_eq!(cache.len(), 2);
}

#[test]
fn drops_what_was_used_longest_ago() {
    let mut cache: LruCache<u32> = LruCache::new(2);
    cache.insert(b"a".to_vec(), 1);
    cache.insert(b"b".to_vec(), 2);
    assert_eq!(cache.get(b"a"), Some(&1));
    cache.insert(b"c".to_vec(), 3);
    assert!(cache.contains(b"a"));
    assert!(!cache.contains(b"b"));
    assert!(cache.contains(b"c"));
    assert_eq!(cache.len(), 2);
}

#[test]
fn peek_is_no_use() {
    let mut cache: LruCache<u32> = LruCache::new(2);
    cache.insert(b"a".to_vec(), 1);
    cache.insert(b"b".to_vec(), 2);
    assert_eq!(cache.peek(b"a"), Some(&1));
    cache.insert(b"c".to_vec(), 3);
    assert_eq!(cache.peek(b"a"), None);
    assert_eq!(cache.peek(b"b"), Some(&2));
}

#[test]
fn a_known_absence_can_be_cached() {
    let mut cache: LruCache<Option<Vec<u8>>> = LruCache::new(2);
    cache.insert(b"gone".to_vec(), None);
    assert_eq!(cache.get(b"gone"), Some(&None));
    assert_eq!(cache.get(b"never seen"), None);
}

#[test]
fn capacity_zero_holds_nothing() {
    let mut cache: LruCache<u32> = LruCache::new(0);
    cache.insert(b"a".to_vec(), 1);
    assert_eq!(cache.len(), 0);
    assert_eq!(cache.get(b"a"), None);
}
