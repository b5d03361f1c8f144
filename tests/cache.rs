use image_viewer::cache::{CachedImage, ImageCache};

fn img(tag: u8) -> CachedImage {
    CachedImage::from_rgba(1, 1, vec![tag, tag, tag, 255]).unwrap()
}

#[test]
fn lru_scenario_get_protects_entry() {
    let mut cache = ImageCache::new(2);
    cache.put("a", img(1));
    cache.put("b", img(2));
    assert!(cache.get("a").is_some());
    cache.put("c", img(3));
    assert!(cache.contains("a"));
    assert!(!cache.contains("b"));
    assert!(cache.contains("c"));
    assert_eq!(cache.len(), 2);
}

#[test]
fn full_cache_evicts_least_recently_inserted() {
    let mut cache = ImageCache::new(3);
    cache.put("a", img(1));
    cache.put("b", img(2));
    cache.put("c", img(3));
    cache.put("d", img(4));
    assert!(!cache.contains("a"));
    assert!(cache.contains("b") && cache.contains("c") && cache.contains("d"));
    assert_eq!(cache.len(), 3);
}

#[test]
fn reinsert_replaces_without_eviction() {
    let mut cache = ImageCache::new(2);
    cache.put("a", img(1));
    cache.put("b", img(2));
    cache.put("a", img(9));
    assert_eq!(cache.len(), 2);
    let got = cache.get("a").unwrap();
    assert_eq!(got.pixels.as_slice(), &[9, 9, 9, 255]);
    // "a" was refreshed twice; "b" is now the least recently used
    cache.put("c", img(3));
    assert!(!cache.contains("b"));
    assert!(cache.contains("a"));
}

#[test]
fn zero_capacity_stores_nothing() {
    let mut cache = ImageCache::new(0);
    cache.put("a", img(1));
    assert_eq!(cache.len(), 0);
    assert!(cache.get("a").is_none());
    assert_eq!(cache.capacity(), 0);
}

#[test]
fn miss_changes_nothing() {
    let mut cache = ImageCache::new(2);
    cache.put("a", img(1));
    assert!(cache.get("zzz").is_none());
    assert_eq!(cache.len(), 1);
}

#[test]
fn hit_shares_the_buffer() {
    let mut cache = ImageCache::new(1);
    let original = img(7);
    let ptr = std::sync::Arc::as_ptr(&original.pixels);
    cache.put("a", original);
    let got = cache.get("a").unwrap();
    assert_eq!(std::sync::Arc::as_ptr(&got.pixels), ptr);
    assert_eq!(got.width, 1);
    assert_eq!(got.height, 1);
}

#[test]
fn from_rgba_checks_length() {
    assert!(CachedImage::from_rgba(2, 2, vec![0; 16]).is_some());
    assert!(CachedImage::from_rgba(2, 2, vec![0; 15]).is_none());
    assert!(CachedImage::from_rgba(0, 5, vec![]).is_some());
}
