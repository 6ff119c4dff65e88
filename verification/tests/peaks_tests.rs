use bellanote::peaks::{bucket_bounds, cache_key_for, PeaksCache, PEAK_BUCKETS, WINDOW_SAMPLES};

#[derive(Clone, Debug, PartialEq)]
struct AudioPeaksResult {
    peaks: Vec<f32>,
    duration_secs: f64,
}

#[test]
fn cache_round_trip_and_invalidate() {
    let mut cache: PeaksCache<AudioPeaksResult> = PeaksCache::new();
    cache.invalidate_artifact("art-1");
    let value = AudioPeaksResult {
        peaks: vec![0.2, 1.0],
        duration_secs: 1.5,
    };
    cache.put("art-1:10:20".into(), value.clone());
    cache.put("art-2:10:20".into(), value.clone());
    assert_eq!(cache.get("art-1:10:20").unwrap().duration_secs, 1.5);
    cache.invalidate_artifact("art-1");
    assert!(cache.get("art-1:10:20").is_none());
    assert!(cache.get("art-2:10:20").is_some());
    cache.invalidate_artifact("art-2");
}

#[test]
fn invalidating_an_artifact_spares_longer_ids() {
    let mut cache: PeaksCache<u32> = PeaksCache::new();
    cache.put("art-1:1:2".into(), 1);
    cache.put("art-10:1:2".into(), 2);
    cache.invalidate_artifact("art-1");
    assert!(cache.get("art-1:1:2").is_none());
    assert_eq!(cache.get("art-10:1:2"), Some(&2));
}

#[test]
fn put_replaces_the_value_of_a_key() {
    let mut cache: PeaksCache<u32> = PeaksCache::new();
    cache.put("a:1:1".into(), 1);
    cache.put("a:1:1".into(), 7);
    assert_eq!(cache.get("a:1:1"), Some(&7));
    assert!(cache.get("b:1:1").is_none());
}

#[test]
fn cache_key_joins_id_size_and_time() {
    assert_eq!(cache_key_for("art-1", 10, 20), "art-1:10:20");
    assert_eq!(cache_key_for("x", 0, 1_700_000_000_123_456_789), "x:0:1700000000123456789");
}

#[test]
fn buckets_split_windows_evenly() {
    assert_eq!(bucket_bounds(0, 4, 2), (0, 2));
    assert_eq!(bucket_bounds(1, 4, 2), (2, 4));
    assert_eq!(bucket_bounds(0, 10, 3), (0, 3));
    assert_eq!(bucket_bounds(2, 10, 3), (6, 10));
}

#[test]
fn buckets_beyond_the_windows_repeat_one() {
    assert_eq!(bucket_bounds(0, 2, 4), (0, 1));
    assert_eq!(bucket_bounds(1, 2, 4), (0, 1));
    assert_eq!(bucket_bounds(2, 2, 4), (1, 2));
    assert_eq!(bucket_bounds(3, 2, 4), (1, 2));
}

#[test]
fn peak_sizes() {
    assert_eq!(PEAK_BUCKETS, 180);
    assert_eq!(WINDOW_SAMPLES, 4096);
}
