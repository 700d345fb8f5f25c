use solverlog::cache::Cache;

#[test]
fn test_cache_new() {
    let cache = Cache::new();
    assert_eq!(cache.len(), 0);
    assert_eq!(cache.len(), 0);
    assert_eq!(cache.capacity(), 8);
}

#[test]
fn test_cache_set_and_get() {
    let mut cache = Cache::new();
    let key = 1i64;
    let value = b"test data";

    assert!(cache.set(key, value).is_ok());

    assert!(cache.has(key));

    let retrieved = cache.get(key);
    assert!(retrieved.is_some());
    assert_eq!(retrieved.unwrap(), value);
}

#[test]
fn test_cache_has_not_exists() {
    let cache = Cache::new();
    assert!(!cache.has(1));
}

#[test]
fn test_cache_get_not_exists() {
    let cache = Cache::new();
    assert!(cache.get(1).is_none());
}

#[test]
fn test_cache_set_duplicate() {
    let mut cache = Cache::new();
    let key = 1i64;
    let value1 = b"first data";
    let value2 = b"second data";

    assert!(cache.set(key, value1).is_ok());

    assert!(cache.set(key, value2).is_ok());

    let retrieved = cache.get(key);
    assert_eq!(retrieved.unwrap(), value1);
}

#[test]
fn test_cache_lru_eviction() {
    let mut cache = Cache::new();

    for i in 0..8 {
        let value = format!("data{}", i).into_bytes();
        assert!(cache.set(i, &value).is_ok());
    }

    for i in 0..8 {
        assert!(cache.has(i));
    }

    let value = b"data8";
    assert!(cache.set(8, value).is_ok());

    assert!(!cache.has(0));
    for i in 1..=8 {
        assert!(cache.has(i));
    }
}

#[test]
fn test_cache_remove() {
    let mut cache = Cache::new();
    let key = 1i64;
    let value = b"test data";

    assert!(cache.set(key, value).is_ok());
    assert!(cache.has(key));

    cache.remove(key);

    assert!(!cache.has(key));
    assert!(cache.get(key).is_none());
}

#[test]
fn test_cache_clear() {
    let mut cache = Cache::new();

    for i in 0..3 {
        let value = format!("data{}", i).into_bytes();
        assert!(cache.set(i, &value).is_ok());
    }

    assert_eq!(cache.len(), 3);
    assert_eq!(cache.len(), 3);

    cache.clear();

    assert_eq!(cache.len(), 0);
    assert_eq!(cache.len(), 0);
}

#[test]
fn test_cache_compression() {
    let mut cache = Cache::new();
    let key = 1i64;

    let large_data: Vec<u8> = (0..1000).map(|i| (i % 256) as u8).collect();

    assert!(cache.set(key, &large_data).is_ok());

    let retrieved = cache.get(key);
    assert!(retrieved.is_some());
    assert_eq!(retrieved.unwrap(), large_data);
}

#[test]
fn test_cache_empty_payload_round_trip() {
    let mut cache = Cache::new();
    assert!(cache.set(5, b"").is_ok());
    assert!(cache.has(5));
    assert_eq!(cache.get(5).unwrap(), b"");
}

#[test]
fn test_cache_multi_kilobyte_round_trip() {
    let mut cache = Cache::new();
    let data: Vec<u8> = (0..16_384u32).map(|i| (i.wrapping_mul(2654435761) % 251) as u8).collect();
    assert!(cache.set(9, &data).is_ok());
    assert_eq!(cache.get(9).unwrap(), data);
}

#[test]
fn test_cache_fifo_despite_reads() {
    let mut cache = Cache::new();
    for i in 0..8 {
        let value = format!("payload{}", i).into_bytes();
        assert!(cache.set(i, &value).is_ok());
    }
    // reading the oldest key does not protect it: eviction is FIFO,
    // not access-ordered
    assert!(cache.get(0).is_some());
    assert!(cache.set(100, b"fresh").is_ok());
    assert!(!cache.has(0));
    for i in 1..8 {
        assert!(cache.has(i));
    }
    assert!(cache.has(100));

    // the next eviction takes the next-oldest key
    assert!(cache.set(101, b"fresher").is_ok());
    assert!(!cache.has(1));
    assert!(cache.has(2));
}

#[test]
fn test_cache_remove_then_reinsert() {
    let mut cache = Cache::new();
    assert!(cache.set(1, b"one").is_ok());
    assert!(cache.set(2, b"two").is_ok());
    cache.remove(1);
    assert_eq!(cache.len(), 1);
    assert!(cache.set(1, b"uno").is_ok());
    assert_eq!(cache.get(1).unwrap(), b"uno");
    assert_eq!(cache.get(2).unwrap(), b"two");
}
