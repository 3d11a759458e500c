use warp_caching::cache::Cache;

#[test]
fn capacity_bound() {
    let mut c: Cache<u64, u64> = Cache::new("bound", 3);
    c.put(1, 10);
    assert!(c.len() <= 3);
    c.put(2, 20);
    assert!(c.len() <= 3);
    c.put(3, 30);
    assert!(c.len() <= 3);
    c.put(4, 40);
    assert_eq!(c.len(), 3);
    c.put(5, 50);
    assert_eq!(c.len(), 3);
    assert_eq!(c.capacity(), 3);
}

#[test]
fn eviction_victim() {
    let mut c: Cache<u64, u64> = Cache::new("evict", 2);
    c.put(1, 1);
    c.put(2, 2);
    c.put(3, 3);
    assert_eq!(c.get(&1), None);
    assert_eq!(c.get(&2), Some(2));
    assert_eq!(c.get(&3), Some(3));
}

#[test]
fn read_promotes_recency() {
    let mut c: Cache<u64, u64> = Cache::new("promote", 2);
    c.put(1, 1);
    c.put(2, 2);
    assert_eq!(c.get(&1), Some(1));
    c.put(3, 3);
    assert_eq!(c.get(&1), Some(1));
    assert_eq!(c.get(&2), None);
    assert_eq!(c.get(&3), Some(3));
}

#[test]
fn overwrite_does_not_grow_size() {
    let mut c: Cache<u64, u64> = Cache::new("overwrite", 4);
    c.put(7, 1);
    assert_eq!(c.len(), 1);
    c.put(7, 2);
    assert_eq!(c.len(), 1);
    assert_eq!(c.get(&7), Some(2));
}

#[test]
fn miss_does_not_mutate() {
    let mut c: Cache<u64, u64> = Cache::new("miss", 2);
    c.put(1, 1);
    assert_eq!(c.get(&9), None);
    assert_eq!(c.len(), 1);
    assert_eq!(c.get(&1), Some(1));
}

#[test]
fn invalidate_removes_entry() {
    let mut c: Cache<u64, u64> = Cache::new("invalidate", 2);
    c.put(1, 1);
    c.put(2, 2);
    c.invalidate(&1);
    assert_eq!(c.len(), 1);
    assert_eq!(c.get(&1), None);
    assert_eq!(c.get(&2), Some(2));
    c.invalidate(&9);
    assert_eq!(c.len(), 1);
}

#[test]
fn clear_empties_cache() {
    let mut c: Cache<u64, u64> = Cache::new("clear", 2);
    c.put(1, 1);
    c.put(2, 2);
    c.clear();
    assert_eq!(c.len(), 0);
    assert_eq!(c.get(&1), None);
    assert_eq!(c.capacity(), 2);
}

#[test]
fn name_is_kept() {
    let c: Cache<u64, u64> = Cache::new("label", 5);
    assert_eq!(c.name().as_str(), "label");
}

#[test]
fn concurrent_access_invariants() {
    let rt = tokio::runtime::Builder::new_multi_thread()
        .worker_threads(4)
        .build()
        .unwrap();
    let cache = std::sync::Arc::new(tokio::sync::Mutex::new(Cache::<u64, u64>::new("shared", 8)));
    rt.block_on(async {
        let mut handles = Vec::new();
        for t in 0..8u64 {
            let shared = std::sync::Arc::clone(&cache);
            handles.push(tokio::spawn(async move {
                let mut seed: u64 = t + 1;
                for n in 0..200u64 {
                    seed = seed
                        .wrapping_mul(6364136223846793005)
                        .wrapping_add(1442695040888963407);
                    let key = seed % 16;
                    let mut guard = shared.lock().await;
                    match seed % 3 {
                        0 => guard.put(key, n),
                        1 => {
                            let _ = guard.get(&key);
                        }
                        _ => guard.invalidate(&key),
                    }
                    // the capacity bound holds after every operation
                    assert!(guard.len() <= guard.capacity());
                }
            }));
        }
        for h in handles {
            h.await.unwrap();
        }
    });
}
