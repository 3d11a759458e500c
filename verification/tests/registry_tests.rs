use warp_caching::cached_response::{CachedResponse, RenderedReply};
use warp_caching::caches::Caches;
use warp_caching::models::{blank_caches, ListOptions, Todo};
use warp_caching::store;

/// A stand-in for the JSON encoding the handlers perform on a page.
fn encode(todos: &[Todo]) -> Vec<u8> {
    let mut out = Vec::new();
    for t in todos {
        out.extend_from_slice(format!("{}:{}:{};", t.id, t.text, t.completed).as_bytes());
    }
    out
}

fn sample_db() -> Vec<Todo> {
    (1..=30)
        .map(|i| Todo { id: i, text: format!("todo {}", i), completed: false })
        .collect()
}

#[test]
fn registry_starts_blank() {
    let caches = blank_caches();
    assert_eq!(caches.todos.len(), 0);
    assert_eq!(caches.todos.capacity(), 100);
    assert_eq!(caches.todos.name().as_str(), "todos");
    assert_eq!(caches.list_todos.len(), 0);
    assert_eq!(caches.list_todos.capacity(), 100);
    assert_eq!(caches.list_todos.name().as_str(), "list_todos");
}

#[test]
fn end_to_end_list_cache() {
    let mut caches = Caches::initialize();
    let db = sample_db();

    // request A: offset=0, limit=10 computes a page and caches it
    let key_a = ListOptions { offset: Some(0), limit: Some(10) };
    assert!(caches.list_todos.get(&key_a).is_none());
    let page_a = store::list_slice(&db, &key_a);
    assert_eq!(page_a.len(), 10);
    let resp_a = CachedResponse::from(encode(&page_a));
    let etag_a = resp_a.fingerprint().clone();
    caches.list_todos.put(key_a.clone(), resp_a);

    // request B: the same parameters, fields written in the other
    // order, hit the same cache entry
    let key_b = ListOptions { limit: Some(10), offset: Some(0) };
    let hit = caches.list_todos.get(&key_b).expect("identical parameters must hit");
    assert_eq!(hit.body(), &encode(&page_a));

    // ... and a conditional request against the hit is answered with
    // a bare not-modified reply
    match hit.render(Some(&etag_a)) {
        RenderedReply::NotModified { etag } => assert_eq!(etag, etag_a),
        RenderedReply::Full { .. } => panic!("expected a not-modified reply"),
    }

    // request C: a different limit is a distinct key and misses
    let key_c = ListOptions { offset: Some(0), limit: Some(20) };
    assert!(caches.list_todos.get(&key_c).is_none());
    assert_eq!(caches.list_todos.len(), 1);
    let page_c = store::list_slice(&db, &key_c);
    assert_eq!(page_c.len(), 20);
    caches.list_todos.put(key_c, CachedResponse::from(encode(&page_c)));
    assert_eq!(caches.list_todos.len(), 2);
}

#[test]
fn mutation_invalidates_both_caches() {
    let mut caches = Caches::initialize();
    let mut db = sample_db();

    let single = CachedResponse::from(encode(&db[0..1]));
    caches.todos.put(1, single);
    let key = ListOptions { offset: None, limit: None };
    let listing = CachedResponse::from(encode(&db));
    caches.list_todos.put(key.clone(), listing);

    // the backing store is mutated, so the memoized responses go
    assert!(store::remove_todo(&mut db, 1));
    caches.invalidate_todo(1);
    assert!(caches.todos.get(&1).is_none());
    assert_eq!(caches.list_todos.len(), 0);
    assert!(caches.list_todos.get(&key).is_none());
}
