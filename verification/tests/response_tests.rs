use warp_caching::cached_response::{CachedResponse, RenderedReply};

#[test]
fn fingerprint_determinism() {
    let a = CachedResponse::from(b"hello world".to_vec());
    let b = CachedResponse::from(b"hello world".to_vec());
    assert_eq!(a.fingerprint(), b.fingerprint());
}

#[test]
fn fingerprint_differs_for_different_bodies() {
    let corpus: Vec<Vec<u8>> = vec![
        Vec::new(),
        b"a".to_vec(),
        b"b".to_vec(),
        b"ab".to_vec(),
        b"ba".to_vec(),
        b"hello world".to_vec(),
        b"hello worle".to_vec(),
        vec![0u8; 64],
        vec![1u8; 64],
    ];
    for (i, x) in corpus.iter().enumerate() {
        for (j, y) in corpus.iter().enumerate() {
            let fx = CachedResponse::from(x.clone());
            let fy = CachedResponse::from(y.clone());
            assert_eq!(i == j, fx.fingerprint() == fy.fingerprint());
        }
    }
}

#[test]
fn fingerprint_known_values() {
    let empty = CachedResponse::from(Vec::new());
    assert_eq!(empty.fingerprint().as_str(), "cbf29ce484222325");
    let a = CachedResponse::from(vec![b'a']);
    assert_eq!(a.fingerprint().as_str(), "af63dc4c8601ec8c");
}

#[test]
fn body_is_kept() {
    let r = CachedResponse::from(b"payload".to_vec());
    assert_eq!(r.body().as_slice(), b"payload");
}

#[test]
fn matches_only_own_fingerprint() {
    let r = CachedResponse::from(b"payload".to_vec());
    let own = r.fingerprint().clone();
    let stale = String::from("stale-token");
    assert!(r.matches(Some(&own)));
    assert!(!r.matches(Some(&stale)));
    assert!(!r.matches(None));
}

#[test]
fn conditional_get_roundtrip() {
    let body = b"payload".to_vec();
    let r = CachedResponse::from(body.clone());
    let own = r.fingerprint().clone();

    match r.render(Some(&own)) {
        RenderedReply::NotModified { etag } => assert_eq!(etag, own),
        RenderedReply::Full { .. } => panic!("expected a not-modified reply"),
    }

    match r.render(None) {
        RenderedReply::Full { body: b, etag } => {
            assert_eq!(b, body);
            assert_eq!(etag, own);
        }
        RenderedReply::NotModified { .. } => panic!("expected a full reply"),
    }

    let stale = String::from("stale-token");
    match r.render(Some(&stale)) {
        RenderedReply::Full { body: b, etag } => {
            assert_eq!(b, body);
            assert_eq!(etag, own);
        }
        RenderedReply::NotModified { .. } => panic!("expected a full reply"),
    }
}
