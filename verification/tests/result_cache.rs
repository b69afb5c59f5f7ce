use en_croissant::cache::{has_prefix, CacheKey, Fetched, Lookup, ResultCache};

fn key(query: &str, path: &str) -> CacheKey {
    CacheKey { query: query.to_string(), path: path.to_string() }
}

#[test]
fn keys_are_compared_part_by_part() {
    assert!(key("q", "/db/a").same(&key("q", "/db/a")));
    assert!(!key("q", "/db/a").same(&key("q", "/db/b")));
    assert!(!key("q", "/db/a").same(&key("r", "/db/a")));
}

#[test]
fn a_miss_computes_once_and_a_hit_does_not_compute() {
    let mut cache: ResultCache<Vec<u32>> = ResultCache::new();
    let mut calls = 0;
    match cache.get_or_compute(key("q", "/db/a"), |_k| -> Result<Vec<u32>, String> {
        calls += 1;
        Ok(vec![1, 2, 3])
    }) {
        Fetched::Ready(v) => assert_eq!(v, &vec![1, 2, 3]),
        _ => panic!("expected an entry"),
    }
    match cache.get_or_compute(key("q", "/db/a"), |_k| -> Result<Vec<u32>, String> {
        calls += 1;
        Ok(vec![9])
    }) {
        Fetched::Ready(v) => assert_eq!(v, &vec![1, 2, 3]),
        _ => panic!("expected an entry"),
    }
    assert_eq!(calls, 1);
    assert_eq!(cache.get(&key("q", "/db/a")), Some(&vec![1, 2, 3]));
    assert_eq!(cache.get(&key("q", "/db/b")), None);
}

#[test]
fn a_failed_computation_caches_nothing_and_is_retried() {
    let mut cache: ResultCache<u32> = ResultCache::new();
    match cache.get_or_compute(key("q", "p"), |_k| -> Result<u32, String> { Err("disk".to_string()) }) {
        Fetched::Failed(e) => assert_eq!(e, "disk"),
        _ => panic!("expected a failure"),
    }
    assert_eq!(cache.get(&key("q", "p")), None);
    match cache.get_or_compute(key("q", "p"), |_k| -> Result<u32, String> { Ok(5) }) {
        Fetched::Ready(v) => assert_eq!(*v, 5),
        _ => panic!("expected an entry"),
    }
}

#[test]
fn the_key_is_handed_to_the_computation() {
    let mut cache: ResultCache<String> = ResultCache::new();
    match cache.get_or_compute(key("moves", "/db/x"), |k| -> Result<String, String> {
        Ok(format!("{}@{}", k.query, k.path))
    }) {
        Fetched::Ready(v) => assert_eq!(v, "moves@/db/x"),
        _ => panic!("expected an entry"),
    }
}

#[test]
fn only_the_first_caller_computes() {
    let mut cache: ResultCache<u32> = ResultCache::new();
    let k = key("q", "p");
    assert_eq!(cache.begin(&k), Lookup::Compute);
    assert!(cache.is_in_flight(&k));
    assert_eq!(cache.begin(&k), Lookup::Wait);
    assert_eq!(cache.begin(&key("other", "p")), Lookup::Compute);
    match cache.get_or_compute(key("q", "p"), |_k| -> Result<u32, String> { panic!("computed twice") }) {
        Fetched::Pending => {}
        _ => panic!("expected to be told to wait"),
    }
    assert_eq!(cache.complete::<String>(key("q", "p"), Ok(11)), None);
    assert!(!cache.is_in_flight(&k));
    assert_eq!(cache.begin(&k), Lookup::Hit);
    assert_eq!(cache.get(&k), Some(&11));
    assert!(cache.is_in_flight(&key("other", "p")));
}

#[test]
fn a_reported_failure_reaches_the_waiters_and_frees_the_key() {
    let mut cache: ResultCache<u32> = ResultCache::new();
    let k = key("q", "p");
    assert_eq!(cache.begin(&k), Lookup::Compute);
    assert_eq!(cache.complete(key("q", "p"), Err("boom".to_string())), Some("boom".to_string()));
    assert_eq!(cache.get(&k), None);
    assert_eq!(cache.begin(&k), Lookup::Compute);
}

#[test]
fn completion_replaces_the_whole_entry() {
    let mut cache: ResultCache<Vec<u8>> = ResultCache::new();
    cache.complete::<String>(key("q", "p"), Ok(vec![1]));
    cache.complete::<String>(key("q", "p"), Ok(vec![2, 3]));
    assert_eq!(cache.get(&key("q", "p")), Some(&vec![2, 3]));
}

#[test]
fn invalidation_makes_the_next_read_miss() {
    let mut cache: ResultCache<u32> = ResultCache::new();
    cache.complete::<String>(key("q", "p"), Ok(1));
    cache.complete::<String>(key("r", "p"), Ok(2));
    assert!(cache.invalidate(&key("q", "p")));
    assert!(!cache.invalidate(&key("q", "p")));
    assert_eq!(cache.get(&key("q", "p")), None);
    assert_eq!(cache.get(&key("r", "p")), Some(&2));
    assert_eq!(cache.begin(&key("q", "p")), Lookup::Compute);
}

#[test]
fn invalidation_by_prefix_removes_every_entry_under_it() {
    let mut cache: ResultCache<u32> = ResultCache::new();
    cache.complete::<String>(key("a", "/db/one.db3"), Ok(1));
    cache.complete::<String>(key("b", "/db/one.db3"), Ok(2));
    cache.complete::<String>(key("a", "/db/two.db3"), Ok(3));
    cache.complete::<String>(key("a", "/other/one.db3"), Ok(4));
    assert_eq!(cache.invalidate_prefix("/db/one"), 2);
    assert_eq!(cache.get(&key("a", "/db/one.db3")), None);
    assert_eq!(cache.get(&key("b", "/db/one.db3")), None);
    assert_eq!(cache.get(&key("a", "/db/two.db3")), Some(&3));
    assert_eq!(cache.invalidate_prefix("/nowhere"), 0);
    assert_eq!(cache.invalidate_prefix(""), 2);
    assert_eq!(cache.get(&key("a", "/other/one.db3")), None);
}

#[test]
fn prefixes() {
    assert!(has_prefix("/db/one", "/db"));
    assert!(has_prefix("/db", "/db"));
    assert!(has_prefix("/db", ""));
    assert!(!has_prefix("/d", "/db"));
    assert!(!has_prefix("/da/one", "/db"));
}
