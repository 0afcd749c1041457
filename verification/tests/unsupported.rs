use cc_switch::unsupported::{
    is_count_tokens_unsupported, mark_count_tokens_unsupported, UnsupportedCache,
    UNSUPPORTED_CACHE_TTL,
};

#[test]
fn marked_provider_counts_as_unsupported() {
    let mut cache = UnsupportedCache::new();
    assert!(!is_count_tokens_unsupported(&cache, "p"));
    mark_count_tokens_unsupported(&mut cache, "p");
    assert!(is_count_tokens_unsupported(&cache, "p"));
    assert!(!is_count_tokens_unsupported(&cache, "q"));
}

#[test]
fn mark_counts_for_five_minutes() {
    let mut cache = UnsupportedCache::new();
    assert_eq!(UNSUPPORTED_CACHE_TTL, 300 * 1_000_000_000);
    cache.mark_at("p", 1_000);
    assert!(cache.is_unsupported_at("p", 1_000));
    assert!(cache.is_unsupported_at("p", 999));
    assert!(cache.is_unsupported_at("p", 1_000 + UNSUPPORTED_CACHE_TTL - 1));
    assert!(!cache.is_unsupported_at("p", 1_000 + UNSUPPORTED_CACHE_TTL));
    assert!(!cache.is_unsupported_at("p", u128::MAX));
}

#[test]
fn marking_again_restarts_the_time() {
    let mut cache = UnsupportedCache::new();
    cache.mark_at("p", 0);
    cache.mark_at("q", 5);
    cache.mark_at("p", UNSUPPORTED_CACHE_TTL);
    assert!(cache.is_unsupported_at("p", 2 * UNSUPPORTED_CACHE_TTL - 1));
    assert!(!cache.is_unsupported_at("p", 2 * UNSUPPORTED_CACHE_TTL));
    assert!(cache.is_unsupported_at("q", UNSUPPORTED_CACHE_TTL + 4));
    assert!(!cache.is_unsupported_at("q", UNSUPPORTED_CACHE_TTL + 5));
}

#[test]
fn clock_of_the_cache_runs_on() {
    let mut cache = UnsupportedCache::new();
    cache.mark_at("ahead", 0);
    let start = std::time::Instant::now();
    while start.elapsed().as_nanos() < 1_000 {}
    mark_count_tokens_unsupported(&mut cache, "p");
    // the mark was set at a time after the cache was made
    assert!(!cache.is_unsupported_at("ahead", UNSUPPORTED_CACHE_TTL));
    assert!(cache.is_unsupported_at("p", UNSUPPORTED_CACHE_TTL));
}
