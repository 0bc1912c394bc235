use jsonwebtoken::DecodingKey;
use wasabi::web::auth::jwks::{
    JwksCache, JwksFetcher, KeyCache, Plan, MAX_CACHE_TTL_SECONDS, MIN_WAIT_BETWEEN_LOADS_SECONDS,
};
use wasabi::web::auth::token::{Algorithm, Header};
use wasabi::web::error::Error;

const SECOND: u128 = 1_000_000_000;
const START: u128 = 1_700_000_000 * SECOND;

fn keys(names: &[&str]) -> KeyCache {
    let mut keys = KeyCache::new();
    for name in names {
        keys.insert(name.to_string(), DecodingKey::from_secret(b"test-secret"));
    }
    keys
}

/// Asks a cache for a key, answering each load with the given keys. Says whether there was one.
fn fetch_key(cache: &mut JwksCache, key_id: &str, names: &[&str], now: u128) -> (bool, Result<(), Error>) {
    match cache.plan(key_id, now) {
        Plan::Found(_) => (false, Ok(())),
        Plan::Fetch => (true, cache.loaded(key_id, Ok(keys(names))).map(|_| ())),
        Plan::Fail(err) => (false, Err(err)),
    }
}

#[test]
fn fetch_key_loads_from_fetcher_on_first_call() {
    let mut cache = JwksCache::new();

    let (loaded, result) = fetch_key(&mut cache, "key-1", &["key-1"], START);

    assert!(loaded);
    assert!(result.is_ok());
}

#[test]
fn fetch_key_returns_error_for_unknown_key() {
    let mut cache = JwksCache::new();

    let (_, result) = fetch_key(&mut cache, "unknown-key", &["key-1"], START);

    assert!(result.is_err());
    assert!(result.err().unwrap().message().contains("Unknown JWKS key"));
}

#[test]
fn fetch_key_caches_keys_between_calls() {
    let mut cache = JwksCache::new();

    // First call
    let (loaded, result) = fetch_key(&mut cache, "key-1", &["key-1"], START);
    assert!(loaded && result.is_ok());
    // Second call - should use cache
    let (loaded, result) = fetch_key(&mut cache, "key-1", &["key-1"], START);
    assert!(!loaded && result.is_ok());
}

#[test]
fn fetch_key_refetches_for_unknown_key_after_cooldown() {
    let mut cache = JwksCache::new();

    // First fetch
    let (_, result) = fetch_key(&mut cache, "key-1", &["key-1"], START);
    assert!(result.is_ok());

    // Try unknown key - should fail but not refetch (within cooldown)
    let (loaded, result) = fetch_key(&mut cache, "key-2", &["key-1"], START);
    assert!(!loaded);
    assert!(result.is_err());

    // Now it should try to refetch (will still fail since there is no key-2)
    let (loaded, result) = fetch_key(&mut cache, "key-2", &["key-1"], START + 15 * SECOND);
    assert!(loaded);
    assert!(result.is_err());
}

#[test]
fn fetch_key_refetches_after_cache_ttl_expires() {
    let mut cache = JwksCache::new();

    // First fetch
    let (_, result) = fetch_key(&mut cache, "key-1", &["key-1"], START);
    assert!(result.is_ok());

    // Six minutes later
    let (_, result) = fetch_key(&mut cache, "key-1", &["key-1"], START + 6 * 60 * SECOND);
    assert!(result.is_ok());
}

#[test]
fn keys_are_loaded_anew_once_their_time_is_over() {
    let mut cache = JwksCache::new();
    let (_, result) = fetch_key(&mut cache, "key-1", &["key-1"], START);
    assert!(result.is_ok());

    let ttl = MAX_CACHE_TTL_SECONDS as u128;
    let (loaded, result) = fetch_key(&mut cache, "key-1", &["key-1"], START + (ttl + 1) * SECOND - 1);
    assert!(!loaded && result.is_ok());

    let (loaded, result) = fetch_key(&mut cache, "key-1", &["key-1"], START + (ttl + 1) * SECOND);
    assert!(loaded && result.is_ok());
}

#[test]
fn the_cooldown_ends_after_more_than_ten_seconds() {
    let cooldown = MIN_WAIT_BETWEEN_LOADS_SECONDS as u128;
    let mut cache = JwksCache::new();
    let _ = fetch_key(&mut cache, "a", &["a"], START);
    let almost = START + (cooldown + 1) * SECOND - 1;
    let (loaded, result) = fetch_key(&mut cache, "b", &["b"], almost);
    assert!(!loaded);
    assert_eq!(result.unwrap_err().message(), "JWKS not loaded or empty");
    let (loaded, result) = fetch_key(&mut cache, "b", &["b"], almost + 1);
    assert!(loaded && result.is_ok());
}

#[test]
fn a_failed_load_leaves_no_keys() {
    let mut cache = JwksCache::new();
    let _ = fetch_key(&mut cache, "a", &["a"], START);
    let later = START + 20 * SECOND;
    assert!(matches!(cache.plan("b", later), Plan::Fetch));
    let err = match cache.loaded("b", Err(Error::new("unreachable"))) {
        Ok(_) => panic!("a key came from nowhere"),
        Err(err) => err,
    };
    assert_eq!(err.message(), "unreachable");
    let (loaded, result) = fetch_key(&mut cache, "a", &["a"], later);
    assert!(!loaded && result.is_err());
}

#[test]
fn a_clock_that_goes_back_allows_a_load() {
    let mut cache = JwksCache::new();
    let _ = fetch_key(&mut cache, "a", &["a"], START);
    let (loaded, result) = fetch_key(&mut cache, "a", &[], START - 1);
    assert!(!loaded && result.is_ok());
    let (loaded, _) = fetch_key(&mut cache, "b", &["b"], START - 1);
    assert!(loaded);
}

#[test]
fn a_key_source_goes_by_the_header() {
    let mut fetcher = JwksFetcher::new("https://example.com/jwks".to_string());
    assert_eq!(fetcher.url, "https://example.com/jwks");
    let mut header = Header { alg: Algorithm::RS256, kid: None };
    match fetcher.plan(&header, START) {
        Plan::Fail(err) => assert_eq!(err.message(), "No kid present in JWT header"),
        _ => panic!("a token without a key identifier found a key"),
    }
    header.kid = Some("a".to_string());
    assert!(matches!(fetcher.plan(&header, START), Plan::Fetch));
    assert!(fetcher.jwks_cache.loaded("a", Ok(keys(&["a"]))).is_ok());
    assert!(matches!(fetcher.plan(&header, START), Plan::Found(_)));
}

#[test]
fn a_rotation_is_noticed_after_the_cooldown() {
    let mut cache = JwksCache::new();
    let _ = fetch_key(&mut cache, "old", &["old"], START);
    let (loaded, result) = fetch_key(&mut cache, "new", &["new"], START + 11 * SECOND);
    assert!(loaded && result.is_ok());
}
