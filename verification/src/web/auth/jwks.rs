//! Caching of JWKS (JSON Web Key Set) keys.
//!
//! Caches keys with a minimum cooldown between fetches to prevent hammering the JWKS endpoint on
//! key rotation. See [`MAX_CACHE_TTL_SECONDS`] and [`MIN_WAIT_BETWEEN_LOADS_SECONDS`] for the
//! actual values. The cache decides; whoever holds it fetches.

use crate::text::{concat_strs, contains, law_part_stands_somewhere};
use crate::text_map::TextMap;
use crate::web::auth::token::Header;
use crate::web::error::{plain, Error, ErrorView};
use jsonwebtoken::DecodingKey;
use vstd::prelude::*;

verus! {

broadcast use vstd::string::group_string_axioms;

/// Maximum time to cache keys before forcing a refresh.
///
/// JWKS signing keys rotate rarely (typically weeks to months at most providers), so a long TTL is
/// safe. Unknown-kid lookups still trigger an immediate refetch (gated only by
/// [`MIN_WAIT_BETWEEN_LOADS_SECONDS`]), so genuine rotations are picked up within seconds
/// regardless of TTL.
pub const MAX_CACHE_TTL_SECONDS: u64 = 1800;

/// Minimum time between fetch attempts to prevent hammering the endpoint.
pub const MIN_WAIT_BETWEEN_LOADS_SECONDS: u64 = 10;

/// The nanoseconds of a second.
pub const NANOS_PER_SECOND: u128 = 1_000_000_000;

/// Maps key IDs (kid) to their corresponding decoding keys.
pub type KeyCache = TextMap<DecodingKey>;

/// What a cache holds: when a load last began, in nanoseconds, and the keys of the last load that
/// succeeded.
pub struct JwksView {
    pub last_load: Option<u128>,
    pub keys: Option<Map<Seq<char>, DecodingKey>>,
}

/// What a cache wants done about a key.
pub enum Plan {
    /// The key is at hand.
    Found(DecodingKey),
    /// The keys have to be fetched; the outcome is to be handed to the cache.
    Fetch,
    /// The key cannot be had now.
    Fail(Error),
}

impl JwksView {
    /// The whole seconds since a load last began, where one did and the clock has not gone back.
    pub open spec fn seconds_since_load(self, now: u128) -> Option<nat> {
        match self.last_load {
            Some(then) if then <= now => Some(((now - then) as nat) / (NANOS_PER_SECOND as nat)),
            _ => None,
        }
    }

    /// Whether the keys at hand are too old.
    pub open spec fn is_expired(self, now: u128) -> bool {
        self.seconds_since_load(now) is Some && self.seconds_since_load(now)->0
            > MAX_CACHE_TTL_SECONDS
    }

    /// Whether a load may begin.
    pub open spec fn may_load(self, now: u128) -> bool {
        self.seconds_since_load(now) is Some ==> self.seconds_since_load(now)->0
            > MIN_WAIT_BETWEEN_LOADS_SECONDS
    }

    /// Whether the key is among the keys at hand and these are not too old.
    pub open spec fn has_fresh(self, key_id: Seq<char>, now: u128) -> bool {
        self.keys is Some && self.keys->0.dom().contains(key_id) && !self.is_expired(now)
    }

    /// Whether asking for the key begins a load.
    pub open spec fn begins_load(self, key_id: Seq<char>, now: u128) -> bool {
        !self.has_fresh(key_id, now) && self.may_load(now)
    }

    /// The cache once the key has been asked for.
    pub open spec fn asked(self, key_id: Seq<char>, now: u128) -> JwksView {
        if self.begins_load(key_id, now) {
            JwksView { last_load: Some(now), keys: self.keys }
        } else {
            self
        }
    }

    /// The cache once a load has come to its end.
    pub open spec fn loaded(self, keys: Option<Map<Seq<char>, DecodingKey>>) -> JwksView {
        JwksView { last_load: self.last_load, keys }
    }
}

/// What is said of a key that a load did not bring.
pub open spec fn unknown_key(key_id: Seq<char>) -> ErrorView {
    plain("Unknown JWKS key: "@ + key_id)
}

/// Caching layer for JWKS keys with automatic refresh.
///
/// Keys are cached for up to [`MAX_CACHE_TTL_SECONDS`]. When a requested key is not found, the
/// cache asks for a refresh (respecting the [`MIN_WAIT_BETWEEN_LOADS_SECONDS`] cooldown) to handle
/// key rotation.
pub struct JwksCache {
    last_load: Option<u128>,
    cached_keys: Option<KeyCache>,
}

impl View for JwksCache {
    type V = JwksView;

    closed spec fn view(&self) -> JwksView {
        JwksView {
            last_load: self.last_load,
            keys: match self.cached_keys {
                Some(keys) => Some(keys@),
                None => None,
            },
        }
    }
}

impl JwksCache {
    /// Creates a new cache, which has never been loaded.
    pub fn new() -> (r: JwksCache)
        ensures
            r@ == (JwksView { last_load: None, keys: None }),
    {
        JwksCache { last_load: None, cached_keys: None }
    }

    fn compute_seconds_since_last_load(&self, now: u128) -> (r: Option<u128>)
        ensures
            match (r, self@.seconds_since_load(now)) {
                (Some(n), Some(exact)) => n == exact,
                (None, None) => true,
                _ => false,
            },
    {
        match self.last_load {
            Some(then) if then <= now => Some((now - then) / NANOS_PER_SECOND),
            _ => None,
        }
    }

    /// Asks for a key at the given time, in nanoseconds since the epoch.
    ///
    /// A cached key is at hand if it is not expired. Otherwise fresh keys have to be fetched from
    /// the source, unless the cooldown forbids it.
    pub fn plan(&mut self, key_id: &str, now: u128) -> (r: Plan)
        ensures
            final(self)@ == old(self)@.asked(key_id@, now),
            match r {
                Plan::Found(key) => old(self)@.has_fresh(key_id@, now) && key
                    == old(self)@.keys->0[key_id@],
                Plan::Fetch => old(self)@.begins_load(key_id@, now),
                Plan::Fail(err) => {
                    &&& !old(self)@.has_fresh(key_id@, now)
                    &&& !old(self)@.may_load(now)
                    &&& err@ == plain("JWKS not loaded or empty"@)
                },
            },
    {
        let seconds: Option<u128> = self.compute_seconds_since_last_load(now);
        let (expired, may_load): (bool, bool) = match seconds {
            Some(n) => (
                n > MAX_CACHE_TTL_SECONDS as u128,
                n > MIN_WAIT_BETWEEN_LOADS_SECONDS as u128,
            ),
            None => (false, true),
        };
        if !expired {
            if let Some(keys) = &self.cached_keys {
                if let Some(key) = keys.get(key_id) {
                    return Plan::Found(key.clone());
                }
            }
        }
        if may_load {
            self.last_load = Some(now);
            Plan::Fetch
        } else {
            Plan::Fail(Error::new("JWKS not loaded or empty"))
        }
    }

    /// Takes the outcome of a load that [`JwksCache::plan`] asked for: fresh keys, or an error
    /// after which no keys are at hand.
    pub fn loaded(&mut self, key_id: &str, result: Result<KeyCache, Error>) -> (r: Result<
        DecodingKey,
        Error,
    >)
        ensures
            match result {
                Ok(keys) => {
                    &&& final(self)@ == old(self)@.loaded(Some(keys@))
                    &&& match r {
                        Ok(key) => keys@.dom().contains(key_id@) && key == keys@[key_id@],
                        Err(err) => !keys@.dom().contains(key_id@) && err@ == unknown_key(key_id@),
                    }
                },
                Err(err) => {
                    &&& final(self)@ == old(self)@.loaded(None)
                    &&& r == Err::<DecodingKey, Error>(err)
                },
            },
    {
        let keys = match result {
            Ok(keys) => keys,
            Err(err) => {
                self.cached_keys = None;
                return Err(err);
            },
        };
        let r = match keys.get(key_id) {
            Some(key) => Ok(key.clone()),
            None => Err(Error::new(concat_strs("Unknown JWKS key: ", key_id).as_str())),
        };
        self.cached_keys = Some(keys);
        r
    }
}

/// Key source for tokens signed with the keys that a JWKS endpoint publishes.
///
/// The keys are asked for by the key identifier in the token's header. They are cached and
/// refreshed automatically.
pub struct JwksFetcher {
    /// The address of the endpoint.
    pub url: String,
    /// The keys fetched from there.
    pub jwks_cache: JwksCache,
}

impl JwksFetcher {
    /// Creates a key source for the given address.
    pub fn new(jwks_url: String) -> (r: JwksFetcher)
        ensures
            r.url@ == jwks_url@,
            r.jwks_cache@ == (JwksView { last_load: None, keys: None }),
    {
        JwksFetcher { url: jwks_url, jwks_cache: JwksCache::new() }
    }

    /// Asks for the key that a token's header names.
    pub fn plan(&mut self, header: &Header, now: u128) -> (r: Plan)
        ensures
            final(self).url == old(self).url,
            match header@.kid {
                Some(kid) => {
                    &&& final(self).jwks_cache@ == old(self).jwks_cache@.asked(kid, now)
                    &&& match r {
                        Plan::Found(key) => old(self).jwks_cache@.has_fresh(kid, now) && key
                            == old(self).jwks_cache@.keys->0[kid],
                        Plan::Fetch => old(self).jwks_cache@.begins_load(kid, now),
                        Plan::Fail(err) => {
                            &&& !old(self).jwks_cache@.has_fresh(kid, now)
                            &&& !old(self).jwks_cache@.may_load(now)
                            &&& err@ == plain("JWKS not loaded or empty"@)
                        },
                    }
                },
                None => {
                    &&& final(self).jwks_cache@ == old(self).jwks_cache@
                    &&& r is Fail
                    &&& r->Fail_0@ == plain("No kid present in JWT header"@)
                },
            },
    {
        match &header.kid {
            Some(kid) => self.jwks_cache.plan(kid.as_str(), now),
            None => Plan::Fail(Error::new("No kid present in JWT header")),
        }
    }
}

/// The cooldown: once a load has begun, none begins before more than ten seconds have passed, no
/// matter which key is asked for and how the load ended.
pub proof fn law_loads_are_apart(
    cache: JwksView,
    first: Seq<char>,
    then: u128,
    keys: Option<Map<Seq<char>, DecodingKey>>,
    second: Seq<char>,
    now: u128,
)
    requires
        cache.begins_load(first, then),
        then <= now < then + (MIN_WAIT_BETWEEN_LOADS_SECONDS + 1) * NANOS_PER_SECOND,
    ensures
        !cache.asked(first, then).begins_load(second, now),
        !cache.asked(first, then).loaded(keys).begins_load(second, now),
{
}

/// A key that a load brought is at hand without another load until the keys are more than half an
/// hour old.
pub proof fn law_loaded_keys_stay_at_hand(
    cache: JwksView,
    first: Seq<char>,
    then: u128,
    keys: Map<Seq<char>, DecodingKey>,
    second: Seq<char>,
    now: u128,
)
    requires
        cache.begins_load(first, then),
        keys.dom().contains(second),
        then <= now < then + (MAX_CACHE_TTL_SECONDS + 1) * NANOS_PER_SECOND,
    ensures
        cache.asked(first, then).loaded(Some(keys)).has_fresh(second, now),
        !cache.asked(first, then).loaded(Some(keys)).begins_load(second, now),
{
}

/// Expired keys are not handed out: once they are more than half an hour old, asking for any key
/// begins a load.
pub proof fn law_expired_keys_are_reloaded(cache: JwksView, key_id: Seq<char>, now: u128)
    requires
        cache.last_load is Some,
        now >= cache.last_load->0 + (MAX_CACHE_TTL_SECONDS + 1) * NANOS_PER_SECOND,
    ensures
        cache.begins_load(key_id, now),
{
}

/// A key that is not among the keys at hand is looked up as soon as the cooldown is over, so that
/// a rotation of keys is noticed within seconds.
pub proof fn law_unknown_keys_are_looked_up(cache: JwksView, key_id: Seq<char>, now: u128)
    requires
        cache.keys is Some ==> !cache.keys->0.dom().contains(key_id),
        cache.last_load is Some ==> now >= cache.last_load->0 + (MIN_WAIT_BETWEEN_LOADS_SECONDS
            + 1) * NANOS_PER_SECOND,
    ensures
        cache.begins_load(key_id, now),
{
}

/// A key is handed out exactly if it is among the keys at hand and these are no more than half an hour
/// old; else the keys are fetched, unless the last load began less than eleven seconds ago. A load is
/// noted with its time.
pub proof fn law_keys_are_planned(cache: &mut JwksCache, key_id: &str, now: u128, r: Plan)
    requires
        call_ensures(JwksCache::plan, (cache, key_id, now), r),
    ensures
        ({
            let then = old(cache)@.last_load;
            let age = if then is Some && then->0 <= now {
                now - then->0
            } else {
                0
            };
            let known = old(cache)@.keys is Some && old(cache)@.keys->0.dom().contains(key_id@);
            let fresh = known && age < 1801 * 1_000_000_000;
            let quiet = then is Some && then->0 <= now && age < 11 * 1_000_000_000;
            &&& r is Found <==> fresh
            &&& r is Found ==> r->Found_0 == old(cache)@.keys->0[key_id@]
            &&& r is Fetch <==> !fresh && !quiet
            &&& r is Fail <==> !fresh && quiet
            &&& r is Fetch ==> final(cache)@.last_load == Some(now)
            &&& !(r is Fetch) ==> final(cache)@.last_load == then
            &&& final(cache)@.keys == old(cache)@.keys
        }),
{
}

/// What a load brought takes the place of what was at hand, and the key that was asked for is handed
/// out from it; a failed load is reported as it is and leaves no keys.
pub proof fn law_loads_replace_the_keys(
    cache: &mut JwksCache,
    key_id: &str,
    result: Result<KeyCache, Error>,
    r: Result<DecodingKey, Error>,
)
    requires
        call_ensures(JwksCache::loaded, (cache, key_id, result), r),
    ensures
        final(cache)@.last_load == old(cache)@.last_load,
        result is Ok ==> {
            &&& final(cache)@.keys == Some(result->Ok_0@)
            &&& r is Ok <==> result->Ok_0@.dom().contains(key_id@)
            &&& r is Ok ==> r->Ok_0 == result->Ok_0@[key_id@]
            &&& r is Err ==> contains(r->Err_0@.messages[0], key_id@)
        },
        result is Err ==> {
            &&& final(cache)@.keys is None
            &&& r is Err && r->Err_0 == result->Err_0
        },
{
    let start = "Unknown JWKS key: "@;
    let none = Seq::<char>::empty();
    law_part_stands_somewhere(key_id@, start, key_id@, none);
    assert(start + key_id@ + none =~= start + key_id@);
}

/// The key that the header of a token names is the one that is asked for; without one there is none.
pub proof fn law_headers_name_the_key(
    fetcher: &mut JwksFetcher,
    header: &Header,
    now: u128,
    r: Plan,
)
    requires
        call_ensures(JwksFetcher::plan, (fetcher, header, now), r),
    ensures
        final(fetcher).url == old(fetcher).url,
        header@.kid is None ==> r is Fail && final(fetcher).jwks_cache@ == old(
            fetcher,
        ).jwks_cache@,
        header@.kid is Some && r is Found ==> r->Found_0 == old(
            fetcher,
        ).jwks_cache@.keys->0[header@.kid->0],
        header@.kid is Some ==> (r is Fetch <==> old(fetcher).jwks_cache@.begins_load(
            header@.kid->0,
            now,
        )),
        header@.kid is Some ==> (r is Found <==> old(fetcher).jwks_cache@.has_fresh(
            header@.kid->0,
            now,
        )),
{
}

/// A new cache has never been loaded, so that the first key asked for is fetched.
pub proof fn law_new_caches_are_empty(
    cache: JwksCache,
    url: String,
    fetcher: JwksFetcher,
    key_id: Seq<char>,
    now: u128,
)
    requires
        call_ensures(JwksCache::new, (), cache),
        call_ensures(JwksFetcher::new, (url,), fetcher),
    ensures
        cache@.begins_load(key_id, now),
        fetcher.jwks_cache@.begins_load(key_id, now),
        fetcher.url@ == url@,
{
}

} // verus!
