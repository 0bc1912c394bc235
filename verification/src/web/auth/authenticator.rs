//! Token validation with support for multiple issuers and key strategies.
//!
//! The [`Authenticator`] validates tokens using either a shared secret (HMAC) or JWKS endpoints,
//! with per-issuer configuration. Custom claim prefixes can be stripped to normalize claims from
//! different identity providers.
//!
//! Keys may have to be fetched from elsewhere, so a check has two halves: one that reads the token
//! and says where its key is to be had ([`AuthenticatorConfig::check_header`]) and one that takes
//! the key and verifies the token ([`AuthenticatorConfig::check_signature`]).

use crate::json::{ascending, ClaimsSet, Json, JsonView};
use crate::text::{
    before, concat_strs, contains, find_char, is_blank, is_white_space,
    law_character_is_trimmed_at_both_ends, law_part_stands_somewhere, law_prefix_comes_first,
    law_prefix_is_stripped_repeatedly, law_split_once_cuts_at_the_first_separator,
    law_trim_takes_the_white_space_around, lemma_before_irreflexive, lemma_before_transitive,
    lemma_index_of, lemma_split_concat, lemma_split_glue, lemma_split_piece, lemma_split_prefix,
    lemma_split_whole, lemma_trim_nothing, repeated, same, split, split_once, split_once_str,
    split_str, starts_with, starts_with_str, string_views, strip_all, strip_all_str,
    strip_prefix_str, trim, trim_char, trim_end_char, trim_start_char, trim_str, views,
};
use crate::text_map::{unique_names, TextMap, TextSet};
use crate::web::auth::token::{
    algorithm_name, decode_header, decode_payload, decoded_token, header_of, is_acceptable,
    is_admitted, is_among, is_signed_token, is_unusable, is_verified_at, law_algorithm_names_differ,
    payload_claims, secret_key, token_header, unauthorized, unauthorized_error, verify_token,
    Algorithm, Header, HeaderView, Validation, ValidationView,
};
use crate::web::auth::user::claim_text;
use crate::web::auth::{CLAIM_ISS, CLAIM_LOCALE, DEFAULT_LOCALE};
use crate::web::error::{plain, status_error, Error, ErrorView, UNAUTHORIZED};
use crate::web::locale::{law_answer_is_offered, negotiate_language, negotiated};
use jsonwebtoken::DecodingKey;
use vstd::prelude::*;
use vstd::string::StringSliceAdditionalSpecFns;
use vstd::utf8::encode_utf8;

verus! {

broadcast use vstd::string::group_string_axioms;

/// Key source for validation with a shared secret.
///
/// Use this when validating tokens signed with a symmetric secret key (HS256, HS384, HS512).
pub struct HmacKeyFetcher {
    pub hmac_key: DecodingKey,
}

impl HmacKeyFetcher {
    /// Creates a key source with the given decoding key.
    pub fn new(hmac_key: DecodingKey) -> (r: HmacKeyFetcher)
        ensures
            r.hmac_key == hmac_key,
    {
        HmacKeyFetcher { hmac_key }
    }

    /// The key, whatever the token.
    pub fn fetch(&self) -> (r: DecodingKey)
        ensures
            r == self.hmac_key,
    {
        self.hmac_key.clone()
    }
}

/// Where decoding keys are to be had.
pub enum KeySource {
    /// A shared secret.
    Hmac(HmacKeyFetcher),
    /// The JWKS endpoint at an address.
    Jwks(String),
    /// A source of the application's own, by its number.
    Custom(usize),
}

/// Where decoding keys are to be had.
pub enum KeySourceView {
    Hmac(DecodingKey),
    Jwks(Seq<char>),
    Custom(usize),
}

impl View for KeySource {
    type V = KeySourceView;

    open spec fn view(&self) -> KeySourceView {
        match self {
            KeySource::Hmac(fetcher) => KeySourceView::Hmac(fetcher.hmac_key),
            KeySource::Jwks(url) => KeySourceView::Jwks(url@),
            KeySource::Custom(n) => KeySourceView::Custom(*n),
        }
    }
}

/// Strategy for fetching decoding keys: either a single key source for all issuers or a different
/// one per issuer.
pub enum KeyFetchStrategy {
    Static(KeySource),
    PerIssuer(TextMap<KeySource>),
}

/// Whether `item` is one of the comma- or semicolon-separated values of a text.
pub open spec fn is_listed(values: Seq<char>, item: Seq<char>) -> bool {
    item.len() > 0 && exists|i: int, j: int| #[trigger] listed_at(values, i, j) == Some(item)
}

/// The value at the given position: the number of commas before it, and of semicolons since.
pub open spec fn listed_at(values: Seq<char>, i: int, j: int) -> Option<Seq<char>> {
    if 0 <= i < split(values, ',').len() && 0 <= j < split(split(values, ',')[i], ';').len() {
        Some(trim(split(split(values, ',')[i], ';')[j]))
    } else {
        None
    }
}

/// The values listed in a text.
pub open spec fn listed(values: Seq<char>) -> Set<Seq<char>> {
    Set::new(|item: Seq<char>| is_listed(values, item))
}

/// The configuration of each issuer in a comma-separated list: what follows the first `=`. Where
/// an issuer is listed again, the later configuration counts.
pub open spec fn issuer_configs(entries: Seq<Seq<char>>) -> Map<Seq<char>, Seq<char>>
    decreases entries.len(),
{
    if entries.len() == 0 {
        Map::empty()
    } else {
        let (name, config) = match split_once(entries.last(), '=') {
            Some(pair) => pair,
            None => (entries.last(), Seq::empty()),
        };
        issuer_configs(entries.drop_last()).insert(name, config)
    }
}

/// Whether a configuration asks for the secret that is shared by all issuers.
pub open spec fn uses_shared_secret(config: Seq<char>) -> bool {
    config.len() == 0 || config == "secret"@
}

/// The address that a JWKS configuration names: a path counts from the issuer's own address.
pub open spec fn jwks_address(issuer: Seq<char>, path: Seq<char>) -> Seq<char> {
    if path.len() > 0 && path[0] == '/' {
        trim_end_char(trim_start_char(issuer, '/'), '/') + path
    } else {
        path
    }
}

/// Where the keys of an issuer are to be had: the secret shared by all issuers, a JWKS endpoint, or
/// a secret of the issuer's own, which is any text without a colon.
pub open spec fn source_for(
    issuer: Seq<char>,
    config: Seq<char>,
    shared: Option<DecodingKey>,
) -> Result<KeySourceView, ErrorView> {
    if uses_shared_secret(config) {
        match shared {
            Some(key) => Ok(KeySourceView::Hmac(key)),
            None => Err(
                plain("Issuer "@ + issuer + " relies on a shared secret, but none was given"@),
            ),
        }
    } else if starts_with(config, "jwks:"@) {
        Ok(KeySourceView::Jwks(jwks_address(issuer, config.skip(5))))
    } else if !config.contains(':') {
        Ok(KeySourceView::Hmac(secret_key(encode_utf8(config))))
    } else {
        Err(plain("Issuer "@ + issuer + " has an invalid config: "@ + config))
    }
}

/// What the strategy for fetching keys is.
pub enum StrategyView {
    Static(KeySourceView),
    PerIssuer(Map<Seq<char>, KeySourceView>),
}

impl View for KeyFetchStrategy {
    type V = StrategyView;

    open spec fn view(&self) -> StrategyView {
        match self {
            KeyFetchStrategy::Static(source) => StrategyView::Static(source@),
            KeyFetchStrategy::PerIssuer(sources) => StrategyView::PerIssuer(
                sources@.map_values(|source: KeySource| source@),
            ),
        }
    }
}

/// Whether all issuers rely on the secret that they share.
pub open spec fn all_share_secret(configs: Map<Seq<char>, Seq<char>>) -> bool {
    forall|iss: Seq<char>| #[trigger]
        configs.dom().contains(iss) ==> uses_shared_secret(configs[iss])
}

/// Whether `strategy` is the one for the given issuers: the shared secret for all of them where
/// all rely on it, else for each issuer its own source.
pub open spec fn is_strategy_for(
    strategy: StrategyView,
    configs: Map<Seq<char>, Seq<char>>,
    shared: Option<DecodingKey>,
) -> bool {
    if all_share_secret(configs) {
        shared is Some && strategy == StrategyView::Static(KeySourceView::Hmac(shared->0))
    } else {
        &&& strategy is PerIssuer
        &&& strategy->PerIssuer_0.dom() == configs.dom()
        &&& forall|iss: Seq<char>| #[trigger]
            configs.dom().contains(iss) ==> source_for(iss, configs[iss], shared) == Ok::<
                KeySourceView,
                ErrorView,
            >(strategy->PerIssuer_0[iss])
    }
}

/// Whether `err` is a reason why there is no strategy for the given issuers: the shared secret that
/// all of them rely on is missing, or one of the issuers has no source.
pub open spec fn is_strategy_error(
    err: ErrorView,
    configs: Map<Seq<char>, Seq<char>>,
    shared: Option<DecodingKey>,
) -> bool {
    if all_share_secret(configs) {
        shared is None && err == plain(
            "All issuers rely on a shared secret to be present, but none was given"@,
        )
    } else {
        exists|iss: Seq<char>| #[trigger]
            configs.dom().contains(iss) && source_for(iss, configs[iss], shared) == Err::<
                KeySourceView,
                ErrorView,
            >(err)
    }
}

/// Whether `rules` are the rules for the given lists: any algorithm where none is listed, else those
/// known among the ones listed, the issuers, and the audiences if there are any. The earliest time
/// of use counts.
pub open spec fn is_validation_for(
    rules: ValidationView,
    algorithms: Seq<char>,
    issuers: Set<Seq<char>>,
    audience: Seq<char>,
) -> bool {
    &&& rules.any_algorithm == (listed(algorithms) == Set::<Seq<char>>::empty())
    &&& rules.algorithms.no_duplicates()
    &&& forall|alg: Algorithm| #[trigger]
        rules.algorithms.contains(alg) <==> is_listed(algorithms, algorithm_name(alg))
    &&& rules.iss == issuers
    &&& rules.aud == if listed(audience) == Set::<Seq<char>>::empty() {
        None
    } else {
        Some(listed(audience))
    }
    &&& rules.validate_aud == (rules.aud is Some)
    &&& rules.validate_nbf
}

/// The text, where there is one, else nothing.
pub open spec fn text_or_nothing(text: Option<&str>) -> Seq<char> {
    match text {
        Some(s) => s@,
        None => Seq::empty(),
    }
}

/// The key made of a shared secret, where there is one.
pub open spec fn shared_key(secret: Option<&str>) -> Option<DecodingKey> {
    match secret {
        Some(s) => Some(secret_key(s.spec_bytes())),
        None => None,
    }
}

/// Configuration for token validation.
pub struct AuthenticatorConfig {
    /// The rules that tokens have to meet.
    pub validation: Validation,
    /// The language of users whose token names none.
    pub default_locale: String,
    /// Languages the deployment can actually produce, for negotiating a token that carries no
    /// `locale` claim against the request's `Accept-Language`. Empty means no negotiation.
    pub supported_locales: Vec<String>,
    /// The prefix to strip from the names of claims.
    pub custom_claim_prefix: Option<String>,
    /// Where decoding keys are to be had.
    pub key_fetcher: KeyFetchStrategy,
}

impl AuthenticatorConfig {
    /// The claims with the configured prefix stripped, if one is configured.
    pub open spec fn bare_claims(self, claims: Map<Seq<char>, JsonView>) -> Map<
        Seq<char>,
        JsonView,
    > {
        match self.custom_claim_prefix {
            Some(prefix) => translated(claims, prefix@),
            None => claims,
        }
    }

    /// The claims of a token in the form in which they are used.
    pub open spec fn usable_claims(
        self,
        claims: Map<Seq<char>, JsonView>,
        accept_language: Option<&str>,
    ) -> Map<Seq<char>, JsonView> {
        with_locale(
            self.bare_claims(claims),
            string_views(self.supported_locales@),
            self.default_locale@,
            match accept_language {
                Some(text) => Some(text@),
                None => None,
            },
        )
    }

    /// The values listed in a text, separated by commas or semicolons, if there are any.
    pub fn parse_set(values: &str) -> (r: Option<TextSet>)
        ensures
            match r {
                Some(set) => set@ == listed(values@) && set@ != Set::<Seq<char>>::empty(),
                None => listed(values@) == Set::<Seq<char>>::empty(),
            },
    {
        let parts = split_str(values, ',');
        let mut set = TextSet::new();
        let mut i: usize = 0;
        while i < parts.len()
            invariant
                i <= parts@.len(),
                views(parts@) == split(values@, ','),
                forall|item: Seq<char>| #[trigger]
                    set@.contains(item) ==> item.len() > 0 && is_listed(values@, item),
                forall|a: int, b: int|
                    a < i && (#[trigger] listed_at(values@, a, b)) is Some && listed_at(
                        values@,
                        a,
                        b,
                    )->0.len() > 0 ==> set@.contains(listed_at(values@, a, b)->0),
            decreases parts@.len() - i,
        {
            assert(views(parts@)[i as int] == parts@[i as int]@);
            let items = split_str(parts[i], ';');
            let mut j: usize = 0;
            while j < items.len()
                invariant
                    i < parts@.len(),
                    views(parts@) == split(values@, ','),
                    views(parts@)[i as int] == parts@[i as int]@,
                    j <= items@.len(),
                    views(items@) == split(split(values@, ',')[i as int], ';'),
                    forall|item: Seq<char>| #[trigger]
                        set@.contains(item) ==> item.len() > 0 && is_listed(values@, item),
                    forall|a: int, b: int|
                        (a < i || (a == i && b < j)) && (#[trigger] listed_at(values@, a, b))
                            is Some && listed_at(values@, a, b)->0.len() > 0 ==> set@.contains(
                            listed_at(values@, a, b)->0,
                        ),
                decreases items@.len() - j,
            {
                assert(views(items@)[j as int] == items@[j as int]@);
                let item = trim_str(items[j]);
                assert(listed_at(values@, i as int, j as int) == Some(item@));
                if !item.is_empty() {
                    set.insert(item.to_owned());
                }
                j += 1;
            }
            i += 1;
        }
        proof {
            assert(set@ =~= listed(values@));
        }
        if set.is_empty() {
            None
        } else {
            Some(set)
        }
    }

    /// The algorithms listed in a text. Unknown ones are ignored.
    pub fn parse_algorithms(algorithms: &str) -> (r: Vec<Algorithm>)
        ensures
            r@.no_duplicates(),
            forall|alg: Algorithm| #[trigger]
                r@.contains(alg) <==> is_listed(algorithms@, algorithm_name(alg)),
    {
        let mut r: Vec<Algorithm> = Vec::new();
        let set = match Self::parse_set(algorithms) {
            Some(set) => set,
            None => {
                proof {
                    assert forall|alg: Algorithm| !is_listed(
                        algorithms@,
                        #[trigger] algorithm_name(alg),
                    ) by {
                        assert(!listed(algorithms@).contains(algorithm_name(alg)));
                    }
                }
                return r;
            },
        };
        let names = set.items();
        let mut i: usize = 0;
        while i < names.len()
            invariant
                i <= names@.len(),
                r@.no_duplicates(),
                forall|a: int, b: int|
                    0 <= a < b < names@.len() ==> (#[trigger] names@[a])@ != (#[trigger] names@[b])@,
                forall|alg: Algorithm| #[trigger]
                    r@.contains(alg) <==> exists|k: int|
                        0 <= k < i && (#[trigger] names@[k])@ == algorithm_name(alg),
            decreases names@.len() - i,
        {
            let ghost before = r@;
            match Algorithm::from_name(names[i].as_str()) {
                Some(alg) => {
                    r.push(alg);
                    proof {
                        if before.contains(alg) {
                            let k = choose|k: int|
                                0 <= k < i && (#[trigger] names@[k])@ == algorithm_name(alg);
                            assert(names@[k]@ != names@[i as int]@);
                        }
                        assert forall|other: Algorithm| #[trigger]
                            r@.contains(other) implies exists|k: int|
                            0 <= k < i + 1 && (#[trigger] names@[k])@ == algorithm_name(other) by {
                            let p = choose|p: int| 0 <= p < r@.len() && r@[p] == other;
                            if p < before.len() {
                                assert(before[p] == other);
                                assert(before.contains(other));
                            } else {
                                assert(names@[i as int]@ == algorithm_name(other));
                            }
                        }
                        assert forall|other: Algorithm|
                            (exists|k: int|
                                0 <= k < i + 1 && (#[trigger] names@[k])@ == algorithm_name(
                                    other,
                                )) implies #[trigger] r@.contains(other) by {
                            let k = choose|k: int|
                                0 <= k < i + 1 && (#[trigger] names@[k])@ == algorithm_name(other);
                            if k < i {
                                assert(before.contains(other));
                                let p = choose|p: int| 0 <= p < before.len() && before[p] == other;
                                assert(r@[p] == other);
                            } else {
                                law_algorithm_names_differ(alg, other);
                                assert(r@[before.len() as int] == alg);
                            }
                        }
                    }
                },
                None => {
                    assert(forall|alg: Algorithm| names@[i as int]@ != algorithm_name(alg));
                },
            }
            i += 1;
        }
        proof {
            assert forall|alg: Algorithm| #[trigger] r@.contains(alg) <==> is_listed(
                algorithms@,
                algorithm_name(alg),
            ) by {
                assert(set@.contains(algorithm_name(alg)) == listed(algorithms@).contains(
                    algorithm_name(alg),
                ));
                if r@.contains(alg) {
                    let k = choose|k: int|
                        0 <= k < names@.len() && (#[trigger] names@[k])@ == algorithm_name(alg);
                    assert(set@.contains(names@[k]@));
                }
            }
        }
        r
    }

    fn create_key_fetcher_from_config(
        iss: &str,
        config: &str,
        hmac_key: &Option<DecodingKey>,
    ) -> (r: Result<KeySource, Error>)
        ensures
            match (r, source_for(iss@, config@, *hmac_key)) {
                (Ok(source), Ok(exact)) => source@ == exact,
                (Err(err), Err(exact)) => err@ == exact,
                _ => false,
            },
    {
        if config.is_empty() || same(config, "secret") {
            match hmac_key {
                Some(key) => Ok(KeySource::Hmac(HmacKeyFetcher::new(key.clone()))),
                None => {
                    let mut message = concat_strs("Issuer ", iss);
                    message.append(" relies on a shared secret, but none was given");
                    Err(Error::new(message.as_str()))
                },
            }
        } else if let Some(path) = strip_prefix_str(config, "jwks:") {
            proof {
                reveal_strlit("jwks:");
                reveal_strlit("/");
                assert(starts_with(path@, "/"@) == (path@.len() > 0 && path@[0] == '/')) by {
                    if path@.len() > 0 {
                        assert(path@.subrange(0, 1) =~= seq![path@[0]]);
                        assert("/"@ =~= seq!['/']);
                        assert(seq![path@[0]][0] == path@[0]);
                        assert(seq!['/'][0] == '/');
                    }
                }
            }
            let url = if starts_with_str(path, "/") {
                concat_strs(trim_char(iss, '/'), path)
            } else {
                path.to_owned()
            };
            Ok(KeySource::Jwks(url))
        } else if find_char(config, ':') == config.unicode_len() {
            proof {
                lemma_index_of(config@, ':');
                assert(!config@.contains(':'));
            }
            let key = DecodingKey::from_secret(config.as_bytes());
            Ok(KeySource::Hmac(HmacKeyFetcher::new(key)))
        } else {
            proof {
                lemma_index_of(config@, ':');
                assert(config@.contains(':'));
            }
            let mut message = concat_strs("Issuer ", iss);
            message.append(" has an invalid config: ");
            message.append(config);
            Err(Error::new(message.as_str()))
        }
    }

    fn build_key_fetcher_strategy(
        issuers: &TextMap<String>,
        hmac_key: &Option<DecodingKey>,
    ) -> (r: Result<KeyFetchStrategy, Error>)
        ensures
            match r {
                Ok(strategy) => is_strategy_for(
                    strategy@,
                    issuers@.map_values(|s: String| s@),
                    *hmac_key,
                ),
                Err(err) => is_strategy_error(
                    err@,
                    issuers@.map_values(|s: String| s@),
                    *hmac_key,
                ),
            },
    {
        let entries = issuers.entries();
        let ghost configs = issuers@.map_values(|s: String| s@);
        let mut shared: bool = true;
        let mut i: usize = 0;
        while i < entries.len()
            invariant
                i <= entries@.len(),
                shared == forall|k: int|
                    0 <= k < i ==> uses_shared_secret((#[trigger] entries@[k]).1@),
            decreases entries@.len() - i,
        {
            let config = entries[i].1.as_str();
            if !(config.is_empty() || same(config, "secret")) {
                assert(!uses_shared_secret(entries@[i as int].1@));
                shared = false;
            }
            i += 1;
        }
        proof {
            if shared {
                assert forall|iss: Seq<char>| #[trigger]
                    configs.dom().contains(iss) implies uses_shared_secret(configs[iss]) by {
                    assert(issuers@.dom().contains(iss));
                    let k = choose|k: int|
                        0 <= k < entries@.len() && (#[trigger] entries@[k]).0@ == iss;
                    assert(uses_shared_secret(entries@[k].1@));
                }
            } else {
                let k = choose|k: int|
                    0 <= k < entries@.len() && !uses_shared_secret((#[trigger] entries@[k]).1@);
                assert(configs.dom().contains(entries@[k].0@));
            }
        }
        if shared {
            return match hmac_key {
                Some(key) => Ok(
                    KeyFetchStrategy::Static(KeySource::Hmac(HmacKeyFetcher::new(key.clone()))),
                ),
                None => Err(
                    Error::new(
                        "All issuers rely on a shared secret to be present, but none was given",
                    ),
                ),
            };
        }
        let mut sources: TextMap<KeySource> = TextMap::new();
        let mut i: usize = 0;
        while i < entries.len()
            invariant
                i <= entries@.len(),
                configs == issuers@.map_values(|s: String| s@),
                !all_share_secret(configs),
                unique_names(entries@),
                forall|k: int|
                    0 <= k < entries@.len() ==> issuers@.dom().contains((#[trigger] entries@[k]).0@)
                        && issuers@[entries@[k].0@] == entries@[k].1,
                forall|iss: Seq<char>| #[trigger]
                    sources@.dom().contains(iss) ==> exists|k: int|
                        0 <= k < i && (#[trigger] entries@[k]).0@ == iss,
                forall|k: int|
                    0 <= k < i ==> sources@.dom().contains((#[trigger] entries@[k]).0@)
                        && source_for(entries@[k].0@, entries@[k].1@, *hmac_key) == Ok::<
                        KeySourceView,
                        ErrorView,
                    >(sources@[entries@[k].0@]@),
            decreases entries@.len() - i,
        {
            let entry = &entries[i];
            let made = Self::create_key_fetcher_from_config(
                entry.0.as_str(),
                entry.1.as_str(),
                hmac_key,
            );
            let source = match made {
                Ok(source) => source,
                Err(err) => {
                    assert(configs.dom().contains(entries@[i as int].0@));
                    return Err(err);
                },
            };
            let ghost before = sources@;
            sources.insert(entry.0.clone(), source);
            proof {
                assert forall|k: int| 0 <= k < i implies sources@[(#[trigger] entries@[k]).0@]
                    == before[entries@[k].0@] by {
                    assert(entries@[k].0@ != entries@[i as int].0@);
                }
            }
            i += 1;
        }
        let strategy = KeyFetchStrategy::PerIssuer(sources);
        proof {
            let views = strategy@->PerIssuer_0;
            assert forall|iss: Seq<char>| #[trigger]
                configs.dom().contains(iss) implies views.dom().contains(iss) && source_for(
                iss,
                configs[iss],
                *hmac_key,
            ) == Ok::<KeySourceView, ErrorView>(views[iss]) by {
                assert(issuers@.dom().contains(iss));
                let k = choose|k: int| 0 <= k < entries@.len() && (#[trigger] entries@[k]).0@ == iss;
                assert(sources@.dom().contains(entries@[k].0@));
            }
            assert(views.dom() =~= configs.dom());
        }
        Ok(strategy)
    }

    /// The rules for tokens.
    fn build_validation(
        algorithms: Option<&str>,
        issuers: TextSet,
        audience: Option<&str>,
    ) -> (r: Validation)
        ensures
            is_validation_for(
                r@,
                text_or_nothing(algorithms),
                issuers@,
                text_or_nothing(audience),
            ),
    {
        let algorithms = match algorithms {
            Some(s) => s,
            None => "",
        };
        let audience = match audience {
            Some(s) => s,
            None => "",
        };
        proof {
            reveal_strlit("");
            assert(""@ =~= Seq::empty());
        }
        let aud = Self::parse_set(audience);
        let validate_aud = aud.is_some();
        let any_algorithm = Self::parse_set(algorithms).is_none();
        Validation {
            any_algorithm,
            algorithms: Self::parse_algorithms(algorithms),
            iss: issuers,
            aud,
            validate_nbf: true,
            validate_aud,
        }
    }

    /// Creates a new authenticator configuration.
    ///
    /// # Arguments
    ///
    /// * `algorithms` - Allowed algorithms (e.g., `Some("RS256,ES256")`). `None` allows any algorithm.
    /// * `issuers` - Set of allowed token issuers.
    /// * `audience` - Expected audience claim. `None` skips audience validation.
    /// * `default_locale` - Fallback locale if not present in token.
    /// * `custom_claim_prefix` - Prefix to strip from custom claims (e.g., `"custom:"`).
    /// * `key_fetcher` - Where decoding keys are to be had.
    pub fn new(
        algorithms: Option<&str>,
        issuers: TextSet,
        audience: Option<&str>,
        default_locale: String,
        custom_claim_prefix: Option<String>,
        key_fetcher: KeySource,
    ) -> (r: AuthenticatorConfig)
        ensures
            is_validation_for(
                r.validation@,
                text_or_nothing(algorithms),
                issuers@,
                text_or_nothing(audience),
            ),
            r.default_locale == default_locale,
            r.supported_locales@ == Seq::<String>::empty(),
            r.custom_claim_prefix == custom_claim_prefix,
            r.key_fetcher@ == StrategyView::Static(key_fetcher@),
    {
        AuthenticatorConfig {
            validation: Self::build_validation(algorithms, issuers, audience),
            default_locale,
            supported_locales: Vec::new(),
            custom_claim_prefix,
            key_fetcher: KeyFetchStrategy::Static(key_fetcher),
        }
    }

    /// Sets the languages this deployment can produce, enabling `Accept-Language` negotiation for
    /// tokens that carry no `locale` claim. Order is irrelevant; matching is by tag with
    /// primary-subtag fallback. Empty leaves negotiation off.
    pub fn with_supported_locales(self, locales: Vec<String>) -> (r: AuthenticatorConfig)
        ensures
            r == (AuthenticatorConfig { supported_locales: locales, ..self }),
    {
        AuthenticatorConfig {
            validation: self.validation,
            default_locale: self.default_locale,
            supported_locales: locales,
            custom_claim_prefix: self.custom_claim_prefix,
            key_fetcher: self.key_fetcher,
        }
    }

    /// Creates an authenticator configuration from environment-style string parameters.
    ///
    /// This is a convenience constructor that parses comma-separated issuers with optional
    /// per-issuer configuration (e.g., `issuer1,issuer2=jwks:/.well-known/jwks.json`).
    ///
    /// # Arguments
    ///
    /// * `shared_secret` - HMAC secret for issuers using symmetric signing.
    /// * `algorithms` - Comma-separated allowed algorithms (empty string allows any).
    /// * `issuer` - Comma-separated issuers, optionally with config: `iss=jwks:/path` or
    ///   `iss=jwks:https://..` for a JWKS endpoint, `iss=secret` for the shared secret, or a secret
    ///   of the issuer's own.
    /// * `audience` - Expected audience (empty string skips validation).
    /// * `default_locale` - Fallback locale.
    /// * `custom_claim_prefix` - Prefix to strip from custom claims.
    pub fn from_env_style_config(
        shared_secret: Option<&str>,
        algorithms: &str,
        issuer: &str,
        audience: &str,
        default_locale: String,
        custom_claim_prefix: Option<String>,
    ) -> (r: Result<AuthenticatorConfig, Error>)
        ensures
            ({
                let configs = issuer_configs(split(issuer@, ','));
                match r {
                    Ok(config) => {
                        &&& is_strategy_for(
                            config.key_fetcher@,
                            configs,
                            shared_key(shared_secret),
                        )
                        &&& is_validation_for(
                            config.validation@,
                            algorithms@,
                            configs.dom(),
                            audience@,
                        )
                        &&& config.default_locale == default_locale
                        &&& config.supported_locales@ == Seq::<String>::empty()
                        &&& config.custom_claim_prefix == custom_claim_prefix
                    },
                    Err(err) => is_strategy_error(err@, configs, shared_key(shared_secret)),
                }
            }),
    {
        let hmac_key: Option<DecodingKey> = match shared_secret {
            Some(secret) => Some(DecodingKey::from_secret(secret.as_bytes())),
            None => None,
        };
        let parts = split_str(issuer, ',');
        let ghost all = split(issuer@, ',');
        let mut issuers: TextMap<String> = TextMap::new();
        let mut names = TextSet::new();
        let mut i: usize = 0;
        proof {
            assert(all.take(0) =~= Seq::empty());
            assert(issuers@.map_values(|s: String| s@) =~= Map::<Seq<char>, Seq<char>>::empty());
            assert(names@ =~= Map::<Seq<char>, Seq<char>>::empty().dom());
        }
        while i < parts.len()
            invariant
                i <= parts@.len(),
                all == views(parts@),
                issuers@.map_values(|s: String| s@) == issuer_configs(all.take(i as int)),
                names@ == issuer_configs(all.take(i as int)).dom(),
            decreases parts@.len() - i,
        {
            let part = parts[i];
            assert(all[i as int] == part@);
            assert(all.take(i + 1).drop_last() =~= all.take(i as int));
            let ghost before = issuers@;
            let (name, config) = match split_once_str(part, '=') {
                Some(pair) => pair,
                None => (part, ""),
            };
            proof {
                reveal_strlit("");
                assert(""@ =~= Seq::empty());
            }
            names.insert(name.to_owned());
            issuers.insert(name.to_owned(), config.to_owned());
            proof {
                assert(issuers@.map_values(|s: String| s@) =~= before.map_values(
                    |s: String| s@,
                ).insert(name@, config@));
                assert(names@ =~= issuer_configs(all.take(i + 1)).dom());
            }
            i += 1;
        }
        assert(all.take(i as int) =~= all);
        let validation = Self::build_validation(Some(algorithms), names, Some(audience));
        match Self::build_key_fetcher_strategy(&issuers, &hmac_key) {
            Ok(key_fetcher) => Ok(
                AuthenticatorConfig {
                    validation,
                    default_locale,
                    supported_locales: Vec::new(),
                    custom_claim_prefix,
                    key_fetcher,
                },
            ),
            Err(err) => Err(err),
        }
    }

    /// Reads the header of a token and says where its key is to be had, given the claims in the
    /// token's payload.
    pub fn check_header(&self, claims: &ClaimsSet, jwt_token: &str) -> (r: Result<
        (Header, &KeySource),
        Error,
    >)
        ensures
            match (
                r,
                key_choice(self.validation@, self.key_fetcher@, claims@, jwt_token@),
            ) {
                (Ok(found), Ok(exact)) => {
                    &&& found.0@ == exact.0
                    &&& found.1@ == exact.1
                    &&& token_header(jwt_token@)->Ok_0.0 == algorithm_name(found.0.alg)
                },
                (Err(err), Err(exact)) => err@ == exact,
                _ => false,
            },
    {
        let header = match decode_header(jwt_token) {
            Ok(header) => header,
            Err(err) => {
                return Err(err);
            },
        };
        if !self.validation.any_algorithm && !is_among(header.alg, &self.validation.algorithms) {
            let message = concat_strs(
                "Invalid JWT present: Unsupported algorithm: ",
                header.alg.name(),
            );
            return Err(Error::new(message.as_str()).with_status(UNAUTHORIZED));
        }
        match &self.key_fetcher {
            KeyFetchStrategy::Static(source) => Ok((header, source)),
            KeyFetchStrategy::PerIssuer(sources) => {
                let iss = match claims.get(CLAIM_ISS) {
                    Some(json) => json.as_str(),
                    None => None,
                };
                let found = match iss {
                    Some(iss) => sources.get(iss),
                    None => None,
                };
                match found {
                    Some(source) => Ok((header, source)),
                    None => Err(
                        Error::new("Invalid issuer or missing configuration").with_status(
                            UNAUTHORIZED,
                        ),
                    ),
                }
            },
        }
    }

    /// Takes the key that was fetched for a token, or the error that came instead, and verifies
    /// the token.
    pub fn check_signature(
        &self,
        header: &Header,
        decoding_key: Result<DecodingKey, Error>,
        jwt_token: &str,
    ) -> (r: Result<ClaimsSet, Error>)
        ensures
            match decoding_key {
                Ok(key) => is_verdict(r, jwt_token@, key, self.validation@.only(header.alg)),
                Err(err) => r is Err && r->Err_0@ == err@.with_status(UNAUTHORIZED),
            },
    {
        match decoding_key {
            Ok(key) => self.validate_signature(header, &key, jwt_token),
            Err(err) => Err(err.with_status(UNAUTHORIZED)),
        }
    }

    /// Verifies a token with the given key, which has to use the algorithm that its header names.
    pub fn validate_signature(
        &self,
        header: &Header,
        decoding_key: &DecodingKey,
        jwt_token: &str,
    ) -> (r: Result<ClaimsSet, Error>)
        ensures
            is_verdict(r, jwt_token@, *decoding_key, self.validation@.only(header.alg)),
    {
        let mut algorithms: Vec<Algorithm> = Vec::new();
        algorithms.push(header.alg);
        let aud = match &self.validation.aud {
            Some(set) => Some(set.clone()),
            None => None,
        };
        let rules = Validation {
            any_algorithm: false,
            algorithms,
            iss: self.validation.iss.clone(),
            aud,
            validate_nbf: self.validation.validate_nbf,
            validate_aud: self.validation.validate_aud,
        };
        assert(rules@.algorithms =~= seq![header.alg]);
        assert(rules@ == self.validation@.only(header.alg));
        let verified = verify_token(jwt_token, decoding_key, &rules);
        let ghost now = choose|now: u64| #[trigger]
            is_verified_at(verified, jwt_token@, *decoding_key, rules@, now);
        let r = unauthorized(verified, "Invalid JWT present");
        assert(!is_unusable(*decoding_key, rules@) ==> is_verdict_at(
            r,
            jwt_token@,
            *decoding_key,
            rules@,
            now,
        ));
        r
    }
}

/// The answer of the first fetcher that has one.
pub open spec fn first_answer<C>(answers: Seq<Option<C>>) -> Option<C>
    decreases answers.len(),
{
    if answers.len() == 0 {
        None
    } else {
        match first_answer(answers.drop_last()) {
            Some(config) => Some(config),
            None => answers.last(),
        }
    }
}

/// How far a search has come: how many fetchers there are, and what those asked have answered.
pub struct SearchView<C> {
    pub fetchers: nat,
    pub answers: Seq<Option<C>>,
}

impl<C> SearchView<C> {
    /// The fetcher to ask next: the fetchers are asked in their order, until one has an answer.
    pub open spec fn asks(self) -> Option<nat> {
        if first_answer(self.answers) is None && self.answers.len() < self.fetchers {
            Some(self.answers.len())
        } else {
            None
        }
    }
}

/// The search for the configuration of a token among fetchers, which are asked one after the other.
pub struct ConfigSearch<C> {
    fetchers: usize,
    asked: usize,
    found: Option<C>,
    answers: Ghost<Seq<Option<C>>>,
}

impl<C> View for ConfigSearch<C> {
    type V = SearchView<C>;

    closed spec fn view(&self) -> SearchView<C> {
        SearchView { fetchers: self.fetchers as nat, answers: self.answers@ }
    }
}

impl<C> ConfigSearch<C> {
    #[verifier::type_invariant]
    spec fn is_consistent(self) -> bool {
        &&& self.asked == self.answers@.len()
        &&& self.found == first_answer(self.answers@)
    }

    /// Begins a search among the given number of fetchers.
    pub fn new(fetchers: usize) -> (r: ConfigSearch<C>)
        ensures
            r@ == (SearchView { fetchers: fetchers as nat, answers: Seq::<Option<C>>::empty() }),
    {
        ConfigSearch { fetchers, asked: 0, found: None, answers: Ghost(Seq::empty()) }
    }

    /// The fetcher to ask next, if there is one.
    pub fn next(&self) -> (r: Option<usize>)
        ensures
            match (r, self@.asks()) {
                (Some(n), Some(exact)) => n == exact,
                (None, None) => true,
                _ => false,
            },
    {
        proof {
            use_type_invariant(self);
        }
        if self.found.is_none() && self.asked < self.fetchers {
            Some(self.asked)
        } else {
            None
        }
    }

    /// Takes what the fetcher that was to be asked has answered.
    pub fn answered(self, answer: Option<C>) -> (r: ConfigSearch<C>)
        requires
            self@.asks() is Some,
        ensures
            r@ == (SearchView { answers: self@.answers.push(answer), ..self@ }),
    {
        proof {
            use_type_invariant(&self);
            assert(self.answers@.push(answer).drop_last() =~= self.answers@);
        }
        ConfigSearch {
            fetchers: self.fetchers,
            asked: self.asked + 1,
            found: answer,
            answers: Ghost(self.answers@.push(answer)),
        }
    }

    /// The configuration that was found.
    pub fn into_found(self) -> (r: Option<C>)
        ensures
            r == first_answer(self@.answers),
    {
        proof {
            use_type_invariant(&self);
        }
        self.found
    }
}

/// Of several fetchers the first that has an answer counts, and where none has one there is none.
pub proof fn law_first_answer_counts<C>(answers: Seq<Option<C>>)
    ensures
        forall|i: int|
            0 <= i < answers.len() && (#[trigger] answers[i]) is Some && (forall|k: int|
                0 <= k < i ==> (#[trigger] answers[k]) is None) ==> first_answer(answers)
                == answers[i],
        (forall|k: int| 0 <= k < answers.len() ==> (#[trigger] answers[k]) is None) <==> first_answer(
            answers,
        ) is None,
    decreases answers.len(),
{
    if answers.len() > 0 {
        let earlier = answers.drop_last();
        law_first_answer_counts(earlier);
        assert forall|k: int| 0 <= k < earlier.len() implies #[trigger] earlier[k] == answers[k] by {}
        assert(answers[answers.len() - 1] == answers.last());
        assert forall|i: int|
            0 <= i < answers.len() && (#[trigger] answers[i]) is Some && (forall|k: int|
                0 <= k < i ==> (#[trigger] answers[k]) is None) implies first_answer(answers)
            == answers[i] by {
            if i < earlier.len() {
                assert(earlier[i] is Some);
            }
        }
        if forall|k: int| 0 <= k < answers.len() ==> (#[trigger] answers[k]) is None {
            assert forall|k: int| 0 <= k < earlier.len() implies (#[trigger] earlier[k]) is None by {
                assert(answers[k] is None);
            }
        }
        if first_answer(answers) is None {
            assert forall|k: int| 0 <= k < answers.len() implies (#[trigger] answers[k]) is None by {
                if k < earlier.len() {
                    assert(earlier[k] is None);
                }
            }
        }
    }
}

/// Validates tokens and extracts claims.
pub struct Authenticator {
    pub config: AuthenticatorConfig,
}

impl Authenticator {
    /// Creates an authenticator with the given configuration.
    pub fn new(config: AuthenticatorConfig) -> (r: Authenticator)
        ensures
            r.config == config,
    {
        Authenticator { config }
    }

    /// Creates an authenticator that accepts what is signed with a shared secret.
    pub fn with_simple_secret(secret: &str) -> (r: Authenticator)
        ensures
            r.config.key_fetcher@ == StrategyView::Static(
                KeySourceView::Hmac(secret_key(secret.spec_bytes())),
            ),
            is_validation_for(
                r.config.validation@,
                Seq::empty(),
                Set::<Seq<char>>::empty(),
                Seq::empty(),
            ),
            r.config.default_locale@ == DEFAULT_LOCALE@,
            r.config.supported_locales@ == Seq::<String>::empty(),
            r.config.custom_claim_prefix is None,
    {
        let key = DecodingKey::from_secret(secret.as_bytes());
        Self::new(
            AuthenticatorConfig::new(
                None,
                TextSet::new(),
                None,
                DEFAULT_LOCALE.to_owned(),
                None,
                KeySource::Hmac(HmacKeyFetcher::new(key)),
            ),
        )
    }

    /// Sets the languages this deployment can produce, so a token carrying no `locale` claim is
    /// answered from the request's `Accept-Language` rather than the bare default.
    pub fn with_supported_locales(self, locales: Vec<String>) -> (r: Authenticator)
        ensures
            r.config == (AuthenticatorConfig { supported_locales: locales, ..self.config }),
    {
        Authenticator { config: self.config.with_supported_locales(locales) }
    }

    /// Reads the claims in the payload of a token, without verifying the token.
    pub fn decode_payload(jwt_token: &str) -> (r: Result<ClaimsSet, Error>)
        ensures
            match (r, payload_claims(jwt_token@)) {
                (Ok(claims), Ok(exact)) => claims@ == exact,
                (Err(err), Err(exact)) => err@ == exact,
                _ => false,
            },
    {
        decode_payload(jwt_token)
    }

    /// Reads the claims in the payload of a token that is about to be validated.
    pub fn read_claims(jwt_token: &str) -> (r: Result<ClaimsSet, Error>)
        ensures
            match (r, payload_claims(jwt_token@)) {
                (Ok(claims), Ok(exact)) => claims@ == exact,
                (Err(err), Err(cause)) => err@ == cause.with_context(
                    "Invalid JWT present"@,
                ).with_status(UNAUTHORIZED),
                _ => false,
            },
    {
        match Self::decode_payload(jwt_token) {
            Ok(claims) => Ok(claims),
            Err(err) => Err(err.context("Invalid JWT present").with_status(UNAUTHORIZED)),
        }
    }

    /// Takes the key that was fetched for a token, or the error that came instead, verifies the
    /// token, and strips the configured prefix from the names of its claims.
    ///
    /// Whoever has claims of their own to put in changes the result, and then hands it to
    /// [`Authenticator::inject_locale_if_missing`].
    pub fn validate_and_translate(
        jwt_token: &str,
        header: &Header,
        decoding_key: Result<DecodingKey, Error>,
        config: &AuthenticatorConfig,
    ) -> (r: Result<ClaimsSet, Error>)
        ensures
            match decoding_key {
                Ok(key) => exists|checked: Result<ClaimsSet, Error>| #[trigger]
                    is_verdict(checked, jwt_token@, key, config.validation@.only(header.alg))
                        && match (r, checked) {
                        (Ok(claims), Ok(exact)) => claims@ == config.bare_claims(exact@),
                        (Err(err), Err(exact)) => err@ == exact@,
                        _ => false,
                    },
                Err(err) => r is Err && r->Err_0@ == err@.with_status(UNAUTHORIZED),
            },
    {
        let checked = config.check_signature(header, decoding_key, jwt_token);
        match checked {
            Ok(claims) => Ok(Self::translate(config, claims)),
            Err(err) => Err(err),
        }
    }

    /// Takes the key that was fetched for a token, or the error that came instead, verifies the
    /// token, and brings its claims into the form in which they are used: with the configured
    /// prefix stripped from their names, and with a locale.
    ///
    /// The request's `Accept-Language` matters only when the token carries no `locale` claim:
    /// instead of blindly injecting the deployment default, the header is negotiated against the
    /// configured supported languages, so a caller whose token never carried a language is still
    /// answered in one they actually asked for.
    pub fn parse_validate_and_update(
        jwt_token: &str,
        header: &Header,
        decoding_key: Result<DecodingKey, Error>,
        config: &AuthenticatorConfig,
        accept_language: Option<&str>,
    ) -> (r: Result<ClaimsSet, Error>)
        ensures
            match decoding_key {
                Ok(key) => exists|checked: Result<ClaimsSet, Error>| #[trigger]
                    is_verdict(checked, jwt_token@, key, config.validation@.only(header.alg))
                        && match (r, checked) {
                        (Ok(claims), Ok(exact)) => claims@ == config.usable_claims(
                            exact@,
                            accept_language,
                        ),
                        (Err(err), Err(exact)) => err@ == exact@,
                        _ => false,
                    },
                Err(err) => r is Err && r->Err_0@ == err@.with_status(UNAUTHORIZED),
            },
    {
        match Self::validate_and_translate(jwt_token, header, decoding_key, config) {
            Ok(claims) => {
                let mut claims = claims;
                Self::inject_locale_if_missing(&mut claims, config, accept_language);
                Ok(claims)
            },
            Err(err) => Err(err),
        }
    }

    /// Strips a prefix from the names of claims, as often as a name starts with it. Where several
    /// claims come to the same name, the one that was last in the order of the names counts.
    pub fn translate_claims(claims: ClaimsSet, custom_claim_prefix: &str) -> (r: ClaimsSet)
        ensures
            r@ == translated(claims@, custom_claim_prefix@),
    {
        let entries = claims.into_entries();
        let ghost all = entries@;
        let ghost prefix = custom_claim_prefix@;
        let mut r = ClaimsSet::new();
        for entry in it: entries
            invariant
                it.seq() == all,
                prefix == custom_claim_prefix@,
                forall|name: Seq<char>| #[trigger]
                    r@.dom().contains(name) ==> exists|k: int|
                        0 <= k < it.index() && strip_all((#[trigger] all[k]).0@, prefix) == name,
                forall|k: int|
                    0 <= k < it.index() ==> r@.dom().contains(
                        strip_all((#[trigger] all[k]).0@, prefix),
                    ),
                forall|k: int|
                    0 <= k < it.index() && (forall|later: int|
                        k < later < it.index() ==> strip_all((#[trigger] all[later]).0@, prefix)
                            != strip_all(all[k].0@, prefix)) ==> r@[strip_all(
                        (#[trigger] all[k]).0@,
                        prefix,
                    )] == all[k].1@,
        {
            let ghost i = it.index() as int;
            let ghost before = r@;
            assert(all[i] == entry);
            let (key, value) = entry;
            let name = strip_all_str(key.as_str(), custom_claim_prefix).to_owned();
            r.insert(name, value);
            proof {
                assert forall|other: Seq<char>| #[trigger]
                    r@.dom().contains(other) implies exists|k: int|
                    0 <= k < i + 1 && strip_all((#[trigger] all[k]).0@, prefix) == other by {
                    if other == name@ {
                        assert(strip_all(all[i].0@, prefix) == other);
                    } else {
                        assert(before.dom().contains(other));
                    }
                }
                assert forall|k: int|
                    0 <= k < i + 1 && (forall|later: int|
                        k < later < i + 1 ==> strip_all((#[trigger] all[later]).0@, prefix)
                            != strip_all(all[k].0@, prefix)) implies r@[strip_all(
                    (#[trigger] all[k]).0@,
                    prefix,
                )] == all[k].1@ by {
                    if k < i {
                        assert(strip_all(all[i].0@, prefix) != strip_all(all[k].0@, prefix));
                        assert(before[strip_all(all[k].0@, prefix)] == all[k].1@);
                    }
                }
            }
        }
        proof {
            lemma_translated(claims@, prefix, all, r@);
        }
        r
    }

    /// The claims with the configured prefix stripped, if one is configured.
    pub fn translate(config: &AuthenticatorConfig, claims: ClaimsSet) -> (r: ClaimsSet)
        ensures
            r@ == config.bare_claims(claims@),
    {
        match &config.custom_claim_prefix {
            Some(prefix) => Self::translate_claims(claims, prefix.as_str()),
            None => claims,
        }
    }

    /// Ensures a `locale` claim is present, choosing the best one available.
    ///
    /// A token that already names a locale keeps it. Otherwise the request's `Accept-Language` is
    /// negotiated against the configured supported languages, so the caller is answered in a
    /// language they asked for *and* the deployment can actually produce, and only if that finds
    /// nothing (or no supported set was configured) does the deployment default apply. Injecting
    /// it here, once, is what lets every downstream `User::locale()` stay a single claim read.
    pub fn inject_locale_if_missing(
        claims: &mut ClaimsSet,
        config: &AuthenticatorConfig,
        accept_language: Option<&str>,
    )
        ensures
            final(claims)@ == with_locale(
                old(claims)@,
                string_views(config.supported_locales@),
                config.default_locale@,
                match accept_language {
                    Some(text) => Some(text@),
                    None => None,
                },
            ),
    {
        if claims.contains_key(CLAIM_LOCALE) {
            return;
        }
        let chosen = if config.supported_locales.len() == 0 {
            config.default_locale.clone()
        } else {
            let mut supported: Vec<&str> = Vec::new();
            let mut i: usize = 0;
            while i < config.supported_locales.len()
                invariant
                    i <= config.supported_locales@.len(),
                    supported@.len() == i,
                    forall|k: int|
                        0 <= k < i ==> (#[trigger] supported@[k])@ == config.supported_locales@[k]@,
                decreases config.supported_locales@.len() - i,
            {
                supported.push(config.supported_locales[i].as_str());
                i += 1;
            }
            assert(views(supported@) =~= string_views(config.supported_locales@));
            negotiate_language(
                accept_language,
                supported.as_slice(),
                config.default_locale.as_str(),
            )
        };
        claims.insert(CLAIM_LOCALE.to_owned(), Json::text(chosen.as_str()));
    }
}

/// Whether the claim `source` comes to be called `name` once the prefix is stripped.
pub open spec fn is_source(
    claims: Map<Seq<char>, JsonView>,
    prefix: Seq<char>,
    name: Seq<char>,
    source: Seq<char>,
) -> bool {
    claims.dom().contains(source) && strip_all(source, prefix) == name
}

/// Whether `source` is the last of the claims that come to be called `name`.
pub open spec fn is_last_source(
    claims: Map<Seq<char>, JsonView>,
    prefix: Seq<char>,
    name: Seq<char>,
    source: Seq<char>,
) -> bool {
    &&& is_source(claims, prefix, name, source)
    &&& forall|other: Seq<char>| #[trigger]
        is_source(claims, prefix, name, other) ==> other == source || before(other, source)
}

/// The claims with the prefix stripped from their names.
pub open spec fn translated(claims: Map<Seq<char>, JsonView>, prefix: Seq<char>) -> Map<
    Seq<char>,
    JsonView,
> {
    Map::new(
        |name: Seq<char>|
            exists|source: Seq<char>| #[trigger] is_last_source(claims, prefix, name, source),
        |name: Seq<char>|
            claims[choose|source: Seq<char>| #[trigger]
                is_last_source(claims, prefix, name, source)],
    )
}

proof fn lemma_translated(
    claims: Map<Seq<char>, JsonView>,
    prefix: Seq<char>,
    entries: Seq<(String, Json)>,
    result: Map<Seq<char>, JsonView>,
)
    requires
        ascending(entries),
        forall|i: int|
            0 <= i < entries.len() ==> claims.dom().contains((#[trigger] entries[i]).0@)
                && claims[entries[i].0@] == entries[i].1@,
        forall|k: Seq<char>| #[trigger]
            claims.dom().contains(k) ==> exists|i: int|
                0 <= i < entries.len() && #[trigger] entries[i].0@ == k,
        forall|name: Seq<char>| #[trigger]
            result.dom().contains(name) ==> exists|k: int|
                0 <= k < entries.len() && strip_all((#[trigger] entries[k]).0@, prefix) == name,
        forall|k: int|
            0 <= k < entries.len() ==> result.dom().contains(
                strip_all((#[trigger] entries[k]).0@, prefix),
            ),
        forall|k: int|
            0 <= k < entries.len() && (forall|later: int|
                k < later < entries.len() ==> strip_all((#[trigger] entries[later]).0@, prefix)
                    != strip_all(entries[k].0@, prefix)) ==> result[strip_all(
                (#[trigger] entries[k]).0@,
                prefix,
            )] == entries[k].1@,
    ensures
        result == translated(claims, prefix),
{
    let expected = translated(claims, prefix);
    assert forall|name: Seq<char>| #[trigger] result.dom().contains(name) implies expected.dom().contains(
        name,
    ) && expected[name] == result[name] by {
        let k = choose|k: int|
            0 <= k < entries.len() && strip_all((#[trigger] entries[k]).0@, prefix) == name;
        let last = lemma_last_with(entries, prefix, name, k);
        let source = entries[last].0@;
        assert forall|other: Seq<char>| #[trigger] is_source(claims, prefix, name, other) implies other
            == source || before(other, source) by {
            let i = choose|i: int| 0 <= i < entries.len() && #[trigger] entries[i].0@ == other;
            if i < last {
                assert(before(entries[i].0@, entries[last].0@));
            } else if i > last {
                assert(strip_all(entries[i].0@, prefix) != name);
            }
        }
        assert(is_last_source(claims, prefix, name, source));
        let chosen = choose|chosen: Seq<char>| #[trigger]
            is_last_source(claims, prefix, name, chosen);
        if chosen != source {
            assert(is_source(claims, prefix, name, chosen));
            assert(is_source(claims, prefix, name, source));
            assert(before(chosen, source) && before(source, chosen));
            lemma_before_transitive(chosen, source, chosen);
            lemma_before_irreflexive(chosen);
        }
    }
    assert forall|name: Seq<char>| #[trigger] expected.dom().contains(name) implies result.dom().contains(
        name,
    ) by {
        let source = choose|source: Seq<char>| #[trigger]
            is_last_source(claims, prefix, name, source);
        let i = choose|i: int| 0 <= i < entries.len() && #[trigger] entries[i].0@ == source;
        assert(result.dom().contains(strip_all(entries[i].0@, prefix)));
    }
    assert(result =~= expected);
}

proof fn lemma_last_with(
    entries: Seq<(String, Json)>,
    prefix: Seq<char>,
    name: Seq<char>,
    k: int,
) -> (last: int)
    requires
        0 <= k < entries.len(),
        strip_all(entries[k].0@, prefix) == name,
    ensures
        k <= last < entries.len(),
        strip_all(entries[last].0@, prefix) == name,
        forall|later: int|
            last < later < entries.len() ==> strip_all((#[trigger] entries[later]).0@, prefix)
                != name,
    decreases entries.len() - k,
{
    if exists|later: int|
        k < later < entries.len() && strip_all((#[trigger] entries[later]).0@, prefix) == name {
        let later = choose|later: int|
            k < later < entries.len() && strip_all((#[trigger] entries[later]).0@, prefix) == name;
        lemma_last_with(entries, prefix, name, later)
    } else {
        k
    }
}

/// The claims with a locale: the one they name, else the one negotiated for the request, else the
/// default.
pub open spec fn with_locale(
    claims: Map<Seq<char>, JsonView>,
    supported: Seq<Seq<char>>,
    default: Seq<char>,
    accept_language: Option<Seq<char>>,
) -> Map<Seq<char>, JsonView> {
    if claims.dom().contains(CLAIM_LOCALE@) {
        claims
    } else {
        claims.insert(
            CLAIM_LOCALE@,
            JsonView::Text(
                if supported.len() == 0 {
                    default
                } else {
                    negotiated(accept_language, supported, default)
                },
            ),
        )
    }
}

/// Where the key of a token is to be had, given the claims in its payload, or why that cannot be
/// said: the token has no header, names an algorithm that is not allowed, or comes from an issuer
/// that is not known.
pub open spec fn key_choice(
    rules: ValidationView,
    strategy: StrategyView,
    claims: Map<Seq<char>, JsonView>,
    token: Seq<char>,
) -> Result<(HeaderView, KeySourceView), ErrorView> {
    match header_of(token) {
        Err(err) => Err(err),
        Ok(header) => if !rules.any_algorithm && !rules.algorithms.contains(header.alg) {
            Err(
                status_error(
                    UNAUTHORIZED,
                    "Invalid JWT present: Unsupported algorithm: "@ + algorithm_name(header.alg),
                ),
            )
        } else {
            match strategy {
                StrategyView::Static(source) => Ok((header, source)),
                StrategyView::PerIssuer(sources) => match claim_text(claims, CLAIM_ISS@) {
                    Some(iss) if sources.dom().contains(iss) => Ok((header, sources[iss])),
                    _ => Err(
                        status_error(UNAUTHORIZED, "Invalid issuer or missing configuration"@),
                    ),
                },
            }
        },
    }
}

/// Whether `r` is what verifying a token at the time `now` comes to: the claims of a token that is
/// admitted, or the message as an error of status 401.
pub open spec fn is_verdict_at(
    r: Result<ClaimsSet, Error>,
    token: Seq<char>,
    key: DecodingKey,
    rules: ValidationView,
    now: u64,
) -> bool {
    match (r, decoded_token(token, key, rules, now)) {
        (Ok(claims), Ok(exact)) => claims@ == exact && is_admitted(token, rules, exact, now),
        (Err(err), Err(message)) => err@ == unauthorized_error("Invalid JWT present"@, message),
        _ => false,
    }
}

/// Whether `r` is what verifying a token comes to: a refusal where the key is too short for the
/// algorithm, else the outcome at some time.
pub open spec fn is_verdict(
    r: Result<ClaimsSet, Error>,
    token: Seq<char>,
    key: DecodingKey,
    rules: ValidationView,
) -> bool {
    if is_unusable(key, rules) {
        r is Err && r->Err_0@ == unauthorized_error("Invalid JWT present"@, "InvalidEddsaKey"@)
    } else {
        exists|now: u64| #[trigger] is_verdict_at(r, token, key, rules, now)
    }
}

/// Every validated user has a locale, and apart from that the claims of the token.
pub proof fn law_locale_is_always_present(
    claims: Map<Seq<char>, JsonView>,
    supported: Seq<Seq<char>>,
    default: Seq<char>,
    accept_language: Option<Seq<char>>,
)
    ensures
        with_locale(claims, supported, default, accept_language).dom().contains(CLAIM_LOCALE@),
        claims.dom().contains(CLAIM_LOCALE@) ==> with_locale(
            claims,
            supported,
            default,
            accept_language,
        ) == claims,
        with_locale(claims, supported, default, accept_language).remove(CLAIM_LOCALE@)
            == claims.remove(CLAIM_LOCALE@),
{
    assert(with_locale(claims, supported, default, accept_language).remove(CLAIM_LOCALE@)
        =~= claims.remove(CLAIM_LOCALE@));
}

/// With no supported languages or no header, a user whose token names no locale gets the default.
pub proof fn law_default_locale_without_negotiation(
    claims: Map<Seq<char>, JsonView>,
    supported: Seq<Seq<char>>,
    default: Seq<char>,
    accept_language: Option<Seq<char>>,
)
    requires
        supported.len() == 0 || accept_language is None,
        !claims.dom().contains(CLAIM_LOCALE@),
    ensures
        with_locale(claims, supported, default, accept_language)[CLAIM_LOCALE@] == JsonView::Text(
            default,
        ),
{
}

/// An injected locale is the default or one of the supported languages.
pub proof fn law_injected_locale_is_offered(
    claims: Map<Seq<char>, JsonView>,
    supported: Seq<Seq<char>>,
    default: Seq<char>,
    accept_language: Option<Seq<char>>,
)
    requires
        !claims.dom().contains(CLAIM_LOCALE@),
    ensures
        ({
            let locale = with_locale(
                claims,
                supported,
                default,
                accept_language,
            )[CLAIM_LOCALE@];
            locale is Text && (locale->Text_0 == default || supported.contains(locale->Text_0))
        }),
{
    law_answer_is_offered(accept_language, supported, default);
}

proof fn lemma_stripped(s: Seq<char>, prefix: Seq<char>)
    requires
        prefix.len() > 0,
    ensures
        !starts_with(strip_all(s, prefix), prefix),
    decreases s.len(),
{
    if starts_with(s, prefix) {
        lemma_stripped(s.skip(prefix.len() as int), prefix);
    }
}

/// Once the claims are translated, no name starts with the prefix any more.
pub proof fn law_no_prefix_is_left(
    claims: Map<Seq<char>, JsonView>,
    prefix: Seq<char>,
    name: Seq<char>,
)
    requires
        prefix.len() > 0,
        translated(claims, prefix).dom().contains(name),
    ensures
        !starts_with(name, prefix),
{
    let source = choose|source: Seq<char>| #[trigger] is_last_source(claims, prefix, name, source);
    lemma_stripped(source, prefix);
}

/// A claim whose name does not start with the prefix is left as it is, unless the name of another
/// claim comes to be the same.
pub proof fn law_other_claims_are_unchanged(
    claims: Map<Seq<char>, JsonView>,
    prefix: Seq<char>,
    name: Seq<char>,
)
    requires
        claims.dom().contains(name),
        !starts_with(name, prefix),
        forall|other: Seq<char>| #[trigger] is_source(claims, prefix, name, other) ==> other == name,
    ensures
        translated(claims, prefix).dom().contains(name),
        translated(claims, prefix)[name] == claims[name],
{
    assert(is_source(claims, prefix, name, name));
    assert(is_last_source(claims, prefix, name, name));
    let source = choose|source: Seq<char>| #[trigger] is_last_source(claims, prefix, name, source);
    assert(is_source(claims, prefix, name, source));
}

/// A locale that the token names is the one of the user, whatever the request asks for, unless the
/// prefix changes its name or gives its name to another claim.
pub proof fn law_locale_of_the_token_is_kept(
    config: AuthenticatorConfig,
    claims: Map<Seq<char>, JsonView>,
    accept_language: Option<&str>,
)
    requires
        claims.dom().contains(CLAIM_LOCALE@),
        config.custom_claim_prefix is Some ==> {
            let prefix = config.custom_claim_prefix->0@;
            &&& strip_all(CLAIM_LOCALE@, prefix) == CLAIM_LOCALE@
            &&& forall|other: Seq<char>| #[trigger]
                is_source(claims, prefix, CLAIM_LOCALE@, other) ==> other == CLAIM_LOCALE@
        },
    ensures
        config.usable_claims(claims, accept_language).dom().contains(CLAIM_LOCALE@),
        config.usable_claims(claims, accept_language)[CLAIM_LOCALE@] == claims[CLAIM_LOCALE@],
{
    if let Some(prefix) = config.custom_claim_prefix {
        let name = CLAIM_LOCALE@;
        assert(is_source(claims, prefix@, name, name));
        assert(is_last_source(claims, prefix@, name, name));
        let source = choose|source: Seq<char>| #[trigger]
            is_last_source(claims, prefix@, name, source);
        assert(is_source(claims, prefix@, name, source));
    }
}

/// Whatever is wrong with a token, the answer has the status 401.
pub proof fn law_refusals_are_unauthorized(
    rules: ValidationView,
    strategy: StrategyView,
    claims: Map<Seq<char>, JsonView>,
    token: Seq<char>,
)
    ensures
        key_choice(rules, strategy, claims, token) is Err ==> key_choice(
            rules,
            strategy,
            claims,
            token,
        )->Err_0.response().status == UNAUTHORIZED,
        payload_claims(token) is Err ==> payload_claims(token)->Err_0.with_context(
            "Invalid JWT present"@,
        ).with_status(UNAUTHORIZED).response().status == UNAUTHORIZED,
        forall|message: Seq<char>|
            (#[trigger] unauthorized_error("Invalid JWT present"@, message)).response().status
                == UNAUTHORIZED,
{
}

/// A token that was signed with a secret finds the key of an authenticator that has the same
/// secret and allows the algorithm, and with that key it is accepted, as long as it has not
/// expired and names no issuer or one of those asked for, and no audience is asked for.
pub proof fn law_signed_token_is_accepted(
    token: Seq<char>,
    claims: Map<Seq<char>, JsonView>,
    alg: Algorithm,
    secret: Seq<u8>,
    rules: ValidationView,
    now: u64,
)
    requires
        is_signed_token(token, claims, alg, secret),
        rules.any_algorithm || rules.algorithms.contains(alg),
        is_acceptable(claims, alg, rules.only(alg), now),
    ensures
        payload_claims(token) == Ok::<Map<Seq<char>, JsonView>, ErrorView>(claims),
        key_choice(
            rules,
            StrategyView::Static(KeySourceView::Hmac(secret_key(secret))),
            claims,
            token,
        ) == Ok::<(HeaderView, KeySourceView), ErrorView>(
            (
                HeaderView { alg, kid: None },
                KeySourceView::Hmac(secret_key(secret)),
            ),
        ),
        !is_unusable(secret_key(secret), rules.only(alg)),
        decoded_token(token, secret_key(secret), rules.only(alg), now) == Ok::<
            Map<Seq<char>, JsonView>,
            Seq<char>,
        >(claims),
{
    let named = choose|named: Algorithm| #[trigger] algorithm_name(named) == algorithm_name(alg);
    law_algorithm_names_differ(named, alg);
}

proof fn lemma_nothing_listed(values: Seq<char>, item: Seq<char>)
    requires
        values.len() == 0,
    ensures
        !is_listed(values, item),
{
    lemma_split_whole(values, ',');
    lemma_split_whole(values, ';');
    if is_listed(values, item) {
        let (i, j) = choose|i: int, j: int| #[trigger] listed_at(values, i, j) == Some(item);
        lemma_trim_nothing(values);
    }
}

/// Where no algorithms are listed, a token of any algorithm is looked at, and where no audience is
/// listed, none is asked for.
pub proof fn law_nothing_listed_is_no_restriction(
    rules: ValidationView,
    algorithms: Seq<char>,
    issuers: Set<Seq<char>>,
    audience: Seq<char>,
)
    requires
        is_validation_for(rules, algorithms, issuers, audience),
    ensures
        algorithms.len() == 0 ==> rules.any_algorithm,
        audience.len() == 0 ==> rules.aud is None && !rules.validate_aud,
{
    if algorithms.len() == 0 {
        assert forall|item: Seq<char>| !listed(algorithms).contains(item) by {
            lemma_nothing_listed(algorithms, item);
        }
        assert(listed(algorithms) =~= Set::empty());
    }
    if audience.len() == 0 {
        assert forall|item: Seq<char>| !listed(audience).contains(item) by {
            lemma_nothing_listed(audience, item);
        }
        assert(listed(audience) =~= Set::empty());
    }
}

/// Where an algorithm is listed, known or not, a token whose algorithm is not listed is refused.
pub proof fn law_listed_algorithms_restrict(
    rules: ValidationView,
    algorithms: Seq<char>,
    issuers: Set<Seq<char>>,
    audience: Seq<char>,
    item: Seq<char>,
    strategy: StrategyView,
    claims: Map<Seq<char>, JsonView>,
    token: Seq<char>,
)
    requires
        is_validation_for(rules, algorithms, issuers, audience),
        is_listed(algorithms, item),
        header_of(token) is Ok,
        !is_listed(algorithms, algorithm_name(header_of(token)->Ok_0.alg)),
    ensures
        key_choice(rules, strategy, claims, token) == Err::<(HeaderView, KeySourceView), ErrorView>(
            status_error(
                UNAUTHORIZED,
                "Invalid JWT present: Unsupported algorithm: "@ + algorithm_name(
                    header_of(token)->Ok_0.alg,
                ),
            ),
        ),
{
    assert(listed(algorithms).contains(item));
}

proof fn lemma_free_of(s: Seq<char>, c: char)
    requires
        !s.contains(c),
    ensures
        forall|i: int| 0 <= i < s.len() ==> s[i] != c,
{
    assert forall|i: int| 0 <= i < s.len() implies s[i] != c by {
        assert(s.contains(s[i]));
    }
}

/// An entry of the list of issuers is an issuer and, behind the first `=`, its configuration,
/// whatever that contains; an entry without `=` has none. Each entry adds to those before it.
pub proof fn law_issuer_entries(list: Seq<char>, name: Seq<char>, config: Seq<char>)
    requires
        !name.contains('='),
        !name.contains(','),
        !config.contains(','),
    ensures
        ({
            let entry = name + seq!['='] + config;
            let none = Map::<Seq<char>, Seq<char>>::empty();
            &&& issuer_configs(split(entry, ',')) == none.insert(name, config)
            &&& issuer_configs(split(list + seq![','] + entry, ',')) == issuer_configs(
                split(list, ','),
            ).insert(name, config)
            &&& issuer_configs(split(name, ',')) == none.insert(name, Seq::<char>::empty())
            &&& issuer_configs(split(list + seq![','] + name, ',')) == issuer_configs(
                split(list, ','),
            ).insert(name, Seq::<char>::empty())
        }),
{
    let entry = name + seq!['='] + config;
    lemma_free_of(name, ',');
    lemma_free_of(config, ',');
    assert forall|i: int| 0 <= i < entry.len() implies entry[i] != ',' by {
        if i < name.len() {
            assert(entry[i] == name[i]);
        } else if i > name.len() {
            assert(entry[i] == config[i - name.len() - 1]);
        }
    }
    lemma_split_whole(entry, ',');
    lemma_split_whole(name, ',');
    lemma_split_concat(list, entry, ',');
    lemma_split_concat(list, name, ',');
    law_split_once_cuts_at_the_first_separator(name, config, '=');
    let before = split(list, ',');
    lemma_last_issuer(before, entry, name, config);
    lemma_last_issuer(before, name, name, Seq::empty());
    lemma_last_issuer(Seq::empty(), entry, name, config);
    lemma_last_issuer(Seq::empty(), name, name, Seq::empty());
    let none = Seq::<Seq<char>>::empty();
    assert(none + seq![entry] =~= seq![entry]);
    assert(none + seq![name] =~= seq![name]);
    assert(issuer_configs(none) =~= Map::empty());
}

proof fn lemma_last_issuer(
    before: Seq<Seq<char>>,
    entry: Seq<char>,
    name: Seq<char>,
    config: Seq<char>,
)
    requires
        split_once(entry, '=') == Some((name, config)) || (split_once(entry, '=') is None && entry
            == name && config == Seq::<char>::empty()),
    ensures
        issuer_configs(before + seq![entry]) == issuer_configs(before).insert(name, config),
{
    let all = before + seq![entry];
    assert(all.drop_last() =~= before);
    assert(all.last() == entry);
}

/// Whether the configuration of the environment consists of one issuer with the given settings.
pub open spec fn is_single_issuer(issuer: Seq<char>, name: Seq<char>, config: Seq<char>) -> bool {
    &&& !name.contains('=')
    &&& !name.contains(',')
    &&& !config.contains(',')
    &&& issuer == name + seq!['='] + config
}

proof fn lemma_single_issuer(
    shared: Option<DecodingKey>,
    issuer: Seq<char>,
    name: Seq<char>,
    config: Seq<char>,
    strategy: StrategyView,
    err: ErrorView,
)
    requires
        is_single_issuer(issuer, name, config),
    ensures
        ({
            let configs = issuer_configs(split(issuer, ','));
            &&& configs.dom() == Set::<Seq<char>>::empty().insert(name)
            &&& all_share_secret(configs) == uses_shared_secret(config)
            &&& !uses_shared_secret(config) && is_strategy_for(strategy, configs, shared)
                ==> source_for(name, config, shared) is Ok && strategy == StrategyView::PerIssuer(
                Map::<Seq<char>, KeySourceView>::empty().insert(
                    name,
                    source_for(name, config, shared)->Ok_0,
                ),
            )
            &&& !uses_shared_secret(config) && is_strategy_error(err, configs, shared)
                ==> source_for(name, config, shared) == Err::<KeySourceView, ErrorView>(err)
        }),
{
    law_issuer_entries(Seq::empty(), name, config);
    let configs = issuer_configs(split(issuer, ','));
    assert(configs.dom() =~= Set::<Seq<char>>::empty().insert(name));
    assert(configs.dom().contains(name) && configs[name] == config);
    if !uses_shared_secret(config) && is_strategy_for(strategy, configs, shared) {
        let map = strategy->PerIssuer_0;
        assert(map =~= Map::<Seq<char>, KeySourceView>::empty().insert(
            name,
            source_for(name, config, shared)->Ok_0,
        ));
    }
}

/// An issuer whose configuration is `jwks:` and an address has its keys from exactly that address,
/// whatever the address contains. A path counts from the address of the issuer, which loses the
/// slashes around it.
pub proof fn law_jwks_address_is_taken_whole(
    secret: Option<&str>,
    algorithms: &str,
    issuer: &str,
    audience: &str,
    default_locale: String,
    prefix: Option<String>,
    r: Result<AuthenticatorConfig, Error>,
    name: Seq<char>,
    url: Seq<char>,
    m: nat,
    core: Seq<char>,
    n: nat,
)
    requires
        call_ensures(
            AuthenticatorConfig::from_env_style_config,
            (secret, algorithms, issuer, audience, default_locale, prefix),
            r,
        ),
        is_single_issuer(issuer@, name, seq!['j', 'w', 'k', 's', ':'] + url),
        url.len() > 0 && url[0] == '/' ==> {
            &&& core.len() > 0 && core[0] != '/' && core.last() != '/'
            &&& name == repeated(seq!['/'], m) + core + repeated(seq!['/'], n)
        },
    ensures
        r is Ok,
        r->Ok_0.key_fetcher@ == StrategyView::PerIssuer(
            Map::<Seq<char>, KeySourceView>::empty().insert(
                name,
                KeySourceView::Jwks(
                    if url.len() > 0 && url[0] == '/' {
                        core + url
                    } else {
                        url
                    },
                ),
            ),
        ),
        r->Ok_0.validation@.iss == Set::<Seq<char>>::empty().insert(name),
{
    let config = seq!['j', 'w', 'k', 's', ':'] + url;
    let shared = shared_key(secret);
    reveal_strlit("jwks:");
    reveal_strlit("secret");
    assert("jwks:"@ =~= seq!['j', 'w', 'k', 's', ':']);
    assert(config[0] == 'j');
    assert(!uses_shared_secret(config));
    law_prefix_comes_first(config, "jwks:"@, url);
    assert(config.skip(5) =~= url);
    if url.len() > 0 && url[0] == '/' {
        law_character_is_trimmed_at_both_ends(m, core, n, '/');
    }
    if r is Ok {
        lemma_single_issuer(
            shared,
            issuer@,
            name,
            config,
            r->Ok_0.key_fetcher@,
            plain(Seq::empty()),
        );
    } else {
        lemma_single_issuer(
            shared,
            issuer@,
            name,
            config,
            StrategyView::Static(KeySourceView::Custom(0)),
            r->Err_0@,
        );
    }
}

/// Any other configuration without a colon is a secret of the issuer's own, taken whole; with a
/// colon it is no configuration.
pub proof fn law_own_secret_is_taken_whole(
    secret: Option<&str>,
    algorithms: &str,
    issuer: &str,
    audience: &str,
    default_locale: String,
    prefix: Option<String>,
    r: Result<AuthenticatorConfig, Error>,
    name: Seq<char>,
    config: Seq<char>,
)
    requires
        call_ensures(
            AuthenticatorConfig::from_env_style_config,
            (secret, algorithms, issuer, audience, default_locale, prefix),
            r,
        ),
        is_single_issuer(issuer@, name, config),
        config.len() > 0,
        config != "secret"@,
        !starts_with(config, "jwks:"@),
    ensures
        !config.contains(':') ==> {
            &&& r is Ok
            &&& r->Ok_0.key_fetcher@ == StrategyView::PerIssuer(
                Map::<Seq<char>, KeySourceView>::empty().insert(
                    name,
                    KeySourceView::Hmac(secret_key(encode_utf8(config))),
                ),
            )
        },
        config.contains(':') ==> r is Err,
{
    let shared = shared_key(secret);
    if r is Ok {
        lemma_single_issuer(
            shared,
            issuer@,
            name,
            config,
            r->Ok_0.key_fetcher@,
            plain(Seq::empty()),
        );
    } else {
        lemma_single_issuer(
            shared,
            issuer@,
            name,
            config,
            StrategyView::Static(KeySourceView::Custom(0)),
            r->Err_0@,
        );
    }
}

/// Where no issuer has a configuration of its own, the shared secret is the key for all of them, and
/// without it there is no configuration.
pub proof fn law_shared_secret_is_for_all(
    secret: Option<&str>,
    algorithms: &str,
    issuer: &str,
    audience: &str,
    default_locale: String,
    prefix: Option<String>,
    r: Result<AuthenticatorConfig, Error>,
)
    requires
        call_ensures(
            AuthenticatorConfig::from_env_style_config,
            (secret, algorithms, issuer, audience, default_locale, prefix),
            r,
        ),
        !issuer@.contains('='),
    ensures
        r is Ok <==> secret is Some,
        r is Ok ==> r->Ok_0.key_fetcher@ == StrategyView::Static(
            KeySourceView::Hmac(secret_key(secret->0.spec_bytes())),
        ),
        r is Ok ==> forall|name: Seq<char>| #[trigger]
            r->Ok_0.validation@.iss.contains(name) <==> split(issuer@, ',').contains(name),
{
    let entries = split(issuer@, ',');
    assert forall|i: int| 0 <= i < entries.len() implies !(#[trigger] entries[i]).contains('=') by {
        lemma_split_piece(issuer@, ',', i);
    }
    lemma_plain_issuers(entries);
    assert(all_share_secret(issuer_configs(entries)));
}

proof fn lemma_plain_issuers(entries: Seq<Seq<char>>)
    requires
        forall|i: int| 0 <= i < entries.len() ==> !(#[trigger] entries[i]).contains('='),
    ensures
        forall|name: Seq<char>| #[trigger]
            issuer_configs(entries).dom().contains(name) <==> entries.contains(name),
        forall|name: Seq<char>| #[trigger]
            issuer_configs(entries).dom().contains(name) ==> issuer_configs(entries)[name].len()
                == 0,
    decreases entries.len(),
{
    if entries.len() > 0 {
        let rest = entries.drop_last();
        let last = entries.last();
        assert(!entries[entries.len() - 1].contains('='));
        assert forall|i: int| 0 <= i < rest.len() implies !(#[trigger] rest[i]).contains('=') by {
            assert(rest[i] == entries[i]);
        }
        lemma_plain_issuers(rest);
        law_split_once_cuts_at_the_first_separator(last, Seq::empty(), '=');
        lemma_last_issuer(rest, last, last, Seq::empty());
        assert(rest + seq![last] =~= entries);
        assert forall|name: Seq<char>| #[trigger]
            issuer_configs(entries).dom().contains(name) <==> entries.contains(name) by {
            if entries.contains(name) {
                let i = choose|i: int| 0 <= i < entries.len() && entries[i] == name;
                if i < rest.len() {
                    assert(rest[i] == name);
                }
            }
            if rest.contains(name) {
                let i = choose|i: int| 0 <= i < rest.len() && rest[i] == name;
                assert(entries[i] == name);
            }
            if name == last {
                assert(entries[entries.len() - 1] == name);
            }
        }
    }
}

/// Of several issuers each has the source that its own configuration names.
pub proof fn law_each_issuer_has_its_own_source(
    secret: Option<&str>,
    algorithms: &str,
    issuer: &str,
    audience: &str,
    default_locale: String,
    prefix: Option<String>,
    r: Result<AuthenticatorConfig, Error>,
    name: Seq<char>,
)
    requires
        call_ensures(
            AuthenticatorConfig::from_env_style_config,
            (secret, algorithms, issuer, audience, default_locale, prefix),
            r,
        ),
        r is Ok,
        r->Ok_0.key_fetcher@ is PerIssuer,
    ensures
        ({
            let configs = issuer_configs(split(issuer@, ','));
            let sources = r->Ok_0.key_fetcher@->PerIssuer_0;
            &&& sources.dom().contains(name) <==> configs.dom().contains(name)
            &&& r->Ok_0.validation@.iss.contains(name) <==> configs.dom().contains(name)
            &&& configs.dom().contains(name) ==> source_for(
                name,
                configs[name],
                shared_key(secret),
            ) == Ok::<KeySourceView, ErrorView>(sources[name])
        }),
        r->Ok_0.default_locale == default_locale,
        r->Ok_0.custom_claim_prefix == prefix,
        r->Ok_0.supported_locales@.len() == 0,
{
}

/// Whether one of the values between semicolons is `item`.
spec fn piece_lists(part: Seq<char>, item: Seq<char>) -> bool {
    exists|j: int| 0 <= j < split(part, ';').len() && trim(#[trigger] split(part, ';')[j]) == item
}

/// Whether one of several parts lists `item`.
spec fn any_lists(parts: Seq<Seq<char>>, item: Seq<char>) -> bool {
    exists|i: int| 0 <= i < parts.len() && piece_lists(#[trigger] parts[i], item)
}

proof fn lemma_any_lists(a: Seq<Seq<char>>, b: Seq<Seq<char>>, item: Seq<char>)
    ensures
        any_lists(a + b, item) <==> any_lists(a, item) || any_lists(b, item),
{
    let z = a + b;
    if any_lists(a, item) {
        let i = choose|i: int| 0 <= i < a.len() && piece_lists(#[trigger] a[i], item);
        assert(piece_lists(z[i], item));
    }
    if any_lists(b, item) {
        let i = choose|i: int| 0 <= i < b.len() && piece_lists(#[trigger] b[i], item);
        assert(piece_lists(z[i + a.len()], item));
    }
    if any_lists(z, item) {
        let i = choose|i: int| 0 <= i < z.len() && piece_lists(#[trigger] z[i], item);
        if i < a.len() {
            assert(piece_lists(a[i], item));
        } else {
            assert(piece_lists(b[i - a.len()], item));
        }
    }
}

proof fn lemma_one_lists(part: Seq<char>, item: Seq<char>)
    ensures
        any_lists(seq![part], item) <==> piece_lists(part, item),
{
    let one = seq![part];
    assert(one[0] == part);
    if piece_lists(part, item) {
        assert(piece_lists(one[0], item));
    }
}

proof fn lemma_listed_by_piece(values: Seq<char>, item: Seq<char>)
    ensures
        is_listed(values, item) <==> item.len() > 0 && any_lists(split(values, ','), item),
{
    let parts = split(values, ',');
    if is_listed(values, item) {
        let (i, j) = choose|i: int, j: int| #[trigger] listed_at(values, i, j) == Some(item);
        assert(trim(split(parts[i], ';')[j]) == item);
        assert(piece_lists(parts[i], item));
    }
    if item.len() > 0 && any_lists(parts, item) {
        let i = choose|i: int| 0 <= i < parts.len() && piece_lists(#[trigger] parts[i], item);
        let j = choose|j: int|
            0 <= j < split(parts[i], ';').len() && trim(#[trigger] split(parts[i], ';')[j]) == item;
        assert(listed_at(values, i, j) == Some(item));
    }
}

proof fn lemma_piece_concat(a: Seq<char>, b: Seq<char>, item: Seq<char>)
    ensures
        piece_lists(a + seq![';'] + b, item) <==> piece_lists(a, item) || piece_lists(b, item),
{
    lemma_split_concat(a, b, ';');
    let x = split(a, ';');
    let y = split(b, ';');
    let z = x + y;
    if piece_lists(a, item) {
        let j = choose|j: int| 0 <= j < x.len() && trim(#[trigger] x[j]) == item;
        assert(z[j] == x[j]);
    }
    if piece_lists(b, item) {
        let j = choose|j: int| 0 <= j < y.len() && trim(#[trigger] y[j]) == item;
        assert(z[j + x.len()] == y[j]);
    }
    if piece_lists(a + seq![';'] + b, item) {
        let j = choose|j: int| 0 <= j < z.len() && trim(#[trigger] z[j]) == item;
        if j < x.len() {
            assert(x[j] == z[j]);
        } else {
            assert(y[j - x.len()] == z[j]);
        }
    }
}

/// Commas and semicolons separate the values of a list: two lists with one of these between them list
/// what either of them lists.
pub proof fn law_lists_are_put_together(a: Seq<char>, b: Seq<char>, item: Seq<char>)
    ensures
        is_listed(a + seq![','] + b, item) <==> is_listed(a, item) || is_listed(b, item),
        is_listed(a + seq![';'] + b, item) <==> is_listed(a, item) || is_listed(b, item),
{
    lemma_listed_by_piece(a, item);
    lemma_listed_by_piece(b, item);
    lemma_listed_by_piece(a + seq![','] + b, item);
    lemma_listed_by_piece(a + seq![';'] + b, item);
    let x = split(a, ',');
    let y = split(b, ',');
    lemma_split_concat(a, b, ',');
    lemma_any_lists(x, y, item);
    let semi = seq![';'] + b;
    assert(a + seq![';'] + b =~= a + semi);
    lemma_split_glue(a, semi, ',');
    lemma_split_prefix(seq![';'], b, ',');
    let glued = x.last() + seq![';'] + y[0];
    assert(x.last() + (seq![';'] + y[0]) =~= glued);
    assert(split(semi, ',').drop_first() =~= y.drop_first());
    let left = x.drop_last();
    let right = y.drop_first();
    lemma_any_lists(left + seq![glued], right, item);
    lemma_any_lists(left, seq![glued], item);
    lemma_one_lists(glued, item);
    lemma_piece_concat(x.last(), y[0], item);
    lemma_any_lists(left, seq![x.last()], item);
    lemma_one_lists(x.last(), item);
    assert(left + seq![x.last()] =~= x);
    lemma_any_lists(seq![y[0]], right, item);
    lemma_one_lists(y[0], item);
    assert(seq![y[0]] + right =~= y);
}

/// A value on its own lists itself and nothing else, whatever white space is around it, and white
/// space lists nothing.
pub proof fn law_a_value_lists_itself(
    w: Seq<char>,
    value: Seq<char>,
    v: Seq<char>,
    item: Seq<char>,
)
    requires
        is_blank(w),
        is_blank(v),
        !value.contains(','),
        !value.contains(';'),
        value.len() > 0 ==> !is_white_space(value[0]) && !is_white_space(value[value.len() - 1]),
    ensures
        is_listed(w + value + v, item) <==> value.len() > 0 && item == value,
{
    let text = w + value + v;
    lemma_free_of(value, ',');
    lemma_free_of(value, ';');
    assert forall|i: int| 0 <= i < text.len() implies text[i] != ',' && text[i] != ';' by {
        if i < w.len() {
            assert(is_white_space(w[i]));
        } else if i < w.len() + value.len() {
            assert(text[i] == value[i - w.len()]);
        } else {
            assert(is_white_space(v[i - w.len() - value.len()]));
        }
    }
    lemma_split_whole(text, ',');
    lemma_split_whole(text, ';');
    law_trim_takes_the_white_space_around(w, value, v);
    assert(split(text, ',')[0] == text);
    assert(listed_at(text, 0, 0) == Some(value));
    if is_listed(text, item) {
        let (i, j) = choose|i: int, j: int| #[trigger] listed_at(text, i, j) == Some(item);
        assert(i == 0 && j == 0);
    }
}

/// The rules for tokens follow the lists: exactly the listed algorithms, issuers and audiences are
/// allowed, the audience counts where one is listed, and so does the earliest time of use.
pub proof fn law_rules_follow_the_lists(
    rules: ValidationView,
    algorithms: Seq<char>,
    issuers: Set<Seq<char>>,
    audience: Seq<char>,
    alg: Algorithm,
    item: Seq<char>,
)
    requires
        is_validation_for(rules, algorithms, issuers, audience),
    ensures
        rules.algorithms.contains(alg) <==> is_listed(algorithms, algorithm_name(alg)),
        is_listed(algorithms, item) ==> !rules.any_algorithm,
        rules.iss.contains(item) <==> issuers.contains(item),
        is_listed(audience, item) ==> rules.validate_aud,
        rules.aud is Some && rules.aud->0.contains(item) <==> is_listed(audience, item),
        rules.validate_aud ==> rules.aud is Some,
        rules.validate_nbf,
{
    assert(listed(algorithms).contains(item) <==> is_listed(algorithms, item));
    assert(listed(audience).contains(item) <==> is_listed(audience, item));
}

/// However a configuration is made, its rules are those for the lists it is made of.
pub proof fn law_configurations_keep_their_lists(
    algorithms: Option<&str>,
    issuers: TextSet,
    audience: Option<&str>,
    default_locale: String,
    prefix: Option<String>,
    source: KeySource,
    made: AuthenticatorConfig,
    secret: &str,
    simple: Authenticator,
)
    requires
        call_ensures(
            AuthenticatorConfig::new,
            (algorithms, issuers, audience, default_locale, prefix, source),
            made,
        ),
        call_ensures(Authenticator::with_simple_secret, (secret,), simple),
    ensures
        algorithms is None ==> made.validation@.any_algorithm,
        algorithms is Some ==> forall|alg: Algorithm| #[trigger]
            made.validation@.algorithms.contains(alg) <==> is_listed(
                algorithms->0@,
                algorithm_name(alg),
            ),
        made.validation@.iss == issuers@,
        audience is None ==> !made.validation@.validate_aud,
        audience is Some ==> forall|item: Seq<char>| #[trigger]
            is_listed(audience->0@, item) ==> made.validation@.validate_aud
                && made.validation@.aud->0.contains(item),
        made.default_locale == default_locale,
        made.custom_claim_prefix == prefix,
        made.key_fetcher@ == StrategyView::Static(source@),
        simple.config.validation@.any_algorithm,
        !simple.config.validation@.validate_aud,
        simple.config.key_fetcher@ == StrategyView::Static(
            KeySourceView::Hmac(secret_key(secret.spec_bytes())),
        ),
{
    law_nothing_listed_is_no_restriction(
        made.validation@,
        text_or_nothing(algorithms),
        issuers@,
        text_or_nothing(audience),
    );
    law_nothing_listed_is_no_restriction(
        simple.config.validation@,
        Seq::empty(),
        Set::empty(),
        Seq::empty(),
    );
    if audience is Some {
        assert forall|item: Seq<char>| #[trigger]
            is_listed(audience->0@, item) implies made.validation@.validate_aud
            && made.validation@.aud->0.contains(item) by {
            assert(listed(audience->0@).contains(item));
        }
    }
}

/// What a token says of itself is read off its header, and its key comes from the one source for all
/// issuers or from that of the issuer it names. Without an issuer that is known there is no key.
pub proof fn law_keys_go_by_issuer(
    rules: ValidationView,
    sources: Map<Seq<char>, KeySourceView>,
    single: KeySourceView,
    claims: Map<Seq<char>, JsonView>,
    token: Seq<char>,
    alg: Algorithm,
    kid: Option<Seq<char>>,
)
    requires
        token_header(token) == Ok::<(Seq<char>, Option<Seq<char>>), Seq<char>>(
            (algorithm_name(alg), kid),
        ),
        rules.any_algorithm || rules.algorithms.contains(alg),
    ensures
        ({
            let header = HeaderView { alg, kid };
            let chosen = key_choice(rules, StrategyView::PerIssuer(sources), claims, token);
            &&& key_choice(rules, StrategyView::Static(single), claims, token) == Ok::<
                (HeaderView, KeySourceView),
                ErrorView,
            >((header, single))
            &&& chosen is Ok <==> claims.dom().contains("iss"@) && claims["iss"@] is Text
                && sources.dom().contains(claims["iss"@]->Text_0)
            &&& chosen is Ok ==> chosen->Ok_0 == (header, sources[claims["iss"@]->Text_0])
            &&& chosen is Err ==> chosen->Err_0.response().status == 401
        }),
{
    let named = choose|named: Algorithm| #[trigger] algorithm_name(named) == algorithm_name(alg);
    law_algorithm_names_differ(named, alg);
}

/// The choice of the key is the one for the rules and the strategy of the configuration.
pub proof fn law_headers_are_checked(
    config: &AuthenticatorConfig,
    claims: &ClaimsSet,
    token: &str,
    r: Result<(Header, &KeySource), Error>,
)
    requires
        call_ensures(AuthenticatorConfig::check_header, (config, claims, token), r),
    ensures
        ({
            let chosen = key_choice(config.validation@, config.key_fetcher@, claims@, token@);
            &&& r is Ok <==> chosen is Ok
            &&& r is Ok ==> r->Ok_0.0@ == chosen->Ok_0.0 && r->Ok_0.1@ == chosen->Ok_0.1
            &&& r is Err ==> r->Err_0@.response().status == 401
        }),
{
    law_refusals_are_unauthorized(config.validation@, config.key_fetcher@, claims@, token@);
}

/// A token without claims that can be read is answered with the status 401; else the claims are those
/// of its payload.
pub proof fn law_unreadable_tokens_are_unauthorized(token: &str, r: Result<ClaimsSet, Error>)
    requires
        call_ensures(Authenticator::read_claims, (token,), r),
    ensures
        r is Ok <==> payload_claims(token@) is Ok,
        r is Ok ==> r->Ok_0@ == payload_claims(token@)->Ok_0,
        r is Err ==> r->Err_0@.response().status == 401,
{
}

/// A key that could not be had is reported with the status 401 and its cause.
pub proof fn law_missing_keys_are_unauthorized(
    config: &AuthenticatorConfig,
    header: &Header,
    cause: Error,
    token: &str,
    accept_language: Option<&str>,
    checked: Result<ClaimsSet, Error>,
    parsed: Result<ClaimsSet, Error>,
)
    requires
        call_ensures(
            AuthenticatorConfig::check_signature,
            (config, header, Err(cause), token),
            checked,
        ),
        call_ensures(
            Authenticator::parse_validate_and_update,
            (token, header, Err(cause), config, accept_language),
            parsed,
        ),
    ensures
        checked is Err && checked->Err_0@.response().status == 401,
        checked->Err_0@.messages.drop_first() == cause@.messages,
        parsed is Err && parsed->Err_0@.response().status == 401,
        parsed->Err_0@.messages.drop_first() == cause@.messages,
{
    assert(checked->Err_0@.messages.drop_first() =~= cause@.messages);
    assert(parsed->Err_0@.messages.drop_first() =~= cause@.messages);
}

/// A token that is accepted has the algorithm of its header, has not expired, and names an issuer and
/// an audience among those allowed; the claims are those of its payload, in the form in which they
/// are used. One that is not accepted is answered with the status 401.
pub proof fn law_accepted_tokens_keep_the_rules(
    token: &str,
    header: &Header,
    key: DecodingKey,
    config: &AuthenticatorConfig,
    accept_language: Option<&str>,
    r: Result<ClaimsSet, Error>,
)
    requires
        call_ensures(
            Authenticator::parse_validate_and_update,
            (token, header, Ok(key), config, accept_language),
            r,
        ),
    ensures
        r is Err ==> r->Err_0@.response().status == 401,
        r is Ok ==> {
            let rules = config.validation@;
            let claims = payload_claims(token@)->Ok_0;
            &&& payload_claims(token@) is Ok
            &&& r->Ok_0@ == config.usable_claims(claims, accept_language)
            &&& token_header(token@) is Ok
            &&& token_header(token@)->Ok_0.0 == algorithm_name(header.alg)
            &&& claims.dom().contains("exp"@)
            &&& exists|now: u64|
                {
                    &&& #[trigger] decoded_token(token@, key, rules.only(header.alg), now) == Ok::<
                        Map<Seq<char>, JsonView>,
                        Seq<char>,
                    >(claims)
                    &&& claims["exp"@] is Integer ==> claims["exp"@]->Integer_0 + 60 >= now
                    &&& rules.validate_nbf && claims.dom().contains("nbf"@) && claims["nbf"@]
                        is Integer ==> claims["nbf"@]->Integer_0 <= now + 60
                }
            &&& claims.dom().contains("iss"@) && claims["iss"@] is Text ==> rules.iss.contains(
                claims["iss"@]->Text_0,
            )
            &&& rules.validate_aud && rules.aud is Some && claims.dom().contains("aud"@)
                && claims["aud"@] is Text ==> rules.aud->0.contains(claims["aud"@]->Text_0)
        },
{
    let rules = config.validation@.only(header.alg);
    let checked = choose|checked: Result<ClaimsSet, Error>| #[trigger]
        is_verdict(checked, token@, key, rules) && match (r, checked) {
            (Ok(claims), Ok(exact)) => claims@ == config.usable_claims(exact@, accept_language),
            (Err(err), Err(exact)) => err@ == exact@,
            _ => false,
        };
    if !is_unusable(key, rules) {
        let now = choose|now: u64| #[trigger] is_verdict_at(checked, token@, key, rules, now);
        if r is Ok {
            let claims = checked->Ok_0@;
            assert(decoded_token(token@, key, rules, now) == Ok::<
                Map<Seq<char>, JsonView>,
                Seq<char>,
            >(claims));
            let i = choose|i: int|
                0 <= i < rules.algorithms.len() && token_header(token@)->Ok_0.0
                    == #[trigger] algorithm_name(rules.algorithms[i]);
            assert(rules.algorithms[i] == header.alg);
        }
    }
}

/// A claim whose name starts with the prefix is found under the name without it.
pub proof fn law_prefix_is_taken_off(
    claims: Map<Seq<char>, JsonView>,
    prefix: Seq<char>,
    n: nat,
    name: Seq<char>,
)
    requires
        prefix.len() > 0,
        !starts_with(name, prefix),
        claims.dom().contains(repeated(prefix, n) + name),
        forall|m: nat|
            m != n ==> !claims.dom().contains(#[trigger] repeated(prefix, m) + name),
    ensures
        translated(claims, prefix).dom().contains(name),
        translated(claims, prefix)[name] == claims[repeated(prefix, n) + name],
{
    let source = repeated(prefix, n) + name;
    law_prefix_is_stripped_repeatedly(prefix, n, name);
    assert forall|other: Seq<char>| #[trigger] is_source(claims, prefix, name, other) implies other
        == source by {
        let m = lemma_repeated_prefix(other, prefix);
        assert(other == repeated(prefix, m) + name);
    }
    assert(is_source(claims, prefix, name, source));
    assert(is_last_source(claims, prefix, name, source));
    let chosen = choose|chosen: Seq<char>| #[trigger] is_last_source(claims, prefix, name, chosen);
    assert(is_source(claims, prefix, name, chosen));
}

proof fn lemma_repeated_prefix(s: Seq<char>, prefix: Seq<char>) -> (n: nat)
    requires
        prefix.len() > 0,
    ensures
        s == repeated(prefix, n) + strip_all(s, prefix),
    decreases s.len(),
{
    if starts_with(s, prefix) {
        let rest = s.skip(prefix.len() as int);
        let n = lemma_repeated_prefix(rest, prefix);
        law_prefix_comes_first(s, prefix, rest);
        assert(prefix + (repeated(prefix, n) + strip_all(rest, prefix)) =~= (prefix + repeated(
            prefix,
            n,
        )) + strip_all(rest, prefix));
        n + 1
    } else {
        assert(repeated(prefix, 0) + s =~= s);
        0
    }
}

/// Translating makes up no claims: each has the value of a claim of the token whose name comes to be
/// its own, and of several the one whose name is last in order.
pub proof fn law_claims_come_from_the_token(
    claims: Map<Seq<char>, JsonView>,
    prefix: Seq<char>,
    name: Seq<char>,
)
    requires
        translated(claims, prefix).dom().contains(name),
    ensures
        exists|source: Seq<char>|
            {
                &&& #[trigger] claims.dom().contains(source)
                &&& strip_all(source, prefix) == name
                &&& claims[source] == translated(claims, prefix)[name]
                &&& forall|other: Seq<char>| #[trigger]
                    claims.dom().contains(other) && strip_all(other, prefix) == name ==> other
                        == source || before(other, source)
            },
{
    let source = choose|source: Seq<char>| #[trigger] is_last_source(claims, prefix, name, source);
    assert(is_source(claims, prefix, name, source));
    assert forall|other: Seq<char>| #[trigger]
        claims.dom().contains(other) && strip_all(other, prefix) == name implies other == source
        || before(other, source) by {
        assert(is_source(claims, prefix, name, other));
    }
    assert(claims.dom().contains(source));
}

/// The claims of an accepted token are translated where a prefix is configured, and else as they
/// are.
pub proof fn law_claims_are_translated(
    config: &AuthenticatorConfig,
    claims: ClaimsSet,
    prefix: &str,
    translated_claims: ClaimsSet,
    r: ClaimsSet,
)
    requires
        call_ensures(Authenticator::translate_claims, (claims, prefix), translated_claims),
        call_ensures(Authenticator::translate, (config, claims), r),
    ensures
        translated_claims@ == translated(claims@, prefix@),
        config.custom_claim_prefix is None ==> r@ == claims@,
        config.custom_claim_prefix is Some ==> r@ == translated(
            claims@,
            config.custom_claim_prefix->0@,
        ),
{
}

/// A user whose claims name no locale gets the language that is negotiated for the request among the
/// supported ones, and the default where no languages are configured.
pub proof fn law_missing_locale_is_negotiated(
    claims: &mut ClaimsSet,
    config: &AuthenticatorConfig,
    accept_language: Option<&str>,
)
    requires
        call_ensures(
            Authenticator::inject_locale_if_missing,
            (claims, config, accept_language),
            (),
        ),
    ensures
        old(claims)@.dom().contains("locale"@) ==> final(claims)@ == old(claims)@,
        !old(claims)@.dom().contains("locale"@) ==> {
            &&& final(claims)@.dom() == old(claims)@.dom().insert("locale"@)
            &&& forall|name: Seq<char>|
                name != "locale"@ && old(claims)@.dom().contains(name)
                    ==> #[trigger] final(claims)@[name] == old(claims)@[name]
            &&& config.supported_locales@.len() == 0 ==> final(claims)@["locale"@]
                == JsonView::Text(config.default_locale@)
            &&& config.supported_locales@.len() > 0 ==> final(claims)@["locale"@]
                == JsonView::Text(
                negotiated(
                    match accept_language {
                        Some(text) => Some(text@),
                        None => None,
                    },
                    string_views(config.supported_locales@),
                    config.default_locale@,
                ),
            )
        },
{
    let supported = string_views(config.supported_locales@);
    assert(supported.len() == config.supported_locales@.len());
    if !old(claims)@.dom().contains("locale"@) {
        assert(final(claims)@.dom() =~= old(claims)@.dom().insert("locale"@));
    }
}

/// The fetchers are asked in their order, each once, until one has an answer, which is the one that
/// counts.
pub proof fn law_fetchers_are_asked_in_order<C>(
    search: &ConfigSearch<C>,
    next: Option<usize>,
    before: ConfigSearch<C>,
    answer: Option<C>,
    after: ConfigSearch<C>,
    found: Option<C>,
)
    requires
        call_ensures(ConfigSearch::<C>::next, (search,), next),
        before@.asks() is Some,
        call_ensures(ConfigSearch::<C>::answered, (before, answer), after),
        call_ensures(ConfigSearch::<C>::into_found, (after,), found),
    ensures
        next is Some <==> search@.answers.len() < search@.fetchers && first_answer(search@.answers)
            is None,
        next is Some ==> next->0 == search@.answers.len(),
        after@.fetchers == before@.fetchers,
        after@.answers == before@.answers.push(answer),
        found == answer,
{
    assert(before@.answers.push(answer).drop_last() =~= before@.answers);
}

/// The values of a list are those listed in it, and where there are none there is no list.
pub proof fn law_lists_are_parsed(
    values: &str,
    r: Option<TextSet>,
    algorithms: Vec<Algorithm>,
    item: Seq<char>,
    alg: Algorithm,
)
    requires
        call_ensures(AuthenticatorConfig::parse_set, (values,), r),
        call_ensures(AuthenticatorConfig::parse_algorithms, (values,), algorithms),
    ensures
        is_listed(values@, item) ==> r is Some,
        r is Some ==> (r->0@.contains(item) <==> is_listed(values@, item)),
        r is Some ==> exists|x: Seq<char>| #[trigger] is_listed(values@, x),
        algorithms@.contains(alg) <==> is_listed(values@, algorithm_name(alg)),
{
    assert(listed(values@).contains(item) <==> is_listed(values@, item));
    if r is Some {
        if forall|x: Seq<char>| !#[trigger] is_listed(values@, x) {
            assert(r->0@ =~= Set::empty());
        }
    }
}

/// The languages of a deployment are set as they are given, and nothing else of the configuration
/// changes.
pub proof fn law_languages_are_set(
    config: AuthenticatorConfig,
    authenticator: Authenticator,
    locales: Vec<String>,
    a: AuthenticatorConfig,
    b: Authenticator,
)
    requires
        call_ensures(AuthenticatorConfig::with_supported_locales, (config, locales), a),
        call_ensures(Authenticator::with_supported_locales, (authenticator, locales), b),
    ensures
        a.supported_locales == locales,
        a.validation == config.validation,
        a.default_locale == config.default_locale,
        a.custom_claim_prefix == config.custom_claim_prefix,
        a.key_fetcher == config.key_fetcher,
        b.config.supported_locales == locales,
        b.config.validation == authenticator.config.validation,
        b.config.default_locale == authenticator.config.default_locale,
        b.config.custom_claim_prefix == authenticator.config.custom_claim_prefix,
        b.config.key_fetcher == authenticator.config.key_fetcher,
{
}

/// Where the keys of an issuer come from: the shared secret, which has to be there, a JWKS endpoint, or
/// a secret of its own; and what is none of these is refused.
pub proof fn law_sources_of_keys(
    issuer: Seq<char>,
    config: Seq<char>,
    url: Seq<char>,
    shared: Option<DecodingKey>,
)
    ensures
        shared is Some ==> source_for(issuer, Seq::empty(), shared) == Ok::<
            KeySourceView,
            ErrorView,
        >(KeySourceView::Hmac(shared->0)),
        source_for(issuer, "secret"@, shared) == source_for(issuer, Seq::empty(), shared),
        shared is None ==> source_for(issuer, Seq::empty(), shared) is Err,
        !(url.len() > 0 && url[0] == '/') ==> source_for(
            issuer,
            seq!['j', 'w', 'k', 's', ':'] + url,
            shared,
        ) == Ok::<KeySourceView, ErrorView>(KeySourceView::Jwks(url)),
        config.len() > 0 && config != "secret"@ && !config.contains(':') ==> source_for(
            issuer,
            config,
            shared,
        ) == Ok::<KeySourceView, ErrorView>(
            KeySourceView::Hmac(secret_key(encode_utf8(config))),
        ),
        config.contains(':') && !starts_with(config, "jwks:"@) ==> source_for(
            issuer,
            config,
            shared,
        ) is Err,
{
    reveal_strlit("jwks:");
    reveal_strlit("secret");
    let jwks = seq!['j', 'w', 'k', 's', ':'] + url;
    assert("jwks:"@ =~= seq!['j', 'w', 'k', 's', ':']);
    assert(jwks[0] == 'j');
    law_prefix_comes_first(jwks, "jwks:"@, url);
    assert(jwks.skip(5) =~= url);
    if starts_with(config, "jwks:"@) {
        assert(config.subrange(0, 5)[4] == ':');
        assert(config[4] == ':');
        assert(config.contains(':'));
    }
    if config.contains(':') && config == "secret"@ {
        let i = choose|i: int| 0 <= i < config.len() && config[i] == ':';
        assert(i == 0 || i == 1 || i == 2 || i == 3 || i == 4 || i == 5);
    }
}

/// The claims in the form in which they are used are those with the prefix taken off, and in addition
/// a locale where these have none: the default, or the one that is negotiated where languages are
/// configured.
pub proof fn law_usable_claims(
    config: AuthenticatorConfig,
    claims: Map<Seq<char>, JsonView>,
    accept_language: Option<&str>,
)
    ensures
        ({
            let usable = config.usable_claims(claims, accept_language);
            let bare = if config.custom_claim_prefix is Some {
                translated(claims, config.custom_claim_prefix->0@)
            } else {
                claims
            };
            let supported = config.supported_locales@;
            let header = if accept_language is Some {
                Some(accept_language->0@)
            } else {
                None
            };
            let locale = if supported.len() == 0 {
                config.default_locale@
            } else {
                negotiated(header, string_views(supported), config.default_locale@)
            };
            &&& config.bare_claims(claims) == bare
            &&& bare.dom().contains("locale"@) ==> usable == bare
            &&& !bare.dom().contains("locale"@) ==> usable == bare.insert(
                "locale"@,
                JsonView::Text(locale),
            )
        }),
{
    assert(string_views(config.supported_locales@).len() == config.supported_locales@.len());
}

/// Before the locale is chosen, the claims of an accepted token are those of its payload with the
/// prefix taken off.
pub proof fn law_validated_claims_are_the_tokens(
    token: &str,
    header: &Header,
    key: DecodingKey,
    config: &AuthenticatorConfig,
    r: Result<ClaimsSet, Error>,
)
    requires
        call_ensures(
            Authenticator::validate_and_translate,
            (token, header, Ok(key), config),
            r,
        ),
    ensures
        r is Ok ==> payload_claims(token@) is Ok && r->Ok_0@ == config.bare_claims(
            payload_claims(token@)->Ok_0,
        ),
        r is Err ==> r->Err_0@.response().status == 401,
{
    let rules = config.validation@.only(header.alg);
    let checked = choose|checked: Result<ClaimsSet, Error>| #[trigger]
        is_verdict(checked, token@, key, rules) && match (r, checked) {
            (Ok(claims), Ok(exact)) => claims@ == config.bare_claims(exact@),
            (Err(err), Err(exact)) => err@ == exact@,
            _ => false,
        };
    if !is_unusable(key, rules) {
        let now = choose|now: u64| #[trigger] is_verdict_at(checked, token@, key, rules, now);
        assert(is_verdict_at(checked, token@, key, rules, now));
    }
}

/// A token is accepted exactly if its signature, its claims and the time allow it, with the key at hand
/// and under the rules of the configuration for the algorithm of its header; else the reason is told.
pub proof fn law_verdicts_follow_the_token(
    token: &str,
    header: &Header,
    key: DecodingKey,
    config: &AuthenticatorConfig,
    accept_language: Option<&str>,
    checked: Result<ClaimsSet, Error>,
    parsed: Result<ClaimsSet, Error>,
)
    requires
        call_ensures(
            AuthenticatorConfig::check_signature,
            (config, header, Ok(key), token),
            checked,
        ),
        call_ensures(
            Authenticator::parse_validate_and_update,
            (token, header, Ok(key), config, accept_language),
            parsed,
        ),
        !is_unusable(key, config.validation@.only(header.alg)),
    ensures
        exists|now: u64|
            match (
                checked,
                #[trigger] decoded_token(token@, key, config.validation@.only(header.alg), now),
            ) {
                (Ok(claims), Ok(exact)) => claims@ == exact,
                (Err(err), Err(message)) => err@.messages.last() == message,
                _ => false,
            },
        exists|now: u64|
            match (
                parsed,
                #[trigger] decoded_token(token@, key, config.validation@.only(header.alg), now),
            ) {
                (Ok(claims), Ok(exact)) => claims@ == config.usable_claims(exact, accept_language),
                (Err(err), Err(message)) => err@.messages.last() == message,
                _ => false,
            },
{
    let rules = config.validation@.only(header.alg);
    let now = choose|now: u64| #[trigger] is_verdict_at(checked, token@, key, rules, now);
    assert(is_verdict_at(checked, token@, key, rules, now));
    let exact = choose|exact: Result<ClaimsSet, Error>| #[trigger]
        is_verdict(exact, token@, key, rules) && match (parsed, exact) {
            (Ok(claims), Ok(exact)) => claims@ == config.usable_claims(exact@, accept_language),
            (Err(err), Err(exact)) => err@ == exact@,
            _ => false,
        };
    let then = choose|then: u64| #[trigger] is_verdict_at(exact, token@, key, rules, then);
    assert(is_verdict_at(exact, token@, key, rules, then));
    let a = decoded_token(token@, key, rules, now);
    let b = decoded_token(token@, key, rules, then);
}

/// A configuration is made exactly if every issuer has a source, and the shared secret is there where
/// all issuers rely on it.
pub proof fn law_valid_configurations_are_made(
    secret: Option<&str>,
    algorithms: &str,
    issuer: &str,
    audience: &str,
    default_locale: String,
    prefix: Option<String>,
    r: Result<AuthenticatorConfig, Error>,
)
    requires
        call_ensures(
            AuthenticatorConfig::from_env_style_config,
            (secret, algorithms, issuer, audience, default_locale, prefix),
            r,
        ),
    ensures
        r is Ok <==> secret is Some && (forall|name: Seq<char>| #[trigger]
            issuer_configs(split(issuer@, ',')).dom().contains(name) ==> uses_shared_secret(
                issuer_configs(split(issuer@, ','))[name],
            )) || (exists|name: Seq<char>| #[trigger]
            issuer_configs(split(issuer@, ',')).dom().contains(name) && !uses_shared_secret(
                issuer_configs(split(issuer@, ','))[name],
            )) && (forall|name: Seq<char>| #[trigger]
            issuer_configs(split(issuer@, ',')).dom().contains(name) ==> source_for(
                name,
                issuer_configs(split(issuer@, ','))[name],
                shared_key(secret),
            ) is Ok),
        r is Ok ==> {
            &&& r->Ok_0.default_locale == default_locale
            &&& r->Ok_0.custom_claim_prefix == prefix
            &&& forall|item: Seq<char>| #[trigger]
                is_listed(audience@, item) <==> r->Ok_0.validation@.validate_aud
                    && r->Ok_0.validation@.aud->0.contains(item)
            &&& forall|alg: Algorithm| #[trigger]
                r->Ok_0.validation@.algorithms.contains(alg) <==> is_listed(
                    algorithms@,
                    algorithm_name(alg),
                )
            &&& r->Ok_0.validation@.any_algorithm <==> forall|item: Seq<char>|
                !#[trigger] is_listed(algorithms@, item)
        },
{
    if r is Ok {
        let rules = r->Ok_0.validation@;
        assert forall|item: Seq<char>| #[trigger]
            is_listed(audience@, item) <==> rules.validate_aud && rules.aud->0.contains(item) by {
            assert(listed(audience@).contains(item) <==> is_listed(audience@, item));
        }
        assert(rules.any_algorithm <==> forall|item: Seq<char>|
            !#[trigger] is_listed(algorithms@, item)) by {
            if rules.any_algorithm {
                assert forall|item: Seq<char>| !#[trigger] is_listed(algorithms@, item) by {
                    assert(!listed(algorithms@).contains(item));
                }
            } else {
                if forall|item: Seq<char>| !#[trigger] is_listed(algorithms@, item) {
                    assert(listed(algorithms@) =~= Set::empty());
                }
            }
        }
    }
}

/// A shared secret on its own accepts any algorithm and audience, and speaks the default language.
pub proof fn law_simple_authenticators_ask_for_no_more(secret: &str, r: Authenticator)
    requires
        call_ensures(Authenticator::with_simple_secret, (secret,), r),
    ensures
        r.config.default_locale@ == "en-US"@,
        r.config.supported_locales@.len() == 0,
        r.config.custom_claim_prefix is None,
        r.config.validation@.iss == Set::<Seq<char>>::empty(),
        r.config.validation@.validate_nbf,
{
}

/// An issuer without a source is named in the error.
pub proof fn law_errors_name_the_issuer(
    issuer: Seq<char>,
    config: Seq<char>,
    shared: Option<DecodingKey>,
)
    requires
        source_for(issuer, config, shared) is Err,
    ensures
        contains(source_for(issuer, config, shared)->Err_0.messages[0], issuer),
{
    let a = "Issuer "@;
    let b = " relies on a shared secret, but none was given"@;
    let c = " has an invalid config: "@;
    law_part_stands_somewhere(issuer, a, issuer, b);
    law_part_stands_somewhere(issuer, a, issuer, c + config);
    assert(a + issuer + (c + config) =~= a + issuer + c + config);
}

/// A source and a strategy are what they are made of.
pub proof fn law_sources_are_what_they_are_made_of(
    key: DecodingKey,
    fetcher: HmacKeyFetcher,
    fetched: DecodingKey,
    url: String,
    n: usize,
    source: KeySource,
    sources: TextMap<KeySource>,
    name: Seq<char>,
)
    requires
        call_ensures(HmacKeyFetcher::new, (key,), fetcher),
        call_ensures(HmacKeyFetcher::fetch, (&fetcher,), fetched),
    ensures
        fetched == key,
        KeySource::Hmac(fetcher)@ == KeySourceView::Hmac(key),
        KeySource::Jwks(url)@ == KeySourceView::Jwks(url@),
        KeySource::Custom(n)@ == KeySourceView::Custom(n),
        KeyFetchStrategy::Static(source)@ == StrategyView::Static(source@),
        KeyFetchStrategy::PerIssuer(sources)@ is PerIssuer,
        KeyFetchStrategy::PerIssuer(sources)@->PerIssuer_0.dom() == sources@.dom(),
        sources@.dom().contains(name) ==> KeyFetchStrategy::PerIssuer(
            sources,
        )@->PerIssuer_0[name] == sources@[name]@,
{
    assert(KeyFetchStrategy::PerIssuer(sources)@->PerIssuer_0.dom() =~= sources@.dom());
}

} // verus!
