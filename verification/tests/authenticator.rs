use base64::Engine;
use jsonwebtoken::DecodingKey;
use wasabi::json::{ClaimsSet, Json};
use wasabi::text_map::TextSet;
use wasabi::web::auth::authenticator::{
    Authenticator, AuthenticatorConfig, ConfigSearch, HmacKeyFetcher, KeyFetchStrategy, KeySource,
};
use wasabi::web::auth::token::{decode_header, sign_claims, Algorithm, Header};
use wasabi::web::auth::user::UserBuilder as Builder;
use wasabi::web::auth::{
    CLAIM_AUD, CLAIM_ISS, CLAIM_LOCALE, CLAIM_NAME, CLAIM_SUB, CLAIM_TENANT,
};
use wasabi::web::error::Error;
use wasabi::web::warp::into_rejection;

fn text(s: &str) -> Json {
    Json::Text(s.to_string())
}

/// Fetches the key of a source that is at hand.
fn fetch(source: &KeySource, _header: &Header) -> Result<DecodingKey, Error> {
    match source {
        KeySource::Hmac(fetcher) => Ok(fetcher.fetch()),
        _ => Err(Error::new("not at hand")),
    }
}

fn parse_with(
    config: &AuthenticatorConfig,
    token: &str,
    accept_language: Option<&str>,
    fetch: impl Fn(&KeySource, &Header) -> Result<DecodingKey, Error>,
) -> Result<ClaimsSet, Error> {
    let claims = Authenticator::read_claims(token)?;
    let (header, source) = config.check_header(&claims, token)?;
    let key = fetch(source, &header);
    Authenticator::parse_validate_and_update(token, &header, key, config, accept_language)
}

fn parse_jwt(config: &AuthenticatorConfig, token: &str) -> Result<ClaimsSet, Error> {
    parse_with(config, token, None, fetch)
}

fn env_config(secret: Option<&str>, algorithms: &str, issuer: &str, audience: &str) -> AuthenticatorConfig {
    AuthenticatorConfig::from_env_style_config(
        secret,
        algorithms,
        issuer,
        audience,
        "en-US".to_string(),
        None,
    )
    .unwrap()
}

fn env_error(secret: Option<&str>, issuer: &str) -> String {
    match AuthenticatorConfig::from_env_style_config(
        secret,
        "",
        issuer,
        "",
        "en-US".to_string(),
        None,
    ) {
        Ok(_) => panic!("the configuration was accepted"),
        Err(err) => err.message(),
    }
}

#[test]
fn translate_claims_strips_prefix() {
    let mut claims = ClaimsSet::new();
    claims.insert("custom:tenant".to_string(), text("abc"));
    claims.insert("custom:role".to_string(), text("admin"));
    claims.insert("sub".to_string(), text("user123"));

    let translated = Authenticator::translate_claims(claims, "custom:");

    assert_eq!(translated.get("tenant").unwrap(), &text("abc"));
    assert_eq!(translated.get("role").unwrap(), &text("admin"));
    assert_eq!(translated.get("sub").unwrap(), &text("user123"));
    assert!(!translated.contains_key("custom:tenant"));
}

#[test]
fn translate_claims_leaves_non_matching_unchanged() {
    let mut claims = ClaimsSet::new();
    claims.insert("other:claim".to_string(), text("value"));
    claims.insert("sub".to_string(), text("user123"));

    let translated = Authenticator::translate_claims(claims, "custom:");

    assert_eq!(translated.get("other:claim").unwrap(), &text("value"));
    assert_eq!(translated.get("sub").unwrap(), &text("user123"));
}

#[test]
fn translated_names_may_meet() {
    let mut claims = ClaimsSet::new();
    claims.insert("x:x:a".to_string(), text("twice"));
    claims.insert("x:a".to_string(), text("once"));
    claims.insert("z".to_string(), text("plain"));
    claims.insert("x:z".to_string(), text("prefixed"));
    claims.insert("x:".to_string(), text("bare"));

    let translated = Authenticator::translate_claims(claims.clone(), "x:");
    assert_eq!(translated.get("a").unwrap(), &text("twice"));
    assert_eq!(translated.get("z").unwrap(), &text("plain"));
    assert_eq!(translated.get("").unwrap(), &text("bare"));
    assert_eq!(translated.len(), 3);

    assert_eq!(Authenticator::translate_claims(claims.clone(), ""), claims);
}

/// A config with the given default and supported languages, over a throwaway HMAC key.
fn locale_config(default: &str, supported: &[&str]) -> AuthenticatorConfig {
    let key = DecodingKey::from_secret(b"secret");
    AuthenticatorConfig::new(
        None,
        TextSet::new(),
        None,
        default.to_string(),
        None,
        KeySource::Hmac(HmacKeyFetcher::new(key)),
    )
    .with_supported_locales(supported.iter().map(|s| (*s).to_string()).collect())
}

#[test]
fn inject_locale_adds_default_when_missing() {
    let mut claims = ClaimsSet::new();
    claims.insert("sub".to_string(), text("user123"));

    Authenticator::inject_locale_if_missing(&mut claims, &locale_config("de-DE", &[]), None);

    assert_eq!(claims.get(CLAIM_LOCALE).unwrap(), &text("de-DE"));
}

#[test]
fn inject_locale_preserves_existing() {
    let mut claims = ClaimsSet::new();
    claims.insert(CLAIM_LOCALE.to_string(), text("fr-FR"));

    Authenticator::inject_locale_if_missing(&mut claims, &locale_config("de-DE", &[]), None);

    assert_eq!(claims.get(CLAIM_LOCALE).unwrap(), &text("fr-FR"));
}

#[test]
fn inject_locale_negotiates_accept_language_against_supported() {
    let mut claims = ClaimsSet::new();
    // Top preference `fr` is not supported; `de` (lower q) is. Negotiation must pick it, not the
    // first tag and not the default.
    Authenticator::inject_locale_if_missing(
        &mut claims,
        &locale_config("en", &["de", "en"]),
        Some("fr;q=0.9, de;q=0.8, en;q=0.7"),
    );

    assert_eq!(claims.get(CLAIM_LOCALE).unwrap(), &text("de"));
}

#[test]
fn inject_locale_falls_back_to_default_when_nothing_matches() {
    let mut claims = ClaimsSet::new();
    Authenticator::inject_locale_if_missing(
        &mut claims,
        &locale_config("en", &["de", "en"]),
        Some("es-ES"),
    );

    assert_eq!(claims.get(CLAIM_LOCALE).unwrap(), &text("en"));
}

#[test]
fn no_negotiation_without_supported_languages() {
    let mut claims = ClaimsSet::new();
    Authenticator::inject_locale_if_missing(&mut claims, &locale_config("en", &[]), Some("de"));
    assert_eq!(claims.get(CLAIM_LOCALE).unwrap(), &text("en"));
}

#[test]
fn decode_payload_extracts_claims() {
    // JWT with payload: {"sub": "1234", "name": "Test"}
    let jwt = "eyJhbGciOiJIUzI1NiJ9.eyJzdWIiOiIxMjM0IiwibmFtZSI6IlRlc3QifQ.signature";

    let claims = Authenticator::decode_payload(jwt).unwrap();

    assert_eq!(claims.get("sub").unwrap(), &text("1234"));
    assert_eq!(claims.get("name").unwrap(), &text("Test"));
}

#[test]
fn decode_payload_fails_on_invalid_jwt() {
    let result = Authenticator::decode_payload("not-a-jwt");
    assert!(result.is_err());
}

#[test]
fn decode_payload_fails_on_invalid_base64() {
    let result = Authenticator::decode_payload("header.!!!invalid!!!.signature");
    assert!(result.is_err());
}

#[test]
fn failures_of_reading_a_payload_say_why() {
    let err = Authenticator::decode_payload("not-a-jwt").unwrap_err();
    assert_eq!(err.message(), "Cannot extract payload part");
    assert!(err.api_error().is_none());

    let err = Authenticator::decode_payload("a.!.c").unwrap_err();
    assert!(err.message().starts_with("Cannot decode Base64 payload: "));
    assert_eq!(into_rejection(err).status, 401);

    // The payload is the JSON text `[]`.
    let err = Authenticator::decode_payload("a.W10").unwrap_err();
    assert!(err.message().starts_with("Cannot parse payload as JSON: "));

    let err = Authenticator::read_claims("not-a-jwt").unwrap_err();
    assert_eq!(err.message(), "Invalid JWT present: Cannot extract payload part");
    assert_eq!(into_rejection(err).status, 401);
}

#[test]
fn parse_set_splits_by_comma() {
    let result = AuthenticatorConfig::parse_set("a,b,c").unwrap();
    assert!(result.contains("a"));
    assert!(result.contains("b"));
    assert!(result.contains("c"));
    assert_eq!(result.len(), 3);
}

#[test]
fn parse_set_splits_by_semicolon() {
    let result = AuthenticatorConfig::parse_set("a;b;c").unwrap();
    assert!(result.contains("a"));
    assert!(result.contains("b"));
    assert!(result.contains("c"));
}

#[test]
fn parse_set_handles_mixed_separators() {
    let result = AuthenticatorConfig::parse_set("a,b;c").unwrap();
    assert_eq!(result.len(), 3);
}

#[test]
fn parse_set_trims_whitespace() {
    let result = AuthenticatorConfig::parse_set(" a , b , c ").unwrap();
    assert!(result.contains("a"));
    assert!(result.contains("b"));
    assert!(result.contains("c"));
}

#[test]
fn parse_set_returns_none_for_empty() {
    assert!(AuthenticatorConfig::parse_set("").is_none());
    assert!(AuthenticatorConfig::parse_set("  ").is_none());
}

#[test]
fn parse_set_drops_duplicates_and_gaps() {
    let result = AuthenticatorConfig::parse_set("a,;a; ,b").unwrap();
    assert_eq!(result.len(), 2);
    assert!(!result.contains(""));
    assert!(AuthenticatorConfig::parse_set(" ;,; ").is_none());
}

#[test]
fn parse_algorithms_parses_known_algorithms() {
    let algs = AuthenticatorConfig::parse_algorithms("HS256,RS256");
    assert!(algs.contains(&Algorithm::HS256));
    assert!(algs.contains(&Algorithm::RS256));
}

#[test]
fn parse_algorithms_ignores_unknown() {
    let algs = AuthenticatorConfig::parse_algorithms("HS256,UNKNOWN,RS256");
    assert_eq!(algs.len(), 2);
    assert!(algs.contains(&Algorithm::HS256));
    assert!(algs.contains(&Algorithm::RS256));
}

#[test]
fn parse_algorithms_returns_empty_for_empty_input() {
    let algs = AuthenticatorConfig::parse_algorithms("");
    assert!(algs.is_empty());
}

#[test]
fn algorithms_go_by_the_names_of_the_token_library() {
    let all = AuthenticatorConfig::parse_algorithms(
        "HS256;HS384;HS512;ES256;ES384;RS256;RS384;RS512;PS256;PS384;PS512;EdDSA;hs256;ES512",
    );
    assert_eq!(all.len(), 12);
    for alg in all {
        let same: jsonwebtoken::Algorithm = alg.name().parse().unwrap();
        assert_eq!(format!("{same:?}"), alg.name());
    }
}

#[test]
fn config_new_requires_secret_when_no_jwks() {
    let result = AuthenticatorConfig::from_env_style_config(
        None,
        "",
        "https://issuer.example.com",
        "",
        "en-US".to_string(),
        None,
    );
    assert!(result.is_err());
    assert!(result.err().unwrap().message().contains("shared secret"));
}

#[test]
fn config_new_succeeds_with_secret() {
    let result = AuthenticatorConfig::from_env_style_config(
        Some("my-secret"),
        "HS256",
        "https://issuer.example.com",
        "",
        "en-US".to_string(),
        None,
    );
    assert!(result.is_ok());
}

#[test]
fn config_new_fails_on_invalid_issuer_config() {
    let result = AuthenticatorConfig::from_env_style_config(
        Some("my-secret"),
        "",
        "https://issuer.example.com=invalid:config",
        "",
        "en-US".to_string(),
        None,
    );
    assert!(result.is_err());
    assert!(result.err().unwrap().message().contains("invalid config"));
}

#[test]
fn config_new_accepts_jwks_config() {
    let result = AuthenticatorConfig::from_env_style_config(
        None,
        "",
        "https://issuer.example.com=jwks:/.well-known/jwks.json",
        "",
        "en-US".to_string(),
        None,
    );
    assert!(result.is_ok());
}

#[test]
fn config_new_accepts_mixed_issuer_configs() {
    let result = AuthenticatorConfig::from_env_style_config(
        Some("my-secret"),
        "",
        "https://iss1.example.com=secret,https://iss2.example.com=jwks:/jwks.json",
        "",
        "en-US".to_string(),
        None,
    );
    assert!(result.is_ok());
}

#[test]
fn errors_of_a_configuration_name_the_issuer() {
    assert_eq!(
        env_error(None, "a,b=secret"),
        "All issuers rely on a shared secret to be present, but none was given"
    );
    assert_eq!(
        env_error(None, "a=secret,b=jwks:/k"),
        "Issuer a relies on a shared secret, but none was given"
    );
    assert_eq!(
        env_error(Some("s"), "b=what:ever"),
        "Issuer b has an invalid config: what:ever"
    );
}

fn jwks_url(config: &AuthenticatorConfig, issuer: &str) -> String {
    match &config.key_fetcher {
        KeyFetchStrategy::PerIssuer(sources) => match sources.get(issuer) {
            Some(KeySource::Jwks(url)) => url.clone(),
            _ => panic!("no JWKS endpoint for {issuer}"),
        },
        KeyFetchStrategy::Static(_) => panic!("one source for all issuers"),
    }
}

#[test]
fn addresses_of_jwks_endpoints() {
    let config = env_config(
        None,
        "",
        "https://auth.example.com/=jwks:/.well-known/jwks.json,//x//=jwks:/y,https://issuer.com=jwks:https://keys.example.com/jwks.json",
        "",
    );
    assert_eq!(
        jwks_url(&config, "https://auth.example.com/"),
        "https://auth.example.com/.well-known/jwks.json"
    );
    assert_eq!(jwks_url(&config, "//x//"), "x/y");
    assert_eq!(
        jwks_url(&config, "https://issuer.com"),
        "https://keys.example.com/jwks.json"
    );
    assert_eq!(config.validation.iss.len(), 3);
}

#[test]
fn an_issuer_may_have_a_secret_of_its_own() {
    let config = env_config(
        None,
        "",
        "https://internal.com=secret123,https://external.com=jwks:/.well-known/jwks.json",
        "",
    );
    let token = |secret: &str| {
        Builder::new()
            .with_string(CLAIM_ISS, "https://internal.com")
            .into_token(secret)
            .unwrap()
    };
    assert!(parse_jwt(&config, &token("secret123")).is_ok());
    assert!(parse_jwt(&config, &token("secret124")).is_err());

    let config = env_config(None, "", "https://issuer.com=mysecret", "");
    let token = Builder::new()
        .with_string(CLAIM_ISS, "https://issuer.com")
        .into_token("mysecret")
        .unwrap();
    assert!(parse_jwt(&config, &token).is_ok());
}

#[test]
fn parse_jwt_returns_claims_for_valid_token() {
    let token = Builder::new()
        .with_string(CLAIM_SUB, "user-123")
        .with_string(CLAIM_TENANT, "tenant-456")
        .with_string(CLAIM_NAME, "Test User")
        .into_token("test-secret")
        .unwrap();

    let authenticator = Authenticator::with_simple_secret("test-secret");
    let claims = parse_jwt(&authenticator.config, &token).unwrap();

    assert_eq!(claims.get(CLAIM_SUB).unwrap(), &text("user-123"));
    assert_eq!(claims.get(CLAIM_TENANT).unwrap(), &text("tenant-456"));
    assert_eq!(claims.get(CLAIM_NAME).unwrap(), &text("Test User"));
}

#[test]
fn parse_jwt_injects_default_locale() {
    let token = Builder::new()
        .with_string(CLAIM_SUB, "user-123")
        .into_token("test-secret")
        .unwrap();

    let authenticator = Authenticator::with_simple_secret("test-secret");
    let claims = parse_jwt(&authenticator.config, &token).unwrap();

    assert_eq!(claims.get(CLAIM_LOCALE).unwrap(), &text("en-US"));
}

#[test]
fn parsing_negotiates_the_language_of_the_request() {
    let token = Builder::new().into_token("test-secret").unwrap();
    let authenticator = Authenticator::with_simple_secret("test-secret")
        .with_supported_locales(vec!["de".to_string(), "en".to_string()]);
    let claims = parse_with(&authenticator.config, &token, Some("it, de;q=0.5"), fetch).unwrap();
    assert_eq!(claims.get(CLAIM_LOCALE).unwrap(), &text("de"));
}

#[test]
fn parsing_strips_the_configured_prefix() {
    let token = Builder::new()
        .with_string("custom:tenant", "t")
        .into_token("s")
        .unwrap();
    let config = AuthenticatorConfig::from_env_style_config(
        Some("s"),
        "",
        "",
        "",
        "fr".to_string(),
        Some("custom:".to_string()),
    )
    .unwrap();
    let claims = parse_jwt(&config, &token).unwrap();
    assert_eq!(claims.get("tenant").unwrap(), &text("t"));
    assert_eq!(claims.get(CLAIM_LOCALE).unwrap(), &text("fr"));
    assert!(!claims.contains_key("custom:tenant"));
}

#[test]
fn parse_jwt_fails_with_wrong_secret() {
    let token = Builder::new()
        .with_string(CLAIM_SUB, "user-123")
        .into_token("correct-secret")
        .unwrap();

    let authenticator = Authenticator::with_simple_secret("wrong-secret");
    let result = parse_jwt(&authenticator.config, &token);

    assert!(result.is_err());
    let err = result.unwrap_err();
    assert_eq!(err.message(), "Invalid JWT present: InvalidSignature");
    assert_eq!(into_rejection(err).status, 401);
}

#[test]
fn parse_jwt_fails_with_invalid_token() {
    let authenticator = Authenticator::with_simple_secret("test-secret");
    let result = parse_jwt(&authenticator.config, "not.a.valid-jwt");

    assert!(result.is_err());
}

#[test]
fn a_token_needs_a_header() {
    // The payload is the JSON text `{}`.
    let authenticator = Authenticator::with_simple_secret("test-secret");
    let err = parse_jwt(&authenticator.config, "x.e30.y").unwrap_err();
    assert!(err.message().starts_with("Invalid JWT present: "));
    assert_eq!(into_rejection(err).status, 401);
}

#[test]
fn multi_issuer_shared_secret_accepts_valid_issuer() {
    let token = Builder::new()
        .with_string(CLAIM_ISS, "https://issuer1.example.com")
        .with_string(CLAIM_SUB, "user-123")
        .into_token("shared-secret")
        .unwrap();

    let config = env_config(
        Some("shared-secret"),
        "",
        "https://issuer1.example.com,https://issuer2.example.com",
        "",
    );

    let claims = parse_jwt(&config, &token).unwrap();
    assert_eq!(claims.get(CLAIM_SUB).unwrap(), &text("user-123"));
    assert_eq!(
        claims.get(CLAIM_ISS).unwrap(),
        &text("https://issuer1.example.com")
    );
}

#[test]
fn multi_issuer_shared_secret_accepts_second_issuer() {
    let token = Builder::new()
        .with_string(CLAIM_ISS, "https://issuer2.example.com")
        .with_string(CLAIM_SUB, "user-456")
        .into_token("shared-secret")
        .unwrap();

    let config = env_config(
        Some("shared-secret"),
        "",
        "https://issuer1.example.com,https://issuer2.example.com",
        "",
    );

    let claims = parse_jwt(&config, &token).unwrap();
    assert_eq!(claims.get(CLAIM_SUB).unwrap(), &text("user-456"));
}

#[test]
fn multi_issuer_rejects_unknown_issuer() {
    let token = Builder::new()
        .with_string(CLAIM_ISS, "https://unknown-issuer.example.com")
        .with_string(CLAIM_SUB, "user-123")
        .into_token("shared-secret")
        .unwrap();

    let config = env_config(
        Some("shared-secret"),
        "",
        "https://issuer1.example.com,https://issuer2.example.com",
        "",
    );

    let result = parse_jwt(&config, &token);
    assert!(result.is_err());
    assert_eq!(
        result.unwrap_err().message(),
        "Invalid JWT present: InvalidIssuer"
    );
}

const MIXED: &str = "https://secret-issuer.example.com=secret,https://jwks-issuer.example.com=jwks:/.well-known/jwks.json";

#[test]
fn per_issuer_strategy_with_mixed_config_accepts_secret_issuer() {
    // Token from issuer that uses shared secret
    let token = Builder::new()
        .with_string(CLAIM_ISS, "https://secret-issuer.example.com")
        .with_string(CLAIM_SUB, "user-123")
        .into_token("shared-secret")
        .unwrap();

    // Mixed config: one issuer uses secret, another uses jwks
    let config = env_config(Some("shared-secret"), "", MIXED, "");

    let claims = parse_jwt(&config, &token).unwrap();
    assert_eq!(claims.get(CLAIM_SUB).unwrap(), &text("user-123"));
}

#[test]
fn per_issuer_strategy_rejects_unknown_issuer() {
    let token = Builder::new()
        .with_string(CLAIM_ISS, "https://unknown.example.com")
        .with_string(CLAIM_SUB, "user-123")
        .into_token("shared-secret")
        .unwrap();

    // Mixed config triggers PerIssuer strategy
    let config = env_config(Some("shared-secret"), "", MIXED, "");

    let result = parse_jwt(&config, &token);
    assert!(result.is_err());
    let err = result.unwrap_err();
    assert_eq!(err.message(), "Invalid issuer or missing configuration");
    assert_eq!(into_rejection(err).status, 401);
}

#[test]
fn algorithm_validation_rejects_wrong_algorithm() {
    // Token uses HS256 (default in Builder)
    let token = Builder::new()
        .with_string(CLAIM_ISS, "https://issuer.example.com")
        .with_string(CLAIM_SUB, "user-123")
        .into_token("shared-secret")
        .unwrap();

    // Config only allows RS256
    let config = env_config(
        Some("shared-secret"),
        "RS256",
        "https://issuer.example.com",
        "",
    );

    let result = parse_jwt(&config, &token);
    assert!(result.is_err());
    let err = result.unwrap_err();
    assert_eq!(
        err.message(),
        "Invalid JWT present: Unsupported algorithm: HS256"
    );
    assert_eq!(into_rejection(err).status, 401);
}

#[test]
fn algorithm_validation_accepts_correct_algorithm() {
    // Token uses HS256
    let token = Builder::new()
        .with_string(CLAIM_ISS, "https://issuer.example.com")
        .with_string(CLAIM_SUB, "user-123")
        .into_token("shared-secret")
        .unwrap();

    // Config allows HS256 and RS256
    let config = env_config(
        Some("shared-secret"),
        "HS256,RS256",
        "https://issuer.example.com",
        "",
    );

    let claims = parse_jwt(&config, &token).unwrap();
    assert_eq!(claims.get(CLAIM_SUB).unwrap(), &text("user-123"));
}

#[test]
fn audience_validation_accepts_valid_audience() {
    let token = Builder::new()
        .with_string(CLAIM_ISS, "https://issuer.example.com")
        .with_string(CLAIM_SUB, "user-123")
        .with_string(CLAIM_AUD, "my-api")
        .into_token("shared-secret")
        .unwrap();

    let config = env_config(
        Some("shared-secret"),
        "",
        "https://issuer.example.com",
        "my-api,other-api",
    );

    let claims = parse_jwt(&config, &token).unwrap();
    assert_eq!(claims.get(CLAIM_SUB).unwrap(), &text("user-123"));
}

#[test]
fn audience_validation_rejects_wrong_audience() {
    let token = Builder::new()
        .with_string(CLAIM_ISS, "https://issuer.example.com")
        .with_string(CLAIM_SUB, "user-123")
        .with_string(CLAIM_AUD, "wrong-api")
        .into_token("shared-secret")
        .unwrap();

    let config = env_config(
        Some("shared-secret"),
        "",
        "https://issuer.example.com",
        "my-api",
    );

    let result = parse_jwt(&config, &token);
    assert!(result.is_err());
}

#[test]
fn an_audience_is_ignored_where_none_is_asked_for() {
    let token = Builder::new()
        .with_string(CLAIM_AUD, "any-api")
        .into_token("s")
        .unwrap();
    assert!(parse_jwt(&env_config(Some("s"), "", "", ""), &token).is_ok());
}

/// A configuration with a key source of its own for a given issuer.
fn custom_config(issuer: &str) -> AuthenticatorConfig {
    let mut issuers = TextSet::new();
    issuers.insert(issuer.to_owned());
    AuthenticatorConfig::new(
        None,
        issuers,
        None,
        "en-US".to_string(),
        None,
        KeySource::Custom(3),
    )
}

/// Fetches a key from a source of the test's own, which may ask for a key identifier.
fn custom_fetch<'a>(
    secret: &'a [u8],
    expected_kid: Option<&'a str>,
) -> impl Fn(&KeySource, &Header) -> Result<DecodingKey, Error> + 'a {
    move |source, header| {
        assert!(matches!(source, KeySource::Custom(3)));
        if expected_kid.is_some() && header.kid.as_deref() != expected_kid {
            return Err(Error::new(&format!(
                "Key ID mismatch: expected {:?}, got {:?}",
                expected_kid, header.kid
            )));
        }
        Ok(DecodingKey::from_secret(secret))
    }
}

#[test]
fn custom_key_fetcher_validates_token() {
    let issuer = "https://custom-idp.example.com";
    let token = Builder::new()
        .with_string(CLAIM_ISS, issuer)
        .with_string(CLAIM_SUB, "user-from-jwks")
        .into_token("jwks-secret-key")
        .unwrap();

    let claims = parse_with(
        &custom_config(issuer),
        &token,
        None,
        custom_fetch(b"jwks-secret-key", None),
    )
    .unwrap();
    assert_eq!(claims.get(CLAIM_SUB).unwrap(), &text("user-from-jwks"));
}

#[test]
fn custom_key_fetcher_rejects_wrong_key() {
    let issuer = "https://custom-idp.example.com";
    let token = Builder::new()
        .with_string(CLAIM_ISS, issuer)
        .with_string(CLAIM_SUB, "user-from-jwks")
        .into_token("actual-secret")
        .unwrap();

    let result = parse_with(
        &custom_config(issuer),
        &token,
        None,
        custom_fetch(b"wrong-secret", None),
    );
    assert!(result.is_err());
}

fn token_with_kid(issuer: &str, kid: &str) -> String {
    let mut header = jsonwebtoken::Header::new(jsonwebtoken::Algorithm::HS256);
    header.kid = Some(kid.to_string());
    let exp = jsonwebtoken::get_current_timestamp() + 3600;
    let mut claims = std::collections::HashMap::new();
    claims.insert(CLAIM_ISS.to_string(), serde_json::Value::from(issuer));
    claims.insert(CLAIM_SUB.to_string(), serde_json::Value::from("user-with-kid"));
    claims.insert("exp".to_string(), serde_json::Value::from(exp));
    let key = jsonwebtoken::EncodingKey::from_secret(b"jwks-secret");
    jsonwebtoken::encode(&header, &claims, &key).unwrap()
}

#[test]
fn custom_key_fetcher_can_validate_kid() {
    let issuer = "https://custom-idp.example.com";
    let token = token_with_kid(issuer, "key-123");

    let claims = parse_with(
        &custom_config(issuer),
        &token,
        None,
        custom_fetch(b"jwks-secret", Some("key-123")),
    )
    .unwrap();
    assert_eq!(claims.get(CLAIM_SUB).unwrap(), &text("user-with-kid"));
}

#[test]
fn custom_key_fetcher_rejects_wrong_kid() {
    let issuer = "https://custom-idp.example.com";
    let token = token_with_kid(issuer, "wrong-key-id");

    let result = parse_with(
        &custom_config(issuer),
        &token,
        None,
        custom_fetch(b"jwks-secret", Some("expected-key-id")),
    );
    assert!(result.is_err());
    let err = result.err().unwrap();
    assert!(err.message().contains("Key ID mismatch"));
    assert_eq!(into_rejection(err).status, 401);
}

#[test]
fn headers_name_the_algorithm_and_the_key() {
    let header = decode_header(&token_with_kid("i", "k1")).unwrap();
    assert_eq!(header.alg, Algorithm::HS256);
    assert_eq!(header.kid.as_deref(), Some("k1"));
    let header = decode_header(&Builder::new().into_token("s").unwrap()).unwrap();
    assert_eq!(header.kid, None);
    assert!(decode_header("x").is_err());
}

#[test]
fn parse_jwt_rejects_expired_token() {
    // Create token that expired 1 hour ago
    let expired_exp = jsonwebtoken::get_current_timestamp() - 3600;

    let token = Builder::new()
        .with_string(CLAIM_SUB, "user-123")
        .with_value("exp", Json::Unsigned(expired_exp))
        .into_token("test-secret")
        .unwrap();

    let authenticator = Authenticator::with_simple_secret("test-secret");
    let result = parse_jwt(&authenticator.config, &token);

    assert!(result.is_err());
    let err_msg = format!("{:?}", result.unwrap_err());
    assert!(
        err_msg.contains("exp") || err_msg.contains("Expired"),
        "Expected error about expiration, got: {}",
        err_msg
    );
}

#[test]
fn parse_jwt_accepts_token_not_yet_expired() {
    // Create token that expires in 1 hour
    let future_exp = jsonwebtoken::get_current_timestamp() + 3600;

    let token = Builder::new()
        .with_string(CLAIM_SUB, "user-123")
        .with_value("exp", Json::Unsigned(future_exp))
        .into_token("test-secret")
        .unwrap();

    let authenticator = Authenticator::with_simple_secret("test-secret");
    let claims = parse_jwt(&authenticator.config, &token).unwrap();

    assert_eq!(claims.get(CLAIM_SUB).unwrap(), &text("user-123"));
}

#[test]
fn a_token_is_accepted_within_the_leeway() {
    let authenticator = Authenticator::with_simple_secret("test-secret");
    let recent = jsonwebtoken::get_current_timestamp() - 30;
    let token = Builder::new()
        .with_value("exp", Json::Unsigned(recent))
        .into_token("test-secret")
        .unwrap();
    assert!(parse_jwt(&authenticator.config, &token).is_ok());

    let token = Builder::new()
        .with_value("exp", Json::Null)
        .into_token("test-secret")
        .unwrap();
    assert!(parse_jwt(&authenticator.config, &token).is_err());

    let later = jsonwebtoken::get_current_timestamp() + 600;
    let token = Builder::new()
        .with_value("nbf", Json::Unsigned(later))
        .into_token("test-secret")
        .unwrap();
    assert!(parse_jwt(&authenticator.config, &token).is_err());
}

#[test]
fn other_algorithms_for_shared_secrets_are_accepted_too() {
    let claims = || Builder::new().with_string(CLAIM_SUB, "u").build().claims;
    let authenticator = Authenticator::with_simple_secret("test-secret");
    for alg in [Algorithm::HS384, Algorithm::HS512] {
        let token = sign_claims(claims(), alg, b"test-secret").unwrap();
        assert_eq!(decode_header(&token).unwrap().alg, alg);
        let parsed = parse_jwt(&authenticator.config, &token).unwrap();
        assert_eq!(parsed.get(CLAIM_SUB).unwrap(), &text("u"));
    }
    for alg in [Algorithm::RS256, Algorithm::ES256, Algorithm::EdDSA] {
        let err = sign_claims(claims(), alg, b"test-secret").unwrap_err();
        assert_eq!(err, "InvalidAlgorithm");
    }
}

#[test]
fn issuers_and_audiences_may_be_lists() {
    let config = env_config(Some("s"), "", "https://a,https://b", "api");
    let accepts = |iss: Json, aud: Json| {
        let token = Builder::new()
            .with_value(CLAIM_ISS, iss)
            .with_value(CLAIM_AUD, aud)
            .with_value("nbf", Json::Unsigned(jsonwebtoken::get_current_timestamp()))
            .with_value(CLAIM_SUB, Json::Unsigned(5))
            .into_token("s")
            .unwrap();
        parse_jwt(&config, &token).is_ok()
    };
    let list = |items: &[&str]| Json::Array(items.iter().map(|item| text(item)).collect());
    assert!(accepts(text("https://b"), text("api")));
    assert!(accepts(list(&["x", "https://a"]), list(&["api", "y"])));
    assert!(!accepts(list(&["x"]), text("api")));
    assert!(!accepts(list(&[]), text("api")));
    assert!(!accepts(text("https://a"), list(&["y"])));
    assert!(accepts(Json::Bool(true), Json::Null));
    assert!(accepts(Json::Array(vec![text("x"), Json::Null]), Json::Unsigned(1)));
}

#[test]
fn a_list_without_known_algorithms_still_restricts() {
    let token = || {
        Builder::new()
            .with_string(CLAIM_ISS, "https://i")
            .into_token("s")
            .unwrap()
    };
    for algorithms in ["UNKNOWN", "hs256", "x;y", "RS256"] {
        let config = env_config(Some("s"), algorithms, "https://i", "");
        let err = parse_jwt(&config, &token()).unwrap_err();
        assert_eq!(err.message(), "Invalid JWT present: Unsupported algorithm: HS256");
        assert_eq!(into_rejection(err).status, 401);
    }
    for algorithms in ["", " , ;", "HS256", "UNKNOWN,HS256"] {
        let config = env_config(Some("s"), algorithms, "https://i", "");
        assert!(parse_jwt(&config, &token()).is_ok());
    }
}

fn token_of(header: &str, claims: &str) -> String {
    let encode = |text: &str| base64::engine::general_purpose::URL_SAFE_NO_PAD.encode(text);
    format!("{}.{}.{}", encode(header), encode(claims), encode("signature"))
}

#[test]
fn keys_that_are_too_short_are_refused() {
    let config = custom_config("https://i");
    let parse = |token: &str, key: &[u8]| {
        parse_with(&config, token, None, |_, _| Ok(DecodingKey::from_ed_der(key)))
            .map(|_| ())
            .unwrap_err()
    };
    let token = token_of("{\"alg\":\"EdDSA\"}", "{\"exp\":9999999999}");
    for length in [0, 1, 31] {
        let err = parse(&token, &vec![1; length]);
        assert_eq!(err.message(), "Invalid JWT present: InvalidEddsaKey");
        assert_eq!(into_rejection(err).status, 401);
    }
    for length in [32, 40] {
        assert_eq!(into_rejection(parse(&token, &vec![1; length])).status, 401);
    }
    let token = Builder::new().into_token("s").unwrap();
    assert_eq!(parse(&token, &[]).message(), "Invalid JWT present: InvalidKeyFormat");
}

/// Asks fetchers for the configuration of a token, each of which answers where a claim has a value.
fn fetched<'a>(
    fetchers: &[(&str, &str, &'a AuthenticatorConfig)],
    claims: &ClaimsSet,
) -> (usize, Option<&'a AuthenticatorConfig>) {
    let mut search = ConfigSearch::new(fetchers.len());
    let mut asked = 0;
    while let Some(n) = search.next() {
        let (name, value, config) = fetchers[n];
        let matches = claims.get(name).and_then(Json::as_str) == Some(value);
        search = search.answered(matches.then_some(config));
        asked += 1;
    }
    (asked, search.into_found())
}

fn parse_fetched(
    fetchers: &[(&str, &str, &AuthenticatorConfig)],
    default: &AuthenticatorConfig,
    token: &str,
) -> Result<ClaimsSet, Error> {
    let claims = Authenticator::read_claims(token)?;
    let (_, config) = fetched(fetchers, &claims);
    parse_jwt(config.unwrap_or(default), token)
}

fn german_config(secret: &str) -> AuthenticatorConfig {
    AuthenticatorConfig::from_env_style_config(Some(secret), "", "", "", "de-DE".to_string(), None)
        .unwrap()
}

#[test]
fn parse_jwt_uses_fetched_config_when_matched() {
    // Token signed with "fetcher-secret"
    let token = Builder::new()
        .with_string(CLAIM_SUB, "user-123")
        .with_string(CLAIM_TENANT, "special-tenant")
        .into_token("fetcher-secret")
        .unwrap();

    // Default authenticator uses "default-secret" (won't work for this token)
    let authenticator = Authenticator::with_simple_secret("default-secret");

    // Fetcher that returns config with "fetcher-secret" for special-tenant
    let fetcher_config = german_config("fetcher-secret");
    let fetchers = [(CLAIM_TENANT, "special-tenant", &fetcher_config)];

    // Should succeed because fetcher provides the correct secret
    let claims = parse_fetched(&fetchers, &authenticator.config, &token).unwrap();
    assert_eq!(claims.get(CLAIM_SUB).unwrap(), &text("user-123"));
    // Should use fetcher's default locale
    assert_eq!(claims.get(CLAIM_LOCALE).unwrap(), &text("de-DE"));
}

#[test]
fn parse_jwt_falls_back_to_default_config_when_no_fetcher_matches() {
    // Token signed with "default-secret"
    let token = Builder::new()
        .with_string(CLAIM_SUB, "user-456")
        .with_string(CLAIM_TENANT, "normal-tenant")
        .into_token("default-secret")
        .unwrap();

    let authenticator = Authenticator::with_simple_secret("default-secret");

    // Fetcher that only matches "special-tenant"
    let fetcher_config = german_config("fetcher-secret");
    let fetchers = [(CLAIM_TENANT, "special-tenant", &fetcher_config)];

    // Should succeed using default config (fetcher doesn't match)
    let claims = parse_fetched(&fetchers, &authenticator.config, &token).unwrap();
    assert_eq!(claims.get(CLAIM_SUB).unwrap(), &text("user-456"));
    // Should use default locale from default config
    assert_eq!(claims.get(CLAIM_LOCALE).unwrap(), &text("en-US"));
}

#[test]
fn parse_jwt_fails_when_fetcher_matches_but_secret_wrong() {
    // Token signed with "actual-secret"
    let token = Builder::new()
        .with_string(CLAIM_SUB, "user-123")
        .with_string(CLAIM_TENANT, "special-tenant")
        .into_token("actual-secret")
        .unwrap();

    let authenticator = Authenticator::with_simple_secret("default-secret");

    // Fetcher returns config with wrong secret
    let fetcher_config = german_config("wrong-secret");
    let fetchers = [(CLAIM_TENANT, "special-tenant", &fetcher_config)];

    // Should fail because fetcher's secret doesn't match
    let result = parse_fetched(&fetchers, &authenticator.config, &token);
    assert!(result.is_err());
}

#[test]
fn the_first_fetcher_that_answers_counts() {
    let (a, b) = (german_config("a"), german_config("b"));
    let mut claims = ClaimsSet::new();
    claims.insert(CLAIM_TENANT.to_string(), text("t"));
    let fetchers = [
        (CLAIM_TENANT, "other", &a),
        (CLAIM_TENANT, "t", &b),
        (CLAIM_TENANT, "t", &a),
    ];
    let (asked, found) = fetched(&fetchers, &claims);
    assert_eq!(asked, 2);
    assert!(std::ptr::eq(found.unwrap(), &b));
    assert_eq!(fetched(&fetchers, &ClaimsSet::new()).0, 3);
    assert!(fetched(&fetchers, &ClaimsSet::new()).1.is_none());
    assert_eq!(fetched(&[], &claims).0, 0);
}

#[test]
fn claims_may_be_changed_before_the_locale_is_chosen() {
    let mut config = german_config("s");
    config.custom_claim_prefix = Some("x:".to_string());
    let token = Builder::new().with_string("x:tenant", "t").into_token("s").unwrap();
    let validate = |secret: &str| {
        let claims = Authenticator::read_claims(&token)?;
        let (header, _) = config.check_header(&claims, &token)?;
        let key = Ok(DecodingKey::from_secret(secret.as_bytes()));
        Authenticator::validate_and_translate(&token, &header, key, &config)
    };
    let mut claims = validate("s").unwrap();
    assert_eq!(claims.get("tenant"), Some(&text("t")));
    assert!(!claims.contains_key(CLAIM_LOCALE));
    claims.insert(CLAIM_LOCALE.to_string(), text("fr"));
    Authenticator::inject_locale_if_missing(&mut claims, &config, None);
    assert_eq!(claims.get(CLAIM_LOCALE), Some(&text("fr")));

    let mut claims = validate("s").unwrap();
    Authenticator::inject_locale_if_missing(&mut claims, &config, None);
    assert_eq!(claims.get(CLAIM_LOCALE), Some(&text("de-DE")));
    assert!(validate("wrong").is_err());
}
