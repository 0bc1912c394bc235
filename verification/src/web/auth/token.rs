//! Signed tokens: reading, signing and verifying them.

use crate::json::{contents, members, named_once, set_of, ClaimsSet, Json, JsonView};
use crate::text::{law_split_cuts_at_every_separator, same, split, split_str, views};
use crate::text_map::TextSet;
use crate::web::auth::{CLAIM_AUD, CLAIM_ISS, CLAIM_SUB};
use crate::web::error::{plain, Error, ErrorView, UNAUTHORIZED};
use base64::Engine;
use vstd::prelude::*;

verus! {

broadcast use vstd::string::group_string_axioms;

/// A signature algorithm.
#[derive(Clone, Copy, Debug, PartialEq, Eq, Structural)]
pub enum Algorithm {
    HS256,
    HS384,
    HS512,
    ES256,
    ES384,
    RS256,
    RS384,
    RS512,
    PS256,
    PS384,
    PS512,
    EdDSA,
}

/// The name of an algorithm, as tokens carry it.
pub open spec fn algorithm_name(alg: Algorithm) -> Seq<char> {
    match alg {
        Algorithm::HS256 => "HS256"@,
        Algorithm::HS384 => "HS384"@,
        Algorithm::HS512 => "HS512"@,
        Algorithm::ES256 => "ES256"@,
        Algorithm::ES384 => "ES384"@,
        Algorithm::RS256 => "RS256"@,
        Algorithm::RS384 => "RS384"@,
        Algorithm::RS512 => "RS512"@,
        Algorithm::PS256 => "PS256"@,
        Algorithm::PS384 => "PS384"@,
        Algorithm::PS512 => "PS512"@,
        Algorithm::EdDSA => "EdDSA"@,
    }
}

/// No two algorithms have the same name.
pub proof fn law_algorithm_names_differ(a: Algorithm, b: Algorithm)
    requires
        algorithm_name(a) == algorithm_name(b),
    ensures
        a == b,
{
    reveal_strlit("HS256");
    reveal_strlit("HS384");
    reveal_strlit("HS512");
    reveal_strlit("ES256");
    reveal_strlit("ES384");
    reveal_strlit("RS256");
    reveal_strlit("RS384");
    reveal_strlit("RS512");
    reveal_strlit("PS256");
    reveal_strlit("PS384");
    reveal_strlit("PS512");
    reveal_strlit("EdDSA");
    let x = algorithm_name(a);
    let y = algorithm_name(b);
    assert(x[0] == y[0] && x[2] == y[2]);
}

impl Algorithm {
    /// The name of the algorithm.
    pub fn name(&self) -> (r: &'static str)
        ensures
            r@ == algorithm_name(*self),
    {
        match self {
            Algorithm::HS256 => "HS256",
            Algorithm::HS384 => "HS384",
            Algorithm::HS512 => "HS512",
            Algorithm::ES256 => "ES256",
            Algorithm::ES384 => "ES384",
            Algorithm::RS256 => "RS256",
            Algorithm::RS384 => "RS384",
            Algorithm::RS512 => "RS512",
            Algorithm::PS256 => "PS256",
            Algorithm::PS384 => "PS384",
            Algorithm::PS512 => "PS512",
            Algorithm::EdDSA => "EdDSA",
        }
    }

    /// The algorithm of the given name.
    pub fn from_name(name: &str) -> (r: Option<Algorithm>)
        ensures
            match r {
                Some(alg) => name@ == algorithm_name(alg),
                None => forall|alg: Algorithm|
                    #![trigger algorithm_name(alg)]
                    name@ != algorithm_name(alg),
            },
    {
        let all: [Algorithm; 12] = [
            Algorithm::HS256,
            Algorithm::HS384,
            Algorithm::HS512,
            Algorithm::ES256,
            Algorithm::ES384,
            Algorithm::RS256,
            Algorithm::RS384,
            Algorithm::RS512,
            Algorithm::PS256,
            Algorithm::PS384,
            Algorithm::PS512,
            Algorithm::EdDSA,
        ];
        let mut i: usize = 0;
        while i < 12
            invariant
                i <= 12,
                forall|k: int| 0 <= k < i ==> name@ != algorithm_name(#[trigger] all@[k]),
            decreases 12 - i,
        {
            if same(name, all[i].name()) {
                return Some(all[i]);
            }
            i += 1;
        }
        proof {
            assert forall|alg: Algorithm| name@ != #[trigger] algorithm_name(alg) by {
                assert(all@[0] == Algorithm::HS256 && all@[1] == Algorithm::HS384 && all@[2]
                    == Algorithm::HS512 && all@[3] == Algorithm::ES256 && all@[4]
                    == Algorithm::ES384 && all@[5] == Algorithm::RS256 && all@[6]
                    == Algorithm::RS384 && all@[7] == Algorithm::RS512 && all@[8]
                    == Algorithm::PS256 && all@[9] == Algorithm::PS384 && all@[10]
                    == Algorithm::PS512 && all@[11] == Algorithm::EdDSA);
            }
        }
        None
    }
}

/// The key that a signature is verified with.
#[verifier::external_type_specification]
#[verifier::external_body]
pub struct ExDecodingKey(jsonwebtoken::DecodingKey);

/// The key made of a shared secret.
pub uninterp spec fn secret_key(secret: Seq<u8>) -> jsonwebtoken::DecodingKey;

/// `DecodingKey::from_secret`: a key that depends on the secret alone.
pub assume_specification[ jsonwebtoken::DecodingKey::from_secret ](secret: &[u8]) -> (r:
    jsonwebtoken::DecodingKey)
    ensures
        r == secret_key(secret@),
;

/// `Clone::clone` of a key: the same key once more.
pub assume_specification[ <jsonwebtoken::DecodingKey as Clone>::clone ](
    key: &jsonwebtoken::DecodingKey,
) -> (r: jsonwebtoken::DecodingKey)
    ensures
        r == *key,
;

/// The bytes of a key for the algorithms of the Edwards curves; keys for other algorithms have none.
pub uninterp spec fn ed_key_bytes(key: jsonwebtoken::DecodingKey) -> Option<Seq<u8>>;

/// `DecodingKey::family` and `DecodingKey::as_bytes`: the bytes of a key of the family `Ed`.
#[verifier::external_body]
fn ed_bytes(key: &jsonwebtoken::DecodingKey) -> (r: Option<Vec<u8>>)
    ensures
        match (r, ed_key_bytes(*key)) {
            (Some(bytes), Some(exact)) => bytes@ == exact,
            (None, None) => true,
            _ => false,
        },
{
    match key.family() {
        jsonwebtoken::AlgorithmFamily::Ed => Some(key.as_bytes().to_vec()),
        jsonwebtoken::AlgorithmFamily::Hmac => None,
        jsonwebtoken::AlgorithmFamily::Rsa => None,
        jsonwebtoken::AlgorithmFamily::Ec => None,
    }
}

/// The number of bytes of a key for the Edwards curve.
pub const ED_KEY_LENGTH: usize = 32;

/// Whether a key cannot be used under the given rules: they allow the algorithm of the Edwards
/// curve, and the key is one for it that is too short.
pub open spec fn is_unusable(key: jsonwebtoken::DecodingKey, rules: ValidationView) -> bool {
    &&& rules.algorithms.contains(Algorithm::EdDSA)
    &&& ed_key_bytes(key) is Some
    &&& ed_key_bytes(key)->0.len() < ED_KEY_LENGTH
}

/// Whether an algorithm is among others.
pub fn is_among(alg: Algorithm, algorithms: &Vec<Algorithm>) -> (r: bool)
    ensures
        r == algorithms@.contains(alg),
{
    let mut i: usize = 0;
    while i < algorithms.len()
        invariant
            i <= algorithms@.len(),
            forall|k: int| 0 <= k < i ==> #[trigger] algorithms@[k] != alg,
        decreases algorithms@.len() - i,
    {
        if algorithms[i] == alg {
            assert(algorithms@[i as int] == alg);
            return true;
        }
        i += 1;
    }
    false
}

/// What an unpadded, URL-safe base64 text stands for, or why it stands for nothing.
pub uninterp spec fn base64url_decoded(text: Seq<char>) -> Result<Seq<u8>, Seq<char>>;

/// `decode` of base64's engine `URL_SAFE_NO_PAD`: the bytes that the text stands for, or the
/// message of the error.
#[verifier::external_body]
fn decode_base64url(text: &str) -> (r: Result<Vec<u8>, String>)
    ensures
        match (r, base64url_decoded(text@)) {
            (Ok(bytes), Ok(exact)) => bytes@ == exact,
            (Err(err), Err(exact)) => err@ == exact,
            _ => false,
        },
{
    base64::engine::general_purpose::URL_SAFE_NO_PAD.decode(text).map_err(|err| err.to_string())
}

/// The members of the JSON object that some bytes hold, or why they hold none.
pub uninterp spec fn parsed_claims(bytes: Seq<u8>) -> Result<
    Map<Seq<char>, JsonView>,
    Seq<char>,
>;

/// `serde_json::from_slice` for JSON values by name: the members of the object that the bytes hold,
/// each name once, or the message of the error.
#[verifier::external_body]
fn parse_object(bytes: &[u8]) -> (r: Result<Vec<(String, serde_json::Value)>, String>)
    ensures
        match (r, parsed_claims(bytes@)) {
            (Ok(entries), Ok(exact)) => named_once(entries@) && members(entries@) == exact,
            (Err(err), Err(exact)) => err@ == exact,
            _ => false,
        },
{
    serde_json::from_slice::<std::collections::BTreeMap<String, serde_json::Value>>(bytes)
        .map(|map| map.into_iter().collect())
        .map_err(|err| err.to_string())
}

/// What the header of a token says: the name of the algorithm and the key, if it names one.
pub struct HeaderView {
    pub alg: Algorithm,
    pub kid: Option<Seq<char>>,
}

/// The algorithm and the key that a token names in its header, or why it has no header.
pub uninterp spec fn token_header(token: Seq<char>) -> Result<
    (Seq<char>, Option<Seq<char>>),
    Seq<char>,
>;

/// `jsonwebtoken::decode_header`: the name of the algorithm, always that of one of the twelve, and
/// the key identifier, or the message of the error.
#[verifier::external_body]
fn read_header(token: &str) -> (r: Result<(String, Option<String>), String>)
    ensures
        match (r, token_header(token@)) {
            (Ok(header), Ok(exact)) => {
                &&& header.0@ == exact.0
                &&& exists|alg: Algorithm| header.0@ == #[trigger] algorithm_name(alg)
                &&& match (header.1, exact.1) {
                    (Some(kid), Some(text)) => kid@ == text,
                    (None, None) => true,
                    _ => false,
                }
            },
            (Err(err), Err(exact)) => err@ == exact,
            _ => false,
        },
{
    jsonwebtoken::decode_header(token)
        .map(|header| (format!("{:?}", header.alg), header.kid))
        .map_err(|err| err.to_string())
}

/// The rules that a token has to meet, besides its time of expiry.
pub struct Validation {
    /// Whether tokens of any algorithm are looked at.
    pub any_algorithm: bool,
    /// The algorithms of which the token has to use one.
    pub algorithms: Vec<Algorithm>,
    /// The issuers of which the token has to name one, if it names any.
    pub iss: TextSet,
    /// The audiences of which the token has to name one, if it names any.
    pub aud: Option<TextSet>,
    /// Whether the token's earliest time of use counts.
    pub validate_nbf: bool,
    /// Whether the audience counts.
    pub validate_aud: bool,
}

/// What the rules for a token are.
pub struct ValidationView {
    pub any_algorithm: bool,
    pub algorithms: Seq<Algorithm>,
    pub iss: Set<Seq<char>>,
    pub aud: Option<Set<Seq<char>>>,
    pub validate_nbf: bool,
    pub validate_aud: bool,
}

impl ValidationView {
    /// The same rules for one algorithm alone.
    pub open spec fn only(self, alg: Algorithm) -> ValidationView {
        ValidationView { any_algorithm: false, algorithms: seq![alg], ..self }
    }
}

impl View for Validation {
    type V = ValidationView;

    open spec fn view(&self) -> ValidationView {
        ValidationView {
            any_algorithm: self.any_algorithm,
            algorithms: self.algorithms@,
            iss: self.iss@,
            aud: match self.aud {
                Some(set) => Some(set@),
                None => None,
            },
            validate_nbf: self.validate_nbf,
            validate_aud: self.validate_aud,
        }
    }
}

/// The payload of a token: what stands between its first two dots.
pub open spec fn payload(token: Seq<char>) -> Option<Seq<char>> {
    let parts = split(token, '.');
    if parts.len() > 1 {
        Some(parts[1])
    } else {
        None
    }
}

/// The claims in the payload of a token, or why there are none.
pub open spec fn payload_claims(token: Seq<char>) -> Result<
    Map<Seq<char>, JsonView>,
    ErrorView,
> {
    match payload(token) {
        None => Err(plain("Cannot extract payload part"@)),
        Some(text) => match base64url_decoded(text) {
            Err(message) => Err(
                unauthorized_error("Cannot decode Base64 payload"@, message),
            ),
            Ok(bytes) => match parsed_claims(bytes) {
                Err(message) => Err(
                    unauthorized_error("Cannot parse payload as JSON"@, message),
                ),
                Ok(claims) => Ok(claims),
            },
        },
    }
}

/// A failure of reading a token: what was attempted and what the error was.
pub open spec fn unauthorized_error(attempt: Seq<char>, message: Seq<char>) -> ErrorView {
    plain(message).with_context(attempt).with_status(UNAUTHORIZED)
}

/// What verifying a token at the given time, in seconds since the epoch, comes to: the claims of
/// the token or the message of the error.
pub uninterp spec fn decoded_token(
    token: Seq<char>,
    key: jsonwebtoken::DecodingKey,
    rules: ValidationView,
    now: u64,
) -> Result<Map<Seq<char>, JsonView>, Seq<char>>;

/// `jsonwebtoken::decode`, with the rules given and its defaults otherwise: an expiry time is
/// required and counts with 60 seconds of leeway. The outcome depends on the arguments and on the
/// time of the call; signatures are computed by the one crypto provider that is compiled in, which
/// takes the first 32 bytes of a key for the Edwards curve. The algorithms listed count, whether or
/// not any is allowed. The clock is taken to be past the first minute after the epoch. Of a token
/// that is accepted, what [`is_admitted`] says holds.
#[verifier::external_body]
fn decode_token(
    token: &str,
    key: &jsonwebtoken::DecodingKey,
    rules: &Validation,
) -> (r: Result<Vec<(String, serde_json::Value)>, String>)
    requires
        !is_unusable(*key, rules@),
    ensures
        exists|now: u64|
            match (r, #[trigger] decoded_token(token@, *key, rules@, now)) {
                (Ok(entries), Ok(exact)) => {
                    &&& named_once(entries@)
                    &&& members(entries@) == exact
                    &&& is_admitted(token@, rules@, exact, now)
                },
                (Err(err), Err(exact)) => err@ == exact,
                _ => false,
            },
{
    let algorithms = rules.algorithms.iter().map(|alg| alg.name().parse());
    let algorithms: Result<_, jsonwebtoken::errors::Error> = algorithms.collect();
    let mut validation = jsonwebtoken::Validation::default();
    validation.algorithms = algorithms.map_err(|err| err.to_string())?;
    validation.set_issuer(&rules.iss.items());
    validation.aud = rules.aud.as_ref().map(|set| set.items().into_iter().collect());
    validation.validate_nbf = rules.validate_nbf;
    validation.validate_aud = rules.validate_aud;
    jsonwebtoken::decode::<serde_json::Map<String, serde_json::Value>>(token, key, &validation)
        .map(|data| data.claims.into_iter().collect())
        .map_err(|err| err.to_string())
}

/// Whether a claim that may name one or several of a set does name one: a text has to be in the
/// set, and of a list of texts one has to be. A claim of any other kind names nothing.
pub open spec fn names_one_of(
    claims: Map<Seq<char>, JsonView>,
    name: Seq<char>,
    set: Set<Seq<char>>,
) -> bool {
    claims.dom().contains(name) ==> match claims[name] {
        JsonView::Text(text) => set.contains(text),
        JsonView::Array(items) => (forall|i: int|
            0 <= i < items.len() ==> (#[trigger] items[i]) is Text) ==> exists|i: int|
            0 <= i < items.len() && set.contains((#[trigger] items[i])->Text_0),
        _ => true,
    }
}

/// What holds of every token that is accepted under the given rules at the given time: it has one
/// of the algorithms asked for and the claims of its payload, it has not expired, it may be used
/// already, and the issuer and the audience that it names are among those asked for.
pub open spec fn is_admitted(
    token: Seq<char>,
    rules: ValidationView,
    claims: Map<Seq<char>, JsonView>,
    now: u64,
) -> bool {
    &&& payload_claims(token) == Ok::<_, ErrorView>(claims)
    &&& token_header(token) is Ok
    &&& exists|i: int|
        0 <= i < rules.algorithms.len() && token_header(token)->Ok_0.0 == #[trigger] algorithm_name(
            rules.algorithms[i],
        )
    &&& claims.dom().contains("exp"@)
    &&& claims["exp"@] is Integer ==> claims["exp"@]->Integer_0 + 60 >= now
    &&& rules.validate_nbf && claims.dom().contains("nbf"@) && claims["nbf"@] is Integer
        ==> claims["nbf"@]->Integer_0 <= now + 60
    &&& names_one_of(claims, CLAIM_ISS@, rules.iss)
    &&& rules.validate_aud && rules.aud is Some ==> names_one_of(claims, CLAIM_AUD@, rules.aud->0)
}

/// Whether a value is read back as it was written: it has no number that is no integer, and is
/// not nested deeper than `depth`.
pub open spec fn reads_back(json: JsonView, depth: nat) -> bool
    decreases depth,
{
    match json {
        JsonView::Decimal(_) => false,
        JsonView::Array(items) => depth > 0 && forall|i: int|
            0 <= i < items.len() ==> #[trigger] reads_back(items[i], (depth - 1) as nat),
        JsonView::Object(members) => depth > 0 && forall|k: Seq<char>|
            members.dom().contains(k) ==> #[trigger] reads_back(members[k], (depth - 1) as nat),
        _ => true,
    }
}

/// The greatest depth to which JSON may be nested to be read.
pub const MAX_JSON_DEPTH: u8 = 127;

/// Whether a token that was signed with a shared secret is accepted at the time `now`: its claims
/// read back, it has not expired and may be used already, and the issuer and the audience that it
/// names are among those asked for.
pub open spec fn is_acceptable(
    claims: Map<Seq<char>, JsonView>,
    alg: Algorithm,
    rules: ValidationView,
    now: u64,
) -> bool {
    &&& reads_back(JsonView::Object(claims), MAX_JSON_DEPTH as nat)
    &&& rules.algorithms == seq![alg]
    &&& claims.dom().contains("exp"@) && claims["exp"@] is Integer
    &&& 60 <= now <= claims["exp"@]->Integer_0 + 60
    &&& claims.dom().contains("nbf"@) ==> claims["nbf"@] is Integer && 0
        <= claims["nbf"@]->Integer_0 <= now + 60
    &&& claims.dom().contains(CLAIM_SUB@) ==> !(claims[CLAIM_SUB@] is Array)
        && !(claims[CLAIM_SUB@] is Object)
    &&& names_one_of(claims, CLAIM_ISS@, rules.iss)
    &&& rules.validate_aud ==> rules.aud is Some && names_one_of(
        claims,
        CLAIM_AUD@,
        rules.aud->0,
    )
}

/// Whether an algorithm signs with a shared secret.
pub open spec fn signs_with_secret(alg: Algorithm) -> bool {
    alg == Algorithm::HS256 || alg == Algorithm::HS384 || alg == Algorithm::HS512
}

/// The token that a shared secret signs some claims into with an algorithm.
pub uninterp spec fn signed_token(
    claims: Map<Seq<char>, JsonView>,
    alg: Algorithm,
    secret: Seq<u8>,
) -> Seq<char>;

/// What holds of every token that a shared secret signs: its header names the algorithm and no
/// key, its payload reads back as the claims, and it is accepted with the same secret, where the
/// claims are such that this can be.
pub open spec fn is_signed_token(
    token: Seq<char>,
    claims: Map<Seq<char>, JsonView>,
    alg: Algorithm,
    secret: Seq<u8>,
) -> bool {
    &&& signs_with_secret(alg)
    &&& token_header(token) == Ok::<(Seq<char>, Option<Seq<char>>), Seq<char>>(
        (algorithm_name(alg), None),
    )
    &&& reads_back(JsonView::Object(claims), MAX_JSON_DEPTH as nat) ==> payload_claims(token)
        == Ok::<Map<Seq<char>, JsonView>, ErrorView>(claims)
    &&& forall|rules: ValidationView, now: u64|
        is_acceptable(claims, alg, rules, now) ==> #[trigger] decoded_token(
            token,
            secret_key(secret),
            rules,
            now,
        ) == Ok::<Map<Seq<char>, JsonView>, Seq<char>>(claims)
}

/// `jsonwebtoken::encode` with a shared secret: the token where the algorithm is one for shared
/// secrets, and else the message `InvalidAlgorithm`. The header of the token names the algorithm
/// and no key. Its payload reads back as the claims that were signed, and the token is accepted by
/// a verification with the same secret, where the claims are such that they can be.
#[verifier::external_body]
fn encode_token(claims: &serde_json::Value, alg: Algorithm, secret: &[u8]) -> (r: Result<
    String,
    String,
>)
    requires
        contents(*claims) is Object,
    ensures
        match r {
            Ok(token) => {
                &&& token@ == signed_token(contents(*claims)->Object_0, alg, secret@)
                &&& is_signed_token(token@, contents(*claims)->Object_0, alg, secret@)
            },
            Err(err) => !signs_with_secret(alg) && err@ == "InvalidAlgorithm"@,
        },
{
    let alg: Result<jsonwebtoken::Algorithm, jsonwebtoken::errors::Error> = alg.name().parse();
    jsonwebtoken::encode(
        &jsonwebtoken::Header::new(alg.map_err(|err| err.to_string())?),
        claims,
        &jsonwebtoken::EncodingKey::from_secret(secret),
    ).map_err(|err| err.to_string())
}

/// The result of an attempt, with a failure turned into an error of status 401.
pub fn unauthorized<T>(result: Result<T, String>, attempt: &str) -> (r: Result<T, Error>)
    ensures
        match result {
            Ok(t) => r == Ok::<T, Error>(t),
            Err(message) => r is Err && r->Err_0@ == unauthorized_error(attempt@, message@),
        },
{
    match result {
        Ok(t) => Ok(t),
        Err(message) => Err(
            Error::new(message.as_str()).context(attempt).with_status(UNAUTHORIZED),
        ),
    }
}

/// The header of a token.
pub struct Header {
    /// The algorithm that the token is signed with.
    pub alg: Algorithm,
    /// The key that the token is signed with.
    pub kid: Option<String>,
}

impl View for Header {
    type V = HeaderView;

    open spec fn view(&self) -> HeaderView {
        HeaderView {
            alg: self.alg,
            kid: match self.kid {
                Some(kid) => Some(kid@),
                None => None,
            },
        }
    }
}

/// The header of a token, or why it has none.
pub open spec fn header_of(token: Seq<char>) -> Result<HeaderView, ErrorView> {
    match token_header(token) {
        Ok(header) => Ok(
            HeaderView {
                alg: choose|alg: Algorithm| #[trigger] algorithm_name(alg) == header.0,
                kid: header.1,
            },
        ),
        Err(message) => Err(unauthorized_error("Invalid JWT present"@, message)),
    }
}

/// Reads the header of a token.
pub fn decode_header(token: &str) -> (r: Result<Header, Error>)
    ensures
        match (r, header_of(token@)) {
            (Ok(header), Ok(exact)) => {
                &&& header@ == exact
                &&& token_header(token@)->Ok_0.0 == algorithm_name(header.alg)
            },
            (Err(err), Err(exact)) => err@ == exact,
            _ => false,
        },
{
    let (name, kid) = match unauthorized(read_header(token), "Invalid JWT present") {
        Ok(header) => header,
        Err(err) => {
            return Err(err);
        },
    };
    match Algorithm::from_name(name.as_str()) {
        Some(alg) => {
            proof {
                let other = choose|other: Algorithm| #[trigger] algorithm_name(other) == name@;
                law_algorithm_names_differ(alg, other);
            }
            Ok(Header { alg, kid })
        },
        None => {
            assert(false);
            Err(Error::new("Invalid JWT present"))
        },
    }
}

/// Reads the JSON object that some bytes hold.
pub fn parse_claims(bytes: &[u8]) -> (r: Result<ClaimsSet, String>)
    ensures
        match (r, parsed_claims(bytes@)) {
            (Ok(claims), Ok(exact)) => claims@ == exact,
            (Err(err), Err(exact)) => err@ == exact,
            _ => false,
        },
{
    match parse_object(bytes) {
        Ok(entries) => Ok(set_of(entries)),
        Err(err) => Err(err),
    }
}

/// Reads the claims in the payload of a token, without verifying the token.
pub fn decode_payload(jwt_token: &str) -> (r: Result<ClaimsSet, Error>)
    ensures
        match (r, payload_claims(jwt_token@)) {
            (Ok(claims), Ok(exact)) => claims@ == exact,
            (Err(err), Err(exact)) => err@ == exact,
            _ => false,
        },
{
    let parts = split_str(jwt_token, '.');
    if parts.len() < 2 {
        return Err(Error::new("Cannot extract payload part"));
    }
    assert(views(parts@)[1] == parts@[1]@);
    let decoded = unauthorized(decode_base64url(parts[1]), "Cannot decode Base64 payload");
    let bytes = match decoded {
        Ok(bytes) => bytes,
        Err(err) => {
            return Err(err);
        },
    };
    unauthorized(parse_claims(bytes.as_slice()), "Cannot parse payload as JSON")
}

/// Verifies a token and hands out its claims, or says why it is not accepted. With a key that is
/// too short for its algorithm no token is.
pub fn verify_token(
    token: &str,
    key: &jsonwebtoken::DecodingKey,
    rules: &Validation,
) -> (r: Result<ClaimsSet, String>)
    ensures
        is_verified(r, token@, *key, rules@),
{
    if is_among(Algorithm::EdDSA, &rules.algorithms) {
        if let Some(bytes) = ed_bytes(key) {
            if bytes.len() < ED_KEY_LENGTH {
                return Err("InvalidEddsaKey".to_owned());
            }
        }
    }
    let decoded = decode_token(token, key, rules);
    let ghost now = choose|now: u64|
        match (decoded, #[trigger] decoded_token(token@, *key, rules@, now)) {
            (Ok(entries), Ok(exact)) => {
                &&& named_once(entries@)
                &&& members(entries@) == exact
                &&& is_admitted(token@, rules@, exact, now)
            },
            (Err(err), Err(exact)) => err@ == exact,
            _ => false,
        };
    let r = match decoded {
        Ok(entries) => Ok(set_of(entries)),
        Err(err) => Err(err),
    };
    assert(is_verified_at(r, token@, *key, rules@, now));
    r
}

/// Whether `r` is what verifying a token at the time `now` comes to: the claims of a token that is
/// admitted, or the message of the error.
pub open spec fn is_verified_at(
    r: Result<ClaimsSet, String>,
    token: Seq<char>,
    key: jsonwebtoken::DecodingKey,
    rules: ValidationView,
    now: u64,
) -> bool {
    match (r, decoded_token(token, key, rules, now)) {
        (Ok(claims), Ok(exact)) => claims@ == exact && is_admitted(token, rules, exact, now),
        (Err(err), Err(exact)) => err@ == exact,
        _ => false,
    }
}

/// Whether `r` is what verifying a token comes to: a message that the key is too short where it
/// is, else the outcome at some time.
pub open spec fn is_verified(
    r: Result<ClaimsSet, String>,
    token: Seq<char>,
    key: jsonwebtoken::DecodingKey,
    rules: ValidationView,
) -> bool {
    if is_unusable(key, rules) {
        r is Err && r->Err_0@ == "InvalidEddsaKey"@
    } else {
        exists|now: u64| #[trigger] is_verified_at(r, token, key, rules, now)
    }
}

/// Signs claims with a shared secret, which takes an algorithm for shared secrets.
pub fn sign_claims(claims: ClaimsSet, alg: Algorithm, secret: &[u8]) -> (r: Result<
    String,
    String,
>)
    ensures
        match r {
            Ok(token) => {
                &&& token@ == signed_token(claims@, alg, secret@)
                &&& is_signed_token(token@, claims@, alg, secret@)
            },
            Err(err) => !signs_with_secret(alg) && err@ == "InvalidAlgorithm"@,
        },
{
    encode_token(&Json::object(claims).to_value(), alg, secret)
}

/// The payload of a token is what stands between its first two dots, or behind the only one.
pub proof fn law_payload_follows_the_first_dot(a: Seq<char>, b: Seq<char>, rest: Seq<char>)
    requires
        !a.contains('.'),
        !b.contains('.'),
    ensures
        payload(a) is None,
        payload(a + seq!['.'] + b) == Some(b),
        payload(a + seq!['.'] + b + seq!['.'] + rest) == Some(b),
{
    law_split_cuts_at_every_separator(a, b, '.');
    law_split_cuts_at_every_separator(b, rest, '.');
    law_split_cuts_at_every_separator(a, b + seq!['.'] + rest, '.');
    assert(a + seq!['.'] + b + seq!['.'] + rest =~= a + seq!['.'] + (b + seq!['.'] + rest));
    let two = seq![a] + seq![b];
    assert(two[1] == b);
    let many = seq![a] + (seq![b] + split(rest, '.'));
    assert(many[1] == b);
}

/// The claims of a token are what its payload holds as JSON in base64. Where it holds none, that is
/// the status 401.
pub proof fn law_claims_are_in_the_payload(
    token: &str,
    r: Result<ClaimsSet, Error>,
    a: Seq<char>,
    b: Seq<char>,
    rest: Seq<char>,
)
    requires
        call_ensures(decode_payload, (token,), r),
        !a.contains('.'),
        !b.contains('.'),
        token@ == a + seq!['.'] + b + seq!['.'] + rest,
    ensures
        r is Ok <==> base64url_decoded(b) is Ok && parsed_claims(base64url_decoded(b)->Ok_0) is Ok,
        r is Ok ==> Ok::<Map<Seq<char>, JsonView>, Seq<char>>(r->Ok_0@) == parsed_claims(
            base64url_decoded(b)->Ok_0,
        ),
        r is Err ==> r->Err_0@.response().status == 401,
{
    law_payload_follows_the_first_dot(a, b, rest);
}

/// A header that is read names the algorithm and the key that the token names.
pub proof fn law_headers_are_read(token: &str, r: Result<Header, Error>)
    requires
        call_ensures(decode_header, (token,), r),
    ensures
        r is Ok <==> token_header(token@) is Ok,
        r is Ok ==> token_header(token@) == Ok::<(Seq<char>, Option<Seq<char>>), Seq<char>>(
            (algorithm_name(r->Ok_0.alg), r->Ok_0@.kid),
        ),
        r is Err ==> r->Err_0@.response().status == 401,
{
}

/// Rules for one algorithm allow that algorithm and no other, and are the same otherwise.
pub proof fn law_one_algorithm_alone(rules: ValidationView, alg: Algorithm, other: Algorithm)
    ensures
        rules.only(alg).algorithms.contains(other) <==> other == alg,
        !rules.only(alg).any_algorithm,
        rules.only(alg).iss == rules.iss,
        rules.only(alg).aud == rules.aud,
        rules.only(alg).validate_aud == rules.validate_aud,
        rules.only(alg).validate_nbf == rules.validate_nbf,
{
    assert(rules.only(alg).algorithms[0] == alg);
}

/// A name stands for the algorithm that has it, and no other name does.
pub proof fn law_names_stand_for_algorithms(
    alg: &Algorithm,
    name: &'static str,
    text: &str,
    found: Option<Algorithm>,
)
    requires
        call_ensures(Algorithm::name, (alg,), name),
        call_ensures(Algorithm::from_name, (text,), found),
    ensures
        text@ == name@ ==> found == Some(*alg),
        found == Some(*alg) ==> text@ == name@,
{
    if text@ == name@ {
        assert(algorithm_name(*alg) == text@);
        law_algorithm_names_differ(found->0, *alg);
    }
}

/// A token is verified only with a key that can be used, and what comes of it is what its signature,
/// its claims and the time come to.
pub proof fn law_verified_claims_are_the_tokens(
    token: &str,
    key: &jsonwebtoken::DecodingKey,
    rules: &Validation,
    r: Result<ClaimsSet, String>,
)
    requires
        call_ensures(verify_token, (token, key, rules), r),
    ensures
        r is Ok ==> {
            &&& payload_claims(token@) == Ok::<Map<Seq<char>, JsonView>, ErrorView>(r->Ok_0@)
            &&& exists|now: u64| #[trigger]
                decoded_token(token@, *key, rules@, now) == Ok::<
                    Map<Seq<char>, JsonView>,
                    Seq<char>,
                >(r->Ok_0@)
        },
        rules.algorithms@.contains(Algorithm::EdDSA) && ed_key_bytes(*key) is Some && ed_key_bytes(
            *key,
        )->0.len() < 32 ==> r is Err,
{
    if r is Ok {
        let now = choose|now: u64| #[trigger] is_verified_at(r, token@, *key, rules@, now);
        assert(decoded_token(token@, *key, rules@, now) is Ok);
    }
}

/// A failed attempt is told with what was attempted and with the message of its cause, and has the
/// status 401.
pub proof fn law_failed_attempts_are_unauthorized<T>(
    result: Result<T, String>,
    attempt: &str,
    r: Result<T, Error>,
)
    requires
        call_ensures(unauthorized::<T>, (result, attempt), r),
    ensures
        r is Ok <==> result is Ok,
        r is Ok ==> r->Ok_0 == result->Ok_0,
        r is Err ==> {
            &&& r->Err_0@.response().status == 401
            &&& r->Err_0@.messages.len() == 3
            &&& r->Err_0@.messages[1] == attempt@
            &&& r->Err_0@.messages[2] == result->Err_0@
        },
{
}

/// Claims are signed exactly with the algorithms for shared secrets, and then verify with the same
/// secret.
pub proof fn law_signed_claims_verify(
    claims: ClaimsSet,
    alg: Algorithm,
    secret: &[u8],
    r: Result<String, String>,
)
    requires
        call_ensures(sign_claims, (claims, alg, secret), r),
    ensures
        r is Ok <==> alg == Algorithm::HS256 || alg == Algorithm::HS384 || alg == Algorithm::HS512,
        r is Ok ==> token_header(r->Ok_0@) == Ok::<(Seq<char>, Option<Seq<char>>), Seq<char>>(
            (algorithm_name(alg), None),
        ),
        r is Ok ==> r->Ok_0@ == signed_token(claims@, alg, secret@),
        r is Ok ==> forall|rules: ValidationView, now: u64|
            is_acceptable(claims@, alg, rules, now) ==> #[trigger] decoded_token(
                r->Ok_0@,
                secret_key(secret@),
                rules,
                now,
            ) == Ok::<Map<Seq<char>, JsonView>, Seq<char>>(claims@),
{
}

/// Rules and headers are what they are made of.
pub proof fn law_rules_are_what_they_are_made_of(rules: Validation, header: Header)
    ensures
        rules@.any_algorithm == rules.any_algorithm,
        rules@.algorithms == rules.algorithms@,
        rules@.iss == rules.iss@,
        rules.aud is None ==> rules@.aud is None,
        rules.aud is Some ==> rules@.aud == Some(rules.aud->0@),
        rules@.validate_nbf == rules.validate_nbf,
        rules@.validate_aud == rules.validate_aud,
        header@.alg == header.alg,
        header.kid is None ==> header@.kid is None,
        header.kid is Some ==> header@.kid == Some(header.kid->0@),
{
}

} // verus!
