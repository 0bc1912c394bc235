//! Authenticated user representation with claim accessors.
//!
//! The [`User`] struct wraps validated claims and provides typed access to standard fields like
//! tenant, user ID, name, email, and permissions.

use crate::json::{json_text, ClaimsSet, Json, JsonView};
use crate::text::{
    contains, join, join_strs, law_part_stands_somewhere, lemma_join_contains, lemma_split_concat,
    lemma_split_whole, same, split, trim, views,
};
use crate::web::auth::permission_expr::{
    answers_as, eval_permission_expr, expr_asks, expr_holds, has_piece, law_comma_is_or,
    law_only_what_is_asked_about_counts, law_single_permission,
};
use crate::web::auth::token::{is_signed_token, sign_claims, signed_token, Algorithm};
use crate::web::auth::{
    CLAIM_ACT, CLAIM_EMAIL, CLAIM_ISS, CLAIM_LOCALE, CLAIM_NAME, CLAIM_PERMISSIONS, CLAIM_SUB,
    CLAIM_TENANT, DEFAULT_LOCALE,
};
use crate::web::error::{
    client_error, plain, status_error, Error, ErrorView, BAD_REQUEST, UNAUTHORIZED,
};
use crate::web::validation::{has_length, is_valid_str, valid_id, MAX_ID_LENGTH};
use vstd::prelude::*;
use vstd::string::StringSliceAdditionalSpecFns;

verus! {

broadcast use vstd::string::group_string_axioms;

/// The text of a claim, where there is one and it is a text.
pub open spec fn claim_text(
    claims: Map<Seq<char>, JsonView>,
    name: Seq<char>,
) -> Option<Seq<char>> {
    if claims.dom().contains(name) && claims[name] is Text {
        Some(claims[name]->Text_0)
    } else {
        None
    }
}

/// What comes of asking for a claim that has to be a text of a certain length: the text, or the
/// refusal as a client's mistake.
pub open spec fn text_or_refusal(
    text: Option<Seq<char>>,
    max: nat,
    refusal: Seq<char>,
) -> Result<Seq<char>, ErrorView> {
    match text {
        Some(s) if has_length(s, 1, max) => Ok(s),
        _ => Err(status_error(BAD_REQUEST, refusal)),
    }
}

/// What a result says.
pub open spec fn outcome(r: Result<&str, Error>) -> Result<Seq<char>, ErrorView> {
    match r {
        Ok(s) => Ok(s@),
        Err(err) => Err(err@),
    }
}

/// Whether the `permissions` claim lists a permission.
pub open spec fn is_granted(claims: Map<Seq<char>, JsonView>, permission: Seq<char>) -> bool {
    &&& claims.dom().contains(CLAIM_PERMISSIONS@)
    &&& claims[CLAIM_PERMISSIONS@] is Array
    &&& claims[CLAIM_PERMISSIONS@]->Array_0.contains(JsonView::Text(permission))
}

/// Whether one of the given permissions is granted.
pub open spec fn is_any_granted(
    claims: Map<Seq<char>, JsonView>,
    permissions: Seq<Seq<char>>,
) -> bool {
    exists|i: int| 0 <= i < permissions.len() && is_granted(claims, #[trigger] permissions[i])
}

/// The membership test for the permissions granted.
pub open spec fn granted(claims: Map<Seq<char>, JsonView>) -> spec_fn(Seq<char>) -> bool {
    |permission: Seq<char>| is_granted(claims, permission)
}

/// What to say to a user who has none of the given permissions.
pub open spec fn missing_permission(permissions: Seq<Seq<char>>) -> Seq<char> {
    if permissions.len() == 1 {
        "The permission '"@ + permissions[0] + "' is required for this action"@
    } else {
        "One of the permissions '"@ + join(permissions, ", "@) + "' is required for this action"@
    }
}

/// What to say to a user whose permissions do not satisfy an expression.
pub open spec fn unmet_expression(expression: Seq<char>) -> Seq<char> {
    "The permission expression '"@ + expression + "' must be satisfied for this action"@
}

/// Appends who acts on behalf of a user, and who on behalf of those, to a text.
pub open spec fn acting(act: JsonView, text: Seq<char>) -> Seq<char>
    decreases act,
{
    match act {
        JsonView::Object(members) => {
            let named = match claim_text(members, CLAIM_SUB@) {
                Some(sub) => {
                    let listed = if text.len() == 0 {
                        sub
                    } else {
                        text + ", "@ + sub
                    };
                    match claim_text(members, CLAIM_TENANT@) {
                        Some(tenant) => listed + " (tenant: "@ + tenant + ")"@,
                        None => listed,
                    }
                },
                None => text,
            };
            if members.dom().contains(CLAIM_ACT@) {
                acting(members[CLAIM_ACT@], named)
            } else {
                named
            }
        },
        JsonView::Text(s) => text + s,
        _ => text + json_text(act),
    }
}

/// The text of a claim that is a valid identifier, else a question mark.
pub open spec fn id_or_unknown(claims: Map<Seq<char>, JsonView>, name: Seq<char>) -> Seq<char> {
    match claim_text(claims, name) {
        Some(id) if valid_id(id) => id,
        _ => "?"@,
    }
}

/// The short description of a user: tenant, identifier, and who acts on the user's behalf.
pub open spec fn description(claims: Map<Seq<char>, JsonView>) -> Seq<char> {
    let start = "{\"tenant\": \""@ + id_or_unknown(claims, CLAIM_TENANT@) + "\", \"sub\": \""@
        + id_or_unknown(claims, CLAIM_SUB@);
    if claims.dom().contains(CLAIM_ACT@) {
        start + "\", \"act\": \""@ + acting(claims[CLAIM_ACT@], Seq::empty()) + "\" }"@
    } else {
        start + "\" }"@
    }
}

/// An authenticated user extracted from a validated token.
pub struct User {
    /// The original token string.
    pub jwt_token: String,
    /// The claims of the token.
    pub claims: ClaimsSet,
}

impl View for User {
    type V = Map<Seq<char>, JsonView>;

    open spec fn view(&self) -> Map<Seq<char>, JsonView> {
        self.claims@
    }
}

fn text_claim<'a>(claims: &'a ClaimsSet, name: &str) -> (r: Option<&'a str>)
    ensures
        match r {
            Some(s) => claim_text(claims@, name@) == Some(s@),
            None => claim_text(claims@, name@) is None,
        },
{
    match claims.get(name) {
        Some(json) => json.as_str(),
        None => None,
    }
}

fn checked_claim<'a>(
    claims: &'a ClaimsSet,
    name: &str,
    max: usize,
    refusal: &str,
) -> (r: Result<&'a str, Error>)
    ensures
        outcome(r) == text_or_refusal(claim_text(claims@, name@), max as nat, refusal@),
{
    match text_claim(claims, name) {
        Some(text) if is_valid_str(text, 1, max) => Ok(text),
        _ => Err(client_error(refusal)),
    }
}

fn append_acting(act: &Json, text: &mut String)
    ensures
        final(text)@ == acting(act@, old(text)@),
    decreases act@,
{
    if let Some(members) = act.as_object() {
        if let Some(sub) = text_claim(members, CLAIM_SUB) {
            if !text.as_str().is_empty() {
                text.append(", ");
            } else {
                assert(text@ + sub@ =~= sub@);
            }
            text.append(sub);
            if let Some(tenant) = text_claim(members, CLAIM_TENANT) {
                text.append(" (tenant: ");
                text.append(tenant);
                text.append(")");
            }
        }
        if let Some(next) = members.get(CLAIM_ACT) {
            append_acting(next, text);
        }
    } else if let Some(s) = act.as_str() {
        text.append(s);
    } else {
        text.append(act.to_text().as_str());
    }
}

impl User {
    /// Returns the tenant ID from the `tenant` claim.
    pub fn tenant_id(&self) -> (r: Result<&str, Error>)
        ensures
            outcome(r) == text_or_refusal(
                claim_text(self@, CLAIM_TENANT@),
                64,
                "No or invalid  tenant id ('tenant') in JWT token present!"@,
            ),
    {
        checked_claim(
            &self.claims,
            CLAIM_TENANT,
            MAX_ID_LENGTH,
            "No or invalid  tenant id ('tenant') in JWT token present!",
        )
    }

    /// Returns the token issuer from the `iss` claim.
    pub fn issuer(&self) -> (r: Result<&str, Error>)
        ensures
            outcome(r) == text_or_refusal(
                claim_text(self@, CLAIM_ISS@),
                512,
                "No or invalid issuer ('iss') in JWT token present!"@,
            ),
    {
        checked_claim(
            &self.claims,
            CLAIM_ISS,
            512,
            "No or invalid issuer ('iss') in JWT token present!",
        )
    }

    /// Returns the user ID from the `sub` claim.
    pub fn user_id(&self) -> (r: Result<&str, Error>)
        ensures
            outcome(r) == text_or_refusal(
                claim_text(self@, CLAIM_SUB@),
                64,
                "No or invalid auth id ('sub') in JWT token present!"@,
            ),
    {
        checked_claim(
            &self.claims,
            CLAIM_SUB,
            MAX_ID_LENGTH,
            "No or invalid auth id ('sub') in JWT token present!",
        )
    }

    /// Returns the user's full name from the `name` claim.
    pub fn full_name(&self) -> (r: Result<&str, Error>)
        ensures
            outcome(r) == text_or_refusal(
                claim_text(self@, CLAIM_NAME@),
                512,
                "No or invalid auth name ('name') in JWT token present!"@,
            ),
    {
        checked_claim(
            &self.claims,
            CLAIM_NAME,
            512,
            "No or invalid auth name ('name') in JWT token present!",
        )
    }

    /// Returns the user's email from the `email` claim.
    pub fn email(&self) -> (r: Result<&str, Error>)
        ensures
            outcome(r) == text_or_refusal(
                claim_text(self@, CLAIM_EMAIL@),
                512,
                "No or invalid email ('email') in JWT token present!"@,
            ),
    {
        checked_claim(
            &self.claims,
            CLAIM_EMAIL,
            512,
            "No or invalid email ('email') in JWT token present!",
        )
    }

    /// Returns a raw claim value by name, if present. Escape hatch for application-specific claims
    /// beyond the typed accessors above (e.g. an `amr` / auth-strength claim carried by the issuer).
    pub fn claim(&self, name: &str) -> (r: Option<&Json>)
        ensures
            match r {
                Some(json) => self@.dom().contains(name@) && self@[name@] == json@,
                None => !self@.dom().contains(name@),
            },
    {
        self.claims.get(name)
    }

    fn is_permission_granted(&self, permission: &str) -> (r: bool)
        ensures
            r == is_granted(self@, permission@),
    {
        let items = match self.claims.get(CLAIM_PERMISSIONS) {
            Some(json) => match json.as_array() {
                Some(items) => items,
                None => {
                    return false;
                },
            },
            None => {
                return false;
            },
        };
        let ghost all = self@[CLAIM_PERMISSIONS@]->Array_0;
        let mut i: usize = 0;
        while i < items.len()
            invariant
                i <= items@.len() == all.len(),
                all == self@[CLAIM_PERMISSIONS@]->Array_0,
                self@.dom().contains(CLAIM_PERMISSIONS@),
                self@[CLAIM_PERMISSIONS@] is Array,
                forall|k: int| 0 <= k < items@.len() ==> (#[trigger] items@[k])@ == all[k],
                forall|k: int| 0 <= k < i ==> all[k] != JsonView::Text(permission@),
            decreases items@.len() - i,
        {
            assert(items@[i as int]@ == all[i as int]);
            if let Some(s) = items[i].as_str() {
                if same(s, permission) {
                    assert(all.contains(JsonView::Text(permission@)));
                    return true;
                }
            }
            i += 1;
        }
        false
    }

    /// Returns `true` if the user has at least one of the given permissions.
    pub fn has_any_permission(&self, permissions: &[&str]) -> (r: bool)
        ensures
            r == is_any_granted(self@, views(permissions@)),
    {
        let ghost all = views(permissions@);
        let mut i: usize = 0;
        while i < permissions.len()
            invariant
                i <= permissions@.len(),
                all == views(permissions@),
                forall|k: int| 0 <= k < i ==> !is_granted(self@, #[trigger] all[k]),
            decreases permissions@.len() - i,
        {
            assert(all[i as int] == permissions@[i as int]@);
            if self.is_permission_granted(permissions[i]) {
                return true;
            }
            i += 1;
        }
        false
    }

    /// Returns the user if they have at least one of the given permissions, otherwise 401.
    pub fn enforce_any_permission(self, permissions: &[&str]) -> (r: Result<User, Error>)
        ensures
            if is_any_granted(self@, views(permissions@)) {
                r == Ok::<User, Error>(self)
            } else {
                r is Err && r->Err_0@ == status_error(
                    UNAUTHORIZED,
                    missing_permission(views(permissions@)),
                )
            },
    {
        if self.has_any_permission(permissions) {
            return Ok(self);
        }
        let mut message = String::new();
        let ghost all = views(permissions@);
        if permissions.len() == 1 {
            assert(all[0] == permissions@[0]@);
            message.append("The permission '");
            message.append(permissions[0]);
        } else {
            message.append("One of the permissions '");
            message.append(join_strs(permissions, ", ").as_str());
        }
        message.append("' is required for this action");
        assert(message@ =~= missing_permission(all));
        Err(Error::new(message.as_str()).with_status(UNAUTHORIZED))
    }

    /// Returns `true` if the user's granted permissions satisfy the boolean permission-string
    /// `expression` (`,` = OR, `+` = AND, `!` = NOT; empty = no restriction). See
    /// [`permission_expr`](crate::web::auth::permission_expr).
    pub fn has_permission_expr(&self, expression: &str) -> (r: bool)
        ensures
            r == expr_holds(expression@, granted(self@)),
    {
        let contains = |term: &str| -> (found: bool)
            ensures
                found == is_granted(self@, term@),
            { self.is_permission_granted(term) };
        assert(answers_as(contains, granted(self@), expression@));
        eval_permission_expr(expression, contains)
    }

    /// Returns the user if their permissions satisfy `expression`, otherwise 401.
    pub fn enforce_permission_expr(self, expression: &str) -> (r: Result<User, Error>)
        ensures
            if expr_holds(expression@, granted(self@)) {
                r == Ok::<User, Error>(self)
            } else {
                r is Err && r->Err_0@ == status_error(UNAUTHORIZED, unmet_expression(expression@))
            },
    {
        if self.has_permission_expr(expression) {
            return Ok(self);
        }
        let mut message = String::new();
        message.append("The permission expression '");
        message.append(expression);
        message.append("' must be satisfied for this action");
        assert(message@ =~= unmet_expression(expression@));
        Err(Error::new(message.as_str()).with_status(UNAUTHORIZED))
    }

    /// Returns the end-user's locale, represented as a BCP47 (RFC5646) language tag.
    ///
    /// This is typically an ISO 639 Alpha-2 (ISO639) language code in lowercase and an ISO 3166-1
    /// Alpha-2 (ISO3166-1) country code in uppercase, separated by a dash. For example, en-US or
    /// fr-CA.
    ///
    /// This uses the claim [CLAIM_LOCALE] ("locale") as defined by OpenID Connect Core 1.0,
    /// Section 5.1.
    pub fn locale(&self) -> (r: &str)
        ensures
            r@ == (match claim_text(self@, CLAIM_LOCALE@) {
                Some(text) => text,
                None => DEFAULT_LOCALE@,
            }),
    {
        match text_claim(&self.claims, CLAIM_LOCALE) {
            Some(text) => text,
            None => DEFAULT_LOCALE,
        }
    }

    /// Returns a [`UserBuilder`] for constructing a `User` from individual claims.
    ///
    /// Primarily intended for tests (and internal callers) that already have validated claims and
    /// want to exercise the accessors, or produce a signed token via [`UserBuilder::into_token`],
    /// without going through token parsing.
    pub fn builder() -> (r: UserBuilder)
        ensures
            exists|now: u64| r@ == #[trigger] fresh_claims(now),
    {
        UserBuilder::new()
    }

    /// The short description of the user: tenant, identifier, and who acts on the user's behalf.
    pub fn describe(&self) -> (r: String)
        ensures
            r@ == description(self@),
    {
        let mut r = String::new();
        r.append("{\"tenant\": \"");
        r.append(
            match self.tenant_id() {
                Ok(id) => id,
                Err(_) => "?",
            },
        );
        r.append("\", \"sub\": \"");
        r.append(
            match self.user_id() {
                Ok(id) => id,
                Err(_) => "?",
            },
        );
        if let Some(act) = self.claims.get(CLAIM_ACT) {
            r.append("\", \"act\": \"");
            let mut text = String::new();
            append_acting(act, &mut text);
            r.append(text.as_str());
        }
        r.append("\" }");
        assert(r@ =~= description(self@));
        r
    }
}

impl Clone for User {
    fn clone(&self) -> (r: User)
        ensures
            r@ == self@,
            r.jwt_token@ == self.jwt_token@,
    {
        User { jwt_token: self.jwt_token.clone(), claims: self.claims.clone() }
    }
}

/// The claims that a fresh builder carries at the given time: an expiry one hour later.
pub open spec fn fresh_claims(now: u64) -> Map<Seq<char>, JsonView> {
    Map::<Seq<char>, JsonView>::empty().insert(
        "exp"@,
        JsonView::Integer(if now + 3600 <= u64::MAX { now + 3600 } else { u64::MAX as int }),
    )
}

/// Fluent builder for constructing a [`User`] from individual claims.
///
/// This assembles a claim set directly, bypassing token validation, which makes it convenient for
/// tests that need a `User` with specific claims. A fresh builder already carries an `exp` claim
/// one hour in the future.
pub struct UserBuilder {
    jwt_token: String,
    claims: ClaimsSet,
}

impl View for UserBuilder {
    type V = Map<Seq<char>, JsonView>;

    closed spec fn view(&self) -> Map<Seq<char>, JsonView> {
        self.claims@
    }
}

/// `SystemTime::elapsed` of the epoch: the whole seconds since then, none where the clock stands
/// before it. Nothing is known of the time.
#[verifier::external_body]
fn seconds_since_epoch() -> u64 {
    std::time::UNIX_EPOCH.elapsed().map(|since| since.as_secs()).unwrap_or_default()
}

impl UserBuilder {
    #[verifier::type_invariant]
    spec fn has_no_token(self) -> bool {
        self.jwt_token@.len() == 0
    }

    /// Creates a new builder with an `exp` claim set to one hour from now.
    pub fn new() -> (r: UserBuilder)
        ensures
            exists|now: u64| r@ == #[trigger] fresh_claims(now),
    {
        let now: u64 = seconds_since_epoch();
        let r = UserBuilder::at(now);
        assert(r@ == fresh_claims(now));
        r
    }

    /// Creates a new builder with an `exp` claim set to one hour from the given time, in seconds
    /// since the epoch.
    pub fn at(now: u64) -> (r: UserBuilder)
        ensures
            r@ == fresh_claims(now),
    {
        let exp: u64 = now.saturating_add(3600);
        let mut claims = ClaimsSet::new();
        claims.insert("exp".to_owned(), Json::unsigned(exp));
        UserBuilder { jwt_token: String::new(), claims }
    }

    /// Sets a string claim.
    pub fn with_string(self, key: &str, value: &str) -> (r: UserBuilder)
        ensures
            r@ == self@.insert(key@, JsonView::Text(value@)),
    {
        self.with_value(key, Json::text(value))
    }

    /// Sets an arbitrary JSON claim.
    pub fn with_value(self, key: &str, value: Json) -> (r: UserBuilder)
        ensures
            r@ == self@.insert(key@, value@),
    {
        let mut claims = self.claims;
        claims.insert(key.to_owned(), value);
        UserBuilder { jwt_token: String::new(), claims }
    }

    /// Builds the [`User`] from the accumulated claims.
    pub fn build(self) -> (r: User)
        ensures
            r@ == self@,
            r.jwt_token@ == Seq::<char>::empty(),
    {
        proof {
            use_type_invariant(&self);
            assert(self.jwt_token@ =~= Seq::empty());
        }
        User { jwt_token: self.jwt_token, claims: self.claims }
    }

    /// Signs the accumulated claims into a token using the given HS256 secret. The token carries
    /// the claims and is accepted with the same secret, as [`is_signed_token`] says.
    pub fn into_token(self, secret: &str) -> (r: Result<String, Error>)
        ensures
            r is Ok,
            r->Ok_0@ == signed_token(self@, Algorithm::HS256, secret.spec_bytes()),
            is_signed_token(r->Ok_0@, self@, Algorithm::HS256, secret.spec_bytes()),
    {
        signing_result(sign_claims(self.claims, Algorithm::HS256, secret.as_bytes()))
    }
}

impl Default for UserBuilder {
    fn default() -> (r: UserBuilder)
        ensures
            exists|now: u64| r@ == #[trigger] fresh_claims(now),
    {
        UserBuilder::new()
    }
}

/// What comes of signing a token: the token, or the error with what was attempted.
pub fn signing_result(result: Result<String, String>) -> (r: Result<String, Error>)
    ensures
        match (r, result) {
            (Ok(token), Ok(exact)) => token == exact,
            (Err(err), Err(message)) => err@ == plain(message@).with_context("Signing failed"@),
            _ => false,
        },
{
    match result {
        Ok(token) => Ok(token),
        Err(message) => Err(Error::new(message.as_str()).context("Signing failed")),
    }
}

/// Asking for one of several permissions, of which there is at least one, is the same as asking for
/// the expression that lists them.
pub proof fn law_any_permission_is_an_expression(
    claims: Map<Seq<char>, JsonView>,
    permissions: Seq<Seq<char>>,
)
    requires
        permissions.len() > 0,
        forall|i: int| 0 <= i < permissions.len() ==> is_plain_permission(#[trigger] permissions[i]),
    ensures
        is_any_granted(claims, permissions) == expr_holds(
            join(permissions, seq![',']),
            granted(claims),
        ),
    decreases permissions.len(),
{
    let last = permissions.last();
    let list = join(permissions, seq![',']);
    law_single_permission(last, granted(claims));
    if permissions.len() == 1 {
        if is_granted(claims, last) {
            assert(is_granted(claims, permissions[0]));
        }
    } else {
        let others = permissions.drop_last();
        let rest = join(others, seq![',']);
        law_any_permission_is_an_expression(claims, others);
        lemma_list_has_clause(others);
        lemma_split_whole(last, ',');
        assert(has_piece(last, ',', 0));
        law_comma_is_or(rest, last, granted(claims));
        if is_any_granted(claims, others) {
            let i = choose|i: int| 0 <= i < others.len() && is_granted(claims, #[trigger] others[i]);
            assert(is_granted(claims, permissions[i]));
        }
        if is_any_granted(claims, permissions) {
            let i = choose|i: int|
                0 <= i < permissions.len() && is_granted(claims, #[trigger] permissions[i]);
            if i < others.len() {
                assert(is_granted(claims, others[i]));
            }
        }
        if is_granted(claims, last) {
            assert(is_granted(claims, permissions[permissions.len() - 1]));
        }
    }
}

proof fn lemma_list_has_clause(permissions: Seq<Seq<char>>)
    requires
        permissions.len() > 0,
        forall|i: int| 0 <= i < permissions.len() ==> is_plain_permission(#[trigger] permissions[i]),
    ensures
        exists|i: int| has_piece(join(permissions, seq![',']), ',', i),
{
    let last = permissions.last();
    let list = join(permissions, seq![',']);
    assert(is_plain_permission(permissions[permissions.len() - 1]));
    lemma_split_whole(last, ',');
    if permissions.len() == 1 {
        assert(has_piece(list, ',', 0));
    } else {
        let rest = join(permissions.drop_last(), seq![',']);
        lemma_split_concat(rest, last, ',');
        assert(split(list, ',')[split(rest, ',').len() as int] == last);
        assert(has_piece(list, ',', split(rest, ',').len() as int));
    }
}

/// Whether a permission can stand in an expression as it is: it is not empty, has no operators and
/// no white space around it.
pub open spec fn is_plain_permission(permission: Seq<char>) -> bool {
    &&& permission.len() > 0
    &&& trim(permission) == permission
    &&& permission[0] != '!'
    &&& forall|i: int|
        0 <= i < permission.len() ==> permission[i] != ',' && permission[i] != '+'
}

/// Whether a claim is a text of one to `max` characters.
pub open spec fn is_text_claim(
    claims: Map<Seq<char>, JsonView>,
    name: Seq<char>,
    max: nat,
) -> bool {
    claims.dom().contains(name) && claims[name] is Text && 1 <= claims[name]->Text_0.len() <= max
}

/// Tenant and identifier are texts of one to 64 characters, issuer, name and email of one to 512; each
/// is read from the claim of its own, and without such a claim the request is the client's mistake.
pub proof fn law_claims_are_read(
    user: &User,
    tenant: Result<&str, Error>,
    id: Result<&str, Error>,
    issuer: Result<&str, Error>,
    name: Result<&str, Error>,
    email: Result<&str, Error>,
)
    requires
        call_ensures(User::tenant_id, (user,), tenant),
        call_ensures(User::user_id, (user,), id),
        call_ensures(User::issuer, (user,), issuer),
        call_ensures(User::full_name, (user,), name),
        call_ensures(User::email, (user,), email),
    ensures
        tenant is Ok <==> is_text_claim(user@, "tenant"@, 64),
        tenant is Ok ==> tenant->Ok_0@ == user@["tenant"@]->Text_0,
        tenant is Err ==> tenant->Err_0@.response().status == 400,
        id is Ok <==> is_text_claim(user@, "sub"@, 64),
        id is Ok ==> id->Ok_0@ == user@["sub"@]->Text_0,
        id is Err ==> id->Err_0@.response().status == 400,
        issuer is Ok <==> is_text_claim(user@, "iss"@, 512),
        issuer is Ok ==> issuer->Ok_0@ == user@["iss"@]->Text_0,
        issuer is Err ==> issuer->Err_0@.response().status == 400,
        name is Ok <==> is_text_claim(user@, "name"@, 512),
        name is Ok ==> name->Ok_0@ == user@["name"@]->Text_0,
        name is Err ==> name->Err_0@.response().status == 400,
        email is Ok <==> is_text_claim(user@, "email"@, 512),
        email is Ok ==> email->Ok_0@ == user@["email"@]->Text_0,
        email is Err ==> email->Err_0@.response().status == 400,
{
}

/// The locale of a user is the text of the claim, else the default; any claim can be had by its name.
pub proof fn law_locale_is_a_claim(
    user: &User,
    locale: &str,
    claim: &str,
    found: Option<&Json>,
)
    requires
        call_ensures(User::locale, (user,), locale),
        call_ensures(User::claim, (user, claim), found),
    ensures
        user@.dom().contains("locale"@) && user@["locale"@] is Text ==> locale@
            == user@["locale"@]->Text_0,
        !(user@.dom().contains("locale"@) && user@["locale"@] is Text) ==> locale@ == "en-US"@,
        found is Some <==> user@.dom().contains(claim@),
        found is Some ==> found->0@ == user@[claim@],
{
}

/// Whether a permission is among the texts that the claim lists.
pub open spec fn lists_permission(claims: Map<Seq<char>, JsonView>, permission: Seq<char>) -> bool {
    claims.dom().contains("permissions"@) && match claims["permissions"@] {
        JsonView::Array(items) => exists|i: int|
            0 <= i < items.len() && #[trigger] items[i] == JsonView::Text(permission),
        _ => false,
    }
}

proof fn lemma_granted(claims: Map<Seq<char>, JsonView>, permission: Seq<char>)
    ensures
        is_granted(claims, permission) == lists_permission(claims, permission),
{
    if is_granted(claims, permission) {
        let items = claims["permissions"@]->Array_0;
        let i = choose|i: int| 0 <= i < items.len() && items[i] == JsonView::Text(permission);
        assert(items[i] == JsonView::Text(permission));
    }
}

/// A user has one of several permissions exactly if the claim lists one of them as it is. Whoever has
/// none is refused with the status 401, and whoever has one stays the same user.
pub proof fn law_any_permission_will_do(
    user: User,
    permissions: &[&str],
    has_any: bool,
    r: Result<User, Error>,
)
    requires
        call_ensures(User::has_any_permission, (&user, permissions), has_any),
        call_ensures(User::enforce_any_permission, (user, permissions), r),
    ensures
        has_any <==> exists|i: int|
            0 <= i < permissions@.len() && lists_permission(user@, #[trigger] permissions@[i]@),
        r is Ok <==> has_any,
        r is Ok ==> r->Ok_0 == user,
        r is Err ==> r->Err_0@.response().status == 401,
{
    let all = views(permissions@);
    if has_any {
        let i = choose|i: int| 0 <= i < all.len() && is_granted(user@, #[trigger] all[i]);
        lemma_granted(user@, permissions@[i]@);
        assert(lists_permission(user@, permissions@[i]@));
    }
    if exists|i: int|
        0 <= i < permissions@.len() && lists_permission(user@, #[trigger] permissions@[i]@) {
        let i = choose|i: int|
            0 <= i < permissions@.len() && lists_permission(user@, #[trigger] permissions@[i]@);
        lemma_granted(user@, permissions@[i]@);
        assert(is_granted(user@, all[i]));
    }
}

/// An expression is satisfied by a user exactly if it holds of the permissions that the claim lists.
/// Whoever does not satisfy it is refused with the status 401.
pub proof fn law_expressions_go_by_the_permissions(
    user: User,
    expression: &str,
    satisfied: bool,
    r: Result<User, Error>,
)
    requires
        call_ensures(User::has_permission_expr, (&user, expression), satisfied),
        call_ensures(User::enforce_permission_expr, (user, expression), r),
    ensures
        satisfied == expr_holds(
            expression@,
            |permission: Seq<char>| lists_permission(user@, permission),
        ),
        r is Ok <==> satisfied,
        r is Ok ==> r->Ok_0 == user,
        r is Err ==> r->Err_0@.response().status == 401,
{
    let listed = |permission: Seq<char>| lists_permission(user@, permission);
    assert forall|permission: Seq<char>| #[trigger]
        expr_asks(expression@, permission) implies granted(user@)(permission) == listed(
        permission,
    ) by {
        lemma_granted(user@, permission);
    }
    law_only_what_is_asked_about_counts(expression@, granted(user@), listed);
}

/// Those who act on behalf of a user are listed in their order, the next behind the one before it,
/// each by its identifier and with its tenant where it has one.
pub proof fn law_actors_are_listed_in_order(
    members: Map<Seq<char>, JsonView>,
    text: Seq<char>,
    sub: Seq<char>,
)
    requires
        members.dom().contains("sub"@),
        members["sub"@] == JsonView::Text(sub),
    ensures
        ({
            let alone = members.remove("act"@);
            let tenant = members["tenant"@]->Text_0;
            let named = if members.dom().contains("tenant"@) && members["tenant"@] is Text {
                sub + " (tenant: "@ + tenant + ")"@
            } else {
                sub
            };
            &&& acting(JsonView::Object(alone), Seq::empty()) == named
            &&& text.len() > 0 ==> acting(JsonView::Object(alone), text) == text + ", "@ + named
            &&& members.dom().contains("act"@) ==> acting(JsonView::Object(members), text)
                == acting(members["act"@], acting(JsonView::Object(alone), text))
        }),
{
    lemma_claim_names();
    let alone = members.remove("act"@);
    assert(alone.dom().contains("sub"@));
    assert(claim_text(alone, CLAIM_SUB@) == Some(sub));
    assert(claim_text(members, CLAIM_SUB@) == Some(sub));
    assert(claim_text(alone, CLAIM_TENANT@) == claim_text(members, CLAIM_TENANT@));
    assert(!alone.dom().contains(CLAIM_ACT@));
    let named = if members.dom().contains("tenant"@) && members["tenant"@] is Text {
        sub + " (tenant: "@ + members["tenant"@]->Text_0 + ")"@
    } else {
        sub
    };
    assert(acting(JsonView::Object(alone), Seq::empty()) =~= named);
    if text.len() > 0 {
        assert(acting(JsonView::Object(alone), text) =~= text + ", "@ + named);
    }
}

proof fn lemma_claim_names()
    ensures
        "act"@ != "sub"@,
        "act"@ != "tenant"@,
        "sub"@ != "tenant"@,
{
    reveal_strlit("act");
    reveal_strlit("sub");
    reveal_strlit("tenant");
    assert("act"@[0] != "sub"@[0]);
    assert("act"@[0] != "tenant"@[0]);
    assert("sub"@[0] != "tenant"@[0]);
}

/// The description of a user names the tenant and the user, each by a valid identifier or by a
/// question mark, and who acts on behalf of the user.
pub proof fn law_descriptions_name_the_user(user: &User, r: String)
    requires
        call_ensures(User::describe, (user,), r),
    ensures
        ({
            let tenant = if is_text_claim(user@, "tenant"@, 64) {
                user@["tenant"@]->Text_0
            } else {
                "?"@
            };
            let sub = if is_text_claim(user@, "sub"@, 64) {
                user@["sub"@]->Text_0
            } else {
                "?"@
            };
            let start = "{\"tenant\": \""@ + tenant + "\", \"sub\": \""@ + sub;
            &&& !user@.dom().contains("act"@) ==> r@ == start + "\" }"@
            &&& user@.dom().contains("act"@) ==> r@ == start + "\", \"act\": \""@ + acting(
                user@["act"@],
                Seq::empty(),
            ) + "\" }"@
        }),
{
}

/// A fresh user expires one hour from the given time, and each claim that is set is there, in place of
/// one of the same name, with all others as they were.
pub proof fn law_builders_set_claims(
    now: u64,
    fresh: UserBuilder,
    builder: UserBuilder,
    key: &str,
    value: &str,
    json: Json,
    texted: UserBuilder,
    valued: UserBuilder,
    built: User,
)
    requires
        now + 3600 <= u64::MAX,
        call_ensures(UserBuilder::at, (now,), fresh),
        call_ensures(UserBuilder::with_string, (builder, key, value), texted),
        call_ensures(UserBuilder::with_value, (builder, key, json), valued),
        call_ensures(UserBuilder::build, (builder,), built),
    ensures
        fresh@ == Map::<Seq<char>, JsonView>::empty().insert(
            "exp"@,
            JsonView::Integer(now + 3600),
        ),
        texted@ == builder@.insert(key@, JsonView::Text(value@)),
        valued@ == builder@.insert(key@, json@),
        built@ == builder@,
{
}

/// A token that a builder signs carries its claims and is signed with HS256 and the secret.
pub proof fn law_builders_sign_their_claims(
    builder: UserBuilder,
    secret: &str,
    r: Result<String, Error>,
)
    requires
        call_ensures(UserBuilder::into_token, (builder, secret), r),
    ensures
        r is Ok,
        r->Ok_0@ == signed_token(builder@, Algorithm::HS256, secret.spec_bytes()),
        is_signed_token(r->Ok_0@, builder@, Algorithm::HS256, secret.spec_bytes()),
{
}

/// Whoever is refused is told which permissions, or which expression, would have been needed.
pub proof fn law_refusals_name_what_is_needed(
    user: User,
    permissions: &[&str],
    i: int,
    a: Result<User, Error>,
    expression: &str,
    b: Result<User, Error>,
)
    requires
        call_ensures(User::enforce_any_permission, (user, permissions), a),
        call_ensures(User::enforce_permission_expr, (user, expression), b),
        0 <= i < permissions@.len(),
    ensures
        a is Err ==> contains(a->Err_0@.response().message, permissions@[i]@),
        b is Err ==> contains(b->Err_0@.response().message, expression@),
{
    let all = views(permissions@);
    assert(all[i] == permissions@[i]@);
    let end = "' is required for this action"@;
    if all.len() == 1 {
        law_part_stands_somewhere(all[0], "The permission '"@, all[0], end);
    } else {
        let sep = ", "@;
        let start = "One of the permissions '"@;
        let list = join(all, sep);
        lemma_join_contains(all, sep, i);
        law_part_stands_somewhere(list, Seq::empty(), all[i], Seq::empty());
        let (x, y) = choose|x: Seq<char>, y: Seq<char>|
            #![trigger x + all[i] + y]
            list == x + all[i] + y;
        law_part_stands_somewhere(list, start + x, all[i], y + end);
        assert((start + x) + all[i] + (y + end) =~= start + list + end);
    }
    if a is Err {
        assert(a->Err_0@.response().message == missing_permission(all));
    }
    law_part_stands_somewhere(
        expression@,
        "The permission expression '"@,
        expression@,
        "' must be satisfied for this action"@,
    );
    if b is Err {
        assert(b->Err_0@.response().message == unmet_expression(expression@));
    }
}

/// An actor that is no object is listed as it is, and one without an identifier is passed over for
/// those behind it.
pub proof fn law_other_actors(members: Map<Seq<char>, JsonView>, name: Seq<char>, text: Seq<char>)
    requires
        !(members.dom().contains("sub"@) && members["sub"@] is Text),
    ensures
        acting(JsonView::Text(name), text) == text + name,
        acting(JsonView::Null, text) == text + json_text(JsonView::Null),
        !members.dom().contains("act"@) ==> acting(JsonView::Object(members), text) == text,
        members.dom().contains("act"@) ==> acting(JsonView::Object(members), text) == acting(
            members["act"@],
            text,
        ),
{
    assert(claim_text(members, CLAIM_SUB@) is None);
}

/// The claims of a user are those of its token, and a copy of the user has the same.
pub proof fn law_users_are_their_claims(user: User, copy: User)
    requires
        call_ensures(<User as Clone>::clone, (&user,), copy),
    ensures
        user@ == user.claims@,
        copy.claims@ == user.claims@,
        copy.jwt_token@ == user.jwt_token@,
{
}

} // verus!
