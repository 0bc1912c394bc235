use wasabi::json::{ClaimsSet, Json};
use wasabi::web::auth::authenticator::Authenticator;
use wasabi::web::auth::user::{User, UserBuilder};
use wasabi::web::auth::{
    CLAIM_ACT, CLAIM_EMAIL, CLAIM_ISS, CLAIM_LOCALE, CLAIM_NAME, CLAIM_PERMISSIONS, CLAIM_SUB,
    CLAIM_TENANT,
};
use wasabi::web::warp::into_rejection;

type Builder = UserBuilder;

fn text(s: &str) -> Json {
    Json::Text(s.to_string())
}

fn texts(items: &[&str]) -> Json {
    Json::Array(items.iter().map(|item| text(item)).collect())
}

fn object(members: Vec<(&str, Json)>) -> Json {
    let members = members.into_iter().map(|(key, value)| (key.to_string(), value));
    Json::Object(ClaimsSet::from_entries(members.collect()))
}

#[test]
fn simple_user_debug_formatting() {
    let user = Builder::new()
        .with_string(CLAIM_SUB, "1234")
        .with_string(CLAIM_TENANT, "0815")
        .build();

    assert_eq!(
        user.describe(),
        "{\"tenant\": \"0815\", \"sub\": \"1234\" }"
    );
}

#[test]
fn simple_delegate_user_debug_formatting() {
    let user = Builder::new()
        .with_string(CLAIM_SUB, "1234")
        .with_string(CLAIM_TENANT, "0815")
        .with_string(CLAIM_ACT, "sub1")
        .build();

    assert_eq!(
        user.describe(),
        "{\"tenant\": \"0815\", \"sub\": \"1234\", \"act\": \"sub1\" }"
    );

    let user = Builder::new()
        .with_string(CLAIM_SUB, "1234")
        .with_string(CLAIM_TENANT, "0815")
        .with_value(CLAIM_ACT, Json::Unsigned(42))
        .build();

    assert_eq!(
        user.describe(),
        "{\"tenant\": \"0815\", \"sub\": \"1234\", \"act\": \"42\" }"
    );
}

#[test]
fn complex_delegate_user_debug_formatting() {
    let user = Builder::new()
        .with_string(CLAIM_SUB, "1234")
        .with_string(CLAIM_TENANT, "0815")
        .with_value(
            CLAIM_ACT,
            object(vec![("sub", text("sub1")), ("tenant", text("tenant2"))]),
        )
        .build();

    assert_eq!(
        user.describe(),
        "{\"tenant\": \"0815\", \"sub\": \"1234\", \"act\": \"sub1 (tenant: tenant2)\" }"
    );
}

#[test]
fn chained_delegate_user_debug_formatting() {
    let user = Builder::new()
        .with_string(CLAIM_SUB, "1234")
        .with_string(CLAIM_TENANT, "0815")
        .with_value(
            CLAIM_ACT,
            object(vec![
                ("sub", text("sub1")),
                ("act", object(vec![("sub", text("sub2"))])),
            ]),
        )
        .build();

    assert_eq!(
        user.describe(),
        "{\"tenant\": \"0815\", \"sub\": \"1234\", \"act\": \"sub1, sub2\" }"
    );
}

#[test]
fn odd_delegates_are_described_too() {
    let user = Builder::new()
        .with_value(
            CLAIM_ACT,
            object(vec![("sub", text("a")), ("act", text("b"))]),
        )
        .build();
    assert_eq!(
        user.describe(),
        "{\"tenant\": \"?\", \"sub\": \"?\", \"act\": \"ab\" }"
    );

    let user = Builder::new()
        .with_value(CLAIM_ACT, object(vec![("act", Json::Array(vec![Json::Null, Json::Bool(true)]))]))
        .build();
    assert_eq!(
        user.describe(),
        "{\"tenant\": \"?\", \"sub\": \"?\", \"act\": \"[null,true]\" }"
    );
}

#[test]
fn user_tenant_id_returns_valid_tenant_id() {
    let user = Builder::new().with_string(CLAIM_TENANT, "0815").build();

    assert_eq!(user.tenant_id().unwrap(), "0815");
}

#[test]
fn user_tenant_id_fails_for_missing_tenant_id() {
    let user = Builder::new().build();
    assert!(user.tenant_id().is_err());
}

#[test]
fn user_issuer_returns_valid_issuer() {
    let user = Builder::new()
        .with_string(CLAIM_ISS, "https://issuer.example.com")
        .build();

    assert_eq!(user.issuer().unwrap(), "https://issuer.example.com");
}

#[test]
fn user_issuer_fails_for_missing_issuer() {
    let user = Builder::new().build();
    assert!(user.issuer().is_err());
}

#[test]
fn user_issuer_fails_for_empty_issuer() {
    let user = Builder::new().with_string(CLAIM_ISS, "").build();
    assert!(user.issuer().is_err());
}

#[test]
fn user_tenant_id_fails_for_empty_tenant_id() {
    let user = Builder::new().with_string(CLAIM_TENANT, "").build();
    assert!(user.tenant_id().is_err());
}

#[test]
fn user_tenant_id_fails_for_tenant_id_exceeding_max_length() {
    let user = Builder::new()
        .with_string(CLAIM_TENANT, "a".repeat(65).as_str())
        .build();
    assert!(user.tenant_id().is_err());
}

#[test]
fn user_user_id_returns_valid_user_id() {
    let user = Builder::new().with_string(CLAIM_SUB, "1234").build();

    assert_eq!(user.user_id().unwrap(), "1234");
}

#[test]
fn user_user_id_fails_for_missing_user_id() {
    let user = Builder::new().build();
    assert!(user.user_id().is_err());
}

#[test]
fn user_user_id_fails_for_empty_user_id() {
    let user = Builder::new().with_string(CLAIM_SUB, "").build();
    assert!(user.user_id().is_err());
}

#[test]
fn user_user_id_fails_for_user_id_exceeding_max_length() {
    let user = Builder::new()
        .with_string(CLAIM_SUB, "a".repeat(65).as_str())
        .build();
    assert!(user.user_id().is_err());
}

#[test]
fn user_full_name_returns_valid_name() {
    let user = Builder::new().with_string(CLAIM_NAME, "John Doe").build();

    assert_eq!(user.full_name().unwrap(), "John Doe");
}

#[test]
fn user_full_name_fails_for_missing_name() {
    let user = Builder::new().build();
    assert!(user.full_name().is_err());
}

#[test]
fn user_full_name_fails_for_empty_name() {
    let user = Builder::new().with_string(CLAIM_NAME, "").build();
    assert!(user.full_name().is_err());
}

#[test]
fn user_full_name_fails_for_name_exceeding_max_length() {
    let user = Builder::new()
        .with_string(CLAIM_NAME, "a".repeat(513).as_str())
        .build();
    assert!(user.full_name().is_err());
}

#[test]
fn user_email_returns_valid_email() {
    let user = Builder::new()
        .with_string(CLAIM_EMAIL, "auth@example.com")
        .build();

    assert_eq!(user.email().unwrap(), "auth@example.com");
}

#[test]
fn user_email_fails_for_missing_email() {
    let user = Builder::new().build();
    assert!(user.email().is_err());
}

#[test]
fn user_email_fails_for_empty_email() {
    let user = Builder::new().with_string(CLAIM_EMAIL, "").build();
    assert!(user.email().is_err());
}

#[test]
fn user_email_fails_for_email_exceeding_max_length() {
    let user = Builder::new()
        .with_string(CLAIM_EMAIL, "a".repeat(513).as_str())
        .build();
    assert!(user.email().is_err());
}

#[test]
fn refusals_of_claims_are_client_errors() {
    let user = Builder::new()
        .with_value(CLAIM_TENANT, Json::Unsigned(7))
        .build();
    let expected = [
        (
            user.tenant_id(),
            "No or invalid  tenant id ('tenant') in JWT token present!",
        ),
        (
            user.user_id(),
            "No or invalid auth id ('sub') in JWT token present!",
        ),
        (
            user.issuer(),
            "No or invalid issuer ('iss') in JWT token present!",
        ),
        (
            user.full_name(),
            "No or invalid auth name ('name') in JWT token present!",
        ),
        (
            user.email(),
            "No or invalid email ('email') in JWT token present!",
        ),
    ];
    for (result, message) in expected {
        let err = result.unwrap_err();
        assert_eq!(err.message(), message);
        assert_eq!(into_rejection(err).status, 400);
    }

    let longest = "ä".repeat(64);
    let user = Builder::new().with_string(CLAIM_TENANT, &longest).build();
    assert_eq!(user.tenant_id().unwrap(), longest);
}

#[test]
fn user_has_permission_returns_true_if_user_has_permission() {
    let user = Builder::new()
        .with_value(CLAIM_PERMISSIONS, texts(&["permission1", "permission2"]))
        .build();

    assert!(user.has_any_permission(&["permission1"]));
    assert!(user.has_any_permission(&["permission2"]));
    assert!(user.has_any_permission(&["permission1", "permission2"]));
}

#[test]
fn user_has_permission_returns_false_if_user_does_not_have_permission() {
    let user = Builder::new()
        .with_value(CLAIM_PERMISSIONS, texts(&["permission1", "permission2"]))
        .build();

    assert!(!user.has_any_permission(&["permission3"]));
    assert!(!user.has_any_permission(&["permission4"]));
    assert!(!user.has_any_permission(&["permission3", "permission4"]));
}

#[test]
fn user_has_permission_returns_false_if_no_permissions_claim_present() {
    let user = Builder::new().build();

    assert!(!user.has_any_permission(&["permission1"]));
}

#[test]
fn user_has_permission_returns_false_if_permissions_claim_is_not_an_array() {
    let user = Builder::new()
        .with_string(CLAIM_PERMISSIONS, "permission1")
        .build();

    assert!(!user.has_any_permission(&["permission1"]));
}

#[test]
fn user_enforce_permission_with_permission_succeeds() {
    let user = Builder::new()
        .with_value(CLAIM_PERMISSIONS, texts(&["permission1", "permission2"]))
        .build();

    assert!(
        user.clone()
            .enforce_any_permission(&["permission1"])
            .is_ok()
    );
    assert!(
        user.clone()
            .enforce_any_permission(&["permission2"])
            .is_ok()
    );
    assert!(
        user.enforce_any_permission(&["permissionX", "permission1"])
            .is_ok()
    );
}

fn refusal(result: Result<User, wasabi::web::error::Error>) -> wasabi::web::error::Error {
    match result {
        Ok(_) => panic!("the user was let through"),
        Err(err) => err,
    }
}

#[test]
fn user_enforce_permission_fails_if_permission_is_missing() {
    let user = Builder::new()
        .with_value(CLAIM_PERMISSIONS, texts(&["permission1", "permission2"]))
        .build();

    assert_eq!(
        refusal(user.clone().enforce_any_permission(&["permissionA"])).message(),
        "The permission 'permissionA' is required for this action"
    );

    assert_eq!(
        refusal(user.enforce_any_permission(&["permissionA", "permissionB"])).message(),
        "One of the permissions 'permissionA, permissionB' is required for this action"
    );
}

#[test]
fn permission_expressions_are_enforced() {
    let user = Builder::new()
        .with_value(
            CLAIM_PERMISSIONS,
            Json::Array(vec![text("a"), Json::Null, text("b")]),
        )
        .build();
    assert!(user.has_permission_expr("a + b, c"));
    assert!(user.has_permission_expr(""));
    assert!(!user.has_permission_expr("a + !b"));
    assert!(user.clone().enforce_permission_expr("b").is_ok());
    let err = refusal(user.enforce_permission_expr("a+c"));
    assert_eq!(
        err.message(),
        "The permission expression 'a+c' must be satisfied for this action"
    );
    assert_eq!(into_rejection(err).status, 401);
}

#[test]
fn locale_and_raw_claims() {
    let user = Builder::new().with_value("amr", texts(&["pwd"])).build();
    assert_eq!(user.locale(), "en-US");
    assert_eq!(user.claim("amr"), Some(&texts(&["pwd"])));
    assert_eq!(user.claim("other"), None);
    assert_eq!(user.jwt_token, "");

    let user = Builder::new().with_string(CLAIM_LOCALE, "de-DE").build();
    assert_eq!(user.locale(), "de-DE");
}

#[test]
fn a_fresh_builder_expires_in_an_hour() {
    let user = UserBuilder::at(1_000).build();
    assert_eq!(user.claim("exp"), Some(&Json::Unsigned(4_600)));

    let now = std::time::SystemTime::now()
        .duration_since(std::time::UNIX_EPOCH)
        .unwrap()
        .as_secs();
    match User::builder().build().claim("exp") {
        Some(Json::Unsigned(exp)) => assert!((now + 3590..now + 3700).contains(exp)),
        other => panic!("unexpected expiry: {other:?}"),
    }
}

#[test]
fn a_token_carries_its_claims() {
    let nested = object(vec![
        ("list", Json::Array(vec![Json::Null, Json::Signed(-5), Json::Bool(false)])),
        ("quote\"\\\u{1}", text("ä€\u{1f980}")),
        ("big", Json::Unsigned(u64::MAX)),
    ]);
    let builder = Builder::new()
        .with_string(CLAIM_SUB, "1234")
        .with_value("nested", nested);
    let token = builder.into_token("secret").unwrap();
    assert_eq!(token.split('.').count(), 3);

    let claims = Authenticator::decode_payload(&token).unwrap();
    assert_eq!(claims.len(), 3);
    assert_eq!(claims.get(CLAIM_SUB), Some(&text("1234")));
    assert_eq!(
        claims.get("nested").unwrap().to_text(),
        "{\"big\":18446744073709551615,\"list\":[null,-5,false],\"quote\\\"\\\\\\u0001\":\"ä€🦀\"}"
    );
}

#[test]
fn a_list_of_permissions_is_an_expression() {
    let user = Builder::default()
        .with_value(CLAIM_PERMISSIONS, texts(&["a", "c"]))
        .build();
    for (first, second) in [("a", "b"), ("b", "a"), ("b", "d"), ("c", "a")] {
        assert_eq!(
            user.has_any_permission(&[first, second]),
            user.has_permission_expr(&format!("{first},{second}"))
        );
        assert_eq!(
            user.has_any_permission(&[first]),
            user.has_permission_expr(first)
        );
        for third in ["c", "e"] {
            assert_eq!(
                user.has_any_permission(&[first, second, third]),
                user.has_permission_expr(&format!("{first},{second},{third}"))
            );
        }
    }
}
