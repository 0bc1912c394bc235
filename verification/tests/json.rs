use wasabi::json::{ClaimsSet, Json};
use wasabi::web::auth::token::parse_claims;

#[test]
fn names_are_kept_in_order_and_once() {
    let mut set = ClaimsSet::new();
    for (i, name) in ["b", "a", "c", "a", "ab", "é", "\u{10000}", "\u{ffff}"].iter().enumerate() {
        set.insert(name.to_string(), Json::Unsigned(i as u64));
    }
    assert_eq!(set.len(), 7);
    let names: Vec<&str> = set.entries().iter().map(|entry| entry.0.as_str()).collect();
    assert_eq!(names, ["a", "ab", "b", "c", "é", "\u{ffff}", "\u{10000}"]);
    assert_eq!(set.get("a"), Some(&Json::Unsigned(3)));
    assert_eq!(set.get("z"), None);
    assert!(set.contains_key("ab"));
    assert_eq!(set.clone(), set);
}

#[test]
fn values_pass_to_the_json_parser_and_back() {
    let text = "{\"a\":[1,-2,1.5,1e+300,true,null],\"b\":{\"c\":\"d\"}}";
    let set = parse_claims(text.as_bytes()).unwrap();
    let json = Json::Object(set);
    assert_eq!(json.to_text(), text);
    let value = json.to_value();
    assert_eq!(value["a"][1], serde_json::Value::from(-2));
    assert_eq!(Json::from_value(value), json);
    assert_eq!(
        Json::from_value(serde_json::Value::from(7u64)),
        Json::Unsigned(7)
    );
    assert_eq!(
        Json::from_value(serde_json::Value::from(-7)),
        Json::Signed(-7)
    );
}

#[test]
fn a_name_that_occurs_again_counts_last() {
    let set = parse_claims(b"{\"a\":1,\"a\":2}").unwrap();
    assert_eq!(set.len(), 1);
    assert_eq!(set.get("a"), Some(&Json::Unsigned(2)));
}

#[test]
fn other_json_is_no_set_of_claims() {
    for text in ["", "[]", "null", "{\"a\":}", "{} x", "{\"a\":1"] {
        assert!(parse_claims(text.as_bytes()).is_err(), "{text}");
    }
    let deep = format!("{{\"a\":{}{}}}", "[".repeat(126), "]".repeat(126));
    assert!(parse_claims(deep.as_bytes()).is_ok());
    let deeper = format!("{{\"a\":{}{}}}", "[".repeat(127), "]".repeat(127));
    assert!(parse_claims(deeper.as_bytes()).is_err());
}

#[test]
fn parts_of_values() {
    let array = Json::Array(vec![Json::Null]);
    assert_eq!(array.as_array().unwrap().len(), 1);
    assert!(array.as_str().is_none());
    assert!(array.as_object().is_none());
    assert!(array.into_object().is_none());
    assert_eq!(Json::text("x").as_str(), Some("x"));
    assert_eq!(Json::object(ClaimsSet::new()).as_object().unwrap().len(), 0);
}

#[test]
fn numbers_are_integers_where_they_can_be() {
    let parsed = |text: &str| {
        let set = parse_claims(format!("{{\"n\":{text}}}").as_bytes()).unwrap();
        set.get("n").unwrap().clone()
    };
    assert_eq!(parsed("18446744073709551615"), Json::Unsigned(u64::MAX));
    assert_eq!(parsed("-9223372036854775808"), Json::Signed(i64::MIN));
    assert!(matches!(parsed("1.0"), Json::Decimal(_)));
    assert!(matches!(parsed("18446744073709551616"), Json::Decimal(_)));
    assert_eq!(Json::Signed(5).to_text(), "5");
    assert_eq!(Json::Signed(i64::MIN).to_value(), serde_json::Value::from(i64::MIN));
    assert_eq!(Json::Unsigned(u64::MAX).to_value(), serde_json::Value::from(u64::MAX));
}
