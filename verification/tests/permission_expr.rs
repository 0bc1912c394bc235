use std::cell::RefCell;
use std::collections::HashSet;
use wasabi::web::auth::permission_expr::eval_permission_expr;

fn has(set: &[&str]) -> impl Fn(&str) -> bool {
    let set: HashSet<String> = set.iter().map(|term| (*term).to_owned()).collect();
    move |term: &str| set.contains(term)
}

#[test]
fn or_and_not_precedence() {
    // a OR (b AND c)
    assert!(eval_permission_expr("a,b+c", has(&["a"])));
    assert!(eval_permission_expr("a,b+c", has(&["b", "c"])));
    assert!(!eval_permission_expr("a,b+c", has(&["b"])));
    assert!(!eval_permission_expr("a,b+c", has(&["x"])));
}

#[test]
fn negation() {
    assert!(eval_permission_expr("a+!b", has(&["a"])));
    assert!(!eval_permission_expr("a+!b", has(&["a", "b"])));
    assert!(eval_permission_expr("!b", has(&["a"])));
    assert!(!eval_permission_expr("!b", has(&["b"])));
}

#[test]
fn whitespace_and_empty() {
    assert!(eval_permission_expr("  a + !b ", has(&["a"])));
    assert!(eval_permission_expr("", has(&["a"])));
    assert!(eval_permission_expr("   ", has(&[])));
}

#[test]
fn permissions_of_a_route() {
    let granted = has(&["manage:users", "write:usage"]);
    assert!(eval_permission_expr("manage:users", &granted));
    assert!(eval_permission_expr("admin:system, manage:users", &granted));
    assert!(eval_permission_expr("manage:users + write:usage", &granted));
    assert!(eval_permission_expr("manage:users + !self:readonly", &granted));
    assert!(!eval_permission_expr("manage:users + self:readonly", &granted));
    assert!(eval_permission_expr("", &granted));
}

#[test]
fn empty_clauses_are_skipped() {
    assert!(eval_permission_expr(",a", has(&["a"])));
    assert!(!eval_permission_expr(",a", has(&["b"])));
    assert!(!eval_permission_expr("a, ,", has(&["b"])));
    assert!(eval_permission_expr(" , ,", has(&[])));
}

#[test]
fn a_clause_of_operators_alone_does_not_hold() {
    assert!(!eval_permission_expr("+", has(&["a"])));
    assert!(eval_permission_expr("+,a", has(&["a"])));
    assert!(eval_permission_expr("a++", has(&["a"])));
}

#[test]
fn negation_of_a_spaced_or_missing_permission() {
    assert!(eval_permission_expr("! b", has(&["a"])));
    assert!(!eval_permission_expr("!\u{a0}b", has(&["b"])));
    assert!(eval_permission_expr("!", has(&["b"])));
    assert!(!eval_permission_expr("!", has(&[""])));
    assert!(!eval_permission_expr("!!b", has(&["!b"])));
}

#[test]
fn only_bare_terms_are_asked_about() {
    let asked = RefCell::new(Vec::new());
    let contains = |term: &str| {
        asked.borrow_mut().push(term.to_string());
        true
    };
    assert!(!eval_permission_expr(" a + ! b ,, !c,+", contains));
    assert_eq!(*asked.borrow(), vec!["a", "b", "c"]);
}

#[test]
fn answers_on_other_terms_do_not_count() {
    let expression = "a, b + !c";
    for granted in [vec!["b"], vec!["a", "c"], vec!["b", "c"], vec![]] {
        let more: Vec<&str> = granted.iter().copied().chain(["d", "a, b", "!c", " a"]).collect();
        assert_eq!(
            eval_permission_expr(expression, has(&granted)),
            eval_permission_expr(expression, has(&more))
        );
    }
}
