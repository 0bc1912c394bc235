//! Permission-string expression evaluation.
//!
//! A tiny boolean grammar over permission strings, used both to guard routes and by token issuers
//! to project permissions. The grammar is intentionally minimal:
//!
//! - `,` is OR (lowest precedence): `a,b` holds if `a` or `b` holds.
//! - `+` is AND: `a+b` holds if both `a` and `b` hold.
//! - `!` is NOT (prefix on a term): `!a` holds if `a` does **not** hold.
//! - whitespace around terms/operators is ignored.
//!
//! An **empty** expression holds (no restriction); an empty clause is skipped.

use crate::text::{
    is_blank, is_white_space, law_trim_takes_the_white_space_around, lemma_split_concat,
    lemma_split_piece, lemma_split_prefix, lemma_split_suffix, lemma_split_whole, lemma_trim_blank,
    lemma_trim_cuts, lemma_trim_nothing, lemma_trim_part, split, split_str, strip_char, trim,
    trim_end, trim_start, trim_str, views,
};
use vstd::prelude::*;

verus! {

/// The piece of `s` at position `i` between two separators, without white space around it.
pub open spec fn piece(s: Seq<char>, sep: char, i: int) -> Seq<char> {
    trim(split(s, sep)[i])
}

/// Whether there is a piece at position `i` that is not empty.
pub open spec fn has_piece(s: Seq<char>, sep: char, i: int) -> bool {
    0 <= i < split(s, sep).len() && piece(s, sep, i).len() > 0
}

/// Whether a term holds: a permission that is there, or after `!` one that is not.
pub open spec fn term_holds(term: Seq<char>, granted: spec_fn(Seq<char>) -> bool) -> bool {
    if term.len() > 0 && term[0] == '!' {
        !granted(trim(term.drop_first()))
    } else {
        granted(term)
    }
}

/// Whether a clause holds: it has a term, and all of its terms hold.
pub open spec fn clause_holds(clause: Seq<char>, granted: spec_fn(Seq<char>) -> bool) -> bool {
    &&& exists|i: int| has_piece(clause, '+', i)
    &&& forall|i: int| #[trigger]
        has_piece(clause, '+', i) ==> term_holds(piece(clause, '+', i), granted)
}

/// Whether an expression holds: it has no clause, or one of its clauses holds.
pub open spec fn expr_holds(expression: Seq<char>, granted: spec_fn(Seq<char>) -> bool) -> bool {
    ||| forall|i: int| !has_piece(expression, ',', i)
    ||| exists|i: int| #[trigger]
        has_piece(expression, ',', i) && clause_holds(piece(expression, ',', i), granted)
}

/// The permission that a term asks about.
pub open spec fn asked(term: Seq<char>) -> Seq<char> {
    if term.len() > 0 && term[0] == '!' {
        trim(term.drop_first())
    } else {
        term
    }
}

/// Whether a clause asks about a permission.
pub open spec fn clause_asks(clause: Seq<char>, permission: Seq<char>) -> bool {
    exists|i: int| #[trigger]
        has_piece(clause, '+', i) && asked(piece(clause, '+', i)) == permission
}

/// Whether an expression asks about a permission.
pub open spec fn expr_asks(expression: Seq<char>, permission: Seq<char>) -> bool {
    exists|i: int| #[trigger]
        has_piece(expression, ',', i) && clause_asks(piece(expression, ',', i), permission)
}

/// Whether a predicate over text answers as `granted` does, on what an expression asks about.
pub open spec fn answers_as<F: Fn(&str) -> bool>(
    contains: F,
    granted: spec_fn(Seq<char>) -> bool,
    expression: Seq<char>,
) -> bool {
    forall|term: &str, found: bool| #[trigger]
        call_ensures(contains, (term,), found) && expr_asks(expression, term@) ==> found == granted(
            term@,
        )
}

fn eval_term<F: Fn(&str) -> bool>(
    term: &str,
    contains: &F,
    Ghost(expression): Ghost<Seq<char>>,
) -> (r: bool)
    requires
        expr_asks(expression, asked(term@)),
        forall|t: &str| expr_asks(expression, t@) ==> call_requires(contains, (t,)),
    ensures
        forall|granted: spec_fn(Seq<char>) -> bool| #[trigger]
            answers_as(*contains, granted, expression) ==> r == term_holds(term@, granted),
{
    match strip_char(term, '!') {
        Some(negated) => {
            let found: bool = contains(trim_str(negated));
            !found
        },
        None => contains(term),
    }
}

fn eval_clause<F: Fn(&str) -> bool>(
    clause: &str,
    contains: &F,
    Ghost(expression): Ghost<Seq<char>>,
) -> (r: bool)
    requires
        forall|permission: Seq<char>| #[trigger]
            clause_asks(clause@, permission) ==> expr_asks(expression, permission),
        forall|t: &str| expr_asks(expression, t@) ==> call_requires(contains, (t,)),
    ensures
        forall|granted: spec_fn(Seq<char>) -> bool| #[trigger]
            answers_as(*contains, granted, expression) ==> r == clause_holds(clause@, granted),
{
    let terms = split_str(clause, '+');
    let ghost all = split(clause@, '+');
    let mut any: bool = false;
    let mut i: usize = 0;
    while i < terms.len()
        invariant
            all == split(clause@, '+'),
            all == views(terms@),
            i <= terms@.len(),
            forall|permission: Seq<char>| #[trigger]
                clause_asks(clause@, permission) ==> expr_asks(expression, permission),
            forall|t: &str| expr_asks(expression, t@) ==> call_requires(contains, (t,)),
            any == exists|k: int| k < i && has_piece(clause@, '+', k),
            forall|granted: spec_fn(Seq<char>) -> bool, k: int|
                #![trigger answers_as(*contains, granted, expression), has_piece(clause@, '+', k)]
                answers_as(*contains, granted, expression) && k < i && has_piece(clause@, '+', k)
                    ==> term_holds(piece(clause@, '+', k), granted),
        decreases terms@.len() - i,
    {
        assert(all[i as int] == terms@[i as int]@);
        let term = trim_str(terms[i]);
        if !term.is_empty() {
            assert(has_piece(clause@, '+', i as int));
            assert(clause_asks(clause@, asked(term@)));
            if !eval_term(term, contains, Ghost(expression)) {
                return false;
            }
            any = true;
        }
        i += 1;
    }
    any
}

/// Evaluates a permission-string `expression` against a membership predicate.
///
/// `contains(term)` must return whether `term` is present in the set being tested (e.g. the
/// token's granted permissions, or an issuer's accumulated subject set). See the
/// [module docs](self) for the grammar. It is called only with what the expression asks about,
/// which is never anything with white space around it, nor with a comma or a plus in it.
pub fn eval_permission_expr<F: Fn(&str) -> bool>(expression: &str, contains: F) -> (r: bool)
    requires
        forall|term: &str| expr_asks(expression@, term@) ==> call_requires(contains, (term,)),
    ensures
        forall|granted: spec_fn(Seq<char>) -> bool| #[trigger]
            answers_as(contains, granted, expression@) ==> r == expr_holds(expression@, granted),
{
    let clauses = split_str(expression, ',');
    let ghost all = split(expression@, ',');
    let mut any: bool = false;
    let mut i: usize = 0;
    while i < clauses.len()
        invariant
            all == split(expression@, ','),
            all == views(clauses@),
            i <= clauses@.len(),
            forall|t: &str| expr_asks(expression@, t@) ==> call_requires(contains, (t,)),
            any == exists|k: int| k < i && has_piece(expression@, ',', k),
            forall|granted: spec_fn(Seq<char>) -> bool, k: int|
                #![trigger answers_as(contains, granted, expression@), has_piece(expression@, ',', k)]
                answers_as(contains, granted, expression@) && k < i && has_piece(
                    expression@,
                    ',',
                    k,
                ) ==> !clause_holds(piece(expression@, ',', k), granted),
        decreases clauses@.len() - i,
    {
        assert(all[i as int] == clauses@[i as int]@);
        let clause = trim_str(clauses[i]);
        if !clause.is_empty() {
            assert(has_piece(expression@, ',', i as int));
            if eval_clause(clause, &contains, Ghost(expression@)) {
                return true;
            }
            any = true;
        }
        i += 1;
    }
    !any
}

/// What an expression asks about has no white space around it and no comma or plus in it.
pub proof fn law_only_bare_permissions_are_asked_about(
    expression: Seq<char>,
    permission: Seq<char>,
)
    requires
        expr_asks(expression, permission),
    ensures
        trim(permission) == permission,
        !permission.contains(','),
        !permission.contains('+'),
{
    let i = choose|i: int| #[trigger]
        has_piece(expression, ',', i) && clause_asks(piece(expression, ',', i), permission);
    let clause = piece(expression, ',', i);
    lemma_split_piece(expression, ',', i);
    lemma_trim_part(split(expression, ',')[i]);
    let j = choose|j: int| #[trigger]
        has_piece(clause, '+', j) && asked(piece(clause, '+', j)) == permission;
    let term = piece(clause, '+', j);
    lemma_split_piece(clause, '+', j);
    lemma_trim_part(split(clause, '+')[j]);
    assert(!clause.contains(','));
    assert(!split(clause, '+')[j].contains(','));
    assert(!term.contains(',') && !term.contains('+'));
    if term.len() > 0 && term[0] == '!' {
        let rest = term.drop_first();
        lemma_trim_part(rest);
        assert forall|c: char| #[trigger] rest.contains(c) implies term.contains(c) by {
            let k = choose|k: int| 0 <= k < rest.len() && rest[k] == c;
            assert(term[k + 1] == c);
        }
    }
}

/// Whether an expression holds depends on nothing but what it asks about: two membership tests that
/// agree there give the same result.
pub proof fn law_only_what_is_asked_about_counts(
    expression: Seq<char>,
    a: spec_fn(Seq<char>) -> bool,
    b: spec_fn(Seq<char>) -> bool,
)
    requires
        forall|permission: Seq<char>| #[trigger]
            expr_asks(expression, permission) ==> a(permission) == b(permission),
    ensures
        expr_holds(expression, a) == expr_holds(expression, b),
{
    assert forall|i: int| #[trigger] has_piece(expression, ',', i) implies clause_holds(
        piece(expression, ',', i),
        a,
    ) == clause_holds(piece(expression, ',', i), b) by {
        let clause = piece(expression, ',', i);
        assert forall|j: int| #[trigger] has_piece(clause, '+', j) implies term_holds(
            piece(clause, '+', j),
            a,
        ) == term_holds(piece(clause, '+', j), b) by {
            let permission = asked(piece(clause, '+', j));
            assert(clause_asks(clause, permission));
            assert(expr_asks(expression, permission));
        }
    }
}

proof fn lemma_pieces_concat(a: Seq<char>, b: Seq<char>, sep: char)
    ensures
        ({
            let n = split(a, sep).len() as int;
            let s = a + seq![sep] + b;
            &&& forall|i: int| #[trigger]
                has_piece(a, sep, i) ==> has_piece(s, sep, i) && piece(s, sep, i) == piece(
                    a,
                    sep,
                    i,
                )
            &&& forall|i: int| #[trigger]
                has_piece(b, sep, i) ==> has_piece(s, sep, i + n) && piece(s, sep, i + n) == piece(
                    b,
                    sep,
                    i,
                )
            &&& forall|i: int| #[trigger]
                has_piece(s, sep, i) ==> if i < n {
                    has_piece(a, sep, i) && piece(s, sep, i) == piece(a, sep, i)
                } else {
                    has_piece(b, sep, i - n) && piece(s, sep, i) == piece(b, sep, i - n)
                }
        }),
{
    lemma_split_concat(a, b, sep);
}

/// `a,b` holds exactly if `a` or `b` does, each of them having a clause.
pub proof fn law_comma_is_or(a: Seq<char>, b: Seq<char>, granted: spec_fn(Seq<char>) -> bool)
    requires
        exists|i: int| has_piece(a, ',', i),
        exists|i: int| has_piece(b, ',', i),
    ensures
        expr_holds(a + seq![','] + b, granted) == (expr_holds(a, granted) || expr_holds(
            b,
            granted,
        )),
{
    let s = a + seq![','] + b;
    let n = split(a, ',').len() as int;
    lemma_pieces_concat(a, b, ',');
    if expr_holds(a, granted) {
        let i = choose|i: int| #[trigger]
            has_piece(a, ',', i) && clause_holds(piece(a, ',', i), granted);
        assert(has_piece(s, ',', i));
    }
    if expr_holds(b, granted) {
        let i = choose|i: int| #[trigger]
            has_piece(b, ',', i) && clause_holds(piece(b, ',', i), granted);
        assert(has_piece(s, ',', i + n));
    }
    let k = choose|i: int| has_piece(a, ',', i);
    assert(has_piece(s, ',', k));
    if expr_holds(s, granted) {
        let i = choose|i: int| #[trigger]
            has_piece(s, ',', i) && clause_holds(piece(s, ',', i), granted);
        assert(has_piece(s, ',', i));
    }
}

/// An empty clause is skipped: `a,b` holds exactly if `b` does where `a` has no clause, and
/// exactly if `a` does where `b` has none.
pub proof fn law_empty_clause_is_skipped(
    a: Seq<char>,
    b: Seq<char>,
    granted: spec_fn(Seq<char>) -> bool,
)
    ensures
        (forall|i: int| !has_piece(a, ',', i)) ==> expr_holds(a + seq![','] + b, granted)
            == expr_holds(b, granted),
        (forall|i: int| !has_piece(b, ',', i)) ==> expr_holds(a + seq![','] + b, granted)
            == expr_holds(a, granted),
{
    let s = a + seq![','] + b;
    let n = split(a, ',').len() as int;
    lemma_pieces_concat(a, b, ',');
    if forall|i: int| !has_piece(a, ',', i) {
        if exists|i: int| #[trigger] has_piece(b, ',', i) && clause_holds(piece(b, ',', i), granted) {
            let i = choose|i: int| #[trigger]
                has_piece(b, ',', i) && clause_holds(piece(b, ',', i), granted);
            assert(has_piece(s, ',', i + n));
        } else if exists|i: int| has_piece(b, ',', i) {
            let i = choose|i: int| has_piece(b, ',', i);
            assert(has_piece(s, ',', i + n));
        }
    }
}

/// `a+b` holds exactly if `a` and `b` do, each of them having a term.
pub proof fn law_plus_is_and(a: Seq<char>, b: Seq<char>, granted: spec_fn(Seq<char>) -> bool)
    requires
        exists|i: int| has_piece(a, '+', i),
        exists|i: int| has_piece(b, '+', i),
    ensures
        clause_holds(a + seq!['+'] + b, granted) == (clause_holds(a, granted) && clause_holds(
            b,
            granted,
        )),
{
    let s = a + seq!['+'] + b;
    let n = split(a, '+').len() as int;
    lemma_pieces_concat(a, b, '+');
    let k = choose|i: int| has_piece(a, '+', i);
    assert(has_piece(s, '+', k));
    if clause_holds(s, granted) {
        assert forall|i: int| #[trigger] has_piece(a, '+', i) implies term_holds(
            piece(a, '+', i),
            granted,
        ) by {
            assert(has_piece(s, '+', i));
        }
        assert forall|i: int| #[trigger] has_piece(b, '+', i) implies term_holds(
            piece(b, '+', i),
            granted,
        ) by {
            assert(has_piece(s, '+', i + n));
        }
    }
}

/// An expression of white space alone is no restriction.
pub proof fn law_blank_expression_holds(
    expression: Seq<char>,
    granted: spec_fn(Seq<char>) -> bool,
)
    requires
        is_blank(expression),
    ensures
        expr_holds(expression, granted),
{
    assert forall|i: int| 0 <= i < expression.len() implies expression[i] != ',' by {
        assert(is_white_space(expression[i]));
    }
    lemma_split_whole(expression, ',');
    lemma_trim_nothing(expression);
}

/// A single permission holds exactly if it is granted, and after `!` exactly if it is not.
pub proof fn law_single_permission(permission: Seq<char>, granted: spec_fn(Seq<char>) -> bool)
    requires
        permission.len() > 0,
        trim(permission) == permission,
        permission[0] != '!',
        forall|i: int|
            0 <= i < permission.len() ==> permission[i] != ',' && permission[i] != '+',
    ensures
        expr_holds(permission, granted) == granted(permission),
        expr_holds(seq!['!'] + permission, granted) == !granted(permission),
{
    lemma_single_term(permission, granted);
    let negated = seq!['!'] + permission;
    assert(negated.drop_first() =~= permission);
    lemma_trim_prefix(permission);
    lemma_single_term(negated, granted);
}

proof fn lemma_trim_prefix(s: Seq<char>)
    requires
        trim(s) == s,
        s.len() > 0,
    ensures
        trim(seq!['!'] + s) == seq!['!'] + s,
{
    let t = seq!['!'] + s;
    assert(trim_start(t) == t);
    lemma_trim_end_last(s);
    assert(t.last() == s.last());
}

proof fn lemma_trim_end_last(s: Seq<char>)
    requires
        trim(s) == s,
        s.len() > 0,
    ensures
        !is_white_space(s.last()),
{
    lemma_trim_shorter(s);
    if is_white_space(s.last()) {
        lemma_trim_shorter(s.drop_last());
        lemma_trim_end_shorter(s.drop_last());
        assert(trim_start(s) == s);
        assert(trim_end(s) == trim_end(s.drop_last()));
    }
}

proof fn lemma_trim_end_shorter(s: Seq<char>)
    ensures
        trim_end(s).len() <= s.len(),
    decreases s.len(),
{
    if s.len() > 0 && is_white_space(s.last()) {
        lemma_trim_end_shorter(s.drop_last());
    }
}

proof fn lemma_trim_shorter(s: Seq<char>)
    ensures
        trim_start(s).len() <= s.len(),
        trim(s).len() <= trim_start(s).len(),
        trim_start(s).len() == s.len() ==> trim_start(s) == s,
    decreases s.len(),
{
    lemma_trim_end_shorter(trim_start(s));
    if s.len() > 0 && is_white_space(s[0]) {
        lemma_trim_shorter(s.drop_first());
    }
}

proof fn lemma_single_term(s: Seq<char>, granted: spec_fn(Seq<char>) -> bool)
    requires
        s.len() > 0,
        trim(s) == s,
        forall|i: int| 0 <= i < s.len() ==> s[i] != ',' && s[i] != '+',
    ensures
        expr_holds(s, granted) == term_holds(s, granted),
{
    lemma_split_whole(s, ',');
    lemma_split_whole(s, '+');
    assert(has_piece(s, ',', 0) && piece(s, ',', 0) == s);
    assert(has_piece(s, '+', 0) && piece(s, '+', 0) == s);
}

proof fn lemma_blank_pieces(w: Seq<char>, s: Seq<char>, v: Seq<char>, sep: char)
    requires
        is_blank(w),
        is_blank(v),
        !is_white_space(sep),
    ensures
        forall|i: int| #[trigger]
            has_piece(w + s + v, sep, i) == has_piece(s, sep, i) && (has_piece(s, sep, i) ==> piece(
                w + s + v,
                sep,
                i,
            ) == piece(s, sep, i)),
{
    assert forall|i: int| 0 <= i < w.len() implies w[i] != sep by {
        assert(is_white_space(w[i]));
    }
    assert forall|i: int| 0 <= i < v.len() implies v[i] != sep by {
        assert(is_white_space(v[i]));
    }
    let t = w + s + v;
    lemma_split_suffix(s, v, sep);
    lemma_split_prefix(w, s + v, sep);
    assert(t =~= w + (s + v));
    let a = split(s, sep);
    let b = split(t, sep);
    assert(b.len() == a.len());
    assert forall|i: int| 0 <= i < a.len() implies trim(#[trigger] b[i]) == trim(a[i]) by {
        let none = Seq::<char>::empty();
        let before = if i == 0 {
            w
        } else {
            none
        };
        let after = if i == a.len() - 1 {
            v
        } else {
            none
        };
        assert(b[i] =~= before + a[i] + after);
        lemma_trim_blank(before, a[i], after);
    }
}

/// White space around an expression and around its clauses is ignored.
pub proof fn law_white_space_around_expressions_is_ignored(
    w: Seq<char>,
    expression: Seq<char>,
    v: Seq<char>,
    granted: spec_fn(Seq<char>) -> bool,
)
    requires
        is_blank(w),
        is_blank(v),
    ensures
        expr_holds(w + expression + v, granted) == expr_holds(expression, granted),
{
    lemma_blank_pieces(w, expression, v, ',');
    let t = w + expression + v;
    if exists|i: int| has_piece(expression, ',', i) {
        let i = choose|i: int| has_piece(expression, ',', i);
        assert(has_piece(t, ',', i));
    }
    if exists|i: int| #[trigger]
        has_piece(expression, ',', i) && clause_holds(piece(expression, ',', i), granted) {
        let i = choose|i: int| #[trigger]
            has_piece(expression, ',', i) && clause_holds(piece(expression, ',', i), granted);
        assert(has_piece(t, ',', i));
    }
}

/// White space around a clause and around its terms is ignored, and so is white space after `!`.
pub proof fn law_white_space_around_terms_is_ignored(
    w: Seq<char>,
    clause: Seq<char>,
    v: Seq<char>,
    granted: spec_fn(Seq<char>) -> bool,
)
    requires
        is_blank(w),
        is_blank(v),
    ensures
        clause_holds(w + clause + v, granted) == clause_holds(clause, granted),
        term_holds(seq!['!'] + w + clause + v, granted) == term_holds(seq!['!'] + clause, granted),
{
    lemma_blank_pieces(w, clause, v, '+');
    let t = w + clause + v;
    if exists|i: int| has_piece(clause, '+', i) {
        let i = choose|i: int| has_piece(clause, '+', i);
        assert(has_piece(t, '+', i));
    }
    if clause_holds(t, granted) {
        assert forall|i: int| #[trigger] has_piece(clause, '+', i) implies term_holds(
            piece(clause, '+', i),
            granted,
        ) by {
            assert(has_piece(t, '+', i));
        }
    }
    lemma_trim_blank(w, clause, v);
    assert((seq!['!'] + w + clause + v).drop_first() =~= t);
    assert((seq!['!'] + clause).drop_first() =~= clause);
}

proof fn lemma_free_of(s: Seq<char>, c: char)
    requires
        !s.contains(c),
    ensures
        forall|i: int| 0 <= i < s.len() ==> s[i] != c,
{
    assert forall|i: int| 0 <= i < s.len() implies s[i] != c by {
        assert(s.contains(s[i]));
    }
}

proof fn lemma_clause_is_expression(clause: Seq<char>, granted: spec_fn(Seq<char>) -> bool)
    requires
        !clause.contains(','),
        !is_blank(clause),
    ensures
        expr_holds(clause, granted) == clause_holds(clause, granted),
{
    lemma_free_of(clause, ',');
    lemma_split_whole(clause, ',');
    lemma_trim_nothing(clause);
    assert(has_piece(clause, ',', 0) && piece(clause, ',', 0) == trim(clause));
    let (w, v) = lemma_trim_cuts(clause);
    law_white_space_around_terms_is_ignored(w, trim(clause), v, granted);
}

proof fn lemma_blank_has_no_term(s: Seq<char>)
    requires
        is_blank(s),
    ensures
        forall|i: int| !has_piece(s, '+', i),
{
    assert forall|i: int| 0 <= i < s.len() implies s[i] != '+' by {
        assert(is_white_space(s[i]));
    }
    lemma_split_whole(s, '+');
    lemma_trim_nothing(s);
}

/// Two expressions without commas that have a plus between them hold exactly if both of them do.
pub proof fn law_plus_asks_for_both(
    a: Seq<char>,
    b: Seq<char>,
    granted: spec_fn(Seq<char>) -> bool,
)
    requires
        !a.contains(','),
        !b.contains(','),
        exists|i: int| has_piece(a, '+', i),
        exists|i: int| has_piece(b, '+', i),
    ensures
        expr_holds(a + seq!['+'] + b, granted) == (expr_holds(a, granted) && expr_holds(
            b,
            granted,
        )),
{
    let s = a + seq!['+'] + b;
    if is_blank(a) {
        lemma_blank_has_no_term(a);
    }
    if is_blank(b) {
        lemma_blank_has_no_term(b);
    }
    if s.contains(',') {
        let i = choose|i: int| 0 <= i < s.len() && s[i] == ',';
        if i < a.len() {
            assert(a[i] == ',');
        } else {
            assert(b[i - a.len() - 1] == ',');
        }
    }
    if is_blank(s) {
        assert(is_white_space(s[a.len() as int]));
    }
    lemma_clause_is_expression(a, granted);
    lemma_clause_is_expression(b, granted);
    lemma_clause_is_expression(s, granted);
    law_plus_is_and(a, b, granted);
}

/// A plus without any term beside it never holds.
pub proof fn law_plus_alone_never_holds(
    clause: Seq<char>,
    granted: spec_fn(Seq<char>) -> bool,
)
    requires
        !clause.contains(','),
        !is_blank(clause),
        forall|i: int| 0 <= i < clause.len() ==> #[trigger] clause[i] == '+' || is_white_space(
            clause[i],
        ),
    ensures
        !expr_holds(clause, granted),
{
    lemma_clause_is_expression(clause, granted);
    if exists|i: int| has_piece(clause, '+', i) {
        let i = choose|i: int| has_piece(clause, '+', i);
        let part = split(clause, '+')[i];
        lemma_split_piece(clause, '+', i);
        lemma_trim_nothing(part);
        assert forall|k: int| 0 <= k < part.len() implies is_white_space(#[trigger] part[k]) by {
            assert(part.contains(part[k]));
            assert(clause.contains(part[k]));
            let j = choose|j: int| 0 <= j < clause.len() && clause[j] == part[k];
            assert(clause[j] == '+' || is_white_space(clause[j]));
        }
        assert(is_blank(part));
    }
}

/// `!` in front of anything without a comma or a plus holds exactly if that is not granted, whatever
/// white space is around it; without `!` it holds exactly if it is.
pub proof fn law_negation(permission: Seq<char>, granted: spec_fn(Seq<char>) -> bool)
    requires
        !permission.contains(','),
        !permission.contains('+'),
    ensures
        expr_holds(seq!['!'] + permission, granted) == !granted(trim(permission)),
        !is_blank(permission) && trim(permission)[0] != '!' ==> expr_holds(permission, granted)
            == granted(trim(permission)),
{
    let (w, v) = lemma_trim_cuts(permission);
    let q = trim(permission);
    let none = Seq::<char>::empty();
    let s = seq!['!'] + permission;
    let head = if q.len() > 0 {
        seq!['!'] + w + q
    } else {
        seq!['!']
    };
    let tail = if q.len() > 0 {
        v
    } else {
        w + v
    };
    lemma_free_of(permission, ',');
    lemma_free_of(permission, '+');
    assert(s =~= none + head + tail);
    assert forall|i: int| 0 <= i < tail.len() implies is_white_space(#[trigger] tail[i]) by {
        if q.len() == 0 {
            if i < w.len() {
                assert(is_white_space(w[i]));
            } else {
                assert(is_white_space(v[i - w.len()]));
            }
        } else {
            assert(is_white_space(v[i]));
        }
    }
    assert(is_blank(tail));
    assert(is_blank(none));
    law_white_space_around_expressions_is_ignored(none, head, tail, granted);
    assert(head[0] == '!');
    assert(q.len() > 0 ==> head.last() == q.last());
    assert(none + head + none =~= head);
    law_trim_takes_the_white_space_around(none, head, none);
    assert forall|i: int| 0 <= i < head.len() implies head[i] != ',' && head[i] != '+' by {
        if i > 0 {
            assert(s[i] == head[i] && s[i] == permission[i - 1]);
        }
    }
    lemma_single_term(head, granted);
    assert(trim(head.drop_first()) == q) by {
        if q.len() > 0 {
            assert(head.drop_first() =~= w + q + none);
            law_trim_takes_the_white_space_around(w, q, none);
        } else {
            assert(head.drop_first() =~= none);
            assert(none + none + none =~= none);
            law_trim_takes_the_white_space_around(none, none, none);
            assert(q =~= none);
        }
    }
    if !is_blank(permission) {
        lemma_trim_nothing(permission);
        law_white_space_around_expressions_is_ignored(w, q, v, granted);
        lemma_trim_part(permission);
        assert forall|i: int| 0 <= i < q.len() implies q[i] != ',' && q[i] != '+' by {
            assert(permission[w.len() + i] == q[i]);
        }
        lemma_single_term(q, granted);
    }
}

proof fn lemma_empty_terms(a: Seq<char>, b: Seq<char>, granted: spec_fn(Seq<char>) -> bool)
    ensures
        (forall|i: int| !has_piece(a, '+', i)) ==> clause_holds(a + seq!['+'] + b, granted)
            == clause_holds(b, granted),
        (forall|i: int| !has_piece(b, '+', i)) ==> clause_holds(a + seq!['+'] + b, granted)
            == clause_holds(a, granted),
{
    let s = a + seq!['+'] + b;
    let n = split(a, '+').len() as int;
    lemma_pieces_concat(a, b, '+');
    if forall|i: int| !has_piece(a, '+', i) {
        if exists|i: int| has_piece(b, '+', i) {
            let i = choose|i: int| has_piece(b, '+', i);
            assert(has_piece(s, '+', i + n));
        }
        if clause_holds(s, granted) {
            assert forall|i: int| #[trigger] has_piece(b, '+', i) implies term_holds(
                piece(b, '+', i),
                granted,
            ) by {
                assert(has_piece(s, '+', i + n));
            }
        }
    }
    if forall|i: int| !has_piece(b, '+', i) {
        if exists|i: int| has_piece(a, '+', i) {
            let i = choose|i: int| has_piece(a, '+', i);
            assert(has_piece(s, '+', i));
        }
        if clause_holds(s, granted) {
            assert forall|i: int| #[trigger] has_piece(a, '+', i) implies term_holds(
                piece(a, '+', i),
                granted,
            ) by {
                assert(has_piece(s, '+', i));
            }
        }
    }
}

/// A plus with nothing but white space before or behind it changes nothing.
pub proof fn law_empty_terms_are_skipped(
    w: Seq<char>,
    expression: Seq<char>,
    granted: spec_fn(Seq<char>) -> bool,
)
    requires
        is_blank(w),
        !expression.contains(','),
        !is_blank(expression),
    ensures
        expr_holds(w + seq!['+'] + expression, granted) == expr_holds(expression, granted),
        expr_holds(expression + seq!['+'] + w, granted) == expr_holds(expression, granted),
{
    let a = w + seq!['+'] + expression;
    let b = expression + seq!['+'] + w;
    lemma_blank_has_no_term(w);
    lemma_empty_terms(w, expression, granted);
    lemma_empty_terms(expression, w, granted);
    if a.contains(',') {
        let i = choose|i: int| 0 <= i < a.len() && a[i] == ',';
        if i < w.len() {
            assert(is_white_space(w[i]));
        } else {
            assert(expression[i - w.len() - 1] == ',');
        }
    }
    if b.contains(',') {
        let i = choose|i: int| 0 <= i < b.len() && b[i] == ',';
        if i < expression.len() {
            assert(expression[i] == ',');
        } else {
            assert(is_white_space(w[i - expression.len() - 1]));
        }
    }
    if is_blank(a) {
        assert(is_white_space(a[w.len() as int]));
    }
    if is_blank(b) {
        assert(is_white_space(b[expression.len() as int]));
    }
    lemma_clause_is_expression(expression, granted);
    lemma_clause_is_expression(a, granted);
    lemma_clause_is_expression(b, granted);
}

} // verus!
