//! Text operations, stated over sequences of characters.

use vstd::prelude::*;

verus! {

broadcast use vstd::string::group_string_axioms;

/// Whether a character has the Unicode property `White_Space`.
pub open spec fn is_white_space(c: char) -> bool {
    let n = c as u32;
    ||| 0x9 <= n <= 0xd
    ||| n == 0x20
    ||| n == 0x85
    ||| n == 0xa0
    ||| n == 0x1680
    ||| 0x2000 <= n <= 0x200a
    ||| n == 0x2028
    ||| n == 0x2029
    ||| n == 0x202f
    ||| n == 0x205f
    ||| n == 0x3000
}

/// The position of the first `c` in `s`, or the length of `s` where there is none.
pub open spec fn index_of(s: Seq<char>, c: char) -> nat
    decreases s.len(),
{
    if s.len() == 0 || s[0] == c {
        0
    } else {
        1 + index_of(s.drop_first(), c)
    }
}

pub proof fn lemma_index_of(s: Seq<char>, c: char)
    ensures
        index_of(s, c) <= s.len(),
        forall|i: int| 0 <= i < index_of(s, c) ==> s[i] != c,
        index_of(s, c) < s.len() ==> s[index_of(s, c) as int] == c,
    decreases s.len(),
{
    if s.len() > 0 && s[0] != c {
        lemma_index_of(s.drop_first(), c);
        let n = index_of(s.drop_first(), c);
        assert forall|i: int| 0 <= i < 1 + n implies s[i] != c by {
            if i > 0 {
                assert(s[i] == s.drop_first()[i - 1]);
            }
        }
    }
}

/// A position that has the properties of the first occurrence is the first occurrence.
pub proof fn lemma_index_of_is(s: Seq<char>, c: char, n: nat)
    requires
        n <= s.len(),
        forall|i: int| 0 <= i < n ==> s[i] != c,
        n < s.len() ==> s[n as int] == c,
    ensures
        index_of(s, c) == n,
{
    lemma_index_of(s, c);
    let m = index_of(s, c);
    if m < n {
        assert(s[m as int] != c);
    }
}

/// The pieces of `s` between the occurrences of `sep`, always at least one.
pub open spec fn split(s: Seq<char>, sep: char) -> Seq<Seq<char>>
    decreases s.len(),
    via split_decreases
{
    let n = index_of(s, sep) as int;
    if n >= s.len() {
        seq![s]
    } else {
        seq![s.take(n)] + split(s.skip(n + 1), sep)
    }
}

#[via_fn]
proof fn split_decreases(s: Seq<char>, sep: char) {
    lemma_index_of(s, sep);
}

/// What stands before and after the first `sep`, where there is one.
pub open spec fn split_once(s: Seq<char>, sep: char) -> Option<(Seq<char>, Seq<char>)> {
    let n = index_of(s, sep) as int;
    if n < s.len() {
        Some((s.take(n), s.skip(n + 1)))
    } else {
        None
    }
}

/// `s` without the white space at its start.
pub open spec fn trim_start(s: Seq<char>) -> Seq<char>
    decreases s.len(),
{
    if s.len() > 0 && is_white_space(s[0]) {
        trim_start(s.drop_first())
    } else {
        s
    }
}

/// `s` without the white space at its end.
pub open spec fn trim_end(s: Seq<char>) -> Seq<char>
    decreases s.len(),
{
    if s.len() > 0 && is_white_space(s.last()) {
        trim_end(s.drop_last())
    } else {
        s
    }
}

/// `s` without the white space at its two ends.
pub open spec fn trim(s: Seq<char>) -> Seq<char> {
    trim_end(trim_start(s))
}

/// The lower case of an ASCII letter; any other character as it is.
pub open spec fn ascii_lower(c: char) -> char {
    if 'A' <= c <= 'Z' {
        (c as u8 + 32) as u8 as char
    } else {
        c
    }
}

/// `s` with its ASCII letters in lower case.
pub open spec fn to_ascii_lower(s: Seq<char>) -> Seq<char> {
    s.map_values(|c: char| ascii_lower(c))
}

/// Whether two texts differ at most in the case of ASCII letters.
pub open spec fn eq_ignore_case(a: Seq<char>, b: Seq<char>) -> bool {
    to_ascii_lower(a) == to_ascii_lower(b)
}

/// Whether `part` stands somewhere inside `s`.
pub open spec fn contains(s: Seq<char>, part: Seq<char>) -> bool {
    exists|i: int| #[trigger] occurs_at(s, part, i)
}

/// Whether `part` stands in `s` at position `i`.
pub open spec fn occurs_at(s: Seq<char>, part: Seq<char>, i: int) -> bool {
    &&& 0 <= i
    &&& i + part.len() <= s.len()
    &&& s.subrange(i, i + part.len()) == part
}

/// Whether `s` starts with `prefix`.
pub open spec fn starts_with(s: Seq<char>, prefix: Seq<char>) -> bool {
    occurs_at(s, prefix, 0)
}

/// The texts of `parts` with `sep` between any two of them.
pub open spec fn join(parts: Seq<Seq<char>>, sep: Seq<char>) -> Seq<char>
    decreases parts.len(),
{
    if parts.len() == 0 {
        Seq::empty()
    } else if parts.len() == 1 {
        parts[0]
    } else {
        join(parts.drop_last(), sep) + sep + parts.last()
    }
}

/// The texts behind a sequence of string slices.
pub open spec fn views(parts: Seq<&str>) -> Seq<Seq<char>> {
    parts.map_values(|p: &str| p@)
}

/// The texts behind a sequence of strings.
pub open spec fn string_views(parts: Seq<String>) -> Seq<Seq<char>> {
    parts.map_values(|p: String| p@)
}

/// Whether `a` comes before `b` in the order of their characters.
pub open spec fn before(a: Seq<char>, b: Seq<char>) -> bool
    decreases a.len(),
{
    if b.len() == 0 {
        false
    } else if a.len() == 0 {
        true
    } else if a[0] == b[0] {
        before(a.drop_first(), b.drop_first())
    } else {
        a[0] < b[0]
    }
}

/// The characters of a text.
pub fn chars_of(s: &str) -> (r: Vec<char>)
    ensures
        r@ == s@,
{
    let mut r: Vec<char> = Vec::new();
    for c in it: s.chars()
        invariant
            it.seq() == s@,
            r@ == s@.take(it.index() as int),
    {
        assert(s@.take(it.index() + 1) == s@.take(it.index() as int).push(c));
        r.push(c);
    }
    assert(s@.take(s@.len() as int) == s@);
    r
}

pub fn white_space(c: char) -> (r: bool)
    ensures
        r == is_white_space(c),
{
    let n: u32 = c as u32;
    (0x9 <= n && n <= 0xd) || n == 0x20 || n == 0x85 || n == 0xa0 || n == 0x1680 || (0x2000 <= n
        && n <= 0x200a) || n == 0x2028 || n == 0x2029 || n == 0x202f || n == 0x205f || n == 0x3000
}

/// Whether two texts are the same.
pub fn same(a: &str, b: &str) -> (r: bool)
    ensures
        r == (a@ == b@),
{
    let x = chars_of(a);
    let y = chars_of(b);
    if x.len() != y.len() {
        return false;
    }
    let mut i: usize = 0;
    while i < x.len()
        invariant
            i <= x@.len() == y@.len(),
            forall|k: int| 0 <= k < i ==> x@[k] == y@[k],
            x@ == a@,
            y@ == b@,
        decreases x@.len() - i,
    {
        if x[i] != y[i] {
            return false;
        }
        i += 1;
    }
    assert(a@ =~= b@);
    true
}

proof fn lemma_split_step(s: Seq<char>, sep: char, start: int, n: int)
    requires
        0 <= start <= n < s.len(),
        forall|i: int| start <= i < n ==> s[i] != sep,
        s[n] == sep,
    ensures
        split(s.skip(start), sep) == seq![s.subrange(start, n)] + split(s.skip(n + 1), sep),
{
    let t = s.skip(start);
    lemma_index_of_is(t, sep, (n - start) as nat);
    assert(t.take(n - start) == s.subrange(start, n));
    assert(t.skip(n - start + 1) == s.skip(n + 1));
}

/// Splits a text at every `sep`.
pub fn split_str<'a>(s: &'a str, sep: char) -> (r: Vec<&'a str>)
    ensures
        views(r@) == split(s@, sep),
        r@.len() > 0,
{
    let chars = chars_of(s);
    let mut r: Vec<&'a str> = Vec::new();
    let mut start: usize = 0;
    let mut i: usize = 0;
    proof {
        assert(s@.skip(0) == s@);
        assert(views(r@) + split(s@, sep) =~= split(s@, sep));
    }
    while i < chars.len()
        invariant
            chars@ == s@,
            start <= i <= chars@.len(),
            forall|k: int| start <= k < i ==> s@[k] != sep,
            views(r@) + split(s@.skip(start as int), sep) == split(s@, sep),
        decreases chars@.len() - i,
    {
        if chars[i] == sep {
            let piece = s.substring_char(start, i);
            proof {
                lemma_split_step(s@, sep, start as int, i as int);
                assert(views(r@.push(piece)) =~= views(r@).push(piece@));
                assert(views(r@) + (seq![piece@] + split(s@.skip(i + 1), sep)) =~= views(
                    r@.push(piece),
                ) + split(s@.skip(i + 1), sep));
            }
            r.push(piece);
            start = i + 1;
        }
        i += 1;
    }
    let piece = s.substring_char(start, chars.len());
    proof {
        let t = s@.skip(start as int);
        lemma_index_of_is(t, sep, t.len());
        assert(piece@ =~= t);
        assert(views(r@.push(piece)) =~= views(r@) + seq![t]);
    }
    r.push(piece);
    r
}

/// The position of the first `sep`, or the number of characters where there is none.
pub fn find_char(s: &str, sep: char) -> (r: usize)
    ensures
        r == index_of(s@, sep),
        r <= s@.len(),
        r < s@.len() ==> s@[r as int] == sep,
{
    let chars = chars_of(s);
    let mut i: usize = 0;
    while i < chars.len() && chars[i] != sep
        invariant
            chars@ == s@,
            i <= chars@.len(),
            forall|k: int| 0 <= k < i ==> s@[k] != sep,
        decreases chars@.len() - i,
    {
        i += 1;
    }
    proof {
        lemma_index_of_is(s@, sep, i as nat);
    }
    i
}

/// Splits a text at its first `sep`.
pub fn split_once_str<'a>(s: &'a str, sep: char) -> (r: Option<(&'a str, &'a str)>)
    ensures
        match r {
            Some(parts) => split_once(s@, sep) == Some((parts.0@, parts.1@)),
            None => split_once(s@, sep) is None,
        },
{
    let n: usize = find_char(s, sep);
    let len: usize = s.unicode_len();
    if n < len {
        let head = s.substring_char(0, n);
        let tail = s.substring_char(n + 1, len);
        assert(head@ =~= s@.take(n as int));
        assert(tail@ =~= s@.skip(n + 1));
        Some((head, tail))
    } else {
        None
    }
}

/// Removes the white space at the two ends of a text.
pub fn trim_str<'a>(s: &'a str) -> (r: &'a str)
    ensures
        r@ == trim(s@),
{
    let chars = chars_of(s);
    let mut from: usize = 0;
    assert(s@.skip(0) == s@);
    while from < chars.len() && white_space(chars[from])
        invariant
            chars@ == s@,
            from <= chars@.len(),
            trim_start(s@) == trim_start(s@.skip(from as int)),
        decreases chars@.len() - from,
    {
        assert(s@.skip(from as int).drop_first() == s@.skip(from + 1));
        from += 1;
    }
    assert(trim_start(s@) == s@.skip(from as int));
    let mut to: usize = chars.len();
    let ghost t = s@.skip(from as int);
    assert(t.take(t.len() as int) == t);
    while from < to && white_space(chars[to - 1])
        invariant
            chars@ == s@,
            from <= to <= chars@.len(),
            t == s@.skip(from as int),
            trim_end(t) == trim_end(t.take(to - from)),
        decreases to,
    {
        assert(t.take(to - from).drop_last() == t.take(to - from - 1));
        to -= 1;
    }
    let r = s.substring_char(from, to);
    assert(r@ =~= t.take(to - from));
    r
}

/// Whether a text starts with the given character, and what follows it.
pub fn strip_char<'a>(s: &'a str, c: char) -> (r: Option<&'a str>)
    ensures
        r is Some == (s@.len() > 0 && s@[0] == c),
        r is Some ==> r->0@ == s@.drop_first(),
{
    let len: usize = s.unicode_len();
    if len > 0 && s.get_char(0) == c {
        let rest = s.substring_char(1, len);
        assert(rest@ =~= s@.drop_first());
        Some(rest)
    } else {
        None
    }
}

pub fn lower_char(c: char) -> (r: char)
    ensures
        r == ascii_lower(c),
{
    if 'A' <= c && c <= 'Z' {
        (c as u8 + 32) as char
    } else {
        c
    }
}

/// Compares two texts without regard to the case of ASCII letters.
pub fn same_ignore_case(a: &str, b: &str) -> (r: bool)
    ensures
        r == eq_ignore_case(a@, b@),
{
    let x = chars_of(a);
    let y = chars_of(b);
    proof {
        assert(to_ascii_lower(a@).len() == a@.len());
        assert(to_ascii_lower(b@).len() == b@.len());
    }
    if x.len() != y.len() {
        return false;
    }
    let mut i: usize = 0;
    while i < x.len()
        invariant
            i <= x@.len() == y@.len(),
            forall|k: int| 0 <= k < i ==> ascii_lower(x@[k]) == ascii_lower(y@[k]),
            x@ == a@,
            y@ == b@,
        decreases x@.len() - i,
    {
        if lower_char(x[i]) != lower_char(y[i]) {
            assert(to_ascii_lower(a@)[i as int] != to_ascii_lower(b@)[i as int]);
            return false;
        }
        i += 1;
    }
    assert(to_ascii_lower(a@) =~= to_ascii_lower(b@));
    true
}

fn matches_at(s: &Vec<char>, part: &Vec<char>, at: usize) -> (r: bool)
    requires
        at + part@.len() <= s@.len(),
    ensures
        r == occurs_at(s@, part@, at as int),
{
    let len: usize = s.len();
    let mut i: usize = 0;
    while i < part.len()
        invariant
            i <= part@.len(),
            at + part@.len() <= s@.len() == len,
            forall|k: int| 0 <= k < i ==> s@[at + k] == part@[k],
        decreases part@.len() - i,
    {
        if s[at + i] != part[i] {
            assert(s@.subrange(at as int, at + part@.len())[i as int] != part@[i as int]);
            return false;
        }
        i += 1;
    }
    assert(s@.subrange(at as int, at + part@.len()) =~= part@);
    true
}

/// Whether a text starts with another.
pub fn starts_with_str(s: &str, prefix: &str) -> (r: bool)
    ensures
        r == starts_with(s@, prefix@),
{
    let x = chars_of(s);
    let y = chars_of(prefix);
    y.len() <= x.len() && matches_at(&x, &y, 0)
}

/// What follows a prefix, where the text has it.
pub fn strip_prefix_str<'a>(s: &'a str, prefix: &str) -> (r: Option<&'a str>)
    ensures
        r is Some == starts_with(s@, prefix@),
        r is Some ==> r->0@ == s@.skip(prefix@.len() as int),
{
    if starts_with_str(s, prefix) {
        let from: usize = prefix.unicode_len();
        let rest = s.substring_char(from, s.unicode_len());
        assert(rest@ =~= s@.skip(prefix@.len() as int));
        Some(rest)
    } else {
        None
    }
}

/// Whether a text holds another.
pub fn contains_str(s: &str, part: &str) -> (r: bool)
    ensures
        r == contains(s@, part@),
{
    let x = chars_of(s);
    let y = chars_of(part);
    if x.len() < y.len() {
        return false;
    }
    let last: usize = x.len() - y.len();
    let mut i: usize = 0;
    loop
        invariant
            x@ == s@,
            y@ == part@,
            last == x@.len() - y@.len(),
            i <= last,
            forall|k: int| 0 <= k < i ==> !occurs_at(s@, part@, k),
        decreases last - i,
    {
        if matches_at(&x, &y, i) {
            return true;
        }
        if i == last {
            return false;
        }
        i += 1;
    }
}

/// Joins texts with `sep` between any two of them.
pub fn join_strs(parts: &[&str], sep: &str) -> (r: String)
    ensures
        r@ == join(views(parts@), sep@),
{
    let mut r = String::new();
    let mut i: usize = 0;
    while i < parts.len()
        invariant
            i <= parts@.len(),
            r@ == join(views(parts@.take(i as int)), sep@),
        decreases parts@.len() - i,
    {
        let ghost done = views(parts@.take(i as int));
        let ghost next = views(parts@.take(i + 1));
        assert(next.drop_last() =~= done);
        assert(next.last() == parts@[i as int]@);
        if i > 0 {
            r.append(sep);
        }
        r.append(parts[i]);
        assert(r@ =~= join(next, sep@));
        i += 1;
    }
    assert(parts@.take(parts@.len() as int) == parts@);
    r
}

/// One text after another.
pub fn concat_strs(a: &str, b: &str) -> (r: String)
    ensures
        r@ == a@ + b@,
{
    let mut r = a.to_owned();
    r.append(b);
    r
}

/// Whether a text comes before another in the order of their characters.
pub fn comes_before(a: &str, b: &str) -> (r: bool)
    ensures
        r == before(a@, b@),
{
    let x = chars_of(a);
    let y = chars_of(b);
    let mut i: usize = 0;
    assert(a@.skip(0) == a@ && b@.skip(0) == b@);
    while i < x.len() && i < y.len()
        invariant
            x@ == a@,
            y@ == b@,
            i <= x@.len(),
            i <= y@.len(),
            before(a@, b@) == before(a@.skip(i as int), b@.skip(i as int)),
        decreases x@.len() - i,
    {
        if x[i] != y[i] {
            return x[i] < y[i];
        }
        assert(a@.skip(i as int).drop_first() == a@.skip(i + 1));
        assert(b@.skip(i as int).drop_first() == b@.skip(i + 1));
        i += 1;
    }
    i < y.len()
}

pub proof fn lemma_before_irreflexive(a: Seq<char>)
    ensures
        !before(a, a),
    decreases a.len(),
{
    if a.len() > 0 {
        lemma_before_irreflexive(a.drop_first());
    }
}

pub proof fn lemma_before_transitive(a: Seq<char>, b: Seq<char>, c: Seq<char>)
    requires
        before(a, b),
        before(b, c),
    ensures
        before(a, c),
    decreases a.len(),
{
    if a.len() > 0 && a[0] == b[0] && b[0] == c[0] {
        lemma_before_transitive(a.drop_first(), b.drop_first(), c.drop_first());
    }
}

/// Of two texts that are not the same, one comes before the other.
pub proof fn lemma_before_total(a: Seq<char>, b: Seq<char>)
    ensures
        a == b || before(a, b) || before(b, a),
    decreases a.len(),
{
    if a.len() > 0 && b.len() > 0 && a[0] == b[0] {
        lemma_before_total(a.drop_first(), b.drop_first());
        if a.drop_first() == b.drop_first() {
            assert(a =~= seq![a[0]] + a.drop_first());
            assert(b =~= seq![b[0]] + b.drop_first());
        }
    } else if a.len() == 0 && b.len() == 0 {
        assert(a =~= b);
    }
}

/// Whether the case of letters does not touch a character.
pub open spec fn is_caseless(c: char) -> bool {
    !('a' <= c <= 'z') && !('A' <= c <= 'Z')
}

pub proof fn lemma_lower_char(c: char)
    ensures
        ascii_lower(ascii_lower(c)) == ascii_lower(c),
        is_caseless(c) ==> ascii_lower(c) == c,
        forall|d: char| is_caseless(d) ==> (#[trigger] ascii_lower(c) == d) == (c == d),
        is_white_space(ascii_lower(c)) == is_white_space(c),
{
}

pub proof fn lemma_lower_index(s: Seq<char>, c: char)
    requires
        is_caseless(c),
    ensures
        index_of(to_ascii_lower(s), c) == index_of(s, c),
{
    lemma_index_of(s, c);
    let n = index_of(s, c);
    let t = to_ascii_lower(s);
    assert forall|i: int| 0 <= i < n implies t[i] != c by {
        lemma_lower_char(s[i]);
    }
    if n < s.len() {
        lemma_lower_char(s[n as int]);
    }
    lemma_index_of_is(t, c, n);
}

pub open spec fn lower_all(parts: Seq<Seq<char>>) -> Seq<Seq<char>> {
    parts.map_values(|p: Seq<char>| to_ascii_lower(p))
}

pub proof fn lemma_lower_split(s: Seq<char>, sep: char)
    requires
        is_caseless(sep),
    ensures
        split(to_ascii_lower(s), sep) == lower_all(split(s, sep)),
    decreases s.len(),
{
    lemma_index_of(s, sep);
    lemma_lower_index(s, sep);
    let n = index_of(s, sep) as int;
    let t = to_ascii_lower(s);
    if n < s.len() {
        lemma_lower_split(s.skip(n + 1), sep);
        assert(t.take(n) =~= to_ascii_lower(s.take(n)));
        assert(t.skip(n + 1) =~= to_ascii_lower(s.skip(n + 1)));
        assert(lower_all(seq![s.take(n)] + split(s.skip(n + 1), sep)) =~= seq![
            to_ascii_lower(s.take(n)),
        ] + lower_all(split(s.skip(n + 1), sep)));
    } else {
        assert(lower_all(seq![s]) =~= seq![t]);
    }
}

pub proof fn lemma_lower_split_once(s: Seq<char>, sep: char)
    requires
        is_caseless(sep),
    ensures
        split_once(to_ascii_lower(s), sep) == (match split_once(s, sep) {
            Some(parts) => Some((to_ascii_lower(parts.0), to_ascii_lower(parts.1))),
            None => None,
        }),
{
    lemma_index_of(s, sep);
    lemma_lower_index(s, sep);
    let n = index_of(s, sep) as int;
    if n < s.len() {
        assert(to_ascii_lower(s).take(n) =~= to_ascii_lower(s.take(n)));
        assert(to_ascii_lower(s).skip(n + 1) =~= to_ascii_lower(s.skip(n + 1)));
    }
}

proof fn lemma_lower_trim_start(s: Seq<char>)
    ensures
        trim_start(to_ascii_lower(s)) == to_ascii_lower(trim_start(s)),
    decreases s.len(),
{
    if s.len() > 0 {
        lemma_lower_char(s[0]);
        if is_white_space(s[0]) {
            lemma_lower_trim_start(s.drop_first());
            assert(to_ascii_lower(s).drop_first() =~= to_ascii_lower(s.drop_first()));
        }
    }
}

proof fn lemma_lower_trim_end(s: Seq<char>)
    ensures
        trim_end(to_ascii_lower(s)) == to_ascii_lower(trim_end(s)),
    decreases s.len(),
{
    if s.len() > 0 {
        lemma_lower_char(s.last());
        if is_white_space(s.last()) {
            lemma_lower_trim_end(s.drop_last());
            assert(to_ascii_lower(s).drop_last() =~= to_ascii_lower(s.drop_last()));
        }
    }
}

pub proof fn lemma_lower_trim(s: Seq<char>)
    ensures
        trim(to_ascii_lower(s)) == to_ascii_lower(trim(s)),
{
    lemma_lower_trim_start(s);
    lemma_lower_trim_end(trim_start(s));
}

pub proof fn lemma_lower_twice(s: Seq<char>)
    ensures
        to_ascii_lower(to_ascii_lower(s)) == to_ascii_lower(s),
{
    assert forall|i: int| 0 <= i < s.len() implies to_ascii_lower(to_ascii_lower(s))[i]
        == to_ascii_lower(s)[i] by {
        lemma_lower_char(s[i]);
    }
    assert(to_ascii_lower(to_ascii_lower(s)) =~= to_ascii_lower(s));
}

/// Splitting two texts with a separator between them gives the pieces of both.
pub proof fn lemma_split_concat(a: Seq<char>, b: Seq<char>, sep: char)
    ensures
        split(a + seq![sep] + b, sep) == split(a, sep) + split(b, sep),
    decreases a.len(),
{
    let s = a + seq![sep] + b;
    lemma_index_of(a, sep);
    let n = index_of(a, sep) as int;
    lemma_index_of_is(s, sep, n as nat);
    if n < a.len() {
        let rest = a.skip(n + 1);
        lemma_split_concat(rest, b, sep);
        assert(s.take(n) =~= a.take(n));
        assert(s.skip(n + 1) =~= rest + seq![sep] + b);
        assert(seq![a.take(n)] + (split(rest, sep) + split(b, sep)) =~= (seq![a.take(n)] + split(
            rest,
            sep,
        )) + split(b, sep));
    } else {
        assert(s.take(n) =~= a);
        assert(s.skip(n + 1) =~= b);
    }
}

/// A text without the separator is its own only piece.
pub proof fn lemma_split_whole(s: Seq<char>, sep: char)
    requires
        forall|i: int| 0 <= i < s.len() ==> s[i] != sep,
    ensures
        split(s, sep) == seq![s],
{
    lemma_index_of_is(s, sep, s.len());
}

/// A piece has no separator in it, and no character that the whole does not have.
pub proof fn lemma_split_piece(s: Seq<char>, sep: char, i: int)
    requires
        0 <= i < split(s, sep).len(),
    ensures
        !split(s, sep)[i].contains(sep),
        forall|c: char| #[trigger] split(s, sep)[i].contains(c) ==> s.contains(c),
    decreases s.len(),
{
    lemma_index_of(s, sep);
    let n = index_of(s, sep) as int;
    let part = split(s, sep)[i];
    if n < s.len() {
        let rest = s.skip(n + 1);
        if i == 0 {
            assert(part == s.take(n));
            assert forall|c: char| #[trigger] part.contains(c) implies s.contains(c) by {
                let k = choose|k: int| 0 <= k < part.len() && part[k] == c;
                assert(s[k] == c);
            }
        } else {
            lemma_split_piece(rest, sep, i - 1);
            assert(part == split(rest, sep)[i - 1]);
            assert forall|c: char| #[trigger] part.contains(c) implies s.contains(c) by {
                let k = choose|k: int| 0 <= k < rest.len() && rest[k] == c;
                assert(s[k + n + 1] == c);
            }
        }
    }
}

/// Trimming leaves a part of the text, and leaves that part as it is when it is done again.
pub proof fn lemma_trim_part(s: Seq<char>)
    ensures
        forall|c: char| #[trigger] trim(s).contains(c) ==> s.contains(c),
        trim(trim(s)) == trim(s),
{
    lemma_trim_start_nothing(s);
    let t = trim_start(s);
    let n = lemma_trim_start_skips(s);
    let m = lemma_trim_end_takes(t);
    let r = trim(s);
    if r.len() > 0 {
        assert(r[0] == t[0]);
    }
    assert forall|c: char| #[trigger] r.contains(c) implies s.contains(c) by {
        let k = choose|k: int| 0 <= k < r.len() && r[k] == c;
        assert(s[k + n] == c);
    }
}

proof fn lemma_trim_start_skips(s: Seq<char>) -> (n: int)
    ensures
        0 <= n <= s.len(),
        trim_start(s) == s.skip(n),
    decreases s.len(),
{
    if s.len() > 0 && is_white_space(s[0]) {
        let n = lemma_trim_start_skips(s.drop_first());
        assert(s.drop_first().skip(n) =~= s.skip(n + 1));
        n + 1
    } else {
        assert(s.skip(0) =~= s);
        0
    }
}

proof fn lemma_trim_end_takes(s: Seq<char>) -> (m: int)
    ensures
        0 <= m <= s.len(),
        trim_end(s) == s.take(m),
        m > 0 ==> !is_white_space(s[m - 1]),
    decreases s.len(),
{
    if s.len() > 0 && is_white_space(s.last()) {
        let m = lemma_trim_end_takes(s.drop_last());
        assert(s.drop_last().take(m) =~= s.take(m));
        m
    } else {
        assert(s.take(s.len() as int) =~= s);
        s.len() as int
    }
}

/// What `trim` leaves nothing of is white space throughout.
pub proof fn lemma_trim_nothing(s: Seq<char>)
    ensures
        trim(s).len() == 0 <==> is_blank(s),
{
    lemma_trim_start_nothing(s);
    lemma_trim_end_nothing(trim_start(s));
}

proof fn lemma_trim_start_nothing(s: Seq<char>)
    ensures
        trim_start(s).len() == 0 <==> forall|i: int|
            0 <= i < s.len() ==> is_white_space(#[trigger] s[i]),
        trim_start(s).len() > 0 ==> !is_white_space(trim_start(s)[0]),
    decreases s.len(),
{
    if s.len() > 0 && is_white_space(s[0]) {
        let t = s.drop_first();
        lemma_trim_start_nothing(t);
        if trim_start(t).len() == 0 {
            assert forall|i: int| 0 <= i < s.len() implies is_white_space(#[trigger] s[i]) by {
                if i > 0 {
                    assert(is_white_space(t[i - 1]));
                }
            }
        } else {
            let i = choose|i: int| 0 <= i < t.len() && !is_white_space(#[trigger] t[i]);
            assert(!is_white_space(s[i + 1]));
        }
    } else if s.len() > 0 {
        assert(!is_white_space(s[0]));
    }
}

proof fn lemma_trim_end_nothing(s: Seq<char>)
    requires
        s.len() > 0 ==> !is_white_space(s[0]),
    ensures
        trim_end(s).len() == 0 <==> s.len() == 0,
    decreases s.len(),
{
    if s.len() > 0 && is_white_space(s.last()) {
        assert(s.len() > 1);
        lemma_trim_end_nothing(s.drop_last());
    }
}

/// `s` without the occurrences of `c` at its start.
pub open spec fn trim_start_char(s: Seq<char>, c: char) -> Seq<char>
    decreases s.len(),
{
    if s.len() > 0 && s[0] == c {
        trim_start_char(s.drop_first(), c)
    } else {
        s
    }
}

/// `s` without the occurrences of `c` at its end.
pub open spec fn trim_end_char(s: Seq<char>, c: char) -> Seq<char>
    decreases s.len(),
{
    if s.len() > 0 && s.last() == c {
        trim_end_char(s.drop_last(), c)
    } else {
        s
    }
}

/// Removes the occurrences of a character at the two ends of a text.
pub fn trim_char<'a>(s: &'a str, c: char) -> (r: &'a str)
    ensures
        r@ == trim_end_char(trim_start_char(s@, c), c),
{
    let chars = chars_of(s);
    let mut from: usize = 0;
    assert(s@.skip(0) == s@);
    while from < chars.len() && chars[from] == c
        invariant
            chars@ == s@,
            from <= chars@.len(),
            trim_start_char(s@, c) == trim_start_char(s@.skip(from as int), c),
        decreases chars@.len() - from,
    {
        assert(s@.skip(from as int).drop_first() == s@.skip(from + 1));
        from += 1;
    }
    assert(trim_start_char(s@, c) == s@.skip(from as int));
    let mut to: usize = chars.len();
    let ghost t = s@.skip(from as int);
    assert(t.take(t.len() as int) == t);
    while from < to && chars[to - 1] == c
        invariant
            chars@ == s@,
            from <= to <= chars@.len(),
            t == s@.skip(from as int),
            trim_end_char(t, c) == trim_end_char(t.take(to - from), c),
        decreases to,
    {
        assert(t.take(to - from).drop_last() == t.take(to - from - 1));
        to -= 1;
    }
    let r = s.substring_char(from, to);
    assert(r@ =~= t.take(to - from));
    r
}

/// `s` without the occurrences of `prefix` at its start, one after the other.
pub open spec fn strip_all(s: Seq<char>, prefix: Seq<char>) -> Seq<char>
    decreases s.len(),
{
    if prefix.len() > 0 && starts_with(s, prefix) {
        strip_all(s.skip(prefix.len() as int), prefix)
    } else {
        s
    }
}

/// Removes the occurrences of a prefix at the start of a text.
pub fn strip_all_str<'a>(s: &'a str, prefix: &str) -> (r: &'a str)
    ensures
        r@ == strip_all(s@, prefix@),
    decreases s@.len(),
{
    if prefix.is_empty() {
        return s;
    }
    match strip_prefix_str(s, prefix) {
        Some(rest) => strip_all_str(rest, prefix),
        None => s,
    }
}

/// Whether a text is white space throughout.
pub open spec fn is_blank(s: Seq<char>) -> bool {
    forall|i: int| 0 <= i < s.len() ==> is_white_space(#[trigger] s[i])
}

proof fn lemma_trim_start_blank(w: Seq<char>, s: Seq<char>)
    requires
        is_blank(w),
    ensures
        trim_start(w + s) == trim_start(s),
    decreases w.len(),
{
    if w.len() > 0 {
        assert(is_white_space(w[0]));
        let rest = w.drop_first();
        assert forall|i: int| 0 <= i < rest.len() implies is_white_space(#[trigger] rest[i]) by {
            assert(is_white_space(w[i + 1]));
        }
        lemma_trim_start_blank(rest, s);
        assert((w + s).drop_first() =~= rest + s);
    } else {
        assert(w + s =~= s);
    }
}

proof fn lemma_trim_end_blank(s: Seq<char>, v: Seq<char>)
    requires
        is_blank(v),
    ensures
        trim_end(s + v) == trim_end(s),
    decreases v.len(),
{
    if v.len() > 0 {
        assert(is_white_space(v[v.len() - 1]));
        let rest = v.drop_last();
        assert forall|i: int| 0 <= i < rest.len() implies is_white_space(#[trigger] rest[i]) by {
            assert(is_white_space(v[i]));
        }
        lemma_trim_end_blank(s, rest);
        assert((s + v).drop_last() =~= s + rest);
    } else {
        assert(s + v =~= s);
    }
}

proof fn lemma_trim_start_append(s: Seq<char>, v: Seq<char>)
    ensures
        trim_start(s).len() > 0 ==> trim_start(s + v) == trim_start(s) + v,
        trim_start(s).len() == 0 ==> trim_start(s + v) == trim_start(v),
    decreases s.len(),
{
    if s.len() == 0 {
        assert(s + v =~= v);
    } else if is_white_space(s[0]) {
        lemma_trim_start_append(s.drop_first(), v);
        assert((s + v).drop_first() =~= s.drop_first() + v);
    }
}

/// White space around a text does not matter to `trim`.
pub proof fn lemma_trim_blank(w: Seq<char>, s: Seq<char>, v: Seq<char>)
    requires
        is_blank(w),
        is_blank(v),
    ensures
        trim(w + s + v) == trim(s),
{
    assert(w + s + v =~= w + (s + v));
    lemma_trim_start_blank(w, s + v);
    lemma_trim_start_append(s, v);
    if trim_start(s).len() > 0 {
        lemma_trim_end_blank(trim_start(s), v);
    } else {
        lemma_trim_start_blank(v, Seq::empty());
        assert(v + Seq::<char>::empty() =~= v);
        assert(trim_start(s) =~= Seq::empty());
    }
}

/// What is put before a text goes to its first piece.
pub proof fn lemma_split_prefix(w: Seq<char>, s: Seq<char>, sep: char)
    requires
        forall|i: int| 0 <= i < w.len() ==> w[i] != sep,
    ensures
        split(w + s, sep) == split(s, sep).update(0, w + split(s, sep)[0]),
{
    lemma_index_of(s, sep);
    let n = index_of(s, sep) as int;
    let t = w + s;
    lemma_index_of_is(t, sep, (w.len() + n) as nat);
    if n < s.len() {
        assert(t.take(w.len() + n) =~= w + s.take(n));
        assert(t.skip(w.len() + n + 1) =~= s.skip(n + 1));
        let rest = split(s.skip(n + 1), sep);
        assert(seq![w + s.take(n)] + rest =~= (seq![s.take(n)] + rest).update(0, w + s.take(n)));
    } else {
        assert(seq![t] =~= seq![s].update(0, w + s));
    }
}

/// What is put after a text goes to its last piece.
pub proof fn lemma_split_suffix(s: Seq<char>, v: Seq<char>, sep: char)
    requires
        forall|i: int| 0 <= i < v.len() ==> v[i] != sep,
    ensures
        split(s, sep).len() > 0,
        split(s + v, sep) == split(s, sep).update(
            split(s, sep).len() - 1,
            split(s, sep).last() + v,
        ),
    decreases s.len(),
{
    lemma_index_of(s, sep);
    let n = index_of(s, sep) as int;
    let t = s + v;
    if n < s.len() {
        lemma_index_of_is(t, sep, n as nat);
        let tail = s.skip(n + 1);
        lemma_split_suffix(tail, v, sep);
        assert(t.take(n) =~= s.take(n));
        assert(t.skip(n + 1) =~= tail + v);
        let rest = split(tail, sep);
        let whole = seq![s.take(n)] + rest;
        assert(whole.last() == rest.last());
        assert(seq![s.take(n)] + rest.update(rest.len() - 1, rest.last() + v) =~= whole.update(
            whole.len() - 1,
            rest.last() + v,
        ));
    } else {
        lemma_index_of_is(t, sep, t.len());
        assert(seq![t] =~= seq![s].update(0, s + v));
    }
}

/// What stands before the first separator is the first piece, and the rest is split in the same
/// way; a text without the separator is its own only piece.
pub proof fn law_split_cuts_at_every_separator(first: Seq<char>, rest: Seq<char>, sep: char)
    requires
        !first.contains(sep),
    ensures
        split(first, sep) == seq![first],
        split(first + seq![sep] + rest, sep) == seq![first] + split(rest, sep),
{
    assert forall|i: int| 0 <= i < first.len() implies first[i] != sep by {
        assert(first.contains(first[i]));
    }
    lemma_split_whole(first, sep);
    lemma_split_concat(first, rest, sep);
}

/// A text is cut at the first separator and nowhere else, whatever follows it.
pub proof fn law_split_once_cuts_at_the_first_separator(
    first: Seq<char>,
    rest: Seq<char>,
    sep: char,
)
    requires
        !first.contains(sep),
    ensures
        split_once(first, sep) is None,
        split_once(first + seq![sep] + rest, sep) == Some((first, rest)),
{
    assert forall|i: int| 0 <= i < first.len() implies first[i] != sep by {
        assert(first.contains(first[i]));
    }
    let s = first + seq![sep] + rest;
    lemma_index_of_is(first, sep, first.len());
    lemma_index_of_is(s, sep, first.len());
    assert(s.take(first.len() as int) =~= first);
    assert(s.skip(first.len() as int + 1) =~= rest);
}

/// Trimming takes away all white space at the two ends and nothing else.
pub proof fn law_trim_takes_the_white_space_around(w: Seq<char>, s: Seq<char>, v: Seq<char>)
    requires
        forall|i: int| 0 <= i < w.len() ==> is_white_space(#[trigger] w[i]),
        forall|i: int| 0 <= i < v.len() ==> is_white_space(#[trigger] v[i]),
        s.len() > 0 ==> !is_white_space(s[0]) && !is_white_space(s[s.len() - 1]),
    ensures
        trim(w + s + v) == s,
{
    lemma_trim_blank(w, s, v);
}

/// Spaces, tabs and line breaks are white space; visible ASCII characters are not.
pub proof fn law_white_space_is_invisible(c: char)
    ensures
        c == ' ' || c == '\t' || c == '\n' || c == '\r' ==> is_white_space(c),
        '!' <= c <= '~' ==> !is_white_space(c),
{
}

/// Two texts are equal but for case exactly if they have the same length and, at every place, the
/// same character or the same ASCII letter.
pub proof fn law_case_is_all_that_is_ignored(a: Seq<char>, b: Seq<char>)
    ensures
        eq_ignore_case(a, b) <==> a.len() == b.len() && forall|i: int|
            0 <= i < a.len() ==> {
                ||| #[trigger] a[i] == b[i]
                ||| 'A' <= a[i] <= 'Z' && b[i] as u32 == a[i] as u32 + 32
                ||| 'A' <= b[i] <= 'Z' && a[i] as u32 == b[i] as u32 + 32
            },
{
    let x = to_ascii_lower(a);
    let y = to_ascii_lower(b);
    if x == y {
        assert(a.len() == x.len() && b.len() == y.len());
        assert forall|i: int| 0 <= i < a.len() implies {
            ||| #[trigger] a[i] == b[i]
            ||| 'A' <= a[i] <= 'Z' && b[i] as u32 == a[i] as u32 + 32
            ||| 'A' <= b[i] <= 'Z' && a[i] as u32 == b[i] as u32 + 32
        } by {
            assert(x[i] == ascii_lower(a[i]) && y[i] == ascii_lower(b[i]));
        }
    }
    if a.len() == b.len() && forall|i: int|
        0 <= i < a.len() ==> {
            ||| #[trigger] a[i] == b[i]
            ||| 'A' <= a[i] <= 'Z' && b[i] as u32 == a[i] as u32 + 32
            ||| 'A' <= b[i] <= 'Z' && a[i] as u32 == b[i] as u32 + 32
        } {
        assert forall|i: int| 0 <= i < x.len() implies x[i] == y[i] by {
            assert(x[i] == ascii_lower(a[i]) && y[i] == ascii_lower(b[i]));
            assert(a[i] == a[i]);
        }
        assert(x =~= y);
    }
}

/// A text starts with a prefix exactly if it is the prefix with something after it.
pub proof fn law_prefix_comes_first(s: Seq<char>, prefix: Seq<char>, rest: Seq<char>)
    ensures
        starts_with(prefix + rest, prefix),
        starts_with(s, prefix) ==> s == prefix + s.skip(prefix.len() as int),
{
    assert((prefix + rest).subrange(0, prefix.len() as int) =~= prefix);
    if starts_with(s, prefix) {
        assert(s =~= s.subrange(0, prefix.len() as int) + s.skip(prefix.len() as int));
    }
}

/// A text contains a part exactly if it is the part with something before and after it.
pub proof fn law_part_stands_somewhere(
    s: Seq<char>,
    a: Seq<char>,
    part: Seq<char>,
    b: Seq<char>,
)
    ensures
        contains(a + part + b, part),
        contains(s, part) ==> exists|x: Seq<char>, y: Seq<char>|
            #![trigger x + part + y]
            s == x + part + y,
{
    let whole = a + part + b;
    assert(whole.subrange(a.len() as int, a.len() as int + part.len()) =~= part);
    assert(occurs_at(whole, part, a.len() as int));
    if contains(s, part) {
        let i = choose|i: int| #[trigger] occurs_at(s, part, i);
        let x = s.take(i);
        let y = s.skip(i + part.len());
        assert(s =~= x + part + y);
    }
}

/// Joining puts the separator between any two neighbours and nowhere else.
pub proof fn law_join_puts_separators_between(
    parts: Seq<Seq<char>>,
    last: Seq<char>,
    sep: Seq<char>,
)
    ensures
        join(seq![last], sep) == last,
        parts.len() > 0 ==> join(parts.push(last), sep) == join(parts, sep) + sep + last,
{
    assert(parts.push(last).drop_last() =~= parts);
}

/// A text that is joined from pieces without the separator is split into the same pieces.
pub proof fn law_split_undoes_join(parts: Seq<Seq<char>>, sep: char)
    requires
        parts.len() > 0,
        forall|i: int| 0 <= i < parts.len() ==> !(#[trigger] parts[i]).contains(sep),
    ensures
        split(join(parts, seq![sep]), sep) == parts,
    decreases parts.len(),
{
    let last = parts.last();
    assert(!parts[parts.len() - 1].contains(sep));
    assert forall|i: int| 0 <= i < last.len() implies last[i] != sep by {
        assert(last.contains(last[i]));
    }
    lemma_split_whole(last, sep);
    if parts.len() == 1 {
        assert(seq![last] =~= parts);
    } else {
        let others = parts.drop_last();
        assert forall|i: int| 0 <= i < others.len() implies !(#[trigger] others[i]).contains(
            sep,
        ) by {
            assert(others[i] == parts[i]);
        }
        law_split_undoes_join(others, sep);
        lemma_split_concat(join(others, seq![sep]), last, sep);
        assert(others + seq![last] =~= parts);
    }
}

/// `n` times a prefix.
pub open spec fn repeated(prefix: Seq<char>, n: nat) -> Seq<char>
    decreases n,
{
    if n == 0 {
        Seq::empty()
    } else {
        prefix + repeated(prefix, (n - 1) as nat)
    }
}

/// A prefix is stripped as often as it stands at the start, and then no more.
pub proof fn law_prefix_is_stripped_repeatedly(prefix: Seq<char>, n: nat, rest: Seq<char>)
    requires
        prefix.len() > 0,
        !starts_with(rest, prefix),
    ensures
        strip_all(repeated(prefix, n) + rest, prefix) == rest,
    decreases n,
{
    let s = repeated(prefix, n) + rest;
    if n == 0 {
        assert(s =~= rest);
    } else {
        let less = repeated(prefix, (n - 1) as nat) + rest;
        assert(s =~= prefix + less);
        law_prefix_comes_first(s, prefix, less);
        assert(s.skip(prefix.len() as int) =~= less);
        law_prefix_is_stripped_repeatedly(prefix, (n - 1) as nat, rest);
    }
}

/// The first place at which two texts differ decides which one comes first; a text comes before
/// every longer one that starts with it.
pub proof fn law_first_difference_decides(
    p: Seq<char>,
    x: char,
    a: Seq<char>,
    y: char,
    b: Seq<char>,
)
    requires
        x != y,
    ensures
        before(p + seq![x] + a, p + seq![y] + b) == (x < y),
        before(p, p + seq![x] + a),
        !before(p + seq![x] + a, p),
    decreases p.len(),
{
    let s = p + seq![x] + a;
    let t = p + seq![y] + b;
    assert(s[0] == (if p.len() == 0 { x } else { p[0] }));
    assert(t[0] == (if p.len() == 0 { y } else { p[0] }));
    if p.len() > 0 {
        let q = p.drop_first();
        law_first_difference_decides(q, x, a, y, b);
        assert(s.drop_first() =~= q + seq![x] + a);
        assert(t.drop_first() =~= q + seq![y] + b);
    }
}

proof fn lemma_trim_start_repeated(c: char, n: nat, s: Seq<char>)
    requires
        s.len() == 0 || s[0] != c,
    ensures
        trim_start_char(repeated(seq![c], n) + s, c) == s,
    decreases n,
{
    let t = repeated(seq![c], n) + s;
    if n == 0 {
        assert(t =~= s);
    } else {
        assert(t.drop_first() =~= repeated(seq![c], (n - 1) as nat) + s);
        assert(t[0] == c);
        lemma_trim_start_repeated(c, (n - 1) as nat, s);
    }
}

proof fn lemma_repeated_last(c: char, n: nat)
    requires
        n > 0,
    ensures
        repeated(seq![c], n) == repeated(seq![c], (n - 1) as nat).push(c),
    decreases n,
{
    let less = repeated(seq![c], (n - 1) as nat);
    if n > 1 {
        lemma_repeated_last(c, (n - 1) as nat);
        let few = repeated(seq![c], (n - 2) as nat);
        assert(seq![c] + few.push(c) =~= (seq![c] + few).push(c));
    } else {
        assert(seq![c] + less =~= less.push(c));
    }
}

proof fn lemma_trim_end_repeated(c: char, n: nat, s: Seq<char>)
    requires
        s.len() == 0 || s.last() != c,
    ensures
        trim_end_char(s + repeated(seq![c], n), c) == s,
    decreases n,
{
    let t = s + repeated(seq![c], n);
    if n == 0 {
        assert(t =~= s);
    } else {
        lemma_repeated_last(c, n);
        assert(t.drop_last() =~= s + repeated(seq![c], (n - 1) as nat));
        assert(t.last() == c);
        lemma_trim_end_repeated(c, (n - 1) as nat, s);
    }
}

/// A character is taken away at both ends, as often as it stands there, and nowhere else.
pub proof fn law_character_is_trimmed_at_both_ends(m: nat, s: Seq<char>, n: nat, c: char)
    requires
        s.len() > 0,
        s[0] != c,
        s.last() != c,
    ensures
        trim_end_char(
            trim_start_char(repeated(seq![c], m) + s + repeated(seq![c], n), c),
            c,
        ) == s,
{
    let v = repeated(seq![c], n);
    let u = repeated(seq![c], m);
    assert(u + s + v =~= u + (s + v));
    assert((s + v)[0] == s[0]);
    lemma_trim_start_repeated(c, m, s + v);
    lemma_trim_end_repeated(c, n, s);
}

/// Where two texts are put together, the last piece of the one and the first of the other become one
/// piece.
pub proof fn lemma_split_glue(a: Seq<char>, b: Seq<char>, sep: char)
    ensures
        split(a, sep).len() > 0,
        split(b, sep).len() > 0,
        split(a + b, sep) == split(a, sep).drop_last() + seq![
            split(a, sep).last() + split(b, sep)[0],
        ] + split(b, sep).drop_first(),
    decreases a.len(),
{
    lemma_index_of(a, sep);
    lemma_index_of(b, sep);
    let n = index_of(a, sep) as int;
    let whole = a + b;
    if n < a.len() {
        let rest = a.skip(n + 1);
        lemma_split_glue(rest, b, sep);
        lemma_index_of_is(whole, sep, n as nat);
        assert(whole.take(n) =~= a.take(n));
        assert(whole.skip(n + 1) =~= rest + b);
        let first = seq![a.take(n)];
        let more = split(rest, sep);
        assert((first + more).drop_last() =~= first + more.drop_last());
        assert((first + more).last() == more.last());
        let tail = seq![more.last() + split(b, sep)[0]] + split(b, sep).drop_first();
        assert(more.drop_last() + seq![more.last() + split(b, sep)[0]] + split(b, sep).drop_first()
            =~= more.drop_last() + tail);
        assert(first + (more.drop_last() + tail) =~= (first + more.drop_last()) + seq![
            more.last() + split(b, sep)[0],
        ] + split(b, sep).drop_first());
    } else {
        lemma_split_prefix(a, b, sep);
        let parts = split(b, sep);
        assert(seq![a].drop_last() =~= Seq::empty());
        assert(parts.update(0, a + parts[0]) =~= Seq::<Seq<char>>::empty() + seq![a + parts[0]]
            + parts.drop_first());
    }
}

proof fn lemma_trim_start_cuts(s: Seq<char>) -> (w: Seq<char>)
    ensures
        is_blank(w),
        s == w + trim_start(s),
    decreases s.len(),
{
    if s.len() > 0 && is_white_space(s[0]) {
        let w = lemma_trim_start_cuts(s.drop_first());
        let r = seq![s[0]] + w;
        assert forall|i: int| 0 <= i < r.len() implies is_white_space(#[trigger] r[i]) by {
            if i > 0 {
                assert(is_white_space(w[i - 1]));
            }
        }
        assert(s =~= seq![s[0]] + s.drop_first());
        assert(s =~= r + trim_start(s));
        r
    } else {
        assert(s =~= Seq::<char>::empty() + s);
        Seq::empty()
    }
}

proof fn lemma_trim_end_cuts(s: Seq<char>) -> (v: Seq<char>)
    ensures
        is_blank(v),
        s == trim_end(s) + v,
    decreases s.len(),
{
    if s.len() > 0 && is_white_space(s.last()) {
        let v = lemma_trim_end_cuts(s.drop_last());
        let r = v.push(s.last());
        assert forall|i: int| 0 <= i < r.len() implies is_white_space(#[trigger] r[i]) by {
            if i < v.len() {
                assert(is_white_space(v[i]));
            }
        }
        assert(s =~= s.drop_last().push(s.last()));
        assert(s =~= trim_end(s) + r);
        r
    } else {
        assert(s =~= s + Seq::<char>::empty());
        Seq::empty()
    }
}

/// What trimming takes away: the white space before and after the rest.
pub proof fn lemma_trim_cuts(s: Seq<char>) -> (r: (Seq<char>, Seq<char>))
    ensures
        is_blank(r.0),
        is_blank(r.1),
        s == r.0 + trim(s) + r.1,
        trim(s).len() > 0 ==> !is_white_space(trim(s)[0]) && !is_white_space(trim(s).last()),
{
    let w = lemma_trim_start_cuts(s);
    let v = lemma_trim_end_cuts(trim_start(s));
    assert(s =~= w + trim(s) + v);
    lemma_trim_start_nothing(s);
    let m = lemma_trim_end_takes(trim_start(s));
    (w, v)
}

/// White space is exactly what Unicode counts as such: the line breaks and tabs, the spaces of ASCII
/// and of Latin-1, and the wider and narrower ones of other scripts.
pub proof fn law_white_space_goes_by_unicode(c: char)
    ensures
        is_white_space(c) <==> seq![
            0x9u32,
            0xau32,
            0xbu32,
            0xcu32,
            0xdu32,
            0x20u32,
            0x85u32,
            0xa0u32,
            0x1680u32,
            0x2000u32,
            0x2001u32,
            0x2002u32,
            0x2003u32,
            0x2004u32,
            0x2005u32,
            0x2006u32,
            0x2007u32,
            0x2008u32,
            0x2009u32,
            0x200au32,
            0x2028u32,
            0x2029u32,
            0x202fu32,
            0x205fu32,
            0x3000u32,
        ].contains(c as u32),
{
    let all = seq![
        0x9u32,
        0xau32,
        0xbu32,
        0xcu32,
        0xdu32,
        0x20u32,
        0x85u32,
        0xa0u32,
        0x1680u32,
        0x2000u32,
        0x2001u32,
        0x2002u32,
        0x2003u32,
        0x2004u32,
        0x2005u32,
        0x2006u32,
        0x2007u32,
        0x2008u32,
        0x2009u32,
        0x200au32,
        0x2028u32,
        0x2029u32,
        0x202fu32,
        0x205fu32,
        0x3000u32,
    ];
    let n = c as u32;
    assert(all[0] == 0x9 && all[1] == 0xa && all[2] == 0xb && all[3] == 0xc && all[4] == 0xd && all[5]
        == 0x20 && all[6] == 0x85 && all[7] == 0xa0 && all[8] == 0x1680 && all[9] == 0x2000
        && all[10] == 0x2001 && all[11] == 0x2002 && all[12] == 0x2003 && all[13] == 0x2004
        && all[14] == 0x2005 && all[15] == 0x2006 && all[16] == 0x2007 && all[17] == 0x2008
        && all[18] == 0x2009 && all[19] == 0x200a && all[20] == 0x2028 && all[21] == 0x2029
        && all[22] == 0x202f && all[23] == 0x205f && all[24] == 0x3000);
    if all.contains(n) {
        let i = choose|i: int| 0 <= i < all.len() && all[i] == n;
        assert(all[i] == n);
    }
}

/// A part of several that are joined stands in the whole.
pub proof fn lemma_join_contains(parts: Seq<Seq<char>>, sep: Seq<char>, i: int)
    requires
        0 <= i < parts.len(),
    ensures
        contains(join(parts, sep), parts[i]),
    decreases parts.len(),
{
    let whole = join(parts, sep);
    let none = Seq::<char>::empty();
    if parts.len() == 1 {
        law_part_stands_somewhere(whole, none, parts[0], none);
        assert(none + parts[0] + none =~= whole);
    } else if i == parts.len() - 1 {
        let before = join(parts.drop_last(), sep) + sep;
        law_part_stands_somewhere(whole, before, parts[i], none);
        assert(before + parts[i] + none =~= whole);
    } else {
        let rest = join(parts.drop_last(), sep);
        lemma_join_contains(parts.drop_last(), sep, i);
        law_part_stands_somewhere(rest, none, parts[i], none);
        let (x, y) = choose|x: Seq<char>, y: Seq<char>|
            #![trigger x + parts[i] + y]
            rest == x + parts[i] + y;
        law_part_stands_somewhere(whole, x, parts[i], y + sep + parts.last());
        assert(x + parts[i] + (y + sep + parts.last()) =~= whole);
    }
}

} // verus!
