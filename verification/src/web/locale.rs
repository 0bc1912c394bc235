//! Picking a language for a response.
//!
//! Two sources, in this order:
//!
//! 1. The caller's `locale` claim: a stated preference, and the one that should win.
//!    `Accept-Language` describes the *device*: someone who chose German in their profile should
//!    not be answered in Spanish because they opened a borrowed laptop abroad.
//! 2. `Accept-Language`, for callers with no token yet: a sign-in page has no preference to
//!    honour, so the browser's hint is the only signal there is.
//!
//! Whatever is left over falls back to the deployment's default. [`negotiate_language`] does the
//! second step; the first is a plain read off the token.

use crate::text::{
    ascii_lower, chars_of, eq_ignore_case, index_of, is_white_space, join,
    law_case_is_all_that_is_ignored, law_split_cuts_at_every_separator,
    law_split_once_cuts_at_the_first_separator, law_split_undoes_join,
    law_trim_takes_the_white_space_around, lemma_index_of, lemma_index_of_is, lemma_lower_char,
    lemma_lower_index, lemma_lower_split, lemma_lower_split_once, lemma_lower_trim,
    lemma_lower_twice, lower_all, same, same_ignore_case, split, split_once, split_once_str,
    split_str, to_ascii_lower, trim, trim_str, views,
};
use crate::web::quality::{rank, text_rank, unsigned, RANK_ONE};
use vstd::prelude::*;

verus! {

broadcast use vstd::string::group_string_axioms;

/// The value of the first `q` among the parameters of an entry.
pub open spec fn quality_text(params: Seq<Seq<char>>) -> Option<Seq<char>>
    decreases params.len(),
{
    if params.len() == 0 {
        None
    } else {
        match split_once(params[0], '=') {
            Some(pair) if eq_ignore_case(trim(pair.0), "q"@) => Some(trim(pair.1)),
            _ => quality_text(params.drop_first()),
        }
    }
}

/// How much the client wants the language of an entry: the rank of its `q` value, that of one
/// where there is none or where it is not a number.
pub open spec fn entry_quality(entry: Seq<char>) -> nat {
    match quality_text(split(entry, ';').drop_first()) {
        Some(value) => match text_rank(value) {
            Some(k) => k,
            None => RANK_ONE as nat,
        },
        None => RANK_ONE as nat,
    }
}

/// The language tag of an entry.
pub open spec fn entry_tag(entry: Seq<char>) -> Seq<char> {
    trim(split(entry, ';')[0])
}

/// The first of `supported` that is the language `tag`.
pub open spec fn find_language(supported: Seq<Seq<char>>, tag: Seq<char>) -> Option<Seq<char>>
    decreases supported.len(),
{
    if supported.len() == 0 {
        None
    } else if eq_ignore_case(supported[0], tag) {
        Some(supported[0])
    } else {
        find_language(supported.drop_first(), tag)
    }
}

/// The primary subtag: what stands before the first `-` or `_`.
pub open spec fn primary(tag: Seq<char>) -> Seq<char> {
    let a = index_of(tag, '-') as int;
    let b = index_of(tag, '_') as int;
    tag.take(
        if a < b {
            a
        } else {
            b
        },
    )
}

/// The language with which an entry can be answered, if any.
pub open spec fn answer(
    entry: Seq<char>,
    supported: Seq<Seq<char>>,
    default: Seq<char>,
) -> Option<Seq<char>> {
    let tag = entry_tag(entry);
    if tag.len() == 0 || entry_quality(entry) == 0 {
        None
    } else if tag == "*"@ {
        Some(default)
    } else if find_language(supported, tag) is Some {
        find_language(supported, tag)
    } else {
        find_language(supported, primary(tag))
    }
}

/// Whether entry `i` decides: it can be answered, no other that can be has a higher quality, and
/// none before it the same.
pub open spec fn decides(
    entries: Seq<Seq<char>>,
    supported: Seq<Seq<char>>,
    default: Seq<char>,
    i: int,
) -> bool {
    &&& 0 <= i < entries.len()
    &&& answer(entries[i], supported, default) is Some
    &&& forall|j: int|
        0 <= j < entries.len() && j != i && (#[trigger] answer(
            entries[j],
            supported,
            default,
        )) is Some ==> entry_quality(entries[j]) < entry_quality(entries[i]) || (entry_quality(
            entries[j],
        ) == entry_quality(entries[i]) && i < j)
}

/// The language for a list of entries: the answer of the one that decides, else the default.
pub open spec fn choice(
    entries: Seq<Seq<char>>,
    supported: Seq<Seq<char>>,
    default: Seq<char>,
) -> Seq<char> {
    if exists|i: int| decides(entries, supported, default, i) {
        let i = choose|i: int| decides(entries, supported, default, i);
        answer(entries[i], supported, default)->0
    } else {
        default
    }
}

/// The language for an `Accept-Language` header.
pub open spec fn negotiated(
    header: Option<Seq<char>>,
    supported: Seq<Seq<char>>,
    default: Seq<char>,
) -> Seq<char> {
    match header {
        Some(text) => choice(split(text, ','), supported, default),
        None => default,
    }
}

fn find_quality<'a>(parts: &Vec<&'a str>) -> (r: Option<&'a str>)
    requires
        parts@.len() > 0,
    ensures
        match (r, quality_text(views(parts@).drop_first())) {
            (Some(text), Some(exact)) => text@ == exact,
            (None, None) => true,
            _ => false,
        },
{
    let ghost all = views(parts@);
    let mut i: usize = 1;
    assert(all.skip(1) =~= all.drop_first());
    while i < parts.len()
        invariant
            all == views(parts@),
            1 <= i <= parts@.len(),
            quality_text(all.drop_first()) == quality_text(all.skip(i as int)),
        decreases parts@.len() - i,
    {
        assert(all.skip(i as int)[0] == parts@[i as int]@);
        assert(all.skip(i as int).drop_first() =~= all.skip(i + 1));
        if let Some(pair) = split_once_str(parts[i], '=') {
            if same_ignore_case(trim_str(pair.0), "q") {
                return Some(trim_str(pair.1));
            }
        }
        i += 1;
    }
    None
}

fn read_entry<'a>(entry: &'a str) -> (r: (&'a str, u32))
    ensures
        r.0@ == entry_tag(entry@),
        r.1 == entry_quality(entry@),
{
    let parts = split_str(entry, ';');
    assert(views(parts@)[0] == parts@[0]@);
    let tag = trim_str(parts[0]);
    let quality: u32 = match find_quality(&parts) {
        Some(text) => match rank(text) {
            Some(k) => k,
            None => RANK_ONE,
        },
        None => RANK_ONE,
    };
    (tag, quality)
}

fn find_supported<'a>(supported: &[&'a str], tag: &str) -> (r: Option<&'a str>)
    ensures
        match (r, find_language(views(supported@), tag@)) {
            (Some(hit), Some(exact)) => hit@ == exact,
            (None, None) => true,
            _ => false,
        },
{
    let ghost all = views(supported@);
    let mut i: usize = 0;
    assert(all.skip(0) =~= all);
    while i < supported.len()
        invariant
            all == views(supported@),
            i <= supported@.len(),
            find_language(all, tag@) == find_language(all.skip(i as int), tag@),
        decreases supported@.len() - i,
    {
        assert(all.skip(i as int)[0] == supported@[i as int]@);
        assert(all.skip(i as int).drop_first() =~= all.skip(i + 1));
        if same_ignore_case(supported[i], tag) {
            return Some(supported[i]);
        }
        i += 1;
    }
    None
}

fn primary_subtag<'a>(tag: &'a str) -> (r: &'a str)
    ensures
        r@ == primary(tag@),
{
    let chars = chars_of(tag);
    let mut i: usize = 0;
    while i < chars.len() && chars[i] != '-' && chars[i] != '_'
        invariant
            chars@ == tag@,
            i <= chars@.len(),
            forall|k: int| 0 <= k < i ==> tag@[k] != '-' && tag@[k] != '_',
        decreases chars@.len() - i,
    {
        i += 1;
    }
    proof {
        lemma_index_of(tag@, '-');
        lemma_index_of(tag@, '_');
        let a = index_of(tag@, '-') as int;
        let b = index_of(tag@, '_') as int;
        assert(a >= i && b >= i);
        if i < tag@.len() {
            if tag@[i as int] == '-' {
                lemma_index_of_is(tag@, '-', i as nat);
            } else {
                lemma_index_of_is(tag@, '_', i as nat);
            }
        }
    }
    let r = tag.substring_char(0, i);
    assert(r@ =~= tag@.take(i as int));
    r
}

fn answer_entry<'a>(tag: &str, supported: &[&'a str], default: &'a str) -> (r: Option<&'a str>)
    ensures
        match (
            r,
            if tag@ == "*"@ {
                Some(default@)
            } else if find_language(views(supported@), tag@) is Some {
                find_language(views(supported@), tag@)
            } else {
                find_language(views(supported@), primary(tag@))
            },
        ) {
            (Some(hit), Some(exact)) => hit@ == exact,
            (None, None) => true,
            _ => false,
        },
{
    if same(tag, "*") {
        return Some(default);
    }
    match find_supported(supported, tag) {
        Some(hit) => Some(hit),
        None => find_supported(supported, primary_subtag(tag)),
    }
}

/// Picks the best of `supported` for an `Accept-Language` header, else `default`.
///
/// Follows RFC 9110 far enough to be useful and no further: entries are ranked by their `q` value
/// (absent means 1.0, `q=0` means "not this one"), and each is matched first exactly, then by its
/// primary subtag, so `de-AT` reaches a catalogue that only has `de`. A wildcard `*` selects
/// `default`. Comparison is case-insensitive, because these tags arrive as typed. Entries of the
/// same quality keep the client's own order.
///
/// `supported` is expected to be small and is scanned linearly; it is a list of translations, not
/// a data structure.
pub fn negotiate_language(header: Option<&str>, supported: &[&str], default: &str) -> (r: String)
    ensures
        r@ == negotiated(
            match header {
                Some(text) => Some(text@),
                None => None,
            },
            views(supported@),
            default@,
        ),
{
    let text = match header {
        Some(text) => text,
        None => {
            return default.to_owned();
        },
    };
    let entries = split_str(text, ',');
    let ghost all = views(entries@);
    let ghost known = views(supported@);
    let mut best: Option<(u32, &str)> = None;
    let ghost mut at: int = -1;
    let mut i: usize = 0;
    while i < entries.len()
        invariant
            all == views(entries@),
            known == views(supported@),
            i <= entries@.len(),
            match best {
                Some(b) => {
                    &&& 0 <= at < i
                    &&& answer(all[at], known, default@) == Some(b.1@)
                    &&& entry_quality(all[at]) == b.0
                    &&& forall|j: int|
                        0 <= j < i && j != at && (#[trigger] answer(
                            all[j],
                            known,
                            default@,
                        )) is Some ==> entry_quality(all[j]) < b.0 || (entry_quality(all[j]) == b.0
                            && at < j)
                },
                None => forall|j: int|
                    0 <= j < i ==> (#[trigger] answer(all[j], known, default@)) is None,
            },
        decreases entries@.len() - i,
    {
        assert(all[i as int] == entries@[i as int]@);
        let (tag, quality) = read_entry(entries[i]);
        if !tag.is_empty() && quality > 0 {
            if let Some(hit) = answer_entry(tag, supported, default) {
                let better: bool = match best {
                    Some(b) => quality > b.0,
                    None => true,
                };
                if better {
                    best = Some((quality, hit));
                    proof {
                        at = i as int;
                    }
                }
            }
        }
        i += 1;
    }
    match best {
        Some(b) => {
            proof {
                assert(decides(all, known, default@, at));
                let w = choose|w: int| decides(all, known, default@, w);
                lemma_decides_once(all, known, default@, at, w);
            }
            b.1.to_owned()
        },
        None => {
            assert(forall|w: int| !decides(all, known, default@, w));
            default.to_owned()
        },
    }
}

proof fn lemma_decides_once(
    entries: Seq<Seq<char>>,
    supported: Seq<Seq<char>>,
    default: Seq<char>,
    i: int,
    j: int,
)
    requires
        decides(entries, supported, default, i),
        decides(entries, supported, default, j),
    ensures
        i == j,
{
    if i != j {
        assert(answer(entries[i], supported, default) is Some);
        assert(answer(entries[j], supported, default) is Some);
    }
}

/// The entry that decides gives the answer: the one of the highest quality among those that can
/// be answered, the first of several with the same.
pub proof fn law_best_entry_wins(
    entries: Seq<Seq<char>>,
    supported: Seq<Seq<char>>,
    default: Seq<char>,
    i: int,
)
    requires
        decides(entries, supported, default, i),
    ensures
        Some(choice(entries, supported, default)) == answer(entries[i], supported, default),
{
    let w = choose|w: int| decides(entries, supported, default, w);
    lemma_decides_once(entries, supported, default, i, w);
}

proof fn lemma_find_language(supported: Seq<Seq<char>>, tag: Seq<char>)
    ensures
        match find_language(supported, tag) {
            Some(hit) => supported.contains(hit) && eq_ignore_case(hit, tag),
            None => true,
        },
    decreases supported.len(),
{
    if supported.len() > 0 {
        if !eq_ignore_case(supported[0], tag) {
            let rest = supported.drop_first();
            lemma_find_language(rest, tag);
            if let Some(hit) = find_language(rest, tag) {
                let k = choose|k: int| 0 <= k < rest.len() && rest[k] == hit;
                assert(supported[k + 1] == hit);
            }
        } else {
            assert(supported.contains(supported[0]));
        }
    }
}

/// Whatever the client asks for, the answer is the default or one of the supported languages.
pub proof fn law_answer_is_offered(
    header: Option<Seq<char>>,
    supported: Seq<Seq<char>>,
    default: Seq<char>,
)
    ensures
        negotiated(header, supported, default) == default || supported.contains(
            negotiated(header, supported, default),
        ),
{
    if let Some(text) = header {
        let entries = split(text, ',');
        if exists|i: int| decides(entries, supported, default, i) {
            let i = choose|i: int| decides(entries, supported, default, i);
            let tag = entry_tag(entries[i]);
            lemma_find_language(supported, tag);
            lemma_find_language(supported, primary(tag));
        }
    }
}

/// An entry that is refused (`q=0`) or cannot be answered takes no part: the choice is the one
/// made without it.
pub proof fn law_refused_entry_takes_no_part(
    before: Seq<Seq<char>>,
    entry: Seq<char>,
    after: Seq<Seq<char>>,
    supported: Seq<Seq<char>>,
    default: Seq<char>,
)
    requires
        entry_quality(entry) == 0 || answer(entry, supported, default) is None,
    ensures
        choice(before + seq![entry] + after, supported, default) == choice(
            before + after,
            supported,
            default,
        ),
{
    let long = before + seq![entry] + after;
    let short = before + after;
    let n = before.len() as int;
    assert(answer(entry, supported, default) is None);
    assert(long[n] == entry);
    assert forall|i: int| 0 <= i < short.len() implies short[i] == long[if i < n {
        i
    } else {
        i + 1
    }] by {}
    if exists|i: int| decides(long, supported, default, i) {
        let i = choose|i: int| decides(long, supported, default, i);
        let k = if i < n {
            i
        } else {
            i - 1
        };
        assert(i != n);
        assert(short[k] == long[i]);
        assert forall|j: int|
            0 <= j < short.len() && j != k && (#[trigger] answer(
                short[j],
                supported,
                default,
            )) is Some implies entry_quality(short[j]) < entry_quality(short[k]) || (entry_quality(
            short[j],
        ) == entry_quality(short[k]) && k < j) by {
            let m = if j < n {
                j
            } else {
                j + 1
            };
            assert(answer(long[m], supported, default) is Some);
        }
        assert(decides(short, supported, default, k));
        law_best_entry_wins(short, supported, default, k);
        law_best_entry_wins(long, supported, default, i);
    } else if exists|k: int| decides(short, supported, default, k) {
        let k = choose|k: int| decides(short, supported, default, k);
        let i = if k < n {
            k
        } else {
            k + 1
        };
        assert(long[i] == short[k]);
        assert forall|j: int|
            0 <= j < long.len() && j != i && (#[trigger] answer(
                long[j],
                supported,
                default,
            )) is Some implies entry_quality(long[j]) < entry_quality(long[i]) || (entry_quality(
            long[j],
        ) == entry_quality(long[i]) && i < j) by {
            assert(j != n);
            let m = if j < n {
                j
            } else {
                j - 1
            };
            assert(short[m] == long[j]);
            assert(answer(short[m], supported, default) is Some);
        }
        assert(decides(long, supported, default, i));
    }
}

proof fn lemma_find_language_case(supported: Seq<Seq<char>>, a: Seq<char>)
    ensures
        find_language(supported, to_ascii_lower(a)) == find_language(supported, a),
    decreases supported.len(),
{
    lemma_lower_twice(a);
    if supported.len() > 0 {
        lemma_find_language_case(supported.drop_first(), a);
    }
}

proof fn lemma_quality_text_case(params: Seq<Seq<char>>)
    ensures
        quality_text(lower_all(params)) == (match quality_text(params) {
            Some(text) => Some(to_ascii_lower(text)),
            None => None,
        }),
    decreases params.len(),
{
    if params.len() > 0 {
        let low = lower_all(params);
        assert(low[0] == to_ascii_lower(params[0]));
        assert(low.drop_first() =~= lower_all(params.drop_first()));
        lemma_lower_split_once(params[0], '=');
        lemma_quality_text_case(params.drop_first());
        if let Some(pair) = split_once(params[0], '=') {
            lemma_lower_trim(pair.0);
            lemma_lower_trim(pair.1);
            lemma_lower_twice(trim(pair.0));
        }
    }
}

proof fn lemma_rank_case(s: Seq<char>)
    ensures
        text_rank(to_ascii_lower(s)) == text_rank(s),
{
    let t = to_ascii_lower(s);
    if s.len() > 0 {
        lemma_lower_char(s[0]);
        assert(t[0] == ascii_lower(s[0]));
    }
    assert(to_ascii_lower(unsigned(s)) =~= unsigned(t));
    lemma_lower_twice(unsigned(s));
}

proof fn lemma_entry_case(entry: Seq<char>, supported: Seq<Seq<char>>, default: Seq<char>)
    ensures
        entry_quality(to_ascii_lower(entry)) == entry_quality(entry),
        answer(to_ascii_lower(entry), supported, default) == answer(entry, supported, default),
{
    let parts = split(entry, ';');
    lemma_lower_split(entry, ';');
    lemma_lower_trim(parts[0]);
    assert(parts.len() > 0);
    assert(lower_all(parts)[0] == to_ascii_lower(parts[0]));
    assert(lower_all(parts).drop_first() =~= lower_all(parts.drop_first()));
    lemma_quality_text_case(parts.drop_first());
    if let Some(text) = quality_text(parts.drop_first()) {
        lemma_rank_case(text);
    }
    let tag = entry_tag(entry);
    let low = to_ascii_lower(tag);
    assert(entry_tag(to_ascii_lower(entry)) == low);
    lemma_find_language_case(supported, tag);
    lemma_find_language_case(supported, primary(tag));
    lemma_lower_index(tag, '-');
    lemma_lower_index(tag, '_');
    lemma_index_of(tag, '-');
    lemma_index_of(tag, '_');
    assert(primary(low) =~= to_ascii_lower(primary(tag)));
    assert((low == "*"@) == (tag == "*"@)) by {
        reveal_strlit("*");
        assert(low.len() == tag.len());
        if tag.len() == 1 {
            lemma_lower_char(tag[0]);
            assert(low[0] == ascii_lower(tag[0]));
            assert((low[0] == '*') == (tag[0] == '*'));
            assert(low[0] == '*' ==> low =~= "*"@);
            assert(tag[0] == '*' ==> tag =~= "*"@);
        }
    }
}

proof fn lemma_choice_case(
    entries: Seq<Seq<char>>,
    supported: Seq<Seq<char>>,
    default: Seq<char>,
)
    ensures
        choice(lower_all(entries), supported, default) == choice(entries, supported, default),
{
    let low = lower_all(entries);
    assert forall|i: int| 0 <= i < entries.len() implies entry_quality(#[trigger] low[i])
        == entry_quality(entries[i]) && answer(low[i], supported, default) == answer(
        entries[i],
        supported,
        default,
    ) by {
        assert(low[i] == to_ascii_lower(entries[i]));
        lemma_entry_case(entries[i], supported, default);
    }
    assert forall|i: int| decides(low, supported, default, i) == decides(
        entries,
        supported,
        default,
        i,
    ) by {
        if decides(low, supported, default, i) {
            assert forall|j: int|
                0 <= j < entries.len() && j != i && (#[trigger] answer(
                    entries[j],
                    supported,
                    default,
                )) is Some implies entry_quality(entries[j]) < entry_quality(entries[i]) || (
            entry_quality(entries[j]) == entry_quality(entries[i]) && i < j) by {
                assert(answer(low[j], supported, default) is Some);
            }
        }
        if decides(entries, supported, default, i) {
            assert forall|j: int|
                0 <= j < low.len() && j != i && (#[trigger] answer(
                    low[j],
                    supported,
                    default,
                )) is Some implies entry_quality(low[j]) < entry_quality(low[i]) || (entry_quality(
                low[j],
            ) == entry_quality(low[i]) && i < j) by {
                assert(answer(entries[j], supported, default) is Some);
            }
        }
    }
    if exists|i: int| decides(entries, supported, default, i) {
        let i = choose|i: int| decides(entries, supported, default, i);
        assert(decides(low, supported, default, i));
        law_best_entry_wins(low, supported, default, i);
        law_best_entry_wins(entries, supported, default, i);
    } else {
        assert(forall|i: int| !decides(low, supported, default, i));
    }
}

/// The case of the letters in a header makes no difference.
pub proof fn law_header_case_is_ignored(
    a: Seq<char>,
    b: Seq<char>,
    supported: Seq<Seq<char>>,
    default: Seq<char>,
)
    requires
        eq_ignore_case(a, b),
    ensures
        negotiated(Some(a), supported, default) == negotiated(Some(b), supported, default),
{
    lemma_lower_split(a, ',');
    lemma_lower_split(b, ',');
    lemma_choice_case(split(a, ','), supported, default);
    lemma_choice_case(split(b, ','), supported, default);
}

/// Whether no two of the languages differ in nothing but the case of their letters.
pub open spec fn differ_beyond_case(supported: Seq<Seq<char>>) -> bool {
    forall|a: Seq<char>, b: Seq<char>|
        supported.contains(a) && supported.contains(b) && #[trigger] eq_ignore_case(a, b) ==> a == b
}

proof fn lemma_found_language(supported: Seq<Seq<char>>, tag: Seq<char>, hit: Seq<char>)
    requires
        differ_beyond_case(supported),
        supported.contains(hit),
        eq_ignore_case(hit, tag),
    ensures
        find_language(supported, tag) == Some(hit),
    decreases supported.len(),
{
    if eq_ignore_case(supported[0], tag) {
        assert(supported.contains(supported[0]));
        assert(eq_ignore_case(supported[0], hit));
    } else {
        let rest = supported.drop_first();
        let k = choose|k: int| 0 <= k < supported.len() && supported[k] == hit;
        assert(rest[k - 1] == hit);
        assert forall|a: Seq<char>, b: Seq<char>|
            rest.contains(a) && rest.contains(b) && #[trigger] eq_ignore_case(a, b) implies a
            == b by {
            let i = choose|i: int| 0 <= i < rest.len() && rest[i] == a;
            let j = choose|j: int| 0 <= j < rest.len() && rest[j] == b;
            assert(supported[i + 1] == a && supported[j + 1] == b);
        }
        lemma_found_language(rest, tag, hit);
    }
}

proof fn lemma_no_language(supported: Seq<Seq<char>>, tag: Seq<char>)
    requires
        forall|a: Seq<char>| supported.contains(a) ==> !#[trigger] eq_ignore_case(a, tag),
    ensures
        find_language(supported, tag) is None,
    decreases supported.len(),
{
    if supported.len() > 0 {
        assert(supported.contains(supported[0]));
        let rest = supported.drop_first();
        assert forall|a: Seq<char>| rest.contains(a) implies !#[trigger] eq_ignore_case(a, tag) by {
            let i = choose|i: int| 0 <= i < rest.len() && rest[i] == a;
            assert(supported[i + 1] == a);
        }
        lemma_no_language(rest, tag);
    }
}

proof fn lemma_find_language_order(s: Seq<Seq<char>>, t: Seq<Seq<char>>, tag: Seq<char>)
    requires
        forall|a: Seq<char>| s.contains(a) <==> t.contains(a),
        differ_beyond_case(s),
    ensures
        find_language(s, tag) == find_language(t, tag),
{
    if exists|a: Seq<char>| s.contains(a) && #[trigger] eq_ignore_case(a, tag) {
        let a = choose|a: Seq<char>| s.contains(a) && #[trigger] eq_ignore_case(a, tag);
        lemma_found_language(s, tag, a);
        lemma_found_language(t, tag, a);
    } else {
        lemma_no_language(s, tag);
        lemma_no_language(t, tag);
    }
}

/// The order of the supported languages makes no difference, as long as no two of them differ in
/// nothing but case.
pub proof fn law_order_of_languages_is_irrelevant(
    header: Option<Seq<char>>,
    s: Seq<Seq<char>>,
    t: Seq<Seq<char>>,
    default: Seq<char>,
)
    requires
        forall|a: Seq<char>| s.contains(a) <==> t.contains(a),
        differ_beyond_case(s),
    ensures
        negotiated(header, s, default) == negotiated(header, t, default),
{
    if let Some(text) = header {
        let entries = split(text, ',');
        assert forall|entry: Seq<char>| #[trigger] answer(entry, s, default) == answer(
            entry,
            t,
            default,
        ) by {
            lemma_find_language_order(s, t, entry_tag(entry));
            lemma_find_language_order(s, t, primary(entry_tag(entry)));
        }
        assert forall|i: int| decides(entries, s, default, i) == decides(
            entries,
            t,
            default,
            i,
        ) by {
            if decides(entries, s, default, i) {
                assert forall|j: int|
                    0 <= j < entries.len() && j != i && (#[trigger] answer(
                        entries[j],
                        t,
                        default,
                    )) is Some implies entry_quality(entries[j]) < entry_quality(entries[i]) || (
                entry_quality(entries[j]) == entry_quality(entries[i]) && i < j) by {
                    assert(answer(entries[j], s, default) is Some);
                }
            }
            if decides(entries, t, default, i) {
                assert(answer(entries[i], s, default) is Some);
            }
        }
        if exists|i: int| decides(entries, s, default, i) {
            let i = choose|i: int| decides(entries, s, default, i);
            law_best_entry_wins(entries, s, default, i);
            assert(decides(entries, t, default, i));
            law_best_entry_wins(entries, t, default, i);
            assert(answer(entries[i], s, default) == answer(entries[i], t, default));
        } else {
            assert(forall|i: int| !decides(entries, t, default, i));
        }
    }
}

proof fn lemma_free_of(s: Seq<char>, c: char)
    requires
        !s.contains(c),
    ensures
        split(s, c) == seq![s],
        forall|i: int| 0 <= i < s.len() ==> s[i] != c,
{
    law_split_cuts_at_every_separator(s, Seq::empty(), c);
    assert forall|i: int| 0 <= i < s.len() implies s[i] != c by {
        assert(s.contains(s[i]));
    }
}

/// Whether a text is a language tag on its own: no list, no parameters, no white space.
pub open spec fn is_bare_tag(tag: Seq<char>) -> bool {
    &&& tag.len() > 0
    &&& !tag.contains(',')
    &&& !tag.contains(';')
    &&& forall|i: int| 0 <= i < tag.len() ==> !is_white_space(#[trigger] tag[i])
}

proof fn lemma_bare_entry(tag: Seq<char>)
    requires
        is_bare_tag(tag),
    ensures
        entry_tag(tag) == tag,
        entry_quality(tag) == RANK_ONE,
        split(tag, ',') == seq![tag],
{
    lemma_free_of(tag, ',');
    lemma_free_of(tag, ';');
    let none = Seq::<char>::empty();
    assert(none + tag + none =~= tag);
    law_trim_takes_the_white_space_around(none, tag, none);
    assert(seq![tag].drop_first() =~= Seq::empty());
}

proof fn lemma_single_answer(
    tag: Seq<char>,
    supported: Seq<Seq<char>>,
    default: Seq<char>,
)
    requires
        split(tag, ',') == seq![tag],
    ensures
        negotiated(Some(tag), supported, default) == (match answer(tag, supported, default) {
            Some(language) => language,
            None => default,
        }),
{
    let entries = seq![tag];
    assert(entries[0] == tag);
    if answer(tag, supported, default) is Some {
        assert(decides(entries, supported, default, 0));
        law_best_entry_wins(entries, supported, default, 0);
    } else {
        assert forall|i: int| !decides(entries, supported, default, i) by {}
    }
}

proof fn lemma_primary(p: Seq<char>, sep: char, rest: Seq<char>)
    requires
        !p.contains('-'),
        !p.contains('_'),
        sep == '-' || sep == '_',
    ensures
        primary(p + seq![sep] + rest) == p,
        primary(p) == p,
{
    let tag = p + seq![sep] + rest;
    let n = p.len();
    lemma_free_of(p, '-');
    lemma_free_of(p, '_');
    lemma_index_of_is(p, '-', n);
    lemma_index_of_is(p, '_', n);
    lemma_index_of(tag, '-');
    lemma_index_of(tag, '_');
    assert forall|i: int| 0 <= i < n implies tag[i] != '-' && tag[i] != '_' by {
        assert(tag[i] == p[i]);
    }
    assert(tag[n as int] == sep);
    lemma_index_of_is(tag, sep, n);
    let a = index_of(tag, '-');
    let b = index_of(tag, '_');
    if a < n {
        assert(tag[a as int] == '-');
    }
    if b < n {
        assert(tag[b as int] == '_');
    }
    assert(tag.take(n as int) =~= p);
    assert(p.take(n as int) =~= p);
}

/// A language with anything behind it, however many subtags, is answered with the language itself
/// where that is supported and the tag as a whole is not.
pub proof fn law_subtags_reach_the_language(
    p: Seq<char>,
    sep: char,
    rest: Seq<char>,
    supported: Seq<Seq<char>>,
    default: Seq<char>,
)
    requires
        !p.contains('-'),
        !p.contains('_'),
        sep == '-' || sep == '_',
        is_bare_tag(p + seq![sep] + rest),
        supported.contains(p),
        forall|a: Seq<char>|
            supported.contains(a) ==> !#[trigger] eq_ignore_case(a, p + seq![sep] + rest),
    ensures
        eq_ignore_case(negotiated(Some(p + seq![sep] + rest), supported, default), p),
        differ_beyond_case(supported) ==> negotiated(
            Some(p + seq![sep] + rest),
            supported,
            default,
        ) == p,
{
    let tag = p + seq![sep] + rest;
    lemma_bare_entry(tag);
    lemma_single_answer(tag, supported, default);
    lemma_primary(p, sep, rest);
    lemma_no_language(supported, tag);
    lemma_hit(supported, p, p);
    reveal_strlit("*");
    if tag == "*"@ {
        assert(tag[p.len() as int] == sep);
        assert(tag.len() == 1);
        assert(tag[0] == '*');
    }
}

/// A supported language is found, whatever the case of its letters.
proof fn lemma_hit(supported: Seq<Seq<char>>, language: Seq<char>, tag: Seq<char>)
    requires
        supported.contains(language),
        eq_ignore_case(language, tag),
    ensures
        find_language(supported, tag) is Some,
        eq_ignore_case(find_language(supported, tag)->0, tag),
        supported.contains(find_language(supported, tag)->0),
        differ_beyond_case(supported) ==> find_language(supported, tag) == Some(language),
    decreases supported.len(),
{
    lemma_find_language(supported, tag);
    if !eq_ignore_case(supported[0], tag) {
        let rest = supported.drop_first();
        let k = choose|k: int| 0 <= k < supported.len() && supported[k] == language;
        assert(rest[k - 1] == language);
        lemma_hit(rest, language, tag);
    }
    if differ_beyond_case(supported) {
        lemma_found_language(supported, tag, language);
    }
}

/// A language that is supported under the very tag that the client names is answered with that, and
/// not with its primary subtag; the case of the letters does not matter.
pub proof fn law_whole_tags_are_matched_first(
    tag: Seq<char>,
    language: Seq<char>,
    supported: Seq<Seq<char>>,
    default: Seq<char>,
)
    requires
        is_bare_tag(tag),
        tag != seq!['*'],
        supported.contains(language),
        eq_ignore_case(language, tag),
    ensures
        eq_ignore_case(negotiated(Some(tag), supported, default), tag),
        supported.contains(negotiated(Some(tag), supported, default)),
        differ_beyond_case(supported) ==> negotiated(Some(tag), supported, default) == language,
{
    lemma_bare_entry(tag);
    lemma_single_answer(tag, supported, default);
    lemma_hit(supported, language, tag);
    reveal_strlit("*");
    assert("*"@ =~= seq!['*']);
}

/// A wildcard is answered with the default, and so are languages of which neither the whole tag nor
/// the primary subtag is supported, and clients that ask for nothing.
pub proof fn law_the_rest_gets_the_default(
    p: Seq<char>,
    sep: char,
    rest: Seq<char>,
    supported: Seq<Seq<char>>,
    default: Seq<char>,
)
    requires
        !p.contains('-'),
        !p.contains('_'),
        sep == '-' || sep == '_',
        is_bare_tag(p + seq![sep] + rest),
        forall|a: Seq<char>|
            supported.contains(a) ==> !#[trigger] eq_ignore_case(a, p + seq![sep] + rest)
                && !eq_ignore_case(a, p),
    ensures
        negotiated(None, supported, default) == default,
        negotiated(Some(seq!['*']), supported, default) == default,
        negotiated(Some(p + seq![sep] + rest), supported, default) == default,
        p.len() > 0 ==> negotiated(Some(p), supported, default) == default,
{
    let tag = p + seq![sep] + rest;
    lemma_bare_entry(tag);
    lemma_single_answer(tag, supported, default);
    lemma_primary(p, sep, rest);
    lemma_no_language(supported, tag);
    assert forall|a: Seq<char>| supported.contains(a) implies !#[trigger] eq_ignore_case(a, p) by {
        assert(!eq_ignore_case(a, tag));
    }
    lemma_no_language(supported, p);
    let any = seq!['*'];
    reveal_strlit("*");
    assert("*"@ =~= any);
    assert(any[0] == '*');
    assert(is_bare_tag(any));
    lemma_bare_entry(any);
    lemma_single_answer(any, supported, default);
    if p.len() > 0 {
        assert(is_bare_tag(p)) by {
            assert forall|i: int| 0 <= i < p.len() implies !is_white_space(#[trigger] p[i]) by {
                assert(tag[i] == p[i]);
            }
            if p.contains(',') {
                let i = choose|i: int| 0 <= i < p.len() && p[i] == ',';
                assert(tag[i] == ',');
            }
            if p.contains(';') {
                let i = choose|i: int| 0 <= i < p.len() && p[i] == ';';
                assert(tag[i] == ';');
            }
        }
        lemma_bare_entry(p);
        lemma_single_answer(p, supported, default);
    }
}

/// Of the entries that can be answered, the one that the client wants most is answered; of several
/// that are wanted equally, the first.
pub proof fn law_most_wanted_entry_is_answered(
    header: Seq<char>,
    supported: Seq<Seq<char>>,
    default: Seq<char>,
    i: int,
)
    requires
        0 <= i < split(header, ',').len(),
        answer(split(header, ',')[i], supported, default) is Some,
        forall|j: int|
            0 <= j < split(header, ',').len() && j != i ==> {
                ||| (#[trigger] answer(split(header, ',')[j], supported, default)) is None
                ||| entry_quality(split(header, ',')[j]) < entry_quality(split(header, ',')[i])
                ||| entry_quality(split(header, ',')[j]) == entry_quality(split(header, ',')[i])
                    && i < j
            },
    ensures
        negotiated(Some(header), supported, default) == answer(
            split(header, ',')[i],
            supported,
            default,
        )->0,
{
    assert(decides(split(header, ','), supported, default, i));
    law_best_entry_wins(split(header, ','), supported, default, i);
}

/// Of two entries that can be answered, the second is answered only if the client wants it more.
pub proof fn law_order_breaks_ties(
    a: Seq<char>,
    b: Seq<char>,
    supported: Seq<Seq<char>>,
    default: Seq<char>,
)
    requires
        !a.contains(','),
        !b.contains(','),
        answer(a, supported, default) is Some,
        answer(b, supported, default) is Some,
    ensures
        negotiated(Some(a + seq![','] + b), supported, default) == if entry_quality(b)
            > entry_quality(a) {
            answer(b, supported, default)->0
        } else {
            answer(a, supported, default)->0
        },
{
    let header = a + seq![','] + b;
    law_split_cuts_at_every_separator(a, b, ',');
    law_split_cuts_at_every_separator(b, Seq::empty(), ',');
    let entries = split(header, ',');
    assert(entries =~= seq![a, b]);
    let i: int = if entry_quality(b) > entry_quality(a) {
        1
    } else {
        0
    };
    law_most_wanted_entry_is_answered(header, supported, default, i);
}

/// An entry that is refused, with a quality of zero, is never answered; any other entry that has a
/// language is answered as it would be without its parameters.
pub proof fn law_quality_does_not_change_the_answer(
    entry: Seq<char>,
    supported: Seq<Seq<char>>,
    default: Seq<char>,
)
    requires
        is_bare_tag(entry_tag(entry)),
    ensures
        entry_quality(entry) == 0 ==> answer(entry, supported, default) is None,
        entry_quality(entry) > 0 ==> answer(entry, supported, default) == answer(
            entry_tag(entry),
            supported,
            default,
        ),
{
    lemma_bare_entry(entry_tag(entry));
}

/// Whether a parameter of an entry is something else than a quality.
pub open spec fn is_other_parameter(param: Seq<char>) -> bool {
    forall|key: Seq<char>, value: Seq<char>|
        #![trigger key + seq!['='] + value]
        param == key + seq!['='] + value && !key.contains('=') ==> trim(key) != seq!['q']
            && trim(key) != seq!['Q']
}

proof fn lemma_is_q(key: Seq<char>)
    ensures
        eq_ignore_case(key, "q"@) <==> key == seq!['q'] || key == seq!['Q'],
{
    reveal_strlit("q");
    assert("q"@ =~= seq!['q']);
    law_case_is_all_that_is_ignored(key, "q"@);
    let q = "q"@;
    assert(q[0] == 'q');
    if eq_ignore_case(key, q) {
        assert(key.len() == 1);
        assert(key[0] == key[0]);
        assert(key[0] == 'q' ==> key =~= seq!['q']);
        assert(key[0] == 'Q' ==> key =~= seq!['Q']);
    }
    if key == seq!['q'] {
        assert(key[0] == 'q');
    }
    if key == seq!['Q'] {
        assert(key[0] == 'Q');
        assert forall|i: int| 0 <= i < key.len() implies {
            ||| #[trigger] key[i] == q[i]
            ||| 'A' <= key[i] <= 'Z' && q[i] as u32 == key[i] as u32 + 32
            ||| 'A' <= q[i] <= 'Z' && key[i] as u32 == q[i] as u32 + 32
        } by {}
    }
}

proof fn lemma_other_parameter(param: Seq<char>)
    requires
        is_other_parameter(param),
    ensures
        split_once(param, '=') is Some ==> !eq_ignore_case(
            trim((split_once(param, '=')->Some_0).0),
            "q"@,
        ),
{
    if split_once(param, '=') is Some {
        let pair = split_once(param, '=')->Some_0;
        lemma_index_of(param, '=');
        let n = index_of(param, '=') as int;
        assert(param =~= pair.0 + seq!['='] + pair.1);
        if pair.0.contains('=') {
            let k = choose|k: int| 0 <= k < pair.0.len() && pair.0[k] == '=';
            assert(param[k] == '=');
        }
        lemma_is_q(trim(pair.0));
    }
}

proof fn lemma_quality_found(
    others: Seq<Seq<char>>,
    key: Seq<char>,
    value: Seq<char>,
    after: Seq<Seq<char>>,
)
    requires
        forall|i: int| 0 <= i < others.len() ==> is_other_parameter(#[trigger] others[i]),
        !key.contains('='),
        trim(key) == seq!['q'] || trim(key) == seq!['Q'],
    ensures
        quality_text(others + seq![key + seq!['='] + value] + after) == Some(trim(value)),
        quality_text(others) is None,
    decreases others.len(),
{
    let param = key + seq!['='] + value;
    let all = others + seq![param] + after;
    lemma_is_q(trim(key));
    if others.len() == 0 {
        law_split_once_cuts_at_the_first_separator(key, value, '=');
        assert(all[0] == param);
    } else {
        let rest = others.drop_first();
        assert(all[0] == others[0]);
        assert(is_other_parameter(others[0]));
        lemma_other_parameter(others[0]);
        assert forall|i: int| 0 <= i < rest.len() implies is_other_parameter(
            #[trigger] rest[i],
        ) by {
            assert(rest[i] == others[i + 1]);
        }
        assert(all.drop_first() =~= rest + seq![param] + after);
        lemma_quality_found(rest, key, value, after);
    }
}

/// The quality of an entry is the number behind its first `q`, wherever that stands among the
/// parameters and whatever white space is around it. An entry without one, or with one that is no
/// number, has the quality of one. The tag stands before all parameters.
pub proof fn law_first_q_is_the_quality(
    tag: Seq<char>,
    others: Seq<Seq<char>>,
    key: Seq<char>,
    value: Seq<char>,
    after: Seq<Seq<char>>,
)
    requires
        !tag.contains(';'),
        forall|i: int|
            0 <= i < others.len() ==> is_other_parameter(#[trigger] others[i])
                && !others[i].contains(';'),
        !key.contains('='),
        !(key + seq!['='] + value).contains(';'),
        trim(key) == seq!['q'] || trim(key) == seq!['Q'],
        forall|i: int| 0 <= i < after.len() ==> !(#[trigger] after[i]).contains(';'),
    ensures
        ({
            let entry = join(
                seq![tag] + others + seq![key + seq!['='] + value] + after,
                seq![';'],
            );
            let plain = join(seq![tag] + others, seq![';']);
            &&& entry_quality(entry) == match text_rank(trim(value)) {
                Some(k) => k,
                None => 0x3f80_0000,
            }
            &&& entry_tag(entry) == trim(tag)
            &&& entry_quality(plain) == 0x3f80_0000
            &&& entry_tag(plain) == trim(tag)
        }),
{
    let param = key + seq!['='] + value;
    let parts = seq![tag] + others + seq![param] + after;
    let few = seq![tag] + others;
    assert forall|i: int| 0 <= i < parts.len() implies !(#[trigger] parts[i]).contains(';') by {
        if 1 <= i < 1 + others.len() {
            assert(parts[i] == others[i - 1]);
        } else if i > 1 + others.len() {
            assert(parts[i] == after[i - 2 - others.len()]);
        }
    }
    assert forall|i: int| 0 <= i < few.len() implies !(#[trigger] few[i]).contains(';') by {
        assert(few[i] == parts[i]);
    }
    law_split_undoes_join(parts, ';');
    law_split_undoes_join(few, ';');
    assert(parts.drop_first() =~= others + seq![param] + after);
    assert(few.drop_first() =~= others);
    assert forall|i: int| 0 <= i < others.len() implies is_other_parameter(
        #[trigger] others[i],
    ) by {}
    lemma_quality_found(others, key, value, after);
}

/// The language of a response is the one that is negotiated for the header of the request.
pub proof fn law_responses_are_in_the_negotiated_language(
    header: Option<&str>,
    supported: &[&str],
    default: &str,
    r: String,
)
    requires
        call_ensures(negotiate_language, (header, supported, default), r),
    ensures
        header is None ==> r@ == default@,
        header is Some ==> r@ == negotiated(Some(header->0@), views(supported@), default@),
{
}

/// A wildcard is an answer of its own: what is wanted no more than that and comes behind it does not
/// count.
pub proof fn law_wildcards_are_answers(
    b: Seq<char>,
    supported: Seq<Seq<char>>,
    default: Seq<char>,
)
    requires
        !b.contains(','),
        entry_quality(b) <= 0x3f80_0000,
    ensures
        answer(seq!['*'], supported, default) == Some(default),
        negotiated(Some(seq!['*'] + seq![','] + b), supported, default) == default,
{
    let any = seq!['*'];
    reveal_strlit("*");
    assert("*"@ =~= any);
    assert(any[0] == '*');
    assert(is_bare_tag(any));
    lemma_bare_entry(any);
    let header = any + seq![','] + b;
    law_split_cuts_at_every_separator(any, b, ',');
    law_split_cuts_at_every_separator(b, Seq::empty(), ',');
    assert(split(header, ',') =~= seq![any, b]);
    law_most_wanted_entry_is_answered(header, supported, default, 0);
}

/// A language that is not supported, neither as a whole nor by its primary subtag, is passed over for
/// what comes behind it, and so is an entry without a language.
pub proof fn law_unsupported_languages_are_passed_over(
    p: Seq<char>,
    sep: char,
    rest: Seq<char>,
    b: Seq<char>,
    supported: Seq<Seq<char>>,
    default: Seq<char>,
)
    requires
        !p.contains('-'),
        !p.contains('_'),
        sep == '-' || sep == '_',
        is_bare_tag(p + seq![sep] + rest),
        forall|a: Seq<char>|
            supported.contains(a) ==> !#[trigger] eq_ignore_case(a, p + seq![sep] + rest)
                && !eq_ignore_case(a, p),
    ensures
        negotiated(Some(p + seq![sep] + rest + seq![','] + b), supported, default) == negotiated(
            Some(b),
            supported,
            default,
        ),
        negotiated(Some(seq![','] + b), supported, default) == negotiated(
            Some(b),
            supported,
            default,
        ),
{
    let tag = p + seq![sep] + rest;
    let none = Seq::<char>::empty();
    let entries = split(b, ',');
    lemma_bare_entry(tag);
    lemma_primary(p, sep, rest);
    lemma_no_language(supported, tag);
    assert forall|a: Seq<char>| supported.contains(a) implies !#[trigger] eq_ignore_case(a, p) by {
        assert(!eq_ignore_case(a, tag));
    }
    lemma_no_language(supported, p);
    reveal_strlit("*");
    if tag == "*"@ {
        assert(tag[p.len() as int] == sep);
        assert(tag.len() == 1);
        assert(tag[0] == '*');
    }
    assert(answer(tag, supported, default) is None);
    law_split_cuts_at_every_separator(tag, b, ',');
    let before = Seq::<Seq<char>>::empty();
    law_refused_entry_takes_no_part(before, tag, entries, supported, default);
    assert(before + seq![tag] + entries =~= seq![tag] + entries);
    assert(before + entries =~= entries);
    law_split_cuts_at_every_separator(none, b, ',');
    law_split_cuts_at_every_separator(none, none, ';');
    assert(none + none + none =~= none);
    law_trim_takes_the_white_space_around(none, none, none);
    assert(none + seq![','] + b =~= seq![','] + b);
    assert(answer(none, supported, default) is None);
    law_refused_entry_takes_no_part(before, none, entries, supported, default);
    assert(before + seq![none] + entries =~= seq![none] + entries);
}

} // verus!
