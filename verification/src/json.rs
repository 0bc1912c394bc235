//! JSON values.

use crate::text::{
    before, comes_before, lemma_before_irreflexive, lemma_before_total, lemma_before_transitive, same,
};
use vstd::prelude::*;

verus! {

/// A JSON number, as the JSON parser holds it.
#[verifier::external_type_specification]
#[verifier::external_body]
pub struct ExNumber(serde_json::Number);

/// `Clone::clone` of a JSON number: the same number once more.
pub assume_specification[ <serde_json::Number as Clone>::clone ](
    number: &serde_json::Number,
) -> (r: serde_json::Number)
    ensures
        r == *number,
;

/// A JSON value, as the JSON parser holds it.
#[verifier::external_type_specification]
#[verifier::external_body]
pub struct ExValue(serde_json::Value);

/// A number that is no integer, or none that fits 64 bits.
#[derive(Debug, PartialEq)]
pub struct Decimal {
    number: serde_json::Number,
}

impl Decimal {
    #[verifier::type_invariant]
    spec fn is_no_integer(self) -> bool {
        integer(self.number) is None
    }
}

impl View for Decimal {
    type V = serde_json::Number;

    closed spec fn view(&self) -> serde_json::Number {
        self.number
    }
}

/// A JSON value.
#[derive(Debug, PartialEq)]
pub enum Json {
    Null,
    Bool(bool),
    Unsigned(u64),
    Signed(i64),
    Decimal(Decimal),
    Text(String),
    Array(Vec<Json>),
    Object(ClaimsSet),
}

/// JSON values by name, in the order of the names.
#[derive(Debug, PartialEq)]
pub struct ClaimsSet {
    entries: Vec<(String, Json)>,
}

/// What a JSON value is.
pub enum JsonView {
    Null,
    Bool(bool),
    Integer(int),
    Decimal(serde_json::Number),
    Text(Seq<char>),
    Array(Seq<JsonView>),
    Object(Map<Seq<char>, JsonView>),
}

/// What a JSON value is.
pub open spec fn json_view(json: Json) -> JsonView
    decreases json,
{
    match json {
        Json::Null => JsonView::Null,
        Json::Bool(b) => JsonView::Bool(b),
        Json::Unsigned(n) => JsonView::Integer(n as int),
        Json::Signed(n) => JsonView::Integer(n as int),
        Json::Decimal(n) => JsonView::Decimal(n@),
        Json::Text(s) => JsonView::Text(s@),
        Json::Array(items) => JsonView::Array(
            Seq::new(
                items@.len(),
                |i: int|
                    if 0 <= i < items@.len() {
                        json_view(items@[i])
                    } else {
                        JsonView::Null
                    },
            ),
        ),
        Json::Object(set) => JsonView::Object(entries_view(set)),
    }
}

/// Where a name stands among `entries`.
spec fn position(entries: Seq<(String, Json)>, name: Seq<char>) -> int {
    choose|i: int| 0 <= i < entries.len() && entries[i].0@ == name
}

/// What a set holds.
pub closed spec fn entries_view(set: ClaimsSet) -> Map<Seq<char>, JsonView>
    decreases set,
{
    Map::new(
        |k: Seq<char>| exists|i: int| 0 <= i < set.entries@.len() && set.entries@[i].0@ == k,
        |k: Seq<char>|
            {
                let i = position(set.entries@, k);
                if 0 <= i < set.entries@.len() {
                    json_view(set.entries@[i].1)
                } else {
                    JsonView::Null
                }
            },
    )
}

impl View for Json {
    type V = JsonView;

    open spec fn view(&self) -> JsonView {
        json_view(*self)
    }
}

impl View for ClaimsSet {
    type V = Map<Seq<char>, JsonView>;

    open spec fn view(&self) -> Map<Seq<char>, JsonView> {
        entries_view(*self)
    }
}

/// Whether the names of `entries` are in strictly ascending order.
pub open spec fn ascending<T>(entries: Seq<(String, T)>) -> bool {
    forall|i: int, j: int|
        0 <= i < j < entries.len() ==> before(
            #[trigger] entries[i].0@,
            #[trigger] entries[j].0@,
        )
}

/// What a sequence of entries holds, later ones taking the place of earlier ones.
pub open spec fn collected(entries: Seq<(String, Json)>) -> Map<Seq<char>, JsonView>
    decreases entries.len(),
{
    if entries.len() == 0 {
        Map::empty()
    } else {
        collected(entries.drop_last()).insert(entries.last().0@, entries.last().1@)
    }
}

proof fn lemma_ascending_once<T>(entries: Seq<(String, T)>, i: int, j: int)
    requires
        ascending(entries),
        0 <= i < entries.len(),
        0 <= j < entries.len(),
        entries[i].0@ == entries[j].0@,
    ensures
        i == j,
{
    lemma_before_irreflexive(entries[i].0@);
    if i < j {
        assert(before(entries[i].0@, entries[j].0@));
    } else if j < i {
        assert(before(entries[j].0@, entries[i].0@));
    }
}

proof fn lemma_entry(set: ClaimsSet, i: int)
    requires
        ascending(set.entries@),
        0 <= i < set.entries@.len(),
    ensures
        set@.dom().contains(set.entries@[i].0@),
        set@[set.entries@[i].0@] == set.entries@[i].1@,
{
    let k = set.entries@[i].0@;
    let j = position(set.entries@, k);
    assert(0 <= i < set.entries@.len() && set.entries@[i].0@ == k);
    lemma_ascending_once(set.entries@, i, j);
}

fn copy_json(json: &Json) -> (r: Json)
    ensures
        r@ == json@,
    decreases json,
{
    match json {
        Json::Null => Json::Null,
        Json::Bool(b) => Json::Bool(*b),
        Json::Unsigned(n) => Json::Unsigned(*n),
        Json::Signed(n) => Json::Signed(*n),
        Json::Decimal(n) => {
            proof {
                use_type_invariant(n);
            }
            Json::Decimal(Decimal { number: n.number.clone() })
        },
        Json::Text(s) => Json::Text(s.clone()),
        Json::Array(items) => {
            let mut copies: Vec<Json> = Vec::new();
            let mut i: usize = 0;
            while i < items.len()
                invariant
                    json == Json::Array(*items),
                    i <= items@.len(),
                    copies@.len() == i,
                    forall|k: int| 0 <= k < i ==> (#[trigger] copies@[k])@ == items@[k]@,
                decreases items@.len() - i,
            {
                let item = &items[i];
                assert(decreases_to!(json->Array_0 => items[i as int]));
                copies.push(copy_json(item));
                i += 1;
            }
            let r = Json::Array(copies);
            assert(r@->Array_0 =~= json@->Array_0);
            r
        },
        Json::Object(set) => Json::Object(copy_set(set)),
    }
}

fn copy_set(set: &ClaimsSet) -> (r: ClaimsSet)
    ensures
        r@ == set@,
    decreases set,
{
    proof {
        use_type_invariant(set);
    }
    let mut entries: Vec<(String, Json)> = Vec::new();
    let mut i: usize = 0;
    while i < set.entries.len()
        invariant
            i <= set.entries@.len(),
            entries@.len() == i,
            forall|k: int|
                0 <= k < i ==> (#[trigger] entries@[k]).0@ == set.entries@[k].0@ && entries@[k].1@
                    == set.entries@[k].1@,
        decreases set.entries@.len() - i,
    {
        let entry = &set.entries[i];
        entries.push((entry.0.clone(), copy_json(&entry.1)));
        i += 1;
    }
    assert(ascending(entries@));
    let r = ClaimsSet { entries };
    proof {
        lemma_same_entries(*set, r);
    }
    r
}

proof fn lemma_same_entries(a: ClaimsSet, b: ClaimsSet)
    requires
        ascending(a.entries@),
        ascending(b.entries@),
        a.entries@.len() == b.entries@.len(),
        forall|k: int|
            0 <= k < a.entries@.len() ==> (#[trigger] b.entries@[k]).0@ == a.entries@[k].0@
                && b.entries@[k].1@ == a.entries@[k].1@,
    ensures
        a@ == b@,
{
    assert forall|k: Seq<char>| a@.dom().contains(k) == b@.dom().contains(k) by {
        if a@.dom().contains(k) {
            let i = choose|i: int| 0 <= i < a.entries@.len() && a.entries@[i].0@ == k;
            assert(b.entries@[i].0@ == k);
            lemma_entry(b, i);
        }
        if b@.dom().contains(k) {
            let i = choose|i: int| 0 <= i < b.entries@.len() && b.entries@[i].0@ == k;
            assert(b.entries@[i].0@ == k);
            lemma_entry(a, i);
        }
    }
    assert forall|k: Seq<char>| a@.dom().contains(k) implies a@[k] == b@[k] by {
        let i = choose|i: int| 0 <= i < a.entries@.len() && a.entries@[i].0@ == k;
        assert(b.entries@[i].0@ == k);
        lemma_entry(a, i);
        lemma_entry(b, i);
    }
    assert(a@ =~= b@);
}

impl Clone for Json {
    fn clone(&self) -> (r: Json)
        ensures
            r@ == self@,
    {
        copy_json(self)
    }
}

impl Clone for ClaimsSet {
    fn clone(&self) -> (r: ClaimsSet)
        ensures
            r@ == self@,
    {
        copy_set(self)
    }
}

impl Json {
    /// A JSON string.
    pub fn text(s: &str) -> (r: Json)
        ensures
            r@ == JsonView::Text(s@),
    {
        Json::Text(s.to_owned())
    }

    /// A JSON number.
    pub fn unsigned(n: u64) -> (r: Json)
        ensures
            r@ == JsonView::Integer(n as int),
    {
        Json::Unsigned(n)
    }

    /// A JSON object.
    pub fn object(set: ClaimsSet) -> (r: Json)
        ensures
            r@ == JsonView::Object(set@),
    {
        Json::Object(set)
    }

    /// The text of a JSON string.
    pub fn as_str(&self) -> (r: Option<&str>)
        ensures
            match r {
                Some(s) => self@ == JsonView::Text(s@),
                None => self@ !is Text,
            },
    {
        match self {
            Json::Text(s) => Some(s.as_str()),
            _ => None,
        }
    }

    /// The items of a JSON array.
    pub fn as_array(&self) -> (r: Option<&Vec<Json>>)
        ensures
            match r {
                Some(items) => {
                    &&& self@ is Array
                    &&& self@->Array_0.len() == items@.len()
                    &&& forall|i: int|
                        0 <= i < items@.len() ==> (#[trigger] items@[i])@ == self@->Array_0[i]
                },
                None => self@ !is Array,
            },
    {
        match self {
            Json::Array(items) => Some(items),
            _ => None,
        }
    }

    /// The members of a JSON object, taken out of it.
    pub fn into_object(self) -> (r: Option<ClaimsSet>)
        ensures
            match r {
                Some(set) => self@ == JsonView::Object(set@),
                None => self@ !is Object,
            },
    {
        match self {
            Json::Object(set) => Some(set),
            _ => None,
        }
    }

    /// The members of a JSON object.
    pub fn as_object(&self) -> (r: Option<&ClaimsSet>)
        ensures
            match r {
                Some(set) => self@ == JsonView::Object(set@),
                None => self@ !is Object,
            },
    {
        match self {
            Json::Object(set) => Some(set),
            _ => None,
        }
    }
}

impl ClaimsSet {
    #[verifier::type_invariant]
    spec fn in_order(self) -> bool {
        ascending(self.entries@)
    }

    /// An empty set.
    pub fn new() -> (r: ClaimsSet)
        ensures
            r@ == Map::<Seq<char>, JsonView>::empty(),
    {
        let r = ClaimsSet { entries: Vec::new() };
        assert(r@ =~= Map::empty());
        r
    }

    /// The number of entries.
    pub fn len(&self) -> (r: usize)
        ensures
            r == self@.dom().len(),
            self@.dom().finite(),
    {
        proof {
            use_type_invariant(self);
            lemma_dom_len(*self, self.entries@.len());
            assert(self@.dom() =~= names_before(*self, self.entries@.len()));
        }
        self.entries.len()
    }

    /// The value under a name.
    pub fn get(&self, key: &str) -> (r: Option<&Json>)
        ensures
            match r {
                Some(json) => self@.dom().contains(key@) && self@[key@] == json@,
                None => !self@.dom().contains(key@),
            },
    {
        proof {
            use_type_invariant(self);
        }
        let mut i: usize = 0;
        while i < self.entries.len()
            invariant
                i <= self.entries@.len(),
                ascending(self.entries@),
                forall|k: int| 0 <= k < i ==> (#[trigger] self.entries@[k]).0@ != key@,
            decreases self.entries@.len() - i,
        {
            if same(self.entries[i].0.as_str(), key) {
                proof {
                    lemma_entry(*self, i as int);
                }
                return Some(&self.entries[i].1);
            }
            i += 1;
        }
        None
    }

    pub fn contains_key(&self, key: &str) -> (r: bool)
        ensures
            r == self@.dom().contains(key@),
    {
        self.get(key).is_some()
    }

    /// The entries, in the order of their names.
    pub fn entries(&self) -> (r: &Vec<(String, Json)>)
        ensures
            ascending(r@),
            forall|i: int|
                0 <= i < r@.len() ==> self@.dom().contains((#[trigger] r@[i]).0@)
                    && self@[r@[i].0@] == r@[i].1@,
            forall|k: Seq<char>| #[trigger]
                self@.dom().contains(k) ==> exists|i: int| 0 <= i < r@.len() && #[trigger] r@[i].0@ == k,
    {
        proof {
            use_type_invariant(self);
            assert forall|i: int| 0 <= i < self.entries@.len() implies self@.dom().contains(
                (#[trigger] self.entries@[i]).0@,
            ) && self@[self.entries@[i].0@] == self.entries@[i].1@ by {
                lemma_entry(*self, i);
            }
        }
        &self.entries
    }

    /// The entries, in the order of their names, taken out of the set.
    pub fn into_entries(self) -> (r: Vec<(String, Json)>)
        ensures
            ascending(r@),
            forall|i: int|
                0 <= i < r@.len() ==> self@.dom().contains((#[trigger] r@[i]).0@)
                    && self@[r@[i].0@] == r@[i].1@,
            forall|k: Seq<char>| #[trigger]
                self@.dom().contains(k) ==> exists|i: int| 0 <= i < r@.len() && #[trigger] r@[i].0@ == k,
    {
        proof {
            use_type_invariant(&self);
            assert forall|i: int| 0 <= i < self.entries@.len() implies self@.dom().contains(
                (#[trigger] self.entries@[i]).0@,
            ) && self@[self.entries@[i].0@] == self.entries@[i].1@ by {
                lemma_entry(self, i);
            }
        }
        self.entries
    }

    /// A set made of entries; where a name occurs again, the later value counts.
    pub fn from_entries(entries: Vec<(String, Json)>) -> (r: ClaimsSet)
        ensures
            r@ == collected(entries@),
    {
        let mut r = ClaimsSet::new();
        let ghost all = entries@;
        assert(all.take(0) =~= Seq::empty());
        for entry in it: entries
            invariant
                it.seq() == all,
                r@ == collected(all.take(it.index() as int)),
        {
            proof {
                assert(all.take(it.index() + 1).drop_last() =~= all.take(it.index() as int));
            }
            r.insert(entry.0, entry.1);
        }
        assert(all.take(all.len() as int) =~= all);
        r
    }

    /// Puts a value under a name, in place of the one that may be there.
    pub fn insert(&mut self, key: String, value: Json)
        ensures
            final(self)@ == old(self)@.insert(key@, value@),
    {
        let mut entries: Vec<(String, Json)> = Vec::new();
        proof {
            use_type_invariant(&*self);
        }
        std::mem::swap(&mut entries, &mut self.entries);
        let ghost before_all = entries@;
        let ghost key_text = key@;
        let ghost value_view = value@;
        let mut at: usize = 0;
        while at < entries.len() && comes_before(entries[at].0.as_str(), key.as_str())
            invariant
                entries@ == before_all,
                ascending(entries@),
                key@ == key_text,
                at <= entries@.len(),
                forall|k: int| 0 <= k < at ==> before((#[trigger] entries@[k]).0@, key_text),
            decreases entries@.len() - at,
        {
            at += 1;
        }
        if at < entries.len() && same(entries[at].0.as_str(), key.as_str()) {
            let gone = entries.remove(at);
            entries.insert(at, (key, value));
            proof {
                let all = entries@;
                assert(all =~= before_all.update(at as int, all[at as int]));
                assert(ascending(all)) by {
                    assert forall|i: int, j: int| 0 <= i < j < all.len() implies before(
                        #[trigger] all[i].0@,
                        #[trigger] all[j].0@,
                    ) by {
                        assert(before(before_all[i].0@, before_all[j].0@));
                    }
                }
            }
        } else {
            entries.insert(at, (key, value));
            proof {
                lemma_ascending_insert(before_all, at as int, entries@[at as int]);
                assert(entries@ =~= before_all.insert(at as int, entries@[at as int]));
            }
        }
        self.entries = entries;
        proof {
            lemma_inserted(*old(self), *self, at as int, key_text, value_view);
        }
    }
}

proof fn lemma_ascending_insert<T>(all: Seq<(String, T)>, at: int, entry: (String, T))
    requires
        ascending(all),
        0 <= at <= all.len(),
        forall|k: int| 0 <= k < at ==> before((#[trigger] all[k]).0@, entry.0@),
        at < all.len() ==> !before(all[at].0@, entry.0@) && all[at].0@ != entry.0@,
    ensures
        ascending(all.insert(at, entry)),
{
    let r = all.insert(at, entry);
    if at < all.len() {
        lemma_before_total(all[at].0@, entry.0@);
    }
    assert forall|i: int, j: int| 0 <= i < j < r.len() implies before(
        #[trigger] r[i].0@,
        #[trigger] r[j].0@,
    ) by {
        let a = if i < at {
            i
        } else {
            i - 1
        };
        let b = if j < at {
            j
        } else {
            j - 1
        };
        if i != at && j != at {
            assert(before(all[a].0@, all[b].0@));
        } else if i == at {
            if b > at {
                assert(before(all[at].0@, all[b].0@));
                lemma_before_transitive(entry.0@, all[at].0@, all[b].0@);
            }
        } else {
            assert(before(all[i].0@, entry.0@));
        }
    }
}

proof fn lemma_inserted(old_set: ClaimsSet, set: ClaimsSet, at: int, key: Seq<char>, value: JsonView)
    requires
        ascending(old_set.entries@),
        ascending(set.entries@),
        0 <= at < set.entries@.len(),
        set.entries@[at].0@ == key,
        set.entries@[at].1@ == value,
        ({
            ||| at < old_set.entries@.len() && old_set.entries@[at].0@ == key && set.entries@
                == old_set.entries@.update(at, set.entries@[at])
            ||| at <= old_set.entries@.len() && set.entries@ == old_set.entries@.insert(
                at,
                set.entries@[at],
            )
        }),
    ensures
        set@ == old_set@.insert(key, value),
{
    let a = old_set.entries@;
    let b = set.entries@;
    let grown = b.len() > a.len();
    lemma_entry(set, at);
    assert forall|k: Seq<char>| k != key implies #[trigger] set@.dom().contains(k)
        == old_set@.dom().contains(k) && (set@.dom().contains(k) ==> set@[k] == old_set@[k]) by {
        if set@.dom().contains(k) {
            let i = choose|i: int| 0 <= i < b.len() && b[i].0@ == k;
            let j = if grown && i > at {
                i - 1
            } else {
                i
            };
            assert(i != at);
            assert(a[j] == b[i]);
            lemma_entry(set, i);
            lemma_entry(old_set, j);
        }
        if old_set@.dom().contains(k) {
            let j = choose|j: int| 0 <= j < a.len() && a[j].0@ == k;
            let i = if grown && j >= at {
                j + 1
            } else {
                j
            };
            assert(a[j] == b[i]);
            lemma_entry(set, i);
        }
    }
    let expected = old_set@.insert(key, value);
    assert forall|k: Seq<char>| set@.dom().contains(k) == expected.dom().contains(k) by {
        if k != key {
            assert(set@.dom().contains(k) == old_set@.dom().contains(k));
        }
    }
    assert forall|k: Seq<char>| set@.dom().contains(k) implies set@[k] == expected[k] by {
        if k != key {
            assert(set@[k] == old_set@[k]);
        }
    }
    assert(set@ =~= expected);
}

spec fn names_before(set: ClaimsSet, n: nat) -> Set<Seq<char>> {
    Set::new(|k: Seq<char>| exists|i: int| 0 <= i < n && #[trigger] set.entries@[i].0@ == k)
}

proof fn lemma_dom_len(set: ClaimsSet, n: nat)
    requires
        ascending(set.entries@),
        n <= set.entries@.len(),
    ensures
        names_before(set, n).finite(),
        names_before(set, n).len() == n,
    decreases n,
{
    if n == 0 {
        assert(names_before(set, 0) =~= Set::empty());
    } else {
        let m = (n - 1) as nat;
        lemma_dom_len(set, m);
        let k = set.entries@[m as int].0@;
        assert(names_before(set, n) =~= names_before(set, m).insert(k)) by {
            assert forall|x: Seq<char>| names_before(set, n).contains(x) implies names_before(
                set,
                m,
            ).insert(k).contains(x) by {
                let i = choose|i: int| 0 <= i < n && #[trigger] set.entries@[i].0@ == x;
                if i < m {
                    assert(set.entries@[i].0@ == x);
                }
            }
            assert(set.entries@[m as int].0@ == k);
        }
        if names_before(set, m).contains(k) {
            let i = choose|i: int| 0 <= i < m && #[trigger] set.entries@[i].0@ == k;
            lemma_ascending_once(set.entries@, i, m as int);
        }
    }
}

/// What a value of the JSON parser holds.
pub uninterp spec fn contents(value: serde_json::Value) -> JsonView;

/// The integer that a JSON number may be.
pub uninterp spec fn integer(number: serde_json::Number) -> Option<int>;

/// `serde_json::Number::as_u64`: the integer that the number is, where it is one of 64 bits
/// without a sign.
pub assume_specification[ serde_json::Number::as_u64 ](number: &serde_json::Number) -> (r: Option<
    u64,
>)
    ensures
        match r {
            Some(n) => integer(*number) == Some(n as int),
            None => integer(*number) is None || integer(*number)->0 < 0,
        },
;

/// `serde_json::Number::as_i64`: the integer that the number is, where it is one of 64 bits with
/// a sign.
pub assume_specification[ serde_json::Number::as_i64 ](number: &serde_json::Number) -> (r: Option<
    i64,
>)
    ensures
        match r {
            Some(n) => integer(*number) == Some(n as int),
            None => integer(*number) is None || integer(*number)->0 > i64::MAX,
        },
;

/// `From<u64>` of `serde_json::Number`: the number that is the integer.
#[verifier::external_body]
fn unsigned_number(n: u64) -> (r: serde_json::Number)
    ensures
        integer(r) == Some(n as int),
{
    serde_json::Number::from(n)
}

/// `From<i64>` of `serde_json::Number`: the number that is the integer.
#[verifier::external_body]
fn signed_number(n: i64) -> (r: serde_json::Number)
    ensures
        integer(r) == Some(n as int),
{
    serde_json::Number::from(n)
}

/// A value of the JSON parser, taken apart by one level.
enum Parts {
    Null,
    Bool(bool),
    Number(serde_json::Number),
    Text(String),
    Array(Vec<serde_json::Value>),
    Object(Vec<(String, serde_json::Value)>),
}

/// What a JSON number is: an integer where it is one, else the number itself.
pub open spec fn number_view(number: serde_json::Number) -> JsonView {
    match integer(number) {
        Some(n) => JsonView::Integer(n),
        None => JsonView::Decimal(number),
    }
}

/// What members hold by name.
pub open spec fn members(entries: Seq<(String, serde_json::Value)>) -> Map<Seq<char>, JsonView> {
    Map::new(
        |k: Seq<char>| exists|i: int| 0 <= i < entries.len() && #[trigger] entries[i].0@ == k,
        |k: Seq<char>|
            contents(
                entries[choose|i: int| 0 <= i < entries.len() && #[trigger] entries[i].0@ == k].1,
            ),
    )
}

/// Whether no name occurs twice among members.
pub open spec fn named_once(entries: Seq<(String, serde_json::Value)>) -> bool {
    forall|i: int, j: int|
        0 <= i < j < entries.len() ==> (#[trigger] entries[i].0@) != (#[trigger] entries[j].0@)
}

/// What the parts of a value say that it holds.
spec fn parts_view(parts: Parts) -> JsonView {
    match parts {
        Parts::Null => JsonView::Null,
        Parts::Bool(b) => JsonView::Bool(b),
        Parts::Number(n) => number_view(n),
        Parts::Text(s) => JsonView::Text(s@),
        Parts::Array(items) => JsonView::Array(
            items@.map_values(|item: serde_json::Value| contents(item)),
        ),
        Parts::Object(entries) => JsonView::Object(members(entries@)),
    }
}

/// Takes a `serde_json::Value` apart by one level, variant by variant: the parts hold what the
/// value holds, and no name occurs twice among the members of an object.
#[verifier::external_body]
fn open_value(value: serde_json::Value) -> (r: Parts)
    ensures
        parts_view(r) == contents(value),
        r is Object ==> named_once(r->Object_0@),
{
    match value {
        serde_json::Value::Null => Parts::Null,
        serde_json::Value::Bool(b) => Parts::Bool(b),
        serde_json::Value::Number(n) => Parts::Number(n),
        serde_json::Value::String(s) => Parts::Text(s),
        serde_json::Value::Array(items) => Parts::Array(items),
        serde_json::Value::Object(map) => Parts::Object(map.into_iter().collect()),
    }
}

/// Puts a `serde_json::Value` together out of its parts, variant by variant: it holds what the
/// parts hold.
#[verifier::external_body]
fn close_value(parts: Parts) -> (r: serde_json::Value)
    requires
        parts is Object ==> named_once(parts->Object_0@),
    ensures
        contents(r) == parts_view(parts),
{
    match parts {
        Parts::Null => serde_json::Value::Null,
        Parts::Bool(b) => serde_json::Value::Bool(b),
        Parts::Number(n) => serde_json::Value::Number(n),
        Parts::Text(s) => serde_json::Value::String(s),
        Parts::Array(items) => serde_json::Value::Array(items),
        Parts::Object(entries) => serde_json::Value::Object(entries.into_iter().collect()),
    }
}

/// A JSON number as an integer where it is one, else as it is.
fn number_of(number: serde_json::Number) -> (r: Json)
    ensures
        r@ == number_view(number),
{
    match number.as_u64() {
        Some(n) => Json::Unsigned(n),
        None => match number.as_i64() {
            Some(n) => Json::Signed(n),
            None => Json::Decimal(Decimal { number }),
        },
    }
}

proof fn lemma_member(entries: Seq<(String, serde_json::Value)>, i: int)
    requires
        named_once(entries),
        0 <= i < entries.len(),
    ensures
        members(entries).dom().contains(entries[i].0@),
        members(entries)[entries[i].0@] == contents(entries[i].1),
{
    let name = entries[i].0@;
    let j = choose|j: int| 0 <= j < entries.len() && #[trigger] entries[j].0@ == name;
    assert(entries[i].0@ == name);
    if i < j {
        assert(entries[i].0@ != entries[j].0@);
    } else if j < i {
        assert(entries[j].0@ != entries[i].0@);
    }
}

/// The value that the JSON parser holds.
fn json_of(value: serde_json::Value) -> (r: Json)
    ensures
        r@ == contents(value),
    decreases contents(value), 1nat,
{
    match open_value(value) {
        Parts::Null => Json::Null,
        Parts::Bool(b) => Json::Bool(b),
        Parts::Number(n) => number_of(n),
        Parts::Text(s) => Json::Text(s),
        Parts::Array(items) => {
            let ghost all = items@;
            let ghost exact = contents(value)->Array_0;
            let mut list: Vec<Json> = Vec::new();
            for item in it: items
                invariant
                    it.seq() == all,
                    contents(value) == JsonView::Array(exact),
                    exact == all.map_values(|item: serde_json::Value| contents(item)),
                    list@.len() == it.index(),
                    forall|k: int| 0 <= k < list@.len() ==> (#[trigger] list@[k])@ == exact[k],
            {
                proof {
                    let at = it.index() as int;
                    assert(contents(item) == exact[at]);
                    assert(decreases_to!(contents(value)->Array_0 => contents(value)->Array_0[at]));
                }
                list.push(json_of(item));
            }
            let r = Json::Array(list);
            assert(r@->Array_0 =~= exact);
            r
        },
        Parts::Object(entries) => Json::Object(set_of(entries)),
    }
}

/// The members of an object that the JSON parser holds.
pub(crate) fn set_of(entries: Vec<(String, serde_json::Value)>) -> (r: ClaimsSet)
    requires
        named_once(entries@),
    ensures
        r@ == members(entries@),
    decreases JsonView::Object(members(entries@)), 0nat,
{
    let ghost all = entries@;
    let mut r = ClaimsSet::new();
    for entry in it: entries
        invariant
            it.seq() == all,
            all == entries@,
            named_once(all),
            forall|k: Seq<char>| #[trigger]
                r@.dom().contains(k) <==> exists|i: int|
                    0 <= i < it.index() && #[trigger] all[i].0@ == k,
            forall|i: int|
                0 <= i < it.index() ==> r@[#[trigger] all[i].0@] == contents(all[i].1),
    {
        let ghost at = it.index() as int;
        let ghost earlier = r@;
        proof {
            assert(all[at] == entry);
            lemma_member(all, at);
            let whole = JsonView::Object(members(entries@));
            assert(whole->Object_0[entry.0@] == contents(entry.1));
        }
        r.insert(entry.0, json_of(entry.1));
        proof {
            assert forall|i: int| 0 <= i < at + 1 implies r@[#[trigger] all[i].0@] == contents(
                all[i].1,
            ) by {
                if i < at {
                    assert(all[i].0@ != all[at].0@);
                }
            }
            assert forall|k: Seq<char>| #[trigger] r@.dom().contains(k) implies exists|i: int|
                0 <= i < at + 1 && #[trigger] all[i].0@ == k by {
                if earlier.dom().contains(k) {
                    let i = choose|i: int| 0 <= i < at && #[trigger] all[i].0@ == k;
                    assert(all[i].0@ == k);
                } else {
                    assert(all[at].0@ == k);
                }
            }
            assert forall|k: Seq<char>|
                (exists|i: int| 0 <= i < at + 1 && #[trigger] all[i].0@ == k) implies #[trigger] r@.dom().contains(
                k,
            ) by {
                let i = choose|i: int| 0 <= i < at + 1 && #[trigger] all[i].0@ == k;
                if i < at {
                    assert(earlier.dom().contains(k));
                }
            }
        }
    }
    proof {
        assert forall|k: Seq<char>| #[trigger] r@.dom().contains(k) implies r@[k] == members(all)[k] by {
            let i = choose|i: int| 0 <= i < all.len() && #[trigger] all[i].0@ == k;
            lemma_member(all, i);
        }
        assert(r@ =~= members(all));
    }
    r
}

/// The value in the form in which the JSON writer takes it.
fn value_of(json: &Json) -> (r: serde_json::Value)
    ensures
        contents(r) == json@,
    decreases json,
{
    match json {
        Json::Null => close_value(Parts::Null),
        Json::Bool(b) => close_value(Parts::Bool(*b)),
        Json::Unsigned(n) => close_value(Parts::Number(unsigned_number(*n))),
        Json::Signed(n) => close_value(Parts::Number(signed_number(*n))),
        Json::Decimal(n) => {
            proof {
                use_type_invariant(n);
            }
            close_value(Parts::Number(n.number.clone()))
        },
        Json::Text(s) => close_value(Parts::Text(s.clone())),
        Json::Array(items) => {
            let mut list: Vec<serde_json::Value> = Vec::new();
            let mut i: usize = 0;
            while i < items.len()
                invariant
                    json == Json::Array(*items),
                    i <= items@.len(),
                    list@.len() == i,
                    forall|k: int| 0 <= k < i ==> contents(#[trigger] list@[k]) == items@[k]@,
                decreases items@.len() - i,
            {
                let item = &items[i];
                assert(decreases_to!(json->Array_0 => items[i as int]));
                list.push(value_of(item));
                i += 1;
            }
            let parts = Parts::Array(list);
            assert(parts_view(parts)->Array_0 =~= json@->Array_0);
            close_value(parts)
        },
        Json::Object(set) => close_value(Parts::Object(entries_of(set))),
    }
}

/// The members of an object in the form in which the JSON writer takes them.
fn entries_of(set: &ClaimsSet) -> (r: Vec<(String, serde_json::Value)>)
    ensures
        named_once(r@),
        members(r@) == set@,
    decreases set,
{
    proof {
        use_type_invariant(set);
    }
    let mut entries: Vec<(String, serde_json::Value)> = Vec::new();
    let mut i: usize = 0;
    while i < set.entries.len()
        invariant
            i <= set.entries@.len(),
            entries@.len() == i,
            forall|k: int|
                0 <= k < i ==> (#[trigger] entries@[k]).0@ == set.entries@[k].0@ && contents(
                    entries@[k].1,
                ) == set.entries@[k].1@,
        decreases set.entries@.len() - i,
    {
        let entry = &set.entries[i];
        entries.push((entry.0.clone(), value_of(&entry.1)));
        i += 1;
    }
    proof {
        let all = entries@;
        assert forall|i: int, j: int| 0 <= i < j < all.len() implies (#[trigger] all[i].0@) != (
        #[trigger] all[j].0@) by {
            if all[i].0@ == all[j].0@ {
                lemma_ascending_once(set.entries@, i, j);
            }
        }
        assert forall|k: Seq<char>| #[trigger] set@.dom().contains(k) implies members(
            all,
        ).dom().contains(k) by {
            let i = choose|i: int| 0 <= i < set.entries@.len() && set.entries@[i].0@ == k;
            assert(all[i].0@ == k);
        }
        assert forall|k: Seq<char>| #[trigger] members(all).dom().contains(k) implies set@.dom().contains(
            k,
        ) && members(all)[k] == set@[k] by {
            let i = choose|i: int| 0 <= i < all.len() && #[trigger] all[i].0@ == k;
            lemma_member(all, i);
            lemma_entry(*set, i);
        }
        assert(members(all) =~= set@);
    }
    entries
}

/// The compact JSON text of a value.
pub uninterp spec fn json_text(json: JsonView) -> Seq<char>;

/// `to_string` of a `serde_json::Value`, which writes the value as compact JSON.
#[verifier::external_body]
fn value_text(value: &serde_json::Value) -> (r: String)
    ensures
        r@ == json_text(contents(*value)),
{
    value.to_string()
}

impl Json {
    /// The value that the JSON parser holds.
    pub fn from_value(value: serde_json::Value) -> (r: Json)
        ensures
            r@ == contents(value),
    {
        json_of(value)
    }

    /// The value in the form in which the JSON writer takes it.
    pub fn to_value(&self) -> (r: serde_json::Value)
        ensures
            contents(r) == self@,
    {
        value_of(self)
    }

    /// The value as compact JSON.
    pub fn to_text(&self) -> (r: String)
        ensures
            r@ == json_text(self@),
    {
        value_text(&value_of(self))
    }
}

/// Of entries under the same name the last counts.
pub proof fn law_later_entries_count(entries: Seq<(String, Json)>, name: String, json: Json)
    ensures
        collected(Seq::empty()) == Map::<Seq<char>, JsonView>::empty(),
        collected(entries.push((name, json))) == collected(entries).insert(name@, json@),
{
    assert(entries.push((name, json)).drop_last() =~= entries);
}

/// A value is what its variant says: integers are the same with and without a sign.
pub proof fn law_values_are_what_they_say(
    n: u64,
    m: i64,
    b: bool,
    text: String,
    items: Vec<Json>,
    set: ClaimsSet,
    i: int,
)
    requires
        0 <= i < items@.len(),
    ensures
        Json::Null@ == JsonView::Null,
        Json::Bool(b)@ == JsonView::Bool(b),
        Json::Unsigned(n)@ == JsonView::Integer(n as int),
        Json::Signed(m)@ == JsonView::Integer(m as int),
        Json::Text(text)@ == JsonView::Text(text@),
        Json::Array(items)@ is Array,
        Json::Array(items)@->Array_0.len() == items@.len(),
        Json::Array(items)@->Array_0[i] == items@[i]@,
        Json::Object(set)@ == JsonView::Object(set@),
{
}

/// What is put under a name is found there, and all else is as it was.
pub proof fn law_insertions_are_found(set: &mut ClaimsSet, key: String, value: Json, other: Seq<char>)
    requires
        call_ensures(ClaimsSet::insert, (set, key, value), ()),
        other != key@,
    ensures
        final(set)@.dom().contains(key@) && final(set)@[key@] == value@,
        final(set)@.dom().contains(other) <==> old(set)@.dom().contains(other),
        old(set)@.dom().contains(other) ==> final(set)@[other] == old(set)@[other],
{
}

/// A value that goes to the JSON writer and comes back is the same.
pub proof fn law_values_go_there_and_back(json: &Json, value: serde_json::Value, r: Json)
    requires
        call_ensures(Json::to_value, (json,), value),
        call_ensures(Json::from_value, (value,), r),
    ensures
        r@ == json@,
{
}

} // verus!
