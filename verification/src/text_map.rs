//! Maps and sets keyed by text.

use crate::text::same;
use vstd::prelude::*;

verus! {

/// Whether no name occurs twice among `entries`.
pub open spec fn unique_names<V>(entries: Seq<(String, V)>) -> bool {
    forall|i: int, j: int|
        0 <= i < j < entries.len() ==> (#[trigger] entries[i]).0@ != (#[trigger] entries[j]).0@
}

/// What a sequence of entries holds, later ones taking the place of earlier ones.
pub open spec fn entries_map<V>(entries: Seq<(String, V)>) -> Map<Seq<char>, V>
    decreases entries.len(),
{
    if entries.len() == 0 {
        Map::empty()
    } else {
        entries_map(entries.drop_last()).insert(entries.last().0@, entries.last().1)
    }
}

proof fn lemma_entries_map<V>(entries: Seq<(String, V)>)
    requires
        unique_names(entries),
    ensures
        forall|i: int|
            0 <= i < entries.len() ==> entries_map(entries).dom().contains(
                (#[trigger] entries[i]).0@,
            ) && entries_map(entries)[entries[i].0@] == entries[i].1,
        forall|k: Seq<char>| #[trigger]
            entries_map(entries).dom().contains(k) ==> exists|i: int|
                0 <= i < entries.len() && (#[trigger] entries[i]).0@ == k,
        entries_map(entries).dom().finite(),
        entries_map(entries).dom().len() == entries.len(),
    decreases entries.len(),
{
    if entries.len() > 0 {
        let rest = entries.drop_last();
        assert(unique_names(rest));
        lemma_entries_map(rest);
        assert forall|i: int| 0 <= i < entries.len() implies entries_map(entries).dom().contains(
            (#[trigger] entries[i]).0@,
        ) && entries_map(entries)[entries[i].0@] == entries[i].1 by {
            if i < rest.len() {
                assert(rest[i] == entries[i]);
            }
        }
        assert forall|k: Seq<char>| #[trigger]
            entries_map(entries).dom().contains(k) implies exists|i: int|
            0 <= i < entries.len() && (#[trigger] entries[i]).0@ == k by {
            if k == entries.last().0@ {
                assert(entries[entries.len() - 1].0@ == k);
            } else {
                let i = choose|i: int| 0 <= i < rest.len() && (#[trigger] rest[i]).0@ == k;
                assert(entries[i].0@ == k);
            }
        }
        if entries_map(rest).dom().contains(entries.last().0@) {
            let i = choose|i: int|
                0 <= i < rest.len() && (#[trigger] rest[i]).0@ == entries.last().0@;
            assert(entries[i].0@ == entries[entries.len() - 1].0@);
        }
    }
}

/// Values by name.
#[derive(Debug)]
pub struct TextMap<V> {
    entries: Vec<(String, V)>,
}

impl<V> View for TextMap<V> {
    type V = Map<Seq<char>, V>;

    closed spec fn view(&self) -> Map<Seq<char>, V> {
        entries_map(self.entries@)
    }
}

impl<V> TextMap<V> {
    #[verifier::type_invariant]
    spec fn is_unique(self) -> bool {
        unique_names(self.entries@)
    }

    /// An empty map.
    pub fn new() -> (r: TextMap<V>)
        ensures
            r@ == Map::<Seq<char>, V>::empty(),
    {
        TextMap { entries: Vec::new() }
    }

    /// The number of entries.
    pub fn len(&self) -> (r: usize)
        ensures
            self@.dom().finite(),
            r == self@.dom().len(),
    {
        proof {
            use_type_invariant(self);
            lemma_entries_map(self.entries@);
        }
        self.entries.len()
    }

    fn find(&self, key: &str) -> (r: Option<usize>)
        ensures
            match r {
                Some(i) => i < self.entries@.len() && self.entries@[i as int].0@ == key@,
                None => forall|i: int|
                    0 <= i < self.entries@.len() ==> (#[trigger] self.entries@[i]).0@ != key@,
            },
    {
        let mut i: usize = 0;
        while i < self.entries.len()
            invariant
                i <= self.entries@.len(),
                forall|k: int| 0 <= k < i ==> (#[trigger] self.entries@[k]).0@ != key@,
            decreases self.entries@.len() - i,
        {
            if same(self.entries[i].0.as_str(), key) {
                return Some(i);
            }
            i += 1;
        }
        None
    }

    /// The value under a name.
    pub fn get(&self, key: &str) -> (r: Option<&V>)
        ensures
            match r {
                Some(value) => self@.dom().contains(key@) && self@[key@] == *value,
                None => !self@.dom().contains(key@),
            },
    {
        proof {
            use_type_invariant(self);
            lemma_entries_map(self.entries@);
        }
        match self.find(key) {
            Some(i) => {
                assert(self.entries@[i as int].0@ == key@);
                Some(&self.entries[i].1)
            },
            None => None,
        }
    }

    /// Puts a value under a name, in place of the one that may be there.
    pub fn insert(&mut self, key: String, value: V)
        ensures
            final(self)@ == old(self)@.insert(key@, value),
    {
        proof {
            use_type_invariant(&*self);
            lemma_entries_map(self.entries@);
        }
        let found: Option<usize> = self.find(key.as_str());
        let mut entries: Vec<(String, V)> = Vec::new();
        std::mem::swap(&mut entries, &mut self.entries);
        let ghost all = entries@;
        if let Some(i) = found {
            let gone = entries.remove(i);
            proof {
                lemma_removed(all, i as int);
                assert(entries@ =~= all.remove(i as int));
            }
        }
        let ghost rest = entries@;
        entries.push((key, value));
        proof {
            lemma_entries_map(rest);
            assert forall|i: int, j: int| 0 <= i < j < entries@.len() implies (
            #[trigger] entries@[i]).0@ != (#[trigger] entries@[j]).0@ by {
                assert(rest[i] == entries@[i]);
                if j < rest.len() {
                    assert(rest[j] == entries@[j]);
                } else if rest[i].0@ == key@ {
                    assert(entries_map(rest).dom().contains(key@));
                }
            }
            assert(entries@.drop_last() =~= rest);
            assert(entries_map(entries@) =~= entries_map(all).insert(key@, value));
        }
        self.entries = entries;
    }

    /// The entries, each name once.
    pub fn entries(&self) -> (r: &Vec<(String, V)>)
        ensures
            unique_names(r@),
            forall|i: int|
                0 <= i < r@.len() ==> self@.dom().contains((#[trigger] r@[i]).0@)
                    && self@[r@[i].0@] == r@[i].1,
            forall|k: Seq<char>| #[trigger]
                self@.dom().contains(k) ==> exists|i: int|
                    0 <= i < r@.len() && (#[trigger] r@[i]).0@ == k,
    {
        proof {
            use_type_invariant(self);
            lemma_entries_map(self.entries@);
        }
        &self.entries
    }
}

proof fn lemma_removed<V>(entries: Seq<(String, V)>, i: int)
    requires
        unique_names(entries),
        0 <= i < entries.len(),
    ensures
        unique_names(entries.remove(i)),
        entries_map(entries.remove(i)) == entries_map(entries).remove(entries[i].0@),
{
    let rest = entries.remove(i);
    assert forall|a: int, b: int| 0 <= a < b < rest.len() implies (#[trigger] rest[a]).0@ != (
    #[trigger] rest[b]).0@ by {
        let x = if a < i {
            a
        } else {
            a + 1
        };
        let y = if b < i {
            b
        } else {
            b + 1
        };
        assert(entries[x].0@ != entries[y].0@);
    }
    lemma_entries_map(entries);
    lemma_entries_map(rest);
    let m = entries_map(entries).remove(entries[i].0@);
    assert forall|k: Seq<char>| #[trigger] entries_map(rest).dom().contains(k) implies m.dom().contains(
        k,
    ) && m[k] == entries_map(rest)[k] by {
        let a = choose|a: int| 0 <= a < rest.len() && (#[trigger] rest[a]).0@ == k;
        let x = if a < i {
            a
        } else {
            a + 1
        };
        assert(entries[x] == rest[a]);
        assert(entries[x].0@ != entries[i].0@);
    }
    assert forall|k: Seq<char>| #[trigger] m.dom().contains(k) implies entries_map(
        rest,
    ).dom().contains(k) by {
        let x = choose|x: int| 0 <= x < entries.len() && (#[trigger] entries[x]).0@ == k;
        let a = if x < i {
            x
        } else {
            x - 1
        };
        assert(rest[a] == entries[x]);
    }
    assert(entries_map(rest) =~= m);
}

/// A set of texts.
#[derive(Debug)]
pub struct TextSet {
    items: TextMap<()>,
}

impl View for TextSet {
    type V = Set<Seq<char>>;

    closed spec fn view(&self) -> Set<Seq<char>> {
        self.items@.dom()
    }
}

impl TextSet {
    /// An empty set.
    pub fn new() -> (r: TextSet)
        ensures
            r@ == Set::<Seq<char>>::empty(),
    {
        TextSet { items: TextMap::new() }
    }

    /// The number of texts.
    pub fn len(&self) -> (r: usize)
        ensures
            self@.finite(),
            r == self@.len(),
    {
        self.items.len()
    }

    /// Whether there is no text.
    pub fn is_empty(&self) -> (r: bool)
        ensures
            r == (self@ == Set::<Seq<char>>::empty()),
    {
        let r: bool = self.len() == 0;
        proof {
            if r {
                assert(self@ =~= Set::empty());
            }
        }
        r
    }

    pub fn contains(&self, item: &str) -> (r: bool)
        ensures
            r == self@.contains(item@),
    {
        self.items.get(item).is_some()
    }

    pub fn insert(&mut self, item: String)
        ensures
            final(self)@ == old(self)@.insert(item@),
    {
        self.items.insert(item, ());
        assert(self@ =~= old(self)@.insert(item@));
    }

    /// The texts, each of them once.
    pub fn items(&self) -> (r: Vec<String>)
        ensures
            forall|i: int, j: int|
                0 <= i < j < r@.len() ==> (#[trigger] r@[i])@ != (#[trigger] r@[j])@,
            forall|i: int| 0 <= i < r@.len() ==> self@.contains((#[trigger] r@[i])@),
            forall|k: Seq<char>| #[trigger]
                self@.contains(k) ==> exists|i: int| 0 <= i < r@.len() && (#[trigger] r@[i])@ == k,
    {
        let entries = self.items.entries();
        let mut r: Vec<String> = Vec::new();
        let mut i: usize = 0;
        while i < entries.len()
            invariant
                i <= entries@.len(),
                r@.len() == i,
                forall|k: int| 0 <= k < i ==> (#[trigger] r@[k])@ == entries@[k].0@,
            decreases entries@.len() - i,
        {
            r.push(entries[i].0.clone());
            i += 1;
        }
        proof {
            assert forall|k: Seq<char>| #[trigger] self@.contains(k) implies exists|i: int|
                0 <= i < r@.len() && (#[trigger] r@[i])@ == k by {
                let i = choose|i: int| 0 <= i < entries@.len() && (#[trigger] entries@[i]).0@ == k;
                assert(r@[i]@ == k);
            }
        }
        r
    }
}

impl Clone for TextSet {
    fn clone(&self) -> (r: TextSet)
        ensures
            r@ == self@,
    {
        let items = self.items();
        let mut r = TextSet::new();
        let mut i: usize = 0;
        while i < items.len()
            invariant
                i <= items@.len(),
                forall|k: Seq<char>| #[trigger]
                    r@.contains(k) <==> exists|j: int| 0 <= j < i && (#[trigger] items@[j])@ == k,
            decreases items@.len() - i,
        {
            r.insert(items[i].clone());
            proof {
                assert forall|k: Seq<char>| #[trigger] r@.contains(k) implies exists|j: int|
                    0 <= j < i + 1 && (#[trigger] items@[j])@ == k by {
                    if k == items@[i as int]@ {
                    }
                }
            }
            i += 1;
        }
        assert(r@ =~= self@);
        r
    }
}

/// What is put under a name is found under exactly that name, and all else is as it was.
pub proof fn law_entries_are_found<V>(
    map: &mut TextMap<V>,
    key: String,
    value: V,
    other: Seq<char>,
    read: &TextMap<V>,
    name: &str,
    found: Option<&V>,
)
    requires
        call_ensures(TextMap::<V>::insert, (map, key, value), ()),
        other != key@,
        call_ensures(TextMap::<V>::get, (read, name), found),
    ensures
        final(map)@.dom().contains(key@) && final(map)@[key@] == value,
        final(map)@.dom().contains(other) <==> old(map)@.dom().contains(other),
        old(map)@.dom().contains(other) ==> final(map)@[other] == old(map)@[other],
        found is Some <==> read@.dom().contains(name@),
        found is Some ==> *found->0 == read@[name@],
{
}

/// A set contains what was put into it, and nothing else.
pub proof fn law_sets_contain_what_was_put_in(
    set: &mut TextSet,
    item: String,
    other: Seq<char>,
    read: &TextSet,
    name: &str,
    r: bool,
)
    requires
        call_ensures(TextSet::insert, (set, item), ()),
        call_ensures(TextSet::contains, (read, name), r),
    ensures
        final(set)@.contains(other) <==> old(set)@.contains(other) || other == item@,
        r <==> read@.contains(name@),
{
}

} // verus!
