//! A small map from text keys to values, kept as a list without repeated
//! keys.

use vstd::prelude::*;

verus! {

/// Values under text keys, no key twice.
#[derive(Debug)]
pub struct KeyedList<T> {
    entries: Vec<(String, T)>,
}

/// Whether no two entries of `entries` have the same key.
pub open spec fn distinct_keys<T>(entries: Seq<(String, T)>) -> bool {
    forall|i: int, j: int|
        0 <= i < entries.len() && 0 <= j < entries.len() && i != j ==> (#[trigger] entries[i]).0@
            != (#[trigger] entries[j]).0@
}

/// Whether some entry of `entries` has the key `key`.
pub open spec fn has_key<T>(entries: Seq<(String, T)>, key: Seq<char>) -> bool {
    exists|i: int| 0 <= i < entries.len() && (#[trigger] entries[i]).0@ == key
}

/// The place of an entry of `entries` with the key `key`.
pub open spec fn place_of<T>(entries: Seq<(String, T)>, key: Seq<char>) -> int {
    choose|i: int| 0 <= i < entries.len() && (#[trigger] entries[i]).0@ == key
}

/// The entries as a map from keys to what the values stand for.
pub open spec fn map_of<T: View>(entries: Seq<(String, T)>) -> Map<Seq<char>, T::V> {
    Map::new(
        |k: Seq<char>| has_key(entries, k),
        |k: Seq<char>| entries[place_of(entries, k)].1@,
    )
}

/// Under distinct keys, the map holds each entry's value under its key.
pub proof fn lemma_map_at<T: View>(entries: Seq<(String, T)>, i: int)
    requires
        distinct_keys(entries),
        0 <= i < entries.len(),
    ensures
        map_of(entries).dom().contains(entries[i].0@),
        map_of(entries)[entries[i].0@] == entries[i].1@,
{
    let k = entries[i].0@;
    assert(has_key(entries, k));
    let p = place_of(entries, k);
    assert(p == i);
}

/// Adding an entry under a new key inserts into the map.
pub proof fn lemma_map_push<T: View>(entries: Seq<(String, T)>, key: String, value: T)
    requires
        distinct_keys(entries),
        !has_key(entries, key@),
    ensures
        distinct_keys(entries.push((key, value))),
        map_of(entries.push((key, value))) == map_of(entries).insert(key@, value@),
{
    let after = entries.push((key, value));
    assert(distinct_keys(after)) by {
        assert forall|i: int, j: int|
            0 <= i < after.len() && 0 <= j < after.len() && i != j implies (#[trigger] after[i]).0@
            != (#[trigger] after[j]).0@ by {
            if i < entries.len() {
                assert(after[i] == entries[i]);
            }
            if j < entries.len() {
                assert(after[j] == entries[j]);
            }
        }
    }
    assert forall|k: Seq<char>| has_key(after, k) <==> (has_key(entries, k) || k == key@) by {
        if has_key(after, k) {
            let i = place_of(after, k);
            if i < entries.len() {
                assert(entries[i] == after[i]);
            }
        }
        if has_key(entries, k) {
            let i = place_of(entries, k);
            assert(after[i] == entries[i]);
        }
        if k == key@ {
            assert(after[entries.len() as int].0@ == k);
        }
    }
    assert forall|k: Seq<char>| has_key(after, k) implies #[trigger] map_of(after)[k] == map_of(
        entries,
    ).insert(key@, value@)[k] by {
        let i = place_of(after, k);
        lemma_map_at(after, i);
        if i < entries.len() {
            assert(after[i] == entries[i]);
            lemma_map_at(entries, i);
        }
    }
    assert(map_of(after) =~= map_of(entries).insert(key@, value@));
}

/// Putting a value in place of an entry's value inserts into the map.
pub proof fn lemma_map_update<T: View>(entries: Seq<(String, T)>, i: int, value: T)
    requires
        distinct_keys(entries),
        0 <= i < entries.len(),
    ensures
        distinct_keys(entries.update(i, (entries[i].0, value))),
        map_of(entries.update(i, (entries[i].0, value))) == map_of(entries).insert(
            entries[i].0@,
            value@,
        ),
{
    let key = entries[i].0;
    let after = entries.update(i, (key, value));
    assert forall|j: int| 0 <= j < after.len() implies (#[trigger] after[j]).0@
        == entries[j].0@ by {}
    assert(distinct_keys(after)) by {
        assert forall|a: int, b: int|
            0 <= a < after.len() && 0 <= b < after.len() && a != b implies (#[trigger] after[a]).0@
            != (#[trigger] after[b]).0@ by {
            assert(entries[a].0@ != entries[b].0@);
        }
    }
    assert forall|k: Seq<char>| has_key(after, k) <==> has_key(entries, k) by {
        if has_key(after, k) {
            let j = place_of(after, k);
            assert(entries[j].0@ == k);
        }
        if has_key(entries, k) {
            let j = place_of(entries, k);
            assert(after[j].0@ == k);
        }
    }
    lemma_map_at(entries, i);
    assert forall|k: Seq<char>| has_key(after, k) implies #[trigger] map_of(after)[k] == map_of(
        entries,
    ).insert(key@, value@)[k] by {
        let j = place_of(after, k);
        lemma_map_at(after, j);
        if j != i {
            assert(after[j] == entries[j]);
            lemma_map_at(entries, j);
        }
    }
    assert(map_of(after) =~= map_of(entries).insert(key@, value@));
}

/// Where two lists agree on their keys and the values of the second are
/// those of the first under `f`, so are their maps.
pub proof fn lemma_map_values<T: View>(
    before: Seq<(String, T)>,
    after: Seq<(String, T)>,
    f: spec_fn(T::V) -> T::V,
)
    requires
        distinct_keys(before),
        before.len() == after.len(),
        forall|i: int|
            0 <= i < before.len() ==> (#[trigger] after[i]).0@ == before[i].0@ && after[i].1@ == f(
                before[i].1@,
            ),
    ensures
        distinct_keys(after),
        map_of(after) == map_of(before).map_values(f),
{
    assert(distinct_keys(after)) by {
        assert forall|a: int, b: int|
            0 <= a < after.len() && 0 <= b < after.len() && a != b implies (#[trigger] after[a]).0@
            != (#[trigger] after[b]).0@ by {
            assert(before[a].0@ != before[b].0@);
        }
    }
    assert forall|k: Seq<char>| has_key(after, k) <==> has_key(before, k) by {
        if has_key(after, k) {
            let j = place_of(after, k);
            assert(before[j].0@ == k);
        }
        if has_key(before, k) {
            let j = place_of(before, k);
            assert(after[j].0@ == k);
        }
    }
    assert forall|k: Seq<char>| has_key(after, k) implies #[trigger] map_of(after)[k] == f(
        map_of(before)[k],
    ) by {
        let j = place_of(after, k);
        lemma_map_at(after, j);
        lemma_map_at(before, j);
    }
    assert(map_of(after) =~= map_of(before).map_values(f));
}

impl<T> KeyedList<T> {
    #[verifier::type_invariant]
    spec fn no_key_twice(self) -> bool {
        distinct_keys(self.entries@)
    }

    /// The entries in the order in which their keys came.
    pub closed spec fn entries(self) -> Seq<(String, T)> {
        self.entries@
    }
}

impl<T: View> KeyedList<T> {

    /// The list as a map from keys to what the values stand for.
    pub open spec fn map(self) -> Map<Seq<char>, T::V> {
        map_of(self.entries())
    }

    /// An empty list.
    pub fn new() -> (list: KeyedList<T>)
        ensures
            list.entries() == Seq::<(String, T)>::empty(),
            list.map() == Map::<Seq<char>, T::V>::empty(),
    {
        let list = KeyedList { entries: Vec::new() };
        assert(list.map() =~= Map::<Seq<char>, T::V>::empty());
        list
    }

    /// The number of keys. No key is held twice.
    pub fn len(&self) -> (n: usize)
        ensures
            n == self.entries().len(),
            distinct_keys(self.entries()),
    {
        proof {
            use_type_invariant(self);
        }
        self.entries.len()
    }

    /// The place of `key`.
    pub fn position(&self, key: &String) -> (r: Option<usize>)
        ensures
            match r {
                Some(i) => i < self.entries().len() && self.entries()[i as int].0@ == key@
                    && self.map().dom().contains(key@) && self.map()[key@]
                    == self.entries()[i as int].1@,
                None => !has_key(self.entries(), key@) && !self.map().dom().contains(key@),
            },
    {
        proof {
            use_type_invariant(self);
        }
        let mut i: usize = 0;
        while i < self.entries.len()
            invariant
                i <= self.entries.len(),
                distinct_keys(self.entries@),
                forall|k: int| 0 <= k < i ==> (#[trigger] self.entries@[k]).0@ != key@,
            decreases self.entries.len() - i,
        {
            if self.entries[i].0 == *key {
                proof {
                    lemma_map_at(self.entries@, i as int);
                }
                return Some(i);
            }
            i += 1;
        }
        None
    }

    /// The value at place `i`.
    pub fn value_at(&self, i: usize) -> (v: &T)
        requires
            i < self.entries().len(),
        ensures
            *v == self.entries()[i as int].1,
    {
        &self.entries[i].1
    }

    /// Puts `value` in place of the value at place `i`.
    pub fn replace_at(&mut self, i: usize, value: T)
        requires
            i < old(self).entries().len(),
        ensures
            final(self).entries() == old(self).entries().update(
                i as int,
                (old(self).entries()[i as int].0, value),
            ),
            final(self).map() == old(self).map().insert(old(self).entries()[i as int].0@, value@),
    {
        proof {
            use_type_invariant(&*self);
        }
        let mut entries: Vec<(String, T)> = Vec::new();
        std::mem::swap(&mut self.entries, &mut entries);
        let (key, _) = entries.remove(i);
        entries.insert(i, (key, value));
        assert(entries@ =~= old(self).entries@.update(i as int, (key, value)));
        proof {
            lemma_map_update(old(self).entries@, i as int, value);
        }
        self.entries = entries;
    }

    /// Puts `value` in place of the value at place `i` and hands out the
    /// value that stood there.
    pub fn exchange_at(&mut self, i: usize, value: T) -> (former: T)
        requires
            i < old(self).entries().len(),
        ensures
            former == old(self).entries()[i as int].1,
            final(self).entries() == old(self).entries().update(
                i as int,
                (old(self).entries()[i as int].0, value),
            ),
            final(self).map() == old(self).map().insert(old(self).entries()[i as int].0@, value@),
    {
        proof {
            use_type_invariant(&*self);
        }
        let mut entries: Vec<(String, T)> = Vec::new();
        std::mem::swap(&mut self.entries, &mut entries);
        let (key, former) = entries.remove(i);
        entries.insert(i, (key, value));
        assert(entries@ =~= old(self).entries@.update(i as int, (key, value)));
        proof {
            lemma_map_update(old(self).entries@, i as int, value);
        }
        self.entries = entries;
        former
    }

    /// Adds `value` under `key`, which the list does not hold yet.
    pub fn push(&mut self, key: String, value: T)
        requires
            !has_key(old(self).entries(), key@),
        ensures
            final(self).entries() == old(self).entries().push((key, value)),
            final(self).map() == old(self).map().insert(key@, value@),
    {
        proof {
            use_type_invariant(&*self);
        }
        let mut entries: Vec<(String, T)> = Vec::new();
        std::mem::swap(&mut self.entries, &mut entries);
        entries.push((key, value));
        proof {
            lemma_map_push(old(self).entries@, key, value);
        }
        self.entries = entries;
    }
}

} // verus!
