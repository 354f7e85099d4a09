//! A map from names to values that keeps its entries in a vector.

use vstd::prelude::*;

verus! {

/// Whether no two entries of `es` have the same key.
pub open spec fn distinct_keys<V>(es: Seq<(String, V)>) -> bool {
    forall|i: int, j: int|
        0 <= i < es.len() && 0 <= j < es.len() && i != j ==> (#[trigger] es[i]).0@ != (
        #[trigger] es[j]).0@
}

/// Whether some entry of `es` has the key `k`.
pub open spec fn has_key<V>(es: Seq<(String, V)>, k: Seq<char>) -> bool {
    exists|i: int| 0 <= i < es.len() && (#[trigger] es[i]).0@ == k
}

/// The index of an entry of `es` with the key `k`.
pub open spec fn index_of<V>(es: Seq<(String, V)>, k: Seq<char>) -> int {
    choose|i: int| 0 <= i < es.len() && (#[trigger] es[i]).0@ == k
}

/// The map that the entries `es` stand for.
pub open spec fn entries_map<V>(es: Seq<(String, V)>) -> Map<Seq<char>, V> {
    Map::new(|k: Seq<char>| has_key(es, k), |k: Seq<char>| es[index_of(es, k)].1)
}

/// With distinct keys, each entry is what the map holds under its key.
pub proof fn lemma_entry_in_map<V>(es: Seq<(String, V)>, i: int)
    requires
        distinct_keys(es),
        0 <= i < es.len(),
    ensures
        entries_map(es).contains_key(es[i].0@),
        entries_map(es)[es[i].0@] == es[i].1,
{
    let k = es[i].0@;
    assert(has_key(es, k));
    let j = index_of(es, k);
    assert(j == i);
}

/// Adding an entry under a new key inserts it into the map.
pub proof fn lemma_push_entry<V>(es: Seq<(String, V)>, key: String, value: V)
    requires
        distinct_keys(es),
        !has_key(es, key@),
    ensures
        distinct_keys(es.push((key, value))),
        entries_map(es.push((key, value))) == entries_map(es).insert(key@, value),
{
    let es2 = es.push((key, value));
    assert forall|i: int, j: int| 0 <= i < es2.len() && 0 <= j < es2.len() && i != j implies (
    #[trigger] es2[i]).0@ != (#[trigger] es2[j]).0@ by {
        if i < es.len() && j < es.len() {
            assert(es[i].0@ != es[j].0@);
        } else if i < es.len() {
            assert(es[i].0@ != key@);
        } else {
            assert(es[j].0@ != key@);
        }
    }
    let m2 = entries_map(es2);
    let m = entries_map(es).insert(key@, value);
    assert forall|k: Seq<char>| m2.contains_key(k) <==> m.contains_key(k) by {
        if has_key(es2, k) {
            let i = index_of(es2, k);
            if i < es.len() {
                assert(es[i].0@ == k);
            }
        }
        if has_key(es, k) {
            let i = index_of(es, k);
            assert(es2[i].0@ == k);
        }
        if k == key@ {
            assert(es2[es.len() as int].0@ == k);
        }
    }
    assert forall|k: Seq<char>| m2.contains_key(k) implies m2[k] == m[k] by {
        let i = index_of(es2, k);
        lemma_entry_in_map(es2, i);
        if i < es.len() {
            lemma_entry_in_map(es, i);
        }
    }
    assert(m2 =~= m);
}

/// Replacing the value of an entry, under a key that reads the same,
/// inserts the new value into the map.
pub proof fn lemma_replace_entry<V>(es: Seq<(String, V)>, i: int, key: String, value: V)
    requires
        distinct_keys(es),
        0 <= i < es.len(),
        es[i].0@ == key@,
    ensures
        distinct_keys(es.update(i, (key, value))),
        entries_map(es.update(i, (key, value))) == entries_map(es).insert(key@, value),
{
    let es2 = es.update(i, (key, value));
    assert forall|a: int, b: int| 0 <= a < es2.len() && 0 <= b < es2.len() && a != b implies (
    #[trigger] es2[a]).0@ != (#[trigger] es2[b]).0@ by {
        assert(es[a].0@ != es[b].0@);
    }
    let m2 = entries_map(es2);
    let m = entries_map(es).insert(key@, value);
    assert forall|k: Seq<char>| m2.contains_key(k) <==> m.contains_key(k) by {
        if has_key(es2, k) {
            let j = index_of(es2, k);
            assert(es[j].0@ == k);
        }
        if has_key(es, k) {
            let j = index_of(es, k);
            assert(es2[j].0@ == k);
        }
        if k == key@ {
            assert(es2[i].0@ == k);
        }
    }
    assert forall|k: Seq<char>| m2.contains_key(k) implies m2[k] == m[k] by {
        let j = index_of(es2, k);
        lemma_entry_in_map(es2, j);
        if j != i {
            lemma_entry_in_map(es, j);
        }
    }
    assert(m2 =~= m);
}

/// With distinct keys, the map has as many keys as there are entries.
pub proof fn lemma_map_len<V>(es: Seq<(String, V)>)
    requires
        distinct_keys(es),
    ensures
        entries_map(es).dom().finite(),
        entries_map(es).dom().len() == es.len(),
    decreases es.len(),
{
    if es.len() == 0 {
        assert(entries_map(es).dom() =~= Set::<Seq<char>>::empty());
    } else {
        let front = es.drop_last();
        let last = es.last();
        assert forall|i: int, j: int|
            0 <= i < front.len() && 0 <= j < front.len() && i != j implies (
        #[trigger] front[i]).0@ != (#[trigger] front[j]).0@ by {
            assert(es[i].0@ != es[j].0@);
        }
        lemma_map_len(front);
        if has_key(front, last.0@) {
            let i = index_of(front, last.0@);
            assert(es[i].0@ == es[es.len() - 1].0@);
        }
        assert(es == front.push(last));
        lemma_push_entry(front, last.0, last.1);
        assert(entries_map(es).dom() =~= entries_map(front).dom().insert(last.0@));
    }
}

/// A map from names to values. Each name occurs once; a later insertion
/// under a name replaces what the name stood for.
#[derive(Debug)]
pub struct NameMap<V> {
    entries: Vec<(String, V)>,
}

impl<V> View for NameMap<V> {
    type V = Map<Seq<char>, V>;

    closed spec fn view(&self) -> Map<Seq<char>, V> {
        entries_map(self.entries@)
    }
}

impl<V> NameMap<V> {
    #[verifier::type_invariant]
    spec fn well_formed(&self) -> bool {
        distinct_keys(self.entries@)
    }

    /// The map without entries.
    pub fn new() -> (m: Self)
        ensures
            m@ == Map::<Seq<char>, V>::empty(),
    {
        let m = NameMap { entries: Vec::new() };
        assert(m@ =~= Map::<Seq<char>, V>::empty());
        m
    }

    /// The number of names in the map.
    pub fn len(&self) -> (n: usize)
        ensures
            self@.dom().finite(),
            n == self@.dom().len(),
    {
        proof {
            use_type_invariant(self);
            lemma_map_len(self.entries@);
        }
        self.entries.len()
    }

    /// The position of the entry for `key`, or the number of entries where
    /// there is none.
    fn position(&self, key: &String) -> (i: usize)
        ensures
            i <= self.entries@.len(),
            i < self.entries@.len() ==> self.entries@[i as int].0@ == key@,
            i == self.entries@.len() ==> !has_key(self.entries@, key@),
    {
        let mut i: usize = 0;
        while i < self.entries.len()
            invariant
                i <= self.entries@.len(),
                forall|j: int| 0 <= j < i ==> (#[trigger] self.entries@[j]).0@ != key@,
            decreases self.entries@.len() - i,
        {
            if self.entries[i].0 == *key {
                return i;
            }
            i = i + 1;
        }
        i
    }

    /// Whether the map holds a value under `key`.
    pub fn contains_key(&self, key: &str) -> (b: bool)
        ensures
            b == self@.contains_key(key@),
    {
        let owned = key.to_owned();
        let i = self.position(&owned);
        i < self.entries.len()
    }

    /// The value under `key`, if there is one.
    pub fn get(&self, key: &str) -> (r: Option<&V>)
        ensures
            r is Some == self@.contains_key(key@),
            r is Some ==> *r->Some_0 == self@[key@],
    {
        let owned = key.to_owned();
        let i = self.position(&owned);
        if i < self.entries.len() {
            proof {
                use_type_invariant(self);
                lemma_entry_in_map(self.entries@, i as int);
            }
            Some(&self.entries[i].1)
        } else {
            None
        }
    }

    /// The names in the map, each once, in no order that callers may rely
    /// on.
    pub fn keys(&self) -> (names: Vec<&str>)
        ensures
            self@.dom().finite(),
            names@.len() == self@.dom().len(),
            forall|i: int| 0 <= i < names@.len() ==> self@.contains_key(#[trigger] names@[i]@),
            forall|k: Seq<char>|
                self@.contains_key(k) ==> exists|i: int|
                    0 <= i < names@.len() && (#[trigger] names@[i])@ == k,
            forall|i: int, j: int|
                0 <= i < names@.len() && 0 <= j < names@.len() && i != j ==> (#[trigger] names@[i])@
                    != (#[trigger] names@[j])@,
    {
        proof {
            use_type_invariant(self);
            lemma_map_len(self.entries@);
        }
        let mut names: Vec<&str> = Vec::new();
        let mut i: usize = 0;
        while i < self.entries.len()
            invariant
                i <= self.entries@.len(),
                names@.len() == i,
                forall|j: int| 0 <= j < i ==> (#[trigger] names@[j])@ == self.entries@[j].0@,
            decreases self.entries@.len() - i,
        {
            names.push(self.entries[i].0.as_str());
            i = i + 1;
        }
        proof {
            assert forall|j: int| 0 <= j < names@.len() implies self@.contains_key(
                #[trigger] names@[j]@,
            ) by {
                lemma_entry_in_map(self.entries@, j);
            }
            assert forall|k: Seq<char>| self@.contains_key(k) implies exists|j: int|
                0 <= j < names@.len() && (#[trigger] names@[j])@ == k by {
                let j = index_of(self.entries@, k);
                assert(names@[j]@ == k);
            }
            assert forall|a: int, b: int|
                0 <= a < names@.len() && 0 <= b < names@.len() && a != b implies (
            #[trigger] names@[a])@ != (#[trigger] names@[b])@ by {
                assert(self.entries@[a].0@ != self.entries@[b].0@);
            }
        }
        names
    }

    /// Puts `value` under `key`, in place of what was there before.
    pub fn insert(&mut self, key: String, value: V)
        ensures
            final(self)@ == old(self)@.insert(key@, value),
    {
        proof {
            use_type_invariant(&*self);
        }
        let i = self.position(&key);
        proof {
            if i < self.entries@.len() {
                lemma_replace_entry(self.entries@, i as int, key, value);
            } else {
                lemma_push_entry(self.entries@, key, value);
            }
        }
        let mut entries: Vec<(String, V)> = Vec::new();
        core::mem::swap(&mut self.entries, &mut entries);
        if i < entries.len() {
            entries.set(i, (key, value));
        } else {
            entries.push((key, value));
        }
        core::mem::swap(&mut self.entries, &mut entries);
    }
}

} // verus!
