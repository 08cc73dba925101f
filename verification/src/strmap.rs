use vstd::prelude::*;

verus! {

/// Text equality on string slices: `str::eq` compares the two slices character
/// by character, so it holds exactly when the two views are the same sequence.
pub assume_specification[ <str as PartialEq>::eq ](a: &str, b: &str) -> (same: bool)
    ensures
        same == (a@ == b@),
;

/// The map that a list of distinct keys and a list of values of the same
/// length stand for: each key is bound to the value at its own index.
pub open spec fn entries_map<V>(keys: Seq<Seq<char>>, vals: Seq<V>) -> Map<Seq<char>, V> {
    Map::new(|k: Seq<char>| keys.contains(k), |k: Seq<char>| vals[keys.index_of(k)])
}

/// In a list without duplicates, the index of an element is the only place
/// where it stands.
pub proof fn lemma_index_of_unique(keys: Seq<Seq<char>>, i: int)
    requires
        keys.no_duplicates(),
        0 <= i < keys.len(),
    ensures
        keys.contains(keys[i]),
        keys.index_of(keys[i]) == i,
{
    let j = keys.index_of(keys[i]);
    assert(0 <= j < keys.len() && keys[j] == keys[i]);
}

/// Binding a key that the list does not hold yet appends it.
pub proof fn lemma_entries_map_push<V>(keys: Seq<Seq<char>>, vals: Seq<V>, key: Seq<char>, value: V)
    requires
        keys.no_duplicates(),
        keys.len() == vals.len(),
        !keys.contains(key),
    ensures
        keys.push(key).no_duplicates(),
        entries_map(keys.push(key), vals.push(value)) == entries_map(keys, vals).insert(key, value),
{
    let keys2 = keys.push(key);
    let vals2 = vals.push(value);
    assert forall|i: int, j: int| 0 <= i < keys2.len() && 0 <= j < keys2.len() && i != j implies keys2[i]
        != keys2[j] by {
        if i < keys.len() && j < keys.len() {
        } else if i < keys.len() {
            assert(keys[i] == keys2[i]);
        } else {
            assert(keys[j] == keys2[j]);
        }
    }
    let before = entries_map(keys, vals).insert(key, value);
    let after = entries_map(keys2, vals2);
    assert forall|k: Seq<char>| after.dom().contains(k) <==> before.dom().contains(k) by {
        if keys2.contains(k) {
            let i = choose|i: int| 0 <= i < keys2.len() && keys2[i] == k;
            if i < keys.len() {
                assert(keys[i] == k);
            }
        }
        if keys.contains(k) {
            let i = choose|i: int| 0 <= i < keys.len() && keys[i] == k;
            assert(keys2[i] == k);
        }
        if k == key {
            assert(keys2[keys.len() as int] == k);
        }
    }
    assert forall|k: Seq<char>| after.dom().contains(k) implies after[k] == before[k] by {
        let i = keys2.index_of(k);
        assert(0 <= i < keys2.len() && keys2[i] == k);
        if i < keys.len() {
            assert(keys[i] == k);
            lemma_index_of_unique(keys, i);
        } else {
            assert(k == key);
        }
    }
    assert(after =~= before);
}

/// Rebinding the key at index `i` changes the value there and nothing else.
pub proof fn lemma_entries_map_update<V>(keys: Seq<Seq<char>>, vals: Seq<V>, i: int, value: V)
    requires
        keys.no_duplicates(),
        keys.len() == vals.len(),
        0 <= i < keys.len(),
    ensures
        entries_map(keys, vals.update(i, value)) == entries_map(keys, vals).insert(keys[i], value),
{
    let before = entries_map(keys, vals).insert(keys[i], value);
    let after = entries_map(keys, vals.update(i, value));
    lemma_index_of_unique(keys, i);
    assert forall|k: Seq<char>| after.dom().contains(k) implies after[k] == before[k] by {
        let j = keys.index_of(k);
        assert(0 <= j < keys.len() && keys[j] == k);
    }
    assert(after =~= before);
}

/// A finite map from text keys to values, kept as a list in the order in which
/// the keys were first bound.
#[derive(Debug)]
pub struct StrMap<V> {
    names: Vec<String>,
    values: Vec<V>,
}

impl<V> View for StrMap<V> {
    type V = Map<Seq<char>, V>;

    open spec fn view(&self) -> Map<Seq<char>, V> {
        entries_map(self.keys(), self.vals())
    }
}

impl<V> StrMap<V> {
    /// The keys, in the order in which they were first bound.
    pub closed spec fn keys(&self) -> Seq<Seq<char>> {
        Seq::new(self.names@.len(), |i: int| self.names@[i]@)
    }

    /// The values, each at the index of its key.
    pub closed spec fn vals(&self) -> Seq<V> {
        self.values@
    }

    /// No key stands twice, and every key has its value.
    pub open spec fn wf(&self) -> bool {
        &&& self.keys().len() == self.vals().len()
        &&& self.keys().no_duplicates()
    }

    /// The empty map.
    pub fn new() -> (m: Self)
        ensures
            m.wf(),
            m.keys() == Seq::<Seq<char>>::empty(),
            m.vals() == Seq::<V>::empty(),
            m@ == Map::<Seq<char>, V>::empty(),
    {
        let m = StrMap { names: Vec::new(), values: Vec::new() };
        assert(m.keys() =~= Seq::<Seq<char>>::empty());
        assert(m@ =~= Map::<Seq<char>, V>::empty());
        m
    }

    /// The number of keys.
    pub fn len(&self) -> (n: usize)
        requires
            self.wf(),
        ensures
            n == self.keys().len(),
            n == self.vals().len(),
    {
        self.names.len()
    }

    /// The key at index `i`.
    pub fn key_at(&self, i: usize) -> (k: &String)
        requires
            self.wf(),
            i < self.keys().len(),
        ensures
            k@ == self.keys()[i as int],
    {
        &self.names[i]
    }

    /// The value at index `i`.
    pub fn value_at(&self, i: usize) -> (v: &V)
        requires
            self.wf(),
            i < self.keys().len(),
        ensures
            *v == self.vals()[i as int],
    {
        &self.values[i]
    }

    /// The index at which `key` stands, if it is bound.
    pub fn position(&self, key: &str) -> (found: Option<usize>)
        requires
            self.wf(),
        ensures
            found is Some <==> self@.contains_key(key@),
            found is Some ==> found->0 < self.keys().len() && self.keys()[found->0 as int] == key@
                && self@[key@] == self.vals()[found->0 as int],
    {
        let mut i: usize = 0;
        while i < self.names.len()
            invariant
                self.wf(),
                i <= self.names@.len(),
                forall|j: int| 0 <= j < i ==> self.keys()[j] != key@,
            decreases self.names@.len() - i,
        {
            if self.names[i].as_str().eq(key) {
                proof {
                    lemma_index_of_unique(self.keys(), i as int);
                }
                return Some(i);
            }
            i += 1;
        }
        None
    }

    /// Whether `key` is bound.
    pub fn contains_key(&self, key: &str) -> (found: bool)
        requires
            self.wf(),
        ensures
            found == self@.contains_key(key@),
    {
        self.position(key).is_some()
    }

    /// The value that `key` is bound to, if any.
    pub fn get(&self, key: &str) -> (found: Option<&V>)
        requires
            self.wf(),
        ensures
            found is Some <==> self@.contains_key(key@),
            found is Some ==> *found->0 == self@[key@],
    {
        match self.position(key) {
            Some(i) => Some(&self.values[i]),
            None => None,
        }
    }

    /// Binds `key` to `value`. A key that was bound before keeps its place in
    /// the list; a new key goes to the end.
    pub fn insert(&mut self, key: String, value: V)
        requires
            old(self).wf(),
        ensures
            final(self).wf(),
            final(self)@ == old(self)@.insert(key@, value),
            old(self)@.contains_key(key@) ==> final(self).keys() == old(self).keys()
                && final(self).vals() == old(self).vals().update(
                old(self).keys().index_of(key@),
                value,
            ),
            !old(self)@.contains_key(key@) ==> final(self).keys() == old(self).keys().push(key@)
                && final(self).vals() == old(self).vals().push(value),
    {
        match self.position(key.as_str()) {
            Some(i) => {
                proof {
                    lemma_index_of_unique(self.keys(), i as int);
                    lemma_entries_map_update(self.keys(), self.vals(), i as int, value);
                }
                self.values[i] = value;
                assert(self.keys() =~= old(self).keys());
            },
            None => {
                proof {
                    lemma_entries_map_push(self.keys(), self.vals(), key@, value);
                }
                self.names.push(key);
                self.values.push(value);
                assert(self.keys() =~= old(self).keys().push(key@));
            },
        }
    }

    /// Replaces the value at index `i`.
    pub fn set_value_at(&mut self, i: usize, value: V)
        requires
            old(self).wf(),
            i < old(self).keys().len(),
        ensures
            final(self).wf(),
            final(self).keys() == old(self).keys(),
            final(self).vals() == old(self).vals().update(i as int, value),
            final(self)@ == old(self)@.insert(old(self).keys()[i as int], value),
    {
        proof {
            lemma_entries_map_update(self.keys(), self.vals(), i as int, value);
        }
        self.values[i] = value;
        assert(self.keys() =~= old(self).keys());
    }

    /// Exchanges the value at index `i` with `value`.
    pub fn swap_value_at(&mut self, i: usize, value: &mut V)
        requires
            old(self).wf(),
            i < old(self).keys().len(),
        ensures
            final(self).wf(),
            final(self).keys() == old(self).keys(),
            final(self).vals() == old(self).vals().update(i as int, *old(value)),
            final(self)@ == old(self)@.insert(old(self).keys()[i as int], *old(value)),
            *final(value) == old(self).vals()[i as int],
    {
        proof {
            lemma_entries_map_update(self.keys(), self.vals(), i as int, *value);
        }
        core::mem::swap(&mut self.values[i], value);
        assert(self.keys() =~= old(self).keys());
    }

    /// Removes every binding.
    pub fn clear(&mut self)
        ensures
            final(self).wf(),
            final(self).keys() == Seq::<Seq<char>>::empty(),
            final(self).vals() == Seq::<V>::empty(),
            final(self)@ == Map::<Seq<char>, V>::empty(),
    {
        self.names.clear();
        self.values.clear();
        assert(self.keys() =~= Seq::<Seq<char>>::empty());
        assert(self@ =~= Map::<Seq<char>, V>::empty());
    }
}

} // verus!
