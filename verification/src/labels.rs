use crate::strmap::{entries_map, lemma_entries_map_push, lemma_entries_map_update, lemma_index_of_unique, StrMap};
use vstd::prelude::*;

verus! {

/// A set of labels: a map from label name to label value, both text.
pub type Labels = StrMap<String>;

/// The domain of the map of a key list is the set of the keys, and its size is
/// their number.
pub proof fn lemma_entries_dom<V>(keys: Seq<Seq<char>>, vals: Seq<V>)
    requires
        keys.no_duplicates(),
    ensures
        entries_map(keys, vals).dom() == keys.to_set(),
        keys.to_set().finite(),
        keys.to_set().len() == keys.len(),
{
    vstd::seq_lib::seq_to_set_is_finite(keys);
    keys.unique_seq_to_set();
    assert(entries_map(keys, vals).dom() =~= keys.to_set());
}

impl StrMap<String> {
    /// The values as text, each at the index of its key.
    pub open spec fn val_texts(&self) -> Seq<Seq<char>> {
        Seq::new(self.vals().len(), |i: int| self.vals()[i]@)
    }

    /// The map as text: each key with the characters of its value.
    pub open spec fn text(&self) -> Map<Seq<char>, Seq<char>> {
        entries_map(self.keys(), self.val_texts())
    }

    /// The value of `key` as text, if the key is bound.
    pub fn get_text(&self, key: &str) -> (found: Option<&str>)
        requires
            self.wf(),
        ensures
            found is Some <==> self.text().contains_key(key@),
            found is Some ==> found->0@ == self.text()[key@],
    {
        match self.position(key) {
            Some(i) => {
                proof {
                    lemma_index_of_unique(self.keys(), i as int);
                }
                Some(self.value_at(i).as_str())
            },
            None => None,
        }
    }

    /// Binds `key` to `value`, as `insert` does, stated over the text.
    pub fn set(&mut self, key: String, value: String)
        requires
            old(self).wf(),
        ensures
            final(self).wf(),
            final(self).text() == old(self).text().insert(key@, value@),
            old(self).text().contains_key(key@) ==> final(self).keys() == old(self).keys(),
            !old(self).text().contains_key(key@) ==> final(self).keys() == old(self).keys().push(
                key@,
            ),
    {
        proof {
            if self@.contains_key(key@) {
                let i = self.keys().index_of(key@);
                assert(0 <= i < self.keys().len() && self.keys()[i] == key@);
                lemma_entries_map_update(self.keys(), self.val_texts(), i, value@);
                assert(self.vals().update(i, value).len() == self.vals().len());
                assert(Seq::new(
                    self.vals().len(),
                    |j: int| self.vals().update(i, value)[j]@,
                ) =~= self.val_texts().update(i, value@));
            } else {
                lemma_entries_map_push(self.keys(), self.val_texts(), key@, value@);
                assert(Seq::new(
                    self.vals().push(value).len(),
                    |j: int| self.vals().push(value)[j]@,
                ) =~= self.val_texts().push(value@));
            }
        }
        self.insert(key, value);
    }

    /// A copy with the same keys in the same order and the same text.
    pub fn duplicate(&self) -> (out: Self)
        requires
            self.wf(),
        ensures
            out.wf(),
            out.keys() == self.keys(),
            out.val_texts() == self.val_texts(),
            out.text() == self.text(),
    {
        let mut out: StrMap<String> = StrMap::new();
        let n = self.len();
        let mut i: usize = 0;
        while i < n
            invariant
                self.wf(),
                out.wf(),
                n == self.keys().len(),
                i <= n,
                out.keys() == self.keys().take(i as int),
                out.val_texts() == self.val_texts().take(i as int),
            decreases n - i,
        {
            let key = self.key_at(i).clone();
            let value = self.value_at(i).clone();
            proof {
                assert(!self.keys().take(i as int).contains(self.keys()[i as int]));
                assert(self.keys().take(i as int + 1) =~= self.keys().take(i as int).push(
                    self.keys()[i as int],
                ));
            }
            let ghost texts_before = out.val_texts();
            out.insert(key, value);
            proof {
                assert(out.val_texts() =~= texts_before.push(value@));
                assert(self.val_texts().take(i as int + 1) =~= self.val_texts().take(i as int).push(
                    self.val_texts()[i as int],
                ));
            }
            i += 1;
        }
        proof {
            assert(self.keys().take(n as int) =~= self.keys());
            assert(self.val_texts().take(n as int) =~= self.val_texts());
        }
        out
    }

    /// Whether two maps hold the same keys with the same text, whatever the
    /// order of their lists.
    pub fn same_text(&self, other: &StrMap<String>) -> (same: bool)
        requires
            self.wf(),
            other.wf(),
        ensures
            same == (self.text() == other.text()),
    {
        proof {
            lemma_entries_dom(self.keys(), self.val_texts());
            lemma_entries_dom(other.keys(), other.val_texts());
        }
        let n = self.len();
        if n != other.len() {
            return false;
        }
        let mut i: usize = 0;
        while i < n
            invariant
                self.wf(),
                other.wf(),
                n == self.keys().len(),
                i <= n,
                forall|j: int|
                    0 <= j < i ==> other.text().contains_key(#[trigger] self.keys()[j])
                        && other.text()[self.keys()[j]] == self.val_texts()[j],
            decreases n - i,
        {
            proof {
                lemma_index_of_unique(self.keys(), i as int);
            }
            match other.get_text(self.key_at(i).as_str()) {
                Some(theirs) => {
                    if !theirs.eq(self.value_at(i).as_str()) {
                        assert(self.text()[self.keys()[i as int]] != other.text()[self.keys()[i as int]]);
                        return false;
                    }
                },
                None => {
                    assert(self.text().contains_key(self.keys()[i as int]));
                    return false;
                },
            }
            i += 1;
        }
        proof {
            assert(self.text().dom().subset_of(other.text().dom())) by {
                assert forall|k: Seq<char>| self.text().dom().contains(k) implies other.text().dom().contains(
                    k,
                ) by {
                    let j = self.keys().index_of(k);
                    assert(0 <= j < n && self.keys()[j] == k);
                }
            }
            vstd::set_lib::lemma_subset_equality(self.text().dom(), other.text().dom());
            assert forall|k: Seq<char>| self.text().dom().contains(k) implies self.text()[k]
                == other.text()[k] by {
                let j = self.keys().index_of(k);
                assert(0 <= j < n && self.keys()[j] == k);
            }
            assert(self.text() =~= other.text());
        }
        true
    }

    /// Binds every key of `other` here to the value it has there; keys that
    /// only this map holds keep their values.
    pub fn extend_with(&mut self, other: &StrMap<String>)
        requires
            old(self).wf(),
            other.wf(),
        ensures
            final(self).wf(),
            final(self).text() == old(self).text().union_prefer_right(other.text()),
    {
        let n = other.len();
        let mut i: usize = 0;
        assert(other.keys().take(0) =~= Seq::<Seq<char>>::empty());
        assert(self.text() =~= old(self).text().union_prefer_right(
            entries_map(other.keys().take(0), other.val_texts().take(0)),
        ));
        while i < n
            invariant
                self.wf(),
                other.wf(),
                n == other.keys().len(),
                i <= n,
                self.text() == old(self).text().union_prefer_right(
                    entries_map(other.keys().take(i as int), other.val_texts().take(i as int)),
                ),
            decreases n - i,
        {
            let key = other.key_at(i).clone();
            let value = other.value_at(i).clone();
            proof {
                let keys_before = other.keys().take(i as int);
                let texts_before = other.val_texts().take(i as int);
                assert(!keys_before.contains(other.keys()[i as int]));
                assert(other.keys().take(i as int + 1) =~= keys_before.push(other.keys()[i as int]));
                assert(other.val_texts().take(i as int + 1) =~= texts_before.push(
                    other.val_texts()[i as int],
                ));
                lemma_entries_map_push(keys_before, texts_before, key@, value@);
                assert(old(self).text().union_prefer_right(
                    entries_map(keys_before, texts_before),
                ).insert(key@, value@) =~= old(self).text().union_prefer_right(
                    entries_map(keys_before, texts_before).insert(key@, value@),
                ));
            }
            self.set(key, value);
            i += 1;
        }
        proof {
            assert(other.keys().take(n as int) =~= other.keys());
            assert(other.val_texts().take(n as int) =~= other.val_texts());
        }
    }
}

} // verus!
