use crate::strmap::{entries_map, lemma_entries_map_push, StrMap};
use vstd::prelude::*;

verus! {

/// The sum of a list of counts.
pub open spec fn sum(vals: Seq<u64>) -> nat
    decreases vals.len(),
{
    if vals.len() == 0 {
        0
    } else {
        sum(vals.drop_last()) + vals.last() as nat
    }
}

/// The count that a map of counters holds for `key`: zero where the key is
/// not bound.
pub open spec fn count_in(m: Map<Seq<char>, u64>, key: Seq<char>) -> nat {
    if m.contains_key(key) {
        m[key] as nat
    } else {
        0
    }
}

/// The keys of a list and those of another list that the first does not
/// hold, in the order in which they first stand.
pub open spec fn merged_keys(keys: Seq<Seq<char>>, more: Seq<Seq<char>>) -> Seq<Seq<char>>
    decreases more.len(),
{
    if more.len() == 0 {
        keys
    } else {
        let merged = merged_keys(keys, more.drop_last());
        if merged.contains(more.last()) {
            merged
        } else {
            merged.push(more.last())
        }
    }
}

/// Appending a count adds it to the sum.
pub proof fn lemma_sum_push(vals: Seq<u64>, v: u64)
    ensures
        sum(vals.push(v)) == sum(vals) + v,
{
    assert(vals.push(v).drop_last() =~= vals);
}

/// Replacing one count changes the sum by the difference.
pub proof fn lemma_sum_update(vals: Seq<u64>, i: int, v: u64)
    requires
        0 <= i < vals.len(),
    ensures
        sum(vals.update(i, v)) + vals[i] == sum(vals) + v,
        vals[i] <= sum(vals),
    decreases vals.len(),
{
    let last = vals.len() - 1;
    if i == last {
        assert(vals.update(i, v).drop_last() =~= vals.drop_last());
    } else {
        lemma_sum_update(vals.drop_last(), i, v);
        assert(vals.update(i, v).drop_last() =~= vals.drop_last().update(i, v));
    }
}

/// The sum of a list that is cut one element later.
pub proof fn lemma_sum_take_next(vals: Seq<u64>, i: int)
    requires
        0 <= i < vals.len(),
    ensures
        sum(vals.take(i + 1)) == sum(vals.take(i)) + vals[i],
{
    assert(vals.take(i + 1).drop_last() =~= vals.take(i));
}

impl StrMap<u64> {
    /// The sum of all the counts.
    pub open spec fn total(&self) -> nat {
        sum(self.vals())
    }

    /// The count held for `key`, zero where there is none.
    pub open spec fn count_of(&self, key: Seq<char>) -> nat {
        count_in(self@, key)
    }

    /// Adds `by` to the count of `key`, which starts at zero.
    pub fn add_count(&mut self, key: &str, by: u64)
        requires
            old(self).wf(),
            old(self).total() + by <= u64::MAX,
        ensures
            final(self).wf(),
            final(self)@ == old(self)@.insert(key@, (old(self).count_of(key@) + by) as u64),
            final(self).count_of(key@) == old(self).count_of(key@) + by,
            forall|k: Seq<char>| k != key@ ==> final(self).count_of(k) == old(self).count_of(k),
            final(self).total() == old(self).total() + by,
            old(self)@.contains_key(key@) ==> final(self).keys() == old(self).keys(),
            !old(self)@.contains_key(key@) ==> final(self).keys() == old(self).keys().push(key@),
    {
        match self.position(key) {
            Some(i) => {
                let current: u64 = *self.value_at(i);
                proof {
                    lemma_sum_update(self.vals(), i as int, (current + by) as u64);
                }
                self.set_value_at(i, current + by);
            },
            None => {
                proof {
                    lemma_sum_push(self.vals(), by);
                }
                self.insert(key.to_owned(), by);
            },
        }
    }

    /// Adds every count of `other` to the count of the same key here.
    pub fn add_all(&mut self, other: &StrMap<u64>)
        requires
            old(self).wf(),
            other.wf(),
            old(self).total() + other.total() <= u64::MAX,
        ensures
            final(self).wf(),
            forall|k: Seq<char>| #[trigger]
                final(self).count_of(k) == old(self).count_of(k) + other.count_of(k),
            forall|k: Seq<char>| #[trigger]
                final(self)@.contains_key(k) <==> old(self)@.contains_key(k) || other@.contains_key(
                    k,
                ),
            final(self).total() == old(self).total() + other.total(),
            final(self).keys() == merged_keys(old(self).keys(), other.keys()),
    {
        let n = other.len();
        let mut i: usize = 0;
        assert(other.keys().take(0) =~= Seq::<Seq<char>>::empty());
        assert(other.vals().take(0) =~= Seq::<u64>::empty());
        while i < n
            invariant
                self.wf(),
                other.wf(),
                n == other.keys().len(),
                i <= n,
                old(self).total() + other.total() <= u64::MAX,
                self.total() == old(self).total() + sum(other.vals().take(i as int)),
                self.keys() == merged_keys(old(self).keys(), other.keys().take(i as int)),
                sum(other.vals().take(i as int)) <= other.total(),
                forall|k: Seq<char>| #[trigger]
                    self.count_of(k) == old(self).count_of(k) + count_in(
                        entries_map(other.keys().take(i as int), other.vals().take(i as int)),
                        k,
                    ),
                forall|k: Seq<char>| #[trigger]
                    self@.contains_key(k) <==> old(self)@.contains_key(k) || other.keys().take(
                        i as int,
                    ).contains(k),
            decreases n - i,
        {
            let ghost keys_before = other.keys().take(i as int);
            let ghost vals_before = other.vals().take(i as int);
            let ghost before = *self;
            proof {
                lemma_sum_take_next(other.vals(), i as int);
                lemma_sum_prefix_le(other.vals(), i as int + 1);
                assert(other.keys().take(i as int + 1).drop_last() =~= other.keys().take(i as int));
                assert(other.keys().take(i as int + 1) =~= keys_before.push(other.keys()[i as int]));
                assert(other.vals().take(i as int + 1) =~= vals_before.push(other.vals()[i as int]));
                assert(!keys_before.contains(other.keys()[i as int]));
                assert(keys_before.no_duplicates());
                lemma_entries_map_push(
                    keys_before,
                    vals_before,
                    other.keys()[i as int],
                    other.vals()[i as int],
                );
            }
            self.add_count(other.key_at(i).as_str(), *other.value_at(i));
            proof {
                let key = other.keys()[i as int];
                assert forall|k: Seq<char>| #[trigger]
                    self.count_of(k) == old(self).count_of(k) + count_in(
                        entries_map(
                            other.keys().take(i as int + 1),
                            other.vals().take(i as int + 1),
                        ),
                        k,
                    ) by {
                    if k != key {
                        assert(self.count_of(k) == before.count_of(k));
                    }
                }
                assert forall|k: Seq<char>| #[trigger]
                    self@.contains_key(k) <==> old(self)@.contains_key(k) || other.keys().take(
                        i as int + 1,
                    ).contains(k) by {
                    let next = keys_before.push(key);
                    if keys_before.contains(k) {
                        let j = choose|j: int| 0 <= j < keys_before.len() && keys_before[j] == k;
                        assert(next[j] == k);
                    }
                    if k == key {
                        assert(next[i as int] == k);
                    }
                }
            }
            i += 1;
        }
        proof {
            assert(other.keys().take(n as int) =~= other.keys());
            assert(other.vals().take(n as int) =~= other.vals());
        }
    }
}

/// The sum of a prefix is at most the sum of the whole list.
pub proof fn lemma_sum_prefix_le(vals: Seq<u64>, i: int)
    requires
        0 <= i <= vals.len(),
    ensures
        sum(vals.take(i)) <= sum(vals),
    decreases vals.len() - i,
{
    if i < vals.len() {
        lemma_sum_take_next(vals, i);
        lemma_sum_prefix_le(vals, i + 1);
    } else {
        assert(vals.take(i) =~= vals);
    }
}

} // verus!
