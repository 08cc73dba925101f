use crate::labels::Labels;
use crate::strmap::lemma_index_of_unique;
use vstd::prelude::*;

verus! {

/// The query key that stands for the name of the item itself.
pub open spec fn name_key() -> Seq<char> {
    "__name__"@
}

/// Whether an item with the given name and labels meets one entry of a query.
/// Under the key `__name__` the wanted text is held against the name, under
/// any other key against the label of that name, which must exist. An empty
/// wanted text accepts any name and any value.
pub open spec fn entry_matches(
    name: Seq<char>,
    labels: Map<Seq<char>, Seq<char>>,
    key: Seq<char>,
    wanted: Seq<char>,
) -> bool {
    if key == name_key() {
        wanted.len() == 0 || name == wanted
    } else {
        labels.contains_key(key) && (wanted.len() == 0 || labels[key] == wanted)
    }
}

/// Whether an item meets every entry of a query.
pub open spec fn query_matches(
    name: Seq<char>,
    labels: Map<Seq<char>, Seq<char>>,
    query: Map<Seq<char>, Seq<char>>,
) -> bool {
    forall|k: Seq<char>| query.contains_key(k) ==> entry_matches(name, labels, k, query[k])
}

/// The empty query accepts every item.
pub proof fn lemma_empty_query_matches(name: Seq<char>, labels: Map<Seq<char>, Seq<char>>)
    ensures
        query_matches(name, labels, Map::<Seq<char>, Seq<char>>::empty()),
{
}

/// Decides `query_matches` by exact comparison of text.
pub fn matches_query(name: &str, labels: &Labels, query: &Labels) -> (ok: bool)
    requires
        labels.wf(),
        query.wf(),
    ensures
        ok == query_matches(name@, labels.text(), query.text()),
{
    let n = query.len();
    let mut i: usize = 0;
    while i < n
        invariant
            labels.wf(),
            query.wf(),
            n == query.keys().len(),
            i <= n,
            forall|j: int|
                0 <= j < i ==> entry_matches(
                    name@,
                    labels.text(),
                    #[trigger] query.keys()[j],
                    query.val_texts()[j],
                ),
        decreases n - i,
    {
        let key = query.key_at(i).as_str();
        let wanted = query.value_at(i).as_str();
        proof {
            lemma_index_of_unique(query.keys(), i as int);
            assert(query.text().contains_key(key@) && query.text()[key@] == wanted@);
        }
        if key.eq("__name__") {
            if !wanted.is_empty() && !name.eq(wanted) {
                assert(!entry_matches(name@, labels.text(), key@, wanted@));
                return false;
            }
        } else {
            match labels.get_text(key) {
                Some(value) => {
                    if !wanted.is_empty() && !value.eq(wanted) {
                        assert(!entry_matches(name@, labels.text(), key@, wanted@));
                        return false;
                    }
                },
                None => {
                    assert(!entry_matches(name@, labels.text(), key@, wanted@));
                    return false;
                },
            }
        }
        i += 1;
    }
    proof {
        assert forall|k: Seq<char>| query.text().contains_key(k) implies entry_matches(
            name@,
            labels.text(),
            k,
            query.text()[k],
        ) by {
            let j = query.keys().index_of(k);
            assert(0 <= j < n && query.keys()[j] == k);
        }
    }
    true
}

} // verus!
