use crate::counters::sum;
use crate::sample::{SampleSet, SampleView};
use crate::strmap::StrMap;
use vstd::prelude::*;
use vstd::string::*;

verus! {

/// What one request's worth of metric lines comes to.
#[derive(Debug)]
pub struct MetricsHandleResult {
    /// How many metrics were named.
    pub metrics_count: u64,
    /// How often each metric was named.
    pub metrics_list: StrMap<u64>,
    /// How many lines each remote address sent.
    pub metrics_ip_list: StrMap<u64>,
    /// The samples to store.
    pub metrics_samples: SampleSet,
}

/// How often `name` stands in `names`.
pub open spec fn occurrences(names: Seq<Seq<char>>, name: Seq<char>) -> nat
    decreases names.len(),
{
    if names.len() == 0 {
        0
    } else {
        occurrences(names.drop_last(), name) + if names.last() == name {
            1nat
        } else {
            0nat
        }
    }
}

/// The names that a list of lines gives, in order: a line gives one name or
/// none.
pub open spec fn named(names: Seq<Option<Seq<char>>>) -> Seq<Seq<char>>
    decreases names.len(),
{
    if names.len() == 0 {
        Seq::empty()
    } else {
        match names.last() {
            Some(name) => named(names.drop_last()).push(name),
            None => named(names.drop_last()),
        }
    }
}

/// The different names of a list, in the order in which they first stand.
pub open spec fn distinct(names: Seq<Seq<char>>) -> Seq<Seq<char>> {
    crate::counters::merged_keys(Seq::empty(), names)
}

/// The counters by address after `n` lines from one address.
pub open spec fn address_counts(address: Seq<char>, n: nat) -> Map<Seq<char>, u64> {
    if n == 0 {
        Map::empty()
    } else {
        Map::empty().insert(address, n as u64)
    }
}

/// A name occurs in a list exactly if it is counted there at least once.
pub proof fn lemma_occurrences_contains(names: Seq<Seq<char>>, name: Seq<char>)
    ensures
        occurrences(names, name) > 0 <==> names.contains(name),
        occurrences(names, name) <= names.len(),
    decreases names.len(),
{
    if names.len() > 0 {
        let rest = names.drop_last();
        lemma_occurrences_contains(rest, name);
        if rest.contains(name) {
            let i = choose|i: int| 0 <= i < rest.len() && rest[i] == name;
            assert(names[i] == name);
        }
        if names.contains(name) {
            let i = choose|i: int| 0 <= i < names.len() && names[i] == name;
            if i < rest.len() {
                assert(rest[i] == name);
            }
        }
        if names.last() == name {
            assert(names[names.len() - 1] == name);
        }
    }
}

impl MetricsHandleResult {
    /// The count of metrics is the sum of the counts by name, and the parts
    /// are well formed.
    pub open spec fn wf(&self) -> bool {
        &&& self.metrics_list.wf()
        &&& self.metrics_ip_list.wf()
        &&& self.metrics_samples.wf()
        &&& self.metrics_count == self.metrics_list.total()
    }

    /// Every line that was counted for an address named a metric: the counts
    /// by address add up to the count of metrics too.
    pub open spec fn balanced(&self) -> bool {
        self.metrics_ip_list.total() == self.metrics_count
    }

    /// Whether the counters are those of lines that gave `names`, all sent
    /// from `address`. With `every_line` the address is counted for each line,
    /// else only for the lines that gave a name.
    pub open spec fn counts(
        &self,
        names: Seq<Option<Seq<char>>>,
        address: Seq<char>,
        every_line: bool,
    ) -> bool {
        &&& self.metrics_count == named(names).len()
        &&& forall|k: Seq<char>| #[trigger]
            self.metrics_list.count_of(k) == occurrences(named(names), k)
        &&& forall|k: Seq<char>| #[trigger]
            self.metrics_list@.contains_key(k) <==> named(names).contains(k)
        &&& self.metrics_list.keys() == distinct(named(names))
        &&& self.metrics_ip_list@ == address_counts(
            address,
            if every_line {
                names.len()
            } else {
                named(names).len()
            },
        )
    }

    /// A result with nothing counted.
    pub fn new() -> (result: Self)
        ensures
            result.wf(),
            result.balanced(),
            result.metrics_count == 0,
            result.metrics_list@ == Map::<Seq<char>, u64>::empty(),
            result.metrics_list.keys() == Seq::<Seq<char>>::empty(),
            result.metrics_ip_list@ == Map::<Seq<char>, u64>::empty(),
            result.metrics_ip_list.keys() == Seq::<Seq<char>>::empty(),
            result.metrics_samples.views() == Seq::<SampleView>::empty(),
    {
        MetricsHandleResult {
            metrics_count: 0,
            metrics_list: StrMap::new(),
            metrics_ip_list: StrMap::new(),
            metrics_samples: SampleSet::new(),
        }
    }

    /// Counts one metric of the given name.
    pub fn handle_metric(&mut self, metric_name: String)
        requires
            old(self).wf(),
            old(self).metrics_count < u64::MAX,
        ensures
            final(self).wf(),
            final(self).metrics_count == old(self).metrics_count + 1,
            final(self).metrics_list.count_of(metric_name@)
                == old(self).metrics_list.count_of(metric_name@) + 1,
            final(self).metrics_list@ == old(self).metrics_list@.insert(
                metric_name@,
                (old(self).metrics_list.count_of(metric_name@) + 1) as u64,
            ),
            forall|k: Seq<char>|
                k != metric_name@ ==> final(self).metrics_list.count_of(k)
                    == old(self).metrics_list.count_of(k),
            old(self).metrics_list@.contains_key(metric_name@) ==> final(self).metrics_list.keys()
                == old(self).metrics_list.keys(),
            !old(self).metrics_list@.contains_key(metric_name@) ==> final(self).metrics_list.keys()
                == old(self).metrics_list.keys().push(metric_name@),
            final(self).metrics_ip_list == old(self).metrics_ip_list,
            final(self).metrics_samples == old(self).metrics_samples,
    {
        self.metrics_list.add_count(metric_name.as_str(), 1);
        self.metrics_count += 1;
    }

    /// Counts one line from the given remote address.
    pub fn handle_ip(&mut self, ip_address: &str)
        requires
            old(self).wf(),
            old(self).metrics_ip_list.total() < u64::MAX,
        ensures
            final(self).wf(),
            final(self).metrics_ip_list.total() == old(self).metrics_ip_list.total() + 1,
            final(self).metrics_ip_list@ == old(self).metrics_ip_list@.insert(
                ip_address@,
                (old(self).metrics_ip_list.count_of(ip_address@) + 1) as u64,
            ),
            final(self).metrics_count == old(self).metrics_count,
            final(self).metrics_list == old(self).metrics_list,
            final(self).metrics_samples == old(self).metrics_samples,
    {
        self.metrics_ip_list.add_count(ip_address, 1);
    }

    /// Counts the names that a request's lines gave, and the lines for the
    /// address that sent them.
    pub fn tally(names: &Vec<Option<String>>, address: &str, every_line: bool) -> (result: Self)
        ensures
            result.wf(),
            result.counts(option_texts(names@), address@, every_line),
            result.metrics_samples.views() == Seq::<SampleView>::empty(),
            !every_line ==> result.balanced(),
    {
        let mut result = MetricsHandleResult::new();
        let n = names.len();
        let mut i: usize = 0;
        let ghost all = option_texts(names@);
        let ghost mut lines: nat = 0;
        proof {
            assert(all.take(0) =~= Seq::<Option<Seq<char>>>::empty());
        }
        while i < n
            invariant
                n == names@.len(),
                i <= n,
                all == option_texts(names@),
                result.wf(),
                result.counts(all.take(i as int), address@, every_line),
                result.metrics_samples.views() == Seq::<SampleView>::empty(),
                result.metrics_count <= i,
                lines <= i,
                lines == if every_line {
                    i as nat
                } else {
                    named(all.take(i as int)).len()
                },
                result.metrics_ip_list.total() == lines,
            decreases n - i,
        {
            let ghost before = all.take(i as int);
            let ghost after = all.take(i as int + 1);
            let ghost old_result = result;
            proof {
                assert(after.drop_last() =~= before);
                assert(after.last() == all[i as int]);
            }
            let mut counted = every_line;
            match &names[i] {
                Some(name) => {
                    result.handle_metric(name.clone());
                    counted = true;
                    proof {
                        let now = named(after);
                        assert(now == named(before).push(name@));
                        assert(now.drop_last() =~= named(before));
                        assert forall|k: Seq<char>| #[trigger]
                            result.metrics_list@.contains_key(k) <==> now.contains(k) by {
                            lemma_occurrences_contains(now, k);
                            lemma_occurrences_contains(named(before), k);
                            assert(old_result.metrics_list.count_of(k) == occurrences(named(before), k));
                            assert(old_result.metrics_list@.contains_key(k) <==> named(before).contains(
                                k,
                            ));
                        }
                    }
                },
                None => {
                    proof {
                        assert(named(after) == named(before));
                    }
                },
            }
            if counted {
                result.handle_ip(address);
                proof {
                    lemma_address_counts(old_result.metrics_ip_list, address@, lines);
                    lines = lines + 1;
                    assert(result.metrics_ip_list@ =~= address_counts(address@, lines));
                }
            }
            i += 1;
        }
        proof {
            assert(all.take(n as int) =~= all);
        }
        result
    }
}

/// The names of a list of lines, each as text.
pub open spec fn option_texts(names: Seq<Option<String>>) -> Seq<Option<Seq<char>>> {
    Seq::new(
        names.len(),
        |i: int|
            match names[i] {
                Some(name) => Some(name@),
                None => None,
            },
    )
}

/// Counters by address that stand at `n` lines of one address hold that
/// address with the count `n`, or nothing.
pub proof fn lemma_address_counts(counts: StrMap<u64>, address: Seq<char>, n: nat)
    requires
        counts.wf(),
        counts@ == address_counts(address, n),
        counts.total() == n,
    ensures
        counts.count_of(address) == n,
{
    if n > 0 {
        assert(counts@.contains_key(address));
        crate::labels::lemma_entries_dom(counts.keys(), counts.vals());
        assert(counts@.dom() =~= Set::<Seq<char>>::empty().insert(address));
        assert(counts.keys().len() == 1);
        let i = counts.keys().index_of(address);
        assert(0 <= i < counts.keys().len() && counts.keys()[i] == address);
        let vals = counts.vals();
        assert(vals.drop_last() =~= Seq::<u64>::empty());
        assert(sum(vals.drop_last()) == 0);
        assert(sum(vals) == vals.last() as nat);
    }
}

} // verus!
