use crate::labels::Labels;
use crate::query::{lemma_empty_query_matches, matches_query, query_matches};
use vstd::prelude::*;

verus! {

/// One data point of a metric series.
#[derive(Debug)]
pub struct Sample {
    /// The metric's name.
    pub metric: String,
    /// The value, as the bit pattern of a 64-bit IEEE 754 number.
    pub value_bits: u64,
    /// The labels of the series.
    pub labels: Labels,
    /// Milliseconds since the epoch.
    pub timestamp: u64,
}

/// What a sample holds, as mathematical values.
pub struct SampleView {
    pub metric: Seq<char>,
    pub value_bits: u64,
    pub labels: Map<Seq<char>, Seq<char>>,
    pub timestamp: u64,
}

/// The identity of a series: the metric's name and the labels. Value and
/// timestamp are no part of it.
pub type Series = (Seq<char>, Map<Seq<char>, Seq<char>>);

impl SampleView {
    /// The series that the sample belongs to.
    pub open spec fn series(self) -> Series {
        (self.metric, self.labels)
    }

    /// Whether the sample meets every entry of `query`.
    pub open spec fn matches(self, query: Map<Seq<char>, Seq<char>>) -> bool {
        query_matches(self.metric, self.labels, query)
    }
}

impl View for Sample {
    type V = SampleView;

    open spec fn view(&self) -> SampleView {
        SampleView {
            metric: self.metric@,
            value_bits: self.value_bits,
            labels: self.labels.text(),
            timestamp: self.timestamp,
        }
    }
}

impl Sample {
    /// The labels are a well-formed map.
    pub open spec fn wf(&self) -> bool {
        self.labels.wf()
    }

    /// Whether two samples belong to the same series.
    pub fn same_series(&self, other: &Sample) -> (same: bool)
        requires
            self.wf(),
            other.wf(),
        ensures
            same == (self@.series() == other@.series()),
    {
        self.metric.as_str().eq(other.metric.as_str()) && self.labels.same_text(&other.labels)
    }

    /// A copy that holds the same values.
    pub fn duplicate(&self) -> (out: Sample)
        requires
            self.wf(),
        ensures
            out.wf(),
            out@ == self@,
    {
        Sample {
            metric: self.metric.clone(),
            value_bits: self.value_bits,
            labels: self.labels.duplicate(),
            timestamp: self.timestamp,
        }
    }
}

/// No two samples of the list belong to the same series.
pub open spec fn distinct_series(views: Seq<SampleView>) -> bool {
    forall|i: int, j: int|
        0 <= i < views.len() && 0 <= j < views.len() && i != j ==> (#[trigger] views[i]).series()
            != (#[trigger] views[j]).series()
}

/// The series that a list of samples holds.
pub open spec fn series_of(views: Seq<SampleView>) -> Set<Series> {
    Set::new(|s: Series| exists|i: int| 0 <= i < views.len() && #[trigger] views[i].series() == s)
}

/// Where no two samples of a list belong to one series, a series that the
/// list holds has exactly one sample there.
pub proof fn lemma_one_sample_per_series(views: Seq<SampleView>, series: Series)
    requires
        distinct_series(views),
        series_of(views).contains(series),
    ensures
        exists|i: int|
            0 <= i < views.len() && #[trigger] views[i].series() == series && forall|j: int|
                0 <= j < views.len() && #[trigger] views[j].series() == series ==> j == i,
{
    let i = choose|i: int| 0 <= i < views.len() && #[trigger] views[i].series() == series;
    assert forall|j: int| 0 <= j < views.len() && #[trigger] views[j].series() == series implies j
        == i by {
        if j != i {
            assert(views[i].series() != views[j].series());
        }
    }
}

/// The index of the first sample of `series` in a list, or the length of the
/// list where there is none.
pub open spec fn series_index(views: Seq<SampleView>, series: Series) -> int
    decreases views.len(),
{
    if views.len() == 0 {
        0
    } else if views[0].series() == series {
        0
    } else {
        1 + series_index(views.drop_first(), series)
    }
}

/// The list after `sample` has been stored in it: the sample takes the place
/// of the one of its series, or goes to the end where its series is new.
pub open spec fn store(views: Seq<SampleView>, sample: SampleView) -> Seq<SampleView> {
    let i = series_index(views, sample.series());
    if 0 <= i < views.len() {
        views.update(i, sample)
    } else {
        views.push(sample)
    }
}

/// The list after `sample` has been added to it: a sample of a new series
/// goes to the end, and a sample of a series that the list holds already is
/// left out.
pub open spec fn keep(views: Seq<SampleView>, sample: SampleView) -> Seq<SampleView> {
    let i = series_index(views, sample.series());
    if 0 <= i < views.len() {
        views
    } else {
        views.push(sample)
    }
}

/// The list after each sample of `incoming` has been added to it, in order:
/// of the samples of one series the first one stays.
pub open spec fn keep_all(views: Seq<SampleView>, incoming: Seq<SampleView>) -> Seq<SampleView>
    decreases incoming.len(),
{
    if incoming.len() == 0 {
        views
    } else {
        keep(keep_all(views, incoming.drop_last()), incoming.last())
    }
}

/// The list after each sample of `incoming` has been stored in it, in order.
pub open spec fn store_all(views: Seq<SampleView>, incoming: Seq<SampleView>) -> Seq<SampleView>
    decreases incoming.len(),
{
    if incoming.len() == 0 {
        views
    } else {
        store(store_all(views, incoming.drop_last()), incoming.last())
    }
}

/// The first sample of `series` stands at `k` if none stands before `k` and
/// `k` is the end of the list or holds one.
pub proof fn lemma_series_index(views: Seq<SampleView>, series: Series, k: int)
    requires
        0 <= k <= views.len(),
        forall|j: int| 0 <= j < k ==> (#[trigger] views[j]).series() != series,
        k < views.len() ==> views[k].series() == series,
    ensures
        series_index(views, series) == k,
    decreases k,
{
    if k > 0 {
        let rest = views.drop_first();
        assert(views[0].series() != series);
        assert forall|j: int| 0 <= j < k - 1 implies (#[trigger] rest[j]).series() != series by {
            assert(rest[j] == views[j + 1]);
        }
        lemma_series_index(rest, series, k - 1);
    }
}

/// The index of a series lies within the list exactly if the list holds the
/// series, and then a sample of the series stands there.
pub proof fn lemma_series_index_found(views: Seq<SampleView>, series: Series)
    ensures
        0 <= series_index(views, series) <= views.len(),
        series_index(views, series) < views.len() <==> series_of(views).contains(series),
        series_index(views, series) < views.len() ==> views[series_index(views, series)].series()
            == series,
    decreases views.len(),
{
    if views.len() > 0 {
        let rest = views.drop_first();
        lemma_series_index_found(rest, series);
        if views[0].series() != series {
            if series_of(views).contains(series) {
                let i = choose|i: int| 0 <= i < views.len() && #[trigger] views[i].series() == series;
                assert(rest[i - 1].series() == series);
            }
            if series_of(rest).contains(series) {
                let i = choose|i: int| 0 <= i < rest.len() && #[trigger] rest[i].series() == series;
                assert(views[i + 1].series() == series);
            }
        }
    }
}

/// Storing a sample keeps the series distinct, adds the sample's series to
/// those of the list, and lengthens the list only for a new series.
pub proof fn lemma_store(views: Seq<SampleView>, sample: SampleView)
    requires
        distinct_series(views),
    ensures
        distinct_series(store(views, sample)),
        series_of(store(views, sample)) == series_of(views).insert(sample.series()),
        store(views, sample).contains(sample),
        series_of(views).contains(sample.series()) ==> store(views, sample).len() == views.len(),
        !series_of(views).contains(sample.series()) ==> store(views, sample).len() == views.len()
            + 1,
{
    let after = store(views, sample);
    let i = series_index(views, sample.series());
    lemma_series_index_found(views, sample.series());
    let at = if i < views.len() {
        i
    } else {
        views.len() as int
    };
    assert(after[at] == sample);
    assert forall|a: int, b: int| 0 <= a < after.len() && 0 <= b < after.len() && a != b implies (
    #[trigger] after[a]).series() != (#[trigger] after[b]).series() by {
        if a != at && b != at {
            assert(views[a].series() != views[b].series());
        } else if a != at {
            if i < views.len() {
                assert(views[a].series() != views[i].series());
            }
        } else {
            if i < views.len() {
                assert(views[b].series() != views[i].series());
            }
        }
    }
    assert forall|s: Series| series_of(after).contains(s) <==> series_of(views).insert(
        sample.series(),
    ).contains(s) by {
        if series_of(after).contains(s) {
            let k = choose|k: int| 0 <= k < after.len() && #[trigger] after[k].series() == s;
            if k != at {
                assert(views[k].series() == s);
            }
        }
        if series_of(views).contains(s) {
            let k = choose|k: int| 0 <= k < views.len() && #[trigger] views[k].series() == s;
            if k != at {
                assert(after[k].series() == s);
            } else {
                assert(after[at].series() == s);
            }
        }
        if s == sample.series() {
            assert(after[at].series() == s);
        }
    }
    assert(series_of(after) =~= series_of(views).insert(sample.series()));
}

/// Adding a sample keeps the series distinct and adds the sample's series to
/// those of the list.
pub proof fn lemma_keep(views: Seq<SampleView>, sample: SampleView)
    requires
        distinct_series(views),
    ensures
        distinct_series(keep(views, sample)),
        series_of(keep(views, sample)) == series_of(views).insert(sample.series()),
{
    let after = keep(views, sample);
    lemma_series_index_found(views, sample.series());
    if series_index(views, sample.series()) < views.len() {
        assert(series_of(after) =~= series_of(views).insert(sample.series()));
    } else {
        lemma_series_index(views, sample.series(), views.len() as int);
        lemma_store(views, sample);
    }
}

/// Adding a list of samples keeps the series distinct and adds the series of
/// the list.
pub proof fn lemma_keep_all(views: Seq<SampleView>, incoming: Seq<SampleView>)
    requires
        distinct_series(views),
    ensures
        distinct_series(keep_all(views, incoming)),
        series_of(keep_all(views, incoming)) == series_of(views).union(series_of(incoming)),
    decreases incoming.len(),
{
    if incoming.len() == 0 {
        assert(series_of(views).union(series_of(incoming)) =~= series_of(views));
    } else {
        let rest = incoming.drop_last();
        let last = incoming.last();
        lemma_keep_all(views, rest);
        lemma_keep(keep_all(views, rest), last);
        lemma_series_of_push(rest, last);
        assert(rest.push(last) =~= incoming);
        assert(series_of(keep_all(views, incoming)) =~= series_of(views).union(series_of(incoming)));
    }
}

/// The series of a list with one more sample are those of the list and the
/// sample's.
pub proof fn lemma_series_of_push(views: Seq<SampleView>, sample: SampleView)
    ensures
        series_of(views.push(sample)) == series_of(views).insert(sample.series()),
{
    let after = views.push(sample);
    assert forall|s: Series| series_of(after).contains(s) <==> series_of(views).insert(
        sample.series(),
    ).contains(s) by {
        if series_of(after).contains(s) {
            let k = choose|k: int| 0 <= k < after.len() && #[trigger] after[k].series() == s;
            if k < views.len() {
                assert(views[k].series() == s);
            }
        }
        if series_of(views).contains(s) {
            let k = choose|k: int| 0 <= k < views.len() && #[trigger] views[k].series() == s;
            assert(after[k].series() == s);
        }
        if s == sample.series() {
            assert(after[views.len() as int].series() == s);
        }
    }
    assert(series_of(after) =~= series_of(views).insert(sample.series()));
}

/// Storing a list of samples keeps the series distinct and adds the series
/// of the list.
pub proof fn lemma_store_all(views: Seq<SampleView>, incoming: Seq<SampleView>)
    requires
        distinct_series(views),
    ensures
        distinct_series(store_all(views, incoming)),
        series_of(store_all(views, incoming)) == series_of(views).union(series_of(incoming)),
        series_of(incoming).subset_of(series_of(views)) ==> store_all(views, incoming).len()
            == views.len(),
    decreases incoming.len(),
{
    if incoming.len() == 0 {
        assert(series_of(views).union(series_of(incoming)) =~= series_of(views));
    } else {
        let rest = incoming.drop_last();
        let last = incoming.last();
        lemma_store_all(views, rest);
        lemma_store(store_all(views, rest), last);
        lemma_series_of_push(rest, last);
        assert(rest.push(last) =~= incoming);
        assert(series_of(store_all(views, incoming)) =~= series_of(views).union(series_of(incoming)));
    }
}

/// A set of samples with at most one sample for each series.
#[derive(Debug)]
pub struct SampleSet {
    items: Vec<Sample>,
}

impl SampleSet {
    /// The stored samples, in the order in which their series first came.
    pub closed spec fn views(&self) -> Seq<SampleView> {
        Seq::new(self.items@.len(), |i: int| self.items@[i]@)
    }

    /// Every stored sample is well formed.
    pub closed spec fn items_wf(&self) -> bool {
        forall|i: int| 0 <= i < self.items@.len() ==> (#[trigger] self.items@[i]).wf()
    }

    /// Every stored sample is well formed and each series is stored once.
    pub open spec fn wf(&self) -> bool {
        &&& self.items_wf()
        &&& distinct_series(self.views())
    }

    /// The series that have a sample in the set.
    pub open spec fn series(&self) -> Set<Series> {
        series_of(self.views())
    }

    /// The empty set.
    pub fn new() -> (set: SampleSet)
        ensures
            set.wf(),
            set.views() == Seq::<SampleView>::empty(),
    {
        let set = SampleSet { items: Vec::new() };
        assert(set.views() =~= Seq::<SampleView>::empty());
        set
    }

    /// The number of stored samples.
    pub fn len(&self) -> (n: usize)
        ensures
            n == self.views().len(),
    {
        self.items.len()
    }

    /// The sample at index `i`.
    pub fn get(&self, i: usize) -> (sample: &Sample)
        requires
            self.wf(),
            i < self.views().len(),
        ensures
            sample.wf(),
            sample@ == self.views()[i as int],
    {
        &self.items[i]
    }

    /// Removes every sample.
    pub fn clear(&mut self)
        ensures
            final(self).wf(),
            final(self).views() == Seq::<SampleView>::empty(),
    {
        self.items.clear();
        assert(self.views() =~= Seq::<SampleView>::empty());
    }

    /// The index of the stored sample of the series of `sample`, if there is
    /// one.
    pub fn position(&self, sample: &Sample) -> (found: Option<usize>)
        requires
            self.wf(),
            sample.wf(),
        ensures
            found is Some <==> self.series().contains(sample@.series()),
            found is Some ==> found->0 == series_index(self.views(), sample@.series()),
            found is Some ==> found->0 < self.views().len(),
            found is None ==> series_index(self.views(), sample@.series()) == self.views().len(),
    {
        let mut i: usize = 0;
        while i < self.items.len()
            invariant
                self.wf(),
                sample.wf(),
                i <= self.items@.len(),
                forall|j: int| 0 <= j < i ==> (#[trigger] self.views()[j]).series() != sample@.series(),
            decreases self.items@.len() - i,
        {
            if self.items[i].same_series(sample) {
                proof {
                    lemma_series_index(self.views(), sample@.series(), i as int);
                    lemma_series_index_found(self.views(), sample@.series());
                }
                return Some(i);
            }
            i += 1;
        }
        proof {
            lemma_series_index(self.views(), sample@.series(), i as int);
            lemma_series_index_found(self.views(), sample@.series());
        }
        None
    }

    /// Stores `sample`. The stored sample of the same series, if there is one,
    /// gives way to it and the new one takes its place in the list; a sample
    /// of a new series goes to the end. Each series stays stored once.
    pub fn replace(&mut self, sample: Sample)
        requires
            old(self).wf(),
            sample.wf(),
        ensures
            final(self).wf(),
            final(self).views() == store(old(self).views(), sample@),
            final(self).series() == old(self).series().insert(sample@.series()),
            final(self).views().contains(sample@),
    {
        let ghost before = self.views();
        let ghost view = sample@;
        proof {
            lemma_store(before, view);
        }
        match self.position(&sample) {
            Some(i) => {
                self.items[i] = sample;
                assert(self.views() =~= before.update(i as int, view));
            },
            None => {
                self.items.push(sample);
                assert(self.views() =~= before.push(view));
            },
        }
    }

    /// Adds `sample` unless a sample of its series is stored already, and
    /// says whether it was added.
    pub fn insert(&mut self, sample: Sample) -> (added: bool)
        requires
            old(self).wf(),
            sample.wf(),
        ensures
            final(self).wf(),
            final(self).views() == keep(old(self).views(), sample@),
            final(self).series() == old(self).series().insert(sample@.series()),
            added == !old(self).series().contains(sample@.series()),
    {
        let ghost before = self.views();
        let ghost view = sample@;
        proof {
            lemma_keep(before, view);
        }
        match self.position(&sample) {
            Some(_) => false,
            None => {
                self.items.push(sample);
                assert(self.views() =~= before.push(view));
                true
            },
        }
    }

    /// Stores each sample of `incoming`, in order.
    pub fn replace_all(&mut self, incoming: &SampleSet)
        requires
            old(self).wf(),
            incoming.wf(),
        ensures
            final(self).wf(),
            final(self).views() == store_all(old(self).views(), incoming.views()),
            final(self).series() == old(self).series().union(incoming.series()),
    {
        let n = incoming.len();
        let mut i: usize = 0;
        proof {
            assert(incoming.views().take(0) =~= Seq::<SampleView>::empty());
        }
        while i < n
            invariant
                self.wf(),
                incoming.wf(),
                n == incoming.views().len(),
                i <= n,
                self.views() == store_all(old(self).views(), incoming.views().take(i as int)),
            decreases n - i,
        {
            proof {
                assert(incoming.views().take(i as int + 1).drop_last() =~= incoming.views().take(
                    i as int,
                ));
            }
            self.replace(incoming.get(i).duplicate());
            i += 1;
        }
        proof {
            assert(incoming.views().take(n as int) =~= incoming.views());
            lemma_store_all(old(self).views(), incoming.views());
        }
    }

    /// The stored samples that meet every entry of `query`, in the order in
    /// which they are stored.
    pub fn filter(&self, query: &Labels) -> (out: SampleSet)
        requires
            self.wf(),
            query.wf(),
        ensures
            out.wf(),
            out.views() == self.views().filter(|v: SampleView| v.matches(query.text())),
    {
        let ghost pred = |v: SampleView| v.matches(query.text());
        let mut out = SampleSet::new();
        let n = self.items.len();
        let mut i: usize = 0;
        proof {
            reveal(Seq::filter);
            assert(self.views().take(0) =~= Seq::<SampleView>::empty());
        }
        while i < n
            invariant
                self.wf(),
                query.wf(),
                out.wf(),
                n == self.items@.len(),
                i <= n,
                pred == |v: SampleView| v.matches(query.text()),
                out.views() == self.views().take(i as int).filter(pred),
                forall|a: int|
                    0 <= a < out.views().len() ==> exists|b: int|
                        0 <= b < i && self.views()[b] == #[trigger] out.views()[a],
            decreases n - i,
        {
            let sample = &self.items[i];
            let ghost kept = out.views();
            proof {
                assert(self.views().take(i as int + 1) =~= self.views().take(i as int).push(
                    self.views()[i as int],
                ));
                self.views().take(i as int).lemma_filter_push(self.views()[i as int], pred);
            }
            if matches_query(sample.metric.as_str(), &sample.labels, query) {
                let copy = sample.duplicate();
                out.items.push(copy);
                proof {
                    assert(out.views() =~= kept.push(copy@));
                    assert forall|a: int| 0 <= a < out.views().len() implies exists|b: int|
                        0 <= b < i + 1 && self.views()[b] == #[trigger] out.views()[a] by {
                        if a < kept.len() {
                            let b = choose|b: int| 0 <= b < i && self.views()[b] == kept[a];
                            assert(self.views()[b] == out.views()[a]);
                        } else {
                            assert(self.views()[i as int] == out.views()[a]);
                        }
                    }
                    assert forall|a: int, b: int|
                        0 <= a < out.views().len() && 0 <= b < out.views().len() && a != b implies (
                    #[trigger] out.views()[a]).series() != (#[trigger] out.views()[b]).series() by {
                        let ia = choose|k: int| 0 <= k < i + 1 && self.views()[k] == out.views()[a];
                        let ib = choose|k: int| 0 <= k < i + 1 && self.views()[k] == out.views()[b];
                        if a < kept.len() && b < kept.len() {
                            assert(kept[a].series() != kept[b].series());
                        } else if a < kept.len() {
                            let k = choose|k: int| 0 <= k < i && self.views()[k] == kept[a];
                            assert(self.views()[k].series() != self.views()[i as int].series());
                        } else {
                            let k = choose|k: int| 0 <= k < i && self.views()[k] == kept[b];
                            assert(self.views()[k].series() != self.views()[i as int].series());
                        }
                    }
                }
            }
            i += 1;
        }
        proof {
            assert(self.views().take(n as int) =~= self.views());
        }
        out
    }
}

/// The samples of `samples` that meet every entry of `labels`: a sample
/// passes if, for each entry, the label of that name exists and, where the
/// entry's value is not empty, equals it; the key `__name__` stands for the
/// metric's name.
pub fn filter_samples(samples: &SampleSet, labels: &Labels) -> (out: SampleSet)
    requires
        samples.wf(),
        labels.wf(),
    ensures
        out.wf(),
        out.views() == samples.views().filter(|v: SampleView| v.matches(labels.text())),
{
    samples.filter(labels)
}

/// A filter whose predicate every element meets keeps the whole list.
pub proof fn lemma_filter_all<A>(s: Seq<A>, pred: spec_fn(A) -> bool)
    requires
        forall|i: int| 0 <= i < s.len() ==> pred(#[trigger] s[i]),
    ensures
        s.filter(pred) == s,
    decreases s.len(),
{
    reveal(Seq::filter);
    if s.len() > 0 {
        lemma_filter_all(s.drop_last(), pred);
        assert(s.drop_last().push(s.last()) =~= s);
    }
}

/// Filtering by the empty query gives back every sample.
pub proof fn lemma_filter_empty_query(views: Seq<SampleView>)
    ensures
        views.filter(|v: SampleView| v.matches(Map::<Seq<char>, Seq<char>>::empty())) == views,
{
    let pred = |v: SampleView| v.matches(Map::<Seq<char>, Seq<char>>::empty());
    assert forall|i: int| 0 <= i < views.len() implies pred(#[trigger] views[i]) by {
        lemma_empty_query_matches(views[i].metric, views[i].labels);
    }
    lemma_filter_all(views, pred);
}

} // verus!
