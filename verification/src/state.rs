use crate::counters::{lemma_sum_prefix_le, merged_keys, sum};
use crate::logs::{filed, Entry, LogRepository, LogStats, LogStatsRepository, stats_in};
use crate::metadata::Metadata;
use crate::metrics::MetricsHandleResult;
use crate::options::Options;
use crate::sample::{store_all, SampleSet, SampleView};
use crate::strmap::StrMap;
use crate::text::texts;
use crate::time::get_now_ms;
use crate::traces::{span_views, spans_wf, Span, SpanView, Trace, TracesHandleResult};
use vstd::prelude::*;
use vstd::string::*;

verus! {

/// Everything the receiver has been sent and tells about on request.
#[derive(Debug)]
pub struct AppState {
    /// How many log messages and bytes came, in all and by address.
    pub log_stats: LogStatsRepository,
    /// The stored log messages.
    pub log_messages: LogRepository,
    /// How many metrics came.
    pub metrics: u64,
    /// The stored samples, one for each series.
    pub metrics_samples: SampleSet,
    /// How many metrics came, by name.
    pub metrics_list: StrMap<u64>,
    /// How many metric lines came, by address.
    pub metrics_ip_list: StrMap<u64>,
    /// How many spans came.
    pub spans: u64,
    /// The stored spans by identifier.
    pub spans_list: StrMap<Span>,
    /// The stored traces by identifier.
    pub traces_list: StrMap<Trace>,
}

/// The number of bytes of a text in UTF-8.
pub open spec fn byte_len(line: Seq<char>) -> nat {
    vstd::utf8::encode_utf8(line).len()
}

/// The number of bytes of a list of lines.
pub open spec fn bytes_total(lines: Seq<Seq<char>>) -> nat
    decreases lines.len(),
{
    if lines.len() == 0 {
        0
    } else {
        bytes_total(lines.drop_last()) + byte_len(lines.last())
    }
}

/// The stored spans by identifier, each as what it holds.
pub open spec fn stored_spans(spans: Map<Seq<char>, Span>) -> Map<Seq<char>, SpanView> {
    spans.map_values(|span: Span| span@)
}

/// The stored traces by identifier, each as the list of its spans'
/// identifiers.
pub open spec fn stored_traces(traces: Map<Seq<char>, Trace>) -> Map<Seq<char>, Seq<Seq<char>>> {
    traces.map_values(|trace: Trace| texts(trace.span_ids@))
}

/// The spans by identifier after a list of spans has been stored: a span
/// takes the place of the one with its identifier.
pub open spec fn spans_after(spans: Map<Seq<char>, SpanView>, incoming: Seq<SpanView>) -> Map<
    Seq<char>,
    SpanView,
>
    decreases incoming.len(),
{
    if incoming.len() == 0 {
        spans
    } else {
        spans_after(spans, incoming.drop_last()).insert(incoming.last().id, incoming.last())
    }
}

/// The traces by identifier after a list of spans has been stored: the
/// identifier of each span goes to the end of the list of its trace, which
/// is made if there is none yet.
pub open spec fn traces_after(
    traces: Map<Seq<char>, Seq<Seq<char>>>,
    incoming: Seq<SpanView>,
) -> Map<Seq<char>, Seq<Seq<char>>>
    decreases incoming.len(),
{
    if incoming.len() == 0 {
        traces
    } else {
        let before = traces_after(traces, incoming.drop_last());
        let last = incoming.last();
        before.insert(
            last.trace_id,
            if before.contains_key(last.trace_id) {
                before[last.trace_id].push(last.id)
            } else {
                seq![last.id]
            },
        )
    }
}

impl AppState {
    /// The parts are well formed, and the count of metrics is the sum of the
    /// counts by name.
    pub open spec fn wf(&self) -> bool {
        &&& self.log_stats.wf()
        &&& self.log_messages.wf()
        &&& self.metrics_samples.wf()
        &&& self.metrics_list.wf()
        &&& self.metrics_ip_list.wf()
        &&& self.metrics == self.metrics_list.total()
        &&& self.spans_list.wf()
        &&& spans_wf(self.spans_list.vals())
        &&& self.traces_list.wf()
    }

    /// The counts by address add up to the count of metrics too.
    pub open spec fn balanced(&self) -> bool {
        self.metrics_ip_list.total() == self.metrics
    }

    /// Whether `after` is this state with the metrics of `result` added: the
    /// counts are added, and with `store` each sample of the result is
    /// stored in place of the stored sample of its series. What is known of
    /// logs and traces stays.
    pub open spec fn metrics_added(self, result: MetricsHandleResult, store: bool, after: AppState) -> bool {
        &&& after.metrics == self.metrics + result.metrics_count
        &&& forall|k: Seq<char>| #[trigger]
            after.metrics_list.count_of(k) == self.metrics_list.count_of(k)
                + result.metrics_list.count_of(k)
        &&& forall|k: Seq<char>| #[trigger]
            after.metrics_list@.contains_key(k) <==> self.metrics_list@.contains_key(k)
                || result.metrics_list@.contains_key(k)
        &&& forall|k: Seq<char>| #[trigger]
            after.metrics_ip_list.count_of(k) == self.metrics_ip_list.count_of(k)
                + result.metrics_ip_list.count_of(k)
        &&& forall|k: Seq<char>| #[trigger]
            after.metrics_ip_list@.contains_key(k) <==> self.metrics_ip_list@.contains_key(k)
                || result.metrics_ip_list@.contains_key(k)
        &&& after.metrics_list.keys() == merged_keys(
            self.metrics_list.keys(),
            result.metrics_list.keys(),
        )
        &&& after.metrics_ip_list.keys() == merged_keys(
            self.metrics_ip_list.keys(),
            result.metrics_ip_list.keys(),
        )
        &&& after.metrics_list.total() == self.metrics_list.total() + result.metrics_list.total()
        &&& after.metrics_ip_list.total() == self.metrics_ip_list.total()
            + result.metrics_ip_list.total()
        &&& after.metrics_samples.views() == if store {
            store_all(self.metrics_samples.views(), result.metrics_samples.views())
        } else {
            self.metrics_samples.views()
        }
        &&& after.log_stats == self.log_stats
        &&& after.log_messages == self.log_messages
        &&& after.spans == self.spans
        &&& after.spans_list == self.spans_list
        &&& after.traces_list == self.traces_list
    }

    /// A state in which nothing has been received.
    pub fn new() -> (state: Self)
        ensures
            state.wf(),
            state.balanced(),
            state.metrics == 0,
            state.spans == 0,
            state.log_stats.total == (LogStats { message_count: 0, byte_count: 0 }),
            state.log_stats.ipaddr@ == Map::<Seq<char>, LogStats>::empty(),
            state.log_messages.entries() == Seq::<Entry>::empty(),
            state.log_messages.cache().patterns() == Seq::<Seq<char>>::empty(),
            state.metrics_samples.views() == Seq::<SampleView>::empty(),
            state.metrics_list@ == Map::<Seq<char>, u64>::empty(),
            state.metrics_ip_list@ == Map::<Seq<char>, u64>::empty(),
            state.spans_list@ == Map::<Seq<char>, Span>::empty(),
            state.traces_list@ == Map::<Seq<char>, Trace>::empty(),
    {
        AppState {
            log_stats: LogStatsRepository::new(),
            log_messages: LogRepository::new(),
            metrics: 0,
            metrics_samples: SampleSet::new(),
            metrics_list: StrMap::new(),
            metrics_ip_list: StrMap::new(),
            spans: 0,
            spans_list: StrMap::new(),
            traces_list: StrMap::new(),
        }
    }

    /// Whether the counters can take the metrics of `result` without
    /// leaving the range of their type.
    pub fn metrics_fit(&self, result: &MetricsHandleResult) -> (fit: bool)
        requires
            self.wf(),
            result.wf(),
        ensures
            fit == (self.metrics + result.metrics_count <= u64::MAX && self.metrics_ip_list.total()
                + result.metrics_ip_list.total() <= u64::MAX),
    {
        if result.metrics_count > u64::MAX - self.metrics {
            return false;
        }
        match (checked_total(&self.metrics_ip_list), checked_total(&result.metrics_ip_list)) {
            (Some(ours), Some(theirs)) => theirs <= u64::MAX - ours,
            _ => false,
        }
    }

    /// Adds the metrics of a request: the count, the counts by name and by
    /// address and, with `store_metrics`, the samples. A sample takes the
    /// place of the stored sample of its series.
    pub fn add_metrics_result(&mut self, result: MetricsHandleResult, opts: &Options)
        requires
            old(self).wf(),
            result.wf(),
            old(self).metrics + result.metrics_count <= u64::MAX,
            old(self).metrics_ip_list.total() + result.metrics_ip_list.total() <= u64::MAX,
        ensures
            final(self).wf(),
            old(self).metrics_added(result, opts.store_metrics, *final(self)),
            old(self).balanced() && result.balanced() ==> final(self).balanced(),
    {
        self.metrics += result.metrics_count;
        self.metrics_list.add_all(&result.metrics_list);
        self.metrics_ip_list.add_all(&result.metrics_ip_list);
        if opts.store_metrics {
            self.metrics_samples.replace_all(&result.metrics_samples);
        }
    }

    /// Forgets the metrics: the count, the counts by name and by address and
    /// the samples.
    pub fn reset_metrics(&mut self)
        requires
            old(self).wf(),
        ensures
            final(self).wf(),
            final(self).balanced(),
            final(self).metrics == 0,
            final(self).metrics_list@ == Map::<Seq<char>, u64>::empty(),
            final(self).metrics_ip_list@ == Map::<Seq<char>, u64>::empty(),
            final(self).metrics_samples.views() == Seq::<SampleView>::empty(),
            final(self).log_stats == old(self).log_stats,
            final(self).log_messages == old(self).log_messages,
            final(self).spans == old(self).spans,
            final(self).spans_list == old(self).spans_list,
            final(self).traces_list == old(self).traces_list,
    {
        self.metrics = 0;
        self.metrics_list.clear();
        self.metrics_ip_list.clear();
        self.metrics_samples.clear();
    }

    /// Adds the spans of a request: the count and, with `store_traces`, the
    /// spans themselves, each under its identifier and in the list of its
    /// trace.
    pub fn add_traces_result(&mut self, result: &TracesHandleResult, opts: &Options)
        requires
            old(self).wf(),
            spans_wf(result.spans@),
            old(self).spans + result.spans_count <= u64::MAX,
        ensures
            final(self).wf(),
            final(self).spans == old(self).spans + result.spans_count,
            opts.store_traces ==> stored_spans(final(self).spans_list@) == spans_after(
                stored_spans(old(self).spans_list@),
                span_views(result.spans@),
            ),
            opts.store_traces ==> stored_traces(final(self).traces_list@) == traces_after(
                stored_traces(old(self).traces_list@),
                span_views(result.spans@),
            ),
            !opts.store_traces ==> final(self).spans_list == old(self).spans_list,
            !opts.store_traces ==> final(self).traces_list == old(self).traces_list,
            final(self).metrics == old(self).metrics,
            final(self).metrics_list == old(self).metrics_list,
            final(self).metrics_ip_list == old(self).metrics_ip_list,
            final(self).metrics_samples == old(self).metrics_samples,
            final(self).log_stats == old(self).log_stats,
            final(self).log_messages == old(self).log_messages,
    {
        self.spans += result.spans_count;
        if opts.store_traces {
            let n = result.spans.len();
            let mut i: usize = 0;
            let ghost all = span_views(result.spans@);
            proof {
                assert(all.take(0) =~= Seq::<SpanView>::empty());
            }
            while i < n
                invariant
                    n == result.spans@.len(),
                    i <= n,
                    all == span_views(result.spans@),
                    spans_wf(result.spans@),
                    self.wf(),
                    self.spans == old(self).spans + result.spans_count,
                    stored_spans(self.spans_list@) == spans_after(
                        stored_spans(old(self).spans_list@),
                        all.take(i as int),
                    ),
                    stored_traces(self.traces_list@) == traces_after(
                        stored_traces(old(self).traces_list@),
                        all.take(i as int),
                    ),
                    self.metrics == old(self).metrics,
                    self.metrics_list == old(self).metrics_list,
                    self.metrics_ip_list == old(self).metrics_ip_list,
                    self.metrics_samples == old(self).metrics_samples,
                    self.log_stats == old(self).log_stats,
                    self.log_messages == old(self).log_messages,
                decreases n - i,
            {
                proof {
                    assert(all.take(i as int + 1).drop_last() =~= all.take(i as int));
                    assert(all.take(i as int + 1).last() == result.spans@[i as int]@);
                }
                self.store_span(&result.spans[i]);
                i += 1;
            }
            proof {
                assert(all.take(n as int) =~= all);
            }
        }
    }

    /// Stores one span under its identifier and in the list of its trace.
    fn store_span(&mut self, span: &Span)
        requires
            old(self).wf(),
            span.wf(),
        ensures
            final(self).wf(),
            stored_spans(final(self).spans_list@) == stored_spans(old(self).spans_list@).insert(
                span@.id,
                span@,
            ),
            stored_traces(final(self).traces_list@) == stored_traces(old(self).traces_list@).insert(
                span@.trace_id,
                if stored_traces(old(self).traces_list@).contains_key(span@.trace_id) {
                    stored_traces(old(self).traces_list@)[span@.trace_id].push(span@.id)
                } else {
                    seq![span@.id]
                },
            ),
            final(self).spans == old(self).spans,
            final(self).metrics == old(self).metrics,
            final(self).metrics_list == old(self).metrics_list,
            final(self).metrics_ip_list == old(self).metrics_ip_list,
            final(self).metrics_samples == old(self).metrics_samples,
            final(self).log_stats == old(self).log_stats,
            final(self).log_messages == old(self).log_messages,
    {
        let ghost traces_before = self.traces_list@;
        let mut trace = Trace::new();
        let found = self.traces_list.position(span.trace_id.as_str());
        match found {
            Some(at) => {
                self.traces_list.swap_value_at(at, &mut trace);
            },
            None => {},
        }
        let ghost ids_before = trace.span_ids@;
        trace.span_ids.push(span.id.clone());
        proof {
            assert(texts(trace.span_ids@) =~= texts(ids_before).push(span@.id));
            assert(texts(Seq::<String>::empty()).push(span@.id) =~= seq![span@.id]);
        }
        match found {
            Some(at) => {
                self.traces_list.set_value_at(at, trace);
            },
            None => {
                self.traces_list.insert(span.trace_id.clone(), trace);
            },
        }
        proof {
            assert(self.traces_list@ =~= traces_before.insert(span@.trace_id, trace));
            assert(stored_traces(self.traces_list@) =~= stored_traces(traces_before).insert(
                span@.trace_id,
                texts(trace.span_ids@),
            ));
        }
        let copy = span.duplicate();
        let ghost spans_before = self.spans_list@;
        self.spans_list.insert(span.id.clone(), copy);
        proof {
            assert(stored_spans(self.spans_list@) =~= stored_spans(spans_before).insert(
                span@.id,
                span@,
            ));
        }
    }

    /// Whether the counters can take the lines without leaving the range of
    /// their type.
    pub fn log_lines_fit(&self, lines: &Vec<String>) -> (fit: bool)
        requires
            self.wf(),
        ensures
            fit == (self.log_stats.total.message_count + lines@.len() <= u64::MAX
                && self.log_stats.total.byte_count + bytes_total(texts(lines@)) <= u64::MAX),
    {
        if lines.len() as u64 > u64::MAX - self.log_stats.total.message_count {
            return false;
        }
        let room: u64 = u64::MAX - self.log_stats.total.byte_count;
        let mut bytes: u64 = 0;
        let mut i: usize = 0;
        let ghost all = texts(lines@);
        proof {
            assert(all.take(0) =~= Seq::<Seq<char>>::empty());
        }
        while i < lines.len()
            invariant
                i <= lines@.len(),
                all == texts(lines@),
                bytes == bytes_total(all.take(i as int)),
                bytes <= room,
                room == u64::MAX - self.log_stats.total.byte_count,
                self.log_stats.total.message_count + lines@.len() <= u64::MAX,
            decreases lines@.len() - i,
        {
            let len = lines[i].as_str().as_bytes().len() as u64;
            proof {
                assert(all.take(i as int + 1).drop_last() =~= all.take(i as int));
                assert(all.take(i as int + 1).last() == lines@[i as int]@);
                lemma_bytes_prefix(all, i as int + 1);
            }
            if len > room - bytes {
                return false;
            }
            bytes += len;
            i += 1;
        }
        proof {
            assert(all.take(lines@.len() as int) =~= all);
        }
        true
    }

    /// Counts the log lines of a request for the address that sent them and,
    /// with `store_logs`, stores each of them with the metadata, at the time
    /// `now`: a line is filed under the timestamp its body holds, else under
    /// `now`.
    pub fn add_log_lines_at(
        &mut self,
        lines: &Vec<String>,
        metadata: &Metadata,
        ipaddr: &str,
        opts: &Options,
        now: u64,
    )
        requires
            old(self).wf(),
            metadata.wf(),
            old(self).log_stats.total.message_count + lines@.len() <= u64::MAX,
            old(self).log_stats.total.byte_count + bytes_total(texts(lines@)) <= u64::MAX,
        ensures
            final(self).wf(),
            old(self).logs_added(texts(lines@), metadata.text(), ipaddr@, opts.store_logs, now, *final(self)),
    {
        let mut message_count: u64 = 0;
        let mut byte_count: u64 = 0;
        let n = lines.len();
        let mut i: usize = 0;
        let ghost all = texts(lines@);
        proof {
            assert(all.take(0) =~= Seq::<Seq<char>>::empty());
        }
        while i < n
            invariant
                n == lines@.len(),
                i <= n,
                all == texts(lines@),
                metadata.wf(),
                self.log_messages.wf(),
                message_count == i,
                byte_count == bytes_total(all.take(i as int)),
                bytes_total(all) <= u64::MAX,
                self.log_messages.entries() == if opts.store_logs {
                    filed(old(self).log_messages.entries(), all.take(i as int), metadata.text(), now)
                } else {
                    old(self).log_messages.entries()
                },
                self.log_messages.cache() == old(self).log_messages.cache(),
                self.log_stats == old(self).log_stats,
                self.metrics == old(self).metrics,
                self.metrics_list == old(self).metrics_list,
                self.metrics_ip_list == old(self).metrics_ip_list,
                self.metrics_samples == old(self).metrics_samples,
                self.spans == old(self).spans,
                self.spans_list == old(self).spans_list,
                self.traces_list == old(self).traces_list,
            decreases n - i,
        {
            proof {
                assert(all.take(i as int + 1).drop_last() =~= all.take(i as int));
                assert(all.take(i as int + 1).last() == lines@[i as int]@);
                lemma_bytes_prefix(all, i as int + 1);
            }
            message_count += 1;
            byte_count += lines[i].as_str().as_bytes().len() as u64;
            if opts.store_logs {
                self.log_messages.add_log_message_at(lines[i].as_str(), metadata.duplicate(), now);
            }
            i += 1;
        }
        proof {
            assert(all.take(n as int) =~= all);
        }
        self.log_stats.update(message_count, byte_count, ipaddr);
    }

    /// Counts the log lines of a request and, with `store_logs`, stores them,
    /// at the time of the clock.
    pub fn add_log_lines(&mut self, lines: &Vec<String>, metadata: &Metadata, ipaddr: &str, opts: &Options)
        requires
            old(self).wf(),
            metadata.wf(),
            old(self).log_stats.total.message_count + lines@.len() <= u64::MAX,
            old(self).log_stats.total.byte_count + bytes_total(texts(lines@)) <= u64::MAX,
        ensures
            final(self).wf(),
            exists|now: u64| #[trigger]
                old(self).logs_added(
                    texts(lines@),
                    metadata.text(),
                    ipaddr@,
                    opts.store_logs,
                    now,
                    *final(self),
                ),
    {
        let now = get_now_ms();
        self.add_log_lines_at(lines, metadata, ipaddr, opts, now);
    }

    /// Whether `after` is this state with the log lines added that one
    /// address sent at the time `now`: the lines and their bytes are counted
    /// in all and for the address, and with `store` each line is filed with
    /// the metadata. What is known of metrics and traces stays.
    pub open spec fn logs_added(
        self,
        lines: Seq<Seq<char>>,
        fields: Map<Seq<char>, Seq<char>>,
        ipaddr: Seq<char>,
        store: bool,
        now: u64,
        after: AppState,
    ) -> bool {
        &&& after.log_stats.total.message_count == self.log_stats.total.message_count + lines.len()
        &&& after.log_stats.total.byte_count == self.log_stats.total.byte_count + bytes_total(lines)
        &&& after.log_stats.ipaddr@ == self.log_stats.ipaddr@.insert(
            ipaddr,
            (LogStats {
                message_count: (stats_in(self.log_stats.ipaddr@, ipaddr).message_count
                    + lines.len()) as u64,
                byte_count: (stats_in(self.log_stats.ipaddr@, ipaddr).byte_count + bytes_total(
                    lines,
                )) as u64,
            }),
        )
        &&& after.log_messages.entries() == if store {
            filed(self.log_messages.entries(), lines, fields, now)
        } else {
            self.log_messages.entries()
        }
        &&& after.log_messages.cache() == self.log_messages.cache()
        &&& after.metrics == self.metrics
        &&& after.metrics_list == self.metrics_list
        &&& after.metrics_ip_list == self.metrics_ip_list
        &&& after.metrics_samples == self.metrics_samples
        &&& after.spans == self.spans
        &&& after.spans_list == self.spans_list
        &&& after.traces_list == self.traces_list
    }
}

/// Whether each state of a list but the first is the state before it with
/// the metrics of a result added: the states that a list of requests leads
/// through.
pub open spec fn ingestions(states: Seq<AppState>, results: Seq<MetricsHandleResult>, store: bool) -> bool {
    &&& states.len() == results.len() + 1
    &&& forall|i: int|
        0 <= i < results.len() ==> (#[trigger] results[i]).wf() && states[i].metrics_added(
            results[i],
            store,
            states[i + 1],
        )
}

/// However many requests with metrics are taken, the count of metrics stays
/// the sum of the counts by name.
pub proof fn lemma_count_is_sum_by_name(
    states: Seq<AppState>,
    results: Seq<MetricsHandleResult>,
    store: bool,
    k: int,
)
    requires
        ingestions(states, results, store),
        states[0].metrics == states[0].metrics_list.total(),
        0 <= k < states.len(),
    ensures
        states[k].metrics == states[k].metrics_list.total(),
    decreases k,
{
    if k > 0 {
        lemma_count_is_sum_by_name(states, results, store, k - 1);
        assert(results[k - 1].wf());
        assert(states[k - 1].metrics_added(results[k - 1], store, states[k - 1 + 1]));
    }
}

/// However many requests with metrics are taken, the count of metrics stays
/// the sum of the counts by address too, as long as every line that was
/// counted for an address named a metric.
pub proof fn lemma_count_is_sum_by_address(
    states: Seq<AppState>,
    results: Seq<MetricsHandleResult>,
    store: bool,
    k: int,
)
    requires
        ingestions(states, results, store),
        states[0].balanced(),
        forall|i: int| 0 <= i < results.len() ==> (#[trigger] results[i]).balanced(),
        0 <= k < states.len(),
    ensures
        states[k].balanced(),
    decreases k,
{
    if k > 0 {
        lemma_count_is_sum_by_address(states, results, store, k - 1);
        assert(results[k - 1].balanced());
        assert(states[k - 1].metrics_added(results[k - 1], store, states[k - 1 + 1]));
    }
}

/// The bytes of the first lines of a list are no more than those of the
/// whole list.
pub proof fn lemma_bytes_prefix(lines: Seq<Seq<char>>, i: int)
    requires
        0 <= i <= lines.len(),
    ensures
        bytes_total(lines.take(i)) <= bytes_total(lines),
    decreases lines.len() - i,
{
    if i < lines.len() {
        assert(lines.take(i + 1).drop_last() =~= lines.take(i));
        lemma_bytes_prefix(lines, i + 1);
    } else {
        assert(lines.take(i) =~= lines);
    }
}

/// The sum of the counts, if it stays within the range of the type.
pub fn checked_total(counts: &StrMap<u64>) -> (total: Option<u64>)
    requires
        counts.wf(),
    ensures
        total is Some <==> counts.total() <= u64::MAX,
        total is Some ==> total->0 == counts.total(),
{
    let n = counts.len();
    let mut total: u64 = 0;
    let mut i: usize = 0;
    proof {
        assert(counts.vals().take(0) =~= Seq::<u64>::empty());
    }
    while i < n
        invariant
            counts.wf(),
            n == counts.vals().len(),
            i <= n,
            total == sum(counts.vals().take(i as int)),
        decreases n - i,
    {
        let value = *counts.value_at(i);
        proof {
            crate::counters::lemma_sum_take_next(counts.vals(), i as int);
            lemma_sum_prefix_le(counts.vals(), i as int + 1);
        }
        if value > u64::MAX - total {
            return None;
        }
        total += value;
        i += 1;
    }
    proof {
        assert(counts.vals().take(n as int) =~= counts.vals());
    }
    Some(total)
}

} // verus!
