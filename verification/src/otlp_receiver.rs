use crate::logs::{filed, lemma_stats_bounded, stats_in, Entry, LogStats};
use crate::metadata::{header_views, Headers, Metadata};
use crate::metrics::{option_texts, MetricsHandleResult};
use crate::options::Options;
use crate::otlp::{
    attributes_text, get_otlp_lines_from_logs, get_otlp_metadata_from_logs, hex_text, library_lines,
    metric_views, otlp_metric_to_samples, otlp_span_to_span, sample_views, samples_wf, tags, KeyValue,
    Metric, OtlpSpan, ResourceLogs, ResourceMetrics, ResourceSpans,
};
use crate::router::{
    address_of, content_type_of, draw_percent, drop_decision, drop_text, dropped, get_address,
    get_content_type, get_invalid_header_response, invalid_header_text, metrics_taken, ok_reply,
    overflow_reply, take_metrics, text_reply, text_response, Response, ResponseView,
};
use crate::time::get_now_ms;
use crate::sample::{keep_all, SampleSet, SampleView};
use crate::state::{bytes_total, lemma_bytes_prefix, spans_after, stored_spans, stored_traces, traces_after, AppState};
use crate::text::texts;
use crate::traces::{span_views, spans_wf, SpanView, TracesHandleResult};
use vstd::prelude::*;
use vstd::string::*;

verus! {

/// The content type of a request in the OpenTelemetry protocol.
pub const OTLP_PROTOBUF_FORMAT_CONTENT_TYPE: &'static str = "application/x-protobuf";

/// The answer that refuses a request in the OpenTelemetry protocol for
/// which `number` was drawn, before its body is looked at; nothing if the
/// body is to be decoded. The checks come in this order: the content type
/// can be read; the request is not dropped; the content type is the
/// protocol's.
pub open spec fn otlp_refusal(
    headers: Map<Seq<char>, Option<Seq<char>>>,
    drop_rate: i64,
    number: i64,
) -> Option<ResponseView> {
    match content_type_of(headers) {
        None => Some(text_reply(400, "failed to convert header to a str"@)),
        Some(content_type) => if dropped(number, drop_rate) {
            Some(text_reply(500, drop_text(content_type)))
        } else if content_type != OTLP_PROTOBUF_FORMAT_CONTENT_TYPE@ {
            Some(
                ResponseView {
                    status: 400,
                    is_error: true,
                    text: invalid_header_text(content_type),
                },
            )
        } else {
            None
        },
    }
}

/// The answer to a body that cannot be decoded.
pub open spec fn undecodable_reply() -> ResponseView {
    text_reply(400, "Unable to parse body"@)
}

/// Decides whether the body of a request for which `number` was drawn is to
/// be decoded, and gives the answer if it is not.
pub fn otlp_admit(headers: &Headers, opts: &Options, number: i64) -> (refusal: Option<Response>)
    requires
        headers.wf(),
    ensures
        match refusal {
            Some(response) => otlp_refusal(header_views(headers@), opts.drop_rate, number) == Some(
                response@,
            ),
            None => otlp_refusal(header_views(headers@), opts.drop_rate, number) is None,
        },
{
    let content_type = match get_content_type(headers) {
        Some(content_type) => content_type,
        None => {
            return Some(text_response(400, "failed to convert header to a str".to_owned()));
        },
    };
    match drop_decision(number, opts.drop_rate, content_type.as_str()) {
        Some(response) => {
            return Some(response);
        },
        None => {},
    }
    if content_type.as_str().eq(OTLP_PROTOBUF_FORMAT_CONTENT_TYPE) {
        None
    } else {
        Some(get_invalid_header_response(content_type.as_str()))
    }
}

/// The items of a list of lists, list after list.
pub open spec fn flat<T>(lists: Seq<Vec<T>>) -> Seq<T>
    decreases lists.len(),
{
    if lists.len() == 0 {
        Seq::empty()
    } else {
        flat(lists.drop_last()) + lists.last()@
    }
}

/// The items that a list refers to.
pub open spec fn targets<T>(refs: Seq<&T>) -> Seq<T> {
    Seq::new(refs.len(), |i: int| *refs[i])
}

/// The items of a list of lists, list after list.
pub fn flatten<T>(lists: &Vec<Vec<T>>) -> (out: Vec<&T>)
    ensures
        targets(out@) == flat(lists@),
{
    let mut out: Vec<&T> = Vec::new();
    let mut i: usize = 0;
    proof {
        assert(lists@.take(0) =~= Seq::<Vec<T>>::empty());
        assert(targets(out@) =~= Seq::<T>::empty());
    }
    while i < lists.len()
        invariant
            i <= lists@.len(),
            targets(out@) == flat(lists@.take(i as int)),
        decreases lists@.len() - i,
    {
        let list = &lists[i];
        let ghost before = targets(out@);
        let mut j: usize = 0;
        while j < list.len()
            invariant
                j <= list@.len(),
                targets(out@) == before + list@.take(j as int),
            decreases list@.len() - j,
        {
            let ghost so_far = out@;
            out.push(&list[j]);
            proof {
                assert(targets(out@) =~= targets(so_far).push(list@[j as int]));
                assert(list@.take(j as int + 1) =~= list@.take(j as int).push(list@[j as int]));
            }
            j += 1;
        }
        proof {
            assert(list@.take(list@.len() as int) =~= list@);
            assert(lists@.take(i as int + 1).drop_last() =~= lists@.take(i as int));
        }
        i += 1;
    }
    proof {
        assert(lists@.take(lists@.len() as int) =~= lists@);
    }
    out
}

/// The log lines of a list of resources, resource after resource.
pub open spec fn all_lines(resources: Seq<ResourceLogs>) -> Seq<Seq<char>>
    decreases resources.len(),
{
    if resources.len() == 0 {
        Seq::empty()
    } else {
        all_lines(resources.drop_last()) + library_lines(
            resources.last().instrumentation_library_logs@,
        )
    }
}

/// The metadata of the logs of a resource.
pub open spec fn resource_fields(resource: ResourceLogs) -> Map<Seq<char>, Seq<char>> {
    match resource.resource {
        Some(attributes) => attributes_text(attributes@),
        None => Map::empty(),
    }
}

/// The list after the log lines of a list of resources have been filed in it
/// at the time `now`, each line with the metadata of its resource.
pub open spec fn resources_filed(entries: Seq<Entry>, resources: Seq<ResourceLogs>, now: u64) -> Seq<Entry>
    decreases resources.len(),
{
    if resources.len() == 0 {
        entries
    } else {
        filed(
            resources_filed(entries, resources.drop_last(), now),
            library_lines(resources.last().instrumentation_library_logs@),
            resource_fields(resources.last()),
            now,
        )
    }
}

/// The counts of an address after `messages` more messages of `bytes` bytes.
pub open spec fn stats_plus(stats: LogStats, messages: nat, bytes: nat) -> LogStats {
    LogStats {
        message_count: (stats.message_count + messages) as u64,
        byte_count: (stats.byte_count + bytes) as u64,
    }
}

/// Whether `after` is the state `before` with the logs of a list of
/// resources added that one address sent at the time `now`: the lines and
/// their bytes are counted in all and, if there is a resource at all, for
/// the address; with `store` each line is filed with the metadata of its
/// resource. What is known of metrics and traces stays.
pub open spec fn otlp_logs_added(
    before: AppState,
    resources: Seq<ResourceLogs>,
    address: Seq<char>,
    store: bool,
    now: u64,
    after: AppState,
) -> bool {
    let lines = all_lines(resources);
    &&& after.log_stats.total.message_count == before.log_stats.total.message_count + lines.len()
    &&& after.log_stats.total.byte_count == before.log_stats.total.byte_count + bytes_total(lines)
    &&& after.log_stats.ipaddr@ == if resources.len() == 0 {
        before.log_stats.ipaddr@
    } else {
        before.log_stats.ipaddr@.insert(
            address,
            stats_plus(stats_in(before.log_stats.ipaddr@, address), lines.len(), bytes_total(lines)),
        )
    }
    &&& after.log_messages.entries() == if store {
        resources_filed(before.log_messages.entries(), resources, now)
    } else {
        before.log_messages.entries()
    }
    &&& after.log_messages.cache() == before.log_messages.cache()
    &&& after.metrics == before.metrics
    &&& after.metrics_list == before.metrics_list
    &&& after.metrics_ip_list == before.metrics_ip_list
    &&& after.metrics_samples == before.metrics_samples
    &&& after.spans == before.spans
    &&& after.spans_list == before.spans_list
    &&& after.traces_list == before.traces_list
}

/// Whether `after` and `response` are the state and the answer once the
/// decoded logs of a request have been taken at the time `now`. A body that
/// could not be decoded, and logs that the counters cannot take, change
/// nothing.
pub open spec fn otlp_logs_taken(
    before: AppState,
    decoded: Option<Vec<ResourceLogs>>,
    address: Seq<char>,
    store: bool,
    now: u64,
    after: AppState,
    response: ResponseView,
) -> bool {
    match decoded {
        None => response == undecodable_reply() && after == before,
        Some(resources) => if before.log_stats.total.message_count + all_lines(resources@).len()
            <= u64::MAX && before.log_stats.total.byte_count + bytes_total(all_lines(resources@))
            <= u64::MAX {
            response == ok_reply() && otlp_logs_added(before, resources@, address, store, now, after)
        } else {
            response == overflow_reply() && after == before
        },
    }
}

/// The bytes of two lists of lines are the bytes of the two in a row.
pub proof fn lemma_bytes_total_add(a: Seq<Seq<char>>, b: Seq<Seq<char>>)
    ensures
        bytes_total(a + b) == bytes_total(a) + bytes_total(b),
    decreases b.len(),
{
    if b.len() == 0 {
        assert(a + b =~= a);
    } else {
        lemma_bytes_total_add(a, b.drop_last());
        assert((a + b).drop_last() =~= a + b.drop_last());
    }
}

/// The number of bytes of a list of lines, if it stays within the range of
/// the type.
fn checked_bytes(lines: &Vec<String>) -> (bytes: Option<u64>)
    ensures
        bytes is Some <==> bytes_total(texts(lines@)) <= u64::MAX,
        bytes is Some ==> bytes->0 == bytes_total(texts(lines@)),
{
    let mut bytes: u64 = 0;
    let mut i: usize = 0;
    let ghost all = texts(lines@);
    proof {
        assert(all.take(0) =~= Seq::<Seq<char>>::empty());
    }
    while i < lines.len()
        invariant
            i <= lines@.len(),
            all == texts(lines@),
            bytes == bytes_total(all.take(i as int)),
        decreases lines@.len() - i,
    {
        let len = lines[i].as_str().as_bytes().len() as u64;
        proof {
            assert(all.take(i as int + 1).drop_last() =~= all.take(i as int));
            assert(all.take(i as int + 1).last() == lines@[i as int]@);
            lemma_bytes_prefix(all, i as int + 1);
        }
        if len > u64::MAX - bytes {
            return None;
        }
        bytes += len;
        i += 1;
    }
    proof {
        assert(all.take(lines@.len() as int) =~= all);
    }
    Some(bytes)
}

/// Takes the decoded logs of a request at the time `now`: for each
/// resource, the lines of its records are counted and, if logs are stored,
/// filed with the metadata of the resource. `decoded` is nothing where the
/// body could not be decoded.
pub fn take_otlp_logs(
    state: &mut AppState,
    decoded: &Option<Vec<ResourceLogs>>,
    address: &str,
    opts: &Options,
    now: u64,
) -> (response: Response)
    requires
        old(state).wf(),
    ensures
        final(state).wf(),
        otlp_logs_taken(*old(state), *decoded, address@, opts.store_logs, now, *final(state), response@),
{
    let resources = match decoded {
        Some(resources) => resources,
        None => {
            return text_response(400, "Unable to parse body".to_owned());
        },
    };
    let n = resources.len();
    let mut batches: Vec<(Metadata, Vec<String>)> = Vec::new();
    let mut messages: u64 = 0;
    let mut bytes: u64 = 0;
    let mut fits = true;
    let room_messages: u64 = u64::MAX - state.log_stats.total.message_count;
    let room_bytes: u64 = u64::MAX - state.log_stats.total.byte_count;
    let mut i: usize = 0;
    proof {
        assert(resources@.take(0) =~= Seq::<ResourceLogs>::empty());
    }
    while i < n && fits
        invariant
            n == resources@.len(),
            i <= n,
            batches@.len() == i,
            forall|j: int|
                0 <= j < i ==> (#[trigger] batches@[j]).0.wf() && batches@[j].0.text() == resource_fields(
                    resources@[j],
                ) && texts(batches@[j].1@) == library_lines(
                    resources@[j].instrumentation_library_logs@,
                ),
            fits ==> messages == all_lines(resources@.take(i as int)).len(),
            fits ==> bytes == bytes_total(all_lines(resources@.take(i as int))),
            fits ==> messages <= room_messages && bytes <= room_bytes,
            !fits ==> all_lines(resources@).len() > room_messages || bytes_total(all_lines(resources@))
                > room_bytes,
        decreases n - i + if fits { 1int } else { 0int },
    {
        let metadata = get_otlp_metadata_from_logs(&resources[i]);
        let lines = get_otlp_lines_from_logs(&resources[i]);
        proof {
            assert(resources@.take(i as int + 1).drop_last() =~= resources@.take(i as int));
            assert(resources@.take(i as int + 1).last() == resources@[i as int]);
            lemma_bytes_total_add(all_lines(resources@.take(i as int)), texts(lines@));
            lemma_all_lines_prefix(resources@, i as int + 1);
        }
        let more_bytes = checked_bytes(&lines);
        if lines.len() as u64 > room_messages - messages {
            fits = false;
        } else {
            match more_bytes {
                Some(more) => {
                    if more > room_bytes - bytes {
                        fits = false;
                    } else {
                        messages += lines.len() as u64;
                        bytes += more;
                        batches.push((metadata, lines));
                        i += 1;
                    }
                },
                None => {
                    fits = false;
                },
            }
        }
    }
    if !fits {
        return text_response(500, "counter overflow".to_owned());
    }
    proof {
        assert(resources@.take(n as int) =~= resources@);
    }
    let mut k: usize = 0;
    while k < n
        invariant
            n == resources@.len(),
            k <= n,
            batches@.len() == n,
            forall|j: int|
                0 <= j < n ==> (#[trigger] batches@[j]).0.wf() && batches@[j].0.text() == resource_fields(
                    resources@[j],
                ) && texts(batches@[j].1@) == library_lines(
                    resources@[j].instrumentation_library_logs@,
                ),
            old(state).log_stats.total.message_count + all_lines(resources@).len() <= u64::MAX,
            old(state).log_stats.total.byte_count + bytes_total(all_lines(resources@)) <= u64::MAX,
            old(state).wf(),
            state.wf(),
            otlp_logs_added(*old(state), resources@.take(k as int), address@, opts.store_logs, now, *state),
        decreases n - k,
    {
        proof {
            assert(resources@.take(k as int + 1).drop_last() =~= resources@.take(k as int));
            assert(resources@.take(k as int + 1).last() == resources@[k as int]);
            lemma_bytes_total_add(all_lines(resources@.take(k as int)), texts(batches@[k as int].1@));
            lemma_all_lines_prefix(resources@, k as int + 1);
        }
        let ghost mid = *state;
        state.add_log_lines_at(&batches[k].1, &batches[k].0, address, opts, now);
        proof {
            let seen = all_lines(resources@.take(k as int));
            let lines = texts(batches@[k as int].1@);
            let stats = stats_in(old(state).log_stats.ipaddr@, address@);
            lemma_stats_bounded(old(state).log_stats, address@);
            lemma_all_lines_prefix(resources@, k as int);
            if k > 0 {
                assert(stats_in(mid.log_stats.ipaddr@, address@) == stats_plus(
                    stats,
                    seen.len(),
                    bytes_total(seen),
                ));
            } else {
                assert(seen =~= Seq::<Seq<char>>::empty());
            }
            assert(state.log_stats.ipaddr@ =~= old(state).log_stats.ipaddr@.insert(
                address@,
                stats_plus(stats, (seen + lines).len(), bytes_total(seen + lines)),
            ));
        }
        k += 1;
    }
    proof {
        assert(resources@.take(n as int) =~= resources@);
    }
    text_response(200, String::new())
}

/// The lines of the first resources of a list are no more, and have no more
/// bytes, than those of the whole list.
pub proof fn lemma_all_lines_prefix(resources: Seq<ResourceLogs>, i: int)
    requires
        0 <= i <= resources.len(),
    ensures
        all_lines(resources.take(i)).len() <= all_lines(resources).len(),
        bytes_total(all_lines(resources.take(i))) <= bytes_total(all_lines(resources)),
    decreases resources.len() - i,
{
    if i < resources.len() {
        assert(resources.take(i + 1).drop_last() =~= resources.take(i));
        lemma_bytes_total_add(
            all_lines(resources.take(i)),
            library_lines(resources[i].instrumentation_library_logs@),
        );
        lemma_all_lines_prefix(resources, i + 1);
    } else {
        assert(resources.take(i) =~= resources);
    }
}

/// An item of a resource with the attributes of the resource.
pub type Tagged<T> = (T, Seq<KeyValue>);

/// The items of a list, each with the same attributes.
pub open spec fn tag_all<T>(items: Seq<T>, attrs: Seq<KeyValue>) -> Seq<Tagged<T>> {
    Seq::new(items.len(), |i: int| (items[i], attrs))
}

/// What a list of references to items and attributes refers to.
pub open spec fn tagged_view<T>(refs: Seq<(&T, &Vec<KeyValue>)>) -> Seq<Tagged<T>> {
    Seq::new(refs.len(), |i: int| (*refs[i].0, refs[i].1@))
}

/// Appends the items of a list of lists, each with the given attributes.
fn tag_items<'a, T>(out: &mut Vec<(&'a T, &'a Vec<KeyValue>)>, lists: &'a Vec<Vec<T>>, attrs: &'a Vec<KeyValue>)
    ensures
        tagged_view(final(out)@) == tagged_view(old(out)@) + tag_all(flat(lists@), attrs@),
{
    let items = flatten(lists);
    let ghost before = tagged_view(out@);
    let mut i: usize = 0;
    proof {
        assert(tag_all(flat(lists@), attrs@).take(0) =~= Seq::<Tagged<T>>::empty());
        assert(before + Seq::<Tagged<T>>::empty() =~= before);
    }
    while i < items.len()
        invariant
            i <= items@.len(),
            targets(items@) == flat(lists@),
            tagged_view(out@) == before + tag_all(flat(lists@), attrs@).take(i as int),
        decreases items@.len() - i,
    {
        let ghost so_far = out@;
        out.push((items[i], attrs));
        proof {
            let all = tag_all(flat(lists@), attrs@);
            assert(targets(items@)[i as int] == *items@[i as int]);
            assert(tagged_view(out@) =~= tagged_view(so_far).push(all[i as int]));
            assert(all.take(i as int + 1) =~= all.take(i as int).push(all[i as int]));
        }
        i += 1;
    }
    proof {
        let all = tag_all(flat(lists@), attrs@);
        assert(all.take(items@.len() as int) =~= all);
    }
}

/// The metrics of a list of resources, each with the attributes of its
/// resource. What comes without a resource is passed over.
pub open spec fn tagged_metrics(resources: Seq<ResourceMetrics>) -> Seq<Tagged<Metric>>
    decreases resources.len(),
{
    if resources.len() == 0 {
        Seq::empty()
    } else {
        match resources.last().resource {
            None => tagged_metrics(resources.drop_last()),
            Some(attrs) => tagged_metrics(resources.drop_last()) + tag_all(
                flat(resources.last().instrumentation_library_metrics@),
                attrs@,
            ),
        }
    }
}

/// The spans of a list of resources, each with the attributes of its
/// resource. What comes without a resource is passed over.
pub open spec fn tagged_spans(resources: Seq<ResourceSpans>) -> Seq<Tagged<OtlpSpan>>
    decreases resources.len(),
{
    if resources.len() == 0 {
        Seq::empty()
    } else {
        match resources.last().resource {
            None => tagged_spans(resources.drop_last()),
            Some(attrs) => tagged_spans(resources.drop_last()) + tag_all(
                flat(resources.last().instrumentation_library_spans@),
                attrs@,
            ),
        }
    }
}

/// The names of a list of metrics.
pub open spec fn metric_names(metrics: Seq<Tagged<Metric>>) -> Seq<Option<Seq<char>>> {
    Seq::new(metrics.len(), |i: int| Some(metrics[i].0.name@))
}

/// The samples of a list of metrics, metric after metric.
pub open spec fn metric_samples(metrics: Seq<Tagged<Metric>>) -> Seq<SampleView>
    decreases metrics.len(),
{
    if metrics.len() == 0 {
        Seq::empty()
    } else {
        metric_samples(metrics.drop_last()) + metric_views(metrics.last().0, metrics.last().1)
    }
}

/// Whether `result` is what the metrics of a list of resources come to that
/// one address sent: each metric counts for its name and for the address,
/// and with `store` the samples of the metrics are kept, the first one of
/// each series.
pub open spec fn otlp_decoded(
    result: MetricsHandleResult,
    resources: Seq<ResourceMetrics>,
    address: Seq<char>,
    store: bool,
) -> bool {
    &&& result.wf()
    &&& result.balanced()
    &&& result.counts(metric_names(tagged_metrics(resources)), address, false)
    &&& result.metrics_samples.views() == if store {
        keep_all(Seq::<SampleView>::empty(), metric_samples(tagged_metrics(resources)))
    } else {
        Seq::<SampleView>::empty()
    }
}

/// The metrics of a list of resources, each with the attributes of its
/// resource.
fn gather_metrics<'a>(resources: &'a Vec<ResourceMetrics>) -> (out: Vec<(&'a Metric, &'a Vec<KeyValue>)>)
    ensures
        tagged_view(out@) == tagged_metrics(resources@),
{
    let mut out: Vec<(&'a Metric, &'a Vec<KeyValue>)> = Vec::new();
    let mut i: usize = 0;
    proof {
        assert(resources@.take(0) =~= Seq::<ResourceMetrics>::empty());
        assert(tagged_view(out@) =~= Seq::<Tagged<Metric>>::empty());
    }
    while i < resources.len()
        invariant
            i <= resources@.len(),
            tagged_view(out@) == tagged_metrics(resources@.take(i as int)),
        decreases resources@.len() - i,
    {
        proof {
            assert(resources@.take(i as int + 1).drop_last() =~= resources@.take(i as int));
            assert(resources@.take(i as int + 1).last() == resources@[i as int]);
        }
        match &resources[i].resource {
            Some(attrs) => {
                tag_items(&mut out, &resources[i].instrumentation_library_metrics, attrs);
            },
            None => {},
        }
        i += 1;
    }
    proof {
        assert(resources@.take(resources@.len() as int) =~= resources@);
    }
    out
}

/// The spans of a list of resources, each with the attributes of its
/// resource.
fn gather_spans<'a>(resources: &'a Vec<ResourceSpans>) -> (out: Vec<(&'a OtlpSpan, &'a Vec<KeyValue>)>)
    ensures
        tagged_view(out@) == tagged_spans(resources@),
{
    let mut out: Vec<(&'a OtlpSpan, &'a Vec<KeyValue>)> = Vec::new();
    let mut i: usize = 0;
    proof {
        assert(resources@.take(0) =~= Seq::<ResourceSpans>::empty());
        assert(tagged_view(out@) =~= Seq::<Tagged<OtlpSpan>>::empty());
    }
    while i < resources.len()
        invariant
            i <= resources@.len(),
            tagged_view(out@) == tagged_spans(resources@.take(i as int)),
        decreases resources@.len() - i,
    {
        proof {
            assert(resources@.take(i as int + 1).drop_last() =~= resources@.take(i as int));
            assert(resources@.take(i as int + 1).last() == resources@[i as int]);
        }
        match &resources[i].resource {
            Some(attrs) => {
                tag_items(&mut out, &resources[i].instrumentation_library_spans, attrs);
            },
            None => {},
        }
        i += 1;
    }
    proof {
        assert(resources@.take(resources@.len() as int) =~= resources@);
    }
    out
}

/// What the metrics of a list of resources come to that one address sent.
pub fn decode_otlp_metrics(resources: &Vec<ResourceMetrics>, address: &str, opts: &Options) -> (result:
    MetricsHandleResult)
    ensures
        otlp_decoded(result, resources@, address@, opts.store_metrics),
{
    let metrics = gather_metrics(resources);
    let ghost all = tagged_view(metrics@);
    let mut names: Vec<Option<String>> = Vec::new();
    let mut i: usize = 0;
    while i < metrics.len()
        invariant
            i <= metrics@.len(),
            names@.len() == i,
            all == tagged_view(metrics@),
            forall|j: int| 0 <= j < i ==> #[trigger] names@[j] is Some && names@[j]->0@ == all[j].0.name@,
        decreases metrics@.len() - i,
    {
        names.push(Some(metrics[i].0.name.clone()));
        i += 1;
    }
    proof {
        assert(option_texts(names@) =~= metric_names(all));
    }
    let mut result = MetricsHandleResult::tally(&names, address, false);
    if opts.store_metrics {
        let mut samples = SampleSet::new();
        let mut k: usize = 0;
        proof {
            assert(all.take(0) =~= Seq::<Tagged<Metric>>::empty());
        }
        while k < metrics.len()
            invariant
                k <= metrics@.len(),
                all == tagged_view(metrics@),
                samples.wf(),
                samples.views() == keep_all(Seq::<SampleView>::empty(), metric_samples(all.take(k as int))),
            decreases metrics@.len() - k,
        {
            let found = otlp_metric_to_samples(metrics[k].0, metrics[k].1);
            let ghost done = metric_samples(all.take(k as int));
            let ghost current = sample_views(found@);
            let mut j: usize = 0;
            proof {
                assert(all.take(k as int + 1).drop_last() =~= all.take(k as int));
                assert(all.take(k as int + 1).last() == all[k as int]);
                assert(done + current.take(0) =~= done);
            }
            while j < found.len()
                invariant
                    j <= found@.len(),
                    samples_wf(found@),
                    current == sample_views(found@),
                    samples.wf(),
                    samples.views() == keep_all(Seq::<SampleView>::empty(), done + current.take(j as int)),
                decreases found@.len() - j,
            {
                proof {
                    assert((done + current.take(j as int + 1)).drop_last() =~= done + current.take(
                        j as int,
                    ));
                    assert((done + current.take(j as int + 1)).last() == found@[j as int]@);
                }
                samples.insert(found[j].duplicate());
                j += 1;
            }
            proof {
                assert(current.take(found@.len() as int) =~= current);
            }
            k += 1;
        }
        proof {
            assert(all.take(metrics@.len() as int) =~= all);
        }
        result.metrics_samples = samples;
    }
    result
}

/// Whether `after` and `response` are the state and the answer once the
/// decoded metrics of a request have been taken. A body that could not be
/// decoded, and metrics that the counters cannot take, change nothing.
pub open spec fn otlp_metrics_taken(
    before: AppState,
    decoded: Option<Vec<ResourceMetrics>>,
    address: Seq<char>,
    store: bool,
    after: AppState,
    response: ResponseView,
) -> bool {
    match decoded {
        None => response == undecodable_reply() && after == before,
        Some(resources) => exists|result: MetricsHandleResult| #[trigger]
            otlp_decoded(result, resources@, address, store) && metrics_taken(
                before,
                result,
                store,
                after,
                response,
            ),
    }
}

/// Takes the decoded metrics of a request: each metric of a resource counts
/// for its name and for the address, and if metrics are stored, each data
/// point of a gauge or a sum is stored as a sample. `decoded` is nothing
/// where the body could not be decoded.
pub fn take_otlp_metrics(
    state: &mut AppState,
    decoded: &Option<Vec<ResourceMetrics>>,
    address: &str,
    opts: &Options,
) -> (response: Response)
    requires
        old(state).wf(),
    ensures
        final(state).wf(),
        otlp_metrics_taken(*old(state), *decoded, address@, opts.store_metrics, *final(state), response@),
{
    match decoded {
        Some(resources) => {
            let result = decode_otlp_metrics(resources, address, opts);
            take_metrics(state, result, opts)
        },
        None => text_response(400, "Unable to parse body".to_owned()),
    }
}

/// The span to store for a span of a resource.
pub open spec fn span_view_of(span: Tagged<OtlpSpan>) -> SpanView {
    SpanView {
        name: span.0.name@,
        id: hex_text(span.0.span_id@),
        trace_id: hex_text(span.0.trace_id@),
        parent_span_id: hex_text(span.0.parent_span_id@),
        attributes: tags(span.0.attributes@, span.1),
    }
}

/// The spans to store for the spans of a list of resources.
pub open spec fn decoded_spans(resources: Seq<ResourceSpans>) -> Seq<SpanView> {
    Seq::new(tagged_spans(resources).len(), |i: int| span_view_of(tagged_spans(resources)[i]))
}

/// The spans to store for the spans of a list of resources, with their
/// number.
pub fn decode_otlp_traces(resources: &Vec<ResourceSpans>) -> (result: TracesHandleResult)
    ensures
        spans_wf(result.spans@),
        span_views(result.spans@) == decoded_spans(resources@),
        result.spans_count == result.spans@.len(),
{
    let spans = gather_spans(resources);
    let mut result = TracesHandleResult::new();
    let mut i: usize = 0;
    while i < spans.len()
        invariant
            i <= spans@.len(),
            tagged_view(spans@) == tagged_spans(resources@),
            result.spans@.len() == i,
            result.spans_count == i,
            spans_wf(result.spans@),
            forall|j: int|
                0 <= j < i ==> (#[trigger] result.spans@[j])@ == span_view_of(tagged_view(spans@)[j]),
        decreases spans@.len() - i,
    {
        let span = otlp_span_to_span(spans[i].0, spans[i].1);
        result.handle_span(span);
        i += 1;
    }
    proof {
        assert(span_views(result.spans@) =~= decoded_spans(resources@));
    }
    result
}

/// Whether `after` and `response` are the state and the answer once the
/// decoded spans of a request have been taken: the spans are counted and,
/// with `store`, stored by identifier and in the lists of their traces. A
/// body that could not be decoded, and spans that the counter cannot take,
/// change nothing.
pub open spec fn otlp_traces_taken(
    before: AppState,
    decoded: Option<Vec<ResourceSpans>>,
    store: bool,
    after: AppState,
    response: ResponseView,
) -> bool {
    match decoded {
        None => response == undecodable_reply() && after == before,
        Some(resources) => {
            let spans = decoded_spans(resources@);
            if before.spans + spans.len() <= u64::MAX {
                &&& response == ok_reply()
                &&& after.spans == before.spans + spans.len()
                &&& stored_spans(after.spans_list@) == if store {
                    spans_after(stored_spans(before.spans_list@), spans)
                } else {
                    stored_spans(before.spans_list@)
                }
                &&& stored_traces(after.traces_list@) == if store {
                    traces_after(stored_traces(before.traces_list@), spans)
                } else {
                    stored_traces(before.traces_list@)
                }
                &&& after.metrics == before.metrics
                &&& after.metrics_list == before.metrics_list
                &&& after.metrics_ip_list == before.metrics_ip_list
                &&& after.metrics_samples == before.metrics_samples
                &&& after.log_stats == before.log_stats
                &&& after.log_messages == before.log_messages
            } else {
                response == overflow_reply() && after == before
            }
        },
    }
}

/// Takes the decoded spans of a request. `decoded` is nothing where the
/// body could not be decoded.
pub fn take_otlp_traces(state: &mut AppState, decoded: &Option<Vec<ResourceSpans>>, opts: &Options) -> (response:
    Response)
    requires
        old(state).wf(),
    ensures
        final(state).wf(),
        otlp_traces_taken(*old(state), *decoded, opts.store_traces, *final(state), response@),
{
    match decoded {
        Some(resources) => {
            let result = decode_otlp_traces(resources);
            if result.spans_count > u64::MAX - state.spans {
                text_response(500, "counter overflow".to_owned())
            } else {
                state.add_traces_result(&result, opts);
                text_response(200, String::new())
            }
        },
        None => text_response(400, "Unable to parse body".to_owned()),
    }
}

/// Whether `after` and `response` are the state and the answer once a
/// request with logs has been handled for which `number` was drawn, at the
/// time `now`. A request that is refused changes nothing.
pub open spec fn otlp_logs_received(
    before: AppState,
    peer: Option<String>,
    headers: Map<Seq<char>, Option<Seq<char>>>,
    decoded: Option<Vec<ResourceLogs>>,
    opts: Options,
    number: i64,
    now: u64,
    after: AppState,
    response: ResponseView,
) -> bool {
    match otlp_refusal(headers, opts.drop_rate, number) {
        Some(reply) => response == reply && after == before,
        None => otlp_logs_taken(before, decoded, address_of(peer), opts.store_logs, now, after, response),
    }
}

/// Whether `after` and `response` are the state and the answer once a
/// request with metrics has been handled for which `number` was drawn. A
/// request that is refused changes nothing.
pub open spec fn otlp_metrics_received(
    before: AppState,
    peer: Option<String>,
    headers: Map<Seq<char>, Option<Seq<char>>>,
    decoded: Option<Vec<ResourceMetrics>>,
    opts: Options,
    number: i64,
    after: AppState,
    response: ResponseView,
) -> bool {
    match otlp_refusal(headers, opts.drop_rate, number) {
        Some(reply) => response == reply && after == before,
        None => otlp_metrics_taken(before, decoded, address_of(peer), opts.store_metrics, after, response),
    }
}

/// Whether `after` and `response` are the state and the answer once a
/// request with spans has been handled for which `number` was drawn. A
/// request that is refused changes nothing.
pub open spec fn otlp_traces_received(
    before: AppState,
    headers: Map<Seq<char>, Option<Seq<char>>>,
    decoded: Option<Vec<ResourceSpans>>,
    opts: Options,
    number: i64,
    after: AppState,
    response: ResponseView,
) -> bool {
    match otlp_refusal(headers, opts.drop_rate, number) {
        Some(reply) => response == reply && after == before,
        None => otlp_traces_taken(before, decoded, opts.store_traces, after, response),
    }
}

/// Handles a request with logs in the OpenTelemetry protocol for which
/// `number` was drawn, at the time `now`. `decoded` is the body as it was
/// decoded, or nothing where it could not be.
pub fn receive_otlp_logs(
    state: &mut AppState,
    peer_address: &Option<String>,
    headers: &Headers,
    decoded: &Option<Vec<ResourceLogs>>,
    opts: &Options,
    number: i64,
    now: u64,
) -> (response: Response)
    requires
        old(state).wf(),
        headers.wf(),
    ensures
        final(state).wf(),
        otlp_logs_received(
            *old(state),
            *peer_address,
            header_views(headers@),
            *decoded,
            *opts,
            number,
            now,
            *final(state),
            response@,
        ),
{
    match otlp_admit(headers, opts, number) {
        Some(refusal) => refusal,
        None => {
            let address = get_address(peer_address);
            take_otlp_logs(state, decoded, address.as_str(), opts, now)
        },
    }
}

/// Handles a request with metrics in the OpenTelemetry protocol for which
/// `number` was drawn.
pub fn receive_otlp_metrics(
    state: &mut AppState,
    peer_address: &Option<String>,
    headers: &Headers,
    decoded: &Option<Vec<ResourceMetrics>>,
    opts: &Options,
    number: i64,
) -> (response: Response)
    requires
        old(state).wf(),
        headers.wf(),
    ensures
        final(state).wf(),
        otlp_metrics_received(
            *old(state),
            *peer_address,
            header_views(headers@),
            *decoded,
            *opts,
            number,
            *final(state),
            response@,
        ),
{
    match otlp_admit(headers, opts, number) {
        Some(refusal) => refusal,
        None => {
            let address = get_address(peer_address);
            take_otlp_metrics(state, decoded, address.as_str(), opts)
        },
    }
}

/// Handles a request with spans in the OpenTelemetry protocol for which
/// `number` was drawn.
pub fn receive_otlp_traces(
    state: &mut AppState,
    headers: &Headers,
    decoded: &Option<Vec<ResourceSpans>>,
    opts: &Options,
    number: i64,
) -> (response: Response)
    requires
        old(state).wf(),
        headers.wf(),
    ensures
        final(state).wf(),
        otlp_traces_received(
            *old(state),
            header_views(headers@),
            *decoded,
            *opts,
            number,
            *final(state),
            response@,
        ),
{
    match otlp_admit(headers, opts, number) {
        Some(refusal) => refusal,
        None => take_otlp_traces(state, decoded, opts),
    }
}

/// Handles a request with logs in the OpenTelemetry protocol: draws the
/// number that decides whether the request is dropped, and reads the clock
/// for the records that hold no timestamp.
pub fn handler_receiver_otlp_logs(
    state: &mut AppState,
    peer_address: &Option<String>,
    headers: &Headers,
    decoded: &Option<Vec<ResourceLogs>>,
    opts: &Options,
) -> (response: Response)
    requires
        old(state).wf(),
        headers.wf(),
    ensures
        final(state).wf(),
        exists|number: i64, now: u64|
            0 <= number < 100 && #[trigger] otlp_logs_received(
                *old(state),
                *peer_address,
                header_views(headers@),
                *decoded,
                *opts,
                number,
                now,
                *final(state),
                response@,
            ),
{
    let number = draw_percent();
    let now = get_now_ms();
    receive_otlp_logs(state, peer_address, headers, decoded, opts, number, now)
}

/// Handles a request with metrics in the OpenTelemetry protocol: draws the
/// number that decides whether the request is dropped.
pub fn handler_receiver_otlp_metrics(
    state: &mut AppState,
    peer_address: &Option<String>,
    headers: &Headers,
    decoded: &Option<Vec<ResourceMetrics>>,
    opts: &Options,
) -> (response: Response)
    requires
        old(state).wf(),
        headers.wf(),
    ensures
        final(state).wf(),
        exists|number: i64|
            0 <= number < 100 && #[trigger] otlp_metrics_received(
                *old(state),
                *peer_address,
                header_views(headers@),
                *decoded,
                *opts,
                number,
                *final(state),
                response@,
            ),
{
    let number = draw_percent();
    receive_otlp_metrics(state, peer_address, headers, decoded, opts, number)
}

/// Handles a request with spans in the OpenTelemetry protocol: draws the
/// number that decides whether the request is dropped.
pub fn handler_receiver_otlp_traces(
    state: &mut AppState,
    headers: &Headers,
    decoded: &Option<Vec<ResourceSpans>>,
    opts: &Options,
) -> (response: Response)
    requires
        old(state).wf(),
        headers.wf(),
    ensures
        final(state).wf(),
        exists|number: i64|
            0 <= number < 100 && #[trigger] otlp_traces_received(
                *old(state),
                header_views(headers@),
                *decoded,
                *opts,
                number,
                *final(state),
                response@,
            ),
{
    let number = draw_percent();
    receive_otlp_traces(state, headers, decoded, opts, number)
}

} // verus!
