use crate::labels::Labels;
use crate::query::{matches_query, query_matches};
use crate::strmap::StrMap;
use crate::text::texts;
use vstd::prelude::*;

verus! {

/// The identifier of a trace: the lower-case hexadecimal digits of its bytes.
pub type TraceId = String;

/// The identifier of a span: the lower-case hexadecimal digits of its bytes.
pub type SpanId = String;

/// One span of a trace.
#[derive(Debug)]
pub struct Span {
    pub name: String,
    pub id: SpanId,
    pub trace_id: TraceId,
    pub parent_span_id: SpanId,
    pub attributes: Labels,
}

/// What a span holds, as mathematical values.
pub struct SpanView {
    pub name: Seq<char>,
    pub id: Seq<char>,
    pub trace_id: Seq<char>,
    pub parent_span_id: Seq<char>,
    pub attributes: Map<Seq<char>, Seq<char>>,
}

impl SpanView {
    /// Whether the span meets every entry of `query`: the key `__name__`
    /// stands for the span's name, any other key for the attribute of that
    /// name.
    pub open spec fn matches(self, query: Map<Seq<char>, Seq<char>>) -> bool {
        query_matches(self.name, self.attributes, query)
    }
}

impl View for Span {
    type V = SpanView;

    open spec fn view(&self) -> SpanView {
        SpanView {
            name: self.name@,
            id: self.id@,
            trace_id: self.trace_id@,
            parent_span_id: self.parent_span_id@,
            attributes: self.attributes.text(),
        }
    }
}

impl Span {
    /// The attributes are a well-formed map.
    pub open spec fn wf(&self) -> bool {
        self.attributes.wf()
    }

    /// A copy that holds the same values.
    pub fn duplicate(&self) -> (out: Span)
        requires
            self.wf(),
        ensures
            out.wf(),
            out@ == self@,
    {
        Span {
            name: self.name.clone(),
            id: self.id.clone(),
            trace_id: self.trace_id.clone(),
            parent_span_id: self.parent_span_id.clone(),
            attributes: self.attributes.duplicate(),
        }
    }

    /// The span in words: its name and its three identifiers.
    pub fn describe(&self) -> (line: String)
        ensures
            line@ == "name: "@ + self.name@ + ", span_id: "@ + self.id@ + ", parent_span_id: "@
                + self.parent_span_id@ + ", trace_id: "@ + self.trace_id@,
    {
        let mut line = "name: ".to_owned();
        line.append(self.name.as_str());
        line.append(", span_id: ");
        line.append(self.id.as_str());
        line.append(", parent_span_id: ");
        line.append(self.parent_span_id.as_str());
        line.append(", trace_id: ");
        line.append(self.trace_id.as_str());
        line
    }
}

/// The spans of one trace, by identifier, in the order in which they came.
#[derive(Debug)]
pub struct Trace {
    pub span_ids: Vec<SpanId>,
}

impl Trace {
    /// A trace without spans.
    pub fn new() -> (trace: Self)
        ensures
            trace.span_ids@ == Seq::<SpanId>::empty(),
    {
        Trace { span_ids: Vec::new() }
    }
}

/// The spans that one request brought.
#[derive(Debug)]
pub struct TracesHandleResult {
    pub spans_count: u64,
    pub spans: Vec<Span>,
}

impl TracesHandleResult {
    /// A result without spans.
    pub fn new() -> (result: Self)
        ensures
            result.spans_count == 0,
            result.spans@ == Seq::<Span>::empty(),
    {
        TracesHandleResult { spans_count: 0, spans: Vec::new() }
    }

    /// Takes one more span.
    pub fn handle_span(&mut self, span: Span)
        requires
            old(self).spans_count < u64::MAX,
        ensures
            final(self).spans_count == old(self).spans_count + 1,
            final(self).spans@ == old(self).spans@.push(span),
    {
        self.spans_count += 1;
        self.spans.push(span);
    }
}

/// Every span of the list has well-formed attributes.
pub open spec fn spans_wf(spans: Seq<Span>) -> bool {
    forall|i: int| 0 <= i < spans.len() ==> (#[trigger] spans[i]).wf()
}

/// What each span of a list holds.
pub open spec fn span_views(spans: Seq<Span>) -> Seq<SpanView> {
    Seq::new(spans.len(), |i: int| spans[i]@)
}

/// What each span holds that a list refers to.
pub open spec fn span_ref_views(spans: Seq<&Span>) -> Seq<SpanView> {
    Seq::new(spans.len(), |i: int| spans[i]@)
}

/// What the spans of each list of a list hold.
pub open spec fn trace_views(traces: Seq<Vec<&Span>>) -> Seq<Seq<SpanView>> {
    Seq::new(traces.len(), |i: int| span_ref_views(traces[i]@))
}

/// The spans that a list of identifiers finds among the stored spans, in the
/// order of the list. An identifier without a stored span is passed over.
pub open spec fn found_spans(ids: Seq<Seq<char>>, spans: Map<Seq<char>, Span>) -> Seq<SpanView>
    decreases ids.len(),
{
    if ids.len() == 0 {
        Seq::empty()
    } else if spans.contains_key(ids.last()) {
        found_spans(ids.drop_last(), spans).push(spans[ids.last()]@)
    } else {
        found_spans(ids.drop_last(), spans)
    }
}

/// Whether some span of the list meets every entry of `query`.
pub open spec fn any_matches(spans: Seq<SpanView>, query: Map<Seq<char>, Seq<char>>) -> bool {
    exists|i: int| 0 <= i < spans.len() && (#[trigger] spans[i]).matches(query)
}

/// The spans of each trace of a list, as far as they are stored.
pub open spec fn traces_spans(traces: Seq<Trace>, spans: Map<Seq<char>, Span>) -> Seq<Seq<SpanView>> {
    Seq::new(traces.len(), |i: int| found_spans(texts(traces[i].span_ids@), spans))
}

/// Whether the span meets every entry of `params`.
pub fn is_span_ok(span: &Span, params: &Labels) -> (ok: bool)
    requires
        span.wf(),
        params.wf(),
    ensures
        ok == span@.matches(params.text()),
{
    matches_query(span.name.as_str(), &span.attributes, params)
}

/// The stored spans that meet every entry of `params`, in the order in which
/// they are stored.
pub fn filter_spans<'a>(spans: &'a StrMap<Span>, params: &Labels) -> (out: Vec<&'a Span>)
    requires
        spans.wf(),
        spans_wf(spans.vals()),
        params.wf(),
    ensures
        span_ref_views(out@) == span_views(spans.vals()).filter(
            |v: SpanView| v.matches(params.text()),
        ),
{
    let ghost pred = |v: SpanView| v.matches(params.text());
    let ghost all = span_views(spans.vals());
    let mut out: Vec<&'a Span> = Vec::new();
    let n = spans.len();
    let mut i: usize = 0;
    proof {
        reveal(Seq::filter);
        assert(all.take(0) =~= Seq::<SpanView>::empty());
        assert(span_ref_views(out@) =~= Seq::<SpanView>::empty());
    }
    while i < n
        invariant
            spans.wf(),
            spans_wf(spans.vals()),
            params.wf(),
            n == spans.keys().len(),
            i <= n,
            pred == |v: SpanView| v.matches(params.text()),
            all == span_views(spans.vals()),
            span_ref_views(out@) == all.take(i as int).filter(pred),
        decreases n - i,
    {
        let span = spans.value_at(i);
        proof {
            assert(all.take(i as int + 1) =~= all.take(i as int).push(all[i as int]));
            all.take(i as int).lemma_filter_push(all[i as int], pred);
        }
        if is_span_ok(span, params) {
            let ghost before = out@;
            out.push(span);
            proof {
                assert(span_ref_views(out@) =~= span_ref_views(before).push(span@));
            }
        }
        i += 1;
    }
    proof {
        assert(all.take(n as int) =~= all);
    }
    out
}

/// The stored spans of one trace, in the order of its identifiers.
fn spans_of_trace<'a>(trace: &Trace, spans: &'a StrMap<Span>) -> (out: Vec<&'a Span>)
    requires
        spans.wf(),
        spans_wf(spans.vals()),
    ensures
        span_ref_views(out@) == found_spans(texts(trace.span_ids@), spans@),
        forall|i: int| 0 <= i < out@.len() ==> (#[trigger] out@[i]).wf(),
{
    let ghost ids = texts(trace.span_ids@);
    let mut out: Vec<&'a Span> = Vec::new();
    let n = trace.span_ids.len();
    let mut i: usize = 0;
    proof {
        assert(ids.take(0) =~= Seq::<Seq<char>>::empty());
        assert(span_ref_views(out@) =~= Seq::<SpanView>::empty());
    }
    while i < n
        invariant
            spans.wf(),
            spans_wf(spans.vals()),
            n == trace.span_ids@.len(),
            i <= n,
            ids == texts(trace.span_ids@),
            span_ref_views(out@) == found_spans(ids.take(i as int), spans@),
            forall|j: int| 0 <= j < out@.len() ==> (#[trigger] out@[j]).wf(),
        decreases n - i,
    {
        proof {
            assert(ids.take(i as int + 1).drop_last() =~= ids.take(i as int));
            assert(ids.take(i as int + 1).last() == trace.span_ids@[i as int]@);
        }
        match spans.position(trace.span_ids[i].as_str()) {
            Some(at) => {
                let span = spans.value_at(at);
                let ghost before = out@;
                out.push(span);
                proof {
                    assert(span_ref_views(out@) =~= span_ref_views(before).push(span@));
                }
            },
            None => {},
        }
        i += 1;
    }
    proof {
        assert(ids.take(n as int) =~= ids);
    }
    out
}

/// Whether some span of the list meets every entry of `params`.
fn any_span_ok(spans: &Vec<&Span>, params: &Labels) -> (ok: bool)
    requires
        forall|i: int| 0 <= i < spans@.len() ==> (#[trigger] spans@[i]).wf(),
        params.wf(),
    ensures
        ok == any_matches(span_ref_views(spans@), params.text()),
{
    let mut i: usize = 0;
    while i < spans.len()
        invariant
            i <= spans@.len(),
            params.wf(),
            forall|j: int| 0 <= j < spans@.len() ==> (#[trigger] spans@[j]).wf(),
            forall|j: int| 0 <= j < i ==> !(#[trigger] span_ref_views(spans@)[j]).matches(params.text()),
        decreases spans@.len() - i,
    {
        if is_span_ok(spans[i], params) {
            assert(span_ref_views(spans@)[i as int].matches(params.text()));
            return true;
        }
        i += 1;
    }
    false
}

/// The traces of which some stored span meets every entry of `params`, each
/// as the list of its stored spans, in the order in which the traces are
/// stored.
pub fn filter_traces<'a>(traces: &StrMap<Trace>, spans: &'a StrMap<Span>, params: &Labels) -> (out:
    Vec<Vec<&'a Span>>)
    requires
        traces.wf(),
        spans.wf(),
        spans_wf(spans.vals()),
        params.wf(),
    ensures
        trace_views(out@) == traces_spans(traces.vals(), spans@).filter(
            |vs: Seq<SpanView>| any_matches(vs, params.text()),
        ),
{
    let ghost pred = |vs: Seq<SpanView>| any_matches(vs, params.text());
    let ghost all = traces_spans(traces.vals(), spans@);
    let mut out: Vec<Vec<&'a Span>> = Vec::new();
    let n = traces.len();
    let mut i: usize = 0;
    proof {
        reveal(Seq::filter);
        assert(all.take(0) =~= Seq::<Seq<SpanView>>::empty());
        assert(trace_views(out@) =~= Seq::<Seq<SpanView>>::empty());
    }
    while i < n
        invariant
            traces.wf(),
            spans.wf(),
            spans_wf(spans.vals()),
            params.wf(),
            n == traces.keys().len(),
            i <= n,
            pred == |vs: Seq<SpanView>| any_matches(vs, params.text()),
            all == traces_spans(traces.vals(), spans@),
            trace_views(out@) == all.take(i as int).filter(pred),
        decreases n - i,
    {
        let found = spans_of_trace(traces.value_at(i), spans);
        proof {
            assert(all.take(i as int + 1) =~= all.take(i as int).push(all[i as int]));
            all.take(i as int).lemma_filter_push(all[i as int], pred);
        }
        if any_span_ok(&found, params) {
            let ghost before = out@;
            let ghost views = span_ref_views(found@);
            out.push(found);
            proof {
                assert(trace_views(out@) =~= trace_views(before).push(views));
            }
        }
        i += 1;
    }
    proof {
        assert(all.take(n as int) =~= all);
    }
    out
}

} // verus!
