use crate::decode::{
    carbon2_name, graphite_name, handle_carbon2, handle_graphite, handle_prometheus, names_by,
    prometheus_kept, prometheus_name,
};
use crate::metadata::{
    common_metadata, get_common_metadata_from_headers, header_views, parse_sumo_fields_header_value,
    sumo_fields, HeaderText, Headers, Metadata, MetadataErrorView, SourceHeader,
};
use crate::metrics::{named, MetricsHandleResult};
use crate::options::Options;
use crate::prometheus::prometheus_series;
use crate::sample::SampleView;
use crate::state::{bytes_total, AppState};
use crate::text::{lines_of, lines_spec, texts, trim, trim_spec};
use crate::time::get_now_ms;
use vstd::prelude::*;
use vstd::string::*;

verus! {

/// The identifier that every error answer carries.
pub const DUMMY_ERROR_ID: &'static str = "E40YU-CU3Q7-RQDM7";

/// One error of an error answer.
#[derive(Debug)]
pub struct ReceiverErrorErrorsField {
    pub code: String,
    pub message: String,
}

/// The answer to a request with a content type that the receiver does not
/// take.
#[derive(Debug)]
pub struct ReceiverError {
    pub id: String,
    pub errors: Vec<ReceiverErrorErrorsField>,
}

/// The body of an answer.
#[derive(Debug)]
pub enum ResponseBody {
    /// Plain text.
    Text(String),
    /// An error, to be sent as JSON.
    Error(ReceiverError),
}

/// The answer to a request.
#[derive(Debug)]
pub struct Response {
    pub status: u16,
    pub body: ResponseBody,
}

/// What an answer holds, as mathematical values. An error body stands as
/// its one message.
pub struct ResponseView {
    pub status: u16,
    pub is_error: bool,
    pub text: Seq<char>,
}

impl View for Response {
    type V = ResponseView;

    open spec fn view(&self) -> ResponseView {
        match self.body {
            ResponseBody::Text(text) => ResponseView {
                status: self.status,
                is_error: false,
                text: text@,
            },
            ResponseBody::Error(error) => ResponseView {
                status: self.status,
                is_error: true,
                text: if error.errors@.len() > 0 {
                    error.errors@[0].message@
                } else {
                    Seq::empty()
                },
            },
        }
    }
}

/// The answer with the given status and text.
pub open spec fn text_reply(status: u16, text: Seq<char>) -> ResponseView {
    ResponseView { status, is_error: false, text }
}

/// A request to the receiver, as far as the receiver looks at it.
#[derive(Debug)]
pub struct Request {
    /// The address of the peer as text, if it is known.
    pub peer_address: Option<String>,
    /// The headers by name, the names in lower case.
    pub headers: Headers,
    /// The body as text, or the reason why it is no text.
    pub body: Result<String, String>,
}

/// The kinds of data that the receiver takes, by content type.
#[derive(Clone, Copy, Debug, PartialEq, Eq, Structural)]
pub enum Format {
    Carbon2,
    Graphite,
    Prometheus,
    Logs,
}

/// The format that a content type stands for, if it stands for one.
pub open spec fn format_of(content_type: Seq<char>) -> Option<Format> {
    if content_type == "application/vnd.sumologic.carbon2"@ {
        Some(Format::Carbon2)
    } else if content_type == "application/vnd.sumologic.graphite"@ {
        Some(Format::Graphite)
    } else if content_type == "application/vnd.sumologic.prometheus"@ {
        Some(Format::Prometheus)
    } else if content_type == "application/x-www-form-urlencoded"@ {
        Some(Format::Logs)
    } else {
        None
    }
}

/// The address that data is counted for: the peer's, or the local address
/// where the peer's is not known.
pub open spec fn address_of(peer: Option<String>) -> Seq<char> {
    match peer {
        Some(address) => address@,
        None => "127.0.0.1"@,
    }
}

/// The content type of a request: the empty text where the header is
/// absent, and nothing where its value cannot be read as text.
pub open spec fn content_type_of(headers: Map<Seq<char>, Option<Seq<char>>>) -> Option<Seq<char>> {
    if headers.contains_key("content-type"@) {
        headers["content-type"@]
    } else {
        Some(Seq::empty())
    }
}

/// Whether a request is refused on purpose: the number drawn for it lies
/// under the drop rate.
pub open spec fn dropped(number: i64, drop_rate: i64) -> bool {
    number < drop_rate
}

/// The text of the answer to a request that is refused on purpose.
pub open spec fn drop_text(content_type: Seq<char>) -> Seq<char> {
    "Dropping data for "@ + content_type
}

/// The message of the answer to a content type that the receiver does not
/// take.
pub open spec fn invalid_header_text(content_type: Seq<char>) -> Seq<char> {
    "Invalid Content-Type header: "@ + content_type
}

/// The text of an error of the metadata.
pub open spec fn metadata_error_text(error: MetadataErrorView) -> Seq<char> {
    match error {
        MetadataErrorView::Unreadable(SourceHeader::Name) => "Couldn't parse X-Sumo-Name header value"@,
        MetadataErrorView::Unreadable(SourceHeader::Host) => "Couldn't parse X-Sumo-Host header value"@,
        MetadataErrorView::Unreadable(SourceHeader::Category) => "Couldn't parse X-Sumo-Category header value"@,
        MetadataErrorView::NoEquals(entry) => "Failed to parse X-Sumo-Fields, no `=` in "@ + entry,
    }
}

/// The metadata of the log lines of a request: the fields of the source
/// headers and those of the header `x-sumo-fields`, which count where both
/// name a field. Nothing where the fields header cannot be read.
pub open spec fn log_fields(
    headers: Map<Seq<char>, Option<Seq<char>>>,
    common: Map<Seq<char>, Seq<char>>,
) -> Option<Map<Seq<char>, Seq<char>>> {
    if !headers.contains_key("x-sumo-fields"@) {
        Some(common)
    } else {
        match headers["x-sumo-fields"@] {
            None => None,
            Some(value) => match sumo_fields(value) {
                Ok(fields) => Some(common.union_prefer_right(fields)),
                Err(_) => None,
            },
        }
    }
}

/// The lines of a list that are not empty, in order.
pub open spec fn non_empty(lines: Seq<Seq<char>>) -> Seq<Seq<char>> {
    lines.filter(|line: Seq<char>| line.len() > 0)
}

/// What is to be done with a request that is taken: its format, the lines of
/// its body, and for log lines the metadata.
pub struct Accepted {
    pub format: Format,
    pub lines: Seq<Seq<char>>,
    pub fields: Map<Seq<char>, Seq<char>>,
}

/// What the receiver makes of a request for which `number` was drawn: the
/// answer that refuses it, or what is to be done with it. The checks come in
/// this order: the body is text; the content type can be read; the source
/// headers can be read; the request is not dropped; the content type is
/// known; for log lines, the fields header can be read.
pub open spec fn routed(
    body: Result<Seq<char>, Seq<char>>,
    headers: Map<Seq<char>, Option<Seq<char>>>,
    drop_rate: i64,
    number: i64,
) -> Result<Accepted, ResponseView> {
    match body {
        Err(reason) => Err(text_reply(400, reason)),
        Ok(text) => match content_type_of(headers) {
            None => Err(text_reply(400, "failed to convert header to a str"@)),
            Some(content_type) => match common_metadata(headers) {
                Err(e) => Err(text_reply(400, metadata_error_text(e))),
                Ok(common) => if dropped(number, drop_rate) {
                    Err(text_reply(500, drop_text(content_type)))
                } else {
                    match format_of(content_type) {
                        None => Err(
                            ResponseView {
                                status: 400,
                                is_error: true,
                                text: invalid_header_text(content_type),
                            },
                        ),
                        Some(Format::Logs) => match log_fields(headers, common) {
                            None => Err(
                                text_reply(400, "Unable to parse X-Sumo-Fields header value"@),
                            ),
                            Some(fields) => Ok(
                                Accepted {
                                    format: Format::Logs,
                                    lines: non_empty(lines_spec(trim_spec(text))),
                                    fields,
                                },
                            ),
                        },
                        Some(format) => Ok(
                            Accepted { format, lines: lines_spec(trim_spec(text)), fields: Map::empty() },
                        ),
                    }
                },
            },
        },
    }
}

/// The answer to a request that was taken.
pub open spec fn ok_reply() -> ResponseView {
    text_reply(200, Seq::empty())
}

/// The answer to a request that the counters cannot take.
pub open spec fn overflow_reply() -> ResponseView {
    text_reply(500, "counter overflow"@)
}

/// Whether `result` is what the decoder of a format of metrics makes of the
/// lines that one address sent.
pub open spec fn decoded(
    result: MetricsHandleResult,
    format: Format,
    lines: Seq<Seq<char>>,
    address: Seq<char>,
    store: bool,
) -> bool {
    &&& result.wf()
    &&& match format {
        Format::Carbon2 => result.counts(names_by(lines, |l: Seq<char>| carbon2_name(l)), address, true)
            && result.metrics_samples.views() == Seq::<SampleView>::empty(),
        Format::Graphite => result.counts(
            names_by(lines, |l: Seq<char>| graphite_name(l)),
            address,
            false,
        ) && result.metrics_samples.views() == Seq::<SampleView>::empty() && result.balanced(),
        Format::Prometheus => result.counts(
            names_by(lines, |l: Seq<char>| prometheus_name(l)),
            address,
            false,
        ) && result.balanced() && if store {
            result.metrics_samples.series() == prometheus_series(prometheus_kept(lines))
        } else {
            result.metrics_samples.views() == Seq::<SampleView>::empty()
        },
        Format::Logs => false,
    }
}

/// Whether `after` and `response` are the state and the answer once the
/// metrics of `result` have been taken. Metrics that the counters cannot
/// take change nothing.
pub open spec fn metrics_taken(
    before: AppState,
    result: MetricsHandleResult,
    store: bool,
    after: AppState,
    response: ResponseView,
) -> bool {
    if before.metrics + result.metrics_count <= u64::MAX && before.metrics_ip_list.total()
        + result.metrics_ip_list.total() <= u64::MAX {
        response == ok_reply() && before.metrics_added(result, store, after)
    } else {
        response == overflow_reply() && after == before
    }
}

/// Whether `after` and `response` are the state and the answer once the
/// log lines have been taken at the time `now`. Lines that the counters
/// cannot take change nothing.
pub open spec fn logs_taken(
    before: AppState,
    accepted: Accepted,
    address: Seq<char>,
    store: bool,
    now: u64,
    after: AppState,
    response: ResponseView,
) -> bool {
    if before.log_stats.total.message_count + accepted.lines.len() <= u64::MAX
        && before.log_stats.total.byte_count + bytes_total(accepted.lines) <= u64::MAX {
        response == ok_reply() && before.logs_added(
            accepted.lines,
            accepted.fields,
            address,
            store,
            now,
            after,
        )
    } else {
        response == overflow_reply() && after == before
    }
}

/// Whether `after` and `response` are the state and the answer once a
/// request has been handled for which `number` was drawn, at the time
/// `now`. A request that is refused changes nothing. Metrics are decoded by
/// their format and added; log lines are counted and, if logs are stored,
/// filed.
pub open spec fn received(
    before: AppState,
    request: Request,
    opts: Options,
    number: i64,
    now: u64,
    after: AppState,
    response: ResponseView,
) -> bool {
    match routed(
        body_view(request.body),
        header_views(request.headers@),
        opts.drop_rate,
        number,
    ) {
        Err(reply) => response == reply && after == before,
        Ok(accepted) => match accepted.format {
            Format::Logs => logs_taken(
                before,
                accepted,
                address_of(request.peer_address),
                opts.store_logs,
                now,
                after,
                response,
            ),
            format => exists|result: MetricsHandleResult| #[trigger]
                decoded(
                    result,
                    format,
                    accepted.lines,
                    address_of(request.peer_address),
                    opts.store_metrics,
                ) && metrics_taken(before, result, opts.store_metrics, after, response),
        },
    }
}

/// One line of Prometheus text that is sent twice counts twice, and its
/// samples are stored once: the second request adds no sample to those that
/// are stored after the first.
pub proof fn lemma_same_line_twice(
    before: AppState,
    between: AppState,
    after: AppState,
    first: MetricsHandleResult,
    second: MetricsHandleResult,
    line: Seq<char>,
    address: Seq<char>,
)
    requires
        before.wf(),
        between.wf(),
        prometheus_name(line) is Some,
        decoded(first, Format::Prometheus, seq![line], address, true),
        decoded(second, Format::Prometheus, seq![line], address, true),
        before.metrics_added(first, true, between),
        between.metrics_added(second, true, after),
    ensures
        after.metrics == before.metrics + 2,
        after.metrics_samples.views().len() == between.metrics_samples.views().len(),
        after.metrics_samples.series() == between.metrics_samples.series(),
{
    let names = names_by(seq![line], |l: Seq<char>| prometheus_name(l));
    assert(names.drop_last() =~= Seq::<Option<Seq<char>>>::empty());
    assert(named(names.drop_last()) =~= Seq::<Seq<char>>::empty());
    assert(named(names).len() == 1);
    crate::sample::lemma_store_all(before.metrics_samples.views(), first.metrics_samples.views());
    crate::sample::lemma_store_all(between.metrics_samples.views(), second.metrics_samples.views());
    assert(second.metrics_samples.series().subset_of(between.metrics_samples.series()));
    assert(between.metrics_samples.series().union(second.metrics_samples.series())
        =~= between.metrics_samples.series());
}

/// The body of a request as mathematical values.
pub open spec fn body_view(body: Result<String, String>) -> Result<Seq<char>, Seq<char>> {
    match body {
        Ok(text) => Ok(text@),
        Err(reason) => Err(reason@),
    }
}

/// `rand::random_range`: a whole number from 0 up to, but not including,
/// 100, drawn from the generator of the thread.
#[verifier::external_body]
pub(crate) fn draw_percent() -> (number: i64)
    ensures
        0 <= number < 100,
{
    rand::random_range(0..100)
}

/// An answer of plain text.
pub fn text_response(status: u16, text: String) -> (response: Response)
    ensures
        response@ == text_reply(status, text@),
{
    Response { status, body: ResponseBody::Text(text) }
}

/// The address that data is counted for.
pub fn get_address(peer: &Option<String>) -> (address: String)
    ensures
        address@ == address_of(*peer),
{
    match peer {
        Some(address) => address.clone(),
        None => "127.0.0.1".to_owned(),
    }
}

/// The content type of a request.
pub fn get_content_type(headers: &Headers) -> (content_type: Option<String>)
    requires
        headers.wf(),
    ensures
        match content_type {
            Some(text) => content_type_of(header_views(headers@)) == Some(text@),
            None => content_type_of(header_views(headers@)) is None,
        },
{
    match headers.get("content-type") {
        Some(HeaderText::Text(text)) => Some(text.clone()),
        Some(HeaderText::Opaque) => None,
        None => Some(String::new()),
    }
}

/// The answer to a request for which `number` was drawn, if the request is
/// refused on purpose.
pub fn drop_decision(number: i64, drop_rate: i64, content_type: &str) -> (response: Option<Response>)
    ensures
        response is Some <==> dropped(number, drop_rate),
        response is Some ==> response->0@ == text_reply(500, drop_text(content_type@)),
{
    if number < drop_rate {
        let mut msg = "Dropping data for ".to_owned();
        msg.append(content_type);
        Some(text_response(500, msg))
    } else {
        None
    }
}

/// Draws a number and refuses the request if the number lies under the drop
/// rate.
pub fn try_dropping_data(opts: &Options, content_type: &str) -> (response: Option<Response>)
    ensures
        response is Some ==> response->0@ == text_reply(500, drop_text(content_type@)),
        opts.drop_rate <= 0 ==> response is None,
        opts.drop_rate >= 100 ==> response is Some,
{
    drop_decision(draw_percent(), opts.drop_rate, content_type)
}

/// The answer to a content type that the receiver does not take.
pub fn get_invalid_header_response(content_type: &str) -> (response: Response)
    ensures
        response@ == (ResponseView {
            status: 400,
            is_error: true,
            text: invalid_header_text(content_type@),
        }),
        response.body matches ResponseBody::Error(error) && error.id@ == DUMMY_ERROR_ID@
            && error.errors@.len() == 1 && error.errors@[0].code@ == "header:invalid"@,
{
    let mut message = "Invalid Content-Type header: ".to_owned();
    message.append(content_type);
    let mut errors: Vec<ReceiverErrorErrorsField> = Vec::new();
    errors.push(ReceiverErrorErrorsField { code: "header:invalid".to_owned(), message });
    Response {
        status: 400,
        body: ResponseBody::Error(ReceiverError { id: DUMMY_ERROR_ID.to_owned(), errors }),
    }
}

/// The format that a content type stands for.
pub fn format_for(content_type: &str) -> (format: Option<Format>)
    ensures
        format == format_of(content_type@),
{
    if content_type.eq("application/vnd.sumologic.carbon2") {
        Some(Format::Carbon2)
    } else if content_type.eq("application/vnd.sumologic.graphite") {
        Some(Format::Graphite)
    } else if content_type.eq("application/vnd.sumologic.prometheus") {
        Some(Format::Prometheus)
    } else if content_type.eq("application/x-www-form-urlencoded") {
        Some(Format::Logs)
    } else {
        None
    }
}

/// The lines of a list that are not empty.
pub fn non_empty_lines(lines: Vec<String>) -> (kept: Vec<String>)
    ensures
        texts(kept@) == non_empty(texts(lines@)),
{
    let ghost pred = |line: Seq<char>| line.len() > 0;
    let mut kept: Vec<String> = Vec::new();
    let mut i: usize = 0;
    proof {
        reveal(Seq::filter);
        assert(texts(lines@).take(0) =~= Seq::<Seq<char>>::empty());
        assert(texts(kept@) =~= Seq::<Seq<char>>::empty());
    }
    while i < lines.len()
        invariant
            i <= lines@.len(),
            pred == |line: Seq<char>| line.len() > 0,
            texts(kept@) == texts(lines@).take(i as int).filter(pred),
        decreases lines@.len() - i,
    {
        proof {
            let before = texts(lines@).take(i as int);
            assert(texts(lines@).take(i as int + 1) =~= before.push(lines@[i as int]@));
            before.lemma_filter_push(lines@[i as int]@, pred);
        }
        if !lines[i].as_str().is_empty() {
            let ghost kept_before = kept@;
            kept.push(lines[i].clone());
            proof {
                assert(texts(kept@) =~= texts(kept_before).push(lines@[i as int]@));
            }
        }
        i += 1;
    }
    proof {
        assert(texts(lines@).take(lines@.len() as int) =~= texts(lines@));
    }
    kept
}

/// The metadata of the log lines of a request.
pub fn log_metadata(headers: &Headers, common: Metadata) -> (metadata: Option<Metadata>)
    requires
        headers.wf(),
        common.wf(),
    ensures
        metadata is Some ==> metadata->0.wf(),
        match metadata {
            Some(fields) => log_fields(header_views(headers@), common.text()) == Some(fields.text()),
            None => log_fields(header_views(headers@), common.text()) is None,
        },
{
    let mut metadata = common;
    match headers.get("x-sumo-fields") {
        Some(HeaderText::Text(value)) => match parse_sumo_fields_header_value(value.as_str()) {
            Ok(fields) => {
                metadata.extend_with(&fields);
                Some(metadata)
            },
            Err(_) => None,
        },
        Some(HeaderText::Opaque) => None,
        None => Some(metadata),
    }
}

/// Adds the metrics of a request to the state, if the counters can take
/// them.
pub fn take_metrics(state: &mut AppState, result: MetricsHandleResult, opts: &Options) -> (response:
    Response)
    requires
        old(state).wf(),
        result.wf(),
    ensures
        final(state).wf(),
        metrics_taken(*old(state), result, opts.store_metrics, *final(state), response@),
        old(state).balanced() && result.balanced() ==> final(state).balanced(),
{
    if state.metrics_fit(&result) {
        state.add_metrics_result(result, opts);
        text_response(200, String::new())
    } else {
        text_response(500, "counter overflow".to_owned())
    }
}

/// Handles a request for which `number` was drawn, at the time `now`.
pub fn receive(state: &mut AppState, request: &Request, opts: &Options, number: i64, now: u64) -> (response:
    Response)
    requires
        old(state).wf(),
        request.headers.wf(),
    ensures
        final(state).wf(),
        received(*old(state), *request, *opts, number, now, *final(state), response@),
{
    let remote_address = get_address(&request.peer_address);
    let string_body = match &request.body {
        Ok(text) => text,
        Err(reason) => {
            return text_response(400, reason.clone());
        },
    };
    let content_type = match get_content_type(&request.headers) {
        Some(content_type) => content_type,
        None => {
            return text_response(400, "failed to convert header to a str".to_owned());
        },
    };
    let metadata = match get_common_metadata_from_headers(&request.headers) {
        Ok(metadata) => metadata,
        Err(e) => {
            return text_response(400, e.message());
        },
    };
    match drop_decision(number, opts.drop_rate, content_type.as_str()) {
        Some(response) => {
            return response;
        },
        None => {},
    }
    let lines = lines_of(trim(string_body.as_str()));
    let ghost route = routed(
        body_view(request.body),
        header_views(request.headers@),
        opts.drop_rate,
        number,
    );
    let response = match format_for(content_type.as_str()) {
        Some(Format::Carbon2) => {
            let result = handle_carbon2(&lines, remote_address.as_str(), opts.print);
            proof {
                assert(route is Ok && route->Ok_0.format == Format::Carbon2);
                assert(route->Ok_0.lines == texts(lines@));
                assert(decoded(result, Format::Carbon2, texts(lines@), remote_address@, opts.store_metrics));
            }
            take_metrics(state, result, opts)
        },
        Some(Format::Graphite) => {
            let result = handle_graphite(&lines, remote_address.as_str(), opts.print);
            proof {
                assert(route is Ok && route->Ok_0.format == Format::Graphite);
                assert(route->Ok_0.lines == texts(lines@));
                assert(decoded(result, Format::Graphite, texts(lines@), remote_address@, opts.store_metrics));
            }
            take_metrics(state, result, opts)
        },
        Some(Format::Prometheus) => {
            let result = handle_prometheus(&lines, remote_address.as_str(), opts);
            proof {
                assert(route is Ok && route->Ok_0.format == Format::Prometheus);
                assert(route->Ok_0.lines == texts(lines@));
                assert(decoded(
                    result,
                    Format::Prometheus,
                    texts(lines@),
                    remote_address@,
                    opts.store_metrics,
                ));
            }
            take_metrics(state, result, opts)
        },
        Some(Format::Logs) => match log_metadata(&request.headers, metadata) {
            Some(fields) => {
                let lines = non_empty_lines(lines);
                if state.log_lines_fit(&lines) {
                    state.add_log_lines_at(&lines, &fields, remote_address.as_str(), opts, now);
                    text_response(200, String::new())
                } else {
                    text_response(500, "counter overflow".to_owned())
                }
            },
            None => text_response(400, "Unable to parse X-Sumo-Fields header value".to_owned()),
        },
        None => get_invalid_header_response(content_type.as_str()),
    };
    response
}

/// Handles a request: draws the number that decides whether the request is
/// dropped, and reads the clock for the log lines that hold no timestamp.
pub fn handler_receiver(state: &mut AppState, request: &Request, opts: &Options) -> (response: Response)
    requires
        old(state).wf(),
        request.headers.wf(),
    ensures
        final(state).wf(),
        exists|number: i64, now: u64|
            0 <= number < 100 && #[trigger] received(
                *old(state),
                *request,
                *opts,
                number,
                now,
                *final(state),
                response@,
            ),
{
    let number = draw_percent();
    let now = get_now_ms();
    receive(state, request, opts, number, now)
}

} // verus!
