use crate::labels::Labels;
use crate::logs::{count_spec, LogStats};
use crate::options::Options;
use crate::regex::RegexError;
use crate::sample::{filter_samples, SampleSet, SampleView};
use crate::state::AppState;
use crate::strmap::StrMap;
use crate::text::{chars_of, decimal, digit, u64_to_string};
use crate::traces::{
    any_matches, filter_spans, filter_traces, span_ref_views, span_views, trace_views, traces_spans, Span,
    SpanView,
};
use vstd::prelude::*;
use vstd::string::*;

verus! {

/// The time range of a query for the number of logs.
#[derive(Debug)]
pub struct LogsParams {
    pub from_ts: u64,
    pub to_ts: u64,
}

/// The answer to a query for the number of logs.
#[derive(Debug)]
pub struct LogsCountResponse {
    pub count: usize,
}

/// Where the receiver says it can be reached.
#[derive(Debug)]
pub struct AppMetadata {
    pub url: String,
}

/// The start of the time range of a query that names none.
pub fn default_from_ts() -> (from_ts: u64)
    ensures
        from_ts == 0,
{
    0
}

/// The end of the time range of a query that names none.
pub fn default_to_ts() -> (to_ts: u64)
    ensures
        to_ts == u64::MAX,
{
    u64::MAX
}

/// The value of a decimal digit, if the character is one.
pub open spec fn digit_value(c: char) -> Option<nat> {
    if c == '0' {
        Some(0nat)
    } else if c == '1' {
        Some(1nat)
    } else if c == '2' {
        Some(2nat)
    } else if c == '3' {
        Some(3nat)
    } else if c == '4' {
        Some(4nat)
    } else if c == '5' {
        Some(5nat)
    } else if c == '6' {
        Some(6nat)
    } else if c == '7' {
        Some(7nat)
    } else if c == '8' {
        Some(8nat)
    } else if c == '9' {
        Some(9nat)
    } else {
        None
    }
}

/// The number that a text of decimal digits stands for; nothing for a text
/// that holds another character. The empty text stands for zero.
pub open spec fn digits_value(s: Seq<char>) -> Option<nat>
    decreases s.len(),
{
    if s.len() == 0 {
        Some(0nat)
    } else {
        match (digits_value(s.drop_last()), digit_value(s.last())) {
            (Some(upper), Some(d)) => Some(upper * 10 + d),
            _ => None,
        }
    }
}

/// The number of 64 bits that a text stands for: the text is one decimal
/// digit or more, with `+` before them or without, and the number fits.
pub open spec fn u64_value(s: Seq<char>) -> Option<u64> {
    let digits = if s.len() > 0 && s[0] == '+' {
        s.skip(1)
    } else {
        s
    };
    if digits.len() == 0 {
        None
    } else {
        match digits_value(digits) {
            Some(n) => if n <= u64::MAX {
                Some(n as u64)
            } else {
                None
            },
            None => None,
        }
    }
}

/// The value of digits grows with every digit that follows.
pub proof fn lemma_digits_grow(s: Seq<char>, i: int)
    requires
        0 <= i <= s.len(),
        digits_value(s) is Some,
    ensures
        digits_value(s.take(i)) is Some,
        digits_value(s.take(i))->0 <= digits_value(s)->0,
    decreases s.len() - i,
{
    if i < s.len() {
        assert(s.take(i + 1).drop_last() =~= s.take(i));
        lemma_digits_grow(s, i + 1);
    } else {
        assert(s.take(i) =~= s);
    }
}

/// A text that holds another character than a digit among its first
/// characters stands for no number.
pub proof fn lemma_digits_prefix(s: Seq<char>, i: int)
    requires
        0 <= i <= s.len(),
        digits_value(s.take(i)) is None,
    ensures
        digits_value(s) is None,
    decreases s.len() - i,
{
    if i < s.len() {
        assert(s.take(i + 1).drop_last() =~= s.take(i));
        lemma_digits_prefix(s, i + 1);
    } else {
        assert(s.take(i) =~= s);
    }
}

/// The value of a decimal digit.
fn digit_of(c: char) -> (d: Option<u8>)
    ensures
        match d {
            Some(d) => digit_value(c) == Some(d as nat) && d < 10,
            None => digit_value(c) is None,
        },
{
    match c {
        '0' => Some(0),
        '1' => Some(1),
        '2' => Some(2),
        '3' => Some(3),
        '4' => Some(4),
        '5' => Some(5),
        '6' => Some(6),
        '7' => Some(7),
        '8' => Some(8),
        '9' => Some(9),
        _ => None,
    }
}

/// The number of 64 bits that a text stands for.
pub fn parse_u64(text: &str) -> (value: Option<u64>)
    ensures
        value == u64_value(text@),
{
    let chars = chars_of(text);
    let start: usize = if chars.len() > 0 && chars[0] == '+' {
        1
    } else {
        0
    };
    if start >= chars.len() {
        return None;
    }
    let ghost digits = text@.skip(start as int);
    let mut value: u64 = 0;
    let mut i: usize = start;
    proof {
        assert(digits.take(0) =~= Seq::<char>::empty());
        assert(text@.skip(0) =~= text@);
    }
    while i < chars.len()
        invariant
            chars@ == text@,
            start <= i <= chars@.len(),
            start < chars@.len(),
            digits == text@.skip(start as int),
            digits == if text@.len() > 0 && text@[0] == '+' {
                text@.skip(1)
            } else {
                text@
            },
            digits_value(digits.take(i - start)) == Some(value as nat),
        decreases chars@.len() - i,
    {
        proof {
            assert(digits.take(i - start + 1).drop_last() =~= digits.take(i - start));
            assert(digits.take(i - start + 1).last() == text@[i as int]);
        }
        match digit_of(chars[i]) {
            Some(d) => {
                if value > (u64::MAX - d as u64) / 10 {
                    proof {
                        if digits_value(digits) is Some {
                            lemma_digits_grow(digits, i - start + 1);
                        }
                    }
                    return None;
                }
                value = value * 10 + d as u64;
            },
            None => {
                proof {
                    lemma_digits_prefix(digits, i - start + 1);
                }
                return None;
            },
        }
        i += 1;
    }
    proof {
        assert(digits.take(chars@.len() - start) =~= digits);
    }
    Some(value)
}

/// One end of the time range that a query names: the number under `key`, or
/// `default` where the query has no such key; nothing where what stands
/// under the key is no number.
pub open spec fn range_end(params: Map<Seq<char>, Seq<char>>, key: Seq<char>, default: u64) -> Option<u64> {
    if params.contains_key(key) {
        u64_value(params[key])
    } else {
        Some(default)
    }
}

/// One end of the time range that a query names.
fn read_range_end(params: &Labels, key: &str, default: u64) -> (end: Option<u64>)
    requires
        params.wf(),
    ensures
        end == range_end(params.text(), key@, default),
{
    match params.get_text(key) {
        Some(text) => parse_u64(text),
        None => Some(default),
    }
}

/// The time range that the parameters of a query name: `from_ts` and
/// `to_ts`, which start at zero and at the greatest timestamp. Nothing where
/// one of the two is no number.
pub open spec fn time_range(params: Map<Seq<char>, Seq<char>>) -> Option<(u64, u64)> {
    match (range_end(params, "from_ts"@, 0), range_end(params, "to_ts"@, u64::MAX)) {
        (Some(from_ts), Some(to_ts)) => Some((from_ts, to_ts)),
        _ => None,
    }
}

impl LogsParams {
    /// The time range that the parameters of a query name.
    pub fn from_params(params: &Labels) -> (range: Option<LogsParams>)
        requires
            params.wf(),
        ensures
            match range {
                Some(range) => time_range(params.text()) == Some((range.from_ts, range.to_ts)),
                None => time_range(params.text()) is None,
            },
    {
        let from_ts = read_range_end(params, "from_ts", default_from_ts());
        let to_ts = read_range_end(params, "to_ts", default_to_ts());
        match (from_ts, to_ts) {
            (Some(from_ts), Some(to_ts)) => Some(LogsParams { from_ts, to_ts }),
            _ => None,
        }
    }
}

/// The query by metadata that the parameters of a query for the number of
/// logs hold: all of them but the two ends of the time range, in their
/// order.
pub open spec fn metadata_params(keys: Seq<Seq<char>>, values: Seq<Seq<char>>) -> (Seq<Seq<char>>, Seq<Seq<char>>)
    decreases keys.len(),
{
    if keys.len() == 0 || values.len() != keys.len() {
        (Seq::empty(), Seq::empty())
    } else {
        let rest = metadata_params(keys.drop_last(), values.drop_last());
        if keys.last() == "from_ts"@ || keys.last() == "to_ts"@ {
            rest
        } else {
            (rest.0.push(keys.last()), rest.1.push(values.last()))
        }
    }
}

/// The parameters of a query without the two ends of the time range.
fn without_range(params: &Labels) -> (out: Labels)
    requires
        params.wf(),
    ensures
        out.wf(),
        (out.keys(), out.val_texts()) == metadata_params(params.keys(), params.val_texts()),
{
    let mut out: Labels = StrMap::new();
    let n = params.len();
    let mut i: usize = 0;
    let ghost keys = params.keys();
    let ghost values = params.val_texts();
    proof {
        assert(keys.take(0) =~= Seq::<Seq<char>>::empty());
        assert(out.val_texts() =~= Seq::<Seq<char>>::empty());
    }
    while i < n
        invariant
            params.wf(),
            out.wf(),
            keys == params.keys(),
            values == params.val_texts(),
            n == keys.len(),
            n == values.len(),
            i <= n,
            (out.keys(), out.val_texts()) == metadata_params(keys.take(i as int), values.take(i as int)),
            forall|j: int| 0 <= j < out.keys().len() ==> keys.take(i as int).contains(#[trigger] out.keys()[j]),
        decreases n - i,
    {
        let key = params.key_at(i);
        proof {
            assert(keys.take(i as int + 1).drop_last() =~= keys.take(i as int));
            assert(values.take(i as int + 1).drop_last() =~= values.take(i as int));
            assert(keys.take(i as int + 1).last() == keys[i as int]);
            assert(values.take(i as int + 1).last() == values[i as int]);
            assert forall|j: int| 0 <= j < out.keys().len() implies keys.take(i as int + 1).contains(
                #[trigger] out.keys()[j],
            ) by {
                let at = choose|at: int|
                    0 <= at < keys.take(i as int).len() && keys.take(i as int)[at] == out.keys()[j];
                assert(keys.take(i as int + 1)[at] == out.keys()[j]);
            }
        }
        if !key.as_str().eq("from_ts") && !key.as_str().eq("to_ts") {
            let ghost before_keys = out.keys();
            let ghost before_texts = out.val_texts();
            proof {
                if out.keys().contains(keys[i as int]) {
                    let j = choose|j: int| 0 <= j < out.keys().len() && out.keys()[j] == keys[i as int];
                    let at = choose|at: int|
                        0 <= at < keys.take(i as int).len() && keys.take(i as int)[at] == out.keys()[j];
                    assert(keys[at] == keys[i as int]);
                }
            }
            let value = params.value_at(i).clone();
            out.insert(key.clone(), value);
            proof {
                assert(out.val_texts() =~= before_texts.push(values[i as int]));
                assert(keys.take(i as int + 1)[i as int] == keys[i as int]);
            }
        }
        i += 1;
    }
    proof {
        assert(keys.take(n as int) =~= keys);
        assert(values.take(n as int) =~= values);
    }
    out
}

/// What a query for the number of logs gives.
#[derive(Debug)]
pub enum LogsCountOutcome {
    /// Logs are not stored.
    NotStored,
    /// An end of the time range is no number.
    BadRange,
    /// A test of the metadata failed.
    Failed(RegexError),
    /// The number of logs that meet the query.
    Count(LogsCountResponse),
}

/// What a query for the number of logs gives, with the number as a
/// mathematical value.
pub enum LogsCountView {
    NotStored,
    BadRange,
    Failed(RegexError),
    Count(nat),
}

impl View for LogsCountOutcome {
    type V = LogsCountView;

    open spec fn view(&self) -> LogsCountView {
        match self {
            LogsCountOutcome::NotStored => LogsCountView::NotStored,
            LogsCountOutcome::BadRange => LogsCountView::BadRange,
            LogsCountOutcome::Failed(e) => LogsCountView::Failed(*e),
            LogsCountOutcome::Count(response) => LogsCountView::Count(response.count as nat),
        }
    }
}

/// What a query for the number of logs gives. The parameters `from_ts` and
/// `to_ts` are the ends of the time range, which start at zero and at the
/// greatest timestamp; all other parameters are tests of the metadata.
pub open spec fn logs_counted(
    state: AppState,
    keys: Seq<Seq<char>>,
    values: Seq<Seq<char>>,
    params: Map<Seq<char>, Seq<char>>,
    store_logs: bool,
) -> LogsCountView {
    if !store_logs {
        LogsCountView::NotStored
    } else {
        match time_range(params) {
            Some(range) => {
                let query = metadata_params(keys, values);
                match count_spec(state.log_messages.entries(), range.0, range.1, query.0, query.1) {
                    Ok(n) => LogsCountView::Count(n),
                    Err(e) => LogsCountView::Failed(e),
                }
            },
            None => LogsCountView::BadRange,
        }
    }
}

/// Answers a query for the number of stored logs in a time range that meet
/// tests of their metadata.
pub fn handler_logs_count(state: &mut AppState, all_params: &Labels, opts: &Options) -> (outcome: LogsCountOutcome)
    requires
        old(state).wf(),
        all_params.wf(),
    ensures
        final(state).wf(),
        final(state).log_messages.entries() == old(state).log_messages.entries(),
        final(state).log_stats == old(state).log_stats,
        final(state).metrics == old(state).metrics,
        final(state).metrics_list == old(state).metrics_list,
        final(state).metrics_ip_list == old(state).metrics_ip_list,
        final(state).metrics_samples == old(state).metrics_samples,
        final(state).spans == old(state).spans,
        final(state).spans_list == old(state).spans_list,
        final(state).traces_list == old(state).traces_list,
        outcome@ == logs_counted(
            *old(state),
            all_params.keys(),
            all_params.val_texts(),
            all_params.text(),
            opts.store_logs,
        ),
{
    if !opts.store_logs {
        return LogsCountOutcome::NotStored;
    }
    match LogsParams::from_params(all_params) {
        Some(range) => {
            let query = without_range(all_params);
            match state.log_messages.get_message_count(range.from_ts, range.to_ts, &query) {
                Ok(count) => LogsCountOutcome::Count(LogsCountResponse { count }),
                Err(e) => LogsCountOutcome::Failed(e),
            }
        },
        None => LogsCountOutcome::BadRange,
    }
}

/// The text that a query for the number of logs gets where logs are not
/// stored.
pub fn logs_not_stored_hint() -> (hint: String)
    ensures
        hint@ == "Use the --store-logs flag to enable this endpoint"@,
{
    "Use the --store-logs flag to enable this endpoint".to_owned()
}

/// The stored samples that meet the query; nothing where metrics are not
/// stored.
pub fn handler_metrics_samples(state: &AppState, params: &Labels, opts: &Options) -> (found: Option<SampleSet>)
    requires
        state.wf(),
        params.wf(),
    ensures
        found is Some <==> opts.store_metrics,
        found is Some ==> found->0.wf() && found->0.views() == state.metrics_samples.views().filter(
            |v: SampleView| v.matches(params.text()),
        ),
{
    if !opts.store_metrics {
        return None;
    }
    Some(filter_samples(&state.metrics_samples, params))
}

/// The stored spans that meet the query; nothing where traces are not
/// stored.
pub fn handler_get_spans<'a>(state: &'a AppState, params: &Labels, opts: &Options) -> (found: Option<
    Vec<&'a Span>,
>)
    requires
        state.wf(),
        params.wf(),
    ensures
        found is Some <==> opts.store_traces,
        found is Some ==> span_ref_views(found->0@) == span_views(state.spans_list.vals()).filter(
            |v: SpanView| v.matches(params.text()),
        ),
{
    if !opts.store_traces {
        return None;
    }
    Some(filter_spans(&state.spans_list, params))
}

/// The stored traces of which some span meets the query, each as the list
/// of its stored spans; nothing where traces are not stored.
pub fn handler_get_traces<'a>(state: &'a AppState, params: &Labels, opts: &Options) -> (found: Option<
    Vec<Vec<&'a Span>>,
>)
    requires
        state.wf(),
        params.wf(),
    ensures
        found is Some <==> opts.store_traces,
        found is Some ==> trace_views(found->0@) == traces_spans(
            state.traces_list.vals(),
            state.spans_list@,
        ).filter(|vs: Seq<SpanView>| any_matches(vs, params.text())),
{
    if !opts.store_traces {
        return None;
    }
    Some(filter_traces(&state.traces_list, &state.spans_list, params))
}

/// Forgets the metrics and says so.
pub fn handler_metrics_reset(state: &mut AppState) -> (answer: String)
    requires
        old(state).wf(),
    ensures
        final(state).wf(),
        final(state).balanced(),
        final(state).metrics == 0,
        final(state).metrics_list@ == Map::<Seq<char>, u64>::empty(),
        final(state).metrics_ip_list@ == Map::<Seq<char>, u64>::empty(),
        final(state).metrics_samples.views() == Seq::<SampleView>::empty(),
        final(state).log_stats == old(state).log_stats,
        final(state).log_messages == old(state).log_messages,
        final(state).spans == old(state).spans,
        final(state).spans_list == old(state).spans_list,
        final(state).traces_list == old(state).traces_list,
        answer@ == "All metrics were reset successfully"@,
{
    state.reset_metrics();
    "All metrics were reset successfully".to_owned()
}

/// One line for each counter: the key, `: `, the count in decimal digits and
/// a line feed.
pub open spec fn listing(keys: Seq<Seq<char>>, counts: Seq<u64>) -> Seq<char>
    decreases keys.len(),
{
    if keys.len() == 0 || counts.len() != keys.len() {
        Seq::empty()
    } else {
        listing(keys.drop_last(), counts.drop_last()) + keys.last() + ": "@ + decimal(
            counts.last() as nat,
        ) + "\n"@
    }
}

/// One line for each counter of a family of counters by address: the name of
/// the family, the address as the label `ip_address`, the count in decimal
/// digits and a line feed.
pub open spec fn family_lines(name: Seq<char>, keys: Seq<Seq<char>>, counts: Seq<u64>) -> Seq<char>
    decreases keys.len(),
{
    if keys.len() == 0 || counts.len() != keys.len() {
        Seq::empty()
    } else {
        family_lines(name, keys.drop_last(), counts.drop_last()) + name + "{ip_address=\""@
            + keys.last() + "\"} "@ + decimal(counts.last() as nat) + "\n"@
    }
}

/// A family of counters by address: the line that declares its type and one
/// line for each counter; nothing for a family without counters.
pub open spec fn family(name: Seq<char>, keys: Seq<Seq<char>>, counts: Seq<u64>) -> Seq<char> {
    if keys.len() == 0 {
        Seq::empty()
    } else {
        "# TYPE "@ + name + " counter\n"@ + family_lines(name, keys, counts)
    }
}

/// A counter without labels: the line that declares its type and the line
/// with its count.
pub open spec fn counter(name: Seq<char>, count: u64) -> Seq<char> {
    "# TYPE "@ + name + " counter\n"@ + name + " "@ + decimal(count as nat) + "\n"@
}

/// The numbers of messages of a list of counts.
pub open spec fn message_counts(stats: Seq<LogStats>) -> Seq<u64> {
    Seq::new(stats.len(), |i: int| stats[i].message_count)
}

/// The numbers of bytes of a list of counts.
pub open spec fn byte_counts(stats: Seq<LogStats>) -> Seq<u64> {
    Seq::new(stats.len(), |i: int| stats[i].byte_count)
}

/// What the receiver tells of itself in the Prometheus text format: how many
/// metrics, log messages and bytes of logs it has taken, then the metrics
/// by address, the log messages by address and the bytes of logs by
/// address.
pub open spec fn metrics_text(state: AppState) -> Seq<char> {
    counter("receiver_mock_metrics_count"@, state.metrics) + counter(
        "receiver_mock_logs_count"@,
        state.log_stats.total.message_count,
    ) + counter("receiver_mock_logs_bytes_count"@, state.log_stats.total.byte_count) + family(
        "receiver_mock_metrics_ip_count"@,
        state.metrics_ip_list.keys(),
        state.metrics_ip_list.vals(),
    ) + family(
        "receiver_mock_logs_ip_count"@,
        state.log_stats.ipaddr.keys(),
        message_counts(state.log_stats.ipaddr.vals()),
    ) + family(
        "receiver_mock_logs_bytes_ip_count"@,
        state.log_stats.ipaddr.keys(),
        byte_counts(state.log_stats.ipaddr.vals()),
    )
}

/// Appends a counter without labels.
fn push_counter(out: &mut String, name: &str, count: u64)
    ensures
        final(out)@ == old(out)@ + counter(name@, count),
{
    let ghost before = out@;
    out.append("# TYPE ");
    out.append(name);
    out.append(" counter\n");
    out.append(name);
    out.append(" ");
    out.append(u64_to_string(count).as_str());
    out.append("\n");
    assert(out@ =~= before + counter(name@, count));
}

/// Appends one line of a family of counters by address.
fn push_family_line(out: &mut String, name: &str, key: &str, count: u64)
    ensures
        final(out)@ == old(out)@ + name@ + "{ip_address=\""@ + key@ + "\"} "@ + decimal(count as nat)
            + "\n"@,
{
    let ghost before = out@;
    out.append(name);
    out.append("{ip_address=\"");
    out.append(key);
    out.append("\"} ");
    out.append(u64_to_string(count).as_str());
    out.append("\n");
    assert(out@ =~= before + name@ + "{ip_address=\""@ + key@ + "\"} "@ + decimal(count as nat) + "\n"@);
}

/// Appends a family of counters by address.
fn push_family(out: &mut String, name: &str, counts: &StrMap<u64>)
    requires
        counts.wf(),
    ensures
        final(out)@ == old(out)@ + family(name@, counts.keys(), counts.vals()),
{
    let ghost before = out@;
    let n = counts.len();
    if n == 0 {
        assert(out@ =~= before + family(name@, counts.keys(), counts.vals()));
        return ;
    }
    out.append("# TYPE ");
    out.append(name);
    out.append(" counter\n");
    let ghost head = out@;
    let mut i: usize = 0;
    proof {
        assert(head =~= before + ("# TYPE "@ + name@ + " counter\n"@));
        assert(counts.keys().take(0) =~= Seq::<Seq<char>>::empty());
        assert(head + Seq::<char>::empty() =~= head);
    }
    while i < n
        invariant
            counts.wf(),
            n == counts.keys().len(),
            i <= n,
            out@ == head + family_lines(name@, counts.keys().take(i as int), counts.vals().take(i as int)),
        decreases n - i,
    {
        let ghost lines = family_lines(name@, counts.keys().take(i as int), counts.vals().take(i as int));
        proof {
            assert(counts.keys().take(i as int + 1).drop_last() =~= counts.keys().take(i as int));
            assert(counts.vals().take(i as int + 1).drop_last() =~= counts.vals().take(i as int));
        }
        push_family_line(out, name, counts.key_at(i).as_str(), *counts.value_at(i));
        proof {
            let key = counts.keys()[i as int];
            let count = counts.vals()[i as int];
            assert(out@ =~= head + (lines + name@ + "{ip_address=\""@ + key + "\"} "@ + decimal(
                count as nat,
            ) + "\n"@));
        }
        i += 1;
    }
    proof {
        assert(counts.keys().take(n as int) =~= counts.keys());
        assert(counts.vals().take(n as int) =~= counts.vals());
        assert(out@ =~= before + family(name@, counts.keys(), counts.vals()));
    }
}

/// The numbers of messages, or of bytes, by address.
fn stats_column(stats: &StrMap<LogStats>, bytes: bool) -> (column: StrMap<u64>)
    requires
        stats.wf(),
    ensures
        column.wf(),
        column.keys() == stats.keys(),
        column.vals() == if bytes {
            byte_counts(stats.vals())
        } else {
            message_counts(stats.vals())
        },
{
    let mut column: StrMap<u64> = StrMap::new();
    let n = stats.len();
    let mut i: usize = 0;
    let ghost all = if bytes {
        byte_counts(stats.vals())
    } else {
        message_counts(stats.vals())
    };
    while i < n
        invariant
            stats.wf(),
            column.wf(),
            n == stats.keys().len(),
            i <= n,
            all == if bytes {
                byte_counts(stats.vals())
            } else {
                message_counts(stats.vals())
            },
            column.keys() == stats.keys().take(i as int),
            column.vals() == all.take(i as int),
        decreases n - i,
    {
        let value = if bytes {
            stats.value_at(i).byte_count
        } else {
            stats.value_at(i).message_count
        };
        proof {
            assert(!stats.keys().take(i as int).contains(stats.keys()[i as int]));
            assert(stats.keys().take(i as int + 1) =~= stats.keys().take(i as int).push(
                stats.keys()[i as int],
            ));
            assert(all.take(i as int + 1) =~= all.take(i as int).push(all[i as int]));
        }
        column.insert(stats.key_at(i).clone(), value);
        i += 1;
    }
    proof {
        assert(stats.keys().take(n as int) =~= stats.keys());
        assert(all.take(n as int) =~= all);
    }
    column
}

/// What the receiver tells of itself in the Prometheus text format.
pub fn handler_metrics(state: &AppState) -> (body: String)
    requires
        state.wf(),
    ensures
        body@ == metrics_text(*state),
{
    let mut body = String::new();
    push_counter(&mut body, "receiver_mock_metrics_count", state.metrics);
    push_counter(&mut body, "receiver_mock_logs_count", state.log_stats.total.message_count);
    push_counter(&mut body, "receiver_mock_logs_bytes_count", state.log_stats.total.byte_count);
    push_family(&mut body, "receiver_mock_metrics_ip_count", &state.metrics_ip_list);
    let messages = stats_column(&state.log_stats.ipaddr, false);
    push_family(&mut body, "receiver_mock_logs_ip_count", &messages);
    let bytes = stats_column(&state.log_stats.ipaddr, true);
    push_family(&mut body, "receiver_mock_logs_bytes_ip_count", &bytes);
    assert(body@ =~= metrics_text(*state));
    body
}

/// One line for each counter of a map.
fn render_listing(counts: &StrMap<u64>) -> (out: String)
    requires
        counts.wf(),
    ensures
        out@ == listing(counts.keys(), counts.vals()),
{
    let mut out = String::new();
    let n = counts.len();
    let mut i: usize = 0;
    proof {
        assert(counts.keys().take(0) =~= Seq::<Seq<char>>::empty());
    }
    while i < n
        invariant
            counts.wf(),
            n == counts.keys().len(),
            i <= n,
            out@ == listing(counts.keys().take(i as int), counts.vals().take(i as int)),
        decreases n - i,
    {
        let ghost before = out@;
        proof {
            assert(counts.keys().take(i as int + 1).drop_last() =~= counts.keys().take(i as int));
            assert(counts.vals().take(i as int + 1).drop_last() =~= counts.vals().take(i as int));
        }
        out.append(counts.key_at(i).as_str());
        out.append(": ");
        out.append(u64_to_string(*counts.value_at(i)).as_str());
        out.append("\n");
        proof {
            assert(out@ =~= before + counts.keys()[i as int] + ": "@ + decimal(
                counts.vals()[i as int] as nat,
            ) + "\n"@);
        }
        i += 1;
    }
    proof {
        assert(counts.keys().take(n as int) =~= counts.keys());
        assert(counts.vals().take(n as int) =~= counts.vals());
    }
    out
}

/// The metrics by name: one line for each name with its count.
pub fn handler_metrics_list(state: &AppState) -> (body: String)
    requires
        state.wf(),
    ensures
        body@ == listing(state.metrics_list.keys(), state.metrics_list.vals()),
{
    render_listing(&state.metrics_list)
}

/// The metrics by address: one line for each address with its count.
pub fn handler_metrics_ips(state: &AppState) -> (body: String)
    requires
        state.wf(),
    ensures
        body@ == listing(state.metrics_ip_list.keys(), state.metrics_ip_list.vals()),
{
    render_listing(&state.metrics_ip_list)
}

} // verus!
