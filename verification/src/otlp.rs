use crate::labels::Labels;
use crate::metadata::Metadata;
use crate::sample::{Sample, SampleView};
use crate::strmap::StrMap;
use crate::text::{digit, i64_to_string, signed_decimal};
use crate::traces::{Span, SpanView};
use vstd::prelude::*;
use vstd::string::*;

verus! {

/// A value of an attribute or of a log record's body.
#[derive(Debug)]
pub enum AnyValue {
    /// A value that was left out.
    Unset,
    Text(String),
    Bool(bool),
    Int(i64),
    /// A floating-point number, held as its text.
    Double(String),
    /// An array, a list of pairs or bytes.
    Other,
}

/// An attribute: a key with its value, which may be missing.
#[derive(Debug)]
pub struct KeyValue {
    pub key: String,
    pub value: Option<AnyValue>,
}

/// One record of a log.
#[derive(Debug)]
pub struct LogRecord {
    pub body: Option<AnyValue>,
}

/// The log records of one instrumentation library.
#[derive(Debug)]
pub struct InstrumentationLibraryLogs {
    pub log_records: Vec<LogRecord>,
}

/// The logs of one resource. The attributes of the resource are missing
/// where the resource itself is.
#[derive(Debug)]
pub struct ResourceLogs {
    pub resource: Option<Vec<KeyValue>>,
    pub instrumentation_library_logs: Vec<InstrumentationLibraryLogs>,
}

/// One data point of a gauge or a sum.
#[derive(Debug)]
pub struct NumberDataPoint {
    pub attributes: Vec<KeyValue>,
    pub time_unix_nano: u64,
    /// The number as the bit pattern of a 64-bit IEEE 754 number, however it
    /// was sent; nothing where the point has no number.
    pub value_bits: Option<u64>,
}

/// The data of a metric, by its kind.
#[derive(Debug)]
pub enum MetricData {
    Gauge(Vec<NumberDataPoint>),
    Sum(Vec<NumberDataPoint>),
    /// A histogram, an exponential histogram or a summary.
    Other,
}

/// One metric with its data.
#[derive(Debug)]
pub struct Metric {
    pub name: String,
    pub data: Option<MetricData>,
}

/// The metrics of one resource.
#[derive(Debug)]
pub struct ResourceMetrics {
    pub resource: Option<Vec<KeyValue>>,
    pub instrumentation_library_metrics: Vec<Vec<Metric>>,
}

/// One span as it is sent.
#[derive(Debug)]
pub struct OtlpSpan {
    pub name: String,
    pub span_id: Vec<u8>,
    pub trace_id: Vec<u8>,
    pub parent_span_id: Vec<u8>,
    pub attributes: Vec<KeyValue>,
}

/// The spans of one resource.
#[derive(Debug)]
pub struct ResourceSpans {
    pub resource: Option<Vec<KeyValue>>,
    pub instrumentation_library_spans: Vec<Vec<OtlpSpan>>,
}

/// A millisecond in nanoseconds.
pub const NANOS_IN_MILLIS: u64 = 1_000_000;

/// The text of a value: a text as it is, a truth value as `true` or `false`,
/// an integer in decimal digits, a floating-point number as the text it is
/// held as, and anything else as the empty text.
pub open spec fn value_text(value: AnyValue) -> Seq<char> {
    match value {
        AnyValue::Unset => Seq::empty(),
        AnyValue::Text(text) => text@,
        AnyValue::Bool(b) => if b {
            "true"@
        } else {
            "false"@
        },
        AnyValue::Int(i) => signed_decimal(i as int),
        AnyValue::Double(text) => text@,
        AnyValue::Other => Seq::empty(),
    }
}

/// The text of a value that may be missing: the empty text where it is.
pub open spec fn optional_text(value: Option<AnyValue>) -> Seq<char> {
    match value {
        Some(value) => value_text(value),
        None => Seq::empty(),
    }
}

/// The map that a list of attributes stands for, each value as text. Of two
/// attributes with one key the later one counts.
pub open spec fn attributes_text(attributes: Seq<KeyValue>) -> Map<Seq<char>, Seq<char>>
    decreases attributes.len(),
{
    if attributes.len() == 0 {
        Map::empty()
    } else {
        attributes_text(attributes.drop_last()).insert(
            attributes.last().key@,
            optional_text(attributes.last().value),
        )
    }
}

/// The labels of an item of a resource: the attributes of the resource and
/// those of the item; where both hold a key, the item's value counts.
pub open spec fn tags(attrs: Seq<KeyValue>, labels: Seq<KeyValue>) -> Map<Seq<char>, Seq<char>> {
    attributes_text(labels).union_prefer_right(attributes_text(attrs))
}

/// The character of a hexadecimal digit, in lower case.
pub open spec fn hex_digit(d: nat) -> char {
    if d < 10 {
        digit(d)
    } else if d == 10 {
        'a'
    } else if d == 11 {
        'b'
    } else if d == 12 {
        'c'
    } else if d == 13 {
        'd'
    } else if d == 14 {
        'e'
    } else {
        'f'
    }
}

/// The bytes in hexadecimal digits: two for each byte, the upper half
/// first.
pub open spec fn hex_text(bytes: Seq<u8>) -> Seq<char>
    decreases bytes.len(),
{
    if bytes.len() == 0 {
        Seq::empty()
    } else {
        hex_text(bytes.drop_last()).push(hex_digit(bytes.last() as nat / 16)).push(
            hex_digit(bytes.last() as nat % 16),
        )
    }
}

/// `hex::encode`: the bytes as a string of hexadecimal digits in lower case,
/// two for each byte.
#[verifier::external_body]
fn hex_encode(bytes: &Vec<u8>) -> (text: String)
    ensures
        text@ == hex_text(bytes@),
{
    hex::encode(bytes)
}

/// The text of a value.
pub fn anyvalue_to_string(anyvalue: &AnyValue) -> (text: String)
    ensures
        text@ == value_text(*anyvalue),
{
    match anyvalue {
        AnyValue::Unset => String::new(),
        AnyValue::Text(inner) => inner.clone(),
        AnyValue::Bool(inner) => if *inner {
            "true".to_owned()
        } else {
            "false".to_owned()
        },
        AnyValue::Int(inner) => i64_to_string(*inner),
        AnyValue::Double(inner) => inner.clone(),
        AnyValue::Other => String::new(),
    }
}

/// The text of a value that may be missing.
fn optional_to_string(value: &Option<AnyValue>) -> (text: String)
    ensures
        text@ == optional_text(*value),
{
    match value {
        Some(value) => anyvalue_to_string(value),
        None => String::new(),
    }
}

/// Reads a list of attributes into a map.
fn read_attributes(into: &mut Labels, attributes: &Vec<KeyValue>)
    requires
        old(into).wf(),
    ensures
        final(into).wf(),
        final(into).text() == old(into).text().union_prefer_right(attributes_text(attributes@)),
{
    let n = attributes.len();
    let mut i: usize = 0;
    proof {
        assert(attributes@.take(0) =~= Seq::<KeyValue>::empty());
        assert(into.text() =~= old(into).text().union_prefer_right(
            attributes_text(attributes@.take(0)),
        ));
    }
    while i < n
        invariant
            n == attributes@.len(),
            i <= n,
            into.wf(),
            into.text() == old(into).text().union_prefer_right(
                attributes_text(attributes@.take(i as int)),
            ),
        decreases n - i,
    {
        let key = attributes[i].key.clone();
        let value = optional_to_string(&attributes[i].value);
        proof {
            let before = attributes@.take(i as int);
            assert(attributes@.take(i as int + 1).drop_last() =~= before);
            assert(old(into).text().union_prefer_right(attributes_text(before)).insert(
                key@,
                value@,
            ) =~= old(into).text().union_prefer_right(attributes_text(before).insert(key@, value@)));
        }
        into.set(key, value);
        i += 1;
    }
    proof {
        assert(attributes@.take(n as int) =~= attributes@);
    }
}

/// The labels of an item of a resource: the attributes of the resource,
/// `labels`, and those of the item, `attrs`. Where both hold a key, the
/// item's value counts.
pub fn tags_to_map(attrs: &Vec<KeyValue>, labels: &Vec<KeyValue>) -> (map: Labels)
    ensures
        map.wf(),
        map.text() == tags(attrs@, labels@),
{
    let mut map: Labels = StrMap::new();
    proof {
        assert(map.text() =~= Map::<Seq<char>, Seq<char>>::empty());
    }
    read_attributes(&mut map, labels);
    proof {
        assert(map.text() =~= attributes_text(labels@));
    }
    read_attributes(&mut map, attrs);
    map
}

/// The metadata of the logs of a resource: the attributes of the resource,
/// each value as text; none where the resource is missing.
pub fn get_otlp_metadata_from_logs(resource_logs: &ResourceLogs) -> (metadata: Metadata)
    ensures
        metadata.wf(),
        metadata.text() == match resource_logs.resource {
            Some(attributes) => attributes_text(attributes@),
            None => Map::empty(),
        },
{
    let mut metadata: Metadata = StrMap::new();
    proof {
        assert(metadata.text() =~= Map::<Seq<char>, Seq<char>>::empty());
    }
    match &resource_logs.resource {
        Some(attributes) => {
            read_attributes(&mut metadata, attributes);
            proof {
                assert(metadata.text() =~= attributes_text(attributes@));
            }
        },
        None => {},
    }
    metadata
}

/// The bodies of a list of log records as text.
pub open spec fn record_lines(records: Seq<LogRecord>) -> Seq<Seq<char>> {
    Seq::new(records.len(), |i: int| optional_text(records[i].body))
}

/// The bodies of the log records of a list of libraries as text, library
/// after library.
pub open spec fn library_lines(libraries: Seq<InstrumentationLibraryLogs>) -> Seq<Seq<char>>
    decreases libraries.len(),
{
    if libraries.len() == 0 {
        Seq::empty()
    } else {
        library_lines(libraries.drop_last()) + record_lines(libraries.last().log_records@)
    }
}

/// The log lines of a resource: the body of each record as text, in the
/// order of the records.
pub fn get_otlp_lines_from_logs(resource_logs: &ResourceLogs) -> (lines: Vec<String>)
    ensures
        crate::text::texts(lines@) == library_lines(resource_logs.instrumentation_library_logs@),
{
    let libraries = &resource_logs.instrumentation_library_logs;
    let mut lines: Vec<String> = Vec::new();
    let mut i: usize = 0;
    proof {
        assert(libraries@.take(0) =~= Seq::<InstrumentationLibraryLogs>::empty());
        assert(crate::text::texts(lines@) =~= Seq::<Seq<char>>::empty());
    }
    while i < libraries.len()
        invariant
            i <= libraries@.len(),
            crate::text::texts(lines@) == library_lines(libraries@.take(i as int)),
        decreases libraries@.len() - i,
    {
        let records = &libraries[i].log_records;
        let ghost before = crate::text::texts(lines@);
        let mut j: usize = 0;
        while j < records.len()
            invariant
                j <= records@.len(),
                crate::text::texts(lines@) == before + record_lines(records@).take(j as int),
            decreases records@.len() - j,
        {
            let line = optional_to_string(&records[j].body);
            let ghost so_far = lines@;
            lines.push(line);
            proof {
                assert(crate::text::texts(lines@) =~= crate::text::texts(so_far).push(line@));
                assert(record_lines(records@).take(j as int + 1) =~= record_lines(records@).take(
                    j as int,
                ).push(line@));
            }
            j += 1;
        }
        proof {
            assert(record_lines(records@).take(records@.len() as int) =~= record_lines(records@));
            assert(libraries@.take(i as int + 1).drop_last() =~= libraries@.take(i as int));
        }
        i += 1;
    }
    proof {
        assert(libraries@.take(libraries@.len() as int) =~= libraries@);
    }
    lines
}

/// The sample of a data point of the metric `name`. A point without a number
/// gives a sample without name, labels, value and time.
pub open spec fn point_view(dp: NumberDataPoint, name: Seq<char>, attributes: Seq<KeyValue>) -> SampleView {
    match dp.value_bits {
        Some(bits) => SampleView {
            metric: name,
            value_bits: bits,
            labels: tags(dp.attributes@, attributes),
            timestamp: dp.time_unix_nano / NANOS_IN_MILLIS,
        },
        None => SampleView {
            metric: Seq::empty(),
            value_bits: 0,
            labels: Map::empty(),
            timestamp: 0,
        },
    }
}

/// The samples of a list of data points, one for each.
pub open spec fn point_views(
    points: Seq<NumberDataPoint>,
    name: Seq<char>,
    attributes: Seq<KeyValue>,
) -> Seq<SampleView> {
    Seq::new(points.len(), |i: int| point_view(points[i], name, attributes))
}

/// The samples of a metric: one for each data point of a gauge or a sum, and
/// none for any other kind of data.
pub open spec fn metric_views(metric: Metric, attributes: Seq<KeyValue>) -> Seq<SampleView> {
    match metric.data {
        Some(MetricData::Gauge(points)) => point_views(points@, metric.name@, attributes),
        Some(MetricData::Sum(points)) => point_views(points@, metric.name@, attributes),
        _ => Seq::empty(),
    }
}

/// What each sample of a list holds.
pub open spec fn sample_views(samples: Seq<Sample>) -> Seq<SampleView> {
    Seq::new(samples.len(), |i: int| samples[i]@)
}

/// Every sample of the list is well formed.
pub open spec fn samples_wf(samples: Seq<Sample>) -> bool {
    forall|i: int| 0 <= i < samples.len() ==> (#[trigger] samples[i]).wf()
}

/// The time of a data point in milliseconds since the epoch.
pub fn get_number_datapoint_timestamp_millis(dp: &NumberDataPoint) -> (millis: u64)
    ensures
        millis == dp.time_unix_nano / NANOS_IN_MILLIS,
{
    dp.time_unix_nano / NANOS_IN_MILLIS
}

/// The sample with the given parts.
pub fn create_sample(name: &str, labels: Labels, value_bits: u64, timestamp: u64) -> (sample: Sample)
    requires
        labels.wf(),
    ensures
        sample.wf(),
        sample@ == (SampleView {
            metric: name@,
            value_bits,
            labels: labels.text(),
            timestamp,
        }),
{
    Sample { metric: name.to_owned(), value_bits, labels, timestamp }
}

/// The sample of a data point of the metric `name` of a resource with the
/// given attributes.
pub fn number_datapoint_to_sample(dp: &NumberDataPoint, name: &str, attributes: &Vec<KeyValue>) -> (sample:
    Sample)
    ensures
        sample.wf(),
        sample@ == point_view(*dp, name@, attributes@),
{
    match dp.value_bits {
        Some(bits) => {
            let labels = tags_to_map(&dp.attributes, attributes);
            let timestamp = get_number_datapoint_timestamp_millis(dp);
            create_sample(name, labels, bits, timestamp)
        },
        None => {
            let labels: Labels = StrMap::new();
            proof {
                assert(labels.text() =~= Map::<Seq<char>, Seq<char>>::empty());
            }
            Sample { metric: String::new(), value_bits: 0, labels, timestamp: 0 }
        },
    }
}

/// The samples of a list of data points.
fn points_to_samples(points: &Vec<NumberDataPoint>, name: &str, attributes: &Vec<KeyValue>) -> (samples:
    Vec<Sample>)
    ensures
        samples_wf(samples@),
        sample_views(samples@) == point_views(points@, name@, attributes@),
{
    let mut samples: Vec<Sample> = Vec::new();
    let mut i: usize = 0;
    while i < points.len()
        invariant
            i <= points@.len(),
            samples@.len() == i,
            samples_wf(samples@),
            forall|j: int|
                0 <= j < i ==> (#[trigger] samples@[j])@ == point_view(points@[j], name@, attributes@),
        decreases points@.len() - i,
    {
        samples.push(number_datapoint_to_sample(&points[i], name, attributes));
        i += 1;
    }
    proof {
        assert(sample_views(samples@) =~= point_views(points@, name@, attributes@));
    }
    samples
}

/// The samples of a gauge.
pub fn gauge_to_samples(gauge: &Vec<NumberDataPoint>, name: &str, attributes: &Vec<KeyValue>) -> (samples:
    Vec<Sample>)
    ensures
        samples_wf(samples@),
        sample_views(samples@) == point_views(gauge@, name@, attributes@),
{
    points_to_samples(gauge, name, attributes)
}

/// The samples of a sum.
pub fn sum_to_samples(sum: &Vec<NumberDataPoint>, name: &str, attributes: &Vec<KeyValue>) -> (samples:
    Vec<Sample>)
    ensures
        samples_wf(samples@),
        sample_views(samples@) == point_views(sum@, name@, attributes@),
{
    points_to_samples(sum, name, attributes)
}

/// The samples of a metric of a resource with the given attributes.
pub fn otlp_metric_to_samples(metric: &Metric, attributes: &Vec<KeyValue>) -> (samples: Vec<Sample>)
    ensures
        samples_wf(samples@),
        sample_views(samples@) == metric_views(*metric, attributes@),
{
    match &metric.data {
        Some(MetricData::Gauge(points)) => gauge_to_samples(points, metric.name.as_str(), attributes),
        Some(MetricData::Sum(points)) => sum_to_samples(points, metric.name.as_str(), attributes),
        _ => {
            let samples: Vec<Sample> = Vec::new();
            assert(sample_views(samples@) =~= Seq::<SampleView>::empty());
            samples
        },
    }
}

/// The span to store for a span as it is sent: the identifiers in lower-case
/// hexadecimal digits, and the attributes of the resource with those of the
/// span.
pub fn otlp_span_to_span(otlp_span: &OtlpSpan, resource_attrs: &Vec<KeyValue>) -> (span: Span)
    ensures
        span.wf(),
        span@ == (SpanView {
            name: otlp_span.name@,
            id: hex_text(otlp_span.span_id@),
            trace_id: hex_text(otlp_span.trace_id@),
            parent_span_id: hex_text(otlp_span.parent_span_id@),
            attributes: tags(otlp_span.attributes@, resource_attrs@),
        }),
{
    let attributes = tags_to_map(&otlp_span.attributes, resource_attrs);
    Span {
        name: otlp_span.name.clone(),
        id: hex_encode(&otlp_span.span_id),
        trace_id: hex_encode(&otlp_span.trace_id),
        parent_span_id: hex_encode(&otlp_span.parent_span_id),
        attributes,
    }
}

} // verus!
