use crate::labels::Labels;
use crate::sample::{keep_all, lemma_keep_all, series_of, Sample, SampleSet, SampleView, Series};
use crate::strmap::StrMap;
use crate::text::texts;
use prometheus_parse::{Scrape, Value};
use vstd::prelude::*;

verus! {

/// The value of a parsed sample, by the type of its metric. A number is held
/// as the bit pattern of a 64-bit IEEE 754 number.
#[derive(Debug)]
pub enum ParsedValue {
    Counter(u64),
    Gauge(u64),
    Untyped(u64),
    Histogram,
    Summary,
}

/// One sample as the parser of the Prometheus text format gives it.
#[derive(Debug)]
pub struct ParsedSample {
    pub metric: String,
    /// Label names with their values.
    pub labels: Vec<(String, String)>,
    pub value: ParsedValue,
    /// Milliseconds since the epoch; negative before it.
    pub timestamp_millis: i64,
}

/// The map that a list of pairs stands for. Of two pairs with one name the
/// later one counts.
pub open spec fn pairs_text(pairs: Seq<(String, String)>) -> Map<Seq<char>, Seq<char>>
    decreases pairs.len(),
{
    if pairs.len() == 0 {
        Map::empty()
    } else {
        pairs_text(pairs.drop_last()).insert(pairs.last().0@, pairs.last().1@)
    }
}

/// The number that a sample stores for a parsed value: the value of a
/// counter, a gauge or an untyped metric, and zero for a histogram or a
/// summary.
pub open spec fn stored_bits(value: ParsedValue) -> u64 {
    match value {
        ParsedValue::Counter(bits) => bits,
        ParsedValue::Gauge(bits) => bits,
        ParsedValue::Untyped(bits) => bits,
        ParsedValue::Histogram => 0,
        ParsedValue::Summary => 0,
    }
}

/// The sample that a parsed sample becomes.
pub open spec fn parsed_view(parsed: ParsedSample) -> SampleView {
    SampleView {
        metric: parsed.metric@,
        value_bits: stored_bits(parsed.value),
        labels: pairs_text(parsed.labels@),
        timestamp: parsed.timestamp_millis as u64,
    }
}

/// The samples that a list of parsed samples becomes.
pub open spec fn parsed_views(parsed: Seq<ParsedSample>) -> Seq<SampleView> {
    Seq::new(parsed.len(), |i: int| parsed_view(parsed[i]))
}

/// The series of the samples that the parser of the Prometheus text format
/// finds in a list of lines.
pub uninterp spec fn prometheus_series(lines: Seq<Seq<char>>) -> Set<Series>;

/// Runs `prometheus_parse::Scrape::parse` on the lines and hands out its
/// samples. Which series the samples belong to depends on the lines alone;
/// nothing is claimed of their order, their values or their timestamps: a
/// sample without a timestamp gets the time of the call.
#[verifier::external_body]
fn parse_prometheus(lines: Vec<String>) -> (parsed: Vec<ParsedSample>)
    ensures
        series_of(parsed_views(parsed@)) == prometheus_series(texts(lines@)),
{
    let scrape = Scrape::parse(lines.into_iter().map(Ok));
    scrape.map(|s| s.samples).unwrap_or_default().into_iter().map(|s| ParsedSample {
        labels: s.labels.iter().map(|(k, v)| (k.clone(), v.clone())).collect(),
        metric: s.metric,
        value: match s.value {
            Value::Counter(v) => ParsedValue::Counter(v.to_bits()),
            Value::Gauge(v) => ParsedValue::Gauge(v.to_bits()),
            Value::Untyped(v) => ParsedValue::Untyped(v.to_bits()),
            Value::Histogram(_) => ParsedValue::Histogram,
            Value::Summary(_) => ParsedValue::Summary,
        },
        timestamp_millis: s.timestamp.timestamp_millis(),
    }).collect()
}

/// The sample that a parsed sample becomes.
pub fn sample_from_parsed(parsed: &ParsedSample) -> (sample: Sample)
    ensures
        sample.wf(),
        sample@ == parsed_view(*parsed),
{
    let mut labels: Labels = StrMap::new();
    let n = parsed.labels.len();
    let mut i: usize = 0;
    proof {
        assert(parsed.labels@.take(0) =~= Seq::<(String, String)>::empty());
        assert(labels.text() =~= Map::<Seq<char>, Seq<char>>::empty());
    }
    while i < n
        invariant
            n == parsed.labels@.len(),
            i <= n,
            labels.wf(),
            labels.text() == pairs_text(parsed.labels@.take(i as int)),
        decreases n - i,
    {
        proof {
            assert(parsed.labels@.take(i as int + 1).drop_last() =~= parsed.labels@.take(i as int));
        }
        labels.set(parsed.labels[i].0.clone(), parsed.labels[i].1.clone());
        i += 1;
    }
    proof {
        assert(parsed.labels@.take(n as int) =~= parsed.labels@);
    }
    let value_bits: u64 = match parsed.value {
        ParsedValue::Counter(bits) => bits,
        ParsedValue::Gauge(bits) => bits,
        ParsedValue::Untyped(bits) => bits,
        ParsedValue::Histogram => 0,
        ParsedValue::Summary => 0,
    };
    Sample {
        metric: parsed.metric.clone(),
        value_bits,
        labels,
        timestamp: parsed.timestamp_millis as u64,
    }
}

/// The set of the samples that a list of parsed samples becomes: of the
/// samples of one series the first one stays.
pub fn samples_from_parsed(parsed: &Vec<ParsedSample>) -> (out: SampleSet)
    ensures
        out.wf(),
        out.views() == keep_all(Seq::<SampleView>::empty(), parsed_views(parsed@)),
        out.series() == series_of(parsed_views(parsed@)),
{
    let mut out = SampleSet::new();
    let n = parsed.len();
    let mut i: usize = 0;
    let ghost all = parsed_views(parsed@);
    proof {
        assert(all.take(0) =~= Seq::<SampleView>::empty());
    }
    while i < n
        invariant
            n == parsed@.len(),
            i <= n,
            all == parsed_views(parsed@),
            out.wf(),
            out.views() == keep_all(Seq::<SampleView>::empty(), all.take(i as int)),
        decreases n - i,
    {
        proof {
            assert(all.take(i as int + 1).drop_last() =~= all.take(i as int));
        }
        out.insert(sample_from_parsed(&parsed[i]));
        i += 1;
    }
    proof {
        assert(all.take(n as int) =~= all);
        lemma_keep_all(Seq::<SampleView>::empty(), all);
        assert(series_of(Seq::<SampleView>::empty()).union(series_of(all)) =~= series_of(all));
    }
    out
}

/// The samples that a list of lines of Prometheus text holds, one for each
/// series.
pub fn lines_to_samples(lines: Vec<String>) -> (out: SampleSet)
    ensures
        out.wf(),
        out.series() == prometheus_series(texts(lines@)),
{
    let parsed = parse_prometheus(lines);
    samples_from_parsed(&parsed)
}

} // verus!
