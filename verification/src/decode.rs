use crate::metrics::MetricsHandleResult;
use crate::options::{Options, Print};
use crate::prometheus::{lines_to_samples, prometheus_series};
use crate::sample::SampleView;
use crate::text::{
    after_char, before_char, chars_of, find_char, find_pair, has_char, index_of_pair, split, split_spec,
    texts,
};
use vstd::prelude::*;
use vstd::string::*;

verus! {

/// The intrinsic tags of a Carbon 2.0 line: what stands before the first two
/// spaces in a row.
pub open spec fn carbon2_intrinsic(line: Seq<char>) -> Seq<char> {
    line.take(index_of_pair(line, ' ', ' '))
}

/// The metric that a tag names: a tag `metric=` and a value names the value,
/// as far as the next `=` if there is one; any other tag names nothing.
pub open spec fn carbon2_tag_name(tag: Seq<char>) -> Option<Seq<char>> {
    if has_char(tag, '=') && before_char(tag, '=') == "metric"@ {
        Some(before_char(after_char(tag, '='), '='))
    } else {
        None
    }
}

/// The metric that the first naming tag of a list names.
pub open spec fn first_tag_name(tags: Seq<Seq<char>>) -> Option<Seq<char>>
    decreases tags.len(),
{
    if tags.len() == 0 {
        None
    } else {
        match carbon2_tag_name(tags[0]) {
            Some(name) => Some(name),
            None => first_tag_name(tags.drop_first()),
        }
    }
}

/// The metric that a Carbon 2.0 line names: the one of the first intrinsic
/// tag with the key `metric`.
pub open spec fn carbon2_name(line: Seq<char>) -> Option<Seq<char>> {
    first_tag_name(split_spec(carbon2_intrinsic(line), ' '))
}

/// The metric that a Graphite line names. The line has three fields with one
/// space between them and its first field three parts with one dot between
/// them: the name is the second and the third part with `_` between them.
/// Any other line names nothing.
pub open spec fn graphite_name(line: Seq<char>) -> Option<Seq<char>> {
    let fields = split_spec(line, ' ');
    if fields.len() != 3 {
        None
    } else {
        let parts = split_spec(fields[0], '.');
        if parts.len() != 3 {
            None
        } else {
            Some(parts[1] + seq!['_'] + parts[2])
        }
    }
}

/// The metric that a line of Prometheus text names: what stands before the
/// first `{`. A line that starts with `#` is a comment and names nothing.
pub open spec fn prometheus_name(line: Seq<char>) -> Option<Seq<char>> {
    if line.len() > 0 && line[0] == '#' {
        None
    } else {
        Some(before_char(line, '{'))
    }
}

/// What a function from line to name gives for each line of a list.
pub open spec fn names_by(
    lines: Seq<Seq<char>>,
    name_of: spec_fn(Seq<char>) -> Option<Seq<char>>,
) -> Seq<Option<Seq<char>>> {
    Seq::new(lines.len(), |i: int| name_of(lines[i]))
}

/// The text of a name, or nothing.
pub open spec fn option_text(name: Option<String>) -> Option<Seq<char>> {
    match name {
        Some(name) => Some(name@),
        None => None,
    }
}

/// The metric that one tag names.
fn tag_metric_name(tag: &str) -> (name: Option<String>)
    ensures
        option_text(name) == carbon2_tag_name(tag@),
{
    let chars = chars_of(tag);
    let eq = find_char(&chars, 0, '=');
    proof {
        assert(tag@.skip(0) =~= tag@);
    }
    if eq >= chars.len() {
        return None;
    }
    let key = tag.substring_char(0, eq);
    proof {
        assert(tag@.subrange(0, eq as int) =~= before_char(tag@, '='));
    }
    if !key.eq("metric") {
        return None;
    }
    let end = find_char(&chars, eq + 1, '=');
    let name = tag.substring_char(eq + 1, end).to_owned();
    proof {
        let after = after_char(tag@, '=');
        assert(after == tag@.skip(eq as int + 1));
        assert(before_char(after, '=') =~= tag@.subrange(eq as int + 1, end as int));
    }
    Some(name)
}

/// The metric that a Carbon 2.0 line names.
pub fn carbon2_metric_name(line: &str) -> (name: Option<String>)
    ensures
        option_text(name) == carbon2_name(line@),
{
    let chars = chars_of(line);
    let cut = find_pair(&chars, ' ', ' ');
    let intrinsic = line.substring_char(0, cut);
    proof {
        assert(intrinsic@ =~= carbon2_intrinsic(line@));
    }
    let tags = split(intrinsic, ' ');
    let ghost all = texts(tags@);
    let mut i: usize = 0;
    proof {
        assert(all.skip(0) =~= all);
    }
    while i < tags.len()
        invariant
            i <= tags@.len(),
            all == texts(tags@),
            carbon2_name(line@) == first_tag_name(all.skip(i as int)),
        decreases tags@.len() - i,
    {
        let found = tag_metric_name(tags[i].as_str());
        proof {
            assert(all.skip(i as int)[0] == tags@[i as int]@);
            assert(all.skip(i as int).drop_first() =~= all.skip(i as int + 1));
        }
        if found.is_some() {
            return found;
        }
        i += 1;
    }
    None
}

/// The metric that a Graphite line names.
pub fn graphite_metric_name(line: &str) -> (name: Option<String>)
    ensures
        option_text(name) == graphite_name(line@),
{
    let fields = split(line, ' ');
    if fields.len() != 3 {
        return None;
    }
    proof {
        assert(texts(fields@)[0] == fields@[0]@);
    }
    let parts = split(fields[0].as_str(), '.');
    if parts.len() != 3 {
        return None;
    }
    let mut name = parts[1].clone();
    name.append("_");
    name.append(parts[2].as_str());
    proof {
        reveal_strlit("_");
        assert("_"@ =~= seq!['_']);
        assert(texts(parts@)[1] == parts@[1]@);
        assert(texts(parts@)[2] == parts@[2]@);
    }
    Some(name)
}

/// The metric that a line of Prometheus text names.
pub fn prometheus_metric_name(line: &str) -> (name: Option<String>)
    ensures
        option_text(name) == prometheus_name(line@),
{
    let chars = chars_of(line);
    if chars.len() > 0 && chars[0] == '#' {
        return None;
    }
    let end = find_char(&chars, 0, '{');
    proof {
        assert(line@.skip(0) =~= line@);
        assert(line@.subrange(0, end as int) =~= before_char(line@, '{'));
    }
    Some(line.substring_char(0, end).to_owned())
}

/// Counts the metrics of a request in Carbon 2.0 format. Each line counts for
/// the remote address; a line that names a metric counts for that name too.
/// Whether to print the lines is left to the caller, which holds the same
/// flag.
pub fn handle_carbon2(lines: &Vec<String>, address: &str, print_opts: Print) -> (result:
    MetricsHandleResult)
    ensures
        result.wf(),
        result.counts(names_by(texts(lines@), |l: Seq<char>| carbon2_name(l)), address@, true),
        result.metrics_samples.views() == Seq::<SampleView>::empty(),
{
    let mut names: Vec<Option<String>> = Vec::new();
    let mut i: usize = 0;
    while i < lines.len()
        invariant
            i <= lines@.len(),
            names@.len() == i,
            forall|j: int| 0 <= j < i ==> option_text(#[trigger] names@[j]) == carbon2_name(lines@[j]@),
        decreases lines@.len() - i,
    {
        names.push(carbon2_metric_name(lines[i].as_str()));
        i += 1;
    }
    proof {
        assert(crate::metrics::option_texts(names@) =~= names_by(
            texts(lines@),
            |l: Seq<char>| carbon2_name(l),
        ));
    }
    MetricsHandleResult::tally(&names, address, true)
}

/// Counts the metrics of a request in Graphite format. A line that names a
/// metric counts for that name and for the remote address; any other line is
/// passed over.
pub fn handle_graphite(lines: &Vec<String>, address: &str, print_opts: Print) -> (result:
    MetricsHandleResult)
    ensures
        result.wf(),
        result.balanced(),
        result.counts(names_by(texts(lines@), |l: Seq<char>| graphite_name(l)), address@, false),
        result.metrics_samples.views() == Seq::<SampleView>::empty(),
{
    let mut names: Vec<Option<String>> = Vec::new();
    let mut i: usize = 0;
    while i < lines.len()
        invariant
            i <= lines@.len(),
            names@.len() == i,
            forall|j: int| 0 <= j < i ==> option_text(#[trigger] names@[j]) == graphite_name(lines@[j]@),
        decreases lines@.len() - i,
    {
        names.push(graphite_metric_name(lines[i].as_str()));
        i += 1;
    }
    proof {
        assert(crate::metrics::option_texts(names@) =~= names_by(
            texts(lines@),
            |l: Seq<char>| graphite_name(l),
        ));
    }
    MetricsHandleResult::tally(&names, address, false)
}

/// The lines of a list that are no comments, in order.
pub open spec fn prometheus_kept(lines: Seq<Seq<char>>) -> Seq<Seq<char>> {
    lines.filter(|l: Seq<char>| prometheus_name(l) is Some)
}

/// Counts the metrics of a request in Prometheus text format. A line that is
/// no comment counts for the name it gives and for the remote address. With
/// `store_metrics` the samples of those lines are parsed too, one for each
/// series; without it no sample is kept.
pub fn handle_prometheus(lines: &Vec<String>, address: &str, opts: &Options) -> (result:
    MetricsHandleResult)
    ensures
        result.wf(),
        result.balanced(),
        result.counts(names_by(texts(lines@), |l: Seq<char>| prometheus_name(l)), address@, false),
        opts.store_metrics ==> result.metrics_samples.series() == prometheus_series(
            prometheus_kept(texts(lines@)),
        ),
        !opts.store_metrics ==> result.metrics_samples.views() == Seq::<SampleView>::empty(),
{
    let ghost keep = |l: Seq<char>| prometheus_name(l) is Some;
    let mut names: Vec<Option<String>> = Vec::new();
    let mut kept: Vec<String> = Vec::new();
    let mut i: usize = 0;
    proof {
        reveal(Seq::filter);
        assert(texts(lines@).take(0) =~= Seq::<Seq<char>>::empty());
        assert(texts(kept@) =~= Seq::<Seq<char>>::empty());
    }
    while i < lines.len()
        invariant
            i <= lines@.len(),
            names@.len() == i,
            keep == |l: Seq<char>| prometheus_name(l) is Some,
            forall|j: int|
                0 <= j < i ==> option_text(#[trigger] names@[j]) == prometheus_name(lines@[j]@),
            texts(kept@) == texts(lines@).take(i as int).filter(keep),
        decreases lines@.len() - i,
    {
        let name = prometheus_metric_name(lines[i].as_str());
        proof {
            let before = texts(lines@).take(i as int);
            assert(texts(lines@).take(i as int + 1) =~= before.push(lines@[i as int]@));
            before.lemma_filter_push(lines@[i as int]@, keep);
        }
        if name.is_some() {
            let ghost kept_before = kept@;
            kept.push(lines[i].clone());
            proof {
                assert(texts(kept@) =~= texts(kept_before).push(lines@[i as int]@));
            }
        }
        names.push(name);
        i += 1;
    }
    proof {
        assert(texts(lines@).take(lines@.len() as int) =~= texts(lines@));
        assert(crate::metrics::option_texts(names@) =~= names_by(
            texts(lines@),
            |l: Seq<char>| prometheus_name(l),
        ));
    }
    let mut result = MetricsHandleResult::tally(&names, address, false);
    if opts.store_metrics {
        result.metrics_samples = lines_to_samples(kept);
    }
    result
}

} // verus!
