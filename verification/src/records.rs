//! Structured records built from runs of raw sample lines.
//!
//! A gauge family turns every line into one [`Metric`].  A summary or
//! histogram family turns a run of lines — quantile or bucket lines, a
//! `_sum` line and a `_count` line — into one record, hoisting the reserved
//! label (`quantile` or `le`) out of the label set.

use vstd::prelude::*;

use crate::error::ParseError;
use crate::error::ParseErrorView;
use crate::grammar::labels_of_frags;
use crate::grammar::spec_classify;
use crate::grammar::starts_with;
use crate::grammar::LineShape;
use crate::labels::pairs_view;
use crate::labels::str_eq;
use crate::labels::LabelSet;
use crate::line::classify;
use crate::line::starts_with_x;
use vstd::string::StringExecFns;

verus! {

/// The view of a list of borrowed lines as character sequences.
pub open spec fn lines_view(ls: Seq<&str>) -> Seq<Seq<char>> {
    ls.map_values(|l: &str| l@)
}

/// The view of a gauge-like sample.
pub ghost struct MetricView {
    pub labels: Option<Map<Seq<char>, Seq<char>>>,
    pub value: Seq<char>,
}

/// One gauge-like sample: optional labels and the literal value text.
#[derive(Debug, PartialEq)]
pub struct Metric {
    pub labels: Option<LabelSet>,
    pub value: String,
}

impl View for Metric {
    type V = MetricView;

    open spec fn view(&self) -> MetricView {
        MetricView {
            labels: match self.labels {
                Some(ls) => Some(ls@),
                None => None,
            },
            value: self.value@,
        }
    }
}

/// What parsing one sample line yields: the line's labels (if any) as a
/// map, and its value text.
pub open spec fn spec_metric(line: Seq<char>) -> Result<MetricView, ParseErrorView> {
    match spec_classify(line) {
        LineShape::Unlabeled { value } => Ok(MetricView { labels: None, value }),
        LineShape::Labeled { value, frags } => Ok(
            MetricView { labels: Some(labels_of_frags(frags)), value },
        ),
        LineShape::Invalid => Err(ParseErrorView::MalformedLine(line)),
    }
}

impl Metric {
    /// Classify one sample line into its value text and optional labels.
    pub fn parse_from_string(s: &str) -> (r: Result<(String, Option<LabelSet>), ParseError>)
        ensures
            match r {
                Ok(p) => match spec_classify(s@) {
                    LineShape::Unlabeled { value } => p.0@ == value && p.1 is None,
                    LineShape::Labeled { value, frags } => p.0@ == value && (match p.1 {
                        Some(ls) => ls@ == labels_of_frags(frags),
                        None => false,
                    }),
                    LineShape::Invalid => false,
                },
                Err(e) => spec_classify(s@) == LineShape::Invalid && e@
                    == ParseErrorView::MalformedLine(s@),
            },
    {
        match classify(s) {
            Err(e) => Err(e),
            Ok((value, None)) => Ok((value, None)),
            Ok((value, Some(frags))) => Ok((value, Some(LabelSet::from_pairs(frags)))),
        }
    }

    /// Parse one sample line into a sample.
    pub fn from_string(s: &str) -> (r: Result<Metric, ParseError>)
        ensures
            (match r {
                Ok(m) => Ok(m@),
                Err(e) => Err(e@),
            }) == spec_metric(s@),
    {
        match classify(s) {
            Err(e) => Err(e),
            Ok((value, None)) => Ok(Metric { labels: None, value }),
            Ok((value, Some(frags))) => Ok(
                Metric { labels: Some(LabelSet::from_pairs(frags)), value },
            ),
        }
    }
}

/// The state accumulated over one summary or histogram run: the shared
/// labels, the hoisted reserved-label map, and the `_sum` and `_count`
/// values seen last.
pub ghost struct RunView {
    pub labels: Map<Seq<char>, Seq<char>>,
    pub hoisted: Map<Seq<char>, Seq<char>>,
    pub sum: Seq<char>,
    pub count: Seq<char>,
}

/// Distribute the fragments of one labeled line: a fragment of the
/// reserved name maps its value to the line's value text in the hoisted
/// map; every other fragment joins the shared labels.
pub open spec fn route_frags(
    labels: Map<Seq<char>, Seq<char>>,
    hoisted: Map<Seq<char>, Seq<char>>,
    frags: Seq<(Seq<char>, Seq<char>)>,
    reserved: Seq<char>,
    value: Seq<char>,
) -> (Map<Seq<char>, Seq<char>>, Map<Seq<char>, Seq<char>>)
    decreases frags.len(),
{
    if frags.len() == 0 {
        (labels, hoisted)
    } else {
        let prev = route_frags(labels, hoisted, frags.drop_last(), reserved, value);
        let f = frags.last();
        if f.0 == reserved {
            (prev.0, prev.1.insert(f.1, value))
        } else {
            (prev.0.insert(f.0, f.1), prev.1)
        }
    }
}

/// Consume one line of a run.  A line prefixed by `<name>_sum` or
/// `<name>_count` contributes only its value; any other line must be
/// labeled, and its fragments are routed by `route_frags`.
pub open spec fn spec_run_step(
    name: Seq<char>,
    reserved: Seq<char>,
    acc: RunView,
    line: Seq<char>,
) -> Result<RunView, ParseErrorView> {
    if starts_with(line, name + "_sum"@) {
        match spec_classify(line) {
            LineShape::Invalid => Err(ParseErrorView::MalformedLine(line)),
            LineShape::Unlabeled { value } => Ok(
                RunView { labels: acc.labels, hoisted: acc.hoisted, sum: value, count: acc.count },
            ),
            LineShape::Labeled { value, frags } => Ok(
                RunView { labels: acc.labels, hoisted: acc.hoisted, sum: value, count: acc.count },
            ),
        }
    } else if starts_with(line, name + "_count"@) {
        match spec_classify(line) {
            LineShape::Invalid => Err(ParseErrorView::MalformedLine(line)),
            LineShape::Unlabeled { value } => Ok(
                RunView { labels: acc.labels, hoisted: acc.hoisted, sum: acc.sum, count: value },
            ),
            LineShape::Labeled { value, frags } => Ok(
                RunView { labels: acc.labels, hoisted: acc.hoisted, sum: acc.sum, count: value },
            ),
        }
    } else {
        match spec_classify(line) {
            LineShape::Labeled { value, frags } => {
                let routed = route_frags(acc.labels, acc.hoisted, frags, reserved, value);
                Ok(RunView { labels: routed.0, hoisted: routed.1, sum: acc.sum, count: acc.count })
            },
            _ => Err(ParseErrorView::MalformedLine(line)),
        }
    }
}

/// Consume a whole run, line by line, starting from the empty state.
pub open spec fn spec_run(name: Seq<char>, reserved: Seq<char>, lines: Seq<Seq<char>>) -> Result<
    RunView,
    ParseErrorView,
>
    decreases lines.len(),
{
    if lines.len() == 0 {
        Ok(
            RunView {
                labels: Map::empty(),
                hoisted: Map::empty(),
                sum: Seq::empty(),
                count: Seq::empty(),
            },
        )
    } else {
        match spec_run(name, reserved, lines.drop_last()) {
            Err(e) => Err(e),
            Ok(acc) => spec_run_step(name, reserved, acc, lines.last()),
        }
    }
}

/// A failed line fails the whole run, whatever follows it.
pub proof fn lemma_spec_run_err(name: Seq<char>, reserved: Seq<char>, lines: Seq<Seq<char>>, i: int)
    requires
        0 <= i <= lines.len(),
        spec_run(name, reserved, lines.take(i)) is Err,
    ensures
        spec_run(name, reserved, lines) == spec_run(name, reserved, lines.take(i)),
    decreases lines.len() - i,
{
    if i < lines.len() {
        assert(lines.take(i + 1).drop_last() =~= lines.take(i));
        lemma_spec_run_err(name, reserved, lines, i + 1);
    } else {
        assert(lines.take(i) =~= lines);
    }
}

/// Parse a run of raw lines into its accumulated state.
#[verifier::loop_isolation(false)]
fn parse_run(name: &str, reserved: &str, lines: &Vec<&str>) -> (r: Result<
    (LabelSet, LabelSet, String, String),
    ParseError,
>)
    ensures
        match r {
            Ok(t) => spec_run(name@, reserved@, lines_view(lines@)) == Ok::<
                RunView,
                ParseErrorView,
            >(RunView { labels: t.0@, hoisted: t.1@, sum: t.2@, count: t.3@ }),
            Err(e) => spec_run(name@, reserved@, lines_view(lines@)) == Err::<
                RunView,
                ParseErrorView,
            >(e@),
        },
{
    let mut sum_prefix: String = name.to_owned();
    sum_prefix.append("_sum");
    let mut count_prefix: String = name.to_owned();
    count_prefix.append("_count");
    let mut labels = LabelSet::new();
    let mut hoisted = LabelSet::new();
    let mut sum = String::new();
    let mut count = String::new();
    let ghost lv = lines_view(lines@);
    proof {
        assert(lv.take(0) =~= Seq::<Seq<char>>::empty());
    }
    let n = lines.len();
    let mut i: usize = 0;
    while i < n
        invariant
            i <= n,
            spec_run(name@, reserved@, lv.take(i as int)) == Ok::<RunView, ParseErrorView>(
                RunView { labels: labels@, hoisted: hoisted@, sum: sum@, count: count@ },
            ),
        decreases n - i,
    {
        let line = lines[i];
        proof {
            assert(lv.take(i + 1).drop_last() =~= lv.take(i as int));
            assert(lv.take(i + 1).last() == line@);
        }
        if starts_with_x(line, sum_prefix.as_str()) {
            match classify(line) {
                Err(e) => {
                    proof {
                        lemma_spec_run_err(name@, reserved@, lv, i + 1);
                    }
                    return Err(e);
                },
                Ok((value, _)) => {
                    sum = value;
                },
            }
        } else if starts_with_x(line, count_prefix.as_str()) {
            match classify(line) {
                Err(e) => {
                    proof {
                        lemma_spec_run_err(name@, reserved@, lv, i + 1);
                    }
                    return Err(e);
                },
                Ok((value, _)) => {
                    count = value;
                },
            }
        } else {
            match classify(line) {
                Err(e) => {
                    proof {
                        lemma_spec_run_err(name@, reserved@, lv, i + 1);
                    }
                    return Err(e);
                },
                Ok((value, None)) => {
                    proof {
                        lemma_spec_run_err(name@, reserved@, lv, i + 1);
                    }
                    return Err(ParseError::MalformedLine(line.to_owned()));
                },
                Ok((value, Some(frags))) => {
                    let ghost fv = pairs_view(frags@);
                    let ghost labels0 = labels@;
                    let ghost hoisted0 = hoisted@;
                    proof {
                        assert(fv.take(0) =~= Seq::<(Seq<char>, Seq<char>)>::empty());
                    }
                    let m = frags.len();
                    let mut j: usize = 0;
                    while j < m
                        invariant
                            j <= m,
                            m == frags@.len(),
                            (labels@, hoisted@) == route_frags(
                                labels0,
                                hoisted0,
                                fv.take(j as int),
                                reserved@,
                                value@,
                            ),
                        decreases m - j,
                    {
                        proof {
                            assert(fv.take(j + 1).drop_last() =~= fv.take(j as int));
                            assert(fv.take(j + 1).last() == fv[j as int]);
                        }
                        if str_eq(frags[j].0.as_str(), reserved) {
                            hoisted.insert(frags[j].1.clone(), value.clone());
                        } else {
                            labels.insert(frags[j].0.clone(), frags[j].1.clone());
                        }
                        j = j + 1;
                    }
                    proof {
                        assert(fv.take(m as int) =~= fv);
                    }
                },
            }
        }
        i = i + 1;
    }
    proof {
        assert(lv.take(n as int) =~= lv);
    }
    Ok((labels, hoisted, sum, count))
}

/// The view of a summary record.
pub ghost struct SummaryView {
    pub labels: Option<Map<Seq<char>, Seq<char>>>,
    pub quantiles: Map<Seq<char>, Seq<char>>,
    pub count: Seq<char>,
    pub sum: Seq<char>,
}

/// One summary record: shared labels, the quantiles seen, and the raw
/// `_sum` and `_count` values.
#[derive(Debug, PartialEq)]
pub struct Summary {
    pub labels: Option<LabelSet>,
    pub quantiles: LabelSet,
    pub count: String,
    pub sum: String,
}

impl View for Summary {
    type V = SummaryView;

    open spec fn view(&self) -> SummaryView {
        SummaryView {
            labels: match self.labels {
                Some(ls) => Some(ls@),
                None => None,
            },
            quantiles: self.quantiles@,
            count: self.count@,
            sum: self.sum@,
        }
    }
}

/// What parsing a summary run yields: the run state with the `quantile`
/// label hoisted into the quantile map.
pub open spec fn spec_summary(name: Seq<char>, lines: Seq<Seq<char>>) -> Result<
    SummaryView,
    ParseErrorView,
> {
    match spec_run(name, "quantile"@, lines) {
        Err(e) => Err(e),
        Ok(rv) => Ok(
            SummaryView {
                labels: Some(rv.labels),
                quantiles: rv.hoisted,
                count: rv.count,
                sum: rv.sum,
            },
        ),
    }
}

impl Summary {
    /// Parse the raw lines of one summary run into a record.
    pub fn from_raw(metric_name: &str, raw_lines: &Vec<&str>) -> (r: Result<Summary, ParseError>)
        ensures
            (match r {
                Ok(s) => Ok(s@),
                Err(e) => Err(e@),
            }) == spec_summary(metric_name@, lines_view(raw_lines@)),
    {
        match parse_run(metric_name, "quantile", raw_lines) {
            Err(e) => Err(e),
            Ok((labels, quantiles, sum, count)) => Ok(
                Summary { labels: Some(labels), quantiles, count, sum },
            ),
        }
    }
}

/// The view of a histogram record.
pub ghost struct HistogramView {
    pub labels: Option<Map<Seq<char>, Seq<char>>>,
    pub buckets: Map<Seq<char>, Seq<char>>,
    pub count: Seq<char>,
    pub sum: Seq<char>,
}

/// One histogram record: shared labels, the cumulative buckets keyed by
/// their `le` bound, and the raw `_sum` and `_count` values.
#[derive(Debug, PartialEq)]
pub struct Histogram {
    pub labels: Option<LabelSet>,
    pub buckets: LabelSet,
    pub count: String,
    pub sum: String,
}

impl View for Histogram {
    type V = HistogramView;

    open spec fn view(&self) -> HistogramView {
        HistogramView {
            labels: match self.labels {
                Some(ls) => Some(ls@),
                None => None,
            },
            buckets: self.buckets@,
            count: self.count@,
            sum: self.sum@,
        }
    }
}

/// What parsing a histogram run yields: the run state with the `le`
/// label hoisted into the bucket map.
pub open spec fn spec_histogram(name: Seq<char>, lines: Seq<Seq<char>>) -> Result<
    HistogramView,
    ParseErrorView,
> {
    match spec_run(name, "le"@, lines) {
        Err(e) => Err(e),
        Ok(rv) => Ok(
            HistogramView {
                labels: Some(rv.labels),
                buckets: rv.hoisted,
                count: rv.count,
                sum: rv.sum,
            },
        ),
    }
}

impl Histogram {
    /// Parse the raw lines of one histogram run into a record.
    pub fn from_raw(metric_name: &str, raw_lines: &Vec<&str>) -> (r: Result<Histogram, ParseError>)
        ensures
            (match r {
                Ok(h) => Ok(h@),
                Err(e) => Err(e@),
            }) == spec_histogram(metric_name@, lines_view(raw_lines@)),
    {
        match parse_run(metric_name, "le", raw_lines) {
            Err(e) => Err(e),
            Ok((labels, buckets, sum, count)) => Ok(
                Histogram { labels: Some(labels), buckets, count, sum },
            ),
        }
    }
}

/// One entry of a family's data: a sample for a gauge family, a record
/// for a histogram or summary family.
pub ghost enum MetricDataView {
    Gauge(MetricView),
    Histogram(HistogramView),
    Summary(SummaryView),
}

/// One entry of a family's data, tagged by the family's kind.
#[derive(Debug, PartialEq)]
pub enum MetricData {
    Gauge(Metric),
    Histogram(Histogram),
    Summary(Summary),
}

impl View for MetricData {
    type V = MetricDataView;

    open spec fn view(&self) -> MetricDataView {
        match self {
            MetricData::Gauge(m) => MetricDataView::Gauge(m@),
            MetricData::Histogram(h) => MetricDataView::Histogram(h@),
            MetricData::Summary(s) => MetricDataView::Summary(s@),
        }
    }
}

} // verus!
