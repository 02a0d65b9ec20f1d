//! Metric families: a `HELP`/`TYPE` pair and the records that follow it.
//!
//! The first two lines of a family chunk carry its help text, name and
//! kind.  The remaining lines become the family's data: one sample per
//! line for a gauge, or one record per `_count`-terminated run for a
//! histogram or summary.  An unterminated trailing run is dropped.

use vstd::prelude::*;

use crate::error::ParseError;
use crate::error::ParseErrorView;
use crate::grammar::starts_with;
use crate::labels::str_eq;
use crate::line::starts_with_x;
use crate::meta::spec_tokens;
use crate::meta::split_tokens;
use crate::meta::strings_view;
use crate::records::lines_view;
use crate::records::spec_metric;
use crate::records::spec_run;
use crate::records::Histogram;
use crate::records::HistogramView;
use crate::records::Metric;
use crate::records::MetricData;
use crate::records::MetricDataView;
use crate::records::RunView;
use crate::records::Summary;
use crate::records::SummaryView;
use vstd::string::StringExecFns;

verus! {

/// The kind of a metric family.  Counters are represented as gauges.
#[derive(Debug, Clone, Copy, PartialEq, Eq, Structural)]
pub enum MetricType {
    Gauge,
    Histogram,
    Summary,
}

/// The tokens after the metric name of a `HELP` line, joined by single
/// spaces.
pub open spec fn join_spaces(toks: Seq<Seq<char>>) -> Seq<char>
    decreases toks.len(),
{
    if toks.len() == 0 {
        Seq::empty()
    } else if toks.len() == 1 {
        toks[0]
    } else {
        join_spaces(toks.drop_last()) + " "@ + toks.last()
    }
}

/// The help text of a `HELP` line, or `None` when the line has fewer than
/// three tokens.
pub open spec fn spec_help(line: Seq<char>) -> Option<Seq<char>> {
    let toks = spec_tokens(line);
    if toks.len() < 3 {
        None
    } else {
        Some(join_spaces(toks.skip(3)))
    }
}

/// The name and kind on a `TYPE` line: its third and fourth tokens.  An
/// unknown keyword is an error; a line of fewer than four tokens is
/// malformed.
pub open spec fn spec_name_and_type(line: Seq<char>) -> Result<
    (Seq<char>, MetricType),
    ParseErrorView,
> {
    let toks = spec_tokens(line);
    if toks.len() < 4 {
        Err(ParseErrorView::MalformedLine(line))
    } else {
        let kw = toks[3];
        if kw == "gauge"@ || kw == "counter"@ {
            Ok((toks[2], MetricType::Gauge))
        } else if kw == "histogram"@ {
            Ok((toks[2], MetricType::Histogram))
        } else if kw == "summary"@ {
            Ok((toks[2], MetricType::Summary))
        } else {
            Err(ParseErrorView::UnknownMetricType(kw))
        }
    }
}

/// The view of a family's data list.
pub open spec fn data_view(ds: Seq<MetricData>) -> Seq<MetricDataView> {
    ds.map_values(|d: MetricData| d@)
}

/// The samples of a gauge family: one per line, in order.
pub open spec fn spec_gauge_data(lines: Seq<Seq<char>>) -> Result<
    Seq<MetricDataView>,
    ParseErrorView,
>
    decreases lines.len(),
{
    if lines.len() == 0 {
        Ok(Seq::empty())
    } else {
        match spec_gauge_data(lines.drop_last()) {
            Err(e) => Err(e),
            Ok(ds) => match spec_metric(lines.last()) {
                Err(e) => Err(e),
                Ok(m) => Ok(ds.push(MetricDataView::Gauge(m))),
            },
        }
    }
}

/// A failed line fails the whole gauge family, whatever follows it.
pub proof fn lemma_spec_gauge_err(lines: Seq<Seq<char>>, i: int)
    requires
        0 <= i <= lines.len(),
        spec_gauge_data(lines.take(i)) is Err,
    ensures
        spec_gauge_data(lines) == spec_gauge_data(lines.take(i)),
    decreases lines.len() - i,
{
    if i < lines.len() {
        assert(lines.take(i + 1).drop_last() =~= lines.take(i));
        lemma_spec_gauge_err(lines, i + 1);
    } else {
        assert(lines.take(i) =~= lines);
    }
}

/// The record view a histogram family stores for one completed run.
pub open spec fn hist_view_of_run(r: RunView) -> MetricDataView {
    MetricDataView::Histogram(
        HistogramView { labels: Some(r.labels), buckets: r.hoisted, count: r.count, sum: r.sum },
    )
}

/// The record view a summary family stores for one completed run.
pub open spec fn summ_view_of_run(r: RunView) -> MetricDataView {
    MetricDataView::Summary(
        SummaryView { labels: Some(r.labels), quantiles: r.hoisted, count: r.count, sum: r.sum },
    )
}

/// The completed runs of a histogram or summary family, read from line
/// `i` on with `cur` the run accumulated so far.  Every line joins the
/// current run; a line prefixed by `<name>_count` completes the run.  A
/// trailing run without its `_count` line is dropped.
pub open spec fn spec_runs_at(
    name: Seq<char>,
    reserved: Seq<char>,
    lines: Seq<Seq<char>>,
    i: int,
    cur: Seq<Seq<char>>,
) -> Result<Seq<RunView>, ParseErrorView>
    decreases lines.len() - i,
{
    if !(0 <= i < lines.len()) {
        Ok(Seq::empty())
    } else {
        let line = lines[i];
        let cur2 = cur.push(line);
        if starts_with(line, name + "_count"@) {
            match spec_run(name, reserved, cur2) {
                Err(e) => Err(e),
                Ok(r) => match spec_runs_at(name, reserved, lines, i + 1, Seq::empty()) {
                    Err(e) => Err(e),
                    Ok(rs) => Ok(seq![r] + rs),
                },
            }
        } else {
            spec_runs_at(name, reserved, lines, i + 1, cur2)
        }
    }
}

/// The view of a metric family.
pub ghost struct MetricFamilyView {
    pub metric_type: MetricType,
    pub metric_name: Seq<char>,
    pub help: Seq<char>,
    pub data: Seq<MetricDataView>,
}

/// One metric family: its kind, name, help text, and data in source
/// order.
#[derive(Debug, PartialEq)]
pub struct MetricFamily {
    pub metric_type: MetricType,
    pub metric_name: String,
    pub help: String,
    pub data: Vec<MetricData>,
}

impl View for MetricFamily {
    type V = MetricFamilyView;

    open spec fn view(&self) -> MetricFamilyView {
        MetricFamilyView {
            metric_type: self.metric_type,
            metric_name: self.metric_name@,
            help: self.help@,
            data: data_view(self.data@),
        }
    }
}

/// What parsing the lines of one family chunk yields: the first line's
/// help text, the second line's name and kind, and the data parsed from
/// the remaining lines according to that kind.
pub open spec fn spec_family(lines: Seq<Seq<char>>) -> Result<MetricFamilyView, ParseErrorView> {
    if lines.len() < 2 {
        Err(ParseErrorView::MissingMetadata)
    } else {
        match spec_help(lines[0]) {
            None => Err(ParseErrorView::MalformedLine(lines[0])),
            Some(help) => match spec_name_and_type(lines[1]) {
                Err(e) => Err(e),
                Ok((name, mt)) => {
                    let body = lines.skip(2);
                    match mt {
                        MetricType::Gauge => match spec_gauge_data(body) {
                            Err(e) => Err(e),
                            Ok(ds) => Ok(
                                MetricFamilyView {
                                    metric_type: mt,
                                    metric_name: name,
                                    help,
                                    data: ds,
                                },
                            ),
                        },
                        MetricType::Histogram => match spec_runs_at(
                            name,
                            "le"@,
                            body,
                            0,
                            Seq::empty(),
                        ) {
                            Err(e) => Err(e),
                            Ok(rs) => Ok(
                                MetricFamilyView {
                                    metric_type: mt,
                                    metric_name: name,
                                    help,
                                    data: rs.map_values(|r: RunView| hist_view_of_run(r)),
                                },
                            ),
                        },
                        MetricType::Summary => match spec_runs_at(
                            name,
                            "quantile"@,
                            body,
                            0,
                            Seq::empty(),
                        ) {
                            Err(e) => Err(e),
                            Ok(rs) => Ok(
                                MetricFamilyView {
                                    metric_type: mt,
                                    metric_name: name,
                                    help,
                                    data: rs.map_values(|r: RunView| summ_view_of_run(r)),
                                },
                            ),
                        },
                    }
                },
            },
        }
    }
}

impl MetricFamily {
    /// Extract the help text of a `HELP` line.
    #[verifier::loop_isolation(false)]
    pub fn metric_help_fron_raw(help_line: &str) -> (r: Result<String, ParseError>)
        ensures
            match r {
                Ok(h) => spec_help(help_line@) == Some(h@),
                Err(e) => spec_help(help_line@) is None && e@ == ParseErrorView::MalformedLine(
                    help_line@,
                ),
            },
    {
        let toks = split_tokens(help_line);
        let n = toks.len();
        if n < 3 {
            return Err(ParseError::MalformedLine(help_line.to_owned()));
        }
        let ghost tv = strings_view(toks@);
        let ghost part = tv.skip(3);
        let mut out = String::new();
        let mut i: usize = 3;
        proof {
            assert(part.take(0) =~= Seq::<Seq<char>>::empty());
        }
        while i < n
            invariant
                3 <= i <= n,
                n == toks@.len(),
                out@ == join_spaces(part.take(i - 3)),
            decreases n - i,
        {
            proof {
                assert(part.take(i - 3 + 1).drop_last() =~= part.take(i - 3));
                assert(part.take(i - 3 + 1).last() == tv[i as int]);
            }
            if i > 3 {
                out.append(" ");
            }
            out.append(toks[i].as_str());
            i = i + 1;
        }
        proof {
            assert(part.take(n - 3) =~= part);
        }
        Ok(out)
    }

    /// Extract the metric name and kind of a `TYPE` line.
    pub fn metric_name_and_type(type_line: &str) -> (r: Result<(String, MetricType), ParseError>)
        ensures
            (match r {
                Ok(t) => Ok((t.0@, t.1)),
                Err(e) => Err(e@),
            }) == spec_name_and_type(type_line@),
    {
        let toks = split_tokens(type_line);
        if toks.len() < 4 {
            return Err(ParseError::MalformedLine(type_line.to_owned()));
        }
        let name = toks[2].clone();
        let kw = &toks[3];
        if str_eq(kw.as_str(), "gauge") || str_eq(kw.as_str(), "counter") {
            Ok((name, MetricType::Gauge))
        } else if str_eq(kw.as_str(), "histogram") {
            Ok((name, MetricType::Histogram))
        } else if str_eq(kw.as_str(), "summary") {
            Ok((name, MetricType::Summary))
        } else {
            Err(ParseError::UnknownMetricType(kw.clone()))
        }
    }

    /// Parse the lines of one family chunk: two metadata lines, then the
    /// family's samples.
    #[verifier::loop_isolation(false)]
    pub fn from_raw(raw: &Vec<&str>) -> (r: Result<MetricFamily, ParseError>)
        ensures
            (match r {
                Ok(f) => Ok(f@),
                Err(e) => Err(e@),
            }) == spec_family(lines_view(raw@)),
    {
        let ghost lv = lines_view(raw@);
        if raw.len() < 2 {
            return Err(ParseError::MissingMetadata);
        }
        let help = match Self::metric_help_fron_raw(raw[0]) {
            Err(e) => {
                return Err(e);
            },
            Ok(h) => h,
        };
        let (metric_name, metric_type) = match Self::metric_name_and_type(raw[1]) {
            Err(e) => {
                return Err(e);
            },
            Ok(t) => t,
        };
        let ghost body = lv.skip(2);
        let mut data: Vec<MetricData> = Vec::new();
        match metric_type {
            MetricType::Gauge => {
                let mut i: usize = 2;
                proof {
                    assert(body.take(0) =~= Seq::<Seq<char>>::empty());
                    assert(data_view(data@) =~= Seq::<MetricDataView>::empty());
                }
                while i < raw.len()
                    invariant
                        2 <= i <= raw.len(),
                        spec_gauge_data(body.take(i - 2)) == Ok::<_, ParseErrorView>(
                            data_view(data@),
                        ),
                    decreases raw.len() - i,
                {
                    proof {
                        assert(body.take(i - 2 + 1).drop_last() =~= body.take(i - 2));
                        assert(body.take(i - 2 + 1).last() == lv[i as int]);
                    }
                    match Metric::from_string(raw[i]) {
                        Err(e) => {
                            proof {
                                lemma_spec_gauge_err(body, i - 2 + 1);
                            }
                            return Err(e);
                        },
                        Ok(m) => {
                            let ghost before = data@;
                            data.push(MetricData::Gauge(m));
                            proof {
                                assert(data_view(data@) =~= data_view(before).push(
                                    MetricDataView::Gauge(m@),
                                ));
                            }
                        },
                    }
                    i = i + 1;
                }
                proof {
                    assert(body.take(raw.len() - 2) =~= body);
                }
            },
            MetricType::Histogram => {
                let mut count_prefix: String = metric_name.clone();
                count_prefix.append("_count");
                let mut cur: Vec<&str> = Vec::new();
                let ghost mut done: Seq<RunView> = Seq::empty();
                let mut i: usize = 2;
                proof {
                    assert(lines_view(cur@) =~= Seq::<Seq<char>>::empty());
                    assert(data_view(data@) =~= Seq::<MetricDataView>::empty());
                    assert(done.map_values(|r: RunView| hist_view_of_run(r)) =~= Seq::<
                        MetricDataView,
                    >::empty());
                }
                while i < raw.len()
                    invariant
                        2 <= i <= raw.len(),
                        data_view(data@) == done.map_values(|r: RunView| hist_view_of_run(r)),
                        spec_runs_at(metric_name@, "le"@, body, 0, Seq::empty()) == (
                        match spec_runs_at(
                            metric_name@,
                            "le"@,
                            body,
                            i - 2,
                            lines_view(cur@),
                        ) {
                            Err(e) => Err(e),
                            Ok(rs) => Ok(done + rs),
                        }),
                    decreases raw.len() - i,
                {
                    let line = raw[i];
                    let ghost cur0 = lines_view(cur@);
                    cur.push(line);
                    proof {
                        assert(lines_view(cur@) =~= cur0.push(line@));
                        assert(body[i - 2] == lv[i as int]);
                    }
                    if starts_with_x(line, count_prefix.as_str()) {
                        match Histogram::from_raw(metric_name.as_str(), &cur) {
                            Err(e) => {
                                return Err(e);
                            },
                            Ok(h) => {
                                let ghost r = (match spec_run(
                                    metric_name@,
                                    "le"@,
                                    lines_view(cur@),
                                ) {
                                    Ok(r) => r,
                                    Err(_) => arbitrary(),
                                });
                                let ghost before = data@;
                                data.push(MetricData::Histogram(h));
                                proof {
                                    assert(hist_view_of_run(r) == MetricDataView::Histogram(h@));
                                    assert(data_view(data@) =~= data_view(before).push(
                                        MetricDataView::Histogram(h@),
                                    ));
                                    assert(done.push(r).map_values(
                                        |x: RunView| hist_view_of_run(x),
                                    ) =~= done.map_values(|x: RunView| hist_view_of_run(x)).push(
                                        hist_view_of_run(r),
                                    ));
                                    assert forall|rs: Seq<RunView>| true implies done + (seq![r]
                                        + rs) =~= done.push(r) + rs by {}
                                }
                                proof {
                                    done = done.push(r);
                                }
                            },
                        }
                        cur = Vec::new();
                        proof {
                            assert(lines_view(cur@) =~= Seq::<Seq<char>>::empty());
                        }
                    }
                    i = i + 1;
                }
                proof {
                    assert(done + Seq::<RunView>::empty() =~= done);
                }
            },
            MetricType::Summary => {
                let mut count_prefix: String = metric_name.clone();
                count_prefix.append("_count");
                let mut cur: Vec<&str> = Vec::new();
                let ghost mut done: Seq<RunView> = Seq::empty();
                let mut i: usize = 2;
                proof {
                    assert(lines_view(cur@) =~= Seq::<Seq<char>>::empty());
                    assert(data_view(data@) =~= Seq::<MetricDataView>::empty());
                    assert(done.map_values(|r: RunView| summ_view_of_run(r)) =~= Seq::<
                        MetricDataView,
                    >::empty());
                }
                while i < raw.len()
                    invariant
                        2 <= i <= raw.len(),
                        data_view(data@) == done.map_values(|r: RunView| summ_view_of_run(r)),
                        spec_runs_at(metric_name@, "quantile"@, body, 0, Seq::empty()) == (
                        match spec_runs_at(
                            metric_name@,
                            "quantile"@,
                            body,
                            i - 2,
                            lines_view(cur@),
                        ) {
                            Err(e) => Err(e),
                            Ok(rs) => Ok(done + rs),
                        }),
                    decreases raw.len() - i,
                {
                    let line = raw[i];
                    let ghost cur0 = lines_view(cur@);
                    cur.push(line);
                    proof {
                        assert(lines_view(cur@) =~= cur0.push(line@));
                        assert(body[i - 2] == lv[i as int]);
                    }
                    if starts_with_x(line, count_prefix.as_str()) {
                        match Summary::from_raw(metric_name.as_str(), &cur) {
                            Err(e) => {
                                return Err(e);
                            },
                            Ok(s) => {
                                let ghost r = (match spec_run(
                                    metric_name@,
                                    "quantile"@,
                                    lines_view(cur@),
                                ) {
                                    Ok(r) => r,
                                    Err(_) => arbitrary(),
                                });
                                let ghost before = data@;
                                data.push(MetricData::Summary(s));
                                proof {
                                    assert(summ_view_of_run(r) == MetricDataView::Summary(s@));
                                    assert(data_view(data@) =~= data_view(before).push(
                                        MetricDataView::Summary(s@),
                                    ));
                                    assert(done.push(r).map_values(
                                        |x: RunView| summ_view_of_run(x),
                                    ) =~= done.map_values(|x: RunView| summ_view_of_run(x)).push(
                                        summ_view_of_run(r),
                                    ));
                                    assert forall|rs: Seq<RunView>| true implies done + (seq![r]
                                        + rs) =~= done.push(r) + rs by {}
                                }
                                proof {
                                    done = done.push(r);
                                }
                            },
                        }
                        cur = Vec::new();
                        proof {
                            assert(lines_view(cur@) =~= Seq::<Seq<char>>::empty());
                        }
                    }
                    i = i + 1;
                }
                proof {
                    assert(done + Seq::<RunView>::empty() =~= done);
                }
            },
        }
        Ok(MetricFamily { metric_type, metric_name, help, data })
    }
}

} // verus!
