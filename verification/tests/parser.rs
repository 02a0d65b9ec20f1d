use prom2jsonrs::Histogram;
use prom2jsonrs::LabelSet;
use prom2jsonrs::Metric;
use prom2jsonrs::MetricData;
use prom2jsonrs::MetricType;
use prom2jsonrs::ParseError;
use prom2jsonrs::PrometheusData;
use prom2jsonrs::Summary;

#[test]
fn metric_parsing_works() {
    assert_eq!(
        Metric {
            labels: None,
            value: String::from("205632")
        },
        Metric::from_string("go_memstats_mspan_inuse_bytes 205632").unwrap()
    );
    let mut expected = LabelSet::new();
    expected.insert("dialer_name".to_string(), "default".to_string());
    expected.insert("reason".to_string(), "unknown".to_string());
    assert_eq!(
        Metric {
            labels: Some(expected),
            value: String::from("0")
        },
        Metric::from_string(
            "net_conntrack_dialer_conn_failed_total{dialer_name=\"default\",reason=\"unknown\"} 0"
        )
        .unwrap()
    )
}

#[test]
fn raw_data_parsing_works() {
    let raw_data = "# HELP go_goroutines Number of goroutines that currently exist.
# TYPE go_goroutines gauge
go_goroutines 31
# HELP go_info Information about the Go environment.
# TYPE go_info gauge
go_info{version=\"go1.15.5\"} 1";
    let prom_data = PrometheusData::from_string(raw_data).unwrap();
    assert_eq!(MetricType::Gauge, prom_data.metrics[0].metric_type)
}

#[test]
fn summary_parsing_works() {
    let raw_data =
        "prometheus_engine_query_duration_seconds{slice=\"inner_eval\",quantile=\"0.5\"} NaN
prometheus_engine_query_duration_seconds{slice=\"inner_eval\",quantile=\"0.9\"} NaN
prometheus_engine_query_duration_seconds{slice=\"inner_eval\",quantile=\"0.99\"} NaN
prometheus_engine_query_duration_seconds_sum{slice=\"inner_eval\"} 12
prometheus_engine_query_duration_seconds_count{slice=\"inner_eval\"} 0";
    let summary = Summary::from_raw(
        "prometheus_engine_query_duration_seconds",
        &raw_data.lines().collect(),
    )
    .unwrap();
    assert_eq!(summary.sum, "12".to_string());
    let mut expected = LabelSet::new();
    expected.insert("slice".to_string(), "inner_eval".to_string());
    assert_eq!(summary.labels, Some(expected));
}

#[test]
fn histogram_parsing_works() {
    let raw_data = r#"prometheus_http_request_duration_seconds_bucket{handler="/metrics",le="0.1"} 10871
prometheus_http_request_duration_seconds_bucket{handler="/metrics",le="0.2"} 10871
prometheus_http_request_duration_seconds_bucket{handler="/metrics",le="0.4"} 10871
prometheus_http_request_duration_seconds_bucket{handler="/metrics",le="1"} 10871
prometheus_http_request_duration_seconds_bucket{handler="/metrics",le="3"} 10871
prometheus_http_request_duration_seconds_bucket{handler="/metrics",le="8"} 10871
prometheus_http_request_duration_seconds_bucket{handler="/metrics",le="20"} 10871
prometheus_http_request_duration_seconds_bucket{handler="/metrics",le="60"} 10871
prometheus_http_request_duration_seconds_bucket{handler="/metrics",le="120"} 10871
prometheus_http_request_duration_seconds_bucket{handler="/metrics",le="+Inf"} 10871
prometheus_http_request_duration_seconds_sum{handler="/metrics"} 67.48398663499978
prometheus_http_request_duration_seconds_count{handler="/metrics"} 10871"#;
    let histogram = Histogram::from_raw(
        "prometheus_http_request_duration_seconds",
        &raw_data.lines().collect(),
    )
    .unwrap();
    assert_eq!(histogram.sum, "67.48398663499978");
    let mut expected = LabelSet::new();
    expected.insert("handler".to_string(), "/metrics".to_string());
    assert_eq!(histogram.labels, Some(expected));
}

#[test]
fn unlabeled_value_text_is_preserved() {
    let m = Metric::from_string("x_total NaN").unwrap();
    assert_eq!(m.value, "NaN");
    assert!(m.labels.is_none());
    let m = Metric::from_string("x_total -1.5e-3").unwrap();
    assert_eq!(m.value, "-1.5e-3");
    assert!(m.labels.is_none());
    let m = Metric::from_string("x_total 2e8").unwrap();
    assert_eq!(m.value, "2e8");
}

#[test]
fn labeled_line_collects_every_label() {
    let m = Metric::from_string("m{a=\"1\",b_x=\"two words\",c:d=\"3\"} 4.5").unwrap();
    assert_eq!(m.value, "4.5");
    let labels = m.labels.unwrap();
    assert_eq!(labels.get("a").unwrap().as_str(), "1");
    assert_eq!(labels.get("b_x").unwrap().as_str(), "two words");
    assert_eq!(labels.get("c:d").unwrap().as_str(), "3");
    assert!(labels.get("d").is_none());
}

#[test]
fn duplicate_label_last_write_wins() {
    let m = Metric::from_string("m{k=\"1\",k=\"2\"} 3").unwrap();
    let labels = m.labels.unwrap();
    assert_eq!(labels.get("k").unwrap().as_str(), "2");
}

#[test]
fn empty_label_list_gives_empty_label_set() {
    let m = Metric::from_string("m{} 3").unwrap();
    let labels = m.labels.unwrap();
    assert_eq!(labels, LabelSet::new());
}

#[test]
fn malformed_line_is_an_error() {
    assert_eq!(
        Metric::from_string("no value here"),
        Err(ParseError::MalformedLine("no value here".to_string()))
    );
    assert!(Metric::from_string("").is_err());
    assert!(Metric::from_string("name 1 2").is_err());
    assert!(Metric::from_string("1name 5").is_err());
    assert!(Metric::from_string("m{k=\"unclosed} 5").is_err());
}

#[test]
fn summary_quantiles_are_keyed_by_quantile_text() {
    let raw_data = "q{quantile=\"0.5\"} 7.1
q{quantile=\"0.9\"} 8.2
q_sum 12
q_count 3";
    let summary = Summary::from_raw("q", &raw_data.lines().collect()).unwrap();
    assert_eq!(summary.quantiles.get("0.5").unwrap().as_str(), "7.1");
    assert_eq!(summary.quantiles.get("0.9").unwrap().as_str(), "8.2");
    assert_eq!(summary.count, "3");
    assert_eq!(summary.sum, "12");
    let labels = summary.labels.unwrap();
    assert!(labels.get("quantile").is_none());
}

#[test]
fn histogram_buckets_are_keyed_by_bound_text() {
    let raw_data = "h_bucket{le=\"0.1\"} 1
h_bucket{le=\"+Inf\"} 4
h_sum 0.5
h_count 4";
    let histogram = Histogram::from_raw("h", &raw_data.lines().collect()).unwrap();
    assert_eq!(histogram.buckets.get("0.1").unwrap().as_str(), "1");
    assert_eq!(histogram.buckets.get("+Inf").unwrap().as_str(), "4");
    assert_eq!(histogram.count, "4");
    assert_eq!(histogram.sum, "0.5");
    let labels = histogram.labels.unwrap();
    assert!(labels.get("le").is_none());
}

#[test]
fn gauge_sample_under_type_line() {
    let raw_data = "# HELP go_goroutines Number of goroutines that currently exist.
# TYPE go_goroutines gauge
go_goroutines 31";
    let prom_data = PrometheusData::from_string(raw_data).unwrap();
    assert_eq!(prom_data.metrics.len(), 1);
    let family = &prom_data.metrics[0];
    assert_eq!(family.metric_type, MetricType::Gauge);
    assert_eq!(family.metric_name, "go_goroutines");
    assert_eq!(family.help, "Number of goroutines that currently exist.");
    assert_eq!(family.data.len(), 1);
    match &family.data[0] {
        MetricData::Gauge(m) => {
            assert!(m.labels.is_none());
            assert_eq!(m.value, "31");
        }
        _ => panic!("expected a gauge sample"),
    }
}

#[test]
fn two_families_come_out_in_order() {
    let raw_data = "# HELP go_goroutines Number of goroutines that currently exist.
# TYPE go_goroutines gauge
go_goroutines 31
# HELP go_info Information about the Go environment.
# TYPE go_info gauge
go_info{version=\"go1.15.5\"} 1";
    let prom_data = PrometheusData::from_string(raw_data).unwrap();
    assert_eq!(prom_data.metrics.len(), 2);
    assert_eq!(prom_data.metrics[0].metric_name, "go_goroutines");
    assert_eq!(prom_data.metrics[0].metric_type, MetricType::Gauge);
    assert_eq!(prom_data.metrics[1].metric_name, "go_info");
    assert_eq!(prom_data.metrics[1].metric_type, MetricType::Gauge);
}

#[test]
fn counter_keyword_maps_to_gauge() {
    let raw_data = "# HELP c A counter.
# TYPE c counter
c 5";
    let prom_data = PrometheusData::from_string(raw_data).unwrap();
    assert_eq!(prom_data.metrics[0].metric_type, MetricType::Gauge);
}

#[test]
fn document_with_histogram_and_summary_families() {
    let raw_data = "# HELP h A histogram.
# TYPE h histogram
h_bucket{le=\"1\"} 2
h_bucket{le=\"+Inf\"} 3
h_sum 1.5
h_count 3
# HELP s A summary.
# TYPE s summary
s{quantile=\"0.5\"} 0.2
s_sum 9
s_count 10";
    let prom_data = PrometheusData::from_string(raw_data).unwrap();
    assert_eq!(prom_data.metrics.len(), 2);
    assert_eq!(prom_data.metrics[0].metric_type, MetricType::Histogram);
    assert_eq!(prom_data.metrics[0].data.len(), 1);
    match &prom_data.metrics[0].data[0] {
        MetricData::Histogram(h) => {
            assert_eq!(h.buckets.get("1").unwrap().as_str(), "2");
            assert_eq!(h.count, "3");
        }
        _ => panic!("expected a histogram record"),
    }
    assert_eq!(prom_data.metrics[1].metric_type, MetricType::Summary);
    match &prom_data.metrics[1].data[0] {
        MetricData::Summary(s) => {
            assert_eq!(s.quantiles.get("0.5").unwrap().as_str(), "0.2");
            assert_eq!(s.sum, "9");
        }
        _ => panic!("expected a summary record"),
    }
}

#[test]
fn histogram_run_without_count_line_is_dropped() {
    let raw_data = "# HELP h A histogram.
# TYPE h histogram
h_bucket{le=\"1\"} 2
h_bucket{le=\"+Inf\"} 3
h_sum 1.5";
    let prom_data = PrometheusData::from_string(raw_data).unwrap();
    assert_eq!(prom_data.metrics[0].data.len(), 0);
}

#[test]
fn unknown_metric_type_is_an_error() {
    let raw_data = "# HELP x Something.
# TYPE x untyped
x 1";
    assert_eq!(
        PrometheusData::from_string(raw_data),
        Err(ParseError::UnknownMetricType("untyped".to_string()))
    );
}

#[test]
fn family_without_metadata_pair_is_an_error() {
    assert_eq!(
        PrometheusData::from_string("# HELP x Something."),
        Err(ParseError::MissingMetadata)
    );
}

#[test]
fn malformed_sample_line_fails_the_document() {
    let raw_data = "# HELP x Something.
# TYPE x gauge
not a metric line";
    assert_eq!(
        PrometheusData::from_string(raw_data),
        Err(ParseError::MalformedLine("not a metric line".to_string()))
    );
}

#[test]
fn empty_document_has_no_families() {
    let prom_data = PrometheusData::from_string("").unwrap();
    assert_eq!(prom_data.metrics.len(), 0);
}

#[test]
fn trailing_newline_and_carriage_returns_are_handled() {
    let raw_data = "# HELP c A counter.\r\n# TYPE c counter\r\nc 5\r\n";
    let prom_data = PrometheusData::from_string(raw_data).unwrap();
    assert_eq!(prom_data.metrics.len(), 1);
    match &prom_data.metrics[0].data[0] {
        MetricData::Gauge(m) => assert_eq!(m.value, "5"),
        _ => panic!("expected a gauge sample"),
    }
}

#[test]
fn label_set_equality_ignores_order() {
    let mut a = LabelSet::new();
    a.insert("x".to_string(), "1".to_string());
    a.insert("y".to_string(), "2".to_string());
    let mut b = LabelSet::new();
    b.insert("y".to_string(), "2".to_string());
    b.insert("x".to_string(), "1".to_string());
    assert_eq!(a, b);
    let mut c = LabelSet::new();
    c.insert("x".to_string(), "1".to_string());
    assert_ne!(a, c);
}

#[test]
fn help_text_joins_extra_whitespace() {
    let raw_data = "# HELP m  Several   words here.
# TYPE m gauge
m 1";
    let prom_data = PrometheusData::from_string(raw_data).unwrap();
    assert_eq!(prom_data.metrics[0].help, "Several words here.");
}

#[test]
fn line_classifier_splits_value_and_labels() {
    let (value, labels) = Metric::parse_from_string("go_goroutines 31").unwrap();
    assert_eq!(value, "31");
    assert!(labels.is_none());
    let (value, labels) = Metric::parse_from_string("m{k=\"v\"} NaN").unwrap();
    assert_eq!(value, "NaN");
    assert_eq!(labels.unwrap().get("k").unwrap().as_str(), "v");
}
