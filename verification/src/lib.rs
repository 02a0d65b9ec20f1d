//! A verified parser for the Prometheus text exposition format.
//!
//! The input is a line-oriented metrics dump: each metric family is
//! introduced by a `# HELP` and a `# TYPE` comment line, followed by sample
//! lines.  Parsing groups the samples by family, classifies each family as a
//! gauge, histogram or summary, and extracts labels and numeric value text
//! from every sample line.  Values are kept as the literal text of the
//! input, so `NaN` and scientific notation survive unchanged.

use vstd::prelude::*;

pub mod document;
pub mod error;
pub mod family;
pub mod grammar;
pub mod labels;
pub mod laws;
pub mod line;
pub mod meta;
pub mod records;

pub use document::PrometheusData;
pub use error::ParseError;
pub use family::MetricFamily;
pub use family::MetricType;
pub use labels::LabelSet;
pub use records::Histogram;
pub use records::Metric;
pub use records::MetricData;
pub use records::Summary;

verus! {

} // verus!
