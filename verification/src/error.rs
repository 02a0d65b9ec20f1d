//! Parse failures.
//!
//! Every failure aborts the whole parse: a malformed exposition text has no
//! meaningful partial result.  Each variant carries the offending text so a
//! caller can report what the producer emitted.

use vstd::prelude::*;

verus! {

/// The mathematical shape of a parse failure.
pub ghost enum ParseErrorView {
    /// A sample or metadata line that matches no accepted shape.
    MalformedLine(Seq<char>),
    /// A `TYPE` line whose keyword is not `gauge`, `counter`, `histogram`
    /// or `summary`.
    UnknownMetricType(Seq<char>),
    /// A family chunk with fewer than two lines, so no `HELP`/`TYPE` pair.
    MissingMetadata,
}

/// A parse failure, carrying the offending line or type keyword.
#[derive(Debug, PartialEq)]
pub enum ParseError {
    /// A sample or metadata line that matches no accepted shape.
    MalformedLine(String),
    /// A `TYPE` line whose keyword names no known metric type.
    UnknownMetricType(String),
    /// A family chunk with fewer than two lines, so no `HELP`/`TYPE` pair.
    MissingMetadata,
}

impl View for ParseError {
    type V = ParseErrorView;

    open spec fn view(&self) -> ParseErrorView {
        match self {
            ParseError::MalformedLine(l) => ParseErrorView::MalformedLine(l@),
            ParseError::UnknownMetricType(t) => ParseErrorView::UnknownMetricType(t@),
            ParseError::MissingMetadata => ParseErrorView::MissingMetadata,
        }
    }
}

} // verus!
