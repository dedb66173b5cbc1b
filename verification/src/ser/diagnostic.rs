//! The record of a diagnostic, as the editor receives it.
//!
//! A severity is recorded as a number: 1 for an error, 2 for a warning. A
//! span is a range of byte offsets in the source; where a span cannot be
//! resolved, the empty range at the start of the source stands for it.

use vstd::prelude::*;

verus! {

/// How serious a diagnostic is.
#[derive(Clone, Copy, Debug, PartialEq, Eq, Structural)]
pub enum Severity {
    Error,
    Warning,
}

/// The number under which a severity is recorded.
pub open spec fn severity_code(severity: Severity) -> u8 {
    match severity {
        Severity::Error => 1,
        Severity::Warning => 2,
    }
}

/// A range of byte offsets in the source.
#[derive(Clone, Copy, Debug, PartialEq, Eq, Structural)]
pub struct Span {
    pub start: usize,
    pub end: usize,
}

/// The span that is recorded for `span`.
pub open spec fn span_or_empty(span: Option<Span>) -> Span {
    match span {
        Some(span) => span,
        None => Span { start: 0, end: 0 },
    }
}

/// The span that is recorded for `span`.
pub fn resolve_span(span: Option<Span>) -> (resolved: Span)
    ensures
        resolved == span_or_empty(span),
{
    match span {
        Some(span) => span,
        None => Span { start: 0, end: 0 },
    }
}

/// One point of the trace of a diagnostic.
#[derive(Clone, Debug, PartialEq, Eq)]
pub struct TraceSer {
    pub span: Span,
    pub point: String,
}

impl TraceSer {
    /// The record of a trace point.
    pub fn new(span: Option<Span>, point: String) -> (trace: TraceSer)
        ensures
            trace.span == span_or_empty(span),
            trace.point == point,
    {
        TraceSer { span: resolve_span(span), point }
    }
}

/// The record of a diagnostic.
#[derive(Clone, Debug, PartialEq, Eq)]
pub struct SourceDiagnosticSer {
    pub severity: u8,
    pub span: Span,
    pub message: String,
    pub trace: Vec<TraceSer>,
    pub hints: Vec<String>,
}

impl SourceDiagnosticSer {
    /// The record of a diagnostic of severity `severity` at `span`.
    pub fn from_diag(
        severity: Severity,
        span: Option<Span>,
        message: String,
        trace: Vec<TraceSer>,
        hints: Vec<String>,
    ) -> (diag: SourceDiagnosticSer)
        ensures
            diag.severity == severity_code(severity),
            diag.span == span_or_empty(span),
            diag.message == message,
            diag.trace == trace,
            diag.hints == hints,
    {
        let code: u8 = match severity {
            Severity::Error => 1,
            Severity::Warning => 2,
        };
        SourceDiagnosticSer { severity: code, span: resolve_span(span), message, trace, hints }
    }
}

} // verus!
