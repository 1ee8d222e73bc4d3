//! The identity of a request and of the application that serves it.

use crate::text::opt_text;
use vstd::prelude::*;

verus! {

/// The trace a request belongs to. `tracestate` and `baggage` are carried as
/// they came in.
pub struct TraceContext {
    pub trace_id: String,
    pub span_id: String,
    pub parent_span_id: Option<String>,
    pub sampled: bool,
    pub session_id: Option<String>,
    pub tracestate: Option<String>,
    pub baggage: Option<String>,
}

/// A trace context as plain contents.
pub struct ContextView {
    pub trace_id: Seq<char>,
    pub span_id: Seq<char>,
    pub parent_span_id: Option<Seq<char>>,
    pub sampled: bool,
    pub session_id: Option<Seq<char>>,
    pub tracestate: Option<Seq<char>>,
    pub baggage: Option<Seq<char>>,
}

impl View for TraceContext {
    type V = ContextView;

    open spec fn view(&self) -> ContextView {
        ContextView {
            trace_id: self.trace_id@,
            span_id: self.span_id@,
            parent_span_id: opt_text(self.parent_span_id),
            sampled: self.sampled,
            session_id: opt_text(self.session_id),
            tracestate: opt_text(self.tracestate),
            baggage: opt_text(self.baggage),
        }
    }
}

/// Who is reporting: the organisation, project and application, and where the
/// spool lies.
pub struct CollectorEnvelope {
    pub organisation_id: String,
    pub project_id: String,
    pub application_id: String,
    pub app_version: Option<String>,
    pub spool_directory: String,
    pub app_language: String,
    pub app_language_version: Option<String>,
    pub app_framework: Option<String>,
    pub app_framework_version: Option<String>,
}

/// A copy of an optional text.
pub fn copy_opt(o: &Option<String>) -> (r: Option<String>)
    ensures
        opt_text(r) == opt_text(*o),
{
    match o {
        Some(s) => Some(s.clone()),
        None => None,
    }
}

/// A copy of a trace context.
pub fn copy_context(c: &TraceContext) -> (r: TraceContext)
    ensures
        r@ == c@,
{
    TraceContext {
        trace_id: c.trace_id.clone(),
        span_id: c.span_id.clone(),
        parent_span_id: copy_opt(&c.parent_span_id),
        sampled: c.sampled,
        session_id: copy_opt(&c.session_id),
        tracestate: copy_opt(&c.tracestate),
        baggage: copy_opt(&c.baggage),
    }
}

} // verus!
