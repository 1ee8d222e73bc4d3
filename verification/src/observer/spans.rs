//! Spans and call frames: how a frame begins, when it becomes a span, and what
//! a request's spans look like.

use crate::context::{copy_opt, ContextView, TraceContext};
use crate::observer::names::{is_network_function, network, SpanPolicy};
use crate::text::{copy, opt_text, pairs, same, texts};
use vstd::prelude::*;

verus! {

/// One recorded span.
pub struct NativeSpan {
    pub trace_id: String,
    pub span_id: String,
    pub parent_span_id: Option<String>,
    pub name: String,
    pub started_at: String,
    pub ended_at: String,
    pub status: String,
    pub duration_nanoseconds: u128,
    /// What the span says beyond its duration.
    pub attributes: Vec<(String, String)>,
}

/// A span as plain contents.
pub struct SpanView {
    pub trace_id: Seq<char>,
    pub span_id: Seq<char>,
    pub parent_span_id: Option<Seq<char>>,
    pub name: Seq<char>,
    pub started_at: Seq<char>,
    pub ended_at: Seq<char>,
    pub status: Seq<char>,
    pub duration_nanoseconds: nat,
    pub attributes: Seq<(Seq<char>, Seq<char>)>,
}

impl View for NativeSpan {
    type V = SpanView;

    open spec fn view(&self) -> SpanView {
        SpanView {
            trace_id: self.trace_id@,
            span_id: self.span_id@,
            parent_span_id: opt_text(self.parent_span_id),
            name: self.name@,
            started_at: self.started_at@,
            ended_at: self.ended_at@,
            status: self.status@,
            duration_nanoseconds: self.duration_nanoseconds as nat,
            attributes: pairs(self.attributes@),
        }
    }
}

/// The contents of a list of spans.
pub open spec fn span_views(spans: Seq<NativeSpan>) -> Seq<SpanView> {
    Seq::new(spans.len(), |i: int| spans[i]@)
}

/// The counted profiler's part of a frame: the function, when it was entered, and
/// the time its callees took.
#[derive(Clone, Copy, Debug, PartialEq, Eq, Structural)]
pub struct FrameTiming {
    pub function: u32,
    pub entered_nanoseconds: u64,
    pub child_nanoseconds: u64,
}

/// One call that has begun and not ended.
pub struct CallFrame {
    pub trace_id: String,
    pub span_id: String,
    pub parent_span_id: Option<String>,
    pub name: String,
    pub started_at: String,
    /// The span clock at begin. Zero on a frame that never becomes a span.
    pub start_hrtime: u128,
    /// The `traceparent` minted for this call, when it leaves the process.
    pub injected_traceparent: Option<String>,
    /// Whether the frame may become a span at all.
    pub emit_span: bool,
    /// Whether the frame's id is on the parenting stack.
    pub on_stack: bool,
    /// A kept child keeps this frame's span too.
    pub kept_child: bool,
    pub attributes: Vec<(String, String)>,
    /// A display name that replaces the function's name on the span.
    pub span_name: Option<String>,
    /// The frame opened a message-scoped request, and its end closes it.
    pub owns_delivery_scope: bool,
    /// The duration also counts as an I/O wait.
    pub io: bool,
    /// The span's id is on the wire, so the span cap does not drop it.
    pub bypass_span_cap: bool,
    pub timing: FrameTiming,
}

/// A frame as plain contents.
pub struct FrameView {
    pub trace_id: Seq<char>,
    pub span_id: Seq<char>,
    pub parent_span_id: Option<Seq<char>>,
    pub name: Seq<char>,
    pub started_at: Seq<char>,
    pub start_hrtime: nat,
    pub injected_traceparent: Option<Seq<char>>,
    pub emit_span: bool,
    pub on_stack: bool,
    pub kept_child: bool,
    pub attributes: Seq<(Seq<char>, Seq<char>)>,
    pub span_name: Option<Seq<char>>,
    pub owns_delivery_scope: bool,
    pub io: bool,
    pub bypass_span_cap: bool,
    pub timing: FrameTiming,
}

impl View for CallFrame {
    type V = FrameView;

    open spec fn view(&self) -> FrameView {
        FrameView {
            trace_id: self.trace_id@,
            span_id: self.span_id@,
            parent_span_id: opt_text(self.parent_span_id),
            name: self.name@,
            started_at: self.started_at@,
            start_hrtime: self.start_hrtime as nat,
            injected_traceparent: opt_text(self.injected_traceparent),
            emit_span: self.emit_span,
            on_stack: self.on_stack,
            kept_child: self.kept_child,
            attributes: pairs(self.attributes@),
            span_name: opt_text(self.span_name),
            owns_delivery_scope: self.owns_delivery_scope,
            io: self.io,
            bypass_span_cap: self.bypass_span_cap,
            timing: self.timing,
        }
    }
}

/// The contents of the frame stack.
pub open spec fn frame_views(frames: Seq<CallFrame>) -> Seq<FrameView> {
    Seq::new(frames.len(), |i: int| frames[i]@)
}

/// The timing of a frame that has not been pushed yet.
pub open spec fn untimed() -> FrameTiming {
    FrameTiming { function: 0, entered_nanoseconds: 0, child_nanoseconds: 0 }
}

/// A frame that only pairs a begin with its end.
pub open spec fn observe_only_view(name: Seq<char>) -> FrameView {
    FrameView {
        trace_id: Seq::empty(),
        span_id: Seq::empty(),
        parent_span_id: None,
        name,
        started_at: Seq::empty(),
        start_hrtime: 0,
        injected_traceparent: None,
        emit_span: false,
        on_stack: false,
        kept_child: false,
        attributes: Seq::empty(),
        span_name: None,
        owns_delivery_scope: false,
        io: false,
        bypass_span_cap: false,
        timing: untimed(),
    }
}

impl CallFrame {
    /// A frame that only pairs a begin with its end.
    pub fn observe_only(name: &str) -> (r: CallFrame)
        ensures
            r@ == observe_only_view(name@),
    {
        let r = CallFrame {
            trace_id: String::new(),
            span_id: String::new(),
            parent_span_id: None,
            name: copy(name),
            started_at: String::new(),
            start_hrtime: 0,
            injected_traceparent: None,
            emit_span: false,
            on_stack: false,
            kept_child: false,
            attributes: Vec::new(),
            span_name: None,
            owns_delivery_scope: false,
            io: false,
            bypass_span_cap: false,
            timing: FrameTiming { function: 0, entered_nanoseconds: 0, child_nanoseconds: 0 },
        };
        assert(pairs(r.attributes@) =~= Seq::empty());
        r
    }
}

/// What a begin handler brings along: a fresh span id and the two clocks.
pub struct Minted {
    pub span_id: String,
    pub started_at: String,
    pub start_hrtime: u128,
}

/// The W3C header that names a span as the parent of what it calls.
pub open spec fn traceparent_of(context: ContextView, span_id: Seq<char>) -> Seq<char> {
    "00-"@ + context.trace_id + "-"@ + span_id + "-"@ + (if context.sampled {
        "01"@
    } else {
        "00"@
    })
}

/// The W3C header that names a span as the parent of what it calls.
pub fn traceparent(context: &TraceContext, span_id: &str) -> (r: String)
    ensures
        r@ == traceparent_of(context@, span_id@),
{
    let mut out = copy("00-");
    out.append(context.trace_id.as_str());
    out.append("-");
    out.append(span_id);
    out.append("-");
    if context.sampled {
        out.append("01");
    } else {
        out.append("00");
    }
    out
}

/// The frame of a call that has just begun inside a request.
pub open spec fn begun(
    context: ContextView,
    stack: Seq<Seq<char>>,
    name: Seq<char>,
    policy: SpanPolicy,
    minted: Minted,
) -> FrameView {
    let emit = policy != SpanPolicy::ObserveOnly;
    FrameView {
        trace_id: context.trace_id,
        span_id: minted.span_id@,
        parent_span_id: Some(
            if stack.len() > 0 {
                stack.last()
            } else {
                context.span_id
            },
        ),
        name,
        started_at: minted.started_at@,
        start_hrtime: minted.start_hrtime as nat,
        injected_traceparent: if network(name) || policy == SpanPolicy::MessagingPublish {
            Some(traceparent_of(context, minted.span_id@))
        } else {
            None
        },
        emit_span: emit,
        on_stack: emit,
        kept_child: false,
        attributes: Seq::empty(),
        span_name: None,
        owns_delivery_scope: false,
        io: policy == SpanPolicy::IoSpan,
        bypass_span_cap: false,
        timing: untimed(),
    }
}

/// The parenting stack after a call has begun.
pub open spec fn begun_stack(
    stack: Seq<Seq<char>>,
    policy: SpanPolicy,
    minted: Minted,
) -> Seq<Seq<char>> {
    if policy != SpanPolicy::ObserveOnly {
        stack.push(minted.span_id@)
    } else {
        stack
    }
}

/// Begin a frame inside a request: its parent is the innermost open span, or
/// the request itself.
pub fn on_begin(
    context: &TraceContext,
    span_stack: &mut Vec<String>,
    name: &str,
    policy: SpanPolicy,
    minted: &Minted,
) -> (r: CallFrame)
    ensures
        r@ == begun(context@, texts(old(span_stack)@), name@, policy, *minted),
        texts(final(span_stack)@) == begun_stack(texts(old(span_stack)@), policy, *minted),
{
    let ghost before = texts(span_stack@);
    let emit_span = policy != SpanPolicy::ObserveOnly;
    let parent = if span_stack.len() > 0 {
        span_stack[span_stack.len() - 1].clone()
    } else {
        context.span_id.clone()
    };
    if emit_span {
        span_stack.push(minted.span_id.clone());
        assert(texts(span_stack@) =~= before.push(minted.span_id@));
    }
    let injected = if is_network_function(name) || policy == SpanPolicy::MessagingPublish {
        Some(traceparent(context, minted.span_id.as_str()))
    } else {
        None
    };
    let r = CallFrame {
        trace_id: context.trace_id.clone(),
        span_id: minted.span_id.clone(),
        parent_span_id: Some(parent),
        name: copy(name),
        started_at: minted.started_at.clone(),
        start_hrtime: minted.start_hrtime,
        injected_traceparent: injected,
        emit_span,
        on_stack: emit_span,
        kept_child: false,
        attributes: Vec::new(),
        span_name: None,
        owns_delivery_scope: false,
        io: policy == SpanPolicy::IoSpan,
        bypass_span_cap: false,
        timing: FrameTiming { function: 0, entered_nanoseconds: 0, child_nanoseconds: 0 },
    };
    assert(pairs(r.attributes@) =~= Seq::empty());
    r
}

/// How many spans one request may hold. A backstop on memory.
pub const MAX_SPANS_PER_REQUEST: usize = 32768;

/// Append a span unless the request is full. `bypass_cap` is for a span whose
/// id is already on the wire.
pub fn push_span(spans: &mut Vec<NativeSpan>, span: NativeSpan, bypass_cap: bool) -> (r: bool)
    ensures
        r == (bypass_cap || old(spans)@.len() < MAX_SPANS_PER_REQUEST),
        final(spans)@ == if r {
            old(spans)@.push(span)
        } else {
            old(spans)@
        },
{
    if bypass_cap || spans.len() < MAX_SPANS_PER_REQUEST {
        spans.push(span);
        true
    } else {
        false
    }
}

/// The clocks at the end of a call.
pub struct EndReading {
    pub ended_at: String,
    pub hrtime: u128,
}

/// What ending a frame led to: whether its span was recorded, and the wait it
/// measured when it was an I/O call.
pub struct Ended {
    pub emitted: bool,
    pub io_wait: Option<u128>,
}

/// How long a frame took.
pub open spec fn duration_of(frame: FrameView, at: EndReading) -> nat {
    if at.hrtime >= frame.start_hrtime {
        (at.hrtime - frame.start_hrtime) as nat
    } else {
        0
    }
}

/// Whether a frame's span is worth keeping: it failed, kept a child, says
/// something, or took long enough.
pub open spec fn worth_keeping(
    frame: FrameView,
    threw: bool,
    min_nanos: nat,
    at: EndReading,
) -> bool {
    threw || frame.kept_child || frame.attributes.len() > 0 || duration_of(frame, at) >= min_nanos
}

/// The span of a frame that has ended.
pub open spec fn ended_span(frame: FrameView, threw: bool, at: EndReading) -> SpanView {
    SpanView {
        trace_id: frame.trace_id,
        span_id: frame.span_id,
        parent_span_id: frame.parent_span_id,
        name: match frame.span_name {
            Some(name) => name,
            None => frame.name,
        },
        started_at: frame.started_at,
        ended_at: at.ended_at@,
        status: if threw {
            "error"@
        } else {
            "ok"@
        },
        duration_nanoseconds: duration_of(frame, at),
        attributes: frame.attributes,
    }
}

/// The parenting stack once a frame has ended: its own id is taken off the top.
pub open spec fn ended_stack(stack: Seq<Seq<char>>, frame: FrameView) -> Seq<Seq<char>> {
    if frame.on_stack && stack.len() > 0 && stack.last() == frame.span_id {
        stack.drop_last()
    } else {
        stack
    }
}

/// Whether ending a frame records a span.
pub open spec fn emits(
    frame: FrameView,
    threw: bool,
    min_nanos: nat,
    at: EndReading,
    recorded: nat,
) -> bool {
    frame.emit_span && worth_keeping(frame, threw, min_nanos, at) && (frame.bypass_span_cap
        || recorded < MAX_SPANS_PER_REQUEST)
}

/// End a frame.
pub fn on_end(
    spans: &mut Vec<NativeSpan>,
    span_stack: &mut Vec<String>,
    frame: CallFrame,
    threw: bool,
    min_nanos: u128,
    at: &EndReading,
) -> (r: Ended)
    ensures
        texts(final(span_stack)@) == ended_stack(texts(old(span_stack)@), frame@),
        r.io_wait == if frame.emit_span && frame.io {
            Some(duration_of(frame@, *at) as u128)
        } else {
            None
        },
        r.emitted == emits(frame@, threw, min_nanos as nat, *at, old(spans)@.len()),
        span_views(final(spans)@) == if r.emitted {
            span_views(old(spans)@).push(ended_span(frame@, threw, *at))
        } else {
            span_views(old(spans)@)
        },
{
    let ghost stack = texts(span_stack@);
    if frame.on_stack && span_stack.len() > 0 && same(
        span_stack[span_stack.len() - 1].as_str(),
        frame.span_id.as_str(),
    ) {
        let _ = span_stack.pop();
        assert(texts(span_stack@) =~= stack.drop_last());
    }
    if !frame.emit_span {
        return Ended { emitted: false, io_wait: None };
    }
    let ghost fv = frame@;
    let duration: u128 = at.hrtime.saturating_sub(frame.start_hrtime);
    let io_wait = if frame.io {
        Some(duration)
    } else {
        None
    };
    let keep = threw || frame.kept_child || frame.attributes.len() > 0 || duration >= min_nanos;
    if !keep {
        return Ended { emitted: false, io_wait };
    }
    let bypass = frame.bypass_span_cap;
    let name = match frame.span_name {
        Some(name) => name,
        None => frame.name,
    };
    let span = NativeSpan {
        trace_id: frame.trace_id,
        span_id: frame.span_id,
        parent_span_id: frame.parent_span_id,
        name,
        started_at: frame.started_at,
        ended_at: at.ended_at.clone(),
        status: if threw {
            copy("error")
        } else {
            copy("ok")
        },
        duration_nanoseconds: duration,
        attributes: frame.attributes,
    };
    let ghost before = spans@;
    let ghost sv = span@;
    assert(sv == ended_span(fv, threw, *at));
    let emitted = push_span(spans, span, bypass);
    proof {
        if emitted {
            assert(span_views(spans@) =~= span_views(before).push(sv));
        }
    }
    Ended { emitted, io_wait }
}

/// A span that begins and ends with nothing in between leaves the parenting
/// stack as it was.
pub proof fn law_begin_and_end_balance(
    context: ContextView,
    stack: Seq<Seq<char>>,
    name: Seq<char>,
    policy: SpanPolicy,
    minted: Minted,
)
    ensures
        ended_stack(
            begun_stack(stack, policy, minted),
            begun(context, stack, name, policy, minted),
        ) == stack,
{
    assert(stack.push(minted.span_id@).drop_last() =~= stack);
}

/// A frame of a call that is observed only never becomes a span, however it
/// ends.
pub proof fn law_observe_only_never_emits(
    context: ContextView,
    stack: Seq<Seq<char>>,
    name: Seq<char>,
    minted: Minted,
    threw: bool,
    min_nanos: nat,
    at: EndReading,
    recorded: nat,
)
    ensures
        !emits(
            begun(context, stack, name, SpanPolicy::ObserveOnly, minted),
            threw,
            min_nanos,
            at,
            recorded,
        ),
        !emits(observe_only_view(name), threw, min_nanos, at, recorded),
        begun_stack(stack, SpanPolicy::ObserveOnly, minted) == stack,
{
}

/// The `traceparent` that a call puts on the wire names the very span that its
/// end records.
pub proof fn law_wire_id_is_the_recorded_id(
    context: ContextView,
    stack: Seq<Seq<char>>,
    name: Seq<char>,
    policy: SpanPolicy,
    minted: Minted,
    threw: bool,
    at: EndReading,
)
    ensures
        ({
            let frame = begun(context, stack, name, policy, minted);
            let span = ended_span(frame, threw, at);
            frame.injected_traceparent matches Some(header) ==> header == traceparent_of(
                context,
                span.span_id,
            ) && span.trace_id == context.trace_id
        }),
{
}

/// A span whose id is on the wire and that is worth keeping is recorded however
/// many spans the request already holds.
pub proof fn law_promised_spans_are_never_dropped(
    frame: FrameView,
    threw: bool,
    min_nanos: nat,
    at: EndReading,
    recorded: nat,
)
    requires
        frame.emit_span,
        frame.bypass_span_cap,
        worth_keeping(frame, threw, min_nanos, at),
    ensures
        emits(frame, threw, min_nanos, at, recorded),
{
}

/// The request's root span.
pub open spec fn root_span(
    context: ContextView,
    name: Seq<char>,
    started_at: Seq<char>,
    http_status_code: i64,
    duration: nat,
    status: Seq<char>,
    attributes: Seq<(Seq<char>, Seq<char>)>,
    ended_at: Seq<char>,
) -> SpanView {
    SpanView {
        trace_id: context.trace_id,
        span_id: context.span_id,
        parent_span_id: context.parent_span_id,
        name: if name.len() == 0 {
            "request"@
        } else {
            name
        },
        started_at,
        ended_at,
        status: if status.len() > 0 {
            status
        } else if http_status_code == 0 || 100 <= http_status_code < 500 {
            "ok"@
        } else {
            "error"@
        },
        duration_nanoseconds: duration,
        attributes,
    }
}

/// The request's root span: it carries the request's own identity and status.
pub fn root_http_span(
    context: &TraceContext,
    name: &str,
    started_at: String,
    http_status_code: i64,
    request_start_ns: u128,
    request_end_ns: u128,
    status: &str,
    attributes: Vec<(String, String)>,
    ended_at: String,
) -> (r: NativeSpan)
    ensures
        r@ == root_span(
            context@,
            name@,
            started_at@,
            http_status_code,
            if request_end_ns >= request_start_ns {
                (request_end_ns - request_start_ns) as nat
            } else {
                0
            },
            status@,
            pairs(attributes@),
            ended_at@,
        ),
{
    NativeSpan {
        trace_id: context.trace_id.clone(),
        span_id: context.span_id.clone(),
        parent_span_id: copy_opt(&context.parent_span_id),
        name: if name.is_empty() {
            copy("request")
        } else {
            copy(name)
        },
        started_at,
        ended_at,
        status: if !status.is_empty() {
            copy(status)
        } else if http_status_code == 0 || (100 <= http_status_code && http_status_code < 500) {
            copy("ok")
        } else {
            copy("error")
        },
        duration_nanoseconds: request_end_ns.saturating_sub(request_start_ns),
        attributes,
    }
}

/// A recorded span tells the call it stands for: the ids it was given, its name
/// or the display name in its place, when it began and ended, how long it took,
/// what it said, and whether an exception was propagating. The spans before it
/// stay as they were.
pub proof fn law_a_recorded_span_tells_its_call(
    spans: &mut Vec<NativeSpan>,
    span_stack: &mut Vec<String>,
    frame: CallFrame,
    threw: bool,
    min_nanos: u128,
    at: &EndReading,
    r: Ended,
)
    requires
        call_ensures(on_end, (spans, span_stack, frame, threw, min_nanos, at), r),
        r.emitted,
    ensures
        final(spans)@.len() == old(spans)@.len() + 1,
        forall|i: int|
            0 <= i < old(spans)@.len() ==> (#[trigger] final(spans)@[i])@ == old(spans)@[i]@,
        ({
            let span = final(spans)@[old(spans)@.len() as int];
            &&& !threw ==> span.status@ == "ok"@
            &&& threw ==> span.status@ == "error"@
            &&& span.trace_id@ == frame.trace_id@
            &&& span.span_id@ == frame.span_id@
            &&& frame.parent_span_id is None ==> span.parent_span_id is None
            &&& frame.parent_span_id matches Some(parent) ==> span.parent_span_id is Some
                && span.parent_span_id->0@ == parent@
            &&& frame.span_name is None ==> span.name@ == frame.name@
            &&& frame.span_name matches Some(display) ==> span.name@ == display@
            &&& span.started_at@ == frame.started_at@
            &&& span.ended_at@ == at.ended_at@
            &&& at.hrtime >= frame.start_hrtime ==> frame.start_hrtime + span.duration_nanoseconds
                == at.hrtime
            &&& at.hrtime < frame.start_hrtime ==> span.duration_nanoseconds == 0
            &&& span.attributes@.len() == frame.attributes@.len()
            &&& forall|i: int|
                0 <= i < frame.attributes@.len() ==> (#[trigger] span.attributes@[i]).0@
                    == frame.attributes@[i].0@ && span.attributes@[i].1@ == frame.attributes@[i].1@
        }),
{
    let n = old(spans)@.len();
    let after = span_views(final(spans)@);
    assert(after.len() == final(spans)@.len());
    assert(after[n as int] == final(spans)@[n as int]@);
    let span = final(spans)@[n as int];
    assert(pairs(span.attributes@) == pairs(frame.attributes@));
    assert(pairs(span.attributes@).len() == span.attributes@.len());
    assert forall|i: int| 0 <= i < old(spans)@.len() implies (#[trigger] final(spans)@[i])@ == old(
        spans,
    )@[i]@ by {
        assert(after[i] == span_views(old(spans)@)[i]);
    }
    assert forall|i: int| 0 <= i < frame.attributes@.len() implies (
    #[trigger] span.attributes@[i]).0@ == frame.attributes@[i].0@ && span.attributes@[i].1@
        == frame.attributes@[i].1@ by {
        assert(pairs(span.attributes@)[i] == pairs(frame.attributes@)[i]);
    }
}

/// Which calls are recorded. One that was observed only never is. Of the others,
/// one that failed, kept a child, said something or took at least the shortest
/// time is recorded, and no other, until a request holds 32768 spans; after that
/// only one whose id is on the wire is. What is not recorded leaves the spans as
/// they were. An I/O call's wait is measured in either case.
pub proof fn law_which_calls_are_recorded(
    spans: &mut Vec<NativeSpan>,
    span_stack: &mut Vec<String>,
    frame: CallFrame,
    threw: bool,
    min_nanos: u128,
    at: &EndReading,
    r: Ended,
)
    requires
        call_ensures(on_end, (spans, span_stack, frame, threw, min_nanos, at), r),
    ensures
        ({
            let worth = threw || frame.kept_child || frame.attributes@.len() > 0
                || frame.start_hrtime + min_nanos <= at.hrtime || min_nanos == 0;
            let room = old(spans)@.len() < 32768 || frame.bypass_span_cap;
            r.emitted <==> frame.emit_span && worth && room
        }),
        !r.emitted ==> final(spans)@.len() == old(spans)@.len(),
        !r.emitted ==> forall|i: int|
            0 <= i < old(spans)@.len() ==> (#[trigger] final(spans)@[i])@ == old(spans)@[i]@,
        r.io_wait is Some <==> frame.emit_span && frame.io,
        r.io_wait matches Some(wait) ==> {
            &&& at.hrtime >= frame.start_hrtime ==> frame.start_hrtime + wait == at.hrtime
            &&& at.hrtime < frame.start_hrtime ==> wait == 0
        },
{
    assert(pairs(frame.attributes@).len() == frame.attributes@.len());
    if !r.emitted {
        assert(span_views(final(spans)@).len() == final(spans)@.len());
        assert(span_views(old(spans)@).len() == old(spans)@.len());
        assert forall|i: int| 0 <= i < old(spans)@.len() implies (#[trigger] final(spans)@[i])@
            == old(spans)@[i]@ by {
            assert(span_views(final(spans)@)[i] == span_views(old(spans)@)[i]);
        }
    }
}

/// Ending a call takes its own id off the parenting stack, and nothing else: a
/// call whose id is not on top leaves the stack alone.
pub proof fn law_an_ended_call_leaves_the_stack(
    spans: &mut Vec<NativeSpan>,
    span_stack: &mut Vec<String>,
    frame: CallFrame,
    threw: bool,
    min_nanos: u128,
    at: &EndReading,
    r: Ended,
)
    requires
        call_ensures(on_end, (spans, span_stack, frame, threw, min_nanos, at), r),
    ensures
        ({
            let before = old(span_stack)@;
            let own = frame.on_stack && before.len() > 0 && before.last()@ == frame.span_id@;
            &&& own ==> final(span_stack)@.len() == before.len() - 1
            &&& !own ==> final(span_stack)@.len() == before.len()
            &&& forall|i: int|
                0 <= i < final(span_stack)@.len() ==> (#[trigger] final(span_stack)@[i])@
                    == before[i]@
        }),
{
    let before = texts(old(span_stack)@);
    let after = texts(final(span_stack)@);
    assert(before.len() == old(span_stack)@.len());
    assert(after.len() == final(span_stack)@.len());
    if before.len() > 0 {
        assert(before.last() == old(span_stack)@.last()@);
    }
    assert forall|i: int| 0 <= i < final(span_stack)@.len() implies (
    #[trigger] final(span_stack)@[i])@ == old(span_stack)@[i]@ by {
        assert(after[i] == before[i]);
    }
}

/// A call that begins belongs to its request's trace and is the child of the
/// innermost open span, or of the request where none is open. It carries the id
/// and the clocks it was given. Only a call that may become a span goes on the
/// parenting stack, on top, so that what it calls becomes its child. Only an
/// outbound call or a publish mints a `traceparent`; only an I/O call counts as a
/// wait.
pub proof fn law_a_begun_call_knows_its_place(
    context: &TraceContext,
    span_stack: &mut Vec<String>,
    name: &str,
    policy: SpanPolicy,
    minted: &Minted,
    r: CallFrame,
)
    requires
        call_ensures(on_begin, (context, span_stack, name, policy, minted), r),
    ensures
        r.trace_id@ == context.trace_id@,
        r.span_id@ == minted.span_id@,
        r.parent_span_id is Some,
        old(span_stack)@.len() > 0 ==> r.parent_span_id->0@ == old(span_stack)@.last()@,
        old(span_stack)@.len() == 0 ==> r.parent_span_id->0@ == context.span_id@,
        r.name@ == name@,
        r.started_at@ == minted.started_at@,
        r.start_hrtime == minted.start_hrtime,
        r.attributes@.len() == 0,
        r.span_name is None,
        !r.kept_child && !r.bypass_span_cap && !r.owns_delivery_scope,
        r.emit_span <==> policy != SpanPolicy::ObserveOnly,
        r.on_stack <==> policy != SpanPolicy::ObserveOnly,
        r.io <==> policy == SpanPolicy::IoSpan,
        policy == SpanPolicy::ObserveOnly ==> final(span_stack)@.len() == old(span_stack)@.len(),
        policy != SpanPolicy::ObserveOnly ==> final(span_stack)@.len() == old(span_stack)@.len() + 1
            && final(span_stack)@.last()@ == minted.span_id@,
        forall|i: int|
            0 <= i < old(span_stack)@.len() ==> (#[trigger] final(span_stack)@[i])@ == old(
                span_stack,
            )@[i]@,
        policy == SpanPolicy::MessagingPublish ==> r.injected_traceparent is Some,
        name@ == "curl_exec"@ ==> r.injected_traceparent is Some,
        r.injected_traceparent is Some ==> network(name@) || policy == SpanPolicy::MessagingPublish,
        r.injected_traceparent matches Some(header) ==> header@ == traceparent_of(
            context@,
            minted.span_id@,
        ),
{
    let before = texts(old(span_stack)@);
    let after = texts(final(span_stack)@);
    assert(before.len() == old(span_stack)@.len());
    assert(after.len() == final(span_stack)@.len());
    assert(pairs(r.attributes@).len() == r.attributes@.len());
    if before.len() > 0 {
        assert(before.last() == old(span_stack)@.last()@);
    }
    if after.len() > 0 {
        assert(after.last() == final(span_stack)@.last()@);
    }
    assert forall|i: int| 0 <= i < old(span_stack)@.len() implies (#[trigger] final(span_stack)@[i])@
        == old(span_stack)@[i]@ by {
        assert(after[i] == before[i]);
    }
}

/// A call made inside another is its child: the id that a begun call carries is
/// the parent of the next one.
pub proof fn law_a_nested_call_is_a_child(
    context: &TraceContext,
    stack: &mut Vec<String>,
    name: &str,
    policy: SpanPolicy,
    minted: &Minted,
    outer: CallFrame,
    inner_stack: &mut Vec<String>,
    inner_name: &str,
    inner_policy: SpanPolicy,
    inner_minted: &Minted,
    inner: CallFrame,
)
    requires
        call_ensures(on_begin, (context, stack, name, policy, minted), outer),
        call_ensures(
            on_begin,
            (context, inner_stack, inner_name, inner_policy, inner_minted),
            inner,
        ),
        policy != SpanPolicy::ObserveOnly,
        old(inner_stack)@ == final(stack)@,
    ensures
        inner.parent_span_id is Some,
        inner.parent_span_id->0@ == outer.span_id@,
        inner.trace_id@ == outer.trace_id@,
{
    let after = texts(final(stack)@);
    assert(after.len() == final(stack)@.len());
    assert(after.last() == final(stack)@.last()@);
    assert(texts(old(inner_stack)@).last() == after.last());
}

/// The `traceparent` header in the W3C layout: version 00, the trace id, the span
/// id, and the flags, 01 where the request is sampled and 00 where it is not.
pub proof fn law_a_traceparent_has_the_w3c_layout(context: &TraceContext, span_id: &str, r: String)
    requires
        call_ensures(traceparent, (context, span_id), r),
    ensures
        ({
            let t = context.trace_id@.len() as int;
            let s = span_id@.len() as int;
            &&& r@.len() == t + s + 7
            &&& r@[0] == '0' && r@[1] == '0' && r@[2] == '-'
            &&& r@.subrange(3, 3 + t) == context.trace_id@
            &&& r@[3 + t] == '-'
            &&& r@.subrange(4 + t, 4 + t + s) == span_id@
            &&& r@[4 + t + s] == '-' && r@[5 + t + s] == '0'
            &&& r@[6 + t + s] == if context.sampled {
                '1'
            } else {
                '0'
            }
        }),
{
    reveal_strlit("00-");
    reveal_strlit("-");
    reveal_strlit("01");
    reveal_strlit("00");
    assert("00-"@.len() == 3 && "-"@.len() == 1 && "01"@.len() == 2 && "00"@.len() == 2);
    let t = context.trace_id@.len() as int;
    let s = span_id@.len() as int;
    assert(r@.subrange(3, 3 + t) =~= context.trace_id@);
    assert(r@.subrange(4 + t, 4 + t + s) =~= span_id@);
}

/// A frame that only pairs a begin with its end has nothing to record.
pub proof fn law_a_paired_frame_is_blank(name: &str, r: CallFrame)
    requires
        call_ensures(CallFrame::observe_only, (name,), r),
    ensures
        r.name@ == name@,
        !r.emit_span && !r.on_stack && !r.io && !r.kept_child && !r.owns_delivery_scope
            && !r.bypass_span_cap,
        r.start_hrtime == 0,
        r.attributes@.len() == 0,
        r.injected_traceparent is None,
        r.span_name is None,
        r.parent_span_id is None,
{
    assert(pairs(r.attributes@).len() == r.attributes@.len());
}

/// The root span is the request: its ids, its name (`request` where it has none),
/// its clocks and attributes. A status that is given stands; else a code from 100
/// to 499, or none, is ok, and any other is an error.
pub proof fn law_the_root_span_is_the_request(
    context: &TraceContext,
    name: &str,
    started_at: String,
    http_status_code: i64,
    request_start_ns: u128,
    request_end_ns: u128,
    status: &str,
    attributes: Vec<(String, String)>,
    ended_at: String,
    r: NativeSpan,
)
    requires
        call_ensures(
            root_http_span,
            (
                context,
                name,
                started_at,
                http_status_code,
                request_start_ns,
                request_end_ns,
                status,
                attributes,
                ended_at,
            ),
            r,
        ),
    ensures
        r.trace_id@ == context.trace_id@,
        r.span_id@ == context.span_id@,
        context.parent_span_id is None ==> r.parent_span_id is None,
        context.parent_span_id matches Some(parent) ==> r.parent_span_id is Some
            && r.parent_span_id->0@ == parent@,
        name@.len() > 0 ==> r.name@ == name@,
        name@.len() == 0 ==> r.name@ == "request"@,
        r.started_at@ == started_at@,
        r.ended_at@ == ended_at@,
        request_end_ns >= request_start_ns ==> request_start_ns + r.duration_nanoseconds
            == request_end_ns,
        request_end_ns < request_start_ns ==> r.duration_nanoseconds == 0,
        status@.len() > 0 ==> r.status@ == status@,
        status@.len() == 0 && 100 <= http_status_code <= 499 ==> r.status@ == "ok"@,
        status@.len() == 0 && http_status_code == 0 ==> r.status@ == "ok"@,
        status@.len() == 0 && http_status_code >= 500 ==> r.status@ == "error"@,
        status@.len() == 0 && http_status_code < 100 && http_status_code != 0 ==> r.status@
            == "error"@,
        pairs(r.attributes@) == pairs(attributes@),
{
}

/// A request holds at most 32768 spans, but for those whose id is on the wire; a
/// span that is taken goes last.
pub proof fn law_a_request_holds_so_many_spans(
    spans: &mut Vec<NativeSpan>,
    span: NativeSpan,
    bypass_cap: bool,
    r: bool,
)
    requires
        call_ensures(push_span, (spans, span, bypass_cap), r),
    ensures
        r <==> bypass_cap || old(spans)@.len() < 32768,
        r ==> final(spans)@ == old(spans)@.push(span),
        !r ==> final(spans)@ == old(spans)@,
{
}

} // verus!
