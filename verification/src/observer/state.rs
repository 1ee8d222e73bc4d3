//! What the observer remembers: the open request, the frames of the calls in
//! progress, and what earlier calls left for later ones.

use crate::context::{ContextView, TraceContext};
use crate::observer::names::{
    cache_io, cache_io_method, observe_policy, policy_of, sql_io, sql_io_function, Manifest,
    ObserverSettings, SpanPolicy,
};
use crate::observer::spans::{
    frame_views, push_span, span_views, CallFrame, FrameTiming, FrameView, NativeSpan, SpanView,
    MAX_SPANS_PER_REQUEST,
};
use crate::propagation_priority::Claim;
use crate::text::{cap, copy, fitting, opt_text, pairs, same, texts};
use crate::zend_helpers::{pair_value, ExceptionIdentity};
use std::collections::HashMap;
use vstd::prelude::*;

verus! {

broadcast use vstd::std_specs::hash::group_hash_axioms;

/// The most recent throw of a request.
pub struct LastThrow {
    pub class: String,
    pub message: String,
    pub file: String,
    pub line: String,
}

/// A throw as plain contents.
pub struct ThrowView {
    pub class: Seq<char>,
    pub message: Seq<char>,
    pub file: Seq<char>,
    pub line: Seq<char>,
}

impl View for LastThrow {
    type V = ThrowView;

    open spec fn view(&self) -> ThrowView {
        ThrowView {
            class: self.class@,
            message: self.message@,
            file: self.file@,
            line: self.line@,
        }
    }
}

/// The open request.
pub struct Request {
    pub context: Option<TraceContext>,
    pub spans: Vec<NativeSpan>,
    pub span_stack: Vec<String>,
    pub suppress_sql: bool,
    pub suppress_cache: bool,
    pub suppress_messaging: bool,
    pub claim: Claim,
    pub last_throw: Option<LastThrow>,
}

/// What is remembered per object handle while a request is open: the header
/// list of a curl handle, and the SQL of a prepared statement.
pub struct Handles {
    pub curl_headers: HashMap<u32, Vec<String>>,
    pub prepared_statements: HashMap<u32, String>,
}

/// Which client a subscribe method belongs to.
#[derive(Clone, Copy, Debug, PartialEq, Eq, Structural)]
pub enum ConsumeSubscribeKind {
    /// It returns an object that has the consumer tag.
    Bunny,
    /// It returns the consumer tag itself.
    Amqplib,
}

/// A subscription: the queue behind a channel's consumer tag.
pub struct ConsumerQueue {
    pub channel: u32,
    pub tag: String,
    pub queue: String,
}

/// A NATS subscription: the subject and group behind a subscription id.
pub struct Subscription {
    pub sid: String,
    pub subject: String,
    pub group: String,
}

/// What subscriptions left behind. It outlives requests: one subscribe call
/// serves any number of deliveries.
pub struct Subscriptions {
    pub queues: Vec<ConsumerQueue>,
    pub consume_fns: Vec<(u64, ConsumeSubscribeKind)>,
    pub sids: Vec<Subscription>,
}

/// The name of the delivery whose request is open.
pub enum DeliveryRoute {
    Known(String),
    /// Readable only once the delivery has run.
    DeferredAmqplib,
}

/// A remembered policy and the manifest generation it was made for.
#[derive(Clone, Copy, Debug)]
pub struct CachedPolicy {
    pub generation: u64,
    pub policy: Option<SpanPolicy>,
}

/// Everything the observer remembers.
pub struct Observer {
    pub request: Request,
    pub handles: Handles,
    pub subscriptions: Subscriptions,
    pub frames: Vec<CallFrame>,
    pub policy_cache: Vec<Option<CachedPolicy>>,
    pub delivery_scope: Option<DeliveryRoute>,
    pub pending_traceparent: Option<String>,
    pub installed: bool,
    pub warned: Vec<(String, String)>,
}

/// The header lists by handle.
pub open spec fn header_lists(m: Map<u32, Vec<String>>) -> Map<u32, Seq<Seq<char>>> {
    m.map_values(|v: Vec<String>| texts(v@))
}

/// The statements by handle.
pub open spec fn statements(m: Map<u32, String>) -> Map<u32, Seq<char>> {
    m.map_values(|s: String| s@)
}

/// The contents of an optional context.
pub open spec fn opt_context(c: Option<TraceContext>) -> Option<ContextView> {
    match c {
        Some(c) => Some(c@),
        None => None,
    }
}

/// The contents of an optional throw.
pub open spec fn opt_throw(t: Option<LastThrow>) -> Option<ThrowView> {
    match t {
        Some(t) => Some(t@),
        None => None,
    }
}

impl Observer {
    pub fn new() -> (r: Observer)
        ensures
            r.request.context is None,
            r.request.spans@.len() == 0,
            r.request.span_stack@.len() == 0,
            !r.request.suppress_sql && !r.request.suppress_cache && !r.request.suppress_messaging,
            !r.request.claim.claimed,
            r.request.last_throw is None,
            r.handles.curl_headers@ == Map::<u32, Vec<String>>::empty(),
            r.handles.prepared_statements@ == Map::<u32, String>::empty(),
            r.subscriptions.queues@.len() == 0,
            r.subscriptions.consume_fns@.len() == 0,
            r.subscriptions.sids@.len() == 0,
            r.frames@.len() == 0,
            r.policy_cache@.len() == 0,
            r.delivery_scope is None,
            r.pending_traceparent is None,
            !r.installed,
            r.warned@.len() == 0,
    {
        Observer {
            request: Request {
                context: None,
                spans: Vec::new(),
                span_stack: Vec::new(),
                suppress_sql: false,
                suppress_cache: false,
                suppress_messaging: false,
                claim: Claim::new(),
                last_throw: None,
            },
            handles: Handles {
                curl_headers: HashMap::new(),
                prepared_statements: HashMap::new(),
            },
            subscriptions: Subscriptions {
                queues: Vec::new(),
                consume_fns: Vec::new(),
                sids: Vec::new(),
            },
            frames: Vec::new(),
            policy_cache: Vec::new(),
            delivery_scope: None,
            pending_traceparent: None,
            installed: false,
            warned: Vec::new(),
        }
    }
}

/// What is to be forgotten beside the observer's own state when a request opens or
/// closes.
#[derive(Clone, Copy, Debug, PartialEq, Eq, Structural)]
pub enum Forget {
    /// Every serialized message: one of another request must not lend its name to
    /// a message of this one.
    SerializedMessages,
}

/// Open a request. Nothing of the request before it is left, but for what
/// outlives requests: subscriptions, frames and cached policies.
pub fn set_request_context(observer: &mut Observer, context: TraceContext) -> (r: Forget)
    ensures
        r == Forget::SerializedMessages,
        final(observer).request.context == Some(context),
        final(observer).request.spans@.len() == 0,
        final(observer).request.span_stack@.len() == 0,
        !final(observer).request.suppress_sql,
        !final(observer).request.suppress_cache,
        !final(observer).request.suppress_messaging,
        !final(observer).request.claim.claimed,
        final(observer).request.last_throw is None,
        final(observer).handles.curl_headers@ == Map::<u32, Vec<String>>::empty(),
        final(observer).handles.prepared_statements@ == Map::<u32, String>::empty(),
        final(observer).subscriptions == old(observer).subscriptions,
        final(observer).frames == old(observer).frames,
        final(observer).policy_cache == old(observer).policy_cache,
        final(observer).delivery_scope == old(observer).delivery_scope,
        final(observer).pending_traceparent == old(observer).pending_traceparent,
        final(observer).installed == old(observer).installed,
        final(observer).warned == old(observer).warned,
{
    observer.request.context = Some(context);
    observer.request.span_stack.clear();
    observer.request.spans.clear();
    observer.request.suppress_sql = false;
    observer.request.suppress_cache = false;
    observer.request.suppress_messaging = false;
    crate::propagation_priority::reset_for_request(&mut observer.request.claim);
    observer.handles.curl_headers.clear();
    observer.handles.prepared_statements.clear();
    observer.request.last_throw = None;
    Forget::SerializedMessages
}

/// Replace the propagation headers of the open request, and nothing else of it.
pub fn set_propagation(
    observer: &mut Observer,
    tracestate: Option<String>,
    baggage: Option<String>,
)
    ensures
        opt_context(final(observer).request.context) == match old(observer).request.context {
            Some(c) => Some(
                ContextView { tracestate: opt_text(tracestate), baggage: opt_text(baggage), ..c@ },
            ),
            None => None,
        },
        *final(observer) == (Observer {
            request: Request {
                context: final(observer).request.context,
                ..old(observer).request
            },
            ..*old(observer)
        }),
{
    match &mut observer.request.context {
        Some(c) => {
            c.tracestate = tracestate;
            c.baggage = baggage;
        },
        None => {},
    }
}

/// Close the request. Its spans stay until they are drained.
pub fn clear_request_context(observer: &mut Observer) -> (r: Forget)
    ensures
        r == Forget::SerializedMessages,
        final(observer).request.context is None,
        final(observer).request.span_stack@.len() == 0,
        final(observer).handles.curl_headers@ == Map::<u32, Vec<String>>::empty(),
        final(observer).handles.prepared_statements@ == Map::<u32, String>::empty(),
        *final(observer) == (Observer {
            request: Request {
                context: None,
                span_stack: final(observer).request.span_stack,
                ..old(observer).request
            },
            handles: final(observer).handles,
            ..*old(observer)
        }),
{
    observer.request.context = None;
    observer.request.span_stack.clear();
    observer.handles.curl_headers.clear();
    observer.handles.prepared_statements.clear();
    Forget::SerializedMessages
}

/// Stand a kind of native span down for the rest of the request. Unknown kinds
/// are ignored.
pub fn suppress_native(observer: &mut Observer, kind: &str)
    ensures
        *final(observer) == (Observer {
            request: Request {
                suppress_sql: old(observer).request.suppress_sql || kind@ == "sql"@,
                suppress_cache: old(observer).request.suppress_cache || kind@ == "cache"@,
                suppress_messaging: old(observer).request.suppress_messaging || kind@
                    == "messaging"@,
                ..old(observer).request
            },
            ..*old(observer)
        }),
{
    proof {
        reveal_strlit("sql");
        reveal_strlit("cache");
        reveal_strlit("messaging");
        assert("sql"@.len() == 3);
        assert("cache"@.len() == 5);
        assert("messaging"@.len() == 9);
    }
    if same(kind, "sql") {
        observer.request.suppress_sql = true;
    } else if same(kind, "cache") {
        observer.request.suppress_cache = true;
    } else if same(kind, "messaging") {
        observer.request.suppress_messaging = true;
    }
}

/// Whether the native span of an I/O call stands down.
pub open spec fn io_suppressed(request: Request, name: Seq<char>) -> bool {
    if sql_io(name) {
        request.suppress_sql
    } else if cache_io(name) {
        request.suppress_cache
    } else {
        false
    }
}

/// Whether the native span of an I/O call stands down.
pub fn native_io_suppressed(request: &Request, name: &str) -> (r: bool)
    ensures
        r == io_suppressed(*request, name@),
{
    if sql_io_function(name) {
        request.suppress_sql
    } else if cache_io_method(name) {
        request.suppress_cache
    } else {
        false
    }
}

/// The span that userland code recorded. An empty trace or parent id stands for
/// the request's own.
pub open spec fn userland_span(
    context: Option<ContextView>,
    trace_id: Seq<char>,
    span_id: Seq<char>,
    parent_span_id: Seq<char>,
    name: Seq<char>,
    started_at: Seq<char>,
    ended_at: Seq<char>,
    status: Seq<char>,
    attributes: Seq<(Seq<char>, Seq<char>)>,
) -> SpanView {
    SpanView {
        trace_id: if trace_id.len() > 0 {
            trace_id
        } else {
            match context {
                Some(c) => c.trace_id,
                None => Seq::empty(),
            }
        },
        span_id,
        parent_span_id: if parent_span_id.len() > 0 {
            Some(parent_span_id)
        } else {
            match context {
                Some(c) => Some(c.span_id),
                None => None,
            }
        },
        name,
        started_at,
        ended_at,
        status,
        duration_nanoseconds: 0,
        attributes,
    }
}

/// Record a span that userland code measured, while there is room for it.
pub fn record_userland_span(
    observer: &mut Observer,
    trace_id: String,
    span_id: String,
    parent_span_id: String,
    name: String,
    started_at: String,
    ended_at: String,
    status: String,
    attributes: Vec<(String, String)>,
)
    ensures
        span_views(final(observer).request.spans@) == if old(observer).request.spans@.len()
            < MAX_SPANS_PER_REQUEST {
            span_views(old(observer).request.spans@).push(
                userland_span(
                    opt_context(old(observer).request.context),
                    trace_id@,
                    span_id@,
                    parent_span_id@,
                    name@,
                    started_at@,
                    ended_at@,
                    status@,
                    pairs(attributes@),
                ),
            )
        } else {
            span_views(old(observer).request.spans@)
        },
        *final(observer) == (Observer {
            request: Request {
                spans: final(observer).request.spans,
                ..old(observer).request
            },
            ..*old(observer)
        }),
{
    let parent = if parent_span_id.as_str().is_empty() {
        match &observer.request.context {
            Some(c) => Some(c.span_id.clone()),
            None => None,
        }
    } else {
        Some(parent_span_id)
    };
    let trace = if trace_id.as_str().is_empty() {
        match &observer.request.context {
            Some(c) => c.trace_id.clone(),
            None => String::new(),
        }
    } else {
        trace_id
    };
    let span = NativeSpan {
        trace_id: trace,
        span_id,
        parent_span_id: parent,
        name,
        started_at,
        ended_at,
        status,
        duration_nanoseconds: 0,
        attributes,
    };
    let ghost before = observer.request.spans@;
    let ghost sv = span@;
    let pushed = push_span(&mut observer.request.spans, span, false);
    proof {
        if pushed {
            assert(span_views(observer.request.spans@) =~= span_views(before).push(sv));
        }
    }
}

/// Hand the request's spans over.
pub fn drain(observer: &mut Observer) -> (r: Vec<NativeSpan>)
    ensures
        r@ == old(observer).request.spans@,
        final(observer).request.spans@.len() == 0,
        *final(observer) == (Observer {
            request: Request {
                spans: final(observer).request.spans,
                ..old(observer).request
            },
            ..*old(observer)
        }),
{
    let mut out: Vec<NativeSpan> = Vec::new();
    out.append(&mut observer.request.spans);
    assert(out@ =~= old(observer).request.spans@);
    out
}

/// Whether the process has a live observer.
pub fn installed(observer: &Observer) -> (r: bool)
    ensures
        r == observer.installed,
{
    observer.installed
}

/// Whether to register the observer at module startup: unless it is explicitly
/// off there. The answer is remembered.
pub fn install_observer(observer: &mut Observer, enabled_at_startup: bool) -> (r: bool)
    ensures
        r == enabled_at_startup,
        *final(observer) == (Observer {
            installed: old(observer).installed || enabled_at_startup,
            ..*old(observer)
        }),
{
    if !enabled_at_startup {
        return false;
    }
    observer.installed = true;
    true
}

/// The request's most recent throw.
pub fn last_throw(observer: &Observer) -> (r: Option<LastThrow>)
    ensures
        opt_throw(r) == opt_throw(observer.request.last_throw),
{
    match &observer.request.last_throw {
        Some(t) => Some(
            LastThrow {
                class: t.class.clone(),
                message: t.message.clone(),
                file: t.file.clone(),
                line: t.line.clone(),
            },
        ),
        None => None,
    }
}

/// Truncate to at most `max` bytes on a character boundary.
pub fn bounded(value: &str, max: usize) -> (r: String)
    ensures
        r@ == fitting(value@, max as nat),
{
    cap(value, max)
}

fn bounded_opt(value: &Option<String>, max: usize) -> (r: String)
    ensures
        r@ == bounded_text(opt_text(*value), max as nat),
{
    match value {
        Some(s) => bounded(s.as_str(), max),
        None => {
            let r = String::new();
            assert(fitting(r@, max as nat) =~= r@);
            r
        },
    }
}

/// An optional text cut to `max` bytes, empty when there is none.
pub open spec fn bounded_text(value: Option<Seq<char>>, max: nat) -> Seq<char> {
    match value {
        Some(s) => fitting(s, max),
        None => Seq::empty(),
    }
}

/// What is remembered of a throw.
pub open spec fn thrown(identity: ExceptionIdentity) -> ThrowView {
    ThrowView {
        class: fitting(identity.class@, 256),
        message: bounded_text(opt_text(identity.message), 2048),
        file: bounded_text(opt_text(identity.file), 1024),
        line: bounded_text(opt_text(identity.line), 16),
    }
}

/// A list with one more pair when there is a value for it.
pub open spec fn with_some(
    list: Seq<(Seq<char>, Seq<char>)>,
    key: Seq<char>,
    value: Option<Seq<char>>,
) -> Seq<(Seq<char>, Seq<char>)> {
    match value {
        Some(v) => list.push((key, v)),
        None => list,
    }
}

/// A list with one more pair when a condition holds.
pub open spec fn with_if(
    list: Seq<(Seq<char>, Seq<char>)>,
    condition: bool,
    key: Seq<char>,
    value: Seq<char>,
) -> Seq<(Seq<char>, Seq<char>)> {
    if condition {
        list.push((key, value))
    } else {
        list
    }
}

/// Append a pair.
pub fn push_pair(list: &mut Vec<(String, String)>, key: &str, value: &str)
    ensures
        pairs(final(list)@) == pairs(old(list)@).push((key@, value@)),
{
    let ghost before = pairs(list@);
    list.push((copy(key), copy(value)));
    assert(pairs(list@) =~= before.push((key@, value@)));
}

/// Append a pair when there is a value for it.
pub fn push_some(list: &mut Vec<(String, String)>, key: &str, value: &Option<String>)
    ensures
        pairs(final(list)@) == with_some(pairs(old(list)@), key@, opt_text(*value)),
{
    match value {
        Some(v) => {
            push_pair(list, key, v.as_str());
        },
        None => {},
    }
}

/// Append a pair when a condition holds.
pub fn push_if(list: &mut Vec<(String, String)>, condition: bool, key: &str, value: &str)
    ensures
        pairs(final(list)@) == with_if(pairs(old(list)@), condition, key@, value@),
{
    if condition {
        push_pair(list, key, value);
    }
}

/// What a recording keeps of a throw.
pub open spec fn throw_payload(identity: ExceptionIdentity) -> Seq<(Seq<char>, Seq<char>)> {
    let p = seq![("class"@, identity.class@)];
    let p = with_some(p, "message"@, opt_text(identity.message));
    let p = with_some(p, "code"@, opt_text(identity.code));
    let p = with_some(p, "file"@, opt_text(identity.file));
    with_some(p, "line"@, opt_text(identity.line))
}

/// The pairs of an optional list.
pub open spec fn opt_pairs(o: Option<Vec<(String, String)>>) -> Option<
    Seq<(Seq<char>, Seq<char>)>,
> {
    match o {
        Some(v) => Some(pairs(v@)),
        None => None,
    }
}

/// An exception was thrown. An open request remembers it; an active recording
/// gets the answer as an event.
pub fn on_throw(observer: &mut Observer, identity: &ExceptionIdentity, recording: bool) -> (r:
    Option<Vec<(String, String)>>)
    ensures
        opt_pairs(r) == if recording {
            Some(throw_payload(*identity))
        } else {
            None
        },
        opt_throw(final(observer).request.last_throw) == if old(
            observer,
        ).request.context is Some {
            Some(thrown(*identity))
        } else {
            opt_throw(old(observer).request.last_throw)
        },
        *final(observer) == (Observer {
            request: Request {
                last_throw: final(observer).request.last_throw,
                ..old(observer).request
            },
            ..*old(observer)
        }),
{
    if observer.request.context.is_some() {
        observer.request.last_throw = Some(
            LastThrow {
                class: bounded(identity.class.as_str(), 256),
                message: bounded_opt(&identity.message, 2048),
                file: bounded_opt(&identity.file, 1024),
                line: bounded_opt(&identity.line, 16),
            },
        );
    }
    if recording {
        let mut payload: Vec<(String, String)> = Vec::new();
        push_pair(&mut payload, "class", identity.class.as_str());
        assert(pairs(payload@) =~= seq![("class"@, identity.class@)]);
        push_some(&mut payload, "message", &identity.message);
        push_some(&mut payload, "code", &identity.code);
        push_some(&mut payload, "file", &identity.file);
        push_some(&mut payload, "line", &identity.line);
        Some(payload)
    } else {
        None
    }
}

/// Take the `traceparent` that the last outbound call published.
pub fn take_pending_traceparent(observer: &mut Observer) -> (r: Option<String>)
    ensures
        r == old(observer).pending_traceparent,
        *final(observer) == (Observer { pending_traceparent: None, ..*old(observer) }),
{
    observer.pending_traceparent.take()
}

/// Whether a remembered policy, where it is current, is the one that would be
/// decided anew.
pub open spec fn entry_current(
    entry: Option<CachedPolicy>,
    manifest: Manifest,
    settings: ObserverSettings,
    name: Seq<char>,
    internal: bool,
) -> bool {
    match entry {
        Some(e) => e.generation == manifest.generation ==> e.policy == policy_of(
            texts(manifest.names@),
            settings.span_all_userland,
            settings.messaging_auto,
            name,
            internal,
        ),
        None => true,
    }
}

/// The remembered policy of a function.
pub open spec fn cached_at(cache: Seq<Option<CachedPolicy>>, id: int) -> Option<CachedPolicy> {
    if 0 <= id < cache.len() {
        cache[id]
    } else {
        None
    }
}

/// The policy of a function: the one remembered for this generation of the
/// manifest, else the one decided anew.
pub open spec fn remembered(
    cache: Seq<Option<CachedPolicy>>,
    id: int,
    manifest: Manifest,
    settings: ObserverSettings,
    name: Seq<char>,
    internal: bool,
) -> Option<SpanPolicy> {
    let anew = policy_of(
        texts(manifest.names@),
        settings.span_all_userland,
        settings.messaging_auto,
        name,
        internal,
    );
    match cached_at(cache, id) {
        Some(e) => if e.generation == manifest.generation {
            e.policy
        } else {
            anew
        },
        None => anew,
    }
}

/// Whether a cache differs from another in the entry of one function alone.
pub open spec fn cache_updated(
    before: Seq<Option<CachedPolicy>>,
    after: Seq<Option<CachedPolicy>>,
    id: int,
    entry: CachedPolicy,
) -> bool {
    &&& cached_at(after, id) == Some(entry)
    &&& forall|other: int|
        other != id ==> #[trigger] cached_at(after, other) == cached_at(before, other)
}

/// The policy of a function, remembered per function until the manifest
/// changes.
pub fn cached_policy(
    cache: &mut Vec<Option<CachedPolicy>>,
    manifest: &Manifest,
    settings: &ObserverSettings,
    id: u32,
    name: &str,
    is_internal: bool,
) -> (r: Option<SpanPolicy>)
    ensures
        r == remembered(old(cache)@, id as int, *manifest, *settings, name@, is_internal),
        cache_updated(
            old(cache)@,
            final(cache)@,
            id as int,
            CachedPolicy { generation: manifest.generation, policy: r },
        ),
{
    let index: usize = id as usize;
    if index < cache.len() {
        if let Some(entry) = cache[index] {
            if entry.generation == manifest.generation {
                return entry.policy;
            }
        }
    }
    let policy = observe_policy(manifest, settings, name, is_internal);
    let ghost start = cache@;
    while cache.len() <= index
        invariant
            start.len() <= cache@.len(),
            forall|k: int| 0 <= k < start.len() ==> cache@[k] == start[k],
            forall|k: int| start.len() <= k < cache@.len() ==> cache@[k] is None,
        decreases index + 1 - cache@.len(),
    {
        cache.push(None);
    }
    cache.set(index, Some(CachedPolicy { generation: manifest.generation, policy }));
    policy
}

/// Every remembered policy is current for the function it is remembered under,
/// and none was made for a later generation of the manifest.
pub open spec fn cache_valid(
    cache: Seq<Option<CachedPolicy>>,
    functions: spec_fn(int) -> (Seq<char>, bool),
    manifest: Manifest,
    settings: ObserverSettings,
) -> bool {
    forall|id: int|
        {
            &&& entry_current(
                #[trigger] cached_at(cache, id),
                manifest,
                settings,
                functions(id).0,
                functions(id).1,
            )
            &&& cached_at(cache, id) matches Some(e) ==> e.generation <= manifest.generation
        }
}

/// Registering a function leaves no stale policy behind: what was remembered is
/// still right wherever it still counts. The generation counter wraps after
/// more registrations than a process can make; that last one is left out.
pub proof fn law_registration_outdates_cached_policies(
    cache: Seq<Option<CachedPolicy>>,
    functions: spec_fn(int) -> (Seq<char>, bool),
    before: Manifest,
    after: Manifest,
    settings: ObserverSettings,
)
    requires
        cache_valid(cache, functions, before, settings),
        before.generation < u64::MAX,
        after.generation == before.generation.wrapping_add(1),
    ensures
        cache_valid(cache, functions, after, settings),
{
    assert(after.generation == before.generation + 1);
    assert forall|id: int|
        {
            &&& entry_current(
                #[trigger] cached_at(cache, id),
                after,
                settings,
                functions(id).0,
                functions(id).1,
            )
            &&& cached_at(cache, id) matches Some(e) ==> e.generation <= after.generation
        } by {
        assert(cached_at(cache, id) matches Some(e) ==> e.generation <= before.generation);
    }
}

/// Through a valid cache every function gets the policy that would be decided
/// for it anew, and the cache stays valid.
pub proof fn law_cached_policy_is_the_decided_one(
    before: Seq<Option<CachedPolicy>>,
    after: Seq<Option<CachedPolicy>>,
    functions: spec_fn(int) -> (Seq<char>, bool),
    manifest: Manifest,
    settings: ObserverSettings,
    id: int,
)
    requires
        cache_valid(before, functions, manifest, settings),
        cache_updated(
            before,
            after,
            id,
            CachedPolicy {
                generation: manifest.generation,
                policy: remembered(
                    before,
                    id,
                    manifest,
                    settings,
                    functions(id).0,
                    functions(id).1,
                ),
            },
        ),
    ensures
        remembered(before, id, manifest, settings, functions(id).0, functions(id).1) == policy_of(
            texts(manifest.names@),
            settings.span_all_userland,
            settings.messaging_auto,
            functions(id).0,
            functions(id).1,
        ),
        cache_valid(after, functions, manifest, settings),
{
    assert(entry_current(
        cached_at(before, id),
        manifest,
        settings,
        functions(id).0,
        functions(id).1,
    ));
    assert forall|k: int|
        {
            &&& entry_current(
                #[trigger] cached_at(after, k),
                manifest,
                settings,
                functions(k).0,
                functions(k).1,
            )
            &&& cached_at(after, k) matches Some(e) ==> e.generation <= manifest.generation
        } by {
        if k != id {
            assert(cached_at(after, k) == cached_at(before, k));
        }
    }
}

/// Push a prepared frame, stamping the counted profiler's timing on it.
pub fn push_frame(frames: &mut Vec<CallFrame>, frame: CallFrame, timing: FrameTiming)
    ensures
        frame_views(final(frames)@) == frame_views(old(frames)@).push(
            FrameView { timing, ..frame@ },
        ),
{
    let ghost before = frame_views(frames@);
    let ghost fv = frame@;
    let mut frame = frame;
    frame.timing = timing;
    let ghost nv = frame@;
    frames.push(frame);
    assert(frame_views(frames@) =~= before.push(nv));
}

/// A request opens with its own identity and nothing of the one before: no spans,
/// no open span, nothing stood down, no claim, no throw, nothing remembered of a
/// curl handle or a statement. What outlives requests is kept, and the serialized
/// messages are to be forgotten.
pub proof fn law_a_request_opens_clean(observer: &mut Observer, context: TraceContext, r: Forget)
    requires
        call_ensures(set_request_context, (observer, context), r),
    ensures
        r == Forget::SerializedMessages,
        final(observer).request.context == Some(context),
        final(observer).request.spans@.len() == 0,
        final(observer).request.span_stack@.len() == 0,
        !final(observer).request.suppress_sql && !final(observer).request.suppress_cache,
        !final(observer).request.suppress_messaging,
        !final(observer).request.claim.claimed,
        final(observer).request.last_throw is None,
        forall|handle: u32| !final(observer).handles.curl_headers@.contains_key(handle),
        forall|handle: u32| !final(observer).handles.prepared_statements@.contains_key(handle),
        final(observer).subscriptions == old(observer).subscriptions,
        final(observer).frames == old(observer).frames,
{
}

/// A closed request is no longer open, and what was remembered of its handles is
/// gone; its spans are still there to hand over, and its throw to tell.
pub proof fn law_a_closed_request_keeps_its_spans(observer: &mut Observer, r: Forget)
    requires
        call_ensures(clear_request_context, (observer,), r),
    ensures
        r == Forget::SerializedMessages,
        final(observer).request.context is None,
        final(observer).request.span_stack@.len() == 0,
        final(observer).request.spans == old(observer).request.spans,
        final(observer).request.last_throw == old(observer).request.last_throw,
        forall|handle: u32| !final(observer).handles.curl_headers@.contains_key(handle),
        forall|handle: u32| !final(observer).handles.prepared_statements@.contains_key(handle),
        final(observer).subscriptions == old(observer).subscriptions,
        final(observer).frames == old(observer).frames,
{
}

/// Handing the spans over gives every one of them, once.
pub proof fn law_spans_are_handed_over_once(
    observer: &mut Observer,
    r: Vec<NativeSpan>,
    again: &mut Observer,
    rest: Vec<NativeSpan>,
)
    requires
        call_ensures(drain, (observer,), r),
        *old(again) == *final(observer),
        call_ensures(drain, (again,), rest),
    ensures
        r@ == old(observer).request.spans@,
        rest@.len() == 0,
        final(observer).request.context == old(observer).request.context,
        final(observer).frames == old(observer).frames,
{
}

/// New propagation headers replace those of the open request and nothing else of
/// it; without a request they go nowhere.
pub proof fn law_propagation_is_replaced(
    observer: &mut Observer,
    tracestate: Option<String>,
    baggage: Option<String>,
)
    requires
        call_ensures(set_propagation, (observer, tracestate, baggage), ()),
    ensures
        old(observer).request.context is None <==> final(observer).request.context is None,
        old(observer).request.context matches Some(before) ==> {
            let after = final(observer).request.context->0;
            &&& opt_text(after.tracestate) == opt_text(tracestate)
            &&& opt_text(after.baggage) == opt_text(baggage)
            &&& after.trace_id@ == before.trace_id@
            &&& after.span_id@ == before.span_id@
            &&& opt_text(after.parent_span_id) == opt_text(before.parent_span_id)
            &&& opt_text(after.session_id) == opt_text(before.session_id)
            &&& after.sampled == before.sampled
        },
        final(observer).request.spans == old(observer).request.spans,
        final(observer).request.span_stack == old(observer).request.span_stack,
{
}

/// Once userland covers SQL, the native SQL calls stand down, and only those;
/// likewise the cache calls. Before that nothing stands down, and nothing stands
/// up again within the request.
pub proof fn law_what_userland_covers_stands_down(
    observer: &mut Observer,
    kind: &str,
    before: &Request,
    after: &Request,
    name: &str,
    sql: bool,
    cache: bool,
    was: bool,
    is_now: bool,
)
    requires
        call_ensures(suppress_native, (observer, kind), ()),
        *before == old(observer).request,
        *after == final(observer).request,
        call_ensures(sql_io_function, (name,), sql),
        call_ensures(cache_io_method, (name,), cache),
        call_ensures(native_io_suppressed, (before, name), was),
        call_ensures(native_io_suppressed, (after, name), is_now),
    ensures
        was ==> is_now,
        kind@ == "sql"@ && sql ==> is_now,
        kind@ == "cache"@ && cache && !sql ==> is_now,
        !sql && !cache ==> !is_now,
        kind@ != "sql"@ && sql ==> is_now == was,
        kind@ != "cache"@ && cache && !sql ==> is_now == was,
        final(observer).request.suppress_messaging <==> old(observer).request.suppress_messaging
            || kind@ == "messaging"@,
        sql && !old(observer).request.suppress_sql ==> !was,
        cache && !sql && !old(observer).request.suppress_cache ==> !was,
{
}

/// A span that userland code measured is recorded as it says, last, while there is
/// room for it. An empty trace or parent id stands for the request's own; its
/// duration is its two times and nothing else.
pub proof fn law_userland_spans_are_recorded_as_told(
    observer: &mut Observer,
    trace_id: String,
    span_id: String,
    parent_span_id: String,
    name: String,
    started_at: String,
    ended_at: String,
    status: String,
    attributes: Vec<(String, String)>,
)
    requires
        call_ensures(
            record_userland_span,
            (
                observer,
                trace_id,
                span_id,
                parent_span_id,
                name,
                started_at,
                ended_at,
                status,
                attributes,
            ),
            (),
        ),
    ensures
        old(observer).request.spans@.len() >= 32768 ==> final(observer).request.spans@.len() == old(
            observer,
        ).request.spans@.len(),
        old(observer).request.spans@.len() < 32768 ==> {
            let n = old(observer).request.spans@.len();
            let span = final(observer).request.spans@[n as int];
            let context = old(observer).request.context;
            &&& final(observer).request.spans@.len() == n + 1
            &&& trace_id@.len() > 0 ==> span.trace_id@ == trace_id@
            &&& trace_id@.len() == 0 ==> (context matches Some(c) ==> span.trace_id@ == c.trace_id@)
            &&& span.span_id@ == span_id@
            &&& parent_span_id@.len() > 0 ==> opt_text(span.parent_span_id) == Some(parent_span_id@)
            &&& parent_span_id@.len() == 0 ==> (context matches Some(c) ==> opt_text(
                span.parent_span_id,
            ) == Some(c.span_id@))
            &&& parent_span_id@.len() == 0 && context is None ==> span.parent_span_id is None
            &&& span.name@ == name@
            &&& span.started_at@ == started_at@
            &&& span.ended_at@ == ended_at@
            &&& span.status@ == status@
            &&& span.duration_nanoseconds == 0
            &&& pairs(span.attributes@) == pairs(attributes@)
        },
        final(observer).request.context == old(observer).request.context,
        final(observer).request.span_stack == old(observer).request.span_stack,
{
    let n = old(observer).request.spans@.len();
    let after = span_views(final(observer).request.spans@);
    assert(after.len() == final(observer).request.spans@.len());
    assert(span_views(old(observer).request.spans@).len() == n);
    if n < 32768 {
        assert(after[n as int] == final(observer).request.spans@[n as int]@);
    }
}

/// An open request remembers its latest throw: the class, message, file and line,
/// each cut to its bound. Without a request nothing is remembered. An active
/// recording gets all that is known of it, uncut.
pub proof fn law_the_latest_throw_is_remembered(
    observer: &mut Observer,
    identity: &ExceptionIdentity,
    recording: bool,
    r: Option<Vec<(String, String)>>,
    after: &Observer,
    told: Option<LastThrow>,
)
    requires
        call_ensures(on_throw, (observer, identity, recording), r),
        *after == *final(observer),
        call_ensures(last_throw, (after,), told),
    ensures
        r is Some <==> recording,
        old(observer).request.context is Some ==> told is Some,
        old(observer).request.context is Some ==> told->0.class@ == fitting(identity.class@, 256),
        old(observer).request.context is Some ==> (identity.message matches Some(m)
            ==> told->0.message@ == fitting(m@, 2048)),
        old(observer).request.context is Some ==> (identity.file matches Some(f)
            ==> told->0.file@ == fitting(f@, 1024)),
        old(observer).request.context is Some ==> (identity.line matches Some(l)
            ==> told->0.line@ == fitting(l@, 16)),
        old(observer).request.context is None ==> opt_throw(told) == opt_throw(
            old(observer).request.last_throw,
        ),
        r matches Some(payload) ==> {
            let p = pairs(payload@);
            &&& p.contains(("class"@, identity.class@))
            &&& identity.message matches Some(m) ==> p.contains(("message"@, m@))
            &&& identity.code matches Some(c) ==> p.contains(("code"@, c@))
            &&& identity.file matches Some(f) ==> p.contains(("file"@, f@))
            &&& identity.line matches Some(l) ==> p.contains(("line"@, l@))
        },
{
    if let Some(payload) = r {
        let p = pairs(payload@);
        let a = seq![("class"@, identity.class@)];
        let b = with_some(a, "message"@, opt_text(identity.message));
        let c = with_some(b, "code"@, opt_text(identity.code));
        let d = with_some(c, "file"@, opt_text(identity.file));
        let e = with_some(d, "line"@, opt_text(identity.line));
        assert(p == e);
        assert(a[0] == ("class"@, identity.class@));
        lemma_kept(a, "message"@, opt_text(identity.message));
        lemma_kept(b, "code"@, opt_text(identity.code));
        lemma_kept(c, "file"@, opt_text(identity.file));
        lemma_kept(d, "line"@, opt_text(identity.line));
    }
}

/// One more pair leaves the others where they are, and is there itself.
pub proof fn lemma_kept(
    list: Seq<(Seq<char>, Seq<char>)>,
    key: Seq<char>,
    value: Option<Seq<char>>,
)
    ensures
        forall|i: int|
            0 <= i < list.len() ==> with_some(list, key, value)[i] == #[trigger] list[i],
        forall|e: (Seq<char>, Seq<char>)| #[trigger]
            list.contains(e) ==> with_some(list, key, value).contains(e),
        value matches Some(v) ==> with_some(list, key, value).contains((key, v)),
{
    let after = with_some(list, key, value);
    assert forall|e: (Seq<char>, Seq<char>)| #[trigger] list.contains(e) implies after.contains(e) by {
        let i = list.index_of(e);
        assert(after[i] == e);
    }
    if let Some(v) = value {
        assert(after[list.len() as int] == (key, v));
    }
}

/// A published `traceparent` is taken once.
pub proof fn law_a_pending_traceparent_is_taken_once(
    observer: &mut Observer,
    r: Option<String>,
    again: &mut Observer,
    rest: Option<String>,
)
    requires
        call_ensures(take_pending_traceparent, (observer,), r),
        *old(again) == *final(observer),
        call_ensures(take_pending_traceparent, (again,), rest),
    ensures
        r == old(observer).pending_traceparent,
        rest is None,
{
}

/// The observer is live once it was enabled at startup, and says so.
pub proof fn law_the_observer_is_live_where_it_was_enabled(
    observer: &mut Observer,
    enabled: bool,
    r: bool,
    after: &Observer,
    live: bool,
)
    requires
        call_ensures(install_observer, (observer, enabled), r),
        *after == *final(observer),
        call_ensures(installed, (after,), live),
    ensures
        r == enabled,
        enabled ==> live,
        !enabled ==> live == old(observer).installed,
{
}

/// A pushed frame is the innermost, with the timing it was given and all else as
/// it was; the frames below stay.
pub proof fn law_a_pushed_frame_is_innermost(
    frames: &mut Vec<CallFrame>,
    frame: CallFrame,
    timing: FrameTiming,
)
    requires
        call_ensures(push_frame, (frames, frame, timing), ()),
    ensures
        final(frames)@.len() == old(frames)@.len() + 1,
        final(frames)@.last().timing == timing,
        final(frames)@.last()@ == (FrameView { timing, ..frame@ }),
        final(frames)@.last().span_id@ == frame.span_id@,
        final(frames)@.last().name@ == frame.name@,
        forall|i: int|
            0 <= i < old(frames)@.len() ==> (#[trigger] final(frames)@[i])@ == old(frames)@[i]@,
{
    let before = frame_views(old(frames)@);
    let after = frame_views(final(frames)@);
    assert(before.len() == old(frames)@.len() && after.len() == final(frames)@.len());
    assert(after.last() == final(frames)@.last()@);
    assert forall|i: int| 0 <= i < old(frames)@.len() implies (#[trigger] final(frames)@[i])@ == old(
        frames,
    )@[i]@ by {
        assert(after[i] == before[i]);
    }
}

/// A policy that was remembered for this generation of the manifest is used again;
/// else it is decided anew and remembered.
pub proof fn law_policies_are_remembered(
    cache: &mut Vec<Option<CachedPolicy>>,
    manifest: &Manifest,
    settings: &ObserverSettings,
    id: u32,
    name: &str,
    is_internal: bool,
    anew: Option<SpanPolicy>,
    r: Option<SpanPolicy>,
)
    requires
        call_ensures(cached_policy, (cache, manifest, settings, id, name, is_internal), r),
        call_ensures(observe_policy, (manifest, settings, name, is_internal), anew),
    ensures
        ({
            let known = (id as int) < old(cache)@.len() && old(cache)@[id as int] is Some && old(
                cache,
            )@[id as int]->0.generation == manifest.generation;
            &&& known ==> r == old(cache)@[id as int]->0.policy
            &&& !known ==> r == anew
        }),
        (id as int) < final(cache)@.len(),
        final(cache)@[id as int] is Some,
        final(cache)@[id as int]->0.policy == r,
        final(cache)@[id as int]->0.generation == manifest.generation,
        forall|k: int|
            0 <= k < old(cache)@.len() && k != id ==> cached_at(final(cache)@, k) == #[trigger] old(
                cache,
            )@[k],
{
    assert(cached_at(final(cache)@, id as int) is Some);
    assert forall|k: int| 0 <= k < old(cache)@.len() && k != id implies cached_at(final(cache)@, k)
        == #[trigger] old(cache)@[k] by {
        assert(cached_at(final(cache)@, k) == cached_at(old(cache)@, k));
    }
}

/// What is put on a list goes last; what has no value, or is not wanted, is not
/// put there.
pub proof fn law_pairs_go_last(
    list: &mut Vec<(String, String)>,
    key: &str,
    value: &str,
    other: &mut Vec<(String, String)>,
    maybe: &Option<String>,
    third: &mut Vec<(String, String)>,
    wanted: bool,
)
    requires
        call_ensures(push_pair, (list, key, value), ()),
        call_ensures(push_some, (other, key, maybe), ()),
        call_ensures(push_if, (third, wanted, key, value), ()),
    ensures
        pairs(final(list)@) == pairs(old(list)@).push((key@, value@)),
        *maybe matches Some(v) ==> pairs(final(other)@) == pairs(old(other)@).push((key@, v@)),
        *maybe is None ==> pairs(final(other)@) == pairs(old(other)@),
        wanted ==> pairs(final(third)@) == pairs(old(third)@).push((key@, value@)),
        !wanted ==> pairs(final(third)@) == pairs(old(third)@),
{
}

/// What a list says under a key, of two lists one after the other: what the first
/// says, and where it says nothing, what the second does.
pub proof fn lemma_under_append(
    a: Seq<(Seq<char>, Seq<char>)>,
    b: Seq<(Seq<char>, Seq<char>)>,
    key: Seq<char>,
)
    ensures
        pair_value(a + b, key) == match pair_value(a, key) {
            Some(v) => Some(v),
            None => pair_value(b, key),
        },
    decreases a.len(),
{
    if a.len() == 0 {
        assert(a + b =~= b);
    } else {
        assert((a + b)[0] == a[0]);
        assert((a + b).drop_first() =~= a.drop_first() + b);
        lemma_under_append(a.drop_first(), b, key);
    }
}

/// What a list says under every key once it has one more pair.
pub proof fn lemma_under(
    list: Seq<(Seq<char>, Seq<char>)>,
    key: Seq<char>,
    value: Option<Seq<char>>,
)
    ensures
        forall|k: Seq<char>| #[trigger]
            pair_value(with_some(list, key, value), k) == match pair_value(list, k) {
                Some(v) => Some(v),
                None => if k == key {
                    value
                } else {
                    None
                },
            },
{
    if let Some(v) = value {
        let one = seq![(key, v)];
        assert forall|k: Seq<char>| #[trigger]
            pair_value(with_some(list, key, value), k) == match pair_value(list, k) {
                Some(v) => Some(v),
                None => if k == key {
                    value
                } else {
                    None
                },
            } by {
            assert(list.push((key, v)) =~= list + one);
            lemma_under_append(list, one, k);
            assert(one.drop_first() =~= Seq::empty());
            assert(pair_value(one.drop_first(), k) is None);
        }
    }
}

/// What a list says under every key once it has one more pair on a condition.
pub proof fn lemma_under_if(
    list: Seq<(Seq<char>, Seq<char>)>,
    condition: bool,
    key: Seq<char>,
    value: Seq<char>,
)
    ensures
        forall|k: Seq<char>| #[trigger]
            pair_value(with_if(list, condition, key, value), k) == match pair_value(list, k) {
                Some(v) => Some(v),
                None => if k == key && condition {
                    Some(value)
                } else {
                    None
                },
            },
{
    lemma_under(
        list,
        key,
        if condition {
            Some(value)
        } else {
            None
        },
    );
}

} // verus!
