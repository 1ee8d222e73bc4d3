//! The begin and end of an observed call: which way a call goes, the frame it
//! gets, and what its end settles.

use crate::observer::banks::{
    bank_prepared_statement, rebank_prepared_statement_for_this, rebanked,
    remember_subscribe_method, sql_argument, sql_of_this, subscribe_kind,
};
use crate::observer::curl::{
    capture_curl_result, handle_of, inject_curl_traceparent, list_of, noted, propagated,
    request_baggage, request_tracestate, setopt_array_headers, setopt_headers, track_curl_setopt,
    track_curl_setopt_array, transfer_attributes, CurlInjection,
};
use crate::observer::delivery::{
    capture_messaging_poll_result, close_messaging_delivery, delivery_closed, polled_frame,
    DeliveryClose, PollWords,
};
use crate::observer::messaging::{
    bank_serialized_message, fallback_frame, observe_only_fallback, opt_frame, push_list,
    serialized, SerializedMessage, SYSTEM_NATS,
};
use crate::observer::names::{
    dst_event_kind_for, dst_kind, dual_purpose, is_dual_purpose_stream_function, is_excluded_path,
    is_messaging_subscribe, is_remote_stream_target, is_traced, lemma_begins_with, lifecycle,
    lifecycle_method, observe_policy, path_excluded, policy_of, poll_method, poll_method_name,
    prepare_sql_arg_index, remote_target, sql_arg_index, sql_prepare, sql_prepare_method,
    sql_this_prepare, sql_this_prepare_method, subscribe_method, traced, DstEventKind, Manifest, ObserverSettings,
    SpanPolicy, MESSAGING_NATS_RPC_METHOD, PROTOBUF_SERIALIZE_METHOD,
};
use crate::observer::spans::{
    begun, begun_stack, duration_of, emits, ended_span, ended_stack, frame_views, on_begin, on_end,
    span_views, traceparent_of, worth_keeping, CallFrame, EndReading, Ended, FrameTiming, FrameView,
    Minted,
};
use crate::observer::state::{
    cache_updated, cached_policy, header_lists, io_suppressed, native_io_suppressed, opt_context,
    opt_pairs, push_if, push_pair, push_some, remembered, statements, with_if, with_some,
    CachedPolicy, ConsumeSubscribeKind, Handles, Observer, Request, Subscriptions,
};
use crate::propagation_priority::{claim_write, write_view};
use crate::text::{
    begins, chars_of, copy, decimal, decimal_text, found_at, matches_at, opt_text, or_empty, pairs,
    same, starts_with, string_of, texts,
};
use crate::zend_helpers::{
    arg_scalar_string, call_name, capped, capture_scalar_arguments, defining_file, file_of,
    function_name, is_internal, is_internal_function, is_text, lesser, opt_texts, records,
    scalar_text, scalar_to_string, this_object_handle, Call, ScalarArgument, Zval, MAX_SCALAR_BYTES,
};
use std::collections::HashMap;
use vstd::prelude::*;

verus! {

broadcast use vstd::std_specs::hash::group_hash_axioms;

/// Whether begin and end handlers are attached to a function at all.
pub fn attaches_handlers(manifest: &Manifest, settings: &ObserverSettings, call: &Call) -> (r: bool)
    ensures
        r == (policy_of(
            texts(manifest.names@),
            settings.span_all_userland,
            settings.messaging_auto,
            match call_name(*call) {
                Some(name) => name,
                None => Seq::empty(),
            },
            is_internal(*call),
        ) is Some),
{
    let name = match function_name(call) {
        Some(name) => name,
        None => String::new(),
    };
    let internal = is_internal_function(call);
    observe_policy(manifest, settings, name.as_str(), internal).is_some()
}

/// The messaging clients that have handlers of their own.
#[derive(Clone, Copy, Debug, PartialEq, Eq, Structural)]
pub enum Broker {
    Bunny,
    RdKafka,
    Amqplib,
    Nats,
}

/// Which way a call goes when it begins.
pub enum BeginStep {
    /// Not observed.
    Ignore,
    /// A publish that the client's own handler begins.
    Publish(Broker),
    /// A delivery that the client's own handler begins.
    Deliver(Broker),
    /// A NATS send.
    NatsSend,
    /// A frame under a policy; a remote stream target is the span's URL.
    Frame(SpanPolicy, Option<String>),
}

/// A step as plain contents.
pub enum StepView {
    Ignore,
    Publish(Broker),
    Deliver(Broker),
    NatsSend,
    Frame(SpanPolicy, Option<Seq<char>>),
}

impl View for BeginStep {
    type V = StepView;

    open spec fn view(&self) -> StepView {
        match self {
            BeginStep::Ignore => StepView::Ignore,
            BeginStep::Publish(b) => StepView::Publish(*b),
            BeginStep::Deliver(b) => StepView::Deliver(*b),
            BeginStep::NatsSend => StepView::NatsSend,
            BeginStep::Frame(p, url) => StepView::Frame(*p, opt_text(*url)),
        }
    }
}

/// The client behind a publish method.
pub open spec fn publish_broker(name: Seq<char>) -> Broker {
    if name == "RdKafka\\ProducerTopic::produce"@ || name == "RdKafka\\ProducerTopic::producev"@ {
        Broker::RdKafka
    } else if name == "PhpAmqpLib\\Channel\\AMQPChannel::basic_publish"@ {
        Broker::Amqplib
    } else {
        Broker::Bunny
    }
}

/// The client behind a dispatch method.
pub open spec fn dispatch_broker(name: Seq<char>) -> Broker {
    if name == "PhpAmqpLib\\Channel\\AMQPChannel::basic_deliver"@ {
        Broker::Amqplib
    } else if name == "Basis\\Nats\\Client::processMsg"@ {
        Broker::Nats
    } else {
        Broker::Bunny
    }
}

/// The target of a stream call.
pub open spec fn stream_target(call: Call) -> Option<Seq<char>> {
    capped(scalar_text(call.arg(0)), 2048)
}

/// How an I/O call goes: not at all when userland covers it, and a dual-purpose
/// stream call only when its target is remote.
pub open spec fn io_step(request: Request, call: Call, name: Seq<char>) -> StepView {
    if io_suppressed(request, name) {
        StepView::Frame(SpanPolicy::ObserveOnly, None)
    } else if dual_purpose(name) {
        match stream_target(call) {
            Some(target) => if remote_target(target) {
                StepView::Frame(SpanPolicy::IoSpan, Some(target))
            } else {
                StepView::Frame(SpanPolicy::ObserveOnly, None)
            },
            None => StepView::Frame(SpanPolicy::ObserveOnly, None),
        }
    } else {
        StepView::Frame(SpanPolicy::IoSpan, None)
    }
}

/// Which way a call goes when it begins. Suppression demotes to a paired frame;
/// so does an excluded file, but only for plain userland spans.
pub open spec fn step_of(
    policy: Option<SpanPolicy>,
    request: Request,
    excluded: Seq<Seq<char>>,
    call: Call,
    name: Seq<char>,
) -> StepView {
    match policy {
        None => StepView::Ignore,
        Some(SpanPolicy::MessagingPublish) => if request.suppress_messaging {
            StepView::Frame(SpanPolicy::ObserveOnly, None)
        } else {
            StepView::Publish(publish_broker(name))
        },
        Some(SpanPolicy::MessagingDeliver) => StepView::Deliver(dispatch_broker(name)),
        Some(SpanPolicy::MessagingNatsSend) => StepView::NatsSend,
        Some(SpanPolicy::MessagingPoll) => if request.suppress_messaging {
            StepView::Frame(SpanPolicy::ObserveOnly, None)
        } else {
            StepView::Frame(SpanPolicy::MessagingPoll, None)
        },
        Some(SpanPolicy::IoSpan) => io_step(request, call, name),
        Some(SpanPolicy::UserSpan) => match file_of(call) {
            Some(file) => if path_excluded(file, excluded) {
                StepView::Frame(SpanPolicy::ObserveOnly, None)
            } else {
                StepView::Frame(SpanPolicy::UserSpan, None)
            },
            None => StepView::Frame(SpanPolicy::UserSpan, None),
        },
        Some(SpanPolicy::ManifestSpan) => StepView::Frame(SpanPolicy::ManifestSpan, None),
        Some(SpanPolicy::ObserveOnly) => StepView::Frame(SpanPolicy::ObserveOnly, None),
    }
}

/// Which way a call goes when it begins.
pub fn begin_step(
    policy: Option<SpanPolicy>,
    request: &Request,
    settings: &ObserverSettings,
    call: &Call,
    name: &str,
) -> (r: BeginStep)
    ensures
        r@ == step_of(policy, *request, texts(settings.excluded_paths@), *call, name@),
{
    let policy = match policy {
        Some(p) => p,
        None => {
            return BeginStep::Ignore;
        },
    };
    match policy {
        SpanPolicy::MessagingPublish => {
            if request.suppress_messaging {
                return BeginStep::Frame(SpanPolicy::ObserveOnly, None);
            }
            if same(name, "RdKafka\\ProducerTopic::produce") || same(
                name,
                "RdKafka\\ProducerTopic::producev",
            ) {
                BeginStep::Publish(Broker::RdKafka)
            } else if same(name, "PhpAmqpLib\\Channel\\AMQPChannel::basic_publish") {
                BeginStep::Publish(Broker::Amqplib)
            } else {
                BeginStep::Publish(Broker::Bunny)
            }
        },
        SpanPolicy::MessagingDeliver => {
            if same(name, "PhpAmqpLib\\Channel\\AMQPChannel::basic_deliver") {
                BeginStep::Deliver(Broker::Amqplib)
            } else if same(name, "Basis\\Nats\\Client::processMsg") {
                BeginStep::Deliver(Broker::Nats)
            } else {
                BeginStep::Deliver(Broker::Bunny)
            }
        },
        SpanPolicy::MessagingNatsSend => BeginStep::NatsSend,
        SpanPolicy::MessagingPoll => {
            if request.suppress_messaging {
                BeginStep::Frame(SpanPolicy::ObserveOnly, None)
            } else {
                BeginStep::Frame(SpanPolicy::MessagingPoll, None)
            }
        },
        SpanPolicy::IoSpan => {
            if native_io_suppressed(request, name) {
                return BeginStep::Frame(SpanPolicy::ObserveOnly, None);
            }
            if is_dual_purpose_stream_function(name) {
                if let Some(target) = arg_scalar_string(call, 0, 2048) {
                    if is_remote_stream_target(target.as_str()) {
                        return BeginStep::Frame(SpanPolicy::IoSpan, Some(target));
                    }
                }
                return BeginStep::Frame(SpanPolicy::ObserveOnly, None);
            }
            BeginStep::Frame(SpanPolicy::IoSpan, None)
        },
        SpanPolicy::UserSpan => {
            if let Some(file) = defining_file(call) {
                if is_excluded_path(file.as_str(), settings.excluded_paths.as_slice()) {
                    return BeginStep::Frame(SpanPolicy::ObserveOnly, None);
                }
            }
            BeginStep::Frame(SpanPolicy::UserSpan, None)
        },
        SpanPolicy::ManifestSpan => BeginStep::Frame(SpanPolicy::ManifestSpan, None),
        SpanPolicy::ObserveOnly => BeginStep::Frame(SpanPolicy::ObserveOnly, None),
    }
}

/// A function that the application asked to trace is never demoted, whatever is
/// suppressed and wherever it is defined.
pub proof fn law_manifest_spans_are_never_demoted(
    request: Request,
    excluded: Seq<Seq<char>>,
    call: Call,
    name: Seq<char>,
)
    ensures
        step_of(Some(SpanPolicy::ManifestSpan), request, excluded, call, name)
            == StepView::Frame(SpanPolicy::ManifestSpan, None),
{
}

/// The client a subscribe method belongs to.
pub open spec fn subscribe_broker(name: Seq<char>) -> ConsumeSubscribeKind {
    if name == "PhpAmqpLib\\Channel\\AMQPChannel::basic_consume"@ {
        ConsumeSubscribeKind::Amqplib
    } else {
        ConsumeSubscribeKind::Bunny
    }
}

/// The header lists once a call has begun.
pub open spec fn lists_after(
    lists: Map<u32, Seq<Seq<char>>>,
    call: Call,
    name: Seq<char>,
) -> Map<u32, Seq<Seq<char>>> {
    if name == "curl_setopt"@ {
        noted(lists, handle_of(call), setopt_headers(call))
    } else if name == "curl_setopt_array"@ {
        noted(lists, handle_of(call), setopt_array_headers(call))
    } else {
        lists
    }
}

/// The subscribe methods that are known once a call has begun.
pub open spec fn subscribe_methods_after(
    fns: Seq<(u64, ConsumeSubscribeKind)>,
    messaging_auto: bool,
    call: Call,
    name: Seq<char>,
) -> Seq<(u64, ConsumeSubscribeKind)> {
    if name != "curl_setopt"@ && name != "curl_setopt_array"@ && messaging_auto
        && subscribe_method(name) && subscribe_kind(fns, call.function) is None {
        fns.push((call.function, subscribe_broker(name)))
    } else {
        fns
    }
}

/// Note what a call sets up for later ones: curl header lists, and where the
/// subscribe methods lie.
pub fn note_side_channels(
    observer: &mut Observer,
    settings: &ObserverSettings,
    call: &Call,
    name: &str,
)
    ensures
        header_lists(final(observer).handles.curl_headers@) == lists_after(
            header_lists(old(observer).handles.curl_headers@),
            *call,
            name@,
        ),
        final(observer).subscriptions.consume_fns@ == subscribe_methods_after(
            old(observer).subscriptions.consume_fns@,
            settings.messaging_auto,
            *call,
            name@,
        ),
        *final(observer) == (Observer {
            handles: Handles {
                curl_headers: final(observer).handles.curl_headers,
                ..old(observer).handles
            },
            subscriptions: Subscriptions {
                consume_fns: final(observer).subscriptions.consume_fns,
                ..old(observer).subscriptions
            },
            ..*old(observer)
        }),
{
    if same(name, "curl_setopt") {
        track_curl_setopt(&mut observer.handles.curl_headers, call);
    } else if same(name, "curl_setopt_array") {
        track_curl_setopt_array(&mut observer.handles.curl_headers, call);
    } else if is_messaging_subscribe(settings.messaging_auto, name) {
        let kind = if same(name, "PhpAmqpLib\\Channel\\AMQPChannel::basic_consume") {
            ConsumeSubscribeKind::Amqplib
        } else {
            ConsumeSubscribeKind::Bunny
        };
        remember_subscribe_method(&mut observer.subscriptions.consume_fns, call.function, kind);
    }
}

/// The last place at or before `i` where `p` stands in `s`, or -1.
pub open spec fn last_found(s: Seq<char>, p: Seq<char>, i: int) -> int
    decreases i + 1,
{
    if i < 0 {
        -1
    } else if found_at(s, p, i) {
        i
    } else {
        last_found(s, p, i - 1)
    }
}

/// What stands after the last `::` of a name, or the whole of it.
pub open spec fn method_of(name: Seq<char>) -> Seq<char> {
    let i = last_found(name, "::"@, name.len() as int);
    if i < 0 {
        name
    } else {
        name.skip(i + 2)
    }
}

fn method_part(name: &str) -> (r: String)
    ensures
        r@ == method_of(name@),
{
    let v = chars_of(name);
    let sep = chars_of("::");
    proof {
        reveal_strlit("::");
        assert("::"@.len() == 2);
    }
    let n: usize = v.len();
    let mut i: usize = n;
    loop
        invariant
            i <= n,
            n == v@.len(),
            v@ == name@,
            sep@ == "::"@,
            "::"@.len() == 2,
            last_found(name@, "::"@, i as int) == last_found(name@, "::"@, name@.len() as int),
        decreases i,
    {
        if matches_at(&v, &sep, i) {
            let r = string_of(&v, i + 2, n);
            assert(r@ =~= name@.skip(i + 2));
            return r;
        }
        if i == 0 {
            assert(last_found(name@, "::"@, -1) == -1);
            return copy(name);
        }
        i = i - 1;
    }
}

/// The direct queries: SQL in the first argument.
pub open spec fn direct_query(name: Seq<char>) -> bool {
    ||| name == "PDO::query"@
    ||| name == "PDO::exec"@
    ||| name == "PDO::prepare"@
    ||| name == "mysqli::query"@
    ||| name == "SQLite3::query"@
    ||| name == "SQLite3::exec"@
}

fn is_direct_query(name: &str) -> (r: bool)
    ensures
        r == direct_query(name@),
{
    same(name, "PDO::query") || same(name, "PDO::exec") || same(name, "PDO::prepare") || same(
        name,
        "mysqli::query",
    ) || same(name, "SQLite3::query") || same(name, "SQLite3::exec")
}

/// What the messaging vocabulary says of a request call: its destination and
/// label.
pub struct RpcWords {
    pub destination: Vec<(String, String)>,
    pub label: String,
}

/// A list with a cache client's system, and its key on data operations.
pub open spec fn with_cache(
    a: Seq<(Seq<char>, Seq<char>)>,
    system: Seq<char>,
    call: Call,
    name: Seq<char>,
) -> Seq<(Seq<char>, Seq<char>)> {
    with_some(
        a.push(("db.system"@, system)),
        "cache.key"@,
        if lifecycle(method_of(name)) {
            None
        } else {
            capped(scalar_text(call.arg(0)), 256)
        },
    )
}

/// A list with one value under two keys, when there is one.
pub open spec fn with_both(
    a: Seq<(Seq<char>, Seq<char>)>,
    key: Seq<char>,
    other: Seq<char>,
    value: Option<Seq<char>>,
) -> Seq<(Seq<char>, Seq<char>)> {
    with_some(with_some(a, key, value), other, value)
}

/// The SQL that was prepared into the statement a call is made on.
pub open spec fn prepared_sql(map: Map<u32, Seq<char>>, call: Call) -> Option<Seq<char>> {
    match call.this {
        Some(o) => if map.contains_key(o.handle) {
            Some(map[o.handle])
        } else {
            None
        },
        None => None,
    }
}

/// What an I/O call says on its span.
pub open spec fn with_io(
    a: Seq<(Seq<char>, Seq<char>)>,
    name: Seq<char>,
    call: Call,
    prepared: Map<u32, Seq<char>>,
    curl_url: Option<Seq<char>>,
    rpc: RpcWords,
) -> Seq<(Seq<char>, Seq<char>)> {
    let a = a.push(("span.kind"@, "client"@));
    if begins(name, "Redis::"@) || begins(name, "RedisCluster::"@) {
        with_cache(a, "redis"@, call, name)
    } else if begins(name, "Memcached::"@) {
        with_cache(a, "memcached"@, call, name)
    } else if direct_query(name) {
        with_both(a, "db.query.text"@, "db.statement"@, sql_argument(call, 0))
    } else if name == "mysqli_stmt::execute"@ || name == "SQLite3Stmt::execute"@ {
        with_both(a, "db.query.text"@, "db.statement"@, prepared_sql(prepared, call))
    } else if name == "curl_exec"@ {
        with_both(a, "url.full"@, "http.url"@, curl_url)
    } else if name == MESSAGING_NATS_RPC_METHOD@ && rpc_subject(call) is Some {
        a.push(("messaging.system"@, SYSTEM_NATS@)) + pairs(rpc.destination@)
    } else {
        a
    }
}

/// The subject of a NATS request call.
pub open spec fn rpc_subject(call: Call) -> Option<Seq<char>> {
    capped(scalar_text(call.arg(0)), 512)
}

/// Whether an I/O call is named after its subject.
pub open spec fn renamed(name: Seq<char>, call: Call) -> bool {
    &&& name == MESSAGING_NATS_RPC_METHOD@
    &&& rpc_subject(call) is Some
    &&& !begins(name, "Redis::"@)
    &&& !begins(name, "RedisCluster::"@)
    &&& !begins(name, "Memcached::"@)
    &&& !direct_query(name)
    &&& name != "mysqli_stmt::execute"@
    &&& name != "SQLite3Stmt::execute"@
    &&& name != "curl_exec"@
}

fn push_cache(list: &mut Vec<(String, String)>, system: &str, call: &Call, name: &str)
    ensures
        pairs(final(list)@) == with_cache(pairs(old(list)@), system@, *call, name@),
{
    push_pair(list, "db.system", system);
    let method = method_part(name);
    let key = if lifecycle_method(method.as_str()) {
        None
    } else {
        arg_scalar_string(call, 0, 256)
    };
    push_some(list, "cache.key", &key);
}

fn push_both(list: &mut Vec<(String, String)>, key: &str, other: &str, value: &Option<String>)
    ensures
        pairs(final(list)@) == with_both(pairs(old(list)@), key@, other@, opt_text(*value)),
{
    push_some(list, key, value);
    push_some(list, other, value);
}

/// Put what an I/O call says on its frame: the cache key, the statement, the
/// URL or the subject.
pub fn capture_io_detail(
    frame: &mut CallFrame,
    call: &Call,
    prepared: &HashMap<u32, String>,
    curl_url: &Option<String>,
    rpc: &RpcWords,
)
    ensures
        pairs(final(frame).attributes@) == with_io(
            pairs(old(frame).attributes@),
            old(frame).name@,
            *call,
            statements(prepared@),
            opt_text(*curl_url),
            *rpc,
        ),
        opt_text(final(frame).span_name) == if renamed(old(frame).name@, *call) {
            Some(rpc.label@)
        } else {
            opt_text(old(frame).span_name)
        },
        *final(frame) == (CallFrame {
            attributes: final(frame).attributes,
            span_name: final(frame).span_name,
            ..*old(frame)
        }),
{
    let name = frame.name.clone();
    let n = name.as_str();
    push_pair(&mut frame.attributes, "span.kind", "client");
    if starts_with(n, "Redis::") || starts_with(n, "RedisCluster::") {
        push_cache(&mut frame.attributes, "redis", call, n);
    } else if starts_with(n, "Memcached::") {
        push_cache(&mut frame.attributes, "memcached", call, n);
    } else if is_direct_query(n) {
        let sql = arg_scalar_string(call, 0, 4096);
        push_both(&mut frame.attributes, "db.query.text", "db.statement", &sql);
    } else if same(n, "mysqli_stmt::execute") || same(n, "SQLite3Stmt::execute") {
        let sql = match this_object_handle(call) {
            Some(handle) => match prepared.get(&handle) {
                Some(s) => Some(s.clone()),
                None => None,
            },
            None => None,
        };
        push_both(&mut frame.attributes, "db.query.text", "db.statement", &sql);
    } else if same(n, "curl_exec") {
        push_both(&mut frame.attributes, "url.full", "http.url", curl_url);
    } else if same(n, MESSAGING_NATS_RPC_METHOD) {
        if arg_scalar_string(call, 0, 512).is_some() {
            push_pair(&mut frame.attributes, "messaging.system", SYSTEM_NATS);
            push_list(&mut frame.attributes, &rpc.destination);
            frame.span_name = Some(rpc.label.clone());
        }
    }
}

/// What a begin handler brings to a call: the minted id and clocks, whether a
/// recording is active, what curl answered for the handle's URL, the words for
/// a request call, and how another tracer's propagation stands.
pub struct BeginInputs<'a> {
    pub minted: Minted,
    pub recording: bool,
    pub curl_url: Option<String>,
    pub rpc: RpcWords,
    pub priority_enabled: bool,
    pub foreign_setting: Option<&'a str>,
}

/// What a call's begin leads to: the frame to push, and what to put on a curl
/// handle.
pub struct FrameBegun {
    pub frame: Option<CallFrame>,
    pub injection: Option<CurlInjection>,
}

/// The attributes of a call that has just begun.
pub open spec fn begun_attributes(
    policy: SpanPolicy,
    stream_url: Option<Seq<char>>,
    name: Seq<char>,
    call: Call,
    prepared: Map<u32, Seq<char>>,
    curl_url: Option<Seq<char>>,
    rpc: RpcWords,
) -> Seq<(Seq<char>, Seq<char>)> {
    let a = if policy == SpanPolicy::IoSpan {
        with_both(
            with_io(Seq::empty(), name, call, prepared, curl_url, rpc),
            "url.full"@,
            "http.url"@,
            stream_url,
        )
    } else {
        Seq::empty()
    };
    let a = with_some(a, "code.filepath"@, file_of(call));
    with_if(
        a,
        policy == SpanPolicy::ManifestSpan,
        "chronos.instrumented"@,
        "manifest"@,
    )
}

/// The frame that a call gets: a paired one when it is only observed, a span's
/// inside a request, none otherwise.
pub open spec fn frame_of(
    request: Request,
    policy: SpanPolicy,
    stream_url: Option<Seq<char>>,
    name: Seq<char>,
    call: Call,
    prepared: Map<u32, Seq<char>>,
    inputs: BeginInputs<'_>,
) -> Option<FrameView> {
    if policy == SpanPolicy::ObserveOnly {
        fallback_frame(opt_context(request.context), inputs.recording, name)
    } else {
        match request.context {
            Some(c) => Some(
                FrameView {
                    attributes: begun_attributes(
                        policy,
                        stream_url,
                        name,
                        call,
                        prepared,
                        opt_text(inputs.curl_url),
                        inputs.rpc,
                    ),
                    span_name: if policy == SpanPolicy::IoSpan && renamed(name, call) {
                        Some(inputs.rpc.label@)
                    } else {
                        None
                    },
                    ..begun(c@, texts(request.span_stack@), name, policy, inputs.minted)
                },
            ),
            None => None,
        }
    }
}

/// Whether a call's `traceparent` goes onto a curl handle.
pub open spec fn goes_on_handle(request: Request, policy: SpanPolicy, name: Seq<char>) -> bool {
    policy != SpanPolicy::ObserveOnly && request.context is Some && name == "curl_exec"@
}

/// The header lists once a call's `traceparent` is on its curl handle.
pub open spec fn lists_begun(
    lists: Map<u32, Seq<Seq<char>>>,
    request: Request,
    policy: SpanPolicy,
    name: Seq<char>,
    call: Call,
    minted: Minted,
) -> Map<u32, Seq<Seq<char>>> {
    if goes_on_handle(request, policy, name) {
        match handle_of(call) {
            Some(handle) => lists.insert(
                handle,
                propagated(
                    list_of(lists, handle),
                    traceparent_of(request.context->0@, minted.span_id@),
                    request_tracestate(request),
                    request_baggage(request),
                ),
            ),
            None => lists,
        }
    } else {
        lists
    }
}

/// What beginning a call does about propagation. Only an outbound curl call
/// inside a request publishes its `traceparent`, claims priority, and has a
/// header list to set.
pub open spec fn injection_made(
    before: Observer,
    after: Observer,
    policy: SpanPolicy,
    name: Seq<char>,
    call: Call,
    inputs: BeginInputs<'_>,
    injection: Option<CurlInjection>,
) -> bool {
    &&& injection is Some <==> goes_on_handle(before.request, policy, name)
    &&& match injection {
        Some(injection) => {
            &&& opt_text(after.pending_traceparent) == Some(
                traceparent_of(before.request.context->0@, inputs.minted.span_id@),
            )
            &&& after.request.claim.claimed
            &&& write_view(injection.ini) == claim_write(
                before.request.claim.claimed,
                inputs.priority_enabled,
                inputs.foreign_setting,
            )
            &&& opt_texts(injection.headers) == match handle_of(call) {
                Some(handle) => Some(header_lists(after.handles.curl_headers@)[handle]),
                None => None,
            }
        },
        None => {
            &&& after.pending_traceparent == before.pending_traceparent
            &&& after.request.claim == before.request.claim
        },
    }
}

/// Begin a call under a policy.
pub fn begin_frame(
    observer: &mut Observer,
    call: &Call,
    name: &str,
    policy: SpanPolicy,
    stream_url: &Option<String>,
    inputs: &BeginInputs<'_>,
) -> (r: FrameBegun)
    ensures
        opt_frame(r.frame) == frame_of(
            old(observer).request,
            policy,
            opt_text(*stream_url),
            name@,
            *call,
            statements(old(observer).handles.prepared_statements@),
            *inputs,
        ),
        texts(final(observer).request.span_stack@) == match old(observer).request.context {
            Some(_) => begun_stack(
                texts(old(observer).request.span_stack@),
                policy,
                inputs.minted,
            ),
            None => texts(old(observer).request.span_stack@),
        },
        header_lists(final(observer).handles.curl_headers@) == lists_begun(
            header_lists(old(observer).handles.curl_headers@),
            old(observer).request,
            policy,
            name@,
            *call,
            inputs.minted,
        ),
        injection_made(
            *old(observer),
            *final(observer),
            policy,
            name@,
            *call,
            *inputs,
            r.injection,
        ),
        *final(observer) == (Observer {
            request: Request {
                span_stack: final(observer).request.span_stack,
                claim: final(observer).request.claim,
                ..old(observer).request
            },
            handles: Handles {
                curl_headers: final(observer).handles.curl_headers,
                ..old(observer).handles
            },
            pending_traceparent: final(observer).pending_traceparent,
            ..*old(observer)
        }),
{
    if policy == SpanPolicy::ObserveOnly {
        let frame = observe_only_fallback(observer, name, inputs.recording);
        return FrameBegun { frame, injection: None };
    }
    let mut frame = match &observer.request.context {
        None => {
            return FrameBegun { frame: None, injection: None };
        },
        Some(c) => on_begin(c, &mut observer.request.span_stack, name, policy, &inputs.minted),
    };
    if policy == SpanPolicy::IoSpan {
        capture_io_detail(
            &mut frame,
            call,
            &observer.handles.prepared_statements,
            &inputs.curl_url,
            &inputs.rpc,
        );
        push_both(&mut frame.attributes, "url.full", "http.url", stream_url);
    }
    let file = defining_file(call);
    push_some(&mut frame.attributes, "code.filepath", &file);
    push_if(
        &mut frame.attributes,
        policy == SpanPolicy::ManifestSpan,
        "chronos.instrumented",
        "manifest",
    );
    let injection = if same(name, "curl_exec") {
        match &frame.injected_traceparent {
            Some(traceparent) => Some(
                inject_curl_traceparent(
                    observer,
                    call,
                    traceparent.as_str(),
                    inputs.priority_enabled,
                    inputs.foreign_setting,
                ),
            ),
            None => None,
        }
    } else {
        None
    };
    FrameBegun { frame: Some(frame), injection }
}

/// What a call's begin came to.
pub enum CallBegun {
    /// Not observed.
    Ignored,
    /// A messaging client's own handler goes on from here.
    Handler(BeginStep),
    /// The call has begun.
    Framed(FrameBegun),
}

/// An observed call begins: decide its policy, note what it sets up for later
/// calls, and begin its frame. Messaging calls are handed to their client's own
/// handler.
pub fn begin_call(
    observer: &mut Observer,
    manifest: &Manifest,
    settings: &ObserverSettings,
    id: u32,
    call: &Call,
    name: &str,
    inputs: &BeginInputs<'_>,
) -> (r: CallBegun)
    ensures
        ({
            let policy = remembered(
                old(observer).policy_cache@,
                id as int,
                *manifest,
                *settings,
                name@,
                is_internal(*call),
            );
            let step = step_of(
                policy,
                old(observer).request,
                texts(settings.excluded_paths@),
                *call,
                name@,
            );
            &&& cache_updated(
                old(observer).policy_cache@,
                final(observer).policy_cache@,
                id as int,
                CachedPolicy { generation: manifest.generation, policy },
            )
            &&& match step {
                StepView::Frame(policy, url) => {
                    &&& r matches CallBegun::Framed(begun)
                    &&& opt_frame(begun.frame) == frame_of(
                        old(observer).request,
                        policy,
                        url,
                        name@,
                        *call,
                        statements(old(observer).handles.prepared_statements@),
                        *inputs,
                    )
                    &&& injection_made(
                        *old(observer),
                        *final(observer),
                        policy,
                        name@,
                        *call,
                        *inputs,
                        begun.injection,
                    )
                    &&& texts(final(observer).request.span_stack@) == match old(
                        observer,
                    ).request.context {
                        Some(_) => begun_stack(
                            texts(old(observer).request.span_stack@),
                            policy,
                            inputs.minted,
                        ),
                        None => texts(old(observer).request.span_stack@),
                    }
                    &&& header_lists(final(observer).handles.curl_headers@) == lists_begun(
                        lists_after(
                            header_lists(old(observer).handles.curl_headers@),
                            *call,
                            name@,
                        ),
                        old(observer).request,
                        policy,
                        name@,
                        *call,
                        inputs.minted,
                    )
                    &&& final(observer).subscriptions.consume_fns@ == subscribe_methods_after(
                        old(observer).subscriptions.consume_fns@,
                        settings.messaging_auto,
                        *call,
                        name@,
                    )
                    &&& *final(observer) == (Observer {
                        request: Request {
                            span_stack: final(observer).request.span_stack,
                            claim: final(observer).request.claim,
                            ..old(observer).request
                        },
                        handles: Handles {
                            curl_headers: final(observer).handles.curl_headers,
                            ..old(observer).handles
                        },
                        subscriptions: Subscriptions {
                            consume_fns: final(observer).subscriptions.consume_fns,
                            ..old(observer).subscriptions
                        },
                        pending_traceparent: final(observer).pending_traceparent,
                        policy_cache: final(observer).policy_cache,
                        ..*old(observer)
                    })
                },
                StepView::Ignore => {
                    &&& r is Ignored
                    &&& *final(observer) == (Observer {
                        policy_cache: final(observer).policy_cache,
                        ..*old(observer)
                    })
                },
                handed => {
                    &&& r matches CallBegun::Handler(to)
                    &&& to@ == handed
                    &&& *final(observer) == (Observer {
                        policy_cache: final(observer).policy_cache,
                        ..*old(observer)
                    })
                },
            }
        }),
{
    let internal = is_internal_function(call);
    let policy = cached_policy(
        &mut observer.policy_cache,
        manifest,
        settings,
        id,
        name,
        internal,
    );
    match begin_step(policy, &observer.request, settings, call, name) {
        BeginStep::Ignore => CallBegun::Ignored,
        BeginStep::Frame(policy, url) => {
            note_side_channels(observer, settings, call, name);
            CallBegun::Framed(begin_frame(observer, call, name, policy, &url, inputs))
        },
        handed => CallBegun::Handler(handed),
    }
}

/// The arguments of a call, when they are wanted: the request asked for them,
/// the function is userland code, and the application named it.
pub fn capture_tier_three_arguments(
    manifest: &Manifest,
    call: &Call,
    name: &str,
    arguments_active: bool,
    max_arguments: usize,
) -> (r: Option<(Vec<ScalarArgument>, u32)>)
    ensures
        r is Some <==> !is_internal(*call) && arguments_active && traced(
            texts(manifest.names@),
            name@,
        ) && call.args@.len() > 0,
        match r {
            Some(captured) => {
                &&& captured.0@.len() == lesser(call.args@.len() as int, max_arguments as int)
                &&& captured.1 == lesser(
                    call.args@.len() - captured.0@.len(),
                    u32::MAX as int,
                )
                &&& forall|i: int|
                    0 <= i < captured.0@.len() ==> records(#[trigger] captured.0@[i], *call, i)
            },
            None => true,
        },
{
    if is_internal_function(call) || !arguments_active {
        return None;
    }
    if !is_traced(manifest, name) {
        return None;
    }
    let (arguments, dropped) = capture_scalar_arguments(call, max_arguments);
    if arguments.len() == 0 && dropped == 0 {
        return None;
    }
    Some((arguments, dropped))
}

/// One argument as it is recorded: already redacted and cut.
pub struct CapturedArgument {
    pub position: u32,
    pub name: String,
    pub type_word: String,
    pub value: String,
    pub redacted: bool,
    pub truncated: bool,
}

/// What a recording keeps of one argument. Its type is always kept.
pub open spec fn with_argument(
    p: Seq<(Seq<char>, Seq<char>)>,
    a: CapturedArgument,
) -> Seq<(Seq<char>, Seq<char>)> {
    let prefix = "arg"@ + decimal(a.position as nat);
    let p = with_if(p, a.name@.len() > 0, prefix + ".name"@, a.name@);
    let p = p.push((prefix + ".type"@, a.type_word@));
    let p = with_if(p, a.value@.len() > 0, prefix + ".value"@, a.value@);
    let p = with_if(p, a.redacted, prefix + ".redacted"@, "true"@);
    with_if(p, a.truncated, prefix + ".truncated"@, "true"@)
}

/// What a recording keeps of a list of arguments.
pub open spec fn with_arguments(
    p: Seq<(Seq<char>, Seq<char>)>,
    arguments: Seq<CapturedArgument>,
) -> Seq<(Seq<char>, Seq<char>)>
    decreases arguments.len(),
{
    if arguments.len() == 0 {
        p
    } else {
        with_argument(with_arguments(p, arguments.drop_last()), arguments.last())
    }
}

fn key_of(prefix: &str, suffix: &str) -> (r: String)
    ensures
        r@ == prefix@ + suffix@,
{
    let mut k = copy(prefix);
    k.append(suffix);
    k
}

fn push_argument(list: &mut Vec<(String, String)>, a: &CapturedArgument)
    ensures
        pairs(final(list)@) == with_argument(pairs(old(list)@), *a),
{
    let number = decimal_text(a.position as u128);
    let prefix = key_of("arg", number.as_str());
    let p = prefix.as_str();
    push_if(list, !a.name.as_str().is_empty(), key_of(p, ".name").as_str(), a.name.as_str());
    push_pair(list, key_of(p, ".type").as_str(), a.type_word.as_str());
    push_if(list, !a.value.as_str().is_empty(), key_of(p, ".value").as_str(), a.value.as_str());
    push_if(list, a.redacted, key_of(p, ".redacted").as_str(), "true");
    push_if(list, a.truncated, key_of(p, ".truncated").as_str(), "true");
}

/// What an active recording keeps of a userland call that is entered at a depth
/// worth keeping.
pub fn record_call_path_enter(
    name: &str,
    is_internal: bool,
    recording: bool,
    depth: Option<u32>,
    arguments: &Vec<CapturedArgument>,
) -> (r: Option<Vec<(String, String)>>)
    ensures
        opt_pairs(r) == match depth {
            Some(d) => if !is_internal && recording {
                Some(
                    with_arguments(
                        seq![("name"@, name@), ("depth"@, decimal(d as nat))],
                        arguments@,
                    ),
                )
            } else {
                None
            },
            None => None,
        },
{
    if is_internal || !recording {
        return None;
    }
    let d = match depth {
        Some(d) => d,
        None => {
            return None;
        },
    };
    let mut payload: Vec<(String, String)> = Vec::new();
    push_pair(&mut payload, "name", name);
    push_pair(&mut payload, "depth", decimal_text(d as u128).as_str());
    let ghost head = seq![("name"@, name@), ("depth"@, decimal(d as nat))];
    assert(pairs(payload@) =~= head);
    let mut i: usize = 0;
    while i < arguments.len()
        invariant
            i <= arguments@.len(),
            pairs(payload@) == with_arguments(head, arguments@.take(i as int)),
        decreases arguments@.len() - i,
    {
        push_argument(&mut payload, &arguments[i]);
        assert(arguments@.take(i + 1).drop_last() =~= arguments@.take(i as int));
        i = i + 1;
    }
    assert(arguments@.take(arguments@.len() as int) =~= arguments@);
    Some(payload)
}

/// Whether leaving a call is counted by a recording: exactly the calls whose
/// entry could be.
pub fn record_call_path_leave(is_internal: bool, recording: bool) -> (r: bool)
    ensures
        r == (!is_internal && recording),
{
    !is_internal && recording
}

/// A frame and the function of the frame below it.
pub struct Popped {
    pub frame: CallFrame,
    pub caller: Option<u32>,
}

/// Take the innermost frame off the stack.
pub fn pop_frame(frames: &mut Vec<CallFrame>) -> (r: Option<Popped>)
    ensures
        r is Some <==> old(frames)@.len() > 0,
        match r {
            Some(p) => {
                &&& final(frames)@ == old(frames)@.drop_last()
                &&& p.frame == old(frames)@.last()
                &&& p.caller == if old(frames)@.len() > 1 {
                    Some(old(frames)@[old(frames)@.len() - 2].timing.function)
                } else {
                    None
                }
            },
            None => final(frames)@ == old(frames)@,
        },
{
    match frames.pop() {
        Some(frame) => {
            let caller = if frames.len() > 0 {
                Some(frames[frames.len() - 1].timing.function)
            } else {
                None
            };
            Some(Popped { frame, caller })
        },
        None => None,
    }
}

/// A sum of times that stays at the largest value once it is reached.
pub open spec fn saturated(a: u64, b: u64) -> u64 {
    if a + b > u64::MAX {
        u64::MAX
    } else {
        (a + b) as u64
    }
}

/// Hand a call's duration to the frame below, whose own time it is not.
pub fn credit_parent(frames: &mut Vec<CallFrame>, duration: u64)
    ensures
        final(frames)@.len() == old(frames)@.len(),
        frame_views(final(frames)@) == if old(frames)@.len() == 0 {
            frame_views(old(frames)@)
        } else {
            let i = old(frames)@.len() - 1;
            let f = old(frames)@[i]@;
            frame_views(old(frames)@).update(
                i,
                FrameView {
                    timing: FrameTiming {
                        child_nanoseconds: saturated(f.timing.child_nanoseconds, duration),
                        ..f.timing
                    },
                    ..f
                },
            )
        },
{
    let n: usize = frames.len();
    if n > 0 {
        let ghost before = frame_views(frames@);
        let spent: u64 = frames[n - 1].timing.child_nanoseconds.saturating_add(duration);
        frames[n - 1].timing.child_nanoseconds = spent;
        let ghost f = frames@[n - 1]@;
        assert(frame_views(frames@) =~= before.update(n - 1, f));
    }
}

/// The statements once a call has ended.
pub open spec fn statements_after(
    map: Map<u32, Seq<char>>,
    call: Call,
    retval: Zval,
    name: Seq<char>,
) -> Map<u32, Seq<char>> {
    if sql_prepare(name) {
        match retval {
            Zval::Object(o) => rebanked(
                map,
                o.handle,
                sql_argument(call, sql_arg_index(name) as int),
            ),
            _ => map,
        }
    } else if sql_this_prepare(name) {
        match call.this {
            Some(o) => rebanked(map, o.handle, sql_of_this(call, retval, name)),
            None => map,
        }
    } else {
        map
    }
}

/// A call has ended: remember the SQL it prepared.
pub fn bank_after_call(map: &mut HashMap<u32, String>, call: &Call, retval: &Zval, name: &str)
    ensures
        statements(final(map)@) == statements_after(
            statements(old(map)@),
            *call,
            *retval,
            name@,
        ),
{
    if sql_prepare_method(name) {
        bank_prepared_statement(map, call, retval, prepare_sql_arg_index(name));
    } else if sql_this_prepare_method(name) {
        rebank_prepared_statement_for_this(map, call, retval, name);
    }
}

/// What a recording keeps of a builtin's result: an environment read by the name
/// that was asked for, anything else by the function.
pub open spec fn result_payload(
    kind: DstEventKind,
    name: Seq<char>,
    call: Call,
    retval: Zval,
) -> Seq<(Seq<char>, Seq<char>)> {
    let value = or_empty(capped(scalar_text(retval), MAX_SCALAR_BYTES as nat));
    if kind == DstEventKind::EnvRead {
        seq![
            ("name"@, or_empty(capped(scalar_text(call.arg(0)), 4096))),
            ("value"@, value),
        ]
    } else {
        seq![("function"@, name), ("result"@, value)]
    }
}

/// What a recording keeps of a builtin that has returned.
pub fn record_result(name: &str, call: &Call, retval: &Zval) -> (r: Option<
    (DstEventKind, Vec<(String, String)>),
>)
    ensures
        match (r, dst_kind(name@)) {
            (Some(event), Some(kind)) => event.0 == kind && pairs(event.1@) == result_payload(
                kind,
                name@,
                *call,
                *retval,
            ),
            (None, None) => true,
            _ => false,
        },
{
    let kind = match dst_event_kind_for(name) {
        Some(kind) => kind,
        None => {
            return None;
        },
    };
    let value = match scalar_to_string(retval) {
        Some(v) => v,
        None => String::new(),
    };
    let mut payload: Vec<(String, String)> = Vec::new();
    if kind == DstEventKind::EnvRead {
        let asked = match arg_scalar_string(call, 0, 4096) {
            Some(v) => v,
            None => String::new(),
        };
        push_pair(&mut payload, "name", asked.as_str());
        push_pair(&mut payload, "value", value.as_str());
    } else {
        push_pair(&mut payload, "function", name);
        push_pair(&mut payload, "result", value.as_str());
    }
    assert(pairs(payload@) =~= result_payload(kind, name@, *call, *retval));
    Some((kind, payload))
}

/// The frames once one above them has ended: a recorded span keeps its parent.
pub open spec fn frames_after(frames: Seq<FrameView>, emitted: bool) -> Seq<FrameView> {
    if emitted && frames.len() > 0 {
        frames.update(frames.len() - 1, FrameView { kept_child: true, ..frames.last() })
    } else {
        frames
    }
}

/// End the call whose frame was popped.
pub fn end_frame(
    observer: &mut Observer,
    frame: CallFrame,
    threw: bool,
    min_nanos: u128,
    at: &EndReading,
) -> (r: Ended)
    ensures
        r.emitted == emits(
            frame@,
            threw,
            min_nanos as nat,
            *at,
            old(observer).request.spans@.len(),
        ),
        r.io_wait == if frame.emit_span && frame.io {
            Some(duration_of(frame@, *at) as u128)
        } else {
            None
        },
        span_views(final(observer).request.spans@) == if r.emitted {
            span_views(old(observer).request.spans@).push(ended_span(frame@, threw, *at))
        } else {
            span_views(old(observer).request.spans@)
        },
        texts(final(observer).request.span_stack@) == ended_stack(
            texts(old(observer).request.span_stack@),
            frame@,
        ),
        frame_views(final(observer).frames@) == frames_after(
            frame_views(old(observer).frames@),
            r.emitted,
        ),
        *final(observer) == (Observer {
            request: Request {
                spans: final(observer).request.spans,
                span_stack: final(observer).request.span_stack,
                ..old(observer).request
            },
            frames: final(observer).frames,
            ..*old(observer)
        }),
{
    let ended = on_end(
        &mut observer.request.spans,
        &mut observer.request.span_stack,
        frame,
        threw,
        min_nanos,
        at,
    );
    let n: usize = observer.frames.len();
    if ended.emitted && n > 0 {
        let ghost before = frame_views(observer.frames@);
        observer.frames[n - 1].kept_child = true;
        let ghost f = observer.frames@[n - 1]@;
        assert(frame_views(observer.frames@) =~= before.update(n - 1, f));
    }
    ended
}

/// What a finished transfer left to read, already encoded: curl's own facts, the
/// request headers, the attributes of the captured body, and the timeline.
pub struct TransferFacts {
    pub info: Vec<(String, String)>,
    pub request_headers: Option<String>,
    pub body: Vec<(String, String)>,
    pub timeline: Option<String>,
}

/// What an end handler brings to a call: whether an exception is propagating,
/// whether a recording is active, the shortest span worth keeping, the clocks,
/// what a transfer left when capturing is on, what the messaging vocabulary
/// says of a poll, and the route that a deferred delivery turned out to have.
pub struct EndInputs {
    pub threw: bool,
    pub recording: bool,
    pub min_nanos: u128,
    pub at: EndReading,
    pub transfer: Option<TransferFacts>,
    pub poll: PollWords,
    pub resolved: String,
}

/// What a call's end leads to: a serialized message to remember, an event to
/// record, whether a recording counts the leave, a message-scoped request to
/// close, and what became of the span.
pub struct CallEnded {
    pub serialized: Option<SerializedMessage>,
    pub event: Option<(DstEventKind, Vec<(String, String)>)>,
    pub leaves: bool,
    pub close: Option<DeliveryClose>,
    pub ended: Ended,
}

/// The frame of a call once everything that only its end can tell is on it.
pub open spec fn told_frame(
    frame: FrameView,
    retval: Zval,
    transfer: Option<TransferFacts>,
    poll: PollWords,
) -> FrameView {
    let frame = match transfer {
        Some(t) => if frame.name == "curl_exec"@ {
            FrameView {
                attributes: frame.attributes + transfer_attributes(
                    pairs(t.info@),
                    opt_text(t.request_headers),
                    pairs(t.body@),
                    opt_text(t.timeline),
                ),
                ..frame
            }
        } else {
            frame
        },
        None => frame,
    };
    if sql_prepare(frame.name) || sql_this_prepare(frame.name) || frame.name
        == PROTOBUF_SERIALIZE_METHOD@ || !poll_method(frame.name) {
        frame
    } else {
        polled_frame(frame, retval, poll)
    }
}

/// Whether an event is what a recording keeps of a builtin that has returned.
pub open spec fn event_recorded(
    event: Option<(DstEventKind, Vec<(String, String)>)>,
    name: Seq<char>,
    call: Call,
    retval: Zval,
    recording: bool,
) -> bool {
    match (event, dst_kind(name)) {
        (Some(e), Some(kind)) => recording && e.0 == kind && pairs(e.1@) == result_payload(
            kind,
            name,
            call,
            retval,
        ),
        (None, Some(_)) => !recording,
        (None, None) => true,
        (Some(_), None) => false,
    }
}

/// Whether a message is what a call's end leaves of a serializer call.
pub open spec fn serialized_by(
    message: Option<SerializedMessage>,
    name: Seq<char>,
    call: Call,
    retval: Zval,
) -> bool {
    if sql_prepare(name) || sql_this_prepare(name) || name != PROTOBUF_SERIALIZE_METHOD@ {
        message is None
    } else {
        serialized(message, call, retval)
    }
}

/// Whether a close is that of a frame's message-scoped request.
pub open spec fn closed_by(
    close: Option<DeliveryClose>,
    frame: FrameView,
    before: Observer,
    inputs: EndInputs,
) -> bool {
    match close {
        Some(c) => frame.owns_delivery_scope && delivery_closed(
            c,
            before,
            inputs.resolved@,
            inputs.threw,
        ),
        None => !frame.owns_delivery_scope,
    }
}

/// Put on a frame what only its call's end can tell, and remember what later
/// calls need of it.
fn tell_end(
    observer: &mut Observer,
    frame: CallFrame,
    call: &Call,
    retval: &Zval,
    transfer: Option<TransferFacts>,
    poll: &PollWords,
) -> (r: (CallFrame, Option<SerializedMessage>))
    ensures
        r.0@ == told_frame(frame@, *retval, transfer, *poll),
        serialized_by(r.1, frame.name@, *call, *retval),
        statements(final(observer).handles.prepared_statements@) == statements_after(
            statements(old(observer).handles.prepared_statements@),
            *call,
            *retval,
            frame.name@,
        ),
        *final(observer) == (Observer {
            handles: Handles {
                prepared_statements: final(observer).handles.prepared_statements,
                ..old(observer).handles
            },
            ..*old(observer)
        }),
{
    let mut frame = frame;
    let name = frame.name.clone();
    let n = name.as_str();
    if same(n, "curl_exec") {
        if let Some(t) = transfer {
            capture_curl_result(&mut frame, &t.info, &t.request_headers, t.body, &t.timeline);
        }
    }
    let mut serialized = None;
    if sql_prepare_method(n) || sql_this_prepare_method(n) {
        bank_after_call(&mut observer.handles.prepared_statements, call, retval, n);
    } else if same(n, PROTOBUF_SERIALIZE_METHOD) {
        serialized = bank_serialized_message(call, retval);
    } else if poll_method_name(n) {
        capture_messaging_poll_result(&mut frame, retval, poll);
    }
    (frame, serialized)
}

/// An observed call has ended and its frame was popped: put on the frame what
/// only the end can tell, remember what later calls need, record, close the
/// request that the frame opened, and end the frame.
pub fn end_call(
    observer: &mut Observer,
    frame: CallFrame,
    call: &Call,
    retval: &Zval,
    inputs: EndInputs,
) -> (r: CallEnded)
    ensures
        ({
            let told = told_frame(frame@, *retval, inputs.transfer, inputs.poll);
            let before = *old(observer);
            let after = *final(observer);
            &&& serialized_by(r.serialized, frame.name@, *call, *retval)
            &&& event_recorded(r.event, frame.name@, *call, *retval, inputs.recording)
            &&& r.leaves == (inputs.recording && !is_internal(*call))
            &&& closed_by(r.close, frame@, before, inputs)
            &&& r.ended.emitted == emits(
                told,
                inputs.threw,
                inputs.min_nanos as nat,
                inputs.at,
                before.request.spans@.len(),
            )
            &&& r.ended.io_wait == if told.emit_span && told.io {
                Some(duration_of(told, inputs.at) as u128)
            } else {
                None
            }
            &&& span_views(after.request.spans@) == if r.ended.emitted {
                span_views(before.request.spans@).push(ended_span(told, inputs.threw, inputs.at))
            } else {
                span_views(before.request.spans@)
            }
            &&& texts(after.request.span_stack@) == ended_stack(
                texts(before.request.span_stack@),
                told,
            )
            &&& frame_views(after.frames@) == frames_after(
                frame_views(before.frames@),
                r.ended.emitted,
            )
            &&& statements(after.handles.prepared_statements@) == statements_after(
                statements(before.handles.prepared_statements@),
                *call,
                *retval,
                frame.name@,
            )
            &&& after == (Observer {
                request: Request {
                    spans: after.request.spans,
                    span_stack: after.request.span_stack,
                    ..before.request
                },
                handles: Handles {
                    prepared_statements: after.handles.prepared_statements,
                    ..before.handles
                },
                frames: after.frames,
                delivery_scope: if frame.owns_delivery_scope {
                    None
                } else {
                    before.delivery_scope
                },
                ..before
            })
        }),
{
    let name = frame.name.clone();
    let (frame, serialized) = tell_end(
        observer,
        frame,
        call,
        retval,
        inputs.transfer,
        &inputs.poll,
    );
    let mut event = None;
    let mut leaves = false;
    if inputs.recording {
        event = record_result(name.as_str(), call, retval);
        leaves = record_call_path_leave(is_internal_function(call), true);
    }
    let close = if frame.owns_delivery_scope {
        Some(close_messaging_delivery(observer, inputs.resolved, inputs.threw))
    } else {
        None
    };
    let ended = end_frame(observer, frame, inputs.threw, inputs.min_nanos, &inputs.at);
    CallEnded { serialized, event, leaves, close, ended }
}

/// Once a call's span is recorded, the frame of the call that made it is worth
/// keeping too, however it ends and however short it is.
pub proof fn law_a_recorded_child_keeps_its_parent(
    frames: Seq<FrameView>,
    threw: bool,
    min_nanos: nat,
    at: EndReading,
)
    requires
        frames.len() > 0,
    ensures
        worth_keeping(frames_after(frames, true).last(), threw, min_nanos, at),
        frames_after(frames, true).len() == frames.len(),
        frames_after(frames, true).drop_last() == frames.drop_last(),
{
    assert(frames_after(frames, true).drop_last() =~= frames.drop_last());
}

/// Whether a list of attributes is another with more at its end.
pub open spec fn goes_on(
    before: Seq<(String, String)>,
    after: Seq<(String, String)>,
    more: Seq<(Seq<char>, Seq<char>)>,
) -> bool {
    pairs(after) == pairs(before) + more
}

/// A direct query says its SQL: for each of them, the text of the first argument,
/// cut to 4096 bytes, stands on the span under both names, after the kind of the
/// span. Without a text there only the kind is said.
pub proof fn law_a_query_says_its_sql(
    frame: &mut CallFrame,
    call: &Call,
    prepared: &HashMap<u32, String>,
    curl_url: &Option<String>,
    rpc: &RpcWords,
    sql: Option<String>,
)
    requires
        call_ensures(capture_io_detail, (frame, call, prepared, curl_url, rpc), ()),
        call_ensures(arg_scalar_string, (call, 0usize, 4096usize), sql),
        ({
            let name = old(frame).name@;
            name == "PDO::query"@ || name == "PDO::exec"@ || name == "PDO::prepare"@ || name == "mysqli::query"@ || name == "SQLite3::query"@ || name == "SQLite3::exec"@
        }),
    ensures
        sql matches Some(text) ==> goes_on(
            old(frame).attributes@,
            final(frame).attributes@,
            seq![
                ("span.kind"@, "client"@),
                ("db.query.text"@, text@),
                ("db.statement"@, text@),
            ],
        ),
        sql is None ==> goes_on(
            old(frame).attributes@,
            final(frame).attributes@,
            seq![("span.kind"@, "client"@)],
        ),
        opt_text(final(frame).span_name) == opt_text(old(frame).span_name),
        final(frame).name == old(frame).name,
        final(frame).span_id == old(frame).span_id,
{
    reveal_strlit("PDO::query");
    reveal_strlit("PDO::exec");
    reveal_strlit("PDO::prepare");
    reveal_strlit("mysqli::query");
    reveal_strlit("SQLite3::query");
    reveal_strlit("SQLite3::exec");
    reveal_strlit("Basis\\Nats\\Client::dispatch");
    assert("PDO::query"@.len() == 10);
    assert("PDO::exec"@.len() == 9);
    assert("PDO::prepare"@.len() == 12);
    assert("mysqli::query"@.len() == 13);
    assert("SQLite3::query"@.len() == 14);
    assert("SQLite3::exec"@.len() == 13);
    assert("Basis\\Nats\\Client::dispatch"@.len() == 27);
    reveal_strlit("Redis::");
    reveal_strlit("RedisCluster::");
    reveal_strlit("Memcached::");
    assert("Redis::"@.len() == 7);
    assert("RedisCluster::"@.len() == 14);
    assert("Memcached::"@.len() == 11);
    lemma_begins_with("PDO::query"@, "Redis::"@, 0);
    lemma_begins_with("PDO::query"@, "RedisCluster::"@, 0);
    lemma_begins_with("PDO::query"@, "Memcached::"@, 0);
    lemma_begins_with("PDO::exec"@, "Redis::"@, 0);
    lemma_begins_with("PDO::exec"@, "RedisCluster::"@, 0);
    lemma_begins_with("PDO::exec"@, "Memcached::"@, 0);
    lemma_begins_with("PDO::prepare"@, "Redis::"@, 0);
    lemma_begins_with("PDO::prepare"@, "RedisCluster::"@, 0);
    lemma_begins_with("PDO::prepare"@, "Memcached::"@, 0);
    lemma_begins_with("mysqli::query"@, "Redis::"@, 0);
    lemma_begins_with("mysqli::query"@, "RedisCluster::"@, 0);
    lemma_begins_with("mysqli::query"@, "Memcached::"@, 0);
    lemma_begins_with("SQLite3::query"@, "Redis::"@, 0);
    lemma_begins_with("SQLite3::query"@, "RedisCluster::"@, 0);
    lemma_begins_with("SQLite3::query"@, "Memcached::"@, 0);
    lemma_begins_with("SQLite3::exec"@, "Redis::"@, 0);
    lemma_begins_with("SQLite3::exec"@, "RedisCluster::"@, 0);
    lemma_begins_with("SQLite3::exec"@, "Memcached::"@, 0);
    let a = pairs(old(frame).attributes@);
    let after = pairs(final(frame).attributes@);
    if let Some(text) = sql {
        assert(after =~= a + seq![
            ("span.kind"@, "client"@),
            ("db.query.text"@, text@),
            ("db.statement"@, text@),
        ]);
    } else {
        assert(after =~= a + seq![("span.kind"@, "client"@)]);
    }
}

/// The SQL of a direct query is its first argument itself, where that is a text of
/// at most 4096 bytes.
pub proof fn law_a_query_says_its_first_argument(
    frame: &mut CallFrame,
    call: &Call,
    prepared: &HashMap<u32, String>,
    curl_url: &Option<String>,
    rpc: &RpcWords,
    text: Seq<char>,
)
    requires
        call_ensures(capture_io_detail, (frame, call, prepared, curl_url, rpc), ()),
        call.args@.len() > 0,
        is_text(call.args@[0], text),
        vstd::utf8::encode_utf8(text).len() <= 4096,
        ({
            let name = old(frame).name@;
            name == "PDO::query"@ || name == "PDO::exec"@ || name == "PDO::prepare"@ || name == "mysqli::query"@ || name == "SQLite3::query"@ || name == "SQLite3::exec"@
        }),
    ensures
        goes_on(
            old(frame).attributes@,
            final(frame).attributes@,
            seq![("span.kind"@, "client"@), ("db.query.text"@, text), ("db.statement"@, text)],
        ),
{
    reveal_strlit("PDO::query");
    reveal_strlit("PDO::exec");
    reveal_strlit("PDO::prepare");
    reveal_strlit("mysqli::query");
    reveal_strlit("SQLite3::query");
    reveal_strlit("SQLite3::exec");
    reveal_strlit("Basis\\Nats\\Client::dispatch");
    assert("PDO::query"@.len() == 10);
    assert("PDO::exec"@.len() == 9);
    assert("PDO::prepare"@.len() == 12);
    assert("mysqli::query"@.len() == 13);
    assert("SQLite3::query"@.len() == 14);
    assert("SQLite3::exec"@.len() == 13);
    assert("Basis\\Nats\\Client::dispatch"@.len() == 27);
    reveal_strlit("Redis::");
    reveal_strlit("RedisCluster::");
    reveal_strlit("Memcached::");
    assert("Redis::"@.len() == 7);
    assert("RedisCluster::"@.len() == 14);
    assert("Memcached::"@.len() == 11);
    lemma_begins_with("PDO::query"@, "Redis::"@, 0);
    lemma_begins_with("PDO::query"@, "RedisCluster::"@, 0);
    lemma_begins_with("PDO::query"@, "Memcached::"@, 0);
    lemma_begins_with("PDO::exec"@, "Redis::"@, 0);
    lemma_begins_with("PDO::exec"@, "RedisCluster::"@, 0);
    lemma_begins_with("PDO::exec"@, "Memcached::"@, 0);
    lemma_begins_with("PDO::prepare"@, "Redis::"@, 0);
    lemma_begins_with("PDO::prepare"@, "RedisCluster::"@, 0);
    lemma_begins_with("PDO::prepare"@, "Memcached::"@, 0);
    lemma_begins_with("mysqli::query"@, "Redis::"@, 0);
    lemma_begins_with("mysqli::query"@, "RedisCluster::"@, 0);
    lemma_begins_with("mysqli::query"@, "Memcached::"@, 0);
    lemma_begins_with("SQLite3::query"@, "Redis::"@, 0);
    lemma_begins_with("SQLite3::query"@, "RedisCluster::"@, 0);
    lemma_begins_with("SQLite3::query"@, "Memcached::"@, 0);
    lemma_begins_with("SQLite3::exec"@, "Redis::"@, 0);
    lemma_begins_with("SQLite3::exec"@, "RedisCluster::"@, 0);
    lemma_begins_with("SQLite3::exec"@, "Memcached::"@, 0);
    vstd::utf8::encode_utf8_valid_utf8(text);
    vstd::utf8::encode_utf8_decode_utf8(text);
    assert(scalar_text(call.arg(0)) == Some(text));
    assert(crate::text::fitting(text, 4096) == text);
    let a = pairs(old(frame).attributes@);
    assert(pairs(final(frame).attributes@) =~= a + seq![
        ("span.kind"@, "client"@),
        ("db.query.text"@, text),
        ("db.statement"@, text),
    ]);
}

/// An executed statement says the SQL that was prepared into it, and nothing where
/// none is known; a transfer says its URL; a request over NATS says where it goes
/// and is named after that.
pub proof fn law_statements_transfers_and_requests_say_theirs(
    frame: &mut CallFrame,
    call: &Call,
    prepared: &HashMap<u32, String>,
    curl_url: &Option<String>,
    rpc: &RpcWords,
    subject: Option<String>,
)
    requires
        call_ensures(capture_io_detail, (frame, call, prepared, curl_url, rpc), ()),
        call_ensures(arg_scalar_string, (call, 0usize, 512usize), subject),
    ensures
        ({
            let name = old(frame).name@;
            let before = old(frame).attributes@;
            let after = final(frame).attributes@;
            let statement = name == "mysqli_stmt::execute"@ || name == "SQLite3Stmt::execute"@;
            let known = call.this is Some && prepared@.contains_key(call.this->0.handle);
            &&& statement && known ==> goes_on(
                before,
                after,
                seq![
                    ("span.kind"@, "client"@),
                    ("db.query.text"@, prepared@[call.this->0.handle]@),
                    ("db.statement"@, prepared@[call.this->0.handle]@),
                ],
            )
            &&& statement && !known ==> goes_on(before, after, seq![("span.kind"@, "client"@)])
            &&& name == "curl_exec"@ ==> match *curl_url {
                Some(url) => goes_on(
                    before,
                    after,
                    seq![("span.kind"@, "client"@), ("url.full"@, url@), ("http.url"@, url@)],
                ),
                None => goes_on(before, after, seq![("span.kind"@, "client"@)]),
            }
            &&& name == "Basis\\Nats\\Client::dispatch"@ && subject is Some ==> goes_on(
                before,
                after,
                seq![("span.kind"@, "client"@), ("messaging.system"@, "nats"@)] + pairs(
                    rpc.destination@,
                ),
            )
            &&& name == "Basis\\Nats\\Client::dispatch"@ && subject is Some ==> opt_text(final(frame).span_name) == Some(
                rpc.label@,
            )
            &&& name == "Basis\\Nats\\Client::dispatch"@ && subject is None ==> goes_on(
                before,
                after,
                seq![("span.kind"@, "client"@)],
            )
        }),
{
    reveal_strlit("PDO::query");
    reveal_strlit("PDO::exec");
    reveal_strlit("PDO::prepare");
    reveal_strlit("mysqli::query");
    reveal_strlit("SQLite3::query");
    reveal_strlit("SQLite3::exec");
    reveal_strlit("mysqli_stmt::execute");
    reveal_strlit("SQLite3Stmt::execute");
    reveal_strlit("curl_exec");
    reveal_strlit("Basis\\Nats\\Client::dispatch");
    assert("PDO::query"@.len() == 10);
    assert("PDO::exec"@.len() == 9);
    assert("PDO::prepare"@.len() == 12);
    assert("mysqli::query"@.len() == 13);
    assert("SQLite3::query"@.len() == 14);
    assert("SQLite3::exec"@.len() == 13);
    assert("mysqli_stmt::execute"@.len() == 20);
    assert("SQLite3Stmt::execute"@.len() == 20);
    assert("curl_exec"@.len() == 9);
    assert("Basis\\Nats\\Client::dispatch"@.len() == 27);
    assert("PDO::exec"@[0] != "curl_exec"@[0]);
    assert("mysqli_stmt::execute"@[0] != "SQLite3Stmt::execute"@[0]);
    assert("SQLite3Stmt::execute"@[0] != "mysqli_stmt::execute"@[0]);
    reveal_strlit("Redis::");
    reveal_strlit("RedisCluster::");
    reveal_strlit("Memcached::");
    assert("Redis::"@.len() == 7);
    assert("RedisCluster::"@.len() == 14);
    assert("Memcached::"@.len() == 11);
    lemma_begins_with("mysqli_stmt::execute"@, "Redis::"@, 0);
    lemma_begins_with("mysqli_stmt::execute"@, "RedisCluster::"@, 0);
    lemma_begins_with("mysqli_stmt::execute"@, "Memcached::"@, 0);
    lemma_begins_with("SQLite3Stmt::execute"@, "Redis::"@, 0);
    lemma_begins_with("SQLite3Stmt::execute"@, "RedisCluster::"@, 0);
    lemma_begins_with("SQLite3Stmt::execute"@, "Memcached::"@, 0);
    lemma_begins_with("curl_exec"@, "Redis::"@, 0);
    lemma_begins_with("curl_exec"@, "RedisCluster::"@, 0);
    lemma_begins_with("curl_exec"@, "Memcached::"@, 0);
    lemma_begins_with("Basis\\Nats\\Client::dispatch"@, "Redis::"@, 0);
    lemma_begins_with("Basis\\Nats\\Client::dispatch"@, "RedisCluster::"@, 0);
    lemma_begins_with("Basis\\Nats\\Client::dispatch"@, "Memcached::"@, 0);
    let a = pairs(old(frame).attributes@);
    let after = pairs(final(frame).attributes@);
    let one = seq![("span.kind"@, "client"@)];
    assert(a + one =~= a.push(("span.kind"@, "client"@)));
    if call.this is Some && prepared@.contains_key(call.this->0.handle) {
        let text = prepared@[call.this->0.handle]@;
        let three = seq![
            ("span.kind"@, "client"@),
            ("db.query.text"@, text),
            ("db.statement"@, text),
        ];
        assert(a + three =~= a.push(("span.kind"@, "client"@)).push(("db.query.text"@, text)).push(
            ("db.statement"@, text),
        ));
    }
    if let Some(url) = *curl_url {
        let three = seq![("span.kind"@, "client"@), ("url.full"@, url@), ("http.url"@, url@)];
        assert(a + three =~= a.push(("span.kind"@, "client"@)).push(("url.full"@, url@)).push(
            ("http.url"@, url@),
        ));
    }
    let two = seq![("span.kind"@, "client"@), ("messaging.system"@, "nats"@)];
    assert(a + (two + pairs(rpc.destination@)) =~= a.push(("span.kind"@, "client"@)).push(
        ("messaging.system"@, "nats"@),
    ) + pairs(rpc.destination@));
}

proof fn lemma_last_found_none(s: Seq<char>, p: Seq<char>, i: int)
    requires
        forall|j: int| 0 <= j <= i ==> !#[trigger] found_at(s, p, j),
    ensures
        last_found(s, p, i) == -1,
    decreases i + 1,
{
    if i >= 0 {
        assert(!found_at(s, p, i));
        lemma_last_found_none(s, p, i - 1);
    }
}

proof fn lemma_last_found(s: Seq<char>, p: Seq<char>, k: int, i: int)
    requires
        0 <= k <= i,
        found_at(s, p, k),
        forall|j: int| k < j <= i ==> !#[trigger] found_at(s, p, j),
    ensures
        last_found(s, p, i) == k,
    decreases i + 1,
{
    if i > k {
        assert(!found_at(s, p, i));
        lemma_last_found(s, p, k, i - 1);
    }
}

proof fn lemma_method(class: Seq<char>, method: Seq<char>)
    requires
        !method.contains(':'),
    ensures
        method_of(class + "::"@ + method) == method,
{
    reveal_strlit("::");
    let name = class + "::"@ + method;
    let k = class.len() as int;
    assert(name.subrange(k, k + 2) =~= "::"@);
    assert forall|j: int| k < j <= name.len() implies !#[trigger] found_at(name, "::"@, j) by {
        if found_at(name, "::"@, j) {
            assert(name.subrange(j, j + 2)[1] == ':');
            assert(name[j + 1] == ':');
            assert(method[j + 1 - (k + 2)] == ':');
        }
    }
    lemma_last_found(name, "::"@, k, name.len() as int);
    assert(name.skip(k + 2) =~= method);
}

/// A cache call says its client and, for a data operation, its key: the first
/// argument, cut to 256 bytes. A method that only manages the connection says no
/// key.
pub proof fn law_a_cache_call_says_its_key(
    frame: &mut CallFrame,
    call: &Call,
    prepared: &HashMap<u32, String>,
    curl_url: &Option<String>,
    rpc: &RpcWords,
    method: &str,
    manages: bool,
    key: Option<String>,
)
    requires
        call_ensures(capture_io_detail, (frame, call, prepared, curl_url, rpc), ()),
        call_ensures(lifecycle_method, (method,), manages),
        call_ensures(arg_scalar_string, (call, 0usize, 256usize), key),
        !method@.contains(':'),
    ensures
        ({
            let name = old(frame).name@;
            let before = old(frame).attributes@;
            let after = final(frame).attributes@;
            let redis = name == "Redis"@ + "::"@ + method@ || name == "RedisCluster"@ + "::"@
                + method@;
            let memcached = name == "Memcached"@ + "::"@ + method@;
            let system = if redis {
                "redis"@
            } else {
                "memcached"@
            };
            &&& (redis || memcached) && (manages || key is None) ==> goes_on(
                before,
                after,
                seq![("span.kind"@, "client"@), ("db.system"@, system)],
            )
            &&& (redis || memcached) && !manages && key is Some ==> goes_on(
                before,
                after,
                seq![
                    ("span.kind"@, "client"@),
                    ("db.system"@, system),
                    ("cache.key"@, key->0@),
                ],
            )
        }),
{
    reveal_strlit("Redis");
    reveal_strlit("RedisCluster");
    reveal_strlit("Memcached");
    reveal_strlit("::");
    reveal_strlit("Redis::");
    reveal_strlit("RedisCluster::");
    reveal_strlit("Memcached::");
    let name = old(frame).name@;
    let m = method@;
    let a = pairs(old(frame).attributes@);
    let after = pairs(final(frame).attributes@);
    assert("Redis"@ + "::"@ =~= "Redis::"@);
    assert("RedisCluster"@ + "::"@ =~= "RedisCluster::"@);
    assert("Memcached"@ + "::"@ =~= "Memcached::"@);
    lemma_method("Redis"@, m);
    lemma_method("RedisCluster"@, m);
    lemma_method("Memcached"@, m);
    if name == "Redis"@ + "::"@ + m {
        assert(name.subrange(0, 7) =~= "Redis::"@);
        assert(name[0] == 'R');
        lemma_begins_with(name, "Memcached::"@, 0);
    }
    if name == "RedisCluster"@ + "::"@ + m {
        assert(name.subrange(0, 14) =~= "RedisCluster::"@);
        assert(name[0] == 'R');
        lemma_begins_with(name, "Memcached::"@, 0);
    }
    if name == "Memcached"@ + "::"@ + m {
        assert(name.subrange(0, 11) =~= "Memcached::"@);
        assert(name[0] == 'M');
        lemma_begins_with(name, "Redis::"@, 0);
        lemma_begins_with(name, "RedisCluster::"@, 0);
    }
    let r = seq![("span.kind"@, "client"@), ("db.system"@, "redis"@)];
    let c = seq![("span.kind"@, "client"@), ("db.system"@, "memcached"@)];
    assert(a + r =~= a.push(("span.kind"@, "client"@)).push(("db.system"@, "redis"@)));
    assert(a + c =~= a.push(("span.kind"@, "client"@)).push(("db.system"@, "memcached"@)));
    if let Some(k) = key {
        let e = ("cache.key"@, k@);
        let r3 = seq![("span.kind"@, "client"@), ("db.system"@, "redis"@), ("cache.key"@, k@)];
        let c3 = seq![("span.kind"@, "client"@), ("db.system"@, "memcached"@), ("cache.key"@, k@)];
        assert(a + r3 =~= a.push(("span.kind"@, "client"@)).push(("db.system"@, "redis"@)).push(e));
        assert(a + c3 =~= a.push(("span.kind"@, "client"@)).push(("db.system"@, "memcached"@)).push(
            e,
        ));
    }
}

/// A begun call carries what an I/O call says, then a remote stream's target as its
/// URL, then the file that defines its function, then the mark of the manifest.
/// Only an I/O call says anything of its own; only a call the application asked for
/// has the mark.
pub proof fn law_a_begun_frame_says_what_it_knows(
    observer: &mut Observer,
    call: &Call,
    name: &str,
    policy: SpanPolicy,
    stream_url: &Option<String>,
    inputs: &BeginInputs<'_>,
    r: FrameBegun,
    bare_frame: &mut CallFrame,
    prepared: &HashMap<u32, String>,
    file: Option<String>,
)
    requires
        call_ensures(begin_frame, (observer, call, name, policy, stream_url, inputs), r),
        old(observer).request.context is Some,
        policy != SpanPolicy::ObserveOnly,
        *prepared == old(observer).handles.prepared_statements,
        old(bare_frame).name@ == name@,
        old(bare_frame).attributes@.len() == 0,
        call_ensures(
            capture_io_detail,
            (bare_frame, call, prepared, &inputs.curl_url, &inputs.rpc),
            (),
        ),
        call_ensures(defining_file, (call,), file),
    ensures
        r.frame is Some,
        ({
            let said = pairs(r.frame->0.attributes@);
            let own = if policy == SpanPolicy::IoSpan {
                pairs(final(bare_frame).attributes@)
            } else {
                Seq::empty()
            };
            let url = if policy == SpanPolicy::IoSpan && *stream_url is Some {
                seq![
                    ("url.full"@, (*stream_url)->0@),
                    ("http.url"@, (*stream_url)->0@),
                ]
            } else {
                Seq::empty()
            };
            let place = if file is Some {
                seq![("code.filepath"@, file->0@)]
            } else {
                Seq::empty()
            };
            let mark = if policy == SpanPolicy::ManifestSpan {
                seq![("chronos.instrumented"@, "manifest"@)]
            } else {
                Seq::empty()
            };
            said == own + url + place + mark
        }),
        r.frame->0.span_id@ == inputs.minted.span_id@,
        r.frame->0.name@ == name@,
        r.frame->0.trace_id@ == old(observer).request.context->0.trace_id@,
        r.frame->0.start_hrtime == inputs.minted.start_hrtime,
        r.frame->0.started_at@ == inputs.minted.started_at@,
        r.frame->0.io <==> policy == SpanPolicy::IoSpan,
        r.injection is Some <==> name@ == "curl_exec"@,
{
    assert(pairs(old(bare_frame).attributes@) =~= Seq::empty());
    let said = pairs(r.frame->0.attributes@);
    let own = if policy == SpanPolicy::IoSpan {
        pairs(final(bare_frame).attributes@)
    } else {
        Seq::empty()
    };
    let url = if policy == SpanPolicy::IoSpan && *stream_url is Some {
        seq![("url.full"@, (*stream_url)->0@), ("http.url"@, (*stream_url)->0@)]
    } else {
        Seq::empty()
    };
    let place = if file is Some {
        seq![("code.filepath"@, file->0@)]
    } else {
        Seq::empty()
    };
    let mark = if policy == SpanPolicy::ManifestSpan {
        seq![("chronos.instrumented"@, "manifest"@)]
    } else {
        Seq::empty()
    };
    assert(said =~= own + url + place + mark);
}

/// A call that is observed only gets a paired frame, and outside a request no span
/// is begun.
pub proof fn law_no_span_outside_a_request(
    observer: &mut Observer,
    call: &Call,
    name: &str,
    policy: SpanPolicy,
    stream_url: &Option<String>,
    inputs: &BeginInputs<'_>,
    r: FrameBegun,
)
    requires
        call_ensures(begin_frame, (observer, call, name, policy, stream_url, inputs), r),
    ensures
        old(observer).request.context is None && policy != SpanPolicy::ObserveOnly ==> r.frame
            is None && r.injection is None,
        policy == SpanPolicy::ObserveOnly ==> r.injection is None,
        policy == SpanPolicy::ObserveOnly ==> (r.frame matches Some(frame) ==> !frame.emit_span),
        policy == SpanPolicy::ObserveOnly && old(observer).request.context is Some ==> r.frame
            is Some,
{
}

/// The `traceparent` of an outbound curl call is published, and is set on the handle
/// with the tracestate and baggage of the request; priority is claimed.
pub proof fn law_an_outbound_call_is_propagated(
    observer: &mut Observer,
    call: &Call,
    name: &str,
    policy: SpanPolicy,
    stream_url: &Option<String>,
    inputs: &BeginInputs<'_>,
    r: FrameBegun,
)
    requires
        call_ensures(begin_frame, (observer, call, name, policy, stream_url, inputs), r),
        old(observer).request.context is Some,
        policy != SpanPolicy::ObserveOnly,
        name@ == "curl_exec"@,
    ensures
        r.injection is Some,
        r.frame is Some,
        r.frame->0.injected_traceparent is Some,
        final(observer).pending_traceparent is Some,
        final(observer).pending_traceparent->0@ == r.frame->0.injected_traceparent->0@,
        final(observer).request.claim.claimed,
        call.arg(0) matches Zval::Object(o) ==> {
            &&& r.injection->0.headers is Some
            &&& final(observer).handles.curl_headers@.contains_key(o.handle)
            &&& texts(r.injection->0.headers->0@) == texts(
                final(observer).handles.curl_headers@[o.handle]@,
            )
        },
        !(call.arg(0) is Object) ==> r.injection->0.headers is None,
{
    if let Zval::Object(o) = call.arg(0) {
        let lists = header_lists(final(observer).handles.curl_headers@);
        assert(lists.contains_key(o.handle));
    }
}

/// Which way a call goes. A publish, a delivery and a NATS send go to the handler
/// of their client, unless the application has taken messaging over (a delivery
/// always goes); a call that only sets something up is paired; an I/O call that
/// userland covers is paired; a stream call is a span only where its target is
/// remote, which is then its URL; a userland call in an excluded file is paired.
pub proof fn law_which_way_a_call_goes(
    policy: Option<SpanPolicy>,
    request: &Request,
    settings: &ObserverSettings,
    call: &Call,
    name: &str,
    r: BeginStep,
    covered: bool,
    stream: bool,
    url: Option<String>,
    url_text: &str,
    remote: bool,
    file: Option<String>,
    file_text: &str,
    excluded_list: &[String],
    excluded: bool,
)
    requires
        call_ensures(begin_step, (policy, request, settings, call, name), r),
        call_ensures(native_io_suppressed, (request, name), covered),
        call_ensures(is_dual_purpose_stream_function, (name,), stream),
        call_ensures(arg_scalar_string, (call, 0usize, 2048usize), url),
        url matches Some(u) ==> url_text@ == u@,
        call_ensures(is_remote_stream_target, (url_text,), remote),
        call_ensures(defining_file, (call,), file),
        file matches Some(f) ==> file_text@ == f@,
        excluded_list@ == settings.excluded_paths@,
        call_ensures(is_excluded_path, (file_text, excluded_list), excluded),
    ensures
        policy is None <==> r is Ignore,
        policy == Some(SpanPolicy::MessagingPublish) && !request.suppress_messaging ==> (r
            matches BeginStep::Publish(broker) && {
            let kafka = name@ == "RdKafka\\ProducerTopic::produce"@ || name@
                == "RdKafka\\ProducerTopic::producev"@;
            let amqplib = name@ == "PhpAmqpLib\\Channel\\AMQPChannel::basic_publish"@;
            &&& kafka ==> broker == Broker::RdKafka
            &&& amqplib ==> broker == Broker::Amqplib
            &&& !kafka && !amqplib ==> broker == Broker::Bunny
        }),
        policy == Some(SpanPolicy::MessagingDeliver) ==> (r matches BeginStep::Deliver(broker) && {
            let amqplib = name@ == "PhpAmqpLib\\Channel\\AMQPChannel::basic_deliver"@;
            let nats = name@ == "Basis\\Nats\\Client::processMsg"@;
            &&& amqplib ==> broker == Broker::Amqplib
            &&& nats ==> broker == Broker::Nats
            &&& !amqplib && !nats ==> broker == Broker::Bunny
        }),
        policy == Some(SpanPolicy::MessagingNatsSend) ==> r is NatsSend,
        (policy == Some(SpanPolicy::MessagingPublish) || policy == Some(SpanPolicy::MessagingPoll))
            && request.suppress_messaging ==> framed(r, SpanPolicy::ObserveOnly, None),
        policy == Some(SpanPolicy::MessagingPoll) && !request.suppress_messaging ==> framed(
            r,
            SpanPolicy::MessagingPoll,
            None,
        ),
        policy == Some(SpanPolicy::ObserveOnly) ==> framed(r, SpanPolicy::ObserveOnly, None),
        policy == Some(SpanPolicy::ManifestSpan) ==> framed(r, SpanPolicy::ManifestSpan, None),
        policy == Some(SpanPolicy::IoSpan) && covered ==> framed(r, SpanPolicy::ObserveOnly, None),
        policy == Some(SpanPolicy::IoSpan) && !covered && !stream ==> framed(
            r,
            SpanPolicy::IoSpan,
            None,
        ),
        policy == Some(SpanPolicy::IoSpan) && !covered && stream && url is Some && remote ==> framed(
            r,
            SpanPolicy::IoSpan,
            Some(url->0@),
        ),
        policy == Some(SpanPolicy::IoSpan) && !covered && stream && (url is None || !remote)
            ==> framed(r, SpanPolicy::ObserveOnly, None),
        policy == Some(SpanPolicy::UserSpan) && file is Some && excluded ==> framed(
            r,
            SpanPolicy::ObserveOnly,
            None,
        ),
        policy == Some(SpanPolicy::UserSpan) && (file is None || !excluded) ==> framed(
            r,
            SpanPolicy::UserSpan,
            None,
        ),
{
    reveal_strlit("RdKafka\\ProducerTopic::produce");
    reveal_strlit("RdKafka\\ProducerTopic::producev");
    reveal_strlit("PhpAmqpLib\\Channel\\AMQPChannel::basic_publish");
    reveal_strlit("PhpAmqpLib\\Channel\\AMQPChannel::basic_deliver");
    reveal_strlit("Basis\\Nats\\Client::processMsg");
    assert("RdKafka\\ProducerTopic::produce"@.len() == 30);
    assert("RdKafka\\ProducerTopic::producev"@.len() == 31);
    assert("PhpAmqpLib\\Channel\\AMQPChannel::basic_publish"@.len() == 45);
    assert("PhpAmqpLib\\Channel\\AMQPChannel::basic_deliver"@.len() == 45);
    assert("Basis\\Nats\\Client::processMsg"@.len() == 29);
    assert("PhpAmqpLib\\Channel\\AMQPChannel::basic_publish"@[38] != "PhpAmqpLib\\Channel\\AMQPChannel::basic_deliver"@[38]);
}

/// Whether a step is a frame under a policy, with a URL or without.
pub open spec fn framed(step: BeginStep, policy: SpanPolicy, url: Option<Seq<char>>) -> bool {
    step matches BeginStep::Frame(p, u) && p == policy && opt_text(u) == url
}

/// Handlers are attached to exactly the functions that are observed.
pub proof fn law_handlers_are_attached_to_what_is_observed(
    manifest: &Manifest,
    settings: &ObserverSettings,
    call: &Call,
    name: Option<String>,
    text: &str,
    internal: bool,
    policy: Option<SpanPolicy>,
    r: bool,
)
    requires
        call_ensures(attaches_handlers, (manifest, settings, call), r),
        call_ensures(function_name, (call,), name),
        text@ == match name {
            Some(n) => n@,
            None => Seq::empty(),
        },
        call_ensures(is_internal_function, (call,), internal),
        call_ensures(observe_policy, (manifest, settings, text, internal), policy),
    ensures
        r <==> policy is Some,
{
}

/// The end of a call takes its frame, the innermost, and tells the function below
/// it.
pub proof fn law_the_innermost_frame_is_taken(frames: &mut Vec<CallFrame>, r: Option<Popped>)
    requires
        call_ensures(pop_frame, (frames,), r),
    ensures
        old(frames)@.len() == 0 ==> r is None && final(frames)@.len() == 0,
        old(frames)@.len() > 0 ==> {
            let n = old(frames)@.len() as int;
            &&& r is Some
            &&& r->0.frame == old(frames)@[n - 1]
            &&& final(frames)@ == old(frames)@.take(n - 1)
            &&& n == 1 ==> r->0.caller is None
            &&& n > 1 ==> r->0.caller == Some(old(frames)@[n - 2].timing.function)
        },
{
    if old(frames)@.len() > 0 {
        assert(old(frames)@.drop_last() =~= old(frames)@.take(old(frames)@.len() - 1));
    }
}

/// The time of a call is the frame's below, not its own, and no other frame's.
pub proof fn law_the_frame_below_is_credited(frames: &mut Vec<CallFrame>, duration: u64)
    requires
        call_ensures(credit_parent, (frames, duration), ()),
    ensures
        final(frames)@.len() == old(frames)@.len(),
        old(frames)@.len() > 0 ==> {
            let i = old(frames)@.len() - 1;
            let before = old(frames)@[i].timing;
            let after = final(frames)@[i].timing;
            &&& before.child_nanoseconds + duration <= u64::MAX ==> after.child_nanoseconds
                == before.child_nanoseconds + duration
            &&& before.child_nanoseconds + duration > u64::MAX ==> after.child_nanoseconds
                == u64::MAX
            &&& after.function == before.function
            &&& after.entered_nanoseconds == before.entered_nanoseconds
            &&& final(frames)@[i].span_id@ == old(frames)@[i].span_id@
        },
        forall|i: int|
            0 <= i < old(frames)@.len() - 1 ==> (#[trigger] final(frames)@[i])@ == old(frames)@[i]@,
{
    let before = frame_views(old(frames)@);
    let after = frame_views(final(frames)@);
    assert(before.len() == old(frames)@.len() && after.len() == final(frames)@.len());
    if old(frames)@.len() > 0 {
        let i = old(frames)@.len() - 1;
        assert(after[i] == final(frames)@[i]@);
    }
    assert forall|i: int| 0 <= i < old(frames)@.len() - 1 implies (#[trigger] final(frames)@[i])@
        == old(frames)@[i]@ by {
        assert(after[i] == before[i]);
    }
}

/// A recording keeps what a builtin returned: an environment read under the name
/// that was asked for, any other under the function; a function that is none of
/// them leaves nothing.
pub proof fn law_what_a_recording_keeps_of_a_result(
    name: &str,
    call: &Call,
    retval: &Zval,
    kind: Option<DstEventKind>,
    value: Option<String>,
    asked: Option<String>,
    r: Option<(DstEventKind, Vec<(String, String)>)>,
)
    requires
        call_ensures(record_result, (name, call, retval), r),
        call_ensures(dst_event_kind_for, (name,), kind),
        call_ensures(scalar_to_string, (retval,), value),
        call_ensures(arg_scalar_string, (call, 0usize, 4096usize), asked),
    ensures
        r is Some <==> kind is Some,
        r matches Some(event) ==> {
            let answer = match value {
                Some(text) => text@,
                None => Seq::empty(),
            };
            let question = match asked {
                Some(text) => text@,
                None => Seq::empty(),
            };
            &&& Some(event.0) == kind
            &&& event.0 == DstEventKind::EnvRead ==> pairs(event.1@) == seq![
                ("name"@, question),
                ("value"@, answer),
            ]
            &&& event.0 != DstEventKind::EnvRead ==> pairs(event.1@) == seq![
                ("function"@, name@),
                ("result"@, answer),
            ]
        },
{
}

/// A recording keeps the entry of a userland call with its name and depth first, and
/// counts its leave; it keeps nothing of internal calls, nor without a recording or
/// a depth worth keeping.
pub proof fn law_what_a_recording_keeps_of_an_entry(
    name: &str,
    internal: bool,
    recording: bool,
    depth: Option<u32>,
    arguments: &Vec<CapturedArgument>,
    digits: String,
    r: Option<Vec<(String, String)>>,
    leaves: bool,
)
    requires
        call_ensures(record_call_path_enter, (name, internal, recording, depth, arguments), r),
        call_ensures(record_call_path_leave, (internal, recording), leaves),
        depth matches Some(d) ==> call_ensures(decimal_text, (d as u128,), digits),
    ensures
        leaves <==> recording && !internal,
        r is Some <==> recording && !internal && depth is Some,
        r matches Some(payload) ==> {
            &&& payload@.len() >= 2
            &&& payload@[0].0@ == "name"@ && payload@[0].1@ == name@
            &&& payload@[1].0@ == "depth"@ && payload@[1].1@ == digits@
            &&& arguments@.len() == 0 ==> payload@.len() == 2
        },
{
    if let Some(payload) = r {
        let p = pairs(payload@);
        let head = seq![("name"@, name@), ("depth"@, digits@)];
        lemma_arguments_after(head, arguments@);
        assert(p.len() == payload@.len());
        assert(p[0] == head[0] && p[1] == head[1]);
        assert(p[0] == (payload@[0].0@, payload@[0].1@));
        assert(p[1] == (payload@[1].0@, payload@[1].1@));
    }
}

proof fn lemma_arguments_after(
    head: Seq<(Seq<char>, Seq<char>)>,
    arguments: Seq<CapturedArgument>,
)
    ensures
        with_arguments(head, arguments).len() >= head.len(),
        forall|i: int| 0 <= i < head.len() ==> with_arguments(head, arguments)[i] == #[trigger] head[i],
    decreases arguments.len(),
{
    if arguments.len() > 0 {
        lemma_arguments_after(head, arguments.drop_last());
        let before = with_arguments(head, arguments.drop_last());
        let a = arguments.last();
        lemma_argument_after(before, a);
        assert forall|i: int| 0 <= i < head.len() implies with_arguments(head, arguments)[i]
            == #[trigger] head[i] by {
            assert(before[i] == head[i]);
            assert(with_argument(before, a)[i] == before[i]);
        }
    }
}

proof fn lemma_argument_after(p: Seq<(Seq<char>, Seq<char>)>, a: CapturedArgument)
    ensures
        with_argument(p, a).len() >= p.len(),
        forall|i: int| 0 <= i < p.len() ==> #[trigger] with_argument(p, a)[i] == p[i],
{
}

/// A recording keeps each argument under its place: its type always, its name and
/// value where it has them, and whether it was redacted or cut.
pub proof fn law_what_a_recording_keeps_of_an_argument(
    name: &str,
    depth: Option<u32>,
    arguments: &Vec<CapturedArgument>,
    r: Option<Vec<(String, String)>>,
    place: String,
)
    requires
        call_ensures(record_call_path_enter, (name, false, true, depth, arguments), r),
        depth is Some,
        arguments@.len() == 1,
        call_ensures(decimal_text, (arguments@[0].position as u128,), place),
    ensures
        r is Some,
        ({
            let p = pairs(r->0@);
            let a = arguments@[0];
            let prefix = "arg"@ + place@;
            &&& p.contains((prefix + ".type"@, a.type_word@))
            &&& a.name@.len() > 0 ==> p.contains((prefix + ".name"@, a.name@))
            &&& a.value@.len() > 0 ==> p.contains((prefix + ".value"@, a.value@))
            &&& a.redacted ==> p.contains((prefix + ".redacted"@, "true"@))
            &&& a.truncated ==> p.contains((prefix + ".truncated"@, "true"@))
        }),
{
    let a = arguments@[0];
    let prefix = "arg"@ + place@;
    let d = depth->0;
    let head = seq![("name"@, name@), ("depth"@, decimal(d as nat))];
    assert(arguments@.drop_last() =~= Seq::empty());
    assert(arguments@.last() == a);
    let p0 = with_arguments(head, arguments@.drop_last());
    assert(p0 == head);
    let p1 = with_if(p0, a.name@.len() > 0, prefix + ".name"@, a.name@);
    let p2 = p1.push((prefix + ".type"@, a.type_word@));
    let p3 = with_if(p2, a.value@.len() > 0, prefix + ".value"@, a.value@);
    let p4 = with_if(p3, a.redacted, prefix + ".redacted"@, "true"@);
    let p5 = with_if(p4, a.truncated, prefix + ".truncated"@, "true"@);
    assert(pairs(r->0@) == p5);
    if a.name@.len() > 0 {
        assert(p5[p0.len() as int] == (prefix + ".name"@, a.name@));
    }
    assert(p5[p1.len() as int] == (prefix + ".type"@, a.type_word@));
    if a.value@.len() > 0 {
        assert(p5[p2.len() as int] == (prefix + ".value"@, a.value@));
    }
    if a.redacted {
        assert(p5[p3.len() as int] == (prefix + ".redacted"@, "true"@));
    }
    if a.truncated {
        assert(p5[p4.len() as int] == (prefix + ".truncated"@, "true"@));
    }
}

/// Arguments are captured only of userland code that the application named, in a
/// request that asked for them, and only where there are any.
pub proof fn law_when_arguments_are_captured(
    manifest: &Manifest,
    call: &Call,
    name: &str,
    active: bool,
    max: usize,
    internal: bool,
    named: bool,
    r: Option<(Vec<ScalarArgument>, u32)>,
    plain: (Vec<ScalarArgument>, u32),
)
    requires
        call_ensures(capture_tier_three_arguments, (manifest, call, name, active, max), r),
        call_ensures(is_internal_function, (call,), internal),
        call_ensures(is_traced, (manifest, name), named),
        call_ensures(capture_scalar_arguments, (call, max), plain),
    ensures
        r is Some <==> !internal && active && named && call.args@.len() > 0,
        r matches Some(captured) ==> {
            &&& captured.0@.len() == plain.0@.len()
            &&& captured.1 == plain.1
            &&& forall|i: int|
                0 <= i < captured.0@.len() ==> {
                    let a = #[trigger] captured.0@[i];
                    let b = plain.0@[i];
                    &&& a.position == b.position
                    &&& a.name@ == b.name@
                    &&& a.argument_type == b.argument_type
                    &&& opt_text(a.raw) == opt_text(b.raw)
                }
        },
{
    if let Some(captured) = r {
        assert forall|i: int| 0 <= i < captured.0@.len() implies {
            let a = #[trigger] captured.0@[i];
            let b = plain.0@[i];
            &&& a.position == b.position
            &&& a.name@ == b.name@
            &&& a.argument_type == b.argument_type
            &&& opt_text(a.raw) == opt_text(b.raw)
        } by {
            assert(records(captured.0@[i], *call, i));
            assert(records(plain.0@[i], *call, i));
        }
    }
}

/// An ended call leaves its span as the last of the request's, with its own ids,
/// times and outcome, and marks the frame of its caller as one that kept a child.
/// A call that is not recorded leaves both alone.
pub proof fn law_an_ended_call_is_recorded(
    observer: &mut Observer,
    frame: CallFrame,
    call: &Call,
    retval: &Zval,
    inputs: EndInputs,
    r: CallEnded,
)
    requires
        call_ensures(end_call, (observer, frame, call, retval, inputs), r),
    ensures
        ({
            let n = old(observer).request.spans@.len();
            let before = old(observer).request.spans@;
            let after = final(observer).request.spans@;
            let frames = final(observer).frames@;
            &&& !r.ended.emitted ==> after.len() == n
            &&& r.ended.emitted ==> after.len() == n + 1
            &&& r.ended.emitted ==> after[n as int].trace_id@ == frame.trace_id@
            &&& r.ended.emitted ==> after[n as int].span_id@ == frame.span_id@
            &&& r.ended.emitted ==> opt_text(after[n as int].parent_span_id) == opt_text(
                frame.parent_span_id,
            )
            &&& r.ended.emitted ==> after[n as int].started_at@ == frame.started_at@
            &&& r.ended.emitted ==> after[n as int].ended_at@ == inputs.at.ended_at@
            &&& r.ended.emitted && inputs.threw ==> after[n as int].status@ == "error"@
            &&& r.ended.emitted && !inputs.threw ==> after[n as int].status@ == "ok"@
            &&& r.ended.emitted && inputs.at.hrtime >= frame.start_hrtime ==> frame.start_hrtime
                + after[n as int].duration_nanoseconds == inputs.at.hrtime
            &&& r.ended.emitted ==> frame.emit_span
            &&& frame.emit_span && inputs.threw && n < 32768 ==> r.ended.emitted
            &&& frames.len() == old(observer).frames@.len()
            &&& r.ended.emitted && frames.len() > 0 ==> frames.last().kept_child
            &&& !r.ended.emitted && frames.len() > 0 ==> frames.last().kept_child == old(
                observer,
            ).frames@.last().kept_child
            &&& r.leaves <==> inputs.recording && !is_internal(*call)
            &&& r.close is Some <==> frame.owns_delivery_scope
            &&& r.event is Some ==> inputs.recording
        }),
{
    let n = old(observer).request.spans@.len();
    let before = span_views(old(observer).request.spans@);
    let after = span_views(final(observer).request.spans@);
    assert(before.len() == n);
    assert(after.len() == final(observer).request.spans@.len());
    if r.ended.emitted {
        assert(after[n as int] == final(observer).request.spans@[n as int]@);
    }
    let frames = frame_views(final(observer).frames@);
    assert(frames.len() == final(observer).frames@.len());
    assert(frame_views(old(observer).frames@).len() == old(observer).frames@.len());
    if frames.len() > 0 {
        assert(frames.last() == final(observer).frames@.last()@);
        assert(frame_views(old(observer).frames@).last() == old(observer).frames@.last()@);
    }
    lemma_told_frame(frame@, *retval, inputs.transfer, inputs.poll);
}

proof fn lemma_told_frame(
    frame: FrameView,
    retval: Zval,
    transfer: Option<TransferFacts>,
    poll: PollWords,
)
    ensures
        ({
            let told = told_frame(frame, retval, transfer, poll);
            &&& told.trace_id == frame.trace_id
            &&& told.span_id == frame.span_id
            &&& told.parent_span_id == frame.parent_span_id
            &&& told.started_at == frame.started_at
            &&& told.start_hrtime == frame.start_hrtime
            &&& told.emit_span == frame.emit_span
            &&& told.on_stack == frame.on_stack
            &&& told.kept_child == frame.kept_child
            &&& told.io == frame.io
            &&& told.bypass_span_cap == frame.bypass_span_cap
            &&& told.name == frame.name
        }),
{
}

/// What a call sets up for later ones: `curl_setopt` and `curl_setopt_array` note their
/// handle's header list, and a subscribe call its method, as amqplib's where it is
/// amqplib's and else as Bunny's. Any other call sets up nothing.
pub proof fn law_what_a_call_sets_up(
    observer: &mut Observer,
    settings: &ObserverSettings,
    call: &Call,
    name: &str,
    one: &mut HashMap<u32, Vec<String>>,
    several: &mut HashMap<u32, Vec<String>>,
    subscribes: bool,
    as_amqplib: &mut Vec<(u64, ConsumeSubscribeKind)>,
    as_bunny: &mut Vec<(u64, ConsumeSubscribeKind)>,
)
    requires
        call_ensures(note_side_channels, (observer, settings, call, name), ()),
        *old(one) == old(observer).handles.curl_headers,
        call_ensures(track_curl_setopt, (one, call), ()),
        *old(several) == old(observer).handles.curl_headers,
        call_ensures(track_curl_setopt_array, (several, call), ()),
        call_ensures(is_messaging_subscribe, (settings.messaging_auto, name), subscribes),
        *old(as_amqplib) == old(observer).subscriptions.consume_fns,
        call_ensures(
            remember_subscribe_method,
            (as_amqplib, call.function, ConsumeSubscribeKind::Amqplib),
            (),
        ),
        *old(as_bunny) == old(observer).subscriptions.consume_fns,
        call_ensures(
            remember_subscribe_method,
            (as_bunny, call.function, ConsumeSubscribeKind::Bunny),
            (),
        ),
    ensures
        ({
            let lists = header_lists(final(observer).handles.curl_headers@);
            let fns = final(observer).subscriptions.consume_fns@;
            let amqplib = name@ == "PhpAmqpLib\\Channel\\AMQPChannel::basic_consume"@;
            &&& name@ == "curl_setopt"@ ==> lists == header_lists(final(one)@)
            &&& name@ == "curl_setopt_array"@ ==> lists == header_lists(final(several)@)
            &&& name@ != "curl_setopt"@ && name@ != "curl_setopt_array"@ ==> lists == header_lists(
                old(observer).handles.curl_headers@,
            )
            &&& subscribes && amqplib ==> fns == final(as_amqplib)@
            &&& subscribes && !amqplib && name@ != "curl_setopt"@ && name@ != "curl_setopt_array"@
                ==> fns == final(as_bunny)@
            &&& !subscribes ==> fns == old(observer).subscriptions.consume_fns@
        }),
{
    reveal_strlit("curl_setopt");
    reveal_strlit("curl_setopt_array");
    reveal_strlit("PhpAmqpLib\\Channel\\AMQPChannel::basic_consume");
    assert("curl_setopt"@.len() == 11);
    assert("curl_setopt_array"@.len() == 17);
    assert("PhpAmqpLib\\Channel\\AMQPChannel::basic_consume"@.len() == 45);
}

/// A prepare call tells the statement it returned, and a prepare call on a statement
/// that statement; any other call tells none.
pub proof fn law_which_calls_tell_a_statement(
    map: &mut HashMap<u32, String>,
    call: &Call,
    retval: &Zval,
    name: &str,
    prepares: bool,
    prepares_this: bool,
    index: usize,
    returned: &mut HashMap<u32, String>,
    this: &mut HashMap<u32, String>,
)
    requires
        call_ensures(bank_after_call, (map, call, retval, name), ()),
        call_ensures(sql_prepare_method, (name,), prepares),
        call_ensures(sql_this_prepare_method, (name,), prepares_this),
        call_ensures(prepare_sql_arg_index, (name,), index),
        *old(returned) == *old(map),
        call_ensures(bank_prepared_statement, (returned, call, retval, index), ()),
        *old(this) == *old(map),
        call_ensures(rebank_prepared_statement_for_this, (this, call, retval, name), ()),
    ensures
        prepares ==> statements(final(map)@) == statements(final(returned)@),
        !prepares && prepares_this ==> statements(final(map)@) == statements(final(this)@),
        !prepares && !prepares_this ==> statements(final(map)@) == statements(old(map)@),
{
}

/// Ending a frame ends its span, and a recorded span makes the frame below it one that
/// kept a child; the other frames are as they were.
pub proof fn law_an_ended_frame_ends_its_span(
    observer: &mut Observer,
    frame: CallFrame,
    threw: bool,
    min_nanos: u128,
    at: &EndReading,
    r: Ended,
    spans: &mut Vec<crate::observer::spans::NativeSpan>,
    stack: &mut Vec<String>,
    e: Ended,
)
    requires
        call_ensures(end_frame, (observer, frame, threw, min_nanos, at), r),
        *old(spans) == old(observer).request.spans,
        *old(stack) == old(observer).request.span_stack,
        call_ensures(on_end, (spans, stack, frame, threw, min_nanos, at), e),
    ensures
        r.emitted == e.emitted,
        r.io_wait == e.io_wait,
        span_views(final(observer).request.spans@) == span_views(final(spans)@),
        texts(final(observer).request.span_stack@) == texts(final(stack)@),
        ({
            let before = frame_views(old(observer).frames@);
            let after = frame_views(final(observer).frames@);
            &&& after.len() == before.len()
            &&& forall|i: int| 0 <= i < before.len() - 1 ==> #[trigger] after[i] == before[i]
            &&& before.len() > 0 && r.emitted ==> after.last() == (FrameView {
                kept_child: true,
                ..before.last()
            })
            &&& before.len() > 0 && !r.emitted ==> after.last() == before.last()
        }),
{
}

/// A call begins with its policy, which says which way it goes. One that is ignored or
/// handed to its client's handler changes nothing but what is remembered of its policy;
/// any other notes what it sets up, and then begins its frame.
pub proof fn law_how_a_call_begins(
    observer: &mut Observer,
    manifest: &Manifest,
    settings: &ObserverSettings,
    id: u32,
    call: &Call,
    name: &str,
    inputs: &BeginInputs<'_>,
    r: CallBegun,
    internal: bool,
    cache: &mut Vec<Option<CachedPolicy>>,
    policy: Option<SpanPolicy>,
    request: &Request,
    step: BeginStep,
    noting: &mut Observer,
    framing: &mut Observer,
    to: SpanPolicy,
    url: &Option<String>,
    begun_frame: FrameBegun,
)
    requires
        call_ensures(begin_call, (observer, manifest, settings, id, call, name, inputs), r),
        call_ensures(is_internal_function, (call,), internal),
        *old(cache) == old(observer).policy_cache,
        call_ensures(cached_policy, (cache, manifest, settings, id, name, internal), policy),
        *request == old(observer).request,
        call_ensures(begin_step, (policy, request, settings, call, name), step),
        *old(noting) == *old(observer),
        call_ensures(note_side_channels, (noting, settings, call, name), ()),
        *old(framing) == *final(noting),
        step matches BeginStep::Frame(p, u) ==> to == p && *url == u,
        call_ensures(begin_frame, (framing, call, name, to, url, inputs), begun_frame),
    ensures
        step is Ignore ==> r is Ignored,
        step is Frame ==> {
            &&& r matches CallBegun::Framed(f)
            &&& opt_frame(f.frame) == opt_frame(begun_frame.frame)
            &&& texts(final(observer).request.span_stack@) == texts(final(framing).request.span_stack@)
            &&& header_lists(final(observer).handles.curl_headers@) == header_lists(
                final(framing).handles.curl_headers@,
            )
            &&& final(observer).subscriptions.consume_fns@ == final(framing).subscriptions.consume_fns@
            &&& f.injection is Some <==> begun_frame.injection is Some
        },
        !(step is Ignore) && !(step is Frame) ==> (r matches CallBegun::Handler(handed) && handed@
            == step@),
        !(step is Frame) ==> *final(observer) == (Observer {
            policy_cache: final(observer).policy_cache,
            ..*old(observer)
        }),
{
}

/// An ended call says what only its end can tell: a finished transfer what curl told, a
/// poll what came back. Its frame is then ended. A prepare call tells its statement, a
/// serializer leaves its message, a recording keeps a builtin's result, and a frame
/// that opened a delivery's request closes it.
pub proof fn law_what_an_ended_call_leaves(
    observer: &mut Observer,
    frame: CallFrame,
    call: &Call,
    retval: &Zval,
    inputs: EndInputs,
    r: CallEnded,
    name: &str,
    told: &mut CallFrame,
    polled: &mut CallFrame,
    polls: bool,
    twin: &mut Observer,
    ended: Ended,
    map: &mut HashMap<u32, String>,
    serialized_message: Option<SerializedMessage>,
    event: Option<(DstEventKind, Vec<(String, String)>)>,
    closing: &mut Observer,
    close: DeliveryClose,
)
    requires
        call_ensures(end_call, (observer, frame, call, retval, inputs), r),
        name@ == frame.name@,
        *old(told) == frame,
        inputs.transfer is Some && name@ == "curl_exec"@ ==> call_ensures(
            capture_curl_result,
            (
                told,
                &inputs.transfer->0.info,
                &inputs.transfer->0.request_headers,
                inputs.transfer->0.body,
                &inputs.transfer->0.timeline,
            ),
            (),
        ),
        inputs.transfer is None || name@ != "curl_exec"@ ==> *final(told) == frame,
        *old(polled) == *final(told),
        call_ensures(poll_method_name, (name,), polls),
        polls ==> call_ensures(capture_messaging_poll_result, (polled, retval, &inputs.poll), ()),
        !polls ==> *final(polled) == *final(told),
        *old(twin) == *old(observer),
        call_ensures(
            end_frame,
            (twin, *final(polled), inputs.threw, inputs.min_nanos, &inputs.at),
            ended,
        ),
        *old(map) == old(observer).handles.prepared_statements,
        call_ensures(bank_after_call, (map, call, retval, name), ()),
        call_ensures(bank_serialized_message, (call, retval), serialized_message),
        call_ensures(record_result, (name, call, retval), event),
        *old(closing) == *old(observer),
        call_ensures(close_messaging_delivery, (closing, inputs.resolved, inputs.threw), close),
    ensures
        r.ended.emitted == ended.emitted,
        r.ended.io_wait == ended.io_wait,
        span_views(final(observer).request.spans@) == span_views(final(twin).request.spans@),
        texts(final(observer).request.span_stack@) == texts(final(twin).request.span_stack@),
        frame_views(final(observer).frames@) == frame_views(final(twin).frames@),
        statements(final(observer).handles.prepared_statements@) == statements(final(map)@),
        name@ == "Google\\Protobuf\\Internal\\Message::serializeToString"@ ==> {
            &&& r.serialized is Some <==> serialized_message is Some
            &&& r.serialized matches Some(m) ==> m.bytes@ == serialized_message->0.bytes@
                && m.class@ == serialized_message->0.class@
        },
        name@ != "Google\\Protobuf\\Internal\\Message::serializeToString"@ ==> r.serialized is None,
        inputs.recording ==> (r.event is Some <==> event is Some),
        r.event matches Some(kept) ==> inputs.recording && kept.0 == (event->0).0 && pairs(kept.1@)
            == pairs((event->0).1@),
        r.close matches Some(c) ==> frame.owns_delivery_scope && c.status == close.status
            && c.route@ == close.route@ && crate::observer::delivery::opt_error(c.error)
            == crate::observer::delivery::opt_error(close.error),
        frame.owns_delivery_scope ==> r.close is Some && final(observer).delivery_scope is None,
        !frame.owns_delivery_scope ==> final(observer).delivery_scope == old(
            observer,
        ).delivery_scope,
{
    lemma_polls_apart(name@);
    assert(frame@.name == name@);
    assert(final(polled)@ == told_frame(frame@, *retval, inputs.transfer, inputs.poll));
}

proof fn lemma_polls_apart(name: Seq<char>)
    ensures
        poll_method(name) ==> !sql_prepare(name) && !sql_this_prepare(name) && name
            != PROTOBUF_SERIALIZE_METHOD@,
        name == PROTOBUF_SERIALIZE_METHOD@ ==> !sql_prepare(name) && !sql_this_prepare(name),
        name == "Google\\Protobuf\\Internal\\Message::serializeToString"@ <==> name
            == PROTOBUF_SERIALIZE_METHOD@,
{
    reveal_strlit("RdKafka\\KafkaConsumer::consume");
    reveal_strlit("RdKafka\\ConsumerTopic::consume");
    reveal_strlit("Basis\\Nats\\Queue::fetchAll");
    reveal_strlit("mysqli::prepare");
    reveal_strlit("SQLite3::prepare");
    reveal_strlit("mysqli_prepare");
    reveal_strlit("mysqli_stmt::prepare");
    reveal_strlit("mysqli_stmt::__construct");
    reveal_strlit("Google\\Protobuf\\Internal\\Message::serializeToString");
    assert("RdKafka\\KafkaConsumer::consume"@.len() == 30);
    assert("RdKafka\\ConsumerTopic::consume"@.len() == 30);
    assert("Basis\\Nats\\Queue::fetchAll"@.len() == 26);
    assert("mysqli::prepare"@.len() == 15);
    assert("SQLite3::prepare"@.len() == 16);
    assert("mysqli_prepare"@.len() == 14);
    assert("mysqli_stmt::prepare"@.len() == 20);
    assert("mysqli_stmt::__construct"@.len() == 24);
    assert("Google\\Protobuf\\Internal\\Message::serializeToString"@.len() == 51);
    assert("RdKafka\\KafkaConsumer::consume"@[8] != "RdKafka\\ConsumerTopic::consume"@[8]);
}

/// A begun frame is under the name that an I/O call gives it, where it gives one, and
/// any other is under none of its own. It is a child of the innermost open span, or of
/// the request's own.
pub proof fn law_a_begun_frame_is_named_by_its_io(
    observer: &mut Observer,
    call: &Call,
    name: &str,
    policy: SpanPolicy,
    stream_url: &Option<String>,
    inputs: &BeginInputs<'_>,
    r: FrameBegun,
    bare_frame: &mut CallFrame,
    prepared: &HashMap<u32, String>,
)
    requires
        call_ensures(begin_frame, (observer, call, name, policy, stream_url, inputs), r),
        old(observer).request.context is Some,
        policy != SpanPolicy::ObserveOnly,
        *prepared == old(observer).handles.prepared_statements,
        old(bare_frame).name@ == name@,
        old(bare_frame).span_name is None,
        call_ensures(
            capture_io_detail,
            (bare_frame, call, prepared, &inputs.curl_url, &inputs.rpc),
            (),
        ),
    ensures
        policy == SpanPolicy::IoSpan ==> opt_text(r.frame->0.span_name) == opt_text(
            final(bare_frame).span_name,
        ),
        policy != SpanPolicy::IoSpan ==> r.frame->0.span_name is None,
        ({
            let stack = old(observer).request.span_stack@;
            let parent = if stack.len() > 0 {
                stack.last()@
            } else {
                old(observer).request.context->0.span_id@
            };
            opt_text(r.frame->0.parent_span_id) == Some(parent)
        }),
{
    let stack = old(observer).request.span_stack@;
    assert(texts(stack).len() == stack.len());
    if stack.len() > 0 {
        assert(texts(stack).last() == stack.last()@);
    }
    assert(r.frame->0@.span_name == opt_text(r.frame->0.span_name));
    assert(r.frame->0@.parent_span_id == opt_text(r.frame->0.parent_span_id));
}

} // verus!
