//! Publishing through the messaging clients: what each publish call says on its
//! span, and the headers that ride with the message.
//!
//! Each handler reads its client's own argument layout, adds headers that are
//! absent, and prepares the frame of a producer span. What the messaging
//! vocabulary says of a message (its destination, label, protocol, payload
//! preview) comes in as `PublishWords`, made from the facts that the matching
//! `_facts` function reads.

use crate::context::{ContextView, TraceContext};
use crate::observer::banks::{
    bank_nats_subscribe, nats_subscription, sid_banked, sid_views, trim_or_empty, trimmed_or_empty,
};
use crate::observer::names::{SpanPolicy, MESSAGING_NATS_SEND_METHOD};
use crate::observer::spans::{
    begun, emits, ended_span, observe_only_view, on_begin, traceparent_of, CallFrame, EndReading,
    FrameView, Minted,
};
use crate::observer::state::{
    lemma_under, lemma_under_if, opt_context, push_if, push_pair, push_some, with_if, with_some,
    Observer, Request, Subscriptions,
};
use crate::text::{copy, decimal, decimal_text, nonempty, opt_text, or_empty, pairs, same, texts};
use crate::zend_helpers::{
    arg_array_str_key_string, arg_injected, arg_long, arg_object, arg_scalar_string,
    arg_string_bytes, capped, class_of, defining_file, entry_at, file_of, grown, header_in,
    headers_injected, inject_arg_application_headers, inject_arg_inner_property,
    inject_array_entries, instance_of, keyed_text, message_injected, object_class_name,
    object_instance_of, object_property_bytes, object_property_object, object_property_string,
    object_property_table_string, opt_bytes, pair_value, raw_bytes, reason_of, retval_string_bytes,
    same_but_arg, same_but_for, scalar_text, target, this_object, Call, Key, Object, Shape, Zval,
};
use vstd::prelude::*;

verus! {

/// The header that says when a message was enqueued.
pub const ENQUEUED_AT_HEADER: &'static str = "x-chronos-enqueued-at";

/// The header that names the class of a message's payload.
pub const SCHEMA_HEADER: &'static str = "x-chronos-schema";

pub const SYSTEM_RABBITMQ: &'static str = "rabbitmq";

pub const SYSTEM_KAFKA: &'static str = "kafka";

pub const SYSTEM_NATS: &'static str = "nats";

/// A text, or the empty text.
pub fn text_or_empty(o: Option<String>) -> (r: String)
    ensures
        r@ == or_empty(opt_text(o)),
{
    match o {
        Some(s) => s,
        None => String::new(),
    }
}

/// A property's trimmed text, empty when there is none.
pub open spec fn prop(o: Option<Object>, name: Seq<char>, max: nat) -> Seq<char> {
    match o {
        Some(o) => trimmed_or_empty(capped(o.text(name), max)),
        None => Seq::empty(),
    }
}

/// The trimmed text under a key of an array property, empty when there is none.
pub open spec fn table_prop(
    o: Option<Object>,
    name: Seq<char>,
    key: Seq<char>,
    max: nat,
) -> Seq<char> {
    match o {
        Some(o) => trimmed_or_empty(capped(o.table_text(name, key), max)),
        None => Seq::empty(),
    }
}

/// The object in a property of an object.
pub open spec fn inner(o: Option<Object>, name: Seq<char>) -> Option<Object> {
    match o {
        Some(o) => o.object(name),
        None => None,
    }
}

/// The object behind a reference.
pub open spec fn deref_object(o: Option<&Object>) -> Option<Object> {
    match o {
        Some(o) => Some(*o),
        None => None,
    }
}

pub fn read_prop(o: Option<&Object>, name: &str, max: usize) -> (r: String)
    ensures
        r@ == prop(deref_object(o), name@, max as nat),
{
    match o {
        Some(o) => trim_or_empty(object_property_string(o, name, max)),
        None => String::new(),
    }
}

pub fn read_table_prop(o: Option<&Object>, name: &str, key: &str, max: usize) -> (r: String)
    ensures
        r@ == table_prop(deref_object(o), name@, key@, max as nat),
{
    match o {
        Some(o) => trim_or_empty(object_property_table_string(o, name, key, max)),
        None => String::new(),
    }
}

pub fn read_inner<'a>(o: Option<&'a Object>, name: &str) -> (r: Option<&'a Object>)
    ensures
        deref_object(r) == inner(deref_object(o), name@),
{
    match o {
        Some(o) => object_property_object(o, name),
        None => None,
    }
}

/// A payload preview: text as it is or in base64, whole or cut.
pub struct Preview {
    pub body: String,
    pub base64: bool,
    pub truncated: bool,
}

/// What was captured of a payload: a preview, and whether a store took the
/// whole of it.
pub struct BodyFacts {
    pub preview: Option<Preview>,
    pub stored: bool,
}

/// What a message's payload says: its size always, and what was captured.
pub open spec fn with_body(
    a: Seq<(Seq<char>, Seq<char>)>,
    size: Option<nat>,
    body: BodyFacts,
) -> Seq<(Seq<char>, Seq<char>)> {
    match size {
        None => a,
        Some(n) => {
            let a = a.push(("messaging.message.body.size"@, decimal(n)));
            let a = match body.preview {
                Some(p) => {
                    let a = a.push(("messaging.message.body"@, p.body@));
                    let a = with_if(a, p.base64, "messaging.message.body.encoding"@, "base64"@);
                    with_if(a, p.truncated, "messaging.message.body.truncated"@, "true"@)
                },
                None => a,
            };
            with_if(a, body.stored, "messaging.message.body.stored"@, "true"@)
        },
    }
}

/// The size of an optional payload.
pub open spec fn size_of_body(bytes: Option<Seq<u8>>) -> Option<nat> {
    match bytes {
        Some(b) => Some(b.len()),
        None => None,
    }
}

pub fn push_body(list: &mut Vec<(String, String)>, bytes: &Option<Vec<u8>>, body: &BodyFacts)
    ensures
        pairs(final(list)@) == with_body(
            pairs(old(list)@),
            size_of_body(opt_bytes(*bytes)),
            *body,
        ),
{
    match bytes {
        None => {},
        Some(b) => {
            let size = decimal_text(b.len() as u128);
            push_pair(list, "messaging.message.body.size", size.as_str());
            match &body.preview {
                Some(p) => {
                    push_pair(list, "messaging.message.body", p.body.as_str());
                    push_if(list, p.base64, "messaging.message.body.encoding", "base64");
                    push_if(list, p.truncated, "messaging.message.body.truncated", "true");
                },
                None => {},
            }
            push_if(list, body.stored, "messaging.message.body.stored", "true");
        },
    }
}

pub fn push_list(list: &mut Vec<(String, String)>, more: &Vec<(String, String)>)
    ensures
        pairs(final(list)@) == pairs(old(list)@) + pairs(more@),
{
    let ghost before = pairs(list@);
    let ghost added = pairs(more@);
    let mut i: usize = 0;
    assert(before + added.take(0) =~= before);
    while i < more.len()
        invariant
            i <= more@.len(),
            added == pairs(more@),
            pairs(list@) == before + added.take(i as int),
        decreases more@.len() - i,
    {
        push_pair(list, more[i].0.as_str(), more[i].1.as_str());
        assert((before + added.take(i as int)).push(added[i as int]) =~= before + added.take(
            i + 1,
        ));
        i = i + 1;
    }
    assert(added.take(added.len() as int) =~= added);
}

/// What the messaging vocabulary says of one publish, beside what the call
/// shows: the name banked for its payload, the enqueued-at stamp, the span's
/// label, the destination, the Kafka partition, the protocol, and the payload.
pub struct PublishWords {
    pub banked_name: Option<String>,
    pub stamp: String,
    pub label: String,
    pub destination: Vec<(String, String)>,
    pub partition: Option<String>,
    pub protocol: Option<String>,
    pub body: BodyFacts,
}

/// What a publish handler leads to: the frame to push, why headers were not
/// written when they were not, and the line to print about that.
pub struct Begun {
    pub frame: Option<CallFrame>,
    pub refused: Option<&'static str>,
    pub warning: Option<String>,
}

/// The frame of an optional frame.
pub open spec fn opt_frame(f: Option<CallFrame>) -> Option<FrameView> {
    match f {
        Some(f) => Some(f@),
        None => None,
    }
}

/// The reason of an optional refusal.
pub open spec fn opt_reason(r: Option<&'static str>) -> Option<Seq<char>> {
    match r {
        Some(s) => Some(s@),
        None => None,
    }
}

/// The headers that ride with a message: the trace of the open request, the
/// stamp always, and the class of the payload where it is known.
pub open spec fn publish_entries(
    context: Option<ContextView>,
    span_id: Seq<char>,
    stamp: Seq<char>,
    name: Seq<char>,
) -> Seq<(Seq<char>, Seq<char>)> {
    let e = match context {
        Some(c) => {
            let e = seq![("traceparent"@, traceparent_of(c, span_id))];
            let e = with_some(e, "tracestate"@, c.tracestate);
            with_some(e, "baggage"@, c.baggage)
        },
        None => Seq::empty(),
    };
    with_if(e.push((ENQUEUED_AT_HEADER@, stamp)), name.len() > 0, SCHEMA_HEADER@, name)
}

fn make_entries(
    context: &Option<TraceContext>,
    span_id: &str,
    stamp: &str,
    name: &str,
) -> (r: Vec<(String, String)>)
    ensures
        pairs(r@) == publish_entries(opt_context(*context), span_id@, stamp@, name@),
{
    let mut e: Vec<(String, String)> = Vec::new();
    assert(pairs(e@) =~= Seq::empty());
    match context {
        Some(c) => {
            let header = crate::observer::spans::traceparent(c, span_id);
            push_pair(&mut e, "traceparent", header.as_str());
            assert(pairs(e@) =~= seq![("traceparent"@, header@)]);
            push_some(&mut e, "tracestate", &c.tracestate);
            push_some(&mut e, "baggage", &c.baggage);
        },
        None => {},
    }
    push_pair(&mut e, ENQUEUED_AT_HEADER, stamp);
    push_if(&mut e, !name.is_empty(), SCHEMA_HEADER, name);
    e
}

/// What a publish says on its span. Whatever is unknown is left out.
pub open spec fn publish_attributes(
    system: Seq<char>,
    destination: Seq<(Seq<char>, Seq<char>)>,
    host: Seq<char>,
    port: Seq<char>,
    partition: Option<Seq<char>>,
    key: Option<Seq<char>>,
    protocol: Option<Seq<char>>,
    content_type: Seq<char>,
    name: Seq<char>,
    size: Option<nat>,
    body: BodyFacts,
    file: Option<Seq<char>>,
) -> Seq<(Seq<char>, Seq<char>)> {
    let a = seq![
        ("span.kind"@, "producer"@),
        ("messaging.system"@, system),
        ("messaging.operation"@, "publish"@),
    ] + destination;
    let a = with_if(a, host.len() > 0, "server.address"@, host);
    let a = with_if(a, port.len() > 0, "server.port"@, port);
    let a = with_some(a, "messaging.kafka.destination.partition"@, partition);
    let a = with_some(a, "messaging.kafka.message.key"@, key);
    let a = with_some(a, "messaging.protocol"@, protocol);
    let a = with_if(
        a,
        content_type.len() > 0,
        "messaging.message.body.content_type"@,
        content_type,
    );
    let a = with_if(a, name.len() > 0, "messaging.message.name"@, name);
    let a = with_body(a, size, body);
    with_some(a, "code.filepath"@, file)
}

fn make_attributes(
    system: &str,
    destination: &Vec<(String, String)>,
    host: &str,
    port: &str,
    partition: &Option<String>,
    key: &Option<String>,
    protocol: &Option<String>,
    content_type: &str,
    name: &str,
    bytes: &Option<Vec<u8>>,
    body: &BodyFacts,
    file: &Option<String>,
) -> (r: Vec<(String, String)>)
    ensures
        pairs(r@) == publish_attributes(
            system@,
            pairs(destination@),
            host@,
            port@,
            opt_text(*partition),
            opt_text(*key),
            opt_text(*protocol),
            content_type@,
            name@,
            size_of_body(opt_bytes(*bytes)),
            *body,
            opt_text(*file),
        ),
{
    let mut a: Vec<(String, String)> = Vec::new();
    push_pair(&mut a, "span.kind", "producer");
    push_pair(&mut a, "messaging.system", system);
    push_pair(&mut a, "messaging.operation", "publish");
    assert(pairs(a@) =~= seq![
        ("span.kind"@, "producer"@),
        ("messaging.system"@, system@),
        ("messaging.operation"@, "publish"@),
    ]);
    push_list(&mut a, destination);
    push_if(&mut a, !host.is_empty(), "server.address", host);
    push_if(&mut a, !port.is_empty(), "server.port", port);
    push_some(&mut a, "messaging.kafka.destination.partition", partition);
    push_some(&mut a, "messaging.kafka.message.key", key);
    push_some(&mut a, "messaging.protocol", protocol);
    push_if(
        &mut a,
        !content_type.is_empty(),
        "messaging.message.body.content_type",
        content_type,
    );
    push_if(&mut a, !name.is_empty(), "messaging.message.name", name);
    push_body(&mut a, bytes, body);
    push_some(&mut a, "code.filepath", file);
    a
}

/// The line about headers that could not be written.
pub open spec fn warning_line(method: Seq<char>, reason: Seq<char>) -> Seq<char> {
    "chronos-php: traceparent not injected into "@ + method + " ("@ + reason
        + "); publish span recorded, its consumer will start a new trace"@
}

/// Say once per process for each method and reason that headers could not be
/// written.
pub fn warn_injection_failure_for(
    warned: &mut Vec<(String, String)>,
    method: &str,
    reason: &str,
) -> (r: Option<String>)
    ensures
        opt_text(r) == if pairs(old(warned)@).contains((method@, reason@)) {
            None
        } else {
            Some(warning_line(method@, reason@))
        },
        pairs(final(warned)@) == if pairs(old(warned)@).contains((method@, reason@)) {
            pairs(old(warned)@)
        } else {
            pairs(old(warned)@).push((method@, reason@))
        },
{
    let ghost known = pairs(warned@);
    let mut i: usize = 0;
    while i < warned.len()
        invariant
            i <= warned@.len(),
            known == pairs(warned@),
            known == pairs(old(warned)@),
            forall|j: int| 0 <= j < i ==> known[j] != (method@, reason@),
        decreases warned@.len() - i,
    {
        if same(warned[i].0.as_str(), method) && same(warned[i].1.as_str(), reason) {
            assert(known[i as int] == (method@, reason@));
            return None;
        }
        i = i + 1;
    }
    push_pair(warned, method, reason);
    let mut line = copy("chronos-php: traceparent not injected into ");
    line.append(method);
    line.append(" (");
    line.append(reason);
    line.append("); publish span recorded, its consumer will start a new trace");
    Some(line)
}

/// The latches once a write was tried.
pub open spec fn latched(
    warned: Seq<(Seq<char>, Seq<char>)>,
    method: Seq<char>,
    refused: Option<Seq<char>>,
) -> Seq<(Seq<char>, Seq<char>)> {
    match refused {
        Some(reason) => if warned.contains((method, reason)) {
            warned
        } else {
            warned.push((method, reason))
        },
        None => warned,
    }
}

/// The line to print once a write was tried: only for a reason not seen before.
pub open spec fn said_once(
    warned: Seq<(Seq<char>, Seq<char>)>,
    method: Seq<char>,
    refused: Option<Seq<char>>,
) -> Option<Seq<char>> {
    match refused {
        Some(reason) => if warned.contains((method, reason)) {
            None
        } else {
            Some(warning_line(method, reason))
        },
        None => None,
    }
}

/// A refusal is said at most once: right after it was said, saying it again
/// gives no line.
pub proof fn law_each_refusal_is_said_once(
    warned: Seq<(Seq<char>, Seq<char>)>,
    method: Seq<char>,
    reason: Seq<char>,
)
    ensures
        said_once(latched(warned, method, Some(reason)), method, Some(reason)) is None,
{
    if !warned.contains((method, reason)) {
        assert(warned.push((method, reason)).last() == (method, reason));
    }
}

fn note_refusal(
    warned: &mut Vec<(String, String)>,
    method: &str,
    injection: Result<(), &'static str>,
) -> (r: Option<String>)
    ensures
        opt_text(r) == said_once(pairs(old(warned)@), method@, reason_of(injection)),
        pairs(final(warned)@) == latched(pairs(old(warned)@), method@, reason_of(injection)),
{
    match injection {
        Ok(_) => None,
        Err(reason) => warn_injection_failure_for(warned, method, reason),
    }
}

/// The frame of a call that is only paired with its end: inside a request, or
/// while a recording is active.
pub open spec fn fallback_frame(
    context: Option<ContextView>,
    recording: bool,
    name: Seq<char>,
) -> Option<FrameView> {
    if context is Some || recording {
        Some(observe_only_view(name))
    } else {
        None
    }
}

/// The frame of a call that is only paired with its end.
pub fn observe_only_fallback(observer: &Observer, name: &str, recording: bool) -> (r: Option<
    CallFrame,
>)
    ensures
        opt_frame(r) == fallback_frame(opt_context(observer.request.context), recording, name@),
{
    if observer.request.context.is_some() || recording {
        Some(CallFrame::observe_only(name))
    } else {
        None
    }
}

/// The frame that a publish leads to: a producer span inside a request, a plain
/// paired frame without one.
pub open spec fn publish_frame(
    request: Request,
    name: Seq<char>,
    minted: Minted,
    recording: bool,
    on_wire: bool,
    label: Seq<char>,
    attributes: Seq<(Seq<char>, Seq<char>)>,
) -> Option<FrameView> {
    match request.context {
        Some(c) => Some(
            FrameView {
                bypass_span_cap: on_wire,
                span_name: Some(label),
                attributes,
                ..begun(
                    c@,
                    texts(request.span_stack@),
                    name,
                    SpanPolicy::MessagingPublish,
                    minted,
                )
            },
        ),
        None => fallback_frame(None, recording, name),
    }
}

/// The observer once a publish has begun: an open request's span is on the
/// stack, a refusal is latched, and nothing else has changed.
pub open spec fn publish_begun(
    before: Observer,
    after: Observer,
    method: Seq<char>,
    minted: Minted,
    refused: Option<Seq<char>>,
) -> bool {
    &&& after == Observer {
        request: Request { span_stack: after.request.span_stack, ..before.request },
        warned: after.warned,
        ..before
    }
    &&& texts(after.request.span_stack@) == match before.request.context {
        Some(_) => texts(before.request.span_stack@).push(minted.span_id@),
        None => texts(before.request.span_stack@),
    }
    &&& pairs(after.warned@) == latched(pairs(before.warned@), method, refused)
}

fn open_frame(request: &mut Request, name: &str, minted: &Minted) -> (r: Option<CallFrame>)
    ensures
        opt_frame(r) == match old(request).context {
            Some(c) => Some(
                begun(
                    c@,
                    texts(old(request).span_stack@),
                    name@,
                    SpanPolicy::MessagingPublish,
                    *minted,
                ),
            ),
            None => None,
        },
        *final(request) == (Request {
            span_stack: final(request).span_stack,
            ..*old(request)
        }),
        texts(final(request).span_stack@) == match old(request).context {
            Some(_) => texts(old(request).span_stack@).push(minted.span_id@),
            None => texts(old(request).span_stack@),
        },
{
    match &request.context {
        Some(c) => Some(
            on_begin(
                c,
                &mut request.span_stack,
                name,
                SpanPolicy::MessagingPublish,
                minted,
            ),
        ),
        None => None,
    }
}

fn refusal(injection: Result<(), &'static str>) -> (r: Option<&'static str>)
    ensures
        opt_reason(r) == reason_of(injection),
        r is None <==> injection is Ok,
{
    match injection {
        Ok(_) => None,
        Err(reason) => Some(reason),
    }
}

fn finish_frame(
    frame: Option<CallFrame>,
    name: &str,
    recording: bool,
    on_wire: bool,
    label: &str,
    attributes: Vec<(String, String)>,
) -> (r: Option<CallFrame>)
    ensures
        opt_frame(r) == match frame {
            Some(f) => Some(
                FrameView {
                    bypass_span_cap: on_wire,
                    span_name: Some(label@),
                    attributes: pairs(attributes@),
                    ..f@
                },
            ),
            None => fallback_frame(None, recording, name@),
        },
{
    match frame {
        Some(f) => {
            let mut f = f;
            f.bypass_span_cap = on_wire;
            f.span_name = Some(copy(label));
            f.attributes = attributes;
            Some(f)
        },
        None => {
            if recording {
                Some(CallFrame::observe_only(name))
            } else {
                None
            }
        },
    }
}

/// What a Bunny publish call shows. Its arguments are the channel, the body, the
/// headers, the exchange and the routing key; the client holds its options.
pub struct AmqpPublishFacts {
    pub exchange: String,
    pub routing_key: String,
    pub content_type: String,
    pub declared_name: String,
    pub body: Option<Vec<u8>>,
    pub vhost: String,
    pub host: String,
    pub port: String,
}

/// Facts as plain contents.
pub struct AmqpPublishView {
    pub exchange: Seq<char>,
    pub routing_key: Seq<char>,
    pub content_type: Seq<char>,
    pub declared_name: Seq<char>,
    pub body: Option<Seq<u8>>,
    pub vhost: Seq<char>,
    pub host: Seq<char>,
    pub port: Seq<char>,
}

impl View for AmqpPublishFacts {
    type V = AmqpPublishView;

    open spec fn view(&self) -> AmqpPublishView {
        AmqpPublishView {
            exchange: self.exchange@,
            routing_key: self.routing_key@,
            content_type: self.content_type@,
            declared_name: self.declared_name@,
            body: opt_bytes(self.body),
            vhost: self.vhost@,
            host: self.host@,
            port: self.port@,
        }
    }
}

/// What a Bunny publish call shows.
pub open spec fn bunny_published(call: Call) -> AmqpPublishView {
    let headers = target(call.arg(2));
    AmqpPublishView {
        exchange: or_empty(capped(scalar_text(call.arg(3)), 512)),
        routing_key: or_empty(capped(scalar_text(call.arg(4)), 512)),
        content_type: trimmed_or_empty(capped(keyed_text(headers, "content-type"@), 256)),
        declared_name: trimmed_or_empty(capped(keyed_text(headers, "type"@), 512)),
        body: raw_bytes(target(call.arg(1))),
        vhost: table_prop(call.this, "options"@, "vhost"@, 256),
        host: table_prop(call.this, "options"@, "host"@, 256),
        port: table_prop(call.this, "options"@, "port"@, 256),
    }
}

/// Read what a Bunny publish call shows.
pub fn bunny_publish_facts(call: &Call) -> (r: AmqpPublishFacts)
    ensures
        r@ == bunny_published(*call),
{
    let client = this_object(call);
    AmqpPublishFacts {
        exchange: text_or_empty(arg_scalar_string(call, 3, 512)),
        routing_key: text_or_empty(arg_scalar_string(call, 4, 512)),
        content_type: trim_or_empty(arg_array_str_key_string(call, 2, "content-type", 256)),
        declared_name: trim_or_empty(arg_array_str_key_string(call, 2, "type", 512)),
        body: arg_string_bytes(call, 1),
        vhost: read_table_prop(client, "options", "vhost", 256),
        host: read_table_prop(client, "options", "host", 256),
        port: read_table_prop(client, "options", "port", 256),
    }
}

/// The class of a payload: the one the caller declared, else the one banked for
/// the payload's bytes, else none.
pub open spec fn message_name(declared: Seq<char>, banked: Option<Seq<char>>) -> Seq<char> {
    if declared.len() > 0 {
        declared
    } else {
        or_empty(banked)
    }
}

fn resolve_name(declared: &str, banked: &Option<String>) -> (r: String)
    ensures
        r@ == message_name(declared@, opt_text(*banked)),
{
    if !declared.is_empty() {
        copy(declared)
    } else {
        match banked {
            Some(s) => s.clone(),
            None => String::new(),
        }
    }
}

/// The attributes of an AMQP publish.
pub open spec fn amqp_publish_attributes(
    facts: AmqpPublishView,
    words: PublishWords,
    file: Option<Seq<char>>,
) -> Seq<(Seq<char>, Seq<char>)> {
    publish_attributes(
        SYSTEM_RABBITMQ@,
        pairs(words.destination@),
        facts.host,
        facts.port,
        None,
        None,
        opt_text(words.protocol),
        facts.content_type,
        message_name(facts.declared_name, opt_text(words.banked_name)),
        size_of_body(facts.body),
        words.body,
        file,
    )
}

fn make_amqp_attributes(
    facts: &AmqpPublishFacts,
    words: &PublishWords,
    name: &str,
    file: &Option<String>,
) -> (r: Vec<(String, String)>)
    requires
        name@ == message_name(facts.declared_name@, opt_text(words.banked_name)),
    ensures
        pairs(r@) == amqp_publish_attributes(facts@, *words, opt_text(*file)),
{
    make_attributes(
        SYSTEM_RABBITMQ,
        &words.destination,
        facts.host.as_str(),
        facts.port.as_str(),
        &None,
        &None,
        &words.protocol,
        facts.content_type.as_str(),
        name,
        &facts.body,
        &words.body,
        file,
    )
}

/// The method that a Bunny publish is warned about under.
pub const BUNNY_PUBLISH_METHOD: &'static str = "Bunny\\AbstractClient::publish";

/// A Bunny publish call begins. Headers go into the headers argument; the stamp
/// rides with every message, the trace only with one published in a request.
pub fn begin_messaging_publish_bunny(
    observer: &mut Observer,
    call: &mut Call,
    name: &str,
    minted: &Minted,
    words: &PublishWords,
    recording: bool,
) -> (r: Begun)
    ensures
        arg_injected(
            *old(call),
            *final(call),
            2,
            publish_entries(
                opt_context(old(observer).request.context),
                minted.span_id@,
                words.stamp@,
                message_name(
                    bunny_published(*old(call)).declared_name,
                    opt_text(words.banked_name),
                ),
            ),
            opt_reason(r.refused),
        ),
        opt_frame(r.frame) == publish_frame(
            old(observer).request,
            name@,
            *minted,
            recording,
            r.refused is None,
            words.label@,
            amqp_publish_attributes(bunny_published(*old(call)), *words, file_of(*old(call))),
        ),
        opt_text(r.warning) == said_once(
            pairs(old(observer).warned@),
            BUNNY_PUBLISH_METHOD@,
            opt_reason(r.refused),
        ),
        publish_begun(
            *old(observer),
            *final(observer),
            BUNNY_PUBLISH_METHOD@,
            *minted,
            opt_reason(r.refused),
        ),
{
    let facts = bunny_publish_facts(call);
    let file = defining_file(call);
    let message = resolve_name(facts.declared_name.as_str(), &words.banked_name);
    let frame = open_frame(&mut observer.request, name, minted);
    let entries = make_entries(
        &observer.request.context,
        minted.span_id.as_str(),
        words.stamp.as_str(),
        message.as_str(),
    );
    let injection = inject_array_entries(call, 2, &entries);
    let warning = note_refusal(&mut observer.warned, BUNNY_PUBLISH_METHOD, injection);
    let refused = refusal(injection);
    let attributes = make_amqp_attributes(&facts, words, message.as_str(), &file);
    let frame = finish_frame(
        frame,
        name,
        recording,
        refused.is_none(),
        words.label.as_str(),
        attributes,
    );
    Begun { frame, refused, warning }
}

/// What a Kafka produce call shows: the partition, the key and the payload.
pub struct KafkaPublishFacts {
    pub partition: Option<i64>,
    pub key: Option<String>,
    pub body: Option<Vec<u8>>,
}

/// The partition argument.
pub open spec fn partition_argument(call: Call) -> Option<i64> {
    match call.arg(0) {
        Zval::Long(n) => Some(n),
        _ => None,
    }
}

/// The key of a Kafka message: an empty one is none.
pub open spec fn kafka_key(call: Call) -> Option<Seq<char>> {
    nonempty(capped(scalar_text(call.arg(3)), 256))
}

fn filter_empty(o: Option<String>) -> (r: Option<String>)
    ensures
        opt_text(r) == nonempty(opt_text(o)),
{
    match o {
        Some(s) => if s.as_str().is_empty() {
            None
        } else {
            Some(s)
        },
        None => None,
    }
}

/// Read what a Kafka produce call shows.
pub fn rdkafka_publish_facts(call: &Call) -> (r: KafkaPublishFacts)
    ensures
        r.partition == partition_argument(*call),
        opt_text(r.key) == kafka_key(*call),
        opt_bytes(r.body) == raw_bytes(target(call.arg(2))),
{
    KafkaPublishFacts {
        partition: arg_long(call, 0),
        key: filter_empty(arg_scalar_string(call, 3, 256)),
        body: arg_string_bytes(call, 2),
    }
}

/// The produce method that has a headers argument.
pub const RDKAFKA_PRODUCEV: &'static str = "RdKafka\\ProducerTopic::producev";

/// A Kafka produce call begins. Only `producev` has a headers argument; the
/// plain form carries nothing, and its span holds no promise to a consumer.
pub fn begin_messaging_publish_rdkafka(
    observer: &mut Observer,
    call: &mut Call,
    name: &str,
    minted: &Minted,
    words: &PublishWords,
    recording: bool,
) -> (r: Begun)
    ensures
        ({
            let with_headers = name@ == RDKAFKA_PRODUCEV@;
            &&& if with_headers {
                arg_injected(
                    *old(call),
                    *final(call),
                    4,
                    publish_entries(
                        opt_context(old(observer).request.context),
                        minted.span_id@,
                        words.stamp@,
                        or_empty(opt_text(words.banked_name)),
                    ),
                    opt_reason(r.refused),
                )
            } else {
                *final(call) == *old(call) && r.refused is None
            }
            &&& opt_frame(r.frame) == publish_frame(
                old(observer).request,
                name@,
                *minted,
                recording,
                with_headers && r.refused is None,
                words.label@,
                publish_attributes(
                    SYSTEM_KAFKA@,
                    pairs(words.destination@),
                    Seq::empty(),
                    Seq::empty(),
                    opt_text(words.partition),
                    kafka_key(*old(call)),
                    None,
                    Seq::empty(),
                    or_empty(opt_text(words.banked_name)),
                    size_of_body(raw_bytes(target(old(call).arg(2)))),
                    words.body,
                    file_of(*old(call)),
                ),
            )
            &&& opt_text(r.warning) == said_once(
                pairs(old(observer).warned@),
                RDKAFKA_PRODUCEV@,
                opt_reason(r.refused),
            )
            &&& publish_begun(
                *old(observer),
                *final(observer),
                RDKAFKA_PRODUCEV@,
                *minted,
                opt_reason(r.refused),
            )
        }),
{
    let facts = rdkafka_publish_facts(call);
    let file = defining_file(call);
    let message = resolve_name("", &words.banked_name);
    proof {
        reveal_strlit("");
        assert(""@.len() == 0);
    }
    let frame = open_frame(&mut observer.request, name, minted);
    let with_headers = same(name, RDKAFKA_PRODUCEV);
    let injection = if with_headers {
        let entries = make_entries(
            &observer.request.context,
            minted.span_id.as_str(),
            words.stamp.as_str(),
            message.as_str(),
        );
        inject_array_entries(call, 4, &entries)
    } else {
        Ok(())
    };
    let warning = note_refusal(&mut observer.warned, RDKAFKA_PRODUCEV, injection);
    let refused = refusal(injection);
    let blank = String::new();
    let attributes = make_attributes(
        SYSTEM_KAFKA,
        &words.destination,
        blank.as_str(),
        blank.as_str(),
        &words.partition,
        &facts.key,
        &None,
        blank.as_str(),
        message.as_str(),
        &facts.body,
        &words.body,
        &file,
    );
    let frame = finish_frame(
        frame,
        name,
        recording,
        with_headers && refused.is_none(),
        words.label.as_str(),
        attributes,
    );
    Begun { frame, refused, warning }
}

/// The payload of a message object.
pub open spec fn body_of(o: Object) -> Option<Seq<u8>> {
    raw_bytes(o.property("body"@))
}

/// What an amqplib publish call shows. Its arguments are the message, the
/// exchange and the routing key; the broker is found through the channel's
/// connection.
pub open spec fn amqplib_published(call: Call, message: Object) -> AmqpPublishView {
    let connection = inner(call.this, "connection"@);
    let io = inner(connection, "io"@);
    AmqpPublishView {
        exchange: or_empty(capped(scalar_text(call.arg(1)), 512)),
        routing_key: or_empty(capped(scalar_text(call.arg(2)), 512)),
        content_type: table_prop(Some(message), "properties"@, "content_type"@, 256),
        declared_name: table_prop(Some(message), "properties"@, "type"@, 512),
        body: body_of(message),
        vhost: prop(connection, "vhost"@, 256),
        host: prop(io, "host"@, 256),
        port: prop(io, "port"@, 32),
    }
}

/// Read what an amqplib publish call shows: nothing without a message.
pub fn amqplib_publish_facts(call: &Call) -> (r: Option<AmqpPublishFacts>)
    ensures
        match (r, call.object_arg(0)) {
            (Some(facts), Some(message)) => facts@ == amqplib_published(*call, message),
            (None, None) => true,
            _ => false,
        },
{
    let message = match arg_object(call, 0) {
        Some(m) => m,
        None => {
            return None;
        },
    };
    let connection = read_inner(this_object(call), "connection");
    let io = read_inner(connection, "io");
    Some(
        AmqpPublishFacts {
            exchange: text_or_empty(arg_scalar_string(call, 1, 512)),
            routing_key: text_or_empty(arg_scalar_string(call, 2, 512)),
            content_type: read_table_prop(Some(message), "properties", "content_type", 256),
            declared_name: read_table_prop(Some(message), "properties", "type", 512),
            body: object_property_bytes(message, "body"),
            vhost: read_prop(connection, "vhost", 256),
            host: read_prop(io, "host", 256),
            port: read_prop(io, "port", 32),
        },
    )
}

/// The method that an amqplib publish is warned about under.
pub const AMQPLIB_PUBLISH_METHOD: &'static str = "PhpAmqpLib\\Channel\\AMQPChannel::basic_publish";

/// What declining to act on a call leads to.
pub open spec fn declined(
    before: Observer,
    after: Observer,
    r: Begun,
    recording: bool,
    name: Seq<char>,
) -> bool {
    &&& after == before
    &&& opt_frame(r.frame) == fallback_frame(opt_context(before.request.context), recording, name)
    &&& r.refused is None
    &&& r.warning is None
}

/// An amqplib publish call begins. Headers go into the message's application
/// headers. A call without a message is only paired with its end.
pub fn begin_messaging_publish_amqplib(
    observer: &mut Observer,
    call: &mut Call,
    name: &str,
    minted: &Minted,
    words: &PublishWords,
    recording: bool,
) -> (r: Begun)
    ensures
        match old(call).object_arg(0) {
            None => *final(call) == *old(call) && declined(
                *old(observer),
                *final(observer),
                r,
                recording,
                name@,
            ),
            Some(message) => {
                let facts = amqplib_published(*old(call), message);
                &&& same_but_arg(*old(call), *final(call), 0)
                &&& final(call).object_arg(0) matches Some(written)
                &&& message_injected(
                    message,
                    written,
                    publish_entries(
                        opt_context(old(observer).request.context),
                        minted.span_id@,
                        words.stamp@,
                        message_name(facts.declared_name, opt_text(words.banked_name)),
                    ),
                    opt_reason(r.refused),
                )
                &&& opt_frame(r.frame) == publish_frame(
                    old(observer).request,
                    name@,
                    *minted,
                    recording,
                    r.refused is None,
                    words.label@,
                    amqp_publish_attributes(facts, *words, file_of(*old(call))),
                )
                &&& opt_text(r.warning) == said_once(
                    pairs(old(observer).warned@),
                    AMQPLIB_PUBLISH_METHOD@,
                    opt_reason(r.refused),
                )
                &&& publish_begun(
                    *old(observer),
                    *final(observer),
                    AMQPLIB_PUBLISH_METHOD@,
                    *minted,
                    opt_reason(r.refused),
                )
            },
        },
{
    let facts = match amqplib_publish_facts(call) {
        Some(f) => f,
        None => {
            let frame = observe_only_fallback(observer, name, recording);
            return Begun { frame, refused: None, warning: None };
        },
    };
    let file = defining_file(call);
    let message = resolve_name(facts.declared_name.as_str(), &words.banked_name);
    let frame = open_frame(&mut observer.request, name, minted);
    let entries = make_entries(
        &observer.request.context,
        minted.span_id.as_str(),
        words.stamp.as_str(),
        message.as_str(),
    );
    let injection = inject_arg_application_headers(call, 0, &entries);
    let warning = note_refusal(&mut observer.warned, AMQPLIB_PUBLISH_METHOD, injection);
    let refused = refusal(injection);
    let attributes = make_amqp_attributes(&facts, words, message.as_str(), &file);
    let frame = finish_frame(
        frame,
        name,
        recording,
        refused.is_none(),
        words.label.as_str(),
        attributes,
    );
    Begun { frame, refused, warning }
}

/// What a NATS publish message shows: the subject, and the payload's type and
/// bytes.
pub struct NatsPublishFacts {
    pub subject: String,
    pub content_type: String,
    pub body: Option<Vec<u8>>,
}

/// Read what a NATS publish message shows: nothing without a payload object.
pub fn nats_publish_facts(call: &Call) -> (r: Option<NatsPublishFacts>)
    ensures
        match (r, inner(call.object_arg(0), "payload"@)) {
            (Some(facts), Some(payload)) => {
                &&& facts.subject@ == prop(call.object_arg(0), "subject"@, 512)
                &&& facts.content_type@ == table_prop(
                    Some(payload),
                    "headers"@,
                    "content-type"@,
                    256,
                )
                &&& opt_bytes(facts.body) == body_of(payload)
            },
            (None, None) => true,
            _ => false,
        },
{
    let message = arg_object(call, 0);
    match read_inner(message, "payload") {
        Some(payload) => Some(
            NatsPublishFacts {
                subject: read_prop(message, "subject", 512),
                content_type: read_table_prop(Some(payload), "headers", "content-type", 256),
                body: object_property_bytes(payload, "body"),
            },
        ),
        None => None,
    }
}

/// What beginning a NATS publish does, for a message with a payload object.
pub open spec fn nats_published(
    before: Observer,
    after: Observer,
    call: Call,
    written: Call,
    payload: Object,
    name: Seq<char>,
    minted: Minted,
    words: PublishWords,
    recording: bool,
    r: Begun,
) -> bool {
    &&& same_but_arg(call, written, 0)
    &&& written.object_arg(0) matches Some(message)
    &&& same_but_for(call.object_arg(0)->0, message, "payload"@)
    &&& message.object("payload"@) matches Some(sent)
    &&& headers_injected(
        payload,
        sent,
        "headers"@,
        publish_entries(
            opt_context(before.request.context),
            minted.span_id@,
            words.stamp@,
            or_empty(opt_text(words.banked_name)),
        ),
        opt_reason(r.refused),
    )
    &&& opt_frame(r.frame) == publish_frame(
        before.request,
        name,
        minted,
        recording,
        r.refused is None,
        words.label@,
        publish_attributes(
            SYSTEM_NATS@,
            pairs(words.destination@),
            Seq::empty(),
            Seq::empty(),
            None,
            None,
            opt_text(words.protocol),
            table_prop(Some(payload), "headers"@, "content-type"@, 256),
            or_empty(opt_text(words.banked_name)),
            size_of_body(body_of(payload)),
            words.body,
            file_of(call),
        ),
    )
    &&& opt_text(r.warning) == said_once(
        pairs(before.warned@),
        MESSAGING_NATS_SEND_METHOD@,
        opt_reason(r.refused),
    )
    &&& publish_begun(
        before,
        after,
        MESSAGING_NATS_SEND_METHOD@,
        minted,
        opt_reason(r.refused),
    )
}

/// A NATS publish begins. Headers go into the payload's headers. A message
/// without a payload object is only paired with its end.
pub fn begin_nats_publish(
    observer: &mut Observer,
    call: &mut Call,
    name: &str,
    minted: &Minted,
    words: &PublishWords,
    recording: bool,
) -> (r: Begun)
    ensures
        match inner(old(call).object_arg(0), "payload"@) {
            None => *final(call) == *old(call) && declined(
                *old(observer),
                *final(observer),
                r,
                recording,
                name@,
            ),
            Some(payload) => nats_published(
                *old(observer),
                *final(observer),
                *old(call),
                *final(call),
                payload,
                name@,
                *minted,
                *words,
                recording,
                r,
            ),
        },
{
    let facts = match nats_publish_facts(call) {
        Some(f) => f,
        None => {
            let frame = observe_only_fallback(observer, name, recording);
            return Begun { frame, refused: None, warning: None };
        },
    };
    let file = defining_file(call);
    let message = resolve_name("", &words.banked_name);
    proof {
        reveal_strlit("");
        assert(""@.len() == 0);
    }
    let frame = open_frame(&mut observer.request, name, minted);
    let entries = make_entries(
        &observer.request.context,
        minted.span_id.as_str(),
        words.stamp.as_str(),
        message.as_str(),
    );
    let injection = inject_arg_inner_property(call, 0, "payload", "headers", &entries);
    let warning = note_refusal(&mut observer.warned, MESSAGING_NATS_SEND_METHOD, injection);
    let refused = refusal(injection);
    let blank = String::new();
    let attributes = make_attributes(
        SYSTEM_NATS,
        &words.destination,
        blank.as_str(),
        blank.as_str(),
        &None,
        &None,
        &words.protocol,
        facts.content_type.as_str(),
        message.as_str(),
        &facts.body,
        &words.body,
        &file,
    );
    let frame = finish_frame(
        frame,
        name,
        recording,
        refused.is_none(),
        words.label.as_str(),
        attributes,
    );
    Begun { frame, refused, warning }
}

/// What the NATS client's send method is about to put on the wire.
#[derive(Clone, Copy, Debug, PartialEq, Eq, Structural)]
pub enum NatsSend {
    Publish,
    Subscribe,
    Other,
}

/// The role of a NATS send, told by the class of its message.
pub open spec fn nats_role(call: Call) -> NatsSend {
    match call.object_arg(0) {
        Some(m) => if instance_of(m, "Basis\\Nats\\Message\\Publish"@) {
            NatsSend::Publish
        } else if instance_of(m, "Basis\\Nats\\Message\\Subscribe"@) {
            NatsSend::Subscribe
        } else {
            NatsSend::Other
        },
        None => NatsSend::Other,
    }
}

/// The role of a NATS send.
pub fn nats_send_role(call: &Call) -> (r: NatsSend)
    ensures
        r == nats_role(*call),
{
    match arg_object(call, 0) {
        Some(m) => if object_instance_of(m, "Basis\\Nats\\Message\\Publish") {
            NatsSend::Publish
        } else if object_instance_of(m, "Basis\\Nats\\Message\\Subscribe") {
            NatsSend::Subscribe
        } else {
            NatsSend::Other
        },
        None => NatsSend::Other,
    }
}

/// Whether a NATS send is observed as a publish.
pub open spec fn nats_publishes(observer: Observer, call: Call) -> bool {
    nats_role(call) == NatsSend::Publish && !observer.request.suppress_messaging && inner(
        call.object_arg(0),
        "payload"@,
    ) is Some
}

/// A NATS send begins. A publish is observed unless userland declared that it
/// does so itself; a subscription is remembered either way; anything else is
/// only paired with its end.
pub fn begin_nats_send_message(
    observer: &mut Observer,
    call: &mut Call,
    name: &str,
    minted: &Minted,
    words: &PublishWords,
    recording: bool,
) -> (r: Begun)
    ensures
        !nats_publishes(*old(observer), *old(call)) ==> {
            &&& *final(call) == *old(call)
            &&& r.refused is None && r.warning is None
            &&& opt_frame(r.frame) == fallback_frame(
                opt_context(old(observer).request.context),
                recording,
                name@,
            )
            &&& *final(observer) == (Observer {
                subscriptions: final(observer).subscriptions,
                ..*old(observer)
            })
            &&& final(observer).subscriptions == (Subscriptions {
                sids: final(observer).subscriptions.sids,
                ..old(observer).subscriptions
            })
            &&& sid_views(final(observer).subscriptions.sids@) == match nats_role(*old(call)) {
                NatsSend::Subscribe => match nats_subscription(old(call).object_arg(0)->0) {
                    Some(new) => sid_banked(sid_views(old(observer).subscriptions.sids@), new),
                    None => sid_views(old(observer).subscriptions.sids@),
                },
                _ => sid_views(old(observer).subscriptions.sids@),
            }
        },
        nats_publishes(*old(observer), *old(call)) ==> nats_published(
            *old(observer),
            *final(observer),
            *old(call),
            *final(call),
            inner(old(call).object_arg(0), "payload"@)->0,
            name@,
            *minted,
            *words,
            recording,
            r,
        ),
{
    match nats_send_role(call) {
        NatsSend::Publish => {
            if observer.request.suppress_messaging {
                let frame = observe_only_fallback(observer, name, recording);
                return Begun { frame, refused: None, warning: None };
            }
            begin_nats_publish(observer, call, name, minted, words, recording)
        },
        NatsSend::Subscribe => {
            if let Some(message) = arg_object(call, 0) {
                bank_nats_subscribe(&mut observer.subscriptions.sids, message);
            }
            let frame = observe_only_fallback(observer, name, recording);
            Begun { frame, refused: None, warning: None }
        },
        NatsSend::Other => {
            let frame = observe_only_fallback(observer, name, recording);
            Begun { frame, refused: None, warning: None }
        },
    }
}

/// A caller's own header always wins, and otherwise the consumer reads back the
/// `traceparent` of the very span that the publish records.
pub proof fn law_published_traceparent_names_the_span(
    before: Seq<(Key, Zval)>,
    after: Seq<(Key, Zval)>,
    context: ContextView,
    span_id: Seq<char>,
    stamp: Seq<char>,
    name: Seq<char>,
    shape: Shape,
)
    requires
        grown(before, after, publish_entries(Some(context), span_id, stamp, name), shape),
    ensures
        header_in(after, "traceparent"@) == if entry_at(before, "traceparent"@) is Some {
            header_in(before, "traceparent"@)
        } else {
            Some(traceparent_of(context, span_id))
        },
{
    let entries = publish_entries(Some(context), span_id, stamp, name);
    let key = "traceparent"@;
    assert(entries[0] == (key, traceparent_of(context, span_id)));
    if entry_at(before, key) is Some {
        crate::zend_helpers::law_added_headers_never_replace(before, after, entries, shape, key);
    } else {
        crate::zend_helpers::law_added_header_reads_back(before, after, entries, shape, key);
    }
}

/// A `traceparent` on the wire is a promise: the span of a publish whose headers
/// were written is recorded however the call ends, however short it was, and
/// however many spans the request already holds.
pub proof fn law_a_published_span_is_always_recorded(
    request: Request,
    method: Seq<char>,
    minted: Minted,
    recording: bool,
    label: Seq<char>,
    system: Seq<char>,
    destination: Seq<(Seq<char>, Seq<char>)>,
    host: Seq<char>,
    port: Seq<char>,
    partition: Option<Seq<char>>,
    key: Option<Seq<char>>,
    protocol: Option<Seq<char>>,
    content_type: Seq<char>,
    name: Seq<char>,
    size: Option<nat>,
    body: BodyFacts,
    file: Option<Seq<char>>,
    threw: bool,
    min_nanos: nat,
    at: EndReading,
    recorded: nat,
)
    requires
        request.context is Some,
    ensures
        ({
            let attributes = publish_attributes(
                system,
                destination,
                host,
                port,
                partition,
                key,
                protocol,
                content_type,
                name,
                size,
                body,
                file,
            );
            let frame = publish_frame(request, method, minted, recording, true, label, attributes);
            &&& frame matches Some(f)
            &&& emits(f, threw, min_nanos, at, recorded)
            &&& ended_span(f, threw, at).span_id == minted.span_id@
            &&& f.injected_traceparent == Some(
                traceparent_of(request.context->0@, minted.span_id@),
            )
        }),
{
    let a = seq![
        ("span.kind"@, "producer"@),
        ("messaging.system"@, system),
        ("messaging.operation"@, "publish"@),
    ] + destination;
    assert(a.len() >= 3);
}

/// A message that was serialized: the class of the object, and its bytes.
pub struct SerializedMessage {
    pub class: String,
    pub bytes: Vec<u8>,
}

/// Whether a message is what a serializer call leaves.
pub open spec fn serialized(message: Option<SerializedMessage>, call: Call, retval: Zval) -> bool {
    match message {
        Some(m) => {
            &&& call.this matches Some(o)
            &&& class_of(o) == Some(m.class@)
            &&& raw_bytes(target(retval)) == Some(m.bytes@)
            &&& m.bytes@.len() > 0
        },
        None => {
            ||| call.this is None
            ||| class_of(call.this->0) is None
            ||| raw_bytes(target(retval)) is None
            ||| raw_bytes(target(retval))->0.len() == 0
        },
    }
}

/// What a serializer call leaves for a later publish of the same bytes: nothing
/// without an object, its class, or a string result that is not empty.
pub fn bank_serialized_message(call: &Call, retval: &Zval) -> (r: Option<SerializedMessage>)
    ensures
        serialized(r, *call, *retval),
{
    let object = match this_object(call) {
        Some(o) => o,
        None => {
            return None;
        },
    };
    let class = match object_class_name(object) {
        Some(c) => c,
        None => {
            return None;
        },
    };
    match retval_string_bytes(retval) {
        Some(bytes) => if bytes.len() == 0 {
            None
        } else {
            Some(SerializedMessage { class, bytes })
        },
        None => None,
    }
}

/// What a list says of a payload: nothing of none; of one its size, and of what was
/// captured the text, that it is in base64, that it is cut, and that it is stored.
pub open spec fn tells_body(
    a: Seq<(Seq<char>, Seq<char>)>,
    bytes: Option<Seq<u8>>,
    body: BodyFacts,
) -> bool {
    let p = body.preview;
    match bytes {
        None => {
            &&& pair_value(a, "messaging.message.body.size"@) is None
            &&& pair_value(a, "messaging.message.body"@) is None
            &&& pair_value(a, "messaging.message.body.encoding"@) is None
            &&& pair_value(a, "messaging.message.body.truncated"@) is None
            &&& pair_value(a, "messaging.message.body.stored"@) is None
        },
        Some(b) => {
            &&& pair_value(a, "messaging.message.body.size"@) == Some(decimal(b.len()))
            &&& p is None ==> pair_value(a, "messaging.message.body"@) is None
            &&& p matches Some(q) ==> pair_value(a, "messaging.message.body"@) == Some(q.body@)
            &&& says_if(a, "messaging.message.body.encoding"@, p is Some && p->0.base64, "base64"@)
            &&& says_if(a, "messaging.message.body.truncated"@, p is Some && p->0.truncated, "true"@)
            &&& says_if(a, "messaging.message.body.stored"@, body.stored, "true"@)
        },
    }
}

/// Whether a list says a text under a key on a condition, and else nothing.
pub open spec fn says_if(
    a: Seq<(Seq<char>, Seq<char>)>,
    key: Seq<char>,
    condition: bool,
    value: Seq<char>,
) -> bool {
    &&& condition ==> pair_value(a, key) == Some(value)
    &&& !condition ==> pair_value(a, key) is None
}

pub proof fn lemma_tells_body(
    a: Seq<(Seq<char>, Seq<char>)>,
    bytes: Option<Seq<u8>>,
    body: BodyFacts,
)
    ensures
        ({
            let after = with_body(a, size_of_body(bytes), body);
            &&& (forall|k: Seq<char>| k != "messaging.message.body.size"@ && k
                != "messaging.message.body"@ && k != "messaging.message.body.encoding"@ && k
                != "messaging.message.body.truncated"@ && k != "messaging.message.body.stored"@
                ==> #[trigger] pair_value(after, k) == pair_value(a, k))
            &&& tells_body(a, None, body) ==> tells_body(after, bytes, body)
        }),
{
    reveal_strlit("messaging.message.body.size");
    reveal_strlit("messaging.message.body");
    reveal_strlit("messaging.message.body.encoding");
    reveal_strlit("messaging.message.body.truncated");
    reveal_strlit("messaging.message.body.stored");
    assert("messaging.message.body.size"@.len() == 27);
    assert("messaging.message.body"@.len() == 22);
    assert("messaging.message.body.encoding"@.len() == 31);
    assert("messaging.message.body.truncated"@.len() == 32);
    assert("messaging.message.body.stored"@.len() == 29);
    if let Some(b) = bytes {
        let size = Some(decimal(b.len()));
        lemma_under(a, "messaging.message.body.size"@, size);
        let a1 = with_some(a, "messaging.message.body.size"@, size);
        let a4 = match body.preview {
            Some(p) => {
                lemma_under(a1, "messaging.message.body"@, Some(p.body@));
                let a2 = with_some(a1, "messaging.message.body"@, Some(p.body@));
                lemma_under_if(a2, p.base64, "messaging.message.body.encoding"@, "base64"@);
                let a3 = with_if(a2, p.base64, "messaging.message.body.encoding"@, "base64"@);
                lemma_under_if(a3, p.truncated, "messaging.message.body.truncated"@, "true"@);
                with_if(a3, p.truncated, "messaging.message.body.truncated"@, "true"@)
            },
            None => a1,
        };
        lemma_under_if(a4, body.stored, "messaging.message.body.stored"@, "true"@);
        assert(with_body(a, size_of_body(bytes), body) == with_if(
            a4,
            body.stored,
            "messaging.message.body.stored"@,
            "true"@,
        ));
    }
}

/// A payload says on an empty list its size and what was captured of it, and nothing
/// where there is none.
pub proof fn law_what_a_payload_says(
    list: &mut Vec<(String, String)>,
    bytes: &Option<Vec<u8>>,
    body: &BodyFacts,
)
    requires
        call_ensures(push_body, (list, bytes, body), ()),
        old(list)@.len() == 0,
    ensures
        tells_body(pairs(final(list)@), opt_bytes(*bytes), *body),
{
    assert(pairs(old(list)@) =~= Seq::empty());
    lemma_tells_body(pairs(old(list)@), opt_bytes(*bytes), *body);
}

/// Whether entries are those that ride with a message: the `traceparent` of its span
/// and the rest of the open request's trace, when it was enqueued, and the class of
/// its payload where that is known.
pub open spec fn tells_entries(
    e: Seq<(Seq<char>, Seq<char>)>,
    context: Option<TraceContext>,
    header: Seq<char>,
    stamp: Seq<char>,
    name: Seq<char>,
) -> bool {
    &&& pair_value(e, "x-chronos-enqueued-at"@) == Some(stamp)
    &&& says_if(e, "x-chronos-schema"@, name.len() > 0, name)
    &&& says_if(e, "traceparent"@, context is Some, header)
    &&& context is None ==> pair_value(e, "tracestate"@) is None && pair_value(e, "baggage"@) is None
    &&& context matches Some(c) ==> pair_value(e, "tracestate"@) == opt_text(c.tracestate)
        && pair_value(e, "baggage"@) == opt_text(c.baggage)
}

proof fn lemma_tells_entries(
    context: Option<TraceContext>,
    span_id: Seq<char>,
    stamp: Seq<char>,
    name: Seq<char>,
)
    ensures
        tells_entries(
            publish_entries(opt_context(context), span_id, stamp, name),
            context,
            traceparent_of(context->0@, span_id),
            stamp,
            name,
        ),
{
    reveal_strlit("traceparent");
    reveal_strlit("tracestate");
    reveal_strlit("baggage");
    reveal_strlit("x-chronos-enqueued-at");
    reveal_strlit("x-chronos-schema");
    assert("traceparent"@.len() == 11);
    assert("tracestate"@.len() == 10);
    assert("baggage"@.len() == 7);
    assert("x-chronos-enqueued-at"@.len() == 21);
    assert("x-chronos-schema"@.len() == 16);
    let none = Seq::<(Seq<char>, Seq<char>)>::empty();
    let e = match context {
        Some(c) => {
            let header = Some(traceparent_of(c@, span_id));
            lemma_under(none, "traceparent"@, header);
            let e1 = with_some(none, "traceparent"@, header);
            assert(e1 =~= seq![("traceparent"@, header->0)]);
            lemma_under(e1, "tracestate"@, c@.tracestate);
            let e2 = with_some(e1, "tracestate"@, c@.tracestate);
            lemma_under(e2, "baggage"@, c@.baggage);
            with_some(e2, "baggage"@, c@.baggage)
        },
        None => none,
    };
    lemma_under(e, "x-chronos-enqueued-at"@, Some(stamp));
    let f = with_some(e, "x-chronos-enqueued-at"@, Some(stamp));
    lemma_under_if(f, name.len() > 0, "x-chronos-schema"@, name);
}

/// Whether attributes are those of a publish: a producer's, of a messaging system,
/// with the destination, the server, the partition and the key of a Kafka message,
/// the protocol, and what is known of the payload and its place in the code.
pub open spec fn tells_publish(
    a: Seq<(Seq<char>, Seq<char>)>,
    system: Seq<char>,
    destination: Seq<(Seq<char>, Seq<char>)>,
    host: Seq<char>,
    port: Seq<char>,
    partition: Option<Seq<char>>,
    key: Option<Seq<char>>,
    protocol: Option<Seq<char>>,
    content_type: Seq<char>,
    name: Seq<char>,
    bytes: Option<Seq<u8>>,
    body: BodyFacts,
    file: Option<Seq<char>>,
) -> bool {
    let n = 3 + destination.len();
    let own = a.take(3) + a.skip(n as int);
    &&& a.len() >= n
    &&& a.subrange(3, n as int) == destination
    &&& pair_value(own, "span.kind"@) == Some("producer"@)
    &&& pair_value(own, "messaging.system"@) == Some(system)
    &&& pair_value(own, "messaging.operation"@) == Some("publish"@)
    &&& says_if(own, "server.address"@, host.len() > 0, host)
    &&& says_if(own, "server.port"@, port.len() > 0, port)
    &&& pair_value(own, "messaging.kafka.destination.partition"@) == partition
    &&& pair_value(own, "messaging.kafka.message.key"@) == key
    &&& pair_value(own, "messaging.protocol"@) == protocol
    &&& says_if(own, "messaging.message.body.content_type"@, content_type.len() > 0, content_type)
    &&& says_if(own, "messaging.message.name"@, name.len() > 0, name)
    &&& tells_body(own, bytes, body)
    &&& pair_value(own, "code.filepath"@) == file
}

proof fn lemma_own_attributes(
    system: Seq<char>,
    host: Seq<char>,
    port: Seq<char>,
    partition: Option<Seq<char>>,
    key: Option<Seq<char>>,
    protocol: Option<Seq<char>>,
    content_type: Seq<char>,
    name: Seq<char>,
    bytes: Option<Seq<u8>>,
    body: BodyFacts,
    file: Option<Seq<char>>,
)
    ensures
        ({
            let own = publish_attributes(
                system,
                Seq::empty(),
                host,
                port,
                partition,
                key,
                protocol,
                content_type,
                name,
                size_of_body(bytes),
                body,
                file,
            );
            &&& pair_value(own, "span.kind"@) == Some("producer"@)
            &&& pair_value(own, "messaging.system"@) == Some(system)
            &&& pair_value(own, "messaging.operation"@) == Some("publish"@)
            &&& says_if(own, "server.address"@, host.len() > 0, host)
            &&& says_if(own, "server.port"@, port.len() > 0, port)
            &&& pair_value(own, "messaging.kafka.destination.partition"@) == partition
            &&& pair_value(own, "messaging.kafka.message.key"@) == key
            &&& pair_value(own, "messaging.protocol"@) == protocol
            &&& says_if(
                own,
                "messaging.message.body.content_type"@,
                content_type.len() > 0,
                content_type,
            )
            &&& says_if(own, "messaging.message.name"@, name.len() > 0, name)
            &&& tells_body(own, bytes, body)
            &&& pair_value(own, "code.filepath"@) == file
        }),
{
    let start = publish_start(system, host, port, partition, key);
    lemma_publish_start(system, host, port, partition, key);
    lemma_publish_end(start, protocol, content_type, name, bytes, body, file);
    let none = Seq::<(Seq<char>, Seq<char>)>::empty();
    let head = seq![
        ("span.kind"@, "producer"@),
        ("messaging.system"@, system),
        ("messaging.operation"@, "publish"@),
    ];
    assert(head + none =~= head);
}

/// What a publish says up to the key of its message, beside its destination.
spec fn publish_start(
    system: Seq<char>,
    host: Seq<char>,
    port: Seq<char>,
    partition: Option<Seq<char>>,
    key: Option<Seq<char>>,
) -> Seq<(Seq<char>, Seq<char>)> {
    let a = seq![
        ("span.kind"@, "producer"@),
        ("messaging.system"@, system),
        ("messaging.operation"@, "publish"@),
    ];
    let a = with_if(a, host.len() > 0, "server.address"@, host);
    let a = with_if(a, port.len() > 0, "server.port"@, port);
    let a = with_some(a, "messaging.kafka.destination.partition"@, partition);
    with_some(a, "messaging.kafka.message.key"@, key)
}

/// What a publish says from its protocol on.
spec fn publish_end(
    a: Seq<(Seq<char>, Seq<char>)>,
    protocol: Option<Seq<char>>,
    content_type: Seq<char>,
    name: Seq<char>,
    size: Option<nat>,
    body: BodyFacts,
    file: Option<Seq<char>>,
) -> Seq<(Seq<char>, Seq<char>)> {
    let a = with_some(a, "messaging.protocol"@, protocol);
    let a = with_if(
        a,
        content_type.len() > 0,
        "messaging.message.body.content_type"@,
        content_type,
    );
    let a = with_if(a, name.len() > 0, "messaging.message.name"@, name);
    let a = with_body(a, size, body);
    with_some(a, "code.filepath"@, file)
}

proof fn lemma_publish_start(
    system: Seq<char>,
    host: Seq<char>,
    port: Seq<char>,
    partition: Option<Seq<char>>,
    key: Option<Seq<char>>,
)
    ensures
        ({
            let a = publish_start(system, host, port, partition, key);
            &&& pair_value(a, "span.kind"@) == Some("producer"@)
            &&& pair_value(a, "messaging.system"@) == Some(system)
            &&& pair_value(a, "messaging.operation"@) == Some("publish"@)
            &&& says_if(a, "server.address"@, host.len() > 0, host)
            &&& says_if(a, "server.port"@, port.len() > 0, port)
            &&& pair_value(a, "messaging.kafka.destination.partition"@) == partition
            &&& pair_value(a, "messaging.kafka.message.key"@) == key
            &&& forall|k: Seq<char>|
                k != "span.kind"@ && k != "messaging.system"@ && k != "messaging.operation"@ && k
                    != "server.address"@ && k != "server.port"@ && k
                    != "messaging.kafka.destination.partition"@ && k
                    != "messaging.kafka.message.key"@ ==> #[trigger] pair_value(a, k) is None
        }),
{
    reveal_strlit("span.kind");
    reveal_strlit("messaging.system");
    reveal_strlit("messaging.operation");
    reveal_strlit("server.address");
    reveal_strlit("server.port");
    reveal_strlit("messaging.kafka.destination.partition");
    reveal_strlit("messaging.kafka.message.key");
    assert("span.kind"@.len() == 9);
    assert("messaging.system"@.len() == 16);
    assert("messaging.operation"@.len() == 19);
    assert("server.address"@.len() == 14);
    assert("server.port"@.len() == 11);
    assert("messaging.kafka.destination.partition"@.len() == 37);
    assert("messaging.kafka.message.key"@.len() == 27);
    let none = Seq::<(Seq<char>, Seq<char>)>::empty();
    lemma_under(none, "span.kind"@, Some("producer"@));
    let b0 = with_some(none, "span.kind"@, Some("producer"@));
    lemma_under(b0, "messaging.system"@, Some(system));
    let b1 = with_some(b0, "messaging.system"@, Some(system));
    lemma_under(b1, "messaging.operation"@, Some("publish"@));
    let a0 = with_some(b1, "messaging.operation"@, Some("publish"@));
    assert(a0 =~= seq![
        ("span.kind"@, "producer"@),
        ("messaging.system"@, system),
        ("messaging.operation"@, "publish"@),
    ]);
    lemma_under_if(a0, host.len() > 0, "server.address"@, host);
    let a1 = with_if(a0, host.len() > 0, "server.address"@, host);
    lemma_under_if(a1, port.len() > 0, "server.port"@, port);
    let a2 = with_if(a1, port.len() > 0, "server.port"@, port);
    lemma_under(a2, "messaging.kafka.destination.partition"@, partition);
    let a3 = with_some(a2, "messaging.kafka.destination.partition"@, partition);
    lemma_under(a3, "messaging.kafka.message.key"@, key);
}

proof fn lemma_publish_end(
    start: Seq<(Seq<char>, Seq<char>)>,
    protocol: Option<Seq<char>>,
    content_type: Seq<char>,
    name: Seq<char>,
    bytes: Option<Seq<u8>>,
    body: BodyFacts,
    file: Option<Seq<char>>,
)
    requires
        forall|k: Seq<char>|
            k != "span.kind"@ && k != "messaging.system"@ && k != "messaging.operation"@ && k
                != "server.address"@ && k != "server.port"@ && k
                != "messaging.kafka.destination.partition"@ && k
                != "messaging.kafka.message.key"@ ==> #[trigger] pair_value(start, k) is None,
    ensures
        ({
            let a = publish_end(
                start,
                protocol,
                content_type,
                name,
                size_of_body(bytes),
                body,
                file,
            );
            &&& pair_value(a, "span.kind"@) == pair_value(start, "span.kind"@)
            &&& pair_value(a, "messaging.system"@) == pair_value(start, "messaging.system"@)
            &&& pair_value(a, "messaging.operation"@) == pair_value(start, "messaging.operation"@)
            &&& pair_value(a, "server.address"@) == pair_value(start, "server.address"@)
            &&& pair_value(a, "server.port"@) == pair_value(start, "server.port"@)
            &&& pair_value(a, "messaging.kafka.destination.partition"@) == pair_value(
                start,
                "messaging.kafka.destination.partition"@,
            )
            &&& pair_value(a, "messaging.kafka.message.key"@) == pair_value(
                start,
                "messaging.kafka.message.key"@,
            )
            &&& pair_value(a, "messaging.protocol"@) == protocol
            &&& says_if(
                a,
                "messaging.message.body.content_type"@,
                content_type.len() > 0,
                content_type,
            )
            &&& says_if(a, "messaging.message.name"@, name.len() > 0, name)
            &&& tells_body(a, bytes, body)
            &&& pair_value(a, "code.filepath"@) == file
        }),
{
    reveal_strlit("span.kind");
    reveal_strlit("messaging.system");
    reveal_strlit("messaging.operation");
    reveal_strlit("server.address");
    reveal_strlit("server.port");
    reveal_strlit("messaging.kafka.destination.partition");
    reveal_strlit("messaging.kafka.message.key");
    reveal_strlit("messaging.protocol");
    reveal_strlit("messaging.message.body.content_type");
    reveal_strlit("messaging.message.name");
    reveal_strlit("messaging.message.body.size");
    reveal_strlit("messaging.message.body");
    reveal_strlit("messaging.message.body.encoding");
    reveal_strlit("messaging.message.body.truncated");
    reveal_strlit("messaging.message.body.stored");
    reveal_strlit("code.filepath");
    assert("span.kind"@.len() == 9);
    assert("messaging.system"@.len() == 16);
    assert("messaging.operation"@.len() == 19);
    assert("server.address"@.len() == 14);
    assert("server.port"@.len() == 11);
    assert("messaging.kafka.destination.partition"@.len() == 37);
    assert("messaging.kafka.message.key"@.len() == 27);
    assert("messaging.protocol"@.len() == 18);
    assert("messaging.message.body.content_type"@.len() == 35);
    assert("messaging.message.name"@.len() == 22);
    assert("messaging.message.body.size"@.len() == 27);
    assert("messaging.message.body"@.len() == 22);
    assert("messaging.message.body.encoding"@.len() == 31);
    assert("messaging.message.body.truncated"@.len() == 32);
    assert("messaging.message.body.stored"@.len() == 29);
    assert("code.filepath"@.len() == 13);
    assert("messaging.kafka.message.key"@[10] != "messaging.message.body.size"@[10]);
    assert("messaging.message.name"@[18] != "messaging.message.body"@[18]);
    lemma_under(start, "messaging.protocol"@, protocol);
    let a5 = with_some(start, "messaging.protocol"@, protocol);
    lemma_under_if(
        a5,
        content_type.len() > 0,
        "messaging.message.body.content_type"@,
        content_type,
    );
    let a6 = with_if(
        a5,
        content_type.len() > 0,
        "messaging.message.body.content_type"@,
        content_type,
    );
    lemma_under_if(a6, name.len() > 0, "messaging.message.name"@, name);
    let a7 = with_if(a6, name.len() > 0, "messaging.message.name"@, name);
    lemma_tells_body(a7, bytes, body);
    let a8 = with_body(a7, size_of_body(bytes), body);
    lemma_under(a8, "code.filepath"@, file);
}

pub proof fn lemma_body_after(
    a: Seq<(Seq<char>, Seq<char>)>,
    b: Seq<(Seq<char>, Seq<char>)>,
    size: Option<nat>,
    body: BodyFacts,
)
    ensures
        with_body(a + b, size, body) == a + with_body(b, size, body),
{
    assert(with_body(a + b, size, body) =~= a + with_body(b, size, body));
}

proof fn lemma_tells_publish(
    system: Seq<char>,
    destination: Seq<(Seq<char>, Seq<char>)>,
    host: Seq<char>,
    port: Seq<char>,
    partition: Option<Seq<char>>,
    key: Option<Seq<char>>,
    protocol: Option<Seq<char>>,
    content_type: Seq<char>,
    name: Seq<char>,
    bytes: Option<Seq<u8>>,
    body: BodyFacts,
    file: Option<Seq<char>>,
)
    ensures
        tells_publish(
            publish_attributes(
                system,
                destination,
                host,
                port,
                partition,
                key,
                protocol,
                content_type,
                name,
                size_of_body(bytes),
                body,
                file,
            ),
            system,
            destination,
            host,
            port,
            partition,
            key,
            protocol,
            content_type,
            name,
            bytes,
            body,
            file,
        ),
{
    lemma_own_attributes(
        system,
        host,
        port,
        partition,
        key,
        protocol,
        content_type,
        name,
        bytes,
        body,
        file,
    );
    let none = Seq::<(Seq<char>, Seq<char>)>::empty();
    let size = size_of_body(bytes);
    let head = seq![
        ("span.kind"@, "producer"@),
        ("messaging.system"@, system),
        ("messaging.operation"@, "publish"@),
    ];
    let c1 = with_if(none, host.len() > 0, "server.address"@, host);
    let c2 = with_if(c1, port.len() > 0, "server.port"@, port);
    let c3 = with_some(c2, "messaging.kafka.destination.partition"@, partition);
    let c4 = with_some(c3, "messaging.kafka.message.key"@, key);
    let c5 = with_some(c4, "messaging.protocol"@, protocol);
    let c6 = with_if(
        c5,
        content_type.len() > 0,
        "messaging.message.body.content_type"@,
        content_type,
    );
    let c7 = with_if(c6, name.len() > 0, "messaging.message.name"@, name);
    let c8 = with_body(c7, size, body);
    let tail = with_some(c8, "code.filepath"@, file);
    let whole = publish_attributes(
        system,
        destination,
        host,
        port,
        partition,
        key,
        protocol,
        content_type,
        name,
        size,
        body,
        file,
    );
    let own = publish_attributes(
        system,
        none,
        host,
        port,
        partition,
        key,
        protocol,
        content_type,
        name,
        size,
        body,
        file,
    );
    lemma_tail_after(
        head + destination,
        host,
        port,
        partition,
        key,
        protocol,
        content_type,
        name,
        size,
        body,
        file,
    );
    lemma_tail_after(
        head + none,
        host,
        port,
        partition,
        key,
        protocol,
        content_type,
        name,
        size,
        body,
        file,
    );
    assert(head + none =~= head);
    assert(whole == head + destination + tail);
    assert(own == head + tail);
    let n = 3 + destination.len() as int;
    assert(whole.take(3) =~= head);
    assert(whole.skip(n) =~= tail);
    assert(whole.subrange(3, n) =~= destination);
}

proof fn lemma_tail_after(
    a: Seq<(Seq<char>, Seq<char>)>,
    host: Seq<char>,
    port: Seq<char>,
    partition: Option<Seq<char>>,
    key: Option<Seq<char>>,
    protocol: Option<Seq<char>>,
    content_type: Seq<char>,
    name: Seq<char>,
    size: Option<nat>,
    body: BodyFacts,
    file: Option<Seq<char>>,
)
    ensures
        ({
            let none = Seq::<(Seq<char>, Seq<char>)>::empty();
            publish_tail(a, host, port, partition, key, protocol, content_type, name, size, body, file)
                == a + publish_tail(
                none,
                host,
                port,
                partition,
                key,
                protocol,
                content_type,
                name,
                size,
                body,
                file,
            )
        }),
{
    let none = Seq::<(Seq<char>, Seq<char>)>::empty();
    let a1 = with_if(a, host.len() > 0, "server.address"@, host);
    let c1 = with_if(none, host.len() > 0, "server.address"@, host);
    assert(a1 =~= a + c1);
    let a2 = with_if(a1, port.len() > 0, "server.port"@, port);
    let c2 = with_if(c1, port.len() > 0, "server.port"@, port);
    assert(a2 =~= a + c2);
    let a3 = with_some(a2, "messaging.kafka.destination.partition"@, partition);
    let c3 = with_some(c2, "messaging.kafka.destination.partition"@, partition);
    assert(a3 =~= a + c3);
    let a4 = with_some(a3, "messaging.kafka.message.key"@, key);
    let c4 = with_some(c3, "messaging.kafka.message.key"@, key);
    assert(a4 =~= a + c4);
    let a5 = with_some(a4, "messaging.protocol"@, protocol);
    let c5 = with_some(c4, "messaging.protocol"@, protocol);
    assert(a5 =~= a + c5);
    let typed = content_type.len() > 0;
    let a6 = with_if(a5, typed, "messaging.message.body.content_type"@, content_type);
    let c6 = with_if(c5, typed, "messaging.message.body.content_type"@, content_type);
    assert(a6 =~= a + c6);
    let a7 = with_if(a6, name.len() > 0, "messaging.message.name"@, name);
    let c7 = with_if(c6, name.len() > 0, "messaging.message.name"@, name);
    assert(a7 =~= a + c7);
    lemma_body_after(a, c7, size, body);
    let a8 = with_body(a7, size, body);
    let c8 = with_body(c7, size, body);
    assert(with_some(a8, "code.filepath"@, file) =~= a + with_some(c8, "code.filepath"@, file));
}

/// What follows the destination among a publish's attributes.
spec fn publish_tail(
    a: Seq<(Seq<char>, Seq<char>)>,
    host: Seq<char>,
    port: Seq<char>,
    partition: Option<Seq<char>>,
    key: Option<Seq<char>>,
    protocol: Option<Seq<char>>,
    content_type: Seq<char>,
    name: Seq<char>,
    size: Option<nat>,
    body: BodyFacts,
    file: Option<Seq<char>>,
) -> Seq<(Seq<char>, Seq<char>)> {
    let a = with_if(a, host.len() > 0, "server.address"@, host);
    let a = with_if(a, port.len() > 0, "server.port"@, port);
    let a = with_some(a, "messaging.kafka.destination.partition"@, partition);
    let a = with_some(a, "messaging.kafka.message.key"@, key);
    let a = with_some(a, "messaging.protocol"@, protocol);
    let a = with_if(
        a,
        content_type.len() > 0,
        "messaging.message.body.content_type"@,
        content_type,
    );
    let a = with_if(a, name.len() > 0, "messaging.message.name"@, name);
    let a = with_body(a, size, body);
    with_some(a, "code.filepath"@, file)
}

/// The frame of a publish: inside a request the frame that a publish span begins
/// with, under its label, beyond the span cap exactly when its trace is on the wire;
/// outside one a frame that is only paired, while a recording is active.
pub open spec fn frames_publish(
    frame: Option<CallFrame>,
    in_request: bool,
    begun_frame: CallFrame,
    paired: CallFrame,
    recording: bool,
    on_wire: bool,
    label: Seq<char>,
) -> bool {
    &&& in_request ==> (frame matches Some(f) && f@ == (FrameView {
        bypass_span_cap: on_wire,
        span_name: Some(label),
        attributes: f@.attributes,
        ..begun_frame@
    }))
    &&& !in_request && recording ==> (frame matches Some(f) && f@ == paired@)
    &&& !in_request && !recording ==> frame is None
}

/// What a publish leaves on the observer: an open request's stack of spans as the
/// begun frame leaves it, and a refusal that is remembered and said as a warning
/// leaves it. Nothing else changes.
pub open spec fn leaves_publish(
    before: Observer,
    after: Observer,
    r: Begun,
    stack: Seq<String>,
    warned: Seq<(String, String)>,
    line: Option<String>,
) -> bool {
    &&& before.request.context is Some ==> texts(after.request.span_stack@) == texts(stack)
    &&& before.request.context is None ==> texts(after.request.span_stack@) == texts(
        before.request.span_stack@,
    )
    &&& r.refused is Some ==> pairs(after.warned@) == pairs(warned) && opt_text(r.warning)
        == opt_text(line)
    &&& r.refused is None ==> pairs(after.warned@) == pairs(before.warned@) && r.warning is None
    &&& after == (Observer {
        request: Request { span_stack: after.request.span_stack, ..before.request },
        warned: after.warned,
        ..before
    })
}

/// A refusal is said once for each method and reason, in these words.
pub proof fn law_a_refusal_is_said_once(
    warned: &mut Vec<(String, String)>,
    method: &str,
    reason: &str,
    r: Option<String>,
    again: &mut Vec<(String, String)>,
    second: Option<String>,
)
    requires
        call_ensures(warn_injection_failure_for, (warned, method, reason), r),
        *old(again) == *final(warned),
        call_ensures(warn_injection_failure_for, (again, method, reason), second),
    ensures
        r matches Some(line) ==> line@ == "chronos-php: traceparent not injected into "@ + method@
            + " ("@ + reason@ + "); publish span recorded, its consumer will start a new trace"@,
        second is None,
        r is None <==> exists|i: int|
            0 <= i < old(warned)@.len() && (#[trigger] old(warned)@[i]).0@ == method@
                && old(warned)@[i].1@ == reason@,
{
    let known = pairs(old(warned)@);
    if r is Some {
        assert(pairs(final(warned)@).last() == (method@, reason@));
    }
    if known.contains((method@, reason@)) {
        let i = choose|i: int| 0 <= i < known.len() && known[i] == (method@, reason@);
        assert(old(warned)@[i].0@ == method@);
    }
    if exists|i: int|
        0 <= i < old(warned)@.len() && (#[trigger] old(warned)@[i]).0@ == method@
            && old(warned)@[i].1@ == reason@ {
        let i = choose|i: int|
            0 <= i < old(warned)@.len() && (#[trigger] old(warned)@[i]).0@ == method@
                && old(warned)@[i].1@ == reason@;
        assert(known[i] == (method@, reason@));
    }
}

/// A call that is only paired has a frame inside a request or while a recording is
/// active, and none otherwise.
pub proof fn law_when_a_call_is_only_paired(
    observer: &Observer,
    name: &str,
    recording: bool,
    r: Option<CallFrame>,
    paired: CallFrame,
)
    requires
        call_ensures(observe_only_fallback, (observer, name, recording), r),
        call_ensures(CallFrame::observe_only, (name,), paired),
    ensures
        r is Some <==> observer.request.context is Some || recording,
        r matches Some(f) ==> f@ == paired@,
{
}

/// What a Bunny publish shows: the body, the headers, the exchange and the routing
/// key are its arguments in that order after the channel; the client's options say
/// where the broker is.
pub proof fn law_what_a_bunny_publish_shows(
    call: &Call,
    r: AmqpPublishFacts,
    exchange: Option<String>,
    routing_key: Option<String>,
    content_type: Option<String>,
    declared: Option<String>,
    body: Option<Vec<u8>>,
    content_text: String,
    declared_text: String,
    client: Option<&Object>,
    vhost: String,
    host: String,
    port: String,
)
    requires
        call_ensures(bunny_publish_facts, (call,), r),
        call_ensures(arg_scalar_string, (call, 3usize, 512usize), exchange),
        call_ensures(arg_scalar_string, (call, 4usize, 512usize), routing_key),
        call_ensures(
            arg_array_str_key_string,
            (call, 2usize, "content-type", 256usize),
            content_type,
        ),
        call_ensures(arg_array_str_key_string, (call, 2usize, "type", 512usize), declared),
        call_ensures(trim_or_empty, (content_type,), content_text),
        call_ensures(trim_or_empty, (declared,), declared_text),
        call_ensures(arg_string_bytes, (call, 1usize), body),
        call_ensures(this_object, (call,), client),
        call_ensures(read_table_prop, (client, "options", "vhost", 256usize), vhost),
        call_ensures(read_table_prop, (client, "options", "host", 256usize), host),
        call_ensures(read_table_prop, (client, "options", "port", 256usize), port),
    ensures
        exchange matches Some(t) ==> r.exchange@ == t@,
        exchange is None ==> r.exchange@.len() == 0,
        routing_key matches Some(t) ==> r.routing_key@ == t@,
        routing_key is None ==> r.routing_key@.len() == 0,
        r.content_type@ == content_text@,
        r.declared_name@ == declared_text@,
        opt_bytes(r.body) == opt_bytes(body),
        r.vhost@ == vhost@,
        r.host@ == host@,
        r.port@ == port@,
{
    assert(r@.exchange == r.exchange@);
    assert(r@.body == opt_bytes(r.body));
}

/// What a Kafka produce shows: the partition, the payload and the key are its first,
/// third and fourth arguments; an empty key is none.
pub proof fn law_what_a_kafka_produce_shows(
    call: &Call,
    r: KafkaPublishFacts,
    partition: Option<i64>,
    key: Option<String>,
    body: Option<Vec<u8>>,
)
    requires
        call_ensures(rdkafka_publish_facts, (call,), r),
        call_ensures(arg_long, (call, 0usize), partition),
        call_ensures(arg_scalar_string, (call, 3usize, 256usize), key),
        call_ensures(arg_string_bytes, (call, 2usize), body),
    ensures
        r.partition == partition,
        key is Some && key->0@.len() > 0 ==> r.key is Some && r.key->0@ == key->0@,
        key is None || key->0@.len() == 0 ==> r.key is None,
        opt_bytes(r.body) == opt_bytes(body),
{
}

/// What an amqplib publish shows: the message, the exchange and the routing key are
/// its arguments; the message's properties say its type and class, and the channel's
/// connection where the broker is. Without a message nothing is shown.
pub proof fn law_what_an_amqplib_publish_shows(
    call: &Call,
    r: Option<AmqpPublishFacts>,
    message: Option<&Object>,
    held: &Object,
    exchange: Option<String>,
    routing_key: Option<String>,
    content_type: String,
    declared: String,
    body: Option<Vec<u8>>,
    channel: Option<&Object>,
    connection: Option<&Object>,
    io: Option<&Object>,
    vhost: String,
    host: String,
    port: String,
)
    requires
        call_ensures(amqplib_publish_facts, (call,), r),
        call_ensures(arg_object, (call, 0usize), message),
        message matches Some(m) ==> *held == *m,
        call_ensures(arg_scalar_string, (call, 1usize, 512usize), exchange),
        call_ensures(arg_scalar_string, (call, 2usize, 512usize), routing_key),
        call_ensures(read_table_prop, (message, "properties", "content_type", 256usize), content_type),
        call_ensures(read_table_prop, (message, "properties", "type", 512usize), declared),
        call_ensures(object_property_bytes, (held, "body"), body),
        call_ensures(this_object, (call,), channel),
        call_ensures(read_inner, (channel, "connection"), connection),
        call_ensures(read_inner, (connection, "io"), io),
        call_ensures(read_prop, (connection, "vhost", 256usize), vhost),
        call_ensures(read_prop, (io, "host", 256usize), host),
        call_ensures(read_prop, (io, "port", 32usize), port),
    ensures
        r is Some <==> message is Some,
        r matches Some(f) ==> {
            &&& exchange matches Some(t) ==> f.exchange@ == t@
            &&& exchange is None ==> f.exchange@.len() == 0
            &&& routing_key matches Some(t) ==> f.routing_key@ == t@
            &&& routing_key is None ==> f.routing_key@.len() == 0
            &&& f.content_type@ == content_type@
            &&& f.declared_name@ == declared@
            &&& opt_bytes(f.body) == opt_bytes(body)
            &&& f.vhost@ == vhost@
            &&& f.host@ == host@
            &&& f.port@ == port@
        },
{
    if let Some(f) = r {
        assert(f@.exchange == f.exchange@);
        assert(f@.body == opt_bytes(f.body));
    }
}

/// What a NATS publish shows: the message's subject, and its payload's type and body.
/// Without a payload object nothing is shown.
pub proof fn law_what_a_nats_publish_shows(
    call: &Call,
    r: Option<NatsPublishFacts>,
    message: Option<&Object>,
    payload: Option<&Object>,
    held: &Object,
    subject: String,
    content_type: String,
    body: Option<Vec<u8>>,
)
    requires
        call_ensures(nats_publish_facts, (call,), r),
        call_ensures(arg_object, (call, 0usize), message),
        call_ensures(read_inner, (message, "payload"), payload),
        payload matches Some(p) ==> *held == *p,
        call_ensures(read_prop, (message, "subject", 512usize), subject),
        call_ensures(read_table_prop, (payload, "headers", "content-type", 256usize), content_type),
        call_ensures(object_property_bytes, (held, "body"), body),
    ensures
        r is Some <==> payload is Some,
        r matches Some(f) ==> {
            &&& f.subject@ == subject@
            &&& f.content_type@ == content_type@
            &&& opt_bytes(f.body) == opt_bytes(body)
        },
{
}

/// A property's text is read and trimmed, and empty where there is no object; the same
/// holds of an entry of an array property, and of an object in a property.
pub proof fn law_properties_are_read_trimmed(
    object: &Object,
    name: &str,
    key: &str,
    max: usize,
    text: Option<String>,
    cut: String,
    entry: Option<String>,
    entry_cut: String,
    held: Option<&Object>,
    r: String,
    s: String,
    t: Option<&Object>,
    none_r: String,
    none_s: String,
    none_t: Option<&Object>,
)
    requires
        call_ensures(object_property_string, (object, name, max), text),
        call_ensures(trim_or_empty, (text,), cut),
        call_ensures(object_property_table_string, (object, name, key, max), entry),
        call_ensures(trim_or_empty, (entry,), entry_cut),
        call_ensures(object_property_object, (object, name), held),
        call_ensures(read_prop, (Some(object), name, max), r),
        call_ensures(read_table_prop, (Some(object), name, key, max), s),
        call_ensures(read_inner, (Some(object), name), t),
        call_ensures(read_prop, (None, name, max), none_r),
        call_ensures(read_table_prop, (None, name, key, max), none_s),
        call_ensures(read_inner, (None, name), none_t),
    ensures
        r@ == cut@,
        s@ == entry_cut@,
        deref_object(t) == deref_object(held),
        none_r@.len() == 0 && none_s@.len() == 0 && none_t is None,
{
}

/// A Bunny publish puts its headers into its third argument, and its span says what
/// the call shows.
pub proof fn law_a_bunny_publish_carries_and_says(
    observer: &mut Observer,
    call: &mut Call,
    name: &str,
    minted: &Minted,
    words: &PublishWords,
    recording: bool,
    r: Begun,
    begun_frame: CallFrame,
    stack: &mut Vec<String>,
    context: &TraceContext,
    paired: CallFrame,
    header: String,
    span_id: &str,
    shown: &Call,
    file: Option<String>,
    warned: &mut Vec<(String, String)>,
    line: Option<String>,
    facts: AmqpPublishFacts,
    named: &str,
)
    requires
        call_ensures(
            begin_messaging_publish_bunny,
            (observer, call, name, minted, words, recording),
            r,
        ),
        old(observer).request.context matches Some(c) ==> *context == c,
        *old(stack) == old(observer).request.span_stack,
        call_ensures(
            on_begin,
            (context, stack, name, SpanPolicy::MessagingPublish, minted),
            begun_frame,
        ),
        call_ensures(CallFrame::observe_only, (name,), paired),
        span_id@ == minted.span_id@,
        call_ensures(crate::observer::spans::traceparent, (context, span_id), header),
        *shown == *old(call),
        call_ensures(defining_file, (shown,), file),
        *old(warned) == old(observer).warned,
        r.refused matches Some(reason) ==> call_ensures(
            warn_injection_failure_for,
            (warned, "Bunny\\AbstractClient::publish", reason),
            line,
        ),
        call_ensures(bunny_publish_facts, (shown,), facts),
        facts.declared_name@.len() > 0 ==> named@ == facts.declared_name@,
        facts.declared_name@.len() == 0 && words.banked_name is Some ==> named@
            == words.banked_name->0@,
        facts.declared_name@.len() == 0 && words.banked_name is None ==> named@.len() == 0,
    ensures
        (true) ==> {
            &&& frames_publish(
                r.frame,
                old(observer).request.context is Some,
                begun_frame,
                paired,
                recording,
                r.refused is None,
                words.label@,
            )
            &&& leaves_publish(*old(observer), *final(observer), r, final(stack)@, final(warned)@, line)
            &&& old(observer).request.context is Some ==> tells_publish(
                r.frame->0@.attributes,
                "rabbitmq"@,
                pairs(words.destination@),
                facts.host@,
                facts.port@,
                None,
                None,
                opt_text(words.protocol),
                facts.content_type@,
                named@,
                opt_bytes(facts.body),
                words.body,
                opt_text(file),
            )
            &&& (exists|e: Seq<(Seq<char>, Seq<char>)>|
                #![trigger tells_entries(e, old(observer).request.context, header@, words.stamp@, named@)]
                arg_injected(*old(call), *final(call), 2, e, opt_reason(r.refused)) && tells_entries(
                    e,
                    old(observer).request.context,
                    header@,
                    words.stamp@,
                    named@,
                ))
        },
{
    let e = publish_entries(
        opt_context(old(observer).request.context),
        minted.span_id@,
        words.stamp@,
        named@,
    );
    lemma_tells_entries(old(observer).request.context, minted.span_id@, words.stamp@, named@);
    assert(tells_entries(e, old(observer).request.context, header@, words.stamp@, named@));
    lemma_tells_publish(
        "rabbitmq"@,
        pairs(words.destination@),
        facts.host@,
        facts.port@,
        None,
        None,
        opt_text(words.protocol),
        facts.content_type@,
        named@,
        opt_bytes(facts.body),
        words.body,
        opt_text(file),
    );
    assert(""@.len() == 0) by {
        reveal_strlit("");
    }
    assert(facts@.declared_name == facts.declared_name@);
    assert(arg_injected(*old(call), *final(call), 2, e, opt_reason(r.refused)));
}

/// A Kafka produce with headers puts them into its fifth argument; one without carries
/// nothing, is no promise, and leaves its arguments alone. Either says what it shows.
pub proof fn law_a_kafka_produce_carries_and_says(
    observer: &mut Observer,
    call: &mut Call,
    name: &str,
    minted: &Minted,
    words: &PublishWords,
    recording: bool,
    r: Begun,
    begun_frame: CallFrame,
    stack: &mut Vec<String>,
    context: &TraceContext,
    paired: CallFrame,
    header: String,
    span_id: &str,
    shown: &Call,
    file: Option<String>,
    warned: &mut Vec<(String, String)>,
    line: Option<String>,
    facts: KafkaPublishFacts,
    named: &str,
)
    requires
        call_ensures(
            begin_messaging_publish_rdkafka,
            (observer, call, name, minted, words, recording),
            r,
        ),
        old(observer).request.context matches Some(c) ==> *context == c,
        *old(stack) == old(observer).request.span_stack,
        call_ensures(
            on_begin,
            (context, stack, name, SpanPolicy::MessagingPublish, minted),
            begun_frame,
        ),
        call_ensures(CallFrame::observe_only, (name,), paired),
        span_id@ == minted.span_id@,
        call_ensures(crate::observer::spans::traceparent, (context, span_id), header),
        *shown == *old(call),
        call_ensures(defining_file, (shown,), file),
        *old(warned) == old(observer).warned,
        r.refused matches Some(reason) ==> call_ensures(
            warn_injection_failure_for,
            (warned, "RdKafka\\ProducerTopic::producev", reason),
            line,
        ),
        call_ensures(rdkafka_publish_facts, (shown,), facts),
        words.banked_name matches Some(n) ==> named@ == n@,
        words.banked_name is None ==> named@.len() == 0,
    ensures
        (true) ==> {
            &&& frames_publish(
                r.frame,
                old(observer).request.context is Some,
                begun_frame,
                paired,
                recording,
                name@ == "RdKafka\\ProducerTopic::producev"@ && r.refused is None,
                words.label@,
            )
            &&& leaves_publish(*old(observer), *final(observer), r, final(stack)@, final(warned)@, line)
            &&& old(observer).request.context is Some ==> tells_publish(
                r.frame->0@.attributes,
                "kafka"@,
                pairs(words.destination@),
                Seq::empty(),
                Seq::empty(),
                opt_text(words.partition),
                opt_text(facts.key),
                None,
                Seq::empty(),
                named@,
                opt_bytes(facts.body),
                words.body,
                opt_text(file),
            )
            &&& (name@ == "RdKafka\\ProducerTopic::producev"@ ==> (exists|e: Seq<(Seq<char>, Seq<char>)>|
                #![trigger tells_entries(e, old(observer).request.context, header@, words.stamp@, named@)]
                arg_injected(*old(call), *final(call), 4, e, opt_reason(r.refused)) && tells_entries(
                    e,
                    old(observer).request.context,
                    header@,
                    words.stamp@,
                    named@,
                )))
            &&& name@ != "RdKafka\\ProducerTopic::producev"@ ==> *final(call) == *old(call)
                && r.refused is None
        },
{
    let e = publish_entries(
        opt_context(old(observer).request.context),
        minted.span_id@,
        words.stamp@,
        named@,
    );
    lemma_tells_entries(old(observer).request.context, minted.span_id@, words.stamp@, named@);
    assert(tells_entries(e, old(observer).request.context, header@, words.stamp@, named@));
    lemma_tells_publish(
        "kafka"@,
        pairs(words.destination@),
        Seq::empty(),
        Seq::empty(),
        opt_text(words.partition),
        opt_text(facts.key),
        None,
        Seq::empty(),
        named@,
        opt_bytes(facts.body),
        words.body,
        opt_text(file),
    );
    assert(""@.len() == 0) by {
        reveal_strlit("");
    }
}

/// An amqplib publish puts its headers into its message's application headers, and
/// its span says what the call shows; without a message it is only paired.
pub proof fn law_an_amqplib_publish_carries_and_says(
    observer: &mut Observer,
    call: &mut Call,
    name: &str,
    minted: &Minted,
    words: &PublishWords,
    recording: bool,
    r: Begun,
    begun_frame: CallFrame,
    stack: &mut Vec<String>,
    context: &TraceContext,
    paired: CallFrame,
    header: String,
    span_id: &str,
    shown: &Call,
    file: Option<String>,
    warned: &mut Vec<(String, String)>,
    line: Option<String>,
    told: Option<AmqpPublishFacts>,
    facts: AmqpPublishFacts,
    named: &str,
)
    requires
        call_ensures(
            begin_messaging_publish_amqplib,
            (observer, call, name, minted, words, recording),
            r,
        ),
        old(observer).request.context matches Some(c) ==> *context == c,
        *old(stack) == old(observer).request.span_stack,
        call_ensures(
            on_begin,
            (context, stack, name, SpanPolicy::MessagingPublish, minted),
            begun_frame,
        ),
        call_ensures(CallFrame::observe_only, (name,), paired),
        span_id@ == minted.span_id@,
        call_ensures(crate::observer::spans::traceparent, (context, span_id), header),
        *shown == *old(call),
        call_ensures(defining_file, (shown,), file),
        *old(warned) == old(observer).warned,
        r.refused matches Some(reason) ==> call_ensures(
            warn_injection_failure_for,
            (warned, "PhpAmqpLib\\Channel\\AMQPChannel::basic_publish", reason),
            line,
        ),
        call_ensures(amqplib_publish_facts, (shown,), told),
        told matches Some(t) ==> facts == t,
        facts.declared_name@.len() > 0 ==> named@ == facts.declared_name@,
        facts.declared_name@.len() == 0 && words.banked_name is Some ==> named@
            == words.banked_name->0@,
        facts.declared_name@.len() == 0 && words.banked_name is None ==> named@.len() == 0,
    ensures
        told is None ==> {
            &&& *final(call) == *old(call)
            &&& *final(observer) == *old(observer)
            &&& r.refused is None && r.warning is None
            &&& r.frame is Some <==> old(observer).request.context is Some || recording
            &&& r.frame matches Some(f) ==> f@ == paired@
        },
        (told is Some) ==> {
            &&& frames_publish(
                r.frame,
                old(observer).request.context is Some,
                begun_frame,
                paired,
                recording,
                r.refused is None,
                words.label@,
            )
            &&& leaves_publish(*old(observer), *final(observer), r, final(stack)@, final(warned)@, line)
            &&& old(observer).request.context is Some ==> tells_publish(
                r.frame->0@.attributes,
                "rabbitmq"@,
                pairs(words.destination@),
                facts.host@,
                facts.port@,
                None,
                None,
                opt_text(words.protocol),
                facts.content_type@,
                named@,
                opt_bytes(facts.body),
                words.body,
                opt_text(file),
            )
            &&& same_but_arg(*old(call), *final(call), 0)
            &&& (exists|e: Seq<(Seq<char>, Seq<char>)>|
                #![trigger tells_entries(e, old(observer).request.context, header@, words.stamp@, named@)]
                old(call).object_arg(0) is Some && final(call).object_arg(0) is Some && message_injected(
                    old(call).object_arg(0)->0,
                    final(call).object_arg(0)->0,
                    e,
                    opt_reason(r.refused),
                ) && tells_entries(
                    e,
                    old(observer).request.context,
                    header@,
                    words.stamp@,
                    named@,
                ))
        },
{
    let e = publish_entries(
        opt_context(old(observer).request.context),
        minted.span_id@,
        words.stamp@,
        named@,
    );
    lemma_tells_entries(old(observer).request.context, minted.span_id@, words.stamp@, named@);
    assert(tells_entries(e, old(observer).request.context, header@, words.stamp@, named@));
    lemma_tells_publish(
        "rabbitmq"@,
        pairs(words.destination@),
        facts.host@,
        facts.port@,
        None,
        None,
        opt_text(words.protocol),
        facts.content_type@,
        named@,
        opt_bytes(facts.body),
        words.body,
        opt_text(file),
    );
    assert(""@.len() == 0) by {
        reveal_strlit("");
    }
    assert(facts@.declared_name == facts.declared_name@);
}

/// Whether a NATS message carries entries: in its payload's headers, with nothing
/// else changed.
pub open spec fn carries_in_payload(
    before: Option<Object>,
    after: Option<Object>,
    entries: Seq<(Seq<char>, Seq<char>)>,
    refused: Option<Seq<char>>,
) -> bool {
    &&& before matches Some(m)
    &&& after matches Some(n)
    &&& same_but_for(m, n, "payload"@)
    &&& m.object("payload"@) matches Some(p)
    &&& n.object("payload"@) matches Some(q)
    &&& headers_injected(p, q, "headers"@, entries, refused)
}

/// A NATS publish puts its headers into its payload's headers, and its span says what
/// the message shows; without a payload object it is only paired.
pub proof fn law_a_nats_publish_carries_and_says(
    observer: &mut Observer,
    call: &mut Call,
    name: &str,
    minted: &Minted,
    words: &PublishWords,
    recording: bool,
    r: Begun,
    begun_frame: CallFrame,
    stack: &mut Vec<String>,
    context: &TraceContext,
    paired: CallFrame,
    header: String,
    span_id: &str,
    shown: &Call,
    file: Option<String>,
    warned: &mut Vec<(String, String)>,
    line: Option<String>,
    told: Option<NatsPublishFacts>,
    facts: NatsPublishFacts,
    named: &str,
)
    requires
        call_ensures(begin_nats_publish, (observer, call, name, minted, words, recording), r),
        old(observer).request.context matches Some(c) ==> *context == c,
        *old(stack) == old(observer).request.span_stack,
        call_ensures(
            on_begin,
            (context, stack, name, SpanPolicy::MessagingPublish, minted),
            begun_frame,
        ),
        call_ensures(CallFrame::observe_only, (name,), paired),
        span_id@ == minted.span_id@,
        call_ensures(crate::observer::spans::traceparent, (context, span_id), header),
        *shown == *old(call),
        call_ensures(defining_file, (shown,), file),
        *old(warned) == old(observer).warned,
        r.refused matches Some(reason) ==> call_ensures(
            warn_injection_failure_for,
            (warned, "Basis\\Nats\\Connection::sendMessage", reason),
            line,
        ),
        call_ensures(nats_publish_facts, (shown,), told),
        told matches Some(t) ==> facts == t,
        words.banked_name matches Some(n) ==> named@ == n@,
        words.banked_name is None ==> named@.len() == 0,
    ensures
        told is None ==> {
            &&& *final(call) == *old(call)
            &&& *final(observer) == *old(observer)
            &&& r.refused is None && r.warning is None
            &&& r.frame is Some <==> old(observer).request.context is Some || recording
            &&& r.frame matches Some(f) ==> f@ == paired@
        },
        (told is Some) ==> {
            &&& frames_publish(
                r.frame,
                old(observer).request.context is Some,
                begun_frame,
                paired,
                recording,
                r.refused is None,
                words.label@,
            )
            &&& leaves_publish(*old(observer), *final(observer), r, final(stack)@, final(warned)@, line)
            &&& old(observer).request.context is Some ==> tells_publish(
                r.frame->0@.attributes,
                "nats"@,
                pairs(words.destination@),
                Seq::empty(),
                Seq::empty(),
                None,
                None,
                opt_text(words.protocol),
                facts.content_type@,
                named@,
                opt_bytes(facts.body),
                words.body,
                opt_text(file),
            )
            &&& same_but_arg(*old(call), *final(call), 0)
            &&& (exists|e: Seq<(Seq<char>, Seq<char>)>|
                #![trigger tells_entries(e, old(observer).request.context, header@, words.stamp@, named@)]
                carries_in_payload(
                    old(call).object_arg(0),
                    final(call).object_arg(0),
                    e,
                    opt_reason(r.refused),
                ) && tells_entries(
                    e,
                    old(observer).request.context,
                    header@,
                    words.stamp@,
                    named@,
                ))
        },
{
    let e = publish_entries(
        opt_context(old(observer).request.context),
        minted.span_id@,
        words.stamp@,
        named@,
    );
    lemma_tells_entries(old(observer).request.context, minted.span_id@, words.stamp@, named@);
    assert(tells_entries(e, old(observer).request.context, header@, words.stamp@, named@));
    lemma_tells_publish(
        "nats"@,
        pairs(words.destination@),
        Seq::empty(),
        Seq::empty(),
        None,
        None,
        opt_text(words.protocol),
        facts.content_type@,
        named@,
        opt_bytes(facts.body),
        words.body,
        opt_text(file),
    );
    assert(""@.len() == 0) by {
        reveal_strlit("");
    }
}

/// A NATS send is a publish or a subscription by the class of its message, and else
/// neither.
pub proof fn law_which_nats_sends_publish(
    call: &Call,
    r: NatsSend,
    message: Option<&Object>,
    held: &Object,
    publish: bool,
    subscribe: bool,
)
    requires
        call_ensures(nats_send_role, (call,), r),
        call_ensures(arg_object, (call, 0usize), message),
        message matches Some(m) ==> *held == *m,
        call_ensures(object_instance_of, (held, "Basis\\Nats\\Message\\Publish"), publish),
        call_ensures(object_instance_of, (held, "Basis\\Nats\\Message\\Subscribe"), subscribe),
    ensures
        r is Publish <==> message is Some && publish,
        r is Subscribe <==> message is Some && !publish && subscribe,
{
}

/// A NATS send that publishes is observed as a publish unless userland declared that
/// it does so itself; a suppressed one is only paired.
pub proof fn law_a_nats_send_publishes(
    observer: &mut Observer,
    call: &mut Call,
    name: &str,
    minted: &Minted,
    words: &PublishWords,
    recording: bool,
    r: Begun,
    begun_frame: CallFrame,
    stack: &mut Vec<String>,
    context: &TraceContext,
    paired: CallFrame,
    header: String,
    span_id: &str,
    shown: &Call,
    file: Option<String>,
    warned: &mut Vec<(String, String)>,
    line: Option<String>,
    told: Option<NatsPublishFacts>,
    facts: NatsPublishFacts,
    named: &str,
    role: NatsSend,
)
    requires
        call_ensures(begin_nats_send_message, (observer, call, name, minted, words, recording), r),
        old(observer).request.context matches Some(c) ==> *context == c,
        *old(stack) == old(observer).request.span_stack,
        call_ensures(
            on_begin,
            (context, stack, name, SpanPolicy::MessagingPublish, minted),
            begun_frame,
        ),
        call_ensures(CallFrame::observe_only, (name,), paired),
        span_id@ == minted.span_id@,
        call_ensures(crate::observer::spans::traceparent, (context, span_id), header),
        *shown == *old(call),
        call_ensures(defining_file, (shown,), file),
        *old(warned) == old(observer).warned,
        r.refused matches Some(reason) ==> call_ensures(
            warn_injection_failure_for,
            (warned, "Basis\\Nats\\Connection::sendMessage", reason),
            line,
        ),
        call_ensures(nats_publish_facts, (shown,), told),
        told matches Some(t) ==> facts == t,
        words.banked_name matches Some(n) ==> named@ == n@,
        words.banked_name is None ==> named@.len() == 0,
        call_ensures(nats_send_role, (shown,), role),
    ensures
        role is Publish && (old(observer).request.suppress_messaging || told is None) ==> {
            &&& *final(call) == *old(call)
            &&& sid_views(final(observer).subscriptions.sids@) == sid_views(
                old(observer).subscriptions.sids@,
            )
            &&& r.refused is None && r.warning is None
            &&& r.frame is Some <==> old(observer).request.context is Some || recording
            &&& r.frame matches Some(f) ==> f@ == paired@
        },
        (role is Publish && !old(observer).request.suppress_messaging && told is Some) ==> {
            &&& frames_publish(
                r.frame,
                old(observer).request.context is Some,
                begun_frame,
                paired,
                recording,
                r.refused is None,
                words.label@,
            )
            &&& leaves_publish(*old(observer), *final(observer), r, final(stack)@, final(warned)@, line)
            &&& old(observer).request.context is Some ==> tells_publish(
                r.frame->0@.attributes,
                "nats"@,
                pairs(words.destination@),
                Seq::empty(),
                Seq::empty(),
                None,
                None,
                opt_text(words.protocol),
                facts.content_type@,
                named@,
                opt_bytes(facts.body),
                words.body,
                opt_text(file),
            )
            &&& same_but_arg(*old(call), *final(call), 0)
            &&& (exists|e: Seq<(Seq<char>, Seq<char>)>|
                #![trigger tells_entries(e, old(observer).request.context, header@, words.stamp@, named@)]
                carries_in_payload(
                    old(call).object_arg(0),
                    final(call).object_arg(0),
                    e,
                    opt_reason(r.refused),
                ) && tells_entries(
                    e,
                    old(observer).request.context,
                    header@,
                    words.stamp@,
                    named@,
                ))
        },
{
    let e = publish_entries(
        opt_context(old(observer).request.context),
        minted.span_id@,
        words.stamp@,
        named@,
    );
    lemma_tells_entries(old(observer).request.context, minted.span_id@, words.stamp@, named@);
    assert(tells_entries(e, old(observer).request.context, header@, words.stamp@, named@));
    lemma_tells_publish(
        "nats"@,
        pairs(words.destination@),
        Seq::empty(),
        Seq::empty(),
        None,
        None,
        opt_text(words.protocol),
        facts.content_type@,
        named@,
        opt_bytes(facts.body),
        words.body,
        opt_text(file),
    );
    assert(""@.len() == 0) by {
        reveal_strlit("");
    }
}

/// A NATS send that subscribes is remembered, whether or not userland observes its
/// own messages, and is only paired; any other send leaves nothing.
pub proof fn law_a_nats_subscription_is_remembered(
    observer: &mut Observer,
    call: &mut Call,
    name: &str,
    minted: &Minted,
    words: &PublishWords,
    recording: bool,
    r: Begun,
    shown: &Call,
    role: NatsSend,
    message: Option<&Object>,
    held: &Object,
    sids: &mut Vec<crate::observer::state::Subscription>,
    paired: CallFrame,
)
    requires
        call_ensures(
            begin_nats_send_message,
            (observer, call, name, minted, words, recording),
            r,
        ),
        *shown == *old(call),
        call_ensures(nats_send_role, (shown,), role),
        !(role is Publish),
        call_ensures(arg_object, (shown, 0usize), message),
        message matches Some(m) ==> *held == *m,
        *old(sids) == old(observer).subscriptions.sids,
        call_ensures(bank_nats_subscribe, (sids, held), ()),
        call_ensures(CallFrame::observe_only, (name,), paired),
    ensures
        role is Subscribe ==> sid_views(final(observer).subscriptions.sids@) == sid_views(
            final(sids)@,
        ),
        role is Other ==> sid_views(final(observer).subscriptions.sids@) == sid_views(
            old(observer).subscriptions.sids@,
        ),
        *final(call) == *old(call),
        r.refused is None && r.warning is None,
        r.frame is Some <==> old(observer).request.context is Some || recording,
        r.frame matches Some(f) ==> f@ == paired@,
        *final(observer) == (Observer {
            subscriptions: final(observer).subscriptions,
            ..*old(observer)
        }),
{
}

/// A serializer's result is remembered with the class of its object: exactly when
/// there is an object with a class, and a result that is not empty.
pub proof fn law_what_a_serializer_leaves(
    call: &Call,
    retval: &Zval,
    r: Option<SerializedMessage>,
    object: Option<&Object>,
    held: &Object,
    class: Option<String>,
    bytes: Option<Vec<u8>>,
)
    requires
        call_ensures(bank_serialized_message, (call, retval), r),
        call_ensures(this_object, (call,), object),
        object matches Some(o) ==> *held == *o,
        call_ensures(object_class_name, (held,), class),
        call_ensures(retval_string_bytes, (retval,), bytes),
    ensures
        r is Some <==> object is Some && class is Some && bytes is Some && bytes->0@.len() > 0,
        r matches Some(m) ==> m.class@ == class->0@ && m.bytes@ == bytes->0@,
{
}

} // verus!
