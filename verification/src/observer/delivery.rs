//! Consuming through the messaging clients: deliveries that become
//! message-scoped requests, how such a request closes, and pull-style polls.

use crate::observer::banks::{
    banked_queue, banked_sid, queue_of, queue_views, sid_of, sid_views, QueueView, SidView,
};
use crate::observer::messaging::{
    body_of, deref_object, inner, lemma_body_after, lemma_tells_body, prop, push_body, push_list,
    read_inner, read_prop, read_table_prop, says_if, size_of_body, table_prop, tells_body,
    text_or_empty, with_body, BodyFacts, ENQUEUED_AT_HEADER, SCHEMA_HEADER, SYSTEM_KAFKA,
    SYSTEM_NATS,
};
use crate::observer::spans::{observe_only_view, CallFrame, FrameView};
use crate::observer::state::{
    last_throw, lemma_under, lemma_under_if, opt_throw, push_if, push_pair, push_some, with_if,
    with_some, DeliveryRoute, Observer, ThrowView,
};
use crate::request_attributes::{merge, merged, Bag};
use crate::text::{
    begins, copy, decimal, decimal_text, int_text, nonempty, opt_text, or_empty, pairs, same,
    signed_text, starts_with,
};
use crate::zend_helpers::{
    amqp_application_header, application_header, arg_is_instance_of, arg_object, capped, entry_at,
    instance_of, object_property_array_has_str_key, object_property_bool, object_property_bytes,
    object_property_long, object_property_object, object_property_string, opt_bytes, pair_value,
    raw_bytes, retval_array_len, retval_object, this_object, this_object_handle, Call, Object, Zval,
};
use vstd::prelude::*;

verus! {

/// The method that the request of every delivery is opened with. It is none of
/// HTTP's, which makes the request a background job.
pub const DELIVERY_METHOD: &'static str = "QUEUE";

/// What a delivery shows before the application sees it, and what its request is
/// opened with.
pub struct DeliveryFacts {
    /// The method of the request.
    pub method: String,
    /// What the delivery is known as: a queue, a routing key, an exchange, a
    /// subject, or at least the broker.
    pub route: String,
    /// The route is provisional: the envelope is not readable yet.
    pub deferred: bool,
    pub traceparent: String,
    pub tracestate: String,
    pub baggage: String,
    pub enqueued_at: String,
    pub schema_header: String,
    pub type_header: String,
    pub queue: String,
    pub routing_key: String,
    pub exchange: String,
    pub subject: String,
    pub vhost: String,
    pub host: String,
    pub port: String,
    pub group: String,
    pub redelivered: bool,
    pub message_id: String,
    pub correlation_id: String,
    pub content_type: String,
    pub body: Option<Vec<u8>>,
}

/// A delivery as plain contents.
pub struct DeliveryView {
    pub method: Seq<char>,
    pub route: Seq<char>,
    pub deferred: bool,
    pub traceparent: Seq<char>,
    pub tracestate: Seq<char>,
    pub baggage: Seq<char>,
    pub enqueued_at: Seq<char>,
    pub schema_header: Seq<char>,
    pub type_header: Seq<char>,
    pub queue: Seq<char>,
    pub routing_key: Seq<char>,
    pub exchange: Seq<char>,
    pub subject: Seq<char>,
    pub vhost: Seq<char>,
    pub host: Seq<char>,
    pub port: Seq<char>,
    pub group: Seq<char>,
    pub redelivered: bool,
    pub message_id: Seq<char>,
    pub correlation_id: Seq<char>,
    pub content_type: Seq<char>,
    pub body: Option<Seq<u8>>,
}

impl View for DeliveryFacts {
    type V = DeliveryView;

    open spec fn view(&self) -> DeliveryView {
        DeliveryView {
            method: self.method@,
            route: self.route@,
            deferred: self.deferred,
            traceparent: self.traceparent@,
            tracestate: self.tracestate@,
            baggage: self.baggage@,
            enqueued_at: self.enqueued_at@,
            schema_header: self.schema_header@,
            type_header: self.type_header@,
            queue: self.queue@,
            routing_key: self.routing_key@,
            exchange: self.exchange@,
            subject: self.subject@,
            vhost: self.vhost@,
            host: self.host@,
            port: self.port@,
            group: self.group@,
            redelivered: self.redelivered,
            message_id: self.message_id@,
            correlation_id: self.correlation_id@,
            content_type: self.content_type@,
            body: opt_bytes(self.body),
        }
    }
}

/// The contents of an optional delivery.
pub open spec fn opt_delivery(d: Option<DeliveryFacts>) -> Option<DeliveryView> {
    match d {
        Some(d) => Some(d@),
        None => None,
    }
}

/// The first of three texts that is not empty, else a last resort.
pub open spec fn first_named(
    a: Seq<char>,
    b: Seq<char>,
    c: Seq<char>,
    floor: Seq<char>,
) -> Seq<char> {
    if a.len() > 0 {
        a
    } else if b.len() > 0 {
        b
    } else if c.len() > 0 {
        c
    } else {
        floor
    }
}

fn first_nonempty(a: &str, b: &str, c: &str, floor: &str) -> (r: String)
    ensures
        r@ == first_named(a@, b@, c@, floor@),
{
    if !a.is_empty() {
        copy(a)
    } else if !b.is_empty() {
        copy(b)
    } else if !c.is_empty() {
        copy(c)
    } else {
        copy(floor)
    }
}

/// A property that is `true` itself.
pub open spec fn flag_of(o: Object, name: Seq<char>) -> bool {
    o.property(name) == Zval::Bool(true)
}

fn read_flag(o: &Object, name: &str) -> (r: bool)
    ensures
        r == flag_of(*o, name@),
{
    match object_property_bool(o, name) {
        Some(b) => b,
        None => false,
    }
}

/// The consumer tag of a Bunny delivery that will reach a callback: there is a
/// deliver frame and no return frame, and the callback is still registered.
pub open spec fn bunny_consumer(channel: Object) -> Option<Seq<char>> {
    match channel.object("deliverFrame"@) {
        None => None,
        Some(frame) => {
            let tag = or_empty(capped(frame.text("consumerTag"@), 256));
            if channel.object("returnFrame"@) is None && tag.len() > 0 && (match channel.table(
                "deliverCallbacks"@,
            ) {
                Some(t) => entry_at(t, tag) is Some,
                None => false,
            }) {
                Some(tag)
            } else {
                None
            }
        },
    }
}

/// What a Bunny delivery shows, once it is known to reach a callback.
pub open spec fn bunny_delivered(
    queues: Seq<QueueView>,
    channel: Object,
    tag: Seq<char>,
) -> DeliveryView {
    let frame = channel.object("deliverFrame"@)->0;
    let header = channel.object("headerFrame"@);
    let client = channel.object("client"@);
    let queue = or_empty(queue_of(queues, channel.handle, tag));
    let routing_key = prop(Some(frame), "routingKey"@, 512);
    let exchange = prop(Some(frame), "exchange"@, 512);
    DeliveryView {
        method: DELIVERY_METHOD@,
        route: first_named(queue, routing_key, exchange, "amqp"@),
        deferred: false,
        traceparent: table_prop(header, "headers"@, "traceparent"@, 4096),
        tracestate: table_prop(header, "headers"@, "tracestate"@, 4096),
        baggage: table_prop(header, "headers"@, "baggage"@, 4096),
        enqueued_at: table_prop(header, "headers"@, ENQUEUED_AT_HEADER@, 4096),
        schema_header: table_prop(header, "headers"@, SCHEMA_HEADER@, 4096),
        type_header: prop(header, "typeHeader"@, 512),
        queue,
        routing_key,
        exchange,
        subject: Seq::empty(),
        vhost: table_prop(client, "options"@, "vhost"@, 256),
        host: table_prop(client, "options"@, "host"@, 256),
        port: table_prop(client, "options"@, "port"@, 256),
        group: Seq::empty(),
        redelivered: flag_of(frame, "redelivered"@),
        message_id: prop(header, "messageId"@, 512),
        correlation_id: prop(header, "correlationId"@, 512),
        content_type: prop(header, "contentType"@, 512),
        body: match channel.object("bodyBuffer"@) {
            Some(buffer) => raw_bytes(buffer.property("buffer"@)),
            None => None,
        },
    }
}

/// A Bunny client dispatches a delivery. The answer is what to open a request
/// with; `None` lets the call pass: a request is open already, or the client
/// itself would drop the message.
pub fn begin_messaging_delivery_bunny(
    observer: &Observer,
    request_active: bool,
    call: &Call,
) -> (r: Option<DeliveryFacts>)
    ensures
        opt_delivery(r) == match call.this {
            Some(channel) => match bunny_consumer(channel) {
                Some(tag) => if request_active {
                    None
                } else {
                    Some(
                        bunny_delivered(
                            queue_views(observer.subscriptions.queues@),
                            channel,
                            tag,
                        ),
                    )
                },
                None => None,
            },
            None => None,
        },
{
    if request_active {
        return None;
    }
    let channel = match this_object(call) {
        Some(c) => c,
        None => {
            return None;
        },
    };
    let frame = match object_property_object(channel, "deliverFrame") {
        Some(f) => f,
        None => {
            return None;
        },
    };
    if object_property_object(channel, "returnFrame").is_some() {
        return None;
    }
    let tag = text_or_empty(object_property_string(frame, "consumerTag", 256));
    if tag.as_str().is_empty() || !object_property_array_has_str_key(
        channel,
        "deliverCallbacks",
        tag.as_str(),
    ) {
        return None;
    }
    let queue = banked_queue(&observer.subscriptions.queues, channel.handle, tag.as_str());
    let routing_key = read_prop(Some(frame), "routingKey", 512);
    let exchange = read_prop(Some(frame), "exchange", 512);
    let redelivered = read_flag(frame, "redelivered");
    let route = first_nonempty(queue.as_str(), routing_key.as_str(), exchange.as_str(), "amqp");
    let header = object_property_object(channel, "headerFrame");
    let client = object_property_object(channel, "client");
    let body = match object_property_object(channel, "bodyBuffer") {
        Some(buffer) => object_property_bytes(buffer, "buffer"),
        None => None,
    };
    Some(
        DeliveryFacts {
            method: copy(DELIVERY_METHOD),
            route,
            deferred: false,
            traceparent: read_table_prop(header, "headers", "traceparent", 4096),
            tracestate: read_table_prop(header, "headers", "tracestate", 4096),
            baggage: read_table_prop(header, "headers", "baggage", 4096),
            enqueued_at: read_table_prop(header, "headers", ENQUEUED_AT_HEADER, 4096),
            schema_header: read_table_prop(header, "headers", SCHEMA_HEADER, 4096),
            type_header: read_prop(header, "typeHeader", 512),
            queue,
            routing_key,
            exchange,
            subject: String::new(),
            vhost: read_table_prop(client, "options", "vhost", 256),
            host: read_table_prop(client, "options", "host", 256),
            port: read_table_prop(client, "options", "port", 256),
            group: String::new(),
            redelivered,
            message_id: read_prop(header, "messageId", 512),
            correlation_id: read_prop(header, "correlationId", 512),
            content_type: read_prop(header, "contentType", 512),
            body,
        },
    )
}

/// What an amqplib delivery shows before its envelope is parsed: the message is
/// there, its route is not.
pub open spec fn amqplib_delivered(this: Option<Object>, message: Object) -> DeliveryView {
    let io = inner(inner(this, "connection"@), "io"@);
    DeliveryView {
        method: DELIVERY_METHOD@,
        route: "amqp"@,
        deferred: true,
        traceparent: or_empty(capped(application_header(message, "traceparent"@), 256)),
        tracestate: or_empty(capped(application_header(message, "tracestate"@), 4096)),
        baggage: or_empty(capped(application_header(message, "baggage"@), 4096)),
        enqueued_at: or_empty(capped(application_header(message, ENQUEUED_AT_HEADER@), 64)),
        schema_header: or_empty(capped(application_header(message, SCHEMA_HEADER@), 512)),
        type_header: table_prop(Some(message), "properties"@, "type"@, 512),
        queue: Seq::empty(),
        routing_key: Seq::empty(),
        exchange: Seq::empty(),
        subject: Seq::empty(),
        vhost: Seq::empty(),
        host: prop(io, "host"@, 256),
        port: prop(io, "port"@, 32),
        group: Seq::empty(),
        redelivered: false,
        message_id: table_prop(Some(message), "properties"@, "message_id"@, 256),
        correlation_id: table_prop(Some(message), "properties"@, "correlation_id"@, 256),
        content_type: table_prop(Some(message), "properties"@, "content_type"@, 256),
        body: body_of(message),
    }
}

/// An amqplib client dispatches a delivery. The answer is what to open a request
/// with; `None` lets the call pass.
pub fn begin_messaging_delivery_amqplib(request_active: bool, call: &Call) -> (r: Option<
    DeliveryFacts,
>)
    ensures
        opt_delivery(r) == match call.object_arg(1) {
            Some(message) => if request_active {
                None
            } else {
                Some(amqplib_delivered(call.this, message))
            },
            None => None,
        },
{
    if request_active {
        return None;
    }
    let message = match arg_object(call, 1) {
        Some(m) => m,
        None => {
            return None;
        },
    };
    let io = read_inner(read_inner(this_object(call), "connection"), "io");
    Some(
        DeliveryFacts {
            method: copy(DELIVERY_METHOD),
            route: copy("amqp"),
            deferred: true,
            traceparent: text_or_empty(amqp_application_header(message, "traceparent", 256)),
            tracestate: text_or_empty(amqp_application_header(message, "tracestate", 4096)),
            baggage: text_or_empty(amqp_application_header(message, "baggage", 4096)),
            enqueued_at: text_or_empty(amqp_application_header(message, ENQUEUED_AT_HEADER, 64)),
            schema_header: text_or_empty(amqp_application_header(message, SCHEMA_HEADER, 512)),
            type_header: read_table_prop(Some(message), "properties", "type", 512),
            queue: String::new(),
            routing_key: String::new(),
            exchange: String::new(),
            subject: String::new(),
            vhost: String::new(),
            host: read_prop(io, "host", 256),
            port: read_prop(io, "port", 32),
            group: String::new(),
            redelivered: false,
            message_id: read_table_prop(Some(message), "properties", "message_id", 256),
            correlation_id: read_table_prop(Some(message), "properties", "correlation_id", 256),
            content_type: read_table_prop(Some(message), "properties", "content_type", 256),
            body: object_property_bytes(message, "body"),
        },
    )
}

/// Whether a subject is a reply to this client's own request.
pub open spec fn own_reply(client: Option<Object>, subject: Seq<char>) -> bool {
    match client {
        Some(c) => {
            let own = or_empty(capped(c.text("requestsSubject"@), 64));
            own.len() > 0 && begins(subject, own)
        },
        None => false,
    }
}

/// The subscription that a NATS message came in on.
pub open spec fn subscription_of(sids: Seq<SidView>, message: Object) -> Option<SidView> {
    let sid = or_empty(capped(message.text("sid"@), 64));
    if sid.len() > 0 {
        sid_of(sids, sid)
    } else {
        None
    }
}

/// What a NATS delivery shows.
pub open spec fn nats_delivered(
    sids: Seq<SidView>,
    this: Option<Object>,
    message: Object,
) -> DeliveryView {
    let subject = prop(Some(message), "subject"@, 512);
    let banked = subscription_of(sids, message);
    let payload = message.object("payload"@);
    let configuration = inner(this, "configuration"@);
    DeliveryView {
        method: DELIVERY_METHOD@,
        route: first_named(
            match banked {
                Some(s) => s.subject,
                None => Seq::empty(),
            },
            subject,
            Seq::empty(),
            SYSTEM_NATS@,
        ),
        deferred: false,
        traceparent: table_prop(payload, "headers"@, "traceparent"@, 4096),
        tracestate: table_prop(payload, "headers"@, "tracestate"@, 4096),
        baggage: table_prop(payload, "headers"@, "baggage"@, 4096),
        enqueued_at: table_prop(payload, "headers"@, ENQUEUED_AT_HEADER@, 4096),
        schema_header: table_prop(payload, "headers"@, SCHEMA_HEADER@, 4096),
        type_header: Seq::empty(),
        queue: Seq::empty(),
        routing_key: Seq::empty(),
        exchange: Seq::empty(),
        subject,
        vhost: Seq::empty(),
        host: prop(configuration, "host"@, 256),
        port: match configuration {
            Some(c) => or_empty(capped(c.text("port"@), 16)),
            None => Seq::empty(),
        },
        group: match banked {
            Some(s) => s.group,
            None => Seq::empty(),
        },
        redelivered: false,
        message_id: Seq::empty(),
        correlation_id: Seq::empty(),
        content_type: table_prop(payload, "headers"@, "content-type"@, 4096),
        body: match payload {
            Some(p) => body_of(p),
            None => None,
        },
    }
}

/// Whether a NATS dispatch is an inbound job: not a message that is only
/// buffered in a queue object, and not a reply to the client's own request.
pub open spec fn nats_job(call: Call) -> bool {
    &&& !(match call.object_arg(0) {
        Some(handler) => instance_of(handler, "Basis\\Nats\\Queue"@),
        None => false,
    })
    &&& call.object_arg(1) is Some
    &&& !own_reply(call.this, prop(call.object_arg(1), "subject"@, 512))
}

/// A NATS client dispatches a message. The answer is what to open a request
/// with; `None` lets the call pass.
pub fn begin_messaging_delivery_nats(
    observer: &Observer,
    request_active: bool,
    call: &Call,
) -> (r: Option<DeliveryFacts>)
    ensures
        opt_delivery(r) == if !request_active && nats_job(*call) {
            Some(
                nats_delivered(
                    sid_views(observer.subscriptions.sids@),
                    call.this,
                    call.object_arg(1)->0,
                ),
            )
        } else {
            None
        },
{
    if request_active {
        return None;
    }
    if arg_is_instance_of(call, 0, "Basis\\Nats\\Queue") {
        return None;
    }
    let message = match arg_object(call, 1) {
        Some(m) => m,
        None => {
            return None;
        },
    };
    let subject = read_prop(Some(message), "subject", 512);
    if let Some(client) = this_object(call) {
        let own = text_or_empty(object_property_string(client, "requestsSubject", 64));
        if !own.as_str().is_empty() && starts_with(subject.as_str(), own.as_str()) {
            return None;
        }
    }
    let sid = text_or_empty(object_property_string(message, "sid", 64));
    let banked = if sid.as_str().is_empty() {
        (String::new(), String::new())
    } else {
        banked_sid(&observer.subscriptions.sids, sid.as_str())
    };
    let blank = String::new();
    let route = first_nonempty(
        banked.0.as_str(),
        subject.as_str(),
        blank.as_str(),
        SYSTEM_NATS,
    );
    let payload = object_property_object(message, "payload");
    let configuration = read_inner(this_object(call), "configuration");
    let port = match configuration {
        Some(c) => text_or_empty(object_property_string(c, "port", 16)),
        None => String::new(),
    };
    let body = match payload {
        Some(p) => object_property_bytes(p, "body"),
        None => None,
    };
    let r = DeliveryFacts {
        method: copy(DELIVERY_METHOD),
        route,
        deferred: false,
        traceparent: read_table_prop(payload, "headers", "traceparent", 4096),
        tracestate: read_table_prop(payload, "headers", "tracestate", 4096),
        baggage: read_table_prop(payload, "headers", "baggage", 4096),
        enqueued_at: read_table_prop(payload, "headers", ENQUEUED_AT_HEADER, 4096),
        schema_header: read_table_prop(payload, "headers", SCHEMA_HEADER, 4096),
        type_header: String::new(),
        queue: String::new(),
        routing_key: String::new(),
        exchange: String::new(),
        subject,
        vhost: String::new(),
        host: read_prop(configuration, "host", 256),
        port,
        group: banked.1,
        redelivered: false,
        message_id: String::new(),
        correlation_id: String::new(),
        content_type: read_table_prop(payload, "headers", "content-type", 4096),
        body,
    };
    proof {
        let expected = nats_delivered(sid_views(observer.subscriptions.sids@), call.this, *message);
        assert(r@.group =~= expected.group);
        assert(r@ == expected);
    }
    Some(r)
}

/// What the messaging vocabulary says of a delivery, beside what it shows: its
/// destination, how long it waited, the class of its payload, its protocol and
/// its payload.
pub struct DeliveryWords {
    pub destination: Vec<(String, String)>,
    pub waited_ms: Option<u64>,
    pub name: Option<String>,
    pub protocol: Option<String>,
    pub body: BodyFacts,
}

/// A count as text, when there is one.
pub open spec fn opt_decimal(n: Option<u64>) -> Option<Seq<char>> {
    match n {
        Some(n) => Some(decimal(n as nat)),
        None => None,
    }
}

fn decimal_opt(n: Option<u64>) -> (r: Option<String>)
    ensures
        opt_text(r) == opt_decimal(n),
{
    match n {
        Some(n) => Some(decimal_text(n as u128)),
        None => None,
    }
}

/// What a delivery says on its request. Whatever is unknown is left out.
pub open spec fn delivery_attributes(
    system: Seq<char>,
    facts: DeliveryView,
    words: DeliveryWords,
) -> Seq<(Seq<char>, Seq<char>)> {
    let a = seq![
        ("span.kind"@, "consumer"@),
        ("messaging.system"@, system),
        ("messaging.operation"@, "process"@),
    ];
    let a = if facts.deferred {
        a
    } else {
        a + pairs(words.destination@)
    };
    let a = with_if(a, facts.host.len() > 0, "server.address"@, facts.host);
    let a = with_if(a, facts.port.len() > 0, "server.port"@, facts.port);
    let a = with_if(a, facts.group.len() > 0, "messaging.consumer.group.name"@, facts.group);
    let a = with_some(a, "messaging.message.queue_time_ms"@, opt_decimal(words.waited_ms));
    let a = with_if(a, facts.redelivered, "messaging.message.redelivered"@, "true"@);
    let a = with_if(a, facts.message_id.len() > 0, "messaging.message.id"@, facts.message_id);
    let a = with_if(
        a,
        facts.correlation_id.len() > 0,
        "messaging.message.conversation_id"@,
        facts.correlation_id,
    );
    let a = with_some(a, "messaging.message.name"@, opt_text(words.name));
    let a = with_some(a, "messaging.protocol"@, opt_text(words.protocol));
    let a = with_if(
        a,
        facts.content_type.len() > 0,
        "messaging.message.body.content_type"@,
        facts.content_type,
    );
    with_body(a, size_of_body(facts.body), words.body)
}

/// The attributes of a delivery.
pub fn make_delivery_attributes(system: &str, facts: &DeliveryFacts, words: &DeliveryWords) -> (r:
    Vec<(String, String)>)
    ensures
        pairs(r@) == delivery_attributes(system@, facts@, *words),
{
    let mut a: Vec<(String, String)> = Vec::new();
    push_pair(&mut a, "span.kind", "consumer");
    push_pair(&mut a, "messaging.system", system);
    push_pair(&mut a, "messaging.operation", "process");
    assert(pairs(a@) =~= seq![
        ("span.kind"@, "consumer"@),
        ("messaging.system"@, system@),
        ("messaging.operation"@, "process"@),
    ]);
    if !facts.deferred {
        push_list(&mut a, &words.destination);
    }
    push_if(&mut a, !facts.host.as_str().is_empty(), "server.address", facts.host.as_str());
    push_if(&mut a, !facts.port.as_str().is_empty(), "server.port", facts.port.as_str());
    push_if(
        &mut a,
        !facts.group.as_str().is_empty(),
        "messaging.consumer.group.name",
        facts.group.as_str(),
    );
    let waited = decimal_opt(words.waited_ms);
    push_some(&mut a, "messaging.message.queue_time_ms", &waited);
    push_if(&mut a, facts.redelivered, "messaging.message.redelivered", "true");
    push_if(
        &mut a,
        !facts.message_id.as_str().is_empty(),
        "messaging.message.id",
        facts.message_id.as_str(),
    );
    push_if(
        &mut a,
        !facts.correlation_id.as_str().is_empty(),
        "messaging.message.conversation_id",
        facts.correlation_id.as_str(),
    );
    push_some(&mut a, "messaging.message.name", &words.name);
    push_some(&mut a, "messaging.protocol", &words.protocol);
    push_if(
        &mut a,
        !facts.content_type.as_str().is_empty(),
        "messaging.message.body.content_type",
        facts.content_type.as_str(),
    );
    push_body(&mut a, &facts.body, &words.body);
    a
}

/// What opening a delivery's request leads to: the frame to push, and the
/// deadline and the facts that the in-flight marker carries.
pub struct Opened {
    pub frame: CallFrame,
    /// How long the delivery may take: a broker sets no deadline, which is zero.
    pub timeout: u64,
    pub facts: Vec<(String, String)>,
}

/// Whether a scope is that of a delivery.
pub open spec fn scope_of(scope: Option<DeliveryRoute>, facts: DeliveryView) -> bool {
    match scope {
        Some(DeliveryRoute::Known(route)) => !facts.deferred && route@ == facts.route,
        Some(DeliveryRoute::DeferredAmqplib) => facts.deferred,
        None => false,
    }
}

/// The request of a delivery is open: its facts go on the request's root span,
/// and the frame that is pushed closes it at its end.
pub fn open_delivery(
    observer: &mut Observer,
    bag: &mut Bag,
    system: &str,
    name: &str,
    facts: &DeliveryFacts,
    words: &DeliveryWords,
) -> (r: Opened)
    requires
        old(bag).wf(),
    ensures
        r.timeout == 0,
        pairs(r.facts@) == delivery_attributes(system@, facts@, *words),
        final(bag)@ == merged(old(bag)@, delivery_attributes(system@, facts@, *words)),
        final(bag).wf(),
        r.frame@ == (FrameView { owns_delivery_scope: true, ..observe_only_view(name@) }),
        scope_of(final(observer).delivery_scope, facts@),
        *final(observer) == (Observer {
            delivery_scope: final(observer).delivery_scope,
            ..*old(observer)
        }),
{
    let list = make_delivery_attributes(system, facts, words);
    let again = make_delivery_attributes(system, facts, words);
    merge(bag, again);
    observer.delivery_scope = if facts.deferred {
        Some(DeliveryRoute::DeferredAmqplib)
    } else {
        Some(DeliveryRoute::Known(facts.route.clone()))
    };
    let mut frame = CallFrame::observe_only(name);
    frame.owns_delivery_scope = true;
    Opened { frame, timeout: 0, facts: list }
}

/// The envelope of an amqplib delivery that has run.
pub struct RouteFacts {
    pub queue: String,
    pub routing_key: String,
    pub exchange: String,
    pub vhost: String,
    pub redelivered: bool,
}

/// The queue behind an amqplib message's consumer tag.
pub open spec fn amqplib_queue(
    queues: Seq<QueueView>,
    this: Option<Object>,
    message: Object,
) -> Seq<char> {
    let tag = or_empty(capped(message.text("consumerTag"@), 256));
    match this {
        Some(channel) => if tag.len() > 0 {
            or_empty(queue_of(queues, channel.handle, tag))
        } else {
            Seq::empty()
        },
        None => Seq::empty(),
    }
}

/// Read the envelope of an amqplib delivery that has run: nothing without a
/// message.
pub fn amqplib_route_facts(observer: &Observer, call: &Call) -> (r: Option<RouteFacts>)
    ensures
        match (r, call.object_arg(1)) {
            (Some(facts), Some(message)) => {
                &&& facts.queue@ == amqplib_queue(
                    queue_views(observer.subscriptions.queues@),
                    call.this,
                    message,
                )
                &&& facts.routing_key@ == prop(Some(message), "routingKey"@, 512)
                &&& facts.exchange@ == prop(Some(message), "exchange"@, 512)
                &&& facts.vhost@ == prop(inner(call.this, "connection"@), "vhost"@, 256)
                &&& facts.redelivered == flag_of(message, "redelivered"@)
            },
            (None, None) => true,
            _ => false,
        },
{
    let message = match arg_object(call, 1) {
        Some(m) => m,
        None => {
            return None;
        },
    };
    let tag = text_or_empty(object_property_string(message, "consumerTag", 256));
    let queue = match this_object_handle(call) {
        Some(handle) => if tag.as_str().is_empty() {
            String::new()
        } else {
            banked_queue(&observer.subscriptions.queues, handle, tag.as_str())
        },
        None => String::new(),
    };
    Some(
        RouteFacts {
            queue,
            routing_key: read_prop(Some(message), "routingKey", 512),
            exchange: read_prop(Some(message), "exchange", 512),
            vhost: read_prop(read_inner(this_object(call), "connection"), "vhost", 256),
            redelivered: read_flag(message, "redelivered"),
        },
    )
}

/// The route that an envelope gives a delivery.
pub open spec fn envelope_route(facts: Option<RouteFacts>) -> Seq<char> {
    match facts {
        Some(f) => first_named(f.queue@, f.routing_key@, f.exchange@, "amqp"@),
        None => "amqp"@,
    }
}

/// What an envelope adds to the request's facts.
pub open spec fn envelope_attributes(
    facts: Option<RouteFacts>,
    destination: Seq<(Seq<char>, Seq<char>)>,
) -> Seq<(Seq<char>, Seq<char>)> {
    match facts {
        Some(f) => with_if(destination, f.redelivered, "messaging.message.redelivered"@, "true"@),
        None => Seq::empty(),
    }
}

/// The route of an amqplib delivery, known once it has run. Its destination and
/// whether it was redelivered join the request's facts.
pub fn resolve_amqplib_delivery_route(
    bag: &mut Bag,
    facts: &Option<RouteFacts>,
    destination: &Vec<(String, String)>,
) -> (r: String)
    requires
        old(bag).wf(),
    ensures
        r@ == envelope_route(*facts),
        final(bag)@ == merged(old(bag)@, envelope_attributes(*facts, pairs(destination@))),
        final(bag).wf(),
{
    match facts {
        Some(f) => {
            let mut list: Vec<(String, String)> = Vec::new();
            push_list(&mut list, destination);
            assert(pairs(list@) =~= pairs(destination@));
            push_if(&mut list, f.redelivered, "messaging.message.redelivered", "true");
            merge(bag, list);
            first_nonempty(f.queue.as_str(), f.routing_key.as_str(), f.exchange.as_str(), "amqp")
        },
        None => copy("amqp"),
    }
}

impl DeliveryRoute {
    /// The route itself: the one that was known, or the one resolved since.
    pub fn resolve(self, resolved: String) -> (r: String)
        ensures
            r@ == match self {
                DeliveryRoute::Known(route) => route@,
                DeliveryRoute::DeferredAmqplib => resolved@,
            },
    {
        match self {
            DeliveryRoute::Known(route) => route,
            DeliveryRoute::DeferredAmqplib => resolved,
        }
    }
}

/// Why a delivery failed. `handled` says that the exception did not escape.
pub struct DeliveryError {
    pub class: String,
    pub message: String,
    pub site: String,
    pub handled: bool,
}

/// How a delivery's request closes.
pub struct DeliveryClose {
    /// The status of its response. A delivery has none, which is zero.
    pub status: i64,
    pub route: String,
    pub error: Option<DeliveryError>,
}

/// A delivery's failure as plain contents.
pub struct ErrorView {
    pub class: Seq<char>,
    pub message: Seq<char>,
    pub site: Seq<char>,
    pub handled: bool,
}

/// The contents of an optional failure.
pub open spec fn opt_error(e: Option<DeliveryError>) -> Option<ErrorView> {
    match e {
        Some(e) => Some(
            ErrorView {
                class: e.class@,
                message: e.message@,
                site: e.site@,
                handled: e.handled,
            },
        ),
        None => None,
    }
}

/// Where a throw came from: nothing when its file is not known.
pub open spec fn throw_site(t: ThrowView) -> Seq<char> {
    if t.file.len() == 0 {
        Seq::empty()
    } else {
        t.file + ":"@ + t.line
    }
}

/// How a delivery ended: any throw in it is a failure, caught or not; one that
/// escapes is not handled.
pub open spec fn delivery_error(last: Option<ThrowView>, threw: bool) -> Option<ErrorView> {
    match last {
        Some(t) => Some(
            ErrorView { class: t.class, message: t.message, site: throw_site(t), handled: !threw },
        ),
        None => if threw {
            Some(
                ErrorView {
                    class: "Throwable"@,
                    message: Seq::empty(),
                    site: Seq::empty(),
                    handled: false,
                },
            )
        } else {
            None
        },
    }
}

/// Whether a close is that of the delivery whose request is open.
pub open spec fn delivery_closed(
    close: DeliveryClose,
    before: Observer,
    resolved: Seq<char>,
    threw: bool,
) -> bool {
    &&& close.status == 0
    &&& close.route@ == match before.delivery_scope {
        Some(DeliveryRoute::Known(route)) => route@,
        Some(DeliveryRoute::DeferredAmqplib) => resolved,
        None => "amqp"@,
    }
    &&& opt_error(close.error) == delivery_error(opt_throw(before.request.last_throw), threw)
}

/// Close the request that a delivery opened. `resolved` is the route that a
/// deferred one turned out to have.
pub fn close_messaging_delivery(observer: &mut Observer, resolved: String, threw: bool) -> (r:
    DeliveryClose)
    ensures
        delivery_closed(r, *old(observer), resolved@, threw),
        *final(observer) == (Observer { delivery_scope: None, ..*old(observer) }),
{
    let route = match observer.delivery_scope.take() {
        Some(scope) => scope.resolve(resolved),
        None => copy("amqp"),
    };
    let error = match last_throw(observer) {
        Some(t) => {
            let site = if t.file.as_str().is_empty() {
                String::new()
            } else {
                let mut s = t.file.clone();
                s.append(":");
                s.append(t.line.as_str());
                s
            };
            Some(DeliveryError { class: t.class, message: t.message, site, handled: !threw })
        },
        None => if threw {
            Some(
                DeliveryError {
                    class: copy("Throwable"),
                    message: String::new(),
                    site: String::new(),
                    handled: false,
                },
            )
        } else {
            None
        },
    };
    DeliveryClose { status: 0, route, error }
}

/// A delivery closes as failed exactly when something was thrown in it, and as
/// handled exactly when nothing escapes.
pub proof fn law_delivery_fails_iff_something_was_thrown(last: Option<ThrowView>, threw: bool)
    ensures
        delivery_error(last, threw) is Some <==> last is Some || threw,
        delivery_error(last, threw) matches Some(e) ==> e.handled == !threw,
{
}

/// What a Kafka poll returned, when it returned a message.
pub struct PollFacts {
    pub topic: String,
    pub partition: Option<i64>,
    pub key: Option<String>,
    pub offset: Option<i64>,
    pub schema: Option<String>,
    pub enqueued_at: Option<String>,
    pub traceparent: Option<String>,
}

/// An integer property.
pub open spec fn long_of(o: Object, name: Seq<char>) -> Option<i64> {
    match o.property(name) {
        Zval::Long(n) => Some(n),
        _ => None,
    }
}

/// A Kafka header: trimmed, and none when empty.
pub open spec fn kafka_header(message: Object, key: Seq<char>) -> Option<Seq<char>> {
    nonempty(Some(table_prop(Some(message), "headers"@, key, 4096)))
}

fn read_kafka_header(message: &Object, key: &str) -> (r: Option<String>)
    ensures
        opt_text(r) == kafka_header(*message, key@),
{
    let text = read_table_prop(Some(message), "headers", key, 4096);
    if text.as_str().is_empty() {
        None
    } else {
        Some(text)
    }
}

/// Whether facts are those of a polled message.
pub open spec fn polled(facts: PollFacts, message: Object) -> bool {
    &&& facts.topic@ == prop(Some(message), "topic_name"@, 512)
    &&& facts.partition == long_of(message, "partition"@)
    &&& opt_text(facts.key) == nonempty(capped(message.text("key"@), 256))
    &&& facts.offset == long_of(message, "offset"@)
    &&& opt_text(facts.schema) == kafka_header(message, SCHEMA_HEADER@)
    &&& opt_text(facts.enqueued_at) == kafka_header(message, ENQUEUED_AT_HEADER@)
    &&& opt_text(facts.traceparent) == kafka_header(message, "traceparent"@)
}

/// Read what a Kafka poll returned: nothing when it returned no message.
pub fn rdkafka_poll_facts(retval: &Zval) -> (r: Option<PollFacts>)
    ensures
        match (r, *retval) {
            (Some(facts), Zval::Object(message)) => polled(facts, *message),
            (None, Zval::Object(_)) => false,
            (Some(_), _) => false,
            (None, _) => true,
        },
{
    match retval_object(retval) {
        Some(message) => {
            let key = match object_property_string(message, "key", 256) {
                Some(k) => if k.as_str().is_empty() {
                    None
                } else {
                    Some(k)
                },
                None => None,
            };
            Some(
                PollFacts {
                    topic: read_prop(Some(message), "topic_name", 512),
                    partition: object_property_long(message, "partition"),
                    key,
                    offset: object_property_long(message, "offset"),
                    schema: read_kafka_header(message, SCHEMA_HEADER),
                    enqueued_at: read_kafka_header(message, ENQUEUED_AT_HEADER),
                    traceparent: read_kafka_header(message, "traceparent"),
                },
            )
        },
        None => None,
    }
}

/// What the messaging vocabulary says of a poll: its label, its destination, the
/// partition, and how long the message waited.
pub struct PollWords {
    pub label: String,
    pub destination: Vec<(String, String)>,
    pub partition: Option<String>,
    pub waited_ms: Option<u64>,
}

/// How every poll begins what it says.
pub open spec fn poll_head(system: Seq<char>) -> Seq<(Seq<char>, Seq<char>)> {
    seq![
        ("span.kind"@, "consumer"@),
        ("messaging.system"@, system),
        ("messaging.operation"@, "receive"@),
    ]
}

fn push_poll_head(list: &mut Vec<(String, String)>, system: &str)
    ensures
        pairs(final(list)@) == pairs(old(list)@) + poll_head(system@),
{
    let ghost before = pairs(list@);
    push_pair(list, "span.kind", "consumer");
    push_pair(list, "messaging.system", system);
    push_pair(list, "messaging.operation", "receive");
    assert(pairs(list@) =~= before + poll_head(system@));
}

/// An integer as text, when there is one.
pub open spec fn opt_int(n: Option<i64>) -> Option<Seq<char>> {
    match n {
        Some(n) => Some(int_text(n as int)),
        None => None,
    }
}

/// What a Kafka poll says beyond its head. Without a message, nothing.
pub open spec fn with_polled(
    a: Seq<(Seq<char>, Seq<char>)>,
    retval: Zval,
    words: PollWords,
) -> Seq<(Seq<char>, Seq<char>)> {
    match retval {
        Zval::Object(m) => {
            let a = a + pairs(words.destination@);
            let a = with_some(
                a,
                "messaging.kafka.destination.partition"@,
                opt_text(words.partition),
            );
            let a = with_some(
                a,
                "messaging.kafka.message.key"@,
                nonempty(capped(m.text("key"@), 256)),
            );
            let a = with_some(
                a,
                "messaging.kafka.message.offset"@,
                opt_int(long_of(*m, "offset"@)),
            );
            let a = with_some(a, "messaging.message.name"@, kafka_header(*m, SCHEMA_HEADER@));
            let a = with_some(
                a,
                "messaging.message.queue_time_ms"@,
                if kafka_header(*m, ENQUEUED_AT_HEADER@) is Some {
                    opt_decimal(words.waited_ms)
                } else {
                    None
                },
            );
            with_some(a, "messaging.message.traceparent"@, kafka_header(*m, "traceparent"@))
        },
        _ => a,
    }
}

/// A Kafka poll has returned: its span says what came back. An empty poll is no
/// failure.
pub fn capture_rdkafka_poll_result(frame: &mut CallFrame, retval: &Zval, words: &PollWords)
    ensures
        pairs(final(frame).attributes@) == with_polled(
            pairs(old(frame).attributes@) + poll_head(SYSTEM_KAFKA@),
            *retval,
            *words,
        ),
        opt_text(final(frame).span_name) == Some(
            if *retval is Object {
                words.label@
            } else {
                "RECEIVE "@ + SYSTEM_KAFKA@
            },
        ),
        *final(frame) == (CallFrame {
            attributes: final(frame).attributes,
            span_name: final(frame).span_name,
            ..*old(frame)
        }),
{
    push_poll_head(&mut frame.attributes, SYSTEM_KAFKA);
    let facts = match rdkafka_poll_facts(retval) {
        Some(f) => f,
        None => {
            let mut label = copy("RECEIVE ");
            label.append(SYSTEM_KAFKA);
            frame.span_name = Some(label);
            return ;
        },
    };
    frame.span_name = Some(words.label.clone());
    push_list(&mut frame.attributes, &words.destination);
    push_some(
        &mut frame.attributes,
        "messaging.kafka.destination.partition",
        &words.partition,
    );
    push_some(&mut frame.attributes, "messaging.kafka.message.key", &facts.key);
    let offset = match facts.offset {
        Some(n) => Some(signed_text(n)),
        None => None,
    };
    push_some(&mut frame.attributes, "messaging.kafka.message.offset", &offset);
    push_some(&mut frame.attributes, "messaging.message.name", &facts.schema);
    let waited = if facts.enqueued_at.is_some() {
        decimal_opt(words.waited_ms)
    } else {
        None
    };
    push_some(&mut frame.attributes, "messaging.message.queue_time_ms", &waited);
    push_some(&mut frame.attributes, "messaging.message.traceparent", &facts.traceparent);
}

/// The request subject of a NATS pull consumer.
pub open spec fn launcher_subject(this: Option<Object>) -> Option<Seq<char>> {
    match inner(this, "launcher"@) {
        Some(l) => capped(l.text("subject"@), 512),
        None => None,
    }
}

/// The request subject of a NATS pull consumer: none when the queue was never
/// given a launcher.
pub fn nats_launcher_subject(call: &Call) -> (r: Option<String>)
    ensures
        opt_text(r) == launcher_subject(call.this),
{
    match read_inner(this_object(call), "launcher") {
        Some(l) => object_property_string(l, "subject", 512),
        None => None,
    }
}

/// A NATS batch fetch has returned: its span says where from and how many.
pub fn capture_nats_fetchall_result(frame: &mut CallFrame, retval: &Zval, words: &PollWords)
    ensures
        pairs(final(frame).attributes@) == with_some(
            pairs(old(frame).attributes@) + poll_head(SYSTEM_NATS@) + pairs(words.destination@),
            "messaging.batch.message_count"@,
            match *retval {
                Zval::Array(t) => Some(decimal(t@.len())),
                _ => None,
            },
        ),
        opt_text(final(frame).span_name) == Some(words.label@),
        *final(frame) == (CallFrame {
            attributes: final(frame).attributes,
            span_name: final(frame).span_name,
            ..*old(frame)
        }),
{
    push_poll_head(&mut frame.attributes, SYSTEM_NATS);
    frame.span_name = Some(words.label.clone());
    push_list(&mut frame.attributes, &words.destination);
    let count = match retval_array_len(retval) {
        Some(n) => Some(decimal_text(n as u128)),
        None => None,
    };
    push_some(&mut frame.attributes, "messaging.batch.message_count", &count);
}

/// The frame of a pull-style consume call that has returned. The frame's name
/// tells whose it is; one of any other call is as it was.
pub open spec fn polled_frame(frame: FrameView, retval: Zval, words: PollWords) -> FrameView {
    if frame.name == "RdKafka\\KafkaConsumer::consume"@ || frame.name
        == "RdKafka\\ConsumerTopic::consume"@ {
        FrameView {
            attributes: with_polled(
                frame.attributes + poll_head(SYSTEM_KAFKA@),
                retval,
                words,
            ),
            span_name: Some(
                if retval is Object {
                    words.label@
                } else {
                    "RECEIVE "@ + SYSTEM_KAFKA@
                },
            ),
            ..frame
        }
    } else if frame.name == "Basis\\Nats\\Queue::fetchAll"@ {
        FrameView {
            attributes: with_some(
                frame.attributes + poll_head(SYSTEM_NATS@) + pairs(words.destination@),
                "messaging.batch.message_count"@,
                match retval {
                    Zval::Array(t) => Some(decimal(t@.len())),
                    _ => None,
                },
            ),
            span_name: Some(words.label@),
            ..frame
        }
    } else {
        frame
    }
}

/// A pull-style consume call has returned.
pub fn capture_messaging_poll_result(frame: &mut CallFrame, retval: &Zval, words: &PollWords)
    ensures
        final(frame)@ == polled_frame(old(frame)@, *retval, *words),
{
    let kafka = same(frame.name.as_str(), "RdKafka\\KafkaConsumer::consume") || same(
        frame.name.as_str(),
        "RdKafka\\ConsumerTopic::consume",
    );
    let nats = same(frame.name.as_str(), "Basis\\Nats\\Queue::fetchAll");
    if kafka {
        capture_rdkafka_poll_result(frame, retval, words);
    } else if nats {
        capture_nats_fetchall_result(frame, retval, words);
    }
}

/// A Bunny client dispatches a job exactly when no request is open and the channel
/// holds a delivery, no return, and a callback under the delivery's tag. What it shows
/// is read off the delivery, the message's header and the client's options; it is
/// known by its queue, its routing key or its exchange.
pub proof fn law_what_a_bunny_delivery_shows(
    observer: &Observer,
    request_active: bool,
    call: &Call,
    r: Option<DeliveryFacts>,
    this: Option<&Object>,
    channel: &Object,
    delivered: Option<&Object>,
    frame: &Object,
    returned: Option<&Object>,
    tag: Option<String>,
    tag_text: &str,
    registered: bool,
    queue: String,
    header: Option<&Object>,
    client: Option<&Object>,
    buffer: Option<&Object>,
    held: &Object,
    body: Option<Vec<u8>>,
    flag: Option<bool>,
    routing_key: String,
    exchange: String,
    traceparent: String,
    tracestate: String,
    baggage: String,
    enqueued: String,
    schema: String,
    type_header: String,
    vhost: String,
    host: String,
    port: String,
    message_id: String,
    correlation_id: String,
    content_type: String,
)
    requires
        call_ensures(begin_messaging_delivery_bunny, (observer, request_active, call), r),
        call_ensures(this_object, (call,), this),
        this matches Some(o) ==> *channel == *o,
        call_ensures(object_property_object, (channel, "deliverFrame"), delivered),
        delivered matches Some(o) ==> *frame == *o,
        call_ensures(object_property_object, (channel, "returnFrame"), returned),
        call_ensures(object_property_string, (frame, "consumerTag", 256usize), tag),
        tag matches Some(t) ==> tag_text@ == t@,
        tag is None ==> tag_text@.len() == 0,
        call_ensures(
            object_property_array_has_str_key,
            (channel, "deliverCallbacks", tag_text),
            registered,
        ),
        call_ensures(
            banked_queue,
            (&observer.subscriptions.queues, channel.handle, tag_text),
            queue,
        ),
        call_ensures(object_property_object, (channel, "headerFrame"), header),
        call_ensures(object_property_object, (channel, "client"), client),
        call_ensures(object_property_object, (channel, "bodyBuffer"), buffer),
        buffer matches Some(o) ==> *held == *o,
        call_ensures(object_property_bytes, (held, "buffer"), body),
        call_ensures(object_property_bool, (frame, "redelivered"), flag),
        call_ensures(read_prop, (Some(frame), "routingKey", 512usize), routing_key),
        call_ensures(read_prop, (Some(frame), "exchange", 512usize), exchange),
        call_ensures(read_table_prop, (header, "headers", "traceparent", 4096usize), traceparent),
        call_ensures(read_table_prop, (header, "headers", "tracestate", 4096usize), tracestate),
        call_ensures(read_table_prop, (header, "headers", "baggage", 4096usize), baggage),
        call_ensures(read_table_prop, (header, "headers", "x-chronos-enqueued-at", 4096usize), enqueued),
        call_ensures(read_table_prop, (header, "headers", "x-chronos-schema", 4096usize), schema),
        call_ensures(read_prop, (header, "typeHeader", 512usize), type_header),
        call_ensures(read_table_prop, (client, "options", "vhost", 256usize), vhost),
        call_ensures(read_table_prop, (client, "options", "host", 256usize), host),
        call_ensures(read_table_prop, (client, "options", "port", 256usize), port),
        call_ensures(read_prop, (header, "messageId", 512usize), message_id),
        call_ensures(read_prop, (header, "correlationId", 512usize), correlation_id),
        call_ensures(read_prop, (header, "contentType", 512usize), content_type),
    ensures
        r is Some <==> !request_active && this is Some && delivered is Some && returned is None
            && tag_text@.len() > 0 && registered,
        r matches Some(f) ==> {
            &&& f.method@ == "QUEUE"@
            &&& !f.deferred
            &&& queue@.len() > 0 ==> f.route@ == queue@
            &&& queue@.len() == 0 && routing_key@.len() > 0 ==> f.route@ == routing_key@
            &&& queue@.len() == 0 && routing_key@.len() == 0 && exchange@.len() > 0 ==> f.route@ == exchange@
            &&& queue@.len() == 0 && routing_key@.len() == 0 && exchange@.len() == 0 ==> f.route@ == "amqp"@
            &&& f.traceparent@ == traceparent@
            &&& f.tracestate@ == tracestate@
            &&& f.baggage@ == baggage@
            &&& f.enqueued_at@ == enqueued@
            &&& f.schema_header@ == schema@
            &&& f.type_header@ == type_header@
            &&& f.queue@ == queue@ && f.routing_key@ == routing_key@ && f.exchange@ == exchange@
            &&& f.vhost@ == vhost@ && f.host@ == host@ && f.port@ == port@
            &&& f.subject@.len() == 0 && f.group@.len() == 0
            &&& f.redelivered == (flag == Some(true))
            &&& f.message_id@ == message_id@
            &&& f.correlation_id@ == correlation_id@
            &&& f.content_type@ == content_type@
            &&& buffer is Some ==> opt_bytes(f.body) == opt_bytes(body)
            &&& buffer is None ==> f.body is None
        },
{
    if let Some(f) = r {
        assert(f@.method == f.method@);
        assert(f@.body == opt_bytes(f.body));
    }
}

/// An amqplib client dispatches a job exactly when no request is open and its second
/// argument is a message. What it shows is read off the message's application headers
/// and properties and the channel's connection; its route is not known yet.
pub proof fn law_what_an_amqplib_delivery_shows(
    request_active: bool,
    call: &Call,
    r: Option<DeliveryFacts>,
    argument: Option<&Object>,
    message: &Object,
    this: Option<&Object>,
    connection: Option<&Object>,
    io: Option<&Object>,
    body: Option<Vec<u8>>,
    traceparent: Option<String>,
    tracestate: Option<String>,
    baggage: Option<String>,
    enqueued: Option<String>,
    schema: Option<String>,
    type_header: String,
    message_id: String,
    correlation_id: String,
    content_type: String,
    host: String,
    port: String,
)
    requires
        call_ensures(begin_messaging_delivery_amqplib, (request_active, call), r),
        call_ensures(arg_object, (call, 1usize), argument),
        argument matches Some(m) ==> *message == *m,
        call_ensures(this_object, (call,), this),
        call_ensures(read_inner, (this, "connection"), connection),
        call_ensures(read_inner, (connection, "io"), io),
        call_ensures(object_property_bytes, (message, "body"), body),
        call_ensures(amqp_application_header, (message, "traceparent", 256usize), traceparent),
        call_ensures(amqp_application_header, (message, "tracestate", 4096usize), tracestate),
        call_ensures(amqp_application_header, (message, "baggage", 4096usize), baggage),
        call_ensures(amqp_application_header, (message, "x-chronos-enqueued-at", 64usize), enqueued),
        call_ensures(amqp_application_header, (message, "x-chronos-schema", 512usize), schema),
        call_ensures(read_table_prop, (argument, "properties", "type", 512usize), type_header),
        call_ensures(read_table_prop, (argument, "properties", "message_id", 256usize), message_id),
        call_ensures(read_table_prop, (argument, "properties", "correlation_id", 256usize), correlation_id),
        call_ensures(read_table_prop, (argument, "properties", "content_type", 256usize), content_type),
        call_ensures(read_prop, (io, "host", 256usize), host),
        call_ensures(read_prop, (io, "port", 32usize), port),
    ensures
        r is Some <==> !request_active && argument is Some,
        r matches Some(f) ==> {
            &&& f.method@ == "QUEUE"@
            &&& f.deferred
            &&& f.route@ == "amqp"@
            &&& traceparent matches Some(t) ==> f.traceparent@ == t@
            &&& traceparent is None ==> f.traceparent@.len() == 0
            &&& tracestate matches Some(t) ==> f.tracestate@ == t@
            &&& tracestate is None ==> f.tracestate@.len() == 0
            &&& baggage matches Some(t) ==> f.baggage@ == t@
            &&& baggage is None ==> f.baggage@.len() == 0
            &&& enqueued matches Some(t) ==> f.enqueued_at@ == t@
            &&& enqueued is None ==> f.enqueued_at@.len() == 0
            &&& schema matches Some(t) ==> f.schema_header@ == t@
            &&& schema is None ==> f.schema_header@.len() == 0
            &&& f.type_header@ == type_header@
            &&& f.message_id@ == message_id@
            &&& f.correlation_id@ == correlation_id@
            &&& f.content_type@ == content_type@
            &&& f.host@ == host@ && f.port@ == port@
            &&& opt_bytes(f.body) == opt_bytes(body)
            &&& f.queue@.len() == 0 && f.routing_key@.len() == 0 && f.exchange@.len() == 0
            &&& f.subject@.len() == 0 && f.group@.len() == 0 && f.vhost@.len() == 0
            &&& !f.redelivered
        },
{
    if let Some(f) = r {
        assert(f@.method == f.method@);
        assert(f@.body == opt_bytes(f.body));
    }
}

/// A NATS client dispatches a job exactly when no request is open, the message is not
/// only buffered in a queue object, there is a message, and it is no reply to the
/// client's own request. What it shows is read off the message, its payload's headers
/// and the client's configuration; it is known by the subject it was subscribed to.
pub proof fn law_what_a_nats_delivery_shows(
    observer: &Observer,
    request_active: bool,
    call: &Call,
    r: Option<DeliveryFacts>,
    buffered: bool,
    argument: Option<&Object>,
    message: &Object,
    subject: String,
    this: Option<&Object>,
    client: &Object,
    own: Option<String>,
    own_text: &str,
    replies: bool,
    subject_text: &str,
    sid: Option<String>,
    sid_text: &str,
    banked: (String, String),
    payload: Option<&Object>,
    held: &Object,
    body: Option<Vec<u8>>,
    configuration: Option<&Object>,
    settings: &Object,
    port: Option<String>,
    traceparent: String,
    tracestate: String,
    baggage: String,
    enqueued: String,
    schema: String,
    content_type: String,
    host: String,
)
    requires
        call_ensures(begin_messaging_delivery_nats, (observer, request_active, call), r),
        call_ensures(arg_is_instance_of, (call, 0usize, "Basis\\Nats\\Queue"), buffered),
        call_ensures(arg_object, (call, 1usize), argument),
        argument matches Some(m) ==> *message == *m,
        call_ensures(read_prop, (argument, "subject", 512usize), subject),
        call_ensures(this_object, (call,), this),
        this matches Some(c) ==> *client == *c,
        call_ensures(object_property_string, (client, "requestsSubject", 64usize), own),
        this is Some && own is Some ==> own_text@ == own->0@,
        this is None || own is None ==> own_text@.len() == 0,
        subject_text@ == subject@,
        call_ensures(starts_with, (subject_text, own_text), replies),
        call_ensures(object_property_string, (message, "sid", 64usize), sid),
        sid matches Some(t) ==> sid_text@ == t@,
        sid is None ==> sid_text@.len() == 0,
        call_ensures(banked_sid, (&observer.subscriptions.sids, sid_text), banked),
        call_ensures(object_property_object, (message, "payload"), payload),
        payload matches Some(p) ==> *held == *p,
        call_ensures(object_property_bytes, (held, "body"), body),
        call_ensures(read_inner, (this, "configuration"), configuration),
        configuration matches Some(c) ==> *settings == *c,
        call_ensures(object_property_string, (settings, "port", 16usize), port),
        call_ensures(read_table_prop, (payload, "headers", "traceparent", 4096usize), traceparent),
        call_ensures(read_table_prop, (payload, "headers", "tracestate", 4096usize), tracestate),
        call_ensures(read_table_prop, (payload, "headers", "baggage", 4096usize), baggage),
        call_ensures(read_table_prop, (payload, "headers", "x-chronos-enqueued-at", 4096usize), enqueued),
        call_ensures(read_table_prop, (payload, "headers", "x-chronos-schema", 4096usize), schema),
        call_ensures(read_table_prop, (payload, "headers", "content-type", 4096usize), content_type),
        call_ensures(read_prop, (configuration, "host", 256usize), host),
    ensures
        r is Some <==> !request_active && !buffered && argument is Some && !(own_text@.len() > 0 && replies),
        r matches Some(f) ==> {
            &&& f.method@ == "QUEUE"@
            &&& !f.deferred
            &&& f.subject@ == subject@
            &&& sid_text@.len() > 0 && banked.0@.len() > 0 ==> f.route@ == banked.0@
            &&& (sid_text@.len() == 0 || banked.0@.len() == 0) && subject@.len() > 0 ==> f.route@ == subject@
            &&& (sid_text@.len() == 0 || banked.0@.len() == 0) && subject@.len() == 0 ==> f.route@ == "nats"@
            &&& sid_text@.len() > 0 ==> f.group@ == banked.1@
            &&& sid_text@.len() == 0 ==> f.group@.len() == 0
            &&& f.traceparent@ == traceparent@
            &&& f.tracestate@ == tracestate@
            &&& f.baggage@ == baggage@
            &&& f.enqueued_at@ == enqueued@
            &&& f.schema_header@ == schema@
            &&& f.content_type@ == content_type@
            &&& f.host@ == host@
            &&& configuration is Some && port is Some ==> f.port@ == port->0@
            &&& configuration is None || port is None ==> f.port@.len() == 0
            &&& payload is Some ==> opt_bytes(f.body) == opt_bytes(body)
            &&& payload is None ==> f.body is None
            &&& f.queue@.len() == 0 && f.routing_key@.len() == 0 && f.exchange@.len() == 0
            &&& f.vhost@.len() == 0 && f.type_header@.len() == 0
            &&& f.message_id@.len() == 0 && f.correlation_id@.len() == 0
            &&& !f.redelivered
        },
{
    if let Some(f) = r {
        assert(f@.method == f.method@);
        assert(f@.body == opt_bytes(f.body));
    }
    if let Some(m) = argument {
        assert(deref_object(argument) == Some(*message));
    }
    let sids = sid_views(observer.subscriptions.sids@);
    if sid_of(sids, sid_text@) is None {
        assert(banked.0@.len() == 0 && banked.1@.len() == 0);
    }
}

/// What a delivery without a destination says: a consumer's, of a messaging system, in
/// processing; where the server is, the group, how long the message waited, whether it
/// was delivered before, its ids, its class, its protocol, and its payload. Whatever is
/// not known is left out.
pub proof fn law_what_a_delivery_says(
    system: &str,
    facts: &DeliveryFacts,
    words: &DeliveryWords,
    r: Vec<(String, String)>,
    waited: String,
)
    requires
        call_ensures(make_delivery_attributes, (system, facts, words), r),
        words.waited_ms matches Some(n) ==> call_ensures(decimal_text, (n as u128,), waited),
        words.destination@.len() == 0 || facts.deferred,
    ensures
        ({
            let a = pairs(r@);
            &&& pair_value(a, "span.kind"@) == Some("consumer"@)
            &&& pair_value(a, "messaging.system"@) == Some(system@)
            &&& pair_value(a, "messaging.operation"@) == Some("process"@)
            &&& says_if(a, "server.address"@, facts.host@.len() > 0, facts.host@)
            &&& says_if(a, "server.port"@, facts.port@.len() > 0, facts.port@)
            &&& says_if(a, "messaging.consumer.group.name"@, facts.group@.len() > 0, facts.group@)
            &&& says_if(a, "messaging.message.queue_time_ms"@, words.waited_ms is Some, waited@)
            &&& says_if(a, "messaging.message.redelivered"@, facts.redelivered, "true"@)
            &&& says_if(a, "messaging.message.id"@, facts.message_id@.len() > 0, facts.message_id@)
            &&& says_if(
                a,
                "messaging.message.conversation_id"@,
                facts.correlation_id@.len() > 0,
                facts.correlation_id@,
            )
            &&& pair_value(a, "messaging.message.name"@) == opt_text(words.name)
            &&& pair_value(a, "messaging.protocol"@) == opt_text(words.protocol)
            &&& says_if(
                a,
                "messaging.message.body.content_type"@,
                facts.content_type@.len() > 0,
                facts.content_type@,
            )
            &&& tells_body(a, opt_bytes(facts.body), words.body)
        }),
{
    let v = facts@;
    let none = Seq::<(Seq<char>, Seq<char>)>::empty();
    let head = seq![
        ("span.kind"@, "consumer"@),
        ("messaging.system"@, system@),
        ("messaging.operation"@, "process"@),
    ];
    if !facts.deferred {
        assert(pairs(words.destination@) =~= none);
        assert(head + none =~= head);
    }
    lemma_delivery_head(system@, v, *words);
    lemma_delivery_rest(delivery_start(system@, v, *words), v, *words);
    assert(pairs(r@) == delivery_end(delivery_start(system@, v, *words), v, *words));
}

/// What a delivery says up to whether it was delivered before.
spec fn delivery_start(
    system: Seq<char>,
    v: DeliveryView,
    words: DeliveryWords,
) -> Seq<(Seq<char>, Seq<char>)> {
    let a = seq![
        ("span.kind"@, "consumer"@),
        ("messaging.system"@, system),
        ("messaging.operation"@, "process"@),
    ];
    let a = with_if(a, v.host.len() > 0, "server.address"@, v.host);
    let a = with_if(a, v.port.len() > 0, "server.port"@, v.port);
    let a = with_if(a, v.group.len() > 0, "messaging.consumer.group.name"@, v.group);
    let a = with_some(a, "messaging.message.queue_time_ms"@, opt_decimal(words.waited_ms));
    with_if(a, v.redelivered, "messaging.message.redelivered"@, "true"@)
}

/// What a delivery says from its id on.
spec fn delivery_end(
    a: Seq<(Seq<char>, Seq<char>)>,
    v: DeliveryView,
    words: DeliveryWords,
) -> Seq<(Seq<char>, Seq<char>)> {
    let a = with_if(a, v.message_id.len() > 0, "messaging.message.id"@, v.message_id);
    let a = with_if(
        a,
        v.correlation_id.len() > 0,
        "messaging.message.conversation_id"@,
        v.correlation_id,
    );
    let a = with_some(a, "messaging.message.name"@, opt_text(words.name));
    let a = with_some(a, "messaging.protocol"@, opt_text(words.protocol));
    let a = with_if(
        a,
        v.content_type.len() > 0,
        "messaging.message.body.content_type"@,
        v.content_type,
    );
    with_body(a, size_of_body(v.body), words.body)
}

proof fn lemma_delivery_head(system: Seq<char>, v: DeliveryView, words: DeliveryWords)
    ensures
        ({
            let a = delivery_start(system, v, words);
            &&& pair_value(a, "span.kind"@) == Some("consumer"@)
            &&& pair_value(a, "messaging.system"@) == Some(system)
            &&& pair_value(a, "messaging.operation"@) == Some("process"@)
            &&& says_if(a, "server.address"@, v.host.len() > 0, v.host)
            &&& says_if(a, "server.port"@, v.port.len() > 0, v.port)
            &&& says_if(a, "messaging.consumer.group.name"@, v.group.len() > 0, v.group)
            &&& pair_value(a, "messaging.message.queue_time_ms"@) == opt_decimal(words.waited_ms)
            &&& says_if(a, "messaging.message.redelivered"@, v.redelivered, "true"@)
            &&& forall|k: Seq<char>| k != "span.kind"@ && k != "messaging.system"@ && k
                != "messaging.operation"@ && k != "server.address"@ && k != "server.port"@ && k
                != "messaging.consumer.group.name"@ && k != "messaging.message.queue_time_ms"@ && k
                != "messaging.message.redelivered"@ ==> #[trigger] pair_value(a, k) is None
        }),
{
    reveal_strlit("span.kind");
    reveal_strlit("messaging.system");
    reveal_strlit("messaging.operation");
    reveal_strlit("server.address");
    reveal_strlit("server.port");
    reveal_strlit("messaging.consumer.group.name");
    reveal_strlit("messaging.message.queue_time_ms");
    reveal_strlit("messaging.message.redelivered");
    assert("span.kind"@.len() == 9);
    assert("messaging.system"@.len() == 16);
    assert("messaging.operation"@.len() == 19);
    assert("server.address"@.len() == 14);
    assert("server.port"@.len() == 11);
    assert("messaging.consumer.group.name"@.len() == 29);
    assert("messaging.message.queue_time_ms"@.len() == 31);
    assert("messaging.message.redelivered"@.len() == 29);
    assert("messaging.consumer.group.name"@[10] != "messaging.message.redelivered"@[10]);
    let none = Seq::<(Seq<char>, Seq<char>)>::empty();
    lemma_under(none, "span.kind"@, Some("consumer"@));
    let b0 = with_some(none, "span.kind"@, Some("consumer"@));
    lemma_under(b0, "messaging.system"@, Some(system));
    let b1 = with_some(b0, "messaging.system"@, Some(system));
    lemma_under(b1, "messaging.operation"@, Some("process"@));
    let a0 = with_some(b1, "messaging.operation"@, Some("process"@));
    assert(a0 =~= seq![
        ("span.kind"@, "consumer"@),
        ("messaging.system"@, system),
        ("messaging.operation"@, "process"@),
    ]);
    lemma_under_if(a0, v.host.len() > 0, "server.address"@, v.host);
    let a1 = with_if(a0, v.host.len() > 0, "server.address"@, v.host);
    lemma_under_if(a1, v.port.len() > 0, "server.port"@, v.port);
    let a2 = with_if(a1, v.port.len() > 0, "server.port"@, v.port);
    lemma_under_if(a2, v.group.len() > 0, "messaging.consumer.group.name"@, v.group);
    let a3 = with_if(a2, v.group.len() > 0, "messaging.consumer.group.name"@, v.group);
    lemma_under(a3, "messaging.message.queue_time_ms"@, opt_decimal(words.waited_ms));
    let a4 = with_some(a3, "messaging.message.queue_time_ms"@, opt_decimal(words.waited_ms));
    lemma_under_if(a4, v.redelivered, "messaging.message.redelivered"@, "true"@);
    let a5 = with_if(a4, v.redelivered, "messaging.message.redelivered"@, "true"@);
}

proof fn lemma_delivery_rest(
    a5: Seq<(Seq<char>, Seq<char>)>,
    v: DeliveryView,
    words: DeliveryWords,
)
    requires
        forall|k: Seq<char>| k != "span.kind"@ && k != "messaging.system"@ && k
            != "messaging.operation"@ && k != "server.address"@ && k != "server.port"@ && k
            != "messaging.consumer.group.name"@ && k != "messaging.message.queue_time_ms"@ && k
            != "messaging.message.redelivered"@ ==> #[trigger] pair_value(a5, k) is None,
    ensures
        ({
            let a = delivery_end(a5, v, words);
            &&& pair_value(a, "span.kind"@) == pair_value(a5, "span.kind"@)
            &&& pair_value(a, "messaging.system"@) == pair_value(a5, "messaging.system"@)
            &&& pair_value(a, "messaging.operation"@) == pair_value(a5, "messaging.operation"@)
            &&& pair_value(a, "server.address"@) == pair_value(a5, "server.address"@)
            &&& pair_value(a, "server.port"@) == pair_value(a5, "server.port"@)
            &&& pair_value(a, "messaging.consumer.group.name"@) == pair_value(
                a5,
                "messaging.consumer.group.name"@,
            )
            &&& pair_value(a, "messaging.message.queue_time_ms"@) == pair_value(
                a5,
                "messaging.message.queue_time_ms"@,
            )
            &&& pair_value(a, "messaging.message.redelivered"@) == pair_value(
                a5,
                "messaging.message.redelivered"@,
            )
            &&& says_if(a, "messaging.message.id"@, v.message_id.len() > 0, v.message_id)
            &&& says_if(
                a,
                "messaging.message.conversation_id"@,
                v.correlation_id.len() > 0,
                v.correlation_id,
            )
            &&& pair_value(a, "messaging.message.name"@) == opt_text(words.name)
            &&& pair_value(a, "messaging.protocol"@) == opt_text(words.protocol)
            &&& says_if(
                a,
                "messaging.message.body.content_type"@,
                v.content_type.len() > 0,
                v.content_type,
            )
            &&& tells_body(a, v.body, words.body)
        }),
{
    reveal_strlit("span.kind");
    reveal_strlit("messaging.system");
    reveal_strlit("messaging.operation");
    reveal_strlit("server.address");
    reveal_strlit("server.port");
    reveal_strlit("messaging.consumer.group.name");
    reveal_strlit("messaging.message.queue_time_ms");
    reveal_strlit("messaging.message.redelivered");
    reveal_strlit("messaging.message.id");
    reveal_strlit("messaging.message.conversation_id");
    reveal_strlit("messaging.message.name");
    reveal_strlit("messaging.protocol");
    reveal_strlit("messaging.message.body.content_type");
    reveal_strlit("messaging.message.body.size");
    reveal_strlit("messaging.message.body");
    reveal_strlit("messaging.message.body.encoding");
    reveal_strlit("messaging.message.body.truncated");
    reveal_strlit("messaging.message.body.stored");
    assert("span.kind"@.len() == 9);
    assert("messaging.system"@.len() == 16);
    assert("messaging.operation"@.len() == 19);
    assert("server.address"@.len() == 14);
    assert("server.port"@.len() == 11);
    assert("messaging.consumer.group.name"@.len() == 29);
    assert("messaging.message.queue_time_ms"@.len() == 31);
    assert("messaging.message.redelivered"@.len() == 29);
    assert("messaging.message.id"@.len() == 20);
    assert("messaging.message.conversation_id"@.len() == 33);
    assert("messaging.message.name"@.len() == 22);
    assert("messaging.protocol"@.len() == 18);
    assert("messaging.message.body.content_type"@.len() == 35);
    assert("messaging.message.body.size"@.len() == 27);
    assert("messaging.message.body"@.len() == 22);
    assert("messaging.message.body.encoding"@.len() == 31);
    assert("messaging.message.body.truncated"@.len() == 32);
    assert("messaging.message.body.stored"@.len() == 29);
    assert("messaging.consumer.group.name"@[10] != "messaging.message.redelivered"@[10]);
    assert("messaging.consumer.group.name"@[10] != "messaging.message.body.stored"@[10]);
    assert("messaging.message.queue_time_ms"@[18] != "messaging.message.body.encoding"@[18]);
    assert("messaging.message.redelivered"@[18] != "messaging.message.body.stored"@[18]);
    assert("messaging.message.name"@[18] != "messaging.message.body"@[18]);
    lemma_under_if(a5, v.message_id.len() > 0, "messaging.message.id"@, v.message_id);
    let a6 = with_if(a5, v.message_id.len() > 0, "messaging.message.id"@, v.message_id);
    lemma_under_if(a6, v.correlation_id.len() > 0, "messaging.message.conversation_id"@, v.correlation_id);
    let a7 = with_if(a6, v.correlation_id.len() > 0, "messaging.message.conversation_id"@, v.correlation_id);
    lemma_under(a7, "messaging.message.name"@, opt_text(words.name));
    let a8 = with_some(a7, "messaging.message.name"@, opt_text(words.name));
    lemma_under(a8, "messaging.protocol"@, opt_text(words.protocol));
    let a9 = with_some(a8, "messaging.protocol"@, opt_text(words.protocol));
    lemma_under_if(a9, v.content_type.len() > 0, "messaging.message.body.content_type"@, v.content_type);
    let a10 = with_if(a9, v.content_type.len() > 0, "messaging.message.body.content_type"@, v.content_type);
    lemma_tells_body(a10, v.body, words.body);
}

/// A delivery that is not deferred says its destination after its operation, before
/// everything else, and nothing else differently.
pub proof fn law_a_delivery_says_its_destination(
    system: &str,
    facts: &DeliveryFacts,
    words: &DeliveryWords,
    r: Vec<(String, String)>,
    bare: &DeliveryWords,
    s: Vec<(String, String)>,
)
    requires
        call_ensures(make_delivery_attributes, (system, facts, words), r),
        bare.destination@.len() == 0,
        *bare == (DeliveryWords { destination: bare.destination, ..*words }),
        call_ensures(make_delivery_attributes, (system, facts, bare), s),
    ensures
        !facts.deferred ==> pairs(r@) == pairs(s@).take(3) + pairs(words.destination@) + pairs(
            s@,
        ).skip(3),
        facts.deferred ==> pairs(r@) == pairs(s@),
{
    let v = facts@;
    let head = seq![
        ("span.kind"@, "consumer"@),
        ("messaging.system"@, system@),
        ("messaging.operation"@, "process"@),
    ];
    let none = Seq::<(Seq<char>, Seq<char>)>::empty();
    let d = pairs(words.destination@);
    assert(pairs(bare.destination@) =~= none);
    assert(head + none =~= head);
    lemma_delivery_tail(head + d, v, *words);
    lemma_delivery_tail(head, v, *words);
    let tail = delivery_tail(none, v, *words);
    assert(delivery_tail(head, v, *bare) == delivery_tail(head, v, *words));
    if !facts.deferred {
        assert(pairs(r@) == head + d + tail);
        assert(pairs(s@) == head + tail);
        assert(pairs(s@).take(3) =~= head);
        assert(pairs(s@).skip(3) =~= tail);
    }
}

/// What follows the destination among a delivery's attributes.
spec fn delivery_tail(
    a: Seq<(Seq<char>, Seq<char>)>,
    facts: DeliveryView,
    words: DeliveryWords,
) -> Seq<(Seq<char>, Seq<char>)> {
    let a = with_if(a, facts.host.len() > 0, "server.address"@, facts.host);
    let a = with_if(a, facts.port.len() > 0, "server.port"@, facts.port);
    let a = with_if(a, facts.group.len() > 0, "messaging.consumer.group.name"@, facts.group);
    let a = with_some(a, "messaging.message.queue_time_ms"@, opt_decimal(words.waited_ms));
    let a = with_if(a, facts.redelivered, "messaging.message.redelivered"@, "true"@);
    let a = with_if(a, facts.message_id.len() > 0, "messaging.message.id"@, facts.message_id);
    let a = with_if(
        a,
        facts.correlation_id.len() > 0,
        "messaging.message.conversation_id"@,
        facts.correlation_id,
    );
    let a = with_some(a, "messaging.message.name"@, opt_text(words.name));
    let a = with_some(a, "messaging.protocol"@, opt_text(words.protocol));
    let a = with_if(
        a,
        facts.content_type.len() > 0,
        "messaging.message.body.content_type"@,
        facts.content_type,
    );
    with_body(a, size_of_body(facts.body), words.body)
}

proof fn lemma_delivery_tail(
    a0: Seq<(Seq<char>, Seq<char>)>,
    v: DeliveryView,
    words: DeliveryWords,
)
    ensures
        delivery_tail(a0, v, words) == a0 + delivery_tail(Seq::empty(), v, words),
{
    let c0 = Seq::<(Seq<char>, Seq<char>)>::empty();
    let a1 = with_if(a0, v.host.len() > 0, "server.address"@, v.host);
    let c1 = with_if(c0, v.host.len() > 0, "server.address"@, v.host);
    assert(a1 =~= a0 + c1);
    let a2 = with_if(a1, v.port.len() > 0, "server.port"@, v.port);
    let c2 = with_if(c1, v.port.len() > 0, "server.port"@, v.port);
    assert(a2 =~= a0 + c2);
    let a3 = with_if(a2, v.group.len() > 0, "messaging.consumer.group.name"@, v.group);
    let c3 = with_if(c2, v.group.len() > 0, "messaging.consumer.group.name"@, v.group);
    assert(a3 =~= a0 + c3);
    let a4 = with_some(a3, "messaging.message.queue_time_ms"@, opt_decimal(words.waited_ms));
    let c4 = with_some(c3, "messaging.message.queue_time_ms"@, opt_decimal(words.waited_ms));
    assert(a4 =~= a0 + c4);
    let a5 = with_if(a4, v.redelivered, "messaging.message.redelivered"@, "true"@);
    let c5 = with_if(c4, v.redelivered, "messaging.message.redelivered"@, "true"@);
    assert(a5 =~= a0 + c5);
    let a6 = with_if(a5, v.message_id.len() > 0, "messaging.message.id"@, v.message_id);
    let c6 = with_if(c5, v.message_id.len() > 0, "messaging.message.id"@, v.message_id);
    assert(a6 =~= a0 + c6);
    let a7 = with_if(a6, v.correlation_id.len() > 0, "messaging.message.conversation_id"@, v.correlation_id);
    let c7 = with_if(c6, v.correlation_id.len() > 0, "messaging.message.conversation_id"@, v.correlation_id);
    assert(a7 =~= a0 + c7);
    let a8 = with_some(a7, "messaging.message.name"@, opt_text(words.name));
    let c8 = with_some(c7, "messaging.message.name"@, opt_text(words.name));
    assert(a8 =~= a0 + c8);
    let a9 = with_some(a8, "messaging.protocol"@, opt_text(words.protocol));
    let c9 = with_some(c8, "messaging.protocol"@, opt_text(words.protocol));
    assert(a9 =~= a0 + c9);
    let a10 = with_if(a9, v.content_type.len() > 0, "messaging.message.body.content_type"@, v.content_type);
    let c10 = with_if(c9, v.content_type.len() > 0, "messaging.message.body.content_type"@, v.content_type);
    assert(a10 =~= a0 + c10);
    lemma_body_after(a0, c10, size_of_body(v.body), words.body);
}

/// A delivery opens its request without a deadline, says its facts on it, remembers
/// its route unless that is deferred, and pushes a frame that is only paired and
/// closes the request.
pub proof fn law_a_delivery_opens_its_request(
    observer: &mut Observer,
    bag: &mut Bag,
    system: &str,
    name: &str,
    facts: &DeliveryFacts,
    words: &DeliveryWords,
    r: Opened,
    said: Vec<(String, String)>,
    twin: &mut Bag,
    paired: CallFrame,
)
    requires
        old(bag).wf(),
        call_ensures(open_delivery, (observer, bag, system, name, facts, words), r),
        call_ensures(make_delivery_attributes, (system, facts, words), said),
        *old(twin) == *old(bag),
        call_ensures(merge, (twin, said), ()),
        call_ensures(CallFrame::observe_only, (name,), paired),
    ensures
        r.timeout == 0,
        pairs(r.facts@) == pairs(said@),
        final(bag)@ == final(twin)@,
        r.frame.owns_delivery_scope,
        r.frame@ == (FrameView { owns_delivery_scope: true, ..paired@ }),
        facts.deferred ==> final(observer).delivery_scope == Some(DeliveryRoute::DeferredAmqplib),
        !facts.deferred ==> (final(observer).delivery_scope matches Some(DeliveryRoute::Known(route))
            && route@ == facts.route@),
        *final(observer) == (Observer {
            delivery_scope: final(observer).delivery_scope,
            ..*old(observer)
        }),
{
    assert(r.frame@.owns_delivery_scope == r.frame.owns_delivery_scope);
}

/// The envelope of an amqplib delivery that has run: the queue behind its consumer tag
/// on its channel, its routing key and exchange, its connection's virtual host, and
/// whether it was delivered before. Without a message there is none.
pub proof fn law_what_an_amqplib_envelope_shows(
    observer: &Observer,
    call: &Call,
    r: Option<RouteFacts>,
    argument: Option<&Object>,
    message: &Object,
    tag: Option<String>,
    tag_text: &str,
    handle: Option<u32>,
    number: u32,
    queue: String,
    routing_key: String,
    exchange: String,
    this: Option<&Object>,
    connection: Option<&Object>,
    vhost: String,
    flag: Option<bool>,
)
    requires
        call_ensures(amqplib_route_facts, (observer, call), r),
        call_ensures(arg_object, (call, 1usize), argument),
        argument matches Some(m) ==> *message == *m,
        call_ensures(object_property_string, (message, "consumerTag", 256usize), tag),
        tag matches Some(t) ==> tag_text@ == t@,
        call_ensures(this_object_handle, (call,), handle),
        handle matches Some(h) ==> number == h,
        call_ensures(banked_queue, (&observer.subscriptions.queues, number, tag_text), queue),
        call_ensures(read_prop, (argument, "routingKey", 512usize), routing_key),
        call_ensures(read_prop, (argument, "exchange", 512usize), exchange),
        call_ensures(this_object, (call,), this),
        call_ensures(read_inner, (this, "connection"), connection),
        call_ensures(read_prop, (connection, "vhost", 256usize), vhost),
        call_ensures(object_property_bool, (message, "redelivered"), flag),
    ensures
        r is Some <==> argument is Some,
        r matches Some(f) ==> {
            &&& handle is Some && tag is Some && tag->0@.len() > 0 ==> f.queue@ == queue@
            &&& handle is None || tag is None || tag->0@.len() == 0 ==> f.queue@.len() == 0
            &&& f.routing_key@ == routing_key@
            &&& f.exchange@ == exchange@
            &&& f.vhost@ == vhost@
            &&& f.redelivered == (flag == Some(true))
        },
{
}

/// A deferred delivery is known by its envelope's queue, routing key or exchange, and
/// else by its protocol; its destination joins the facts of its request, and that it
/// was delivered before where it was.
pub proof fn law_an_envelope_gives_the_route(
    bag: &mut Bag,
    facts: &Option<RouteFacts>,
    destination: &Vec<(String, String)>,
    r: String,
    twin: &mut Bag,
    more: Vec<(String, String)>,
)
    requires
        old(bag).wf(),
        call_ensures(resolve_amqplib_delivery_route, (bag, facts, destination), r),
        *old(twin) == *old(bag),
        call_ensures(merge, (twin, more), ()),
        *facts matches Some(f) ==> f.redelivered ==> pairs(more@) == pairs(destination@).push(
            ("messaging.message.redelivered"@, "true"@),
        ),
        *facts matches Some(f) ==> !f.redelivered ==> pairs(more@) == pairs(destination@),
        *facts is None ==> more@.len() == 0,
    ensures
        final(bag)@ == final(twin)@,
        *facts is None ==> r@ == "amqp"@,
        *facts matches Some(f) ==> {
            &&& f.queue@.len() > 0 ==> r@ == f.queue@
            &&& f.queue@.len() == 0 && f.routing_key@.len() > 0 ==> r@ == f.routing_key@
            &&& f.queue@.len() == 0 && f.routing_key@.len() == 0 && f.exchange@.len() > 0 ==> r@
                == f.exchange@
            &&& f.queue@.len() == 0 && f.routing_key@.len() == 0 && f.exchange@.len() == 0 ==> r@
                == "amqp"@
        },
{
    if *facts is None {
        assert(pairs(more@) =~= Seq::empty());
    }
}

/// A delivery's request closes under the route it was opened with, or the one that was
/// resolved since, without a status. It failed exactly when something was thrown in
/// it: the last throw is told with its class, message and site, and was handled
/// exactly when nothing escapes.
pub proof fn law_how_a_delivery_closes(
    observer: &mut Observer,
    resolved: String,
    threw: bool,
    r: DeliveryClose,
)
    requires
        call_ensures(close_messaging_delivery, (observer, resolved, threw), r),
    ensures
        r.status == 0,
        old(observer).delivery_scope matches Some(DeliveryRoute::Known(route)) ==> r.route@ == route@,
        old(observer).delivery_scope == Some(DeliveryRoute::DeferredAmqplib) ==> r.route@
            == resolved@,
        old(observer).delivery_scope is None ==> r.route@ == "amqp"@,
        final(observer).delivery_scope is None,
        r.error is Some <==> threw || old(observer).request.last_throw is Some,
        r.error matches Some(e) ==> {
            &&& e.handled == !threw
            &&& old(observer).request.last_throw matches Some(t) ==> {
                &&& e.class@ == t.class@
                &&& e.message@ == t.message@
                &&& t.file@.len() > 0 ==> e.site@ == t.file@ + ":"@ + t.line@
                &&& t.file@.len() == 0 ==> e.site@.len() == 0
            }
            &&& old(observer).request.last_throw is None ==> e.class@ == "Throwable"@
                && e.message@.len() == 0 && e.site@.len() == 0
        },
        *final(observer) == (Observer { delivery_scope: None, ..*old(observer) }),
{
}

/// A route that is known stays, and a deferred one is what was resolved.
pub proof fn law_a_known_route_stays(route: DeliveryRoute, resolved: String, r: String)
    requires
        call_ensures(DeliveryRoute::resolve, (route, resolved), r),
    ensures
        route matches DeliveryRoute::Known(known) ==> r@ == known@,
        route is DeferredAmqplib ==> r@ == resolved@,
{
}

/// What a polled Kafka message shows: its topic, partition, key and offset are
/// properties, and its class, stamp and `traceparent` headers. An empty poll shows
/// nothing.
pub proof fn law_what_a_kafka_poll_shows(
    retval: &Zval,
    r: Option<PollFacts>,
    returned: Option<&Object>,
    message: &Object,
    topic: String,
    partition: Option<i64>,
    key: Option<String>,
    offset: Option<i64>,
    schema: String,
    enqueued: String,
    traceparent: String,
)
    requires
        call_ensures(rdkafka_poll_facts, (retval,), r),
        call_ensures(retval_object, (retval,), returned),
        returned matches Some(m) ==> *message == *m,
        call_ensures(read_prop, (returned, "topic_name", 512usize), topic),
        call_ensures(object_property_long, (message, "partition"), partition),
        call_ensures(object_property_string, (message, "key", 256usize), key),
        call_ensures(object_property_long, (message, "offset"), offset),
        call_ensures(read_table_prop, (returned, "headers", "x-chronos-schema", 4096usize), schema),
        call_ensures(
            read_table_prop,
            (returned, "headers", "x-chronos-enqueued-at", 4096usize),
            enqueued,
        ),
        call_ensures(read_table_prop, (returned, "headers", "traceparent", 4096usize), traceparent),
    ensures
        r is Some <==> returned is Some,
        r matches Some(f) ==> {
            &&& f.topic@ == topic@
            &&& f.partition == partition
            &&& key is Some && key->0@.len() > 0 ==> f.key is Some && f.key->0@ == key->0@
            &&& key is None || key->0@.len() == 0 ==> f.key is None
            &&& f.offset == offset
            &&& schema@.len() > 0 ==> f.schema is Some && f.schema->0@ == schema@
            &&& schema@.len() == 0 ==> f.schema is None
            &&& enqueued@.len() > 0 ==> f.enqueued_at is Some && f.enqueued_at->0@ == enqueued@
            &&& enqueued@.len() == 0 ==> f.enqueued_at is None
            &&& traceparent@.len() > 0 ==> f.traceparent is Some && f.traceparent->0@
                == traceparent@
            &&& traceparent@.len() == 0 ==> f.traceparent is None
        },
{
}

/// What a Kafka poll says: a consumer's, in receiving, and of a message its
/// destination, partition, key, offset, class, wait and `traceparent`. An empty poll
/// says no more than that it was one.
#[verifier::rlimit(40)]
pub proof fn law_what_a_kafka_poll_says(
    frame: &mut CallFrame,
    retval: &Zval,
    words: &PollWords,
    facts: Option<PollFacts>,
    offset: String,
    waited: String,
)
    requires
        call_ensures(capture_rdkafka_poll_result, (frame, retval, words), ()),
        call_ensures(rdkafka_poll_facts, (retval,), facts),
        facts is Some && facts->0.offset is Some ==> call_ensures(
            signed_text,
            (facts->0.offset->0,),
            offset,
        ),
        words.waited_ms matches Some(n) ==> call_ensures(decimal_text, (n as u128,), waited),
        words.destination@.len() == 0,
    ensures
        exists|added: Seq<(Seq<char>, Seq<char>)>|
            pairs(final(frame).attributes@) == #[trigger] (pairs(old(frame).attributes@) + added) && {
                &&& pair_value(added, "span.kind"@) == Some("consumer"@)
                &&& pair_value(added, "messaging.system"@) == Some("kafka"@)
                &&& pair_value(added, "messaging.operation"@) == Some("receive"@)
                &&& facts is None ==> added.len() == 3
                &&& facts matches Some(f) ==> {
                    &&& pair_value(added, "messaging.kafka.destination.partition"@) == opt_text(
                        words.partition,
                    )
                    &&& pair_value(added, "messaging.kafka.message.key"@) == opt_text(f.key)
                    &&& says_if(
                        added,
                        "messaging.kafka.message.offset"@,
                        f.offset is Some,
                        offset@,
                    )
                    &&& pair_value(added, "messaging.message.name"@) == opt_text(f.schema)
                    &&& says_if(
                        added,
                        "messaging.message.queue_time_ms"@,
                        f.enqueued_at is Some && words.waited_ms is Some,
                        waited@,
                    )
                    &&& pair_value(added, "messaging.message.traceparent"@) == opt_text(
                        f.traceparent,
                    )
                }
            },
        facts is None ==> final(frame).span_name is Some && final(frame).span_name->0@ == "RECEIVE "@
            + "kafka"@,
        facts is Some ==> final(frame).span_name is Some && final(frame).span_name->0@
            == words.label@,
{
    reveal_strlit("span.kind");
    reveal_strlit("messaging.system");
    reveal_strlit("messaging.operation");
    reveal_strlit("messaging.kafka.destination.partition");
    reveal_strlit("messaging.kafka.message.key");
    reveal_strlit("messaging.kafka.message.offset");
    reveal_strlit("messaging.message.name");
    reveal_strlit("messaging.message.queue_time_ms");
    reveal_strlit("messaging.message.traceparent");
    reveal_strlit("messaging.batch.message_count");
    assert("span.kind"@.len() == 9);
    assert("messaging.system"@.len() == 16);
    assert("messaging.operation"@.len() == 19);
    assert("messaging.kafka.destination.partition"@.len() == 37);
    assert("messaging.kafka.message.key"@.len() == 27);
    assert("messaging.kafka.message.offset"@.len() == 30);
    assert("messaging.message.name"@.len() == 22);
    assert("messaging.message.queue_time_ms"@.len() == 31);
    assert("messaging.message.traceparent"@.len() == 29);
    assert("messaging.batch.message_count"@.len() == 29);
    assert("messaging.message.traceparent"@[10] != "messaging.batch.message_count"@[10]);
    let before = pairs(old(frame).attributes@);
    let none = Seq::<(Seq<char>, Seq<char>)>::empty();
    let c0 = poll_head("kafka"@);
    lemma_poll_head("kafka"@);
    assert(pairs(words.destination@) =~= none);
    assert(before + c0 + none =~= before + c0);
    match *retval {
        Zval::Object(m) => {
            let key = nonempty(capped(m.text("key"@), 256));
            let at = opt_int(long_of(*m, "offset"@));
            let schema = kafka_header(*m, SCHEMA_HEADER@);
            let wait = if kafka_header(*m, ENQUEUED_AT_HEADER@) is Some {
                opt_decimal(words.waited_ms)
            } else {
                None
            };
            let trace = kafka_header(*m, "traceparent"@);
            lemma_under(c0, "messaging.kafka.destination.partition"@, opt_text(words.partition));
            let c1 = with_some(c0, "messaging.kafka.destination.partition"@, opt_text(words.partition));
            lemma_under(c1, "messaging.kafka.message.key"@, key);
            let c2 = with_some(c1, "messaging.kafka.message.key"@, key);
            lemma_under(c2, "messaging.kafka.message.offset"@, at);
            let c3 = with_some(c2, "messaging.kafka.message.offset"@, at);
            lemma_under(c3, "messaging.message.name"@, schema);
            let c4 = with_some(c3, "messaging.message.name"@, schema);
            lemma_under(c4, "messaging.message.queue_time_ms"@, wait);
            let c5 = with_some(c4, "messaging.message.queue_time_ms"@, wait);
            lemma_under(c5, "messaging.message.traceparent"@, trace);
            let added = with_some(c5, "messaging.message.traceparent"@, trace);
            assert(with_polled(before + c0, *retval, *words) =~= before + added);
            assert(pairs(final(frame).attributes@) == before + added);
        },
        _ => {
            assert(pairs(final(frame).attributes@) == before + c0);
        },
    }
}

proof fn lemma_poll_head(system: Seq<char>)
    ensures
        pair_value(poll_head(system), "span.kind"@) == Some("consumer"@),
        pair_value(poll_head(system), "messaging.system"@) == Some(system),
        pair_value(poll_head(system), "messaging.operation"@) == Some("receive"@),
        forall|k: Seq<char>| k != "span.kind"@ && k != "messaging.system"@ && k
            != "messaging.operation"@ ==> #[trigger] pair_value(poll_head(system), k) is None,
        poll_head(system).len() == 3,
{
    reveal_strlit("span.kind");
    reveal_strlit("messaging.system");
    reveal_strlit("messaging.operation");
    assert("span.kind"@.len() == 9);
    assert("messaging.system"@.len() == 16);
    assert("messaging.operation"@.len() == 19);
    let none = Seq::<(Seq<char>, Seq<char>)>::empty();
    lemma_under(none, "span.kind"@, Some("consumer"@));
    let b0 = with_some(none, "span.kind"@, Some("consumer"@));
    lemma_under(b0, "messaging.system"@, Some(system));
    let b1 = with_some(b0, "messaging.system"@, Some(system));
    lemma_under(b1, "messaging.operation"@, Some("receive"@));
    assert(poll_head(system) =~= with_some(b1, "messaging.operation"@, Some("receive"@)));
}

/// A poll that returned a message says its destination right after its operation.
pub proof fn law_a_kafka_poll_says_its_destination(
    frame: &mut CallFrame,
    retval: &Zval,
    words: &PollWords,
    returned: Option<&Object>,
)
    requires
        call_ensures(capture_rdkafka_poll_result, (frame, retval, words), ()),
        call_ensures(retval_object, (retval,), returned),
        returned is Some,
    ensures
        ({
            let n = old(frame).attributes@.len() as int + 3;
            let d = words.destination@.len() as int;
            &&& final(frame).attributes@.len() >= n + d
            &&& pairs(final(frame).attributes@).subrange(n, n + d) == pairs(words.destination@)
        }),
{
    let before = pairs(old(frame).attributes@);
    let d = pairs(words.destination@);
    let base = before + poll_head("kafka"@) + d;
    let n = before.len() as int + 3;
    let after = pairs(final(frame).attributes@);
    assert(after.take(base.len() as int) =~= base);
    assert(base.subrange(n, n + d.len()) =~= d);
    assert(after.subrange(n, n + d.len()) =~= after.take(base.len() as int).subrange(n, n + d.len()));
}

/// A NATS batch fetch says where it fetched from, and how many messages came back
/// where it returned a list.
pub proof fn law_what_a_nats_fetch_says(
    frame: &mut CallFrame,
    retval: &Zval,
    words: &PollWords,
    count: Option<usize>,
    number: String,
)
    requires
        call_ensures(capture_nats_fetchall_result, (frame, retval, words), ()),
        call_ensures(retval_array_len, (retval,), count),
        count matches Some(n) ==> call_ensures(decimal_text, (n as u128,), number),
    ensures
        ({
            let before = pairs(old(frame).attributes@);
            let after = pairs(final(frame).attributes@);
            let n = before.len() as int;
            let d = words.destination@.len() as int;
            &&& after.take(n) == before
            &&& after[n] == ("span.kind"@, "consumer"@)
            &&& after[n + 1] == ("messaging.system"@, "nats"@)
            &&& after[n + 2] == ("messaging.operation"@, "receive"@)
            &&& after.subrange(n + 3, n + 3 + d) == pairs(words.destination@)
            &&& count is None ==> after.len() == n + 3 + d
            &&& count is Some ==> after.len() == n + 4 + d && after[n + 3 + d] == (
                "messaging.batch.message_count"@,
                number@,
            )
        }),
        final(frame).span_name is Some && final(frame).span_name->0@ == words.label@,
{
    let before = pairs(old(frame).attributes@);
    let after = pairs(final(frame).attributes@);
    let n = before.len() as int;
    let d = words.destination@.len() as int;
    assert(after.take(n) =~= before);
    assert(after.subrange(n + 3, n + 3 + d) =~= pairs(words.destination@));
}

/// The subject of a NATS pull consumer is its launcher's.
pub proof fn law_the_subject_of_a_nats_pull(
    call: &Call,
    r: Option<String>,
    this: Option<&Object>,
    launcher: Option<&Object>,
    held: &Object,
    subject: Option<String>,
)
    requires
        call_ensures(nats_launcher_subject, (call,), r),
        call_ensures(this_object, (call,), this),
        call_ensures(read_inner, (this, "launcher"), launcher),
        launcher matches Some(l) ==> *held == *l,
        call_ensures(object_property_string, (held, "subject", 512usize), subject),
    ensures
        launcher is Some ==> opt_text(r) == opt_text(subject),
        launcher is None ==> r is None,
{
}

/// A poll is read by its method: Kafka's consume calls as a Kafka poll, NATS's
/// `fetchAll` as a batch fetch, and any other call not at all.
pub proof fn law_polls_are_told_by_their_method(
    frame: &mut CallFrame,
    retval: &Zval,
    words: &PollWords,
    kafka: &mut CallFrame,
    nats: &mut CallFrame,
)
    requires
        call_ensures(capture_messaging_poll_result, (frame, retval, words), ()),
        *old(kafka) == *old(frame),
        *old(nats) == *old(frame),
        call_ensures(capture_rdkafka_poll_result, (kafka, retval, words), ()),
        call_ensures(capture_nats_fetchall_result, (nats, retval, words), ()),
    ensures
        old(frame).name@ == "RdKafka\\KafkaConsumer::consume"@ || old(frame).name@
            == "RdKafka\\ConsumerTopic::consume"@ ==> final(frame)@ == final(kafka)@,
        old(frame).name@ == "Basis\\Nats\\Queue::fetchAll"@ ==> final(frame)@ == final(nats)@,
        old(frame).name@ != "RdKafka\\KafkaConsumer::consume"@ && old(frame).name@
            != "RdKafka\\ConsumerTopic::consume"@ && old(frame).name@
            != "Basis\\Nats\\Queue::fetchAll"@ ==> final(frame)@ == old(frame)@,
{
    reveal_strlit("RdKafka\\KafkaConsumer::consume");
    reveal_strlit("RdKafka\\ConsumerTopic::consume");
    reveal_strlit("Basis\\Nats\\Queue::fetchAll");
    assert("RdKafka\\KafkaConsumer::consume"@.len() == 30);
    assert("RdKafka\\ConsumerTopic::consume"@.len() == 30);
    assert("Basis\\Nats\\Queue::fetchAll"@.len() == 26);
    assert("RdKafka\\KafkaConsumer::consume"@[8] != "RdKafka\\ConsumerTopic::consume"@[8]);
    assert(old(frame)@.name == old(frame).name@);
}

} // verus!
