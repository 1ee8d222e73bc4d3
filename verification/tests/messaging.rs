use chronos_collector::context::TraceContext;
use chronos_collector::observer::banks::{
    bank_consumer_queue, bank_nats_subscribe, banked_queue, banked_sid, maybe_bank_consumer_queue,
    remember_subscribe_method, MAX_CONSUMER_QUEUES, MAX_SUBSCRIBE_SIDS,
};
use chronos_collector::observer::delivery::{
    amqplib_route_facts, begin_messaging_delivery_amqplib, begin_messaging_delivery_bunny,
    begin_messaging_delivery_nats, capture_messaging_poll_result, close_messaging_delivery,
    nats_launcher_subject, open_delivery, rdkafka_poll_facts, resolve_amqplib_delivery_route,
    DeliveryWords, PollWords,
};
use chronos_collector::observer::messaging::{
    amqplib_publish_facts, bank_serialized_message, begin_messaging_publish_amqplib,
    begin_messaging_publish_bunny, begin_messaging_publish_rdkafka, begin_nats_send_message,
    bunny_publish_facts, nats_publish_facts, nats_send_role, rdkafka_publish_facts,
    warn_injection_failure_for, BodyFacts, NatsSend, Preview, PublishWords,
};
use chronos_collector::observer::spans::{CallFrame, Minted};
use chronos_collector::observer::state::{ConsumeSubscribeKind, DeliveryRoute, LastThrow, Subscription};
use chronos_collector::observer::{set_request_context, Observer};
use chronos_collector::request_attributes::Bag;
use chronos_collector::zend_helpers::{amqp_application_header, Call, Function, Key, Object, Zval};

fn context() -> TraceContext {
    TraceContext {
        trace_id: "a".repeat(32),
        span_id: "b".repeat(16),
        parent_span_id: None,
        sampled: true,
        session_id: None,
        tracestate: Some("vendor=1".to_owned()),
        baggage: None,
    }
}

fn open_request() -> Observer {
    let mut observer = Observer::new();
    set_request_context(&mut observer, context());
    observer
}

fn text(value: &str) -> Zval {
    Zval::Str(value.as_bytes().to_vec())
}

fn table(entries: Vec<(&str, Zval)>) -> Zval {
    Zval::Array(entries.into_iter().map(|(k, v)| (Key::Str(k.to_owned()), v)).collect())
}

fn object(handle: u32, class: &str, properties: Vec<(&str, Zval)>) -> Object {
    Object {
        handle,
        classes: vec![class.to_owned()],
        properties: properties.into_iter().map(|(k, v)| (k.to_owned(), v)).collect(),
    }
}

fn boxed(handle: u32, class: &str, properties: Vec<(&str, Zval)>) -> Zval {
    Zval::Object(Box::new(object(handle, class, properties)))
}

fn call(this: Option<Object>, args: Vec<Zval>) -> Call {
    Call {
        function: 7,
        func: Some(Function {
            name: Some("f".to_owned()),
            class: None,
            user: true,
            filename: Some("/srv/app.php".to_owned()),
            line_start: 1,
            arg_names: Vec::new(),
        }),
        this,
        args,
    }
}

fn minted() -> Minted {
    Minted { span_id: "c".repeat(16), started_at: "t0".to_owned(), start_hrtime: 5 }
}

fn words() -> PublishWords {
    PublishWords {
        banked_name: Some("App\\Order".to_owned()),
        stamp: "1700000000.5".to_owned(),
        label: "PUBLISH orders".to_owned(),
        destination: vec![("messaging.destination.name".to_owned(), "orders".to_owned())],
        partition: Some("3".to_owned()),
        protocol: Some("json".to_owned()),
        body: BodyFacts {
            preview: Some(Preview { body: "{}".to_owned(), base64: false, truncated: true }),
            stored: true,
        },
    }
}

fn own_header() -> String {
    format!("00-{}-{}-01", "a".repeat(32), "c".repeat(16))
}

fn entry(value: &Zval, key: &str) -> Option<String> {
    match value {
        Zval::Array(t) => t.iter().find_map(|(k, v)| match (k, v) {
            (Key::Str(k), Zval::Str(b)) if k == key => Some(String::from_utf8(b.clone()).unwrap()),
            _ => None,
        }),
        _ => None,
    }
}

fn attribute<'a>(frame: &'a CallFrame, key: &str) -> Option<&'a str> {
    frame.attributes.iter().find(|(k, _)| k == key).map(|(_, v)| v.as_str())
}

fn bunny_call(headers: Zval) -> Call {
    let client = object(
        1,
        "Bunny\\Client",
        vec![("options", table(vec![("host", text(" mq ")), ("port", Zval::Long(5672)), ("vhost", text("/"))]))],
    );
    call(Some(client), vec![Zval::Long(1), text("{\"a\":1}"), headers, text("ex"), text("rk")])
}

#[test]
fn a_bunny_publish_carries_the_trace_of_the_span_it_records() {
    let mut observer = open_request();
    let mut c = bunny_call(table(vec![("content-type", text("application/json"))]));
    let facts = bunny_publish_facts(&c);
    assert_eq!((facts.exchange.as_str(), facts.routing_key.as_str()), ("ex", "rk"));
    assert_eq!((facts.host.as_str(), facts.port.as_str(), facts.vhost.as_str()), ("mq", "5672", "/"));
    let begun = begin_messaging_publish_bunny(&mut observer, &mut c, "n", &minted(), &words(), false);
    assert!(begun.refused.is_none() && begun.warning.is_none());
    assert_eq!(entry(&c.args[2], "traceparent"), Some(own_header()));
    assert_eq!(entry(&c.args[2], "tracestate").as_deref(), Some("vendor=1"));
    assert_eq!(entry(&c.args[2], "baggage"), None);
    assert_eq!(entry(&c.args[2], "x-chronos-enqueued-at").as_deref(), Some("1700000000.5"));
    assert_eq!(entry(&c.args[2], "x-chronos-schema").as_deref(), Some("App\\Order"));
    let frame = begun.frame.unwrap();
    assert!(frame.bypass_span_cap && frame.emit_span);
    assert_eq!(frame.span_name.as_deref(), Some("PUBLISH orders"));
    let expected: Vec<(&str, &str)> = vec![
        ("span.kind", "producer"),
        ("messaging.system", "rabbitmq"),
        ("messaging.operation", "publish"),
        ("messaging.destination.name", "orders"),
        ("server.address", "mq"),
        ("server.port", "5672"),
        ("messaging.protocol", "json"),
        ("messaging.message.body.content_type", "application/json"),
        ("messaging.message.name", "App\\Order"),
        ("messaging.message.body.size", "7"),
        ("messaging.message.body", "{}"),
        ("messaging.message.body.truncated", "true"),
        ("messaging.message.body.stored", "true"),
        ("code.filepath", "/srv/app.php"),
    ];
    let actual: Vec<(&str, &str)> =
        frame.attributes.iter().map(|(k, v)| (k.as_str(), v.as_str())).collect();
    assert_eq!(actual, expected);
    assert_eq!(observer.request.span_stack, vec!["c".repeat(16)]);
}

#[test]
fn a_callers_own_header_always_wins() {
    let mut observer = open_request();
    let mut c = bunny_call(table(vec![("traceparent", text("mine")), ("type", text(" Declared "))]));
    let begun = begin_messaging_publish_bunny(&mut observer, &mut c, "n", &minted(), &words(), false);
    assert!(begun.refused.is_none());
    assert_eq!(entry(&c.args[2], "traceparent").as_deref(), Some("mine"));
    assert_eq!(entry(&c.args[2], "x-chronos-schema").as_deref(), Some("Declared"));
}

#[test]
fn a_publish_outside_a_request_is_stamped_and_not_traced() {
    let mut observer = Observer::new();
    let mut c = bunny_call(Zval::Reference(Box::new(table(vec![]))));
    let begun = begin_messaging_publish_bunny(&mut observer, &mut c, "n", &minted(), &words(), false);
    assert!(begun.frame.is_none());
    let Zval::Reference(inner) = &c.args[2] else { panic!("reference") };
    assert_eq!(entry(inner, "traceparent"), None);
    assert_eq!(entry(inner, "x-chronos-enqueued-at").as_deref(), Some("1700000000.5"));
    let begun = begin_messaging_publish_bunny(&mut observer, &mut c, "n", &minted(), &words(), true);
    assert!(!begun.frame.unwrap().emit_span);
}

#[test]
fn a_refusal_is_said_once_and_keeps_the_span() {
    let mut observer = open_request();
    let mut c = bunny_call(Zval::Null);
    let begun = begin_messaging_publish_bunny(&mut observer, &mut c, "n", &minted(), &words(), false);
    assert_eq!(begun.refused, Some("headers argument is not an array"));
    assert_eq!(
        begun.warning.as_deref(),
        Some("chronos-php: traceparent not injected into Bunny\\AbstractClient::publish (headers argument is not an array); publish span recorded, its consumer will start a new trace")
    );
    assert!(!begun.frame.unwrap().bypass_span_cap);
    let begun = begin_messaging_publish_bunny(&mut observer, &mut c, "n", &minted(), &words(), false);
    assert!(begun.refused.is_some() && begun.warning.is_none());
    c.args.truncate(2);
    let begun = begin_messaging_publish_bunny(&mut observer, &mut c, "n", &minted(), &words(), false);
    assert_eq!(begun.refused, Some("headers argument not passed"));
    assert!(begun.warning.is_some());
    let mut warned = vec![("m".to_owned(), "r".to_owned())];
    assert!(warn_injection_failure_for(&mut warned, "m", "r").is_none());
    assert!(warn_injection_failure_for(&mut warned, "other", "r").is_some());
    assert_eq!(warned.len(), 2);
}

#[test]
fn kafka_injects_through_the_headers_argument_alone() {
    let args = || vec![Zval::Long(2), Zval::Long(0), text("p"), text("k"), table(vec![])];
    let mut observer = open_request();
    let mut c = call(Some(object(1, "RdKafka\\ProducerTopic", vec![])), args());
    let facts = rdkafka_publish_facts(&c);
    assert_eq!((facts.partition, facts.key.as_deref()), (Some(2), Some("k")));
    let begun = begin_messaging_publish_rdkafka(
        &mut observer, &mut c, "RdKafka\\ProducerTopic::producev", &minted(), &words(), false,
    );
    assert_eq!(entry(&c.args[4], "traceparent"), Some(own_header()));
    let frame = begun.frame.unwrap();
    assert!(frame.bypass_span_cap);
    assert_eq!(attribute(&frame, "messaging.system"), Some("kafka"));
    assert_eq!(attribute(&frame, "messaging.kafka.destination.partition"), Some("3"));
    assert_eq!(attribute(&frame, "messaging.kafka.message.key"), Some("k"));
    assert_eq!(attribute(&frame, "messaging.protocol"), None);
    let mut c = call(None, args());
    let begun = begin_messaging_publish_rdkafka(
        &mut observer, &mut c, "RdKafka\\ProducerTopic::produce", &minted(), &words(), false,
    );
    assert_eq!(entry(&c.args[4], "traceparent"), None);
    assert!(!begun.frame.unwrap().bypass_span_cap);
}

fn amqp_message(headers: Option<Zval>) -> Zval {
    let mut properties = vec![("content_type", text("application/x-protobuf")), ("type", text("T"))];
    if let Some(h) = headers {
        properties.push(("application_headers", h));
    }
    boxed(9, "PhpAmqpLib\\Message\\AMQPMessage", vec![("properties", table(properties)), ("body", text("xyz"))])
}

fn channel() -> Object {
    let io = boxed(3, "IO", vec![("host", text("mq")), ("port", Zval::Long(5671))]);
    let connection = boxed(2, "Connection", vec![("vhost", text(" /v ")), ("io", io)]);
    object(1, "PhpAmqpLib\\Channel\\AMQPChannel", vec![("connection", connection)])
}

#[test]
fn amqplib_headers_read_back_in_each_shape() {
    let data = boxed(5, "PhpAmqpLib\\Wire\\AMQPTable", vec![("data", table(vec![]))]);
    for headers in [None, Some(table(vec![])), Some(data)] {
        let mut observer = open_request();
        let mut c = call(Some(channel()), vec![amqp_message(headers), text("ex"), text("rk")]);
        let facts = amqplib_publish_facts(&c).unwrap();
        assert_eq!((facts.vhost.as_str(), facts.host.as_str(), facts.port.as_str()), ("/v", "mq", "5671"));
        let begun = begin_messaging_publish_amqplib(&mut observer, &mut c, "n", &minted(), &words(), false);
        assert_eq!(begun.refused, None);
        let Zval::Object(message) = &c.args[0] else { panic!("message") };
        assert_eq!(amqp_application_header(message, "traceparent", 256), Some(own_header()));
        assert_eq!(amqp_application_header(message, "x-chronos-schema", 256).as_deref(), Some("T"));
        assert_eq!(amqp_application_header(message, "baggage", 256), None);
        assert_eq!(attribute(&begun.frame.unwrap(), "messaging.message.body.size"), Some("3"));
    }
    let mut observer = open_request();
    let mut c = call(Some(channel()), vec![amqp_message(Some(Zval::Long(1)))]);
    let begun = begin_messaging_publish_amqplib(&mut observer, &mut c, "n", &minted(), &words(), false);
    assert_eq!(begun.refused, Some("application_headers is neither array nor object"));
    let broken = boxed(5, "PhpAmqpLib\\Wire\\AMQPTable", vec![("data", Zval::Null)]);
    let mut c = call(Some(channel()), vec![amqp_message(Some(broken))]);
    let begun = begin_messaging_publish_amqplib(&mut observer, &mut c, "n", &minted(), &words(), false);
    assert_eq!(begun.refused, Some("AMQPTable data is not an array"));
    let mut c = call(Some(channel()), vec![boxed(9, "M", vec![])]);
    let begun = begin_messaging_publish_amqplib(&mut observer, &mut c, "n", &minted(), &words(), false);
    assert_eq!(begun.refused, Some("properties is not an array"));
    let mut c = call(Some(channel()), vec![Zval::Null]);
    let begun = begin_messaging_publish_amqplib(&mut observer, &mut c, "n", &minted(), &words(), false);
    assert!(begun.refused.is_none() && !begun.frame.unwrap().emit_span);
}

fn nats_publish() -> Zval {
    let payload = boxed(4, "Basis\\Nats\\Message\\Payload", vec![
        ("headers", table(vec![("content-type", text("text/plain"))])),
        ("body", text("hello")),
    ]);
    boxed(3, "Basis\\Nats\\Message\\Publish", vec![("subject", text("jobs.new")), ("payload", payload)])
}

#[test]
fn a_nats_send_is_told_by_the_class_of_its_message() {
    let mut observer = open_request();
    let mut c = call(None, vec![nats_publish()]);
    assert_eq!(nats_send_role(&c), NatsSend::Publish);
    assert_eq!(nats_publish_facts(&c).unwrap().subject, "jobs.new");
    let begun = begin_nats_send_message(&mut observer, &mut c, "n", &minted(), &words(), false);
    let Zval::Object(message) = &c.args[0] else { panic!("message") };
    let Zval::Object(payload) = &message.properties[1].1 else { panic!("payload") };
    assert_eq!(entry(&payload.properties[0].1, "traceparent"), Some(own_header()));
    assert_eq!(attribute(&begun.frame.unwrap(), "messaging.system"), Some("nats"));

    observer.request.suppress_messaging = true;
    let mut c = call(None, vec![nats_publish()]);
    let begun = begin_nats_send_message(&mut observer, &mut c, "n", &minted(), &words(), false);
    assert!(!begun.frame.unwrap().emit_span);
    let mut c = call(None, vec![boxed(3, "Basis\\Nats\\Message\\Subscribe", vec![
        ("sid", text("s1")), ("subject", text(" jobs.> ")), ("group", text("workers")),
    ])]);
    begin_nats_send_message(&mut observer, &mut c, "n", &minted(), &words(), false);
    assert_eq!(banked_sid(&observer.subscriptions.sids, "s1"), ("jobs.>".to_owned(), "workers".to_owned()));
    let mut c = call(None, vec![boxed(3, "Basis\\Nats\\Message\\Ping", vec![])]);
    assert_eq!(nats_send_role(&c), NatsSend::Other);
    let begun = begin_nats_send_message(&mut observer, &mut c, "n", &minted(), &words(), false);
    assert!(!begun.frame.unwrap().emit_span);
}

#[test]
fn a_serialized_message_is_known_by_its_runtime_class() {
    let c = call(Some(object(1, "App\\Order", vec![])), vec![]);
    let banked = bank_serialized_message(&c, &Zval::Str(vec![0xff, 0x00])).unwrap();
    assert_eq!((banked.class.as_str(), banked.bytes), ("App\\Order", vec![0xff, 0x00]));
    assert!(bank_serialized_message(&c, &Zval::Bool(true)).is_none());
    assert!(bank_serialized_message(&c, &text("")).is_none());
    assert!(bank_serialized_message(&call(None, vec![]), &text("x")).is_none());
}

#[test]
fn subscriptions_name_deliveries_and_the_newest_wins() {
    let mut observer = Observer::new();
    remember_subscribe_method(&mut observer.subscriptions.consume_fns, 7, ConsumeSubscribeKind::Bunny);
    remember_subscribe_method(&mut observer.subscriptions.consume_fns, 7, ConsumeSubscribeKind::Amqplib);
    assert_eq!(observer.subscriptions.consume_fns.len(), 1);
    let ok = boxed(8, "Bunny\\Protocol\\MethodBasicConsumeOkFrame", vec![("consumerTag", text("tag"))]);
    for queue in [" orders ", "returns"] {
        let c = call(Some(object(1, "Bunny\\Channel", vec![])), vec![Zval::Null, text(queue)]);
        maybe_bank_consumer_queue(&mut observer.subscriptions, &c, &ok);
    }
    assert_eq!(banked_queue(&observer.subscriptions.queues, 1, "tag"), "returns");
    let promise = boxed(8, "React\\Promise", vec![]);
    let c = call(Some(object(2, "Bunny\\Channel", vec![])), vec![Zval::Null, text("q")]);
    maybe_bank_consumer_queue(&mut observer.subscriptions, &c, &promise);
    assert_eq!(banked_queue(&observer.subscriptions.queues, 2, "tag"), "");

    observer.subscriptions.consume_fns[0].1 = ConsumeSubscribeKind::Amqplib;
    let c = call(Some(object(3, "AMQPChannel", vec![])), vec![text("plain")]);
    maybe_bank_consumer_queue(&mut observer.subscriptions, &c, &text(" amq.ctag "));
    assert_eq!(banked_queue(&observer.subscriptions.queues, 3, "amq.ctag"), "plain");
}

#[test]
fn full_banks_refuse_only_what_they_do_not_know() {
    let mut queues = Vec::new();
    for i in 0..MAX_CONSUMER_QUEUES as u32 + 5 {
        bank_consumer_queue(&mut queues, i, "t".to_owned(), "q".to_owned());
    }
    assert_eq!(queues.len(), MAX_CONSUMER_QUEUES);
    bank_consumer_queue(&mut queues, 0, "t".to_owned(), "new".to_owned());
    assert_eq!(banked_queue(&queues, 0, "t"), "new");
    let mut sids: Vec<Subscription> = Vec::new();
    for i in 0..MAX_SUBSCRIBE_SIDS + 5 {
        let sid = i.to_string();
        bank_nats_subscribe(&mut sids, &object(1, "S", vec![("sid", text(&sid)), ("subject", text("a"))]));
    }
    assert_eq!(sids.len(), MAX_SUBSCRIBE_SIDS);
    bank_nats_subscribe(&mut sids, &object(1, "S", vec![("sid", text("0")), ("subject", text("b"))]));
    assert_eq!(banked_sid(&sids, "0").0, "b");
    assert_eq!(banked_sid(&sids, "9999"), (String::new(), String::new()));
}

fn bunny_channel(callback: bool) -> Object {
    let frame = boxed(2, "DeliverFrame", vec![
        ("consumerTag", text("tag")),
        ("routingKey", text("rk")),
        ("exchange", text("ex")),
        ("redelivered", Zval::Bool(true)),
    ]);
    let header = boxed(3, "HeaderFrame", vec![
        ("headers", table(vec![("traceparent", text(" tp ")), ("x-chronos-enqueued-at", text("5.0"))])),
        ("contentType", text("application/json")),
        ("typeHeader", text("T")),
        ("messageId", text("m1")),
        ("correlationId", text("c1")),
    ]);
    let client = boxed(4, "Client", vec![("options", table(vec![("host", text("mq")), ("port", text("5672"))]))]);
    let callbacks = if callback { table(vec![("tag", Zval::Null)]) } else { table(vec![]) };
    object(1, "Bunny\\Channel", vec![
        ("deliverFrame", frame),
        ("returnFrame", Zval::Null),
        ("deliverCallbacks", callbacks),
        ("headerFrame", header),
        ("client", client),
        ("bodyBuffer", boxed(5, "Buffer", vec![("buffer", text("body"))])),
    ])
}

fn delivery_words() -> DeliveryWords {
    DeliveryWords {
        destination: vec![("messaging.destination.name".to_owned(), "orders".to_owned())],
        waited_ms: Some(12),
        name: Some("T".to_owned()),
        protocol: None,
        body: BodyFacts { preview: None, stored: false },
    }
}

#[test]
fn a_bunny_delivery_opens_a_request_of_its_own() {
    let mut observer = Observer::new();
    bank_consumer_queue(&mut observer.subscriptions.queues, 1, "tag".to_owned(), "orders".to_owned());
    let c = call(Some(bunny_channel(true)), vec![]);
    assert!(begin_messaging_delivery_bunny(&observer, true, &c).is_none());
    let dropped = call(Some(bunny_channel(false)), vec![]);
    assert!(begin_messaging_delivery_bunny(&observer, false, &dropped).is_none());
    let facts = begin_messaging_delivery_bunny(&observer, false, &c).unwrap();
    assert_eq!((facts.route.as_str(), facts.method.as_str()), ("orders", "QUEUE"));
    assert_eq!((facts.traceparent.as_str(), facts.enqueued_at.as_str()), ("tp", "5.0"));
    let mut bag = Bag::new();
    let opened = open_delivery(&mut observer, &mut bag, "rabbitmq", "n", &facts, &delivery_words());
    assert!(opened.frame.owns_delivery_scope && !opened.frame.emit_span);
    let keys: Vec<&str> = opened.facts.iter().map(|(k, _)| k.as_str()).collect();
    assert_eq!(
        keys,
        vec![
            "span.kind", "messaging.system", "messaging.operation", "messaging.destination.name",
            "server.address", "server.port", "messaging.message.queue_time_ms",
            "messaging.message.redelivered", "messaging.message.id",
            "messaging.message.conversation_id", "messaging.message.name",
            "messaging.message.body.content_type", "messaging.message.body.size",
        ]
    );
    let close = close_messaging_delivery(&mut observer, String::new(), false);
    assert_eq!(close.route, "orders");
    assert!(close.error.is_none());
    assert!(observer.delivery_scope.is_none());
}

#[test]
fn an_amqplib_route_is_known_only_once_the_delivery_has_run() {
    let mut observer = Observer::new();
    let mut c = call(Some(channel()), vec![Zval::Null, amqp_message(None)]);
    let facts = begin_messaging_delivery_amqplib(false, &c).unwrap();
    assert!(facts.deferred);
    assert_eq!(facts.method, "QUEUE");
    assert_eq!((facts.route.as_str(), facts.type_header.as_str()), ("amqp", "T"));
    assert!(begin_messaging_delivery_amqplib(true, &c).is_none());
    let mut bag = Bag::new();
    let opened = open_delivery(&mut observer, &mut bag, "rabbitmq", "n", &facts, &delivery_words());
    assert!(opened.facts.iter().all(|(k, _)| k != "messaging.destination.name"));
    assert!(matches!(observer.delivery_scope, Some(DeliveryRoute::DeferredAmqplib)));
    if let Zval::Object(message) = &mut c.args[1] {
        for (name, value) in [("routingKey", text("rk")), ("redelivered", Zval::Bool(true))] {
            message.properties.push((name.to_owned(), value));
        }
    }
    let route = amqplib_route_facts(&observer, &c);
    let resolved = resolve_amqplib_delivery_route(&mut bag, &route, &delivery_words().destination);
    assert_eq!(resolved, "rk");
    observer.request.last_throw = Some(LastThrow {
        class: "E".to_owned(), message: "m".to_owned(), file: "f.php".to_owned(), line: "3".to_owned(),
    });
    let close = close_messaging_delivery(&mut observer, resolved, false);
    assert_eq!(close.route, "rk");
    let error = close.error.unwrap();
    assert_eq!((error.class.as_str(), error.site.as_str(), error.handled), ("E", "f.php:3", true));
    observer.request.last_throw = None;
    let error = close_messaging_delivery(&mut observer, String::new(), true).error.unwrap();
    assert_eq!((error.class.as_str(), error.handled), ("Throwable", false));
    assert_eq!(resolve_amqplib_delivery_route(&mut bag, &None, &Vec::new()), "amqp");
}

#[test]
fn a_nats_delivery_is_neither_a_buffer_nor_a_reply() {
    let mut observer = Observer::new();
    bank_nats_subscribe(
        &mut observer.subscriptions.sids,
        &object(1, "S", vec![("sid", text("s1")), ("subject", text("jobs.>")), ("group", text("g"))]),
    );
    let message = || boxed(3, "Basis\\Nats\\Message\\Msg", vec![
        ("subject", text("jobs.new")),
        ("sid", text("s1")),
        ("payload", boxed(4, "P", vec![("headers", table(vec![("traceparent", text("tp"))])), ("body", text("x"))])),
    ]);
    let client = |own: &str| object(1, "Basis\\Nats\\Client", vec![
        ("requestsSubject", text(own)),
        ("configuration", boxed(2, "C", vec![("host", text("nats")), ("port", Zval::Long(4222))])),
    ]);
    let c = call(Some(client("")), vec![Zval::Null, message()]);
    let facts = begin_messaging_delivery_nats(&observer, false, &c).unwrap();
    assert_eq!((facts.route.as_str(), facts.group.as_str()), ("jobs.>", "g"));
    assert_eq!((facts.host.as_str(), facts.port.as_str()), ("nats", "4222"));
    assert_eq!(facts.method, "QUEUE");
    let reply = call(Some(client("jobs.")), vec![Zval::Null, message()]);
    assert!(begin_messaging_delivery_nats(&observer, false, &reply).is_none());
    let mut queue = object(5, "App\\MyQueue", vec![]);
    queue.classes.push("Basis\\Nats\\Queue".to_owned());
    let buffered = call(Some(client("")), vec![Zval::Object(Box::new(queue)), message()]);
    assert!(begin_messaging_delivery_nats(&observer, false, &buffered).is_none());
}

fn poll_words() -> PollWords {
    PollWords {
        label: "RECEIVE t".to_owned(),
        destination: vec![("messaging.destination.name".to_owned(), "t".to_owned())],
        partition: Some("0".to_owned()),
        waited_ms: Some(4),
    }
}

#[test]
fn polls_say_what_came_back() {
    let message = boxed(1, "RdKafka\\Message", vec![
        ("topic_name", text("t")),
        ("partition", Zval::Long(0)),
        ("key", text("k")),
        ("offset", Zval::Long(-1)),
        ("headers", table(vec![("x-chronos-enqueued-at", text("1")), ("traceparent", text("tp"))])),
    ]);
    assert_eq!(rdkafka_poll_facts(&message).unwrap().topic, "t");
    let mut frame = CallFrame::observe_only("RdKafka\\KafkaConsumer::consume");
    capture_messaging_poll_result(&mut frame, &message, &poll_words());
    assert_eq!(frame.span_name.as_deref(), Some("RECEIVE t"));
    assert_eq!(attribute(&frame, "messaging.kafka.message.offset"), Some("-1"));
    assert_eq!(attribute(&frame, "messaging.message.queue_time_ms"), Some("4"));
    assert_eq!(attribute(&frame, "messaging.message.traceparent"), Some("tp"));
    let mut frame = CallFrame::observe_only("RdKafka\\ConsumerTopic::consume");
    capture_messaging_poll_result(&mut frame, &Zval::Null, &poll_words());
    assert_eq!(frame.span_name.as_deref(), Some("RECEIVE kafka"));
    assert_eq!(frame.attributes.len(), 3);
    let mut frame = CallFrame::observe_only("Basis\\Nats\\Queue::fetchAll");
    let batch = Zval::Array(vec![(Key::Int(0), Zval::Null), (Key::Int(1), Zval::Null)]);
    capture_messaging_poll_result(&mut frame, &batch, &poll_words());
    assert_eq!(attribute(&frame, "messaging.batch.message_count"), Some("2"));
    let mut frame = CallFrame::observe_only("other");
    capture_messaging_poll_result(&mut frame, &batch, &poll_words());
    assert!(frame.attributes.is_empty());
    let launcher = boxed(2, "Publish", vec![("subject", text("$JS.API.CONSUMER.MSG.NEXT.s.c"))]);
    let c = call(Some(object(1, "Basis\\Nats\\Queue", vec![("launcher", launcher)])), vec![]);
    assert_eq!(nats_launcher_subject(&c).as_deref(), Some("$JS.API.CONSUMER.MSG.NEXT.s.c"));
}
