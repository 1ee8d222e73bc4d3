use chronos_collector::observer::calls::{
    capture_tier_three_arguments, credit_parent, end_call, pop_frame, EndInputs, TransferFacts,
};
use chronos_collector::observer::banks::{
    bank_prepared_statement, rebank_prepared_statement_for_this, MAX_PREPARED_STATEMENTS,
};
use chronos_collector::observer::curl::{
    capture_curl_result, curl_header_pairs, curl_request_headers, curl_timeline, response_body,
    response_size, track_curl_setopt, track_curl_setopt_array, Mark, TransferMarks,
    CURLOPT_HTTPHEADER,
};
use chronos_collector::observer::delivery::PollWords;
use chronos_collector::observer::names::DstEventKind;
use chronos_collector::observer::spans::{CallFrame, EndReading, FrameTiming};
use chronos_collector::observer::state::{push_frame, DeliveryRoute};
use chronos_collector::observer::{trace_function, Manifest, Observer};
use chronos_collector::zend_helpers::{Call, Function, Key, Object, Zval};
use std::collections::HashMap;

fn text(value: &str) -> Zval {
    Zval::Str(value.as_bytes().to_vec())
}

fn handle(id: u32) -> Object {
    Object { handle: id, classes: vec!["CurlHandle".to_owned()], properties: Vec::new() }
}

fn boxed(id: u32) -> Zval {
    Zval::Object(Box::new(handle(id)))
}

fn call(name: &str, user: bool, this: Option<Object>, args: Vec<Zval>) -> Call {
    Call {
        function: 1,
        func: Some(Function {
            name: Some(name.to_owned()),
            class: None,
            user,
            filename: None,
            line_start: 0,
            arg_names: Vec::new(),
        }),
        this,
        args,
    }
}

fn list(values: &[&str]) -> Zval {
    Zval::Array(values.iter().enumerate().map(|(i, v)| (Key::Int(i as i64), text(v))).collect())
}

fn pairs(list: &[(&str, &str)]) -> Vec<(String, String)> {
    list.iter().map(|(k, v)| ((*k).to_owned(), (*v).to_owned())).collect()
}

fn inputs(recording: bool) -> EndInputs {
    EndInputs {
        threw: false,
        recording,
        min_nanos: 100,
        at: EndReading { ended_at: "t1".to_owned(), hrtime: 60 },
        transfer: None,
        poll: PollWords {
            label: String::new(),
            destination: Vec::new(),
            partition: None,
            waited_ms: None,
        },
        resolved: "resolved".to_owned(),
    }
}

#[test]
fn header_lists_are_noted_per_handle() {
    let mut map = HashMap::new();
    let set = |option: i64, value: Zval| {
        call("curl_setopt", false, None, vec![boxed(3), Zval::Long(option), value])
    };
    track_curl_setopt(&mut map, &set(CURLOPT_HTTPHEADER, list(&["A: 1"])));
    assert_eq!(map[&3], vec!["A: 1"]);
    track_curl_setopt(&mut map, &set(1, list(&["B: 2"])));
    assert_eq!(map[&3], vec!["A: 1"]);
    track_curl_setopt(&mut map, &set(CURLOPT_HTTPHEADER, Zval::Null));
    assert!(map[&3].is_empty());
    let options = Zval::Array(vec![(Key::Int(CURLOPT_HTTPHEADER), list(&["C :  3 ", "nocolon"]))]);
    track_curl_setopt_array(&mut map, &call("curl_setopt_array", false, None, vec![boxed(4), options]));
    let exec = call("curl_exec", false, None, vec![boxed(4)]);
    assert_eq!(curl_request_headers(&map, &exec), Some(pairs(&[("C", "3")])));
    let other = call("curl_exec", false, None, vec![boxed(5)]);
    assert_eq!(curl_request_headers(&map, &other), None);
    assert_eq!(curl_header_pairs(&vec!["a:b:c".to_owned()]), pairs(&[("a", "b:c")]));
}

#[test]
fn a_finished_transfer_says_what_curl_knows() {
    let info = pairs(&[
        ("http_code", "204"),
        ("content_type", "text/html"),
        ("primary_ip", "10.0.0.1"),
        ("primary_port", "0"),
        ("effective_method", "GET"),
        ("size_download", "12"),
    ]);
    let mut frame = CallFrame::observe_only("curl_exec");
    capture_curl_result(
        &mut frame,
        &info,
        &Some("{}".to_owned()),
        pairs(&[("http.response.body", "x")]),
        &Some("[]".to_owned()),
    );
    assert_eq!(
        frame.attributes,
        pairs(&[
            ("http.request.headers", "{}"),
            ("http.status_code", "204"),
            ("http.response.status_code", "204"),
            ("http.response.content_type", "text/html"),
            ("server.address", "10.0.0.1"),
            ("http.method", "GET"),
            ("http.request.method", "GET"),
            ("http.response.body", "x"),
            ("http.timeline", "[]"),
        ])
    );
    assert_eq!(response_size(&info, 3), 12);
    assert_eq!(response_size(&pairs(&[("size_download", "0")]), 3), 3);
    assert_eq!(response_size(&Vec::new(), 3), 3);
}

#[test]
fn a_body_is_encoded_only_when_it_is_wanted_and_was_returned() {
    let info = pairs(&[("content_type", "text/plain"), ("size_download", "12")]);
    let expected = ("h\u{e9}".to_owned(), 12, "text/plain".to_owned());
    assert_eq!(response_body(&info, &text("h\u{e9}"), true), Some(expected));
    assert_eq!(response_body(&info, &text("h\u{e9}"), false), None);
    assert_eq!(response_body(&info, &Zval::Bool(true), true), None);
    assert_eq!(response_body(&info, &text(""), true), None);
    assert_eq!(response_body(&info, &Zval::Str(vec![0xff]), true), None);
    let bare = ("h\u{e9}".to_owned(), 3, String::new());
    assert_eq!(response_body(&Vec::new(), &text("h\u{e9}"), true), Some(bare));
}

fn mark(seconds: f64) -> Option<Mark> {
    Some(Mark { bits: seconds.to_bits(), nanos: (seconds * 1e9) as u128 })
}

#[test]
fn the_phases_of_a_transfer_follow_on_one_another() {
    let m = TransferMarks {
        namelookup: mark(0.25),
        connect: mark(0.5),
        appconnect: None,
        pretransfer: mark(0.5),
        starttransfer: mark(1.5),
        total: mark(2.0),
    };
    let phases = curl_timeline(&m).unwrap();
    let expected: Vec<(String, u128, u128)> = vec![
        ("dns".to_owned(), 0, 250_000_000),
        ("connect".to_owned(), 250_000_000, 500_000_000),
        ("wait".to_owned(), 500_000_000, 1_500_000_000),
        ("download".to_owned(), 1_500_000_000, 2_000_000_000),
    ];
    assert_eq!(phases, expected);
    assert!(curl_timeline(&TransferMarks { total: None, ..m }).is_none());
}

#[test]
fn a_prepared_handle_never_keeps_old_text() {
    let mut map = HashMap::new();
    let prepare = |sql: Zval| call("prepare", false, None, vec![sql]);
    bank_prepared_statement(&mut map, &prepare(text("SELECT 1")), &boxed(1), 0);
    assert_eq!(map[&1], "SELECT 1");
    bank_prepared_statement(&mut map, &prepare(text("SELECT 2")), &Zval::Bool(false), 0);
    assert_eq!(map[&1], "SELECT 1");
    bank_prepared_statement(&mut map, &prepare(Zval::Null), &boxed(1), 0);
    assert!(map.is_empty());
    for id in 0..MAX_PREPARED_STATEMENTS as u32 + 3 {
        bank_prepared_statement(&mut map, &prepare(text("S")), &boxed(id), 0);
    }
    assert_eq!(map.len(), MAX_PREPARED_STATEMENTS);
    bank_prepared_statement(&mut map, &prepare(text("T")), &boxed(0), 0);
    assert_eq!(map[&0], "T");
    let again = call("prepare", false, Some(handle(0)), vec![text("U")]);
    rebank_prepared_statement_for_this(&mut map, &again, &Zval::Bool(true), "mysqli_stmt::prepare");
    assert_eq!(map[&0], "U");
    rebank_prepared_statement_for_this(&mut map, &again, &Zval::Bool(false), "mysqli_stmt::prepare");
    assert!(!map.contains_key(&0));
}

#[test]
fn an_ended_call_hands_its_time_to_the_frame_below() {
    let mut observer = Observer::new();
    push_frame(&mut observer.frames, CallFrame::observe_only("a"), FrameTiming { function: 4, entered_nanoseconds: 9, child_nanoseconds: 1 });
    push_frame(&mut observer.frames, CallFrame::observe_only("b"), FrameTiming { function: 5, entered_nanoseconds: 9, child_nanoseconds: 0 });
    let popped = pop_frame(&mut observer.frames).unwrap();
    assert_eq!((popped.frame.name.as_str(), popped.caller), ("b", Some(4)));
    credit_parent(&mut observer.frames, u64::MAX);
    assert_eq!(observer.frames[0].timing.child_nanoseconds, u64::MAX);
    assert_eq!(pop_frame(&mut observer.frames).unwrap().caller, None);
    assert!(pop_frame(&mut observer.frames).is_none());
}

fn spanned(name: &str) -> CallFrame {
    let mut frame = CallFrame::observe_only(name);
    frame.emit_span = true;
    frame.io = true;
    frame.start_hrtime = 10;
    frame
}

#[test]
fn the_end_of_a_curl_call_says_what_the_transfer_left() {
    let mut observer = Observer::new();
    push_frame(&mut observer.frames, CallFrame::observe_only("outer"), FrameTiming { function: 0, entered_nanoseconds: 9, child_nanoseconds: 0 });
    let c = call("curl_exec", false, None, vec![boxed(1)]);
    let ended = end_call(&mut observer, spanned("curl_exec"), &c, &text("body"), inputs(false));
    assert!(!ended.ended.emitted, "short and silent");
    assert_eq!(ended.ended.io_wait, Some(50));
    let transfer = TransferFacts {
        info: pairs(&[("http_code", "200")]),
        request_headers: None,
        body: Vec::new(),
        timeline: None,
    };
    let with_transfer = EndInputs { transfer: Some(transfer), ..inputs(false) };
    let ended = end_call(&mut observer, spanned("curl_exec"), &c, &text("body"), with_transfer);
    assert!(ended.ended.emitted);
    assert_eq!(observer.request.spans[0].attributes[0].1, "200");
    assert!(observer.frames[0].kept_child);
}

#[test]
fn the_end_of_a_call_banks_and_records() {
    let mut observer = Observer::new();
    let c = call("prepare", false, None, vec![text("SELECT 1")]);
    end_call(&mut observer, spanned("mysqli::prepare"), &c, &boxed(6), inputs(true));
    assert_eq!(observer.handles.prepared_statements[&6], "SELECT 1");
    let c = call("getenv", false, None, vec![text("HOME")]);
    let ended = end_call(&mut observer, CallFrame::observe_only("getenv"), &c, &text("/root"), inputs(true));
    let (kind, payload) = ended.event.unwrap();
    assert_eq!(kind, DstEventKind::EnvRead);
    assert_eq!(payload, pairs(&[("name", "HOME"), ("value", "/root")]));
    assert!(!ended.leaves);
    let c = call("handle", true, None, vec![]);
    let ended = end_call(&mut observer, CallFrame::observe_only("handle"), &c, &Zval::Null, inputs(true));
    assert!(ended.leaves && ended.event.is_none());
    let serialize = "Google\\Protobuf\\Internal\\Message::serializeToString";
    let c = call("serializeToString", true, Some(handle(8)), vec![]);
    let ended = end_call(&mut observer, CallFrame::observe_only(serialize), &c, &text("b"), inputs(false));
    assert_eq!(ended.serialized.unwrap().class, "CurlHandle");
}

#[test]
fn the_end_of_a_delivery_closes_its_request() {
    let mut observer = Observer::new();
    observer.delivery_scope = Some(DeliveryRoute::DeferredAmqplib);
    let mut frame = CallFrame::observe_only("PhpAmqpLib\\Channel\\AMQPChannel::basic_deliver");
    frame.owns_delivery_scope = true;
    let c = call("basic_deliver", true, None, vec![]);
    let ended = end_call(&mut observer, frame, &c, &Zval::Null, EndInputs { threw: true, ..inputs(false) });
    let close = ended.close.unwrap();
    assert_eq!(close.route, "resolved");
    assert!(!close.error.unwrap().handled);
    assert!(observer.delivery_scope.is_none());
    assert!(!ended.ended.emitted);
}

#[test]
fn arguments_are_captured_only_where_they_are_wanted() {
    let mut manifest = Manifest::new();
    trace_function(&mut manifest, "App\\Job::run");
    let c = call("run", true, None, vec![Zval::Long(1), Zval::Long(2)]);
    let (captured, dropped) = capture_tier_three_arguments(&manifest, &c, "App\\Job::run", true, 1).unwrap();
    assert_eq!((captured.len(), dropped), (1, 1));
    assert_eq!(captured[0].raw.as_deref(), Some("1"));
    assert!(capture_tier_three_arguments(&manifest, &c, "App\\Job::run", false, 1).is_none());
    assert!(capture_tier_three_arguments(&manifest, &c, "other", true, 1).is_none());
    let internal = call("run", false, None, vec![Zval::Long(1)]);
    assert!(capture_tier_three_arguments(&manifest, &internal, "App\\Job::run", true, 1).is_none());
}
