use chronos_collector::context::TraceContext;
use chronos_collector::observer::calls::{begin_call, begin_step, end_frame, pop_frame, record_call_path_enter, record_result, BeginInputs, BeginStep, CallBegun, CapturedArgument, RpcWords};
use chronos_collector::observer::names::{
    default_excluded_paths, excluded_paths, min_span_duration_nanos, ObserverEnv,
};
use chronos_collector::observer::spans::{on_begin, on_end, EndReading, FrameTiming, Minted, MAX_SPANS_PER_REQUEST};
use chronos_collector::observer::state::{cached_policy, native_io_suppressed, on_throw, push_frame, Forget};
use chronos_collector::observer::{
    clear_request_context, drain, install_observer, installed, is_dual_purpose_stream_function,
    is_excluded_path, is_remote_stream_target, last_throw, merge_propagation_headers,
    observe_policy, parse_excluded_paths, record_userland_span, root_http_span, set_propagation,
    set_request_context, suppress_native, take_pending_traceparent, trace_function, Manifest,
    Observer, ObserverSettings, SpanPolicy,
};
use chronos_collector::settings::{parse_chronos_file, Sources, Table};
use chronos_collector::zend_helpers::{Call, ExceptionIdentity, Function, Key, Object, Zval};

fn settings() -> ObserverSettings {
    ObserverSettings {
        span_all_userland: false,
        messaging_auto: true,
        min_span_duration_nanos: 100_000,
        excluded_paths: default_excluded_paths(),
    }
}

fn context() -> TraceContext {
    TraceContext {
        trace_id: "a".repeat(32),
        span_id: "b".repeat(16),
        parent_span_id: None,
        sampled: true,
        session_id: None,
        tracestate: Some("vendor=state".to_owned()),
        baggage: None,
    }
}

fn minted(id: &str, at: u128) -> Minted {
    Minted {
        span_id: id.to_owned(),
        started_at: "start".to_owned(),
        start_hrtime: at,
    }
}

fn end(at: u128) -> EndReading {
    EndReading {
        ended_at: "end".to_owned(),
        hrtime: at,
    }
}

fn text(value: &str) -> Zval {
    Zval::Str(value.as_bytes().to_vec())
}

fn object(handle: u32, class: &str) -> Object {
    Object {
        handle,
        classes: vec![class.to_owned()],
        properties: Vec::new(),
    }
}

fn call(class: Option<&str>, name: &str, user: bool, args: Vec<Zval>) -> Call {
    Call {
        function: 7,
        func: Some(Function {
            name: Some(name.to_owned()),
            class: class.map(str::to_owned),
            user,
            filename: if user { Some("/srv/app/src/Orders.php".to_owned()) } else { None },
            line_start: 3,
            arg_names: Vec::new(),
        }),
        this: None,
        args,
    }
}

fn inputs(id: &str, at: u128) -> BeginInputs<'static> {
    BeginInputs {
        minted: minted(id, at),
        recording: false,
        curl_url: None,
        rpc: RpcWords { destination: Vec::new(), label: String::new() },
        priority_enabled: true,
        foreign_setting: None,
    }
}

#[test]
fn a_remote_target_is_recognised_whatever_the_scheme_case() {
    for target in [
        "http://api.internal/orders",
        "HTTPS://api.internal/orders",
        "ftp://files.internal/report.csv",
        "sftp://files.internal/report.csv",
        "ssh2.sftp://files.internal/report.csv",
    ] {
        assert!(is_remote_stream_target(target), "{target} is a network fetch");
    }
}

#[test]
fn local_reads_are_never_mistaken_for_network_calls() {
    for target in [
        "/srv/app/config/routing.yml",
        "config/app.php",
        "php://input",
        "data://text/plain,hello",
        "compress.zlib:///srv/app/cache/x.gz",
        "",
    ] {
        assert!(!is_remote_stream_target(target), "{target} is a local read");
    }
}

#[test]
fn a_target_with_wide_characters_is_local() {
    assert!(!is_remote_stream_target("http:/\u{e9}\u{e9}/x"));
    assert!(is_remote_stream_target("\u{2003}http://\u{e9}"));
}

#[test]
fn only_the_ambiguous_stream_builtins_have_their_target_inspected() {
    assert!(is_dual_purpose_stream_function("file_get_contents"));
    assert!(!is_dual_purpose_stream_function("curl_exec"));
    assert!(!is_dual_purpose_stream_function("PDO::query"));
}

#[test]
fn dependency_paths_are_excluded_and_application_paths_are_not() {
    let excluded = default_excluded_paths();
    assert!(is_excluded_path("/srv/app/vendor/symfony/Kernel.php", &excluded));
    assert!(is_excluded_path("/srv/app/node_modules/x/index.php", &excluded));
    assert!(!is_excluded_path("/srv/app/src/Orders/Controller.php", &excluded));
    assert!(!is_excluded_path("/srv/app/src/VendorPayouts.php", &excluded));
}

#[test]
fn an_unknown_defining_file_is_never_excluded() {
    let excluded = vec!["/vendor/".to_owned()];
    assert!(!is_excluded_path("", &excluded));
}

#[test]
fn the_exclude_list_ignores_blank_entries() {
    let parsed = parse_excluded_paths("/vendor/, ,/node_modules/,");
    assert_eq!(parsed, vec!["/vendor/".to_owned(), "/node_modules/".to_owned()]);
    assert!(!is_excluded_path("/srv/app/src/Controller.php", &parsed));
}

#[test]
fn an_empty_exclude_list_excludes_nothing() {
    let parsed = parse_excluded_paths("");
    assert!(parsed.is_empty());
    assert!(!is_excluded_path("/srv/app/vendor/symfony/Kernel.php", &parsed));
    let unsaid = Sources { ini: Table::new(), file: Table::new() };
    assert!(excluded_paths(&unsaid, Some("")).is_empty());
    assert_eq!(excluded_paths(&unsaid, None).len(), 4);
    let empty = Sources { ini: Table::new(), file: parse_chronos_file("exclude_paths=\n") };
    assert!(excluded_paths(&empty, None).is_empty());
    assert_eq!(excluded_paths(&empty, Some("/x/")), vec!["/x/".to_owned()]);
    let mut ini = Table::new();
    ini.insert("chronos.exclude_paths", "");
    assert_eq!(excluded_paths(&Sources { ini, file: Table::new() }, None).len(), 4);
}

#[test]
fn all_three_propagation_headers_are_appended_to_the_applications_own() {
    let mut headers = vec!["Accept: application/json".to_owned()];
    merge_propagation_headers(
        &mut headers,
        "00-abc-def-01",
        Some("vendor=state"),
        Some("userId=1"),
    );
    assert_eq!(
        headers,
        vec![
            "Accept: application/json".to_owned(),
            "traceparent: 00-abc-def-01".to_owned(),
            "tracestate: vendor=state".to_owned(),
            "baggage: userId=1".to_owned(),
        ]
    );
}

#[test]
fn a_retried_handle_never_stacks_duplicate_propagation_headers() {
    let mut headers = vec![
        "TraceParent: 00-old-old-01".to_owned(),
        "tracestate: stale=1".to_owned(),
        "Baggage: stale=1".to_owned(),
    ];
    merge_propagation_headers(&mut headers, "00-new-new-01", Some("fresh=1"), Some("k=v"));
    assert_eq!(
        headers,
        vec![
            "traceparent: 00-new-new-01".to_owned(),
            "tracestate: fresh=1".to_owned(),
            "baggage: k=v".to_owned(),
        ]
    );
}

#[test]
fn an_applications_own_tracestate_survives_when_the_request_carried_none() {
    let mut headers = vec!["tracestate: mine=1".to_owned()];
    merge_propagation_headers(&mut headers, "00-abc-def-01", None, None);
    assert_eq!(
        headers,
        vec![
            "tracestate: mine=1".to_owned(),
            "traceparent: 00-abc-def-01".to_owned(),
        ]
    );
}

#[test]
fn engine_builtins_that_are_not_io_never_reach_a_span() {
    let manifest = Manifest::new();
    assert!(observe_policy(&manifest, &settings(), "strpos", true).is_none());
    assert!(observe_policy(&manifest, &settings(), "file_exists", true).is_none());
}

#[test]
fn file_get_contents_still_attaches_handlers_so_its_target_can_be_judged() {
    let manifest = Manifest::new();
    assert_eq!(
        observe_policy(&manifest, &settings(), "file_get_contents", true),
        Some(SpanPolicy::IoSpan)
    );
}

#[test]
fn every_table_gives_its_own_policy() {
    let manifest = Manifest::new();
    let s = settings();
    let of = |name: &str| observe_policy(&manifest, &s, name, false);
    assert_eq!(of(""), None);
    assert_eq!(of("chronos_setting"), None);
    assert_eq!(of("curl_setopt_array"), Some(SpanPolicy::ObserveOnly));
    assert_eq!(of("mysqli_stmt::prepare"), Some(SpanPolicy::ObserveOnly));
    assert_eq!(of("Bunny\\AbstractClient::publish"), Some(SpanPolicy::MessagingPublish));
    assert_eq!(of("Basis\\Nats\\Client::processMsg"), Some(SpanPolicy::MessagingDeliver));
    assert_eq!(of("RdKafka\\KafkaConsumer::consume"), Some(SpanPolicy::MessagingPoll));
    assert_eq!(of("Basis\\Nats\\Connection::sendMessage"), Some(SpanPolicy::MessagingNatsSend));
    assert_eq!(of("Bunny\\Channel::consume"), Some(SpanPolicy::ObserveOnly));
    assert_eq!(of("getenv"), Some(SpanPolicy::ObserveOnly));
    assert_eq!(of("Redis::get"), Some(SpanPolicy::IoSpan));
    assert_eq!(of("Redis::connect"), Some(SpanPolicy::ObserveOnly));
    assert_eq!(of("Basis\\Nats\\Client::dispatch"), Some(SpanPolicy::IoSpan));
    assert_eq!(of("{main}"), None);
    assert_eq!(of("App\\{closure}"), None);
    assert_eq!(of("App\\Orders::place"), Some(SpanPolicy::ObserveOnly));
    let mut off = settings();
    off.messaging_auto = false;
    off.span_all_userland = true;
    assert_eq!(
        observe_policy(&manifest, &off, "Bunny\\AbstractClient::publish", false),
        Some(SpanPolicy::UserSpan)
    );
    assert_eq!(observe_policy(&manifest, &off, "Illuminate\\Support\\Str::snake", false), None);
    assert_eq!(observe_policy(&manifest, &off, "App\\Loader::autoload", false), None);
}

#[test]
fn a_traced_function_is_recognised_in_any_case_and_outdates_the_cache() {
    let mut manifest = Manifest::new();
    let s = settings();
    let mut cache = Vec::new();
    let name = "App\\Orders::place";
    assert_eq!(
        cached_policy(&mut cache, &manifest, &s, 3, name, false),
        Some(SpanPolicy::ObserveOnly)
    );
    assert_eq!(cache.len(), 4);
    trace_function(&mut manifest, "  \\\\app\\ORDERS::place ");
    assert_eq!(manifest.names, vec!["app\\ORDERS::place".to_owned()]);
    assert_eq!(manifest.generation, 2);
    assert_eq!(
        cached_policy(&mut cache, &manifest, &s, 3, name, false),
        Some(SpanPolicy::ManifestSpan)
    );
    trace_function(&mut manifest, " \\ ");
    assert_eq!(manifest.generation, 2);
}

#[test]
fn the_minimum_duration_is_read_in_microseconds() {
    assert_eq!(min_span_duration_nanos(None), 100_000);
    assert_eq!(min_span_duration_nanos(Some("250")), 250_000);
    assert_eq!(min_span_duration_nanos(Some("fast")), 100_000);
}

#[test]
fn the_switches_are_read_from_the_settings() {
    let sources = Sources {
        ini: Table::new(),
        file: parse_chronos_file("span_all_userland=on\nspan_min_duration_us=7\nexclude_paths=\n"),
    };
    let env = ObserverEnv {
        span_all_userland: None,
        messaging_auto: Some("0"),
        min_duration_us: None,
        exclude_paths: None,
    };
    let read = ObserverSettings::resolve(&sources, &env);
    assert!(read.span_all_userland && !read.messaging_auto);
    assert_eq!(read.min_span_duration_nanos, 7_000);
    assert!(read.excluded_paths.is_empty());
    let nothing = Sources { ini: Table::new(), file: Table::new() };
    let read = ObserverSettings::resolve(&nothing, &ObserverEnv { messaging_auto: None, ..env });
    assert!(!read.span_all_userland && read.messaging_auto);
    assert_eq!((read.min_span_duration_nanos, read.excluded_paths.len()), (100_000, 4));
}

#[test]
fn a_span_begins_and_ends_around_its_child() {
    let ctx = context();
    let mut stack: Vec<String> = Vec::new();
    let mut spans = Vec::new();
    let outer = on_begin(&ctx, &mut stack, "Redis::get", SpanPolicy::IoSpan, &minted("one", 0));
    assert_eq!(outer.parent_span_id.as_deref(), Some("bbbbbbbbbbbbbbbb"));
    let inner = on_begin(&ctx, &mut stack, "curl_exec", SpanPolicy::IoSpan, &minted("two", 10));
    assert_eq!(inner.parent_span_id.as_deref(), Some("one"));
    assert_eq!(
        inner.injected_traceparent.as_deref(),
        Some("00-aaaaaaaaaaaaaaaaaaaaaaaaaaaaaaaa-two-01")
    );
    assert_eq!(stack, vec!["one".to_owned(), "two".to_owned()]);
    let short = on_end(&mut spans, &mut stack, inner, false, 100_000, &end(50_010));
    assert!(!short.emitted);
    assert_eq!(short.io_wait, Some(50_000));
    assert_eq!(stack, vec!["one".to_owned()]);
    let kept = on_end(&mut spans, &mut stack, outer, true, 100_000, &end(50_020));
    assert!(kept.emitted);
    assert!(stack.is_empty());
    assert_eq!(spans.len(), 1);
    assert_eq!(spans[0].status, "error");
    assert_eq!(spans[0].duration_nanoseconds, 50_020);
}

#[test]
fn a_full_request_drops_spans_unless_their_id_is_on_the_wire() {
    let mut observer = Observer::new();
    set_request_context(&mut observer, context());
    for _ in 0..MAX_SPANS_PER_REQUEST + 1 {
        record_userland_span(
            &mut observer,
            String::new(),
            "s".to_owned(),
            String::new(),
            "n".to_owned(),
            String::new(),
            String::new(),
            "ok".to_owned(),
            Vec::new(),
        );
    }
    assert_eq!(observer.request.spans.len(), MAX_SPANS_PER_REQUEST);
    assert_eq!(observer.request.spans[0].trace_id, "a".repeat(32));
    assert_eq!(observer.request.spans[0].parent_span_id, Some("b".repeat(16)));
    let mut stack = Vec::new();
    let mut frame = on_begin(
        &context(),
        &mut stack,
        "Bunny\\AbstractClient::publish",
        SpanPolicy::MessagingPublish,
        &minted("wire", 0),
    );
    frame.bypass_span_cap = true;
    frame.kept_child = true;
    assert!(end_frame(&mut observer, frame, false, 1, &end(0)).emitted);
    assert_eq!(drain(&mut observer).len(), MAX_SPANS_PER_REQUEST + 1);
    assert!(drain(&mut observer).is_empty());
}

#[test]
fn a_new_request_forgets_the_one_before_it() {
    let mut observer = Observer::new();
    set_request_context(&mut observer, context());
    suppress_native(&mut observer, "sql");
    suppress_native(&mut observer, "cache");
    suppress_native(&mut observer, "nothing");
    assert!(native_io_suppressed(&observer.request, "PDO::query"));
    assert!(native_io_suppressed(&observer.request, "Redis::get"));
    assert!(!native_io_suppressed(&observer.request, "curl_exec"));
    assert!(!observer.request.suppress_messaging);
    set_propagation(&mut observer, None, Some("k=v".to_owned()));
    let open = observer.request.context.as_ref().unwrap();
    assert_eq!(open.tracestate, None);
    assert_eq!(open.baggage.as_deref(), Some("k=v"));
    assert_eq!(clear_request_context(&mut observer), Forget::SerializedMessages);
    assert!(observer.request.context.is_none());
    assert!(observer.request.suppress_sql);
    assert_eq!(set_request_context(&mut observer, context()), Forget::SerializedMessages);
    assert!(!observer.request.suppress_sql);
}

#[test]
fn the_root_span_takes_its_status_from_the_response() {
    let root = |code: i64, status: &str, name: &str| {
        root_http_span(&context(), name, String::new(), code, 10, 5, status, Vec::new(), String::new())
    };
    assert_eq!(root(404, "", "").status, "ok");
    assert_eq!(root(404, "", "").name, "request");
    assert_eq!(root(404, "", "").duration_nanoseconds, 0);
    assert_eq!(root(500, "", "GET /x").status, "error");
    assert_eq!(root(99, "", "").status, "error");
    assert_eq!(root(0, "", "").status, "ok");
    assert_eq!(root(200, "failed", "").status, "failed");
}

#[test]
fn a_throw_is_remembered_while_a_request_is_open() {
    let identity = ExceptionIdentity {
        class: "x".repeat(300),
        message: Some("m".repeat(3000)),
        code: Some("7".to_owned()),
        file: None,
        line: Some("12".to_owned()),
    };
    let mut observer = Observer::new();
    assert!(on_throw(&mut observer, &identity, false).is_none());
    assert!(last_throw(&observer).is_none());
    set_request_context(&mut observer, context());
    let payload = on_throw(&mut observer, &identity, true).unwrap();
    let keys: Vec<&str> = payload.iter().map(|p| p.0.as_str()).collect();
    assert_eq!(keys, vec!["class", "message", "code", "line"]);
    let last = last_throw(&observer).unwrap();
    assert_eq!(last.class.len(), 256);
    assert_eq!(last.message.len(), 2048);
    assert_eq!(last.file, "");
    assert_eq!(last.line, "12");
}

#[test]
fn the_observer_is_installed_unless_it_is_switched_off() {
    let mut observer = Observer::new();
    assert!(!install_observer(&mut observer, false));
    assert!(!installed(&observer));
    assert!(install_observer(&mut observer, true));
    assert!(installed(&observer));
}

#[test]
fn a_local_read_and_an_excluded_file_are_only_paired() {
    let observer = Observer::new();
    let s = settings();
    let local = call(None, "file_get_contents", false, vec![text("/etc/hosts")]);
    assert!(matches!(
        begin_step(Some(SpanPolicy::IoSpan), &observer.request, &s, &local, "file_get_contents"),
        BeginStep::Frame(SpanPolicy::ObserveOnly, None)
    ));
    let remote = call(None, "file_get_contents", false, vec![text("http://x/")]);
    match begin_step(Some(SpanPolicy::IoSpan), &observer.request, &s, &remote, "file_get_contents") {
        BeginStep::Frame(SpanPolicy::IoSpan, Some(url)) => assert_eq!(url, "http://x/"),
        _ => panic!("a remote target is an I/O span"),
    }
    let mut vendor = call(Some("Symfony\\Kernel"), "handle", true, Vec::new());
    vendor.func.as_mut().unwrap().filename = Some("/srv/vendor/symfony/Kernel.php".to_owned());
    assert!(matches!(
        begin_step(Some(SpanPolicy::UserSpan), &observer.request, &s, &vendor, "Symfony\\Kernel::handle"),
        BeginStep::Frame(SpanPolicy::ObserveOnly, None)
    ));
    assert!(matches!(
        begin_step(Some(SpanPolicy::ManifestSpan), &observer.request, &s, &vendor, "Symfony\\Kernel::handle"),
        BeginStep::Frame(SpanPolicy::ManifestSpan, None)
    ));
}

#[test]
fn a_curl_call_carries_the_traceparent_of_its_own_span() {
    let mut observer = Observer::new();
    set_request_context(&mut observer, context());
    let manifest = Manifest::new();
    let s = settings();
    let handle = || Zval::Object(Box::new(object(41, "CurlHandle")));
    let list = Zval::Array(vec![(Key::Int(0), text("Accept: a/b"))]);
    let setopt = call(None, "curl_setopt", false, vec![handle(), Zval::Long(10023), list]);
    let mut begun_frames = Vec::new();
    match begin_call(&mut observer, &manifest, &s, 0, &setopt, "curl_setopt", &inputs("skip", 0)) {
        CallBegun::Framed(begun) => begun_frames.push(begun.frame.unwrap()),
        _ => panic!("a setopt call is paired"),
    }
    let exec = call(None, "curl_exec", false, vec![handle()]);
    let mut given = inputs("child", 5);
    given.curl_url = Some("https://api/".to_owned());
    given.foreign_setting = Some("1");
    let begun = match begin_call(&mut observer, &manifest, &s, 1, &exec, "curl_exec", &given) {
        CallBegun::Framed(begun) => begun,
        _ => panic!("a curl call is a span"),
    };
    let injection = begun.injection.unwrap();
    assert_eq!(injection.ini, Some(("datadog.distributed_tracing", "0")));
    let header = format!("00-{}-child-01", "a".repeat(32));
    assert_eq!(
        injection.headers.unwrap(),
        vec![
            "Accept: a/b".to_owned(),
            format!("traceparent: {header}"),
            "tracestate: vendor=state".to_owned(),
        ]
    );
    assert_eq!(take_pending_traceparent(&mut observer), Some(header));
    assert_eq!(take_pending_traceparent(&mut observer), None);
    let frame = begun.frame.unwrap();
    assert_eq!(
        frame.attributes,
        vec![
            ("span.kind".to_owned(), "client".to_owned()),
            ("url.full".to_owned(), "https://api/".to_owned()),
            ("http.url".to_owned(), "https://api/".to_owned()),
        ]
    );
    push_frame(&mut observer.frames, begun_frames.remove(0), FrameTiming { function: 1, entered_nanoseconds: 9, child_nanoseconds: 0 });
    push_frame(&mut observer.frames, frame, FrameTiming { function: 2, entered_nanoseconds: 9, child_nanoseconds: 0 });
    let popped = pop_frame(&mut observer.frames).unwrap();
    assert_eq!(popped.caller, Some(1));
    assert!(end_frame(&mut observer, popped.frame, false, u128::MAX, &end(6)).emitted);
    assert!(observer.frames[0].kept_child);
}

#[test]
fn an_instrumented_call_says_so_and_where_it_is_defined() {
    let mut observer = Observer::new();
    set_request_context(&mut observer, context());
    let mut manifest = Manifest::new();
    trace_function(&mut manifest, "App\\Orders::place");
    let place = call(Some("App\\Orders"), "place", true, Vec::new());
    match begin_call(&mut observer, &manifest, &settings(), 9, &place, "App\\Orders::place", &inputs("x", 0)) {
        CallBegun::Framed(begun) => assert_eq!(
            begun.frame.unwrap().attributes,
            vec![
                ("code.filepath".to_owned(), "/srv/app/src/Orders.php".to_owned()),
                ("chronos.instrumented".to_owned(), "manifest".to_owned()),
            ]
        ),
        _ => panic!("a traced call is a span"),
    }
}

#[test]
fn recordings_keep_results_and_arguments() {
    let (_, payload) = record_result("time", &call(None, "time", false, Vec::new()), &Zval::Long(-5)).unwrap();
    assert_eq!(
        payload,
        vec![
            ("function".to_owned(), "time".to_owned()),
            ("result".to_owned(), "-5".to_owned()),
        ]
    );
    let read = call(None, "getenv", false, vec![text("HOME")]);
    let (_, payload) = record_result("getenv", &read, &text("/root")).unwrap();
    assert_eq!(
        payload,
        vec![
            ("name".to_owned(), "HOME".to_owned()),
            ("value".to_owned(), "/root".to_owned()),
        ]
    );
    assert!(record_result("strlen", &read, &Zval::Null).is_none());
    let arguments = vec![CapturedArgument {
        position: 3,
        name: "card".to_owned(),
        type_word: "string".to_owned(),
        value: String::new(),
        redacted: true,
        truncated: false,
    }];
    assert_eq!(
        record_call_path_enter("f", false, true, Some(2), &arguments).unwrap(),
        vec![
            ("name".to_owned(), "f".to_owned()),
            ("depth".to_owned(), "2".to_owned()),
            ("arg3.name".to_owned(), "card".to_owned()),
            ("arg3.type".to_owned(), "string".to_owned()),
            ("arg3.redacted".to_owned(), "true".to_owned()),
        ]
    );
    assert!(record_call_path_enter("f", true, true, Some(2), &arguments).is_none());
    assert!(record_call_path_enter("f", false, true, None, &arguments).is_none());
}
