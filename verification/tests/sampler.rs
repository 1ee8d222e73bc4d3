use chronos_collector::context::TraceContext;
use chronos_collector::sampler::{
    arm_timer, capture_sample, consume_pending_ticks, disarm_timer, io_stack, labels_snapshot,
    normalise_label_key, note_tick, on_request_end, on_request_start, on_tick, record_drain,
    record_io_wait, set_label, take_labels, walk_current_stack, wants_io_wait, ChainEntry,
    DrainClock, Labels, SampleFrame, SampleKind, SampleKinds, Sampler, SamplerConfig, SamplerEnv,
    MAX_LABELS, MAX_LABEL_VALUE_BYTES,
};
use chronos_collector::settings::{parse_chronos_file, Sources, Table};

fn context() -> TraceContext {
    TraceContext {
        trace_id: "a".repeat(32),
        span_id: "b".repeat(16),
        parent_span_id: None,
        sampled: true,
        session_id: Some("session".into()),
        tracestate: None,
        baggage: None,
    }
}

fn frame(function: &str) -> SampleFrame {
    SampleFrame {
        module: "php".into(),
        function: function.into(),
        file: "/srv/app/src/Foo.php".into(),
        line: 42,
    }
}

fn config(max_samples: usize) -> SamplerConfig {
    SamplerConfig {
        sample_rate_hz: 99,
        max_samples_per_request: max_samples,
        max_stack_depth: 10,
        series_id: "php".into(),
        kinds: SampleKinds::all(),
        min_io_wait_nanos: 1_000_000,
    }
}

fn resolved(sample_rate: Option<&str>, types: Option<&str>, file: &str) -> Option<SamplerConfig> {
    let sources = Sources { ini: Table::new(), file: parse_chronos_file(file) };
    let env = SamplerEnv { sample_rate, types, series_id: None, io_min_us: None };
    SamplerConfig::resolve(&sources, &env)
}

fn value<'a>(labels: &'a [(String, String)], key: &str) -> Option<&'a str> {
    labels.iter().find(|(k, _)| k == key).map(|(_, v)| v.as_str())
}

#[test]
fn resolve_disables_sampler_at_zero_hz_and_clamps_high_rates() {
    assert!(resolved(Some("0"), None, "").is_none());
    assert_eq!(resolved(Some("100000"), None, "").unwrap().sample_rate_hz, 1000);
    assert_eq!(
        resolved(None, None, "").unwrap().sample_rate_hz,
        SamplerConfig::DEFAULT_RATE_HZ
    );
}

#[test]
fn a_file_configures_the_sampler_too() {
    let c = resolved(None, None, "profile_types=io\nprofile_series_id=web\nprofile_io_min_us=5").unwrap();
    assert_eq!(c.kinds, SampleKinds { cpu: false, wall: false, off_cpu: false, io: true });
    assert_eq!(c.series_id, "web");
    assert_eq!(c.min_io_wait_nanos, 5_000);
    assert_eq!(c.max_stack_depth, SamplerConfig::DEFAULT_MAX_STACK_DEPTH);
}

#[test]
fn period_is_the_reciprocal_of_the_rate() {
    let mut config = config(10);
    config.sample_rate_hz = 100;
    assert_eq!(config.period_nanoseconds(), 10_000_000);
}

#[test]
fn capture_buffers_a_sample_and_carries_only_correlation_identity() {
    let mut sampler = Sampler::new();
    let config = config(10);
    capture_sample(
        &mut sampler,
        &context(),
        &config,
        SampleKind::Cpu,
        vec![frame("App\\Controller::run"), frame("Doctrine::query")],
        1_723_550_400_000_000_000,
    );
    let samples = on_request_end(&mut sampler);
    assert_eq!(samples.len(), 1);
    assert_eq!(samples[0].kind, SampleKind::Cpu);
    assert_eq!(samples[0].stack.len(), 2);
    assert_eq!(samples[0].trace_id, "a".repeat(32));
    assert_eq!(samples[0].session_id.as_deref(), Some("session"));
    assert_eq!(
        samples[0].value_nanoseconds,
        config.period_nanoseconds() as i64
    );
}

#[test]
fn capture_enforces_the_per_request_sample_cap() {
    let mut sampler = Sampler::new();
    let config = config(3);
    for _ in 0..10 {
        capture_sample(&mut sampler, &context(), &config, SampleKind::Cpu, vec![frame("f")], 1);
    }
    assert_eq!(on_request_end(&mut sampler).len(), 3);
}

#[test]
fn empty_stacks_are_never_buffered() {
    let mut sampler = Sampler::new();
    let config = config(3);
    capture_sample(&mut sampler, &context(), &config, SampleKind::Cpu, Vec::new(), 1);
    assert_eq!(on_request_end(&mut sampler).len(), 0);
}

#[test]
fn kind_names_match_the_contract_enum() {
    assert_eq!(SampleKind::Cpu.proto_name(), "PROFILE_SAMPLE_TYPE_CPU");
    assert_eq!(SampleKind::Wall.proto_name(), "PROFILE_SAMPLE_TYPE_WALL");
    assert_eq!(
        SampleKind::OffCpu.proto_name(),
        "PROFILE_SAMPLE_TYPE_OFF_CPU"
    );
    assert_eq!(SampleKind::Io.proto_name(), "PROFILE_SAMPLE_TYPE_IO");
    assert_eq!(SampleKind::Io.unit(), "nanoseconds");
}

#[test]
fn kinds_parse_a_comma_list_and_tolerate_spelling() {
    let kinds = SampleKinds::parse("cpu, off-cpu ,IO");
    assert_eq!(
        kinds,
        SampleKinds {
            cpu: true,
            wall: false,
            off_cpu: true,
            io: true
        }
    );
    assert_eq!(kinds.count(), 3);
    assert!(kinds.any());
    assert!(!SampleKinds::none().any());
}

#[test]
fn an_unrecognised_kind_list_falls_back_to_everything() {
    assert_eq!(SampleKinds::parse("cpuu,bogus"), SampleKinds::all());
    assert_eq!(SampleKinds::parse(""), SampleKinds::all());
}

#[test]
fn the_sample_cap_scales_with_the_number_of_kinds() {
    let one = resolved(None, Some("cpu"), "").unwrap().max_samples_per_request;
    let four = resolved(None, Some("cpu,wall,off_cpu,io"), "").unwrap().max_samples_per_request;
    assert_eq!(one, SamplerConfig::DEFAULT_MAX_SAMPLES);
    assert_eq!(four, SamplerConfig::DEFAULT_MAX_SAMPLES * 4);
}

#[test]
fn the_first_drain_only_establishes_a_baseline() {
    let mut clock = DrainClock::idle();
    assert!(clock.advance(1_000, 0, 100).is_none());
    assert_eq!(clock.last_monotonic_nanos, Some(1_000));
    assert_eq!(clock.pending_wall_nanos, 0);
}

#[test]
fn wall_time_banks_until_a_full_period_has_passed() {
    let mut clock = DrainClock::idle();
    clock.advance(0, 0, 100);
    assert!(
        clock.advance(40, 0, 100).is_none(),
        "40ns is under the 100ns period"
    );
    assert!(
        clock.advance(70, 0, 100).is_none(),
        "70ns cumulative is still under"
    );
    let (wall, cpu) = clock
        .advance(150, 0, 100)
        .expect("150ns exceeds the period");
    assert_eq!(wall, 150);
    assert_eq!(cpu, 0);
    assert_eq!(clock.pending_wall_nanos, 0);
}

#[test]
fn off_cpu_is_the_wall_time_that_had_no_cpu_behind_it() {
    let mut clock = DrainClock::idle();
    clock.advance(0, 0, 100);
    let (wall, cpu) = clock.advance(500, 200, 100).unwrap();
    assert_eq!(wall.saturating_sub(cpu), 300);
}

#[test]
fn cpu_banked_before_the_window_closes_still_counts_against_it() {
    let mut clock = DrainClock::idle();
    clock.advance(0, 0, 100);
    clock.advance(30, 30, 100);
    let (wall, cpu) = clock.advance(120, 60, 100).unwrap();
    assert_eq!(wall, 120);
    assert_eq!(cpu, 90, "CPU from both drains belongs to this window");
}

#[test]
fn a_zero_monotonic_reading_is_a_valid_baseline_not_a_missing_one() {
    let mut clock = DrainClock::idle();
    assert!(
        clock.advance(0, 0, 100).is_none(),
        "first drain is the baseline"
    );
    let (wall, _) = clock
        .advance(150, 0, 100)
        .expect("second drain must measure");
    assert_eq!(wall, 150);
}

#[test]
fn a_backwards_clock_cannot_produce_a_negative_window() {
    let mut clock = DrainClock::idle();
    clock.advance(1_000, 0, 100);
    assert!(clock.advance(500, 0, 100).is_none());
    assert_eq!(clock.pending_wall_nanos, 0);
}

#[test]
fn label_keys_are_normalised_to_a_safe_alphabet() {
    assert_eq!(
        normalise_label_key("HTTP Route").as_deref(),
        Some("http_route")
    );
    assert_eq!(
        normalise_label_key(" http.route ").as_deref(),
        Some("http.route")
    );
    assert_eq!(normalise_label_key("a\"b:c").as_deref(), Some("a_b_c"));
    assert_eq!(normalise_label_key("__"), None);
    assert_eq!(normalise_label_key(""), None);
    assert_eq!(normalise_label_key(&"k".repeat(60)).unwrap().len(), 48);
}

#[test]
fn labels_round_trip_and_clear_on_take() {
    let mut labels = Labels::new();
    set_label(&mut labels, "route", "/orders/{id}");
    set_label(&mut labels, "action", "orderActions::executeShow");
    assert_eq!(labels_snapshot(&labels).len(), 2);
    let taken = take_labels(&mut labels);
    assert_eq!(value(&taken, "route"), Some("/orders/{id}"));
    assert_eq!(taken.len(), 2);
    assert!(
        take_labels(&mut labels).is_empty(),
        "take clears for the next request"
    );
}

#[test]
fn empty_label_values_are_ignored() {
    let mut labels = Labels::new();
    set_label(&mut labels, "route", "   ");
    assert!(take_labels(&mut labels).is_empty());
}

#[test]
fn label_values_are_truncated_not_rejected() {
    let mut labels = Labels::new();
    set_label(&mut labels, "route", &"x".repeat(MAX_LABEL_VALUE_BYTES + 50));
    let taken = take_labels(&mut labels);
    assert_eq!(value(&taken, "route").unwrap().len(), MAX_LABEL_VALUE_BYTES);
    set_label(&mut labels, "route", &"\u{20ac}".repeat(100));
    let taken = take_labels(&mut labels);
    assert_eq!(value(&taken, "route").unwrap().len(), 198);
}

#[test]
fn new_label_keys_are_capped_but_existing_keys_stay_updatable() {
    let mut labels = Labels::new();
    for index in 0..MAX_LABELS {
        set_label(&mut labels, &format!("key{index}"), "v");
    }
    set_label(&mut labels, "overflow", "v");
    set_label(&mut labels, "key0", "updated");
    let taken = take_labels(&mut labels);
    assert_eq!(taken.len(), MAX_LABELS);
    assert!(value(&taken, "overflow").is_none());
    assert_eq!(value(&taken, "key0"), Some("updated"));
}

#[test]
fn io_waits_under_the_threshold_are_not_sampled() {
    let mut sampler = Sampler::new();
    record_io_wait(&mut sampler, 1, "PDO::query", Vec::new(), 0);
    assert!(on_request_end(&mut sampler).is_empty());
    on_request_start(&mut sampler, &context(), &config(10));
    assert!(!wants_io_wait(&sampler, 999_999));
    record_io_wait(&mut sampler, 999_999, "PDO::query", Vec::new(), 0);
    record_io_wait(&mut sampler, 1_000_000, "PDO::query", Vec::new(), 7);
    let samples = on_request_end(&mut sampler);
    assert_eq!(samples.len(), 1);
    assert_eq!(samples[0].kind, SampleKind::Io);
    assert_eq!(samples[0].value_nanoseconds, 1_000_000);
    assert_eq!(samples[0].sampled_at_unix_nanos, 7);
}

#[test]
fn an_io_sample_always_ends_at_the_blocking_call() {
    let walked = vec![frame("run"), frame("query")];
    let stack = io_stack(walked, "PDO::query");
    assert_eq!(stack.last().unwrap().function, "PDO::query");
    assert_eq!(stack.len(), 3);
}

#[test]
fn the_blocking_call_is_never_duplicated_when_already_the_leaf() {
    let walked = vec![frame("run"), frame("PDO::query")];
    let stack = io_stack(walked, "PDO::query");
    assert_eq!(stack.len(), 2);
}

#[test]
fn an_unnamed_io_call_leaves_the_walked_stack_alone() {
    assert_eq!(io_stack(vec![frame("run")], "").len(), 1);
}

#[test]
fn one_walk_serves_every_kind_of_a_drain() {
    let mut sampler = Sampler::new();
    let mut tuned = config(10);
    tuned.sample_rate_hz = 1000;
    assert_eq!(on_request_start(&mut sampler, &context(), &tuned), Some(1000));
    note_tick(&mut sampler);
    let first = consume_pending_ticks(&mut sampler, 0).unwrap();
    assert_eq!(first.cpu_nanos, Some(1_000_000));
    assert_eq!(first.window, None);
    assert!(consume_pending_ticks(&mut sampler, 10).is_none());
    note_tick(&mut sampler);
    let drain = consume_pending_ticks(&mut sampler, 5_000_000).unwrap();
    assert_eq!(drain.window, Some((5_000_000, 2_000_000)));
    record_drain(&mut sampler, drain, Vec::new(), 1);
    record_drain(&mut sampler, drain, vec![frame("f")], 1);
    let samples = on_request_end(&mut sampler);
    let weights: Vec<(SampleKind, i64)> =
        samples.iter().map(|s| (s.kind, s.value_nanoseconds)).collect();
    assert_eq!(
        weights,
        vec![
            (SampleKind::Cpu, 1_000_000),
            (SampleKind::Wall, 5_000_000),
            (SampleKind::OffCpu, 3_000_000),
        ]
    );
    assert!(sampler.active.is_none());
}

#[test]
fn an_unsampled_request_takes_no_samples() {
    let mut sampler = Sampler::new();
    let mut unsampled = context();
    unsampled.sampled = false;
    assert_eq!(on_request_start(&mut sampler, &unsampled, &config(10)), None);
    note_tick(&mut sampler);
    assert!(consume_pending_ticks(&mut sampler, 0).is_none());
    on_tick(&mut sampler, &unsampled, &config(10), vec![frame("f")], 0);
    assert!(on_request_end(&mut sampler).is_empty());
}

#[test]
fn a_timer_interval_never_holds_a_million_microseconds() {
    assert_eq!(arm_timer(1), (1, 0));
    assert_eq!(arm_timer(99), (0, 10_101));
    assert_eq!(disarm_timer(), (0, 0));
}

#[test]
fn a_walk_is_root_first_bounded_and_skips_unnamed_entries() {
    let entry = |name: Option<&str>, class: Option<&str>, user: bool| ChainEntry {
        name: name.map(str::to_owned),
        class: class.map(str::to_owned),
        user,
        filename: Some("/f.php".to_owned()),
        line: Some(8),
    };
    let chain = vec![
        entry(Some("query"), Some("PDO"), false),
        entry(None, None, true),
        entry(Some("run"), None, true),
        entry(Some("main"), None, true),
    ];
    let stack = walk_current_stack(&chain, 2);
    let names: Vec<&str> = stack.iter().map(|f| f.function.as_str()).collect();
    assert_eq!(names, vec!["run", "PDO::query"]);
    assert_eq!((stack[0].file.as_str(), stack[0].line), ("/f.php", 8));
    assert_eq!((stack[1].file.as_str(), stack[1].line), ("", 0));
    assert_eq!((stack[0].module.as_str(), stack[1].module.as_str()), ("php", "internal"));
}
