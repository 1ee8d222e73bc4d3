use chronos_collector::context::CollectorEnvelope;
use chronos_collector::observer::spans::NativeSpan;
use chronos_collector::profile_spool;
use chronos_collector::profile_spool::{series_id_for, unix_nanos_to_utc, BatchIds, SCHEMA};
use chronos_collector::sampler::{Sample, SampleFrame, SampleKind};
use chronos_collector::spool;
use chronos_collector::spool_common::{
    cap, hex_digest, max_body_bytes, pack, write_chunked, write_document_file,
    DEFAULT_MAX_BODY_BYTES,
};
use chronos_collector::spool_log::SpoolLog;
use chronos_collector::vcs::Revision;
use serde_json::Value;

fn envelope() -> CollectorEnvelope {
    CollectorEnvelope {
        organisation_id: "org-local".into(),
        project_id: "proj".into(),
        application_id: "deepwell".into(),
        app_version: None,
        spool_directory: "/tmp".into(),
        app_language: "php".into(),
        app_language_version: None,
        app_framework: None,
        app_framework_version: None,
    }
}

fn sample_of(kind: SampleKind) -> Sample {
    Sample {
        kind,
        sampled_at_unix_nanos: 1_723_550_400_123_456_000,
        period_nanoseconds: 1_000_000_000 / 99,
        value_nanoseconds: 1_000_000_000 / 99,
        stack: std::rc::Rc::new(vec![
            SampleFrame {
                module: "php".into(),
                function: "App\\Controller::run".into(),
                file: "/srv/app/src/Controller.php".into(),
                line: 12,
            },
            SampleFrame {
                module: "php".into(),
                function: "Doctrine::query".into(),
                file: "/srv/vendor/doctrine/Query.php".into(),
                line: 88,
            },
        ]),
        trace_id: "a".repeat(32),
        span_id: "b".repeat(16),
        session_id: Some("018f-session".into()),
    }
}

fn sample() -> Sample {
    sample_of(SampleKind::Cpu)
}

fn ids() -> BatchIds {
    BatchIds { message_id: "m".repeat(32), batch_id: "n".repeat(32) }
}

fn labels(pairs: &[(&str, &str)]) -> Vec<(String, String)> {
    pairs.iter().map(|(k, v)| ((*k).to_owned(), (*v).to_owned())).collect()
}

fn batch(samples: Vec<Sample>, first: u64, tags: &[(&str, &str)]) -> Value {
    let body = profile_spool::serialise_batch(&envelope(), &samples, first, &labels(tags), "php", &ids());
    serde_json::from_str(&body).unwrap()
}

#[test]
fn envelope_mirrors_the_profile_sample_batch_proto_shape() {
    let value = batch(vec![sample()], 7, &[]);
    assert_eq!(value["schema"], SCHEMA);
    assert_eq!(value["sampleCount"], "1");
    let first = &value["samples"][0];
    assert_eq!(first["sequence"], "7");
    assert_eq!(first["sampleType"], "PROFILE_SAMPLE_TYPE_CPU");
    assert_eq!(first["unit"], "nanoseconds");
    assert_eq!(first["stack"][0]["function"], "App\\Controller::run");
    assert_eq!(first["stack"][1]["function"], "Doctrine::query");
    assert_eq!(first["stack"][1]["line"], 88);
    assert_eq!(first["correlation"]["traceId"], "a".repeat(32));
    assert_eq!(first["correlation"]["sessionId"], "018f-session");
    assert_eq!(value["processing"]["messageId"], "m".repeat(32));
    assert_eq!(first["application"]["project"]["projectId"], "proj");
}

#[test]
fn each_sample_carries_its_own_type() {
    let samples = vec![
        sample_of(SampleKind::Cpu),
        sample_of(SampleKind::Wall),
        sample_of(SampleKind::OffCpu),
        sample_of(SampleKind::Io),
    ];
    let value = batch(samples, 1, &[]);
    let types: Vec<&str> = (0..4)
        .map(|index| value["samples"][index]["sampleType"].as_str().unwrap())
        .collect();
    assert_eq!(
        types,
        vec![
            "PROFILE_SAMPLE_TYPE_CPU",
            "PROFILE_SAMPLE_TYPE_WALL",
            "PROFILE_SAMPLE_TYPE_OFF_CPU",
            "PROFILE_SAMPLE_TYPE_IO",
        ]
    );
}

#[test]
fn the_series_id_is_suffixed_per_type_so_series_stay_distinguishable() {
    let value = batch(vec![sample_of(SampleKind::Cpu), sample_of(SampleKind::OffCpu)], 1, &[]);
    assert_eq!(value["samples"][0]["profileSeriesId"], "php-cpu");
    assert_eq!(value["samples"][1]["profileSeriesId"], "php-off_cpu");
    assert_eq!(series_id_for("web", SampleKind::Io), "web-io");
}

#[test]
fn labels_are_stamped_onto_every_sample() {
    let tags = [("route", "/orders/{id}"), ("action", "orderActions::show")];
    let value = batch(vec![sample_of(SampleKind::Cpu), sample_of(SampleKind::Wall)], 1, &tags);
    for index in 0..2 {
        assert_eq!(value["samples"][index]["labels"]["route"], "/orders/{id}");
        assert_eq!(
            value["samples"][index]["labels"]["action"],
            "orderActions::show"
        );
    }
}

#[test]
fn the_labels_key_is_omitted_entirely_when_there_are_no_tags() {
    let value = batch(vec![sample()], 1, &[]);
    assert!(value["samples"][0].get("labels").is_none());
}

#[test]
fn scalar_wide_integers_are_serialised_as_strings() {
    let value = batch(vec![sample()], 1, &[]);
    let first = &value["samples"][0];
    assert!(first["value"].is_string());
    assert!(first["periodNanoseconds"].is_string());
    assert!(first["sequence"].is_string());
    assert!(value["sampleCount"].is_string());
}

#[test]
fn timestamp_renders_utc_microseconds() {
    let value = batch(vec![sample()], 1, &[]);
    let sampled_at = value["samples"][0]["sampledAt"].as_str().unwrap();
    assert!(sampled_at.starts_with("2024-08-13T"));
    assert!(sampled_at.ends_with("Z"));
    assert_eq!(unix_nanos_to_utc(1_723_550_400_123_456_789), "2024-08-13T12:00:00.123456Z");
    assert_eq!(unix_nanos_to_utc(u128::MAX), "1970-01-01T00:00:00.768211Z");
    assert_eq!(unix_nanos_to_utc(0), "1970-01-01T00:00:00.000000Z");
}

#[test]
fn an_instant_out_of_range_is_the_epoch() {
    let beyond = (i64::MAX as u128) * 1_000_000_000;
    assert_eq!(unix_nanos_to_utc(beyond), "1970-01-01T00:00:00.000000Z");
}

#[test]
fn a_small_budget_spreads_samples_over_documents_that_find_each_other() {
    let samples: Vec<Sample> = (0..5).map(|_| sample()).collect();
    let mut sequence = 40;
    let documents = profile_spool::flush_with_budget(
        &mut sequence, &envelope(), &samples, &labels(&[]), "php", &ids(), "g", 2048,
    );
    assert_eq!(sequence, 45);
    assert!(documents.len() > 1);
    let mut sequences = Vec::new();
    for (index, body) in documents.iter().enumerate() {
        let value: Value = serde_json::from_str(body).unwrap();
        assert_eq!(value["chunk"]["groupId"], "g");
        assert_eq!(value["chunk"]["index"], index.to_string());
        assert_eq!(value["chunk"]["count"], documents.len().to_string());
        let items = value["samples"].as_array().unwrap();
        assert_eq!(value["sampleCount"], items.len().to_string());
        sequences.extend(items.iter().map(|s| s["sequence"].as_str().unwrap().to_owned()));
    }
    assert_eq!(sequences, vec!["40", "41", "42", "43", "44"]);
    let whole = profile_spool::flush(
        &mut sequence, &envelope(), &samples, &labels(&[]), "php", &ids(), "g", None,
    );
    assert_eq!(whole.len(), 1);
    let value: Value = serde_json::from_str(&whole[0]).unwrap();
    assert!(value.get("chunk").is_none());
    assert!(profile_spool::flush(
        &mut sequence, &envelope(), &Vec::new(), &labels(&[]), "php", &ids(), "g", None,
    )
    .is_empty());
}

#[test]
fn packing_is_by_bytes_and_never_drops_a_large_item() {
    assert_eq!(pack(&vec![4, 4, 4], 8), vec![2, 1]);
    assert_eq!(pack(&vec![100, 1, 1], 8), vec![1, 2]);
    assert_eq!(pack(&vec![1, 100, 1], 8), vec![1, 1, 1]);
    assert_eq!(pack(&vec![u128::MAX, u128::MAX], 8), vec![1, 1]);
    assert!(pack(&Vec::new(), 8).is_empty());
}

#[test]
fn chunks_repeat_the_header_and_leave_out_a_count_nobody_asked_for() {
    let mut header = serde_json::Map::new();
    header.insert("schema".to_owned(), Value::String("s".to_owned()));
    let items = vec![Value::from(1), Value::from(2)];
    let documents = write_chunked(&header, "items", None, items, 1, "g");
    assert_eq!(
        documents,
        vec![
            "{\"chunk\":{\"count\":\"2\",\"groupId\":\"g\",\"index\":\"0\"},\"items\":[1],\"schema\":\"s\"}".to_owned(),
            "{\"chunk\":{\"count\":\"2\",\"groupId\":\"g\",\"index\":\"1\"},\"items\":[2],\"schema\":\"s\"}".to_owned(),
        ]
    );
}

fn span(attributes: &[(&str, &str)]) -> NativeSpan {
    NativeSpan {
        trace_id: "t".into(),
        span_id: "s".into(),
        parent_span_id: None,
        name: "GET /".into(),
        started_at: "x".into(),
        ended_at: "y".into(),
        status: "ok".into(),
        duration_nanoseconds: 12,
        attributes: labels(attributes),
    }
}

#[test]
fn a_span_batch_describes_the_process_on_its_root_alone() {
    let mut who = envelope();
    who.app_version = Some("1.2".into());
    who.app_framework = Some(String::new());
    let revision = Revision { commit: "abc".into(), branch: String::new() };
    let root = span(&[("http.method", "GET"), ("http.route", "/"), ("http.status_code", "200")]);
    let child = span(&[("http.status_code", "teapot"), ("k", "1"), ("k", "2")]);
    let body = spool::serialise_batch(&who, &vec![root, child], "web", &revision, "m", "b");
    let value: Value = serde_json::from_str(&body).unwrap();
    assert_eq!(value["schema"], "chronos.tracing.span-batch.v1");
    assert_eq!(value["spanCount"], "2");
    let root = &value["spans"][0];
    assert_eq!(root["parentSpanId"], "");
    assert_eq!(root["httpMethod"], "GET");
    assert_eq!(root["httpRoute"], "/");
    assert_eq!(root["httpStatusCode"], 200);
    assert_eq!(root["serviceName"], "web");
    assert_eq!(root["attributes"]["chronos.duration_nanoseconds"], "12");
    assert_eq!(root["attributes"]["service.version"], "1.2");
    assert_eq!(root["attributes"]["app.commit"], "abc");
    assert_eq!(root["attributes"]["app.language"], "php");
    assert!(root["attributes"].get("app.branch").is_none());
    assert!(root["attributes"].get("app.framework").is_none());
    let child = &value["spans"][1];
    assert!(child.get("httpStatusCode").is_none());
    assert!(child["attributes"].get("service.version").is_none());
    assert_eq!(child["attributes"]["k"], "2");
    assert_eq!(child["organisation"]["organisationId"], "org-local");
}

#[test]
fn a_document_is_framed_under_its_content_address() {
    assert_eq!(
        hex_digest("abc"),
        "ba7816bf8f01cfea414140de5dae2223b00361a396177a9cb410ff61f20015ad"
    );
    let mut log = SpoolLog::new();
    let trace = spool::write_atomic(&mut log, "{}").unwrap();
    let profile = profile_spool::write_atomic(&mut log, "{}").unwrap();
    let header = String::from_utf8(trace[14..trace.len() - 2].to_vec()).unwrap();
    assert_eq!(
        header,
        format!("{{\"signal\":\"trace\",\"encoding\":\"json\",\"id\":\"{}\"}}", hex_digest("{}"))
    );
    assert_ne!(trace, profile);
    let (tmp, path) = write_document_file("/spool", "abc", "trace");
    assert_eq!(path, format!("/spool/{}.trace", hex_digest("abc")));
    assert_eq!(tmp, format!("{path}.tmp"));
}

#[test]
fn an_oversized_body_is_refused_and_counted() {
    let mut log = SpoolLog::new();
    let body = "x".repeat(8 * 1024 * 1024 + 1);
    assert_eq!(spool::write_atomic(&mut log, &body), Err(true));
    assert_eq!(profile_spool::write_atomic(&mut log, &body), Err(false));
    assert_eq!(log.dropped_frames, 2);
}

#[test]
fn the_budget_is_a_positive_number_or_the_default() {
    assert_eq!(max_body_bytes(None), DEFAULT_MAX_BODY_BYTES);
    assert_eq!(max_body_bytes(Some(" 1024 ")), 1024);
    assert_eq!(max_body_bytes(Some("0")), DEFAULT_MAX_BODY_BYTES);
    assert_eq!(max_body_bytes(Some("lots")), DEFAULT_MAX_BODY_BYTES);
    assert_eq!(DEFAULT_MAX_BODY_BYTES, 900 * 1024);
}

#[test]
fn a_cap_counts_bytes_and_keeps_characters_whole() {
    assert_eq!(cap("h\u{e9}llo", 2), "h");
    assert_eq!(cap("h\u{e9}llo", 3), "h\u{e9}");
    assert_eq!(cap("hello", 0), "");
    assert_eq!(cap("hello", 99), "hello");
}

#[test]
fn every_document_of_more_than_one_item_keeps_to_the_budget() {
    let mut header = serde_json::Map::new();
    header.insert("schema".to_owned(), Value::String("s".to_owned()));
    let items: Vec<Value> = (0..40).map(|_| Value::String("x".repeat(20))).collect();
    let documents = write_chunked(&header, "items", Some("n"), items, 200, "g");
    assert!(documents.len() > 1 && documents.len() < 10);
    for document in &documents {
        assert!(document.len() <= 200);
    }
    let items: Vec<Value> = (0..4).map(|_| Value::String("abc".to_owned())).collect();
    let whole = write_chunked(&serde_json::Map::new(), "i", None, items.clone(), 32, "g");
    assert_eq!(whole, vec!["{\"i\":[\"abc\",\"abc\",\"abc\",\"abc\"]}".to_owned()]);
    let documents = write_chunked(&serde_json::Map::new(), "i", None, items.clone(), 70, "g");
    assert_eq!(documents.len(), 1);
    let documents = write_chunked(&serde_json::Map::new(), "i", None, items, 30, "g");
    assert_eq!(documents.len(), 4);
}

#[test]
fn sequence_numbers_ascend_from_one_flush_to_the_next() {
    let mut sequence = 7;
    let mut seen = Vec::new();
    for _ in 0..2 {
        let documents = profile_spool::flush_with_budget(
            &mut sequence, &envelope(), &vec![sample(), sample()], &labels(&[]), "php", &ids(), "g", 1,
        );
        assert_eq!(documents.len(), 2);
        for body in &documents {
            let value: Value = serde_json::from_str(body).unwrap();
            seen.push(value["samples"][0]["sequence"].as_str().unwrap().to_owned());
        }
    }
    assert_eq!(seen, vec!["7", "8", "9", "10"]);
}
