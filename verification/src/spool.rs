//! Span batches: the document that a request's spans make.

use crate::context::CollectorEnvelope;
use crate::json::{
    contents, insert, list_value, new_object, no_entries, number_value, object_value, plain,
    rendered, text_value, tree, trees, value_text, Json,
};
use crate::observer::spans::{NativeSpan, SpanView};
use crate::spool_common::{framed_or_refused, identity_envelope, identity_of};
use crate::spool_log::{SpoolLog, MAX_FRAME_PAYLOAD_BYTES};
use crate::text::{
    byte_len, decimal, decimal_text, opt_text, opt_view, pairs, parse_signed, parsed_signed, same,
};
use crate::vcs::Revision;
use crate::zend_helpers::{has_pair, pair_value};
use vstd::prelude::*;

verus! {

/// An object with a text under a key, when there is a text and it is not empty.
pub open spec fn stamped(
    m: Map<Seq<char>, Json>,
    key: Seq<char>,
    value: Option<Seq<char>>,
) -> Map<Seq<char>, Json> {
    match value {
        Some(v) => if v.len() > 0 {
            m.insert(key, Json::Text(v))
        } else {
            m
        },
        None => m,
    }
}

fn stamp(
    m: &mut serde_json::Map<String, serde_json::Value>,
    key: &str,
    value: Option<&str>,
)
    ensures
        contents(*final(m)) == stamped(contents(*old(m)), key@, opt_view(value)),
{
    match value {
        Some(v) => {
            if !v.is_empty() {
                insert(m, key, text_value(v));
            }
        },
        None => {},
    }
}

/// An object with each pair's text under its key, later ones over earlier ones.
pub open spec fn with_pairs(
    m: Map<Seq<char>, Json>,
    p: Seq<(Seq<char>, Seq<char>)>,
) -> Map<Seq<char>, Json>
    decreases p.len(),
{
    if p.len() == 0 {
        m
    } else {
        with_pairs(m, p.drop_last()).insert(p.last().0, Json::Text(p.last().1))
    }
}

/// What identifies the process on the root span: version, runtime, framework and
/// revision.
pub open spec fn process_identity(
    m: Map<Seq<char>, Json>,
    e: CollectorEnvelope,
    revision: Revision,
) -> Map<Seq<char>, Json> {
    let m = match e.app_version {
        Some(v) => m.insert("service.version"@, Json::Text(v@)),
        None => m,
    };
    let m = stamped(m, "app.language"@, Some(e.app_language@));
    let m = stamped(m, "app.language.version"@, opt_text(e.app_language_version));
    let m = stamped(m, "app.framework"@, opt_text(e.app_framework));
    let m = stamped(m, "app.framework.version"@, opt_text(e.app_framework_version));
    let m = stamped(m, "app.commit"@, Some(revision.commit@));
    stamped(m, "app.branch"@, Some(revision.branch@))
}

/// The attributes of a span: its duration first, what it says last. The process
/// is described on the root span only.
pub open spec fn span_attributes(
    e: CollectorEnvelope,
    revision: Revision,
    span: SpanView,
    root: bool,
) -> Map<Seq<char>, Json> {
    let m = no_entries().insert(
        "chronos.duration_nanoseconds"@,
        Json::Text(decimal(span.duration_nanoseconds)),
    );
    let m = if root {
        process_identity(m, e, revision)
    } else {
        m
    };
    with_pairs(m, span.attributes)
}

/// An object with a span's attribute lifted to a field of its own.
pub open spec fn lifted(
    m: Map<Seq<char>, Json>,
    key: Seq<char>,
    value: Option<Seq<char>>,
) -> Map<Seq<char>, Json> {
    match value {
        Some(v) => m.insert(key, Json::Text(v)),
        None => m,
    }
}

/// A span as it stands in a batch.
pub open spec fn span_json(
    e: CollectorEnvelope,
    revision: Revision,
    span: SpanView,
    root: bool,
    service_name: Seq<char>,
) -> Json {
    let m = identity_of(e).insert("traceId"@, Json::Text(span.trace_id)).insert(
        "spanId"@,
        Json::Text(span.span_id),
    ).insert(
        "parentSpanId"@,
        Json::Text(
            match span.parent_span_id {
                Some(p) => p,
                None => Seq::empty(),
            },
        ),
    ).insert("name"@, Json::Text(span.name)).insert(
        "startedAt"@,
        Json::Text(span.started_at),
    ).insert("endedAt"@, Json::Text(span.ended_at)).insert("status"@, Json::Text(span.status));
    let m = lifted(m, "httpMethod"@, pair_value(span.attributes, "http.method"@));
    let m = lifted(m, "httpRoute"@, pair_value(span.attributes, "http.route"@));
    let m = match pair_value(span.attributes, "http.status_code"@) {
        Some(code) => match parsed_signed(code) {
            Some(n) => m.insert("httpStatusCode"@, Json::Number(n)),
            None => m,
        },
        None => m,
    };
    Json::Object(
        m.insert(
            "attributes"@,
            Json::Object(span_attributes(e, revision, span, root)),
        ).insert("serviceName"@, Json::Text(service_name)),
    )
}

/// The spans of a batch: the first is the root.
pub open spec fn spans_json(
    e: CollectorEnvelope,
    revision: Revision,
    spans: Seq<SpanView>,
    service_name: Seq<char>,
) -> Seq<Json> {
    Seq::new(
        spans.len(),
        |i: int| span_json(e, revision, spans[i], i == 0, service_name),
    )
}

/// The ids of one batch.
pub open spec fn processing_json(message_id: Seq<char>, batch_id: Seq<char>) -> Json {
    Json::Object(
        no_entries().insert("messageId"@, Json::Text(message_id)).insert(
            "batchId"@,
            Json::Text(batch_id),
        ),
    )
}

/// The document of a span batch.
pub open spec fn batch_json(
    e: CollectorEnvelope,
    revision: Revision,
    spans: Seq<SpanView>,
    service_name: Seq<char>,
    message_id: Seq<char>,
    batch_id: Seq<char>,
) -> Json {
    Json::Object(
        no_entries().insert("schema"@, Json::Text("chronos.tracing.span-batch.v1"@)).insert(
            "processing"@,
            processing_json(message_id, batch_id),
        ).insert("spans"@, Json::List(spans_json(e, revision, spans, service_name))).insert(
            "spanCount"@,
            Json::Text(decimal(spans.len())),
        ),
    )
}

/// The ids of one batch.
pub fn processing_value(message_id: &str, batch_id: &str) -> (r: serde_json::Value)
    ensures
        tree(r) == processing_json(message_id@, batch_id@),
{
    let mut o = new_object();
    insert(&mut o, "messageId", text_value(message_id));
    insert(&mut o, "batchId", text_value(batch_id));
    object_value(o)
}

fn str_of(o: &Option<String>) -> (r: Option<&str>)
    ensures
        opt_view(r) == opt_text(*o),
{
    match o {
        Some(s) => Some(s.as_str()),
        None => None,
    }
}

fn attributes_object(
    envelope: &CollectorEnvelope,
    revision: &Revision,
    span: &NativeSpan,
    root: bool,
) -> (r: serde_json::Map<String, serde_json::Value>)
    ensures
        contents(r) == span_attributes(*envelope, *revision, span@, root),
{
    let mut m = new_object();
    let duration = decimal_text(span.duration_nanoseconds);
    insert(&mut m, "chronos.duration_nanoseconds", text_value(duration.as_str()));
    if root {
        match &envelope.app_version {
            Some(v) => {
                insert(&mut m, "service.version", text_value(v.as_str()));
            },
            None => {},
        }
        stamp(&mut m, "app.language", Some(envelope.app_language.as_str()));
        stamp(&mut m, "app.language.version", str_of(&envelope.app_language_version));
        stamp(&mut m, "app.framework", str_of(&envelope.app_framework));
        stamp(&mut m, "app.framework.version", str_of(&envelope.app_framework_version));
        stamp(&mut m, "app.commit", Some(revision.commit.as_str()));
        stamp(&mut m, "app.branch", Some(revision.branch.as_str()));
    }
    let ghost start = contents(m);
    let ghost all = pairs(span.attributes@);
    let mut i: usize = 0;
    assert(all.take(0) =~= Seq::empty());
    while i < span.attributes.len()
        invariant
            i <= span.attributes@.len(),
            all == pairs(span.attributes@),
            contents(m) == with_pairs(start, all.take(i as int)),
        decreases span.attributes@.len() - i,
    {
        insert(
            &mut m,
            span.attributes[i].0.as_str(),
            text_value(span.attributes[i].1.as_str()),
        );
        assert(all.take(i + 1).drop_last() =~= all.take(i as int));
        assert(all.take(i + 1).last() == all[i as int]);
        i = i + 1;
    }
    assert(all.take(all.len() as int) =~= all);
    m
}

fn find_attribute<'a>(span: &'a NativeSpan, key: &str) -> (r: Option<&'a str>)
    ensures
        opt_view(r) == pair_value(span@.attributes, key@),
{
    let ghost all = pairs(span.attributes@);
    let mut i: usize = 0;
    assert(all.skip(0) =~= all);
    while i < span.attributes.len()
        invariant
            i <= span.attributes@.len(),
            all == pairs(span.attributes@),
            pair_value(all.skip(i as int), key@) == pair_value(all, key@),
        decreases span.attributes@.len() - i,
    {
        assert(all.skip(i as int)[0] == all[i as int]);
        assert(all.skip(i as int).drop_first() =~= all.skip(i + 1));
        if same(span.attributes[i].0.as_str(), key) {
            return Some(span.attributes[i].1.as_str());
        }
        i = i + 1;
    }
    None
}

fn lift(m: &mut serde_json::Map<String, serde_json::Value>, key: &str, value: Option<&str>)
    ensures
        contents(*final(m)) == lifted(contents(*old(m)), key@, opt_view(value)),
{
    match value {
        Some(v) => {
            insert(m, key, text_value(v));
        },
        None => {},
    }
}

fn span_value(
    envelope: &CollectorEnvelope,
    revision: &Revision,
    span: &NativeSpan,
    root: bool,
    service_name: &str,
) -> (r: serde_json::Value)
    ensures
        tree(r) == span_json(*envelope, *revision, span@, root, service_name@),
{
    let mut m = identity_envelope(envelope);
    insert(&mut m, "traceId", text_value(span.trace_id.as_str()));
    insert(&mut m, "spanId", text_value(span.span_id.as_str()));
    let blank = String::new();
    let parent = match &span.parent_span_id {
        Some(p) => p.as_str(),
        None => blank.as_str(),
    };
    insert(&mut m, "parentSpanId", text_value(parent));
    insert(&mut m, "name", text_value(span.name.as_str()));
    insert(&mut m, "startedAt", text_value(span.started_at.as_str()));
    insert(&mut m, "endedAt", text_value(span.ended_at.as_str()));
    insert(&mut m, "status", text_value(span.status.as_str()));
    lift(&mut m, "httpMethod", find_attribute(span, "http.method"));
    lift(&mut m, "httpRoute", find_attribute(span, "http.route"));
    match find_attribute(span, "http.status_code") {
        Some(code) => {
            if let Some(n) = parse_signed(code) {
                insert(&mut m, "httpStatusCode", number_value(n));
            }
        },
        None => {},
    }
    let attributes = attributes_object(envelope, revision, span, root);
    insert(&mut m, "attributes", object_value(attributes));
    insert(&mut m, "serviceName", text_value(service_name));
    object_value(m)
}

/// The document of a request's spans, the root span first.
pub fn serialise_batch(
    envelope: &CollectorEnvelope,
    spans: &Vec<NativeSpan>,
    service_name: &str,
    revision: &Revision,
    message_id: &str,
    batch_id: &str,
) -> (r: String)
    ensures
        r@ == rendered(
            batch_json(
                *envelope,
                *revision,
                crate::observer::spans::span_views(spans@),
                service_name@,
                message_id@,
                batch_id@,
            ),
        ),
{
    let mut list: Vec<serde_json::Value> = Vec::new();
    let mut i: usize = 0;
    let ghost views = crate::observer::spans::span_views(spans@);
    while i < spans.len()
        invariant
            i <= spans@.len(),
            list@.len() == i,
            views == crate::observer::spans::span_views(spans@),
            forall|j: int|
                0 <= j < i ==> tree(#[trigger] list@[j]) == span_json(
                    *envelope,
                    *revision,
                    views[j],
                    j == 0,
                    service_name@,
                ),
        decreases spans@.len() - i,
    {
        list.push(span_value(envelope, revision, &spans[i], i == 0, service_name));
        i = i + 1;
    }
    assert(trees(list@) =~= spans_json(*envelope, *revision, views, service_name@));
    let mut m = new_object();
    insert(&mut m, "schema", text_value("chronos.tracing.span-batch.v1"));
    insert(&mut m, "processing", processing_value(message_id, batch_id));
    insert(&mut m, "spans", list_value(list));
    let count = decimal_text(spans.len() as u128);
    insert(&mut m, "spanCount", text_value(count.as_str()));
    let v = object_value(m);
    value_text(&v)
}

proof fn lemma_keys_of_pairs(
    m: Map<Seq<char>, Json>,
    p: Seq<(Seq<char>, Seq<char>)>,
    key: Seq<char>,
)
    ensures
        with_pairs(m, p).contains_key(key) <==> m.contains_key(key) || has_pair(p, key),
    decreases p.len(),
{
    if p.len() > 0 {
        let init = p.drop_last();
        lemma_keys_of_pairs(m, init, key);
        if has_pair(init, key) {
            let i = choose|i: int| 0 <= i < init.len() && #[trigger] init[i].0 == key;
            assert(p[i].0 == key);
        }
        if p.last().0 == key {
            assert(p[p.len() - 1].0 == key);
        }
        if has_pair(p, key) && p.last().0 != key {
            let i = choose|i: int| 0 <= i < p.len() && #[trigger] p[i].0 == key;
            assert(init[i].0 == key);
        }
    }
}

/// Only the root span describes the process: a span after it carries its duration
/// and its own attributes, and nothing else.
pub proof fn law_process_is_described_on_the_root_alone(
    e: CollectorEnvelope,
    revision: Revision,
    span: SpanView,
    key: Seq<char>,
)
    ensures
        span_attributes(e, revision, span, false).contains_key(key) <==> key
            == "chronos.duration_nanoseconds"@ || has_pair(span.attributes, key),
{
    let m = no_entries().insert(
        "chronos.duration_nanoseconds"@,
        Json::Text(decimal(span.duration_nanoseconds)),
    );
    lemma_keys_of_pairs(m, span.attributes, key);
}

/// Frame a span batch for the spool log.
pub fn write_atomic(log: &mut SpoolLog, body: &str) -> (r: Result<Vec<u8>, bool>)
    requires
        old(log).wf(),
    ensures
        final(log).wf(),
        framed_or_refused(*old(log), *final(log), r, "trace"@, body@),
        r is Ok <==> byte_len(body@) <= MAX_FRAME_PAYLOAD_BYTES,
{
    proof {
        reveal_strlit("trace");
        assert(plain("trace"@));
        assert("trace"@.len() == 5);
    }
    crate::spool_common::write_atomic(log, body, "trace")
}

/// Whether an object holds a text under a key.
pub open spec fn says(o: Map<Seq<char>, Json>, key: Seq<char>, text: Seq<char>) -> bool {
    o.contains_key(key) && o[key] == Json::Text(text)
}

/// Whether an object tells a span: each of its own facts under its own key.
pub open spec fn tells_span(o: Map<Seq<char>, Json>, span: NativeSpan, service: Seq<char>) -> bool {
    &&& says(o, "traceId"@, span.trace_id@)
    &&& says(o, "spanId"@, span.span_id@)
    &&& span.parent_span_id matches Some(parent) ==> says(o, "parentSpanId"@, parent@)
    &&& span.parent_span_id is None ==> says(o, "parentSpanId"@, Seq::empty())
    &&& says(o, "name"@, span.name@)
    &&& says(o, "startedAt"@, span.started_at@)
    &&& says(o, "endedAt"@, span.ended_at@)
    &&& says(o, "status"@, span.status@)
    &&& says(o, "serviceName"@, service)
}

/// Whether an object tells who is reporting: the organisation, and the application
/// within its project.
pub open spec fn tells_reporter(o: Map<Seq<char>, Json>, e: CollectorEnvelope) -> bool {
    &&& o.contains_key("organisation"@)
    &&& o["organisation"@] matches Json::Object(organisation)
    &&& says(organisation, "organisationId"@, e.organisation_id@)
    &&& o.contains_key("application"@)
    &&& o["application"@] matches Json::Object(application)
    &&& says(application, "applicationId"@, e.application_id@)
    &&& application.contains_key("project"@)
    &&& application["project"@] matches Json::Object(project)
    &&& says(project, "projectId"@, e.project_id@)
    &&& project.contains_key("organisation"@)
    &&& project["organisation"@] == Json::Object(organisation)
}

/// Whether an attribute of a span stands in a place of its own in an object: the
/// first under its key does, and nothing where there is none.
pub open spec fn lifts(
    o: Map<Seq<char>, Json>,
    key: Seq<char>,
    attributes: Seq<(String, String)>,
    name: Seq<char>,
) -> bool {
    &&& forall|i: int|
        0 <= i < attributes.len() && (#[trigger] attributes[i]).0@ == name && (forall|j: int|
            0 <= j < i ==> (#[trigger] attributes[j]).0@ != name) ==> says(o, key, attributes[i].1@)
    &&& (forall|i: int| 0 <= i < attributes.len() ==> (#[trigger] attributes[i]).0@ != name)
        ==> !o.contains_key(key)
}

proof fn lemma_first_pair(attributes: Seq<(String, String)>, name: Seq<char>, i: int)
    requires
        0 <= i < attributes.len(),
        attributes[i].0@ == name,
        forall|j: int| 0 <= j < i ==> (#[trigger] attributes[j]).0@ != name,
    ensures
        pair_value(pairs(attributes), name) == Some(attributes[i].1@),
    decreases i,
{
    let p = pairs(attributes);
    assert(p[0] == (attributes[0].0@, attributes[0].1@));
    if i > 0 {
        let rest = attributes.drop_first();
        assert(attributes[0].0@ != name);
        assert forall|j: int| 0 <= j < i - 1 implies (#[trigger] rest[j]).0@ != name by {
            assert(rest[j] == attributes[j + 1]);
        }
        lemma_first_pair(rest, name, i - 1);
        assert(p.drop_first() =~= pairs(rest));
    }
}

proof fn lemma_no_pair(attributes: Seq<(String, String)>, name: Seq<char>)
    requires
        forall|j: int| 0 <= j < attributes.len() ==> (#[trigger] attributes[j]).0@ != name,
    ensures
        pair_value(pairs(attributes), name) is None,
    decreases attributes.len(),
{
    let p = pairs(attributes);
    if attributes.len() > 0 {
        assert(p[0] == (attributes[0].0@, attributes[0].1@));
        let rest = attributes.drop_first();
        assert(attributes[0].0@ != name);
        assert forall|j: int| 0 <= j < rest.len() implies (#[trigger] rest[j]).0@ != name by {
            assert(rest[j] == attributes[j + 1]);
        }
        lemma_no_pair(rest, name);
        assert(p.drop_first() =~= pairs(rest));
    }
}

/// The object that a span becomes.
spec fn span_object(
    e: CollectorEnvelope,
    revision: Revision,
    span: SpanView,
    root: bool,
    service: Seq<char>,
) -> Map<Seq<char>, Json> {
    span_json(e, revision, span, root, service)->Object_0
}

pub proof fn lemma_reporter(o: Map<Seq<char>, Json>, e: CollectorEnvelope)
    requires
        o.contains_key("organisation"@) && o["organisation"@] == identity_of(e)["organisation"@],
        o.contains_key("application"@) && o["application"@] == identity_of(e)["application"@],
    ensures
        tells_reporter(o, e),
{
    reveal_strlit("organisation");
    reveal_strlit("projectId");
    reveal_strlit("project");
    reveal_strlit("applicationId");
    reveal_strlit("application");
    reveal_strlit("organisationId");
    assert("organisation"@.len() == 12);
    assert("projectId"@.len() == 9);
    assert("project"@.len() == 7);
    assert("applicationId"@.len() == 13);
    assert("application"@.len() == 11);
    assert("organisationId"@.len() == 14);
}

proof fn lemma_span_object(
    e: CollectorEnvelope,
    revision: Revision,
    span: NativeSpan,
    root: bool,
    service: Seq<char>,
)
    ensures
        ({
            let o = span_object(e, revision, span@, root, service);
            &&& tells_span(o, span, service)
            &&& tells_reporter(o, e)
            &&& lifts(o, "httpMethod"@, span.attributes@, "http.method"@)
            &&& lifts(o, "httpRoute"@, span.attributes@, "http.route"@)
            &&& o.contains_key("attributes"@)
            &&& o["attributes"@] == Json::Object(span_attributes(e, revision, span@, root))
            &&& o.contains_key("httpStatusCode"@) ==> (exists|i: int|
                0 <= i < span.attributes@.len() && (#[trigger] span.attributes@[i]).0@
                    == "http.status_code"@ && parsed_signed(span.attributes@[i].1@) is Some)
            &&& forall|i: int|
                0 <= i < span.attributes@.len() && (#[trigger] span.attributes@[i]).0@
                    == "http.status_code"@ && (forall|j: int|
                    0 <= j < i ==> (#[trigger] span.attributes@[j]).0@ != "http.status_code"@)
                    ==> match parsed_signed(span.attributes@[i].1@) {
                    Some(n) => o.contains_key("httpStatusCode"@) && o["httpStatusCode"@]
                        == Json::Number(n),
                    None => !o.contains_key("httpStatusCode"@),
                }
        }),
{
    reveal_strlit("traceId");
    reveal_strlit("spanId");
    reveal_strlit("parentSpanId");
    reveal_strlit("name");
    reveal_strlit("startedAt");
    reveal_strlit("endedAt");
    reveal_strlit("status");
    reveal_strlit("httpMethod");
    reveal_strlit("httpRoute");
    reveal_strlit("httpStatusCode");
    reveal_strlit("attributes");
    reveal_strlit("serviceName");
    reveal_strlit("organisation");
    reveal_strlit("application");
    assert("traceId"@.len() == 7);
    assert("spanId"@.len() == 6);
    assert("parentSpanId"@.len() == 12);
    assert("name"@.len() == 4);
    assert("startedAt"@.len() == 9);
    assert("endedAt"@.len() == 7);
    assert("status"@.len() == 6);
    assert("httpMethod"@.len() == 10);
    assert("httpRoute"@.len() == 9);
    assert("httpStatusCode"@.len() == 14);
    assert("attributes"@.len() == 10);
    assert("serviceName"@.len() == 11);
    assert("organisation"@.len() == 12);
    assert("application"@.len() == 11);
    assert("traceId"@[0] != "endedAt"@[0]);
    assert("spanId"@[1] != "status"@[1]);
    assert("parentSpanId"@[0] != "organisation"@[0]);
    assert("startedAt"@[0] != "httpRoute"@[0]);
    assert("httpMethod"@[0] != "attributes"@[0]);
    assert("serviceName"@[0] != "application"@[0]);
    let o = span_object(e, revision, span@, root, service);
    let a = span.attributes@;
    lemma_reporter(o, e);
    assert forall|i: int|
        0 <= i < a.len() && (#[trigger] a[i]).0@ == "http.method"@ && (forall|j: int|
            0 <= j < i ==> (#[trigger] a[j]).0@ != "http.method"@) implies says(
        o,
        "httpMethod"@,
        a[i].1@,
    ) by {
        lemma_first_pair(a, "http.method"@, i);
    }
    if forall|i: int| 0 <= i < a.len() ==> (#[trigger] a[i]).0@ != "http.method"@ {
        lemma_no_pair(a, "http.method"@);
    }
    assert forall|i: int|
        0 <= i < a.len() && (#[trigger] a[i]).0@ == "http.route"@ && (forall|j: int|
            0 <= j < i ==> (#[trigger] a[j]).0@ != "http.route"@) implies says(
        o,
        "httpRoute"@,
        a[i].1@,
    ) by {
        lemma_first_pair(a, "http.route"@, i);
    }
    if forall|i: int| 0 <= i < a.len() ==> (#[trigger] a[i]).0@ != "http.route"@ {
        lemma_no_pair(a, "http.route"@);
    }
    assert forall|i: int|
        0 <= i < a.len() && (#[trigger] a[i]).0@ == "http.status_code"@ && (forall|j: int|
            0 <= j < i ==> (#[trigger] a[j]).0@ != "http.status_code"@) implies match parsed_signed(
        a[i].1@,
    ) {
        Some(n) => o.contains_key("httpStatusCode"@) && o["httpStatusCode"@] == Json::Number(n),
        None => !o.contains_key("httpStatusCode"@),
    } by {
        lemma_first_pair(a, "http.status_code"@, i);
    }
    if o.contains_key("httpStatusCode"@) {
        assert(pair_value(pairs(a), "http.status_code"@) is Some);
        if forall|j: int| 0 <= j < a.len() ==> (#[trigger] a[j]).0@ != "http.status_code"@ {
            lemma_no_pair(a, "http.status_code"@);
        }
        let i = choose|i: int| 0 <= i < a.len() && (#[trigger] a[i]).0@ == "http.status_code"@;
        lemma_some_first(a, "http.status_code"@, i);
        let k = choose|k: int|
            0 <= k < a.len() && (#[trigger] a[k]).0@ == "http.status_code"@ && (forall|j: int|
                0 <= j < k ==> (#[trigger] a[j]).0@ != "http.status_code"@);
        lemma_first_pair(a, "http.status_code"@, k);
        assert(parsed_signed(a[k].1@) is Some);
    }
}

proof fn lemma_some_first(a: Seq<(String, String)>, name: Seq<char>, i: int)
    requires
        0 <= i < a.len(),
        a[i].0@ == name,
    ensures
        exists|k: int|
            0 <= k < a.len() && (#[trigger] a[k]).0@ == name && (forall|j: int|
                0 <= j < k ==> (#[trigger] a[j]).0@ != name),
    decreases i,
{
    if exists|j: int| 0 <= j < i && (#[trigger] a[j]).0@ == name {
        let j = choose|j: int| 0 <= j < i && (#[trigger] a[j]).0@ == name;
        lemma_some_first(a, name, j);
    }
}

/// A batch document tells its schema, the ids of the message and the batch, how
/// many spans it holds, and every span in order: who reports it, and its own ids,
/// name, times, status and service, each under its own key, with its HTTP method,
/// route and status code lifted from its attributes.
pub proof fn law_a_batch_tells_every_span(
    envelope: &CollectorEnvelope,
    spans: &Vec<NativeSpan>,
    service_name: &str,
    revision: &Revision,
    message_id: &str,
    batch_id: &str,
    r: String,
    count: String,
)
    requires
        call_ensures(
            serialise_batch,
            (envelope, spans, service_name, revision, message_id, batch_id),
            r,
        ),
        call_ensures(decimal_text, (spans@.len() as u128,), count),
        spans@.len() <= usize::MAX,
    ensures
        exists|m: Map<Seq<char>, Json>|
            #![trigger rendered(Json::Object(m))]
            r@ == rendered(Json::Object(m)) && tells_batch(
                m,
                *envelope,
                spans@,
                service_name@,
                message_id@,
                batch_id@,
                count@,
            ) && span_list(m) == spans_json(
                *envelope,
                *revision,
                crate::observer::spans::span_views(spans@),
                service_name@,
            ),
        forall|i: int|
            0 <= i < spans@.len() ==> #[trigger] spans_json(
                *envelope,
                *revision,
                crate::observer::spans::span_views(spans@),
                service_name@,
            )[i] == span_json(*envelope, *revision, spans@[i]@, i == 0, service_name@),
{
    reveal_strlit("schema");
    reveal_strlit("processing");
    reveal_strlit("spans");
    reveal_strlit("spanCount");
    reveal_strlit("messageId");
    reveal_strlit("batchId");
    assert("schema"@.len() == 6);
    assert("processing"@.len() == 10);
    assert("spans"@.len() == 5);
    assert("spanCount"@.len() == 9);
    assert("messageId"@.len() == 9);
    assert("batchId"@.len() == 7);
    assert("spanCount"@[0] != "messageId"@[0]);
    let views = crate::observer::spans::span_views(spans@);
    let m = batch_json(
        *envelope,
        *revision,
        views,
        service_name@,
        message_id@,
        batch_id@,
    )->Object_0;
    let list = spans_json(*envelope, *revision, views, service_name@);
    assert(m["spans"@] == Json::List(list));
    assert forall|i: int| 0 <= i < spans@.len() implies {
        &&& #[trigger] list[i] matches Json::Object(o)
        &&& tells_span(o, spans@[i], service_name@)
        &&& tells_reporter(o, *envelope)
        &&& lifts(o, "httpMethod"@, spans@[i].attributes@, "http.method"@)
        &&& lifts(o, "httpRoute"@, spans@[i].attributes@, "http.route"@)
    } by {
        lemma_span_object(*envelope, *revision, spans@[i], i == 0, service_name@);
        assert(views[i] == spans@[i]@);
    }
    assert(tells_batch(
        m,
        *envelope,
        spans@,
        service_name@,
        message_id@,
        batch_id@,
        count@,
    ));
    assert(r@ == rendered(Json::Object(m)));
}

/// The spans of a batch.
pub open spec fn span_list(m: Map<Seq<char>, Json>) -> Seq<Json> {
    m["spans"@]->List_0
}

/// Whether an object tells a batch of spans.
pub open spec fn tells_batch(
    m: Map<Seq<char>, Json>,
    e: CollectorEnvelope,
    spans: Seq<NativeSpan>,
    service: Seq<char>,
    message_id: Seq<char>,
    batch_id: Seq<char>,
    count: Seq<char>,
) -> bool {
    &&& says(m, "schema"@, "chronos.tracing.span-batch.v1"@)
    &&& says(m, "spanCount"@, count)
    &&& m.contains_key("processing"@)
    &&& m["processing"@] matches Json::Object(processing)
    &&& says(processing, "messageId"@, message_id)
    &&& says(processing, "batchId"@, batch_id)
    &&& m.contains_key("spans"@)
    &&& m["spans"@] matches Json::List(list)
    &&& list.len() == spans.len()
    &&& forall|i: int|
        0 <= i < spans.len() ==> {
            &&& #[trigger] list[i] matches Json::Object(o)
            &&& tells_span(o, spans[i], service)
            &&& tells_reporter(o, e)
            &&& lifts(o, "httpMethod"@, spans[i].attributes@, "http.method"@)
            &&& lifts(o, "httpRoute"@, spans[i].attributes@, "http.route"@)
        }
}

/// In the JSON of every span its facts read back under their keys, the HTTP status
/// code as the number that its attribute is, and its attributes are an object that
/// says its duration, unless an attribute has that key, and every attribute, the
/// last under a key; on the root also the version, the runtime, the framework and
/// the revision of the process, unless an attribute says otherwise.
pub proof fn law_a_span_reads_back_from_its_json(
    e: CollectorEnvelope,
    revision: Revision,
    span: NativeSpan,
    root: bool,
    service: Seq<char>,
    duration: String,
)
    requires
        call_ensures(decimal_text, (span.duration_nanoseconds,), duration),
    ensures
        span_json(e, revision, span@, root, service) is Object,
        ({
            let o = span_json(e, revision, span@, root, service)->Object_0;
            let a = span.attributes@;
            &&& tells_span(o, span, service)
            &&& tells_reporter(o, e)
            &&& lifts(o, "httpMethod"@, a, "http.method"@)
            &&& lifts(o, "httpRoute"@, a, "http.route"@)
            &&& o.contains_key("attributes"@)
            &&& o["attributes"@] matches Json::Object(said)
            &&& forall|i: int|
                0 <= i < a.len() && (forall|j: int|
                    i < j < a.len() ==> (#[trigger] a[j]).0@ != a[i].0@) ==> says(
                    said,
                    (#[trigger] a[i]).0@,
                    a[i].1@,
                )
            &&& !names(a, "chronos.duration_nanoseconds"@) ==> says(
                said,
                "chronos.duration_nanoseconds"@,
                duration@,
            )
            &&& root ==> tells_process(said, a, e, revision)
            &&& !root ==> forall|key: Seq<char>| #[trigger]
                said.contains_key(key) ==> key == "chronos.duration_nanoseconds"@ || names(a, key)
        }),
{
    lemma_span_object(e, revision, span, root, service);
    let said = span_attributes(e, revision, span@, root);
    let a = span.attributes@;
    let p = pairs(a);
    let first = no_entries().insert(
        "chronos.duration_nanoseconds"@,
        Json::Text(decimal(span.duration_nanoseconds as nat)),
    );
    let m = if root {
        process_identity(first, e, revision)
    } else {
        first
    };
    assert(said == with_pairs(m, p));
    assert forall|i: int|
        0 <= i < a.len() && (forall|j: int|
            i < j < a.len() ==> (#[trigger] a[j]).0@ != a[i].0@) implies says(
        said,
        (#[trigger] a[i]).0@,
        a[i].1@,
    ) by {
        assert forall|j: int| i < j < p.len() implies (#[trigger] p[j]).0 != p[i].0 by {
            assert(p[j].0 == a[j].0@);
        }
        lemma_last_pair(m, p, i);
    }
    assert forall|key: Seq<char>| !names(a, key) implies (#[trigger] said.contains_key(key)
        <==> m.contains_key(key)) && said[key] == m[key] by {
        assert(!has_pair(p, key)) by {
            if has_pair(p, key) {
                let i = choose|i: int| 0 <= i < p.len() && #[trigger] p[i].0 == key;
                assert(a[i].0@ == key);
            }
        }
        lemma_other_keys(m, p, key);
    }
    lemma_process(first, e, revision);
    assert(!names(a, "chronos.duration_nanoseconds"@) ==> said.contains_key(
        "chronos.duration_nanoseconds"@,
    ));
    if root {
        assert(!names(a, "service.version"@) ==> said.contains_key("service.version"@)
            == m.contains_key("service.version"@));
        assert(!names(a, "app.language"@) ==> said.contains_key("app.language"@) == m.contains_key(
            "app.language"@,
        ));
        assert(!names(a, "app.language.version"@) ==> said.contains_key("app.language.version"@)
            == m.contains_key("app.language.version"@));
        assert(!names(a, "app.framework"@) ==> said.contains_key("app.framework"@)
            == m.contains_key("app.framework"@));
        assert(!names(a, "app.framework.version"@) ==> said.contains_key("app.framework.version"@)
            == m.contains_key("app.framework.version"@));
        assert(!names(a, "app.commit"@) ==> said.contains_key("app.commit"@) == m.contains_key(
            "app.commit"@,
        ));
        assert(!names(a, "app.branch"@) ==> said.contains_key("app.branch"@) == m.contains_key(
            "app.branch"@,
        ));
    } else {
        assert forall|key: Seq<char>| #[trigger] said.contains_key(key) implies key
            == "chronos.duration_nanoseconds"@ || names(a, key) by {
            if !names(a, key) {
                assert(m.contains_key(key));
            }
        }
    }
}

/// Whether a list of attributes has one under a key.
pub open spec fn names(a: Seq<(String, String)>, key: Seq<char>) -> bool {
    exists|i: int| 0 <= i < a.len() && (#[trigger] a[i]).0@ == key
}

/// Whether an object says one text under a key, unless an attribute has that key:
/// what is not known is not said.
pub open spec fn tells(
    said: Map<Seq<char>, Json>,
    a: Seq<(String, String)>,
    key: Seq<char>,
    value: Option<Seq<char>>,
) -> bool {
    names(a, key) || match value {
        Some(text) => says(said, key, text),
        None => !said.contains_key(key),
    }
}

/// A text that is there and not empty.
pub open spec fn some_text(o: Option<String>) -> Option<Seq<char>> {
    match o {
        Some(text) => if text@.len() > 0 {
            Some(text@)
        } else {
            None
        },
        None => None,
    }
}

/// Whether an object tells the process: its version, runtime, framework and
/// revision, each under its own key.
pub open spec fn tells_process(
    said: Map<Seq<char>, Json>,
    a: Seq<(String, String)>,
    e: CollectorEnvelope,
    revision: Revision,
) -> bool {
    &&& tells(said, a, "service.version"@, opt_text(e.app_version))
    &&& tells(said, a, "app.language"@, some_text(Some(e.app_language)))
    &&& tells(said, a, "app.language.version"@, some_text(e.app_language_version))
    &&& tells(said, a, "app.framework"@, some_text(e.app_framework))
    &&& tells(said, a, "app.framework.version"@, some_text(e.app_framework_version))
    &&& tells(said, a, "app.commit"@, some_text(Some(revision.commit)))
    &&& tells(said, a, "app.branch"@, some_text(Some(revision.branch)))
}

proof fn lemma_process(first: Map<Seq<char>, Json>, e: CollectorEnvelope, revision: Revision)
    requires
        exists|j: Json| first == no_entries().insert("chronos.duration_nanoseconds"@, j),
    ensures
        tells_process(process_identity(first, e, revision), Seq::empty(), e, revision),
        process_identity(first, e, revision).contains_key("chronos.duration_nanoseconds"@),
        process_identity(first, e, revision)["chronos.duration_nanoseconds"@]
            == first["chronos.duration_nanoseconds"@],
{
    reveal_strlit("chronos.duration_nanoseconds");
    reveal_strlit("service.version");
    reveal_strlit("app.language");
    reveal_strlit("app.language.version");
    reveal_strlit("app.framework");
    reveal_strlit("app.framework.version");
    reveal_strlit("app.commit");
    reveal_strlit("app.branch");
    assert("chronos.duration_nanoseconds"@.len() == 28);
    assert("service.version"@.len() == 15);
    assert("app.language"@.len() == 12);
    assert("app.language.version"@.len() == 20);
    assert("app.framework"@.len() == 13);
    assert("app.framework.version"@.len() == 21);
    assert("app.commit"@.len() == 10);
    assert("app.branch"@.len() == 10);
    assert("app.commit"@[4] != "app.branch"@[4]);
}

pub proof fn lemma_last_pair(m: Map<Seq<char>, Json>, p: Seq<(Seq<char>, Seq<char>)>, i: int)
    requires
        0 <= i < p.len(),
        forall|j: int| i < j < p.len() ==> (#[trigger] p[j]).0 != p[i].0,
    ensures
        says(with_pairs(m, p), p[i].0, p[i].1),
    decreases p.len(),
{
    if i < p.len() - 1 {
        let init = p.drop_last();
        assert forall|j: int| i < j < init.len() implies (#[trigger] init[j]).0 != init[i].0 by {
            assert(init[j] == p[j]);
        }
        lemma_last_pair(m, init, i);
        assert(p[p.len() - 1].0 != p[i].0);
    }
}

proof fn lemma_other_keys(
    m: Map<Seq<char>, Json>,
    p: Seq<(Seq<char>, Seq<char>)>,
    key: Seq<char>,
)
    requires
        !has_pair(p, key),
    ensures
        with_pairs(m, p).contains_key(key) <==> m.contains_key(key),
        with_pairs(m, p)[key] == m[key],
    decreases p.len(),
{
    if p.len() > 0 {
        let init = p.drop_last();
        assert(!has_pair(init, key)) by {
            if has_pair(init, key) {
                let i = choose|i: int| 0 <= i < init.len() && #[trigger] init[i].0 == key;
                assert(p[i].0 == key);
            }
        }
        lemma_other_keys(m, init, key);
        assert(p[p.len() - 1].0 != key);
    }
}

/// A span batch is framed under the signal `trace`.
pub proof fn law_span_batches_are_framed_as_traces(
    log: &mut SpoolLog,
    body: &str,
    r: Result<Vec<u8>, bool>,
    twin: &mut SpoolLog,
    s: Result<Vec<u8>, bool>,
)
    requires
        old(log).wf(),
        *old(twin) == *old(log),
        call_ensures(write_atomic, (log, body), r),
        call_ensures(crate::spool_common::write_atomic, (twin, body, "trace"), s),
    ensures
        r is Ok <==> s is Ok,
        r matches Ok(bytes) ==> bytes@ == s->Ok_0@ && *final(log) == *old(log),
        r matches Err(announce) ==> {
            &&& announce == s->Err_0
            &&& final(log).announced@ == final(twin).announced@
            &&& final(log).dropped_frames == final(twin).dropped_frames
            &&& final(log).dropped_bytes == final(twin).dropped_bytes
        },
{
}

} // verus!
