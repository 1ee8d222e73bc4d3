//! Profile batches: the documents that a request's samples make.

use crate::context::CollectorEnvelope;
use crate::json::{
    contents, insert, list_value, new_object, no_entries, number_value, object_value, plain,
    rendered, text_value, tree, trees, value_text, Json,
};
use crate::sampler::{
    sample_views, stack_view, Sample, SampleFrame, SampleFrameView, SampleKind, SampleView,
};
use crate::spool::{
    lemma_last_pair, lemma_reporter, processing_json, processing_value, says, tells_reporter,
    with_pairs,
};
use crate::spool_common::{
    body_budget, chunk_of, document_json, document_lengths, document_maps, framed_or_refused,
    holds_in_order, identity_envelope, identity_of, law_documents_hold_the_items_in_order,
    lemma_cuts, lemma_written, max_body_bytes, starts_of, write_chunked,
};
use crate::spool_log::{SpoolLog, MAX_FRAME_PAYLOAD_BYTES};
use crate::text::{
    byte_len, copy, decimal, decimal_text, int_text, lowercase, opt_text, pairs, signed_text,
};
use vstd::prelude::*;

verus! {

/// The name of the batch format.
pub const SCHEMA: &'static str = "chronos.profiling.sample-batch.v1";

/// How an instant is written: `year-month-dayThour:minute:second.microsecondsZ`.
pub const UTC_FORMAT: &'static str = "%Y-%m-%dT%H:%M:%S%.6fZ";

/// The text that chrono gives an instant in UTC under a format: none where the
/// instant is out of its range.
pub uninterp spec fn utc(seconds: i64, nanos: u32, format: Seq<char>) -> Option<Seq<char>>;

/// `chrono::DateTime::from_timestamp`, written by `DateTime::format`: the text is
/// a function of the instant and the format alone. Writing panics on a format
/// that chrono cannot read, so only `UTC_FORMAT`, which it can, is asked for.
#[verifier::external_body]
fn utc_text(seconds: i64, nanos: u32, format: &str) -> (r: Option<String>)
    requires
        format@ == UTC_FORMAT@,
    ensures
        opt_text(r) == utc(seconds, nanos, format@),
{
    match chrono::DateTime::from_timestamp(seconds, nanos) {
        Some(t) => Some(t.format(format).to_string()),
        None => None,
    }
}

/// An instant as text. One that is out of range is the epoch.
pub open spec fn instant_text(unix_nanos: u128) -> Seq<char> {
    let whole = unix_nanos as int / 1000000000;
    let seconds = if whole > i64::MAX {
        0
    } else {
        whole
    };
    let micros = (unix_nanos as int % 1000000000) / 1000;
    match utc(seconds as i64, (micros * 1000) as u32, UTC_FORMAT@) {
        Some(text) => text,
        None => "1970-01-01T00:00:00.000000Z"@,
    }
}

/// An instant as text.
pub fn unix_nanos_to_utc(unix_nanos: u128) -> (r: String)
    ensures
        r@ == instant_text(unix_nanos),
{
    let whole: u128 = unix_nanos / 1000000000;
    let seconds: i64 = if whole > i64::MAX as u128 {
        0
    } else {
        whole as i64
    };
    let micros: u32 = ((unix_nanos % 1000000000) / 1000) as u32;
    match utc_text(seconds, micros * 1000, UTC_FORMAT) {
        Some(text) => text,
        None => copy("1970-01-01T00:00:00.000000Z"),
    }
}

/// The word for a kind at the end of a series id.
pub open spec fn suffix_of(kind: SampleKind) -> Seq<char> {
    match kind {
        SampleKind::Cpu => "cpu"@,
        SampleKind::Wall => "wall"@,
        SampleKind::OffCpu => "off_cpu"@,
        SampleKind::Io => "io"@,
    }
}

/// The series that samples of a kind belong to.
pub open spec fn series_of(base: Seq<char>, kind: SampleKind) -> Seq<char> {
    base + "-"@ + suffix_of(kind)
}

/// The series that samples of a kind belong to.
pub fn series_id_for(base: &str, kind: SampleKind) -> (r: String)
    ensures
        r@ == series_of(base@, kind),
{
    let mut out = copy(base);
    out.append("-");
    match kind {
        SampleKind::Cpu => {
            out.append("cpu");
        },
        SampleKind::Wall => {
            out.append("wall");
        },
        SampleKind::OffCpu => {
            out.append("off_cpu");
        },
        SampleKind::Io => {
            out.append("io");
        },
    }
    out
}

/// The word for a kind is the end of its name on the wire, in lower case.
pub proof fn law_suffix_is_the_wire_name_lowered(kind: SampleKind)
    ensures
        lowercase(kind.wire_name().skip(20)) == suffix_of(kind),
        kind.wire_name().take(20) == "PROFILE_SAMPLE_TYPE_"@,
{
    reveal_strlit("PROFILE_SAMPLE_TYPE_");
    reveal_strlit("PROFILE_SAMPLE_TYPE_CPU");
    reveal_strlit("PROFILE_SAMPLE_TYPE_WALL");
    reveal_strlit("PROFILE_SAMPLE_TYPE_OFF_CPU");
    reveal_strlit("PROFILE_SAMPLE_TYPE_IO");
    reveal_strlit("cpu");
    reveal_strlit("wall");
    reveal_strlit("off_cpu");
    reveal_strlit("io");
    assert(lowercase(kind.wire_name().skip(20)) =~= suffix_of(kind));
    assert(kind.wire_name().take(20) =~= "PROFILE_SAMPLE_TYPE_"@);
}

/// Samples of different kinds are never in the same series.
pub proof fn law_series_are_distinct_per_kind(base: Seq<char>, a: SampleKind, b: SampleKind)
    requires
        a != b,
    ensures
        series_of(base, a) != series_of(base, b),
{
    reveal_strlit("cpu");
    reveal_strlit("wall");
    reveal_strlit("off_cpu");
    reveal_strlit("io");
    reveal_strlit("-");
    let n = base.len() as int + 1;
    assert(series_of(base, a).len() == n + suffix_of(a).len());
    assert(series_of(base, b).len() == n + suffix_of(b).len());
}

/// A frame as it stands in a sample.
pub open spec fn frame_json(f: SampleFrameView) -> Json {
    Json::Object(
        no_entries().insert("module"@, Json::Text(f.module)).insert(
            "function"@,
            Json::Text(f.function),
        ).insert("file"@, Json::Text(f.file)).insert("line"@, Json::Number(f.line as int)),
    )
}

/// A stack as it stands in a sample.
pub open spec fn frames_of(stack: Seq<SampleFrameView>) -> Seq<Json> {
    Seq::new(stack.len(), |i: int| frame_json(stack[i]))
}

fn frame_value(f: &SampleFrame) -> (r: serde_json::Value)
    ensures
        tree(r) == frame_json(f@),
{
    let mut o = new_object();
    insert(&mut o, "module", text_value(f.module.as_str()));
    insert(&mut o, "function", text_value(f.function.as_str()));
    insert(&mut o, "file", text_value(f.file.as_str()));
    insert(&mut o, "line", number_value(f.line as i64));
    object_value(o)
}

fn frames_json(stack: &Vec<SampleFrame>) -> (r: Vec<serde_json::Value>)
    ensures
        trees(r@) == frames_of(stack_view(stack@)),
{
    let mut out: Vec<serde_json::Value> = Vec::new();
    let mut i: usize = 0;
    while i < stack.len()
        invariant
            i <= stack@.len(),
            out@.len() == i,
            forall|j: int| 0 <= j < i ==> tree(#[trigger] out@[j]) == frame_json(stack@[j]@),
        decreases stack@.len() - i,
    {
        out.push(frame_value(&stack[i]));
        i = i + 1;
    }
    assert(trees(out@) =~= frames_of(stack_view(stack@)));
    out
}

/// What ties a sample to its request.
pub open spec fn correlation_of(s: SampleView) -> Json {
    Json::Object(
        no_entries().insert("traceId"@, Json::Text(s.trace_id)).insert(
            "spanId"@,
            Json::Text(s.span_id),
        ).insert(
            "sessionId"@,
            Json::Text(
                match s.session_id {
                    Some(id) => id,
                    None => Seq::empty(),
                },
            ),
        ),
    )
}

fn correlation_json(s: &Sample) -> (r: serde_json::Value)
    ensures
        tree(r) == correlation_of(s@),
{
    let blank = String::new();
    let session = match &s.session_id {
        Some(id) => id.as_str(),
        None => blank.as_str(),
    };
    let mut o = new_object();
    insert(&mut o, "traceId", text_value(s.trace_id.as_str()));
    insert(&mut o, "spanId", text_value(s.span_id.as_str()));
    insert(&mut o, "sessionId", text_value(session));
    object_value(o)
}

/// The sequence number of a sample.
pub open spec fn sequence_at(first: u64, index: int) -> nat {
    if first + index > u64::MAX {
        u64::MAX as nat
    } else {
        (first + index) as nat
    }
}

/// A sample as it stands in a batch. Wide numbers are texts, and the tags are
/// left out entirely when there are none.
pub open spec fn sample_json(
    e: CollectorEnvelope,
    series: Seq<char>,
    s: SampleView,
    sequence: nat,
    labels: Seq<(Seq<char>, Seq<char>)>,
) -> Json {
    let m = identity_of(e).insert("profileSeriesId"@, Json::Text(series_of(series, s.kind))).insert(
        "sequence"@,
        Json::Text(decimal(sequence)),
    ).insert("sampledAt"@, Json::Text(instant_text(s.sampled_at_unix_nanos))).insert(
        "sampleType"@,
        Json::Text(s.kind.wire_name()),
    ).insert("periodNanoseconds"@, Json::Text(decimal(s.period_nanoseconds as nat))).insert(
        "value"@,
        Json::Text(int_text(s.value_nanoseconds as int)),
    ).insert("unit"@, Json::Text("nanoseconds"@)).insert(
        "stack"@,
        Json::List(frames_of(s.stack)),
    ).insert("correlation"@, correlation_of(s));
    Json::Object(
        if labels.len() > 0 {
            m.insert("labels"@, Json::Object(with_pairs(no_entries(), labels)))
        } else {
            m
        },
    )
}

/// The samples of a batch.
pub open spec fn samples_of(
    e: CollectorEnvelope,
    series: Seq<char>,
    samples: Seq<SampleView>,
    first: u64,
    labels: Seq<(Seq<char>, Seq<char>)>,
) -> Seq<Json> {
    Seq::new(
        samples.len(),
        |i: int| sample_json(e, series, samples[i], sequence_at(first, i), labels),
    )
}

fn labels_json(labels: &Vec<(String, String)>) -> (r: serde_json::Map<String, serde_json::Value>)
    ensures
        contents(r) == with_pairs(no_entries(), pairs(labels@)),
{
    let ghost all = pairs(labels@);
    let mut m = new_object();
    let mut i: usize = 0;
    assert(all.take(0) =~= Seq::empty());
    while i < labels.len()
        invariant
            i <= labels@.len(),
            all == pairs(labels@),
            contents(m) == with_pairs(no_entries(), all.take(i as int)),
        decreases labels@.len() - i,
    {
        insert(&mut m, labels[i].0.as_str(), text_value(labels[i].1.as_str()));
        assert(all.take(i + 1).drop_last() =~= all.take(i as int));
        assert(all.take(i + 1).last() == all[i as int]);
        i = i + 1;
    }
    assert(all.take(all.len() as int) =~= all);
    m
}

fn sample_value(
    envelope: &CollectorEnvelope,
    series: &str,
    s: &Sample,
    sequence: u64,
    labels: &Vec<(String, String)>,
) -> (r: serde_json::Value)
    ensures
        tree(r) == sample_json(*envelope, series@, s@, sequence as nat, pairs(labels@)),
{
    let mut m = identity_envelope(envelope);
    let id = series_id_for(series, s.kind);
    insert(&mut m, "profileSeriesId", text_value(id.as_str()));
    let number = decimal_text(sequence as u128);
    insert(&mut m, "sequence", text_value(number.as_str()));
    let at = unix_nanos_to_utc(s.sampled_at_unix_nanos);
    insert(&mut m, "sampledAt", text_value(at.as_str()));
    insert(&mut m, "sampleType", text_value(s.kind.proto_name()));
    let period = decimal_text(s.period_nanoseconds as u128);
    insert(&mut m, "periodNanoseconds", text_value(period.as_str()));
    let value = signed_text(s.value_nanoseconds);
    insert(&mut m, "value", text_value(value.as_str()));
    insert(&mut m, "unit", text_value(s.kind.unit()));
    let frames = frames_json(&s.stack);
    insert(&mut m, "stack", list_value(frames));
    insert(&mut m, "correlation", correlation_json(s));
    if labels.len() > 0 {
        assert(pairs(labels@).len() > 0);
        insert(&mut m, "labels", object_value(labels_json(labels)));
    }
    object_value(m)
}

fn samples_json(
    envelope: &CollectorEnvelope,
    series: &str,
    samples: &Vec<Sample>,
    first_sequence: u64,
    labels: &Vec<(String, String)>,
) -> (r: Vec<serde_json::Value>)
    ensures
        trees(r@) == samples_of(
            *envelope,
            series@,
            sample_views(samples@),
            first_sequence,
            pairs(labels@),
        ),
{
    let mut out: Vec<serde_json::Value> = Vec::new();
    let mut i: usize = 0;
    while i < samples.len()
        invariant
            i <= samples@.len(),
            out@.len() == i,
            forall|j: int|
                0 <= j < i ==> tree(#[trigger] out@[j]) == sample_json(
                    *envelope,
                    series@,
                    samples@[j]@,
                    sequence_at(first_sequence, j),
                    pairs(labels@),
                ),
        decreases samples@.len() - i,
    {
        let sequence: u64 = first_sequence.saturating_add(i as u64);
        out.push(sample_value(envelope, series, &samples[i], sequence, labels));
        i = i + 1;
    }
    assert(trees(out@) =~= samples_of(
        *envelope,
        series@,
        sample_views(samples@),
        first_sequence,
        pairs(labels@),
    ));
    out
}

/// The document of a profile batch.
pub open spec fn batch_json(
    e: CollectorEnvelope,
    series: Seq<char>,
    samples: Seq<SampleView>,
    first: u64,
    labels: Seq<(Seq<char>, Seq<char>)>,
    message_id: Seq<char>,
    batch_id: Seq<char>,
) -> Json {
    Json::Object(
        no_entries().insert("schema"@, Json::Text(SCHEMA@)).insert(
            "processing"@,
            processing_json(message_id, batch_id),
        ).insert("sampleCount"@, Json::Text(decimal(samples.len()))).insert(
            "samples"@,
            Json::List(samples_of(e, series, samples, first, labels)),
        ),
    )
}

/// The ids that one batch carries.
pub struct BatchIds {
    pub message_id: String,
    pub batch_id: String,
}

/// One document with all of a request's samples.
pub fn serialise_batch(
    envelope: &CollectorEnvelope,
    samples: &Vec<Sample>,
    first_sequence: u64,
    labels: &Vec<(String, String)>,
    series: &str,
    ids: &BatchIds,
) -> (r: String)
    ensures
        r@ == rendered(
            batch_json(
                *envelope,
                series@,
                sample_views(samples@),
                first_sequence,
                pairs(labels@),
                ids.message_id@,
                ids.batch_id@,
            ),
        ),
{
    let mut m = new_object();
    insert(&mut m, "schema", text_value(SCHEMA));
    insert(
        &mut m,
        "processing",
        processing_value(ids.message_id.as_str(), ids.batch_id.as_str()),
    );
    let count = decimal_text(samples.len() as u128);
    insert(&mut m, "sampleCount", text_value(count.as_str()));
    let list = samples_json(envelope, series, samples, first_sequence, labels);
    insert(&mut m, "samples", list_value(list));
    let v = object_value(m);
    value_text(&v)
}

/// What every document of a batch begins with.
pub open spec fn header_of(message_id: Seq<char>, batch_id: Seq<char>) -> Map<Seq<char>, Json> {
    no_entries().insert("schema"@, Json::Text(SCHEMA@)).insert(
        "processing"@,
        processing_json(message_id, batch_id),
    )
}

/// How many samples each document holds.
pub open spec fn sample_counts(
    items: Seq<Json>,
    message_id: Seq<char>,
    batch_id: Seq<char>,
    group: Seq<char>,
    max: nat,
) -> Seq<nat> {
    document_lengths(
        header_of(message_id, batch_id),
        "samples"@,
        Some("sampleCount"@),
        items,
        group,
        max,
    )
}

/// The documents that samples make within a budget.
pub open spec fn documents_of(
    items: Seq<Json>,
    message_id: Seq<char>,
    batch_id: Seq<char>,
    group: Seq<char>,
    max: nat,
) -> Seq<Seq<char>> {
    let header = header_of(message_id, batch_id);
    let lengths = sample_counts(items, message_id, batch_id, group, max);
    Seq::new(
        lengths.len(),
        |i: int|
            rendered(
                document_json(
                    header,
                    "samples"@,
                    Some("sampleCount"@),
                    chunk_of(items, lengths, i),
                    group,
                    i as nat,
                    lengths.len(),
                ),
            ),
    )
}

/// The documents of a request's samples, each within the configured budget.
/// `sequence` numbers the samples of the whole process.
pub fn flush(
    sequence: &mut u64,
    envelope: &CollectorEnvelope,
    samples: &Vec<Sample>,
    labels: &Vec<(String, String)>,
    series: &str,
    ids: &BatchIds,
    group: &str,
    budget_setting: Option<&str>,
) -> (r: Vec<String>)
    ensures
        crate::text::texts(r@) == documents_of(
            samples_of(
                *envelope,
                series@,
                sample_views(samples@),
                *old(sequence),
                pairs(labels@),
            ),
            ids.message_id@,
            ids.batch_id@,
            group@,
            body_budget(budget_setting),
        ),
        forall|i: int|
            0 <= i < r@.len() && sample_counts(
                samples_of(
                    *envelope,
                    series@,
                    sample_views(samples@),
                    *old(sequence),
                    pairs(labels@),
                ),
                ids.message_id@,
                ids.batch_id@,
                group@,
                body_budget(budget_setting),
            )[i] > 1 ==> byte_len((#[trigger] r@[i])@) <= body_budget(budget_setting),
        *final(sequence) == old(sequence).wrapping_add(samples@.len() as u64),
{
    let max = max_body_bytes(budget_setting);
    flush_with_budget(sequence, envelope, samples, labels, series, ids, group, max)
}

/// The documents of a request's samples, each within a budget.
pub fn flush_with_budget(
    sequence: &mut u64,
    envelope: &CollectorEnvelope,
    samples: &Vec<Sample>,
    labels: &Vec<(String, String)>,
    series: &str,
    ids: &BatchIds,
    group: &str,
    max: usize,
) -> (r: Vec<String>)
    ensures
        crate::text::texts(r@) == documents_of(
            samples_of(
                *envelope,
                series@,
                sample_views(samples@),
                *old(sequence),
                pairs(labels@),
            ),
            ids.message_id@,
            ids.batch_id@,
            group@,
            max as nat,
        ),
        forall|i: int|
            0 <= i < r@.len() && sample_counts(
                samples_of(
                    *envelope,
                    series@,
                    sample_views(samples@),
                    *old(sequence),
                    pairs(labels@),
                ),
                ids.message_id@,
                ids.batch_id@,
                group@,
                max as nat,
            )[i] > 1 ==> byte_len((#[trigger] r@[i])@) <= max,
        *final(sequence) == old(sequence).wrapping_add(samples@.len() as u64),
{
    let first: u64 = *sequence;
    *sequence = first.wrapping_add(samples.len() as u64);
    let items = samples_json(envelope, series, samples, first, labels);
    let ghost all = trees(items@);
    let mut header = new_object();
    insert(&mut header, "schema", text_value(SCHEMA));
    insert(
        &mut header,
        "processing",
        processing_value(ids.message_id.as_str(), ids.batch_id.as_str()),
    );
    let out = write_chunked(&header, "samples", Some("sampleCount"), items, max, group);
    assert(crate::text::texts(out@) =~= documents_of(
        all,
        ids.message_id@,
        ids.batch_id@,
        group@,
        max as nat,
    ));
    out
}

/// A request without samples makes no document.
pub proof fn law_no_samples_make_no_document(
    message_id: Seq<char>,
    batch_id: Seq<char>,
    group: Seq<char>,
    max: nat,
)
    ensures
        documents_of(Seq::empty(), message_id, batch_id, group, max).len() == 0,
{
    assert(crate::spool_common::item_sizes(Seq::empty()) =~= Seq::empty());
}

/// Samples are numbered in the order they come over the whole process: a later
/// sample of a request, and any sample of a later one, has a greater number.
pub proof fn law_sequence_numbers_ascend(first: u64, samples: nat, earlier: nat, later: nat)
    requires
        earlier < samples,
        earlier < later,
        first + samples <= u64::MAX,
        first + later <= u64::MAX,
    ensures
        later < samples ==> sequence_at(first, earlier as int) < sequence_at(first, later as int),
        later >= samples ==> sequence_at(first, earlier as int) < sequence_at(
            (first + samples) as u64,
            later - samples,
        ),
{
}

/// Frame a profile document for the spool log.
pub fn write_atomic(log: &mut SpoolLog, body: &str) -> (r: Result<Vec<u8>, bool>)
    requires
        old(log).wf(),
    ensures
        final(log).wf(),
        framed_or_refused(*old(log), *final(log), r, "profile"@, body@),
        r is Ok <==> byte_len(body@) <= MAX_FRAME_PAYLOAD_BYTES,
{
    proof {
        reveal_strlit("profile");
        assert(plain("profile"@));
        assert("profile"@.len() == 7);
    }
    crate::spool_common::write_atomic(log, body, "profile")
}

/// The series of each kind of sample.
pub proof fn law_the_series_of_a_kind(base: &str, kind: SampleKind, r: String)
    requires
        call_ensures(series_id_for, (base, kind), r),
    ensures
        kind is Cpu ==> r@ == base@ + "-"@ + "cpu"@,
        kind is Wall ==> r@ == base@ + "-"@ + "wall"@,
        kind is OffCpu ==> r@ == base@ + "-"@ + "off_cpu"@,
        kind is Io ==> r@ == base@ + "-"@ + "io"@,
{
}

/// An instant is written in UTC from its whole seconds and its whole microseconds;
/// one that cannot be written is the epoch.
pub proof fn law_instants_are_written_to_the_microsecond(
    seconds: i64,
    micros: u32,
    below: u32,
    unix_nanos: u128,
    r: String,
)
    requires
        seconds >= 0 && micros < 1000000 && below < 1000,
        unix_nanos == seconds * 1000000000 + micros * 1000 + below,
        call_ensures(unix_nanos_to_utc, (unix_nanos,), r),
    ensures
        match utc(seconds, (micros * 1000) as u32, "%Y-%m-%dT%H:%M:%S%.6fZ"@) {
            Some(text) => r@ == text,
            None => r@ == "1970-01-01T00:00:00.000000Z"@,
        },
{
    let rest = micros * 1000 + below;
    assert(unix_nanos as int / 1000000000 == seconds && unix_nanos as int % 1000000000 == rest)
        by (nonlinear_arith)
        requires
            unix_nanos as int == seconds * 1000000000 + rest,
            0 <= rest < 1000000000,
            seconds >= 0,
    ;
    assert(rest / 1000 == micros);
}

/// Whether an object tells a frame of a stack.
pub open spec fn tells_frame(j: Json, f: SampleFrame) -> bool {
    &&& j matches Json::Object(o)
    &&& says(o, "module"@, f.module@)
    &&& says(o, "function"@, f.function@)
    &&& says(o, "file"@, f.file@)
    &&& o.contains_key("line"@)
    &&& o["line"@] == Json::Number(f.line as int)
}

/// Whether an object tells a sample: each of its facts under its own key.
pub open spec fn tells_sample(o: Map<Seq<char>, Json>, s: Sample) -> bool {
    &&& says(o, "periodNanoseconds"@, decimal(s.period_nanoseconds as nat))
    &&& says(o, "value"@, int_text(s.value_nanoseconds as int))
    &&& says(o, "unit"@, "nanoseconds"@)
    &&& s.kind is Cpu ==> says(o, "sampleType"@, "PROFILE_SAMPLE_TYPE_CPU"@)
    &&& s.kind is Wall ==> says(o, "sampleType"@, "PROFILE_SAMPLE_TYPE_WALL"@)
    &&& s.kind is OffCpu ==> says(o, "sampleType"@, "PROFILE_SAMPLE_TYPE_OFF_CPU"@)
    &&& s.kind is Io ==> says(o, "sampleType"@, "PROFILE_SAMPLE_TYPE_IO"@)
    &&& o.contains_key("correlation"@)
    &&& o["correlation"@] matches Json::Object(c)
    &&& says(c, "traceId"@, s.trace_id@)
    &&& says(c, "spanId"@, s.span_id@)
    &&& s.session_id matches Some(id) ==> says(c, "sessionId"@, id@)
    &&& s.session_id is None ==> says(c, "sessionId"@, Seq::empty())
    &&& o.contains_key("stack"@)
    &&& o["stack"@] matches Json::List(frames)
    &&& frames.len() == s.stack@.len()
    &&& forall|i: int| 0 <= i < frames.len() ==> tells_frame(#[trigger] frames[i], s.stack@[i])
}

/// Whether an object carries labels: the last under each key, and no entry for them
/// where there are none.
pub open spec fn carries_labels(o: Map<Seq<char>, Json>, labels: Seq<(String, String)>) -> bool {
    &&& labels.len() == 0 ==> !o.contains_key("labels"@)
    &&& labels.len() > 0 ==> {
        &&& o.contains_key("labels"@)
        &&& o["labels"@] matches Json::Object(m)
        &&& forall|i: int|
            0 <= i < labels.len() && (forall|j: int|
                i < j < labels.len() ==> (#[trigger] labels[j]).0@ != labels[i].0@) ==> says(
                m,
                (#[trigger] labels[i]).0@,
                labels[i].1@,
            )
    }
}

proof fn lemma_frame(f: SampleFrame)
    ensures
        tells_frame(frame_json(f@), f),
{
    reveal_strlit("module");
    reveal_strlit("function");
    reveal_strlit("file");
    reveal_strlit("line");
    assert("module"@.len() == 6);
    assert("function"@.len() == 8);
    assert("file"@.len() == 4);
    assert("line"@.len() == 4);
    assert("file"@[0] != "line"@[0]);
}

proof fn lemma_correlation(s: Sample)
    ensures
        correlation_of(s@) matches Json::Object(c) && {
            &&& says(c, "traceId"@, s.trace_id@)
            &&& says(c, "spanId"@, s.span_id@)
            &&& s.session_id matches Some(id) ==> says(c, "sessionId"@, id@)
            &&& s.session_id is None ==> says(c, "sessionId"@, Seq::empty())
        },
{
    reveal_strlit("traceId");
    reveal_strlit("spanId");
    reveal_strlit("sessionId");
    assert("traceId"@.len() == 7);
    assert("spanId"@.len() == 6);
    assert("sessionId"@.len() == 9);
}

/// Every sample reads back from its JSON: who reports it, its series, number and
/// instant, its kind, period, value, stack and request, and the labels of its batch.
pub proof fn law_a_sample_reads_back_from_its_json(
    e: CollectorEnvelope,
    base: &str,
    s: Sample,
    sequence: nat,
    labels: Vec<(String, String)>,
    series: String,
    at: String,
)
    requires
        call_ensures(series_id_for, (base, s.kind), series),
        call_ensures(unix_nanos_to_utc, (s.sampled_at_unix_nanos,), at),
    ensures
        sample_json(e, base@, s@, sequence, pairs(labels@)) matches Json::Object(o) && {
            &&& tells_reporter(o, e)
            &&& says(o, "profileSeriesId"@, series@)
            &&& says(o, "sequence"@, decimal(sequence))
            &&& says(o, "sampledAt"@, at@)
            &&& tells_sample(o, s)
            &&& carries_labels(o, labels@)
        },
{
    reveal_strlit("profileSeriesId");
    reveal_strlit("sequence");
    reveal_strlit("sampledAt");
    reveal_strlit("sampleType");
    reveal_strlit("periodNanoseconds");
    reveal_strlit("value");
    reveal_strlit("unit");
    reveal_strlit("stack");
    reveal_strlit("correlation");
    reveal_strlit("labels");
    reveal_strlit("organisation");
    reveal_strlit("application");
    assert("profileSeriesId"@.len() == 15);
    assert("sequence"@.len() == 8);
    assert("sampledAt"@.len() == 9);
    assert("sampleType"@.len() == 10);
    assert("periodNanoseconds"@.len() == 17);
    assert("value"@.len() == 5);
    assert("unit"@.len() == 4);
    assert("stack"@.len() == 5);
    assert("correlation"@.len() == 11);
    assert("labels"@.len() == 6);
    assert("organisation"@.len() == 12);
    assert("application"@.len() == 11);
    assert("value"@[0] != "stack"@[0]);
    assert("correlation"@[0] != "application"@[0]);
    let p = pairs(labels@);
    let o = sample_json(e, base@, s@, sequence, p)->Object_0;
    lemma_reporter(o, e);
    lemma_correlation(s);
    let frames = frames_of(s@.stack);
    assert forall|i: int| 0 <= i < frames.len() implies tells_frame(
        #[trigger] frames[i],
        s.stack@[i],
    ) by {
        lemma_frame(s.stack@[i]);
        assert(s@.stack[i] == s.stack@[i]@);
    }
    let m = with_pairs(no_entries(), p);
    assert forall|i: int|
        0 <= i < labels@.len() && (forall|j: int|
            i < j < labels@.len() ==> (#[trigger] labels@[j]).0@ != labels@[i].0@) implies says(
        m,
        (#[trigger] labels@[i]).0@,
        labels@[i].1@,
    ) by {
        assert forall|j: int| i < j < p.len() implies (#[trigger] p[j]).0 != p[i].0 by {
            assert(p[j].0 == labels@[j].0@);
        }
        lemma_last_pair(no_entries(), p, i);
    }
}

/// A batch document tells its schema, its ids, how many samples it holds, and every
/// sample in order, numbered from the first number on.
pub proof fn law_a_batch_tells_every_sample(
    envelope: &CollectorEnvelope,
    samples: &Vec<Sample>,
    first_sequence: u64,
    labels: &Vec<(String, String)>,
    base: &str,
    ids: &BatchIds,
    r: String,
)
    requires
        call_ensures(serialise_batch, (envelope, samples, first_sequence, labels, base, ids), r),
        first_sequence + samples@.len() <= u64::MAX,
    ensures
        exists|m: Map<Seq<char>, Json>|
            #![trigger rendered(Json::Object(m))]
            r@ == rendered(Json::Object(m)) && says(
                m,
                "schema"@,
                "chronos.profiling.sample-batch.v1"@,
            ) && says(m, "sampleCount"@, decimal(samples@.len())) && m.contains_key("processing"@)
                && (m["processing"@] matches Json::Object(p) && says(
                p,
                "messageId"@,
                ids.message_id@,
            ) && says(p, "batchId"@, ids.batch_id@)) && m.contains_key("samples"@) && (
            m["samples"@] matches Json::List(list) && list.len() == samples@.len() && (forall|i: int|
                0 <= i < list.len() ==> #[trigger] list[i] == sample_json(
                    *envelope,
                    base@,
                    samples@[i]@,
                    (first_sequence + i) as nat,
                    pairs(labels@),
                ))),
{
    reveal_strlit("schema");
    reveal_strlit("processing");
    reveal_strlit("sampleCount");
    reveal_strlit("samples");
    reveal_strlit("messageId");
    reveal_strlit("batchId");
    reveal_strlit("chunk");
    assert("schema"@.len() == 6);
    assert("processing"@.len() == 10);
    assert("sampleCount"@.len() == 11);
    assert("samples"@.len() == 7);
    assert("messageId"@.len() == 9);
    assert("batchId"@.len() == 7);
    assert("chunk"@.len() == 5);
    assert("samples"@[0] != "batchId"@[0]);
    let m = batch_json(
        *envelope,
        base@,
        sample_views(samples@),
        first_sequence,
        pairs(labels@),
        ids.message_id@,
        ids.batch_id@,
    )->Object_0;
    assert(r@ == rendered(Json::Object(m)));
    let list = samples_of(
        *envelope,
        base@,
        sample_views(samples@),
        first_sequence,
        pairs(labels@),
    );
    assert(m["samples"@] == Json::List(list));
}

/// A flush writes every sample once and in order, numbered on from where the process
/// stood; the number after its last is where the next flush goes on.
pub proof fn law_a_flush_writes_every_sample_once(
    sequence: &mut u64,
    envelope: &CollectorEnvelope,
    samples: &Vec<Sample>,
    labels: &Vec<(String, String)>,
    base: &str,
    ids: &BatchIds,
    group: &str,
    budget_setting: Option<&str>,
    r: Vec<String>,
    max: usize,
)
    requires
        call_ensures(
            flush,
            (sequence, envelope, samples, labels, base, ids, group, budget_setting),
            r,
        ),
        call_ensures(max_body_bytes, (budget_setting,), max),
        *old(sequence) + samples@.len() <= u64::MAX,
    ensures
        *final(sequence) == *old(sequence) + samples@.len(),
        writes_every_sample(
            r@,
            *envelope,
            samples@,
            *old(sequence),
            labels@,
            base@,
            *ids,
            group@,
            max as nat,
        ),
{
    lemma_flushed(
        r@,
        *envelope,
        samples@,
        *old(sequence),
        labels@,
        base@,
        *ids,
        group@,
        max as nat,
    );
    assert(samples.len() == samples@.len());
}

/// The same of a flush within a given budget.
pub proof fn law_a_flush_within_a_budget_writes_every_sample_once(
    sequence: &mut u64,
    envelope: &CollectorEnvelope,
    samples: &Vec<Sample>,
    labels: &Vec<(String, String)>,
    base: &str,
    ids: &BatchIds,
    group: &str,
    max: usize,
    r: Vec<String>,
)
    requires
        call_ensures(
            flush_with_budget,
            (sequence, envelope, samples, labels, base, ids, group, max),
            r,
        ),
        *old(sequence) + samples@.len() <= u64::MAX,
    ensures
        *final(sequence) == *old(sequence) + samples@.len(),
        writes_every_sample(
            r@,
            *envelope,
            samples@,
            *old(sequence),
            labels@,
            base@,
            *ids,
            group@,
            max as nat,
        ),
{
    lemma_flushed(
        r@,
        *envelope,
        samples@,
        *old(sequence),
        labels@,
        base@,
        *ids,
        group@,
        max as nat,
    );
    assert(samples.len() == samples@.len());
}

/// Whether an object is a profile document's header: its schema and its ids.
pub open spec fn tells_profile_header(
    h: Map<Seq<char>, Json>,
    message_id: Seq<char>,
    batch_id: Seq<char>,
) -> bool {
    &&& says(h, "schema"@, "chronos.profiling.sample-batch.v1"@)
    &&& h.contains_key("processing"@)
    &&& h["processing"@] matches Json::Object(p)
    &&& says(p, "messageId"@, message_id)
    &&& says(p, "batchId"@, batch_id)
}

/// Whether documents hold samples in order, each once, numbered from the first
/// number on, and within a budget where one holds more than one sample.
pub open spec fn writes_every_sample(
    documents: Seq<String>,
    e: CollectorEnvelope,
    samples: Seq<Sample>,
    first: u64,
    labels: Seq<(String, String)>,
    base: Seq<char>,
    ids: BatchIds,
    group: Seq<char>,
    max: nat,
) -> bool {
    exists|
        header: Map<Seq<char>, Json>,
        items: Seq<Json>,
        starts: Seq<int>,
        maps: Seq<Map<Seq<char>, Json>>,
    |
        #![trigger holds_in_order(documents, header, "samples"@, Some("sampleCount"@), items, group, starts, maps)]
        tells_profile_header(header, ids.message_id@, ids.batch_id@) && holds_in_order(
            documents,
            header,
            "samples"@,
            Some("sampleCount"@),
            items,
            group,
            starts,
            maps,
        ) && items.len() == samples.len() && (forall|i: int|
            0 <= i < items.len() ==> #[trigger] items[i] == sample_json(
                e,
                base,
                samples[i]@,
                (first + i) as nat,
                pairs(labels),
            )) && (forall|i: int|
            0 <= i < documents.len() && starts[i + 1] - starts[i] > 1 ==> byte_len(
                (#[trigger] documents[i])@,
            ) <= max)
}

proof fn lemma_flushed(
    documents: Seq<String>,
    e: CollectorEnvelope,
    samples: Seq<Sample>,
    first: u64,
    labels: Seq<(String, String)>,
    base: Seq<char>,
    ids: BatchIds,
    group: Seq<char>,
    max: nat,
)
    requires
        first + samples.len() <= u64::MAX,
        ({
            let items = samples_of(e, base, sample_views(samples), first, pairs(labels));
            let counts = sample_counts(items, ids.message_id@, ids.batch_id@, group, max);
            &&& crate::text::texts(documents) == documents_of(
                items,
                ids.message_id@,
                ids.batch_id@,
                group,
                max,
            )
            &&& forall|i: int|
                0 <= i < documents.len() && counts[i] > 1 ==> byte_len((#[trigger] documents[i])@)
                    <= max
        }),
    ensures
        writes_every_sample(documents, e, samples, first, labels, base, ids, group, max),
{
    reveal_strlit("schema");
    reveal_strlit("processing");
    reveal_strlit("sampleCount");
    reveal_strlit("samples");
    reveal_strlit("messageId");
    reveal_strlit("batchId");
    reveal_strlit("chunk");
    assert("schema"@.len() == 6);
    assert("processing"@.len() == 10);
    assert("sampleCount"@.len() == 11);
    assert("samples"@.len() == 7);
    assert("messageId"@.len() == 9);
    assert("batchId"@.len() == 7);
    assert("chunk"@.len() == 5);
    assert("samples"@[0] != "batchId"@[0]);
    let items = samples_of(e, base, sample_views(samples), first, pairs(labels));
    let header = header_of(ids.message_id@, ids.batch_id@);
    let counted = Some("sampleCount"@);
    let lengths = document_lengths(header, "samples"@, counted, items, group, max);
    let d = documents_of(items, ids.message_id@, ids.batch_id@, group, max);
    assert(documents.len() == d.len());
    assert forall|i: int| 0 <= i < documents.len() implies (#[trigger] documents[i])@ == rendered(
        document_json(
            header,
            "samples"@,
            counted,
            chunk_of(items, lengths, i),
            group,
            i as nat,
            lengths.len(),
        ),
    ) by {
        assert(crate::text::texts(documents)[i] == d[i]);
    }
    lemma_written(documents, header, "samples"@, counted, items, group, max);
    let starts = starts_of(lengths);
    let maps = document_maps(header, "samples"@, counted, items, group, lengths);
    law_documents_hold_the_items_in_order(header, "samples"@, counted, items, group, max);
    lemma_cuts(lengths);
    assert forall|i: int| 0 <= i < documents.len() && starts[i + 1] - starts[i] > 1 implies byte_len(
        (#[trigger] documents[i])@,
    ) <= max by {
        assert(starts[i + 1] == starts[i] + lengths[i]);
    }
    assert(tells_profile_header(header, ids.message_id@, ids.batch_id@));
    assert(holds_in_order(
        documents,
        header,
        "samples"@,
        counted,
        items,
        group,
        starts,
        maps,
    ));
}

/// A profile document is framed under the signal `profile`.
pub proof fn law_profiles_are_framed_as_profiles(
    log: &mut SpoolLog,
    body: &str,
    r: Result<Vec<u8>, bool>,
    twin: &mut SpoolLog,
    s: Result<Vec<u8>, bool>,
)
    requires
        old(log).wf(),
        *old(twin) == *old(log),
        call_ensures(write_atomic, (log, body), r),
        call_ensures(crate::spool_common::write_atomic, (twin, body, "profile"), s),
    ensures
        r is Ok <==> s is Ok,
        r matches Ok(bytes) ==> bytes@ == s->Ok_0@ && *final(log) == *old(log),
        r matches Err(announce) ==> {
            &&& announce == s->Err_0
            &&& final(log).announced@ == final(twin).announced@
            &&& final(log).dropped_frames == final(twin).dropped_frames
            &&& final(log).dropped_bytes == final(twin).dropped_bytes
        },
{
}

} // verus!
