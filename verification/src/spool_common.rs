//! What the spools share: the identity in every document, content addresses,
//! byte budgets, and packing items into documents that fit.

use crate::context::CollectorEnvelope;
use crate::json::{
    contents, copy_object, entries_bytes, flat_sized, insert, item_size, items_bytes,
    lemma_entries_bytes, list_value, new_object, no_entries, object_sized, object_value, plain,
    plain_char, rendered, text_sized, text_value, tree, trees, value_text, Json,
};
use crate::spool_log::{begin_append, frame_of, slot_of, IoKind, SpoolLog, MAX_FRAME_PAYLOAD_BYTES};
use crate::text::{
    byte_len, bytes_of, copy, decimal, decimal_text, fitting, lemma_decimal_len, opt_view,
    parse_unsigned, parsed, text_bytes, trim, trimmed,
};
use vstd::prelude::*;
use vstd::utf8::encode_utf8;

verus! {

/// The SHA-256 of some bytes.
pub uninterp spec fn sha256(bytes: Seq<u8>) -> Seq<u8>;

/// `sha2::Sha256::digest`: 32 bytes, the same for the same input.
#[verifier::external_body]
fn sha256_digest(bytes: &[u8]) -> (r: Vec<u8>)
    ensures
        r@ == sha256(bytes@),
        r@.len() == 32,
{
    <sha2::Sha256 as sha2::Digest>::digest(bytes).to_vec()
}

/// A hexadecimal digit, lower case.
pub open spec fn hex_digit(d: nat) -> char {
    if d < 10 {
        ((48 + d) as u32) as char
    } else {
        ((87 + d) as u32) as char
    }
}

/// Bytes in hexadecimal, two digits each.
pub open spec fn hex(bytes: Seq<u8>) -> Seq<char>
    decreases bytes.len(),
{
    if bytes.len() == 0 {
        Seq::empty()
    } else {
        hex(bytes.drop_last()).push(hex_digit((bytes.last() / 16) as nat)).push(
            hex_digit((bytes.last() % 16) as nat),
        )
    }
}

fn hex_char(d: u8) -> (r: char)
    requires
        d < 16,
    ensures
        r == hex_digit(d as nat),
{
    if d < 10 {
        (48 + d) as char
    } else {
        (87 + d) as char
    }
}

/// Bytes in hexadecimal.
pub fn hex_text(bytes: &[u8]) -> (r: String)
    ensures
        r@ == hex(bytes@),
{
    let mut out = String::new();
    let mut i: usize = 0;
    assert(bytes@.take(0) =~= Seq::empty());
    while i < bytes.len()
        invariant
            i <= bytes@.len(),
            out@ == hex(bytes@.take(i as int)),
        decreases bytes@.len() - i,
    {
        let b: u8 = bytes[i];
        out.push(hex_char(b / 16));
        out.push(hex_char(b % 16));
        assert(bytes@.take(i + 1).drop_last() =~= bytes@.take(i as int));
        assert(bytes@.take(i + 1).last() == b);
        i = i + 1;
    }
    assert(bytes@.take(bytes@.len() as int) =~= bytes@);
    out
}

/// The content address of a document: its SHA-256 in hexadecimal.
pub fn hex_digest(body: &str) -> (r: String)
    ensures
        r@ == hex(sha256(encode_utf8(body@))),
        r@.len() == 64,
{
    let bytes = bytes_of(body);
    let digest = sha256_digest(bytes.as_slice());
    proof {
        law_hex_has_two_digits_per_byte(digest@);
    }
    hex_text(digest.as_slice())
}

/// A hexadecimal text has two characters per byte.
pub proof fn law_hex_has_two_digits_per_byte(bytes: Seq<u8>)
    ensures
        hex(bytes).len() == 2 * bytes.len(),
    decreases bytes.len(),
{
    if bytes.len() > 0 {
        law_hex_has_two_digits_per_byte(bytes.drop_last());
    }
}

/// A hexadecimal text needs no escape in JSON.
pub proof fn law_hex_is_plain(bytes: Seq<u8>)
    ensures
        plain(hex(bytes)),
    decreases bytes.len(),
{
    if bytes.len() > 0 {
        let init = hex(bytes.drop_last());
        law_hex_is_plain(bytes.drop_last());
        assert forall|i: int| 0 <= i < hex(bytes).len() implies plain_char(
            #[trigger] hex(bytes)[i],
        ) by {
            if i < init.len() {
                assert(hex(bytes)[i] == init[i]);
            }
        }
    }
}

/// The organisation in a document.
pub open spec fn organisation_json(organisation_id: Seq<char>) -> Json {
    Json::Object(no_entries().insert("organisationId"@, Json::Text(organisation_id)))
}

/// Who is reporting, in every document.
pub open spec fn identity_of(e: CollectorEnvelope) -> Map<Seq<char>, Json> {
    let project = no_entries().insert(
        "organisation"@,
        organisation_json(e.organisation_id@),
    ).insert("projectId"@, Json::Text(e.project_id@));
    let application = no_entries().insert("project"@, Json::Object(project)).insert(
        "applicationId"@,
        Json::Text(e.application_id@),
    );
    no_entries().insert("organisation"@, organisation_json(e.organisation_id@)).insert(
        "application"@,
        Json::Object(application),
    )
}

fn organisation_value(organisation_id: &str) -> (r: serde_json::Value)
    ensures
        tree(r) == organisation_json(organisation_id@),
{
    let mut o = new_object();
    insert(&mut o, "organisationId", text_value(organisation_id));
    object_value(o)
}

/// Who is reporting, in every document.
pub fn identity_envelope(envelope: &CollectorEnvelope) -> (r: serde_json::Map<
    String,
    serde_json::Value,
>)
    ensures
        contents(r) == identity_of(*envelope),
{
    let mut project = new_object();
    insert(
        &mut project,
        "organisation",
        organisation_value(envelope.organisation_id.as_str()),
    );
    insert(&mut project, "projectId", text_value(envelope.project_id.as_str()));
    let mut application = new_object();
    insert(&mut application, "project", object_value(project));
    insert(&mut application, "applicationId", text_value(envelope.application_id.as_str()));
    let mut identity = new_object();
    insert(
        &mut identity,
        "organisation",
        organisation_value(envelope.organisation_id.as_str()),
    );
    insert(&mut identity, "application", object_value(application));
    identity
}

/// The byte budget of a document unless a setting says otherwise.
pub const DEFAULT_MAX_BODY_BYTES: usize = 921600;

/// Truncate to at most `max_bytes` without splitting a character.
pub fn cap(value: &str, max_bytes: usize) -> (r: String)
    ensures
        r@ == fitting(value@, max_bytes as nat),
{
    crate::text::cap(value, max_bytes)
}

/// The byte budget that a setting asks for: a positive number, else the default.
pub open spec fn body_budget(setting: Option<&str>) -> nat {
    match setting {
        Some(text) => match parsed(trimmed(text@), usize::MAX as nat) {
            Some(n) => if n > 0 {
                n
            } else {
                DEFAULT_MAX_BODY_BYTES as nat
            },
            None => DEFAULT_MAX_BODY_BYTES as nat,
        },
        None => DEFAULT_MAX_BODY_BYTES as nat,
    }
}

/// The byte budget of a document.
pub fn max_body_bytes(setting: Option<&str>) -> (r: usize)
    ensures
        r == body_budget(setting),
        r > 0,
{
    match setting {
        Some(text) => {
            let t = trim(text);
            match parse_unsigned(t.as_str(), usize::MAX as u128) {
                Some(n) => if n > 0 {
                    n as usize
                } else {
                    DEFAULT_MAX_BODY_BYTES
                },
                None => DEFAULT_MAX_BODY_BYTES,
            }
        },
        None => DEFAULT_MAX_BODY_BYTES,
    }
}

/// How far packing has come: the sizes of the chunks that are closed, and how
/// many items and bytes the open one holds.
pub struct Packing {
    pub closed: Seq<nat>,
    pub items: nat,
    pub bytes: nat,
}

/// One more item: into the open chunk if it fits or is the first, else into a
/// new one.
pub open spec fn packed_one(p: Packing, size: nat, budget: nat) -> Packing {
    if p.items > 0 && p.bytes + size > budget {
        Packing { closed: p.closed.push(p.items), items: 1, bytes: size }
    } else {
        Packing { closed: p.closed, items: p.items + 1, bytes: p.bytes + size }
    }
}

/// Packing items of the given sizes, in order.
pub open spec fn packed(sizes: Seq<nat>, budget: nat) -> Packing
    decreases sizes.len(),
{
    if sizes.len() == 0 {
        Packing { closed: Seq::empty(), items: 0, bytes: 0 }
    } else {
        packed_one(packed(sizes.drop_last(), budget), sizes.last(), budget)
    }
}

/// How many items each chunk holds.
pub open spec fn chunk_lengths(sizes: Seq<nat>, budget: nat) -> Seq<nat> {
    let p = packed(sizes, budget);
    if p.items > 0 {
        p.closed.push(p.items)
    } else {
        p.closed
    }
}

/// The sum of numbers.
pub open spec fn sum(s: Seq<nat>) -> nat
    decreases s.len(),
{
    if s.len() == 0 {
        0
    } else {
        sum(s.drop_last()) + s.last()
    }
}

proof fn lemma_sum_push(s: Seq<nat>, n: nat)
    ensures
        sum(s.push(n)) == sum(s) + n,
{
    assert(s.push(n).drop_last() =~= s);
}

proof fn lemma_sum_split(s: Seq<nat>, k: int)
    requires
        0 <= k <= s.len(),
    ensures
        sum(s) == sum(s.take(k)) + sum(s.skip(k)),
    decreases s.len() - k,
{
    if k == s.len() {
        assert(s.take(k) =~= s);
        assert(s.skip(k) =~= Seq::empty());
    } else {
        let t = s.drop_last();
        lemma_sum_split(t, k);
        assert(t.take(k) =~= s.take(k));
        assert(s.skip(k).drop_last() =~= t.skip(k));
        assert(s.skip(k).last() == s.last());
    }
}

/// Where a chunk begins among the items.
pub open spec fn chunk_start(lengths: Seq<nat>, i: int) -> int {
    sum(lengths.take(i)) as int
}

/// The sizes of one chunk's items.
pub open spec fn chunk_sizes(sizes: Seq<nat>, lengths: Seq<nat>, i: int) -> Seq<nat> {
    sizes.subrange(chunk_start(lengths, i), chunk_start(lengths, i) + lengths[i])
}

/// Whether a chunk keeps to the budget: it fits, or it is a single item that
/// would fit in none.
pub open spec fn within(sizes: Seq<nat>, budget: nat) -> bool {
    sum(sizes) <= budget || sizes.len() == 1
}

proof fn lemma_packed(sizes: Seq<nat>, budget: nat)
    ensures
        ({
            let p = packed(sizes, budget);
            &&& sum(p.closed) + p.items == sizes.len()
            &&& p.bytes == sum(sizes.skip(sum(p.closed) as int))
            &&& sizes.len() > 0 ==> p.items > 0
            &&& p.items > 0 ==> within(sizes.skip(sum(p.closed) as int), budget)
            &&& forall|i: int|
                0 <= i < p.closed.len() ==> (#[trigger] p.closed[i]) > 0 && within(
                    chunk_sizes(sizes, p.closed, i),
                    budget,
                )
            &&& forall|i: int|
                0 <= i < p.closed.len() ==> chunk_start(p.closed, i) + (#[trigger] p.closed[i])
                    <= sizes.len()
        }),
    decreases sizes.len(),
{
    let p = packed(sizes, budget);
    if sizes.len() == 0 {
        assert(sizes.skip(0) =~= sizes);
    } else {
        let init = sizes.drop_last();
        let size = sizes.last();
        let q = packed(init, budget);
        lemma_packed(init, budget);
        let start = sum(q.closed) as int;
        assert(sizes.skip(start).drop_last() =~= init.skip(start));
        lemma_sum_push(init.skip(start), size);
        assert(sizes.skip(start) =~= init.skip(start).push(size));
        assert forall|i: int| 0 <= i < q.closed.len() implies within(
            chunk_sizes(sizes, q.closed, i),
            budget,
        ) && chunk_start(q.closed, i) + (#[trigger] q.closed[i]) <= sizes.len() by {
            assert(chunk_start(q.closed, i) + q.closed[i] <= init.len());
            assert(chunk_sizes(sizes, q.closed, i) =~= chunk_sizes(init, q.closed, i));
        }
        if q.items > 0 && q.bytes + size > budget {
            lemma_sum_push(q.closed, q.items);
            assert(sum(p.closed) == init.len());
            assert(sizes.skip(init.len() as int) =~= seq![size]);
            lemma_sum_push(Seq::empty(), size);
            assert(Seq::<nat>::empty().push(size) =~= seq![size]);
            assert forall|i: int| 0 <= i < p.closed.len() implies (#[trigger] p.closed[i]) > 0
                && within(chunk_sizes(sizes, p.closed, i), budget) && chunk_start(p.closed, i)
                + p.closed[i] <= sizes.len() by {
                assert(p.closed.take(i) =~= q.closed.take(i));
                if i < q.closed.len() {
                    assert(p.closed[i] == q.closed[i]);
                    assert(chunk_sizes(sizes, p.closed, i) =~= chunk_sizes(sizes, q.closed, i));
                } else {
                    assert(q.closed.take(i) =~= q.closed);
                    assert(chunk_sizes(sizes, p.closed, i) =~= init.skip(start));
                }
            }
        } else {
            assert(p.closed == q.closed);
            if q.items == 0 {
                assert(sizes.skip(start) =~= seq![size]);
            }
        }
    }
}

/// Packing loses nothing and puts nothing twice: the chunks are the items in
/// order, none is empty, and each fits the budget unless it is one item alone.
pub proof fn law_chunks_are_the_items_in_order(sizes: Seq<nat>, budget: nat)
    ensures
        sum(chunk_lengths(sizes, budget)) == sizes.len(),
        forall|i: int|
            0 <= i < chunk_lengths(sizes, budget).len() ==> {
                &&& (#[trigger] chunk_lengths(sizes, budget)[i]) > 0
                &&& within(chunk_sizes(sizes, chunk_lengths(sizes, budget), i), budget)
            },
{
    lemma_packed(sizes, budget);
    let p = packed(sizes, budget);
    let lengths = chunk_lengths(sizes, budget);
    if p.items > 0 {
        lemma_sum_push(p.closed, p.items);
        assert forall|i: int| 0 <= i < lengths.len() implies (#[trigger] lengths[i]) > 0 && within(
            chunk_sizes(sizes, lengths, i),
            budget,
        ) by {
            assert(lengths.take(i) =~= p.closed.take(i));
            if i < p.closed.len() {
                assert(lengths[i] == p.closed[i]);
                assert(chunk_sizes(sizes, lengths, i) =~= chunk_sizes(sizes, p.closed, i));
            } else {
                assert(p.closed.take(i) =~= p.closed);
                assert(chunk_sizes(sizes, lengths, i) =~= sizes.skip(sum(p.closed) as int));
            }
        }
    } else {
        assert(sizes.len() == 0);
    }
}

/// Numbers as spec numbers.
pub open spec fn nats(v: Seq<u128>) -> Seq<nat> {
    Seq::new(v.len(), |i: int| v[i] as nat)
}

/// Lengths as spec numbers.
pub open spec fn lens(v: Seq<usize>) -> Seq<nat> {
    Seq::new(v.len(), |i: int| v[i] as nat)
}

/// Pack items of the given sizes into chunks of at most `budget` bytes: how many
/// items go into each.
pub fn pack(sizes: &Vec<u128>, budget: usize) -> (r: Vec<usize>)
    ensures
        lens(r@) == chunk_lengths(nats(sizes@), budget as nat),
{
    let ghost all = nats(sizes@);
    let mut closed: Vec<usize> = Vec::new();
    let mut items: usize = 0;
    let mut bytes: u128 = 0;
    let mut over = false;
    let mut i: usize = 0;
    assert(all.take(0) =~= Seq::empty());
    assert(lens(closed@) =~= packed(all.take(0), budget as nat).closed);
    while i < sizes.len()
        invariant
            i <= sizes@.len(),
            all == nats(sizes@),
            items <= i,
            ({
                let p = packed(all.take(i as int), budget as nat);
                &&& lens(closed@) == p.closed
                &&& items == p.items
                &&& over ==> p.bytes > budget
                &&& !over ==> p.bytes == bytes && bytes <= budget
            }),
        decreases sizes@.len() - i,
    {
        proof {
            assert(all.take(i + 1).drop_last() =~= all.take(i as int));
            assert(all.take(i + 1).last() == sizes@[i as int] as nat);
        }
        let size: u128 = sizes[i];
        let ghost before = lens(closed@);
        let full = over || size > (budget as u128) - bytes;
        if items > 0 && full {
            let ghost n = items as nat;
            closed.push(items);
            assert(lens(closed@) =~= before.push(n));
            items = 1;
            over = size > budget as u128;
            if !over {
                bytes = size;
            }
        } else {
            if over || size > (budget as u128) - bytes {
                over = true;
            } else {
                bytes = bytes + size;
            }
            items = items + 1;
        }
        i = i + 1;
    }
    assert(all.take(all.len() as int) =~= all);
    if items > 0 {
        let ghost before = lens(closed@);
        let ghost n = items as nat;
        closed.push(items);
        assert(lens(closed@) =~= before.push(n));
    }
    closed
}

/// Where a document stands in its group.
pub open spec fn place_json(group: Seq<char>, index: nat, total: nat) -> Json {
    Json::Object(
        no_entries().insert("groupId"@, Json::Text(group)).insert(
            "index"@,
            Json::Text(decimal(index)),
        ).insert("count"@, Json::Text(decimal(total))),
    )
}

/// What a document holds: a header, its items, and a count where it is wanted.
pub open spec fn items_map(
    header: Map<Seq<char>, Json>,
    items_key: Seq<char>,
    count_key: Option<Seq<char>>,
    items: Seq<Json>,
    count: nat,
) -> Map<Seq<char>, Json> {
    let m = header.insert(items_key, Json::List(items));
    match count_key {
        Some(key) => m.insert(key, Json::Text(decimal(count))),
        None => m,
    }
}

/// A document that gives a count: a header, its items, that count where it is
/// wanted, and where it stands in a group when it is not alone.
pub open spec fn counted_map(
    header: Map<Seq<char>, Json>,
    items_key: Seq<char>,
    count_key: Option<Seq<char>>,
    items: Seq<Json>,
    count: nat,
    group: Seq<char>,
    index: nat,
    total: nat,
) -> Map<Seq<char>, Json> {
    let m = items_map(header, items_key, count_key, items, count);
    if total > 1 {
        m.insert("chunk"@, place_json(group, index, total))
    } else {
        m
    }
}

/// A document: a header, its items, their count where it is wanted, and where
/// it stands in a group when it is not alone.
pub open spec fn document_json(
    header: Map<Seq<char>, Json>,
    items_key: Seq<char>,
    count_key: Option<Seq<char>>,
    items: Seq<Json>,
    group: Seq<char>,
    index: nat,
    total: nat,
) -> Json {
    Json::Object(
        counted_map(header, items_key, count_key, items, items.len(), group, index, total),
    )
}

fn document(
    header: &serde_json::Map<String, serde_json::Value>,
    items_key: &str,
    count_key: Option<&str>,
    items: Vec<serde_json::Value>,
    count: usize,
    group: &str,
    index: usize,
    total: usize,
) -> (r: String)
    ensures
        ({
            let j = Json::Object(
                counted_map(
                    contents(*header),
                    items_key@,
                    opt_view(count_key),
                    trees(items@),
                    count as nat,
                    group@,
                    index as nat,
                    total as nat,
                ),
            );
            r@ == rendered(j) && object_sized(j)
        }),
{
    let mut object = copy_object(header);
    insert(&mut object, items_key, list_value(items));
    match count_key {
        Some(key) => {
            let text = decimal_text(count as u128);
            insert(&mut object, key, text_value(text.as_str()));
        },
        None => {},
    }
    if total > 1 {
        let mut chunk = new_object();
        insert(&mut chunk, "groupId", text_value(group));
        let at = decimal_text(index as u128);
        insert(&mut chunk, "index", text_value(at.as_str()));
        let of = decimal_text(total as u128);
        insert(&mut chunk, "count", text_value(of.as_str()));
        insert(&mut object, "chunk", object_value(chunk));
    }
    let v = object_value(object);
    value_text(&v)
}

/// The sizes of a list of items.
pub open spec fn item_sizes(items: Seq<Json>) -> Seq<nat> {
    Seq::new(items.len(), |i: int| item_size(items[i]))
}

/// How many bytes a document takes beside its items, when `count` items are
/// counted and spread over `total` documents: no document of theirs has a wider
/// count, nor a wider place in the group.
pub open spec fn overhead(
    header: Map<Seq<char>, Json>,
    items_key: Seq<char>,
    count_key: Option<Seq<char>>,
    count: nat,
    group: Seq<char>,
    total: nat,
) -> nat {
    byte_len(
        rendered(
            Json::Object(
                counted_map(
                    header,
                    items_key,
                    count_key,
                    Seq::empty(),
                    count,
                    group,
                    total,
                    total,
                ),
            ),
        ),
    )
}

/// How many bytes are kept free of items in every document, whether it stands
/// alone or in a group.
pub open spec fn reserve(
    header: Map<Seq<char>, Json>,
    items_key: Seq<char>,
    count_key: Option<Seq<char>>,
    count: nat,
    group: Seq<char>,
) -> nat {
    let alone = overhead(header, items_key, count_key, count, group, 1);
    let grouped = overhead(header, items_key, count_key, count, group, count);
    if alone > grouped {
        alone
    } else {
        grouped
    }
}

/// What is left of the budget for items, at least one byte.
pub open spec fn room(max: nat, taken: nat) -> nat {
    if max > taken + 1 {
        (max - taken) as nat
    } else {
        1
    }
}

/// How many items each document holds: all in one when they fit, else as many
/// as fit beside the document's place in its group.
pub open spec fn document_lengths(
    header: Map<Seq<char>, Json>,
    items_key: Seq<char>,
    count_key: Option<Seq<char>>,
    items: Seq<Json>,
    group: Seq<char>,
    max: nat,
) -> Seq<nat> {
    let sizes = item_sizes(items);
    let alone = overhead(header, items_key, count_key, items.len(), group, 1);
    let whole = chunk_lengths(sizes, room(max, alone));
    if whole.len() <= 1 {
        whole
    } else {
        chunk_lengths(
            sizes,
            room(max, reserve(header, items_key, count_key, items.len(), group)),
        )
    }
}

/// The chunks of a list of items.
pub open spec fn chunk_of(items: Seq<Json>, lengths: Seq<nat>, i: int) -> Seq<Json> {
    items.subrange(chunk_start(lengths, i), chunk_start(lengths, i) + lengths[i])
}

/// No item is lost or written twice: the documents hold the items in order, and
/// none of them is empty.
pub proof fn law_documents_hold_the_items_in_order(
    header: Map<Seq<char>, Json>,
    items_key: Seq<char>,
    count_key: Option<Seq<char>>,
    items: Seq<Json>,
    group: Seq<char>,
    max: nat,
)
    ensures
        ({
            let lengths = document_lengths(header, items_key, count_key, items, group, max);
            &&& sum(lengths) == items.len()
            &&& lengths.len() <= items.len()
            &&& forall|i: int| 0 <= i < lengths.len() ==> (#[trigger] lengths[i]) > 0
        }),
{
    let sizes = item_sizes(items);
    let alone = overhead(header, items_key, count_key, items.len(), group, 1);
    let grouped = reserve(header, items_key, count_key, items.len(), group);
    law_chunks_are_the_items_in_order(sizes, room(max, alone));
    law_chunks_are_the_items_in_order(sizes, room(max, grouped));
    lemma_sum_at_least(document_lengths(header, items_key, count_key, items, group, max));
}

proof fn lemma_sum_at_least(s: Seq<nat>)
    requires
        forall|i: int| 0 <= i < s.len() ==> (#[trigger] s[i]) > 0,
    ensures
        sum(s) >= s.len(),
    decreases s.len(),
{
    if s.len() > 0 {
        lemma_sum_at_least(s.drop_last());
    }
}

/// Entries that are no larger than others take no more bytes, but for what the
/// one under a key has over.
proof fn lemma_entries_no_larger(
    m: Map<Seq<char>, Json>,
    b: Map<Seq<char>, Json>,
    key: Seq<char>,
    over: nat,
)
    requires
        m.dom().finite(),
        m.dom() == b.dom(),
        forall|k: Seq<char>| #[trigger]
            m.contains_key(k) && k != key ==> byte_len(rendered(m[k])) <= byte_len(rendered(b[k])),
        m.contains_key(key) ==> byte_len(rendered(m[key])) <= byte_len(rendered(b[key])) + over,
    ensures
        entries_bytes(m) <= entries_bytes(b) + over,
    decreases m.dom().len(),
{
    if m.dom().len() == 0 {
        reveal(entries_bytes);
    } else {
        let k = m.dom().choose();
        assert(m.contains_key(k) && b.contains_key(k));
        lemma_entries_bytes(m, k);
        lemma_entries_bytes(b, k);
        assert(m.remove(k).dom() =~= b.remove(k).dom());
        assert forall|q: Seq<char>| #[trigger]
            m.remove(k).contains_key(q) && q != key implies byte_len(rendered(m.remove(k)[q]))
            <= byte_len(rendered(b.remove(k)[q])) by {
            assert(m.contains_key(q));
        }
        if k == key {
            lemma_entries_no_larger(m.remove(k), b.remove(k), key, 0);
        } else {
            lemma_entries_no_larger(m.remove(k), b.remove(k), key, over);
        }
    }
}

proof fn lemma_decimal_plain(n: nat)
    ensures
        plain(decimal(n)),
    decreases n,
{
    if n >= 10 {
        lemma_decimal_plain(n / 10);
        assert forall|i: int| 0 <= i < decimal(n).len() implies plain_char(
            #[trigger] decimal(n)[i],
        ) by {
            if i < decimal(n / 10).len() {
                assert(decimal(n)[i] == decimal(n / 10)[i]);
            }
        }
    }
}

proof fn lemma_number_no_larger(a: nat, b: nat)
    requires
        a <= b,
        text_sized(Json::Text(decimal(a))),
        text_sized(Json::Text(decimal(b))),
    ensures
        byte_len(rendered(Json::Text(decimal(a)))) <= byte_len(rendered(Json::Text(decimal(b)))),
{
    lemma_decimal_plain(a);
    lemma_decimal_plain(b);
    lemma_decimal_len(a, b);
}

proof fn lemma_place_no_larger(group: Seq<char>, index: nat, total: nat, most: nat)
    requires
        index <= most,
        total <= most,
        flat_sized(place_json(group, index, total)),
        flat_sized(place_json(group, most, most)),
    ensures
        byte_len(rendered(place_json(group, index, total))) <= byte_len(
            rendered(place_json(group, most, most)),
        ),
{
    let p = place_json(group, index, total)->Object_0;
    let q = place_json(group, most, most)->Object_0;
    reveal_strlit("groupId");
    reveal_strlit("index");
    reveal_strlit("count");
    assert("groupId"@.len() == 7);
    assert("index"@[0] == 'i');
    assert("count"@[0] == 'c');
    assert(p.dom() =~= q.dom());
    assert(p.contains_key("index"@) && q.contains_key("index"@));
    assert(p.contains_key("count"@) && q.contains_key("count"@));
    lemma_number_no_larger(index, most);
    lemma_number_no_larger(total, most);
    lemma_entries_no_larger(p, q, "groupId"@, 0);
}

proof fn lemma_document_bytes(
    header: Map<Seq<char>, Json>,
    items_key: Seq<char>,
    count_key: Option<Seq<char>>,
    items: Seq<Json>,
    group: Seq<char>,
    index: nat,
    total: nat,
    count: nat,
    most: nat,
)
    requires
        0 < items.len() <= count,
        index <= most,
        total <= most,
        total > 1 <==> most > 1,
        object_sized(document_json(header, items_key, count_key, items, group, index, total)),
        object_sized(
            Json::Object(
                counted_map(header, items_key, count_key, Seq::empty(), count, group, most, most),
            ),
        ),
    ensures
        byte_len(
            rendered(document_json(header, items_key, count_key, items, group, index, total)),
        ) < overhead(header, items_key, count_key, count, group, most) + items_bytes(items),
{
    let none = Seq::<Json>::empty();
    let m = counted_map(header, items_key, count_key, items, items.len(), group, index, total);
    let b = counted_map(header, items_key, count_key, none, count, group, most, most);
    let chunk = "chunk"@;
    assert(items_bytes(items) == items_bytes(items.drop_last()) + item_size(items.last()));
    assert(items_bytes(none) == 0);
    assert(m.dom() =~= b.dom());
    assert(m.contains_key(items_key) && b.contains_key(items_key));
    if total > 1 {
        assert(m.contains_key(chunk) && b.contains_key(chunk));
        lemma_place_no_larger(group, index, total, most);
    }
    if let Some(c) = count_key {
        assert(m.contains_key(c) && b.contains_key(c));
        if !(total > 1 && c == chunk) {
            lemma_number_no_larger(items.len(), count);
        }
    }
    lemma_entries_no_larger(m, b, items_key, (items_bytes(items) - 1) as nat);
    lemma_entries_bytes(m, items_key);
    lemma_entries_bytes(b, items_key);
}

proof fn lemma_items_bytes(items: Seq<Json>)
    ensures
        items_bytes(items) == sum(item_sizes(items)),
        items_bytes(items) >= items.len(),
    decreases items.len(),
{
    if items.len() > 0 {
        lemma_items_bytes(items.drop_last());
        assert(item_sizes(items).drop_last() =~= item_sizes(items.drop_last()));
    } else {
        assert(item_sizes(items) =~= Seq::empty());
    }
}

proof fn lemma_document_fits(
    header: Map<Seq<char>, Json>,
    items_key: Seq<char>,
    count_key: Option<Seq<char>>,
    items: Seq<Json>,
    group: Seq<char>,
    max: nat,
    i: int,
)
    requires
        ({
            let n = items.len();
            let lengths = document_lengths(header, items_key, count_key, items, group, max);
            &&& 0 <= i < lengths.len()
            &&& object_sized(
                document_json(
                    header,
                    items_key,
                    count_key,
                    chunk_of(items, lengths, i),
                    group,
                    i as nat,
                    lengths.len(),
                ),
            )
            &&& object_sized(
                Json::Object(
                    counted_map(header, items_key, count_key, Seq::empty(), n, group, 1, 1),
                ),
            )
            &&& object_sized(
                Json::Object(
                    counted_map(header, items_key, count_key, Seq::empty(), n, group, n, n),
                ),
            )
            &&& lengths[i] > 1 || roomy(
                chunk_sizes(item_sizes(items), lengths, i),
                reserve(header, items_key, count_key, n, group),
                max,
            )
        }),
    ensures
        ({
            let lengths = document_lengths(header, items_key, count_key, items, group, max);
            byte_len(
                rendered(
                    document_json(
                        header,
                        items_key,
                        count_key,
                        chunk_of(items, lengths, i),
                        group,
                        i as nat,
                        lengths.len(),
                    ),
                ),
            ) <= max
        }),
{
    let n = items.len();
    let sizes = item_sizes(items);
    let lengths = document_lengths(header, items_key, count_key, items, group, max);
    let chunk = chunk_of(items, lengths, i);
    let alone = overhead(header, items_key, count_key, n, group, 1);
    law_chunks_are_the_items_in_order(sizes, room(max, alone));
    law_chunks_are_the_items_in_order(
        sizes,
        room(max, reserve(header, items_key, count_key, n, group)),
    );
    law_documents_hold_the_items_in_order(header, items_key, count_key, items, group, max);
    lemma_sum_split(lengths, i + 1);
    assert(lengths.take(i + 1).drop_last() =~= lengths.take(i));
    assert(item_sizes(chunk) =~= chunk_sizes(sizes, lengths, i));
    lemma_items_bytes(chunk);
    let most: nat = if lengths.len() > 1 {
        n
    } else {
        1
    };
    lemma_document_bytes(
        header,
        items_key,
        count_key,
        chunk,
        group,
        i as nat,
        lengths.len(),
        n,
        most,
    );
}

fn room_for_items(max: usize, taken: usize) -> (r: usize)
    ensures
        r == room(max as nat, taken as nat),
{
    let left: usize = max.saturating_sub(taken);
    if left > 1 {
        left
    } else {
        1
    }
}

/// Whether what a document holds beside its items leaves room for them.
pub open spec fn roomy(sizes: Seq<nat>, taken: nat, max: nat) -> bool {
    sum(sizes) + taken <= max
}

/// The documents that items make, packed by their size: the header repeated in
/// every one, so that each can be read alone. Every document is within the
/// budget, unless it holds a single item that is over it.
pub fn write_chunked(
    header: &serde_json::Map<String, serde_json::Value>,
    items_key: &str,
    count_key: Option<&str>,
    items: Vec<serde_json::Value>,
    max_body_bytes: usize,
    group: &str,
) -> (r: Vec<String>)
    ensures
        ({
            let all = trees(items@);
            let lengths = document_lengths(
                contents(*header),
                items_key@,
                opt_view(count_key),
                all,
                group@,
                max_body_bytes as nat,
            );
            &&& r@.len() == lengths.len()
            &&& forall|i: int|
                0 <= i < r@.len() ==> (#[trigger] r@[i])@ == rendered(
                    document_json(
                        contents(*header),
                        items_key@,
                        opt_view(count_key),
                        chunk_of(all, lengths, i),
                        group@,
                        i as nat,
                        lengths.len(),
                    ),
                )
            &&& forall|i: int|
                0 <= i < r@.len() && (lengths[i] > 1 || roomy(
                    chunk_sizes(item_sizes(all), lengths, i),
                    reserve(
                        contents(*header),
                        items_key@,
                        opt_view(count_key),
                        all.len(),
                        group@,
                    ),
                    max_body_bytes as nat,
                )) ==> byte_len((#[trigger] r@[i])@) <= max_body_bytes
        }),
{
    let ghost all = trees(items@);
    let ghost head = contents(*header);
    let ghost key = items_key@;
    let ghost counted = opt_view(count_key);
    let n: usize = items.len();
    let empty: Vec<serde_json::Value> = Vec::new();
    let blank: Vec<serde_json::Value> = Vec::new();
    assert(trees(empty@) =~= Seq::empty());
    assert(trees(blank@) =~= Seq::empty());
    let bare = document(header, items_key, count_key, empty, n, group, 1, 1);
    let placed = document(header, items_key, count_key, blank, n, group, n, n);
    let alone: usize = text_bytes(bare.as_str());
    let grouped: usize = text_bytes(placed.as_str());
    let taken: usize = if alone > grouped {
        alone
    } else {
        grouped
    };
    let mut sizes: Vec<u128> = Vec::new();
    let mut k: usize = 0;
    while k < items.len()
        invariant
            k <= items@.len(),
            sizes@.len() == k,
            all == trees(items@),
            forall|j: int| 0 <= j < k ==> (#[trigger] sizes@[j]) as nat == item_size(all[j]),
        decreases items@.len() - k,
    {
        let text = value_text(&items[k]);
        let n: usize = text_bytes(text.as_str());
        sizes.push((n as u128) + 1);
        k = k + 1;
    }
    assert(nats(sizes@) =~= item_sizes(all));
    let mut lengths = pack(&sizes, room_for_items(max_body_bytes, alone));
    if lengths.len() > 1 {
        lengths = pack(&sizes, room_for_items(max_body_bytes, taken));
    }
    let ghost counts = lens(lengths@);
    assert(counts == document_lengths(head, key, counted, all, group@, max_body_bytes as nat));
    proof {
        law_documents_hold_the_items_in_order(
            head,
            key,
            counted,
            all,
            group@,
            max_body_bytes as nat,
        );
    }
    let total: usize = lengths.len();
    let mut rest = items;
    let mut out: Vec<String> = Vec::new();
    let mut i: usize = 0;
    assert(counts.take(0) =~= Seq::empty());
    assert(all.skip(0) =~= all);
    while i < total
        invariant
            i <= total,
            total == lengths@.len(),
            counts == lens(lengths@),
            sum(counts) == all.len(),
            trees(rest@) == all.skip(sum(counts.take(i as int)) as int),
            sum(counts.take(i as int)) <= all.len(),
            n == all.len(),
            total <= n,
            head == contents(*header),
            key == items_key@,
            counted == opt_view(count_key),
            counts == document_lengths(head, key, counted, all, group@, max_body_bytes as nat),
            object_sized(
                Json::Object(
                    counted_map(head, key, counted, Seq::empty(), n as nat, group@, 1, 1),
                ),
            ),
            object_sized(
                Json::Object(
                    counted_map(
                        head,
                        key,
                        counted,
                        Seq::empty(),
                        n as nat,
                        group@,
                        n as nat,
                        n as nat,
                    ),
                ),
            ),
            out@.len() == i,
            forall|j: int|
                0 <= j < i && (counts[j] > 1 || roomy(
                    chunk_sizes(item_sizes(all), counts, j),
                    reserve(head, key, counted, all.len(), group@),
                    max_body_bytes as nat,
                )) ==> byte_len((#[trigger] out@[j])@) <= max_body_bytes,
            forall|j: int|
                0 <= j < i ==> (#[trigger] out@[j])@ == rendered(
                    document_json(
                        contents(*header),
                        items_key@,
                        opt_view(count_key),
                        chunk_of(all, counts, j),
                        group@,
                        j as nat,
                        total as nat,
                    ),
                ),
        decreases total - i,
    {
        let size: usize = lengths[i];
        proof {
            lemma_sum_split(counts, i + 1);
            assert(counts.take(i + 1).drop_last() =~= counts.take(i as int));
            assert(counts.take(i + 1).last() == size as nat);
        }
        let ghost here = rest@;
        let ghost start = sum(counts.take(i as int)) as int;
        assert(trees(here).len() == here.len());
        let tail = rest.split_off(size);
        assert(trees(rest@) =~= chunk_of(all, counts, i as int)) by {
            assert forall|j: int| 0 <= j < size implies trees(rest@)[j] == chunk_of(
                all,
                counts,
                i as int,
            )[j] by {
                assert(trees(here)[j] == all.skip(start)[j]);
                assert(rest@[j] == here[j]);
            }
        }
        assert(trees(tail@) =~= all.skip(start + size)) by {
            assert forall|j: int| 0 <= j < tail@.len() implies trees(tail@)[j] == all.skip(
                start + size,
            )[j] by {
                assert(tail@[j] == here[j + size]);
                assert(trees(here)[j + size] == all.skip(start)[j + size]);
            }
        }
        let body = document(header, items_key, count_key, rest, size, group, i, total);
        proof {
            if counts[i as int] > 1 || roomy(
                chunk_sizes(item_sizes(all), counts, i as int),
                reserve(head, key, counted, all.len(), group@),
                max_body_bytes as nat,
            ) {
                lemma_document_fits(
                    head,
                    key,
                    counted,
                    all,
                    group@,
                    max_body_bytes as nat,
                    i as int,
                );
            }
        }
        out.push(body);
        rest = tail;
        i = i + 1;
    }
    out
}

/// What framing a document for the spool log leads to: its frame under its
/// content address, or a refusal that is counted, and announced once.
pub open spec fn framed_or_refused(
    before: SpoolLog,
    after: SpoolLog,
    r: Result<Vec<u8>, bool>,
    signal: Seq<char>,
    body: Seq<char>,
) -> bool {
    let payload = encode_utf8(body);
    match (r, frame_of(signal, "json"@, hex(sha256(payload)), payload)) {
        (Ok(bytes), Some(expected)) => bytes@ == expected && after == before,
        (Err(announce), None) => {
            &&& announce == before.unsaid(IoKind::InvalidInput)
            &&& after.announced@ == before.announced@.update(slot_of(IoKind::InvalidInput), true)
            &&& after.dropped_frames == before.dropped_frames.wrapping_add(1)
            &&& after.dropped_bytes == before.dropped_bytes.wrapping_add(payload.len() as u64)
        },
        _ => false,
    }
}

/// The longest extension that always fits a frame's header beside a content
/// address.
pub const MAX_EXTENSION_CHARS: usize = 65432;

/// Frame a document for the spool log under its content address. A refusal says
/// whether to announce it; under a plain extension only a document that is too
/// large is refused.
pub fn write_atomic(log: &mut SpoolLog, body: &str, extension: &str) -> (r: Result<Vec<u8>, bool>)
    requires
        old(log).wf(),
    ensures
        final(log).wf(),
        framed_or_refused(*old(log), *final(log), r, extension@, body@),
        plain(extension@) && 0 < extension@.len() <= MAX_EXTENSION_CHARS ==> (r is Ok <==> byte_len(
            body@,
        ) <= MAX_FRAME_PAYLOAD_BYTES),
{
    let id = hex_digest(body);
    let bytes = bytes_of(body);
    proof {
        law_hex_is_plain(sha256(encode_utf8(body@)));
        reveal_strlit("json");
        assert(plain("json"@));
        assert("json"@.len() == 4);
    }
    begin_append(log, extension, "json", id.as_str(), bytes.as_slice())
}

/// Where a document stands as a file of its own: the temporary path it is
/// written to, and the path it is renamed to.
pub fn write_document_file(spool_directory: &str, body: &str, extension: &str) -> (r: (
    String,
    String,
))
    ensures
        r.1@ == spool_directory@ + "/"@ + hex(sha256(encode_utf8(body@))) + "."@ + extension@,
        r.0@ == r.1@ + ".tmp"@,
{
    let id = hex_digest(body);
    let mut path = copy(spool_directory);
    path.append("/");
    path.append(id.as_str());
    path.append(".");
    path.append(extension);
    let mut tmp = path.clone();
    tmp.append(".tmp");
    (tmp, path)
}

/// Hexadecimal: two lower-case digits for each byte, the higher half first.
pub proof fn law_hex_spells_each_byte(bytes: &[u8], r: String, i: int)
    requires
        call_ensures(hex_text, (bytes,), r),
        0 <= i < bytes@.len(),
    ensures
        r@.len() == 2 * bytes@.len(),
        spells_half(r@[2 * i], (bytes@[i] / 16) as int),
        spells_half(r@[2 * i + 1], (bytes@[i] % 16) as int),
{
    law_hex_has_two_digits_per_byte(bytes@);
    lemma_hex_at(bytes@, i);
}

/// Whether a character is the lower-case hexadecimal digit of half a byte.
pub open spec fn spells_half(c: char, half: int) -> bool {
    &&& half < 10 ==> '0' <= c <= '9' && c as u32 - '0' as u32 == half
    &&& half >= 10 ==> 'a' <= c <= 'f' && c as u32 - 'a' as u32 == half - 10
}

proof fn lemma_hex_at(bytes: Seq<u8>, i: int)
    requires
        0 <= i < bytes.len(),
    ensures
        hex(bytes).len() == 2 * bytes.len(),
        spells_half(hex(bytes)[2 * i], (bytes[i] / 16) as int),
        spells_half(hex(bytes)[2 * i + 1], (bytes[i] % 16) as int),
    decreases bytes.len(),
{
    law_hex_has_two_digits_per_byte(bytes);
    let init = bytes.drop_last();
    law_hex_has_two_digits_per_byte(init);
    if i < init.len() {
        lemma_hex_at(init, i);
        assert(hex(bytes)[2 * i] == hex(init)[2 * i]);
        assert(hex(bytes)[2 * i + 1] == hex(init)[2 * i + 1]);
    }
}

/// A document's address is the SHA-256 of its bytes in hexadecimal: 64 digits.
pub proof fn law_addresses_are_sha256_in_hex(body: &str, r: String, digest: &[u8], text: String)
    requires
        call_ensures(hex_digest, (body,), r),
        digest@ == sha256(encode_utf8(body@)),
        call_ensures(hex_text, (digest,), text),
    ensures
        r@ == text@,
        r@.len() == 64,
{
}

/// The identity in every document tells the organisation, and the application within
/// its project.
pub proof fn law_the_identity_tells_the_reporter(
    envelope: &CollectorEnvelope,
    r: serde_json::Map<String, serde_json::Value>,
)
    requires
        call_ensures(identity_envelope, (envelope,), r),
    ensures
        crate::spool::tells_reporter(contents(r), *envelope),
{
    crate::spool::lemma_reporter(contents(r), *envelope);
    reveal_strlit("organisation");
    reveal_strlit("application");
    assert("organisation"@.len() == 12);
    assert("application"@.len() == 11);
}

/// A document's budget is the positive number that the setting is, white space
/// around it aside, and else 900 KiB.
pub proof fn law_the_budget_of_a_document(
    setting: Option<&str>,
    r: usize,
    text: &str,
    cut: String,
    cut_text: &str,
    n: Option<u128>,
)
    requires
        call_ensures(max_body_bytes, (setting,), r),
        setting matches Some(s) ==> text@ == s@,
        call_ensures(trim, (text,), cut),
        cut_text@ == cut@,
        call_ensures(parse_unsigned, (cut_text, usize::MAX as u128), n),
    ensures
        setting is None ==> r == 921600,
        setting is Some && n is None ==> r == 921600,
        setting is Some && n == Some(0u128) ==> r == 921600,
        setting is Some && n is Some && n->0 > 0 ==> r == n->0,
{
}

/// A file of its own is named by its content address, and written beside its name.
pub proof fn law_a_file_is_named_by_its_address(
    spool_directory: &str,
    body: &str,
    extension: &str,
    r: (String, String),
    id: String,
)
    requires
        call_ensures(write_document_file, (spool_directory, body, extension), r),
        call_ensures(hex_digest, (body,), id),
    ensures
        r.1@ == spool_directory@ + "/"@ + id@ + "."@ + extension@,
        r.0@ == r.1@ + ".tmp"@,
{
}

/// A document is framed under its signal as JSON, with its content address as its
/// id and its bytes as its payload; what cannot be framed is refused.
pub proof fn law_a_document_is_framed_under_its_address(
    log: &mut SpoolLog,
    body: &str,
    extension: &str,
    r: Result<Vec<u8>, bool>,
    id: String,
    id_text: &str,
    payload: &[u8],
    made: Option<Vec<u8>>,
    slot: usize,
)
    requires
        old(log).wf(),
        call_ensures(write_atomic, (log, body, extension), r),
        call_ensures(hex_digest, (body,), id),
        id_text@ == id@,
        payload@ == encode_utf8(body@),
        call_ensures(crate::spool_log::frame, (extension, "json", id_text, payload), made),
        call_ensures(crate::spool_log::error_slot, (IoKind::InvalidInput,), slot),
        old(log).dropped_frames < u64::MAX,
        old(log).dropped_bytes + payload@.len() <= u64::MAX,
    ensures
        r is Ok <==> made is Some,
        r matches Ok(bytes) ==> bytes@ == made->0@ && *final(log) == *old(log),
        r matches Err(announce) ==> {
            &&& announce == !old(log).announced@[slot as int]
            &&& final(log).announced@[slot as int]
            &&& final(log).dropped_frames == old(log).dropped_frames + 1
            &&& final(log).dropped_bytes == old(log).dropped_bytes + payload@.len()
        },
{
}

/// The sum of numbers is zero of none, and one number more adds that number.
pub proof fn law_sums(s: Seq<nat>, n: nat)
    ensures
        sum(Seq::empty()) == 0,
        sum(s.push(n)) == sum(s) + n,
{
    lemma_sum_push(s, n);
}

/// Whether `starts` cut items into chunks: each begins where the one before it ends.
pub open spec fn cuts(starts: Seq<int>, chunks: nat, items: nat) -> bool {
    &&& starts.len() == chunks + 1
    &&& starts[0] == 0
    &&& starts[chunks as int] == items
    &&& forall|i: int, j: int|
        0 <= i < j <= chunks ==> 0 <= #[trigger] starts[i] < #[trigger] starts[j] <= items
}

/// Where chunks of the given lengths begin, and where the last ends.
pub open spec fn starts_of(lengths: Seq<nat>) -> Seq<int> {
    Seq::new(lengths.len() + 1, |i: int| chunk_start(lengths, i))
}

proof fn lemma_starts(lengths: Seq<nat>, i: int, j: int)
    requires
        0 <= i < j <= lengths.len(),
        forall|k: int| 0 <= k < lengths.len() ==> (#[trigger] lengths[k]) > 0,
    ensures
        0 <= chunk_start(lengths, i) < chunk_start(lengths, j) <= sum(lengths),
        chunk_start(lengths, i + 1) == chunk_start(lengths, i) + lengths[i],
    decreases j - i,
{
    lemma_sum_split(lengths, j);
    assert(lengths.take(i + 1).drop_last() =~= lengths.take(i));
    assert(lengths.take(i + 1).last() == lengths[i]);
    if i + 1 < j {
        lemma_starts(lengths, i + 1, j);
    }
}

pub proof fn lemma_cuts(lengths: Seq<nat>)
    requires
        forall|k: int| 0 <= k < lengths.len() ==> (#[trigger] lengths[k]) > 0,
    ensures
        cuts(starts_of(lengths), lengths.len(), sum(lengths)),
        forall|i: int|
            0 <= i < lengths.len() ==> starts_of(lengths)[i + 1] == #[trigger] starts_of(lengths)[i]
                + lengths[i],
{
    let starts = starts_of(lengths);
    assert(lengths.take(0) =~= Seq::empty());
    assert(lengths.take(lengths.len() as int) =~= lengths);
    assert forall|i: int, j: int| 0 <= i < j <= lengths.len() implies 0 <= #[trigger] starts[i]
        < #[trigger] starts[j] <= sum(lengths) by {
        lemma_starts(lengths, i, j);
    }
    assert forall|i: int| 0 <= i < lengths.len() implies starts[i + 1] == #[trigger] starts[i]
        + lengths[i] by {
        lemma_starts(lengths, i, i + 1);
    }
}

proof fn lemma_packed_greedily(sizes: Seq<nat>, budget: nat)
    ensures
        ({
            let p = packed(sizes, budget);
            forall|i: int|
                0 <= i < p.closed.len() ==> sum(chunk_sizes(sizes, p.closed, i))
                    + sizes[chunk_start(p.closed, i) + #[trigger] p.closed[i]] > budget
        }),
    decreases sizes.len(),
{
    if sizes.len() > 0 {
        let init = sizes.drop_last();
        let size = sizes.last();
        let p = packed(sizes, budget);
        let q = packed(init, budget);
        lemma_packed(init, budget);
        lemma_packed(sizes, budget);
        lemma_packed_greedily(init, budget);
        let start = sum(q.closed) as int;
        assert forall|i: int| 0 <= i < p.closed.len() implies sum(chunk_sizes(sizes, p.closed, i))
            + sizes[chunk_start(p.closed, i) + #[trigger] p.closed[i]] > budget by {
            assert(p.closed.take(i) =~= q.closed.take(i));
            if i < q.closed.len() {
                assert(p.closed[i] == q.closed[i]);
                let from = chunk_start(q.closed, i);
                let to = from + q.closed[i];
                lemma_next_start(q.closed, i);
                assert(to <= start);
                assert(q.items > 0);
                assert(to < init.len());
                assert(chunk_sizes(sizes, p.closed, i) =~= chunk_sizes(init, q.closed, i));
                assert(sizes[to] == init[to]);
            } else {
                assert(q.closed.take(i) =~= q.closed);
                assert(chunk_sizes(sizes, p.closed, i) =~= init.skip(start));
                assert(chunk_start(p.closed, i) + p.closed[i] == init.len());
            }
        }
    }
}

proof fn lemma_next_start(lengths: Seq<nat>, i: int)
    requires
        0 <= i < lengths.len(),
    ensures
        chunk_start(lengths, i) + lengths[i] <= sum(lengths),
{
    lemma_sum_split(lengths, i + 1);
    assert(lengths.take(i + 1).drop_last() =~= lengths.take(i));
    assert(lengths.take(i + 1).last() == lengths[i]);
}

proof fn lemma_chunks_are_greedy(sizes: Seq<nat>, budget: nat)
    ensures
        ({
            let lengths = chunk_lengths(sizes, budget);
            let starts = starts_of(lengths);
            &&& cuts(starts, lengths.len(), sizes.len())
            &&& forall|i: int|
                0 <= i < lengths.len() ==> starts[i + 1] == #[trigger] starts[i] + lengths[i]
                    && within(sizes.subrange(starts[i], starts[i + 1]), budget)
            &&& forall|i: int|
                0 <= i < lengths.len() - 1 ==> sum(
                    sizes.subrange(#[trigger] starts[i], starts[i + 1]),
                ) + sizes[starts[i + 1]] > budget
        }),
{
    law_chunks_are_the_items_in_order(sizes, budget);
    lemma_packed_greedily(sizes, budget);
    lemma_packed(sizes, budget);
    let p = packed(sizes, budget);
    let lengths = chunk_lengths(sizes, budget);
    lemma_cuts(lengths);
    let starts = starts_of(lengths);
    assert forall|i: int| 0 <= i < lengths.len() implies starts[i + 1] == #[trigger] starts[i]
        + lengths[i] && within(sizes.subrange(starts[i], starts[i + 1]), budget) by {
        assert(within(chunk_sizes(sizes, lengths, i), budget));
    }
    assert forall|i: int| 0 <= i < lengths.len() - 1 implies sum(
        sizes.subrange(#[trigger] starts[i], starts[i + 1]),
    ) + sizes[starts[i + 1]] > budget by {
        assert(i < p.closed.len());
        assert(p.closed[i] == lengths[i]);
        assert(p.closed.take(i) =~= lengths.take(i));
        assert(chunk_sizes(sizes, p.closed, i) =~= sizes.subrange(starts[i], starts[i + 1]));
    }
}

/// Packing cuts the items in order into chunks that are within the budget, or hold a
/// single item, and no chunk has room for the item after it.
pub proof fn law_packing_is_greedy(sizes: &Vec<u128>, budget: usize, r: Vec<usize>)
    requires
        call_ensures(pack, (sizes, budget), r),
    ensures
        exists|starts: Seq<int>|
            #![trigger cuts(starts, r@.len(), sizes@.len())]
            cuts(starts, r@.len(), sizes@.len()) && (forall|i: int|
                0 <= i < r@.len() ==> #[trigger] starts[i] + r@[i] == starts[i + 1] && (sum(
                    nats(sizes@.subrange(starts[i], starts[i + 1])),
                ) <= budget || r@[i] == 1) && (i + 1 < r@.len() ==> sum(
                    nats(sizes@.subrange(starts[i], starts[i + 1])),
                ) + sizes@[starts[i + 1]] > budget)),
{
    let all = nats(sizes@);
    let lengths = lens(r@);
    lemma_chunks_are_greedy(all, budget as nat);
    let starts = starts_of(lengths);
    assert(cuts(starts, r@.len(), sizes@.len()));
    assert forall|i: int| 0 <= i < r@.len() implies #[trigger] starts[i] + r@[i] == starts[i + 1]
        && (sum(nats(sizes@.subrange(starts[i], starts[i + 1]))) <= budget || r@[i] == 1) && (i + 1
        < r@.len() ==> sum(nats(sizes@.subrange(starts[i], starts[i + 1]))) + sizes@[starts[i + 1]]
        > budget) by {
        assert(lengths[i] == r@[i]);
        assert(starts[i] < starts[i + 1]);
        assert(nats(sizes@.subrange(starts[i], starts[i + 1])) =~= all.subrange(
            starts[i],
            starts[i + 1],
        ));
        if i + 1 < r@.len() {
            assert(starts[i + 1] < starts[r@.len() as int]);
            assert(all[starts[i + 1]] == sizes@[starts[i + 1]]);
        }
    }
}

/// Whether an object is a document: the header repeated, the items under their key,
/// their count under its own, and where it stands in its group unless it is alone.
pub open spec fn tells_document(
    m: Map<Seq<char>, Json>,
    header: Map<Seq<char>, Json>,
    items_key: Seq<char>,
    count_key: Option<Seq<char>>,
    items: Seq<Json>,
    count: nat,
    group: Seq<char>,
    index: nat,
    total: nat,
) -> bool {
    &&& forall|key: Seq<char>|
        key != items_key && Some(key) != count_key && key != "chunk"@ ==> (#[trigger] m.contains_key(
            key,
        ) <==> header.contains_key(key)) && m[key] == header[key]
    &&& m.contains_key(items_key)
    &&& m[items_key] == Json::List(items)
    &&& count_key matches Some(key) ==> m.contains_key(key) && m[key] == Json::Text(decimal(count))
    &&& total <= 1 && !header.contains_key("chunk"@) ==> !m.contains_key("chunk"@)
    &&& total > 1 ==> {
        &&& m.contains_key("chunk"@)
        &&& m["chunk"@] matches Json::Object(place)
        &&& crate::spool::says(place, "groupId"@, group)
        &&& crate::spool::says(place, "index"@, decimal(index))
        &&& crate::spool::says(place, "count"@, decimal(total))
    }
}

proof fn lemma_tells_document(
    header: Map<Seq<char>, Json>,
    items_key: Seq<char>,
    count_key: Option<Seq<char>>,
    items: Seq<Json>,
    count: nat,
    group: Seq<char>,
    index: nat,
    total: nat,
)
    requires
        items_key != "chunk"@,
        count_key != Some("chunk"@),
        count_key != Some(items_key),
    ensures
        tells_document(
            counted_map(header, items_key, count_key, items, count, group, index, total),
            header,
            items_key,
            count_key,
            items,
            count,
            group,
            index,
            total,
        ),
{
    reveal_strlit("groupId");
    reveal_strlit("index");
    reveal_strlit("count");
    assert("groupId"@.len() == 7);
    assert("index"@.len() == 5);
    assert("count"@.len() == 5);
    assert("index"@[0] != "count"@[0]);
}

/// Whether texts are the documents of items: cut in order, each repeating the
/// header, with its own items, their count, and its place in the group.
pub open spec fn holds_in_order(
    documents: Seq<String>,
    header: Map<Seq<char>, Json>,
    items_key: Seq<char>,
    count_key: Option<Seq<char>>,
    items: Seq<Json>,
    group: Seq<char>,
    starts: Seq<int>,
    maps: Seq<Map<Seq<char>, Json>>,
) -> bool {
    &&& cuts(starts, documents.len(), items.len())
    &&& maps.len() == documents.len()
    &&& forall|i: int|
        0 <= i < documents.len() ==> (#[trigger] documents[i])@ == rendered(Json::Object(maps[i]))
            && tells_document(
            maps[i],
            header,
            items_key,
            count_key,
            items.subrange(starts[i], starts[i + 1]),
            (starts[i + 1] - starts[i]) as nat,
            group,
            i as nat,
            documents.len(),
        )
}

/// The documents hold every item once and in order; each that holds more than one is
/// within the budget, and there are several only where one would be over it.
pub proof fn law_documents_hold_every_item_once(
    header: &serde_json::Map<String, serde_json::Value>,
    items_key: &str,
    count_key: Option<&str>,
    items: Vec<serde_json::Value>,
    max_body_bytes: usize,
    group: &str,
    r: Vec<String>,
)
    requires
        call_ensures(
            write_chunked,
            (header, items_key, count_key, items, max_body_bytes, group),
            r,
        ),
        items_key@ != "chunk"@,
        opt_view(count_key) != Some("chunk"@),
        opt_view(count_key) != Some(items_key@),
    ensures
        exists|starts: Seq<int>, maps: Seq<Map<Seq<char>, Json>>|
            #![trigger holds_in_order(r@, contents(*header), items_key@, opt_view(count_key), trees(items@), group@, starts, maps)]
            holds_in_order(
                r@,
                contents(*header),
                items_key@,
                opt_view(count_key),
                trees(items@),
                group@,
                starts,
                maps,
            ) && (forall|i: int|
                0 <= i < r@.len() && (starts[i + 1] - starts[i]) > 1 ==> byte_len(
                    (#[trigger] r@[i])@,
                ) <= max_body_bytes),
        r@.len() > 1 ==> exists|m: Map<Seq<char>, Json>|
            #![trigger rendered(Json::Object(m))]
            tells_document(
                m,
                contents(*header),
                items_key@,
                opt_view(count_key),
                Seq::empty(),
                items@.len(),
                group@,
                1,
                1,
            ) && sum(item_sizes(trees(items@))) + byte_len(rendered(Json::Object(m)))
                > max_body_bytes,
{
    let all = trees(items@);
    let head = contents(*header);
    let key = items_key@;
    let counted = opt_view(count_key);
    lemma_written(r@, head, key, counted, all, group@, max_body_bytes as nat);
    let lengths = document_lengths(head, key, counted, all, group@, max_body_bytes as nat);
    let starts = starts_of(lengths);
    let maps = document_maps(head, key, counted, all, group@, lengths);
    assert(holds_in_order(r@, head, key, counted, all, group@, starts, maps));
    assert forall|i: int| 0 <= i < r@.len() && (starts[i + 1] - starts[i]) > 1 implies byte_len(
        (#[trigger] r@[i])@,
    ) <= max_body_bytes by {
        law_documents_hold_the_items_in_order(
            head,
            key,
            counted,
            all,
            group@,
            max_body_bytes as nat,
        );
        lemma_cuts(lengths);
        assert(starts[i + 1] == starts[i] + lengths[i]);
    }
    if r@.len() > 1 {
        let m = counted_map(head, key, counted, Seq::empty(), all.len(), group@, 1, 1);
        lemma_tells_document(head, key, counted, Seq::empty(), all.len(), group@, 1, 1);
        let alone = overhead(head, key, counted, all.len(), group@, 1);
        let sizes = item_sizes(all);
        let budget = room(max_body_bytes as nat, alone);
        let whole = chunk_lengths(sizes, budget);
        assert(whole.len() > 1);
        lemma_chunks_are_greedy(sizes, budget);
        let at = starts_of(whole);
        assert(at[0] < at[1] < at[whole.len() as int]);
        lemma_sum_split(sizes, at[1]);
        let rest = sizes.skip(at[1]);
        lemma_sum_split(rest, 1);
        assert(rest.take(1) =~= seq![sizes[at[1]]]);
        lemma_sum_push(Seq::empty(), sizes[at[1]]);
        assert(Seq::<nat>::empty().push(sizes[at[1]]) =~= seq![sizes[at[1]]]);
        assert(sizes.subrange(at[0], at[1]) =~= sizes.take(at[1]));
        assert(sum(sizes) > budget);
        assert(alone == byte_len(rendered(Json::Object(m))));
    }
}

/// The objects of the documents of items.
pub open spec fn document_maps(
    header: Map<Seq<char>, Json>,
    items_key: Seq<char>,
    count_key: Option<Seq<char>>,
    items: Seq<Json>,
    group: Seq<char>,
    lengths: Seq<nat>,
) -> Seq<Map<Seq<char>, Json>> {
    Seq::new(
        lengths.len(),
        |i: int|
            counted_map(
                header,
                items_key,
                count_key,
                chunk_of(items, lengths, i),
                lengths[i],
                group,
                i as nat,
                lengths.len(),
            ),
    )
}

pub proof fn lemma_written(
    documents: Seq<String>,
    header: Map<Seq<char>, Json>,
    items_key: Seq<char>,
    count_key: Option<Seq<char>>,
    items: Seq<Json>,
    group: Seq<char>,
    max: nat,
)
    requires
        items_key != "chunk"@,
        count_key != Some("chunk"@),
        count_key != Some(items_key),
        ({
            let lengths = document_lengths(header, items_key, count_key, items, group, max);
            &&& documents.len() == lengths.len()
            &&& forall|i: int|
                0 <= i < documents.len() ==> (#[trigger] documents[i])@ == rendered(
                    document_json(
                        header,
                        items_key,
                        count_key,
                        chunk_of(items, lengths, i),
                        group,
                        i as nat,
                        lengths.len(),
                    ),
                )
        }),
    ensures
        ({
            let lengths = document_lengths(header, items_key, count_key, items, group, max);
            holds_in_order(
                documents,
                header,
                items_key,
                count_key,
                items,
                group,
                starts_of(lengths),
                document_maps(header, items_key, count_key, items, group, lengths),
            )
        }),
{
    let lengths = document_lengths(header, items_key, count_key, items, group, max);
    law_documents_hold_the_items_in_order(header, items_key, count_key, items, group, max);
    lemma_cuts(lengths);
    let starts = starts_of(lengths);
    let maps = document_maps(header, items_key, count_key, items, group, lengths);
    assert forall|i: int| 0 <= i < documents.len() implies (#[trigger] documents[i])@ == rendered(
        Json::Object(maps[i]),
    ) && tells_document(
        maps[i],
        header,
        items_key,
        count_key,
        items.subrange(starts[i], starts[i + 1]),
        (starts[i + 1] - starts[i]) as nat,
        group,
        i as nat,
        documents.len(),
    ) by {
        assert(starts[i + 1] == starts[i] + lengths[i]);
        assert(0 <= starts[i] < starts[i + 1] <= items.len());
        let chunk = chunk_of(items, lengths, i);
        assert(chunk.len() == lengths[i]);
        assert(chunk == items.subrange(starts[i], starts[i + 1]));
        lemma_tells_document(
            header,
            items_key,
            count_key,
            chunk,
            lengths[i],
            group,
            i as nat,
            lengths.len(),
        );
    }
}

} // verus!
