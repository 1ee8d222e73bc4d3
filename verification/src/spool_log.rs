//! The framed, append-only spool log.
//!
//! A directory holds a sequence of segments, and every document is appended to
//! the newest one as a single self-describing frame: one frame is one write. A
//! full segment is retired and the next one started; when there are too many,
//! the oldest go, and every loss is counted and said aloud once per kind.

use crate::json::{plain, plain_char, quoted, rendered, text_value, value_text, Json};
use crate::text::{
    all_digits, begins, bytes_of, chars_of, copy, decimal, decimal_text, digit, ends,
    lemma_byte_len_push, parse_unsigned, parsed, string_of, texts, unsigned_digits, value_of,
};
use vstd::prelude::*;
use vstd::utf8::encode_utf8;

verus! {

/// The largest payload one frame may carry.
pub const MAX_FRAME_PAYLOAD_BYTES: usize = 8388608;

/// The size at which a segment is retired.
pub const SEGMENT_MAX_BYTES: u64 = 67108864;

/// How many segments one directory may hold.
pub const MAX_SEGMENTS: usize = 4;

/// The largest header one frame may carry.
pub const MAX_HEADER_BYTES: usize = 65535;

/// One step of the CRC-32 (IEEE) shift register.
pub open spec fn crc_step(v: u32) -> u32 {
    if v & 1 == 1 {
        (v >> 1) ^ 0xEDB8_8320
    } else {
        v >> 1
    }
}

/// The register after `n` steps.
pub open spec fn crc_steps(v: u32, n: nat) -> u32
    decreases n,
{
    if n == 0 {
        v
    } else {
        crc_steps(crc_step(v), (n - 1) as nat)
    }
}

/// The register after some bytes, each shifted in bit by bit.
pub open spec fn crc_register(bytes: Seq<u8>) -> u32
    decreases bytes.len(),
{
    if bytes.len() == 0 {
        0xFFFF_FFFF
    } else {
        crc_steps(crc_register(bytes.drop_last()) ^ (bytes.last() as u32), 8)
    }
}

/// The CRC-32 (IEEE) of some bytes.
pub open spec fn crc(bytes: Seq<u8>) -> u32 {
    !crc_register(bytes)
}

proof fn lemma_step_xor(a: u32, b: u32)
    ensures
        crc_step(a ^ b) == crc_step(a) ^ crc_step(b),
{
    assert((if (a ^ b) & 1 == 1 {
        ((a ^ b) >> 1) ^ 0xEDB8_8320u32
    } else {
        (a ^ b) >> 1
    }) == (if a & 1 == 1 {
        (a >> 1) ^ 0xEDB8_8320u32
    } else {
        a >> 1
    }) ^ (if b & 1 == 1 {
        (b >> 1) ^ 0xEDB8_8320u32
    } else {
        b >> 1
    })) by (bit_vector);
}

proof fn lemma_steps_xor(a: u32, b: u32, n: nat)
    ensures
        crc_steps(a ^ b, n) == crc_steps(a, n) ^ crc_steps(b, n),
    decreases n,
{
    if n > 0 {
        lemma_step_xor(a, b);
        lemma_steps_xor(crc_step(a), crc_step(b), (n - 1) as nat);
    }
}

proof fn lemma_high_bytes_shift_down(v: u32)
    requires
        v & 0xFF == 0,
    ensures
        crc_steps(v, 8) == v >> 8,
{
    reveal_with_fuel(crc_steps, 9);
    assert(v & 1 == 0 && (v >> 1) & 1 == 0 && ((v >> 1) >> 1) & 1 == 0 && (((v >> 1) >> 1) >> 1)
        & 1 == 0 && ((((v >> 1) >> 1) >> 1) >> 1) & 1 == 0 && (((((v >> 1) >> 1) >> 1) >> 1) >> 1)
        & 1 == 0 && ((((((v >> 1) >> 1) >> 1) >> 1) >> 1) >> 1) & 1 == 0 && (((((((v >> 1) >> 1)
        >> 1) >> 1) >> 1) >> 1) >> 1) & 1 == 0 && ((((((((v >> 1) >> 1) >> 1) >> 1) >> 1) >> 1)
        >> 1) >> 1) == v >> 8) by (bit_vector)
        requires
            v & 0xFF == 0,
    ;
}

/// One byte through the table is eight steps of the register.
proof fn lemma_table_step(v: u32)
    ensures
        crc_steps(v, 8) == (v >> 8) ^ crc_steps(v & 0xFF, 8),
{
    let high = v & 0xFFFF_FF00;
    let low = v & 0xFF;
    assert(v == high ^ low && high & 0xFF == 0 && high >> 8 == v >> 8) by (bit_vector)
        requires
            high == v & 0xFFFF_FF00,
            low == v & 0xFF,
    ;
    lemma_steps_xor(high, low, 8);
    lemma_high_bytes_shift_down(high);
}

/// Whether a table holds, for each byte, the register after eight steps.
pub open spec fn is_crc_table(t: Seq<u32>) -> bool {
    t.len() == 256 && forall|i: int| 0 <= i < 256 ==> #[trigger] t[i] == crc_steps(i as u32, 8)
}

/// The CRC-32 table.
pub fn checksum_table() -> (r: Vec<u32>)
    ensures
        is_crc_table(r@),
{
    let mut table: Vec<u32> = Vec::new();
    let mut index: u32 = 0;
    while index < 256
        invariant
            index <= 256,
            table@.len() == index,
            forall|i: int| 0 <= i < index ==> #[trigger] table@[i] == crc_steps(i as u32, 8),
        decreases 256 - index,
    {
        let mut value: u32 = index;
        let mut bit: u32 = 0;
        while bit < 8
            invariant
                bit <= 8,
                crc_steps(value, (8 - bit) as nat) == crc_steps(index, 8),
            decreases 8 - bit,
        {
            value = if value & 1 == 1 {
                (value >> 1) ^ 0xEDB8_8320
            } else {
                value >> 1
            };
            bit = bit + 1;
        }
        table.push(value);
        index = index + 1;
    }
    table
}

/// The CRC-32 (IEEE) of some bytes, a byte at a time through the table.
pub fn checksum(bytes: &[u8]) -> (r: u32)
    ensures
        r == crc(bytes@),
{
    let table = checksum_table();
    let mut register: u32 = 0xFFFF_FFFF;
    let mut i: usize = 0;
    assert(bytes@.take(0) =~= Seq::empty());
    while i < bytes.len()
        invariant
            i <= bytes@.len(),
            is_crc_table(table@),
            register == crc_register(bytes@.take(i as int)),
        decreases bytes@.len() - i,
    {
        let byte: u8 = bytes[i];
        let mixed: u32 = register ^ (byte as u32);
        let low: u32 = mixed & 0xFF;
        assert(low < 256 && (mixed >> 8) == (register >> 8)) by (bit_vector)
            requires
                low == mixed & 0xFF,
                mixed == register ^ (byte as u32),
        ;
        proof {
            lemma_table_step(mixed);
            assert(bytes@.take(i + 1).drop_last() =~= bytes@.take(i as int));
            assert(bytes@.take(i + 1).last() == bytes@[i as int]);
        }
        register = (register >> 8) ^ table[low as usize];
        i = i + 1;
    }
    assert(bytes@.take(bytes@.len() as int) =~= bytes@);
    !register
}

/// A number in `n` bytes, least significant first.
pub open spec fn little_endian(v: nat, n: nat) -> Seq<u8>
    decreases n,
{
    if n == 0 {
        Seq::empty()
    } else {
        seq![(v % 256) as u8] + little_endian(v / 256, (n - 1) as nat)
    }
}

/// The number that bytes stand for, least significant first.
pub open spec fn number_of(bytes: Seq<u8>) -> nat
    decreases bytes.len(),
{
    if bytes.len() == 0 {
        0
    } else {
        bytes[0] as nat + 256 * number_of(bytes.drop_first())
    }
}

/// How many numbers fit in `n` bytes.
pub open spec fn byte_range(n: nat) -> nat
    decreases n,
{
    if n == 0 {
        1
    } else {
        256 * byte_range((n - 1) as nat)
    }
}

proof fn lemma_little_endian(v: nat, n: nat)
    requires
        v < byte_range(n),
    ensures
        little_endian(v, n).len() == n,
        number_of(little_endian(v, n)) == v,
    decreases n,
{
    if n > 0 {
        assert(v / 256 < byte_range((n - 1) as nat));
        lemma_little_endian(v / 256, (n - 1) as nat);
        let rest = little_endian(v / 256, (n - 1) as nat);
        assert(little_endian(v, n).drop_first() =~= rest);
    }
}

proof fn lemma_byte_ranges()
    ensures
        byte_range(2) == 65536,
        byte_range(4) == 4294967296,
{
    reveal_with_fuel(byte_range, 5);
}

fn push_little_endian(out: &mut Vec<u8>, v: u32, n: u32)
    requires
        n <= 4,
    ensures
        final(out)@ == old(out)@ + little_endian(v as nat, n as nat),
{
    let ghost before = out@;
    let mut rest: u32 = v;
    let mut i: u32 = 0;
    assert(before + little_endian(v as nat, n as nat) =~= out@ + little_endian(
        rest as nat,
        n as nat,
    ));
    while i < n
        invariant
            i <= n,
            out@ + little_endian(rest as nat, (n - i) as nat) == before + little_endian(
                v as nat,
                n as nat,
            ),
        decreases n - i,
    {
        let ghost was = out@;
        let ghost r = rest as nat;
        out.push((rest % 256) as u8);
        rest = rest / 256;
        i = i + 1;
        assert(was + little_endian(r, (n - i + 1) as nat) =~= out@ + little_endian(
            rest as nat,
            (n - i) as nat,
        ));
    }
    assert(out@ + little_endian(rest as nat, 0) =~= out@);
}

fn push_bytes(out: &mut Vec<u8>, bytes: &[u8])
    ensures
        final(out)@ == old(out)@ + bytes@,
{
    out.extend_from_slice(bytes);
    assert(out@ =~= old(out)@ + bytes@);
}

/// The four bytes that begin every frame.
pub open spec fn magic() -> Seq<u8> {
    seq![0x43u8, 0x48, 0x52, 0x4e]
}

/// The text of a frame's header: the signal, its encoding and the document's
/// id, as JSON strings in that order.
pub open spec fn header_text(signal: Seq<char>, encoding: Seq<char>, id: Seq<char>) -> Seq<char> {
    header_of(
        rendered(Json::Text(signal)),
        rendered(Json::Text(encoding)),
        rendered(Json::Text(id)),
    )
}

/// Three JSON strings as the text of a header.
pub open spec fn header_of(signal: Seq<char>, encoding: Seq<char>, id: Seq<char>) -> Seq<char> {
    "{\"signal\":"@ + signal + ",\"encoding\":"@ + encoding + ",\"id\":"@ + id + "}"@
}

/// How many bytes a header takes beside its three texts.
pub const HEADER_OVERHEAD: usize = 35;

/// The bytes of a frame with a header and a payload.
pub open spec fn framed(header: Seq<u8>, payload: Seq<u8>) -> Seq<u8> {
    magic() + little_endian(header.len(), 2) + little_endian(payload.len(), 4) + little_endian(
        crc(header + payload) as nat,
        4,
    ) + (header + payload)
}

/// The frame of a document. None when the payload is too large, when it has no
/// signal or encoding, or when its header is too long.
pub open spec fn frame_of(
    signal: Seq<char>,
    encoding: Seq<char>,
    id: Seq<char>,
    payload: Seq<u8>,
) -> Option<Seq<u8>> {
    if payload.len() > MAX_FRAME_PAYLOAD_BYTES || signal.len() == 0 || encoding.len() == 0 {
        None
    } else {
        let header = encode_utf8(header_text(signal, encoding, id));
        if header.len() > MAX_HEADER_BYTES {
            None
        } else {
            Some(framed(header, payload))
        }
    }
}

/// Whether a document of plain names is framed: its payload is not too large, it
/// has a signal and an encoding, and they fit a header.
pub open spec fn framable(
    signal: Seq<char>,
    encoding: Seq<char>,
    id: Seq<char>,
    payload: Seq<u8>,
) -> bool {
    &&& payload.len() <= MAX_FRAME_PAYLOAD_BYTES
    &&& signal.len() > 0
    &&& encoding.len() > 0
    &&& HEADER_OVERHEAD + signal.len() + encoding.len() + id.len() <= MAX_HEADER_BYTES
}

/// Whether a text is ASCII.
pub open spec fn ascii(s: Seq<char>) -> bool {
    forall|i: int| 0 <= i < s.len() ==> (#[trigger] s[i]) as u32 <= 0x7f
}

proof fn lemma_ascii_bytes(s: Seq<char>)
    requires
        ascii(s),
    ensures
        encode_utf8(s).len() == s.len(),
    decreases s.len(),
{
    if s.len() > 0 {
        let init = s.drop_last();
        assert(ascii(init)) by {
            assert forall|i: int| 0 <= i < init.len() implies (#[trigger] init[i]) as u32
                <= 0x7f by {
                assert(init[i] == s[i]);
            }
        }
        lemma_ascii_bytes(init);
        lemma_byte_len_push(init, s.last());
        assert(init.push(s.last()) =~= s);
        assert(s[s.len() - 1] as u32 <= 0x7f);
    }
}

proof fn lemma_plain_header(signal: Seq<char>, encoding: Seq<char>, id: Seq<char>)
    requires
        plain(signal),
        plain(encoding),
        plain(id),
    ensures
        encode_utf8(header_of(quoted(signal), quoted(encoding), quoted(id))).len()
            == HEADER_OVERHEAD + signal.len() + encoding.len() + id.len(),
{
    reveal_strlit("{\"signal\":");
    reveal_strlit(",\"encoding\":");
    reveal_strlit(",\"id\":");
    reveal_strlit("}");
    lemma_quoted_ascii(signal);
    lemma_quoted_ascii(encoding);
    lemma_quoted_ascii(id);
    assert(ascii("{\"signal\":"@));
    assert(ascii(",\"encoding\":"@));
    assert(ascii(",\"id\":"@));
    assert(ascii("}"@));
    lemma_ascii_bytes(header_of(quoted(signal), quoted(encoding), quoted(id)));
}

proof fn lemma_quoted_ascii(s: Seq<char>)
    requires
        plain(s),
    ensures
        ascii(quoted(s)),
        quoted(s).len() == s.len() + 2,
{
    assert forall|i: int| 0 <= i < quoted(s).len() implies (#[trigger] quoted(s)[i]) as u32
        <= 0x7f by {
        if 0 < i < s.len() + 1 {
            assert(plain_char(s[i - 1]));
        }
    }
}

/// Put a header's three texts together.
pub fn header_json(signal: &str, encoding: &str, id: &str) -> (r: String)
    ensures
        r@ == header_text(signal@, encoding@, id@),
        plain(signal@) && plain(encoding@) && plain(id@) ==> encode_utf8(r@).len()
            == HEADER_OVERHEAD + signal@.len() + encoding@.len() + id@.len(),
{
    let s = value_text(&text_value(signal));
    let e = value_text(&text_value(encoding));
    let i = value_text(&text_value(id));
    let mut h = copy("{\"signal\":");
    h.append(s.as_str());
    h.append(",\"encoding\":");
    h.append(e.as_str());
    h.append(",\"id\":");
    h.append(i.as_str());
    h.append("}");
    proof {
        if plain(signal@) && plain(encoding@) && plain(id@) {
            lemma_plain_header(signal@, encoding@, id@);
        }
    }
    h
}

/// Put a frame's bytes together.
pub fn frame_bytes(header: &[u8], payload: &[u8]) -> (r: Vec<u8>)
    requires
        header@.len() <= MAX_HEADER_BYTES,
        payload@.len() <= MAX_FRAME_PAYLOAD_BYTES,
    ensures
        r@ == framed(header@, payload@),
{
    let mut body: Vec<u8> = Vec::new();
    push_bytes(&mut body, header);
    push_bytes(&mut body, payload);
    assert(body@ =~= header@ + payload@);
    let sum: u32 = checksum(body.as_slice());
    let mut out: Vec<u8> = Vec::new();
    out.push(0x43);
    out.push(0x48);
    out.push(0x52);
    out.push(0x4e);
    assert(out@ =~= magic());
    push_little_endian(&mut out, header.len() as u32, 2);
    push_little_endian(&mut out, payload.len() as u32, 4);
    push_little_endian(&mut out, sum, 4);
    push_bytes(&mut out, body.as_slice());
    out
}

/// Encode one document as a frame.
pub fn frame(signal: &str, encoding: &str, id: &str, payload: &[u8]) -> (r: Option<Vec<u8>>)
    ensures
        crate::zend_helpers::opt_bytes(r) == frame_of(signal@, encoding@, id@, payload@),
        plain(signal@) && plain(encoding@) && plain(id@) ==> (r is Some <==> framable(
            signal@,
            encoding@,
            id@,
            payload@,
        )),
{
    if payload.len() > MAX_FRAME_PAYLOAD_BYTES || signal.is_empty() || encoding.is_empty() {
        return None;
    }
    let text = header_json(signal, encoding, id);
    let header = bytes_of(text.as_str());
    if header.len() > MAX_HEADER_BYTES {
        return None;
    }
    Some(frame_bytes(header.as_slice(), payload))
}

/// How many bytes stand before a frame's header.
pub const FRAME_PREFIX: usize = 14;

/// Read one frame off the front of a log: its header, its payload and what
/// follows. None where there is no whole frame with the right checksum.
pub open spec fn read_frame(log: Seq<u8>) -> Option<(Seq<u8>, Seq<u8>, Seq<u8>)> {
    if log.len() < FRAME_PREFIX || log.take(4) != magic() {
        None
    } else {
        let h = number_of(log.subrange(4, 6)) as int;
        let p = number_of(log.subrange(6, 10)) as int;
        let sum = number_of(log.subrange(10, 14));
        if log.len() < FRAME_PREFIX + h + p {
            None
        } else {
            let body = log.subrange(FRAME_PREFIX as int, FRAME_PREFIX + h + p);
            if crc(body) as nat != sum {
                None
            } else {
                Some((body.take(h), body.skip(h), log.skip(FRAME_PREFIX + h + p)))
            }
        }
    }
}

/// The log after frames with the given headers and payloads were appended to an
/// empty one.
pub open spec fn log_of(documents: Seq<(Seq<u8>, Seq<u8>)>) -> Seq<u8>
    decreases documents.len(),
{
    if documents.len() == 0 {
        Seq::empty()
    } else {
        framed(documents[0].0, documents[0].1) + log_of(documents.drop_first())
    }
}

/// Every frame of a log in order. None where the log is not a sequence of whole
/// frames.
pub open spec fn read_log(log: Seq<u8>) -> Option<Seq<(Seq<u8>, Seq<u8>)>>
    decreases log.len(),
{
    if log.len() == 0 {
        Some(Seq::empty())
    } else {
        match read_frame(log) {
            Some((header, payload, rest)) => if rest.len() < log.len() {
                match read_log(rest) {
                    Some(others) => Some(seq![(header, payload)] + others),
                    None => None,
                }
            } else {
                None
            },
            None => None,
        }
    }
}

/// Whether a header and a payload fit in a frame.
pub open spec fn fits(header: Seq<u8>, payload: Seq<u8>) -> bool {
    header.len() <= MAX_HEADER_BYTES && payload.len() <= MAX_FRAME_PAYLOAD_BYTES
}

proof fn lemma_fields(a: Seq<u8>, b: Seq<u8>, c: Seq<u8>, d: Seq<u8>, e: Seq<u8>, rest: Seq<u8>)
    requires
        a.len() == 4,
        b.len() == 2,
        c.len() == 4,
        d.len() == 4,
    ensures
        ({
            let log = a + b + c + d + e + rest;
            &&& log.len() == 14 + e.len() + rest.len()
            &&& log.take(4) == a
            &&& log.subrange(4, 6) == b
            &&& log.subrange(6, 10) == c
            &&& log.subrange(10, 14) == d
            &&& log.subrange(14, 14 + e.len() as int) == e
            &&& log.skip(14 + e.len() as int) == rest
        }),
{
    let log = a + b + c + d + e + rest;
    assert(log.take(4) =~= a);
    assert(log.subrange(4, 6) =~= b);
    assert(log.subrange(6, 10) =~= c);
    assert(log.subrange(10, 14) =~= d);
    assert(log.subrange(14, 14 + e.len() as int) =~= e);
    assert(log.skip(14 + e.len() as int) =~= rest);
}

/// A frame reads back as the header and payload it was made of, whatever
/// follows it.
pub proof fn law_frame_reads_back(header: Seq<u8>, payload: Seq<u8>, rest: Seq<u8>)
    requires
        fits(header, payload),
    ensures
        read_frame(framed(header, payload) + rest) == Some((header, payload, rest)),
{
    lemma_byte_ranges();
    let body = header + payload;
    let sum = crc(body) as nat;
    lemma_little_endian(header.len(), 2);
    lemma_little_endian(payload.len(), 4);
    lemma_little_endian(sum, 4);
    lemma_fields(
        magic(),
        little_endian(header.len(), 2),
        little_endian(payload.len(), 4),
        little_endian(sum, 4),
        body,
        rest,
    );
    assert(body.take(header.len() as int) =~= header);
    assert(body.skip(header.len() as int) =~= payload);
}

/// The frame of a document reads back as its header and its payload, whatever
/// follows it.
pub proof fn law_document_reads_back(
    signal: Seq<char>,
    encoding: Seq<char>,
    id: Seq<char>,
    payload: Seq<u8>,
    rest: Seq<u8>,
)
    requires
        frame_of(signal, encoding, id, payload) is Some,
    ensures
        read_frame(frame_of(signal, encoding, id, payload)->0 + rest) == Some(
            (encode_utf8(header_text(signal, encoding, id)), payload, rest),
        ),
{
    law_frame_reads_back(encode_utf8(header_text(signal, encoding, id)), payload, rest);
}

/// A log of whole frames reads back as the documents that were appended, in
/// order and exactly once each.
pub proof fn law_log_reads_back(documents: Seq<(Seq<u8>, Seq<u8>)>)
    requires
        forall|i: int|
            0 <= i < documents.len() ==> fits(
                (#[trigger] documents[i]).0,
                documents[i].1,
            ),
    ensures
        read_log(log_of(documents)) == Some(documents),
    decreases documents.len(),
{
    if documents.len() > 0 {
        let first = documents[0];
        let others = documents.drop_first();
        assert forall|i: int| 0 <= i < others.len() implies fits(
            (#[trigger] others[i]).0,
            others[i].1,
        ) by {
            assert(others[i] == documents[i + 1]);
        }
        law_log_reads_back(others);
        law_frame_reads_back(first.0, first.1, log_of(others));
        assert(framed(first.0, first.1).len() > 0);
        assert(seq![first] + others =~= documents);
    } else {
        assert(documents =~= Seq::empty());
    }
}

/// Appending one more frame leaves every earlier one readable.
pub proof fn law_append_keeps_earlier_frames(
    documents: Seq<(Seq<u8>, Seq<u8>)>,
    more: (Seq<u8>, Seq<u8>),
)
    ensures
        log_of(documents.push(more)) == log_of(documents) + framed(more.0, more.1),
    decreases documents.len(),
{
    if documents.len() == 0 {
        assert(documents.push(more).drop_first() =~= documents);
        assert(documents.push(more)[0] == more);
        assert(log_of(documents) =~= Seq::empty());
        assert(log_of(documents.push(more)) =~= log_of(documents) + framed(more.0, more.1));
    } else {
        assert(documents.push(more).drop_first() =~= documents.drop_first().push(more));
        law_append_keeps_earlier_frames(documents.drop_first(), more);
        assert(log_of(documents.push(more)) =~= log_of(documents) + framed(more.0, more.1));
    }
}

/// How many whole frames a log holds. Bytes that begin none, such as those of a
/// write that was cut short, are passed over.
pub open spec fn frames_in(log: Seq<u8>) -> nat
    decreases log.len(),
{
    if log.len() == 0 {
        0
    } else {
        match read_frame(log) {
            Some((header, payload, rest)) => if rest.len() < log.len() {
                1 + frames_in(rest)
            } else {
                0
            },
            None => frames_in(log.drop_first()),
        }
    }
}

/// Every frame that was appended to a log is counted, once.
pub proof fn law_every_frame_is_counted(documents: Seq<(Seq<u8>, Seq<u8>)>)
    requires
        forall|i: int|
            0 <= i < documents.len() ==> fits(
                (#[trigger] documents[i]).0,
                documents[i].1,
            ),
    ensures
        frames_in(log_of(documents)) == documents.len(),
    decreases documents.len(),
{
    if documents.len() > 0 {
        let first = documents[0];
        let others = documents.drop_first();
        assert forall|i: int| 0 <= i < others.len() implies fits(
            (#[trigger] others[i]).0,
            others[i].1,
        ) by {
            assert(others[i] == documents[i + 1]);
        }
        law_every_frame_is_counted(others);
        law_frame_reads_back(first.0, first.1, log_of(others));
        assert(framed(first.0, first.1).len() > 0);
    }
}

fn number_at(bytes: &[u8], at: usize, n: usize) -> (r: u64)
    requires
        n <= 4,
        at + n <= bytes@.len(),
    ensures
        r == number_of(bytes@.subrange(at as int, at + n)),
        r < byte_range(n as nat),
{
    let end: usize = bytes.len();
    let mut value: u64 = 0;
    let mut i: usize = n;
    proof {
        lemma_byte_ranges();
        reveal_with_fuel(byte_range, 5);
    }
    assert(bytes@.subrange(at + n, at + n) =~= Seq::empty());
    while i > 0
        invariant
            i <= n <= 4,
            at + n <= bytes@.len(),
            end == bytes@.len(),
            value == number_of(bytes@.subrange(at + i, at + n)),
            value < byte_range((n - i) as nat),
            byte_range(0) == 1,
            byte_range(1) == 256,
            byte_range(2) == 65536,
            byte_range(3) == 16777216,
            byte_range(4) == 4294967296,
        decreases i,
    {
        i = i - 1;
        let ghost here = bytes@.subrange(at + i, at + n);
        assert(here.drop_first() =~= bytes@.subrange(at + i + 1, at + n));
        value = bytes[at + i] as u64 + 256 * value;
    }
    value
}

fn frame_at(bytes: &[u8], at: usize) -> (r: Option<usize>)
    requires
        at <= bytes@.len(),
    ensures
        match r {
            Some(end) => {
                &&& at + FRAME_PREFIX <= end <= bytes@.len()
                &&& read_frame(bytes@.skip(at as int)) matches Some((_, _, rest))
                &&& rest == bytes@.skip(end as int)
            },
            None => read_frame(bytes@.skip(at as int)) is None,
        },
{
    let ghost log = bytes@.skip(at as int);
    if bytes.len() - at < FRAME_PREFIX {
        return None;
    }
    let starts = bytes[at] == 0x43 && bytes[at + 1] == 0x48 && bytes[at + 2] == 0x52 && bytes[at
        + 3] == 0x4e;
    assert(starts <==> log.take(4) == magic()) by {
        if starts {
            assert(log.take(4) =~= magic());
        } else if log.take(4) == magic() {
            assert(log.take(4)[0] == magic()[0]);
            assert(log.take(4)[1] == magic()[1]);
            assert(log.take(4)[2] == magic()[2]);
            assert(log.take(4)[3] == magic()[3]);
        }
    }
    if !starts {
        return None;
    }
    assert(log.subrange(4, 6) =~= bytes@.subrange(at + 4, at + 6));
    assert(log.subrange(6, 10) =~= bytes@.subrange(at + 6, at + 10));
    assert(log.subrange(10, 14) =~= bytes@.subrange(at + 10, at + 14));
    proof {
        lemma_byte_ranges();
    }
    let h: u64 = number_at(bytes, at + 4, 2);
    let p: u64 = number_at(bytes, at + 6, 4);
    let sum: u64 = number_at(bytes, at + 10, 4);
    let body: usize = at + FRAME_PREFIX;
    if ((bytes.len() - body) as u64) < h + p {
        return None;
    }
    let end: usize = body + (h + p) as usize;
    let held = vstd::slice::slice_subrange(bytes, body, end);
    assert(held@ =~= log.subrange(FRAME_PREFIX as int, FRAME_PREFIX + h + p));
    if checksum(held) as u64 != sum {
        return None;
    }
    assert(log.skip(FRAME_PREFIX + h + p) =~= bytes@.skip(end as int));
    Some(end)
}

/// How many whole frames a segment holds.
pub fn count_frames(bytes: &[u8]) -> (r: usize)
    ensures
        r == frames_in(bytes@),
        r <= bytes@.len(),
{
    let mut count: usize = 0;
    let mut at: usize = 0;
    assert(bytes@.skip(0) =~= bytes@);
    while at < bytes.len()
        invariant
            count <= at <= bytes@.len(),
            count + frames_in(bytes@.skip(at as int)) == frames_in(bytes@),
        decreases bytes@.len() - at,
    {
        match frame_at(bytes, at) {
            Some(end) => {
                count = count + 1;
                at = end;
            },
            None => {
                assert(bytes@.skip(at as int).drop_first() =~= bytes@.skip(at + 1));
                at = at + 1;
            },
        }
    }
    count
}

/// A number in at least six digits.
pub open spec fn six_digits(n: nat) -> Seq<char> {
    zeros((6 - decimal(n).len()) as int) + decimal(n)
}

/// A run of zeros: none when the count is not positive.
pub open spec fn zeros(n: int) -> Seq<char>
    decreases n,
{
    if n <= 0 {
        Seq::empty()
    } else {
        zeros(n - 1).push('0')
    }
}

/// The file name of a segment.
pub open spec fn name_of(generation: nat) -> Seq<char> {
    "segment-"@ + six_digits(generation) + ".spool"@
}

/// The file name of a segment.
pub fn segment_name(generation: u64) -> (r: String)
    ensures
        r@ == name_of(generation as nat),
{
    let digits = decimal_text(generation as u128);
    let count: usize = digits.as_str().unicode_len();
    let mut pad = String::new();
    let mut i: usize = count;
    assert(zeros(0) =~= Seq::empty());
    while i < 6
        invariant
            count <= i,
            i <= 6 || i == count,
            pad@ == zeros(i - count),
        decreases 6 - i,
    {
        pad.push('0');
        i = i + 1;
    }
    proof {
        if count > 6 {
            assert(zeros(6 - count) =~= Seq::empty());
        }
    }
    let mut out = copy("segment-");
    out.append(pad.as_str());
    out.append(digits.as_str());
    out.append(".spool");
    assert(out@ =~= name_of(generation as nat));
    out
}

/// The part of a segment's file name between its prefix and its extension.
pub open spec fn middle_of(name: Seq<char>) -> Option<Seq<char>> {
    if begins(name, "segment-"@) {
        let rest = name.skip(8);
        if ends(rest, ".spool"@) {
            Some(rest.take(rest.len() - 6))
        } else {
            None
        }
    } else {
        None
    }
}

/// The generation in a file name, when it is a segment's.
pub open spec fn generation_in(name: Seq<char>) -> Option<nat> {
    match middle_of(name) {
        Some(digits) => parsed(digits, u64::MAX as nat),
        None => None,
    }
}

/// The number of an optional generation.
pub open spec fn opt_nat(o: Option<u64>) -> Option<nat> {
    match o {
        Some(n) => Some(n as nat),
        None => None,
    }
}

/// The generation in a file name.
pub fn generation_of(name: &str) -> (r: Option<u64>)
    ensures
        opt_nat(r) == generation_in(name@),
{
    proof {
        reveal_strlit("segment-");
        reveal_strlit(".spool");
        assert("segment-"@.len() == 8);
        assert(".spool"@.len() == 6);
    }
    if !crate::text::starts_with(name, "segment-") {
        return None;
    }
    let v = chars_of(name);
    let rest = string_of(&v, 8, v.len());
    assert(rest@ =~= name@.skip(8));
    if !crate::text::ends_with(rest.as_str(), ".spool") {
        return None;
    }
    let digits = string_of(&v, 8, v.len() - 6);
    assert(digits@ =~= rest@.take(rest@.len() - 6));
    match parse_unsigned(digits.as_str(), u64::MAX as u128) {
        Some(n) => Some(n as u64),
        None => None,
    }
}

proof fn lemma_decimal_value(n: nat)
    ensures
        all_digits(decimal(n)),
        decimal(n).len() > 0,
        value_of(decimal(n)) == n,
    decreases n,
{
    if n < 10 {
        let s = decimal(n);
        assert(s =~= seq![digit(n)]);
        assert(s.drop_last() =~= Seq::empty());
        assert(value_of(s.drop_last()) == 0);
    } else {
        lemma_decimal_value(n / 10);
        let s = decimal(n);
        assert(s.drop_last() =~= decimal(n / 10));
        assert forall|i: int| 0 <= i < s.len() implies '0' <= #[trigger] s[i] <= '9' by {
            if i < s.len() - 1 {
                assert(s[i] == decimal(n / 10)[i]);
            }
        }
    }
}

proof fn lemma_padded_value(k: int, s: Seq<char>)
    requires
        all_digits(s),
    ensures
        all_digits(zeros(k) + s),
        value_of(zeros(k) + s) == value_of(s),
    decreases s.len(),
{
    lemma_zeros(k);
    if s.len() == 0 {
        assert(zeros(k) + s =~= zeros(k));
    } else {
        let t = s.drop_last();
        assert(all_digits(t)) by {
            assert forall|i: int| 0 <= i < t.len() implies '0' <= #[trigger] t[i] <= '9' by {
                assert(t[i] == s[i]);
            }
        }
        lemma_padded_value(k, t);
        assert((zeros(k) + s).drop_last() =~= zeros(k) + t);
        assert((zeros(k) + s).last() == s.last());
        let all = zeros(k) + s;
        assert forall|i: int| 0 <= i < all.len() implies '0' <= #[trigger] all[i] <= '9' by {
            if i >= zeros(k).len() {
                assert(all[i] == s[i - zeros(k).len()]);
            } else {
                assert(all[i] == zeros(k)[i]);
            }
        }
    }
}

proof fn lemma_zeros(k: int)
    ensures
        all_digits(zeros(k)),
        value_of(zeros(k)) == 0,
    decreases k,
{
    if k > 0 {
        lemma_zeros(k - 1);
        assert(zeros(k).drop_last() =~= zeros(k - 1));
        let s = zeros(k);
        assert forall|i: int| 0 <= i < s.len() implies '0' <= #[trigger] s[i] <= '9' by {
            if i < s.len() - 1 {
                assert(s[i] == zeros(k - 1)[i]);
            }
        }
    }
}

/// A segment's file name gives back its generation.
pub proof fn law_segment_name_round_trip(generation: u64)
    ensures
        generation_in(name_of(generation as nat)) == Some(generation as nat),
{
    let n = generation as nat;
    let name = name_of(n);
    let digits = six_digits(n);
    reveal_strlit("segment-");
    reveal_strlit(".spool");
    assert("segment-"@.len() == 8);
    assert(".spool"@.len() == 6);
    assert(name.subrange(0, 8) =~= "segment-"@);
    let rest = name.skip(8);
    assert(rest =~= digits + ".spool"@);
    assert(rest.subrange(rest.len() - 6, rest.len() as int) =~= ".spool"@);
    assert(rest.take(rest.len() - 6) =~= digits);
    lemma_decimal_value(n);
    lemma_padded_value((6 - decimal(n).len()) as int, decimal(n));
    assert(digits.len() > 0);
    assert('0' <= digits[0] <= '9');
    assert(unsigned_digits(digits) == digits);
}

/// The generations in a list of file names, in the order of the list.
pub open spec fn generations_in(names: Seq<Seq<char>>) -> Seq<u64>
    decreases names.len(),
{
    if names.len() == 0 {
        Seq::empty()
    } else {
        let before = generations_in(names.drop_last());
        match generation_in(names.last()) {
            Some(n) => before.push(n as u64),
            None => before,
        }
    }
}

/// Whether numbers ascend.
pub open spec fn ascending(s: Seq<u64>) -> bool {
    forall|i: int, j: int| 0 <= i < j < s.len() ==> s[i] <= s[j]
}

fn insert_ascending(v: &mut Vec<u64>, n: u64)
    requires
        ascending(old(v)@),
    ensures
        ascending(final(v)@),
        final(v)@.to_multiset() == old(v)@.to_multiset().insert(n),
{
    let ghost before = v@;
    let mut i: usize = v.len();
    while i > 0 && v[i - 1] > n
        invariant
            i <= v@.len(),
            v@ == before,
            ascending(before),
            forall|k: int| i <= k < before.len() ==> before[k] > n,
        decreases i,
    {
        i = i - 1;
    }
    v.insert(i, n);
    proof {
        assert(v@ =~= before.insert(i as int, n));
        before.to_multiset_ensures();
        vstd::seq_lib::to_multiset_insert(before, i as int, n);
        assert forall|a: int, b: int| 0 <= a < b < v@.len() implies v@[a] <= v@[b] by {
            if b < i {
            } else if b == i {
                assert(before[a] <= before[i - 1]);
            } else if a < i {
                assert(before[a] <= before[b - 1]);
            } else if a == i {
                assert(before[b - 1] > n);
            } else {
                assert(before[a - 1] <= before[b - 1]);
            }
        }
    }
}

/// The generations among a directory's file names, ascending.
pub fn generations(names: &Vec<String>) -> (r: Vec<u64>)
    ensures
        ascending(r@),
        r@.to_multiset() == generations_in(texts(names@)).to_multiset(),
{
    let ghost all = texts(names@);
    let mut out: Vec<u64> = Vec::new();
    let mut i: usize = 0;
    assert(generations_in(all.take(0)) =~= out@);
    while i < names.len()
        invariant
            i <= names@.len(),
            all == texts(names@),
            ascending(out@),
            out@.to_multiset() == generations_in(all.take(i as int)).to_multiset(),
        decreases names@.len() - i,
    {
        assert(all.take(i + 1).drop_last() =~= all.take(i as int));
        assert(all.take(i + 1).last() == all[i as int]);
        if let Some(n) = generation_of(names[i].as_str()) {
            insert_ascending(&mut out, n);
            proof {
                let before = generations_in(all.take(i as int));
                before.to_multiset_ensures();
                assert(generations_in(all.take(i + 1)) =~= before.push(n));
            }
        }
        i = i + 1;
    }
    assert(all.take(all.len() as int) =~= all);
    out
}

/// The generations to drop so that at most `MAX_SEGMENTS` remain: the oldest.
pub open spec fn victims_of(generations: Seq<u64>) -> Seq<u64> {
    if generations.len() <= MAX_SEGMENTS {
        Seq::empty()
    } else {
        generations.take(generations.len() - MAX_SEGMENTS)
    }
}

/// Which segments go so that the directory holds at most `MAX_SEGMENTS`.
pub fn enforce_segment_budget(generations: &Vec<u64>) -> (r: Vec<u64>)
    ensures
        r@ == victims_of(generations@),
{
    let mut out: Vec<u64> = Vec::new();
    if generations.len() <= MAX_SEGMENTS {
        assert(out@ =~= Seq::empty());
        return out;
    }
    let n: usize = generations.len() - MAX_SEGMENTS;
    let mut i: usize = 0;
    while i < n
        invariant
            i <= n,
            n <= generations@.len(),
            out@ == generations@.take(i as int),
        decreases n - i,
    {
        out.push(generations[i]);
        i = i + 1;
        assert(generations@.take(i as int) =~= generations@.take(i - 1).push(generations@[i - 1]));
    }
    out
}

/// The budget leaves exactly the newest segments: at most `MAX_SEGMENTS`, each
/// at least as new as every one that goes.
pub proof fn law_budget_drops_exactly_the_oldest(generations: Seq<u64>)
    requires
        ascending(generations),
    ensures
        ({
            let gone = victims_of(generations);
            let kept = generations.skip(gone.len() as int);
            &&& gone + kept == generations
            &&& kept.len() <= MAX_SEGMENTS
            &&& gone.len() > 0 ==> kept.len() == MAX_SEGMENTS
            &&& forall|i: int, j: int|
                0 <= i < gone.len() && 0 <= j < kept.len() ==> gone[i] <= kept[j]
        }),
{
    let gone = victims_of(generations);
    let kept = generations.skip(gone.len() as int);
    assert(gone + kept =~= generations);
}

/// What can go wrong with a spool write, as far as it matters here.
#[derive(Clone, Copy, Debug, PartialEq, Eq, Structural)]
pub enum IoKind {
    PermissionDenied,
    NotFound,
    StorageFull,
    InvalidInput,
    WriteZero,
    AlreadyExists,
    Other,
}

/// How many kinds of failure are announced separately.
pub const ERROR_KINDS: usize = 6;

/// Which latch a failure claims: by what an operator would do about it.
pub open spec fn slot_of(kind: IoKind) -> int {
    match kind {
        IoKind::PermissionDenied => 0,
        IoKind::NotFound => 1,
        IoKind::StorageFull => 2,
        IoKind::InvalidInput => 3,
        IoKind::WriteZero => 4,
        _ => 5,
    }
}

/// Which latch a failure claims.
pub fn error_slot(kind: IoKind) -> (r: usize)
    ensures
        r == slot_of(kind),
        r < ERROR_KINDS,
{
    match kind {
        IoKind::PermissionDenied => 0,
        IoKind::NotFound => 1,
        IoKind::StorageFull => 2,
        IoKind::InvalidInput => 3,
        IoKind::WriteZero => 4,
        _ => 5,
    }
}

/// What a process has lost, and which kinds of failure it has announced.
pub struct SpoolLog {
    pub dropped_frames: u64,
    pub dropped_bytes: u64,
    pub announced: Vec<bool>,
}

impl SpoolLog {
    pub open spec fn wf(&self) -> bool {
        self.announced@.len() == ERROR_KINDS
    }

    /// Whether a failure of this kind has yet to be announced.
    pub open spec fn unsaid(&self, kind: IoKind) -> bool {
        !self.announced@[slot_of(kind)]
    }

    pub fn new() -> (r: SpoolLog)
        ensures
            r.wf(),
            r.dropped_frames == 0,
            r.dropped_bytes == 0,
            forall|kind: IoKind| #[trigger] r.unsaid(kind),
    {
        let mut announced: Vec<bool> = Vec::new();
        let mut i: usize = 0;
        while i < ERROR_KINDS
            invariant
                i <= ERROR_KINDS,
                announced@.len() == i,
                forall|k: int| 0 <= k < i ==> !announced@[k],
            decreases ERROR_KINDS - i,
        {
            announced.push(false);
            i = i + 1;
        }
        SpoolLog { dropped_frames: 0, dropped_bytes: 0, announced }
    }
}

/// Frames that this process has lost.
pub fn dropped(log: &SpoolLog) -> (r: u64)
    ensures
        r == log.dropped_frames,
{
    log.dropped_frames
}

/// Bytes that this process has lost.
pub fn dropped_bytes(log: &SpoolLog) -> (r: u64)
    ensures
        r == log.dropped_bytes,
{
    log.dropped_bytes
}

/// Claim the latch of a failure. The answer is whether to announce it: once per
/// process for each kind.
pub fn report_failure(log: &mut SpoolLog, kind: IoKind) -> (r: bool)
    requires
        old(log).wf(),
    ensures
        r == old(log).unsaid(kind),
        final(log).wf(),
        final(log).announced@ == old(log).announced@.update(slot_of(kind), true),
        final(log).dropped_frames == old(log).dropped_frames,
        final(log).dropped_bytes == old(log).dropped_bytes,
{
    let slot = error_slot(kind);
    let first = !log.announced[slot];
    log.announced.set(slot, true);
    first
}

/// Announcing one kind of failure leaves every other kind to be announced, and
/// is not done twice.
pub proof fn law_kinds_are_latched_separately(announced: Seq<bool>, kind: IoKind, other: IoKind)
    requires
        announced.len() == ERROR_KINDS,
    ensures
        announced.update(slot_of(kind), true)[slot_of(kind)],
        slot_of(other) != slot_of(kind) ==> announced.update(slot_of(kind), true)[slot_of(other)]
            == announced[slot_of(other)],
{
}

/// Count lost frames.
pub fn count_drop(log: &mut SpoolLog, frames: u64, bytes: u64)
    ensures
        final(log).dropped_frames == old(log).dropped_frames.wrapping_add(frames),
        final(log).dropped_bytes == old(log).dropped_bytes.wrapping_add(bytes),
        final(log).announced == old(log).announced,
{
    log.dropped_frames = log.dropped_frames.wrapping_add(frames);
    log.dropped_bytes = log.dropped_bytes.wrapping_add(bytes);
}

/// The line about a segment that was dropped to stay within the budget.
pub open spec fn budget_line(generation: nat, bytes: nat) -> Seq<char> {
    "[chronos-ext] spool budget reached: dropped "@ + name_of(generation) + " ("@ + decimal(bytes)
        + " bytes) unshipped. The agent is not draining this spool."@
}

/// How many frames are lost with a segment: those it holds. One that holds none
/// that can be read still counts, so that no removal goes unnoticed.
pub open spec fn frames_lost_with(segment: Seq<u8>) -> nat {
    if frames_in(segment) == 0 {
        1
    } else {
        frames_in(segment)
    }
}

/// A segment was removed to stay within the budget: count what it held, and say
/// so. `bytes` is its length, `segment` what could be read of it.
pub fn count_removed_segment(
    log: &mut SpoolLog,
    generation: u64,
    bytes: u64,
    segment: &[u8],
) -> (r: String)
    ensures
        r@ == budget_line(generation as nat, bytes as nat),
        final(log).dropped_frames == old(log).dropped_frames.wrapping_add(
            frames_lost_with(segment@) as u64,
        ),
        final(log).dropped_bytes == old(log).dropped_bytes.wrapping_add(bytes),
        final(log).announced == old(log).announced,
{
    let held = count_frames(segment);
    let frames: u64 = if held == 0 {
        1
    } else {
        held as u64
    };
    count_drop(log, frames, bytes);
    let mut line = copy("[chronos-ext] spool budget reached: dropped ");
    line.append(segment_name(generation).as_str());
    line.append(" (");
    line.append(decimal_text(bytes as u128).as_str());
    line.append(" bytes) unshipped. The agent is not draining this spool.");
    line
}

/// A removed segment is counted as the frames that were appended to it.
pub proof fn law_a_removed_segment_counts_its_frames(documents: Seq<(Seq<u8>, Seq<u8>)>)
    requires
        documents.len() > 0,
        forall|i: int|
            0 <= i < documents.len() ==> fits(
                (#[trigger] documents[i]).0,
                documents[i].1,
            ),
    ensures
        frames_lost_with(log_of(documents)) == documents.len(),
{
    law_every_frame_is_counted(documents);
}

/// How far an append has come.
#[derive(Clone, Copy, Debug, PartialEq, Eq, Structural)]
pub enum AppendState {
    /// The directory is being made.
    Directory,
    /// The newest segment is being looked for. `rotated` says that another
    /// writer started a new segment first.
    Scanning { rotated: bool },
    /// A segment is being opened, or the first one created.
    Opening { generation: u64, created: bool, rotated: bool },
    /// The open segment's length is being read.
    Measuring { generation: u64 },
    /// The next segment is being created.
    Rotating { next: u64 },
    /// The oldest segments are being removed.
    Trimming,
    /// The frame is being written.
    Writing,
    /// The append is over.
    Over,
}

/// What came of the last action.
#[derive(Clone, Copy, Debug, PartialEq, Eq, Structural)]
pub enum AppendEvent {
    Done,
    Failed(IoKind),
    Newest(Option<u64>),
    Length(u64),
    Written(usize),
}

/// What to do next.
#[derive(Clone, Copy, Debug, PartialEq, Eq, Structural)]
pub enum AppendAction {
    FindNewest,
    OpenAppend(u64),
    CreateNew(u64),
    ReadLength,
    EnforceBudget,
    /// Write the whole frame, once.
    Write,
    Succeed,
    /// Give up; `announce` says whether to say so.
    Fail { kind: IoKind, announce: bool },
}

/// Whether an event can follow in a state.
pub open spec fn expected(state: AppendState, event: AppendEvent) -> bool {
    match (state, event) {
        (AppendState::Directory, AppendEvent::Done) => true,
        (AppendState::Directory, AppendEvent::Failed(_)) => true,
        (AppendState::Scanning { .. }, AppendEvent::Newest(_)) => true,
        (AppendState::Opening { .. }, AppendEvent::Done) => true,
        (AppendState::Opening { .. }, AppendEvent::Failed(_)) => true,
        (AppendState::Measuring { .. }, AppendEvent::Length(_)) => true,
        (AppendState::Rotating { .. }, AppendEvent::Done) => true,
        (AppendState::Rotating { .. }, AppendEvent::Failed(_)) => true,
        (AppendState::Trimming, AppendEvent::Done) => true,
        (AppendState::Writing, AppendEvent::Written(_)) => true,
        (AppendState::Writing, AppendEvent::Failed(_)) => true,
        _ => false,
    }
}

/// The failure that ends an append, if this event does.
pub open spec fn failure_of(
    state: AppendState,
    event: AppendEvent,
    frame_len: usize,
) -> Option<IoKind> {
    match (state, event) {
        (AppendState::Opening { created, .. }, AppendEvent::Failed(kind)) => if (created && kind
            == IoKind::AlreadyExists) || (!created && kind == IoKind::NotFound) {
            None
        } else {
            Some(kind)
        },
        (AppendState::Rotating { .. }, AppendEvent::Failed(kind)) => if kind
            == IoKind::AlreadyExists {
            None
        } else {
            Some(kind)
        },
        (_, AppendEvent::Failed(kind)) => Some(kind),
        (AppendState::Writing, AppendEvent::Written(n)) => if n == frame_len {
            None
        } else {
            Some(IoKind::WriteZero)
        },
        _ => None,
    }
}

/// The generation after another.
pub open spec fn next_generation(g: u64) -> u64 {
    if g == u64::MAX {
        g
    } else {
        (g + 1) as u64
    }
}

/// The next state and action where nothing ends the append in failure.
pub open spec fn append_next(state: AppendState, event: AppendEvent) -> (AppendState, AppendAction) {
    match (state, event) {
        (AppendState::Directory, _) => (
            AppendState::Scanning { rotated: false },
            AppendAction::FindNewest,
        ),
        (AppendState::Scanning { rotated }, AppendEvent::Newest(Some(generation))) => (
            AppendState::Opening { generation, created: false, rotated },
            AppendAction::OpenAppend(generation),
        ),
        (AppendState::Scanning { rotated }, _) => (
            AppendState::Opening { generation: 1, created: true, rotated },
            AppendAction::CreateNew(1),
        ),
        (AppendState::Opening { rotated, .. }, AppendEvent::Failed(_)) => (
            AppendState::Scanning { rotated },
            AppendAction::FindNewest,
        ),
        (AppendState::Opening { generation, rotated, .. }, _) => if rotated {
            (AppendState::Writing, AppendAction::Write)
        } else {
            (AppendState::Measuring { generation }, AppendAction::ReadLength)
        },
        (AppendState::Measuring { generation }, AppendEvent::Length(n)) => if n
            >= SEGMENT_MAX_BYTES {
            (
                AppendState::Rotating { next: next_generation(generation) },
                AppendAction::CreateNew(next_generation(generation)),
            )
        } else {
            (AppendState::Writing, AppendAction::Write)
        },
        (AppendState::Rotating { .. }, AppendEvent::Done) => (
            AppendState::Trimming,
            AppendAction::EnforceBudget,
        ),
        (AppendState::Rotating { .. }, _) => (
            AppendState::Scanning { rotated: true },
            AppendAction::FindNewest,
        ),
        (AppendState::Trimming, _) => (AppendState::Writing, AppendAction::Write),
        _ => (AppendState::Over, AppendAction::Succeed),
    }
}

/// Whether an event loses the frame: every failure does, whatever was being done.
pub open spec fn loses_frame(state: AppendState, event: AppendEvent, frame_len: usize) -> bool {
    failure_of(state, event, frame_len) is Some
}

/// Take an append one step on. A short write is a failed write: it is never
/// continued, which would tear the frame.
pub fn append(log: &mut SpoolLog, state: AppendState, event: AppendEvent, frame_len: usize) -> (r: (
    AppendState,
    AppendAction,
))
    requires
        old(log).wf(),
        expected(state, event),
    ensures
        final(log).wf(),
        match failure_of(state, event, frame_len) {
            Some(kind) => {
                &&& r == (
                    AppendState::Over,
                    AppendAction::Fail { kind, announce: old(log).unsaid(kind) },
                )
                &&& final(log).announced@ == old(log).announced@.update(slot_of(kind), true)
            },
            None => {
                &&& r == append_next(state, event)
                &&& final(log).announced@ == old(log).announced@
            },
        },
        final(log).dropped_frames == if loses_frame(state, event, frame_len) {
            old(log).dropped_frames.wrapping_add(1)
        } else {
            old(log).dropped_frames
        },
        final(log).dropped_bytes == if loses_frame(state, event, frame_len) {
            old(log).dropped_bytes.wrapping_add(frame_len as u64)
        } else {
            old(log).dropped_bytes
        },
{
    match state {
        AppendState::Directory => match event {
            AppendEvent::Failed(kind) => fail(log, kind, frame_len),
            _ => (AppendState::Scanning { rotated: false }, AppendAction::FindNewest),
        },
        AppendState::Scanning { rotated } => match event {
            AppendEvent::Newest(Some(generation)) => (
                AppendState::Opening { generation, created: false, rotated },
                AppendAction::OpenAppend(generation),
            ),
            _ => (
                AppendState::Opening { generation: 1, created: true, rotated },
                AppendAction::CreateNew(1),
            ),
        },
        AppendState::Opening { generation, created, rotated } => match event {
            AppendEvent::Failed(kind) => {
                if (created && kind == IoKind::AlreadyExists) || (!created && kind
                    == IoKind::NotFound) {
                    (AppendState::Scanning { rotated }, AppendAction::FindNewest)
                } else {
                    fail(log, kind, frame_len)
                }
            },
            _ => {
                if rotated {
                    (AppendState::Writing, AppendAction::Write)
                } else {
                    (AppendState::Measuring { generation }, AppendAction::ReadLength)
                }
            },
        },
        AppendState::Measuring { generation } => match event {
            AppendEvent::Length(n) => {
                if n >= SEGMENT_MAX_BYTES {
                    let next: u64 = generation.saturating_add(1);
                    (AppendState::Rotating { next }, AppendAction::CreateNew(next))
                } else {
                    (AppendState::Writing, AppendAction::Write)
                }
            },
            _ => (AppendState::Over, AppendAction::Succeed),
        },
        AppendState::Rotating { .. } => match event {
            AppendEvent::Failed(kind) => {
                if kind == IoKind::AlreadyExists {
                    (AppendState::Scanning { rotated: true }, AppendAction::FindNewest)
                } else {
                    fail(log, kind, frame_len)
                }
            },
            _ => (AppendState::Trimming, AppendAction::EnforceBudget),
        },
        AppendState::Trimming => (AppendState::Writing, AppendAction::Write),
        AppendState::Writing => match event {
            AppendEvent::Failed(kind) => fail(log, kind, frame_len),
            AppendEvent::Written(n) => {
                if n == frame_len {
                    (AppendState::Over, AppendAction::Succeed)
                } else {
                    fail(log, IoKind::WriteZero, frame_len)
                }
            },
            _ => (AppendState::Over, AppendAction::Succeed),
        },
        AppendState::Over => (AppendState::Over, AppendAction::Succeed),
    }
}

fn fail(log: &mut SpoolLog, kind: IoKind, frame_len: usize) -> (r: (AppendState, AppendAction))
    requires
        old(log).wf(),
    ensures
        final(log).wf(),
        r == (AppendState::Over, AppendAction::Fail { kind, announce: old(log).unsaid(kind) }),
        final(log).announced@ == old(log).announced@.update(slot_of(kind), true),
        final(log).dropped_frames == old(log).dropped_frames.wrapping_add(1),
        final(log).dropped_bytes == old(log).dropped_bytes.wrapping_add(frame_len as u64),
{
    count_drop(log, 1, frame_len as u64);
    let announce = report_failure(log, kind);
    (AppendState::Over, AppendAction::Fail { kind, announce })
}

/// Begin an append: the frame to write, or a refusal and whether to announce it.
/// A refused document is counted as lost.
pub fn begin_append(
    log: &mut SpoolLog,
    signal: &str,
    encoding: &str,
    id: &str,
    payload: &[u8],
) -> (r: Result<Vec<u8>, bool>)
    requires
        old(log).wf(),
    ensures
        final(log).wf(),
        match (r, frame_of(signal@, encoding@, id@, payload@)) {
            (Ok(bytes), Some(expected)) => bytes@ == expected && *final(log) == *old(log),
            (Err(announce), None) => {
                &&& announce == old(log).unsaid(IoKind::InvalidInput)
                &&& final(log).announced@ == old(log).announced@.update(
                    slot_of(IoKind::InvalidInput),
                    true,
                )
                &&& final(log).dropped_frames == old(log).dropped_frames.wrapping_add(1)
                &&& final(log).dropped_bytes == old(log).dropped_bytes.wrapping_add(
                    payload@.len() as u64,
                )
            },
            _ => false,
        },
        plain(signal@) && plain(encoding@) && plain(id@) ==> (r is Ok <==> framable(
            signal@,
            encoding@,
            id@,
            payload@,
        )),
{
    match frame(signal, encoding, id, payload) {
        Some(bytes) => Ok(bytes),
        None => {
            count_drop(log, 1, payload.len() as u64);
            Err(report_failure(log, IoKind::InvalidInput))
        },
    }
}

/// An append succeeds exactly when one write took the whole frame, and after
/// the write nothing more is done to the log.
pub proof fn law_one_frame_is_one_write(state: AppendState, event: AppendEvent, frame_len: usize)
    requires
        expected(state, event),
    ensures
        failure_of(state, event, frame_len) is None && append_next(state, event).1
            == AppendAction::Succeed <==> state == AppendState::Writing && event
            == AppendEvent::Written(frame_len),
        append_next(state, event).1 == AppendAction::Write ==> append_next(state, event).0
            == AppendState::Writing,
        state == AppendState::Writing && failure_of(state, event, frame_len) is None
            ==> append_next(state, event) == (AppendState::Over, AppendAction::Succeed),
{
}

/// Of two writers that find the same segment full, the one that does not create
/// the next segment appends to the newest one there is, whatever its length.
pub proof fn law_losing_a_rotation_appends_to_the_winner(next: u64, newest: u64, frame_len: usize)
    ensures
        ({
            let lost = AppendEvent::Failed(IoKind::AlreadyExists);
            let a = append_next(AppendState::Rotating { next }, lost);
            let b = append_next(a.0, AppendEvent::Newest(Some(newest)));
            let c = append_next(b.0, AppendEvent::Done);
            &&& failure_of(AppendState::Rotating { next }, lost, frame_len) is None
            &&& b.1 == AppendAction::OpenAppend(newest)
            &&& c == (AppendState::Writing, AppendAction::Write)
        }),
{
}

/// A segment that was removed between looking and opening is looked for again,
/// not created anew.
pub proof fn law_a_retired_segment_is_looked_for_again(
    generation: u64,
    rotated: bool,
    frame_len: usize,
)
    ensures
        ({
            let state = AppendState::Opening { generation, created: false, rotated };
            let gone = AppendEvent::Failed(IoKind::NotFound);
            &&& failure_of(state, gone, frame_len) is None
            &&& append_next(state, gone) == (
                AppendState::Scanning { rotated },
                AppendAction::FindNewest,
            )
        }),
{
}

/// The line about a spool write that failed.
pub open spec fn failure_line(
    kind: Seq<char>,
    error: Seq<char>,
    directory: Seq<char>,
    frames: nat,
    bytes: nat,
) -> Seq<char> {
    "[chronos-ext] spool write failed ("@ + kind + ": "@ + error + ") at "@ + directory
        + ": this process's telemetry is being discarded. "@ + decimal(frames) + " frames ("@
        + decimal(bytes)
        + " bytes) lost so far. Reported once per process per error kind, and every PHP worker is its own process."@
}

/// The line about a spool write that failed.
pub fn failure_text(log: &SpoolLog, kind: &str, error: &str, directory: &str) -> (r: String)
    ensures
        r@ == failure_line(
            kind@,
            error@,
            directory@,
            log.dropped_frames as nat,
            log.dropped_bytes as nat,
        ),
{
    let mut line = copy("[chronos-ext] spool write failed (");
    line.append(kind);
    line.append(": ");
    line.append(error);
    line.append(") at ");
    line.append(directory);
    line.append(": this process's telemetry is being discarded. ");
    line.append(decimal_text(log.dropped_frames as u128).as_str());
    line.append(" frames (");
    line.append(decimal_text(log.dropped_bytes as u128).as_str());
    line.append(
        " bytes) lost so far. Reported once per process per error kind, and every PHP worker is its own process.",
    );
    line
}

/// The line about an append that was cut short.
pub open spec fn short_line(
    written: nat,
    frame_len: nat,
    directory: Seq<char>,
    frames: nat,
    bytes: nat,
) -> Seq<char> {
    "[chronos-ext] spool append was short ("@ + decimal(written) + " of "@ + decimal(frame_len)
        + " bytes) at "@ + directory + ": frame dropped. "@ + decimal(frames) + " frames ("@
        + decimal(bytes)
        + " bytes) lost so far. Reported once per process, and every PHP worker is its own process."@
}

/// The line about an append that was cut short.
pub fn short_text(log: &SpoolLog, written: usize, frame_len: usize, directory: &str) -> (r: String)
    ensures
        r@ == short_line(
            written as nat,
            frame_len as nat,
            directory@,
            log.dropped_frames as nat,
            log.dropped_bytes as nat,
        ),
{
    let mut line = copy("[chronos-ext] spool append was short (");
    line.append(decimal_text(written as u128).as_str());
    line.append(" of ");
    line.append(decimal_text(frame_len as u128).as_str());
    line.append(" bytes) at ");
    line.append(directory);
    line.append(": frame dropped. ");
    line.append(decimal_text(log.dropped_frames as u128).as_str());
    line.append(" frames (");
    line.append(decimal_text(log.dropped_bytes as u128).as_str());
    line.append(
        " bytes) lost so far. Reported once per process, and every PHP worker is its own process.",
    );
    line
}

proof fn lemma_one_step_more(v: u32, n: nat)
    ensures
        crc_steps(v, n + 1) == crc_step(crc_steps(v, n)),
    decreases n,
{
    reveal_with_fuel(crc_steps, 2);
    if n > 0 {
        lemma_one_step_more(crc_step(v), (n - 1) as nat);
    }
}

/// The checksum's table is that of the reflected polynomial `0xEDB88320`: the
/// entry of the highest bit is the polynomial itself, the entry of half an even
/// index is its entry shifted once more, and the entry of a sum of bits is the sum
/// of their entries.
pub proof fn law_the_checksum_table(table: Vec<u32>, i: u32, j: u32)
    requires
        call_ensures(checksum_table, (), table),
        i < 256 && j < 256,
    ensures
        table@.len() == 256,
        table@[128] == 0xEDB8_8320,
        i % 2 == 0 && table@[i as int] % 2 == 0 ==> table@[(i / 2) as int] == table@[i as int] / 2,
        i % 2 == 0 && table@[i as int] % 2 == 1 ==> table@[(i / 2) as int] == (table@[i as int] / 2)
            ^ 0xEDB8_8320,
        table@[(i ^ j) as int] == table@[i as int] ^ table@[j as int],
{
    assert(table@[128] == crc_steps(128u32, 8));
    reveal_with_fuel(crc_steps, 9);
    assert(128u32 & 1 == 0 && 128u32 >> 1 == 64 && 64u32 & 1 == 0 && 64u32 >> 1 == 32 && 32u32 & 1
        == 0 && 32u32 >> 1 == 16 && 16u32 & 1 == 0 && 16u32 >> 1 == 8 && 8u32 & 1 == 0 && 8u32 >> 1
        == 4 && 4u32 & 1 == 0 && 4u32 >> 1 == 2 && 2u32 & 1 == 0 && 2u32 >> 1 == 1 && 1u32 & 1 == 1
        && (1u32 >> 1) ^ 0xEDB8_8320u32 == 0xEDB8_8320u32) by (bit_vector);
    lemma_table_halves(i);
    assert(table@[i as int] == crc_steps(i, 8));
    assert(table@[(i / 2) as int] == crc_steps((i / 2) as u32, 8));
    assert((i ^ j) < 256) by (bit_vector)
        requires
            i < 256,
            j < 256,
    ;
    lemma_steps_xor(i, j, 8);
    assert(table@[(i ^ j) as int] == crc_steps(i ^ j, 8));
    assert(table@[j as int] == crc_steps(j, 8));
}

proof fn lemma_table_halves(i: u32)
    ensures
        i % 2 == 0 && crc_steps(i, 8) % 2 == 0 ==> crc_steps((i / 2) as u32, 8) == crc_steps(i, 8)
            / 2,
        i % 2 == 0 && crc_steps(i, 8) % 2 == 1 ==> crc_steps((i / 2) as u32, 8) == (crc_steps(i, 8)
            / 2) as u32 ^ 0xEDB8_8320,
{
    if i % 2 == 0 {
        let half = (i / 2) as u32;
        let v = crc_steps(i, 8);
        assert(i & 1 == 0 && i >> 1 == half) by (bit_vector)
            requires
                i % 2 == 0,
                half == i / 2,
        ;
        assert(crc_step(i) == half);
        assert(v == crc_steps(half, 7));
        lemma_one_step_more(half, 7);
        assert(crc_steps(half, 8) == crc_step(v));
        assert((v % 2 == 0 ==> v & 1 == 0) && (v % 2 == 1 ==> v & 1 == 1) && v >> 1 == v / 2)
            by (bit_vector);
    }
}

/// The checksum of nothing is zero, and one byte more goes through the table.
pub proof fn law_a_checksum_takes_a_byte_at_a_time(
    none: &[u8],
    zero: u32,
    bytes: &[u8],
    r: u32,
    longer: &[u8],
    next: u32,
    b: u8,
    table: Vec<u32>,
)
    requires
        none@.len() == 0,
        call_ensures(checksum, (none,), zero),
        call_ensures(checksum, (bytes,), r),
        longer@ == bytes@.push(b),
        call_ensures(checksum, (longer,), next),
        call_ensures(checksum_table, (), table),
    ensures
        zero == 0,
        !next == (!r >> 8) ^ table@[((!r ^ (b as u32)) & 0xFF) as int],
{
    let register = crc_register(bytes@);
    let mixed = register ^ (b as u32);
    let low = mixed & 0xFF;
    assert(longer@.drop_last() =~= bytes@);
    assert(low < 256 && (mixed >> 8) == (register >> 8)) by (bit_vector)
        requires
            low == mixed & 0xFF,
            mixed == register ^ (b as u32),
    ;
    lemma_table_step(mixed);
    assert(!0xFFFF_FFFFu32 == 0) by (bit_vector);
    assert(forall|v: u32| #[trigger] !(!v) == v) by (bit_vector);
    assert(!r == register);
    assert(!next == crc_register(longer@));
    assert(table@[low as int] == crc_steps(low, 8));
}

/// A frame begins with `CHRN`, then the length of its header in two bytes, that of
/// its payload in four and the checksum of both in four, least significant first,
/// and then holds the header and the payload. A document is framed exactly when it
/// has a signal and an encoding, its payload is of at most 8 MiB and its header fits
/// two bytes of length.
pub proof fn law_how_a_frame_is_laid_out(
    signal: &str,
    encoding: &str,
    id: &str,
    payload: &[u8],
    r: Option<Vec<u8>>,
    text: String,
    body: &[u8],
    sum: u32,
)
    requires
        call_ensures(frame, (signal, encoding, id, payload), r),
        call_ensures(header_json, (signal, encoding, id), text),
        body@ == encode_utf8(text@) + payload@,
        call_ensures(checksum, (body,), sum),
    ensures
        r is Some <==> payload@.len() <= 8388608 && signal@.len() > 0 && encoding@.len() > 0
            && encode_utf8(text@).len() <= 65535,
        r matches Some(bytes) ==> {
            let f = bytes@;
            &&& f.len() == 14 + body@.len()
            &&& f[0] == 0x43 && f[1] == 0x48 && f[2] == 0x52 && f[3] == 0x4e
            &&& f[4] + 256 * f[5] == encode_utf8(text@).len()
            &&& f[6] + 256 * f[7] + 65536 * f[8] + 16777216 * f[9] == payload@.len()
            &&& f[10] + 256 * f[11] + 65536 * f[12] + 16777216 * f[13] == sum
            &&& f.skip(14) == body@
        },
{
    if let Some(bytes) = r {
        let header = encode_utf8(text@);
        let f = bytes@;
        lemma_byte_ranges();
        lemma_little_endian(header.len(), 2);
        lemma_little_endian(payload@.len(), 4);
        lemma_little_endian(sum as nat, 4);
        let a = little_endian(header.len(), 2);
        let b = little_endian(payload@.len(), 4);
        let c = little_endian(sum as nat, 4);
        lemma_fields(magic(), a, b, c, body@, Seq::empty());
        assert(f =~= magic() + a + b + c + body@ + Seq::empty());
        lemma_two_bytes(a);
        lemma_four_bytes(b);
        lemma_four_bytes(c);
        assert(f.take(4)[0] == magic()[0] && f.take(4)[1] == magic()[1] && f.take(4)[2]
            == magic()[2] && f.take(4)[3] == magic()[3]);
        assert(f.subrange(4, 6)[0] == a[0] && f.subrange(4, 6)[1] == a[1]);
        assert(f.subrange(6, 10)[0] == b[0] && f.subrange(6, 10)[1] == b[1] && f.subrange(6, 10)[2]
            == b[2] && f.subrange(6, 10)[3] == b[3]);
        assert(f.subrange(10, 14)[0] == c[0] && f.subrange(10, 14)[1] == c[1] && f.subrange(
            10,
            14,
        )[2] == c[2] && f.subrange(10, 14)[3] == c[3]);
        assert(f.skip(14) =~= body@);
    }
}

proof fn lemma_two_bytes(s: Seq<u8>)
    requires
        s.len() == 2,
    ensures
        number_of(s) == s[0] + 256 * s[1],
{
    let t = s.drop_first();
    assert(t[0] == s[1]);
    assert(number_of(t.drop_first()) == 0);
    assert(number_of(t) == t[0]);
}

proof fn lemma_four_bytes(s: Seq<u8>)
    requires
        s.len() == 4,
    ensures
        number_of(s) == s[0] + 256 * s[1] + 65536 * s[2] + 16777216 * s[3],
{
    let t = s.drop_first();
    let u = t.drop_first();
    lemma_two_bytes(u);
    assert(t[0] == s[1] && u[0] == s[2] && u[1] == s[3]);
    assert(number_of(t) == t[0] as nat + 256 * number_of(u));
    assert(number_of(s) == s[0] as nat + 256 * number_of(t));
}

/// A header names the signal, the encoding and the id, each as JSON under its key.
pub proof fn law_a_header_names_its_document(signal: &str, encoding: &str, id: &str, r: String)
    requires
        call_ensures(header_json, (signal, encoding, id), r),
    ensures
        r@ == "{\"signal\":"@ + rendered(Json::Text(signal@)) + ",\"encoding\":"@ + rendered(
            Json::Text(encoding@),
        ) + ",\"id\":"@ + rendered(Json::Text(id@)) + "}"@,
{
}

/// A segment's file name is `segment-`, its generation in at least six digits, and
/// `.spool`; it reads back as that generation.
pub proof fn law_segment_names(
    generation: u64,
    r: String,
    name: &str,
    digits: String,
    back: Option<u64>,
)
    requires
        call_ensures(segment_name, (generation,), r),
        call_ensures(decimal_text, (generation as u128,), digits),
        name@ == r@,
        call_ensures(generation_of, (name,), back),
    ensures
        back == Some(generation),
        ({
            let n = digits@.len() as int;
            let width = if n < 6 {
                6
            } else {
                n
            };
            &&& r@.len() == 14 + width
            &&& r@.take(8) == "segment-"@
            &&& r@.skip(8 + width) == ".spool"@
            &&& r@.subrange(8 + width - n, 8 + width) == digits@
            &&& forall|i: int| 8 <= i < 8 + width - n ==> #[trigger] r@[i] == '0'
        }),
{
    law_segment_name_round_trip(generation);
    reveal_strlit("segment-");
    reveal_strlit(".spool");
    assert("segment-"@.len() == 8);
    assert(".spool"@.len() == 6);
    let n = digits@.len() as int;
    lemma_zero_run(6 - n);
    let width = if n < 6 {
        6
    } else {
        n
    };
    assert(r@.take(8) =~= "segment-"@);
    assert(r@.skip(8 + width) =~= ".spool"@);
    assert(r@.subrange(8 + width - n, 8 + width) =~= digits@);
    assert forall|i: int| 8 <= i < 8 + width - n implies #[trigger] r@[i] == '0' by {
        assert(r@[i] == zeros(6 - n)[i - 8]);
    }
}

proof fn lemma_zero_run(k: int)
    ensures
        k >= 0 ==> zeros(k).len() == k,
        k < 0 ==> zeros(k).len() == 0,
        forall|i: int| 0 <= i < zeros(k).len() ==> #[trigger] zeros(k)[i] == '0',
    decreases k,
{
    if k > 0 {
        lemma_zero_run(k - 1);
    }
}

/// A file is a segment exactly when its name is `segment-`, a number and `.spool`.
pub proof fn law_which_files_are_segments(
    name: &str,
    digits: &str,
    n: Option<u128>,
    r: Option<u64>,
)
    requires
        call_ensures(generation_of, (name,), r),
        call_ensures(parse_unsigned, (digits, u64::MAX as u128), n),
    ensures
        name@ == "segment-"@ + digits@ + ".spool"@ ==> (r is Some <==> n is Some) && (n matches Some(
            v,
        ) ==> r == Some(v as u64)),
        r is Some ==> exists|d: Seq<char>| name@ == #[trigger] ("segment-"@ + d) + ".spool"@,
{
    reveal_strlit("segment-");
    reveal_strlit(".spool");
    assert("segment-"@.len() == 8);
    assert(".spool"@.len() == 6);
    if name@ == "segment-"@ + digits@ + ".spool"@ {
        assert(name@.subrange(0, 8) =~= "segment-"@);
        let rest = name@.skip(8);
        assert(rest =~= digits@ + ".spool"@);
        assert(rest.subrange(rest.len() - 6, rest.len() as int) =~= ".spool"@);
        assert(rest.take(rest.len() - 6) =~= digits@);
    }
    if r is Some {
        let rest = name@.skip(8);
        let d = rest.take(rest.len() - 6);
        assert(name@.subrange(0, 8) == "segment-"@);
        assert(rest.subrange(rest.len() - 6, rest.len() as int) == ".spool"@);
        assert(name@ =~= ("segment-"@ + d) + ".spool"@);
    }
}

proof fn lemma_generations_found(names: Seq<Seq<char>>, n: u64)
    ensures
        generations_in(names).contains(n) <==> exists|i: int|
            0 <= i < names.len() && generation_in(#[trigger] names[i]) == Some(n as nat),
        generations_in(names).len() <= names.len(),
    decreases names.len(),
{
    if names.len() > 0 {
        let init = names.drop_last();
        lemma_generations_found(init, n);
        let before = generations_in(init);
        let all = generations_in(names);
        if all.contains(n) {
            let k = choose|k: int| 0 <= k < all.len() && all[k] == n;
            if k < before.len() {
                assert(before[k] == n);
                assert(before.contains(n));
                let i = choose|i: int|
                    0 <= i < init.len() && generation_in(#[trigger] init[i]) == Some(n as nat);
                assert(names[i] == init[i]);
            } else {
                assert(generation_in(names[names.len() - 1]) == Some(n as nat));
            }
        }
        if exists|i: int|
            0 <= i < names.len() && generation_in(#[trigger] names[i]) == Some(n as nat) {
            let i = choose|i: int|
                0 <= i < names.len() && generation_in(#[trigger] names[i]) == Some(n as nat);
            if i < init.len() {
                assert(init[i] == names[i]);
                assert(before.contains(n));
                let k = choose|k: int| 0 <= k < before.len() && before[k] == n;
                assert(all[k] == n);
            } else {
                assert(all[all.len() - 1] == n);
            }
        }
    }
}

/// The generations of a directory are those of its segments, ascending.
pub proof fn law_the_generations_of_a_directory(names: &Vec<String>, r: Vec<u64>, n: u64)
    requires
        call_ensures(generations, (names,), r),
    ensures
        forall|i: int, j: int| 0 <= i < j < r@.len() ==> r@[i] <= r@[j],
        r@.contains(n) <==> exists|i: int|
            0 <= i < names@.len() && generation_in((#[trigger] names@[i])@) == Some(n as nat),
{
    let all = texts(names@);
    lemma_generations_found(all, n);
    r@.to_multiset_ensures();
    generations_in(all).to_multiset_ensures();
    assert(r@.contains(n) <==> r@.to_multiset().count(n) > 0);
    assert(generations_in(all).contains(n) <==> generations_in(all).to_multiset().count(n) > 0);
    if exists|i: int|
        0 <= i < names@.len() && generation_in((#[trigger] names@[i])@) == Some(n as nat) {
        let i = choose|i: int|
            0 <= i < names@.len() && generation_in((#[trigger] names@[i])@) == Some(n as nat);
        assert(all[i] == names@[i]@);
    }
    if exists|i: int| 0 <= i < all.len() && generation_in(#[trigger] all[i]) == Some(n as nat) {
        let i = choose|i: int|
            0 <= i < all.len() && generation_in(#[trigger] all[i]) == Some(n as nat);
        assert(all[i] == names@[i]@);
    }
}

/// A directory keeps its four newest segments: those before them go.
pub proof fn law_the_four_newest_segments_stay(held: &Vec<u64>, r: Vec<u64>)
    requires
        call_ensures(enforce_segment_budget, (held,), r),
    ensures
        held@.len() <= 4 ==> r@.len() == 0,
        held@.len() > 4 ==> r@.len() == held@.len() - 4,
        forall|i: int| 0 <= i < r@.len() ==> #[trigger] r@[i] == held@[i],
{
}

/// Each kind of failure is latched on its own, but for what no operator would tell
/// apart.
pub proof fn law_which_failures_share_a_latch(a: IoKind, b: IoKind, r: usize, s: usize)
    requires
        call_ensures(error_slot, (a,), r),
        call_ensures(error_slot, (b,), s),
    ensures
        r < 6,
        r == s <==> a == b || ((a is AlreadyExists || a is Other) && (b is AlreadyExists
            || b is Other)),
{
}

/// A failure is announced the first time and never again, and leaves the latch of
/// every other kind as it was.
pub proof fn law_a_failure_is_announced_once(
    log: &mut SpoolLog,
    kind: IoKind,
    first: bool,
    again: &mut SpoolLog,
    other: IoKind,
    second: bool,
    slot: usize,
    other_slot: usize,
)
    requires
        old(log).wf(),
        call_ensures(report_failure, (log, kind), first),
        *old(again) == *final(log),
        call_ensures(report_failure, (again, other), second),
        call_ensures(error_slot, (kind,), slot),
        call_ensures(error_slot, (other,), other_slot),
    ensures
        first == !old(log).announced@[slot as int],
        slot == other_slot ==> !second,
        slot != other_slot ==> second == !old(log).announced@[other_slot as int],
        final(log).dropped_frames == old(log).dropped_frames,
        final(log).dropped_bytes == old(log).dropped_bytes,
{
}

/// What is lost is counted, frames and bytes each on their own.
pub proof fn law_losses_add_up(log: &mut SpoolLog, frames: u64, bytes: u64, now: &SpoolLog, f: u64, b: u64)
    requires
        call_ensures(count_drop, (log, frames, bytes), ()),
        *now == *final(log),
        call_ensures(dropped, (now,), f),
        call_ensures(dropped_bytes, (now,), b),
        old(log).dropped_frames + frames <= u64::MAX,
        old(log).dropped_bytes + bytes <= u64::MAX,
    ensures
        f == old(log).dropped_frames + frames,
        b == old(log).dropped_bytes + bytes,
        final(log).announced@ == old(log).announced@,
{
}

/// A removed segment is lost with every frame that was appended to it, and the line
/// about it names it and its length.
pub proof fn law_a_removed_segment_is_lost_with_its_frames(
    log: &mut SpoolLog,
    generation: u64,
    bytes: u64,
    segment: &[u8],
    r: String,
    documents: Seq<(Seq<u8>, Seq<u8>)>,
    name: String,
    length: String,
)
    requires
        call_ensures(count_removed_segment, (log, generation, bytes, segment), r),
        call_ensures(segment_name, (generation,), name),
        call_ensures(decimal_text, (bytes as u128,), length),
        segment@ == log_of(documents),
        forall|i: int|
            0 <= i < documents.len() ==> (#[trigger] documents[i]).0.len() <= 65535
                && documents[i].1.len() <= 8388608,
        old(log).dropped_frames + documents.len() < u64::MAX,
        old(log).dropped_bytes + bytes <= u64::MAX,
    ensures
        documents.len() > 0 ==> final(log).dropped_frames == old(log).dropped_frames
            + documents.len(),
        documents.len() == 0 ==> final(log).dropped_frames == old(log).dropped_frames + 1,
        final(log).dropped_bytes == old(log).dropped_bytes + bytes,
        r@ == "[chronos-ext] spool budget reached: dropped "@ + name@ + " ("@ + length@
            + " bytes) unshipped. The agent is not draining this spool."@,
{
    law_every_frame_is_counted(documents);
}

/// The line about a failed write tells what failed, where, and what was lost.
pub proof fn law_the_line_about_a_failed_write(
    log: &SpoolLog,
    kind: &str,
    error: &str,
    directory: &str,
    r: String,
    frames: String,
    bytes: String,
)
    requires
        call_ensures(failure_text, (log, kind, error, directory), r),
        call_ensures(decimal_text, (log.dropped_frames as u128,), frames),
        call_ensures(decimal_text, (log.dropped_bytes as u128,), bytes),
    ensures
        r@ == "[chronos-ext] spool write failed ("@ + kind@ + ": "@ + error@ + ") at "@ + directory@
            + ": this process's telemetry is being discarded. "@ + frames@ + " frames ("@ + bytes@
            + " bytes) lost so far. Reported once per process per error kind, and every PHP worker is its own process."@,
{
}

/// An append looks for the newest segment, opens it or creates the first, starts the
/// next one where it is full at 64 MiB, trims the directory after that, and writes
/// once.
pub proof fn law_the_steps_of_an_append(
    log: &mut SpoolLog,
    state: AppendState,
    event: AppendEvent,
    frame_len: usize,
    r: (AppendState, AppendAction),
)
    requires
        old(log).wf(),
        call_ensures(append, (log, state, event, frame_len), r),
    ensures
        state is Directory && event is Done ==> r == (
            AppendState::Scanning { rotated: false },
            AppendAction::FindNewest,
        ),
        state matches AppendState::Scanning { rotated } ==> (event matches AppendEvent::Newest(found)
            ==> match found {
            Some(g) => r == (
                AppendState::Opening { generation: g, created: false, rotated },
                AppendAction::OpenAppend(g),
            ),
            None => r == (
                AppendState::Opening { generation: 1, created: true, rotated },
                AppendAction::CreateNew(1),
            ),
        }),
        state matches AppendState::Opening { generation, created, rotated } ==> {
            &&& event is Done && rotated ==> r == (AppendState::Writing, AppendAction::Write)
            &&& event is Done && !rotated ==> r == (
                AppendState::Measuring { generation },
                AppendAction::ReadLength,
            )
            &&& event matches AppendEvent::Failed(kind) ==> {
                let raced = if created {
                    kind is AlreadyExists
                } else {
                    kind is NotFound
                };
                if raced {
                    r == (AppendState::Scanning { rotated }, AppendAction::FindNewest)
                } else {
                    r.0 is Over && r.1 is Fail
                }
            }
        },
        state matches AppendState::Measuring { generation } ==> (event matches AppendEvent::Length(n)
            ==> {
            &&& n < 67108864 ==> r == (AppendState::Writing, AppendAction::Write)
            &&& n >= 67108864 && generation < u64::MAX ==> r == (
                AppendState::Rotating { next: (generation + 1) as u64 },
                AppendAction::CreateNew((generation + 1) as u64),
            )
        }),
        state is Rotating && event is Done ==> r == (
            AppendState::Trimming,
            AppendAction::EnforceBudget,
        ),
        state is Rotating && event == AppendEvent::Failed(IoKind::AlreadyExists) ==> r == (
            AppendState::Scanning { rotated: true },
            AppendAction::FindNewest,
        ),
        state is Trimming && event is Done ==> r == (AppendState::Writing, AppendAction::Write),
        state is Writing && event is Written ==> (r == (AppendState::Over, AppendAction::Succeed)
            <==> event == AppendEvent::Written(frame_len)),
{
}

/// A failed append counts its frame and its bytes as lost and says which failure it
/// was: a short write failed too. One that goes on loses nothing.
pub proof fn law_a_failed_append_loses_its_frame(
    log: &mut SpoolLog,
    state: AppendState,
    event: AppendEvent,
    frame_len: usize,
    r: (AppendState, AppendAction),
    slot: usize,
    kind: IoKind,
)
    requires
        old(log).wf(),
        call_ensures(append, (log, state, event, frame_len), r),
        call_ensures(error_slot, (kind,), slot),
        old(log).dropped_frames < u64::MAX,
        old(log).dropped_bytes + frame_len <= u64::MAX,
    ensures
        r.1 is Fail ==> {
            &&& r.0 is Over
            &&& final(log).dropped_frames == old(log).dropped_frames + 1
            &&& final(log).dropped_bytes == old(log).dropped_bytes + frame_len
        },
        !(r.1 is Fail) ==> {
            &&& final(log).dropped_frames == old(log).dropped_frames
            &&& final(log).dropped_bytes == old(log).dropped_bytes
            &&& final(log).announced@ == old(log).announced@
        },
        r.1 is Fail && kind == r.1->kind ==> r.1->announce == !old(log).announced@[slot as int]
            && final(log).announced@[slot as int],
        event == AppendEvent::Failed(kind) && (state is Directory || state is Writing) ==> r.1 is Fail
            && r.1->kind == kind,
        event == AppendEvent::Failed(kind) && state is Rotating && !(kind is AlreadyExists)
            ==> r.1 is Fail && r.1->kind == kind,
        event == AppendEvent::Failed(kind) && state is Opening && !(kind is AlreadyExists)
            && !(kind is NotFound) ==> r.1 is Fail && r.1->kind == kind,
        state is Writing && (event matches AppendEvent::Written(n) && n != frame_len) ==> r.1 is Fail
            && r.1->kind is WriteZero,
{
}

/// An append begins with the document's frame; one that cannot be framed is counted
/// as lost, and announced once as invalid input.
pub proof fn law_an_append_begins_with_its_frame(
    log: &mut SpoolLog,
    signal: &str,
    encoding: &str,
    id: &str,
    payload: &[u8],
    r: Result<Vec<u8>, bool>,
    made: Option<Vec<u8>>,
    slot: usize,
)
    requires
        old(log).wf(),
        call_ensures(begin_append, (log, signal, encoding, id, payload), r),
        call_ensures(frame, (signal, encoding, id, payload), made),
        call_ensures(error_slot, (IoKind::InvalidInput,), slot),
        old(log).dropped_frames < u64::MAX,
        old(log).dropped_bytes + payload@.len() <= u64::MAX,
    ensures
        r is Ok <==> made is Some,
        r matches Ok(bytes) ==> bytes@ == made->0@ && *final(log) == *old(log),
        r matches Err(announce) ==> {
            &&& announce == !old(log).announced@[slot as int]
            &&& final(log).announced@[slot as int]
            &&& final(log).dropped_frames == old(log).dropped_frames + 1
            &&& final(log).dropped_bytes == old(log).dropped_bytes + payload@.len()
        },
{
}

/// The line about a write that was cut short tells how far it came, where, and what
/// was lost.
pub proof fn law_the_line_about_a_short_write(
    log: &SpoolLog,
    written: usize,
    frame_len: usize,
    directory: &str,
    r: String,
    came: String,
    of: String,
    frames: String,
    bytes: String,
)
    requires
        call_ensures(short_text, (log, written, frame_len, directory), r),
        call_ensures(decimal_text, (written as u128,), came),
        call_ensures(decimal_text, (frame_len as u128,), of),
        call_ensures(decimal_text, (log.dropped_frames as u128,), frames),
        call_ensures(decimal_text, (log.dropped_bytes as u128,), bytes),
    ensures
        r@ == "[chronos-ext] spool append was short ("@ + came@ + " of "@ + of@ + " bytes) at "@
            + directory@ + ": frame dropped. "@ + frames@ + " frames ("@ + bytes@
            + " bytes) lost so far. Reported once per process, and every PHP worker is its own process."@,
{
}

} // verus!
