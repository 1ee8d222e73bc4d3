//! Outbound curl calls: the header list of each handle, the propagation headers
//! merged into it, and what a finished transfer says.

use crate::observer::spans::CallFrame;
use crate::observer::state::{
    header_lists, lemma_under, opt_pairs, push_some, with_some, Handles, Observer, Request,
};
use crate::propagation_priority::{claim_once, claim_write, write_view};
use crate::text::{
    begins, byte_len, chars_of, copy, decimal, decimal_text, first_of, lemma_first_of, lowercase,
    nonempty, opt_text, opt_view, or_empty, pairs, parse_unsigned, parsed, same, starts_with,
    string_of, text_bytes, texts, to_lowercase, trim, trimmed,
};
use crate::zend_helpers::{
    arg_array_key_string_array, arg_long, arg_object_handle, arg_string_array, entry_at_index,
    opt_texts, pair_value, strict_text, string_retval, values_of, Call, Zval,
};
use std::collections::HashMap;
use vstd::prelude::*;

verus! {

broadcast use vstd::std_specs::hash::group_hash_axioms;

/// curl's option for the header list.
pub const CURLOPT_HTTPHEADER: i64 = 10023;

/// The handle a call was made on.
pub open spec fn handle_of(call: Call) -> Option<u32> {
    match call.arg(0) {
        Zval::Object(o) => Some(o.handle),
        _ => None,
    }
}

/// The header list that `curl_setopt` sets: an unreadable one counts as empty.
pub open spec fn setopt_headers(call: Call) -> Option<Seq<Seq<char>>> {
    if call.arg(1) == Zval::Long(CURLOPT_HTTPHEADER) {
        Some(
            match values_of(call.arg(2)) {
                Some(v) => v,
                None => Seq::empty(),
            },
        )
    } else {
        None
    }
}

/// The header list that `curl_setopt_array` sets.
pub open spec fn setopt_array_headers(call: Call) -> Option<Seq<Seq<char>>> {
    match call.arg(1) {
        Zval::Array(t) => match entry_at_index(t@, CURLOPT_HTTPHEADER) {
            Some(v) => values_of(v),
            None => None,
        },
        _ => None,
    }
}

/// The header lists once a handle's list is known.
pub open spec fn noted(
    lists: Map<u32, Seq<Seq<char>>>,
    handle: Option<u32>,
    headers: Option<Seq<Seq<char>>>,
) -> Map<u32, Seq<Seq<char>>> {
    match (handle, headers) {
        (Some(h), Some(list)) => lists.insert(h, list),
        _ => lists,
    }
}

fn keep_headers(map: &mut HashMap<u32, Vec<String>>, handle: u32, headers: Vec<String>)
    ensures
        header_lists(final(map)@) == header_lists(old(map)@).insert(handle, texts(headers@)),
{
    let ghost before = map@;
    let ghost list = texts(headers@);
    map.insert(handle, headers);
    assert(header_lists(map@) =~= header_lists(before).insert(handle, list));
}

/// Note the header list set through `curl_setopt`.
pub fn track_curl_setopt(map: &mut HashMap<u32, Vec<String>>, call: &Call)
    ensures
        header_lists(final(map)@) == noted(
            header_lists(old(map)@),
            handle_of(*call),
            setopt_headers(*call),
        ),
{
    let handle = match arg_object_handle(call, 0) {
        Some(h) => h,
        None => {
            return ;
        },
    };
    match arg_long(call, 1) {
        Some(option) => {
            if option != CURLOPT_HTTPHEADER {
                return ;
            }
        },
        None => {
            return ;
        },
    }
    let headers = match arg_string_array(call, 2) {
        Some(v) => v,
        None => {
            let v: Vec<String> = Vec::new();
            assert(texts(v@) =~= Seq::empty());
            v
        },
    };
    keep_headers(map, handle, headers);
}

/// Note the header list set through `curl_setopt_array`.
pub fn track_curl_setopt_array(map: &mut HashMap<u32, Vec<String>>, call: &Call)
    ensures
        header_lists(final(map)@) == noted(
            header_lists(old(map)@),
            handle_of(*call),
            setopt_array_headers(*call),
        ),
{
    let handle = match arg_object_handle(call, 0) {
        Some(h) => h,
        None => {
            return ;
        },
    };
    match arg_array_key_string_array(call, 1, CURLOPT_HTTPHEADER) {
        Some(headers) => {
            keep_headers(map, handle, headers);
        },
        None => {},
    }
}

/// Whether a header line is of the header named by a lower-case prefix.
pub open spec fn is_header(line: Seq<char>, prefix: Seq<char>) -> bool {
    begins(lowercase(line), prefix)
}

/// The lines that are not of a header.
pub open spec fn without(lines: Seq<Seq<char>>, prefix: Seq<char>) -> Seq<Seq<char>>
    decreases lines.len(),
{
    if lines.len() == 0 {
        Seq::empty()
    } else {
        let before = without(lines.drop_last(), prefix);
        if is_header(lines.last(), prefix) {
            before
        } else {
            before.push(lines.last())
        }
    }
}

/// The lines with one of a header, in place of any there were.
pub open spec fn with_header(
    lines: Seq<Seq<char>>,
    prefix: Seq<char>,
    line: Seq<char>,
) -> Seq<Seq<char>> {
    without(lines, prefix).push(line)
}

/// The lines with a header when there is a value for it, and as they are when
/// there is none.
pub open spec fn with_header_if(
    lines: Seq<Seq<char>>,
    prefix: Seq<char>,
    name: Seq<char>,
    value: Option<Seq<char>>,
) -> Seq<Seq<char>> {
    match value {
        Some(v) => with_header(lines, prefix, name + v),
        None => lines,
    }
}

/// A header list with the propagation headers merged in.
pub open spec fn propagated(
    lines: Seq<Seq<char>>,
    traceparent: Seq<char>,
    tracestate: Option<Seq<char>>,
    baggage: Option<Seq<char>>,
) -> Seq<Seq<char>> {
    let a = with_header(lines, "traceparent:"@, "traceparent: "@ + traceparent);
    let b = with_header_if(a, "tracestate:"@, "tracestate: "@, tracestate);
    with_header_if(b, "baggage:"@, "baggage: "@, baggage)
}

fn set_header(headers: &mut Vec<String>, prefix: &str, name: &str, value: &str)
    ensures
        texts(final(headers)@) == with_header(texts(old(headers)@), prefix@, name@ + value@),
{
    let ghost all = texts(headers@);
    let mut kept: Vec<String> = Vec::new();
    let mut i: usize = 0;
    assert(texts(kept@) =~= without(all.take(0), prefix@));
    while i < headers.len()
        invariant
            i <= headers@.len(),
            all == texts(headers@),
            texts(kept@) == without(all.take(i as int), prefix@),
        decreases headers@.len() - i,
    {
        assert(all.take(i + 1).drop_last() =~= all.take(i as int));
        assert(all.take(i + 1).last() == all[i as int]);
        let lower = to_lowercase(headers[i].as_str());
        let ghost before = texts(kept@);
        if !starts_with(lower.as_str(), prefix) {
            kept.push(headers[i].clone());
            assert(texts(kept@) =~= before.push(all[i as int]));
        }
        i = i + 1;
    }
    assert(all.take(all.len() as int) =~= all);
    let mut line = copy(name);
    line.append(value);
    let ghost before = texts(kept@);
    let ghost lv = line@;
    kept.push(line);
    assert(texts(kept@) =~= before.push(lv));
    *headers = kept;
}

/// Merge the propagation headers into an application's own header list. Each
/// header that is added first evicts earlier spellings of itself; a header with
/// no value is left as it is.
pub fn merge_propagation_headers(
    headers: &mut Vec<String>,
    traceparent: &str,
    tracestate: Option<&str>,
    baggage: Option<&str>,
)
    ensures
        texts(final(headers)@) == propagated(
            texts(old(headers)@),
            traceparent@,
            opt_view(tracestate),
            opt_view(baggage),
        ),
{
    set_header(headers, "traceparent:", "traceparent: ", traceparent);
    match tracestate {
        Some(v) => {
            set_header(headers, "tracestate:", "tracestate: ", v);
        },
        None => {},
    }
    match baggage {
        Some(v) => {
            set_header(headers, "baggage:", "baggage: ", v);
        },
        None => {},
    }
}

/// How many lines are of a header.
pub open spec fn header_count(lines: Seq<Seq<char>>, prefix: Seq<char>) -> nat {
    (lines.len() - without(lines, prefix).len()) as nat
}

proof fn lemma_without_len(lines: Seq<Seq<char>>, prefix: Seq<char>)
    ensures
        without(lines, prefix).len() <= lines.len(),
    decreases lines.len(),
{
    if lines.len() > 0 {
        lemma_without_len(lines.drop_last(), prefix);
    }
}

proof fn lemma_without_push(lines: Seq<Seq<char>>, line: Seq<char>, prefix: Seq<char>)
    ensures
        without(lines.push(line), prefix) == if is_header(line, prefix) {
            without(lines, prefix)
        } else {
            without(lines, prefix).push(line)
        },
{
    assert(lines.push(line).drop_last() =~= lines);
}

proof fn lemma_without_twice(lines: Seq<Seq<char>>, p: Seq<char>, q: Seq<char>)
    ensures
        without(without(lines, p), p) == without(lines, p),
        without(without(lines, p), q) == without(without(lines, q), p),
    decreases lines.len(),
{
    if lines.len() > 0 {
        let init = lines.drop_last();
        let x = lines.last();
        lemma_without_twice(init, p, q);
        lemma_without_push(without(init, p), x, p);
        lemma_without_push(without(init, p), x, q);
        lemma_without_push(without(init, q), x, p);
    }
}

proof fn lemma_own_header(name: Seq<char>, prefix: Seq<char>, value: Seq<char>)
    requires
        prefix.len() <= name.len(),
        lowercase(name).take(prefix.len() as int) == prefix,
    ensures
        is_header(name + value, prefix),
{
    let line = lowercase(name + value);
    assert(line.subrange(0, prefix.len() as int) =~= lowercase(name).take(prefix.len() as int));
}

proof fn lemma_other_header(name: Seq<char>, prefix: Seq<char>, value: Seq<char>, i: int)
    requires
        0 <= i < prefix.len(),
        i < name.len(),
        crate::text::lowered(name[i]) != prefix[i],
    ensures
        !is_header(name + value, prefix),
{
    let line = lowercase(name + value);
    if is_header(name + value, prefix) {
        assert(line.subrange(0, prefix.len() as int)[i] == prefix[i]);
        assert(line[i] == crate::text::lowered(name[i]));
    }
}

proof fn lemma_header_names(value: Seq<char>)
    ensures
        is_header("traceparent: "@ + value, "traceparent:"@),
        !is_header("traceparent: "@ + value, "tracestate:"@),
        !is_header("traceparent: "@ + value, "baggage:"@),
        is_header("tracestate: "@ + value, "tracestate:"@),
        !is_header("tracestate: "@ + value, "traceparent:"@),
        !is_header("tracestate: "@ + value, "baggage:"@),
        is_header("baggage: "@ + value, "baggage:"@),
        !is_header("baggage: "@ + value, "traceparent:"@),
        !is_header("baggage: "@ + value, "tracestate:"@),
{
    reveal_strlit("traceparent: ");
    reveal_strlit("traceparent:");
    reveal_strlit("tracestate: ");
    reveal_strlit("tracestate:");
    reveal_strlit("baggage: ");
    reveal_strlit("baggage:");
    assert(lowercase("traceparent: "@).take(12) =~= "traceparent:"@);
    assert(lowercase("tracestate: "@).take(11) =~= "tracestate:"@);
    assert(lowercase("baggage: "@).take(8) =~= "baggage:"@);
    lemma_own_header("traceparent: "@, "traceparent:"@, value);
    lemma_own_header("tracestate: "@, "tracestate:"@, value);
    lemma_own_header("baggage: "@, "baggage:"@, value);
    lemma_other_header("traceparent: "@, "tracestate:"@, value, 5);
    lemma_other_header("traceparent: "@, "baggage:"@, value, 0);
    lemma_other_header("tracestate: "@, "traceparent:"@, value, 5);
    lemma_other_header("tracestate: "@, "baggage:"@, value, 0);
    lemma_other_header("baggage: "@, "traceparent:"@, value, 0);
    lemma_other_header("baggage: "@, "tracestate:"@, value, 0);
}

/// However often a handle is retried and whatever it carried, exactly one
/// `traceparent` is on it after a merge, and exactly one of each other header
/// that there was a value for.
pub proof fn law_one_of_each_propagation_header(
    lines: Seq<Seq<char>>,
    traceparent: Seq<char>,
    tracestate: Option<Seq<char>>,
    baggage: Option<Seq<char>>,
)
    ensures
        header_count(propagated(lines, traceparent, tracestate, baggage), "traceparent:"@) == 1,
        tracestate is Some ==> header_count(
            propagated(lines, traceparent, tracestate, baggage),
            "tracestate:"@,
        ) == 1,
        baggage is Some ==> header_count(
            propagated(lines, traceparent, tracestate, baggage),
            "baggage:"@,
        ) == 1,
{
    let tp = "traceparent:"@;
    let ts = "tracestate:"@;
    let bg = "baggage:"@;
    let l1 = "traceparent: "@ + traceparent;
    lemma_header_names(traceparent);
    let a0 = without(lines, tp);
    let a = a0.push(l1);
    lemma_without_twice(lines, tp, ts);
    lemma_without_push(a0, l1, tp);
    lemma_without_push(a0, l1, ts);
    lemma_without_push(a0, l1, bg);
    let b = with_header_if(a, ts, "tracestate: "@, tracestate);
    match tracestate {
        Some(v) => {
            lemma_header_names(v);
            let l2 = "tracestate: "@ + v;
            let b0 = without(a, ts);
            lemma_without_twice(a, ts, tp);
            lemma_without_twice(a0, ts, tp);
            lemma_without_twice(a0, tp, ts);
            lemma_without_push(b0, l2, ts);
            lemma_without_push(b0, l2, tp);
            lemma_without_push(b0, l2, bg);
            assert(without(b0, tp) == without(without(a, tp), ts));
            lemma_without_push(without(a0, ts), l1, tp);
        },
        None => {},
    }
    assert(without(b, tp).len() + 1 == b.len());
    match baggage {
        Some(v) => {
            lemma_header_names(v);
            let l3 = "baggage: "@ + v;
            let c0 = without(b, bg);
            lemma_without_twice(b, bg, tp);
            lemma_without_twice(b, bg, ts);
            lemma_without_push(c0, l3, bg);
            lemma_without_push(c0, l3, tp);
            lemma_without_push(c0, l3, ts);
            lemma_count_kept(b, tp, bg);
            lemma_count_kept(b, ts, bg);
        },
        None => {},
    }
}

proof fn lemma_disjoint(line: Seq<char>, p: Seq<char>, q: Seq<char>, i: int)
    requires
        0 <= i < p.len(),
        i < q.len(),
        p[i] != q[i],
    ensures
        !(is_header(line, p) && is_header(line, q)),
{
    let low = lowercase(line);
    if is_header(line, p) && is_header(line, q) {
        assert(low.subrange(0, p.len() as int)[i] == low[i]);
        assert(low.subrange(0, q.len() as int)[i] == low[i]);
    }
}

proof fn lemma_count_kept(lines: Seq<Seq<char>>, p: Seq<char>, q: Seq<char>)
    requires
        q == "baggage:"@,
        p == "traceparent:"@ || p == "tracestate:"@,
    ensures
        header_count(without(lines, q), p) == header_count(lines, p),
    decreases lines.len(),
{
    lemma_without_len(lines, p);
    lemma_without_len(lines, q);
    lemma_without_len(without(lines, q), p);
    if lines.len() > 0 {
        let init = lines.drop_last();
        let x = lines.last();
        lemma_count_kept(init, p, q);
        lemma_without_len(init, p);
        lemma_without_len(without(init, q), p);
        lemma_without_push(without(init, q), x, p);
        reveal_strlit("baggage:");
        reveal_strlit("traceparent:");
        reveal_strlit("tracestate:");
        lemma_disjoint(x, p, q, 0);
    }
}

/// The application's own headers survive a merge, in their order; and so do its
/// own `tracestate` and `baggage` when the request carried neither.
pub proof fn law_other_headers_survive(
    lines: Seq<Seq<char>>,
    traceparent: Seq<char>,
    tracestate: Option<Seq<char>>,
    baggage: Option<Seq<char>>,
)
    ensures
        ({
            let after = propagated(lines, traceparent, tracestate, baggage);
            let tp = "traceparent:"@;
            let ts = "tracestate:"@;
            let bg = "baggage:"@;
            &&& without(without(without(after, tp), ts), bg) == without(
                without(without(lines, tp), ts),
                bg,
            )
            &&& tracestate is None && baggage is None ==> without(after, tp) == without(lines, tp)
        }),
{
    let tp = "traceparent:"@;
    let ts = "tracestate:"@;
    let bg = "baggage:"@;
    let l1 = "traceparent: "@ + traceparent;
    lemma_header_names(traceparent);
    let a0 = without(lines, tp);
    let a = a0.push(l1);
    lemma_without_twice(lines, tp, ts);
    lemma_without_push(a0, l1, tp);
    assert(without(a, tp) == a0);
    let b = with_header_if(a, ts, "tracestate: "@, tracestate);
    assert(without(without(b, tp), ts) == without(a0, ts)) by {
        match tracestate {
            Some(v) => {
                lemma_header_names(v);
                let b0 = without(a, ts);
                let l2 = "tracestate: "@ + v;
                lemma_without_push(b0, l2, tp);
                lemma_without_push(without(b0, tp), l2, ts);
                lemma_without_twice(a, ts, tp);
                lemma_without_twice(without(a, tp), ts, ts);
            },
            None => {},
        }
    }
    let c = with_header_if(b, bg, "baggage: "@, baggage);
    match baggage {
        Some(v) => {
            lemma_header_names(v);
            let c0 = without(b, bg);
            let l3 = "baggage: "@ + v;
            lemma_without_push(c0, l3, tp);
            lemma_without_push(without(c0, tp), l3, ts);
            lemma_without_push(without(without(c0, tp), ts), l3, bg);
            lemma_without_twice(b, bg, tp);
            lemma_without_twice(without(b, tp), bg, ts);
            lemma_without_twice(without(without(b, tp), ts), bg, bg);
        },
        None => {},
    }
}

/// The lines that a merge keeps: all but those of the headers that it writes.
pub open spec fn kept_lines(
    lines: Seq<Seq<char>>,
    tracestate: Option<Seq<char>>,
    baggage: Option<Seq<char>>,
) -> Seq<Seq<char>> {
    let a = without(lines, "traceparent:"@);
    let b = if tracestate is Some {
        without(a, "tracestate:"@)
    } else {
        a
    };
    if baggage is Some {
        without(b, "baggage:"@)
    } else {
        b
    }
}

/// The lines that a merge writes.
pub open spec fn own_lines(
    traceparent: Seq<char>,
    tracestate: Option<Seq<char>>,
    baggage: Option<Seq<char>>,
) -> Seq<Seq<char>> {
    let a = seq!["traceparent: "@ + traceparent];
    let b = match tracestate {
        Some(v) => a.push("tracestate: "@ + v),
        None => a,
    };
    match baggage {
        Some(v) => b.push("baggage: "@ + v),
        None => b,
    }
}

/// A merge is the kept lines, in their order, and then the written ones.
pub proof fn law_merge_appends_to_the_kept_lines(
    lines: Seq<Seq<char>>,
    traceparent: Seq<char>,
    tracestate: Option<Seq<char>>,
    baggage: Option<Seq<char>>,
)
    ensures
        propagated(lines, traceparent, tracestate, baggage) == kept_lines(
            lines,
            tracestate,
            baggage,
        ) + own_lines(traceparent, tracestate, baggage),
{
    let ts = "tracestate:"@;
    let bg = "baggage:"@;
    let l1 = "traceparent: "@ + traceparent;
    lemma_header_names(traceparent);
    let a0 = without(lines, "traceparent:"@);
    lemma_without_push(a0, l1, ts);
    lemma_without_push(a0, l1, bg);
    match tracestate {
        Some(v) => {
            lemma_header_names(v);
            let b0 = without(a0, ts);
            lemma_without_push(b0, l1, bg);
            lemma_without_push(b0.push(l1), "tracestate: "@ + v, bg);
        },
        None => {},
    }
    assert(propagated(lines, traceparent, tracestate, baggage) =~= kept_lines(
        lines,
        tracestate,
        baggage,
    ) + own_lines(traceparent, tracestate, baggage));
}

proof fn lemma_without_append(a: Seq<Seq<char>>, b: Seq<Seq<char>>, prefix: Seq<char>)
    ensures
        without(a + b, prefix) == without(a, prefix) + without(b, prefix),
    decreases b.len(),
{
    if b.len() == 0 {
        assert(a + b =~= a);
    } else {
        assert((a + b).drop_last() =~= a + b.drop_last());
        lemma_without_append(a, b.drop_last(), prefix);
    }
    assert(without(a + b, prefix) =~= without(a, prefix) + without(b, prefix));
}

proof fn lemma_own_lines_go(
    traceparent: Seq<char>,
    tracestate: Option<Seq<char>>,
    baggage: Option<Seq<char>>,
)
    ensures
        kept_lines(own_lines(traceparent, tracestate, baggage), tracestate, baggage)
            == Seq::<Seq<char>>::empty(),
{
    let tp = "traceparent:"@;
    let ts = "tracestate:"@;
    let bg = "baggage:"@;
    let none = Seq::<Seq<char>>::empty();
    let l1 = "traceparent: "@ + traceparent;
    lemma_header_names(traceparent);
    lemma_without_push(none, l1, tp);
    assert(none.push(l1) =~= seq![l1]);
    match tracestate {
        Some(v) => {
            lemma_header_names(v);
            let l2 = "tracestate: "@ + v;
            lemma_without_push(seq![l1], l2, tp);
            lemma_without_push(none, l2, ts);
        },
        None => {},
    }
    match baggage {
        Some(w) => {
            lemma_header_names(w);
            let l3 = "baggage: "@ + w;
            lemma_without_push(own_lines(traceparent, tracestate, None), l3, tp);
            match tracestate {
                Some(v) => {
                    lemma_without_push(none.push("tracestate: "@ + v), l3, ts);
                },
                None => {},
            }
            lemma_without_push(none, l3, bg);
        },
        None => {},
    }
}

/// Retrying a handle never stacks headers: a merge on top of an earlier one
/// leaves what it would have left without the earlier one.
pub proof fn law_a_retry_replaces_the_propagation_headers(
    lines: Seq<Seq<char>>,
    first: Seq<char>,
    second: Seq<char>,
    tracestate: Option<Seq<char>>,
    baggage: Option<Seq<char>>,
)
    ensures
        propagated(propagated(lines, first, tracestate, baggage), second, tracestate, baggage)
            == propagated(lines, second, tracestate, baggage),
{
    let tp = "traceparent:"@;
    let ts = "tracestate:"@;
    let bg = "baggage:"@;
    let once = propagated(lines, first, tracestate, baggage);
    let kept = kept_lines(lines, tracestate, baggage);
    let own = own_lines(first, tracestate, baggage);
    law_merge_appends_to_the_kept_lines(lines, first, tracestate, baggage);
    law_merge_appends_to_the_kept_lines(lines, second, tracestate, baggage);
    law_merge_appends_to_the_kept_lines(once, second, tracestate, baggage);
    lemma_own_lines_go(first, tracestate, baggage);
    lemma_without_append(kept, own, tp);
    lemma_without_append(without(kept, tp), without(own, tp), ts);
    lemma_without_append(without(kept, tp), without(own, tp), bg);
    lemma_without_append(
        without(without(kept, tp), ts),
        without(without(own, tp), ts),
        bg,
    );
    let a = without(lines, tp);
    lemma_without_twice(lines, tp, ts);
    lemma_without_twice(a, ts, tp);
    lemma_without_twice(a, bg, tp);
    lemma_without_twice(a, bg, ts);
    lemma_without_twice(without(a, ts), bg, tp);
    lemma_without_twice(without(a, ts), bg, ts);
    assert(kept_lines(kept, tracestate, baggage) == kept);
    assert(kept_lines(once, tracestate, baggage) =~= kept);
}

/// What an outbound curl call leads to: a setting of another tracer to write,
/// and the header list to set on the handle.
pub struct CurlInjection {
    pub ini: Option<(&'static str, &'static str)>,
    pub headers: Option<Vec<String>>,
}

/// The `tracestate` of the open request.
pub open spec fn request_tracestate(request: Request) -> Option<Seq<char>> {
    match request.context {
        Some(c) => opt_text(c.tracestate),
        None => None,
    }
}

/// The `baggage` of the open request.
pub open spec fn request_baggage(request: Request) -> Option<Seq<char>> {
    match request.context {
        Some(c) => opt_text(c.baggage),
        None => None,
    }
}

/// The header list of a handle: empty when none was set.
pub open spec fn list_of(lists: Map<u32, Seq<Seq<char>>>, handle: u32) -> Seq<Seq<char>> {
    if lists.contains_key(handle) {
        lists[handle]
    } else {
        Seq::empty()
    }
}

fn copy_texts(v: &Vec<String>) -> (r: Vec<String>)
    ensures
        texts(r@) == texts(v@),
{
    let mut out: Vec<String> = Vec::new();
    let mut i: usize = 0;
    while i < v.len()
        invariant
            i <= v@.len(),
            out@.len() == i,
            forall|j: int| 0 <= j < i ==> (#[trigger] out@[j])@ == v@[j]@,
        decreases v@.len() - i,
    {
        out.push(v[i].clone());
        i = i + 1;
    }
    assert(texts(out@) =~= texts(v@));
    out
}

/// Put a `traceparent` on the handle of an outbound curl call, merged with the
/// headers the application set, and publish it for userland to pick up.
pub fn inject_curl_traceparent(
    observer: &mut Observer,
    call: &Call,
    traceparent: &str,
    priority_enabled: bool,
    foreign_setting: Option<&str>,
) -> (r: CurlInjection)
    ensures
        opt_text(final(observer).pending_traceparent) == Some(traceparent@),
        final(observer).request.claim.claimed,
        write_view(r.ini) == claim_write(
            old(observer).request.claim.claimed,
            priority_enabled,
            foreign_setting,
        ),
        match handle_of(*call) {
            Some(handle) => {
                let list = propagated(
                    list_of(header_lists(old(observer).handles.curl_headers@), handle),
                    traceparent@,
                    request_tracestate(old(observer).request),
                    request_baggage(old(observer).request),
                );
                &&& opt_texts(r.headers) == Some(list)
                &&& header_lists(final(observer).handles.curl_headers@) == header_lists(
                    old(observer).handles.curl_headers@,
                ).insert(handle, list)
            },
            None => {
                &&& r.headers is None
                &&& final(observer).handles.curl_headers == old(observer).handles.curl_headers
            },
        },
        *final(observer) == (Observer {
            request: Request {
                claim: final(observer).request.claim,
                ..old(observer).request
            },
            handles: Handles {
                curl_headers: final(observer).handles.curl_headers,
                ..old(observer).handles
            },
            pending_traceparent: final(observer).pending_traceparent,
            ..*old(observer)
        }),
{
    observer.pending_traceparent = Some(copy(traceparent));
    let ini = claim_once(&mut observer.request.claim, priority_enabled, foreign_setting);
    let handle = match arg_object_handle(call, 0) {
        Some(h) => h,
        None => {
            return CurlInjection { ini, headers: None };
        },
    };
    let ghost lists = header_lists(observer.handles.curl_headers@);
    let mut headers = match observer.handles.curl_headers.get(&handle) {
        Some(v) => copy_texts(v),
        None => {
            let v: Vec<String> = Vec::new();
            assert(texts(v@) =~= Seq::empty());
            v
        },
    };
    assert(texts(headers@) == list_of(lists, handle));
    match &observer.request.context {
        Some(c) => {
            let tracestate: Option<&str> = match &c.tracestate {
                Some(s) => Some(s.as_str()),
                None => None,
            };
            let baggage: Option<&str> = match &c.baggage {
                Some(s) => Some(s.as_str()),
                None => None,
            };
            merge_propagation_headers(&mut headers, traceparent, tracestate, baggage);
        },
        None => {
            merge_propagation_headers(&mut headers, traceparent, None, None);
        },
    }
    let kept = copy_texts(&headers);
    keep_headers(&mut observer.handles.curl_headers, handle, kept);
    CurlInjection { ini, headers: Some(headers) }
}

/// A header line split at its first colon, both sides trimmed.
pub open spec fn header_pair(line: Seq<char>) -> Option<(Seq<char>, Seq<char>)> {
    let k = first_of(line, ':') as int;
    if k < line.len() {
        Some((trimmed(line.take(k)), trimmed(line.skip(k + 1))))
    } else {
        None
    }
}

/// The headers of a list that have a colon.
pub open spec fn header_pairs(lines: Seq<Seq<char>>) -> Seq<(Seq<char>, Seq<char>)>
    decreases lines.len(),
{
    if lines.len() == 0 {
        Seq::empty()
    } else {
        let before = header_pairs(lines.drop_last());
        match header_pair(lines.last()) {
            Some(p) => before.push(p),
            None => before,
        }
    }
}

fn split_header(line: &str) -> (r: Option<(String, String)>)
    ensures
        match r {
            Some(p) => header_pair(line@) == Some((p.0@, p.1@)),
            None => header_pair(line@) is None,
        },
{
    let v = chars_of(line);
    let mut i: usize = 0;
    while i < v.len() && v[i] != ':'
        invariant
            i <= v@.len(),
            forall|j: int| 0 <= j < i ==> v@[j] != ':',
        decreases v@.len() - i,
    {
        i = i + 1;
    }
    proof {
        lemma_first_of(v@, ':', i as int);
    }
    if i == v.len() {
        return None;
    }
    let name = string_of(&v, 0, i);
    let value = string_of(&v, i + 1, v.len());
    assert(name@ =~= line@.take(i as int));
    assert(value@ =~= line@.skip(i + 1));
    Some((trim(name.as_str()), trim(value.as_str())))
}

/// The header list of a handle as name and value pairs.
pub fn curl_header_pairs(headers: &Vec<String>) -> (r: Vec<(String, String)>)
    ensures
        pairs(r@) == header_pairs(texts(headers@)),
{
    let ghost all = texts(headers@);
    let mut out: Vec<(String, String)> = Vec::new();
    let mut i: usize = 0;
    assert(pairs(out@) =~= header_pairs(all.take(0)));
    while i < headers.len()
        invariant
            i <= headers@.len(),
            all == texts(headers@),
            pairs(out@) == header_pairs(all.take(i as int)),
        decreases headers@.len() - i,
    {
        assert(all.take(i + 1).drop_last() =~= all.take(i as int));
        assert(all.take(i + 1).last() == all[i as int]);
        let ghost before = pairs(out@);
        if let Some(p) = split_header(headers[i].as_str()) {
            let ghost pv = (p.0@, p.1@);
            out.push(p);
            assert(pairs(out@) =~= before.push(pv));
        }
        i = i + 1;
    }
    assert(all.take(all.len() as int) =~= all);
    out
}

/// The headers that the application and the merge put on the handle of a call,
/// as pairs. `None` when there is no handle, or no list is known for it.
pub fn curl_request_headers(map: &HashMap<u32, Vec<String>>, call: &Call) -> (r: Option<
    Vec<(String, String)>,
>)
    ensures
        opt_pairs(r) == match handle_of(*call) {
            Some(handle) => if header_lists(map@).contains_key(handle) {
                Some(header_pairs(header_lists(map@)[handle]))
            } else {
                None
            },
            None => None,
        },
{
    match arg_object_handle(call, 0) {
        Some(handle) => match map.get(&handle) {
            Some(headers) => Some(curl_header_pairs(headers)),
            None => None,
        },
        None => None,
    }
}

fn info_get<'a>(info: &'a Vec<(String, String)>, key: &str) -> (r: Option<&'a str>)
    ensures
        opt_view(r) == pair_value(pairs(info@), key@),
{
    let ghost all = pairs(info@);
    let mut i: usize = 0;
    assert(all.skip(0) =~= all);
    while i < info.len()
        invariant
            i <= info@.len(),
            all == pairs(info@),
            pair_value(all.skip(i as int), key@) == pair_value(all, key@),
        decreases info@.len() - i,
    {
        assert(all.skip(i as int)[0] == all[i as int]);
        assert(all.skip(i as int).drop_first() =~= all.skip(i + 1));
        if same(info[i].0.as_str(), key) {
            return Some(info[i].1.as_str());
        }
        i = i + 1;
    }
    None
}

/// The size of a response body: the download size where the transfer reports
/// one, else the length of the body at hand.
pub open spec fn download_size(info: Seq<(Seq<char>, Seq<char>)>, length: nat) -> nat {
    match pair_value(info, "size_download"@) {
        Some(text) => match parsed(text, usize::MAX as nat) {
            Some(n) => if n > 0 {
                n
            } else {
                length
            },
            None => length,
        },
        None => length,
    }
}

/// The size of a response body.
pub fn response_size(info: &Vec<(String, String)>, length: usize) -> (r: usize)
    ensures
        r == download_size(pairs(info@), length as nat),
{
    match info_get(info, "size_download") {
        Some(text) => match parse_unsigned(text, usize::MAX as u128) {
            Some(n) => if n > 0 {
                n as usize
            } else {
                length
            },
            None => length,
        },
        None => length,
    }
}

/// What the encoder of a response body is given: the body, its size and its
/// content type. A body is captured only when bodies are wanted and the transfer
/// returned one; a handle that writes to the output returns `true`, which is none.
pub open spec fn captured_body(
    info: Seq<(Seq<char>, Seq<char>)>,
    retval: Zval,
    wanted: bool,
) -> Option<(Seq<char>, nat, Seq<char>)> {
    match nonempty(strict_text(retval)) {
        Some(body) => if wanted {
            Some(
                (
                    body,
                    download_size(info, byte_len(body)),
                    or_empty(pair_value(info, "content_type"@)),
                ),
            )
        } else {
            None
        },
        None => None,
    }
}

/// The response body to encode, its size and its content type.
pub fn response_body(info: &Vec<(String, String)>, retval: &Zval, wanted: bool) -> (r: Option<
    (String, usize, String),
>)
    ensures
        match r {
            Some((body, size, content_type)) => captured_body(pairs(info@), *retval, wanted)
                == Some((body@, size as nat, content_type@)),
            None => captured_body(pairs(info@), *retval, wanted) is None,
        },
{
    if !wanted {
        return None;
    }
    match string_retval(retval) {
        Some(body) => {
            let size: usize = response_size(info, text_bytes(body.as_str()));
            let content_type = match info_get(info, "content_type") {
                Some(text) => copy(text),
                None => String::new(),
            };
            Some((body, size, content_type))
        },
        None => None,
    }
}

/// The status code of a transfer that got a response.
pub open spec fn status_code(info: Seq<(Seq<char>, Seq<char>)>) -> Option<Seq<char>> {
    match pair_value(info, "http_code"@) {
        Some(text) => match parsed(text, i64::MAX as nat) {
            Some(n) => if n > 0 {
                Some(decimal(n))
            } else {
                None
            },
            None => None,
        },
        None => None,
    }
}

fn status_text(info: &Vec<(String, String)>) -> (r: Option<String>)
    ensures
        opt_text(r) == status_code(pairs(info@)),
{
    match info_get(info, "http_code") {
        Some(text) => match parse_unsigned(text, i64::MAX as u128) {
            Some(n) => if n > 0 {
                Some(decimal_text(n))
            } else {
                None
            },
            None => None,
        },
        None => None,
    }
}

/// A fact of a transfer, unless it is the given blank.
pub open spec fn fact(
    info: Seq<(Seq<char>, Seq<char>)>,
    key: Seq<char>,
    blank: Seq<char>,
) -> Option<Seq<char>> {
    match pair_value(info, key) {
        Some(v) => if v == blank {
            None
        } else {
            Some(v)
        },
        None => None,
    }
}

fn info_fact(info: &Vec<(String, String)>, key: &str, blank: &str) -> (r: Option<String>)
    ensures
        opt_text(r) == fact(pairs(info@), key@, blank@),
{
    match info_get(info, key) {
        Some(v) => if same(v, blank) {
            None
        } else {
            Some(copy(v))
        },
        None => None,
    }
}

/// What a finished transfer says on its span: the request headers, the status
/// and type of the response, the peer, the method, the body and the timeline.
pub open spec fn transfer_attributes(
    info: Seq<(Seq<char>, Seq<char>)>,
    request_headers: Option<Seq<char>>,
    body: Seq<(Seq<char>, Seq<char>)>,
    timeline: Option<Seq<char>>,
) -> Seq<(Seq<char>, Seq<char>)> {
    let a = with_some(Seq::empty(), "http.request.headers"@, request_headers);
    let a = with_some(a, "http.status_code"@, status_code(info));
    let a = with_some(a, "http.response.status_code"@, status_code(info));
    let a = with_some(a, "http.response.content_type"@, fact(info, "content_type"@, ""@));
    let a = with_some(a, "server.address"@, fact(info, "primary_ip"@, ""@));
    let a = with_some(a, "server.port"@, fact(info, "primary_port"@, "0"@));
    let a = with_some(a, "http.method"@, fact(info, "effective_method"@, ""@));
    let a = with_some(a, "http.request.method"@, fact(info, "effective_method"@, ""@));
    with_some(a + body, "http.timeline"@, timeline)
}

fn push_all(list: &mut Vec<(String, String)>, more: Vec<(String, String)>)
    ensures
        pairs(final(list)@) == pairs(old(list)@) + pairs(more@),
{
    let ghost before = pairs(list@);
    let ghost added = pairs(more@);
    let mut more = more;
    list.append(&mut more);
    assert(pairs(list@) =~= before + added);
}

/// Put what a finished transfer says on its frame. `request_headers` and
/// `timeline` are the encoded header map and phases, `body` the attributes of
/// the captured response body.
pub fn capture_curl_result(
    frame: &mut CallFrame,
    info: &Vec<(String, String)>,
    request_headers: &Option<String>,
    body: Vec<(String, String)>,
    timeline: &Option<String>,
)
    ensures
        pairs(final(frame).attributes@) == pairs(old(frame).attributes@) + transfer_attributes(
            pairs(info@),
            opt_text(*request_headers),
            pairs(body@),
            opt_text(*timeline),
        ),
        *final(frame) == (CallFrame { attributes: final(frame).attributes, ..*old(frame) }),
{
    let mut a: Vec<(String, String)> = Vec::new();
    assert(pairs(a@) =~= Seq::empty());
    push_some(&mut a, "http.request.headers", request_headers);
    let code = status_text(info);
    push_some(&mut a, "http.status_code", &code);
    push_some(&mut a, "http.response.status_code", &code);
    let content_type = info_fact(info, "content_type", "");
    push_some(&mut a, "http.response.content_type", &content_type);
    let address = info_fact(info, "primary_ip", "");
    push_some(&mut a, "server.address", &address);
    let port = info_fact(info, "primary_port", "0");
    push_some(&mut a, "server.port", &port);
    let method = info_fact(info, "effective_method", "");
    push_some(&mut a, "http.method", &method);
    push_some(&mut a, "http.request.method", &method);
    push_all(&mut a, body);
    push_some(&mut a, "http.timeline", timeline);
    push_all(&mut frame.attributes, a);
}

/// One of curl's cumulative timing marks: a positive number of seconds as the
/// bits of a double, which order as the numbers do, and the same in whole
/// nanoseconds.
#[derive(Clone, Copy, Debug, PartialEq, Eq, Structural)]
pub struct Mark {
    pub bits: u64,
    pub nanos: u128,
}

/// The start of a transfer.
pub open spec fn start_mark() -> Mark {
    Mark { bits: 0, nanos: 0 }
}

/// The marks of a transfer, each `None` when its phase did not happen.
pub struct TransferMarks {
    pub namelookup: Option<Mark>,
    pub connect: Option<Mark>,
    pub appconnect: Option<Mark>,
    pub pretransfer: Option<Mark>,
    pub starttransfer: Option<Mark>,
    pub total: Option<Mark>,
}

/// A mark, or another in its place.
pub open spec fn mark_or(mark: Option<Mark>, other: Mark) -> Mark {
    match mark {
        Some(m) => m,
        None => other,
    }
}

/// The later of two marks.
pub open spec fn later(a: Mark, b: Mark) -> Mark {
    if b.bits > a.bits {
        b
    } else {
        a
    }
}

/// Where each phase of a transfer ends, in order.
pub open spec fn phase_ends(m: TransferMarks, total: Mark) -> Seq<(Seq<char>, Mark)> {
    let dns = mark_or(m.namelookup, start_mark());
    let connect = mark_or(m.connect, dns);
    let tls = mark_or(m.appconnect, start_mark());
    let send = mark_or(m.pretransfer, later(connect, tls));
    let wait = mark_or(m.starttransfer, send);
    seq![
        ("dns"@, dns),
        ("connect"@, connect),
        (
            "tls"@,
            if tls.bits > 0 {
                tls
            } else {
                connect
            },
        ),
        ("send"@, send),
        ("wait"@, wait),
        ("download"@, total),
    ]
}

/// How far a list of phase ends reaches.
pub open spec fn reach(ends: Seq<(Seq<char>, Mark)>) -> Mark
    decreases ends.len(),
{
    if ends.len() == 0 {
        start_mark()
    } else {
        let before = reach(ends.drop_last());
        if ends.last().1.bits <= before.bits {
            before
        } else {
            ends.last().1
        }
    }
}

/// The phases between consecutive marks. One that takes no time is left out.
pub open spec fn phases(ends: Seq<(Seq<char>, Mark)>) -> Seq<(Seq<char>, u128, u128)>
    decreases ends.len(),
{
    if ends.len() == 0 {
        Seq::empty()
    } else {
        let before = phases(ends.drop_last());
        let cursor = reach(ends.drop_last());
        if ends.last().1.bits <= cursor.bits {
            before
        } else {
            before.push((ends.last().0, cursor.nanos, ends.last().1.nanos))
        }
    }
}

/// The contents of a list of phases.
pub open spec fn phase_views(v: Seq<(String, u128, u128)>) -> Seq<(Seq<char>, u128, u128)> {
    Seq::new(v.len(), |i: int| (v[i].0@, v[i].1, v[i].2))
}

fn or_mark(mark: Option<Mark>, other: Mark) -> (r: Mark)
    ensures
        r == mark_or(mark, other),
{
    match mark {
        Some(m) => m,
        None => other,
    }
}

/// The phases of a transfer. `None` when there is no total time, or no phase
/// took any.
pub fn curl_timeline(m: &TransferMarks) -> (r: Option<Vec<(String, u128, u128)>>)
    ensures
        match (r, m.total) {
            (Some(v), Some(total)) => phase_views(v@) == phases(phase_ends(*m, total)) && v@.len()
                > 0,
            (None, Some(total)) => phases(phase_ends(*m, total)).len() == 0,
            (Some(_), None) => false,
            (None, None) => true,
        },
{
    let total = match m.total {
        Some(t) => t,
        None => {
            return None;
        },
    };
    let zero = Mark { bits: 0, nanos: 0 };
    let dns = or_mark(m.namelookup, zero);
    let connect = or_mark(m.connect, dns);
    let tls = or_mark(m.appconnect, zero);
    let both = if tls.bits > connect.bits {
        tls
    } else {
        connect
    };
    let send = or_mark(m.pretransfer, both);
    let wait = or_mark(m.starttransfer, send);
    let mut ends: Vec<(&str, Mark)> = Vec::new();
    ends.push(("dns", dns));
    ends.push(("connect", connect));
    ends.push(
        (
            "tls",
            if tls.bits > 0 {
                tls
            } else {
                connect
            },
        ),
    );
    ends.push(("send", send));
    ends.push(("wait", wait));
    ends.push(("download", total));
    let ghost all = Seq::new(ends@.len(), |i: int| (ends@[i].0@, ends@[i].1));
    assert(all =~= phase_ends(*m, total));
    let mut out: Vec<(String, u128, u128)> = Vec::new();
    let mut cursor = zero;
    let mut i: usize = 0;
    assert(phase_views(out@) =~= phases(all.take(0)));
    while i < ends.len()
        invariant
            i <= ends@.len(),
            all == Seq::new(ends@.len(), |k: int| (ends@[k].0@, ends@[k].1)),
            phase_views(out@) == phases(all.take(i as int)),
            cursor == reach(all.take(i as int)),
        decreases ends@.len() - i,
    {
        assert(all.take(i + 1).drop_last() =~= all.take(i as int));
        assert(all.take(i + 1).last() == all[i as int]);
        let ghost before = phase_views(out@);
        let end = ends[i].1;
        if end.bits > cursor.bits {
            out.push((copy(ends[i].0), cursor.nanos, end.nanos));
            assert(phase_views(out@) =~= before.push((all[i as int].0, cursor.nanos, end.nanos)));
            cursor = end;
        }
        i = i + 1;
    }
    assert(all.take(all.len() as int) =~= all);
    if out.len() == 0 {
        None
    } else {
        Some(out)
    }
}

/// The phases of a transfer start at its start and follow on one another
/// without gap or overlap, up to the last mark reached.
pub proof fn law_phases_are_contiguous(ends: Seq<(Seq<char>, Mark)>)
    ensures
        phases(ends).len() > 0 ==> phases(ends)[0].1 == 0,
        forall|i: int|
            0 < i < phases(ends).len() ==> (#[trigger] phases(ends)[i]).1 == phases(ends)[i - 1].2,
        reach(ends).nanos == if phases(ends).len() == 0 {
            0
        } else {
            phases(ends).last().2
        },
    decreases ends.len(),
{
    if ends.len() > 0 {
        law_phases_are_contiguous(ends.drop_last());
        let before = phases(ends.drop_last());
        assert forall|i: int| 0 < i < phases(ends).len() implies (#[trigger] phases(ends)[i]).1
            == phases(ends)[i - 1].2 by {
            if i < before.len() {
                assert(phases(ends)[i] == before[i]);
                assert(phases(ends)[i - 1] == before[i - 1]);
            } else {
                assert(phases(ends)[i - 1] == before.last());
            }
        }
    }
}

proof fn lemma_list_at(m: Map<u32, Vec<String>>, handle: u32)
    ensures
        header_lists(m).contains_key(handle) <==> m.contains_key(handle),
        m.contains_key(handle) ==> header_lists(m)[handle] == texts(m[handle]@),
{
}

/// A header list set through `curl_setopt` is the handle's from then on; one that is
/// no list counts as none. Any other option, and any other handle, is left alone.
pub proof fn law_a_set_header_list_is_noted(
    map: &mut HashMap<u32, Vec<String>>,
    call: &Call,
    handle: Option<u32>,
    option: Option<i64>,
    list: Option<Vec<String>>,
    other: u32,
)
    requires
        call_ensures(track_curl_setopt, (map, call), ()),
        call_ensures(arg_object_handle, (call, 0usize), handle),
        call_ensures(arg_long, (call, 1usize), option),
        call_ensures(arg_string_array, (call, 2usize), list),
    ensures
        handle is Some && option == Some(10023i64) ==> {
            &&& final(map)@.contains_key(handle->0)
            &&& list matches Some(v) ==> texts(final(map)@[handle->0]@) == texts(v@)
            &&& list is None ==> final(map)@[handle->0]@.len() == 0
        },
        handle is None || option != Some(10023i64) || Some(other) != handle ==> {
            &&& final(map)@.contains_key(other) <==> old(map)@.contains_key(other)
            &&& old(map)@.contains_key(other) ==> texts(final(map)@[other]@) == texts(
                old(map)@[other]@,
            )
        },
{
    lemma_list_at(old(map)@, other);
    lemma_list_at(final(map)@, other);
    if handle is Some {
        lemma_list_at(final(map)@, handle->0);
        if list is None && final(map)@.contains_key(handle->0) {
            assert(texts(final(map)@[handle->0]@).len() == final(map)@[handle->0]@.len());
        }
    }
}

/// The same through `curl_setopt_array`, where the list stands under its option.
pub proof fn law_a_header_list_among_options_is_noted(
    map: &mut HashMap<u32, Vec<String>>,
    call: &Call,
    handle: Option<u32>,
    list: Option<Vec<String>>,
    other: u32,
)
    requires
        call_ensures(track_curl_setopt_array, (map, call), ()),
        call_ensures(arg_object_handle, (call, 0usize), handle),
        call_ensures(arg_array_key_string_array, (call, 1usize, 10023i64), list),
    ensures
        handle is Some && list is Some ==> final(map)@.contains_key(handle->0) && texts(
            final(map)@[handle->0]@,
        ) == texts(list->0@),
        handle is None || list is None || Some(other) != handle ==> {
            &&& final(map)@.contains_key(other) <==> old(map)@.contains_key(other)
            &&& old(map)@.contains_key(other) ==> texts(final(map)@[other]@) == texts(
                old(map)@[other]@,
            )
        },
{
    lemma_list_at(old(map)@, other);
    lemma_list_at(final(map)@, other);
    if handle is Some {
        lemma_list_at(final(map)@, handle->0);
    }
}

/// Whether a merge with these values takes a line off a list: a spelling, in any
/// case, of a header that it writes.
pub open spec fn evicted(line: Seq<char>, tracestate: bool, baggage: bool) -> bool {
    let l = lowercase(line);
    begins(l, "traceparent:"@) || (tracestate && begins(l, "tracestate:"@)) || (baggage && begins(
        l,
        "baggage:"@,
    ))
}

proof fn lemma_without_filters(lines: Seq<Seq<char>>, prefix: Seq<char>)
    ensures
        without(lines, prefix) == lines.filter(|l: Seq<char>| !is_header(l, prefix)),
    decreases lines.len(),
{
    reveal(Seq::filter);
    if lines.len() > 0 {
        lemma_without_filters(lines.drop_last(), prefix);
    }
}

proof fn lemma_kept_lines(lines: Seq<Seq<char>>, ts: Option<Seq<char>>, bg: Option<Seq<char>>)
    ensures
        kept_lines(lines, ts, bg) == lines.filter(
            |l: Seq<char>| !evicted(l, ts is Some, bg is Some),
        ),
    decreases lines.len(),
{
    reveal(Seq::filter);
    if lines.len() > 0 {
        let init = lines.drop_last();
        let x = lines.last();
        lemma_kept_lines(init, ts, bg);
        let a = without(init, "traceparent:"@);
        lemma_without_push(a, x, "tracestate:"@);
        lemma_without_push(a, x, "baggage:"@);
        lemma_without_push(without(a, "tracestate:"@), x, "baggage:"@);
    }
}

/// A merge keeps the application's lines in their order, but for spellings of what
/// it writes, and puts after them the `traceparent` and each other header that has
/// a value.
pub proof fn law_a_merge_keeps_the_rest_and_appends_its_own(
    headers: &mut Vec<String>,
    traceparent: &str,
    tracestate: Option<&str>,
    baggage: Option<&str>,
)
    requires
        call_ensures(merge_propagation_headers, (headers, traceparent, tracestate, baggage), ()),
    ensures
        ({
            let kept = texts(old(headers)@).filter(
                |l: Seq<char>| !evicted(l, tracestate is Some, baggage is Some),
            );
            let after = texts(final(headers)@);
            let n = kept.len() as int;
            &&& after.len() == n + 1 + (if tracestate is Some {
                1int
            } else {
                0
            }) + (if baggage is Some {
                1int
            } else {
                0
            })
            &&& after.take(n) == kept
            &&& after[n] == "traceparent: "@ + traceparent@
            &&& tracestate matches Some(v) ==> after[n + 1] == "tracestate: "@ + v@
            &&& baggage matches Some(v) ==> after.last() == "baggage: "@ + v@
        }),
{
    let ts = opt_view(tracestate);
    let bg = opt_view(baggage);
    let lines = texts(old(headers)@);
    law_merge_appends_to_the_kept_lines(lines, traceparent@, ts, bg);
    lemma_kept_lines(lines, ts, bg);
    let kept = lines.filter(|l: Seq<char>| !evicted(l, tracestate is Some, baggage is Some));
    assert(kept_lines(lines, ts, bg) == kept);
    let after = texts(final(headers)@);
    assert(after == kept + own_lines(traceparent@, ts, bg));
    assert(after.take(kept.len() as int) =~= kept);
}

/// An outbound call gets its handle's own list with the open request's propagation
/// headers merged in, which is the handle's list from then on; the `traceparent` is
/// published, and another tracer's setting is claimed at most once. Other handles
/// keep theirs.
pub proof fn law_an_outbound_curl_call_carries_the_request(
    observer: &mut Observer,
    call: &Call,
    traceparent: &str,
    priority_enabled: bool,
    foreign_setting: Option<&str>,
    r: CurlInjection,
    handle: Option<u32>,
    list: &mut Vec<String>,
    tracestate: Option<&str>,
    baggage: Option<&str>,
    claim: &mut crate::propagation_priority::Claim,
    written: Option<(&'static str, &'static str)>,
    other: u32,
)
    requires
        call_ensures(
            inject_curl_traceparent,
            (observer, call, traceparent, priority_enabled, foreign_setting),
            r,
        ),
        call_ensures(arg_object_handle, (call, 0usize), handle),
        call_ensures(merge_propagation_headers, (list, traceparent, tracestate, baggage), ()),
        handle matches Some(h) ==> {
            &&& old(observer).handles.curl_headers@.contains_key(h) ==> texts(old(list)@) == texts(
                old(observer).handles.curl_headers@[h]@,
            )
            &&& !old(observer).handles.curl_headers@.contains_key(h) ==> old(list)@.len() == 0
        },
        old(observer).request.context matches Some(c) ==> opt_view(tracestate) == opt_text(
            c.tracestate,
        ) && opt_view(baggage) == opt_text(c.baggage),
        old(observer).request.context is None ==> tracestate is None && baggage is None,
        *old(claim) == old(observer).request.claim,
        call_ensures(claim_once, (claim, priority_enabled, foreign_setting), written),
    ensures
        final(observer).pending_traceparent is Some,
        final(observer).pending_traceparent->0@ == traceparent@,
        final(observer).request.claim.claimed,
        write_view(r.ini) == write_view(written),
        r.headers is Some <==> handle is Some,
        r.headers matches Some(v) ==> {
            &&& texts(v@) == texts(final(list)@)
            &&& final(observer).handles.curl_headers@.contains_key(handle->0)
            &&& texts(final(observer).handles.curl_headers@[handle->0]@) == texts(final(list)@)
        },
        Some(other) != handle && old(observer).handles.curl_headers@.contains_key(other)
            ==> final(observer).handles.curl_headers@.contains_key(other) && texts(
            final(observer).handles.curl_headers@[other]@,
        ) == texts(old(observer).handles.curl_headers@[other]@),
{
    let before = header_lists(old(observer).handles.curl_headers@);
    let after = header_lists(final(observer).handles.curl_headers@);
    if let Some(h) = handle {
        lemma_list_at(old(observer).handles.curl_headers@, h);
        lemma_list_at(final(observer).handles.curl_headers@, h);
        if !before.contains_key(h) {
            assert(texts(old(list)@) =~= Seq::empty());
        }
        assert(texts(old(list)@) == list_of(before, h));
        assert(after.contains_key(h));
        assert(opt_view(tracestate) == request_tracestate(old(observer).request));
        assert(opt_view(baggage) == request_baggage(old(observer).request));
    }
    lemma_list_at(old(observer).handles.curl_headers@, other);
    lemma_list_at(final(observer).handles.curl_headers@, other);
}

/// Of a header list, each line with a colon is a pair: what stands before its first
/// colon and what stands after it, both trimmed. A line without one is none.
pub proof fn law_header_lines_are_split_at_their_first_colon(
    lines: &Vec<String>,
    r: Vec<(String, String)>,
    longer: &Vec<String>,
    s: Vec<(String, String)>,
    name: &str,
    value: &str,
    line: String,
    cut_name: String,
    cut_value: String,
)
    requires
        call_ensures(curl_header_pairs, (lines,), r),
        call_ensures(curl_header_pairs, (longer,), s),
        longer@ == lines@.push(line),
        forall|i: int| 0 <= i < name@.len() ==> #[trigger] name@[i] != ':',
        call_ensures(trim, (name,), cut_name),
        call_ensures(trim, (value,), cut_value),
    ensures
        lines@.len() == 0 ==> r@.len() == 0,
        line@ == name@.push(':') + value@ ==> pairs(s@) == pairs(r@).push((cut_name@, cut_value@)),
        line@ == name@ ==> pairs(s@) == pairs(r@),
{
    let all = texts(lines@);
    assert(pairs(r@).len() == r@.len());
    assert(texts(longer@) =~= all.push(line@));
    assert(all.push(line@).drop_last() =~= all);
    let k = name@.len() as int;
    if line@ == name@.push(':') + value@ {
        assert forall|i: int| 0 <= i < k implies line@[i] != ':' by {
            assert(line@[i] == name@[i]);
        }
        lemma_first_of(line@, ':', k);
        assert(line@.take(k) =~= name@);
        assert(line@.skip(k + 1) =~= value@);
    }
    if line@ == name@ {
        lemma_first_of(line@, ':', k);
    }
}

/// The headers of a call are those of its handle's list.
pub proof fn law_the_headers_of_a_call_are_its_handles(
    map: &HashMap<u32, Vec<String>>,
    call: &Call,
    handle: Option<u32>,
    r: Option<Vec<(String, String)>>,
    list: &Vec<String>,
    split: Vec<(String, String)>,
)
    requires
        call_ensures(curl_request_headers, (map, call), r),
        call_ensures(arg_object_handle, (call, 0usize), handle),
        call_ensures(curl_header_pairs, (list,), split),
        handle is Some && map@.contains_key(handle->0) ==> texts(list@) == texts(
            map@[handle->0]@,
        ),
    ensures
        r is Some <==> handle is Some && map@.contains_key(handle->0),
        r matches Some(v) ==> pairs(v@) == pairs(split@),
{
    if handle is Some {
        lemma_list_at(map@, handle->0);
    }
}

/// The size of a response is what the transfer reports as downloaded, where that is
/// a positive number, and else the length at hand. `told` is what it reports.
pub proof fn law_the_size_of_a_response(
    info: &Vec<(String, String)>,
    length: usize,
    r: usize,
    told: &str,
    n: Option<u128>,
)
    requires
        call_ensures(response_size, (info, length), r),
        call_ensures(parse_unsigned, (told, usize::MAX as u128), n),
        pair_value(pairs(info@), "size_download"@) matches Some(v) ==> told@ == v,
    ensures
        pair_value(pairs(info@), "size_download"@) is None ==> r == length,
        pair_value(pairs(info@), "size_download"@) is Some ==> match n {
            Some(size) => if size > 0 {
                r == size
            } else {
                r == length
            },
            None => r == length,
        },
{
}

/// A response body is captured exactly when it is wanted and the transfer returned a
/// text that is not empty: that text, its size, and the content type.
pub proof fn law_when_a_response_body_is_captured(
    info: &Vec<(String, String)>,
    retval: &Zval,
    wanted: bool,
    r: Option<(String, usize, String)>,
    text: Option<String>,
    held: &str,
    length: usize,
    size: usize,
)
    requires
        call_ensures(response_body, (info, retval, wanted), r),
        call_ensures(string_retval, (retval,), text),
        text matches Some(t) ==> held@ == t@,
        call_ensures(text_bytes, (held,), length),
        call_ensures(response_size, (info, length), size),
    ensures
        r is Some <==> wanted && text is Some,
        r matches Some(b) ==> {
            &&& b.0@ == text->0@
            &&& b.1 == size
            &&& pair_value(pairs(info@), "content_type"@) matches Some(kind) ==> b.2@ == kind
            &&& pair_value(pairs(info@), "content_type"@) is None ==> b.2@.len() == 0
        },
{
}

/// Whether a list says a fact of a transfer under a key: what curl told under its own
/// name for it, unless that is blank.
pub open spec fn says_fact(
    added: Seq<(Seq<char>, Seq<char>)>,
    key: Seq<char>,
    info: Seq<(Seq<char>, Seq<char>)>,
    name: Seq<char>,
    blank: Seq<char>,
) -> bool {
    match pair_value(info, name) {
        Some(v) => if v == blank {
            pair_value(added, key) is None
        } else {
            pair_value(added, key) == Some(v)
        },
        None => pair_value(added, key) is None,
    }
}

/// A finished transfer adds to its span the encoded request headers, the status code
/// where there is one, the content type, the peer's address and port, the method
/// under both its names, the captured body and the timeline, each under its own key.
#[verifier::rlimit(40)]
pub proof fn law_what_a_finished_transfer_says(
    frame: &mut CallFrame,
    info: &Vec<(String, String)>,
    request_headers: &Option<String>,
    body: Vec<(String, String)>,
    timeline: &Option<String>,
    told: &str,
    n: Option<u128>,
    code: String,
)
    requires
        call_ensures(capture_curl_result, (frame, info, request_headers, body, timeline), ()),
        pair_value(pairs(info@), "http_code"@) matches Some(v) ==> told@ == v,
        call_ensures(parse_unsigned, (told, i64::MAX as u128), n),
        n matches Some(v) ==> call_ensures(decimal_text, (v,), code),
        body@.len() == 0,
    ensures
        exists|added: Seq<(Seq<char>, Seq<char>)>|
            pairs(final(frame).attributes@) == #[trigger] (pairs(old(frame).attributes@) + added) && {
                let i = pairs(info@);
                let answered = pair_value(i, "http_code"@) is Some && n is Some && n->0 > 0;
                &&& pair_value(added, "http.request.headers"@) == opt_text(*request_headers)
                &&& answered ==> pair_value(added, "http.status_code"@) == Some(code@)
                &&& answered ==> pair_value(added, "http.response.status_code"@) == Some(code@)
                &&& !answered ==> pair_value(added, "http.status_code"@) is None
                &&& !answered ==> pair_value(added, "http.response.status_code"@) is None
                &&& says_fact(added, "http.response.content_type"@, i, "content_type"@, ""@)
                &&& says_fact(added, "server.address"@, i, "primary_ip"@, ""@)
                &&& says_fact(added, "server.port"@, i, "primary_port"@, "0"@)
                &&& says_fact(added, "http.method"@, i, "effective_method"@, ""@)
                &&& says_fact(added, "http.request.method"@, i, "effective_method"@, ""@)
                &&& pair_value(added, "http.timeline"@) == opt_text(*timeline)
            },
        final(frame).name@ == old(frame).name@,
{
    reveal_strlit("http.request.headers");
    reveal_strlit("http.status_code");
    reveal_strlit("http.response.status_code");
    reveal_strlit("http.response.content_type");
    reveal_strlit("server.address");
    reveal_strlit("server.port");
    reveal_strlit("http.method");
    reveal_strlit("http.request.method");
    reveal_strlit("http.timeline");
    assert("http.request.headers"@.len() == 20);
    assert("http.status_code"@.len() == 16);
    assert("http.response.status_code"@.len() == 25);
    assert("http.response.content_type"@.len() == 26);
    assert("server.address"@.len() == 14);
    assert("server.port"@.len() == 11);
    assert("http.method"@.len() == 11);
    assert("http.request.method"@.len() == 19);
    assert("http.timeline"@.len() == 13);
    assert("server.port"@[0] != "http.method"@[0]);
    let i = pairs(info@);
    let a0 = Seq::<(Seq<char>, Seq<char>)>::empty();
    lemma_under(a0, "http.request.headers"@, opt_text(*request_headers));
    let a1 = with_some(a0, "http.request.headers"@, opt_text(*request_headers));
    lemma_under(a1, "http.status_code"@, status_code(i));
    let a2 = with_some(a1, "http.status_code"@, status_code(i));
    lemma_under(a2, "http.response.status_code"@, status_code(i));
    let a3 = with_some(a2, "http.response.status_code"@, status_code(i));
    lemma_under(a3, "http.response.content_type"@, fact(i, "content_type"@, ""@));
    let a4 = with_some(a3, "http.response.content_type"@, fact(i, "content_type"@, ""@));
    lemma_under(a4, "server.address"@, fact(i, "primary_ip"@, ""@));
    let a5 = with_some(a4, "server.address"@, fact(i, "primary_ip"@, ""@));
    lemma_under(a5, "server.port"@, fact(i, "primary_port"@, "0"@));
    let a6 = with_some(a5, "server.port"@, fact(i, "primary_port"@, "0"@));
    lemma_under(a6, "http.method"@, fact(i, "effective_method"@, ""@));
    let a7 = with_some(a6, "http.method"@, fact(i, "effective_method"@, ""@));
    lemma_under(a7, "http.request.method"@, fact(i, "effective_method"@, ""@));
    let a8 = with_some(a7, "http.request.method"@, fact(i, "effective_method"@, ""@));
    assert(pairs(body@) =~= Seq::empty());
    assert(a8 + pairs(body@) =~= a8);
    lemma_under(a8, "http.timeline"@, opt_text(*timeline));
    let added = transfer_attributes(i, opt_text(*request_headers), pairs(body@), opt_text(*timeline));
    assert(added == with_some(a8, "http.timeline"@, opt_text(*timeline)));
    assert(pairs(final(frame).attributes@) == pairs(old(frame).attributes@) + added);
}

/// The attributes of a captured body are added in their order.
pub proof fn law_a_finished_transfer_says_its_body(
    frame: &mut CallFrame,
    info: &Vec<(String, String)>,
    request_headers: &Option<String>,
    body: Vec<(String, String)>,
    timeline: &Option<String>,
    bare: &mut CallFrame,
    none: Vec<(String, String)>,
)
    requires
        call_ensures(capture_curl_result, (frame, info, request_headers, body, timeline), ()),
        *old(bare) == *old(frame),
        none@.len() == 0,
        call_ensures(capture_curl_result, (bare, info, request_headers, none, &None), ()),
    ensures
        *timeline is None ==> pairs(final(frame).attributes@) == pairs(final(bare).attributes@)
            + pairs(body@),
        *timeline matches Some(t) ==> pairs(final(frame).attributes@) == (pairs(
            final(bare).attributes@,
        ) + pairs(body@)).push(("http.timeline"@, t@)),
{
    let i = pairs(info@);
    assert(pairs(none@) =~= Seq::empty());
    let whole = transfer_attributes(i, opt_text(*request_headers), pairs(body@), opt_text(*timeline));
    let least = transfer_attributes(i, opt_text(*request_headers), pairs(none@), None);
    assert(least + pairs(none@) =~= least);
    assert(whole =~= with_some(least + pairs(body@), "http.timeline"@, opt_text(*timeline)));
    assert(pairs(final(frame).attributes@) =~= with_some(
        pairs(final(bare).attributes@) + pairs(body@),
        "http.timeline"@,
        opt_text(*timeline),
    ));
}

/// The phases of a transfer: one that took time runs from the mark that was reached
/// before it to its own; they follow on one another from the start, in the order
/// name lookup, connect, TLS, send, wait, download.
pub proof fn law_the_phases_of_a_transfer(m: &TransferMarks, r: Option<Vec<(String, u128, u128)>>)
    requires
        call_ensures(curl_timeline, (m,), r),
    ensures
        m.total is None ==> r is None,
        r matches Some(v) ==> {
            &&& v@.len() > 0
            &&& v@[0].1 == 0
            &&& forall|i: int| 0 < i < v@.len() ==> (#[trigger] v@[i]).1 == v@[i - 1].2
        },
{
    if let Some(v) = r {
        let ends = phase_ends(*m, m.total->0);
        law_phases_are_contiguous(ends);
        let p = phases(ends);
        assert(p == phase_views(v@));
        assert(p[0].1 == v@[0].1);
        assert forall|i: int| 0 < i < v@.len() implies (#[trigger] v@[i]).1 == v@[i - 1].2 by {
            assert(p[i].1 == v@[i].1);
            assert(p[i - 1].2 == v@[i - 1].2);
        }
    }
}

/// Where every mark is set and each is later than the one before it, every phase is
/// there under its name and ends at its mark.
pub proof fn law_every_phase_ends_at_its_mark(
    m: &TransferMarks,
    r: Option<Vec<(String, u128, u128)>>,
    dns: Mark,
    connect: Mark,
    tls: Mark,
    send: Mark,
    wait: Mark,
    total: Mark,
)
    requires
        call_ensures(curl_timeline, (m,), r),
        m.namelookup == Some(dns),
        m.connect == Some(connect),
        m.appconnect == Some(tls) || m.appconnect is None,
        m.pretransfer == Some(send),
        m.starttransfer == Some(wait),
        m.total == Some(total),
        0 < dns.bits < connect.bits < tls.bits < send.bits < wait.bits < total.bits,
    ensures
        r is Some,
        ({
            let v = r->0@;
            let secure = m.appconnect is Some;
            let n: int = if secure {
                1
            } else {
                0
            };
            &&& v.len() == 5 + n
            &&& v[0].0@ == "dns"@ && v[0].2 == dns.nanos
            &&& v[1].0@ == "connect"@ && v[1].2 == connect.nanos
            &&& secure ==> v[2].0@ == "tls"@ && v[2].2 == tls.nanos
            &&& v[2 + n].0@ == "send"@ && v[2 + n].2 == send.nanos
            &&& v[3 + n].0@ == "wait"@ && v[3 + n].2 == wait.nanos
            &&& v[4 + n].0@ == "download"@ && v[4 + n].2 == total.nanos
        }),
{
    let ends = phase_ends(*m, total);
    let p = phases(ends);
    lemma_all_phases(ends, m.appconnect is Some);
    assert(p.len() > 0);
    assert(p == phase_views(r->0@));
    let v = r->0@;
    assert(p.len() == v.len());
    assert(p[0] == (v[0].0@, v[0].1, v[0].2));
    assert(p[1] == (v[1].0@, v[1].1, v[1].2));
    assert(p[2] == (v[2].0@, v[2].1, v[2].2));
    assert(p[3] == (v[3].0@, v[3].1, v[3].2));
    assert(p[4] == (v[4].0@, v[4].1, v[4].2));
    if m.appconnect is Some {
        assert(p[5] == (v[5].0@, v[5].1, v[5].2));
    }
}

/// A phase whose mark is missing takes no time: its end is that of what comes before
/// it, the sending that of the later of connecting and TLS.
pub proof fn law_a_missing_mark_is_an_empty_phase(
    m: &TransferMarks,
    r: Option<Vec<(String, u128, u128)>>,
    total: Mark,
    mark: Mark,
)
    requires
        call_ensures(curl_timeline, (m,), r),
        m.total == Some(total),
        0 < mark.bits < total.bits,
        m.pretransfer is None && m.starttransfer is None,
    ensures
        m.namelookup is None && m.connect is None && m.appconnect is None ==> r is Some && r->0@.len()
            == 1 && r->0@[0].0@ == "download"@ && r->0@[0].1 == 0 && r->0@[0].2 == total.nanos,
        m.namelookup is None && m.connect == Some(mark) && m.appconnect is None ==> r is Some
            && r->0@.len() == 2 && r->0@[0].0@ == "connect"@ && r->0@[0].2 == mark.nanos
            && r->0@[1].0@ == "download"@,
        m.namelookup == Some(mark) && m.connect is None && m.appconnect is None ==> r is Some
            && r->0@.len() == 2 && r->0@[0].0@ == "dns"@ && r->0@[0].2 == mark.nanos
            && r->0@[1].0@ == "download"@,
        m.namelookup is None && m.connect is None && m.appconnect == Some(mark) ==> r is Some
            && r->0@.len() == 2 && r->0@[0].0@ == "tls"@ && r->0@[0].2 == mark.nanos
            && r->0@[1].0@ == "download"@,
{
    let ends = phase_ends(*m, total);
    lemma_phases_stepwise(ends);
    let p = phases(ends);
    if r is Some {
        let v = r->0@;
        assert(p == phase_views(v));
        assert(p.len() == v.len());
        assert(p[0] == (v[0].0@, v[0].1, v[0].2));
        if v.len() > 1 {
            assert(p[1] == (v[1].0@, v[1].1, v[1].2));
        }
    }
}

proof fn lemma_one_phase(ends: Seq<(Seq<char>, Mark)>, i: int)
    requires
        0 <= i < ends.len(),
    ensures
        ends[i].1.bits <= reach(ends.take(i)).bits ==> reach(ends.take(i + 1)) == reach(ends.take(i))
            && phases(ends.take(i + 1)) == phases(ends.take(i)),
        ends[i].1.bits > reach(ends.take(i)).bits ==> reach(ends.take(i + 1)) == ends[i].1 && phases(
            ends.take(i + 1),
        ) == phases(ends.take(i)).push((ends[i].0, reach(ends.take(i)).nanos, ends[i].1.nanos)),
{
    assert(ends.take(i + 1).drop_last() =~= ends.take(i));
    assert(ends.take(i + 1).last() == ends[i]);
}

proof fn lemma_all_phases(ends: Seq<(Seq<char>, Mark)>, secure: bool)
    requires
        ends.len() == 6,
        0 < ends[0].1.bits < ends[1].1.bits,
        if secure {
            ends[1].1.bits < ends[2].1.bits < ends[3].1.bits
        } else {
            ends[2].1 == ends[1].1 && ends[1].1.bits < ends[3].1.bits
        },
        ends[3].1.bits < ends[4].1.bits < ends[5].1.bits,
    ensures
        ({
            let p = phases(ends);
            let n: int = if secure {
                1
            } else {
                0
            };
            &&& p.len() == 5 + n
            &&& p[0].0 == ends[0].0 && p[0].2 == ends[0].1.nanos
            &&& p[1].0 == ends[1].0 && p[1].2 == ends[1].1.nanos
            &&& secure ==> p[2].0 == ends[2].0 && p[2].2 == ends[2].1.nanos
            &&& p[2 + n].0 == ends[3].0 && p[2 + n].2 == ends[3].1.nanos
            &&& p[3 + n].0 == ends[4].0 && p[3 + n].2 == ends[4].1.nanos
            &&& p[4 + n].0 == ends[5].0 && p[4 + n].2 == ends[5].1.nanos
        }),
{
    assert(ends.take(0) =~= Seq::empty());
    assert(reach(ends.take(0)) == start_mark() && phases(ends.take(0)).len() == 0);
    lemma_one_phase(ends, 0);
    lemma_one_phase(ends, 1);
    lemma_one_phase(ends, 2);
    lemma_one_phase(ends, 3);
    lemma_one_phase(ends, 4);
    lemma_one_phase(ends, 5);
    assert(ends.take(6) =~= ends);
}

proof fn lemma_phases_stepwise(ends: Seq<(Seq<char>, Mark)>)
    requires
        ends.len() == 6,
    ensures
        reach(ends.take(0)) == start_mark(),
        phases(ends.take(0)).len() == 0,
        forall|i: int|
            #![trigger ends[i]]
            0 <= i < 6 ==> {
                let before = reach(ends.take(i));
                if ends[i].1.bits <= before.bits {
                    reach(ends.take(i + 1)) == before && phases(ends.take(i + 1)) == phases(
                        ends.take(i),
                    )
                } else {
                    reach(ends.take(i + 1)) == ends[i].1 && phases(ends.take(i + 1)) == phases(
                        ends.take(i),
                    ).push((ends[i].0, before.nanos, ends[i].1.nanos))
                }
            },
        ends.take(6) == ends,
{
    assert forall|i: int|
        #![trigger ends[i]]
        0 <= i < 6 implies {
        let before = reach(ends.take(i));
        if ends[i].1.bits <= before.bits {
            reach(ends.take(i + 1)) == before && phases(ends.take(i + 1)) == phases(ends.take(i))
        } else {
            reach(ends.take(i + 1)) == ends[i].1 && phases(ends.take(i + 1)) == phases(
                ends.take(i),
            ).push((ends[i].0, before.nanos, ends[i].1.nanos))
        }
    } by {
        assert(ends.take(i + 1).drop_last() =~= ends.take(i));
        assert(ends.take(i + 1).last() == ends[i]);
    }
    assert(ends.take(6) =~= ends);
}

} // verus!
