//! Text over sequences of characters: byte widths, prefixes, searching,
//! trimming, and decimal numbers.

use vstd::prelude::*;
use vstd::utf8::{encode_scalar, encode_utf8};

verus! {

/// `String::push` appends one character.
pub assume_specification[ String::push ](s: &mut String, c: char)
    ensures
        final(s)@ == old(s)@.push(c),
;

/// `str`'s `==` compares contents.
pub assume_specification[ <str as PartialEq>::eq ](a: &str, b: &str) -> (r: bool)
    ensures
        r == (a@ == b@),
;

/// Whether two texts hold the same characters.
pub fn same(a: &str, b: &str) -> (r: bool)
    ensures
        r == (a@ == b@),
{
    *a == *b
}

/// A fresh copy of a text.
pub fn copy(s: &str) -> (r: String)
    ensures
        r@ == s@,
{
    s.to_owned()
}

/// How many bytes one character takes in UTF-8.
pub open spec fn width(c: char) -> nat {
    encode_scalar(c as u32).len()
}

/// How many bytes a text takes in UTF-8.
pub open spec fn byte_len(s: Seq<char>) -> nat {
    encode_utf8(s).len()
}

pub proof fn lemma_encode_concat(a: Seq<char>, b: Seq<char>)
    ensures
        encode_utf8(a + b) == encode_utf8(a) + encode_utf8(b),
    decreases a.len(),
{
    if a.len() == 0 {
        assert(a + b =~= b);
        assert(encode_utf8(a) =~= Seq::<u8>::empty());
        assert(Seq::<u8>::empty() + encode_utf8(b) =~= encode_utf8(b));
    } else {
        assert((a + b).drop_first() =~= a.drop_first() + b);
        lemma_encode_concat(a.drop_first(), b);
        assert((a + b)[0] == a[0]);
        assert(encode_utf8(a + b) =~= encode_scalar(a[0] as u32) + encode_utf8(
            a.drop_first() + b,
        ));
        assert(encode_utf8(a) =~= encode_scalar(a[0] as u32) + encode_utf8(a.drop_first()));
    }
}

pub proof fn lemma_byte_len_push(s: Seq<char>, c: char)
    ensures
        byte_len(s.push(c)) == byte_len(s) + width(c),
{
    let one = seq![c];
    assert(s.push(c) =~= s + one);
    lemma_encode_concat(s, one);
    assert(one.drop_first() =~= Seq::<char>::empty());
    assert(encode_utf8(one) =~= encode_scalar(c as u32) + encode_utf8(one.drop_first()));
    assert(encode_utf8(Seq::<char>::empty()) =~= Seq::<u8>::empty());
}

/// The UTF-8 width of a character: one to four bytes.
pub fn char_width(c: char) -> (r: usize)
    ensures
        r == width(c),
        1 <= r <= 4,
{
    let v: u32 = c as u32;
    proof {
        vstd::utf8::char_is_scalar(c);
    }
    if v < 0x80 {
        1
    } else if v < 0x800 {
        2
    } else if v < 0x10000 {
        3
    } else {
        4
    }
}

/// The characters of a text.
pub fn chars_of(s: &str) -> (r: Vec<char>)
    ensures
        r@ == s@,
{
    let mut out: Vec<char> = Vec::new();
    for c in it: s.chars()
        invariant
            out@ == it.seq().take(it.index() as int),
            it.seq() == s@,
    {
        out.push(c);
    }
    assert(s@.take(s@.len() as int) =~= s@);
    out
}

/// The text made of the characters from `from` up to `to`.
pub fn string_of(v: &Vec<char>, from: usize, to: usize) -> (r: String)
    requires
        from <= to <= v@.len(),
    ensures
        r@ == v@.subrange(from as int, to as int),
{
    let mut out = String::new();
    let mut i: usize = from;
    while i < to
        invariant
            from <= i <= to <= v@.len(),
            out@ == v@.subrange(from as int, i as int),
        decreases to - i,
    {
        out.push(v[i]);
        i = i + 1;
        assert(v@.subrange(from as int, i as int) =~= v@.subrange(from as int, i - 1).push(
            v@[i - 1],
        ));
    }
    out
}

/// Whether `p` stands in `s` at position `i`.
pub open spec fn found_at(s: Seq<char>, p: Seq<char>, i: int) -> bool {
    0 <= i && i + p.len() <= s.len() && s.subrange(i, i + p.len()) == p
}

/// Whether `s` begins with `p`.
pub open spec fn begins(s: Seq<char>, p: Seq<char>) -> bool {
    found_at(s, p, 0)
}

/// Whether `s` ends with `p`.
pub open spec fn ends(s: Seq<char>, p: Seq<char>) -> bool {
    found_at(s, p, s.len() - p.len())
}

/// Whether `p` stands somewhere in `s`.
pub open spec fn holds(s: Seq<char>, p: Seq<char>) -> bool {
    exists|i: int| #[trigger] found_at(s, p, i)
}

/// Whether `p` stands in `s` at position `i`.
pub fn matches_at(s: &Vec<char>, p: &Vec<char>, i: usize) -> (r: bool)
    ensures
        r == found_at(s@, p@, i as int),
{
    if i > s.len() || p.len() > s.len() - i {
        return false;
    }
    let n: usize = s.len();
    let mut k: usize = 0;
    while k < p.len()
        invariant
            k <= p@.len(),
            n == s@.len(),
            i + p@.len() <= n,
            forall|j: int| 0 <= j < k ==> s@[i + j] == p@[j],
        decreases p@.len() - k,
    {
        if s[i + k] != p[k] {
            assert(s@.subrange(i as int, i + p@.len())[k as int] != p@[k as int]);
            return false;
        }
        k = k + 1;
    }
    assert(s@.subrange(i as int, i + p@.len()) =~= p@);
    true
}

/// Whether `s` begins with `p`.
pub fn starts_with(s: &str, p: &str) -> (r: bool)
    ensures
        r == begins(s@, p@),
{
    let a = chars_of(s);
    let b = chars_of(p);
    matches_at(&a, &b, 0)
}

/// What follows `p` at the start of `s`.
pub fn strip_prefix(s: &str, p: &str) -> (r: Option<String>)
    ensures
        match r {
            Some(rest) => begins(s@, p@) && rest@ == s@.skip(p@.len() as int),
            None => !begins(s@, p@),
        },
{
    let a = chars_of(s);
    let b = chars_of(p);
    if matches_at(&a, &b, 0) {
        let rest = string_of(&a, b.len(), a.len());
        assert(rest@ =~= s@.skip(p@.len() as int));
        Some(rest)
    } else {
        None
    }
}

/// Whether `s` ends with `p`.
pub fn ends_with(s: &str, p: &str) -> (r: bool)
    ensures
        r == ends(s@, p@),
{
    let a = chars_of(s);
    let b = chars_of(p);
    if b.len() > a.len() {
        return false;
    }
    matches_at(&a, &b, a.len() - b.len())
}

/// The first place at or after `from` where `p` stands in `s`.
pub fn find_from(s: &Vec<char>, p: &Vec<char>, from: usize) -> (r: Option<usize>)
    ensures
        match r {
            Some(i) => from <= i && found_at(s@, p@, i as int) && forall|j: int|
                from <= j < i ==> !#[trigger] found_at(s@, p@, j),
            None => forall|j: int| from <= j ==> !#[trigger] found_at(s@, p@, j),
        },
{
    let mut i: usize = from;
    while i <= s.len()
        invariant
            from <= i,
            forall|j: int| from <= j < i ==> !#[trigger] found_at(s@, p@, j),
        decreases s@.len() + 1 - i,
    {
        if matches_at(s, p, i) {
            return Some(i);
        }
        if i == s.len() {
            assert(forall|j: int| i < j ==> !#[trigger] found_at(s@, p@, j));
            return None;
        }
        i = i + 1;
    }
    None
}

/// Whether `p` stands somewhere in `s`.
pub fn contains_text(s: &str, p: &str) -> (r: bool)
    ensures
        r == holds(s@, p@),
{
    let a = chars_of(s);
    let b = chars_of(p);
    find_from(&a, &b, 0).is_some()
}

/// The characters with the Unicode property White_Space.
pub open spec fn is_white(c: char) -> bool {
    let v = c as u32;
    ||| 0x9 <= v <= 0xd
    ||| v == 0x20
    ||| v == 0x85
    ||| v == 0xa0
    ||| v == 0x1680
    ||| 0x2000 <= v <= 0x200a
    ||| v == 0x2028
    ||| v == 0x2029
    ||| v == 0x202f
    ||| v == 0x205f
    ||| v == 0x3000
}

/// Whether a character is white space.
pub fn white(c: char) -> (r: bool)
    ensures
        r == is_white(c),
{
    let v: u32 = c as u32;
    (0x9 <= v && v <= 0xd) || v == 0x20 || v == 0x85 || v == 0xa0 || v == 0x1680 || (0x2000 <= v
        && v <= 0x200a) || v == 0x2028 || v == 0x2029 || v == 0x202f || v == 0x205f || v == 0x3000
}

/// `s` without the white space at its start.
pub open spec fn trimmed_start(s: Seq<char>) -> Seq<char>
    decreases s.len(),
{
    if s.len() > 0 && is_white(s[0]) {
        trimmed_start(s.drop_first())
    } else {
        s
    }
}

/// `s` without the white space at its end.
pub open spec fn trimmed_end(s: Seq<char>) -> Seq<char>
    decreases s.len(),
{
    if s.len() > 0 && is_white(s.last()) {
        trimmed_end(s.drop_last())
    } else {
        s
    }
}

/// `s` without the white space at either end.
pub open spec fn trimmed(s: Seq<char>) -> Seq<char> {
    trimmed_end(trimmed_start(s))
}

/// `s` without the run of `c` at its start.
pub open spec fn stripped_start(s: Seq<char>, c: char) -> Seq<char>
    decreases s.len(),
{
    if s.len() > 0 && s[0] == c {
        stripped_start(s.drop_first(), c)
    } else {
        s
    }
}

/// Where the text begins once leading white space is skipped.
pub fn white_prefix(v: &Vec<char>) -> (r: usize)
    ensures
        r <= v@.len(),
        v@.subrange(r as int, v@.len() as int) == trimmed_start(v@),
{
    let mut i: usize = 0;
    assert(v@.subrange(0, v@.len() as int) =~= v@);
    while i < v.len() && white(v[i])
        invariant
            i <= v@.len(),
            trimmed_start(v@.subrange(i as int, v@.len() as int)) == trimmed_start(v@),
        decreases v@.len() - i,
    {
        assert(v@.subrange(i as int, v@.len() as int).drop_first() =~= v@.subrange(
            i + 1,
            v@.len() as int,
        ));
        i = i + 1;
    }
    i
}

/// `s` without the white space at its start.
pub fn trim_start(s: &str) -> (r: String)
    ensures
        r@ == trimmed_start(s@),
{
    let v = chars_of(s);
    let from = white_prefix(&v);
    string_of(&v, from, v.len())
}

/// `s` without the white space at either end.
pub fn trim(s: &str) -> (r: String)
    ensures
        r@ == trimmed(s@),
{
    let v = chars_of(s);
    let from = white_prefix(&v);
    let mut to: usize = v.len();
    while to > from && white(v[to - 1])
        invariant
            from <= to <= v@.len(),
            trimmed_end(v@.subrange(from as int, to as int)) == trimmed(v@),
        decreases to,
    {
        assert(v@.subrange(from as int, to as int).drop_last() =~= v@.subrange(
            from as int,
            to - 1,
        ));
        to = to - 1;
    }
    string_of(&v, from, to)
}

/// `s` without the run of `c` at its start.
pub fn strip_start(s: &str, c: char) -> (r: String)
    ensures
        r@ == stripped_start(s@, c),
{
    let v = chars_of(s);
    let mut i: usize = 0;
    assert(v@.subrange(0, v@.len() as int) =~= v@);
    while i < v.len() && v[i] == c
        invariant
            i <= v@.len(),
            stripped_start(v@.subrange(i as int, v@.len() as int), c) == stripped_start(v@, c),
        decreases v@.len() - i,
    {
        assert(v@.subrange(i as int, v@.len() as int).drop_first() =~= v@.subrange(
            i + 1,
            v@.len() as int,
        ));
        i = i + 1;
    }
    string_of(&v, i, v.len())
}

/// A character with `A` to `Z` made lower case.
pub open spec fn lowered(c: char) -> char {
    if 'A' <= c <= 'Z' {
        ((c as u32) + 32) as char
    } else {
        c
    }
}

/// A text with `A` to `Z` made lower case.
pub open spec fn lowercase(s: Seq<char>) -> Seq<char> {
    s.map_values(|c: char| lowered(c))
}

/// A character with `A` to `Z` made lower case.
pub fn lower_char(c: char) -> (r: char)
    ensures
        r == lowered(c),
{
    if 'A' <= c && c <= 'Z' {
        ((c as u8) + 32) as char
    } else {
        c
    }
}

/// A text with `A` to `Z` made lower case.
pub fn to_lowercase(s: &str) -> (r: String)
    ensures
        r@ == lowercase(s@),
{
    let v = chars_of(s);
    let mut out = String::new();
    let mut i: usize = 0;
    while i < v.len()
        invariant
            i <= v@.len(),
            out@ == lowercase(v@.take(i as int)),
        decreases v@.len() - i,
    {
        out.push(lower_char(v[i]));
        i = i + 1;
        assert(v@.take(i as int) =~= v@.take(i - 1).push(v@[i - 1]));
        assert(lowercase(v@.take(i as int)) =~= lowercase(v@.take(i - 1)).push(
            lowered(v@[i - 1]),
        ));
    }
    assert(v@.take(v@.len() as int) =~= v@);
    out
}

/// Whether two texts are the same but for the case of ASCII letters.
pub fn same_ignoring_case(a: &str, b: &str) -> (r: bool)
    ensures
        r == (lowercase(a@) == lowercase(b@)),
{
    let x = to_lowercase(a);
    let y = to_lowercase(b);
    same(x.as_str(), y.as_str())
}

/// The contents of a list of texts.
pub open spec fn texts(v: Seq<String>) -> Seq<Seq<char>> {
    Seq::new(v.len(), |i: int| v[i]@)
}

/// The contents of a list of key and value texts.
pub open spec fn pairs(v: Seq<(String, String)>) -> Seq<(Seq<char>, Seq<char>)> {
    Seq::new(v.len(), |i: int| (v[i].0@, v[i].1@))
}

/// Whether a list of texts holds `s`.
pub fn listed(v: &Vec<String>, s: &str) -> (r: bool)
    ensures
        r == texts(v@).contains(s@),
{
    let mut i: usize = 0;
    while i < v.len()
        invariant
            i <= v@.len(),
            forall|j: int| 0 <= j < i ==> v@[j]@ != s@,
        decreases v@.len() - i,
    {
        if same(v[i].as_str(), s) {
            assert(texts(v@)[i as int] == s@);
            return true;
        }
        i = i + 1;
    }
    false
}

/// The first place of `c` in `s`, or the length of `s`.
pub open spec fn first_of(s: Seq<char>, c: char) -> nat
    decreases s.len(),
{
    if s.len() == 0 || s[0] == c {
        0
    } else {
        1 + first_of(s.drop_first(), c)
    }
}

/// The pieces of `s` between the occurrences of `c`: always at least one.
pub open spec fn split(s: Seq<char>, c: char) -> Seq<Seq<char>>
    decreases s.len(),
{
    if s.len() == 0 {
        seq![s]
    } else if s[0] == c {
        seq![Seq::<char>::empty()] + split(s.drop_first(), c)
    } else {
        let rest = split(s.drop_first(), c);
        rest.update(0, seq![s[0]] + rest[0])
    }
}

pub proof fn lemma_split_some(s: Seq<char>, c: char)
    ensures
        split(s, c).len() > 0,
    decreases s.len(),
{
    if s.len() > 0 {
        lemma_split_some(s.drop_first(), c);
    }
}

pub proof fn lemma_split_push(s: Seq<char>, c: char, x: char)
    ensures
        split(s.push(x), c) == if x == c {
            split(s, c).push(Seq::<char>::empty())
        } else {
            split(s, c).update(split(s, c).len() - 1, split(s, c).last().push(x))
        },
    decreases s.len(),
{
    lemma_split_some(s, c);
    if s.len() == 0 {
        let one = s.push(x);
        assert(one.drop_first() =~= Seq::<char>::empty());
        assert(split(one.drop_first(), c) =~= seq![Seq::<char>::empty()]);
        assert(s =~= Seq::<char>::empty());
        if x == c {
            assert(split(one, c) =~= split(s, c).push(Seq::<char>::empty()));
        } else {
            assert(seq![x] + Seq::<char>::empty() =~= Seq::<char>::empty().push(x));
            assert(split(one, c) =~= split(s, c).update(0, Seq::<char>::empty().push(x)));
        }
    } else {
        let t = s.drop_first();
        assert(s.push(x).drop_first() =~= t.push(x));
        lemma_split_some(t, c);
        lemma_split_push(t, c, x);
        let rest = split(t, c);
        let grown = split(t.push(x), c);
        assert(s.push(x)[0] == s[0]);
        if s[0] == c {
            assert(split(s, c) =~= seq![Seq::<char>::empty()] + rest);
            assert(split(s.push(x), c) =~= seq![Seq::<char>::empty()] + grown);
            if x == c {
                assert(split(s.push(x), c) =~= split(s, c).push(Seq::<char>::empty()));
            } else {
                assert(split(s.push(x), c) =~= split(s, c).update(
                    split(s, c).len() - 1,
                    split(s, c).last().push(x),
                ));
            }
        } else {
            assert(split(s, c) =~= rest.update(0, seq![s[0]] + rest[0]));
            assert(split(s.push(x), c) =~= grown.update(0, seq![s[0]] + grown[0]));
            if x == c {
                assert(split(s.push(x), c) =~= split(s, c).push(Seq::<char>::empty()));
            } else if rest.len() == 1 {
                assert(seq![s[0]] + rest[0].push(x) =~= (seq![s[0]] + rest[0]).push(x));
                assert(split(s.push(x), c) =~= split(s, c).update(0, split(s, c)[0].push(x)));
            } else {
                assert(split(s.push(x), c) =~= split(s, c).update(
                    split(s, c).len() - 1,
                    split(s, c).last().push(x),
                ));
            }
        }
    }
}

/// The pieces of `s` between the occurrences of `c`.
pub fn split_on(s: &str, c: char) -> (r: Vec<String>)
    ensures
        texts(r@) == split(s@, c),
{
    let v = chars_of(s);
    let mut out: Vec<String> = Vec::new();
    let mut piece = String::new();
    let mut i: usize = 0;
    assert(v@.take(0) =~= Seq::<char>::empty());
    assert(texts(out@).push(piece@) =~= seq![Seq::<char>::empty()]);
    while i < v.len()
        invariant
            i <= v@.len(),
            texts(out@).push(piece@) == split(v@.take(i as int), c),
        decreases v@.len() - i,
    {
        proof {
            lemma_split_push(v@.take(i as int), c, v@[i as int]);
            assert(v@.take(i + 1) =~= v@.take(i as int).push(v@[i as int]));
        }
        let ghost before = texts(out@).push(piece@);
        if v[i] == c {
            let ghost done = piece@;
            out.push(piece);
            piece = String::new();
            assert(texts(out@) =~= before);
        } else {
            piece.push(v[i]);
            assert(texts(out@).push(piece@) =~= before.update(before.len() - 1, piece@));
        }
        i = i + 1;
    }
    assert(v@.take(v@.len() as int) =~= v@);
    let ghost before = texts(out@).push(piece@);
    out.push(piece);
    assert(texts(out@) =~= before);
    out
}

/// The longest run of whole characters from the start of `s` that takes at
/// most `max` bytes.
pub open spec fn fitting(s: Seq<char>, max: nat) -> Seq<char>
    decreases s.len(),
{
    if byte_len(s) <= max || s.len() == 0 {
        s
    } else {
        fitting(s.drop_last(), max)
    }
}

pub proof fn lemma_byte_len_take(s: Seq<char>, k: int)
    requires
        0 <= k <= s.len(),
    ensures
        byte_len(s.take(k)) <= byte_len(s),
        byte_len(s) == byte_len(s.take(k)) + byte_len(s.skip(k)),
{
    assert(s =~= s.take(k) + s.skip(k));
    lemma_encode_concat(s.take(k), s.skip(k));
}

/// `fitting` keeps a prefix within the bound, and no longer prefix is within it.
pub proof fn law_fitting_is_longest(s: Seq<char>, max: nat)
    ensures
        fitting(s, max).len() <= s.len(),
        fitting(s, max) == s.take(fitting(s, max).len() as int),
        byte_len(fitting(s, max)) <= max,
        forall|k: int| fitting(s, max).len() < k <= s.len() ==> byte_len(#[trigger] s.take(k)) > max,
    decreases s.len(),
{
    if byte_len(s) <= max || s.len() == 0 {
        assert(s.take(s.len() as int) =~= s);
        if s.len() == 0 {
            assert(encode_utf8(s) =~= Seq::<u8>::empty());
        }
    } else {
        let t = s.drop_last();
        law_fitting_is_longest(t, max);
        let n = fitting(s, max).len() as int;
        assert(t.take(n) =~= s.take(n));
        assert forall|k: int| n < k <= s.len() implies byte_len(#[trigger] s.take(k)) > max by {
            if k == s.len() {
                assert(s.take(k) =~= s);
            } else {
                assert(s.take(k) =~= t.take(k));
            }
        }
    }
}

/// A bound that any one character is within leaves something of every text.
pub proof fn lemma_fitting_some(s: Seq<char>, max: nat)
    requires
        s.len() > 0,
        max >= 4,
    ensures
        fitting(s, max).len() > 0,
{
    law_fitting_is_longest(s, max);
    let none = Seq::<char>::empty();
    assert(encode_utf8(none) =~= Seq::<u8>::empty());
    lemma_byte_len_push(none, s[0]);
    vstd::utf8::char_is_scalar(s[0]);
    assert(s.take(1) =~= none.push(s[0]));
    assert(byte_len(s.take(1)) <= 4);
}

proof fn lemma_fitting_unique(s: Seq<char>, max: nat, k: int)
    requires
        0 <= k <= s.len(),
        byte_len(s.take(k)) <= max,
        k < s.len() ==> byte_len(s.take(k + 1)) > max,
    ensures
        fitting(s, max) == s.take(k),
    decreases s.len(),
{
    if k == s.len() {
        assert(s.take(k) =~= s);
    } else {
        lemma_byte_len_take(s, k + 1);
        let t = s.drop_last();
        assert(t.take(k) =~= s.take(k));
        if k < t.len() {
            assert(t.take(k + 1) =~= s.take(k + 1));
        }
        lemma_fitting_unique(t, max, k);
    }
}

/// Truncate to at most `max` bytes without cutting a character in two.
pub fn cap(value: &str, max: usize) -> (r: String)
    ensures
        r@ == fitting(value@, max as nat),
{
    let v = chars_of(value);
    let mut out = String::new();
    let mut used: usize = 0;
    let mut i: usize = 0;
    assert(v@.take(0) =~= Seq::<char>::empty());
    assert(encode_utf8(Seq::<char>::empty()) =~= Seq::<u8>::empty());
    while i < v.len()
        invariant
            i <= v@.len(),
            v@ == value@,
            out@ == v@.take(i as int),
            used == byte_len(out@),
            used <= max,
        decreases v@.len() - i,
    {
        let w = char_width(v[i]);
        proof {
            lemma_byte_len_push(v@.take(i as int), v@[i as int]);
            assert(v@.take(i + 1) =~= v@.take(i as int).push(v@[i as int]));
        }
        if w > max - used {
            proof {
                lemma_fitting_unique(v@, max as nat, i as int);
            }
            return out;
        }
        out.push(v[i]);
        used = used + w;
        i = i + 1;
    }
    proof {
        lemma_fitting_unique(v@, max as nat, v@.len() as int);
    }
    out
}

/// The decimal digit for a number below ten.
pub open spec fn digit(d: nat) -> char {
    ((48 + d) as u32) as char
}

/// A number in decimal, without leading zeros.
pub open spec fn decimal(n: nat) -> Seq<char>
    decreases n,
{
    if n < 10 {
        seq![digit(n)]
    } else {
        decimal(n / 10).push(digit(n % 10))
    }
}

/// A greater number has no fewer digits.
pub proof fn lemma_decimal_len(a: nat, b: nat)
    requires
        a <= b,
    ensures
        decimal(a).len() <= decimal(b).len(),
    decreases b,
{
    if a >= 10 {
        assert(a / 10 <= b / 10);
        lemma_decimal_len(a / 10, b / 10);
    }
}

/// A whole number in decimal, with a minus sign when below zero.
pub open spec fn int_text(n: int) -> Seq<char> {
    if n < 0 {
        seq!['-'] + decimal((-n) as nat)
    } else {
        decimal(n as nat)
    }
}

/// The decimal digit for a number below ten.
fn digit_char(d: u8) -> (r: char)
    requires
        d < 10,
    ensures
        r == digit(d as nat),
{
    (48 + d) as char
}

/// A number in decimal.
pub fn decimal_text(n: u128) -> (r: String)
    ensures
        r@ == decimal(n as nat),
    decreases n,
{
    if n < 10 {
        let mut out = String::new();
        out.push(digit_char(n as u8));
        assert(out@ =~= seq![digit(n as nat)]);
        out
    } else {
        let mut out = decimal_text(n / 10);
        out.push(digit_char((n % 10) as u8));
        out
    }
}

/// A signed number in decimal.
pub fn signed_text(n: i64) -> (r: String)
    ensures
        r@ == int_text(n as int),
{
    if n < 0 {
        let m: u128 = (-(n as i128)) as u128;
        let mut out = String::new();
        out.push('-');
        assert(out@ =~= seq!['-']);
        out.append(decimal_text(m).as_str());
        out
    } else {
        decimal_text(n as u128)
    }
}

/// Whether every character is a decimal digit.
pub open spec fn all_digits(s: Seq<char>) -> bool {
    forall|i: int| 0 <= i < s.len() ==> '0' <= #[trigger] s[i] <= '9'
}

/// The number that a run of decimal digits stands for.
pub open spec fn value_of(s: Seq<char>) -> nat
    decreases s.len(),
{
    if s.len() == 0 {
        0
    } else {
        value_of(s.drop_last()) * 10 + ((s.last() as u32) as nat - 48) as nat
    }
}

/// The digits of an unsigned number as written: an optional plus sign comes first.
pub open spec fn unsigned_digits(s: Seq<char>) -> Seq<char> {
    if s.len() > 0 && s[0] == '+' {
        s.drop_first()
    } else {
        s
    }
}

/// The unsigned number a text stands for, when it is one no greater than `max`.
pub open spec fn parsed(s: Seq<char>, max: nat) -> Option<nat> {
    let d = unsigned_digits(s);
    if d.len() > 0 && all_digits(d) && value_of(d) <= max {
        Some(value_of(d))
    } else {
        None
    }
}

proof fn lemma_value_take(s: Seq<char>, k: int)
    requires
        0 <= k <= s.len(),
        all_digits(s),
    ensures
        value_of(s.take(k)) <= value_of(s),
    decreases s.len() - k,
{
    if k == s.len() {
        assert(s.take(k) =~= s);
    } else {
        lemma_value_take(s, k + 1);
        assert(s.take(k + 1).drop_last() =~= s.take(k));
        assert(s.take(k + 1).last() == s[k]);
    }
}

/// Read an unsigned number no greater than `max`.
pub fn parse_unsigned(s: &str, max: u128) -> (r: Option<u128>)
    ensures
        match r {
            Some(n) => parsed(s@, max as nat) == Some(n as nat),
            None => parsed(s@, max as nat) is None,
        },
{
    let all = chars_of(s);
    let from: usize = if all.len() > 0 && all[0] == '+' {
        1
    } else {
        0
    };
    let ghost d = unsigned_digits(s@);
    assert(d =~= all@.subrange(from as int, all@.len() as int));
    if from == all.len() {
        return None;
    }
    let mut n: u128 = 0;
    let mut i: usize = from;
    while i < all.len()
        invariant
            from <= i <= all@.len(),
            from <= 1,
            d == all@.subrange(from as int, all@.len() as int),
            d == unsigned_digits(s@),
            d.len() > 0,
            n <= max,
            n == value_of(d.take(i - from)),
            forall|j: int| 0 <= j < i - from ==> '0' <= #[trigger] d[j] <= '9',
        decreases all@.len() - i,
    {
        let c = all[i];
        assert(d[i - from] == c);
        if c < '0' || c > '9' {
            return None;
        }
        let v: u128 = (c as u32 - 48) as u128;
        proof {
            assert(d.take(i - from + 1).drop_last() =~= d.take(i - from));
            assert(d.take(i - from + 1).last() == c);
            if all_digits(d) {
                lemma_value_take(d, i - from + 1);
            }
        }
        if n > max / 10 || v > max || n * 10 > max - v {
            return None;
        }
        n = n * 10 + v;
        i = i + 1;
    }
    assert(d.take(d.len() as int) =~= d);
    Some(n)
}

/// The signed number that a text stands for, when it is one of 64 bits: an
/// optional sign, then decimal digits.
pub open spec fn parsed_signed(s: Seq<char>) -> Option<int> {
    if s.len() > 0 && s[0] == '-' {
        let d = s.drop_first();
        if d.len() > 0 && all_digits(d) && value_of(d) <= 0x8000_0000_0000_0000 {
            Some(-(value_of(d) as int))
        } else {
            None
        }
    } else {
        match parsed(s, i64::MAX as nat) {
            Some(n) => Some(n as int),
            None => None,
        }
    }
}

/// Read a signed number of 64 bits.
pub fn parse_signed(s: &str) -> (r: Option<i64>)
    ensures
        match r {
            Some(n) => parsed_signed(s@) == Some(n as int),
            None => parsed_signed(s@) is None,
        },
{
    let v = chars_of(s);
    if v.len() > 0 && v[0] == '-' {
        let d = string_of(&v, 1, v.len());
        assert(d@ =~= s@.drop_first());
        if v.len() > 1 && v[1] == '+' {
            assert(d@[0] == '+');
            return None;
        }
        assert(unsigned_digits(d@) == d@);
        match parse_unsigned(d.as_str(), 0x8000_0000_0000_0000) {
            Some(n) => Some((-(n as i128)) as i64),
            None => None,
        }
    } else {
        match parse_unsigned(s, i64::MAX as u128) {
            Some(n) => Some(n as i64),
            None => None,
        }
    }
}

/// The bytes of a text in UTF-8.
pub fn bytes_of(s: &str) -> (r: Vec<u8>)
    ensures
        r@ == encode_utf8(s@),
{
    s.as_bytes_vec()
}

/// The length of a text in bytes.
pub fn text_bytes(s: &str) -> (r: usize)
    ensures
        r == byte_len(s@),
{
    let bytes = bytes_of(s);
    bytes.len()
}

/// The text of an optional text.
pub open spec fn opt_text(o: Option<String>) -> Option<Seq<char>> {
    match o {
        Some(s) => Some(s@),
        None => None,
    }
}

/// The text of an optional borrowed text.
pub open spec fn opt_view(o: Option<&str>) -> Option<Seq<char>> {
    match o {
        Some(s) => Some(s@),
        None => None,
    }
}

/// A text when there is one and it is not empty.
pub open spec fn nonempty(o: Option<Seq<char>>) -> Option<Seq<char>> {
    match o {
        Some(s) => if s.len() > 0 {
            Some(s)
        } else {
            None
        },
        None => None,
    }
}

/// A text, or the empty text.
pub open spec fn or_empty(o: Option<Seq<char>>) -> Seq<char> {
    match o {
        Some(s) => s,
        None => Seq::empty(),
    }
}

/// A place where `c` stands, with no other before it, is the first; so is the
/// end when it stands nowhere.
pub proof fn lemma_first_of(s: Seq<char>, c: char, i: int)
    requires
        0 <= i <= s.len(),
        i < s.len() ==> s[i] == c,
        forall|j: int| 0 <= j < i ==> s[j] != c,
    ensures
        first_of(s, c) == i,
    decreases i,
{
    if i > 0 {
        lemma_first_of(s.drop_first(), c, i - 1);
    }
}

/// A text cut of the white space around it: a run of the text, with nothing but
/// white space before and after it, and none at its own ends.
pub proof fn law_trimming_drops_only_the_white_edges(s: &str, r: String)
    requires
        call_ensures(trim, (s,), r),
    ensures
        exists|from: int, to: int|
            #![trigger s@.subrange(from, to)]
            0 <= from <= to <= s@.len() && r@ == s@.subrange(from, to) && (forall|i: int|
                0 <= i < from || to <= i < s@.len() ==> is_white(#[trigger] s@[i])),
        r@.len() > 0 ==> !is_white(r@[0]) && !is_white(r@.last()),
{
    lemma_trimmed_start(s@);
    let t = trimmed_start(s@);
    lemma_trimmed_end(t);
    let from = s@.len() - t.len();
    let to = from + trimmed_end(t).len();
    assert(r@ =~= s@.subrange(from, to));
    assert forall|i: int| 0 <= i < from || to <= i < s@.len() implies is_white(#[trigger] s@[i]) by {
        if i >= to {
            assert(t[i - from] == s@[i]);
        }
    }
    if r@.len() > 0 {
        assert(r@[0] == t[0]);
    }
}

proof fn lemma_trimmed_start(s: Seq<char>)
    ensures
        trimmed_start(s).len() <= s.len(),
        trimmed_start(s) == s.skip(s.len() - trimmed_start(s).len()),
        forall|i: int| 0 <= i < s.len() - trimmed_start(s).len() ==> is_white(#[trigger] s[i]),
        trimmed_start(s).len() > 0 ==> !is_white(trimmed_start(s)[0]),
    decreases s.len(),
{
    if s.len() > 0 && is_white(s[0]) {
        let t = s.drop_first();
        lemma_trimmed_start(t);
        let k = t.len() - trimmed_start(t).len();
        assert(t.skip(k) =~= s.skip(k + 1));
        assert forall|i: int| 0 <= i < k + 1 implies is_white(#[trigger] s[i]) by {
            if i > 0 {
                assert(t[i - 1] == s[i]);
            }
        }
    } else {
        assert(s.skip(0) =~= s);
    }
}

proof fn lemma_trimmed_end(s: Seq<char>)
    ensures
        trimmed_end(s).len() <= s.len(),
        trimmed_end(s) == s.take(trimmed_end(s).len() as int),
        forall|i: int| trimmed_end(s).len() <= i < s.len() ==> is_white(#[trigger] s[i]),
        trimmed_end(s).len() > 0 ==> !is_white(trimmed_end(s).last()),
    decreases s.len(),
{
    if s.len() > 0 && is_white(s.last()) {
        let t = s.drop_last();
        lemma_trimmed_end(t);
        let n = trimmed_end(t).len() as int;
        assert(t.take(n) =~= s.take(n));
        assert forall|i: int| n <= i < s.len() implies is_white(#[trigger] s[i]) by {
            if i < t.len() {
                assert(t[i] == s[i]);
            }
        }
    } else {
        assert(s.take(s.len() as int) =~= s);
    }
}

/// Among the ASCII characters, white space is the tab, the line breaks, the form
/// feed and the space.
pub proof fn law_ascii_white_space(c: char, r: bool)
    requires
        call_ensures(white, (c,), r),
        (c as u32) < 128,
    ensures
        r <==> c == ' ' || c == '\t' || c == '\n' || c == '\r' || c as u32 == 11 || c as u32 == 12,
        is_white(c) == r,
{
}

/// Lower case changes `A` to `Z` alone, each to the letter it stands for, and
/// keeps every other character and the length.
pub proof fn law_lower_case_changes_capitals_alone(s: &str, r: String)
    requires
        call_ensures(to_lowercase, (s,), r),
    ensures
        r@.len() == s@.len(),
        forall|i: int|
            0 <= i < s@.len() ==> {
                let c = s@[i];
                let l = #[trigger] r@[i];
                &&& 'A' <= c <= 'Z' ==> 'a' <= l <= 'z' && l as u32 - 97 == c as u32 - 65
                &&& !('A' <= c <= 'Z') ==> l == c
            },
{
    assert forall|i: int| 0 <= i < s@.len() implies {
        let c = s@[i];
        let l = #[trigger] r@[i];
        &&& 'A' <= c <= 'Z' ==> 'a' <= l <= 'z' && l as u32 - 97 == c as u32 - 65
        &&& !('A' <= c <= 'Z') ==> l == c
    } by {
        lemma_lowered(s@[i]);
    }
}

/// A lower-case character is not changed; a capital is 32 below the letter it
/// becomes.
pub proof fn lemma_lowered(c: char)
    ensures
        'A' <= c <= 'Z' ==> lowered(c) as u32 == c as u32 + 32,
        !('A' <= c <= 'Z') ==> lowered(c) == c,
{
    if 'A' <= c <= 'Z' {
        let n = (c as u32) + 32;
        assert(97 <= n <= 122);
        assert((n as char) as u32 == n);
    }
}

/// The pieces put together again, the separator between each two.
pub open spec fn rejoined(pieces: Seq<Seq<char>>, c: char) -> Seq<char>
    decreases pieces.len(),
{
    if pieces.len() == 0 {
        Seq::empty()
    } else if pieces.len() == 1 {
        pieces[0]
    } else {
        rejoined(pieces.drop_last(), c).push(c) + pieces.last()
    }
}

/// Splitting cuts a text at every separator and nowhere else: no piece holds one,
/// there is one piece more than there are separators, and the pieces with a
/// separator between each two are the text again.
pub proof fn law_splitting_is_undone_by_joining(s: &str, c: char, r: Vec<String>)
    requires
        call_ensures(split_on, (s, c), r),
    ensures
        r@.len() > 0,
        forall|i: int, k: int|
            0 <= i < r@.len() && 0 <= k < r@[i]@.len() ==> #[trigger] r@[i]@[k] != c,
        rejoined(texts(r@), c) == s@,
{
    lemma_split_joins(s@, c);
    assert(texts(r@).len() == r@.len());
    assert forall|i: int, k: int| 0 <= i < r@.len() && 0 <= k < r@[i]@.len() implies #[trigger] r@[i]@[k]
        != c by {
        assert(texts(r@)[i] == r@[i]@);
        assert(split(s@, c)[i][k] != c);
    }
}

/// The pieces hold no separator, and joined again they are the text.
pub proof fn lemma_split_joins(s: Seq<char>, c: char)
    ensures
        split(s, c).len() > 0,
        forall|i: int, k: int|
            0 <= i < split(s, c).len() && 0 <= k < split(s, c)[i].len() ==> #[trigger] split(
                s,
                c,
            )[i][k] != c,
        rejoined(split(s, c), c) == s,
    decreases s.len(),
{
    lemma_split_some(s, c);
    if s.len() == 0 {
        assert(split(s, c) =~= seq![s]);
    } else {
        let t = s.drop_last();
        let x = s.last();
        assert(t.push(x) =~= s);
        lemma_split_joins(t, c);
        lemma_split_push(t, c, x);
        let before = split(t, c);
        let after = split(s, c);
        if x == c {
            assert(after.drop_last() =~= before);
            assert(rejoined(after, c) =~= s);
        } else {
            let n = before.len() - 1;
            assert(after[n] == before[n].push(x));
            assert forall|i: int, k: int| 0 <= i < after.len() && 0 <= k < after[i].len() implies #[trigger] after[i][k]
                != c by {
                if i < n {
                    assert(after[i] == before[i]);
                } else if k < before[n].len() {
                    assert(after[n][k] == before[n][k]);
                }
            }
            if n == 0 {
                assert(rejoined(after, c) =~= s);
            } else {
                assert(after.drop_last() =~= before.drop_last());
                assert(rejoined(after, c) =~= s);
            }
        }
    }
}

/// A separator and a text without one, put after a text, add one piece.
pub proof fn lemma_split_append(s: Seq<char>, c: char, piece: Seq<char>)
    requires
        forall|i: int| 0 <= i < piece.len() ==> #[trigger] piece[i] != c,
    ensures
        split(s.push(c) + piece, c) == split(s, c).push(piece),
    decreases piece.len(),
{
    if piece.len() == 0 {
        assert(s.push(c) + piece =~= s.push(c));
        lemma_split_push(s, c, c);
        assert(piece =~= Seq::<char>::empty());
    } else {
        let p = piece.drop_last();
        let x = piece.last();
        assert(piece[piece.len() - 1] != c);
        assert forall|i: int| 0 <= i < p.len() implies #[trigger] p[i] != c by {
            assert(p[i] == piece[i]);
        }
        lemma_split_append(s, c, p);
        assert(s.push(c) + piece =~= (s.push(c) + p).push(x));
        lemma_split_push(s.push(c) + p, c, x);
        assert(p.push(x) =~= piece);
        assert(split(s, c).push(p).update(split(s, c).len() as int, piece) =~= split(s, c).push(
            piece,
        ));
    }
}

/// A text without a separator is one piece.
pub proof fn lemma_split_whole(s: Seq<char>, c: char)
    requires
        forall|i: int| 0 <= i < s.len() ==> #[trigger] s[i] != c,
    ensures
        split(s, c) == seq![s],
    decreases s.len(),
{
    if s.len() > 0 {
        let t = s.drop_first();
        assert forall|i: int| 0 <= i < t.len() implies #[trigger] t[i] != c by {
            assert(t[i] == s[i + 1]);
        }
        lemma_split_whole(t, c);
        assert(s[0] != c);
        assert(seq![s[0]] + t =~= s);
        assert(split(s, c) =~= seq![s]);
    }
}

/// A capped text is the longest run of whole characters from the start that takes
/// no more bytes than it may.
pub proof fn law_a_capped_text_is_the_longest_that_fits(value: &str, max: usize, r: String)
    requires
        call_ensures(cap, (value, max), r),
    ensures
        r@.len() <= value@.len(),
        r@ == value@.take(r@.len() as int),
        encode_utf8(r@).len() <= max,
        forall|k: int|
            r@.len() < k <= value@.len() ==> encode_utf8(#[trigger] value@.take(k)).len() > max,
        encode_utf8(value@).len() <= max ==> r@ == value@,
{
    law_fitting_is_longest(value@, max as nat);
    assert forall|k: int| r@.len() < k <= value@.len() implies encode_utf8(
        #[trigger] value@.take(k),
    ).len() > max by {
        assert(byte_len(value@.take(k)) > max);
    }
}

/// The number of bytes of a text is that of its UTF-8 encoding, and its bytes are
/// that encoding.
pub proof fn law_bytes_are_utf8(s: &str, bytes: Vec<u8>, n: usize)
    requires
        call_ensures(bytes_of, (s,), bytes),
        call_ensures(text_bytes, (s,), n),
    ensures
        bytes@ == encode_utf8(s@),
        n == encode_utf8(s@).len(),
{
}

/// A number in decimal: one digit below ten; else the digits of a tenth of it and
/// the digit of the rest.
pub proof fn law_decimals_are_digits(n: u128, r: String, tenth: String)
    requires
        call_ensures(decimal_text, (n,), r),
        call_ensures(decimal_text, (n / 10,), tenth),
    ensures
        r@.len() > 0,
        '0' <= r@.last() <= '9',
        r@.last() as u32 - 48 == n % 10,
        n < 10 ==> r@.len() == 1,
        n >= 10 ==> r@.drop_last() == tenth@,
{
    let d = (48 + n % 10) as u32;
    assert(48 <= d <= 57);
    assert((d as char) as u32 == d);
    if n >= 10 {
        assert(r@.drop_last() =~= decimal((n / 10) as nat));
    }
}

/// A number below zero is written with a minus sign before the digits of its
/// size, any other with its digits alone.
pub proof fn law_signed_numbers_carry_their_sign(n: i64, r: String, size: u128, digits: String)
    requires
        call_ensures(signed_text, (n,), r),
        call_ensures(decimal_text, (size,), digits),
        size == if n < 0 {
            -n
        } else {
            n as int
        },
    ensures
        n < 0 ==> r@.len() > 0 && r@[0] == '-' && r@.drop_first() == digits@,
        n >= 0 ==> r@ == digits@,
{
    if n < 0 {
        assert(r@.drop_first() =~= digits@);
    }
}

proof fn lemma_decimal_value(n: nat)
    ensures
        decimal(n).len() > 0,
        all_digits(decimal(n)),
        value_of(decimal(n)) == n,
    decreases n,
{
    let d = ((48 + n % 10) as u32);
    assert((d as char) as u32 == d);
    if n < 10 {
        assert(decimal(n).drop_last() =~= Seq::<char>::empty());
        assert(value_of(Seq::<char>::empty()) == 0);
    } else {
        lemma_decimal_value(n / 10);
        assert(decimal(n).drop_last() =~= decimal(n / 10));
        assert forall|i: int| 0 <= i < decimal(n).len() implies '0' <= #[trigger] decimal(n)[i]
            <= '9' by {
            if i < decimal(n / 10).len() {
                assert(decimal(n)[i] == decimal(n / 10)[i]);
            }
        }
    }
}

/// A number that was written reads back, as far as it is no greater than asked
/// for; a greater one is no number.
pub proof fn law_written_numbers_read_back(n: u128, text: String, s: &str, max: u128, r: Option<u128>)
    requires
        call_ensures(decimal_text, (n,), text),
        s@ == text@,
        call_ensures(parse_unsigned, (s, max), r),
    ensures
        n <= max ==> r == Some(n),
        n > max ==> r is None,
{
    lemma_decimal_value(n as nat);
    assert('0' <= decimal(n as nat)[0] <= '9');
    assert(unsigned_digits(text@) == text@);
}

/// A signed number that was written reads back.
pub proof fn law_written_signed_numbers_read_back(n: i64, text: String, s: &str, r: Option<i64>)
    requires
        call_ensures(signed_text, (n,), text),
        s@ == text@,
        call_ensures(parse_signed, (s,), r),
    ensures
        r == Some(n),
{
    if n < 0 {
        lemma_decimal_value((-n) as nat);
        assert(text@.drop_first() =~= decimal((-n) as nat));
    } else {
        lemma_decimal_value(n as nat);
        assert('0' <= decimal(n as nat)[0] <= '9');
        assert(unsigned_digits(text@) == text@);
    }
}

/// Each digit more is ten times the number before it and the digit, while that is
/// no greater than asked for. Anything but digits after an optional plus sign is
/// no number, nor is the empty text.
pub proof fn law_a_digit_more_is_ten_times_as_much(
    s: &str,
    max: u128,
    r: Option<u128>,
    longer: &str,
    c: char,
    more: Option<u128>,
)
    requires
        call_ensures(parse_unsigned, (s, max), r),
        call_ensures(parse_unsigned, (longer, max), more),
        longer@ == s@.push(c),
    ensures
        s@.len() == 0 ==> r is None,
        r matches Some(n) ==> '0' <= c <= '9' ==> n * 10 + (c as u32 - 48) <= max ==> more == Some(
            (n * 10 + (c as u32 - 48)) as u128,
        ),
        r matches Some(n) ==> '0' <= c <= '9' ==> n * 10 + (c as u32 - 48) > max ==> more is None,
        !('0' <= c <= '9') ==> more is None,
        s@.len() == 0 && '0' <= c <= '9' && c as u32 - 48 <= max ==> more == Some(
            (c as u32 - 48) as u128,
        ),
{
    let d = unsigned_digits(longer@);
    let e = unsigned_digits(s@);
    if s@.len() > 0 {
        assert(d =~= e.push(c));
        assert(d.drop_last() =~= e);
        if r is Some {
            if '0' <= c <= '9' {
                assert(all_digits(d));
            }
        }
        assert(d[d.len() - 1] == c);
    } else if c != '+' {
        assert(d =~= seq![c]);
        assert(d.drop_last() =~= Seq::<char>::empty());
        assert(value_of(Seq::<char>::empty()) == 0);
        assert(d[0] == c);
    } else {
        assert(d =~= Seq::<char>::empty());
    }
}

/// A text begins, or ends, with another exactly when the other stands there; and
/// holds it exactly when it stands anywhere. What is left without a prefix is
/// what comes after it.
pub proof fn law_affixes(s: &str, p: &str, starts: bool, ends_so: bool, inside: bool, rest: Option<String>)
    requires
        call_ensures(starts_with, (s, p), starts),
        call_ensures(ends_with, (s, p), ends_so),
        call_ensures(contains_text, (s, p), inside),
        call_ensures(strip_prefix, (s, p), rest),
    ensures
        starts <==> exists|tail: Seq<char>| s@ == p@ + tail,
        ends_so <==> exists|head: Seq<char>| s@ == head + p@,
        inside <==> exists|head: Seq<char>, tail: Seq<char>| s@ == head + p@ + tail,
        rest is Some <==> starts,
        rest matches Some(tail) ==> s@ == p@ + tail@,
{
    let n = p@.len() as int;
    let m = s@.len() as int;
    if starts {
        assert(s@ =~= p@ + s@.skip(n));
    }
    if exists|tail: Seq<char>| s@ == p@ + tail {
        let tail = choose|tail: Seq<char>| s@ == p@ + tail;
        assert(s@.subrange(0, n) =~= p@);
    }
    if ends_so {
        assert(s@ =~= s@.take(m - n) + p@);
    }
    if exists|head: Seq<char>| s@ == head + p@ {
        let head = choose|head: Seq<char>| s@ == head + p@;
        assert(s@.subrange(m - n, m) =~= p@);
    }
    if inside {
        let i = choose|i: int| found_at(s@, p@, i);
        assert(s@ =~= s@.take(i) + p@ + s@.skip(i + n));
    }
    if exists|head: Seq<char>, tail: Seq<char>| s@ == head + p@ + tail {
        let (head, tail) = choose|head: Seq<char>, tail: Seq<char>| s@ == head + p@ + tail;
        assert(s@.subrange(head.len() as int, head.len() + n) =~= p@);
        assert(found_at(s@, p@, head.len() as int));
    }
}

/// Two texts are the same when they have the same characters, and a copy is the
/// same; without regard to case, when their lower cases are. A list holds a text
/// when one of its texts is the same.
pub proof fn law_sameness(
    a: &str,
    b: &str,
    r: bool,
    copied: String,
    list: &Vec<String>,
    found: bool,
    low_a: String,
    low_b: String,
    alike: bool,
)
    requires
        call_ensures(same, (a, b), r),
        call_ensures(copy, (a,), copied),
        call_ensures(listed, (list, a), found),
        call_ensures(to_lowercase, (a,), low_a),
        call_ensures(to_lowercase, (b,), low_b),
        call_ensures(same_ignoring_case, (a, b), alike),
    ensures
        r <==> a@ == b@,
        copied@ == a@,
        found <==> exists|i: int| 0 <= i < list@.len() && (#[trigger] list@[i])@ == a@,
        alike <==> low_a@ == low_b@,
{
    if found {
        let i = choose|i: int| 0 <= i < texts(list@).len() && texts(list@)[i] == a@;
        assert(list@[i]@ == a@);
    }
    if exists|i: int| 0 <= i < list@.len() && (#[trigger] list@[i])@ == a@ {
        let i = choose|i: int| 0 <= i < list@.len() && (#[trigger] list@[i])@ == a@;
        assert(texts(list@)[i] == a@);
    }
}

/// Beyond ASCII, white space is what Unicode says it is: the next line, the no-break
/// and the Ogham space, the spaces from the en quad to the hair space, the line and
/// paragraph separators, the narrow no-break, the mathematical and the ideographic
/// space.
pub proof fn law_white_space_beyond_ascii(c: char, r: bool)
    requires
        call_ensures(white, (c,), r),
        c as u32 >= 128,
    ensures
        r <==> (c as u32 == 133 || c as u32 == 160 || c as u32 == 5760 || 8192 <= c as u32 <= 8202
            || c as u32 == 8232 || c as u32 == 8233 || c as u32 == 8239 || c as u32 == 8287
            || c as u32 == 12288),
{
}

/// Stripping a character off the start takes the whole run of it, and nothing else.
pub proof fn law_stripping_takes_the_whole_run(s: &str, c: char, r: String)
    requires
        call_ensures(strip_start, (s, c), r),
    ensures
        r@.len() <= s@.len(),
        r@ == s@.skip(s@.len() - r@.len()),
        forall|i: int| 0 <= i < s@.len() - r@.len() ==> #[trigger] s@[i] == c,
        r@.len() > 0 ==> r@[0] != c,
{
    lemma_stripped_run(s@, c);
}

proof fn lemma_stripped_run(s: Seq<char>, c: char)
    ensures
        ({
            let r = stripped_start(s, c);
            &&& r.len() <= s.len()
            &&& r == s.skip(s.len() - r.len())
            &&& forall|i: int| 0 <= i < s.len() - r.len() ==> #[trigger] s[i] == c
            &&& r.len() > 0 ==> r[0] != c
        }),
    decreases s.len(),
{
    if s.len() > 0 && s[0] == c {
        let t = s.drop_first();
        lemma_stripped_run(t, c);
        let r = stripped_start(s, c);
        assert(r =~= s.skip(s.len() - r.len()));
        assert forall|i: int| 0 <= i < s.len() - r.len() implies #[trigger] s[i] == c by {
            if i > 0 {
                assert(s[i] == t[i - 1]);
            }
        }
    } else {
        assert(s.skip(0) =~= s);
    }
}

} // verus!
