//! JSON documents. The values, objects and their text are serde_json's; the
//! contracts speak of a value by the tree that it stands for.

use crate::text::byte_len;
use vstd::prelude::*;

verus! {

/// The tree that a JSON value stands for.
pub enum Json {
    Number(int),
    Text(Seq<char>),
    List(Seq<Json>),
    Object(Map<Seq<char>, Json>),
}

#[verifier::external_type_specification]
#[verifier::external_body]
pub struct ExValue(serde_json::Value);

#[verifier::external_type_specification]
#[verifier::external_body]
#[verifier::reject_recursive_types(K)]
#[verifier::reject_recursive_types(V)]
pub struct ExObject<K, V>(serde_json::Map<K, V>);

/// The tree of a value.
pub uninterp spec fn tree(v: serde_json::Value) -> Json;

/// What an object holds.
pub uninterp spec fn contents(m: serde_json::Map<String, serde_json::Value>) -> Map<
    Seq<char>,
    Json,
>;

/// The text that serde_json gives a tree.
pub uninterp spec fn rendered(j: Json) -> Seq<char>;

/// Whether a text holds only printable ASCII, and neither quotes nor
/// backslashes.
pub open spec fn plain(s: Seq<char>) -> bool {
    forall|i: int| 0 <= i < s.len() ==> plain_char(#[trigger] s[i])
}

/// Printable ASCII that needs no escape.
pub open spec fn plain_char(c: char) -> bool {
    ' ' <= c && c <= '~' && c != '"' && c != '\\'
}

/// A text between quotes.
pub open spec fn quoted(s: Seq<char>) -> Seq<char> {
    seq!['"'] + s + seq!['"']
}

/// How many bytes an item takes in a list, its comma with it.
pub open spec fn item_size(j: Json) -> nat {
    byte_len(rendered(j)) + 1
}

/// How many bytes items take in a list, a comma with each.
pub open spec fn items_bytes(items: Seq<Json>) -> nat
    decreases items.len(),
{
    if items.len() == 0 {
        0
    } else {
        items_bytes(items.drop_last()) + item_size(items.last())
    }
}

/// How many bytes an entry takes in an object, its colon and comma with it.
pub open spec fn entry_bytes(key: Seq<char>, value: Json) -> nat {
    byte_len(rendered(Json::Text(key))) + byte_len(rendered(value)) + 2
}

/// How many bytes entries take in an object, a comma with each.
#[verifier::opaque]
pub open spec fn entries_bytes(m: Map<Seq<char>, Json>) -> nat
    decreases m.dom().len(),
{
    if m.dom().finite() && m.dom().len() > 0 {
        let key = m.dom().choose();
        entry_bytes(key, m[key]) + entries_bytes(m.remove(key))
    } else {
        0
    }
}

/// How many bytes a list or an object takes, whose parts take so many with a
/// comma each: the last comma gives way to the brackets around them.
pub open spec fn bracketed(parts: nat) -> nat {
    if parts == 0 {
        2
    } else {
        parts + 1
    }
}

/// Whether a value that is a list takes the bytes of its items.
pub open spec fn list_sized(j: Json) -> bool {
    j matches Json::List(items) ==> byte_len(rendered(j)) == bracketed(items_bytes(items))
}

/// Whether a value that is a text takes its characters and two quotes, when none
/// of them needs an escape.
pub open spec fn text_sized(j: Json) -> bool {
    j matches Json::Text(text) ==> plain(text) ==> byte_len(rendered(j)) == text.len() + 2
}

/// Whether a value that is an object takes the bytes of its entries, and its
/// texts those of their characters.
pub open spec fn flat_sized(j: Json) -> bool {
    match j {
        Json::Object(m) => {
            &&& m.dom().finite()
            &&& byte_len(rendered(j)) == bracketed(entries_bytes(m))
            &&& forall|key: Seq<char>| #[trigger] m.contains_key(key) ==> text_sized(m[key])
        },
        _ => true,
    }
}

/// Whether a value that is an object takes the bytes of its entries, and each of
/// those the bytes of its own parts.
pub open spec fn object_sized(j: Json) -> bool {
    match j {
        Json::Object(m) => {
            &&& m.dom().finite()
            &&& byte_len(rendered(j)) == bracketed(entries_bytes(m))
            &&& forall|key: Seq<char>| #[trigger]
                m.contains_key(key) ==> list_sized(m[key]) && text_sized(m[key]) && flat_sized(
                    m[key],
                )
        },
        _ => true,
    }
}

/// An object's bytes are those of any of its entries and those of the rest.
pub proof fn lemma_entries_bytes(m: Map<Seq<char>, Json>, key: Seq<char>)
    requires
        m.dom().finite(),
        m.contains_key(key),
    ensures
        entries_bytes(m) == entry_bytes(key, m[key]) + entries_bytes(m.remove(key)),
    decreases m.dom().len(),
{
    reveal(entries_bytes);
    let first = m.dom().choose();
    assert(m.dom().len() > 0) by {
        if m.dom().len() == 0 {
            assert(m.dom() =~= Set::empty());
        }
    }
    if first != key {
        lemma_entries_bytes(m.remove(first), key);
        lemma_entries_bytes(m.remove(key), first);
        assert(m.remove(first).remove(key) =~= m.remove(key).remove(first));
    }
}

/// The contents of an empty object.
pub open spec fn no_entries() -> Map<Seq<char>, Json> {
    Map::empty()
}

/// The trees of a list of values.
pub open spec fn trees(v: Seq<serde_json::Value>) -> Seq<Json> {
    Seq::new(v.len(), |i: int| tree(v[i]))
}

/// `serde_json::Value::String` holds the text it is given.
#[verifier::external_body]
pub(crate) fn text_value(s: &str) -> (r: serde_json::Value)
    ensures
        tree(r) == Json::Text(s@),
{
    serde_json::Value::String(s.to_owned())
}

/// `serde_json::Value::from(i64)` is that number.
#[verifier::external_body]
pub(crate) fn number_value(n: i64) -> (r: serde_json::Value)
    ensures
        tree(r) == Json::Number(n as int),
{
    serde_json::Value::from(n)
}

/// `serde_json::Value::Array` holds the values it is given, in order.
#[verifier::external_body]
pub(crate) fn list_value(items: Vec<serde_json::Value>) -> (r: serde_json::Value)
    ensures
        tree(r) == Json::List(trees(items@)),
{
    serde_json::Value::Array(items)
}

/// `serde_json::Value::Object` holds the object it is given.
#[verifier::external_body]
pub(crate) fn object_value(m: serde_json::Map<String, serde_json::Value>) -> (r: serde_json::Value)
    ensures
        tree(r) == Json::Object(contents(m)),
{
    serde_json::Value::Object(m)
}

/// `serde_json::Map::new` is empty.
#[verifier::external_body]
pub(crate) fn new_object() -> (r: serde_json::Map<String, serde_json::Value>)
    ensures
        contents(r) == no_entries(),
{
    serde_json::Map::new()
}

/// `serde_json::Map::clone` holds what the original holds.
#[verifier::external_body]
pub(crate) fn copy_object(m: &serde_json::Map<String, serde_json::Value>) -> (r: serde_json::Map<
    String,
    serde_json::Value,
>)
    ensures
        contents(r) == contents(*m),
{
    m.clone()
}

/// `serde_json::Map::insert` puts a value under a key, in place of any that was
/// there.
#[verifier::external_body]
pub(crate) fn insert(
    m: &mut serde_json::Map<String, serde_json::Value>,
    key: &str,
    value: serde_json::Value,
)
    ensures
        contents(*final(m)) == contents(*old(m)).insert(key@, tree(value)),
{
    m.insert(key.to_owned(), value);
}

/// `serde_json::to_string` gives every value a text that depends on the tree
/// alone: an object keeps its keys in order, whichever order they came in. A
/// text that needs no escape stands between quotes as it is; how others are
/// escaped is left to the name `rendered`. A list and an object take the bytes of
/// their parts, the commas and colons between them, and two brackets: no space is
/// added. The parts of an object are rendered as they would be alone.
#[verifier::external_body]
pub(crate) fn render(v: &serde_json::Value) -> (r: Option<String>)
    ensures
        match r {
            Some(s) => s@ == rendered(tree(*v)),
            None => false,
        },
        match (r, tree(*v)) {
            (Some(s), Json::Text(text)) => plain(text) ==> s@ == quoted(text),
            _ => true,
        },
        r is Some ==> list_sized(tree(*v)) && object_sized(tree(*v)),
{
    serde_json::to_string(v).ok()
}

/// The text of a value.
pub fn value_text(v: &serde_json::Value) -> (r: String)
    ensures
        r@ == rendered(tree(*v)),
        tree(*v) matches Json::Text(text) ==> plain(text) ==> r@ == quoted(text),
        list_sized(tree(*v)),
        object_sized(tree(*v)),
{
    match render(v) {
        Some(text) => text,
        None => crate::text::copy("{}"),
    }
}

} // verus!
