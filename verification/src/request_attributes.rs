//! Extra attributes for the request's root span, gathered while the request
//! runs: bounded keys and values, last write wins, and new keys dropped once
//! the bag is full.

use crate::text::{byte_len, cap, fitting, pairs, same, trim, trimmed};
use crate::zend_helpers::has_pair;
use vstd::prelude::*;

verus! {

pub const MAX_ATTRIBUTES: usize = 32;

pub const MAX_KEY_BYTES: usize = 128;

pub const MAX_VALUE_BYTES: usize = 8192;

/// The attributes gathered so far, in the order their keys first came.
pub struct Bag {
    entries: Vec<(String, String)>,
}

impl View for Bag {
    type V = Seq<(Seq<char>, Seq<char>)>;

    closed spec fn view(&self) -> Seq<(Seq<char>, Seq<char>)> {
        pairs(self.entries@)
    }
}

/// What every bag keeps: few entries, distinct keys, nothing empty, nothing
/// over its bound.
pub open spec fn bounded(bag: Seq<(Seq<char>, Seq<char>)>) -> bool {
    &&& bag.len() <= MAX_ATTRIBUTES
    &&& forall|i: int|
        0 <= i < bag.len() ==> {
            let e = #[trigger] bag[i];
            &&& 0 < e.0.len()
            &&& byte_len(e.0) <= MAX_KEY_BYTES
            &&& 0 < e.1.len()
            &&& byte_len(e.1) <= MAX_VALUE_BYTES
        }
    &&& forall|i: int, j: int|
        0 <= i < j < bag.len() ==> (#[trigger] bag[i]).0 != (#[trigger] bag[j]).0
}

/// A key as it is kept.
pub open spec fn kept_key(key: Seq<char>) -> Seq<char> {
    fitting(trimmed(key), MAX_KEY_BYTES as nat)
}

/// A value as it is kept.
pub open spec fn kept_value(value: Seq<char>) -> Seq<char> {
    fitting(trimmed(value), MAX_VALUE_BYTES as nat)
}

/// Put a value under a key: over the one that is there, or at the end when
/// there is room for a new key.
pub open spec fn put(
    bag: Seq<(Seq<char>, Seq<char>)>,
    key: Seq<char>,
    value: Seq<char>,
    max: nat,
) -> Seq<(Seq<char>, Seq<char>)> {
    if has_pair(bag, key) {
        bag.map_values(
            |e: (Seq<char>, Seq<char>)|
                if e.0 == key {
                    (key, value)
                } else {
                    e
                },
        )
    } else if bag.len() < max {
        bag.push((key, value))
    } else {
        bag
    }
}

/// The bag after one attribute.
pub open spec fn merged_one(
    bag: Seq<(Seq<char>, Seq<char>)>,
    attribute: (Seq<char>, Seq<char>),
) -> Seq<(Seq<char>, Seq<char>)> {
    let key = kept_key(attribute.0);
    let value = kept_value(attribute.1);
    if key.len() == 0 || value.len() == 0 {
        bag
    } else {
        put(bag, key, value, MAX_ATTRIBUTES as nat)
    }
}

/// The bag after a list of attributes, taken in order.
pub open spec fn merged(
    bag: Seq<(Seq<char>, Seq<char>)>,
    attributes: Seq<(Seq<char>, Seq<char>)>,
) -> Seq<(Seq<char>, Seq<char>)>
    decreases attributes.len(),
{
    if attributes.len() == 0 {
        bag
    } else {
        merged_one(merged(bag, attributes.drop_last()), attributes.last())
    }
}

proof fn lemma_put_bounded(bag: Seq<(Seq<char>, Seq<char>)>, key: Seq<char>, value: Seq<char>)
    requires
        bounded(bag),
        0 < key.len(),
        byte_len(key) <= MAX_KEY_BYTES,
        0 < value.len(),
        byte_len(value) <= MAX_VALUE_BYTES,
    ensures
        bounded(put(bag, key, value, MAX_ATTRIBUTES as nat)),
{
    let after = put(bag, key, value, MAX_ATTRIBUTES as nat);
    if has_pair(bag, key) {
        assert forall|i: int, j: int| 0 <= i < j < after.len() implies (#[trigger] after[i]).0 != (
        #[trigger] after[j]).0 by {
            assert(after[i].0 == bag[i].0);
            assert(after[j].0 == bag[j].0);
        }
    } else {
        assert forall|i: int, j: int| 0 <= i < j < after.len() implies (#[trigger] after[i]).0 != (
        #[trigger] after[j]).0 by {
            if j == bag.len() {
                assert(after[i] == bag[i]);
                assert(bag[i].0 != key);
            }
        }
    }
}

/// Merging keeps a bag within its bounds, whatever comes in.
pub proof fn law_merge_keeps_bounds(
    bag: Seq<(Seq<char>, Seq<char>)>,
    attributes: Seq<(Seq<char>, Seq<char>)>,
)
    requires
        bounded(bag),
    ensures
        bounded(merged(bag, attributes)),
    decreases attributes.len(),
{
    if attributes.len() > 0 {
        let rest = attributes.drop_last();
        law_merge_keeps_bounds(bag, rest);
        let a = attributes.last();
        let key = kept_key(a.0);
        let value = kept_value(a.1);
        crate::text::law_fitting_is_longest(trimmed(a.0), MAX_KEY_BYTES as nat);
        crate::text::law_fitting_is_longest(trimmed(a.1), MAX_VALUE_BYTES as nat);
        if key.len() > 0 && value.len() > 0 {
            lemma_put_bounded(merged(bag, rest), key, value);
        }
    }
}

/// The last write under a key wins: whatever came before it, an attribute that
/// is not empty and whose key is there, or finds room, is what the bag holds.
pub proof fn law_last_write_wins(
    bag: Seq<(Seq<char>, Seq<char>)>,
    attributes: Seq<(Seq<char>, Seq<char>)>,
    key: Seq<char>,
    value: Seq<char>,
)
    requires
        kept_key(key).len() > 0,
        kept_value(value).len() > 0,
        has_pair(merged(bag, attributes), kept_key(key)) || merged(bag, attributes).len()
            < MAX_ATTRIBUTES,
    ensures
        merged(bag, attributes.push((key, value))).contains((kept_key(key), kept_value(value))),
{
    let before = merged(bag, attributes);
    let all = attributes.push((key, value));
    assert(all.drop_last() =~= attributes);
    let after = merged(bag, all);
    let k = kept_key(key);
    if has_pair(before, k) {
        let i = choose|i: int| 0 <= i < before.len() && #[trigger] before[i].0 == k;
        assert(after[i] == (k, kept_value(value)));
    } else {
        assert(after[before.len() as int] == (k, kept_value(value)));
    }
}

impl Bag {
    pub closed spec fn wf(&self) -> bool {
        bounded(self@)
    }

    pub fn new() -> (r: Bag)
        ensures
            r@ == Seq::<(Seq<char>, Seq<char>)>::empty(),
            r.wf(),
    {
        let r = Bag { entries: Vec::new() };
        assert(pairs(r.entries@) =~= Seq::empty());
        r
    }
}

/// Empty the bag.
pub fn reset(bag: &mut Bag)
    ensures
        final(bag)@ == Seq::<(Seq<char>, Seq<char>)>::empty(),
        final(bag).wf(),
{
    bag.entries.clear();
    assert(pairs(bag.entries@) =~= Seq::empty());
}

/// Put `value` under `key`: over the one that is there, or at the end while
/// there are fewer than `max` entries.
pub fn put_entry(entries: &mut Vec<(String, String)>, key: String, value: String, max: usize)
    requires
        forall|i: int, j: int|
            0 <= i < j < old(entries)@.len() ==> (#[trigger] old(entries)@[i]).0@ != (
            #[trigger] old(entries)@[j]).0@,
    ensures
        pairs(final(entries)@) == put(pairs(old(entries)@), key@, value@, max as nat),
{
    let ghost before = pairs(entries@);
    let mut i: usize = 0;
    while i < entries.len()
        invariant
            i <= entries@.len(),
            before == pairs(entries@),
            before == pairs(old(entries)@),
            forall|a: int, b: int|
                0 <= a < b < entries@.len() ==> (#[trigger] entries@[a]).0@ != (
                #[trigger] entries@[b]).0@,
            forall|j: int| 0 <= j < i ==> (#[trigger] entries@[j]).0@ != key@,
        decreases entries@.len() - i,
    {
        if same(entries[i].0.as_str(), key.as_str()) {
            let ghost was = entries@;
            assert(before[i as int].0 == key@);
            proof {
                let after = put(before, key@, value@, max as nat);
                assert(after =~= before.update(i as int, (key@, value@))) by {
                    assert forall|j: int| 0 <= j < before.len() && j != i implies before[j].0
                        != key@ by {
                        if j < i {
                            assert(was[j].0@ != was[i as int].0@);
                        } else {
                            assert(was[i as int].0@ != was[j].0@);
                        }
                    }
                }
            }
            entries.set(i, (key, value));
            assert(pairs(entries@) =~= before.update(
                i as int,
                (entries@[i as int].0@, entries@[i as int].1@),
            ));
            return ;
        }
        i = i + 1;
    }
    assert(!has_pair(before, key@)) by {
        if has_pair(before, key@) {
            let j = choose|j: int| 0 <= j < before.len() && #[trigger] before[j].0 == key@;
            assert(entries@[j].0@ != key@);
        }
    }
    if entries.len() < max {
        let ghost e = (key@, value@);
        entries.push((key, value));
        assert(pairs(entries@) =~= before.push(e));
    }
}

/// Take attributes in, in order.
pub fn merge(bag: &mut Bag, attributes: Vec<(String, String)>)
    requires
        old(bag).wf(),
    ensures
        final(bag)@ == merged(old(bag)@, pairs(attributes@)),
        final(bag).wf(),
{
    let ghost start = bag@;
    let ghost all = pairs(attributes@);
    let mut i: usize = 0;
    assert(all.take(0) =~= Seq::empty());
    while i < attributes.len()
        invariant
            i <= attributes@.len(),
            all == pairs(attributes@),
            bag@ == merged(start, all.take(i as int)),
            bounded(start),
        decreases attributes@.len() - i,
    {
        proof {
            assert(all.take(i + 1).drop_last() =~= all.take(i as int));
            assert(all.take(i + 1).last() == all[i as int]);
            law_merge_keeps_bounds(start, all.take(i as int));
        }
        let k = trim(attributes[i].0.as_str());
        let key = cap(k.as_str(), MAX_KEY_BYTES);
        let v = trim(attributes[i].1.as_str());
        let value = cap(v.as_str(), MAX_VALUE_BYTES);
        if !key.as_str().is_empty() && !value.as_str().is_empty() {
            assert forall|a: int, b: int| 0 <= a < b < bag.entries@.len() implies (
            #[trigger] bag.entries@[a]).0@ != (#[trigger] bag.entries@[b]).0@ by {
                assert(bag@[a].0 != bag@[b].0);
            }
            put_entry(&mut bag.entries, key, value, MAX_ATTRIBUTES);
        }
        i = i + 1;
    }
    assert(all.take(all.len() as int) =~= all);
    proof {
        law_merge_keeps_bounds(start, all);
    }
}

/// Hand the attributes over and leave the bag empty.
pub fn take(bag: &mut Bag) -> (r: Vec<(String, String)>)
    ensures
        pairs(r@) == old(bag)@,
        final(bag)@ == Seq::<(Seq<char>, Seq<char>)>::empty(),
        final(bag).wf(),
{
    let mut out: Vec<(String, String)> = Vec::new();
    out.append(&mut bag.entries);
    assert(out@ =~= old(bag).entries@);
    assert(pairs(bag.entries@) =~= Seq::empty());
    out
}

/// One attribute that is merged is in the bag under its trimmed key, cut to 128
/// bytes, with its trimmed value, cut to 8192, while the key is there or there are
/// fewer than 32; every other entry stays. A blank key or value changes nothing.
pub proof fn law_a_merged_attribute_is_there(
    bag: &mut Bag,
    attributes: Vec<(String, String)>,
    key: String,
    key_text: &str,
    kept: String,
    value: String,
    value_text: &str,
    shown: String,
    raw_key: &str,
    raw_value: &str,
)
    requires
        old(bag).wf(),
        call_ensures(merge, (bag, attributes), ()),
        attributes@.len() == 1,
        raw_key@ == attributes@[0].0@,
        raw_value@ == attributes@[0].1@,
        call_ensures(trim, (raw_key,), key),
        key_text@ == key@,
        call_ensures(cap, (key_text, 128usize), kept),
        call_ensures(trim, (raw_value,), value),
        value_text@ == value@,
        call_ensures(cap, (value_text, 8192usize), shown),
    ensures
        kept@.len() == 0 || shown@.len() == 0 ==> final(bag)@ == old(bag)@,
        kept@.len() > 0 && shown@.len() > 0 ==> {
            let known = exists|i: int|
                0 <= i < old(bag)@.len() && (#[trigger] old(bag)@[i]).0 == kept@;
            &&& known ==> final(bag)@.len() == old(bag)@.len()
            &&& !known && old(bag)@.len() < 32 ==> final(bag)@.len() == old(bag)@.len() + 1
            &&& !known && old(bag)@.len() >= 32 ==> final(bag)@ == old(bag)@
            &&& known || old(bag)@.len() < 32 ==> final(bag)@.contains((kept@, shown@))
            &&& forall|i: int|
                0 <= i < old(bag)@.len() && (#[trigger] old(bag)@[i]).0 != kept@ ==> final(bag)@[i]
                    == old(bag)@[i]
        },
{
    let before = old(bag)@;
    let after = final(bag)@;
    let all = pairs(attributes@);
    assert(all.len() == 1);
    assert(all.drop_last() =~= Seq::empty());
    assert(all.last() == (raw_key@, raw_value@));
    assert(merged(before, all.drop_last()) == before);
    if kept@.len() > 0 && shown@.len() > 0 {
        if has_pair(before, kept@) {
            let i = choose|i: int| 0 <= i < before.len() && #[trigger] before[i].0 == kept@;
            assert(after[i] == (kept@, shown@));
            assert(before[i].0 == kept@);
        } else if before.len() < 32 {
            assert(after[before.len() as int] == (kept@, shown@));
        }
    }
}

/// A list is merged attribute by attribute, in its order.
pub proof fn law_attributes_are_merged_in_order(
    bag: &mut Bag,
    first: Vec<(String, String)>,
    next_bag: &mut Bag,
    second: Vec<(String, String)>,
    whole: &mut Bag,
    all: Vec<(String, String)>,
)
    requires
        old(bag).wf(),
        call_ensures(merge, (bag, first), ()),
        *old(next_bag) == *final(bag),
        call_ensures(merge, (next_bag, second), ()),
        old(whole)@ == old(bag)@,
        pairs(all@) == pairs(first@) + pairs(second@),
        call_ensures(merge, (whole, all), ()),
    ensures
        final(whole)@ == final(next_bag)@,
{
    lemma_merged_concat(old(bag)@, pairs(first@), pairs(second@));
}

proof fn lemma_merged_concat(
    bag: Seq<(Seq<char>, Seq<char>)>,
    a: Seq<(Seq<char>, Seq<char>)>,
    b: Seq<(Seq<char>, Seq<char>)>,
)
    ensures
        merged(bag, a + b) == merged(merged(bag, a), b),
    decreases b.len(),
{
    if b.len() == 0 {
        assert(a + b =~= a);
    } else {
        lemma_merged_concat(bag, a, b.drop_last());
        assert((a + b).drop_last() =~= a + b.drop_last());
        assert((a + b).last() == b.last());
    }
}

/// The attributes are handed over whole and once; a reset bag, like a new one, is
/// empty.
pub proof fn law_the_bag_is_handed_over_once(
    bag: &mut Bag,
    taken: Vec<(String, String)>,
    other: &mut Bag,
    fresh: Bag,
)
    requires
        call_ensures(take, (bag,), taken),
        call_ensures(reset, (other,), ()),
        call_ensures(Bag::new, (), fresh),
    ensures
        pairs(taken@) == old(bag)@,
        final(bag)@.len() == 0,
        final(other)@.len() == 0,
        fresh@.len() == 0,
{
}

} // verus!
