//! Substituting the results of clocks, random sources and the environment while
//! a recording is replayed.

use crate::text::{bytes_of, copy, opt_text, opt_view, parse_signed, parsed_signed, same};
use crate::zend_helpers::{
    arg_scalar_string, capped, entry_at, info_text, scalar_text, strict_string, strict_text,
    table_field, target, Call, Zval,
};
use vstd::prelude::*;
use vstd::utf8::encode_utf8;

verus! {

/// How many builtins are hooked.
pub const SLOTS: usize = 9;

/// The hooked builtins, by slot.
pub open spec fn slot_name(i: int) -> Seq<char> {
    if i == 0 {
        "time"@
    } else if i == 1 {
        "microtime"@
    } else if i == 2 {
        "hrtime"@
    } else if i == 3 {
        "mt_rand"@
    } else if i == 4 {
        "rand"@
    } else if i == 5 {
        "random_int"@
    } else if i == 6 {
        "random_bytes"@
    } else if i == 7 {
        "uniqid"@
    } else {
        "getenv"@
    }
}

/// The name of a hooked builtin.
pub fn slot_symbol(i: usize) -> (r: &'static str)
    requires
        i < SLOTS,
    ensures
        r@ == slot_name(i as int),
{
    if i == 0 {
        "time"
    } else if i == 1 {
        "microtime"
    } else if i == 2 {
        "hrtime"
    } else if i == 3 {
        "mt_rand"
    } else if i == 4 {
        "rand"
    } else if i == 5 {
        "random_int"
    } else if i == 6 {
        "random_bytes"
    } else if i == 7 {
        "uniqid"
    } else {
        "getenv"
    }
}

/// Whether the hooks are in place, and the handlers they replaced.
pub struct Hooks {
    pub armed: bool,
    pub originals: Vec<Option<u64>>,
}

impl Hooks {
    pub open spec fn wf(&self) -> bool {
        self.originals@.len() == SLOTS
    }

    pub fn new() -> (r: Hooks)
        ensures
            r.wf(),
            !r.armed,
            forall|i: int| 0 <= i < SLOTS ==> (#[trigger] r.originals@[i]) is None,
    {
        let mut originals: Vec<Option<u64>> = Vec::new();
        let mut i: usize = 0;
        while i < SLOTS
            invariant
                i <= SLOTS,
                originals@.len() == i,
                forall|k: int| 0 <= k < i ==> (#[trigger] originals@[k]) is None,
            decreases SLOTS - i,
        {
            originals.push(None);
            i = i + 1;
        }
        Hooks { armed: false, originals }
    }
}

/// The hooks once they are in place: the handlers that were found are kept, and
/// those of an earlier arming stay where there is nothing to hook.
pub open spec fn arming(before: Hooks, after: Hooks, found: Seq<Option<Option<u64>>>) -> bool {
    &&& after.wf()
    &&& after.armed
    &&& forall|i: int|
        0 <= i < SLOTS ==> (#[trigger] after.originals@[i]) == if hooks_slot(before, found, i) {
            found[i]->0
        } else {
            before.originals@[i]
        }
}

/// Whether arming hooks a slot: its builtin is there, and the hooks are not in
/// place already.
pub open spec fn hooks_slot(before: Hooks, found: Seq<Option<Option<u64>>>, i: int) -> bool {
    !before.armed && found[i] is Some
}

/// The hooks once they are taken away.
pub open spec fn disarming(before: Hooks, after: Hooks) -> bool {
    !after.armed && after.originals == before.originals
}

/// Put the hooks in place. `found` holds, for each slot, the handler of the
/// builtin it names: `None` where the engine has no such internal function, and
/// `Some(None)` where it has one without a handler. The answer is which slots to
/// hook; arming twice hooks nothing.
pub fn arm(hooks: &mut Hooks, found: &Vec<Option<Option<u64>>>) -> (r: Vec<bool>)
    requires
        old(hooks).wf(),
        found@.len() == SLOTS,
    ensures
        arming(*old(hooks), *final(hooks), found@),
        r@.len() == SLOTS,
        forall|i: int|
            0 <= i < SLOTS ==> (#[trigger] r@[i]) == hooks_slot(*old(hooks), found@, i),
{
    let fresh = !hooks.armed;
    hooks.armed = true;
    let ghost before = hooks.originals@;
    let mut out: Vec<bool> = Vec::new();
    let mut i: usize = 0;
    while i < SLOTS
        invariant
            i <= SLOTS,
            found@.len() == SLOTS,
            before.len() == SLOTS,
            hooks.originals@.len() == SLOTS,
            hooks.armed,
            out@.len() == i,
            forall|k: int| 0 <= k < i ==> (#[trigger] out@[k]) == (fresh && found@[k] is Some),
            forall|k: int|
                0 <= k < i ==> (#[trigger] hooks.originals@[k]) == if fresh && found@[k] is Some {
                    found@[k]->0
                } else {
                    before[k]
                },
            forall|k: int| i <= k < SLOTS ==> (#[trigger] hooks.originals@[k]) == before[k],
        decreases SLOTS - i,
    {
        let mut hook = false;
        if fresh {
            if let Some(handler) = found[i] {
                hooks.originals.set(i, handler);
                hook = true;
            }
        }
        out.push(hook);
        i = i + 1;
    }
    out
}

/// Take the hooks away. The answer is whether there were any: each builtin then
/// gets its own handler back.
pub fn disarm(hooks: &mut Hooks) -> (r: bool)
    ensures
        r == old(hooks).armed,
        disarming(*old(hooks), *final(hooks)),
{
    let was = hooks.armed;
    hooks.armed = false;
    was
}

/// Whether the hooks are in place.
pub fn is_armed(hooks: &Hooks) -> (r: bool)
    ensures
        r == hooks.armed,
{
    hooks.armed
}

/// The slot of a hooked builtin, looked for from slot `i` on.
pub open spec fn slot_from(name: Seq<char>, i: int) -> Option<int>
    decreases SLOTS - i,
{
    if i >= SLOTS {
        None
    } else if slot_name(i) == name {
        Some(i)
    } else {
        slot_from(name, i + 1)
    }
}

/// The handler kept for a builtin.
pub open spec fn original_of(hooks: Hooks, name: Seq<char>) -> Option<u64> {
    match slot_from(name, 0) {
        Some(i) => hooks.originals@[i],
        None => None,
    }
}

/// The handler that a hooked builtin had.
pub fn original_for(hooks: &Hooks, name: &str) -> (r: Option<u64>)
    requires
        hooks.wf(),
    ensures
        r == original_of(*hooks, name@),
{
    let mut i: usize = 0;
    while i < SLOTS
        invariant
            i <= SLOTS,
            hooks.wf(),
            slot_from(name@, i as int) == slot_from(name@, 0),
        decreases SLOTS - i,
    {
        if same(slot_symbol(i), name) {
            return hooks.originals[i];
        }
        i = i + 1;
    }
    None
}

proof fn lemma_slots_are_distinct(i: int)
    requires
        0 <= i < SLOTS,
    ensures
        slot_from(slot_name(i), 0) == Some(i),
{
    reveal_strlit("time");
    reveal_strlit("microtime");
    reveal_strlit("hrtime");
    reveal_strlit("mt_rand");
    reveal_strlit("rand");
    reveal_strlit("random_int");
    reveal_strlit("random_bytes");
    reveal_strlit("uniqid");
    reveal_strlit("getenv");
    assert("time"@.len() == 4 && "time"@[0] == 't');
    assert("microtime"@.len() == 9);
    assert("hrtime"@.len() == 6 && "hrtime"@[0] == 'h');
    assert("mt_rand"@.len() == 7);
    assert("rand"@.len() == 4 && "rand"@[0] == 'r');
    assert("random_int"@.len() == 10);
    assert("random_bytes"@.len() == 12);
    assert("uniqid"@.len() == 6 && "uniqid"@[0] == 'u');
    assert("getenv"@.len() == 6 && "getenv"@[0] == 'g');
    reveal_with_fuel(slot_from, 10);
}

/// While a builtin is hooked, and again once the hooks are taken away, the
/// handler kept for it is the one it had before; arming again in between does
/// not lose it.
pub proof fn law_every_hooked_builtin_keeps_its_handler(
    before: Hooks,
    once: Hooks,
    again: Hooks,
    after: Hooks,
    found: Seq<Option<Option<u64>>>,
    later: Seq<Option<Option<u64>>>,
    i: int,
)
    requires
        0 <= i < SLOTS,
        hooks_slot(before, found, i),
        arming(before, once, found),
        arming(once, again, later),
        disarming(again, after),
    ensures
        original_of(once, slot_name(i)) == found[i]->0,
        original_of(again, slot_name(i)) == found[i]->0,
        original_of(after, slot_name(i)) == found[i]->0,
{
    lemma_slots_are_distinct(i);
}

/// The channel that answers for a builtin.
pub open spec fn channel(name: Seq<char>) -> Option<Seq<char>> {
    if name == "time"@ || name == "microtime"@ || name == "hrtime"@ || name == "date"@ || name
        == "gettimeofday"@ {
        Some("time"@)
    } else if name == "mt_rand"@ || name == "rand"@ || name == "random_int"@ || name
        == "random_bytes"@ || name == "uniqid"@ {
        Some("random"@)
    } else if name == "getenv"@ {
        Some("env"@)
    } else {
        None
    }
}

/// The channel that answers for a builtin.
pub fn kind_for_symbol(name: &str) -> (r: Option<&'static str>)
    ensures
        opt_view(r) == channel(name@),
{
    if same(name, "time") || same(name, "microtime") || same(name, "hrtime") || same(name, "date")
        || same(name, "gettimeofday") {
        Some("time")
    } else if same(name, "mt_rand") || same(name, "rand") || same(name, "random_int") || same(
        name,
        "random_bytes",
    ) || same(name, "uniqid") {
        Some("random")
    } else if same(name, "getenv") {
        Some("env")
    } else {
        None
    }
}

/// Every hooked builtin has a channel that answers for it.
pub proof fn law_every_hook_has_a_channel(i: int)
    requires
        0 <= i < SLOTS,
    ensures
        channel(slot_name(i)) is Some,
{
}

/// The text in a delegate's answer: under `result`, else under `value`, else the
/// answer itself when it is a string.
pub open spec fn answer_text(v: Zval) -> Option<Seq<char>> {
    match target(v) {
        Zval::Array(t) => {
            let result = match entry_at(t@, "result"@) {
                Some(e) => info_text(e),
                None => None,
            };
            match result {
                Some(s) => Some(s),
                None => match entry_at(t@, "value"@) {
                    Some(e) => info_text(e),
                    None => None,
                },
            }
        },
        _ => strict_text(v),
    }
}

/// The text in a delegate's answer.
pub fn extract_result_string(v: &Zval) -> (r: Option<String>)
    ensures
        opt_text(r) == answer_text(*v),
{
    if let Some(text) = table_field(v, "result") {
        return Some(text);
    }
    if let Some(text) = table_field(v, "value") {
        return Some(text);
    }
    strict_string(v)
}

/// Builtins that return an integer.
pub open spec fn returns_integer(function: Seq<char>) -> bool {
    function == "time"@ || function == "mt_rand"@ || function == "rand"@ || function
        == "random_int"@
}

/// Builtins that return a double.
pub open spec fn returns_double(function: Seq<char>) -> bool {
    function == "microtime"@ || function == "hrtime"@
}

/// Whether a value is what a builtin returns for an answer: of its own type
/// where the answer reads as that, the text itself where it does not.
pub open spec fn substituted(
    v: Zval,
    function: Seq<char>,
    raw: Seq<char>,
    double: Option<Seq<char>>,
) -> bool {
    if returns_integer(function) && parsed_signed(raw) is Some {
        v matches Zval::Long(n) && n == parsed_signed(raw)->0
    } else if returns_double(function) && double is Some {
        v matches Zval::Double(text) && text@ == double->0
    } else {
        v matches Zval::Str(bytes) && bytes@ == encode_utf8(raw)
    }
}

/// What a hooked builtin returns for an answer. `double` is the answer read as a
/// double, where it can be.
pub fn write_scalar_return(function: &str, raw: &str, double: &Option<String>) -> (r: Zval)
    ensures
        substituted(r, function@, raw@, opt_text(*double)),
{
    if same(function, "time") || same(function, "mt_rand") || same(function, "rand") || same(
        function,
        "random_int",
    ) {
        if let Some(n) = parse_signed(raw) {
            return Zval::Long(n);
        }
    } else if same(function, "microtime") || same(function, "hrtime") {
        if let Some(text) = double {
            return Zval::Double(text.clone());
        }
    }
    proof {
        reveal_strlit("time");
        reveal_strlit("mt_rand");
        reveal_strlit("rand");
        reveal_strlit("random_int");
        reveal_strlit("microtime");
        reveal_strlit("hrtime");
        assert("time"@.len() == 4);
        assert("mt_rand"@.len() == 7);
        assert("rand"@.len() == 4);
        assert("random_int"@.len() == 10);
        assert("microtime"@.len() == 9);
        assert("hrtime"@.len() == 6);
    }
    Zval::Str(bytes_of(raw))
}

/// What a delegate is asked about: the variable for an environment read, the
/// builtin itself for anything else.
pub open spec fn selector_of(symbol: Seq<char>, call: Call) -> Seq<char> {
    if symbol == "getenv"@ {
        match capped(scalar_text(call.arg(0)), 4096) {
            Some(name) => name,
            None => Seq::empty(),
        }
    } else {
        symbol
    }
}

/// What a delegate is asked about.
pub fn hook_selector(symbol: &str, call: &Call) -> (r: String)
    ensures
        r@ == selector_of(symbol@, *call),
{
    if same(symbol, "getenv") {
        match arg_scalar_string(call, 0, 4096) {
            Some(name) => name,
            None => String::new(),
        }
    } else {
        copy(symbol)
    }
}

/// The text that a delegate answered with, when it was there and did.
pub open spec fn delegated(answer: Option<Zval>) -> Option<Seq<char>> {
    match answer {
        Some(v) => answer_text(v),
        None => None,
    }
}

/// What a hooked builtin returns: the delegate's answer, or nothing, and its own
/// handler is called. `double` is the answer read as a double, where it can be.
pub fn hook_return(symbol: &str, answer: &Option<Zval>, double: &Option<String>) -> (r: Option<
    Zval,
>)
    ensures
        r is Some <==> delegated(*answer) is Some,
        r matches Some(v) ==> substituted(
            v,
            symbol@,
            delegated(*answer)->0,
            opt_text(*double),
        ),
{
    match answer {
        Some(v) => match extract_result_string(v) {
            Some(raw) => Some(write_scalar_return(symbol, raw.as_str(), double)),
            None => None,
        },
        None => None,
    }
}

/// The hooked builtins, by slot.
pub proof fn law_the_hooked_builtins(i: usize, r: &'static str)
    requires
        i < 9,
        call_ensures(slot_symbol, (i,), r),
    ensures
        i == 0 ==> r@ == "time"@,
        i == 1 ==> r@ == "microtime"@,
        i == 2 ==> r@ == "hrtime"@,
        i == 3 ==> r@ == "mt_rand"@,
        i == 4 ==> r@ == "rand"@,
        i == 5 ==> r@ == "random_int"@,
        i == 6 ==> r@ == "random_bytes"@,
        i == 7 ==> r@ == "uniqid"@,
        i == 8 ==> r@ == "getenv"@,
{
}

/// Arming hooks each builtin that is there, and arming again hooks none; while it
/// lasts, and after disarming, the handler kept for a builtin is the one that was
/// found for it.
pub proof fn law_hooking_keeps_the_handlers(
    hooks: &mut Hooks,
    found: &Vec<Option<Option<u64>>>,
    hooked: Vec<bool>,
    armed: &Hooks,
    again: &mut Hooks,
    later: &Vec<Option<Option<u64>>>,
    hooked_again: Vec<bool>,
    i: usize,
    name: &'static str,
    kept: Option<u64>,
    is_on: bool,
)
    requires
        old(hooks).wf(),
        !old(hooks).armed,
        found@.len() == 9 && later@.len() == 9,
        call_ensures(arm, (hooks, found), hooked),
        *armed == *final(hooks),
        *old(again) == *final(hooks),
        call_ensures(arm, (again, later), hooked_again),
        i < 9,
        call_ensures(slot_symbol, (i,), name),
        call_ensures(original_for, (armed, name), kept),
        call_ensures(is_armed, (armed,), is_on),
    ensures
        is_on,
        hooked@.len() == 9 && hooked_again@.len() == 9,
        hooked@[i as int] <==> found@[i as int] is Some,
        found@[i as int] matches Some(handler) ==> kept == handler,
        !hooked_again@[i as int],
        final(again).originals@[i as int] == final(hooks).originals@[i as int],
{
    lemma_slots_are_distinct(i as int);
    assert(hooked@[i as int] == hooks_slot(*old(hooks), found@, i as int));
    assert(hooked_again@[i as int] == hooks_slot(*old(again), later@, i as int));
}

/// Disarming says whether the hooks were in place, and forgets no handler.
pub proof fn law_disarming_forgets_no_handler(hooks: &mut Hooks, was: bool, after: &Hooks, is_on: bool)
    requires
        call_ensures(disarm, (hooks,), was),
        *after == *final(hooks),
        call_ensures(is_armed, (after,), is_on),
    ensures
        was == old(hooks).armed,
        !is_on,
        final(hooks).originals@ == old(hooks).originals@,
{
}

/// The channel that answers for a builtin: clocks ask for time, random sources for
/// chance, the environment for itself; nothing else is asked for.
pub proof fn law_channels(name: &str, r: Option<&'static str>)
    requires
        call_ensures(kind_for_symbol, (name,), r),
    ensures
        (name@ == "time"@ || name@ == "microtime"@ || name@ == "hrtime"@ || name@ == "date"@ || name@
            == "gettimeofday"@) ==> r is Some && r->0@ == "time"@,
        (name@ == "mt_rand"@ || name@ == "rand"@ || name@ == "random_int"@ || name@
            == "random_bytes"@ || name@ == "uniqid"@) ==> r is Some && r->0@ == "random"@,
        name@ == "getenv"@ ==> r is Some && r->0@ == "env"@,
        r is Some ==> (name@ == "time"@ || name@ == "microtime"@ || name@ == "hrtime"@ || name@
            == "date"@ || name@ == "gettimeofday"@ || name@ == "mt_rand"@ || name@ == "rand"@
            || name@ == "random_int"@ || name@ == "random_bytes"@ || name@ == "uniqid"@ || name@
            == "getenv"@),
{
    reveal_strlit("time");
    reveal_strlit("microtime");
    reveal_strlit("hrtime");
    reveal_strlit("mt_rand");
    reveal_strlit("rand");
    reveal_strlit("random_int");
    reveal_strlit("random_bytes");
    reveal_strlit("uniqid");
    reveal_strlit("getenv");
    reveal_strlit("date");
    reveal_strlit("gettimeofday");
    assert("time"@.len() == 4);
    assert("microtime"@.len() == 9);
    assert("hrtime"@.len() == 6);
    assert("mt_rand"@.len() == 7);
    assert("rand"@.len() == 4);
    assert("random_int"@.len() == 10);
    assert("random_bytes"@.len() == 12);
    assert("uniqid"@.len() == 6);
    assert("getenv"@.len() == 6);
    assert("date"@.len() == 4);
    assert("gettimeofday"@.len() == 12);
    assert("time"@[0] != "rand"@[0]);
    assert("time"@[0] != "date"@[0]);
    assert("hrtime"@[0] != "uniqid"@[0]);
    assert("hrtime"@[0] != "getenv"@[0]);
    assert("rand"@[0] != "date"@[0]);
    assert("random_bytes"@[0] != "gettimeofday"@[0]);
    assert("uniqid"@[0] != "getenv"@[0]);
}

/// The text in a delegate's answer: that under `result`, else that under `value`;
/// an answer that is a text is its own.
pub proof fn law_the_text_in_an_answer(
    answer: &Zval,
    result: Option<String>,
    value: Option<String>,
    text: Seq<char>,
    r: Option<String>,
)
    requires
        call_ensures(extract_result_string, (answer,), r),
        call_ensures(table_field, (answer, "result"), result),
        call_ensures(table_field, (answer, "value"), value),
    ensures
        result is Some ==> opt_text(r) == opt_text(result),
        result is None && value is Some ==> opt_text(r) == opt_text(value),
        crate::zend_helpers::is_text(*answer, text) ==> opt_text(r) == Some(text),
        *answer is Array && result is None && value is None ==> r is None,
        *answer is Null || *answer is Bool ==> r is None,
{
    if crate::zend_helpers::is_text(*answer, text) {
        vstd::utf8::encode_utf8_valid_utf8(text);
        vstd::utf8::encode_utf8_decode_utf8(text);
    }
}

/// What a hooked builtin returns: an integer for those that return one, where the
/// answer reads as one; a double for the fine clocks, where it reads as one; else
/// the text itself.
pub proof fn law_what_a_hooked_builtin_returns(
    function: &str,
    raw: &str,
    number: Option<i64>,
    double: &Option<String>,
    r: Zval,
)
    requires
        call_ensures(write_scalar_return, (function, raw, double), r),
        call_ensures(parse_signed, (raw,), number),
    ensures
        ({
            let whole = function@ == "time"@ || function@ == "mt_rand"@ || function@ == "rand"@
                || function@ == "random_int"@;
            let fine = function@ == "microtime"@ || function@ == "hrtime"@;
            &&& whole && number is Some ==> r == Zval::Long(number->0)
            &&& fine && *double is Some ==> (r matches Zval::Double(text) && text@ == (*double)->0@)
            &&& whole && number is None ==> crate::zend_helpers::is_text(r, raw@)
            &&& fine && *double is None ==> crate::zend_helpers::is_text(r, raw@)
            &&& !whole && !fine ==> crate::zend_helpers::is_text(r, raw@)
        }),
{
    reveal_strlit("time");
    reveal_strlit("microtime");
    reveal_strlit("hrtime");
    reveal_strlit("mt_rand");
    reveal_strlit("rand");
    reveal_strlit("random_int");
    reveal_strlit("random_bytes");
    reveal_strlit("uniqid");
    reveal_strlit("getenv");
    assert("time"@.len() == 4);
    assert("microtime"@.len() == 9);
    assert("hrtime"@.len() == 6);
    assert("mt_rand"@.len() == 7);
    assert("rand"@.len() == 4);
    assert("random_int"@.len() == 10);
    assert("random_bytes"@.len() == 12);
    assert("uniqid"@.len() == 6);
    assert("getenv"@.len() == 6);
    assert("time"@[0] != "rand"@[0]);
    assert("hrtime"@[0] != "uniqid"@[0]);
    assert("hrtime"@[0] != "getenv"@[0]);
    assert("uniqid"@[0] != "getenv"@[0]);
}

/// A delegate is asked about the variable for an environment read, and about the
/// builtin itself for anything else; where it does not answer, nothing is
/// substituted.
pub proof fn law_what_a_delegate_is_asked(
    symbol: &str,
    call: &Call,
    variable: Option<String>,
    selector: String,
    answer: &Option<Zval>,
    held: &Zval,
    text: Option<String>,
    raw: &str,
    double: &Option<String>,
    returned: Option<Zval>,
)
    requires
        call_ensures(hook_selector, (symbol, call), selector),
        call_ensures(arg_scalar_string, (call, 0usize, 4096usize), variable),
        *answer matches Some(v) ==> *held == v,
        call_ensures(extract_result_string, (held,), text),
        text matches Some(t) ==> raw@ == t@,
        call_ensures(hook_return, (symbol, answer, double), returned),
    ensures
        symbol@ == "getenv"@ ==> selector@ == match variable {
            Some(name) => name@,
            None => Seq::empty(),
        },
        symbol@ != "getenv"@ ==> selector@ == symbol@,
        returned is Some <==> *answer is Some && text is Some,
        returned matches Some(v) ==> substituted(v, symbol@, raw@, opt_text(*double)),
{
}

} // verus!
