//! Which tracer owns the outbound `traceparent` when a process runs two.
//!
//! Where this collector is instrumenting, it takes priority: before the first
//! outbound call of a request the other tracer's propagation is switched off
//! for the rest of that request. Its spans, agent and sampling are left alone.

use crate::text::{lowercase, same, to_lowercase, trim, trimmed};
use vstd::prelude::*;

verus! {

/// The opt-out switch. On unless set otherwise.
pub const PRIORITY_FLAG: &'static str = "CHRONOS_PHP_PROPAGATION_PRIORITY";

/// The other tracer's setting that governs header injection.
pub const FOREIGN_PROPAGATION_SETTING: &'static str = "datadog.distributed_tracing";

/// The value of that setting that means off.
pub const FOREIGN_PROPAGATION_OFF: &'static str = "0";

/// The spellings of a switched-off setting.
pub open spec fn off_spelling(value: Seq<char>) -> bool {
    let v = lowercase(trimmed(value));
    v == ""@ || v == "0"@ || v == "off"@ || v == "no"@ || v == "false"@
}

/// Whether a setting's value is already off. Anything not recognised is on.
pub fn reads_as_off(value: &str) -> (r: bool)
    ensures
        r == off_spelling(value@),
{
    let t = trim(value);
    let v = to_lowercase(t.as_str());
    same(v.as_str(), "") || same(v.as_str(), "0") || same(v.as_str(), "off") || same(
        v.as_str(),
        "no",
    ) || same(v.as_str(), "false")
}

/// When priority is taken: it is enabled, and the other tracer's setting exists
/// and is on.
pub open spec fn claims(priority_enabled: bool, current: Option<&str>) -> bool {
    priority_enabled && match current {
        Some(value) => !off_spelling(value@),
        None => false,
    }
}

/// Whether to take priority. `current` is `None` when the other tracer is not
/// loaded.
pub fn should_claim(priority_enabled: bool, current: Option<&str>) -> (r: bool)
    ensures
        r == claims(priority_enabled, current),
{
    match current {
        Some(value) => priority_enabled && !reads_as_off(value),
        None => false,
    }
}

/// Whether this request has taken priority yet.
pub struct Claim {
    pub claimed: bool,
}

impl Claim {
    pub fn new() -> (r: Claim)
        ensures
            !r.claimed,
    {
        Claim { claimed: false }
    }
}

/// Forget the claim: a new request begins.
pub fn reset_for_request(claim: &mut Claim)
    ensures
        !final(claim).claimed,
{
    claim.claimed = false;
}

/// The setting that taking priority writes, and its value: only the first call
/// of a request can give one.
pub open spec fn claim_write(before: bool, priority_enabled: bool, current: Option<&str>) -> Option<
    (Seq<char>, Seq<char>),
> {
    if !before && claims(priority_enabled, current) {
        Some((FOREIGN_PROPAGATION_SETTING@, FOREIGN_PROPAGATION_OFF@))
    } else {
        None
    }
}

/// A write as plain contents.
pub open spec fn write_view(w: Option<(&'static str, &'static str)>) -> Option<
    (Seq<char>, Seq<char>),
> {
    match w {
        Some(w) => Some((w.0@, w.1@)),
        None => None,
    }
}

/// Take priority for this request, once. The answer is the setting to write and
/// its value.
pub fn claim_once(claim: &mut Claim, priority_enabled: bool, current: Option<&str>) -> (r: Option<
    (&'static str, &'static str),
>)
    ensures
        final(claim).claimed,
        write_view(r) == claim_write(old(claim).claimed, priority_enabled, current),
{
    if claim.claimed {
        return None;
    }
    claim.claimed = true;
    if should_claim(priority_enabled, current) {
        Some((FOREIGN_PROPAGATION_SETTING, FOREIGN_PROPAGATION_OFF))
    } else {
        None
    }
}

/// However often priority is claimed in a request, at most the first claim
/// writes: once claimed, no later one does, until a new request resets it.
pub proof fn law_claimed_at_most_once_per_request(enabled: bool, current: Option<&str>)
    ensures
        claim_write(true, enabled, current) is None,
        claim_write(false, enabled, current) is Some <==> claims(enabled, current),
{
}

/// A setting reads as off when it is empty, `0`, `off`, `no` or `false`, in any
/// letter case and with white space around it or none; anything else is on.
pub proof fn law_what_reads_as_off(value: &str, cut: String, cut_text: &str, low: String, r: bool)
    requires
        call_ensures(reads_as_off, (value,), r),
        call_ensures(trim, (value,), cut),
        cut_text@ == cut@,
        call_ensures(to_lowercase, (cut_text,), low),
    ensures
        r <==> low@.len() == 0 || low@ == "0"@ || low@ == "off"@ || low@ == "no"@ || low@
            == "false"@,
        low@ == "1"@ || low@ == "on"@ || low@ == "true"@ || low@ == "yes"@ ==> !r,
{
    reveal_strlit("");
    reveal_strlit("0");
    reveal_strlit("off");
    reveal_strlit("no");
    reveal_strlit("false");
    reveal_strlit("1");
    reveal_strlit("on");
    reveal_strlit("true");
    reveal_strlit("yes");
    assert(""@.len() == 0 && "0"@.len() == 1 && "1"@.len() == 1 && "no"@.len() == 2);
    assert("on"@.len() == 2 && "off"@.len() == 3 && "yes"@.len() == 3 && "true"@.len() == 4);
    assert("false"@.len() == 5);
    assert("0"@[0] != "1"@[0] && "no"@[0] != "on"@[0] && "off"@[0] != "yes"@[0]);
    if low@.len() == 0 {
        assert(low@ =~= ""@);
    }
}

/// The first outbound call of a request takes priority over another tracer: where
/// that is enabled and the other tracer is loaded and on, its propagation setting
/// is to be written off. Later calls of the request write nothing.
pub proof fn law_priority_is_taken_by_the_first_call(
    claim: &mut Claim,
    enabled: bool,
    current: Option<&str>,
    off: bool,
    value: &str,
    wanted: bool,
    r: Option<(&'static str, &'static str)>,
    again: &mut Claim,
    later: Option<(&'static str, &'static str)>,
)
    requires
        current matches Some(v) ==> value@ == v@,
        call_ensures(reads_as_off, (value,), off),
        call_ensures(should_claim, (enabled, current), wanted),
        call_ensures(claim_once, (claim, enabled, current), r),
        *old(again) == *final(claim),
        call_ensures(claim_once, (again, enabled, current), later),
    ensures
        wanted <==> enabled && current is Some && !off,
        r is Some <==> wanted && !old(claim).claimed,
        r matches Some(write) ==> write.0@ == "datadog.distributed_tracing"@ && write.1@ == "0"@,
        final(claim).claimed,
        later is None,
{
}

/// A new request may take priority again.
pub proof fn law_a_new_request_may_claim(claim: &mut Claim, fresh: Claim)
    requires
        call_ensures(reset_for_request, (claim,), ()),
        call_ensures(Claim::new, (), fresh),
    ensures
        !final(claim).claimed,
        !fresh.claimed,
{
}

} // verus!
