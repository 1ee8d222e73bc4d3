//! What one call leaves for a later one: the SQL of prepared statements, the
//! queues behind consumer tags, and the subjects behind subscription ids.

use crate::observer::names::{prepare_sql_arg_index, sql_arg_index};
use crate::observer::state::{
    statements, ConsumeSubscribeKind, ConsumerQueue, Subscription, Subscriptions,
};
use crate::text::{opt_text, same, trim, trimmed};
use crate::zend_helpers::{
    arg_scalar_string, capped, object_property_string, retval_is_true, retval_object,
    retval_object_handle, scalar_text, scalar_to_string, this_object_handle, Call, Object, Zval,
    MAX_SCALAR_BYTES,
};
use std::collections::HashMap;
use vstd::prelude::*;

verus! {

broadcast use vstd::std_specs::hash::group_hash_axioms;

/// How many prepared statements one request remembers.
pub const MAX_PREPARED_STATEMENTS: usize = 512;

/// How much of a statement is kept.
pub const MAX_STATEMENT_BYTES: usize = 4096;

/// The statements once a handle has been prepared again. Without readable SQL
/// the handle is forgotten: a recycled handle must not keep another's text. A
/// full map refuses handles it does not know.
pub open spec fn rebanked(
    map: Map<u32, Seq<char>>,
    handle: u32,
    sql: Option<Seq<char>>,
) -> Map<u32, Seq<char>> {
    match sql {
        Some(text) => if map.len() >= MAX_PREPARED_STATEMENTS && !map.contains_key(handle) {
            map
        } else {
            map.insert(handle, text)
        },
        None => map.remove(handle),
    }
}

proof fn lemma_statements_len(m: Map<u32, String>)
    requires
        m.dom().finite(),
    ensures
        statements(m).len() == m.len(),
        statements(m).dom() == m.dom(),
{
    assert(statements(m).dom() =~= m.dom());
}

fn rebank(map: &mut HashMap<u32, String>, handle: u32, sql: Option<String>)
    ensures
        statements(final(map)@) == rebanked(statements(old(map)@), handle, opt_text(sql)),
{
    let ghost before = map@;
    proof {
        lemma_statements_len(before);
    }
    match sql {
        Some(text) => {
            if map.len() >= MAX_PREPARED_STATEMENTS && !map.contains_key(&handle) {
                return ;
            }
            let ghost tv = text@;
            map.insert(handle, text);
            assert(statements(map@) =~= statements(before).insert(handle, tv));
        },
        None => {
            map.remove(&handle);
            assert(statements(map@) =~= statements(before).remove(handle));
        },
    }
}

/// The text of a scalar argument, cut to a statement's bound.
pub open spec fn sql_argument(call: Call, index: int) -> Option<Seq<char>> {
    capped(scalar_text(call.arg(index)), MAX_STATEMENT_BYTES as nat)
}

/// Remember the SQL of a prepare call under the statement it returned.
pub fn bank_prepared_statement(
    map: &mut HashMap<u32, String>,
    call: &Call,
    retval: &Zval,
    sql_arg: usize,
)
    ensures
        statements(final(map)@) == match *retval {
            Zval::Object(o) => rebanked(
                statements(old(map)@),
                o.handle,
                sql_argument(*call, sql_arg as int),
            ),
            _ => statements(old(map)@),
        },
{
    match retval_object_handle(retval) {
        Some(handle) => {
            let sql = arg_scalar_string(call, sql_arg, MAX_STATEMENT_BYTES);
            rebank(map, handle, sql);
        },
        None => {},
    }
}

/// The SQL that a prepare call on a statement leaves: none when it failed.
pub open spec fn sql_of_this(call: Call, retval: Zval, name: Seq<char>) -> Option<Seq<char>> {
    if name != "mysqli_stmt::prepare"@ || retval == Zval::Bool(true) {
        sql_argument(call, sql_arg_index(name) as int)
    } else {
        None
    }
}

/// Remember the SQL of a prepare call under the statement it was made on.
pub fn rebank_prepared_statement_for_this(
    map: &mut HashMap<u32, String>,
    call: &Call,
    retval: &Zval,
    name: &str,
)
    ensures
        statements(final(map)@) == match call.this {
            Some(o) => rebanked(
                statements(old(map)@),
                o.handle,
                sql_of_this(*call, *retval, name@),
            ),
            None => statements(old(map)@),
        },
{
    match this_object_handle(call) {
        Some(handle) => {
            let succeeded = !same(name, "mysqli_stmt::prepare") || retval_is_true(retval);
            let sql = if succeeded {
                arg_scalar_string(call, prepare_sql_arg_index(name), MAX_STATEMENT_BYTES)
            } else {
                None
            };
            rebank(map, handle, sql);
        },
        None => {},
    }
}

/// Preparing into a handle never leaves an earlier statement's text under it,
/// however full the map is, and touches no other handle.
pub proof fn law_a_prepared_handle_never_keeps_old_text(
    map: Map<u32, Seq<char>>,
    handle: u32,
    sql: Option<Seq<char>>,
    other: u32,
)
    requires
        other != handle,
    ensures
        rebanked(map, handle, sql).contains_key(handle) ==> sql == Some(
            rebanked(map, handle, sql)[handle],
        ),
        rebanked(map, handle, sql).contains_key(other) == map.contains_key(other),
        map.contains_key(other) ==> rebanked(map, handle, sql)[other] == map[other],
{
}

/// The map of statements never grows past its bound.
pub proof fn law_statement_bank_is_bounded(
    map: Map<u32, Seq<char>>,
    handle: u32,
    sql: Option<Seq<char>>,
)
    requires
        map.dom().finite(),
        map.len() <= MAX_PREPARED_STATEMENTS,
    ensures
        rebanked(map, handle, sql).dom().finite(),
        rebanked(map, handle, sql).len() <= MAX_PREPARED_STATEMENTS,
{
    match sql {
        Some(text) => {
            assert(map.insert(handle, text).dom() =~= map.dom().insert(handle));
        },
        None => {
            assert(map.remove(handle).dom() =~= map.dom().remove(handle));
        },
    }
}

/// How many subscriptions one process remembers.
pub const MAX_CONSUMER_QUEUES: usize = 256;

/// A remembered subscription as plain contents.
pub struct QueueView {
    pub channel: u32,
    pub tag: Seq<char>,
    pub queue: Seq<char>,
}

impl View for ConsumerQueue {
    type V = QueueView;

    open spec fn view(&self) -> QueueView {
        QueueView { channel: self.channel, tag: self.tag@, queue: self.queue@ }
    }
}

/// The remembered subscriptions.
pub open spec fn queue_views(s: Seq<ConsumerQueue>) -> Seq<QueueView> {
    Seq::new(s.len(), |i: int| s[i]@)
}

/// Whether an entry is for a channel's consumer tag.
pub open spec fn is_for(q: QueueView, channel: u32, tag: Seq<char>) -> bool {
    q.channel == channel && q.tag == tag
}

/// Whether a subscription is remembered for a channel's consumer tag.
pub open spec fn queue_known(s: Seq<QueueView>, channel: u32, tag: Seq<char>) -> bool {
    exists|i: int| 0 <= i < s.len() && is_for(#[trigger] s[i], channel, tag)
}

/// The queue remembered for a channel's consumer tag.
pub open spec fn queue_of(s: Seq<QueueView>, channel: u32, tag: Seq<char>) -> Option<Seq<char>>
    decreases s.len(),
{
    if s.len() == 0 {
        None
    } else if is_for(s[0], channel, tag) {
        Some(s[0].queue)
    } else {
        queue_of(s.drop_first(), channel, tag)
    }
}

/// No two entries are for the same channel and tag, and there are not too many.
pub open spec fn queues_wf(s: Seq<QueueView>) -> bool {
    &&& s.len() <= MAX_CONSUMER_QUEUES
    &&& forall|i: int, j: int|
        0 <= i < j < s.len() ==> !is_for(#[trigger] s[j], (#[trigger] s[i]).channel, s[i].tag)
}

/// The subscriptions once one more has been made: the newest wins, and a full
/// list refuses what it does not know.
pub open spec fn queue_banked(
    s: Seq<QueueView>,
    channel: u32,
    tag: Seq<char>,
    queue: Seq<char>,
) -> Seq<QueueView> {
    if queue_known(s, channel, tag) {
        s.map_values(
            |q: QueueView|
                if is_for(q, channel, tag) {
                    QueueView { channel, tag, queue }
                } else {
                    q
                },
        )
    } else if s.len() >= MAX_CONSUMER_QUEUES {
        s
    } else {
        s.push(QueueView { channel, tag, queue })
    }
}

proof fn lemma_queue_of(s: Seq<QueueView>, channel: u32, tag: Seq<char>, i: int)
    requires
        0 <= i < s.len(),
        is_for(s[i], channel, tag),
        forall|j: int| 0 <= j < i ==> !is_for(#[trigger] s[j], channel, tag),
    ensures
        queue_of(s, channel, tag) == Some(s[i].queue),
    decreases i,
{
    if i > 0 {
        let t = s.drop_first();
        assert(!is_for(s[0], channel, tag));
        assert forall|j: int| 0 <= j < i - 1 implies !is_for(#[trigger] t[j], channel, tag) by {
            assert(t[j] == s[j + 1]);
        }
        lemma_queue_of(t, channel, tag, i - 1);
    }
}

proof fn lemma_queue_of_none(s: Seq<QueueView>, channel: u32, tag: Seq<char>)
    requires
        forall|j: int| 0 <= j < s.len() ==> !is_for(#[trigger] s[j], channel, tag),
    ensures
        queue_of(s, channel, tag) is None,
    decreases s.len(),
{
    if s.len() > 0 {
        let t = s.drop_first();
        assert(!is_for(s[0], channel, tag));
        assert forall|j: int| 0 <= j < t.len() implies !is_for(#[trigger] t[j], channel, tag) by {
            assert(t[j] == s[j + 1]);
        }
        lemma_queue_of_none(t, channel, tag);
    }
}

fn find_queue(queues: &Vec<ConsumerQueue>, channel: u32, tag: &str) -> (r: Option<usize>)
    ensures
        match r {
            Some(i) => {
                &&& i < queues@.len()
                &&& is_for(queues@[i as int]@, channel, tag@)
                &&& queue_of(queue_views(queues@), channel, tag@) == Some(
                    queues@[i as int].queue@,
                )
                &&& queue_known(queue_views(queues@), channel, tag@)
            },
            None => {
                &&& queue_of(queue_views(queues@), channel, tag@) is None
                &&& !queue_known(queue_views(queues@), channel, tag@)
            },
        },
{
    let ghost all = queue_views(queues@);
    let mut i: usize = 0;
    while i < queues.len()
        invariant
            i <= queues@.len(),
            all == queue_views(queues@),
            forall|j: int| 0 <= j < i ==> !is_for(#[trigger] all[j], channel, tag@),
        decreases queues@.len() - i,
    {
        assert(all[i as int] == queues@[i as int]@);
        if queues[i].channel == channel && same(queues[i].tag.as_str(), tag) {
            proof {
                assert(is_for(all[i as int], channel, tag@));
                lemma_queue_of(all, channel, tag@, i as int);
            }
            return Some(i);
        }
        i = i + 1;
    }
    proof {
        lemma_queue_of_none(all, channel, tag@);
    }
    None
}

/// The queue remembered for a channel's consumer tag: empty when none is.
pub fn banked_queue(queues: &Vec<ConsumerQueue>, channel: u32, tag: &str) -> (r: String)
    ensures
        r@ == match queue_of(queue_views(queues@), channel, tag@) {
            Some(q) => q,
            None => Seq::empty(),
        },
{
    match find_queue(queues, channel, tag) {
        Some(i) => queues[i].queue.clone(),
        None => String::new(),
    }
}

/// Remember a subscription.
pub fn bank_consumer_queue(
    queues: &mut Vec<ConsumerQueue>,
    channel: u32,
    consumer_tag: String,
    queue: String,
)
    requires
        queues_wf(queue_views(old(queues)@)),
    ensures
        queue_views(final(queues)@) == queue_banked(
            queue_views(old(queues)@),
            channel,
            consumer_tag@,
            queue@,
        ),
        queues_wf(queue_views(final(queues)@)),
{
    let ghost before = queue_views(queues@);
    match find_queue(queues, channel, consumer_tag.as_str()) {
        Some(i) => {
            let ghost new = QueueView { channel, tag: consumer_tag@, queue: queue@ };
            assert(is_for(before[i as int], channel, consumer_tag@));
            proof {
                let after = queue_banked(before, channel, consumer_tag@, queue@);
                assert(after =~= before.update(i as int, new)) by {
                    assert forall|j: int| 0 <= j < before.len() && j != i implies !is_for(
                        #[trigger] before[j],
                        channel,
                        consumer_tag@,
                    ) by {
                        if j < i {
                            assert(!is_for(before[i as int], before[j].channel, before[j].tag));
                        } else {
                            assert(!is_for(before[j], before[i as int].channel, before[i as int].tag));
                        }
                    }
                }
            }
            queues.set(i, ConsumerQueue { channel, tag: consumer_tag, queue });
            let ghost after = queue_views(queues@);
            assert(after =~= before.update(i as int, new));
            assert forall|a: int, b: int| 0 <= a < b < after.len() implies !is_for(
                #[trigger] after[b],
                (#[trigger] after[a]).channel,
                after[a].tag,
            ) by {
                assert(!is_for(before[b], before[a].channel, before[a].tag));
            }
        },
        None => {
            if queues.len() >= MAX_CONSUMER_QUEUES {
                return ;
            }
            let ghost new = QueueView { channel, tag: consumer_tag@, queue: queue@ };
            queues.push(ConsumerQueue { channel, tag: consumer_tag, queue });
            let ghost after = queue_views(queues@);
            assert(after =~= before.push(new));
            assert forall|a: int, b: int| 0 <= a < b < after.len() implies !is_for(
                #[trigger] after[b],
                (#[trigger] after[a]).channel,
                after[a].tag,
            ) by {
                if b < before.len() {
                    assert(!is_for(before[b], before[a].channel, before[a].tag));
                } else {
                    assert(after[a] == before[a]);
                    assert(!is_for(before[a], channel, new.tag));
                }
            }
        },
    }
}

proof fn lemma_known_has_queue(s: Seq<QueueView>, channel: u32, tag: Seq<char>)
    ensures
        queue_known(s, channel, tag) <==> queue_of(s, channel, tag) is Some,
    decreases s.len(),
{
    if s.len() > 0 {
        let t = s.drop_first();
        lemma_known_has_queue(t, channel, tag);
        if queue_known(s, channel, tag) && !is_for(s[0], channel, tag) {
            let i = choose|i: int| 0 <= i < s.len() && is_for(#[trigger] s[i], channel, tag);
            assert(t[i - 1] == s[i]);
        }
        if queue_known(t, channel, tag) {
            let i = choose|i: int| 0 <= i < t.len() && is_for(#[trigger] t[i], channel, tag);
            assert(s[i + 1] == t[i]);
        }
    }
}

proof fn lemma_banked_lookup(
    s: Seq<QueueView>,
    channel: u32,
    tag: Seq<char>,
    new: QueueView,
    c: u32,
    t: Seq<char>,
)
    requires
        is_for(new, channel, tag),
    ensures
        queue_of(
            s.map_values(
                |q: QueueView|
                    if is_for(q, channel, tag) {
                        new
                    } else {
                        q
                    },
            ),
            c,
            t,
        ) == if c == channel && t == tag && queue_of(s, c, t) is Some {
            Some(new.queue)
        } else {
            queue_of(s, c, t)
        },
        queue_of(s.push(new), c, t) == match queue_of(s, c, t) {
            Some(q) => Some(q),
            None => if is_for(new, c, t) {
                Some(new.queue)
            } else {
                None
            },
        },
    decreases s.len(),
{
    let f = |q: QueueView|
        if is_for(q, channel, tag) {
            new
        } else {
            q
        };
    if s.len() == 0 {
        assert(s.push(new).drop_first() =~= s);
    } else {
        let rest = s.drop_first();
        lemma_banked_lookup(rest, channel, tag, new, c, t);
        assert(s.map_values(f).drop_first() =~= rest.map_values(f));
        assert(s.push(new).drop_first() =~= rest.push(new));
    }
}

/// The newest subscription under a channel and tag is the one a delivery finds,
/// unless the list was full without it; every other one is found as before.
pub proof fn law_newest_subscription_wins(
    s: Seq<QueueView>,
    channel: u32,
    tag: Seq<char>,
    queue: Seq<char>,
    other_channel: u32,
    other_tag: Seq<char>,
)
    requires
        other_channel != channel || other_tag != tag,
    ensures
        queue_of(queue_banked(s, channel, tag, queue), other_channel, other_tag) == queue_of(
            s,
            other_channel,
            other_tag,
        ),
        queue_known(s, channel, tag) || s.len() < MAX_CONSUMER_QUEUES ==> queue_of(
            queue_banked(s, channel, tag, queue),
            channel,
            tag,
        ) == Some(queue),
{
    let new = QueueView { channel, tag, queue };
    lemma_known_has_queue(s, channel, tag);
    lemma_banked_lookup(s, channel, tag, new, channel, tag);
    lemma_banked_lookup(s, channel, tag, new, other_channel, other_tag);
}

/// The text of a scalar, trimmed, or nothing.
pub open spec fn trimmed_or_empty(o: Option<Seq<char>>) -> Seq<char> {
    match o {
        Some(s) => trimmed(s),
        None => Seq::empty(),
    }
}

/// A trimmed copy, or the empty text.
pub fn trim_or_empty(o: Option<String>) -> (r: String)
    ensures
        r@ == trimmed_or_empty(opt_text(o)),
{
    match o {
        Some(s) => trim(s.as_str()),
        None => String::new(),
    }
}

/// The subscriptions once a subscribe call has returned: a tag and a queue name
/// are both needed.
pub open spec fn subscribed(
    s: Seq<QueueView>,
    this: Option<Object>,
    tag: Option<Seq<char>>,
    queue: Seq<char>,
) -> Seq<QueueView> {
    match (this, tag) {
        (Some(channel), Some(tag)) => if tag.len() > 0 && queue.len() > 0 {
            queue_banked(s, channel.handle, tag, queue)
        } else {
            s
        },
        _ => s,
    }
}

/// The queue argument of a subscribe call.
pub open spec fn queue_argument(call: Call, index: int) -> Seq<char> {
    trimmed_or_empty(capped(scalar_text(call.arg(index)), 512))
}

/// The consumer tag in what the Bunny client's subscribe call returned.
pub open spec fn bunny_tag(retval: Zval) -> Option<Seq<char>> {
    match retval {
        Zval::Object(o) => capped(o.text("consumerTag"@), 256),
        _ => None,
    }
}

/// Remember what a Bunny subscribe call established. The asynchronous client
/// returns no tag, and nothing is remembered.
pub fn maybe_bank_bunny_consumer_queue(
    queues: &mut Vec<ConsumerQueue>,
    call: &Call,
    retval: &Zval,
)
    requires
        queues_wf(queue_views(old(queues)@)),
    ensures
        queue_views(final(queues)@) == subscribed(
            queue_views(old(queues)@),
            call.this,
            bunny_tag(*retval),
            queue_argument(*call, 1),
        ),
        queues_wf(queue_views(final(queues)@)),
{
    let channel = match this_object_handle(call) {
        Some(h) => h,
        None => {
            return ;
        },
    };
    let ok_frame = match retval_object(retval) {
        Some(o) => o,
        None => {
            return ;
        },
    };
    let tag = match object_property_string(ok_frame, "consumerTag", 256) {
        Some(t) => t,
        None => {
            return ;
        },
    };
    if tag.as_str().is_empty() {
        return ;
    }
    let queue = trim_or_empty(arg_scalar_string(call, 1, 512));
    if queue.as_str().is_empty() {
        return ;
    }
    bank_consumer_queue(queues, channel, tag, queue);
}

/// The consumer tag that the amqplib client's subscribe call returned.
pub open spec fn amqplib_tag(retval: Zval) -> Option<Seq<char>> {
    match capped(scalar_text(retval), MAX_SCALAR_BYTES as nat) {
        Some(t) => Some(trimmed(t)),
        None => None,
    }
}

/// Remember what an amqplib subscribe call established.
pub fn maybe_bank_amqplib_consumer_queue(
    queues: &mut Vec<ConsumerQueue>,
    call: &Call,
    retval: &Zval,
)
    requires
        queues_wf(queue_views(old(queues)@)),
    ensures
        queue_views(final(queues)@) == subscribed(
            queue_views(old(queues)@),
            call.this,
            amqplib_tag(*retval),
            queue_argument(*call, 0),
        ),
        queues_wf(queue_views(final(queues)@)),
{
    let channel = match this_object_handle(call) {
        Some(h) => h,
        None => {
            return ;
        },
    };
    let tag = match scalar_to_string(retval) {
        Some(t) => trim(t.as_str()),
        None => {
            return ;
        },
    };
    if tag.as_str().is_empty() {
        return ;
    }
    let queue = trim_or_empty(arg_scalar_string(call, 0, 512));
    if queue.as_str().is_empty() {
        return ;
    }
    bank_consumer_queue(queues, channel, tag, queue);
}

/// The client whose subscribe method lies at an address.
pub open spec fn subscribe_kind(
    fns: Seq<(u64, ConsumeSubscribeKind)>,
    function: u64,
) -> Option<ConsumeSubscribeKind>
    decreases fns.len(),
{
    if fns.len() == 0 {
        None
    } else if fns[0].0 == function {
        Some(fns[0].1)
    } else {
        subscribe_kind(fns.drop_first(), function)
    }
}

fn find_subscribe_kind(fns: &Vec<(u64, ConsumeSubscribeKind)>, function: u64) -> (r: Option<
    ConsumeSubscribeKind,
>)
    ensures
        r == subscribe_kind(fns@, function),
{
    let mut i: usize = 0;
    assert(fns@.skip(0) =~= fns@);
    while i < fns.len()
        invariant
            i <= fns@.len(),
            subscribe_kind(fns@.skip(i as int), function) == subscribe_kind(fns@, function),
        decreases fns@.len() - i,
    {
        assert(fns@.skip(i as int)[0] == fns@[i as int]);
        assert(fns@.skip(i as int).drop_first() =~= fns@.skip(i + 1));
        if fns[i].0 == function {
            return Some(fns[i].1);
        }
        i = i + 1;
    }
    None
}

/// Remember the address of a subscribe method. The first kind it was seen with
/// stays.
pub fn remember_subscribe_method(
    fns: &mut Vec<(u64, ConsumeSubscribeKind)>,
    function: u64,
    kind: ConsumeSubscribeKind,
)
    ensures
        final(fns)@ == if subscribe_kind(old(fns)@, function) is Some {
            old(fns)@
        } else {
            old(fns)@.push((function, kind))
        },
{
    if find_subscribe_kind(fns, function).is_none() {
        fns.push((function, kind));
    }
}

/// Remember what a call established, when it was a subscribe call.
pub fn maybe_bank_consumer_queue(subscriptions: &mut Subscriptions, call: &Call, retval: &Zval)
    requires
        queues_wf(queue_views(old(subscriptions).queues@)),
    ensures
        queue_views(final(subscriptions).queues@) == match subscribe_kind(
            old(subscriptions).consume_fns@,
            call.function,
        ) {
            Some(kind) => if call.function == 0 {
                queue_views(old(subscriptions).queues@)
            } else {
                match kind {
                    ConsumeSubscribeKind::Bunny => subscribed(
                        queue_views(old(subscriptions).queues@),
                        call.this,
                        bunny_tag(*retval),
                        queue_argument(*call, 1),
                    ),
                    ConsumeSubscribeKind::Amqplib => subscribed(
                        queue_views(old(subscriptions).queues@),
                        call.this,
                        amqplib_tag(*retval),
                        queue_argument(*call, 0),
                    ),
                }
            },
            None => queue_views(old(subscriptions).queues@),
        },
        queues_wf(queue_views(final(subscriptions).queues@)),
        *final(subscriptions) == (Subscriptions {
            queues: final(subscriptions).queues,
            ..*old(subscriptions)
        }),
{
    if call.function == 0 {
        return ;
    }
    match find_subscribe_kind(&subscriptions.consume_fns, call.function) {
        Some(ConsumeSubscribeKind::Bunny) => {
            maybe_bank_bunny_consumer_queue(&mut subscriptions.queues, call, retval);
        },
        Some(ConsumeSubscribeKind::Amqplib) => {
            maybe_bank_amqplib_consumer_queue(&mut subscriptions.queues, call, retval);
        },
        None => {},
    }
}

/// How many NATS subscriptions one process remembers.
pub const MAX_SUBSCRIBE_SIDS: usize = 256;

/// A remembered NATS subscription as plain contents.
pub struct SidView {
    pub sid: Seq<char>,
    pub subject: Seq<char>,
    pub group: Seq<char>,
}

impl View for Subscription {
    type V = SidView;

    open spec fn view(&self) -> SidView {
        SidView { sid: self.sid@, subject: self.subject@, group: self.group@ }
    }
}

/// The remembered NATS subscriptions.
pub open spec fn sid_views(s: Seq<Subscription>) -> Seq<SidView> {
    Seq::new(s.len(), |i: int| s[i]@)
}

/// The subscription behind an id.
pub open spec fn sid_of(s: Seq<SidView>, sid: Seq<char>) -> Option<SidView>
    decreases s.len(),
{
    if s.len() == 0 {
        None
    } else if s[0].sid == sid {
        Some(s[0])
    } else {
        sid_of(s.drop_first(), sid)
    }
}

/// The subscriptions once one more has been made: under a known id the newest
/// wins, and a full list refuses new ids.
pub open spec fn sid_banked(s: Seq<SidView>, new: SidView) -> Seq<SidView>
    decreases s.len(),
{
    if sid_of(s, new.sid) is Some {
        if s[0].sid == new.sid {
            s.update(0, new)
        } else {
            seq![s[0]] + sid_banked(s.drop_first(), new)
        }
    } else if s.len() >= MAX_SUBSCRIBE_SIDS {
        s
    } else {
        s.push(new)
    }
}

proof fn lemma_sid_at(s: Seq<SidView>, new: SidView, i: int)
    requires
        0 <= i < s.len(),
        s[i].sid == new.sid,
        forall|j: int| 0 <= j < i ==> (#[trigger] s[j]).sid != new.sid,
    ensures
        sid_of(s, new.sid) == Some(s[i]),
        sid_banked(s, new) == s.update(i, new),
    decreases i,
{
    if i > 0 {
        let t = s.drop_first();
        assert(s[0].sid != new.sid);
        assert forall|j: int| 0 <= j < i - 1 implies (#[trigger] t[j]).sid != new.sid by {
            assert(t[j] == s[j + 1]);
        }
        lemma_sid_at(t, new, i - 1);
        assert(seq![s[0]] + t.update(i - 1, new) =~= s.update(i, new));
    }
}

proof fn lemma_sid_none(s: Seq<SidView>, sid: Seq<char>)
    requires
        forall|j: int| 0 <= j < s.len() ==> (#[trigger] s[j]).sid != sid,
    ensures
        sid_of(s, sid) is None,
    decreases s.len(),
{
    if s.len() > 0 {
        let t = s.drop_first();
        assert(s[0].sid != sid);
        assert forall|j: int| 0 <= j < t.len() implies (#[trigger] t[j]).sid != sid by {
            assert(t[j] == s[j + 1]);
        }
        lemma_sid_none(t, sid);
    }
}

fn find_sid(sids: &Vec<Subscription>, sid: &str) -> (r: Option<usize>)
    ensures
        match r {
            Some(i) => {
                &&& i < sids@.len()
                &&& sids@[i as int].sid@ == sid@
                &&& forall|j: int| 0 <= j < i ==> (#[trigger] sid_views(sids@)[j]).sid != sid@
                &&& sid_of(sid_views(sids@), sid@) == Some(sids@[i as int]@)
            },
            None => sid_of(sid_views(sids@), sid@) is None,
        },
{
    let ghost all = sid_views(sids@);
    let mut i: usize = 0;
    while i < sids.len()
        invariant
            i <= sids@.len(),
            all == sid_views(sids@),
            forall|j: int| 0 <= j < i ==> (#[trigger] all[j]).sid != sid@,
        decreases sids@.len() - i,
    {
        assert(all[i as int] == sids@[i as int]@);
        if same(sids[i].sid.as_str(), sid) {
            proof {
                lemma_sid_at(all, all[i as int], i as int);
            }
            return Some(i);
        }
        i = i + 1;
    }
    proof {
        lemma_sid_none(all, sid@);
    }
    None
}

/// The subject and group behind a subscription id: empty when it is not known.
pub fn banked_sid(sids: &Vec<Subscription>, sid: &str) -> (r: (String, String))
    ensures
        match sid_of(sid_views(sids@), sid@) {
            Some(v) => r.0@ == v.subject && r.1@ == v.group,
            None => r.0@.len() == 0 && r.1@.len() == 0,
        },
{
    match find_sid(sids, sid) {
        Some(i) => (sids[i].subject.clone(), sids[i].group.clone()),
        None => (String::new(), String::new()),
    }
}

/// What a subscribe message establishes, when it has an id.
pub open spec fn nats_subscription(message: Object) -> Option<SidView> {
    match capped(message.text("sid"@), 64) {
        Some(sid) => if sid.len() > 0 {
            Some(
                SidView {
                    sid,
                    subject: trimmed_or_empty(capped(message.text("subject"@), 512)),
                    group: trimmed_or_empty(capped(message.text("group"@), 256)),
                },
            )
        } else {
            None
        },
        None => None,
    }
}

/// Remember what a NATS subscribe message establishes.
pub fn bank_nats_subscribe(sids: &mut Vec<Subscription>, message: &Object)
    ensures
        sid_views(final(sids)@) == match nats_subscription(*message) {
            Some(new) => sid_banked(sid_views(old(sids)@), new),
            None => sid_views(old(sids)@),
        },
{
    let sid = match object_property_string(message, "sid", 64) {
        Some(s) => s,
        None => {
            return ;
        },
    };
    if sid.as_str().is_empty() {
        return ;
    }
    let subject = trim_or_empty(object_property_string(message, "subject", 512));
    let group = trim_or_empty(object_property_string(message, "group", 256));
    let ghost before = sid_views(sids@);
    let ghost new = SidView { sid: sid@, subject: subject@, group: group@ };
    match find_sid(sids, sid.as_str()) {
        Some(i) => {
            proof {
                lemma_sid_at(before, new, i as int);
            }
            sids.set(i, Subscription { sid, subject, group });
            assert(sid_views(sids@) =~= before.update(i as int, new));
        },
        None => {
            if sids.len() >= MAX_SUBSCRIBE_SIDS {
                return ;
            }
            sids.push(Subscription { sid, subject, group });
            assert(sid_views(sids@) =~= before.push(new));
        },
    }
}

/// The list of NATS subscriptions never grows past its bound, and a known id
/// can always be taken anew.
pub proof fn law_sid_bank_is_bounded(s: Seq<SidView>, new: SidView)
    requires
        s.len() <= MAX_SUBSCRIBE_SIDS,
    ensures
        sid_banked(s, new).len() <= MAX_SUBSCRIBE_SIDS,
        sid_of(s, new.sid) is Some || s.len() < MAX_SUBSCRIBE_SIDS ==> sid_of(
            sid_banked(s, new),
            new.sid,
        ) == Some(new),
    decreases s.len(),
{
    if sid_of(s, new.sid) is Some {
        if s[0].sid != new.sid {
            let t = s.drop_first();
            law_sid_bank_is_bounded(t, new);
            lemma_sid_banked_len(t, new);
            let after = seq![s[0]] + sid_banked(t, new);
            assert(after.drop_first() =~= sid_banked(t, new));
        }
    } else if s.len() < MAX_SUBSCRIBE_SIDS {
        lemma_sid_pushed(s, new);
    }
}

proof fn lemma_sid_banked_len(s: Seq<SidView>, new: SidView)
    requires
        sid_of(s, new.sid) is Some,
    ensures
        sid_banked(s, new).len() == s.len(),
    decreases s.len(),
{
    if s[0].sid != new.sid {
        lemma_sid_banked_len(s.drop_first(), new);
    }
}

proof fn lemma_sid_pushed(s: Seq<SidView>, new: SidView)
    requires
        sid_of(s, new.sid) is None,
    ensures
        sid_of(s.push(new), new.sid) == Some(new),
    decreases s.len(),
{
    if s.len() == 0 {
        assert(s.push(new)[0] == new);
    } else {
        assert(s.push(new).drop_first() =~= s.drop_first().push(new));
        lemma_sid_pushed(s.drop_first(), new);
    }
}

proof fn lemma_statement_at(m: Map<u32, String>, handle: u32)
    ensures
        statements(m).contains_key(handle) <==> m.contains_key(handle),
        m.contains_key(handle) ==> statements(m)[handle] == m[handle]@,
{
}

/// Whether a map of statements was told of a handle: with a text it says that text,
/// unless it holds 512 others already; without one it forgets the handle. Every
/// other handle is as before.
pub open spec fn told_of(
    before: Map<u32, String>,
    after: Map<u32, String>,
    handle: u32,
    sql: Option<String>,
) -> bool {
    &&& sql is Some && (before.len() < 512 || before.contains_key(handle)) ==> after.contains_key(
        handle,
    ) && after[handle]@ == sql->0@
    &&& sql is None ==> !after.contains_key(handle)
    &&& before.len() >= 512 && !before.contains_key(handle) ==> !after.contains_key(handle)
    &&& same_statements(before, after, Some(handle))
}

/// Whether two maps say the same of every handle, but for one.
pub open spec fn same_statements(
    before: Map<u32, String>,
    after: Map<u32, String>,
    handle: Option<u32>,
) -> bool {
    forall|other: u32|
        Some(other) != handle ==> (#[trigger] after.contains_key(other) <==> before.contains_key(
            other,
        )) && (before.contains_key(other) ==> after[other]@ == before[other]@)
}

proof fn lemma_told_of(
    before: Map<u32, String>,
    after: Map<u32, String>,
    handle: u32,
    sql: Option<String>,
)
    requires
        before.dom().finite(),
        statements(after) == rebanked(statements(before), handle, opt_text(sql)),
    ensures
        told_of(before, after, handle, sql),
{
    lemma_statements_len(before);
    lemma_statement_at(before, handle);
    lemma_statement_at(after, handle);
    assert forall|other: u32| Some(other) != Some(handle) implies (#[trigger] after.contains_key(other)
        <==> before.contains_key(other)) && (before.contains_key(other) ==> after[other]@
        == before[other]@) by {
        lemma_statement_at(before, other);
        lemma_statement_at(after, other);
    }
}

/// A prepare call that returns a statement tells its map the SQL it was given, up to
/// 4096 bytes of it; one that returns none tells nothing.
pub proof fn law_a_prepared_statement_is_told_its_sql(
    map: &mut HashMap<u32, String>,
    call: &Call,
    retval: &Zval,
    sql_arg: usize,
    handle: Option<u32>,
    sql: Option<String>,
)
    requires
        call_ensures(bank_prepared_statement, (map, call, retval, sql_arg), ()),
        call_ensures(retval_object_handle, (retval,), handle),
        call_ensures(arg_scalar_string, (call, sql_arg, 4096usize), sql),
        old(map)@.dom().finite(),
    ensures
        handle matches Some(h) ==> told_of(old(map)@, final(map)@, h, sql),
        handle is None ==> same_statements(old(map)@, final(map)@, None),
{
    if let Some(h) = handle {
        lemma_told_of(old(map)@, final(map)@, h, sql);
    } else {
        assert forall|other: u32| (#[trigger] final(map)@.contains_key(other) <==> old(
            map,
        )@.contains_key(other)) && (old(map)@.contains_key(other) ==> final(map)@[other]@ == old(
            map,
        )@[other]@) by {
            lemma_statement_at(old(map)@, other);
            lemma_statement_at(final(map)@, other);
        }
    }
}

/// A prepare call on a statement tells its map the SQL under that statement; where
/// `mysqli_stmt::prepare` did not return true, the statement is forgotten.
pub proof fn law_a_statement_prepared_again_is_told_its_sql(
    map: &mut HashMap<u32, String>,
    call: &Call,
    retval: &Zval,
    name: &str,
    handle: Option<u32>,
    index: usize,
    sql: Option<String>,
    succeeded: bool,
)
    requires
        call_ensures(rebank_prepared_statement_for_this, (map, call, retval, name), ()),
        call_ensures(this_object_handle, (call,), handle),
        call_ensures(prepare_sql_arg_index, (name,), index),
        call_ensures(arg_scalar_string, (call, index, 4096usize), sql),
        call_ensures(retval_is_true, (retval,), succeeded),
        old(map)@.dom().finite(),
    ensures
        handle is Some && (name@ != "mysqli_stmt::prepare"@ || succeeded) ==> told_of(
            old(map)@,
            final(map)@,
            handle->0,
            sql,
        ),
        handle is Some && name@ == "mysqli_stmt::prepare"@ && !succeeded ==> told_of(
            old(map)@,
            final(map)@,
            handle->0,
            None,
        ),
        handle is None ==> same_statements(old(map)@, final(map)@, None),
{
    if let Some(h) = handle {
        if name@ != "mysqli_stmt::prepare"@ || succeeded {
            lemma_told_of(old(map)@, final(map)@, h, sql);
        } else {
            lemma_told_of(old(map)@, final(map)@, h, None);
        }
    } else {
        assert forall|other: u32| (#[trigger] final(map)@.contains_key(other) <==> old(
            map,
        )@.contains_key(other)) && (old(map)@.contains_key(other) ==> final(map)@[other]@ == old(
            map,
        )@[other]@) by {
            lemma_statement_at(old(map)@, other);
            lemma_statement_at(final(map)@, other);
        }
    }
}

/// A remembered subscription is found under its channel and tag, and leaves every
/// other as it was found before; a list of 256 refuses what it does not know. What
/// is not known has no name.
pub proof fn law_a_remembered_queue_is_found(
    queues: &mut Vec<ConsumerQueue>,
    channel: u32,
    tag: String,
    queue: String,
    before: &Vec<ConsumerQueue>,
    after: &Vec<ConsumerQueue>,
    found_channel: u32,
    found_tag: &str,
    was: String,
    is_now: String,
)
    requires
        queues_wf(queue_views(old(queues)@)),
        call_ensures(bank_consumer_queue, (queues, channel, tag, queue), ()),
        *before == *old(queues),
        *after == *final(queues),
        call_ensures(banked_queue, (before, found_channel, found_tag), was),
        call_ensures(banked_queue, (after, found_channel, found_tag), is_now),
    ensures
        ({
            let asked = found_channel == channel && found_tag@ == tag@;
            let known = exists|i: int|
                0 <= i < old(queues)@.len() && (#[trigger] old(queues)@[i]).channel == channel && old(
                    queues,
                )@[i].tag@ == tag@;
            &&& asked && (known || old(queues)@.len() < 256) ==> is_now@ == queue@
            &&& !asked ==> is_now@ == was@
            &&& !known && old(queues)@.len() >= 256 ==> is_now@ == was@
        }),
        old(queues)@.len() == 0 ==> was@.len() == 0,
{
    let s = queue_views(old(queues)@);
    assert(s.len() == old(queues)@.len());
    let known = exists|i: int|
        0 <= i < old(queues)@.len() && (#[trigger] old(queues)@[i]).channel == channel && old(
            queues,
        )@[i].tag@ == tag@;
    assert(known <==> queue_known(s, channel, tag@)) by {
        if known {
            let i = choose|i: int|
                0 <= i < old(queues)@.len() && (#[trigger] old(queues)@[i]).channel == channel
                    && old(queues)@[i].tag@ == tag@;
            assert(is_for(s[i], channel, tag@));
        }
        if queue_known(s, channel, tag@) {
            let i = choose|i: int| 0 <= i < s.len() && is_for(#[trigger] s[i], channel, tag@);
            assert(old(queues)@[i].channel == channel);
        }
    }
    if found_channel == channel && found_tag@ == tag@ {
        law_newest_subscription_wins(
            s,
            channel,
            tag@,
            queue@,
            if channel == 0 {
                1
            } else {
                0
            },
            tag@,
        );
    } else {
        law_newest_subscription_wins(s, channel, tag@, queue@, found_channel, found_tag@);
    }
}

/// What a Bunny subscribe call established is remembered under its channel and the
/// tag in what it returned, with the queue that is its second argument; without any
/// one of the three nothing is.
pub proof fn law_a_bunny_subscription_is_remembered(
    queues: &mut Vec<ConsumerQueue>,
    call: &Call,
    retval: &Zval,
    channel: Option<u32>,
    returned: Option<&Object>,
    held: &Object,
    tag: Option<String>,
    argument: Option<String>,
    queue: String,
    twin: &mut Vec<ConsumerQueue>,
)
    requires
        queues_wf(queue_views(old(queues)@)),
        call_ensures(maybe_bank_bunny_consumer_queue, (queues, call, retval), ()),
        call_ensures(this_object_handle, (call,), channel),
        call_ensures(retval_object, (retval,), returned),
        returned matches Some(o) ==> *held == *o,
        call_ensures(object_property_string, (held, "consumerTag", 256usize), tag),
        call_ensures(arg_scalar_string, (call, 1usize, 512usize), argument),
        call_ensures(trim_or_empty, (argument,), queue),
        *old(twin) == *old(queues),
        channel is Some && tag is Some ==> call_ensures(
            bank_consumer_queue,
            (twin, channel->0, tag->0, queue),
            (),
        ),
    ensures
        ({
            let whole = channel is Some && returned is Some && tag is Some && tag->0@.len() > 0
                && queue@.len() > 0;
            &&& whole ==> queue_views(final(queues)@) == queue_views(final(twin)@)
            &&& !whole ==> queue_views(final(queues)@) == queue_views(old(queues)@)
        }),
{
}

/// The same of an amqplib subscribe call: the tag is what it returned, trimmed, and
/// the queue its first argument.
pub proof fn law_an_amqplib_subscription_is_remembered(
    queues: &mut Vec<ConsumerQueue>,
    call: &Call,
    retval: &Zval,
    channel: Option<u32>,
    returned: Option<String>,
    returned_text: &str,
    tag: String,
    argument: Option<String>,
    queue: String,
    twin: &mut Vec<ConsumerQueue>,
)
    requires
        queues_wf(queue_views(old(queues)@)),
        call_ensures(maybe_bank_amqplib_consumer_queue, (queues, call, retval), ()),
        call_ensures(this_object_handle, (call,), channel),
        call_ensures(scalar_to_string, (retval,), returned),
        returned matches Some(t) ==> returned_text@ == t@,
        call_ensures(trim, (returned_text,), tag),
        call_ensures(arg_scalar_string, (call, 0usize, 512usize), argument),
        call_ensures(trim_or_empty, (argument,), queue),
        *old(twin) == *old(queues),
        channel is Some ==> call_ensures(bank_consumer_queue, (twin, channel->0, tag, queue), ()),
    ensures
        ({
            let whole = channel is Some && returned is Some && tag@.len() > 0 && queue@.len() > 0;
            &&& whole ==> queue_views(final(queues)@) == queue_views(final(twin)@)
            &&& !whole ==> queue_views(final(queues)@) == queue_views(old(queues)@)
        }),
{
}

proof fn lemma_kind_at(fns: Seq<(u64, ConsumeSubscribeKind)>, function: u64, i: int)
    requires
        0 <= i < fns.len(),
        fns[i].0 == function,
        forall|j: int| 0 <= j < i ==> (#[trigger] fns[j]).0 != function,
    ensures
        subscribe_kind(fns, function) == Some(fns[i].1),
    decreases i,
{
    if i > 0 {
        let t = fns.drop_first();
        assert(fns[0].0 != function);
        assert forall|j: int| 0 <= j < i - 1 implies (#[trigger] t[j]).0 != function by {
            assert(t[j] == fns[j + 1]);
        }
        lemma_kind_at(t, function, i - 1);
    }
}

proof fn lemma_no_kind(fns: Seq<(u64, ConsumeSubscribeKind)>, function: u64)
    requires
        forall|j: int| 0 <= j < fns.len() ==> (#[trigger] fns[j]).0 != function,
    ensures
        subscribe_kind(fns, function) is None,
    decreases fns.len(),
{
    if fns.len() > 0 {
        let t = fns.drop_first();
        assert(fns[0].0 != function);
        assert forall|j: int| 0 <= j < t.len() implies (#[trigger] t[j]).0 != function by {
            assert(t[j] == fns[j + 1]);
        }
        lemma_no_kind(t, function);
    }
}

/// A call is a subscribe call by the method it is made to: what it established is
/// remembered as its client's, and a call to any other method leaves nothing.
pub proof fn law_subscriptions_are_told_by_their_method(
    subscriptions: &mut Subscriptions,
    call: &Call,
    retval: &Zval,
    bunny: &mut Vec<ConsumerQueue>,
    amqplib: &mut Vec<ConsumerQueue>,
    i: int,
)
    requires
        queues_wf(queue_views(old(subscriptions).queues@)),
        call_ensures(maybe_bank_consumer_queue, (subscriptions, call, retval), ()),
        *old(bunny) == old(subscriptions).queues,
        *old(amqplib) == old(subscriptions).queues,
        call_ensures(maybe_bank_bunny_consumer_queue, (bunny, call, retval), ()),
        call_ensures(maybe_bank_amqplib_consumer_queue, (amqplib, call, retval), ()),
    ensures
        ({
            let fns = old(subscriptions).consume_fns@;
            let found = 0 <= i < fns.len() && fns[i].0 == call.function && (forall|j: int|
                0 <= j < i ==> (#[trigger] fns[j]).0 != call.function);
            let after = queue_views(final(subscriptions).queues@);
            &&& found && call.function != 0 && fns[i].1 is Bunny ==> after == queue_views(
                final(bunny)@,
            )
            &&& found && call.function != 0 && fns[i].1 is Amqplib ==> after == queue_views(
                final(amqplib)@,
            )
            &&& call.function == 0 || (forall|j: int|
                0 <= j < fns.len() ==> (#[trigger] fns[j]).0 != call.function) ==> after
                == queue_views(old(subscriptions).queues@)
        }),
        final(subscriptions).consume_fns@ == old(subscriptions).consume_fns@,
        final(subscriptions).sids@ == old(subscriptions).sids@,
{
    let fns = old(subscriptions).consume_fns@;
    if 0 <= i < fns.len() && fns[i].0 == call.function && (forall|j: int|
        0 <= j < i ==> (#[trigger] fns[j]).0 != call.function) {
        lemma_kind_at(fns, call.function, i);
    }
    if forall|j: int| 0 <= j < fns.len() ==> (#[trigger] fns[j]).0 != call.function {
        lemma_no_kind(fns, call.function);
    }
}

/// A subscribe method is remembered once, with the client it was first seen with.
pub proof fn law_a_subscribe_method_is_remembered_once(
    fns: &mut Vec<(u64, ConsumeSubscribeKind)>,
    function: u64,
    kind: ConsumeSubscribeKind,
)
    requires
        call_ensures(remember_subscribe_method, (fns, function, kind), ()),
    ensures
        (forall|j: int| 0 <= j < old(fns)@.len() ==> (#[trigger] old(fns)@[j]).0 != function)
            ==> final(fns)@ == old(fns)@.push((function, kind)),
        (exists|j: int| 0 <= j < old(fns)@.len() && (#[trigger] old(fns)@[j]).0 == function)
            ==> final(fns)@ == old(fns)@,
{
    let f = old(fns)@;
    if forall|j: int| 0 <= j < f.len() ==> (#[trigger] f[j]).0 != function {
        lemma_no_kind(f, function);
    } else {
        let j = choose|j: int| 0 <= j < f.len() && (#[trigger] f[j]).0 == function;
        lemma_some_kind(f, function, j);
    }
}

proof fn lemma_some_kind(fns: Seq<(u64, ConsumeSubscribeKind)>, function: u64, i: int)
    requires
        0 <= i < fns.len(),
        fns[i].0 == function,
    ensures
        subscribe_kind(fns, function) is Some,
    decreases fns.len(),
{
    if fns[0].0 != function {
        assert(fns.drop_first()[i - 1] == fns[i]);
        lemma_some_kind(fns.drop_first(), function, i - 1);
    }
}

proof fn lemma_other_sid(s: Seq<SidView>, new: SidView, sid: Seq<char>)
    requires
        sid != new.sid,
    ensures
        sid_of(sid_banked(s, new), sid) == sid_of(s, sid),
        sid_of(s.push(new), sid) == sid_of(s, sid),
    decreases s.len(),
{
    if s.len() == 0 {
        assert(s.push(new).drop_first() =~= s);
    } else {
        let t = s.drop_first();
        lemma_other_sid(t, new, sid);
        assert(s.push(new).drop_first() =~= t.push(new));
        if sid_of(s, new.sid) is Some {
            if s[0].sid == new.sid {
                assert(s.update(0, new).drop_first() =~= t);
            } else {
                assert((seq![s[0]] + sid_banked(t, new)).drop_first() =~= sid_banked(t, new));
            }
        }
    }
}

/// A NATS subscription is found under its id: its subject and its group, trimmed. It
/// leaves every other as it was found before, and a list of 256 refuses new ids; a
/// message without an id leaves nothing.
pub proof fn law_a_nats_subscription_is_found(
    sids: &mut Vec<Subscription>,
    message: &Object,
    sid: Option<String>,
    subject: Option<String>,
    subject_text: String,
    group: Option<String>,
    group_text: String,
    before: &Vec<Subscription>,
    after: &Vec<Subscription>,
    asked: &str,
    was: (String, String),
    is_now: (String, String),
)
    requires
        call_ensures(bank_nats_subscribe, (sids, message), ()),
        call_ensures(object_property_string, (message, "sid", 64usize), sid),
        call_ensures(object_property_string, (message, "subject", 512usize), subject),
        call_ensures(trim_or_empty, (subject,), subject_text),
        call_ensures(object_property_string, (message, "group", 256usize), group),
        call_ensures(trim_or_empty, (group,), group_text),
        *before == *old(sids),
        *after == *final(sids),
        call_ensures(banked_sid, (before, asked), was),
        call_ensures(banked_sid, (after, asked), is_now),
        old(sids)@.len() <= 256,
    ensures
        ({
            let whole = sid is Some && sid->0@.len() > 0;
            let known = exists|i: int|
                0 <= i < old(sids)@.len() && (#[trigger] old(sids)@[i]).sid@ == sid->0@;
            let taken = whole && (known || old(sids)@.len() < 256);
            &&& taken && asked@ == sid->0@ ==> is_now.0@ == subject_text@ && is_now.1@ == group_text@
            &&& !taken || asked@ != sid->0@ ==> is_now.0@ == was.0@ && is_now.1@ == was.1@
        }),
        old(sids)@.len() == 0 ==> was.0@.len() == 0 && was.1@.len() == 0,
{
    let s = sid_views(old(sids)@);
    assert(s.len() == old(sids)@.len());
    if sid is Some && sid->0@.len() > 0 {
        let new = SidView { sid: sid->0@, subject: subject_text@, group: group_text@ };
        assert(nats_subscription(*message) == Some(new));
        law_sid_bank_is_bounded(s, new);
        let known = exists|i: int|
            0 <= i < old(sids)@.len() && (#[trigger] old(sids)@[i]).sid@ == sid->0@;
        if known {
            let i = choose|i: int|
                0 <= i < old(sids)@.len() && (#[trigger] old(sids)@[i]).sid@ == sid->0@;
            lemma_some_sid(s, sid->0@, i);
        } else {
            assert forall|j: int| 0 <= j < s.len() implies (#[trigger] s[j]).sid != sid->0@ by {
                assert(old(sids)@[j].sid@ == s[j].sid);
            }
            lemma_sid_none(s, sid->0@);
        }
        if asked@ != sid->0@ {
            lemma_other_sid(s, new, asked@);
        }
    }
}

proof fn lemma_some_sid(s: Seq<SidView>, sid: Seq<char>, i: int)
    requires
        0 <= i < s.len(),
        s[i].sid == sid,
    ensures
        sid_of(s, sid) is Some,
    decreases s.len(),
{
    if s[0].sid != sid {
        assert(s.drop_first()[i - 1] == s[i]);
        lemma_some_sid(s.drop_first(), sid, i - 1);
    }
}

/// A text is trimmed, and nothing is empty.
pub proof fn law_nothing_trims_to_nothing(o: Option<String>, text: &str, cut: String, r: String)
    requires
        o matches Some(t) ==> text@ == t@,
        call_ensures(trim, (text,), cut),
        call_ensures(trim_or_empty, (o,), r),
    ensures
        o is Some ==> r@ == cut@,
        o is None ==> r@.len() == 0,
{
}

} // verus!
