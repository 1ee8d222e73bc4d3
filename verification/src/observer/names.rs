//! Which observed calls become spans: the name tables, and the policy that
//! reads them.

use crate::settings::{flag, get, get_even_empty, on_spelling, said, setting, Sources};
use crate::text::{
    begins, contains_text, copy, ends, ends_with, holds, lowercase, opt_view, parse_unsigned,
    parsed, same, same_ignoring_case, split, split_on, starts_with, strip_start, stripped_start,
    texts, trim, trim_start, trimmed, trimmed_start,
};
use vstd::prelude::*;

verus! {

/// What the observer does with an observed call.
#[derive(Clone, Copy, Debug, PartialEq, Eq, Structural)]
pub enum SpanPolicy {
    /// A userland function, when every userland call is spanned.
    UserSpan,
    /// A function the application asked to trace by name.
    ManifestSpan,
    /// A known I/O call: a client span with payload detail.
    IoSpan,
    /// A messaging client's publish call: a producer span and header injection.
    MessagingPublish,
    /// A messaging client's dispatch of one delivery: a message-scoped request.
    MessagingDeliver,
    /// A pull-style consume call, described by what it returns.
    MessagingPoll,
    /// The one send method of the NATS client: publish, subscribe or neither.
    MessagingNatsSend,
    /// Observed for side channels only: no span.
    ObserveOnly,
}

/// What a result of non-deterministic builtins is recorded as.
#[derive(Clone, Copy, Debug, PartialEq, Eq, Structural)]
pub enum DstEventKind {
    Time,
    Random,
    EnvRead,
    Exception,
    Call,
}

/// The switches of a process that the policy depends on.
pub struct ObserverSettings {
    pub span_all_userland: bool,
    pub messaging_auto: bool,
    pub min_span_duration_nanos: u128,
    pub excluded_paths: Vec<String>,
}

/// What the environment holds for the observer's settings.
pub struct ObserverEnv<'a> {
    pub span_all_userland: Option<&'a str>,
    pub messaging_auto: Option<&'a str>,
    pub min_duration_us: Option<&'a str>,
    pub exclude_paths: Option<&'a str>,
}

/// A setting that is on or off.
pub open spec fn switched(
    sources: Sources,
    env: Option<&str>,
    env_name: Seq<char>,
    default: bool,
) -> bool {
    match setting(opt_view(env), sources.ini@, sources.file@, env_name) {
        Some(v) => on_spelling(v),
        None => default,
    }
}

/// The minimum leaf-span duration that the settings ask for, in nanoseconds.
pub open spec fn min_duration_setting(sources: Sources, env: Option<&str>) -> nat {
    min_duration(
        setting(
            opt_view(env),
            sources.ini@,
            sources.file@,
            "CHRONOS_PHP_SPAN_MIN_DURATION_US"@,
        ),
    )
}

impl ObserverSettings {
    /// The switches that the settings ask for. The minimum duration must fit in
    /// nanoseconds.
    pub fn resolve(sources: &Sources, env: &ObserverEnv<'_>) -> (r: ObserverSettings)
        requires
            min_duration_setting(*sources, env.min_duration_us) <= u128::MAX,
        ensures
            r.span_all_userland == switched(
                *sources,
                env.span_all_userland,
                "CHRONOS_PHP_SPAN_ALL_USERLAND"@,
                false,
            ),
            r.messaging_auto == switched(
                *sources,
                env.messaging_auto,
                "CHRONOS_PHP_MESSAGING_AUTO"@,
                true,
            ),
            r.min_span_duration_nanos == min_duration_setting(*sources, env.min_duration_us),
            texts(r.excluded_paths@) == excluded_setting(*sources, env.exclude_paths),
    {
        let shortest = get(sources, env.min_duration_us, "CHRONOS_PHP_SPAN_MIN_DURATION_US");
        ObserverSettings {
            span_all_userland: flag(
                sources,
                env.span_all_userland,
                "CHRONOS_PHP_SPAN_ALL_USERLAND",
                false,
            ),
            messaging_auto: flag(sources, env.messaging_auto, "CHRONOS_PHP_MESSAGING_AUTO", true),
            min_span_duration_nanos: match &shortest {
                Some(value) => min_span_duration_nanos(Some(value.as_str())),
                None => min_span_duration_nanos(None),
            },
            excluded_paths: excluded_paths(sources, env.exclude_paths),
        }
    }
}

/// The default minimum duration of a leaf span, in microseconds.
pub const DEFAULT_MIN_DURATION_US: u128 = 100;

/// The minimum leaf-span duration that a setting asks for, in nanoseconds.
pub open spec fn min_duration(value: Option<Seq<char>>) -> nat {
    (match value {
        Some(text) => match parsed(text, u128::MAX as nat) {
            Some(us) => us,
            None => DEFAULT_MIN_DURATION_US as nat,
        },
        None => DEFAULT_MIN_DURATION_US as nat,
    }) * 1000
}

/// The minimum leaf-span duration in nanoseconds, from a setting in
/// microseconds.
pub fn min_span_duration_nanos(value: Option<&str>) -> (r: u128)
    requires
        min_duration(opt_view(value)) <= u128::MAX,
    ensures
        r == min_duration(opt_view(value)),
{
    let us: u128 = match value {
        Some(text) => match parse_unsigned(text, u128::MAX) {
            Some(us) => us,
            None => DEFAULT_MIN_DURATION_US,
        },
        None => DEFAULT_MIN_DURATION_US,
    };
    us * 1000
}

/// Calls that go over the network and carry a `traceparent`.
pub open spec fn network(name: Seq<char>) -> bool {
    ||| name == "curl_exec"@
    ||| name == "curl_multi_exec"@
    ||| name == "file_get_contents"@
}

/// Calls that go over the network and carry a `traceparent`.
pub fn is_network_function(name: &str) -> (r: bool)
    ensures
        r == network(name@),
{
    same(name, "curl_exec")
        || same(name, "curl_multi_exec")
        || same(name, "file_get_contents")
}

/// Publish calls of the messaging clients.
pub open spec fn publish_method(name: Seq<char>) -> bool {
    ||| name == "Bunny\\AbstractClient::publish"@
    ||| name == "RdKafka\\ProducerTopic::produce"@
    ||| name == "RdKafka\\ProducerTopic::producev"@
    ||| name == "PhpAmqpLib\\Channel\\AMQPChannel::basic_publish"@
}

/// Publish calls of the messaging clients.
pub fn publish_method_name(name: &str) -> (r: bool)
    ensures
        r == publish_method(name@),
{
    same(name, "Bunny\\AbstractClient::publish")
        || same(name, "RdKafka\\ProducerTopic::produce")
        || same(name, "RdKafka\\ProducerTopic::producev")
        || same(name, "PhpAmqpLib\\Channel\\AMQPChannel::basic_publish")
}

/// Where a messaging client hands one delivery to the application.
pub open spec fn dispatch_method(name: Seq<char>) -> bool {
    ||| name == "Bunny\\Channel::onBodyComplete"@
    ||| name == "PhpAmqpLib\\Channel\\AMQPChannel::basic_deliver"@
    ||| name == "Basis\\Nats\\Client::processMsg"@
}

/// Where a messaging client hands one delivery to the application.
pub fn dispatch_method_name(name: &str) -> (r: bool)
    ensures
        r == dispatch_method(name@),
{
    same(name, "Bunny\\Channel::onBodyComplete")
        || same(name, "PhpAmqpLib\\Channel\\AMQPChannel::basic_deliver")
        || same(name, "Basis\\Nats\\Client::processMsg")
}

/// Where a messaging client subscribes to a queue.
pub open spec fn subscribe_method(name: Seq<char>) -> bool {
    ||| name == "Bunny\\Channel::consume"@
    ||| name == "PhpAmqpLib\\Channel\\AMQPChannel::basic_consume"@
}

/// Where a messaging client subscribes to a queue.
pub fn subscribe_method_name(name: &str) -> (r: bool)
    ensures
        r == subscribe_method(name@),
{
    same(name, "Bunny\\Channel::consume")
        || same(name, "PhpAmqpLib\\Channel\\AMQPChannel::basic_consume")
}

/// Pull-style consume calls.
pub open spec fn poll_method(name: Seq<char>) -> bool {
    ||| name == "RdKafka\\KafkaConsumer::consume"@
    ||| name == "RdKafka\\ConsumerTopic::consume"@
    ||| name == "Basis\\Nats\\Queue::fetchAll"@
}

/// Pull-style consume calls.
pub fn poll_method_name(name: &str) -> (r: bool)
    ensures
        r == poll_method(name@),
{
    same(name, "RdKafka\\KafkaConsumer::consume")
        || same(name, "RdKafka\\ConsumerTopic::consume")
        || same(name, "Basis\\Nats\\Queue::fetchAll")
}

/// The one method of the NATS client that writes to the wire.
pub const MESSAGING_NATS_SEND_METHOD: &'static str = "Basis\\Nats\\Connection::sendMessage";

/// The NATS client's request and reply call.
pub const MESSAGING_NATS_RPC_METHOD: &'static str = "Basis\\Nats\\Client::dispatch";

/// The serializer that every generated protobuf message inherits.
pub const PROTOBUF_SERIALIZE_METHOD: &'static str =
    "Google\\Protobuf\\Internal\\Message::serializeToString";

/// Whether a call is an observed publish call.
pub fn is_messaging_publish(messaging_auto: bool, name: &str) -> (r: bool)
    ensures
        r == (messaging_auto && publish_method(name@)),
{
    messaging_auto && publish_method_name(name)
}

/// Whether a call is an observed delivery dispatch.
pub fn is_messaging_dispatch(messaging_auto: bool, name: &str) -> (r: bool)
    ensures
        r == (messaging_auto && dispatch_method(name@)),
{
    messaging_auto && dispatch_method_name(name)
}

/// Whether a call is an observed subscribe call.
pub fn is_messaging_subscribe(messaging_auto: bool, name: &str) -> (r: bool)
    ensures
        r == (messaging_auto && subscribe_method(name@)),
{
    messaging_auto && subscribe_method_name(name)
}

/// Whether a call is an observed pull-style consume call.
pub fn is_messaging_poll(messaging_auto: bool, name: &str) -> (r: bool)
    ensures
        r == (messaging_auto && poll_method(name@)),
{
    messaging_auto && poll_method_name(name)
}

/// Whether a call is the observed send method of the NATS client.
pub fn is_nats_send(messaging_auto: bool, name: &str) -> (r: bool)
    ensures
        r == (messaging_auto && name@ == MESSAGING_NATS_SEND_METHOD@),
{
    messaging_auto && same(name, MESSAGING_NATS_SEND_METHOD)
}

/// Whether a call is the observed request call of the NATS client.
pub fn is_messaging_rpc(messaging_auto: bool, name: &str) -> (r: bool)
    ensures
        r == (messaging_auto && name@ == MESSAGING_NATS_RPC_METHOD@),
{
    messaging_auto && same(name, MESSAGING_NATS_RPC_METHOD)
}

/// Whether a call is the observed protobuf serializer.
pub fn messaging_auto_serialize_hook(messaging_auto: bool, name: &str) -> (r: bool)
    ensures
        r == (messaging_auto && name@ == PROTOBUF_SERIALIZE_METHOD@),
{
    messaging_auto && same(name, PROTOBUF_SERIALIZE_METHOD)
}

/// Stream calls whose target decides whether they go over the network.
pub open spec fn dual_purpose(name: Seq<char>) -> bool {
    ||| name == "file_get_contents"@
}

/// Stream calls whose target decides whether they go over the network.
pub fn is_dual_purpose_stream_function(name: &str) -> (r: bool)
    ensures
        r == dual_purpose(name@),
{
    same(name, "file_get_contents")
}

/// SQL calls that are a round trip.
pub open spec fn sql_io(name: Seq<char>) -> bool {
    ||| name == "PDO::query"@
    ||| name == "PDO::exec"@
    ||| name == "PDO::prepare"@
    ||| name == "PDOStatement::execute"@
    ||| name == "mysqli::query"@
    ||| name == "mysqli::real_query"@
    ||| name == "mysqli::execute_query"@
    ||| name == "mysqli_query"@
    ||| name == "mysqli_stmt::execute"@
    ||| name == "SQLite3::query"@
    ||| name == "SQLite3::exec"@
    ||| name == "SQLite3::querySingle"@
    ||| name == "SQLite3Stmt::execute"@
}

/// SQL calls that are a round trip.
pub fn sql_io_function(name: &str) -> (r: bool)
    ensures
        r == sql_io(name@),
{
    same(name, "PDO::query")
        || same(name, "PDO::exec")
        || same(name, "PDO::prepare")
        || same(name, "PDOStatement::execute")
        || same(name, "mysqli::query")
        || same(name, "mysqli::real_query")
        || same(name, "mysqli::execute_query")
        || same(name, "mysqli_query")
        || same(name, "mysqli_stmt::execute")
        || same(name, "SQLite3::query")
        || same(name, "SQLite3::exec")
        || same(name, "SQLite3::querySingle")
        || same(name, "SQLite3Stmt::execute")
}

/// Prepare calls that return the statement.
pub open spec fn sql_prepare(name: Seq<char>) -> bool {
    ||| name == "mysqli::prepare"@
    ||| name == "SQLite3::prepare"@
    ||| name == "mysqli_prepare"@
}

/// Prepare calls that return the statement.
pub fn sql_prepare_method(name: &str) -> (r: bool)
    ensures
        r == sql_prepare(name@),
{
    same(name, "mysqli::prepare")
        || same(name, "SQLite3::prepare")
        || same(name, "mysqli_prepare")
}

/// Prepare calls made on the statement itself.
pub open spec fn sql_this_prepare(name: Seq<char>) -> bool {
    ||| name == "mysqli_stmt::prepare"@
    ||| name == "mysqli_stmt::__construct"@
}

/// Prepare calls made on the statement itself.
pub fn sql_this_prepare_method(name: &str) -> (r: bool)
    ensures
        r == sql_this_prepare(name@),
{
    same(name, "mysqli_stmt::prepare")
        || same(name, "mysqli_stmt::__construct")
}

/// Methods of a cache client that are not data operations.
pub open spec fn lifecycle(name: Seq<char>) -> bool {
    ||| name == "__construct"@
    ||| name == "__destruct"@
    ||| name == "connect"@
    ||| name == "pconnect"@
    ||| name == "open"@
    ||| name == "auth"@
    ||| name == "select"@
    ||| name == "close"@
    ||| name == "setOption"@
    ||| name == "getOption"@
    ||| name == "addServer"@
    ||| name == "addServers"@
    ||| name == "quit"@
}

/// Methods of a cache client that are not data operations.
pub fn lifecycle_method(name: &str) -> (r: bool)
    ensures
        r == lifecycle(name@),
{
    same(name, "__construct")
        || same(name, "__destruct")
        || same(name, "connect")
        || same(name, "pconnect")
        || same(name, "open")
        || same(name, "auth")
        || same(name, "select")
        || same(name, "close")
        || same(name, "setOption")
        || same(name, "getOption")
        || same(name, "addServer")
        || same(name, "addServers")
        || same(name, "quit")
}

/// Which argument of a prepare call holds the SQL.
pub open spec fn sql_arg_index(name: Seq<char>) -> usize {
    if name == "mysqli_prepare"@ || name == "mysqli_stmt::__construct"@ {
        1
    } else {
        0
    }
}

/// Which argument of a prepare call holds the SQL.
pub fn prepare_sql_arg_index(name: &str) -> (r: usize)
    ensures
        r == sql_arg_index(name@),
{
    if same(name, "mysqli_prepare") || same(name, "mysqli_stmt::__construct") {
        1
    } else {
        0
    }
}

/// A data operation of the cache class with this prefix.
pub open spec fn cache_method_of(name: Seq<char>, prefix: Seq<char>) -> bool {
    begins(name, prefix) && !lifecycle(name.skip(prefix.len() as int))
}

/// A data operation of a cache client.
pub open spec fn cache_io(name: Seq<char>) -> bool {
    ||| cache_method_of(name, "Redis::"@)
    ||| cache_method_of(name, "RedisCluster::"@)
    ||| cache_method_of(name, "Memcached::"@)
}

fn is_cache_method_of(name: &str, prefix: &str) -> (r: bool)
    ensures
        r == cache_method_of(name@, prefix@),
{
    if !starts_with(name, prefix) {
        return false;
    }
    let n = crate::text::chars_of(name);
    let p = crate::text::chars_of(prefix);
    let rest = crate::text::string_of(&n, p.len(), n.len());
    assert(rest@ =~= name@.skip(prefix@.len() as int));
    !lifecycle_method(rest.as_str())
}

/// Whether a call is a data operation of a cache client.
pub fn cache_io_method(name: &str) -> (r: bool)
    ensures
        r == cache_io(name@),
{
    is_cache_method_of(name, "Redis::") || is_cache_method_of(name, "RedisCluster::")
        || is_cache_method_of(name, "Memcached::")
}

/// What the result of a builtin is recorded as: clocks, random sources and the
/// environment.
pub open spec fn dst_kind(name: Seq<char>) -> Option<DstEventKind> {
    if name == "time"@ || name == "microtime"@ || name == "hrtime"@ || name == "date"@ || name
        == "mktime"@ || name == "gmdate"@ {
        Some(DstEventKind::Time)
    } else if name == "rand"@ || name == "mt_rand"@ || name == "random_int"@ || name
        == "random_bytes"@ || name == "uniqid"@ || name == "mt_srand"@ {
        Some(DstEventKind::Random)
    } else if name == "getenv"@ {
        Some(DstEventKind::EnvRead)
    } else {
        None
    }
}

/// What the result of a builtin is recorded as.
pub fn dst_event_kind_for(name: &str) -> (r: Option<DstEventKind>)
    ensures
        r == dst_kind(name@),
{
    if same(name, "time") || same(name, "microtime") || same(name, "hrtime") || same(name, "date")
        || same(name, "mktime") || same(name, "gmdate") {
        Some(DstEventKind::Time)
    } else if same(name, "rand") || same(name, "mt_rand") || same(name, "random_int") || same(
        name,
        "random_bytes",
    ) || same(name, "uniqid") || same(name, "mt_srand") {
        Some(DstEventKind::Random)
    } else if same(name, "getenv") {
        Some(DstEventKind::EnvRead)
    } else {
        None
    }
}

/// Whether a target begins with a scheme, whatever its case.
pub open spec fn has_scheme(target: Seq<char>, scheme: Seq<char>) -> bool {
    begins(lowercase(target), scheme)
}

/// Whether a stream target goes over the network: an allow-list of schemes.
pub open spec fn remote_target(target: Seq<char>) -> bool {
    let t = trimmed_start(target);
    ||| has_scheme(t, "http://"@)
    ||| has_scheme(t, "https://"@)
    ||| has_scheme(t, "ftp://"@)
    ||| has_scheme(t, "ftps://"@)
    ||| has_scheme(t, "sftp://"@)
    ||| has_scheme(t, "ssh2."@)
}

/// Whether a stream target goes over the network. A scheme that is not listed
/// reads as local.
pub fn is_remote_stream_target(target: &str) -> (r: bool)
    ensures
        r == remote_target(target@),
{
    let start = trim_start(target);
    let t = crate::text::to_lowercase(start.as_str());
    let s = t.as_str();
    starts_with(s, "http://") || starts_with(s, "https://") || starts_with(s, "ftp://")
        || starts_with(s, "ftps://") || starts_with(s, "sftp://") || starts_with(s, "ssh2.")
}

/// Userland code that is infrastructure, not application logic.
pub open spec fn skipped(name: Seq<char>) -> bool {
    ||| begins(name, "Composer\\Autoload\\"@)
    ||| begins(name, "Chronos\\Collector\\"@)
    ||| begins(name, "sfAutoload::"@)
    ||| begins(name, "sfCoreAutoload::"@)
    ||| begins(name, "sfSimpleAutoload::"@)
    ||| begins(name, "Illuminate\\Container\\"@)
    ||| begins(name, "Illuminate\\Support\\"@)
    ||| begins(name, "Illuminate\\Events\\"@)
    ||| begins(name, "Illuminate\\Pipeline\\Pipeline::carry"@)
    ||| begins(name, "Illuminate\\Foundation\\Application::isDeferredService"@)
    ||| begins(name, "Illuminate\\Foundation\\Application::bound"@)
}

/// Whether a name is in a namespace that is infrastructure.
pub fn is_skipped(name: &str) -> (r: bool)
    ensures
        r == skipped(name@),
{
    starts_with(name, "Composer\\Autoload\\")
        || starts_with(name, "Chronos\\Collector\\")
        || starts_with(name, "sfAutoload::")
        || starts_with(name, "sfCoreAutoload::")
        || starts_with(name, "sfSimpleAutoload::")
        || starts_with(name, "Illuminate\\Container\\")
        || starts_with(name, "Illuminate\\Support\\")
        || starts_with(name, "Illuminate\\Events\\")
        || starts_with(name, "Illuminate\\Pipeline\\Pipeline::carry")
        || starts_with(name, "Illuminate\\Foundation\\Application::isDeferredService")
        || starts_with(name, "Illuminate\\Foundation\\Application::bound")
}

/// The trimmed pieces of a list that are not blank, in order.
pub open spec fn unblank(pieces: Seq<Seq<char>>) -> Seq<Seq<char>>
    decreases pieces.len(),
{
    if pieces.len() == 0 {
        Seq::empty()
    } else {
        let before = unblank(pieces.drop_last());
        let t = trimmed(pieces.last());
        if t.len() == 0 {
            before
        } else {
            before.push(t)
        }
    }
}

/// The path fragments that are excluded unless a setting says otherwise.
pub fn default_excluded_paths() -> (r: Vec<String>)
    ensures
        texts(r@) == seq!["/vendor/"@, "/node_modules/"@, "/cache/"@, "/.git/"@],
{
    let mut v: Vec<String> = Vec::new();
    v.push(copy("/vendor/"));
    v.push(copy("/node_modules/"));
    v.push(copy("/cache/"));
    v.push(copy("/.git/"));
    assert(texts(v@) =~= seq!["/vendor/"@, "/node_modules/"@, "/cache/"@, "/.git/"@]);
    v
}

/// The path fragments that a setting excludes, or the default ones where there is
/// no setting. A setting that is there and empty excludes nothing.
pub open spec fn excluded_by(value: Option<Seq<char>>) -> Seq<Seq<char>> {
    match value {
        Some(list) => unblank(split(list, ',')),
        None => seq!["/vendor/"@, "/node_modules/"@, "/cache/"@, "/.git/"@],
    }
}

/// The path fragments that the settings exclude.
pub open spec fn excluded_setting(sources: Sources, env: Option<&str>) -> Seq<Seq<char>> {
    excluded_by(
        said(opt_view(env), sources.ini@, sources.file@, "CHRONOS_PHP_EXCLUDE_PATHS"@),
    )
}

/// The excluded path fragments. `env` is what the environment holds for them.
pub fn excluded_paths(sources: &Sources, env: Option<&str>) -> (r: Vec<String>)
    ensures
        texts(r@) == excluded_setting(*sources, env),
{
    match get_even_empty(sources, env, "CHRONOS_PHP_EXCLUDE_PATHS") {
        Some(list) => parse_excluded_paths(list.as_str()),
        None => default_excluded_paths(),
    }
}

/// A service that says its exclude list is empty excludes nothing.
pub proof fn law_an_empty_exclude_list_excludes_nothing(file: Seq<char>)
    ensures
        !path_excluded(file, excluded_by(Some(Seq::empty()))),
{
    let pieces = split(Seq::<char>::empty(), ',');
    reveal_with_fuel(split, 2);
    assert(pieces =~= seq![Seq::<char>::empty()]);
    assert(trimmed(Seq::<char>::empty()).len() == 0);
    assert(pieces.drop_last() =~= Seq::empty());
    reveal_with_fuel(unblank, 2);
}

/// Read a comma-separated list of path fragments. Blank entries are dropped.
pub fn parse_excluded_paths(list: &str) -> (r: Vec<String>)
    ensures
        texts(r@) == unblank(split(list@, ',')),
{
    let pieces = split_on(list, ',');
    let ghost all = texts(pieces@);
    let mut out: Vec<String> = Vec::new();
    let mut i: usize = 0;
    assert(texts(out@) =~= unblank(all.take(0)));
    while i < pieces.len()
        invariant
            i <= pieces@.len(),
            all == texts(pieces@),
            texts(out@) == unblank(all.take(i as int)),
        decreases pieces@.len() - i,
    {
        assert(all.take(i + 1).drop_last() =~= all.take(i as int));
        assert(all.take(i + 1).last() == all[i as int]);
        let ghost before = texts(out@);
        let t = trim(pieces[i].as_str());
        if !t.as_str().is_empty() {
            let ghost tv = t@;
            out.push(t);
            assert(texts(out@) =~= before.push(tv));
        }
        i = i + 1;
    }
    assert(all.take(all.len() as int) =~= all);
    out
}

/// No fragment of a parsed list is blank, so none of them matches every path.
pub proof fn law_excluded_fragments_are_never_blank(pieces: Seq<Seq<char>>)
    ensures
        forall|i: int| 0 <= i < unblank(pieces).len() ==> (#[trigger] unblank(pieces)[i]).len() > 0,
    decreases pieces.len(),
{
    if pieces.len() > 0 {
        let before = unblank(pieces.drop_last());
        law_excluded_fragments_are_never_blank(pieces.drop_last());
        assert forall|i: int| 0 <= i < unblank(pieces).len() implies (#[trigger] unblank(
            pieces,
        )[i]).len() > 0 by {
            if i < before.len() {
                assert(unblank(pieces)[i] == before[i]);
            }
        }
    }
}

/// Whether a file lies under an excluded fragment. An unknown file never does.
pub open spec fn path_excluded(file: Seq<char>, excluded: Seq<Seq<char>>) -> bool {
    file.len() > 0 && exists|i: int| 0 <= i < excluded.len() && holds(file, #[trigger] excluded[i])
}

/// Whether a defining file belongs to code that is not the application's.
pub fn is_excluded_path(file: &str, excluded: &[String]) -> (r: bool)
    ensures
        r == path_excluded(file@, texts(excluded@)),
{
    if file.is_empty() {
        return false;
    }
    let mut i: usize = 0;
    while i < excluded.len()
        invariant
            i <= excluded@.len(),
            file@.len() > 0,
            forall|j: int| 0 <= j < i ==> !holds(file@, #[trigger] texts(excluded@)[j]),
        decreases excluded@.len() - i,
    {
        if contains_text(file, excluded[i].as_str()) {
            assert(holds(file@, texts(excluded@)[i as int]));
            return true;
        }
        i = i + 1;
    }
    false
}

/// The functions the application asked to trace, and how often it asked.
pub struct Manifest {
    pub names: Vec<String>,
    pub generation: u64,
}

impl Manifest {
    pub fn new() -> (r: Manifest)
        ensures
            texts(r.names@) == Seq::<Seq<char>>::empty(),
            r.generation == 1,
    {
        let r = Manifest { names: Vec::new(), generation: 1 };
        assert(texts(r.names@) =~= Seq::empty());
        r
    }
}

/// A function name as it is registered: without surrounding white space and
/// leading backslashes.
pub open spec fn registered_name(name: Seq<char>) -> Seq<char> {
    stripped_start(trimmed(name), '\\')
}

/// The registered names once one more has been asked for. A blank name registers
/// nothing, and a known one is kept once.
pub open spec fn registered(names: Seq<Seq<char>>, name: Seq<char>) -> Seq<Seq<char>> {
    let n = registered_name(name);
    if n.len() == 0 || names.contains(n) {
        names
    } else {
        names.push(n)
    }
}

/// Register a function to trace. A new registration outdates every cached
/// policy.
pub fn trace_function(manifest: &mut Manifest, name: &str)
    ensures
        texts(final(manifest).names@) == registered(texts(old(manifest).names@), name@),
        final(manifest).generation == if registered_name(name@).len() == 0 {
            old(manifest).generation
        } else {
            old(manifest).generation.wrapping_add(1)
        },
{
    let t = trim(name);
    let n = strip_start(t.as_str(), '\\');
    if n.as_str().is_empty() {
        return ;
    }
    if !crate::text::listed(&manifest.names, n.as_str()) {
        let ghost before = texts(manifest.names@);
        let ghost nv = n@;
        manifest.names.push(n);
        assert(texts(manifest.names@) =~= before.push(nv));
    }
    manifest.generation = manifest.generation.wrapping_add(1);
}

/// Whether a function is registered, the case of its name aside.
pub open spec fn traced(names: Seq<Seq<char>>, name: Seq<char>) -> bool {
    exists|i: int| 0 <= i < names.len() && lowercase(#[trigger] names[i]) == lowercase(name)
}

/// Whether a function is registered.
pub fn is_traced(manifest: &Manifest, name: &str) -> (r: bool)
    ensures
        r == traced(texts(manifest.names@), name@),
{
    let mut i: usize = 0;
    while i < manifest.names.len()
        invariant
            i <= manifest.names@.len(),
            forall|j: int|
                0 <= j < i ==> lowercase(#[trigger] texts(manifest.names@)[j]) != lowercase(name@),
        decreases manifest.names@.len() - i,
    {
        if same_ignoring_case(manifest.names[i].as_str(), name) {
            assert(lowercase(texts(manifest.names@)[i as int]) == lowercase(name@));
            return true;
        }
        i = i + 1;
    }
    false
}

/// A function that was asked for is traced, however its name is spelled in case,
/// and what was traced before still is.
pub proof fn law_registration_is_kept(
    names: Seq<Seq<char>>,
    name: Seq<char>,
    spelling: Seq<char>,
    earlier: Seq<char>,
)
    requires
        registered_name(name).len() > 0,
        lowercase(spelling) == lowercase(registered_name(name)),
    ensures
        traced(registered(names, name), spelling),
        traced(names, earlier) ==> traced(registered(names, name), earlier),
{
    let n = registered_name(name);
    let after = registered(names, name);
    let k = if names.contains(n) {
        names.index_of(n)
    } else {
        names.len() as int
    };
    assert(after[k] == n);
    if traced(names, earlier) {
        let i = choose|i: int|
            0 <= i < names.len() && lowercase(#[trigger] names[i]) == lowercase(earlier);
        assert(after[i] == names[i]);
    }
}

/// Calls observed for what they leave behind, never for a span.
pub open spec fn side_channel(messaging_auto: bool, name: Seq<char>) -> bool {
    ||| name == "curl_setopt"@
    ||| name == "curl_setopt_array"@
    ||| sql_prepare(name)
    ||| sql_this_prepare(name)
    ||| messaging_auto && subscribe_method(name)
    ||| messaging_auto && name == PROTOBUF_SERIALIZE_METHOD@
    ||| dst_kind(name) is Some
}

/// Closures and top-level code: nothing a manifest could name.
pub open spec fn unnamed(name: Seq<char>) -> bool {
    name == "{main}"@ || begins(name, "{closure"@) || holds(name, "\\{closure"@)
}

/// What is done with a plain userland function.
pub open spec fn userland_policy(
    names: Seq<Seq<char>>,
    span_all_userland: bool,
    name: Seq<char>,
) -> Option<SpanPolicy> {
    if unnamed(name) {
        None
    } else if traced(names, name) {
        Some(SpanPolicy::ManifestSpan)
    } else if !span_all_userland {
        Some(SpanPolicy::ObserveOnly)
    } else if skipped(name) || ends(name, "::autoload"@) || ends(name, "::loadClass"@) {
        None
    } else {
        Some(SpanPolicy::UserSpan)
    }
}

/// What is done with an observed call. `None` means it is not observed at all.
pub open spec fn policy_of(
    names: Seq<Seq<char>>,
    span_all_userland: bool,
    messaging_auto: bool,
    name: Seq<char>,
    internal: bool,
) -> Option<SpanPolicy> {
    if name.len() == 0 || begins(name, "chronos_"@) {
        None
    } else if messaging_auto && publish_method(name) {
        Some(SpanPolicy::MessagingPublish)
    } else if messaging_auto && dispatch_method(name) {
        Some(SpanPolicy::MessagingDeliver)
    } else if messaging_auto && poll_method(name) {
        Some(SpanPolicy::MessagingPoll)
    } else if messaging_auto && name == MESSAGING_NATS_SEND_METHOD@ {
        Some(SpanPolicy::MessagingNatsSend)
    } else if side_channel(messaging_auto, name) {
        Some(SpanPolicy::ObserveOnly)
    } else if network(name) || sql_io(name) || cache_io(name) || messaging_auto && name
        == MESSAGING_NATS_RPC_METHOD@ {
        Some(SpanPolicy::IoSpan)
    } else if internal {
        None
    } else {
        userland_policy(names, span_all_userland, name)
    }
}

/// Decide what to do with an observed call.
pub fn observe_policy(
    manifest: &Manifest,
    settings: &ObserverSettings,
    name: &str,
    is_internal: bool,
) -> (r: Option<SpanPolicy>)
    ensures
        r == policy_of(
            texts(manifest.names@),
            settings.span_all_userland,
            settings.messaging_auto,
            name@,
            is_internal,
        ),
{
    let auto_on = settings.messaging_auto;
    if name.is_empty() || starts_with(name, "chronos_") {
        return None;
    }
    if is_messaging_publish(auto_on, name) {
        return Some(SpanPolicy::MessagingPublish);
    }
    if is_messaging_dispatch(auto_on, name) {
        return Some(SpanPolicy::MessagingDeliver);
    }
    if is_messaging_poll(auto_on, name) {
        return Some(SpanPolicy::MessagingPoll);
    }
    if is_nats_send(auto_on, name) {
        return Some(SpanPolicy::MessagingNatsSend);
    }
    if same(name, "curl_setopt") || same(name, "curl_setopt_array") || sql_prepare_method(name)
        || sql_this_prepare_method(name) || is_messaging_subscribe(auto_on, name)
        || messaging_auto_serialize_hook(auto_on, name) || dst_event_kind_for(name).is_some() {
        return Some(SpanPolicy::ObserveOnly);
    }
    if is_network_function(name) || sql_io_function(name) || cache_io_method(name)
        || is_messaging_rpc(auto_on, name) {
        return Some(SpanPolicy::IoSpan);
    }
    if is_internal {
        return None;
    }
    if same(name, "{main}") || starts_with(name, "{closure") || contains_text(
        name,
        "\\{closure",
    ) {
        return None;
    }
    if is_traced(manifest, name) {
        return Some(SpanPolicy::ManifestSpan);
    }
    if !settings.span_all_userland {
        return Some(SpanPolicy::ObserveOnly);
    }
    if is_skipped(name) || ends_with(name, "::autoload") || ends_with(name, "::loadClass") {
        return None;
    }
    Some(SpanPolicy::UserSpan)
}

/// The calls that carry a `traceparent` over the network.
pub proof fn law_network_calls(name: &str, r: bool)
    requires
        call_ensures(is_network_function, (name,), r),
    ensures
        r <==> (name@ == "curl_exec"@ ||
            name@ == "curl_multi_exec"@ ||
            name@ == "file_get_contents"@),
{
}

/// The publish calls of the messaging clients.
pub proof fn law_publish_calls(name: &str, r: bool)
    requires
        call_ensures(publish_method_name, (name,), r),
    ensures
        r <==> (name@ == "Bunny\\AbstractClient::publish"@ ||
            name@ == "RdKafka\\ProducerTopic::produce"@ ||
            name@ == "RdKafka\\ProducerTopic::producev"@ ||
            name@ == "PhpAmqpLib\\Channel\\AMQPChannel::basic_publish"@),
{
}

/// Where the messaging clients hand a delivery to the application.
pub proof fn law_delivery_calls(name: &str, r: bool)
    requires
        call_ensures(dispatch_method_name, (name,), r),
    ensures
        r <==> (name@ == "Bunny\\Channel::onBodyComplete"@ ||
            name@ == "PhpAmqpLib\\Channel\\AMQPChannel::basic_deliver"@ ||
            name@ == "Basis\\Nats\\Client::processMsg"@),
{
}

/// Where the messaging clients subscribe.
pub proof fn law_subscribe_calls(name: &str, r: bool)
    requires
        call_ensures(subscribe_method_name, (name,), r),
    ensures
        r <==> (name@ == "Bunny\\Channel::consume"@ ||
            name@ == "PhpAmqpLib\\Channel\\AMQPChannel::basic_consume"@),
{
}

/// The pull-style consume calls.
pub proof fn law_poll_calls(name: &str, r: bool)
    requires
        call_ensures(poll_method_name, (name,), r),
    ensures
        r <==> (name@ == "RdKafka\\KafkaConsumer::consume"@ ||
            name@ == "RdKafka\\ConsumerTopic::consume"@ ||
            name@ == "Basis\\Nats\\Queue::fetchAll"@),
{
}

/// The stream calls whose target decides.
pub proof fn law_stream_calls(name: &str, r: bool)
    requires
        call_ensures(is_dual_purpose_stream_function, (name,), r),
    ensures
        r <==> (name@ == "file_get_contents"@),
{
}

/// The SQL calls that are a round trip.
pub proof fn law_sql_calls(name: &str, r: bool)
    requires
        call_ensures(sql_io_function, (name,), r),
    ensures
        r <==> (name@ == "PDO::query"@ ||
            name@ == "PDO::exec"@ ||
            name@ == "PDO::prepare"@ ||
            name@ == "PDOStatement::execute"@ ||
            name@ == "mysqli::query"@ ||
            name@ == "mysqli::real_query"@ ||
            name@ == "mysqli::execute_query"@ ||
            name@ == "mysqli_query"@ ||
            name@ == "mysqli_stmt::execute"@ ||
            name@ == "SQLite3::query"@ ||
            name@ == "SQLite3::exec"@ ||
            name@ == "SQLite3::querySingle"@ ||
            name@ == "SQLite3Stmt::execute"@),
{
}

/// The prepare calls that return a statement.
pub proof fn law_prepare_calls(name: &str, r: bool)
    requires
        call_ensures(sql_prepare_method, (name,), r),
    ensures
        r <==> (name@ == "mysqli::prepare"@ ||
            name@ == "SQLite3::prepare"@ ||
            name@ == "mysqli_prepare"@),
{
}

/// The prepare calls made on a statement.
pub proof fn law_statement_prepare_calls(name: &str, r: bool)
    requires
        call_ensures(sql_this_prepare_method, (name,), r),
    ensures
        r <==> (name@ == "mysqli_stmt::prepare"@ ||
            name@ == "mysqli_stmt::__construct"@),
{
}

/// The cache methods that are no data operations.
pub proof fn law_cache_lifecycle_methods(name: &str, r: bool)
    requires
        call_ensures(lifecycle_method, (name,), r),
    ensures
        r <==> (name@ == "__construct"@ ||
            name@ == "__destruct"@ ||
            name@ == "connect"@ ||
            name@ == "pconnect"@ ||
            name@ == "open"@ ||
            name@ == "auth"@ ||
            name@ == "select"@ ||
            name@ == "close"@ ||
            name@ == "setOption"@ ||
            name@ == "getOption"@ ||
            name@ == "addServer"@ ||
            name@ == "addServers"@ ||
            name@ == "quit"@),
{
}

/// What the result of a builtin is recorded as: a clock's as time, a random
/// source's as chance, the environment's as a read, and no other's.
pub proof fn law_recorded_builtins(name: &str, r: Option<DstEventKind>)
    requires
        call_ensures(dst_event_kind_for, (name,), r),
    ensures
        r == Some(DstEventKind::Time) <==> (name@ == "time"@ ||
            name@ == "microtime"@ ||
            name@ == "hrtime"@ ||
            name@ == "date"@ ||
            name@ == "mktime"@ ||
            name@ == "gmdate"@),
        r == Some(DstEventKind::Random) <==> (name@ == "rand"@ ||
            name@ == "mt_rand"@ ||
            name@ == "random_int"@ ||
            name@ == "random_bytes"@ ||
            name@ == "uniqid"@ ||
            name@ == "mt_srand"@),
        r == Some(DstEventKind::EnvRead) <==> name@ == "getenv"@,
        r != Some(DstEventKind::Exception) && r != Some(DstEventKind::Call),
{
    reveal_strlit("time");
    reveal_strlit("microtime");
    reveal_strlit("hrtime");
    reveal_strlit("date");
    reveal_strlit("mktime");
    reveal_strlit("gmdate");
    reveal_strlit("rand");
    reveal_strlit("mt_rand");
    reveal_strlit("random_int");
    reveal_strlit("random_bytes");
    reveal_strlit("uniqid");
    reveal_strlit("mt_srand");
    reveal_strlit("getenv");
    assert("time"@.len() == 4);
    assert("microtime"@.len() == 9);
    assert("hrtime"@.len() == 6);
    assert("date"@.len() == 4);
    assert("mktime"@.len() == 6);
    assert("gmdate"@.len() == 6);
    assert("rand"@.len() == 4);
    assert("mt_rand"@.len() == 7);
    assert("random_int"@.len() == 10);
    assert("random_bytes"@.len() == 12);
    assert("uniqid"@.len() == 6);
    assert("mt_srand"@.len() == 8);
    assert("getenv"@.len() == 6);
    assert("time"@[0] != "date"@[0]);
    assert("time"@[0] != "rand"@[0]);
    assert("hrtime"@[0] != "mktime"@[0]);
    assert("hrtime"@[0] != "gmdate"@[0]);
    assert("hrtime"@[0] != "uniqid"@[0]);
    assert("hrtime"@[0] != "getenv"@[0]);
    assert("date"@[0] != "rand"@[0]);
    assert("mktime"@[0] != "gmdate"@[0]);
    assert("mktime"@[0] != "uniqid"@[0]);
    assert("mktime"@[0] != "getenv"@[0]);
    assert("gmdate"@[0] != "uniqid"@[0]);
    assert("gmdate"@[1] != "getenv"@[1]);
    assert("uniqid"@[0] != "getenv"@[0]);
}

/// Which argument of a prepare call holds the SQL: the second where the first is
/// the connection, the first elsewhere.
pub proof fn law_where_the_sql_of_a_prepare_stands(name: &str, r: usize)
    requires
        call_ensures(prepare_sql_arg_index, (name,), r),
    ensures
        name@ == "mysqli_prepare"@ || name@ == "mysqli_stmt::__construct"@ ==> r == 1,
        name@ == "mysqli::prepare"@ || name@ == "SQLite3::prepare"@ || name@
            == "mysqli_stmt::prepare"@ ==> r == 0,
{
    reveal_strlit("mysqli_prepare");
    reveal_strlit("mysqli_stmt::__construct");
    reveal_strlit("mysqli::prepare");
    reveal_strlit("SQLite3::prepare");
    reveal_strlit("mysqli_stmt::prepare");
    assert("mysqli_prepare"@.len() == 14);
    assert("mysqli_stmt::__construct"@.len() == 24);
    assert("mysqli::prepare"@.len() == 15);
    assert("SQLite3::prepare"@.len() == 16);
    assert("mysqli_stmt::prepare"@.len() == 20);
}

/// A call of a messaging client is observed only where messaging is.
pub proof fn law_messaging_can_be_switched_off(
    auto_on: bool,
    name: &str,
    publishes: bool,
    dispatches: bool,
    subscribes: bool,
    polls: bool,
    sends: bool,
    asks: bool,
    serializes: bool,
)
    requires
        call_ensures(is_messaging_publish, (auto_on, name), publishes),
        call_ensures(is_messaging_dispatch, (auto_on, name), dispatches),
        call_ensures(is_messaging_subscribe, (auto_on, name), subscribes),
        call_ensures(is_messaging_poll, (auto_on, name), polls),
        call_ensures(is_nats_send, (auto_on, name), sends),
        call_ensures(is_messaging_rpc, (auto_on, name), asks),
        call_ensures(messaging_auto_serialize_hook, (auto_on, name), serializes),
    ensures
        publishes <==> auto_on && (name@ == "Bunny\\AbstractClient::publish"@ ||
            name@ == "RdKafka\\ProducerTopic::produce"@ ||
            name@ == "RdKafka\\ProducerTopic::producev"@ ||
            name@ == "PhpAmqpLib\\Channel\\AMQPChannel::basic_publish"@),
        dispatches <==> auto_on && (name@ == "Bunny\\Channel::onBodyComplete"@ ||
            name@ == "PhpAmqpLib\\Channel\\AMQPChannel::basic_deliver"@ ||
            name@ == "Basis\\Nats\\Client::processMsg"@),
        subscribes <==> auto_on && (name@ == "Bunny\\Channel::consume"@ ||
            name@ == "PhpAmqpLib\\Channel\\AMQPChannel::basic_consume"@),
        polls <==> auto_on && (name@ == "RdKafka\\KafkaConsumer::consume"@ ||
            name@ == "RdKafka\\ConsumerTopic::consume"@ ||
            name@ == "Basis\\Nats\\Queue::fetchAll"@),
        sends <==> auto_on && name@ == "Basis\\Nats\\Connection::sendMessage"@,
        asks <==> auto_on && name@ == "Basis\\Nats\\Client::dispatch"@,
        serializes <==> auto_on && name@ == "Google\\Protobuf\\Internal\\Message::serializeToString"@,
{
}

/// A cache client's data operations: every method of the three classes but those
/// that only manage the connection.
pub proof fn law_cache_calls(name: &str, method: &str, manages: bool, r: bool)
    requires
        call_ensures(cache_io_method, (name,), r),
        call_ensures(lifecycle_method, (method,), manages),
    ensures
        name@ == "Redis::"@ + method@ || name@ == "RedisCluster::"@ + method@ || name@
            == "Memcached::"@ + method@ ==> (r <==> !manages),
        r ==> begins(name@, "Redis::"@) || begins(name@, "RedisCluster::"@) || begins(
            name@,
            "Memcached::"@,
        ),
{
    reveal_strlit("Redis::");
    reveal_strlit("RedisCluster::");
    reveal_strlit("Memcached::");
    let a = "Redis::"@;
    let b = "RedisCluster::"@;
    let c = "Memcached::"@;
    assert(a.len() == 7 && b.len() == 14 && c.len() == 11);
    if name@ == a + method@ {
        assert(name@.subrange(0, 7) =~= a);
        assert(name@.skip(7) =~= method@);
    }
    if name@ == b + method@ {
        assert(name@.subrange(0, 14) =~= b);
        assert(name@.skip(14) =~= method@);
    }
    if name@ == c + method@ {
        assert(name@.subrange(0, 11) =~= c);
        assert(name@.skip(11) =~= method@);
    }
    lemma_one_cache_class(name@);
}

proof fn lemma_one_cache_class(name: Seq<char>)
    ensures
        !(begins(name, "Redis::"@) && begins(name, "RedisCluster::"@)),
        !(begins(name, "Redis::"@) && begins(name, "Memcached::"@)),
        !(begins(name, "RedisCluster::"@) && begins(name, "Memcached::"@)),
{
    reveal_strlit("Redis::");
    reveal_strlit("RedisCluster::");
    reveal_strlit("Memcached::");
    if begins(name, "Redis::"@) {
        assert(name.subrange(0, 7)[5] == "Redis::"@[5]);
        assert(name.subrange(0, 7)[0] == "Redis::"@[0]);
    }
    if begins(name, "RedisCluster::"@) {
        assert(name.subrange(0, 14)[5] == "RedisCluster::"@[5]);
        assert(name.subrange(0, 14)[0] == "RedisCluster::"@[0]);
    }
    if begins(name, "Memcached::"@) {
        assert(name.subrange(0, 11)[0] == "Memcached::"@[0]);
    }
}

/// A text that differs from another at one place does not begin with it.
pub proof fn lemma_begins_with(s: Seq<char>, p: Seq<char>, i: int)
    requires
        0 <= i < p.len(),
        i < s.len() ==> s[i] != p[i],
    ensures
        !begins(s, p),
{
    if begins(s, p) {
        assert(s.subrange(0, p.len() as int)[i] == p[i]);
    }
}

/// Where messaging is observed, its calls go to the handlers of their client: each
/// publish, delivery, poll and send, and no other call.
pub proof fn law_messaging_calls_have_their_own_handlers(
    manifest: &Manifest,
    settings: &ObserverSettings,
    name: &str,
    is_internal: bool,
    r: Option<SpanPolicy>,
)
    requires
        call_ensures(observe_policy, (manifest, settings, name, is_internal), r),
    ensures
        r == Some(SpanPolicy::MessagingPublish) <==> settings.messaging_auto && (name@ == "Bunny\\AbstractClient::publish"@ ||
            name@ == "RdKafka\\ProducerTopic::produce"@ ||
            name@ == "RdKafka\\ProducerTopic::producev"@ ||
            name@ == "PhpAmqpLib\\Channel\\AMQPChannel::basic_publish"@),
        r == Some(SpanPolicy::MessagingDeliver) <==> settings.messaging_auto && (name@ == "Bunny\\Channel::onBodyComplete"@ ||
            name@ == "PhpAmqpLib\\Channel\\AMQPChannel::basic_deliver"@ ||
            name@ == "Basis\\Nats\\Client::processMsg"@),
        r == Some(SpanPolicy::MessagingPoll) <==> settings.messaging_auto && (name@ == "RdKafka\\KafkaConsumer::consume"@ ||
            name@ == "RdKafka\\ConsumerTopic::consume"@ ||
            name@ == "Basis\\Nats\\Queue::fetchAll"@),
        r == Some(SpanPolicy::MessagingNatsSend) <==> settings.messaging_auto && (name@ == "Basis\\Nats\\Connection::sendMessage"@),
{
    reveal_strlit("Bunny\\AbstractClient::publish");
    reveal_strlit("RdKafka\\ProducerTopic::produce");
    reveal_strlit("RdKafka\\ProducerTopic::producev");
    reveal_strlit("PhpAmqpLib\\Channel\\AMQPChannel::basic_publish");
    reveal_strlit("Bunny\\Channel::onBodyComplete");
    reveal_strlit("PhpAmqpLib\\Channel\\AMQPChannel::basic_deliver");
    reveal_strlit("Basis\\Nats\\Client::processMsg");
    reveal_strlit("RdKafka\\KafkaConsumer::consume");
    reveal_strlit("RdKafka\\ConsumerTopic::consume");
    reveal_strlit("Basis\\Nats\\Queue::fetchAll");
    reveal_strlit("Basis\\Nats\\Connection::sendMessage");
    assert("Bunny\\AbstractClient::publish"@.len() == 29);
    assert("RdKafka\\ProducerTopic::produce"@.len() == 30);
    assert("RdKafka\\ProducerTopic::producev"@.len() == 31);
    assert("PhpAmqpLib\\Channel\\AMQPChannel::basic_publish"@.len() == 45);
    assert("Bunny\\Channel::onBodyComplete"@.len() == 29);
    assert("PhpAmqpLib\\Channel\\AMQPChannel::basic_deliver"@.len() == 45);
    assert("Basis\\Nats\\Client::processMsg"@.len() == 29);
    assert("RdKafka\\KafkaConsumer::consume"@.len() == 30);
    assert("RdKafka\\ConsumerTopic::consume"@.len() == 30);
    assert("Basis\\Nats\\Queue::fetchAll"@.len() == 26);
    assert("Basis\\Nats\\Connection::sendMessage"@.len() == 34);
    assert("Bunny\\AbstractClient::publish"@[6] != "Bunny\\Channel::onBodyComplete"@[6]);
    assert("Bunny\\AbstractClient::publish"@[1] != "Basis\\Nats\\Client::processMsg"@[1]);
    assert("RdKafka\\ProducerTopic::produce"@[8] != "RdKafka\\KafkaConsumer::consume"@[8]);
    assert("RdKafka\\ProducerTopic::produce"@[8] != "RdKafka\\ConsumerTopic::consume"@[8]);
    assert("PhpAmqpLib\\Channel\\AMQPChannel::basic_publish"@[38] != "PhpAmqpLib\\Channel\\AMQPChannel::basic_deliver"@[38]);
    assert("Bunny\\Channel::onBodyComplete"@[1] != "Basis\\Nats\\Client::processMsg"@[1]);
    assert("RdKafka\\KafkaConsumer::consume"@[8] != "RdKafka\\ConsumerTopic::consume"@[8]);
    reveal_strlit("chronos_");
    lemma_begins_with("Bunny\\AbstractClient::publish"@, "chronos_"@, 0);
    lemma_begins_with("RdKafka\\ProducerTopic::produce"@, "chronos_"@, 0);
    lemma_begins_with("RdKafka\\ProducerTopic::producev"@, "chronos_"@, 0);
    lemma_begins_with("PhpAmqpLib\\Channel\\AMQPChannel::basic_publish"@, "chronos_"@, 0);
    lemma_begins_with("Bunny\\Channel::onBodyComplete"@, "chronos_"@, 0);
    lemma_begins_with("PhpAmqpLib\\Channel\\AMQPChannel::basic_deliver"@, "chronos_"@, 0);
    lemma_begins_with("Basis\\Nats\\Client::processMsg"@, "chronos_"@, 0);
    lemma_begins_with("RdKafka\\KafkaConsumer::consume"@, "chronos_"@, 0);
    lemma_begins_with("RdKafka\\ConsumerTopic::consume"@, "chronos_"@, 0);
    lemma_begins_with("Basis\\Nats\\Queue::fetchAll"@, "chronos_"@, 0);
    lemma_begins_with("Basis\\Nats\\Connection::sendMessage"@, "chronos_"@, 0);
}

/// A call over the network, an SQL round trip, a cache data operation, and where
/// messaging is observed a request over NATS, is an I/O span, and no other call
/// is, whoever asks for what.
pub proof fn law_io_calls_become_spans(
    manifest: &Manifest,
    settings: &ObserverSettings,
    name: &str,
    is_internal: bool,
    r: Option<SpanPolicy>,
)
    requires
        call_ensures(observe_policy, (manifest, settings, name, is_internal), r),
    ensures
        (name@ == "curl_exec"@ ||
            name@ == "curl_multi_exec"@ ||
            name@ == "file_get_contents"@ ||
            name@ == "PDO::query"@ ||
            name@ == "PDO::exec"@ ||
            name@ == "PDO::prepare"@ ||
            name@ == "PDOStatement::execute"@ ||
            name@ == "mysqli::query"@ ||
            name@ == "mysqli::real_query"@ ||
            name@ == "mysqli::execute_query"@ ||
            name@ == "mysqli_query"@ ||
            name@ == "mysqli_stmt::execute"@ ||
            name@ == "SQLite3::query"@ ||
            name@ == "SQLite3::exec"@ ||
            name@ == "SQLite3::querySingle"@ ||
            name@ == "SQLite3Stmt::execute"@) ==> r == Some(SpanPolicy::IoSpan),
        settings.messaging_auto && name@ == "Basis\\Nats\\Client::dispatch"@ ==> r == Some(SpanPolicy::IoSpan),
        r == Some(SpanPolicy::IoSpan) ==> ((name@ == "curl_exec"@ ||
            name@ == "curl_multi_exec"@ ||
            name@ == "file_get_contents"@ ||
            name@ == "PDO::query"@ ||
            name@ == "PDO::exec"@ ||
            name@ == "PDO::prepare"@ ||
            name@ == "PDOStatement::execute"@ ||
            name@ == "mysqli::query"@ ||
            name@ == "mysqli::real_query"@ ||
            name@ == "mysqli::execute_query"@ ||
            name@ == "mysqli_query"@ ||
            name@ == "mysqli_stmt::execute"@ ||
            name@ == "SQLite3::query"@ ||
            name@ == "SQLite3::exec"@ ||
            name@ == "SQLite3::querySingle"@ ||
            name@ == "SQLite3Stmt::execute"@)) || settings.messaging_auto && name@ == "Basis\\Nats\\Client::dispatch"@ || cache_io(name@),
        cache_io(name@) ==> r == Some(SpanPolicy::IoSpan),
{
    reveal_strlit("Bunny\\AbstractClient::publish");
    reveal_strlit("RdKafka\\ProducerTopic::produce");
    reveal_strlit("RdKafka\\ProducerTopic::producev");
    reveal_strlit("PhpAmqpLib\\Channel\\AMQPChannel::basic_publish");
    reveal_strlit("Bunny\\Channel::onBodyComplete");
    reveal_strlit("PhpAmqpLib\\Channel\\AMQPChannel::basic_deliver");
    reveal_strlit("Basis\\Nats\\Client::processMsg");
    reveal_strlit("RdKafka\\KafkaConsumer::consume");
    reveal_strlit("RdKafka\\ConsumerTopic::consume");
    reveal_strlit("Basis\\Nats\\Queue::fetchAll");
    reveal_strlit("Basis\\Nats\\Connection::sendMessage");
    reveal_strlit("curl_setopt");
    reveal_strlit("curl_setopt_array");
    reveal_strlit("mysqli::prepare");
    reveal_strlit("SQLite3::prepare");
    reveal_strlit("mysqli_prepare");
    reveal_strlit("mysqli_stmt::prepare");
    reveal_strlit("mysqli_stmt::__construct");
    reveal_strlit("Bunny\\Channel::consume");
    reveal_strlit("PhpAmqpLib\\Channel\\AMQPChannel::basic_consume");
    reveal_strlit("Google\\Protobuf\\Internal\\Message::serializeToString");
    reveal_strlit("time");
    reveal_strlit("microtime");
    reveal_strlit("hrtime");
    reveal_strlit("date");
    reveal_strlit("mktime");
    reveal_strlit("gmdate");
    reveal_strlit("rand");
    reveal_strlit("mt_rand");
    reveal_strlit("random_int");
    reveal_strlit("random_bytes");
    reveal_strlit("uniqid");
    reveal_strlit("mt_srand");
    reveal_strlit("getenv");
    reveal_strlit("curl_exec");
    reveal_strlit("curl_multi_exec");
    reveal_strlit("file_get_contents");
    reveal_strlit("PDO::query");
    reveal_strlit("PDO::exec");
    reveal_strlit("PDO::prepare");
    reveal_strlit("PDOStatement::execute");
    reveal_strlit("mysqli::query");
    reveal_strlit("mysqli::real_query");
    reveal_strlit("mysqli::execute_query");
    reveal_strlit("mysqli_query");
    reveal_strlit("mysqli_stmt::execute");
    reveal_strlit("SQLite3::query");
    reveal_strlit("SQLite3::exec");
    reveal_strlit("SQLite3::querySingle");
    reveal_strlit("SQLite3Stmt::execute");
    reveal_strlit("Basis\\Nats\\Client::dispatch");
    assert("Bunny\\AbstractClient::publish"@.len() == 29);
    assert("RdKafka\\ProducerTopic::produce"@.len() == 30);
    assert("RdKafka\\ProducerTopic::producev"@.len() == 31);
    assert("PhpAmqpLib\\Channel\\AMQPChannel::basic_publish"@.len() == 45);
    assert("Bunny\\Channel::onBodyComplete"@.len() == 29);
    assert("PhpAmqpLib\\Channel\\AMQPChannel::basic_deliver"@.len() == 45);
    assert("Basis\\Nats\\Client::processMsg"@.len() == 29);
    assert("RdKafka\\KafkaConsumer::consume"@.len() == 30);
    assert("RdKafka\\ConsumerTopic::consume"@.len() == 30);
    assert("Basis\\Nats\\Queue::fetchAll"@.len() == 26);
    assert("Basis\\Nats\\Connection::sendMessage"@.len() == 34);
    assert("curl_setopt"@.len() == 11);
    assert("curl_setopt_array"@.len() == 17);
    assert("mysqli::prepare"@.len() == 15);
    assert("SQLite3::prepare"@.len() == 16);
    assert("mysqli_prepare"@.len() == 14);
    assert("mysqli_stmt::prepare"@.len() == 20);
    assert("mysqli_stmt::__construct"@.len() == 24);
    assert("Bunny\\Channel::consume"@.len() == 22);
    assert("PhpAmqpLib\\Channel\\AMQPChannel::basic_consume"@.len() == 45);
    assert("Google\\Protobuf\\Internal\\Message::serializeToString"@.len() == 51);
    assert("time"@.len() == 4);
    assert("microtime"@.len() == 9);
    assert("hrtime"@.len() == 6);
    assert("date"@.len() == 4);
    assert("mktime"@.len() == 6);
    assert("gmdate"@.len() == 6);
    assert("rand"@.len() == 4);
    assert("mt_rand"@.len() == 7);
    assert("random_int"@.len() == 10);
    assert("random_bytes"@.len() == 12);
    assert("uniqid"@.len() == 6);
    assert("mt_srand"@.len() == 8);
    assert("getenv"@.len() == 6);
    assert("curl_exec"@.len() == 9);
    assert("curl_multi_exec"@.len() == 15);
    assert("file_get_contents"@.len() == 17);
    assert("PDO::query"@.len() == 10);
    assert("PDO::exec"@.len() == 9);
    assert("PDO::prepare"@.len() == 12);
    assert("PDOStatement::execute"@.len() == 21);
    assert("mysqli::query"@.len() == 13);
    assert("mysqli::real_query"@.len() == 18);
    assert("mysqli::execute_query"@.len() == 21);
    assert("mysqli_query"@.len() == 12);
    assert("mysqli_stmt::execute"@.len() == 20);
    assert("SQLite3::query"@.len() == 14);
    assert("SQLite3::exec"@.len() == 13);
    assert("SQLite3::querySingle"@.len() == 20);
    assert("SQLite3Stmt::execute"@.len() == 20);
    assert("Basis\\Nats\\Client::dispatch"@.len() == 27);
    assert("Bunny\\AbstractClient::publish"@[6] != "Bunny\\Channel::onBodyComplete"@[6]);
    assert("Bunny\\AbstractClient::publish"@[1] != "Basis\\Nats\\Client::processMsg"@[1]);
    assert("RdKafka\\ProducerTopic::produce"@[8] != "RdKafka\\KafkaConsumer::consume"@[8]);
    assert("RdKafka\\ProducerTopic::produce"@[8] != "RdKafka\\ConsumerTopic::consume"@[8]);
    assert("PhpAmqpLib\\Channel\\AMQPChannel::basic_publish"@[38] != "PhpAmqpLib\\Channel\\AMQPChannel::basic_deliver"@[38]);
    assert("PhpAmqpLib\\Channel\\AMQPChannel::basic_publish"@[38] != "PhpAmqpLib\\Channel\\AMQPChannel::basic_consume"@[38]);
    assert("Bunny\\Channel::onBodyComplete"@[1] != "Basis\\Nats\\Client::processMsg"@[1]);
    assert("PhpAmqpLib\\Channel\\AMQPChannel::basic_deliver"@[38] != "PhpAmqpLib\\Channel\\AMQPChannel::basic_consume"@[38]);
    assert("RdKafka\\KafkaConsumer::consume"@[8] != "RdKafka\\ConsumerTopic::consume"@[8]);
    assert("curl_setopt_array"@[0] != "file_get_contents"@[0]);
    assert("mysqli::prepare"@[0] != "curl_multi_exec"@[0]);
    assert("mysqli_prepare"@[0] != "SQLite3::query"@[0]);
    assert("mysqli_stmt::prepare"@[13] != "mysqli_stmt::execute"@[13]);
    assert("mysqli_stmt::prepare"@[0] != "SQLite3::querySingle"@[0]);
    assert("mysqli_stmt::prepare"@[0] != "SQLite3Stmt::execute"@[0]);
    assert("time"@[0] != "date"@[0]);
    assert("time"@[0] != "rand"@[0]);
    assert("microtime"@[0] != "curl_exec"@[0]);
    assert("microtime"@[0] != "PDO::exec"@[0]);
    assert("hrtime"@[0] != "mktime"@[0]);
    assert("hrtime"@[0] != "gmdate"@[0]);
    assert("hrtime"@[0] != "uniqid"@[0]);
    assert("hrtime"@[0] != "getenv"@[0]);
    assert("date"@[0] != "rand"@[0]);
    assert("mktime"@[0] != "gmdate"@[0]);
    assert("mktime"@[0] != "uniqid"@[0]);
    assert("mktime"@[0] != "getenv"@[0]);
    assert("gmdate"@[0] != "uniqid"@[0]);
    assert("gmdate"@[1] != "getenv"@[1]);
    assert("random_int"@[0] != "PDO::query"@[0]);
    assert("random_bytes"@[0] != "PDO::prepare"@[0]);
    assert("random_bytes"@[0] != "mysqli_query"@[0]);
    assert("uniqid"@[0] != "getenv"@[0]);
    assert("curl_exec"@[0] != "PDO::exec"@[0]);
    assert("PDO::prepare"@[0] != "mysqli_query"@[0]);
    assert("PDOStatement::execute"@[0] != "mysqli::execute_query"@[0]);
    assert("mysqli::query"@[0] != "SQLite3::exec"@[0]);
    assert("mysqli_stmt::execute"@[0] != "SQLite3::querySingle"@[0]);
    assert("mysqli_stmt::execute"@[0] != "SQLite3Stmt::execute"@[0]);
    assert("SQLite3::querySingle"@[7] != "SQLite3Stmt::execute"@[7]);
    reveal_strlit("chronos_");
    lemma_begins_with("curl_exec"@, "chronos_"@, 1);
    lemma_begins_with("curl_multi_exec"@, "chronos_"@, 1);
    lemma_begins_with("file_get_contents"@, "chronos_"@, 0);
    lemma_begins_with("PDO::query"@, "chronos_"@, 0);
    lemma_begins_with("PDO::exec"@, "chronos_"@, 0);
    lemma_begins_with("PDO::prepare"@, "chronos_"@, 0);
    lemma_begins_with("PDOStatement::execute"@, "chronos_"@, 0);
    lemma_begins_with("mysqli::query"@, "chronos_"@, 0);
    lemma_begins_with("mysqli::real_query"@, "chronos_"@, 0);
    lemma_begins_with("mysqli::execute_query"@, "chronos_"@, 0);
    lemma_begins_with("mysqli_query"@, "chronos_"@, 0);
    lemma_begins_with("mysqli_stmt::execute"@, "chronos_"@, 0);
    lemma_begins_with("SQLite3::query"@, "chronos_"@, 0);
    lemma_begins_with("SQLite3::exec"@, "chronos_"@, 0);
    lemma_begins_with("SQLite3::querySingle"@, "chronos_"@, 0);
    lemma_begins_with("SQLite3Stmt::execute"@, "chronos_"@, 0);
    lemma_begins_with("Basis\\Nats\\Client::dispatch"@, "chronos_"@, 0);
    if cache_io(name@) {
        lemma_cache_names(name@);
    }
}

proof fn lemma_cache_names(name: Seq<char>)
    requires
        cache_io(name),
    ensures
        name.len() > 6,
        name[0] == 'R' || name[0] == 'M',
        name[1] == 'e',
        !begins(name, "chronos_"@),
{
    reveal_strlit("Redis::");
    reveal_strlit("RedisCluster::");
    reveal_strlit("Memcached::");
    reveal_strlit("chronos_");
    if begins(name, "Redis::"@) {
        assert(name.subrange(0, 7)[0] == "Redis::"@[0]);
        assert(name.subrange(0, 7)[1] == "Redis::"@[1]);
    }
    if begins(name, "RedisCluster::"@) {
        assert(name.subrange(0, 14)[0] == "RedisCluster::"@[0]);
        assert(name.subrange(0, 14)[1] == "RedisCluster::"@[1]);
    }
    if begins(name, "Memcached::"@) {
        assert(name.subrange(0, 11)[0] == "Memcached::"@[0]);
        assert(name.subrange(0, 11)[1] == "Memcached::"@[1]);
    }
    lemma_begins_with(name, "chronos_"@, 0);
}

/// What only sets something up for later calls is observed without a span: curl
/// options, prepared statements, clocks, chance and the environment, and where
/// messaging is observed subscriptions and serialized messages.
pub proof fn law_side_channels_are_observed_only(
    manifest: &Manifest,
    settings: &ObserverSettings,
    name: &str,
    is_internal: bool,
    r: Option<SpanPolicy>,
)
    requires
        call_ensures(observe_policy, (manifest, settings, name, is_internal), r),
    ensures
        (name@ == "curl_setopt"@ ||
            name@ == "curl_setopt_array"@ ||
            name@ == "mysqli::prepare"@ ||
            name@ == "SQLite3::prepare"@ ||
            name@ == "mysqli_prepare"@ ||
            name@ == "mysqli_stmt::prepare"@ ||
            name@ == "mysqli_stmt::__construct"@ ||
            name@ == "time"@ ||
            name@ == "microtime"@ ||
            name@ == "hrtime"@ ||
            name@ == "date"@ ||
            name@ == "mktime"@ ||
            name@ == "gmdate"@ ||
            name@ == "rand"@ ||
            name@ == "mt_rand"@ ||
            name@ == "random_int"@ ||
            name@ == "random_bytes"@ ||
            name@ == "uniqid"@ ||
            name@ == "mt_srand"@ ||
            name@ == "getenv"@) ==> r == Some(SpanPolicy::ObserveOnly),
        settings.messaging_auto && (name@ == "Bunny\\Channel::consume"@ ||
            name@ == "PhpAmqpLib\\Channel\\AMQPChannel::basic_consume"@ ||
            name@ == "Google\\Protobuf\\Internal\\Message::serializeToString"@) ==> r == Some(SpanPolicy::ObserveOnly),
{
    reveal_strlit("Bunny\\AbstractClient::publish");
    reveal_strlit("RdKafka\\ProducerTopic::produce");
    reveal_strlit("RdKafka\\ProducerTopic::producev");
    reveal_strlit("PhpAmqpLib\\Channel\\AMQPChannel::basic_publish");
    reveal_strlit("Bunny\\Channel::onBodyComplete");
    reveal_strlit("PhpAmqpLib\\Channel\\AMQPChannel::basic_deliver");
    reveal_strlit("Basis\\Nats\\Client::processMsg");
    reveal_strlit("RdKafka\\KafkaConsumer::consume");
    reveal_strlit("RdKafka\\ConsumerTopic::consume");
    reveal_strlit("Basis\\Nats\\Queue::fetchAll");
    reveal_strlit("Basis\\Nats\\Connection::sendMessage");
    reveal_strlit("curl_setopt");
    reveal_strlit("curl_setopt_array");
    reveal_strlit("mysqli::prepare");
    reveal_strlit("SQLite3::prepare");
    reveal_strlit("mysqli_prepare");
    reveal_strlit("mysqli_stmt::prepare");
    reveal_strlit("mysqli_stmt::__construct");
    reveal_strlit("Bunny\\Channel::consume");
    reveal_strlit("PhpAmqpLib\\Channel\\AMQPChannel::basic_consume");
    reveal_strlit("Google\\Protobuf\\Internal\\Message::serializeToString");
    reveal_strlit("time");
    reveal_strlit("microtime");
    reveal_strlit("hrtime");
    reveal_strlit("date");
    reveal_strlit("mktime");
    reveal_strlit("gmdate");
    reveal_strlit("rand");
    reveal_strlit("mt_rand");
    reveal_strlit("random_int");
    reveal_strlit("random_bytes");
    reveal_strlit("uniqid");
    reveal_strlit("mt_srand");
    reveal_strlit("getenv");
    assert("Bunny\\AbstractClient::publish"@.len() == 29);
    assert("RdKafka\\ProducerTopic::produce"@.len() == 30);
    assert("RdKafka\\ProducerTopic::producev"@.len() == 31);
    assert("PhpAmqpLib\\Channel\\AMQPChannel::basic_publish"@.len() == 45);
    assert("Bunny\\Channel::onBodyComplete"@.len() == 29);
    assert("PhpAmqpLib\\Channel\\AMQPChannel::basic_deliver"@.len() == 45);
    assert("Basis\\Nats\\Client::processMsg"@.len() == 29);
    assert("RdKafka\\KafkaConsumer::consume"@.len() == 30);
    assert("RdKafka\\ConsumerTopic::consume"@.len() == 30);
    assert("Basis\\Nats\\Queue::fetchAll"@.len() == 26);
    assert("Basis\\Nats\\Connection::sendMessage"@.len() == 34);
    assert("curl_setopt"@.len() == 11);
    assert("curl_setopt_array"@.len() == 17);
    assert("mysqli::prepare"@.len() == 15);
    assert("SQLite3::prepare"@.len() == 16);
    assert("mysqli_prepare"@.len() == 14);
    assert("mysqli_stmt::prepare"@.len() == 20);
    assert("mysqli_stmt::__construct"@.len() == 24);
    assert("Bunny\\Channel::consume"@.len() == 22);
    assert("PhpAmqpLib\\Channel\\AMQPChannel::basic_consume"@.len() == 45);
    assert("Google\\Protobuf\\Internal\\Message::serializeToString"@.len() == 51);
    assert("time"@.len() == 4);
    assert("microtime"@.len() == 9);
    assert("hrtime"@.len() == 6);
    assert("date"@.len() == 4);
    assert("mktime"@.len() == 6);
    assert("gmdate"@.len() == 6);
    assert("rand"@.len() == 4);
    assert("mt_rand"@.len() == 7);
    assert("random_int"@.len() == 10);
    assert("random_bytes"@.len() == 12);
    assert("uniqid"@.len() == 6);
    assert("mt_srand"@.len() == 8);
    assert("getenv"@.len() == 6);
    assert("Bunny\\AbstractClient::publish"@[6] != "Bunny\\Channel::onBodyComplete"@[6]);
    assert("Bunny\\AbstractClient::publish"@[1] != "Basis\\Nats\\Client::processMsg"@[1]);
    assert("RdKafka\\ProducerTopic::produce"@[8] != "RdKafka\\KafkaConsumer::consume"@[8]);
    assert("RdKafka\\ProducerTopic::produce"@[8] != "RdKafka\\ConsumerTopic::consume"@[8]);
    assert("PhpAmqpLib\\Channel\\AMQPChannel::basic_publish"@[38] != "PhpAmqpLib\\Channel\\AMQPChannel::basic_deliver"@[38]);
    assert("PhpAmqpLib\\Channel\\AMQPChannel::basic_publish"@[38] != "PhpAmqpLib\\Channel\\AMQPChannel::basic_consume"@[38]);
    assert("Bunny\\Channel::onBodyComplete"@[1] != "Basis\\Nats\\Client::processMsg"@[1]);
    assert("PhpAmqpLib\\Channel\\AMQPChannel::basic_deliver"@[38] != "PhpAmqpLib\\Channel\\AMQPChannel::basic_consume"@[38]);
    assert("RdKafka\\KafkaConsumer::consume"@[8] != "RdKafka\\ConsumerTopic::consume"@[8]);
    assert("time"@[0] != "date"@[0]);
    assert("time"@[0] != "rand"@[0]);
    assert("hrtime"@[0] != "mktime"@[0]);
    assert("hrtime"@[0] != "gmdate"@[0]);
    assert("hrtime"@[0] != "uniqid"@[0]);
    assert("hrtime"@[0] != "getenv"@[0]);
    assert("date"@[0] != "rand"@[0]);
    assert("mktime"@[0] != "gmdate"@[0]);
    assert("mktime"@[0] != "uniqid"@[0]);
    assert("mktime"@[0] != "getenv"@[0]);
    assert("gmdate"@[0] != "uniqid"@[0]);
    assert("gmdate"@[1] != "getenv"@[1]);
    assert("uniqid"@[0] != "getenv"@[0]);
    reveal_strlit("chronos_");
    lemma_begins_with("curl_setopt"@, "chronos_"@, 1);
    lemma_begins_with("curl_setopt_array"@, "chronos_"@, 1);
    lemma_begins_with("mysqli::prepare"@, "chronos_"@, 0);
    lemma_begins_with("SQLite3::prepare"@, "chronos_"@, 0);
    lemma_begins_with("mysqli_prepare"@, "chronos_"@, 0);
    lemma_begins_with("mysqli_stmt::prepare"@, "chronos_"@, 0);
    lemma_begins_with("mysqli_stmt::__construct"@, "chronos_"@, 0);
    lemma_begins_with("Bunny\\Channel::consume"@, "chronos_"@, 0);
    lemma_begins_with("PhpAmqpLib\\Channel\\AMQPChannel::basic_consume"@, "chronos_"@, 0);
    lemma_begins_with("Google\\Protobuf\\Internal\\Message::serializeToString"@, "chronos_"@, 0);
    lemma_begins_with("time"@, "chronos_"@, 0);
    lemma_begins_with("microtime"@, "chronos_"@, 0);
    lemma_begins_with("hrtime"@, "chronos_"@, 0);
    lemma_begins_with("date"@, "chronos_"@, 0);
    lemma_begins_with("mktime"@, "chronos_"@, 0);
    lemma_begins_with("gmdate"@, "chronos_"@, 0);
    lemma_begins_with("rand"@, "chronos_"@, 0);
    lemma_begins_with("mt_rand"@, "chronos_"@, 0);
    lemma_begins_with("random_int"@, "chronos_"@, 0);
    lemma_begins_with("random_bytes"@, "chronos_"@, 0);
    lemma_begins_with("uniqid"@, "chronos_"@, 0);
    lemma_begins_with("mt_srand"@, "chronos_"@, 0);
    lemma_begins_with("getenv"@, "chronos_"@, 0);
}

/// A function the application asked to trace is a span; any other userland function
/// is observed only, unless every userland call is to be spanned. The collector
/// itself, nameless code, and other internal functions are not observed at all.
pub proof fn law_userland_calls(
    manifest: &Manifest,
    settings: &ObserverSettings,
    name: &str,
    is_internal: bool,
    r: Option<SpanPolicy>,
)
    requires
        call_ensures(observe_policy, (manifest, settings, name, is_internal), r),
    ensures
        name@.len() == 0 || begins(name@, "chronos_"@) ==> r is None,
        ({
            let known = (name@ == "Bunny\\AbstractClient::publish"@ ||
                name@ == "RdKafka\\ProducerTopic::produce"@ ||
                name@ == "RdKafka\\ProducerTopic::producev"@ ||
                name@ == "PhpAmqpLib\\Channel\\AMQPChannel::basic_publish"@ ||
                name@ == "Bunny\\Channel::onBodyComplete"@ ||
                name@ == "PhpAmqpLib\\Channel\\AMQPChannel::basic_deliver"@ ||
                name@ == "Basis\\Nats\\Client::processMsg"@ ||
                name@ == "RdKafka\\KafkaConsumer::consume"@ ||
                name@ == "RdKafka\\ConsumerTopic::consume"@ ||
                name@ == "Basis\\Nats\\Queue::fetchAll"@ ||
                name@ == "Basis\\Nats\\Connection::sendMessage"@ ||
                name@ == "curl_setopt"@ ||
                name@ == "curl_setopt_array"@ ||
                name@ == "mysqli::prepare"@ ||
                name@ == "SQLite3::prepare"@ ||
                name@ == "mysqli_prepare"@ ||
                name@ == "mysqli_stmt::prepare"@ ||
                name@ == "mysqli_stmt::__construct"@ ||
                name@ == "Bunny\\Channel::consume"@ ||
                name@ == "PhpAmqpLib\\Channel\\AMQPChannel::basic_consume"@ ||
                name@ == "Google\\Protobuf\\Internal\\Message::serializeToString"@ ||
                name@ == "time"@ ||
                name@ == "microtime"@ ||
                name@ == "hrtime"@ ||
                name@ == "date"@ ||
                name@ == "mktime"@ ||
                name@ == "gmdate"@ ||
                name@ == "rand"@ ||
                name@ == "mt_rand"@ ||
                name@ == "random_int"@ ||
                name@ == "random_bytes"@ ||
                name@ == "uniqid"@ ||
                name@ == "mt_srand"@ ||
                name@ == "getenv"@ ||
                name@ == "curl_exec"@ ||
                name@ == "curl_multi_exec"@ ||
                name@ == "file_get_contents"@ ||
                name@ == "PDO::query"@ ||
                name@ == "PDO::exec"@ ||
                name@ == "PDO::prepare"@ ||
                name@ == "PDOStatement::execute"@ ||
                name@ == "mysqli::query"@ ||
                name@ == "mysqli::real_query"@ ||
                name@ == "mysqli::execute_query"@ ||
                name@ == "mysqli_query"@ ||
                name@ == "mysqli_stmt::execute"@ ||
                name@ == "SQLite3::query"@ ||
                name@ == "SQLite3::exec"@ ||
                name@ == "SQLite3::querySingle"@ ||
                name@ == "SQLite3Stmt::execute"@ ||
                name@ == "Basis\\Nats\\Client::dispatch"@);
            let own = name@.len() == 0 || begins(name@, "chronos_"@) || known || cache_io(name@);
            let nameless = name@ == "{main}"@ || begins(name@, "{closure"@) || holds(
                name@,
                "\\{closure"@,
            );
            let asked = exists|i: int|
                0 <= i < manifest.names@.len() && lowercase((#[trigger] manifest.names@[i])@)
                    == lowercase(name@);
            &&& !own && is_internal ==> r is None
            &&& !own && !is_internal && nameless ==> r is None
            &&& !own && !is_internal && !nameless && asked ==> r == Some(SpanPolicy::ManifestSpan)
            &&& !own && !is_internal && !nameless && !asked && !settings.span_all_userland ==> r
                == Some(SpanPolicy::ObserveOnly)
            &&& !own && !is_internal && !nameless && !asked && settings.span_all_userland ==> (r
                is None <==> infrastructure(name@))
            &&& !own && !is_internal && !nameless && !asked && settings.span_all_userland
                && !infrastructure(name@) ==> r == Some(SpanPolicy::UserSpan)
            &&& r == Some(SpanPolicy::ManifestSpan) ==> asked && !is_internal && !nameless
            &&& r == Some(SpanPolicy::UserSpan) ==> settings.span_all_userland && !is_internal
                && !nameless && !asked
        }),
{
    let asked = exists|i: int|
        0 <= i < manifest.names@.len() && lowercase((#[trigger] manifest.names@[i])@)
            == lowercase(name@);
    if asked {
        let i = choose|i: int|
            0 <= i < manifest.names@.len() && lowercase((#[trigger] manifest.names@[i])@)
                == lowercase(name@);
        assert(lowercase(texts(manifest.names@)[i]) == lowercase(name@));
    }
    if traced(texts(manifest.names@), name@) {
        let i = choose|i: int|
            0 <= i < texts(manifest.names@).len() && lowercase(#[trigger] texts(manifest.names@)[i])
                == lowercase(name@);
        assert(lowercase(manifest.names@[i]@) == lowercase(name@));
    }
}

/// Code that is infrastructure by its name.
pub open spec fn infrastructure(name: Seq<char>) -> bool {
    ||| begins(name, "Composer\\Autoload\\"@)
    ||| begins(name, "Chronos\\Collector\\"@)
    ||| begins(name, "sfAutoload::"@)
    ||| begins(name, "sfCoreAutoload::"@)
    ||| begins(name, "sfSimpleAutoload::"@)
    ||| begins(name, "Illuminate\\Container\\"@)
    ||| begins(name, "Illuminate\\Support\\"@)
    ||| begins(name, "Illuminate\\Events\\"@)
    ||| begins(name, "Illuminate\\Pipeline\\Pipeline::carry"@)
    ||| begins(name, "Illuminate\\Foundation\\Application::isDeferredService"@)
    ||| begins(name, "Illuminate\\Foundation\\Application::bound"@)
    ||| ends(name, "::autoload"@)
    ||| ends(name, "::loadClass"@)
}

/// A stream target is remote when it begins with one of six schemes, whatever the
/// letter case and however much white space stands before it.
pub proof fn law_remote_targets(
    target: &str,
    start: String,
    from: &str,
    low: String,
    r: bool,
)
    requires
        call_ensures(is_remote_stream_target, (target,), r),
        call_ensures(trim_start, (target,), start),
        from@ == start@,
        call_ensures(crate::text::to_lowercase, (from,), low),
    ensures
        r <==> (begins(low@, "http://"@) || begins(low@, "https://"@) || begins(low@, "ftp://"@)
            || begins(low@, "ftps://"@) || begins(low@, "sftp://"@) || begins(low@, "ssh2."@)),
{
}

/// A file is excluded when it is known and one of the fragments stands in it.
pub proof fn law_excluded_files(file: &str, excluded: &[String], r: bool)
    requires
        call_ensures(is_excluded_path, (file, excluded), r),
    ensures
        r <==> file@.len() > 0 && exists|i: int|
            0 <= i < excluded@.len() && holds(file@, (#[trigger] excluded@[i])@),
{
    if exists|i: int| 0 <= i < excluded@.len() && holds(file@, (#[trigger] excluded@[i])@) {
        let i = choose|i: int| 0 <= i < excluded@.len() && holds(file@, (#[trigger] excluded@[i])@);
        assert(holds(file@, texts(excluded@)[i]));
    }
    if path_excluded(file@, texts(excluded@)) {
        let i = choose|i: int|
            0 <= i < texts(excluded@).len() && holds(file@, #[trigger] texts(excluded@)[i]);
        assert(holds(file@, excluded@[i]@));
    }
}

proof fn lemma_unblank_holds(pieces: Seq<Seq<char>>, p: Seq<char>)
    ensures
        unblank(pieces).contains(p) <==> p.len() > 0 && exists|i: int|
            0 <= i < pieces.len() && trimmed(#[trigger] pieces[i]) == p,
    decreases pieces.len(),
{
    if pieces.len() > 0 {
        let init = pieces.drop_last();
        let before = unblank(init);
        let t = trimmed(pieces.last());
        lemma_unblank_holds(init, p);
        if before.contains(p) {
            let i = choose|i: int| 0 <= i < init.len() && trimmed(#[trigger] init[i]) == p;
            assert(trimmed(pieces[i]) == p);
            let k = before.index_of(p);
            assert(unblank(pieces)[k] == p);
        }
        if p.len() > 0 && t == p {
            assert(unblank(pieces)[before.len() as int] == p);
            assert(trimmed(pieces[pieces.len() - 1]) == p);
        }
        if unblank(pieces).contains(p) && !before.contains(p) {
            let k = unblank(pieces).index_of(p);
            if k < before.len() {
                assert(before[k] == p);
            }
            assert(trimmed(pieces[pieces.len() - 1]) == p);
        }
        if p.len() > 0 && exists|i: int| 0 <= i < pieces.len() && trimmed(#[trigger] pieces[i]) == p {
            let i = choose|i: int| 0 <= i < pieces.len() && trimmed(#[trigger] pieces[i]) == p;
            if i < init.len() {
                assert(trimmed(init[i]) == p);
            }
        }
    }
}

/// The fragments of a list are its comma-separated pieces without the white space
/// around them, the blank ones left out; without a setting they are those of
/// dependencies, caches and version control.
pub proof fn law_excluded_fragments(
    list: &str,
    pieces: Vec<String>,
    r: Vec<String>,
    defaults: Vec<String>,
    p: Seq<char>,
)
    requires
        call_ensures(parse_excluded_paths, (list,), r),
        call_ensures(split_on, (list, ','), pieces),
        call_ensures(default_excluded_paths, (), defaults),
    ensures
        texts(r@).contains(p) <==> (p.len() > 0 && (exists|i: int|
            0 <= i < pieces@.len() && trimmed((#[trigger] pieces@[i])@) == p)),
        defaults@.len() == 4,
        defaults@[0]@ == "/vendor/"@ && defaults@[1]@ == "/node_modules/"@,
        defaults@[2]@ == "/cache/"@ && defaults@[3]@ == "/.git/"@,
{
    lemma_unblank_holds(texts(pieces@), p);
    let out = texts(r@);
    assert(texts(defaults@).len() == defaults@.len());
    assert(texts(defaults@)[0] == defaults@[0]@);
    assert(texts(defaults@)[1] == defaults@[1]@);
    assert(texts(defaults@)[2] == defaults@[2]@);
    assert(texts(defaults@)[3] == defaults@[3]@);
    if out.contains(p) {
        let i = choose|i: int| 0 <= i < texts(pieces@).len() && trimmed(#[trigger] texts(pieces@)[i]) == p;
        assert(trimmed(pieces@[i]@) == p);
    }
    if p.len() > 0 && exists|i: int| 0 <= i < pieces@.len() && trimmed((#[trigger] pieces@[i])@) == p {
        let i = choose|i: int| 0 <= i < pieces@.len() && trimmed((#[trigger] pieces@[i])@) == p;
        assert(trimmed(texts(pieces@)[i]) == p);
    }
}

/// The shortest span worth keeping is what the setting says in microseconds, or a
/// hundred of them.
pub proof fn law_the_shortest_span(
    value: Option<&str>,
    written: &str,
    number: Option<u128>,
    r: u128,
)
    requires
        value matches Some(text) ==> written@ == text@,
        call_ensures(parse_unsigned, (written, u128::MAX), number),
        call_ensures(min_span_duration_nanos, (value,), r),
    ensures
        value is None ==> r == 100_000,
        value is Some && number is None ==> r == 100_000,
        value is Some ==> (number matches Some(us) ==> r == us * 1000),
{
}

/// The observer's switches come from their settings: every userland call is
/// spanned only where that is asked for, messaging is observed unless it is
/// switched off.
pub proof fn law_the_observers_switches(
    sources: &Sources,
    env: &ObserverEnv<'_>,
    r: ObserverSettings,
    all: bool,
    messaging: bool,
    shortest: Option<String>,
    written: Option<&str>,
    min: u128,
    excluded: Vec<String>,
)
    requires
        call_ensures(ObserverSettings::resolve, (sources, env), r),
        call_ensures(
            flag,
            (sources, env.span_all_userland, "CHRONOS_PHP_SPAN_ALL_USERLAND", false),
            all,
        ),
        call_ensures(
            flag,
            (sources, env.messaging_auto, "CHRONOS_PHP_MESSAGING_AUTO", true),
            messaging,
        ),
        call_ensures(
            get,
            (sources, env.min_duration_us, "CHRONOS_PHP_SPAN_MIN_DURATION_US"),
            shortest,
        ),
        opt_view(written) == crate::text::opt_text(shortest),
        call_ensures(min_span_duration_nanos, (written,), min),
        call_ensures(excluded_paths, (sources, env.exclude_paths), excluded),
    ensures
        r.span_all_userland == all,
        r.messaging_auto == messaging,
        r.min_span_duration_nanos == min,
        texts(r.excluded_paths@) == texts(excluded@),
{
}

/// The excluded fragments come from their setting, which may be empty; where
/// nothing is said they are the default ones.
pub proof fn law_where_excluded_fragments_come_from(
    sources: &Sources,
    env: Option<&str>,
    value: Option<String>,
    list: &str,
    parsed_list: Vec<String>,
    defaults: Vec<String>,
    r: Vec<String>,
)
    requires
        call_ensures(get_even_empty, (sources, env, "CHRONOS_PHP_EXCLUDE_PATHS"), value),
        value matches Some(v) ==> list@ == v@,
        call_ensures(parse_excluded_paths, (list,), parsed_list),
        call_ensures(default_excluded_paths, (), defaults),
        call_ensures(excluded_paths, (sources, env), r),
    ensures
        value is Some ==> texts(r@) == texts(parsed_list@),
        value is None ==> texts(r@) == texts(defaults@),
{
}

/// A function that is asked for is traced under its name without the white space
/// around it and the backslashes before it, whatever the letter case; nothing that
/// was traced before is forgotten, and nothing else becomes traced. Asking again
/// outdates what was decided before.
pub proof fn law_asking_to_trace(
    manifest: &mut Manifest,
    name: &str,
    cut: String,
    cut_text: &str,
    bare_name: String,
    before: &Manifest,
    after: &Manifest,
    spelling: &str,
    was: bool,
    is_now: bool,
    low_name: String,
    low_spelling: String,
    bare_text: &str,
)
    requires
        call_ensures(trace_function, (manifest, name), ()),
        *before == *old(manifest),
        *after == *final(manifest),
        call_ensures(trim, (name,), cut),
        cut_text@ == cut@,
        call_ensures(strip_start, (cut_text, '\\'), bare_name),
        bare_text@ == bare_name@,
        call_ensures(crate::text::to_lowercase, (bare_text,), low_name),
        call_ensures(crate::text::to_lowercase, (spelling,), low_spelling),
        call_ensures(is_traced, (before, spelling), was),
        call_ensures(is_traced, (after, spelling), is_now),
    ensures
        is_now <==> was || bare_name@.len() > 0 && low_name@ == low_spelling@,
        bare_name@.len() == 0 ==> final(manifest).generation == old(manifest).generation,
        bare_name@.len() > 0 && old(manifest).generation < u64::MAX ==> final(manifest).generation
            == old(manifest).generation + 1,
        bare_name@.len() > 0 ==> final(manifest).generation != old(manifest).generation,
{
    let names = texts(old(manifest).names@);
    if bare_name@.len() > 0 && low_name@ == low_spelling@ {
        law_registration_is_kept(names, name@, spelling@, spelling@);
    } else if bare_name@.len() > 0 {
        law_registration_is_kept(names, name@, bare_name@, spelling@);
    }
    let after_names = registered(names, name@);
    if is_now && !was {
        let i = choose|i: int|
            0 <= i < after_names.len() && lowercase(#[trigger] after_names[i]) == lowercase(
                spelling@,
            );
        if i < names.len() {
            assert(names[i] == after_names[i]);
            assert(lowercase(names[i]) == lowercase(spelling@));
        }
    }
}

/// No function is traced before one is asked for.
pub proof fn law_nothing_is_traced_at_first(fresh: Manifest, manifest: &Manifest, name: &str, r: bool)
    requires
        call_ensures(Manifest::new, (), fresh),
        *manifest == fresh,
        call_ensures(is_traced, (manifest, name), r),
    ensures
        !r,
{
}

} // verus!
