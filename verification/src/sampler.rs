//! The sampling profiler: which samples a request takes, what they weigh, and
//! the tags they carry.
//!
//! One interval timer gives four kinds of sample. Ticks accrue only while the
//! process runs, so they measure CPU time; the monotonic clock between drains
//! measures wall time; the difference is time spent off the CPU; and an observed
//! I/O call gives its own measured wait.

use crate::context::{copy_context, copy_opt, ContextView, TraceContext};
use crate::request_attributes::{put, put_entry};
use crate::settings::{get, number_setting, setting, string, u32_value, u64_value, Sources};
use crate::text::{
    byte_len, cap, chars_of, copy, fitting, lower_char, lowercase, lowered, opt_text, opt_view,
    pairs, same, split, split_on, string_of, texts, to_lowercase, trim, trimmed,
};
use crate::zend_helpers::origin_word;
use std::rc::Rc;
use vstd::prelude::*;

verus! {

/// One captured stack frame: identity only, never a value.
pub struct SampleFrame {
    pub module: String,
    pub function: String,
    pub file: String,
    pub line: u32,
}

/// A frame as plain contents.
pub struct SampleFrameView {
    pub module: Seq<char>,
    pub function: Seq<char>,
    pub file: Seq<char>,
    pub line: u32,
}

impl View for SampleFrame {
    type V = SampleFrameView;

    open spec fn view(&self) -> SampleFrameView {
        SampleFrameView {
            module: self.module@,
            function: self.function@,
            file: self.file@,
            line: self.line,
        }
    }
}

/// The contents of a stack.
pub open spec fn stack_view(s: Seq<SampleFrame>) -> Seq<SampleFrameView> {
    Seq::new(s.len(), |i: int| s[i]@)
}

/// What a sample measures.
#[derive(Clone, Copy, Debug, PartialEq, Eq, PartialOrd, Ord, Structural)]
pub enum SampleKind {
    Cpu,
    Wall,
    OffCpu,
    Io,
}

impl SampleKind {
    /// The name of a kind on the wire.
    pub open spec fn wire_name(self) -> Seq<char> {
        match self {
            SampleKind::Cpu => "PROFILE_SAMPLE_TYPE_CPU"@,
            SampleKind::Wall => "PROFILE_SAMPLE_TYPE_WALL"@,
            SampleKind::OffCpu => "PROFILE_SAMPLE_TYPE_OFF_CPU"@,
            SampleKind::Io => "PROFILE_SAMPLE_TYPE_IO"@,
        }
    }

    /// The name of a kind on the wire.
    pub fn proto_name(self) -> (r: &'static str)
        ensures
            r@ == self.wire_name(),
    {
        match self {
            SampleKind::Cpu => "PROFILE_SAMPLE_TYPE_CPU",
            SampleKind::Wall => "PROFILE_SAMPLE_TYPE_WALL",
            SampleKind::OffCpu => "PROFILE_SAMPLE_TYPE_OFF_CPU",
            SampleKind::Io => "PROFILE_SAMPLE_TYPE_IO",
        }
    }

    /// Every kind is a duration.
    pub fn unit(self) -> (r: &'static str)
        ensures
            r@ == "nanoseconds"@,
    {
        "nanoseconds"
    }

    /// The kind that a word names.
    pub open spec fn named(value: Seq<char>) -> Option<SampleKind> {
        let v = lowercase(trimmed(value));
        if v == "cpu"@ {
            Some(SampleKind::Cpu)
        } else if v == "wall"@ {
            Some(SampleKind::Wall)
        } else if v == "off_cpu"@ || v == "offcpu"@ || v == "off-cpu"@ {
            Some(SampleKind::OffCpu)
        } else if v == "io"@ {
            Some(SampleKind::Io)
        } else {
            None
        }
    }

    /// Read a kind.
    pub fn parse(value: &str) -> (r: Option<SampleKind>)
        ensures
            r == SampleKind::named(value@),
    {
        let t = trim(value);
        let v = to_lowercase(t.as_str());
        let s = v.as_str();
        if same(s, "cpu") {
            Some(SampleKind::Cpu)
        } else if same(s, "wall") {
            Some(SampleKind::Wall)
        } else if same(s, "off_cpu") || same(s, "offcpu") || same(s, "off-cpu") {
            Some(SampleKind::OffCpu)
        } else if same(s, "io") {
            Some(SampleKind::Io)
        } else {
            None
        }
    }
}

/// Which kinds are collected.
#[derive(Clone, Copy, Debug, PartialEq, Eq, Structural)]
pub struct SampleKinds {
    pub cpu: bool,
    pub wall: bool,
    pub off_cpu: bool,
    pub io: bool,
}

/// Whether a list of words names a kind.
pub open spec fn names_kind(words: Seq<Seq<char>>, kind: SampleKind) -> bool {
    exists|i: int| 0 <= i < words.len() && SampleKind::named(#[trigger] words[i]) == Some(kind)
}

/// Whether a list of words names any kind.
pub open spec fn names_any(words: Seq<Seq<char>>) -> bool {
    exists|i: int| 0 <= i < words.len() && SampleKind::named(#[trigger] words[i]) is Some
}

/// The kinds that a list of words names.
pub open spec fn kinds_in(words: Seq<Seq<char>>) -> SampleKinds {
    SampleKinds {
        cpu: names_kind(words, SampleKind::Cpu),
        wall: names_kind(words, SampleKind::Wall),
        off_cpu: names_kind(words, SampleKind::OffCpu),
        io: names_kind(words, SampleKind::Io),
    }
}

/// The kinds that a comma-separated list asks for: everything when it names
/// none, so that a slip never looks like a quiet application.
pub open spec fn kinds_of(list: Seq<char>) -> SampleKinds {
    let words = split(list, ',');
    if names_any(words) {
        kinds_in(words)
    } else {
        every_kind()
    }
}

/// Every kind.
pub open spec fn every_kind() -> SampleKinds {
    SampleKinds { cpu: true, wall: true, off_cpu: true, io: true }
}

impl SampleKinds {
    /// Every kind.
    pub fn all() -> (r: SampleKinds)
        ensures
            r == every_kind(),
    {
        SampleKinds { cpu: true, wall: true, off_cpu: true, io: true }
    }

    /// No kind.
    pub fn none() -> (r: SampleKinds)
        ensures
            r == (SampleKinds { cpu: false, wall: false, off_cpu: false, io: false }),
    {
        SampleKinds { cpu: false, wall: false, off_cpu: false, io: false }
    }

    /// Read a comma-separated list of kinds.
    pub fn parse(list: &str) -> (r: SampleKinds)
        ensures
            r == kinds_of(list@),
    {
        let words = split_on(list, ',');
        let ghost all = texts(words@);
        let mut kinds = SampleKinds::none();
        let mut matched = false;
        let mut i: usize = 0;
        while i < words.len()
            invariant
                i <= words@.len(),
                all == texts(words@),
                kinds == kinds_in(all.take(i as int)),
                matched == names_any(all.take(i as int)),
            decreases words@.len() - i,
        {
            let ghost before = all.take(i as int);
            let kind = SampleKind::parse(words[i].as_str());
            proof {
                let w = all[i as int];
                assert(all.take(i + 1) =~= before.push(w));
                assert(before.push(w)[before.len() as int] == w);
                assert forall|k: SampleKind| names_kind(before.push(w), k) == (names_kind(before, k)
                    || SampleKind::named(w) == Some(k)) by {
                    lemma_names_push(before, w, k);
                }
                lemma_names_any_push(before, w);
            }
            match kind {
                Some(SampleKind::Cpu) => {
                    kinds.cpu = true;
                    matched = true;
                },
                Some(SampleKind::Wall) => {
                    kinds.wall = true;
                    matched = true;
                },
                Some(SampleKind::OffCpu) => {
                    kinds.off_cpu = true;
                    matched = true;
                },
                Some(SampleKind::Io) => {
                    kinds.io = true;
                    matched = true;
                },
                None => {},
            }
            i = i + 1;
        }
        assert(all.take(all.len() as int) =~= all);
        if matched {
            kinds
        } else {
            SampleKinds::all()
        }
    }

    /// How many kinds are collected.
    pub open spec fn how_many(self) -> nat {
        (if self.cpu {
            1nat
        } else {
            0
        }) + (if self.wall {
            1nat
        } else {
            0
        }) + (if self.off_cpu {
            1nat
        } else {
            0
        }) + (if self.io {
            1nat
        } else {
            0
        })
    }

    /// How many kinds are collected.
    pub fn count(self) -> (r: usize)
        ensures
            r == self.how_many(),
            r <= 4,
    {
        let mut n: usize = 0;
        if self.cpu {
            n = n + 1;
        }
        if self.wall {
            n = n + 1;
        }
        if self.off_cpu {
            n = n + 1;
        }
        if self.io {
            n = n + 1;
        }
        n
    }

    /// Whether any kind is collected.
    pub fn any(self) -> (r: bool)
        ensures
            r == (self.cpu || self.wall || self.off_cpu || self.io),
    {
        self.count() > 0
    }
}

proof fn lemma_names_push(words: Seq<Seq<char>>, w: Seq<char>, k: SampleKind)
    ensures
        names_kind(words.push(w), k) == (names_kind(words, k) || SampleKind::named(w) == Some(k)),
{
    if names_kind(words, k) {
        let i = choose|i: int|
            0 <= i < words.len() && SampleKind::named(#[trigger] words[i]) == Some(k);
        assert(words.push(w)[i] == words[i]);
    }
    if SampleKind::named(w) == Some(k) {
        assert(words.push(w)[words.len() as int] == w);
    }
    if names_kind(words.push(w), k) && SampleKind::named(w) != Some(k) {
        let i = choose|i: int|
            0 <= i < words.push(w).len() && SampleKind::named(#[trigger] words.push(w)[i]) == Some(
                k,
            );
        assert(words[i] == words.push(w)[i]);
    }
}

proof fn lemma_names_any_push(words: Seq<Seq<char>>, w: Seq<char>)
    ensures
        names_any(words.push(w)) == (names_any(words) || SampleKind::named(w) is Some),
{
    if names_any(words) {
        let i = choose|i: int|
            0 <= i < words.len() && SampleKind::named(#[trigger] words[i]) is Some;
        assert(words.push(w)[i] == words[i]);
    }
    if SampleKind::named(w) is Some {
        assert(words.push(w)[words.len() as int] == w);
    }
    if names_any(words.push(w)) && SampleKind::named(w) is None {
        let i = choose|i: int|
            0 <= i < words.push(w).len() && SampleKind::named(#[trigger] words.push(w)[i]) is Some;
        assert(words[i] == words.push(w)[i]);
    }
}

/// A list never asks for nothing.
pub proof fn law_some_kind_is_always_collected(list: Seq<char>)
    ensures
        kinds_of(list).how_many() > 0,
{
    let words = split(list, ',');
    if names_any(words) {
        let i = choose|i: int|
            0 <= i < words.len() && SampleKind::named(#[trigger] words[i]) is Some;
        let k = SampleKind::named(words[i])->0;
        assert(names_kind(words, k));
    }
}

/// One sample: a stack, and the weight it accounts for. The stack is root first,
/// and shared by the samples of one walk.
pub struct Sample {
    pub kind: SampleKind,
    pub sampled_at_unix_nanos: u128,
    pub period_nanoseconds: u64,
    pub value_nanoseconds: i64,
    pub stack: Rc<Vec<SampleFrame>>,
    pub trace_id: String,
    pub span_id: String,
    pub session_id: Option<String>,
}

/// A sample as plain contents.
pub struct SampleView {
    pub kind: SampleKind,
    pub sampled_at_unix_nanos: u128,
    pub period_nanoseconds: u64,
    pub value_nanoseconds: i64,
    pub stack: Seq<SampleFrameView>,
    pub trace_id: Seq<char>,
    pub span_id: Seq<char>,
    pub session_id: Option<Seq<char>>,
}

impl View for Sample {
    type V = SampleView;

    open spec fn view(&self) -> SampleView {
        SampleView {
            kind: self.kind,
            sampled_at_unix_nanos: self.sampled_at_unix_nanos,
            period_nanoseconds: self.period_nanoseconds,
            value_nanoseconds: self.value_nanoseconds,
            stack: stack_view((*self.stack)@),
            trace_id: self.trace_id@,
            span_id: self.span_id@,
            session_id: opt_text(self.session_id),
        }
    }
}

/// The contents of a list of samples.
pub open spec fn sample_views(s: Seq<Sample>) -> Seq<SampleView> {
    Seq::new(s.len(), |i: int| s[i]@)
}

/// How the profiler is tuned.
pub struct SamplerConfig {
    pub sample_rate_hz: u32,
    pub max_samples_per_request: usize,
    pub max_stack_depth: usize,
    pub series_id: String,
    pub kinds: SampleKinds,
    /// I/O waits shorter than this are not worth a stack walk.
    pub min_io_wait_nanos: u128,
}

/// What the environment holds for the profiler's settings.
pub struct SamplerEnv<'a> {
    pub sample_rate: Option<&'a str>,
    pub types: Option<&'a str>,
    pub series_id: Option<&'a str>,
    pub io_min_us: Option<&'a str>,
}

/// The rate that the settings ask for, in hertz.
pub open spec fn rate_setting(sources: Sources, env: SamplerEnv<'_>) -> nat {
    number_setting(
        setting(
            opt_view(env.sample_rate),
            sources.ini@,
            sources.file@,
            "CHRONOS_PHP_PROFILE_SAMPLE_RATE"@,
        ),
        u32::MAX as nat,
        99,
    )
}

/// The kinds that the settings ask for.
pub open spec fn kinds_setting(sources: Sources, env: SamplerEnv<'_>) -> SampleKinds {
    match setting(
        opt_view(env.types),
        sources.ini@,
        sources.file@,
        "CHRONOS_PHP_PROFILE_TYPES"@,
    ) {
        Some(list) => kinds_of(list),
        None => every_kind(),
    }
}

impl SamplerConfig {
    pub const DEFAULT_RATE_HZ: u32 = 99;

    pub const DEFAULT_MAX_STACK_DEPTH: usize = 127;

    pub const DEFAULT_MAX_SAMPLES: usize = 2000;

    pub const DEFAULT_MIN_IO_WAIT_US: u64 = 1000;

    /// The tuning that the settings ask for. A rate of zero switches the profiler
    /// off; any other is held between 1 and 1000 hertz. The cap on samples grows
    /// with the number of kinds.
    pub fn resolve(sources: &Sources, env: &SamplerEnv<'_>) -> (r: Option<SamplerConfig>)
        ensures
            r is Some <==> rate_setting(*sources, *env) > 0,
            match r {
                Some(config) => {
                    let hz = rate_setting(*sources, *env);
                    &&& config.sample_rate_hz == if hz > 1000 {
                        1000
                    } else {
                        hz
                    }
                    &&& config.kinds == kinds_setting(*sources, *env)
                    &&& config.max_samples_per_request == 2000 * config.kinds.how_many()
                    &&& config.max_stack_depth == 127
                    &&& config.series_id@ == match setting(
                        opt_view(env.series_id),
                        sources.ini@,
                        sources.file@,
                        "CHRONOS_PHP_PROFILE_SERIES_ID"@,
                    ) {
                        Some(id) => id,
                        None => "php"@,
                    }
                    &&& config.min_io_wait_nanos == 1000 * number_setting(
                        setting(
                            opt_view(env.io_min_us),
                            sources.ini@,
                            sources.file@,
                            "CHRONOS_PHP_PROFILE_IO_MIN_US"@,
                        ),
                        u64::MAX as nat,
                        1000,
                    )
                },
                None => true,
            },
    {
        let hz: u32 = u32_value(sources, env.sample_rate, "CHRONOS_PHP_PROFILE_SAMPLE_RATE", 99);
        if hz == 0 {
            return None;
        }
        let kinds = match get(sources, env.types, "CHRONOS_PHP_PROFILE_TYPES") {
            Some(list) => {
                proof {
                    law_some_kind_is_always_collected(list@);
                }
                SampleKinds::parse(list.as_str())
            },
            None => SampleKinds::all(),
        };
        let io_us: u64 = u64_value(sources, env.io_min_us, "CHRONOS_PHP_PROFILE_IO_MIN_US", 1000);
        Some(
            SamplerConfig {
                sample_rate_hz: if hz > 1000 {
                    1000
                } else {
                    hz
                },
                max_samples_per_request: 2000 * kinds.count(),
                max_stack_depth: 127,
                series_id: string(
                    sources,
                    env.series_id,
                    "CHRONOS_PHP_PROFILE_SERIES_ID",
                    "php",
                ),
                kinds,
                min_io_wait_nanos: (io_us as u128) * 1000,
            },
        )
    }

    /// The time between two ticks, in nanoseconds.
    pub open spec fn period(&self) -> u64 {
        (1000000000int / self.sample_rate_hz as int) as u64
    }

    /// The time between two ticks, in nanoseconds.
    pub fn period_nanoseconds(&self) -> (r: u64)
        requires
            self.sample_rate_hz > 0,
        ensures
            r == self.period(),
            r == 1000000000int / self.sample_rate_hz as int,
    {
        proof {
            assert(0 <= 1000000000int / self.sample_rate_hz as int <= 1000000000) by (nonlinear_arith)
                requires
                    self.sample_rate_hz > 0,
            ;
        }
        1000000000u64 / (self.sample_rate_hz as u64)
    }
}

fn copy_config(c: &SamplerConfig) -> (r: SamplerConfig)
    ensures
        same_config(r, *c),
{
    SamplerConfig {
        sample_rate_hz: c.sample_rate_hz,
        max_samples_per_request: c.max_samples_per_request,
        max_stack_depth: c.max_stack_depth,
        series_id: c.series_id.clone(),
        kinds: c.kinds,
        min_io_wait_nanos: c.min_io_wait_nanos,
    }
}

/// Whether two tunings are the same.
pub open spec fn same_config(a: SamplerConfig, b: SamplerConfig) -> bool {
    &&& a.sample_rate_hz == b.sample_rate_hz
    &&& a.max_samples_per_request == b.max_samples_per_request
    &&& a.max_stack_depth == b.max_stack_depth
    &&& a.series_id@ == b.series_id@
    &&& a.kinds == b.kinds
    &&& a.min_io_wait_nanos == b.min_io_wait_nanos
}

/// Wall-clock accounting between drains. Wall time is banked until a whole
/// period has passed, with the CPU time of the same window.
#[derive(Clone, Copy, Debug, PartialEq, Eq, Structural)]
pub struct DrainClock {
    /// The clock at the last drain: none before the first.
    pub last_monotonic_nanos: Option<u128>,
    pub pending_wall_nanos: u128,
    pub window_cpu_nanos: u128,
}

/// A sum that stays at the largest value once it is reached.
pub open spec fn saturated(a: u128, b: u128) -> u128 {
    if a + b > u128::MAX {
        u128::MAX
    } else {
        (a + b) as u128
    }
}

/// The time from one reading to another, nothing when the clock went back.
pub open spec fn elapsed(from: u128, to: u128) -> u128 {
    if to >= from {
        (to - from) as u128
    } else {
        0
    }
}

/// A clock that has seen no drain.
pub open spec fn idle_clock() -> DrainClock {
    DrainClock { last_monotonic_nanos: None, pending_wall_nanos: 0, window_cpu_nanos: 0 }
}

impl DrainClock {
    /// A clock that has seen no drain.
    pub fn idle() -> (r: DrainClock)
        ensures
            r == idle_clock(),
    {
        DrainClock { last_monotonic_nanos: None, pending_wall_nanos: 0, window_cpu_nanos: 0 }
    }

    /// The clock after a drain, and the window that it closes: wall and CPU time.
    pub open spec fn advanced(self, now: u128, cpu_nanos: u128, period: u64) -> (
        DrainClock,
        Option<(u128, u128)>,
    ) {
        let cpu = saturated(self.window_cpu_nanos, cpu_nanos);
        match self.last_monotonic_nanos {
            None => (
                DrainClock {
                    last_monotonic_nanos: Some(now),
                    pending_wall_nanos: self.pending_wall_nanos,
                    window_cpu_nanos: cpu,
                },
                None,
            ),
            Some(last) => {
                let wall = saturated(self.pending_wall_nanos, elapsed(last, now));
                if wall < period {
                    (
                        DrainClock {
                            last_monotonic_nanos: Some(now),
                            pending_wall_nanos: wall,
                            window_cpu_nanos: cpu,
                        },
                        None,
                    )
                } else {
                    (
                        DrainClock {
                            last_monotonic_nanos: Some(now),
                            pending_wall_nanos: 0,
                            window_cpu_nanos: 0,
                        },
                        Some((wall, cpu)),
                    )
                }
            },
        }
    }

    /// Bank CPU time and the wall time since the last drain. The answer is a
    /// window once a whole period has passed. The first drain only sets the
    /// baseline.
    pub fn advance(&mut self, now: u128, cpu_nanos: u128, period: u64) -> (r: Option<(u128, u128)>)
        ensures
            (*final(self), r) == old(self).advanced(now, cpu_nanos, period),
    {
        self.window_cpu_nanos = self.window_cpu_nanos.saturating_add(cpu_nanos);
        let last: u128 = match self.last_monotonic_nanos {
            Some(last) => last,
            None => {
                self.last_monotonic_nanos = Some(now);
                return None;
            },
        };
        let gone: u128 = now.saturating_sub(last);
        self.pending_wall_nanos = self.pending_wall_nanos.saturating_add(gone);
        self.last_monotonic_nanos = Some(now);
        if self.pending_wall_nanos < period as u128 {
            return None;
        }
        let window = (self.pending_wall_nanos, self.window_cpu_nanos);
        self.pending_wall_nanos = 0;
        self.window_cpu_nanos = 0;
        Some(window)
    }
}

/// Time is neither lost nor counted twice: what a drain emits and what it leaves
/// banked is what was banked before and what has passed since. Sums that would
/// exceed 128 bits are left out.
pub proof fn law_drains_conserve_time(
    clock: DrainClock,
    now: u128,
    cpu_nanos: u128,
    period: u64,
)
    requires
        clock.window_cpu_nanos + cpu_nanos <= u128::MAX,
        clock.last_monotonic_nanos matches Some(last) ==> clock.pending_wall_nanos + elapsed(
            last,
            now,
        ) <= u128::MAX,
    ensures
        ({
            let (after, window) = clock.advanced(now, cpu_nanos, period);
            let wall = match window {
                Some(w) => w.0,
                None => 0,
            };
            let cpu = match window {
                Some(w) => w.1,
                None => 0,
            };
            let passed = match clock.last_monotonic_nanos {
                Some(last) => elapsed(last, now),
                None => 0,
            };
            &&& after.window_cpu_nanos + cpu == clock.window_cpu_nanos + cpu_nanos
            &&& after.pending_wall_nanos + wall == clock.pending_wall_nanos + passed
            &&& after.last_monotonic_nanos == Some(now)
            &&& window is Some ==> wall >= period
            &&& clock.last_monotonic_nanos is None ==> window is None
        }),
{
}

pub const MAX_LABELS: usize = 12;

pub const MAX_LABEL_KEY_BYTES: usize = 48;

pub const MAX_LABEL_VALUE_BYTES: usize = 200;

/// A character of a tag key: anything else becomes an underscore.
pub open spec fn safe_char(c: char) -> char {
    if 'a' <= c <= 'z' || '0' <= c <= '9' || c == '.' || c == '_' || c == '-' {
        c
    } else {
        '_'
    }
}

/// A key cleaned of unsafe characters and cut.
pub open spec fn cleaned(key: Seq<char>) -> Seq<char> {
    let s = trimmed(key).map_values(|c: char| safe_char(lowered(c)));
    if s.len() <= MAX_LABEL_KEY_BYTES {
        s
    } else {
        s.take(MAX_LABEL_KEY_BYTES as int)
    }
}

/// A text without the run of `c` at its end.
pub open spec fn stripped_end(s: Seq<char>, c: char) -> Seq<char>
    decreases s.len(),
{
    if s.len() > 0 && s.last() == c {
        stripped_end(s.drop_last(), c)
    } else {
        s
    }
}

/// A tag key as it is kept: none when nothing usable is left of it.
pub open spec fn label_key(key: Seq<char>) -> Option<Seq<char>> {
    let s = stripped_end(crate::text::stripped_start(cleaned(key), '_'), '_');
    if s.len() == 0 {
        None
    } else {
        Some(s)
    }
}

fn safe(c: char) -> (r: char)
    ensures
        r == safe_char(c),
{
    if ('a' <= c && c <= 'z') || ('0' <= c && c <= '9') || c == '.' || c == '_' || c == '-' {
        c
    } else {
        '_'
    }
}

/// Normalise a tag key to lower-case letters, digits, dots, underscores and
/// hyphens.
pub fn normalise_label_key(key: &str) -> (r: Option<String>)
    ensures
        opt_text(r) == label_key(key@),
{
    let t = trim(key);
    let v = chars_of(t.as_str());
    let ghost full = trimmed(key@).map_values(|c: char| safe_char(lowered(c)));
    let mut out = String::new();
    let mut i: usize = 0;
    assert(full.take(0) =~= out@);
    while i < v.len() && i < MAX_LABEL_KEY_BYTES
        invariant
            i <= v@.len(),
            i <= MAX_LABEL_KEY_BYTES,
            v@ == trimmed(key@),
            full == trimmed(key@).map_values(|c: char| safe_char(lowered(c))),
            out@ == full.take(i as int),
        decreases v@.len() - i,
    {
        out.push(safe(lower_char(v[i])));
        i = i + 1;
        assert(full.take(i as int) =~= full.take(i - 1).push(full[i - 1]));
    }
    assert(out@ =~= cleaned(key@));
    let head = crate::text::strip_start(out.as_str(), '_');
    let w = chars_of(head.as_str());
    let mut end: usize = w.len();
    assert(w@.take(end as int) =~= w@);
    while end > 0 && w[end - 1] == '_'
        invariant
            end <= w@.len(),
            stripped_end(w@.take(end as int), '_') == stripped_end(w@, '_'),
        decreases end,
    {
        assert(w@.take(end as int).drop_last() =~= w@.take(end - 1));
        end = end - 1;
    }
    if end == 0 {
        return None;
    }
    let r = string_of(&w, 0, end);
    assert(r@ =~= w@.take(end as int));
    Some(r)
}

/// A character of a kept tag key.
pub open spec fn key_char(c: char) -> bool {
    'a' <= c <= 'z' || '0' <= c <= '9' || c == '.' || c == '_' || c == '-'
}

proof fn lemma_stripped_start_chars(s: Seq<char>, c: char)
    requires
        forall|i: int| 0 <= i < s.len() ==> key_char(#[trigger] s[i]),
    ensures
        crate::text::stripped_start(s, c).len() <= s.len(),
        forall|i: int|
            0 <= i < crate::text::stripped_start(s, c).len() ==> key_char(
                #[trigger] crate::text::stripped_start(s, c)[i],
            ),
    decreases s.len(),
{
    if s.len() > 0 && s[0] == c {
        let t = s.drop_first();
        assert forall|i: int| 0 <= i < t.len() implies key_char(#[trigger] t[i]) by {
            assert(t[i] == s[i + 1]);
        }
        lemma_stripped_start_chars(t, c);
    }
}

proof fn lemma_stripped_end_chars(s: Seq<char>, c: char)
    requires
        forall|i: int| 0 <= i < s.len() ==> key_char(#[trigger] s[i]),
    ensures
        stripped_end(s, c).len() <= s.len(),
        forall|i: int|
            0 <= i < stripped_end(s, c).len() ==> key_char(#[trigger] stripped_end(s, c)[i]),
    decreases s.len(),
{
    if s.len() > 0 && s.last() == c {
        let t = s.drop_last();
        assert forall|i: int| 0 <= i < t.len() implies key_char(#[trigger] t[i]) by {
            assert(t[i] == s[i]);
        }
        lemma_stripped_end_chars(t, c);
    }
}

proof fn lemma_stripped_start_edge(s: Seq<char>, c: char)
    ensures
        crate::text::stripped_start(s, c).len() > 0 ==> crate::text::stripped_start(s, c)[0] != c,
        crate::text::stripped_start(s, c).len() == 0 <==> forall|i: int|
            0 <= i < s.len() ==> #[trigger] s[i] == c,
    decreases s.len(),
{
    if s.len() > 0 && s[0] == c {
        let t = s.drop_first();
        lemma_stripped_start_edge(t, c);
        if forall|i: int| 0 <= i < t.len() ==> #[trigger] t[i] == c {
            assert forall|i: int| 0 <= i < s.len() implies #[trigger] s[i] == c by {
                if i > 0 {
                    assert(t[i - 1] == s[i]);
                }
            }
        }
        if forall|i: int| 0 <= i < s.len() ==> #[trigger] s[i] == c {
            assert forall|i: int| 0 <= i < t.len() implies #[trigger] t[i] == c by {
                assert(s[i + 1] == t[i]);
            }
        }
    } else if s.len() > 0 {
        assert(s[0] != c);
    }
}

proof fn lemma_stripped_end_edge(s: Seq<char>, c: char)
    ensures
        stripped_end(s, c).len() <= s.len(),
        stripped_end(s, c) == s.take(stripped_end(s, c).len() as int),
        stripped_end(s, c).len() > 0 ==> stripped_end(s, c).last() != c,
        s.len() > 0 && s[0] != c ==> stripped_end(s, c).len() > 0,
    decreases s.len(),
{
    if s.len() > 0 && s.last() == c {
        let t = s.drop_last();
        lemma_stripped_end_edge(t, c);
        let n = stripped_end(t, c).len() as int;
        assert(t.take(n) =~= s.take(n));
    } else {
        assert(s.take(s.len() as int) =~= s);
    }
}

proof fn lemma_normal_key(k: Seq<char>)
    requires
        0 < k.len() <= MAX_LABEL_KEY_BYTES,
        forall|i: int| 0 <= i < k.len() ==> key_char(#[trigger] k[i]),
        k[0] != '_',
        k.last() != '_',
    ensures
        label_key(k) == Some(k),
{
    assert(key_char(k[0]) && key_char(k[k.len() - 1]));
    assert(trimmed(k) == k);
    assert forall|i: int| 0 <= i < k.len() implies safe_char(lowered(#[trigger] k[i])) == k[i] by {
        assert(key_char(k[i]));
    }
    assert(cleaned(k) =~= k);
}

/// A kept tag key is short, not empty, of the safe alphabet alone, and begins and
/// ends with something other than an underscore, whatever it was made from. It
/// is its own normal form. Nothing is kept of a key exactly when there is nothing
/// in it, once it is cleaned and cut, but underscores.
pub proof fn law_label_keys_are_safe(key: Seq<char>)
    ensures
        label_key(key) matches Some(k) ==> {
            &&& 0 < k.len() <= MAX_LABEL_KEY_BYTES
            &&& forall|i: int| 0 <= i < k.len() ==> key_char(#[trigger] k[i])
            &&& k[0] != '_' && k.last() != '_'
            &&& label_key(k) == Some(k)
        },
        label_key(key) is None <==> forall|i: int|
            0 <= i < cleaned(key).len() ==> #[trigger] cleaned(key)[i] == '_',
{
    let s = cleaned(key);
    assert forall|i: int| 0 <= i < s.len() implies key_char(#[trigger] s[i]) by {
        let full = trimmed(key).map_values(|c: char| safe_char(lowered(c)));
        assert(s[i] == full[i]);
    }
    let t = crate::text::stripped_start(s, '_');
    lemma_stripped_start_chars(s, '_');
    lemma_stripped_start_edge(s, '_');
    lemma_stripped_end_chars(t, '_');
    lemma_stripped_end_edge(t, '_');
    if let Some(k) = label_key(key) {
        assert(k[0] == t[0]);
        lemma_normal_key(k);
    }
}

/// A request's profile tags.
pub struct Labels {
    entries: Vec<(String, String)>,
}

impl View for Labels {
    type V = Seq<(Seq<char>, Seq<char>)>;

    closed spec fn view(&self) -> Seq<(Seq<char>, Seq<char>)> {
        pairs(self.entries@)
    }
}

/// What every set of tags keeps: few of them, distinct keys of the safe
/// alphabet in their normal form, and values that are there and within their
/// bound.
pub open spec fn labels_bounded(l: Seq<(Seq<char>, Seq<char>)>) -> bool {
    &&& l.len() <= MAX_LABELS
    &&& forall|i: int|
        0 <= i < l.len() ==> {
            let e = #[trigger] l[i];
            &&& 0 < e.0.len() <= MAX_LABEL_KEY_BYTES
            &&& forall|k: int| 0 <= k < e.0.len() ==> key_char(#[trigger] e.0[k])
            &&& label_key(e.0) == Some(e.0)
            &&& 0 < e.1.len() && byte_len(e.1) <= MAX_LABEL_VALUE_BYTES
        }
    &&& forall|i: int, j: int|
        0 <= i < j < l.len() ==> (#[trigger] l[i]).0 != (#[trigger] l[j]).0
}

/// The tags once one more is set. A known key can always be set again; a new one
/// only while there is room.
pub open spec fn labelled(
    l: Seq<(Seq<char>, Seq<char>)>,
    key: Seq<char>,
    value: Seq<char>,
) -> Seq<(Seq<char>, Seq<char>)> {
    match label_key(key) {
        Some(k) => if trimmed(value).len() == 0 {
            l
        } else {
            put(l, k, fitting(trimmed(value), MAX_LABEL_VALUE_BYTES as nat), MAX_LABELS as nat)
        },
        None => l,
    }
}

/// Setting a tag keeps the tags within their bounds, whatever the key and value.
pub proof fn law_labels_stay_bounded(
    l: Seq<(Seq<char>, Seq<char>)>,
    key: Seq<char>,
    value: Seq<char>,
)
    requires
        labels_bounded(l),
    ensures
        labels_bounded(labelled(l, key, value)),
{
    law_label_keys_are_safe(key);
    crate::text::law_fitting_is_longest(trimmed(value), MAX_LABEL_VALUE_BYTES as nat);
    if let Some(k) = label_key(key) {
        if trimmed(value).len() > 0 {
            crate::text::lemma_fitting_some(trimmed(value), MAX_LABEL_VALUE_BYTES as nat);
            let v = fitting(trimmed(value), MAX_LABEL_VALUE_BYTES as nat);
            let after = put(l, k, v, MAX_LABELS as nat);
            if crate::zend_helpers::has_pair(l, k) {
                assert forall|i: int, j: int| 0 <= i < j < after.len() implies (
                #[trigger] after[i]).0 != (#[trigger] after[j]).0 by {
                    assert(after[i].0 == l[i].0);
                    assert(after[j].0 == l[j].0);
                }
            } else {
                assert forall|i: int, j: int| 0 <= i < j < after.len() implies (
                #[trigger] after[i]).0 != (#[trigger] after[j]).0 by {
                    if j == l.len() {
                        assert(after[i] == l[i]);
                        assert(l[i].0 != k);
                    }
                }
            }
        }
    }
}

impl Labels {
    pub closed spec fn wf(&self) -> bool {
        labels_bounded(self@)
    }

    pub fn new() -> (r: Labels)
        ensures
            r.wf(),
            r@.len() == 0,
    {
        Labels { entries: Vec::new() }
    }
}

/// Everything the profiler remembers of a request.
pub struct Sampler {
    pub samples: Vec<Sample>,
    pub sampling_active: bool,
    pub active: Option<(TraceContext, SamplerConfig)>,
    pub clock: DrainClock,
    pub labels: Labels,
    pub pending_ticks: u32,
}

impl Sampler {
    pub fn new() -> (r: Sampler)
        ensures
            r.samples@.len() == 0,
            !r.sampling_active,
            r.active is None,
            r.clock == idle_clock(),
            r.labels.wf(),
            r.labels@.len() == 0,
            r.pending_ticks == 0,
    {
        Sampler {
            samples: Vec::new(),
            sampling_active: false,
            active: None,
            clock: DrainClock::idle(),
            labels: Labels::new(),
            pending_ticks: 0,
        }
    }
}

/// Set a request's profile tag.
pub fn set_label(labels: &mut Labels, key: &str, value: &str)
    requires
        old(labels).wf(),
    ensures
        final(labels)@ == labelled(old(labels)@, key@, value@),
        final(labels).wf(),
{
    proof {
        law_labels_stay_bounded(labels@, key@, value@);
    }
    let k = match normalise_label_key(key) {
        Some(k) => k,
        None => {
            return ;
        },
    };
    let t = trim(value);
    if t.as_str().is_empty() {
        return ;
    }
    let v = cap(t.as_str(), MAX_LABEL_VALUE_BYTES);
    assert forall|a: int, b: int| 0 <= a < b < labels.entries@.len() implies (
    #[trigger] labels.entries@[a]).0@ != (#[trigger] labels.entries@[b]).0@ by {
        assert(labels@[a].0 != labels@[b].0);
    }
    put_entry(&mut labels.entries, k, v, MAX_LABELS);
}

/// Hand the tags over, leaving none for the next request.
pub fn take_labels(labels: &mut Labels) -> (r: Vec<(String, String)>)
    ensures
        pairs(r@) == old(labels)@,
        final(labels)@.len() == 0,
        final(labels).wf(),
{
    let mut out: Vec<(String, String)> = Vec::new();
    out.append(&mut labels.entries);
    assert(out@ =~= old(labels).entries@);
    out
}

/// The tags, without handing them over.
pub fn labels_snapshot(labels: &Labels) -> (r: Vec<(String, String)>)
    ensures
        pairs(r@) == labels@,
{
    let mut out: Vec<(String, String)> = Vec::new();
    let mut i: usize = 0;
    while i < labels.entries.len()
        invariant
            i <= labels.entries@.len(),
            out@.len() == i,
            forall|j: int|
                0 <= j < i ==> (#[trigger] out@[j]).0@ == labels.entries@[j].0@ && out@[j].1@
                    == labels.entries@[j].1@,
        decreases labels.entries@.len() - i,
    {
        out.push((labels.entries[i].0.clone(), labels.entries[i].1.clone()));
        i = i + 1;
    }
    assert(pairs(out@) =~= pairs(labels.entries@));
    out
}

/// Whether the profiler samples for a request and a tuning.
pub open spec fn samples_for(
    active: Option<(TraceContext, SamplerConfig)>,
    context: ContextView,
    config: SamplerConfig,
) -> bool {
    match active {
        Some(a) => a.0@ == context && same_config(a.1, config),
        None => false,
    }
}

/// A request begins. The answer is the rate to arm the timer at: none when the
/// request is not sampled.
pub fn on_request_start(sampler: &mut Sampler, context: &TraceContext, config: &SamplerConfig) -> (r:
    Option<u32>)
    ensures
        r == if context.sampled {
            Some(config.sample_rate_hz)
        } else {
            None
        },
        final(sampler).samples@.len() == 0,
        final(sampler).labels@.len() == 0,
        final(sampler).labels.wf(),
        final(sampler).clock == idle_clock(),
        final(sampler).sampling_active == context.sampled,
        final(sampler).pending_ticks == 0,
        if context.sampled {
            samples_for(final(sampler).active, context@, *config)
        } else {
            final(sampler).active is None
        },
{
    sampler.samples.clear();
    sampler.labels = Labels::new();
    sampler.clock = DrainClock::idle();
    sampler.sampling_active = context.sampled;
    sampler.pending_ticks = 0;
    if context.sampled {
        sampler.active = Some((copy_context(context), copy_config(config)));
        Some(config.sample_rate_hz)
    } else {
        sampler.active = None;
        None
    }
}

/// A value as a sample's weight.
pub open spec fn weight(value: u128) -> i64 {
    if value > i64::MAX {
        i64::MAX
    } else {
        value as i64
    }
}

/// A sample of a request.
pub open spec fn sample_of(
    context: ContextView,
    config: SamplerConfig,
    kind: SampleKind,
    stack: Seq<SampleFrameView>,
    value: u128,
    at: u128,
) -> SampleView {
    SampleView {
        kind,
        sampled_at_unix_nanos: at,
        period_nanoseconds: config.period(),
        value_nanoseconds: weight(value),
        stack,
        trace_id: context.trace_id,
        span_id: context.span_id,
        session_id: context.session_id,
    }
}

/// The samples with one more, while there is room.
pub open spec fn with_sample(samples: Seq<SampleView>, max: nat, sample: SampleView) -> Seq<
    SampleView,
> {
    if samples.len() >= max {
        samples
    } else {
        samples.push(sample)
    }
}

fn push_sample(
    samples: &mut Vec<Sample>,
    config: &SamplerConfig,
    kind: SampleKind,
    stack: &Rc<Vec<SampleFrame>>,
    value: u128,
    at: u128,
    context: &TraceContext,
)
    requires
        config.sample_rate_hz > 0,
    ensures
        sample_views(final(samples)@) == with_sample(
            sample_views(old(samples)@),
            config.max_samples_per_request as nat,
            sample_of(context@, *config, kind, stack_view((**stack)@), value, at),
        ),
{
    if samples.len() >= config.max_samples_per_request {
        return ;
    }
    let ghost before = sample_views(samples@);
    let value_nanoseconds: i64 = if value > i64::MAX as u128 {
        i64::MAX
    } else {
        value as i64
    };
    let sample = Sample {
        kind,
        sampled_at_unix_nanos: at,
        period_nanoseconds: config.period_nanoseconds(),
        value_nanoseconds,
        stack: Rc::clone(stack),
        trace_id: context.trace_id.clone(),
        span_id: context.span_id.clone(),
        session_id: copy_opt(&context.session_id),
    };
    let ghost sv = sample@;
    samples.push(sample);
    assert(sample_views(samples@) =~= before.push(sv));
}

/// What a drain has to record: the CPU time of the ticks, and the window that it
/// closed.
#[derive(Clone, Copy, Debug, PartialEq, Eq)]
pub struct Drain {
    pub cpu_nanos: Option<u128>,
    pub window: Option<(u128, u128)>,
}

/// What a drain has to record, if anything.
pub open spec fn drain_of(
    config: SamplerConfig,
    clock: DrainClock,
    pending: u32,
    now: u128,
) -> Option<Drain> {
    let cpu = (config.period() * pending) as u128;
    let window = if config.kinds.wall || config.kinds.off_cpu {
        clock.advanced(now, cpu, config.period()).1
    } else {
        None
    };
    let cpu_nanos = if config.kinds.cpu && pending > 0 {
        Some(cpu)
    } else {
        None
    };
    if cpu_nanos is Some || window is Some {
        Some(Drain { cpu_nanos, window })
    } else {
        None
    }
}

/// Take the queued ticks at a safe point and advance the window. The answer says
/// what a stack walk is wanted for: none when there is nothing to record.
pub fn consume_pending_ticks(sampler: &mut Sampler, now: u128) -> (r: Option<Drain>)
    requires
        old(sampler).active matches Some(a) ==> a.1.sample_rate_hz > 0,
    ensures
        final(sampler).pending_ticks == 0,
        match old(sampler).active {
            Some(a) => {
                &&& r == drain_of(a.1, old(sampler).clock, old(sampler).pending_ticks, now)
                &&& final(sampler).clock == old(sampler).clock.advanced(
                    now,
                    (a.1.period() * old(sampler).pending_ticks) as u128,
                    a.1.period(),
                ).0
            },
            None => r is None && final(sampler).clock == old(sampler).clock,
        },
        *final(sampler) == (Sampler {
            clock: final(sampler).clock,
            pending_ticks: 0,
            ..*old(sampler)
        }),
{
    let pending: u32 = sampler.pending_ticks;
    sampler.pending_ticks = 0;
    match &sampler.active {
        None => None,
        Some(a) => {
            let period: u64 = a.1.period_nanoseconds();
            proof {
                assert(period * pending <= 1000000000 * 0xFFFF_FFFF) by (nonlinear_arith)
                    requires
                        period <= 1000000000,
                        pending <= 0xFFFF_FFFF,
                ;
            }
            let cpu: u128 = (period as u128) * (pending as u128);
            let window = sampler.clock.advance(now, cpu, period);
            let window = if a.1.kinds.wall || a.1.kinds.off_cpu {
                window
            } else {
                None
            };
            let cpu_nanos = if a.1.kinds.cpu && pending > 0 {
                Some(cpu)
            } else {
                None
            };
            if cpu_nanos.is_some() || window.is_some() {
                Some(Drain { cpu_nanos, window })
            } else {
                None
            }
        },
    }
}

/// The samples once a drain is recorded: one walk serves all its kinds. Time off
/// the CPU is wall time without CPU time behind it, and none when there is none.
pub open spec fn drained(
    samples: Seq<SampleView>,
    context: ContextView,
    config: SamplerConfig,
    drain: Drain,
    stack: Seq<SampleFrameView>,
    at: u128,
) -> Seq<SampleView> {
    let max = config.max_samples_per_request as nat;
    if stack.len() == 0 {
        samples
    } else {
        let s = match drain.cpu_nanos {
            Some(cpu) => with_sample(
                samples,
                max,
                sample_of(context, config, SampleKind::Cpu, stack, cpu, at),
            ),
            None => samples,
        };
        match drain.window {
            Some((wall, cpu)) => {
                let s = if config.kinds.wall {
                    with_sample(
                        s,
                        max,
                        sample_of(context, config, SampleKind::Wall, stack, wall, at),
                    )
                } else {
                    s
                };
                if config.kinds.off_cpu && wall > cpu {
                    with_sample(
                        s,
                        max,
                        sample_of(
                            context,
                            config,
                            SampleKind::OffCpu,
                            stack,
                            (wall - cpu) as u128,
                            at,
                        ),
                    )
                } else {
                    s
                }
            },
            None => s,
        }
    }
}

/// Record what a drain has, on the stack that was walked for it.
pub fn record_drain(sampler: &mut Sampler, drain: Drain, stack: Vec<SampleFrame>, at: u128)
    requires
        old(sampler).active matches Some(a) ==> a.1.sample_rate_hz > 0,
    ensures
        sample_views(final(sampler).samples@) == match old(sampler).active {
            Some(a) => drained(
                sample_views(old(sampler).samples@),
                a.0@,
                a.1,
                drain,
                stack_view(stack@),
                at,
            ),
            None => sample_views(old(sampler).samples@),
        },
        *final(sampler) == (Sampler { samples: final(sampler).samples, ..*old(sampler) }),
{
    if stack.len() == 0 {
        return ;
    }
    let shared = Rc::new(stack);
    match &sampler.active {
        None => {},
        Some(a) => {
            if let Some(cpu) = drain.cpu_nanos {
                push_sample(&mut sampler.samples, &a.1, SampleKind::Cpu, &shared, cpu, at, &a.0);
            }
            if let Some((wall, cpu)) = drain.window {
                if a.1.kinds.wall {
                    push_sample(
                        &mut sampler.samples,
                        &a.1,
                        SampleKind::Wall,
                        &shared,
                        wall,
                        at,
                        &a.0,
                    );
                }
                if a.1.kinds.off_cpu && wall > cpu {
                    push_sample(
                        &mut sampler.samples,
                        &a.1,
                        SampleKind::OffCpu,
                        &shared,
                        wall - cpu,
                        at,
                        &a.0,
                    );
                }
            }
        },
    }
}

/// Whether an I/O wait is worth a sample.
pub open spec fn io_wanted(active: Option<(TraceContext, SamplerConfig)>, duration: u128) -> bool {
    match active {
        Some(a) => a.1.kinds.io && duration >= a.1.min_io_wait_nanos,
        None => false,
    }
}

/// Whether an I/O wait is worth a stack walk.
pub fn wants_io_wait(sampler: &Sampler, duration_nanos: u128) -> (r: bool)
    ensures
        r == io_wanted(sampler.active, duration_nanos),
{
    match &sampler.active {
        Some(a) => a.1.kinds.io && duration_nanos >= a.1.min_io_wait_nanos,
        None => false,
    }
}

/// A stack that ends at the blocking call.
pub open spec fn ending_at(stack: Seq<SampleFrameView>, function: Seq<char>) -> Seq<
    SampleFrameView,
> {
    if function.len() == 0 || (stack.len() > 0 && stack.last().function == function) {
        stack
    } else {
        stack.push(
            SampleFrameView { module: "internal"@, function, file: Seq::empty(), line: 0 },
        )
    }
}

/// Make the blocking call the leaf of a stack, once.
pub fn io_stack(stack: Vec<SampleFrame>, function: &str) -> (r: Vec<SampleFrame>)
    ensures
        stack_view(r@) == ending_at(stack_view(stack@), function@),
{
    let ghost before = stack_view(stack@);
    let mut stack = stack;
    if function.is_empty() {
        return stack;
    }
    if stack.len() > 0 && same(stack[stack.len() - 1].function.as_str(), function) {
        return stack;
    }
    stack.push(
        SampleFrame {
            module: copy("internal"),
            function: copy(function),
            file: String::new(),
            line: 0,
        },
    );
    assert(stack_view(stack@) =~= before.push(stack@[stack@.len() - 1]@));
    stack
}

/// An I/O sample ends at the blocking call, and names it once more only when it
/// was not the leaf already.
pub proof fn law_io_samples_end_at_the_blocking_call(
    stack: Seq<SampleFrameView>,
    function: Seq<char>,
)
    requires
        function.len() > 0,
    ensures
        ending_at(stack, function).len() > 0,
        ending_at(stack, function).last().function == function,
        ending_at(ending_at(stack, function), function) == ending_at(stack, function),
{
}

/// Record a measured I/O wait on the stack that was walked for it.
pub fn record_io_wait(
    sampler: &mut Sampler,
    duration_nanos: u128,
    function: &str,
    walked: Vec<SampleFrame>,
    at: u128,
)
    requires
        old(sampler).active matches Some(a) ==> a.1.sample_rate_hz > 0,
    ensures
        sample_views(final(sampler).samples@) == match old(sampler).active {
            Some(a) => {
                let stack = ending_at(stack_view(walked@), function@);
                if io_wanted(old(sampler).active, duration_nanos) && stack.len() > 0 {
                    with_sample(
                        sample_views(old(sampler).samples@),
                        a.1.max_samples_per_request as nat,
                        sample_of(a.0@, a.1, SampleKind::Io, stack, duration_nanos, at),
                    )
                } else {
                    sample_views(old(sampler).samples@)
                }
            },
            None => sample_views(old(sampler).samples@),
        },
        *final(sampler) == (Sampler { samples: final(sampler).samples, ..*old(sampler) }),
{
    if !wants_io_wait(sampler, duration_nanos) {
        return ;
    }
    let stack = io_stack(walked, function);
    if stack.len() == 0 {
        assert(stack_view(stack@).len() == 0);
        return ;
    }
    assert(stack_view(stack@).len() > 0);
    let shared = Rc::new(stack);
    match &sampler.active {
        None => {},
        Some(a) => {
            push_sample(
                &mut sampler.samples,
                &a.1,
                SampleKind::Io,
                &shared,
                duration_nanos,
                at,
                &a.0,
            );
        },
    }
}

/// Queue a tick.
pub fn note_tick(sampler: &mut Sampler)
    ensures
        *final(sampler) == (Sampler {
            pending_ticks: old(sampler).pending_ticks.wrapping_add(1),
            ..*old(sampler)
        }),
{
    sampler.pending_ticks = sampler.pending_ticks.wrapping_add(1);
}

/// A tick with its stack already walked, while the request is being sampled.
pub fn on_tick(
    sampler: &mut Sampler,
    context: &TraceContext,
    config: &SamplerConfig,
    stack: Vec<SampleFrame>,
    at: u128,
)
    requires
        config.sample_rate_hz > 0,
    ensures
        sample_views(final(sampler).samples@) == if old(sampler).sampling_active {
            captured(
                sample_views(old(sampler).samples@),
                context@,
                *config,
                SampleKind::Cpu,
                stack_view(stack@),
                at,
            )
        } else {
            sample_views(old(sampler).samples@)
        },
        *final(sampler) == (Sampler { samples: final(sampler).samples, ..*old(sampler) }),
{
    if sampler.sampling_active {
        capture_sample(sampler, context, config, SampleKind::Cpu, stack, at);
    }
}

/// The samples once a stack was captured: an empty one never is.
pub open spec fn captured(
    samples: Seq<SampleView>,
    context: ContextView,
    config: SamplerConfig,
    kind: SampleKind,
    stack: Seq<SampleFrameView>,
    at: u128,
) -> Seq<SampleView> {
    if stack.len() == 0 {
        samples
    } else {
        with_sample(
            samples,
            config.max_samples_per_request as nat,
            sample_of(context, config, kind, stack, config.period() as u128, at),
        )
    }
}

/// Buffer one sample of one period's weight.
pub fn capture_sample(
    sampler: &mut Sampler,
    context: &TraceContext,
    config: &SamplerConfig,
    kind: SampleKind,
    stack: Vec<SampleFrame>,
    at: u128,
)
    requires
        config.sample_rate_hz > 0,
    ensures
        sample_views(final(sampler).samples@) == captured(
            sample_views(old(sampler).samples@),
            context@,
            *config,
            kind,
            stack_view(stack@),
            at,
        ),
        *final(sampler) == (Sampler { samples: final(sampler).samples, ..*old(sampler) }),
{
    if stack.len() == 0 {
        return ;
    }
    let period: u64 = config.period_nanoseconds();
    let shared = Rc::new(stack);
    push_sample(&mut sampler.samples, config, kind, &shared, period as u128, at, context);
}

/// A buffer of samples that is sound: within its cap, and with no empty stack.
pub open spec fn sound(samples: Seq<SampleView>, max: nat) -> bool {
    samples.len() <= max && forall|i: int|
        0 <= i < samples.len() ==> (#[trigger] samples[i]).stack.len() > 0
}

/// Nothing that is recorded makes a buffer exceed its cap or hold an empty
/// stack.
pub proof fn law_buffers_stay_sound(
    samples: Seq<SampleView>,
    context: ContextView,
    config: SamplerConfig,
    kind: SampleKind,
    drain: Drain,
    stack: Seq<SampleFrameView>,
    at: u128,
)
    requires
        sound(samples, config.max_samples_per_request as nat),
    ensures
        sound(
            captured(samples, context, config, kind, stack, at),
            config.max_samples_per_request as nat,
        ),
        sound(
            drained(samples, context, config, drain, stack, at),
            config.max_samples_per_request as nat,
        ),
{
}

/// A request ends: hand its samples over and forget it. The timer is disarmed.
pub fn on_request_end(sampler: &mut Sampler) -> (r: Vec<Sample>)
    ensures
        r@ == old(sampler).samples@,
        final(sampler).samples@.len() == 0,
        *final(sampler) == (Sampler {
            samples: final(sampler).samples,
            sampling_active: false,
            active: None,
            clock: idle_clock(),
            pending_ticks: 0,
            ..*old(sampler)
        }),
{
    sampler.sampling_active = false;
    sampler.active = None;
    sampler.clock = DrainClock::idle();
    sampler.pending_ticks = 0;
    let mut out: Vec<Sample> = Vec::new();
    out.append(&mut sampler.samples);
    assert(out@ =~= old(sampler).samples@);
    out
}

/// A period in whole seconds and microseconds, as an interval timer takes it.
pub fn arm_timer(hz: u32) -> (r: (i64, i64))
    requires
        hz > 0,
    ensures
        0 <= r.1 < 1000000,
        r.0 * 1000000 + r.1 == 1000000int / hz as int,
{
    proof {
        assert(0 <= 1000000int / hz as int <= 1000000) by (nonlinear_arith)
            requires
                hz > 0,
        ;
    }
    let period: u32 = 1000000 / hz;
    ((period / 1000000) as i64, (period % 1000000) as i64)
}

/// The interval that stops a timer.
pub fn disarm_timer() -> (r: (i64, i64))
    ensures
        r == (0i64, 0i64),
{
    (0, 0)
}

/// One entry of the engine's call chain.
pub struct ChainEntry {
    pub name: Option<String>,
    pub class: Option<String>,
    /// Defined in PHP code.
    pub user: bool,
    pub filename: Option<String>,
    pub line: Option<u32>,
}

/// The frame of an entry that has a name.
pub open spec fn entry_frame(e: ChainEntry) -> SampleFrameView {
    SampleFrameView {
        module: origin_word(e.user),
        function: match e.class {
            Some(class) => class@ + "::"@ + e.name->0@,
            None => e.name->0@,
        },
        file: match e.filename {
            Some(file) => if e.user {
                file@
            } else {
                Seq::empty()
            },
            None => Seq::empty(),
        },
        line: match e.line {
            Some(line) => if e.user {
                line
            } else {
                0
            },
            None => 0,
        },
    }
}

/// The frames of a chain that starts at the leaf: named entries only, at most
/// `max_depth` of them.
pub open spec fn leaf_first(chain: Seq<ChainEntry>, max_depth: nat) -> Seq<SampleFrameView>
    decreases chain.len(),
{
    if chain.len() == 0 {
        Seq::empty()
    } else {
        let before = leaf_first(chain.drop_last(), max_depth);
        if before.len() < max_depth && chain.last().name is Some {
            before.push(entry_frame(chain.last()))
        } else {
            before
        }
    }
}

fn frame_of_entry(e: &ChainEntry, name: &str) -> (r: SampleFrame)
    requires
        e.name is Some,
        name@ == e.name->0@,
    ensures
        r@ == entry_frame(*e),
{
    let function = match &e.class {
        Some(class) => {
            let mut f = class.clone();
            f.append("::");
            f.append(name);
            f
        },
        None => copy(name),
    };
    let file = match &e.filename {
        Some(file) => if e.user {
            file.clone()
        } else {
            String::new()
        },
        None => String::new(),
    };
    let line: u32 = match e.line {
        Some(line) => if e.user {
            line
        } else {
            0
        },
        None => 0,
    };
    let module = if e.user {
        copy("php")
    } else {
        copy("internal")
    };
    SampleFrame { module, function, file, line }
}

/// The stack of a call chain, root first.
pub fn walk_current_stack(chain: &Vec<ChainEntry>, max_depth: usize) -> (r: Vec<SampleFrame>)
    ensures
        stack_view(r@) == leaf_first(chain@, max_depth as nat).reverse(),
{
    let mut frames: Vec<SampleFrame> = Vec::new();
    let mut i: usize = 0;
    assert(stack_view(frames@) =~= leaf_first(chain@.take(0), max_depth as nat));
    while i < chain.len()
        invariant
            i <= chain@.len(),
            stack_view(frames@) == leaf_first(chain@.take(i as int), max_depth as nat),
        decreases chain@.len() - i,
    {
        assert(chain@.take(i + 1).drop_last() =~= chain@.take(i as int));
        assert(chain@.take(i + 1).last() == chain@[i as int]);
        let ghost before = stack_view(frames@);
        assert(before.len() == frames@.len());
        if frames.len() < max_depth {
            if let Some(name) = &chain[i].name {
                let f = frame_of_entry(&chain[i], name.as_str());
                let ghost fv = f@;
                frames.push(f);
                assert(stack_view(frames@) =~= before.push(fv));
            }
        }
        i = i + 1;
    }
    assert(chain@.take(chain@.len() as int) =~= chain@);
    let ghost leaf = stack_view(frames@);
    let mut out: Vec<SampleFrame> = Vec::new();
    assert(leaf.take(leaf.len() as int) =~= leaf);
    assert(stack_view(out@) =~= leaf.skip(leaf.len() as int).reverse());
    while frames.len() > 0
        invariant
            frames@.len() <= leaf.len(),
            stack_view(frames@) == leaf.take(frames@.len() as int),
            stack_view(out@) == leaf.skip(frames@.len() as int).reverse(),
        decreases frames@.len(),
    {
        let ghost n = frames@.len() as int;
        let ghost was = stack_view(frames@);
        let ghost done = stack_view(out@);
        if let Some(f) = frames.pop() {
            let ghost fv = f@;
            assert(was[n - 1] == fv);
            out.push(f);
            assert(stack_view(out@) =~= done.push(fv));
            assert(leaf[n - 1] == fv);
            assert(leaf.skip(n - 1).reverse() =~= leaf.skip(n).reverse().push(fv));
            assert(stack_view(frames@) =~= leaf.take(n - 1));
        }
    }
    assert(leaf.skip(0) =~= leaf);
    out
}

/// A walked stack is never deeper than asked.
pub proof fn law_walks_are_bounded(chain: Seq<ChainEntry>, max_depth: nat)
    ensures
        leaf_first(chain, max_depth).reverse().len() <= max_depth,
    decreases chain.len(),
{
    if chain.len() > 0 {
        law_walks_are_bounded(chain.drop_last(), max_depth);
    }
}

/// No CPU time is lost in a drain: where ticks are pending and CPU time is
/// collected, the drain hands out a period for each of them, and the window banks
/// the same amount. Nothing is handed out without ticks or where CPU time is not
/// collected. The ticks are used up, and no sample is touched.
pub proof fn law_no_cpu_time_is_lost_in_a_drain(
    sampler: &mut Sampler,
    now: u128,
    r: Option<Drain>,
    config: &SamplerConfig,
    period: u64,
)
    requires
        call_ensures(consume_pending_ticks, (sampler, now), r),
        old(sampler).active is Some,
        *config == (old(sampler).active->0).1,
        config.sample_rate_hz > 0,
        call_ensures(SamplerConfig::period_nanoseconds, (config,), period),
    ensures
        period == 1_000_000_000int / config.sample_rate_hz as int,
        ({
            let ticks = old(sampler).pending_ticks as int;
            let cpu = period * ticks;
            let banked = old(sampler).clock.window_cpu_nanos;
            let handed = match r {
                Some(drain) => match drain.window {
                    Some(window) => window.1 as int,
                    None => 0,
                },
                None => 0,
            };
            &&& ticks > 0 && config.kinds.cpu ==> r is Some && r->0.cpu_nanos is Some
                && r->0.cpu_nanos->0 == cpu
            &&& ticks == 0 || !config.kinds.cpu ==> (r matches Some(drain) ==> drain.cpu_nanos
                is None)
            &&& banked + cpu <= u128::MAX && (config.kinds.wall || config.kinds.off_cpu)
                ==> final(sampler).clock.window_cpu_nanos + handed == banked + cpu
        }),
        final(sampler).pending_ticks == 0,
        final(sampler).samples == old(sampler).samples,
        final(sampler).active == old(sampler).active,
        final(sampler).labels == old(sampler).labels,
{
    let hz = config.sample_rate_hz;
    let ticks = old(sampler).pending_ticks;
    assert(0 <= 1_000_000_000int / hz as int <= 1_000_000_000) by (nonlinear_arith)
        requires
            hz > 0,
    ;
    assert(0 <= period * ticks <= 1_000_000_000 * 0xFFFF_FFFF) by (nonlinear_arith)
        requires
            period <= 1_000_000_000,
            0 <= ticks <= 0xFFFF_FFFF,
    ;
}

/// A drain closes a window once a whole period of wall time has passed since the
/// last one, and hands out exactly the wall time that was banked and that has
/// passed since. Before that it banks it. The first drain only starts the clock,
/// and no window is handed out where neither wall nor off-CPU time is collected.
pub proof fn law_wall_time_is_handed_out_whole(
    sampler: &mut Sampler,
    now: u128,
    r: Option<Drain>,
    config: &SamplerConfig,
    period: u64,
)
    requires
        call_ensures(consume_pending_ticks, (sampler, now), r),
        old(sampler).active is Some,
        *config == (old(sampler).active->0).1,
        config.sample_rate_hz > 0,
        call_ensures(SamplerConfig::period_nanoseconds, (config,), period),
        old(sampler).clock.last_monotonic_nanos matches Some(last) ==> last <= now && old(
            sampler,
        ).clock.pending_wall_nanos + (now - last) <= u128::MAX,
    ensures
        ({
            let clock = old(sampler).clock;
            let wanted = config.kinds.wall || config.kinds.off_cpu;
            let window = match r {
                Some(drain) => drain.window,
                None => None,
            };
            &&& !wanted ==> window is None
            &&& clock.last_monotonic_nanos is None ==> window is None
                && final(sampler).clock.pending_wall_nanos == clock.pending_wall_nanos
            &&& clock.last_monotonic_nanos matches Some(last) ==> {
                let wall = clock.pending_wall_nanos + (now - last);
                &&& wanted ==> (window is Some <==> wall >= period)
                &&& window matches Some(w) ==> w.0 == wall
                &&& wall < period ==> final(sampler).clock.pending_wall_nanos == wall
                &&& wall >= period ==> final(sampler).clock.pending_wall_nanos == 0
            }
            &&& final(sampler).clock.last_monotonic_nanos == Some(now)
        }),
{
}

/// Nothing is drained outside a sampled request, but the ticks are used up.
pub proof fn law_nothing_is_drained_outside_a_request(sampler: &mut Sampler, now: u128, r: Option<Drain>)
    requires
        call_ensures(consume_pending_ticks, (sampler, now), r),
        old(sampler).active is None,
    ensures
        r is None,
        final(sampler).pending_ticks == 0,
        final(sampler).clock == old(sampler).clock,
{
}

/// Every tick that is noted is pending until a drain.
pub proof fn law_every_tick_is_pending(sampler: &mut Sampler)
    requires
        call_ensures(note_tick, (sampler,), ()),
        old(sampler).pending_ticks < u32::MAX,
    ensures
        final(sampler).pending_ticks == old(sampler).pending_ticks + 1,
        final(sampler).samples == old(sampler).samples,
        final(sampler).active == old(sampler).active,
        final(sampler).clock == old(sampler).clock,
{
}

/// Whether a sample belongs to a request and a walk: its ids, the time it was taken
/// at, the period between ticks, and the walked stack.
pub open spec fn taken_from(
    s: Sample,
    context: TraceContext,
    config: SamplerConfig,
    stack: Seq<SampleFrame>,
    at: u128,
) -> bool {
    &&& s.trace_id@ == context.trace_id@
    &&& s.span_id@ == context.span_id@
    &&& opt_text(s.session_id) == opt_text(context.session_id)
    &&& s.sampled_at_unix_nanos == at
    &&& s.period_nanoseconds == 1_000_000_000int / config.sample_rate_hz as int
    &&& (*s.stack)@.len() == stack.len()
    &&& forall|i: int|
        0 <= i < stack.len() ==> (#[trigger] (*s.stack)@[i]).function@ == stack[i].function@
            && (*s.stack)@[i].module@ == stack[i].module@ && (*s.stack)@[i].file@ == stack[i].file@
            && (*s.stack)@[i].line == stack[i].line
}

proof fn lemma_taken_from(
    s: Sample,
    context: TraceContext,
    config: SamplerConfig,
    kind: SampleKind,
    stack: Seq<SampleFrame>,
    value: u128,
    at: u128,
)
    requires
        config.sample_rate_hz > 0,
        s@ == sample_of(context@, config, kind, stack_view(stack), value, at),
    ensures
        taken_from(s, context, config, stack, at),
        s.kind == kind,
        value <= i64::MAX ==> s.value_nanoseconds == value,
        value > i64::MAX ==> s.value_nanoseconds == i64::MAX,
{
    let hz = config.sample_rate_hz;
    assert(0 <= 1_000_000_000int / hz as int <= 1_000_000_000) by (nonlinear_arith)
        requires
            hz > 0,
    ;
    let own = stack_view((*s.stack)@);
    assert(own == stack_view(stack));
    assert(own.len() == (*s.stack)@.len());
    assert forall|i: int| 0 <= i < stack.len() implies (#[trigger] (*s.stack)@[i]).function@
        == stack[i].function@ && (*s.stack)@[i].module@ == stack[i].module@
        && (*s.stack)@[i].file@ == stack[i].file@ && (*s.stack)@[i].line == stack[i].line by {
        assert(own[i] == stack_view(stack)[i]);
    }
}

/// A drain with a stack leaves a CPU sample of the CPU time it handed out, a wall
/// sample of the window's wall time where wall time is collected, and an off-CPU
/// sample of the wall time without CPU time behind it where that is collected and
/// there is any: in this order, each with the whole of its time and the walked
/// stack. Without a stack it leaves nothing.
pub proof fn law_a_drain_leaves_its_samples(
    sampler: &mut Sampler,
    drain: Drain,
    stack: Vec<SampleFrame>,
    at: u128,
)
    requires
        call_ensures(record_drain, (sampler, drain, stack, at), ()),
        old(sampler).active is Some,
        (old(sampler).active->0).1.sample_rate_hz > 0,
        old(sampler).samples@.len() + 3 <= (old(sampler).active->0).1.max_samples_per_request,
        drain.cpu_nanos matches Some(cpu) ==> cpu <= i64::MAX,
        drain.window matches Some(window) ==> window.0 <= i64::MAX && window.1 <= i64::MAX,
    ensures
        ({
            let context = (old(sampler).active->0).0;
            let config = (old(sampler).active->0).1;
            let before = old(sampler).samples@;
            let after = final(sampler).samples@;
            let n = before.len() as int;
            let cpu = drain.cpu_nanos is Some;
            let wall = drain.window is Some && config.kinds.wall;
            let off = drain.window is Some && config.kinds.off_cpu && (drain.window->0).0
                > (drain.window->0).1;
            let i = if cpu {
                n + 1
            } else {
                n
            };
            let j = if wall {
                i + 1
            } else {
                i
            };
            let k = if off {
                j + 1
            } else {
                j
            };
            &&& stack@.len() == 0 ==> after.len() == n
            &&& stack@.len() > 0 ==> after.len() == k
            &&& forall|x: int| 0 <= x < n ==> (#[trigger] after[x])@ == before[x]@
            &&& stack@.len() > 0 && cpu ==> after[n].kind == SampleKind::Cpu
                && after[n].value_nanoseconds == drain.cpu_nanos->0 && taken_from(
                after[n],
                context,
                config,
                stack@,
                at,
            )
            &&& stack@.len() > 0 && wall ==> after[i].kind == SampleKind::Wall
                && after[i].value_nanoseconds == (drain.window->0).0 && taken_from(
                after[i],
                context,
                config,
                stack@,
                at,
            )
            &&& stack@.len() > 0 && off ==> after[j].kind == SampleKind::OffCpu
                && after[j].value_nanoseconds + (drain.window->0).1 == (drain.window->0).0
                && taken_from(after[j], context, config, stack@, at)
        }),
{
    let context = (old(sampler).active->0).0;
    let config = (old(sampler).active->0).1;
    let before = sample_views(old(sampler).samples@);
    let after = sample_views(final(sampler).samples@);
    let n = before.len() as int;
    assert(n == old(sampler).samples@.len());
    assert(after.len() == final(sampler).samples@.len());
    assert(stack_view(stack@).len() == stack@.len());
    assert forall|x: int| 0 <= x < n implies (#[trigger] final(sampler).samples@[x])@ == old(
        sampler,
    ).samples@[x]@ by {
        assert(after[x] == before[x]);
    }
    let cpu = drain.cpu_nanos is Some;
    let wall = drain.window is Some && config.kinds.wall;
    let off = drain.window is Some && config.kinds.off_cpu && (drain.window->0).0
        > (drain.window->0).1;
    let i = if cpu {
        n + 1
    } else {
        n
    };
    let j = if wall {
        i + 1
    } else {
        i
    };
    if stack@.len() > 0 {
        if cpu {
            assert(after[n] == final(sampler).samples@[n]@);
            lemma_taken_from(
                final(sampler).samples@[n],
                context,
                config,
                SampleKind::Cpu,
                stack@,
                drain.cpu_nanos->0,
                at,
            );
        }
        if wall {
            assert(after[i] == final(sampler).samples@[i]@);
            lemma_taken_from(
                final(sampler).samples@[i],
                context,
                config,
                SampleKind::Wall,
                stack@,
                (drain.window->0).0,
                at,
            );
        }
        if off {
            assert(after[j] == final(sampler).samples@[j]@);
            lemma_taken_from(
                final(sampler).samples@[j],
                context,
                config,
                SampleKind::OffCpu,
                stack@,
                ((drain.window->0).0 - (drain.window->0).1) as u128,
                at,
            );
        }
    }
}

/// A full buffer takes nothing more, and nothing is recorded outside a sampled
/// request.
pub proof fn law_a_full_buffer_takes_nothing(
    sampler: &mut Sampler,
    drain: Drain,
    stack: Vec<SampleFrame>,
    at: u128,
)
    requires
        call_ensures(record_drain, (sampler, drain, stack, at), ()),
        old(sampler).active is None || old(sampler).samples@.len()
            >= (old(sampler).active->0).1.max_samples_per_request,
    ensures
        final(sampler).samples@.len() == old(sampler).samples@.len(),
{
    assert(sample_views(old(sampler).samples@).len() == old(sampler).samples@.len());
    assert(sample_views(final(sampler).samples@).len() == final(sampler).samples@.len());
}

/// A measured I/O wait leaves a sample of the whole wait, on the walked stack with
/// the blocking call as its leaf, where I/O is collected and the wait is no shorter
/// than asked for. A shorter one leaves nothing.
pub proof fn law_a_long_wait_leaves_a_sample(
    sampler: &mut Sampler,
    duration: u128,
    function: &str,
    walked: Vec<SampleFrame>,
    stack: Vec<SampleFrame>,
    at: u128,
    before: &Sampler,
    wanted: bool,
)
    requires
        call_ensures(record_io_wait, (sampler, duration, function, walked, at), ()),
        call_ensures(io_stack, (walked, function), stack),
        *before == *old(sampler),
        call_ensures(wants_io_wait, (before, duration), wanted),
        old(sampler).active is Some,
        (old(sampler).active->0).1.sample_rate_hz > 0,
        old(sampler).samples@.len() < (old(sampler).active->0).1.max_samples_per_request,
        function@.len() > 0,
        duration <= i64::MAX,
    ensures
        wanted <==> (old(sampler).active->0).1.kinds.io && duration
            >= (old(sampler).active->0).1.min_io_wait_nanos,
        !wanted ==> final(sampler).samples@.len() == old(sampler).samples@.len(),
        wanted ==> {
            let n = old(sampler).samples@.len();
            let s = final(sampler).samples@[n as int];
            &&& final(sampler).samples@.len() == n + 1
            &&& s.kind == SampleKind::Io
            &&& s.value_nanoseconds == duration
            &&& taken_from(s, (old(sampler).active->0).0, (old(sampler).active->0).1, stack@, at)
        },
        stack@.len() > 0 && stack@.last().function@ == function@,
{
    let n = old(sampler).samples@.len();
    let after = sample_views(final(sampler).samples@);
    assert(sample_views(old(sampler).samples@).len() == n);
    assert(after.len() == final(sampler).samples@.len());
    let walk = stack_view(walked@);
    let ended = stack_view(stack@);
    assert(ended.len() == stack@.len());
    law_io_samples_end_at_the_blocking_call(walk, function@);
    assert(ended.last() == stack@.last()@);
    if wanted {
        assert(after[n as int] == final(sampler).samples@[n as int]@);
        lemma_taken_from(
            final(sampler).samples@[n as int],
            (old(sampler).active->0).0,
            (old(sampler).active->0).1,
            SampleKind::Io,
            stack@,
            duration,
            at,
        );
    }
}

/// The blocking call is put under a stack once: a stack that ends at it already is
/// left alone, any other gets it as an internal leaf and keeps all its frames.
pub proof fn law_the_blocking_call_is_the_leaf(
    walked: Vec<SampleFrame>,
    function: &str,
    r: Vec<SampleFrame>,
)
    requires
        call_ensures(io_stack, (walked, function), r),
    ensures
        ({
            let there = walked@.len() > 0 && walked@.last().function@ == function@;
            &&& function@.len() == 0 || there ==> r@.len() == walked@.len()
            &&& function@.len() > 0 && !there ==> r@.len() == walked@.len() + 1
            &&& function@.len() > 0 && !there ==> r@.last().function@ == function@
                && r@.last().module@ == "internal"@ && r@.last().file@.len() == 0
                && r@.last().line == 0
        }),
        forall|i: int| 0 <= i < walked@.len() ==> (#[trigger] r@[i])@ == walked@[i]@,
{
    let before = stack_view(walked@);
    let after = stack_view(r@);
    assert(before.len() == walked@.len() && after.len() == r@.len());
    if walked@.len() > 0 {
        assert(before.last() == walked@.last()@);
    }
    if r@.len() > 0 {
        assert(after.last() == r@.last()@);
    }
    assert forall|i: int| 0 <= i < walked@.len() implies (#[trigger] r@[i])@ == walked@[i]@ by {
        assert(after[i] == before[i]);
    }
}

/// A tick with its stack at hand leaves a CPU sample of one period, while the
/// request is sampled and there is room.
pub proof fn law_a_tick_leaves_a_period(
    sampler: &mut Sampler,
    context: &TraceContext,
    config: &SamplerConfig,
    stack: Vec<SampleFrame>,
    at: u128,
)
    requires
        call_ensures(on_tick, (sampler, context, config, stack, at), ()),
        config.sample_rate_hz > 0,
    ensures
        ({
            let n = old(sampler).samples@.len();
            let takes = old(sampler).sampling_active && stack@.len() > 0 && n
                < config.max_samples_per_request;
            &&& !takes ==> final(sampler).samples@.len() == n
            &&& takes ==> final(sampler).samples@.len() == n + 1
            &&& takes ==> final(sampler).samples@[n as int].kind == SampleKind::Cpu
            &&& takes ==> final(sampler).samples@[n as int].value_nanoseconds == 1_000_000_000int
                / config.sample_rate_hz as int
            &&& takes ==> taken_from(
                final(sampler).samples@[n as int],
                *context,
                *config,
                stack@,
                at,
            )
        }),
{
    let n = old(sampler).samples@.len();
    let after = sample_views(final(sampler).samples@);
    assert(sample_views(old(sampler).samples@).len() == n);
    assert(after.len() == final(sampler).samples@.len());
    assert(stack_view(stack@).len() == stack@.len());
    let hz = config.sample_rate_hz;
    assert(0 <= 1_000_000_000int / hz as int <= 1_000_000_000) by (nonlinear_arith)
        requires
            hz > 0,
    ;
    if old(sampler).sampling_active && stack@.len() > 0 && n < config.max_samples_per_request {
        assert(after[n as int] == final(sampler).samples@[n as int]@);
        lemma_taken_from(
            final(sampler).samples@[n as int],
            *context,
            *config,
            SampleKind::Cpu,
            stack@,
            config.period() as u128,
            at,
        );
    }
}

/// A request begins with nothing of the one before it, and is profiled only where
/// it is sampled: then the timer runs at the tuned rate, for this request.
pub proof fn law_a_request_is_profiled_only_when_sampled(
    sampler: &mut Sampler,
    context: &TraceContext,
    config: &SamplerConfig,
    r: Option<u32>,
)
    requires
        call_ensures(on_request_start, (sampler, context, config), r),
    ensures
        context.sampled ==> r == Some(config.sample_rate_hz),
        !context.sampled ==> r is None,
        final(sampler).sampling_active == context.sampled,
        final(sampler).active is Some <==> context.sampled,
        final(sampler).active matches Some(a) ==> {
            &&& a.0.trace_id@ == context.trace_id@
            &&& a.0.span_id@ == context.span_id@
            &&& opt_text(a.0.session_id) == opt_text(context.session_id)
            &&& a.1.sample_rate_hz == config.sample_rate_hz
            &&& a.1.kinds == config.kinds
            &&& a.1.max_samples_per_request == config.max_samples_per_request
            &&& a.1.max_stack_depth == config.max_stack_depth
            &&& a.1.min_io_wait_nanos == config.min_io_wait_nanos
            &&& a.1.series_id@ == config.series_id@
        },
        final(sampler).samples@.len() == 0,
        final(sampler).labels@.len() == 0,
        final(sampler).pending_ticks == 0,
        final(sampler).clock.last_monotonic_nanos is None,
        final(sampler).clock.pending_wall_nanos == 0,
        final(sampler).clock.window_cpu_nanos == 0,
{
}

/// A request's end hands over all its samples, once, and stops the sampling.
pub proof fn law_samples_are_handed_over_once(
    sampler: &mut Sampler,
    r: Vec<Sample>,
    again: &mut Sampler,
    rest: Vec<Sample>,
)
    requires
        call_ensures(on_request_end, (sampler,), r),
        *old(again) == *final(sampler),
        call_ensures(on_request_end, (again,), rest),
    ensures
        r@ == old(sampler).samples@,
        rest@.len() == 0,
        !final(sampler).sampling_active,
        final(sampler).active is None,
        final(sampler).pending_ticks == 0,
        final(sampler).labels == old(sampler).labels,
{
}

/// The tuning follows its settings: a rate of zero switches the profiler off, any
/// other is held to 1000 hertz and 99 without one; the kinds are those that are
/// listed, or all; there is room for 2000 samples of each kind and for stacks 127
/// deep; waits are counted from the set number of microseconds, or 1000 of them.
pub proof fn law_the_tuning_follows_its_settings(
    sources: &Sources,
    env: &SamplerEnv<'_>,
    r: Option<SamplerConfig>,
    hz: u32,
    kinds: Option<String>,
    list: &str,
    listed: SampleKinds,
    io_us: u64,
    series: String,
)
    requires
        call_ensures(SamplerConfig::resolve, (sources, env), r),
        call_ensures(
            u32_value,
            (sources, env.sample_rate, "CHRONOS_PHP_PROFILE_SAMPLE_RATE", 99u32),
            hz,
        ),
        call_ensures(get, (sources, env.types, "CHRONOS_PHP_PROFILE_TYPES"), kinds),
        kinds matches Some(text) ==> list@ == text@,
        call_ensures(SampleKinds::parse, (list,), listed),
        call_ensures(
            u64_value,
            (sources, env.io_min_us, "CHRONOS_PHP_PROFILE_IO_MIN_US", 1000u64),
            io_us,
        ),
        call_ensures(
            string,
            (sources, env.series_id, "CHRONOS_PHP_PROFILE_SERIES_ID", "php"),
            series,
        ),
    ensures
        r is None <==> hz == 0,
        r matches Some(config) ==> {
            &&& hz <= 1000 ==> config.sample_rate_hz == hz
            &&& hz > 1000 ==> config.sample_rate_hz == 1000
            &&& kinds is Some ==> config.kinds == listed
            &&& kinds is None ==> config.kinds.cpu && config.kinds.wall && config.kinds.off_cpu
                && config.kinds.io
            &&& config.min_io_wait_nanos == io_us * 1000
            &&& config.series_id@ == series@
            &&& config.max_stack_depth == 127
            &&& config.max_samples_per_request >= 2000
            &&& config.kinds == listed && kinds is Some ==> config.max_samples_per_request == 2000
                * listed.how_many()
            &&& kinds is None ==> config.max_samples_per_request == 8000
        },
{
    if let Some(text) = kinds {
        law_some_kind_is_always_collected(text@);
    }
}

/// A kind is named by its word in any letter case, with white space around it or
/// none. Off-CPU time has three spellings.
pub proof fn law_kinds_by_name(value: &str, cut: String, cut_text: &str, low: String, r: Option<SampleKind>)
    requires
        call_ensures(SampleKind::parse, (value,), r),
        call_ensures(trim, (value,), cut),
        cut_text@ == cut@,
        call_ensures(to_lowercase, (cut_text,), low),
    ensures
        r == Some(SampleKind::Cpu) <==> low@ == "cpu"@,
        r == Some(SampleKind::Wall) <==> low@ == "wall"@,
        r == Some(SampleKind::OffCpu) <==> low@ == "off_cpu"@ || low@ == "offcpu"@ || low@
            == "off-cpu"@,
        r == Some(SampleKind::Io) <==> low@ == "io"@,
{
    reveal_strlit("cpu");
    reveal_strlit("wall");
    reveal_strlit("off_cpu");
    reveal_strlit("offcpu");
    reveal_strlit("off-cpu");
    reveal_strlit("io");
    assert("cpu"@.len() == 3 && "wall"@.len() == 4 && "off_cpu"@.len() == 7);
    assert("offcpu"@.len() == 6 && "off-cpu"@.len() == 7 && "io"@.len() == 2);
}

/// A list collects the kinds it names and no others; one that names none collects
/// every kind.
pub proof fn law_kinds_of_a_list(
    list: &str,
    words: Vec<String>,
    kind: SampleKind,
    r: SampleKinds,
    count: usize,
    any: bool,
)
    requires
        call_ensures(SampleKinds::parse, (list,), r),
        call_ensures(split_on, (list, ','), words),
        call_ensures(SampleKinds::count, (r,), count),
        call_ensures(SampleKinds::any, (r,), any),
    ensures
        ({
            let collected = match kind {
                SampleKind::Cpu => r.cpu,
                SampleKind::Wall => r.wall,
                SampleKind::OffCpu => r.off_cpu,
                SampleKind::Io => r.io,
            };
            let named = exists|i: int|
                0 <= i < words@.len() && SampleKind::named((#[trigger] words@[i])@) == Some(kind);
            let none_named = forall|i: int|
                0 <= i < words@.len() ==> SampleKind::named((#[trigger] words@[i])@) is None;
            &&& collected <==> named || none_named
        }),
        any,
        1 <= count <= 4,
        count == 4 <==> r.cpu && r.wall && r.off_cpu && r.io,
        count == 1 && r.cpu ==> !r.wall && !r.off_cpu && !r.io,
{
    let all = texts(words@);
    assert(all.len() == words@.len());
    law_some_kind_is_always_collected(list@);
    if names_kind(all, kind) {
        let i = choose|i: int| 0 <= i < all.len() && SampleKind::named(#[trigger] all[i]) == Some(kind);
        assert(SampleKind::named(words@[i]@) == Some(kind));
    }
    if exists|i: int|
        0 <= i < words@.len() && SampleKind::named((#[trigger] words@[i])@) == Some(kind) {
        let i = choose|i: int|
            0 <= i < words@.len() && SampleKind::named((#[trigger] words@[i])@) == Some(kind);
        assert(SampleKind::named(all[i]) == Some(kind));
    }
    if names_any(all) {
        let i = choose|i: int| 0 <= i < all.len() && SampleKind::named(#[trigger] all[i]) is Some;
        assert(SampleKind::named(words@[i]@) is Some);
    } else {
        assert forall|i: int| 0 <= i < words@.len() implies SampleKind::named(
            (#[trigger] words@[i])@,
        ) is None by {
            assert(SampleKind::named(all[i]) is None);
        }
    }
}

/// The names of the kinds on the wire, and the unit they all share.
pub proof fn law_kinds_on_the_wire(kind: SampleKind, name: &'static str, unit: &'static str)
    requires
        call_ensures(SampleKind::proto_name, (kind,), name),
        call_ensures(SampleKind::unit, (kind,), unit),
    ensures
        kind == SampleKind::Cpu ==> name@ == "PROFILE_SAMPLE_TYPE_CPU"@,
        kind == SampleKind::Wall ==> name@ == "PROFILE_SAMPLE_TYPE_WALL"@,
        kind == SampleKind::OffCpu ==> name@ == "PROFILE_SAMPLE_TYPE_OFF_CPU"@,
        kind == SampleKind::Io ==> name@ == "PROFILE_SAMPLE_TYPE_IO"@,
        unit@ == "nanoseconds"@,
{
}

/// A character as a tag key keeps it: a capital in lower case, a letter, digit,
/// dot, underscore or hyphen as it is, anything else as an underscore.
pub open spec fn key_form(c: char) -> char {
    if 'A' <= c <= 'Z' {
        (c as u32 + 32) as char
    } else if ('a' <= c <= 'z') || ('0' <= c <= '9') || c == '.' || c == '-' {
        c
    } else {
        '_'
    }
}

/// A tag key of at most 48 characters, with nothing at its ends to take off, is
/// kept character by character.
pub proof fn law_tag_keys_are_kept_by_character(key: &str, r: Option<String>)
    requires
        call_ensures(normalise_label_key, (key,), r),
        0 < key@.len() <= 48,
        key_form(key@[0]) != '_',
        key_form(key@.last()) != '_',
    ensures
        r is Some,
        r->0@.len() == key@.len(),
        forall|i: int| 0 <= i < key@.len() ==> #[trigger] r->0@[i] == key_form(key@[i]),
{
    let k = key@;
    assert(!crate::text::is_white(k[0]) && !crate::text::is_white(k.last()));
    assert(trimmed(k) == k);
    let full = k.map_values(|c: char| safe_char(lowered(c)));
    assert forall|i: int| 0 <= i < k.len() implies #[trigger] full[i] == key_form(k[i]) by {
        lemma_key_form(k[i]);
    }
    assert(cleaned(k) == full);
    assert(full[0] != '_');
    assert(crate::text::stripped_start(full, '_') == full);
    assert(full.last() == full[full.len() - 1]);
    assert(stripped_end(full, '_') == full);
}

proof fn lemma_key_form(c: char)
    ensures
        safe_char(lowered(c)) == key_form(c),
{
    crate::text::lemma_lowered(c);
}

/// A tag that is set is there with its value, cut to 200 bytes, under its kept key,
/// while there is room or the key is there already; the other tags stay. A blank
/// value, or a key of which nothing is left, sets nothing.
pub proof fn law_a_tag_that_is_set_is_there(
    labels: &mut Labels,
    key: &str,
    value: &str,
    kept: Option<String>,
    cut: String,
    cut_text: &str,
    shown: String,
)
    requires
        old(labels).wf(),
        call_ensures(set_label, (labels, key, value), ()),
        call_ensures(normalise_label_key, (key,), kept),
        call_ensures(trim, (value,), cut),
        cut_text@ == cut@,
        call_ensures(cap, (cut_text, 200usize), shown),
    ensures
        kept is None || cut@.len() == 0 ==> final(labels)@ == old(labels)@,
        kept is Some && cut@.len() > 0 ==> {
            let known = exists|i: int| 0 <= i < old(labels)@.len() && (#[trigger] old(labels)@[i]).0 == kept->0@;
            &&& known ==> final(labels)@.len() == old(labels)@.len()
            &&& !known && old(labels)@.len() < 12 ==> final(labels)@.len() == old(labels)@.len() + 1
            &&& !known && old(labels)@.len() >= 12 ==> final(labels)@ == old(labels)@
            &&& known || old(labels)@.len() < 12 ==> final(labels)@.contains((kept->0@, shown@))
            &&& forall|i: int|
                0 <= i < old(labels)@.len() && (#[trigger] old(labels)@[i]).0 != kept->0@
                    ==> final(labels)@[i] == old(labels)@[i]
        },
{
    let l = old(labels)@;
    let after = final(labels)@;
    if kept is Some && cut@.len() > 0 {
        let k = kept->0@;
        if crate::zend_helpers::has_pair(l, k) {
            let i = choose|i: int| 0 <= i < l.len() && #[trigger] l[i].0 == k;
            assert(after[i] == (k, shown@));
            assert(l[i].0 == k);
        } else if l.len() < 12 {
            assert(after[l.len() as int] == (k, shown@));
        }
    }
}

/// The tags are handed over whole and once; looking at them takes nothing.
pub proof fn law_tags_are_handed_over_once(
    labels: &mut Labels,
    before: &Labels,
    seen: Vec<(String, String)>,
    taken: Vec<(String, String)>,
)
    requires
        *before == *old(labels),
        call_ensures(labels_snapshot, (before,), seen),
        call_ensures(take_labels, (labels,), taken),
    ensures
        pairs(seen@) == old(labels)@,
        pairs(taken@) == old(labels)@,
        final(labels)@.len() == 0,
{
}

/// An interval timer is armed with a second divided by the rate, in whole
/// microseconds, and disarmed with nothing.
pub proof fn law_the_timer_ticks_at_the_rate(hz: u32, armed: (i64, i64), disarmed: (i64, i64))
    requires
        hz > 0,
        call_ensures(arm_timer, (hz,), armed),
        call_ensures(disarm_timer, (), disarmed),
    ensures
        0 <= armed.1 < 1_000_000,
        armed.0 * 1_000_000 + armed.1 == 1_000_000int / hz as int,
        disarmed.0 == 0 && disarmed.1 == 0,
{
}

proof fn lemma_leaf_first_named(chain: Seq<ChainEntry>, max_depth: nat)
    requires
        chain.len() <= max_depth,
        forall|i: int| 0 <= i < chain.len() ==> (#[trigger] chain[i]).name is Some,
    ensures
        leaf_first(chain, max_depth).len() == chain.len(),
        forall|i: int|
            0 <= i < chain.len() ==> #[trigger] leaf_first(chain, max_depth)[i] == entry_frame(
                chain[i],
            ),
    decreases chain.len(),
{
    if chain.len() > 0 {
        let init = chain.drop_last();
        assert forall|i: int| 0 <= i < init.len() implies (#[trigger] init[i]).name is Some by {
            assert(init[i] == chain[i]);
        }
        lemma_leaf_first_named(init, max_depth);
        assert(chain[chain.len() - 1].name is Some);
        assert forall|i: int| 0 <= i < chain.len() implies #[trigger] leaf_first(chain, max_depth)[i]
            == entry_frame(chain[i]) by {
            if i < init.len() {
                assert(leaf_first(init, max_depth)[i] == entry_frame(init[i]));
            }
        }
    }
}

/// A walked stack is the call chain, root first: each function under its name, with
/// its class before it, marked as PHP code or internal; only PHP code has a file
/// and a line.
pub proof fn law_a_walked_stack_is_the_chain(
    chain: &Vec<ChainEntry>,
    max_depth: usize,
    r: Vec<SampleFrame>,
    i: int,
)
    requires
        call_ensures(walk_current_stack, (chain, max_depth), r),
        chain@.len() <= max_depth,
        forall|k: int| 0 <= k < chain@.len() ==> (#[trigger] chain@[k]).name is Some,
        0 <= i < chain@.len(),
    ensures
        r@.len() == chain@.len(),
        ({
            let entry = chain@[chain@.len() - 1 - i];
            let frame = r@[i];
            &&& entry.class is None ==> frame.function@ == entry.name->0@
            &&& entry.class matches Some(class) ==> frame.function@ == class@ + "::"@ + entry.name->0@
            &&& entry.user ==> frame.module@ == "php"@
            &&& !entry.user ==> frame.module@ == "internal"@
            &&& entry.user ==> (entry.filename matches Some(file) ==> frame.file@ == file@)
            &&& entry.user ==> (entry.line matches Some(line) ==> frame.line == line)
            &&& !entry.user ==> frame.file@.len() == 0 && frame.line == 0
        }),
{
    lemma_leaf_first_named(chain@, max_depth as nat);
    let leaf = leaf_first(chain@, max_depth as nat);
    let shown = stack_view(r@);
    assert(shown.len() == r@.len());
    assert(shown[i] == r@[i]@);
    assert(shown[i] == leaf[leaf.len() - 1 - i]);
}

/// A deep chain keeps the innermost calls.
pub proof fn law_a_deep_walk_keeps_the_innermost(
    chain: &Vec<ChainEntry>,
    max_depth: usize,
    r: Vec<SampleFrame>,
    inner: &Vec<ChainEntry>,
    short: Vec<SampleFrame>,
)
    requires
        call_ensures(walk_current_stack, (chain, max_depth), r),
        chain@.len() > max_depth,
        forall|k: int| 0 <= k < chain@.len() ==> (#[trigger] chain@[k]).name is Some,
        inner@ == chain@.take(max_depth as int),
        call_ensures(walk_current_stack, (inner, max_depth), short),
    ensures
        r@.len() == max_depth,
        stack_view(r@) == stack_view(short@),
{
    lemma_leaf_first_cut(chain@, max_depth as nat);
    assert forall|k: int| 0 <= k < inner@.len() implies (#[trigger] inner@[k]).name is Some by {
        assert(inner@[k] == chain@[k]);
    }
    lemma_leaf_first_named(inner@, max_depth as nat);
    assert(stack_view(r@).len() == r@.len());
}

proof fn lemma_leaf_first_cut(chain: Seq<ChainEntry>, max_depth: nat)
    requires
        chain.len() >= max_depth,
        forall|i: int| 0 <= i < chain.len() ==> (#[trigger] chain[i]).name is Some,
    ensures
        leaf_first(chain, max_depth) == leaf_first(chain.take(max_depth as int), max_depth),
    decreases chain.len(),
{
    if chain.len() == max_depth {
        assert(chain.take(max_depth as int) =~= chain);
    } else {
        let init = chain.drop_last();
        assert forall|i: int| 0 <= i < init.len() implies (#[trigger] init[i]).name is Some by {
            assert(init[i] == chain[i]);
        }
        lemma_leaf_first_cut(init, max_depth);
        assert(init.take(max_depth as int) =~= chain.take(max_depth as int));
        let kept = init.take(max_depth as int);
        assert forall|i: int| 0 <= i < kept.len() implies (#[trigger] kept[i]).name is Some by {
            assert(kept[i] == init[i]);
        }
        lemma_leaf_first_named(kept, max_depth);
    }
}

/// The drain clock banks CPU time and the wall time since it last looked. It hands out
/// both, and starts from nothing, once a whole period has passed; its first look only
/// sets the baseline. A clock that went back has moved no time. Sums that would exceed
/// 128 bits are left out.
pub proof fn law_the_drain_clock_hands_out_whole_periods(
    clock: &mut DrainClock,
    now: u128,
    cpu_nanos: u128,
    period: u64,
    r: Option<(u128, u128)>,
    wall: int,
)
    requires
        call_ensures(DrainClock::advance, (clock, now, cpu_nanos, period), r),
        old(clock).last_monotonic_nanos matches Some(last) ==> wall == old(clock).pending_wall_nanos
            + (if now >= last {
            now - last
        } else {
            0
        }),
        old(clock).last_monotonic_nanos is None ==> wall == old(clock).pending_wall_nanos,
        wall <= u128::MAX,
        old(clock).window_cpu_nanos + cpu_nanos <= u128::MAX,
    ensures
        final(clock).last_monotonic_nanos == Some(now),
        r is Some <==> old(clock).last_monotonic_nanos is Some && wall >= period,
        r matches Some(window) ==> {
            &&& window.0 == wall
            &&& window.1 == old(clock).window_cpu_nanos + cpu_nanos
            &&& final(clock).pending_wall_nanos == 0
            &&& final(clock).window_cpu_nanos == 0
        },
        r is None ==> {
            &&& final(clock).pending_wall_nanos == wall
            &&& final(clock).window_cpu_nanos == old(clock).window_cpu_nanos + cpu_nanos
        },
{
}

/// A captured stack leaves a sample of one period's weight and of the kind asked for,
/// while there is room; an empty one leaves nothing.
pub proof fn law_a_captured_stack_leaves_a_period(
    sampler: &mut Sampler,
    context: &TraceContext,
    config: &SamplerConfig,
    kind: SampleKind,
    stack: Vec<SampleFrame>,
    at: u128,
)
    requires
        call_ensures(capture_sample, (sampler, context, config, kind, stack, at), ()),
        config.sample_rate_hz > 0,
    ensures
        ({
            let n = old(sampler).samples@.len();
            let takes = stack@.len() > 0 && n < config.max_samples_per_request;
            &&& !takes ==> final(sampler).samples@.len() == n
            &&& takes ==> final(sampler).samples@.len() == n + 1
            &&& takes ==> final(sampler).samples@[n as int].kind == kind
            &&& takes ==> final(sampler).samples@[n as int].value_nanoseconds == 1_000_000_000int
                / config.sample_rate_hz as int
            &&& takes ==> taken_from(
                final(sampler).samples@[n as int],
                *context,
                *config,
                stack@,
                at,
            )
        }),
{
    let n = old(sampler).samples@.len();
    let after = sample_views(final(sampler).samples@);
    assert(sample_views(old(sampler).samples@).len() == n);
    assert(after.len() == final(sampler).samples@.len());
    assert(stack_view(stack@).len() == stack@.len());
    let hz = config.sample_rate_hz;
    assert(0 <= 1_000_000_000int / hz as int <= 1_000_000_000) by (nonlinear_arith)
        requires
            hz > 0,
    ;
    if stack@.len() > 0 && n < config.max_samples_per_request {
        assert(after[n as int] == final(sampler).samples@[n as int]@);
        lemma_taken_from(
            final(sampler).samples@[n as int],
            *context,
            *config,
            kind,
            stack@,
            config.period() as u128,
            at,
        );
    }
}

} // verus!
