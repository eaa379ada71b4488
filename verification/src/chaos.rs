//! A chaos exporter: it acknowledges, refuses and delays messages as a control file tells it to.

use rand::rngs::ThreadRng;
use rand::RngExt;
use vstd::prelude::*;

use crate::rate::{at_most_fraction, equal_rates, rate_at_most, same_rate};
use crate::text::{decimal, push_decimal};

verus! {

/// A random number generator of `rand`.
#[verifier::external_type_specification]
#[verifier::external_body]
pub struct OutsideThreadRng(rand::rngs::ThreadRng);

/// The name under which pipelines find the exporter.
pub const CHAOS_EXPORTER_URN: &'static str = "urn:otel:chaos:exporter";

/// How the exporter answers messages.
#[derive(Debug, Clone, Copy, PartialEq, Eq, Structural)]
pub enum SimulationMode {
    /// Every message is acknowledged.
    Online,
    /// Every message is refused.
    Offline,
    /// Messages are acknowledged or refused at random.
    Flaky,
}

impl Default for SimulationMode {
    fn default() -> (r: Self)
        ensures
            r == SimulationMode::Online,
    {
        SimulationMode::Online
    }
}

/// What the control file says.
#[derive(Debug, Clone, Copy)]
pub struct ControlState {
    pub mode: SimulationMode,
    /// How probable it is that a message is refused in `Flaky` mode: the bits of a 64-bit binary
    /// floating-point number.
    pub failure_rate: u64,
    /// How long every answer waits, in milliseconds.
    pub latency_ms: u64,
    /// By how much the wait is lengthened at most, in milliseconds.
    pub jitter_ms: u64,
}

/// The failure rate where the control file names none: the bits of one half.
pub fn default_failure_rate() -> (r: u64)
    ensures
        r == 0x3FE0_0000_0000_0000,
{
    0x3FE0_0000_0000_0000
}

/// How often the control file is read again where the configuration does not say: every 500
/// milliseconds, in nanoseconds.
pub fn default_check_interval() -> (r: u128)
    ensures
        r == 500 * 1_000_000,
{
    500_000_000
}

/// After how many messages progress is reported where the configuration does not say.
pub fn default_log_every_n() -> (r: u64)
    ensures
        r == 100,
{
    100
}

/// The state without a control file: every message is acknowledged at once.
pub open spec fn default_state() -> ControlState {
    ControlState {
        mode: SimulationMode::Online,
        failure_rate: 0x3FE0_0000_0000_0000,
        latency_ms: 0,
        jitter_ms: 0,
    }
}

impl Default for ControlState {
    fn default() -> (r: Self)
        ensures
            r == default_state(),
    {
        ControlState {
            mode: SimulationMode::Online,
            failure_rate: default_failure_rate(),
            latency_ms: 0,
            jitter_ms: 0,
        }
    }
}

/// Whether two states are the same, the failure rates taken as numbers.
pub open spec fn same_state(a: ControlState, b: ControlState) -> bool {
    &&& a.mode == b.mode
    &&& equal_rates(a.failure_rate, b.failure_rate)
    &&& a.latency_ms == b.latency_ms
    &&& a.jitter_ms == b.jitter_ms
}

impl PartialEq for ControlState {
    fn eq(&self, other: &Self) -> (r: bool) {
        self.mode == other.mode && same_rate(self.failure_rate, other.failure_rate)
            && self.latency_ms == other.latency_ms && self.jitter_ms == other.jitter_ms
    }
}

impl vstd::std_specs::cmp::PartialEqSpecImpl for ControlState {
    open spec fn obeys_eq_spec() -> bool {
        true
    }

    open spec fn eq_spec(&self, other: &Self) -> bool {
        same_state(*self, *other)
    }
}

// ---- texts ---------------------------------------------------------------------------------

/// The wait of a state in words.
pub open spec fn wait_chars(s: ControlState) -> Seq<char> {
    if s.latency_ms > 0 || s.jitter_ms > 0 {
        " +"@ + decimal(s.latency_ms as nat) + "ms"@ + (if s.jitter_ms > 0 {
            "±"@ + decimal(s.jitter_ms as nat) + "ms"@
        } else {
            seq![]
        })
    } else {
        seq![]
    }
}

/// A state in words, with the failure rate in percent.
pub open spec fn state_chars(s: ControlState, percent: Seq<char>) -> Seq<char> {
    (match s.mode {
        SimulationMode::Online => "ONLINE"@,
        SimulationMode::Offline => "OFFLINE"@,
        SimulationMode::Flaky => "FLAKY(fail="@ + percent + "%)"@,
    }) + wait_chars(s)
}

impl ControlState {
    /// The state in words. The failure rate in percent, without decimals, is given.
    pub fn description(&self, percent: &str) -> (r: String)
        ensures
            r@ == state_chars(*self, percent@),
    {
        let mut out: String = String::new();
        match self.mode {
            SimulationMode::Online => {
                out.push_str("ONLINE");
                assert(out@ =~= "ONLINE"@);
            },
            SimulationMode::Offline => {
                out.push_str("OFFLINE");
                assert(out@ =~= "OFFLINE"@);
            },
            SimulationMode::Flaky => {
                out.push_str("FLAKY(fail=");
                out.push_str(percent);
                out.push_str("%)");
                assert(out@ =~= "FLAKY(fail="@ + percent@ + "%)"@);
            },
        }
        let ghost head = out@;
        if self.latency_ms > 0 || self.jitter_ms > 0 {
            out.push_str(" +");
            push_decimal(&mut out, self.latency_ms);
            out.push_str("ms");
            if self.jitter_ms > 0 {
                out.push_str("±");
                push_decimal(&mut out, self.jitter_ms);
                out.push_str("ms");
            }
        }
        assert(out@ =~= head + wait_chars(*self));
        out
    }
}

/// The reason that a refused message is given.
pub fn nack_reason(state: &ControlState, percent: &str) -> (r: String)
    ensures
        r@ == "chaos exporter "@ + state_chars(*state, percent@),
{
    let mut out: String = String::new();
    out.push_str("chaos exporter ");
    let description = state.description(percent);
    out.push_str(description.as_str());
    assert(out@ =~= "chaos exporter "@ + state_chars(*state, percent@));
    out
}

/// A text with another one in front.
fn prefixed(head: &str, tail: &str) -> (r: String)
    ensures
        r@ == head@ + tail@,
{
    let mut out: String = String::new();
    out.push_str(head);
    out.push_str(tail);
    assert(out@ =~= head@ + tail@);
    out
}

/// What is said of a configuration that cannot be read.
pub fn config_error(error: &str) -> (r: String)
    ensures
        r@ == "Failed to parse chaos-exporter configuration: "@ + error@,
{
    prefixed("Failed to parse chaos-exporter configuration: ", error)
}

// ---- the control file ----------------------------------------------------------------------

/// What came of reading the control file from disk.
#[derive(Debug)]
pub enum FileRead {
    /// Its contents.
    Contents(String),
    /// There is no such file.
    NotFound,
    /// It could not be read, for this reason.
    Failed(String),
}

/// What the control file comes to.
#[derive(Debug)]
pub enum ControlFile {
    /// There is none, and the state is the one without a control file.
    Missing,
    /// It says this state.
    State(ControlState),
    /// It holds this text, to be read as a JSON object.
    Json(String),
    /// It cannot be used, for this reason.
    Invalid(String),
}

/// Whether a character is white space: the characters with Unicode's property `White_Space`.
pub open spec fn whitespace(c: char) -> bool {
    let n = c as u32;
    ||| 0x9 <= n <= 0xd
    ||| n == 0x20
    ||| n == 0x85
    ||| n == 0xa0
    ||| n == 0x1680
    ||| 0x2000 <= n <= 0x200a
    ||| n == 0x2028
    ||| n == 0x2029
    ||| n == 0x202f
    ||| n == 0x205f
    ||| n == 0x3000
}

/// A text without white space at its beginning.
pub open spec fn trimmed_start(s: Seq<char>) -> Seq<char>
    decreases s.len(),
{
    if s.len() > 0 && whitespace(s[0]) {
        trimmed_start(s.drop_first())
    } else {
        s
    }
}

/// A text without white space at its end.
pub open spec fn trimmed_end(s: Seq<char>) -> Seq<char>
    decreases s.len(),
{
    if s.len() > 0 && whitespace(s.last()) {
        trimmed_end(s.drop_last())
    } else {
        s
    }
}

/// `str::trim`: the text without white space at its beginning and its end.
#[verifier::external_body]
fn trim(s: &str) -> (r: &str)
    ensures
        r@ == trimmed_end(trimmed_start(s@)),
{
    s.trim()
}

/// The exporter's configuration.
#[derive(Debug)]
pub struct ChaosExporterConfig {
    /// Where the control file is.
    pub control_file: String,
    /// How often it is read again, in nanoseconds.
    pub check_interval: u128,
    /// After how many messages progress is reported; never where it is zero.
    pub log_every_n: u64,
}

/// The exporter.
#[derive(Debug)]
pub struct ChaosExporter {
    /// Where the control file is.
    pub control_file: String,
    /// How often it is read again, in nanoseconds.
    pub check_interval: u128,
    /// After how many messages progress is reported; never where it is zero.
    pub log_every_n: u64,
}

/// Calls a function, and tells that its result is one that the function gives for the argument.
pub(crate) fn tell<A, R, F: Fn(A) -> R>(f: F, a: A) -> (r: R)
    requires
        call_requires(f, (a,)),
    ensures
        call_ensures(f, (a,), r),
{
    f(a)
}

/// Calls a function of two arguments, and tells that its result is one that it gives for them.
pub(crate) fn tell_both<A, B, R, F: Fn(A, B) -> R>(f: F, a: A, b: B) -> (r: R)
    requires
        call_requires(f, (a, b)),
    ensures
        call_ensures(f, (a, b), r),
{
    f(a, b)
}

/// `RngExt::random`: any 64-bit number.
#[verifier::external_body]
fn draw_word(rng: &mut ThreadRng) -> (r: u64) {
    rng.random()
}

/// `RngExt::random_range` over the numbers from zero to `max`: one of them.
#[verifier::external_body]
fn draw_up_to(rng: &mut ThreadRng, max: u64) -> (r: u64)
    ensures
        r <= max,
{
    rng.random_range(0..=max)
}

/// Whether a word is one that the generator gives, where this is what becomes of the generator.
pub closed spec fn word_given(rng: &mut ThreadRng, word: u64) -> bool {
    call_ensures(draw_word, (rng,), word)
}

/// Whether a number is one that the generator gives where it is asked for one from zero to `max`,
/// and this is what becomes of the generator.
pub closed spec fn number_given(rng: &mut ThreadRng, max: u64, number: u64) -> bool {
    call_ensures(draw_up_to, (rng, max), number)
}

/// By how much a wait is longer than the latency.
pub open spec fn beyond_latency(state: ControlState, delay: u64) -> u64 {
    (delay - state.latency_ms) as u64
}

/// A word that the generator gives.
fn next_word(rng: &mut ThreadRng) -> (r: u64)
    ensures
        exists|m: &mut ThreadRng|
            *m == *old(rng) && *final(m) == *final(rng) && #[trigger] word_given(m, r),
{
    let r: u64 = tell(draw_word, &mut *rng);
    assert(forall|m: &mut ThreadRng| #[trigger] call_ensures(draw_word, (m,), r) ==> word_given(m, r));
    r
}

/// A number from zero to `max` that the generator gives.
fn next_up_to(rng: &mut ThreadRng, max: u64) -> (r: u64)
    ensures
        r <= max,
        exists|m: &mut ThreadRng|
            *m == *old(rng) && *final(m) == *final(rng) && #[trigger] number_given(m, max, r),
{
    let r: u64 = tell_both(draw_up_to, &mut *rng, max);
    assert(forall|m: &mut ThreadRng| #[trigger]
        call_ensures(draw_up_to, (m, max), r) ==> number_given(m, max, r));
    r
}

/// The answer of a state where a word is drawn. In `Flaky` mode the first fifty-two binary digits
/// of the word make a number between zero and one, and the message is acknowledged where that is
/// not below the failure rate.
pub open spec fn acks(state: ControlState, word: u64) -> bool {
    match state.mode {
        SimulationMode::Online => true,
        SimulationMode::Offline => false,
        SimulationMode::Flaky => at_most_fraction(state.failure_rate, word as nat / 4096),
    }
}

/// Whether the state acknowledges a message, where a word is drawn.
pub fn acks_for(state: &ControlState, word: u64) -> (r: bool)
    ensures
        r == acks(*state, word),
{
    match state.mode {
        SimulationMode::Online => true,
        SimulationMode::Offline => false,
        SimulationMode::Flaky => rate_at_most(state.failure_rate, word / 4096),
    }
}

/// How long an answer waits where a jitter is drawn, in milliseconds.
pub fn delay_for(state: &ControlState, jitter: u64) -> (r: u64)
    requires
        state.latency_ms + jitter <= u64::MAX,
    ensures
        r == state.latency_ms + jitter,
{
    state.latency_ms + jitter
}

impl ChaosExporter {
    /// The exporter of a configuration.
    pub fn from_config(config: ChaosExporterConfig) -> (r: Self)
        ensures
            r.control_file == config.control_file,
            r.check_interval == config.check_interval,
            r.log_every_n == config.log_every_n,
    {
        ChaosExporter {
            control_file: config.control_file,
            check_interval: config.check_interval,
            log_every_n: config.log_every_n,
        }
    }

    /// What the control file comes to: none, or one of white space alone, means the state without
    /// a control file.
    pub fn read_control_file(read: &FileRead) -> (r: ControlFile)
        ensures
            match (*read, r) {
                (FileRead::NotFound, ControlFile::Missing) => true,
                (FileRead::Failed(e), ControlFile::Invalid(m)) => m@
                    == "failed to read control file: "@ + e@,
                (FileRead::Contents(text), ControlFile::State(s)) => trimmed_end(
                    trimmed_start(text@),
                ).len() == 0 && s == default_state(),
                (FileRead::Contents(text), ControlFile::Json(json)) => json@.len() > 0 && json@
                    == trimmed_end(trimmed_start(text@)),
                _ => false,
            },
    {
        match read {
            FileRead::NotFound => ControlFile::Missing,
            FileRead::Failed(e) => ControlFile::Invalid(
                prefixed("failed to read control file: ", e.as_str()),
            ),
            FileRead::Contents(text) => {
                let contents = trim(text.as_str());
                if contents.is_empty() {
                    ControlFile::State(ControlState::default())
                } else {
                    ControlFile::Json(contents.to_owned())
                }
            },
        }
    }

    /// What a control file comes to that was read as a JSON object, or could not be.
    pub fn parsed_control_file(parsed: Result<ControlState, String>) -> (r: ControlFile)
        ensures
            match (parsed, r) {
                (Ok(state), ControlFile::State(s)) => s == state,
                (Err(e), ControlFile::Invalid(m)) => m@ == "invalid control file JSON: "@ + e@,
                _ => false,
            },
    {
        match parsed {
            Ok(state) => ControlFile::State(state),
            Err(e) => ControlFile::Invalid(prefixed("invalid control file JSON: ", e.as_str())),
        }
    }

    /// How long an answer waits, in milliseconds: the latency, lengthened by what the generator gives
    /// of numbers up to the jitter. Without jitter nothing is drawn.
    pub fn compute_response_delay(state: &ControlState, rng: &mut ThreadRng) -> (r: u64)
        requires
            state.latency_ms + state.jitter_ms <= u64::MAX,
        ensures
            state.latency_ms <= r <= state.latency_ms + state.jitter_ms,
            state.jitter_ms == 0 ==> *final(rng) == *old(rng),
            state.jitter_ms > 0 ==> exists|m: &mut ThreadRng|
                *m == *old(rng) && *final(m) == *final(rng) && #[trigger] number_given(
                    m,
                    state.jitter_ms,
                    beyond_latency(*state, r),
                ),
    {
        let jitter: u64 = if state.jitter_ms > 0 {
            next_up_to(rng, state.jitter_ms)
        } else {
            0
        };
        let delay: u64 = delay_for(state, jitter);
        assert(beyond_latency(*state, delay) == jitter);
        delay
    }

    /// Whether a message is acknowledged. Where the mode leaves it open, the word decides that the
    /// generator gives.
    pub fn should_ack_message(state: &ControlState, rng: &mut ThreadRng) -> (r: bool)
        ensures
            exists|word: u64| r == #[trigger] acks(*state, word),
            state.mode == SimulationMode::Online ==> r,
            state.mode == SimulationMode::Offline ==> !r,
            state.mode != SimulationMode::Flaky ==> *final(rng) == *old(rng),
            state.mode == SimulationMode::Flaky ==> exists|m: &mut ThreadRng, word: u64|
                *m == *old(rng) && *final(m) == *final(rng) && #[trigger] word_given(m, word) && r
                    == acks(*state, word),
    {
        let word: u64 = match state.mode {
            SimulationMode::Flaky => next_word(rng),
            _ => 0,
        };
        assert(acks(*state, word) == acks(*state, word));
        acks_for(state, word)
    }
}

// ---- laws ----------------------------------------------------------------------------------

/// What is left of a text is the text but for white space at its beginning and its end, and neither
/// begins nor ends in white space.
pub proof fn trimming_takes_white_space_alone(s: Seq<char>)
    ensures
        ({
            let t = trimmed_end(trimmed_start(s));
            &&& t.len() > 0 ==> !whitespace(t[0]) && !whitespace(t.last())
            &&& exists|a: Seq<char>, b: Seq<char>|
                {
                    &&& s == #[trigger] (a + t + b)
                    &&& forall|i: int| 0 <= i < a.len() ==> whitespace(#[trigger] a[i])
                    &&& forall|i: int| 0 <= i < b.len() ==> whitespace(#[trigger] b[i])
                }
        }),
{
    let m = trimmed_start(s);
    lemma_trimmed_start(s);
    lemma_trimmed_end(m);
    let t = trimmed_end(m);
    let a = s.take(s.len() - m.len());
    let b = m.skip(t.len() as int);
    assert(s =~= a + t + b);
    if t.len() > 0 {
        assert(t[0] == m[0]);
    }
}

proof fn lemma_trimmed_start(s: Seq<char>)
    ensures
        trimmed_start(s).len() <= s.len(),
        trimmed_start(s) == s.skip(s.len() - trimmed_start(s).len()),
        trimmed_start(s).len() > 0 ==> !whitespace(trimmed_start(s)[0]),
        forall|i: int|
            0 <= i < s.len() - trimmed_start(s).len() ==> whitespace(#[trigger] s[i]),
    decreases s.len(),
{
    if s.len() > 0 && whitespace(s[0]) {
        let r = s.drop_first();
        lemma_trimmed_start(r);
        assert(trimmed_start(s) =~= s.skip(s.len() - trimmed_start(s).len()));
        assert forall|i: int| 0 <= i < s.len() - trimmed_start(s).len() implies whitespace(
            #[trigger] s[i],
        ) by {
            if i > 0 {
                assert(r[i - 1] == s[i]);
            }
        }
    } else {
        assert(s.skip(0) =~= s);
    }
}

proof fn lemma_trimmed_end(s: Seq<char>)
    ensures
        trimmed_end(s).len() <= s.len(),
        trimmed_end(s) == s.take(trimmed_end(s).len() as int),
        trimmed_end(s).len() > 0 ==> !whitespace(trimmed_end(s).last()),
        forall|i: int| trimmed_end(s).len() <= i < s.len() ==> whitespace(#[trigger] s[i]),
    decreases s.len(),
{
    if s.len() > 0 && whitespace(s.last()) {
        let r = s.drop_last();
        lemma_trimmed_end(r);
        assert(trimmed_end(s) =~= s.take(trimmed_end(s).len() as int));
        assert forall|i: int| trimmed_end(s).len() <= i < s.len() implies whitespace(
            #[trigger] s[i],
        ) by {
            if i < r.len() {
                assert(r[i] == s[i]);
            }
        }
    } else {
        assert(s.take(s.len() as int) =~= s);
    }
}

} // verus!
