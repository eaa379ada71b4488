//! The course of a chaos exporter, from one event to the next.

use rand::rngs::ThreadRng;
use vstd::arithmetic::power2::pow2;
use vstd::prelude::*;

use crate::chaos::{
    acks, beyond_latency, default_state, number_given, same_state, word_given, ChaosExporter, ControlFile,
    ControlState, SimulationMode,
};
use crate::rate::{exponent, fraction};

verus! {

/// What the exporter waits for.
#[derive(Debug, Clone, Copy, PartialEq, Eq, Structural)]
pub enum Phase {
    /// The next message.
    Receiving,
    /// The control file.
    Reading,
    /// The end of the wait before an answer.
    Sleeping,
    /// Nothing more.
    Stopped,
}

/// Where the exporter stands.
#[derive(Debug)]
pub struct Session {
    pub state: ControlState,
    /// When the control file was read last, in nanoseconds.
    pub last_check: u128,
    pub ack_count: u64,
    pub nack_count: u64,
    pub phase: Phase,
}

/// What happens to the exporter.
#[derive(Debug)]
pub enum Event {
    /// A message with data comes, at this time in nanoseconds.
    Data { now: u128 },
    /// The control file has been read.
    File(ControlFile),
    /// The wait is over.
    Slept,
    /// The exporter is told to stop.
    Shutdown,
    /// A message comes that does not concern it.
    Other,
}

/// What the exporter does.
#[derive(Debug, Clone, Copy, PartialEq, Eq, Structural)]
pub enum Action {
    /// Takes the next message.
    Receive,
    /// Reads the control file.
    ReadControlFile,
    /// Waits, for so many milliseconds.
    Sleep(u64),
    /// Acknowledges the message, and reports progress if so.
    Ack { report: bool },
    /// Refuses the message, and reports progress if so.
    Nack { report: bool },
    /// Stops.
    Stop,
}

/// What is worth noting about a control file.
#[derive(Debug)]
pub enum Notice {
    Nothing,
    /// The file cannot be used, for this reason, and the state is kept.
    Kept(String),
    /// The state is another one than this.
    Changed(ControlState),
}

/// One step of the exporter.
#[derive(Debug)]
pub struct Step {
    pub action: Action,
    pub notice: Notice,
}

/// The state that a control file leads to: none leads to the state without one, and one that
/// cannot be used keeps the state. A state that is the same leaves the old one in place.
pub open spec fn state_from(before: ControlState, file: ControlFile) -> ControlState {
    let new = match file {
        ControlFile::Missing => default_state(),
        ControlFile::State(s) => s,
        _ => before,
    };
    if same_state(new, before) {
        before
    } else {
        new
    }
}

/// What is worth noting where a control file is read in a state.
pub open spec fn notice_from(before: ControlState, file: ControlFile) -> Notice {
    match file {
        ControlFile::Invalid(reason) => Notice::Kept(reason),
        ControlFile::State(s) => if same_state(s, before) {
            Notice::Nothing
        } else {
            Notice::Changed(before)
        },
        _ => if same_state(default_state(), before) {
            Notice::Nothing
        } else {
            Notice::Changed(before)
        },
    }
}

/// The state that the first control file leads to.
pub open spec fn initial_state(file: ControlFile) -> ControlState {
    match file {
        ControlFile::State(s) => s,
        _ => default_state(),
    }
}

/// Whether progress is reported after so many messages.
pub open spec fn reports(log_every_n: u64, count: nat) -> bool {
    log_every_n > 0 && count % (log_every_n as nat) == 0
}

/// How often progress is reported in the course of so many messages.
pub open spec fn report_lines(log_every_n: u64, messages: nat) -> nat
    decreases messages,
{
    if messages == 0 {
        0
    } else {
        report_lines(log_every_n, (messages - 1) as nat) + if reports(log_every_n, messages) {
            1nat
        } else {
            0
        }
    }
}

/// Whether the control file is to be read again.
pub open spec fn due(e: ChaosExporter, s: Session, now: u128) -> bool {
    (if now >= s.last_check {
        now - s.last_check
    } else {
        0
    }) >= e.check_interval
}

/// The answer to a message, once it is decided. Acknowledged and refused messages together are
/// counted for the report of progress.
pub open spec fn answered(e: ChaosExporter, s: Session, ack: bool) -> (Session, Action) {
    let report = reports(e.log_every_n, (s.ack_count + s.nack_count + 1) as nat);
    if ack {
        (
            Session { ack_count: (s.ack_count + 1) as u64, phase: Phase::Receiving, ..s },
            Action::Ack { report },
        )
    } else {
        (
            Session { nack_count: (s.nack_count + 1) as u64, phase: Phase::Receiving, ..s },
            Action::Nack { report },
        )
    }
}

/// What follows once the wait before an answer is known: the wait, or at once the answer.
pub open spec fn responded(e: ChaosExporter, s: Session, delay: u64, ack: bool) -> (
    Session,
    Action,
) {
    if delay > 0 {
        (Session { phase: Phase::Sleeping, ..s }, Action::Sleep(delay))
    } else {
        answered(e, s, ack)
    }
}

/// One step, where a wait and an answer are given.
pub open spec fn stepped(
    e: ChaosExporter,
    s: Session,
    event: Event,
    delay: u64,
    ack: bool,
) -> (Session, Action) {
    match event {
        Event::Shutdown => (Session { phase: Phase::Stopped, ..s }, Action::Stop),
        Event::Other => (s, Action::Receive),
        Event::Data { now } => if due(e, s, now) {
            (Session { last_check: now, phase: Phase::Reading, ..s }, Action::ReadControlFile)
        } else {
            responded(e, s, delay, ack)
        },
        Event::File(file) => responded(
            e,
            Session { state: state_from(s.state, file), ..s },
            delay,
            ack,
        ),
        Event::Slept => answered(e, s, ack),
    }
}

/// The state in which an event is answered.
pub open spec fn state_for(s: Session, event: Event) -> ControlState {
    match event {
        Event::File(file) => state_from(s.state, file),
        _ => s.state,
    }
}

/// Whether a state can lead to a wait.
pub open spec fn possible_delay(state: ControlState, delay: u64) -> bool {
    state.latency_ms <= delay <= state.latency_ms + state.jitter_ms
}

/// Whether a state can lead to an answer.
pub open spec fn possible_ack(state: ControlState, ack: bool) -> bool {
    exists|word: u64| ack == #[trigger] acks(state, word)
}

/// Whether the longest wait of a state can be counted.
pub open spec fn wait_fits(state: ControlState) -> bool {
    state.latency_ms + state.jitter_ms <= u64::MAX
}

/// Whether an event makes the exporter draw a wait: a message that does not make it read the
/// control file, or the control file that was read for a message.
pub open spec fn draws_wait(e: ChaosExporter, s: Session, event: Event) -> bool {
    match event {
        Event::Data { now } => !due(e, s, now),
        Event::File(_) => true,
        _ => false,
    }
}

/// Whether an answer can follow an event at once: where a wait is over, or may be none.
pub open spec fn may_answer(e: ChaosExporter, s: Session, event: Event) -> bool {
    event is Slept || (draws_wait(e, s, event) && state_for(s, event).latency_ms == 0)
}

/// Whether an event can make the exporter draw at random: a wait where there is jitter, and an
/// answer in `Flaky` mode.
pub open spec fn may_draw(e: ChaosExporter, s: Session, event: Event) -> bool {
    let state = state_for(s, event);
    ||| draws_wait(e, s, event) && state.jitter_ms > 0
    ||| may_answer(e, s, event) && state.mode == SimulationMode::Flaky
}

/// Whether the next answer in a mode can be counted.
pub open spec fn count_fits(s: Session, mode: SimulationMode) -> bool {
    &&& mode != SimulationMode::Offline ==> s.ack_count < u64::MAX
    &&& mode != SimulationMode::Online ==> s.nack_count < u64::MAX
}

/// Whether all that is added in a step can be counted: the longest wait where one is drawn, and
/// the answers where one can follow.
pub open spec fn steppable(e: ChaosExporter, s: Session, event: Event) -> bool {
    let state = state_for(s, event);
    &&& draws_wait(e, s, event) ==> wait_fits(state)
    &&& may_answer(e, s, event) ==> count_fits(s, state.mode)
}

/// Whether an event is one that the exporter waits for.
pub open spec fn expected(s: Session, event: Event) -> bool {
    match s.phase {
        Phase::Receiving => event is Data || event is Shutdown || event is Other,
        Phase::Reading => event matches Event::File(file) && !(file is Json),
        Phase::Sleeping => event is Slept,
        Phase::Stopped => false,
    }
}

/// Whether the longest wait of a state can be counted: see [`wait_fits`].
pub fn can_wait(state: &ControlState) -> (r: bool)
    ensures
        r == wait_fits(*state),
{
    state.latency_ms.checked_add(state.jitter_ms).is_some()
}

impl Session {
    /// Begins, with what the control file comes to. A file that cannot be used is noted, and the
    /// state is the one without a control file.
    pub fn begin(now: u128, file: ControlFile) -> (r: (Session, Notice))
        requires
            !(file is Json),
        ensures
            r.0 == (Session {
                state: initial_state(file),
                last_check: now,
                ack_count: 0,
                nack_count: 0,
                phase: Phase::Receiving,
            }),
            r.1 == (match file {
                ControlFile::Invalid(reason) => Notice::Kept(reason),
                _ => Notice::Nothing,
            }),
    {
        let mut state = ControlState::default();
        let mut notice = Notice::Nothing;
        match file {
            ControlFile::State(s) => {
                state = s;
            },
            ControlFile::Invalid(reason) => {
                notice = Notice::Kept(reason);
            },
            _ => {},
        }
        let session = Session {
            state,
            last_check: now,
            ack_count: 0,
            nack_count: 0,
            phase: Phase::Receiving,
        };
        (session, notice)
    }

    /// Answers a message as it was decided.
    pub fn conclude(&mut self, exporter: &ChaosExporter, ack: bool) -> (r: Action)
        requires
            ack ==> old(self).ack_count < u64::MAX,
            !ack ==> old(self).nack_count < u64::MAX,
        ensures
            (*final(self), r) == answered(*exporter, *old(self), ack),
    {
        self.phase = Phase::Receiving;
        let messages: u128 = self.ack_count as u128 + self.nack_count as u128 + 1;
        let report: bool = exporter.log_every_n > 0 && messages % (exporter.log_every_n as u128)
            == 0;
        if ack {
            self.ack_count = self.ack_count + 1;
            Action::Ack { report }
        } else {
            self.nack_count = self.nack_count + 1;
            Action::Nack { report }
        }
    }

    /// Takes up what the control file comes to.
    pub fn reload(&mut self, file: ControlFile) -> (r: Notice)
        requires
            !(file is Json),
        ensures
            *final(self) == (Session { state: state_from(old(self).state, file), ..*old(self) }),
            r == notice_from(old(self).state, file),
    {
        let new_state = match file {
            ControlFile::State(s) => s,
            ControlFile::Invalid(reason) => {
                return Notice::Kept(reason);
            },
            _ => ControlState::default(),
        };
        if new_state != self.state {
            let from = self.state;
            self.state = new_state;
            Notice::Changed(from)
        } else {
            Notice::Nothing
        }
    }

    /// Waits, or answers at once where there is nothing to wait for.
    pub fn respond_with(&mut self, exporter: &ChaosExporter, delay: u64, ack: bool) -> (r: Action)
        requires
            delay == 0 && ack ==> old(self).ack_count < u64::MAX,
            delay == 0 && !ack ==> old(self).nack_count < u64::MAX,
        ensures
            (*final(self), r) == responded(*exporter, *old(self), delay, ack),
    {
        if delay > 0 {
            self.phase = Phase::Sleeping;
            Action::Sleep(delay)
        } else {
            self.conclude(exporter, ack)
        }
    }

    /// Draws the wait, and where there is none, the answer.
    fn respond(&mut self, exporter: &ChaosExporter, rng: &mut ThreadRng) -> (r: Action)
        requires
            wait_fits(old(self).state),
            old(self).state.latency_ms == 0 ==> count_fits(*old(self), old(self).state.mode),
        ensures
            old(self).state.jitter_ms == 0 && (old(self).state.latency_ms > 0
                || old(self).state.mode != SimulationMode::Flaky) ==> *final(rng) == *old(rng),
            r matches Action::Sleep(ms) ==> (old(self).state.jitter_ms > 0
                ==> exists|d: &mut ThreadRng|
                *d == *old(rng) && *final(d) == *final(rng) && #[trigger] number_given(
                    d,
                    old(self).state.jitter_ms,
                    beyond_latency(old(self).state, ms),
                )),
            !(r is Sleep) && old(self).state.jitter_ms == 0 && old(self).state.mode
                == SimulationMode::Flaky ==> exists|a: &mut ThreadRng, word: u64|
                *a == *old(rng) && *final(a) == *final(rng) && #[trigger] word_given(a, word)
                    && r is Ack == acks(old(self).state, word),
            !(r is Sleep) && old(self).state.jitter_ms > 0 && old(self).state.mode
                == SimulationMode::Flaky ==> exists|d: &mut ThreadRng, a: &mut ThreadRng, word: u64|
                *d == *old(rng) && *final(d) == *a && *final(a) == *final(rng)
                    && #[trigger] number_given(d, old(self).state.jitter_ms, 0)
                    && #[trigger] word_given(a, word) && r is Ack == acks(old(self).state, word),
            !(r is Sleep) && old(self).state.jitter_ms > 0 && old(self).state.mode
                != SimulationMode::Flaky ==> exists|d: &mut ThreadRng|
                *d == *old(rng) && *final(d) == *final(rng) && #[trigger] number_given(
                    d,
                    old(self).state.jitter_ms,
                    0,
                ),
            exists|delay: u64, ack: bool|
                {
                    &&& possible_delay(old(self).state, delay)
                    &&& possible_ack(old(self).state, ack)
                    &&& (*final(self), r) == #[trigger] responded(
                        *exporter,
                        *old(self),
                        delay,
                        ack,
                    )
                },
    {
        let ghost before = *self;
        let state = self.state;
        let ghost start = *rng;
        let delay: u64 = ChaosExporter::compute_response_delay(&state, rng);
        assert(state.jitter_ms > 0 ==> exists|d: &mut ThreadRng|
            *d == start && *final(d) == *rng && #[trigger] number_given(
                d,
                state.jitter_ms,
                beyond_latency(state, delay),
            ));
        let ack: bool = if delay > 0 {
            true
        } else {
            ChaosExporter::should_ack_message(&state, rng)
        };
        let action = self.respond_with(exporter, delay, ack);
        proof {
            if delay > 0 && state.jitter_ms > 0 {
                assert(action->Sleep_0 == delay);
                assert(exists|d: &mut ThreadRng|
                    *d == *old(rng) && *final(d) == *rng && #[trigger] number_given(
                        d,
                        before.state.jitter_ms,
                        beyond_latency(before.state, action->Sleep_0),
                    ));
            }
            let given = if delay > 0 {
                acks(state, 0)
            } else {
                ack
            };
            assert(possible_ack(state, given));
            assert((*self, action) == responded(*exporter, before, delay, given));
        }
        action
    }

    /// Whether the control file is to be read again: see [`due`].
    fn is_due(&self, exporter: &ChaosExporter, now: u128) -> (r: bool)
        ensures
            r == due(*exporter, *self, now),
    {
        let elapsed: u128 = if now >= self.last_check {
            now - self.last_check
        } else {
            0
        };
        elapsed >= exporter.check_interval
    }

    /// Whether all that is added in a step can be counted: see [`steppable`].
    pub fn can_step(&self, exporter: &ChaosExporter, event: &Event) -> (r: bool)
        ensures
            r == steppable(*exporter, *self, *event),
    {
        let state = match event {
            Event::File(ControlFile::State(s)) => *s,
            Event::File(ControlFile::Missing) => ControlState::default(),
            _ => self.state,
        };
        let (draws, slept) = match event {
            Event::Data { now } => (!self.is_due(exporter, *now), false),
            Event::File(_) => (true, false),
            Event::Slept => (false, true),
            _ => (false, false),
        };
        let counts: bool = match state.mode {
            SimulationMode::Online => self.ack_count < u64::MAX,
            SimulationMode::Offline => self.nack_count < u64::MAX,
            SimulationMode::Flaky => self.ack_count < u64::MAX && self.nack_count < u64::MAX,
        };
        let answers: bool = slept || (draws && state.latency_ms == 0);
        (!draws || can_wait(&state)) && (!answers || counts)
    }

    /// One step. What is drawn at random is a wait and an answer that the state can lead to: those
    /// that follow from what the generator gives. All else is determined.
    pub fn step(&mut self, exporter: &ChaosExporter, event: Event, rng: &mut ThreadRng) -> (r: Step)
        requires
            expected(*old(self), event),
            steppable(*exporter, *old(self), event),
        ensures
            exists|delay: u64, ack: bool|
                {
                    &&& possible_delay(state_for(*old(self), event), delay)
                    &&& possible_ack(state_for(*old(self), event), ack)
                    &&& (*final(self), r.action) == #[trigger] stepped(
                        *exporter,
                        *old(self),
                        event,
                        delay,
                        ack,
                    )
                },
            r.notice == (match event {
                Event::File(file) => notice_from(old(self).state, file),
                _ => Notice::Nothing,
            }),
            !may_draw(*exporter, *old(self), event) ==> *final(rng) == *old(rng),
            r.action matches Action::Sleep(ms) ==> (state_for(*old(self), event).jitter_ms > 0
                ==> exists|d: &mut ThreadRng|
                *d == *old(rng) && *final(d) == *final(rng) && #[trigger] number_given(
                    d,
                    state_for(*old(self), event).jitter_ms,
                    beyond_latency(state_for(*old(self), event), ms),
                )),
            (r.action is Ack || r.action is Nack) && (event is Slept || state_for(
                *old(self),
                event,
            ).jitter_ms == 0) && state_for(*old(self), event).mode == SimulationMode::Flaky
                ==> exists|a: &mut ThreadRng, word: u64|
                *a == *old(rng) && *final(a) == *final(rng) && #[trigger] word_given(a, word)
                    && r.action is Ack == acks(state_for(*old(self), event), word),
            (r.action is Ack || r.action is Nack) && !(event is Slept) && state_for(
                *old(self),
                event,
            ).jitter_ms > 0 && state_for(*old(self), event).mode == SimulationMode::Flaky
                ==> exists|d: &mut ThreadRng, a: &mut ThreadRng, word: u64|
                *d == *old(rng) && *final(d) == *a && *final(a) == *final(rng)
                    && #[trigger] number_given(d, state_for(*old(self), event).jitter_ms, 0)
                    && #[trigger] word_given(a, word) && r.action is Ack == acks(
                    state_for(*old(self), event),
                    word,
                ),
            (r.action is Ack || r.action is Nack) && !(event is Slept) && state_for(
                *old(self),
                event,
            ).jitter_ms > 0 && state_for(*old(self), event).mode != SimulationMode::Flaky
                ==> exists|d: &mut ThreadRng|
                *d == *old(rng) && *final(d) == *final(rng) && #[trigger] number_given(
                    d,
                    state_for(*old(self), event).jitter_ms,
                    0,
                ),
    {
        let ghost before = *self;
        let ghost given = event;
        let ghost least = state_for(before, event).latency_ms;
        let ghost some_ack = acks(state_for(before, event), 0);
        assert(possible_ack(state_for(before, event), some_ack));
        match event {
            Event::Shutdown => {
                self.phase = Phase::Stopped;
                assert((*self, Action::Stop) == stepped(*exporter, before, given, least, some_ack));
                Step { action: Action::Stop, notice: Notice::Nothing }
            },
            Event::Other => {
                assert((*self, Action::Receive) == stepped(
                    *exporter,
                    before,
                    given,
                    least,
                    some_ack,
                ));
                Step { action: Action::Receive, notice: Notice::Nothing }
            },
            Event::Data { now } => {
                if self.is_due(exporter, now) {
                    self.last_check = now;
                    self.phase = Phase::Reading;
                    assert((*self, Action::ReadControlFile) == stepped(
                        *exporter,
                        before,
                        given,
                        least,
                        some_ack,
                    ));
                    return Step { action: Action::ReadControlFile, notice: Notice::Nothing };
                }
                let action = self.respond(exporter, rng);
                proof {
                    let (delay, ack) = choose|delay: u64, ack: bool|
                        {
                            &&& possible_delay(before.state, delay)
                            &&& possible_ack(before.state, ack)
                            &&& (*self, action) == #[trigger] responded(
                                *exporter,
                                before,
                                delay,
                                ack,
                            )
                        };
                    assert((*self, action) == stepped(*exporter, before, given, delay, ack));
                }
                Step { action, notice: Notice::Nothing }
            },
            Event::File(file) => {
                let notice = self.reload(file);
                let ghost reloaded = *self;
                let action = self.respond(exporter, rng);
                proof {
                    let (delay, ack) = choose|delay: u64, ack: bool|
                        {
                            &&& possible_delay(reloaded.state, delay)
                            &&& possible_ack(reloaded.state, ack)
                            &&& (*self, action) == #[trigger] responded(
                                *exporter,
                                reloaded,
                                delay,
                                ack,
                            )
                        };
                    assert((*self, action) == stepped(*exporter, before, given, delay, ack));
                }
                Step { action, notice }
            },
            Event::Slept => {
                let state = self.state;
                let ack: bool = ChaosExporter::should_ack_message(&state, rng);
                assert(possible_ack(state, ack));
                let action = self.conclude(exporter, ack);
                assert((*self, action) == stepped(*exporter, before, given, least, ack));
                Step { action, notice: Notice::Nothing }
            },
        }
    }
}

// ---- laws ----------------------------------------------------------------------------------

/// While online, every message is acknowledged, whatever is drawn.
pub proof fn online_acknowledges(state: ControlState, word: u64)
    requires
        state.mode == SimulationMode::Online,
    ensures
        acks(state, word),
{
}

/// While offline, every message is refused, whatever is drawn.
pub proof fn offline_refuses(state: ControlState, word: u64)
    requires
        state.mode == SimulationMode::Offline,
    ensures
        !acks(state, word),
{
}

/// Each step that answers a message counts one answer, and no other step counts any.
pub proof fn answers_are_counted(
    e: ChaosExporter,
    s: Session,
    event: Event,
    delay: u64,
    ack: bool,
)
    requires
        ack ==> s.ack_count < u64::MAX,
        !ack ==> s.nack_count < u64::MAX,
    ensures
        ({
            let (t, action) = stepped(e, s, event, delay, ack);
            &&& t.ack_count == s.ack_count + (if action is Ack {
                1int
            } else {
                0
            })
            &&& t.nack_count == s.nack_count + (if action is Nack {
                1int
            } else {
                0
            })
        }),
{
}

/// Every message is answered, and answered once: after at most one reading of the control file
/// and at most one wait comes an answer, and then the next message is taken.
pub proof fn every_message_is_answered_once(
    e: ChaosExporter,
    s: Session,
    now: u128,
    file: ControlFile,
    delay: u64,
    ack: bool,
)
    requires
        s.phase == Phase::Receiving,
    ensures
        ({
            let (s1, a1) = stepped(e, s, Event::Data { now }, delay, ack);
            let (s2, a2) = if a1 is ReadControlFile {
                stepped(e, s1, Event::File(file), delay, ack)
            } else {
                (s1, a1)
            };
            let (s3, a3) = if a2 is Sleep {
                stepped(e, s2, Event::Slept, delay, ack)
            } else {
                (s2, a2)
            };
            &&& a1 is ReadControlFile ==> s1.phase == Phase::Reading
            &&& a2 is Sleep ==> s2.phase == Phase::Sleeping
            &&& a3 is Ack || a3 is Nack
            &&& s3.phase == Phase::Receiving
        }),
{
}

/// A control file that cannot be used keeps the state: its reason is noted, and the message for
/// which it was read is answered in the state that it finds, as if it had not been read. Read at
/// the start, it leaves the state without a control file.
pub proof fn unusable_file_keeps_state(
    e: ChaosExporter,
    s: Session,
    reason: String,
    delay: u64,
    ack: bool,
)
    ensures
        ({
            let file = ControlFile::Invalid(reason);
            let (t, action) = stepped(e, s, Event::File(file), delay, ack);
            &&& t.state == s.state
            &&& state_for(s, Event::File(file)) == s.state
            &&& (t, action) == responded(e, s, delay, ack)
            &&& action is Sleep || action is Ack || action is Nack
            &&& notice_from(s.state, file) == Notice::Kept(reason)
            &&& initial_state(file) == default_state()
        }),
{
}

/// A message makes the exporter read the control file exactly where it is due, whatever the state
/// is; until the file is read the state stays, and a message that makes it read none leaves it for
/// the next.
pub proof fn due_message_reads_the_file(
    e: ChaosExporter,
    s: Session,
    now: u128,
    delay: u64,
    ack: bool,
)
    ensures
        ({
            let event = Event::Data { now };
            let (t, action) = stepped(e, s, event, delay, ack);
            &&& action is ReadControlFile <==> due(e, s, now)
            &&& t.state == s.state
            &&& t.last_check == (if due(e, s, now) {
                now
            } else {
                s.last_check
            })
            &&& due(e, s, now) ==> steppable(e, s, event)
        }),
{
}

/// A message makes the exporter read the control file exactly from the time on at which the interval
/// has passed since it was read last; where the clock stands before that time, only if the interval
/// is none.
pub proof fn file_is_read_once_the_interval_has_passed(
    e: ChaosExporter,
    s: Session,
    now: u128,
    delay: u64,
    ack: bool,
)
    ensures
        ({
            let (t, action) = stepped(e, s, Event::Data { now }, delay, ack);
            &&& now >= s.last_check + e.check_interval ==> {
                &&& action == Action::ReadControlFile
                &&& t.phase == Phase::Reading
                &&& t.last_check == now
            }
            &&& s.last_check <= now < s.last_check + e.check_interval ==> {
                &&& action != Action::ReadControlFile
                &&& t.phase != Phase::Reading
                &&& t.last_check == s.last_check
            }
            &&& now < s.last_check ==> (action == Action::ReadControlFile <==> e.check_interval == 0)
        }),
{
}

/// Where a message makes the exporter read the control file, so does every later one in its place.
pub proof fn later_messages_read_the_file_too(
    e: ChaosExporter,
    s: Session,
    now: u128,
    later: u128,
    delay: u64,
    ack: bool,
)
    requires
        now <= later,
        stepped(e, s, Event::Data { now }, delay, ack).1 == Action::ReadControlFile,
    ensures
        stepped(e, s, Event::Data { now: later }, delay, ack).1 == Action::ReadControlFile,
{
}

/// A wait is the latency where there is no jitter, and never shorter than the latency or longer than
/// the latency and the jitter; a message that waits is answered only then.
pub proof fn waits_lie_between_latency_and_jitter(
    e: ChaosExporter,
    s: Session,
    event: Event,
    delay: u64,
    ack: bool,
)
    requires
        possible_delay(state_for(s, event), delay),
    ensures
        ({
            let (t, action) = stepped(e, s, event, delay, ack);
            let state = state_for(s, event);
            &&& action matches Action::Sleep(ms) ==> {
                &&& 0 < ms
                &&& state.latency_ms <= ms <= state.latency_ms + state.jitter_ms
                &&& state.jitter_ms == 0 ==> ms == state.latency_ms
                &&& t.phase == Phase::Sleeping
                &&& t.ack_count == s.ack_count && t.nack_count == s.nack_count
            }
            &&& state.latency_ms > 0 && (event is Data || event is File) ==> !(action is Ack)
                && !(action is Nack)
        }),
{
}

/// In `Flaky` mode the words that are drawn refuse messages in the share that the failure rate says:
/// a rate with the exponent `e` and the further digits `m`, which is the number
/// `(2^52 + m) * 2^(e - 1075)` below one, refuses exactly the words whose first fifty-two binary
/// digits make a smaller fraction.
pub proof fn flaky_refuses_by_the_rate(state: ControlState, word: u64, e: nat, m: nat)
    requires
        state.mode == SimulationMode::Flaky,
        0 < e < 1023,
        m < 0x10_0000_0000_0000,
        state.failure_rate == e * 0x10_0000_0000_0000 + m,
    ensures
        acks(state, word) <==> 0x10_0000_0000_0000 + m <= (word as nat / 4096) * pow2(
            (1023 - e) as nat,
        ),
{
    let bits = state.failure_rate;
    assert(fraction(bits) == m);
    assert(exponent(bits) == e) by {
        assert(bits as nat / 0x10_0000_0000_0000 == e);
    }
    crate::rate::lemma_shifted(
        0x10_0000_0000_0000 + m,
        e,
        word as nat / 4096,
        (1023 - e) as nat,
    );
}

/// In `Flaky` mode a rate of zero refuses no message and a rate of one every message; a word that is
/// acknowledged is so also where it is larger; and a larger rate acknowledges no word that a smaller
/// one refuses.
pub proof fn flaky_rates_are_ordered(low: ControlState, high: ControlState, word: u64, larger: u64)
    requires
        low.mode == SimulationMode::Flaky,
        high.mode == SimulationMode::Flaky,
        low.failure_rate <= high.failure_rate <= 0x3FF0_0000_0000_0000,
        word <= larger,
    ensures
        low.failure_rate == 0 ==> acks(low, word),
        high.failure_rate == 0x3FF0_0000_0000_0000 ==> !acks(high, word),
        acks(low, word) ==> acks(low, larger),
        acks(high, word) ==> acks(low, word),
{
    let k = word as nat / 4096;
    let l = larger as nat / 4096;
    crate::rate::extreme_rates(low.failure_rate, k);
    crate::rate::extreme_rates(high.failure_rate, k);
    crate::rate::lemma_ordered(low.failure_rate, high.failure_rate);
    assert(k * pow2(1023) <= l * pow2(1023)) by (nonlinear_arith)
        requires
            k <= l,
    ;
}

/// The control file that was read for a message puts its state in force, and where there is none,
/// the state without a control file, whatever it was before; the message is answered in it.
pub proof fn control_file_takes_effect(
    e: ChaosExporter,
    s: Session,
    file: ControlFile,
    delay: u64,
    ack: bool,
)
    ensures
        ({
            let (t, action) = stepped(e, s, Event::File(file), delay, ack);
            &&& t.state == state_for(s, Event::File(file))
            &&& file matches ControlFile::State(new) ==> same_state(t.state, new) || t.state == new
            &&& file is Missing ==> same_state(t.state, default_state())
            &&& action is Sleep || action is Ack || action is Nack
        }),
{
}

/// A change of the state is noted exactly if the control file says another state than the one in
/// force, with the state that it takes the place of; and the reason of a file that cannot be used is
/// noted.
pub proof fn changes_are_noted(before: ControlState, file: ControlFile)
    requires
        !(file is Json),
    ensures
        ({
            let says = match file {
                ControlFile::State(s) => Some(s),
                ControlFile::Missing => Some(default_state()),
                _ => None,
            };
            let notice = notice_from(before, file);
            let after = state_from(before, file);
            &&& notice is Kept <==> file is Invalid
            &&& notice is Changed <==> says is Some && !same_state(says->0, before)
            &&& notice matches Notice::Changed(from) ==> from == before && after == says->0
            &&& !(notice is Changed) ==> after == before
        }),
{
}

/// The exporter begins in the state that the control file says, and in the one without a control file
/// where there is none or it cannot be used.
pub proof fn exporter_begins_as_the_file_says(file: ControlFile)
    ensures
        file matches ControlFile::State(s) ==> initial_state(file) == s,
        !(file is State) ==> {
            &&& initial_state(file).mode == SimulationMode::Online
            &&& initial_state(file).latency_ms == 0
            &&& initial_state(file).jitter_ms == 0
        },
{
}

/// A shutdown stops the exporter, whatever the state is: the counts stay, and nothing is waited
/// for any more.
pub proof fn shutdown_stops(
    e: ChaosExporter,
    s: Session,
    delay: u64,
    ack: bool,
    next: Event,
)
    ensures
        ({
            let (t, action) = stepped(e, s, Event::Shutdown, delay, ack);
            &&& steppable(e, s, Event::Shutdown)
            &&& action == Action::Stop
            &&& t == (Session { phase: Phase::Stopped, ..s })
            &&& !expected(t, next)
        }),
{
}

/// A message that does not concern the exporter changes nothing and answers nothing, whatever the
/// state is.
pub proof fn other_messages_change_nothing(e: ChaosExporter, s: Session, delay: u64, ack: bool)
    ensures
        steppable(e, s, Event::Other),
        stepped(e, s, Event::Other, delay, ack) == (s, Action::Receive),
{
}

/// Nothing waits where the state names neither latency nor jitter.
pub proof fn no_wait_without_latency(
    e: ChaosExporter,
    s: Session,
    event: Event,
    delay: u64,
    ack: bool,
)
    requires
        possible_delay(state_for(s, event), delay),
        state_for(s, event).latency_ms == 0,
        state_for(s, event).jitter_ms == 0,
    ensures
        !(stepped(e, s, event, delay, ack).1 is Sleep),
{
}

/// In the course of any number of messages, acknowledged or refused, progress is reported once for
/// every `n` of them; where `n` is zero, never.
pub proof fn one_report_in_every_n(n: u64, messages: nat)
    ensures
        n > 0 ==> report_lines(n, messages) == messages / (n as nat),
        n == 0 ==> report_lines(n, messages) == 0,
    decreases messages,
{
    if messages > 0 {
        one_report_in_every_n(n, (messages - 1) as nat);
        if n > 0 {
            lemma_quotient_step((messages - 1) as nat, n as nat);
        }
    } else if n > 0 {
        vstd::arithmetic::div_mod::lemma_basic_div(0, n as int);
    }
}

/// A quotient grows by one where the divisor divides the next number, and else stays.
proof fn lemma_quotient_step(m: nat, n: nat)
    requires
        n > 0,
    ensures
        (m + 1) / n == m / n + (if (m + 1) % n == 0 {
            1nat
        } else {
            0
        }),
{
    let q = m / n;
    let r = m % n;
    vstd::arithmetic::div_mod::lemma_fundamental_div_mod(m as int, n as int);
    assert(m == n * q + r);
    if r + 1 == n {
        assert(m + 1 == n * (q + 1)) by (nonlinear_arith)
            requires
                m == n * q + r,
                r + 1 == n,
        ;
        vstd::arithmetic::div_mod::lemma_fundamental_div_mod_converse(
            (m + 1) as int,
            n as int,
            (q + 1) as int,
            0,
        );
    } else {
        vstd::arithmetic::div_mod::lemma_fundamental_div_mod_converse(
            (m + 1) as int,
            n as int,
            q as int,
            (r + 1) as int,
        );
    }
}

/// The answer to a message reports progress exactly if the number of messages answered by then is
/// one that progress is reported after, whichever of them were acknowledged.
pub proof fn reports_count_all_messages(e: ChaosExporter, s: Session, ack: bool)
    requires
        ack ==> s.ack_count < u64::MAX,
        !ack ==> s.nack_count < u64::MAX,
    ensures
        ({
            let (t, action) = answered(e, s, ack);
            let report = match action {
                Action::Ack { report } => report,
                Action::Nack { report } => report,
                _ => false,
            };
            report == reports(e.log_every_n, (t.ack_count + t.nack_count) as nat)
        }),
{
}

} // verus!
