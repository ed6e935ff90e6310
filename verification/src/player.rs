//! The playback scheduler: one step from what the caller observed (the clock, the
//! cancellation flag) to what the caller has to do next.
//!
//! The caller owns the clock, the device and the flag. It keeps the instant of the
//! last dispatch that followed a wait, reads the flag and the time elapsed since
//! that instant, and calls [`FilePlayer::step`]; it carries out the action and
//! calls again, until the action is [`PlayerAction::Stop`] or
//! [`PlayerAction::Finish`].

use vstd::prelude::*;
use crate::midi_file::{combine_events, compiled, merge_tracks, merged_all};
use crate::midi_file::{DataEvent, LocalEvent, TrackEvent};

verus! {

/// The tempo before the first tempo event: 120 quarter notes per minute.
pub const DEFAULT_TEMPO: u64 = 500000;

/// Why a file cannot be played.
#[derive(Clone, Copy, Debug, PartialEq, Eq, Structural)]
pub enum PlayerError {
    /// The division is in SMPTE form.
    UnsupportedFormat,
    /// The merged timeline holds no event: the file has no track, or none of its
    /// tracks holds an event.
    EmptySequence,
}

/// Where playback stands.
#[derive(Clone, Copy, Debug, PartialEq, Eq, Structural)]
pub enum PlayerState {
    /// No step was taken yet.
    Idle,
    /// The next event is not due yet.
    Waiting,
    /// An event was handed out and the caller is dispatching it.
    Dispatching,
    /// Cancellation was seen; nothing more is dispatched.
    Cancelled,
    /// Every event was handed out.
    Done,
}

/// What the caller observed just before a step.
#[derive(Clone, Copy, Debug, PartialEq, Eq, Structural)]
pub struct PlayerInput {
    /// Whether cancellation is requested.
    pub cancelled: bool,
    /// Microseconds since the caller last restarted its clock, or since playback
    /// began if it never did.
    pub elapsed_micros: u128,
}

/// What the caller has to do after a step.
#[derive(Clone, Copy, Debug, PartialEq, Eq, Structural)]
pub enum PlayerAction {
    /// The next event is not due: reclaim finished long messages, observe again,
    /// and step again.
    Poll,
    /// The event at `index` is due and is a message: restart the clock if
    /// `restart_clock` is set, then send the message to the device.
    Send { index: usize, restart_clock: bool },
    /// The event at `index` is due and is a meta event: restart the clock if
    /// `restart_clock` is set, then log the event. Nothing goes to the device, so
    /// the caller signals the device's readiness itself. `new_tempo` is the tempo
    /// that the event has set, if it set one.
    Control { index: usize, restart_clock: bool, new_tempo: Option<u64> },
    /// Playback was cancelled: leave the loop.
    Stop,
    /// Playback is complete: leave the loop.
    Finish,
}

/// The state of a playback session, as the contracts speak of it.
pub struct PlayerModel {
    /// Ticks per quarter note.
    pub division: nat,
    /// The timeline.
    pub events: Seq<DataEvent>,
    /// How many events were handed out for dispatch.
    pub position: nat,
    /// Microseconds per quarter note.
    pub tempo: nat,
    pub state: PlayerState,
}

impl PlayerModel {
    /// What holds of every session: the division is positive, the position is
    /// within the timeline, and the timeline is one that memory can hold.
    pub open spec fn valid(self) -> bool {
        self.division > 0 && self.position <= self.events.len() <= usize::MAX
    }
}

/// The microseconds that `delta_ticks` ticks last: ticks times tempo, divided by
/// the division, rounded down.
pub open spec fn wait_of(delta_ticks: nat, tempo: nat, division: nat) -> nat {
    (delta_ticks * tempo) / division
}

/// The tempo after `event` was dispatched at tempo `tempo`.
pub open spec fn tempo_after(tempo: nat, event: DataEvent) -> nat {
    match event.data {
        LocalEvent::Meta(meta) => match meta.tempo_setting() {
            Some(set) => set as nat,
            None => tempo,
        },
        _ => tempo,
    }
}

/// The action that hands out `event`, which stands at `index` in the timeline: a
/// message is sent, a meta event is not.
pub open spec fn dispatch_of(event: DataEvent, index: usize) -> PlayerAction {
    match event.data {
        LocalEvent::Meta(meta) => PlayerAction::Control {
            index,
            restart_clock: event.delta_time > 0,
            new_tempo: meta.tempo_setting(),
        },
        _ => PlayerAction::Send { index, restart_clock: event.delta_time > 0 },
    }
}

impl PlayerAction {
    /// Whether the action hands out an event.
    pub open spec fn dispatches(self) -> bool {
        self is Send || self is Control
    }
}

/// One step of the scheduler.
///
/// A cancelled or complete session stays as it is. Otherwise, in this order: with
/// no event left the session is complete; with cancellation requested it is
/// cancelled; with the wait of the next event elapsed that event is handed out,
/// the tempo follows it, and the clock restarts if the event had a delta; else the
/// session waits and the caller polls.
pub open spec fn stepped(s: PlayerModel, input: PlayerInput) -> (PlayerModel, PlayerAction) {
    if s.state == PlayerState::Cancelled {
        (s, PlayerAction::Stop)
    } else if s.state == PlayerState::Done {
        (s, PlayerAction::Finish)
    } else if s.position >= s.events.len() {
        (PlayerModel { state: PlayerState::Done, ..s }, PlayerAction::Finish)
    } else if input.cancelled {
        (PlayerModel { state: PlayerState::Cancelled, ..s }, PlayerAction::Stop)
    } else {
        let event = s.events[s.position as int];
        if input.elapsed_micros >= wait_of(event.delta_time as nat, s.tempo, s.division) {
            (
                PlayerModel {
                    position: s.position + 1,
                    tempo: tempo_after(s.tempo, event),
                    state: PlayerState::Dispatching,
                    ..s
                },
                dispatch_of(event, s.position as usize),
            )
        } else {
            (PlayerModel { state: PlayerState::Waiting, ..s }, PlayerAction::Poll)
        }
    }
}

/// Whether a step from `s` would look at an event for the first time and go on to
/// its wait: the session is between events, an event is left, and cancellation is
/// not requested.
pub open spec fn awaited(s: PlayerModel, cancelled: bool) -> bool {
    (s.state == PlayerState::Idle || s.state == PlayerState::Dispatching) && s.position
        < s.events.len() && !cancelled
}

/// The session after the steps that `inputs` feed it, in order.
pub open spec fn after(s: PlayerModel, inputs: Seq<PlayerInput>) -> PlayerModel
    decreases inputs.len(),
{
    if inputs.len() == 0 {
        s
    } else {
        stepped(after(s, inputs.drop_last()), inputs.last()).0
    }
}

/// The action that step `n` of a run answers with.
pub open spec fn action_at(s: PlayerModel, inputs: Seq<PlayerInput>, n: int) -> PlayerAction {
    stepped(after(s, inputs.take(n)), inputs[n]).1
}

/// Events are handed out in their order, each once, and none before its wait.
///
/// A step hands out the event at the session's position and moves the position on
/// by one, only when cancellation is not requested and the time elapsed has
/// reached the event's wait at the tempo then in force. Any other step leaves
/// position and tempo alone. No step touches the timeline or the division.
pub proof fn lemma_step_in_order(s: PlayerModel, input: PlayerInput)
    requires
        s.valid(),
    ensures
        stepped(s, input).0.valid(),
        stepped(s, input).0.events == s.events,
        stepped(s, input).0.division == s.division,
        stepped(s, input).1.dispatches() ==> {
            &&& s.position < s.events.len()
            &&& stepped(s, input).1 == dispatch_of(s.events[s.position as int], s.position as usize)
            &&& stepped(s, input).0.position == s.position + 1
            &&& stepped(s, input).0.tempo == tempo_after(s.tempo, s.events[s.position as int])
            &&& !input.cancelled
            &&& input.elapsed_micros >= wait_of(
                s.events[s.position as int].delta_time as nat,
                s.tempo,
                s.division,
            )
        },
        !stepped(s, input).1.dispatches() ==> stepped(s, input).0.position == s.position && stepped(
            s,
            input,
        ).0.tempo == s.tempo,
        stepped(s, input).1 == PlayerAction::Poll ==> input.elapsed_micros < wait_of(
            s.events[s.position as int].delta_time as nat,
            s.tempo,
            s.division,
        ),
{
}

/// A message is sent, a meta event never is; a tempo event hands its tempo on.
pub proof fn lemma_meta_is_not_sent(event: DataEvent, index: usize)
    ensures
        dispatch_of(event, index) is Send <==> !(event.data is Meta),
        dispatch_of(event, index) is Control <==> event.data is Meta,
        dispatch_of(event, index) matches PlayerAction::Control { new_tempo: Some(tempo), .. }
            ==> tempo_after(0, event) == tempo,
{
}

/// A step that sees cancellation requested dispatches nothing: it stops or, with
/// no event left, finishes, and leaves position and tempo as they were.
pub proof fn lemma_cancel_stops(s: PlayerModel, input: PlayerInput)
    requires
        input.cancelled,
    ensures
        stepped(s, input).1 == PlayerAction::Stop || stepped(s, input).1 == PlayerAction::Finish,
        stepped(s, input).0.state == PlayerState::Cancelled || stepped(s, input).0.state
            == PlayerState::Done,
        stepped(s, input).0.position == s.position,
        stepped(s, input).0.tempo == s.tempo,
        s.state != PlayerState::Done && s.position < s.events.len() ==> stepped(s, input).1
            == PlayerAction::Stop,
{
}

/// A cancelled or complete session stays as it is, whatever the caller observes.
pub proof fn lemma_end_is_final(s: PlayerModel, input: PlayerInput)
    requires
        s.state == PlayerState::Cancelled || s.state == PlayerState::Done,
    ensures
        stepped(s, input).0 == s,
        s.state == PlayerState::Cancelled ==> stepped(s, input).1 == PlayerAction::Stop,
        s.state == PlayerState::Done ==> stepped(s, input).1 == PlayerAction::Finish,
{
}

/// Once a step has seen cancellation requested, no later step of the run hands
/// out an event or asks for a poll, and the session no longer changes.
pub proof fn lemma_nothing_after_cancel(
    s: PlayerModel,
    inputs: Seq<PlayerInput>,
    seen: int,
    n: int,
)
    requires
        0 <= seen <= n < inputs.len(),
        inputs[seen].cancelled,
    ensures
        action_at(s, inputs, n) == PlayerAction::Stop || action_at(s, inputs, n)
            == PlayerAction::Finish,
        after(s, inputs.take(n + 1)) == after(s, inputs.take(seen + 1)),
        after(s, inputs.take(n + 1)).position == after(s, inputs.take(seen)).position,
    decreases n - seen,
{
    let upto = inputs.take(n + 1);
    assert(upto.drop_last() =~= inputs.take(n));
    assert(upto.last() == inputs[n]);
    if seen == n {
        lemma_cancel_stops(after(s, inputs.take(n)), inputs[n]);
    } else {
        lemma_nothing_after_cancel(s, inputs, seen, n - 1);
        let before = after(s, inputs.take(n));
        let at_seen = after(s, inputs.take(seen + 1));
        assert(inputs.take(seen + 1).drop_last() =~= inputs.take(seen));
        lemma_cancel_stops(after(s, inputs.take(seen)), inputs[seen]);
        lemma_end_is_final(before, inputs[n]);
    }
}

/// The microseconds to wait for an event `delta_ticks` ticks after the one before.
pub fn wait_micros(delta_ticks: u64, tempo: u64, division: u64) -> (micros: u128)
    requires
        division > 0,
    ensures
        micros == wait_of(delta_ticks as nat, tempo as nat, division as nat),
{
    assert(delta_ticks * tempo <= u128::MAX) by (nonlinear_arith)
        requires
            delta_ticks <= u64::MAX,
            tempo <= u64::MAX,
    ;
    (delta_ticks as u128) * (tempo as u128) / (division as u128)
}

/// A playback session over one file.
#[derive(Debug)]
pub struct FilePlayer {
    division: u64,
    events: Vec<DataEvent>,
    position: usize,
    tempo: u64,
    state: PlayerState,
}

impl View for FilePlayer {
    type V = PlayerModel;

    closed spec fn view(&self) -> PlayerModel {
        PlayerModel {
            division: self.division as nat,
            events: self.events@,
            position: self.position as nat,
            tempo: self.tempo as nat,
            state: self.state,
        }
    }
}

impl FilePlayer {
    #[verifier::type_invariant]
    spec fn well_formed(&self) -> bool {
        self.division > 0 && self.position <= self.events@.len()
    }

    /// Prepares the playback of a file from its header's division and its tracks.
    ///
    /// A negative division is SMPTE time code and is refused. Otherwise the tracks
    /// are folded into one timeline; a timeline without an event, which a file
    /// without tracks has too, is refused. The timeline is compiled, and playback
    /// starts idle, at the first event, at the default tempo.
    pub fn new(division: i16, tracks: Vec<Vec<TrackEvent>>) -> (made: Result<Self, PlayerError>)
        requires
            division != 0,
        ensures
            match made {
                Ok(player) => division > 0 && merged_all(tracks@).len() > 0 && player@.valid()
                    && player@ == (PlayerModel {
                    division: division as nat,
                    events: compiled(merged_all(tracks@)),
                    position: 0,
                    tempo: DEFAULT_TEMPO as nat,
                    state: PlayerState::Idle,
                }),
                Err(e) => if division < 0 {
                    e == PlayerError::UnsupportedFormat
                } else {
                    merged_all(tracks@).len() == 0 && e == PlayerError::EmptySequence
                },
            },
    {
        if division < 0 {
            return Err(PlayerError::UnsupportedFormat);
        }
        match merge_tracks(tracks) {
            Some(merged) => {
                let events = combine_events(merged);
                if events.len() == 0 {
                    return Err(PlayerError::EmptySequence);
                }
                Ok(
                    Self {
                        division: division as u64,
                        events,
                        position: 0,
                        tempo: DEFAULT_TEMPO,
                        state: PlayerState::Idle,
                    },
                )
            },
            None => Err(PlayerError::EmptySequence),
        }
    }

    /// The timeline.
    pub fn events(&self) -> (events: &Vec<DataEvent>)
        ensures
            events@ == self@.events,
    {
        &self.events
    }

    /// Ticks per quarter note.
    pub fn division(&self) -> (division: u64)
        ensures
            division == self@.division,
    {
        self.division
    }

    /// Microseconds per quarter note, as the events dispatched so far have set it.
    pub fn tempo(&self) -> (tempo: u64)
        ensures
            tempo == self@.tempo,
    {
        self.tempo
    }

    /// How many events were handed out for dispatch.
    pub fn position(&self) -> (position: usize)
        ensures
            position == self@.position,
    {
        self.position
    }

    /// Where playback stands.
    pub fn state(&self) -> (state: PlayerState)
        ensures
            state == self@.state,
    {
        self.state
    }

    /// Whether the caller is to wait for the device's ready signal before it
    /// observes and steps: at the start of an event, with an event left and no
    /// cancellation requested. A device signals after each send; after a meta
    /// event, which sends nothing, the caller signals in its stead.
    pub fn awaits_device(&self, cancelled: bool) -> (awaits: bool)
        ensures
            awaits == awaited(self@, cancelled),
    {
        let between = match self.state {
            PlayerState::Idle => true,
            PlayerState::Dispatching => true,
            _ => false,
        };
        between && self.position < self.events.len() && !cancelled
    }

    /// Takes one step: see [`stepped`].
    ///
    /// A step that sees cancellation requested hands out no event.
    pub fn step(&mut self, input: PlayerInput) -> (action: PlayerAction)
        ensures
            (final(self)@, action) == stepped(old(self)@, input),
            old(self)@.valid(),
            final(self)@.valid(),
            input.cancelled ==> (action == PlayerAction::Stop || action == PlayerAction::Finish)
                && final(self)@.position == old(self)@.position,
    {
        proof {
            use_type_invariant(&*self);
            assert(self.events@.len() == self.events.len());
            lemma_step_in_order(self@, input);
        }
        match self.state {
            PlayerState::Cancelled => {
                return PlayerAction::Stop;
            },
            PlayerState::Done => {
                return PlayerAction::Finish;
            },
            _ => {},
        }
        if self.position >= self.events.len() {
            self.state = PlayerState::Done;
            return PlayerAction::Finish;
        }
        if input.cancelled {
            self.state = PlayerState::Cancelled;
            return PlayerAction::Stop;
        }
        let index = self.position;
        let delta_time = self.events[index].delta_time;
        if input.elapsed_micros >= wait_micros(delta_time, self.tempo, self.division) {
            let restart_clock = delta_time > 0;
            let (tempo, action) = match &self.events[index].data {
                LocalEvent::Meta(meta) => {
                    let new_tempo = meta.tempo();
                    let tempo = match new_tempo {
                        Some(set) => set,
                        None => self.tempo,
                    };
                    (tempo, PlayerAction::Control { index, restart_clock, new_tempo })
                },
                _ => (self.tempo, PlayerAction::Send { index, restart_clock }),
            };
            self.tempo = tempo;
            self.position = index + 1;
            self.state = PlayerState::Dispatching;
            action
        } else {
            self.state = PlayerState::Waiting;
            PlayerAction::Poll
        }
    }
}

} // verus!
