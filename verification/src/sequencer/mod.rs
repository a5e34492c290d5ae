//! MIDI sequencer: which events are due, what each asks of the synthesizer,
//! and how a seek rebuilds synthesizer state.
//!
//! Time is kept in ticks here; the host converts its audio clock to ticks
//! and applies the returned synthesizer commands.

use vstd::prelude::*;
use crate::midi::event::{EventModel, MidiData, MidiEvent, TimedEventModel, TimedMidiEvent};
use crate::midi::order::event_models;

verus! {

/// A notice the sequencer gives an [`EventSink`].
pub enum SinkNotice {
    /// A seek reset the synthesizer.
    SeekReset,
    /// An event was applied to the synthesizer.
    Event(TimedEventModel),
}

/// Receives events as the sequencer applies them to the synth, so hosts can
/// mirror channel state for display without the sequencer knowing about it.
pub trait EventSink: Sized {
    /// What taking notice `n` does to a sink: whether `after` is `before`
    /// once it has taken the notice.
    spec fn takes(before: Self, after: Self, n: SinkNotice) -> bool;

    /// Called for every event applied to the synth, including events
    /// replayed during a seek. NoteOn is reported even on muted channels.
    fn on_event(&mut self, event: &TimedMidiEvent)
        ensures
            Self::takes(*old(self), *final(self), SinkNotice::Event(event@)),
    ;

    /// Called when a seek resets the synth, before replayed events are
    /// reported. Hosts should restore their channel state to defaults here.
    fn on_seek_reset(&mut self)
        ensures
            Self::takes(*old(self), *final(self), SinkNotice::SeekReset),
    ;
}

/// Whether `states` is a run of a sink through the notices `ns`: each
/// state is the one before it once it has taken the next notice.
pub open spec fn notice_chain<S: EventSink>(states: Seq<S>, ns: Seq<SinkNotice>) -> bool {
    &&& states.len() == ns.len() + 1
    &&& forall|i: int| 0 <= i < ns.len() ==> #[trigger] S::takes(states[i], states[i + 1], ns[i])
}

/// Whether `after` is `before` once it has taken the notices `ns`, one
/// after the other.
pub open spec fn took_all<S: EventSink>(before: S, after: S, ns: Seq<SinkNotice>) -> bool {
    exists|states: Seq<S>|
        #[trigger] notice_chain(states, ns) && states[0] == before && states.last() == after
}

/// Discards all notifications.
impl EventSink for () {
    open spec fn takes(before: Self, after: Self, n: SinkNotice) -> bool {
        true
    }

    fn on_event(&mut self, event: &TimedMidiEvent) {
    }

    fn on_seek_reset(&mut self) {
    }
}

/// Collects events for hosts that forward them elsewhere, such as a log view.
impl EventSink for Vec<TimedMidiEvent> {
    /// An event is appended, the events already collected staying as they
    /// were; a seek reset changes nothing.
    open spec fn takes(before: Self, after: Self, n: SinkNotice) -> bool {
        match n {
            SinkNotice::Event(e) => {
                &&& after@.len() == before@.len() + 1
                &&& after@.drop_last() == before@
                &&& after@.last()@ == e
            },
            SinkNotice::SeekReset => after@ == before@,
        }
    }

    /// Appends a copy of the event; the events already collected stay.
    fn on_event(&mut self, event: &TimedMidiEvent)
        ensures
            final(self)@.len() == old(self)@.len() + 1,
            final(self)@.drop_last() == old(self)@,
            final(self)@.last()@ == event@,
    {
        let ghost before = self@;
        self.push(event.clone());
        assert(self@.drop_last() =~= before);
    }

    fn on_seek_reset(&mut self) {
    }
}

/// Something the synthesizer pool is asked to do.
#[derive(Debug, PartialEq, Eq)]
pub enum SynthCommand {
    NoteOn { port: u8, channel: i32, key: i32, velocity: i32 },
    NoteOff { port: u8, channel: i32, key: i32 },
    ProgramChange { port: u8, channel: i32, program: i32 },
    ControlChange { port: u8, channel: i32, controller: i32, value: i32 },
    PitchBend { port: u8, channel: i32, value: i16 },
    PolyAftertouch { port: u8, channel: i32, key: i32, pressure: i32 },
    ChannelAftertouch { port: u8, channel: i32, pressure: i32 },
    /// Hand a SysEx payload to every engine.
    SysEx(Vec<u8>),
    /// Back to the GM baseline on every engine.
    SystemReset,
    /// Mute mask (bit N = channel N) for the engines of a port.
    MuteMask { port: u8, mask: u16 },
}

/// Model of a [`SynthCommand`].
pub enum CommandModel {
    NoteOn { port: u8, channel: i32, key: i32, velocity: i32 },
    NoteOff { port: u8, channel: i32, key: i32 },
    ProgramChange { port: u8, channel: i32, program: i32 },
    ControlChange { port: u8, channel: i32, controller: i32, value: i32 },
    PitchBend { port: u8, channel: i32, value: i16 },
    PolyAftertouch { port: u8, channel: i32, key: i32, pressure: i32 },
    ChannelAftertouch { port: u8, channel: i32, pressure: i32 },
    SysEx(Seq<u8>),
    SystemReset,
    MuteMask { port: u8, mask: u16 },
}

impl View for SynthCommand {
    type V = CommandModel;

    open spec fn view(&self) -> CommandModel {
        match self {
            SynthCommand::NoteOn { port, channel, key, velocity } => CommandModel::NoteOn {
                port: *port,
                channel: *channel,
                key: *key,
                velocity: *velocity,
            },
            SynthCommand::NoteOff { port, channel, key } => CommandModel::NoteOff {
                port: *port,
                channel: *channel,
                key: *key,
            },
            SynthCommand::ProgramChange { port, channel, program } => CommandModel::ProgramChange {
                port: *port,
                channel: *channel,
                program: *program,
            },
            SynthCommand::ControlChange { port, channel, controller, value } =>
                CommandModel::ControlChange {
                port: *port,
                channel: *channel,
                controller: *controller,
                value: *value,
            },
            SynthCommand::PitchBend { port, channel, value } => CommandModel::PitchBend {
                port: *port,
                channel: *channel,
                value: *value,
            },
            SynthCommand::PolyAftertouch { port, channel, key, pressure } =>
                CommandModel::PolyAftertouch {
                port: *port,
                channel: *channel,
                key: *key,
                pressure: *pressure,
            },
            SynthCommand::ChannelAftertouch { port, channel, pressure } =>
                CommandModel::ChannelAftertouch { port: *port, channel: *channel, pressure: *pressure },
            SynthCommand::SysEx(d) => CommandModel::SysEx(d@),
            SynthCommand::SystemReset => CommandModel::SystemReset,
            SynthCommand::MuteMask { port, mask } => CommandModel::MuteMask { port: *port, mask: *mask },
        }
    }
}

/// Models of a list of commands.
pub open spec fn command_models(s: Seq<SynthCommand>) -> Seq<CommandModel> {
    s.map_values(|c: SynthCommand| c@)
}

/// A channel event addresses one of the 64 flat channels (port at most 3,
/// channel below 16).
pub open spec fn playable(e: EventModel) -> bool {
    match e {
        EventModel::NoteOn { port, channel, .. } => port <= 3 && channel < 16,
        EventModel::NoteOff { port, channel, .. } => port <= 3 && channel < 16,
        EventModel::ProgramChange { port, channel, .. } => port <= 3 && channel < 16,
        EventModel::ControlChange { port, channel, .. } => port <= 3 && channel < 16,
        EventModel::PitchBend { port, channel, .. } => port <= 3 && channel < 16,
        EventModel::PolyAftertouch { port, channel, .. } => port <= 3 && channel < 16,
        EventModel::ChannelAftertouch { port, channel, .. } => port <= 3 && channel < 16,
        _ => true,
    }
}

/// Whether flat channel `port * 16 + channel` is set in `mask`.
pub open spec fn is_muted(mask: u64, port: u8, channel: u8) -> bool {
    mask & (1u64 << ((port as u64) * 16 + channel as u64)) != 0
}

/// What applying an event asks of the synthesizer. A note-on on a muted
/// channel is dropped; tempo and time-signature events ask nothing.
pub open spec fn event_command(e: EventModel, muted: u64) -> Option<CommandModel> {
    match e {
        EventModel::NoteOn { port, channel, key, vel } => if is_muted(muted, port, channel) {
            None
        } else {
            Some(
                CommandModel::NoteOn {
                    port,
                    channel: channel as i32,
                    key: key as i32,
                    velocity: vel as i32,
                },
            )
        },
        EventModel::NoteOff { port, channel, key } => Some(
            CommandModel::NoteOff { port, channel: channel as i32, key: key as i32 },
        ),
        EventModel::ProgramChange { port, channel, program } => Some(
            CommandModel::ProgramChange { port, channel: channel as i32, program: program as i32 },
        ),
        EventModel::ControlChange { port, channel, controller, value } => Some(
            CommandModel::ControlChange {
                port,
                channel: channel as i32,
                controller: controller as i32,
                value: value as i32,
            },
        ),
        EventModel::PitchBend { port, channel, value } => Some(
            CommandModel::PitchBend { port, channel: channel as i32, value },
        ),
        EventModel::PolyAftertouch { port, channel, key, pressure } => Some(
            CommandModel::PolyAftertouch {
                port,
                channel: channel as i32,
                key: key as i32,
                pressure: pressure as i32,
            },
        ),
        EventModel::ChannelAftertouch { port, channel, pressure } => Some(
            CommandModel::ChannelAftertouch {
                port,
                channel: channel as i32,
                pressure: pressure as i32,
            },
        ),
        EventModel::SysEx(d) => Some(CommandModel::SysEx(d)),
        EventModel::TempoChange(_) => None,
        EventModel::TimeSignature { .. } => None,
    }
}

/// Tempo after an event: a tempo change sets it, anything else keeps it.
pub open spec fn tempo_after(us: u32, e: EventModel) -> u32 {
    match e {
        EventModel::TempoChange(t) => t,
        _ => us,
    }
}

/// Whether a seek replays the event: everything but notes and key pressure.
pub open spec fn is_replayed(e: EventModel) -> bool {
    match e {
        EventModel::NoteOn { .. } => false,
        EventModel::NoteOff { .. } => false,
        EventModel::PolyAftertouch { .. } => false,
        _ => true,
    }
}

/// First index at or after `from` whose event lies after `tick` (the length
/// when there is none): events before it are due by `tick`.
pub open spec fn due_end(events: Seq<TimedEventModel>, from: int, tick: u64) -> int
    decreases events.len() - from,
{
    if from >= events.len() {
        events.len() as int
    } else if events[from].tick > tick {
        from
    } else {
        due_end(events, from + 1, tick)
    }
}

/// Commands for the events in `[from, to)`, in order; with `replay_only`,
/// only for events a seek replays.
pub open spec fn commands_for(
    events: Seq<TimedEventModel>,
    from: int,
    to: int,
    muted: u64,
    replay_only: bool,
) -> Seq<CommandModel>
    decreases to - from,
{
    if to <= from {
        Seq::empty()
    } else {
        let prev = commands_for(events, from, to - 1, muted, replay_only);
        let e = events[to - 1].event;
        if replay_only && !is_replayed(e) {
            prev
        } else {
            match event_command(e, muted) {
                Some(c) => prev.push(c),
                None => prev,
            }
        }
    }
}

/// The notices a sink is given for the events in `[from, to)`: with
/// `replay_only`, those a seek replays; otherwise every one, in order.
pub open spec fn notices_for(events: Seq<TimedEventModel>, from: int, to: int, replay_only: bool) -> Seq<
    SinkNotice,
>
    decreases to - from,
{
    if to <= from {
        Seq::empty()
    } else {
        let prev = notices_for(events, from, to - 1, replay_only);
        if replay_only && !is_replayed(events[to - 1].event) {
            prev
        } else {
            prev.push(SinkNotice::Event(events[to - 1]))
        }
    }
}

/// A sink that has taken no notice is as it was.
pub proof fn lemma_took_none<S: EventSink>(sink: S)
    ensures
        took_all(sink, sink, Seq::empty()),
{
    let states = seq![sink];
    assert(notice_chain(states, Seq::<SinkNotice>::empty()));
}

/// One more notice keeps `took_all`: a sink that took `ns` reaching `mid`
/// and then took `n` has taken `ns.push(n)`.
pub proof fn lemma_took_one_more<S: EventSink>(before: S, mid: S, after: S, ns: Seq<SinkNotice>, n: SinkNotice)
    requires
        took_all(before, mid, ns),
        S::takes(mid, after, n),
    ensures
        took_all(before, after, ns.push(n)),
{
    let states = choose|states: Seq<S>|
        #[trigger] notice_chain(states, ns) && states[0] == before && states.last() == mid;
    let longer = states.push(after);
    let ns2 = ns.push(n);
    assert forall|i: int| 0 <= i < ns2.len() implies #[trigger] S::takes(longer[i], longer[i + 1], ns2[i]) by {
        if i < ns.len() {
            assert(longer[i] == states[i]);
            assert(longer[i + 1] == states[i + 1]);
            assert(ns2[i] == ns[i]);
            assert(S::takes(states[i], states[i + 1], ns[i]));
        } else {
            assert(longer[i] == mid);
            assert(longer[i + 1] == after);
            assert(ns2[i] == n);
        }
    }
    assert(notice_chain(longer, ns2));
    assert(longer[0] == before);
    assert(longer.last() == after);
}

/// Tempo after the events in `[from, to)`, starting from `us`.
pub open spec fn tempo_through(events: Seq<TimedEventModel>, from: int, to: int, us: u32) -> u32
    decreases to - from,
{
    if to <= from {
        us
    } else {
        tempo_after(tempo_through(events, from, to - 1, us), events[to - 1].event)
    }
}

/// Mute mask of each port below `ports`: bits `16 * port ..` of `muted`.
pub open spec fn mute_commands_for(muted: u64, ports: int) -> Seq<CommandModel>
    decreases ports,
{
    if ports <= 0 {
        Seq::empty()
    } else {
        mute_commands_for(muted, ports - 1).push(
            CommandModel::MuteMask {
                port: (ports - 1) as u8,
                mask: ((muted >> (((ports - 1) * 16) as u64)) & 0xFFFF) as u16,
            },
        )
    }
}

/// Default tempo: 500000 µs per quarter note (120 BPM).
pub const DEFAULT_US_PER_QUARTER: u32 = 500_000;

/// Plays a parsed MIDI file, in ticks.
///
/// Holds no transport state: every [`dispatch_until`](Self::dispatch_until)
/// call advances playback, and the host decides when to call it.
pub struct Sequencer {
    events: Vec<TimedMidiEvent>,
    ticks_per_quarter: u16,
    total_ticks: u64,
    port_count: u8,
    /// Current position index into events list.
    event_index: usize,
    /// Current tick.
    current_tick: u64,
    /// Current microseconds per quarter note.
    us_per_quarter: u32,
    /// Muted flat channels (bit N = port * 16 + channel).
    muted: u64,
}

/// Model of a [`Sequencer`].
pub struct SequencerModel {
    pub events: Seq<TimedEventModel>,
    pub ticks_per_quarter: u16,
    pub total_ticks: u64,
    pub port_count: u8,
    pub event_index: int,
    pub current_tick: u64,
    pub us_per_quarter: u32,
    pub muted: u64,
}

impl View for Sequencer {
    type V = SequencerModel;

    closed spec fn view(&self) -> SequencerModel {
        SequencerModel {
            events: event_models(self.events@),
            ticks_per_quarter: self.ticks_per_quarter,
            total_ticks: self.total_ticks,
            port_count: self.port_count,
            event_index: self.event_index as int,
            current_tick: self.current_tick,
            us_per_quarter: self.us_per_quarter,
            muted: self.muted,
        }
    }
}

/// Every event of `s` is playable.
pub open spec fn all_playable(s: Seq<TimedEventModel>) -> bool {
    forall|i: int| 0 <= i < s.len() ==> playable(#[trigger] s[i].event)
}

/// Whether one event is playable (see [`playable`]).
fn event_playable(e: &MidiEvent) -> (r: bool)
    ensures
        r == playable(e@),
{
    match e {
        MidiEvent::NoteOn { port, channel, .. } => *port <= 3 && *channel < 16,
        MidiEvent::NoteOff { port, channel, .. } => *port <= 3 && *channel < 16,
        MidiEvent::ProgramChange { port, channel, .. } => *port <= 3 && *channel < 16,
        MidiEvent::ControlChange { port, channel, .. } => *port <= 3 && *channel < 16,
        MidiEvent::PitchBend { port, channel, .. } => *port <= 3 && *channel < 16,
        MidiEvent::PolyAftertouch { port, channel, .. } => *port <= 3 && *channel < 16,
        MidiEvent::ChannelAftertouch { port, channel, .. } => *port <= 3 && *channel < 16,
        _ => true,
    }
}

/// Whether every event addresses one of the 64 flat channels, as
/// [`Sequencer::new`] requires.
pub fn all_events_playable(events: &[TimedMidiEvent]) -> (r: bool)
    ensures
        r == all_playable(event_models(events@)),
{
    let mut i: usize = 0;
    while i < events.len()
        invariant
            i <= events@.len(),
            forall|k: int| 0 <= k < i ==> playable(#[trigger] event_models(events@)[k].event),
        decreases events@.len() - i,
    {
        if !event_playable(&events[i].event) {
            assert(event_models(events@)[i as int] == events@[i as int]@);
            assert(!playable(event_models(events@)[i as int].event));
            assert(event_models(events@).len() == events@.len());
            return false;
        }
        assert(event_models(events@)[i as int] == events@[i as int]@);
        i = i + 1;
    }
    true
}

/// Copies a list of events.
fn copy_events(events: &Vec<TimedMidiEvent>) -> (r: Vec<TimedMidiEvent>)
    ensures
        event_models(r@) == event_models(events@),
{
    let mut out: Vec<TimedMidiEvent> = Vec::new();
    let mut i: usize = 0;
    while i < events.len()
        invariant
            i <= events@.len(),
            event_models(out@) == event_models(events@).take(i as int),
        decreases events@.len() - i,
    {
        let e = events[i].clone();
        let ghost before = out@;
        out.push(e);
        proof {
            assert(event_models(out@) =~= event_models(before).push(e@));
            assert(event_models(events@).take(i as int + 1) =~= event_models(events@).take(
                i as int,
            ).push(events@[i as int]@));
        }
        i = i + 1;
    }
    assert(event_models(events@).take(events@.len() as int) =~= event_models(events@));
    out
}

/// What a single event asks of the synthesizer (see [`event_command`]).
fn apply_event(e: &MidiEvent, muted: u64) -> (r: Option<SynthCommand>)
    requires
        playable(e@),
    ensures
        r matches Some(c) ==> event_command(e@, muted) == Some(c@),
        r is None ==> event_command(e@, muted) is None,
{
    match e {
        MidiEvent::NoteOn { port, channel, key, vel } => {
            let flat = (*port as u64) * 16 + *channel as u64;
            if muted & (1u64 << flat) == 0 {
                Some(
                    SynthCommand::NoteOn {
                        port: *port,
                        channel: *channel as i32,
                        key: *key as i32,
                        velocity: *vel as i32,
                    },
                )
            } else {
                None
            }
        },
        MidiEvent::NoteOff { port, channel, key } => Some(
            SynthCommand::NoteOff { port: *port, channel: *channel as i32, key: *key as i32 },
        ),
        MidiEvent::ProgramChange { port, channel, program } => Some(
            SynthCommand::ProgramChange {
                port: *port,
                channel: *channel as i32,
                program: *program as i32,
            },
        ),
        MidiEvent::ControlChange { port, channel, controller, value } => Some(
            SynthCommand::ControlChange {
                port: *port,
                channel: *channel as i32,
                controller: *controller as i32,
                value: *value as i32,
            },
        ),
        MidiEvent::PitchBend { port, channel, value } => Some(
            SynthCommand::PitchBend { port: *port, channel: *channel as i32, value: *value },
        ),
        MidiEvent::PolyAftertouch { port, channel, key, pressure } => Some(
            SynthCommand::PolyAftertouch {
                port: *port,
                channel: *channel as i32,
                key: *key as i32,
                pressure: *pressure as i32,
            },
        ),
        MidiEvent::ChannelAftertouch { port, channel, pressure } => Some(
            SynthCommand::ChannelAftertouch {
                port: *port,
                channel: *channel as i32,
                pressure: *pressure as i32,
            },
        ),
        MidiEvent::SysEx(data) => {
            let copy = data.clone();
            assert(copy@ =~= data@);
            Some(SynthCommand::SysEx(copy))
        },
        MidiEvent::TempoChange(_) => None,
        MidiEvent::TimeSignature { .. } => None,
    }
}

/// The mute-mask commands for ports below `ports`.
fn mute_commands(muted: u64, ports: u8) -> (r: Vec<SynthCommand>)
    requires
        ports <= 4,
    ensures
        command_models(r@) == mute_commands_for(muted, ports as int),
{
    let mut out: Vec<SynthCommand> = Vec::new();
    let mut p: u64 = 0;
    while p < ports as u64
        invariant
            p <= ports <= 4,
            command_models(out@) == mute_commands_for(muted, p as int),
        decreases ports - p,
    {
        let mask = ((muted >> (p * 16)) & 0xFFFF) as u16;
        let ghost before = out@;
        out.push(SynthCommand::MuteMask { port: p as u8, mask });
        p = p + 1;
        proof {
            assert(command_models(out@) =~= command_models(before).push(
                CommandModel::MuteMask { port: (p - 1) as u8, mask },
            ));
        }
    }
    out
}

impl Sequencer {
    #[verifier::type_invariant]
    spec fn inv(self) -> bool {
        &&& self.event_index <= self.events@.len()
        &&& all_playable(event_models(self.events@))
    }

    /// Create a sequencer positioned at the start of `midi_data`.
    pub fn new(midi_data: &MidiData) -> (r: Self)
        requires
            all_playable(event_models(midi_data.events@)),
        ensures
            r@.events == event_models(midi_data.events@),
            r@.ticks_per_quarter == midi_data.ticks_per_quarter,
            r@.total_ticks == midi_data.total_ticks,
            r@.port_count == midi_data.port_count,
            r@.event_index == 0,
            r@.current_tick == 0,
            r@.us_per_quarter == DEFAULT_US_PER_QUARTER,
            r@.muted == 0,
    {
        Sequencer {
            events: copy_events(&midi_data.events),
            ticks_per_quarter: midi_data.ticks_per_quarter,
            total_ticks: midi_data.total_ticks,
            port_count: midi_data.port_count,
            event_index: 0,
            current_tick: 0,
            us_per_quarter: DEFAULT_US_PER_QUARTER,
            muted: 0,
        }
    }

    /// Create an empty sequencer (no events, used as placeholder).
    pub fn new_empty(ticks_per_quarter: u16) -> (r: Self)
        ensures
            r@.events == Seq::<TimedEventModel>::empty(),
            r@.ticks_per_quarter == ticks_per_quarter,
            r@.total_ticks == 0,
            r@.port_count == 1,
            r@.event_index == 0,
            r@.current_tick == 0,
            r@.us_per_quarter == DEFAULT_US_PER_QUARTER,
            r@.muted == 0,
    {
        let r = Sequencer {
            events: Vec::new(),
            ticks_per_quarter,
            total_ticks: 0,
            port_count: 1,
            event_index: 0,
            current_tick: 0,
            us_per_quarter: DEFAULT_US_PER_QUARTER,
            muted: 0,
        };
        assert(event_models(r.events@) =~= Seq::<TimedEventModel>::empty());
        r
    }

    /// Set muted flat channels (bit N = port * 16 + channel). Takes effect on
    /// the next dispatch or seek.
    pub fn set_muted_channels(&mut self, mask: u64)
        ensures
            final(self)@ == (SequencerModel { muted: mask, ..old(self)@ }),
    {
        proof {
            use_type_invariant(&*self);
        }
        self.muted = mask;
    }

    /// Current tick position.
    pub fn current_tick(&self) -> (r: u64)
        ensures
            r == self@.current_tick,
    {
        self.current_tick
    }

    /// Length of the file in ticks.
    pub fn total_ticks(&self) -> (r: u64)
        ensures
            r == self@.total_ticks,
    {
        self.total_ticks
    }

    /// Number of MIDI ports used by the file.
    pub fn port_count(&self) -> (r: u8)
        ensures
            r == self@.port_count,
    {
        self.port_count
    }

    /// Ticks per quarter note from the file header.
    pub fn ticks_per_quarter(&self) -> (r: u16)
        ensures
            r == self@.ticks_per_quarter,
    {
        self.ticks_per_quarter
    }

    /// Tempo at the current position, in microseconds per quarter note.
    pub fn us_per_quarter(&self) -> (r: u32)
        ensures
            r == self@.us_per_quarter,
    {
        self.us_per_quarter
    }

    /// Whether all events have been dispatched and the end tick reached.
    pub fn is_finished(&self) -> (r: bool)
        ensures
            r == (self@.event_index >= self@.events.len() && self@.current_tick >= self@.total_ticks),
    {
        self.event_index >= self.events.len() && self.current_tick >= self.total_ticks
    }

    /// The mute masks of the ports below `synth_ports` (the synthesizer
    /// pool's port count, at most 4), to be applied before rendering.
    pub fn mute_mask_commands(&self, synth_ports: u8) -> (r: Vec<SynthCommand>)
        requires
            synth_ports <= 4,
        ensures
            command_models(r@) == mute_commands_for(self@.muted, synth_ports as int),
    {
        mute_commands(self.muted, synth_ports)
    }

    /// Advance to `new_tick`: dispatch, in order, every event from the
    /// current position up to the first one after `new_tick`, reporting each
    /// to `sink`, and return what they ask of the synthesizer.
    pub fn dispatch_until<S: EventSink>(&mut self, new_tick: u64, sink: &mut S) -> (r: Vec<
        SynthCommand,
    >)
        ensures
            final(self)@.events == old(self)@.events,
            final(self)@.event_index == due_end(old(self)@.events, old(self)@.event_index, new_tick),
            final(self)@.current_tick == new_tick,
            final(self)@.us_per_quarter == tempo_through(
                old(self)@.events,
                old(self)@.event_index,
                final(self)@.event_index,
                old(self)@.us_per_quarter,
            ),
            final(self)@.muted == old(self)@.muted,
            final(self)@.total_ticks == old(self)@.total_ticks,
            final(self)@.port_count == old(self)@.port_count,
            final(self)@.ticks_per_quarter == old(self)@.ticks_per_quarter,
            command_models(r@) == commands_for(
                old(self)@.events,
                old(self)@.event_index,
                final(self)@.event_index,
                old(self)@.muted,
                false,
            ),
            took_all(
                *old(sink),
                *final(sink),
                notices_for(old(self)@.events, old(self)@.event_index, final(self)@.event_index, false),
            ),
    {
        proof {
            use_type_invariant(&*self);
        }
        let ghost evs = event_models(self.events@);
        let ghost from = self.event_index as int;
        let ghost us0 = self.us_per_quarter;
        let ghost sink0 = *sink;
        proof {
            lemma_took_none(sink0);
            assert(notices_for(evs, from, from, false) =~= Seq::<SinkNotice>::empty());
        }
        let mut out: Vec<SynthCommand> = Vec::new();
        let mut idx = self.event_index;
        let mut us = self.us_per_quarter;
        while idx < self.events.len() && self.events[idx].tick <= new_tick
            invariant
                evs == event_models(self.events@),
                all_playable(evs),
                from <= idx <= self.events@.len(),
                due_end(evs, from, new_tick) == due_end(evs, idx as int, new_tick),
                us == tempo_through(evs, from, idx as int, us0),
                command_models(out@) == commands_for(evs, from, idx as int, self.muted, false),
                took_all(sink0, *sink, notices_for(evs, from, idx as int, false)),
            decreases self.events@.len() - idx,
        {
            let evt = &self.events[idx];
            proof {
                assert(evs[idx as int] == evt@);
                assert(playable(evs[idx as int].event));
            }
            let ghost before = out@;
            match apply_event(&evt.event, self.muted) {
                Some(c) => {
                    out.push(c);
                    proof {
                        assert(command_models(out@) =~= command_models(before).push(c@));
                    }
                },
                None => {},
            }
            if let MidiEvent::TempoChange(t) = &evt.event {
                us = *t;
            }
            let ghost mid = *sink;
            sink.on_event(evt);
            proof {
                lemma_took_one_more(
                    sink0,
                    mid,
                    *sink,
                    notices_for(evs, from, idx as int, false),
                    SinkNotice::Event(evt@),
                );
                assert(notices_for(evs, from, idx + 1, false) == notices_for(
                    evs,
                    from,
                    idx as int,
                    false,
                ).push(SinkNotice::Event(evt@)));
            }
            idx = idx + 1;
        }
        self.event_index = idx;
        self.us_per_quarter = us;
        self.current_tick = new_tick;
        out
    }

    /// Jump to `target_tick`, rebuilding synthesizer state by replaying every
    /// state-setting event up to it: a system reset, then the commands of
    /// every event up to the first one after `target_tick` except notes and
    /// key pressure, then the mute masks of the ports below `synth_ports`.
    /// Notes are not replayed, so the seek is silent. The sink is told of
    /// the reset, then of each replayed event.
    pub fn seek_to_tick<S: EventSink>(&mut self, target_tick: u64, synth_ports: u8, sink: &mut S) -> (r:
        Vec<SynthCommand>)
        requires
            synth_ports <= 4,
        ensures
            final(self)@.events == old(self)@.events,
            final(self)@.event_index == due_end(old(self)@.events, 0, target_tick),
            final(self)@.current_tick == target_tick,
            final(self)@.us_per_quarter == tempo_through(
                old(self)@.events,
                0,
                final(self)@.event_index,
                DEFAULT_US_PER_QUARTER,
            ),
            final(self)@.muted == old(self)@.muted,
            final(self)@.total_ticks == old(self)@.total_ticks,
            final(self)@.port_count == old(self)@.port_count,
            final(self)@.ticks_per_quarter == old(self)@.ticks_per_quarter,
            command_models(r@) == seq![CommandModel::SystemReset] + commands_for(
                old(self)@.events,
                0,
                final(self)@.event_index,
                old(self)@.muted,
                true,
            ) + mute_commands_for(old(self)@.muted, synth_ports as int),
            took_all(
                *old(sink),
                *final(sink),
                seq![SinkNotice::SeekReset] + notices_for(
                    old(self)@.events,
                    0,
                    final(self)@.event_index,
                    true,
                ),
            ),
    {
        proof {
            use_type_invariant(&*self);
        }
        let ghost evs = event_models(self.events@);
        let mut out: Vec<SynthCommand> = Vec::new();
        out.push(SynthCommand::SystemReset);
        let ghost sink0 = *sink;
        sink.on_seek_reset();
        proof {
            lemma_took_none(sink0);
            lemma_took_one_more(sink0, sink0, *sink, Seq::empty(), SinkNotice::SeekReset);
            assert(Seq::<SinkNotice>::empty().push(SinkNotice::SeekReset) =~= seq![
                SinkNotice::SeekReset,
            ] + notices_for(evs, 0, 0, true));
        }
        let mut replay: Vec<SynthCommand> = Vec::new();
        let mut idx: usize = 0;
        let mut us: u32 = DEFAULT_US_PER_QUARTER;
        while idx < self.events.len() && self.events[idx].tick <= target_tick
            invariant
                evs == event_models(self.events@),
                all_playable(evs),
                idx <= self.events@.len(),
                due_end(evs, 0, target_tick) == due_end(evs, idx as int, target_tick),
                us == tempo_through(evs, 0, idx as int, DEFAULT_US_PER_QUARTER),
                command_models(replay@) == commands_for(evs, 0, idx as int, self.muted, true),
                took_all(
                    sink0,
                    *sink,
                    seq![SinkNotice::SeekReset] + notices_for(evs, 0, idx as int, true),
                ),
            decreases self.events@.len() - idx,
        {
            let evt = &self.events[idx];
            proof {
                assert(evs[idx as int] == evt@);
                assert(playable(evs[idx as int].event));
            }
            let replayed = match &evt.event {
                MidiEvent::NoteOn { .. } => false,
                MidiEvent::NoteOff { .. } => false,
                MidiEvent::PolyAftertouch { .. } => false,
                _ => true,
            };
            if replayed {
                let ghost before = replay@;
                match apply_event(&evt.event, self.muted) {
                    Some(c) => {
                        replay.push(c);
                        proof {
                            assert(command_models(replay@) =~= command_models(before).push(c@));
                        }
                    },
                    None => {},
                }
                if let MidiEvent::TempoChange(t) = &evt.event {
                    us = *t;
                }
                let ghost mid = *sink;
                sink.on_event(evt);
                proof {
                    let ghost ns = seq![SinkNotice::SeekReset] + notices_for(evs, 0, idx as int, true);
                    lemma_took_one_more(sink0, mid, *sink, ns, SinkNotice::Event(evt@));
                    assert(seq![SinkNotice::SeekReset] + notices_for(evs, 0, idx + 1, true) =~= ns.push(
                        SinkNotice::Event(evt@),
                    ));
                }
            } else {
                proof {
                    assert(notices_for(evs, 0, idx + 1, true) == notices_for(evs, 0, idx as int, true));
                }
            }
            idx = idx + 1;
        }
        let mut masks = mute_commands(self.muted, synth_ports);
        let ghost o1 = out@;
        let ghost r1 = replay@;
        let ghost m1 = masks@;
        out.append(&mut replay);
        out.append(&mut masks);
        proof {
            assert(command_models(out@) =~= command_models(o1) + command_models(r1)
                + command_models(m1));
            assert(command_models(o1) =~= seq![CommandModel::SystemReset]);
        }
        self.event_index = idx;
        self.us_per_quarter = us;
        self.current_tick = target_tick;
        out
    }
}

/// Dispatching never moves backwards, and every event it dispatches is due:
/// the events between the old and new position all lie at or before the
/// target tick, and the event at the new position (if any) lies after it.
pub proof fn lemma_dispatch_takes_due_events(events: Seq<TimedEventModel>, from: int, tick: u64)
    requires
        0 <= from <= events.len(),
    ensures
        from <= due_end(events, from, tick) <= events.len(),
        forall|i: int| from <= i < due_end(events, from, tick) ==> #[trigger] events[i].tick <= tick,
        due_end(events, from, tick) < events.len() ==> events[due_end(events, from, tick)].tick
            > tick,
    decreases events.len() - from,
{
    if from < events.len() && events[from].tick <= tick {
        lemma_dispatch_takes_due_events(events, from + 1, tick);
    }
}

/// A seek is silent: the replayed commands never start or stop a note or
/// change key pressure.
pub proof fn lemma_seek_is_silent(events: Seq<TimedEventModel>, to: int, muted: u64)
    ensures
        forall|i: int|
            0 <= i < commands_for(events, 0, to, muted, true).len() ==> !(#[trigger] commands_for(
                events,
                0,
                to,
                muted,
                true,
            )[i] is NoteOn || commands_for(events, 0, to, muted, true)[i] is NoteOff
                || commands_for(events, 0, to, muted, true)[i] is PolyAftertouch),
    decreases to,
{
    if to > 0 {
        lemma_seek_is_silent(events, to - 1, muted);
    }
}

/// Whether a command starts or stops a note or changes key pressure.
pub open spec fn is_note_command(c: CommandModel) -> bool {
    c is NoteOn || c is NoteOff || c is PolyAftertouch
}

/// The commands of `s` that set state, in order: all but the note ones.
pub open spec fn without_notes(s: Seq<CommandModel>) -> Seq<CommandModel>
    decreases s.len(),
{
    if s.len() == 0 {
        Seq::empty()
    } else {
        let prev = without_notes(s.drop_last());
        if is_note_command(s.last()) {
            prev
        } else {
            prev.push(s.last())
        }
    }
}

/// A seek reconstructs the state that playback builds: the commands it
/// replays for the events up to the target are exactly the commands playing
/// those events would send, less those that start or stop notes or change
/// key pressure, in the same order.
pub proof fn lemma_seek_replays_playback_state(
    events: Seq<TimedEventModel>,
    from: int,
    to: int,
    muted: u64,
)
    requires
        from <= to,
    ensures
        commands_for(events, from, to, muted, true) == without_notes(
            commands_for(events, from, to, muted, false),
        ),
    decreases to - from,
{
    if to > from {
        lemma_seek_replays_playback_state(events, from, to - 1, muted);
        let full_prev = commands_for(events, from, to - 1, muted, false);
        let e = events[to - 1].event;
        match event_command(e, muted) {
            Some(c) => {
                let full = full_prev.push(c);
                assert(full.drop_last() =~= full_prev);
                assert(full.last() == c);
                assert(is_note_command(c) == !is_replayed(e));
            },
            None => {},
        }
    }
}

/// A muted channel is never asked to start a note.
pub proof fn lemma_muted_channels_stay_silent(
    events: Seq<TimedEventModel>,
    from: int,
    to: int,
    muted: u64,
)
    ensures
        forall|i: int|
            0 <= i < commands_for(events, from, to, muted, false).len() ==> (#[trigger] commands_for(
                events,
                from,
                to,
                muted,
                false,
            )[i] matches CommandModel::NoteOn { port, channel, .. } ==> !is_muted(
                muted,
                port,
                channel as u8,
            )),
    decreases to - from,
{
    if to > from {
        lemma_muted_channels_stay_silent(events, from, to - 1, muted);
        let e = events[to - 1].event;
        if let EventModel::NoteOn { port, channel, .. } = e {
            assert((channel as i32) as u8 == channel);
        }
    }
}

/// Each channel event asks the synthesizer for the same thing on the same
/// port and channel, with its own data: a note keeps its key and velocity
/// (a note-on on a muted channel asks nothing), a program change its
/// program, a controller change its controller number and value, a pitch
/// bend its value, key and channel pressure their key and pressure; a SysEx
/// passes its payload on; tempo and time signature ask nothing.
pub proof fn lemma_commands_carry_event_data(e: EventModel, muted: u64)
    ensures
        e matches EventModel::NoteOn { port, channel, key, vel } ==> if is_muted(muted, port, channel) {
            event_command(e, muted) is None
        } else {
            event_command(e, muted) matches Some(
                CommandModel::NoteOn { port: p, channel: c, key: k, velocity: v },
            ) && p == port && c == channel && k == key && v == vel
        },
        e matches EventModel::NoteOff { port, channel, key } ==> event_command(e, muted) matches Some(
            CommandModel::NoteOff { port: p, channel: c, key: k },
        ) && p == port && c == channel && k == key,
        e matches EventModel::ProgramChange { port, channel, program } ==> event_command(
            e,
            muted,
        ) matches Some(CommandModel::ProgramChange { port: p, channel: c, program: g }) && p == port
            && c == channel && g == program,
        e matches EventModel::ControlChange { port, channel, controller, value } ==> event_command(
            e,
            muted,
        ) matches Some(CommandModel::ControlChange { port: p, channel: c, controller: k, value: v })
            && p == port && c == channel && k == controller && v == value,
        e matches EventModel::PitchBend { port, channel, value } ==> event_command(e, muted) matches Some(
            CommandModel::PitchBend { port: p, channel: c, value: v },
        ) && p == port && c == channel && v == value,
        e matches EventModel::PolyAftertouch { port, channel, key, pressure } ==> event_command(
            e,
            muted,
        ) matches Some(CommandModel::PolyAftertouch { port: p, channel: c, key: k, pressure: v })
            && p == port && c == channel && k == key && v == pressure,
        e matches EventModel::ChannelAftertouch { port, channel, pressure } ==> event_command(
            e,
            muted,
        ) matches Some(CommandModel::ChannelAftertouch { port: p, channel: c, pressure: v }) && p
            == port && c == channel && v == pressure,
        e matches EventModel::SysEx(d) ==> event_command(e, muted) == Some(CommandModel::SysEx(d)),
        e is TempoChange || e is TimeSignature ==> event_command(e, muted) is None,
{
}

/// Dispatching in two steps asks the same as dispatching at once: the
/// commands for `[from, to)` are those for `[from, mid)` followed by those
/// for `[mid, to)`; and a single event asks exactly its own command.
pub proof fn lemma_dispatch_in_steps(
    events: Seq<TimedEventModel>,
    from: int,
    mid: int,
    to: int,
    muted: u64,
)
    requires
        from <= mid <= to,
    ensures
        commands_for(events, from, to, muted, false) == commands_for(events, from, mid, muted, false)
            + commands_for(events, mid, to, muted, false),
        mid < to ==> commands_for(events, mid, mid + 1, muted, false) == match event_command(
            events[mid].event,
            muted,
        ) {
            Some(c) => seq![c],
            None => Seq::<CommandModel>::empty(),
        },
    decreases to - mid,
{
    if mid < to {
        assert(commands_for(events, mid, mid, muted, false) =~= Seq::<CommandModel>::empty());
        lemma_dispatch_in_steps(events, from, mid, to - 1, muted);
        let e = events[to - 1].event;
        match event_command(e, muted) {
            Some(c) => {
                assert(commands_for(events, from, to, muted, false) =~= commands_for(
                    events,
                    from,
                    mid,
                    muted,
                    false,
                ) + commands_for(events, mid, to, muted, false));
            },
            None => {},
        }
        assert(commands_for(events, mid, mid + 1, muted, false) =~= match event_command(
            events[mid].event,
            muted,
        ) {
            Some(c) => seq![c],
            None => Seq::<CommandModel>::empty(),
        });
    } else {
        assert(commands_for(events, mid, to, muted, false) =~= Seq::<CommandModel>::empty());
        assert(commands_for(events, from, to, muted, false) =~= commands_for(
            events,
            from,
            mid,
            muted,
            false,
        ) + Seq::<CommandModel>::empty());
    }
}

/// The tempo after a stretch of events is that of its last tempo change,
/// or the tempo before the stretch when it holds none.
pub proof fn lemma_tempo_is_last_change(events: Seq<TimedEventModel>, from: int, to: int, us: u32, i: int)
    ensures
        (forall|j: int| from <= j < to ==> !((#[trigger] events[j]).event is TempoChange))
            ==> tempo_through(events, from, to, us) == us,
        from <= i < to && events[i].event is TempoChange && (forall|j: int|
            i < j < to ==> !((#[trigger] events[j]).event is TempoChange)) ==> tempo_through(
            events,
            from,
            to,
            us,
        ) == events[i].event->TempoChange_0,
    decreases to - from,
{
    if to > from {
        lemma_tempo_is_last_change(events, from, to - 1, us, i);
        if i == to - 1 {
        }
    }
}

} // verus!
