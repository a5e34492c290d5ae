//! Internal MIDI event types, independent of the file decoder.

use vstd::prelude::*;

verus! {

/// Number of MIDI ports a file may address.
pub const MAX_PORTS: u8 = 4;

/// Channels on one MIDI port.
pub const CHANNELS_PER_PORT: u8 = 16;

/// Flat channel count over all ports (`MAX_PORTS * CHANNELS_PER_PORT`).
pub const MAX_CHANNELS: usize = 64;

/// A MIDI event payload.
#[derive(Debug, PartialEq, Eq)]
#[allow(inconsistent_fields)]
pub enum MidiEvent {
    NoteOn { port: u8, channel: u8, key: u8, vel: u8 },
    NoteOff { port: u8, channel: u8, key: u8 },
    ProgramChange { port: u8, channel: u8, program: u8 },
    ControlChange { port: u8, channel: u8, controller: u8, value: u8 },
    PitchBend { port: u8, channel: u8, value: i16 },
    /// Polyphonic key pressure (aftertouch per note).
    PolyAftertouch { port: u8, channel: u8, key: u8, pressure: u8 },
    /// Channel pressure (aftertouch for the entire channel).
    ChannelAftertouch { port: u8, channel: u8, pressure: u8 },
    /// Raw SysEx payload (without the leading F0).
    SysEx(Vec<u8>),
    /// Tempo change in microseconds per quarter note.
    TempoChange(u32),
    /// Time signature: numerator, denominator (as power of 2).
    TimeSignature { numerator: u8, denominator: u8 },
}

/// Mathematical model of a [`MidiEvent`]: the same payload, with the SysEx
/// bytes as a sequence.
#[allow(inconsistent_fields)]
pub enum EventModel {
    NoteOn { port: u8, channel: u8, key: u8, vel: u8 },
    NoteOff { port: u8, channel: u8, key: u8 },
    ProgramChange { port: u8, channel: u8, program: u8 },
    ControlChange { port: u8, channel: u8, controller: u8, value: u8 },
    PitchBend { port: u8, channel: u8, value: i16 },
    PolyAftertouch { port: u8, channel: u8, key: u8, pressure: u8 },
    ChannelAftertouch { port: u8, channel: u8, pressure: u8 },
    SysEx(Seq<u8>),
    TempoChange(u32),
    TimeSignature { numerator: u8, denominator: u8 },
}

impl View for MidiEvent {
    type V = EventModel;

    open spec fn view(&self) -> EventModel {
        match self {
            MidiEvent::NoteOn { port, channel, key, vel } => EventModel::NoteOn {
                port: *port,
                channel: *channel,
                key: *key,
                vel: *vel,
            },
            MidiEvent::NoteOff { port, channel, key } => EventModel::NoteOff {
                port: *port,
                channel: *channel,
                key: *key,
            },
            MidiEvent::ProgramChange { port, channel, program } => EventModel::ProgramChange {
                port: *port,
                channel: *channel,
                program: *program,
            },
            MidiEvent::ControlChange { port, channel, controller, value } =>
                EventModel::ControlChange {
                port: *port,
                channel: *channel,
                controller: *controller,
                value: *value,
            },
            MidiEvent::PitchBend { port, channel, value } => EventModel::PitchBend {
                port: *port,
                channel: *channel,
                value: *value,
            },
            MidiEvent::PolyAftertouch { port, channel, key, pressure } =>
                EventModel::PolyAftertouch {
                port: *port,
                channel: *channel,
                key: *key,
                pressure: *pressure,
            },
            MidiEvent::ChannelAftertouch { port, channel, pressure } =>
                EventModel::ChannelAftertouch { port: *port, channel: *channel, pressure: *pressure },
            MidiEvent::SysEx(data) => EventModel::SysEx(data@),
            MidiEvent::TempoChange(t) => EventModel::TempoChange(*t),
            MidiEvent::TimeSignature { numerator, denominator } => EventModel::TimeSignature {
                numerator: *numerator,
                denominator: *denominator,
            },
        }
    }
}

impl Clone for MidiEvent {
    fn clone(&self) -> (r: Self)
        ensures
            r@ == self@,
    {
        match self {
            MidiEvent::SysEx(data) => {
                let copy = data.clone();
                assert(copy@ =~= data@);
                MidiEvent::SysEx(copy)
            },
            MidiEvent::NoteOn { port, channel, key, vel } => MidiEvent::NoteOn {
                port: *port,
                channel: *channel,
                key: *key,
                vel: *vel,
            },
            MidiEvent::NoteOff { port, channel, key } => MidiEvent::NoteOff {
                port: *port,
                channel: *channel,
                key: *key,
            },
            MidiEvent::ProgramChange { port, channel, program } => MidiEvent::ProgramChange {
                port: *port,
                channel: *channel,
                program: *program,
            },
            MidiEvent::ControlChange { port, channel, controller, value } =>
                MidiEvent::ControlChange {
                port: *port,
                channel: *channel,
                controller: *controller,
                value: *value,
            },
            MidiEvent::PitchBend { port, channel, value } => MidiEvent::PitchBend {
                port: *port,
                channel: *channel,
                value: *value,
            },
            MidiEvent::PolyAftertouch { port, channel, key, pressure } =>
                MidiEvent::PolyAftertouch {
                port: *port,
                channel: *channel,
                key: *key,
                pressure: *pressure,
            },
            MidiEvent::ChannelAftertouch { port, channel, pressure } =>
                MidiEvent::ChannelAftertouch { port: *port, channel: *channel, pressure: *pressure },
            MidiEvent::TempoChange(t) => MidiEvent::TempoChange(*t),
            MidiEvent::TimeSignature { numerator, denominator } => MidiEvent::TimeSignature {
                numerator: *numerator,
                denominator: *denominator,
            },
        }
    }
}

/// An event at an absolute tick, tagged with the track it came from.
#[derive(Debug, PartialEq, Eq)]
pub struct TimedMidiEvent {
    /// Absolute time in ticks from the start of the MIDI file.
    pub tick: u64,
    /// The MIDI event payload.
    pub event: MidiEvent,
    /// Index of the track the event came from (0-based).
    pub track: usize,
}

/// Mathematical model of a [`TimedMidiEvent`].
pub struct TimedEventModel {
    pub tick: u64,
    pub event: EventModel,
    pub track: usize,
}

impl View for TimedMidiEvent {
    type V = TimedEventModel;

    open spec fn view(&self) -> TimedEventModel {
        TimedEventModel { tick: self.tick, event: self.event@, track: self.track }
    }
}

impl Clone for TimedMidiEvent {
    fn clone(&self) -> (r: Self)
        ensures
            r@ == self@,
    {
        TimedMidiEvent { tick: self.tick, event: self.event.clone(), track: self.track }
    }
}

/// A note rectangle for piano roll visualization.
#[derive(Debug, Clone, Copy, PartialEq, Eq)]
pub struct NoteRect {
    /// MIDI key number (0-127).
    pub key: u8,
    /// MIDI channel (0-15).
    pub channel: u8,
    /// MIDI port (0-3).
    pub port: u8,
    /// Start tick.
    pub start_tick: u64,
    /// End tick (exclusive).
    pub end_tick: u64,
    /// Velocity (1-127).
    pub velocity: u8,
    /// Track index.
    pub track: usize,
}

/// Metadata about a single MIDI track.
#[derive(Debug, Clone)]
pub struct TrackInfo {
    pub index: usize,
    pub name: String,
    /// Primary channel used by this track (heuristic: most frequent channel).
    pub channel: Option<u8>,
    /// MIDI port assigned to this track (from FF 21 meta event).
    pub port: u8,
    /// Program number on the primary channel, if any.
    pub program: Option<u8>,
    /// Total number of note-on events in this track.
    pub note_count: u32,
    /// Note counts per channel (index = channel number 0..15).
    pub channel_note_counts: [u32; 16],
    /// Program number per channel (index = channel number 0..15).
    pub channel_programs: [Option<u8>; 16],
}

/// Model of a [`TrackInfo`].
pub struct TrackInfoModel {
    pub index: usize,
    pub name: Seq<char>,
    pub channel: Option<u8>,
    pub port: u8,
    pub program: Option<u8>,
    pub note_count: u32,
    pub channel_note_counts: Seq<u32>,
    pub channel_programs: Seq<Option<u8>>,
}

impl View for TrackInfo {
    type V = TrackInfoModel;

    open spec fn view(&self) -> TrackInfoModel {
        TrackInfoModel {
            index: self.index,
            name: self.name@,
            channel: self.channel,
            port: self.port,
            program: self.program,
            note_count: self.note_count,
            channel_note_counts: self.channel_note_counts@,
            channel_programs: self.channel_programs@,
        }
    }
}

/// Top-level parsed MIDI data.
#[derive(Debug, Clone)]
pub struct MidiData {
    /// Ticks per quarter note.
    pub ticks_per_quarter: u16,
    /// SMF format (0, 1, or 2).
    pub format: u8,
    /// All timed events, sorted by tick, ties in track and file order.
    pub events: Vec<TimedMidiEvent>,
    /// Note rectangles for piano roll, sorted by start tick.
    pub note_rects: Vec<NoteRect>,
    /// Per-track metadata.
    pub tracks: Vec<TrackInfo>,
    /// Total duration in ticks.
    pub total_ticks: u64,
    /// Bitfield of channels that have at least one NoteOn event (port*16+ch).
    pub used_channels: u64,
    /// Number of MIDI ports used (1-4).
    pub port_count: u8,
}

} // verus!
