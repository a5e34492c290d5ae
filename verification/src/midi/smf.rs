//! Standard MIDI File contents as plain values, read from the bytes by the
//! `midly` decoder.

use vstd::prelude::*;
use midly::MetaMessage as Mm;
use midly::MidiMessage as M;

verus! {

/// A channel voice message, as stored in a track.
#[derive(Debug, Clone, Copy, PartialEq, Eq)]
pub enum ChannelMessage {
    NoteOff { key: u8, vel: u8 },
    NoteOn { key: u8, vel: u8 },
    /// Polyphonic key pressure.
    Aftertouch { key: u8, vel: u8 },
    Controller { controller: u8, value: u8 },
    ProgramChange { program: u8 },
    ChannelAftertouch { vel: u8 },
    /// Pitch bend, centred on 0 (`-8192..=8191`).
    PitchBend { bend: i16 },
}

/// The meta events the player reads; every other meta event is `Other`.
#[derive(Debug, PartialEq, Eq)]
pub enum MetaEvent {
    /// Raw bytes of the track name (no encoding is implied).
    TrackName(Vec<u8>),
    /// Microseconds per quarter note.
    Tempo(u32),
    /// Numerator, denominator exponent, MIDI clocks per click, 32nd notes per quarter.
    TimeSignature(u8, u8, u8, u8),
    /// Port number (FF 21).
    MidiPort(u8),
    Other,
}

/// What a track event carries.
#[derive(Debug, PartialEq, Eq)]
pub enum SmfEventKind {
    Midi { channel: u8, message: ChannelMessage },
    /// SysEx payload without the leading `F0`.
    SysEx(Vec<u8>),
    /// An escape sequence (`F7` event); its payload is not kept.
    Escape,
    Meta(MetaEvent),
}

/// One event of a track: the ticks since the previous event and its payload.
#[derive(Debug, PartialEq, Eq)]
pub struct SmfEvent {
    pub delta: u32,
    pub kind: SmfEventKind,
}

/// A decoded Standard MIDI File.
#[derive(Debug, PartialEq, Eq)]
pub struct SmfFile {
    /// SMF format (0, 1 or 2).
    pub format: u8,
    /// Ticks per quarter note for metrical timing; `None` for SMPTE timecode.
    pub ticks_per_quarter: Option<u16>,
    pub tracks: Vec<Vec<SmfEvent>>,
}

/// Model of a [`MetaEvent`].
pub enum MetaModel {
    TrackName(Seq<u8>),
    Tempo(u32),
    TimeSignature(u8, u8, u8, u8),
    MidiPort(u8),
    Other,
}

/// Model of an [`SmfEventKind`].
pub enum KindModel {
    Midi { channel: u8, message: ChannelMessage },
    SysEx(Seq<u8>),
    Escape,
    Meta(MetaModel),
}

/// Model of an [`SmfEvent`].
pub struct SmfEventModel {
    pub delta: u32,
    pub kind: KindModel,
}

/// Model of an [`SmfFile`].
pub struct SmfModel {
    pub format: u8,
    pub ticks_per_quarter: Option<u16>,
    pub tracks: Seq<Seq<SmfEventModel>>,
}

impl View for MetaEvent {
    type V = MetaModel;

    open spec fn view(&self) -> MetaModel {
        match self {
            MetaEvent::TrackName(b) => MetaModel::TrackName(b@),
            MetaEvent::Tempo(t) => MetaModel::Tempo(*t),
            MetaEvent::TimeSignature(a, b, c, d) => MetaModel::TimeSignature(*a, *b, *c, *d),
            MetaEvent::MidiPort(p) => MetaModel::MidiPort(*p),
            MetaEvent::Other => MetaModel::Other,
        }
    }
}

impl View for SmfEventKind {
    type V = KindModel;

    open spec fn view(&self) -> KindModel {
        match self {
            SmfEventKind::Midi { channel, message } => KindModel::Midi {
                channel: *channel,
                message: *message,
            },
            SmfEventKind::SysEx(d) => KindModel::SysEx(d@),
            SmfEventKind::Escape => KindModel::Escape,
            SmfEventKind::Meta(m) => KindModel::Meta(m@),
        }
    }
}

impl View for SmfEvent {
    type V = SmfEventModel;

    open spec fn view(&self) -> SmfEventModel {
        SmfEventModel { delta: self.delta, kind: self.kind@ }
    }
}

/// Models of the events of a track.
pub open spec fn track_model(t: Seq<SmfEvent>) -> Seq<SmfEventModel> {
    t.map_values(|e: SmfEvent| e@)
}

impl View for SmfFile {
    type V = SmfModel;

    open spec fn view(&self) -> SmfModel {
        SmfModel {
            format: self.format,
            ticks_per_quarter: self.ticks_per_quarter,
            tracks: self.tracks@.map_values(|t: Vec<SmfEvent>| track_model(t@)),
        }
    }
}

/// Value ranges of a channel message: 7-bit data, 14-bit pitch bend.
pub open spec fn message_ok(m: ChannelMessage) -> bool {
    match m {
        ChannelMessage::NoteOff { key, vel } => key < 128 && vel < 128,
        ChannelMessage::NoteOn { key, vel } => key < 128 && vel < 128,
        ChannelMessage::Aftertouch { key, vel } => key < 128 && vel < 128,
        ChannelMessage::Controller { controller, value } => controller < 128 && value < 128,
        ChannelMessage::ProgramChange { program } => program < 128,
        ChannelMessage::ChannelAftertouch { vel } => vel < 128,
        ChannelMessage::PitchBend { bend } => -8192 <= bend < 8192,
    }
}

/// Value ranges of an event as a file can encode it.
pub open spec fn event_ok(e: SmfEventModel) -> bool {
    &&& e.delta < 0x1000_0000
    &&& match e.kind {
        KindModel::Midi { channel, message } => channel < 16 && message_ok(message),
        KindModel::Meta(MetaModel::Tempo(t)) => t < 0x100_0000,
        KindModel::Meta(MetaModel::MidiPort(p)) => p < 128,
        _ => true,
    }
}

/// Value ranges of a whole file.
pub open spec fn smf_ok(m: SmfModel) -> bool {
    &&& m.format <= 2
    &&& (m.ticks_per_quarter matches Some(t) ==> t < 0x8000)
    &&& forall|t: int, i: int|
        0 <= t < m.tracks.len() && 0 <= i < m.tracks[t].len() ==> event_ok(#[trigger] m.tracks[t][i])
}

/// Channel of a channel-message event.
pub open spec fn channel_of(e: SmfEventModel) -> Option<u8> {
    match e.kind {
        KindModel::Midi { channel, .. } => Some(channel),
        _ => None,
    }
}

/// A note-type channel message (note off/on, key pressure, controller).
pub open spec fn note_message_of(e: SmfEventModel) -> Option<ChannelMessage> {
    match e.kind {
        KindModel::Midi { message, .. } => match message {
            ChannelMessage::NoteOff { .. } => Some(message),
            ChannelMessage::NoteOn { .. } => Some(message),
            ChannelMessage::Aftertouch { .. } => Some(message),
            ChannelMessage::Controller { .. } => Some(message),
            _ => None,
        },
        _ => None,
    }
}

/// A channel-wide message (program change, channel pressure, pitch bend).
pub open spec fn channel_wide_message_of(e: SmfEventModel) -> Option<ChannelMessage> {
    match e.kind {
        KindModel::Midi { message, .. } => match message {
            ChannelMessage::ProgramChange { .. } => Some(message),
            ChannelMessage::ChannelAftertouch { .. } => Some(message),
            ChannelMessage::PitchBend { .. } => Some(message),
            _ => None,
        },
        _ => None,
    }
}

/// The meta payload of a meta event.
pub open spec fn meta_of(e: SmfEventModel) -> Option<MetaModel> {
    match e.kind {
        KindModel::Meta(m) => Some(m),
        _ => None,
    }
}

/// The payload of a SysEx event.
pub open spec fn sysex_of(e: SmfEventModel) -> Option<Seq<u8>> {
    match e.kind {
        KindModel::SysEx(d) => Some(d),
        _ => None,
    }
}

/// Why a file could not be read.
#[derive(Debug, Clone, Copy, PartialEq, Eq)]
pub enum ParseError {
    /// The bytes are not a Standard MIDI File the decoder accepts.
    Malformed,
    /// The file uses SMPTE timecode rather than ticks per quarter note.
    TimecodeUnsupported,
    /// A track is too long to count its events or ticks in fixed-width integers.
    TooLong,
}

// ---------------------------------------------------------------------------
// The midly decoder
// ---------------------------------------------------------------------------

/// A file decoded by midly.
#[verifier::external_type_specification]
#[verifier::external_body]
pub struct ExSmf<'a>(midly::Smf<'a>);

/// midly's decoding error.
#[verifier::external_type_specification]
#[verifier::external_body]
pub struct ExMidlyError(midly::Error);

/// What `midly::Smf::parse` makes of the bytes: `None` when it fails.
pub uninterp spec fn midly_parse(bytes: Seq<u8>) -> Option<SmfModel>;

/// The contents of a decoded file.
pub uninterp spec fn smf_contents(smf: midly::Smf) -> SmfModel;

/// `midly::Smf::parse`: fails exactly when [`midly_parse`] is `None`, and
/// otherwise yields a file whose contents are that value.
#[verifier::external_body]
fn smf_parse(bytes: &[u8]) -> (r: Result<midly::Smf<'_>, midly::Error>)
    ensures
        r is Ok <==> midly_parse(bytes@) is Some,
        r is Ok ==> smf_contents(r->Ok_0) == midly_parse(bytes@)->Some_0,
{
    midly::Smf::parse(bytes)
}

/// The header's format, as its number (`SingleTrack` 0, `Parallel` 1, `Sequential` 2).
#[verifier::external_body]
fn smf_format(smf: &midly::Smf) -> (r: u8)
    ensures
        r == smf_contents(*smf).format,
        r <= 2,
{
    match smf.header.format {
        midly::Format::SingleTrack => 0,
        midly::Format::Parallel => 1,
        midly::Format::Sequential => 2,
    }
}

/// The header's timing: ticks per quarter note (a 15-bit value) for
/// metrical timing, `None` for timecode.
#[verifier::external_body]
fn smf_timing(smf: &midly::Smf) -> (r: Option<u16>)
    ensures
        r == smf_contents(*smf).ticks_per_quarter,
        r matches Some(t) ==> t < 0x8000,
{
    match smf.header.timing {
        midly::Timing::Metrical(t) => Some(t.as_int()),
        midly::Timing::Timecode(_, _) => None,
    }
}

/// Number of tracks.
#[verifier::external_body]
fn smf_track_count(smf: &midly::Smf) -> (r: usize)
    ensures
        r == smf_contents(*smf).tracks.len(),
{
    smf.tracks.len()
}

/// Number of events in track `t`.
#[verifier::external_body]
fn smf_track_len(smf: &midly::Smf, t: usize) -> (r: usize)
    requires
        t < smf_contents(*smf).tracks.len(),
    ensures
        r == smf_contents(*smf).tracks[t as int].len(),
{
    smf.tracks[t].len()
}

/// Delta time (a 28-bit value) of event `i` of track `t`.
#[verifier::external_body]
fn smf_event_delta(smf: &midly::Smf, t: usize, i: usize) -> (r: u32)
    requires
        t < smf_contents(*smf).tracks.len(),
        i < smf_contents(*smf).tracks[t as int].len(),
    ensures
        r == smf_contents(*smf).tracks[t as int][i as int].delta,
        r < 0x1000_0000,
{
    smf.tracks[t][i].delta.as_int()
}

/// Channel (a 4-bit value) of event `i` of track `t` when it is a channel message.
#[verifier::external_body]
fn smf_event_channel(smf: &midly::Smf, t: usize, i: usize) -> (r: Option<u8>)
    requires
        t < smf_contents(*smf).tracks.len(),
        i < smf_contents(*smf).tracks[t as int].len(),
    ensures
        r == channel_of(smf_contents(*smf).tracks[t as int][i as int]),
        r matches Some(c) ==> c < 16,
{
    match smf.tracks[t][i].kind {
        midly::TrackEventKind::Midi { channel, .. } => Some(channel.as_int()),
        _ => None,
    }
}

/// Note off/on, key pressure or controller message of event `i` of track
/// `t`, with its 7-bit data.
#[verifier::external_body]
fn smf_note_message(smf: &midly::Smf, t: usize, i: usize) -> (r: Option<ChannelMessage>)
    requires
        t < smf_contents(*smf).tracks.len(),
        i < smf_contents(*smf).tracks[t as int].len(),
    ensures
        r == note_message_of(smf_contents(*smf).tracks[t as int][i as int]),
        r matches Some(m) ==> message_ok(m),
{
    let m = match smf.tracks[t][i].kind {
        midly::TrackEventKind::Midi { message, .. } => message,
        _ => return None,
    };
    match m {
        M::NoteOff { key, vel } => Some(ChannelMessage::NoteOff { key: key.as_int(), vel: vel.as_int() }),
        M::NoteOn { key, vel } => Some(ChannelMessage::NoteOn { key: key.as_int(), vel: vel.as_int() }),
        M::Aftertouch { key, vel } => Some(ChannelMessage::Aftertouch { key: key.as_int(), vel: vel.as_int() }),
        M::Controller { controller: c, value: v } => Some(ChannelMessage::Controller { controller: c.as_int(), value: v.as_int() }),
        _ => None,
    }
}

/// Program change, channel pressure or pitch bend message of event `i` of
/// track `t`; the bend is centred on 0 (`midly::PitchBend::as_int`).
#[verifier::external_body]
fn smf_channel_wide_message(smf: &midly::Smf, t: usize, i: usize) -> (r: Option<ChannelMessage>)
    requires
        t < smf_contents(*smf).tracks.len(),
        i < smf_contents(*smf).tracks[t as int].len(),
    ensures
        r == channel_wide_message_of(smf_contents(*smf).tracks[t as int][i as int]),
        r matches Some(m) ==> message_ok(m),
{
    let m = match smf.tracks[t][i].kind {
        midly::TrackEventKind::Midi { message, .. } => message,
        _ => return None,
    };
    match m {
        M::ProgramChange { program } => Some(ChannelMessage::ProgramChange { program: program.as_int() }),
        M::ChannelAftertouch { vel } => Some(ChannelMessage::ChannelAftertouch { vel: vel.as_int() }),
        M::PitchBend { bend } => Some(ChannelMessage::PitchBend { bend: bend.as_int() }),
        _ => None,
    }
}

/// Meta payload of event `i` of track `t`: track name bytes, tempo (24-bit),
/// time signature, port (7-bit), or `Other` for the remaining meta events.
#[verifier::external_body]
fn smf_meta(smf: &midly::Smf, t: usize, i: usize) -> (r: Option<MetaEvent>)
    requires
        t < smf_contents(*smf).tracks.len(),
        i < smf_contents(*smf).tracks[t as int].len(),
    ensures
        r matches Some(m) ==> meta_of(smf_contents(*smf).tracks[t as int][i as int]) == Some(m@),
        r is None ==> meta_of(smf_contents(*smf).tracks[t as int][i as int]) is None,
        r matches Some(MetaEvent::Tempo(v)) ==> v < 0x100_0000,
        r matches Some(MetaEvent::MidiPort(p)) ==> p < 128,
{
    let m = match smf.tracks[t][i].kind {
        midly::TrackEventKind::Meta(m) => m,
        _ => return None,
    };
    Some(match m {
        Mm::TrackName(b) => MetaEvent::TrackName(b.to_vec()),
        Mm::Tempo(v) => MetaEvent::Tempo(v.as_int()),
        Mm::TimeSignature(a, b, c, d) => MetaEvent::TimeSignature(a, b, c, d),
        Mm::MidiPort(p) => MetaEvent::MidiPort(p.as_int()),
        _ => MetaEvent::Other,
    })
}

/// SysEx payload (without the `F0`) of event `i` of track `t`.
#[verifier::external_body]
fn smf_sysex(smf: &midly::Smf, t: usize, i: usize) -> (r: Option<Vec<u8>>)
    requires
        t < smf_contents(*smf).tracks.len(),
        i < smf_contents(*smf).tracks[t as int].len(),
    ensures
        r matches Some(d) ==> sysex_of(smf_contents(*smf).tracks[t as int][i as int]) == Some(d@),
        r is None ==> sysex_of(smf_contents(*smf).tracks[t as int][i as int]) is None,
{
    match smf.tracks[t][i].kind {
        midly::TrackEventKind::SysEx(d) => Some(d.to_vec()),
        _ => None,
    }
}

/// Reads event `i` of track `t`.
fn read_event(smf: &midly::Smf, t: usize, i: usize) -> (r: SmfEvent)
    requires
        t < smf_contents(*smf).tracks.len(),
        i < smf_contents(*smf).tracks[t as int].len(),
    ensures
        r@ == smf_contents(*smf).tracks[t as int][i as int],
        event_ok(r@),
{
    let ghost e = smf_contents(*smf).tracks[t as int][i as int];
    let delta = smf_event_delta(smf, t, i);
    let kind = if let Some(channel) = smf_event_channel(smf, t, i) {
        let message = match smf_note_message(smf, t, i) {
            Some(m) => m,
            None => {
                let w = smf_channel_wide_message(smf, t, i);
                proof {
                    assert(w is Some) by {
                        match e.kind {
                            KindModel::Midi { message, .. } => {
                                match message {
                                    ChannelMessage::ProgramChange { .. } => {},
                                    ChannelMessage::ChannelAftertouch { .. } => {},
                                    ChannelMessage::PitchBend { .. } => {},
                                    _ => {},
                                }
                            },
                            _ => {},
                        }
                    }
                }
                w.unwrap()
            },
        };
        SmfEventKind::Midi { channel, message }
    } else if let Some(m) = smf_meta(smf, t, i) {
        SmfEventKind::Meta(m)
    } else if let Some(d) = smf_sysex(smf, t, i) {
        SmfEventKind::SysEx(d)
    } else {
        SmfEventKind::Escape
    };
    SmfEvent { delta, kind }
}

/// Decodes a Standard MIDI File. Fails with `Malformed` exactly when the
/// decoder rejects the bytes; otherwise the result holds what it decoded.
pub fn decode_smf(bytes: &[u8]) -> (r: Result<SmfFile, ParseError>)
    ensures
        midly_parse(bytes@) is None ==> r == Err::<SmfFile, ParseError>(ParseError::Malformed),
        midly_parse(bytes@) is Some ==> r is Ok && r->Ok_0@ == midly_parse(bytes@)->Some_0,
        r is Ok ==> smf_ok(r->Ok_0@),
{
    let smf = match smf_parse(bytes) {
        Ok(smf) => smf,
        Err(_) => return Err(ParseError::Malformed),
    };
    let ghost m = smf_contents(smf);
    let format = smf_format(&smf);
    let ticks_per_quarter = smf_timing(&smf);
    let n = smf_track_count(&smf);
    let mut tracks: Vec<Vec<SmfEvent>> = Vec::new();
    let mut t: usize = 0;
    while t < n
        invariant
            m == smf_contents(smf),
            n == m.tracks.len(),
            t <= n,
            tracks@.len() == t,
            forall|q: int| 0 <= q < t ==> track_model(#[trigger] tracks@[q]@) == m.tracks[q],
            forall|q: int, i: int|
                0 <= q < t && 0 <= i < m.tracks[q].len() ==> event_ok(#[trigger] m.tracks[q][i]),
        decreases n - t,
    {
        let len = smf_track_len(&smf, t);
        let mut events: Vec<SmfEvent> = Vec::new();
        let mut i: usize = 0;
        while i < len
            invariant
                m == smf_contents(smf),
                t < m.tracks.len(),
                len == m.tracks[t as int].len(),
                i <= len,
                track_model(events@) == m.tracks[t as int].take(i as int),
                forall|k: int| 0 <= k < i ==> event_ok(#[trigger] m.tracks[t as int][k]),
            decreases len - i,
        {
            let e = read_event(&smf, t, i);
            let ghost before = events@;
            events.push(e);
            proof {
                assert(track_model(events@) =~= track_model(before).push(e@));
                assert(m.tracks[t as int].take(i as int + 1) =~= m.tracks[t as int].take(
                    i as int,
                ).push(e@));
            }
            i = i + 1;
        }
        proof {
            assert(m.tracks[t as int].take(len as int) =~= m.tracks[t as int]);
        }
        tracks.push(events);
        t = t + 1;
    }
    let file = SmfFile { format, ticks_per_quarter, tracks };
    proof {
        assert(file@.tracks =~= m.tracks);
    }
    Ok(file)
}

} // verus!
