//! Playback and per-channel display state. The host keeps one value behind a
//! lock shared by its audio and interface threads.

use vstd::prelude::*;
use crate::midi::event::{TrackInfo, TrackInfoModel};

verus! {

/// Per-channel MIDI state for the extended track display, indexed by flat
/// channel (`port * 16 + channel`).
#[derive(Debug, Clone, Copy, PartialEq, Eq)]
pub struct ChannelStates {
    /// Current program number (0-127).
    pub program: [u32; 64],
    /// CC7 Volume (0-127).
    pub volume: [u32; 64],
    /// CC11 Expression (0-127).
    pub expression: [u32; 64],
    /// CC10 Pan (0-127, 64=center).
    pub pan: [u32; 64],
    /// CC1 Modulation (0-127).
    pub modulation: [u32; 64],
    /// Pitch bend as stored from the signed bend (two's complement in 32 bits).
    pub pitch_bend: [u32; 64],
    /// CC64 Sustain pedal (0=off, 127=on).
    pub pedal: [u32; 64],
    /// Channel aftertouch / pressure (0-127).
    pub aftertouch: [u32; 64],
    /// Last note-on velocity (0-127), for activity display.
    pub velocity: [u32; 64],
    /// CC0 Bank Select MSB (0-127).
    pub bank: [u32; 64],
    /// CC91 Reverb Send (0-127).
    pub reverb: [u32; 64],
    /// CC93 Chorus Send (0-127).
    pub chorus: [u32; 64],
}

/// Model of [`ChannelStates`]: one sequence per field.
pub struct ChannelModel {
    pub program: Seq<u32>,
    pub volume: Seq<u32>,
    pub expression: Seq<u32>,
    pub pan: Seq<u32>,
    pub modulation: Seq<u32>,
    pub pitch_bend: Seq<u32>,
    pub pedal: Seq<u32>,
    pub aftertouch: Seq<u32>,
    pub velocity: Seq<u32>,
    pub bank: Seq<u32>,
    pub reverb: Seq<u32>,
    pub chorus: Seq<u32>,
}

impl View for ChannelStates {
    type V = ChannelModel;

    open spec fn view(&self) -> ChannelModel {
        ChannelModel {
            program: self.program@,
            volume: self.volume@,
            expression: self.expression@,
            pan: self.pan@,
            modulation: self.modulation@,
            pitch_bend: self.pitch_bend@,
            pedal: self.pedal@,
            aftertouch: self.aftertouch@,
            velocity: self.velocity@,
            bank: self.bank@,
            reverb: self.reverb@,
            chorus: self.chorus@,
        }
    }
}

/// A list of 64 equal values.
pub open spec fn all64(v: u32) -> Seq<u32> {
    Seq::new(64, |i: int| v)
}

/// Every channel at its default: volume 100, expression 127, pan 64 (centre),
/// reverb 40, everything else 0.
pub open spec fn channel_defaults(c: ChannelStates) -> bool {
    &&& c.program@ == all64(0)
    &&& c.volume@ == all64(100)
    &&& c.expression@ == all64(127)
    &&& c.pan@ == all64(64)
    &&& c.modulation@ == all64(0)
    &&& c.pitch_bend@ == all64(0)
    &&& c.pedal@ == all64(0)
    &&& c.aftertouch@ == all64(0)
    &&& c.velocity@ == all64(0)
    &&& c.bank@ == all64(0)
    &&& c.reverb@ == all64(40)
    &&& c.chorus@ == all64(0)
}

impl ChannelStates {
    pub fn new() -> (r: Self)
        ensures
            channel_defaults(r),
    {
        let r = ChannelStates {
            program: [0; 64],
            volume: [100; 64],
            expression: [127; 64],
            pan: [64; 64],
            modulation: [0; 64],
            pitch_bend: [0; 64],
            pedal: [0; 64],
            aftertouch: [0; 64],
            velocity: [0; 64],
            bank: [0; 64],
            reverb: [40; 64],
            chorus: [0; 64],
        };
        assert(r.program@ =~= all64(0));
        assert(r.volume@ =~= all64(100));
        assert(r.expression@ =~= all64(127));
        assert(r.pan@ =~= all64(64));
        assert(r.modulation@ =~= all64(0));
        assert(r.pitch_bend@ =~= all64(0));
        assert(r.pedal@ =~= all64(0));
        assert(r.aftertouch@ =~= all64(0));
        assert(r.velocity@ =~= all64(0));
        assert(r.bank@ =~= all64(0));
        assert(r.reverb@ =~= all64(40));
        assert(r.chorus@ =~= all64(0));
        r
    }

    /// Reset all channel states to defaults.
    pub fn reset(&mut self)
        ensures
            channel_defaults(*final(self)),
    {
        *self = ChannelStates::new();
    }
}

/// Playback state: transport flags, position, volumes, tempo and time
/// signature for display, mute and drum channel sets, and channel states.
#[derive(Debug, Clone, Copy, PartialEq, Eq)]
pub struct SharedState {
    /// Current playback position in ticks.
    pub current_tick: u64,
    /// Whether playback is active (not paused).
    pub playing: bool,
    /// Whether playback has been stopped (reset to beginning).
    pub stopped: bool,
    /// App volume (0-100), controlled by user +/- keys.
    pub volume: u32,
    /// MIDI Master Volume from SysEx (0-127, default 127).
    pub master_volume: u32,
    /// Pending seek as tick + 1; 0 = no pending seek. The audio side reads
    /// and clears this.
    pub seek_tick: u64,
    /// Whether the sequencer has reached the end of the file.
    pub finished: bool,
    /// Muted flat channels (bit N = port * 16 + channel).
    pub muted_channels: u64,
    /// Current tempo in hundredths of BPM.
    pub current_bpm_x100: u32,
    /// Current time signature numerator.
    pub time_sig_num: u32,
    /// Current time signature denominator (as power of 2).
    pub time_sig_den: u32,
    /// Per-channel MIDI state (updated from the audio side).
    pub channel_states: ChannelStates,
    /// Drum flat channels (bit N = port * 16 + channel).
    pub drum_channels: u64,
    /// Number of MIDI ports of the loaded file.
    pub port_count: u32,
}

/// Drum channels after initialization for `port_count` ports: channel 10
/// (index 9) of each port, for at most four ports.
pub open spec fn default_drums(port_count: int) -> u64
    decreases port_count,
{
    if port_count <= 0 {
        0
    } else if port_count > 4 {
        default_drums(4)
    } else {
        default_drums(port_count - 1) | (1u64 << (((port_count - 1) * 16 + 9) as u64))
    }
}

/// Transport, tempo, mutes and channels as they are before anything plays:
/// at tick 0, neither playing, stopped nor finished, no seek pending, full
/// master volume, 120 BPM in 4/4, no channel muted, channels at defaults.
pub open spec fn at_rest(s: SharedState) -> bool {
    &&& s.current_tick == 0
    &&& !s.playing
    &&& !s.stopped
    &&& s.master_volume == 127
    &&& s.seek_tick == 0
    &&& !s.finished
    &&& s.muted_channels == 0
    &&& s.current_bpm_x100 == 12000
    &&& s.time_sig_num == 4
    &&& s.time_sig_den == 2
    &&& channel_defaults(s.channel_states)
}

/// The state after a seek to `tick` was requested.
pub open spec fn after_seek_request(s: SharedState, tick: u64) -> SharedState {
    SharedState { seek_tick: (tick + 1) as u64, ..s }
}

/// The seek target waiting to be taken, if any.
pub open spec fn pending_seek(s: SharedState) -> Option<u64> {
    if s.seek_tick > 0 {
        Some((s.seek_tick - 1) as u64)
    } else {
        None
    }
}

/// A requested seek is taken exactly once: the audio side gets the tick
/// asked for, and nothing is pending after it took it.
pub proof fn lemma_seek_round_trip(s: SharedState, tick: u64)
    requires
        tick < u64::MAX,
    ensures
        pending_seek(after_seek_request(s, tick)) == Some(tick),
        pending_seek(SharedState { seek_tick: 0, ..after_seek_request(s, tick) }) is None,
{
}

impl SharedState {
    pub fn new() -> (r: Self)
        ensures
            at_rest(r),
            r.volume == 80,
            r.drum_channels == 1u64 << 9,
            r.port_count == 1,
    {
        SharedState {
            current_tick: 0,
            playing: false,
            stopped: false,
            volume: 80,
            master_volume: 127,
            seek_tick: 0,
            finished: false,
            muted_channels: 0,
            current_bpm_x100: 12000,
            time_sig_num: 4,
            time_sig_den: 2,
            channel_states: ChannelStates::new(),
            drum_channels: 1u64 << 9,
            port_count: 1,
        }
    }

    pub fn is_playing(&self) -> (r: bool)
        ensures
            r == self.playing,
    {
        self.playing
    }

    /// Play if paused, pause if playing; starting play clears the stopped
    /// and finished flags.
    pub fn toggle_play(&mut self)
        ensures
            *final(self) == (if old(self).playing {
                SharedState { playing: false, ..*old(self) }
            } else {
                SharedState { playing: true, stopped: false, finished: false, ..*old(self) }
            }),
    {
        let was_playing = self.playing;
        self.playing = !was_playing;
        if !was_playing {
            self.stopped = false;
            self.finished = false;
        }
    }

    /// Stop: pause, mark stopped, request a seek to the beginning and show
    /// tick 0.
    pub fn stop(&mut self)
        ensures
            *final(self) == (SharedState {
                playing: false,
                stopped: true,
                seek_tick: 1,
                current_tick: 0,
                ..*old(self)
            }),
    {
        self.playing = false;
        self.stopped = true;
        self.seek_tick = 1;
        self.current_tick = 0;
    }

    /// Request a seek to `tick`, stored as `tick + 1` so that 0 can mean
    /// "no seek".
    pub fn request_seek(&mut self, tick: u64)
        requires
            tick < u64::MAX,
        ensures
            *final(self) == after_seek_request(*old(self), tick),
    {
        self.seek_tick = tick + 1;
    }

    /// Take the pending seek target, if any, clearing the request.
    pub fn take_seek(&mut self) -> (r: Option<u64>)
        ensures
            r == pending_seek(*old(self)),
            *final(self) == (SharedState { seek_tick: 0, ..*old(self) }),
    {
        let raw = self.seek_tick;
        self.seek_tick = 0;
        if raw > 0 {
            Some(raw - 1)
        } else {
            None
        }
    }

    /// Whether flat channel `channel` is muted.
    pub fn is_channel_muted(&self, channel: u8) -> (r: bool)
        requires
            channel < 64,
        ensures
            r == (self.muted_channels & (1u64 << channel) != 0),
    {
        self.muted_channels & (1u64 << channel) != 0
    }

    /// Mute or unmute flat channel `channel`.
    pub fn toggle_channel_mute(&mut self, channel: u8)
        requires
            channel < 64,
        ensures
            *final(self) == (SharedState {
                muted_channels: old(self).muted_channels ^ (1u64 << channel),
                ..*old(self)
            }),
    {
        self.muted_channels = self.muted_channels ^ (1u64 << channel);
    }

    /// Replace the set of muted flat channels.
    pub fn set_muted_channels(&mut self, mask: u64)
        ensures
            *final(self) == (SharedState { muted_channels: mask, ..*old(self) }),
    {
        self.muted_channels = mask;
    }

    /// Mark channel 10 of each of the first `port_count` ports (at most 4)
    /// as the drum channel, and nothing else.
    pub fn init_drum_channels(&mut self, port_count: u8)
        ensures
            *final(self) == (SharedState {
                drum_channels: default_drums(port_count as int),
                ..*old(self)
            }),
    {
        let n: u64 = if port_count > 4 {
            4
        } else {
            port_count as u64
        };
        let mut bits: u64 = 0;
        let mut p: u64 = 0;
        while p < n
            invariant
                p <= n <= 4,
                bits == default_drums(p as int),
            decreases n - p,
        {
            bits = bits | (1u64 << (p * 16 + 9));
            p = p + 1;
        }
        self.drum_channels = bits;
    }
}

/// Toggling a channel's mute twice leaves the mute set as it was.
pub proof fn lemma_toggle_mute_twice(mask: u64, channel: u8)
    requires
        channel < 64,
    ensures
        (mask ^ (1u64 << channel)) ^ (1u64 << channel) == mask,
        ((mask ^ (1u64 << channel)) & (1u64 << channel) != 0) == (mask & (1u64 << channel) == 0),
{
    assert((mask ^ (1u64 << channel)) ^ (1u64 << channel) == mask) by (bit_vector);
    assert(((mask ^ (1u64 << channel)) & (1u64 << channel) != 0) == (mask & (1u64 << channel) == 0))
        by (bit_vector)
        requires
            channel < 64,
    ;
}

/// Snapshot of track info for the interface.
#[derive(Debug, Clone)]
pub struct TrackInfoSnapshot {
    pub index: usize,
    pub name: String,
    pub channel: Option<u8>,
    /// MIDI port the track plays on.
    pub port: u8,
    pub program: Option<u8>,
    pub note_count: u32,
    pub channel_note_counts: [u32; 16],
    pub channel_programs: [Option<u8>; 16],
}

/// Whether snapshot `s` shows the track described by `t`.
pub open spec fn shows(s: TrackInfoSnapshot, t: TrackInfoModel) -> bool {
    &&& s.index == t.index
    &&& s.name@ == t.name
    &&& s.channel == t.channel
    &&& s.port == t.port
    &&& s.program == t.program
    &&& s.note_count == t.note_count
    &&& s.channel_note_counts@ == t.channel_note_counts
    &&& s.channel_programs@ == t.channel_programs
}

impl TrackInfoSnapshot {
    /// The snapshot of one parsed track.
    pub fn of(t: &TrackInfo) -> (r: Self)
        ensures
            shows(r, t@),
    {
        TrackInfoSnapshot {
            index: t.index,
            name: t.name.clone(),
            channel: t.channel,
            port: t.port,
            program: t.program,
            note_count: t.note_count,
            channel_note_counts: t.channel_note_counts,
            channel_programs: t.channel_programs,
        }
    }
}

/// Snapshots of all parsed tracks, in order.
pub fn track_snapshots(tracks: &[TrackInfo]) -> (r: Vec<TrackInfoSnapshot>)
    ensures
        r@.len() == tracks@.len(),
        forall|i: int| 0 <= i < tracks@.len() ==> shows(#[trigger] r@[i], tracks@[i]@),
{
    let mut out: Vec<TrackInfoSnapshot> = Vec::new();
    let mut i: usize = 0;
    while i < tracks.len()
        invariant
            i <= tracks@.len(),
            out@.len() == i,
            forall|k: int| 0 <= k < i ==> shows(#[trigger] out@[k], tracks@[k]@),
        decreases tracks@.len() - i,
    {
        out.push(TrackInfoSnapshot::of(&tracks[i]));
        i = i + 1;
    }
    out
}

} // verus!
