//! Interface-level state of the player: screens, focus, view modes, the
//! piano roll direction, and soloing.

use vstd::prelude::*;
use crate::config::{AudioConfig, DisplayConfig};
use crate::midi::event::{MidiData, NoteRect, MAX_PORTS};
use crate::midi::order::{sorted_by_key, start_key};
use crate::state::shared::{
    at_rest, channel_defaults, default_drums, shows, track_snapshots, SharedState, TrackInfoSnapshot,
};
use crate::ui::track_list::{
    build_raw_rows, channel_rows, detail_rows, raw_row_count, raw_rows, track_rows, RawRow,
};
use crate::util::chars::str_chars;

verus! {

/// Which screen is shown.
#[derive(Debug, Clone, Copy, PartialEq, Eq)]
pub enum AppScreen {
    FileBrowser,
    Player,
}

/// Which panel has keyboard focus.
#[derive(Debug, Clone, Copy, PartialEq, Eq)]
pub enum FocusPanel {
    TrackList,
    PianoRoll,
}

/// How the track list is laid out.
#[derive(Debug, Clone, Copy, PartialEq, Eq)]
pub enum TrackViewMode {
    Default,
    Detail,
}

/// Direction notes travel through the vertical piano roll. The playhead is
/// a fixed line 75% of the way down the note area in both cases.
#[derive(Debug, Clone, Copy, PartialEq, Eq)]
pub enum VerticalFlow {
    /// Notes fall from the top toward a keyboard at the bottom (default).
    Down,
    /// Notes rise from the bottom toward a keyboard at the top (tracker style).
    Up,
}

impl VerticalFlow {
    /// Parse the `display.piano_roll_flow` config value. Unknown or missing
    /// values fall back to `Down`.
    pub fn from_config(value: Option<&str>) -> (r: Self)
        ensures
            r == (if value matches Some(v) && v@ == seq!['u', 'p'] {
                VerticalFlow::Up
            } else {
                VerticalFlow::Down
            }),
    {
        match value {
            Some(v) => {
                let c = str_chars(v);
                if c.len() == 2 && c[0] == 'u' && c[1] == 'p' {
                    assert(c@ =~= seq!['u', 'p']);
                    VerticalFlow::Up
                } else {
                    proof {
                        if v@ == seq!['u', 'p'] {
                            assert(c@[0] == 'u' && c@[1] == 'p');
                        }
                    }
                    VerticalFlow::Down
                }
            },
            None => VerticalFlow::Down,
        }
    }

    /// Serialize back to the `display.piano_roll_flow` config value.
    pub fn as_config_str(&self) -> (r: &'static str)
        ensures
            r@ == flow_text(*self),
    {
        match self {
            VerticalFlow::Down => {
                proof {
                    reveal_strlit("down");
                }
                "down"
            },
            VerticalFlow::Up => {
                proof {
                    reveal_strlit("up");
                }
                "up"
            },
        }
    }
}

/// The new mute mask for soloing flat channel `flat` among the `used`
/// channels: every other used channel muted, unless `flat` is already the
/// sole unmuted used channel, in which case no channel is muted. Soloing a
/// channel that is not used leaves the mask unchanged.
pub open spec fn solo_result(used: u64, muted: u64, flat: u64) -> u64 {
    let bit = 1u64 << flat;
    let others = used & !bit;
    if used & bit == 0 {
        muted
    } else if muted & others == others && muted & bit == 0 {
        0
    } else {
        others
    }
}

/// Compute the new mute mask for soloing flat channel `flat` among `used`
/// channels: mute every other used channel, unless `flat` is already the
/// sole unmuted used channel, in which case clear all mutes. Soloing a
/// channel that isn't in `used` (e.g. an empty track row) leaves `muted`
/// unchanged instead of muting every used channel.
pub fn solo_mask(used: u64, muted: u64, flat: u64) -> (r: u64)
    requires
        flat < 64,
    ensures
        r == solo_result(used, muted, flat),
{
    let bit = 1u64 << flat;
    if used & bit == 0 {
        return muted;
    }
    let others = used & !bit;
    let already_soloed = muted & others == others && muted & bit == 0;
    if already_soloed {
        0
    } else {
        others
    }
}

/// Soloing a used channel twice in a row, starting from a mask in which it
/// is not already the only unmuted used channel, clears every mute.
pub proof fn lemma_solo_twice_clears(used: u64, muted: u64, flat: u64)
    requires
        flat < 64,
        used & (1u64 << flat) != 0,
        solo_result(used, muted, flat) != 0,
    ensures
        solo_result(used, solo_result(used, muted, flat), flat) == 0,
{
    let bit = 1u64 << flat;
    let others = used & !bit;
    assert(others & others == others) by (bit_vector);
    assert(others & bit == 0) by (bit_vector)
        requires
            others == used & !bit,
    ;
}

/// After soloing a used channel, it is unmuted, and every other used channel
/// is muted unless nothing is.
pub proof fn lemma_solo_isolates(used: u64, muted: u64, flat: u64)
    requires
        flat < 64,
        used & (1u64 << flat) != 0,
    ensures
        solo_result(used, muted, flat) & (1u64 << flat) == 0,
        solo_result(used, muted, flat) == 0 || solo_result(used, muted, flat) == used & !(1u64
            << flat),
{
    let bit = 1u64 << flat;
    assert((used & !bit) & bit == 0) by (bit_vector);
    assert(0u64 & bit == 0) by (bit_vector);
}

/// Track view mode named by a `display.track_view_mode` config value.
pub open spec fn view_mode_named(value: Option<&str>) -> TrackViewMode {
    if value matches Some(v) && v@ == seq!['D', 'e', 't', 'a', 'i', 'l'] {
        TrackViewMode::Detail
    } else {
        TrackViewMode::Default
    }
}

/// Text of a track view mode in the config file.
pub open spec fn view_mode_text(m: TrackViewMode) -> Seq<char> {
    match m {
        TrackViewMode::Default => seq!['D', 'e', 'f', 'a', 'u', 'l', 't'],
        TrackViewMode::Detail => seq!['D', 'e', 't', 'a', 'i', 'l'],
    }
}

/// Text of a flow direction in the config file.
pub open spec fn flow_text(f: VerticalFlow) -> Seq<char> {
    match f {
        VerticalFlow::Down => seq!['d', 'o', 'w', 'n'],
        VerticalFlow::Up => seq!['u', 'p'],
    }
}

impl TrackViewMode {
    /// Parse the `display.track_view_mode` config value: `"Detail"` selects
    /// Detail, anything else (or nothing) Default.
    pub fn from_config(value: Option<&str>) -> (r: Self)
        ensures
            r == view_mode_named(value),
    {
        match value {
            Some(v) => {
                let c = str_chars(v);
                if c.len() == 6 && c[0] == 'D' && c[1] == 'e' && c[2] == 't' && c[3] == 'a' && c[4]
                    == 'i' && c[5] == 'l' {
                    assert(c@ =~= seq!['D', 'e', 't', 'a', 'i', 'l']);
                    TrackViewMode::Detail
                } else {
                    proof {
                        if v@ == seq!['D', 'e', 't', 'a', 'i', 'l'] {
                            assert(c@[0] == 'D' && c@[1] == 'e' && c@[2] == 't');
                            assert(c@[3] == 'a' && c@[4] == 'i' && c@[5] == 'l');
                        }
                    }
                    TrackViewMode::Default
                }
            },
            None => TrackViewMode::Default,
        }
    }

    /// Serialize back to the `display.track_view_mode` config value.
    pub fn as_config_str(&self) -> (r: &'static str)
        ensures
            r@ == view_mode_text(*self),
    {
        match self {
            TrackViewMode::Default => {
                proof {
                    reveal_strlit("Default");
                }
                "Default"
            },
            TrackViewMode::Detail => {
                proof {
                    reveal_strlit("Detail");
                }
                "Detail"
            },
        }
    }
}

/// Writing a flow direction or a track view mode to the config and reading
/// it back gives the same value.
pub proof fn lemma_config_round_trip(f: VerticalFlow, m: TrackViewMode)
    ensures
        (if flow_text(f) == seq!['u', 'p'] {
            VerticalFlow::Up
        } else {
            VerticalFlow::Down
        }) == f,
        (if view_mode_text(m) == seq!['D', 'e', 't', 'a', 'i', 'l'] {
            TrackViewMode::Detail
        } else {
            TrackViewMode::Default
        }) == m,
{
    match f {
        VerticalFlow::Down => assert(flow_text(f).len() != 2),
        VerticalFlow::Up => {},
    }
    match m {
        TrackViewMode::Default => assert(view_mode_text(m).len() != 6),
        TrackViewMode::Detail => {},
    }
}

/// Volume taken from the `[audio]` config: the saved value capped at 100,
/// or 80 when none is saved.
pub open spec fn initial_volume(audio: AudioConfig) -> u32 {
    match audio.volume {
        Some(v) => if v < 100 {
            v
        } else {
            100
        },
        None => 80,
    }
}

/// Flat channel (`port * 16 + channel`) behind row `row`, if that row is a
/// channel row.
pub open spec fn row_channel(rows: Seq<RawRow>, row: int) -> Option<u64> {
    if 0 <= row < rows.len() {
        match rows[row] {
            RawRow::Channel { port, channel, .. } => Some((port * 16 + channel) as u64),
            RawRow::TrackHeader { .. } => None,
        }
    } else {
        None
    }
}

/// Every channel row names a port below `MAX_PORTS` and a channel below 16.
pub open spec fn rows_in_range(rows: Seq<RawRow>) -> bool {
    forall|i: int|
        0 <= i < rows.len() ==> (#[trigger] rows[i] matches RawRow::Channel { port, channel, .. }
            ==> port < MAX_PORTS && channel < 16)
}

proof fn lemma_channel_rows_in_range(t: TrackInfoSnapshot, upto: int)
    requires
        t.port < MAX_PORTS,
        upto <= 16,
    ensures
        rows_in_range(channel_rows(t, upto)),
    decreases upto,
{
    if upto > 0 {
        lemma_channel_rows_in_range(t, upto - 1);
    }
}

proof fn lemma_detail_rows_in_range(tracks: Seq<TrackInfoSnapshot>)
    requires
        forall|i: int| 0 <= i < tracks.len() ==> (#[trigger] tracks[i]).port < MAX_PORTS,
    ensures
        rows_in_range(detail_rows(tracks)),
    decreases tracks.len(),
{
    if tracks.len() > 0 {
        let init = tracks.drop_last();
        assert forall|i: int| 0 <= i < init.len() implies (#[trigger] init[i]).port < MAX_PORTS by {
            assert(init[i] == tracks[i]);
        }
        lemma_detail_rows_in_range(init);
        let t = tracks.last();
        assert(tracks[tracks.len() - 1] == t);
        lemma_channel_rows_in_range(t, 16);
        let hr = seq![RawRow::TrackHeader { track_idx: t.index }];
        let tr = track_rows(t);
        assert(rows_in_range(tr)) by {
            if !(t.note_count == 0 && t.name@.len() == 0) {
                assert forall|i: int| 0 <= i < tr.len() implies (#[trigger] tr[i] matches RawRow::Channel {
                    port,
                    channel,
                    ..
                } ==> port < MAX_PORTS && channel < 16) by {
                    if i > 0 {
                        assert(tr[i] == channel_rows(t, 16)[i - 1]);
                    }
                }
            }
        }
        let d = detail_rows(tracks);
        let a = detail_rows(init);
        assert(d == a + tr);
        assert forall|i: int| 0 <= i < d.len() implies (#[trigger] d[i] matches RawRow::Channel {
            port,
            channel,
            ..
        } ==> port < MAX_PORTS && channel < 16) by {
            if i < a.len() {
                assert(d[i] == a[i]);
            } else {
                assert(d[i] == tr[i - a.len()]);
            }
        }
    }
}

/// The decision state of the player: playback state shared with the audio
/// side, the loaded song's tracks, and everything the interface shows or
/// toggles. Audio devices, synthesizers and rendering stay with the host.
#[derive(Debug, Clone)]
pub struct App {
    pub shared: SharedState,
    /// Track list snapshot of the loaded song.
    pub track_info: Vec<TrackInfoSnapshot>,
    pub total_ticks: u64,
    pub midi_mode: String,
    /// Piano roll key-range scroll offset in semitones.
    pub key_scroll: i32,
    /// Flat channels with at least one note (bit N = port * 16 + channel).
    pub used_channels: u64,
    /// Number of MIDI ports (1-4).
    pub port_count: u8,
    /// Port shown in Default mode (0-based).
    pub current_port: u8,
    pub screen: AppScreen,
    pub focus: FocusPanel,
    pub track_cursor: usize,
    pub show_piano_roll: bool,
    pub piano_roll_vertical: bool,
    pub piano_roll_flow: VerticalFlow,
    pub show_help: bool,
    pub track_view_mode: TrackViewMode,
    pub midi_file_path: Option<String>,
    pub sf2_file_path: Option<String>,
}

impl App {
    /// Volume within 0-100, one to four ports with the current one among
    /// them, and every track on one of those ports.
    pub open spec fn wf(&self) -> bool {
        &&& self.shared.volume <= 100
        &&& 1 <= self.port_count <= MAX_PORTS
        &&& self.current_port < self.port_count
        &&& forall|i: int|
            0 <= i < self.track_info@.len() ==> (#[trigger] self.track_info@[i]).port < MAX_PORTS
    }

    /// Rows of the track list as currently shown.
    pub open spec fn rows(&self) -> Seq<RawRow> {
        raw_rows(self.track_info@, self.port_count, self.current_port, self.track_view_mode)
    }

    /// Settings the interface starts with, taken from the `[display]` config.
    pub open spec fn display_from(&self, display: DisplayConfig) -> bool {
        &&& self.show_piano_roll == (match display.show_piano_roll {
            Some(b) => b,
            None => true,
        })
        &&& self.piano_roll_vertical == (match display.piano_roll_vertical {
            Some(b) => b,
            None => false,
        })
        &&& self.piano_roll_flow == (match display.piano_roll_flow {
            Some(s) => (if s@ == seq!['u', 'p'] {
                VerticalFlow::Up
            } else {
                VerticalFlow::Down
            }),
            None => VerticalFlow::Down,
        })
        &&& self.track_view_mode == (match display.track_view_mode {
            Some(s) => (if s@ == seq!['D', 'e', 't', 'a', 'i', 'l'] {
                TrackViewMode::Detail
            } else {
                TrackViewMode::Default
            }),
            None => TrackViewMode::Default,
        })
    }

    fn display_settings(display: &DisplayConfig) -> (r: (bool, bool, VerticalFlow, TrackViewMode))
        ensures
            r.0 == (match display.show_piano_roll {
                Some(b) => b,
                None => true,
            }),
            r.1 == (match display.piano_roll_vertical {
                Some(b) => b,
                None => false,
            }),
            r.2 == (match display.piano_roll_flow {
                Some(s) => (if s@ == seq!['u', 'p'] {
                    VerticalFlow::Up
                } else {
                    VerticalFlow::Down
                }),
                None => VerticalFlow::Down,
            }),
            r.3 == (match display.track_view_mode {
                Some(s) => (if s@ == seq!['D', 'e', 't', 'a', 'i', 'l'] {
                    TrackViewMode::Detail
                } else {
                    TrackViewMode::Default
                }),
                None => TrackViewMode::Default,
            }),
    {
        let show = match display.show_piano_roll {
            Some(b) => b,
            None => true,
        };
        let vertical = match display.piano_roll_vertical {
            Some(b) => b,
            None => false,
        };
        let flow = match &display.piano_roll_flow {
            Some(s) => VerticalFlow::from_config(Some(s.as_str())),
            None => VerticalFlow::Down,
        };
        let mode = match &display.track_view_mode {
            Some(s) => TrackViewMode::from_config(Some(s.as_str())),
            None => TrackViewMode::Default,
        };
        (show, vertical, flow, mode)
    }

    fn initial_volume(audio: &AudioConfig) -> (r: u32)
        ensures
            r == initial_volume(*audio),
    {
        match audio.volume {
            Some(v) => if v < 100 {
                v
            } else {
                100
            },
            None => 80,
        }
    }

    /// A player with nothing loaded, starting in the file browser.
    pub fn new_empty(audio: &AudioConfig, display: &DisplayConfig) -> (r: Self)
        ensures
            r.wf(),
            at_rest(r.shared),
            r.shared.volume == initial_volume(*audio),
            r.shared.drum_channels == 1u64 << 9,
            r.shared.port_count == 1,
            r.track_info@.len() == 0,
            r.total_ticks == 0,
            r.midi_mode@.len() == 0,
            r.key_scroll == 0,
            r.used_channels == 0,
            r.port_count == 1,
            r.current_port == 0,
            r.screen == AppScreen::FileBrowser,
            r.focus == FocusPanel::TrackList,
            r.track_cursor == 0,
            !r.show_help,
            r.display_from(*display),
            r.midi_file_path is None,
            r.sf2_file_path is None,
    {
        let mut shared = SharedState::new();
        shared.volume = App::initial_volume(audio);
        let (show, vertical, flow, mode) = App::display_settings(display);
        App {
            shared,
            track_info: Vec::new(),
            total_ticks: 0,
            midi_mode: String::new(),
            key_scroll: 0,
            used_channels: 0,
            port_count: 1,
            current_port: 0,
            screen: AppScreen::FileBrowser,
            focus: FocusPanel::TrackList,
            track_cursor: 0,
            show_piano_roll: show,
            piano_roll_vertical: vertical,
            piano_roll_flow: flow,
            show_help: false,
            track_view_mode: mode,
            midi_file_path: None,
            sf2_file_path: None,
        }
    }

    /// A player for a parsed song, on the player screen in GM mode.
    pub fn new_loaded(midi_data: &MidiData, audio: &AudioConfig, display: &DisplayConfig) -> (r:
        Self)
        requires
            1 <= midi_data.port_count <= MAX_PORTS,
            forall|i: int|
                0 <= i < midi_data.tracks@.len() ==> (#[trigger] midi_data.tracks@[i]).port
                    < MAX_PORTS,
        ensures
            r.wf(),
            at_rest(r.shared),
            r.shared.volume == initial_volume(*audio),
            r.shared.drum_channels == default_drums(midi_data.port_count as int),
            r.shared.port_count == midi_data.port_count,
            r.track_info@.len() == midi_data.tracks@.len(),
            forall|i: int|
                0 <= i < midi_data.tracks@.len() ==> shows(
                    #[trigger] r.track_info@[i],
                    midi_data.tracks@[i]@,
                ),
            r.total_ticks == midi_data.total_ticks,
            r.midi_mode@ == seq!['G', 'M'],
            r.key_scroll == 0,
            r.used_channels == midi_data.used_channels,
            r.port_count == midi_data.port_count,
            r.current_port == 0,
            r.screen == AppScreen::Player,
            r.focus == FocusPanel::TrackList,
            r.track_cursor == 0,
            !r.show_help,
            r.display_from(*display),
            r.midi_file_path is None,
            r.sf2_file_path is None,
    {
        let mut shared = SharedState::new();
        shared.volume = App::initial_volume(audio);
        shared.port_count = midi_data.port_count as u32;
        shared.init_drum_channels(midi_data.port_count);
        let (show, vertical, flow, mode) = App::display_settings(display);
        let track_info = track_snapshots(midi_data.tracks.as_slice());
        proof {
            reveal_strlit("GM");
        }
        let r = App {
            shared,
            track_info,
            total_ticks: midi_data.total_ticks,
            midi_mode: "GM".to_owned(),
            key_scroll: 0,
            used_channels: midi_data.used_channels,
            port_count: midi_data.port_count,
            current_port: 0,
            screen: AppScreen::Player,
            focus: FocusPanel::TrackList,
            track_cursor: 0,
            show_piano_roll: show,
            piano_roll_vertical: vertical,
            piano_roll_flow: flow,
            show_help: false,
            track_view_mode: mode,
            midi_file_path: None,
            sf2_file_path: None,
        };
        assert forall|i: int| 0 <= i < r.track_info@.len() implies (#[trigger] r.track_info@[
            i
        ]).port < MAX_PORTS by {
            assert(shows(r.track_info@[i], midi_data.tracks@[i]@));
        }
        r
    }

    /// Take over a newly parsed song: playback back at rest (volume kept),
    /// ports, drums and track list from the song, the first port and row
    /// shown, key scroll reset, `mode` as the MIDI mode and `path` as the
    /// loaded file. The interface settings stay as they were.
    pub fn load_midi(&mut self, midi_data: &MidiData, mode: &str, path: &str)
        requires
            old(self).wf(),
            1 <= midi_data.port_count <= MAX_PORTS,
            forall|i: int|
                0 <= i < midi_data.tracks@.len() ==> (#[trigger] midi_data.tracks@[i]).port
                    < MAX_PORTS,
        ensures
            final(self).wf(),
            at_rest(final(self).shared),
            final(self).shared.volume == old(self).shared.volume,
            final(self).shared.port_count == midi_data.port_count,
            final(self).shared.drum_channels == default_drums(midi_data.port_count as int),
            final(self).track_info@.len() == midi_data.tracks@.len(),
            forall|i: int|
                0 <= i < midi_data.tracks@.len() ==> shows(
                    #[trigger] final(self).track_info@[i],
                    midi_data.tracks@[i]@,
                ),
            final(self).midi_mode@ == mode@,
            final(self).midi_file_path matches Some(p) && p@ == path@,
            *final(self) == (App {
                shared: final(self).shared,
                track_info: final(self).track_info,
                total_ticks: midi_data.total_ticks,
                midi_mode: final(self).midi_mode,
                key_scroll: 0,
                used_channels: midi_data.used_channels,
                port_count: midi_data.port_count,
                current_port: 0,
                track_cursor: 0,
                midi_file_path: final(self).midi_file_path,
                ..*old(self)
            }),
    {
        let volume = self.shared.volume;
        let mut shared = SharedState::new();
        shared.volume = volume;
        shared.port_count = midi_data.port_count as u32;
        shared.init_drum_channels(midi_data.port_count);
        self.shared = shared;
        self.track_info = track_snapshots(midi_data.tracks.as_slice());
        self.total_ticks = midi_data.total_ticks;
        self.key_scroll = 0;
        self.used_channels = midi_data.used_channels;
        self.port_count = midi_data.port_count;
        self.current_port = 0;
        self.midi_mode = mode.to_owned();
        self.track_cursor = 0;
        self.midi_file_path = Some(path.to_owned());
        assert forall|i: int| 0 <= i < self.track_info@.len() implies (#[trigger] self.track_info@[
            i
        ]).port < MAX_PORTS by {
            assert(shows(self.track_info@[i], midi_data.tracks@[i]@));
        }
    }

    /// Whether a MIDI file is loaded.
    pub fn has_midi(&self) -> (r: bool)
        ensures
            r == self.midi_file_path is Some,
    {
        self.midi_file_path.is_some()
    }

    /// Whether an SF2 file is loaded.
    pub fn has_sf2(&self) -> (r: bool)
        ensures
            r == self.sf2_file_path is Some,
    {
        self.sf2_file_path.is_some()
    }

    pub fn current_tick(&self) -> (r: u64)
        ensures
            r == self.shared.current_tick,
    {
        self.shared.current_tick
    }

    /// Time signature as (numerator, denominator as a power of 2).
    pub fn time_signature(&self) -> (r: (u32, u32))
        ensures
            r == (self.shared.time_sig_num, self.shared.time_sig_den),
    {
        (self.shared.time_sig_num, self.shared.time_sig_den)
    }

    pub fn is_playing(&self) -> (r: bool)
        ensures
            r == self.shared.playing,
    {
        self.shared.is_playing()
    }

    pub fn is_finished(&self) -> (r: bool)
        ensures
            r == self.shared.finished,
    {
        self.shared.finished
    }

    pub fn volume(&self) -> (r: u32)
        ensures
            r == self.shared.volume,
    {
        self.shared.volume
    }

    /// Start playback.
    pub fn start_playback(&mut self)
        ensures
            *final(self) == (App {
                shared: SharedState { playing: true, ..old(self).shared },
                ..*old(self)
            }),
    {
        self.shared.playing = true;
    }

    /// Play if paused, pause if playing (see [`SharedState::toggle_play`]).
    pub fn toggle_play(&mut self)
        ensures
            final(self).shared == (if old(self).shared.playing {
                SharedState { playing: false, ..old(self).shared }
            } else {
                SharedState { playing: true, stopped: false, finished: false, ..old(self).shared }
            }),
            *final(self) == (App { shared: final(self).shared, ..*old(self) }),
    {
        self.shared.toggle_play();
    }

    /// Stop and return to the beginning (see [`SharedState::stop`]).
    pub fn stop(&mut self)
        ensures
            *final(self) == (App {
                shared: SharedState {
                    playing: false,
                    stopped: true,
                    seek_tick: 1,
                    current_tick: 0,
                    ..old(self).shared
                },
                ..*old(self)
            }),
    {
        self.shared.stop();
    }

    /// Seek to an absolute tick, clamped to the song's length.
    pub fn seek_to_tick(&mut self, tick: u64)
        requires
            (if tick < old(self).total_ticks {
                tick
            } else {
                old(self).total_ticks
            }) < u64::MAX,
        ensures
            *final(self) == (App {
                shared: SharedState {
                    seek_tick: ((if tick < old(self).total_ticks {
                        tick
                    } else {
                        old(self).total_ticks
                    }) + 1) as u64,
                    ..old(self).shared
                },
                ..*old(self)
            }),
    {
        let target = if tick < self.total_ticks {
            tick
        } else {
            self.total_ticks
        };
        self.shared.request_seek(target);
    }

    /// Set the volume directly, clamped to 0-100.
    pub fn set_volume(&mut self, v: u32)
        ensures
            *final(self) == (App {
                shared: SharedState { volume: clamp_volume(v as int), ..old(self).shared },
                ..*old(self)
            }),
    {
        self.shared.volume = if v < 100 {
            v
        } else {
            100
        };
    }

    /// Raise the volume by 5, up to 100.
    pub fn volume_up(&mut self)
        requires
            old(self).wf(),
        ensures
            final(self).wf(),
            *final(self) == (App {
                shared: SharedState { volume: volume_up_of(old(self).shared.volume), ..old(self).shared },
                ..*old(self)
            }),
    {
        let v = self.shared.volume;
        self.shared.volume = if v + 5 < 100 {
            v + 5
        } else {
            100
        };
    }

    /// Lower the volume by 5, down to 0.
    pub fn volume_down(&mut self)
        requires
            old(self).wf(),
        ensures
            final(self).wf(),
            *final(self) == (App {
                shared: SharedState {
                    volume: volume_down_of(old(self).shared.volume),
                    ..old(self).shared
                },
                ..*old(self)
            }),
    {
        self.shared.volume = self.shared.volume.saturating_sub(5);
    }
}

impl App {
    /// Move the track cursor up one row, stopping at the first.
    pub fn move_cursor_up(&mut self)
        ensures
            *final(self) == (App {
                track_cursor: (if old(self).track_cursor > 0 {
                    old(self).track_cursor - 1
                } else {
                    0
                }) as usize,
                ..*old(self)
            }),
    {
        if self.track_cursor > 0 {
            self.track_cursor = self.track_cursor - 1;
        }
    }

    /// Move the track cursor down one row, stopping at the last.
    pub fn move_cursor_down(&mut self)
        ensures
            *final(self) == (App {
                track_cursor: (if old(self).track_cursor + 1 < old(self).rows().len() {
                    old(self).track_cursor + 1
                } else {
                    old(self).track_cursor as int
                }) as usize,
                ..*old(self)
            }),
    {
        let max = raw_row_count(
            self.track_info.as_slice(),
            self.port_count,
            self.current_port,
            self.track_view_mode,
        );
        if max > 0 && self.track_cursor < max - 1 {
            self.track_cursor = self.track_cursor + 1;
        }
    }

    /// Select row `row`, clamped to the rows shown (row 0 when there are none).
    pub fn select_track_row(&mut self, row: usize)
        ensures
            *final(self) == (App {
                track_cursor: (if old(self).rows().len() == 0 {
                    0
                } else if row < old(self).rows().len() {
                    row as int
                } else {
                    old(self).rows().len() - 1
                }) as usize,
                ..*old(self)
            }),
    {
        let max = raw_row_count(
            self.track_info.as_slice(),
            self.port_count,
            self.current_port,
            self.track_view_mode,
        );
        if max == 0 {
            self.track_cursor = 0;
        } else if row < max {
            self.track_cursor = row;
        } else {
            self.track_cursor = max - 1;
        }
    }

    /// Flat channel behind row `row`, if it is a channel row.
    fn channel_at(&self, row: usize) -> (r: Option<u8>)
        requires
            self.wf(),
        ensures
            r matches Some(f) ==> f < 64 && row_channel(self.rows(), row as int) == Some(f as u64),
            r is None ==> row_channel(self.rows(), row as int) is None,
    {
        let rows = build_raw_rows(
            self.track_info.as_slice(),
            self.port_count,
            self.current_port,
            self.track_view_mode,
        );
        proof {
            match self.track_view_mode {
                TrackViewMode::Default => {},
                TrackViewMode::Detail => lemma_detail_rows_in_range(self.track_info@),
            }
        }
        if row < rows.len() {
            match rows[row] {
                RawRow::Channel { port, channel, .. } => {
                    assert(rows@[row as int] matches RawRow::Channel { port, channel, .. } ==> port
                        < MAX_PORTS && channel < 16);
                    Some(port * 16 + channel)
                },
                RawRow::TrackHeader { .. } => None,
            }
        } else {
            None
        }
    }

    /// Mute or unmute the channel of row `row`; nothing on track header rows.
    pub fn toggle_mute_row(&mut self, row: usize)
        requires
            old(self).wf(),
        ensures
            final(self).wf(),
            *final(self) == after_toggle_mute(*old(self), row as int),
    {
        match self.channel_at(row) {
            Some(f) => self.shared.toggle_channel_mute(f),
            None => {},
        }
    }

    /// Mute or unmute the channel of the row under the cursor.
    pub fn toggle_mute_selected(&mut self)
        requires
            old(self).wf(),
        ensures
            final(self).wf(),
            *final(self) == after_toggle_mute(*old(self), old(self).track_cursor as int),
    {
        let row = self.track_cursor;
        self.toggle_mute_row(row);
    }

    /// Solo the channel of row `row` among the used channels (see
    /// [`solo_mask`]); nothing on track header rows.
    pub fn toggle_solo_row(&mut self, row: usize)
        requires
            old(self).wf(),
        ensures
            final(self).wf(),
            *final(self) == (match row_channel(old(self).rows(), row as int) {
                Some(f) => App {
                    shared: SharedState {
                        muted_channels: solo_result(
                            old(self).used_channels,
                            old(self).shared.muted_channels,
                            f,
                        ),
                        ..old(self).shared
                    },
                    ..*old(self)
                },
                None => *old(self),
            }),
    {
        match self.channel_at(row) {
            Some(f) => {
                let mask = solo_mask(self.used_channels, self.shared.muted_channels, f as u64);
                self.shared.set_muted_channels(mask);
            },
            None => {},
        }
    }

    /// Show the next port, going back to the first row; nothing on the last.
    pub fn next_port(&mut self)
        requires
            old(self).wf(),
        ensures
            final(self).wf(),
            *final(self) == after_next_port(*old(self)),
    {
        if self.port_count > 1 && self.current_port + 1 < self.port_count {
            self.current_port = self.current_port + 1;
            self.track_cursor = 0;
        }
    }

    /// Show the previous port, going back to the first row; nothing on the first.
    pub fn prev_port(&mut self)
        requires
            old(self).wf(),
        ensures
            final(self).wf(),
            *final(self) == after_prev_port(*old(self)),
    {
        if self.current_port > 0 {
            self.current_port = self.current_port - 1;
            self.track_cursor = 0;
        }
    }

    /// Show port `p`, going back to the first row; nothing if `p` is out of
    /// range or already shown.
    pub fn set_port(&mut self, p: u8)
        requires
            old(self).wf(),
        ensures
            final(self).wf(),
            *final(self) == (if p < old(self).port_count && p != old(self).current_port {
                App { current_port: p, track_cursor: 0, ..*old(self) }
            } else {
                *old(self)
            }),
    {
        if p < self.port_count && p != self.current_port {
            self.current_port = p;
            self.track_cursor = 0;
        }
    }

    /// Shift the piano roll's key range by `delta_keys` semitones, keeping
    /// the offset within -127..=127.
    pub fn scroll_keys(&mut self, delta_keys: i32)
        ensures
            *final(self) == (App {
                key_scroll: clamp_scroll(old(self).key_scroll + delta_keys),
                ..*old(self)
            }),
    {
        let sum: i64 = self.key_scroll as i64 + delta_keys as i64;
        self.key_scroll = if sum < -127 {
            -127
        } else if sum > 127 {
            127
        } else {
            sum as i32
        };
    }

    pub fn toggle_piano_roll(&mut self)
        ensures
            *final(self) == (App { show_piano_roll: !old(self).show_piano_roll, ..*old(self) }),
    {
        self.show_piano_roll = !self.show_piano_roll;
    }

    pub fn toggle_piano_roll_orientation(&mut self)
        ensures
            *final(self) == (App {
                piano_roll_vertical: !old(self).piano_roll_vertical,
                ..*old(self)
            }),
    {
        self.piano_roll_vertical = !self.piano_roll_vertical;
    }

    pub fn toggle_piano_roll_flow(&mut self)
        ensures
            *final(self) == (App {
                piano_roll_flow: match old(self).piano_roll_flow {
                    VerticalFlow::Down => VerticalFlow::Up,
                    VerticalFlow::Up => VerticalFlow::Down,
                },
                ..*old(self)
            }),
    {
        self.piano_roll_flow = match self.piano_roll_flow {
            VerticalFlow::Down => VerticalFlow::Up,
            VerticalFlow::Up => VerticalFlow::Down,
        };
    }

    pub fn cycle_focus(&mut self)
        ensures
            *final(self) == (App {
                focus: match old(self).focus {
                    FocusPanel::TrackList => FocusPanel::PianoRoll,
                    FocusPanel::PianoRoll => FocusPanel::TrackList,
                },
                ..*old(self)
            }),
    {
        self.focus = match self.focus {
            FocusPanel::TrackList => FocusPanel::PianoRoll,
            FocusPanel::PianoRoll => FocusPanel::TrackList,
        };
    }

    pub fn toggle_help(&mut self)
        ensures
            *final(self) == (App { show_help: !old(self).show_help, ..*old(self) }),
    {
        self.show_help = !self.show_help;
    }

    pub fn toggle_track_view_mode(&mut self)
        ensures
            *final(self) == (App {
                track_view_mode: match old(self).track_view_mode {
                    TrackViewMode::Default => TrackViewMode::Detail,
                    TrackViewMode::Detail => TrackViewMode::Default,
                },
                ..*old(self)
            }),
    {
        self.track_view_mode = match self.track_view_mode {
            TrackViewMode::Default => TrackViewMode::Detail,
            TrackViewMode::Detail => TrackViewMode::Default,
        };
    }

    /// Switch to MIDI mode `mode`: channel states back to defaults, the
    /// drum channels of each port restored, full master volume, and a seek
    /// to the current position so that every state-changing event is
    /// replayed. The host reloads and resets its synthesizers first.
    pub fn set_midi_mode(&mut self, mode: &str)
        requires
            old(self).shared.current_tick < u64::MAX,
        ensures
            final(self).midi_mode@ == mode@,
            channel_defaults(final(self).shared.channel_states),
            final(self).shared == (SharedState {
                channel_states: final(self).shared.channel_states,
                drum_channels: default_drums(old(self).port_count as int),
                master_volume: 127,
                seek_tick: (old(self).shared.current_tick + 1) as u64,
                ..old(self).shared
            }),
            *final(self) == (App {
                shared: final(self).shared,
                midi_mode: final(self).midi_mode,
                ..*old(self)
            }),
    {
        self.midi_mode = mode.to_owned();
        self.shared.channel_states.reset();
        self.shared.init_drum_channels(self.port_count);
        self.shared.master_volume = 127;
        let current = self.current_tick();
        self.shared.request_seek(current);
    }

    /// Write the settings kept between sessions into the config sections:
    /// volume, piano roll orientation and flow, and track view mode.
    pub fn save_into(&self, audio: &mut AudioConfig, display: &mut DisplayConfig)
        ensures
            final(audio).volume == Some(self.shared.volume),
            final(display).show_piano_roll == old(display).show_piano_roll,
            final(display).piano_roll_vertical == Some(self.piano_roll_vertical),
            final(display).piano_roll_flow matches Some(s) && s@ == flow_text(self.piano_roll_flow),
            final(display).track_view_mode matches Some(s) && s@ == view_mode_text(
                self.track_view_mode,
            ),
    {
        audio.volume = Some(self.shared.volume);
        display.piano_roll_vertical = Some(self.piano_roll_vertical);
        display.piano_roll_flow = Some(self.piano_roll_flow.as_config_str().to_owned());
        display.track_view_mode = Some(self.track_view_mode.as_config_str().to_owned());
    }
}

/// The player after [`App::next_port`].
pub open spec fn after_next_port(a: App) -> App {
    if a.port_count > 1 && a.current_port + 1 < a.port_count {
        App { current_port: (a.current_port + 1) as u8, track_cursor: 0, ..a }
    } else {
        a
    }
}

/// The player after [`App::prev_port`].
pub open spec fn after_prev_port(a: App) -> App {
    if a.current_port > 0 {
        App { current_port: (a.current_port - 1) as u8, track_cursor: 0, ..a }
    } else {
        a
    }
}

/// The player after [`App::toggle_mute_row`] on row `row`.
pub open spec fn after_toggle_mute(a: App, row: int) -> App {
    match row_channel(a.rows(), row) {
        Some(f) => App {
            shared: SharedState { muted_channels: a.shared.muted_channels ^ (1u64 << f), ..a.shared },
            ..a
        },
        None => a,
    }
}

/// Moving to the next port and back shows the port again, from its first row.
pub proof fn lemma_port_round_trip(a: App)
    requires
        a.wf(),
        a.current_port + 1 < a.port_count,
    ensures
        after_prev_port(after_next_port(a)) == (App { track_cursor: 0, ..a }),
{
}

/// Muting a row's channel and toggling the same row again restores the mute
/// set; nothing else changes either time.
pub proof fn lemma_toggle_mute_row_twice(a: App, row: int)
    requires
        a.wf(),
    ensures
        after_toggle_mute(after_toggle_mute(a, row), row) == a,
{
    let b = after_toggle_mute(a, row);
    assert(b.rows() == a.rows());
    match row_channel(a.rows(), row) {
        Some(f) => {
            let m = a.shared.muted_channels;
            assert((m ^ (1u64 << f)) ^ (1u64 << f) == m) by (bit_vector);
            assert(b.shared.muted_channels ^ (1u64 << f) == m);
            assert(SharedState { muted_channels: m, ..b.shared } == a.shared);
        },
        None => {},
    }
}

/// A key scroll offset clamped to -127..=127.
pub open spec fn clamp_scroll(v: int) -> i32 {
    if v < -127 {
        -127i32
    } else if v > 127 {
        127i32
    } else {
        v as i32
    }
}

/// A volume clamped to 0-100.
pub open spec fn clamp_volume(v: int) -> u32 {
    if v < 100 {
        v as u32
    } else {
        100
    }
}

/// Volume after one step up.
pub open spec fn volume_up_of(v: u32) -> u32 {
    clamp_volume(v + 5)
}

/// Volume after one step down.
pub open spec fn volume_down_of(v: u32) -> u32 {
    if v >= 5 {
        (v - 5) as u32
    } else {
        0
    }
}

/// Stepping the volume up then down restores it unless the step up hit 100.
pub proof fn lemma_volume_round_trip(v: u32)
    requires
        v <= 95,
    ensures
        volume_down_of(volume_up_of(v)) == v,
{
}

/// Whether note `n` drives the level meter at `tick`: it sounds at `tick`,
/// started within the scan window (no earlier than a quarter of the song's
/// length before `tick`), and is on one of the 64 flat channels.
pub open spec fn lights_meter(n: NoteRect, tick: u64, total_ticks: u64) -> bool {
    &&& (tick <= total_ticks / 4 || n.start_tick >= tick - total_ticks / 4)
    &&& n.start_tick <= tick
    &&& n.end_tick > tick
    &&& n.port * 16 + n.channel < 64
}

/// Highest velocity among the first `k` notes that light flat channel
/// `flat` at `tick`, 0 if none does.
pub open spec fn level_of(notes: Seq<NoteRect>, k: int, tick: u64, total_ticks: u64, flat: int) -> u8
    decreases k,
{
    if k <= 0 {
        0
    } else {
        let prev = level_of(notes, k - 1, tick, total_ticks, flat);
        let n = notes[k - 1];
        if lights_meter(n, tick, total_ticks) && n.port * 16 + n.channel == flat && n.velocity
            > prev {
            n.velocity
        } else {
            prev
        }
    }
}

proof fn lemma_level_unlit(notes: Seq<NoteRect>, a: int, b: int, tick: u64, total_ticks: u64, flat: int)
    requires
        0 <= a <= b <= notes.len(),
        forall|i: int| a <= i < b ==> !lights_meter(#[trigger] notes[i], tick, total_ticks),
    ensures
        level_of(notes, b, tick, total_ticks, flat) == level_of(notes, a, tick, total_ticks, flat),
    decreases b - a,
{
    if b > a {
        lemma_level_unlit(notes, a, b - 1, tick, total_ticks, flat);
        assert(!lights_meter(notes[b - 1], tick, total_ticks));
    }
}

/// Meter level per flat channel (`port * 16 + channel`) at `tick`, as the
/// highest velocity among the notes lighting it, 0 for all when not playing.
/// Notes are scanned from the first that started within a quarter of the
/// song's length before `tick`; `notes` must be in start order.
pub fn level_velocities(notes: &[NoteRect], tick: u64, total_ticks: u64, playing: bool) -> (r: Vec<
    u8,
>)
    requires
        sorted_by_key(notes@, start_key()),
    ensures
        r@.len() == 64,
        forall|f: int|
            0 <= f < 64 ==> #[trigger] r@[f] == (if playing {
                level_of(notes@, notes@.len() as int, tick, total_ticks, f)
            } else {
                0
            }),
{
    let mut targets: Vec<u8> = Vec::new();
    let mut z: usize = 0;
    while z < 64
        invariant
            z <= 64,
            targets@.len() == z,
            forall|f: int| 0 <= f < z ==> #[trigger] targets@[f] == 0,
        decreases 64 - z,
    {
        targets.push(0);
        z = z + 1;
    }
    if !playing {
        return targets;
    }
    let ghost s = notes@;
    let len = notes.len();
    let max_dur = total_ticks / 4;
    // First note that started no earlier than `tick - max_dur`.
    let mut a: usize = 0;
    if tick > max_dur {
        let lo = tick - max_dur;
        let mut b: usize = len;
        while a < b
            invariant
                s == notes@,
                len == s.len(),
                sorted_by_key(s, start_key()),
                a <= b <= len,
                forall|i: int| 0 <= i < a ==> (#[trigger] s[i]).start_tick < lo,
                forall|i: int| b <= i < len ==> (#[trigger] s[i]).start_tick >= lo,
            decreases b - a,
        {
            let mid = a + (b - a) / 2;
            if notes[mid].start_tick < lo {
                proof {
                    assert forall|i: int| 0 <= i <= mid implies (#[trigger] s[i]).start_tick < lo by {
                        assert(start_key()(s[i]) <= start_key()(s[mid as int]));
                    }
                }
                a = mid + 1;
            } else {
                proof {
                    assert forall|i: int| mid <= i < len implies (#[trigger] s[i]).start_tick >= lo by {
                        assert(start_key()(s[mid as int]) <= start_key()(s[i]));
                    }
                }
                b = mid;
            }
        }
        assert(forall|j: int| a <= j < len ==> (#[trigger] s[j]).start_tick >= lo);
    }
    assert(forall|j: int|
        a <= j < len ==> (tick <= total_ticks / 4 || (#[trigger] s[j]).start_tick >= tick
            - total_ticks / 4));
    proof {
        assert forall|i: int| 0 <= i < a implies !lights_meter(#[trigger] s[i], tick, total_ticks) by {}
        assert forall|f: int| 0 <= f < 64 implies #[trigger] targets@[f] == level_of(
            s,
            a as int,
            tick,
            total_ticks,
            f,
        ) by {
            lemma_level_unlit(s, 0, a as int, tick, total_ticks, f);
        }
    }
    let mut i: usize = a;
    let mut done = false;
    while i < len && !done
        invariant
            s == notes@,
            len == s.len(),
            sorted_by_key(s, start_key()),
            a <= i <= len,
            targets@.len() == 64,
            forall|f: int|
                0 <= f < 64 ==> #[trigger] targets@[f] == level_of(s, i as int, tick, total_ticks, f),
            done ==> forall|j: int| i <= j < len ==> (#[trigger] s[j]).start_tick > tick,
            forall|j: int|
                a <= j < len ==> (tick <= total_ticks / 4 || (#[trigger] s[j]).start_tick >= tick
                    - total_ticks / 4),
        decreases len - i, (if done { 0int } else { 1int }),
    {
        let note = notes[i];
        if note.start_tick > tick {
            proof {
                assert forall|j: int| i <= j < len implies (#[trigger] s[j]).start_tick > tick by {
                    assert(start_key()(s[i as int]) <= start_key()(s[j]));
                }
            }
            done = true;
        } else {
            let ghost before = targets@;
            let flat: usize = note.port as usize * 16 + note.channel as usize;
            assert(s[i as int] == note);
            assert(lights_meter(note, tick, total_ticks) == (note.end_tick > tick && flat < 64));
            if note.end_tick > tick && flat < 64 && note.velocity > targets[flat] {
                targets.set(flat, note.velocity);
            }
            proof {
                assert forall|f: int| 0 <= f < 64 implies #[trigger] targets@[f] == level_of(
                    s,
                    i + 1,
                    tick,
                    total_ticks,
                    f,
                ) by {
                    assert(s[(i + 1) - 1] == note);
                    assert(before[f] == level_of(s, i as int, tick, total_ticks, f));
                }
            }
            i = i + 1;
        }
    }
    proof {
        assert forall|f: int| 0 <= f < 64 implies #[trigger] targets@[f] == level_of(
            s,
            len as int,
            tick,
            total_ticks,
            f,
        ) by {
            assert forall|j: int| i <= j < len implies !lights_meter(#[trigger] s[j], tick, total_ticks) by {
                if done {
                    assert(s[j].start_tick > tick);
                }
            }
            lemma_level_unlit(s, i as int, len as int, tick, total_ticks, f);
        }
    }
    targets
}

} // verus!
