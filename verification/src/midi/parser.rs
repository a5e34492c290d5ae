//! Turns a decoded Standard MIDI File into the player's representation:
//! absolute-tick events of all tracks in one stable tick order, note
//! rectangles for the piano roll, per-track metadata and the tempo changes.

use vstd::prelude::*;
use vstd::utf8::{decode_utf8, valid_utf8};
use crate::midi::event::{
    EventModel, MidiData, MAX_PORTS, MidiEvent, NoteRect, TimedEventModel, TimedMidiEvent, TrackInfo,
    TrackInfoModel,
};
use crate::midi::order::{
    event_models, lemma_merge_stable, lemma_sorted_self, lemma_stable_sorted_from, merge_events, sort_rects, sorted_by_key,
    stable_sorted, start_key, tick_key,
};
use crate::midi::smf::{
    decode_smf, event_ok, midly_parse, smf_ok, track_model, ChannelMessage, KindModel,
    MetaEvent, MetaModel, ParseError, SmfEvent, SmfEventKind, SmfEventModel, SmfFile, SmfModel,
};
use crate::midi::text::{trim_str, trim_ws, utf8_str};

verus! {

/// A sounding note: which key, where it started and how hard.
#[derive(Debug, Clone, Copy, PartialEq, Eq)]
pub struct ActiveNote {
    pub key: u8,
    pub channel: u8,
    pub port: u8,
    pub start: u64,
    pub vel: u8,
}

/// State while reading one track.
pub struct TrackScan {
    pub tick: u64,
    pub name: Seq<char>,
    pub note_count: u32,
    pub counts: Seq<u32>,
    pub programs: Seq<Option<u8>>,
    pub current_port: u8,
    pub track_port: u8,
    pub port_set: bool,
    /// Notes started and not yet released, oldest first; at most one per
    /// (key, channel, port).
    pub active: Seq<ActiveNote>,
    /// The track's events so far.
    pub events: Seq<TimedEventModel>,
    /// Note rectangles closed so far (the file's, in closing order).
    pub rects: Seq<NoteRect>,
    /// Channels with a note-on so far (the file's), bit `port * 16 + channel`.
    pub used: u64,
    /// Highest port selected so far (the file's).
    pub max_port: u8,
}

/// Index of the sounding note on (key, channel, port), or -1.
pub open spec fn find_active(a: Seq<ActiveNote>, key: u8, channel: u8, port: u8) -> int
    decreases a.len(),
{
    if a.len() == 0 {
        -1
    } else if a.last().key == key && a.last().channel == channel && a.last().port == port {
        a.len() - 1
    } else {
        find_active(a.drop_last(), key, channel, port)
    }
}

/// Releases the note on (key, channel, port), if one sounds: its rectangle
/// ends at the current tick.
pub open spec fn close_note(st: TrackScan, key: u8, channel: u8, port: u8, track: usize) -> TrackScan {
    let i = find_active(st.active, key, channel, port);
    if i < 0 {
        st
    } else {
        let a = st.active[i];
        TrackScan {
            rects: st.rects.push(
                NoteRect {
                    key,
                    channel,
                    port,
                    start_tick: a.start,
                    end_tick: st.tick,
                    velocity: a.vel,
                    track,
                },
            ),
            active: st.active.remove(i),
            ..st
        }
    }
}

/// Appends an event at the current tick.
pub open spec fn emit(st: TrackScan, e: EventModel, track: usize) -> TrackScan {
    TrackScan { events: st.events.push(TimedEventModel { tick: st.tick, event: e, track }), ..st }
}

/// A channel message at the current tick, on the current port.
pub open spec fn scan_midi(st: TrackScan, ch: u8, m: ChannelMessage, track: usize) -> TrackScan {
    let port = st.current_port;
    match m {
        ChannelMessage::NoteOn { key, vel } => if vel == 0 {
            emit(
                close_note(st, key, ch, port, track),
                EventModel::NoteOff { port, channel: ch, key },
                track,
            )
        } else {
            let c = close_note(st, key, ch, port, track);
            emit(
                TrackScan {
                    active: c.active.push(
                        ActiveNote { key, channel: ch, port, start: c.tick, vel },
                    ),
                    note_count: (c.note_count + 1) as u32,
                    counts: c.counts.update(ch as int, (c.counts[ch as int] + 1) as u32),
                    used: c.used | (1u64 << ((port as u64) * 16 + ch as u64)),
                    ..c
                },
                EventModel::NoteOn { port, channel: ch, key, vel },
                track,
            )
        },
        ChannelMessage::NoteOff { key, .. } => emit(
            close_note(st, key, ch, port, track),
            EventModel::NoteOff { port, channel: ch, key },
            track,
        ),
        ChannelMessage::ProgramChange { program } => emit(
            TrackScan { programs: st.programs.update(ch as int, Some(program)), ..st },
            EventModel::ProgramChange { port, channel: ch, program },
            track,
        ),
        ChannelMessage::Controller { controller, value } => emit(
            st,
            EventModel::ControlChange { port, channel: ch, controller, value },
            track,
        ),
        ChannelMessage::PitchBend { bend } => emit(
            st,
            EventModel::PitchBend { port, channel: ch, value: bend },
            track,
        ),
        ChannelMessage::Aftertouch { key, vel } => emit(
            st,
            EventModel::PolyAftertouch { port, channel: ch, key, pressure: vel },
            track,
        ),
        ChannelMessage::ChannelAftertouch { vel } => emit(
            st,
            EventModel::ChannelAftertouch { port, channel: ch, pressure: vel },
            track,
        ),
    }
}

/// A meta event at the current tick. A track name is kept when it is
/// valid UTF-8 (trimmed of white space); a port selection (clamped to 3)
/// becomes the current port, the track's port if it is the first, and
/// raises the highest port seen.
pub open spec fn scan_meta(st: TrackScan, m: MetaModel, track: usize) -> TrackScan {
    match m {
        MetaModel::TrackName(b) => if valid_utf8(b) {
            TrackScan { name: trim_ws(decode_utf8(b)), ..st }
        } else {
            st
        },
        MetaModel::Tempo(us) => emit(st, EventModel::TempoChange(us), track),
        MetaModel::TimeSignature(num, den, _, _) => emit(
            st,
            EventModel::TimeSignature { numerator: num, denominator: den },
            track,
        ),
        MetaModel::MidiPort(p) => {
            let cur: u8 = if p < 3 {
                p
            } else {
                3
            };
            TrackScan {
                current_port: cur,
                track_port: if st.port_set {
                    st.track_port
                } else {
                    cur
                },
                port_set: true,
                max_port: if cur > st.max_port {
                    cur
                } else {
                    st.max_port
                },
                ..st
            }
        },
        MetaModel::Other => st,
    }
}

/// One track event: advance the clock by its delta, then act on it.
pub open spec fn scan_event(st: TrackScan, e: SmfEventModel, track: usize) -> TrackScan {
    let st = TrackScan { tick: (st.tick + e.delta) as u64, ..st };
    match e.kind {
        KindModel::Midi { channel, message } => scan_midi(st, channel, message, track),
        KindModel::SysEx(d) => emit(st, EventModel::SysEx(d), track),
        KindModel::Escape => st,
        KindModel::Meta(m) => scan_meta(st, m, track),
    }
}

/// Reading of the events `s` of track `track` from `st`.
pub open spec fn scan_events(st: TrackScan, s: Seq<SmfEventModel>, track: usize) -> TrackScan
    decreases s.len(),
{
    if s.len() == 0 {
        st
    } else {
        scan_event(scan_events(st, s.drop_last(), track), s.last(), track)
    }
}

/// State at the start of a track.
pub open spec fn track_start(used: u64, max_port: u8) -> TrackScan {
    TrackScan {
        tick: 0,
        name: Seq::empty(),
        note_count: 0,
        counts: Seq::new(16, |i: int| 0u32),
        programs: Seq::new(16, |i: int| None::<u8>),
        current_port: 0,
        track_port: 0,
        port_set: false,
        active: Seq::empty(),
        events: Seq::empty(),
        rects: Seq::empty(),
        used,
        max_port,
    }
}

/// Notes still sounding at the end of a track end there.
pub open spec fn close_all(a: Seq<ActiveNote>, end: u64, track: usize) -> Seq<NoteRect> {
    a.map_values(
        |n: ActiveNote|
            NoteRect {
                key: n.key,
                channel: n.channel,
                port: n.port,
                start_tick: n.start,
                end_tick: end,
                velocity: n.vel,
                track,
            },
    )
}

/// Index of the last largest count among the first `n`.
pub open spec fn last_max_index(counts: Seq<u32>, n: int) -> int
    decreases n,
{
    if n <= 1 {
        0
    } else {
        let m = last_max_index(counts, n - 1);
        if counts[n - 1] >= counts[m] {
            n - 1
        } else {
            m
        }
    }
}

/// The channel with the most notes (the highest such channel on a tie), if
/// the track has notes.
pub open spec fn primary_channel(counts: Seq<u32>) -> Option<u8> {
    let m = last_max_index(counts, 16);
    if counts[m] > 0 {
        Some(m as u8)
    } else {
        None
    }
}

/// Metadata of track `index` after reading it.
pub open spec fn track_info(st: TrackScan, index: usize) -> TrackInfoModel {
    let ch = primary_channel(st.counts);
    TrackInfoModel {
        index,
        name: st.name,
        channel: ch,
        port: st.track_port,
        program: match ch {
            Some(c) => st.programs[c as int],
            None => None,
        },
        note_count: st.note_count,
        channel_note_counts: st.counts,
        channel_programs: st.programs,
    }
}

/// What reading the tracks accumulates.
pub struct FileScan {
    /// Events of all tracks, track by track.
    pub events: Seq<TimedEventModel>,
    /// Note rectangles of all tracks, track by track.
    pub rects: Seq<NoteRect>,
    pub infos: Seq<TrackInfoModel>,
    pub used: u64,
    pub max_port: u8,
}

/// Reading of the first `tracks.len()` tracks.
pub open spec fn scan_tracks(tracks: Seq<Seq<SmfEventModel>>) -> FileScan
    decreases tracks.len(),
{
    if tracks.len() == 0 {
        FileScan { events: Seq::empty(), rects: Seq::empty(), infos: Seq::empty(), used: 0, max_port: 0 }
    } else {
        let fs = scan_tracks(tracks.drop_last());
        let idx = (tracks.len() - 1) as usize;
        let st = scan_events(track_start(fs.used, fs.max_port), tracks.last(), idx);
        FileScan {
            events: fs.events + st.events,
            rects: fs.rects + st.rects + close_all(st.active, st.tick, idx),
            infos: fs.infos.push(track_info(st, idx)),
            used: st.used,
            max_port: st.max_port,
        }
    }
}

/// Sum of the deltas of `s`.
pub open spec fn delta_sum(s: Seq<SmfEventModel>) -> int
    decreases s.len(),
{
    if s.len() == 0 {
        0
    } else {
        delta_sum(s.drop_last()) + s.last().delta
    }
}

/// Every track's length and total time fit the counters: at most `u32::MAX`
/// events and `u64::MAX` ticks.
pub open spec fn tracks_fit(m: SmfModel) -> bool {
    forall|t: int|
        0 <= t < m.tracks.len() ==> (#[trigger] m.tracks[t]).len() <= u32::MAX && delta_sum(
            m.tracks[t],
        ) <= u64::MAX
}

/// First tempo at each tick of a tick-ordered event list: `(tick, µs per quarter)`.
pub open spec fn tempo_changes(s: Seq<TimedEventModel>) -> Seq<(u64, u32)>
    decreases s.len(),
{
    if s.len() == 0 {
        Seq::empty()
    } else {
        let r = tempo_changes(s.drop_last());
        match s.last().event {
            EventModel::TempoChange(us) => if r.len() == 0 || r.last().0 != s.last().tick {
                r.push((s.last().tick, us))
            } else {
                r
            },
            _ => r,
        }
    }
}

/// `d` is what the player makes of the file `m` with metrical timing `tpq`.
pub open spec fn midi_data_of(d: MidiData, m: SmfModel, tpq: u16) -> bool {
    let fs = scan_tracks(m.tracks);
    &&& d.ticks_per_quarter == tpq
    &&& d.format == m.format
    &&& stable_sorted(event_models(d.events@), fs.events, tick_key())
    &&& stable_sorted(d.note_rects@, fs.rects, start_key())
    &&& d.tracks@.map_values(|t: TrackInfo| t@) == fs.infos
    &&& d.total_ticks == (if d.events@.len() == 0 {
        0
    } else {
        d.events@.last().tick
    })
    &&& d.used_channels == fs.used
    &&& d.port_count == fs.max_port + 1
    &&& 1 <= d.port_count <= MAX_PORTS
    &&& forall|i: int| 0 <= i < d.tracks@.len() ==> #[trigger] d.tracks@[i].port < MAX_PORTS
    &&& forall|i: int| 0 <= i < d.note_rects@.len() ==> rect_ok(#[trigger] d.note_rects@[i])
}

/// In parsed data every event lies within the song: no event comes after
/// `total_ticks`, and the events are in tick order.
pub proof fn lemma_events_within_song(d: MidiData, m: SmfModel, tpq: u16)
    requires
        midi_data_of(d, m, tpq),
    ensures
        forall|i: int| 0 <= i < d.events@.len() ==> #[trigger] d.events@[i].tick <= d.total_ticks,
        forall|i: int, j: int|
            0 <= i <= j < d.events@.len() ==> d.events@[i].tick <= d.events@[j].tick,
{
    let s = event_models(d.events@);
    assert forall|i: int, j: int| 0 <= i <= j < d.events@.len() implies d.events@[i].tick
        <= d.events@[j].tick by {
        assert(tick_key()(s[i]) <= tick_key()(s[j]));
    }
    assert forall|i: int| 0 <= i < d.events@.len() implies #[trigger] d.events@[i].tick
        <= d.total_ticks by {
        let last = d.events@.len() - 1;
        assert(tick_key()(s[i]) <= tick_key()(s[last]));
    }
}

/// A proper note: a key below 128 on a channel below 16 of a port up to 3,
/// ending no earlier than it starts.
pub open spec fn rect_ok(r: NoteRect) -> bool {
    &&& r.key < 128
    &&& r.channel < 16
    &&& r.port <= 3
    &&& r.start_tick <= r.end_tick
}

/// A sounding note on a proper key, channel and port, started by `tick`.
pub open spec fn active_ok(a: ActiveNote, tick: u64) -> bool {
    &&& a.key < 128
    &&& a.channel < 16
    &&& a.port <= 3
    &&& a.start <= tick
}

/// Ranges kept while scanning: the current port, the sounding notes and the
/// closed notes are proper.
pub open spec fn scan_ok(st: TrackScan) -> bool {
    &&& st.current_port <= 3
    &&& forall|i: int| 0 <= i < st.active.len() ==> active_ok(#[trigger] st.active[i], st.tick)
    &&& forall|i: int| 0 <= i < st.rects.len() ==> rect_ok(#[trigger] st.rects[i])
}

/// At most one sounding note per (key, channel, port).
pub open spec fn active_unique(a: Seq<ActiveNote>) -> bool {
    forall|i: int, j: int|
        0 <= i < a.len() && 0 <= j < a.len() && i != j ==> !((#[trigger] a[i]).key == (
        #[trigger] a[j]).key && a[i].channel == a[j].channel && a[i].port == a[j].port)
}

/// With one sounding note per (key, channel, port), the note found for a
/// key, channel and port is the one that matches.
proof fn lemma_find_active_unique(a: Seq<ActiveNote>, key: u8, channel: u8, port: u8, i: int)
    requires
        active_unique(a),
        0 <= i < a.len(),
        a[i].key == key,
        a[i].channel == channel,
        a[i].port == port,
    ensures
        find_active(a, key, channel, port) == i,
    decreases a.len(),
{
    if i < a.len() - 1 {
        let last = a.len() - 1;
        assert(!(a[i].key == a[last].key && a[i].channel == a[last].channel && a[i].port
            == a[last].port));
        let b = a.drop_last();
        assert(active_unique(b)) by {
            assert forall|x: int, y: int|
                0 <= x < b.len() && 0 <= y < b.len() && x != y implies !((#[trigger] b[x]).key == (
                #[trigger] b[y]).key && b[x].channel == b[y].channel && b[x].port == b[y].port) by {
                assert(b[x] == a[x] && b[y] == a[y]);
            }
        }
        assert(b[i] == a[i]);
        lemma_find_active_unique(b, key, channel, port, i);
    }
}

/// Releasing a key closes the note sounding on it: a note-off (or a
/// note-on of velocity 0) on the key, channel and current port of a
/// sounding note adds that note's rectangle, from its start to the tick of
/// the release and with its velocity, and the note no longer sounds; the
/// other sounding notes stay, and the release itself is recorded.
pub proof fn lemma_release_closes_note(st: TrackScan, delta: u32, ch: u8, m: ChannelMessage, track: usize, i: int)
    requires
        active_unique(st.active),
        0 <= i < st.active.len(),
        match m {
            ChannelMessage::NoteOff { key, .. } => st.active[i].key == key,
            ChannelMessage::NoteOn { key, vel } => vel == 0 && st.active[i].key == key,
            _ => false,
        },
        st.active[i].channel == ch,
        st.active[i].port == st.current_port,
        st.tick + delta <= u64::MAX,
    ensures
        ({
            let r = scan_event(
                st,
                SmfEventModel { delta, kind: KindModel::Midi { channel: ch, message: m } },
                track,
            );
            let key = st.active[i].key;
            &&& r.rects == st.rects.push(
                NoteRect {
                    key,
                    channel: ch,
                    port: st.current_port,
                    start_tick: st.active[i].start,
                    end_tick: (st.tick + delta) as u64,
                    velocity: st.active[i].vel,
                    track,
                },
            )
            &&& r.active == st.active.remove(i)
            &&& forall|j: int|
                0 <= j < r.active.len() ==> !((#[trigger] r.active[j]).key == key && r.active[j].channel
                    == ch && r.active[j].port == st.current_port)
            &&& r.events == st.events.push(
                TimedEventModel {
                    tick: (st.tick + delta) as u64,
                    event: EventModel::NoteOff { port: st.current_port, channel: ch, key },
                    track,
                },
            )
        }),
{
    let st2 = TrackScan { tick: (st.tick + delta) as u64, ..st };
    let key = st.active[i].key;
    lemma_find_active_unique(st2.active, key, ch, st.current_port, i);
    let rem = st.active.remove(i);
    assert forall|j: int|
        0 <= j < rem.len() implies !((#[trigger] rem[j]).key == key && rem[j].channel == ch
        && rem[j].port == st.current_port) by {
        if j < i {
            assert(rem[j] == st.active[j]);
            assert(j != i);
        } else {
            assert(rem[j] == st.active[j + 1]);
            assert(j + 1 != i);
        }
    }
}

/// When no sounding note is found for a key, channel and port, none
/// matches.
proof fn lemma_find_active_none(a: Seq<ActiveNote>, key: u8, channel: u8, port: u8)
    requires
        find_active(a, key, channel, port) < 0,
    ensures
        forall|j: int|
            0 <= j < a.len() ==> !((#[trigger] a[j]).key == key && a[j].channel == channel && a[j].port
                == port),
    decreases a.len(),
{
    if a.len() > 0 {
        lemma_find_active_none(a.drop_last(), key, channel, port);
        assert forall|j: int|
            0 <= j < a.len() implies !((#[trigger] a[j]).key == key && a[j].channel == channel
            && a[j].port == port) by {
            if j < a.len() - 1 {
                assert(a[j] == a.drop_last()[j]);
            }
        }
    }
}

/// After releasing (key, channel, port), no sounding note is on it, the
/// notes stay one per (key, channel, port), and every note left was
/// sounding before.
proof fn lemma_close_note_clears(st: TrackScan, key: u8, channel: u8, port: u8, track: usize)
    requires
        active_unique(st.active),
    ensures
        ({
            let c = close_note(st, key, channel, port, track);
            &&& active_unique(c.active)
            &&& forall|j: int|
                0 <= j < c.active.len() ==> !((#[trigger] c.active[j]).key == key && c.active[j].channel
                    == channel && c.active[j].port == port)
            &&& c.tick == st.tick
            &&& c.current_port == st.current_port
        }),
{
    lemma_find_active_range(st.active, key, channel, port);
    let i = find_active(st.active, key, channel, port);
    if i < 0 {
        lemma_find_active_none(st.active, key, channel, port);
    } else {
        lemma_find_active_match(st.active, key, channel, port);
        let a = st.active;
        let rem = a.remove(i);
        assert forall|x: int| 0 <= x < rem.len() implies rem[x] == a[if x < i { x } else { x + 1 }] by {}
        assert forall|x: int, y: int|
            0 <= x < rem.len() && 0 <= y < rem.len() && x != y implies !((#[trigger] rem[x]).key == (
            #[trigger] rem[y]).key && rem[x].channel == rem[y].channel && rem[x].port == rem[y].port) by {
            let xa = if x < i { x } else { x + 1 };
            let ya = if y < i { y } else { y + 1 };
            assert(rem[x] == a[xa] && rem[y] == a[ya]);
        }
        assert forall|j: int|
            0 <= j < rem.len() implies !((#[trigger] rem[j]).key == key && rem[j].channel == channel
            && rem[j].port == port) by {
            let ja = if j < i { j } else { j + 1 };
            assert(rem[j] == a[ja]);
            assert(ja != i);
        }
    }
}

/// The note found for a key, channel and port matches them.
proof fn lemma_find_active_match(a: Seq<ActiveNote>, key: u8, channel: u8, port: u8)
    requires
        find_active(a, key, channel, port) >= 0,
    ensures
        a[find_active(a, key, channel, port)].key == key,
        a[find_active(a, key, channel, port)].channel == channel,
        a[find_active(a, key, channel, port)].port == port,
    decreases a.len(),
{
    if a.len() > 0 && !(a.last().key == key && a.last().channel == channel && a.last().port == port) {
        lemma_find_active_match(a.drop_last(), key, channel, port);
        lemma_find_active_range(a.drop_last(), key, channel, port);
        let i = find_active(a.drop_last(), key, channel, port);
        assert(a[i] == a.drop_last()[i]);
    }
}

/// Pressing a key starts a note: a note-on of non-zero velocity on a
/// channel of the current port makes a note sound on that key from the tick
/// of the press with that velocity (closing first a note already sounding
/// there), records the press and counts it; and the notes stay one per
/// (key, channel, port).
pub proof fn lemma_press_starts_note(st: TrackScan, delta: u32, ch: u8, key: u8, vel: u8, track: usize)
    requires
        active_unique(st.active),
        vel > 0,
        ch < 16,
        st.counts.len() == 16,
        st.tick + delta <= u64::MAX,
    ensures
        ({
            let r = scan_event(
                st,
                SmfEventModel {
                    delta,
                    kind: KindModel::Midi { channel: ch, message: ChannelMessage::NoteOn { key, vel } },
                },
                track,
            );
            let t = (st.tick + delta) as u64;
            &&& r.active.last() == ActiveNote { key, channel: ch, port: st.current_port, start: t, vel }
            &&& active_unique(r.active)
            &&& r.note_count == (st.note_count + 1) as u32
            &&& r.events == st.events.push(
                TimedEventModel {
                    tick: t,
                    event: EventModel::NoteOn { port: st.current_port, channel: ch, key, vel },
                    track,
                },
            )
        }),
{
    let st2 = TrackScan { tick: (st.tick + delta) as u64, ..st };
    lemma_close_note_clears(st2, key, ch, st.current_port, track);
    let c = close_note(st2, key, ch, st.current_port, track);
    let n = ActiveNote { key, channel: ch, port: st.current_port, start: c.tick, vel };
    let pushed = c.active.push(n);
    assert forall|x: int, y: int|
        0 <= x < pushed.len() && 0 <= y < pushed.len() && x != y implies !((#[trigger] pushed[x]).key
        == (#[trigger] pushed[y]).key && pushed[x].channel == pushed[y].channel && pushed[x].port
        == pushed[y].port) by {
        if x < c.active.len() && y < c.active.len() {
            assert(pushed[x] == c.active[x] && pushed[y] == c.active[y]);
        } else if x < c.active.len() {
            assert(pushed[x] == c.active[x]);
        } else {
            assert(pushed[y] == c.active[y]);
        }
    }
}

proof fn lemma_find_active_range(a: Seq<ActiveNote>, key: u8, channel: u8, port: u8)
    ensures
        -1 <= find_active(a, key, channel, port) < a.len(),
    decreases a.len(),
{
    if a.len() > 0 {
        lemma_find_active_range(a.drop_last(), key, channel, port);
    }
}

proof fn lemma_close_note_ok(st: TrackScan, key: u8, channel: u8, port: u8, track: usize)
    requires
        scan_ok(st),
        key < 128,
        channel < 16,
        port <= 3,
    ensures
        scan_ok(close_note(st, key, channel, port, track)),
        close_note(st, key, channel, port, track).tick == st.tick,
        close_note(st, key, channel, port, track).current_port == st.current_port,
{
    lemma_find_active_range(st.active, key, channel, port);
    let i = find_active(st.active, key, channel, port);
    if i >= 0 {
        let c = close_note(st, key, channel, port, track);
        assert(active_ok(st.active[i], st.tick));
        assert forall|j: int| 0 <= j < c.active.len() implies active_ok(#[trigger] c.active[j], c.tick) by {
            if j < i {
                assert(c.active[j] == st.active[j]);
            } else {
                assert(c.active[j] == st.active[j + 1]);
            }
        }
        assert forall|j: int| 0 <= j < c.rects.len() implies rect_ok(#[trigger] c.rects[j]) by {
            if j < st.rects.len() {
                assert(c.rects[j] == st.rects[j]);
            }
        }
    }
}

proof fn lemma_scan_event_ok(st: TrackScan, e: SmfEventModel, track: usize)
    requires
        scan_ok(st),
        event_ok(e),
        st.tick + e.delta <= u64::MAX,
    ensures
        scan_ok(scan_event(st, e, track)),
        scan_event(st, e, track).tick == st.tick + e.delta,
{
    let st2 = TrackScan { tick: (st.tick + e.delta) as u64, ..st };
    assert forall|i: int| 0 <= i < st2.active.len() implies active_ok(#[trigger] st2.active[i], st2.tick) by {
        assert(active_ok(st.active[i], st.tick));
    }
    assert(scan_ok(st2));
    match e.kind {
        KindModel::Midi { channel, message } => {
            let port = st2.current_port;
            match message {
                ChannelMessage::NoteOn { key, vel } => {
                    lemma_close_note_ok(st2, key, channel, port, track);
                    let c = close_note(st2, key, channel, port, track);
                    if vel != 0 {
                        let n = ActiveNote { key, channel, port, start: c.tick, vel };
                        let a2 = c.active.push(n);
                        assert forall|i: int| 0 <= i < a2.len() implies active_ok(#[trigger] a2[i], c.tick) by {
                            if i < c.active.len() {
                                assert(a2[i] == c.active[i]);
                            }
                        }
                    }
                },
                ChannelMessage::NoteOff { key, .. } => {
                    lemma_close_note_ok(st2, key, channel, port, track);
                },
                _ => {},
            }
        },
        _ => {},
    }
}

proof fn lemma_scan_events_ok(st: TrackScan, s: Seq<SmfEventModel>, track: usize)
    requires
        scan_ok(st),
        forall|i: int| 0 <= i < s.len() ==> event_ok(#[trigger] s[i]),
        st.tick + delta_sum(s) <= u64::MAX,
    ensures
        scan_ok(scan_events(st, s, track)),
        scan_events(st, s, track).tick == st.tick + delta_sum(s),
    decreases s.len(),
{
    if s.len() > 0 {
        let init = s.drop_last();
        assert forall|i: int| 0 <= i < init.len() implies event_ok(#[trigger] init[i]) by {
            assert(init[i] == s[i]);
        }
        lemma_scan_events_ok(st, init, track);
        assert(event_ok(s[s.len() - 1]));
        lemma_scan_event_ok(scan_events(st, init, track), s.last(), track);
    }
}

proof fn lemma_scan_tracks_ok(tracks: Seq<Seq<SmfEventModel>>)
    requires
        forall|t: int, i: int|
            0 <= t < tracks.len() && 0 <= i < tracks[t].len() ==> event_ok(#[trigger] tracks[t][i]),
        forall|t: int| 0 <= t < tracks.len() ==> delta_sum(#[trigger] tracks[t]) <= u64::MAX,
    ensures
        forall|i: int|
            0 <= i < scan_tracks(tracks).rects.len() ==> rect_ok(#[trigger] scan_tracks(tracks).rects[i]),
    decreases tracks.len(),
{
    if tracks.len() > 0 {
        let init = tracks.drop_last();
        assert forall|t: int, i: int| 0 <= t < init.len() && 0 <= i < init[t].len() implies event_ok(
            #[trigger] init[t][i],
        ) by {
            assert(init[t] == tracks[t]);
        }
        assert forall|t: int| 0 <= t < init.len() implies delta_sum(#[trigger] init[t]) <= u64::MAX by {
            assert(init[t] == tracks[t]);
        }
        lemma_scan_tracks_ok(init);
        let fs = scan_tracks(init);
        let idx = (tracks.len() - 1) as usize;
        let last = tracks.last();
        assert(last == tracks[tracks.len() - 1]);
        assert forall|i: int| 0 <= i < last.len() implies event_ok(#[trigger] last[i]) by {
            assert(event_ok(tracks[tracks.len() - 1][i]));
        }
        let start = track_start(fs.used, fs.max_port);
        lemma_scan_events_ok(start, last, idx);
        let st = scan_events(start, last, idx);
        let closing = close_all(st.active, st.tick, idx);
        assert forall|i: int| 0 <= i < closing.len() implies rect_ok(#[trigger] closing[i]) by {
            assert(active_ok(st.active[i], st.tick));
        }
        let all = fs.rects + st.rects + closing;
        assert(scan_tracks(tracks).rects == all);
        assert forall|i: int| 0 <= i < all.len() implies rect_ok(#[trigger] all[i]) by {
            if i < fs.rects.len() {
                assert(all[i] == fs.rects[i]);
            } else if i < fs.rects.len() + st.rects.len() {
                assert(all[i] == st.rects[i - fs.rects.len()]);
            } else {
                assert(all[i] == closing[i - fs.rects.len() - st.rects.len()]);
            }
        }
    }
}

/// The state of [`TrackScan`] held in executable form.
struct TrackReader {
    tick: u64,
    name: String,
    note_count: u32,
    counts: [u32; 16],
    programs: [Option<u8>; 16],
    current_port: u8,
    track_port: u8,
    port_set: bool,
    active: Vec<ActiveNote>,
    events: Vec<TimedMidiEvent>,
    rects: Vec<NoteRect>,
    used: u64,
    max_port: u8,
}

impl TrackReader {
    spec fn model(&self) -> TrackScan {
        TrackScan {
            tick: self.tick,
            name: self.name@,
            note_count: self.note_count,
            counts: self.counts@,
            programs: self.programs@,
            current_port: self.current_port,
            track_port: self.track_port,
            port_set: self.port_set,
            active: self.active@,
            events: event_models(self.events@),
            rects: self.rects@,
            used: self.used,
            max_port: self.max_port,
        }
    }

    /// Ranges kept while reading: ports at most 3, per-channel counts within
    /// the note count, events in tick order up to the current tick.
    spec fn sane(&self) -> bool {
        &&& self.current_port <= 3
        &&& self.track_port <= 3
        &&& self.max_port <= 3
        &&& forall|c: int| 0 <= c < 16 ==> #[trigger] self.counts@[c] <= self.note_count
        &&& sorted_by_key(event_models(self.events@), tick_key())
        &&& forall|q: int| 0 <= q < self.events@.len() ==> (#[trigger] self.events@[q]).tick <= self.tick
    }

    fn new(used: u64, max_port: u8) -> (r: Self)
        requires
            max_port <= 3,
        ensures
            r.model() == track_start(used, max_port),
            r.sane(),
    {
        let r = TrackReader {
            tick: 0,
            name: String::new(),
            note_count: 0,
            counts: [0u32; 16],
            programs: [None; 16],
            current_port: 0,
            track_port: 0,
            port_set: false,
            active: Vec::new(),
            events: Vec::new(),
            rects: Vec::new(),
            used,
            max_port,
        };
        assert(r.counts@ =~= Seq::new(16, |i: int| 0u32));
        assert(r.programs@ =~= Seq::new(16, |i: int| None::<u8>));
        assert(event_models(r.events@) =~= Seq::<TimedEventModel>::empty());
        r
    }

    fn emit(&mut self, event: MidiEvent, track: usize)
        requires
            old(self).sane(),
        ensures
            final(self).model() == emit(old(self).model(), event@, track),
            final(self).sane(),
    {
        let ghost before = event_models(self.events@);
        let e = TimedMidiEvent { tick: self.tick, event, track };
        self.events.push(e);
        proof {
            assert(event_models(self.events@) =~= before.push(e@));
        }
    }

    /// Releases the note on (key, channel, port), if one sounds.
    fn close_note(&mut self, key: u8, channel: u8, port: u8, track: usize)
        requires
            old(self).sane(),
        ensures
            final(self).model() == close_note(old(self).model(), key, channel, port, track),
            final(self).sane(),
    {
        let ghost a = self.active@;
        let mut i: usize = self.active.len();
        assert(a.take(i as int) =~= a);
        while i > 0 && !(self.active[i - 1].key == key && self.active[i - 1].channel == channel
            && self.active[i - 1].port == port)
            invariant
                i <= self.active@.len(),
                a == self.active@,
                find_active(a, key, channel, port) == find_active(a.take(i as int), key, channel, port),
            decreases i,
        {
            assert(a.take(i as int).drop_last() =~= a.take(i as int - 1));
            i = i - 1;
        }
        proof {
            assert(a.take(a.len() as int) =~= a);
            if i > 0 {
                assert(a.take(i as int).drop_last() =~= a.take(i as int - 1));
            }
        }
        if i > 0 {
            let n = self.active.remove(i - 1);
            self.rects.push(
                NoteRect {
                    key,
                    channel,
                    port,
                    start_tick: n.start,
                    end_tick: self.tick,
                    velocity: n.vel,
                    track,
                },
            );
        }
    }

    /// A channel message at the current tick.
    fn midi(&mut self, ch: u8, m: ChannelMessage, track: usize)
        requires
            old(self).sane(),
            ch < 16,
            old(self).note_count < u32::MAX,
        ensures
            final(self).model() == scan_midi(old(self).model(), ch, m, track),
            final(self).sane(),
    {
        let port = self.current_port;
        match m {
            ChannelMessage::NoteOn { key, vel } => {
                if vel == 0 {
                    self.close_note(key, ch, port, track);
                    self.emit(MidiEvent::NoteOff { port, channel: ch, key }, track);
                } else {
                    self.close_note(key, ch, port, track);
                    let start = self.tick;
                    self.active.push(ActiveNote { key, channel: ch, port, start, vel });
                    self.note_count = self.note_count + 1;
                    let c = self.counts[ch as usize];
                    assert(self.counts@[ch as int] <= self.note_count);
                    self.counts[ch as usize] = c + 1;
                    assert((port as u64) * 16 + (ch as u64) < 64);
                    self.used = self.used | (1u64 << ((port as u64) * 16 + ch as u64));
                    self.emit(MidiEvent::NoteOn { port, channel: ch, key, vel }, track);
                }
            },
            ChannelMessage::NoteOff { key, .. } => {
                self.close_note(key, ch, port, track);
                self.emit(MidiEvent::NoteOff { port, channel: ch, key }, track);
            },
            ChannelMessage::ProgramChange { program } => {
                self.programs[ch as usize] = Some(program);
                self.emit(MidiEvent::ProgramChange { port, channel: ch, program }, track);
            },
            ChannelMessage::Controller { controller, value } => {
                self.emit(MidiEvent::ControlChange { port, channel: ch, controller, value }, track);
            },
            ChannelMessage::PitchBend { bend } => {
                self.emit(MidiEvent::PitchBend { port, channel: ch, value: bend }, track);
            },
            ChannelMessage::Aftertouch { key, vel } => {
                self.emit(
                    MidiEvent::PolyAftertouch { port, channel: ch, key, pressure: vel },
                    track,
                );
            },
            ChannelMessage::ChannelAftertouch { vel } => {
                self.emit(MidiEvent::ChannelAftertouch { port, channel: ch, pressure: vel }, track);
            },
        }
    }

    /// A meta event at the current tick.
    fn meta(&mut self, m: &MetaEvent, track: usize)
        requires
            old(self).sane(),
        ensures
            final(self).model() == scan_meta(old(self).model(), m@, track),
            final(self).sane(),
    {
        match m {
            MetaEvent::TrackName(b) => {
                if let Some(text) = utf8_str(b.as_slice()) {
                    self.name = trim_str(text).to_owned();
                }
            },
            MetaEvent::Tempo(us) => {
                self.emit(MidiEvent::TempoChange(*us), track);
            },
            MetaEvent::TimeSignature(num, den, _, _) => {
                self.emit(MidiEvent::TimeSignature { numerator: *num, denominator: *den }, track);
            },
            MetaEvent::MidiPort(p) => {
                let cur: u8 = if *p < 3 {
                    *p
                } else {
                    3
                };
                self.current_port = cur;
                if !self.port_set {
                    self.track_port = cur;
                    self.port_set = true;
                }
                if cur > self.max_port {
                    self.max_port = cur;
                }
            },
            MetaEvent::Other => {},
        }
    }

    /// One track event.
    fn event(&mut self, e: &SmfEvent, track: usize)
        requires
            old(self).sane(),
            event_ok(e@),
            old(self).tick + e.delta <= u64::MAX,
            old(self).note_count < u32::MAX,
        ensures
            final(self).model() == scan_event(old(self).model(), e@, track),
            final(self).sane(),
    {
        self.tick = self.tick + e.delta as u64;
        match &e.kind {
            SmfEventKind::Midi { channel, message } => {
                self.midi(*channel, *message, track);
            },
            SmfEventKind::SysEx(d) => {
                let copy = d.clone();
                assert(copy@ =~= d@);
                self.emit(MidiEvent::SysEx(copy), track);
            },
            SmfEventKind::Escape => {},
            SmfEventKind::Meta(m) => {
                self.meta(m, track);
            },
        }
    }
}

proof fn lemma_delta_sum_prefix(s: Seq<SmfEventModel>, i: int)
    requires
        0 <= i <= s.len(),
        forall|k: int| 0 <= k < s.len() ==> event_ok(#[trigger] s[k]),
    ensures
        delta_sum(s.take(i)) <= delta_sum(s),
        delta_sum(s.take(i)) >= 0,
    decreases s.len(),
{
    if s.len() == 0 {
        assert(s.take(i) =~= s);
    } else if i == s.len() {
        assert(s.take(i) =~= s);
        lemma_delta_sum_prefix(s.drop_last(), i - 1);
        assert(s.drop_last().take(i - 1) =~= s.drop_last());
    } else {
        assert(forall|k: int| 0 <= k < s.drop_last().len() ==> event_ok(#[trigger] s.drop_last()[k])) by {
            assert forall|k: int| 0 <= k < s.drop_last().len() implies event_ok(#[trigger] s.drop_last()[k]) by {
                assert(s.drop_last()[k] == s[k]);
            }
        }
        lemma_delta_sum_prefix(s.drop_last(), i);
        assert(s.drop_last().take(i) =~= s.take(i));
    }
}

/// Reads one track.
fn read_track(events: &Vec<SmfEvent>, track: usize, used: u64, max_port: u8) -> (r: TrackReader)
    requires
        max_port <= 3,
        events@.len() <= u32::MAX,
        delta_sum(track_model(events@)) <= u64::MAX,
        forall|k: int| 0 <= k < events@.len() ==> event_ok(#[trigger] track_model(events@)[k]),
    ensures
        r.model() == scan_events(track_start(used, max_port), track_model(events@), track),
        r.sane(),
{
    let ghost s = track_model(events@);
    let mut reader = TrackReader::new(used, max_port);
    let mut i: usize = 0;
    assert(s.take(0) =~= Seq::<SmfEventModel>::empty());
    while i < events.len()
        invariant
            s == track_model(events@),
            i <= events@.len(),
            events@.len() <= u32::MAX,
            delta_sum(s) <= u64::MAX,
            forall|k: int| 0 <= k < s.len() ==> event_ok(#[trigger] s[k]),
            reader.sane(),
            reader.model() == scan_events(track_start(used, max_port), s.take(i as int), track),
            reader.note_count <= i,
            reader.tick == delta_sum(s.take(i as int)),
        decreases events@.len() - i,
    {
        proof {
            assert(s.take(i as int + 1).drop_last() =~= s.take(i as int));
            assert(s.take(i as int + 1).last() == s[i as int]);
            assert(s[i as int] == events@[i as int]@);
            lemma_delta_sum_prefix(s, i as int + 1);
        }
        reader.event(&events[i], track);
        i = i + 1;
    }
    assert(s.take(events@.len() as int) =~= s);
    reader
}

/// The channel with the most notes (the highest on a tie), if any.
fn primary_channel_of(counts: &[u32; 16]) -> (r: Option<u8>)
    ensures
        r == primary_channel(counts@),
        r matches Some(c) ==> c < 16,
{
    let mut best: usize = 0;
    let mut c: usize = 1;
    while c < 16
        invariant
            1 <= c <= 16,
            best < c,
            best == last_max_index(counts@, c as int),
        decreases 16 - c,
    {
        if counts[c] >= counts[best] {
            best = c;
        }
        c = c + 1;
    }
    if counts[best] > 0 {
        Some(best as u8)
    } else {
        None
    }
}

/// Metadata of a track after reading it.
fn make_track_info(reader: TrackReader, index: usize) -> (r: TrackInfo)
    requires
        reader.sane(),
    ensures
        r@ == track_info(reader.model(), index),
        r.port <= 3,
{
    let channel = primary_channel_of(&reader.counts);
    let program = match channel {
        Some(c) => reader.programs[c as usize],
        None => None,
    };
    TrackInfo {
        index,
        name: reader.name,
        channel,
        port: reader.track_port,
        program,
        note_count: reader.note_count,
        channel_note_counts: reader.counts,
        channel_programs: reader.programs,
    }
}

/// First tempo at each tick of a tick-ordered event list.
fn collect_tempo_changes(events: &Vec<TimedMidiEvent>) -> (r: Vec<(u64, u32)>)
    ensures
        r@ == tempo_changes(event_models(events@)),
{
    let ghost s = event_models(events@);
    let mut out: Vec<(u64, u32)> = Vec::new();
    let mut i: usize = 0;
    assert(s.take(0) =~= Seq::<TimedEventModel>::empty());
    while i < events.len()
        invariant
            s == event_models(events@),
            i <= events@.len(),
            out@ == tempo_changes(s.take(i as int)),
        decreases events@.len() - i,
    {
        proof {
            assert(s.take(i as int + 1).drop_last() =~= s.take(i as int));
            assert(s.take(i as int + 1).last() == events@[i as int]@);
        }
        match &events[i].event {
            MidiEvent::TempoChange(us) => {
                let tick = events[i].tick;
                if out.len() == 0 || out[out.len() - 1].0 != tick {
                    out.push((tick, *us));
                }
            },
            _ => {},
        }
        i = i + 1;
    }
    assert(s.take(events@.len() as int) =~= s);
    out
}

/// What the player makes of a decoded file: the data and the tempo changes
/// (first tempo at each tick, in tick order). Files with SMPTE timecode are
/// refused.
///
/// Events of all tracks are ordered by tick, ties in track order and then
/// file order; note rectangles by start tick, ties in the order the notes
/// were released (notes still sounding at the end of a track are released
/// there, oldest first).
pub fn build_midi_data(file: &SmfFile) -> (r: Result<(MidiData, Vec<(u64, u32)>), ParseError>)
    requires
        smf_ok(file@),
        tracks_fit(file@),
    ensures
        file.ticks_per_quarter is None ==> r == Err::<(MidiData, Vec<(u64, u32)>), ParseError>(
            ParseError::TimecodeUnsupported,
        ),
        file.ticks_per_quarter matches Some(tpq) ==> r matches Ok(ok) && midi_data_of(
            ok.0,
            file@,
            tpq,
        ) && ok.1@ == tempo_changes(event_models(ok.0.events@)),
{
    let tpq = match file.ticks_per_quarter {
        Some(t) => t,
        None => return Err(ParseError::TimecodeUnsupported),
    };
    let ghost m = file@;
    let mut merged: Vec<TimedMidiEvent> = Vec::new();
    let mut all_rects: Vec<NoteRect> = Vec::new();
    let mut infos: Vec<TrackInfo> = Vec::new();
    let mut used: u64 = 0;
    let mut max_port: u8 = 0;
    let n = file.tracks.len();
    let mut t: usize = 0;
    assert(m.tracks.take(0) =~= Seq::<Seq<SmfEventModel>>::empty());
    assert(event_models(merged@) =~= Seq::<TimedEventModel>::empty());
    assert(infos@.map_values(|i: TrackInfo| i@) =~= Seq::<TrackInfoModel>::empty());
    while t < n
        invariant
            m == file@,
            n == file.tracks@.len(),
            smf_ok(m),
            tracks_fit(m),
            t <= n,
            max_port <= 3,
            stable_sorted(
                event_models(merged@),
                scan_tracks(m.tracks.take(t as int)).events,
                tick_key(),
            ),
            all_rects@ == scan_tracks(m.tracks.take(t as int)).rects,
            infos@.map_values(|i: TrackInfo| i@) == scan_tracks(m.tracks.take(t as int)).infos,
            used == scan_tracks(m.tracks.take(t as int)).used,
            max_port == scan_tracks(m.tracks.take(t as int)).max_port,
            forall|i: int| 0 <= i < infos@.len() ==> #[trigger] infos@[i].port <= 3,
        decreases n - t,
    {
        let ghost fs = scan_tracks(m.tracks.take(t as int));
        let ghost tm = m.tracks[t as int];
        proof {
            assert(m.tracks.take(t as int + 1).drop_last() =~= m.tracks.take(t as int));
            assert(m.tracks.take(t as int + 1).last() == tm);
            assert(tm == track_model(file.tracks@[t as int]@));
            assert(tm.len() <= u32::MAX && delta_sum(tm) <= u64::MAX) by {
                assert(m.tracks[t as int] == tm);
            }
            assert forall|k: int| 0 <= k < file.tracks@[t as int]@.len() implies event_ok(
                #[trigger] track_model(file.tracks@[t as int]@)[k],
            ) by {
                assert(event_ok(m.tracks[t as int][k]));
            }
        }
        let mut reader = read_track(&file.tracks[t], t, used, max_port);
        let ghost st = reader.model();
        // Notes still sounding end with the track.
        let mut closing: Vec<NoteRect> = Vec::new();
        let mut k: usize = 0;
        while k < reader.active.len()
            invariant
                k <= reader.active@.len(),
                closing@ == close_all(reader.active@.take(k as int), reader.tick, t),
            decreases reader.active@.len() - k,
        {
            let a = reader.active[k];
            closing.push(
                NoteRect {
                    key: a.key,
                    channel: a.channel,
                    port: a.port,
                    start_tick: a.start,
                    end_tick: reader.tick,
                    velocity: a.vel,
                    track: t,
                },
            );
            k = k + 1;
            assert(closing@ =~= close_all(reader.active@.take(k as int), reader.tick, t));
        }
        assert(reader.active@.take(reader.active@.len() as int) =~= reader.active@);
        let new_merged = merge_events(&merged, &reader.events);
        proof {
            lemma_sorted_self(event_models(reader.events@), tick_key());
            lemma_merge_stable(
                event_models(new_merged@),
                event_models(merged@),
                event_models(reader.events@),
                fs.events,
                st.events,
                tick_key(),
            );
        }
        merged = new_merged;
        all_rects.append(&mut reader.rects);
        all_rects.append(&mut closing);
        used = reader.used;
        max_port = reader.max_port;
        let ghost old_infos = infos@;
        let info = make_track_info(reader, t);
        infos.push(info);
        proof {
            assert(infos@.map_values(|i: TrackInfo| i@) =~= old_infos.map_values(|i: TrackInfo| i@).push(info@));
        }
        t = t + 1;
    }
    assert(m.tracks.take(n as int) =~= m.tracks);
    let note_rects = sort_rects(all_rects.as_slice());
    proof {
        assert forall|q: int| 0 <= q < m.tracks.len() implies delta_sum(#[trigger] m.tracks[q])
            <= u64::MAX by {
            assert(tracks_fit(m));
        }
        lemma_scan_tracks_ok(m.tracks);
        assert forall|i: int| 0 <= i < note_rects@.len() implies rect_ok(#[trigger] note_rects@[i]) by {
            lemma_stable_sorted_from(note_rects@, all_rects@, start_key(), i);
            let j = choose|j: int| 0 <= j < all_rects@.len() && all_rects@[j] == note_rects@[i];
            assert(rect_ok(all_rects@[j]));
        }
    }
    let total_ticks = if merged.len() == 0 {
        0
    } else {
        merged[merged.len() - 1].tick
    };
    let tempo = collect_tempo_changes(&merged);
    let data = MidiData {
        ticks_per_quarter: tpq,
        format: file.format,
        events: merged,
        note_rects,
        tracks: infos,
        total_ticks,
        used_channels: used,
        port_count: max_port + 1,
    };
    Ok((data, tempo))
}

/// Whether every track's length and total time fit the counters.
fn tracks_fit_check(file: &SmfFile) -> (r: bool)
    requires
        smf_ok(file@),
    ensures
        r == tracks_fit(file@),
{
    let ghost m = file@;
    let mut t: usize = 0;
    while t < file.tracks.len()
        invariant
            m == file@,
            smf_ok(m),
            t <= file.tracks@.len(),
            forall|q: int|
                0 <= q < t ==> (#[trigger] m.tracks[q]).len() <= u32::MAX && delta_sum(m.tracks[q])
                    <= u64::MAX,
        decreases file.tracks@.len() - t,
    {
        let track = &file.tracks[t];
        let ghost s = m.tracks[t as int];
        assert(s == track_model(track@));
        if track.len() > 0xFFFF_FFFF {
            return false;
        }
        let mut sum: u64 = 0;
        let mut i: usize = 0;
        assert(s.take(0) =~= Seq::<SmfEventModel>::empty());
        while i < track.len()
            invariant
                s == track_model(track@),
                m == file@,
                t < m.tracks.len(),
                s == m.tracks[t as int],
                i <= track@.len(),
                sum == delta_sum(s.take(i as int)),
                forall|k: int| 0 <= k < s.len() ==> event_ok(#[trigger] s[k]),
            decreases track@.len() - i,
        {
            proof {
                assert(s.take(i as int + 1).drop_last() =~= s.take(i as int));
                assert(s.take(i as int + 1).last() == track@[i as int]@);
            }
            let d = track[i].delta as u64;
            if sum > u64::MAX - d {
                proof {
                    assert(s[i as int] == track@[i as int]@);
                    lemma_delta_sum_prefix(s, i as int + 1);
                    assert(delta_sum(s.take(i as int + 1)) == sum + d);
                    assert(delta_sum(m.tracks[t as int]) > u64::MAX);
                }
                return false;
            }
            sum = sum + d;
            i = i + 1;
        }
        assert(s.take(track@.len() as int) =~= s);
        t = t + 1;
    }
    true
}

/// Parses a Standard MIDI File into the player's data and its tempo changes.
///
/// Fails with `Malformed` when the decoder rejects the bytes, with
/// `TimecodeUnsupported` for SMPTE timing, and with `TooLong` when a track
/// holds more events or ticks than the counters can hold.
pub fn parse_midi(bytes: &[u8]) -> (r: Result<(MidiData, Vec<(u64, u32)>), ParseError>)
    ensures
        midly_parse(bytes@) is None ==> r == Err::<(MidiData, Vec<(u64, u32)>), ParseError>(
            ParseError::Malformed,
        ),
        midly_parse(bytes@) matches Some(m) ==> {
            &&& m.ticks_per_quarter is None ==> r == Err::<(MidiData, Vec<(u64, u32)>), ParseError>(
                ParseError::TimecodeUnsupported,
            )
            &&& (m.ticks_per_quarter is Some && !tracks_fit(m)) ==> r == Err::<
                (MidiData, Vec<(u64, u32)>),
                ParseError,
            >(ParseError::TooLong)
            &&& tracks_fit(m) ==> (m.ticks_per_quarter matches Some(tpq) ==> (r matches Ok(ok)
                && midi_data_of(ok.0, m, tpq) && ok.1@ == tempo_changes(
                event_models(ok.0.events@),
            )))
        },
{
    let file = match decode_smf(bytes) {
        Ok(f) => f,
        Err(e) => return Err(e),
    };
    if file.ticks_per_quarter.is_none() {
        return Err(ParseError::TimecodeUnsupported);
    }
    if !tracks_fit_check(&file) {
        return Err(ParseError::TooLong);
    }
    build_midi_data(&file)
}

} // verus!
