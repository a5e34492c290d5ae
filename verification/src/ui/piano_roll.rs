//! Piano roll: note classification against the playhead, sounding keys and
//! key names.

use vstd::prelude::*;
use crate::midi::event::NoteRect;

verus! {

/// How a note is drawn relative to the playback position.
#[derive(Debug, Clone, Copy, PartialEq, Eq)]
pub enum NoteState {
    /// Muted channel: outline only, regardless of playback position.
    Muted,
    /// Currently sounding (`start <= tick < end`).
    Sounding,
    /// Already played (`end <= tick`).
    Finished,
    /// Not yet reached.
    Upcoming,
}

/// Classifies a note spanning `[start_tick, end_tick)` at `tick`.
pub fn note_state(start_tick: u64, end_tick: u64, tick: u64, muted: bool) -> (r: NoteState)
    ensures
        r == (if muted {
            NoteState::Muted
        } else if start_tick <= tick && tick < end_tick {
            NoteState::Sounding
        } else if end_tick <= tick {
            NoteState::Finished
        } else {
            NoteState::Upcoming
        }),
{
    if muted {
        NoteState::Muted
    } else if start_tick <= tick && tick < end_tick {
        NoteState::Sounding
    } else if end_tick <= tick {
        NoteState::Finished
    } else {
        NoteState::Upcoming
    }
}

/// A note a keyboard can show: key below 128 on one of the 64 flat channels.
pub open spec fn note_ok(n: NoteRect) -> bool {
    n.key < 128 && n.port * 16 + n.channel < 64
}

/// First index at or after `from` whose note starts after `tick` (the
/// length when none): later notes are not looked at.
pub open spec fn scan_stop(notes: Seq<NoteRect>, from: int, tick: u64) -> int
    decreases notes.len() - from,
{
    if from >= notes.len() {
        notes.len() as int
    } else if notes[from].start_tick > tick {
        from
    } else {
        scan_stop(notes, from + 1, tick)
    }
}

/// Per key: start of the winning note and its channel.
pub struct KeyScan {
    pub latest: Seq<u64>,
    pub result: Seq<Option<u8>>,
}

/// One note: if it sounds at `tick` on an unmuted channel it takes its key
/// when the key is free, when it started later than the key's note, or when
/// it started at the same tick on a lower channel.
pub open spec fn key_scan_step(acc: KeyScan, n: NoteRect, tick: u64, muted: u64) -> KeyScan {
    if n.end_tick <= tick || muted & (1u64 << ((n.port as u64) * 16 + n.channel as u64)) != 0 {
        acc
    } else {
        let k = n.key as int;
        let wins = match acc.result[k] {
            None => true,
            Some(e) => n.start_tick > acc.latest[k] || (n.start_tick == acc.latest[k] && n.channel
                < e),
        };
        if wins {
            KeyScan {
                latest: acc.latest.update(k, n.start_tick),
                result: acc.result.update(k, Some(n.channel)),
            }
        } else {
            acc
        }
    }
}

/// Scan of the notes in `[from, to)`.
pub open spec fn key_scan(notes: Seq<NoteRect>, from: int, to: int, tick: u64, muted: u64) -> KeyScan
    decreases to - from,
{
    if to <= from {
        KeyScan { latest: Seq::new(128, |i: int| 0u64), result: Seq::new(128, |i: int| None::<u8>) }
    } else {
        key_scan_step(key_scan(notes, from, to - 1, tick, muted), notes[to - 1], tick, muted)
    }
}

proof fn lemma_key_scan_len(notes: Seq<NoteRect>, from: int, to: int, tick: u64, muted: u64)
    requires
        0 <= from,
        to <= notes.len(),
        forall|i: int| from <= i < to ==> note_ok(#[trigger] notes[i]),
    ensures
        key_scan(notes, from, to, tick, muted).latest.len() == 128,
        key_scan(notes, from, to, tick, muted).result.len() == 128,
    decreases to - from,
{
    if to > from {
        lemma_key_scan_len(notes, from, to - 1, tick, muted);
    }
}

/// Whether note `n` sounds at `tick` on a channel not set in `muted`.
pub open spec fn sounds_unmuted(n: NoteRect, tick: u64, muted: u64) -> bool {
    n.start_tick <= tick && tick < n.end_tick && muted & (1u64 << ((n.port as u64) * 16
        + n.channel as u64)) == 0
}

/// What the scan of `[from, to)` says of key `k`: a channel only when some
/// note in the range on that key, on that channel, lasts past `tick` on an
/// unmuted channel and started at the recorded start, the latest such start;
/// no channel when no note in the range on that key lasts past `tick`
/// unmuted.
proof fn lemma_key_scan_sound(notes: Seq<NoteRect>, from: int, to: int, tick: u64, muted: u64, k: int)
    requires
        0 <= from,
        to <= notes.len(),
        0 <= k < 128,
        forall|i: int| from <= i < to ==> note_ok(#[trigger] notes[i]),
    ensures
        ({
            let sc = key_scan(notes, from, to, tick, muted);
            &&& sc.result[k] matches Some(c) ==> exists|i: int|
                from <= i < to && (#[trigger] notes[i]).key == k && notes[i].channel == c
                    && notes[i].end_tick > tick && muted & (1u64 << ((notes[i].port as u64) * 16
                    + notes[i].channel as u64)) == 0 && notes[i].start_tick == sc.latest[k]
            &&& sc.result[k] is Some ==> forall|i: int|
                from <= i < to && (#[trigger] notes[i]).key == k && notes[i].end_tick > tick && muted
                    & (1u64 << ((notes[i].port as u64) * 16 + notes[i].channel as u64)) == 0
                    ==> notes[i].start_tick <= sc.latest[k]
            &&& sc.result[k] is None ==> forall|i: int|
                from <= i < to && (#[trigger] notes[i]).key == k ==> notes[i].end_tick <= tick || muted
                    & (1u64 << ((notes[i].port as u64) * 16 + notes[i].channel as u64)) != 0
        }),
    decreases to - from,
{
    lemma_key_scan_len(notes, from, to, tick, muted);
    if to > from {
        lemma_key_scan_sound(notes, from, to - 1, tick, muted, k);
        lemma_key_scan_len(notes, from, to - 1, tick, muted);
        let prev = key_scan(notes, from, to - 1, tick, muted);
        let sc = key_scan(notes, from, to, tick, muted);
        let n = notes[to - 1];
        if n.key as int == k {
            if sc.result[k] is Some {
                if prev.result[k] != sc.result[k] || prev.latest[k] != sc.latest[k] {
                    assert(sc.result[k] == Some(n.channel));
                    assert(sc.latest[k] == n.start_tick);
                    if let Some(c0) = prev.result[k] {
                        let w = choose|i: int|
                            from <= i < to - 1 && (#[trigger] notes[i]).key == k && notes[i].channel
                                == c0 && notes[i].end_tick > tick && muted & (1u64 << ((notes[i].port
                                as u64) * 16 + notes[i].channel as u64)) == 0 && notes[i].start_tick
                                == prev.latest[k];
                    }
                }
            }
        } else {
            assert(sc.result[k] == prev.result[k]);
            assert(sc.latest[k] == prev.latest[k]);
        }
        if let Some(c) = sc.result[k] {
            if sc.result[k] == prev.result[k] && sc.latest[k] == prev.latest[k] {
                let w = choose|i: int|
                    from <= i < to - 1 && (#[trigger] notes[i]).key == k && notes[i].channel == c
                        && notes[i].end_tick > tick && muted & (1u64 << ((notes[i].port as u64) * 16
                        + notes[i].channel as u64)) == 0 && notes[i].start_tick == prev.latest[k];
                assert(from <= w < to);
            } else {
                assert(notes[to - 1].key == k);
            }
        }
    }
}

/// Notes before the scan stop start no later than `tick`.
proof fn lemma_scan_stop_started(notes: Seq<NoteRect>, from: int, tick: u64)
    requires
        0 <= from <= notes.len(),
    ensures
        from <= scan_stop(notes, from, tick) <= notes.len(),
        forall|i: int| from <= i < scan_stop(notes, from, tick) ==> #[trigger] notes[i].start_tick <= tick,
    decreases notes.len() - from,
{
    if from < notes.len() && notes[from].start_tick <= tick {
        lemma_scan_stop_started(notes, from + 1, tick);
    }
}

/// The keyboard shows a key as sounding on a channel only when a note on
/// that key and channel really sounds at `tick` on an unmuted channel, and
/// of those the one started last; a key with such a note among the scanned
/// notes always shows as sounding.
pub proof fn lemma_sounding_keys_sound(notes: Seq<NoteRect>, scan_start: int, tick: u64, muted: u64, k: int)
    requires
        0 <= scan_start <= notes.len(),
        0 <= k < 128,
        forall|i: int| scan_start <= i < notes.len() ==> note_ok(#[trigger] notes[i]),
    ensures
        ({
            let stop = scan_stop(notes, scan_start, tick);
            let r = key_scan(notes, scan_start, stop, tick, muted).result;
            &&& r[k] matches Some(c) ==> exists|i: int|
                scan_start <= i < stop && (#[trigger] notes[i]).key == k && notes[i].channel == c
                    && sounds_unmuted(notes[i], tick, muted) && forall|j: int|
                    scan_start <= j < stop && (#[trigger] notes[j]).key == k && sounds_unmuted(
                        notes[j],
                        tick,
                        muted,
                    ) ==> notes[j].start_tick <= notes[i].start_tick
            &&& (exists|i: int|
                scan_start <= i < stop && (#[trigger] notes[i]).key == k && sounds_unmuted(
                    notes[i],
                    tick,
                    muted,
                )) ==> r[k] is Some
        }),
{
    lemma_scan_stop_started(notes, scan_start, tick);
    let stop = scan_stop(notes, scan_start, tick);
    lemma_key_scan_sound(notes, scan_start, stop, tick, muted, k);
}

/// For each key, the channel of the note sounding on it at `tick`, scanning
/// `notes` (sorted by start) from `scan_start` until a note starts after
/// `tick`: the latest-started sounding note wins, ties to the lower channel;
/// notes on muted flat channels are ignored.
pub fn sounding_keys(notes: &[NoteRect], scan_start: usize, tick: u64, muted_mask: u64) -> (r: [Option<u8>; 128])
    requires
        scan_start <= notes@.len(),
        forall|i: int| scan_start <= i < notes@.len() ==> note_ok(#[trigger] notes@[i]),
    ensures
        r@ == key_scan(notes@, scan_start as int, scan_stop(notes@, scan_start as int, tick), tick, muted_mask).result,
{
    let mut latest_start = [0u64; 128];
    let mut result: [Option<u8>; 128] = [None; 128];
    let mut i = scan_start;
    assert(latest_start@ =~= Seq::new(128, |i: int| 0u64));
    assert(result@ =~= Seq::new(128, |i: int| None::<u8>));
    while i < notes.len() && notes[i].start_tick <= tick
        invariant
            scan_start <= i <= notes@.len(),
            forall|q: int| scan_start <= q < notes@.len() ==> note_ok(#[trigger] notes@[q]),
            scan_stop(notes@, scan_start as int, tick) == scan_stop(notes@, i as int, tick),
            latest_start@ == key_scan(notes@, scan_start as int, i as int, tick, muted_mask).latest,
            result@ == key_scan(notes@, scan_start as int, i as int, tick, muted_mask).result,
        decreases notes@.len() - i,
    {
        let note = notes[i];
        proof {
            assert(note_ok(notes@[i as int]));
            lemma_key_scan_len(notes@, scan_start as int, i as int, tick, muted_mask);
        }
        if note.end_tick > tick {
            let flat_ch = (note.port as u64) * 16 + note.channel as u64;
            if muted_mask & (1u64 << flat_ch) == 0 {
                let key = note.key as usize;
                let wins = match result[key] {
                    None => true,
                    Some(existing_ch) => note.start_tick > latest_start[key] || (note.start_tick
                        == latest_start[key] && note.channel < existing_ch),
                };
                if wins {
                    latest_start[key] = note.start_tick;
                    result[key] = Some(note.channel);
                }
            }
        }
        i = i + 1;
    }
    result
}

/// Note name of a pitch class (0-11), with sharps.
pub open spec fn pitch_class_name(p: int) -> Seq<char> {
    if p == 0 {
        seq!['C']
    } else if p == 1 {
        seq!['C', '#']
    } else if p == 2 {
        seq!['D']
    } else if p == 3 {
        seq!['D', '#']
    } else if p == 4 {
        seq!['E']
    } else if p == 5 {
        seq!['F']
    } else if p == 6 {
        seq!['F', '#']
    } else if p == 7 {
        seq!['G']
    } else if p == 8 {
        seq!['G', '#']
    } else if p == 9 {
        seq!['A']
    } else if p == 10 {
        seq!['A', '#']
    } else {
        seq!['B']
    }
}

/// Octave of a key: `key as i8 / 12 - 1`, the key read as a signed byte
/// and the division truncating toward zero (middle C, 60, is in octave 4).
pub open spec fn key_octave(key: u8) -> int {
    let s: int = if key < 128 {
        key as int
    } else {
        key - 256
    };
    let q: int = if s >= 0 {
        s / 12
    } else {
        -((-s) / 12)
    };
    q - 1
}

/// Name and octave of a MIDI key.
pub fn key_name_parts(key: u8) -> (r: (&'static str, i8))
    ensures
        r.0@ == pitch_class_name((key % 12) as int),
        r.1 == key_octave(key),
{
    // A key above 127 reads as a negative signed byte; its division
    // truncates toward zero.
    let octave: i8 = if key < 128 {
        (key / 12) as i8 - 1
    } else {
        -(((256u16 - key as u16) / 12) as i8) - 1
    };
    let note = key % 12;
    let name = if note == 0 {
        proof { reveal_strlit("C"); }
        "C"
    } else if note == 1 {
        proof { reveal_strlit("C#"); }
        "C#"
    } else if note == 2 {
        proof { reveal_strlit("D"); }
        "D"
    } else if note == 3 {
        proof { reveal_strlit("D#"); }
        "D#"
    } else if note == 4 {
        proof { reveal_strlit("E"); }
        "E"
    } else if note == 5 {
        proof { reveal_strlit("F"); }
        "F"
    } else if note == 6 {
        proof { reveal_strlit("F#"); }
        "F#"
    } else if note == 7 {
        proof { reveal_strlit("G"); }
        "G"
    } else if note == 8 {
        proof { reveal_strlit("G#"); }
        "G#"
    } else if note == 9 {
        proof { reveal_strlit("A"); }
        "A"
    } else if note == 10 {
        proof { reveal_strlit("A#"); }
        "A#"
    } else {
        proof { reveal_strlit("B"); }
        "B"
    };
    (name, octave)
}

/// Whether a MIDI key is a black key (C#, D#, F#, G#, A#).
pub fn is_black_key(key: u8) -> (r: bool)
    ensures
        r == (key % 12 == 1 || key % 12 == 3 || key % 12 == 6 || key % 12 == 8 || key % 12 == 10),
{
    let p = key % 12;
    p == 1 || p == 3 || p == 6 || p == 8 || p == 10
}

/// `v` clamped to `lo..=hi`.
pub open spec fn clamp_int(v: int, lo: int, hi: int) -> int {
    if v < lo {
        lo
    } else if v > hi {
        hi
    } else {
        v
    }
}

/// The key window shown when the song's keys `lo..=hi` do not all fit:
/// `fit` keys (at least one, at most all), centred on the range and moved by
/// `scroll` semitones but kept inside it. Gives the lowest and highest key
/// shown and the effective scroll, the offset from the centred window.
pub open spec fn key_window_of(lo: int, hi: int, fit: int, scroll: int) -> (int, int, int) {
    let count = hi - lo + 1;
    let visible = clamp_int(fit, 1, count);
    let center = (count - visible) / 2;
    let offset = clamp_int(center + scroll, 0, count - visible);
    (lo + offset, lo + offset + visible - 1, offset - center)
}

/// The keys shown when the range `song_lo..=song_hi` does not fit the
/// piano roll at full size: `fit` is how many key slots of the minimum size
/// fit. Returns the lowest and highest key shown and the effective scroll,
/// which the caller keeps so that scrolling back responds at once.
pub fn key_window(song_lo: u8, song_hi: u8, fit: i32, key_scroll: i32) -> (r: (u8, u8, i32))
    requires
        song_lo <= song_hi,
    ensures
        (r.0 as int, r.1 as int, r.2 as int) == key_window_of(
            song_lo as int,
            song_hi as int,
            fit as int,
            key_scroll as int,
        ),
{
    let song_count: i32 = song_hi as i32 - song_lo as i32 + 1;
    let visible: i32 = if fit < 1 {
        1
    } else if fit > song_count {
        song_count
    } else {
        fit
    };
    let center: i32 = (song_count - visible) / 2;
    let wanted: i64 = center as i64 + key_scroll as i64;
    let span: i32 = song_count - visible;
    let offset: i32 = if wanted < 0 {
        0
    } else if wanted > span as i64 {
        span
    } else {
        wanted as i32
    };
    let lo: u8 = song_lo + offset as u8;
    let hi: u8 = lo + (visible - 1) as u8;
    (lo, hi, offset - center)
}

/// Applying the effective scroll again shows the same window: overshoot is
/// dropped, not carried.
pub proof fn lemma_key_window_settles(lo: int, hi: int, fit: int, scroll: int)
    requires
        0 <= lo <= hi,
    ensures
        key_window_of(lo, hi, fit, key_window_of(lo, hi, fit, scroll).2) == key_window_of(
            lo,
            hi,
            fit,
            scroll,
        ),
{
}

/// After an overshoot is clamped away, one step back moves the window at
/// once, unless it already sits at that end of the range.
pub proof fn lemma_key_window_reverses(lo: int, hi: int, fit: int, scroll: int)
    requires
        0 <= lo <= hi,
        key_window_of(lo, hi, fit, scroll).0 > lo,
    ensures
        key_window_of(lo, hi, fit, key_window_of(lo, hi, fit, scroll).2 - 1).0 == key_window_of(
            lo,
            hi,
            fit,
            scroll,
        ).0 - 1,
{
}

} // verus!
