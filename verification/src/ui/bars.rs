//! Bar/beat map: converts MIDI ticks to (bar, beat) and back, built once per
//! MIDI load from `TimeSignature` events. Default 4/4 from tick 0 when a
//! song carries no time-signature meta events.

use vstd::prelude::*;
use vstd::arithmetic::div_mod::*;
use vstd::arithmetic::power2::{lemma2_to64, pow2};
use vstd::bits::lemma_u64_shr_is_div;
use crate::midi::event::{EventModel, MidiEvent, TimedMidiEvent};

verus! {

/// Largest ticks-per-beat any signature can produce (`4 * u16::MAX`).
pub const MAX_BEAT_TICKS: u64 = 262140;

/// Largest tick bound accepted by [`BarMap::lines_in`]: `u64::MAX - MAX_BEAT_TICKS`,
/// so that stepping one beat past it cannot overflow.
pub const MAX_GRID_TICK: u64 = 0xFFFF_FFFF_FFFC_0003;

/// One time-signature-stable stretch of the song: everything from
/// `start_tick` up to the next segment's `start_tick` (or the end of the
/// song) shares `ticks_per_bar`/`ticks_per_beat`, with bar numbering
/// continuing from `bar_at_start`.
#[derive(Debug, Clone, Copy, PartialEq, Eq)]
pub struct Segment {
    pub start_tick: u64,
    /// 1-based bar number at `start_tick`.
    pub bar_at_start: u32,
    pub ticks_per_bar: u64,
    pub ticks_per_beat: u64,
}

/// Number of bars started in `delta` ticks of bars `len` ticks long, counting
/// a trailing partial bar.
pub open spec fn bars_spanned(delta: int, len: int) -> int {
    delta / len + (if delta % len != 0 { 1int } else { 0int })
}

/// Shape of a single segment: positive beat, bar a whole number (1-255) of beats.
pub open spec fn segment_ok(g: Segment) -> bool {
    &&& 1 <= g.ticks_per_beat <= MAX_BEAT_TICKS
    &&& g.ticks_per_beat <= g.ticks_per_bar <= g.ticks_per_beat * 255
    &&& g.bar_at_start >= 1
}

/// Well-formedness of a segment list: starts at tick 0 in bar 1, strictly
/// increasing start ticks, and bar numbering continuing across segments.
pub open spec fn segments_wf(s: Seq<Segment>) -> bool {
    &&& s.len() >= 1
    &&& s[0].start_tick == 0
    &&& s[0].bar_at_start == 1
    &&& forall|i: int| 0 <= i < s.len() ==> segment_ok(#[trigger] s[i])
    &&& forall|i: int, j: int| 0 <= i < j < s.len() ==> s[i].start_tick < s[j].start_tick
    &&& forall|i: int|
        0 <= i < s.len() - 1 ==> (#[trigger] s[i + 1]).bar_at_start == s[i].bar_at_start
            + bars_spanned(s[i + 1].start_tick - s[i].start_tick, s[i].ticks_per_bar as int)
}

/// Index of the last segment among the first `n` whose start is at or before `tick`
/// (0 when there is none).
pub open spec fn seg_idx_for_tick_rec(s: Seq<Segment>, tick: int, n: int) -> int
    decreases n,
{
    if n <= 1 {
        0
    } else if s[n - 1].start_tick <= tick {
        n - 1
    } else {
        seg_idx_for_tick_rec(s, tick, n - 1)
    }
}

/// Index of the segment covering `tick`.
pub open spec fn seg_idx_for_tick(s: Seq<Segment>, tick: int) -> int {
    seg_idx_for_tick_rec(s, tick, s.len() as int)
}

/// Index of the last segment among the first `n` whose first bar is at or before `bar`
/// (0 when there is none).
pub open spec fn seg_idx_for_bar_rec(s: Seq<Segment>, bar: int, n: int) -> int
    decreases n,
{
    if n <= 1 {
        0
    } else if s[n - 1].bar_at_start <= bar {
        n - 1
    } else {
        seg_idx_for_bar_rec(s, bar, n - 1)
    }
}

/// Index of the segment holding the start of bar `bar`.
pub open spec fn seg_idx_for_bar(s: Seq<Segment>, bar: int) -> int {
    seg_idx_for_bar_rec(s, bar, s.len() as int)
}

/// 1-based bar number at `tick`.
pub open spec fn bar_number_at(s: Seq<Segment>, tick: int) -> int {
    let g = s[seg_idx_for_tick(s, tick)];
    g.bar_at_start + (tick - g.start_tick) / (g.ticks_per_bar as int)
}

/// 1-based beat within its bar at `tick`.
pub open spec fn beat_number_at(s: Seq<Segment>, tick: int) -> int {
    let g = s[seg_idx_for_tick(s, tick)];
    1 + ((tick - g.start_tick) % (g.ticks_per_bar as int)) / (g.ticks_per_beat as int)
}

/// Whether `tick` is the first tick of a bar.
pub open spec fn is_bar_start(s: Seq<Segment>, tick: int) -> bool {
    let g = s[seg_idx_for_tick(s, tick)];
    (tick - g.start_tick) % (g.ticks_per_bar as int) == 0
}

/// Tick at which 1-based bar `bar` starts.
pub open spec fn tick_of_bar_spec(s: Seq<Segment>, bar: int) -> int {
    let g = s[seg_idx_for_bar(s, bar)];
    g.start_tick + (bar - g.bar_at_start) * g.ticks_per_bar
}

/// Ticks per beat of the segment covering `tick`.
pub open spec fn beat_ticks_at(s: Seq<Segment>, tick: int) -> u64 {
    s[seg_idx_for_tick(s, tick)].ticks_per_beat
}

/// Ticks per bar of the segment covering `tick`.
pub open spec fn bar_ticks_at(s: Seq<Segment>, tick: int) -> u64 {
    s[seg_idx_for_tick(s, tick)].ticks_per_bar
}

/// `t`, or the start of the segment after the one with index `i` when that
/// segment starts before `t`: a grid line never steps over a time-signature
/// change, whose first tick is a bar line.
pub open spec fn capped_at_next_segment(s: Seq<Segment>, i: int, t: int) -> int {
    if i + 1 < s.len() && s[i + 1].start_tick < t {
        s[i + 1].start_tick as int
    } else {
        t
    }
}

/// First grid line at or after `from`: the next beat of the segment
/// covering `from`, or the start of the following segment if that comes
/// first.
pub open spec fn first_grid_tick(s: Seq<Segment>, from: int) -> int {
    let i = seg_idx_for_tick(s, from);
    let g = s[i];
    let rem = (from - g.start_tick) % (g.ticks_per_beat as int);
    capped_at_next_segment(
        s,
        i,
        if rem == 0 {
            from
        } else {
            from + (g.ticks_per_beat - rem)
        },
    )
}

/// Grid line after the one at `t`: one beat of the segment covering `t`
/// later, or the start of the following segment if that comes first.
pub open spec fn next_grid_tick(s: Seq<Segment>, t: int) -> int {
    let i = seg_idx_for_tick(s, t);
    capped_at_next_segment(s, i, t + s[i].ticks_per_beat)
}

// ---------------------------------------------------------------------------
// Construction
// ---------------------------------------------------------------------------

/// Ticks per beat for a time signature whose `denominator` is the power-of-two
/// exponent (2 = quarter note beat, 3 = eighth note beat, ...).
pub open spec fn spec_beat_ticks(ticks_per_quarter: u64, denominator: u8) -> u64 {
    let t = ((ticks_per_quarter * 4) as u64) >> (denominator as u64);
    if t < 1 {
        1
    } else {
        t
    }
}

/// Ticks per bar for a time signature (at least one beat per bar).
pub open spec fn spec_bar_ticks(ticks_per_quarter: u64, numerator: u8, denominator: u8) -> u64 {
    (spec_beat_ticks(ticks_per_quarter, denominator) * (if numerator < 1 {
        1u8
    } else {
        numerator
    })) as u64
}

/// A beat is the whole note (four quarters) divided by two to the power of
/// the denominator exponent, rounded down and at least one tick: a half-note
/// beat (exponent 1) is two quarters, a quarter-note beat (2) one quarter,
/// an eighth-note beat (3) half a quarter. A bar is that many beats as the
/// numerator says (at least one).
pub proof fn lemma_beat_is_whole_note_divided(ticks_per_quarter: u64, numerator: u8, denominator: u8)
    requires
        1 <= ticks_per_quarter <= 65535,
        denominator < 64,
    ensures
        spec_beat_ticks(ticks_per_quarter, denominator) == (if (ticks_per_quarter * 4) / (pow2(
            denominator as nat,
        ) as int) < 1 {
            1
        } else {
            (ticks_per_quarter * 4) / (pow2(denominator as nat) as int)
        }),
        spec_bar_ticks(ticks_per_quarter, numerator, denominator) == spec_beat_ticks(
            ticks_per_quarter,
            denominator,
        ) * (if numerator < 1 {
            1
        } else {
            numerator as int
        }),
        denominator == 1 ==> spec_beat_ticks(ticks_per_quarter, denominator) == 2 * ticks_per_quarter,
        denominator == 2 ==> spec_beat_ticks(ticks_per_quarter, denominator) == ticks_per_quarter,
{
    let x: u64 = (ticks_per_quarter * 4) as u64;
    lemma_u64_shr_is_div(x, denominator as u64);
    lemma_sig_ok(ticks_per_quarter, numerator, denominator);
    lemma2_to64();
}

/// Ticks per beat for a time signature; `denominator` is the power-of-two exponent.
fn beat_ticks(ticks_per_quarter: u64, denominator: u8) -> (r: u64)
    requires
        1 <= ticks_per_quarter <= 65535,
        denominator < 64,
    ensures
        r == spec_beat_ticks(ticks_per_quarter, denominator),
        1 <= r <= MAX_BEAT_TICKS,
{
    let x = ticks_per_quarter * 4;
    let d = denominator as u64;
    let t = x >> d;
    assert(x >> d <= x) by (bit_vector);
    if t < 1 {
        1
    } else {
        t
    }
}

/// `(ticks_per_beat, ticks_per_bar)` for a time signature.
fn sig_ticks(ticks_per_quarter: u64, numerator: u8, denominator: u8) -> (r: (u64, u64))
    requires
        1 <= ticks_per_quarter <= 65535,
        denominator < 64,
    ensures
        r.0 == spec_beat_ticks(ticks_per_quarter, denominator),
        r.1 == spec_bar_ticks(ticks_per_quarter, numerator, denominator),
        1 <= r.0 <= MAX_BEAT_TICKS,
        r.0 <= r.1 <= r.0 * 255,
{
    let ticks_per_beat = beat_ticks(ticks_per_quarter, denominator);
    let n: u8 = if numerator < 1 {
        1
    } else {
        numerator
    };
    assert(ticks_per_beat <= ticks_per_beat * n <= ticks_per_beat * 255) by (nonlinear_arith)
        requires
            1 <= n <= 255,
            ticks_per_beat >= 1,
    ;
    let ticks_per_bar = ticks_per_beat * (n as u64);
    (ticks_per_beat, ticks_per_bar)
}

/// Time signatures `(tick, numerator, denominator)` of an event list, in order.
pub open spec fn time_signatures(s: Seq<TimedMidiEvent>) -> Seq<(u64, u8, u8)>
    decreases s.len(),
{
    if s.len() == 0 {
        Seq::empty()
    } else {
        let rest = time_signatures(s.drop_last());
        match s.last().event@ {
            EventModel::TimeSignature { numerator, denominator } => rest.push(
                (s.last().tick, numerator, denominator),
            ),
            _ => rest,
        }
    }
}

/// Position at which a stable insertion puts an element with key `key`:
/// after every element whose key is at most `key`, scanning from the back.
pub open spec fn insert_pos(s: Seq<(u64, u8, u8)>, key: u64) -> int
    decreases s.len(),
{
    if s.len() == 0 {
        0
    } else if s.last().0 <= key {
        s.len() as int
    } else {
        insert_pos(s.drop_last(), key)
    }
}

/// Stable insertion of `x` by tick.
pub open spec fn insert_by_tick(s: Seq<(u64, u8, u8)>, x: (u64, u8, u8)) -> Seq<(u64, u8, u8)> {
    let p = insert_pos(s, x.0);
    s.take(p).push(x) + s.skip(p)
}

/// Stable sort by tick (insertion sort).
pub open spec fn sort_by_tick(s: Seq<(u64, u8, u8)>) -> Seq<(u64, u8, u8)>
    decreases s.len(),
{
    if s.len() == 0 {
        Seq::empty()
    } else {
        insert_by_tick(sort_by_tick(s.drop_last()), s.last())
    }
}

/// State while walking the sorted signatures: the closed segments, and the
/// start, first bar and signature of the segment in progress.
pub struct BuildState {
    pub segs: Seq<Segment>,
    pub cur_start: u64,
    pub cur_bar: int,
    pub num: u8,
    pub den: u8,
}

/// The start state: default 4/4 from tick 0, bar 1.
pub open spec fn build_init() -> BuildState {
    BuildState { segs: Seq::empty(), cur_start: 0, cur_bar: 1, num: 4, den: 2 }
}

/// One signature change. A change at tick 0 replaces the initial signature; a
/// change at or before the current segment start is ignored; otherwise the
/// current segment is closed and a new one starts at the change, in a new bar
/// (a change mid-bar truncates the bar in progress).
pub open spec fn build_step(tpq: u64, st: BuildState, e: (u64, u8, u8)) -> BuildState {
    if e.0 == 0 {
        BuildState { num: e.1, den: e.2, ..st }
    } else if e.0 <= st.cur_start {
        st
    } else {
        let beat = spec_beat_ticks(tpq, st.den);
        let bar = spec_bar_ticks(tpq, st.num, st.den);
        BuildState {
            segs: st.segs.push(
                Segment {
                    start_tick: st.cur_start,
                    bar_at_start: st.cur_bar as u32,
                    ticks_per_bar: bar,
                    ticks_per_beat: beat,
                },
            ),
            cur_start: e.0,
            cur_bar: st.cur_bar + bars_spanned(e.0 - st.cur_start, bar as int),
            num: e.1,
            den: e.2,
        }
    }
}

/// Walk of the signatures in `s`, in order.
pub open spec fn build_fold(tpq: u64, s: Seq<(u64, u8, u8)>) -> BuildState
    decreases s.len(),
{
    if s.len() == 0 {
        build_init()
    } else {
        build_step(tpq, build_fold(tpq, s.drop_last()), s.last())
    }
}

/// The segments of a map built from the (sorted) signatures `s`.
pub open spec fn build_segments(tpq: u64, s: Seq<(u64, u8, u8)>) -> Seq<Segment> {
    let st = build_fold(tpq, s);
    st.segs.push(
        Segment {
            start_tick: st.cur_start,
            bar_at_start: st.cur_bar as u32,
            ticks_per_bar: spec_bar_ticks(tpq, st.num, st.den),
            ticks_per_beat: spec_beat_ticks(tpq, st.den),
        },
    )
}

/// Ticks per quarter note actually used for a file's PPQN (at least 1).
pub open spec fn effective_tpq(ticks_per_quarter: u16) -> u64 {
    if ticks_per_quarter < 1 {
        1
    } else {
        ticks_per_quarter as u64
    }
}

/// The time signatures of `events`, stably sorted by tick.
pub open spec fn sorted_signatures(events: Seq<TimedMidiEvent>) -> Seq<(u64, u8, u8)> {
    sort_by_tick(time_signatures(events))
}

/// The segments `BarMap::build(ticks_per_quarter, events)` produces.
pub open spec fn bar_map_segments(ticks_per_quarter: u16, events: Seq<TimedMidiEvent>) -> Seq<
    Segment,
> {
    build_segments(effective_tpq(ticks_per_quarter), sorted_signatures(events))
}

/// Every time-signature event of `events` has a denominator exponent below 64
/// (a larger one would shift a 64-bit tick count by its full width).
pub open spec fn signatures_ok(events: Seq<TimedMidiEvent>) -> bool {
    forall|i: int|
        0 <= i < time_signatures(events).len() ==> (#[trigger] time_signatures(events)[i]).2 < 64
}

/// The bar numbers met while building the map from `events` fit `u32`.
pub open spec fn build_fits(ticks_per_quarter: u16, events: Seq<TimedMidiEvent>) -> bool {
    build_fold(effective_tpq(ticks_per_quarter), sorted_signatures(events)).cur_bar <= u32::MAX
}

/// Bar number reported at `tick`: the segment's first bar plus the whole
/// bars elapsed, the latter narrowed to 32 bits as the computation does.
pub open spec fn reported_bar_at(s: Seq<Segment>, tick: int) -> int {
    let g = s[seg_idx_for_tick(s, tick)];
    g.bar_at_start + (((tick - g.start_tick) / (g.ticks_per_bar as int)) as u32)
}

// ---------------------------------------------------------------------------
// Lemmas
// ---------------------------------------------------------------------------

proof fn lemma_sig_ok(tpq: u64, num: u8, den: u8)
    requires
        1 <= tpq <= 65535,
    ensures
        1 <= spec_beat_ticks(tpq, den) <= MAX_BEAT_TICKS,
        spec_beat_ticks(tpq, den) <= spec_bar_ticks(tpq, num, den) <= spec_beat_ticks(tpq, den)
            * 255,
        spec_bar_ticks(tpq, num, den) == spec_beat_ticks(tpq, den) * (if num < 1 {
            1u8
        } else {
            num
        }),
{
    let x: u64 = (tpq * 4) as u64;
    let d: u64 = den as u64;
    assert(x >> d <= x) by (bit_vector);
    let b = spec_beat_ticks(tpq, den);
    let n: u8 = if num < 1 {
        1u8
    } else {
        num
    };
    assert(b <= b * n <= b * 255) by (nonlinear_arith)
        requires
            1 <= n <= 255,
            1 <= b <= MAX_BEAT_TICKS,
    ;
}

proof fn lemma_bars_spanned(delta: int, len: int)
    requires
        delta >= 1,
        len >= 1,
    ensures
        1 <= bars_spanned(delta, len) <= delta,
        (delta - 1) / len < bars_spanned(delta, len),
{
    assert(0 <= delta / len <= delta) by (nonlinear_arith)
        requires
            delta >= 1,
            len >= 1,
    ;
    assert(delta == len * (delta / len) + delta % len) by (nonlinear_arith)
        requires
            len >= 1,
    ;
    assert(0 <= delta % len < len) by (nonlinear_arith)
        requires
            len >= 1,
    ;
    if delta % len == 0 {
        assert(delta / len >= 1) by (nonlinear_arith)
            requires
                delta >= 1,
                len >= 1,
                delta == len * (delta / len),
        ;
        assert((delta - 1) / len < delta / len) by (nonlinear_arith)
            requires
                delta >= 1,
                len >= 1,
                delta == len * (delta / len),
        ;
    } else {
        assert(delta / len < delta) by (nonlinear_arith)
            requires
                delta >= 1,
                len >= 1,
                0 < delta % len < len,
                delta == len * (delta / len) + delta % len,
        ;
        assert((delta - 1) / len <= delta / len) by (nonlinear_arith)
            requires
                delta >= 1,
                len >= 1,
        ;
    }
}

proof fn lemma_step_mono(tpq: u64, st: BuildState, e: (u64, u8, u8))
    requires
        1 <= tpq <= 65535,
    ensures
        build_step(tpq, st, e).cur_bar >= st.cur_bar,
{
    if e.0 != 0 && e.0 > st.cur_start {
        lemma_sig_ok(tpq, st.num, st.den);
        lemma_bars_spanned(e.0 - st.cur_start, spec_bar_ticks(tpq, st.num, st.den) as int);
    }
}

proof fn lemma_fold_mono(tpq: u64, s: Seq<(u64, u8, u8)>, i: int)
    requires
        1 <= tpq <= 65535,
        0 <= i <= s.len(),
    ensures
        build_fold(tpq, s.take(i)).cur_bar <= build_fold(tpq, s).cur_bar,
        build_fold(tpq, s.take(i)).cur_bar >= 1,
    decreases s.len(),
{
    if s.len() == 0 {
        assert(s.take(i) =~= s);
    } else if i == s.len() {
        assert(s.take(i) =~= s);
        lemma_fold_mono(tpq, s.drop_last(), i - 1);
        lemma_step_mono(tpq, build_fold(tpq, s.drop_last()), s.last());
    } else {
        lemma_fold_mono(tpq, s.drop_last(), i);
        assert(s.drop_last().take(i) =~= s.take(i));
        lemma_step_mono(tpq, build_fold(tpq, s.drop_last()), s.last());
    }
}

/// Invariant of the walk: the closed segments and the one in progress form a
/// well-formed segment list.
spec fn fold_ok(tpq: u64, st: BuildState) -> bool {
    let cur = Segment {
        start_tick: st.cur_start,
        bar_at_start: st.cur_bar as u32,
        ticks_per_bar: spec_bar_ticks(tpq, st.num, st.den),
        ticks_per_beat: spec_beat_ticks(tpq, st.den),
    };
    &&& 1 <= st.cur_bar <= u32::MAX
    &&& segments_wf(st.segs.push(cur))
}

proof fn lemma_fold_ok(tpq: u64, s: Seq<(u64, u8, u8)>)
    requires
        1 <= tpq <= 65535,
        build_fold(tpq, s).cur_bar <= u32::MAX,
    ensures
        fold_ok(tpq, build_fold(tpq, s)),
    decreases s.len(),
{
    if s.len() == 0 {
        lemma_sig_ok(tpq, 4, 2);
    } else {
        let prev = build_fold(tpq, s.drop_last());
        lemma_step_mono(tpq, prev, s.last());
        lemma_fold_ok(tpq, s.drop_last());
        let e = s.last();
        let st = build_fold(tpq, s);
        lemma_sig_ok(tpq, st.num, st.den);
        lemma_sig_ok(tpq, prev.num, prev.den);
        if e.0 == 0 {
            let a = Segment {
                start_tick: prev.cur_start,
                bar_at_start: prev.cur_bar as u32,
                ticks_per_bar: spec_bar_ticks(tpq, prev.num, prev.den),
                ticks_per_beat: spec_beat_ticks(tpq, prev.den),
            };
            let b = Segment {
                start_tick: st.cur_start,
                bar_at_start: st.cur_bar as u32,
                ticks_per_bar: spec_bar_ticks(tpq, st.num, st.den),
                ticks_per_beat: spec_beat_ticks(tpq, st.den),
            };
            lemma_replace_last(prev.segs, a, b);
        } else if e.0 <= prev.cur_start {
        } else {
            let bar = spec_bar_ticks(tpq, prev.num, prev.den);
            lemma_bars_spanned(e.0 - prev.cur_start, bar as int);
            let cur = Segment {
                start_tick: st.cur_start,
                bar_at_start: st.cur_bar as u32,
                ticks_per_bar: spec_bar_ticks(tpq, st.num, st.den),
                ticks_per_beat: spec_beat_ticks(tpq, st.den),
            };
            let t = st.segs.push(cur);
            let old_t = prev.segs.push(
                Segment {
                    start_tick: prev.cur_start,
                    bar_at_start: prev.cur_bar as u32,
                    ticks_per_bar: spec_bar_ticks(tpq, prev.num, prev.den),
                    ticks_per_beat: spec_beat_ticks(tpq, prev.den),
                },
            );
            assert(st.segs =~= old_t);
            assert(t.len() == old_t.len() + 1);
            assert forall|i: int| 0 <= i < t.len() implies segment_ok(#[trigger] t[i]) by {
                if i < old_t.len() {
                    assert(t[i] == old_t[i]);
                }
            }
            assert forall|i: int, j: int| 0 <= i < j < t.len() implies t[i].start_tick
                < t[j].start_tick by {
                if j < old_t.len() {
                    assert(t[i] == old_t[i] && t[j] == old_t[j]);
                } else {
                    assert(t[i] == old_t[i]);
                    assert(old_t[i].start_tick <= old_t[old_t.len() - 1].start_tick) by {
                        if i < old_t.len() - 1 {
                        }
                    }
                }
            }
            assert forall|i: int| 0 <= i < t.len() - 1 implies (#[trigger] t[i + 1]).bar_at_start
                == t[i].bar_at_start + bars_spanned(
                t[i + 1].start_tick - t[i].start_tick,
                t[i].ticks_per_bar as int,
            ) by {
                if i + 1 < old_t.len() {
                    assert(t[i] == old_t[i] && t[i + 1] == old_t[i + 1]);
                } else {
                    assert(t[i] == old_t[i]);
                }
            }
        }
    }
}

proof fn lemma_replace_last(segs: Seq<Segment>, a: Segment, b: Segment)
    requires
        segments_wf(segs.push(a)),
        a.start_tick == b.start_tick,
        a.bar_at_start == b.bar_at_start,
        segment_ok(b),
    ensures
        segments_wf(segs.push(b)),
{
    let ta = segs.push(a);
    let tb = segs.push(b);
    assert forall|i: int| 0 <= i < tb.len() implies segment_ok(#[trigger] tb[i]) by {
        if i < segs.len() {
            assert(tb[i] == ta[i]);
        }
    }
    assert forall|i: int, j: int| 0 <= i < j < tb.len() implies tb[i].start_tick
        < tb[j].start_tick by {
        assert(ta[i].start_tick < ta[j].start_tick);
    }
    assert forall|i: int| 0 <= i < tb.len() - 1 implies (#[trigger] tb[i + 1]).bar_at_start
        == tb[i].bar_at_start + bars_spanned(
        tb[i + 1].start_tick - tb[i].start_tick,
        tb[i].ticks_per_bar as int,
    ) by {
        assert(ta[i + 1].bar_at_start == ta[i].bar_at_start + bars_spanned(
            ta[i + 1].start_tick - ta[i].start_tick,
            ta[i].ticks_per_bar as int,
        ));
        assert(tb[i] == ta[i]);
    }
}

proof fn lemma_build_wf(tpq: u64, s: Seq<(u64, u8, u8)>)
    requires
        1 <= tpq <= 65535,
        build_fold(tpq, s).cur_bar <= u32::MAX,
    ensures
        segments_wf(build_segments(tpq, s)),
{
    lemma_fold_ok(tpq, s);
}

proof fn lemma_insert_den(s: Seq<(u64, u8, u8)>, x: (u64, u8, u8))
    requires
        forall|k: int| 0 <= k < s.len() ==> (#[trigger] s[k]).2 < 64,
        x.2 < 64,
    ensures
        forall|k: int|
            0 <= k < insert_by_tick(s, x).len() ==> (#[trigger] insert_by_tick(s, x)[k]).2 < 64,
        insert_by_tick(s, x).len() == s.len() + 1,
    decreases s.len(),
{
    lemma_insert_pos_range(s, x.0);
    let p = insert_pos(s, x.0);
    let r = insert_by_tick(s, x);
    assert forall|k: int| 0 <= k < r.len() implies (#[trigger] r[k]).2 < 64 by {
        if k < p {
            assert(r[k] == s[k]);
        } else if k == p {
        } else {
            assert(r[k] == s[k - 1]);
        }
    }
}

proof fn lemma_insert_pos_range(s: Seq<(u64, u8, u8)>, key: u64)
    ensures
        0 <= insert_pos(s, key) <= s.len(),
    decreases s.len(),
{
    if s.len() > 0 {
        lemma_insert_pos_range(s.drop_last(), key);
    }
}

proof fn lemma_sort_den(s: Seq<(u64, u8, u8)>)
    requires
        forall|k: int| 0 <= k < s.len() ==> (#[trigger] s[k]).2 < 64,
    ensures
        forall|k: int| 0 <= k < sort_by_tick(s).len() ==> (#[trigger] sort_by_tick(s)[k]).2 < 64,
        sort_by_tick(s).len() == s.len(),
    decreases s.len(),
{
    if s.len() > 0 {
        assert forall|k: int| 0 <= k < s.drop_last().len() implies (#[trigger] s.drop_last()[k]).2
            < 64 by {
            assert(s.drop_last()[k] == s[k]);
        }
        lemma_sort_den(s.drop_last());
        lemma_insert_den(sort_by_tick(s.drop_last()), s.last());
    }
}

proof fn lemma_seg_idx_tick_rec(s: Seq<Segment>, t: int, n: int)
    requires
        segments_wf(s),
        t >= 0,
        1 <= n <= s.len(),
    ensures
        0 <= seg_idx_for_tick_rec(s, t, n) < n,
        s[seg_idx_for_tick_rec(s, t, n)].start_tick <= t,
        seg_idx_for_tick_rec(s, t, n) + 1 < n ==> t < s[seg_idx_for_tick_rec(s, t, n) + 1].start_tick,
    decreases n,
{
    if n > 1 && s[n - 1].start_tick > t {
        lemma_seg_idx_tick_rec(s, t, n - 1);
    }
}

/// The segment covering `tick` is the one whose span `[start, next start)` holds it.
pub proof fn lemma_seg_idx_for_tick(s: Seq<Segment>, t: int)
    requires
        segments_wf(s),
        t >= 0,
    ensures
        0 <= seg_idx_for_tick(s, t) < s.len(),
        s[seg_idx_for_tick(s, t)].start_tick <= t,
        seg_idx_for_tick(s, t) + 1 < s.len() ==> t < s[seg_idx_for_tick(s, t) + 1].start_tick,
        forall|i: int|
            #![trigger s[i]]
            0 <= i < s.len() && s[i].start_tick <= t && (i + 1 < s.len() ==> t < s[i
                + 1].start_tick) ==> i == seg_idx_for_tick(s, t),
{
    lemma_seg_idx_tick_rec(s, t, s.len() as int);
    let r = seg_idx_for_tick(s, t);
    assert forall|i: int|
        #![trigger s[i]]
        0 <= i < s.len() && s[i].start_tick <= t && (i + 1 < s.len() ==> t < s[i
            + 1].start_tick) implies i == r by {
        if i < r {
            assert(s[i + 1].start_tick <= s[r].start_tick) by {
                if i + 1 < r {
                    assert(s[i + 1].start_tick < s[r].start_tick);
                }
            }
        } else if i > r {
            assert(s[r + 1].start_tick <= s[i].start_tick) by {
                if r + 1 < i {
                    assert(s[r + 1].start_tick < s[i].start_tick);
                }
            }
        }
    }
}

/// Later ticks are never covered by earlier segments.
pub proof fn lemma_seg_idx_mono(s: Seq<Segment>, t1: int, t2: int)
    requires
        segments_wf(s),
        0 <= t1 <= t2,
    ensures
        seg_idx_for_tick(s, t1) <= seg_idx_for_tick(s, t2),
{
    lemma_seg_idx_for_tick(s, t1);
    lemma_seg_idx_for_tick(s, t2);
    let r1 = seg_idx_for_tick(s, t1);
    let r2 = seg_idx_for_tick(s, t2);
    if r2 < r1 {
        assert(s[r2 + 1].start_tick <= s[r1].start_tick) by {
            if r2 + 1 < r1 {
                assert(s[r2 + 1].start_tick < s[r1].start_tick);
            }
        }
    }
}

proof fn lemma_seg_idx_bar_rec(s: Seq<Segment>, b: int, n: int)
    requires
        segments_wf(s),
        1 <= n <= s.len(),
    ensures
        0 <= seg_idx_for_bar_rec(s, b, n) < n,
        seg_idx_for_bar_rec(s, b, n) > 0 ==> s[seg_idx_for_bar_rec(s, b, n)].bar_at_start <= b,
        seg_idx_for_bar_rec(s, b, n) + 1 < n ==> b < s[seg_idx_for_bar_rec(s, b, n) + 1].bar_at_start,
    decreases n,
{
    if n > 1 && s[n - 1].bar_at_start > b {
        lemma_seg_idx_bar_rec(s, b, n - 1);
    }
}

/// Each segment starts in a later bar than the one before.
pub proof fn lemma_bars_increase(s: Seq<Segment>, i: int, j: int)
    requires
        segments_wf(s),
        0 <= i < j < s.len(),
    ensures
        s[i].bar_at_start < s[j].bar_at_start,
    decreases j - i,
{
    let k = j - 1;
    assert(s[k + 1] == s[j]);
    assert(s[j - 1].start_tick < s[j].start_tick);
    lemma_bars_spanned(
        s[j].start_tick - s[j - 1].start_tick,
        s[j - 1].ticks_per_bar as int,
    );
    assert(s[j].bar_at_start == s[j - 1].bar_at_start + bars_spanned(
        s[j].start_tick - s[j - 1].start_tick,
        s[j - 1].ticks_per_bar as int,
    ));
    if i < j - 1 {
        lemma_bars_increase(s, i, j - 1);
    }
}

/// Within a segment that is followed by another, bar numbers stay below the
/// next segment's first bar.
proof fn lemma_bar_below_next(s: Seq<Segment>, i: int, t: int)
    requires
        segments_wf(s),
        0 <= i < s.len() - 1,
        s[i].start_tick <= t < s[i + 1].start_tick,
    ensures
        s[i].bar_at_start + (t - s[i].start_tick) / (s[i].ticks_per_bar as int) < s[i
            + 1].bar_at_start,
{
    let delta = s[i + 1].start_tick - s[i].start_tick;
    let len = s[i].ticks_per_bar as int;
    assert(segment_ok(s[i]));
    lemma_bars_spanned(delta, len);
    assert((t - s[i].start_tick) / len <= (delta - 1) / len) by (nonlinear_arith)
        requires
            0 <= t - s[i].start_tick <= delta - 1,
            len >= 1,
    ;
}

/// Bar numbers never decrease as the tick advances.
pub proof fn lemma_bar_number_mono(s: Seq<Segment>, t1: int, t2: int)
    requires
        segments_wf(s),
        0 <= t1 <= t2,
    ensures
        bar_number_at(s, t1) <= bar_number_at(s, t2),
{
    lemma_seg_idx_for_tick(s, t1);
    lemma_seg_idx_for_tick(s, t2);
    lemma_seg_idx_mono(s, t1, t2);
    let r1 = seg_idx_for_tick(s, t1);
    let r2 = seg_idx_for_tick(s, t2);
    let g1 = s[r1];
    let g2 = s[r2];
    assert(segment_ok(g1));
    assert(segment_ok(g2));
    if r1 == r2 {
        assert((t1 - g1.start_tick) / (g1.ticks_per_bar as int) <= (t2 - g1.start_tick) / (
        g1.ticks_per_bar as int)) by (nonlinear_arith)
            requires
                0 <= t1 - g1.start_tick <= t2 - g1.start_tick,
                g1.ticks_per_bar >= 1,
        ;
    } else {
        lemma_bar_below_next(s, r1, t1);
        if r1 + 1 < r2 {
            lemma_bars_increase(s, r1 + 1, r2);
        }
        assert(0 <= (t2 - g2.start_tick) / (g2.ticks_per_bar as int)) by (nonlinear_arith)
            requires
                0 <= t2 - g2.start_tick,
                g2.ticks_per_bar >= 1,
        ;
    }
}

/// Round trip: the first tick of any bar is reported as beat 1 of that bar.
pub proof fn lemma_bar_round_trip(s: Seq<Segment>, b: int)
    requires
        segments_wf(s),
        b >= 1,
    ensures
        bar_number_at(s, tick_of_bar_spec(s, b)) == b,
        beat_number_at(s, tick_of_bar_spec(s, b)) == 1,
        is_bar_start(s, tick_of_bar_spec(s, b)),
        seg_idx_for_tick(s, tick_of_bar_spec(s, b)) == seg_idx_for_bar(s, b),
{
    lemma_seg_idx_bar_rec(s, b, s.len() as int);
    let r = seg_idx_for_bar(s, b);
    let g = s[r];
    assert(segment_ok(g));
    let k = b - g.bar_at_start;
    let len = g.ticks_per_bar as int;
    let t = tick_of_bar_spec(s, b);
    assert(k >= 0);
    assert(k * len >= 0) by (nonlinear_arith)
        requires
            k >= 0,
            len >= 1,
    ;
    if r + 1 < s.len() {
        let delta = s[r + 1].start_tick - g.start_tick;
        assert(s[r + 1].bar_at_start == g.bar_at_start + bars_spanned(delta, len));
        lemma_bars_spanned(delta, len);
        assert(k * len < delta) by (nonlinear_arith)
            requires
                0 <= k < bars_spanned(delta, len),
                bars_spanned(delta, len) == delta / len + (if delta % len != 0 {
                    1int
                } else {
                    0int
                }),
                len >= 1,
                delta >= 1,
        ;
    }
    lemma_seg_idx_for_tick(s, t);
    assert(s[r].start_tick <= t);
    assert((k * len) / len == k && (k * len) % len == 0) by (nonlinear_arith)
        requires
            k >= 0,
            len >= 1,
    ;
}

/// A song without time signatures is in 4/4 throughout: bar `1 + t / w`
/// and beat `1 + (t mod w) / q` at tick `t`, with `q` ticks per quarter
/// (at least 1) and `w = 4q` ticks per bar; bar `b` starts at `(b - 1) w`.
pub proof fn lemma_plain_song_is_four_four(ticks_per_quarter: u16, events: Seq<TimedMidiEvent>, t: int, b: int)
    requires
        time_signatures(events).len() == 0,
        t >= 0,
        b >= 1,
    ensures
        ({
            let s = bar_map_segments(ticks_per_quarter, events);
            let q = effective_tpq(ticks_per_quarter) as int;
            &&& bar_number_at(s, t) == 1 + t / (4 * q)
            &&& beat_number_at(s, t) == 1 + (t % (4 * q)) / q
            &&& tick_of_bar_spec(s, b) == (b - 1) * (4 * q)
        }),
{
    let q = effective_tpq(ticks_per_quarter);
    assert(sort_by_tick(time_signatures(events)) =~= Seq::<(u64, u8, u8)>::empty());
    lemma_beat_is_whole_note_divided(q, 4, 2);
    let s = bar_map_segments(ticks_per_quarter, events);
    assert(s.len() == 1);
    assert(seg_idx_for_tick(s, t) == 0);
    assert(seg_idx_for_bar(s, b) == 0);
    assert(s[0].ticks_per_beat == q);
    assert(s[0].ticks_per_bar == 4 * q);
}

/// Ticks strictly increase along `s`.
pub open spec fn ticks_increasing(s: Seq<(u64, u8, u8)>) -> bool {
    forall|i: int, j: int| 0 <= i < j < s.len() ==> (#[trigger] s[i]).0 < (#[trigger] s[j]).0
}

/// No two entries of `s` share a tick.
pub open spec fn ticks_distinct(s: Seq<(u64, u8, u8)>) -> bool {
    forall|i: int, j: int|
        0 <= i < s.len() && 0 <= j < s.len() && i != j ==> (#[trigger] s[i]).0 != (#[trigger] s[j]).0
}

/// In a list with increasing ticks, the insertion point of `key` has every
/// earlier tick at most `key` and every later one above it.
proof fn lemma_insert_pos_split(s: Seq<(u64, u8, u8)>, key: u64)
    requires
        ticks_increasing(s),
    ensures
        0 <= insert_pos(s, key) <= s.len(),
        forall|i: int| 0 <= i < insert_pos(s, key) ==> (#[trigger] s[i]).0 <= key,
        forall|i: int| insert_pos(s, key) <= i < s.len() ==> (#[trigger] s[i]).0 > key,
    decreases s.len(),
{
    if s.len() > 0 {
        let t = s.drop_last();
        assert(ticks_increasing(t)) by {
            assert forall|i: int, j: int| 0 <= i < j < t.len() implies (#[trigger] t[i]).0 < (
            #[trigger] t[j]).0 by {
                assert(t[i] == s[i] && t[j] == s[j]);
            }
        }
        lemma_insert_pos_split(t, key);
        if s.last().0 <= key {
            assert forall|i: int| 0 <= i < insert_pos(s, key) implies (#[trigger] s[i]).0 <= key by {
                if i < s.len() - 1 {
                    assert(s[i].0 < s[s.len() - 1].0);
                }
            }
        } else {
            assert forall|i: int| 0 <= i < insert_pos(s, key) implies (#[trigger] s[i]).0 <= key by {
                assert(t[i] == s[i]);
            }
            assert forall|i: int| insert_pos(s, key) <= i < s.len() implies (#[trigger] s[i]).0 > key by {
                if i < s.len() - 1 {
                    assert(t[i] == s[i]);
                }
            }
        }
    }
}

/// Where the elements of an insertion come from.
proof fn lemma_insert_index(s: Seq<(u64, u8, u8)>, x: (u64, u8, u8))
    ensures
        insert_by_tick(s, x).len() == s.len() + 1,
        insert_by_tick(s, x)[insert_pos(s, x.0)] == x,
        forall|k: int| 0 <= k < insert_pos(s, x.0) ==> #[trigger] insert_by_tick(s, x)[k] == s[k],
        forall|k: int|
            insert_pos(s, x.0) < k < s.len() + 1 ==> #[trigger] insert_by_tick(s, x)[k] == s[k - 1],
{
    lemma_insert_pos_range(s, x.0);
}

/// Inserting a signature whose tick is not yet present into a list with
/// increasing ticks keeps the ticks increasing, and adds exactly that
/// signature.
proof fn lemma_insert_increasing(s: Seq<(u64, u8, u8)>, x: (u64, u8, u8))
    requires
        ticks_increasing(s),
        forall|i: int| 0 <= i < s.len() ==> (#[trigger] s[i]).0 != x.0,
    ensures
        ticks_increasing(insert_by_tick(s, x)),
        forall|e: (u64, u8, u8)| #[trigger] insert_by_tick(s, x).contains(e) <==> (s.contains(e) || e == x),
{
    lemma_insert_pos_split(s, x.0);
    lemma_insert_index(s, x);
    let p = insert_pos(s, x.0);
    let r = insert_by_tick(s, x);
    assert forall|i: int, j: int| 0 <= i < j < r.len() implies (#[trigger] r[i]).0 < (#[trigger] r[j]).0 by {
        let a = if i < p { i } else if i == p { -1 } else { i - 1 };
        let b = if j < p { j } else if j == p { -1 } else { j - 1 };
        if a >= 0 && b >= 0 {
            assert(r[i] == s[a] && r[j] == s[b]);
        } else if a < 0 {
            assert(r[j] == s[b]);
            assert(s[b].0 != x.0);
        } else {
            assert(r[i] == s[a]);
            assert(s[a].0 != x.0);
        }
    }
    assert forall|e: (u64, u8, u8)| #[trigger] r.contains(e) <==> (s.contains(e) || e == x) by {
        if r.contains(e) {
            let k = choose|k: int| 0 <= k < r.len() && r[k] == e;
            if k < p {
                assert(s[k] == e);
            } else if k > p {
                assert(s[k - 1] == e);
            }
        }
        if s.contains(e) {
            let k = choose|k: int| 0 <= k < s.len() && s[k] == e;
            if k < p {
                assert(r[k] == e);
            } else {
                assert(r[k + 1] == e);
            }
        }
        if e == x {
            assert(r[p] == e);
        }
    }
}

/// Sorting signatures whose ticks all differ gives increasing ticks and
/// keeps exactly the same signatures.
proof fn lemma_sort_increasing(s: Seq<(u64, u8, u8)>)
    requires
        ticks_distinct(s),
    ensures
        ticks_increasing(sort_by_tick(s)),
        forall|e: (u64, u8, u8)| #[trigger] sort_by_tick(s).contains(e) <==> s.contains(e),
    decreases s.len(),
{
    if s.len() > 0 {
        let t = s.drop_last();
        let x = s.last();
        assert(ticks_distinct(t)) by {
            assert forall|i: int, j: int|
                0 <= i < t.len() && 0 <= j < t.len() && i != j implies (#[trigger] t[i]).0 != (
                #[trigger] t[j]).0 by {
                assert(t[i] == s[i] && t[j] == s[j]);
            }
        }
        lemma_sort_increasing(t);
        let st = sort_by_tick(t);
        assert forall|i: int| 0 <= i < st.len() implies (#[trigger] st[i]).0 != x.0 by {
            assert(st.contains(st[i]));
            let k = choose|k: int| 0 <= k < t.len() && t[k] == st[i];
            assert(s[k] == t[k]);
            assert(s[k].0 != s[s.len() - 1].0);
        }
        lemma_insert_increasing(st, x);
        assert forall|e: (u64, u8, u8)| #[trigger] sort_by_tick(s).contains(e) <==> s.contains(e) by {
            if s.contains(e) {
                let k = choose|k: int| 0 <= k < s.len() && s[k] == e;
                if k < s.len() - 1 {
                    assert(t[k] == e);
                    assert(t.contains(e));
                }
            }
            if t.contains(e) {
                let k = choose|k: int| 0 <= k < t.len() && t[k] == e;
                assert(s[k] == e);
            }
        }
    }
}

/// Two lists with increasing ticks that hold the same signatures are the
/// same list.
proof fn lemma_increasing_unique(x: Seq<(u64, u8, u8)>, y: Seq<(u64, u8, u8)>)
    requires
        ticks_increasing(x),
        ticks_increasing(y),
        forall|e: (u64, u8, u8)| #[trigger] x.contains(e) <==> y.contains(e),
    ensures
        x == y,
    decreases x.len() + y.len(),
{
    if x.len() == 0 {
        if y.len() > 0 {
            assert(y.contains(y[0]));
            assert(x.contains(y[0]));
        }
        assert(x =~= y);
    } else if y.len() == 0 {
        assert(x.contains(x[0]));
    } else {
        let a = x.last();
        let b = y.last();
        assert(x.contains(a));
        assert(y.contains(a));
        let j = choose|j: int| 0 <= j < y.len() && y[j] == a;
        assert(y.contains(b));
        assert(x.contains(b));
        let k = choose|k: int| 0 <= k < x.len() && x[k] == b;
        assert(a.0 <= b.0) by {
            if j < y.len() - 1 {
                assert(y[j].0 < y[y.len() - 1].0);
            }
        }
        assert(b.0 <= a.0) by {
            if k < x.len() - 1 {
                assert(x[k].0 < x[x.len() - 1].0);
            }
        }
        assert(j == y.len() - 1) by {
            if j < y.len() - 1 {
                assert(y[j].0 < y[y.len() - 1].0);
            }
        }
        assert(a == b);
        let x2 = x.drop_last();
        let y2 = y.drop_last();
        assert(ticks_increasing(x2)) by {
            assert forall|i: int, m: int| 0 <= i < m < x2.len() implies (#[trigger] x2[i]).0 < (
            #[trigger] x2[m]).0 by {
                assert(x2[i] == x[i] && x2[m] == x[m]);
            }
        }
        assert(ticks_increasing(y2)) by {
            assert forall|i: int, m: int| 0 <= i < m < y2.len() implies (#[trigger] y2[i]).0 < (
            #[trigger] y2[m]).0 by {
                assert(y2[i] == y[i] && y2[m] == y[m]);
            }
        }
        assert forall|e: (u64, u8, u8)| #[trigger] x2.contains(e) <==> y2.contains(e) by {
            if x2.contains(e) {
                let i = choose|i: int| 0 <= i < x2.len() && x2[i] == e;
                assert(x[i] == e);
                assert(x[i].0 < x[x.len() - 1].0);
                assert(x.contains(e));
                assert(y.contains(e));
                let m = choose|m: int| 0 <= m < y.len() && y[m] == e;
                assert(m != y.len() - 1);
                assert(y2[m] == e);
            }
            if y2.contains(e) {
                let i = choose|i: int| 0 <= i < y2.len() && y2[i] == e;
                assert(y[i] == e);
                assert(y[i].0 < y[y.len() - 1].0);
                assert(y.contains(e));
                assert(x.contains(e));
                let m = choose|m: int| 0 <= m < x.len() && x[m] == e;
                assert(m != x.len() - 1);
                assert(x2[m] == e);
            }
        }
        lemma_increasing_unique(x2, y2);
        assert(x =~= x2.push(a));
        assert(y =~= y2.push(b));
    }
}

/// The map depends on the time signatures alone: other events are ignored,
/// and when no two signatures share a tick their order in the event list
/// makes no difference. A resolution of 0 ticks per quarter works as 1.
pub proof fn lemma_build_ignores_order(ticks_per_quarter: u16, a: Seq<TimedMidiEvent>, b: Seq<TimedMidiEvent>)
    requires
        ticks_distinct(time_signatures(a)),
        ticks_distinct(time_signatures(b)),
        forall|e: (u64, u8, u8)|
            #[trigger] time_signatures(a).contains(e) <==> time_signatures(b).contains(e),
    ensures
        bar_map_segments(ticks_per_quarter, a) == bar_map_segments(ticks_per_quarter, b),
        bar_map_segments(0, a) == bar_map_segments(1, a),
{
    lemma_sort_increasing(time_signatures(a));
    lemma_sort_increasing(time_signatures(b));
    lemma_increasing_unique(sorted_signatures(a), sorted_signatures(b));
}


/// Maps MIDI ticks to musical bar/beat position and back.
#[derive(Debug)]
pub struct BarMap {
    /// Sorted by `start_tick` (and by `bar_at_start`); always has at least
    /// one entry starting at tick 0.
    segments: Vec<Segment>,
}

impl View for BarMap {
    type V = Seq<Segment>;

    closed spec fn view(&self) -> Seq<Segment> {
        self.segments@
    }
}

impl BarMap {
    #[verifier::type_invariant]
    spec fn inv(self) -> bool {
        segments_wf(self.segments@)
    }
}

impl Clone for BarMap {
    fn clone(&self) -> (r: Self)
        ensures
            r@ == self@,
    {
        proof {
            use_type_invariant(self);
        }
        let mut segments: Vec<Segment> = Vec::new();
        let mut i: usize = 0;
        while i < self.segments.len()
            invariant
                i <= self.segments.len(),
                segments@ == self.segments@.take(i as int),
            decreases self.segments.len() - i,
        {
            segments.push(self.segments[i]);
            i = i + 1;
            assert(segments@ =~= self.segments@.take(i as int));
        }
        assert(segments@ =~= self.segments@);
        BarMap { segments }
    }
}

/// The time signatures of `events`, in event order.
fn signature_list(events: &[TimedMidiEvent]) -> (r: Vec<(u64, u8, u8)>)
    ensures
        r@ == time_signatures(events@),
{
    let mut ts_events: Vec<(u64, u8, u8)> = Vec::new();
    let mut i: usize = 0;
    while i < events.len()
        invariant
            i <= events.len(),
            ts_events@ == time_signatures(events@.take(i as int)),
        decreases events.len() - i,
    {
        assert(events@.take(i as int + 1).drop_last() =~= events@.take(i as int));
        match &events[i].event {
            MidiEvent::TimeSignature { numerator, denominator } => {
                ts_events.push((events[i].tick, *numerator, *denominator));
            },
            _ => {},
        }
        i = i + 1;
    }
    assert(events@.take(events.len() as int) =~= events@);
    ts_events
}

/// Stable insertion sort of signatures by tick.
fn sort_signatures(ts_events: &Vec<(u64, u8, u8)>) -> (r: Vec<(u64, u8, u8)>)
    ensures
        r@ == sort_by_tick(ts_events@),
{
    let mut sorted: Vec<(u64, u8, u8)> = Vec::new();
    let mut k: usize = 0;
    while k < ts_events.len()
        invariant
            k <= ts_events.len(),
            sorted@ == sort_by_tick(ts_events@.take(k as int)),
        decreases ts_events.len() - k,
    {
        let x = ts_events[k];
        let mut j: usize = sorted.len();
        assert(sorted@.take(j as int) =~= sorted@);
        while j > 0 && sorted[j - 1].0 > x.0
            invariant
                j <= sorted.len(),
                insert_pos(sorted@, x.0) == insert_pos(sorted@.take(j as int), x.0),
            decreases j,
        {
            assert(sorted@.take(j as int).drop_last() =~= sorted@.take(j as int - 1));
            j = j - 1;
        }
        proof {
            assert(sorted@.take(sorted@.len() as int) =~= sorted@);
            if j > 0 {
                assert(sorted@.take(j as int).last() == sorted@[j - 1]);
            }
            assert(insert_pos(sorted@, x.0) == j);
            assert(ts_events@.take(k as int + 1).drop_last() =~= ts_events@.take(k as int));
            assert(sorted@.insert(j as int, x) =~= sorted@.take(j as int).push(x) + sorted@.skip(
                j as int,
            ));
        }
        sorted.insert(j, x);
        k = k + 1;
    }
    assert(ts_events@.take(ts_events.len() as int) =~= ts_events@);
    sorted
}

/// Whether every signature's denominator exponent is below 64.
fn denominators_ok(ts: &Vec<(u64, u8, u8)>) -> (r: bool)
    ensures
        r == forall|k: int| 0 <= k < ts@.len() ==> (#[trigger] ts@[k]).2 < 64,
{
    let mut k: usize = 0;
    while k < ts.len()
        invariant
            k <= ts.len(),
            forall|q: int| 0 <= q < k ==> (#[trigger] ts@[q]).2 < 64,
        decreases ts.len() - k,
    {
        if ts[k].2 >= 64 {
            return false;
        }
        k = k + 1;
    }
    true
}

/// Whether the bar numbers met walking the sorted signatures `sorted` fit
/// `u32`.
fn walk_fits(tpq: u64, sorted: &Vec<(u64, u8, u8)>) -> (r: bool)
    requires
        1 <= tpq <= 65535,
        forall|q: int| 0 <= q < sorted@.len() ==> (#[trigger] sorted@[q]).2 < 64,
    ensures
        r == (build_fold(tpq, sorted@).cur_bar <= u32::MAX),
{
    let mut cur_start: u64 = 0;
    let mut cur_bar: u32 = 1;
    let mut num: u8 = 4;
    let mut den: u8 = 2;
    let mut m: usize = 0;
    assert(sorted@.take(0) =~= Seq::<(u64, u8, u8)>::empty());
    while m < sorted.len()
        invariant
            m <= sorted.len(),
            1 <= tpq <= 65535,
            forall|q: int| 0 <= q < sorted@.len() ==> (#[trigger] sorted@[q]).2 < 64,
            den < 64,
            cur_start == build_fold(tpq, sorted@.take(m as int)).cur_start,
            cur_bar == build_fold(tpq, sorted@.take(m as int)).cur_bar,
            num == build_fold(tpq, sorted@.take(m as int)).num,
            den == build_fold(tpq, sorted@.take(m as int)).den,
        decreases sorted.len() - m,
    {
        let (tick, n, d) = sorted[m];
        proof {
            assert(sorted@.take(m as int + 1).drop_last() =~= sorted@.take(m as int));
            assert(sorted@.take(m as int + 1).last() == sorted@[m as int]);
            lemma_fold_mono(tpq, sorted@, m as int + 1);
            assert(sorted@[m as int].2 < 64);
        }
        if tick == 0 {
            num = n;
            den = d;
        } else if tick <= cur_start {
        } else {
            let (_, ticks_per_bar) = sig_ticks(tpq, num, den);
            let delta = tick - cur_start;
            let bars_full = delta / ticks_per_bar;
            let mid_bar: u128 = if delta % ticks_per_bar != 0 {
                1
            } else {
                0
            };
            let new_bar: u128 = cur_bar as u128 + bars_full as u128 + mid_bar;
            if new_bar > 0xFFFF_FFFF {
                return false;
            }
            cur_start = tick;
            cur_bar = new_bar as u32;
            num = n;
            den = d;
        }
        m = m + 1;
    }
    assert(sorted@.take(sorted.len() as int) =~= sorted@);
    true
}

impl BarMap {
    /// Build from the song's PPQN and its (unsorted) event list. Only
    /// `TimeSignature` events matter; everything else is ignored.
    ///
    /// A signature change that lands mid-bar truncates the bar in progress:
    /// the next bar starts immediately at the change's tick, rather than
    /// waiting for the previous bar to finish (common SMF practice puts
    /// changes on bar lines anyway, so this only matters for malformed input).
    ///
    /// Signatures are taken in tick order, ties in event order; a repeated
    /// change at the same tick is ignored unless it is at tick 0, where the
    /// last one wins.
    pub fn build(ticks_per_quarter: u16, events: &[TimedMidiEvent]) -> (r: Self)
        requires
            signatures_ok(events@),
            build_fits(ticks_per_quarter, events@),
        ensures
            r@ == bar_map_segments(ticks_per_quarter, events@),
            segments_wf(r@),
    {
        let tpq: u64 = if ticks_per_quarter < 1 {
            1
        } else {
            ticks_per_quarter as u64
        };
        let ts_events = signature_list(events);
        let sorted = sort_signatures(&ts_events);
        proof {
            lemma_sort_den(ts_events@);
            lemma_fold_mono(tpq, sorted@, 0);
            lemma_sig_ok(tpq, 4, 2);
        }
        // Walk the signature changes.
        let mut segments: Vec<Segment> = Vec::new();
        let mut cur_start: u64 = 0;
        let mut cur_bar: u32 = 1;
        let mut num: u8 = 4;
        let mut den: u8 = 2;
        let mut m: usize = 0;
        assert(sorted@.take(0) =~= Seq::<(u64, u8, u8)>::empty());
        while m < sorted.len()
            invariant
                m <= sorted.len(),
                1 <= tpq <= 65535,
                tpq == effective_tpq(ticks_per_quarter),
                forall|q: int| 0 <= q < sorted@.len() ==> (#[trigger] sorted@[q]).2 < 64,
                build_fold(tpq, sorted@).cur_bar <= u32::MAX,
                den < 64,
                segments@ == build_fold(tpq, sorted@.take(m as int)).segs,
                cur_start == build_fold(tpq, sorted@.take(m as int)).cur_start,
                cur_bar == build_fold(tpq, sorted@.take(m as int)).cur_bar,
                num == build_fold(tpq, sorted@.take(m as int)).num,
                den == build_fold(tpq, sorted@.take(m as int)).den,
            decreases sorted.len() - m,
        {
            let (tick, n, d) = sorted[m];
            proof {
                assert(sorted@.take(m as int + 1).drop_last() =~= sorted@.take(m as int));
                assert(sorted@.take(m as int + 1).last() == sorted@[m as int]);
                lemma_fold_mono(tpq, sorted@, m as int + 1);
                assert(sorted@[m as int].2 < 64);
            }
            if tick == 0 {
                num = n;
                den = d;
            } else if tick <= cur_start {
            } else {
                let (ticks_per_beat, ticks_per_bar) = sig_ticks(tpq, num, den);
                let delta = tick - cur_start;
                let bars_full = delta / ticks_per_bar;
                let mid_bar = delta % ticks_per_bar != 0;
                let new_bar = cur_bar + bars_full as u32 + if mid_bar {
                    1
                } else {
                    0
                };
                segments.push(
                    Segment {
                        start_tick: cur_start,
                        bar_at_start: cur_bar,
                        ticks_per_bar,
                        ticks_per_beat,
                    },
                );
                cur_start = tick;
                cur_bar = new_bar;
                num = n;
                den = d;
            }
            m = m + 1;
        }
        assert(sorted@.take(sorted.len() as int) =~= sorted@);
        let (ticks_per_beat, ticks_per_bar) = sig_ticks(tpq, num, den);
        segments.push(
            Segment { start_tick: cur_start, bar_at_start: cur_bar, ticks_per_bar, ticks_per_beat },
        );
        proof {
            lemma_build_wf(tpq, sorted@);
        }
        BarMap { segments }
    }

    /// [`build`](Self::build) where its conditions hold: every time
    /// signature's denominator exponent is below 64 and the bar numbers fit
    /// `u32`; `None` otherwise.
    pub fn try_build(ticks_per_quarter: u16, events: &[TimedMidiEvent]) -> (r: Option<Self>)
        ensures
            r is Some <==> signatures_ok(events@) && build_fits(ticks_per_quarter, events@),
            r matches Some(m) ==> m@ == bar_map_segments(ticks_per_quarter, events@),
    {
        let tpq: u64 = if ticks_per_quarter < 1 {
            1
        } else {
            ticks_per_quarter as u64
        };
        let ts_events = signature_list(events);
        if !denominators_ok(&ts_events) {
            proof {
                let k = choose|k: int| 0 <= k < ts_events@.len() && !((#[trigger] ts_events@[k]).2 < 64);
                assert(!((time_signatures(events@)[k]).2 < 64));
            }
            return None;
        }
        let sorted = sort_signatures(&ts_events);
        proof {
            lemma_sort_den(ts_events@);
        }
        if !walk_fits(tpq, &sorted) {
            return None;
        }
        Some(BarMap::build(ticks_per_quarter, events))
    }

    /// Index of the last segment whose `start_tick <= tick`. Always in range
    /// since `segments[0].start_tick == 0`.
    fn segment_idx_for_tick(&self, tick: u64) -> (r: usize)
        ensures
            r == seg_idx_for_tick(self@, tick as int),
            r < self@.len(),
    {
        proof {
            use_type_invariant(self);
            lemma_seg_idx_for_tick(self@, tick as int);
        }
        let mut n: usize = self.segments.len();
        while n > 1 && self.segments[n - 1].start_tick > tick
            invariant
                1 <= n <= self.segments@.len(),
                seg_idx_for_tick(self@, tick as int) == seg_idx_for_tick_rec(
                    self@,
                    tick as int,
                    n as int,
                ),
            decreases n,
        {
            n = n - 1;
        }
        n - 1
    }

    /// Index of the last segment whose `bar_at_start <= bar` (0 when there is none).
    fn segment_idx_for_bar(&self, bar: u32) -> (r: usize)
        ensures
            r == seg_idx_for_bar(self@, bar as int),
            r < self@.len(),
    {
        proof {
            use_type_invariant(self);
            lemma_seg_idx_bar_rec(self@, bar as int, self@.len() as int);
        }
        let mut n: usize = self.segments.len();
        while n > 1 && self.segments[n - 1].bar_at_start > bar
            invariant
                1 <= n <= self.segments@.len(),
                seg_idx_for_bar(self@, bar as int) == seg_idx_for_bar_rec(
                    self@,
                    bar as int,
                    n as int,
                ),
            decreases n,
        {
            n = n - 1;
        }
        n - 1
    }

    /// 1-based (bar, beat) at `tick`.
    ///
    /// The bar count is narrowed to 32 bits before it is added to the
    /// segment's first bar; the sum must fit `u32`.
    pub fn bar_at(&self, tick: u64) -> (r: (u32, u32))
        requires
            reported_bar_at(self@, tick as int) <= u32::MAX,
        ensures
            r.0 == reported_bar_at(self@, tick as int),
            bar_number_at(self@, tick as int) <= u32::MAX ==> r.0 == bar_number_at(
                self@,
                tick as int,
            ),
            r.1 == beat_number_at(self@, tick as int),
            1 <= r.1 <= 255,
    {
        proof {
            use_type_invariant(self);
        }
        let idx = self.segment_idx_for_tick(tick);
        let seg = self.segments[idx];
        proof {
            lemma_seg_idx_for_tick(self@, tick as int);
            assert(segment_ok(self@[idx as int]));
        }
        let delta = tick - seg.start_tick;
        let bar = seg.bar_at_start + (delta / seg.ticks_per_bar) as u32;
        proof {
            let len = seg.ticks_per_bar as int;
            let bt = seg.ticks_per_beat as int;
            let dl = delta as int;
            assert((dl % len) / bt < 255) by (nonlinear_arith)
                requires
                    len >= 1,
                    1 <= bt,
                    len <= bt * 255,
            ;
            assert(0 <= (dl % len) / bt) by (nonlinear_arith)
                requires
                    len >= 1,
                    1 <= bt,
            ;
        }
        let beat = 1 + ((delta % seg.ticks_per_bar) / seg.ticks_per_beat) as u32;
        (bar, beat)
    }

    /// Tick at the start of 1-based bar `bar`.
    pub fn tick_of_bar(&self, bar: u32) -> (r: u64)
        requires
            bar >= 1,
            tick_of_bar_spec(self@, bar as int) <= u64::MAX,
        ensures
            r == tick_of_bar_spec(self@, bar as int),
    {
        proof {
            use_type_invariant(self);
            lemma_seg_idx_bar_rec(self@, bar as int, self@.len() as int);
        }
        let idx = self.segment_idx_for_bar(bar);
        let seg = self.segments[idx];
        proof {
            assert(segment_ok(self@[idx as int]));
            assert((bar - seg.bar_at_start) * seg.ticks_per_bar <= 0xFFFF_FFFFu64 * (255u64
                * MAX_BEAT_TICKS)) by (nonlinear_arith)
                requires
                    0 <= bar - seg.bar_at_start <= 0xFFFF_FFFF,
                    seg.ticks_per_bar <= 255 * MAX_BEAT_TICKS,
            ;
        }
        seg.start_tick + (bar - seg.bar_at_start) as u64 * seg.ticks_per_bar
    }

    /// Ticks per beat of the segment covering `tick`. Used by renderers to
    /// decide whether beat lines are dense enough to draw.
    pub fn ticks_per_beat_at(&self, tick: u64) -> (r: u64)
        ensures
            r == beat_ticks_at(self@, tick as int),
            1 <= r <= MAX_BEAT_TICKS,
    {
        proof {
            use_type_invariant(self);
        }
        let idx = self.segment_idx_for_tick(tick);
        proof {
            assert(segment_ok(self@[idx as int]));
        }
        self.segments[idx].ticks_per_beat
    }

    /// Ticks per bar of the segment covering `tick`. Used by renderers to
    /// decide whether bar numbers are dense enough to draw.
    pub fn ticks_per_bar_at(&self, tick: u64) -> (r: u64)
        ensures
            r == bar_ticks_at(self@, tick as int),
            r >= 1,
    {
        proof {
            use_type_invariant(self);
        }
        let idx = self.segment_idx_for_tick(tick);
        proof {
            assert(segment_ok(self@[idx as int]));
        }
        self.segments[idx].ticks_per_bar
    }

    /// Visit every beat/bar gridline in `[from, to)`, in ascending tick order.
    ///
    /// Both bounds stay one beat below the top of the tick range, and bar
    /// numbers up to `to` fit `u32`.
    pub fn lines_in(&self, from: u64, to: u64) -> (r: GridLines<'_>)
        requires
            from <= MAX_GRID_TICK,
            to <= MAX_GRID_TICK,
            bar_number_at(self@, to as int) <= u32::MAX,
        ensures
            r@ == (self@, first_grid_tick(self@, from as int) as u64, to),
            first_grid_tick(self@, from as int) <= u64::MAX,
    {
        proof {
            use_type_invariant(self);
            lemma_seg_idx_for_tick(self@, from as int);
        }
        let idx = self.segment_idx_for_tick(from);
        let start_tick = first_line(self.segments.as_slice(), idx, from);
        proof {
            lemma_seg_idx_mono(self@, from as int, start_tick as int);
        }
        GridLines { segments: self.segments.as_slice(), idx, tick: start_tick, to }
    }
}

impl Default for BarMap {
    /// Plain 4/4 at 480 TPQN.
    fn default() -> (r: Self)
        ensures
            r@ == bar_map_segments(480, Seq::empty()),
    {
        let events: Vec<TimedMidiEvent> = Vec::new();
        proof {
            assert(sorted_signatures(events@) =~= Seq::<(u64, u8, u8)>::empty());
        }
        BarMap::build(480, events.as_slice())
    }
}

/// Iterator over `(tick, is_bar, bar_number)` grid lines, yielded by `BarMap::lines_in`.
pub struct GridLines<'a> {
    segments: &'a [Segment],
    idx: usize,
    tick: u64,
    to: u64,
}

impl<'a> View for GridLines<'a> {
    /// The map's segments, the next line's tick and the end bound.
    type V = (Seq<Segment>, u64, u64);

    closed spec fn view(&self) -> (Seq<Segment>, u64, u64) {
        (self.segments@, self.tick, self.to)
    }
}

/// First grid line at or after `from`, which lies in segment `idx`.
fn first_line(segments: &[Segment], idx: usize, from: u64) -> (r: u64)
    requires
        segments_wf(segments@),
        idx == seg_idx_for_tick(segments@, from as int),
        from <= MAX_GRID_TICK,
    ensures
        r == first_grid_tick(segments@, from as int),
        from <= r,
{
    proof {
        lemma_seg_idx_for_tick(segments@, from as int);
        assert(segment_ok(segments@[idx as int]));
    }
    let seg = segments[idx];
    let delta = from - seg.start_tick;
    let rem = delta % seg.ticks_per_beat;
    let start_tick = if rem == 0 {
        from
    } else {
        from + (seg.ticks_per_beat - rem)
    };
    if idx + 1 < segments.len() && segments[idx + 1].start_tick < start_tick {
        segments[idx + 1].start_tick
    } else {
        start_tick
    }
}

/// Moves a segment index forward to the segment covering `tick`.
fn advance_segment(segments: &[Segment], idx: usize, tick: u64) -> (r: usize)
    requires
        segments_wf(segments@),
        idx <= seg_idx_for_tick(segments@, tick as int),
    ensures
        r == seg_idx_for_tick(segments@, tick as int),
        r < segments@.len(),
{
    let ghost s = segments@;
    let ghost target = seg_idx_for_tick(s, tick as int);
    proof {
        lemma_seg_idx_for_tick(s, tick as int);
    }
    let mut i = idx;
    while i < segments.len() - 1 && tick >= segments[i + 1].start_tick
        invariant
            s == segments@,
            i <= target < s.len(),
            s[target].start_tick <= tick,
            target + 1 < s.len() ==> tick < s[target + 1].start_tick,
        decreases s.len() - i,
    {
        proof {
            if i + 1 > target {
                assert(i == target);
            }
        }
        i = i + 1;
    }
    proof {
        if i < target {
            assert(s[i as int + 1].start_tick <= s[target].start_tick) by {
                if i as int + 1 < target {
                    assert(s[i as int + 1].start_tick < s[target].start_tick);
                }
            }
        }
    }
    i
}

impl<'a> GridLines<'a> {
    #[verifier::type_invariant]
    spec fn inv(self) -> bool {
        &&& segments_wf(self.segments@)
        &&& self.idx <= seg_idx_for_tick(self.segments@, self.tick as int)
        &&& self.to <= MAX_GRID_TICK
        &&& bar_number_at(self.segments@, self.to as int) <= u32::MAX
    }

    /// The next grid line: `(tick, is_bar, bar_number)`, or `None` once the
    /// end bound is reached. Lines are one beat (of the segment they are in)
    /// apart, and the first tick of every later segment is a line too.
    pub fn next(&mut self) -> (r: Option<(u64, bool, u32)>)
        ensures
            old(self)@.1 >= old(self)@.2 ==> r is None && final(self)@ == old(self)@,
            old(self)@.1 < old(self)@.2 ==> {
                let (s, t, to) = old(self)@;
                &&& r == Some((t, is_bar_start(s, t as int), bar_number_at(s, t as int) as u32))
                &&& bar_number_at(s, t as int) <= u32::MAX
                &&& final(self)@ == (s, next_grid_tick(s, t as int) as u64, to)
            },
    {
        proof {
            use_type_invariant(&*self);
        }
        if self.tick >= self.to {
            return None;
        }
        let idx = advance_segment(self.segments, self.idx, self.tick);
        proof {
            assert(segment_ok(self.segments@[idx as int]));
            lemma_seg_idx_for_tick(self.segments@, self.tick as int);
            lemma_bar_number_mono(self.segments@, self.tick as int, self.to as int);
        }
        let seg = self.segments[idx];
        let delta = self.tick - seg.start_tick;
        let is_bar = delta % seg.ticks_per_bar == 0;
        let bar_number = seg.bar_at_start + (delta / seg.ticks_per_bar) as u32;
        let result = (self.tick, is_bar, bar_number);
        let mut next_tick = self.tick + seg.ticks_per_beat;
        if idx + 1 < self.segments.len() && self.segments[idx + 1].start_tick < next_tick {
            next_tick = self.segments[idx + 1].start_tick;
        }
        proof {
            lemma_seg_idx_mono(self.segments@, self.tick as int, next_tick as int);
        }
        self.idx = idx;
        self.tick = next_tick;
        Some(result)
    }
}

} // verus!
