use ump::midi::event::{MidiEvent, TimedMidiEvent};
use ump::ui::bars::{BarMap, GridLines};

fn ts_event(tick: u64, numerator: u8, denominator: u8) -> TimedMidiEvent {
    TimedMidiEvent { tick, event: MidiEvent::TimeSignature { numerator, denominator }, track: 0 }
}

fn collect(mut lines: GridLines<'_>) -> Vec<(u64, bool, u32)> {
    let mut out = Vec::new();
    while let Some(line) = lines.next() {
        out.push(line);
    }
    out
}

#[test]
fn plain_4_4_at_480_tpqn() {
    let map = BarMap::build(480, &[]);
    assert_eq!(map.bar_at(0), (1, 1));
    assert_eq!(map.bar_at(480), (1, 2));
    assert_eq!(map.bar_at(1919), (1, 4));
    assert_eq!(map.bar_at(1920), (2, 1));
    assert_eq!(map.tick_of_bar(1), 0);
    assert_eq!(map.tick_of_bar(2), 1920);
    assert_eq!(map.tick_of_bar(3), 3840);
}

#[test]
fn time_signature_change_at_bar_line() {
    // 3/4 from tick 0, switching to 6/8 exactly at the start of bar 4 (tick 4320).
    let events = [ts_event(0, 3, 2), ts_event(4320, 6, 3)];
    let map = BarMap::build(480, &events);
    assert_eq!(map.bar_at(4319), (3, 3));
    assert_eq!(map.bar_at(4320), (4, 1));
    assert_eq!(map.tick_of_bar(4), 4320);
    // 6/8 bar length: ticks_per_beat = 480*4/8 = 240, * 6 = 1440.
    assert_eq!(map.bar_at(4320 + 1440), (5, 1));
}

#[test]
fn time_signature_change_mid_bar_starts_new_bar() {
    // Default 4/4 (bar 2 spans 1920..3839), but a 3/4 change lands at 2000,
    // mid-way through bar 2: bar 2 is truncated and bar 3 starts at 2000.
    let events = [ts_event(2000, 3, 2)];
    let map = BarMap::build(480, &events);
    assert_eq!(map.bar_at(1919), (1, 4));
    assert_eq!(map.bar_at(1920), (2, 1));
    assert_eq!(map.bar_at(1999), (2, 1));
    assert_eq!(map.bar_at(2000), (3, 1));
    assert_eq!(map.tick_of_bar(3), 2000);
}

#[test]
fn bar_at_on_exact_beat_boundaries() {
    let map = BarMap::build(480, &[]);
    for beat in 0..4u32 {
        assert_eq!(map.bar_at(beat as u64 * 480), (1, beat + 1));
    }
    assert_eq!(map.bar_at(1920), (2, 1));
}

#[test]
fn tick_of_bar_round_trips_with_bar_at() {
    let events = [ts_event(2000, 3, 2)];
    let map = BarMap::build(480, &events);
    for bar in 1..=6u32 {
        let tick = map.tick_of_bar(bar);
        assert_eq!(map.bar_at(tick), (bar, 1));
    }
}

#[test]
fn grid_lines_flag_bar_starts() {
    let map = BarMap::build(480, &[]);
    let lines = collect(map.lines_in(0, 1921));
    // Beats at 0,480,960,1440 (bar 1), then 1920 starts bar 2.
    assert_eq!(
        lines,
        vec![(0, true, 1), (480, false, 1), (960, false, 1), (1440, false, 1), (1920, true, 2)]
    );
}

#[test]
fn grid_lines_snaps_start_to_next_beat_when_from_is_mid_beat() {
    let map = BarMap::build(480, &[]);
    let lines = collect(map.lines_in(100, 1000));
    assert_eq!(lines[0].0, 480);
}

#[test]
fn unsorted_and_duplicate_signatures() {
    // Out of order and repeated: the second change at 1920 is ignored, the
    // tick-0 change replaces the default.
    let events = [ts_event(1920, 3, 2), ts_event(0, 2, 2), ts_event(1920, 7, 3)];
    let map = BarMap::build(480, &events);
    assert_eq!(map.ticks_per_bar_at(0), 960);
    assert_eq!(map.bar_at(1920), (3, 1));
    assert_eq!(map.ticks_per_bar_at(1920), 1440);
    assert_eq!(map.ticks_per_beat_at(5000), 480);
}

#[test]
fn zero_ticks_per_quarter_counts_as_one() {
    let map = BarMap::build(0, &[]);
    assert_eq!(map.ticks_per_beat_at(0), 1);
    assert_eq!(map.bar_at(9), (3, 2));
}

#[test]
fn default_map_is_4_4_at_480() {
    let map = BarMap::default();
    assert_eq!(map.ticks_per_bar_at(123), 1920);
    let copy = map.clone();
    assert_eq!(copy.tick_of_bar(5), 7680);
}

#[test]
fn grid_lines_cross_signature_changes() {
    let events = [ts_event(960, 3, 3)];
    let map = BarMap::build(480, &events);
    let lines = collect(map.lines_in(480, 1500));
    assert_eq!(lines, vec![(480, false, 1), (960, true, 2), (1200, false, 2), (1440, false, 2)]);
}

#[test]
fn grid_lines_include_a_signature_change_between_beats() {
    // 4/4, then 3/4 from tick 2000, which cuts bar 2 short.
    let map = BarMap::build(480, &[ts_event(2000, 3, 2)]);
    assert_eq!(map.tick_of_bar(3), 2000);
    let lines = collect(map.lines_in(1920, 2500));
    assert_eq!(lines, vec![(1920, true, 2), (2000, true, 3), (2480, false, 3)]);
    // Starting just before the change, the first line is the change itself.
    let lines = collect(map.lines_in(1990, 2100));
    assert_eq!(lines, vec![(2000, true, 3)]);
}

#[test]
fn try_build_checks_the_signatures() {
    assert!(BarMap::try_build(480, &[ts_event(960, 3, 64)]).is_none());
    let map = BarMap::try_build(480, &[ts_event(2000, 3, 2)]).expect("valid signatures");
    assert_eq!(map.tick_of_bar(3), 2000);
    assert_eq!(map.bar_at(2480), (3, 2));
}

#[test]
fn build_depends_on_the_signatures_alone() {
    let a = vec![ts_event(3840, 6, 3), ts_event(1920, 3, 2)];
    let b = vec![
        TimedMidiEvent { tick: 10, event: MidiEvent::TempoChange(400_000), track: 0 },
        ts_event(1920, 3, 2),
        ts_event(3840, 6, 3),
    ];
    let ma = BarMap::build(480, &a);
    let mb = BarMap::build(480, &b);
    for t in [0u64, 1919, 1920, 3000, 3839, 3840, 5000, 9999] {
        assert_eq!(ma.bar_at(t), mb.bar_at(t));
    }
    for bar in 1..8u32 {
        assert_eq!(ma.tick_of_bar(bar), mb.tick_of_bar(bar));
    }
    let m0 = BarMap::build(0, &a);
    let m1 = BarMap::build(1, &a);
    for t in [0u64, 3, 4, 100] {
        assert_eq!(m0.bar_at(t), m1.bar_at(t));
    }
}
