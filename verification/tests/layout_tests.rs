use ump::ui::fkey_bar::fit_fkey_items;
use ump::ui::header::{fit_header_items, HeaderItemKind};
use ump::ui::track_list::{fit_default_columns, ColumnFlags};
use ump::ui::transport::{bar_tick_step, fit_transport};

#[test]
fn fit_all_items_when_space_allows() {
    let kinds = [HeaderItemKind::Tracks, HeaderItemKind::Notes, HeaderItemKind::Mode];
    let widths = [10, 10, 10];
    let kept = fit_header_items(&kinds, &widths, 2, 1000);
    assert_eq!(kept, vec![0, 1, 2]);
}

#[test]
fn narrow_width_drops_tracks_then_notes_in_order() {
    let kinds = [HeaderItemKind::Tracks, HeaderItemKind::Notes, HeaderItemKind::Tpqn, HeaderItemKind::Mode];
    let widths = [10, 10, 10, 10];
    let sep = 2;
    // All four items: 40 + 3*2 = 46. Dropping Tracks: 30 + 2*2 = 34.
    // Dropping Notes too: 20 + 1*2 = 22.
    let kept = fit_header_items(&kinds, &widths, sep, 34);
    assert_eq!(kept, vec![1, 2, 3]); // Tracks dropped, others kept

    let kept = fit_header_items(&kinds, &widths, sep, 22);
    assert_eq!(kept, vec![2, 3]); // Tracks then Notes dropped, in that order
}

#[test]
fn ports_dropped_right_after_tracks() {
    let kinds = [HeaderItemKind::Tracks, HeaderItemKind::Ports, HeaderItemKind::Notes, HeaderItemKind::Mode];
    let widths = [10, 10, 10, 10];
    let sep = 2;
    // Dropping Tracks alone (30 + 2*2=34) still doesn't fit at 25;
    // Ports must go too (20 + 1*2 = 22) before Notes is touched.
    let kept = fit_header_items(&kinds, &widths, sep, 25);
    assert_eq!(kept, vec![2, 3]);
}

#[test]
fn nothing_fits_returns_empty() {
    let kinds = [HeaderItemKind::Mode];
    let widths = [10];
    let kept = fit_header_items(&kinds, &widths, 2, 5);
    assert!(kept.is_empty());
}

#[test]
fn header_items_of_one_kind_go_together() {
    let kinds = [HeaderItemKind::Mode, HeaderItemKind::Tracks, HeaderItemKind::Bpm, HeaderItemKind::Tracks];
    let widths = [5, 5, 5, 5];
    assert_eq!(fit_header_items(&kinds, &widths, 1, 11), vec![0, 2]);
    assert_eq!(fit_header_items(&kinds, &widths, 1, 5), vec![0]);
}

#[test]
fn all_items_fit_when_space_allows() {
    let widths = [30, 10, 10, 10, 10, 10, 10, 30, 10];
    assert_eq!(fit_fkey_items(2000, &widths, 60, 4), 9);
}

#[test]
fn narrow_width_drops_items_from_the_right() {
    let widths = [30, 10, 10, 10, 10, 10, 10, 30, 10];
    // Required slot width is 30+60+12=102 (widest key among the first n is
    // always 30, from item 0). n=4: 4*102=408>400, drop. n=3: 306<=400, keep.
    let n = fit_fkey_items(400, &widths, 60, 4);
    assert_eq!(n, 3);
}

#[test]
fn zero_width_drops_everything() {
    let widths = [30, 10];
    assert_eq!(fit_fkey_items(0, &widths, 60, 4), 0);
}

#[test]
fn fit_transport_shows_everything_when_wide() {
    let (pos, tot, seek) = fit_transport(1000, 300, 100, 80, 10, 80);
    assert!(pos && tot);
    assert!(seek >= 80);
    assert_eq!(seek, 1000 - 300 - 100 - 80 - 60);
}

#[test]
fn fit_transport_drops_position_first() {
    let (pos, tot, seek) = fit_transport(560, 300, 100, 80, 10, 80);
    assert!(!pos);
    assert!(tot);
    assert!(seek >= 80);
}

#[test]
fn fit_transport_drops_both_when_very_narrow() {
    let (pos, tot, seek) = fit_transport(350, 300, 100, 80, 10, 80);
    assert!(!pos);
    assert!(!tot);
    assert!(seek < 80); // still can't fit, but this is the best available
    assert!(seek > 0);
}

#[test]
fn bar_tick_step_picks_smallest_power_of_two_covering_spacing() {
    assert_eq!(bar_tick_step(10, 8), 1);
    assert_eq!(bar_tick_step(3, 8), 4);
    assert_eq!(bar_tick_step(1, 8), 8);
}

#[test]
fn bar_tick_step_handles_zero_px_per_bar() {
    assert_eq!(bar_tick_step(0, 8), 1);
}

#[test]
fn fit_default_columns_keeps_everything_when_wide() {
    let flags = fit_default_columns(ColumnFlags::all(), 1000, 80, 24, 4, 60);
    assert_eq!(flags, ColumnFlags::all());
}

#[test]
fn fit_default_columns_drops_in_priority_order() {
    // param_w=24, pad=4, meter_w=60. Full width = 4*(24+4) + (60+4) = 176.
    // Shrinking avail should drop EXP, then PAN, then VOL, then PRG, then meter.
    let param_w = 24;
    let pad = 4;
    let meter_w = 60;
    let min_name_w = 80;

    // avail just below full (176) but above full-minus-exp(148) forces EXP to drop.
    let flags = fit_default_columns(ColumnFlags::all(), min_name_w + 150, min_name_w, param_w, pad, meter_w);
    assert!(!flags.exp);
    assert!(flags.pan && flags.vol && flags.prg && flags.meter);

    // Very little room: only name (and maybe nothing else) fits.
    let flags = fit_default_columns(ColumnFlags::all(), min_name_w + 5, min_name_w, param_w, pad, meter_w);
    assert!(!flags.exp && !flags.pan && !flags.vol && !flags.prg && !flags.meter);
}

#[test]
fn fit_default_columns_never_loops_forever_when_impossible() {
    // avail smaller than min_name_w even with nothing shown: drop_next runs out and stops.
    let flags = fit_default_columns(ColumnFlags::all(), 10, 80, 24, 4, 60);
    assert_eq!(flags, ColumnFlags { prg: false, vol: false, pan: false, exp: false, meter: false });
}

#[test]
fn column_width_counts_visible_columns_with_gaps() {
    assert_eq!(ColumnFlags::all().width(24, 4, 60), 176);
    let f = ColumnFlags { prg: true, vol: false, pan: false, exp: false, meter: true };
    assert_eq!(f.width(24, 4, 60), 92);
}
