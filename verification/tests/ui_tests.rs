use std::time::{Duration, SystemTime};

use ump::debug::days_to_ymd;
use ump::midi::event::NoteRect;
use ump::player::TrackViewMode;
use ump::state::shared::TrackInfoSnapshot;
use ump::ui::file_browser::{
    fit_columns, format_timestamp, format_timestamp_secs, page_target, BrowseResult, BrowseTarget,
    thumb_geometry, Entry, FileBrowser, Listing,
};
use ump::ui::fkey_bar::next_midi_mode;
use ump::ui::header::{format_thousands, truncate_sf2_name};
use ump::ui::midi_monitor::tick_to_location;
use ump::ui::piano_roll::{is_black_key, key_name_parts, note_state, sounding_keys, NoteState};
use ump::ui::text::{text_cells, truncate_cells};
use ump::ui::theme::{channel_color, Color};
use ump::ui::track_list::{build_raw_rows, pan_display, raw_row_count, ColumnFlags, RawRow};

#[test]
fn format_timestamp_epoch() {
    assert_eq!(format_timestamp(SystemTime::UNIX_EPOCH), "1970-01-01 00:00");
}

#[test]
fn format_timestamp_leap_day() {
    // 2020-02-29 00:00 UTC (2020 is a leap year).
    let (y, mo, d) = days_to_ymd(18321);
    assert_eq!((y, mo, d), (2020, 2, 29));
    let t = SystemTime::UNIX_EPOCH + Duration::from_secs(18321 * 86400);
    assert_eq!(format_timestamp(t), "2020-02-29 00:00");
}

#[test]
fn format_timestamp_end_of_year() {
    // 2023-12-31 23:59 UTC.
    let (y, mo, d) = days_to_ymd(19722);
    assert_eq!((y, mo, d), (2023, 12, 31));
    let t = SystemTime::UNIX_EPOCH + Duration::from_secs(19722 * 86400 + 23 * 3600 + 59 * 60);
    assert_eq!(format_timestamp(t), "2023-12-31 23:59");
}

#[test]
fn format_timestamp_before_epoch_is_epoch() {
    let t = SystemTime::UNIX_EPOCH - Duration::from_secs(5);
    assert_eq!(format_timestamp(t), "1970-01-01 00:00");
    assert_eq!(format_timestamp_secs(951782400), "2000-02-29 00:00");
}

#[test]
fn days_to_ymd_century_rules() {
    assert_eq!(days_to_ymd(0), (1970, 1, 1));
    assert_eq!(days_to_ymd(365), (1971, 1, 1));
    // 2100 is not a leap year: 2100-02-28 is followed by 2100-03-01.
    assert_eq!(days_to_ymd(47540), (2100, 2, 28));
    assert_eq!(days_to_ymd(47541), (2100, 3, 1));
}

#[test]
fn fit_columns_shows_everything_when_wide() {
    assert_eq!(fit_columns(60, 10, 16, 2), (true, true));
}

#[test]
fn fit_columns_drops_date_first() {
    // 16 (min name) + 10 (size) + 2 (gap) = 28 fits without date;
    // adding the date's 16+2 pushes it over.
    assert_eq!(fit_columns(28, 10, 16, 2), (true, false));
    assert_eq!(fit_columns(46, 10, 16, 2), (true, true));
}

#[test]
fn fit_columns_drops_size_when_too_narrow() {
    assert_eq!(fit_columns(20, 10, 16, 2), (false, false));
}

#[test]
fn page_target_moves_up_without_wrap() {
    assert_eq!(page_target(3, 5, 20, true), 0);
    assert_eq!(page_target(0, 5, 20, true), 0);
}

#[test]
fn page_target_moves_down_clamped_to_last() {
    assert_eq!(page_target(3, 5, 20, false), 8);
    assert_eq!(page_target(18, 5, 20, false), 19);
}

fn entry(name: &str, is_dir: bool) -> Entry {
    Entry { name: name.to_string(), path: format!("/music/{name}"), is_dir, size: 10, modified: None }
}

#[test]
fn browser_lists_dirs_then_matching_files_sorted() {
    let mut b = FileBrowser::new(BrowseTarget::Midi, "/music".to_string());
    assert_eq!(b.take_pending(), Some(Listing::Directory("/music".to_string())));
    assert_eq!(b.take_pending(), None);
    b.apply_listing(Some(vec![
        entry("song.MID", false),
        entry("Beta", true),
        entry(".hidden", true),
        entry("alpha", true),
        entry("notes.txt", false),
        entry("Another.midi", false),
    ]));
    let names: Vec<&str> = b.entries().iter().map(|e| e.name.as_str()).collect();
    assert_eq!(names, vec!["..", "alpha", "Beta", "Another.midi", "song.MID"]);
    assert_eq!(b.cursor(), 0);
    assert!(!b.show_drives());
}

#[test]
fn browser_cursor_wraps_and_pages_clamp() {
    let mut b = FileBrowser::new(BrowseTarget::Sf2, "/".to_string());
    b.apply_listing(Some((0..10).map(|i| entry(&format!("f{i}.sf2"), false)).collect()));
    assert_eq!(b.entries().len(), 10);
    b.cursor_up();
    assert_eq!(b.cursor(), 9);
    b.cursor_down();
    assert_eq!(b.cursor(), 0);
    b.fit_rows(4);
    b.page_down();
    assert_eq!(b.cursor(), 4);
    b.page_down();
    b.page_down();
    assert_eq!(b.cursor(), 9);
    b.fit_rows(4);
    assert_eq!(b.scroll_offset(), 6);
    b.page_up();
    assert_eq!(b.cursor(), 5);
    b.set_cursor(100);
    assert_eq!(b.cursor(), 9);
    b.set_cursor(2);
    assert_eq!(b.scroll_offset(), 2);
}

#[test]
fn browser_enter_and_parent() {
    let mut b = FileBrowser::new(BrowseTarget::Midi, "/music".to_string());
    b.take_pending();
    b.apply_listing(Some(vec![entry("sub", true), entry("a.mid", false)]));
    // Row 0 is "..", row 1 the directory, row 2 the file.
    b.set_cursor(2);
    assert_eq!(b.enter(), BrowseResult::Selected("/music/a.mid".to_string()));
    b.set_cursor(1);
    assert_eq!(b.enter(), BrowseResult::Continue);
    assert_eq!(b.current_dir(), "/music/sub");
    assert_eq!(b.take_pending(), Some(Listing::Directory("/music/sub".to_string())));
    b.go_parent();
    assert_eq!(b.current_dir(), "/music");
    b.go_parent();
    b.go_parent();
    assert_eq!(b.take_pending(), Some(Listing::Drives));
    b.apply_drives(vec!["/".to_string()]);
    assert!(b.show_drives());
    b.go_parent();
    assert_eq!(b.take_pending(), None);
    b.go_home(Some("/home/me".to_string()));
    assert_eq!(b.take_pending(), Some(Listing::Directory("/home/me".to_string())));
    b.go_drives();
    assert_eq!(b.take_pending(), Some(Listing::Drives));
}

#[test]
fn browser_unreadable_directory_keeps_parent_entry() {
    let mut b = FileBrowser::new(BrowseTarget::Midi, "/music/x".to_string());
    b.apply_listing(None);
    assert_eq!(b.entries().len(), 1);
    assert_eq!(b.entries()[0].path, "/music");
    let mut root = FileBrowser::new(BrowseTarget::Midi, "/".to_string());
    root.apply_listing(None);
    assert!(root.entries().is_empty());
    assert_eq!(root.enter(), BrowseResult::Continue);
}

#[test]
fn mode_cycle_order() {
    assert_eq!(next_midi_mode("GM"), "GS");
    assert_eq!(next_midi_mode("GS"), "XG");
    assert_eq!(next_midi_mode("XG"), "GM2");
    assert_eq!(next_midi_mode("GM2"), "GM");
    assert_eq!(next_midi_mode("unknown"), "GM");
}

#[test]
fn format_thousands_cases() {
    assert_eq!(format_thousands(0), "0");
    assert_eq!(format_thousands(999), "999");
    assert_eq!(format_thousands(1000), "1,000");
    assert_eq!(format_thousands(5812), "5,812");
    assert_eq!(format_thousands(1234567), "1,234,567");
}

#[test]
fn truncate_sf2_name_keeps_short_ascii() {
    assert_eq!(truncate_sf2_name("GM.sf2"), "GM.sf2");
}

#[test]
fn truncate_sf2_name_cuts_long_ascii() {
    let name = "a".repeat(30);
    let result = truncate_sf2_name(&name);
    assert_eq!(result, format!("{}...", "a".repeat(21)));
    assert_eq!(text_cells(&result), 24);
}

#[test]
fn truncate_sf2_name_never_splits_wide_char() {
    let name = "\u{65E5}".repeat(15); // 15 CJK chars = 30 cells
    let result = truncate_sf2_name(&name);
    assert!(text_cells(&result) <= 24);
    // Body before "..." must be an integer number of whole CJK chars.
    let body = result.trim_end_matches("...");
    assert_eq!(text_cells(body) % 2, 0);
}

#[test]
fn ascii_counts_one_cell_per_char() {
    assert_eq!(text_cells("hello"), 5);
}

#[test]
fn cjk_counts_two_cells_per_char() {
    assert_eq!(text_cells("日本語"), 6);
}

#[test]
fn ambiguous_char_counts_as_wide() {
    assert_eq!(text_cells("\u{25CB}"), 2);
}

#[test]
fn truncate_cells_counts_control_chars_as_one() {
    assert_eq!(truncate_cells("ab\u{1}cd", 3), "ab\u{1}");
    assert_eq!(truncate_cells("日本", 3), "日");
    assert_eq!(truncate_cells("", 0), "");
}

#[test]
fn tick_to_location_formats_measure_beat_tick() {
    assert_eq!(tick_to_location(0, 480, 4, 2), "   1. 1.000");
    assert_eq!(tick_to_location(1920 * 11 + 480 * 2 + 7, 480, 4, 2), "  12. 3.007");
    assert_eq!(tick_to_location(250, 480, 6, 3), "   1. 2.010");
    assert_eq!(tick_to_location(42, 0, 4, 2), "42");
    assert_eq!(tick_to_location(42, 1, 4, 3), "42");
}

#[test]
fn note_state_muted_overrides_playback_position() {
    assert_eq!(note_state(0, 100, 50, true), NoteState::Muted);
}

#[test]
fn note_state_classifies_by_tick() {
    assert_eq!(note_state(100, 200, 50, false), NoteState::Upcoming);
    assert_eq!(note_state(100, 200, 100, false), NoteState::Sounding);
    assert_eq!(note_state(100, 200, 199, false), NoteState::Sounding);
    assert_eq!(note_state(100, 200, 200, false), NoteState::Finished);
}

fn nr(key: u8, channel: u8, port: u8, start_tick: u64, end_tick: u64) -> NoteRect {
    NoteRect { key, channel, port, start_tick, end_tick, velocity: 100, track: 0 }
}

#[test]
fn sounding_keys_none_sounding() {
    let notes = [nr(60, 0, 0, 0, 100)];
    assert_eq!(sounding_keys(&notes, 0, 200, 0), [None; 128]);
}

#[test]
fn sounding_keys_latest_start_wins_tie_breaks_to_lower_channel() {
    // Two overlapping notes on the same key at tick 50: the one that
    // started later (channel 2) wins over the earlier one (channel 1).
    let notes = [nr(60, 1, 0, 0, 100), nr(60, 2, 0, 30, 100)];
    let result = sounding_keys(&notes, 0, 50, 0);
    assert_eq!(result[60], Some(2));

    // Same start tick on both: the lower channel wins.
    let notes = [nr(60, 3, 0, 0, 100), nr(60, 1, 0, 0, 100)];
    let result = sounding_keys(&notes, 0, 50, 0);
    assert_eq!(result[60], Some(1));
}

#[test]
fn sounding_keys_ignores_muted_note() {
    let notes = [nr(60, 2, 0, 0, 100)];
    let flat_ch = 1u64 << 2; // port 0, channel 2
    assert_eq!(sounding_keys(&notes, 0, 50, flat_ch)[60], None);
}

#[test]
fn sounding_keys_note_ending_exactly_at_tick_is_not_sounding() {
    let notes = [nr(60, 0, 0, 0, 100)];
    assert_eq!(sounding_keys(&notes, 0, 100, 0)[60], None);
}

#[test]
fn sounding_keys_stops_at_first_later_note_and_skips_before_start() {
    let notes = [nr(50, 0, 0, 0, 100), nr(60, 0, 0, 90, 100), nr(61, 0, 0, 10, 100)];
    let result = sounding_keys(&notes, 1, 50, 0);
    assert_eq!(result[50], None);
    assert_eq!(result[61], None);
}

#[test]
fn key_names_and_black_keys() {
    assert_eq!(key_name_parts(60), ("C", 4));
    assert_eq!(key_name_parts(61), ("C#", 4));
    assert_eq!(key_name_parts(0), ("C", -1));
    assert_eq!(key_name_parts(127), ("G", 9));
    assert_eq!(key_name_parts(200), ("G#", -5));
    assert!(is_black_key(61));
    assert!(!is_black_key(64));
    assert!(is_black_key(70));
}

#[test]
fn channel_colors_cycle_every_eight() {
    assert_eq!(channel_color(0), Color::rgb(0xEE, 0x22, 0x33));
    assert_eq!(channel_color(9), channel_color(1));
    assert_eq!(channel_color(15), Color { r: 0x99, g: 0x99, b: 0x99 });
}

fn snapshot(index: usize, name: &str, counts: &[(usize, u32)], port: u8) -> TrackInfoSnapshot {
    let mut channel_note_counts = [0u32; 16];
    for &(c, n) in counts {
        channel_note_counts[c] = n;
    }
    TrackInfoSnapshot {
        index,
        name: name.to_string(),
        channel: None,
        port,
        program: None,
        note_count: counts.iter().map(|c| c.1).sum(),
        channel_note_counts,
        channel_programs: [None; 16],
    }
}

#[test]
fn raw_rows_in_both_modes() {
    let tracks = vec![
        snapshot(0, "", &[], 0),
        snapshot(1, "Piano", &[(0, 3), (5, 1)], 1),
        snapshot(2, "Empty but named", &[], 0),
    ];
    let rows = build_raw_rows(&tracks, 2, 5, TrackViewMode::Default);
    assert_eq!(rows.len(), 16);
    assert_eq!(rows[3], RawRow::Channel { _track_idx: 0, port: 1, channel: 3 });
    let rows = build_raw_rows(&tracks, 2, 0, TrackViewMode::Detail);
    assert_eq!(
        rows,
        vec![
            RawRow::TrackHeader { track_idx: 1 },
            RawRow::Channel { _track_idx: 1, port: 1, channel: 0 },
            RawRow::Channel { _track_idx: 1, port: 1, channel: 5 },
            RawRow::TrackHeader { track_idx: 2 },
        ]
    );
    assert_eq!(raw_row_count(&tracks, 2, 0, TrackViewMode::Detail), 4);
    assert_eq!(raw_row_count(&tracks, 0, 0, TrackViewMode::Default), 16);
}

#[test]
fn column_flags_drop_in_priority_order() {
    let mut flags = ColumnFlags::all();
    let mut dropped = 0;
    while flags.drop_next() {
        dropped += 1;
    }
    assert_eq!(dropped, 5);
    assert_eq!(flags, ColumnFlags { prg: false, vol: false, pan: false, exp: false, meter: false });
    let mut flags = ColumnFlags::all();
    flags.drop_next();
    assert!(!flags.exp && flags.pan);
}

#[test]
fn pan_display_center_and_sides() {
    assert_eq!(pan_display(64), "C");
    assert_eq!(pan_display(0), "L64");
    assert_eq!(pan_display(127), "R63");
}

#[test]
fn thumb_geometry_full_height_when_all_visible() {
    let (y, h) = thumb_geometry(10, 10, 0, 100, 12);
    assert_eq!(y, 0);
    assert_eq!(h, 100);
}

#[test]
fn thumb_geometry_proportional_and_positioned() {
    let (y, h) = thumb_geometry(100, 10, 0, 100, 5);
    assert_eq!(h, 10);
    assert_eq!(y, 0);

    let (y, h) = thumb_geometry(100, 10, 90, 100, 5);
    assert_eq!(h, 10);
    assert_eq!(y, 90); // max_offset = 90, offset=90 -> bottom
}

#[test]
fn thumb_geometry_floors_at_min_thumb() {
    let (_, h) = thumb_geometry(1000, 5, 0, 100, 12);
    assert_eq!(h, 12);
}

#[test]
fn next_day_count_is_the_day_after() {
    assert_eq!(days_to_ymd(0), (1970, 1, 1));
    assert_eq!(days_to_ymd(18321), (2020, 2, 29));
    assert_eq!(days_to_ymd(18322), (2020, 3, 1));
    assert_eq!(days_to_ymd(19722), (2023, 12, 31));
    assert_eq!(days_to_ymd(19723), (2024, 1, 1));
    assert_eq!(days_to_ymd(30), (1970, 1, 31));
    assert_eq!(days_to_ymd(31), (1970, 2, 1));
}
