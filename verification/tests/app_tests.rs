use ump::config::{AudioConfig, DisplayConfig};
use ump::debug::{is_verbose, log_line, log_timestamp, rotated_log_name, LogState, MAX_LOG_BYTES};
use ump::midi::event::{MidiData, MidiEvent, NoteRect, TimedMidiEvent, TrackInfo};
use ump::sequencer::all_events_playable;
use ump::synth::bundle::SoundfontConfig;
use ump::midi::mode_detect::MidiMode;
use ump::player::{
    level_velocities, App, AppScreen, FocusPanel, TrackViewMode, VerticalFlow,
};
use ump::synth::message::pitch_bend_data;
use ump::ui::file_browser::{path_tail, BrowseTarget};
use ump::ui::header::format_duration_centis;
use ump::ui::input::{
    after_load, browser_key_commands, player_key_commands, AfterLoad, BrowserCommand, NamedKey,
    PlayerCommand,
};
use ump::ui::piano_roll::key_window;
use ump::ui::text::{text_cells, visible_slice};
use ump::ui::track_list::detail_scroll_offset;

fn display() -> DisplayConfig {
    DisplayConfig {
        show_piano_roll: None,
        track_view_mode: None,
        piano_roll_vertical: None,
        piano_roll_flow: None,
    }
}

fn track(index: usize, name: &str, port: u8, counts: &[(usize, u32)]) -> TrackInfo {
    let mut channel_note_counts = [0u32; 16];
    let mut total = 0;
    for &(c, n) in counts {
        channel_note_counts[c] = n;
        total += n;
    }
    TrackInfo {
        index,
        name: name.to_string(),
        channel: counts.first().map(|&(c, _)| c as u8),
        port,
        program: None,
        note_count: total,
        channel_note_counts,
        channel_programs: [None; 16],
    }
}

fn midi(port_count: u8, tracks: Vec<TrackInfo>) -> MidiData {
    MidiData {
        ticks_per_quarter: 480,
        format: 1,
        events: vec![],
        note_rects: vec![],
        tracks,
        total_ticks: 1920,
        used_channels: 0b1011,
        port_count,
    }
}

#[test]
fn new_empty_takes_config_and_waits_in_browser() {
    let mut d = display();
    d.track_view_mode = Some("Detail".to_string());
    d.piano_roll_flow = Some("up".to_string());
    d.piano_roll_vertical = Some(true);
    let app = App::new_empty(&AudioConfig { volume: Some(250) }, &d);
    assert_eq!(app.screen, AppScreen::FileBrowser);
    assert_eq!(app.shared.volume, 100);
    assert_eq!(app.track_view_mode, TrackViewMode::Detail);
    assert_eq!(app.piano_roll_flow, VerticalFlow::Up);
    assert!(app.piano_roll_vertical);
    assert!(app.show_piano_roll);
    assert!(!app.has_midi() && !app.has_sf2());
    let app = App::new_empty(&AudioConfig { volume: None }, &display());
    assert_eq!(app.volume(), 80);
    assert_eq!(app.track_view_mode, TrackViewMode::Default);
}

#[test]
fn new_loaded_copies_song_and_sets_drums_per_port() {
    let m = midi(2, vec![track(0, "Piano", 1, &[(0, 3)])]);
    let app = App::new_loaded(&m, &AudioConfig { volume: Some(60) }, &display());
    assert_eq!(app.screen, AppScreen::Player);
    assert_eq!(app.midi_mode, "GM");
    assert_eq!(app.port_count, 2);
    assert_eq!(app.shared.drum_channels, (1u64 << 9) | (1u64 << 25));
    assert_eq!(app.track_info.len(), 1);
    assert_eq!(app.track_info[0].name, "Piano");
    assert_eq!(app.track_info[0].port, 1);
    assert_eq!(app.total_ticks, 1920);
    assert_eq!(app.volume(), 60);
}

#[test]
fn load_midi_resets_playback_but_keeps_volume_and_view() {
    let mut app = App::new_loaded(&midi(1, vec![]), &AudioConfig { volume: Some(40) }, &display());
    app.toggle_play();
    app.shared.toggle_channel_mute(3);
    app.track_cursor = 5;
    app.toggle_track_view_mode();
    app.load_midi(&midi(3, vec![track(0, "Bass", 2, &[(1, 2)])]), "GS", "song.mid");
    assert!(!app.is_playing());
    assert_eq!(app.shared.muted_channels, 0);
    assert_eq!(app.volume(), 40);
    assert_eq!(app.track_cursor, 0);
    assert_eq!(app.port_count, 3);
    assert_eq!(app.midi_mode, "GS");
    assert_eq!(app.midi_file_path.as_deref(), Some("song.mid"));
    assert_eq!(app.track_view_mode, TrackViewMode::Detail);
}

#[test]
fn cursor_moves_within_rows() {
    let mut app = App::new_loaded(&midi(1, vec![]), &AudioConfig { volume: None }, &display());
    app.move_cursor_up();
    assert_eq!(app.track_cursor, 0);
    for _ in 0..20 {
        app.move_cursor_down();
    }
    assert_eq!(app.track_cursor, 15);
    app.select_track_row(100);
    assert_eq!(app.track_cursor, 15);
    app.select_track_row(4);
    assert_eq!(app.track_cursor, 4);
    app.toggle_track_view_mode();
    app.select_track_row(4);
    assert_eq!(app.track_cursor, 0);
}

#[test]
fn mute_and_solo_rows() {
    let tracks = vec![track(0, "Lead", 0, &[(0, 4), (2, 1)])];
    let mut app = App::new_loaded(&midi(1, tracks), &AudioConfig { volume: None }, &display());
    app.toggle_mute_row(2);
    assert_eq!(app.shared.muted_channels, 1 << 2);
    app.toggle_mute_row(2);
    assert_eq!(app.shared.muted_channels, 0);
    app.toggle_solo_row(0);
    assert_eq!(app.shared.muted_channels, 0b1010);
    app.toggle_solo_row(0);
    assert_eq!(app.shared.muted_channels, 0);
    // Detail mode: row 0 is the track header, rows 1 and 2 its channels.
    app.toggle_track_view_mode();
    app.toggle_mute_row(0);
    assert_eq!(app.shared.muted_channels, 0);
    app.toggle_mute_row(2);
    assert_eq!(app.shared.muted_channels, 1 << 2);
    app.track_cursor = 1;
    app.toggle_mute_selected();
    assert_eq!(app.shared.muted_channels, (1 << 2) | 1);
}

#[test]
fn mute_on_second_port_uses_flat_channel() {
    let mut app = App::new_loaded(&midi(2, vec![]), &AudioConfig { volume: None }, &display());
    app.next_port();
    assert_eq!(app.current_port, 1);
    app.toggle_mute_row(3);
    assert_eq!(app.shared.muted_channels, 1 << 19);
}

#[test]
fn ports_step_and_clamp() {
    let mut app = App::new_loaded(&midi(3, vec![]), &AudioConfig { volume: None }, &display());
    app.track_cursor = 7;
    app.next_port();
    assert_eq!((app.current_port, app.track_cursor), (1, 0));
    app.next_port();
    app.next_port();
    assert_eq!(app.current_port, 2);
    app.prev_port();
    assert_eq!(app.current_port, 1);
    app.set_port(9);
    assert_eq!(app.current_port, 1);
    app.set_port(0);
    assert_eq!(app.current_port, 0);
    app.prev_port();
    assert_eq!(app.current_port, 0);
}

#[test]
fn volume_steps_and_clamps() {
    let mut app = App::new_empty(&AudioConfig { volume: Some(97) }, &display());
    app.volume_up();
    assert_eq!(app.volume(), 100);
    app.set_volume(3);
    app.volume_down();
    assert_eq!(app.volume(), 0);
    app.set_volume(500);
    assert_eq!(app.volume(), 100);
    app.set_volume(50);
    app.volume_up();
    app.volume_down();
    assert_eq!(app.volume(), 50);
}

#[test]
fn seek_to_tick_is_clamped_to_song_length() {
    let mut app = App::new_loaded(&midi(1, vec![]), &AudioConfig { volume: None }, &display());
    app.seek_to_tick(100_000);
    assert_eq!(app.shared.take_seek(), Some(1920));
    app.seek_to_tick(100);
    assert_eq!(app.shared.take_seek(), Some(100));
}

#[test]
fn toggles_flip_and_flip_back() {
    let mut app = App::new_empty(&AudioConfig { volume: None }, &display());
    app.cycle_focus();
    assert_eq!(app.focus, FocusPanel::PianoRoll);
    app.cycle_focus();
    assert_eq!(app.focus, FocusPanel::TrackList);
    app.toggle_help();
    assert!(app.show_help);
    app.toggle_piano_roll();
    assert!(!app.show_piano_roll);
    app.toggle_piano_roll_orientation();
    assert!(app.piano_roll_vertical);
    app.toggle_piano_roll_flow();
    assert_eq!(app.piano_roll_flow, VerticalFlow::Up);
    app.scroll_keys(1000);
    assert_eq!(app.key_scroll, 127);
    app.scroll_keys(-300);
    assert_eq!(app.key_scroll, -127);
    app.scroll_keys(i32::MIN);
    assert_eq!(app.key_scroll, -127);
}

#[test]
fn set_midi_mode_resets_channels_and_replays_position() {
    let mut app = App::new_loaded(&midi(2, vec![]), &AudioConfig { volume: None }, &display());
    app.shared.current_tick = 700;
    app.shared.master_volume = 20;
    app.shared.channel_states.program[3] = 40;
    app.set_midi_mode("XG");
    assert_eq!(app.midi_mode, "XG");
    assert_eq!(app.shared.master_volume, 127);
    assert_eq!(app.shared.channel_states.program[3], 0);
    assert_eq!(app.shared.take_seek(), Some(700));
}

#[test]
fn save_into_writes_session_settings() {
    let mut app = App::new_empty(&AudioConfig { volume: Some(35) }, &display());
    app.toggle_track_view_mode();
    app.toggle_piano_roll_flow();
    let mut audio = AudioConfig { volume: None };
    let mut d = display();
    app.save_into(&mut audio, &mut d);
    assert_eq!(audio.volume, Some(35));
    assert_eq!(d.track_view_mode.as_deref(), Some("Detail"));
    assert_eq!(d.piano_roll_flow.as_deref(), Some("up"));
    assert_eq!(d.piano_roll_vertical, Some(false));
}

fn note(port: u8, channel: u8, start: u64, end: u64, velocity: u8) -> NoteRect {
    NoteRect { key: 60, channel, port, start_tick: start, end_tick: end, velocity, track: 0 }
}

#[test]
fn level_velocities_zero_when_not_playing() {
    let notes = [note(0, 0, 0, 10, 127)];
    assert_eq!(level_velocities(&notes, 5, 100, false), vec![0u8; 64]);
}

#[test]
fn level_velocities_picks_max_velocity_of_overlapping_notes() {
    let notes = [note(0, 2, 0, 10, 64), note(0, 2, 2, 8, 127)];
    assert_eq!(level_velocities(&notes, 5, 100, true)[2], 127);
}

#[test]
fn level_velocities_excludes_notes_outside_start_end_window() {
    let notes = [note(0, 0, 0, 5, 127)];
    assert_eq!(level_velocities(&notes, 5, 100, true)[0], 0);
}

#[test]
fn level_velocities_applies_port_offset() {
    let notes = [note(1, 0, 0, 10, 127)];
    let levels = level_velocities(&notes, 5, 100, true);
    assert_eq!(levels[16], 127);
    assert_eq!(levels[0], 0);
}

#[test]
fn level_velocities_skip_notes_started_before_the_scan_window() {
    // Window is a quarter of 100 ticks: a note started at 10 is skipped at
    // tick 50 although it still sounds; one started at 30 counts.
    let notes = [note(0, 0, 10, 90, 100), note(0, 1, 30, 90, 90), note(0, 1, 60, 90, 120)];
    let levels = level_velocities(&notes, 50, 100, true);
    assert_eq!(levels[0], 0);
    assert_eq!(levels[1], 90);
}

#[test]
fn path_tail_keeps_short_path_intact() {
    assert_eq!(path_tail("C:\\short", 20), "C:\\short");
}

#[test]
fn path_tail_prefixes_ellipsis_and_keeps_tail() {
    let result = path_tail("C:\\a\\very\\long\\path\\here", 12);
    assert!(result.starts_with("..."));
    assert!(text_cells(&result) <= 12);
    assert!(result.ends_with("here"));
}

#[test]
fn path_tail_never_splits_a_wide_char() {
    let path = format!("C:\\{}", "\u{65E5}".repeat(10)); // 10 CJK chars = 20 cells
    let result = path_tail(&path, 10);
    assert!(text_cells(&result) <= 10);
    let body = result.trim_start_matches("...");
    assert_eq!(text_cells(body) % 2, 0);
}

#[test]
fn path_tail_exact_cut_and_tiny_width() {
    assert_eq!(path_tail("abcdefghij", 7), "...ghij");
    assert_eq!(path_tail("abcdefghij", 2), "..");
    assert_eq!(path_tail("abcdefghij", 0), "");
}

#[test]
fn key_window_centers_when_not_all_keys_fit() {
    // 100 keys, 10 slots fit: centred.
    assert_eq!(key_window(0, 99, 10, 0), (45, 54, 0));
}

#[test]
fn key_window_scrolls_and_clamps_at_both_ends() {
    let (lo, hi, eff) = key_window(0, 99, 10, 1000);
    assert_eq!((lo, hi), (90, 99));
    assert_eq!(key_window(0, 99, 10, eff), (lo, hi, eff));
    let (lo, hi, eff) = key_window(0, 99, 10, -1000);
    assert_eq!((lo, hi), (0, 9));
    assert_eq!(key_window(0, 99, 10, eff), (lo, hi, eff));
}

#[test]
fn key_window_reversing_after_overshoot_moves_immediately() {
    let (_, hi_clamped, eff) = key_window(0, 99, 10, 1000);
    let (_, hi_after, _) = key_window(0, 99, 10, eff - 1);
    assert!(hi_after < hi_clamped);
}

#[test]
fn key_window_keeps_at_least_one_key() {
    assert_eq!(key_window(60, 71, 0, 0), (65, 65, 0));
    assert_eq!(key_window(60, 71, 50, 3), (60, 71, 0));
}

#[test]
fn visible_slice_skips_cut_characters() {
    assert_eq!(visible_slice("hello world", 0, 5), "hello");
    assert_eq!(visible_slice("hello world", 6, 20), "world");
    // A wide character cut by the window's start is left out.
    assert_eq!(visible_slice("\u{65E5}\u{672C}ab", 1, 4), "\u{672C}a");
    assert_eq!(visible_slice("abc", 5, 3), "");
}

#[test]
fn format_duration_centis_includes_centiseconds() {
    assert_eq!(format_duration_centis(0), "00:00.00");
    assert_eq!(format_duration_centis(6550), "01:05.50");
    assert_eq!(format_duration_centis(366101), "61:01.01");
}

#[test]
fn player_keys_map_to_commands() {
    assert_eq!(player_key_commands(Some(" "), Some(NamedKey::Space), false, false), vec![
        PlayerCommand::TogglePlay
    ]);
    assert_eq!(player_key_commands(Some("m"), None, false, false), vec![PlayerCommand::ToggleMute]);
    assert_eq!(player_key_commands(Some("3"), None, false, false), vec![
        PlayerCommand::SetMode(MidiMode::XG)
    ]);
    assert_eq!(player_key_commands(Some("Q"), Some(NamedKey::Space), false, false), vec![
        PlayerCommand::Quit
    ]);
    assert_eq!(player_key_commands(Some("c"), None, true, false), vec![PlayerCommand::Quit]);
    assert_eq!(player_key_commands(Some("c"), None, false, false), vec![]);
    assert_eq!(player_key_commands(None, Some(NamedKey::Escape), false, false), vec![
        PlayerCommand::Quit
    ]);
    assert_eq!(player_key_commands(None, Some(NamedKey::ArrowLeft), false, false), vec![
        PlayerCommand::SeekBackward
    ]);
    assert_eq!(player_key_commands(Some("ab"), None, false, false), vec![]);
}

#[test]
fn help_overlay_swallows_keys() {
    assert_eq!(player_key_commands(Some("m"), None, false, true), vec![]);
    assert_eq!(player_key_commands(Some("?"), None, false, true), vec![PlayerCommand::ToggleHelp]);
    assert_eq!(player_key_commands(None, Some(NamedKey::Escape), false, true), vec![
        PlayerCommand::ToggleHelp
    ]);
    assert_eq!(player_key_commands(Some("c"), None, true, true), vec![PlayerCommand::Quit]);
}

#[test]
fn browser_keys_map_to_commands() {
    assert_eq!(browser_key_commands(Some("/"), None, false, false), vec![BrowserCommand::GoDrives]);
    assert_eq!(browser_key_commands(None, Some(NamedKey::Escape), false, false), vec![
        BrowserCommand::Quit
    ]);
    assert_eq!(browser_key_commands(None, Some(NamedKey::Escape), false, true), vec![
        BrowserCommand::BackToPlayer
    ]);
    assert_eq!(browser_key_commands(None, Some(NamedKey::Backspace), false, true), vec![
        BrowserCommand::GoParent
    ]);
    assert_eq!(browser_key_commands(Some("c"), Some(NamedKey::Enter), true, true), vec![
        BrowserCommand::Quit
    ]);
}

#[test]
fn after_load_asks_for_the_missing_file() {
    assert_eq!(after_load(BrowseTarget::Midi, false, false, true), AfterLoad::Stay);
    assert_eq!(after_load(BrowseTarget::Midi, true, true, false), AfterLoad::Browse(BrowseTarget::Sf2));
    assert_eq!(after_load(BrowseTarget::Sf2, true, false, true), AfterLoad::Browse(BrowseTarget::Midi));
    assert_eq!(after_load(BrowseTarget::Sf2, true, true, true), AfterLoad::Play);
}

#[test]
fn log_lines_and_rotation() {
    assert_eq!(log_timestamp(0), "1970-01-01 00:00:00");
    assert_eq!(log_timestamp(18321 * 86400 + 3661), "2020-02-29 01:01:01");
    assert_eq!(log_line("2020-02-29 01:01:01", "WARN", "late"), "2020-02-29 01:01:01 [WARN] late\n");
    assert_eq!(rotated_log_name("2026-02-07 12:34:56"), "ump_20260207123456.log");
    let mut log = LogState { bytes_written: MAX_LOG_BYTES - 10, verbose: true };
    assert!(!log.record_write(9));
    assert!(log.record_write(1));
    log.rotated();
    assert_eq!(log.bytes_written, 0);
    assert!(is_verbose(Some(&log)));
    assert!(!is_verbose(None));
}

#[test]
fn pitch_bend_data_splits_fourteen_bits() {
    assert_eq!(pitch_bend_data(0), (0, 64));
    assert_eq!(pitch_bend_data(-8192), (0, 0));
    assert_eq!(pitch_bend_data(8191), (127, 127));
    assert_eq!(pitch_bend_data(-200), (56, 62)); // 7992 = 62 * 128 + 56
    assert_eq!(pitch_bend_data(i16::MIN), (0, 64)); // wraps modulo 2^14
}

#[test]
fn resolve_sf2_prefers_recent_then_default() {
    let mut sf = SoundfontConfig { default_path: None, recent_path: None, bundles: None };
    assert_eq!(ump::config::resolve_sf2(&sf), None);
    sf.default_path = Some("/abs/default.sf2".to_string());
    assert_eq!(ump::config::resolve_sf2(&sf).as_deref(), Some("/abs/default.sf2"));
    sf.recent_path = Some("/abs/recent.sf2".to_string());
    assert_eq!(ump::config::resolve_sf2(&sf).as_deref(), Some("/abs/recent.sf2"));
}

#[test]
fn all_events_playable_rejects_out_of_range_ports() {
    let ok = vec![
        TimedMidiEvent { tick: 0, event: MidiEvent::NoteOn { port: 3, channel: 15, key: 60, vel: 1 }, track: 0 },
        TimedMidiEvent { tick: 0, event: MidiEvent::TempoChange(500_000), track: 0 },
    ];
    assert!(all_events_playable(&ok));
    let bad = vec![TimedMidiEvent {
        tick: 0,
        event: MidiEvent::ProgramChange { port: 4, channel: 0, program: 1 },
        track: 0,
    }];
    assert!(!all_events_playable(&bad));
}

#[test]
fn detail_scroll_keeps_cursor_on_last_visible_row() {
    assert_eq!(detail_scroll_offset(0, 5), 0);
    assert_eq!(detail_scroll_offset(4, 5), 0);
    assert_eq!(detail_scroll_offset(5, 5), 1);
    assert_eq!(detail_scroll_offset(9, 5), 5);
}

#[test]
fn track_view_mode_round_trips_through_config() {
    for m in [TrackViewMode::Default, TrackViewMode::Detail] {
        assert_eq!(TrackViewMode::from_config(Some(m.as_config_str())), m);
    }
    assert_eq!(TrackViewMode::from_config(Some("detail")), TrackViewMode::Default);
    assert_eq!(TrackViewMode::from_config(None), TrackViewMode::Default);
}

#[test]
fn a_requested_seek_is_taken_once() {
    let mut app = App::new_empty(&AudioConfig { volume: None }, &display());
    app.shared.request_seek(42);
    assert_eq!(app.shared.take_seek(), Some(42));
    assert_eq!(app.shared.take_seek(), None);
}
