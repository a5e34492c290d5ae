use ump::midi::event::{MidiEvent, TimedMidiEvent};
use ump::midi::mode_detect::{detect_mode, MidiMode};
use ump::midi::parser::{build_midi_data, parse_midi};
use ump::midi::smf::{
    decode_smf, ChannelMessage, MetaEvent, ParseError, SmfEvent, SmfEventKind, SmfFile,
};
use ump::midi::sysex::{gs_part_to_channel, parse_sysex, SysExCommand};
use ump::midi::text::{decode_meta_text, trim_ascii};

#[test]
fn test_gm_reset() {
    let data = [0x7E, 0x7F, 0x09, 0x01];
    assert_eq!(parse_sysex(&data), Some(SysExCommand::SystemReset(MidiMode::GM)));
}

#[test]
fn test_gm2_reset() {
    let data = [0x7E, 0x7F, 0x09, 0x03];
    assert_eq!(parse_sysex(&data), Some(SysExCommand::SystemReset(MidiMode::GM2)));
}

#[test]
fn test_gs_reset() {
    let data = [0x41, 0x10, 0x42, 0x12, 0x40, 0x00, 0x7F, 0x00, 0x41];
    assert_eq!(parse_sysex(&data), Some(SysExCommand::SystemReset(MidiMode::GS)));
}

#[test]
fn test_xg_system_on() {
    let data = [0x43, 0x10, 0x4C, 0x00, 0x00, 0x7E, 0x00];
    assert_eq!(parse_sysex(&data), Some(SysExCommand::SystemReset(MidiMode::XG)));
}

#[test]
fn test_gs_drum_map() {
    // Part 0 (Ch9) -> drum on
    let data = [0x41, 0x10, 0x42, 0x12, 0x40, 0x10, 0x15, 0x02, 0x19];
    assert_eq!(parse_sysex(&data), Some(SysExCommand::GsDrumMap { channel: 9, is_drum: true }));

    // Part 2 (Ch1) -> drum on
    let data = [0x41, 0x10, 0x42, 0x12, 0x40, 0x12, 0x15, 0x01, 0x18];
    assert_eq!(parse_sysex(&data), Some(SysExCommand::GsDrumMap { channel: 1, is_drum: true }));
}

#[test]
fn test_master_volume() {
    let data = [0x7F, 0x7F, 0x04, 0x01, 0x00, 0x7F];
    assert_eq!(parse_sysex(&data), Some(SysExCommand::MasterVolume(0x7F)));
}

#[test]
fn test_trailing_f7_stripped() {
    let data = [0x7E, 0x7F, 0x09, 0x01, 0xF7];
    assert_eq!(parse_sysex(&data), Some(SysExCommand::SystemReset(MidiMode::GM)));
}

#[test]
fn test_unknown_sysex() {
    let data = [0x00, 0x01, 0x02];
    assert_eq!(parse_sysex(&data), None);
}

#[test]
fn test_gs_part_to_channel() {
    assert_eq!(gs_part_to_channel(0), 9);
    assert_eq!(gs_part_to_channel(1), 0);
    assert_eq!(gs_part_to_channel(9), 8);
    assert_eq!(gs_part_to_channel(10), 10);
    assert_eq!(gs_part_to_channel(15), 15);
}

#[test]
fn decodes_ascii() {
    assert_eq!(decode_meta_text(b"Piano"), "Piano");
}

#[test]
fn trims_padding_and_nuls() {
    assert_eq!(decode_meta_text(b"  Strings \0\0"), "Strings");
}

#[test]
fn decodes_utf8() {
    assert_eq!(decode_meta_text("ピアノ".as_bytes()), "ピアノ");
}

#[test]
fn falls_back_to_shift_jis() {
    // "ピアノ" in Shift-JIS, which is not valid UTF-8.
    let shift_jis = [0x83, 0x73, 0x83, 0x41, 0x83, 0x6D];
    assert_eq!(decode_meta_text(&shift_jis), "ピアノ");
}

#[test]
fn empty_input_yields_empty_string() {
    assert_eq!(decode_meta_text(b""), "");
    assert_eq!(decode_meta_text(b"\0\0"), "");
}

#[test]
fn trim_ascii_keeps_inner_padding() {
    assert_eq!(trim_ascii(b"\t a \0 b\r\n"), b"a \0 b");
    assert_eq!(trim_ascii(b"\x0b"), b"\x0b", "vertical tab is not ASCII whitespace here");
    assert_eq!(trim_ascii(b" \0 "), b"");
}

fn ev(tick: u64, event: MidiEvent) -> TimedMidiEvent {
    TimedMidiEvent { tick, event, track: 0 }
}

#[test]
fn detect_mode_prefers_reset_by_priority() {
    let events = vec![
        ev(0, MidiEvent::SysEx(vec![0x43, 0x10, 0x4C, 0x00, 0x00, 0x7E, 0x00])),
        ev(10, MidiEvent::SysEx(vec![0x7E, 0x7F, 0x09, 0x01])),
    ];
    assert_eq!(detect_mode(&events), MidiMode::XG);
    assert_eq!(detect_mode(&[]), MidiMode::GM);
    // A GM reset first, then a GS reset: GS ranks above GM.
    let events = vec![
        ev(0, MidiEvent::SysEx(vec![0x7E, 0x7F, 0x09, 0x01])),
        ev(10, MidiEvent::SysEx(vec![0x41, 0x10, 0x42, 0x12, 0x40, 0x00, 0x7F, 0x00, 0x41])),
    ];
    assert_eq!(detect_mode(&events), MidiMode::GS);
}

#[test]
fn mode_names() {
    assert_eq!(MidiMode::GM.name(), "GM");
    assert_eq!(MidiMode::GS.name(), "GS");
    assert_eq!(MidiMode::XG.name(), "XG");
    assert_eq!(MidiMode::GM2.name(), "GM2");
}

/// A Standard MIDI File: header then the given tracks (raw track bytes).
fn smf(format: u16, tpq: u16, tracks: &[Vec<u8>]) -> Vec<u8> {
    let mut out = b"MThd".to_vec();
    out.extend_from_slice(&6u32.to_be_bytes());
    out.extend_from_slice(&format.to_be_bytes());
    out.extend_from_slice(&(tracks.len() as u16).to_be_bytes());
    out.extend_from_slice(&tpq.to_be_bytes());
    for t in tracks {
        out.extend_from_slice(b"MTrk");
        out.extend_from_slice(&(t.len() as u32).to_be_bytes());
        out.extend_from_slice(t);
    }
    out
}

fn track_a() -> Vec<u8> {
    vec![
        0x00, 0xFF, 0x03, 0x05, b' ', b'L', b'e', b'a', b'd', // name " Lead"
        0x00, 0xFF, 0x51, 0x03, 0x07, 0xA1, 0x20, // tempo 500000
        0x00, 0x90, 60, 100, // note on C4
        0x00, 0x91, 64, 90, // note on E4 on channel 1
        0x83, 0x60, 0x80, 60, 0, // 480 ticks later: note off C4
        0x00, 0xFF, 0x2F, 0x00, // end of track
    ]
}

fn track_b() -> Vec<u8> {
    vec![
        0x00, 0xFF, 0x21, 0x01, 0x02, // port 2
        0x81, 0x70, 0xC0, 5, // tick 240: program 5
        0x00, 0x90, 62, 80, // note on D4
        0x78, 0x90, 62, 0, // tick 360: velocity-0 note off
        0x00, 0xFF, 0x51, 0x03, 0x0F, 0x42, 0x40, // tick 360: tempo 1000000
        0x00, 0xFF, 0x2F, 0x00,
    ]
}

#[test]
fn parse_midi_merges_tracks_in_tick_order() {
    let bytes = smf(1, 480, &[track_a(), track_b()]);
    let (data, tempo) = parse_midi(&bytes).expect("valid file");
    assert_eq!(data.ticks_per_quarter, 480);
    assert_eq!(data.format, 1);
    let ticks: Vec<u64> = data.events.iter().map(|e| e.tick).collect();
    assert_eq!(ticks, vec![0, 0, 0, 240, 240, 360, 360, 480]);
    // Ties keep track order: track 0's tempo and notes come before track 1's.
    assert_eq!(data.events[0].event, MidiEvent::TempoChange(500000));
    assert_eq!(data.events[3].event, MidiEvent::ProgramChange { port: 2, channel: 0, program: 5 });
    assert_eq!(data.events[5].event, MidiEvent::NoteOff { port: 2, channel: 0, key: 62 });
    assert_eq!(data.total_ticks, 480);
    assert_eq!(data.port_count, 3);
    assert_eq!(data.used_channels, (1 << 0) | (1 << 1) | (1 << 32));
    assert_eq!(tempo, vec![(0, 500000), (360, 1000000)]);
}

#[test]
fn parse_midi_builds_note_rects_and_track_info() {
    let bytes = smf(1, 480, &[track_a(), track_b()]);
    let (data, _) = parse_midi(&bytes).expect("valid file");
    let rects: Vec<(u8, u64, u64)> =
        data.note_rects.iter().map(|r| (r.key, r.start_tick, r.end_tick)).collect();
    // Sorted by start; E4 never ends and is closed at the end of its track.
    assert_eq!(rects, vec![(60, 0, 480), (64, 0, 480), (62, 240, 360)]);
    assert_eq!(data.tracks.len(), 2);
    assert_eq!(data.tracks[0].name, "Lead");
    assert_eq!(data.tracks[0].note_count, 2);
    // Channels 0 and 1 tie on one note each: the higher channel is primary.
    assert_eq!(data.tracks[0].channel, Some(1));
    assert_eq!(data.tracks[1].port, 2);
    assert_eq!(data.tracks[1].channel, Some(0));
    assert_eq!(data.tracks[1].program, Some(5));
}

#[test]
fn parse_midi_rejects_garbage_and_timecode() {
    assert_eq!(parse_midi(b"not a midi file").err(), Some(ParseError::Malformed));
    let mut bytes = smf(0, 480, &[vec![0x00, 0xFF, 0x2F, 0x00]]);
    bytes[12] = 0xE7; // SMPTE -25 fps
    bytes[13] = 0x28;
    assert_eq!(parse_midi(&bytes).err(), Some(ParseError::TimecodeUnsupported));
    assert!(decode_smf(&bytes).is_ok());
}

#[test]
fn build_midi_data_from_plain_events() {
    let file = SmfFile {
        format: 0,
        ticks_per_quarter: Some(96),
        tracks: vec![vec![
            SmfEvent {
                delta: 0,
                kind: SmfEventKind::Midi { channel: 9, message: ChannelMessage::NoteOn { key: 36, vel: 127 } },
            },
            SmfEvent { delta: 10, kind: SmfEventKind::Meta(MetaEvent::TimeSignature(3, 2, 24, 8)) },
            SmfEvent {
                delta: 5,
                kind: SmfEventKind::Midi { channel: 9, message: ChannelMessage::PitchBend { bend: -8192 } },
            },
            SmfEvent { delta: 1, kind: SmfEventKind::SysEx(vec![0x7E, 0x7F, 0x09, 0x01, 0xF7]) },
            SmfEvent { delta: 2, kind: SmfEventKind::Escape },
        ]],
    };
    let (data, tempo) = build_midi_data(&file).expect("metrical file");
    assert_eq!(data.events.len(), 4);
    assert_eq!(data.events[1].event, MidiEvent::TimeSignature { numerator: 3, denominator: 2 });
    assert_eq!(data.events[2].event, MidiEvent::PitchBend { port: 0, channel: 9, value: -8192 });
    assert_eq!(data.events[3].tick, 16);
    assert_eq!(data.total_ticks, 16);
    assert_eq!(data.note_rects.len(), 1);
    assert_eq!(data.note_rects[0].end_tick, 18);
    assert!(tempo.is_empty());

    let timecode = SmfFile { format: 0, ticks_per_quarter: None, tracks: vec![] };
    assert_eq!(build_midi_data(&timecode).err(), Some(ParseError::TimecodeUnsupported));
}

#[test]
fn parsed_song_keeps_events_and_notes_within_bounds() {
    let bytes = smf(1, 480, &[track_a(), track_b()]);
    let (data, _) = parse_midi(&bytes).expect("valid file");
    assert!(data.events.iter().all(|e| e.tick <= data.total_ticks));
    assert!(data.events.windows(2).all(|w| w[0].tick <= w[1].tick));
    assert!(data.note_rects.windows(2).all(|w| w[0].start_tick <= w[1].start_tick));
    assert!(data
        .note_rects
        .iter()
        .all(|r| r.key < 128 && r.channel < 16 && r.port <= 3 && r.start_tick <= r.end_tick));
    assert!((1..=4).contains(&data.port_count));
}
