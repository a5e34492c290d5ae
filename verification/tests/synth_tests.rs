use ump::midi::mode_detect::MidiMode;
use ump::synth::bundle::{SoundfontBundle, SoundfontConfig};
use ump::sequencer::SynthCommand;
use ump::synth::dispatch::{engine_messages, EngineMessage};
use ump::synth::routing::{RoutingError, SynthRouting};

fn bundle(files: usize, routing: Option<Vec<u8>>) -> SoundfontBundle {
    SoundfontBundle { files: (0..files).map(|i| format!("{i}.sf2")).collect(), routing }
}

#[test]
fn missing_routing_puts_every_channel_on_the_first_file() {
    assert_eq!(bundle(2, None).routing_table(), [0; 16]);
}

#[test]
fn routing_is_clamped_to_the_file_count() {
    let table = bundle(2, Some(vec![1, 9, 0])).routing_table();
    assert_eq!(table[0], 1);
    assert_eq!(table[1], 0, "index 9 has no file and falls back");
    assert_eq!(table[2], 0);
}

#[test]
fn extra_routing_entries_are_ignored() {
    let table = bundle(2, Some(vec![1; 20])).routing_table();
    assert_eq!(table, [1; 16]);
}

#[test]
fn relative_files_resolve_against_the_settings_directory() {
    let base = std::path::Path::new("/etc/ump");
    let resolved = bundle(1, None).resolved_files(Some("/etc/ump"));
    assert_eq!(std::path::PathBuf::from(&resolved[0]), base.join("0.sf2"));
}

#[test]
fn absolute_files_are_kept() {
    let b = SoundfontBundle { files: vec!["/usr/share/gm.sf2".to_string()], routing: None };
    assert_eq!(b.resolved_files(Some("/etc/ump")), vec!["/usr/share/gm.sf2".to_string()]);
    assert_eq!(bundle(1, None).resolved_files(None), vec!["0.sf2".to_string()]);
}

#[test]
fn bundles_are_looked_up_by_mode_name() {
    let bundles = vec![("XG".to_string(), bundle(1, None))];
    let config = SoundfontConfig { bundles: Some(bundles), ..Default::default() };
    assert!(config.bundle_for_mode(MidiMode::XG).is_some());
    assert!(config.bundle_for_mode(MidiMode::GM).is_none());
    assert!(config.resolve_bundle("XG").is_some());
    assert!(SoundfontConfig::default().resolve_bundle("XG").is_none());
}

#[test]
fn routing_maps_ports_to_engine_blocks() {
    let mut table = [0usize; 16];
    table[9] = 1;
    let rt = SynthRouting::new(2, table, 3).expect("valid routing");
    assert_eq!(rt.port_count(), 3);
    assert_eq!(rt.engine_count(), 6);
    assert_eq!(rt.engine_idx(0, 0), 0);
    assert_eq!(rt.engine_idx(0, 9), 1);
    assert_eq!(rt.engine_idx(2, 9), 5);
    // Ports past the last use the last port; channels use their low 4 bits.
    assert_eq!(rt.engine_idx(7, 9 + 16), 5);
    assert_eq!(rt.mute_targets(1), vec![2, 3]);
}

#[test]
fn routing_rejects_bad_inputs_and_clamps_ports() {
    assert_eq!(SynthRouting::new(0, [0; 16], 1).err(), Some(RoutingError::NoSoundFont));
    let mut table = [0usize; 16];
    table[4] = 7;
    table[5] = 3;
    assert_eq!(SynthRouting::new(2, table, 1).err(), Some(RoutingError::OutOfRange(7)));
    assert_eq!(SynthRouting::new(1, [0; 16], 0).unwrap().port_count(), 1);
    assert_eq!(SynthRouting::new(1, [0; 16], 9).unwrap().port_count(), 4);
}

fn two_font_routing() -> SynthRouting {
    let mut table = [0usize; 16];
    table[9] = 1;
    SynthRouting::new(2, table, 2).expect("valid routing")
}

#[test]
fn channel_commands_go_to_the_routed_engine() {
    let rt = two_font_routing();
    let on = SynthCommand::NoteOn { port: 1, channel: 9, key: 36, velocity: 100 };
    assert_eq!(
        engine_messages(&rt, &on),
        vec![(3, EngineMessage::NoteOn { channel: 9, key: 36, velocity: 100 })]
    );
    let off = SynthCommand::NoteOff { port: 0, channel: 2, key: 60 };
    assert_eq!(engine_messages(&rt, &off), vec![(0, EngineMessage::NoteOff { channel: 2, key: 60 })]);
    let pc = SynthCommand::ProgramChange { port: 0, channel: 9, program: 5 };
    assert_eq!(
        engine_messages(&rt, &pc),
        vec![(1, EngineMessage::Channel { channel: 9, command: 0xC0, data1: 5, data2: 0 })]
    );
    let cc = SynthCommand::ControlChange { port: 1, channel: 0, controller: 7, value: 90 };
    assert_eq!(
        engine_messages(&rt, &cc),
        vec![(2, EngineMessage::Channel { channel: 0, command: 0xB0, data1: 7, data2: 90 })]
    );
    let pa = SynthCommand::PolyAftertouch { port: 0, channel: 1, key: 64, pressure: 33 };
    assert_eq!(
        engine_messages(&rt, &pa),
        vec![(0, EngineMessage::Channel { channel: 1, command: 0xA0, data1: 64, data2: 33 })]
    );
    let ca = SynthCommand::ChannelAftertouch { port: 0, channel: 1, pressure: 12 };
    assert_eq!(
        engine_messages(&rt, &ca),
        vec![(0, EngineMessage::Channel { channel: 1, command: 0xD0, data1: 12, data2: 0 })]
    );
}

#[test]
fn pitch_bend_is_sent_as_two_data_bytes() {
    let rt = two_font_routing();
    let pb = SynthCommand::PitchBend { port: 0, channel: 0, value: 0 };
    assert_eq!(
        engine_messages(&rt, &pb),
        vec![(0, EngineMessage::Channel { channel: 0, command: 0xE0, data1: 0, data2: 64 })]
    );
    let top = SynthCommand::PitchBend { port: 0, channel: 0, value: 8191 };
    assert_eq!(
        engine_messages(&rt, &top),
        vec![(0, EngineMessage::Channel { channel: 0, command: 0xE0, data1: 127, data2: 127 })]
    );
}

#[test]
fn resets_reach_every_engine_and_other_sysex_none() {
    let rt = two_font_routing();
    let all: Vec<(usize, EngineMessage)> = (0..4).map(|i| (i, EngineMessage::Reset)).collect();
    assert_eq!(engine_messages(&rt, &SynthCommand::SystemReset), all);
    let gm_on = SynthCommand::SysEx(vec![0x7E, 0x7F, 0x09, 0x01, 0xF7]);
    assert_eq!(engine_messages(&rt, &gm_on), all);
    let master_volume = SynthCommand::SysEx(vec![0x7F, 0x7F, 0x04, 0x01, 0x00, 0x40, 0xF7]);
    assert!(engine_messages(&rt, &master_volume).is_empty());
}

#[test]
fn mute_mask_silences_its_channels_on_each_engine_of_the_port() {
    let rt = two_font_routing();
    let cmd = SynthCommand::MuteMask { port: 1, mask: (1 << 3) | (1 << 9) };
    assert_eq!(
        engine_messages(&rt, &cmd),
        vec![
            (2, EngineMessage::Silence { channel: 3 }),
            (2, EngineMessage::Silence { channel: 9 }),
            (3, EngineMessage::Silence { channel: 3 }),
            (3, EngineMessage::Silence { channel: 9 }),
        ]
    );
    let none = SynthCommand::MuteMask { port: 0, mask: 0 };
    assert!(engine_messages(&rt, &none).is_empty());
}
