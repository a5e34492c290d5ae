use ump::midi::event::{MidiData, MidiEvent, TimedMidiEvent};
use ump::sequencer::{EventSink, Sequencer, SynthCommand};
use ump::state::shared::{ChannelStates, SharedState};
use ump::state::sink::SharedStateSink;

fn ev(tick: u64, event: MidiEvent) -> TimedMidiEvent {
    TimedMidiEvent { tick, event, track: 0 }
}

fn data(events: Vec<TimedMidiEvent>) -> MidiData {
    let total_ticks = events.last().map(|e| e.tick).unwrap_or(0);
    MidiData {
        ticks_per_quarter: 480,
        format: 1,
        events,
        note_rects: vec![],
        tracks: vec![],
        total_ticks,
        used_channels: 0,
        port_count: 2,
    }
}

fn song() -> MidiData {
    data(vec![
        ev(0, MidiEvent::ProgramChange { port: 0, channel: 0, program: 19 }),
        ev(0, MidiEvent::NoteOn { port: 0, channel: 0, key: 60, vel: 100 }),
        ev(0, MidiEvent::NoteOn { port: 1, channel: 2, key: 64, vel: 90 }),
        ev(100, MidiEvent::TempoChange(400_000)),
        ev(200, MidiEvent::PolyAftertouch { port: 0, channel: 0, key: 60, pressure: 3 }),
        ev(200, MidiEvent::PitchBend { port: 0, channel: 0, value: -200 }),
        ev(300, MidiEvent::NoteOff { port: 0, channel: 0, key: 60 }),
        ev(400, MidiEvent::SysEx(vec![0x7E, 0x7F, 0x09, 0x01])),
    ])
}

#[test]
fn dispatch_takes_due_events_in_order() {
    let mut seq = Sequencer::new(&song());
    seq.set_muted_channels(1 << 18); // port 1, channel 2
    let mut seen: Vec<TimedMidiEvent> = Vec::new();
    let cmds = seq.dispatch_until(150, &mut seen);
    assert_eq!(seen.len(), 4, "muted note-ons are still reported");
    assert_eq!(seen, song().events[..4].to_vec(), "every dispatched event, in order");
    assert_eq!(
        cmds,
        vec![
            SynthCommand::ProgramChange { port: 0, channel: 0, program: 19 },
            SynthCommand::NoteOn { port: 0, channel: 0, key: 60, velocity: 100 },
        ]
    );
    assert_eq!(seq.current_tick(), 150);
    assert_eq!(seq.us_per_quarter(), 400_000);
    assert!(!seq.is_finished());
    let cmds = seq.dispatch_until(1000, &mut ());
    assert_eq!(cmds.len(), 4);
    assert_eq!(cmds[3], SynthCommand::SysEx(vec![0x7E, 0x7F, 0x09, 0x01]));
    assert!(seq.is_finished());
}

#[test]
fn seek_replays_state_silently() {
    let mut seq = Sequencer::new(&song());
    seq.set_muted_channels(0x0003_0001);
    let mut seen: Vec<TimedMidiEvent> = Vec::new();
    let cmds = seq.seek_to_tick(250, 2, &mut seen);
    assert_eq!(
        cmds,
        vec![
            SynthCommand::SystemReset,
            SynthCommand::ProgramChange { port: 0, channel: 0, program: 19 },
            SynthCommand::PitchBend { port: 0, channel: 0, value: -200 },
            SynthCommand::MuteMask { port: 0, mask: 0x0001 },
            SynthCommand::MuteMask { port: 1, mask: 0x0003 },
        ]
    );
    assert_eq!(seen.len(), 3, "program, tempo and pitch bend are reported");
    assert_eq!(seq.us_per_quarter(), 400_000);
    assert_eq!(seq.current_tick(), 250);
    // Playback continues after the seek point.
    let cmds = seq.dispatch_until(300, &mut ());
    assert_eq!(cmds, vec![SynthCommand::NoteOff { port: 0, channel: 0, key: 60 }]);
}

#[test]
fn mute_masks_per_port() {
    let mut seq = Sequencer::new_empty(96);
    assert!(seq.is_finished());
    assert_eq!(seq.ticks_per_quarter(), 96);
    assert_eq!(seq.port_count(), 1);
    seq.set_muted_channels(0xABCD_0000_1234_5678);
    assert_eq!(
        seq.mute_mask_commands(4),
        vec![
            SynthCommand::MuteMask { port: 0, mask: 0x5678 },
            SynthCommand::MuteMask { port: 1, mask: 0x1234 },
            SynthCommand::MuteMask { port: 2, mask: 0x0000 },
            SynthCommand::MuteMask { port: 3, mask: 0xABCD },
        ]
    );
    assert!(seq.mute_mask_commands(0).is_empty());
}

#[test]
fn shared_state_transport() {
    let mut s = SharedState::new();
    assert!(!s.is_playing());
    s.toggle_play();
    assert!(s.is_playing());
    s.finished = true;
    s.toggle_play();
    assert!(!s.is_playing());
    assert!(s.finished, "pausing keeps the finished flag");
    s.toggle_play();
    assert!(!s.finished);
    s.stop();
    assert!(!s.playing && s.stopped);
    assert_eq!(s.take_seek(), Some(0));
    assert_eq!(s.take_seek(), None);
    s.request_seek(41);
    assert_eq!(s.seek_tick, 42);
    assert_eq!(s.take_seek(), Some(41));
}

#[test]
fn shared_state_mutes_and_drums() {
    let mut s = SharedState::new();
    s.toggle_channel_mute(33);
    assert!(s.is_channel_muted(33));
    assert!(!s.is_channel_muted(32));
    s.toggle_channel_mute(33);
    assert_eq!(s.muted_channels, 0);
    s.init_drum_channels(3);
    assert_eq!(s.drum_channels, (1 << 9) | (1 << 25) | (1 << 41));
    s.init_drum_channels(9);
    assert_eq!(s.drum_channels, (1 << 9) | (1 << 25) | (1 << 41) | (1 << 57));
    s.set_muted_channels(7);
    assert_eq!(s.muted_channels, 7);
}

#[test]
fn sink_mirrors_channel_state() {
    let mut state = SharedState::new();
    {
        let mut sink = SharedStateSink(&mut state);
        sink.on_event(&ev(0, MidiEvent::ControlChange { port: 1, channel: 0, controller: 7, value: 55 }));
        sink.on_event(&ev(0, MidiEvent::ControlChange { port: 0, channel: 3, controller: 2, value: 9 }));
        sink.on_event(&ev(0, MidiEvent::NoteOn { port: 0, channel: 3, key: 1, vel: 77 }));
        sink.on_event(&ev(0, MidiEvent::PitchBend { port: 0, channel: 3, value: -1 }));
        sink.on_event(&ev(0, MidiEvent::TempoChange(400_000)));
        sink.on_event(&ev(0, MidiEvent::TimeSignature { numerator: 6, denominator: 3 }));
    }
    assert_eq!(state.channel_states.volume[16], 55);
    assert_eq!(state.channel_states.velocity[3], 77);
    assert_eq!(state.channel_states.pitch_bend[3], u32::MAX);
    assert_eq!(state.current_bpm_x100, 15000);
    assert_eq!((state.time_sig_num, state.time_sig_den), (6, 3));
    {
        let mut sink = SharedStateSink(&mut state);
        sink.on_event(&ev(0, MidiEvent::SysEx(vec![0x41, 0x10, 0x42, 0x12, 0x40, 0x00, 0x7F, 0x00, 0x41])));
    }
    assert_eq!(state.channel_states, ChannelStates::new());
    state.channel_states.pan[0] = 1;
    {
        let mut sink = SharedStateSink(&mut state);
        sink.on_seek_reset();
    }
    assert_eq!(state.channel_states.pan[0], 64);
}

#[test]
fn sink_mirrors_master_volume() {
    let mut state = SharedState::new();
    assert_eq!(state.master_volume, 127);
    {
        let mut sink = SharedStateSink(&mut state);
        sink.on_event(&ev(0, MidiEvent::SysEx(vec![0x7F, 0x7F, 0x04, 0x01, 0x00, 0x40, 0xF7])));
    }
    assert_eq!(state.master_volume, 0x40);
    {
        let mut sink = SharedStateSink(&mut state);
        sink.on_event(&ev(0, MidiEvent::SysEx(vec![0x43, 0x10, 0x4C, 0x00, 0x00, 0x7E, 0x00])));
    }
    assert_eq!(state.master_volume, 127, "a system reset restores full volume");
    {
        let mut sink = SharedStateSink(&mut state);
        sink.on_event(&ev(0, MidiEvent::SysEx(vec![0x7F, 0x7F, 0x04, 0x01, 0x00, 0x10])));
        sink.on_seek_reset();
    }
    assert_eq!(state.master_volume, 127, "a seek starts again from full volume");
}

#[test]
fn seek_replays_master_volume() {
    let song = data(vec![
        ev(0, MidiEvent::SysEx(vec![0x7F, 0x7F, 0x04, 0x01, 0x00, 0x30, 0xF7])),
        ev(500, MidiEvent::SysEx(vec![0x7F, 0x7F, 0x04, 0x01, 0x00, 0x60, 0xF7])),
    ]);
    let mut seq = Sequencer::new(&song);
    let mut state = SharedState::new();
    seq.seek_to_tick(100, 1, &mut SharedStateSink(&mut state));
    assert_eq!(state.master_volume, 0x30);
    seq.seek_to_tick(600, 1, &mut SharedStateSink(&mut state));
    assert_eq!(state.master_volume, 0x60);
}
