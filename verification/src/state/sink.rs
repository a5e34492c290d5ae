//! Mirrors sequencer events into the shared state for the user interface.

use vstd::prelude::*;
use crate::midi::event::{EventModel, MidiEvent, TimedMidiEvent};
use crate::midi::sysex::{parse_sysex, sysex_command, SysExCommand};
use crate::sequencer::{EventSink, SinkNotice};
use crate::state::shared::{channel_defaults, ChannelModel, ChannelStates, SharedState};

verus! {

/// Tempo in hundredths of BPM for `us` microseconds per quarter note,
/// rounded down (`u32::MAX` when it does not fit, as for a zero tempo).
pub open spec fn bpm_x100(us: u32) -> u32 {
    if us == 0 || 6_000_000_000int / (us as int) > u32::MAX {
        u32::MAX
    } else {
        (6_000_000_000int / (us as int)) as u32
    }
}

/// Flat channel of a port and channel.
pub open spec fn flat(port: u8, channel: u8) -> int {
    port * 16 + channel
}

/// Channel state after a controller change on flat channel `f`: bank select
/// (0), modulation (1), volume (7), pan (10), expression (11), sustain pedal
/// (64), reverb (91) and chorus (93) are tracked; other controllers are not.
pub open spec fn after_controller(c: ChannelModel, f: int, controller: u8, v: u32) -> ChannelModel {
    if controller == 0 {
        ChannelModel { bank: c.bank.update(f, v), ..c }
    } else if controller == 1 {
        ChannelModel { modulation: c.modulation.update(f, v), ..c }
    } else if controller == 7 {
        ChannelModel { volume: c.volume.update(f, v), ..c }
    } else if controller == 10 {
        ChannelModel { pan: c.pan.update(f, v), ..c }
    } else if controller == 11 {
        ChannelModel { expression: c.expression.update(f, v), ..c }
    } else if controller == 64 {
        ChannelModel { pedal: c.pedal.update(f, v), ..c }
    } else if controller == 91 {
        ChannelModel { reverb: c.reverb.update(f, v), ..c }
    } else if controller == 93 {
        ChannelModel { chorus: c.chorus.update(f, v), ..c }
    } else {
        c
    }
}

/// Channel state after an event on a flat channel below 64 (events on other
/// channels are ignored).
pub open spec fn after_event(c: ChannelModel, e: EventModel) -> ChannelModel {
    match e {
        EventModel::NoteOn { port, channel, vel, .. } => if flat(port, channel) < 64 {
            ChannelModel { velocity: c.velocity.update(flat(port, channel), vel as u32), ..c }
        } else {
            c
        },
        EventModel::ProgramChange { port, channel, program } => if flat(port, channel) < 64 {
            ChannelModel { program: c.program.update(flat(port, channel), program as u32), ..c }
        } else {
            c
        },
        EventModel::ControlChange { port, channel, controller, value } => if flat(port, channel)
            < 64 {
            after_controller(c, flat(port, channel), controller, value as u32)
        } else {
            c
        },
        EventModel::PitchBend { port, channel, value } => if flat(port, channel) < 64 {
            ChannelModel {
                pitch_bend: c.pitch_bend.update(flat(port, channel), (value as i32) as u32),
                ..c
            }
        } else {
            c
        },
        EventModel::ChannelAftertouch { port, channel, pressure } => if flat(port, channel) < 64 {
            ChannelModel {
                aftertouch: c.aftertouch.update(flat(port, channel), pressure as u32),
                ..c
            }
        } else {
            c
        },
        _ => c,
    }
}

/// A SysEx payload that is a system reset (GM, GM2, GS or XG).
pub open spec fn is_system_reset(d: Seq<u8>) -> bool {
    sysex_command(d) matches Some(SysExCommand::SystemReset(_))
}

/// Master volume after a SysEx payload: a system reset restores full
/// volume (127), a Universal Master Volume message sets its level, and any
/// other payload keeps `old`.
pub open spec fn master_volume_after(old: u32, d: Seq<u8>) -> u32 {
    match sysex_command(d) {
        Some(SysExCommand::SystemReset(_)) => 127,
        Some(SysExCommand::MasterVolume(v)) => v as u32,
        _ => old,
    }
}

/// `new` is `old` after the event `e` is mirrored: channel state as in
/// [`after_event`] (a system reset restores the defaults instead), the
/// master volume a SysEx sets, the tempo and time signature shown, and
/// nothing else.
pub open spec fn mirrored(old: SharedState, new: SharedState, e: EventModel) -> bool {
    &&& match e {
        EventModel::SysEx(d) => if is_system_reset(d) {
            channel_defaults(new.channel_states)
        } else {
            new.channel_states == old.channel_states
        },
        _ => new.channel_states@ == after_event(old.channel_states@, e),
    }
    &&& new.current_bpm_x100 == (match e {
        EventModel::TempoChange(us) => bpm_x100(us),
        _ => old.current_bpm_x100,
    })
    &&& new.time_sig_num == (match e {
        EventModel::TimeSignature { numerator, .. } => numerator as u32,
        _ => old.time_sig_num,
    })
    &&& new.time_sig_den == (match e {
        EventModel::TimeSignature { denominator, .. } => denominator as u32,
        _ => old.time_sig_den,
    })
    &&& new.current_tick == old.current_tick
    &&& new.playing == old.playing
    &&& new.stopped == old.stopped
    &&& new.volume == old.volume
    &&& new.master_volume == (match e {
        EventModel::SysEx(d) => master_volume_after(old.master_volume, d),
        _ => old.master_volume,
    })
    &&& new.seek_tick == old.seek_tick
    &&& new.finished == old.finished
    &&& new.muted_channels == old.muted_channels
    &&& new.drum_channels == old.drum_channels
    &&& new.port_count == old.port_count
}

fn bpm_x100_of(us: u32) -> (r: u32)
    ensures
        r == bpm_x100(us),
{
    if us == 0 {
        return u32::MAX;
    }
    let q: u64 = 6_000_000_000u64 / (us as u64);
    if q > u32::MAX as u64 {
        u32::MAX
    } else {
        q as u32
    }
}

impl SharedState {
    /// Mirror one applied event for display.
    pub fn mirror_event(&mut self, evt: &TimedMidiEvent)
        ensures
            mirrored(*old(self), *final(self), evt.event@),
    {
        match &evt.event {
            MidiEvent::NoteOn { port, channel, vel, .. } => {
                let f = (*port as usize) * 16 + *channel as usize;
                if f < 64 {
                    self.channel_states.velocity[f] = *vel as u32;
                }
            },
            MidiEvent::ProgramChange { port, channel, program } => {
                let f = (*port as usize) * 16 + *channel as usize;
                if f < 64 {
                    self.channel_states.program[f] = *program as u32;
                }
            },
            MidiEvent::ControlChange { port, channel, controller, value } => {
                let f = (*port as usize) * 16 + *channel as usize;
                if f < 64 {
                    let v = *value as u32;
                    let cs = &mut self.channel_states;
                    match *controller {
                        0 => cs.bank[f] = v,
                        1 => cs.modulation[f] = v,
                        7 => cs.volume[f] = v,
                        10 => cs.pan[f] = v,
                        11 => cs.expression[f] = v,
                        64 => cs.pedal[f] = v,
                        91 => cs.reverb[f] = v,
                        93 => cs.chorus[f] = v,
                        _ => {},
                    }
                }
            },
            MidiEvent::PitchBend { port, channel, value } => {
                let f = (*port as usize) * 16 + *channel as usize;
                if f < 64 {
                    self.channel_states.pitch_bend[f] = (*value as i32) as u32;
                }
            },
            MidiEvent::TempoChange(us) => {
                self.current_bpm_x100 = bpm_x100_of(*us);
            },
            MidiEvent::TimeSignature { numerator, denominator } => {
                self.time_sig_num = *numerator as u32;
                self.time_sig_den = *denominator as u32;
            },
            MidiEvent::ChannelAftertouch { port, channel, pressure } => {
                let f = (*port as usize) * 16 + *channel as usize;
                if f < 64 {
                    self.channel_states.aftertouch[f] = *pressure as u32;
                }
            },
            MidiEvent::SysEx(data) => {
                match parse_sysex(data) {
                    Some(SysExCommand::SystemReset(_)) => {
                        self.channel_states.reset();
                        self.master_volume = 127;
                    },
                    Some(SysExCommand::MasterVolume(v)) => {
                        self.master_volume = v as u32;
                    },
                    _ => {},
                }
            },
            MidiEvent::NoteOff { .. } => {},
            MidiEvent::PolyAftertouch { .. } => {},
        }
    }
}

/// Mirrors sequencer events into a [`SharedState`].
pub struct SharedStateSink<'a>(pub &'a mut SharedState);

impl<'a> EventSink for SharedStateSink<'a> {
    /// An event is mirrored into the shared state; a seek reset restores
    /// every channel's controller state to its default and full master
    /// volume, and nothing else.
    open spec fn takes(before: Self, after: Self, n: SinkNotice) -> bool {
        match n {
            SinkNotice::Event(e) => mirrored(*before.0, *after.0, e.event),
            SinkNotice::SeekReset => {
                &&& channel_defaults((*after.0).channel_states)
                &&& *after.0 == (SharedState {
                    channel_states: (*after.0).channel_states,
                    master_volume: 127,
                    ..*before.0
                })
            },
        }
    }

    /// Mirrors the event into the shared state.
    fn on_event(&mut self, event: &TimedMidiEvent)
        ensures
            mirrored(*old(self).0, *final(self).0, event.event@),
    {
        self.0.mirror_event(event);
    }

    /// Restores every channel's controller state to its default and full
    /// master volume, as the synthesizer reset of the seek does, and leaves
    /// the rest of the shared state as it was; the seek then replays any
    /// master volume message before the target.
    fn on_seek_reset(&mut self)
        ensures
            channel_defaults((*final(self).0).channel_states),
            *final(self).0 == (SharedState {
                channel_states: (*final(self).0).channel_states,
                master_volume: 127,
                ..*old(self).0
            }),
    {
        self.0.channel_states.reset();
        self.0.master_volume = 127;
    }
}

} // verus!
