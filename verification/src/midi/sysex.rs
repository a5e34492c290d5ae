//! SysEx message interpretation: raw SysEx payloads to typed commands.

use vstd::prelude::*;
use crate::midi::mode_detect::MidiMode;

verus! {

/// A recognized SysEx command.
#[derive(Debug, Clone, Copy, PartialEq, Eq)]
pub enum SysExCommand {
    /// System reset (GM/GM2/GS/XG).
    SystemReset(MidiMode),
    /// GS drum map assignment: set a channel as drum or normal.
    GsDrumMap { channel: u8, is_drum: bool },
    /// Universal Master Volume (0-127).
    MasterVolume(u8),
}

/// The payload with one trailing `F7` (end of exclusive) removed, if present.
pub open spec fn strip_end_of_exclusive(data: Seq<u8>) -> Seq<u8> {
    if data.len() > 0 && data.last() == 0xF7 {
        data.drop_last()
    } else {
        data
    }
}

/// GS part number to MIDI channel: part 0 is channel 9 (the rhythm part),
/// parts 1-9 are channels 0-8, parts 10-15 keep their number.
pub open spec fn spec_gs_part_to_channel(part: u8) -> u8 {
    if part == 0 {
        9
    } else if part <= 9 {
        (part - 1) as u8
    } else {
        part
    }
}

/// Meaning of the body of a Roland GS SysEx (what follows `41 10 42 12`).
pub open spec fn gs_command(body: Seq<u8>) -> Option<SysExCommand> {
    if body.len() < 4 {
        None
    } else if body.len() >= 5 && body[0] == 0x40 && body[1] == 0x00 && body[2] == 0x7F
        && body[3] == 0x00 && body[4] == 0x41 {
        Some(SysExCommand::SystemReset(MidiMode::GS))
    } else if body[0] == 0x40 && body[1] / 16 == 1 && body[2] == 0x15 {
        Some(
            SysExCommand::GsDrumMap {
                channel: spec_gs_part_to_channel((body[1] % 16) as u8),
                is_drum: body[3] != 0,
            },
        )
    } else {
        None
    }
}

/// Meaning of a SysEx payload whose trailing `F7` has already been removed.
pub open spec fn stripped_command(d: Seq<u8>) -> Option<SysExCommand> {
    if d.len() < 4 {
        None
    } else if d[0] == 0x7E && d[1] == 0x7F && d[2] == 0x09 {
        // Universal Non-Real-Time General MIDI System On / GM2 On.
        if d[3] == 0x01 {
            Some(SysExCommand::SystemReset(MidiMode::GM))
        } else if d[3] == 0x03 {
            Some(SysExCommand::SystemReset(MidiMode::GM2))
        } else {
            None
        }
    } else if d.len() >= 6 && d[0] == 0x7F && d[1] == 0x7F && d[2] == 0x04 && d[3] == 0x01 {
        // Universal Real-Time Master Volume: the MSB is the sixth byte.
        Some(SysExCommand::MasterVolume(d[5]))
    } else if d.len() >= 5 && d[0] == 0x41 && d[1] == 0x10 && d[2] == 0x42 && d[3] == 0x12 {
        gs_command(d.subrange(4, d.len() as int))
    } else if d.len() >= 7 && d[0] == 0x43 && d[1] == 0x10 && d[2] == 0x4C && d[3] == 0x00
        && d[4] == 0x00 && d[5] == 0x7E && d[6] == 0x00 {
        // Yamaha XG System On.
        Some(SysExCommand::SystemReset(MidiMode::XG))
    } else {
        None
    }
}

/// Meaning of a raw SysEx payload (leading `F0` already removed).
pub open spec fn sysex_command(data: Seq<u8>) -> Option<SysExCommand> {
    stripped_command(strip_end_of_exclusive(data))
}

/// Parse a raw SysEx payload (F0 already stripped) into a typed command.
/// Returns `None` if the SysEx is not recognized.
pub fn parse_sysex(data: &[u8]) -> (r: Option<SysExCommand>)
    ensures
        r == sysex_command(data@),
{
    let n = data.len();
    let len = if n > 0 && data[n - 1] == 0xF7 {
        n - 1
    } else {
        n
    };
    let d = &data[0..len];
    assert(d@ =~= strip_end_of_exclusive(data@));
    if len < 4 {
        return None;
    }
    if d[0] == 0x7E && d[1] == 0x7F && d[2] == 0x09 {
        return if d[3] == 0x01 {
            Some(SysExCommand::SystemReset(MidiMode::GM))
        } else if d[3] == 0x03 {
            Some(SysExCommand::SystemReset(MidiMode::GM2))
        } else {
            None
        };
    }
    if len >= 6 && d[0] == 0x7F && d[1] == 0x7F && d[2] == 0x04 && d[3] == 0x01 {
        return Some(SysExCommand::MasterVolume(d[5]));
    }
    if len >= 5 && d[0] == 0x41 && d[1] == 0x10 && d[2] == 0x42 && d[3] == 0x12 {
        return parse_gs_sysex(&d[4..len]);
    }
    if len >= 7 && d[0] == 0x43 && d[1] == 0x10 && d[2] == 0x4C && d[3] == 0x00 && d[4] == 0x00
        && d[5] == 0x7E && d[6] == 0x00 {
        return Some(SysExCommand::SystemReset(MidiMode::XG));
    }
    None
}

/// Parse the body of a Roland GS SysEx (after `41 10 42 12`).
pub fn parse_gs_sysex(body: &[u8]) -> (r: Option<SysExCommand>)
    ensures
        r == gs_command(body@),
{
    let n = body.len();
    if n < 4 {
        return None;
    }
    // GS Reset: 40 00 7F 00 41
    if n >= 5 && body[0] == 0x40 && body[1] == 0x00 && body[2] == 0x7F && body[3] == 0x00
        && body[4] == 0x41 {
        return Some(SysExCommand::SystemReset(MidiMode::GS));
    }
    // GS Drum Map: 40 1x 15 [val] [checksum], x = part number (0-15)
    let b1 = body[1];
    let high = b1 & 0xF0;
    assert((b1 & 0xF0u8 == 0x10u8) == (b1 / 16 == 1)) by (bit_vector);
    if body[0] == 0x40 && high == 0x10 && body[2] == 0x15 {
        let part = b1 & 0x0F;
        assert(b1 & 0x0Fu8 == b1 % 16) by (bit_vector);
        let channel = gs_part_to_channel(part);
        let is_drum = body[3] != 0;
        return Some(SysExCommand::GsDrumMap { channel, is_drum });
    }
    None
}

/// Convert a GS part number to a MIDI channel.
/// Part 0 → Ch 9, Part 1-9 → Ch 0-8, Part 10-15 → Ch 10-15.
pub fn gs_part_to_channel(part: u8) -> (r: u8)
    ensures
        r == spec_gs_part_to_channel(part),
{
    if part == 0 {
        9
    } else if part <= 9 {
        part - 1
    } else {
        part
    }
}

/// A GS drum-map message (`40 1x 15 v` after `41 10 42 12`) switches
/// part `x` to the drum set exactly when its value byte `v` is non-zero,
/// and back to a normal part when `v` is 0. Part 0 is channel 9 (the
/// rhythm part), parts 1 to 9 are channels 0 to 8, parts 10 to 15 keep their
/// number.
pub proof fn lemma_gs_drum_map_value(d: Seq<u8>)
    requires
        d.len() >= 9,
        d[0] == 0x41 && d[1] == 0x10 && d[2] == 0x42 && d[3] == 0x12,
        d[4] == 0x40,
        0x10 <= d[5] <= 0x1F,
        d[6] == 0x15,
    ensures
        sysex_command(d) matches Some(SysExCommand::GsDrumMap { channel, is_drum }) && is_drum == (d[7]
            != 0) && channel == (if d[5] == 0x10 {
            9
        } else if d[5] <= 0x19 {
            d[5] - 0x11
        } else {
            d[5] - 0x10
        }),
{
    let t = strip_end_of_exclusive(d);
    assert(t.len() >= 8);
    assert(t[0] == d[0] && t[1] == d[1] && t[2] == d[2] && t[3] == d[3]);
    let body = t.subrange(4, t.len() as int);
    assert(body[0] == d[4] && body[1] == d[5] && body[2] == d[6] && body[3] == d[7]);
    assert(body[1] / 16 == 1);
    assert(body[1] % 16 == d[5] - 0x10);
}

/// The reset messages: `7E 7F 09 01` is GM System On, `7E 7F 09 03` GM2
/// System On, `41 10 42 12 40 00 7F 00 41` GS Reset and
/// `43 10 4C 00 00 7E 00` XG System On; each may carry a trailing `F7`.
pub proof fn lemma_reset_messages(d: Seq<u8>)
    ensures
        d.len() >= 4 && d[0] == 0x7E && d[1] == 0x7F && d[2] == 0x09 && d[3] == 0x01 ==> sysex_command(d)
            == Some(SysExCommand::SystemReset(MidiMode::GM)),
        d.len() >= 4 && d[0] == 0x7E && d[1] == 0x7F && d[2] == 0x09 && d[3] == 0x03 ==> sysex_command(d)
            == Some(SysExCommand::SystemReset(MidiMode::GM2)),
        d.len() >= 9 && d[0] == 0x41 && d[1] == 0x10 && d[2] == 0x42 && d[3] == 0x12 && d[4] == 0x40
            && d[5] == 0x00 && d[6] == 0x7F && d[7] == 0x00 && d[8] == 0x41 ==> sysex_command(d) == Some(
            SysExCommand::SystemReset(MidiMode::GS),
        ),
        d.len() >= 7 && d[0] == 0x43 && d[1] == 0x10 && d[2] == 0x4C && d[3] == 0x00 && d[4] == 0x00
            && d[5] == 0x7E && d[6] == 0x00 ==> sysex_command(d) == Some(
            SysExCommand::SystemReset(MidiMode::XG),
        ),
{
    let t = strip_end_of_exclusive(d);
    if d.len() >= 4 && (d[3] == 0x01 || d[3] == 0x03) {
        assert(t.len() >= 4);
        assert(t[0] == d[0] && t[1] == d[1] && t[2] == d[2] && t[3] == d[3]);
    }
    if d.len() >= 9 && d[8] == 0x41 {
        assert(t.len() >= 9);
        assert(t[4] == d[4] && t[5] == d[5] && t[6] == d[6] && t[7] == d[7] && t[8] == d[8]);
        let body = t.subrange(4, t.len() as int);
        assert(body[0] == d[4] && body[1] == d[5] && body[2] == d[6] && body[3] == d[7] && body[4]
            == d[8]);
    }
    if d.len() >= 7 && d[6] == 0x00 {
        assert(t.len() >= 7);
        assert(t[4] == d[4] && t[5] == d[5] && t[6] == d[6]);
    }
}

/// A Universal Master Volume message (`7F dd 04 01 ll mm`, here with device
/// `7F`) sets the master volume to its most significant byte `mm`.
pub proof fn lemma_master_volume_level(d: Seq<u8>)
    requires
        d.len() >= 7 || (d.len() == 6 && d[5] != 0xF7),
        d[0] == 0x7F && d[1] == 0x7F && d[2] == 0x04 && d[3] == 0x01,
    ensures
        sysex_command(d) == Some(SysExCommand::MasterVolume(d[5])),
{
    let t = strip_end_of_exclusive(d);
    assert(t.len() >= 6);
    assert(t[0] == d[0] && t[1] == d[1] && t[2] == d[2] && t[3] == d[3] && t[5] == d[5]);
}

} // verus!
