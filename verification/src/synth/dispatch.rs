//! What each synthesizer engine is told for a sequencer command: the engine
//! the routing picks and the message in the form the synthesizer takes.

use vstd::prelude::*;
use crate::midi::sysex::{parse_sysex, SysExCommand};
use crate::sequencer::{CommandModel, SynthCommand};
use crate::state::sink::is_system_reset;
use crate::synth::message::pitch_bend_data;
use crate::synth::routing::{distinct_engines, engine_for, RoutingModel, SynthRouting};

verus! {

/// A message to one synthesizer engine.
#[derive(Debug, Clone, Copy, PartialEq, Eq)]
pub enum EngineMessage {
    NoteOn { channel: i32, key: i32, velocity: i32 },
    NoteOff { channel: i32, key: i32 },
    /// A channel message: status `command` (0xA0, 0xB0, ...) and two data bytes.
    Channel { channel: i32, command: i32, data1: i32, data2: i32 },
    /// Stop every voice and restore the defaults.
    Reset,
    /// Stop every voice of a channel at once.
    Silence { channel: i32 },
}

/// The same message to engines `0..n`, in order.
pub open spec fn to_all(n: int, msg: EngineMessage) -> Seq<(usize, EngineMessage)> {
    Seq::new(n as nat, |i: int| (i as usize, msg))
}

/// Silence messages to engine `e` for the channels below `upto` set in `mask`.
pub open spec fn silences(e: usize, mask: u16, upto: int) -> Seq<(usize, EngineMessage)>
    decreases upto,
{
    if upto <= 0 {
        Seq::empty()
    } else {
        let prev = silences(e, mask, upto - 1);
        if mask & (1u16 << ((upto - 1) as u16)) != 0 {
            prev.push((e, EngineMessage::Silence { channel: (upto - 1) as i32 }))
        } else {
            prev
        }
    }
}

/// Silence messages for the channels in `mask`, engine by engine.
pub open spec fn silence_engines(targets: Seq<usize>, mask: u16) -> Seq<(usize, EngineMessage)>
    decreases targets.len(),
{
    if targets.len() == 0 {
        Seq::empty()
    } else {
        silence_engines(targets.drop_last(), mask) + silences(targets.last(), mask, 16)
    }
}

/// Row of the routing table that serves `port` (ports past the last use the last).
pub open spec fn port_row(m: RoutingModel, port: u8) -> Seq<usize> {
    m.table[if port as int >= m.table.len() {
        m.table.len() - 1
    } else {
        port as int
    }]
}

/// What the engines are told for command `c` under routing `m`: a channel
/// command goes to the engine of its port and channel (program change as
/// 0xC0, controller 0xB0, pitch bend 0xE0 with its two data bytes, key
/// pressure 0xA0, channel pressure 0xD0); a system reset, and a SysEx that
/// is one, resets every engine; other SysEx is not passed on; a mute mask
/// silences its channels on each engine of the port.
pub open spec fn messages_for(m: RoutingModel, c: CommandModel) -> Seq<(usize, EngineMessage)> {
    let n = m.port_count * m.engines_per_port;
    match c {
        CommandModel::NoteOn { port, channel, key, velocity } => seq![
            (engine_for(m, port, channel as u8), EngineMessage::NoteOn { channel, key, velocity }),
        ],
        CommandModel::NoteOff { port, channel, key } => seq![
            (engine_for(m, port, channel as u8), EngineMessage::NoteOff { channel, key }),
        ],
        CommandModel::ProgramChange { port, channel, program } => seq![
            (
                engine_for(m, port, channel as u8),
                EngineMessage::Channel { channel, command: 0xC0, data1: program, data2: 0 },
            ),
        ],
        CommandModel::ControlChange { port, channel, controller, value } => seq![
            (
                engine_for(m, port, channel as u8),
                EngineMessage::Channel { channel, command: 0xB0, data1: controller, data2: value },
            ),
        ],
        CommandModel::PitchBend { port, channel, value } => seq![
            (
                engine_for(m, port, channel as u8),
                EngineMessage::Channel {
                    channel,
                    command: 0xE0,
                    data1: ((value + 8192) % 128) as i32,
                    data2: (((value + 8192) % 16384) / 128) as i32,
                },
            ),
        ],
        CommandModel::PolyAftertouch { port, channel, key, pressure } => seq![
            (
                engine_for(m, port, channel as u8),
                EngineMessage::Channel { channel, command: 0xA0, data1: key, data2: pressure },
            ),
        ],
        CommandModel::ChannelAftertouch { port, channel, pressure } => seq![
            (
                engine_for(m, port, channel as u8),
                EngineMessage::Channel { channel, command: 0xD0, data1: pressure, data2: 0 },
            ),
        ],
        CommandModel::SysEx(d) => if is_system_reset(d) {
            to_all(n, EngineMessage::Reset)
        } else {
            Seq::empty()
        },
        CommandModel::SystemReset => to_all(n, EngineMessage::Reset),
        CommandModel::MuteMask { port, mask } => silence_engines(
            distinct_engines(port_row(m, port), 16),
            mask,
        ),
    }
}

/// `msg` to every engine, in order.
fn all_engines(n: usize, msg: EngineMessage) -> (r: Vec<(usize, EngineMessage)>)
    ensures
        r@ == to_all(n as int, msg),
{
    let mut out: Vec<(usize, EngineMessage)> = Vec::new();
    let mut i: usize = 0;
    while i < n
        invariant
            i <= n,
            out@ == to_all(i as int, msg),
        decreases n - i,
    {
        out.push((i, msg));
        i = i + 1;
        assert(out@ =~= to_all(i as int, msg));
    }
    out
}

/// The messages a command comes to, each with the engine it is for.
pub fn engine_messages(routing: &SynthRouting, cmd: &SynthCommand) -> (r: Vec<(usize, EngineMessage)>)
    ensures
        r@ == messages_for(routing@, cmd@),
        forall|i: int|
            0 <= i < r@.len() ==> (#[trigger] r@[i]).0 < routing@.port_count
                * routing@.engines_per_port,
{
    match cmd {
        SynthCommand::NoteOn { port, channel, key, velocity } => {
            let e = routing.engine_idx(*port, *channel as u8);
            vec![(e, EngineMessage::NoteOn { channel: *channel, key: *key, velocity: *velocity })]
        },
        SynthCommand::NoteOff { port, channel, key } => {
            let e = routing.engine_idx(*port, *channel as u8);
            vec![(e, EngineMessage::NoteOff { channel: *channel, key: *key })]
        },
        SynthCommand::ProgramChange { port, channel, program } => {
            let e = routing.engine_idx(*port, *channel as u8);
            vec![
                (
                    e,
                    EngineMessage::Channel { channel: *channel, command: 0xC0, data1: *program, data2: 0 },
                ),
            ]
        },
        SynthCommand::ControlChange { port, channel, controller, value } => {
            let e = routing.engine_idx(*port, *channel as u8);
            vec![
                (
                    e,
                    EngineMessage::Channel {
                        channel: *channel,
                        command: 0xB0,
                        data1: *controller,
                        data2: *value,
                    },
                ),
            ]
        },
        SynthCommand::PitchBend { port, channel, value } => {
            let e = routing.engine_idx(*port, *channel as u8);
            let (lsb, msb) = pitch_bend_data(*value);
            vec![(e, EngineMessage::Channel { channel: *channel, command: 0xE0, data1: lsb, data2: msb })]
        },
        SynthCommand::PolyAftertouch { port, channel, key, pressure } => {
            let e = routing.engine_idx(*port, *channel as u8);
            vec![
                (
                    e,
                    EngineMessage::Channel {
                        channel: *channel,
                        command: 0xA0,
                        data1: *key,
                        data2: *pressure,
                    },
                ),
            ]
        },
        SynthCommand::ChannelAftertouch { port, channel, pressure } => {
            let e = routing.engine_idx(*port, *channel as u8);
            vec![
                (
                    e,
                    EngineMessage::Channel { channel: *channel, command: 0xD0, data1: *pressure, data2: 0 },
                ),
            ]
        },
        SynthCommand::SysEx(data) => {
            match parse_sysex(data.as_slice()) {
                Some(SysExCommand::SystemReset(_)) => all_engines(routing.engine_count(), EngineMessage::Reset),
                _ => {
                    let r: Vec<(usize, EngineMessage)> = Vec::new();
                    assert(r@ =~= Seq::<(usize, EngineMessage)>::empty());
                    r
                },
            }
        },
        SynthCommand::SystemReset => all_engines(routing.engine_count(), EngineMessage::Reset),
        SynthCommand::MuteMask { port, mask } => {
            let targets = routing.mute_targets(*port);
            let mut out: Vec<(usize, EngineMessage)> = Vec::new();
            let mut t: usize = 0;
            assert(targets@.take(0) =~= Seq::<usize>::empty());
            while t < targets.len()
                invariant
                    t <= targets@.len(),
                    forall|i: int|
                        0 <= i < targets@.len() ==> #[trigger] targets@[i] < routing@.port_count
                            * routing@.engines_per_port,
                    forall|i: int|
                        0 <= i < out@.len() ==> (#[trigger] out@[i]).0 < routing@.port_count
                            * routing@.engines_per_port,
                    out@ == silence_engines(targets@.take(t as int), *mask),
                decreases targets@.len() - t,
            {
                let e = targets[t];
                let ghost before = out@;
                let mut c: u16 = 0;
                assert(silences(e, *mask, 0) =~= Seq::<(usize, EngineMessage)>::empty());
                while c < 16
                    invariant
                        c <= 16,
                        e < routing@.port_count * routing@.engines_per_port,
                        forall|i: int|
                            0 <= i < out@.len() ==> (#[trigger] out@[i]).0 < routing@.port_count
                                * routing@.engines_per_port,
                        out@ == before + silences(e, *mask, c as int),
                    decreases 16 - c,
                {
                    if *mask & (1u16 << c) != 0 {
                        out.push((e, EngineMessage::Silence { channel: c as i32 }));
                    }
                    c = c + 1;
                    assert(out@ =~= before + silences(e, *mask, c as int));
                }
                proof {
                    assert(targets@.take(t as int + 1).drop_last() =~= targets@.take(t as int));
                    assert(targets@.take(t as int + 1).last() == e);
                }
                t = t + 1;
            }
            assert(targets@.take(targets@.len() as int) =~= targets@);
            out
        },
    }
}

/// A channel command reaches exactly one engine, the one routed for its
/// port and channel, with its own data: a note keeps its channel, key and
/// velocity; a controller change is status 0xB0 with its controller number
/// and value; a pitch bend within range is status 0xE0 whose two 7-bit data
/// bytes make up the bend plus 8192. A system reset reaches every engine,
/// each once, in order.
pub proof fn lemma_messages_carry_command_data(m: RoutingModel, c: CommandModel)
    ensures
        c matches CommandModel::NoteOn { port, channel, key, velocity } ==> (messages_for(m, c)
            == seq![(engine_for(m, port, channel as u8), messages_for(m, c)[0].1)] && (messages_for(
            m,
            c,
        )[0].1 matches EngineMessage::NoteOn { channel: ch, key: k, velocity: v } && ch == channel
            && k == key && v == velocity)),
        c matches CommandModel::NoteOff { port, channel, key } ==> (messages_for(m, c) == seq![
            (engine_for(m, port, channel as u8), messages_for(m, c)[0].1),
        ] && (messages_for(m, c)[0].1 matches EngineMessage::NoteOff { channel: ch, key: k } && ch
            == channel && k == key)),
        c matches CommandModel::ControlChange { port, channel, controller, value } ==> (messages_for(
            m,
            c,
        ) == seq![(engine_for(m, port, channel as u8), messages_for(m, c)[0].1)] && (messages_for(
            m,
            c,
        )[0].1 matches EngineMessage::Channel { channel: ch, command: st, data1: d1, data2: d2 } && ch
            == channel && st == 0xB0 && d1 == controller && d2 == value)),
        c matches CommandModel::PitchBend { port, channel, value } ==> (messages_for(m, c) == seq![
            (engine_for(m, port, channel as u8), messages_for(m, c)[0].1),
        ] && (messages_for(m, c)[0].1 matches EngineMessage::Channel {
            channel: ch,
            command: st,
            data1: d1,
            data2: d2,
        } && ch == channel && st == 0xE0 && 0 <= d1 < 128 && 0 <= d2 < 128 && (-8192 <= value <= 8191
            ==> d1 + 128 * d2 == value + 8192))),
        c is SystemReset ==> messages_for(m, c).len() == m.port_count * m.engines_per_port && forall|
            i: int,
        |
            0 <= i < messages_for(m, c).len() ==> #[trigger] messages_for(m, c)[i] == (
                i as usize,
                EngineMessage::Reset,
            ),
{
}

} // verus!
