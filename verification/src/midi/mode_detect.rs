//! GM/GS/XG/GM2 mode detection from SysEx resets and Bank Select patterns.

use vstd::prelude::*;
use crate::midi::event::{EventModel, MidiEvent, TimedMidiEvent};
use crate::midi::sysex::{parse_sysex, sysex_command, SysExCommand};

verus! {

/// The MIDI system mode a file is written for.
#[derive(Debug, Clone, Copy, PartialEq, Eq)]
pub enum MidiMode {
    GM,
    GS,
    XG,
    GM2,
}

/// Display name of a mode, as written in settings files.
pub open spec fn mode_name(m: MidiMode) -> Seq<char> {
    match m {
        MidiMode::GM => "GM"@,
        MidiMode::GS => "GS"@,
        MidiMode::XG => "XG"@,
        MidiMode::GM2 => "GM2"@,
    }
}

impl MidiMode {
    /// Display name: `"GM"`, `"GS"`, `"XG"` or `"GM2"`.
    pub fn name(&self) -> (r: &'static str)
        ensures
            r@ == mode_name(*self),
    {
        match self {
            MidiMode::GM => "GM",
            MidiMode::GS => "GS",
            MidiMode::XG => "XG",
            MidiMode::GM2 => "GM2",
        }
    }
}

/// The mode selected by an event, if it is a recognized reset SysEx.
pub open spec fn reset_mode(e: EventModel) -> Option<MidiMode> {
    match e {
        EventModel::SysEx(d) => match sysex_command(d) {
            Some(SysExCommand::SystemReset(m)) => Some(m),
            _ => None,
        },
        _ => None,
    }
}

/// Whether some event of `s` is a reset SysEx selecting mode `m`.
pub open spec fn has_reset(s: Seq<TimedMidiEvent>, m: MidiMode) -> bool {
    exists|i: int| 0 <= i < s.len() && reset_mode((#[trigger] s[i]).event@) == Some(m)
}

/// The reset SysEx of highest priority in `s` (GS, then XG, then GM2,
/// then GM), wherever it stands; `None` when `s` holds no reset.
pub open spec fn top_reset(s: Seq<TimedMidiEvent>) -> Option<MidiMode> {
    if has_reset(s, MidiMode::GS) {
        Some(MidiMode::GS)
    } else if has_reset(s, MidiMode::XG) {
        Some(MidiMode::XG)
    } else if has_reset(s, MidiMode::GM2) {
        Some(MidiMode::GM2)
    } else if has_reset(s, MidiMode::GM) {
        Some(MidiMode::GM)
    } else {
        None
    }
}

/// Whether an event is a Bank Select MSB (CC#0) with value `b`.
pub open spec fn is_bank_msb(e: EventModel, b: u8) -> bool {
    match e {
        EventModel::ControlChange { controller, value, .. } => controller == 0 && value == b,
        _ => false,
    }
}

/// Whether some event of `s` is a Bank Select MSB (CC#0) with value `b`.
pub open spec fn has_bank_msb(s: Seq<TimedMidiEvent>, b: u8) -> bool {
    exists|i: int| 0 <= i < s.len() && is_bank_msb((#[trigger] s[i]).event@, b)
}

/// Whether a Bank Select MSB value marks a GS variation/SFX bank.
pub open spec fn is_gs_bank(b: u8) -> bool {
    (1 <= b <= 63) || (80 <= b <= 87)
}

/// Mode inferred from Bank Select MSB values alone.
pub open spec fn bank_mode(s: Seq<TimedMidiEvent>) -> MidiMode {
    if !(exists|b: u8| b != 0 && #[trigger] has_bank_msb(s, b)) {
        MidiMode::GM
    } else if has_bank_msb(s, 64) || has_bank_msb(s, 126) || has_bank_msb(s, 127) {
        MidiMode::XG
    } else if has_bank_msb(s, 121) {
        MidiMode::GM2
    } else if exists|b: u8| is_gs_bank(b) && #[trigger] has_bank_msb(s, b) {
        MidiMode::GS
    } else {
        MidiMode::GM
    }
}

/// The detected mode: the reset SysEx of highest priority decides;
/// otherwise the Bank Select pattern; GM when nothing points elsewhere.
pub open spec fn detected_mode(s: Seq<TimedMidiEvent>) -> MidiMode {
    match top_reset(s) {
        Some(m) => m,
        None => bank_mode(s),
    }
}

/// Detect the MIDI mode from SysEx and Bank Select patterns.
///
/// Phase 1: reset SysEx messages, by priority GS, then XG, then GM2, then
/// GM, wherever they stand in the file. Phase 2: Bank Select (CC#0 MSB)
/// pattern inference (XG banks 64/126/127, then GM2 bank 121, then GS banks
/// 1-63/80-87). Default: GM if nothing is detected.
pub fn detect_mode(events: &[TimedMidiEvent]) -> (r: MidiMode)
    ensures
        r == detected_mode(events@),
{
    let n = events.len();
    let mut found_gs = false;
    let mut found_xg = false;
    let mut found_gm2 = false;
    let mut found_gm = false;
    let mut i: usize = 0;
    while i < n
        invariant
            n == events@.len(),
            i <= n,
            found_gs == has_reset(events@.take(i as int), MidiMode::GS),
            found_xg == has_reset(events@.take(i as int), MidiMode::XG),
            found_gm2 == has_reset(events@.take(i as int), MidiMode::GM2),
            found_gm == has_reset(events@.take(i as int), MidiMode::GM),
        decreases n - i,
    {
        let ghost prev = events@.take(i as int);
        let ghost next = events@.take(i + 1);
        assert(next =~= prev.push(events@[i as int]));
        assert forall|m: MidiMode| #[trigger] has_reset(next, m) == (has_reset(prev, m) || reset_mode(
            events@[i as int].event@,
        ) == Some(m)) by {
            if has_reset(next, m) {
                let k = choose|k: int| 0 <= k < next.len() && reset_mode((#[trigger] next[k]).event@) == Some(m);
                if k < i {
                    assert(prev[k] == next[k]);
                }
            }
            if has_reset(prev, m) {
                let k = choose|k: int| 0 <= k < prev.len() && reset_mode((#[trigger] prev[k]).event@) == Some(m);
                assert(next[k] == prev[k]);
            }
            if reset_mode(events@[i as int].event@) == Some(m) {
                assert(next[i as int] == events@[i as int]);
            }
        }
        if let MidiEvent::SysEx(data) = &events[i].event {
            if let Some(SysExCommand::SystemReset(mode)) = parse_sysex(data.as_slice()) {
                match mode {
                    MidiMode::GS => found_gs = true,
                    MidiMode::XG => found_xg = true,
                    MidiMode::GM2 => found_gm2 = true,
                    MidiMode::GM => found_gm = true,
                }
            }
        }
        i += 1;
    }
    assert(events@.take(n as int) =~= events@);
    if found_gs {
        return MidiMode::GS;
    } else if found_xg {
        return MidiMode::XG;
    } else if found_gm2 {
        return MidiMode::GM2;
    } else if found_gm {
        return MidiMode::GM;
    }
    let mut any_nonzero = false;
    let mut xg = false;
    let mut gm2 = false;
    let mut gs = false;
    let mut j: usize = 0;
    while j < n
        invariant
            n == events@.len(),
            j <= n,
            top_reset(events@) is None,
            any_nonzero == exists|b: u8| b != 0 && #[trigger] has_bank_msb(events@.take(j as int), b),
            xg == (has_bank_msb(events@.take(j as int), 64) || has_bank_msb(events@.take(j as int), 126)
                || has_bank_msb(events@.take(j as int), 127)),
            gm2 == has_bank_msb(events@.take(j as int), 121),
            gs == exists|b: u8| is_gs_bank(b) && #[trigger] has_bank_msb(events@.take(j as int), b),
        decreases n - j,
    {
        let ghost prev = events@.take(j as int);
        let ghost next = events@.take(j + 1);
        assert(next =~= prev.push(events@[j as int]));
        assert forall|b: u8| #[trigger] has_bank_msb(next, b) == (has_bank_msb(prev, b) || is_bank_msb(
        events@[j as int].event@, b)) by {
            if has_bank_msb(next, b) {
                let k = choose|k: int|
                    0 <= k < next.len() && is_bank_msb((#[trigger] next[k]).event@, b);
                if k < j {
                    assert(prev[k] == next[k]);
                }
            }
            if has_bank_msb(prev, b) {
                let k = choose|k: int|
                    0 <= k < prev.len() && is_bank_msb((#[trigger] prev[k]).event@, b);
                assert(next[k] == prev[k]);
            }
            if is_bank_msb(events@[j as int].event@, b) {
                assert(next[j as int] == events@[j as int]);
            }
        }
        if let MidiEvent::ControlChange { controller, value, .. } = &events[j].event {
            if *controller == 0 {
                let v = *value;
                if v != 0 {
                    any_nonzero = true;
                    assert(has_bank_msb(next, v));
                }
                if v == 64 || v == 126 || v == 127 {
                    xg = true;
                }
                if v == 121 {
                    gm2 = true;
                }
                if (1 <= v && v <= 63) || (80 <= v && v <= 87) {
                    gs = true;
                    assert(is_gs_bank(v) && has_bank_msb(next, v));
                }
            }
        }
        proof {
            if exists|b: u8| b != 0 && #[trigger] has_bank_msb(prev, b) {
                let b = choose|b: u8| b != 0 && #[trigger] has_bank_msb(prev, b);
                assert(has_bank_msb(next, b));
            }
            if exists|b: u8| is_gs_bank(b) && #[trigger] has_bank_msb(prev, b) {
                let b = choose|b: u8| is_gs_bank(b) && #[trigger] has_bank_msb(prev, b);
                assert(has_bank_msb(next, b));
            }
            if exists|b: u8| b != 0 && #[trigger] has_bank_msb(next, b) {
                let b = choose|b: u8| b != 0 && #[trigger] has_bank_msb(next, b);
                assert(has_bank_msb(prev, b) || is_bank_msb(events@[j as int].event@, b));
            }
            if exists|b: u8| is_gs_bank(b) && #[trigger] has_bank_msb(next, b) {
                let b = choose|b: u8| is_gs_bank(b) && #[trigger] has_bank_msb(next, b);
                assert(has_bank_msb(prev, b) || is_bank_msb(events@[j as int].event@, b));
            }
        }
        j += 1;
    }
    assert(events@.take(n as int) =~= events@);
    if !any_nonzero {
        MidiMode::GM
    } else if xg {
        MidiMode::XG
    } else if gm2 {
        MidiMode::GM2
    } else if gs {
        MidiMode::GS
    } else {
        MidiMode::GM
    }
}

/// Whether event `e` is a reset SysEx (GM, GM2, GS or XG).
pub open spec fn is_reset_event(e: EventModel) -> bool {
    e matches EventModel::SysEx(d) && sysex_command(d) matches Some(SysExCommand::SystemReset(_))
}

/// Whether event `e` is a Bank Select MSB (controller 0) with a value in
/// `lo..=hi`.
pub open spec fn bank_select_in(e: EventModel, lo: u8, hi: u8) -> bool {
    e matches EventModel::ControlChange { controller, value, .. } && controller == 0 && lo <= value
        && value <= hi
}

proof fn lemma_no_reset_means_none(s: Seq<TimedMidiEvent>)
    requires
        forall|j: int| 0 <= j < s.len() ==> !is_reset_event(#[trigger] s[j].event@),
    ensures
        top_reset(s) is None,
{
    assert forall|m: MidiMode| !#[trigger] has_reset(s, m) by {
        if has_reset(s, m) {
            let j = choose|j: int| 0 <= j < s.len() && reset_mode((#[trigger] s[j]).event@) == Some(m);
            assert(!is_reset_event(s[j].event@));
        }
    }
}

/// A reset SysEx decides, by priority: a GS reset anywhere makes the file
/// GS; otherwise an XG reset makes it XG; otherwise a GM2 reset GM2;
/// otherwise a GM reset GM. Bank Select values then play no part.
pub proof fn lemma_reset_decides(s: Seq<TimedMidiEvent>, i: int, m: MidiMode)
    requires
        0 <= i < s.len(),
        reset_mode(s[i].event@) == Some(m),
        forall|j: int|
            0 <= j < s.len() ==> match reset_mode(#[trigger] s[j].event@) {
                Some(m2) => match m {
                    MidiMode::GS => true,
                    MidiMode::XG => m2 != MidiMode::GS,
                    MidiMode::GM2 => m2 != MidiMode::GS && m2 != MidiMode::XG,
                    MidiMode::GM => m2 == MidiMode::GM,
                },
                None => true,
            },
    ensures
        detected_mode(s) == m,
{
    assert(has_reset(s, m));
    assert forall|m2: MidiMode| #[trigger] has_reset(s, m2) implies match m {
        MidiMode::GS => true,
        MidiMode::XG => m2 != MidiMode::GS,
        MidiMode::GM2 => m2 != MidiMode::GS && m2 != MidiMode::XG,
        MidiMode::GM => m2 == MidiMode::GM,
    } by {
        let j = choose|j: int| 0 <= j < s.len() && reset_mode((#[trigger] s[j]).event@) == Some(m2);
    }
}

/// Without a reset SysEx, the Bank Select MSB values decide. A GS
/// variation or SFX bank (1..=63 or 80..=87) makes the file GS unless some
/// Bank Select names an XG bank (64, 126, 127) or the GM2 bank (121).
pub proof fn lemma_gs_bank_gives_gs(s: Seq<TimedMidiEvent>, i: int)
    requires
        forall|j: int| 0 <= j < s.len() ==> !is_reset_event(#[trigger] s[j].event@),
        0 <= i < s.len(),
        bank_select_in(s[i].event@, 1, 63) || bank_select_in(s[i].event@, 80, 87),
        forall|j: int|
            0 <= j < s.len() ==> !bank_select_in(#[trigger] s[j].event@, 64, 64) && !bank_select_in(
                s[j].event@,
                126,
                127,
            ) && !bank_select_in(s[j].event@, 121, 121),
    ensures
        detected_mode(s) == MidiMode::GS,
{
    lemma_no_reset_means_none(s);
    let e = s[i].event@;
    if let EventModel::ControlChange { value, .. } = e {
        assert(is_bank_msb(s[i].event@, value));
        assert(has_bank_msb(s, value));
        assert(is_gs_bank(value));
        assert(value != 0);
    }
    assert(!has_bank_msb(s, 64) && !has_bank_msb(s, 126) && !has_bank_msb(s, 127) && !has_bank_msb(
        s,
        121,
    )) by {
        assert forall|b: u8| b == 64 || b == 126 || b == 127 || b == 121 implies !#[trigger] has_bank_msb(
            s,
            b,
        ) by {
            if has_bank_msb(s, b) {
                let j = choose|j: int| 0 <= j < s.len() && is_bank_msb((#[trigger] s[j]).event@, b);
                assert(!bank_select_in(s[j].event@, 64, 64));
                assert(!bank_select_in(s[j].event@, 126, 127));
                assert(!bank_select_in(s[j].event@, 121, 121));
            }
        }
    }
}

/// Without a reset SysEx, an XG bank (64, 126 or 127) makes the file XG.
pub proof fn lemma_xg_bank_gives_xg(s: Seq<TimedMidiEvent>, i: int)
    requires
        forall|j: int| 0 <= j < s.len() ==> !is_reset_event(#[trigger] s[j].event@),
        0 <= i < s.len(),
        bank_select_in(s[i].event@, 64, 64) || bank_select_in(s[i].event@, 126, 127),
    ensures
        detected_mode(s) == MidiMode::XG,
{
    lemma_no_reset_means_none(s);
    if let EventModel::ControlChange { value, .. } = s[i].event@ {
        assert(is_bank_msb(s[i].event@, value));
        assert(has_bank_msb(s, value));
    }
}

/// Without a reset SysEx, the GM2 bank (121) makes the file GM2 unless an
/// XG bank is also selected.
pub proof fn lemma_gm2_bank_gives_gm2(s: Seq<TimedMidiEvent>, i: int)
    requires
        forall|j: int| 0 <= j < s.len() ==> !is_reset_event(#[trigger] s[j].event@),
        0 <= i < s.len(),
        bank_select_in(s[i].event@, 121, 121),
        forall|j: int|
            0 <= j < s.len() ==> !bank_select_in(#[trigger] s[j].event@, 64, 64) && !bank_select_in(
                s[j].event@,
                126,
                127,
            ),
    ensures
        detected_mode(s) == MidiMode::GM2,
{
    lemma_no_reset_means_none(s);
    assert(is_bank_msb(s[i].event@, 121));
    assert(has_bank_msb(s, 121));
    assert forall|b: u8| b == 64 || b == 126 || b == 127 implies !#[trigger] has_bank_msb(s, b) by {
        if has_bank_msb(s, b) {
            let j = choose|j: int| 0 <= j < s.len() && is_bank_msb((#[trigger] s[j]).event@, b);
            assert(!bank_select_in(s[j].event@, 64, 64));
            assert(!bank_select_in(s[j].event@, 126, 127));
        }
    }
}

/// Without a reset SysEx and with no Bank Select MSB other than 0, the file
/// is GM.
pub proof fn lemma_plain_file_is_gm(s: Seq<TimedMidiEvent>)
    requires
        forall|j: int| 0 <= j < s.len() ==> !is_reset_event(#[trigger] s[j].event@),
        forall|j: int| 0 <= j < s.len() ==> !bank_select_in(#[trigger] s[j].event@, 1, 255),
    ensures
        detected_mode(s) == MidiMode::GM,
{
    lemma_no_reset_means_none(s);
    assert forall|b: u8| b != 0 implies !#[trigger] has_bank_msb(s, b) by {
        if has_bank_msb(s, b) {
            let j = choose|j: int| 0 <= j < s.len() && is_bank_msb((#[trigger] s[j]).event@, b);
            assert(!bank_select_in(s[j].event@, 1, 255));
        }
    }
}

} // verus!
