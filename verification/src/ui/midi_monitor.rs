//! MIDI monitor: musical location of a tick.

use vstd::prelude::*;
use crate::util::chars::string_from_chars;
use crate::util::number::{append_chars, decimal, decimal_digits, pad_left, pad_left_chars};

verus! {

/// Ticks per beat for a signature with denominator `2^den_pow`.
pub open spec fn monitor_beat_ticks(tpq: u32, den_pow: u32) -> int {
    (tpq as int * 4) / ((1u32 << den_pow) as int)
}

/// `tick` as "Measure.Beat.Tick" (measure right-aligned in 4, beat in 2,
/// tick zero-padded to 3); just the tick number when the signature or
/// resolution is zero.
pub open spec fn location_text(tick: u32, tpq: u32, ts_num: u32, ts_den_pow: u32) -> Seq<char> {
    let tpb: int = monitor_beat_ticks(tpq, ts_den_pow);
    let tpm: int = tpb * ts_num;
    if tpq == 0 || ts_num == 0 || tpm == 0 || tpb == 0 {
        decimal_digits(tick as nat)
    } else {
        let t = tick as int;
        let measure = t / tpm + 1;
        let rem = t % tpm;
        let beat = rem / tpb + 1;
        let sub = rem % tpb;
        pad_left(decimal_digits(measure as nat), 4, ' ') + seq!['.'] + pad_left(
            decimal_digits(beat as nat),
            2,
            ' ',
        ) + seq!['.'] + pad_left(decimal_digits(sub as nat), 3, '0')
    }
}

/// Convert an absolute tick to a "Measure.Beat.Tick" string.
pub fn tick_to_location(tick: u32, tpq: u32, ts_num: u32, ts_den_pow: u32) -> (r: String)
    requires
        ts_den_pow < 32,
        tpq * 4 <= u32::MAX,
        monitor_beat_ticks(tpq, ts_den_pow) * ts_num <= u32::MAX,
        monitor_beat_ticks(tpq, ts_den_pow) * ts_num > 0 ==> (tick as int) / (monitor_beat_ticks(
            tpq,
            ts_den_pow,
        ) * ts_num) < u32::MAX,
    ensures
        r@ == location_text(tick, tpq, ts_num, ts_den_pow),
{
    if tpq == 0 || ts_num == 0 {
        return string_from_chars(&decimal(tick as u64));
    }
    let denom_val = 1u32 << ts_den_pow;
    assert(denom_val > 0) by (bit_vector)
        requires
            denom_val == 1u32 << ts_den_pow,
            ts_den_pow < 32,
    ;
    let ticks_per_beat = tpq * 4 / denom_val;
    let ticks_per_measure = ticks_per_beat * ts_num;
    if ticks_per_measure == 0 || ticks_per_beat == 0 {
        return string_from_chars(&decimal(tick as u64));
    }
    let measure = tick / ticks_per_measure + 1;
    let remaining = tick % ticks_per_measure;
    let beat = remaining / ticks_per_beat + 1;
    let sub_tick = remaining % ticks_per_beat;
    let mut out = pad_left_chars(decimal(measure as u64), 4, ' ');
    out.push('.');
    let b = pad_left_chars(decimal(beat as u64), 2, ' ');
    append_chars(&mut out, &b);
    out.push('.');
    let s = pad_left_chars(decimal(sub_tick as u64), 3, '0');
    append_chars(&mut out, &s);
    string_from_chars(&out)
}

} // verus!
