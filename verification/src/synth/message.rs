//! Channel messages in the two-data-byte form the synthesizer takes.

use vstd::prelude::*;

verus! {

/// The two 7-bit data bytes (LSB, MSB) of a pitch bend of `value` around
/// the centre: `value + 8192` taken modulo 2^14, split into its low and
/// high seven bits. For bends within -8192..=8191 that is `value + 8192`
/// itself.
pub fn pitch_bend_data(value: i16) -> (r: (i32, i32))
    ensures
        r.0 == (value + 8192) % 128,
        r.1 == ((value + 8192) % 16384) / 128,
        -8192 <= value <= 8191 ==> r.0 + 128 * r.1 == value + 8192,
{
    let x: i32 = value as i32 + 8192;
    let y: i32 = if x < 0 {
        x + 32768
    } else {
        x
    };
    assert(y % 128 == x % 128);
    assert(y % 16384 == x % 16384);
    let m: i32 = y % 16384;
    (m % 128, m / 128)
}

} // verus!
