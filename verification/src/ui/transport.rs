//! Transport bar: which readouts fit beside the seek bar, and how densely
//! the seek bar is marked with bar lines.

use vstd::prelude::*;

verus! {

/// Width left for the seek bar once the fixed items, the chosen readouts
/// and the gaps between all items (four, plus one per readout) are placed.
pub open spec fn seek_width(
    content: u32,
    fixed: u32,
    position_w: u32,
    total_w: u32,
    gap: u32,
    show_position: bool,
    show_total: bool,
) -> int {
    let pos_w: int = if show_position {
        position_w + gap
    } else {
        0
    };
    let tot_w: int = if show_total {
        total_w + gap
    } else {
        0
    };
    content - fixed - 4 * gap - pos_w - tot_w
}

/// Decides whether the position block and the total-time readout fit
/// beside the seek bar. `content_width` holds buttons, current time,
/// position block, seek bar, total time and volume; `fixed_always` is the
/// width of what is never dropped. The position block goes first, then the
/// total time, until the seek bar reaches `min_seek_w`. Returns
/// `(show_position, show_total, seek_width)`.
pub fn fit_transport(
    content_width: u32,
    fixed_always: u32,
    position_w: u32,
    total_w: u32,
    gap: u32,
    min_seek_w: u32,
) -> (r: (bool, bool, i64))
    ensures
        (r.0, r.1) == (if seek_width(content_width, fixed_always, position_w, total_w, gap, true, true)
            >= min_seek_w {
            (true, true)
        } else if seek_width(content_width, fixed_always, position_w, total_w, gap, false, true)
            >= min_seek_w {
            (false, true)
        } else {
            (false, false)
        }),
        r.2 == seek_width(content_width, fixed_always, position_w, total_w, gap, r.0, r.1),
{
    let base: i64 = content_width as i64 - fixed_always as i64;
    let both: i64 = base - position_w as i64 - total_w as i64 - 6 * gap as i64;
    if both >= min_seek_w as i64 {
        return (true, true, both);
    }
    let no_position: i64 = base - total_w as i64 - 5 * gap as i64;
    if no_position >= min_seek_w as i64 {
        return (false, true, no_position);
    }
    (false, false, base - 4 * gap as i64)
}

/// 2 to the power `j`.
pub open spec fn pow2(j: nat) -> nat
    decreases j,
{
    if j == 0 {
        1
    } else {
        2 * pow2((j - 1) as nat)
    }
}

/// The first power of two from `2^j` on whose multiple of `px` reaches
/// `min` (stopping at `2^31`).
pub open spec fn tick_step_from(px: u32, min: u32, j: nat) -> nat
    decreases 31 - j,
{
    if j >= 31 || pow2(j) * px >= min {
        pow2(j)
    } else {
        tick_step_from(px, min, j + 1)
    }
}

/// Smallest of 1, 2, 4, 8, ... such that marking every that-many bars keeps
/// marks at least `min_spacing_px` apart, given `px_per_bar` per bar; 1 when
/// bars have no width.
pub fn bar_tick_step(px_per_bar: u32, min_spacing_px: u32) -> (r: u32)
    requires
        px_per_bar == 0 || min_spacing_px <= 0x8000_0000u64 * px_per_bar,
    ensures
        px_per_bar == 0 ==> r == 1,
        px_per_bar > 0 ==> r == tick_step_from(px_per_bar, min_spacing_px, 0),
        px_per_bar > 0 ==> r * px_per_bar >= min_spacing_px,
{
    if px_per_bar == 0 {
        return 1;
    }
    proof {
        lemma_pow2_31();
    }
    let mut k: u32 = 1;
    let ghost mut j: nat = 0;
    loop
        invariant
            px_per_bar > 0,
            min_spacing_px <= 0x8000_0000u64 * px_per_bar,
            pow2(31) == 0x8000_0000,
            j <= 31,
            k == pow2(j),
            tick_step_from(px_per_bar, min_spacing_px, 0) == tick_step_from(
                px_per_bar,
                min_spacing_px,
                j,
            ),
        decreases 31 - j,
    {
        proof {
            lemma_pow2_mono(j, 31);
        }
        assert((k as u64) * (px_per_bar as u64) <= 0x8000_0000u64 * 0xFFFF_FFFFu64) by (nonlinear_arith)
            requires
                k <= 0x8000_0000u64,
                px_per_bar <= 0xFFFF_FFFFu64,
        ;
        let product: u64 = (k as u64) * (px_per_bar as u64);
        if product >= min_spacing_px as u64 {
            return k;
        }
        proof {
            assert(k < 0x8000_0000) by (nonlinear_arith)
                requires
                    (k as int) * (px_per_bar as int) < min_spacing_px,
                    min_spacing_px <= 0x8000_0000int * (px_per_bar as int),
                    px_per_bar > 0,
            ;
            if j >= 31 {
                assert(j == 31);
            }
            lemma_pow2_mono(j + 1, 31);
            j = j + 1;
        }
        k = k * 2;
    }
}

proof fn lemma_pow2_31()
    ensures
        pow2(31) == 0x8000_0000,
{
    reveal_with_fuel(pow2, 32);
}

proof fn lemma_pow2_mono(j: nat, m: nat)
    requires
        j <= m,
    ensures
        pow2(j) <= pow2(m),
    decreases m - j,
{
    if j < m {
        lemma_pow2_mono(j, (m - 1) as nat);
    }
}

} // verus!
