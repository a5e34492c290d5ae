//! Function-key bar actions and the MIDI mode cycle.

use vstd::prelude::*;
use crate::util::chars::str_chars;

verus! {

/// What a function-key item does.
#[derive(Debug, Clone, Copy, PartialEq, Eq)]
pub enum FKeyAction {
    PlayPause,
    Stop,
    OpenMidi,
    OpenSf2,
    Mute,
    Detail,
    Vert,
    Mode,
    Help,
}

/// The mode after `current` in the cycle GM, GS, XG, GM2; anything else
/// goes to GM.
pub open spec fn next_mode_name(current: Seq<char>) -> Seq<char> {
    if current == seq!['G', 'M'] {
        seq!['G', 'S']
    } else if current == seq!['G', 'S'] {
        seq!['X', 'G']
    } else if current == seq!['X', 'G'] {
        seq!['G', 'M', '2']
    } else {
        seq!['G', 'M']
    }
}

/// Next MIDI mode in the cycle GM, GS, XG, GM2.
pub fn next_midi_mode(current: &str) -> (r: &'static str)
    ensures
        r@ == next_mode_name(current@),
{
    let c = str_chars(current);
    let is2 = c.len() == 2;
    if is2 && c[0] == 'G' && c[1] == 'M' {
        assert(c@ =~= seq!['G', 'M']);
        proof {
            reveal_strlit("GS");
        }
        "GS"
    } else if is2 && c[0] == 'G' && c[1] == 'S' {
        assert(c@ =~= seq!['G', 'S']);
        proof {
            reveal_strlit("XG");
        }
        "XG"
    } else if is2 && c[0] == 'X' && c[1] == 'G' {
        assert(c@ =~= seq!['X', 'G']);
        proof {
            reveal_strlit("GM2");
        }
        "GM2"
    } else {
        proof {
            reveal_strlit("GM");
            if c@ == seq!['G', 'M'] {
                assert(c@[0] == 'G' && c@[1] == 'M');
            }
            if c@ == seq!['G', 'S'] {
                assert(c@[0] == 'G' && c@[1] == 'S');
            }
            if c@ == seq!['X', 'G'] {
                assert(c@[0] == 'X' && c@[1] == 'G');
            }
        }
        "GM"
    }
}

/// Widest of the first `n` key widths (0 for none).
pub open spec fn widest(w: Seq<u32>, n: int) -> int
    decreases n,
{
    if n <= 0 {
        0
    } else {
        let p = widest(w, n - 1);
        if w[n - 1] > p {
            w[n - 1] as int
        } else {
            p
        }
    }
}

/// Whether `n` equal slots across `area` each hold the widest of the first
/// `n` keys, the longest label and three insets.
pub open spec fn slots_fit(area: u32, w: Seq<u32>, label: u32, inset: u32, n: int) -> bool {
    n * (widest(w, n) + label + 3 * inset) <= area
}

/// Items shown: the most, from `n` down, that fit (none when none does).
pub open spec fn fkey_count(area: u32, w: Seq<u32>, label: u32, inset: u32, n: int) -> int
    decreases n,
{
    if n <= 0 {
        0
    } else if slots_fit(area, w, label, inset, n) {
        n
    } else {
        fkey_count(area, w, label, inset, n - 1)
    }
}

/// Number of items that fit into `area_width` split into equal slots:
/// starts at all items and drops from the right until every remaining slot
/// is wide enough for the widest remaining key, `longest_label_w` (the
/// longest label over all items, so the count does not change as labels
/// do) and three insets (left, between key and label, right).
pub fn fit_fkey_items(area_width: u32, key_widths: &[u32], longest_label_w: u32, inset: u32) -> (r:
    usize)
    ensures
        r == fkey_count(area_width, key_widths@, longest_label_w, inset, key_widths@.len() as int),
        r == 0 || slots_fit(area_width, key_widths@, longest_label_w, inset, r as int),
{
    let len = key_widths.len();
    let mut n = len;
    let mut done = false;
    while n > 0 && !done
        invariant
            len == key_widths@.len(),
            n <= len,
            fkey_count(area_width, key_widths@, longest_label_w, inset, len as int) == fkey_count(
                area_width,
                key_widths@,
                longest_label_w,
                inset,
                n as int,
            ),
            done ==> n > 0 && slots_fit(area_width, key_widths@, longest_label_w, inset, n as int),
        decreases n, (if done { 0int } else { 1int }),
    {
        let mut widest_key: u32 = 0;
        let mut k: usize = 0;
        while k < n
            invariant
                n <= len == key_widths@.len(),
                k <= n,
                widest_key == widest(key_widths@, k as int),
            decreases n - k,
        {
            if key_widths[k] > widest_key {
                widest_key = key_widths[k];
            }
            k = k + 1;
        }
        let need: u128 = widest_key as u128 + longest_label_w as u128 + 3 * inset as u128;
        assert(need <= 5 * 0xFFFF_FFFFu128);
        assert(n as u128 * need <= 0xFFFF_FFFF_FFFF_FFFFu128 * (5 * 0xFFFF_FFFFu128)) by (nonlinear_arith)
            requires
                n <= 0xFFFF_FFFF_FFFF_FFFFu128,
                need <= 5 * 0xFFFF_FFFFu128,
        ;
        if n as u128 * need <= area_width as u128 {
            done = true;
        } else {
            n = n - 1;
        }
    }
    n
}

} // verus!
