//! Header bar: metadata items and their formatting.

use vstd::prelude::*;
use crate::ui::text::{fitting_prefix, str_width_cjk, text_cells, truncate_cells};
use crate::ui::theme::Color;
use crate::util::chars::{str_chars, string_from_chars};
use crate::util::number::{append_chars, decimal, decimal_digits, pad_left, pad_left_chars};

verus! {

/// Which metadata item a header entry shows.
#[derive(Debug, Clone, Copy, PartialEq, Eq)]
pub enum HeaderItemKind {
    Smf,
    Tpqn,
    Notes,
    Tracks,
    Ports,
    TimeSig,
    Bpm,
    Mode,
    Sf2,
}

/// A single right-aligned metadata item shown in the header bar.
pub struct HeaderItem {
    /// Which item this is.
    pub kind: HeaderItemKind,
    /// Fully formatted display text (e.g. "TPQN 480").
    pub text: String,
    /// Text color to draw this item with.
    pub color: Color,
}

/// `d` with a comma before every group of three digits counted from the
/// right, for its first `i` characters.
pub open spec fn grouped(d: Seq<char>, i: int) -> Seq<char>
    decreases i,
{
    if i <= 0 {
        Seq::empty()
    } else {
        let p = grouped(d, i - 1);
        let p = if i - 1 > 0 && (d.len() - (i - 1)) % 3 == 0 {
            p.push(',')
        } else {
            p
        };
        p.push(d[i - 1])
    }
}

/// `n` in decimal with thousands separators (`1,234,567`).
pub open spec fn thousands(n: nat) -> Seq<char> {
    grouped(decimal_digits(n), decimal_digits(n).len() as int)
}

/// Formats `n` with thousands separators.
pub fn format_thousands(n: usize) -> (r: String)
    ensures
        r@ == thousands(n as nat),
{
    let digits = decimal(n as u64);
    let len = digits.len();
    let mut out: Vec<char> = Vec::new();
    let mut i: usize = 0;
    while i < len
        invariant
            len == digits@.len(),
            digits@ == decimal_digits(n as nat),
            i <= len,
            out@ == grouped(digits@, i as int),
        decreases len - i,
    {
        if i > 0 && (len - i) % 3 == 0 {
            out.push(',');
        }
        out.push(digits[i]);
        i = i + 1;
    }
    string_from_chars(&out)
}

/// Names longer than 24 cells are cut to 21 cells (never splitting a wide
/// character) followed by `...`.
pub open spec fn shortened_sf2_name(name: Seq<char>) -> Seq<char> {
    if str_width_cjk(name) > 24 {
        name.take(fitting_prefix(name, 21, 0, 0)) + seq!['.', '.', '.']
    } else {
        name
    }
}

/// Shortens a SoundFont name for the header.
pub fn truncate_sf2_name(name: &str) -> (r: String)
    ensures
        r@ == shortened_sf2_name(name@),
{
    if text_cells(name) > 24 {
        let cut = truncate_cells(name, 21);
        let mut v = str_chars(cut.as_str());
        v.push('.');
        v.push('.');
        v.push('.');
        proof {
            assert(v@ =~= name@.take(fitting_prefix(name@, 21, 0, 0)) + seq!['.', '.', '.']);
        }
        string_from_chars(&v)
    } else {
        name.to_owned()
    }
}

/// A duration of `cs` hundredths of a second as `MM:SS.CC`, the minutes at
/// least two digits.
pub open spec fn duration_text(cs: u64) -> Seq<char> {
    let secs = cs / 100;
    pad_left(decimal_digits((secs / 60) as nat), 2, '0') + seq![':'] + pad_left(
        decimal_digits((secs % 60) as nat),
        2,
        '0',
    ) + seq!['.'] + pad_left(decimal_digits((cs % 100) as nat), 2, '0')
}

/// Formats a duration given in hundredths of a second as `MM:SS.CC`.
pub fn format_duration_centis(total_cs: u64) -> (r: String)
    ensures
        r@ == duration_text(total_cs),
{
    let cs = total_cs % 100;
    let total_sec = total_cs / 100;
    let mut out = pad_left_chars(decimal(total_sec / 60), 2, '0');
    out.push(':');
    append_chars(&mut out, &pad_left_chars(decimal(total_sec % 60), 2, '0'));
    out.push('.');
    append_chars(&mut out, &pad_left_chars(decimal(cs), 2, '0'));
    string_from_chars(&out)
}

/// Position of a kind in the order header items are dropped once they no
/// longer fit: Tracks, Ports, Notes, TPQN, SMF, SF2, time signature, BPM,
/// mode.
pub open spec fn drop_rank(k: HeaderItemKind) -> nat {
    match k {
        HeaderItemKind::Tracks => 0,
        HeaderItemKind::Ports => 1,
        HeaderItemKind::Notes => 2,
        HeaderItemKind::Tpqn => 3,
        HeaderItemKind::Smf => 4,
        HeaderItemKind::Sf2 => 5,
        HeaderItemKind::TimeSig => 6,
        HeaderItemKind::Bpm => 7,
        HeaderItemKind::Mode => 8,
    }
}

fn drop_rank_of(k: HeaderItemKind) -> (r: usize)
    ensures
        r == drop_rank(k),
{
    match k {
        HeaderItemKind::Tracks => 0,
        HeaderItemKind::Ports => 1,
        HeaderItemKind::Notes => 2,
        HeaderItemKind::Tpqn => 3,
        HeaderItemKind::Smf => 4,
        HeaderItemKind::Sf2 => 5,
        HeaderItemKind::TimeSig => 6,
        HeaderItemKind::Bpm => 7,
        HeaderItemKind::Mode => 8,
    }
}

/// Indices (in order, among the first `n`) of the items that survive
/// dropping the first `d` kinds of the drop order.
pub open spec fn survivors(kinds: Seq<HeaderItemKind>, d: nat, n: int) -> Seq<usize>
    decreases n,
{
    if n <= 0 {
        Seq::empty()
    } else {
        let prev = survivors(kinds, d, n - 1);
        if drop_rank(kinds[n - 1]) >= d {
            prev.push((n - 1) as usize)
        } else {
            prev
        }
    }
}

/// Width of the items at `idx`: their widths plus a separator between
/// neighbours.
pub open spec fn items_width(widths: Seq<u32>, sep: u32, idx: Seq<usize>) -> int
    decreases idx.len(),
{
    if idx.len() == 0 {
        0
    } else if idx.len() == 1 {
        widths[idx[0] as int] as int
    } else {
        items_width(widths, sep, idx.drop_last()) + sep + widths[idx.last() as int]
    }
}

/// Number of kinds dropped: the first `d` from which what survives is empty
/// or fits `available`, or all nine.
pub open spec fn drops_needed(kinds: Seq<HeaderItemKind>, widths: Seq<u32>, sep: u32, available: u32, d: nat) -> nat
    decreases 9 - d,
{
    if d >= 9 {
        9
    } else {
        let kept = survivors(kinds, d, kinds.len() as int);
        if kept.len() == 0 || items_width(widths, sep, kept) <= available {
            d
        } else {
            drops_needed(kinds, widths, sep, available, d + 1)
        }
    }
}

/// Selects which header items fit into `available` width, dropping items
/// kind by kind in the drop order until what remains (items plus
/// separators) fits. Returns the kept indices in their given order.
pub fn fit_header_items(kinds: &[HeaderItemKind], widths: &[u32], sep_width: u32, available: u32) -> (r:
    Vec<usize>)
    requires
        widths@.len() == kinds@.len(),
    ensures
        r@ == survivors(
            kinds@,
            drops_needed(kinds@, widths@, sep_width, available, 0),
            kinds@.len() as int,
        ),
{
    let n = kinds.len();
    let mut d: usize = 0;
    let mut done = false;
    let mut kept: Vec<usize> = Vec::new();
    while !done
        invariant
            n == kinds@.len(),
            widths@.len() == n,
            d <= 9,
            done ==> kept@ == survivors(
                kinds@,
                drops_needed(kinds@, widths@, sep_width, available, 0),
                n as int,
            ),
            !done ==> drops_needed(kinds@, widths@, sep_width, available, 0) == drops_needed(
                kinds@,
                widths@,
                sep_width,
                available,
                d as nat,
            ),
        decreases 10 - d, (if done { 0int } else { 1int }),
    {
        // Survivors of dropping the first `d` kinds, and their width.
        let mut cur: Vec<usize> = Vec::new();
        let mut width: u128 = 0;
        let mut i: usize = 0;
        while i < n
            invariant
                n == kinds@.len(),
                widths@.len() == n,
                i <= n,
                cur@ == survivors(kinds@, d as nat, i as int),
                cur@.len() <= i,
                width == items_width(widths@, sep_width, cur@),
                width <= (2 * i as int) * 0xFFFF_FFFF,
                forall|j: int| 0 <= j < cur@.len() ==> cur@[j] < i,
            decreases n - i,
        {
            if drop_rank_of(kinds[i]) >= d {
                let ghost before = cur@;
                if cur.len() > 0 {
                    width = width + sep_width as u128 + widths[i] as u128;
                } else {
                    width = widths[i] as u128;
                }
                cur.push(i);
                proof {
                    assert(cur@.drop_last() =~= before);
                }
            }
            i = i + 1;
        }
        if d >= 9 || cur.len() == 0 || width <= available as u128 {
            kept = cur;
            done = true;
        } else {
            d = d + 1;
        }
    }
    kept
}

/// What is kept fits, unless nothing is kept; and items go in drop order: an
/// item is dropped only after every item of an earlier kind is.
pub proof fn lemma_header_fit(kinds: Seq<HeaderItemKind>, widths: Seq<u32>, sep: u32, available: u32)
    requires
        kinds.len() <= usize::MAX,
    ensures
        ({
            let d = drops_needed(kinds, widths, sep, available, 0);
            let kept = survivors(kinds, d, kinds.len() as int);
            &&& kept.len() == 0 || items_width(widths, sep, kept) <= available || d == 9
            &&& forall|i: int| 0 <= i < kinds.len() ==> (drop_rank(#[trigger] kinds[i]) >= d
                <==> kept.contains(i as usize))
        }),
{
    lemma_drops_needed(kinds, widths, sep, available, 0);
    let d = drops_needed(kinds, widths, sep, available, 0);
    lemma_survivors(kinds, d, kinds.len() as int);
}

proof fn lemma_drops_needed(kinds: Seq<HeaderItemKind>, widths: Seq<u32>, sep: u32, available: u32, d: nat)
    requires
        d <= 9,
    ensures
        d <= drops_needed(kinds, widths, sep, available, d) <= 9,
        ({
            let e = drops_needed(kinds, widths, sep, available, d);
            let kept = survivors(kinds, e, kinds.len() as int);
            kept.len() == 0 || items_width(widths, sep, kept) <= available || e == 9
        }),
    decreases 9 - d,
{
    if d < 9 {
        let kept = survivors(kinds, d, kinds.len() as int);
        if !(kept.len() == 0 || items_width(widths, sep, kept) <= available) {
            lemma_drops_needed(kinds, widths, sep, available, d + 1);
        }
    }
}

proof fn lemma_survivors(kinds: Seq<HeaderItemKind>, d: nat, n: int)
    requires
        0 <= n <= kinds.len() <= usize::MAX,
    ensures
        forall|i: int| 0 <= i < n ==> (drop_rank(#[trigger] kinds[i]) >= d <==> survivors(
            kinds,
            d,
            n,
        ).contains(i as usize)),
        forall|j: int| 0 <= j < survivors(kinds, d, n).len() ==> survivors(kinds, d, n)[j] < n,
    decreases n,
{
    if n > 0 {
        lemma_survivors(kinds, d, n - 1);
        let prev = survivors(kinds, d, n - 1);
        let cur = survivors(kinds, d, n);
        let x = (n - 1) as usize;
        assert(x == n - 1);
        if drop_rank(kinds[n - 1]) >= d {
            assert(cur == prev.push(x));
            assert forall|j: int| 0 <= j < cur.len() implies cur[j] < n by {
                if j < prev.len() {
                    assert(cur[j] == prev[j]);
                }
            }
            assert forall|i: int| 0 <= i < n implies (drop_rank(#[trigger] kinds[i]) >= d
                <==> cur.contains(i as usize)) by {
                if i == n - 1 {
                    assert(cur[cur.len() - 1] == i as usize);
                } else {
                    if cur.contains(i as usize) {
                        let j = choose|j: int| 0 <= j < cur.len() && cur[j] == i as usize;
                        assert(j < prev.len());
                        assert(prev[j] == i as usize);
                    }
                    if prev.contains(i as usize) {
                        let j = choose|j: int| 0 <= j < prev.len() && prev[j] == i as usize;
                        assert(cur[j] == i as usize);
                    }
                }
            }
        } else {
            assert(cur == prev);
            assert forall|i: int| 0 <= i < n implies (drop_rank(#[trigger] kinds[i]) >= d
                <==> cur.contains(i as usize)) by {
                if i == n - 1 && cur.contains(i as usize) {
                    let j = choose|j: int| 0 <= j < cur.len() && cur[j] == i as usize;
                    assert(cur[j] < n - 1);
                }
            }
        }
    }
}

} // verus!
