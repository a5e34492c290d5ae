//! Text width helpers for cell-based text layout.
//!
//! Widths follow `width_cjk` (East Asian Width "Ambiguous" = wide), because
//! the fonts this app uses render Ambiguous glyphs full-width.

use vstd::prelude::*;
use unicode_width::UnicodeWidthChar;
use unicode_width::UnicodeWidthStr;
use crate::util::chars::{str_chars, string_from_chars};

verus! {

/// What `UnicodeWidthStr::width_cjk` yields for a string.
pub uninterp spec fn str_width_cjk(s: Seq<char>) -> usize;

/// What `UnicodeWidthChar::width_cjk` yields for a character.
pub uninterp spec fn char_width_cjk(c: char) -> Option<usize>;

/// Number of monospace cells `s` occupies when rendered
/// (`UnicodeWidthStr::width_cjk`). A string of printable ASCII characters
/// takes one cell per character.
#[verifier::external_body]
pub fn text_cells(s: &str) -> (r: usize)
    ensures
        r == str_width_cjk(s@),
        (forall|i: int| 0 <= i < s@.len() ==> '\u{20}' <= #[trigger] s@[i] < '\u{7f}') ==> r
            == s@.len(),
{
    UnicodeWidthStr::width_cjk(s)
}

/// Display width of one character (`UnicodeWidthChar::width_cjk`): `None`
/// for control characters (below U+0020 and U+007F to U+009F), 1 for
/// printable ASCII, never more than 3.
#[verifier::external_body]
pub(crate) fn char_cells(c: char) -> (r: Option<usize>)
    ensures
        r == char_width_cjk(c),
        r matches Some(w) ==> w <= 3,
        ('\u{20}' <= c < '\u{7f}') ==> r == Some(1usize),
        (c < '\u{20}' || ('\u{7f}' <= c < '\u{a0}')) ==> r is None,
{
    UnicodeWidthChar::width_cjk(c)
}

/// Cells a character takes in truncation: its width, 1 for control characters.
pub open spec fn cells_of(c: char) -> int {
    match char_width_cjk(c) {
        Some(w) => w as int,
        None => 1,
    }
}

/// Number of leading characters of `s` that fit in `max` cells, taking
/// characters while they fit.
pub open spec fn fitting_prefix(s: Seq<char>, max: int, i: int, used: int) -> int
    decreases s.len() - i,
{
    if i >= s.len() || used + cells_of(s[i]) > max {
        i
    } else {
        fitting_prefix(s, max, i + 1, used + cells_of(s[i]))
    }
}

/// Cells taken by the characters of `s`, each counted as in truncation.
pub open spec fn cells_sum(s: Seq<char>) -> int
    decreases s.len(),
{
    if s.len() == 0 {
        0
    } else {
        cells_sum(s.drop_last()) + cells_of(s.last())
    }
}

/// Counting from the front gives the same sum.
pub proof fn lemma_cells_sum_front(s: Seq<char>)
    requires
        s.len() > 0,
    ensures
        cells_sum(s) == cells_of(s[0]) + cells_sum(s.drop_first()),
    decreases s.len(),
{
    if s.len() > 1 {
        lemma_cells_sum_front(s.drop_last());
        assert(s.drop_last().drop_first() =~= s.drop_first().drop_last());
        assert(s.drop_first().last() == s.last());
    } else {
        assert(s.drop_first() =~= Seq::<char>::empty());
        assert(s.drop_last() =~= Seq::<char>::empty());
    }
}

proof fn lemma_prefix_fits(s: Seq<char>, max: int, i: int, used: int)
    requires
        0 <= i <= s.len(),
        used <= max,
    ensures
        i <= fitting_prefix(s, max, i, used) <= s.len(),
        used + cells_sum(s.subrange(i, fitting_prefix(s, max, i, used))) <= max,
    decreases s.len() - i,
{
    if i >= s.len() || used + cells_of(s[i]) > max {
        assert(s.subrange(i, i) =~= Seq::<char>::empty());
    } else {
        let k = fitting_prefix(s, max, i, used);
        lemma_prefix_fits(s, max, i + 1, used + cells_of(s[i]));
        let sub = s.subrange(i, k);
        lemma_cells_sum_front(sub);
        assert(sub.drop_first() =~= s.subrange(i + 1, k));
    }
}

/// What [`truncate_cells`] keeps never takes more than `max_cells` cells.
pub proof fn lemma_truncate_fits(s: Seq<char>, max: int)
    requires
        max >= 0,
    ensures
        cells_sum(s.take(fitting_prefix(s, max, 0, 0))) <= max,
{
    lemma_prefix_fits(s, max, 0, 0);
    assert(s.take(fitting_prefix(s, max, 0, 0)) =~= s.subrange(0, fitting_prefix(s, max, 0, 0)));
}

/// Truncates `name` to at most `max_cells` display cells, never splitting a
/// wide character in half.
pub fn truncate_cells(name: &str, max_cells: usize) -> (r: String)
    ensures
        r@ == name@.take(fitting_prefix(name@, max_cells as int, 0, 0)),
{
    let chars = str_chars(name);
    let mut out: Vec<char> = Vec::new();
    let mut used: usize = 0;
    let mut i: usize = 0;
    let mut full = false;
    while i < chars.len() && !full
        invariant
            chars@ == name@,
            i <= chars@.len(),
            used <= max_cells,
            out@ == chars@.take(i as int),
            fitting_prefix(name@, max_cells as int, 0, 0) == fitting_prefix(
                name@,
                max_cells as int,
                i as int,
                used as int,
            ),
            full ==> fitting_prefix(name@, max_cells as int, i as int, used as int) == i,
        decreases chars@.len() - i, (if full { 0int } else { 1int }),
    {
        let w = match char_cells(chars[i]) {
            Some(w) => w,
            None => 1,
        };
        if w > max_cells - used {
            full = true;
        } else {
            out.push(chars[i]);
            used = used + w;
            i = i + 1;
            assert(out@ =~= chars@.take(i as int));
        }
    }
    string_from_chars(&out)
}

/// Characters of `s` from the `i`-th on, at cell position `pos`, that lie
/// wholly within cells `off..end`; the scan stops once it reaches `end`.
pub open spec fn slice_from(s: Seq<char>, i: int, pos: int, off: int, end: int) -> Seq<char>
    decreases s.len() - i,
{
    if i < 0 || i >= s.len() {
        Seq::empty()
    } else {
        let w = cells_of(s[i]);
        let here = if pos >= off && pos + w <= end {
            seq![s[i]]
        } else {
            Seq::empty()
        };
        if pos + w >= end {
            here
        } else {
            here + slice_from(s, i + 1, pos + w, off, end)
        }
    }
}

/// The part of `text` shown through a window of `max_cells` cells starting
/// `offset_cells` cells in; characters cut by the window's edges are left out.
pub fn visible_slice(text: &str, offset_cells: usize, max_cells: usize) -> (r: String)
    ensures
        r@ == slice_from(
            text@,
            0,
            0,
            offset_cells as int,
            offset_cells as int + max_cells as int,
        ),
{
    let chars = str_chars(text);
    let ghost s = text@;
    let off: u128 = offset_cells as u128;
    let end: u128 = offset_cells as u128 + max_cells as u128;
    let mut out: Vec<char> = Vec::new();
    let mut pos: u128 = 0;
    let mut i: usize = 0;
    let mut done = false;
    while i < chars.len() && !done
        invariant
            chars@ == s,
            i <= s.len(),
            end == off + max_cells,
            off == offset_cells,
            pos < end || (i == 0 && pos == 0) || done,
            pos <= end + 3,
            out@ + (if done {
                Seq::empty()
            } else {
                slice_from(s, i as int, pos as int, off as int, end as int)
            }) == slice_from(s, 0, 0, off as int, end as int),
        decreases s.len() - i, (if done { 0int } else { 1int }),
    {
        let c = chars[i];
        let w: u128 = match char_cells(c) {
            Some(w) => w as u128,
            None => 1,
        };
        let ghost before = out@;
        if pos >= off && pos + w <= end {
            out.push(c);
        }
        pos = pos + w;
        i = i + 1;
        if pos >= end {
            done = true;
        }
        proof {
            if !done {
                assert(before + slice_from(s, i - 1, pos - w, off as int, end as int) == out@
                    + slice_from(s, i as int, pos as int, off as int, end as int));
            }
        }
    }
    proof {
        if !done {
            assert(slice_from(s, i as int, pos as int, off as int, end as int) =~= Seq::empty());
        }
        assert(out@ + Seq::<char>::empty() =~= out@);
    }
    string_from_chars(&out)
}

} // verus!
