//! Track list rows: Default mode (compact per-channel) and Detail mode
//! (per-track tree), the optional columns and the pan display.

use vstd::prelude::*;
use crate::player::TrackViewMode;
use crate::state::shared::TrackInfoSnapshot;
use crate::util::chars::string_from_chars;
use crate::util::number::{append_chars, decimal, decimal_digits};

verus! {

/// A single row in the flattened track list.
#[derive(Debug, Clone, Copy, PartialEq, Eq)]
pub enum RawRow {
    TrackHeader { track_idx: usize },
    Channel { _track_idx: usize, port: u8, channel: u8 },
}

/// Default mode: the 16 channels of the current port (clamped to the last port).
pub open spec fn default_rows(port_count: u8, current_port: u8) -> Seq<RawRow> {
    let last: int = if port_count >= 1 {
        port_count - 1
    } else {
        0
    };
    let port: u8 = if current_port < last {
        current_port
    } else {
        last as u8
    };
    Seq::new(16, |c: int| RawRow::Channel { _track_idx: 0, port, channel: c as u8 })
}

/// Channel rows of a track: one per channel with notes, in channel order,
/// for channels below `upto`.
pub open spec fn channel_rows(t: TrackInfoSnapshot, upto: int) -> Seq<RawRow>
    decreases upto,
{
    if upto <= 0 {
        Seq::empty()
    } else {
        let prev = channel_rows(t, upto - 1);
        if t.channel_note_counts@[upto - 1] > 0 {
            prev.push(
                RawRow::Channel { _track_idx: t.index, port: t.port, channel: (upto - 1) as u8 },
            )
        } else {
            prev
        }
    }
}

/// Rows of one track: none for an unnamed track without notes, else a
/// header then its channel rows.
pub open spec fn track_rows(t: TrackInfoSnapshot) -> Seq<RawRow> {
    if t.note_count == 0 && t.name@.len() == 0 {
        Seq::empty()
    } else {
        seq![RawRow::TrackHeader { track_idx: t.index }] + channel_rows(t, 16)
    }
}

/// Detail mode: the rows of each track in order.
pub open spec fn detail_rows(tracks: Seq<TrackInfoSnapshot>) -> Seq<RawRow>
    decreases tracks.len(),
{
    if tracks.len() == 0 {
        Seq::empty()
    } else {
        detail_rows(tracks.drop_last()) + track_rows(tracks.last())
    }
}

/// Rows of the given view mode.
pub open spec fn raw_rows(
    tracks: Seq<TrackInfoSnapshot>,
    port_count: u8,
    current_port: u8,
    mode: TrackViewMode,
) -> Seq<RawRow> {
    match mode {
        TrackViewMode::Default => default_rows(port_count, current_port),
        TrackViewMode::Detail => detail_rows(tracks),
    }
}

/// Build the flat row list for the current view mode.
pub fn build_raw_rows(
    tracks: &[TrackInfoSnapshot],
    port_count: u8,
    current_port: u8,
    mode: TrackViewMode,
) -> (r: Vec<RawRow>)
    ensures
        r@ == raw_rows(tracks@, port_count, current_port, mode),
{
    match mode {
        TrackViewMode::Default => build_default_rows(port_count, current_port),
        TrackViewMode::Detail => build_detail_rows(tracks),
    }
}

/// Build rows for Default mode: 16 channels for the current port.
pub fn build_default_rows(port_count: u8, current_port: u8) -> (r: Vec<RawRow>)
    ensures
        r@ == default_rows(port_count, current_port),
{
    let last = port_count.saturating_sub(1);
    let port = if current_port < last {
        current_port
    } else {
        last
    };
    let mut rows: Vec<RawRow> = Vec::new();
    let mut ch: u8 = 0;
    while ch < 16
        invariant
            ch <= 16,
            rows@ == default_rows(port_count, current_port).take(ch as int),
            port == (if current_port < (if port_count >= 1 { port_count - 1 } else { 0 }) {
                current_port
            } else {
                (if port_count >= 1 { port_count - 1 } else { 0 }) as u8
            }),
        decreases 16 - ch,
    {
        rows.push(RawRow::Channel { _track_idx: 0, port, channel: ch });
        ch = ch + 1;
        assert(rows@ =~= default_rows(port_count, current_port).take(ch as int));
    }
    assert(default_rows(port_count, current_port).take(16) =~= default_rows(port_count, current_port));
    rows
}

/// Build rows for Detail mode: track tree with channels.
pub fn build_detail_rows(tracks: &[TrackInfoSnapshot]) -> (r: Vec<RawRow>)
    ensures
        r@ == detail_rows(tracks@),
{
    let mut rows: Vec<RawRow> = Vec::new();
    let mut i: usize = 0;
    while i < tracks.len()
        invariant
            i <= tracks@.len(),
            rows@ == detail_rows(tracks@.take(i as int)),
        decreases tracks@.len() - i,
    {
        let t = &tracks[i];
        let ghost before = rows@;
        proof {
            assert(tracks@.take(i as int + 1).drop_last() =~= tracks@.take(i as int));
            assert(tracks@.take(i as int + 1).last() == *t);
        }
        if !(t.note_count == 0 && t.name.as_str().is_empty()) {
            rows.push(RawRow::TrackHeader { track_idx: t.index });
            let mut ch: u8 = 0;
            while ch < 16
                invariant
                    ch <= 16,
                    rows@ == before + seq![RawRow::TrackHeader { track_idx: t.index }] + channel_rows(*t, ch as int),
                decreases 16 - ch,
            {
                if t.channel_note_counts[ch as usize] > 0 {
                    rows.push(RawRow::Channel { _track_idx: t.index, port: t.port, channel: ch });
                }
                ch = ch + 1;
            }
        } else {
            assert(rows@ =~= before + track_rows(*t));
        }
        i = i + 1;
    }
    assert(tracks@.take(tracks@.len() as int) =~= tracks@);
    rows
}

/// Return the total number of rows in the current view mode.
pub fn raw_row_count(
    tracks: &[TrackInfoSnapshot],
    port_count: u8,
    current_port: u8,
    mode: TrackViewMode,
) -> (r: usize)
    ensures
        r == raw_rows(tracks@, port_count, current_port, mode).len(),
{
    build_raw_rows(tracks, port_count, current_port, mode).len()
}

/// Which optional Default-mode columns are visible, dropped in the order
/// EXP, PAN, VOL, PRG, meter.
#[derive(Debug, Clone, Copy, PartialEq, Eq)]
pub struct ColumnFlags {
    pub prg: bool,
    pub vol: bool,
    pub pan: bool,
    pub exp: bool,
    pub meter: bool,
}

impl ColumnFlags {
    /// Every column visible.
    pub fn all() -> (r: Self)
        ensures
            r == (ColumnFlags { prg: true, vol: true, pan: true, exp: true, meter: true }),
    {
        ColumnFlags { prg: true, vol: true, pan: true, exp: true, meter: true }
    }

    /// Drop the next column in priority order. Returns `false` once nothing
    /// is left to drop.
    pub fn drop_next(&mut self) -> (r: bool)
        ensures
            r == (old(self).exp || old(self).pan || old(self).vol || old(self).prg || old(self).meter),
            *final(self) == (if old(self).exp {
                ColumnFlags { exp: false, ..*old(self) }
            } else if old(self).pan {
                ColumnFlags { pan: false, ..*old(self) }
            } else if old(self).vol {
                ColumnFlags { vol: false, ..*old(self) }
            } else if old(self).prg {
                ColumnFlags { prg: false, ..*old(self) }
            } else {
                ColumnFlags { meter: false, ..*old(self) }
            }),
    {
        if self.exp {
            self.exp = false;
        } else if self.pan {
            self.pan = false;
        } else if self.vol {
            self.vol = false;
        } else if self.prg {
            self.prg = false;
        } else if self.meter {
            self.meter = false;
        } else {
            return false;
        }
        true
    }
}

/// Width taken by the visible optional columns, each with its trailing gap.
pub open spec fn columns_width(f: ColumnFlags, param_w: u32, pad: u32, meter_w: u32) -> int {
    (if f.prg {
        param_w + pad
    } else {
        0int
    }) + (if f.vol {
        param_w + pad
    } else {
        0int
    }) + (if f.pan {
        param_w + pad
    } else {
        0int
    }) + (if f.exp {
        param_w + pad
    } else {
        0int
    }) + (if f.meter {
        meter_w + pad
    } else {
        0int
    })
}

/// The flags after dropping the next column in priority order.
pub open spec fn dropped(f: ColumnFlags) -> ColumnFlags {
    if f.exp {
        ColumnFlags { exp: false, ..f }
    } else if f.pan {
        ColumnFlags { pan: false, ..f }
    } else if f.vol {
        ColumnFlags { vol: false, ..f }
    } else if f.prg {
        ColumnFlags { prg: false, ..f }
    } else {
        ColumnFlags { meter: false, ..f }
    }
}

/// Number of visible optional columns.
pub open spec fn shown_count(f: ColumnFlags) -> nat {
    (if f.prg {
        1nat
    } else {
        0
    }) + (if f.vol {
        1nat
    } else {
        0
    }) + (if f.pan {
        1nat
    } else {
        0
    }) + (if f.exp {
        1nat
    } else {
        0
    }) + (if f.meter {
        1nat
    } else {
        0
    })
}

/// Columns kept so that the name column keeps at least `min_name_w` of
/// `avail`: columns are dropped in priority order until it does or none is
/// left.
pub open spec fn fitted_columns(
    f: ColumnFlags,
    avail: u32,
    min_name_w: u32,
    param_w: u32,
    pad: u32,
    meter_w: u32,
) -> ColumnFlags
    decreases shown_count(f),
{
    if avail >= columns_width(f, param_w, pad, meter_w) + min_name_w || shown_count(f) == 0 {
        f
    } else {
        fitted_columns(dropped(f), avail, min_name_w, param_w, pad, meter_w)
    }
}

proof fn lemma_fitted_columns_fit(
    f: ColumnFlags,
    avail: u32,
    min_name_w: u32,
    param_w: u32,
    pad: u32,
    meter_w: u32,
)
    ensures
        ({
            let r = fitted_columns(f, avail, min_name_w, param_w, pad, meter_w);
            avail >= columns_width(r, param_w, pad, meter_w) + min_name_w || shown_count(r) == 0
        }),
    decreases shown_count(f),
{
    if !(avail >= columns_width(f, param_w, pad, meter_w) + min_name_w || shown_count(f) == 0) {
        lemma_fitted_columns_fit(dropped(f), avail, min_name_w, param_w, pad, meter_w);
    }
}

impl ColumnFlags {
    /// Total width consumed by the visible columns, each with its trailing gap.
    pub fn width(&self, param_w: u32, pad: u32, meter_w: u32) -> (r: u64)
        ensures
            r == columns_width(*self, param_w, pad, meter_w),
    {
        let mut w: u64 = 0;
        if self.prg {
            w = w + param_w as u64 + pad as u64;
        }
        if self.vol {
            w = w + param_w as u64 + pad as u64;
        }
        if self.pan {
            w = w + param_w as u64 + pad as u64;
        }
        if self.exp {
            w = w + param_w as u64 + pad as u64;
        }
        if self.meter {
            w = w + meter_w as u64 + pad as u64;
        }
        w
    }
}

/// Drop optional columns in priority order (EXP, PAN, VOL, PRG, meter)
/// until the name column keeps at least `min_name_w` of `avail`, or nothing
/// is left to drop.
pub fn fit_default_columns(
    flags: ColumnFlags,
    avail: u32,
    min_name_w: u32,
    param_w: u32,
    pad: u32,
    meter_w: u32,
) -> (r: ColumnFlags)
    ensures
        r == fitted_columns(flags, avail, min_name_w, param_w, pad, meter_w),
        avail >= columns_width(r, param_w, pad, meter_w) + min_name_w || shown_count(r) == 0,
{
    proof {
        lemma_fitted_columns_fit(flags, avail, min_name_w, param_w, pad, meter_w);
    }
    let mut f = flags;
    let mut done = false;
    while !done
        invariant
            fitted_columns(flags, avail, min_name_w, param_w, pad, meter_w) == fitted_columns(
                f,
                avail,
                min_name_w,
                param_w,
                pad,
                meter_w,
            ),
            done ==> f == fitted_columns(f, avail, min_name_w, param_w, pad, meter_w),
        decreases shown_count(f), (if done { 0int } else { 1int }),
    {
        if (avail as u64) < f.width(param_w, pad, meter_w) + min_name_w as u64 {
            let ghost before = f;
            if !f.drop_next() {
                done = true;
            } else {
                assert(f == dropped(before));
            }
        } else {
            done = true;
        }
    }
    f
}

/// Pan as shown: `C` at the centre (64), `L<n>` / `R<n>` for the distance
/// to the left or right of it.
pub open spec fn pan_text(pan: u32) -> Seq<char> {
    if pan == 64 {
        seq!['C']
    } else if pan < 64 {
        seq!['L'] + decimal_digits((64 - pan) as nat)
    } else {
        seq!['R'] + decimal_digits((pan - 64) as nat)
    }
}

/// Formats a pan value.
pub fn pan_display(pan: u32) -> (r: String)
    ensures
        r@ == pan_text(pan),
{
    let mut out: Vec<char> = Vec::new();
    if pan == 64 {
        out.push('C');
    } else if pan < 64 {
        out.push('L');
        append_chars(&mut out, &decimal((64 - pan) as u64));
    } else {
        out.push('R');
        append_chars(&mut out, &decimal((pan - 64) as u64));
    }
    string_from_chars(&out)
}

/// First row shown in Detail mode when `visible_rows` rows fit: the list
/// scrolls just far enough to keep the cursor on the last visible row.
pub fn detail_scroll_offset(cursor: usize, visible_rows: usize) -> (r: usize)
    requires
        visible_rows > 0,
    ensures
        r == (if cursor >= visible_rows {
            cursor - visible_rows + 1
        } else {
            0
        }),
        r <= cursor < r + visible_rows,
{
    if cursor >= visible_rows {
        cursor - visible_rows + 1
    } else {
        0
    }
}

} // verus!
