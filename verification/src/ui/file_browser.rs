//! File browser for selecting MIDI and SF2 files: listing order, filtering,
//! cursor and paging, column fitting and timestamps. Reading directories is
//! left to the host, which is told what to list.

use vstd::prelude::*;
use crate::debug::{days_to_ymd, ymd};
use crate::ui::text::{
    cells_of, cells_sum, char_cells, fitting_prefix, lemma_truncate_fits, str_width_cjk, text_cells,
    truncate_cells,
};
use crate::util::chars::{lex_lt, str_chars, string_from_chars};
use crate::util::number::{append_chars, decimal, decimal_digits, pad_left, pad_left_chars};
use crate::util::paths::{
    extension_of, lowercase_of, parent_of, path_extension, path_parent, paths_equal, same_path,
    to_lowercase,
};

verus! {

/// Width of the right-aligned size/tag column, in cells.
pub const SIZE_COL_CELLS: usize = 13;
/// Width of the date column (`YYYY-MM-DD HH:MM`), in cells.
pub const DATE_COL_CELLS: usize = 16;
/// Gap between adjacent list columns, in cells.
pub const COL_GAP_CELLS: usize = 2;
/// Name column width below which the date, then the size column, are dropped.
pub const MIN_NAME_CELLS: usize = 16;

/// Which optional columns fit: `(size, date)`. The date needs room for the
/// minimum name, the size column and the date, each with its gap; the size
/// alone needs the minimum name and the size with its gap.
pub fn fit_columns(avail_cells: usize, size_cells: usize, date_cells: usize, gap_cells: usize) -> (r: (
    bool,
    bool,
))
    requires
        MIN_NAME_CELLS + size_cells + gap_cells + date_cells + gap_cells <= usize::MAX,
    ensures
        r == (if avail_cells >= MIN_NAME_CELLS + size_cells + gap_cells + date_cells + gap_cells {
            (true, true)
        } else if avail_cells >= MIN_NAME_CELLS + size_cells + gap_cells {
            (true, false)
        } else {
            (false, false)
        }),
{
    let both = size_cells + gap_cells + date_cells + gap_cells;
    let size_only = size_cells + gap_cells;
    if avail_cells >= MIN_NAME_CELLS + both {
        (true, true)
    } else if avail_cells >= MIN_NAME_CELLS + size_only {
        (true, false)
    } else {
        (false, false)
    }
}

/// Cursor after paging by `visible` rows up or down without wrapping:
/// clamped to the first and last row (0 for an empty list).
pub fn page_target(cursor: usize, visible: usize, total: usize, up: bool) -> (r: usize)
    requires
        !up && total > 0 ==> cursor + visible <= usize::MAX,
    ensures
        r == (if total == 0 {
            0
        } else if up {
            if cursor >= visible {
                cursor - visible
            } else {
                0
            }
        } else if cursor + visible < total - 1 {
            cursor + visible
        } else {
            total - 1
        }),
{
    if total == 0 {
        return 0;
    }
    if up {
        cursor.saturating_sub(visible)
    } else {
        let t = cursor + visible;
        if t < total - 1 {
            t
        } else {
            total - 1
        }
    }
}

/// `secs` seconds after the Unix epoch as `YYYY-MM-DD HH:MM` (UTC), the
/// year at least four digits and the rest two.
pub open spec fn timestamp_text(secs: u64) -> Seq<char> {
    let days = secs / 86400;
    let rem = secs % 86400;
    let (y, mo, d) = ymd(days as nat);
    pad_left(decimal_digits(y as nat), 4, '0') + seq!['-'] + pad_left(
        decimal_digits(mo as nat),
        2,
        '0',
    ) + seq!['-'] + pad_left(decimal_digits(d as nat), 2, '0') + seq![' '] + pad_left(
        decimal_digits((rem / 3600) as nat),
        2,
        '0',
    ) + seq![':'] + pad_left(decimal_digits(((rem % 3600) / 60) as nat), 2, '0')
}

/// Formats a time given in seconds since the Unix epoch as `YYYY-MM-DD HH:MM` (UTC).
pub fn format_timestamp_secs(secs: u64) -> (r: String)
    ensures
        r@ == timestamp_text(secs),
{
    let days = secs / 86400;
    let rem = secs % 86400;
    let (y, mo, d) = days_to_ymd(days);
    let h = rem / 3600;
    let mi = (rem % 3600) / 60;
    let mut out = pad_left_chars(decimal(y), 4, '0');
    out.push('-');
    append_chars(&mut out, &pad_left_chars(decimal(mo), 2, '0'));
    out.push('-');
    append_chars(&mut out, &pad_left_chars(decimal(d), 2, '0'));
    out.push(' ');
    append_chars(&mut out, &pad_left_chars(decimal(h), 2, '0'));
    out.push(':');
    append_chars(&mut out, &pad_left_chars(decimal(mi), 2, '0'));
    string_from_chars(&out)
}

/// A point in time.
#[verifier::external_type_specification]
#[verifier::external_body]
pub struct ExSystemTime(std::time::SystemTime);

/// Whole seconds from the Unix epoch to a point in time, as
/// `SystemTime::duration_since(UNIX_EPOCH)` and `Duration::as_secs` give
/// them (0 for times before the epoch).
pub uninterp spec fn unix_seconds_of(t: std::time::SystemTime) -> u64;

/// Whole seconds from the Unix epoch to `time` (`SystemTime::duration_since`
/// and `Duration::as_secs`); 0 for times before the epoch. The value is the
/// named result [`unix_seconds_of`], a function of `time` alone.
#[verifier::external_body]
fn unix_seconds(time: std::time::SystemTime) -> (r: u64)
    ensures
        r == unix_seconds_of(time),
{
    time.duration_since(std::time::SystemTime::UNIX_EPOCH).map(|d| d.as_secs()).unwrap_or(0)
}

/// Formats a `SystemTime` as `YYYY-MM-DD HH:MM` in UTC.
pub fn format_timestamp(time: std::time::SystemTime) -> (r: String)
    ensures
        r@ == timestamp_text(unix_seconds_of(time)),
{
    let secs = unix_seconds(time);
    format_timestamp_secs(secs)
}

/// What kind of file the browser is selecting.
#[derive(Debug, Clone, Copy, PartialEq, Eq)]
pub enum BrowseTarget {
    Midi,
    Sf2,
}

/// Result of a browser interaction step.
#[derive(Debug, Clone, PartialEq, Eq)]
pub enum BrowseResult {
    Continue,
    Selected(String),
    Cancel,
}

/// What the host has to read before the browser shows fresh entries.
#[derive(Debug, Clone, PartialEq, Eq)]
pub enum Listing {
    /// The entries of this directory.
    Directory(String),
    /// The filesystem roots.
    Drives,
}

/// Directory entry for display.
#[derive(Debug, Clone)]
pub struct Entry {
    pub name: String,
    pub path: String,
    pub is_dir: bool,
    pub size: u64,
    /// Modification time, in seconds since the Unix epoch.
    pub modified: Option<u64>,
}

/// Model of an [`Entry`].
pub struct EntryModel {
    pub name: Seq<char>,
    pub path: Seq<char>,
    pub is_dir: bool,
    pub size: u64,
    pub modified: Option<u64>,
}

impl View for Entry {
    type V = EntryModel;

    open spec fn view(&self) -> EntryModel {
        EntryModel {
            name: self.name@,
            path: self.path@,
            is_dir: self.is_dir,
            size: self.size,
            modified: self.modified,
        }
    }
}

/// Models of a list of entries.
pub open spec fn entry_models(s: Seq<Entry>) -> Seq<EntryModel> {
    s.map_values(|e: Entry| e@)
}

/// Whether a file path has an extension the browser shows for `target`
/// (`mid`/`midi` or `sf2`, in any case).
pub open spec fn shown_for(target: BrowseTarget, path: Seq<char>) -> bool {
    match extension_of(path) {
        Some(e) => {
            let l = lowercase_of(e);
            match target {
                BrowseTarget::Midi => l == seq!['m', 'i', 'd'] || l == seq!['m', 'i', 'd', 'i'],
                BrowseTarget::Sf2 => l == seq!['s', 'f', '2'],
            }
        },
        None => false,
    }
}

/// Whether a name is hidden (starts with a dot).
pub open spec fn is_hidden(name: Seq<char>) -> bool {
    name.len() > 0 && name[0] == '.'
}

/// Sort key of an entry: its name in lower case.
pub open spec fn entry_key(e: EntryModel) -> Seq<char> {
    lowercase_of(e.name)
}

/// Position at which a stable insertion puts `e`: after every entry whose
/// key is not greater, scanning from the back.
pub open spec fn entry_insert_pos(s: Seq<EntryModel>, e: EntryModel) -> int
    decreases s.len(),
{
    if s.len() == 0 {
        0
    } else if !lex_lt(entry_key(e), entry_key(s.last())) {
        s.len() as int
    } else {
        entry_insert_pos(s.drop_last(), e)
    }
}

/// Stable sort by lower-case name (insertion sort).
pub open spec fn sort_entries(s: Seq<EntryModel>) -> Seq<EntryModel>
    decreases s.len(),
{
    if s.len() == 0 {
        Seq::empty()
    } else {
        let r = sort_entries(s.drop_last());
        let p = entry_insert_pos(r, s.last());
        r.take(p).push(s.last()) + r.skip(p)
    }
}

/// The visible directories of a listing, in listing order.
pub open spec fn listed_dirs(items: Seq<EntryModel>) -> Seq<EntryModel>
    decreases items.len(),
{
    if items.len() == 0 {
        Seq::empty()
    } else {
        let r = listed_dirs(items.drop_last());
        let e = items.last();
        if !is_hidden(e.name) && e.is_dir {
            r.push(e)
        } else {
            r
        }
    }
}

/// The visible files of a listing with a shown extension, in listing order.
pub open spec fn listed_files(target: BrowseTarget, items: Seq<EntryModel>) -> Seq<EntryModel>
    decreases items.len(),
{
    if items.len() == 0 {
        Seq::empty()
    } else {
        let r = listed_files(target, items.drop_last());
        let e = items.last();
        if !is_hidden(e.name) && !e.is_dir && shown_for(target, e.path) {
            r.push(e)
        } else {
            r
        }
    }
}

/// The `..` entry leading to `dir`'s parent, when it has one distinct from it.
pub open spec fn parent_entries(dir: Seq<char>) -> Seq<EntryModel> {
    match parent_of(dir) {
        Some(p) => if !same_path(p, dir) {
            seq![EntryModel { name: seq!['.', '.'], path: p, is_dir: true, size: 0, modified: None }]
        } else {
            Seq::empty()
        },
        None => Seq::empty(),
    }
}

/// Entries for filesystem roots.
pub open spec fn root_entries(roots: Seq<String>) -> Seq<EntryModel>
    decreases roots.len(),
{
    if roots.len() == 0 {
        Seq::empty()
    } else {
        root_entries(roots.drop_last()).push(
            EntryModel {
                name: roots.last()@,
                path: roots.last()@,
                is_dir: true,
                size: 0,
                modified: None,
            },
        )
    }
}

/// The model after moving the cursor to row `i` of a non-empty list:
/// clamped to the last row, scrolling up if it went above the view.
pub open spec fn with_cursor(m: BrowserModel, i: int) -> BrowserModel {
    let c = if i < m.entries.len() - 1 {
        i
    } else {
        m.entries.len() - 1
    };
    BrowserModel {
        cursor: c as nat,
        scroll_offset: if c < m.scroll_offset {
            c as nat
        } else {
            m.scroll_offset
        },
        ..m
    }
}

/// The model with the cursor on row `c`, scrolled up if `c` is above the view.
pub open spec fn cursor_at(m: BrowserModel, c: int) -> BrowserModel {
    BrowserModel {
        cursor: c as nat,
        scroll_offset: if c < m.scroll_offset {
            c as nat
        } else {
            m.scroll_offset
        },
        ..m
    }
}

/// The model after [`FileBrowser::cursor_up`]: one row up, from the first
/// row to the last; nothing on an empty list.
pub open spec fn after_cursor_up(m: BrowserModel) -> BrowserModel {
    if m.entries.len() == 0 {
        m
    } else {
        cursor_at(
            m,
            if m.cursor == 0 {
                m.entries.len() - 1
            } else {
                m.cursor - 1
            },
        )
    }
}

/// The model after [`FileBrowser::cursor_down`]: one row down, from the
/// last row to the first; nothing on an empty list.
pub open spec fn after_cursor_down(m: BrowserModel) -> BrowserModel {
    if m.entries.len() == 0 {
        m
    } else {
        cursor_at(
            m,
            if m.cursor + 1 >= m.entries.len() {
                0
            } else {
                m.cursor + 1int
            },
        )
    }
}

/// Moving the cursor down and then up (or up and then down) puts it back
/// on the row it was on, wrapping included.
pub proof fn lemma_cursor_down_up(m: BrowserModel)
    requires
        0 <= m.cursor < m.entries.len(),
    ensures
        after_cursor_up(after_cursor_down(m)).cursor == m.cursor,
        after_cursor_down(after_cursor_up(m)).cursor == m.cursor,
{
}

/// The browser: current directory, entries, cursor and scroll position.
pub struct FileBrowser {
    current_dir: String,
    entries: Vec<Entry>,
    cursor: usize,
    scroll_offset: usize,
    /// Number of rows visible in the last render, used by page handling.
    visible_rows: usize,
    pub target: BrowseTarget,
    show_drives: bool,
    pending: Option<Listing>,
}

/// Model of a [`FileBrowser`].
pub struct BrowserModel {
    pub current_dir: Seq<char>,
    pub entries: Seq<EntryModel>,
    pub cursor: nat,
    pub scroll_offset: nat,
    pub visible_rows: nat,
    pub target: BrowseTarget,
    pub show_drives: bool,
    pub pending: Option<Listing>,
}

impl View for FileBrowser {
    type V = BrowserModel;

    closed spec fn view(&self) -> BrowserModel {
        BrowserModel {
            current_dir: self.current_dir@,
            entries: entry_models(self.entries@),
            cursor: self.cursor as nat,
            scroll_offset: self.scroll_offset as nat,
            visible_rows: self.visible_rows as nat,
            target: self.target,
            show_drives: self.show_drives,
            pending: self.pending,
        }
    }
}

/// Clones a list of entries.
fn copy_entry(e: &Entry) -> (r: Entry)
    ensures
        r@ == e@,
{
    Entry { name: e.name.clone(), path: e.path.clone(), is_dir: e.is_dir, size: e.size, modified: e.modified }
}

/// Whether the host shows a file with this path for `target`.
fn matches_filter(target: BrowseTarget, path: &str) -> (r: bool)
    ensures
        r == shown_for(target, path@),
{
    match path_extension(path) {
        Some(e) => {
            let l = str_chars(to_lowercase(e.as_str()).as_str());
            let n = l.len();
            match target {
                BrowseTarget::Midi => {
                    let r = (n == 3 && l[0] == 'm' && l[1] == 'i' && l[2] == 'd') || (n == 4 && l[0]
                        == 'm' && l[1] == 'i' && l[2] == 'd' && l[3] == 'i');
                    proof {
                        if l@ == seq!['m', 'i', 'd'] {
                            assert(l@[0] == 'm' && l@[1] == 'i' && l@[2] == 'd');
                        }
                        if l@ == seq!['m', 'i', 'd', 'i'] {
                            assert(l@[0] == 'm' && l@[1] == 'i' && l@[2] == 'd' && l@[3] == 'i');
                        }
                        if n == 3 && l@[0] == 'm' && l@[1] == 'i' && l@[2] == 'd' {
                            assert(l@ =~= seq!['m', 'i', 'd']);
                        }
                        if n == 4 && l@[0] == 'm' && l@[1] == 'i' && l@[2] == 'd' && l@[3] == 'i' {
                            assert(l@ =~= seq!['m', 'i', 'd', 'i']);
                        }
                    }
                    r
                },
                BrowseTarget::Sf2 => {
                    let r = n == 3 && l[0] == 's' && l[1] == 'f' && l[2] == '2';
                    proof {
                        if l@ == seq!['s', 'f', '2'] {
                            assert(l@[0] == 's' && l@[1] == 'f' && l@[2] == '2');
                        }
                        if r {
                            assert(l@ =~= seq!['s', 'f', '2']);
                        }
                    }
                    r
                },
            }
        },
        None => false,
    }
}

/// Stable insertion of `e` into `v`, sorted by lower-case name.
fn insert_entry(v: &mut Vec<Entry>, e: Entry)
    ensures
        entry_models(final(v)@) == ({
            let s = entry_models(old(v)@);
            let p = entry_insert_pos(s, e@);
            s.take(p).push(e@) + s.skip(p)
        }),
{
    let ghost s = entry_models(v@);
    let key = str_chars(to_lowercase(e.name.as_str()).as_str());
    let mut j: usize = v.len();
    assert(s.take(j as int) =~= s);
    loop
        invariant
            s == entry_models(v@),
            j <= v@.len(),
            key@ == entry_key(e@),
            entry_insert_pos(s, e@) == entry_insert_pos(s.take(j as int), e@),
        ensures
            entry_insert_pos(s, e@) == j,
        decreases j,
    {
        if j == 0 {
            break;
        }
        let other = str_chars(to_lowercase(v[j - 1].name.as_str()).as_str());
        proof {
            assert(s.take(j as int).last() == v@[j - 1]@);
            assert(s.take(j as int).drop_last() =~= s.take(j as int - 1));
        }
        if !crate::util::chars::chars_lt(&key, &other) {
            break;
        }
        j = j - 1;
    }
    let ghost ev = e@;
    v.insert(j, e);
    proof {
        assert(entry_models(v@) =~= s.take(j as int).push(ev) + s.skip(j as int));
    }
}

impl FileBrowser {
    /// A browser for `target` that will list `start_dir` once the host reads it.
    pub fn new(target: BrowseTarget, start_dir: String) -> (r: Self)
        ensures
            r@.current_dir == start_dir@,
            r@.entries == Seq::<EntryModel>::empty(),
            r@.cursor == 0,
            r@.scroll_offset == 0,
            r@.visible_rows == 0,
            r@.target == target,
            !r@.show_drives,
            r@.pending == Some(Listing::Directory(start_dir)),
    {
        let pending = Some(Listing::Directory(start_dir.clone()));
        let r = FileBrowser {
            current_dir: start_dir,
            entries: Vec::new(),
            cursor: 0,
            scroll_offset: 0,
            visible_rows: 0,
            target,
            show_drives: false,
            pending,
        };
        assert(entry_models(r.entries@) =~= Seq::<EntryModel>::empty());
        r
    }

    /// The listing the host has to read, if any; taking it clears it.
    pub fn take_pending(&mut self) -> (r: Option<Listing>)
        ensures
            r == old(self)@.pending,
            final(self)@ == (BrowserModel { pending: None, ..old(self)@ }),
    {
        self.pending.take()
    }

    /// Show the listing of the current directory read by the host (`None`
    /// when it could not be read): `..` first when the directory has a
    /// parent, then the visible directories, then the visible files with a
    /// shown extension, each group sorted by lower-case name.
    pub fn apply_listing(&mut self, read: Option<Vec<Entry>>)
        ensures
            final(self)@ == (BrowserModel {
                entries: parent_entries(old(self)@.current_dir) + (match read {
                    Some(items) => sort_entries(listed_dirs(entry_models(items@))) + sort_entries(
                        listed_files(old(self)@.target, entry_models(items@)),
                    ),
                    None => Seq::empty(),
                }),
                cursor: 0,
                scroll_offset: 0,
                show_drives: false,
                ..old(self)@
            }),
    {
        let ghost expected = parent_entries(self@.current_dir) + (match &read {
            Some(items) => sort_entries(listed_dirs(entry_models(items@))) + sort_entries(
                listed_files(self@.target, entry_models(items@)),
            ),
            None => Seq::empty(),
        });
        let mut entries: Vec<Entry> = Vec::new();
        match path_parent(self.current_dir.as_str()) {
            Some(parent) => {
                if !paths_equal(parent.as_str(), self.current_dir.as_str()) {
                    let dots = vec!['.', '.'];
                    let name = string_from_chars(&dots);
                    entries.push(Entry { name, path: parent, is_dir: true, size: 0, modified: None });
                    assert(dots@ =~= seq!['.', '.']);
                }
            },
            None => {},
        }
        assert(entry_models(entries@) =~= parent_entries(self.current_dir@));
        if let Some(items) = read {
            let ghost ms = entry_models(items@);
            let mut dirs: Vec<Entry> = Vec::new();
            let mut files: Vec<Entry> = Vec::new();
            let mut i: usize = 0;
            assert(ms.take(0) =~= Seq::<EntryModel>::empty());
            assert(entry_models(dirs@) =~= Seq::<EntryModel>::empty());
            while i < items.len()
                invariant
                    ms == entry_models(items@),
                    i <= items@.len(),
                    entry_models(dirs@) == sort_entries(listed_dirs(ms.take(i as int))),
                    entry_models(files@) == sort_entries(listed_files(self.target, ms.take(i as int))),
                decreases items@.len() - i,
            {
                let e = &items[i];
                proof {
                    assert(ms.take(i as int + 1).drop_last() =~= ms.take(i as int));
                    assert(ms.take(i as int + 1).last() == e@);
                }
                let name = str_chars(e.name.as_str());
                let hidden = name.len() > 0 && name[0] == '.';
                assert(hidden == is_hidden(e@.name));
                let ghost ld = listed_dirs(ms.take(i as int));
                let ghost lf = listed_files(self.target, ms.take(i as int));
                if !hidden && e.is_dir {
                    insert_entry(&mut dirs, copy_entry(e));
                    proof {
                        assert(listed_dirs(ms.take(i as int + 1)) == ld.push(e@));
                        assert(ld.push(e@).drop_last() =~= ld);
                        assert(listed_files(self.target, ms.take(i as int + 1)) == lf);
                    }
                } else if !hidden && matches_filter(self.target, e.path.as_str()) {
                    insert_entry(&mut files, copy_entry(e));
                    proof {
                        assert(listed_files(self.target, ms.take(i as int + 1)) == lf.push(e@));
                        assert(lf.push(e@).drop_last() =~= lf);
                        assert(listed_dirs(ms.take(i as int + 1)) == ld);
                    }
                } else {
                    proof {
                        assert(listed_dirs(ms.take(i as int + 1)) == ld);
                        assert(listed_files(self.target, ms.take(i as int + 1)) == lf);
                    }
                }
                i = i + 1;
            }
            assert(ms.take(items@.len() as int) =~= ms);
            let ghost e0 = entry_models(entries@);
            let ghost d0 = entry_models(dirs@);
            let ghost f0 = entry_models(files@);
            entries.append(&mut dirs);
            entries.append(&mut files);
            assert(entry_models(entries@) =~= e0 + d0 + f0);
        } else {
            assert(entry_models(entries@) =~= parent_entries(self.current_dir@) + Seq::<EntryModel>::empty());
        }
        assert(entry_models(entries@) == expected);
        self.entries = entries;
        self.show_drives = false;
        self.reset_cursor();
    }

    /// Show the filesystem roots read by the host.
    pub fn apply_drives(&mut self, roots: Vec<String>)
        ensures
            final(self)@ == (BrowserModel {
                entries: root_entries(roots@),
                cursor: 0,
                scroll_offset: 0,
                show_drives: true,
                ..old(self)@
            }),
    {
        let mut entries: Vec<Entry> = Vec::new();
        let mut i: usize = 0;
        while i < roots.len()
            invariant
                i <= roots@.len(),
                entry_models(entries@) == root_entries(roots@.take(i as int)),
            decreases roots@.len() - i,
        {
            let root = &roots[i];
            let ghost before = entry_models(entries@);
            let e = Entry { name: root.clone(), path: root.clone(), is_dir: true, size: 0, modified: None };
            entries.push(e);
            proof {
                assert(roots@.take(i as int + 1).drop_last() =~= roots@.take(i as int));
                assert(entry_models(entries@) =~= before.push(e@));
            }
            i = i + 1;
        }
        assert(roots@.take(roots@.len() as int) =~= roots@);
        self.entries = entries;
        self.show_drives = true;
        self.reset_cursor();
    }

    /// Cursor and scroll back to the top.
    pub fn reset_cursor(&mut self)
        ensures
            final(self)@ == (BrowserModel { cursor: 0, scroll_offset: 0, ..old(self)@ }),
    {
        self.cursor = 0;
        self.scroll_offset = 0;
    }

    /// Move up one row, wrapping from the first row to the last.
    pub fn cursor_up(&mut self)
        ensures
            final(self)@ == after_cursor_up(old(self)@),
    {
        if self.entries.len() == 0 {
            return;
        }
        if self.cursor == 0 {
            self.cursor = self.entries.len() - 1;
        } else {
            self.cursor = self.cursor - 1;
        }
        self.adjust_scroll();
    }

    /// Move down one row, wrapping from the last row to the first.
    pub fn cursor_down(&mut self)
        ensures
            final(self)@ == after_cursor_down(old(self)@),
    {
        if self.entries.len() == 0 {
            return;
        }
        if self.cursor >= self.entries.len() - 1 {
            self.cursor = 0;
        } else {
            self.cursor = self.cursor + 1;
        }
        self.adjust_scroll();
    }

    /// Scroll up so the cursor is not above the first visible row.
    pub fn adjust_scroll(&mut self)
        ensures
            final(self)@ == (BrowserModel {
                scroll_offset: if old(self)@.cursor < old(self)@.scroll_offset {
                    old(self)@.cursor
                } else {
                    old(self)@.scroll_offset
                },
                ..old(self)@
            }),
    {
        if self.cursor < self.scroll_offset {
            self.scroll_offset = self.cursor;
        }
    }

    /// Move the cursor to row `i` (from a mouse click), clamped to the
    /// entry range. Only clamps scrolling upward; [`fit_rows`](Self::fit_rows)
    /// clamps the other direction.
    pub fn set_cursor(&mut self, i: usize)
        ensures
            old(self)@.entries.len() == 0 ==> final(self)@ == (BrowserModel { cursor: 0, ..old(self)@ }),
            old(self)@.entries.len() > 0 ==> final(self)@ == with_cursor(old(self)@, i as int),
    {
        if self.entries.len() == 0 {
            self.cursor = 0;
            return;
        }
        let last = self.entries.len() - 1;
        self.cursor = if i < last {
            i
        } else {
            last
        };
        self.adjust_scroll();
    }

    /// Move the cursor up by one visible page (no wraparound).
    pub fn page_up(&mut self)
        ensures
            ({
                let page = if old(self)@.visible_rows > 1 {
                    old(self)@.visible_rows
                } else {
                    1
                };
                let t = if old(self)@.cursor >= page {
                    old(self)@.cursor - page
                } else {
                    0
                };
                old(self)@.entries.len() > 0 ==> final(self)@ == with_cursor(old(self)@, t)
            }),
            old(self)@.entries.len() == 0 ==> final(self)@ == (BrowserModel { cursor: 0, ..old(self)@ }),
    {
        let page = if self.visible_rows > 1 {
            self.visible_rows
        } else {
            1
        };
        let target = page_target(self.cursor, page, self.entries.len(), true);
        self.set_cursor(target);
    }

    /// Move the cursor down by one visible page (no wraparound).
    pub fn page_down(&mut self)
        requires
            old(self)@.cursor + old(self)@.visible_rows + 1 <= usize::MAX,
        ensures
            ({
                let page = if old(self)@.visible_rows > 1 {
                    old(self)@.visible_rows
                } else {
                    1
                };
                let t = if old(self)@.cursor + page < old(self)@.entries.len() - 1 {
                    old(self)@.cursor + page as int
                } else {
                    old(self)@.entries.len() - 1
                };
                old(self)@.entries.len() > 0 ==> final(self)@ == with_cursor(old(self)@, t)
            }),
            old(self)@.entries.len() == 0 ==> final(self)@ == (BrowserModel { cursor: 0, ..old(self)@ }),
    {
        let page = if self.visible_rows > 1 {
            self.visible_rows
        } else {
            1
        };
        let target = page_target(self.cursor, page, self.entries.len(), false);
        self.set_cursor(target);
    }

    /// Record how many rows fit and scroll so the cursor is visible.
    pub fn fit_rows(&mut self, visible_rows: usize)
        requires
            old(self)@.scroll_offset + visible_rows <= usize::MAX,
        ensures
            final(self)@ == (BrowserModel {
                visible_rows: visible_rows as nat,
                scroll_offset: if visible_rows == 0 {
                    old(self)@.scroll_offset
                } else if old(self)@.cursor >= old(self)@.scroll_offset + visible_rows {
                    (old(self)@.cursor - visible_rows + 1) as nat
                } else if old(self)@.cursor < old(self)@.scroll_offset {
                    old(self)@.cursor
                } else {
                    old(self)@.scroll_offset
                },
                ..old(self)@
            }),
    {
        if visible_rows > 0 {
            if self.cursor >= self.scroll_offset + visible_rows {
                self.scroll_offset = self.cursor - visible_rows + 1;
            }
            if self.cursor < self.scroll_offset {
                self.scroll_offset = self.cursor;
            }
        }
        self.visible_rows = visible_rows;
    }

    /// Open the entry under the cursor: a directory becomes the current
    /// directory (to be listed); a file is selected.
    pub fn enter(&mut self) -> (r: BrowseResult)
        ensures
            old(self)@.cursor >= old(self)@.entries.len() ==> r == BrowseResult::Continue
                && final(self)@ == old(self)@,
            old(self)@.cursor < old(self)@.entries.len() ==> {
                let e = old(self)@.entries[old(self)@.cursor as int];
                if e.is_dir {
                    &&& r == BrowseResult::Continue
                    &&& final(self)@.current_dir == e.path
                    &&& final(self)@.pending matches Some(Listing::Directory(d)) && d@ == e.path
                    &&& final(self)@.entries == old(self)@.entries
                    &&& final(self)@.cursor == old(self)@.cursor
                    &&& final(self)@.show_drives == old(self)@.show_drives
                } else {
                    r matches BrowseResult::Selected(p) && p@ == e.path && final(self)@ == old(self)@
                }
            },
    {
        if self.cursor >= self.entries.len() {
            return BrowseResult::Continue;
        }
        let entry = &self.entries[self.cursor];
        proof {
            assert(entry_models(self.entries@)[self.cursor as int] == entry@);
        }
        if entry.is_dir {
            let path = entry.path.clone();
            self.pending = Some(Listing::Directory(path.clone()));
            self.current_dir = path;
            BrowseResult::Continue
        } else {
            BrowseResult::Selected(entry.path.clone())
        }
    }

    /// Go to the parent directory (to be listed), or to the drive list from
    /// a root; nothing while the drive list is shown.
    pub fn go_parent(&mut self)
        ensures
            old(self)@.show_drives ==> final(self)@ == old(self)@,
            !old(self)@.show_drives ==> match parent_of(old(self)@.current_dir) {
                Some(p) => if !same_path(p, old(self)@.current_dir) {
                    &&& final(self)@.current_dir == p
                    &&& final(self)@.pending matches Some(Listing::Directory(d)) && d@ == p
                    &&& final(self)@.entries == old(self)@.entries
                } else {
                    final(self)@ == (BrowserModel { pending: Some(Listing::Drives), ..old(self)@ })
                },
                None => final(self)@ == (BrowserModel { pending: Some(Listing::Drives), ..old(self)@ }),
            },
    {
        if self.show_drives {
            return;
        }
        match path_parent(self.current_dir.as_str()) {
            Some(parent) => {
                if !paths_equal(parent.as_str(), self.current_dir.as_str()) {
                    self.pending = Some(Listing::Directory(parent.clone()));
                    self.current_dir = parent;
                } else {
                    self.pending = Some(Listing::Drives);
                }
            },
            None => {
                self.pending = Some(Listing::Drives);
            },
        }
    }

    /// Go to the home directory (to be listed), when there is one.
    pub fn go_home(&mut self, home: Option<String>)
        ensures
            home is None ==> final(self)@ == old(self)@,
            home matches Some(h) ==> final(self)@ == (BrowserModel {
                current_dir: h@,
                pending: Some(Listing::Directory(h)),
                ..old(self)@
            }),
    {
        if let Some(h) = home {
            self.pending = Some(Listing::Directory(h.clone()));
            self.current_dir = h;
        }
    }

    /// Ask for the drive list.
    pub fn go_drives(&mut self)
        ensures
            final(self)@ == (BrowserModel { pending: Some(Listing::Drives), ..old(self)@ }),
    {
        self.pending = Some(Listing::Drives);
    }

    /// The entries shown.
    pub fn entries(&self) -> (r: &Vec<Entry>)
        ensures
            entry_models(r@) == self@.entries,
    {
        &self.entries
    }

    /// Row of the cursor.
    pub fn cursor(&self) -> (r: usize)
        ensures
            r == self@.cursor,
    {
        self.cursor
    }

    /// First row shown.
    pub fn scroll_offset(&self) -> (r: usize)
        ensures
            r == self@.scroll_offset,
    {
        self.scroll_offset
    }

    /// Whether the drive list is shown.
    pub fn show_drives(&self) -> (r: bool)
        ensures
            r == self@.show_drives,
    {
        self.show_drives
    }

    /// The current directory.
    pub fn current_dir(&self) -> (r: &String)
        ensures
            r@ == self@.current_dir,
    {
        &self.current_dir
    }

    /// What kind of file the browser selects.
    pub fn target(&self) -> (r: BrowseTarget)
        ensures
            r == self@.target,
    {
        self.target
    }
}

/// Scrollbar thumb within a `track_h`-tall track, in whole cells: `total`
/// entries, `visible` shown, scrolled to `offset`. The thumb's height is
/// the visible share of the track (rounded down), at least `min_thumb` and
/// at most the track; it sits at the scrolled share of the room left.
/// Returns `(thumb_y, thumb_h)` from the track's top.
pub open spec fn thumb_of(total: usize, visible: usize, offset: usize, track_h: u32, min_thumb: u32) -> (int, int) {
    if total == 0 || track_h == 0 {
        (0, track_h as int)
    } else {
        let shown: int = if visible < total {
            visible as int
        } else {
            total as int
        };
        let raw_h = track_h * shown / (total as int);
        let h0 = if raw_h > min_thumb {
            raw_h
        } else {
            min_thumb as int
        };
        let h = if h0 < track_h {
            h0
        } else {
            track_h as int
        };
        let max_offset: int = if total > visible {
            total - visible
        } else {
            1
        };
        (((track_h - h) * offset) / max_offset, h)
    }
}

/// Scrollbar thumb geometry (see [`thumb_of`]).
pub fn thumb_geometry(total: usize, visible: usize, offset: usize, track_h: u32, min_thumb: u32) -> (r: (
    u128,
    u32,
))
    ensures
        (r.0 as int, r.1 as int) == thumb_of(total, visible, offset, track_h, min_thumb),
{
    if total == 0 || track_h == 0 {
        return (0, track_h);
    }
    let shown: u128 = if visible < total {
        visible as u128
    } else {
        total as u128
    };
    assert(track_h as u128 * shown <= 0xFFFF_FFFFu128 * 0xFFFF_FFFF_FFFF_FFFFu128) by (nonlinear_arith)
        requires
            track_h <= 0xFFFF_FFFFu128,
            shown <= 0xFFFF_FFFF_FFFF_FFFFu128,
    ;
    let raw_h: u128 = track_h as u128 * shown / total as u128;
    assert(raw_h <= track_h) by (nonlinear_arith)
        requires
            raw_h == (track_h as int * shown as int) / (total as int),
            shown <= total,
            total > 0,
    ;
    let h0: u128 = if raw_h > min_thumb as u128 {
        raw_h
    } else {
        min_thumb as u128
    };
    let h: u32 = if h0 < track_h as u128 {
        h0 as u32
    } else {
        track_h
    };
    let max_offset: u128 = if total > visible {
        total as u128 - visible as u128
    } else {
        1
    };
    let room: u128 = (track_h - h) as u128;
    assert(room * offset as u128 <= 0xFFFF_FFFFu128 * 0xFFFF_FFFF_FFFF_FFFFu128) by (nonlinear_arith)
        requires
            room <= 0xFFFF_FFFFu128,
            offset <= 0xFFFF_FFFF_FFFF_FFFFu128,
    ;
    (room * offset as u128 / max_offset, h)
}

/// Number of trailing characters of `s` that fit in `max` cells, taking
/// characters from the end while they fit; `k` are taken already, using
/// `used` cells.
pub open spec fn fitting_suffix(s: Seq<char>, max: int, k: int, used: int) -> int
    decreases s.len() - k,
{
    if k >= s.len() || used + cells_of(s[s.len() - 1 - k]) > max {
        k
    } else {
        fitting_suffix(s, max, k + 1, used + cells_of(s[s.len() - 1 - k]))
    }
}

/// The ellipsis that marks a cut path.
pub open spec fn ellipsis() -> Seq<char> {
    seq!['.', '.', '.']
}

/// `path` cut to at most `max_cells` cells, keeping its end: the whole path
/// if it fits; else `...` (cut to `max_cells` when even that does not fit)
/// followed by the longest tail that fits in the cells left.
pub open spec fn path_tail_text(path: Seq<char>, max_cells: int) -> Seq<char> {
    if str_width_cjk(path) <= max_cells {
        path
    } else if max_cells <= 3 {
        ellipsis().take(max_cells)
    } else {
        let n = fitting_suffix(path, max_cells - 3, 0, 0);
        ellipsis() + path.subrange(path.len() - n, path.len() as int)
    }
}

proof fn lemma_dots_prefix(max: int, i: int, used: int)
    requires
        char_width_is_one('.'),
        0 <= i <= 3,
        used == i,
        i <= max,
    ensures
        fitting_prefix(ellipsis(), max, i, used) == (if max < 3 {
            max
        } else {
            3
        }),
    decreases 3 - i,
{
    if i < 3 && used + 1 <= max {
        lemma_dots_prefix(max, i + 1, used + 1);
    }
}

/// Whether `c` takes exactly one cell.
pub open spec fn char_width_is_one(c: char) -> bool {
    cells_of(c) == 1
}

proof fn lemma_suffix_fits(s: Seq<char>, max: int, k: int, used: int)
    requires
        0 <= k <= s.len(),
        used <= max,
    ensures
        k <= fitting_suffix(s, max, k, used) <= s.len(),
        used + cells_sum(s.subrange(s.len() - fitting_suffix(s, max, k, used), s.len() - k))
            <= max,
    decreases s.len() - k,
{
    let len = s.len() as int;
    if k >= len || used + cells_of(s[len - 1 - k]) > max {
        assert(s.subrange(len - k, len - k) =~= Seq::<char>::empty());
    } else {
        let c = cells_of(s[len - 1 - k]);
        let n = fitting_suffix(s, max, k, used);
        lemma_suffix_fits(s, max, k + 1, used + c);
        let sub = s.subrange(len - n, len - k);
        assert(sub.drop_last() =~= s.subrange(len - n, len - k - 1));
        assert(sub.last() == s[len - 1 - k]);
    }
}

/// A cut path fits its cells: the ellipsis and the kept tail together take
/// at most `max_cells` cells; an uncut path already fit.
pub proof fn lemma_path_tail_fits(path: Seq<char>, max_cells: int)
    requires
        max_cells >= 0,
        char_width_is_one('.'),
    ensures
        str_width_cjk(path) <= max_cells ==> path_tail_text(path, max_cells) == path,
        str_width_cjk(path) > max_cells ==> cells_sum(path_tail_text(path, max_cells)) <= max_cells,
{
    if str_width_cjk(path) > max_cells {
        if max_cells <= 3 {
            lemma_dots_prefix(max_cells, 0, 0);
            lemma_truncate_fits(ellipsis(), max_cells);
        } else {
            let n = fitting_suffix(path, max_cells - 3, 0, 0);
            lemma_suffix_fits(path, max_cells - 3, 0, 0);
            let tail = path.subrange(path.len() - n, path.len() as int);
            lemma_cells_sum_append(ellipsis(), tail);
            assert(cells_sum(ellipsis()) == 3) by {
                let one = seq!['.'];
                let two = seq!['.', '.'];
                assert(one.drop_last() =~= Seq::<char>::empty());
                assert(cells_sum(Seq::<char>::empty()) == 0);
                assert(one.last() == '.');
                assert(cells_sum(one) == 1);
                assert(two.drop_last() =~= one);
                assert(cells_sum(two) == 2);
                assert(ellipsis().drop_last() =~= two);
            }
        }
    }
}

proof fn lemma_cells_sum_append(a: Seq<char>, b: Seq<char>)
    ensures
        cells_sum(a + b) == cells_sum(a) + cells_sum(b),
    decreases b.len(),
{
    if b.len() == 0 {
        assert(a + b =~= a);
    } else {
        lemma_cells_sum_append(a, b.drop_last());
        assert((a + b).drop_last() =~= a + b.drop_last());
        assert((a + b).last() == b.last());
    }
}

/// Tail-truncates `path` to at most `max_cells` display cells, prefixing
/// `...` when it doesn't fit; never splits a wide character.
pub fn path_tail(path: &str, max_cells: usize) -> (r: String)
    ensures
        r@ == path_tail_text(path@, max_cells as int),
{
    if text_cells(path) <= max_cells {
        return path.to_owned();
    }
    let ellipsis_str = "...";
    proof {
        reveal_strlit("...");
    }
    let ellipsis_cells = text_cells(ellipsis_str);
    assert(ellipsis_str@ == ellipsis());
    let _ = char_cells('.');
    if max_cells <= ellipsis_cells {
        let r = truncate_cells(ellipsis_str, max_cells);
        proof {
            lemma_dots_prefix(max_cells as int, 0, 0);
        }
        return r;
    }
    let budget = max_cells - ellipsis_cells;
    let chars = str_chars(path);
    let len = chars.len();
    let mut n: usize = 0;
    let mut used: usize = 0;
    let mut full = false;
    while n < len && !full
        invariant
            chars@ == path@,
            len == chars@.len(),
            n <= len,
            used <= budget,
            fitting_suffix(path@, budget as int, 0, 0) == fitting_suffix(
                path@,
                budget as int,
                n as int,
                used as int,
            ),
            full ==> fitting_suffix(path@, budget as int, n as int, used as int) == n,
        decreases len - n, (if full { 0int } else { 1int }),
    {
        let c = chars[len - 1 - n];
        let w = match char_cells(c) {
            Some(w) => w,
            None => 1,
        };
        if w > budget - used {
            full = true;
        } else {
            used = used + w;
            n = n + 1;
        }
    }
    let mut out: Vec<char> = Vec::new();
    out.push('.');
    out.push('.');
    out.push('.');
    let mut k: usize = len - n;
    while k < len
        invariant
            chars@ == path@,
            len == chars@.len(),
            n <= len,
            len - n <= k <= len,
            out@ == ellipsis() + chars@.subrange(len - n, k as int),
        decreases len - k,
    {
        out.push(chars[k]);
        k = k + 1;
        assert(out@ =~= ellipsis() + chars@.subrange(len - n, k as int));
    }
    string_from_chars(&out)
}

} // verus!
