//! Log bookkeeping (line format, size-based rotation, rotated file names)
//! and the calendar arithmetic behind log and listing timestamps.

use vstd::prelude::*;
use crate::util::chars::{str_chars, string_from_chars};
use crate::util::number::{append_chars, decimal, decimal_digits, pad_left, pad_left_chars};

verus! {

/// Gregorian leap year.
pub open spec fn is_leap(y: int) -> bool {
    y % 4 == 0 && (y % 100 != 0 || y % 400 == 0)
}

/// Days in year `y`.
pub open spec fn year_days(y: int) -> int {
    if is_leap(y) {
        366
    } else {
        365
    }
}

/// Days in month `m` (0-based) of a year that is or is not a leap year.
pub open spec fn month_days(leap: bool, m: int) -> int {
    if m == 1 {
        if leap {
            29
        } else {
            28
        }
    } else if m == 3 || m == 5 || m == 8 || m == 10 {
        30
    } else {
        31
    }
}

/// Year reached from year `y` with `rem` days to go, and the days left in it.
pub open spec fn year_and_rest(y: int, rem: int) -> (int, int)
    decreases rem,
{
    if rem < year_days(y) || rem < 0 {
        (y, rem)
    } else {
        year_and_rest(y + 1, rem - year_days(y))
    }
}

/// Month (0-based) reached from month `m` with `rem` days to go, and the
/// days left in it; month 0 when the days run past December.
pub open spec fn month_and_rest(leap: bool, m: int, rem: int) -> (int, int)
    decreases 12 - m,
{
    if m >= 12 {
        (0, rem)
    } else if rem < month_days(leap, m) {
        (m, rem)
    } else {
        month_and_rest(leap, m + 1, rem - month_days(leap, m))
    }
}

/// `(year, month, day)` of the day `days` after 1970-01-01.
pub open spec fn ymd(days: nat) -> (int, int, int) {
    let (y, rem) = year_and_rest(1970, days as int);
    let (m, d) = month_and_rest(is_leap(y), 0, rem);
    (y, m + 1, d + 1)
}

/// Days from the start of month `m` (0-based) to the end of the year.
pub open spec fn days_from(leap: bool, m: int) -> int
    decreases 12 - m,
{
    if m >= 12 {
        0
    } else {
        month_days(leap, m) + days_from(leap, m + 1)
    }
}

proof fn lemma_year_rest(y: int, rem: int)
    requires
        rem >= 0,
    ensures
        year_and_rest(y, rem).0 >= y,
        0 <= year_and_rest(y, rem).1 < year_days(year_and_rest(y, rem).0),
    decreases rem,
{
    if rem >= year_days(y) {
        lemma_year_rest(y + 1, rem - year_days(y));
    }
}

proof fn lemma_month_rest(leap: bool, m: int, r: int)
    requires
        0 <= m <= 12,
        0 <= r < days_from(leap, m),
    ensures
        m <= month_and_rest(leap, m, r).0 < 12,
        0 <= month_and_rest(leap, m, r).1 < month_days(leap, month_and_rest(leap, m, r).0),
    decreases 12 - m,
{
    if r >= month_days(leap, m) {
        lemma_month_rest(leap, m + 1, r - month_days(leap, m));
    }
}

/// Every day count names a real calendar date from 1970 on: a month from 1
/// to 12 and a day within that month.
pub proof fn lemma_dates_valid(days: nat)
    ensures
        ymd(days).0 >= 1970,
        1 <= ymd(days).1 <= 12,
        1 <= ymd(days).2 <= month_days(is_leap(ymd(days).0), ymd(days).1 - 1),
{
    let (y, rem) = year_and_rest(1970, days as int);
    lemma_year_rest(1970, days as int);
    assert(days_from(is_leap(y), 0) == year_days(y)) by {
        reveal_with_fuel(days_from, 13);
    }
    lemma_month_rest(is_leap(y), 0, rem);
}

/// The calendar day after `(y, m, d)` (month and day 1-based).
pub open spec fn day_after(date: (int, int, int)) -> (int, int, int) {
    let (y, m, d) = date;
    if d < month_days(is_leap(y), m - 1) {
        (y, m, d + 1)
    } else if m < 12 {
        (y, m + 1, 1)
    } else {
        (y + 1, 1, 1)
    }
}

proof fn lemma_year_succ(y0: int, rem: int)
    requires
        rem >= 0,
    ensures
        year_and_rest(y0, rem + 1) == (if year_and_rest(y0, rem).1 + 1 < year_days(
            year_and_rest(y0, rem).0,
        ) {
            (year_and_rest(y0, rem).0, year_and_rest(y0, rem).1 + 1)
        } else {
            (year_and_rest(y0, rem).0 + 1, 0)
        }),
    decreases rem,
{
    if rem >= year_days(y0) {
        lemma_year_succ(y0 + 1, rem - year_days(y0));
    } else if rem + 1 >= year_days(y0) {
        assert(year_and_rest(y0 + 1, 0) == (y0 + 1, 0int));
    }
}

proof fn lemma_month_succ(leap: bool, m: int, r: int)
    requires
        0 <= m <= 12,
        0 <= r,
        r + 1 < days_from(leap, m),
    ensures
        month_and_rest(leap, m, r + 1) == (if month_and_rest(leap, m, r).1 + 1 < month_days(
            leap,
            month_and_rest(leap, m, r).0,
        ) {
            (month_and_rest(leap, m, r).0, month_and_rest(leap, m, r).1 + 1)
        } else {
            (month_and_rest(leap, m, r).0 + 1, 0)
        }),
    decreases 12 - m,
{
    if m < 12 {
        if r >= month_days(leap, m) {
            lemma_month_succ(leap, m + 1, r - month_days(leap, m));
        } else if r + 1 >= month_days(leap, m) {
            assert(days_from(leap, m) == month_days(leap, m) + days_from(leap, m + 1));
            if m + 1 >= 12 {
                assert(days_from(leap, m + 1) == 0);
            }
            assert(m + 1 < 12);
            assert(month_and_rest(leap, m + 1, 0) == (m + 1, 0int));
        }
    }
}

proof fn lemma_month_last(leap: bool, m: int)
    requires
        0 <= m <= 11,
    ensures
        month_and_rest(leap, m, days_from(leap, m) - 1) == (11int, 30int),
    decreases 11 - m,
{
    if m < 11 {
        lemma_month_last(leap, m + 1);
        assert(days_from(leap, m + 1) >= 1) by {
            lemma_days_from_pos(leap, m + 1);
        }
    } else {
        assert(days_from(leap, 12) == 0);
    }
}

proof fn lemma_days_from_pos(leap: bool, m: int)
    requires
        0 <= m <= 11,
    ensures
        days_from(leap, m) >= 28,
    decreases 11 - m,
{
    if m < 11 {
        lemma_days_from_pos(leap, m + 1);
    } else {
        assert(days_from(leap, 12) == 0);
    }
}

/// Counting one more day gives the day after: the day count `days + 1`
/// names the calendar day that follows the one `days` names.
pub proof fn lemma_next_day(days: nat)
    ensures
        ymd(days + 1) == day_after(ymd(days)),
{
    let (y, r) = year_and_rest(1970, days as int);
    lemma_year_rest(1970, days as int);
    lemma_year_succ(1970, days as int);
    let leap = is_leap(y);
    assert(days_from(leap, 0) == year_days(y)) by {
        reveal_with_fuel(days_from, 13);
    }
    lemma_month_rest(leap, 0, r);
    if r + 1 < year_days(y) {
        lemma_month_succ(leap, 0, r);
        lemma_month_rest(leap, 0, r + 1);
    } else {
        lemma_month_last(leap, 0);
        let (y2, r2) = year_and_rest(1970, (days + 1) as int);
        assert(y2 == y + 1 && r2 == 0);
        assert(month_and_rest(is_leap(y + 1), 0, 0) == (0int, 0int));
    }
}

/// Gregorian date of a day count since 1970-01-01.
pub fn days_to_ymd(days: u64) -> (r: (u64, u64, u64))
    ensures
        (r.0 as int, r.1 as int, r.2 as int) == ymd(days as nat),
{
    let mut y: u64 = 1970;
    let mut rem: u64 = days;
    loop
        invariant
            1970 <= y <= 1970 + days,
            rem <= days,
            year_and_rest(1970, days as int) == year_and_rest(y as int, rem as int),
            rem + (y - 1970) * 365 <= days,
        ensures
            year_and_rest(1970, days as int) == (y as int, rem as int),
            rem < year_days(y as int),
            y <= 1970 + days,
        decreases rem,
    {
        let leap = y % 4 == 0 && (y % 100 != 0 || y % 400 == 0);
        let ylen: u64 = if leap {
            366
        } else {
            365
        };
        assert(ylen == year_days(y as int));
        if rem < ylen {
            break;
        }
        rem = rem - ylen;
        y = y + 1;
    }
    let leap = y % 4 == 0 && (y % 100 != 0 || y % 400 == 0);
    let mut mo: u64 = 0;
    let mut m: u64 = 0;
    let mut found = false;
    while m < 12 && !found
        invariant
            m <= 12,
            rem <= days,
            leap == is_leap(y as int),
            !found ==> month_and_rest(leap, 0, year_and_rest(1970, days as int).1) == month_and_rest(
                leap,
                m as int,
                rem as int,
            ),
            found ==> month_and_rest(leap, 0, year_and_rest(1970, days as int).1) == (
            mo as int,
            rem as int,
            ),
            mo < 12,
            !found ==> mo == 0,
            rem < 367,
        decreases 12 - m, (if found { 0int } else { 1int }),
    {
        let ml: u64 = if m == 1 {
            if leap {
                29
            } else {
                28
            }
        } else if m == 3 || m == 5 || m == 8 || m == 10 {
            30
        } else {
            31
        };
        if rem < ml {
            mo = m;
            found = true;
        } else {
            rem = rem - ml;
            m = m + 1;
        }
    }
    (y, mo + 1, rem + 1)
}

/// Size at which the log file is rotated (3 MiB).
pub const MAX_LOG_BYTES: u64 = 3145728;

/// `n` as at least `w` decimal digits, padded with zeros.
pub open spec fn padded(n: nat, w: nat) -> Seq<char> {
    pad_left(decimal_digits(n), w, '0')
}

/// `secs` seconds after the Unix epoch as `YYYY-MM-DD HH:MM:SS` (UTC).
pub open spec fn log_time_text(secs: u64) -> Seq<char> {
    let rem = secs % 86400;
    let (y, mo, d) = ymd((secs / 86400) as nat);
    padded(y as nat, 4) + seq!['-'] + padded(mo as nat, 2) + seq!['-'] + padded(d as nat, 2)
        + seq![' '] + padded((rem / 3600) as nat, 2) + seq![':'] + padded(
        ((rem % 3600) / 60) as nat,
        2,
    ) + seq![':'] + padded((rem % 60) as nat, 2)
}

/// Log timestamp of a time given in seconds since the Unix epoch:
/// `YYYY-MM-DD HH:MM:SS` in UTC.
pub fn log_timestamp(secs: u64) -> (r: String)
    ensures
        r@ == log_time_text(secs),
{
    let rem = secs % 86400;
    let (y, mo, d) = days_to_ymd(secs / 86400);
    let mut out = pad_left_chars(decimal(y), 4, '0');
    out.push('-');
    append_chars(&mut out, &pad_left_chars(decimal(mo), 2, '0'));
    out.push('-');
    append_chars(&mut out, &pad_left_chars(decimal(d), 2, '0'));
    out.push(' ');
    append_chars(&mut out, &pad_left_chars(decimal(rem / 3600), 2, '0'));
    out.push(':');
    append_chars(&mut out, &pad_left_chars(decimal((rem % 3600) / 60), 2, '0'));
    out.push(':');
    append_chars(&mut out, &pad_left_chars(decimal(rem % 60), 2, '0'));
    string_from_chars(&out)
}

/// One log line: `<now> [<level>] <msg>` and a line feed.
pub open spec fn log_line_text(now: Seq<char>, level: Seq<char>, msg: Seq<char>) -> Seq<char> {
    now + seq![' ', '['] + level + seq![']', ' '] + msg + seq!['\n']
}

fn push_str(out: &mut Vec<char>, s: &str)
    ensures
        final(out)@ == old(out)@ + s@,
{
    let cs = str_chars(s);
    append_chars(out, &cs);
}

/// Format one log line.
pub fn log_line(now: &str, level: &str, msg: &str) -> (r: String)
    ensures
        r@ == log_line_text(now@, level@, msg@),
{
    let mut out: Vec<char> = Vec::new();
    push_str(&mut out, now);
    out.push(' ');
    out.push('[');
    push_str(&mut out, level);
    out.push(']');
    out.push(' ');
    push_str(&mut out, msg);
    out.push('\n');
    assert(out@ =~= log_line_text(now@, level@, msg@));
    string_from_chars(&out)
}

/// The ASCII digits of `s`, in order.
pub open spec fn ascii_digits(s: Seq<char>) -> Seq<char>
    decreases s.len(),
{
    if s.len() == 0 {
        Seq::empty()
    } else {
        let rest = ascii_digits(s.drop_last());
        if '0' <= s.last() <= '9' {
            rest.push(s.last())
        } else {
            rest
        }
    }
}

/// File name a log is renamed to when rotated at time `now`:
/// `ump_<digits of now>.log`.
pub open spec fn rotated_name_text(now: Seq<char>) -> Seq<char> {
    seq!['u', 'm', 'p', '_'] + ascii_digits(now) + seq!['.', 'l', 'o', 'g']
}

/// Name for the rotated log file: the digits of the timestamp `now`
/// between `ump_` and `.log`.
pub fn rotated_log_name(now: &str) -> (r: String)
    ensures
        r@ == rotated_name_text(now@),
{
    let cs = str_chars(now);
    let mut digits: Vec<char> = Vec::new();
    let mut i: usize = 0;
    while i < cs.len()
        invariant
            cs@ == now@,
            i <= cs@.len(),
            digits@ == ascii_digits(cs@.take(i as int)),
        decreases cs@.len() - i,
    {
        assert(cs@.take(i as int + 1).drop_last() =~= cs@.take(i as int));
        let c = cs[i];
        if '0' <= c && c <= '9' {
            digits.push(c);
        }
        i = i + 1;
    }
    assert(cs@.take(cs@.len() as int) =~= cs@);
    let mut out: Vec<char> = Vec::new();
    out.push('u');
    out.push('m');
    out.push('p');
    out.push('_');
    append_chars(&mut out, &digits);
    out.push('.');
    out.push('l');
    out.push('o');
    out.push('g');
    assert(out@ =~= rotated_name_text(now@));
    string_from_chars(&out)
}

/// Bookkeeping of the open log file: bytes written to it and whether
/// Info-level lines are logged.
#[derive(Debug, Clone, Copy, PartialEq, Eq)]
pub struct LogState {
    pub bytes_written: u64,
    pub verbose: bool,
}

impl LogState {
    /// Count a line of `len` bytes written; true when the file has reached
    /// [`MAX_LOG_BYTES`] and must be rotated.
    pub fn record_write(&mut self, len: u64) -> (r: bool)
        requires
            old(self).bytes_written + len <= u64::MAX,
        ensures
            final(self).bytes_written == old(self).bytes_written + len,
            final(self).verbose == old(self).verbose,
            r == (final(self).bytes_written >= MAX_LOG_BYTES),
    {
        self.bytes_written = self.bytes_written + len;
        self.bytes_written >= MAX_LOG_BYTES
    }

    /// A fresh file was opened after rotation.
    pub fn rotated(&mut self)
        ensures
            *final(self) == (LogState { bytes_written: 0, ..*old(self) }),
    {
        self.bytes_written = 0;
    }
}

/// Whether verbose (Info-level) logging is on: never without a log.
pub fn is_verbose(log: Option<&LogState>) -> (r: bool)
    ensures
        r == (match log {
            Some(l) => l.verbose,
            None => false,
        }),
{
    match log {
        Some(l) => l.verbose,
        None => false,
    }
}

} // verus!
