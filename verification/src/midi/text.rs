//! Decoding of MIDI meta text fields.

use vstd::prelude::*;
use vstd::utf8::{decode_utf8, valid_utf8};

verus! {

/// `u8::is_ascii_whitespace`: space, tab, line feed, form feed, carriage return.
pub open spec fn is_ascii_white(b: u8) -> bool {
    b == 0x20 || b == 0x09 || b == 0x0A || b == 0x0C || b == 0x0D
}

/// Padding around a meta text: ASCII whitespace or NUL.
pub open spec fn is_padding(b: u8) -> bool {
    is_ascii_white(b) || b == 0
}

/// Index of the first non-padding byte at or after `from` (the length when none).
pub open spec fn first_content(s: Seq<u8>, from: int) -> int
    decreases s.len() - from,
{
    if from >= s.len() {
        s.len() as int
    } else if !is_padding(s[from]) {
        from
    } else {
        first_content(s, from + 1)
    }
}

/// Index just past the last non-padding byte before `to` (0 when none).
pub open spec fn last_content_end(s: Seq<u8>, to: int) -> int
    decreases to,
{
    if to <= 0 {
        0
    } else if !is_padding(s[to - 1]) {
        to
    } else {
        last_content_end(s, to - 1)
    }
}

/// `s` without leading and trailing padding.
pub open spec fn trimmed_ascii(s: Seq<u8>) -> Seq<u8> {
    let start = first_content(s, 0);
    if start >= s.len() {
        Seq::empty()
    } else {
        s.subrange(start, last_content_end(s, s.len() as int))
    }
}

/// Unicode `White_Space` (what `char::is_whitespace` and `str::trim` use).
pub open spec fn is_white_space(c: char) -> bool {
    ||| '\u{9}' <= c <= '\u{d}'
    ||| c == ' '
    ||| c == '\u{85}'
    ||| c == '\u{a0}'
    ||| c == '\u{1680}'
    ||| '\u{2000}' <= c <= '\u{200a}'
    ||| c == '\u{2028}'
    ||| c == '\u{2029}'
    ||| c == '\u{202f}'
    ||| c == '\u{205f}'
    ||| c == '\u{3000}'
}

/// `s` without leading white space.
pub open spec fn trim_start_ws(s: Seq<char>) -> Seq<char>
    decreases s.len(),
{
    if s.len() > 0 && is_white_space(s[0]) {
        trim_start_ws(s.drop_first())
    } else {
        s
    }
}

/// `s` without trailing white space.
pub open spec fn trim_end_ws(s: Seq<char>) -> Seq<char>
    decreases s.len(),
{
    if s.len() > 0 && is_white_space(s.last()) {
        trim_end_ws(s.drop_last())
    } else {
        s
    }
}

/// `s` without leading and trailing white space.
pub open spec fn trim_ws(s: Seq<char>) -> Seq<char> {
    trim_end_ws(trim_start_ws(s))
}

/// `std::str::from_utf8`: succeeds exactly on valid UTF-8, with the decoded text.
#[verifier::external_body]
pub(crate) fn utf8_str(bytes: &[u8]) -> (r: Option<&str>)
    ensures
        r is Some <==> valid_utf8(bytes@),
        r matches Some(s) ==> s@ == decode_utf8(bytes@),
{
    std::str::from_utf8(bytes).ok()
}

/// `str::trim`: removes leading and trailing `White_Space` characters.
#[verifier::external_body]
pub(crate) fn trim_str(s: &str) -> (r: &str)
    ensures
        r@ == trim_ws(s@),
{
    s.trim()
}

/// What `encoding_rs::SHIFT_JIS.decode` yields for `bytes` (with BOM sniffing
/// and U+FFFD for malformed sequences).
pub uninterp spec fn shift_jis_decode(bytes: Seq<u8>) -> Seq<char>;

/// `encoding_rs::SHIFT_JIS.decode`, keeping only the text. The decoder
/// sizes its output buffer as three bytes per input byte plus one lead
/// byte, which must fit `isize`.
#[verifier::external_body]
fn decode_shift_jis(bytes: &[u8]) -> (r: String)
    requires
        3 * (bytes@.len() + 1) <= isize::MAX,
    ensures
        r@ == shift_jis_decode(bytes@),
{
    let (decoded, _, _) = encoding_rs::SHIFT_JIS.decode(bytes);
    decoded.into_owned()
}

/// Trim ASCII whitespace and stray NULs, which show up as padding in files
/// written by older sequencers.
pub fn trim_ascii(bytes: &[u8]) -> (r: &[u8])
    ensures
        r@ == trimmed_ascii(bytes@),
{
    let mut start: usize = 0;
    while start < bytes.len() && (bytes[start] == 0x20 || bytes[start] == 0x09 || bytes[start]
        == 0x0A || bytes[start] == 0x0C || bytes[start] == 0x0D || bytes[start] == 0)
        invariant
            start <= bytes@.len(),
            first_content(bytes@, 0) == first_content(bytes@, start as int),
        decreases bytes@.len() - start,
    {
        start = start + 1;
    }
    if start >= bytes.len() {
        return vstd::slice::slice_subrange(bytes, 0, 0);
    }
    let mut end: usize = bytes.len();
    while end > 0 && (bytes[end - 1] == 0x20 || bytes[end - 1] == 0x09 || bytes[end - 1] == 0x0A
        || bytes[end - 1] == 0x0C || bytes[end - 1] == 0x0D || bytes[end - 1] == 0)
        invariant
            end <= bytes@.len(),
            start < bytes@.len(),
            !is_padding(bytes@[start as int]),
            start < end || end == 0 || start >= end,
            end >= start + 1,
            last_content_end(bytes@, bytes@.len() as int) == last_content_end(bytes@, end as int),
        decreases end,
    {
        end = end - 1;
    }
    vstd::slice::slice_subrange(bytes, start, end)
}

/// Decode a meta text field into a `String`.
///
/// Standard MIDI files carry no encoding marker, and the specification says
/// ASCII, which almost nobody honours. UTF-8 is tried first because it
/// validates itself; Shift-JIS is the fallback, being what Japanese sequencers
/// have written for decades. Anything else is decoded as Shift-JIS too, which
/// degrades to Latin-1-ish text rather than dropping the field.
pub fn decode_meta_text(bytes: &[u8]) -> (r: String)
    requires
        3 * (bytes@.len() + 1) <= isize::MAX,
    ensures
        r@ == ({
            let t = trimmed_ascii(bytes@);
            if t.len() == 0 {
                Seq::<char>::empty()
            } else if valid_utf8(t) {
                decode_utf8(t)
            } else {
                shift_jis_decode(t)
            }
        }),
{
    let trimmed = trim_ascii(bytes);
    proof {
        lemma_trimmed_len(bytes@);
    }
    if trimmed.len() == 0 {
        return String::new();
    }
    match utf8_str(trimmed) {
        Some(text) => text.to_owned(),
        None => decode_shift_jis(trimmed),
    }
}

proof fn lemma_first_content_range(s: Seq<u8>, from: int)
    requires
        0 <= from <= s.len(),
    ensures
        from <= first_content(s, from) <= s.len(),
        first_content(s, from) < s.len() ==> !is_padding(s[first_content(s, from)]),
    decreases s.len() - from,
{
    if from < s.len() && is_padding(s[from]) {
        lemma_first_content_range(s, from + 1);
    }
}

proof fn lemma_last_content_range(s: Seq<u8>, to: int, start: int)
    requires
        0 <= start < to <= s.len(),
        !is_padding(s[start]),
    ensures
        start < last_content_end(s, to) <= to,
    decreases to,
{
    if is_padding(s[to - 1]) {
        lemma_last_content_range(s, to - 1, start);
    }
}

proof fn lemma_trimmed_len(s: Seq<u8>)
    ensures
        trimmed_ascii(s).len() <= s.len(),
{
    lemma_first_content_range(s, 0);
    let start = first_content(s, 0);
    if start < s.len() {
        lemma_last_content_range(s, s.len() as int, start);
    }
}

} // verus!
