//! Small pure helpers used when laying out rows for display.

use vstd::prelude::*;

use crate::text::{chars_of, slice_chars, string_from_chars};

verus! {

/// Single-character marker for the row under the cursor.
pub fn cursor_indicator(line_idx: usize, current_line_idx: usize) -> (r: &'static str)
    ensures
        r@ == (if line_idx == current_line_idx { "▶"@ } else { " "@ }),
{
    if line_idx == current_line_idx {
        "▶"
    } else {
        " "
    }
}

/// Two-character marker for the row under the cursor (used before headers).
pub fn cursor_indicator_spaced(line_idx: usize, current_line_idx: usize) -> (r: &'static str)
    ensures
        r@ == (if line_idx == current_line_idx { "▶ "@ } else { "  "@ }),
{
    if line_idx == current_line_idx {
        "▶ "
    } else {
        "  "
    }
}

/// `s` cut to `max_len` characters, the cut marked by `...` within the limit.
pub open spec fn truncated(s: Seq<char>, max_len: int) -> Seq<char> {
    if s.len() <= max_len {
        s
    } else {
        s.take(if max_len >= 3 {
            max_len - 3
        } else {
            0
        }) + "..."@
    }
}

/// `s` truncated to `width` characters, or padded with spaces up to `width`.
pub open spec fn fitted(s: Seq<char>, width: int) -> Seq<char> {
    if s.len() > width {
        truncated(s, width)
    } else {
        s + Seq::new((width - s.len()) as nat, |i: int| ' ')
    }
}

fn cut_with_ellipsis(c: &Vec<char>, max_len: usize) -> (r: String)
    requires
        c@.len() > max_len,
    ensures
        r@ == truncated(c@, max_len as int),
{
    let keep = max_len.saturating_sub(3);
    let mut r = string_from_chars(&slice_chars(c, 0, keep));
    r.append("...");
    r
}

/// Shortens `s` to at most `max_len` characters, ending a cut with `...`.
/// Lengths count characters, so a cut never falls inside a multi-byte character.
pub fn truncate_str(s: &str, max_len: usize) -> (r: String)
    ensures
        r@ == truncated(s@, max_len as int),
{
    let c = chars_of(s);
    if c.len() <= max_len {
        string_from_chars(&c)
    } else {
        cut_with_ellipsis(&c, max_len)
    }
}

/// Fits `s` to exactly `width` columns: truncated with `...`, or space-padded.
pub fn truncate_or_pad(s: &str, width: usize) -> (r: String)
    ensures
        r@ == fitted(s@, width as int),
{
    let c = chars_of(s);
    if c.len() > width {
        cut_with_ellipsis(&c, width)
    } else {
        let mut padded = c;
        let ghost base = padded@;
        while padded.len() < width
            invariant
                base == s@,
                base.len() <= padded.len() <= width,
                padded@ == base + Seq::new((padded.len() - base.len()) as nat, |i: int| ' '),
            decreases width - padded.len(),
        {
            padded.push(' ');
            assert(padded@ =~= base + Seq::new((padded.len() - base.len()) as nat, |i: int| ' '));
        }
        string_from_chars(&padded)
    }
}

} // verus!
