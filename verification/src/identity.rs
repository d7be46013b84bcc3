//! Cleaning of a raw name candidate: an external username lookup hands
//! back a line of text whose trailing line terminator must be stripped
//! before the name can serve as a suggested default.

use vstd::prelude::*;

verus! {

/// The candidate with one trailing `"\n"` or `"\r\n"` removed; any
/// other text, including one ending in a bare `"\r"`, is unchanged.
pub open spec fn stripped_name(s: Seq<char>) -> Seq<char> {
    if s.len() > 0 && s[s.len() - 1] == '\n' {
        if s.len() > 1 && s[s.len() - 2] == '\r' {
            s.subrange(0, s.len() - 2)
        } else {
            s.subrange(0, s.len() - 1)
        }
    } else {
        s
    }
}

/// Strips one trailing line terminator (`"\n"` or `"\r\n"`) from a raw
/// name candidate, exactly as `stripped_name` describes.
pub fn strip_trailing_newline(s: &str) -> (out: String)
    ensures
        out@ == stripped_name(s@),
{
    let n = s.unicode_len();
    if n > 0 && s.get_char(n - 1) == '\n' {
        if n > 1 && s.get_char(n - 2) == '\r' {
            String::from_str(s.substring_char(0, n - 2))
        } else {
            String::from_str(s.substring_char(0, n - 1))
        }
    } else {
        String::from_str(s)
    }
}

} // verus!
