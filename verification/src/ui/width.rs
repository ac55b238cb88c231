//! How wide text is on the screen.
use vstd::prelude::*;
use unicode_width::{UnicodeWidthChar, UnicodeWidthStr};

verus! {

/// The columns that `s` takes, as `unicode_width::UnicodeWidthStr::width`
/// counts them.
pub uninterp spec fn str_columns(s: Seq<char>) -> usize;

/// The columns that `c` takes, as `unicode_width::UnicodeWidthChar::width`
/// counts them. A control character has none.
pub uninterp spec fn char_columns(c: char) -> Option<usize>;

/// Whether `s` is made of printable ASCII characters.
pub open spec fn printable_ascii(s: Seq<char>) -> bool {
    forall|i: int| 0 <= i < s.len() ==> ' ' <= #[trigger] s[i] <= '~'
}

/// Calls `unicode_width::UnicodeWidthStr::width`, which counts the columns of
/// a string by tables of Unicode. Printable ASCII characters take one each.
#[verifier::external_body]
pub(crate) fn str_width(s: &str) -> (r: usize)
    ensures
        r == str_columns(s@),
        printable_ascii(s@) ==> r == s@.len(),
{
    UnicodeWidthStr::width(s)
}

/// Calls `unicode_width::UnicodeWidthChar::width`, which counts the columns of
/// a character by tables of Unicode.
#[verifier::external_body]
pub(crate) fn char_width_or_none(c: char) -> (r: Option<usize>)
    ensures
        r == char_columns(c),
{
    UnicodeWidthChar::width(c)
}

/// The columns that `c` takes, or none.
pub open spec fn columns(c: char) -> usize {
    match char_columns(c) {
        Some(n) => n,
        None => 0,
    }
}

/// The columns that `c` takes, or none.
pub fn char_width(c: char) -> (r: usize)
    ensures
        r == columns(c),
{
    match char_width_or_none(c) {
        Some(n) => n,
        None => 0,
    }
}

} // verus!
