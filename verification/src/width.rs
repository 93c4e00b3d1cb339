//! Displayed column width of label text.

use vstd::prelude::*;

verus! {

/// The displayed width in terminal columns of a string, as the
/// `unicode-width` crate computes it. The width depends on the characters
/// alone; its exact value follows Unicode Standard Annex #11 tables.
pub uninterp spec fn display_width(s: Seq<char>) -> int;

/// Relies on unicode_width's `UnicodeWidthStr::width`: the displayed column
/// width of a string, a pure function of its characters.
#[verifier::external_body]
pub(crate) fn str_display_width(s: &str) -> (r: usize)
    ensures
        r as int == display_width(s@),
{
    unicode_width::UnicodeWidthStr::width(s)
}

} // verus!
