//! The nine-level glyph set used to approximate fractional bar heights.

use vstd::prelude::*;

verus! {

/// Nine glyphs standing for a cell filled 0/8 through 8/8.
#[derive(Clone, Copy, Debug, PartialEq, Eq, Structural)]
pub struct BarSet {
    pub empty: char,
    pub one_eighth: char,
    pub one_quarter: char,
    pub three_eighths: char,
    pub half: char,
    pub five_eighths: char,
    pub three_quarters: char,
    pub seven_eighths: char,
    pub full: char,
}

impl BarSet {
    /// The glyph for a remaining height of `eighths`, where anything at or
    /// above eight renders the full block and anything at or below zero the
    /// empty glyph.
    pub open spec fn spec_glyph(self, eighths: int) -> char {
        if eighths <= 0 {
            self.empty
        } else if eighths == 1 {
            self.one_eighth
        } else if eighths == 2 {
            self.one_quarter
        } else if eighths == 3 {
            self.three_eighths
        } else if eighths == 4 {
            self.half
        } else if eighths == 5 {
            self.five_eighths
        } else if eighths == 6 {
            self.three_quarters
        } else if eighths == 7 {
            self.seven_eighths
        } else {
            self.full
        }
    }

    /// Select the glyph for a remaining height in eighths of a cell.
    pub fn glyph(&self, eighths: u64) -> (c: char)
        ensures
            c == self.spec_glyph(eighths as int),
    {
        if eighths == 0 {
            self.empty
        } else if eighths == 1 {
            self.one_eighth
        } else if eighths == 2 {
            self.one_quarter
        } else if eighths == 3 {
            self.three_eighths
        } else if eighths == 4 {
            self.half
        } else if eighths == 5 {
            self.five_eighths
        } else if eighths == 6 {
            self.three_quarters
        } else if eighths == 7 {
            self.seven_eighths
        } else {
            self.full
        }
    }
}

/// The default "block elements" glyph set of ascending solidity.
pub open spec fn spec_nine_levels() -> BarSet {
    BarSet {
        empty: ' ',
        one_eighth: '\u{2581}',
        one_quarter: '\u{2582}',
        three_eighths: '\u{2583}',
        half: '\u{2584}',
        five_eighths: '\u{2585}',
        three_quarters: '\u{2586}',
        seven_eighths: '\u{2587}',
        full: '\u{2588}',
    }
}

/// Build the default nine-level glyph set.
pub fn nine_levels() -> (r: BarSet)
    ensures
        r == spec_nine_levels(),
{
    BarSet {
        empty: ' ',
        one_eighth: '\u{2581}',
        one_quarter: '\u{2582}',
        three_eighths: '\u{2583}',
        half: '\u{2584}',
        five_eighths: '\u{2585}',
        three_quarters: '\u{2586}',
        seven_eighths: '\u{2587}',
        full: '\u{2588}',
    }
}

} // verus!
