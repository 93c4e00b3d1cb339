//! Text attributes attached to painted cells.
//!
//! The chart applies attribute values without interpreting them; a style is
//! a plain bag of foreground, background and decoration settings.

use vstd::prelude::*;

verus! {

/// An attribute value applied to a glyph or a run of text.
#[derive(Clone, Copy, Debug, PartialEq, Eq, Structural)]
pub struct Style {
    pub fg: u8,
    pub bg: u8,
    pub modifier: u16,
}

/// The unstyled attribute that lookups fall back to.
pub open spec fn default_style() -> Style {
    Style { fg: 0, bg: 0, modifier: 0 }
}

impl Default for Style {
    fn default() -> (r: Style)
        ensures
            r == default_style(),
    {
        Style { fg: 0, bg: 0, modifier: 0 }
    }
}

/// The style at `i` in `styles`, or the default attribute when `i` is past
/// the end of the supplied sequence.
pub open spec fn style_or_default(styles: Seq<Style>, i: int) -> Style {
    if 0 <= i < styles.len() {
        styles[i]
    } else {
        default_style()
    }
}

/// Bounds-checked style lookup with the documented default fallback.
pub fn style_at(styles: &Vec<Style>, i: usize) -> (r: Style)
    ensures
        r == style_or_default(styles@, i as int),
{
    if i < styles.len() {
        styles[i]
    } else {
        Style::default()
    }
}

} // verus!
