//! A bordered container that can wrap the chart: it reserves a one-cell
//! frame, paints the frame, and exposes the drawable inner area.

use vstd::prelude::*;
use crate::buffer::Buffer;
use crate::buffer::mk_cell;
use crate::buffer::coord_x;
use crate::buffer::coord_y;
use crate::buffer::Cell;
use crate::buffer::index_of;
use crate::geometry::Rect;
use crate::geometry::Size;
use crate::style::Style;
use crate::style::default_style;

verus! {

/// A plain one-cell border drawn around an area.
#[derive(Clone, Copy, Debug, PartialEq, Eq, Structural)]
pub struct Block {}

/// True when `(px, py)` lies on the one-cell frame of `area`.
pub open spec fn on_border(area: Rect, px: int, py: int) -> bool {
    area.contains(px, py) && (px == area.x || px == area.x + area.width - 1 || py == area.y || py
        == area.y + area.height - 1)
}

/// The frame glyph at `(px, py)`: a corner, a horizontal or a vertical
/// line piece.
pub open spec fn border_glyph(area: Rect, px: int, py: int) -> char {
    if px == area.x && py == area.y {
        '\u{250c}'
    } else if px == area.x + area.width - 1 && py == area.y {
        '\u{2510}'
    } else if px == area.x && py == area.y + area.height - 1 {
        '\u{2514}'
    } else if px == area.x + area.width - 1 && py == area.y + area.height - 1 {
        '\u{2518}'
    } else if py == area.y || py == area.y + area.height - 1 {
        '\u{2500}'
    } else {
        '\u{2502}'
    }
}

/// The grid with the one-cell frame of `area` painted and every other
/// cell kept.
pub open spec fn spec_draw_border(content: Seq<Cell>, barea: Rect, area: Rect) -> Seq<Cell> {
    Seq::new(
        content.len(),
        |i: int|
            {
                if on_border(area, coord_x(barea, i), coord_y(barea, i)) {
                    mk_cell(border_glyph(area, coord_x(barea, i), coord_y(barea, i)), default_style())
                } else {
                    content[i]
                }
            },
    )
}

impl Block {
    pub fn new() -> (b: Block)
        ensures
            b == (Block {}),
    {
        Block {}
    }

    /// The drawable region left inside the frame.
    pub open spec fn spec_inner(self, area: Rect) -> Rect {
        Rect {
            x: if area.width >= 2 {
                (area.x + 1) as u16
            } else {
                area.x
            },
            y: if area.height >= 2 {
                (area.y + 1) as u16
            } else {
                area.y
            },
            width: if area.width >= 2 {
                (area.width - 2) as u16
            } else {
                0
            },
            height: if area.height >= 2 {
                (area.height - 2) as u16
            } else {
                0
            },
        }
    }

    /// Compute the drawable region left inside the frame.
    pub fn inner(&self, area: Rect) -> (r: Rect)
        requires
            area.wf(),
        ensures
            r == self.spec_inner(area),
            r.wf(),
            area.contains(r.x as int, r.y as int) || r.width == 0 || r.height == 0,
    {
        let x = if area.width >= 2 {
            area.x + 1
        } else {
            area.x
        };
        let y = if area.height >= 2 {
            area.y + 1
        } else {
            area.y
        };
        let width = if area.width >= 2 {
            area.width - 2
        } else {
            0
        };
        let height = if area.height >= 2 {
            area.height - 2
        } else {
            0
        };
        Rect { x, y, width, height }
    }

    /// The least size the frame itself asks for, given a proposed area.
    pub fn size_hint(&self, area: &Rect) -> (s: Size)
        ensures
            s.width as int == if area.width >= 2 {
                area.width as int
            } else {
                2
            },
            s.height as int == if area.height >= 2 {
                area.height as int
            } else {
                2
            },
    {
        let width = if area.width >= 2 {
            area.width
        } else {
            2
        };
        let height = if area.height >= 2 {
            area.height
        } else {
            2
        };
        Size { width, height }
    }

    /// Paint the frame of `area` into the grid.
    pub fn render(&self, area: Rect, buf: &mut Buffer)
        requires
            old(buf).wf(),
            area.wf(),
            area.x >= old(buf).area.x,
            area.y >= old(buf).area.y,
            area.x + area.width <= old(buf).area.x + old(buf).area.width,
            area.y + area.height <= old(buf).area.y + old(buf).area.height,
        ensures
            final(buf).wf(),
            final(buf).area == old(buf).area,
            final(buf).content@ == spec_draw_border(old(buf).content@, old(buf).area, area),
    {
        let ghost c0 = buf.content@;
        let ghost target = spec_draw_border(c0, buf.area, area);
        proof {
            assert forall|i: int| 0 <= i < c0.len() implies !(on_border(
                area,
                coord_x(buf.area, i),
                coord_y(buf.area, i),
            ) && coord_y(buf.area, i) < area.y as int) by {
                buf.lemma_coord_of(i);
            }
        }
        let mut y = area.y;
        while y < area.y + area.height
            invariant
                buf.wf(),
                buf.area == old(buf).area,
                buf.content@.len() == c0.len(),
                area.wf(),
                area.x >= buf.area.x,
                area.y >= buf.area.y,
                area.x + area.width <= buf.area.x + buf.area.width,
                area.y + area.height <= buf.area.y + buf.area.height,
                target == spec_draw_border(c0, buf.area, area),
                area.y <= y,
                y <= area.y + area.height || y == area.y,
                forall|i: int|
                    0 <= i < c0.len() ==> buf.content@[i] == (if on_border(
                        area,
                        coord_x(buf.area, i),
                        coord_y(buf.area, i),
                    ) && coord_y(buf.area, i) < y as int {
                        target[i]
                    } else {
                        c0[i]
                    }),
            decreases area.y + area.height - y,
        {
            proof {
                assert forall|i: int| 0 <= i < c0.len() implies !(on_border(
                    area,
                    coord_x(buf.area, i),
                    coord_y(buf.area, i),
                ) && coord_y(buf.area, i) == y as int && coord_x(buf.area, i) < area.x as int) by {
                    buf.lemma_coord_of(i);
                }
            }
            let mut x = area.x;
            while x < area.x + area.width
                invariant
                    buf.wf(),
                    buf.area == old(buf).area,
                    buf.content@.len() == c0.len(),
                    area.wf(),
                    area.x >= buf.area.x,
                    area.y >= buf.area.y,
                    area.x + area.width <= buf.area.x + buf.area.width,
                    area.y + area.height <= buf.area.y + buf.area.height,
                    target == spec_draw_border(c0, buf.area, area),
                    area.y <= y < area.y + area.height,
                    area.x <= x,
                    x <= area.x + area.width || x == area.x,
                    forall|i: int|
                        0 <= i < c0.len() ==> buf.content@[i] == (if on_border(
                            area,
                            coord_x(buf.area, i),
                            coord_y(buf.area, i),
                        ) && (coord_y(buf.area, i) < y as int || (coord_y(buf.area, i) == y as int
                            && coord_x(buf.area, i) < x as int)) {
                            target[i]
                        } else {
                            c0[i]
                        }),
                decreases area.x + area.width - x,
            {
                let is_border = x == area.x || x == area.x + area.width - 1 || y == area.y || y
                    == area.y + area.height - 1;
                if is_border {
                    let glyph: char = if x == area.x && y == area.y {
                        '\u{250c}'
                    } else if x == area.x + area.width - 1 && y == area.y {
                        '\u{2510}'
                    } else if x == area.x && y == area.y + area.height - 1 {
                        '\u{2514}'
                    } else if x == area.x + area.width - 1 && y == area.y + area.height - 1 {
                        '\u{2518}'
                    } else if y == area.y || y == area.y + area.height - 1 {
                        '\u{2500}'
                    } else {
                        '\u{2502}'
                    };
                    proof {
                        buf.lemma_index_of(x as int, y as int);
                    }
                    let ghost iw = index_of(buf.area, x as int, y as int);
                    buf.set_cell(x, y, glyph, Style::default());
                    proof {
                        assert forall|i: int| 0 <= i < c0.len() implies buf.content@[i] == (
                        if on_border(area, coord_x(buf.area, i), coord_y(buf.area, i)) && (coord_y(
                            buf.area,
                            i,
                        ) < y as int || (coord_y(buf.area, i) == y as int && coord_x(buf.area, i)
                            < x + 1)) {
                            target[i]
                        } else {
                            c0[i]
                        }) by {
                            buf.lemma_coord_of(i);
                        }
                    }
                } else {
                    proof {
                        assert forall|i: int| 0 <= i < c0.len() implies buf.content@[i] == (
                        if on_border(area, coord_x(buf.area, i), coord_y(buf.area, i)) && (coord_y(
                            buf.area,
                            i,
                        ) < y as int || (coord_y(buf.area, i) == y as int && coord_x(buf.area, i)
                            < x + 1)) {
                            target[i]
                        } else {
                            c0[i]
                        }) by {
                            buf.lemma_coord_of(i);
                        }
                    }
                }
                x = x + 1;
            }
            proof {
                assert forall|i: int| 0 <= i < c0.len() implies buf.content@[i] == (
                if on_border(area, coord_x(buf.area, i), coord_y(buf.area, i)) && coord_y(
                    buf.area,
                    i,
                ) < y + 1 {
                    target[i]
                } else {
                    c0[i]
                }) by {
                    buf.lemma_coord_of(i);
                }
            }
            y = y + 1;
        }
        proof {
            assert forall|i: int| 0 <= i < c0.len() implies buf.content@[i] == target[i] by {
                buf.lemma_coord_of(i);
            }
            assert(buf.content@ =~= target);
        }
    }
}

} // verus!
