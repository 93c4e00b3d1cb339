//! The output grid: a rectangle of character cells with point writes and
//! clipped string writes.

use vstd::prelude::*;
use vstd::arithmetic::div_mod::lemma_fundamental_div_mod;
use vstd::arithmetic::div_mod::lemma_fundamental_div_mod_converse_div;
use vstd::arithmetic::div_mod::lemma_fundamental_div_mod_converse_mod;
use vstd::string::StrSliceExecFns;
use crate::geometry::Rect;
use crate::style::Style;
use crate::style::default_style;

verus! {

/// One cell of the grid: a display glyph and its attribute.
#[derive(Clone, Copy, Debug, PartialEq, Eq, Structural)]
pub struct Cell {
    pub symbol: char,
    pub style: Style,
}

/// A blank cell: a space with the default attribute.
pub open spec fn spec_blank_cell() -> Cell {
    Cell { symbol: ' ', style: default_style() }
}

/// A grid of cells covering `area`, stored row-major.
pub struct Buffer {
    pub area: Rect,
    pub content: Vec<Cell>,
}

/// The column of the cell stored at `i` in a row-major grid over `area`.
pub open spec fn coord_x(area: Rect, i: int) -> int {
    area.x + i % (area.width as int)
}

/// The row of the cell stored at `i` in a row-major grid over `area`.
pub open spec fn coord_y(area: Rect, i: int) -> int {
    area.y + i / (area.width as int)
}

/// The storage index of the cell at `(px, py)` in a grid over `area`.
pub open spec fn index_of(area: Rect, px: int, py: int) -> int {
    (py - area.y) * (area.width as int) + (px - area.x)
}

/// Build a cell from a glyph and a style.
pub open spec fn mk_cell(sym: char, style: Style) -> Cell {
    Cell { symbol: sym, style }
}

/// A horizontal run of `chars` written at `(x, y)`, truncated to `limit`
/// characters and clipped at the grid edges; cells not under the run keep
/// their content.
pub open spec fn spec_write_str(
    content: Seq<Cell>,
    area: Rect,
    x: int,
    y: int,
    chars: Seq<char>,
    limit: int,
    style: Style,
) -> Seq<Cell> {
    Seq::new(
        content.len(),
        |i: int|
            {
                let px = coord_x(area, i);
                let py = coord_y(area, i);
                if py == y && x <= px < x + write_count(chars.len() as int, limit) {
                    mk_cell(chars[px - x], style)
                } else {
                    content[i]
                }
            },
    )
}

/// How many characters of a run of `chars_len` are written under a limit.
pub open spec fn write_count(chars_len: int, limit: int) -> int {
    if chars_len <= limit {
        chars_len
    } else {
        limit
    }
}

/// Every cell of `r` restyled, all glyphs kept.
pub open spec fn spec_set_style_region(
    content: Seq<Cell>,
    area: Rect,
    r: Rect,
    style: Style,
) -> Seq<Cell> {
    Seq::new(
        content.len(),
        |i: int|
            {
                if r.contains(coord_x(area, i), coord_y(area, i)) {
                    Cell { symbol: content[i].symbol, style }
                } else {
                    content[i]
                }
            },
    )
}

impl Buffer {
    /// The grid's storage holds exactly one cell per coordinate.
    pub open spec fn wf(self) -> bool {
        self.area.wf() && self.content@.len() == self.area.width * self.area.height
    }

    /// The cell at `(px, py)`.
    pub open spec fn cell(self, px: int, py: int) -> Cell {
        self.content@[index_of(self.area, px, py)]
    }

    /// A coordinate inside the area names a storage index inside the
    /// content, and the coordinates computed back from that index are the
    /// same ones.
    pub proof fn lemma_index_of(self, px: int, py: int)
        requires
            self.wf(),
            self.area.contains(px, py),
        ensures
            0 <= index_of(self.area, px, py) < self.content@.len(),
            (py - self.area.y) * (self.area.width as int) >= 0,
            coord_x(self.area, index_of(self.area, px, py)) == px,
            coord_y(self.area, index_of(self.area, px, py)) == py,
    {
        let w = self.area.width as int;
        let h = self.area.height as int;
        let q = py - self.area.y;
        let r = px - self.area.x;
        let i = q * w + r;
        assert(0 <= q * w && q * w + r < w * h) by (nonlinear_arith)
            requires
                0 <= q < h,
                0 <= r < w,
        ;
        assert(self.content@.len() == w * h);
        lemma_fundamental_div_mod_converse_div(i, w, q, r);
        lemma_fundamental_div_mod_converse_mod(i, w, q, r);
    }

    /// Every storage index lies at an in-area coordinate, and that
    /// coordinate maps back to the index.
    pub proof fn lemma_coord_of(self, i: int)
        requires
            self.wf(),
            0 <= i < self.content@.len(),
        ensures
            self.area.contains(coord_x(self.area, i), coord_y(self.area, i)),
            index_of(self.area, coord_x(self.area, i), coord_y(self.area, i)) == i,
    {
        let w = self.area.width as int;
        let h = self.area.height as int;
        assert(self.content@.len() == w * h);
        assert(w >= 1 && h >= 1) by (nonlinear_arith)
            requires
                0 <= i < w * h,
                0 <= w,
                0 <= h,
        ;
        lemma_fundamental_div_mod(i, w);
        assert(0 <= i % w < w) by {
            vstd::arithmetic::div_mod::lemma_mod_division_less_than_divisor(i, w);
        }
        assert(i / w < h) by (nonlinear_arith)
            requires
                i == w * (i / w) + i % w,
                0 <= i % w < w,
                i < w * h,
                1 <= w,
        ;
        assert(i / w >= 0) by {
            vstd::arithmetic::div_mod::lemma_div_pos_is_pos(i, w);
        }
        assert((i / w) * w == w * (i / w)) by (nonlinear_arith);
    }

    /// A grid over `area` with every cell set to `fill`.
    pub fn filled(area: Rect, fill: Cell) -> (b: Buffer)
        requires
            area.wf(),
        ensures
            b.wf(),
            b.area == area,
            b.content@.len() == area.width * area.height,
            forall|i: int| 0 <= i < b.content@.len() ==> b.content@[i] == fill,
    {
        proof {
            assert(area.width * area.height <= 0xffff * 0xffff) by (nonlinear_arith)
                requires
                    0 <= area.width <= 0xffff,
                    0 <= area.height <= 0xffff,
            ;
        }
        let total = (area.width as usize) * (area.height as usize);
        let mut content: Vec<Cell> = Vec::new();
        for k in 0..total
            invariant
                content@.len() == k,
                forall|i: int| 0 <= i < k ==> content@[i] == fill,
        {
            content.push(fill);
        }
        Buffer { area, content }
    }

    /// A blank grid over `area`.
    pub fn empty(area: Rect) -> (b: Buffer)
        requires
            area.wf(),
        ensures
            b.wf(),
            b.area == area,
            forall|i: int| 0 <= i < b.content@.len() ==> b.content@[i] == spec_blank_cell(),
    {
        Buffer::filled(area, Cell { symbol: ' ', style: Style::default() })
    }

    /// Read the cell at `(x, y)`.
    pub fn get(&self, x: u16, y: u16) -> (c: Cell)
        requires
            self.wf(),
            self.area.contains(x as int, y as int),
        ensures
            c == self.cell(x as int, y as int),
    {
        proof {
            self.lemma_index_of(x as int, y as int);
        }
        let n = self.content.len();
        let w = self.area.width as usize;
        let i = (y - self.area.y) as usize * w + (x - self.area.x) as usize;
        self.content[i]
    }

    /// Write one cell at `(x, y)`.
    pub fn set_cell(&mut self, x: u16, y: u16, symbol: char, style: Style)
        requires
            old(self).wf(),
            old(self).area.contains(x as int, y as int),
        ensures
            final(self).wf(),
            final(self).area == old(self).area,
            final(self).content@ == old(self).content@.update(
                index_of(old(self).area, x as int, y as int),
                Cell { symbol, style },
            ),
    {
        proof {
            self.lemma_index_of(x as int, y as int);
        }
        let n = self.content.len();
        let w = self.area.width as usize;
        let i = (y - self.area.y) as usize * w + (x - self.area.x) as usize;
        self.content.set(i, Cell { symbol, style });
    }

    /// Restyle every cell of `r`, keeping all glyphs.
    pub fn set_style(&mut self, r: Rect, style: Style)
        requires
            old(self).wf(),
            r.wf(),
        ensures
            final(self).wf(),
            final(self).area == old(self).area,
            final(self).content@ == spec_set_style_region(
                old(self).content@,
                old(self).area,
                r,
                style,
            ),
    {
        let ghost c0 = self.content@;
        let ghost target = spec_set_style_region(c0, self.area, r, style);
        let y0 = if r.y > self.area.y {
            r.y
        } else {
            self.area.y
        };
        let y1 = if r.bottom() < self.area.bottom() {
            r.bottom()
        } else {
            self.area.bottom()
        };
        let x0 = if r.x > self.area.x {
            r.x
        } else {
            self.area.x
        };
        let x1 = if r.right() < self.area.right() {
            r.right()
        } else {
            self.area.right()
        };
        proof {
            assert forall|i: int| 0 <= i < c0.len() implies !(r.contains(
                coord_x(self.area, i),
                coord_y(self.area, i),
            ) && coord_y(self.area, i) < y0 as int) by {
                self.lemma_coord_of(i);
            }
        }
        let mut y = y0;
        while y < y1
            invariant
                self.wf(),
                self.area == old(self).area,
                self.content@.len() == c0.len(),
                target == spec_set_style_region(c0, self.area, r, style),
                y0 <= y,
                y <= y1 || y == y0,
                y0 as int == max2_int(r.y as int, self.area.y as int),
                y1 as int == min2_int(r.y + r.height, self.area.y + self.area.height),
                x0 as int == max2_int(r.x as int, self.area.x as int),
                x1 as int == min2_int(r.x + r.width, self.area.x + self.area.width),
                forall|i: int|
                    0 <= i < c0.len() ==> self.content@[i] == (if r.contains(
                        coord_x(self.area, i),
                        coord_y(self.area, i),
                    ) && coord_y(self.area, i) < y as int {
                        target[i]
                    } else {
                        c0[i]
                    }),
            decreases y1 - y,
        {
            proof {
                assert forall|i: int| 0 <= i < c0.len() implies !(r.contains(
                    coord_x(self.area, i),
                    coord_y(self.area, i),
                ) && coord_y(self.area, i) == y as int && coord_x(self.area, i) < x0 as int) by {
                    self.lemma_coord_of(i);
                }
            }
            let mut x = x0;
            while x < x1
                invariant
                    self.wf(),
                    self.area == old(self).area,
                    self.content@.len() == c0.len(),
                    target == spec_set_style_region(c0, self.area, r, style),
                    y0 <= y < y1,
                    x0 <= x,
                    x <= x1 || x == x0,
                    y0 as int == max2_int(r.y as int, self.area.y as int),
                    y1 as int == min2_int(r.y + r.height, self.area.y + self.area.height),
                    x0 as int == max2_int(r.x as int, self.area.x as int),
                    x1 as int == min2_int(r.x + r.width, self.area.x + self.area.width),
                    forall|i: int|
                        0 <= i < c0.len() ==> self.content@[i] == (if r.contains(
                            coord_x(self.area, i),
                            coord_y(self.area, i),
                        ) && (coord_y(self.area, i) < y as int || (coord_y(self.area, i)
                            == y as int && coord_x(self.area, i) < x as int)) {
                            target[i]
                        } else {
                            c0[i]
                        }),
                decreases x1 - x,
            {
                proof {
                    self.lemma_index_of(x as int, y as int);
                }
                let ghost iw = index_of(self.area, x as int, y as int);
                let c = self.get(x, y);
                self.set_cell(x, y, c.symbol, style);
                proof {
                    assert forall|i: int| 0 <= i < c0.len() implies self.content@[i] == (
                    if r.contains(coord_x(self.area, i), coord_y(self.area, i)) && (coord_y(
                        self.area,
                        i,
                    ) < y as int || (coord_y(self.area, i) == y as int && coord_x(self.area, i) < x
                        + 1)) {
                        target[i]
                    } else {
                        c0[i]
                    }) by {
                        self.lemma_coord_of(i);
                    }
                }
                x = x + 1;
            }
            proof {
                assert forall|i: int| 0 <= i < c0.len() implies self.content@[i] == (
                if r.contains(coord_x(self.area, i), coord_y(self.area, i)) && coord_y(self.area, i)
                    < y + 1 {
                    target[i]
                } else {
                    c0[i]
                }) by {
                    self.lemma_coord_of(i);
                }
            }
            y = y + 1;
        }
        proof {
            assert forall|i: int| 0 <= i < c0.len() implies self.content@[i] == target[i] by {
                self.lemma_coord_of(i);
            }
            assert(self.content@ =~= target);
        }
    }

    /// Write up to `limit` characters of `s` at `(x, y)`, clipped at the
    /// grid edges.
    pub fn set_stringn(&mut self, x: u16, y: u16, s: &str, limit: usize, style: Style)
        requires
            old(self).wf(),
        ensures
            final(self).wf(),
            final(self).area == old(self).area,
            final(self).content@ == spec_write_str(
                old(self).content@,
                old(self).area,
                x as int,
                y as int,
                s@,
                limit as int,
                style,
            ),
    {
        let ghost c0 = self.content@;
        let n = s.unicode_len();
        let count = if n <= limit {
            n
        } else {
            limit
        };
        proof {
            assert(self.content@ =~= spec_write_str(
                c0,
                self.area,
                x as int,
                y as int,
                s@,
                0,
                style,
            )) by {
                assert forall|i: int| 0 <= i < c0.len() implies spec_write_str(
                    c0,
                    self.area,
                    x as int,
                    y as int,
                    s@,
                    0,
                    style,
                )[i] == c0[i] by {}
            }
        }
        let mut k: usize = 0;
        while k < count
            invariant
                self.wf(),
                self.area == old(self).area,
                self.content@.len() == c0.len(),
                count <= s@.len(),
                count <= limit,
                0 <= k <= count,
                self.content@ == spec_write_str(
                    c0,
                    self.area,
                    x as int,
                    y as int,
                    s@,
                    k as int,
                    style,
                ),
            decreases count - k,
        {
            let ghost pre = self.content@;
            let c = s.get_char(k);
            let px_wide: u128 = x as u128 + k as u128;
            let ghost knext = k + 1 as int;
            let ghost target = spec_write_str(c0, self.area, x as int, y as int, s@, knext, style);
            if px_wide >= self.area.x as u128 && px_wide < self.area.x as u128
                + self.area.width as u128 && y >= self.area.y && (y as u128) < self.area.y as u128
                + self.area.height as u128 {
                let px = px_wide as u16;
                proof {
                    assert(px as int == x as int + k as int);
                    self.lemma_index_of(px as int, y as int);
                }
                let ghost iw = index_of(self.area, px as int, y as int);
                self.set_cell(px, y, c, style);
                proof {
                    assert forall|i: int| 0 <= i < c0.len() implies self.content@[i] == target[i] by {
                        self.lemma_coord_of(i);
                        if i == iw {
                            assert(coord_x(self.area, i) == px as int && coord_y(self.area, i)
                                == y as int);
                            assert(target[i] == mk_cell(s@[k as int], style));
                            assert(self.content@[i] == Cell { symbol: s@[k as int], style });
                        } else {
                            assert(self.content@[i] == pre[i]);
                            if coord_y(self.area, i) == y as int && x as int <= coord_x(
                                self.area,
                                i,
                            ) < x as int + knext {
                                assert(coord_x(self.area, i) != px as int || coord_y(
                                    self.area,
                                    i,
                                ) != y as int);
                                assert(coord_x(self.area, i) < x as int + k);
                            }
                        }
                    }
                    assert(self.content@ =~= target);
                }
            } else {
                proof {
                    assert forall|i: int| 0 <= i < c0.len() implies self.content@[i] == target[i] by {
                        self.lemma_coord_of(i);
                        if coord_y(self.area, i) == y as int && x as int <= coord_x(self.area, i)
                            < x as int + knext {
                            assert(coord_x(self.area, i) < x as int + k);
                        }
                    }
                    assert(self.content@ =~= target);
                }
            }
            k = k + 1;
        }
        proof {
            let target = spec_write_str(c0, self.area, x as int, y as int, s@, limit as int, style);
            assert forall|i: int| 0 <= i < c0.len() implies self.content@[i] == target[i] by {
                self.lemma_coord_of(i);
            }
            assert(self.content@ =~= target);
        }
    }

    /// Write all of `s` at `(x, y)`, clipped at the grid edges.
    pub fn set_string(&mut self, x: u16, y: u16, s: &str, style: Style)
        requires
            old(self).wf(),
        ensures
            final(self).wf(),
            final(self).area == old(self).area,
            final(self).content@ == spec_write_str(
                old(self).content@,
                old(self).area,
                x as int,
                y as int,
                s@,
                s@.len() as int,
                style,
            ),
    {
        let n = s.unicode_len();
        self.set_stringn(x, y, s, n, style);
    }
}

/// The larger of two integers.
pub open spec fn max2_int(a: int, b: int) -> int {
    if a >= b {
        a
    } else {
        b
    }
}

/// The smaller of two integers.
pub open spec fn min2_int(a: int, b: int) -> int {
    if a <= b {
        a
    } else {
        b
    }
}

} // verus!
