//! The bar-chart widget: configuration, layout resolution and painting.

use vstd::prelude::*;
use crate::block::Block;
use crate::buffer::Buffer;
use crate::format::ValueFormat;
use crate::geometry::Rect;
use crate::geometry::Size;
use crate::style::Style;
use crate::symbols::BarSet;
use crate::symbols::nine_levels;
use crate::symbols::spec_nine_levels;

verus! {

/// Display multiple series of values as groups of bars on a cell grid.
///
/// Configuration is accumulated through chained setters; a render call is
/// a pure function of the configuration and the target area.
#[derive(Debug, Clone)]
pub struct BarChart2 {
    /// Block to wrap the widget in.
    pub block: Option<Block>,
    /// The width of each bar.
    pub bar_width: u16,
    /// The gap between bars of one group.
    pub bar_gap: u16,
    /// The gap between groups.
    pub group_gap: u16,
    /// The glyphs used to display the data.
    pub bar_set: BarSet,
    /// Styles of the bars, one per series.
    pub bar_styles: Vec<Style>,
    /// Styles of the values printed at the bottom of each bar.
    pub value_styles: Vec<Style>,
    /// Style of the labels printed under each group.
    pub label_style: Style,
    /// Style for the widget as a whole.
    pub style: Style,
    /// The groups of values to plot, one value per series in each group.
    pub data: Vec<Vec<u64>>,
    /// Category labels, associated positionally with groups.
    pub labels: Vec<String>,
    /// Value needed for a bar to reach the maximum height; when absent,
    /// the maximum value in the data is the reference.
    pub max: Option<u64>,
    /// How values are turned into their displayed labels.
    pub format: ValueFormat,
}

impl Default for BarChart2 {
    /// The default chart: no data, unit bar width and gaps, the nine-level
    /// glyph set, decimal value labels, no block and no fixed maximum.
    fn default() -> (c: BarChart2)
        ensures
            c.block.is_none(),
            c.max.is_none(),
            c.data@.len() == 0,
            c.labels@.len() == 0,
            c.bar_styles@.len() == 0,
            c.value_styles@.len() == 0,
            c.bar_width == 1,
            c.bar_gap == 1,
            c.group_gap == 1,
            c.bar_set == spec_nine_levels(),
            c.label_style == crate::style::default_style(),
            c.style == crate::style::default_style(),
            c.format == ValueFormat::Decimal,
    {
        BarChart2 {
            block: None,
            max: None,
            data: Vec::new(),
            labels: Vec::new(),
            bar_styles: Vec::new(),
            bar_width: 1,
            bar_gap: 1,
            group_gap: 1,
            bar_set: nine_levels(),
            value_styles: Vec::new(),
            label_style: Style::default(),
            style: Style::default(),
            format: ValueFormat::Decimal,
        }
    }
}

impl BarChart2 {
    /// Append one series: the first call creates one group per value, and
    /// each later call appends its values pairwise to the existing groups,
    /// extra values being dropped.
    pub fn add_data(self, data: &[u64]) -> (r: BarChart2)
        ensures
            r.data@.len() == (if self.data@.len() == 0 {
                data@.len() as int
            } else {
                self.data@.len() as int
            }),
            self.data@.len() == 0 ==> forall|g: int|
                0 <= g < data@.len() ==> r.data@[g]@ =~= seq![data@[g]],
            self.data@.len() > 0 ==> forall|g: int|
                0 <= g < self.data@.len() ==> r.data@[g]@ =~= (if g < data@.len() {
                    self.data@[g]@.push(data@[g])
                } else {
                    self.data@[g]@
                }),
            r.block == self.block,
            r.bar_width == self.bar_width,
            r.bar_gap == self.bar_gap,
            r.group_gap == self.group_gap,
            r.bar_set == self.bar_set,
            r.bar_styles == self.bar_styles,
            r.value_styles == self.value_styles,
            r.label_style == self.label_style,
            r.style == self.style,
            r.labels == self.labels,
            r.max == self.max,
            r.format == self.format,
    {
        let mut chart = self;
        if chart.data.len() == 0 {
            let mut groups: Vec<Vec<u64>> = Vec::new();
            for g in 0..data.len()
                invariant
                    groups@.len() == g,
                    forall|k: int| 0 <= k < g ==> groups@[k]@ =~= seq![data@[k]],
            {
                let mut group: Vec<u64> = Vec::new();
                group.push(data[g]);
                groups.push(group);
            }
            chart.data = groups;
        } else {
            let ghost orig = chart.data@;
            let mut groups: Vec<Vec<u64>> = Vec::new();
            let total = chart.data.len();
            for g in 0..total
                invariant
                    total == chart.data@.len(),
                    chart.data@ == orig,
                    groups@.len() == g,
                    forall|k: int|
                        0 <= k < g ==> groups@[k]@ =~= (if k < data@.len() {
                            orig[k]@.push(data@[k])
                        } else {
                            orig[k]@
                        }),
            {
                let src = &chart.data[g];
                let mut group: Vec<u64> = Vec::new();
                for s in 0..src.len()
                    invariant
                        group@ =~= src@.take(s as int),
                        src == &chart.data@[g as int],
                {
                    group.push(src[s]);
                    proof {
                        assert(group@ =~= src@.take(s + 1));
                    }
                }
                proof {
                    assert(group@ =~= src@);
                }
                if g < data.len() {
                    group.push(data[g]);
                }
                groups.push(group);
            }
            chart.data = groups;
        }
        chart
    }

    /// Wrap the chart in a bordered block.
    pub fn block(self, block: Block) -> (r: BarChart2)
        ensures
            r == (BarChart2 { block: Some(block), ..self }),
    {
        BarChart2 { block: Some(block), ..self }
    }

    /// Choose how values are formatted into labels.
    pub fn value_format(self, value_format: ValueFormat) -> (r: BarChart2)
        ensures
            r == (BarChart2 { format: value_format, ..self }),
    {
        BarChart2 { format: value_format, ..self }
    }

    /// Fix the value that reaches the maximum bar height.
    pub fn max(self, max: u64) -> (r: BarChart2)
        ensures
            r == (BarChart2 { max: Some(max), ..self }),
    {
        BarChart2 { max: Some(max), ..self }
    }

    /// Set the per-series bar styles.
    pub fn bar_styles(self, styles: Vec<Style>) -> (r: BarChart2)
        ensures
            r == (BarChart2 { bar_styles: styles, ..self }),
    {
        BarChart2 { bar_styles: styles, ..self }
    }

    /// Set the width of every bar, in columns.
    pub fn bar_width(self, width: u16) -> (r: BarChart2)
        ensures
            r == (BarChart2 { bar_width: width, ..self }),
    {
        BarChart2 { bar_width: width, ..self }
    }

    /// Set the gap between bars of one group, in columns.
    pub fn bar_gap(self, gap: u16) -> (r: BarChart2)
        ensures
            r == (BarChart2 { bar_gap: gap, ..self }),
    {
        BarChart2 { bar_gap: gap, ..self }
    }

    /// Set the gap between groups, in columns.
    pub fn group_gap(self, gap: u16) -> (r: BarChart2)
        ensures
            r == (BarChart2 { group_gap: gap, ..self }),
    {
        BarChart2 { group_gap: gap, ..self }
    }

    /// Substitute the glyph set.
    pub fn bar_set(self, bar_set: BarSet) -> (r: BarChart2)
        ensures
            r == (BarChart2 { bar_set, ..self }),
    {
        BarChart2 { bar_set, ..self }
    }

    /// Set the per-series value-label styles.
    pub fn value_styles(self, styles: Vec<Style>) -> (r: BarChart2)
        ensures
            r == (BarChart2 { value_styles: styles, ..self }),
    {
        BarChart2 { value_styles: styles, ..self }
    }

    /// Set the style of the category labels.
    pub fn label_style(self, style: Style) -> (r: BarChart2)
        ensures
            r == (BarChart2 { label_style: style, ..self }),
    {
        BarChart2 { label_style: style, ..self }
    }

    /// Set the style of the widget as a whole.
    pub fn style(self, style: Style) -> (r: BarChart2)
        ensures
            r == (BarChart2 { style, ..self }),
    {
        BarChart2 { style, ..self }
    }

    /// Set the category labels.
    pub fn labels(self, labels: Vec<String>) -> (r: BarChart2)
        ensures
            r == (BarChart2 { labels, ..self }),
    {
        BarChart2 { labels, ..self }
    }

    /// Report the least area the widget wants: the proposed area, enlarged
    /// to the wrapping block's minimum plus one extra row when wrapped.
    pub fn size_hint(&self, area: &Rect) -> (s: Size)
        ensures
            self.block.is_none() ==> s == (Size { width: area.width, height: area.height }),
            self.block.is_some() ==> s.width as int == (if area.width >= 2 {
                area.width as int
            } else {
                2
            }) && s.height as int == (if area.height >= 3 {
                area.height as int
            } else {
                3
            }),
    {
        match &self.block {
            Some(b) => {
                let block_area = b.size_hint(&Rect::default());
                let width = if area.width >= block_area.width {
                    area.width
                } else {
                    block_area.width
                };
                let height = if area.height >= block_area.height + 1 {
                    area.height
                } else {
                    block_area.height + 1
                };
                Size::new(width, height)
            },
            None => Size::new(area.width, area.height),
        }
    }
}

} // verus!

use crate::buffer::Cell;
use crate::buffer::coord_x;
use crate::buffer::coord_y;
use crate::buffer::index_of;
use crate::buffer::mk_cell;
use crate::style::style_at;
use crate::style::style_or_default;
use vstd::arithmetic::div_mod::lemma_fundamental_div_mod;
use vstd::arithmetic::div_mod::lemma_fundamental_div_mod_converse_div;
use vstd::arithmetic::div_mod::lemma_fundamental_div_mod_converse_mod;

verus! {

/// The resolved geometry of one render: the chart area, the bar width,
/// the two gaps, the series count and the visible-group count.
pub struct BarLayout {
    pub ca: Rect,
    pub bw: int,
    pub bg: int,
    pub gg: int,
    pub n: int,
    pub m: int,
}

/// The columns one whole group spans, its trailing group gap included.
pub open spec fn lay_pgw(lay: BarLayout) -> int {
    (lay.bw + lay.bg) * lay.n + lay.gg
}

/// A geometry the painter can work under.
pub open spec fn lay_wf(lay: BarLayout) -> bool {
    lay.ca.wf() && 1 <= lay.n && 0 <= lay.bw && 0 <= lay.bg && 0 <= lay.gg && 0 <= lay.m
        && 1 <= lay_pgw(lay) && lay.ca.height >= 2 && lay.m * lay_pgw(lay) <= lay.ca.width + lay.gg
        + lay.bg
}

/// The group whose span the column `px` falls into.
pub open spec fn bar_group_of(lay: BarLayout, px: int) -> int {
    (px - lay.ca.x) / lay_pgw(lay)
}

/// The column offset of `px` within its group's span.
pub open spec fn bar_rem_of(lay: BarLayout, px: int) -> int {
    (px - lay.ca.x) % lay_pgw(lay)
}

/// The series whose bar the column `px` falls into within its group.
pub open spec fn bar_series_of(lay: BarLayout, px: int) -> int {
    if lay.bw + lay.bg >= 1 {
        bar_rem_of(lay, px) / (lay.bw + lay.bg)
    } else {
        0
    }
}

/// The column offset of `px` within its bar's span.
pub open spec fn bar_x_of(lay: BarLayout, px: int) -> int {
    if lay.bw + lay.bg >= 1 {
        bar_rem_of(lay, px) % (lay.bw + lay.bg)
    } else {
        0
    }
}

/// True when the cell at `(px, py)` lies on a visible bar: a data row of
/// the chart area, inside a bar of a visible group.
pub open spec fn bar_covers(lay: BarLayout, px: int, py: int) -> bool {
    lay.ca.y <= py < lay.ca.y + lay.ca.height - 1 && lay.ca.x <= px && lay.bw + lay.bg >= 1
        && bar_group_of(lay, px) < lay.m && bar_series_of(lay, px) < lay.n && bar_x_of(lay, px)
        < lay.bw
}

/// The glyph level a bar of height `h` eighths shows on its row `r`,
/// counting rows from the bar's base: full rows below the top, the
/// remainder on the row above them, nothing further up.
pub open spec fn spec_bar_level(h: int, r: int) -> int {
    if h - 8 * r >= 8 {
        8
    } else if h - 8 * r >= 0 {
        h - 8 * r
    } else {
        0
    }
}

/// The data row, counted from the chart's base row upward, that screen
/// row `py` shows.
pub open spec fn bar_row_of(lay: BarLayout, py: int) -> int {
    lay.ca.y + lay.ca.height - 2 - py
}

/// The cell painted at `(px, py)` of a bar: the level glyph in the bar's
/// series style.
pub open spec fn bar_cell_at(
    lay: BarLayout,
    heights: Seq<Seq<int>>,
    set: BarSet,
    styles: Seq<Style>,
    px: int,
    py: int,
) -> Cell {
    mk_cell(
        set.spec_glyph(
            spec_bar_level(
                heights[bar_group_of(lay, px)][bar_series_of(lay, px)],
                bar_row_of(lay, py),
            ),
        ),
        style_or_default(styles, bar_series_of(lay, px)),
    )
}

/// Lexicographic order on (group, series, column-within-bar).
pub open spec fn lex3_before(g: int, s: int, x: int, g2: int, s2: int, x2: int) -> bool {
    g < g2 || (g == g2 && (s < s2 || (s == s2 && x < x2)))
}

/// The grid after painting every bar cell whose position comes before
/// `(gl, sl, xl)`, plus the rows below `jl` of the bar column at exactly
/// `(gl, sl, xl)`.
pub open spec fn spec_bars_upto(
    content: Seq<Cell>,
    barea: Rect,
    lay: BarLayout,
    heights: Seq<Seq<int>>,
    set: BarSet,
    styles: Seq<Style>,
    gl: int,
    sl: int,
    xl: int,
    jl: int,
) -> Seq<Cell> {
    Seq::new(
        content.len(),
        |i: int|
            {
                let px = coord_x(barea, i);
                let py = coord_y(barea, i);
                if bar_covers(lay, px, py) && (lex3_before(
                    bar_group_of(lay, px),
                    bar_series_of(lay, px),
                    bar_x_of(lay, px),
                    gl,
                    sl,
                    xl,
                ) || (bar_group_of(lay, px) == gl && bar_series_of(lay, px) == sl && bar_x_of(
                    lay,
                    px,
                ) == xl && py < lay.ca.y + jl)) {
                    bar_cell_at(lay, heights, set, styles, px, py)
                } else {
                    content[i]
                }
            },
    )
}

/// The grid after the whole bar body is painted.
pub open spec fn spec_paint_bars(
    content: Seq<Cell>,
    barea: Rect,
    lay: BarLayout,
    heights: Seq<Seq<int>>,
    set: BarSet,
    styles: Seq<Style>,
) -> Seq<Cell> {
    spec_bars_upto(content, barea, lay, heights, set, styles, lay.m, 0, 0, 0)
}

/// The column offset of bar `(g, s, x)` decomposes back to `(g, s, x)`,
/// and lies inside the chart area.
proof fn lemma_bar_decompose(lay: BarLayout, g: int, s: int, x: int)
    requires
        lay_wf(lay),
        0 <= g < lay.m,
        0 <= s < lay.n,
        0 <= x < lay.bw,
    ensures
        ({
            let off = g * lay_pgw(lay) + s * (lay.bw + lay.bg) + x;
            0 <= off < lay.ca.width && bar_group_of(lay, lay.ca.x + off) == g && bar_series_of(
                lay,
                lay.ca.x + off,
            ) == s && bar_x_of(lay, lay.ca.x + off) == x
        }),
{
    let pgw = lay_pgw(lay);
    let sden = lay.bw + lay.bg;
    let rem = s * sden + x;
    let off = g * pgw + rem;
    assert(0 <= s * sden && s * sden <= (lay.n - 1) * sden && (lay.n - 1) * sden + sden == lay.n
        * sden) by (nonlinear_arith)
        requires
            0 <= s <= lay.n - 1,
            1 <= sden,
    ;
    assert(lay.n * sden + lay.gg == pgw) by (nonlinear_arith)
        requires
            pgw == (lay.bw + lay.bg) * lay.n + lay.gg,
            sden == lay.bw + lay.bg,
    ;
    assert(0 <= rem < pgw);
    assert(0 <= g * pgw && g * pgw <= (lay.m - 1) * pgw && (lay.m - 1) * pgw + pgw == lay.m * pgw)
        by (nonlinear_arith)
        requires
            0 <= g <= lay.m - 1,
            1 <= pgw,
    ;
    assert(off < lay.ca.width) by {
        assert(lay.m * pgw <= lay.ca.width + lay.gg + lay.bg);
        assert(rem < pgw - lay.gg);
    }
    lemma_fundamental_div_mod_converse_div(off, pgw, g, rem);
    lemma_fundamental_div_mod_converse_mod(off, pgw, g, rem);
    lemma_fundamental_div_mod_converse_div(rem, sden, s, x);
    lemma_fundamental_div_mod_converse_mod(rem, sden, s, x);
    assert(lay.ca.x + off - lay.ca.x == off);
}

/// Any column at or right of the chart's left edge is the sum of its
/// decomposition: group span, series span and column within the bar.
proof fn lemma_bar_reconstruct(lay: BarLayout, px: int)
    requires
        lay_wf(lay),
        lay.bw + lay.bg >= 1,
        px >= lay.ca.x,
    ensures
        px == lay.ca.x + bar_group_of(lay, px) * lay_pgw(lay) + bar_series_of(lay, px) * (lay.bw
            + lay.bg) + bar_x_of(lay, px),
{
    let pgw = lay_pgw(lay);
    let sden = lay.bw + lay.bg;
    let off = px - lay.ca.x;
    lemma_fundamental_div_mod(off, pgw);
    lemma_fundamental_div_mod(off % pgw, sden);
    assert(pgw * (off / pgw) == (off / pgw) * pgw) by (nonlinear_arith);
    assert(sden * ((off % pgw) / sden) == ((off % pgw) / sden) * sden) by (nonlinear_arith);
}

} // verus!

verus! {

/// Paint the bar body: for every visible group, series and bar column,
/// one glyph per data row, chosen from the remaining eighths-height.
#[verifier::loop_isolation(false)]
fn paint_bars(
    buf: &mut Buffer,
    ca: Rect,
    bw: u16,
    bg: u16,
    gg: u16,
    n: usize,
    m: usize,
    heights: &Vec<Vec<u64>>,
    set: &BarSet,
    styles: &Vec<Style>,
    lay: Ghost<BarLayout>,
    hseq: Ghost<Seq<Seq<int>>>,
)
    requires
        old(buf).wf(),
        ca.wf(),
        ca.x >= old(buf).area.x,
        ca.y >= old(buf).area.y,
        ca.x + ca.width <= old(buf).area.x + old(buf).area.width,
        ca.y + ca.height <= old(buf).area.y + old(buf).area.height,
        lay@ == (BarLayout {
            ca,
            bw: bw as int,
            bg: bg as int,
            gg: gg as int,
            n: n as int,
            m: m as int,
        }),
        lay_wf(lay@),
        heights@.len() >= m,
        forall|g: int| 0 <= g < m ==> #[trigger] heights@[g]@.len() == n,
        forall|g: int, s: int|
            0 <= g < m && 0 <= s < n ==> #[trigger] hseq@[g][s] == heights@[g]@[s] as int,
    ensures
        final(buf).wf(),
        final(buf).area == old(buf).area,
        final(buf).content@ == spec_paint_bars(
            old(buf).content@,
            old(buf).area,
            lay@,
            hseq@,
            *set,
            styles@,
        ),
{
    let ghost c0 = buf.content@;
    let ghost barea = buf.area;
    let ghost target = spec_paint_bars(c0, barea, lay@, hseq@, *set, styles@);
    proof {
        assert forall|i: int| 0 <= i < c0.len() implies spec_bars_upto(
            c0,
            barea,
            lay@,
            hseq@,
            *set,
            styles@,
            0,
            0,
            0,
            0,
        )[i] == c0[i] by {}
        assert(spec_bars_upto(c0, barea, lay@, hseq@, *set, styles@, 0, 0, 0, 0) =~= c0);
    }
    if m == 0 {
        proof {
            assert forall|i: int| 0 <= i < c0.len() implies target[i] == c0[i] by {}
            assert(buf.content@ =~= target);
        }
        return ;
    }
    proof {
        assert(lay_pgw(lay@) <= lay@.m * lay_pgw(lay@)) by (nonlinear_arith)
            requires
                1 <= lay@.m,
                1 <= lay_pgw(lay@),
        ;
        assert((bw as int + bg as int) * (n as int) <= lay_pgw(lay@));
    }
    let pgw: u64 = (bw as u64 + bg as u64) * (n as u64) + gg as u64;
    let sden: u64 = bw as u64 + bg as u64;
    let rows: u16 = ca.height - 1;
    for g in 0..m
        invariant
            buf.wf(),
            buf.area == barea,
            buf.content@ == spec_bars_upto(
                c0,
                barea,
                lay@,
                hseq@,
                *set,
                styles@,
                g as int,
                0,
                0,
                0,
            ),
    {
        for s in 0..n
            invariant
                buf.wf(),
                buf.area == barea,
                buf.content@ == spec_bars_upto(
                    c0,
                    barea,
                    lay@,
                    hseq@,
                    *set,
                    styles@,
                    g as int,
                    s as int,
                    0,
                    0,
                ),
        {
            let style = style_at(styles, s);
            let h: u64 = heights[g][s];
            for x in 0..bw
                invariant
                    buf.wf(),
                    buf.area == barea,
                    buf.content@ == spec_bars_upto(
                        c0,
                        barea,
                        lay@,
                        hseq@,
                        *set,
                        styles@,
                        g as int,
                        s as int,
                        x as int,
                        0,
                    ),
            {
                proof {
                    lemma_bar_decompose(lay@, g as int, s as int, x as int);
                }
                let off: u64 = (g as u64) * pgw + (s as u64) * sden + (x as u64);
                let px: u16 = ca.x + (off as u16);
                for j in 0..rows
                    invariant
                        buf.wf(),
                        buf.area == barea,
                        buf.content@ == spec_bars_upto(
                            c0,
                            barea,
                            lay@,
                            hseq@,
                            *set,
                            styles@,
                            g as int,
                            s as int,
                            x as int,
                            j as int,
                        ),
                {
                    let py: u16 = ca.y + j;
                    let r: u16 = rows - 1 - j;
                    let rem: u64 = if h >= 8 * (r as u64) {
                        h - 8 * (r as u64)
                    } else {
                        0
                    };
                    let level: u64 = if rem >= 8 {
                        8
                    } else {
                        rem
                    };
                    let glyph = set.glyph(level);
                    proof {
                        buf.lemma_index_of(px as int, py as int);
                        assert(level as int == spec_bar_level(h as int, r as int));
                    }
                    let ghost iw = index_of(barea, px as int, py as int);
                    let ghost pre = buf.content@;
                    buf.set_cell(px, py, glyph, style);
                    proof {
                        let ghost nxt = spec_bars_upto(
                            c0,
                            barea,
                            lay@,
                            hseq@,
                            *set,
                            styles@,
                            g as int,
                            s as int,
                            x as int,
                            j + 1,
                        );
                        assert forall|i: int| 0 <= i < c0.len() implies buf.content@[i] == nxt[i] by {
                            buf.lemma_coord_of(i);
                            let cx = coord_x(barea, i);
                            let cy = coord_y(barea, i);
                            if i == iw {
                                assert(bar_covers(lay@, cx, cy));
                                assert(bar_group_of(lay@, cx) == g as int);
                                assert(bar_series_of(lay@, cx) == s as int);
                                assert(bar_x_of(lay@, cx) == x as int);
                                assert(bar_row_of(lay@, cy) == r as int);
                                assert(nxt[i] == bar_cell_at(lay@, hseq@, *set, styles@, cx, cy));
                            } else {
                                if bar_covers(lay@, cx, cy) && bar_group_of(lay@, cx) == g as int
                                    && bar_series_of(lay@, cx) == s as int && bar_x_of(lay@, cx)
                                    == x as int && cy == lay@.ca.y + j {
                                    lemma_bar_reconstruct(lay@, cx);
                                    assert(cx == px as int && cy == py as int);
                                    assert(false);
                                }
                            }
                        }
                        assert(buf.content@ =~= nxt);
                    }
                }
                proof {
                    let ghost done = spec_bars_upto(
                        c0,
                        barea,
                        lay@,
                        hseq@,
                        *set,
                        styles@,
                        g as int,
                        s as int,
                        x as int,
                        rows as int,
                    );
                    let ghost nxt = spec_bars_upto(
                        c0,
                        barea,
                        lay@,
                        hseq@,
                        *set,
                        styles@,
                        g as int,
                        s as int,
                        x + 1,
                        0,
                    );
                    assert forall|i: int| 0 <= i < c0.len() implies done[i] == nxt[i] by {}
                    assert(done =~= nxt);
                }
            }
            proof {
                let ghost done = spec_bars_upto(
                    c0,
                    barea,
                    lay@,
                    hseq@,
                    *set,
                    styles@,
                    g as int,
                    s as int,
                    bw as int,
                    0,
                );
                let ghost nxt = spec_bars_upto(
                    c0,
                    barea,
                    lay@,
                    hseq@,
                    *set,
                    styles@,
                    g as int,
                    s + 1,
                    0,
                    0,
                );
                assert forall|i: int| 0 <= i < c0.len() implies done[i] == nxt[i] by {}
                assert(done =~= nxt);
            }
        }
        proof {
            let ghost done = spec_bars_upto(
                c0,
                barea,
                lay@,
                hseq@,
                *set,
                styles@,
                g as int,
                n as int,
                0,
                0,
            );
            let ghost nxt = spec_bars_upto(c0, barea, lay@, hseq@, *set, styles@, g + 1, 0, 0, 0);
            assert forall|i: int| 0 <= i < c0.len() implies done[i] == nxt[i] by {}
            assert(done =~= nxt);
        }
    }
}

} // verus!

use crate::buffer::spec_write_str;
use crate::buffer::write_count;
use crate::format::apply_format;
use crate::format::spec_format;
use crate::width::display_width;
use crate::width::str_display_width;

verus! {

/// The row a value label for series `s` is written on: just above the
/// category row, one row higher per series index.
pub open spec fn value_label_y(lay: BarLayout, s: int) -> int {
    lay.ca.y + lay.ca.height - 2 - s
}

/// The leading offset that centers a label of measured width inside a
/// span of `w` columns; the measured width is taken modulo 2^16, as the
/// narrowing to a column count does.
pub open spec fn label_center(w: int, measured: int) -> int {
    (if w >= measured % 0x10000 {
        w - measured % 0x10000
    } else {
        0
    }) / 2
}

/// The column a value label for bar `(g, s)` starts on.
pub open spec fn value_label_x(lay: BarLayout, g: int, s: int, chars: Seq<char>) -> int {
    lay.ca.x + (g * lay.n + s) * (lay.bw + lay.bg) + g * lay.gg + label_center(
        lay.bw,
        display_width(chars),
    )
}

/// How many columns are left for a run that starts at column `x` before
/// the right edge of the target area.
pub open spec fn area_limit(area: Rect, x: int) -> int {
    area.x + area.width - x
}

/// True when a label write starting at `(x, y)` begins inside the
/// target area; a label whose start lies outside it is dropped whole.
pub open spec fn label_start_in_area(area: Rect, x: int, y: int) -> bool {
    area.x <= x < area.x + area.width && area.y <= y < area.y + area.height
}

/// One value label applied: nothing for a zero value or for a start
/// outside the target area, else the formatted value centered over its
/// bar on the series' label row, truncated at the area's right edge.
pub open spec fn apply_value_label(
    content: Seq<Cell>,
    barea: Rect,
    area: Rect,
    lay: BarLayout,
    data: Seq<Seq<u64>>,
    fmt: ValueFormat,
    vstyles: Seq<Style>,
    g: int,
    s: int,
) -> Seq<Cell> {
    if data[g][s] == 0 {
        content
    } else if !label_start_in_area(
        area,
        value_label_x(lay, g, s, spec_format(fmt, data[g][s])),
        value_label_y(lay, s),
    ) {
        content
    } else {
        spec_write_str(
            content,
            barea,
            value_label_x(lay, g, s, spec_format(fmt, data[g][s])),
            value_label_y(lay, s),
            spec_format(fmt, data[g][s]),
            area_limit(area, value_label_x(lay, g, s, spec_format(fmt, data[g][s]))),
            style_or_default(vstyles, s),
        )
    }
}

/// The value labels of group `g` for series `s` and beyond, the lowest
/// series index applied last.
pub open spec fn spec_value_labels_series(
    content: Seq<Cell>,
    barea: Rect,
    area: Rect,
    lay: BarLayout,
    data: Seq<Seq<u64>>,
    fmt: ValueFormat,
    vstyles: Seq<Style>,
    g: int,
    s: int,
) -> Seq<Cell>
    decreases lay.n - s,
{
    if s < 0 || s >= lay.n {
        content
    } else {
        apply_value_label(
            spec_value_labels_series(content, barea, area, lay, data, fmt, vstyles, g, s + 1),
            barea,
            area,
            lay,
            data,
            fmt,
            vstyles,
            g,
            s,
        )
    }
}

/// The value labels of group `g` and beyond, the lowest group index
/// applied last.
pub open spec fn spec_value_labels_groups(
    content: Seq<Cell>,
    barea: Rect,
    area: Rect,
    lay: BarLayout,
    data: Seq<Seq<u64>>,
    fmt: ValueFormat,
    vstyles: Seq<Style>,
    g: int,
) -> Seq<Cell>
    decreases lay.m - g,
{
    if g < 0 || g >= lay.m {
        content
    } else {
        spec_value_labels_series(
            spec_value_labels_groups(content, barea, area, lay, data, fmt, vstyles, g + 1),
            barea,
            area,
            lay,
            data,
            fmt,
            vstyles,
            g,
            0,
        )
    }
}

/// The grid after every visible nonzero value got its label.
pub open spec fn spec_value_labels(
    content: Seq<Cell>,
    barea: Rect,
    area: Rect,
    lay: BarLayout,
    data: Seq<Seq<u64>>,
    fmt: ValueFormat,
    vstyles: Seq<Style>,
) -> Seq<Cell> {
    spec_value_labels_groups(content, barea, area, lay, data, fmt, vstyles, 0)
}

/// The columns one group's bars and inner gaps span: the width a category
/// label is centered in and truncated to.
pub open spec fn cat_limit(lay: BarLayout) -> int {
    lay.n * lay.bw + (lay.n - 1) * lay.bg
}

/// The row category labels are written on: the bottom row of the chart.
pub open spec fn cat_label_y(lay: BarLayout) -> int {
    lay.ca.y + lay.ca.height - 1
}

/// The column the category label of group `i` starts on; centering goes
/// by the label's displayed width.
pub open spec fn cat_label_x(lay: BarLayout, i: int, label: Seq<char>) -> int {
    lay.ca.x + (i * lay.n) * (lay.bw + lay.bg) + lay.gg * i + label_center(
        cat_limit(lay),
        display_width(label),
    )
}

/// One category label applied: dropped when its start lies outside the
/// target area, else truncated to its group's span and to the area's
/// right edge.
pub open spec fn apply_cat_label(
    content: Seq<Cell>,
    barea: Rect,
    area: Rect,
    lay: BarLayout,
    labels: Seq<Seq<char>>,
    lstyle: Style,
    i: int,
) -> Seq<Cell> {
    if !label_start_in_area(area, cat_label_x(lay, i, labels[i]), cat_label_y(lay)) {
        content
    } else {
        spec_write_str(
            content,
            barea,
            cat_label_x(lay, i, labels[i]),
            cat_label_y(lay),
            labels[i],
            (if cat_limit(lay) <= area_limit(area, cat_label_x(lay, i, labels[i])) {
                cat_limit(lay)
            } else {
                area_limit(area, cat_label_x(lay, i, labels[i]))
            }),
            lstyle,
        )
    }
}

/// The category labels from `i` on, applied left to right.
pub open spec fn spec_cat_labels_from(
    content: Seq<Cell>,
    barea: Rect,
    area: Rect,
    lay: BarLayout,
    labels: Seq<Seq<char>>,
    lstyle: Style,
    k: int,
    i: int,
) -> Seq<Cell>
    decreases k - i,
{
    if i < 0 || i >= k {
        content
    } else {
        spec_cat_labels_from(
            apply_cat_label(content, barea, area, lay, labels, lstyle, i),
            barea,
            area,
            lay,
            labels,
            lstyle,
            k,
            i + 1,
        )
    }
}

/// The grid after the first `k` groups got their category labels.
pub open spec fn spec_cat_labels(
    content: Seq<Cell>,
    barea: Rect,
    area: Rect,
    lay: BarLayout,
    labels: Seq<Seq<char>>,
    lstyle: Style,
    k: int,
) -> Seq<Cell> {
    spec_cat_labels_from(content, barea, area, lay, labels, lstyle, k, 0)
}

} // verus!

verus! {

/// Overlay the value labels: for every visible group, right to left, and
/// every series with a nonzero value, the formatted value centered over
/// its bar, one row per series above the category row, confined to the
/// target area.
#[verifier::loop_isolation(false)]
fn place_value_labels(
    buf: &mut Buffer,
    area: Rect,
    ca: Rect,
    bw: u16,
    bg: u16,
    gg: u16,
    n: usize,
    m: usize,
    data: &Vec<Vec<u64>>,
    fmt: &ValueFormat,
    vstyles: &Vec<Style>,
    lay: Ghost<BarLayout>,
)
    requires
        old(buf).wf(),
        area.wf(),
        ca.wf(),
        lay@ == (BarLayout {
            ca,
            bw: bw as int,
            bg: bg as int,
            gg: gg as int,
            n: n as int,
            m: m as int,
        }),
        lay_wf(lay@),
        m <= data@.len(),
        forall|g: int| 0 <= g < data@.len() ==> #[trigger] data@[g]@.len() == n,
    ensures
        final(buf).wf(),
        final(buf).area == old(buf).area,
        final(buf).content@ == spec_value_labels(
            old(buf).content@,
            old(buf).area,
            area,
            lay@,
            data.deep_view(),
            *fmt,
            vstyles@,
        ),
{
    let ghost c0 = buf.content@;
    let ghost barea = buf.area;
    let ghost dv = data.deep_view();
    proof {
        assert(dv.len() == data@.len());
        assert forall|g: int| 0 <= g < dv.len() implies #[trigger] dv[g] == data@[g]@ by {}
    }
    if m == 0 {
        return ;
    }
    proof {
        assert(lay_pgw(lay@) <= lay@.m * lay_pgw(lay@)) by (nonlinear_arith)
            requires
                1 <= lay@.m,
                1 <= lay_pgw(lay@),
        ;
        assert((bw as int + bg as int) * (n as int) <= lay_pgw(lay@));
    }
    let pgw: u64 = (bw as u64 + bg as u64) * (n as u64) + gg as u64;
    let sden: u64 = bw as u64 + bg as u64;
    let mut gi: usize = 0;
    while gi < m
        invariant
            buf.wf(),
            buf.area == barea,
            0 <= gi <= m,
            buf.content@ == spec_value_labels_groups(c0, barea, area, lay@, dv, *fmt, vstyles@, (m
                - gi) as int),
        decreases m - gi,
    {
        let g = m - 1 - gi;
        let ghost base = buf.content@;
        let mut si: usize = 0;
        while si < n
            invariant
                buf.wf(),
                buf.area == barea,
                0 <= si <= n,
                base == spec_value_labels_groups(c0, barea, area, lay@, dv, *fmt, vstyles@, g + 1),
                buf.content@ == spec_value_labels_series(base, barea, area, lay@, dv, *fmt,
                    vstyles@, g as int, (n - si) as int),
            decreases n - si,
        {
            let s = n - 1 - si;
            let v = data[g][s];
            let ghost cur = buf.content@;
            if v != 0 {
                let label = apply_format(fmt, v);
                let wl = str_display_width(label.as_str());
                let w16: u16 = (wl % 0x10000) as u16;
                let center: u16 = (if bw >= w16 {
                    bw - w16
                } else {
                    0
                }) / 2;
                proof {
                    assert((g as int) * lay_pgw(lay@) <= (lay@.m - 1) * lay_pgw(lay@) && (lay@.m
                        - 1) * lay_pgw(lay@) + lay_pgw(lay@) == lay@.m * lay_pgw(lay@) && 0 <= (
                    g as int) * lay_pgw(lay@)) by (nonlinear_arith)
                        requires
                            0 <= g as int <= lay@.m - 1,
                            1 <= lay_pgw(lay@),
                    ;
                    assert((s as int) * (lay@.bw + lay@.bg) <= (lay@.n - 1) * (lay@.bw + lay@.bg)
                        && (lay@.n - 1) * (lay@.bw + lay@.bg) + (lay@.bw + lay@.bg) == lay@.n * (
                    lay@.bw + lay@.bg) && lay@.n * (lay@.bw + lay@.bg) == (lay@.bw + lay@.bg)
                        * lay@.n && 0 <= (s as int) * (lay@.bw + lay@.bg)) by (nonlinear_arith)
                        requires
                            0 <= s as int <= lay@.n - 1,
                            0 <= lay@.bw + lay@.bg,
                    ;
                }
                let xw: u64 = ca.x as u64 + (g as u64) * pgw + (s as u64) * sden + center as u64;
                let row_i: i128 = ca.y as i128 + ca.height as i128 - 2 - s as i128;
                let ghost chars = spec_format(*fmt, v);
                let ghost lx = value_label_x(lay@, g as int, s as int, chars);
                let ghost ly = value_label_y(lay@, s as int);
                let ghost vst = style_or_default(vstyles@, s as int);
                proof {
                    assert(label_center(lay@.bw, display_width(chars)) == center as int);
                    assert((g as int * lay@.n + s as int) * (lay@.bw + lay@.bg) + g as int * lay@.gg
                        == g as int * lay_pgw(lay@) + s as int * (lay@.bw + lay@.bg))
                        by (nonlinear_arith)
                        requires
                            lay_pgw(lay@) == (lay@.bw + lay@.bg) * lay@.n + lay@.gg,
                    ;
                    assert(lx == xw as int);
                    assert(ly == row_i as int);
                }
                if xw >= area.x as u64 && xw < area.x as u64 + area.width as u64 && row_i
                    >= area.y as i128 && row_i < area.y as i128 + area.height as i128 {
                    let px: u16 = xw as u16;
                    let row: u16 = row_i as u16;
                    let lim: u64 = area.x as u64 + area.width as u64 - xw;
                    let style = style_at(vstyles, s);
                    buf.set_stringn(px, row, label.as_str(), lim as usize, style);
                    proof {
                        assert(px as int == lx && row as int == ly);
                        assert(lim as int == area_limit(area, lx));
                        assert(label_start_in_area(area, lx, ly));
                        assert(buf.content@ == apply_value_label(cur, barea, area, lay@, dv, *fmt,
                            vstyles@, g as int, s as int));
                    }
                } else {
                    proof {
                        assert(!label_start_in_area(area, lx, ly));
                        assert(buf.content@ == apply_value_label(cur, barea, area, lay@, dv, *fmt,
                            vstyles@, g as int, s as int));
                    }
                }
            } else {
                proof {
                    assert(buf.content@ == apply_value_label(cur, barea, area, lay@, dv, *fmt,
                        vstyles@, g as int, s as int));
                }
            }
            proof {
                assert(buf.content@ == spec_value_labels_series(base, barea, area, lay@, dv, *fmt,
                    vstyles@, g as int, s as int));
            }
            si = si + 1;
        }
        proof {
            assert(buf.content@ == spec_value_labels_groups(c0, barea, area, lay@, dv, *fmt,
                vstyles@, g as int));
        }
        gi = gi + 1;
    }
}

/// Overlay the category labels: one per visible group that has one,
/// centered in the group's span on the bottom row, truncated to the span
/// and confined to the target area.
#[verifier::loop_isolation(false)]
fn place_category_labels(
    buf: &mut Buffer,
    area: Rect,
    ca: Rect,
    bw: u16,
    bg: u16,
    gg: u16,
    n: usize,
    m: usize,
    labels: &Vec<String>,
    lstyle: Style,
    lay: Ghost<BarLayout>,
)
    requires
        old(buf).wf(),
        area.wf(),
        ca.wf(),
        lay@ == (BarLayout {
            ca,
            bw: bw as int,
            bg: bg as int,
            gg: gg as int,
            n: n as int,
            m: m as int,
        }),
        lay_wf(lay@),
        lay_pgw(lay@) <= u16::MAX,
    ensures
        final(buf).wf(),
        final(buf).area == old(buf).area,
        final(buf).content@ == spec_cat_labels(
            old(buf).content@,
            old(buf).area,
            area,
            lay@,
            labels.deep_view(),
            lstyle,
            (if m <= labels@.len() {
                m as int
            } else {
                labels@.len() as int
            }),
        ),
{
    let ghost c0 = buf.content@;
    let ghost barea = buf.area;
    let ghost ldv = labels.deep_view();
    proof {
        assert(ldv.len() == labels@.len());
        assert forall|i: int| 0 <= i < ldv.len() implies #[trigger] ldv[i] == labels@[i]@ by {}
        assert(lay@.n * lay@.bw + (lay@.n - 1) * lay@.bg + lay@.bg + lay@.gg == lay_pgw(lay@))
            by (nonlinear_arith)
            requires
                lay_pgw(lay@) == (lay@.bw + lay@.bg) * lay@.n + lay@.gg,
        ;
        assert(0 <= lay@.n * lay@.bw && 0 <= (lay@.n - 1) * lay@.bg) by (nonlinear_arith)
            requires
                1 <= lay@.n,
                0 <= lay@.bw,
                0 <= lay@.bg,
        ;
    }
    let pgw: u64 = (bw as u64 + bg as u64) * (n as u64) + gg as u64;
    let lmw: u16 = (pgw - bg as u64 - gg as u64) as u16;
    proof {
        assert((bw as u64 + bg as u64) * (n as u64) == (lay@.bw + lay@.bg) * lay@.n);
        assert(lmw as int == cat_limit(lay@));
    }
    let k = if m <= labels.len() {
        m
    } else {
        labels.len()
    };
    let ghost target = spec_cat_labels(c0, barea, area, lay@, ldv, lstyle, k as int);
    let mut i: usize = 0;
    while i < k
        invariant
            buf.wf(),
            buf.area == barea,
            0 <= i <= k,
            target == spec_cat_labels_from(buf.content@, barea, area, lay@, ldv, lstyle, k as int,
                i as int),
        decreases k - i,
    {
        let ghost cur = buf.content@;
        let label = &labels[i];
        let bl = str_display_width(label.as_str());
        let l16: u16 = (bl % 0x10000) as u16;
        let center: u16 = (if lmw >= l16 {
            lmw - l16
        } else {
            0
        }) / 2;
        proof {
            assert((i as int) * lay_pgw(lay@) <= (lay@.m - 1) * lay_pgw(lay@) && (lay@.m - 1)
                * lay_pgw(lay@) + lay_pgw(lay@) == lay@.m * lay_pgw(lay@) && 0 <= (i as int)
                * lay_pgw(lay@)) by (nonlinear_arith)
                requires
                    0 <= i as int <= lay@.m - 1,
                    1 <= lay_pgw(lay@),
            ;
        }
        let xw: u64 = ca.x as u64 + (i as u64) * pgw + center as u64;
        let row_i: u64 = ca.y as u64 + ca.height as u64 - 1;
        let ghost lx = cat_label_x(lay@, i as int, ldv[i as int]);
        let ghost ly = cat_label_y(lay@);
        proof {
            assert(label_center(cat_limit(lay@), display_width(ldv[i as int])) == center as int);
            assert((i as int * lay@.n) * (lay@.bw + lay@.bg) + lay@.gg * i as int == i as int
                * lay_pgw(lay@)) by (nonlinear_arith)
                requires
                    lay_pgw(lay@) == (lay@.bw + lay@.bg) * lay@.n + lay@.gg,
            ;
            assert(lx == xw as int);
            assert(ly == row_i as int);
        }
        if xw >= area.x as u64 && xw < area.x as u64 + area.width as u64 && row_i >= area.y as u64
            && row_i < area.y as u64 + area.height as u64 {
            let px: u16 = xw as u16;
            let row: u16 = row_i as u16;
            let lim_area: u64 = area.x as u64 + area.width as u64 - xw;
            let lim: u64 = if (lmw as u64) <= lim_area {
                lmw as u64
            } else {
                lim_area
            };
            buf.set_stringn(px, row, label.as_str(), lim as usize, lstyle);
            proof {
                assert(px as int == lx && row as int == ly);
                assert(label_start_in_area(area, lx, ly));
                assert(buf.content@ == apply_cat_label(cur, barea, area, lay@, ldv, lstyle,
                    i as int));
            }
        } else {
            proof {
                assert(!label_start_in_area(area, lx, ly));
                assert(buf.content@ == apply_cat_label(cur, barea, area, lay@, ldv, lstyle,
                    i as int));
            }
        }
        proof {
            assert(target == spec_cat_labels_from(buf.content@, barea, area, lay@, ldv, lstyle,
                k as int, i + 1));
        }
        i = i + 1;
    }
}

} // verus!

use crate::block::spec_draw_border;
use crate::buffer::spec_set_style_region;
use crate::scale::data_max;
use crate::scale::height_eighths;
use crate::scale::spec_data_max;
use crate::scale::spec_height_eighths;
use crate::scale::spec_per_group_width;
use crate::scale::spec_visible_groups;
use crate::scale::visible_group_count;

verus! {

/// The scaled height of one value, read out of the data.
pub open spec fn height_at(dv: Seq<Seq<u64>>, rows: int, maxv: int, g: int, s: int) -> int {
    spec_height_eighths(dv[g][s] as int, rows, maxv)
}

/// A bound below a quotient multiplies back below the dividend.
proof fn lemma_mul_le_of_div(mm: int, a: int, b: int)
    requires
        0 <= mm,
        1 <= b,
        0 <= a,
        mm <= a / b,
    ensures
        mm * b <= a,
{
    vstd::arithmetic::div_mod::lemma_fundamental_div_mod(a, b);
    vstd::arithmetic::div_mod::lemma_mod_division_less_than_divisor(a, b);
    assert(mm * b <= (a / b) * b && (a / b) * b == b * (a / b)) by (nonlinear_arith)
        requires
            mm <= a / b,
            1 <= b,
            0 <= mm,
    ;
}

impl BarChart2 {
    /// The region the chart body is drawn in: the whole target area, or
    /// the wrapping block's inner area.
    pub open spec fn spec_chart_area(self, area: Rect) -> Rect {
        match self.block {
            Some(b) => b.spec_inner(area),
            None => area,
        }
    }

    /// How many series each group holds.
    pub open spec fn spec_series_count(self) -> int {
        if self.data@.len() == 0 {
            0
        } else {
            self.data@[0]@.len() as int
        }
    }

    /// The scale reference: the fixed maximum, or the largest value found
    /// in the data.
    pub open spec fn spec_resolved_max(self) -> int {
        match self.max {
            Some(m) => m as int,
            None => spec_data_max(self.data.deep_view()),
        }
    }

    /// The resolved geometry of a render onto `area`.
    pub open spec fn spec_layout(self, area: Rect) -> BarLayout {
        BarLayout {
            ca: self.spec_chart_area(area),
            bw: self.bar_width as int,
            bg: self.bar_gap as int,
            gg: self.group_gap as int,
            n: self.spec_series_count(),
            m: spec_visible_groups(
                self.spec_chart_area(area).width as int,
                self.bar_width as int,
                self.bar_gap as int,
                self.group_gap as int,
                self.spec_series_count(),
                self.data@.len() as int,
            ),
        }
    }

    /// Every value scaled to eighths of a cell.
    pub open spec fn spec_heights(self, area: Rect) -> Seq<Seq<int>> {
        Seq::new(
            self.data@.len(),
            |g: int|
                Seq::new(
                    self.spec_series_count() as nat,
                    |s: int|
                        height_at(
                            self.data.deep_view(),
                            self.spec_chart_area(area).height as int,
                            self.spec_resolved_max(),
                            g,
                            s,
                        ),
                ),
        )
    }

    /// What one render call leaves in the grid: nothing at all when the
    /// chart body has no room or no data; otherwise the area restyled,
    /// the optional block frame, the bar body, the value labels and the
    /// category labels, in that order, all confined to the target area.
    pub open spec fn spec_render(self, area: Rect, b: Buffer) -> Seq<Cell> {
        let ca = self.spec_chart_area(area);
        if ca.height < 2 || self.data@.len() == 0 {
            b.content@
        } else {
            let c1 = spec_set_style_region(b.content@, b.area, area, self.style);
            let c2 = if self.block is Some {
                spec_draw_border(c1, b.area, area)
            } else {
                c1
            };
            let lay = self.spec_layout(area);
            let c3 = spec_paint_bars(
                c2,
                b.area,
                lay,
                self.spec_heights(area),
                self.bar_set,
                self.bar_styles@,
            );
            let c4 = spec_value_labels(
                c3,
                b.area,
                area,
                lay,
                self.data.deep_view(),
                self.format,
                self.value_styles@,
            );
            spec_cat_labels(
                c4,
                b.area,
                area,
                lay,
                self.labels.deep_view(),
                self.label_style,
                (if lay.m <= self.labels@.len() {
                    lay.m
                } else {
                    self.labels@.len() as int
                }),
            )
        }
    }

    /// True when a render onto `area` draws a chart body at all.
    pub open spec fn spec_active(self, area: Rect) -> bool {
        self.spec_chart_area(area).height >= 2 && self.data@.len() > 0
    }

    /// Render the chart into `buf` over `area`.
    #[verifier::loop_isolation(false)]
    pub fn render(self, area: Rect, buf: &mut Buffer)
        requires
            old(buf).wf(),
            area.wf(),
            area.x >= old(buf).area.x,
            area.y >= old(buf).area.y,
            area.x + area.width <= old(buf).area.x + old(buf).area.width,
            area.y + area.height <= old(buf).area.y + old(buf).area.height,
            self.spec_active(area) ==> self.spec_series_count() >= 1,
            self.spec_active(area) ==> forall|g: int|
                0 <= g < self.data@.len() ==> #[trigger] self.data@[g]@.len()
                    == self.spec_series_count(),
            self.spec_active(area) ==> 1 <= spec_per_group_width(
                self.bar_width as int,
                self.bar_gap as int,
                self.group_gap as int,
                self.spec_series_count(),
            ) <= u16::MAX,
            self.spec_active(area) ==> self.spec_chart_area(area).width + self.group_gap
                + self.bar_gap <= u16::MAX,
            self.spec_active(area) ==> forall|g: int, s: int|
                0 <= g < self.data@.len() && 0 <= s < self.spec_series_count()
                    ==> (#[trigger] self.data@[g]@[s]) * (self.spec_chart_area(area).height - 1) * 8
                    <= u64::MAX,
        ensures
            final(buf).wf(),
            final(buf).area == old(buf).area,
            final(buf).content@ == self.spec_render(area, *old(buf)),
    {
        let chart_area: Rect = match &self.block {
            Some(b) => b.inner(area),
            None => area,
        };
        proof {
            assert(chart_area == self.spec_chart_area(area));
            assert(chart_area.wf());
        }
        if chart_area.height < 2 || self.data.len() == 0 {
            return ;
        }
        buf.set_style(area, self.style);
        match &self.block {
            Some(b) => b.render(area, buf),
            None => {},
        }
        let ghost dv = self.data.deep_view();
        proof {
            assert(dv.len() == self.data@.len());
            assert forall|g: int| 0 <= g < dv.len() implies #[trigger] dv[g] == self.data@[g]@ by {}
        }
        let max_v: u64 = match self.max {
            Some(mv) => mv,
            None => data_max(&self.data),
        };
        let n = self.data[0].len();
        let m = visible_group_count(
            chart_area.width,
            self.bar_width,
            self.bar_gap,
            self.group_gap,
            n,
            self.data.len(),
        );
        let ghost lay = self.spec_layout(area);
        let ghost hseq = self.spec_heights(area);
        proof {
            assert(lay == (BarLayout {
                ca: chart_area,
                bw: self.bar_width as int,
                bg: self.bar_gap as int,
                gg: self.group_gap as int,
                n: n as int,
                m: m as int,
            }));
            let fit = (chart_area.width + self.group_gap + self.bar_gap) as int / lay_pgw(lay);
            assert(lay.m <= fit);
            lemma_mul_le_of_div(
                lay.m,
                chart_area.width + self.group_gap + self.bar_gap,
                lay_pgw(lay),
            );
            assert(lay_wf(lay));
        }
        let rows = chart_area.height;
        let mut heights: Vec<Vec<u64>> = Vec::new();
        for g in 0..m
            invariant
                heights@.len() == g,
                forall|k: int| 0 <= k < g ==> #[trigger] heights@[k]@.len() == n,
                forall|k: int, s: int|
                    0 <= k < g && 0 <= s < n ==> #[trigger] heights@[k]@[s] as int == hseq[k][s],
        {
            let mut row: Vec<u64> = Vec::new();
            for s in 0..n
                invariant
                    row@.len() == s,
                    forall|t: int| 0 <= t < s ==> #[trigger] row@[t] as int == hseq[g as int][t],
            {
                let h = height_eighths(self.data[g][s], rows, max_v);
                proof {
                    assert(h as int == height_at(dv, chart_area.height as int,
                        self.spec_resolved_max(), g as int, s as int));
                    assert(hseq[g as int][s as int] == height_at(dv, chart_area.height as int,
                        self.spec_resolved_max(), g as int, s as int));
                }
                row.push(h);
            }
            heights.push(row);
        }
        paint_bars(
            buf,
            chart_area,
            self.bar_width,
            self.bar_gap,
            self.group_gap,
            n,
            m,
            &heights,
            &self.bar_set,
            &self.bar_styles,
            Ghost(lay),
            Ghost(hseq),
        );
        place_value_labels(
            buf,
            area,
            chart_area,
            self.bar_width,
            self.bar_gap,
            self.group_gap,
            n,
            m,
            &self.data,
            &self.format,
            &self.value_styles,
            Ghost(lay),
        );
        place_category_labels(
            buf,
            area,
            chart_area,
            self.bar_width,
            self.bar_gap,
            self.group_gap,
            n,
            m,
            &self.labels,
            self.label_style,
            Ghost(lay),
        );
    }
}

} // verus!

verus! {

/// A bar of height `h` eighths paints, from its base upward: a full
/// block on exactly the rows below `h / 8`, at most one partial glyph —
/// showing `h % 8` — on the row at `h / 8`, and nothing above that.
pub proof fn lemma_bar_rows(h: int, rows: int)
    requires
        0 <= h,
    ensures
        forall|r: int| 0 <= r < rows ==> (#[trigger] spec_bar_level(h, r) == 8 <==> r < h / 8),
        forall|r: int| 0 <= r < rows && r == h / 8 ==> #[trigger] spec_bar_level(h, r) == h % 8,
        forall|r: int| 0 <= r < rows && r > h / 8 ==> #[trigger] spec_bar_level(h, r) == 0,
        forall|r: int|
            0 <= r < rows && 0 < #[trigger] spec_bar_level(h, r) < 8 ==> r == h / 8
                && spec_bar_level(h, r) == h % 8,
{
    vstd::arithmetic::div_mod::lemma_fundamental_div_mod(h, 8);
    vstd::arithmetic::div_mod::lemma_mod_division_less_than_divisor(h, 8);
    vstd::arithmetic::div_mod::lemma_div_pos_is_pos(h, 8);
    assert forall|r: int| 0 <= r < rows implies (#[trigger] spec_bar_level(h, r) == 8 <==> r < h
        / 8) by {
        assert(h - 8 * r == 8 * (h / 8 - r) + h % 8);
    }
    assert forall|r: int| 0 <= r < rows && r == h / 8 implies #[trigger] spec_bar_level(h, r) == h
        % 8 by {
        assert(h - 8 * r == 8 * (h / 8 - r) + h % 8);
    }
    assert forall|r: int| 0 <= r < rows && r > h / 8 implies #[trigger] spec_bar_level(h, r)
        == 0 by {
        assert(h - 8 * r == 8 * (h / 8 - r) + h % 8);
        assert(8 * (h / 8 - r) <= 8 * (-1)) by (nonlinear_arith)
            requires
                h / 8 - r <= -1,
        ;
    }
    assert forall|r: int| 0 <= r < rows && 0 < #[trigger] spec_bar_level(h, r) < 8 implies r == h
        / 8 && spec_bar_level(h, r) == h % 8 by {
        assert(h - 8 * r == 8 * (h / 8 - r) + h % 8);
        if r < h / 8 {
            assert(8 * (h / 8 - r) >= 8) by (nonlinear_arith)
                requires
                    h / 8 - r >= 1,
            ;
        }
        if r > h / 8 {
            assert(8 * (h / 8 - r) <= 8 * (-1)) by (nonlinear_arith)
                requires
                    h / 8 - r <= -1,
            ;
        }
    }
}

/// The cells a value label for bar `(g, s)` may occupy: the bar's label
/// row, from the label's start column for the length of the formatted
/// text as truncated at the target area's right edge; nothing when the
/// start lies outside the target area.
pub open spec fn value_label_touches(
    area: Rect,
    lay: BarLayout,
    data: Seq<Seq<u64>>,
    fmt: ValueFormat,
    g: int,
    s: int,
    px: int,
    py: int,
) -> bool {
    label_start_in_area(
        area,
        value_label_x(lay, g, s, spec_format(fmt, data[g][s])),
        value_label_y(lay, s),
    ) && py == value_label_y(lay, s) && value_label_x(lay, g, s, spec_format(fmt, data[g][s]))
        <= px < value_label_x(lay, g, s, spec_format(fmt, data[g][s])) + write_count(
        spec_format(fmt, data[g][s]).len() as int,
        area_limit(area, value_label_x(lay, g, s, spec_format(fmt, data[g][s]))),
    )
}

/// The value-label pass keeps the length of the grid.
proof fn lemma_vl_series_len(
    content: Seq<Cell>,
    barea: Rect,
    area: Rect,
    lay: BarLayout,
    data: Seq<Seq<u64>>,
    fmt: ValueFormat,
    vstyles: Seq<Style>,
    g: int,
    s: int,
)
    ensures
        spec_value_labels_series(content, barea, area, lay, data, fmt, vstyles, g, s).len()
            == content.len(),
    decreases lay.n - s,
{
    if !(s < 0 || s >= lay.n) {
        lemma_vl_series_len(content, barea, area, lay, data, fmt, vstyles, g, s + 1);
    }
}

/// One group of the value-label pass leaves every cell outside its
/// nonzero labels' spans unchanged.
proof fn lemma_vl_series_frame(
    content: Seq<Cell>,
    barea: Rect,
    area: Rect,
    lay: BarLayout,
    data: Seq<Seq<u64>>,
    fmt: ValueFormat,
    vstyles: Seq<Style>,
    g: int,
    s: int,
    i: int,
)
    requires
        0 <= i < content.len(),
        forall|s2: int|
            0 <= s2 < lay.n && data[g][s2] != 0 ==> !value_label_touches(
                area,
                lay,
                data,
                fmt,
                g,
                s2,
                coord_x(barea, i),
                coord_y(barea, i),
            ),
    ensures
        spec_value_labels_series(content, barea, area, lay, data, fmt, vstyles, g, s)[i]
            == content[i],
    decreases lay.n - s,
{
    if !(s < 0 || s >= lay.n) {
        let inner = spec_value_labels_series(content, barea, area, lay, data, fmt, vstyles, g, s
            + 1);
        lemma_vl_series_len(content, barea, area, lay, data, fmt, vstyles, g, s + 1);
        lemma_vl_series_frame(content, barea, area, lay, data, fmt, vstyles, g, s + 1, i);
        if data[g][s] != 0 {
            assert(!value_label_touches(area, lay, data, fmt, g, s, coord_x(barea, i), coord_y(
                barea, i)));
        }
    }
}

/// Zero values are suppressed: through the whole value-label pass, every
/// cell outside the spans of labels of nonzero values keeps its content.
/// In particular a value of zero never produces a value label.
pub proof fn lemma_zero_value_no_label(
    content: Seq<Cell>,
    barea: Rect,
    area: Rect,
    lay: BarLayout,
    data: Seq<Seq<u64>>,
    fmt: ValueFormat,
    vstyles: Seq<Style>,
    i: int,
)
    requires
        0 <= i < content.len(),
        forall|g: int, s: int|
            0 <= g < lay.m && 0 <= s < lay.n && data[g][s] != 0 ==> !value_label_touches(
                area,
                lay,
                data,
                fmt,
                g,
                s,
                coord_x(barea, i),
                coord_y(barea, i),
            ),
    ensures
        spec_value_labels(content, barea, area, lay, data, fmt, vstyles)[i] == content[i],
{
    lemma_vl_groups_frame(content, barea, area, lay, data, fmt, vstyles, 0, i);
}

/// The group recursion of the value-label pass keeps the length of the
/// grid.
proof fn lemma_vl_groups_len(
    content: Seq<Cell>,
    barea: Rect,
    area: Rect,
    lay: BarLayout,
    data: Seq<Seq<u64>>,
    fmt: ValueFormat,
    vstyles: Seq<Style>,
    g: int,
)
    ensures
        spec_value_labels_groups(content, barea, area, lay, data, fmt, vstyles, g).len()
            == content.len(),
    decreases lay.m - g,
{
    if !(g < 0 || g >= lay.m) {
        lemma_vl_groups_len(content, barea, area, lay, data, fmt, vstyles, g + 1);
        lemma_vl_series_len(
            spec_value_labels_groups(content, barea, area, lay, data, fmt, vstyles, g + 1),
            barea,
            area,
            lay,
            data,
            fmt,
            vstyles,
            g,
            0,
        );
    }
}

/// The group recursion of the value-label pass leaves every cell outside
/// the nonzero labels' spans unchanged.
proof fn lemma_vl_groups_frame(
    content: Seq<Cell>,
    barea: Rect,
    area: Rect,
    lay: BarLayout,
    data: Seq<Seq<u64>>,
    fmt: ValueFormat,
    vstyles: Seq<Style>,
    g: int,
    i: int,
)
    requires
        0 <= i < content.len(),
        forall|g2: int, s: int|
            0 <= g2 < lay.m && 0 <= s < lay.n && data[g2][s] != 0 ==> !value_label_touches(
                area,
                lay,
                data,
                fmt,
                g2,
                s,
                coord_x(barea, i),
                coord_y(barea, i),
            ),
    ensures
        spec_value_labels_groups(content, barea, area, lay, data, fmt, vstyles, g)[i]
            == content[i],
    decreases lay.m - g,
{
    if !(g < 0 || g >= lay.m) {
        let inner = spec_value_labels_groups(content, barea, area, lay, data, fmt, vstyles, g + 1);
        lemma_vl_groups_len(content, barea, area, lay, data, fmt, vstyles, g + 1);
        lemma_vl_groups_frame(content, barea, area, lay, data, fmt, vstyles, g + 1, i);
        lemma_vl_series_frame(inner, barea, area, lay, data, fmt, vstyles, g, 0, i);
    }
}

/// The category-label pass keeps the length of the grid.
proof fn lemma_cat_from_len(
    content: Seq<Cell>,
    barea: Rect,
    area: Rect,
    lay: BarLayout,
    labels: Seq<Seq<char>>,
    lstyle: Style,
    k: int,
    i0: int,
)
    ensures
        spec_cat_labels_from(content, barea, area, lay, labels, lstyle, k, i0).len()
            == content.len(),
    decreases k - i0,
{
    if !(i0 < 0 || i0 >= k) {
        lemma_cat_from_len(
            apply_cat_label(content, barea, area, lay, labels, lstyle, i0),
            barea,
            area,
            lay,
            labels,
            lstyle,
            k,
            i0 + 1,
        );
    }
}

/// The category-label pass leaves every cell outside the target area
/// unchanged: each label's writes are confined to the area.
proof fn lemma_cat_from_frame(
    content: Seq<Cell>,
    barea: Rect,
    area: Rect,
    lay: BarLayout,
    labels: Seq<Seq<char>>,
    lstyle: Style,
    k: int,
    i0: int,
    i: int,
)
    requires
        0 <= i < content.len(),
        !area.contains(coord_x(barea, i), coord_y(barea, i)),
    ensures
        spec_cat_labels_from(content, barea, area, lay, labels, lstyle, k, i0)[i] == content[i],
    decreases k - i0,
{
    if !(i0 < 0 || i0 >= k) {
        let c2 = apply_cat_label(content, barea, area, lay, labels, lstyle, i0);
        assert(c2[i] == content[i]);
        lemma_cat_from_frame(c2, barea, area, lay, labels, lstyle, k, i0 + 1, i);
    }
}

} // verus!

verus! {

impl BarChart2 {
    /// When nothing fits, nothing is painted. With no data or fewer than
    /// two rows the render is a no-op: the grid is returned unchanged.
    /// With data and room but no width for even one whole group, an
    /// unwrapped render paints no glyph: every cell keeps its symbol,
    /// and only the area's style is touched.
    pub proof fn lemma_no_fit_paints_nothing(self, area: Rect, b: Buffer)
        requires
            b.wf(),
            self.block.is_none(),
            self.spec_active(area) ==> self.spec_series_count() >= 1 && 1 <= spec_per_group_width(
                self.bar_width as int,
                self.bar_gap as int,
                self.group_gap as int,
                self.spec_series_count(),
            ),
            !self.spec_active(area) || self.spec_layout(area).m <= 0,
        ensures
            self.spec_render(area, b).len() == b.content@.len(),
            !self.spec_active(area) ==> self.spec_render(area, b) == b.content@,
            forall|i: int|
                0 <= i < b.content@.len() ==> #[trigger] self.spec_render(area, b)[i].symbol
                    == b.content@[i].symbol,
    {
        if self.spec_active(area) {
            let c1 = spec_set_style_region(b.content@, b.area, area, self.style);
            assert forall|i: int| 0 <= i < b.content@.len() implies c1[i].symbol
                == b.content@[i].symbol by {}
            let lay = self.spec_layout(area);
            let c3 = spec_paint_bars(c1, b.area, lay, self.spec_heights(area), self.bar_set,
                self.bar_styles@);
            assert forall|i: int| 0 <= i < b.content@.len() implies c3[i] == c1[i] by {
                let px = coord_x(b.area, i);
                if px >= lay.ca.x && lay.bw + lay.bg >= 1 {
                    vstd::arithmetic::div_mod::lemma_div_pos_is_pos(px - lay.ca.x, lay_pgw(lay));
                    assert(bar_group_of(lay, px) >= 0);
                    assert(!bar_covers(lay, px, coord_y(b.area, i)));
                }
            }
            let c4 = spec_value_labels(c3, b.area, area, lay, self.data.deep_view(), self.format,
                self.value_styles@);
            assert(c4 == c3);
            assert(self.spec_render(area, b) == c4);
        }
    }

    /// The component writes only within the target area: every cell of
    /// the grid that lies outside `area` is returned exactly as it was.
    pub proof fn lemma_render_confined(self, area: Rect, b: Buffer, i: int)
        requires
            b.wf(),
            area.wf(),
            0 <= i < b.content@.len(),
            !area.contains(coord_x(b.area, i), coord_y(b.area, i)),
            self.spec_active(area) ==> self.spec_series_count() >= 1 && 1 <= spec_per_group_width(
                self.bar_width as int,
                self.bar_gap as int,
                self.group_gap as int,
                self.spec_series_count(),
            ),
        ensures
            self.spec_render(area, b).len() == b.content@.len(),
            self.spec_render(area, b)[i] == b.content@[i],
    {
        let ca = self.spec_chart_area(area);
        let px = coord_x(b.area, i);
        let py = coord_y(b.area, i);
        if self.spec_active(area) {
            let lay = self.spec_layout(area);
            assert(lay.ca == ca);
            assert(ca.x >= area.x && ca.y >= area.y && ca.x + ca.width <= area.x + area.width
                && ca.y + ca.height <= area.y + area.height);
            assert(lay.m * lay_pgw(lay) <= lay.ca.width + lay.gg + lay.bg) by {
                let w2 = ca.width + self.group_gap + self.bar_gap;
                vstd::arithmetic::div_mod::lemma_div_pos_is_pos(w2, lay_pgw(lay));
                if lay.m >= 1 {
                    lemma_mul_le_of_div(lay.m, w2, lay_pgw(lay));
                } else {
                    assert(lay.m * lay_pgw(lay) <= 0) by (nonlinear_arith)
                        requires
                            lay.m <= 0,
                            lay_pgw(lay) >= 1,
                    ;
                }
            }
            assert(lay_wf(lay));
            let c1 = spec_set_style_region(b.content@, b.area, area, self.style);
            assert(c1[i] == b.content@[i]);
            let c2 = if self.block is Some {
                spec_draw_border(c1, b.area, area)
            } else {
                c1
            };
            assert(c2[i] == b.content@[i]);
            let c3 = spec_paint_bars(c2, b.area, lay, self.spec_heights(area), self.bar_set,
                self.bar_styles@);
            assert(c3[i] == c2[i]) by {
                if bar_covers(lay, px, py) {
                    let pgw = lay_pgw(lay);
                    let sden = lay.bw + lay.bg;
                    let off = px - lay.ca.x;
                    vstd::arithmetic::div_mod::lemma_div_pos_is_pos(off, pgw);
                    vstd::arithmetic::div_mod::lemma_mod_division_less_than_divisor(off, pgw);
                    let rem = off % pgw;
                    vstd::arithmetic::div_mod::lemma_div_pos_is_pos(rem, sden);
                    vstd::arithmetic::div_mod::lemma_mod_division_less_than_divisor(rem, sden);
                    lemma_bar_decompose(lay, bar_group_of(lay, px), bar_series_of(lay, px),
                        bar_x_of(lay, px));
                    lemma_bar_reconstruct(lay, px);
                    assert(px < lay.ca.x + lay.ca.width);
                    assert(area.contains(px, py));
                    assert(false);
                }
            }
            let c4 = spec_value_labels(c3, b.area, area, lay, self.data.deep_view(), self.format,
                self.value_styles@);
            assert(c4[i] == c3[i]) by {
                assert forall|g2: int, s: int|
                    0 <= g2 < lay.m && 0 <= s < lay.n && self.data.deep_view()[g2][s] != 0 implies
                    !value_label_touches(area, lay, self.data.deep_view(), self.format, g2, s, px,
                        py) by {
                    if value_label_touches(area, lay, self.data.deep_view(), self.format, g2, s,
                        px, py) {
                        assert(area.contains(px, py));
                    }
                }
                lemma_vl_groups_frame(c3, b.area, area, lay, self.data.deep_view(), self.format,
                    self.value_styles@, 0, i);
            }
            let k = if lay.m <= self.labels@.len() {
                lay.m
            } else {
                self.labels@.len() as int
            };
            lemma_vl_groups_len(c3, b.area, area, lay, self.data.deep_view(), self.format,
                self.value_styles@, 0);
            lemma_cat_from_len(c4, b.area, area, lay, self.labels.deep_view(), self.label_style, k,
                0);
            lemma_cat_from_frame(c4, b.area, area, lay, self.labels.deep_view(), self.label_style,
                k, 0, i);
        }
    }
}

} // verus!
