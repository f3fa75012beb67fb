use vstd::prelude::*;
use vstd::arithmetic::div_mod::{lemma_fundamental_div_mod, lemma_fundamental_div_mod_converse_div, lemma_fundamental_div_mod_converse_mod};
use crate::buffer::{Buffer, graphemes_of, string_cell};
use crate::cell::{CellView, Color, Style, blank_cell, styled};
use crate::labels::{
    decimal, decimal_label, decimal_len, hex_label, hex_pair, is_printable, lemma_u64_decimal_len,
    padded_zero, printable_char, zero_label,
};
use crate::cell::char_text;

verus! {

/// Rows of a horizontal chart, labels included.
pub const CHART_HEIGHT: usize = 25;
/// Columns kept free at the right edge.
pub const RIGHT_MARGIN: usize = 1;
/// Columns of one bar of a horizontal chart.
pub const BAR_WIDTH: usize = 2;
/// Blank cells between two bars.
pub const BAR_MARGIN: usize = 1;
/// Rows above the first bar of a vertical chart.
pub const TOP_MARGIN: usize = 2;
/// Rows below the last bar of a vertical chart.
pub const BOTTOM_MARGIN: usize = 1;
/// Columns before the bars of a vertical chart.
pub const LEFT_MARGIN: usize = 3;
/// Rows of one bar of a vertical chart.
pub const BAR_HEIGHT: usize = 1;

/// The two chart layouts. A horizontal chart is wider than tall: its bars
/// stand upright side by side. A vertical chart stacks bars that grow rightwards.
#[derive(PartialEq, Eq, Structural, Clone, Copy, Debug)]
pub enum BarGraph {
    Horizontal,
    Vertical,
}

/// The largest count of a distribution; 0 when it is empty.
pub open spec fn max_count(d: Seq<(u8, u64)>) -> nat
    decreases d.len(),
{
    if d.len() == 0 {
        0
    } else {
        let m = max_count(d.drop_last());
        if d.last().1 as nat > m {
            d.last().1 as nat
        } else {
            m
        }
    }
}

pub proof fn lemma_max_count(d: Seq<(u8, u64)>)
    ensures
        forall|i: int| 0 <= i < d.len() ==> #[trigger] d[i].1 <= max_count(d),
        max_count(d) <= u64::MAX,
    decreases d.len(),
{
    if d.len() > 0 {
        lemma_max_count(d.drop_last());
        assert forall|i: int| 0 <= i < d.len() implies #[trigger] d[i].1 <= max_count(d) by {
            if i < d.len() - 1 {
                assert(d[i] == d.drop_last()[i]);
            }
        }
    }
}

/// The largest count of `distribution`; 0 when it is empty.
pub fn max_occurrences(distribution: &Vec<(u8, u64)>) -> (r: u64)
    ensures
        r == max_count(distribution@),
{
    let mut m: u64 = 0;
    let mut i: usize = 0;
    while i < distribution.len()
        invariant
            i <= distribution@.len(),
            m == max_count(distribution@.take(i as int)),
        decreases distribution@.len() - i,
    {
        assert(distribution@.take(i as int + 1).drop_last() =~= distribution@.take(i as int));
        if distribution[i].1 > m {
            m = distribution[i].1;
        }
        i = i + 1;
    }
    assert(distribution@.take(i as int) =~= distribution@);
    m
}

/// The length of a bar in eighths of a cell: `span` cells stand for `max`.
pub open spec fn eighths(span: nat, n: nat, max: nat) -> nat {
    if max == 0 {
        0
    } else {
        (span * 8 * n) / max
    }
}

proof fn lemma_eighths_bound(span: nat, n: nat, max: nat)
    requires
        n <= max,
    ensures
        eighths(span, n, max) <= span * 8,
        max > 0 && n == max ==> eighths(span, n, max) == span * 8,
{
    if max > 0 {
        let a = span * 8;
        lemma_fundamental_div_mod((a * n) as int, max as int);
        let q = (a * n) / max;
        let m = (a * n) % max;
        assert(a * n <= a * max) by (nonlinear_arith)
            requires n <= max;
        assert(q <= a) by (nonlinear_arith)
            requires a * n == max * q + m, 0 <= m, a * n <= a * max, max > 0;
        if n == max {
            lemma_fundamental_div_mod_converse_div((a * n) as int, max as int, a as int, 0);
        }
    }
}

/// Every bar of a horizontal chart fits below its top label row, and a bar of
/// the largest count fills exactly `CHART_HEIGHT - 1` whole rows.
pub proof fn lemma_bar_fits_chart(n: u64, max: u64)
    requires
        n <= max,
    ensures
        eighths((CHART_HEIGHT - 1) as nat, n as nat, max as nat) <= (CHART_HEIGHT - 1) * 8,
        max > 0 && n == max ==> eighths((CHART_HEIGHT - 1) as nat, n as nat, max as nat) / 8
            == CHART_HEIGHT - 1 && eighths((CHART_HEIGHT - 1) as nat, n as nat, max as nat) % 8
            == 0,
{
    lemma_eighths_bound((CHART_HEIGHT - 1) as nat, n as nat, max as nat);
}

/// A bar's whole cells and its remainder in eighths.
pub fn bar_eighths(span: usize, n: u64, max: u64) -> (r: (usize, usize))
    requires
        n <= max,
        span <= 0xffff,
    ensures
        r.0 == eighths(span as nat, n as nat, max as nat) / 8,
        r.1 == eighths(span as nat, n as nat, max as nat) % 8,
        r.0 <= span,
        r.0 == span ==> r.1 == 0,
{
    proof {
        lemma_eighths_bound(span as nat, n as nat, max as nat);
    }
    if max == 0 {
        (0, 0)
    } else {
        let a: u128 = (span as u128) * 8;
        assert(a * n <= 0xffff * 8 * 0xffff_ffff_ffff_ffff) by (nonlinear_arith)
            requires a <= 0xffff * 8, n <= 0xffff_ffff_ffff_ffff;
        let e: u128 = a * (n as u128) / (max as u128);
        assert(e == eighths(span as nat, n as nat, max as nat)) by {
            assert(a * n == span * 8 * n);
        }
        ((e / 8) as usize, (e % 8) as usize)
    }
}

/// The block glyph that fills `level` eighths of a cell, anchored at the bar's
/// base: the bottom for upright bars, the left for bars that grow rightwards.
pub open spec fn glyph(graph: BarGraph, level: nat) -> char {
    if level >= 8 {
        '\u{2588}'
    } else {
        match graph {
            BarGraph::Horizontal => ((0x2580 + level) as u32) as char,
            BarGraph::Vertical => ((0x2590 - level) as u32) as char,
        }
    }
}

/// The block glyph for `level` eighths, from 1 to 8.
pub fn glyph_char(graph: BarGraph, level: usize) -> (r: char)
    requires
        1 <= level <= 8,
    ensures
        r == glyph(graph, level as nat),
{
    match graph {
        BarGraph::Horizontal => match level {
            1 => '\u{2581}',
            2 => '\u{2582}',
            3 => '\u{2583}',
            4 => '\u{2584}',
            5 => '\u{2585}',
            6 => '\u{2586}',
            7 => '\u{2587}',
            _ => '\u{2588}',
        },
        BarGraph::Vertical => match level {
            1 => '\u{258f}',
            2 => '\u{258e}',
            3 => '\u{258d}',
            4 => '\u{258c}',
            5 => '\u{258b}',
            6 => '\u{258a}',
            7 => '\u{2589}',
            _ => '\u{2588}',
        },
    }
}

/// The color that bars and their labels are drawn in.
pub open spec fn bar_color() -> Color {
    Color::White
}

/// A cell of bar glyph `c`.
pub open spec fn bar_cell(c: char) -> CellView {
    CellView { symbol: seq![c], fg: bar_color(), bg: Color::Reset }
}

/// The cell `p` steps from a bar's base along its growth: whole blocks, then
/// the remainder glyph, then nothing.
pub open spec fn body_cell(graph: BarGraph, full: nat, rem: nat, p: int) -> CellView {
    if 0 <= p < full {
        bar_cell(glyph(graph, 8))
    } else if p == full && rem > 0 {
        bar_cell(glyph(graph, rem))
    } else {
        blank_cell()
    }
}

/// Column of the first cell of bar `i`; `left` is the horizontal chart's left margin.
pub open spec fn lane_x(graph: BarGraph, left: int, i: int) -> int {
    match graph {
        BarGraph::Horizontal => left + i * (BAR_WIDTH + BAR_MARGIN),
        BarGraph::Vertical => LEFT_MARGIN as int,
    }
}

/// Row of the base of bar `i`.
pub open spec fn lane_y(graph: BarGraph, i: int) -> int {
    match graph {
        BarGraph::Horizontal => CHART_HEIGHT - 2,
        BarGraph::Vertical => TOP_MARGIN + i * (BAR_HEIGHT + BAR_MARGIN),
    }
}

/// The cells that belong to bar `i`: its columns in a horizontal chart, its row
/// in a vertical one.
pub open spec fn in_lane(graph: BarGraph, left: int, i: int, x: int, y: int) -> bool {
    match graph {
        BarGraph::Horizontal => lane_x(graph, left, i) <= x < lane_x(graph, left, i) + BAR_WIDTH,
        BarGraph::Vertical => y == lane_y(graph, i),
    }
}

/// Steps from the bar's base along its growth direction.
pub open spec fn primary(graph: BarGraph, x: int, y: int) -> int {
    match graph {
        BarGraph::Horizontal => (CHART_HEIGHT - 2) - y,
        BarGraph::Vertical => x - LEFT_MARGIN,
    }
}

/// Offset across the bar's thickness.
pub open spec fn cross(graph: BarGraph, left: int, i: int, x: int, y: int) -> int {
    match graph {
        BarGraph::Horizontal => x - lane_x(graph, left, i),
        BarGraph::Vertical => y - lane_y(graph, i),
    }
}

pub open spec fn thickness(graph: BarGraph) -> int {
    match graph {
        BarGraph::Horizontal => BAR_WIDTH as int,
        BarGraph::Vertical => BAR_HEIGHT as int,
    }
}

/// Where the hex label of bar `i` starts: on the base when the bar has a whole
/// block, else one step further along the bar.
pub open spec fn label_x(graph: BarGraph, left: int, i: int, full: nat) -> int {
    match graph {
        BarGraph::Horizontal => lane_x(graph, left, i),
        BarGraph::Vertical => if full > 0 {
            LEFT_MARGIN as int
        } else {
            LEFT_MARGIN + 1
        },
    }
}

pub open spec fn label_y(graph: BarGraph, i: int, full: nat) -> int {
    match graph {
        BarGraph::Horizontal => if full > 0 {
            CHART_HEIGHT - 2
        } else {
            CHART_HEIGHT - 3
        },
        BarGraph::Vertical => lane_y(graph, i),
    }
}

/// Inverted over a whole block, in the bar's color beside a short bar.
pub open spec fn label_style(full: nat) -> Style {
    if full > 0 {
        Style { fg: Some(Color::Black), bg: Some(bar_color()) }
    } else {
        Style { fg: Some(bar_color()), bg: None }
    }
}

/// Where the printable glyph of bar `i`'s byte goes.
pub open spec fn ascii_x(graph: BarGraph, left: int, i: int) -> int {
    match graph {
        BarGraph::Horizontal => lane_x(graph, left, i),
        BarGraph::Vertical => 1,
    }
}

pub open spec fn ascii_y(graph: BarGraph, i: int) -> int {
    match graph {
        BarGraph::Horizontal => CHART_HEIGHT - 1,
        BarGraph::Vertical => lane_y(graph, i),
    }
}

/// The content of cell `(x, y)` of bar `i`'s lane, for byte `byte` whose bar
/// has `full` whole blocks and `rem` eighths more, in a buffer of width `w`.
pub open spec fn lane_cell(
    graph: BarGraph,
    w: int,
    left: int,
    i: int,
    byte: u8,
    full: nat,
    rem: nat,
    x: int,
    y: int,
) -> CellView {
    let g = graphemes_of(hex_pair(byte));
    let lx = label_x(graph, left, i, full);
    let body = body_cell(graph, full, rem, primary(graph, x, y));
    if x == ascii_x(graph, left, i) && y == ascii_y(graph, i) && is_printable(byte) {
        bar_cell(byte as char)
    } else if y == label_y(graph, i, full) && lx <= x < lx + g.len() && x < w {
        styled(CellView { symbol: g[x - lx], ..body }, label_style(full))
    } else {
        body
    }
}

/// Whether bar `i`'s lane lies inside a `w` by `h` buffer with room for its
/// bar of `span` cells and its labels.
pub open spec fn lane_fits(graph: BarGraph, w: int, h: int, left: int, i: int, span: nat) -> bool {
    &&& i >= 0
    &&& match graph {
        BarGraph::Horizontal => {
            &&& h == CHART_HEIGHT
            &&& left >= 0
            &&& lane_x(graph, left, i) + BAR_WIDTH <= w
            &&& span == CHART_HEIGHT - 1
        },
        BarGraph::Vertical => {
            &&& lane_y(graph, i) < h
            &&& w >= LEFT_MARGIN + RIGHT_MARGIN + 1
            &&& span == w - LEFT_MARGIN - RIGHT_MARGIN
        },
    }
}

/// Paints bar `i` of byte `byte` with count `n` into its lane, which must be
/// blank: its blocks, its hex label, and its printable glyph. Cells outside
/// the lane stay as they were.
pub fn paint_bar(
    buf: &mut Buffer,
    graph: BarGraph,
    left: usize,
    i: usize,
    byte: u8,
    n: u64,
    max: u64,
    span: usize,
)
    requires
        old(buf).wf(),
        n <= max,
        span <= 0xffff,
        lane_fits(graph, old(buf)@.width as int, old(buf)@.height as int, left as int, i as int, span as nat),
        forall|x: int, y: int|
            #![trigger old(buf)@.at(x, y)]
            old(buf)@.in_bounds(x, y) && in_lane(graph, left as int, i as int, x, y) ==> old(buf)@.at(x, y)
                == blank_cell(),
    ensures
        final(buf).wf(),
        final(buf)@.width == old(buf)@.width,
        final(buf)@.height == old(buf)@.height,
        forall|x: int, y: int|
            #![trigger final(buf)@.at(x, y)]
            old(buf)@.in_bounds(x, y) ==> final(buf)@.at(x, y) == if in_lane(graph, left as int, i as int, x, y) {
                lane_cell(
                    graph,
                    old(buf)@.width as int,
                    left as int,
                    i as int,
                    byte,
                    eighths(span as nat, n as nat, max as nat) / 8,
                    eighths(span as nat, n as nat, max as nat) % 8,
                    x,
                    y,
                )
            } else {
                old(buf)@.at(x, y)
            },
{
    let ghost start = buf@;
    let (full, rem) = bar_eighths(span, n, max);
    let top: usize = if rem > 0 { full + 1 } else { full };
    let thick: usize = match graph {
        BarGraph::Horizontal => BAR_WIDTH,
        BarGraph::Vertical => BAR_HEIGHT,
    };
    let mut p: usize = 0;
    while p < top
        invariant
            buf.wf(),
            buf@.width == start.width,
            buf@.height == start.height,
            lane_fits(graph, start.width as int, start.height as int, left as int, i as int, span as nat),
            full == eighths(span as nat, n as nat, max as nat) / 8,
            rem == eighths(span as nat, n as nat, max as nat) % 8,
            full <= span,
            full == span ==> rem == 0,
            rem < 8,
            top == (if rem > 0 { full + 1 } else { full as int }),
            thick == thickness(graph),
            p <= top,
            forall|x: int, y: int|
                #![trigger start.at(x, y)]
                start.in_bounds(x, y) && in_lane(graph, left as int, i as int, x, y) ==> start.at(x, y)
                    == blank_cell(),
            forall|x: int, y: int|
                #![trigger buf@.at(x, y)]
                start.in_bounds(x, y) ==> buf@.at(x, y) == if in_lane(graph, left as int, i as int, x, y)
                    && primary(graph, x, y) < p {
                    body_cell(graph, full as nat, rem as nat, primary(graph, x, y))
                } else {
                    start.at(x, y)
                },
        decreases top - p,
    {
        let c = if p < full {
            glyph_char(graph, 8)
        } else {
            glyph_char(graph, rem)
        };
        let mut k: usize = 0;
        while k < thick
            invariant
                buf.wf(),
                buf@.width == start.width,
                buf@.height == start.height,
                lane_fits(graph, start.width as int, start.height as int, left as int, i as int, span as nat),
                full == eighths(span as nat, n as nat, max as nat) / 8,
                rem == eighths(span as nat, n as nat, max as nat) % 8,
                full <= span,
                full == span ==> rem == 0,
                rem < 8,
                top == (if rem > 0 { full + 1 } else { full as int }),
                thick == thickness(graph),
                p < top,
                k <= thick,
                bar_cell(c) == body_cell(graph, full as nat, rem as nat, p as int),
                forall|x: int, y: int|
                    #![trigger start.at(x, y)]
                    start.in_bounds(x, y) && in_lane(graph, left as int, i as int, x, y) ==> start.at(x, y)
                        == blank_cell(),
                forall|x: int, y: int|
                    #![trigger buf@.at(x, y)]
                    start.in_bounds(x, y) ==> buf@.at(x, y) == if in_lane(graph, left as int, i as int, x, y)
                        && (primary(graph, x, y) < p || (primary(graph, x, y) == p && cross(
                        graph,
                        left as int,
                        i as int,
                        x,
                        y,
                    ) < k)) {
                        body_cell(graph, full as nat, rem as nat, primary(graph, x, y))
                    } else {
                        start.at(x, y)
                    },
            decreases thick - k,
        {
            let (x, y) = match graph {
                BarGraph::Horizontal => (left + i * (BAR_WIDTH + BAR_MARGIN) + k, (CHART_HEIGHT - 2) - p),
                BarGraph::Vertical => (LEFT_MARGIN + p, TOP_MARGIN + i * (BAR_HEIGHT + BAR_MARGIN) + k),
            };
            assert(in_lane(graph, left as int, i as int, x as int, y as int));
            assert(primary(graph, x as int, y as int) == p);
            assert(cross(graph, left as int, i as int, x as int, y as int) == k);
            let ghost before = buf@;
            buf.get_mut(x, y).set_char(c).set_fg(Color::White);
            proof {
                assert forall|px: int, py: int| start.in_bounds(px, py) implies #[trigger] buf@.at(px, py)
                    == if in_lane(graph, left as int, i as int, px, py) && (primary(graph, px, py) < p || (
                    primary(graph, px, py) == p && cross(graph, left as int, i as int, px, py) < k + 1)) {
                    body_cell(graph, full as nat, rem as nat, primary(graph, px, py))
                } else {
                    start.at(px, py)
                } by {
                    crate::buffer::lemma_index_in_bounds(start.width as int, start.height as int, px, py);
                    if px != x || py != y {
                        crate::buffer::lemma_index_in_bounds(start.width as int, start.height as int, x as int, y as int);
                        if px + py * start.width == x + y * start.width {
                            crate::buffer::lemma_index_injective(start.width as int, px, py, x as int, y as int);
                        }
                        assert(buf@.at(px, py) == before.at(px, py));
                    }
                }
            }
            k = k + 1;
        }
        p = p + 1;
    }
    let ghost mid = buf@;
    let lx: usize = match graph {
        BarGraph::Horizontal => left + i * (BAR_WIDTH + BAR_MARGIN),
        BarGraph::Vertical => if full > 0 { LEFT_MARGIN } else { LEFT_MARGIN + 1 },
    };
    let ly: usize = match graph {
        BarGraph::Horizontal => if full > 0 { CHART_HEIGHT - 2 } else { CHART_HEIGHT - 3 },
        BarGraph::Vertical => TOP_MARGIN + i * (BAR_HEIGHT + BAR_MARGIN),
    };
    let style = if full > 0 {
        Style { fg: Some(Color::Black), bg: Some(Color::White) }
    } else {
        Style { fg: Some(Color::White), bg: None }
    };
    let hex = hex_label(byte);
    buf.set_string(lx, ly, hex.as_str(), style);
    let ghost labelled = buf@;
    let ax: usize = match graph {
        BarGraph::Horizontal => left + i * (BAR_WIDTH + BAR_MARGIN),
        BarGraph::Vertical => 1,
    };
    let ay: usize = match graph {
        BarGraph::Horizontal => CHART_HEIGHT - 1,
        BarGraph::Vertical => TOP_MARGIN + i * (BAR_HEIGHT + BAR_MARGIN),
    };
    if let Some(c) = printable_char(byte) {
        buf.get_mut(ax, ay).set_char(c).set_fg(Color::White);
    }
    proof {
        let g = graphemes_of(hex_pair(byte));
        assert(g.len() <= 2);
        assert forall|px: int, py: int| start.in_bounds(px, py) implies #[trigger] buf@.at(px, py)
            == if in_lane(graph, left as int, i as int, px, py) {
            lane_cell(graph, start.width as int, left as int, i as int, byte, full as nat, rem as nat, px, py)
        } else {
            start.at(px, py)
        } by {
            crate::buffer::lemma_index_in_bounds(start.width as int, start.height as int, px, py);
            assert(labelled.at(px, py) == string_cell(mid, lx as int, ly as int, g, style, px, py));
            if px != ax || py != ay || !is_printable(byte) {
                crate::buffer::lemma_index_in_bounds(start.width as int, start.height as int, ax as int, ay as int);
                if is_printable(byte) && px + py * start.width == ax + ay * start.width {
                    crate::buffer::lemma_index_injective(start.width as int, px, py, ax as int, ay as int);
                }
                assert(buf@.at(px, py) == labelled.at(px, py));
            }
        }
    }
}

/// The left margin of a horizontal chart: the largest count's label and a gap.
pub open spec fn chart_left(max: nat) -> nat {
    decimal(max).len() + 1
}

/// How many bars fit across a horizontal chart of width `w`.
pub open spec fn bar_slots(w: nat, left: nat) -> nat {
    if w >= left + RIGHT_MARGIN {
        ((w - left - RIGHT_MARGIN) as nat / (BAR_WIDTH + BAR_MARGIN) as nat) as nat
    } else {
        0
    }
}

/// How many entries of `d` get a bar: all in a vertical chart, those that fit
/// in a horizontal one.
pub open spec fn shown_bars(graph: BarGraph, d: Seq<(u8, u64)>, w: nat) -> nat {
    match graph {
        BarGraph::Horizontal => {
            let slots = bar_slots(w, chart_left(max_count(d)));
            if d.len() < slots {
                d.len()
            } else {
                slots
            }
        },
        BarGraph::Vertical => d.len(),
    }
}

/// The height of the chart of `d`.
pub open spec fn chart_rows(graph: BarGraph, d: Seq<(u8, u64)>) -> nat {
    match graph {
        BarGraph::Horizontal => CHART_HEIGHT as nat,
        BarGraph::Vertical => (TOP_MARGIN + (BAR_HEIGHT + BAR_MARGIN) * d.len() + BOTTOM_MARGIN) as nat,
    }
}

/// How many cells a bar of the largest count covers.
pub open spec fn bar_span(graph: BarGraph, w: nat) -> nat {
    match graph {
        BarGraph::Horizontal => (CHART_HEIGHT - 1) as nat,
        BarGraph::Vertical => (w - LEFT_MARGIN - RIGHT_MARGIN) as nat,
    }
}

/// The bar whose lane holds `(x, y)`, or -1 for a cell of no lane.
pub open spec fn lane_index(graph: BarGraph, left: int, x: int, y: int) -> int {
    match graph {
        BarGraph::Horizontal => {
            let step = (BAR_WIDTH + BAR_MARGIN) as int;
            if x >= left && (x - left) % step < BAR_WIDTH {
                (x - left) / step
            } else {
                -1
            }
        },
        BarGraph::Vertical => {
            let step = (BAR_HEIGHT + BAR_MARGIN) as int;
            if y >= TOP_MARGIN && (y - TOP_MARGIN) % step < BAR_HEIGHT {
                (y - TOP_MARGIN) / step
            } else {
                -1
            }
        },
    }
}

/// Cell `(x, y)` of the text `g` written from `(x0, y0)` with no style.
pub open spec fn text_hit(g: Seq<Seq<char>>, x0: int, y0: int, x: int, y: int) -> bool {
    y == y0 && x0 <= x < x0 + g.len()
}

pub open spec fn text_cell(g: Seq<Seq<char>>, x0: int, x: int) -> CellView {
    CellView { symbol: g[x - x0], ..blank_cell() }
}

/// The axis labels of a chart whose largest count is `max`, and blank cells
/// elsewhere. A horizontal chart shows `max` at the top left and a `0` aligned
/// with it on the baseline; a vertical one shows `0` above the bars' start and
/// `max` at the top right.
pub open spec fn axes_cell(graph: BarGraph, w: int, max: nat, x: int, y: int) -> CellView {
    let top = graphemes_of(decimal(max));
    match graph {
        BarGraph::Horizontal => {
            let zero = graphemes_of(padded_zero(decimal(max).len()));
            if text_hit(zero, 0, CHART_HEIGHT - 2, x, y) {
                text_cell(zero, 0, x)
            } else if text_hit(top, 0, 0, x, y) {
                text_cell(top, 0, x)
            } else {
                blank_cell()
            }
        },
        BarGraph::Vertical => {
            let zero = graphemes_of(seq!['0']);
            let x0 = w - decimal(max).len() - RIGHT_MARGIN;
            if text_hit(top, x0, 0, x, y) {
                text_cell(top, x0, x)
            } else if text_hit(zero, LEFT_MARGIN as int, 0, x, y) {
                text_cell(zero, LEFT_MARGIN as int, x)
            } else {
                blank_cell()
            }
        },
    }
}

/// Cell `(x, y)` of the chart of distribution `d` on a terminal `w` columns wide.
pub open spec fn chart_cell(graph: BarGraph, d: Seq<(u8, u64)>, w: int, x: int, y: int) -> CellView {
    let max = max_count(d);
    let left = chart_left(max) as int;
    let j = lane_index(graph, left, x, y);
    if 0 <= j < shown_bars(graph, d, w as nat) {
        let e = eighths(bar_span(graph, w as nat), d[j].1 as nat, max);
        lane_cell(graph, w, left, j, d[j].0, e / 8, e % 8, x, y)
    } else {
        axes_cell(graph, w, max, x, y)
    }
}

/// The cells of bar `j`'s lane are those whose lane index is `j`.
proof fn lemma_lane_index(graph: BarGraph, left: int, j: int, x: int, y: int)
    requires
        j >= 0,
    ensures
        in_lane(graph, left, j, x, y) <==> lane_index(graph, left, x, y) == j,
{
    match graph {
        BarGraph::Horizontal => {
            if in_lane(graph, left, j, x, y) {
                lemma_fundamental_div_mod_converse_div(x - left, 3, j, x - left - 3 * j);
                lemma_fundamental_div_mod_converse_mod(x - left, 3, j, x - left - 3 * j);
            }
            if lane_index(graph, left, x, y) == j {
                lemma_fundamental_div_mod(x - left, 3);
            }
        },
        BarGraph::Vertical => {
            if in_lane(graph, left, j, x, y) {
                lemma_fundamental_div_mod_converse_div(y - 2, 2, j, 0);
                lemma_fundamental_div_mod_converse_mod(y - 2, 2, j, 0);
            }
            if lane_index(graph, left, x, y) == j {
                lemma_fundamental_div_mod(y - 2, 2);
            }
        },
    }
}

/// Lays out `distribution` as a chart of the given kind on a terminal `width`
/// columns wide: one bar per entry in the given order, each scaled so that the
/// largest count fills the chart's span, quantized to eighths of a cell.
pub fn draw_distribution(distribution: &Vec<(u8, u64)>, graph: BarGraph, width: u16) -> (r: Buffer)
    requires
        width >= 1,
        graph == BarGraph::Vertical ==> {
            &&& width >= LEFT_MARGIN + RIGHT_MARGIN + 1
            &&& width >= decimal(max_count(distribution@)).len() + RIGHT_MARGIN
            &&& distribution@.len() <= 256
        },
    ensures
        r.wf(),
        r@.width == width,
        r@.height == chart_rows(graph, distribution@),
        forall|x: int, y: int|
            #![trigger r@.at(x, y)]
            r@.in_bounds(x, y) ==> r@.at(x, y) == chart_cell(graph, distribution@, width as int, x, y),
{
    let ghost d = distribution@;
    let max = max_occurrences(distribution);
    proof {
        lemma_max_count(d);
        lemma_u64_decimal_len(max);
    }
    let label = decimal_label(max);
    let len = decimal_len(max);
    let left: usize = len + 1;
    let w = width as usize;
    let no_style = Style::default();
    let (mut buf, shown, span) = match graph {
        BarGraph::Horizontal => {
            let mut buf = Buffer::empty(w, CHART_HEIGHT);
            let ghost b0 = buf@;
            buf.set_string(0, 0, label.as_str(), no_style);
            let ghost b1 = buf@;
            let zero = zero_label(len);
            buf.set_string(0, CHART_HEIGHT - 2, zero.as_str(), no_style);
            proof {
                assert forall|x: int, y: int| buf@.in_bounds(x, y) implies #[trigger] buf@.at(x, y)
                    == axes_cell(graph, w as int, max as nat, x, y) by {
                    crate::buffer::lemma_index_in_bounds(w as int, CHART_HEIGHT as int, x, y);
                    assert(b0.at(x, y) == blank_cell());
                    assert(b1.at(x, y) == string_cell(b0, 0, 0, graphemes_of(label@), no_style, x, y));
                }
            }
            let slots: usize = if w >= left + RIGHT_MARGIN {
                (w - left - RIGHT_MARGIN) / (BAR_WIDTH + BAR_MARGIN)
            } else {
                0
            };
            let shown = if distribution.len() < slots { distribution.len() } else { slots };
            proof {
                if w >= left + RIGHT_MARGIN {
                    lemma_fundamental_div_mod((w - left - RIGHT_MARGIN) as int, 3);
                }
            }
            (buf, shown, CHART_HEIGHT - 1)
        },
        BarGraph::Vertical => {
            let h: usize = TOP_MARGIN + (BAR_HEIGHT + BAR_MARGIN) * distribution.len() + BOTTOM_MARGIN;
            assert(w * h <= 0xffff * 515) by (nonlinear_arith)
                requires w <= 0xffff, h <= 515;
            let mut buf = Buffer::empty(w, h);
            let ghost b0 = buf@;
            let zero = char_text('0');
            buf.set_string(LEFT_MARGIN, 0, zero.as_str(), no_style);
            let ghost b1 = buf@;
            buf.set_string(w - len - RIGHT_MARGIN, 0, label.as_str(), no_style);
            proof {
                assert forall|x: int, y: int| buf@.in_bounds(x, y) implies #[trigger] buf@.at(x, y)
                    == axes_cell(graph, w as int, max as nat, x, y) by {
                    crate::buffer::lemma_index_in_bounds(w as int, h as int, x, y);
                    assert(b0.at(x, y) == blank_cell());
                    assert(b1.at(x, y) == string_cell(b0, LEFT_MARGIN as int, 0, graphemes_of(zero@), no_style, x, y));
                }
            }
            (buf, distribution.len(), w - LEFT_MARGIN - RIGHT_MARGIN)
        },
    };
    assert(forall|x: int, y: int|
        #![trigger buf@.at(x, y)]
        buf@.in_bounds(x, y) ==> buf@.at(x, y) == axes_cell(graph, w as int, max as nat, x, y));
    let mut i: usize = 0;
    while i < shown
        invariant
            buf.wf(),
            buf@.width == w,
            buf@.height == chart_rows(graph, d),
            d == distribution@,
            max == max_count(d),
            left == chart_left(max as nat),
            shown == shown_bars(graph, d, w as nat),
            span == bar_span(graph, w as nat),
            span <= 0xffff,
            i <= shown,
            forall|k: int| 0 <= k < d.len() ==> #[trigger] d[k].1 <= max,
            graphemes_of(decimal(max as nat)).len() <= decimal(max as nat).len(),
            graph == BarGraph::Horizontal ==> graphemes_of(padded_zero(decimal(max as nat).len())).len()
                <= decimal(max as nat).len(),
            graph == BarGraph::Horizontal ==> 3 * shown + left + RIGHT_MARGIN <= w || shown == 0,
            graph == BarGraph::Vertical ==> {
                &&& w >= LEFT_MARGIN + RIGHT_MARGIN + 1
                &&& shown == d.len()
            },
            forall|x: int, y: int|
                #![trigger buf@.at(x, y)]
                buf@.in_bounds(x, y) ==> buf@.at(x, y) == ({
                    let j = lane_index(graph, left as int, x, y);
                    if 0 <= j < i {
                        let e = eighths(span as nat, d[j].1 as nat, max as nat);
                        lane_cell(graph, w as int, left as int, j, d[j].0, e / 8, e % 8, x, y)
                    } else {
                        axes_cell(graph, w as int, max as nat, x, y)
                    }
                }),
        decreases shown - i,
    {
        let (byte, n) = distribution[i];
        let ghost before = buf@;
        proof {
            assert forall|x: int, y: int|
                #![trigger before.at(x, y)]
                before.in_bounds(x, y) && in_lane(graph, left as int, i as int, x, y) implies before.at(x, y) == blank_cell() by {
                lemma_lane_index(graph, left as int, i as int, x, y);
                assert(before.at(x, y) == axes_cell(graph, w as int, max as nat, x, y));
            }
        }
        paint_bar(&mut buf, graph, left, i, byte, n, max, span);
        proof {
            assert forall|x: int, y: int| buf@.in_bounds(x, y) implies #[trigger] buf@.at(x, y) == ({
                let j = lane_index(graph, left as int, x, y);
                if 0 <= j < i + 1 {
                    let e = eighths(span as nat, d[j].1 as nat, max as nat);
                    lane_cell(graph, w as int, left as int, j, d[j].0, e / 8, e % 8, x, y)
                } else {
                    axes_cell(graph, w as int, max as nat, x, y)
                }
            }) by {
                lemma_lane_index(graph, left as int, i as int, x, y);
                assert(before.at(x, y) == buf@.at(x, y) || in_lane(graph, left as int, i as int, x, y));
            }
        }
        i = i + 1;
    }
    buf
}

/// A horizontal chart (bars standing side by side) of `distribution`, 25 rows
/// high, keeping the bars that fit across `width` columns.
pub fn draw_horizontal_distribution(distribution: &Vec<(u8, u64)>, width: u16) -> (r: Buffer)
    requires
        width >= 1,
    ensures
        r.wf(),
        r@.width == width,
        r@.height == CHART_HEIGHT,
        forall|x: int, y: int|
            #![trigger r@.at(x, y)]
            r@.in_bounds(x, y) ==> r@.at(x, y) == chart_cell(BarGraph::Horizontal, distribution@, width as int, x, y),
{
    draw_distribution(distribution, BarGraph::Horizontal, width)
}

/// A vertical chart (bars growing rightwards, one row each) of `distribution`
/// across `width` columns.
pub fn draw_vertical_distribution(distribution: &Vec<(u8, u64)>, width: u16) -> (r: Buffer)
    requires
        width >= LEFT_MARGIN + RIGHT_MARGIN + 1,
        width >= decimal(max_count(distribution@)).len() + RIGHT_MARGIN,
        distribution@.len() <= 256,
    ensures
        r.wf(),
        r@.width == width,
        r@.height == TOP_MARGIN + (BAR_HEIGHT + BAR_MARGIN) * distribution@.len() + BOTTOM_MARGIN,
        forall|x: int, y: int|
            #![trigger r@.at(x, y)]
            r@.in_bounds(x, y) ==> r@.at(x, y) == chart_cell(BarGraph::Vertical, distribution@, width as int, x, y),
{
    draw_distribution(distribution, BarGraph::Vertical, width)
}

/// Why no chart can be laid out.
#[derive(PartialEq, Eq, Structural, Clone, Copy, Debug)]
pub enum LayoutError {
    /// The terminal is narrower than either layout needs.
    TerminalTooSmall,
}

/// The narrowest terminal that takes a vertical chart.
pub const MIN_VERTICAL_WIDTH: usize = 10;

/// Whether `d` entries with largest count `max` fit side by side in `w` columns.
pub open spec fn fits_horizontally(entries: nat, max: nat, w: nat) -> bool {
    chart_left(max) + RIGHT_MARGIN + entries * (BAR_WIDTH + BAR_MARGIN) <= w
}

/// The layout for `entries` entries with largest count `max` on `w` columns.
pub open spec fn graph_choice(entries: nat, max: nat, w: nat) -> Result<BarGraph, LayoutError> {
    if fits_horizontally(entries, max, w) {
        Ok(BarGraph::Horizontal)
    } else if w >= MIN_VERTICAL_WIDTH {
        Ok(BarGraph::Vertical)
    } else {
        Err(LayoutError::TerminalTooSmall)
    }
}

/// Picks horizontal when every bar fits across `width` columns, else vertical
/// when the terminal is wide enough for it, else fails.
pub fn choose_graph(distribution: &Vec<(u8, u64)>, width: u16) -> (r: Result<BarGraph, LayoutError>)
    ensures
        r == graph_choice(distribution@.len(), max_count(distribution@), width as nat),
{
    let max = max_occurrences(distribution);
    proof {
        lemma_u64_decimal_len(max);
    }
    let left: usize = decimal_len(max) + 1;
    let w = width as usize;
    let datapoints = distribution.len();
    let fits = if w >= left + RIGHT_MARGIN {
        let horizontal_max: usize = (w - left - RIGHT_MARGIN) / (BAR_WIDTH + BAR_MARGIN);
        proof {
            lemma_fundamental_div_mod((w - left - RIGHT_MARGIN) as int, 3);
        }
        datapoints <= horizontal_max
    } else {
        false
    };
    if fits {
        Ok(BarGraph::Horizontal)
    } else if w >= MIN_VERTICAL_WIDTH {
        Ok(BarGraph::Vertical)
    } else {
        Err(LayoutError::TerminalTooSmall)
    }
}

/// When the horizontal layout is chosen, every entry of the distribution gets
/// its bar: none is cut off at the right edge.
pub proof fn lemma_horizontal_choice_shows_all(d: Seq<(u8, u64)>, w: u16)
    requires
        graph_choice(d.len(), max_count(d), w as nat) == Ok::<BarGraph, LayoutError>(BarGraph::Horizontal),
    ensures
        shown_bars(BarGraph::Horizontal, d, w as nat) == d.len(),
{
    let left = chart_left(max_count(d));
    lemma_fundamental_div_mod((w - left - RIGHT_MARGIN) as int, 3);
    lemma_fundamental_div_mod_converse_div(
        (w - left - RIGHT_MARGIN) as int,
        3,
        ((w - left - RIGHT_MARGIN) as int) / 3,
        ((w - left - RIGHT_MARGIN) as int) % 3,
    );
}

} // verus!
