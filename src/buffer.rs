use unicode_segmentation::UnicodeSegmentation;
use vstd::prelude::*;
use crate::cell::{Cell, CellView, Style, blank_cell, styled};

verus! {

/// The extended grapheme clusters of a text, in order.
pub uninterp spec fn graphemes_of(s: Seq<char>) -> Seq<Seq<char>>;

/// Relies on `UnicodeSegmentation::graphemes` with extended clusters: the text
/// cut into its grapheme clusters, which are non-empty and, joined in order,
/// give the text back.
#[verifier::external_body]
fn split_graphemes(s: &str) -> (r: Vec<String>)
    ensures
        r@.map_values(|g: String| g@) == graphemes_of(s@),
        r@.map_values(|g: String| g@).flatten() == s@,
        forall|k: int| 0 <= k < r@.len() ==> #[trigger] r@[k]@.len() > 0,
{
    s.graphemes(true).map(|g| g.to_string()).collect()
}

/// A text has no more grapheme clusters than characters.
pub proof fn lemma_graphemes_len(s: Seq<char>, gs: Seq<Seq<char>>)
    requires
        gs.flatten() == s,
        forall|k: int| 0 <= k < gs.len() ==> #[trigger] gs[k].len() > 0,
    ensures
        gs.len() <= s.len(),
    decreases gs.len(),
{
    if gs.len() > 0 {
        let rest = gs.drop_first();
        assert forall|k: int| 0 <= k < rest.len() implies #[trigger] rest[k].len() > 0 by {
            assert(rest[k] == gs[k + 1]);
        }
        lemma_graphemes_len(rest.flatten(), rest);
        assert(gs.flatten() == gs.first() + rest.flatten());
    }
}

/// What `set_string` leaves at `(px, y)`: on row `y`, from column `x`, as many
/// clusters of `gs` as fit before the right edge, styled; elsewhere the old cell.
pub open spec fn string_cell(
    b: BufferView,
    x: int,
    y: int,
    gs: Seq<Seq<char>>,
    style: Style,
    px: int,
    py: int,
) -> CellView {
    if py == y && x <= px < x + gs.len() && px < b.width {
        styled(CellView { symbol: gs[px - x], ..b.at(px, py) }, style)
    } else {
        b.at(px, py)
    }
}

/// The content of a buffer: its size and its cells, row by row.
pub struct BufferView {
    pub width: nat,
    pub height: nat,
    pub cells: Seq<CellView>,
}

impl BufferView {
    /// The index of position `(x, y)` in `cells`.
    pub open spec fn index(self, x: int, y: int) -> int {
        x + y * self.width
    }

    pub open spec fn at(self, x: int, y: int) -> CellView {
        self.cells[self.index(x, y)]
    }

    pub open spec fn in_bounds(self, x: int, y: int) -> bool {
        0 <= x < self.width && 0 <= y < self.height
    }
}

/// A fixed-size grid of styled cells, row-major, origin at the top left.
pub struct Buffer {
    width: usize,
    height: usize,
    content: Vec<Cell>,
}

impl View for Buffer {
    type V = BufferView;

    closed spec fn view(&self) -> BufferView {
        BufferView {
            width: self.width as nat,
            height: self.height as nat,
            cells: self.content@.map_values(|c: Cell| c@),
        }
    }
}

/// Every position of a buffer of this size has its cell.
pub open spec fn buffer_wf(b: BufferView) -> bool {
    &&& b.width >= 1
    &&& b.height >= 1
    &&& b.cells.len() == b.width * b.height
}

/// Position `(x, y)` lies in a buffer of width `w` and height `h` at index `x + y * w`.
pub proof fn lemma_index_in_bounds(w: int, h: int, x: int, y: int)
    requires
        0 <= x < w,
        0 <= y < h,
    ensures
        0 <= x + y * w < w * h,
{
    assert(y * w <= (h - 1) * w) by (nonlinear_arith)
        requires 0 <= y < h, w >= 0;
    assert((h - 1) * w == h * w - w) by (nonlinear_arith);
    assert(0 <= y * w) by (nonlinear_arith)
        requires 0 <= y, 0 <= w;
    assert(w * h == h * w) by (nonlinear_arith);
}

/// Distinct positions of a row-major grid have distinct indices.
pub proof fn lemma_index_injective(w: int, x1: int, y1: int, x2: int, y2: int)
    requires
        0 <= x1 < w,
        0 <= x2 < w,
        0 <= y1,
        0 <= y2,
        x1 + y1 * w == x2 + y2 * w,
    ensures
        x1 == x2 && y1 == y2,
{
    if y1 < y2 {
        assert(y1 * w + w <= y2 * w) by (nonlinear_arith)
            requires y1 < y2, w >= 0;
    } else if y2 < y1 {
        assert(y2 * w + w <= y1 * w) by (nonlinear_arith)
            requires y2 < y1, w >= 0;
    }
}

impl Buffer {
    pub open spec fn wf(&self) -> bool {
        &&& buffer_wf(self@)
        &&& self@.width * self@.height <= usize::MAX
        &&& self@.width <= usize::MAX
        &&& self@.height <= usize::MAX
    }

    pub fn width(&self) -> (r: usize)
        ensures
            r == self@.width,
    {
        self.width
    }

    pub fn height(&self) -> (r: usize)
        ensures
            r == self@.height,
    {
        self.height
    }

    /// The cells, row by row.
    pub fn cells(&self) -> (r: &Vec<Cell>)
        ensures
            r@.map_values(|c: Cell| c@) == self@.cells,
    {
        &self.content
    }

    /// A `width` by `height` buffer of blank cells.
    pub fn empty(width: usize, height: usize) -> (r: Buffer)
        requires
            width >= 1,
            height >= 1,
            width * height <= usize::MAX,
        ensures
            r.wf(),
            r@.width == width,
            r@.height == height,
            forall|i: int| 0 <= i < r@.cells.len() ==> #[trigger] r@.cells[i] == blank_cell(),
    {
        let n: usize = width * height;
        let mut content: Vec<Cell> = Vec::with_capacity(n);
        let mut i: usize = 0;
        while i < n
            invariant
                i <= n,
                content@.len() == i,
                forall|k: int| 0 <= k < i ==> #[trigger] content@[k]@ == blank_cell(),
            decreases n - i,
        {
            content.push(Cell::blank());
            i = i + 1;
        }
        Buffer { width, height, content }
    }

    /// The cell at `(x, y)`, to be changed in place.
    pub fn get_mut(&mut self, x: usize, y: usize) -> (r: &mut Cell)
        requires
            old(self).wf(),
            old(self)@.in_bounds(x as int, y as int),
        ensures
            r@ == old(self)@.at(x as int, y as int),
            final(self).wf(),
            final(self)@.width == old(self)@.width,
            final(self)@.height == old(self)@.height,
            final(self)@.cells =~= old(self)@.cells.update(old(self)@.index(x as int, y as int), final(r)@),
    {
        proof {
            lemma_index_in_bounds(self.width as int, self.height as int, x as int, y as int);
        }
        let i: usize = x + y * self.width;
        &mut self.content[i]
    }

    /// The position of the cell at index `i`.
    pub(crate) fn pos_of(&self, i: usize) -> (r: (usize, usize))
        requires
            self.wf(),
        ensures
            r.0 == i as int % (self@.width as int),
            r.1 == i as int / (self@.width as int),
    {
        (i % self.width, i / self.width)
    }

    /// Writes `text` from `(x, y)` rightwards, one grapheme cluster per cell,
    /// applying `style` to each written cell; what does not fit before the
    /// right edge is left out.
    pub fn set_string(&mut self, x: usize, y: usize, text: &str, style: Style)
        requires
            old(self).wf(),
            old(self)@.in_bounds(x as int, y as int),
        ensures
            final(self).wf(),
            final(self)@.width == old(self)@.width,
            final(self)@.height == old(self)@.height,
            graphemes_of(text@).len() <= text@.len(),
            forall|px: int, py: int|
                #![trigger final(self)@.at(px, py)]
                old(self)@.in_bounds(px, py) ==> final(self)@.at(px, py) == string_cell(
                    old(self)@,
                    x as int,
                    y as int,
                    graphemes_of(text@),
                    style,
                    px,
                    py,
                ),
    {
        let graphemes = split_graphemes(text);
        let ghost gs = graphemes_of(text@);
        let ghost start = *self;
        proof {
            lemma_graphemes_len(text@, graphemes@.map_values(|g: String| g@));
        }
        let room: usize = self.width - x;
        let mut k: usize = 0;
        while k < graphemes.len() && k < room
            invariant
                self.wf(),
                self@.width == start@.width,
                self@.height == start@.height,
                start.wf(),
                start@.in_bounds(x as int, y as int),
                room == start@.width - x,
                graphemes@.map_values(|g: String| g@) == gs,
                k <= graphemes@.len(),
                k <= room,
                forall|px: int, py: int|
                    #![trigger self@.at(px, py)]
                    start@.in_bounds(px, py) ==> self@.at(px, py) == (if py == y && x <= px < x + k {
                        styled(CellView { symbol: gs[px - x], ..start@.at(px, py) }, style)
                    } else {
                        start@.at(px, py)
                    }),
            decreases graphemes@.len() - k,
        {
            let ghost before = *self;
            self.get_mut(x + k, y).set_symbol(graphemes[k].as_str()).set_style(style);
            assert(graphemes@.map_values(|g: String| g@)[k as int] == graphemes@[k as int]@);
            proof {
                assert forall|px: int, py: int| start@.in_bounds(px, py) implies #[trigger] self@.at(px, py)
                    == (if py == y && x <= px < x + k + 1 {
                    styled(CellView { symbol: gs[px - x], ..start@.at(px, py) }, style)
                } else {
                    start@.at(px, py)
                }) by {
                    lemma_index_in_bounds(start@.width as int, start@.height as int, px, py);
                    if px != x + k || py != y {
                        lemma_index_in_bounds(start@.width as int, start@.height as int, (x + k) as int, y as int);
                        if px + py * start@.width == (x + k) + y * start@.width {
                            lemma_index_injective(start@.width as int, px, py, (x + k) as int, y as int);
                        }
                        assert(self@.at(px, py) == before@.at(px, py));
                    }
                }
            }
            k = k + 1;
        }
        proof {
            if k < graphemes@.len() {
                assert(k == room);
            }
        }
    }
}

} // verus!
