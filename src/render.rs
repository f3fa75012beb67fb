use vstd::prelude::*;
use vstd::arithmetic::div_mod::{lemma_fundamental_div_mod, lemma_fundamental_div_mod_converse_div};
use crate::buffer::{Buffer, BufferView, buffer_wf};
use crate::cell::{Cell, CellView, Color};

verus! {

/// One instruction to the terminal.
pub enum TermOp {
    NewLine,
    SetForeground(Color),
    SetBackground(Color),
    Print(String),
}

/// The mathematical content of a `TermOp`.
pub enum OpView {
    NewLine,
    SetForeground(Color),
    SetBackground(Color),
    Print(Seq<char>),
}

impl View for TermOp {
    type V = OpView;

    open spec fn view(&self) -> OpView {
        match self {
            TermOp::NewLine => OpView::NewLine,
            TermOp::SetForeground(c) => OpView::SetForeground(*c),
            TermOp::SetBackground(c) => OpView::SetBackground(*c),
            TermOp::Print(s) => OpView::Print(s@),
        }
    }
}

pub open spec fn ops_view(ops: Seq<TermOp>) -> Seq<OpView> {
    ops.map_values(|o: TermOp| o@)
}

/// The foreground in force when cell `i` is reached: that of the cell before,
/// or the terminal default at the start.
pub open spec fn fg_before(cells: Seq<CellView>, i: int) -> Color {
    if i == 0 {
        Color::Reset
    } else {
        cells[i - 1].fg
    }
}

pub open spec fn bg_before(cells: Seq<CellView>, i: int) -> Color {
    if i == 0 {
        Color::Reset
    } else {
        cells[i - 1].bg
    }
}

/// Whether cell `i` starts a new row of a grid of width `w`.
pub open spec fn starts_row(i: int, w: int) -> bool {
    i > 0 && i / w != (i - 1) / w
}

/// `ops` followed by what cell `i` adds: a line break where its row begins, a
/// color change for each channel that differs from the one in force, and its text.
pub open spec fn emit_cell(ops: Seq<OpView>, cells: Seq<CellView>, w: int, i: int) -> Seq<OpView> {
    let a = if starts_row(i, w) {
        ops.push(OpView::NewLine)
    } else {
        ops
    };
    let b = if cells[i].fg != fg_before(cells, i) {
        a.push(OpView::SetForeground(cells[i].fg))
    } else {
        a
    };
    let c = if cells[i].bg != bg_before(cells, i) {
        b.push(OpView::SetBackground(cells[i].bg))
    } else {
        b
    };
    c.push(OpView::Print(cells[i].symbol))
}

/// The leading line break and the instructions of the first `n` cells.
pub open spec fn ops_upto(cells: Seq<CellView>, w: int, n: int) -> Seq<OpView>
    decreases n,
{
    if n <= 0 {
        seq![OpView::NewLine]
    } else {
        emit_cell(ops_upto(cells, w, n - 1), cells, w, n - 1)
    }
}

/// The whole instruction stream of a buffer, ending in two line breaks.
pub open spec fn serialized(b: BufferView) -> Seq<OpView> {
    ops_upto(b.cells, b.width as int, b.cells.len() as int).push(OpView::NewLine).push(
        OpView::NewLine,
    )
}

/// Turns a buffer into terminal instructions in one row-major pass, changing a
/// color only where a cell's color differs from the one in force.
pub fn draw_buffer(buffer: &Buffer) -> (r: Vec<TermOp>)
    requires
        buffer.wf(),
    ensures
        ops_view(r@) == serialized(buffer@),
{
    let cells = buffer.cells();
    let ghost cv = buffer@.cells;
    let ghost w = buffer@.width as int;
    let mut out: Vec<TermOp> = Vec::new();
    out.push(TermOp::NewLine);
    let mut fg = Color::Reset;
    let mut bg = Color::Reset;
    let mut last_row: Option<usize> = None;
    let mut i: usize = 0;
    proof {
        assert(ops_view(out@) =~= ops_upto(cv, w, 0));
    }
    while i < cells.len()
        invariant
            buffer.wf(),
            cells@.map_values(|c: Cell| c@) == cv,
            cv == buffer@.cells,
            w == buffer@.width,
            buffer_wf(buffer@),
            i <= cells@.len(),
            ops_view(out@) == ops_upto(cv, w, i as int),
            fg == fg_before(cv, i as int),
            bg == bg_before(cv, i as int),
            i == 0 ==> last_row.is_none(),
            i > 0 ==> last_row == Some(((i - 1) as int / w) as usize),
        decreases cells@.len() - i,
    {
        let ghost before = out@;
        let (_x, y) = buffer.pos_of(i);
        let cell = &cells[i];
        assert(cell@ == cv[i as int]);
        if let Some(last_y) = last_row {
            if last_y != y {
                out.push(TermOp::NewLine);
            }
        }
        if cell.fg != fg {
            out.push(TermOp::SetForeground(cell.fg));
            fg = cell.fg;
        }
        if cell.bg != bg {
            out.push(TermOp::SetBackground(cell.bg));
            bg = cell.bg;
        }
        out.push(TermOp::Print(cell.symbol.clone()));
        last_row = Some(y);
        proof {
            assert(ops_view(out@) =~= emit_cell(ops_view(before), cv, w, i as int));
        }
        i = i + 1;
    }
    out.push(TermOp::NewLine);
    out.push(TermOp::NewLine);
    proof {
        assert(ops_view(out@) =~= serialized(buffer@));
    }
    out
}

/// The rows of text that a terminal shows for `ops`: each line break opens a
/// new row, each printed text extends the current one, colors are ignored.
pub open spec fn rows_of(ops: Seq<OpView>) -> Seq<Seq<Seq<char>>>
    decreases ops.len(),
{
    if ops.len() == 0 {
        seq![Seq::empty()]
    } else {
        rows_step(rows_of(ops.drop_last()), ops.last())
    }
}

pub open spec fn rows_step(rows: Seq<Seq<Seq<char>>>, op: OpView) -> Seq<Seq<Seq<char>>> {
    match op {
        OpView::NewLine => rows.push(Seq::empty()),
        OpView::Print(s) => rows.update(rows.len() - 1, rows.last().push(s)),
        _ => rows,
    }
}

/// The graphemes of a buffer as a grid: `height` rows of `width` symbols.
pub open spec fn grid(b: BufferView) -> Seq<Seq<Seq<char>>> {
    Seq::new(b.height, |r: int| grid_row(b.cells, b.width as int, r))
}

pub open spec fn grid_row(cells: Seq<CellView>, w: int, r: int) -> Seq<Seq<char>> {
    Seq::new(w as nat, |c: int| cells[r * w + c].symbol)
}

/// How many foreground changes `ops` holds.
pub open spec fn count_fg_ops(ops: Seq<OpView>) -> nat
    decreases ops.len(),
{
    if ops.len() == 0 {
        0
    } else {
        count_fg_ops(ops.drop_last()) + if ops.last() is SetForeground {
            1nat
        } else {
            0nat
        }
    }
}

/// How many background changes `ops` holds.
pub open spec fn count_bg_ops(ops: Seq<OpView>) -> nat
    decreases ops.len(),
{
    if ops.len() == 0 {
        0
    } else {
        count_bg_ops(ops.drop_last()) + if ops.last() is SetBackground {
            1nat
        } else {
            0nat
        }
    }
}

/// Among the first `n` cells, how many start a new run of foreground color:
/// their foreground differs from the one before (the terminal default first).
pub open spec fn fg_runs(cells: Seq<CellView>, n: int) -> nat
    decreases n,
{
    if n <= 0 {
        0
    } else {
        fg_runs(cells, n - 1) + if cells[n - 1].fg != fg_before(cells, n - 1) {
            1nat
        } else {
            0nat
        }
    }
}

/// Among the first `n` cells, how many start a new run of background color.
pub open spec fn bg_runs(cells: Seq<CellView>, n: int) -> nat
    decreases n,
{
    if n <= 0 {
        0
    } else {
        bg_runs(cells, n - 1) + if cells[n - 1].bg != bg_before(cells, n - 1) {
            1nat
        } else {
            0nat
        }
    }
}

proof fn lemma_push(ops: Seq<OpView>, op: OpView)
    ensures
        rows_of(ops.push(op)) == rows_step(rows_of(ops), op),
        count_fg_ops(ops.push(op)) == count_fg_ops(ops) + if op is SetForeground {
            1nat
        } else {
            0nat
        },
        count_bg_ops(ops.push(op)) == count_bg_ops(ops) + if op is SetBackground {
            1nat
        } else {
            0nat
        },
{
    assert(ops.push(op).drop_last() =~= ops);
}

proof fn lemma_rows_nonempty(ops: Seq<OpView>)
    ensures
        rows_of(ops).len() >= 1,
    decreases ops.len(),
{
    if ops.len() > 0 {
        lemma_rows_nonempty(ops.drop_last());
    }
}

proof fn lemma_emit_cell(ops: Seq<OpView>, cells: Seq<CellView>, w: int, i: int)
    requires
        0 <= i < cells.len(),
    ensures
        ({
            let rows = if starts_row(i, w) {
                rows_of(ops).push(Seq::empty())
            } else {
                rows_of(ops)
            };
            rows_of(emit_cell(ops, cells, w, i)) == rows.update(
                rows.len() - 1,
                rows.last().push(cells[i].symbol),
            )
        }),
        count_fg_ops(emit_cell(ops, cells, w, i)) == count_fg_ops(ops) + if cells[i].fg
            != fg_before(cells, i) {
            1nat
        } else {
            0nat
        },
        count_bg_ops(emit_cell(ops, cells, w, i)) == count_bg_ops(ops) + if cells[i].bg
            != bg_before(cells, i) {
            1nat
        } else {
            0nat
        },
{
    let a = if starts_row(i, w) {
        ops.push(OpView::NewLine)
    } else {
        ops
    };
    let b = if cells[i].fg != fg_before(cells, i) {
        a.push(OpView::SetForeground(cells[i].fg))
    } else {
        a
    };
    let c = if cells[i].bg != bg_before(cells, i) {
        b.push(OpView::SetBackground(cells[i].bg))
    } else {
        b
    };
    if starts_row(i, w) {
        lemma_push(ops, OpView::NewLine);
    }
    if cells[i].fg != fg_before(cells, i) {
        lemma_push(a, OpView::SetForeground(cells[i].fg));
    }
    if cells[i].bg != bg_before(cells, i) {
        lemma_push(b, OpView::SetBackground(cells[i].bg));
    }
    lemma_push(c, OpView::Print(cells[i].symbol));
}

/// Where cell `n` falls relative to the row that cell `n - 1` ends.
proof fn lemma_row_step(n: int, w: int)
    requires
        n >= 1,
        w >= 1,
    ensures
        0 <= (n - 1) / w,
        1 <= n - ((n - 1) / w) * w <= w,
        starts_row(n, w) ==> n == ((n - 1) / w + 1) * w && n / w == (n - 1) / w + 1,
{
    let q = (n - 1) / w;
    let q2 = n / w;
    lemma_fundamental_div_mod(n - 1, w);
    lemma_fundamental_div_mod(n, w);
    let m1 = (n - 1) % w;
    let m2 = n % w;
    assert(0 <= m1 < w && 0 <= m2 < w);
    assert(q * w == w * q) by (nonlinear_arith);
    assert(0 <= q) by (nonlinear_arith)
        requires n - 1 == w * q + m1, m1 < w, n >= 1, w >= 1;
    if q2 != q {
        assert(w * (q2 - q) == m1 + 1 - m2) by (nonlinear_arith)
            requires n - 1 == w * q + m1, n == w * q2 + m2;
        let d = q2 - q;
        if d >= 2 {
            assert(w * d >= 2 * w) by (nonlinear_arith)
                requires d >= 2, w >= 1;
        }
        if d <= -1 {
            assert(w * d <= -w) by (nonlinear_arith)
                requires d <= -1, w >= 1;
        }
        assert(q2 - q == 1);
        assert(w * (q2 - q) == w) by (nonlinear_arith)
            requires q2 - q == 1;
        assert(m2 == 0);
        assert(n == (q + 1) * w) by (nonlinear_arith)
            requires n == w * q2 + m2, q2 == q + 1, m2 == 0;
    }
}

/// The rows shown after the first `n` cells: the empty row before the leading
/// line break, the complete rows, and the row in progress.
proof fn lemma_rows_upto(cells: Seq<CellView>, w: int, n: int)
    requires
        w >= 1,
        1 <= n <= cells.len(),
    ensures
        ({
            let q = (n - 1) / w;
            rows_of(ops_upto(cells, w, n)) == seq![Seq::<Seq<char>>::empty()] + Seq::new(
                q as nat,
                |r: int| grid_row(cells, w, r),
            ) + seq![Seq::new((n - q * w) as nat, |c: int| cells[q * w + c].symbol)]
        }),
    decreases n,
{
    let q = (n - 1) / w;
    if n == 1 {
        lemma_emit_cell(seq![OpView::NewLine], cells, w, 0);
        lemma_push(Seq::empty(), OpView::NewLine);
        assert(seq![OpView::NewLine] =~= Seq::<OpView>::empty().push(OpView::NewLine));
        assert(0int / w == 0);
        assert(q == 0);
        assert(Seq::new((n - q * w) as nat, |c: int| cells[q * w + c].symbol) =~= seq![cells[0].symbol]);
        assert(rows_of(ops_upto(cells, w, n)) =~~= seq![Seq::<Seq<char>>::empty()] + Seq::new(
            q as nat,
            |r: int| grid_row(cells, w, r),
        ) + seq![Seq::new((n - q * w) as nat, |c: int| cells[q * w + c].symbol)]);
    } else {
        let m = n - 1;
        lemma_rows_upto(cells, w, m);
        lemma_row_step(m, w);
        lemma_row_step(n, w);
        let p = (m - 1) / w;
        lemma_emit_cell(ops_upto(cells, w, m), cells, w, m);
        let prev = seq![Seq::<Seq<char>>::empty()] + Seq::new(
            p as nat,
            |r: int| grid_row(cells, w, r),
        ) + seq![Seq::new((m - p * w) as nat, |c: int| cells[p * w + c].symbol)];
        let target = seq![Seq::<Seq<char>>::empty()] + Seq::new(
            q as nat,
            |r: int| grid_row(cells, w, r),
        ) + seq![Seq::new((n - q * w) as nat, |c: int| cells[q * w + c].symbol)];
        if starts_row(m, w) {
            assert(q == p + 1);
            assert(m - p * w == w) by (nonlinear_arith)
                requires m == (p + 1) * w;
            assert(n - q * w == 1) by (nonlinear_arith)
                requires m == (p + 1) * w, q == p + 1, n == m + 1;
            assert(q * w == m) by (nonlinear_arith)
                requires m == (p + 1) * w, q == p + 1;
            assert(Seq::new((m - p * w) as nat, |c: int| cells[p * w + c].symbol) =~= grid_row(cells, w, p));
            assert(Seq::new((n - q * w) as nat, |c: int| cells[q * w + c].symbol) =~= Seq::<Seq<char>>::empty().push(cells[m].symbol));
            assert(rows_of(ops_upto(cells, w, n)) =~~= target);
        } else {
            assert(m / w == p);
            assert(q == p);
            assert(Seq::new((n - q * w) as nat, |c: int| cells[q * w + c].symbol) =~= Seq::new((m - p * w) as nat, |c: int| cells[p * w + c].symbol).push(cells[m].symbol));
            assert(rows_of(ops_upto(cells, w, n)) =~~= target);
        }
    }
}

/// Stripped of its color changes, the instruction stream of a buffer shows its
/// grid of graphemes exactly: an empty line, then each row in order, then the
/// two empty lines of the closing line breaks.
pub proof fn lemma_serialized_rows(b: BufferView)
    requires
        buffer_wf(b),
    ensures
        rows_of(serialized(b)) == seq![Seq::<Seq<char>>::empty()] + grid(b) + seq![
            Seq::<Seq<char>>::empty(),
            Seq::<Seq<char>>::empty(),
        ],
{
    let w = b.width as int;
    let h = b.height as int;
    let n = b.cells.len() as int;
    assert(n == w * h);
    assert(n >= 1) by (nonlinear_arith)
        requires n == w * h, w >= 1, h >= 1;
    lemma_rows_upto(b.cells, w, n);
    assert(n - 1 == (h - 1) * w + (w - 1)) by (nonlinear_arith)
        requires n == w * h;
    lemma_fundamental_div_mod_converse_div(n - 1, w, h - 1, w - 1);
    let q = (n - 1) / w;
    assert(q == h - 1);
    assert(n - q * w == w) by (nonlinear_arith)
        requires n == w * h, q == h - 1;
    let ops = ops_upto(b.cells, w, n);
    lemma_push(ops, OpView::NewLine);
    lemma_push(ops.push(OpView::NewLine), OpView::NewLine);
    assert(Seq::new((n - q * w) as nat, |c: int| b.cells[q * w + c].symbol) =~= grid_row(b.cells, w, q));
    assert(rows_of(serialized(b)) =~~= seq![Seq::<Seq<char>>::empty()] + grid(b) + seq![
        Seq::<Seq<char>>::empty(),
        Seq::<Seq<char>>::empty(),
    ]);
}

proof fn lemma_counts_upto(cells: Seq<CellView>, w: int, n: int)
    requires
        0 <= n <= cells.len(),
    ensures
        count_fg_ops(ops_upto(cells, w, n)) == fg_runs(cells, n),
        count_bg_ops(ops_upto(cells, w, n)) == bg_runs(cells, n),
    decreases n,
{
    if n == 0 {
        lemma_push(Seq::empty(), OpView::NewLine);
        assert(seq![OpView::NewLine] =~= Seq::<OpView>::empty().push(OpView::NewLine));
        assert(count_fg_ops(Seq::empty()) == 0);
        assert(count_bg_ops(Seq::empty()) == 0);
    } else {
        lemma_counts_upto(cells, w, n - 1);
        lemma_emit_cell(ops_upto(cells, w, n - 1), cells, w, n - 1);
    }
}

/// The instruction stream of a buffer changes the foreground exactly once per
/// run of equal foreground colors that differs from the color before it (the
/// terminal default before the first cell), and likewise the background.
pub proof fn lemma_one_change_per_run(b: BufferView)
    requires
        buffer_wf(b),
    ensures
        count_fg_ops(serialized(b)) == fg_runs(b.cells, b.cells.len() as int),
        count_bg_ops(serialized(b)) == bg_runs(b.cells, b.cells.len() as int),
{
    let w = b.width as int;
    let ops = ops_upto(b.cells, w, b.cells.len() as int);
    lemma_counts_upto(b.cells, w, b.cells.len() as int);
    lemma_push(ops, OpView::NewLine);
    lemma_push(ops.push(OpView::NewLine), OpView::NewLine);
}

} // verus!
