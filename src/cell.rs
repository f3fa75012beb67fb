use vstd::prelude::*;

verus! {

/// A terminal color; `Reset` is the terminal's default color.
#[derive(PartialEq, Eq, Structural, Clone, Copy, Debug)]
pub enum Color {
    Reset,
    Black,
    DarkGrey,
    Red,
    DarkRed,
    Green,
    DarkGreen,
    Yellow,
    DarkYellow,
    Blue,
    DarkBlue,
    Magenta,
    DarkMagenta,
    Cyan,
    DarkCyan,
    White,
    Grey,
    Rgb { r: u8, g: u8, b: u8 },
    AnsiValue(u8),
}

/// An optional foreground / background pair; `None` keeps the cell's color.
#[derive(PartialEq, Eq, Structural, Clone, Copy, Debug)]
pub struct Style {
    pub fg: Option<Color>,
    pub bg: Option<Color>,
}

impl Default for Style {
    fn default() -> (r: Style)
        ensures
            r.fg.is_none(),
            r.bg.is_none(),
    {
        Style { fg: None, bg: None }
    }
}

/// The mathematical content of a cell: its grapheme and its two colors.
pub struct CellView {
    pub symbol: Seq<char>,
    pub fg: Color,
    pub bg: Color,
}

/// The cell that a fresh buffer is filled with.
pub open spec fn blank_cell() -> CellView {
    CellView { symbol: seq![' '], fg: Color::Reset, bg: Color::Reset }
}

/// `c` after `style` has been applied: only the channels that are `Some` change.
pub open spec fn styled(c: CellView, style: Style) -> CellView {
    CellView {
        symbol: c.symbol,
        fg: match style.fg {
            Some(f) => f,
            None => c.fg,
        },
        bg: match style.bg {
            Some(b) => b,
            None => c.bg,
        },
    }
}

/// One grid position of a buffer.
pub struct Cell {
    pub symbol: String,
    pub fg: Color,
    pub bg: Color,
}

impl View for Cell {
    type V = CellView;

    open spec fn view(&self) -> CellView {
        CellView { symbol: self.symbol@, fg: self.fg, bg: self.bg }
    }
}

/// Relies on `char::to_string`: the one-character string of `c`.
#[verifier::external_body]
pub(crate) fn char_text(c: char) -> (r: String)
    ensures
        r@ == seq![c],
{
    c.to_string()
}

impl Cell {
    /// A blank cell: a space on the terminal's default colors.
    pub fn blank() -> (r: Cell)
        ensures
            r@ == blank_cell(),
    {
        Cell { symbol: char_text(' '), fg: Color::Reset, bg: Color::Reset }
    }

    pub fn set_symbol(&mut self, symbol: &str) -> (r: &mut Self)
        ensures
            r@ == (CellView { symbol: symbol@, ..old(self)@ }),
            *final(self) == *final(r),
    {
        self.symbol = symbol.to_owned();
        self
    }

    pub fn set_char(&mut self, c: char) -> (r: &mut Self)
        ensures
            r@ == (CellView { symbol: seq![c], ..old(self)@ }),
            *final(self) == *final(r),
    {
        self.symbol = char_text(c);
        self
    }

    pub fn set_fg(&mut self, color: Color) -> (r: &mut Self)
        ensures
            r@ == (CellView { fg: color, ..old(self)@ }),
            *final(self) == *final(r),
    {
        self.fg = color;
        self
    }

    pub fn set_bg(&mut self, color: Color) -> (r: &mut Self)
        ensures
            r@ == (CellView { bg: color, ..old(self)@ }),
            *final(self) == *final(r),
    {
        self.bg = color;
        self
    }

    pub fn set_style(&mut self, style: Style) -> (r: &mut Self)
        ensures
            r@ == styled(old(self)@, style),
            *final(self) == *final(r),
    {
        if let Some(fg) = style.fg {
            self.fg = fg;
        }
        if let Some(bg) = style.bg {
            self.bg = bg;
        }
        self
    }
}

} // verus!
