use bytechart::buffer::Buffer;
use bytechart::cell::{Cell, Color, Style};
use bytechart::distribution::{count_distribution, order_by_frequency};
use bytechart::labels::{decimal_label, decimal_len, hex_label, printable_char, zero_label};
use bytechart::layout::{
    bar_eighths, choose_graph, draw_distribution, draw_horizontal_distribution,
    draw_vertical_distribution, glyph_char, max_occurrences, BarGraph, LayoutError,
};
use bytechart::render::{draw_buffer, TermOp};
use tui::symbols::{bar, block};

const FULL: &str = "\u{2588}";

fn cell(b: &Buffer, x: usize, y: usize) -> &Cell {
    &b.cells()[x + y * b.width()]
}

fn symbol(b: &Buffer, x: usize, y: usize) -> String {
    cell(b, x, y).symbol.clone()
}

#[test]
fn empty_buffer_is_blank() {
    let b = Buffer::empty(3, 2);
    assert_eq!(b.width(), 3);
    assert_eq!(b.height(), 2);
    assert_eq!(b.cells().len(), 6);
    for c in b.cells() {
        assert_eq!(c.symbol, " ");
        assert_eq!(c.fg, Color::Reset);
        assert_eq!(c.bg, Color::Reset);
    }
}

#[test]
fn get_mut_changes_one_cell() {
    let mut b = Buffer::empty(3, 2);
    b.get_mut(2, 1).set_char('x').set_fg(Color::Red).set_bg(Color::Blue);
    assert_eq!(symbol(&b, 2, 1), "x");
    assert_eq!(cell(&b, 2, 1).fg, Color::Red);
    assert_eq!(cell(&b, 2, 1).bg, Color::Blue);
    assert_eq!(symbol(&b, 1, 1), " ");
    assert_eq!(symbol(&b, 2, 0), " ");
}

#[test]
fn set_style_only_overwrites_given_channels() {
    let mut b = Buffer::empty(1, 1);
    b.get_mut(0, 0).set_fg(Color::Red).set_bg(Color::Blue);
    b.get_mut(0, 0).set_style(Style { fg: Some(Color::Green), bg: None });
    assert_eq!(cell(&b, 0, 0).fg, Color::Green);
    assert_eq!(cell(&b, 0, 0).bg, Color::Blue);
    b.get_mut(0, 0).set_style(Style::default());
    assert_eq!(cell(&b, 0, 0).fg, Color::Green);
    assert_eq!(cell(&b, 0, 0).bg, Color::Blue);
}

#[test]
fn set_string_stops_at_right_edge() {
    let mut b = Buffer::empty(4, 2);
    b.set_string(2, 1, "hello", Style { fg: Some(Color::Yellow), bg: None });
    assert_eq!(symbol(&b, 2, 1), "h");
    assert_eq!(symbol(&b, 3, 1), "e");
    assert_eq!(cell(&b, 3, 1).fg, Color::Yellow);
    assert_eq!(symbol(&b, 0, 1), " ");
    assert_eq!(symbol(&b, 1, 1), " ");
    for x in 0..4 {
        assert_eq!(symbol(&b, x, 0), " ");
    }
    assert_eq!(b.cells().len(), 8);
}

#[test]
fn set_string_one_cell_per_grapheme() {
    let mut b = Buffer::empty(5, 1);
    b.set_string(0, 0, "e\u{301}x\u{2588}", Style::default());
    assert_eq!(symbol(&b, 0, 0), "e\u{301}");
    assert_eq!(symbol(&b, 1, 0), "x");
    assert_eq!(symbol(&b, 2, 0), FULL);
    assert_eq!(symbol(&b, 3, 0), " ");
}

#[test]
fn serializer_changes_color_once_per_run() {
    let mut b = Buffer::empty(3, 2);
    b.get_mut(1, 0).set_char('a').set_fg(Color::White);
    b.get_mut(2, 0).set_char('b').set_fg(Color::White);
    b.get_mut(0, 1).set_char('c').set_fg(Color::White).set_bg(Color::Blue);
    let ops = draw_buffer(&b);
    let expected = vec![
        TermOp::NewLine,
        TermOp::Print(" ".to_string()),
        TermOp::SetForeground(Color::White),
        TermOp::Print("a".to_string()),
        TermOp::Print("b".to_string()),
        TermOp::NewLine,
        TermOp::SetBackground(Color::Blue),
        TermOp::Print("c".to_string()),
        TermOp::SetForeground(Color::Reset),
        TermOp::SetBackground(Color::Reset),
        TermOp::Print(" ".to_string()),
        TermOp::Print(" ".to_string()),
        TermOp::NewLine,
        TermOp::NewLine,
    ];
    assert_eq!(ops.len(), expected.len());
    for (got, want) in ops.iter().zip(expected.iter()) {
        match (got, want) {
            (TermOp::NewLine, TermOp::NewLine) => {}
            (TermOp::SetForeground(a), TermOp::SetForeground(b)) => assert_eq!(a, b),
            (TermOp::SetBackground(a), TermOp::SetBackground(b)) => assert_eq!(a, b),
            (TermOp::Print(a), TermOp::Print(b)) => assert_eq!(a, b),
            _ => panic!("instruction differs"),
        }
    }
}

#[test]
fn serializer_text_reproduces_grid() {
    let mut b = Buffer::empty(4, 3);
    b.set_string(0, 0, "ab", Style { fg: Some(Color::Red), bg: None });
    b.set_string(1, 1, "\u{2588}\u{2587}", Style { fg: None, bg: Some(Color::Green) });
    b.set_string(3, 2, "z", Style::default());
    let ops = draw_buffer(&b);
    let mut rows: Vec<Vec<String>> = vec![Vec::new()];
    for op in &ops {
        match op {
            TermOp::NewLine => rows.push(Vec::new()),
            TermOp::Print(s) => rows.last_mut().unwrap().push(s.clone()),
            _ => {}
        }
    }
    assert_eq!(rows.len(), 1 + 3 + 2);
    assert!(rows[0].is_empty());
    assert!(rows[4].is_empty());
    assert!(rows[5].is_empty());
    for y in 0..3 {
        let want: Vec<String> = (0..4).map(|x| symbol(&b, x, y)).collect();
        assert_eq!(rows[1 + y], want);
    }
    let color_ops = ops.iter().filter(|o| matches!(o, TermOp::SetForeground(_) | TermOp::SetBackground(_))).count();
    // red on, red off, green on, green off
    assert_eq!(color_ops, 4);
}

#[test]
fn labels() {
    assert_eq!(decimal_label(0), "0");
    assert_eq!(decimal_label(100), "100");
    assert_eq!(decimal_label(u64::MAX), "18446744073709551615");
    assert_eq!(decimal_len(100), 3);
    assert_eq!(decimal_len(u64::MAX), 20);
    assert_eq!(hex_label(0x41), "41");
    assert_eq!(hex_label(0x0a), "0a");
    assert_eq!(hex_label(0xff), "ff");
    assert_eq!(zero_label(3), "  0");
    assert_eq!(zero_label(1), "0");
    assert_eq!(printable_char(b'A'), Some('A'));
    assert_eq!(printable_char(b'~'), Some('~'));
    assert_eq!(printable_char(b' '), None);
    assert_eq!(printable_char(b'\n'), None);
    assert_eq!(printable_char(0x7f), None);
    assert_eq!(printable_char(0xe9), None);
}

#[test]
fn eighths_quantization() {
    assert_eq!(bar_eighths(24, 100, 100), (24, 0));
    assert_eq!(bar_eighths(24, 50, 100), (12, 0));
    assert_eq!(bar_eighths(24, 1, 100), (0, 1));
    assert_eq!(bar_eighths(24, 7, 100), (1, 5));
    assert_eq!(bar_eighths(24, 0, 0), (0, 0));
    assert_eq!(bar_eighths(76, u64::MAX, u64::MAX), (76, 0));
    assert_eq!(bar_eighths(76, u64::MAX / 2, u64::MAX), (37, 7));
}

#[test]
fn tallest_bar_fills_chart_for_many_counts() {
    for max in [1u64, 3, 7, 99, 1000, u64::MAX] {
        assert_eq!(bar_eighths(24, max, max), (24, 0));
        for n in [0, max / 3, max / 2, max - 1] {
            let (full, rem) = bar_eighths(24, n, max);
            assert!(full * 8 + rem <= 24 * 8);
        }
    }
}

#[test]
fn glyphs_match_tui_symbols() {
    let upright = [
        bar::ONE_EIGHTH,
        bar::ONE_QUARTER,
        bar::THREE_EIGHTHS,
        bar::HALF,
        bar::FIVE_EIGHTHS,
        bar::THREE_QUARTERS,
        bar::SEVEN_EIGHTHS,
        bar::FULL,
    ];
    let sideways = [
        block::ONE_EIGHTH,
        block::ONE_QUARTER,
        block::THREE_EIGHTHS,
        block::HALF,
        block::FIVE_EIGHTHS,
        block::THREE_QUARTERS,
        block::SEVEN_EIGHTHS,
        block::FULL,
    ];
    for level in 1..=8 {
        assert_eq!(glyph_char(BarGraph::Horizontal, level).to_string(), upright[level - 1]);
        assert_eq!(glyph_char(BarGraph::Vertical, level).to_string(), sideways[level - 1]);
    }
}

#[test]
fn orientation_selector_thresholds() {
    let d: Vec<(u8, u64)> = (0u8..10).map(|b| (b, 100 + b as u64)).collect();
    // left margin 4, right margin 1, ten bars of 3 columns
    assert_eq!(choose_graph(&d, 35), Ok(BarGraph::Horizontal));
    assert_eq!(choose_graph(&d, 200), Ok(BarGraph::Horizontal));
    assert_eq!(choose_graph(&d, 34), Ok(BarGraph::Vertical));
    assert_eq!(choose_graph(&d, 10), Ok(BarGraph::Vertical));
    assert_eq!(choose_graph(&d, 9), Err(LayoutError::TerminalTooSmall));
    assert_eq!(choose_graph(&d, 0), Err(LayoutError::TerminalTooSmall));
}

#[test]
fn max_occurrences_of_distribution() {
    assert_eq!(max_occurrences(&vec![]), 0);
    assert_eq!(max_occurrences(&vec![(1, 5), (2, 9), (3, 2)]), 9);
}

#[test]
fn end_to_end_horizontal() {
    let d: Vec<(u8, u64)> = vec![(0x41, 100), (0x42, 50), (0x43, 0)];
    let b = draw_horizontal_distribution(&d, 80);
    assert_eq!(b.width(), 80);
    assert_eq!(b.height(), 25);
    // axis labels
    assert_eq!(symbol(&b, 0, 0), "1");
    assert_eq!(symbol(&b, 1, 0), "0");
    assert_eq!(symbol(&b, 2, 0), "0");
    assert_eq!(symbol(&b, 3, 0), " ");
    assert_eq!(symbol(&b, 0, 23), " ");
    assert_eq!(symbol(&b, 1, 23), " ");
    assert_eq!(symbol(&b, 2, 23), "0");
    // 0x41 reaches the full 24 rows
    for y in 0..23 {
        for x in [4, 5] {
            assert_eq!(symbol(&b, x, y), FULL);
            assert_eq!(cell(&b, x, y).fg, Color::White);
        }
    }
    assert_eq!(symbol(&b, 4, 23), "4");
    assert_eq!(symbol(&b, 5, 23), "1");
    assert_eq!(cell(&b, 4, 23).fg, Color::Black);
    assert_eq!(cell(&b, 4, 23).bg, Color::White);
    assert_eq!(symbol(&b, 4, 24), "A");
    assert_eq!(symbol(&b, 5, 24), " ");
    // 0x42 reaches 12 rows
    for y in 12..23 {
        assert_eq!(symbol(&b, 7, y), FULL);
        assert_eq!(symbol(&b, 8, y), FULL);
    }
    for y in 0..12 {
        assert_eq!(symbol(&b, 7, y), " ");
        assert_eq!(symbol(&b, 8, y), " ");
    }
    assert_eq!(symbol(&b, 7, 23), "4");
    assert_eq!(symbol(&b, 8, 23), "2");
    assert_eq!(symbol(&b, 7, 24), "B");
    // 0x43 is an empty column, its label one row above the baseline
    for y in 0..22 {
        assert_eq!(symbol(&b, 10, y), " ");
        assert_eq!(symbol(&b, 11, y), " ");
    }
    assert_eq!(symbol(&b, 10, 22), "4");
    assert_eq!(symbol(&b, 11, 22), "3");
    assert_eq!(cell(&b, 10, 22).fg, Color::White);
    assert_eq!(cell(&b, 10, 22).bg, Color::Reset);
    assert_eq!(symbol(&b, 10, 23), " ");
    assert_eq!(symbol(&b, 11, 23), " ");
    assert_eq!(symbol(&b, 10, 24), "C");
    // gaps between bars and the rest stay blank
    for y in 0..25 {
        assert_eq!(symbol(&b, 6, y), " ");
        assert_eq!(symbol(&b, 9, y), " ");
        for x in 12..80 {
            assert_eq!(symbol(&b, x, y), " ");
        }
    }
}

#[test]
fn horizontal_fractional_bar_and_truncation() {
    // max 8: a bar of 1 is 24 eighths = 3 blocks; 3 of 8 is 9 blocks
    let d: Vec<(u8, u64)> = vec![(0x00, 8), (0x20, 1), (0xff, 3)];
    let b = draw_horizontal_distribution(&d, 8);
    // left margin 2, room for (8 - 2 - 1) / 3 = 1 bar
    assert_eq!(symbol(&b, 2, 0), FULL);
    assert_eq!(symbol(&b, 2, 23), "0");
    assert_eq!(symbol(&b, 3, 23), "0");
    assert_eq!(symbol(&b, 2, 24), " ");
    for y in 0..25 {
        for x in 4..8 {
            assert_eq!(symbol(&b, x, y), " ");
        }
    }
    let d: Vec<(u8, u64)> = vec![(0x61, 100), (0x62, 7)];
    let b = draw_horizontal_distribution(&d, 40);
    // 7 of 100 is 13 eighths: one block and a five-eighths glyph above it
    assert_eq!(symbol(&b, 7, 23), "6");
    assert_eq!(symbol(&b, 8, 23), "2");
    assert_eq!(symbol(&b, 7, 22), "\u{2585}");
    assert_eq!(symbol(&b, 8, 22), "\u{2585}");
    assert_eq!(symbol(&b, 7, 21), " ");
}

#[test]
fn end_to_end_vertical() {
    let d: Vec<(u8, u64)> = vec![(0x41, 100), (0x0a, 50), (0x43, 0)];
    let b = draw_vertical_distribution(&d, 20);
    assert_eq!(b.width(), 20);
    assert_eq!(b.height(), 2 + 2 * 3 + 1);
    assert_eq!(symbol(&b, 3, 0), "0");
    assert_eq!(symbol(&b, 16, 0), "1");
    assert_eq!(symbol(&b, 17, 0), "0");
    assert_eq!(symbol(&b, 18, 0), "0");
    assert_eq!(symbol(&b, 19, 0), " ");
    // span 16: the tallest bar fills columns 3..19
    assert_eq!(symbol(&b, 1, 2), "A");
    assert_eq!(symbol(&b, 3, 2), "4");
    assert_eq!(symbol(&b, 4, 2), "1");
    assert_eq!(cell(&b, 3, 2).bg, Color::White);
    for x in 5..19 {
        assert_eq!(symbol(&b, x, 2), FULL);
    }
    assert_eq!(symbol(&b, 19, 2), " ");
    // half of it: 8 blocks, no glyph for a newline
    assert_eq!(symbol(&b, 1, 4), " ");
    assert_eq!(symbol(&b, 3, 4), "0");
    assert_eq!(symbol(&b, 4, 4), "a");
    for x in 5..11 {
        assert_eq!(symbol(&b, x, 4), FULL);
    }
    assert_eq!(symbol(&b, 11, 4), " ");
    // nothing: label one column further in
    assert_eq!(symbol(&b, 1, 6), "C");
    assert_eq!(symbol(&b, 3, 6), " ");
    assert_eq!(symbol(&b, 4, 6), "4");
    assert_eq!(symbol(&b, 5, 6), "3");
    for x in 0..20 {
        assert_eq!(symbol(&b, x, 1), " ");
        assert_eq!(symbol(&b, x, 3), " ");
        assert_eq!(symbol(&b, x, 8), " ");
    }
    let same = draw_distribution(&d, BarGraph::Vertical, 20);
    for (p, q) in same.cells().iter().zip(b.cells().iter()) {
        assert_eq!(p.symbol, q.symbol);
    }
}

#[test]
fn counting_bytes() {
    let d = count_distribution(&b"abracadabra".to_vec());
    assert_eq!(d, vec![(b'a', 5), (b'b', 2), (b'c', 1), (b'd', 1), (b'r', 2)]);
    assert_eq!(count_distribution(&Vec::new()), vec![]);
    let all: Vec<u8> = (0..=255u8).chain(0..=255u8).collect();
    let d = count_distribution(&all);
    assert_eq!(d.len(), 256);
    assert!(d.iter().enumerate().all(|(i, &(b, n))| b as usize == i && n == 2));
}

#[test]
fn ordering_by_frequency() {
    let mut d = count_distribution(&b"abracadabra".to_vec());
    order_by_frequency(&mut d);
    assert_eq!(d, vec![(b'a', 5), (b'b', 2), (b'r', 2), (b'c', 1), (b'd', 1)]);
    let mut e: Vec<(u8, u64)> = vec![];
    order_by_frequency(&mut e);
    assert!(e.is_empty());
    let mut f = vec![(9, 1), (3, 1), (200, 7), (1, 1)];
    order_by_frequency(&mut f);
    assert_eq!(f, vec![(200, 7), (1, 1), (3, 1), (9, 1)]);
}
