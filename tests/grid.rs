use bb_cells::{
    change_colors, clear_area, write_chars_to_grid, write_string_to_grid, Attr, Cell,
    CellAccessor, CellBuffer, Color, HasSize,
};

fn narrow(_c: char) -> Option<u8> {
    Some(1)
}

fn row_text(g: &CellBuffer, y: usize) -> String {
    let (cols, _) = g.size();
    (0..cols).map(|x| g.get(x, y).unwrap().ch()).collect()
}

fn styled_grid(cols: usize, rows: usize) -> CellBuffer {
    let mut g = CellBuffer::new(cols, rows, Cell::with_char('.'));
    for (i, c) in "0123456789".chars().enumerate().take(cols * rows) {
        let x = i % cols;
        let y = i / cols;
        write_string_to_grid(
            &c.to_string(),
            &mut g,
            Color::Red,
            Color::Blue,
            Attr::Bold,
            ((x, y), (x, y)),
            false,
            narrow,
        );
    }
    g
}

#[test]
fn new_fills_every_cell_with_blank() {
    let blank = Cell::new('x', Color::Green, Color::Byte(17), Attr::Underline);
    let g = CellBuffer::new(4, 3, blank);
    assert_eq!(g.size(), (4, 3));
    assert_eq!(g.cellvec().len(), 12);
    assert!(g.cellvec().iter().all(|c| *c == blank));
}

#[test]
fn new_with_zero_size_is_empty() {
    let g = CellBuffer::new(0, 5, Cell::default());
    assert_eq!(g.cellvec().len(), 0);
    assert!(g.get(0, 0).is_none());
    let d = CellBuffer::default();
    assert_eq!(d.size(), (0, 0));
}

#[test]
fn resize_keeps_overlap_and_fills_with_blank() {
    let mut g = styled_grid(3, 2);
    let old = g.clone();
    let blank = Cell::with_char('#');
    g.resize(4, 3, blank);
    assert_eq!(g.size(), (4, 3));
    assert_eq!(g.cellvec().len(), 12);
    for y in 0..3 {
        for x in 0..4 {
            if x < 3 && y < 2 {
                assert_eq!(g.get(x, y), old.get(x, y));
            } else {
                assert_eq!(*g.get(x, y).unwrap(), blank);
            }
        }
    }
}

#[test]
fn resize_to_same_cell_count_rearranges() {
    let mut g = styled_grid(3, 2);
    g.resize(2, 3, Cell::with_char('#'));
    assert_eq!(g.size(), (2, 3));
    assert_eq!(row_text(&g, 0), "01");
    assert_eq!(row_text(&g, 1), "34");
    assert_eq!(row_text(&g, 2), "##");
}

#[test]
fn resize_shrinks() {
    let mut g = styled_grid(3, 2);
    g.resize(2, 1, Cell::default());
    assert_eq!(g.cellvec().len(), 2);
    assert_eq!(row_text(&g, 0), "01");
}

#[test]
fn clear_area_twice_equals_once() {
    let mut once = styled_grid(3, 3);
    let area = ((1, 0), (5, 1));
    clear_area(&mut once, area);
    let mut twice = once.clone();
    clear_area(&mut twice, area);
    assert_eq!(once, twice);
    assert_eq!(row_text(&once, 0), "0  ");
    assert_eq!(row_text(&once, 1), "3  ");
    assert_eq!(row_text(&once, 2), "678");
    assert_eq!(*once.get(1, 0).unwrap(), Cell::default());
    assert_eq!(once.get(0, 0).unwrap().fg(), Color::Red);
}

#[test]
fn clear_area_resets_empty_flag() {
    let mut g = CellBuffer::new(4, 1, Cell::default());
    write_string_to_grid("界", &mut g, Color::Default, Color::Default, Attr::Default, ((0, 0), (3, 0)), false, |_| Some(2));
    assert!(g.get(1, 0).unwrap().empty());
    clear_area(&mut g, ((0, 0), (3, 0)));
    assert!(!g.get(1, 0).unwrap().empty());
}

#[test]
fn clear_area_invalid_area_is_noop() {
    let mut g = styled_grid(3, 3);
    let old = g.clone();
    clear_area(&mut g, ((2, 2), (1, 1)));
    assert_eq!(g, old);
}

#[test]
fn change_colors_none_is_noop() {
    let mut g = styled_grid(3, 3);
    let old = g.clone();
    change_colors(&mut g, ((0, 0), (2, 2)), None, None);
    assert_eq!(g, old);
}

#[test]
fn change_colors_sets_only_given_colors() {
    let mut g = styled_grid(3, 3);
    change_colors(&mut g, ((1, 1), (9, 9)), Some(Color::Yellow), None);
    let c = g.get(2, 2).unwrap();
    assert_eq!(c.fg(), Color::Yellow);
    assert_eq!(c.bg(), Color::Blue);
    assert_eq!(c.ch(), '8');
    assert_eq!(c.attrs(), Attr::Bold);
    assert_eq!(g.get(0, 2).unwrap().fg(), Color::Red);
    assert_eq!(g.get(1, 0).unwrap().fg(), Color::Red);
    change_colors(&mut g, ((0, 0), (0, 0)), None, Some(Color::Byte(200)));
    assert_eq!(g.get(0, 0).unwrap().bg(), Color::Byte(200));
    assert_eq!(g.get(0, 0).unwrap().fg(), Color::Red);
}

#[test]
fn write_empty_string_returns_corner_and_changes_nothing() {
    let mut g = styled_grid(3, 3);
    let old = g.clone();
    let r = write_string_to_grid("", &mut g, Color::Green, Color::Green, Attr::Reverse, ((1, 2), (2, 2)), true, narrow);
    assert_eq!(r, (1, 2));
    assert_eq!(g, old);
}

#[test]
fn write_ab_into_five_by_one() {
    let mut g = CellBuffer::new(10, 3, Cell::default());
    let r = write_string_to_grid("ab", &mut g, Color::White, Color::Black, Attr::Bold, ((0, 0), (4, 0)), false, narrow);
    assert_eq!(r, (2, 0));
    assert_eq!(g.get(0, 0).unwrap().ch(), 'a');
    assert_eq!(g.get(1, 0).unwrap().ch(), 'b');
    assert_eq!(g.get(2, 0).unwrap().ch(), ' ');
    assert_eq!(g.get(0, 0).unwrap().fg(), Color::White);
    assert_eq!(g.get(1, 0).unwrap().bg(), Color::Black);
    assert_eq!(g.get(1, 0).unwrap().attrs(), Attr::Bold);
    assert_eq!(g.get(2, 0).unwrap().fg(), Color::Default);
}

#[test]
fn write_truncates_at_area_edge_without_line_break() {
    let mut g = CellBuffer::new(10, 3, Cell::default());
    let r = write_string_to_grid("abcdef", &mut g, Color::Default, Color::Default, Attr::Default, ((0, 0), (2, 0)), false, narrow);
    assert_eq!(row_text(&g, 0), "abc       ");
    assert_eq!(row_text(&g, 1), "          ");
    // the next row lies below the area: the cursor stays on the last row
    assert_eq!(r, (0, 0));
}

#[test]
fn write_stops_at_first_wrap_without_line_break() {
    let mut g = CellBuffer::new(10, 3, Cell::default());
    let r = write_string_to_grid("abcdef", &mut g, Color::Default, Color::Default, Attr::Default, ((0, 0), (2, 1)), false, narrow);
    assert_eq!(row_text(&g, 0), "abc       ");
    assert_eq!(row_text(&g, 1), "          ");
    assert_eq!(r, (0, 1));
}

#[test]
fn write_wraps_with_line_break() {
    let mut g = CellBuffer::new(10, 3, Cell::default());
    let r = write_string_to_grid("abcdef", &mut g, Color::Default, Color::Default, Attr::Default, ((0, 0), (2, 1)), true, narrow);
    assert_eq!(row_text(&g, 0), "abc       ");
    assert_eq!(row_text(&g, 1), "def       ");
    // after 'f' the cursor wraps below the area and stops one row above
    assert_eq!(r, (0, 1));
}

#[test]
fn write_wraps_at_grid_edge() {
    let mut g = CellBuffer::new(3, 2, Cell::default());
    let r = write_string_to_grid("abcdefgh", &mut g, Color::Default, Color::Default, Attr::Default, ((0, 0), (9, 9)), true, narrow);
    assert_eq!(row_text(&g, 0), "abc");
    assert_eq!(row_text(&g, 1), "def");
    assert_eq!(r, (0, 1));
}

#[test]
fn wide_char_takes_two_columns() {
    let mut g = CellBuffer::new(5, 1, Cell::default());
    let width = |c: char| if c == '界' { Some(2) } else { Some(1) };
    let r = write_string_to_grid("界a", &mut g, Color::Default, Color::Default, Attr::Default, ((0, 0), (4, 0)), false, width);
    assert_eq!(r, (3, 0));
    assert_eq!(g.get(0, 0).unwrap().ch(), '界');
    assert!(!g.get(0, 0).unwrap().empty());
    assert!(g.get(1, 0).unwrap().empty());
    assert_eq!(g.get(2, 0).unwrap().ch(), 'a');
}

#[test]
fn zero_width_char_takes_no_extra_column() {
    let mut g = CellBuffer::new(5, 1, Cell::default());
    let width = |c: char| if c == '\u{301}' { Some(0) } else { Some(1) };
    let r = write_string_to_grid("e\u{301}x", &mut g, Color::Default, Color::Default, Attr::Default, ((0, 0), (4, 0)), false, width);
    assert_eq!(r, (3, 0));
    assert_eq!(g.get(1, 0).unwrap().ch(), '\u{301}');
    assert!(g.get(1, 0).unwrap().empty());
    assert!(!g.get(0, 0).unwrap().empty());
    assert_eq!(g.get(2, 0).unwrap().ch(), 'x');
}

#[test]
fn unknown_width_char_is_marked_empty() {
    let mut g = CellBuffer::new(5, 1, Cell::default());
    let widths = vec![None, Some(1)];
    let r = write_chars_to_grid(&vec!['\u{7}', 'z'], &widths, &mut g, Color::Default, Color::Default, Attr::Default, ((0, 0), (4, 0)), false);
    assert_eq!(r, (2, 0));
    assert!(g.get(0, 0).unwrap().empty());
    assert_eq!(g.get(1, 0).unwrap().ch(), 'z');
}

#[test]
fn wide_char_second_column_wraps() {
    let mut g = CellBuffer::new(5, 2, Cell::default());
    let widths = vec![Some(1), Some(1), Some(2), Some(1)];
    let r = write_chars_to_grid(&vec!['a', 'b', '界', 'c'], &widths, &mut g, Color::Default, Color::Default, Attr::Default, ((0, 0), (2, 1)), true);
    assert_eq!(g.get(2, 0).unwrap().ch(), '界');
    // the placeholder half lands on the next row
    assert!(g.get(0, 1).unwrap().empty());
    assert_eq!(g.get(1, 1).unwrap().ch(), 'c');
    assert_eq!(r, (2, 1));
}

#[test]
fn wide_char_second_column_stops_without_line_break() {
    let mut g = CellBuffer::new(5, 2, Cell::default());
    let widths = vec![Some(1), Some(1), Some(2), Some(1)];
    let r = write_chars_to_grid(&vec!['a', 'b', '界', 'c'], &widths, &mut g, Color::Default, Color::Default, Attr::Default, ((0, 0), (2, 1)), false);
    assert_eq!(g.get(2, 0).unwrap().ch(), '界');
    assert!(!g.get(0, 1).unwrap().empty());
    assert_eq!(r, (0, 1));
}

#[test]
fn tab_takes_two_columns_whatever_its_width() {
    for w in [None, Some(0), Some(1), Some(2)] {
        let mut g = CellBuffer::new(6, 1, Cell::with_char('.'));
        let width = move |c: char| if c == '\t' { w } else { Some(1) };
        let r = write_string_to_grid("\tx", &mut g, Color::Cyan, Color::Default, Attr::Default, ((0, 0), (5, 0)), false, width);
        assert_eq!(r, (3, 0));
        assert_eq!(row_text(&g, 0), "  x...");
        assert!(!g.get(0, 0).unwrap().empty());
        assert!(!g.get(1, 0).unwrap().empty());
        assert_eq!(g.get(0, 0).unwrap().fg(), Color::Cyan);
    }
}

#[test]
fn carriage_return_is_skipped() {
    let mut g = CellBuffer::new(5, 1, Cell::default());
    let r = write_string_to_grid("a\r\rb", &mut g, Color::Default, Color::Default, Attr::Default, ((0, 0), (4, 0)), false, narrow);
    assert_eq!(r, (2, 0));
    assert_eq!(row_text(&g, 0), "ab   ");
}

#[test]
fn write_starts_at_area_corner() {
    let mut g = CellBuffer::new(5, 3, Cell::default());
    let r = write_string_to_grid("xyz", &mut g, Color::Default, Color::Default, Attr::Default, ((2, 1), (3, 2)), true, narrow);
    assert_eq!(row_text(&g, 1), "  xy ");
    assert_eq!(row_text(&g, 2), "  z  ");
    assert_eq!(r, (3, 2));
}

#[test]
fn operations_outside_grid_change_nothing() {
    let mut g = styled_grid(3, 3);
    let old = g.clone();
    for area in [((3, 0), (5, 5)), ((0, 3), (5, 5)), ((7, 7), (9, 9))] {
        change_colors(&mut g, area, Some(Color::Red), Some(Color::Green));
        clear_area(&mut g, area);
        let r = write_string_to_grid("abc", &mut g, Color::Default, Color::Default, Attr::Default, area, true, narrow);
        assert_eq!(r, area.0);
        assert_eq!(g, old);
    }
}

#[test]
fn clear_fills_every_cell() {
    let mut g = styled_grid(3, 2);
    let blank = Cell::with_char('-');
    g.clear(blank);
    assert_eq!(g.size(), (3, 2));
    assert!(g.cellvec().iter().all(|c| *c == blank));
}

#[test]
fn checked_and_direct_access() {
    let g = styled_grid(3, 2);
    assert_eq!(g.pos_to_index(1, 1), Some(4));
    assert_eq!(g.pos_to_index(3, 0), None);
    assert_eq!(g.pos_to_index(0, 2), None);
    assert_eq!(g.get(2, 1).unwrap().ch(), '5');
    assert!(g.get(3, 1).is_none());
    assert_eq!(g.index((1, 1)).ch(), '4');
}

#[test]
fn cell_accessors() {
    let mut c = Cell::new('x', Color::Default, Color::Green, Attr::Default);
    assert_eq!(c.ch(), 'x');
    assert_eq!(c.fg(), Color::Default);
    assert_eq!(c.bg(), Color::Green);
    assert_eq!(c.attrs(), Attr::Default);
    assert!(!c.empty());
    c.set_ch('y');
    c.set_fg(Color::White);
    c.set_bg(Color::Black);
    c.set_attrs(Attr::BoldUnderline);
    assert_eq!(c.ch(), 'y');
    assert_eq!(c.fg(), Color::White);
    assert_eq!(c.bg(), Color::Black);
    assert_eq!(c.attrs(), Attr::BoldUnderline);
    let d = Cell::default();
    assert_eq!(d, Cell::with_char(' '));
    assert_eq!(d.fg(), Color::Default);
    assert_eq!(d.bg(), Color::Default);
    assert_eq!(d.attrs(), Attr::Default);
    assert!(!d.empty());
}

#[test]
fn color_bytes() {
    let named = [
        Color::Black,
        Color::Red,
        Color::Green,
        Color::Yellow,
        Color::Blue,
        Color::Magenta,
        Color::Cyan,
        Color::White,
    ];
    for (i, c) in named.iter().enumerate() {
        assert_eq!(c.as_byte() as usize, i);
    }
    assert_eq!(Color::Default.as_byte(), 0);
    assert_eq!(Color::Byte(0xab).as_byte(), 0xab);
    assert_eq!(Color::Red.as_byte(), Color::Byte(0x01).as_byte());
}

#[test]
fn color_as_termion_keeps_index() {
    assert_eq!(Color::Magenta.as_termion().0, 5);
    assert_eq!(Color::Byte(200).as_termion().0, 200);
    assert_eq!(Color::Default.as_termion().0, 0);
}

#[test]
fn attr_bits() {
    assert_eq!(Attr::Default.as_bits(), 0b000);
    assert_eq!(Attr::Bold.as_bits(), 0b001);
    assert_eq!(Attr::Reverse.as_bits(), 0b010);
    assert_eq!(Attr::BoldReverse.as_bits(), 0b101);
    assert_eq!(Attr::Underline.as_bits(), 0b100);
    assert_eq!(Attr::BoldUnderline.as_bits(), 0b011);
    assert_eq!(Attr::UnderlineReverse.as_bits(), 0b110);
    assert_eq!(Attr::BoldReverseUnderline.as_bits(), 0b111);
}
