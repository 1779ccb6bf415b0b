use bb_cells::{Attr, Cell, CellAccessor, CellBuffer, Color, HasSize};

#[test]
fn to_text_emits_rows_in_order() {
    let mut g = CellBuffer::new(3, 2, Cell::with_char('.'));
    g.index_mut((0, 0)).set_ch('a');
    g.index_mut((2, 1)).set_ch('z');
    assert_eq!(g.to_text(), "a....z");
}

#[test]
fn to_text_stops_row_at_line_terminator() {
    let mut g = CellBuffer::new(4, 2, Cell::with_char('x'));
    g.index_mut((1, 0)).set_ch('\n');
    assert_eq!(g.to_text(), "x\nxxxx");
}

#[test]
fn to_text_of_empty_buffer() {
    assert_eq!(CellBuffer::new(0, 0, Cell::default()).to_text(), "");
}

#[test]
fn from_text_packs_trimmed_lines_into_one_row() {
    let g = CellBuffer::from_text("ab  \ncd\t\r\n\ne");
    assert_eq!(g.size(), (9, 1));
    let chars: String = g.cellvec().iter().map(|c| c.ch()).collect();
    assert_eq!(chars, "ab\ncd\n\ne\n");
    assert!(g.cellvec().iter().all(|c| c.fg() == Color::Default && c.attrs() == Attr::Default));
}

#[test]
fn from_text_drops_empty_last_line() {
    let g = CellBuffer::from_text("ab\n");
    let chars: String = g.cellvec().iter().map(|c| c.ch()).collect();
    assert_eq!(chars, "ab\n");
    let e = CellBuffer::from_text("");
    assert_eq!(e.size(), (0, 1));
}

#[test]
fn from_text_renders_first_line() {
    let g = CellBuffer::from_text("hi\nthere");
    assert_eq!(g.to_text(), "hi\n");
}

#[test]
fn get_mut_changes_one_cell() {
    let mut g = CellBuffer::new(2, 2, Cell::default());
    if let Some(c) = g.get_mut(1, 1) {
        c.set_fg(Color::Magenta);
        c.set_ch('q');
    }
    assert!(g.get_mut(2, 0).is_none());
    assert_eq!(g.get(1, 1).unwrap().ch(), 'q');
    assert_eq!(g.get(1, 1).unwrap().fg(), Color::Magenta);
    assert_eq!(*g.get(0, 1).unwrap(), Cell::default());
}

#[test]
fn from_str_matches_from_text() {
    let a = CellBuffer::from("one \ntwo");
    let b = CellBuffer::from_text("one \ntwo");
    assert_eq!(a, b);
    assert_eq!(a.size(), (8, 1));
}

#[test]
fn cellvec_mut_changes_cells_in_place() {
    let mut g = CellBuffer::new(2, 2, Cell::default());
    g.cellvec_mut()[3].set_ch('k');
    assert_eq!(g.size(), (2, 2));
    assert_eq!(g.get(1, 1).unwrap().ch(), 'k');
    assert_eq!(g.cellvec().len(), 4);
}

#[test]
fn from_str_trims_and_sizes_exactly() {
    let g = CellBuffer::from("ab \ncd");
    assert_eq!(g.size(), (6, 1));
    let expected: Vec<Cell> = "ab\ncd\n".chars().map(Cell::with_char).collect();
    assert_eq!(g.cellvec(), &expected);
}

#[test]
fn setters_chain() {
    let mut c = Cell::default();
    c.set_ch('z').set_fg(Color::Red).set_bg(Color::Blue).set_attrs(Attr::Reverse);
    assert_eq!(c, Cell::new('z', Color::Red, Color::Blue, Attr::Reverse));
}
