//! Styled cells, the cell grid, and the operations that compose text into it.

use crate::position::{in_area, is_valid_area, valid_area, Area, HasSize, Pos, Size};
use termion::color::AnsiValue;
use vstd::arithmetic::div_mod::{lemma_fundamental_div_mod, lemma_fundamental_div_mod_converse};
use vstd::prelude::*;

verus! {

/// Declares termion's `color::AnsiValue`, a 256-colour palette index held in
/// its one public `u8` field.
#[verifier::external_type_specification]
pub struct ExAnsiValue(AnsiValue);

/// The colour of a `Cell`.
///
/// The eight basic colours correspond to `0x00..=0x07` of the 8-bit colour
/// range, `Byte` names any entry of that range, and `Default` is the
/// terminal's own default colour.
#[derive(Debug, Copy, Clone, PartialEq, Eq, Structural)]
pub enum Color {
    Black,
    Red,
    Green,
    Yellow,
    Blue,
    Magenta,
    Cyan,
    White,
    Byte(u8),
    Default,
}

/// The palette index of a colour.
pub open spec fn color_byte(c: Color) -> u8 {
    match c {
        Color::Black => 0x00,
        Color::Red => 0x01,
        Color::Green => 0x02,
        Color::Yellow => 0x03,
        Color::Blue => 0x04,
        Color::Magenta => 0x05,
        Color::Cyan => 0x06,
        Color::White => 0x07,
        Color::Byte(b) => b,
        Color::Default => 0x00,
    }
}

impl Color {
    /// Returns the `u8` representation of the `Color`.
    pub fn as_byte(self) -> (r: u8)
        ensures
            r == color_byte(self),
    {
        match self {
            Color::Black => 0x00,
            Color::Red => 0x01,
            Color::Green => 0x02,
            Color::Yellow => 0x03,
            Color::Blue => 0x04,
            Color::Magenta => 0x05,
            Color::Cyan => 0x06,
            Color::White => 0x07,
            Color::Byte(b) => b,
            Color::Default => 0x00,
        }
    }

    /// The colour as the terminal backend's palette value, with the same index
    /// as `as_byte`.
    pub fn as_termion(self) -> (r: AnsiValue)
        ensures
            r.0 == color_byte(self),
    {
        AnsiValue(self.as_byte())
    }
}

/// The attributes of a `Cell`: every combination of bold, underline and
/// reverse video.
#[derive(Debug, Copy, Clone, PartialEq, Eq, Structural)]
pub enum Attr {
    Default,
    Bold,
    Underline,
    BoldUnderline,
    Reverse,
    BoldReverse,
    UnderlineReverse,
    BoldReverseUnderline,
}

/// The fixed three-bit encoding of each attribute combination.
pub open spec fn attr_bits(a: Attr) -> u8 {
    match a {
        Attr::Default => 0b000,
        Attr::Bold => 0b001,
        Attr::Underline => 0b100,
        Attr::BoldUnderline => 0b011,
        Attr::Reverse => 0b010,
        Attr::BoldReverse => 0b101,
        Attr::UnderlineReverse => 0b110,
        Attr::BoldReverseUnderline => 0b111,
    }
}

impl Attr {
    /// The canonical three-bit encoding of this combination.
    pub fn as_bits(self) -> (r: u8)
        ensures
            r == attr_bits(self),
    {
        match self {
            Attr::Default => 0b000,
            Attr::Bold => 0b001,
            Attr::Underline => 0b100,
            Attr::BoldUnderline => 0b011,
            Attr::Reverse => 0b010,
            Attr::BoldReverse => 0b101,
            Attr::UnderlineReverse => 0b110,
            Attr::BoldReverseUnderline => 0b111,
        }
    }
}

/// A single point of the terminal display: a character and its style.
///
/// `empty` marks a cell that the renderer skips: the continuation of a
/// zero-width character or the trailing half of a wide one.
#[derive(Debug, Copy, Clone, PartialEq, Eq, Structural)]
pub struct Cell {
    ch: char,
    empty: bool,
    fg: Color,
    bg: Color,
    attrs: Attr,
}

/// A cell that is drawn, with the given character and style.
pub closed spec fn make_cell(ch: char, fg: Color, bg: Color, attrs: Attr) -> Cell {
    Cell { ch, empty: false, fg, bg, attrs }
}

/// The cell that `clear_area` leaves: a space in the default style.
pub open spec fn blank_cell() -> Cell {
    make_cell(' ', Color::Default, Color::Default, Attr::Default)
}

impl Cell {
    pub closed spec fn spec_ch(self) -> char {
        self.ch
    }

    pub closed spec fn spec_fg(self) -> Color {
        self.fg
    }

    pub closed spec fn spec_bg(self) -> Color {
        self.bg
    }

    pub closed spec fn spec_attrs(self) -> Attr {
        self.attrs
    }

    pub closed spec fn spec_empty(self) -> bool {
        self.empty
    }

    /// This cell with another character.
    pub closed spec fn with_ch(self, c: char) -> Cell {
        Cell { ch: c, ..self }
    }

    pub closed spec fn with_fg(self, c: Color) -> Cell {
        Cell { fg: c, ..self }
    }

    pub closed spec fn with_bg(self, c: Color) -> Cell {
        Cell { bg: c, ..self }
    }

    pub closed spec fn with_attrs(self, a: Attr) -> Cell {
        Cell { attrs: a, ..self }
    }

    /// This cell with its `empty` flag set to `e`.
    pub closed spec fn with_empty(self, e: bool) -> Cell {
        Cell { empty: e, ..self }
    }

    /// This cell drawn in the given colours and attributes.
    pub closed spec fn stamped(self, fg: Color, bg: Color, attrs: Attr) -> Cell {
        Cell { fg: fg, bg: bg, attrs: attrs, ..self }
    }

    /// This cell with whichever of the two colours are given.
    pub closed spec fn recolored(self, fg: Option<Color>, bg: Option<Color>) -> Cell {
        Cell {
            fg: match fg {
                Some(f) => f,
                None => self.fg,
            },
            bg: match bg {
                Some(b) => b,
                None => self.bg,
            },
            ..self
        }
    }

    /// Creates a new `Cell` with the given `char`, `Color`s and `Attr`.
    pub fn new(ch: char, fg: Color, bg: Color, attrs: Attr) -> (r: Cell)
        ensures
            r == make_cell(ch, fg, bg, attrs),
    {
        Cell { ch, fg, bg, attrs, empty: false }
    }

    /// Creates a new `Cell` with the given `char` and default style.
    pub fn with_char(ch: char) -> (r: Cell)
        ensures
            r == blank_cell().with_ch(ch),
    {
        Cell::new(ch, Color::Default, Color::Default, Attr::Default)
    }

    /// Returns the `Cell`'s character.
    pub fn ch(&self) -> (r: char)
        ensures
            r == self.spec_ch(),
    {
        self.ch
    }

    /// Sets the `Cell`'s character to the given `char`; returns the cell, so
    /// that calls can be chained.
    pub fn set_ch(&mut self, newch: char) -> (r: &mut Cell)
        ensures
            *r == old(self).with_ch(newch),
            *final(self) == *final(r),
    {
        self.ch = newch;
        self
    }

    /// Returns the `Cell`'s foreground `Color`.
    pub fn fg(&self) -> (r: Color)
        ensures
            r == self.spec_fg(),
    {
        self.fg
    }

    /// Sets the `Cell`'s foreground `Color` to the given `Color`; returns the
    /// cell, so that calls can be chained.
    pub fn set_fg(&mut self, newfg: Color) -> (r: &mut Cell)
        ensures
            *r == old(self).with_fg(newfg),
            *final(self) == *final(r),
    {
        self.fg = newfg;
        self
    }

    /// Returns the `Cell`'s background `Color`.
    pub fn bg(&self) -> (r: Color)
        ensures
            r == self.spec_bg(),
    {
        self.bg
    }

    /// Sets the `Cell`'s background `Color` to the given `Color`; returns the
    /// cell, so that calls can be chained.
    pub fn set_bg(&mut self, newbg: Color) -> (r: &mut Cell)
        ensures
            *r == old(self).with_bg(newbg),
            *final(self) == *final(r),
    {
        self.bg = newbg;
        self
    }

    /// Returns the `Cell`'s attributes.
    pub fn attrs(&self) -> (r: Attr)
        ensures
            r == self.spec_attrs(),
    {
        self.attrs
    }

    /// Sets the `Cell`'s attributes; returns the cell, so that calls can be
    /// chained.
    pub fn set_attrs(&mut self, newattrs: Attr) -> (r: &mut Cell)
        ensures
            *r == old(self).with_attrs(newattrs),
            *final(self) == *final(r),
    {
        self.attrs = newattrs;
        self
    }

    /// Whether the renderer must skip this cell.
    pub fn empty(&self) -> (r: bool)
        ensures
            r == self.spec_empty(),
    {
        self.empty
    }
}

/// The fields of a cell made by `make_cell`: the given character and style,
/// not `empty`.
pub broadcast proof fn lemma_make_cell_fields(ch: char, fg: Color, bg: Color, attrs: Attr)
    ensures
        #![trigger make_cell(ch, fg, bg, attrs)]
        make_cell(ch, fg, bg, attrs).spec_ch() == ch,
        make_cell(ch, fg, bg, attrs).spec_fg() == fg,
        make_cell(ch, fg, bg, attrs).spec_bg() == bg,
        make_cell(ch, fg, bg, attrs).spec_attrs() == attrs,
        !make_cell(ch, fg, bg, attrs).spec_empty(),
{
}

/// `with_ch` sets the character and keeps every other field.
pub broadcast proof fn lemma_with_ch_fields(c: Cell, ch: char)
    ensures
        #![trigger c.with_ch(ch)]
        c.with_ch(ch).spec_ch() == ch,
        c.with_ch(ch).spec_fg() == c.spec_fg(),
        c.with_ch(ch).spec_bg() == c.spec_bg(),
        c.with_ch(ch).spec_attrs() == c.spec_attrs(),
        c.with_ch(ch).spec_empty() == c.spec_empty(),
{
}

/// `with_fg` sets the foreground and keeps every other field.
pub broadcast proof fn lemma_with_fg_fields(c: Cell, fg: Color)
    ensures
        #![trigger c.with_fg(fg)]
        c.with_fg(fg).spec_ch() == c.spec_ch(),
        c.with_fg(fg).spec_fg() == fg,
        c.with_fg(fg).spec_bg() == c.spec_bg(),
        c.with_fg(fg).spec_attrs() == c.spec_attrs(),
        c.with_fg(fg).spec_empty() == c.spec_empty(),
{
}

/// `with_bg` sets the background and keeps every other field.
pub broadcast proof fn lemma_with_bg_fields(c: Cell, bg: Color)
    ensures
        #![trigger c.with_bg(bg)]
        c.with_bg(bg).spec_ch() == c.spec_ch(),
        c.with_bg(bg).spec_fg() == c.spec_fg(),
        c.with_bg(bg).spec_bg() == bg,
        c.with_bg(bg).spec_attrs() == c.spec_attrs(),
        c.with_bg(bg).spec_empty() == c.spec_empty(),
{
}

/// `with_attrs` sets the attributes and keeps every other field.
pub broadcast proof fn lemma_with_attrs_fields(c: Cell, attrs: Attr)
    ensures
        #![trigger c.with_attrs(attrs)]
        c.with_attrs(attrs).spec_ch() == c.spec_ch(),
        c.with_attrs(attrs).spec_fg() == c.spec_fg(),
        c.with_attrs(attrs).spec_bg() == c.spec_bg(),
        c.with_attrs(attrs).spec_attrs() == attrs,
        c.with_attrs(attrs).spec_empty() == c.spec_empty(),
{
}

/// `with_empty` sets the `empty` flag and keeps every other field.
pub broadcast proof fn lemma_with_empty_fields(c: Cell, e: bool)
    ensures
        #![trigger c.with_empty(e)]
        c.with_empty(e).spec_ch() == c.spec_ch(),
        c.with_empty(e).spec_fg() == c.spec_fg(),
        c.with_empty(e).spec_bg() == c.spec_bg(),
        c.with_empty(e).spec_attrs() == c.spec_attrs(),
        c.with_empty(e).spec_empty() == e,
{
}

/// `stamped` sets both colours and the attributes, and keeps the character
/// and the `empty` flag.
pub broadcast proof fn lemma_stamped_fields(c: Cell, fg: Color, bg: Color, attrs: Attr)
    ensures
        #![trigger c.stamped(fg, bg, attrs)]
        c.stamped(fg, bg, attrs).spec_ch() == c.spec_ch(),
        c.stamped(fg, bg, attrs).spec_fg() == fg,
        c.stamped(fg, bg, attrs).spec_bg() == bg,
        c.stamped(fg, bg, attrs).spec_attrs() == attrs,
        c.stamped(fg, bg, attrs).spec_empty() == c.spec_empty(),
{
}

/// `recolored` sets each colour that is given and keeps every other field.
pub broadcast proof fn lemma_recolored_fields(c: Cell, fg: Option<Color>, bg: Option<Color>)
    ensures
        #![trigger c.recolored(fg, bg)]
        c.recolored(fg, bg).spec_ch() == c.spec_ch(),
        c.recolored(fg, bg).spec_fg() == (match fg {
            Some(f) => f,
            None => c.spec_fg(),
        }),
        c.recolored(fg, bg).spec_bg() == (match bg {
            Some(b) => b,
            None => c.spec_bg(),
        }),
        c.recolored(fg, bg).spec_attrs() == c.spec_attrs(),
        c.recolored(fg, bg).spec_empty() == c.spec_empty(),
{
}

/// Two cells with the same fields are the same cell.
pub proof fn lemma_cell_ext_equal(a: Cell, b: Cell)
    requires
        a.spec_ch() == b.spec_ch(),
        a.spec_fg() == b.spec_fg(),
        a.spec_bg() == b.spec_bg(),
        a.spec_attrs() == b.spec_attrs(),
        a.spec_empty() == b.spec_empty(),
    ensures
        a == b,
{
}

/// The field laws of cells.
pub broadcast group group_cell_laws {
    lemma_make_cell_fields,
    lemma_with_ch_fields,
    lemma_with_fg_fields,
    lemma_with_bg_fields,
    lemma_with_attrs_fields,
    lemma_with_empty_fields,
    lemma_stamped_fields,
    lemma_recolored_fields,
}

impl Default for Cell {
    /// A space in the default style.
    fn default() -> (r: Cell)
        ensures
            r == blank_cell(),
    {
        Cell::new(' ', Color::Default, Color::Default, Attr::Default)
    }
}

/// The mathematical content of a `CellBuffer`: its size and its cells in
/// row-major order.
pub struct GridView {
    pub cols: nat,
    pub rows: nat,
    pub cells: Seq<Cell>,
}

impl GridView {
    /// The flat index of the cell at `(x, y)`.
    pub open spec fn index_of(self, x: int, y: int) -> int {
        y * self.cols + x
    }

    /// The cell at `(x, y)`.
    pub open spec fn at(self, x: int, y: int) -> Cell {
        self.cells[self.index_of(x, y)]
    }

    pub open spec fn in_bounds(self, x: int, y: int) -> bool {
        0 <= x < self.cols && 0 <= y < self.rows
    }
}

/// A two-dimensional array of `Cell`s that represents a terminal display,
/// stored row by row: the cell at `(x, y)` has index `cols * y + x`.
#[derive(Clone, Debug, PartialEq, Eq)]
pub struct CellBuffer {
    cols: usize,
    rows: usize,
    buf: Vec<Cell>,
}

impl View for CellBuffer {
    type V = GridView;

    closed spec fn view(&self) -> GridView {
        GridView { cols: self.cols as nat, rows: self.rows as nat, cells: self.buf@ }
    }
}

/// `i` lies in a grid of `cols` columns at column `i % cols` of row `i / cols`.
proof fn lemma_index_coords(i: int, cols: int, rows: int)
    requires
        0 <= i < cols * rows,
        0 < cols,
    ensures
        i == (i / cols) * cols + i % cols,
        0 <= i % cols < cols,
        0 <= i / cols < rows,
{
    lemma_fundamental_div_mod(i, cols);
    let q = i / cols;
    let r = i % cols;
    assert(q * cols == cols * q) by (nonlinear_arith);
    assert(0 <= q < rows) by (nonlinear_arith)
        requires
            i == q * cols + r,
            0 <= r < cols,
            0 <= i < cols * rows,
    ;
}

/// The cell at `(x, y)` has index `y * cols + x`, which lies below `cols * rows`.
proof fn lemma_coords_index(x: int, y: int, cols: int, rows: int)
    requires
        0 <= x < cols,
        0 <= y < rows,
    ensures
        0 <= y * cols + x < cols * rows,
        (y * cols + x) % cols == x,
        (y * cols + x) / cols == y,
{
    assert(0 <= y * cols + x < cols * rows) by (nonlinear_arith)
        requires
            0 <= x < cols,
            0 <= y < rows,
    ;
    lemma_fundamental_div_mod_converse(y * cols + x, cols, y, x);
}

impl CellBuffer {
    /// The buffer holds exactly `cols * rows` cells, a number that fits in
    /// `usize`.
    pub open spec fn wf(&self) -> bool {
        &&& self@.cells.len() == self@.cols * self@.rows
        &&& self@.cols <= usize::MAX
        &&& self@.rows <= usize::MAX
        &&& self@.cols * self@.rows <= usize::MAX
    }

    /// Constructs a new `CellBuffer` with the given number of columns and rows,
    /// every cell a copy of `cell`.
    pub fn new(cols: usize, rows: usize, cell: Cell) -> (r: CellBuffer)
        requires
            cols * rows <= usize::MAX,
        ensures
            r.wf(),
            r@.cols == cols,
            r@.rows == rows,
            r@.cells == Seq::new((cols * rows) as nat, |_i: int| cell),
    {
        let n: usize = cols * rows;
        let mut buf: Vec<Cell> = Vec::with_capacity(n);
        let mut i: usize = 0;
        while i < n
            invariant
                i <= n,
                buf@ == Seq::new(i as nat, |_i: int| cell),
            decreases n - i,
        {
            buf.push(cell);
            i += 1;
            assert(buf@ =~= Seq::new(i as nat, |_i: int| cell));
        }
        CellBuffer { cols, rows, buf }
    }

    /// Resizes the buffer to `newcols` by `newrows`: each cell whose
    /// coordinates existed before keeps its content, every other cell is a copy
    /// of `blank`.
    pub fn resize(&mut self, newcols: usize, newrows: usize, blank: Cell)
        requires
            old(self).wf(),
            newcols * newrows <= usize::MAX,
        ensures
            final(self).wf(),
            final(self)@ == resized(old(self)@, newcols as nat, newrows as nat, blank),
    {
        let newlen: usize = newcols * newrows;
        let ghost g = self@;
        let oldlen: usize = self.buf.len();
        let mut newbuf: Vec<Cell> = Vec::with_capacity(newlen);
        let mut i: usize = 0;
        while i < newlen
            invariant
                self@ == g,
                g.cells.len() == g.cols * g.rows,
                g.cells.len() == oldlen,
                newlen == newcols * newrows,
                i <= newlen,
                newbuf@ == resized(g, newcols as nat, newrows as nat, blank).cells.take(i as int),
            decreases newlen - i,
        {
            proof {
                assert(newcols > 0) by (nonlinear_arith)
                    requires
                        i < newlen,
                        newlen == newcols * newrows,
                ;
                lemma_index_coords(i as int, newcols as int, newrows as int);
            }
            let x = i % newcols;
            let y = i / newcols;
            let cell = if x < self.cols && y < self.rows {
                proof {
                    lemma_coords_index(x as int, y as int, g.cols as int, g.rows as int);
                }
                self.buf[y * self.cols + x]
            } else {
                blank
            };
            newbuf.push(cell);
            i += 1;
            assert(newbuf@ =~= resized(g, newcols as nat, newrows as nat, blank).cells.take(
                i as int,
            ));
        }
        assert(newbuf@ =~= resized(g, newcols as nat, newrows as nat, blank).cells);
        self.buf = newbuf;
        self.cols = newcols;
        self.rows = newrows;
    }
}

/// The grid of `newcols` by `newrows` cells that keeps each cell of `g` whose
/// coordinates fit and fills the rest with `blank`.
pub open spec fn resized(g: GridView, newcols: nat, newrows: nat, blank: Cell) -> GridView {
    GridView {
        cols: newcols,
        rows: newrows,
        cells: Seq::new(
            newcols * newrows,
            |i: int|
                if g.in_bounds(i % newcols as int, i / newcols as int) {
                    g.at(i % newcols as int, i / newcols as int)
                } else {
                    blank
                },
        ),
    }
}

/// Whether the area selects any cell of `g`: it is valid and its upper-left
/// corner lies inside the grid.
pub open spec fn area_reaches(g: GridView, area: Area) -> bool {
    valid_area(area) && area.0.0 < g.cols && area.0.1 < g.rows
}

/// Whether an operation on `area` touches the cell of flat index `i`.
pub open spec fn in_target(g: GridView, area: Area, i: int) -> bool {
    area_reaches(g, area) && in_area(i % (g.cols as int), i / (g.cols as int), area)
}

/// `g` with the given colours applied to every cell of `area` that lies in it.
pub open spec fn recolored_area(
    g: GridView,
    area: Area,
    fg: Option<Color>,
    bg: Option<Color>,
) -> GridView {
    GridView {
        cols: g.cols,
        rows: g.rows,
        cells: Seq::new(
            g.cells.len(),
            |i: int|
                if in_target(g, area, i) {
                    g.cells[i].recolored(fg, bg)
                } else {
                    g.cells[i]
                },
        ),
    }
}

/// `g` with every cell of `area` that lies in it reset to `blank_cell()`.
pub open spec fn cleared_area(g: GridView, area: Area) -> GridView {
    GridView {
        cols: g.cols,
        rows: g.rows,
        cells: Seq::new(
            g.cells.len(),
            |i: int|
                if in_target(g, area, i) {
                    blank_cell()
                } else {
                    g.cells[i]
                },
        ),
    }
}

/// What an area operation does to each cell it touches.
#[derive(Clone, Copy)]
enum Paint {
    Recolor(Option<Color>, Option<Color>),
    Clear,
}

spec fn painted_cell(c: Cell, p: Paint) -> Cell {
    match p {
        Paint::Recolor(fg, bg) => c.recolored(fg, bg),
        Paint::Clear => blank_cell(),
    }
}

fn paint_cell(c: Cell, p: Paint) -> (r: Cell)
    ensures
        r == painted_cell(c, p),
{
    match p {
        Paint::Recolor(fg, bg) => {
            let mut r = c;
            if let Some(f) = fg {
                r.fg = f;
            }
            if let Some(b) = bg {
                r.bg = b;
            }
            r
        },
        Paint::Clear => Cell::new(' ', Color::Default, Color::Default, Attr::Default),
    }
}

/// Whether the cell of flat index `i` comes before `(x, y)` in row-major order.
spec fn before(i: int, cols: int, x: int, y: int) -> bool {
    i / cols < y || (i / cols == y && i % cols < x)
}

/// Applies `p` to every cell of `area` that lies in the grid.
fn paint_area(grid: &mut CellBuffer, area: Area, p: Paint)
    requires
        old(grid).wf(),
    ensures
        final(grid)@.cols == old(grid)@.cols,
        final(grid)@.rows == old(grid)@.rows,
        final(grid)@.cells.len() == old(grid)@.cells.len(),
        forall|i: int|
            0 <= i < old(grid)@.cells.len() ==> #[trigger] final(grid)@.cells[i] == if in_target(
                old(grid)@,
                area,
                i,
            ) {
                painted_cell(old(grid)@.cells[i], p)
            } else {
                old(grid)@.cells[i]
            },
{
    let ghost g = grid@;
    let len: usize = grid.buf.len();
    let cols = grid.cols;
    let rows = grid.rows;
    let (ul, br) = area;
    if !is_valid_area(area) || ul.0 >= cols || ul.1 >= rows {
        return;
    }
    let x_end: usize = if br.0 < cols {
        br.0
    } else {
        cols - 1
    };
    let y_end: usize = if br.1 < rows {
        br.1
    } else {
        rows - 1
    };
    let mut y: usize = ul.1;
    while y <= y_end
        invariant
            g.cells.len() == g.cols * g.rows,
            g.cells.len() == len,
            cols == g.cols,
            rows == g.rows,
            area_reaches(g, area),
            area == (ul, br),
            x_end < cols,
            y_end < rows,
            ul.0 <= x_end,
            x_end == br.0 || x_end == cols - 1,
            x_end <= br.0,
            y_end == br.1 || y_end == rows - 1,
            y_end <= br.1,
            ul.1 <= y <= y_end + 1,
            grid@.cols == g.cols,
            grid@.rows == g.rows,
            grid@.cells.len() == g.cells.len(),
            forall|i: int|
                0 <= i < g.cells.len() ==> #[trigger] grid@.cells[i] == if in_target(g, area, i)
                    && before(i, cols as int, 0, y as int) {
                    painted_cell(g.cells[i], p)
                } else {
                    g.cells[i]
                },
        decreases y_end + 1 - y,
    {
        let mut x: usize = ul.0;
        while x <= x_end
            invariant
                g.cells.len() == g.cols * g.rows,
                g.cells.len() == len,
                cols == g.cols,
                rows == g.rows,
                area_reaches(g, area),
                area == (ul, br),
                x_end < cols,
                y_end < rows,
                x_end <= br.0,
                y_end <= br.1,
                ul.1 <= y <= y_end,
                ul.0 <= x <= x_end + 1,
                grid@.cols == g.cols,
                grid@.rows == g.rows,
                grid@.cells.len() == g.cells.len(),
                forall|i: int|
                    0 <= i < g.cells.len() ==> #[trigger] grid@.cells[i] == if in_target(
                        g,
                        area,
                        i,
                    ) && before(i, cols as int, x as int, y as int) {
                        painted_cell(g.cells[i], p)
                    } else {
                        g.cells[i]
                    },
            decreases x_end + 1 - x,
        {
            proof {
                lemma_coords_index(x as int, y as int, cols as int, rows as int);
            }
            let idx = y * cols + x;
            let ghost prev = grid@.cells;
            assert(in_target(g, area, idx as int));
            assert(prev[idx as int] == g.cells[idx as int]);
            let c = paint_cell(grid.buf[idx], p);
            grid.buf.set(idx, c);
            assert(grid@.cells == prev.update(idx as int, c));
            proof {
                assert forall|i: int| 0 <= i < g.cells.len() implies #[trigger] grid@.cells[i]
                    == if in_target(g, area, i) && before(i, cols as int, x + 1, y as int) {
                    painted_cell(g.cells[i], p)
                } else {
                    g.cells[i]
                } by {
                    lemma_index_coords(i, cols as int, rows as int);
                    if i != idx {
                        assert(!(i / (cols as int) == y && i % (cols as int) == x));
                        assert(grid@.cells[i] == prev[i]);
                    }
                }
            }
            x += 1;
        }
        proof {
            assert forall|i: int| 0 <= i < g.cells.len() implies #[trigger] grid@.cells[i]
                == if in_target(g, area, i) && before(i, cols as int, 0, y + 1) {
                painted_cell(g.cells[i], p)
            } else {
                g.cells[i]
            } by {
                lemma_index_coords(i, cols as int, rows as int);
            }
        }
        y += 1;
    }
    proof {
        assert forall|i: int| 0 <= i < g.cells.len() && in_target(g, area, i) implies before(
            i,
            cols as int,
            0,
            y as int,
        ) by {
            lemma_index_coords(i, cols as int, rows as int);
        }
    }
}

/// Changes the foreground and background colours of every cell of `area`
/// that lies in the grid; an absent colour is left as it is.
pub fn change_colors(
    grid: &mut CellBuffer,
    area: Area,
    fg_color: Option<Color>,
    bg_color: Option<Color>,
)
    requires
        old(grid).wf(),
    ensures
        final(grid).wf(),
        final(grid)@ == recolored_area(old(grid)@, area, fg_color, bg_color),
{
    let ghost g = grid@;
    paint_area(grid, area, Paint::Recolor(fg_color, bg_color));
    assert(grid@.cells =~= recolored_area(g, area, fg_color, bg_color).cells);
}

/// Clears every cell of `area` that lies in the grid to a space in the
/// terminal's default colours and attributes.
pub fn clear_area(grid: &mut CellBuffer, area: Area)
    requires
        old(grid).wf(),
    ensures
        final(grid).wf(),
        final(grid)@ == cleared_area(old(grid)@, area),
{
    let ghost g = grid@;
    paint_area(grid, area, Paint::Clear);
    assert(grid@.cells =~= cleared_area(g, area).cells);
}

/// The outcome of moving the write cursor one column to the right.
#[derive(Debug, Copy, Clone, PartialEq, Eq, Structural)]
pub enum Wrap {
    /// The cursor stays on its row.
    Continue,
    /// The cursor went past the right edge and moved to the next row.
    WrappedToNextRow,
    /// The next row would lie below the area or the grid: writing stops.
    StopAtAreaEdge,
    /// The cursor reached the next row, but line breaks are not allowed:
    /// writing stops.
    StopLineBreakDisabled,
}

/// Whether writing ends after this outcome.
pub open spec fn stops(w: Wrap) -> bool {
    w is StopAtAreaEdge || w is StopLineBreakDisabled
}

/// The wrap rule: the cursor has just moved to column `x` of row `y`. Past the
/// area's right edge or the grid's last column it returns to the area's left
/// edge on the next row; if that row lies below the area or the grid, writing
/// stops one row above it.
pub open spec fn wrap_spec(
    x: int,
    y: int,
    area: Area,
    cols: int,
    rows: int,
    line_break: bool,
) -> (Wrap, int, int) {
    if x == area.1.0 + 1 || x >= cols {
        if y + 1 > area.1.1 || y + 1 >= rows {
            (Wrap::StopAtAreaEdge, area.0.0 as int, y)
        } else if !line_break {
            (Wrap::StopLineBreakDisabled, area.0.0 as int, y + 1)
        } else {
            (Wrap::WrappedToNextRow, area.0.0 as int, y + 1)
        }
    } else {
        (Wrap::Continue, x, y)
    }
}

/// Applies the wrap rule to a cursor that has just moved to `(x, y)`.
fn inspect_bounds(
    x: usize,
    y: usize,
    area: Area,
    cols: usize,
    rows: usize,
    line_break: bool,
) -> (r: (Wrap, usize, usize))
    requires
        y < rows,
    ensures
        (r.0, r.1 as int, r.2 as int) == wrap_spec(
            x as int,
            y as int,
            area,
            cols as int,
            rows as int,
            line_break,
        ),
{
    let (ul, br) = area;
    if (x > 0 && x - 1 == br.0) || x >= cols {
        if y + 1 > br.1 || y + 1 >= rows {
            (Wrap::StopAtAreaEdge, ul.0, y)
        } else if !line_break {
            (Wrap::StopLineBreakDisabled, ul.0, y + 1)
        } else {
            (Wrap::WrappedToNextRow, ul.0, y + 1)
        }
    } else {
        (Wrap::Continue, x, y)
    }
}

fn is_stop(w: Wrap) -> (r: bool)
    ensures
        r == stops(w),
{
    match w {
        Wrap::StopAtAreaEdge | Wrap::StopLineBreakDisabled => true,
        _ => false,
    }
}

/// Whether a reported display width marks a character that takes no column
/// of its own (zero or unknown).
pub open spec fn is_zero_width(w: Option<u8>) -> bool {
    w is None || w == Some(0u8)
}

/// Whether a reported display width marks a wide character.
pub open spec fn is_double_width(w: Option<u8>) -> bool {
    w == Some(2u8)
}

/// Puts the glyph of `c`, of reported width `w`, at the cursor `(x, y)`,
/// which must not be a carriage return. Returns whether writing stops, the
/// cursor on the glyph's last column, and the new cells.
///
/// The cursor cell is stamped with `style` (foreground, background,
/// attributes). A tab writes a space there, moves one column, and writes a
/// second space, whatever its reported width. Any other character is written
/// as it is; with zero or unknown width its cell is marked `empty`, with width
/// two the cursor moves one extra column and marks that cell `empty`. Each
/// move applies the wrap rule.
pub open spec fn write_glyph(
    c: char,
    w: Option<u8>,
    x: int,
    y: int,
    cells: Seq<Cell>,
    cols: int,
    rows: int,
    style: (Color, Color, Attr),
    area: Area,
    line_break: bool,
) -> (bool, int, int, Seq<Cell>) {
    let i = y * cols + x;
    let styled = cells[i].stamped(style.0, style.1, style.2);
    if c == '\t' {
        let cs = cells.update(i, styled.with_ch(' '));
        let (o, xa, ya) = wrap_spec(x + 1, y, area, cols, rows, line_break);
        if stops(o) {
            (true, xa, ya, cs)
        } else {
            let j = ya * cols + xa;
            (false, xa, ya, cs.update(j, cs[j].with_ch(' ')))
        }
    } else if is_zero_width(w) {
        (false, x, y, cells.update(i, styled.with_ch(c).with_empty(true)))
    } else if is_double_width(w) {
        let cs = cells.update(i, styled.with_ch(c));
        let (o, xa, ya) = wrap_spec(x + 1, y, area, cols, rows, line_break);
        if stops(o) {
            (true, xa, ya, cs)
        } else {
            let j = ya * cols + xa;
            (false, xa, ya, cs.update(j, cs[j].with_empty(true)))
        }
    } else {
        (false, x, y, cells.update(i, styled.with_ch(c)))
    }
}

/// Writes one character `c`, of reported width `w`, at the cursor `(x, y)`.
/// Returns whether writing stops, the new cursor and the new cells.
///
/// A carriage return is skipped. Any other character has its glyph put as
/// `write_glyph` says, after which the cursor moves one more column under the
/// wrap rule.
pub open spec fn write_step(
    c: char,
    w: Option<u8>,
    x: int,
    y: int,
    cells: Seq<Cell>,
    cols: int,
    rows: int,
    style: (Color, Color, Attr),
    area: Area,
    line_break: bool,
) -> (bool, int, int, Seq<Cell>) {
    if c == '\r' {
        (false, x, y, cells)
    } else {
        let g = write_glyph(c, w, x, y, cells, cols, rows, style, area, line_break);
        if g.0 {
            g
        } else {
            let (o, x2, y2) = wrap_spec(g.1 + 1, g.2, area, cols, rows, line_break);
            (stops(o), x2, y2, g.3)
        }
    }
}

/// Writes `text[i..]`, of reported widths `widths[i..]`, from the cursor
/// `(x, y)` on, until the text ends or writing stops. Returns the final cursor
/// and cells.
pub open spec fn write_from(
    text: Seq<char>,
    widths: Seq<Option<u8>>,
    i: int,
    x: int,
    y: int,
    cells: Seq<Cell>,
    cols: int,
    rows: int,
    style: (Color, Color, Attr),
    area: Area,
    line_break: bool,
) -> (int, int, Seq<Cell>)
    decreases text.len() - i,
{
    if i < 0 || i >= text.len() {
        (x, y, cells)
    } else {
        let (stop, nx, ny, ncells) = write_step(
            text[i],
            widths[i],
            x,
            y,
            cells,
            cols,
            rows,
            style,
            area,
            line_break,
        );
        if stop {
            (nx, ny, ncells)
        } else {
            write_from(text, widths, i + 1, nx, ny, ncells, cols, rows, style, area, line_break)
        }
    }
}

/// The cursor and cells after writing `text` into `area` of `g`, the cursor
/// starting at the area's upper-left corner. Where writing cannot start,
/// nothing changes and the cursor is that corner.
pub open spec fn written(
    text: Seq<char>,
    widths: Seq<Option<u8>>,
    g: GridView,
    style: (Color, Color, Attr),
    area: Area,
    line_break: bool,
) -> (int, int, Seq<Cell>) {
    if !area_reaches(g, area) {
        (area.0.0 as int, area.0.1 as int, g.cells)
    } else {
        write_from(
            text,
            widths,
            0,
            area.0.0 as int,
            area.0.1 as int,
            g.cells,
            g.cols as int,
            g.rows as int,
            style,
            area,
            line_break,
        )
    }
}

/// Whether `(x, y)` is a cursor position at which a character can be written.
spec fn cursor_ok(x: int, y: int, area: Area, cols: int, rows: int) -> bool {
    area.0.0 <= x <= area.1.0 && x < cols && area.0.1 <= y <= area.1.1 && y < rows
}

/// Writes the characters of `text`, whose display widths are `widths`, into
/// `area` of `grid` in the given colours and attributes, and returns the
/// final cursor position.
pub fn write_chars_to_grid(
    text: &Vec<char>,
    widths: &Vec<Option<u8>>,
    grid: &mut CellBuffer,
    fg_color: Color,
    bg_color: Color,
    attrs: Attr,
    area: Area,
    line_break: bool,
) -> (r: Pos)
    requires
        old(grid).wf(),
        widths@.len() == text@.len(),
    ensures
        final(grid).wf(),
        final(grid)@.cols == old(grid)@.cols,
        final(grid)@.rows == old(grid)@.rows,
        (r.0 as int, r.1 as int, final(grid)@.cells) == written(
            text@,
            widths@,
            old(grid)@,
            (fg_color, bg_color, attrs),
            area,
            line_break,
        ),
{
    let ghost g = grid@;
    let ghost style = (fg_color, bg_color, attrs);
    let len: usize = grid.buf.len();
    let cols = grid.cols;
    let rows = grid.rows;
    let (ul, br) = area;
    if !is_valid_area(area) || ul.0 >= cols || ul.1 >= rows {
        return ul;
    }
    let mut x: usize = ul.0;
    let mut y: usize = ul.1;
    let mut i: usize = 0;
    while i < text.len()
        invariant
            g.cells.len() == g.cols * g.rows,
            g.cells.len() == len,
            cols == g.cols,
            rows == g.rows,
            g == old(grid)@,
            style == (fg_color, bg_color, attrs),
            area_reaches(g, area),
            area == (ul, br),
            widths@.len() == text@.len(),
            grid@.cols == g.cols,
            grid@.rows == g.rows,
            grid@.cells.len() == len,
            cursor_ok(x as int, y as int, area, cols as int, rows as int),
            i <= text@.len(),
            write_from(
                text@,
                widths@,
                i as int,
                x as int,
                y as int,
                grid@.cells,
                cols as int,
                rows as int,
                style,
                area,
                line_break,
            ) == written(text@, widths@, g, style, area, line_break),
        decreases text@.len() - i,
    {
        let c = text[i];
        let w = widths[i];
        let ghost cells0 = grid@.cells;
        if c == '\r' {
            i += 1;
            continue;
        }
        let ghost st = write_step(
            c,
            w,
            x as int,
            y as int,
            cells0,
            cols as int,
            rows as int,
            style,
            area,
            line_break,
        );
        proof {
            lemma_coords_index(x as int, y as int, cols as int, rows as int);
            assert(write_from(
                text@,
                widths@,
                i as int,
                x as int,
                y as int,
                cells0,
                cols as int,
                rows as int,
                style,
                area,
                line_break,
            ) == if st.0 {
                (st.1, st.2, st.3)
            } else {
                write_from(
                    text@,
                    widths@,
                    i + 1,
                    st.1,
                    st.2,
                    st.3,
                    cols as int,
                    rows as int,
                    style,
                    area,
                    line_break,
                )
            });
        }
        let idx = y * cols + x;
        let mut cell = grid.buf[idx];
        cell.attrs = attrs;
        cell.fg = fg_color;
        cell.bg = bg_color;
        let ghost styled = cells0[idx as int].stamped(fg_color, bg_color, attrs);
        // what the glyph of `c` does, before the final move of the cursor
        let ghost p1 = write_glyph(
            c,
            w,
            x as int,
            y as int,
            cells0,
            cols as int,
            rows as int,
            style,
            area,
            line_break,
        );
        assert(cell == styled);
        if c == '\t' {
            cell.ch = ' ';
            grid.buf.set(idx, cell);
            assert(grid@.cells == cells0.update(idx as int, styled.with_ch(' ')));
            let (o, nx, ny) = inspect_bounds(x + 1, y, area, cols, rows, line_break);
            if is_stop(o) {
                return (nx, ny);
            }
            x = nx;
            y = ny;
            proof {
                lemma_coords_index(x as int, y as int, cols as int, rows as int);
            }
            let j = y * cols + x;
            let mut next = grid.buf[j];
            next.ch = ' ';
            grid.buf.set(j, next);
        } else {
            cell.ch = c;
            let zero = match w {
                None => true,
                Some(n) => n == 0,
            };
            let double = match w {
                None => false,
                Some(n) => n == 2,
            };
            if zero {
                cell.empty = true;
                grid.buf.set(idx, cell);
            } else if double {
                grid.buf.set(idx, cell);
                assert(grid@.cells == cells0.update(idx as int, styled.with_ch(c)));
                let (o, nx, ny) = inspect_bounds(x + 1, y, area, cols, rows, line_break);
                if is_stop(o) {
                    return (nx, ny);
                }
                x = nx;
                y = ny;
                proof {
                    lemma_coords_index(x as int, y as int, cols as int, rows as int);
                }
                let j = y * cols + x;
                let mut next = grid.buf[j];
                next.empty = true;
                grid.buf.set(j, next);
            } else {
                grid.buf.set(idx, cell);
            }
        }
        assert(!p1.0 && p1.1 == x && p1.2 == y && p1.3 == grid@.cells);
        let (o, nx, ny) = inspect_bounds(x + 1, y, area, cols, rows, line_break);
        if is_stop(o) {
            return (nx, ny);
        }
        x = nx;
        y = ny;
        i += 1;
    }
    (x, y)
}

/// Writes `s` into `area` of `grid` in the given colours and attributes and
/// returns the final cursor position; `width` reports the display width of
/// each character (zero, one, two, or unknown as `None`).
pub fn write_string_to_grid<W: Fn(char) -> Option<u8>>(
    s: &str,
    grid: &mut CellBuffer,
    fg_color: Color,
    bg_color: Color,
    attrs: Attr,
    area: Area,
    line_break: bool,
    width: W,
) -> (r: Pos)
    requires
        old(grid).wf(),
        forall|c: char| width.requires((c,)),
    ensures
        final(grid).wf(),
        final(grid)@.cols == old(grid)@.cols,
        final(grid)@.rows == old(grid)@.rows,
        exists|ws: Seq<Option<u8>>|
            {
                &&& ws.len() == s@.len()
                &&& forall|k: int| 0 <= k < ws.len() ==> width.ensures((s@[k],), #[trigger] ws[k])
                &&& (r.0 as int, r.1 as int, final(grid)@.cells) == written(
                    s@,
                    ws,
                    old(grid)@,
                    (fg_color, bg_color, attrs),
                    area,
                    line_break,
                )
            },
{
    let n: usize = s.unicode_len();
    let mut text: Vec<char> = Vec::new();
    let mut widths: Vec<Option<u8>> = Vec::new();
    let mut i: usize = 0;
    while i < n
        invariant
            n == s@.len(),
            i <= n,
            forall|c: char| width.requires((c,)),
            text@ == s@.take(i as int),
            widths@.len() == i,
            forall|k: int| 0 <= k < i ==> width.ensures((s@[k],), #[trigger] widths@[k]),
        decreases n - i,
    {
        let c = s.get_char(i);
        text.push(c);
        let w = width(c);
        widths.push(w);
        i += 1;
        assert(text@ =~= s@.take(i as int));
    }
    assert(text@ =~= s@);
    write_chars_to_grid(&text, &widths, grid, fg_color, bg_color, attrs, area, line_break)
}

impl HasSize for CellBuffer {
    open spec fn spec_size(&self) -> Size {
        (self@.cols as usize, self@.rows as usize)
    }

    fn size(&self) -> (r: Size) {
        (self.cols, self.rows)
    }
}

/// Read and write access to a grid of cells stored row by row, built on the
/// raw cell storage and the size.
pub trait CellAccessor: HasSize {
    /// The cells, row by row.
    spec fn cell_seq(&self) -> Seq<Cell>;

    /// The cells, row by row.
    fn cellvec(&self) -> (r: &Vec<Cell>)
        ensures
            r@ == self.cell_seq(),
    ;

    /// The cells, row by row, to change in place; the size stays.
    fn cellvec_mut(&mut self) -> (r: &mut Vec<Cell>)
        ensures
            r@ == old(self).cell_seq(),
            final(self).cell_seq() == final(r)@,
            final(self).spec_size() == old(self).spec_size(),
    ;

    /// Overwrites every cell with `blank`.
    fn clear(&mut self, blank: Cell)
        requires
            old(self).cell_seq().len() == old(self).spec_size().0 * old(self).spec_size().1,
        ensures
            final(self).cell_seq().len() == final(self).spec_size().0 * final(self).spec_size().1,
            final(self).spec_size() == old(self).spec_size(),
            final(self).cell_seq() == Seq::new(old(self).cell_seq().len(), |_i: int| blank),
    {
        let ghost size0 = self.spec_size();
        let ghost len0 = self.cell_seq().len();
        let cells = self.cellvec_mut();
        let n: usize = cells.len();
        let mut i: usize = 0;
        while i < n
            invariant
                n == cells@.len(),
                n == len0,
                i <= n,
                forall|k: int| 0 <= k < i ==> #[trigger] cells@[k] == blank,
            decreases n - i,
        {
            cells.set(i, blank);
            i += 1;
        }
        assert(cells@ =~= Seq::new(n as nat, |_i: int| blank));
        assert(len0 == size0.0 * size0.1);
    }

    /// The flat index of `(x, y)`, or `None` outside the grid.
    fn pos_to_index(&self, x: usize, y: usize) -> (r: Option<usize>)
        requires
            self.cell_seq().len() == self.spec_size().0 * self.spec_size().1,
        ensures
            r is Some <==> (x < self.spec_size().0 && y < self.spec_size().1),
            r matches Some(i) ==> i == y * self.spec_size().0 + x && i < self.cell_seq().len(),
    {
        let (cols, rows) = self.size();
        let n: usize = self.cellvec().len();
        if x < cols && y < rows {
            proof {
                lemma_coords_index(x as int, y as int, cols as int, rows as int);
                assert(n == cols * rows);
            }
            Some(y * cols + x)
        } else {
            None
        }
    }

    /// The cell at `(x, y)`, or `None` outside the grid.
    fn get(&self, x: usize, y: usize) -> (r: Option<&Cell>)
        requires
            self.cell_seq().len() == self.spec_size().0 * self.spec_size().1,
        ensures
            r is Some <==> (x < self.spec_size().0 && y < self.spec_size().1),
            r matches Some(c) ==> *c == self.cell_seq()[y * self.spec_size().0 + x],
    {
        match self.pos_to_index(x, y) {
            Some(i) => Some(&self.cellvec()[i]),
            None => None,
        }
    }

    /// A mutable reference to the cell at `(x, y)`, or `None` outside the grid.
    fn get_mut(&mut self, x: usize, y: usize) -> (r: Option<&mut Cell>)
        requires
            old(self).cell_seq().len() == old(self).spec_size().0 * old(self).spec_size().1,
        ensures
            r is Some <==> (x < old(self).spec_size().0 && y < old(self).spec_size().1),
            final(self).spec_size() == old(self).spec_size(),
            r is None ==> final(self).cell_seq() == old(self).cell_seq(),
            r matches Some(c) ==> {
                let i = y * old(self).spec_size().0 + x;
                &&& *c == old(self).cell_seq()[i]
                &&& final(self).cell_seq() == old(self).cell_seq().update(i, *final(c))
            },
    {
        match self.pos_to_index(x, y) {
            Some(i) => {
                let cells = self.cellvec_mut();
                Some(&mut cells[i])
            },
            None => None,
        }
    }
}

impl CellAccessor for CellBuffer {
    open spec fn cell_seq(&self) -> Seq<Cell> {
        self@.cells
    }

    fn cellvec(&self) -> (r: &Vec<Cell>) {
        &self.buf
    }

    fn cellvec_mut(&mut self) -> (r: &mut Vec<Cell>) {
        &mut self.buf
    }
}

impl CellBuffer {
    /// The cell at `pos`, which must lie inside the grid.
    pub fn index(&self, pos: Pos) -> (r: &Cell)
        requires
            self.wf(),
            self@.in_bounds(pos.0 as int, pos.1 as int),
        ensures
            *r == self@.at(pos.0 as int, pos.1 as int),
    {
        let (x, y) = pos;
        let _n: usize = self.buf.len();
        proof {
            lemma_coords_index(x as int, y as int, self.cols as int, self.rows as int);
        }
        &self.buf[y * self.cols + x]
    }
}

impl CellBuffer {
    /// A mutable reference to the cell at `pos`, which must lie inside the grid.
    pub fn index_mut(&mut self, pos: Pos) -> (r: &mut Cell)
        requires
            old(self).wf(),
            old(self)@.in_bounds(pos.0 as int, pos.1 as int),
        ensures
            *r == old(self)@.at(pos.0 as int, pos.1 as int),
            final(self)@.cols == old(self)@.cols,
            final(self)@.rows == old(self)@.rows,
            final(self)@.cells == old(self)@.cells.update(
                old(self)@.index_of(pos.0 as int, pos.1 as int),
                *final(r),
            ),
    {
        let (x, y) = pos;
        let _n: usize = self.buf.len();
        proof {
            lemma_coords_index(x as int, y as int, self.cols as int, self.rows as int);
        }
        let i = y * self.cols + x;
        &mut self.buf[i]
    }
}

impl Default for CellBuffer {
    /// An empty buffer of zero columns and rows.
    fn default() -> (r: CellBuffer)
        ensures
            r.wf(),
            r@.cols == 0,
            r@.rows == 0,
    {
        CellBuffer::new(0, 0, Cell::new(' ', Color::Default, Color::Default, Attr::Default))
    }
}

/// After a resize to `newcols` by `newrows` the grid holds `newcols * newrows`
/// cells; each cell whose coordinates lie in both the old and the new
/// rectangle keeps its content, and every other cell is `blank`.
pub proof fn lemma_resize_keeps_overlap(g: GridView, newcols: nat, newrows: nat, blank: Cell)
    requires
        g.cells.len() == g.cols * g.rows,
    ensures
        resized(g, newcols, newrows, blank).cells.len() == newcols * newrows,
        forall|x: int, y: int|
            0 <= x < newcols && 0 <= y < newrows ==> #[trigger] resized(
                g,
                newcols,
                newrows,
                blank,
            ).at(x, y) == if x < g.cols && y < g.rows {
                g.at(x, y)
            } else {
                blank
            },
{
    assert forall|x: int, y: int| 0 <= x < newcols && 0 <= y < newrows implies #[trigger] resized(
        g,
        newcols,
        newrows,
        blank,
    ).at(x, y) == if x < g.cols && y < g.rows {
        g.at(x, y)
    } else {
        blank
    } by {
        lemma_coords_index(x, y, newcols as int, newrows as int);
    }
}

/// Clearing an area twice leaves the grid as clearing it once.
pub proof fn lemma_clear_area_idempotent(g: GridView, area: Area)
    ensures
        cleared_area(cleared_area(g, area), area) == cleared_area(g, area),
{
    assert(cleared_area(cleared_area(g, area), area).cells =~= cleared_area(g, area).cells);
}

/// Changing the colours of an area to no colour at all changes nothing.
pub proof fn lemma_change_colors_none(g: GridView, area: Area)
    ensures
        recolored_area(g, area, None, None) == g,
{
    assert(recolored_area(g, area, None, None).cells =~= g.cells);
}

/// Writing the empty text leaves the cells as they are and returns the area's
/// upper-left corner.
pub proof fn lemma_write_empty(
    widths: Seq<Option<u8>>,
    g: GridView,
    style: (Color, Color, Attr),
    area: Area,
    line_break: bool,
)
    ensures
        written(Seq::empty(), widths, g, style, area, line_break) == (
            area.0.0 as int,
            area.0.1 as int,
            g.cells,
        ),
{
}

/// An area whose upper-left corner lies outside the grid leaves the grid
/// unchanged under every area operation.
pub proof fn lemma_outside_area_untouched(
    g: GridView,
    area: Area,
    fg: Option<Color>,
    bg: Option<Color>,
    text: Seq<char>,
    widths: Seq<Option<u8>>,
    style: (Color, Color, Attr),
    line_break: bool,
)
    requires
        area.0.0 >= g.cols || area.0.1 >= g.rows,
    ensures
        recolored_area(g, area, fg, bg) == g,
        cleared_area(g, area) == g,
        written(text, widths, g, style, area, line_break) == (
            area.0.0 as int,
            area.0.1 as int,
            g.cells,
        ),
{
    assert(recolored_area(g, area, fg, bg).cells =~= g.cells);
    assert(cleared_area(g, area).cells =~= g.cells);
}

/// A wide character whose two columns fit on the cursor's row without
/// reaching the wrap column takes both: it is written in the cursor cell, the
/// next cell is marked `empty`, and the cursor moves two columns.
pub proof fn lemma_wide_char_takes_two_columns(
    c: char,
    x: int,
    y: int,
    cells: Seq<Cell>,
    cols: int,
    rows: int,
    style: (Color, Color, Attr),
    area: Area,
    line_break: bool,
)
    requires
        c != '\t',
        c != '\r',
        0 <= y < rows,
        0 <= x,
        x + 2 <= area.1.0,
        x + 2 < cols,
        cells.len() == cols * rows,
    ensures
        ({
            let i = y * cols + x;
            let first = cells.update(i, cells[i].stamped(style.0, style.1, style.2).with_ch(c));
            write_step(c, Some(2u8), x, y, cells, cols, rows, style, area, line_break) == (
                false,
                x + 2,
                y,
                first.update(i + 1, first[i + 1].with_empty(true)),
            )
        }),
{
}

/// A character of zero or unknown width is written in the cursor cell, which
/// is marked `empty`, and the cursor moves one column only.
pub proof fn lemma_zero_width_char_takes_one_column(
    c: char,
    w: Option<u8>,
    x: int,
    y: int,
    cells: Seq<Cell>,
    cols: int,
    rows: int,
    style: (Color, Color, Attr),
    area: Area,
    line_break: bool,
)
    requires
        c != '\t',
        c != '\r',
        is_zero_width(w),
        0 <= y < rows,
        0 <= x,
        x + 1 <= area.1.0,
        x + 1 < cols,
        cells.len() == cols * rows,
    ensures
        ({
            let i = y * cols + x;
            write_step(c, w, x, y, cells, cols, rows, style, area, line_break) == (
                false,
                x + 1,
                y,
                cells.update(
                    i,
                    cells[i].stamped(style.0, style.1, style.2).with_ch(c).with_empty(true),
                ),
            )
        }),
{
}

/// A tab ignores its reported width: it writes a space in the cursor cell and
/// in the next one and, where both fit on the row without reaching the wrap
/// column, moves the cursor two columns.
pub proof fn lemma_tab_takes_two_columns(
    w1: Option<u8>,
    w2: Option<u8>,
    x: int,
    y: int,
    cells: Seq<Cell>,
    cols: int,
    rows: int,
    style: (Color, Color, Attr),
    area: Area,
    line_break: bool,
)
    ensures
        write_step('\t', w1, x, y, cells, cols, rows, style, area, line_break) == write_step(
            '\t',
            w2,
            x,
            y,
            cells,
            cols,
            rows,
            style,
            area,
            line_break,
        ),
        0 <= y < rows && 0 <= x && x + 2 <= area.1.0 && x + 2 < cols && cells.len() == cols
            * rows ==> ({
            let i = y * cols + x;
            let first = cells.update(
                i,
                cells[i].stamped(style.0, style.1, style.2).with_ch(' '),
            );
            write_step('\t', w1, x, y, cells, cols, rows, style, area, line_break) == (
                false,
                x + 2,
                y,
                first.update(i + 1, first[i + 1].with_ch(' ')),
            )
        }),
{
}

/// Whether `c` has the Unicode `White_Space` property.
pub open spec fn is_whitespace_char(c: char) -> bool {
    let u = c as u32;
    ||| 0x09 <= u <= 0x0d
    ||| u == 0x20
    ||| u == 0x85
    ||| u == 0xa0
    ||| u == 0x1680
    ||| 0x2000 <= u <= 0x200a
    ||| u == 0x2028
    ||| u == 0x2029
    ||| u == 0x202f
    ||| u == 0x205f
    ||| u == 0x3000
}

/// Relies on `char::is_whitespace`: whether `c` has the Unicode `White_Space`
/// property.
#[verifier::external_body]
fn is_whitespace(c: char) -> (r: bool)
    ensures
        r == is_whitespace_char(c),
{
    c.is_whitespace()
}

/// Relies on `String::push`: appends `c` to the end of `s`.
#[verifier::external_body]
fn push_char(s: &mut String, c: char)
    ensures
        final(s)@ == old(s)@.push(c),
{
    s.push(c)
}

/// The characters of row `y` of `g`.
pub open spec fn row_chars(g: GridView, y: int) -> Seq<char> {
    Seq::new(g.cols, |x: int| g.at(x, y).spec_ch())
}

/// The text of one row: its characters up to and including the first line
/// terminator, or all of them if it has none.
pub open spec fn row_text(row: Seq<char>) -> Seq<char>
    decreases row.len(),
{
    if row.len() == 0 {
        Seq::empty()
    } else if row[0] == '\n' {
        seq!['\n']
    } else {
        seq![row[0]] + row_text(row.drop_first())
    }
}

/// The text of the first `n` rows of `g`, top to bottom.
pub open spec fn grid_text(g: GridView, n: int) -> Seq<char>
    decreases n,
{
    if n <= 0 {
        Seq::empty()
    } else {
        grid_text(g, n - 1) + row_text(row_chars(g, n - 1))
    }
}

proof fn lemma_row_text_prefix(row: Seq<char>, x: int)
    requires
        0 <= x <= row.len(),
        forall|k: int| 0 <= k < x ==> row[k] != '\n',
    ensures
        row_text(row) == row.take(x) + row_text(row.skip(x)),
    decreases x,
{
    if x > 0 {
        lemma_row_text_prefix(row.drop_first(), x - 1);
        assert(row.drop_first().skip(x - 1) =~= row.skip(x));
        assert(seq![row[0]] + row.drop_first().take(x - 1) =~= row.take(x));
    } else {
        assert(row.skip(0) =~= row);
        assert(row.take(0) + row_text(row) =~= row_text(row));
    }
}

/// `line` without its trailing whitespace.
pub open spec fn trim_end(line: Seq<char>) -> Seq<char>
    decreases line.len(),
{
    if line.len() > 0 && is_whitespace_char(line.last()) {
        trim_end(line.drop_last())
    } else {
        line
    }
}

/// The single row that a text becomes, read from `s` onwards: `out` is what
/// the lines before gave, `line` the current line so far. Each line, without
/// its trailing whitespace, is followed by a line terminator; a last line that
/// is empty is no line.
pub open spec fn text_row_from(s: Seq<char>, out: Seq<char>, line: Seq<char>) -> Seq<char>
    decreases s.len(),
{
    if s.len() == 0 {
        if line.len() > 0 {
            out + trim_end(line) + seq!['\n']
        } else {
            out
        }
    } else if s[0] == '\n' {
        text_row_from(s.drop_first(), out + trim_end(line) + seq!['\n'], Seq::empty())
    } else {
        text_row_from(s.drop_first(), out, line.push(s[0]))
    }
}

/// The characters of the single row that the text `s` becomes.
pub open spec fn text_row(s: Seq<char>) -> Seq<char> {
    text_row_from(s, Seq::empty(), Seq::empty())
}

/// Removes the trailing whitespace of `line`.
fn trim_end_in_place(line: &mut Vec<char>)
    ensures
        final(line)@ == trim_end(old(line)@),
{
    while line.len() > 0 && is_whitespace(line[line.len() - 1])
        invariant
            trim_end(line@) == trim_end(old(line)@),
        decreases line@.len(),
    {
        let _ = line.pop();
    }
}

/// Appends the characters of `more` to `out`.
fn append_chars(out: &mut Vec<char>, more: &Vec<char>)
    ensures
        final(out)@ == old(out)@ + more@,
{
    let mut i: usize = 0;
    while i < more.len()
        invariant
            i <= more@.len(),
            out@ == old(out)@ + more@.take(i as int),
        decreases more@.len() - i,
    {
        out.push(more[i]);
        i += 1;
        assert(out@ =~= old(out)@ + more@.take(i as int));
    }
    assert(more@.take(more@.len() as int) =~= more@);
}

impl CellBuffer {
    /// The text of the grid: its rows top to bottom, each up to and including
    /// its first line terminator, with no separator between rows.
    pub fn to_text(&self) -> (r: String)
        requires
            self.wf(),
        ensures
            r@ == grid_text(self@, self@.rows as int),
    {
        let ghost g = self@;
        let _n: usize = self.buf.len();
        let mut out = String::new();
        let mut y: usize = 0;
        while y < self.rows
            invariant
                self@ == g,
                self.wf(),
                _n == g.cells.len(),
                y <= g.rows,
                out@ == grid_text(g, y as int),
            decreases g.rows - y,
        {
            let ghost row = row_chars(g, y as int);
            let ghost before = out@;
            let mut x: usize = 0;
            let mut ended = false;
            while x < self.cols && !ended
                invariant
                    self@ == g,
                    self.wf(),
                    _n == g.cells.len(),
                    y < g.rows,
                    x <= g.cols,
                    row == row_chars(g, y as int),
                    forall|k: int| 0 <= k < x ==> row[k] != '\n',
                    !ended ==> out@ == before + row.take(x as int),
                    ended ==> out@ == before + row_text(row),
                    before == grid_text(g, y as int),
                decreases g.cols - x + if ended {
                    0int
                } else {
                    1int
                },
            {
                proof {
                    lemma_coords_index(x as int, y as int, g.cols as int, g.rows as int);
                }
                let c = self.buf[y * self.cols + x].ch;
                push_char(&mut out, c);
                proof {
                    lemma_row_text_prefix(row, x as int);
                }
                if c == '\n' {
                    ended = true;
                    proof {
                        assert(row.skip(x as int)[0] == '\n');
                        assert(row.take(x as int).push(c) =~= row.take(x as int) + seq!['\n']);
                        assert(out@ =~= before + row_text(row));
                    }
                } else {
                    x += 1;
                    assert(out@ =~= before + row.take(x as int));
                }
            }
            proof {
                if !ended {
                    lemma_row_text_prefix(row, x as int);
                    assert(row.skip(x as int) =~= Seq::<char>::empty());
                    assert(row.take(x as int) + row_text(row.skip(x as int)) =~= row.take(
                        x as int,
                    ));
                }
            }
            y += 1;
        }
        out
    }

    /// The single-row buffer that a text becomes: each of its lines, without
    /// trailing whitespace and followed by a line-terminator cell, one after the
    /// other, in default-styled cells and exactly as wide as needed.
    pub fn from_text(s: &str) -> (r: CellBuffer)
        ensures
            r.wf(),
            r@.rows == 1,
            r@.cols == text_row(s@).len(),
            forall|i: int|
                0 <= i < r@.cols ==> #[trigger] r@.cells[i] == blank_cell().with_ch(
                    text_row(s@)[i],
                ),
    {
        let n: usize = s.unicode_len();
        let mut out: Vec<char> = Vec::new();
        let mut line: Vec<char> = Vec::new();
        let mut i: usize = 0;
        assert(s@.skip(0) =~= s@);
        while i < n
            invariant
                n == s@.len(),
                i <= n,
                text_row_from(s@.skip(i as int), out@, line@) == text_row(s@),
            decreases n - i,
        {
            let c = s.get_char(i);
            let ghost rest = s@.skip(i as int);
            let ghost out0 = out@;
            let ghost line0 = line@;
            assert(rest.drop_first() =~= s@.skip(i + 1));
            assert(rest[0] == c);
            if c == '\n' {
                trim_end_in_place(&mut line);
                append_chars(&mut out, &line);
                out.push('\n');
                line = Vec::new();
                assert(line@ =~= Seq::<char>::empty());
                assert(out@ =~= out0 + trim_end(line0) + seq!['\n']);
            } else {
                line.push(c);
            }
            assert(text_row_from(rest, out0, line0) == text_row_from(
                s@.skip(i + 1),
                out@,
                line@,
            ));
            i += 1;
        }
        assert(s@.skip(n as int) =~= Seq::<char>::empty());
        if line.len() > 0 {
            trim_end_in_place(&mut line);
            append_chars(&mut out, &line);
            out.push('\n');
        }
        let width: usize = out.len();
        let mut buf: Vec<Cell> = Vec::with_capacity(width);
        let mut k: usize = 0;
        while k < width
            invariant
                width == out@.len(),
                out@ == text_row(s@),
                k <= width,
                buf@.len() == k,
                forall|j: int| 0 <= j < k ==> #[trigger] buf@[j] == blank_cell().with_ch(out@[j]),
            decreases width - k,
        {
            buf.push(Cell::with_char(out[k]));
            k += 1;
        }
        CellBuffer { cols: width, rows: 1, buf }
    }
}

impl<'a> From<&'a str> for CellBuffer {
    /// The single-row buffer that `from_text` builds from `s`.
    fn from(s: &'a str) -> (r: CellBuffer)
        ensures
            r.wf(),
            r@.rows == 1,
            r@.cols == text_row(s@).len(),
            forall|i: int|
                0 <= i < r@.cols ==> #[trigger] r@.cells[i] == blank_cell().with_ch(
                    text_row(s@)[i],
                ),
    {
        CellBuffer::from_text(s)
    }
}

impl<'a> vstd::std_specs::convert::FromSpecImpl<&'a str> for CellBuffer {
    open spec fn obeys_from_spec() -> bool {
        false
    }

    open spec fn from_spec(v: &'a str) -> CellBuffer {
        vstd::pervasive::arbitrary()
    }
}

} // verus!
