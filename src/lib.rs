//! A grid of styled terminal cells and the operations that compose text into it.
//!
//! A [`cells::CellBuffer`] models the terminal screen as a row-major array of
//! [`cells::Cell`]s. Widget code recolours, blanks and writes text into
//! rectangular areas of it; a renderer later reads the finished grid.

pub mod cells;
pub mod position;

pub use cells::{
    change_colors, clear_area, write_chars_to_grid, write_string_to_grid, Attr, Cell,
    CellAccessor, CellBuffer, Color, Wrap,
};
pub use position::{Area, HasSize, Pos, Size};
