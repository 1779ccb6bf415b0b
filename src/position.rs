//! Grid coordinates and inclusive rectangular areas.

use vstd::prelude::*;

verus! {

/// An `(x, y)` grid coordinate: `x` indexes columns, `y` indexes rows.
pub type Pos = (usize, usize);

/// An axis-aligned rectangle given by its upper-left and bottom-right corners,
/// both inclusive.
pub type Area = (Pos, Pos);

/// The number of columns and rows of a grid.
pub type Size = (usize, usize);

/// Anything with a size in columns and rows.
pub trait HasSize {
    spec fn spec_size(&self) -> Size;

    fn size(&self) -> (r: Size)
        ensures
            r == self.spec_size(),
    ;
}

/// An area is valid when its upper-left corner lies neither right of nor below
/// its bottom-right corner.
pub open spec fn valid_area(area: Area) -> bool {
    area.0.0 <= area.1.0 && area.0.1 <= area.1.1
}

/// Whether the point `(x, y)` lies inside the (inclusive) area.
pub open spec fn in_area(x: int, y: int, area: Area) -> bool {
    area.0.0 <= x <= area.1.0 && area.0.1 <= y <= area.1.1
}

/// Whether the area is valid.
pub fn is_valid_area(area: Area) -> (r: bool)
    ensures
        r == valid_area(area),
{
    let (ul, br) = area;
    ul.0 <= br.0 && ul.1 <= br.1
}

} // verus!
