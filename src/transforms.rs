use vstd::prelude::*;

verus! {

/// Shifts a grid coordinate so that the viewpoint becomes the origin.
pub fn to_viewpoint(coordinate: (usize, usize), viewpoint: (usize, usize)) -> (r: (isize, isize))
    requires
        coordinate.0 <= isize::MAX,
        coordinate.1 <= isize::MAX,
        viewpoint.0 <= isize::MAX,
        viewpoint.1 <= isize::MAX,
    ensures
        r.0 == coordinate.0 - viewpoint.0,
        r.1 == coordinate.1 - viewpoint.1,
{
    (coordinate.0 as isize - viewpoint.0 as isize, coordinate.1 as isize - viewpoint.1 as isize)
}

/// Undoes `to_viewpoint`: adds the viewpoint back to an offset. The caller
/// keeps the sum inside the grid.
pub fn to_origin(coordinate: (isize, isize), viewpoint: (usize, usize)) -> (r: (usize, usize))
    requires
        viewpoint.0 <= isize::MAX,
        viewpoint.1 <= isize::MAX,
        0 <= coordinate.0 + viewpoint.0 <= isize::MAX,
        0 <= coordinate.1 + viewpoint.1 <= isize::MAX,
    ensures
        r.0 == coordinate.0 + viewpoint.0,
        r.1 == coordinate.1 + viewpoint.1,
{
    let shifted = (coordinate.0 + viewpoint.0 as isize, coordinate.1 + viewpoint.1 as isize);
    (shifted.0 as usize, shifted.1 as usize)
}

/// Shifting to the viewpoint and back gives the coordinate again.
pub proof fn lemma_round_trip(coordinate: (usize, usize), viewpoint: (usize, usize))
    requires
        coordinate.0 <= isize::MAX,
        coordinate.1 <= isize::MAX,
        viewpoint.0 <= isize::MAX,
        viewpoint.1 <= isize::MAX,
    ensures
        (coordinate.0 - viewpoint.0) + viewpoint.0 == coordinate.0,
        (coordinate.1 - viewpoint.1) + viewpoint.1 == coordinate.1,
{
}

} // verus!
