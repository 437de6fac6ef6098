use vstd::prelude::*;
use ndarray::Array2;

verus! {

/// The product of the lengths of the axes that are not empty: what ndarray
/// holds to `isize::MAX` for every array it builds.
pub open spec fn nonzero_product(rows: int, cols: int) -> int {
    (if rows == 0 { 1 } else { rows }) * (if cols == 0 { 1 } else { cols })
}

/// `cells` holds `shape.0` rows of `shape.1` values each.
pub open spec fn is_shaped<T>(cells: Seq<Seq<T>>, shape: (usize, usize)) -> bool {
    &&& cells.len() == shape.0
    &&& forall|i: int| 0 <= i < cells.len() ==> #[trigger] cells[i].len() == shape.1
}

/// A grid of terrain heights, held in a two-dimensional ndarray array.
#[verifier::external_body]
pub struct HeightGrid {
    cells: Array2<i16>,
}

/// The heights of a grid, row by row.
pub uninterp spec fn height_rows(g: HeightGrid) -> Seq<Seq<i16>>;

/// The number of rows and of columns of a grid of heights.
pub uninterp spec fn height_shape(g: HeightGrid) -> (usize, usize);

/// A grid of visibility flags: 1 for a cell that is seen, 0 for one that is not.
#[verifier::external_body]
pub struct VisibilityGrid {
    cells: Array2<u8>,
}

/// The flags of a visibility grid, row by row.
pub uninterp spec fn flag_rows(m: VisibilityGrid) -> Seq<Seq<u8>>;

/// The number of rows and of columns of a visibility grid.
pub uninterp spec fn flag_shape(m: VisibilityGrid) -> (usize, usize);

/// Relies on ndarray's `Array2::from_shape_vec` with a shape of two axes:
/// it succeeds exactly when the vector holds `rows * cols` values and the
/// product of the non-empty axes stays within `isize::MAX`, and it lays the
/// values out row after row.
#[verifier::external_body]
fn heights_from_shape_vec(rows: usize, cols: usize, cells: Vec<i16>) -> (r: Option<HeightGrid>)
    ensures
        r is Some <==> (cells.len() == rows * cols && nonzero_product(rows as int, cols as int)
            <= isize::MAX),
        r matches Some(g) ==> {
            &&& height_shape(g) == (rows, cols)
            &&& is_shaped(height_rows(g), (rows, cols))
            &&& forall|i: int, j: int|
                0 <= i < rows && 0 <= j < cols ==> #[trigger] height_rows(g)[i][j] == cells[i * cols + j]
        },
{
    match Array2::from_shape_vec((rows, cols), cells) {
        Ok(a) => Some(HeightGrid { cells: a }),
        Err(_) => None,
    }
}

/// Relies on ndarray's `ArrayBase::dim`: the lengths of the two axes, whose
/// non-empty product the array keeps within `isize::MAX`.
#[verifier::external_body]
pub(crate) fn heights_dim(g: &HeightGrid) -> (r: (usize, usize))
    ensures
        r == height_shape(*g),
        is_shaped(height_rows(*g), r),
        nonzero_product(r.0 as int, r.1 as int) <= isize::MAX,
{
    g.cells.dim()
}

/// Relies on ndarray's indexing of an `Array2` by `[row, col]`, which panics
/// only out of bounds.
#[verifier::external_body]
pub(crate) fn height_at(g: &HeightGrid, row: usize, col: usize) -> (r: i16)
    requires
        row < height_shape(*g).0,
        col < height_shape(*g).1,
    ensures
        r == height_rows(*g)[row as int][col as int],
{
    g.cells[[row, col]]
}

/// Relies on ndarray's `Array2::zeros`, which panics only where the product
/// of the non-empty axes overflows `isize`.
#[verifier::external_body]
fn flags_zeros(rows: usize, cols: usize) -> (r: VisibilityGrid)
    requires
        nonzero_product(rows as int, cols as int) <= isize::MAX,
    ensures
        flag_shape(r) == (rows, cols),
        is_shaped(flag_rows(r), (rows, cols)),
        forall|i: int, j: int| 0 <= i < rows && 0 <= j < cols ==> #[trigger] flag_rows(r)[i][j] == 0,
{
    VisibilityGrid { cells: Array2::zeros((rows, cols)) }
}

/// Relies on ndarray's `ArrayBase::dim`: the lengths of the two axes.
#[verifier::external_body]
fn flags_dim(m: &VisibilityGrid) -> (r: (usize, usize))
    ensures
        r == flag_shape(*m),
        is_shaped(flag_rows(*m), r),
{
    m.cells.dim()
}

/// Relies on ndarray's indexing of an `Array2` by `[row, col]`, which panics
/// only out of bounds.
#[verifier::external_body]
fn flag_at(m: &VisibilityGrid, row: usize, col: usize) -> (r: u8)
    requires
        row < flag_shape(*m).0,
        col < flag_shape(*m).1,
    ensures
        r == flag_rows(*m)[row as int][col as int],
{
    m.cells[[row, col]]
}

/// Relies on ndarray's mutable indexing of an `Array2` by `[row, col]`: it
/// writes that one cell and panics only out of bounds.
#[verifier::external_body]
fn set_flag(m: &mut VisibilityGrid, row: usize, col: usize, value: u8)
    requires
        row < flag_shape(*old(m)).0,
        col < flag_shape(*old(m)).1,
    ensures
        flag_shape(*final(m)) == flag_shape(*old(m)),
        flag_rows(*final(m)) == flag_rows(*old(m)).update(
            row as int,
            flag_rows(*old(m))[row as int].update(col as int, value),
        ),
{
    m.cells[[row, col]] = value;
}

impl HeightGrid {
    /// Builds a grid of `rows` by `cols` heights from its values listed row
    /// after row; `None` where their number is not `rows * cols`, or the shape
    /// is too large for an array.
    pub fn new(rows: usize, cols: usize, cells: Vec<i16>) -> (r: Option<HeightGrid>)
        ensures
            r is Some <==> (cells.len() == rows * cols && nonzero_product(rows as int, cols as int)
                <= isize::MAX),
            r matches Some(g) ==> {
                &&& height_shape(g) == (rows, cols)
                &&& is_shaped(height_rows(g), (rows, cols))
                &&& forall|i: int, j: int|
                    0 <= i < rows && 0 <= j < cols ==> #[trigger] height_rows(g)[i][j] == cells[i
                        * cols + j]
            },
    {
        heights_from_shape_vec(rows, cols, cells)
    }

    /// The number of rows and of columns.
    pub fn shape(&self) -> (r: (usize, usize))
        ensures
            r == height_shape(*self),
            is_shaped(height_rows(*self), r),
            nonzero_product(r.0 as int, r.1 as int) <= isize::MAX,
    {
        heights_dim(self)
    }

    /// The height at `(row, col)`, or `None` outside the grid.
    pub fn get(&self, row: usize, col: usize) -> (r: Option<i16>)
        ensures
            r is Some <==> (row < height_shape(*self).0 && col < height_shape(*self).1),
            r matches Some(h) ==> h == height_rows(*self)[row as int][col as int],
    {
        let (rows, cols) = heights_dim(self);
        if row < rows && col < cols {
            Some(height_at(self, row, col))
        } else {
            None
        }
    }
}

impl VisibilityGrid {
    /// A grid of `rows` by `cols` cells, none of them seen yet.
    pub(crate) fn occluded(rows: usize, cols: usize) -> (r: VisibilityGrid)
        requires
            nonzero_product(rows as int, cols as int) <= isize::MAX,
        ensures
            flag_shape(r) == (rows, cols),
            is_shaped(flag_rows(r), (rows, cols)),
            forall|i: int, j: int| 0 <= i < rows && 0 <= j < cols ==> #[trigger] flag_rows(r)[i][j] == 0,
    {
        flags_zeros(rows, cols)
    }

    /// Marks the cell at `(row, col)` as seen.
    pub(crate) fn mark_visible(&mut self, row: usize, col: usize)
        requires
            row < flag_shape(*old(self)).0,
            col < flag_shape(*old(self)).1,
        ensures
            flag_shape(*final(self)) == flag_shape(*old(self)),
            flag_rows(*final(self)) == flag_rows(*old(self)).update(
                row as int,
                flag_rows(*old(self))[row as int].update(col as int, 1),
            ),
    {
        set_flag(self, row, col, 1);
    }

    /// The number of rows and of columns.
    pub fn shape(&self) -> (r: (usize, usize))
        ensures
            r == flag_shape(*self),
            is_shaped(flag_rows(*self), r),
    {
        flags_dim(self)
    }

    /// The flag at `(row, col)`, or `None` outside the grid.
    pub fn get(&self, row: usize, col: usize) -> (r: Option<u8>)
        ensures
            r is Some <==> (row < flag_shape(*self).0 && col < flag_shape(*self).1),
            r matches Some(f) ==> f == flag_rows(*self)[row as int][col as int],
    {
        let (rows, cols) = flags_dim(self);
        if row < rows && col < cols {
            Some(flag_at(self, row, col))
        } else {
            None
        }
    }
}

} // verus!
