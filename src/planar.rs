use vstd::prelude::*;
use crate::error::ViewshedError;
use crate::grid::{
    flag_rows,
    flag_shape,
    height_at,
    height_rows,
    height_shape,
    heights_dim,
    is_shaped,
    HeightGrid,
    VisibilityGrid,
};
use crate::ray::{
    abs,
    edge_ray,
    lemma_ray_cell_between,
    ray_along_rows,
    ray_cell,
    ray_cells,
    ray_count,
    ray_len,
    ray_target,
    MAX_SIDE,
};
use crate::slope::Slope;
use crate::sweep::{all_wf, running_max_visibility, sees};

verus! {

/// The angle key of cell `c` seen from `v`: with `dh` the height difference
/// and `d` the Euclidean distance in the plane, `dh * |dh| / d²`, which orders
/// cells as `atan(dh / d)` does; level at the viewpoint itself.
pub open spec fn slope_2d(h: Seq<Seq<i16>>, v: (int, int), c: (int, int)) -> Slope {
    if c == v {
        Slope::spec_level()
    } else {
        let dh = h[c.0][c.1] - h[v.0][v.1];
        Slope {
            num: (dh * abs(dh)) as i64,
            den: ((c.0 - v.0) * (c.0 - v.0) + (c.1 - v.1) * (c.1 - v.1)) as u64,
        }
    }
}

/// The angles met along the ray from `v` to `target`, nearest first.
pub open spec fn ray_slopes(h: Seq<Seq<i16>>, v: (int, int), target: (int, int), along_rows: bool) -> Seq<Slope> {
    Seq::new(
        ray_len(v, target, along_rows) as nat,
        |i: int| slope_2d(h, v, ray_cell(v, target, along_rows, i + 1)),
    )
}

/// One of the first `upto` cells of the ray from `v` to `target` is `c`, and
/// the running-maximum rule sees it there.
pub open spec fn ray_marks(
    h: Seq<Seq<i16>>,
    v: (int, int),
    target: (int, int),
    along_rows: bool,
    c: (int, int),
    upto: int,
) -> bool {
    exists|i: int|
        0 <= i < upto && #[trigger] ray_cell(v, target, along_rows, i + 1) == c && sees(
            ray_slopes(h, v, target, along_rows),
            i,
        )
}

/// Some ray among the first `upto` edge rays of the grid sees cell `c`.
pub open spec fn marked_2d(h: Seq<Seq<i16>>, rows: int, cols: int, v: (int, int), c: (int, int), upto: int) -> bool {
    exists|t: int|
        0 <= t < upto && #[trigger] ray_marks(
            h,
            v,
            ray_target(rows, cols, t),
            ray_along_rows(rows, cols, t),
            c,
            ray_len(v, ray_target(rows, cols, t), ray_along_rows(rows, cols, t)),
        )
}

/// The viewshed in the plane: 1 for each cell that some ray toward an edge
/// cell sees, 0 for every other cell.
pub open spec fn viewshed_2d_spec(h: Seq<Seq<i16>>, rows: int, cols: int, v: (int, int)) -> Seq<Seq<u8>> {
    Seq::new(
        rows as nat,
        |r: int|
            Seq::new(
                cols as nat,
                |c: int|
                    if marked_2d(h, rows, cols, v, (r, c), ray_count(rows, cols)) {
                        1u8
                    } else {
                        0u8
                    },
            ),
    )
}

/// `angles` holds the angle key of every cell of a `shape` grid seen from `v`.
pub open spec fn is_angle_field(angles: Seq<Vec<Slope>>, h: Seq<Seq<i16>>, shape: (usize, usize), v: (int, int)) -> bool {
    &&& angles.len() == shape.0
    &&& forall|r: int| 0 <= r < shape.0 ==> #[trigger] angles[r].len() == shape.1
    &&& forall|r: int, c: int|
        0 <= r < shape.0 && 0 <= c < shape.1 ==> #[trigger] angles[r][c] == slope_2d(h, v, (r, c))
    &&& forall|r: int, c: int| 0 <= r < shape.0 && 0 <= c < shape.1 ==> #[trigger] angles[r][c].wf()
}

/// The angle field of a grid of heights seen from `viewpoint`.
pub fn angle_field_2d(terrain: &HeightGrid, viewpoint: (usize, usize)) -> (r: Vec<Vec<Slope>>)
    requires
        height_shape(*terrain).0 <= MAX_SIDE,
        height_shape(*terrain).1 <= MAX_SIDE,
        viewpoint.0 < height_shape(*terrain).0,
        viewpoint.1 < height_shape(*terrain).1,
    ensures
        is_angle_field(
            r@,
            height_rows(*terrain),
            height_shape(*terrain),
            (viewpoint.0 as int, viewpoint.1 as int),
        ),
        r[viewpoint.0 as int][viewpoint.1 as int] == Slope::spec_level(),
{
    let ghost h = height_rows(*terrain);
    let ghost v = (viewpoint.0 as int, viewpoint.1 as int);
    let (rows, cols) = heights_dim(terrain);
    let base: i64 = height_at(terrain, viewpoint.0, viewpoint.1) as i64;
    let mut field: Vec<Vec<Slope>> = Vec::new();
    let mut r: usize = 0;
    while r < rows
        invariant
            h == height_rows(*terrain),
            (rows, cols) == height_shape(*terrain),
            rows <= MAX_SIDE,
            cols <= MAX_SIDE,
            viewpoint.0 < rows,
            viewpoint.1 < cols,
            v == (viewpoint.0 as int, viewpoint.1 as int),
            is_shaped(h, (rows, cols)),
            base == h[v.0][v.1],
            r <= rows,
            field.len() == r,
            forall|i: int| 0 <= i < r ==> #[trigger] field[i].len() == cols,
            forall|i: int, j: int| 0 <= i < r && 0 <= j < cols ==> #[trigger] field[i][j] == slope_2d(h, v, (i, j)),
            forall|i: int, j: int| 0 <= i < r && 0 <= j < cols ==> #[trigger] field[i][j].wf(),
        decreases rows - r,
    {
        let mut line: Vec<Slope> = Vec::new();
        let mut c: usize = 0;
        while c < cols
            invariant
                h == height_rows(*terrain),
                (rows, cols) == height_shape(*terrain),
                rows <= MAX_SIDE,
                cols <= MAX_SIDE,
                viewpoint.0 < rows,
                viewpoint.1 < cols,
                v == (viewpoint.0 as int, viewpoint.1 as int),
                is_shaped(h, (rows, cols)),
                base == h[v.0][v.1],
                r < rows,
                c <= cols,
                line.len() == c,
                forall|j: int| 0 <= j < c ==> #[trigger] line[j] == slope_2d(h, v, (r as int, j)),
                forall|j: int| 0 <= j < c ==> #[trigger] line[j].wf(),
            decreases cols - c,
        {
            if r == viewpoint.0 && c == viewpoint.1 {
                line.push(Slope::level());
            } else {
                let dh: i64 = height_at(terrain, r, c) as i64 - base;
                assert(-0x1_0000 * 0x1_0000 <= dh * abs(dh as int) <= 0x1_0000 * 0x1_0000)
                    by (nonlinear_arith)
                    requires
                        -0x1_0000 <= dh <= 0x1_0000,
                ;
                let num: i64 = if dh < 0 { dh * (-dh) } else { dh * dh };
                let dr: u64 = if r > viewpoint.0 { (r - viewpoint.0) as u64 } else { (viewpoint.0 - r) as u64 };
                let dc: u64 = if c > viewpoint.1 { (c - viewpoint.1) as u64 } else { (viewpoint.1 - c) as u64 };
                proof {
                    let ri = r as int - v.0;
                    let ci = c as int - v.1;
                    assert(dr * dr <= 0x7fff_ffff * 0x7fff_ffff) by (nonlinear_arith)
                        requires
                            dr <= 0x7fff_ffff,
                    ;
                    assert(dc * dc <= 0x7fff_ffff * 0x7fff_ffff) by (nonlinear_arith)
                        requires
                            dc <= 0x7fff_ffff,
                    ;
                    assert(ri * ri == dr * dr) by (nonlinear_arith)
                        requires
                            dr == abs(ri),
                    ;
                    assert(ci * ci == dc * dc) by (nonlinear_arith)
                        requires
                            dc == abs(ci),
                    ;
                    assert(dr * dr + dc * dc > 0) by (nonlinear_arith)
                        requires
                            dr > 0 || dc > 0,
                    ;
                }
                line.push(Slope { num, den: dr * dr + dc * dc });
            }
            c = c + 1;
        }
        field.push(line);
        r = r + 1;
    }
    field
}

proof fn lemma_ray_marks_step(
    h: Seq<Seq<i16>>,
    v: (int, int),
    target: (int, int),
    along_rows: bool,
    c: (int, int),
    i: int,
)
    requires
        0 <= i,
    ensures
        ray_marks(h, v, target, along_rows, c, i + 1) == (ray_marks(h, v, target, along_rows, c, i) || (
        ray_cell(v, target, along_rows, i + 1) == c && sees(ray_slopes(h, v, target, along_rows), i))),
{
    if ray_marks(h, v, target, along_rows, c, i + 1) {
        let w = choose|w: int|
            0 <= w < i + 1 && #[trigger] ray_cell(v, target, along_rows, w + 1) == c && sees(
                ray_slopes(h, v, target, along_rows),
                w,
            );
        if w < i {
            assert(ray_marks(h, v, target, along_rows, c, i));
        }
    }
    if ray_marks(h, v, target, along_rows, c, i) {
        let w = choose|w: int|
            0 <= w < i && #[trigger] ray_cell(v, target, along_rows, w + 1) == c && sees(
                ray_slopes(h, v, target, along_rows),
                w,
            );
        assert(ray_marks(h, v, target, along_rows, c, i + 1));
    }
}

proof fn lemma_marked_step(h: Seq<Seq<i16>>, rows: int, cols: int, v: (int, int), c: (int, int), t: int)
    requires
        0 <= t,
    ensures
        marked_2d(h, rows, cols, v, c, t + 1) == (marked_2d(h, rows, cols, v, c, t) || ray_marks(
            h,
            v,
            ray_target(rows, cols, t),
            ray_along_rows(rows, cols, t),
            c,
            ray_len(v, ray_target(rows, cols, t), ray_along_rows(rows, cols, t)),
        )),
{
    if marked_2d(h, rows, cols, v, c, t + 1) {
        let w = choose|w: int|
            0 <= w < t + 1 && #[trigger] ray_marks(
                h,
                v,
                ray_target(rows, cols, w),
                ray_along_rows(rows, cols, w),
                c,
                ray_len(v, ray_target(rows, cols, w), ray_along_rows(rows, cols, w)),
            );
        if w < t {
            assert(marked_2d(h, rows, cols, v, c, t));
        }
    }
    if marked_2d(h, rows, cols, v, c, t) {
        let w = choose|w: int|
            0 <= w < t && #[trigger] ray_marks(
                h,
                v,
                ray_target(rows, cols, w),
                ray_along_rows(rows, cols, w),
                c,
                ray_len(v, ray_target(rows, cols, w), ray_along_rows(rows, cols, w)),
            );
        assert(marked_2d(h, rows, cols, v, c, t + 1));
    }
}

/// Sweeps the ray from `viewpoint` to `target`: every cell of it that the
/// running-maximum rule sees is marked; no other cell changes.
fn sweep_ray(
    terrain: &HeightGrid,
    angles: &Vec<Vec<Slope>>,
    out: &mut VisibilityGrid,
    viewpoint: (usize, usize),
    target: (usize, usize),
    along_rows: bool,
)
    requires
        height_shape(*terrain).0 <= MAX_SIDE,
        height_shape(*terrain).1 <= MAX_SIDE,
        viewpoint.0 < height_shape(*terrain).0,
        viewpoint.1 < height_shape(*terrain).1,
        target.0 < height_shape(*terrain).0,
        target.1 < height_shape(*terrain).1,
        is_angle_field(
            angles@,
            height_rows(*terrain),
            height_shape(*terrain),
            (viewpoint.0 as int, viewpoint.1 as int),
        ),
        flag_shape(*old(out)) == height_shape(*terrain),
        is_shaped(flag_rows(*old(out)), flag_shape(*old(out))),
    ensures
        flag_shape(*final(out)) == flag_shape(*old(out)),
        is_shaped(flag_rows(*final(out)), flag_shape(*final(out))),
        forall|r: int, c: int|
            0 <= r < height_shape(*terrain).0 && 0 <= c < height_shape(*terrain).1
                ==> #[trigger] flag_rows(*final(out))[r][c] == if ray_marks(
                height_rows(*terrain),
                (viewpoint.0 as int, viewpoint.1 as int),
                (target.0 as int, target.1 as int),
                along_rows,
                (r, c),
                ray_len(
                    (viewpoint.0 as int, viewpoint.1 as int),
                    (target.0 as int, target.1 as int),
                    along_rows,
                ),
            ) {
                1u8
            } else {
                flag_rows(*old(out))[r][c]
            },
{
    let ghost h = height_rows(*terrain);
    let ghost v = (viewpoint.0 as int, viewpoint.1 as int);
    let ghost tg = (target.0 as int, target.1 as int);
    let ghost shape = height_shape(*terrain);
    let ghost before = flag_rows(*out);
    let cells = ray_cells(viewpoint, target, along_rows);
    let mut slopes: Vec<Slope> = Vec::new();
    let mut i: usize = 0;
    while i < cells.len()
        invariant
            h == height_rows(*terrain),
            v == (viewpoint.0 as int, viewpoint.1 as int),
            tg == (target.0 as int, target.1 as int),
            shape == height_shape(*terrain),
            v.0 < shape.0 && v.1 < shape.1,
            tg.0 < shape.0 && tg.1 < shape.1,
            is_angle_field(angles@, h, shape, v),
            cells.len() == ray_len(v, tg, along_rows),
            forall|k: int|
                0 <= k < cells.len() ==> (#[trigger] cells[k].0 as int, cells[k].1 as int) == ray_cell(
                    v,
                    tg,
                    along_rows,
                    k + 1,
                ),
            i <= cells.len(),
            slopes.len() == i,
            forall|k: int| 0 <= k < i ==> #[trigger] slopes[k] == ray_slopes(h, v, tg, along_rows)[k],
            forall|k: int| 0 <= k < i ==> #[trigger] slopes[k].wf(),
        decreases cells.len() - i,
    {
        proof {
            lemma_ray_cell_between(v, tg, along_rows, i + 1);
        }
        let (r, c) = cells[i];
        assert(angles@[r as int].len() == shape.1);
        slopes.push(angles[r][c]);
        i = i + 1;
    }
    assert(slopes@ =~= ray_slopes(h, v, tg, along_rows));
    let seen = running_max_visibility(&slopes);
    let mut i: usize = 0;
    while i < cells.len()
        invariant
            h == height_rows(*terrain),
            v == (viewpoint.0 as int, viewpoint.1 as int),
            tg == (target.0 as int, target.1 as int),
            shape == height_shape(*terrain),
            v.0 < shape.0 && v.1 < shape.1,
            tg.0 < shape.0 && tg.1 < shape.1,
            cells.len() == ray_len(v, tg, along_rows),
            forall|k: int|
                0 <= k < cells.len() ==> (#[trigger] cells[k].0 as int, cells[k].1 as int) == ray_cell(
                    v,
                    tg,
                    along_rows,
                    k + 1,
                ),
            slopes@ == ray_slopes(h, v, tg, along_rows),
            seen.len() == slopes.len(),
            forall|k: int| 0 <= k < seen.len() ==> seen[k] == sees(slopes@, k),
            i <= cells.len(),
            flag_shape(*out) == shape,
            is_shaped(before, shape),
            is_shaped(flag_rows(*out), shape),
            forall|r: int, c: int|
                0 <= r < shape.0 && 0 <= c < shape.1 ==> #[trigger] flag_rows(*out)[r][c] == if ray_marks(
                    h,
                    v,
                    tg,
                    along_rows,
                    (r, c),
                    i as int,
                ) {
                    1u8
                } else {
                    before[r][c]
                },
        decreases cells.len() - i,
    {
        proof {
            lemma_ray_cell_between(v, tg, along_rows, i + 1);
        }
        let ghost prev = flag_rows(*out);
        let (r, c) = cells[i];
        if seen[i] {
            out.mark_visible(r, c);
        }
        proof {
            assert forall|a: int, b: int| 0 <= a < shape.0 && 0 <= b < shape.1 implies #[trigger] flag_rows(
                *out,
            )[a][b] == if ray_marks(h, v, tg, along_rows, (a, b), i + 1) {
                1u8
            } else {
                before[a][b]
            } by {
                lemma_ray_marks_step(h, v, tg, along_rows, (a, b), i as int);
                if seen[i as int] && a == r && b == c {
                } else {
                    assert(flag_rows(*out)[a][b] == prev[a][b]);
                }
            }
        }
        i = i + 1;
    }
}

/// The viewshed of a grid of heights from `viewpoint`, swept along one ray
/// toward each cell of the grid's edges (the last row, the last column, the
/// first row, the first column), each ray with its own running maximum.
/// A cell that no ray samples stays occluded.
pub fn viewshed_2d(terrain: &HeightGrid, viewpoint: (usize, usize)) -> (r: Result<VisibilityGrid, ViewshedError>)
    requires
        height_shape(*terrain).0 <= MAX_SIDE,
        height_shape(*terrain).1 <= MAX_SIDE,
    ensures
        r is Err <==> !(viewpoint.0 < height_shape(*terrain).0 && viewpoint.1 < height_shape(*terrain).1),
        r matches Err(e) ==> e == ViewshedError::OutOfBounds,
        r matches Ok(out) ==> {
            &&& flag_shape(out) == height_shape(*terrain)
            &&& flag_rows(out) == viewshed_2d_spec(
                height_rows(*terrain),
                height_shape(*terrain).0 as int,
                height_shape(*terrain).1 as int,
                (viewpoint.0 as int, viewpoint.1 as int),
            )
        },
{
    let (rows, cols) = heights_dim(terrain);
    if !(viewpoint.0 < rows && viewpoint.1 < cols) {
        return Err(ViewshedError::OutOfBounds);
    }
    let ghost h = height_rows(*terrain);
    let ghost v = (viewpoint.0 as int, viewpoint.1 as int);
    let ghost shape = (rows, cols);
    let angles = angle_field_2d(terrain, viewpoint);
    let mut out = VisibilityGrid::occluded(rows, cols);
    let n: u64 = 2 * (rows as u64) + 2 * (cols as u64);
    let mut t: u64 = 0;
    while t < n
        invariant
            h == height_rows(*terrain),
            v == (viewpoint.0 as int, viewpoint.1 as int),
            shape == height_shape(*terrain),
            shape == (rows, cols),
            rows <= MAX_SIDE,
            cols <= MAX_SIDE,
            viewpoint.0 < rows,
            viewpoint.1 < cols,
            n == ray_count(rows as int, cols as int),
            t <= n,
            is_angle_field(angles@, h, shape, v),
            flag_shape(out) == shape,
            is_shaped(flag_rows(out), shape),
            forall|r: int, c: int|
                0 <= r < rows && 0 <= c < cols ==> #[trigger] flag_rows(out)[r][c] == if marked_2d(
                    h,
                    rows as int,
                    cols as int,
                    v,
                    (r, c),
                    t as int,
                ) {
                    1u8
                } else {
                    0u8
                },
        decreases n - t,
    {
        let (target, along_rows) = edge_ray(rows, cols, t);
        let ghost prev = flag_rows(out);
        sweep_ray(terrain, &angles, &mut out, viewpoint, target, along_rows);
        proof {
            assert forall|r: int, c: int| 0 <= r < rows && 0 <= c < cols implies #[trigger] flag_rows(
                out,
            )[r][c] == if marked_2d(h, rows as int, cols as int, v, (r, c), t + 1) {
                1u8
            } else {
                0u8
            } by {
                lemma_marked_step(h, rows as int, cols as int, v, (r, c), t as int);
            }
        }
        t = t + 1;
    }
    let ghost expected = viewshed_2d_spec(h, rows as int, cols as int, v);
    assert forall|r: int| 0 <= r < rows implies #[trigger] flag_rows(out)[r] =~= expected[r] by {
        assert forall|c: int| 0 <= c < cols implies #[trigger] flag_rows(out)[r][c] == expected[r][c] by {
            assert(flag_rows(out)[r][c] == if marked_2d(h, rows as int, cols as int, v, (r, c), n as int) {
                1u8
            } else {
                0u8
            });
        }
    }
    assert(flag_rows(out) =~= expected);
    Ok(out)
}

} // verus!
