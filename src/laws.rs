use vstd::prelude::*;
use crate::grid::{flag_rows, flag_shape, height_rows, height_shape, HeightGrid, VisibilityGrid};
use crate::linear::{slope_1d, viewshed_1d_spec, visible_1d};
use crate::planar::{marked_2d, ray_marks, viewshed_2d_spec};
use crate::ray::{lemma_ray_cell_between, ray_along_rows, ray_cell, ray_count, ray_len, ray_target};
use crate::slope::{lemma_le_transitive, Slope};

verus! {

/// On a line, the viewpoint itself is always marked visible, without its own
/// angle being consulted.
pub proof fn lemma_viewpoint_visible_1d(h: Seq<i32>, v: int)
    requires
        0 <= v < h.len(),
    ensures
        viewshed_1d_spec(h, v)[v] == 1,
{
    assert(visible_1d(h, v, v));
}

/// In the plane no ray ever samples the viewpoint, so it keeps its initial
/// state.
pub proof fn lemma_viewpoint_never_sampled_2d(h: Seq<Seq<i16>>, rows: int, cols: int, v: (int, int))
    requires
        0 <= v.0 < rows,
        0 <= v.1 < cols,
    ensures
        forall|t: int, k: int|
            0 <= t < ray_count(rows, cols) && 1 <= k <= ray_len(
                v,
                ray_target(rows, cols, t),
                ray_along_rows(rows, cols, t),
            ) ==> #[trigger] ray_cell(v, ray_target(rows, cols, t), ray_along_rows(rows, cols, t), k) != v,
        viewshed_2d_spec(h, rows, cols, v)[v.0][v.1] == 0,
{
    assert forall|t: int, k: int|
        0 <= t < ray_count(rows, cols) && 1 <= k <= ray_len(
            v,
            ray_target(rows, cols, t),
            ray_along_rows(rows, cols, t),
        ) implies #[trigger] ray_cell(v, ray_target(rows, cols, t), ray_along_rows(rows, cols, t), k) != v by {
        lemma_ray_cell_between(v, ray_target(rows, cols, t), ray_along_rows(rows, cols, t), k);
    }
    if marked_2d(h, rows, cols, v, v, ray_count(rows, cols)) {
        let t = choose|t: int|
            0 <= t < ray_count(rows, cols) && #[trigger] ray_marks(
                h,
                v,
                ray_target(rows, cols, t),
                ray_along_rows(rows, cols, t),
                v,
                ray_len(v, ray_target(rows, cols, t), ray_along_rows(rows, cols, t)),
            );
        let tg = ray_target(rows, cols, t);
        let al = ray_along_rows(rows, cols, t);
        let i = choose|i: int|
            0 <= i < ray_len(v, tg, al) && #[trigger] ray_cell(v, tg, al, i + 1) == v && crate::sweep::sees(
                crate::planar::ray_slopes(h, v, tg, al),
                i,
            );
        lemma_ray_cell_between(v, tg, al, i + 1);
    }
}

/// In the plane only cells that lie on some sampled ray can be visible: a cell
/// that no ray lands on stays occluded.
pub proof fn lemma_unsampled_cell_occluded(h: Seq<Seq<i16>>, rows: int, cols: int, v: (int, int), c: (int, int))
    requires
        0 <= c.0 < rows,
        0 <= c.1 < cols,
        forall|t: int, k: int|
            0 <= t < ray_count(rows, cols) && 1 <= k <= ray_len(
                v,
                ray_target(rows, cols, t),
                ray_along_rows(rows, cols, t),
            ) ==> #[trigger] ray_cell(v, ray_target(rows, cols, t), ray_along_rows(rows, cols, t), k) != c,
    ensures
        viewshed_2d_spec(h, rows, cols, v)[c.0][c.1] == 0,
{
    if marked_2d(h, rows, cols, v, c, ray_count(rows, cols)) {
        let t = choose|t: int|
            0 <= t < ray_count(rows, cols) && #[trigger] ray_marks(
                h,
                v,
                ray_target(rows, cols, t),
                ray_along_rows(rows, cols, t),
                c,
                ray_len(v, ray_target(rows, cols, t), ray_along_rows(rows, cols, t)),
            );
        let tg = ray_target(rows, cols, t);
        let al = ray_along_rows(rows, cols, t);
        let i = choose|i: int|
            0 <= i < ray_len(v, tg, al) && #[trigger] ray_cell(v, tg, al, i + 1) == c && crate::sweep::sees(
                crate::planar::ray_slopes(h, v, tg, al),
                i,
            );
        assert(ray_cell(v, tg, al, i + 1) != c);
    }
}

/// Two viewsheds of one line from one viewpoint are identical.
pub proof fn lemma_deterministic_1d(h: Seq<i32>, v: int, a: Seq<i32>, b: Seq<i32>)
    requires
        a == viewshed_1d_spec(h, v),
        b == viewshed_1d_spec(h, v),
    ensures
        a == b,
{
}

/// Two viewsheds of one grid from one viewpoint are identical.
pub proof fn lemma_deterministic_2d(terrain: HeightGrid, v: (usize, usize), a: VisibilityGrid, b: VisibilityGrid)
    requires
        flag_shape(a) == height_shape(terrain),
        flag_shape(b) == height_shape(terrain),
        flag_rows(a) == viewshed_2d_spec(
            height_rows(terrain),
            height_shape(terrain).0 as int,
            height_shape(terrain).1 as int,
            (v.0 as int, v.1 as int),
        ),
        flag_rows(b) == viewshed_2d_spec(
            height_rows(terrain),
            height_shape(terrain).0 as int,
            height_shape(terrain).1 as int,
            (v.0 as int, v.1 as int),
        ),
    ensures
        flag_shape(a) == flag_shape(b),
        flag_rows(a) == flag_rows(b),
{
}

/// The height gained from the viewpoint over `k` cells to the right is at
/// most `k` times the last step, when the steps never shrink.
proof fn lemma_rise_bounded(h: Seq<i32>, v: int, k: int)
    requires
        0 <= v,
        1 <= k,
        v + k < h.len(),
        forall|i: int| v <= i && i + 2 < h.len() ==> h[i + 1] - h[i] <= #[trigger] h[i + 2] - h[i + 1],
    ensures
        h[v + k] - h[v] <= k * (h[v + k] - h[v + k - 1]),
    decreases k,
{
    if k > 1 {
        lemma_rise_bounded(h, v, k - 1);
        let d_prev = h[v + k - 1] - h[v + k - 2];
        let d = h[v + k] - h[v + k - 1];
        assert(h[(v + k - 2) + 1] - h[v + k - 2] <= h[(v + k - 2) + 2] - h[(v + k - 2) + 1]);
        assert((k - 1) * d_prev <= (k - 1) * d) by (nonlinear_arith)
            requires
                d_prev <= d,
                k >= 1,
        ;
        assert((k - 1) * d + d == k * d) by (nonlinear_arith);
    }
}

/// Each cell to the right stands at an angle no lower than the one before it.
proof fn lemma_next_not_lower(h: Seq<i32>, v: int, k: int)
    requires
        0 <= v,
        0 <= k,
        v + k + 1 < h.len(),
        h.len() <= usize::MAX,
        forall|i: int| v <= i && i + 1 < h.len() ==> h[i] <= #[trigger] h[i + 1],
        forall|i: int| v <= i && i + 2 < h.len() ==> h[i + 1] - h[i] <= #[trigger] h[i + 2] - h[i + 1],
    ensures
        slope_1d(h, v, v + k).le(slope_1d(h, v, v + k + 1)),
{
    let d = h[v + k + 1] - h[v + k];
    assert(h[v + k] <= h[v + k + 1]);
    if k == 0 {
        assert(slope_1d(h, v, v + 1) == Slope { num: d as i64, den: 1 });
    } else {
        lemma_rise_bounded(h, v, k);
        let s = h[v + k] - h[v];
        let dk = h[v + k] - h[v + k - 1];
        assert(h[(v + k - 1) + 1] - h[v + k - 1] <= h[(v + k - 1) + 2] - h[(v + k - 1) + 1]);
        assert(slope_1d(h, v, v + k) == Slope { num: s as i64, den: k as u64 });
        assert(slope_1d(h, v, v + k + 1) == Slope { num: (s + d) as i64, den: (k + 1) as u64 });
        assert(s * (k + 1) <= (s + d) * k) by (nonlinear_arith)
            requires
                s <= k * dk,
                dk <= d,
                k >= 1,
        ;
    }
}

/// Along a line that, away from the viewpoint to the right, never falls and
/// rises at a rate that never slows, every cell on that side is visible.
pub proof fn lemma_rising_terrain_visible_right(h: Seq<i32>, v: int)
    requires
        0 <= v < h.len(),
        h.len() <= usize::MAX,
        forall|i: int| v <= i && i + 1 < h.len() ==> h[i] <= #[trigger] h[i + 1],
        forall|i: int| v <= i && i + 2 < h.len() ==> h[i + 1] - h[i] <= #[trigger] h[i + 2] - h[i + 1],
    ensures
        forall|i: int| v <= i < h.len() ==> #[trigger] viewshed_1d_spec(h, v)[i] == 1,
{
    assert forall|i: int| v <= i < h.len() implies #[trigger] viewshed_1d_spec(h, v)[i] == 1 by {
        assert forall|j: int| v <= j < i implies #[trigger] slope_1d(h, v, j).le(slope_1d(h, v, i)) by {
            lemma_chain_not_lower(h, v, j, i);
        }
    }
}

proof fn lemma_chain_not_lower(h: Seq<i32>, v: int, j: int, i: int)
    requires
        0 <= v <= j < i < h.len(),
        h.len() <= usize::MAX,
        forall|m: int| v <= m && m + 1 < h.len() ==> h[m] <= #[trigger] h[m + 1],
        forall|m: int| v <= m && m + 2 < h.len() ==> h[m + 1] - h[m] <= #[trigger] h[m + 2] - h[m + 1],
    ensures
        slope_1d(h, v, j).le(slope_1d(h, v, i)),
    decreases i - j,
{
    lemma_next_not_lower(h, v, i - 1 - v);
    if j < i - 1 {
        lemma_chain_not_lower(h, v, j, i - 1);
        lemma_le_transitive(slope_1d(h, v, j), slope_1d(h, v, i - 1), slope_1d(h, v, i));
    }
}

proof fn lemma_rise_bounded_left(h: Seq<i32>, v: int, k: int)
    requires
        v < h.len(),
        1 <= k <= v,
        forall|i: int| 0 <= i && i + 2 <= v ==> h[i + 1] - h[i + 2] <= #[trigger] h[i] - h[i + 1],
    ensures
        h[v - k] - h[v] <= k * (h[v - k] - h[v - k + 1]),
    decreases k,
{
    if k > 1 {
        lemma_rise_bounded_left(h, v, k - 1);
        let d_prev = h[v - k + 1] - h[v - k + 2];
        let d = h[v - k] - h[v - k + 1];
        assert(h[(v - k) + 1] - h[(v - k) + 2] <= h[v - k] - h[(v - k) + 1]);
        assert((k - 1) * d_prev <= (k - 1) * d) by (nonlinear_arith)
            requires
                d_prev <= d,
                k >= 1,
        ;
        assert((k - 1) * d + d == k * d) by (nonlinear_arith);
    }
}

proof fn lemma_next_not_lower_left(h: Seq<i32>, v: int, k: int)
    requires
        v < h.len(),
        1 <= k,
        k + 1 <= v,
        h.len() <= usize::MAX,
        forall|i: int| 0 <= i && i + 2 <= v ==> h[i + 1] - h[i + 2] <= #[trigger] h[i] - h[i + 1],
    ensures
        slope_1d(h, v, v - k).le(slope_1d(h, v, v - k - 1)),
{
    let d = h[v - k - 1] - h[v - k];
    lemma_rise_bounded_left(h, v, k);
    let s = h[v - k] - h[v];
    let dk = h[v - k] - h[v - k + 1];
    assert(h[(v - k - 1) + 1] - h[(v - k - 1) + 2] <= h[v - k - 1] - h[(v - k - 1) + 1]);
    assert(slope_1d(h, v, v - k) == Slope { num: s as i64, den: k as u64 });
    assert(slope_1d(h, v, v - k - 1) == Slope { num: (s + d) as i64, den: (k + 1) as u64 });
    assert(s * (k + 1) <= (s + d) * k) by (nonlinear_arith)
        requires
            s <= k * dk,
            dk <= d,
            k >= 1,
    ;
}

proof fn lemma_chain_not_lower_left(h: Seq<i32>, v: int, j: int, i: int)
    requires
        0 <= i < j < v < h.len(),
        h.len() <= usize::MAX,
        forall|m: int| 0 <= m && m + 2 <= v ==> h[m + 1] - h[m + 2] <= #[trigger] h[m] - h[m + 1],
    ensures
        slope_1d(h, v, j).le(slope_1d(h, v, i)),
    decreases j - i,
{
    lemma_next_not_lower_left(h, v, v - i - 1);
    if i + 1 < j {
        lemma_chain_not_lower_left(h, v, j, i + 1);
        lemma_le_transitive(slope_1d(h, v, j), slope_1d(h, v, i + 1), slope_1d(h, v, i));
    }
}

/// Along a line that, away from the viewpoint to the left, never falls and
/// rises at a rate that never slows, every cell on that side is visible.
pub proof fn lemma_rising_terrain_visible_left(h: Seq<i32>, v: int)
    requires
        0 <= v < h.len(),
        h.len() <= usize::MAX,
        forall|i: int| 0 <= i && i + 1 <= v ==> h[i + 1] <= #[trigger] h[i],
        forall|i: int| 0 <= i && i + 2 <= v ==> h[i + 1] - h[i + 2] <= #[trigger] h[i] - h[i + 1],
    ensures
        forall|i: int| 0 <= i <= v ==> #[trigger] viewshed_1d_spec(h, v)[i] == 1,
{
    assert forall|i: int| 0 <= i <= v implies #[trigger] viewshed_1d_spec(h, v)[i] == 1 by {
        if i < v {
            assert forall|j: int| i < j < v implies #[trigger] slope_1d(h, v, j).le(slope_1d(h, v, i)) by {
                lemma_chain_not_lower_left(h, v, j, i);
            }
        } else {
            assert(visible_1d(h, v, v));
        }
    }
}

/// The tie rule on a line: a cell at exactly the angle of a visible nearer
/// cell on the same side, with nothing between them standing higher, is
/// visible too.
pub proof fn lemma_tie_visible_1d(h: Seq<i32>, v: int, j: int, i: int)
    requires
        0 <= v < h.len(),
        h.len() <= usize::MAX,
        (v < j < i < h.len()) || (0 <= i < j < v),
        visible_1d(h, v, j),
        slope_1d(h, v, j).le(slope_1d(h, v, i)),
        slope_1d(h, v, i).le(slope_1d(h, v, j)),
        forall|l: int| (j < l < i || i < l < j) ==> #[trigger] slope_1d(h, v, l).le(slope_1d(h, v, j)),
    ensures
        visible_1d(h, v, i),
        viewshed_1d_spec(h, v)[i] == 1,
{
    assert forall|l: int| (v < l < i || i < l < v) implies #[trigger] slope_1d(h, v, l).le(
        slope_1d(h, v, i),
    ) by {
        if l != j {
            assert(slope_1d(h, v, l).le(slope_1d(h, v, j)));
        }
        lemma_le_transitive(slope_1d(h, v, l), slope_1d(h, v, j), slope_1d(h, v, i));
    }
}

/// On a grid of one height every angle is level, so every cell other than the
/// viewpoint that some edge ray samples is visible.
pub proof fn lemma_flat_grid_sampled_visible(
    h: Seq<Seq<i16>>,
    rows: int,
    cols: int,
    v: (int, int),
    t: int,
    k: int,
)
    requires
        0 <= v.0 < rows,
        0 <= v.1 < cols,
        h.len() == rows,
        forall|r: int| 0 <= r < rows ==> #[trigger] h[r].len() == cols,
        forall|r: int, c: int| 0 <= r < rows && 0 <= c < cols ==> #[trigger] h[r][c] == h[v.0][v.1],
        0 <= t < ray_count(rows, cols),
        1 <= k <= ray_len(v, ray_target(rows, cols, t), ray_along_rows(rows, cols, t)),
    ensures
        ({
            let c = ray_cell(v, ray_target(rows, cols, t), ray_along_rows(rows, cols, t), k);
            viewshed_2d_spec(h, rows, cols, v)[c.0][c.1] == 1
        }),
{
    let tg = ray_target(rows, cols, t);
    let al = ray_along_rows(rows, cols, t);
    let c = ray_cell(v, tg, al, k);
    let s = crate::planar::ray_slopes(h, v, tg, al);
    assert(0 <= tg.0 < rows && 0 <= tg.1 < cols);
    assert forall|m: int| 0 <= m < s.len() implies #[trigger] s[m].num == 0 by {
        lemma_ray_cell_between(v, tg, al, m + 1);
        let cm = ray_cell(v, tg, al, m + 1);
        assert(0 <= cm.0 < rows && 0 <= cm.1 < cols);
        assert(h[cm.0][cm.1] == h[v.0][v.1]);
        assert(s[m] == crate::planar::slope_2d(h, v, cm));
    }
    assert(crate::sweep::sees(s, k - 1));
    lemma_ray_cell_between(v, tg, al, k);
    assert(ray_cell(v, tg, al, (k - 1) + 1) == c);
    assert(ray_marks(h, v, tg, al, c, ray_len(v, tg, al)));
    assert(marked_2d(h, rows, cols, v, c, ray_count(rows, cols)));
}

/// A viewshed that `viewshed_2d` returns leaves the viewpoint's flag at its
/// initial 0: no sweep evaluates it.
pub proof fn lemma_viewpoint_flag_untouched(terrain: HeightGrid, v: (usize, usize), out: VisibilityGrid)
    requires
        v.0 < height_shape(terrain).0,
        v.1 < height_shape(terrain).1,
        flag_rows(out) == viewshed_2d_spec(
            height_rows(terrain),
            height_shape(terrain).0 as int,
            height_shape(terrain).1 as int,
            (v.0 as int, v.1 as int),
        ),
    ensures
        flag_rows(out)[v.0 as int][v.1 as int] == 0,
{
    lemma_viewpoint_never_sampled_2d(
        height_rows(terrain),
        height_shape(terrain).0 as int,
        height_shape(terrain).1 as int,
        (v.0 as int, v.1 as int),
    );
}

} // verus!
