use vstd::prelude::*;
use vstd::arithmetic::div_mod::{
    lemma_div_is_ordered,
    lemma_div_pos_is_pos,
    lemma_fundamental_div_mod_converse_div,
};
use crate::transforms::{to_origin, to_viewpoint};

verus! {

/// The largest number of rows, or of columns, of a grid swept in the plane:
/// squared distances then fit in 64 bits.
pub const MAX_SIDE: usize = 0x7fff_ffff;

pub open spec fn abs(x: int) -> int {
    if x < 0 { -x } else { x }
}

pub open spec fn sign(x: int) -> int {
    if x < 0 { -1 } else if x > 0 { 1 } else { 0 }
}

/// `n / m` rounded to the nearest integer, halves away from zero (`m > 0`).
pub open spec fn round_div(n: int, m: int) -> int {
    if n >= 0 {
        (2 * n + m) / (2 * m)
    } else {
        -((2 * (-n) + m) / (2 * m))
    }
}

/// One ray for each cell of each edge of a `rows` by `cols` grid.
pub open spec fn ray_count(rows: int, cols: int) -> int {
    2 * rows + 2 * cols
}

/// The edge cell that ray `t` aims at. The edges come in this order: the
/// last row, the last column, the first row, the first column.
pub open spec fn ray_target(rows: int, cols: int, t: int) -> (int, int) {
    if t < cols {
        (rows - 1, t)
    } else if t < cols + rows {
        (t - cols, cols - 1)
    } else if t < 2 * cols + rows {
        (0, t - cols - rows)
    } else {
        (t - 2 * cols - rows, 0)
    }
}

/// Rays to the first and last rows step one row at a time; the others step
/// one column at a time.
pub open spec fn ray_along_rows(rows: int, cols: int, t: int) -> bool {
    t < cols || (cols + rows <= t && t < 2 * cols + rows)
}

/// The number of cells sampled on the ray from `v` to `target`.
pub open spec fn ray_len(v: (int, int), target: (int, int), along_rows: bool) -> int {
    if along_rows {
        abs(target.0 - v.0)
    } else {
        abs(target.1 - v.1)
    }
}

/// The `k`-th cell (from 1) sampled on the ray from `v` to `target`: `k` unit
/// steps along the stepping axis, and the matching offset on the other axis
/// rounded to the nearest cell.
pub open spec fn ray_cell(v: (int, int), target: (int, int), along_rows: bool, k: int) -> (int, int) {
    let dr = target.0 - v.0;
    let dc = target.1 - v.1;
    if along_rows {
        (v.0 + sign(dr) * k, v.1 + round_div(k * dc, abs(dr)))
    } else {
        (v.0 + round_div(k * dr, abs(dc)), v.1 + sign(dc) * k)
    }
}

/// `x` lies between `a` and `b`, in either order.
pub open spec fn between(x: int, a: int, b: int) -> bool {
    (a <= x <= b) || (b <= x <= a)
}

proof fn lemma_round_div_nonneg(k: int, d: int, m: int)
    requires
        0 <= k <= m,
        0 < m,
        0 <= d,
    ensures
        0 <= round_div(k * d, m) <= d,
{
    assert(0 <= k * d <= m * d) by (nonlinear_arith)
        requires
            0 <= k <= m,
            0 <= d,
    ;
    lemma_div_pos_is_pos(2 * (k * d) + m, 2 * m);
    lemma_div_is_ordered(2 * (k * d) + m, 2 * (m * d) + m, 2 * m);
    assert(2 * (m * d) + m == d * (2 * m) + m) by (nonlinear_arith);
    lemma_fundamental_div_mod_converse_div(2 * (m * d) + m, 2 * m, d, m);
}

/// The rounded offset across the ray never passes the target's.
pub proof fn lemma_round_div_between(k: int, d: int, m: int)
    requires
        0 <= k <= m,
        0 < m,
    ensures
        between(round_div(k * d, m), 0, d),
{
    if d >= 0 {
        lemma_round_div_nonneg(k, d, m);
    } else {
        lemma_round_div_nonneg(k, -d, m);
        assert(k * (-d) == -(k * d)) by (nonlinear_arith);
        if k * d == 0 {
            assert(round_div(k * d, m) == m / (2 * m));
            lemma_fundamental_div_mod_converse_div(m, 2 * m, 0, m);
        }
    }
}

/// Each sampled cell lies, on both axes, between the viewpoint and the
/// target, and is never the viewpoint.
pub proof fn lemma_ray_cell_between(v: (int, int), target: (int, int), along_rows: bool, k: int)
    requires
        1 <= k <= ray_len(v, target, along_rows),
    ensures
        between(ray_cell(v, target, along_rows, k).0, v.0, target.0),
        between(ray_cell(v, target, along_rows, k).1, v.1, target.1),
        ray_cell(v, target, along_rows, k) != v,
{
    let dr = target.0 - v.0;
    let dc = target.1 - v.1;
    if along_rows {
        lemma_round_div_between(k, dc, abs(dr));
    } else {
        lemma_round_div_between(k, dr, abs(dc));
    }
}

/// The edge cell and the stepping axis of ray `t`.
pub fn edge_ray(rows: usize, cols: usize, t: u64) -> (r: ((usize, usize), bool))
    requires
        0 < rows <= MAX_SIDE,
        0 < cols <= MAX_SIDE,
        t < ray_count(rows as int, cols as int),
    ensures
        (r.0.0 as int, r.0.1 as int) == ray_target(rows as int, cols as int, t as int),
        r.1 == ray_along_rows(rows as int, cols as int, t as int),
{
    let (r64, c64) = (rows as u64, cols as u64);
    if t < c64 {
        ((rows - 1, t as usize), true)
    } else if t < c64 + r64 {
        (((t - c64) as usize, cols - 1), false)
    } else if t < 2 * c64 + r64 {
        ((0, (t - c64 - r64) as usize), true)
    } else {
        (((t - 2 * c64 - r64) as usize, 0), false)
    }
}

/// `round_div(n, m)`, computed without overflow.
fn round_ratio(n: i128, m: i128) -> (r: i128)
    requires
        0 < m <= 0x1_0000_0000,
        -0x1_0000_0000_0000_0000 <= n <= 0x1_0000_0000_0000_0000,
    ensures
        r == round_div(n as int, m as int),
{
    if n >= 0 {
        let q: u128 = ((2 * n + m) as u128) / ((2 * m) as u128);
        q as i128
    } else {
        let q: u128 = ((2 * (-n) + m) as u128) / ((2 * m) as u128);
        -(q as i128)
    }
}

/// The cells sampled on the ray from `viewpoint` to `target`, nearest first.
/// The offset across the ray is an exact ratio, so a ray parallel to an axis
/// keeps a constant offset of zero; a ray with no length along its stepping
/// axis samples nothing.
pub fn ray_cells(viewpoint: (usize, usize), target: (usize, usize), along_rows: bool) -> (r: Vec<(usize, usize)>)
    requires
        viewpoint.0 <= MAX_SIDE,
        viewpoint.1 <= MAX_SIDE,
        target.0 <= MAX_SIDE,
        target.1 <= MAX_SIDE,
    ensures
        r.len() == ray_len(
            (viewpoint.0 as int, viewpoint.1 as int),
            (target.0 as int, target.1 as int),
            along_rows,
        ),
        forall|i: int|
            0 <= i < r.len() ==> (#[trigger] r[i].0 as int, r[i].1 as int) == ray_cell(
                (viewpoint.0 as int, viewpoint.1 as int),
                (target.0 as int, target.1 as int),
                along_rows,
                i + 1,
            ),
{
    let ghost v = (viewpoint.0 as int, viewpoint.1 as int);
    let ghost tg = (target.0 as int, target.1 as int);
    let offset = to_viewpoint(target, viewpoint);
    let (along, across): (isize, isize) = if along_rows {
        (offset.0, offset.1)
    } else {
        (offset.1, offset.0)
    };
    let m: i128 = if along < 0 { -(along as i128) } else { along as i128 };
    let step: i128 = if along < 0 { -1 } else { 1 };
    let mut r: Vec<(usize, usize)> = Vec::new();
    let mut k: i128 = 1;
    while k <= m
        invariant
            1 <= k <= m + 1,
            m == ray_len(v, tg, along_rows),
            m <= MAX_SIDE,
            -(MAX_SIDE as int) <= across <= MAX_SIDE,
            along_rows ==> along == tg.0 - v.0 && across == tg.1 - v.1,
            !along_rows ==> along == tg.1 - v.1 && across == tg.0 - v.0,
            along != 0 ==> step == sign(along as int),
            v == (viewpoint.0 as int, viewpoint.1 as int),
            tg == (target.0 as int, target.1 as int),
            viewpoint.0 <= MAX_SIDE,
            viewpoint.1 <= MAX_SIDE,
            target.0 <= MAX_SIDE,
            target.1 <= MAX_SIDE,
            r.len() == k - 1,
            forall|i: int|
                0 <= i < r.len() ==> (#[trigger] r[i].0 as int, r[i].1 as int) == ray_cell(
                    v,
                    tg,
                    along_rows,
                    i + 1,
                ),
        decreases m + 1 - k,
    {
        assert(-0x1_0000_0000_0000_0000 <= k * (across as i128) <= 0x1_0000_0000_0000_0000)
            by (nonlinear_arith)
            requires
                1 <= k <= 0x7fff_ffff,
                -0x7fff_ffff <= across <= 0x7fff_ffff,
        ;
        let lateral = round_ratio(k * (across as i128), m);
        proof {
            lemma_ray_cell_between(v, tg, along_rows, k as int);
        }
        let forward = step * k;
        let cell = if along_rows {
            to_origin((forward as isize, lateral as isize), viewpoint)
        } else {
            to_origin((lateral as isize, forward as isize), viewpoint)
        };
        r.push(cell);
        k = k + 1;
    }
    r
}

} // verus!
