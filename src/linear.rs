use vstd::prelude::*;
use crate::error::ViewshedError;
use crate::slope::Slope;
use crate::sweep::{all_wf, running_max_visibility, sees};

verus! {

/// The angle key of cell `i` of a line of heights, seen from cell `v`:
/// height difference over distance, and level at the viewpoint itself.
pub open spec fn slope_1d(h: Seq<i32>, v: int, i: int) -> Slope {
    if i == v {
        Slope::spec_level()
    } else {
        Slope {
            num: (h[i] - h[v]) as i64,
            den: (if i > v { i - v } else { v - i }) as u64,
        }
    }
}

/// Cell `i` is seen from `v` when no cell strictly between them stands at a
/// higher angle. The viewpoint's own angle is never consulted; the viewpoint
/// itself counts as seen.
pub open spec fn visible_1d(h: Seq<i32>, v: int, i: int) -> bool {
    if i == v {
        true
    } else if i > v {
        forall|j: int| v < j < i ==> #[trigger] slope_1d(h, v, j).le(slope_1d(h, v, i))
    } else {
        forall|j: int| i < j < v ==> #[trigger] slope_1d(h, v, j).le(slope_1d(h, v, i))
    }
}

/// The visibility of each cell of a line: 1 where seen, 0 where occluded.
pub open spec fn viewshed_1d_spec(h: Seq<i32>, v: int) -> Seq<i32> {
    Seq::new(h.len(), |i: int| if visible_1d(h, v, i) { 1i32 } else { 0i32 })
}

/// The angle field of a line of heights, seen from `viewpoint`.
pub fn angle_field_1d(terrain: &Vec<i32>, viewpoint: usize) -> (r: Vec<Slope>)
    requires
        viewpoint < terrain.len(),
    ensures
        r.len() == terrain.len(),
        forall|i: int| 0 <= i < r.len() ==> #[trigger] r[i] == slope_1d(terrain@, viewpoint as int, i),
        r[viewpoint as int] == Slope::spec_level(),
        all_wf(r@),
{
    let base: i64 = terrain[viewpoint] as i64;
    let mut r: Vec<Slope> = Vec::new();
    let mut i: usize = 0;
    while i < terrain.len()
        invariant
            viewpoint < terrain.len(),
            base == terrain[viewpoint as int],
            i <= terrain.len(),
            r.len() == i,
            forall|k: int| 0 <= k < i ==> #[trigger] r[k] == slope_1d(terrain@, viewpoint as int, k),
        decreases terrain.len() - i,
    {
        if i == viewpoint {
            r.push(Slope::level());
        } else {
            let den: u64 = if i > viewpoint { (i - viewpoint) as u64 } else { (viewpoint - i) as u64 };
            r.push(Slope { num: terrain[i] as i64 - base, den });
        }
        i = i + 1;
    }
    r
}

/// The viewshed of a line of heights: two sweeps outward from the viewpoint,
/// to the right and to the left, each with its own running maximum angle
/// that starts below every angle. The viewpoint is marked seen.
pub fn viewshed_1d(terrain: &Vec<i32>, viewpoint: (usize,)) -> (r: Result<Vec<i32>, ViewshedError>)
    ensures
        r is Err <==> viewpoint.0 >= terrain.len(),
        r matches Err(e) ==> e == ViewshedError::OutOfBounds,
        r matches Ok(out) ==> out@ == viewshed_1d_spec(terrain@, viewpoint.0 as int),
{
    let v = viewpoint.0;
    if v >= terrain.len() {
        return Err(ViewshedError::OutOfBounds);
    }
    let h = Ghost(terrain@);
    let angles = angle_field_1d(terrain, v);
    let n = angles.len();

    let mut right: Vec<Slope> = Vec::new();
    let mut i: usize = v + 1;
    while i < n
        invariant
            v < i <= n,
            n == angles.len(),
            right.len() == i - v - 1,
            forall|k: int| 0 <= k < right.len() ==> #[trigger] right[k] == angles[v + 1 + k],
            all_wf(angles@),
        decreases n - i,
    {
        right.push(angles[i]);
        i = i + 1;
    }
    assert(all_wf(right@)) by {
        assert forall|k: int| 0 <= k < right.len() implies #[trigger] right[k].wf() by {
            assert(angles[v + 1 + k].wf());
        }
    }
    let seen_right = running_max_visibility(&right);

    let mut left: Vec<Slope> = Vec::new();
    let mut k: usize = 0;
    while k < v
        invariant
            k <= v < n,
            n == angles.len(),
            left.len() == k,
            forall|m: int| 0 <= m < left.len() ==> #[trigger] left[m] == angles[v - 1 - m],
            all_wf(angles@),
        decreases v - k,
    {
        left.push(angles[v - 1 - k]);
        k = k + 1;
    }
    assert(all_wf(left@)) by {
        assert forall|m: int| 0 <= m < left.len() implies #[trigger] left[m].wf() by {
            assert(angles[v - 1 - m].wf());
        }
    }
    let seen_left = running_max_visibility(&left);

    let mut out: Vec<i32> = Vec::new();
    let mut i: usize = 0;
    while i < n
        invariant
            i <= n,
            v < n,
            n == angles.len(),
            h@ == terrain@,
            n == h@.len(),
            right.len() == n - v - 1,
            left.len() == v,
            seen_right.len() == right.len(),
            seen_left.len() == left.len(),
            forall|k: int| 0 <= k < right.len() ==> #[trigger] right[k] == angles[v + 1 + k],
            forall|m: int| 0 <= m < left.len() ==> #[trigger] left[m] == angles[v - 1 - m],
            forall|k: int| 0 <= k < seen_right.len() ==> seen_right[k] == sees(right@, k),
            forall|k: int| 0 <= k < seen_left.len() ==> seen_left[k] == sees(left@, k),
            forall|k: int| 0 <= k < n ==> #[trigger] angles[k] == slope_1d(h@, v as int, k),
            out.len() == i,
            forall|k: int| 0 <= k < i ==> #[trigger] out[k] == viewshed_1d_spec(h@, v as int)[k],
        decreases n - i,
    {
        let seen = if i == v {
            true
        } else if i > v {
            seen_right[i - v - 1]
        } else {
            seen_left[v - 1 - i]
        };
        proof {
            let ii = i as int;
            let vv = v as int;
            if i == v {
            } else if i > v {
                let k = ii - vv - 1;
                if seen {
                    assert forall|j: int| vv < j < ii implies #[trigger] slope_1d(h@, vv, j).le(
                        slope_1d(h@, vv, ii),
                    ) by {
                        assert(right[j - vv - 1].le(right[k]));
                    }
                } else {
                    let j = choose|j: int| 0 <= j < k && !#[trigger] right@[j].le(right@[k]);
                    assert(!slope_1d(h@, vv, vv + 1 + j).le(slope_1d(h@, vv, ii)));
                }
            } else {
                let k = vv - 1 - ii;
                if seen {
                    assert forall|j: int| ii < j < vv implies #[trigger] slope_1d(h@, vv, j).le(
                        slope_1d(h@, vv, ii),
                    ) by {
                        assert(left[vv - 1 - j].le(left[k]));
                    }
                } else {
                    let m = choose|m: int| 0 <= m < k && !#[trigger] left@[m].le(left@[k]);
                    assert(!slope_1d(h@, vv, vv - 1 - m).le(slope_1d(h@, vv, ii)));
                }
            }
        }
        out.push(if seen { 1i32 } else { 0i32 });
        i = i + 1;
    }
    assert(out@ =~= viewshed_1d_spec(h@, v as int));
    Ok(out)
}

} // verus!
