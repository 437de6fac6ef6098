use vstd::prelude::*;
use crate::slope::{Slope, lemma_le_total, lemma_le_transitive, lemma_le_reflexive};

verus! {

/// The running-maximum rule: the `k`-th cell of a sequence ordered by distance
/// from the viewpoint is seen when no nearer cell of the sequence stands at a
/// higher angle. A tie does not hide a cell.
pub open spec fn sees(s: Seq<Slope>, k: int) -> bool {
    forall|j: int| 0 <= j < k ==> #[trigger] s[j].le(s[k])
}

pub open spec fn all_wf(s: Seq<Slope>) -> bool {
    forall|i: int| 0 <= i < s.len() ==> #[trigger] s[i].wf()
}

/// Classifies each cell of a sequence of angles, nearest first, by keeping
/// the highest angle met so far.
pub fn running_max_visibility(angles: &Vec<Slope>) -> (r: Vec<bool>)
    requires
        all_wf(angles@),
    ensures
        r.len() == angles.len(),
        forall|k: int| 0 <= k < r.len() ==> r[k] == sees(angles@, k),
{
    let s = Ghost(angles@);
    let mut r: Vec<bool> = Vec::new();
    let mut best: usize = 0;
    let mut k: usize = 0;
    while k < angles.len()
        invariant
            all_wf(s@),
            s@ == angles@,
            k <= angles.len(),
            r.len() == k,
            k > 0 ==> best < k,
            k > 0 ==> forall|j: int| 0 <= j < k ==> #[trigger] s@[j].le(s@[best as int]),
            forall|i: int| 0 <= i < k ==> r[i] == sees(s@, i),
        decreases angles.len() - k,
    {
        let seen = k == 0 || angles[best].is_at_most(&angles[k]);
        proof {
            if k > 0 {
                if seen {
                    assert forall|j: int| 0 <= j < k implies #[trigger] s@[j].le(s@[k as int]) by {
                        lemma_le_transitive(s@[j], s@[best as int], s@[k as int]);
                    }
                } else {
                    assert(!s@[best as int].le(s@[k as int]));
                    assert(!sees(s@, k as int));
                    lemma_le_total(s@[best as int], s@[k as int]);
                }
            }
        }
        if seen {
            proof {
                lemma_le_reflexive(s@[k as int]);
            }
            best = k;
        }
        r.push(seen);
        k = k + 1;
    }
    r
}

/// The tie rule: a cell at exactly the angle of a seen nearer cell, with
/// nothing between them standing higher, is seen too.
pub proof fn lemma_tie_is_seen(s: Seq<Slope>, j: int, k: int)
    requires
        all_wf(s),
        0 <= j < k < s.len(),
        sees(s, j),
        s[j].le(s[k]),
        s[k].le(s[j]),
        forall|l: int| j < l < k ==> #[trigger] s[l].le(s[j]),
    ensures
        sees(s, k),
{
    assert forall|i: int| 0 <= i < k implies #[trigger] s[i].le(s[k]) by {
        if i < j {
            lemma_le_transitive(s[i], s[j], s[k]);
        } else if i == j {
        } else {
            lemma_le_transitive(s[i], s[j], s[k]);
        }
    }
}

} // verus!
