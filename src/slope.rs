use vstd::prelude::*;

verus! {

/// An elevation angle held exactly, as a key whose order is the order of the
/// angles it stands for.
///
/// The key is the rational `num / den`, with `den > 0`. Along a line the key of
/// a cell at horizontal distance `d` and height difference `dh` is `dh / d`,
/// whose arctangent is the angle. In the plane, where `d` is a square root, the
/// key is `dh * |dh| / d²`: the map `x ↦ x * |x|` is strictly increasing, so this
/// key orders cells exactly as `atan(dh / d)` does, without a square root.
#[derive(Clone, Copy, Debug, PartialEq, Eq, Structural)]
pub struct Slope {
    pub num: i64,
    pub den: u64,
}

impl Slope {
    /// A well-formed key has a positive denominator.
    pub open spec fn wf(self) -> bool {
        self.den > 0
    }

    /// `self` stands for an angle no greater than that of `other`.
    pub open spec fn le(self, other: Slope) -> bool {
        self.num * other.den <= other.num * self.den
    }

    /// The horizontal angle, which the viewpoint takes for itself.
    pub open spec fn spec_level() -> Slope {
        Slope { num: 0, den: 1 }
    }

    pub fn level() -> (r: Slope)
        ensures
            r == Slope::spec_level(),
    {
        Slope { num: 0, den: 1 }
    }

    /// Exact comparison of the two angles.
    pub fn is_at_most(&self, other: &Slope) -> (r: bool)
        ensures
            r == self.le(*other),
    {
        proof {
            lemma_product_fits(self.num as int, other.den as int);
            lemma_product_fits(other.num as int, self.den as int);
        }
        let lhs: i128 = (self.num as i128) * (other.den as i128);
        let rhs: i128 = (other.num as i128) * (self.den as i128);
        lhs <= rhs
    }
}

proof fn lemma_product_fits(n: int, d: int)
    requires
        i64::MIN <= n <= i64::MAX,
        0 <= d <= u64::MAX,
    ensures
        i128::MIN <= n * d <= i128::MAX,
{
    assert(-0x8000_0000_0000_0000 * 0xffff_ffff_ffff_ffff <= n * d <= 0x7fff_ffff_ffff_ffff
        * 0xffff_ffff_ffff_ffff) by (nonlinear_arith)
        requires
            -0x8000_0000_0000_0000 <= n <= 0x7fff_ffff_ffff_ffff,
            0 <= d <= 0xffff_ffff_ffff_ffff,
    ;
}

/// Any two angles compare one way or the other.
pub proof fn lemma_le_total(a: Slope, b: Slope)
    ensures
        a.le(b) || b.le(a),
{
}

/// Every angle is at most itself.
pub proof fn lemma_le_reflexive(a: Slope)
    ensures
        a.le(a),
{
}

/// The order of angles is transitive.
pub proof fn lemma_le_transitive(a: Slope, b: Slope, c: Slope)
    requires
        a.wf(),
        b.wf(),
        c.wf(),
        a.le(b),
        b.le(c),
    ensures
        a.le(c),
{
    let (an, ad) = (a.num as int, a.den as int);
    let (bn, bd) = (b.num as int, b.den as int);
    let (cn, cd) = (c.num as int, c.den as int);
    assert(an * bd * cd <= bn * ad * cd) by (nonlinear_arith)
        requires
            an * bd <= bn * ad,
            cd > 0,
    ;
    assert(bn * cd * ad <= cn * bd * ad) by (nonlinear_arith)
        requires
            bn * cd <= cn * bd,
            ad > 0,
    ;
    assert(bn * ad * cd == bn * cd * ad) by (nonlinear_arith);
    assert(an * cd * bd <= cn * ad * bd) by (nonlinear_arith)
        requires
            an * bd * cd <= cn * bd * ad,
    ;
    assert(an * cd <= cn * ad) by (nonlinear_arith)
        requires
            an * cd * bd <= cn * ad * bd,
            bd > 0,
    ;
}

} // verus!
