use vstd::prelude::*;

verus! {

use crate::config::{single_bit, bit_index, mask_site_index};
use crate::geometry::SiteVector;
use crate::bonds::spec_site_at;

/// A unit complex number of the triangular lattice's orientation field, held
/// exactly: the pair `(re, im)` stands for
/// `(re + im * i * sqrt(3)) / sqrt(re^2 + 3 * im^2)`.
/// Every angle between two site position vectors of the lattice has this
/// form, because a site at lattice coordinates `(x, y)` sits at the
/// cartesian point `((2x + y) + y * i * sqrt(3)) / 2`. The represented
/// value always has modulus one, by construction.
#[derive(Clone, Copy, PartialEq, Eq, Structural, Debug)]
pub struct GammaPhase {
    pub re: i64,
    pub im: i64,
}

impl GammaPhase {
    /// A phase is well formed when its direction is determined: the pair is
    /// not the origin.
    pub open spec fn wf(self) -> bool {
        !(self.re == 0 && self.im == 0)
    }

    /// The complex conjugate mirrors the imaginary part.
    pub open spec fn spec_conj(self) -> GammaPhase {
        GammaPhase { re: self.re, im: (-self.im) as i64 }
    }

    /// Conjugate the phase.
    pub fn conj(&self) -> (r: GammaPhase)
        requires
            self.im != i64::MIN,
        ensures
            r == self.spec_conj(),
    {
        GammaPhase { re: self.re, im: -self.im }
    }

    /// The negated phase: the same direction turned half a circle.
    pub open spec fn spec_neg(self) -> GammaPhase {
        GammaPhase { re: (-self.re) as i64, im: (-self.im) as i64 }
    }

    /// Negate the phase.
    pub fn neg(&self) -> (r: GammaPhase)
        requires
            self.re != i64::MIN,
            self.im != i64::MIN,
        ensures
            r == self.spec_neg(),
    {
        GammaPhase { re: -self.re, im: -self.im }
    }
}

/// The doubled cartesian coordinates of a site: `(2x + y, y)`, with the
/// origin site standing in for the unit direction so that its angle reads
/// as zero.
pub open spec fn spec_axial(v: SiteVector) -> (int, int) {
    if v.x == 0 && v.y == 0 {
        (1, 0)
    } else {
        (2 * (v.x as int) + (v.y as int), v.y as int)
    }
}

/// The geometric phase of an ordered site pair: the unit complex number at
/// the angle from the first site's position vector to the second's. With
/// `zj` the cartesian position of site `j` (the origin standing in as the
/// unit), the value is `z2 * conj(z1) / |z1| / |z2|`.
pub open spec fn spec_gamma(nx: u32, ny: u32, s1: u64, s2: u64) -> GammaPhase {
    let v1 = spec_site_at(nx, ny, bit_index(s1) as int);
    let v2 = spec_site_at(nx, ny, bit_index(s2) as int);
    let a1 = spec_axial(v1).0;
    let b1 = spec_axial(v1).1;
    let a2 = spec_axial(v2).0;
    let b2 = spec_axial(v2).1;
    GammaPhase { re: (a1 * a2 + 3 * b1 * b2) as i64, im: (a1 * b2 - a2 * b1) as i64 }
}

/// Compute the geometric phase factor of a bond: the unit complex number at
/// the angle between the two sites' position vectors, exactly represented.
/// A well-formed result names a definite direction, so the represented
/// complex number has modulus one.
pub fn gamma(nx: u32, ny: u32, s1: u64, s2: u64) -> (g: GammaPhase)
    requires
        1 <= nx,
        1 <= ny,
        nx * ny <= 64,
        single_bit(s1),
        single_bit(s2),
        bit_index(s1) < nx * ny,
        bit_index(s2) < nx * ny,
    ensures
        g == spec_gamma(nx, ny, s1, s2),
        g.wf(),
        -200000 < g.re < 200000,
        -200000 < g.im < 200000,
{
    let i1 = mask_site_index(s1);
    let i2 = mask_site_index(s2);
    let v1 = SiteVector::from_index(i1, nx, ny);
    let v2 = SiteVector::from_index(i2, nx, ny);
    proof {
        assert(v1 == spec_site_at(nx, ny, bit_index(s1) as int));
        assert(v2 == spec_site_at(nx, ny, bit_index(s2) as int));
        assert(nx <= 64 && ny <= 64) by (nonlinear_arith)
            requires
                1 <= nx,
                1 <= ny,
                nx * ny <= 64,
        ;
    }
    let (a1, b1) = axial(&v1);
    let (a2, b2) = axial(&v2);
    proof {
        assert(0 <= a1 * a2 <= 40000 && 0 <= 3 * b1 * b2 <= 120000 && 0 <= a1 * b2 <= 40000 && 0
            <= a2 * b1 <= 40000) by (nonlinear_arith)
            requires
                0 <= a1 <= 200,
                0 <= a2 <= 200,
                0 <= b1 <= 200,
                0 <= b2 <= 200,
        ;
        lemma_gamma_wf(a1 as int, b1 as int, a2 as int, b2 as int);
    }
    GammaPhase { re: a1 * a2 + 3 * b1 * b2, im: a1 * b2 - a2 * b1 }
}

/// A row-major index below the site count names a site of the lattice, with
/// both coordinates within the small extents.
pub proof fn lemma_site_at_bounds(nx: u32, ny: u32, i: int)
    requires
        1 <= nx,
        1 <= ny,
        nx * ny <= 64,
        0 <= i < nx * ny,
    ensures
        spec_site_at(nx, ny, i).wf(),
        spec_site_at(nx, ny, i).x < 64,
        spec_site_at(nx, ny, i).y < 64,
{
    vstd::arithmetic::div_mod::lemma_mod_bound(i, nx as int);
    assert(i / (nx as int) < ny && nx <= 64 && ny <= 64) by (nonlinear_arith)
        requires
            0 <= i < nx * ny,
            1 <= nx,
            1 <= ny,
            nx * ny <= 64,
    ;
    assert(0 <= i / (nx as int)) by (nonlinear_arith)
        requires
            0 <= i,
            1 <= nx,
    ;
}

/// The doubled cartesian coordinates of a site.
fn axial(v: &SiteVector) -> (r: (i64, i64))
    requires
        v.wf(),
        v.nx <= 64,
        v.ny <= 64,
    ensures
        (r.0 as int, r.1 as int) == spec_axial(*v),
        0 <= r.0 <= 200,
        0 <= r.1 <= 200,
{
    if v.x == 0 && v.y == 0 {
        (1, 0)
    } else {
        (2 * (v.x as i64) + (v.y as i64), v.y as i64)
    }
}

/// The product of two nonzero directions is nonzero: the norm of the
/// product factors into the norms, by the two-squares-style identity of the
/// ring of numbers `a + b * i * sqrt(3)`.
proof fn lemma_gamma_wf(a1: int, b1: int, a2: int, b2: int)
    requires
        !(a1 == 0 && b1 == 0),
        !(a2 == 0 && b2 == 0),
    ensures
        !(a1 * a2 + 3 * b1 * b2 == 0 && a1 * b2 - a2 * b1 == 0),
{
    let re = a1 * a2 + 3 * b1 * b2;
    let im = a1 * b2 - a2 * b1;
    lemma_norm_product(a1, b1, a2, b2);
    assert(a1 * a1 + 3 * b1 * b1 > 0) by (nonlinear_arith)
        requires
            !(a1 == 0 && b1 == 0),
    ;
    assert(a2 * a2 + 3 * b2 * b2 > 0) by (nonlinear_arith)
        requires
            !(a2 == 0 && b2 == 0),
    ;
    assert((a1 * a1 + 3 * b1 * b1) * (a2 * a2 + 3 * b2 * b2) > 0) by (nonlinear_arith)
        requires
            a1 * a1 + 3 * b1 * b1 > 0,
            a2 * a2 + 3 * b2 * b2 > 0,
    ;
    if re == 0 && im == 0 {
        assert(re * re + 3 * im * im == 0) by (nonlinear_arith)
            requires
                re == 0,
                im == 0,
        ;
    }
}

/// The norm form `a^2 + 3 b^2` is multiplicative over products in the ring
/// of numbers `a + b * i * sqrt(3)`.
proof fn lemma_norm_product(a1: int, b1: int, a2: int, b2: int)
    ensures
        (a1 * a2 + 3 * b1 * b2) * (a1 * a2 + 3 * b1 * b2) + 3 * (a1 * b2 - a2 * b1) * (a1 * b2 - a2
            * b1) == (a1 * a1 + 3 * b1 * b1) * (a2 * a2 + 3 * b2 * b2),
{
    let p = a1 * a2;
    let q = b1 * b2;
    let r = a1 * b2;
    let s = a2 * b1;
    assert(p * q == r * s && p * p == (a1 * a1) * (a2 * a2) && q * q == (b1 * b1) * (b2 * b2) && r
        * r == (a1 * a1) * (b2 * b2) && s * s == (a2 * a2) * (b1 * b1)) by (nonlinear_arith)
        requires
            p == a1 * a2,
            q == b1 * b2,
            r == a1 * b2,
            s == a2 * b1,
    ;
    assert((p + 3 * q) * (p + 3 * q) == p * p + 6 * (p * q) + 9 * (q * q)) by (nonlinear_arith);
    assert((r - s) * (r - s) == r * r - 2 * (r * s) + s * s) by (nonlinear_arith);
    assert((a1 * a1 + 3 * (b1 * b1)) * (a2 * a2 + 3 * (b2 * b2)) == (a1 * a1) * (a2 * a2) + 3 * ((
    a1 * a1) * (b2 * b2)) + 3 * ((a2 * a2) * (b1 * b1)) + 9 * ((b1 * b1) * (b2 * b2)))
        by (nonlinear_arith);
    assert(3 * (b1 * b1) == 3 * b1 * b1 && 3 * (b2 * b2) == 3 * b2 * b2) by (nonlinear_arith);
    assert(3 * q == 3 * b1 * b2) by (nonlinear_arith)
        requires
            q == b1 * b2,
    ;
    assert(3 * (r - s) * (r - s) == 3 * ((r - s) * (r - s))) by (nonlinear_arith);
}

/// Swapping the two sites of a pair conjugates its geometric phase: the
/// angle from the second site to the first is the negated angle, and the
/// represented unit complex numbers are exact conjugates.
pub proof fn lemma_gamma_conj(nx: u32, ny: u32, s1: u64, s2: u64)
    requires
        1 <= nx,
        1 <= ny,
        nx * ny <= 64,
        single_bit(s1),
        single_bit(s2),
        bit_index(s1) < nx * ny,
        bit_index(s2) < nx * ny,
    ensures
        spec_gamma(nx, ny, s2, s1) == spec_gamma(nx, ny, s1, s2).spec_conj(),
{
    let v1 = spec_site_at(nx, ny, bit_index(s1) as int);
    let v2 = spec_site_at(nx, ny, bit_index(s2) as int);
    lemma_site_at_bounds(nx, ny, bit_index(s1) as int);
    lemma_site_at_bounds(nx, ny, bit_index(s2) as int);
    let a1 = spec_axial(v1).0;
    let b1 = spec_axial(v1).1;
    let a2 = spec_axial(v2).0;
    let b2 = spec_axial(v2).1;
    assert(0 <= a1 <= 200 && 0 <= b1 <= 200 && 0 <= a2 <= 200 && 0 <= b2 <= 200);
    assert(0 <= a1 * a2 <= 40000 && 0 <= b1 * b2 <= 40000 && 0 <= a1 * b2 <= 40000 && 0 <= a2 * b1
        <= 40000) by (nonlinear_arith)
        requires
            0 <= a1 <= 200,
            0 <= a2 <= 200,
            0 <= b1 <= 200,
            0 <= b2 <= 200,
    ;
    assert(a2 * a1 + 3 * b2 * b1 == a1 * a2 + 3 * b1 * b2 && a2 * b1 - a1 * b2 == -(a1 * b2 - a2
        * b1)) by (nonlinear_arith);
}

} // verus!
