use vstd::prelude::*;

verus! {

use vstd::arithmetic::div_mod::{lemma_mod_bound, lemma_fundamental_div_mod};

/// One lattice site of a periodic `nx` by `ny` triangular lattice, held as
/// its two lattice coordinates together with the lattice extents.
#[derive(Clone, Copy, PartialEq, Eq, Structural, Debug)]
pub struct SiteVector {
    pub x: u32,
    pub y: u32,
    pub nx: u32,
    pub ny: u32,
}

impl SiteVector {
    /// A site lies inside its lattice, and the lattice fits one bit per site
    /// in a 64-bit configuration word.
    pub open spec fn wf(self) -> bool {
        &&& 1 <= self.nx
        &&& 1 <= self.ny
        &&& self.x < self.nx
        &&& self.y < self.ny
        &&& self.nx * self.ny <= 64
    }

    /// The row-major site index: `y` rows of `nx` sites, then `x`.
    pub open spec fn spec_index(self) -> nat {
        (self.y * self.nx + self.x) as nat
    }

    /// The site one lattice vector away: `sx` steps along x and `sy` steps
    /// along y, both wrapping periodically. A step count of `m - k` walks
    /// `k` steps backwards around a ring of `m` sites.
    pub open spec fn spec_hop(self, sx: nat, sy: nat) -> SiteVector {
        SiteVector {
            x: ((self.x + sx) % (self.nx as int)) as u32,
            y: ((self.y + sy) % (self.ny as int)) as u32,
            nx: self.nx,
            ny: self.ny,
        }
    }

    /// The first site of a lattice, at the origin.
    pub fn origin(nx: u32, ny: u32) -> (v: SiteVector)
        requires
            1 <= nx,
            1 <= ny,
            nx * ny <= 64,
        ensures
            v == (SiteVector { x: 0, y: 0, nx, ny }),
            v.wf(),
    {
        SiteVector { x: 0, y: 0, nx, ny }
    }

    /// The site with a given row-major index.
    pub fn from_index(i: u32, nx: u32, ny: u32) -> (v: SiteVector)
        requires
            1 <= nx,
            1 <= ny,
            nx * ny <= 64,
            i < nx * ny,
        ensures
            v.wf(),
            v.nx == nx,
            v.ny == ny,
            v.spec_index() == i,
            v.x == i % nx,
            v.y == i / nx,
    {
        let x = i % nx;
        let y = i / nx;
        proof {
            lemma_mod_bound(i as int, nx as int);
            lemma_fundamental_div_mod(i as int, nx as int);
            assert(y < ny) by (nonlinear_arith)
                requires
                    i < nx * ny,
                    y == i as int / nx as int,
                    1 <= nx,
            ;
            assert((y * nx + x) as int == i) by (nonlinear_arith)
                requires
                    i == nx * (i as int / nx as int) + (i as int % nx as int),
                    y == i as int / nx as int,
                    x == i as int % nx as int,
            ;
        }
        SiteVector { x, y, nx, ny }
    }

    /// The row-major index of a site.
    pub fn lattice_index(&self) -> (i: u32)
        requires
            self.wf(),
        ensures
            i == self.spec_index(),
            i < self.nx * self.ny,
    {
        proof {
            assert(self.y * self.nx + self.x < self.nx * self.ny) by (nonlinear_arith)
                requires
                    self.x < self.nx,
                    self.y < self.ny,
            ;
        }
        self.y * self.nx + self.x
    }

    /// Walk `sx` lattice vectors along x and `sy` along y, wrapping around
    /// the periodic boundary.
    pub fn hop(&self, sx: u32, sy: u32) -> (r: SiteVector)
        requires
            self.wf(),
            sx <= 64,
            sy <= 64,
        ensures
            r == self.spec_hop(sx as nat, sy as nat),
            r.wf(),
            r.nx == self.nx,
            r.ny == self.ny,
    {
        proof {
            assert(self.nx <= 64 && self.ny <= 64) by (nonlinear_arith)
                requires
                    1 <= self.nx,
                    1 <= self.ny,
                    self.nx * self.ny <= 64,
            ;
            lemma_mod_bound((self.x + sx) as int, self.nx as int);
            lemma_mod_bound((self.y + sy) as int, self.ny as int);
        }
        SiteVector {
            x: (self.x + sx) % self.nx,
            y: (self.y + sy) % self.ny,
            nx: self.nx,
            ny: self.ny,
        }
    }
}

/// The step count that walks `k` sites backwards on a ring of `m` sites.
pub open spec fn spec_back(k: nat, m: nat) -> nat
    recommends
        1 <= m,
{
    (((m - (k % m)) as int) % (m as int)) as nat
}

/// Compute the backward step count on a ring of `m` sites.
pub fn back_steps(k: u32, m: u32) -> (r: u32)
    requires
        1 <= m,
        m <= 64,
    ensures
        r == spec_back(k as nat, m as nat),
        r < m,
{
    proof {
        lemma_mod_bound(k as int, m as int);
        lemma_mod_bound((m - k % m) as int, m as int);
    }
    (m - k % m) % m
}

/// Distinct sites reached from `v` among the listed hops, kept in hop order:
/// the hop landing back on `v` itself and repeated landing sites are left
/// out, so degenerate lattice extents never produce a self bond twice from
/// one site.
pub open spec fn spec_dedup_hops(v: SiteVector, cands: Seq<SiteVector>) -> Seq<SiteVector>
    decreases cands.len(),
{
    if cands.len() == 0 {
        Seq::empty()
    } else {
        let prefix = spec_dedup_hops(v, cands.drop_last());
        let last = cands.last();
        if last == v || prefix.contains(last) {
            prefix
        } else {
            prefix.push(last)
        }
    }
}

/// Keep the distinct non-self sites of a candidate list, in order.
pub fn dedup_hops(v: SiteVector, cands: &Vec<SiteVector>) -> (r: Vec<SiteVector>)
    ensures
        r@ == spec_dedup_hops(v, cands@),
{
    let mut r: Vec<SiteVector> = Vec::new();
    let mut i: usize = 0;
    proof {
        assert(cands@.subrange(0, 0) =~= Seq::<SiteVector>::empty());
    }
    while i < cands.len()
        invariant
            i <= cands.len(),
            r@ == spec_dedup_hops(v, cands@.subrange(0, i as int)),
        decreases cands.len() - i,
    {
        let c = cands[i];
        let mut seen = c.x == v.x && c.y == v.y && c.nx == v.nx && c.ny == v.ny;
        let mut j: usize = 0;
        while j < r.len()
            invariant
                j <= r.len(),
                seen == (c == v || r@.subrange(0, j as int).contains(c)),
            decreases r.len() - j,
        {
            let e = r[j];
            if e.x == c.x && e.y == c.y && e.nx == c.nx && e.ny == c.ny {
                seen = true;
            }
            proof {
                assert(r@.subrange(0, j + 1).drop_last() =~= r@.subrange(0, j as int));
                assert(r@.subrange(0, j + 1).last() == r@[j as int]);
                if r@.subrange(0, j + 1).contains(c) && !r@.subrange(0, j as int).contains(c) {
                    let wi = choose|wi: int|
                        0 <= wi < j + 1 && #[trigger] r@.subrange(0, j + 1)[wi] == c;
                    assert(wi == j);
                }
            }
            j = j + 1;
        }
        proof {
            assert(r@.subrange(0, r@.len() as int) =~= r@);
        }
        if !seen {
            r.push(c);
        }
        proof {
            assert(cands@.subrange(0, i + 1).drop_last() =~= cands@.subrange(0, i as int));
            assert(cands@.subrange(0, i + 1).last() == cands@[i as int]);
        }
        i = i + 1;
    }
    proof {
        assert(cands@.subrange(0, cands@.len() as int) =~= cands@);
    }
    r
}

/// The three hop displacements reaching each shell of neighbours once per
/// bond: one of each opposite pair, so walking every site covers every bond
/// of that range. Ranges 1, 2, 3 are the nearest, second and third shells of
/// the triangular lattice.
pub open spec fn spec_range_hops(r: int, nx: nat, ny: nat) -> Seq<(nat, nat)>
    recommends
        1 <= nx,
        1 <= ny,
{
    if r == 0 {
        seq![(1nat, 0nat), (0nat, 1nat), (1nat, spec_back(1, ny))]
    } else if r == 1 {
        seq![(1nat, 1nat), (2nat, spec_back(1, ny)), (1nat, spec_back(2, ny))]
    } else {
        seq![(2nat, 0nat), (0nat, 2nat), (2nat, spec_back(2, ny))]
    }
}

/// The distinct neighbours of `v` at shell `r`, in canonical hop order.
pub open spec fn spec_neighbors(v: SiteVector, r: int) -> Seq<SiteVector> {
    spec_dedup_hops(
        v,
        spec_range_hops(r, v.nx as nat, v.ny as nat).map_values(|d: (nat, nat)| v.spec_hop(d.0, d.1)),
    )
}

/// Enumerate the distinct neighbours of `v` at shell `r` (0 is nearest).
pub fn neighbors(v: &SiteVector, r: usize) -> (out: Vec<SiteVector>)
    requires
        v.wf(),
        r < 3,
    ensures
        out@ == spec_neighbors(*v, r as int),
        forall|k: int| 0 <= k < out@.len() ==> (#[trigger] out@[k]).wf(),
{
    proof {
        assert(v.nx <= 64 && v.ny <= 64) by (nonlinear_arith)
            requires
                v.wf(),
                1 <= v.nx,
                1 <= v.ny,
                v.nx * v.ny <= 64,
        ;
    }
    let mut cands: Vec<SiteVector> = Vec::new();
    if r == 0 {
        cands.push(v.hop(1, 0));
        cands.push(v.hop(0, 1));
        cands.push(v.hop(1, back_steps(1, v.ny)));
    } else if r == 1 {
        cands.push(v.hop(1, 1));
        cands.push(v.hop(2, back_steps(1, v.ny)));
        cands.push(v.hop(1, back_steps(2, v.ny)));
    } else {
        cands.push(v.hop(2, 0));
        cands.push(v.hop(0, 2));
        cands.push(v.hop(2, back_steps(2, v.ny)));
    }
    proof {
        let hops = spec_range_hops(r as int, v.nx as nat, v.ny as nat);
        assert(cands@ =~= hops.map_values(|d: (nat, nat)| v.spec_hop(d.0, d.1)));
    }
    let out = dedup_hops(*v, &cands);
    proof {
        lemma_dedup_hops_wf(*v, cands@);
    }
    out
}

/// Deduplication keeps only sites taken from the candidate list, so a list
/// of well-formed sites stays well-formed.
proof fn lemma_dedup_hops_wf(v: SiteVector, cands: Seq<SiteVector>)
    requires
        forall|k: int| 0 <= k < cands.len() ==> (#[trigger] cands[k]).wf(),
    ensures
        forall|k: int|
            0 <= k < spec_dedup_hops(v, cands).len() ==> (#[trigger] spec_dedup_hops(v, cands)[k]).wf(),
    decreases cands.len(),
{
    if cands.len() > 0 {
        assert(forall|k: int|
            0 <= k < cands.drop_last().len() ==> (#[trigger] cands.drop_last()[k]).wf());
        lemma_dedup_hops_wf(v, cands.drop_last());
        let prefix = spec_dedup_hops(v, cands.drop_last());
        let last = cands.last();
        assert(last.wf());
        if !(last == v || prefix.contains(last)) {
            assert(spec_dedup_hops(v, cands) == prefix.push(last));
            assert(forall|k: int|
                0 <= k < prefix.push(last).len() ==> (#[trigger] prefix.push(last)[k]).wf());
        }
    }
}

} // verus!
