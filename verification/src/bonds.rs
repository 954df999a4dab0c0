use vstd::prelude::*;

verus! {

use vstd::arithmetic::power2::pow2;
use vstd::bits::lemma_u64_pow2_no_overflow;
use crate::geometry::{SiteVector, spec_neighbors, neighbors};
use crate::config::{single_bit, bit_index, pow2_u64, lemma_pow2_injective};

/// The site with row-major index `i`.
pub open spec fn spec_site_at(nx: u32, ny: u32, i: int) -> SiteVector {
    SiteVector { x: (i % (nx as int)) as u32, y: (i / (nx as int)) as u32, nx: nx, ny: ny }
}

/// The single-bit mask of site index `i`.
pub open spec fn spec_mask(i: nat) -> u64
    recommends
        i < 64,
{
    pow2(i) as u64
}

/// A bond as an ordered pair: the site with the smaller row-major index
/// first, so a bond and its reverse are one value.
pub open spec fn spec_sorted_pair(a: SiteVector, b: SiteVector) -> Seq<SiteVector> {
    if b.spec_index() < a.spec_index() {
        seq![b, a]
    } else {
        seq![a, b]
    }
}

/// The views of a sequence of bond vectors.
pub open spec fn bonds_view(s: Seq<Vec<SiteVector>>) -> Seq<Seq<SiteVector>> {
    s.map_values(|b: Vec<SiteVector>| b@)
}

/// The canonically ordered bonds from `v` to each listed neighbour.
pub open spec fn spec_pairs_from(v: SiteVector, ns: Seq<SiteVector>) -> Seq<Seq<SiteVector>> {
    ns.map_values(|n: SiteVector| spec_sorted_pair(v, n))
}

/// All bonds of shell `r` incident on `v` through its canonical half set of
/// neighbours, in enumeration order.
pub open spec fn spec_site_bonds(v: SiteVector, r: int) -> Seq<Seq<SiteVector>> {
    spec_pairs_from(v, spec_neighbors(v, r))
}

/// The bonds of shell `r` gathered over the first `i` sites in row-major
/// order.
pub open spec fn spec_bonds_upto(nx: u32, ny: u32, r: int, i: int) -> Seq<Seq<SiteVector>>
    decreases i,
{
    if i <= 0 {
        Seq::empty()
    } else {
        spec_bonds_upto(nx, ny, r, i - 1) + spec_site_bonds(spec_site_at(nx, ny, i - 1), r)
    }
}

/// Every bond of the lattice at shell `r`, walking all sites in row-major
/// order. A bond reached from both of its end sites, as happens on
/// degenerate extents, appears once per end: duplicates are kept, and
/// callers must tolerate them.
pub open spec fn spec_bonds(nx: u32, ny: u32, r: int) -> Seq<Seq<SiteVector>> {
    spec_bonds_upto(nx, ny, r, (nx * ny) as int)
}

/// A well-formed bond: exactly two sites of the lattice, in index order.
pub open spec fn bond_wf(b: Seq<SiteVector>) -> bool {
    &&& b.len() == 2
    &&& b[0].wf()
    &&& b[1].wf()
    &&& b[0].spec_index() <= b[1].spec_index()
}

/// Build one canonically ordered bond out of two sites.
fn make_bond(a: &SiteVector, b: &SiteVector) -> (p: Vec<SiteVector>)
    requires
        a.wf(),
        b.wf(),
    ensures
        p@ == spec_sorted_pair(*a, *b),
        bond_wf(p@),
{
    let ai = a.lattice_index();
    let bi = b.lattice_index();
    let mut p: Vec<SiteVector> = Vec::new();
    if bi < ai {
        p.push(*b);
        p.push(*a);
    } else {
        p.push(*a);
        p.push(*b);
    }
    proof {
        assert(p@ =~= spec_sorted_pair(*a, *b));
    }
    p
}

/// Append every shell-`r` bond of one site to its range bucket.
fn push_site_bonds(bucket: &mut Vec<Vec<SiteVector>>, v: &SiteVector, r: usize)
    requires
        v.wf(),
        r < 3,
    ensures
        bonds_view(final(bucket)@) == bonds_view(old(bucket)@) + spec_site_bonds(*v, r as int),
        forall|k: int|
            0 <= k < final(bucket)@.len() ==> bond_wf((#[trigger] final(bucket)@[k])@) || old(
                bucket,
            )@.contains(final(bucket)@[k]),
{
    let ns = neighbors(v, r);
    let mut k: usize = 0;
    proof {
        assert(bonds_view(bucket@) =~= bonds_view(old(bucket)@) + spec_pairs_from(
            *v,
            ns@.subrange(0, 0),
        ));
    }
    while k < ns.len()
        invariant
            v.wf(),
            r < 3,
            k <= ns.len(),
            ns@ == spec_neighbors(*v, r as int),
            forall|q: int| 0 <= q < ns@.len() ==> (#[trigger] ns@[q]).wf(),
            bonds_view(bucket@) == bonds_view(old(bucket)@) + spec_pairs_from(
                *v,
                ns@.subrange(0, k as int),
            ),
            forall|q: int|
                0 <= q < bucket@.len() ==> bond_wf((#[trigger] bucket@[q])@) || old(
                    bucket,
                )@.contains(bucket@[q]),
        decreases ns.len() - k,
    {
        let n = ns[k];
        let p = make_bond(v, &n);
        let ghost bprev = bucket@;
        bucket.push(p);
        proof {
            assert(ns@.subrange(0, k + 1) =~= ns@.subrange(0, k as int).push(ns@[k as int]));
            assert(spec_pairs_from(*v, ns@.subrange(0, k + 1)) =~= spec_pairs_from(
                *v,
                ns@.subrange(0, k as int),
            ).push(spec_sorted_pair(*v, ns@[k as int])));
            assert(bonds_view(bucket@) =~= bonds_view(bprev).push(p@));
            assert(bonds_view(bucket@) =~= bonds_view(old(bucket)@) + spec_pairs_from(
                *v,
                ns@.subrange(0, k + 1),
            ));
        }
        k = k + 1;
    }
    proof {
        assert(ns@.subrange(0, ns@.len() as int) =~= ns@);
    }
}

/// Enumerate every bond of the lattice, bucketed by neighbour shell: the
/// result holds the nearest, second and third neighbour bonds, each walked
/// in row-major site order.
pub fn generate_bonds(nx: u32, ny: u32) -> (bonds: Vec<Vec<Vec<SiteVector>>>)
    requires
        1 <= nx,
        1 <= ny,
        nx * ny <= 64,
    ensures
        bonds@.len() == 3,
        forall|r: int| 0 <= r < 3 ==> bonds_view((#[trigger] bonds@[r])@) == spec_bonds(nx, ny, r),
        forall|r: int, k: int|
            0 <= r < 3 && 0 <= k < bonds@[r]@.len() ==> bond_wf(((#[trigger] bonds@[r]@[k]))@),
{
    let n = nx * ny;
    let mut b0: Vec<Vec<SiteVector>> = Vec::new();
    let mut b1: Vec<Vec<SiteVector>> = Vec::new();
    let mut b2: Vec<Vec<SiteVector>> = Vec::new();
    let mut i: u32 = 0;
    proof {
        assert(bonds_view(b0@) =~= spec_bonds_upto(nx, ny, 0, 0));
        assert(bonds_view(b1@) =~= spec_bonds_upto(nx, ny, 1, 0));
        assert(bonds_view(b2@) =~= spec_bonds_upto(nx, ny, 2, 0));
    }
    while i < n
        invariant
            1 <= nx,
            1 <= ny,
            nx * ny <= 64,
            n == nx * ny,
            i <= n,
            bonds_view(b0@) == spec_bonds_upto(nx, ny, 0, i as int),
            bonds_view(b1@) == spec_bonds_upto(nx, ny, 1, i as int),
            bonds_view(b2@) == spec_bonds_upto(nx, ny, 2, i as int),
            forall|k: int| 0 <= k < b0@.len() ==> bond_wf((#[trigger] b0@[k])@),
            forall|k: int| 0 <= k < b1@.len() ==> bond_wf((#[trigger] b1@[k])@),
            forall|k: int| 0 <= k < b2@.len() ==> bond_wf((#[trigger] b2@[k])@),
        decreases n - i,
    {
        let v = SiteVector::from_index(i, nx, ny);
        proof {
            assert(v == spec_site_at(nx, ny, i as int));
        }
        push_site_bonds(&mut b0, &v, 0);
        push_site_bonds(&mut b1, &v, 1);
        push_site_bonds(&mut b2, &v, 2);
        i = i + 1;
    }
    let mut bonds: Vec<Vec<Vec<SiteVector>>> = Vec::new();
    bonds.push(b0);
    bonds.push(b1);
    bonds.push(b2);
    bonds
}

/// A single-bit mask made from a site index designates that index.
pub proof fn lemma_mask_bit_index(i: nat)
    requires
        i < 64,
    ensures
        single_bit(spec_mask(i)),
        bit_index(spec_mask(i)) == i,
{
    lemma_u64_pow2_no_overflow(i);
    assert(spec_mask(i) == pow2(i));
    assert(single_bit(spec_mask(i)));
    lemma_pow2_injective(bit_index(spec_mask(i)), i);
}

/// The mask of a site's bit in the configuration word.
pub fn site_mask(v: &SiteVector) -> (m: u64)
    requires
        v.wf(),
    ensures
        m == spec_mask(v.spec_index()),
        single_bit(m),
        v.spec_index() < 64,
        bit_index(m) == v.spec_index(),
{
    let i = v.lattice_index();
    proof {
        assert(i < 64);
        lemma_mask_bit_index(v.spec_index());
    }
    pow2_u64(i)
}

/// The first sites of a bond list, as single-bit masks, in bond order.
pub open spec fn masks_first(s: Seq<Seq<SiteVector>>) -> Seq<u64> {
    s.map_values(|b: Seq<SiteVector>| spec_mask(b[0].spec_index()))
}

/// The second sites of a bond list, as single-bit masks, in bond order.
pub open spec fn masks_second(s: Seq<Seq<SiteVector>>) -> Seq<u64> {
    s.map_values(|b: Seq<SiteVector>| spec_mask(b[1].spec_index()))
}

/// All pairs of interacting sites of the lattice at neighbour shell `l`
/// (1 nearest, 2 second, 3 third), as two parallel mask sequences in bond
/// order: the per-bond operand pairs of the Hamiltonian terms.
pub fn interacting_sites(nx: u32, ny: u32, l: u32) -> (r: (Vec<u64>, Vec<u64>))
    requires
        1 <= nx,
        1 <= ny,
        nx * ny <= 64,
        1 <= l,
        l <= 3,
    ensures
        r.0@ == masks_first(spec_bonds(nx, ny, l as int - 1)),
        r.1@ == masks_second(spec_bonds(nx, ny, l as int - 1)),
        r.0@.len() == r.1@.len(),
        forall|k: int| 0 <= k < r.0@.len() ==> single_bit(#[trigger] r.0@[k]),
        forall|k: int| 0 <= k < r.1@.len() ==> single_bit(#[trigger] r.1@[k]),
{
    let bonds = generate_bonds(nx, ny);
    let bucket = &bonds[(l - 1) as usize];
    let ghost sb = spec_bonds(nx, ny, l as int - 1);
    let mut site1: Vec<u64> = Vec::new();
    let mut site2: Vec<u64> = Vec::new();
    let mut k: usize = 0;
    proof {
        assert(site1@ =~= masks_first(sb.subrange(0, 0)));
        assert(site2@ =~= masks_second(sb.subrange(0, 0)));
    }
    while k < bucket.len()
        invariant
            k <= bucket@.len(),
            bonds_view(bucket@) == sb,
            forall|q: int| 0 <= q < bucket@.len() ==> bond_wf((#[trigger] bucket@[q])@),
            site1@ == masks_first(sb.subrange(0, k as int)),
            site2@ == masks_second(sb.subrange(0, k as int)),
            forall|q: int| 0 <= q < site1@.len() ==> single_bit(#[trigger] site1@[q]),
            forall|q: int| 0 <= q < site2@.len() ==> single_bit(#[trigger] site2@[q]),
        decreases bucket@.len() - k,
    {
        let bond = &bucket[k];
        proof {
            assert(bonds_view(bucket@)[k as int] == bond@);
            assert(bond_wf(bond@));
        }
        let m1 = site_mask(&bond[0]);
        let m2 = site_mask(&bond[1]);
        site1.push(m1);
        site2.push(m2);
        proof {
            assert(site1@ =~= masks_first(sb.subrange(0, k + 1)));
            assert(site2@ =~= masks_second(sb.subrange(0, k + 1)));
        }
        k = k + 1;
    }
    proof {
        assert(sb.subrange(0, sb.len() as int) =~= sb);
    }
    (site1, site2)
}

/// First vertices of the elementary triangles of the first `i` unit cells:
/// each cell contributes an upward and a downward triangle, both anchored at
/// the cell's own site.
pub open spec fn spec_tri_first_upto(nx: u32, ny: u32, i: int) -> Seq<u64>
    decreases i,
{
    if i <= 0 {
        Seq::empty()
    } else {
        let v = spec_site_at(nx, ny, i - 1);
        spec_tri_first_upto(nx, ny, i - 1) + seq![
            spec_mask(v.spec_index()),
            spec_mask(v.spec_index()),
        ]
    }
}

/// Second vertices of the triangles: the site one x step onward, for the
/// upward and the downward triangle alike.
pub open spec fn spec_tri_second_upto(nx: u32, ny: u32, i: int) -> Seq<u64>
    decreases i,
{
    if i <= 0 {
        Seq::empty()
    } else {
        let v = spec_site_at(nx, ny, i - 1);
        spec_tri_second_upto(nx, ny, i - 1) + seq![
            spec_mask(v.spec_hop(1, 0).spec_index()),
            spec_mask(v.spec_hop(1, 0).spec_index()),
        ]
    }
}

/// Third vertices of the triangles: one more y step up for the upward
/// triangle, one y step back for the downward one, keeping each triple in
/// clockwise site order.
pub open spec fn spec_tri_third_upto(nx: u32, ny: u32, i: int) -> Seq<u64>
    decreases i,
{
    if i <= 0 {
        Seq::empty()
    } else {
        let v = spec_site_at(nx, ny, i - 1);
        spec_tri_third_upto(nx, ny, i - 1) + seq![
            spec_mask(v.spec_hop(1, 1).spec_index()),
            spec_mask(v.spec_hop(1, crate::geometry::spec_back(1, ny as nat)).spec_index()),
        ]
    }
}

/// Enumerate the two elementary triangles of every unit cell, as three
/// parallel mask sequences: for each cell, first the upward then the
/// downward triangle, walking cells in row-major order.
pub fn triangular_vert_sites(nx: u32, ny: u32) -> (r: (Vec<u64>, Vec<u64>, Vec<u64>))
    requires
        1 <= nx,
        1 <= ny,
        nx * ny <= 64,
    ensures
        r.0@ == spec_tri_first_upto(nx, ny, (nx * ny) as int),
        r.1@ == spec_tri_second_upto(nx, ny, (nx * ny) as int),
        r.2@ == spec_tri_third_upto(nx, ny, (nx * ny) as int),
        r.0@.len() == 2 * (nx * ny),
        r.1@.len() == 2 * (nx * ny),
        r.2@.len() == 2 * (nx * ny),
        forall|k: int| 0 <= k < r.0@.len() ==> single_bit(#[trigger] r.0@[k]),
        forall|k: int| 0 <= k < r.1@.len() ==> single_bit(#[trigger] r.1@[k]),
        forall|k: int| 0 <= k < r.2@.len() ==> single_bit(#[trigger] r.2@[k]),
{
    let n = nx * ny;
    let mut site1: Vec<u64> = Vec::new();
    let mut site2: Vec<u64> = Vec::new();
    let mut site3: Vec<u64> = Vec::new();
    let mut i: u32 = 0;
    proof {
        assert(site1@ =~= spec_tri_first_upto(nx, ny, 0));
        assert(site2@ =~= spec_tri_second_upto(nx, ny, 0));
        assert(site3@ =~= spec_tri_third_upto(nx, ny, 0));
    }
    while i < n
        invariant
            1 <= nx,
            1 <= ny,
            nx * ny <= 64,
            n == nx * ny,
            i <= n,
            site1@ == spec_tri_first_upto(nx, ny, i as int),
            site2@ == spec_tri_second_upto(nx, ny, i as int),
            site3@ == spec_tri_third_upto(nx, ny, i as int),
            site1@.len() == 2 * i,
            site2@.len() == 2 * i,
            site3@.len() == 2 * i,
            forall|k: int| 0 <= k < site1@.len() ==> single_bit(#[trigger] site1@[k]),
            forall|k: int| 0 <= k < site2@.len() ==> single_bit(#[trigger] site2@[k]),
            forall|k: int| 0 <= k < site3@.len() ==> single_bit(#[trigger] site3@[k]),
        decreases n - i,
    {
        let v = SiteVector::from_index(i, nx, ny);
        proof {
            assert(v == spec_site_at(nx, ny, i as int));
            assert(nx <= 64 && ny <= 64) by (nonlinear_arith)
                requires
                    1 <= nx,
                    1 <= ny,
                    nx * ny <= 64,
            ;
        }
        let m1 = site_mask(&v);
        let m2 = site_mask(&v.hop(1, 0));
        let m3_up = site_mask(&v.hop(1, 1));
        let m3_down = site_mask(&v.hop(1, crate::geometry::back_steps(1, ny)));
        site1.push(m1);
        site1.push(m1);
        site2.push(m2);
        site2.push(m2);
        site3.push(m3_up);
        site3.push(m3_down);
        proof {
            assert(site1@ =~= spec_tri_first_upto(nx, ny, i + 1));
            assert(site2@ =~= spec_tri_second_upto(nx, ny, i + 1));
            assert(site3@ =~= spec_tri_third_upto(nx, ny, i + 1));
        }
        i = i + 1;
    }
    (site1, site2, site3)
}

/// First members of the correlation pairs over the first `i` sites: every
/// site of the lattice in row-major order.
pub open spec fn spec_all_first_upto(nx: u32, ny: u32, i: int) -> Seq<u64>
    decreases i,
{
    if i <= 0 {
        Seq::empty()
    } else {
        spec_all_first_upto(nx, ny, i - 1) + seq![
            spec_mask(spec_site_at(nx, ny, i - 1).spec_index()),
        ]
    }
}

/// Second members of the correlation pairs: each site displaced by the
/// lattice vector of linear index `l`, split into its x and y strides.
pub open spec fn spec_all_second_upto(nx: u32, ny: u32, l: u32, i: int) -> Seq<u64>
    decreases i,
{
    if i <= 0 {
        Seq::empty()
    } else {
        spec_all_second_upto(nx, ny, l, i - 1) + seq![
            spec_mask(
                spec_site_at(nx, ny, i - 1).spec_hop((l % nx) as nat, (l / nx) as nat).spec_index(),
            ),
        ]
    }
}

/// Pair every site with the site displaced by the lattice vector of linear
/// index `l`, as two parallel mask sequences: the operand pairs of the
/// correlation matrices at arbitrary separation.
pub fn all_sites(nx: u32, ny: u32, l: u32) -> (r: (Vec<u64>, Vec<u64>))
    requires
        1 <= nx,
        1 <= ny,
        nx * ny <= 64,
        l < nx * ny,
    ensures
        r.0@ == spec_all_first_upto(nx, ny, (nx * ny) as int),
        r.1@ == spec_all_second_upto(nx, ny, l, (nx * ny) as int),
        r.0@.len() == nx * ny,
        r.1@.len() == nx * ny,
        forall|k: int| 0 <= k < r.0@.len() ==> single_bit(#[trigger] r.0@[k]),
        forall|k: int| 0 <= k < r.1@.len() ==> single_bit(#[trigger] r.1@[k]),
{
    let n = nx * ny;
    let xstride = l % nx;
    let ystride = l / nx;
    proof {
        assert(ystride < ny) by (nonlinear_arith)
            requires
                l < nx * ny,
                ystride == l as int / nx as int,
                1 <= nx,
        ;
        vstd::arithmetic::div_mod::lemma_mod_bound(l as int, nx as int);
        assert(nx <= 64 && ny <= 64) by (nonlinear_arith)
            requires
                1 <= nx,
                1 <= ny,
                nx * ny <= 64,
        ;
    }
    let mut site1: Vec<u64> = Vec::new();
    let mut site2: Vec<u64> = Vec::new();
    let mut i: u32 = 0;
    proof {
        assert(site1@ =~= spec_all_first_upto(nx, ny, 0));
        assert(site2@ =~= spec_all_second_upto(nx, ny, l, 0));
    }
    while i < n
        invariant
            1 <= nx,
            1 <= ny,
            nx * ny <= 64,
            n == nx * ny,
            i <= n,
            xstride == l % nx,
            ystride == l / nx,
            xstride < nx,
            ystride < ny,
            site1@ == spec_all_first_upto(nx, ny, i as int),
            site2@ == spec_all_second_upto(nx, ny, l, i as int),
            site1@.len() == i,
            site2@.len() == i,
            forall|k: int| 0 <= k < site1@.len() ==> single_bit(#[trigger] site1@[k]),
            forall|k: int| 0 <= k < site2@.len() ==> single_bit(#[trigger] site2@[k]),
        decreases n - i,
    {
        let v = SiteVector::from_index(i, nx, ny);
        proof {
            assert(v == spec_site_at(nx, ny, i as int));
            assert(nx <= 64 && ny <= 64) by (nonlinear_arith)
                requires
                    1 <= nx,
                    1 <= ny,
                    nx * ny <= 64,
            ;
        }
        let m1 = site_mask(&v);
        let m2 = site_mask(&v.hop(xstride, ystride));
        site1.push(m1);
        site2.push(m2);
        proof {
            assert(site1@ =~= spec_all_first_upto(nx, ny, i + 1));
            assert(site2@ =~= spec_all_second_upto(nx, ny, l, i + 1));
        }
        i = i + 1;
    }
    (site1, site2)
}

} // verus!
