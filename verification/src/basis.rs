use vstd::prelude::*;

verus! {

use crate::fnvtable::{FnvTable, fnv_contents, fnv_table_new, fnv_table_insert, fnv_table_get};

/// One translation-symmetry representative basis state: its canonical
/// configuration, the map from every configuration of its orbit to that
/// member's unit phase, and the squared normalization of its Bloch sum.
/// A phase is held exactly as the numerator `p` of a fraction of a turn:
/// the member's coefficient is `exp(2 * pi * i * p / den)` for the
/// sector-wide denominator `den`, and squared norms of momentum-sector
/// Bloch sums are whole numbers.
pub struct BlochFunc {
    pub lead: u64,
    pub decs: Vec<(u64, u32)>,
    pub norm_sq: u64,
}

impl BlochFunc {
    /// Whether `dec` lies in this state's orbit.
    pub open spec fn decs_contains(self, dec: u64) -> bool {
        exists|k: int| 0 <= k < self.decs@.len() && (#[trigger] self.decs@[k]).0 == dec
    }

    /// The phase numerator stored for an orbit member.
    pub open spec fn decs_phase(self, dec: u64) -> u32 {
        self.decs@[choose|k: int| 0 <= k < self.decs@.len() && (#[trigger] self.decs@[k]).0 == dec].1
    }

    /// The orbit map lists each configuration once, covers the lead, and
    /// holds phase numerators below the sector denominator; the norm is
    /// positive.
    pub open spec fn wf(self, den: u32) -> bool {
        &&& self.norm_sq >= 1
        &&& self.decs_contains(self.lead)
        &&& forall|i: int, j: int|
            0 <= i < j < self.decs@.len() ==> (#[trigger] self.decs@[i]).0 != (
            #[trigger] self.decs@[j]).0
        &&& forall|k: int| 0 <= k < self.decs@.len() ==> (#[trigger] self.decs@[k]).1 < den
    }

    /// Look a configuration up in the orbit map.
    pub fn decs_get(&self, dec: u64) -> (r: Option<u32>)
        requires
            forall|i: int, j: int|
                0 <= i < j < self.decs@.len() ==> (#[trigger] self.decs@[i]).0 != (
                #[trigger] self.decs@[j]).0,
        ensures
            r is Some <==> self.decs_contains(dec),
            r is Some ==> r == Some(self.decs_phase(dec)),
    {
        let mut k: usize = 0;
        while k < self.decs.len()
            invariant
                k <= self.decs@.len(),
                forall|i: int, j: int|
                    0 <= i < j < self.decs@.len() ==> (#[trigger] self.decs@[i]).0 != (
                    #[trigger] self.decs@[j]).0,
                forall|q: int| 0 <= q < k ==> (#[trigger] self.decs@[q]).0 != dec,
            decreases self.decs@.len() - k,
        {
            let (d, p) = self.decs[k];
            if d == dec {
                proof {
                    let w = choose|w: int|
                        0 <= w < self.decs@.len() && (#[trigger] self.decs@[w]).0 == dec;
                    assert(w == k);
                }
                return Some(p);
            }
            k = k + 1;
        }
        None
    }
}

/// The representative basis of one symmetry sector, in matrix row order,
/// together with the denominator shared by every stored phase numerator.
pub struct BlochFuncSet {
    pub funcs: Vec<BlochFunc>,
    pub phase_den: u32,
}

impl BlochFuncSet {
    /// Every state is well formed, canonical configurations are distinct,
    /// and orbits do not overlap.
    pub open spec fn wf(self) -> bool {
        &&& 1 <= self.phase_den
        &&& forall|i: int|
            0 <= i < self.funcs@.len() ==> (#[trigger] self.funcs@[i]).wf(self.phase_den)
        &&& forall|i: int, j: int|
            0 <= i < j < self.funcs@.len() ==> (#[trigger] self.funcs@[i]).lead != (
            #[trigger] self.funcs@[j]).lead
        &&& forall|i: int, j: int, dec: u64|
            0 <= i < self.funcs@.len() && 0 <= j < self.funcs@.len() && i != j
                && #[trigger] self.funcs@[i].decs_contains(dec)
                ==> !#[trigger] self.funcs@[j].decs_contains(dec)
    }
}

/// A decimal-to-representative table agrees with a basis: it maps exactly
/// the configurations of some orbit, each to the row of the state owning
/// that orbit.
pub open spec fn rep_table_wf(m: Map<u64, u32>, s: BlochFuncSet) -> bool {
    &&& forall|dec: u64|
        #[trigger] m.dom().contains(dec) ==> m[dec] < s.funcs@.len() && s.funcs@[m[dec] as int].decs_contains(dec)
    &&& forall|i: int, dec: u64|
        0 <= i < s.funcs@.len() && #[trigger] s.funcs@[i].decs_contains(dec) ==> m.dom().contains(
            dec,
        ) && m[dec] == i
}

/// A lead-to-row table agrees with a basis: it maps exactly the canonical
/// configurations, each to its row.
pub open spec fn ind_table_wf(m: Map<u64, u32>, s: BlochFuncSet) -> bool {
    &&& forall|i: int|
        0 <= i < s.funcs@.len() ==> m.dom().contains((#[trigger] s.funcs@[i]).lead) && m[s.funcs@[
            i
        ].lead] == i
    &&& forall|dec: u64|
        #[trigger] m.dom().contains(dec) ==> m[dec] < s.funcs@.len() && s.funcs@[m[dec] as int].lead
            == dec
}

/// Build the two row-conversion structures of a sector: the list of
/// canonical configurations in row order, and the table sending each
/// canonical configuration to its row.
pub fn gen_ind_dec_conv_dicts(s: &BlochFuncSet) -> (r: (Vec<u64>, FnvTable))
    requires
        s.wf(),
        s.funcs@.len() <= u32::MAX,
    ensures
        r.0@.len() == s.funcs@.len(),
        forall|i: int| 0 <= i < r.0@.len() ==> r.0@[i] == (#[trigger] s.funcs@[i]).lead,
        ind_table_wf(fnv_contents(r.1), *s),
{
    let mut leads: Vec<u64> = Vec::new();
    let mut dec_to_ind = fnv_table_new();
    let mut i: usize = 0;
    while i < s.funcs.len()
        invariant
            s.wf(),
            s.funcs@.len() <= u32::MAX,
            i <= s.funcs@.len(),
            leads@.len() == i,
            forall|q: int| 0 <= q < i ==> leads@[q] == (#[trigger] s.funcs@[q]).lead,
            forall|q: int|
                0 <= q < i ==> fnv_contents(dec_to_ind).dom().contains(
                    (#[trigger] s.funcs@[q]).lead,
                ) && fnv_contents(dec_to_ind)[s.funcs@[q].lead] == q,
            forall|dec: u64|
                #[trigger] fnv_contents(dec_to_ind).dom().contains(dec) ==> fnv_contents(
                    dec_to_ind,
                )[dec] < i && s.funcs@[fnv_contents(dec_to_ind)[dec] as int].lead == dec,
        decreases s.funcs@.len() - i,
    {
        let lead = s.funcs[i].lead;
        leads.push(lead);
        fnv_table_insert(&mut dec_to_ind, lead, i as u32);
        i = i + 1;
    }
    (leads, dec_to_ind)
}

/// Build the decimal-to-representative table of a sector: every
/// configuration of every orbit, sent to the row of its representative.
pub fn build_rep_table(s: &BlochFuncSet) -> (t: FnvTable)
    requires
        s.wf(),
        s.funcs@.len() <= u32::MAX,
    ensures
        rep_table_wf(fnv_contents(t), *s),
{
    let mut t = fnv_table_new();
    let mut i: usize = 0;
    while i < s.funcs.len()
        invariant
            s.wf(),
            s.funcs@.len() <= u32::MAX,
            i <= s.funcs@.len(),
            forall|dec: u64|
                #[trigger] fnv_contents(t).dom().contains(dec) ==> fnv_contents(t)[dec] < i
                    && s.funcs@[fnv_contents(t)[dec] as int].decs_contains(dec),
            forall|q: int, dec: u64|
                0 <= q < i && #[trigger] s.funcs@[q].decs_contains(dec) ==> fnv_contents(
                    t,
                ).dom().contains(dec) && fnv_contents(t)[dec] == q,
        decreases s.funcs@.len() - i,
    {
        let bf = &s.funcs[i];
        let mut k: usize = 0;
        while k < bf.decs.len()
            invariant
                s.wf(),
                s.funcs@.len() <= u32::MAX,
                i < s.funcs@.len(),
                bf == &s.funcs@[i as int],
                k <= bf.decs@.len(),
                forall|dec: u64|
                    #[trigger] fnv_contents(t).dom().contains(dec) ==> fnv_contents(t)[dec] <= i
                        && s.funcs@[fnv_contents(t)[dec] as int].decs_contains(dec),
                forall|q: int, dec: u64|
                    0 <= q < i && #[trigger] s.funcs@[q].decs_contains(dec) ==> fnv_contents(
                        t,
                    ).dom().contains(dec) && fnv_contents(t)[dec] == q,
                forall|w: int|
                    0 <= w < k ==> fnv_contents(t).dom().contains(
                        (#[trigger] bf.decs@[w]).0,
                    ) && fnv_contents(t)[bf.decs@[w].0] == i,
            decreases bf.decs@.len() - k,
        {
            let (dec, _p) = bf.decs[k];
            proof {
                assert(s.funcs@[i as int].decs_contains(dec));
            }
            fnv_table_insert(&mut t, dec, i as u32);
            k = k + 1;
        }
        i = i + 1;
        proof {
            assert(forall|q: int, dec: u64|
                0 <= q < i && #[trigger] s.funcs@[q].decs_contains(dec) ==> fnv_contents(
                    t,
                ).dom().contains(dec) && fnv_contents(t)[dec] == q) by {
                assert forall|q: int, dec: u64|
                    0 <= q < i && #[trigger] s.funcs@[q].decs_contains(dec) implies fnv_contents(
                    t,
                ).dom().contains(dec) && fnv_contents(t)[dec] == q by {
                    if q == i - 1 {
                        let w = choose|w: int|
                            0 <= w < s.funcs@[q].decs@.len() && (#[trigger] s.funcs@[q].decs@[w]).0
                                == dec;
                    }
                }
            }
        }
    }
    t
}

/// The numerator of the complex conjugate of a stored unit phase: the
/// negated fraction of a turn, brought back into range.
pub open spec fn spec_conj_phase(den: u32, p: u32) -> u32
    recommends
        p < den,
{
    if p == 0 {
        0
    } else {
        (den - p) as u32
    }
}

/// Conjugate a stored phase numerator.
pub fn conj_phase(den: u32, p: u32) -> (r: u32)
    requires
        p < den,
    ensures
        r == spec_conj_phase(den, p),
        r < den,
{
    if p == 0 {
        0
    } else {
        den - p
    }
}

/// Find the representative state whose orbit holds `dec`, together with the
/// unit phase carrying `dec` back onto its representative: the conjugate of
/// the orbit member's stored phase, already of unit modulus. A
/// configuration outside every orbit of the sector yields nothing: absence
/// of a matrix element, not an error.
pub fn find_leading_state(dec: u64, hashtable: &FnvTable, s: &BlochFuncSet) -> (r: Option<
    (usize, u32)
>)
    requires
        s.wf(),
        rep_table_wf(fnv_contents(*hashtable), *s),
    ensures
        r is None <==> !fnv_contents(*hashtable).dom().contains(dec),
        r matches Some((i, c)) ==> {
            &&& i == fnv_contents(*hashtable)[dec]
            &&& i < s.funcs@.len()
            &&& s.funcs@[i as int].decs_contains(dec)
            &&& c == spec_conj_phase(s.phase_den, s.funcs@[i as int].decs_phase(dec))
            &&& c < s.phase_den
        },
{
    match fnv_table_get(hashtable, dec) {
        None => None,
        Some(i) => {
            let bf = &s.funcs[i as usize];
            proof {
                assert(s.funcs@[i as int].wf(s.phase_den));
            }
            match bf.decs_get(dec) {
                None => None,
                Some(p) => {
                    proof {
                        let w = choose|w: int|
                            0 <= w < bf.decs@.len() && (#[trigger] bf.decs@[w]).0 == dec;
                        assert(bf.decs@[w].1 < s.phase_den);
                    }
                    let c = conj_phase(s.phase_den, p);
                    Some((i as usize, c))
                },
            }
        },
    }
}

/// The relative normalization of two representatives' Bloch sums, as the
/// exact pair of squared norms: the factor applied to a transferred
/// amplitude is `sqrt(r.0 / r.1)`.
pub fn coeff(orig_state: &BlochFunc, cntd_state: &BlochFunc) -> (r: (u64, u64))
    ensures
        r.0 == cntd_state.norm_sq,
        r.1 == orig_state.norm_sq,
{
    (cntd_state.norm_sq, orig_state.norm_sq)
}

} // verus!
