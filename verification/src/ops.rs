use vstd::prelude::*;

verus! {

use crate::config::{
    spin_up,
    single_bit,
    bit_index,
    spec_exchange_spin_flips,
    spec_repeated_spins,
    exchange_spin_flips,
    repeated_spins,
    lemma_shl_is_pow2,
    lemma_up_site_le,
    lemma_down_site_add_ok,
    lemma_exchange_in_range,
    lemma_both_up_in_range,
    lemma_both_down_in_range,
};
use crate::basis::{BlochFunc, BlochFuncSet, rep_table_wf, ind_table_wf, spec_conj_phase,
    find_leading_state, coeff};
use crate::fnvtable::{FnvTable, fnv_contents, fnv_table_get};
use crate::phase::{GammaPhase, spec_gamma, gamma};

/// One symbolic contribution to a matrix row. Its numeric value is
/// `exp(2 * pi * i * phase_num / den) * sqrt(norm_num / norm_den)` times
/// the unit complex number that `g` stands for, times the operator's own
/// leading constant; `den` is the sector's phase denominator. Destinations
/// reached by several bonds appear once per bond, to be summed by the
/// consumer.
#[derive(Clone, Copy, PartialEq, Eq, Structural, Debug)]
pub struct Term {
    pub col: u32,
    pub phase_num: u32,
    pub norm_num: u64,
    pub norm_den: u64,
    pub g: GammaPhase,
}

/// How many site pairs hold aligned spins among the first `i` pairs.
pub open spec fn spec_same_count(s1: Seq<u64>, s2: Seq<u64>, dec: u64, i: int) -> int
    decreases i,
{
    if i <= 0 {
        0
    } else {
        spec_same_count(s1, s2, dec, i - 1) + if spin_up(dec, s1[i - 1]) == spin_up(
            dec,
            s2[i - 1],
        ) {
            1int
        } else {
            0int
        }
    }
}

/// The diagonal Ising element of one representative state, counted over all
/// bonds: aligned pairs minus anti-aligned pairs. The matrix element itself
/// is one quarter of this count.
pub fn ss_z_elements(sites: &(Vec<u64>, Vec<u64>), orig_state: &BlochFunc) -> (r: i64)
    requires
        sites.0@.len() == sites.1@.len(),
        sites.0@.len() <= 1000000,
    ensures
        r == 2 * spec_same_count(sites.0@, sites.1@, orig_state.lead, sites.0@.len() as int)
            - sites.0@.len(),
{
    let mut same_dir: i64 = 0;
    let mut k: usize = 0;
    while k < sites.0.len()
        invariant
            sites.0@.len() == sites.1@.len(),
            sites.0@.len() <= 1000000,
            k <= sites.0@.len(),
            0 <= same_dir <= k,
            same_dir == spec_same_count(sites.0@, sites.1@, orig_state.lead, k as int),
        decreases sites.0@.len() - k,
    {
        let (upup, downdown) = repeated_spins(orig_state.lead, sites.0[k], sites.1[k]);
        if upup || downdown {
            same_dir = same_dir + 1;
        }
        k = k + 1;
    }
    let len = sites.0.len() as i64;
    2 * same_dir - len
}

/// The exchange move of one bond, where the two sites hold opposite spins:
/// the destination configuration with both spins flipped, or nothing when
/// the pair is aligned or the destination leaves the sector.
pub open spec fn spec_pm_term(
    s: BlochFuncSet,
    rep: Map<u64, u32>,
    ind: Map<u64, u32>,
    lead: u64,
    norm_den: u64,
    s1: u64,
    s2: u64,
) -> Option<Term> {
    let flips = spec_exchange_spin_flips(lead, s1, s2);
    if !flips.0 && !flips.1 {
        None
    } else {
        let nd = if flips.0 {
            (lead - s1 + s2) as u64
        } else {
            (lead + s1 - s2) as u64
        };
        if rep.dom().contains(nd) {
            let bf = s.funcs@[rep[nd] as int];
            Some(
                Term {
                    col: ind[bf.lead],
                    phase_num: spec_conj_phase(s.phase_den, bf.decs_phase(nd)),
                    norm_num: bf.norm_sq,
                    norm_den: norm_den,
                    g: GammaPhase { re: 1, im: 0 },
                },
            )
        } else {
            None
        }
    }
}

/// The exchange contributions of the first `i` bonds, in bond order.
pub open spec fn spec_pm_terms(
    s: BlochFuncSet,
    rep: Map<u64, u32>,
    ind: Map<u64, u32>,
    lead: u64,
    norm_den: u64,
    s1s: Seq<u64>,
    s2s: Seq<u64>,
    i: int,
) -> Seq<Term>
    decreases i,
{
    if i <= 0 {
        Seq::empty()
    } else {
        spec_pm_terms(s, rep, ind, lead, norm_den, s1s, s2s, i - 1) + (match spec_pm_term(
            s,
            rep,
            ind,
            lead,
            norm_den,
            s1s[i - 1],
            s2s[i - 1],
        ) {
            Some(t) => seq![t],
            None => Seq::empty(),
        })
    }
}

/// The XY-exchange row of one representative state: for every bond whose
/// sites hold opposite spins, flip both and carry the amplitude onto the
/// destination representative. The numeric value of each term carries the
/// coupling strength as its leading constant.
pub fn ss_pm_elements(
    sites: &(Vec<u64>, Vec<u64>),
    orig_state: &BlochFunc,
    dec_to_ind: &FnvTable,
    hashtable: &FnvTable,
    s: &BlochFuncSet,
) -> (r: Vec<Term>)
    requires
        s.wf(),
        s.funcs@.len() <= u32::MAX,
        rep_table_wf(fnv_contents(*hashtable), *s),
        ind_table_wf(fnv_contents(*dec_to_ind), *s),
        sites.0@.len() == sites.1@.len(),
        forall|k: int| 0 <= k < sites.0@.len() ==> single_bit(#[trigger] sites.0@[k]),
        forall|k: int| 0 <= k < sites.1@.len() ==> single_bit(#[trigger] sites.1@[k]),
    ensures
        r@ == spec_pm_terms(
            *s,
            fnv_contents(*hashtable),
            fnv_contents(*dec_to_ind),
            orig_state.lead,
            orig_state.norm_sq,
            sites.0@,
            sites.1@,
            sites.0@.len() as int,
        ),
{
    let ghost rep = fnv_contents(*hashtable);
    let ghost ind = fnv_contents(*dec_to_ind);
    let lead = orig_state.lead;
    let mut r: Vec<Term> = Vec::new();
    let mut k: usize = 0;
    proof {
        assert(r@ =~= spec_pm_terms(*s, rep, ind, lead, orig_state.norm_sq, sites.0@, sites.1@, 0));
    }
    while k < sites.0.len()
        invariant
            s.wf(),
            s.funcs@.len() <= u32::MAX,
            rep == fnv_contents(*hashtable),
            ind == fnv_contents(*dec_to_ind),
            rep_table_wf(rep, *s),
            ind_table_wf(ind, *s),
            lead == orig_state.lead,
            sites.0@.len() == sites.1@.len(),
            forall|q: int| 0 <= q < sites.0@.len() ==> single_bit(#[trigger] sites.0@[q]),
            forall|q: int| 0 <= q < sites.1@.len() ==> single_bit(#[trigger] sites.1@[q]),
            k <= sites.0@.len(),
            r@ == spec_pm_terms(
                *s,
                rep,
                ind,
                lead,
                orig_state.norm_sq,
                sites.0@,
                sites.1@,
                k as int,
            ),
        decreases sites.0@.len() - k,
    {
        let s1 = sites.0[k];
        let s2 = sites.1[k];
        let (updown, downup) = exchange_spin_flips(lead, s1, s2);
        if updown || downup {
            proof {
                let i = bit_index(s1);
                let j = bit_index(s2);
                lemma_shl_is_pow2(i as u64);
                lemma_shl_is_pow2(j as u64);
                if i == j {
                    assert(s1 == s2);
                    assert(false);
                }
                if updown {
                    lemma_exchange_in_range(lead, i as u64, j as u64);
                } else {
                    lemma_exchange_in_range(lead, j as u64, i as u64);
                }
            }
            let nd = if updown {
                lead - s1 + s2
            } else {
                lead - s2 + s1
            };
            match find_leading_state(nd, hashtable, s) {
                None => {},
                Some((ri, c)) => {
                    let cntd = &s.funcs[ri];
                    let col = match fnv_table_get(dec_to_ind, cntd.lead) {
                        Some(col) => col,
                        None => {
                            proof {
                                assert(ind.dom().contains(s.funcs@[ri as int].lead));
                                assert(false);
                            }
                            0
                        },
                    };
                    let nrm = coeff(orig_state, cntd);
                    let t = Term {
                        col,
                        phase_num: c,
                        norm_num: nrm.0,
                        norm_den: nrm.1,
                        g: GammaPhase { re: 1, im: 0 },
                    };
                    r.push(t);
                },
            }
        }
        proof {
            assert(r@ =~= spec_pm_terms(
                *s,
                rep,
                ind,
                lead,
                orig_state.norm_sq,
                sites.0@,
                sites.1@,
                k + 1,
            ));
        }
        k = k + 1;
    }
    r
}

/// The pair-raising or pair-lowering move of one bond, where the two sites
/// hold aligned spins: both flipped, weighted by the bond's geometric
/// phase, conjugated when lowering.
pub open spec fn spec_ppmm_term(
    s: BlochFuncSet,
    rep: Map<u64, u32>,
    ind: Map<u64, u32>,
    nx: u32,
    ny: u32,
    lead: u64,
    norm_den: u64,
    s1: u64,
    s2: u64,
) -> Option<Term> {
    let reps = spec_repeated_spins(lead, s1, s2);
    if !reps.0 && !reps.1 {
        None
    } else {
        let nd = if reps.0 {
            (lead - s1 - s2) as u64
        } else {
            (lead + s1 + s2) as u64
        };
        let g = if reps.0 {
            spec_gamma(nx, ny, s1, s2).spec_conj()
        } else {
            spec_gamma(nx, ny, s1, s2)
        };
        if rep.dom().contains(nd) {
            let bf = s.funcs@[rep[nd] as int];
            Some(
                Term {
                    col: ind[bf.lead],
                    phase_num: spec_conj_phase(s.phase_den, bf.decs_phase(nd)),
                    norm_num: bf.norm_sq,
                    norm_den: norm_den,
                    g: g,
                },
            )
        } else {
            None
        }
    }
}

/// The pair-flip contributions of the first `i` bonds, in bond order.
pub open spec fn spec_ppmm_terms(
    s: BlochFuncSet,
    rep: Map<u64, u32>,
    ind: Map<u64, u32>,
    nx: u32,
    ny: u32,
    lead: u64,
    norm_den: u64,
    s1s: Seq<u64>,
    s2s: Seq<u64>,
    i: int,
) -> Seq<Term>
    decreases i,
{
    if i <= 0 {
        Seq::empty()
    } else {
        spec_ppmm_terms(s, rep, ind, nx, ny, lead, norm_den, s1s, s2s, i - 1) + (
        match spec_ppmm_term(s, rep, ind, nx, ny, lead, norm_den, s1s[i - 1], s2s[i - 1]) {
            Some(t) => seq![t],
            None => Seq::empty(),
        })
    }
}

/// The pseudo-dipolar row of one representative state: for every bond whose
/// sites hold aligned spins, raise or lower both, weighted by the bond's
/// geometric phase. The numeric value of each term carries the coupling
/// strength as its leading constant.
pub fn ss_ppmm_elements(
    nx: u32,
    ny: u32,
    sites: &(Vec<u64>, Vec<u64>),
    orig_state: &BlochFunc,
    dec_to_ind: &FnvTable,
    hashtable: &FnvTable,
    s: &BlochFuncSet,
) -> (r: Vec<Term>)
    requires
        1 <= nx,
        1 <= ny,
        nx * ny <= 64,
        s.wf(),
        s.funcs@.len() <= u32::MAX,
        rep_table_wf(fnv_contents(*hashtable), *s),
        ind_table_wf(fnv_contents(*dec_to_ind), *s),
        sites.0@.len() == sites.1@.len(),
        forall|k: int| 0 <= k < sites.0@.len() ==> single_bit(#[trigger] sites.0@[k]),
        forall|k: int| 0 <= k < sites.1@.len() ==> single_bit(#[trigger] sites.1@[k]),
        forall|k: int| 0 <= k < sites.0@.len() ==> bit_index(#[trigger] sites.0@[k]) < nx * ny,
        forall|k: int| 0 <= k < sites.1@.len() ==> bit_index(#[trigger] sites.1@[k]) < nx * ny,
        forall|k: int| 0 <= k < sites.0@.len() ==> #[trigger] sites.0@[k] != sites.1@[k],
    ensures
        r@ == spec_ppmm_terms(
            *s,
            fnv_contents(*hashtable),
            fnv_contents(*dec_to_ind),
            nx,
            ny,
            orig_state.lead,
            orig_state.norm_sq,
            sites.0@,
            sites.1@,
            sites.0@.len() as int,
        ),
{
    let ghost rep = fnv_contents(*hashtable);
    let ghost ind = fnv_contents(*dec_to_ind);
    let lead = orig_state.lead;
    let mut r: Vec<Term> = Vec::new();
    let mut k: usize = 0;
    proof {
        assert(r@ =~= spec_ppmm_terms(
            *s,
            rep,
            ind,
            nx,
            ny,
            lead,
            orig_state.norm_sq,
            sites.0@,
            sites.1@,
            0,
        ));
    }
    while k < sites.0.len()
        invariant
            1 <= nx,
            1 <= ny,
            nx * ny <= 64,
            s.wf(),
            s.funcs@.len() <= u32::MAX,
            rep == fnv_contents(*hashtable),
            ind == fnv_contents(*dec_to_ind),
            rep_table_wf(rep, *s),
            ind_table_wf(ind, *s),
            lead == orig_state.lead,
            sites.0@.len() == sites.1@.len(),
            forall|q: int| 0 <= q < sites.0@.len() ==> single_bit(#[trigger] sites.0@[q]),
            forall|q: int| 0 <= q < sites.1@.len() ==> single_bit(#[trigger] sites.1@[q]),
            forall|q: int|
                0 <= q < sites.0@.len() ==> bit_index(#[trigger] sites.0@[q]) < nx * ny,
            forall|q: int|
                0 <= q < sites.1@.len() ==> bit_index(#[trigger] sites.1@[q]) < nx * ny,
            forall|q: int| 0 <= q < sites.0@.len() ==> #[trigger] sites.0@[q] != sites.1@[q],
            k <= sites.0@.len(),
            r@ == spec_ppmm_terms(
                *s,
                rep,
                ind,
                nx,
                ny,
                lead,
                orig_state.norm_sq,
                sites.0@,
                sites.1@,
                k as int,
            ),
        decreases sites.0@.len() - k,
    {
        let s1 = sites.0[k];
        let s2 = sites.1[k];
        let (upup, downdown) = repeated_spins(lead, s1, s2);
        if upup || downdown {
            proof {
                let i = bit_index(s1);
                let j = bit_index(s2);
                lemma_shl_is_pow2(i as u64);
                lemma_shl_is_pow2(j as u64);
                if i == j {
                    assert(s1 == s2);
                }
                if upup {
                    lemma_both_up_in_range(lead, i as u64, j as u64);
                } else {
                    lemma_both_down_in_range(lead, i as u64, j as u64);
                }
            }
            let nd = if upup {
                lead - s1 - s2
            } else {
                lead + s1 + s2
            };
            let gbase = gamma(nx, ny, s1, s2);
            let gph = if upup {
                gbase.conj()
            } else {
                gbase
            };
            match find_leading_state(nd, hashtable, s) {
                None => {},
                Some((ri, c)) => {
                    let cntd = &s.funcs[ri];
                    let col = match fnv_table_get(dec_to_ind, cntd.lead) {
                        Some(col) => col,
                        None => {
                            proof {
                                assert(ind.dom().contains(s.funcs@[ri as int].lead));
                                assert(false);
                            }
                            0
                        },
                    };
                    let nrm = coeff(orig_state, cntd);
                    let t = Term {
                        col,
                        phase_num: c,
                        norm_num: nrm.0,
                        norm_den: nrm.1,
                        g: gph,
                    };
                    r.push(t);
                },
            }
        }
        proof {
            assert(r@ =~= spec_ppmm_terms(
                *s,
                rep,
                ind,
                nx,
                ny,
                lead,
                orig_state.norm_sq,
                sites.0@,
                sites.1@,
                k + 1,
            ));
        }
        k = k + 1;
    }
    r
}

/// The mixed move of one ordered site pair: a half-strength factor signed
/// by the first site's orientation, combined with flipping the second site,
/// weighted by the pair's geometric phase, conjugated when lowering and
/// negated when raising. The sign of the half factor is folded into `g`;
/// the remaining leading constant of the numeric value is the coupling
/// strength times `i / 2`.
pub open spec fn spec_pmz_pair(
    s: BlochFuncSet,
    rep: Map<u64, u32>,
    ind: Map<u64, u32>,
    nx: u32,
    ny: u32,
    lead: u64,
    norm_den: u64,
    sa: u64,
    sb: u64,
) -> Option<Term> {
    let zplus = spin_up(lead, sa);
    let lower = spin_up(lead, sb);
    let nd = if lower {
        (lead - sb) as u64
    } else {
        (lead + sb) as u64
    };
    let g0 = if lower {
        spec_gamma(nx, ny, sa, sb).spec_conj()
    } else {
        spec_gamma(nx, ny, sa, sb).spec_neg()
    };
    let g = if zplus {
        g0
    } else {
        g0.spec_neg()
    };
    if rep.dom().contains(nd) {
        let bf = s.funcs@[rep[nd] as int];
        Some(
            Term {
                col: ind[bf.lead],
                phase_num: spec_conj_phase(s.phase_den, bf.decs_phase(nd)),
                norm_num: bf.norm_sq,
                norm_den: norm_den,
                g: g,
            },
        )
    } else {
        None
    }
}

/// The mixed contributions of the first `i` bonds, each bond taken in both
/// site orders, in bond order.
pub open spec fn spec_pmz_terms(
    s: BlochFuncSet,
    rep: Map<u64, u32>,
    ind: Map<u64, u32>,
    nx: u32,
    ny: u32,
    lead: u64,
    norm_den: u64,
    s1s: Seq<u64>,
    s2s: Seq<u64>,
    i: int,
) -> Seq<Term>
    decreases i,
{
    if i <= 0 {
        Seq::empty()
    } else {
        spec_pmz_terms(s, rep, ind, nx, ny, lead, norm_den, s1s, s2s, i - 1) + (
        match spec_pmz_pair(s, rep, ind, nx, ny, lead, norm_den, s1s[i - 1], s2s[i - 1]) {
            Some(t) => seq![t],
            None => Seq::empty(),
        }) + (match spec_pmz_pair(s, rep, ind, nx, ny, lead, norm_den, s2s[i - 1], s1s[i - 1]) {
            Some(t) => seq![t],
            None => Seq::empty(),
        })
    }
}

/// Evaluate one ordered pair of the mixed operator.
fn pmz_pair(
    nx: u32,
    ny: u32,
    sa: u64,
    sb: u64,
    orig_state: &BlochFunc,
    dec_to_ind: &FnvTable,
    hashtable: &FnvTable,
    s: &BlochFuncSet,
) -> (r: Option<Term>)
    requires
        1 <= nx,
        1 <= ny,
        nx * ny <= 64,
        s.wf(),
        s.funcs@.len() <= u32::MAX,
        rep_table_wf(fnv_contents(*hashtable), *s),
        ind_table_wf(fnv_contents(*dec_to_ind), *s),
        single_bit(sa),
        single_bit(sb),
        bit_index(sa) < nx * ny,
        bit_index(sb) < nx * ny,
    ensures
        r == spec_pmz_pair(
            *s,
            fnv_contents(*hashtable),
            fnv_contents(*dec_to_ind),
            nx,
            ny,
            orig_state.lead,
            orig_state.norm_sq,
            sa,
            sb,
        ),
{
    let ghost ind = fnv_contents(*dec_to_ind);
    let lead = orig_state.lead;
    let zplus = lead | sa == lead;
    let lower = lead | sb == lead;
    proof {
        let j = bit_index(sb);
        lemma_shl_is_pow2(j as u64);
        if lower {
            lemma_up_site_le(lead, j as u64);
        } else {
            lemma_down_site_add_ok(lead, j as u64);
        }
    }
    let nd = if lower {
        lead - sb
    } else {
        lead + sb
    };
    let gbase = gamma(nx, ny, sa, sb);
    let g0 = if lower {
        gbase.conj()
    } else {
        gbase.neg()
    };
    let g = if zplus {
        g0
    } else {
        g0.neg()
    };
    match find_leading_state(nd, hashtable, s) {
        None => None,
        Some((ri, c)) => {
            let cntd = &s.funcs[ri];
            let col = match fnv_table_get(dec_to_ind, cntd.lead) {
                Some(col) => col,
                None => {
                    proof {
                        assert(ind.dom().contains(s.funcs@[ri as int].lead));
                        assert(false);
                    }
                    0
                },
            };
            let nrm = coeff(orig_state, cntd);
            Some(Term { col, phase_num: c, norm_num: nrm.0, norm_den: nrm.1, g })
        },
    }
}

/// The mixed row of one representative state: every bond evaluated
/// symmetrically in both site orders, each order combining the first
/// site's half-strength orientation factor with a flip of the second site
/// and the pair's geometric phase. The numeric value of each term carries
/// the coupling strength times `i / 2` as its leading constant.
pub fn ss_pmz_elements(
    nx: u32,
    ny: u32,
    sites: &(Vec<u64>, Vec<u64>),
    orig_state: &BlochFunc,
    dec_to_ind: &FnvTable,
    hashtable: &FnvTable,
    s: &BlochFuncSet,
) -> (r: Vec<Term>)
    requires
        1 <= nx,
        1 <= ny,
        nx * ny <= 64,
        s.wf(),
        s.funcs@.len() <= u32::MAX,
        rep_table_wf(fnv_contents(*hashtable), *s),
        ind_table_wf(fnv_contents(*dec_to_ind), *s),
        sites.0@.len() == sites.1@.len(),
        forall|k: int| 0 <= k < sites.0@.len() ==> single_bit(#[trigger] sites.0@[k]),
        forall|k: int| 0 <= k < sites.1@.len() ==> single_bit(#[trigger] sites.1@[k]),
        forall|k: int| 0 <= k < sites.0@.len() ==> bit_index(#[trigger] sites.0@[k]) < nx * ny,
        forall|k: int| 0 <= k < sites.1@.len() ==> bit_index(#[trigger] sites.1@[k]) < nx * ny,
    ensures
        r@ == spec_pmz_terms(
            *s,
            fnv_contents(*hashtable),
            fnv_contents(*dec_to_ind),
            nx,
            ny,
            orig_state.lead,
            orig_state.norm_sq,
            sites.0@,
            sites.1@,
            sites.0@.len() as int,
        ),
{
    let ghost rep = fnv_contents(*hashtable);
    let ghost ind = fnv_contents(*dec_to_ind);
    let lead = orig_state.lead;
    let mut r: Vec<Term> = Vec::new();
    let mut k: usize = 0;
    proof {
        assert(r@ =~= spec_pmz_terms(
            *s,
            rep,
            ind,
            nx,
            ny,
            lead,
            orig_state.norm_sq,
            sites.0@,
            sites.1@,
            0,
        ));
    }
    while k < sites.0.len()
        invariant
            1 <= nx,
            1 <= ny,
            nx * ny <= 64,
            s.wf(),
            s.funcs@.len() <= u32::MAX,
            rep == fnv_contents(*hashtable),
            ind == fnv_contents(*dec_to_ind),
            rep_table_wf(rep, *s),
            ind_table_wf(ind, *s),
            lead == orig_state.lead,
            sites.0@.len() == sites.1@.len(),
            forall|q: int| 0 <= q < sites.0@.len() ==> single_bit(#[trigger] sites.0@[q]),
            forall|q: int| 0 <= q < sites.1@.len() ==> single_bit(#[trigger] sites.1@[q]),
            forall|q: int|
                0 <= q < sites.0@.len() ==> bit_index(#[trigger] sites.0@[q]) < nx * ny,
            forall|q: int|
                0 <= q < sites.1@.len() ==> bit_index(#[trigger] sites.1@[q]) < nx * ny,
            k <= sites.0@.len(),
            r@ == spec_pmz_terms(
                *s,
                rep,
                ind,
                nx,
                ny,
                lead,
                orig_state.norm_sq,
                sites.0@,
                sites.1@,
                k as int,
            ),
        decreases sites.0@.len() - k,
    {
        let s1 = sites.0[k];
        let s2 = sites.1[k];
        match pmz_pair(nx, ny, s1, s2, orig_state, dec_to_ind, hashtable, s) {
            Some(t) => { r.push(t) },
            None => {},
        }
        match pmz_pair(nx, ny, s2, s1, orig_state, dec_to_ind, hashtable, s) {
            Some(t) => { r.push(t) },
            None => {},
        }
        proof {
            assert(r@ =~= spec_pmz_terms(
                *s,
                rep,
                ind,
                nx,
                ny,
                lead,
                orig_state.norm_sq,
                sites.0@,
                sites.1@,
                k + 1,
            ));
        }
        k = k + 1;
    }
    r
}

} // verus!
