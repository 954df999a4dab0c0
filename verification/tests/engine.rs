use num_complex::Complex;
use triangular_lattice_ext::basis::{build_rep_table, coeff, find_leading_state,
    gen_ind_dec_conv_dicts, BlochFunc, BlochFuncSet};
use triangular_lattice_ext::bonds::interacting_sites;
use triangular_lattice_ext::matrix::{ss_pm_matrix, ss_z_matrix};
use triangular_lattice_ext::ops::{ss_pm_elements, ss_pmz_elements, ss_ppmm_elements,
    ss_z_elements, Term};

/// The momentum-zero sector of a 4 x 1 periodic chain: every orbit phase is
/// one, so each stored numerator is zero with denominator one, and each
/// squared norm is the orbit size times the squared stabilizer order.
fn chain_basis() -> BlochFuncSet {
    let funcs = vec![
        BlochFunc { lead: 0, decs: vec![(0, 0)], norm_sq: 16 },
        BlochFunc { lead: 1, decs: vec![(1, 0), (2, 0), (4, 0), (8, 0)], norm_sq: 4 },
        BlochFunc { lead: 3, decs: vec![(3, 0), (6, 0), (12, 0), (9, 0)], norm_sq: 4 },
        BlochFunc { lead: 5, decs: vec![(5, 0), (10, 0)], norm_sq: 8 },
        BlochFunc { lead: 7, decs: vec![(7, 0), (14, 0), (13, 0), (11, 0)], norm_sq: 4 },
        BlochFunc { lead: 15, decs: vec![(15, 0)], norm_sq: 16 },
    ];
    BlochFuncSet { funcs, phase_den: 1 }
}

fn term_value(t: &Term, den: u32) -> Complex<f64> {
    let turn = 2.0 * std::f64::consts::PI * (t.phase_num as f64) / (den as f64);
    let phase = Complex::new(turn.cos(), turn.sin());
    let norm = ((t.norm_num as f64) / (t.norm_den as f64)).sqrt();
    let gnorm = ((t.g.re * t.g.re + 3 * t.g.im * t.g.im) as f64).sqrt();
    let g = Complex::new(t.g.re as f64 / gnorm, t.g.im as f64 * 3f64.sqrt() / gnorm);
    phase * norm * g
}

#[test]
fn lookup_tables_follow_the_basis() {
    let s = chain_basis();
    let (leads, dec_to_ind) = gen_ind_dec_conv_dicts(&s);
    assert_eq!(leads, vec![0, 1, 3, 5, 7, 15]);
    let table = build_rep_table(&s);
    // an orbit member maps to its representative with the conjugated phase
    let hit = find_leading_state(10, &table, &s);
    assert_eq!(hit, Some((3, 0)));
    // a configuration outside the sector yields no element
    assert_eq!(find_leading_state(16, &table, &s), None);
    let _ = dec_to_ind;
}

#[test]
fn coeff_is_the_pair_of_squared_norms() {
    let s = chain_basis();
    let r = coeff(&s.funcs[1], &s.funcs[3]);
    assert_eq!(r, (8, 4));
}

#[test]
fn ising_all_up_chain_counts_four_aligned_bonds() {
    let s = chain_basis();
    let sites = interacting_sites(4, 1, 1);
    // the all-up representative has four aligned bonds and none opposed
    let count = ss_z_elements(&sites, &s.funcs[5]);
    assert_eq!(count, 4);
    assert_eq!(0.25 * count as f64, 1.0);
    // one up spin among four: two bonds aligned, two opposed
    assert_eq!(ss_z_elements(&sites, &s.funcs[1]), 0);
}

#[test]
fn ising_matrix_is_diagonal() {
    let s = chain_basis();
    let sites = interacting_sites(4, 1, 1);
    let m = ss_z_matrix(&sites, &s);
    assert_eq!(m.nrows, 6);
    assert_eq!(m.ncols, 6);
    assert_eq!(m.row, m.col);
    assert_eq!(m.row, vec![0, 1, 2, 3, 4, 5]);
    assert_eq!(m.data, vec![4, 0, 0, -4, 0, 4]);
}

#[test]
fn exchange_row_of_one_down_spin() {
    let s = chain_basis();
    let sites = interacting_sites(4, 1, 1);
    let table = build_rep_table(&s);
    let (_, dec_to_ind) = gen_ind_dec_conv_dicts(&s);
    let terms = ss_pm_elements(&sites, &s.funcs[1], &dec_to_ind, &table, &s);
    // the single up spin hops along its two incident bonds, both landing
    // back in the same orbit
    assert_eq!(terms.len(), 2);
    for t in terms.iter() {
        assert_eq!(t.col, 1);
        assert_eq!((t.norm_num, t.norm_den), (4, 4));
        assert_eq!(t.phase_num, 0);
    }
}

#[test]
fn exchange_matrix_is_hermitian() {
    let s = chain_basis();
    let den = s.phase_den;
    let n = s.funcs.len();
    let sites = interacting_sites(4, 1, 1);
    let table = build_rep_table(&s);
    let (_, dec_to_ind) = gen_ind_dec_conv_dicts(&s);
    let m = ss_pm_matrix(&sites, &dec_to_ind, &table, &s);
    let mut h = vec![vec![Complex::new(0.0, 0.0); n]; n];
    for k in 0..m.data.len() {
        h[m.row[k] as usize][m.col[k] as usize] += term_value(&m.data[k], den);
    }
    let mut nonzero = 0;
    for i in 0..n {
        for j in 0..n {
            let d = h[i][j] - h[j][i].conj();
            assert!(d.norm() < 1e-12);
            if h[i][j].norm() > 1e-12 {
                nonzero += 1;
            }
        }
    }
    assert!(nonzero > 0);
}

#[test]
fn pair_flip_row_of_the_all_up_state() {
    let s = chain_basis();
    let sites = interacting_sites(4, 1, 1);
    let table = build_rep_table(&s);
    let (_, dec_to_ind) = gen_ind_dec_conv_dicts(&s);
    let terms = ss_ppmm_elements(4, 1, &sites, &s.funcs[5], &dec_to_ind, &table, &s);
    // every bond lowers its two up spins, always reaching the two-down orbit
    assert_eq!(terms.len(), 4);
    for t in terms.iter() {
        assert_eq!(t.col, 2);
        assert_eq!((t.norm_num, t.norm_den), (4, 16));
        // lowering conjugates the geometric phase
        assert!(t.g.re != 0 || t.g.im != 0);
    }
}

#[test]
fn mixed_row_of_the_all_up_state() {
    let s = chain_basis();
    let sites = interacting_sites(4, 1, 1);
    let table = build_rep_table(&s);
    let (_, dec_to_ind) = gen_ind_dec_conv_dicts(&s);
    let terms = ss_pmz_elements(4, 1, &sites, &s.funcs[5], &dec_to_ind, &table, &s);
    // both orders of all four bonds lower one spin into the one-down orbit
    assert_eq!(terms.len(), 8);
    for t in terms.iter() {
        assert_eq!(t.col, 4);
        assert_eq!((t.norm_num, t.norm_den), (4, 16));
    }
}
