use triangular_lattice_ext::bonds::{all_sites, generate_bonds, interacting_sites,
    triangular_vert_sites};
use triangular_lattice_ext::config::{exchange_spin_flips, repeated_spins};
use triangular_lattice_ext::phase::gamma;
use triangular_lattice_ext::translate::{translate_x, translate_y};

#[test]
fn translate_x_steps_and_cycle() {
    // a 4 x 1 chain: one step moves each bit up one site, wrapping around
    assert_eq!(translate_x(0b0001, 4, 1), 0b0010);
    assert_eq!(translate_x(0b1000, 4, 1), 0b0001);
    let mut dec: u64 = 0b0110;
    for _ in 0..4 {
        dec = translate_x(dec, 4, 1);
    }
    assert_eq!(dec, 0b0110);
    // two rows rotate independently
    assert_eq!(translate_x(0b10_01, 2, 2), 0b01_10);
}

#[test]
fn translate_y_steps_and_cycle() {
    // a 2 x 2 lattice: one y step swaps the two rows
    assert_eq!(translate_y(0b0011, 2, 2), 0b1100);
    let mut dec: u64 = 0b0111;
    for _ in 0..2 {
        dec = translate_y(dec, 2, 2);
    }
    assert_eq!(dec, 0b0111);
    // a 4 x 1 chain has a trivial y translation
    assert_eq!(translate_y(0b1010, 4, 1), 0b1010);
}

#[test]
fn spin_pair_classes_are_exclusive() {
    for dec in 0u64..16 {
        let (upup, downdown) = repeated_spins(dec, 1, 2);
        let (updown, downup) = exchange_spin_flips(dec, 1, 2);
        let count = [upup, downdown, updown, downup].iter().filter(|&&b| b).count();
        assert_eq!(count, 1);
    }
    let (updown, downup) = exchange_spin_flips(0b01, 1, 2);
    assert!(updown);
    assert!(!downup);
    let (upup, downdown) = repeated_spins(0b11, 1, 2);
    assert!(upup);
    assert!(!downdown);
}

#[test]
fn interacting_sites_on_a_four_site_chain() {
    let (site1, site2) = interacting_sites(4, 1, 1);
    assert_eq!(site1.len(), 4);
    assert_eq!(site2.len(), 4);
    assert_eq!(site1, vec![1, 2, 4, 1]);
    assert_eq!(site2, vec![2, 4, 8, 8]);
    for (&a, &b) in site1.iter().zip(site2.iter()) {
        assert_eq!(a.count_ones(), 1);
        assert_eq!(b.count_ones(), 1);
        // nearest neighbours on the chain sit one site apart
        let d = (a.trailing_zeros() as i64 - b.trailing_zeros() as i64).rem_euclid(4);
        assert!(d == 1 || d == 3);
    }
}

#[test]
fn generate_bonds_buckets_three_ranges() {
    let bonds = generate_bonds(3, 3);
    assert_eq!(bonds.len(), 3);
    // on a 3 x 3 lattice every site contributes three nearest bonds
    assert_eq!(bonds[0].len(), 27);
    for bond in bonds[0].iter() {
        assert_eq!(bond.len(), 2);
        assert!(bond[0].lattice_index() <= bond[1].lattice_index());
    }
}

#[test]
fn triangles_on_a_two_by_two_lattice() {
    let (s1, s2, s3) = triangular_vert_sites(2, 2);
    assert_eq!(s1.len(), 8);
    assert_eq!(s2.len(), 8);
    assert_eq!(s3.len(), 8);
    for k in 0..8 {
        assert_eq!(s1[k].count_ones(), 1);
        assert_eq!(s2[k].count_ones(), 1);
        assert_eq!(s3[k].count_ones(), 1);
        // the three vertices of one triangle are three different sites
        assert_ne!(s1[k], s2[k]);
        assert_ne!(s1[k], s3[k]);
        assert_ne!(s2[k], s3[k]);
    }
}

#[test]
fn all_sites_pairs_every_site_once() {
    let (site1, site2) = all_sites(2, 2, 1);
    assert_eq!(site1, vec![1, 2, 4, 8]);
    // separation 1 pairs each site with its x neighbour
    assert_eq!(site2, vec![2, 1, 8, 4]);
}

fn gamma_value(re: i64, im: i64) -> num_complex::Complex<f64> {
    let norm = ((re * re + 3 * im * im) as f64).sqrt();
    num_complex::Complex::new(re as f64 / norm, im as f64 * 3f64.sqrt() / norm)
}

#[test]
fn gamma_is_unit_and_conjugate_symmetric() {
    for (s1, s2) in [(1u64, 2u64), (2, 4), (1, 8), (2, 8), (4, 8)] {
        let g12 = gamma(4, 2, s1, s2);
        let g21 = gamma(4, 2, s2, s1);
        // swapping the sites conjugates the exact representation
        assert_eq!(g21.re, g12.re);
        assert_eq!(g21.im, -g12.im);
        // the represented complex number has unit modulus
        let v = gamma_value(g12.re, g12.im);
        assert!((v.norm() - 1.0).abs() < 1e-12);
    }
    // two sites on the x axis subtend no angle
    let g = gamma(4, 1, 1, 2);
    assert_eq!(g.re, 2);
    assert_eq!(g.im, 0);
}
