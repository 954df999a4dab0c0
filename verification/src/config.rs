use vstd::prelude::*;

verus! {

use vstd::arithmetic::power2::{pow2, lemma_pow2_adds, lemma_pow2_pos, lemma2_to64};
use vstd::bits::{lemma_u64_pow2_no_overflow, lemma_u64_shl_is_mul};

/// A spin configuration: one bit per lattice site, bit `i` set means site
/// `i` carries an up spin. `s` is a site's single-bit mask.
pub open spec fn spin_up(dec: u64, s: u64) -> bool {
    dec | s == dec
}

/// A mask holding exactly one set bit, i.e. one site.
pub open spec fn single_bit(s: u64) -> bool {
    exists|i: nat| i < 64 && s == pow2(i)
}

/// The exponent of a single-bit mask: the site index it designates.
pub open spec fn bit_index(s: u64) -> nat
    recommends
        single_bit(s),
{
    choose|i: nat| i < 64 && s == pow2(i)
}

pub proof fn lemma_shl_is_pow2(i: u64)
    requires
        i < 64,
    ensures
        (1u64 << i) == pow2(i as nat),
{
    lemma_u64_pow2_no_overflow(i as nat);
    lemma_u64_shl_is_mul(1u64, i);
}

/// `pow2` is injective below 64, so a single-bit mask names one site only.
pub proof fn lemma_pow2_injective(i: nat, j: nat)
    requires
        i < 64,
        j < 64,
        pow2(i) == pow2(j),
    ensures
        i == j,
{
    if i < j {
        vstd::arithmetic::power2::lemma_pow2_strictly_increases(i, j);
    } else if j < i {
        vstd::arithmetic::power2::lemma_pow2_strictly_increases(j, i);
    }
}

/// Whether sites `s1`, `s2` hold opposite spins in `dec`: first up-then-down,
/// then down-then-up, in site order.
pub open spec fn spec_exchange_spin_flips(dec: u64, s1: u64, s2: u64) -> (bool, bool) {
    (spin_up(dec, s1) && !spin_up(dec, s2), !spin_up(dec, s1) && spin_up(dec, s2))
}

/// Whether sites `s1`, `s2` hold aligned spins in `dec`: both up, then both
/// down.
pub open spec fn spec_repeated_spins(dec: u64, s1: u64, s2: u64) -> (bool, bool) {
    (spin_up(dec, s1) && spin_up(dec, s2), !spin_up(dec, s1) && !spin_up(dec, s2))
}

/// Classify a site pair as an exchange pair: `r.0` says site `s1` is up while
/// `s2` is down, `r.1` the reverse.
pub fn exchange_spin_flips(dec: u64, s1: u64, s2: u64) -> (r: (bool, bool))
    ensures
        r == spec_exchange_spin_flips(dec, s1, s2),
{
    let updown = (dec | s1 == dec) && (dec | s2 != dec);
    let downup = (dec | s1 != dec) && (dec | s2 == dec);
    (updown, downup)
}

/// Classify a site pair as aligned: `r.0` says both sites are up, `r.1` that
/// both are down.
pub fn repeated_spins(dec: u64, s1: u64, s2: u64) -> (r: (bool, bool))
    ensures
        r == spec_repeated_spins(dec, s1, s2),
{
    let upup = (dec | s1 == dec) && (dec | s2 == dec);
    let downdown = (dec | s1 != dec) && (dec | s2 != dec);
    (upup, downdown)
}

/// For any configuration and any two distinct single-bit site masks, exactly
/// one of the four pair classes holds: both up, both down, up-then-down, or
/// down-then-up.
pub proof fn lemma_pair_classification(dec: u64, s1: u64, s2: u64)
    requires
        single_bit(s1),
        single_bit(s2),
        s1 != s2,
    ensures
        ({
            let (upup, downdown) = spec_repeated_spins(dec, s1, s2);
            let (updown, downup) = spec_exchange_spin_flips(dec, s1, s2);
            let count = (if upup { 1int } else { 0 }) + (if downdown { 1int } else { 0 })
                + (if updown { 1int } else { 0 }) + (if downup { 1int } else { 0 });
            count == 1
        }),
{
}

/// A site that is up contributes its whole mask to the configuration.
pub proof fn lemma_up_site_le(dec: u64, i: u64)
    requires
        i < 64,
        dec | (1u64 << i) == dec,
    ensures
        dec >= (1u64 << i),
{
    assert(dec | (1u64 << i) == dec ==> dec >= (1u64 << i)) by (bit_vector);
}

/// A site that is down leaves room to raise it without overflow.
pub proof fn lemma_down_site_add_ok(dec: u64, i: u64)
    requires
        i < 64,
        dec | (1u64 << i) != dec,
    ensures
        dec <= u64::MAX - (1u64 << i),
{
    assert(dec | (1u64 << i) != dec ==> dec <= u64::MAX - (1u64 << i)) by (bit_vector);
}

/// Lowering one up site keeps a distinct down site down, and leaves room to
/// raise it: the exchange move `dec - s1 + s2` stays in range.
pub proof fn lemma_exchange_in_range(dec: u64, i: u64, j: u64)
    requires
        i < 64,
        j < 64,
        i != j,
        dec | (1u64 << i) == dec,
        dec | (1u64 << j) != dec,
    ensures
        dec >= (1u64 << i),
        dec - (1u64 << i) <= u64::MAX - (1u64 << j),
{
    lemma_up_site_le(dec, i);
    assert((dec | (1u64 << i) == dec && dec | (1u64 << j) != dec && i != j) ==> dec - (1u64 << i)
        <= u64::MAX - (1u64 << j)) by (bit_vector);
}

/// Two distinct up sites can both be lowered: `dec - s1 - s2` stays in range.
pub proof fn lemma_both_up_in_range(dec: u64, i: u64, j: u64)
    requires
        i < 64,
        j < 64,
        i != j,
        dec | (1u64 << i) == dec,
        dec | (1u64 << j) == dec,
    ensures
        dec >= (1u64 << i) + (1u64 << j),
{
    assert((dec | (1u64 << i) == dec && dec | (1u64 << j) == dec && i != j) ==> dec >= (1u64 << i)
        + (1u64 << j)) by (bit_vector);
}

/// Two distinct down sites can both be raised: `dec + s1 + s2` stays in range.
pub proof fn lemma_both_down_in_range(dec: u64, i: u64, j: u64)
    requires
        i < 64,
        j < 64,
        i != j,
        dec | (1u64 << i) != dec,
        dec | (1u64 << j) != dec,
    ensures
        dec + (1u64 << i) + (1u64 << j) <= u64::MAX,
{
    assert((dec | (1u64 << i) != dec && dec | (1u64 << j) != dec && i != j) ==> dec + (1u64 << i)
        + (1u64 << j) <= u64::MAX) by (bit_vector);
}

/// Compute `2^e` as a machine word.
pub fn pow2_u64(e: u32) -> (r: u64)
    requires
        e < 64,
    ensures
        r == pow2(e as nat),
{
    proof {
        lemma_shl_is_pow2(e as u64);
    }
    1u64 << (e as u64)
}

/// Recover the site index of a single-bit mask: the position of its set bit.
pub fn mask_site_index(s: u64) -> (i: u32)
    requires
        single_bit(s),
    ensures
        i < 64,
        s == pow2(i as nat),
        i == bit_index(s),
{
    let mut i: u32 = 0;
    let mut t: u64 = s;
    proof {
        let gi = choose|gi: nat| gi < 64 && s == pow2(gi);
        assert(pow2(0) == 1) by { lemma2_to64() };
    }
    while t % 2 == 0
        invariant
            single_bit(s),
            i < 64,
            exists|j: nat| j + (i as nat) < 64 && t == #[trigger] pow2(j) && s == pow2(j + (i as nat)),
        decreases t,
    {
        proof {
            let j = choose|j: nat| j + (i as nat) < 64 && t == #[trigger] pow2(j) && s == pow2(j + (i as nat));
            if j == 0 {
                assert(pow2(0) == 1) by { lemma2_to64() };
                assert(false);
            }
            assert(pow2(j) == 2 * pow2((j - 1) as nat)) by {
                lemma_pow2_adds(1, (j - 1) as nat);
                lemma2_to64();
            }
            lemma_pow2_pos((j - 1) as nat);
            assert(t / 2 == pow2((j - 1) as nat));
        }
        t = t / 2;
        i = i + 1;
    }
    proof {
        let j = choose|j: nat| j + (i as nat) < 64 && t == #[trigger] pow2(j) && s == pow2(j + (i as nat));
        if j > 0 {
            assert(pow2(j) == 2 * pow2((j - 1) as nat)) by {
                lemma_pow2_adds(1, (j - 1) as nat);
                lemma2_to64();
            }
            assert(t % 2 == 0);
        }
        assert(j == 0);
        assert(pow2(0) == 1) by { lemma2_to64() };
        assert(s == pow2(i as nat));
        let bi = bit_index(s);
        lemma_pow2_injective(bi, i as nat);
    }
    i
}

} // verus!
