use vstd::prelude::*;

verus! {

use vstd::arithmetic::power2::{
    pow2,
    lemma_pow2_adds,
    lemma_pow2_pos,
    lemma2_to64,
    lemma2_to64_rest,
};
use vstd::arithmetic::div_mod::{
    lemma_fundamental_div_mod,
    lemma_fundamental_div_mod_converse,
    lemma_mod_bound,
    lemma_small_mod,
    lemma_mod_self_0,
    lemma_mod_sub_multiples_vanish,
    lemma_add_mod_noop,
    lemma_mod_multiples_basic,
    lemma_multiply_divide_lt,
};
use vstd::arithmetic::div_mod::lemma_div_denominator;
use crate::config::pow2_u64;

/// Rotate the low `w` bits of `v` left by `k`: the top `k` bits wrap around
/// to the bottom. Stated arithmetically: the low `w - k` bits are shifted up
/// by `k` places and the high `k` bits drop to the bottom.
pub open spec fn spec_rotl(v: nat, k: nat, w: nat) -> nat
    recommends
        k <= w,
{
    (v % pow2((w - k) as nat)) * pow2(k) + v / pow2((w - k) as nat)
}

/// Rotating by zero changes nothing.
pub proof fn lemma_rotl_zero(v: nat, w: nat)
    requires
        v < pow2(w),
    ensures
        spec_rotl(v, 0, w) == v,
{
    lemma_pow2_pos(w);
    lemma_small_mod(v, pow2(w));
    assert(v / pow2(w) == 0) by (nonlinear_arith)
        requires
            0 < pow2(w),
            v < pow2(w),
    ;
    assert(pow2(0) == 1) by { lemma2_to64() };
}

/// Rotating a `w`-bit value by the full width `w` changes nothing.
pub proof fn lemma_rotl_full(v: nat, w: nat)
    requires
        v < pow2(w),
    ensures
        spec_rotl(v, w, w) == v,
{
    assert(pow2(0) == 1) by { lemma2_to64() };
    assert((w - w) as nat == 0);
    assert(v % 1nat == 0 && v / 1nat == v) by (nonlinear_arith);
    assert(spec_rotl(v, w, w) == (v % 1nat) * pow2(w) + v / 1nat);
    assert(0nat * pow2(w) == 0) by (nonlinear_arith);
}

/// A rotation keeps the value inside its `w`-bit range.
pub proof fn lemma_rotl_bound(v: nat, k: nat, w: nat)
    requires
        k <= w,
        v < pow2(w),
    ensures
        spec_rotl(v, k, w) < pow2(w),
{
    let e = (w - k) as nat;
    lemma_pow2_pos(e);
    lemma_pow2_pos(k);
    lemma_pow2_adds(e, k);
    let l = v % pow2(e);
    let h = v / pow2(e);
    lemma_mod_bound(v as int, pow2(e) as int);
    lemma_multiply_divide_lt(v as int, pow2(e) as int, pow2(k) as int);
    assert(l * pow2(k) + h < pow2(e) * pow2(k)) by (nonlinear_arith)
        requires
            l < pow2(e),
            h < pow2(k),
            0 < pow2(e),
            0 < pow2(k),
    ;
}

/// Two successive rotations amount to one rotation by the total shift,
/// reduced by the width when it wraps past it.
pub proof fn lemma_rotl_add(v: nat, a: nat, b: nat, w: nat)
    requires
        a <= w,
        b <= w,
        v < pow2(w),
    ensures
        a + b <= w ==> spec_rotl(spec_rotl(v, a, w), b, w) == spec_rotl(v, a + b, w),
        a + b > w ==> spec_rotl(spec_rotl(v, a, w), b, w) == spec_rotl(v, (a + b - w) as nat, w),
{
    let ea = (w - a) as nat;
    lemma_pow2_pos(ea);
    lemma_pow2_adds(ea, a);
    let l = v % pow2(ea);
    let h = v / pow2(ea);
    lemma_fundamental_div_mod(v as int, pow2(ea) as int);
    lemma_mod_bound(v as int, pow2(ea) as int);
    lemma_pow2_pos(a);
    lemma_multiply_divide_lt(v as int, pow2(ea) as int, pow2(a) as int);
    assert(v == h * pow2(ea) + l) by (nonlinear_arith)
        requires
            v == pow2(ea) * h + l,
    ;
    let u = spec_rotl(v, a, w);
    assert(u == l * pow2(a) + h);
    if a + b <= w {
        let eab = (w - a - b) as nat;
        lemma_pow2_pos(eab);
        lemma_pow2_pos(b);
        lemma_pow2_adds(eab, b);
        lemma_pow2_adds(eab, a);
        lemma_pow2_adds(a, b);
        lemma_pow2_adds((eab + a) as nat, b);
        let ll = l % pow2(eab);
        let lh = l / pow2(eab);
        lemma_fundamental_div_mod(l as int, pow2(eab) as int);
        lemma_mod_bound(l as int, pow2(eab) as int);
        lemma_multiply_divide_lt(l as int, pow2(eab) as int, pow2(b) as int);
        assert(l == lh * pow2(eab) + ll) by (nonlinear_arith)
            requires
                l == pow2(eab) * lh + ll,
        ;
        // u splits at the exponent w - b = eab + a
        assert(u == lh * pow2((eab + a) as nat) + (ll * pow2(a) + h)) by (nonlinear_arith)
            requires
                u == l * pow2(a) + h,
                l == lh * pow2(eab) + ll,
                pow2((eab + a) as nat) == pow2(eab) * pow2(a),
        ;
        assert(ll * pow2(a) + h < pow2((eab + a) as nat)) by (nonlinear_arith)
            requires
                ll < pow2(eab),
                h < pow2(a),
                0 < pow2(a),
                pow2((eab + a) as nat) == pow2(eab) * pow2(a),
        ;
        lemma_fundamental_div_mod_converse(
            u as int,
            pow2((eab + a) as nat) as int,
            lh as int,
            (ll * pow2(a) + h) as int,
        );
        assert(u % pow2((eab + a) as nat) == ll * pow2(a) + h);
        assert(u / pow2((eab + a) as nat) == lh);
        assert((w - b) as nat == (eab + a) as nat);
        // v splits at the exponent eab
        assert(v == (h * pow2(b) + lh) * pow2(eab) + ll) by (nonlinear_arith)
            requires
                v == h * pow2(ea) + l,
                l == lh * pow2(eab) + ll,
                pow2(ea) == pow2(eab) * pow2(b),
        ;
        assert(h * pow2(b) + lh >= 0) by (nonlinear_arith)
            requires
                0 < pow2(b),
        ;
        lemma_fundamental_div_mod_converse(
            v as int,
            pow2(eab) as int,
            (h * pow2(b) + lh) as int,
            ll as int,
        );
        assert(spec_rotl(v, (a + b) as nat, w) == ll * pow2((a + b) as nat) + (h * pow2(b) + lh));
        assert(spec_rotl(u, b, w) == (ll * pow2(a) + h) * pow2(b) + lh);
        assert((ll * pow2(a) + h) * pow2(b) + lh == ll * pow2((a + b) as nat) + (h * pow2(b) + lh))
            by (nonlinear_arith)
            requires
                pow2((a + b) as nat) == pow2(a) * pow2(b),
        ;
    } else {
        let c = (a + b - w) as nat;
        let ac = (a - c) as nat;
        lemma_pow2_pos(ac);
        lemma_pow2_pos(c);
        lemma_pow2_pos(b);
        lemma_pow2_adds(ac, c);
        lemma_pow2_adds(ac, ea);
        lemma_pow2_adds(ea, c);
        let hl = h % pow2(ac);
        let hh = h / pow2(ac);
        lemma_fundamental_div_mod(h as int, pow2(ac) as int);
        lemma_mod_bound(h as int, pow2(ac) as int);
        lemma_multiply_divide_lt(h as int, pow2(ac) as int, pow2(c) as int);
        assert(h == hh * pow2(ac) + hl) by (nonlinear_arith)
            requires
                h == pow2(ac) * hh + hl,
        ;
        // u splits at the exponent w - b = a - c
        assert(u == (l * pow2(c) + hh) * pow2(ac) + hl) by (nonlinear_arith)
            requires
                u == l * pow2(a) + h,
                h == hh * pow2(ac) + hl,
                pow2(a) == pow2(ac) * pow2(c),
        ;
        assert(l * pow2(c) + hh >= 0) by (nonlinear_arith)
            requires
                0 < pow2(c),
        ;
        lemma_fundamental_div_mod_converse(
            u as int,
            pow2(ac) as int,
            (l * pow2(c) + hh) as int,
            hl as int,
        );
        assert((w - b) as nat == ac);
        assert(spec_rotl(u, b, w) == hl * pow2(b) + (l * pow2(c) + hh));
        // v splits at the exponent w - c = ac + ea
        assert(v == hh * pow2((ac + ea) as nat) + (hl * pow2(ea) + l)) by (nonlinear_arith)
            requires
                v == h * pow2(ea) + l,
                h == hh * pow2(ac) + hl,
                pow2((ac + ea) as nat) == pow2(ac) * pow2(ea),
        ;
        assert(hl * pow2(ea) + l < pow2((ac + ea) as nat)) by (nonlinear_arith)
            requires
                hl < pow2(ac),
                l < pow2(ea),
                0 < pow2(ea),
                pow2((ac + ea) as nat) == pow2(ac) * pow2(ea),
        ;
        lemma_fundamental_div_mod_converse(
            v as int,
            pow2((ac + ea) as nat) as int,
            hh as int,
            (hl * pow2(ea) + l) as int,
        );
        assert((w - c) as nat == (ac + ea) as nat);
        assert(spec_rotl(v, c, w) == (hl * pow2(ea) + l) * pow2(c) + hh);
        assert((hl * pow2(ea) + l) * pow2(c) + hh == hl * pow2(b) + (l * pow2(c) + hh))
            by (nonlinear_arith)
            requires
                pow2(b) == pow2(ea) * pow2(c),
        ;
    }
}

/// `t` successive rotations of a `w`-bit value by `k` places each.
pub open spec fn spec_rotl_iter(v: nat, k: nat, w: nat, t: nat) -> nat
    decreases t,
{
    if t == 0 {
        v
    } else {
        spec_rotl(spec_rotl_iter(v, k, w, (t - 1) as nat), k, w)
    }
}

pub proof fn lemma_rotl_iter_bound(v: nat, k: nat, w: nat, t: nat)
    requires
        k <= w,
        v < pow2(w),
    ensures
        spec_rotl_iter(v, k, w, t) < pow2(w),
    decreases t,
{
    if t > 0 {
        lemma_rotl_iter_bound(v, k, w, (t - 1) as nat);
        lemma_rotl_bound(spec_rotl_iter(v, k, w, (t - 1) as nat), k, w);
    }
}

/// Iterated rotations reduce to a single rotation by the total shift modulo
/// the width.
pub proof fn lemma_rotl_iter_shift(v: nat, k: nat, w: nat, t: nat)
    requires
        1 <= w,
        k <= w,
        v < pow2(w),
    ensures
        spec_rotl_iter(v, k, w, t) == spec_rotl(v, ((k * t) % w) as nat, w),
    decreases t,
{
    let m = w as int;
    let ki = k as int;
    let ti = t as int;
    if t == 0 {
        assert(ki * 0 == 0) by (nonlinear_arith);
        assert(0int % m == 0);
        lemma_rotl_zero(v, w);
    } else {
        lemma_rotl_iter_shift(v, k, w, (t - 1) as nat);
        let s = (ki * (ti - 1)) % m;
        lemma_mod_bound(ki * (ti - 1), m);
        let prev = spec_rotl_iter(v, k, w, (t - 1) as nat);
        assert(prev == spec_rotl(v, s as nat, w));
        lemma_rotl_add(v, s as nat, k, w);
        assert(ki * ti == ki * (ti - 1) + ki) by (nonlinear_arith);
        lemma_add_mod_noop(ki * (ti - 1), ki, m);
        assert((ki * ti) % m == (s + (ki % m)) % m);
        if k == w {
            // one extra full-width rotation: the shift wraps back to s
            lemma_mod_self_0(m);
            lemma_small_mod(s as nat, w);
            assert((ki * ti) % m == s);
            if s == 0 {
                lemma_rotl_zero(v, w);
                lemma_rotl_full(v, w);
            }
        } else {
            lemma_small_mod(k, w);
            assert((ki * ti) % m == (s + ki) % m);
            if s + ki < m {
                lemma_small_mod((s + ki) as nat, w);
            } else if s + ki == m {
                lemma_mod_self_0(m);
                lemma_rotl_full(v, w);
                lemma_rotl_zero(v, w);
            } else {
                lemma_mod_sub_multiples_vanish(s + ki, m);
                lemma_small_mod((s + ki - m) as nat, w);
            }
        }
        assert(k * t == ki * ti);
    }
}

/// Shift every site one lattice vector along the y axis, with periodic
/// wraparound: a cyclic rotation of the whole configuration word by one row
/// of `nx` bits.
pub open spec fn spec_translate_y(dec: nat, nx: nat, ny: nat) -> nat
    recommends
        1 <= nx,
        1 <= ny,
{
    spec_rotl(dec, (nx * ny - nx) as nat, nx * ny)
}

/// Shift every site one lattice vector along the x axis, with periodic
/// wraparound: each row of `nx` bits is cyclically rotated left by one,
/// independently of the other rows.
pub open spec fn spec_translate_x(dec: nat, nx: nat, ny: nat) -> nat
    decreases ny,
{
    if ny == 0 {
        0
    } else {
        spec_rotl(dec % pow2(nx), 1, nx) + spec_translate_x(dec / pow2(nx), nx, (ny - 1) as nat)
            * pow2(nx)
    }
}

/// Apply the y translation to a configuration.
pub fn translate_y(dec: u64, nx: u32, ny: u32) -> (r: u64)
    requires
        1 <= nx,
        1 <= ny,
        nx * ny <= 64,
        dec < pow2((nx * ny) as nat),
    ensures
        r == spec_translate_y(dec as nat, nx as nat, ny as nat),
        r < pow2((nx * ny) as nat),
{
    let ghost w = (nx * ny) as nat;
    let ghost k = (w - nx) as nat;
    proof {
        assert(nx <= nx * ny) by (nonlinear_arith)
            requires
                1 <= ny,
                0 <= nx,
        ;
        lemma_rotl_bound(dec as nat, k, w);
    }
    if ny == 1 {
        proof {
            lemma_rotl_zero(dec as nat, w);
        }
        dec
    } else {
        proof {
            assert(nx < 64 && nx * (ny - 1) < 64 && nx * (ny - 1) == nx * ny - nx)
                by (nonlinear_arith)
                requires
                    2 <= ny,
                    1 <= nx,
                    nx * ny <= 64,
            ;
        }
        let xdim = pow2_u64(nx);
        let pred = pow2_u64(nx * (ny - 1));
        proof {
            lemma_pow2_pos(nx as nat);
        }
        let tail = dec % xdim;
        proof {
            lemma_pow2_pos(k);
            lemma_pow2_adds(nx as nat, k);
            lemma_mod_bound(dec as int, pow2(nx as nat) as int);
            lemma_multiply_divide_lt(dec as int, pow2(nx as nat) as int, pow2(k) as int);
            assert((tail as nat) * pow2(k) + (dec as nat) / pow2(nx as nat) < pow2(w))
                by (nonlinear_arith)
                requires
                    (tail as nat) < pow2(nx as nat),
                    (dec as nat) / pow2(nx as nat) < pow2(k),
                    0 < pow2(k),
                    pow2(w) == pow2(nx as nat) * pow2(k),
            ;
            lemma_pow2_le_max64(w);
        }
        dec / xdim + tail * pred
    }
}

/// Every power of two up to the word width fits the word's value range.
pub proof fn lemma_pow2_le_max64(w: nat)
    requires
        w <= 64,
    ensures
        pow2(w) <= 0x10000000000000000,
{
    if w < 64 {
        vstd::arithmetic::power2::lemma_pow2_strictly_increases(w, 64);
    }
    lemma2_to64_rest();
}

/// Rotate one row of `nx` bits left by one place.
fn row_rotl1(row: u64, nx: u32) -> (r: u64)
    requires
        1 <= nx,
        nx <= 63,
        row < pow2(nx as nat),
    ensures
        r == spec_rotl(row as nat, 1, nx as nat),
        r < pow2(nx as nat),
{
    proof {
        lemma_rotl_bound(row as nat, 1, nx as nat);
        lemma_pow2_pos((nx - 1) as nat);
        lemma_pow2_adds((nx - 1) as nat, 1);
        lemma2_to64();
        lemma_mod_bound(row as int, pow2((nx - 1) as nat) as int);
        lemma_pow2_le_max64(nx as nat);
        let m = (row as nat) % pow2((nx - 1) as nat);
        let p = pow2((nx - 1) as nat);
        assert(m * 2 < p * 2) by (nonlinear_arith)
            requires
                m < p,
        ;
    }
    let half = pow2_u64(nx - 1);
    (row % half) * 2 + row / half
}

/// Apply the x translation to a configuration.
pub fn translate_x(dec: u64, nx: u32, ny: u32) -> (r: u64)
    requires
        1 <= nx,
        1 <= ny,
        nx * ny <= 64,
        dec < pow2((nx * ny) as nat),
    ensures
        r == spec_translate_x(dec as nat, nx as nat, ny as nat),
        r < pow2((nx * ny) as nat),
{
    let ghost w = (nx * ny) as nat;
    if nx == 64 {
        proof {
            assert(ny == 1) by (nonlinear_arith)
                requires
                    nx == 64,
                    1 <= ny,
                    nx * ny <= 64,
            ;
            lemma_pow2_le_max64(64);
            lemma_small_mod(dec as nat, pow2(64));
            lemma_pow2_pos(64);
            assert((dec as nat) / pow2(64) == 0) by (nonlinear_arith)
                requires
                    (dec as nat) < pow2(64),
                    0 < pow2(64),
            ;
            assert(spec_translate_x(0, 64, 0) == 0);
            assert(spec_translate_x(dec as nat, 64, 1) == spec_rotl((dec as nat) % pow2(64), 1, 64)
                + spec_translate_x((dec as nat) / pow2(64), 64, 0) * pow2(64));
            assert(0nat * pow2(64) == 0) by (nonlinear_arith);
            assert(spec_translate_x(dec as nat, 64, 1) == spec_rotl(dec as nat, 1, 64));
        }
        let r = (dec << 1u64) | (dec >> 63u64);
        proof {
            lemma2_to64();
            lemma2_to64_rest();
            assert(((dec << 1u64) | (dec >> 63u64)) == (dec % 0x8000000000000000u64) * 2 + dec
                / 0x8000000000000000u64) by (bit_vector);
            assert(spec_rotl(dec as nat, 1, 64) == ((dec as nat) % pow2(63)) * pow2(1) + (dec as nat)
                / pow2(63));
            lemma_rotl_bound(dec as nat, 1, 64);
        }
        r
    } else {
        proof {
            assert(nx <= nx * ny) by (nonlinear_arith)
                requires
                    1 <= ny,
                    0 <= nx,
            ;
        }
        let xdim = pow2_u64(nx);
        let mut acc: u64 = 0;
        let mut rem: u64 = dec;
        let mut row_i: u32 = 0;
        proof {
            lemma_pow2_pos(0);
            lemma2_to64();
            assert((dec as nat) / pow2(0) == dec as nat) by (nonlinear_arith)
                requires
                    pow2(0) == 1,
        ;
        }
        while row_i < ny
            invariant
                1 <= nx,
                nx <= 63,
                1 <= ny,
                nx * ny <= 64,
                row_i <= ny,
                xdim == pow2(nx as nat),
                dec < pow2((nx * ny) as nat),
                rem == (dec as nat) / pow2((row_i * nx) as nat),
                acc < pow2((row_i * nx) as nat),
                acc + spec_translate_x(rem as nat, nx as nat, (ny - row_i) as nat) * pow2(
                    (row_i * nx) as nat,
                ) == spec_translate_x(dec as nat, nx as nat, ny as nat),
            decreases ny - row_i,
        {
            let ghost ri = row_i as nat;
            let ghost nxn = nx as nat;
            let ghost rem0 = rem as nat;
            let ghost wl = (nx * ny) as nat;
            proof {
                assert((ri + 1) * nxn <= wl && ri * nxn + nxn == (ri + 1) * nxn && ri * nxn < wl
                    && ri * nxn + (ny as nat - ri) * nxn == wl) by (nonlinear_arith)
                    requires
                        ri < ny as nat,
                        wl == nxn * (ny as nat),
                        1 <= nxn,
                ;
                assert(ri * nxn < 64);
                lemma_pow2_pos((ri * nxn) as nat);
                lemma_pow2_pos(nxn);
                // the remaining word is bounded by the rows it still holds
                lemma_pow2_adds((ri * nxn) as nat, ((ny as nat - ri) * nxn) as nat);
                lemma_multiply_divide_lt(
                    dec as int,
                    pow2((ri * nxn) as nat) as int,
                    pow2(((ny as nat - ri) * nxn) as nat) as int,
                );
            }
            let row = rem % xdim;
            proof {
                lemma_mod_bound(rem as int, pow2(nxn) as int);
            }
            let rot = row_rotl1(row, nx);
            proof {
                assert(row_i * nx < 64);
            }
            let shift_mult = pow2_u64(row_i * nx);
            proof {
                // the shifted rotated row lands above everything gathered so far
                lemma_pow2_adds((ri * nxn) as nat, nxn);
                lemma_pow2_le_max64(((ri + 1) * nxn) as nat);
                assert((rot as nat) * pow2((ri * nxn) as nat) + acc < pow2(((ri + 1) * nxn) as nat))
                    by (nonlinear_arith)
                    requires
                        (rot as nat) < pow2(nxn),
                        (acc as nat) < pow2((ri * nxn) as nat),
                        0 < pow2((ri * nxn) as nat),
                        pow2(((ri + 1) * nxn) as nat) == pow2((ri * nxn) as nat) * pow2(nxn),
                ;
            }
            acc = acc + rot * shift_mult;
            rem = rem / xdim;
            row_i = row_i + 1;
            proof {
                lemma_div_denominator(dec as int, pow2((ri * nxn) as nat) as int, pow2(nxn) as int);
                assert(rem == (dec as nat) / pow2((ri * nxn + nxn) as nat));
                // fold one unrolling of the row recursion into the accumulator
                assert(spec_translate_x(rem0, nxn, (ny as nat - ri) as nat) == spec_rotl(
                    rem0 % pow2(nxn),
                    1,
                    nxn,
                ) + spec_translate_x(rem0 / pow2(nxn), nxn, (ny as nat - ri - 1) as nat) * pow2(
                    nxn,
                ));
                let tx_rest = spec_translate_x(rem0 / pow2(nxn), nxn, (ny as nat - ri - 1) as nat);
                assert((rot as nat + tx_rest * pow2(nxn)) * pow2((ri * nxn) as nat) == (rot as nat)
                    * pow2((ri * nxn) as nat) + tx_rest * pow2((ri * nxn + nxn) as nat))
                    by (nonlinear_arith)
                    requires
                        pow2((ri * nxn + nxn) as nat) == pow2((ri * nxn) as nat) * pow2(nxn),
                ;
            }
        }
        proof {
            assert(row_i == ny);
            let rin = (row_i * nx) as nat;
            assert(rin == w) by (nonlinear_arith)
                requires
                    rin == (row_i as nat) * (nx as nat),
                    w == (nx as nat) * (ny as nat),
                    row_i == ny,
            ;
            lemma_pow2_pos(w);
            assert((dec as nat) / pow2(w) == 0) by (nonlinear_arith)
                requires
                    (dec as nat) < pow2(w),
                    0 < pow2(w),
            ;
            assert(rem == 0);
            assert(spec_translate_x(rem as nat, nx as nat, (ny - row_i) as nat) == 0);
            assert(acc + 0nat * pow2(rin) == spec_translate_x(dec as nat, nx as nat, ny as nat));
            assert(0nat * pow2(rin) == 0) by (nonlinear_arith);
            assert(acc == spec_translate_x(dec as nat, nx as nat, ny as nat));
            assert(acc < pow2(w));
        }
        acc
    }
}

/// `t` successive x translations.
pub open spec fn spec_translate_x_iter(dec: nat, nx: nat, ny: nat, t: nat) -> nat
    decreases t,
{
    if t == 0 {
        dec
    } else {
        spec_translate_x(spec_translate_x_iter(dec, nx, ny, (t - 1) as nat), nx, ny)
    }
}

/// `t` successive y translations.
pub open spec fn spec_translate_y_iter(dec: nat, nx: nat, ny: nat, t: nat) -> nat
    decreases t,
{
    if t == 0 {
        dec
    } else {
        spec_translate_y(spec_translate_y_iter(dec, nx, ny, (t - 1) as nat), nx, ny)
    }
}

/// The x translation keeps a configuration inside its word range.
pub proof fn lemma_translate_x_bound(dec: nat, nx: nat, ny: nat)
    requires
        1 <= nx,
        dec < pow2(nx * ny),
    ensures
        spec_translate_x(dec, nx, ny) < pow2(nx * ny),
    decreases ny,
{
    if ny == 0 {
        lemma_pow2_pos(0);
    } else {
        let l = dec % pow2(nx);
        let h = dec / pow2(nx);
        let wrest = (nx * (ny - 1)) as nat;
        lemma_pow2_pos(nx);
        lemma_pow2_pos(wrest);
        lemma_pow2_adds(nx, wrest);
        assert(nx + wrest == nx * ny) by (nonlinear_arith)
            requires
                1 <= ny,
                wrest == nx * (ny - 1),
        ;
        lemma_mod_bound(dec as int, pow2(nx) as int);
        lemma_multiply_divide_lt(dec as int, pow2(nx) as int, pow2(wrest) as int);
        lemma_rotl_bound(l, 1, nx);
        assert(h < pow2((nx * ((ny - 1) as nat)) as nat));
        lemma_translate_x_bound(h, nx, (ny - 1) as nat);
        let tr = spec_translate_x(h, nx, (ny - 1) as nat);
        assert(spec_rotl(l, 1, nx) + tr * pow2(nx) < pow2((nx + wrest) as nat))
            by (nonlinear_arith)
            requires
                spec_rotl(l, 1, nx) < pow2(nx),
                tr < pow2(wrest),
                0 < pow2(nx),
                pow2((nx + wrest) as nat) == pow2(nx) * pow2(wrest),
        ;
    }
}

/// Iterating the x translation keeps the range too.
pub proof fn lemma_translate_x_iter_bound(dec: nat, nx: nat, ny: nat, t: nat)
    requires
        1 <= nx,
        dec < pow2(nx * ny),
    ensures
        spec_translate_x_iter(dec, nx, ny, t) < pow2(nx * ny),
    decreases t,
{
    if t > 0 {
        lemma_translate_x_iter_bound(dec, nx, ny, (t - 1) as nat);
        lemma_translate_x_bound(spec_translate_x_iter(dec, nx, ny, (t - 1) as nat), nx, ny);
    }
}

/// The x translation acts on the low row and the remaining rows separately.
proof fn lemma_translate_x_decompose(l: nat, h: nat, nx: nat, ny: nat)
    requires
        1 <= nx,
        1 <= ny,
        l < pow2(nx),
    ensures
        spec_translate_x(l + h * pow2(nx), nx, ny) == spec_rotl(l, 1, nx) + spec_translate_x(
            h,
            nx,
            (ny - 1) as nat,
        ) * pow2(nx),
{
    let x = l + h * pow2(nx);
    lemma_pow2_pos(nx);
    assert(x == pow2(nx) * h + l) by (nonlinear_arith)
        requires
            x == l + h * pow2(nx),
    ;
    lemma_fundamental_div_mod_converse(x as int, pow2(nx) as int, h as int, l as int);
    assert(x % pow2(nx) == l);
    assert(x / pow2(nx) == h);
}

/// Iterating the x translation likewise splits into the low row, rotated
/// step by step, and the remaining rows, translated step by step.
proof fn lemma_translate_x_iter_split(l: nat, h: nat, nx: nat, ny: nat, t: nat)
    requires
        1 <= nx,
        1 <= ny,
        l < pow2(nx),
        h < pow2(nx * ((ny - 1) as nat)),
    ensures
        spec_translate_x_iter(l + h * pow2(nx), nx, ny, t) == spec_rotl_iter(l, 1, nx, t)
            + spec_translate_x_iter(h, nx, (ny - 1) as nat, t) * pow2(nx),
    decreases t,
{
    if t > 0 {
        lemma_translate_x_iter_split(l, h, nx, ny, (t - 1) as nat);
        let rl = spec_rotl_iter(l, 1, nx, (t - 1) as nat);
        let th = spec_translate_x_iter(h, nx, (ny - 1) as nat, (t - 1) as nat);
        lemma_rotl_iter_bound(l, 1, nx, (t - 1) as nat);
        lemma_translate_x_iter_bound(h, nx, (ny - 1) as nat, (t - 1) as nat);
        lemma_translate_x_decompose(rl, th, nx, ny);
    }
}

/// Applying the x translation `nx` times returns every configuration
/// unchanged: each row is rotated once around its full width.
pub proof fn lemma_translate_x_cycle(dec: nat, nx: nat, ny: nat)
    requires
        1 <= nx,
        dec < pow2(nx * ny),
    ensures
        spec_translate_x_iter(dec, nx, ny, nx) == dec,
    decreases ny,
{
    if ny == 0 {
        lemma_pow2_pos(0);
        lemma2_to64();
        assert(nx * ny == 0) by (nonlinear_arith)
            requires
                ny == 0,
        ;
        assert(dec == 0);
        lemma_translate_x_iter_zero(nx, nx);
    } else {
        let l = dec % pow2(nx);
        let h = dec / pow2(nx);
        let wrest = (nx * ((ny - 1) as nat)) as nat;
        lemma_pow2_pos(nx);
        lemma_pow2_pos(wrest);
        lemma_pow2_adds(nx, wrest);
        assert(nx + wrest == nx * ny) by (nonlinear_arith)
            requires
                1 <= ny,
                wrest == nx * (ny - 1),
        ;
        lemma_fundamental_div_mod(dec as int, pow2(nx) as int);
        lemma_mod_bound(dec as int, pow2(nx) as int);
        lemma_multiply_divide_lt(dec as int, pow2(nx) as int, pow2(wrest) as int);
        assert(dec == l + h * pow2(nx)) by (nonlinear_arith)
            requires
                dec == pow2(nx) * h + l,
        ;
        lemma_translate_x_iter_split(l, h, nx, ny, nx);
        lemma_rotl_iter_shift(l, 1, nx, nx);
        assert(1 * nx == nx);
        lemma_mod_self_0(nx as int);
        lemma_rotl_zero(l, nx);
        lemma_translate_x_cycle(h, nx, (ny - 1) as nat);
    }
}

/// The x translation of the empty lattice is the zero configuration, however
/// often it is applied.
proof fn lemma_translate_x_iter_zero(nx: nat, t: nat)
    ensures
        spec_translate_x_iter(0, nx, 0, t) == 0,
    decreases t,
{
    if t > 0 {
        lemma_translate_x_iter_zero(nx, (t - 1) as nat);
    }
}

/// Iterated y translations are iterated whole-word rotations.
proof fn lemma_translate_y_iter_is_rotl(dec: nat, nx: nat, ny: nat, t: nat)
    requires
        1 <= nx,
        1 <= ny,
    ensures
        spec_translate_y_iter(dec, nx, ny, t) == spec_rotl_iter(
            dec,
            (nx * ny - nx) as nat,
            nx * ny,
            t,
        ),
    decreases t,
{
    if t > 0 {
        lemma_translate_y_iter_is_rotl(dec, nx, ny, (t - 1) as nat);
    }
}

/// Applying the y translation `ny` times returns every configuration
/// unchanged: the word is rotated once around its full width.
pub proof fn lemma_translate_y_cycle(dec: nat, nx: nat, ny: nat)
    requires
        1 <= nx,
        1 <= ny,
        dec < pow2(nx * ny),
    ensures
        spec_translate_y_iter(dec, nx, ny, ny) == dec,
{
    let w = nx * ny;
    let k = (w - nx) as nat;
    assert(nx <= w && 1 <= w) by (nonlinear_arith)
        requires
            1 <= nx,
            1 <= ny,
            w == nx * ny,
    ;
    lemma_translate_y_iter_is_rotl(dec, nx, ny, ny);
    lemma_rotl_iter_shift(dec, k, w, ny);
    assert(k * ny == ((ny - 1) as nat) * w) by (nonlinear_arith)
        requires
            k == w - nx,
            w == nx * ny,
            1 <= ny,
    ;
    lemma_mod_multiples_basic((ny - 1) as int, w as int);
    assert((k * ny) % w == 0);
    lemma_rotl_zero(dec, w);
}

} // verus!
