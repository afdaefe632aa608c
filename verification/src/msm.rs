use vstd::prelude::*;

use crate::keys::{pk_views, AggregatePublicKey, PublicKey};
use crate::sig::{sig_views, AggregateSignature, Signature};
use blst::MultiPoint;

verus! {

// ---------------------------------------------------------------------------
// Multi-scalar multiplication. The windowed bucket evaluation runs inside
// the backend; this crate owns the parameter search that shapes the grid of
// (column, row) tiles — the window width and the (columns, rows, window)
// breakdown — and exposes the weighted-sum capability over its own types.
// ---------------------------------------------------------------------------

/// Number of bits needed to write `n` in binary; zero for zero.
pub open spec fn spec_num_bits(n: nat) -> nat
    decreases n,
{
    if n == 0 {
        0
    } else {
        1 + spec_num_bits(n / 2)
    }
}

/// A value below two to the `k` has at most `k` bits.
proof fn lemma_num_bits_bound(n: nat, k: nat)
    requires
        n < vstd::arithmetic::power2::pow2(k),
    ensures
        spec_num_bits(n) <= k,
    decreases k,
{
    if k == 0 {
        assert(vstd::arithmetic::power2::pow2(0) == 1) by {
            vstd::arithmetic::power2::lemma2_to64();
        }
    } else if n > 0 {
        assert(vstd::arithmetic::power2::pow2(k) == 2 * vstd::arithmetic::power2::pow2(
            (k - 1) as nat,
        )) by {
            vstd::arithmetic::power2::lemma_pow2_unfold(k);
        }
        lemma_num_bits_bound(n / 2, (k - 1) as nat);
    }
}

/// More bits never fit a smaller value: the bit length is monotonic.
proof fn lemma_num_bits_monotonic(a: nat, b: nat)
    requires
        a <= b,
    ensures
        spec_num_bits(a) <= spec_num_bits(b),
    decreases b,
{
    if a > 0 {
        lemma_num_bits_monotonic(a / 2, b / 2);
    }
}

/// Doubling a value adds at most one bit.
proof fn lemma_num_bits_double(a: nat)
    ensures
        spec_num_bits(2 * a) <= 1 + spec_num_bits(a),
    decreases a,
{
    if a > 0 {
        assert(2 * a / 2 == a);
    }
}

/// Number of bits needed to represent `l`.
pub fn num_bits(l: usize) -> (r: usize)
    ensures
        r == spec_num_bits(l as nat),
        r <= 64,
{
    proof {
        vstd::arithmetic::power2::lemma2_to64();
        lemma_num_bits_bound(l as nat, 64);
    }
    let mut v: usize = l;
    let mut n: usize = 0;
    while v > 0
        invariant
            n + spec_num_bits(v as nat) == spec_num_bits(l as nat),
            spec_num_bits(l as nat) <= 64,
        decreases v,
    {
        v = v / 2;
        n = n + 1;
    }
    n
}

/// The window bit-width the bucket method uses for `npoints` points:
/// roughly the bit length of the count less three or four, with a floor of
/// two.
pub open spec fn spec_window_size(npoints: nat) -> nat {
    let wbits = spec_num_bits(npoints);
    if wbits > 13 {
        (wbits - 4) as nat
    } else if wbits > 5 {
        (wbits - 3) as nat
    } else {
        2
    }
}

/// Window bit-width for a point count.
pub fn pippenger_window_size(npoints: usize) -> (r: usize)
    ensures
        r == spec_window_size(npoints as nat),
        2 <= r <= 60,
{
    let wbits = num_bits(npoints);
    if wbits > 13 {
        wbits - 4
    } else if wbits > 5 {
        wbits - 3
    } else {
        2
    }
}

/// One step of the column-count search: grow the number of column tiles
/// while the grid would otherwise leave workers idle, narrowing the window
/// as columns multiply; the result steps back to the last fitting count.
pub open spec fn spec_grow_nx(nbits: int, window: int, ncpus: int, nx: int) -> (int, int)
    decreases ncpus - nx,
{
    let wnd = window - spec_num_bits((3 * nx / 2) as nat);
    if (nbits / wnd + 1) * nx < ncpus && nx < ncpus {
        spec_grow_nx(nbits, window, ncpus, nx + 1)
    } else {
        (nx - 1, window - spec_num_bits((3 * (nx - 1) / 2) as nat))
    }
}

/// The (columns, rows, window) breakdown of the tile grid.
pub open spec fn spec_breakdown(nbits: int, window: int, ncpus: int) -> (int, int, int) {
    let (nx, wnd) = if nbits > window * ncpus {
        let w = spec_num_bits((ncpus / 4) as nat) as int;
        if window + w > 18 {
            (1int, window - w)
        } else {
            let wv = (nbits / window + ncpus - 1) / ncpus;
            if (nbits / (window + 1) + ncpus - 1) / ncpus < wv {
                (1int, window + 1)
            } else {
                (1int, window)
            }
        }
    } else {
        spec_grow_nx(nbits, window, ncpus, 2)
    };
    let ny = nbits / wnd + 1;
    let wnd2 = nbits / ny + 1;
    (nx, ny, wnd2)
}

/// Choose the tile grid for a windowed multi-scalar multiplication:
/// `nx` column tiles by `ny` rows of `wnd`-bit windows, balancing the number
/// of independent tiles against the worker pool so that each worker can own
/// one tile. The bounds keep every intermediate in range on the sizes the
/// engine meets: a bounded pool, a window derived from the point count, and
/// scalars of at most a few million bits.
pub fn breakdown(nbits: usize, window: usize, ncpus: usize) -> (r: (usize, usize, usize))
    requires
        2 <= ncpus <= 512,
        3 <= window <= 60,
        window <= nbits,
        nbits <= 0x40_0000,
        ncpus <= nbits || spec_num_bits((3 * ncpus / 2) as nat) + 2 <= window,
    ensures
        ({
            let (snx, sny, swnd) = spec_breakdown(nbits as int, window as int, ncpus as int);
            r.0 == snx && r.1 == sny && r.2 == swnd
        }),
        r.0 >= 1,
        r.1 >= 1,
        r.2 >= 1,
        r.2 == nbits / r.1 + 1,
{
    let mut nx: usize;
    let mut wnd: usize;

    proof {
        assert(window * ncpus <= 60 * 512) by (nonlinear_arith)
            requires
                window <= 60,
                ncpus <= 512,
                0 <= window,
                0 <= ncpus,
        ;
    }
    if nbits > window * ncpus {
        nx = 1;
        wnd = num_bits(ncpus / 4);
        proof {
            lemma_num_bits_monotonic((ncpus / 4) as nat, 128);
            assert(spec_num_bits(128) == 8) by {
                reveal_with_fuel(spec_num_bits, 9);
            }
        }
        if (window + wnd) > 18 {
            wnd = window - wnd;
        } else {
            wnd = (nbits / window + ncpus - 1) / ncpus;
            if (nbits / (window + 1) + ncpus - 1) / ncpus < wnd {
                wnd = window + 1;
            } else {
                wnd = window;
            }
        }
    } else {
        nx = 2;
        wnd = window - 2;
        proof {
            assert(spec_num_bits(3) == 2) by {
                reveal_with_fuel(spec_num_bits, 3);
            }
            vstd::arithmetic::div_mod::lemma_div_nonincreasing(nbits as int, wnd as int);
            vstd::arithmetic::div_mod::lemma_div_pos_is_pos(nbits as int, wnd as int);
            assert((nbits as int / (wnd as int) + 1) * (nx as int) <= 0x8100_0000)
                by (nonlinear_arith)
                requires
                    0 <= nbits as int / (wnd as int) <= 0x40_0000,
                    0 <= nx as int <= 512,
            ;
        }
        while (nbits / wnd + 1) * nx < ncpus
            invariant
                2 <= ncpus <= 512,
                3 <= window <= 60,
                window <= nbits <= 0x40_0000,
                ncpus <= nbits || spec_num_bits((3 * ncpus / 2) as nat) + 2 <= window,
                2 <= nx <= ncpus,
                wnd == window as int - spec_num_bits((3 * nx / 2) as nat),
                wnd >= 1,
                (nbits as int / (wnd as int) + 1) * (nx as int) <= 0x8100_0000,
                spec_grow_nx(nbits as int, window as int, ncpus as int, nx as int)
                    == spec_grow_nx(nbits as int, window as int, ncpus as int, 2),
            decreases ncpus - nx,
        {
            proof {
                assert(nx < ncpus) by (nonlinear_arith)
                    requires
                        (nbits as int / (wnd as int) + 1) * (nx as int) < ncpus as int,
                        1 <= wnd as int,
                        0 <= nbits as int,
                        0 <= nx as int,
                ;
                let a = (3 * nx / 2) as nat;
                if ncpus <= nbits {
                    if wnd == 1 {
                        assert((nbits as int / 1 + 1) * (nx as int) >= nbits as int + 1)
                            by (nonlinear_arith)
                            requires
                                nx as int >= 1,
                                nbits as int >= 0,
                        ;
                        assert(false);
                    }
                } else {
                    lemma_num_bits_monotonic(a, (3 * ncpus / 2) as nat);
                }
                assert(wnd >= 2);
                lemma_num_bits_monotonic((3 * (nx + 1) / 2) as nat, 2 * a);
                lemma_num_bits_double(a);
                assert(spec_num_bits((3 * (nx + 1) / 2) as nat) <= 1 + spec_num_bits(a));
            }
            nx += 1;
            wnd = window - num_bits(3 * nx / 2);
            proof {
                vstd::arithmetic::div_mod::lemma_div_nonincreasing(nbits as int, wnd as int);
                vstd::arithmetic::div_mod::lemma_div_pos_is_pos(nbits as int, wnd as int);
                assert((nbits as int / (wnd as int) + 1) * (nx as int) <= 0x8100_0000)
                    by (nonlinear_arith)
                    requires
                        0 <= nbits as int / (wnd as int) <= 0x40_0000,
                        0 <= nx as int <= 512,
                ;
            }
        }
        proof {
            lemma_num_bits_monotonic((3 * (nx - 1) / 2) as nat, (3 * nx / 2) as nat);
        }
        nx -= 1;
        wnd = window - num_bits(3 * nx / 2);
    }
    let ny = nbits / wnd + 1;
    wnd = nbits / ny + 1;

    (nx, ny, wnd)
}

// ---------------------------------------------------------------------------
// The weighted-sum capability itself.
// ---------------------------------------------------------------------------

/// The canonical compressed encoding of the weighted sum of G1 points: each
/// point times `nbits` bits of its little-endian scalar, all summed.
pub uninterp spec fn pk_msm(pks: Seq<Seq<u8>>, scalars: Seq<u8>, nbits: int) -> Seq<u8>;

/// The canonical compressed encoding of the weighted sum of G2 points.
pub uninterp spec fn sig_msm(sigs: Seq<Seq<u8>>, scalars: Seq<u8>, nbits: int) -> Seq<u8>;

/// Relies on `blst`'s parallel Pippenger evaluation over `[PublicKey]`
/// (`MultiPoint::mult`): a pure function of the points, the scalar bytes
/// and the bit width, however the tile grid is scheduled.
#[verifier::external_body]
fn raw_pk_mult(pks: &Vec<PublicKey>, scalars: &Vec<u8>, nbits: usize) -> (r: AggregatePublicKey)
    requires
        pks@.len() >= 1,
        1 <= nbits,
        scalars@.len() >= ((nbits + 7) / 8) * pks@.len(),
    ensures
        r@ == pk_msm(pk_views(pks@), scalars@, nbits as int),
{
    let points: Vec<blst::min_pk::PublicKey> = pks.iter().map(|p| p.point).collect();
    let point = points.mult(scalars.as_slice(), nbits);
    AggregatePublicKey { bytes: point.to_public_key().compress().to_vec(), point }
}

/// Relies on `blst`'s parallel Pippenger evaluation over `[Signature]`
/// (`MultiPoint::mult`).
#[verifier::external_body]
fn raw_sig_mult(sigs: &Vec<Signature>, scalars: &Vec<u8>, nbits: usize) -> (r: AggregateSignature)
    requires
        sigs@.len() >= 1,
        1 <= nbits,
        scalars@.len() >= ((nbits + 7) / 8) * sigs@.len(),
    ensures
        r@ == sig_msm(sig_views(sigs@), scalars@, nbits as int),
{
    let points: Vec<blst::min_pk::Signature> = sigs.iter().map(|s| s.point).collect();
    let point = points.mult(scalars.as_slice(), nbits);
    AggregateSignature { bytes: point.to_signature().compress().to_vec(), point }
}

/// Weighted sum of public keys: each key times `nbits` bits of its slice of
/// `scalars`, summed with the parallel bucket method.
pub fn mult_public_keys(pks: &Vec<PublicKey>, scalars: &Vec<u8>, nbits: usize) -> (r:
    AggregatePublicKey)
    requires
        pks@.len() >= 1,
        1 <= nbits,
        scalars@.len() >= ((nbits + 7) / 8) * pks@.len(),
    ensures
        r@ == pk_msm(pk_views(pks@), scalars@, nbits as int),
{
    raw_pk_mult(pks, scalars, nbits)
}

/// Weighted sum of signatures: each signature times `nbits` bits of its
/// slice of `scalars`, summed with the parallel bucket method.
pub fn mult_signatures(sigs: &Vec<Signature>, scalars: &Vec<u8>, nbits: usize) -> (r:
    AggregateSignature)
    requires
        sigs@.len() >= 1,
        1 <= nbits,
        scalars@.len() >= ((nbits + 7) / 8) * sigs@.len(),
    ensures
        r@ == sig_msm(sig_views(sigs@), scalars@, nbits as int),
{
    raw_sig_mult(sigs, scalars, nbits)
}

} // verus!
