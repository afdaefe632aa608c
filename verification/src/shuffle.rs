use vstd::prelude::*;

use crate::pairing::copy_bytes;
use vstd::pervasive::VecAdditionalExecFns;
use vstd::slice::slice_subrange;

verus! {

// ---------------------------------------------------------------------------
// The swap-or-not list shuffle: a fixed-length pseudo-random permutation of
// index lists, driven by a hash of (seed, round, position window). The hash
// is the backend's; every index computation, bound and swap here is
// verified, and the result is pinned exactly: a deterministic function of
// the list, the seed, the round count and the direction, and a permutation
// of the input.
// ---------------------------------------------------------------------------

/// The number of shuffling rounds protocol callers use.
pub const SHUFFLE_ROUNDS: u32 = 90;

/// The SHA-256 digest of a byte string.
pub uninterp spec fn sha256_of(data: Seq<u8>) -> Seq<u8>;

/// Relies on `ethereum_hashing::hash_fixed`: a SHA-256 digest, a function
/// of the input bytes alone whichever implementation the crate selects.
#[verifier::external_body]
fn raw_hash_fixed(data: &[u8]) -> (r: Vec<u8>)
    ensures
        r@ == sha256_of(data@),
        r@.len() == 32,
{
    ethereum_hashing::hash_fixed(data).to_vec()
}

/// The ways a shuffle request can be malformed.
#[derive(Debug, Clone, Copy, PartialEq, Eq, Structural)]
pub enum ShufflingErrorCode {
    InvalidSeedLength,
    InvalidActiveIndicesLength,
    InvalidNumberOfRounds,
}

impl ShufflingErrorCode {
    /// The human-readable reason for this failure.
    pub fn message(&self) -> (r: &'static str)
        ensures
            *self == ShufflingErrorCode::InvalidSeedLength ==> r@
                == "Shuffling seed must be 32 bytes long"@,
            *self == ShufflingErrorCode::InvalidActiveIndicesLength ==> r@
                == "ActiveIndices must fit in a u32"@,
            *self == ShufflingErrorCode::InvalidNumberOfRounds ==> r@
                == "Rounds must be between 0 and 255"@,
    {
        match self {
            ShufflingErrorCode::InvalidSeedLength => "Shuffling seed must be 32 bytes long",
            ShufflingErrorCode::InvalidActiveIndicesLength => "ActiveIndices must fit in a u32",
            ShufflingErrorCode::InvalidNumberOfRounds => "Rounds must be between 0 and 255",
        }
    }
}

/// The four-byte little-endian position window of the hashing buffer.
pub open spec fn spec_pos_window(p: usize) -> Seq<u8> {
    seq![
        (p & 0xff) as u8,
        ((p >> 8) & 0xff) as u8,
        ((p >> 16) & 0xff) as u8,
        ((p >> 24) & 0xff) as u8,
    ]
}

/// The whole hashing buffer: seed, round byte, position window.
pub open spec fn spec_buf(seed: Seq<u8>, round: u8, p: usize) -> Seq<u8> {
    seed + seq![round] + spec_pos_window(p)
}

/// The first eight digest bytes read as a little-endian word.
pub open spec fn spec_le64(d: Seq<u8>) -> u64 {
    (d[0] as u64) | ((d[1] as u64) << 8) | ((d[2] as u64) << 16) | ((d[3] as u64) << 24) | ((
    d[4] as u64) << 32) | ((d[5] as u64) << 40) | ((d[6] as u64) << 48) | ((d[7] as u64) << 56)
}

/// The pivot of one round: the hash of seed and round, reduced modulo the
/// list size.
pub open spec fn spec_pivot(seed: Seq<u8>, round: u8, n: usize) -> usize
    recommends
        n > 0,
{
    (spec_le64(sha256_of(seed + seq![round])) as usize) % n
}

/// The swap bit of position `j` in one round: one bit of the digest of the
/// buffer whose position window holds `j`'s 256-block.
pub open spec fn spec_swap_bit(seed: Seq<u8>, round: u8, j: usize) -> u64 {
    let source = sha256_of(spec_buf(seed, round, j >> 8));
    let byte_v = source[((((j as u64) & 0xff) >> 3) as usize) as int];
    ((byte_v as u64) >> ((j as u64) & 0x07)) & 0x01
}

/// Two positions of a list exchanged.
pub open spec fn swap_at(v: Seq<u32>, a: int, b: int) -> Seq<u32> {
    v.update(a, v[b]).update(b, v[a])
}

/// The first half-range of one round: positions `i` below the mirror point
/// swap with `pivot - i` when their bit says so.
pub open spec fn spec_pass1(
    v: Seq<u32>,
    seed: Seq<u8>,
    round: u8,
    pivot: int,
    i: int,
    mirror: int,
) -> Seq<u32>
    decreases mirror - i,
{
    if i >= mirror {
        v
    } else {
        let j = pivot - i;
        let v2 = if spec_swap_bit(seed, round, j as usize) == 1 {
            swap_at(v, i, j)
        } else {
            v
        };
        spec_pass1(v2, seed, round, pivot, i + 1, mirror)
    }
}

/// The second half-range of one round: positions `ii` past the pivot swap
/// with their mirror from the end of the list.
pub open spec fn spec_pass2(
    v: Seq<u32>,
    seed: Seq<u8>,
    round: u8,
    pivot: int,
    end: int,
    ii: int,
    mirror2: int,
) -> Seq<u32>
    decreases mirror2 - ii,
{
    if ii >= mirror2 {
        v
    } else {
        let j = end - (ii - pivot - 1);
        let v2 = if spec_swap_bit(seed, round, j as usize) == 1 {
            swap_at(v, ii, j)
        } else {
            v
        };
        spec_pass2(v2, seed, round, pivot, end, ii + 1, mirror2)
    }
}

/// One swap-or-not round over the whole list.
pub open spec fn spec_one_round(v: Seq<u32>, seed: Seq<u8>, round: u8) -> Seq<u32>
    recommends
        v.len() > 1,
{
    let n = v.len() as int;
    let pivot = spec_pivot(seed, round, v.len() as usize) as int;
    let after1 = spec_pass1(v, seed, round, pivot, 0, (pivot + 1) / 2);
    spec_pass2(after1, seed, round, pivot, n - 1, pivot + 1, (pivot + n + 1) / 2)
}

/// The rounds of a shuffle, from round `k` on: counting up when shuffling
/// forwards, down when un-shuffling.
pub open spec fn spec_rounds(
    v: Seq<u32>,
    seed: Seq<u8>,
    k: int,
    total: int,
    forwards: bool,
) -> Seq<u32>
    decreases total - k,
{
    if k >= total {
        v
    } else {
        let round = if forwards {
            k
        } else {
            total - 1 - k
        };
        spec_rounds(spec_one_round(v, seed, round as u8), seed, k + 1, total, forwards)
    }
}

/// What a whole shuffle yields on a list worth shuffling.
pub open spec fn spec_shuffle(v: Seq<u32>, seed: Seq<u8>, rounds: int, forwards: bool) -> Seq<
    u32,
> {
    spec_rounds(v, seed, 0, rounds, forwards)
}

/// A swap preserves the length.
proof fn lemma_swap_at_len(v: Seq<u32>, a: int, b: int)
    requires
        0 <= a < v.len(),
        0 <= b < v.len(),
    ensures
        swap_at(v, a, b).len() == v.len(),
{
}

/// Swapping the same two positions twice restores the list.
proof fn lemma_swap_at_involution(v: Seq<u32>, a: int, b: int)
    requires
        0 <= a < v.len(),
        0 <= b < v.len(),
    ensures
        swap_at(swap_at(v, a, b), a, b) == v,
{
    assert(swap_at(swap_at(v, a, b), a, b) =~= v);
}

/// Swaps of disjoint position pairs commute.
proof fn lemma_swap_at_commute(v: Seq<u32>, a: int, b: int, c: int, d: int)
    requires
        0 <= a < v.len(),
        0 <= b < v.len(),
        0 <= c < v.len(),
        0 <= d < v.len(),
        a != c && a != d && b != c && b != d,
    ensures
        swap_at(swap_at(v, a, b), c, d) == swap_at(swap_at(v, c, d), a, b),
{
    assert(swap_at(swap_at(v, a, b), c, d) =~= swap_at(swap_at(v, c, d), a, b));
}

/// The first pass preserves the length.
proof fn lemma_pass1_len(v: Seq<u32>, seed: Seq<u8>, round: u8, pivot: int, i: int, mirror: int)
    requires
        0 <= i,
        2 * mirror <= pivot + 1,
        pivot < v.len(),
    ensures
        spec_pass1(v, seed, round, pivot, i, mirror).len() == v.len(),
    decreases mirror - i,
{
    if i < mirror {
        let j = pivot - i;
        assert(0 <= i <= j <= pivot);
        if spec_swap_bit(seed, round, j as usize) == 1 {
            lemma_swap_at_len(v, i, j);
            lemma_pass1_len(swap_at(v, i, j), seed, round, pivot, i + 1, mirror);
        } else {
            lemma_pass1_len(v, seed, round, pivot, i + 1, mirror);
        }
    }
}

/// The second pass preserves the length.
proof fn lemma_pass2_len(
    v: Seq<u32>,
    seed: Seq<u8>,
    round: u8,
    pivot: int,
    end: int,
    ii: int,
    mirror2: int,
)
    requires
        pivot + 1 <= ii,
        2 * mirror2 <= pivot + end + 2,
        end == v.len() - 1,
        0 <= pivot,
    ensures
        spec_pass2(v, seed, round, pivot, end, ii, mirror2).len() == v.len(),
    decreases mirror2 - ii,
{
    if ii < mirror2 {
        let j = end - (ii - pivot - 1);
        assert(pivot < ii <= j <= end);
        if spec_swap_bit(seed, round, j as usize) == 1 {
            lemma_swap_at_len(v, ii, j);
            lemma_pass2_len(swap_at(v, ii, j), seed, round, pivot, end, ii + 1, mirror2);
        } else {
            lemma_pass2_len(v, seed, round, pivot, end, ii + 1, mirror2);
        }
    }
}

/// The first pass commutes with a swap of positions it never touches: it
/// only reads and writes positions `i'` and `pivot - i'` for `i <= i' <
/// mirror`.
proof fn lemma_pass1_swap_commute(
    v: Seq<u32>,
    seed: Seq<u8>,
    round: u8,
    pivot: int,
    i: int,
    mirror: int,
    a: int,
    b: int,
)
    requires
        0 <= i,
        2 * mirror <= pivot + 1,
        pivot < v.len(),
        0 <= a < v.len(),
        0 <= b < v.len(),
        a < i || a > pivot - i,
        b < i || b > pivot - i,
    ensures
        spec_pass1(swap_at(v, a, b), seed, round, pivot, i, mirror) == swap_at(
            spec_pass1(v, seed, round, pivot, i, mirror),
            a,
            b,
        ),
    decreases mirror - i,
{
    if i < mirror {
        let j = pivot - i;
        assert(swap_at(v, a, b)[i] == v[i] && swap_at(v, a, b)[j] == v[j]);
        if spec_swap_bit(seed, round, j as usize) == 1 {
            assert(swap_at(swap_at(v, a, b), i, j) =~= swap_at(swap_at(v, i, j), a, b));
            lemma_pass1_swap_commute(
                swap_at(v, i, j),
                seed,
                round,
                pivot,
                i + 1,
                mirror,
                a,
                b,
            );
        } else {
            lemma_pass1_swap_commute(v, seed, round, pivot, i + 1, mirror, a, b);
        }
    }
}

/// The second pass commutes with a swap of positions it never touches: it
/// only reads and writes positions `ii'` and `end + pivot + 1 - ii'` for
/// `ii <= ii' < mirror2`.
proof fn lemma_pass2_swap_commute(
    v: Seq<u32>,
    seed: Seq<u8>,
    round: u8,
    pivot: int,
    end: int,
    ii: int,
    mirror2: int,
    a: int,
    b: int,
)
    requires
        pivot + 1 <= ii,
        2 * mirror2 <= pivot + end + 2,
        end == v.len() - 1,
        0 <= pivot,
        0 <= a < v.len(),
        0 <= b < v.len(),
        a < ii || a > end + pivot + 1 - ii,
        b < ii || b > end + pivot + 1 - ii,
    ensures
        spec_pass2(swap_at(v, a, b), seed, round, pivot, end, ii, mirror2) == swap_at(
            spec_pass2(v, seed, round, pivot, end, ii, mirror2),
            a,
            b,
        ),
    decreases mirror2 - ii,
{
    if ii < mirror2 {
        let j = end - (ii - pivot - 1);
        assert(swap_at(v, a, b)[ii] == v[ii] && swap_at(v, a, b)[j] == v[j]);
        if spec_swap_bit(seed, round, j as usize) == 1 {
            assert(swap_at(swap_at(v, a, b), ii, j) =~= swap_at(swap_at(v, ii, j), a, b));
            lemma_pass2_swap_commute(
                swap_at(v, ii, j),
                seed,
                round,
                pivot,
                end,
                ii + 1,
                mirror2,
                a,
                b,
            );
        } else {
            lemma_pass2_swap_commute(v, seed, round, pivot, end, ii + 1, mirror2, a, b);
        }
    }
}

/// Running the first pass twice restores the list: the swap decisions do
/// not depend on the list, and the pairs are disjoint.
proof fn lemma_pass1_involution(
    v: Seq<u32>,
    seed: Seq<u8>,
    round: u8,
    pivot: int,
    i: int,
    mirror: int,
)
    requires
        0 <= i,
        2 * mirror <= pivot + 1,
        pivot < v.len(),
    ensures
        spec_pass1(spec_pass1(v, seed, round, pivot, i, mirror), seed, round, pivot, i, mirror)
            == v,
    decreases mirror - i,
{
    if i < mirror {
        let j = pivot - i;
        if spec_swap_bit(seed, round, j as usize) == 1 {
            let w = swap_at(v, i, j);
            let inner = spec_pass1(w, seed, round, pivot, i + 1, mirror);
            lemma_pass1_swap_commute(w, seed, round, pivot, i + 1, mirror, i, j);
            assert(swap_at(inner, i, j) == spec_pass1(
                swap_at(w, i, j),
                seed,
                round,
                pivot,
                i + 1,
                mirror,
            ));
            lemma_swap_at_involution(v, i, j);
            lemma_pass1_involution(v, seed, round, pivot, i + 1, mirror);
        } else {
            lemma_pass1_involution(v, seed, round, pivot, i + 1, mirror);
        }
    }
}

/// Running the second pass twice restores the list.
proof fn lemma_pass2_involution(
    v: Seq<u32>,
    seed: Seq<u8>,
    round: u8,
    pivot: int,
    end: int,
    ii: int,
    mirror2: int,
)
    requires
        pivot + 1 <= ii,
        2 * mirror2 <= pivot + end + 2,
        end == v.len() - 1,
        0 <= pivot,
    ensures
        spec_pass2(
            spec_pass2(v, seed, round, pivot, end, ii, mirror2),
            seed,
            round,
            pivot,
            end,
            ii,
            mirror2,
        ) == v,
    decreases mirror2 - ii,
{
    if ii < mirror2 {
        let j = end - (ii - pivot - 1);
        if spec_swap_bit(seed, round, j as usize) == 1 {
            let w = swap_at(v, ii, j);
            let inner = spec_pass2(w, seed, round, pivot, end, ii + 1, mirror2);
            lemma_pass2_swap_commute(w, seed, round, pivot, end, ii + 1, mirror2, ii, j);
            assert(swap_at(inner, ii, j) == spec_pass2(
                swap_at(w, ii, j),
                seed,
                round,
                pivot,
                end,
                ii + 1,
                mirror2,
            ));
            lemma_swap_at_involution(v, ii, j);
            lemma_pass2_involution(v, seed, round, pivot, end, ii + 1, mirror2);
        } else {
            lemma_pass2_involution(v, seed, round, pivot, end, ii + 1, mirror2);
        }
    }
}

/// The two passes commute: they act on the disjoint ranges up to the pivot
/// and past it.
proof fn lemma_pass1_pass2_commute(
    v: Seq<u32>,
    seed: Seq<u8>,
    round: u8,
    pivot: int,
    end: int,
    ii: int,
    mirror2: int,
    mirror: int,
)
    requires
        0 <= pivot < v.len(),
        end == v.len() - 1,
        pivot + 1 <= ii,
        2 * mirror2 <= pivot + end + 2,
        2 * mirror <= pivot + 1,
    ensures
        spec_pass1(
            spec_pass2(v, seed, round, pivot, end, ii, mirror2),
            seed,
            round,
            pivot,
            0,
            mirror,
        ) == spec_pass2(
            spec_pass1(v, seed, round, pivot, 0, mirror),
            seed,
            round,
            pivot,
            end,
            ii,
            mirror2,
        ),
    decreases mirror2 - ii,
{
    lemma_pass1_len(v, seed, round, pivot, 0, mirror);
    if ii < mirror2 {
        let j = end - (ii - pivot - 1);
        if spec_swap_bit(seed, round, j as usize) == 1 {
            let w = swap_at(v, ii, j);
            lemma_swap_at_len(v, ii, j);
            lemma_pass1_pass2_commute(w, seed, round, pivot, end, ii + 1, mirror2, mirror);
            lemma_pass1_swap_commute(v, seed, round, pivot, 0, mirror, ii, j);
            assert(spec_pass1(w, seed, round, pivot, 0, mirror) == swap_at(
                spec_pass1(v, seed, round, pivot, 0, mirror),
                ii,
                j,
            ));
            assert(spec_pass1(v, seed, round, pivot, 0, mirror)[ii] == v[ii]
                && spec_pass1(v, seed, round, pivot, 0, mirror)[j] == v[j]) by {
                lemma_pass1_frame(v, seed, round, pivot, 0, mirror, ii);
                lemma_pass1_frame(v, seed, round, pivot, 0, mirror, j);
            }
        } else {
            lemma_pass1_pass2_commute(v, seed, round, pivot, end, ii + 1, mirror2, mirror);
        }
    }
}

/// The first pass leaves every position past the pivot unchanged.
proof fn lemma_pass1_frame(
    v: Seq<u32>,
    seed: Seq<u8>,
    round: u8,
    pivot: int,
    i: int,
    mirror: int,
    q: int,
)
    requires
        0 <= i,
        2 * mirror <= pivot + 1,
        pivot < v.len(),
        q > pivot || q < 0,
        q < v.len(),
    ensures
        q >= 0 ==> spec_pass1(v, seed, round, pivot, i, mirror)[q] == v[q],
    decreases mirror - i,
{
    if i < mirror {
        let j = pivot - i;
        if spec_swap_bit(seed, round, j as usize) == 1 {
            lemma_pass1_frame(swap_at(v, i, j), seed, round, pivot, i + 1, mirror, q);
        } else {
            lemma_pass1_frame(v, seed, round, pivot, i + 1, mirror, q);
        }
    }
}

/// One round run twice restores the list: the passes are involutions on
/// disjoint ranges.
proof fn lemma_one_round_involution(v: Seq<u32>, seed: Seq<u8>, round: u8)
    requires
        v.len() > 1,
    ensures
        spec_one_round(spec_one_round(v, seed, round), seed, round) == v,
        spec_one_round(v, seed, round).len() == v.len(),
{
    let n = v.len() as int;
    let pivot = spec_pivot(seed, round, v.len() as usize) as int;
    let mirror = (pivot + 1) / 2;
    let mirror2 = (pivot + n + 1) / 2;
    let end = n - 1;
    let a1 = spec_pass1(v, seed, round, pivot, 0, mirror);
    let r1 = spec_pass2(a1, seed, round, pivot, end, pivot + 1, mirror2);
    lemma_pass1_len(v, seed, round, pivot, 0, mirror);
    lemma_pass2_len(a1, seed, round, pivot, end, pivot + 1, mirror2);
    // same list length, so the second application uses the same pivot
    assert(spec_one_round(r1, seed, round) == spec_pass2(
        spec_pass1(r1, seed, round, pivot, 0, mirror),
        seed,
        round,
        pivot,
        end,
        pivot + 1,
        mirror2,
    ));
    lemma_pass1_pass2_commute(a1, seed, round, pivot, end, pivot + 1, mirror2, mirror);
    assert(spec_pass1(r1, seed, round, pivot, 0, mirror) == spec_pass2(
        spec_pass1(a1, seed, round, pivot, 0, mirror),
        seed,
        round,
        pivot,
        end,
        pivot + 1,
        mirror2,
    ));
    lemma_pass1_involution(v, seed, round, pivot, 0, mirror);
    assert(spec_pass1(a1, seed, round, pivot, 0, mirror) == v);
    lemma_pass2_involution(v, seed, round, pivot, end, pivot + 1, mirror2);
}

/// Rounds preserve the length.
proof fn lemma_rounds_len(v: Seq<u32>, seed: Seq<u8>, k: int, total: int, forwards: bool)
    requires
        v.len() > 1,
    ensures
        spec_rounds(v, seed, k, total, forwards).len() == v.len(),
    decreases total - k,
{
    if k < total {
        let round = if forwards {
            k
        } else {
            total - 1 - k
        };
        lemma_one_round_involution(v, seed, round as u8);
        lemma_rounds_len(spec_one_round(v, seed, round as u8), seed, k + 1, total, forwards);
    }
}

/// Peeling the last forward round off the back.
proof fn lemma_rounds_snoc_fwd(v: Seq<u32>, seed: Seq<u8>, k: int, total: int)
    requires
        k < total,
    ensures
        spec_rounds(v, seed, k, total, true) == spec_one_round(
            spec_rounds(v, seed, k, total - 1, true),
            seed,
            (total - 1) as u8,
        ),
    decreases total - k,
{
    if k == total - 1 {
        assert(spec_rounds(v, seed, k, total - 1, true) == v);
        assert(spec_rounds(v, seed, k, total, true) == spec_rounds(
            spec_one_round(v, seed, k as u8),
            seed,
            k + 1,
            total,
            true,
        ));
        assert(spec_rounds(spec_one_round(v, seed, k as u8), seed, k + 1, total, true)
            == spec_one_round(v, seed, k as u8));
    } else {
        assert(spec_rounds(v, seed, k, total, true) == spec_rounds(
            spec_one_round(v, seed, k as u8),
            seed,
            k + 1,
            total,
            true,
        ));
        assert(spec_rounds(v, seed, k, total - 1, true) == spec_rounds(
            spec_one_round(v, seed, k as u8),
            seed,
            k + 1,
            total - 1,
            true,
        ));
        lemma_rounds_snoc_fwd(spec_one_round(v, seed, k as u8), seed, k + 1, total);
    }
}

/// A backward run from step one equals a backward run of one round fewer.
proof fn lemma_rounds_shift_bwd(v: Seq<u32>, seed: Seq<u8>, k: int, total: int)
    requires
        1 <= k <= total,
    ensures
        spec_rounds(v, seed, k, total, false) == spec_rounds(v, seed, k - 1, total - 1, false),
    decreases total - k,
{
    if k < total {
        lemma_rounds_shift_bwd(
            spec_one_round(v, seed, (total - 1 - k) as u8),
            seed,
            k + 1,
            total,
        );
    }
}

/// Un-shuffling inverts shuffling and shuffling inverts un-shuffling, under
/// one seed and round count: the backward run applies the involutive rounds
/// in the reverse order.
pub proof fn lemma_shuffle_round_trip(v: Seq<u32>, seed: Seq<u8>, rounds: int)
    requires
        rounds >= 0,
        v.len() > 1,
    ensures
        spec_shuffle(spec_shuffle(v, seed, rounds, true), seed, rounds, false) == v,
        spec_shuffle(spec_shuffle(v, seed, rounds, false), seed, rounds, true) == v,
    decreases rounds,
{
    if rounds > 0 {
        let last = (rounds - 1) as u8;
        // un-shuffling after shuffling
        let fwd_inner = spec_rounds(v, seed, 0, rounds - 1, true);
        lemma_rounds_snoc_fwd(v, seed, 0, rounds);
        lemma_rounds_len(v, seed, 0, rounds - 1, true);
        lemma_one_round_involution(fwd_inner, seed, last);
        lemma_rounds_shift_bwd(
            spec_one_round(spec_one_round(fwd_inner, seed, last), seed, last),
            seed,
            1,
            rounds,
        );
        lemma_shuffle_round_trip(v, seed, rounds - 1);
        // shuffling after un-shuffling
        let r_v = spec_one_round(v, seed, last);
        lemma_one_round_involution(v, seed, last);
        lemma_rounds_shift_bwd(r_v, seed, 1, rounds);
        lemma_rounds_len(r_v, seed, 0, rounds - 1, false);
        lemma_shuffle_round_trip(r_v, seed, rounds - 1);
        lemma_rounds_snoc_fwd(spec_rounds(r_v, seed, 0, rounds - 1, false), seed, 0, rounds);
    }
}

/// The hashing buffer used during shuffling: a 32-byte seed, one round
/// byte, and a 4-byte position window.
struct ShufflingManager {
    buf: Vec<u8>,
}

impl ShufflingManager {
    /// The buffer holds seed, round and position window.
    spec fn wf(self) -> bool {
        self.buf@.len() == 37
    }

    /// A buffer over the given 32-byte seed.
    fn new(seed: &[u8]) -> (r: Result<Self, ShufflingErrorCode>)
        ensures
            seed@.len() != 32 ==> r == Err::<Self, ShufflingErrorCode>(
                ShufflingErrorCode::InvalidSeedLength,
            ),
            seed@.len() == 32 ==> (r matches Ok(m) && m.wf() && m.buf@ == seed@ + seq![
                0u8,
                0u8,
                0u8,
                0u8,
                0u8,
            ]),
    {
        if seed.len() != 32 {
            return Err(ShufflingErrorCode::InvalidSeedLength);
        }
        let mut buf = copy_bytes(seed);
        buf.push(0);
        buf.push(0);
        buf.push(0);
        buf.push(0);
        buf.push(0);
        proof {
            assert(buf@ =~= seed@ + seq![0u8, 0u8, 0u8, 0u8, 0u8]);
        }
        Ok(ShufflingManager { buf })
    }

    /// Set the shuffling round.
    fn set_round(&mut self, round: u8)
        requires
            old(self).wf(),
        ensures
            final (self).wf(),
            final (self).buf@ == old(self).buf@.update(32, round),
    {
        self.buf.set(32, round);
    }

    /// The raw pivot for the current round: the first eight digest bytes of
    /// the seed-and-round prefix, read little-endian. The caller reduces it
    /// modulo the list size.
    fn raw_pivot(&self) -> (r: u64)
        requires
            self.wf(),
        ensures
            r == spec_le64(sha256_of(self.buf@.take(33))),
    {
        let d = raw_hash_fixed(slice_subrange(self.buf.as_slice(), 0, 33));
        proof {
            assert(self.buf@.subrange(0, 33) =~= self.buf@.take(33));
        }
        (d[0] as u64) | ((d[1] as u64) << 8) | ((d[2] as u64) << 16) | ((d[3] as u64) << 24) | ((
        d[4] as u64) << 32) | ((d[5] as u64) << 40) | ((d[6] as u64) << 48) | ((d[7] as u64) << 56)
    }

    /// Write the position window.
    fn mix_in_position(&mut self, position: usize)
        requires
            old(self).wf(),
        ensures
            final (self).wf(),
            final (self).buf@ == old(self).buf@.take(33) + spec_pos_window(position),
    {
        self.buf.set(33, (position & 0xff) as u8);
        self.buf.set(34, ((position >> 8) & 0xff) as u8);
        self.buf.set(35, ((position >> 16) & 0xff) as u8);
        self.buf.set(36, ((position >> 24) & 0xff) as u8);
        proof {
            assert(self.buf@ =~= old(self).buf@.take(33) + spec_pos_window(position));
        }
    }

    /// Hash the whole buffer.
    fn hash(&self) -> (r: Vec<u8>)
        requires
            self.wf(),
        ensures
            r@ == sha256_of(self.buf@),
            r@.len() == 32,
    {
        raw_hash_fixed(self.buf.as_slice())
    }
}

/// The digest byte holding the swap bit of a position: bits 3..8 of the
/// position's low byte.
fn bucket_of(pos: usize) -> (r: usize)
    ensures
        r < 32,
        r == ((((pos as u64) & 0xff) >> 3) as usize),
{
    let m = ((pos as u64) & 0xff) >> 3;
    proof {
        assert forall|x: u64| ((x & 0xff) >> 3) < 32 by {
            assert(forall|x: u64| ((x & 0xff) >> 3) < 32) by (bit_vector);
        }
    }
    m as usize
}

/// The swap bit of a position within its digest byte.
fn bit_of(byte_v: u8, pos: usize) -> (r: u64)
    ensures
        r == ((byte_v as u64) >> ((pos as u64) & 0x07)) & 0x01,
{
    proof {
        assert(forall|x: u64| (x & 0x07) < 8) by (bit_vector);
    }
    ((byte_v as u64) >> ((pos as u64) & 0x07)) & 0x01
}

/// Swapping two positions keeps the length and the multiset of elements.
proof fn lemma_swap_multiset(s: Seq<u32>, i: int, j: int)
    requires
        0 <= i < s.len(),
        0 <= j < s.len(),
    ensures
        s.update(i, s[j]).update(j, s[i]).to_multiset() == s.to_multiset(),
{
    broadcast use vstd::seq_lib::to_multiset_update;
    broadcast use vstd::seq_lib::group_to_multiset_ensures;

    if i == j {
        assert(s.update(i, s[j]).update(j, s[i]) =~= s);
    } else {
        let s1 = s.update(i, s[j]);
        assert(s1[j] == s[j]);
        assert(s.contains(s[i]));
        assert(s.to_multiset().count(s[i]) > 0);
        assert(s1.update(j, s[i]).to_multiset() =~= s.to_multiset());
    }
}

/// Swap two positions of the list in place.
fn swap_in(input: &mut Vec<u32>, i: usize, j: usize)
    requires
        i < old(input)@.len(),
        j < old(input)@.len(),
    ensures
        final (input)@ == old(input)@.update(i as int, old(input)@[j as int]).update(
            j as int,
            old(input)@[i as int],
        ),
        final (input)@.len() == old(input)@.len(),
        final (input)@.to_multiset() == old(input)@.to_multiset(),
{
    let a = input[i];
    let b = input[j];
    input.set(i, b);
    input.set(j, a);
    proof {
        lemma_swap_multiset(old(input)@, i as int, j as int);
    }
}

/// Run one half-range of swaps: positions `lo` up to (excluding) `hi`, each
/// paired with `pivot - i` in the first pass and with the mirrored position
/// from `end` in the second.
fn run_pass(
    input: &mut Vec<u32>,
    manager: &mut ShufflingManager,
    seed: Ghost<Seq<u8>>,
    round: u8,
    pivot: usize,
    end: usize,
    lo: usize,
    hi: usize,
    first: bool,
) -> (unit: ())
    requires
        old(manager).wf(),
        old(manager).buf@.take(32) == seed@,
        old(manager).buf@[32] == round,
        seed@.len() == 32,
        2 <= old(input)@.len() <= u32::MAX,
        pivot < old(input)@.len(),
        end == old(input)@.len() - 1,
        first ==> lo == 0 && hi == (pivot + 1) / 2,
        !first ==> lo == pivot + 1 && hi == (pivot + old(input)@.len() + 1) / 2,
    ensures
        final (manager).wf(),
        final (manager).buf@.take(32) == seed@,
        final (manager).buf@[32] == round,
        final (input)@.len() == old(input)@.len(),
        final (input)@.to_multiset() == old(input)@.to_multiset(),
        first ==> final (input)@ == spec_pass1(
            old(input)@,
            seed@,
            round,
            pivot as int,
            0,
            hi as int,
        ),
        !first ==> final (input)@ == spec_pass2(
            old(input)@,
            seed@,
            round,
            pivot as int,
            end as int,
            lo as int,
            hi as int,
        ),
{
    let ghost orig = old(input)@;
    let ghost n = old(input)@.len();
    let mut i: usize = lo;
    while i < hi
        invariant
            manager.wf(),
            manager.buf@.take(32) == seed@,
            manager.buf@[32] == round,
            seed@.len() == 32,
            2 <= n <= u32::MAX,
            input@.len() == n,
            input@.to_multiset() == orig.to_multiset(),
            pivot < n,
            end == n - 1,
            lo <= i <= hi,
            first ==> lo == 0 && hi == (pivot + 1) / 2,
            !first ==> lo == pivot + 1 && hi == (pivot + n + 1) / 2,
            first ==> spec_pass1(input@, seed@, round, pivot as int, i as int, hi as int)
                == spec_pass1(orig, seed@, round, pivot as int, lo as int, hi as int),
            !first ==> spec_pass2(
                input@,
                seed@,
                round,
                pivot as int,
                end as int,
                i as int,
                hi as int,
            ) == spec_pass2(orig, seed@, round, pivot as int, end as int, lo as int, hi as int),
        decreases hi - i,
    {
        let j: usize = if first {
            pivot - i
        } else {
            end - (i - pivot - 1)
        };
        proof {
            if first {
                assert(2 * (i as int) < pivot + 1);
            } else {
                assert(2 * (i as int) < pivot + n + 1);
            }
        }
        manager.mix_in_position(j >> 8);
        proof {
            assert(manager.buf@ =~= spec_buf(seed@, round, j >> 8));
            assert(manager.buf@.take(32) =~= seed@);
            assert(manager.buf@[32] == round);
        }
        let source = manager.hash();
        let byte_v = source[bucket_of(j)];
        let bit_v = bit_of(byte_v, j);
        proof {
            assert(bit_v == spec_swap_bit(seed@, round, j));
        }
        let ghost pre = input@;
        if bit_v == 1 {
            swap_in(input, i, j);
        }
        proof {
            if first {
                assert(spec_pass1(pre, seed@, round, pivot as int, i as int, hi as int)
                    == spec_pass1(input@, seed@, round, pivot as int, i + 1, hi as int));
            } else {
                assert(spec_pass2(
                    pre,
                    seed@,
                    round,
                    pivot as int,
                    end as int,
                    i as int,
                    hi as int,
                ) == spec_pass2(
                    input@,
                    seed@,
                    round,
                    pivot as int,
                    end as int,
                    i + 1,
                    hi as int,
                ));
            }
        }
        i = i + 1;
    }
}

/// Shuffle an entire index list in place with the swap-or-not network:
/// each round derives a pivot from the seed and round, then swaps or keeps
/// each position of the two half-ranges as one hash bit per position says.
/// Shuffles when `forwards`, otherwise runs the rounds backwards and
/// un-shuffles. The result is the permutation `spec_shuffle` pins; a list
/// of zero or one indices, or a request for zero rounds, is returned
/// unchanged.
fn inner_shuffle_list(input: Vec<u32>, seed: &[u8], rounds: i32, forwards: bool) -> (r: Result<
    Vec<u32>,
    ShufflingErrorCode,
>)
    ensures
        rounds == 0 ==> (r matches Ok(v) && v@ == input@),
        rounds != 0 && input@.len() <= 1 ==> (r matches Ok(v) && v@ == input@),
        rounds != 0 && input@.len() > 1 && input@.len() > u32::MAX ==> r == Err::<
            Vec<u32>,
            ShufflingErrorCode,
        >(ShufflingErrorCode::InvalidActiveIndicesLength),
        rounds != 0 && input@.len() > 1 && input@.len() <= u32::MAX && seed@.len() != 32 ==> r
            == Err::<Vec<u32>, ShufflingErrorCode>(ShufflingErrorCode::InvalidSeedLength),
        rounds != 0 && input@.len() > 1 && input@.len() <= u32::MAX && seed@.len() == 32 && (rounds
            < 0 || rounds > 255) ==> r == Err::<Vec<u32>, ShufflingErrorCode>(
            ShufflingErrorCode::InvalidNumberOfRounds,
        ),
        rounds != 0 && input@.len() > 1 && input@.len() <= u32::MAX && seed@.len() == 32 && 0
            <= rounds <= 255 ==> (r matches Ok(v) && v@ == spec_shuffle(
            input@,
            seed@,
            rounds as int,
            forwards,
        ) && v@.len() == input@.len() && v@.to_multiset() == input@.to_multiset()),
{
    if rounds == 0 {
        // no shuffling rounds
        return Ok(input);
    }
    let list_size = input.len();

    if list_size <= 1 {
        // nothing to (un)shuffle
        return Ok(input);
    }
    if list_size > (u32::MAX as usize) {
        return Err(ShufflingErrorCode::InvalidActiveIndicesLength);
    }
    let mut manager = match ShufflingManager::new(seed) {
        Ok(m) => m,
        Err(e) => {
            return Err(e);
        },
    };
    proof {
        assert(manager.buf@.take(32) =~= seed@);
    }
    if rounds < 0 || rounds > 255 {
        return Err(ShufflingErrorCode::InvalidNumberOfRounds);
    }
    let total_rounds: u8 = rounds as u8;
    let ghost orig = input@;
    let mut input = input;
    let mut k: u8 = 0;
    while k < total_rounds
        invariant
            k <= total_rounds,
            manager.wf(),
            manager.buf@.take(32) == seed@,
            seed@.len() == 32,
            2 <= list_size <= u32::MAX,
            input@.len() == list_size,
            input@.to_multiset() == orig.to_multiset(),
            input@.len() == orig.len(),
            spec_rounds(input@, seed@, k as int, total_rounds as int, forwards) == spec_rounds(
                orig,
                seed@,
                0,
                total_rounds as int,
                forwards,
            ),
        decreases total_rounds - k,
    {
        let current_round: u8 = if forwards {
            k
        } else {
            total_rounds - 1 - k
        };
        manager.set_round(current_round);
        proof {
            assert(manager.buf@.take(32) =~= seed@);
            assert(manager.buf@.take(33) =~= seed@ + seq![current_round]);
        }

        // reduce the raw pivot modulo the list size so it names a position
        let p64 = manager.raw_pivot();
        let pivot = (#[verifier::truncate] (p64 as usize)) % list_size;
        proof {
            assert(pivot == spec_pivot(seed@, current_round, list_size));
        }

        let mirror = (pivot + 1) / 2;
        let ghost before_round = input@;
        run_pass(&mut input, &mut manager, Ghost(seed@), current_round, pivot, list_size - 1, 0, mirror, true);

        let mirror2_wide = (((pivot as u64) + (list_size as u64)) + 1) / 2;
        proof {
            assert(mirror2_wide <= u32::MAX);
        }
        let mirror2 = mirror2_wide as usize;
        let end = list_size - 1;
        run_pass(&mut input, &mut manager, Ghost(seed@), current_round, pivot, end, pivot + 1, mirror2, false);

        proof {
            assert(input@ == spec_one_round(before_round, seed@, current_round));
            assert(spec_rounds(before_round, seed@, k as int, total_rounds as int, forwards)
                == spec_rounds(input@, seed@, k + 1, total_rounds as int, forwards));
        }
        k = k + 1;
    }
    Ok(input)
}

/// Shuffle an index list: the forward swap-or-not permutation under the
/// given seed and round count, pinned exactly by `spec_shuffle`.
pub fn shuffle_list(active_indices: Vec<u32>, seed: &[u8], rounds: i32) -> (r: Result<
    Vec<u32>,
    ShufflingErrorCode,
>)
    ensures
        rounds == 0 ==> (r matches Ok(v) && v@ == active_indices@),
        rounds != 0 && active_indices@.len() <= 1 ==> (r matches Ok(v) && v@ == active_indices@),
        rounds != 0 && active_indices@.len() > 1 && active_indices@.len() > u32::MAX ==> r == Err::<
            Vec<u32>,
            ShufflingErrorCode,
        >(ShufflingErrorCode::InvalidActiveIndicesLength),
        rounds != 0 && active_indices@.len() > 1 && active_indices@.len() <= u32::MAX
            && seed@.len() != 32 ==> r == Err::<Vec<u32>, ShufflingErrorCode>(
            ShufflingErrorCode::InvalidSeedLength,
        ),
        rounds != 0 && active_indices@.len() > 1 && active_indices@.len() <= u32::MAX
            && seed@.len() == 32 && (rounds < 0 || rounds > 255) ==> r == Err::<
            Vec<u32>,
            ShufflingErrorCode,
        >(ShufflingErrorCode::InvalidNumberOfRounds),
        rounds != 0 && active_indices@.len() > 1 && active_indices@.len() <= u32::MAX
            && seed@.len() == 32 && 0 <= rounds <= 255 ==> (r matches Ok(v) && v@ == spec_shuffle(
            active_indices@,
            seed@,
            rounds as int,
            true,
        ) && v@.len() == active_indices@.len() && v@.to_multiset()
            == active_indices@.to_multiset()),
{
    inner_shuffle_list(active_indices, seed, rounds, true)
}

/// Un-shuffle an index list: the rounds of the swap-or-not permutation run
/// backwards, pinned exactly by `spec_shuffle` in the backward direction.
pub fn unshuffle_list(active_indices: Vec<u32>, seed: &[u8], rounds: i32) -> (r: Result<
    Vec<u32>,
    ShufflingErrorCode,
>)
    ensures
        rounds == 0 ==> (r matches Ok(v) && v@ == active_indices@),
        rounds != 0 && active_indices@.len() <= 1 ==> (r matches Ok(v) && v@ == active_indices@),
        rounds != 0 && active_indices@.len() > 1 && active_indices@.len() > u32::MAX ==> r == Err::<
            Vec<u32>,
            ShufflingErrorCode,
        >(ShufflingErrorCode::InvalidActiveIndicesLength),
        rounds != 0 && active_indices@.len() > 1 && active_indices@.len() <= u32::MAX
            && seed@.len() != 32 ==> r == Err::<Vec<u32>, ShufflingErrorCode>(
            ShufflingErrorCode::InvalidSeedLength,
        ),
        rounds != 0 && active_indices@.len() > 1 && active_indices@.len() <= u32::MAX
            && seed@.len() == 32 && (rounds < 0 || rounds > 255) ==> r == Err::<
            Vec<u32>,
            ShufflingErrorCode,
        >(ShufflingErrorCode::InvalidNumberOfRounds),
        rounds != 0 && active_indices@.len() > 1 && active_indices@.len() <= u32::MAX
            && seed@.len() == 32 && 0 <= rounds <= 255 ==> (r matches Ok(v) && v@ == spec_shuffle(
            active_indices@,
            seed@,
            rounds as int,
            false,
        ) && v@.len() == active_indices@.len() && v@.to_multiset()
            == active_indices@.to_multiset()),
{
    inner_shuffle_list(active_indices, seed, rounds, false)
}

} // verus!
