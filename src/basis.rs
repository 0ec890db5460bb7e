//! Basis-state indices: which value each qubit takes in a given index, and
//! the index that differs from it in exactly one qubit.
use vstd::arithmetic::power2::{lemma2_to64, pow2};
use vstd::bits::{lemma_usize_shl_is_mul, lemma_usize_shr_is_div};
use vstd::prelude::*;

verus! {

/// Largest number of qubits a register may hold: `2^30` amplitudes.
pub const MAX_QUBITS: usize = 30;

/// Whether qubit `k` reads 1 in basis state `i` (bit `k` of `i`).
pub open spec fn qubit_is_one(i: int, k: nat) -> bool {
    (i / pow2(k) as int) % 2 == 1
}

/// The basis state that differs from `i` only in qubit `k`.
pub open spec fn flip_index(i: int, k: nat) -> int {
    if qubit_is_one(i, k) {
        i - pow2(k)
    } else {
        i + pow2(k)
    }
}

/// `(x >> k) & 1` tests qubit `k` of `x`.
pub proof fn lemma_shift_tests_qubit(x: usize, k: usize)
    requires
        k < 32,
    ensures
        (((x >> k) & 1usize) == 1usize) == qubit_is_one(x as int, k as nat),
        (((x >> k) & 1usize) == 0usize) == !qubit_is_one(x as int, k as nat),
{
    lemma_usize_shr_is_div(x, k);
    let y = x >> k;
    assert((y & 1usize) == y % 2) by (bit_vector);
}

/// `1 << k` is `2^k`.
pub proof fn lemma_mask_is_pow2(k: usize)
    requires
        k < 32,
    ensures
        (1usize << k) == pow2(k as nat),
{
    lemma2_to64();
    vstd::arithmetic::power2::lemma_pow2_strictly_increases(k as nat, 32);
    lemma_usize_shl_is_mul(1usize, k);
}

/// `x ^ (1 << k)` is the partner of `x` in qubit `k`.
pub proof fn lemma_xor_is_flip(x: usize, k: usize)
    requires
        k < 32,
    ensures
        (x ^ (1usize << k)) as int == flip_index(x as int, k as nat),
        ((x >> k) & 1usize) == 0usize ==> (x | (1usize << k)) == (x ^ (1usize << k)),
{
    lemma_shift_tests_qubit(x, k);
    lemma_mask_is_pow2(k);
    assert(((x >> k) & 1usize) == 0usize ==> (x ^ (1usize << k)) == x + (1usize << k)
        && (x | (1usize << k)) == (x ^ (1usize << k))) by (bit_vector)
        requires
            k < 32,
    ;
    assert(((x >> k) & 1usize) == 1usize ==> (x ^ (1usize << k)) == x - (1usize << k))
        by (bit_vector)
        requires
            k < 32,
    ;
    assert(((x >> k) & 1usize) == 0usize || ((x >> k) & 1usize) == 1usize) by (bit_vector);
}

/// Flipping qubit `k` stays inside a register of `n` qubits, undoes itself,
/// changes qubit `k` and leaves qubit `c` alone for every other `c`.
pub proof fn lemma_flip_index(i: int, k: nat, c: nat, n: nat)
    requires
        0 <= i < pow2(n),
        k < n,
        c < n,
        n <= MAX_QUBITS,
    ensures
        0 <= flip_index(i, k) < pow2(n),
        flip_index(flip_index(i, k), k) == i,
        qubit_is_one(flip_index(i, k), k) == !qubit_is_one(i, k),
        c != k ==> qubit_is_one(flip_index(i, k), c) == qubit_is_one(i, c),
{
    lemma2_to64();
    vstd::arithmetic::power2::lemma_pow2_strictly_increases(n, 32);
    let x = i as usize;
    let kk = k as usize;
    let cc = c as usize;
    let nn = n as usize;
    let y = x ^ (1usize << kk);
    lemma_mask_is_pow2(nn);
    lemma_xor_is_flip(x, kk);
    lemma_xor_is_flip(y, kk);
    lemma_shift_tests_qubit(x, kk);
    lemma_shift_tests_qubit(y, kk);
    lemma_shift_tests_qubit(x, cc);
    lemma_shift_tests_qubit(y, cc);
    assert(y < (1usize << nn) && (y ^ (1usize << kk)) == x
        && (((y >> kk) & 1usize) != ((x >> kk) & 1usize))
        && (cc != kk ==> ((y >> cc) & 1usize) == ((x >> cc) & 1usize))) by (bit_vector)
        requires
            x < (1usize << nn),
            kk < nn,
            cc < nn,
            nn <= 30,
            y == x ^ (1usize << kk),
    ;
}

} // verus!
