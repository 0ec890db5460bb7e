//! A dense state vector of an `n`-qubit register: `2^n` amplitudes, where bit
//! `b` of an index is the value of qubit `b` in that basis state.
//!
//! The register is generic over its amplitude type. Bit flip and
//! controlled-NOT only move amplitudes; any other single-qubit gate is given
//! as the map it applies to each pair of amplitudes that differ in the target
//! qubit, so the numeric type and its arithmetic stay with the caller.
use crate::basis::{
    flip_index, lemma_flip_index, lemma_mask_is_pow2, lemma_shift_tests_qubit,
    lemma_xor_is_flip, qubit_is_one, MAX_QUBITS,
};
use vstd::arithmetic::power2::{lemma2_to64, lemma_pow2_strictly_increases, pow2};
use vstd::prelude::*;
use vstd::seq_lib::{to_multiset_contains, to_multiset_update};

verus! {

/// Why a register operation was refused. A refused operation leaves the
/// register as it was.
#[derive(Debug, Clone, Copy, PartialEq, Eq, Structural)]
pub enum QubitError {
    /// The register would need more than `max` qubits.
    TooManyQubits { requested: usize, max: usize },
    /// The qubit index is not below the register's qubit count.
    OutOfRange { qubit: usize, num_qubits: usize },
    /// A controlled gate named the same qubit as control and target.
    SameControlAndTarget { qubit: usize },
}

/// The all-zero basis state of `n` qubits: `one` at index 0, `zero` elsewhere.
pub open spec fn ground_state<A>(n: nat, zero: A, one: A) -> Seq<A> {
    Seq::new(pow2(n), |i: int| if i == 0 { one } else { zero })
}

/// The amplitudes after a NOT gate on qubit `k`.
pub open spec fn bit_flipped<A>(s: Seq<A>, k: nat) -> Seq<A> {
    Seq::new(s.len(), |i: int| s[flip_index(i, k)])
}

/// The amplitudes after a controlled-NOT with control `c` and target `t`.
pub open spec fn controlled_flipped<A>(s: Seq<A>, c: nat, t: nat) -> Seq<A> {
    Seq::new(s.len(), |i: int| if qubit_is_one(i, c) { s[flip_index(i, t)] } else { s[i] })
}

/// Whether a gate with optional control qubit `control` touches the pair
/// of basis states that starts at index `i`.
pub open spec fn pair_selected(i: int, control: Option<usize>) -> bool {
    match control {
        Some(c) => qubit_is_one(i, c as nat),
        None => true,
    }
}

/// `new` is `old` with `gate` applied to each pair of amplitudes that differ
/// only in qubit `t`: the amplitude where `t` reads 0 first.
pub open spec fn gate_applied<A, F: Fn(A, A) -> (A, A)>(
    old: Seq<A>,
    new: Seq<A>,
    t: nat,
    gate: F,
) -> bool {
    &&& new.len() == old.len()
    &&& forall|i: int|
        0 <= i < old.len() && !qubit_is_one(i, t) ==> #[trigger] gate.ensures(
            (old[i], old[flip_index(i, t)]),
            (new[i], new[flip_index(i, t)]),
        )
}

/// The amplitudes of the basis states in which qubit `k` reads 1, in index
/// order.
pub open spec fn amplitudes_where_one<A>(s: Seq<A>, k: nat) -> Seq<A>
    decreases s.len(),
{
    if s.len() == 0 {
        Seq::empty()
    } else {
        let rest = amplitudes_where_one(s.drop_last(), k);
        if qubit_is_one(s.len() - 1, k) {
            rest.push(s.last())
        } else {
            rest
        }
    }
}

/// Whether `gate` only exchanges the two amplitudes of a pair.
pub open spec fn is_swap<A, F: Fn(A, A) -> (A, A)>(gate: F) -> bool {
    forall|a: A, b: A, p: (A, A)| #[trigger] gate.ensures((a, b), p) ==> p == (b, a)
}

/// Applies `gate` to each pair `(i, i ^ 2^t)` with qubit `t` reading 0 in `i`
/// (and, with a control, qubit `control` reading 1), each pair exactly once.
fn map_pairs<A: Copy, F: Fn(A, A) -> (A, A)>(
    amps: &mut Vec<A>,
    n: usize,
    control: Option<usize>,
    target: usize,
    gate: &F,
)
    requires
        n <= MAX_QUBITS,
        target < n,
        control matches Some(c) ==> c < n,
        old(amps)@.len() == pow2(n as nat),
        forall|a: A, b: A| gate.requires((a, b)),
    ensures
        final(amps)@.len() == old(amps)@.len(),
        is_swap(*gate) ==> final(amps)@.to_multiset() == old(amps)@.to_multiset(),
        forall|i: int|
            0 <= i < old(amps)@.len() && !qubit_is_one(i, target as nat) ==> if pair_selected(i, control) {
                gate.ensures(
                    (old(amps)@[i], old(amps)@[flip_index(i, target as nat)]),
                    (final(amps)@[i], final(amps)@[flip_index(i, target as nat)]),
                )
            } else {
                &&& final(amps)@[i] == old(amps)@[i]
                &&& final(amps)@[flip_index(i, target as nat)] == old(amps)@[flip_index(
                    i,
                    target as nat,
                )]
            },
{
    let ghost orig = amps@;
    let ghost t = target as nat;
    let size = amps.len();
    proof {
        lemma2_to64();
        lemma_pow2_strictly_increases(n as nat, 32);
        lemma_mask_is_pow2(target);
    }
    let mask: usize = 1usize << target;
    let mut i: usize = 0;
    while i < size
        invariant
            n <= MAX_QUBITS,
            target < n,
            control matches Some(c) ==> c < n,
            t == target as nat,
            size == orig.len() == pow2(n as nat),
            amps@.len() == size,
            mask == pow2(t),
            mask == (1usize << target),
            0 <= i <= size,
            forall|a: A, b: A| gate.requires((a, b)),
            is_swap(*gate) ==> amps@.to_multiset() == orig.to_multiset(),
            forall|j: int|
                0 <= j < size && !qubit_is_one(j, t) ==> if j < i && pair_selected(j, control) {
                    gate.ensures(
                        (orig[j], orig[flip_index(j, t)]),
                        (#[trigger] amps@[j], amps@[flip_index(j, t)]),
                    )
                } else {
                    &&& amps@[j] == orig[j]
                    &&& amps@[flip_index(j, t)] == orig[flip_index(j, t)]
                },
        decreases size - i,
    {
        let ghost prev = amps@;
        proof {
            lemma_shift_tests_qubit(i, target);
            lemma_xor_is_flip(i, target);
            lemma_flip_index(i as int, t, t, n as nat);
        }
        let selected = match control {
            Some(c) => {
                proof {
                    lemma_shift_tests_qubit(i, c);
                }
                (i >> c) & 1 == 1
            },
            None => true,
        };
        if (i >> target) & 1 == 0 && selected {
            let j = i | mask;
            assert(j as int == flip_index(i as int, t));
            let a = amps[i];
            let b = amps[j];
            let (x, y) = gate(a, b);
            amps.set(i, x);
            amps.set(j, y);
            proof {
                if is_swap(*gate) {
                    assert((x, y) == (b, a));
                    to_multiset_update(prev, i as int, b);
                    to_multiset_update(prev.update(i as int, b), j as int, a);
                    to_multiset_contains(prev, a);
                    assert(amps@ == prev.update(i as int, b).update(j as int, a));
                    assert(amps@.to_multiset() =~= prev.to_multiset());
                }
                assert forall|k: int|
                    0 <= k < size && !qubit_is_one(k, t) && k != i implies #[trigger] amps@[k]
                    == prev[k] && amps@[flip_index(k, t)] == prev[flip_index(k, t)] by {
                    lemma_flip_index(k, t, t, n as nat);
                }
            }
        }
        proof {
            assert forall|k: int|
                0 <= k < size && !qubit_is_one(k, t) implies if k < i + 1 && pair_selected(k, control) {
                gate.ensures(
                    (orig[k], orig[flip_index(k, t)]),
                    (#[trigger] amps@[k], amps@[flip_index(k, t)]),
                )
            } else {
                &&& amps@[k] == orig[k]
                &&& amps@[flip_index(k, t)] == orig[flip_index(k, t)]
            } by {
                if k != i {
                    assert(prev[k] == amps@[k]);
                }
            }
        }
        i += 1;
    }
}

/// The state of a register of at most `MAX_QUBITS` qubits: `2^n` amplitudes.
/// Its qubit count and the number of amplitudes never change.
pub struct QuantumState<A> {
    amplitudes: Vec<A>,
    num_qubits: usize,
}

impl<A> View for QuantumState<A> {
    type V = Seq<A>;

    closed spec fn view(&self) -> Seq<A> {
        self.amplitudes@
    }
}

impl<A> QuantumState<A> {
    /// The amplitude vector has `2^n` entries for the register's `n` qubits.
    pub closed spec fn wf(&self) -> bool {
        &&& self.num_qubits <= MAX_QUBITS
        &&& self.amplitudes@.len() == pow2(self.num_qubits as nat)
    }

    /// The number of qubits, fixed when the register was made.
    pub closed spec fn spec_num_qubits(&self) -> nat {
        self.num_qubits as nat
    }
    /// A register of `num_qubits` qubits in the all-zero basis state:
    /// amplitude `one` at index 0 and `zero` at every other index.
    pub fn new(num_qubits: usize, zero: A, one: A) -> (r: Result<Self, QubitError>) where
        A: Copy,
        ensures
            match r {
                Ok(s) => {
                    &&& s.wf()
                    &&& num_qubits <= MAX_QUBITS
                    &&& s.spec_num_qubits() == num_qubits
                    &&& s@ == ground_state(num_qubits as nat, zero, one)
                },
                Err(e) => {
                    &&& num_qubits > MAX_QUBITS
                    &&& e == QubitError::TooManyQubits { requested: num_qubits, max: MAX_QUBITS }
                },
            },
    {
        if num_qubits > MAX_QUBITS {
            return Err(QubitError::TooManyQubits { requested: num_qubits, max: MAX_QUBITS });
        }
        proof {
            lemma_mask_is_pow2(num_qubits);
        }
        let size: usize = 1usize << num_qubits;
        let mut amplitudes: Vec<A> = Vec::with_capacity(size);
        let mut i: usize = 0;
        while i < size
            invariant
                0 <= i <= size,
                amplitudes@.len() == i,
                forall|k: int| 0 <= k < i ==> #[trigger] amplitudes@[k] == if k == 0 {
                    one
                } else {
                    zero
                },
            decreases size - i,
        {
            if i == 0 {
                amplitudes.push(one);
            } else {
                amplitudes.push(zero);
            }
            i += 1;
        }
        let state = QuantumState { amplitudes, num_qubits };
        assert(state@ =~= ground_state(num_qubits as nat, zero, one));
        Ok(state)
    }

    /// The number of qubits.
    pub fn num_qubits(&self) -> (r: usize)
        requires
            self.wf(),
        ensures
            r == self.spec_num_qubits(),
            r <= MAX_QUBITS,
    {
        self.num_qubits
    }

    /// The amplitude vector, indexed by basis state.
    pub fn amplitudes(&self) -> (r: &Vec<A>)
        requires
            self.wf(),
        ensures
            r@ == self@,
            r@.len() == pow2(self.spec_num_qubits()),
    {
        &self.amplitudes
    }

    /// The NOT gate on qubit `target`: swaps the amplitudes of every pair of
    /// basis states that differ only in that qubit.
    pub fn apply_x(&mut self, target: usize) -> (r: Result<(), QubitError>) where A: Copy
        requires
            old(self).wf(),
        ensures
            final(self).wf(),
            final(self)@.to_multiset() == old(self)@.to_multiset(),
            final(self).spec_num_qubits() == old(self).spec_num_qubits(),
            match r {
                Ok(()) => {
                    &&& target < old(self).spec_num_qubits()
                    &&& final(self)@ == bit_flipped(old(self)@, target as nat)
                },
                Err(e) => {
                    &&& target >= old(self).spec_num_qubits()
                    &&& e == QubitError::OutOfRange {
                        qubit: target,
                        num_qubits: old(self).spec_num_qubits() as usize,
                    }
                    &&& final(self)@ == old(self)@
                },
            },
    {
        let n = self.num_qubits;
        if target >= n {
            return Err(QubitError::OutOfRange { qubit: target, num_qubits: n });
        }
        let ghost before = self@;
        let ghost t = target as nat;
        let swap = |a: A, b: A| -> (p: (A, A))
            ensures
                p == (b, a),
            { (b, a) };
        assert(is_swap(swap));
        map_pairs(&mut self.amplitudes, n, None, target, &swap);
        proof {
            assert forall|k: int| 0 <= k < before.len() implies #[trigger] self@[k] == before[flip_index(k, t)] by {
                lemma_flip_index(k, t, t, n as nat);
                lemma_flip_index(flip_index(k, t), t, t, n as nat);
            }
            assert(self@ =~= bit_flipped(before, t));
        }
        Ok(())
    }

    /// The controlled-NOT gate: flips qubit `target` in every basis state in
    /// which qubit `control` reads 1.
    pub fn apply_cnot(&mut self, control: usize, target: usize) -> (r: Result<(), QubitError>) where
        A: Copy,
        requires
            old(self).wf(),
        ensures
            final(self).wf(),
            final(self)@.to_multiset() == old(self)@.to_multiset(),
            final(self).spec_num_qubits() == old(self).spec_num_qubits(),
            match r {
                Ok(()) => {
                    &&& control < old(self).spec_num_qubits()
                    &&& target < old(self).spec_num_qubits()
                    &&& control != target
                    &&& final(self)@ == controlled_flipped(
                        old(self)@,
                        control as nat,
                        target as nat,
                    )
                },
                Err(e) => {
                    &&& final(self)@ == old(self)@
                    &&& if control >= old(self).spec_num_qubits() {
                        e == QubitError::OutOfRange {
                            qubit: control,
                            num_qubits: old(self).spec_num_qubits() as usize,
                        }
                    } else if target >= old(self).spec_num_qubits() {
                        e == QubitError::OutOfRange {
                            qubit: target,
                            num_qubits: old(self).spec_num_qubits() as usize,
                        }
                    } else {
                        control == target && e == QubitError::SameControlAndTarget {
                            qubit: control,
                        }
                    }
                },
            },
    {
        let n = self.num_qubits;
        if control >= n {
            return Err(QubitError::OutOfRange { qubit: control, num_qubits: n });
        }
        if target >= n {
            return Err(QubitError::OutOfRange { qubit: target, num_qubits: n });
        }
        if control == target {
            return Err(QubitError::SameControlAndTarget { qubit: control });
        }
        let ghost before = self@;
        let ghost t = target as nat;
        let ghost c = control as nat;
        let swap = |a: A, b: A| -> (p: (A, A))
            ensures
                p == (b, a),
            { (b, a) };
        assert(is_swap(swap));
        map_pairs(&mut self.amplitudes, n, Some(control), target, &swap);
        proof {
            assert forall|k: int| 0 <= k < before.len() implies #[trigger] self@[k] == if qubit_is_one(k, c) {
                before[flip_index(k, t)]
            } else {
                before[k]
            } by {
                lemma_flip_index(k, t, c, n as nat);
                lemma_flip_index(flip_index(k, t), t, c, n as nat);
            }
            assert(self@ =~= controlled_flipped(before, c, t));
        }
        Ok(())
    }

    /// Applies a single-qubit gate to qubit `target`. For every pair of basis
    /// states that differ only in that qubit, `gate` takes the two amplitudes,
    /// the one where the qubit reads 0 first, and returns their new values in
    /// the same order. Each pair is visited once.
    pub fn apply_single_qubit_gate<F: Fn(A, A) -> (A, A)>(&mut self, target: usize, gate: F) -> (r:
        Result<(), QubitError>) where A: Copy
        requires
            old(self).wf(),
            forall|a: A, b: A| gate.requires((a, b)),
        ensures
            final(self).wf(),
            final(self).spec_num_qubits() == old(self).spec_num_qubits(),
            match r {
                Ok(()) => {
                    &&& target < old(self).spec_num_qubits()
                    &&& gate_applied(old(self)@, final(self)@, target as nat, gate)
                },
                Err(e) => {
                    &&& target >= old(self).spec_num_qubits()
                    &&& e == QubitError::OutOfRange {
                        qubit: target,
                        num_qubits: old(self).spec_num_qubits() as usize,
                    }
                    &&& final(self)@ == old(self)@
                },
            },
    {
        let n = self.num_qubits;
        if target >= n {
            return Err(QubitError::OutOfRange { qubit: target, num_qubits: n });
        }
        map_pairs(&mut self.amplitudes, n, None, target, &gate);
        Ok(())
    }
    /// The amplitudes of the basis states in which qubit `target` reads 1, in
    /// index order: the terms whose squared magnitudes sum to the probability
    /// of measuring 1 on that qubit.
    pub fn amplitudes_with_qubit_one(&self, target: usize) -> (r: Result<Vec<A>, QubitError>) where
        A: Copy,
        requires
            self.wf(),
        ensures
            match r {
                Ok(v) => {
                    &&& target < self.spec_num_qubits()
                    &&& v@ == amplitudes_where_one(self@, target as nat)
                },
                Err(e) => {
                    &&& target >= self.spec_num_qubits()
                    &&& e == QubitError::OutOfRange {
                        qubit: target,
                        num_qubits: self.spec_num_qubits() as usize,
                    }
                },
            },
    {
        let n = self.num_qubits;
        if target >= n {
            return Err(QubitError::OutOfRange { qubit: target, num_qubits: n });
        }
        let size = self.amplitudes.len();
        let mut out: Vec<A> = Vec::new();
        let mut i: usize = 0;
        while i < size
            invariant
                target < n <= MAX_QUBITS,
                size == self@.len(),
                0 <= i <= size,
                out@ == amplitudes_where_one(self@.take(i as int), target as nat),
            decreases size - i,
        {
            proof {
                lemma_shift_tests_qubit(i, target);
                assert(self@.take(i + 1).drop_last() =~= self@.take(i as int));
            }
            if (i >> target) & 1 == 1 {
                out.push(self.amplitudes[i]);
            }
            i += 1;
        }
        assert(self@.take(size as int) =~= self@);
        Ok(out)
    }
}

/// The NOT gate undoes itself: flipping qubit `k` twice gives back the
/// amplitudes it started from.
pub proof fn lemma_bit_flip_twice<A>(s: Seq<A>, k: nat, n: nat)
    requires
        n <= MAX_QUBITS,
        k < n,
        s.len() == pow2(n),
    ensures
        bit_flipped(bit_flipped(s, k), k) == s,
{
    assert forall|i: int| 0 <= i < s.len() implies #[trigger] bit_flipped(bit_flipped(s, k), k)[i]
        == s[i] by {
        lemma_flip_index(i, k, k, n);
    }
    assert(bit_flipped(bit_flipped(s, k), k) =~= s);
}

/// A single-qubit gate whose pair map undoes itself (the Hadamard gate in
/// exact arithmetic) gives back the amplitudes it started from when applied
/// twice to the same qubit.
pub proof fn lemma_self_inverse_gate_twice<A, F: Fn(A, A) -> (A, A)>(
    s0: Seq<A>,
    s1: Seq<A>,
    s2: Seq<A>,
    t: nat,
    n: nat,
    gate: F,
)
    requires
        n <= MAX_QUBITS,
        t < n,
        s0.len() == pow2(n),
        forall|a: A, b: A, p: (A, A), q: (A, A)|
            #[trigger] gate.ensures((a, b), p) && #[trigger] gate.ensures(p, q) ==> q == (a, b),
        gate_applied(s0, s1, t, gate),
        gate_applied(s1, s2, t, gate),
    ensures
        s2 == s0,
{
    assert forall|i: int| 0 <= i < s0.len() implies #[trigger] s2[i] == s0[i] by {
        lemma_flip_index(i, t, t, n);
        let b = if qubit_is_one(i, t) {
            flip_index(i, t)
        } else {
            i
        };
        lemma_flip_index(b, t, t, n);
        assert(gate.ensures((s0[b], s0[flip_index(b, t)]), (s1[b], s1[flip_index(b, t)])));
        assert(gate.ensures((s1[b], s1[flip_index(b, t)]), (s2[b], s2[flip_index(b, t)])));
    }
    assert(s2 =~= s0);
}

} // verus!
