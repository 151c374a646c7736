//! Classification of the sequence numbers that a transaction's inputs carry.

use vstd::prelude::*;
use crate::model::{Tx, TxView, TxInputView};

verus! {

/// Sequence number that marks an input final.
pub const MAX_SEQUENCE: u32 = 0xFFFF_FFFF;
/// Largest sequence number that enables lock-time but not replacement.
pub const MAX_NON_FINAL_SEQUENCE: u32 = MAX_SEQUENCE - 1;
/// Largest sequence number that signals opt-in replace-by-fee.
pub const MAX_BIP125_RBF_SEQUENCE: u32 = MAX_SEQUENCE - 2;

/// How the distinct sequence numbers of a transaction's inputs look.
#[derive(Clone, Copy, Debug, PartialEq, Eq, Structural)]
pub enum SequenceType {
    OnlyFinal,
    MixedFinal,
    OnlyNonFinal,
    OnlyRBF,
    MixedRBFNonFinal,
    Custom,
}

/// Class of a transaction whose inputs all carry the sequence number `v`.
pub open spec fn single_sequence_type(v: u32) -> SequenceType {
    if v == MAX_SEQUENCE {
        SequenceType::OnlyFinal
    } else if v == MAX_NON_FINAL_SEQUENCE {
        SequenceType::OnlyNonFinal
    } else if v == MAX_BIP125_RBF_SEQUENCE {
        SequenceType::OnlyRBF
    } else {
        SequenceType::Custom
    }
}

/// Class of a sequence of sequence numbers, by the set of distinct values:
/// one value is classed by itself; among several, a final one makes the mix
/// final, the pair {max - 2, max - 1} is the RBF/non-final mix, and any other
/// mix is custom.
pub open spec fn sequence_type_of(seqs: Seq<u32>) -> SequenceType {
    if seqs.len() == 0 {
        SequenceType::Custom
    } else if forall|i: int| #![trigger seqs[i]] 0 <= i < seqs.len() ==> seqs[i] == seqs[0] {
        single_sequence_type(seqs[0])
    } else if seqs.contains(MAX_SEQUENCE) {
        SequenceType::MixedFinal
    } else if forall|i: int|
        0 <= i < seqs.len() ==> (seqs[i] == MAX_NON_FINAL_SEQUENCE || seqs[i]
            == MAX_BIP125_RBF_SEQUENCE) {
        SequenceType::MixedRBFNonFinal
    } else {
        SequenceType::Custom
    }
}

/// The sequence numbers of a transaction's inputs, in input order.
pub open spec fn input_sequences(tx: TxView) -> Seq<u32> {
    tx.inputs.map_values(|i: TxInputView| i.sequence)
}

/// Classifies the distinct sequence numbers of the inputs. The result does
/// not depend on the order of the inputs. A transaction without inputs is
/// `Custom`.
pub fn classify_sequences(tx: &Tx) -> (r: SequenceType)
    ensures
        r == sequence_type_of(input_sequences(tx@)),
{
    let ghost seqs = input_sequences(tx@);
    let n = tx.inputs.len();
    if n == 0 {
        return SequenceType::Custom;
    }
    let first = tx.inputs[0].sequence;
    let mut lo = first;
    let mut hi = first;
    let ghost mut lo_at: int = 0;
    let ghost mut hi_at: int = 0;
    let mut i: usize = 1;
    while i < n
        invariant
            1 <= i <= n,
            n == tx.inputs.len(),
            seqs == input_sequences(tx@),
            seqs.len() == n,
            first == seqs[0],
            0 <= lo_at < i,
            0 <= hi_at < i,
            seqs[lo_at] == lo,
            seqs[hi_at] == hi,
            forall|j: int| 0 <= j < i ==> lo <= #[trigger] seqs[j] <= hi,
        decreases n - i,
    {
        let s = tx.inputs[i].sequence;
        assert(s == seqs[i as int]);
        if s < lo {
            lo = s;
            proof {
                lo_at = i as int;
            }
        }
        if s > hi {
            hi = s;
            proof {
                hi_at = i as int;
            }
        }
        i = i + 1;
    }
    if lo == hi {
        assert forall|j: int| 0 <= j < seqs.len() implies #[trigger] seqs[j] == seqs[0] by {}
        return match first {
            MAX_SEQUENCE => SequenceType::OnlyFinal,
            MAX_NON_FINAL_SEQUENCE => SequenceType::OnlyNonFinal,
            MAX_BIP125_RBF_SEQUENCE => SequenceType::OnlyRBF,
            _ => SequenceType::Custom,
        };
    }
    assert(seqs[lo_at] != seqs[0] || seqs[hi_at] != seqs[0]);
    if hi == MAX_SEQUENCE {
        assert(seqs.contains(MAX_SEQUENCE)) by {
            assert(seqs[hi_at] == MAX_SEQUENCE);
        }
        SequenceType::MixedFinal
    } else if hi == MAX_NON_FINAL_SEQUENCE && lo == MAX_BIP125_RBF_SEQUENCE {
        assert(!seqs.contains(MAX_SEQUENCE));
        SequenceType::MixedRBFNonFinal
    } else {
        assert(!seqs.contains(MAX_SEQUENCE));
        assert(!(forall|j: int|
            0 <= j < seqs.len() ==> (seqs[j] == MAX_NON_FINAL_SEQUENCE || seqs[j]
                == MAX_BIP125_RBF_SEQUENCE))) by {
            if hi != MAX_NON_FINAL_SEQUENCE {
                assert(seqs[hi_at] != MAX_NON_FINAL_SEQUENCE);
            } else {
                assert(seqs[lo_at] != MAX_BIP125_RBF_SEQUENCE);
            }
        }
        SequenceType::Custom
    }
}

/// Inputs that all carry one sequence number `v` are classed by `v` alone:
/// the final value gives `OnlyFinal`, max - 1 `OnlyNonFinal`, max - 2
/// `OnlyRBF`, and any other value `Custom`.
pub proof fn lemma_single_value(seqs: Seq<u32>, v: u32)
    requires
        seqs.len() > 0,
        forall|i: int| 0 <= i < seqs.len() ==> #[trigger] seqs[i] == v,
    ensures
        v == MAX_SEQUENCE ==> sequence_type_of(seqs) == SequenceType::OnlyFinal,
        v == MAX_NON_FINAL_SEQUENCE ==> sequence_type_of(seqs) == SequenceType::OnlyNonFinal,
        v == MAX_BIP125_RBF_SEQUENCE ==> sequence_type_of(seqs) == SequenceType::OnlyRBF,
        v != MAX_SEQUENCE && v != MAX_NON_FINAL_SEQUENCE && v != MAX_BIP125_RBF_SEQUENCE
            ==> sequence_type_of(seqs) == SequenceType::Custom,
{
    assert(seqs[0] == v);
}

/// Inputs whose distinct sequence numbers are exactly max - 2 and max - 1
/// give `MixedRBFNonFinal`.
pub proof fn lemma_mixed_rbf_non_final(seqs: Seq<u32>)
    requires
        seqs.to_set() == set![MAX_BIP125_RBF_SEQUENCE, MAX_NON_FINAL_SEQUENCE],
    ensures
        sequence_type_of(seqs) == SequenceType::MixedRBFNonFinal,
{
    let s = set![MAX_BIP125_RBF_SEQUENCE, MAX_NON_FINAL_SEQUENCE];
    assert(s.contains(MAX_BIP125_RBF_SEQUENCE));
    assert(s.contains(MAX_NON_FINAL_SEQUENCE));
    assert(seqs.contains(MAX_BIP125_RBF_SEQUENCE));
    assert(seqs.contains(MAX_NON_FINAL_SEQUENCE));
    assert(!seqs.contains(MAX_SEQUENCE)) by {
        assert(!s.contains(MAX_SEQUENCE));
    }
    assert forall|i: int| 0 <= i < seqs.len() implies (#[trigger] seqs[i] == MAX_NON_FINAL_SEQUENCE
        || seqs[i] == MAX_BIP125_RBF_SEQUENCE) by {
        assert(seqs.to_set().contains(seqs[i]));
    }
    let a = choose|i: int| 0 <= i < seqs.len() && seqs[i] == MAX_BIP125_RBF_SEQUENCE;
    let b = choose|i: int| 0 <= i < seqs.len() && seqs[i] == MAX_NON_FINAL_SEQUENCE;
    assert(seqs[a] != seqs[0] || seqs[b] != seqs[0]);
}

/// Inputs that carry the final sequence number next to any other value give
/// `MixedFinal`.
pub proof fn lemma_mixed_final(seqs: Seq<u32>, other: u32)
    requires
        seqs.contains(MAX_SEQUENCE),
        seqs.contains(other),
        other != MAX_SEQUENCE,
    ensures
        sequence_type_of(seqs) == SequenceType::MixedFinal,
{
    let a = choose|i: int| 0 <= i < seqs.len() && seqs[i] == MAX_SEQUENCE;
    let b = choose|i: int| 0 <= i < seqs.len() && seqs[i] == other;
    assert(seqs[a] != seqs[0] || seqs[b] != seqs[0]);
}

/// Inputs with at least two distinct sequence numbers, none of them final,
/// whose values are not exactly max - 2 and max - 1, give `Custom`.
pub proof fn lemma_other_mix(seqs: Seq<u32>)
    requires
        seqs.to_set().len() >= 2,
        !seqs.contains(MAX_SEQUENCE),
        seqs.to_set() != set![MAX_BIP125_RBF_SEQUENCE, MAX_NON_FINAL_SEQUENCE],
    ensures
        sequence_type_of(seqs) == SequenceType::Custom,
{
    let s = seqs.to_set();
    let pair = set![MAX_BIP125_RBF_SEQUENCE, MAX_NON_FINAL_SEQUENCE];
    if seqs.len() == 0 {
        assert(s =~= Set::empty());
    }
    if forall|i: int| #![trigger seqs[i]] 0 <= i < seqs.len() ==> seqs[i] == seqs[0] {
        assert(s =~= set![seqs[0]]) by {
            assert forall|x: u32| s.contains(x) implies x == seqs[0] by {
                let k = choose|k: int| 0 <= k < seqs.len() && seqs[k] == x;
                assert(seqs[k] == seqs[0]);
            }
            assert(seqs.contains(seqs[0]));
        }
        assert(s.len() == 1);
    }
    if forall|i: int|
        0 <= i < seqs.len() ==> (#[trigger] seqs[i] == MAX_NON_FINAL_SEQUENCE || seqs[i]
            == MAX_BIP125_RBF_SEQUENCE) {
        assert(s.subset_of(pair)) by {
            assert forall|x: u32| s.contains(x) implies pair.contains(x) by {
                let k = choose|k: int| 0 <= k < seqs.len() && seqs[k] == x;
                assert(seqs[k] == x);
            }
        }
        assert(pair.len() == 2);
        vstd::set_lib::lemma_len_subset(s, pair);
        if !(s =~= pair) {
            let y = choose|y: u32| pair.contains(y) && !s.contains(y);
            vstd::set_lib::lemma_len_subset(s, pair.remove(y));
            assert(pair.remove(y).len() == 1);
        }
    }
}

/// The class depends on the set of distinct sequence numbers alone, so
/// neither the order of the inputs nor repeated values change it.
pub proof fn lemma_order_independent(a: Seq<u32>, b: Seq<u32>)
    requires
        a.to_set() == b.to_set(),
    ensures
        sequence_type_of(a) == sequence_type_of(b),
{
    assert forall|x: u32| a.contains(x) <==> b.contains(x) by {
        assert(a.to_set().contains(x) == a.contains(x));
        assert(b.to_set().contains(x) == b.contains(x));
    }
    lemma_same_values_same_type(a, b);
    lemma_same_values_same_type(b, a);
}

proof fn lemma_same_values_same_type(a: Seq<u32>, b: Seq<u32>)
    requires
        forall|x: u32| a.contains(x) <==> b.contains(x),
    ensures
        a.len() == 0 ==> b.len() == 0,
        a.len() > 0 && (forall|i: int| #![trigger a[i]] 0 <= i < a.len() ==> a[i] == a[0]) ==> (
        b.len() > 0 && b[0] == a[0] && forall|j: int| #![trigger b[j]] 0 <= j < b.len() ==> b[j]
            == a[0]),
        a.contains(MAX_SEQUENCE) == b.contains(MAX_SEQUENCE),
        (forall|i: int|
            0 <= i < a.len() ==> (#[trigger] a[i] == MAX_NON_FINAL_SEQUENCE || a[i]
                == MAX_BIP125_RBF_SEQUENCE)) ==> (forall|j: int|
            0 <= j < b.len() ==> (#[trigger] b[j] == MAX_NON_FINAL_SEQUENCE || b[j]
                == MAX_BIP125_RBF_SEQUENCE)),
{
    if a.len() == 0 && b.len() > 0 {
        assert(b.contains(b[0]));
    }
    if a.len() > 0 && (forall|i: int| #![trigger a[i]] 0 <= i < a.len() ==> a[i] == a[0]) {
        assert(a.contains(a[0]));
        assert forall|j: int| #![trigger b[j]] 0 <= j < b.len() implies b[j] == a[0] by {
            assert(b.contains(b[j]));
            let k = choose|k: int| 0 <= k < a.len() && a[k] == b[j];
            assert(a[k] == a[0]);
        }
    }
    if forall|i: int|
        0 <= i < a.len() ==> (#[trigger] a[i] == MAX_NON_FINAL_SEQUENCE || a[i]
            == MAX_BIP125_RBF_SEQUENCE) {
        assert forall|j: int| 0 <= j < b.len() implies (#[trigger] b[j] == MAX_NON_FINAL_SEQUENCE
            || b[j] == MAX_BIP125_RBF_SEQUENCE) by {
            assert(b.contains(b[j]));
            let k = choose|k: int| 0 <= k < a.len() && a[k] == b[j];
            assert(a[k] == MAX_NON_FINAL_SEQUENCE || a[k] == MAX_BIP125_RBF_SEQUENCE);
        }
    }
}

} // verus!
