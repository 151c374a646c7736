//! BIP-69 order: inputs by previous txid (in displayed byte order) then
//! output index, outputs by value then script bytes.

use vstd::prelude::*;
use crate::model::{Tx, TxInput, TxInputView, TxOutput, TxOutputView, TxView};

verus! {

/// `a` and `b` agree before position `k` and differ at it.
pub open spec fn first_difference_at(a: Seq<u8>, b: Seq<u8>, k: int) -> bool {
    &&& 0 <= k < a.len()
    &&& k < b.len()
    &&& a[k] != b[k]
    &&& forall|j: int| 0 <= j < k ==> a[j] == b[j]
}

/// `a` comes strictly before `b` in lexicographic byte order.
pub open spec fn bytes_lt(a: Seq<u8>, b: Seq<u8>) -> bool {
    exists|k: int| #[trigger] first_difference_at(a, b, k) && a[k] < b[k]
}

/// `a` comes no later than `b` in lexicographic byte order, where a prefix
/// comes first.
pub open spec fn bytes_le(a: Seq<u8>, b: Seq<u8>) -> bool {
    bytes_lt(a, b) || (a.len() <= b.len() && forall|j: int| 0 <= j < a.len() ==> a[j] == b[j])
}

/// A txid in the byte order in which it is displayed: the internal order
/// reversed.
pub open spec fn displayed(txid: Seq<u8>) -> Seq<u8> {
    Seq::new(32, |k: int| txid[31 - k])
}

/// Input `a` may stand before input `b`.
pub open spec fn input_le(a: TxInputView, b: TxInputView) -> bool {
    bytes_lt(displayed(a.previous_output.txid), displayed(b.previous_output.txid)) || (
    a.previous_output.txid == b.previous_output.txid && a.previous_output.vout
        <= b.previous_output.vout)
}

/// Output `a` may stand before output `b`.
pub open spec fn output_le(a: TxOutputView, b: TxOutputView) -> bool {
    a.value < b.value || (a.value == b.value && bytes_le(a.script_pubkey, b.script_pubkey))
}

/// Inputs and outputs are in BIP-69 order.
pub open spec fn bip69_ordered(tx: TxView) -> bool {
    &&& forall|i: int|
        0 <= i < tx.inputs.len() - 1 ==> #[trigger] input_le(tx.inputs[i], tx.inputs[i + 1])
    &&& forall|i: int|
        0 <= i < tx.outputs.len() - 1 ==> #[trigger] output_le(tx.outputs[i], tx.outputs[i + 1])
}

/// The first position at which two byte strings differ is unique.
proof fn lemma_first_difference_unique(a: Seq<u8>, b: Seq<u8>, k: int, m: int)
    requires
        first_difference_at(a, b, k),
        first_difference_at(a, b, m),
    ensures
        k == m,
{
    if k < m {
        assert(a[k] == b[k]);
    } else if m < k {
        assert(a[m] == b[m]);
    }
}

/// Position of the first difference of two byte strings, `None` where one
/// is a prefix of the other.
fn first_difference(a: &Vec<u8>, b: &Vec<u8>) -> (r: Option<usize>)
    ensures
        match r {
            Some(k) => first_difference_at(a@, b@, k as int),
            None => forall|j: int| 0 <= j < a@.len() && j < b@.len() ==> a@[j] == b@[j],
        },
{
    let mut i: usize = 0;
    while i < a.len() && i < b.len()
        invariant
            i <= a.len(),
            i <= b.len(),
            forall|j: int| 0 <= j < i ==> a@[j] == b@[j],
        decreases a.len() - i,
    {
        if a[i] != b[i] {
            return Some(i);
        }
        i = i + 1;
    }
    None
}

/// Whether `a` comes no later than `b` in lexicographic byte order; with
/// `strict`, whether it comes strictly before.
fn compare_bytes(a: &Vec<u8>, b: &Vec<u8>, strict: bool) -> (r: bool)
    ensures
        r == if strict {
            bytes_lt(a@, b@)
        } else {
            bytes_le(a@, b@)
        },
{
    match first_difference(a, b) {
        Some(k) => {
            proof {
                if bytes_lt(a@, b@) {
                    let m = choose|m: int| #[trigger] first_difference_at(a@, b@, m) && a@[m] < b@[m];
                    lemma_first_difference_unique(a@, b@, k as int, m);
                }
            }
            a[k] < b[k]
        },
        None => {
            assert(!bytes_lt(a@, b@));
            if strict {
                false
            } else {
                a.len() <= b.len()
            }
        },
    }
}

/// A txid in displayed byte order.
fn displayed_txid(txid: &[u8; 32]) -> (r: Vec<u8>)
    ensures
        r@ == displayed(txid@),
{
    let mut r: Vec<u8> = Vec::new();
    let mut k: usize = 0;
    while k < 32
        invariant
            k <= 32,
            txid@.len() == 32,
            r@.len() == k,
            forall|j: int| 0 <= j < k ==> r@[j] == txid@[31 - j],
        decreases 32 - k,
    {
        r.push(txid[31 - k]);
        k = k + 1;
    }
    assert(r@ =~= displayed(txid@));
    r
}

fn input_in_order(a: &TxInput, b: &TxInput) -> (r: bool)
    ensures
        r == input_le(a@, b@),
{
    let da = displayed_txid(&a.previous_output.txid);
    let db = displayed_txid(&b.previous_output.txid);
    if compare_bytes(&da, &db, true) {
        return true;
    }
    match first_difference(&da, &db) {
        Some(k) => {
            assert(a.previous_output.txid@[31 - k] != b.previous_output.txid@[31 - k]);
            false
        },
        None => {
            assert(a.previous_output.txid@ =~= b.previous_output.txid@) by {
                assert forall|j: int| 0 <= j < 32 implies a.previous_output.txid@[j]
                    == b.previous_output.txid@[j] by {
                    assert(da@[31 - j] == db@[31 - j]);
                }
            }
            a.previous_output.vout <= b.previous_output.vout
        },
    }
}

fn output_in_order(a: &TxOutput, b: &TxOutput) -> (r: bool)
    ensures
        r == output_le(a@, b@),
{
    if a.value != b.value {
        return a.value < b.value;
    }
    compare_bytes(&a.script_pubkey, &b.script_pubkey, false)
}

/// Whether inputs and outputs are in BIP-69 order.
pub fn is_bip69_ordered(tx: &Tx) -> (r: bool)
    ensures
        r == bip69_ordered(tx@),
{
    let ghost v = tx@;
    let n = tx.inputs.len();
    let mut i: usize = 1;
    while i < n
        invariant
            v == tx@,
            n == tx.inputs.len(),
            1 <= i,
            forall|k: int| 0 <= k < i - 1 && k < n - 1 ==> #[trigger] input_le(v.inputs[k], v.inputs[k + 1]),
        decreases n - i,
    {
        assert(v.inputs[i - 1] == tx.inputs@[i - 1]@ && v.inputs[i as int] == tx.inputs@[i as int]@);
        if !input_in_order(&tx.inputs[i - 1], &tx.inputs[i]) {
            assert(!input_le(v.inputs[i - 1], v.inputs[(i - 1) + 1]));
            return false;
        }
        i = i + 1;
    }
    let m = tx.outputs.len();
    let mut j: usize = 1;
    while j < m
        invariant
            v == tx@,
            m == tx.outputs.len(),
            1 <= j,
            forall|k: int| 0 <= k < v.inputs.len() - 1 ==> #[trigger] input_le(v.inputs[k], v.inputs[k + 1]),
            forall|k: int| 0 <= k < j - 1 && k < m - 1 ==> #[trigger] output_le(v.outputs[k], v.outputs[k + 1]),
        decreases m - j,
    {
        assert(v.outputs[j - 1] == tx.outputs@[j - 1]@ && v.outputs[j as int] == tx.outputs@[j as int]@);
        if !output_in_order(&tx.outputs[j - 1], &tx.outputs[j]) {
            assert(!output_le(v.outputs[j - 1], v.outputs[(j - 1) + 1]));
            return false;
        }
        j = j + 1;
    }
    true
}

} // verus!
