//! The heuristics observed in one transaction, and the record that gathers
//! them.

use vstd::prelude::*;
use crate::bridge::{
    checked_factorial, factorial, input_base_size, input_type,
    input_type_of,
    input_base_size_of, misread_p2pk, pushdata_led, signature_leads, signature_leads_of, weight, weight_of, witness_size,
    witness_size_of,
};
use vstd::arithmetic::power2::pow2;
use crate::ordering::{bip69_ordered, is_bip69_ordered};
use crate::sequence::{classify_sequences, input_sequences, sequence_type_of, SequenceType};
use crate::model::{
    AnalysisError, InputKind, OutPoint, OutPointView, PrevOut, PrevOutView, Probability, Tx, TxInput,
    TxInputView, TxOutputView, TxView,
};

verus! {

/// Whether the lock-time looks set near the chain height at which the
/// transaction was built, as wallets do against fee sniping. The build
/// height is the tip less `confs - 1` when the confirmations are known, else
/// the tip; the lock-time must be no more than 100 blocks below it.
pub open spec fn anti_fee_snipe_spec(lock_time: u32, confs: Option<u32>, tip_height: u64) -> bool {
    if lock_time == 0 {
        false
    } else {
        let height: int = match confs {
            Some(c) => tip_height - (c - 1),
            None => tip_height as int,
        };
        lock_time >= height - 100
    }
}

/// Anti-fee-sniping lock-time detection.
pub fn probably_anti_fee_snipe(tx: &Tx, confs: Option<u32>, tip_height: u64) -> (r: bool)
    ensures
        r == anti_fee_snipe_spec(tx.lock_time, confs, tip_height),
{
    if tx.lock_time == 0 {
        return false;
    }
    let mut height: i128 = tip_height as i128;
    if let Some(c) = confs {
        height = height - (c as i128 - 1);
    }
    tx.lock_time as i128 >= height - 100
}

/// Virtual size of an input: its size without witness, plus a quarter of
/// its witness size rounded down.
pub open spec fn input_vsize(input: TxInputView) -> nat {
    input_base_size_of(input) as nat + witness_size_of(input.witness) as nat / 4
}

/// Virtual size of an input, in virtual bytes.
pub fn get_input_vsize(txin: &TxInput) -> (r: u128)
    ensures
        r == input_vsize(txin@),
{
    let base = input_base_size(txin);
    let wit = witness_size(txin);
    base as u128 + (wit / 4) as u128
}

/// Number of orders in which the inputs and outputs could stand: one of
/// them is BIP-69 order by coincidence.
pub open spec fn arrangements(tx: TxView) -> nat {
    factorial(tx.inputs.len()) * factorial(tx.outputs.len())
}

/// BIP-69 estimate as a fraction: `None` for one input and one output; 0
/// where the order is not BIP-69; 1 where the number of arrangements does
/// not fit in 64 bits; else `1 - 1/(inputs! * outputs!)`.
pub open spec fn bip69_estimate(tx: TxView) -> Option<(nat, nat)> {
    if tx.inputs.len() == 1 && tx.outputs.len() == 1 {
        None
    } else if !bip69_ordered(tx) {
        Some((0nat, 1nat))
    } else if arrangements(tx) > u64::MAX {
        Some((1nat, 1nat))
    } else {
        Some(((arrangements(tx) - 1) as nat, arrangements(tx)))
    }
}

/// An optional probability as an optional fraction.
pub open spec fn option_fraction(p: Option<Probability>) -> Option<(nat, nat)> {
    match p {
        Some(q) => Some((q.num(), q.den())),
        None => None,
    }
}

proof fn lemma_factorial_pos(n: nat)
    ensures
        factorial(n) >= 1,
    decreases n,
{
    if n > 0 {
        lemma_factorial_pos((n - 1) as nat);
        let f = factorial((n - 1) as nat);
        assert(n * f >= 1) by (nonlinear_arith)
            requires
                n >= 1,
                f >= 1,
        ;
    }
}

/// `n!` grows with `n`.
proof fn lemma_factorial_grows(m: nat, n: nat)
    requires
        m <= n,
    ensures
        factorial(m) <= factorial(n),
    decreases n,
{
    if m < n {
        lemma_factorial_grows(m, (n - 1) as nat);
        lemma_factorial_pos((n - 1) as nat);
        let f = factorial((n - 1) as nat);
        assert(n * f >= f) by (nonlinear_arith)
            requires
                n >= 1,
                f >= 0,
        ;
    }
}

proof fn lemma_factorial_values()
    ensures
        factorial(13) == 6227020800,
        factorial(21) == 51090942171709440000,
{
    assert(factorial(0) == 1);
    assert(factorial(1) == 1);
    assert(factorial(2) == 2);
    assert(factorial(3) == 6);
    assert(factorial(4) == 24);
    assert(factorial(5) == 120);
    assert(factorial(6) == 720);
    assert(factorial(7) == 5040);
    assert(factorial(8) == 40320);
    assert(factorial(9) == 362880);
    assert(factorial(10) == 3628800);
    assert(factorial(11) == 39916800);
    assert(factorial(12) == 479001600);
    assert(factorial(13) == 6227020800);
    assert(factorial(14) == 87178291200);
    assert(factorial(15) == 1307674368000);
    assert(factorial(16) == 20922789888000);
    assert(factorial(17) == 355687428096000);
    assert(factorial(18) == 6402373705728000);
    assert(factorial(19) == 121645100408832000);
    assert(factorial(20) == 2432902008176640000);
    assert(factorial(21) == 51090942171709440000);
}

/// `n!` in 64 bits, `None` where it overflows.
fn permutations(n: usize) -> (r: Option<u64>)
    ensures
        r == (if factorial(n as nat) <= u64::MAX {
            Some(factorial(n as nat) as u64)
        } else {
            None::<u64>
        }),
{
    if n >= 21 {
        proof {
            lemma_factorial_values();
            lemma_factorial_grows(21, n as nat);
        }
        None
    } else {
        checked_factorial(n as u64)
    }
}

/// Probability that the transaction was put in BIP-69 order on purpose.
pub fn probability_bip69(tx: &Tx) -> (r: Option<Probability>)
    ensures
        option_fraction(r) == bip69_estimate(tx@),
        r matches Some(p) ==> p.wf() && p.doublings == 0 && (p.certain ==> p.outcomes == 1),
{
    let ni = tx.inputs.len();
    let no = tx.outputs.len();
    if ni == 1 && no == 1 {
        return None;
    }
    if !is_bip69_ordered(tx) {
        return Some(Probability::zero());
    }
    proof {
        lemma_factorial_pos(ni as nat);
        lemma_factorial_pos(no as nat);
        vstd::arithmetic::power2::lemma2_to64();
    }
    let ghost fa = factorial(ni as nat);
    let ghost fb = factorial(no as nat);
    match (permutations(ni), permutations(no)) {
        (Some(a), Some(b)) => match a.checked_mul(b) {
            Some(n) => {
                assert(n >= 1) by (nonlinear_arith)
                    requires
                        n == fa * fb,
                        fa >= 1,
                        fb >= 1,
                ;
                assert(n as nat * 1 == n);
                Some(Probability { certain: false, outcomes: n, doublings: 0 })
            },
            None => Some(Probability::one()),
        },
        _ => {
            assert(fa * fb > u64::MAX) by (nonlinear_arith)
                requires
                    fa > u64::MAX || fb > u64::MAX,
                    fa >= 1,
                    fb >= 1,
            ;
            Some(Probability::one())
        },
    }
}

/// Signature leads of input `k`, where it parses.
pub open spec fn leads(ins: Seq<TxInputView>, k: int) -> Seq<Option<u8>> {
    signature_leads_of(ins[k]).unwrap()
}

/// The signatures of an input can be read: rawtx-rs parses its scripts,
/// and the input is not a P2PK spend whose signature is pushed with
/// OP_PUSHDATA1, 2 or 4, which rawtx-rs misreads.
pub open spec fn signatures_readable(input: TxInputView) -> bool {
    !misread_p2pk(input) && signature_leads_of(input) is Some
}

/// Every input's signatures can be read.
pub open spec fn all_signatures_parse(ins: Seq<TxInputView>) -> bool {
    forall|k: int| 0 <= k < ins.len() ==> #[trigger] signatures_readable(ins[k])
}

/// Exponent of the low-R estimate `1 - 1/2^n`: 0 where a high R is seen,
/// else the number of ECDSA signatures.
pub open spec fn low_r_exponent(ins: Seq<TxInputView>) -> nat {
    if any_high_r(ins) {
        0
    } else {
        ecdsa_count_upto(ins, ins.len() as int)
    }
}

/// Whether an input's script_sig opens with a non-minimal push and it has
/// no witness.
fn is_pushdata_led(input: &TxInput) -> (r: bool)
    ensures
        r == pushdata_led(input@),
{
    input.witness.len() == 0 && input.script_sig.len() > 0 && input.script_sig[0] >= 0x4c
        && input.script_sig[0] <= 0x4e
}

/// An ECDSA signature whose R does not fit in 32 bytes without a sign byte.
pub open spec fn is_high_r(lead: Option<u8>) -> bool {
    lead matches Some(b) && b >= 0x80
}

/// Number of ECDSA signatures among the first `j` signatures of a list.
pub open spec fn ecdsa_count(s: Seq<Option<u8>>, j: int) -> nat
    decreases j,
{
    if j <= 0 {
        0
    } else {
        ecdsa_count(s, j - 1) + if s[j - 1] is Some {
            1nat
        } else {
            0nat
        }
    }
}

/// Number of ECDSA signatures in the first `i` inputs.
pub open spec fn ecdsa_count_upto(ins: Seq<TxInputView>, i: int) -> nat
    decreases i,
{
    if i <= 0 {
        0
    } else {
        ecdsa_count_upto(ins, i - 1) + ecdsa_count(leads(ins, i - 1), leads(ins, i - 1).len() as int)
    }
}

/// Some ECDSA signature of the inputs has a high R.
pub open spec fn any_high_r(ins: Seq<TxInputView>) -> bool {
    exists|k: int, j: int|
        0 <= k < ins.len() && 0 <= j < leads(ins, k).len() && #[trigger] is_high_r(leads(ins, k)[j])
}

/// Low-R grinding estimate as a fraction: 0 where any ECDSA signature has
/// a high R, else `1 - 1/2^n` for `n` ECDSA signatures (0 for none). An error
/// where an input's signatures cannot be read.
pub open spec fn low_r_outcome(tx: TxView) -> Result<(nat, nat), AnalysisError> {
    let ins = tx.inputs;
    if !all_signatures_parse(ins) {
        Err(AnalysisError::UnparsableInput)
    } else if any_high_r(ins) {
        Ok((0nat, 1nat))
    } else {
        let n = ecdsa_count_upto(ins, ins.len() as int);
        Ok(((pow2(n) - 1) as nat, pow2(n)))
    }
}

/// Probability that the signer ground its ECDSA signatures to a low R.
pub fn probability_low_r_grinding(tx: &Tx) -> (r: Result<Probability, AnalysisError>)
    ensures
        match r {
            Ok(p) => p.wf() && low_r_outcome(tx@) == Ok::<(nat, nat), AnalysisError>(
                (p.num(), p.den()),
            ) && !p.certain && p.outcomes == 1 && p.doublings == low_r_exponent(tx@.inputs),
            Err(e) => low_r_outcome(tx@) == Err::<(nat, nat), AnalysisError>(e),
        },
{
    let ghost ins = tx@.inputs;
    let ghost m = usize::MAX as nat;
    let n = tx.inputs.len();
    let mut count: u128 = 0;
    let mut high = false;
    let ghost mut hk: int = 0;
    let ghost mut hj: int = 0;
    let mut i: usize = 0;
    while i < n
        invariant
            n == tx.inputs.len(),
            ins == tx@.inputs,
            m == usize::MAX as nat,
            i <= n,
            forall|k: int| 0 <= k < i ==> #[trigger] signatures_readable(ins[k]),
            count == ecdsa_count_upto(ins, i as int),
            count <= i * m,
            high ==> 0 <= hk < i && 0 <= hj < leads(ins, hk).len() && is_high_r(
                leads(ins, hk)[hj],
            ),
            !high ==> forall|k: int, j: int|
                0 <= k < i && 0 <= j < leads(ins, k).len() ==> !#[trigger] is_high_r(
                    leads(ins, k)[j],
                ),
        decreases n - i,
    {
        assert(ins[i as int] == tx.inputs[i as int]@);
        if is_pushdata_led(&tx.inputs[i]) {
            match input_type(&tx.inputs[i]) {
                Some(InputKind::P2pk) | Some(InputKind::P2pkLaxDer) => {
                    assert(!signatures_readable(ins[i as int]));
                    return Err(AnalysisError::UnparsableInput);
                },
                _ => {},
            }
        }
        let found = signature_leads(&tx.inputs[i]);
        match found {
            None => {
                assert(!signatures_readable(ins[i as int]));
                return Err(AnalysisError::UnparsableInput);
            },
            Some(v) => {
                let ghost s = leads(ins, i as int);
                let ghost base = count;
                let ghost high0 = high;
                let mut j: usize = 0;
                while j < v.len()
                    invariant
                        s == v@,
                        j <= v.len(),
                        i < n,
                        n <= m,
                        m == usize::MAX as nat,
                        base <= i * m,
                        count == base + ecdsa_count(s, j as int),
                        count <= base + j,
                        high0 ==> high,
                        high && !high0 ==> 0 <= hj < j && is_high_r(s[hj]) && hk == i,
                        high0 ==> 0 <= hk < i && 0 <= hj < leads(ins, hk).len() && is_high_r(
                            leads(ins, hk)[hj],
                        ),
                        !high ==> forall|jj: int| 0 <= jj < j ==> !#[trigger] is_high_r(s[jj]),
                    decreases v.len() - j,
                {
                    if let Some(b) = v[j] {
                        assert(count + 1 <= u128::MAX) by (nonlinear_arith)
                            requires
                                count <= base + j,
                                base <= i * m,
                                i < m,
                                j < m,
                                m <= 0xFFFF_FFFF_FFFF_FFFFnat,
                        ;
                        count = count + 1;
                        if b >= 0x80 && !high {
                            high = true;
                            proof {
                                hk = i as int;
                                hj = j as int;
                            }
                        }
                    }
                    j = j + 1;
                }
                assert(count <= (i + 1) * m) by (nonlinear_arith)
                    requires
                        count <= base + v.len(),
                        base <= i * m,
                        v.len() <= m,
                ;
                assert(ecdsa_count_upto(ins, i + 1) == ecdsa_count_upto(ins, i as int)
                    + ecdsa_count(s, s.len() as int));
            },
        }
        i = i + 1;
    }
    assert(all_signatures_parse(ins));
    if high {
        assert(any_high_r(ins));
        Ok(Probability::zero())
    } else {
        assert(!any_high_r(ins));
        proof {
            vstd::arithmetic::power2::lemma_pow2_pos(count as nat);
        }
        let p = Probability { certain: false, outcomes: 1, doublings: count };
        assert(p.cases() == pow2(count as nat));
        Ok(p)
    }
}

/// Value of the output that an outpoint names in a list of previous
/// outputs. Where the outpoint appears more than once the last entry counts,
/// as in a map built by inserting the entries in order.
pub open spec fn prevout_value(entries: Seq<PrevOutView>, op: OutPointView) -> Option<u64>
    decreases entries.len(),
{
    if entries.len() == 0 {
        None
    } else if entries.last().outpoint == op {
        Some(entries.last().output.value)
    } else {
        prevout_value(entries.drop_last(), op)
    }
}

/// The entries of a previous-outputs list.
pub open spec fn prevout_views(prevouts: Seq<PrevOut>) -> Seq<PrevOutView> {
    prevouts.map_values(|p: PrevOut| p@)
}

/// Value that input `k` spends.
pub open spec fn spent_value(ins: Seq<TxInputView>, entries: Seq<PrevOutView>, k: int) -> int {
    prevout_value(entries, ins[k].previous_output).unwrap() as int
}

/// Every input's previous output is in the list.
pub open spec fn all_prevouts_known(ins: Seq<TxInputView>, entries: Seq<PrevOutView>) -> bool {
    forall|k: int| 0 <= k < ins.len() ==> #[trigger] prevout_value(entries, ins[k].previous_output) is Some
}

/// Total value spent by the first `i` inputs.
pub open spec fn spent_upto(ins: Seq<TxInputView>, entries: Seq<PrevOutView>, i: int) -> int
    decreases i,
{
    if i <= 0 {
        0
    } else {
        spent_upto(ins, entries, i - 1) + spent_value(ins, entries, i - 1)
    }
}

/// Total value of the first `i` outputs.
pub open spec fn output_upto(outs: Seq<TxOutputView>, i: int) -> int
    decreases i,
{
    if i <= 0 {
        0
    } else {
        output_upto(outs, i - 1) + outs[i - 1].value
    }
}

/// Fee of a transaction: value spent less value created.
pub open spec fn fee_of(tx: TxView, entries: Seq<PrevOutView>) -> int {
    spent_upto(tx.inputs, entries, tx.inputs.len() as int) - output_upto(
        tx.outputs,
        tx.outputs.len() as int,
    )
}

/// Input `k` is worth no more than the fee it costs: with the fee rate
/// `fee / (weight / 4)` per virtual byte, `value - rate * vsize <= 0`, written
/// without division as `value * weight <= 4 * fee * vsize`.
pub open spec fn uneconomic(tx: TxView, entries: Seq<PrevOutView>, k: int) -> bool {
    spent_value(tx.inputs, entries, k) * weight_of(tx) <= 4 * fee_of(tx, entries) * input_vsize(
        tx.inputs[k],
    )
}

/// Whether some input spends less than its share of the fee; an error where
/// a previous output is missing.
pub open spec fn neg_ev_outcome(tx: TxView, entries: Seq<PrevOutView>) -> Result<bool, AnalysisError> {
    if !all_prevouts_known(tx.inputs, entries) {
        Err(AnalysisError::MissingPreviousOutput)
    } else {
        Ok(exists|k: int| 0 <= k < tx.inputs.len() && #[trigger] uneconomic(tx, entries, k))
    }
}

/// Whether two outpoints are the same.
fn same_outpoint(a: &OutPoint, b: &OutPoint) -> (r: bool)
    ensures
        r == (a@ == b@),
{
    if a.vout != b.vout {
        return false;
    }
    let mut k: usize = 0;
    while k < 32
        invariant
            k <= 32,
            a.txid@.len() == 32,
            b.txid@.len() == 32,
            forall|t: int| 0 <= t < k ==> a.txid@[t] == b.txid@[t],
        decreases 32 - k,
    {
        if a.txid[k] != b.txid[k] {
            assert(a.txid@[k as int] != b.txid@[k as int]);
            return false;
        }
        k = k + 1;
    }
    assert(a.txid@ =~= b.txid@);
    true
}

/// Looks up the value of the output that an outpoint names.
fn find_prevout_value(prevouts: &Vec<PrevOut>, op: &OutPoint) -> (r: Option<u64>)
    ensures
        r == prevout_value(prevout_views(prevouts@), op@),
{
    let ghost entries = prevout_views(prevouts@);
    let mut found: Option<u64> = None;
    let mut i: usize = 0;
    while i < prevouts.len()
        invariant
            i <= prevouts.len(),
            entries == prevout_views(prevouts@),
            found == prevout_value(entries.subrange(0, i as int), op@),
        decreases prevouts.len() - i,
    {
        let ghost next = entries.subrange(0, i + 1);
        assert(next.drop_last() =~= entries.subrange(0, i as int));
        assert(next.last() == prevouts@[i as int]@);
        if same_outpoint(&prevouts[i].outpoint, op) {
            found = Some(prevouts[i].output.value);
        }
        i = i + 1;
    }
    assert(entries.subrange(0, prevouts.len() as int) =~= entries);
    found
}

/// Whether the transaction spends an input that is worth no more than the
/// fee it adds.
pub fn spends_negative_ev(tx: &Tx, prevouts: &Vec<PrevOut>) -> (r: Result<bool, AnalysisError>)
    ensures
        match r {
            Ok(b) => neg_ev_outcome(tx@, prevout_views(prevouts@)) == Ok::<bool, AnalysisError>(b),
            Err(e) => neg_ev_outcome(tx@, prevout_views(prevouts@)) == Err::<bool, AnalysisError>(e),
        },
{
    let ghost entries = prevout_views(prevouts@);
    let ghost ins = tx@.inputs;
    let ghost outs = tx@.outputs;
    let ghost m = u64::MAX as nat;
    let n = tx.inputs.len();
    let mut values: Vec<u64> = Vec::new();
    let mut spent: u128 = 0;
    let mut i: usize = 0;
    while i < n
        invariant
            n == tx.inputs.len(),
            ins == tx@.inputs,
            entries == prevout_views(prevouts@),
            m == u64::MAX as nat,
            i <= n,
            values@.len() == i,
            forall|k: int|
                0 <= k < i ==> #[trigger] prevout_value(entries, ins[k].previous_output) == Some(
                    values@[k],
                ),
            spent == spent_upto(ins, entries, i as int),
            spent <= i * m,
        decreases n - i,
    {
        assert(ins[i as int] == tx.inputs[i as int]@);
        match find_prevout_value(prevouts, &tx.inputs[i].previous_output) {
            None => {
                assert(prevout_value(entries, ins[i as int].previous_output) is None);
                assert(!all_prevouts_known(ins, entries));
                return Err(AnalysisError::MissingPreviousOutput);
            },
            Some(v) => {
                assert(spent + v <= (i + 1) * m) by (nonlinear_arith)
                    requires
                        spent <= i * m,
                        v <= m,
                ;
                assert((i + 1) * m <= u128::MAX) by (nonlinear_arith)
                    requires
                        i < n,
                        n <= usize::MAX,
                        usize::MAX <= m,
                        m == 0xFFFF_FFFF_FFFF_FFFFnat,
                ;
                values.push(v);
                spent = spent + v as u128;
            },
        }
        i = i + 1;
    }
    assert(all_prevouts_known(ins, entries));
    let no = tx.outputs.len();
    let mut created: u128 = 0;
    let mut j: usize = 0;
    while j < no
        invariant
            no == tx.outputs.len(),
            outs == tx@.outputs,
            m == u64::MAX as nat,
            j <= no,
            created == output_upto(outs, j as int),
            created <= j * m,
        decreases no - j,
    {
        let v = tx.outputs[j].value;
        assert(v == outs[j as int].value);
        assert(created + v <= (j + 1) * m) by (nonlinear_arith)
            requires
                created <= j * m,
                v <= m,
        ;
        assert((j + 1) * m <= u128::MAX) by (nonlinear_arith)
            requires
                j < no,
                no <= usize::MAX,
                usize::MAX <= m,
                m == 0xFFFF_FFFF_FFFF_FFFFnat,
        ;
        created = created + v as u128;
        j = j + 1;
    }
    let ghost fee = fee_of(tx@, entries);
    assert(fee == spent - created);
    let w = weight(tx);
    let mut i: usize = 0;
    while i < n
        invariant
            n == tx.inputs.len(),
            ins == tx@.inputs,
            entries == prevout_views(prevouts@),
            values@.len() == n,
            forall|k: int|
                0 <= k < n ==> #[trigger] prevout_value(entries, ins[k].previous_output) == Some(
                    values@[k],
                ),
            fee == spent - created,
            fee == fee_of(tx@, entries),
            w == weight_of(tx@),
            i <= n,
            forall|k: int| 0 <= k < i ==> !#[trigger] uneconomic(tx@, entries, k),
        decreases n - i,
    {
        assert(ins[i as int] == tx.inputs[i as int]@);
        let vsize = get_input_vsize(&tx.inputs[i]);
        let value = values[i];
        assert(value as nat * w as nat <= u128::MAX) by (nonlinear_arith)
            requires
                value <= u64::MAX,
                w <= u64::MAX,
        ;
        let lhs: u128 = value as u128 * w as u128;
        let ghost want = uneconomic(tx@, entries, i as int);
        assert(want == (lhs <= 4 * fee * vsize));
        let bad = if spent >= created {
            let f = spent - created;
            match vsize.checked_mul(f) {
                None => {
                    assert(4 * fee * vsize > u128::MAX) by (nonlinear_arith)
                        requires
                            vsize * f > u128::MAX,
                            fee == f,
                    ;
                    true
                },
                Some(p) => match p.checked_mul(4) {
                    None => {
                        assert(4 * fee * vsize == p * 4) by (nonlinear_arith)
                            requires
                                p == vsize * f,
                                fee == f,
                        ;
                        true
                    },
                    Some(q) => {
                        assert(4 * fee * vsize == q) by (nonlinear_arith)
                            requires
                                p == vsize * f,
                                q == p * 4,
                                fee == f,
                        ;
                        lhs <= q
                    },
                },
            }
        } else {
            assert(fee < 0);
            assert(vsize > 0 ==> 4 * fee * vsize < 0) by (nonlinear_arith)
                requires
                    fee < 0,
            ;
            assert(vsize == 0 ==> 4 * fee * vsize == 0) by (nonlinear_arith);
            lhs == 0 && vsize == 0
        };
        assert(bad == want);
        if bad {
            return Ok(true);
        }
        i = i + 1;
    }
    Ok(false)
}

/// Every input's script type is detected.
pub open spec fn all_kinds_detected(ins: Seq<TxInputView>) -> bool {
    forall|k: int| 0 <= k < ins.len() ==> #[trigger] input_type_of(ins[k]) is Some
}

/// Some input among the first `i` spends the script type `t`.
pub open spec fn spends_kind(ins: Seq<TxInputView>, i: int, t: InputKind) -> bool {
    exists|k: int| 0 <= k < i && #[trigger] input_type_of(ins[k]) == Some(t)
}

/// Script types that the first `i` inputs spend, each once, in order of
/// first use.
pub open spec fn kinds_upto(ins: Seq<TxInputView>, i: int) -> Seq<InputKind>
    decreases i,
{
    if i <= 0 {
        Seq::empty()
    } else {
        let prev = kinds_upto(ins, i - 1);
        let t = input_type_of(ins[i - 1]).unwrap();
        if prev.contains(t) {
            prev
        } else {
            prev.push(t)
        }
    }
}

/// `v` lists, each once, the script types that the inputs spend.
pub open spec fn lists_kinds(v: Seq<InputKind>, ins: Seq<TxInputView>) -> bool {
    &&& v.no_duplicates()
    &&& forall|t: InputKind| #[trigger] v.contains(t) <==> spends_kind(ins, ins.len() as int, t)
}

fn contains_kind(v: &Vec<InputKind>, t: InputKind) -> (r: bool)
    ensures
        r == v@.contains(t),
{
    let mut i: usize = 0;
    while i < v.len()
        invariant
            i <= v.len(),
            forall|k: int| 0 <= k < i ==> v@[k] != t,
        decreases v.len() - i,
    {
        if v[i] == t {
            return true;
        }
        i = i + 1;
    }
    false
}

/// The script types that the inputs spend, each once, in order of first use.
pub fn spent_input_kinds(tx: &Tx) -> (r: Result<Vec<InputKind>, AnalysisError>)
    ensures
        match r {
            Ok(v) => all_kinds_detected(tx@.inputs) && v@ == kinds_upto(
                tx@.inputs,
                tx@.inputs.len() as int,
            ) && lists_kinds(v@, tx@.inputs),
            Err(e) => !all_kinds_detected(tx@.inputs) && e == AnalysisError::UnparsableInput,
        },
        all_signatures_parse(tx@.inputs) ==> r is Ok,
{
    let ghost ins = tx@.inputs;
    let n = tx.inputs.len();
    let mut kinds: Vec<InputKind> = Vec::new();
    let mut i: usize = 0;
    while i < n
        invariant
            n == tx.inputs.len(),
            ins == tx@.inputs,
            i <= n,
            forall|k: int| 0 <= k < i ==> #[trigger] input_type_of(ins[k]) is Some,
            kinds@ == kinds_upto(ins, i as int),
            kinds@.no_duplicates(),
            forall|t: InputKind| #[trigger] kinds@.contains(t) <==> spends_kind(ins, i as int, t),
        decreases n - i,
    {
        assert(ins[i as int] == tx.inputs[i as int]@);
        match input_type(&tx.inputs[i]) {
            None => {
                assert(input_type_of(ins[i as int]) is None);
                assert(!signatures_readable(ins[i as int]));
                return Err(AnalysisError::UnparsableInput);
            },
            Some(t) => {
                let ghost old_kinds = kinds@;
                if !contains_kind(&kinds, t) {
                    kinds.push(t);
                    assert(kinds@ == old_kinds.push(t));
                    assert forall|a: int, b: int|
                        0 <= a < kinds@.len() && 0 <= b < kinds@.len() && a != b implies kinds@[a]
                        != kinds@[b] by {
                        if a < old_kinds.len() && b < old_kinds.len() {
                        } else if a == old_kinds.len() {
                            assert(old_kinds[b] != t) by {
                                if old_kinds[b] == t {
                                    assert(old_kinds.contains(t));
                                }
                            }
                        } else {
                            assert(old_kinds[a] != t) by {
                                if old_kinds[a] == t {
                                    assert(old_kinds.contains(t));
                                }
                            }
                        }
                    }
                }
                assert forall|u: InputKind| #[trigger] kinds@.contains(u) <==> spends_kind(
                    ins,
                    i + 1,
                    u,
                ) by {
                    if spends_kind(ins, i + 1, u) {
                        let k = choose|k: int| 0 <= k < i + 1 && #[trigger] input_type_of(ins[k]) == Some(u);
                        if k < i {
                            assert(spends_kind(ins, i as int, u));
                            assert(old_kinds.contains(u));
                            let x = choose|x: int| 0 <= x < old_kinds.len() && old_kinds[x] == u;
                            assert(kinds@[x] == u);
                        } else {
                            assert(u == t);
                            if old_kinds.contains(t) {
                                let x = choose|x: int| 0 <= x < old_kinds.len() && old_kinds[x] == u;
                                assert(kinds@[x] == u);
                            } else {
                                assert(kinds@[kinds@.len() - 1] == t);
                            }
                        }
                    }
                    if kinds@.contains(u) {
                        let x = choose|x: int| 0 <= x < kinds@.len() && kinds@[x] == u;
                        if x < old_kinds.len() {
                            assert(old_kinds[x] == u);
                            assert(old_kinds.contains(u));
                            let k = choose|k: int| 0 <= k < i && #[trigger] input_type_of(ins[k]) == Some(u);
                            assert(0 <= k < i + 1 && input_type_of(ins[k]) == Some(u));
                        } else {
                            assert(u == t);
                            assert(input_type_of(ins[i as int]) == Some(u));
                        }
                    }
                }
            },
        }
        i = i + 1;
    }
    Ok(kinds)
}

/// The features observed in one transaction.
#[derive(Clone, Debug)]
pub struct Heuristics {
    pub tx_version: i32,
    pub sequence_type: SequenceType,
    pub anti_fee_snipe: bool,
    pub prob_low_r: Probability,
    /// `None` for a transaction with one input and one output.
    pub prob_bip69: Option<Probability>,
    pub neg_ev: bool,
    /// Script types that the inputs spend, each once.
    pub input_types: Vec<InputKind>,
    /// The inputs spend more than one script type.
    pub mixed_input_types: bool,
    /// Whether the change output seems to share the inputs' script type, where
    /// that is known.
    pub maybe_same_change_type: Option<bool>,
}

impl Heuristics {
    pub open spec fn wf(&self) -> bool {
        &&& self.prob_low_r.wf()
        &&& (self.prob_bip69 matches Some(p) ==> p.wf())
    }
}

/// Error of the analysis of a transaction: a missing previous output comes
/// first, then signatures that cannot be read.
pub open spec fn heuristics_error(tx: TxView, entries: Seq<PrevOutView>) -> Option<AnalysisError> {
    if !all_prevouts_known(tx.inputs, entries) {
        Some(AnalysisError::MissingPreviousOutput)
    } else if !all_signatures_parse(tx.inputs) {
        Some(AnalysisError::UnparsableInput)
    } else {
        None
    }
}

/// Gathers every heuristic of a transaction. `prevouts` must hold the output
/// that each input spends; `confs` is the confirmation count where known and
/// `tip_height` the height of the chain tip.
pub fn check_heuristics(tx: &Tx, prevouts: &Vec<PrevOut>, confs: Option<u32>, tip_height: u64) -> (r:
    Result<Heuristics, AnalysisError>)
    ensures
        match r {
            Ok(h) => {
                &&& heuristics_error(tx@, prevout_views(prevouts@)) is None
                &&& h.wf()
                &&& h.tx_version == tx.version
                &&& h.sequence_type == sequence_type_of(input_sequences(tx@))
                &&& h.anti_fee_snipe == anti_fee_snipe_spec(tx.lock_time, confs, tip_height)
                &&& low_r_outcome(tx@) == Ok::<(nat, nat), AnalysisError>(
                    (h.prob_low_r.num(), h.prob_low_r.den()),
                )
                &&& !h.prob_low_r.certain
                &&& h.prob_low_r.outcomes == 1
                &&& h.prob_low_r.doublings == low_r_exponent(tx@.inputs)
                &&& option_fraction(h.prob_bip69) == bip69_estimate(tx@)
                &&& (h.prob_bip69 matches Some(p) ==> p.doublings == 0 && (p.certain ==> p.outcomes
                    == 1))
                &&& neg_ev_outcome(tx@, prevout_views(prevouts@)) == Ok::<bool, AnalysisError>(
                    h.neg_ev,
                )
                &&& h.input_types@ == kinds_upto(tx@.inputs, tx@.inputs.len() as int)
                &&& lists_kinds(h.input_types@, tx@.inputs)
                &&& h.mixed_input_types == (h.input_types@.len() > 1)
                &&& h.maybe_same_change_type is None
            },
            Err(e) => heuristics_error(tx@, prevout_views(prevouts@)) == Some(e),
        },
{
    let sequence_type = classify_sequences(tx);
    let anti_fee_snipe = probably_anti_fee_snipe(tx, confs, tip_height);
    let neg_ev = match spends_negative_ev(tx, prevouts) {
        Ok(b) => b,
        Err(e) => {
            return Err(e);
        },
    };
    let prob_low_r = match probability_low_r_grinding(tx) {
        Ok(p) => p,
        Err(e) => {
            return Err(e);
        },
    };
    let prob_bip69 = probability_bip69(tx);
    let input_types = match spent_input_kinds(tx) {
        Ok(v) => v,
        Err(e) => {
            return Err(e);
        },
    };
    let mixed_input_types = input_types.len() > 1;
    Ok(
        Heuristics {
            tx_version: tx.version,
            sequence_type,
            anti_fee_snipe,
            prob_low_r,
            prob_bip69,
            neg_ev,
            input_types,
            mixed_input_types,
            maybe_same_change_type: None,
        },
    )
}

/// The BIP-69 estimate is absent exactly for one input and one output,
/// whatever the transaction holds.
pub proof fn lemma_bip69_absent(tx: TxView)
    ensures
        (tx.inputs.len() == 1 && tx.outputs.len() == 1) <==> bip69_estimate(tx) is None,
{
}

/// A transaction out of BIP-69 order gets the BIP-69 estimate 0.
pub proof fn lemma_bip69_violated(tx: TxView)
    requires
        !(tx.inputs.len() == 1 && tx.outputs.len() == 1),
        !bip69_ordered(tx),
    ensures
        bip69_estimate(tx) == Some((0nat, 1nat)),
{
}

/// A transaction in BIP-69 order with at least 13 inputs and 13 outputs,
/// whose arrangements outnumber 64 bits, gets the BIP-69 estimate 1.
pub proof fn lemma_bip69_overflow(tx: TxView)
    requires
        tx.inputs.len() >= 13,
        tx.outputs.len() >= 13,
        bip69_ordered(tx),
    ensures
        bip69_estimate(tx) == Some((1nat, 1nat)),
{
    lemma_factorial_values();
    lemma_factorial_grows(13, tx.inputs.len());
    lemma_factorial_grows(13, tx.outputs.len());
    let fa = factorial(tx.inputs.len());
    let fb = factorial(tx.outputs.len());
    assert(fa * fb > u64::MAX) by (nonlinear_arith)
        requires
            fa >= 6227020800,
            fb >= 6227020800,
    ;
}

/// The low-R estimate is 0 when some ECDSA signature has a high R; otherwise
/// it is `1 - 1/2^n` for `n` ECDSA signatures, which is exactly 0 for none.
pub proof fn lemma_low_r_estimate(tx: TxView)
    requires
        all_signatures_parse(tx.inputs),
    ensures
        any_high_r(tx.inputs) ==> low_r_outcome(tx) == Ok::<(nat, nat), AnalysisError>(
            (0nat, 1nat),
        ),
        !any_high_r(tx.inputs) ==> low_r_outcome(tx) == Ok::<(nat, nat), AnalysisError>(
            (
                (pow2(ecdsa_count_upto(tx.inputs, tx.inputs.len() as int)) - 1) as nat,
                pow2(ecdsa_count_upto(tx.inputs, tx.inputs.len() as int)),
            ),
        ),
        ecdsa_count_upto(tx.inputs, tx.inputs.len() as int) == 0 ==> low_r_outcome(tx) == Ok::<
            (nat, nat),
            AnalysisError,
        >((0nat, 1nat)),
{
    vstd::arithmetic::power2::lemma2_to64();
}

/// Without a lock-time there is no anti-fee-sniping signal, whatever the
/// confirmations and the tip height.
pub proof fn lemma_no_lock_time(confs: Option<u32>, tip_height: u64)
    ensures
        !anti_fee_snipe_spec(0, confs, tip_height),
{
}

/// With the fee rate `4 * fee / weight` per virtual byte, the transaction
/// spends negative expected value exactly when some input's value less the
/// rate times its virtual size is at most 0 (both sides multiplied by the
/// positive weight).
pub proof fn lemma_neg_ev_rate(tx: TxView, entries: Seq<PrevOutView>)
    requires
        all_prevouts_known(tx.inputs, entries),
        weight_of(tx) > 0,
    ensures
        neg_ev_outcome(tx, entries) == Ok::<bool, AnalysisError>(
            exists|k: int|
                0 <= k < tx.inputs.len() && #[trigger] spent_value(tx.inputs, entries, k) * weight_of(
                    tx,
                ) - 4 * fee_of(tx, entries) * input_vsize(tx.inputs[k]) <= 0,
        ),
{
    let a = exists|k: int| 0 <= k < tx.inputs.len() && #[trigger] uneconomic(tx, entries, k);
    let b = exists|k: int|
        0 <= k < tx.inputs.len() && #[trigger] spent_value(tx.inputs, entries, k) * weight_of(tx) - 4
            * fee_of(tx, entries) * input_vsize(tx.inputs[k]) <= 0;
    if a {
        let k = choose|k: int| 0 <= k < tx.inputs.len() && #[trigger] uneconomic(tx, entries, k);
        assert(spent_value(tx.inputs, entries, k) * weight_of(tx) - 4 * fee_of(tx, entries)
            * input_vsize(tx.inputs[k]) <= 0);
    }
    if b {
        let k = choose|k: int|
            0 <= k < tx.inputs.len() && #[trigger] spent_value(tx.inputs, entries, k) * weight_of(tx)
                - 4 * fee_of(tx, entries) * input_vsize(tx.inputs[k]) <= 0;
        assert(uneconomic(tx, entries, k));
    }
}

} // verus!
