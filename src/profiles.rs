//! Rule chains that grade how likely a wallet produced a transaction, from
//! its heuristics.

use vstd::prelude::*;
use crate::behaviors::{
    any_high_r, anti_fee_snipe_spec, bip69_estimate, ecdsa_count_upto, low_r_exponent,
    option_fraction, Heuristics,
};
use crate::model::TxView;
use crate::sequence::{
    input_sequences, lemma_single_value, sequence_type_of, MAX_BIP125_RBF_SEQUENCE,
};
use crate::model::InputKind;
use crate::sequence::SequenceType;

verus! {

/// Verdict of a wallet profile, from weakest to strongest.
#[derive(Clone, Copy, Debug, PartialEq, Eq, Structural, PartialOrd, Ord)]
pub enum WalletConfidence {
    DefinitelyNot,
    ProbablyNot,
    Indeterminate,
    MaybeYes,
    ProbablyYes,
}

/// The sequence numbers that both wallets use: all RBF, or all non-final.
pub open spec fn rbf_or_non_final(t: SequenceType) -> bool {
    t == SequenceType::OnlyRBF || t == SequenceType::OnlyNonFinal
}

/// Bitcoin Core's rules: version 2, RBF or non-final sequences, low-R
/// signatures more likely than not (else definitely not); anti-fee-sniping
/// lock-time, and no sign of BIP-69 ordering (else probably not). Core spends
/// many script types, so the input types are not restricted.
pub open spec fn core_verdict(h: Heuristics) -> WalletConfidence {
    if h.tx_version != 2 {
        WalletConfidence::DefinitelyNot
    } else if !rbf_or_non_final(h.sequence_type) {
        WalletConfidence::DefinitelyNot
    } else if !(2 * h.prob_low_r.num() > h.prob_low_r.den()) {
        WalletConfidence::DefinitelyNot
    } else if !h.anti_fee_snipe {
        WalletConfidence::ProbablyNot
    } else if h.prob_bip69 matches Some(p) && 2 * p.num() > p.den() {
        WalletConfidence::ProbablyNot
    } else {
        WalletConfidence::MaybeYes
    }
}

/// Script types that Electrum spends.
pub open spec fn electrum_spends(t: InputKind) -> bool {
    t == InputKind::P2pkh || t == InputKind::P2shP2wpkh || t == InputKind::P2wpkh
}

/// Electrum's rules: Core's version, sequence and low-R gates, inputs of one
/// script type that Electrum spends, and change of the same type where known
/// (else definitely not); anti-fee-sniping lock-time, no uneconomic input,
/// and no sign against BIP-69 ordering (else probably not).
pub open spec fn electrum_verdict(h: Heuristics) -> WalletConfidence {
    if h.tx_version != 2 {
        WalletConfidence::DefinitelyNot
    } else if !rbf_or_non_final(h.sequence_type) {
        WalletConfidence::DefinitelyNot
    } else if !(2 * h.prob_low_r.num() > h.prob_low_r.den()) {
        WalletConfidence::DefinitelyNot
    } else if h.mixed_input_types {
        WalletConfidence::DefinitelyNot
    } else if h.maybe_same_change_type == Some(false) {
        WalletConfidence::DefinitelyNot
    } else if exists|k: int|
        0 <= k < h.input_types@.len() && !electrum_spends(#[trigger] h.input_types@[k]) {
        WalletConfidence::DefinitelyNot
    } else if !h.anti_fee_snipe {
        WalletConfidence::ProbablyNot
    } else if h.neg_ev {
        WalletConfidence::ProbablyNot
    } else if h.prob_bip69 matches Some(p) && 2 * p.num() < p.den() {
        WalletConfidence::ProbablyNot
    } else {
        WalletConfidence::MaybeYes
    }
}

fn is_rbf_or_non_final(t: SequenceType) -> (r: bool)
    ensures
        r == rbf_or_non_final(t),
{
    match t {
        SequenceType::OnlyRBF => true,
        SequenceType::OnlyNonFinal => true,
        _ => false,
    }
}

/// How likely Bitcoin Core built the transaction.
pub fn maybe_bitcoin_core(h: &Heuristics) -> (r: WalletConfidence)
    requires
        h.wf(),
    ensures
        r == core_verdict(*h),
{
    if h.tx_version != 2 {
        return WalletConfidence::DefinitelyNot;
    }
    if !is_rbf_or_non_final(h.sequence_type) {
        return WalletConfidence::DefinitelyNot;
    }
    if !h.prob_low_r.more_likely_than_not() {
        return WalletConfidence::DefinitelyNot;
    }
    if !h.anti_fee_snipe {
        return WalletConfidence::ProbablyNot;
    }
    if let Some(p) = h.prob_bip69 {
        if p.more_likely_than_not() {
            return WalletConfidence::ProbablyNot;
        }
    }
    WalletConfidence::MaybeYes
}

fn electrum_spends_kind(t: InputKind) -> (r: bool)
    ensures
        r == electrum_spends(t),
{
    match t {
        InputKind::P2pkh => true,
        InputKind::P2shP2wpkh => true,
        InputKind::P2wpkh => true,
        _ => false,
    }
}

/// How likely Electrum built the transaction.
pub fn analyze_electrum(h: &Heuristics) -> (r: WalletConfidence)
    requires
        h.wf(),
    ensures
        r == electrum_verdict(*h),
{
    if h.tx_version != 2 {
        return WalletConfidence::DefinitelyNot;
    }
    if !is_rbf_or_non_final(h.sequence_type) {
        return WalletConfidence::DefinitelyNot;
    }
    if !h.prob_low_r.more_likely_than_not() {
        return WalletConfidence::DefinitelyNot;
    }
    if h.mixed_input_types {
        return WalletConfidence::DefinitelyNot;
    }
    if let Some(same) = h.maybe_same_change_type {
        if !same {
            return WalletConfidence::DefinitelyNot;
        }
    }
    let mut i: usize = 0;
    while i < h.input_types.len()
        invariant
            i <= h.input_types@.len(),
            forall|k: int| 0 <= k < i ==> electrum_spends(#[trigger] h.input_types@[k]),
        decreases h.input_types.len() - i,
    {
        if !electrum_spends_kind(h.input_types[i]) {
            return WalletConfidence::DefinitelyNot;
        }
        i = i + 1;
    }
    if !h.anti_fee_snipe {
        return WalletConfidence::ProbablyNot;
    }
    if h.neg_ev {
        return WalletConfidence::ProbablyNot;
    }
    if let Some(p) = h.prob_bip69 {
        if p.less_likely_than_not() {
            return WalletConfidence::ProbablyNot;
        }
    }
    WalletConfidence::MaybeYes
}

/// A transaction of one input and one output, whose input signals RBF and
/// carries two or more ECDSA signatures, all with a low R, and whose
/// lock-time lies 50 blocks below the tip, is maybe Bitcoin Core when its
/// version is 2 and definitely not otherwise. `h` is what `check_heuristics`
/// returns for it.
pub proof fn lemma_core_rbf_low_r(tx: TxView, h: Heuristics, confs: Option<u32>, tip_height: u64)
    requires
        h.wf(),
        h.tx_version == tx.version,
        h.sequence_type == sequence_type_of(input_sequences(tx)),
        h.anti_fee_snipe == anti_fee_snipe_spec(tx.lock_time, confs, tip_height),
        !h.prob_low_r.certain,
        h.prob_low_r.outcomes == 1,
        h.prob_low_r.doublings == low_r_exponent(tx.inputs),
        option_fraction(h.prob_bip69) == bip69_estimate(tx),
        tx.inputs.len() == 1,
        tx.outputs.len() == 1,
        tx.inputs[0].sequence == MAX_BIP125_RBF_SEQUENCE,
        !any_high_r(tx.inputs),
        ecdsa_count_upto(tx.inputs, 1) >= 2,
        tx.lock_time > 0,
        tx.lock_time == tip_height - 50,
    ensures
        tx.version == 2 ==> core_verdict(h) == WalletConfidence::MaybeYes,
        tx.version != 2 ==> core_verdict(h) == WalletConfidence::DefinitelyNot,
{
    let seqs = input_sequences(tx);
    assert(seqs[0] == MAX_BIP125_RBF_SEQUENCE);
    lemma_single_value(seqs, MAX_BIP125_RBF_SEQUENCE);
    h.prob_low_r.lemma_cases();
    assert(h.prob_bip69 is None);
}

/// Bitcoin Core's verdict does not depend on the inputs' script types, nor
/// on anything else but version, sequences, low-R and BIP-69 estimates and
/// the lock-time signal.
pub proof fn lemma_core_ignores_input_types(h: Heuristics, g: Heuristics)
    requires
        g.tx_version == h.tx_version,
        g.sequence_type == h.sequence_type,
        g.prob_low_r == h.prob_low_r,
        g.anti_fee_snipe == h.anti_fee_snipe,
        g.prob_bip69 == h.prob_bip69,
    ensures
        core_verdict(g) == core_verdict(h),
{
}

/// Inputs of more than one script type, or of a type Electrum does not
/// spend, rule Electrum out.
pub proof fn lemma_electrum_refuses_input_types(h: Heuristics, k: int)
    requires
        h.mixed_input_types || (0 <= k < h.input_types@.len() && !electrum_spends(
            h.input_types@[k],
        )),
    ensures
        electrum_verdict(h) == WalletConfidence::DefinitelyNot,
{
}

} // verus!
