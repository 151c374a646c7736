//! Plain-value model of a transaction and of the values the heuristics report.

use vstd::prelude::*;
use vstd::arithmetic::power2::{pow2, lemma2_to64, lemma_pow2_strictly_increases, lemma_pow2_pos};

verus! {

/// Reference to an output of an earlier transaction.
#[derive(Clone, Copy, Debug)]
pub struct OutPoint {
    /// Id of the transaction that holds the output, in internal byte order.
    pub txid: [u8; 32],
    /// Index of the output in that transaction.
    pub vout: u32,
}

pub struct OutPointView {
    pub txid: Seq<u8>,
    pub vout: u32,
}

impl View for OutPoint {
    type V = OutPointView;

    open spec fn view(&self) -> OutPointView {
        OutPointView { txid: self.txid@, vout: self.vout }
    }
}

/// A transaction input.
#[derive(Clone, Debug)]
pub struct TxInput {
    pub previous_output: OutPoint,
    pub script_sig: Vec<u8>,
    pub sequence: u32,
    /// Witness stack items, bottom first.
    pub witness: Vec<Vec<u8>>,
}

pub struct TxInputView {
    pub previous_output: OutPointView,
    pub script_sig: Seq<u8>,
    pub sequence: u32,
    pub witness: Seq<Seq<u8>>,
}

impl View for TxInput {
    type V = TxInputView;

    open spec fn view(&self) -> TxInputView {
        TxInputView {
            previous_output: self.previous_output@,
            script_sig: self.script_sig@,
            sequence: self.sequence,
            witness: self.witness@.map_values(|w: Vec<u8>| w@),
        }
    }
}

/// A transaction output: an amount in satoshis and the script that locks it.
#[derive(Clone, Debug)]
pub struct TxOutput {
    pub value: u64,
    pub script_pubkey: Vec<u8>,
}

pub struct TxOutputView {
    pub value: u64,
    pub script_pubkey: Seq<u8>,
}

impl View for TxOutput {
    type V = TxOutputView;

    open spec fn view(&self) -> TxOutputView {
        TxOutputView { value: self.value, script_pubkey: self.script_pubkey@ }
    }
}

/// A transaction as observed on chain.
#[derive(Clone, Debug)]
pub struct Tx {
    pub version: i32,
    pub lock_time: u32,
    pub inputs: Vec<TxInput>,
    pub outputs: Vec<TxOutput>,
}

pub struct TxView {
    pub version: i32,
    pub lock_time: u32,
    pub inputs: Seq<TxInputView>,
    pub outputs: Seq<TxOutputView>,
}

impl View for Tx {
    type V = TxView;

    open spec fn view(&self) -> TxView {
        TxView {
            version: self.version,
            lock_time: self.lock_time,
            inputs: self.inputs@.map_values(|i: TxInput| i@),
            outputs: self.outputs@.map_values(|o: TxOutput| o@),
        }
    }
}

/// One entry of the previous-outputs map: the output that an outpoint names.
#[derive(Clone, Debug)]
pub struct PrevOut {
    pub outpoint: OutPoint,
    pub output: TxOutput,
}

pub struct PrevOutView {
    pub outpoint: OutPointView,
    pub output: TxOutputView,
}

impl View for PrevOut {
    type V = PrevOutView;

    open spec fn view(&self) -> PrevOutView {
        PrevOutView { outpoint: self.outpoint@, output: self.output@ }
    }
}

/// The kind of output script an input spends, as rawtx-rs detects it.
#[derive(Clone, Copy, Debug, PartialEq, Eq, Structural)]
pub enum InputKind {
    P2pk,
    P2pkLaxDer,
    P2pkh,
    P2pkhLaxDer,
    P2shP2wpkh,
    P2wpkh,
    P2ms,
    P2msLaxDer,
    P2sh,
    P2shP2wsh,
    P2wsh,
    P2trkp,
    P2trsp,
    P2a,
    Coinbase,
    CoinbaseWitness,
    Unknown,
}

/// Why the analysis of a transaction was aborted.
#[derive(Clone, Copy, Debug, PartialEq, Eq, Structural)]
pub enum AnalysisError {
    /// An input spends an outpoint that the previous-outputs map lacks.
    MissingPreviousOutput,
    /// The scripts or signatures of an input could not be parsed.
    UnparsableInput,
}

/// An exact probability. When `certain` it is 1; otherwise it is
/// `1 - 1/(outcomes * 2^doublings)`: one chance among that many equally
/// likely cases that a pattern arose by coincidence. Contracts speak of the
/// value through `num` and `den`; `==` compares the representation.
#[derive(Clone, Copy, Debug, PartialEq, Eq, Structural)]
pub struct Probability {
    pub certain: bool,
    pub outcomes: u64,
    pub doublings: u128,
}

impl Probability {
    pub open spec fn wf(&self) -> bool {
        self.certain || self.outcomes >= 1
    }

    /// Number of equally likely cases when not certain.
    pub open spec fn cases(&self) -> nat {
        self.outcomes as nat * pow2(self.doublings as nat)
    }

    /// Numerator of the probability as a fraction.
    pub open spec fn num(&self) -> nat {
        if self.certain { 1 } else { (self.cases() - 1) as nat }
    }

    /// Denominator of the probability as a fraction.
    pub open spec fn den(&self) -> nat {
        if self.certain { 1 } else { self.cases() }
    }

    /// The probability 0.
    pub fn zero() -> (r: Probability)
        ensures
            r.wf(),
            r.num() == 0,
            r.den() == 1,
            !r.certain && r.outcomes == 1 && r.doublings == 0,
    {
        proof {
            lemma2_to64();
        }
        Probability { certain: false, outcomes: 1, doublings: 0 }
    }

    /// The probability 1.
    pub fn one() -> (r: Probability)
        ensures
            r.wf(),
            r.num() == 1,
            r.den() == 1,
            r.certain && r.outcomes == 1 && r.doublings == 0,
    {
        Probability { certain: true, outcomes: 1, doublings: 0 }
    }

    /// How the number of cases depends on the representation.
    pub proof fn lemma_cases(&self)
        requires
            self.outcomes >= 1,
        ensures
            self.doublings >= 2 ==> self.cases() >= 4,
            self.doublings == 1 ==> self.cases() == 2 * self.outcomes,
            self.doublings == 0 ==> self.cases() == self.outcomes,
    {
        lemma2_to64();
        lemma_pow2_pos(self.doublings as nat);
        let p = pow2(self.doublings as nat);
        let o = self.outcomes as nat;
        assert(o * p >= p) by (nonlinear_arith)
            requires
                o >= 1,
                p >= 1,
        ;
        if self.doublings > 2 {
            lemma_pow2_strictly_increases(2, self.doublings as nat);
        }
        if self.doublings == 1 {
            assert(o * p == 2 * o) by (nonlinear_arith)
                requires
                    p == 2,
            ;
        }
        if self.doublings == 0 {
            assert(o * p == o) by (nonlinear_arith)
                requires
                    p == 1,
            ;
        }
    }

    /// True when the probability exceeds one half.
    pub fn more_likely_than_not(&self) -> (r: bool)
        requires
            self.wf(),
        ensures
            r == (2 * self.num() > self.den()),
    {
        if self.certain {
            return true;
        }
        proof {
            self.lemma_cases();
        }
        self.doublings >= 2 || (self.doublings == 1 && self.outcomes >= 2) || self.outcomes >= 3
    }

    /// True when the probability is below one half.
    pub fn less_likely_than_not(&self) -> (r: bool)
        requires
            self.wf(),
        ensures
            r == (2 * self.num() < self.den()),
    {
        if self.certain {
            return false;
        }
        proof {
            self.lemma_cases();
        }
        self.doublings == 0 && self.outcomes == 1
    }
}

} // verus!
