//! What the library takes from bitcoin, rawtx-rs and factorial: each call
//! stands in one small function whose contract states what it relies on.

use vstd::prelude::*;
use factorial::Factorial;
use rawtx_rs::input::InputTypeDetection;
use rawtx_rs::input::InputType as RawType;
use rawtx_rs::script::SignatureType;
use crate::model::{InputKind, Tx, TxView, TxInput, TxInputView};

verus! {

#[verifier::external_type_specification]
#[verifier::external_body]
pub struct ExTxIn(bitcoin::TxIn);

#[verifier::external_type_specification]
#[verifier::external_body]
pub struct ExTransaction(bitcoin::Transaction);

#[verifier::external_type_specification]
#[verifier::external_body]
pub struct ExRawType(RawType);

/// `n!`
pub open spec fn factorial(n: nat) -> nat
    decreases n,
{
    if n == 0 {
        1
    } else {
        n * factorial((n - 1) as nat)
    }
}

/// Script type that rawtx-rs detects for an input; `None` where its scripts
/// do not parse.
pub uninterp spec fn input_type_of(input: TxInputView) -> Option<InputKind>;

/// For each signature that rawtx-rs finds in an input, in order: the first
/// byte of its compact encoding for an ECDSA signature, `None` for a Schnorr
/// one. `None` in place of the list where the input does not parse.
pub uninterp spec fn signature_leads_of(input: TxInputView) -> Option<Seq<Option<u8>>>;

/// BIP-141 weight of a transaction, in weight units.
pub uninterp spec fn weight_of(tx: TxView) -> u64;

/// Bytes that an input takes in a transaction, witness left out.
pub uninterp spec fn input_base_size_of(input: TxInputView) -> usize;

/// Bytes that a witness stack takes in a transaction.
pub uninterp spec fn witness_size_of(witness: Seq<Seq<u8>>) -> usize;

/// An input without witness whose script_sig opens with OP_PUSHDATA1, 2 or
/// 4.
pub open spec fn pushdata_led(input: TxInputView) -> bool {
    &&& input.witness.len() == 0
    &&& input.script_sig.len() > 0
    &&& 0x4c <= input.script_sig[0] <= 0x4e
}

/// A pushdata-led input that rawtx-rs types as P2PK: for that type it reads
/// the signature from the second byte of the script_sig on, which here is
/// the push's length, and panics.
pub open spec fn misread_p2pk(input: TxInputView) -> bool {
    &&& pushdata_led(input)
    &&& (input_type_of(input) == Some(InputKind::P2pk) || input_type_of(input) == Some(
        InputKind::P2pkLaxDer,
    ))
}

/// Builds bitcoin's input from the plain one, field by field.
#[verifier::external_body]
fn bitcoin_txin(input: &TxInput) -> bitcoin::TxIn {
    bitcoin::TxIn {
        previous_output: bitcoin::OutPoint::new(
            <bitcoin::Txid as bitcoin::hashes::Hash>::from_byte_array(input.previous_output.txid),
            input.previous_output.vout,
        ),
        script_sig: bitcoin::ScriptBuf::from_bytes(input.script_sig.clone()),
        sequence: bitcoin::Sequence(input.sequence),
        witness: bitcoin::Witness::from_slice(&input.witness),
    }
}

/// Builds bitcoin's transaction from the plain one, field by field.
#[verifier::external_body]
fn bitcoin_transaction(tx: &Tx) -> bitcoin::Transaction {
    bitcoin::Transaction {
        version: bitcoin::transaction::Version(tx.version),
        lock_time: bitcoin::absolute::LockTime::from_consensus(tx.lock_time),
        input: tx.inputs.iter().map(bitcoin_txin).collect(),
        output: tx.outputs.iter().map(|o| bitcoin::TxOut {
            value: bitcoin::Amount::from_sat(o.value),
            script_pubkey: bitcoin::ScriptBuf::from_bytes(o.script_pubkey.clone()),
        }).collect(),
    }
}

/// Maps rawtx-rs's input type to the library's, variant for variant.
#[verifier::external_body]
fn from_raw_type(t: RawType) -> InputKind {
    match t {
        RawType::P2pk => InputKind::P2pk, RawType::P2pkLaxDer => InputKind::P2pkLaxDer,
        RawType::P2pkh => InputKind::P2pkh, RawType::P2pkhLaxDer => InputKind::P2pkhLaxDer,
        RawType::P2shP2wpkh => InputKind::P2shP2wpkh, RawType::P2wpkh => InputKind::P2wpkh,
        RawType::P2ms => InputKind::P2ms, RawType::P2msLaxDer => InputKind::P2msLaxDer,
        RawType::P2sh => InputKind::P2sh, RawType::P2shP2wsh => InputKind::P2shP2wsh,
        RawType::P2wsh => InputKind::P2wsh, RawType::P2trkp => InputKind::P2trkp,
        RawType::P2trsp => InputKind::P2trsp, RawType::P2a => InputKind::P2a,
        RawType::Coinbase => InputKind::Coinbase,
        RawType::CoinbaseWitness => InputKind::CoinbaseWitness,
        RawType::Unknown => InputKind::Unknown,
    }
}

/// Relies on rawtx-rs's `InputTypeDetection::get_type`: the script type an
/// input spends, detected from its outpoint, script_sig and witness.
/// `SignatureInfo::all_from` begins with the same `get_type` call and fails
/// where it fails, so where signatures are found the type is detected too.
#[verifier::external_body]
pub(crate) fn input_type(input: &TxInput) -> (r: Option<InputKind>)
    ensures
        r == input_type_of(input@),
        !misread_p2pk(input@) && signature_leads_of(input@) is Some ==> r is Some,
{
    bitcoin_txin(input).get_type().ok().map(from_raw_type)
}

/// Relies on rawtx-rs's `SignatureInfo::all_from`, which decodes the
/// signatures in an input's scripts, and on secp256k1's
/// `ecdsa::Signature::serialize_compact`, whose first 32 bytes are R. The
/// inputs on which `all_from` panics are left out.
#[verifier::external_body]
pub(crate) fn signature_leads(input: &TxInput) -> (r: Option<Vec<Option<u8>>>)
    requires
        !misread_p2pk(input@),
    ensures
        r is None <==> signature_leads_of(input@) is None,
        r matches Some(v) ==> signature_leads_of(input@) == Some(v@),
{
    let infos = rawtx_rs::script::SignatureInfo::all_from(&bitcoin_txin(input)).ok()?;
    Some(infos.iter().map(|i| match &i.signature {
        SignatureType::Ecdsa(s) => Some(s.serialize_compact()[0]),
        SignatureType::Schnorr(_) => None,
    }).collect())
}

/// Relies on bitcoin's `Transaction::weight`.
#[verifier::external_body]
pub(crate) fn weight(tx: &Tx) -> (r: u64)
    ensures
        r == weight_of(tx@),
{
    bitcoin_transaction(tx).weight().to_wu()
}

/// Relies on bitcoin's `TxIn::base_size`: the size of the input's consensus
/// encoding, which leaves the witness out.
#[verifier::external_body]
pub(crate) fn input_base_size(input: &TxInput) -> (r: usize)
    ensures
        r == input_base_size_of(input@),
{
    bitcoin_txin(input).base_size()
}

/// Relies on bitcoin's `Witness::size`: the size of the witness's consensus
/// encoding.
#[verifier::external_body]
pub(crate) fn witness_size(input: &TxInput) -> (r: usize)
    ensures
        r == witness_size_of(input@.witness),
{
    bitcoin::Witness::from_slice(&input.witness).size()
}

/// Relies on factorial's `Factorial::checked_factorial` for `u64`: below 35
/// it reads `n!` from a table and gives `None` where `n!` exceeds `u64::MAX`.
#[verifier::external_body]
pub(crate) fn checked_factorial(n: u64) -> (r: Option<u64>)
    requires
        n < 35,
    ensures
        r == (if factorial(n as nat) <= u64::MAX {
            Some(factorial(n as nat) as u64)
        } else {
            None::<u64>
        }),
{
    n.checked_factorial()
}

} // verus!
