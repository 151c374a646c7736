use walletfp::behaviors::{
    check_heuristics, get_input_vsize, probability_bip69, probability_low_r_grinding,
    probably_anti_fee_snipe, spends_negative_ev, spent_input_kinds, Heuristics,
};
use walletfp::model::{AnalysisError, InputKind, OutPoint, PrevOut, Probability, Tx, TxInput, TxOutput};
use walletfp::profiles::{analyze_electrum, maybe_bitcoin_core, WalletConfidence};
use walletfp::sequence::{
    classify_sequences, SequenceType, MAX_BIP125_RBF_SEQUENCE, MAX_NON_FINAL_SEQUENCE,
    MAX_SEQUENCE,
};

const PUBKEY: [u8; 33] = [
    0x02, 0x79, 0xBE, 0x66, 0x7E, 0xF9, 0xDC, 0xBB, 0xAC, 0x55, 0xA0, 0x62, 0x95, 0xCE, 0x87,
    0x0B, 0x07, 0x02, 0x9B, 0xFC, 0xDB, 0x2D, 0xCE, 0x28, 0xD9, 0x59, 0xF2, 0x81, 0x5B, 0x16,
    0xF8, 0x17, 0x98,
];

fn low_r_sig() -> Vec<u8> {
    let mut v = vec![0x30, 0x44, 0x02, 0x20];
    v.extend_from_slice(&[0x11; 32]);
    v.extend_from_slice(&[0x02, 0x20]);
    v.extend_from_slice(&[0x22; 32]);
    v.push(0x01);
    v
}

fn high_r_sig() -> Vec<u8> {
    let mut v = vec![0x30, 0x45, 0x02, 0x21, 0x00];
    v.extend_from_slice(&[0x91; 32]);
    v.extend_from_slice(&[0x02, 0x20]);
    v.extend_from_slice(&[0x22; 32]);
    v.push(0x01);
    v
}

fn outpoint(id: u8, vout: u32) -> OutPoint {
    OutPoint { txid: [id; 32], vout }
}

fn p2wpkh_input(id: u8, sequence: u32, sig: Vec<u8>) -> TxInput {
    TxInput {
        previous_output: outpoint(id, 0),
        script_sig: vec![],
        sequence,
        witness: vec![sig, PUBKEY.to_vec()],
    }
}

fn p2pkh_input(id: u8, sequence: u32, sig: Vec<u8>) -> TxInput {
    let mut script = vec![sig.len() as u8];
    script.extend_from_slice(&sig);
    script.push(33);
    script.extend_from_slice(&PUBKEY);
    TxInput { previous_output: outpoint(id, 0), script_sig: script, sequence, witness: vec![] }
}

/// A 2-of-2 witness-script spend: two signatures in one input.
fn p2wsh_input(id: u8, sequence: u32) -> TxInput {
    let mut script = vec![0x52, 33];
    script.extend_from_slice(&PUBKEY);
    script.push(33);
    script.extend_from_slice(&PUBKEY);
    script.extend_from_slice(&[0x52, 0xae]);
    TxInput {
        previous_output: outpoint(id, 0),
        script_sig: vec![],
        sequence,
        witness: vec![vec![], low_r_sig(), low_r_sig(), script],
    }
}

fn bare_input(id: u8, vout: u32, sequence: u32) -> TxInput {
    TxInput { previous_output: outpoint(id, vout), script_sig: vec![], sequence, witness: vec![] }
}

fn output(value: u64) -> TxOutput {
    TxOutput { value, script_pubkey: vec![0x00, 0x14, 0xAB, 0xCD] }
}

fn tx(version: i32, lock_time: u32, inputs: Vec<TxInput>, outputs: Vec<TxOutput>) -> Tx {
    Tx { version, lock_time, inputs, outputs }
}

fn with_sequences(seqs: &[u32]) -> Tx {
    let inputs = seqs.iter().enumerate().map(|(i, s)| bare_input(i as u8, 0, *s)).collect();
    tx(2, 0, inputs, vec![output(1000)])
}

fn prevouts_for(t: &Tx, values: &[u64]) -> Vec<PrevOut> {
    t.inputs
        .iter()
        .zip(values.iter())
        .map(|(i, v)| PrevOut { outpoint: i.previous_output, output: output(*v) })
        .collect()
}

fn value(p: &Probability) -> f64 {
    if p.certain {
        1.0
    } else {
        1.0 - 1.0 / (p.outcomes as f64 * 2f64.powi(p.doublings as i32))
    }
}

#[test]
fn single_sequence_values() {
    assert_eq!(classify_sequences(&with_sequences(&[MAX_SEQUENCE])), SequenceType::OnlyFinal);
    assert_eq!(
        classify_sequences(&with_sequences(&[MAX_NON_FINAL_SEQUENCE, MAX_NON_FINAL_SEQUENCE])),
        SequenceType::OnlyNonFinal
    );
    assert_eq!(
        classify_sequences(&with_sequences(&[MAX_BIP125_RBF_SEQUENCE; 3])),
        SequenceType::OnlyRBF
    );
    assert_eq!(classify_sequences(&with_sequences(&[7, 7])), SequenceType::Custom);
}

#[test]
fn mixed_sequence_values() {
    assert_eq!(
        classify_sequences(&with_sequences(&[MAX_NON_FINAL_SEQUENCE, MAX_BIP125_RBF_SEQUENCE])),
        SequenceType::MixedRBFNonFinal
    );
    assert_eq!(
        classify_sequences(&with_sequences(&[
            MAX_BIP125_RBF_SEQUENCE,
            MAX_NON_FINAL_SEQUENCE,
            MAX_BIP125_RBF_SEQUENCE
        ])),
        SequenceType::MixedRBFNonFinal
    );
    assert_eq!(classify_sequences(&with_sequences(&[5, MAX_SEQUENCE])), SequenceType::MixedFinal);
    assert_eq!(
        classify_sequences(&with_sequences(&[MAX_SEQUENCE, MAX_BIP125_RBF_SEQUENCE])),
        SequenceType::MixedFinal
    );
    assert_eq!(
        classify_sequences(&with_sequences(&[5, MAX_NON_FINAL_SEQUENCE])),
        SequenceType::Custom
    );
    assert_eq!(
        classify_sequences(&with_sequences(&[5, MAX_BIP125_RBF_SEQUENCE])),
        SequenceType::Custom
    );
    assert_eq!(classify_sequences(&with_sequences(&[1, 2, 3])), SequenceType::Custom);
}

#[test]
fn sequence_order_does_not_matter() {
    let a = [MAX_BIP125_RBF_SEQUENCE, 9, MAX_NON_FINAL_SEQUENCE];
    let b = [9, MAX_NON_FINAL_SEQUENCE, MAX_BIP125_RBF_SEQUENCE];
    assert_eq!(classify_sequences(&with_sequences(&a)), classify_sequences(&with_sequences(&b)));
}

#[test]
fn no_inputs_is_custom() {
    assert_eq!(classify_sequences(&with_sequences(&[])), SequenceType::Custom);
}

#[test]
fn bip69_absent_for_one_in_one_out() {
    let t = tx(2, 0, vec![bare_input(9, 3, MAX_SEQUENCE)], vec![output(5)]);
    assert_eq!(probability_bip69(&t), None);
    let garbled = TxInput {
        previous_output: outpoint(1, 0),
        script_sig: vec![0x05, 0x01],
        sequence: 0,
        witness: vec![],
    };
    assert_eq!(probability_bip69(&tx(1, 0, vec![garbled], vec![output(1)])), None);
}

#[test]
fn bip69_violation_is_zero() {
    let t = tx(2, 0, vec![bare_input(1, 0, 0)], vec![output(9), output(3)]);
    let p = probability_bip69(&t).unwrap();
    assert_eq!(value(&p), 0.0);
    let t = tx(2, 0, vec![bare_input(2, 0, 0), bare_input(1, 0, 0)], vec![output(3)]);
    assert_eq!(value(&probability_bip69(&t).unwrap()), 0.0);
}

#[test]
fn bip69_compliant_small() {
    let t = tx(2, 0, vec![bare_input(1, 0, 0)], vec![output(3), output(9)]);
    let p = probability_bip69(&t).unwrap();
    assert_eq!(value(&p), 0.5);
    let t = tx(
        2,
        0,
        vec![bare_input(1, 0, 0), bare_input(1, 1, 0), bare_input(2, 0, 0)],
        vec![output(3), output(9)],
    );
    let p = probability_bip69(&t).unwrap();
    assert!(!p.certain);
    assert_eq!(p.outcomes as u128 * (1u128 << p.doublings), 12);
}

#[test]
fn bip69_overflow_is_one() {
    let inputs = (0..13).map(|i| bare_input(1, i, 0)).collect();
    let outputs = (0..13).map(|i| output(100 + i)).collect();
    let p = probability_bip69(&tx(2, 0, inputs, outputs)).unwrap();
    assert_eq!(value(&p), 1.0);
    assert!(p.certain);
}

#[test]
fn bip69_thirteen_inputs_two_outputs() {
    let inputs = (0..13).map(|i| bare_input(1, i, 0)).collect();
    let p = probability_bip69(&tx(2, 0, inputs, vec![output(1), output(2)])).unwrap();
    assert!(!p.certain);
    assert_eq!(p.outcomes, 2 * 6_227_020_800);
    assert_eq!(p.doublings, 0);
}

#[test]
fn bip69_txids_compare_in_displayed_order() {
    let mut first = [0u8; 32];
    first[0] = 0x02;
    first[31] = 0x01;
    let mut second = [0u8; 32];
    second[0] = 0x01;
    second[31] = 0x02;
    let a = TxInput { previous_output: OutPoint { txid: first, vout: 5 }, script_sig: vec![], sequence: 0, witness: vec![] };
    let b = TxInput { previous_output: OutPoint { txid: second, vout: 0 }, script_sig: vec![], sequence: 0, witness: vec![] };
    let ordered = tx(2, 0, vec![a.clone(), b.clone()], vec![output(1)]);
    assert_eq!(value(&probability_bip69(&ordered).unwrap()), 0.5);
    let swapped = tx(2, 0, vec![b, a], vec![output(1)]);
    assert_eq!(value(&probability_bip69(&swapped).unwrap()), 0.0);
}

#[test]
fn bip69_script_prefix_first() {
    let short = TxOutput { value: 7, script_pubkey: vec![0x00] };
    let long = TxOutput { value: 7, script_pubkey: vec![0x00, 0x01] };
    let t = tx(2, 0, vec![bare_input(1, 0, 0)], vec![short.clone(), long.clone()]);
    assert_eq!(value(&probability_bip69(&t).unwrap()), 0.5);
    let t = tx(2, 0, vec![bare_input(1, 0, 0)], vec![long, short]);
    assert_eq!(value(&probability_bip69(&t).unwrap()), 0.0);
}

#[test]
fn low_r_non_minimal_push_is_unparsable() {
    let sig = low_r_sig();
    let mut script = vec![0x4c, sig.len() as u8];
    script.extend_from_slice(&sig);
    let odd = TxInput { previous_output: outpoint(1, 0), script_sig: script, sequence: 0, witness: vec![] };
    let t = tx(2, 0, vec![odd], vec![output(1)]);
    assert_eq!(probability_low_r_grinding(&t), Err(AnalysisError::UnparsableInput));
}

#[test]
fn low_r_reads_pushdata_led_p2pkh() {
    let sig = low_r_sig();
    let mut script = vec![0x4c, sig.len() as u8];
    script.extend_from_slice(&sig);
    script.push(33);
    script.extend_from_slice(&PUBKEY);
    let input = TxInput { previous_output: outpoint(1, 0), script_sig: script, sequence: 0, witness: vec![] };
    let t = tx(2, 0, vec![input], vec![output(1)]);
    assert_eq!(value(&probability_low_r_grinding(&t).unwrap()), 0.5);
    assert_eq!(spent_input_kinds(&t), Ok(vec![InputKind::P2pkh]));
}

#[test]
fn heuristics_missing_prevout_comes_first() {
    let garbled = TxInput {
        previous_output: outpoint(1, 0),
        script_sig: vec![0x05, 0x01],
        sequence: 0,
        witness: vec![],
    };
    let t = tx(2, 0, vec![garbled], vec![output(1)]);
    assert_eq!(check_heuristics(&t, &vec![], None, 10).unwrap_err(), AnalysisError::MissingPreviousOutput);
    let known = prevouts_for(&t, &[5]);
    assert_eq!(check_heuristics(&t, &known, None, 10).unwrap_err(), AnalysisError::UnparsableInput);
}

#[test]
fn low_r_without_signatures_is_zero() {
    let t = tx(2, 0, vec![bare_input(1, 0, 0)], vec![output(1)]);
    assert_eq!(value(&probability_low_r_grinding(&t).unwrap()), 0.0);
}

#[test]
fn low_r_counts_signatures() {
    let one = tx(2, 0, vec![p2wpkh_input(1, 0, low_r_sig())], vec![output(1)]);
    assert_eq!(value(&probability_low_r_grinding(&one).unwrap()), 0.5);
    let two = tx(
        2,
        0,
        vec![p2wpkh_input(1, 0, low_r_sig()), p2pkh_input(2, 0, low_r_sig())],
        vec![output(1)],
    );
    assert_eq!(value(&probability_low_r_grinding(&two).unwrap()), 0.75);
    let three = tx(2, 0, vec![p2wsh_input(1, 0), p2wpkh_input(2, 0, low_r_sig())], vec![output(1)]);
    assert_eq!(value(&probability_low_r_grinding(&three).unwrap()), 0.875);
}

#[test]
fn high_r_gives_zero() {
    let t = tx(
        2,
        0,
        vec![p2wpkh_input(1, 0, low_r_sig()), p2wpkh_input(2, 0, high_r_sig())],
        vec![output(1)],
    );
    assert_eq!(value(&probability_low_r_grinding(&t).unwrap()), 0.0);
}

#[test]
fn low_r_unparsable_input() {
    let garbled = TxInput {
        previous_output: outpoint(1, 0),
        script_sig: vec![0x05, 0x01],
        sequence: 0,
        witness: vec![],
    };
    let t = tx(2, 0, vec![garbled], vec![output(1)]);
    assert_eq!(probability_low_r_grinding(&t), Err(AnalysisError::UnparsableInput));
}

#[test]
fn anti_fee_snipe_needs_lock_time() {
    let t = tx(2, 0, vec![bare_input(1, 0, 0)], vec![output(1)]);
    assert!(!probably_anti_fee_snipe(&t, None, 800_000));
    assert!(!probably_anti_fee_snipe(&t, Some(3), 50));
    assert!(!probably_anti_fee_snipe(&t, Some(0), 0));
}

#[test]
fn anti_fee_snipe_near_height() {
    let t = tx(2, 799_950, vec![bare_input(1, 0, 0)], vec![output(1)]);
    assert!(probably_anti_fee_snipe(&t, None, 800_000));
    assert!(probably_anti_fee_snipe(&t, Some(1), 800_000));
    assert!(!probably_anti_fee_snipe(&t, None, 800_051));
    assert!(probably_anti_fee_snipe(&t, Some(52), 800_051));
    assert!(probably_anti_fee_snipe(&t, None, 800_050));
}

#[test]
fn input_vsize_counts_witness_quarter() {
    let input = p2wpkh_input(1, 0, low_r_sig());
    // 36 + 1 + 0 + 4 base bytes; witness 1 + (1 + 71) + (1 + 33) = 107 bytes.
    assert_eq!(get_input_vsize(&input), 41 + 26);
    let legacy = p2pkh_input(1, 0, low_r_sig());
    assert_eq!(get_input_vsize(&legacy), 36 + 1 + 106 + 4);
}

#[test]
fn negative_ev_input_detected() {
    let t = tx(
        2,
        0,
        vec![p2wpkh_input(1, 0, low_r_sig()), p2wpkh_input(2, 0, low_r_sig())],
        vec![output(90_000)],
    );
    assert_eq!(spends_negative_ev(&t, &prevouts_for(&t, &[100_000, 1])), Ok(true));
    assert_eq!(spends_negative_ev(&t, &prevouts_for(&t, &[100_000, 50_000])), Ok(false));
}

#[test]
fn negative_ev_missing_prevout() {
    let t = tx(2, 0, vec![p2wpkh_input(1, 0, low_r_sig())], vec![output(900)]);
    let wrong = vec![PrevOut { outpoint: outpoint(1, 1), output: output(1000) }];
    assert_eq!(spends_negative_ev(&t, &wrong), Err(AnalysisError::MissingPreviousOutput));
}

#[test]
fn input_kinds_each_once() {
    let t = tx(
        2,
        0,
        vec![
            p2wpkh_input(1, 0, low_r_sig()),
            p2pkh_input(2, 0, low_r_sig()),
            p2wpkh_input(3, 0, low_r_sig()),
            p2wsh_input(4, 0),
        ],
        vec![output(1)],
    );
    assert_eq!(
        spent_input_kinds(&t),
        Ok(vec![InputKind::P2wpkh, InputKind::P2pkh, InputKind::P2wsh])
    );
}

fn core_like_tx(version: i32, tip: u64) -> Tx {
    tx(version, (tip - 50) as u32, vec![p2wsh_input(1, MAX_BIP125_RBF_SEQUENCE)], vec![output(90_000)])
}

#[test]
fn core_profile_end_to_end() {
    let t = core_like_tx(2, 800_000);
    let h = check_heuristics(&t, &prevouts_for(&t, &[100_000]), None, 800_000).unwrap();
    assert_eq!(h.sequence_type, SequenceType::OnlyRBF);
    assert!(h.anti_fee_snipe);
    assert_eq!(h.prob_bip69, None);
    assert_eq!(value(&h.prob_low_r), 0.75);
    assert_eq!(maybe_bitcoin_core(&h), WalletConfidence::MaybeYes);
    let t1 = core_like_tx(1, 800_000);
    let h1 = check_heuristics(&t1, &prevouts_for(&t1, &[100_000]), None, 800_000).unwrap();
    assert_eq!(maybe_bitcoin_core(&h1), WalletConfidence::DefinitelyNot);
}

#[test]
fn mixed_input_types_end_to_end() {
    let t = tx(
        2,
        799_950,
        vec![p2pkh_input(1, MAX_BIP125_RBF_SEQUENCE, low_r_sig()), p2wsh_input(2, MAX_BIP125_RBF_SEQUENCE)],
        vec![output(90_000)],
    );
    let h = check_heuristics(&t, &prevouts_for(&t, &[100_000, 100_000]), None, 800_000).unwrap();
    assert!(h.mixed_input_types);
    assert_eq!(analyze_electrum(&h), WalletConfidence::DefinitelyNot);
    assert_eq!(maybe_bitcoin_core(&h), WalletConfidence::MaybeYes);
}

#[test]
fn heuristics_missing_prevout() {
    let t = core_like_tx(2, 800_000);
    assert_eq!(
        check_heuristics(&t, &vec![], None, 800_000).unwrap_err(),
        AnalysisError::MissingPreviousOutput
    );
}

fn base_heuristics() -> Heuristics {
    Heuristics {
        tx_version: 2,
        sequence_type: SequenceType::OnlyNonFinal,
        anti_fee_snipe: true,
        prob_low_r: Probability { certain: false, outcomes: 1, doublings: 3 },
        prob_bip69: None,
        neg_ev: false,
        input_types: vec![InputKind::P2wpkh],
        mixed_input_types: false,
        maybe_same_change_type: None,
    }
}

#[test]
fn core_rules() {
    assert_eq!(maybe_bitcoin_core(&base_heuristics()), WalletConfidence::MaybeYes);
    let mut h = base_heuristics();
    h.sequence_type = SequenceType::MixedFinal;
    assert_eq!(maybe_bitcoin_core(&h), WalletConfidence::DefinitelyNot);
    let mut h = base_heuristics();
    h.prob_low_r = Probability { certain: false, outcomes: 1, doublings: 1 };
    assert_eq!(maybe_bitcoin_core(&h), WalletConfidence::DefinitelyNot);
    let mut h = base_heuristics();
    h.anti_fee_snipe = false;
    assert_eq!(maybe_bitcoin_core(&h), WalletConfidence::ProbablyNot);
    let mut h = base_heuristics();
    h.prob_bip69 = Some(Probability { certain: false, outcomes: 6, doublings: 0 });
    assert_eq!(maybe_bitcoin_core(&h), WalletConfidence::ProbablyNot);
    let mut h = base_heuristics();
    h.prob_bip69 = Some(Probability { certain: false, outcomes: 2, doublings: 0 });
    assert_eq!(maybe_bitcoin_core(&h), WalletConfidence::MaybeYes);
    let mut h = base_heuristics();
    h.input_types = vec![InputKind::P2wsh, InputKind::P2pkh];
    h.mixed_input_types = true;
    assert_eq!(maybe_bitcoin_core(&h), WalletConfidence::MaybeYes);
}

#[test]
fn electrum_rules() {
    let mut h = base_heuristics();
    h.prob_bip69 = Some(Probability { certain: true, outcomes: 1, doublings: 0 });
    assert_eq!(analyze_electrum(&h), WalletConfidence::MaybeYes);
    let mut h = base_heuristics();
    h.tx_version = 1;
    assert_eq!(analyze_electrum(&h), WalletConfidence::DefinitelyNot);
    let mut h = base_heuristics();
    h.input_types = vec![InputKind::P2trkp];
    assert_eq!(analyze_electrum(&h), WalletConfidence::DefinitelyNot);
    let mut h = base_heuristics();
    h.maybe_same_change_type = Some(false);
    assert_eq!(analyze_electrum(&h), WalletConfidence::DefinitelyNot);
    let mut h = base_heuristics();
    h.neg_ev = true;
    assert_eq!(analyze_electrum(&h), WalletConfidence::ProbablyNot);
    let mut h = base_heuristics();
    h.anti_fee_snipe = false;
    assert_eq!(analyze_electrum(&h), WalletConfidence::ProbablyNot);
    let mut h = base_heuristics();
    h.prob_bip69 = Some(Probability { certain: false, outcomes: 1, doublings: 0 });
    assert_eq!(analyze_electrum(&h), WalletConfidence::ProbablyNot);
    let mut h = base_heuristics();
    h.prob_bip69 = Some(Probability { certain: false, outcomes: 2, doublings: 0 });
    assert_eq!(analyze_electrum(&h), WalletConfidence::MaybeYes);
}

#[test]
fn probability_halves() {
    let half = Probability { certain: false, outcomes: 1, doublings: 1 };
    assert!(!half.more_likely_than_not());
    assert!(!half.less_likely_than_not());
    assert!(Probability::one().more_likely_than_not());
    assert!(Probability::zero().less_likely_than_not());
    assert!(Probability { certain: false, outcomes: 3, doublings: 0 }.more_likely_than_not());
}
