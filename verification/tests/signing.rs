use bitcoin::secp256k1::{Message, Secp256k1};
use bitcoin::util::bip32::{ChildNumber, ExtendedPrivKey, ExtendedPubKey};
use bitcoin::Network;
use cw_bitcoin::building::{BuildingCheckpoint, SigningCheckpoint};
use cw_bitcoin::checkpoint::{Batch, BatchType, Checkpoint, CheckpointStatus};
use cw_bitcoin::error::ContractError;
use cw_bitcoin::interface::{Accounts, CheckpointConfig, Validator};
use cw_bitcoin::keys::{derive_pubkey, Pubkey, Signature, Xpub};
use cw_bitcoin::queue::CheckpointQueue;
use cw_bitcoin::signatory::{Signatory, SignatorySet};
use cw_bitcoin::threshold_sig::{Share, ThresholdSig};
use cw_bitcoin::tx::{BitcoinTx, Input, OutPoint, Output};

fn keys(seed: u8) -> (ExtendedPrivKey, Xpub) {
    let secp = Secp256k1::new();
    let xpriv = ExtendedPrivKey::new_master(Network::Bitcoin, &[seed; 32]).unwrap();
    let xpub = ExtendedPubKey::from_priv(&secp, &xpriv);
    (xpriv, Xpub::new(xpub.encode()))
}

fn child_pubkey(xpriv: &ExtendedPrivKey, index: u32) -> Pubkey {
    let secp = Secp256k1::new();
    let child = xpriv
        .derive_priv(&secp, &[ChildNumber::from_normal_idx(index).unwrap()])
        .unwrap();
    Pubkey::new(ExtendedPubKey::from_priv(&secp, &child).public_key.serialize())
}

fn sign_one(xpriv: &ExtendedPrivKey, index: u32, msg: &[u8; 32]) -> Signature {
    let secp = Secp256k1::new();
    let child = xpriv
        .derive_priv(&secp, &[ChildNumber::from_normal_idx(index).unwrap()])
        .unwrap();
    let sig = secp.sign_ecdsa(&Message::from_slice(msg).unwrap(), &child.private_key);
    Signature(sig.serialize_compact())
}

fn sign_all(xpriv: &ExtendedPrivKey, to_sign: &[([u8; 32], u32)]) -> Vec<Signature> {
    to_sign.iter().map(|(msg, index)| sign_one(xpriv, *index, msg)).collect()
}

fn three() -> Vec<(ExtendedPrivKey, Xpub)> {
    vec![keys(1), keys(2), keys(3)]
}

fn sigset_of(signers: &[(ExtendedPrivKey, Xpub)], index: u32) -> SignatorySet {
    let validators: Vec<Validator> = (0..signers.len())
        .map(|i| Validator { pubkey: [i as u8 + 1; 32], power: 100 })
        .collect();
    let sig_keys: Vec<([u8; 32], Xpub)> = (0..signers.len())
        .map(|i| ([i as u8 + 1; 32], signers[i].1))
        .collect();
    SignatorySet::from_validator_ctx(&validators, &sig_keys, 1_000, index).unwrap()
}

fn config(threshold: (u64, u64)) -> CheckpointConfig {
    CheckpointConfig { sigset_threshold: threshold, ..CheckpointConfig::default() }
}

fn deposit(sigset: &SignatorySet, tag: u8, amount: u64, threshold: (u64, u64)) -> Input {
    Input::new(OutPoint { txid: [tag; 32], vout: 0 }, sigset, &vec![tag], amount, threshold).unwrap()
}

fn withdrawal(value: u64) -> Output {
    let mut script = vec![0x00, 0x14];
    script.extend_from_slice(&[9; 20]);
    Output { value, script_pubkey: script }
}

/// A building checkpoint with two deposits and one withdrawal.
fn building(signers: &[(ExtendedPrivKey, Xpub)], threshold: (u64, u64)) -> Checkpoint {
    let sigset = sigset_of(signers, 0);
    let mut cp = Checkpoint::new(sigset.clone()).unwrap();
    let tx = &mut cp.batches[BatchType::Checkpoint.index()].batch[0];
    tx.input.push(deposit(&sigset, 1, 600_000, threshold));
    tx.input.push(deposit(&sigset, 2, 400_000, threshold));
    tx.output.push(withdrawal(50_000));
    cp
}

fn seal(cp: Checkpoint, cfg: &CheckpointConfig, fee: u64) -> Checkpoint {
    let mut sealed = BuildingCheckpoint(cp);
    sealed
        .advance(2_000, &vec![], &Accounts { transfers_allowed: true, transfer_exceptions: vec![], accounts: vec![] }, &vec![], vec![7; 32], fee, cfg)
        .unwrap();
    sealed.0
}

#[test]
fn threshold_sig_needs_each_key_once() {
    let signers = three();
    let sigset = sigset_of(&signers, 0);
    let mut ts = ThresholdSig::from_sigset(&sigset, (2, 3)).unwrap();
    assert_eq!(ts.threshold, 200);
    assert_eq!(ts.signed, 0);
    assert!(!ts.signed());
    ts.set_message([5; 32]);
    assert_eq!(ts.message(), [5; 32]);
    let first = child_pubkey(&signers[0].0, 0);
    assert!(ts.contains_key(&first));
    assert!(ts.needs_sig(&first));
    let sig = sign_one(&signers[0].0, 0, &[5; 32]);
    assert_eq!(ts.sign(&first, &sig), Ok(()));
    assert!(!ts.needs_sig(&first));
    assert!(ts.contains_key(&first));
    assert_eq!(ts.signed, 100);
    assert!(!ts.signed());
    let second = child_pubkey(&signers[1].0, 0);
    assert_eq!(ts.sign(&second, &sign_one(&signers[1].0, 0, &[5; 32])), Ok(()));
    assert_eq!(ts.signed, 200);
    assert!(ts.signed());
}

#[test]
fn threshold_sig_rejects_a_second_signature_of_a_key() {
    let signers = three();
    let sigset = sigset_of(&signers, 0);
    let mut ts = ThresholdSig::from_sigset(&sigset, (2, 3)).unwrap();
    ts.set_message([5; 32]);
    let key = child_pubkey(&signers[0].0, 0);
    let sig = sign_one(&signers[0].0, 0, &[5; 32]);
    assert_eq!(ts.sign(&key, &sig), Ok(()));
    let before = ts.clone();
    assert_eq!(ts.sign(&key, &sig), Err(ContractError::AlreadySigned));
    assert_eq!(ts, before);
}

#[test]
fn threshold_sig_rejects_strangers_and_bad_signatures() {
    let signers = three();
    let sigset = sigset_of(&signers, 0);
    let mut ts = ThresholdSig::from_sigset(&sigset, (2, 3)).unwrap();
    ts.set_message([5; 32]);
    let before = ts.clone();
    let stranger = keys(9);
    let key = child_pubkey(&stranger.0, 0);
    assert!(!ts.needs_sig(&key));
    assert_eq!(
        ts.sign(&key, &sign_one(&stranger.0, 0, &[5; 32])),
        Err(ContractError::NotASignatory)
    );
    let member = child_pubkey(&signers[0].0, 0);
    // A signature of another message, and one of another key.
    assert_eq!(
        ts.sign(&member, &sign_one(&signers[0].0, 0, &[6; 32])),
        Err(ContractError::InvalidSignature)
    );
    assert_eq!(
        ts.sign(&member, &sign_one(&signers[1].0, 0, &[5; 32])),
        Err(ContractError::InvalidSignature)
    );
    assert_eq!(ts.sign(&member, &Signature([0xff; 64])), Err(ContractError::InvalidSignature));
    assert_eq!(ts, before);
    assert!(ts.verify(&member, &sign_one(&signers[0].0, 0, &[5; 32])));
    assert!(!ts.verify(&member, &sign_one(&signers[0].0, 0, &[6; 32])));
}

#[test]
fn threshold_sig_thresholds() {
    let sigset = sigset_of(&three(), 0);
    assert_eq!(ThresholdSig::from_sigset(&sigset, (1, 1)).unwrap().threshold, 300);
    assert_eq!(ThresholdSig::from_sigset(&sigset, (9, 10)).unwrap().threshold, 270);
    assert_eq!(ThresholdSig::from_sigset(&sigset, (1, 7)).unwrap().threshold, 43);
    assert_eq!(
        ThresholdSig::from_sigset(&sigset, (1, 0)),
        Err(ContractError::InvalidThreshold)
    );
    assert_eq!(
        ThresholdSig::from_sigset(&sigset, (u64::MAX, 1)),
        Err(ContractError::Overflow)
    );
    let heavy = vec![
        (Pubkey::new([2; 33]), Share { power: u64::MAX, sig: None }),
        (Pubkey::new([3; 33]), Share { power: 1, sig: None }),
    ];
    assert_eq!(ThresholdSig::from_shares(heavy, (1, 2)), Err(ContractError::Overflow));
}

#[test]
fn threshold_sig_from_shares_empties_the_slots() {
    let filled = vec![
        (Pubkey::new([2; 33]), Share { power: 7, sig: Some(Signature([1; 64])) }),
        (Pubkey::new([3; 33]), Share { power: 3, sig: None }),
    ];
    let ts = ThresholdSig::from_shares(filled, (1, 2)).unwrap();
    assert_eq!(ts.threshold, 5);
    assert_eq!(ts.signed, 0);
    assert_eq!(ts.message(), [0; 32]);
    assert_eq!(
        ts.shares(),
        vec![
            (Pubkey::new([2; 33]), Share { power: 7, sig: None }),
            (Pubkey::new([3; 33]), Share { power: 3, sig: None }),
        ]
    );
}

#[test]
fn witness_is_empty_until_signed_then_last_slot_first() {
    let signers = three();
    let sigset = sigset_of(&signers, 0);
    let mut ts = ThresholdSig::from_sigset(&sigset, (2, 3)).unwrap();
    ts.set_message([5; 32]);
    assert_eq!(ts.to_witness(), Ok(vec![]));
    let slots = ts.shares();
    // The first and the last slot sign; the middle one stays empty.
    let mut ders = vec![];
    for slot in [0usize, 2] {
        let signer = signers
            .iter()
            .find(|s| child_pubkey(&s.0, 0) == slots[slot].0)
            .unwrap();
        let sig = sign_one(&signer.0, 0, &[5; 32]);
        if slot == 0 {
            ts.sign(&slots[slot].0, &sig).unwrap();
            assert_eq!(ts.to_witness(), Ok(vec![]));
        } else {
            ts.sign(&slots[slot].0, &sig).unwrap();
        }
        let mut der = bitcoin::secp256k1::ecdsa::Signature::from_compact(&sig.0)
            .unwrap()
            .serialize_der()
            .to_vec();
        der.push(1);
        ders.push(der);
    }
    assert_eq!(ts.to_witness(), Ok(vec![ders[1].clone(), vec![], ders[0].clone()]));
}

#[test]
fn witness_with_a_signature_that_does_not_parse_fails() {
    let ts = ThresholdSig {
        threshold: 1,
        signed: 1,
        message: [0; 32],
        sigs: vec![(Pubkey::new([2; 33]), Share { power: 1, sig: Some(Signature([0xff; 64])) })],
    };
    assert_eq!(ts.to_witness(), Err(ContractError::SignatureEncoding));
    let input = Input {
        prevout: OutPoint { txid: [0; 32], vout: 0 },
        script_pubkey: vec![],
        redeem_script: vec![],
        sigset_index: 0,
        dest: vec![],
        amount: 0,
        est_witness_vsize: 0,
        signatures: ts,
    };
    assert_eq!(input.to_txin(), Err(ContractError::SignatureEncoding));
    let mut tx = BitcoinTx::with_lock_time(0);
    tx.input.push(input);
    assert_eq!(tx.to_bitcoin_tx(), Err(ContractError::SignatureEncoding));
    assert_eq!(tx.vsize(), Err(ContractError::SignatureEncoding));
    assert_eq!(tx.txid(), Err(ContractError::SignatureEncoding));
}

#[test]
fn three_of_three_checkpoint_without_disbursal_is_signed_by_all() {
    let signers = three();
    let cfg = config((1, 1));
    let mut cp = building(&signers, (1, 1));
    // No intermediate transaction: the checkpoint has no emergency disbursal.
    cp.batches[BatchType::IntermediateTx.index()] = Batch::new();
    let sealed = seal(cp, &cfg, 1_000);
    assert_eq!(sealed.status, CheckpointStatus::Signing);
    let building = Checkpoint::new(sigset_of(&signers, 1)).unwrap();
    let mut queue = CheckpointQueue::new("checkpoint1s".to_string()).unwrap();
    queue.configure(cfg);
    queue.index = 1;
    queue.queue = vec![sealed, building];

    for (_, xpub) in signers.iter() {
        assert_eq!(queue.get(0).unwrap().to_sign(xpub).unwrap().len(), 2);
    }
    for (i, (xpriv, xpub)) in signers.iter().enumerate() {
        let to_sign = queue.get(0).unwrap().to_sign(xpub).unwrap();
        let sigs = sign_all(xpriv, &to_sign);
        assert_eq!(queue.sign(xpub, sigs, 0, 100 + i as u32), Ok(()));
        let cp = queue.get(0).unwrap();
        assert_eq!(cp.to_sign(xpub), Ok(vec![]));
        if i < 2 {
            assert_eq!(cp.status, CheckpointStatus::Signing);
            assert!(!cp.signed());
            assert_eq!(cp.signed_at_btc_height, None);
            assert!(queue.signing().unwrap().is_some());
        }
    }
    let cp = queue.get(0).unwrap();
    assert_eq!(cp.status, CheckpointStatus::Complete);
    assert!(cp.signed());
    assert_eq!(cp.signed_batches(), 3);
    assert_eq!(cp.current_batch(), None);
    assert_eq!(cp.signed_at_btc_height, Some(102));
    let reserve = cp.reserve_output().unwrap().unwrap();
    assert_eq!(reserve.value, 1_000_000 - 50_000 - 1_000);
    assert_eq!(queue.signing().unwrap(), None);
    assert_eq!(queue.last_completed_index(), Ok(0));
}

#[test]
fn batches_are_signed_in_order() {
    let signers = three();
    let cfg = config((2, 3));
    let cp = seal(building(&signers, (2, 3)), &cfg, 1_000);
    let mut signing = SigningCheckpoint(cp);
    // No final transaction came out, so the first batch is signed from the
    // start, and the intermediate transaction is signed first.
    assert_eq!(signing.0.batches[0].len(), 0);
    assert_eq!(signing.0.signed_batches(), 1);
    assert_eq!(signing.0.current_batch().unwrap(), signing.0.batches[1]);
    let first = signing.0.to_sign(&signers[0].1).unwrap();
    assert_eq!(first.len(), 1);
    assert_eq!(first[0].0, signing.0.batches[1].batch[0].input[0].signatures.message());

    let checkpoint_batch = signing.0.batches[2].clone();
    for (xpriv, xpub) in signers.iter().take(2) {
        let to_sign = signing.0.to_sign(xpub).unwrap();
        assert_eq!(to_sign.len(), 1);
        signing.sign(*xpub, sign_all(xpriv, &to_sign), 10).unwrap();
        // The batch of the checkpoint transaction is untouched so far.
        assert_eq!(signing.0.batches[2], checkpoint_batch);
    }
    assert_eq!(signing.0.signed_batches(), 2);
    assert!(signing.0.batches[1].signed());
    assert_eq!(signing.0.batches[1].batch[0].signed_inputs, 1);
    assert_eq!(signing.0.signed_at_btc_height, None);

    // The third signatory signs the signed batch over, and the next one.
    let to_sign = signing.0.to_sign(&signers[2].1).unwrap();
    assert_eq!(to_sign.len(), 3);
    signing.sign(signers[2].1, sign_all(&signers[2].0, &to_sign), 11).unwrap();
    assert_eq!(signing.0.signed_batches(), 2);
    let to_sign = signing.0.to_sign(&signers[0].1).unwrap();
    assert_eq!(to_sign.len(), 2);
    signing.sign(signers[0].1, sign_all(&signers[0].0, &to_sign), 12).unwrap();
    assert!(signing.0.signed());
    assert_eq!(signing.0.signed_at_btc_height, Some(12));
    assert_eq!(signing.0.batches[2].batch[0].signed_inputs, 2);

    // A complete checkpoint takes the signatures of the last signatory too.
    let to_sign = signing.0.to_sign(&signers[1].1).unwrap();
    assert_eq!(to_sign.len(), 2);
    signing.sign(signers[1].1, sign_all(&signers[1].0, &to_sign), 13).unwrap();
    assert_eq!(signing.0.signed_at_btc_height, Some(12));
    assert_eq!(signing.0.batches[2].batch[0].signed_inputs, 2);
    assert_eq!(signing.0.to_sign(&signers[1].1), Ok(vec![]));
}

#[test]
fn sign_wants_the_exact_number_of_signatures() {
    let signers = three();
    let cfg = config((2, 3));
    let mut cp = seal(building(&signers, (2, 3)), &cfg, 1_000);
    let before = cp.clone();
    let to_sign = cp.to_sign(&signers[0].1).unwrap();
    let sigs = sign_all(&signers[0].0, &to_sign);
    assert_eq!(cp.sign(&signers[0].1, vec![], 1), Err(ContractError::NotEnoughSignatures));
    let mut two = sigs.clone();
    two.push(sigs[0]);
    assert_eq!(cp.sign(&signers[0].1, two, 1), Err(ContractError::ExcessSignatures));
    assert_eq!(cp, before);
    assert_eq!(cp.sign(&signers[0].1, sigs.clone(), 1), Ok(()));
    // Submitted again, the signatures find no input that awaits them.
    let signed = cp.clone();
    assert_eq!(cp.sign(&signers[0].1, sigs, 1), Err(ContractError::ExcessSignatures));
    assert_eq!(cp, signed);
}

#[test]
fn sign_rejects_a_wrong_signature_and_changes_nothing() {
    let signers = three();
    let cfg = config((2, 3));
    let mut cp = seal(building(&signers, (2, 3)), &cfg, 1_000);
    let before = cp.clone();
    let to_sign = cp.to_sign(&signers[0].1).unwrap();
    let wrong = sign_all(&signers[1].0, &to_sign);
    assert_eq!(cp.sign(&signers[0].1, wrong, 1), Err(ContractError::InvalidSignature));
    assert_eq!(cp, before);
}

#[test]
fn sign_with_a_key_that_cannot_be_derived_fails() {
    let signers = three();
    let cfg = config((2, 3));
    let mut cp = seal(building(&signers, (2, 3)), &cfg, 1_000);
    let broken = Xpub::new([0; 78]);
    assert_eq!(cp.to_sign(&broken), Err(ContractError::KeyDerivation));
    assert_eq!(cp.sign(&broken, vec![], 1), Err(ContractError::KeyDerivation));
}

#[test]
fn a_stranger_has_nothing_to_sign() {
    let signers = three();
    let cfg = config((2, 3));
    let mut cp = seal(building(&signers, (2, 3)), &cfg, 1_000);
    let stranger = keys(9);
    assert_eq!(cp.to_sign(&stranger.1), Ok(vec![]));
    assert_eq!(cp.sign(&stranger.1, vec![], 1), Ok(()));
    assert_eq!(
        cp.sign(&stranger.1, vec![Signature([1; 64])], 1),
        Err(ContractError::ExcessSignatures)
    );
}

#[test]
fn queue_takes_no_signatures_for_the_building_checkpoint() {
    let signers = three();
    let mut queue = CheckpointQueue::new("checkpoint1s".to_string()).unwrap();
    queue.queue = vec![building(&signers, (2, 3))];
    assert_eq!(
        queue.sign(&signers[0].1, vec![], 0, 1),
        Err(ContractError::StillBuilding)
    );
    assert_eq!(queue.sign(&signers[0].1, vec![], 1, 1), Err(ContractError::IndexOutOfBounds));
}

#[test]
fn signatory_set_is_ordered_by_weight_and_key() {
    let signers = three();
    let validators = vec![
        Validator { pubkey: [1; 32], power: 5 },
        Validator { pubkey: [2; 32], power: 9 },
        Validator { pubkey: [3; 32], power: 5 },
        Validator { pubkey: [4; 32], power: 100 },
    ];
    let sig_keys = vec![([1; 32], signers[0].1), ([2; 32], signers[1].1), ([3; 32], signers[2].1)];
    let sigset = SignatorySet::from_validator_ctx(&validators, &sig_keys, 77, 4).unwrap();
    assert_eq!(sigset.index(), 4);
    assert_eq!(sigset.create_time(), 77);
    assert_eq!(sigset.possible_vp(), 119);
    assert_eq!(sigset.present_vp(), 19);
    assert_eq!(sigset.len(), 3);
    assert!(!sigset.has_quorum());
    let a = child_pubkey(&signers[0].0, 4);
    let c = child_pubkey(&signers[2].0, 4);
    let (high, low) = if a.bytes > c.bytes { (a, c) } else { (c, a) };
    assert_eq!(
        sigset.signatories,
        vec![
            Signatory { voting_power: 9, pubkey: child_pubkey(&signers[1].0, 4) },
            Signatory { voting_power: 5, pubkey: high },
            Signatory { voting_power: 5, pubkey: low },
        ]
    );
}

#[test]
fn signatory_set_keeps_the_twenty_heaviest() {
    let signers: Vec<(ExtendedPrivKey, Xpub)> = (1..=22).map(keys).collect();
    let validators: Vec<Validator> = (0..22)
        .map(|i| Validator { pubkey: [i as u8; 32], power: 10 + i as u64 })
        .collect();
    let sig_keys: Vec<([u8; 32], Xpub)> = (0..22).map(|i| ([i as u8; 32], signers[i].1)).collect();
    let sigset = SignatorySet::from_validator_ctx(&validators, &sig_keys, 0, 0).unwrap();
    assert_eq!(sigset.len(), 20);
    assert_eq!(sigset.possible_vp(), (10..32).sum::<u64>());
    assert_eq!(sigset.present_vp(), (12..32).sum::<u64>());
    assert_eq!(sigset.signatories[0].voting_power, 31);
    assert_eq!(sigset.signatories[19].voting_power, 12);
    assert!(sigset.has_quorum());
    assert_eq!(sigset.est_witness_vsize(), Ok(20 * 79 + 39));
}

#[test]
fn signatory_set_reports_overflow_and_bad_keys() {
    let signers = three();
    let heavy = vec![
        Validator { pubkey: [1; 32], power: u64::MAX },
        Validator { pubkey: [2; 32], power: 1 },
    ];
    assert_eq!(
        SignatorySet::from_validator_ctx(&heavy, &vec![], 0, 0),
        Err(ContractError::Overflow)
    );
    let validators = vec![Validator { pubkey: [1; 32], power: 1 }];
    let sig_keys = vec![([1; 32], signers[0].1)];
    // Hardened child numbers cannot be derived from a public key.
    assert_eq!(
        SignatorySet::from_validator_ctx(&validators, &sig_keys, 0, 1 << 31),
        Err(ContractError::KeyDerivation)
    );
    let quorum = SignatorySet::from_validator_ctx(&validators, &sig_keys, 0, 0).unwrap();
    assert!(quorum.has_quorum());
    let none = SignatorySet::new(3, 4);
    assert!(!none.has_quorum());
    assert_eq!(none.possible_vp(), 0);
}

#[test]
fn derived_keys_are_the_child_keys() {
    let (xpriv, xpub) = keys(5);
    for index in [0u32, 1, 77, (1 << 31) - 1] {
        assert_eq!(derive_pubkey(&xpub, index), Some(child_pubkey(&xpriv, index).bytes));
    }
    assert_ne!(derive_pubkey(&xpub, 0), derive_pubkey(&xpub, 1));
    // Hardened children, malformed keys and keys of the greatest depth
    // give no key.
    assert_eq!(derive_pubkey(&xpub, 1 << 31), None);
    assert_eq!(derive_pubkey(&Xpub::new([0; 78]), 0), None);
    let mut deep = xpub.key;
    deep[4] = 254;
    assert!(derive_pubkey(&Xpub::new(deep), 0).is_some());
    deep[4] = 255;
    assert_eq!(derive_pubkey(&Xpub::new(deep), 0), None);
    let signers = three();
    let cp = seal(building(&signers, (2, 3)), &config((2, 3)), 1_000);
    assert_eq!(cp.to_sign(&Xpub::new(deep)), Err(ContractError::KeyDerivation));
}
