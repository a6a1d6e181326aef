use bitcoin::secp256k1::{Message, Secp256k1};
use bitcoin::util::bip32::{ChildNumber, ExtendedPrivKey, ExtendedPubKey};
use bitcoin::util::sighash::SighashCache;
use bitcoin::{EcdsaSighashType, Network, PackedLockTime, Script, Sequence, Witness};
use cw_bitcoin::building::BuildingCheckpoint;
use cw_bitcoin::checkpoint::{BatchType, Checkpoint};
use cw_bitcoin::error::ContractError;
use cw_bitcoin::interface::{Accounts, CheckpointConfig, Validator};
use cw_bitcoin::keys::{Pubkey, Signature, Xpub};
use cw_bitcoin::signatory::{Signatory, SignatorySet};
use cw_bitcoin::tx::{BitcoinTx, Input, OutPoint, Output, Transaction, TxIn};
use sha2::Digest;

fn keys(seed: u8) -> (ExtendedPrivKey, Xpub) {
    let secp = Secp256k1::new();
    let xpriv = ExtendedPrivKey::new_master(Network::Bitcoin, &[seed; 32]).unwrap();
    (xpriv, Xpub::new(ExtendedPubKey::from_priv(&secp, &xpriv).encode()))
}

fn sign_all(xpriv: &ExtendedPrivKey, to_sign: &[([u8; 32], u32)]) -> Vec<Signature> {
    let secp = Secp256k1::new();
    to_sign
        .iter()
        .map(|(msg, index)| {
            let child = xpriv
                .derive_priv(&secp, &[ChildNumber::from_normal_idx(*index).unwrap()])
                .unwrap();
            let sig = secp.sign_ecdsa(&Message::from_slice(msg).unwrap(), &child.private_key);
            Signature(sig.serialize_compact())
        })
        .collect()
}

fn sigset_of(signers: &[(ExtendedPrivKey, Xpub)]) -> SignatorySet {
    let validators: Vec<Validator> = (0..signers.len())
        .map(|i| Validator { pubkey: [i as u8; 32], power: 100 })
        .collect();
    let sig_keys: Vec<([u8; 32], Xpub)> =
        (0..signers.len()).map(|i| ([i as u8; 32], signers[i].1)).collect();
    SignatorySet::from_validator_ctx(&validators, &sig_keys, 1_000, 0).unwrap()
}

fn payout(tag: u8, value: u64) -> Output {
    let mut script = vec![0x00, 0x14];
    script.extend_from_slice(&[tag; 20]);
    Output { value, script_pubkey: script }
}

/// The transaction as the `bitcoin` crate holds it.
fn outside(tx: &Transaction) -> bitcoin::Transaction {
    bitcoin::Transaction {
        version: tx.version,
        lock_time: PackedLockTime(tx.lock_time),
        input: tx
            .input
            .iter()
            .map(|i| bitcoin::TxIn {
                previous_output: bitcoin::OutPoint {
                    txid: bitcoin::hashes::Hash::from_inner(i.previous_output.txid),
                    vout: i.previous_output.vout,
                },
                script_sig: Script::from(i.script_sig.clone()),
                sequence: Sequence(i.sequence),
                witness: Witness::from_vec(i.witness.clone()),
            })
            .collect(),
        output: tx
            .output
            .iter()
            .map(|o| bitcoin::TxOut { value: o.value, script_pubkey: Script::from(o.script_pubkey.clone()) })
            .collect(),
    }
}

fn txid_of(tx: &bitcoin::Transaction) -> [u8; 32] {
    bitcoin::hashes::Hash::into_inner(tx.txid())
}

fn unsigned_tx(signers: &[(ExtendedPrivKey, Xpub)]) -> BitcoinTx {
    let sigset = sigset_of(signers);
    let mut tx = BitcoinTx::with_lock_time(77);
    tx.input.push(Input::new(OutPoint { txid: [1; 32], vout: 3 }, &sigset, &vec![1, 2], 70_000, (2, 3)).unwrap());
    tx.input.push(Input::new(OutPoint { txid: [2; 32], vout: 0 }, &sigset, &vec![], 30_000, (2, 3)).unwrap());
    tx.output.push(payout(1, 60_000));
    tx.output.push(payout(2, 39_000));
    tx
}

#[test]
fn unsigned_transaction_on_the_wire() {
    let tx = unsigned_tx(&[keys(1), keys(2)]);
    assert!(!tx.signed());
    assert_eq!(
        tx.to_bitcoin_tx(),
        Ok(Transaction {
            version: 1,
            lock_time: 77,
            input: vec![
                TxIn {
                    previous_output: OutPoint { txid: [1; 32], vout: 3 },
                    script_sig: vec![],
                    sequence: u32::MAX,
                    witness: vec![],
                },
                TxIn {
                    previous_output: OutPoint { txid: [2; 32], vout: 0 },
                    script_sig: vec![],
                    sequence: u32::MAX,
                    witness: vec![],
                },
            ],
            output: vec![payout(1, 60_000), payout(2, 39_000)],
        })
    );
    assert_eq!(tx.value(), Ok(99_000));
    // 4 + 1 + 2 * 41 + 1 + 2 * 31 + 4 bytes, none of them witness data.
    assert_eq!(tx.vsize(), Ok(154));
    assert!(BitcoinTx::with_lock_time(0).signed());
}

#[test]
fn vsize_and_txid_are_those_of_the_wire_transaction() {
    let tx = unsigned_tx(&[keys(1), keys(2)]);
    let wire = outside(&tx.to_bitcoin_tx().unwrap());
    assert_eq!(tx.vsize(), Ok(wire.vsize() as u64));
    assert_eq!(tx.txid(), Ok(txid_of(&wire)));
    let mut other = tx.clone();
    other.output[0].value += 1;
    assert_ne!(other.txid(), tx.txid());
    let mut later = tx.clone();
    later.lock_time = 78;
    assert_ne!(later.txid(), tx.txid());
    // A known transaction: no inputs, no outputs, lock time zero.
    assert_eq!(BitcoinTx::with_lock_time(0).vsize(), Ok(10));
}

#[test]
fn sig_message_is_the_segwit_digest() {
    let mut tx = unsigned_tx(&[keys(1), keys(2)]);
    let wire = outside(&tx.to_bitcoin_tx().unwrap());
    for i in 0..2 {
        assert_eq!(tx.input[i].signatures.message(), [0; 32]);
        assert_eq!(tx.populate_input_sig_message(i), Ok(()));
        let expected = SighashCache::new(&wire)
            .segwit_signature_hash(
                i,
                &Script::from(tx.input[i].redeem_script.clone()),
                tx.input[i].amount,
                EcdsaSighashType::All,
            )
            .unwrap();
        assert_eq!(tx.input[i].signatures.message(), bitcoin::hashes::Hash::into_inner(expected));
    }
    assert_ne!(tx.input[0].signatures.message(), tx.input[1].signatures.message());
    let before = tx.clone();
    assert_eq!(tx.populate_input_sig_message(2), Err(ContractError::InputIndexOutOfBounds(2)));
    assert_eq!(tx, before);
}

#[test]
fn input_scripts_commit_to_set_and_destination() {
    let signers = [keys(1), keys(2)];
    let sigset = sigset_of(&signers);
    let input = Input::new(OutPoint { txid: [1; 32], vout: 3 }, &sigset, &vec![0xd1, 0xd2], 70_000, (2, 3)).unwrap();
    assert_eq!(input.prevout, OutPoint { txid: [1; 32], vout: 3 });
    assert_eq!(input.sigset_index, 0);
    assert_eq!(input.dest, vec![0xd1, 0xd2]);
    assert_eq!(input.amount, 70_000);
    assert_eq!(input.est_witness_vsize, 2 * 79 + 39);
    assert_eq!(input.est_vsize(), 2 * 79 + 39 + 40);
    assert_eq!(input.signatures.threshold, 134);
    assert_eq!(input.signatures.signed, 0);

    let first = sigset.signatories[0].pubkey;
    let second = sigset.signatories[1].pubkey;
    assert!(first.bytes > second.bytes);
    let mut redeem = vec![0x21];
    redeem.extend_from_slice(&first.bytes);
    // OP_CHECKSIG OP_IF 100 OP_ELSE 0 OP_ENDIF
    redeem.extend_from_slice(&[0xac, 0x63, 0x01, 0x64, 0x67, 0x00, 0x68]);
    // OP_SWAP key OP_CHECKSIG OP_IF 100 OP_ADD OP_ENDIF
    redeem.push(0x7c);
    redeem.push(0x21);
    redeem.extend_from_slice(&second.bytes);
    redeem.extend_from_slice(&[0xac, 0x63, 0x01, 0x64, 0x93, 0x68]);
    // 134 OP_GREATERTHANOREQUAL destination OP_DROP
    redeem.extend_from_slice(&[0x02, 0x86, 0x00, 0xa2, 0x02, 0xd1, 0xd2, 0x75]);
    assert_eq!(input.redeem_script, redeem);
    assert_eq!(sigset.redeem_script(&vec![0xd1, 0xd2], (2, 3)), Ok(redeem.clone()));

    let mut locking = vec![0x00, 0x20];
    locking.extend_from_slice(&sha2::Sha256::digest(&redeem));
    assert_eq!(input.script_pubkey, locking);
    assert_eq!(sigset.output_script(&vec![0xd1, 0xd2], (2, 3)), Ok(locking));
}

#[test]
fn scripts_state_small_numbers_and_long_data_as_bitcoin_does() {
    let set = SignatorySet {
        create_time: 0,
        present_vp: 16,
        possible_vp: 16,
        index: 0,
        signatories: vec![Signatory { voting_power: 16, pubkey: Pubkey::new([2; 33]) }],
    };
    let dest = vec![0xee; 80];
    let script = set.redeem_script(&dest, (1, 2)).unwrap();
    let mut expected = vec![0x21];
    expected.extend_from_slice(&[2; 33]);
    // The weight 16 is OP_16, the threshold 8 is OP_8, and 80 bytes of
    // data follow OP_PUSHDATA1.
    expected.extend_from_slice(&[0xac, 0x63, 0x60, 0x67, 0x00, 0x68, 0x58, 0xa2, 0x4c, 80]);
    expected.extend_from_slice(&dest);
    expected.push(0x75);
    assert_eq!(script, expected);
}

#[test]
fn scripts_keep_twenty_three_bits_of_the_weights() {
    let set = SignatorySet {
        create_time: 0,
        present_vp: (1 << 24) + 5,
        possible_vp: 1 << 25,
        index: 0,
        signatories: vec![
            Signatory { voting_power: 1 << 24, pubkey: Pubkey::new([3; 33]) },
            Signatory { voting_power: 5, pubkey: Pubkey::new([2; 33]) },
        ],
    };
    // The weights have 25 bits, so two are dropped: 2^22, 1, and for the
    // threshold of a half, (2^23 + 3) / 4 = 2^21.
    let script = set.redeem_script(&vec![], (1, 2)).unwrap();
    let mut expected = vec![0x21];
    expected.extend_from_slice(&[3; 33]);
    expected.extend_from_slice(&[0xac, 0x63, 0x03, 0x00, 0x00, 0x40, 0x67, 0x00, 0x68]);
    expected.extend_from_slice(&[0x7c, 0x21]);
    expected.extend_from_slice(&[2; 33]);
    expected.extend_from_slice(&[0xac, 0x63, 0x51, 0x93, 0x68]);
    expected.extend_from_slice(&[0x03, 0x00, 0x00, 0x20, 0xa2, 0x00, 0x75]);
    assert_eq!(script, expected);
}

#[test]
fn scripts_need_members_and_a_threshold() {
    let signers = [keys(1)];
    let sigset = sigset_of(&signers);
    assert_eq!(
        SignatorySet::new(0, 0).redeem_script(&vec![], (2, 3)),
        Err(ContractError::EmptySignatorySet)
    );
    assert_eq!(
        SignatorySet::new(0, 0).output_script(&vec![], (2, 3)),
        Err(ContractError::EmptySignatorySet)
    );
    assert_eq!(sigset.redeem_script(&vec![], (2, 0)), Err(ContractError::InvalidThreshold));
    assert_eq!(sigset.redeem_script(&vec![], (u64::MAX, 1)), Err(ContractError::Overflow));
    assert_eq!(
        Input::new(OutPoint { txid: [0; 32], vout: 0 }, &SignatorySet::new(0, 0), &vec![], 1, (2, 3)),
        Err(ContractError::EmptySignatorySet)
    );
    let heavy = SignatorySet {
        create_time: 0,
        present_vp: 1,
        possible_vp: 1,
        index: 0,
        signatories: vec![Signatory { voting_power: u64::MAX, pubkey: Pubkey::new([2; 33]) }],
    };
    assert_eq!(heavy.redeem_script(&vec![], (1, 2)), Err(ContractError::Overflow));
}

#[test]
fn signed_transaction_round_trips_through_the_consensus_encoding() {
    let signers = [keys(1), keys(2), keys(3)];
    let sigset = sigset_of(&signers);
    let cfg = CheckpointConfig { sigset_threshold: (2, 3), ..CheckpointConfig::default() };
    let mut cp = Checkpoint::new(sigset.clone()).unwrap();
    {
        let tx = &mut cp.batches[BatchType::Checkpoint.index()].batch[0];
        tx.input.push(Input::new(OutPoint { txid: [1; 32], vout: 0 }, &sigset, &vec![1], 600_000, (2, 3)).unwrap());
        tx.input.push(Input::new(OutPoint { txid: [2; 32], vout: 1 }, &sigset, &vec![2], 400_000, (2, 3)).unwrap());
        tx.output.push(payout(1, 50_000));
    }
    let mut building = BuildingCheckpoint(cp);
    let accounts = Accounts { transfers_allowed: true, transfer_exceptions: vec![], accounts: vec![] };
    building.advance(2_000, &vec![], &accounts, &vec![payout(5, 90_000)], vec![7; 32], 1_000, &cfg).unwrap();
    let mut cp = building.0;
    let unsigned_id = cp.batches[2].batch[0].txid().unwrap();
    let unsigned_size = cp.batches[2].batch[0].vsize().unwrap();
    // Every signatory signs until nothing is left for it to sign.
    for _ in 0..3 {
        for (xpriv, xpub) in signers.iter() {
            let to_sign = cp.to_sign(xpub).unwrap();
            cp.sign(xpub, sign_all(xpriv, &to_sign), 9).unwrap();
        }
    }
    assert!(cp.signed());
    for (_, xpub) in signers.iter() {
        assert_eq!(cp.to_sign(xpub), Ok(vec![]));
    }
    let tx = &cp.batches[2].batch[0];
    assert!(tx.signed());
    let wire = tx.to_bitcoin_tx().unwrap();
    assert_eq!(cp.checkpoint_tx(), Ok(tx.to_bitcoin_tx().unwrap()));
    // Three signatures and the redeem script for each input.
    for (i, input) in wire.input.iter().enumerate() {
        assert_eq!(input.witness.len(), 4);
        assert_eq!(input.witness[3], tx.input[i].redeem_script);
        assert!(input.witness[..3].iter().all(|sig| sig.last() == Some(&1)));
    }
    let bytes = bitcoin::consensus::serialize(&outside(&wire));
    let decoded: bitcoin::Transaction = bitcoin::consensus::deserialize(&bytes).unwrap();
    assert_eq!(decoded, outside(&wire));
    assert_eq!(tx.txid(), Ok(txid_of(&decoded)));
    assert_eq!(tx.vsize(), Ok(decoded.vsize() as u64));
    // Signatures change the size, not the identifier.
    assert_eq!(tx.txid(), Ok(unsigned_id));
    assert!(tx.vsize().unwrap() > unsigned_size);
    // The signatures satisfy the digest that was signed.
    let secp = Secp256k1::verification_only();
    for (i, input) in decoded.input.iter().enumerate() {
        let digest = SighashCache::new(&decoded)
            .segwit_signature_hash(i, &Script::from(tx.input[i].redeem_script.clone()), tx.input[i].amount, EcdsaSighashType::All)
            .unwrap();
        let message = Message::from_slice(&digest).unwrap();
        let witness = input.witness.to_vec();
        for (slot, item) in witness[..3].iter().rev().enumerate() {
            let sig = bitcoin::secp256k1::ecdsa::Signature::from_der(&item[..item.len() - 1]).unwrap();
            let key = bitcoin::secp256k1::PublicKey::from_slice(&sigset.signatories[slot].pubkey.bytes).unwrap();
            assert!(secp.verify_ecdsa(&message, &sig, &key).is_ok());
        }
    }
    // The emergency disbursal transactions round-trip as well.
    for wire in cp.emergency_disbursal_txs().unwrap() {
        let bytes = bitcoin::consensus::serialize(&outside(&wire));
        let decoded: bitcoin::Transaction = bitcoin::consensus::deserialize(&bytes).unwrap();
        assert_eq!(decoded, outside(&wire));
    }
}

#[test]
fn checkpoint_fee_estimates() {
    let signers = [keys(1), keys(2)];
    let sigset = sigset_of(&signers);
    let cfg = CheckpointConfig { sigset_threshold: (2, 3), max_inputs: 2, max_outputs: 3, ..CheckpointConfig::default() };
    let mut cp = Checkpoint::new(sigset.clone()).unwrap();
    assert_eq!(cp.fee_rate, 55);
    assert_eq!(cp.create_time(), 1_000);
    {
        let tx = &mut cp.batches[2].batch[0];
        for i in 1..=3u8 {
            tx.input.push(Input::new(OutPoint { txid: [i; 32], vout: 0 }, &sigset, &vec![i], 1_000 * i as u64, (2, 3)).unwrap());
        }
        tx.output.push(payout(1, 500));
        tx.output.push(payout(2, 700));
    }
    let commitment = vec![3; 32];
    let extra = cp.additional_outputs(&cfg, &commitment).unwrap();
    let mut op_return = vec![0x6a, 0x20];
    op_return.extend_from_slice(&commitment);
    assert_eq!(
        extra,
        vec![
            Output { value: 0, script_pubkey: sigset.output_script(&vec![0], (2, 3)).unwrap() },
            Output { value: 0, script_pubkey: op_return },
        ]
    );
    // Two inputs of 41 bytes, the reserve output of 43, the commitment of
    // 43 and one withdrawal of 31, framed by 4 + 1 + 1 + 4 bytes; and two
    // witnesses of 2 * 79 + 39 virtual bytes.
    let size = 10 + 2 * 41 + 43 + 43 + 31 + 2 * 197;
    assert_eq!(cp.est_vsize(&cfg, &commitment), Ok(size));
    assert_eq!(cp.base_fee(&cfg, &commitment), Ok(size * 55));
    cp.fee_rate = u64::MAX;
    assert_eq!(cp.base_fee(&cfg, &commitment), Err(ContractError::Overflow));
    assert_eq!(cp.calc_total_input_and_output(&cfg), Ok((3_000, 1_200)));
    let all = CheckpointConfig { max_inputs: 40, ..cfg };
    assert_eq!(cp.calc_total_input_and_output(&all), Ok((6_000, 1_200)));
    let few = CheckpointConfig { max_inputs: 0, max_outputs: 1, ..cfg };
    assert_eq!(cp.calc_total_input_and_output(&few), Ok((0, 500)));
    assert_eq!(cp.checkpoint_tx_miner_fees(), Ok(4_800));
    cp.batches[2].batch[0].output.push(payout(3, 5_000));
    assert_eq!(cp.checkpoint_tx_miner_fees(), Err(ContractError::InsufficientReserve));
    cp.batches[2].batch[0].input[0].amount = u64::MAX;
    assert_eq!(cp.checkpoint_tx_miner_fees(), Err(ContractError::Overflow));
    assert_eq!(cp.calc_total_input_and_output(&all), Err(ContractError::Overflow));
}

#[test]
fn checkpoint_without_its_batches_reports_what_is_missing() {
    let mut cp = Checkpoint::new(sigset_of(&[keys(1)])).unwrap();
    let cfg = CheckpointConfig::default();
    assert_eq!(cp.reserve_output(), Ok(None));
    assert_eq!(cp.emergency_disbursal_txs().unwrap().len(), 1);
    cp.batches[2].batch.clear();
    assert_eq!(cp.checkpoint_tx(), Err(ContractError::MissingTransaction));
    assert_eq!(cp.reserve_output(), Err(ContractError::MissingTransaction));
    assert_eq!(cp.checkpoint_tx_miner_fees(), Err(ContractError::MissingTransaction));
    assert_eq!(cp.est_vsize(&cfg, &vec![]), Err(ContractError::MissingTransaction));
    assert_eq!(cp.calc_total_input_and_output(&cfg), Err(ContractError::MissingTransaction));
    cp.batches.pop();
    assert_eq!(cp.checkpoint_tx(), Err(ContractError::MissingBatch));
    assert_eq!(cp.base_fee(&cfg, &vec![]), Err(ContractError::MissingBatch));
    cp.batches[1].batch.clear();
    assert_eq!(cp.emergency_disbursal_txs(), Ok(vec![]));
    cp.batches.pop();
    assert_eq!(cp.emergency_disbursal_txs(), Err(ContractError::MissingBatch));
    assert_eq!(cp.signed_batches(), 1);
    assert!(cp.signed());
    cp.advance();
    assert_eq!(cp.status, cw_bitcoin::checkpoint::CheckpointStatus::Complete);
}

#[test]
fn signatory_set_is_read_back_from_its_redeem_script() {
    let signers = [keys(1), keys(2), keys(3)];
    let sigset = sigset_of(&signers);
    let script = sigset.redeem_script(&vec![0xd1, 0xd2], (2, 3)).unwrap();
    let (set, dest) = SignatorySet::from_script(&script, (2, 3)).unwrap();
    assert_eq!(dest, vec![0xd1, 0xd2]);
    assert_eq!(set.signatories, sigset.signatories);
    assert_eq!(set.present_vp(), 300);
    assert_eq!(set.possible_vp(), 300);
    assert_eq!(set.index(), 0);
    assert_eq!(set.create_time(), 0);
    assert_eq!(set.redeem_script(&dest, (2, 3)), Ok(script.clone()));
    // Small weights are stated by opcodes, an empty destination by OP_0.
    let small = SignatorySet {
        create_time: 9,
        present_vp: 17,
        possible_vp: 40,
        index: 3,
        signatories: vec![
            Signatory { voting_power: 16, pubkey: Pubkey::new([3; 33]) },
            Signatory { voting_power: 1, pubkey: Pubkey::new([2; 33]) },
        ],
    };
    let script = small.redeem_script(&vec![], (1, 2)).unwrap();
    let (set, dest) = SignatorySet::from_script(&script, (1, 2)).unwrap();
    assert_eq!(dest, Vec::<u8>::new());
    assert_eq!(set.signatories, small.signatories);
    assert_eq!((set.present_vp(), set.possible_vp(), set.index(), set.create_time()), (17, 17, 0, 0));
}

#[test]
fn what_is_no_redeem_script_is_refused() {
    let signers = [keys(1), keys(2)];
    let sigset = sigset_of(&signers);
    let script = sigset.redeem_script(&vec![7], (2, 3)).unwrap();
    let refused = Err(ContractError::InvalidScript);
    assert_eq!(SignatorySet::from_script(&vec![], (2, 3)), refused);
    assert_eq!(SignatorySet::from_script(&vec![0x51; 11], (2, 3)), refused);
    // The script ends within a push.
    assert_eq!(SignatorySet::from_script(&script[..20].to_vec(), (2, 3)), refused);
    // The last instruction is missing, or one too many is there.
    assert_eq!(SignatorySet::from_script(&script[..script.len() - 1].to_vec(), (2, 3)), refused);
    let mut longer = script.clone();
    longer.push(0x75);
    assert_eq!(SignatorySet::from_script(&longer, (2, 3)), refused);
    // Another threshold, and another opcode for the comparison.
    assert_eq!(SignatorySet::from_script(&script, (1, 2)), refused);
    assert_eq!(SignatorySet::from_script(&script, (2, 0)), refused);
    let mut greater = script.clone();
    let at = greater.iter().rposition(|b| *b == 0xa2).unwrap();
    greater[at] = 0xa0;
    assert_eq!(SignatorySet::from_script(&greater, (2, 3)), refused);
    // A key of 32 bytes.
    let mut short = vec![0x20];
    short.extend_from_slice(&[2; 32]);
    short.extend_from_slice(&[0xac, 0x63, 0x51, 0x67, 0x00, 0x68, 0x51, 0xa2, 0x00, 0x75]);
    assert_eq!(SignatorySet::from_script(&short, (1, 1)), refused);
    // The same with a key of 33 bytes is the script of one member of weight one.
    let mut one = vec![0x21];
    one.extend_from_slice(&[2; 33]);
    one.extend_from_slice(&[0xac, 0x63, 0x51, 0x67, 0x00, 0x68, 0x51, 0xa2, 0x00, 0x75]);
    let (set, _) = SignatorySet::from_script(&one, (1, 1)).unwrap();
    assert_eq!(set.signatories, vec![Signatory { voting_power: 1, pubkey: Pubkey::new([2; 33]) }]);
    // A weight that is not stated in its shortest form is not rebuilt.
    let mut padded = vec![0x21];
    padded.extend_from_slice(&[2; 33]);
    padded.extend_from_slice(&[0xac, 0x63, 0x01, 0x01, 0x67, 0x00, 0x68, 0x51, 0xa2, 0x00, 0x75]);
    assert_eq!(SignatorySet::from_script(&padded, (1, 1)), refused);
}

#[test]
fn script_weights_fit_in_32_bits() {
    let set = |power: u64| SignatorySet {
        create_time: 0,
        present_vp: 1,
        possible_vp: 1,
        index: 0,
        signatories: vec![Signatory { voting_power: power, pubkey: Pubkey::new([2; 33]) }],
    };
    let script = set(u32::MAX as u64).redeem_script(&vec![], (1, 2)).unwrap();
    // 2^32 - 1 takes four bytes and a fifth for the sign.
    assert_eq!(&script[36..42], &[0x05, 0xff, 0xff, 0xff, 0xff, 0x00]);
    assert_eq!(set(u32::MAX as u64 + 1).redeem_script(&vec![], (1, 2)), Err(ContractError::Overflow));
}

#[test]
fn the_identifier_depends_on_no_signature() {
    let signers = [keys(1), keys(2)];
    let mut tx = unsigned_tx(&signers);
    let id = tx.txid().unwrap();
    for i in 0..2 {
        tx.populate_input_sig_message(i).unwrap();
    }
    let digests: Vec<[u8; 32]> = tx.input.iter().map(|i| i.signatures.message()).collect();
    assert_eq!(tx.txid(), Ok(id));
    for (xpriv, _) in signers.iter() {
        for input in tx.input.iter_mut() {
            let sigs = sign_all(xpriv, &[(input.signatures.message(), 0)]);
            let key = input
                .signatures
                .shares()
                .iter()
                .map(|s| s.0)
                .find(|k| input.signatures.verify(k, &sigs[0]))
                .unwrap();
            input.signatures.sign(&key, &sigs[0]).unwrap();
        }
    }
    assert!(tx.input.iter().all(|i| i.signatures.signed()));
    assert!(!tx.to_bitcoin_tx().unwrap().input[0].witness.is_empty());
    assert_eq!(tx.txid(), Ok(id));
    // The digests are those of the signed transaction too.
    let mut again = tx.clone();
    for i in 0..2 {
        again.populate_input_sig_message(i).unwrap();
        assert_eq!(again.input[i].signatures.message(), digests[i]);
    }
}
