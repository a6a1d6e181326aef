use bitcoin::secp256k1::Secp256k1;
use bitcoin::util::bip32::{ExtendedPrivKey, ExtendedPubKey};
use bitcoin::Network;
use cw_bitcoin::building::BuildingCheckpoint;
use cw_bitcoin::checkpoint::{BatchType, Checkpoint, CheckpointStatus};
use cw_bitcoin::error::ContractError;
use cw_bitcoin::interface::{Accounts, CheckpointConfig, Coin, Dest, IbcDest, Validator};
use cw_bitcoin::keys::Xpub;
use cw_bitcoin::signatory::SignatorySet;
use cw_bitcoin::tx::{BitcoinTx, Input, OutPoint, Output};

fn xpub(seed: u8) -> Xpub {
    let secp = Secp256k1::new();
    let xpriv = ExtendedPrivKey::new_master(Network::Bitcoin, &[seed; 32]).unwrap();
    Xpub::new(ExtendedPubKey::from_priv(&secp, &xpriv).encode())
}

fn sigset() -> SignatorySet {
    let validators: Vec<Validator> =
        (1..=3).map(|i| Validator { pubkey: [i; 32], power: 100 }).collect();
    let sig_keys: Vec<([u8; 32], Xpub)> = (1..=3).map(|i| ([i; 32], xpub(i))).collect();
    SignatorySet::from_validator_ctx(&validators, &sig_keys, 1_000, 0).unwrap()
}

fn config() -> CheckpointConfig {
    CheckpointConfig { sigset_threshold: (2, 3), ..CheckpointConfig::default() }
}

/// An output to a pay-to-witness-pubkey-hash script; its dust value is 294.
fn payout(tag: u8, value: u64) -> Output {
    let mut script = vec![0x00, 0x14];
    script.extend_from_slice(&[tag; 20]);
    Output { value, script_pubkey: script }
}

fn recovery_script(tag: u8) -> Vec<u8> {
    payout(tag, 0).script_pubkey
}

fn no_accounts() -> Accounts {
    Accounts { transfers_allowed: true, transfer_exceptions: vec![], accounts: vec![] }
}

fn coin(amount: u128) -> Coin {
    Coin { denom: "usat".to_string(), amount }
}

fn reserve() -> OutPoint {
    OutPoint { txid: [8; 32], vout: 0 }
}

fn values(tx: &BitcoinTx) -> Vec<u64> {
    tx.output.iter().map(|o| o.value).collect()
}

fn building() -> BuildingCheckpoint {
    BuildingCheckpoint(Checkpoint::new(sigset()).unwrap())
}

fn reserve_script() -> Vec<u8> {
    sigset().output_script(&vec![0], (2, 3)).unwrap()
}

#[test]
fn residual_goes_to_one_catch_all_output() {
    let mut cp = building();
    let external = vec![payout(1, 10_000), payout(2, 20_000)];
    cp.generate_emergency_disbursal_txs(1_000, &vec![], &no_accounts(), reserve(), &external, 0, 100_000, &config())
        .unwrap();
    let intermediate = &cp.0.batches[BatchType::IntermediateTx.index()].batch[0];
    assert_eq!(values(intermediate), vec![30_000, 70_000]);
    assert_eq!(intermediate.output[1].script_pubkey, reserve_script());
    assert_eq!(intermediate.output[0].script_pubkey, reserve_script());
    assert_eq!(intermediate.lock_time, 1_000 + 4_838_400);
    assert_eq!(intermediate.input.len(), 1);
    assert_eq!(intermediate.input[0].prevout, reserve());
    assert_eq!(intermediate.input[0].amount, 100_000);
    assert_eq!(intermediate.input[0].dest, vec![0]);
    assert_ne!(intermediate.input[0].signatures.message(), [0; 32]);

    let finals = &cp.0.batches[BatchType::Disbursal.index()];
    assert_eq!(finals.len(), 1);
    let last = &finals.batch[0];
    assert_eq!(last.lock_time, 1_000 + 4_838_400);
    assert_eq!(last.output, external);
    assert_eq!(last.input.len(), 1);
    assert_eq!(last.input[0].amount, 30_000);
    assert_eq!(last.input[0].prevout, OutPoint { txid: intermediate.txid().unwrap(), vout: 0 });
    assert_ne!(last.input[0].signatures.message(), [0; 32]);
    // The checkpoint transaction is not touched.
    assert_eq!(cp.0.batches[BatchType::Checkpoint.index()].batch[0], BitcoinTx::with_lock_time(0));
    assert_eq!(cp.0.status, CheckpointStatus::Building);
}

#[test]
fn without_outputs_the_whole_reserve_is_the_residual() {
    let mut cp = building();
    cp.generate_emergency_disbursal_txs(5, &vec![], &no_accounts(), reserve(), &vec![], 0, 100_000, &config())
        .unwrap();
    let intermediate = &cp.0.batches[1].batch[0];
    assert_eq!(values(intermediate), vec![0, 100_000]);
    assert_eq!(cp.0.batches[0].len(), 1);
    assert!(cp.0.batches[0].batch[0].output.is_empty());
    assert_eq!(cp.0.batches[0].batch[0].input[0].amount, 0);
}

#[test]
fn outputs_beyond_the_reserve_are_refused() {
    let mut cp = building();
    let before = cp.0.clone();
    let external = vec![payout(1, 60_000), payout(2, 50_000)];
    assert_eq!(
        cp.generate_emergency_disbursal_txs(5, &vec![], &no_accounts(), reserve(), &external, 0, 100_000, &config()),
        Err(ContractError::DisbursalExceedsReserve)
    );
    assert_eq!(cp.0, before);
}

#[test]
fn final_transaction_of_a_pruned_output_is_dropped() {
    let mut cp = building();
    let external = vec![payout(1, 1_000)];
    cp.generate_emergency_disbursal_txs(5, &vec![], &no_accounts(), reserve(), &external, 10, 1_000_000, &config())
        .unwrap();
    // The intermediate transaction takes 137 virtual bytes and pays 1370.
    // Its output of 1000 cannot pay a share of 685 beyond its dust value of
    // 330 and is dropped, and with it the final transaction that was to
    // spend it.
    let intermediate = &cp.0.batches[1].batch[0];
    assert_eq!(intermediate.vsize(), Ok(137 - 43));
    assert_eq!(values(intermediate), vec![997_630]);
    assert_eq!(cp.0.batches[0].len(), 0);
}

#[test]
fn fees_are_deducted_from_intermediate_and_final_transactions() {
    let mut cp = building();
    let external = vec![payout(1, 50_000), payout(2, 60_000)];
    cp.generate_emergency_disbursal_txs(5, &vec![], &no_accounts(), reserve(), &external, 2, 1_000_000, &config())
        .unwrap();
    // The intermediate transaction takes 137 virtual bytes and pays
    // 137 * 2, 137 from each output.
    let intermediate = &cp.0.batches[1].batch[0];
    assert_eq!(intermediate.vsize(), Ok(137));
    assert_eq!(values(intermediate), vec![109_863, 889_863]);
    // The final transaction spends what is left of its output and pays
    // the 137 and its own 113 * 2, 181 from each output.
    let last = &cp.0.batches[0].batch[0];
    assert_eq!(last.vsize(), Ok(113));
    assert_eq!(last.input[0].amount, 109_863);
    assert_eq!(last.input[0].prevout, OutPoint { txid: intermediate.txid().unwrap(), vout: 0 });
    assert_eq!(values(last), vec![49_819, 59_819]);
}

#[test]
fn outputs_below_the_least_amount_are_left_out() {
    let mut cp = building();
    let external = vec![payout(1, 999), payout(2, 1_000), payout(3, 5)];
    cp.generate_emergency_disbursal_txs(5, &vec![], &no_accounts(), reserve(), &external, 0, 100_000, &config())
        .unwrap();
    assert_eq!(cp.0.batches[0].batch[0].output, vec![payout(2, 1_000)]);
    assert_eq!(values(&cp.0.batches[1].batch[0]), vec![1_000, 99_000]);
}

#[test]
fn a_full_final_transaction_is_closed_and_a_new_one_opened() {
    let mut cp = building();
    let cfg = CheckpointConfig { emergency_disbursal_max_tx_size: 100, ..config() };
    // A transaction with two of these outputs takes 72 virtual bytes, one
    // with three takes 103.
    let external: Vec<Output> = (1..=5).map(|i| payout(i, 10_000 * i as u64)).collect();
    cp.generate_emergency_disbursal_txs(5, &vec![], &no_accounts(), reserve(), &external, 0, 1_000_000, &cfg)
        .unwrap();
    let finals = &cp.0.batches[0];
    assert_eq!(finals.len(), 2);
    assert_eq!(values(&finals.batch[0]), vec![10_000, 20_000, 30_000]);
    assert_eq!(values(&finals.batch[1]), vec![40_000, 50_000]);
    let intermediate = &cp.0.batches[1].batch[0];
    assert_eq!(values(intermediate), vec![60_000, 90_000, 850_000]);
    let id = intermediate.txid().unwrap();
    assert_eq!(finals.batch[0].input[0].prevout, OutPoint { txid: id, vout: 0 });
    assert_eq!(finals.batch[1].input[0].prevout, OutPoint { txid: id, vout: 1 });
    assert_eq!(finals.batch[0].input[0].amount, 60_000);
    assert_eq!(finals.batch[1].input[0].amount, 90_000);
}

#[test]
fn holders_and_pending_transfers_get_outputs() {
    let mut cp = building();
    cp.insert_pending(Dest::Address("carol".to_string()), coin(7_000_000_000)).unwrap();
    cp.insert_pending(Dest::Address("nobody".to_string()), coin(9_000_000_000)).unwrap();
    let scripts = vec![
        ("alice".to_string(), recovery_script(1)),
        ("carol".to_string(), recovery_script(3)),
    ];
    let accounts = Accounts {
        transfers_allowed: true,
        transfer_exceptions: vec![],
        accounts: vec![
            ("alice".to_string(), coin(5_000_999_999)),
            ("bob".to_string(), coin(1_000_000_000)),
            ("carol".to_string(), coin(2_000_000_000)),
        ],
    };
    let external = vec![payout(9, 4_000)];
    cp.generate_emergency_disbursal_txs(5, &scripts, &accounts, reserve(), &external, 0, 100_000, &config())
        .unwrap();
    assert_eq!(
        cp.0.batches[0].batch[0].output,
        vec![payout(1, 5_000), payout(3, 2_000), payout(3, 7_000), payout(9, 4_000)]
    );
    assert_eq!(values(&cp.0.batches[1].batch[0]), vec![18_000, 82_000]);
}

#[test]
fn a_holder_without_account_is_an_error() {
    let mut cp = building();
    let scripts = vec![("alice".to_string(), recovery_script(1))];
    assert_eq!(
        cp.generate_emergency_disbursal_txs(5, &scripts, &no_accounts(), reserve(), &vec![], 0, 100_000, &config()),
        Err(ContractError::AccountNotFound)
    );
}

#[test]
fn lock_time_beyond_the_range_is_an_error() {
    let mut cp = building();
    let cfg = CheckpointConfig { emergency_disbursal_lock_time_interval: u32::MAX, ..config() };
    assert_eq!(
        cp.generate_emergency_disbursal_txs(1, &vec![], &no_accounts(), reserve(), &vec![], 0, 100_000, &cfg),
        Err(ContractError::Overflow)
    );
    // Only the low 32 bits of the time count.
    let mut cp = building();
    cp.generate_emergency_disbursal_txs((1 << 32) + 9, &vec![], &no_accounts(), reserve(), &vec![], 0, 100_000, &config())
        .unwrap();
    assert_eq!(cp.0.batches[1].batch[0].lock_time, 9 + 4_838_400);
}

#[test]
fn without_intermediate_transaction_nothing_is_generated() {
    let mut cp = building();
    cp.0.batches[1].batch.clear();
    let before = cp.0.clone();
    assert_eq!(
        cp.generate_emergency_disbursal_txs(5, &vec![], &no_accounts(), reserve(), &vec![payout(1, 5_000)], 0, 100_000, &config()),
        Ok(())
    );
    assert_eq!(cp.0, before);
    cp.0.batches.truncate(1);
    assert_eq!(
        cp.generate_emergency_disbursal_txs(5, &vec![], &no_accounts(), reserve(), &vec![], 0, 100_000, &config()),
        Err(ContractError::MissingBatch)
    );
}

#[test]
fn link_adds_an_output_and_an_input() {
    let mut cp = building();
    let mut tx = BitcoinTx::with_lock_time(3);
    tx.output.push(payout(1, 700));
    tx.output.push(payout(2, 300));
    let id = cp.0.batches[1].batch[0].txid().unwrap();
    cp.link_intermediate_tx(&mut tx, (2, 3)).unwrap();
    let intermediate = &cp.0.batches[1].batch[0];
    assert_eq!(intermediate.output, vec![Output { value: 1_000, script_pubkey: reserve_script() }]);
    assert_eq!(tx.input.len(), 1);
    assert_eq!(tx.input[0], Input::new(OutPoint { txid: id, vout: 0 }, &sigset(), &vec![0], 1_000, (2, 3)).unwrap());
    let id = intermediate.txid().unwrap();
    let mut next = BitcoinTx::with_lock_time(3);
    cp.link_intermediate_tx(&mut next, (2, 3)).unwrap();
    assert_eq!(next.input[0].prevout, OutPoint { txid: id, vout: 1 });
    assert_eq!(cp.0.batches[1].batch[0].output.len(), 2);
}

#[test]
fn link_fails_without_intermediate_transaction() {
    let mut cp = building();
    cp.0.batches[1].batch.clear();
    let mut tx = BitcoinTx::with_lock_time(3);
    assert_eq!(cp.link_intermediate_tx(&mut tx, (2, 3)), Err(ContractError::MissingTransaction));
    assert_eq!(tx, BitcoinTx::with_lock_time(3));
}

#[test]
fn deduct_emergency_disbursal_fees_with_no_output_left_drops_all_final_transactions() {
    let mut cp = building();
    let mut tx = BitcoinTx::with_lock_time(3);
    tx.output.push(payout(1, 400));
    cp.link_intermediate_tx(&mut tx, (2, 3)).unwrap();
    cp.0.batches[0].push(tx.clone());
    cp.0.batches[0].push(BitcoinTx::with_lock_time(4));
    // The fee of 106 is within the 400 of the output, but more than the 70
    // that it holds beyond its dust value.
    cp.deduct_emergency_disbursal_fees(2).unwrap();
    assert!(cp.0.batches[1].batch[0].output.is_empty());
    assert_eq!(cp.0.batches[0].len(), 0);
}

#[test]
fn deduct_emergency_disbursal_fees_beyond_the_value_fails() {
    let mut cp = building();
    let mut tx = BitcoinTx::with_lock_time(3);
    tx.output.push(payout(1, 400));
    cp.link_intermediate_tx(&mut tx, (2, 3)).unwrap();
    cp.0.batches[0].push(tx.clone());
    let before = cp.0.clone();
    // 53 virtual bytes at 10 satoshis each are more than the 400 that the
    // intermediate transaction holds.
    assert_eq!(cp.deduct_emergency_disbursal_fees(10), Err(ContractError::BitcoinFee(530)));
    assert_eq!(cp.0, before);
}

#[test]
fn deduct_emergency_disbursal_fees_drops_final_transactions_that_cannot_pay() {
    let mut cp = building();
    let mut tx = BitcoinTx::with_lock_time(3);
    tx.output.push(payout(1, 600));
    cp.link_intermediate_tx(&mut tx, (2, 3)).unwrap();
    cp.0.batches[0].push(tx);
    // The intermediate transaction pays 53 * 5 = 265 and keeps its output.
    // The final transaction owes these 265 and 82 * 5 = 410 of its own,
    // which is more than the 600 that it holds.
    cp.deduct_emergency_disbursal_fees(5).unwrap();
    assert_eq!(values(&cp.0.batches[1].batch[0]), vec![335]);
    assert_eq!(cp.0.batches[0].len(), 0);
}

#[test]
fn a_final_transaction_that_cannot_pay_leaves_its_output_to_the_next() {
    let mut cp = building();
    let mut small = BitcoinTx::with_lock_time(3);
    small.output.push(payout(1, 1_000));
    cp.link_intermediate_tx(&mut small, (2, 3)).unwrap();
    let mut large = BitcoinTx::with_lock_time(3);
    large.output.push(payout(2, 50_000));
    cp.link_intermediate_tx(&mut large, (2, 3)).unwrap();
    cp.0.batches[0].push(small);
    cp.0.batches[0].push(large);
    // The intermediate transaction takes 96 virtual bytes and pays 960, each
    // output 480 of it. The first final transaction owes 480 + 820, which is
    // more than it holds; the second pays.
    cp.deduct_emergency_disbursal_fees(10).unwrap();
    let id = cp.0.batches[1].batch[0].txid().unwrap();
    assert_eq!(values(&cp.0.batches[1].batch[0]), vec![520, 49_520]);
    assert_eq!(cp.0.batches[0].len(), 1);
    let kept = &cp.0.batches[0].batch[0];
    assert_eq!(kept.input[0].prevout, OutPoint { txid: id, vout: 1 });
    assert_eq!(kept.input[0].amount, 49_520);
    assert_eq!(values(kept), vec![50_000 - 480 - 820]);
}

#[test]
fn deduct_emergency_disbursal_fees_drops_unlinked_transactions() {
    let mut cp = building();
    let mut linked = BitcoinTx::with_lock_time(3);
    linked.output.push(payout(1, 40_000));
    cp.link_intermediate_tx(&mut linked, (2, 3)).unwrap();
    cp.0.batches[0].push(BitcoinTx::with_lock_time(3));
    cp.0.batches[0].push(linked);
    cp.deduct_emergency_disbursal_fees(1).unwrap();
    // The intermediate transaction has no input yet and takes 53 virtual bytes.
    assert_eq!(values(&cp.0.batches[1].batch[0]), vec![40_000 - 53]);
    assert_eq!(cp.0.batches[0].len(), 1);
    assert_eq!(cp.0.batches[0].batch[0].input[0].amount, 40_000 - 53);
    assert_eq!(values(&cp.0.batches[0].batch[0]), vec![40_000 - 53 - 82]);
}

#[test]
fn insert_pending_adds_up_by_destination() {
    let mut cp = building();
    cp.insert_pending(Dest::Address("alice".to_string()), coin(5)).unwrap();
    let ibc = IbcDest {
        source_port: "transfer".to_string(),
        source_channel: "channel-0".to_string(),
        receiver: "bob".to_string(),
        sender: "alice".to_string(),
        timeout_timestamp: 0,
        memo: String::new(),
    };
    cp.insert_pending(Dest::Ibc(ibc), coin(7)).unwrap();
    cp.insert_pending(Dest::Address("alice".to_string()), Coin { denom: "other".to_string(), amount: 6 })
        .unwrap();
    assert_eq!(cp.0.pending, vec![("alice".to_string(), coin(11)), ("bob".to_string(), coin(7))]);
    let before = cp.0.clone();
    assert_eq!(
        cp.insert_pending(Dest::Address("bob".to_string()), coin(u128::MAX)),
        Err(ContractError::Overflow)
    );
    assert_eq!(cp.0, before);
}

#[test]
fn advance_seals_the_checkpoint() {
    let set = sigset();
    let mut cp = building();
    let cfg = CheckpointConfig { max_inputs: 2, max_outputs: 3, ..config() };
    let inputs: Vec<Input> = (1..=4)
        .map(|i| Input::new(OutPoint { txid: [i; 32], vout: 1 }, &set, &vec![i], 100_000 * i as u64, (2, 3)).unwrap())
        .collect();
    {
        let tx = &mut cp.0.batches[2].batch[0];
        tx.input = inputs.clone();
        tx.output = vec![payout(1, 10_000), payout(2, 20_000), payout(3, 30_000)];
    }
    cp.0.fee_rate = 0;
    let (outpoint, reserve_value, fees, excess_inputs, excess_outputs) =
        cp.advance(50, &vec![], &no_accounts(), &vec![], vec![0xab; 32], 5_000, &cfg).unwrap();
    assert_eq!(cp.0.status, CheckpointStatus::Signing);
    let tx = &cp.0.batches[2].batch[0];
    // 100 000 + 200 000 in, 10 000 and the fee of 5 000 out.
    assert_eq!(reserve_value, 285_000);
    assert_eq!(fees, 5_000);
    assert_eq!(outpoint, OutPoint { txid: tx.txid().unwrap(), vout: 0 });
    assert_eq!(tx.input.len(), 2);
    assert_eq!(tx.input[0].prevout, inputs[0].prevout);
    assert_eq!(tx.input[1].prevout, inputs[1].prevout);
    assert_ne!(tx.input[0].signatures.message(), [0; 32]);
    assert_ne!(tx.input[0].signatures.message(), tx.input[1].signatures.message());
    let mut commitment = vec![0x6a, 0x20];
    commitment.extend_from_slice(&[0xab; 32]);
    assert_eq!(
        tx.output,
        vec![
            Output { value: 285_000, script_pubkey: reserve_script() },
            Output { value: 0, script_pubkey: commitment },
            payout(1, 10_000),
        ]
    );
    // What did not fit comes back, last first.
    assert_eq!(excess_inputs, vec![inputs[3].clone(), inputs[2].clone()]);
    assert_eq!(excess_outputs, vec![payout(3, 30_000), payout(2, 20_000)]);
    assert_eq!(cp.0.checkpoint_tx_miner_fees(), Ok(5_000));
    assert_eq!(cp.0.reserve_output().unwrap().unwrap().value, 285_000);
    // The emergency disbursal spends the reserve output.
    let intermediate = &cp.0.batches[1].batch[0];
    assert_eq!(intermediate.input[0].prevout, outpoint);
    assert_eq!(intermediate.input[0].amount, 285_000);
    assert_eq!(intermediate.lock_time, 50 + 4_838_400);
    assert_eq!(cp.0.emergency_disbursal_txs().unwrap().len(), 2);
}

#[test]
fn advance_without_the_means_for_the_fee_changes_nothing() {
    let set = sigset();
    let mut cp = building();
    cp.0.batches[2].batch[0]
        .input
        .push(Input::new(OutPoint { txid: [1; 32], vout: 0 }, &set, &vec![1], 10_000, (2, 3)).unwrap());
    cp.0.batches[2].batch[0].output.push(payout(1, 9_000));
    let before = cp.0.clone();
    assert_eq!(
        cp.advance(50, &vec![], &no_accounts(), &vec![], vec![], 1_001, &config()),
        Err(ContractError::InsufficientReserve)
    );
    assert_eq!(cp.0, before);
    // A reserve of nothing cannot pay for its emergency disbursal: the
    // intermediate transaction takes 137 virtual bytes, at 55 satoshis each.
    assert_eq!(
        cp.advance(50, &vec![], &no_accounts(), &vec![], vec![], 1_000, &config()),
        Err(ContractError::BitcoinFee(137 * 55))
    );
    assert_eq!(cp.0, before);
    cp.0.fee_rate = 0;
    assert!(cp.advance(50, &vec![], &no_accounts(), &vec![], vec![], 1_000, &config()).is_ok());
    assert_eq!(cp.0.reserve_output().unwrap().unwrap().value, 0);
}

#[test]
fn advance_is_for_building_checkpoints_only() {
    let mut cp = building();
    cp.0.status = CheckpointStatus::Signing;
    assert_eq!(
        cp.advance(50, &vec![], &no_accounts(), &vec![], vec![], 0, &config()),
        Err(ContractError::NotBuilding)
    );
    cp.0.status = CheckpointStatus::Complete;
    assert_eq!(
        cp.advance(50, &vec![], &no_accounts(), &vec![], vec![], 0, &config()),
        Err(ContractError::NotBuilding)
    );
}

#[test]
fn advance_reports_what_is_missing() {
    let mut cp = building();
    let none = CheckpointConfig { max_outputs: 0, ..config() };
    assert_eq!(
        cp.advance(50, &vec![], &no_accounts(), &vec![], vec![], 0, &none),
        Err(ContractError::MissingReserveOutput)
    );
    let mut cp = building();
    cp.0.batches[2].batch.clear();
    assert_eq!(
        cp.advance(50, &vec![], &no_accounts(), &vec![], vec![], 0, &config()),
        Err(ContractError::MissingTransaction)
    );
    let mut cp = building();
    cp.0.batches.pop();
    assert_eq!(
        cp.advance(50, &vec![], &no_accounts(), &vec![], vec![], 0, &config()),
        Err(ContractError::MissingBatch)
    );
    let mut cp = BuildingCheckpoint(Checkpoint::new(SignatorySet::new(0, 0)).unwrap());
    assert_eq!(
        cp.advance(50, &vec![], &no_accounts(), &vec![], vec![], 0, &config()),
        Err(ContractError::EmptySignatorySet)
    );
    let mut cp = building();
    let cfg = CheckpointConfig { sigset_threshold: (1, 0), ..config() };
    assert_eq!(
        cp.advance(50, &vec![], &no_accounts(), &vec![], vec![], 0, &cfg),
        Err(ContractError::InvalidThreshold)
    );
}

#[test]
fn a_checkpoint_says_what_deposits_and_withdrawals_are_charged() {
    let mut cp = building();
    // The witness of three signatories is taken to have 3 * 79 + 39 bytes,
    // and the input 40 more; the fee rate is 55.
    assert_eq!(cp.0.deposit_fees(27_000), Ok(316 * 55 * 27 / 10));
    assert_eq!(cp.0.withdrawal_fees(22, 27_000), Ok(31 * 55 * 27 / 10));
    cp.0.fee_rate = u64::MAX;
    assert_eq!(cp.0.deposit_fees(27_000), Err(ContractError::Overflow));
    assert_eq!(cp.0.withdrawal_fees(22, 1), Err(ContractError::Overflow));
    cp.0.fee_rate = 0;
    assert_eq!(cp.0.deposit_fees(27_000), Ok(0));
    assert_eq!(cp.0.withdrawal_fees(u64::MAX, 27_000), Ok(0));
}
