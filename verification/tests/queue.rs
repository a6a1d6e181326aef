use bitcoin::secp256k1::{Message, Secp256k1};
use bitcoin::util::bip32::{ChildNumber, ExtendedPrivKey, ExtendedPubKey};
use bitcoin::Network;
use cw_bitcoin::checkpoint::{Checkpoint, CheckpointStatus};
use cw_bitcoin::error::ContractError;
use cw_bitcoin::interface::{Accounts, BitcoinConfig, CheckpointConfig, Coin, Validator};
use cw_bitcoin::keys::{Pubkey, Signature, Xpub};
use cw_bitcoin::queue::CheckpointQueue;
use cw_bitcoin::signatory::{Signatory, SignatorySet};
use cw_bitcoin::tx::{Input, OutPoint, Output};

fn keys(seed: u8) -> (ExtendedPrivKey, Xpub) {
    let secp = Secp256k1::new();
    let xpriv = ExtendedPrivKey::new_master(Network::Bitcoin, &[seed; 32]).unwrap();
    (xpriv, Xpub::new(ExtendedPubKey::from_priv(&secp, &xpriv).encode()))
}

fn sign_all(xpriv: &ExtendedPrivKey, to_sign: &[([u8; 32], u32)]) -> Vec<Signature> {
    let secp = Secp256k1::new();
    to_sign
        .iter()
        .map(|(msg, index)| {
            let child = xpriv
                .derive_priv(&secp, &[ChildNumber::from_normal_idx(*index).unwrap()])
                .unwrap();
            let sig = secp.sign_ecdsa(&Message::from_slice(msg).unwrap(), &child.private_key);
            Signature(sig.serialize_compact())
        })
        .collect()
}

struct World {
    signers: Vec<(ExtendedPrivKey, Xpub)>,
    validators: Vec<Validator>,
    sig_keys: Vec<([u8; 32], Xpub)>,
    accounts: Accounts,
    parent: BitcoinConfig,
}

fn world() -> World {
    let signers = vec![keys(1), keys(2), keys(3)];
    World {
        validators: (1..=3).map(|i| Validator { pubkey: [i; 32], power: 100 }).collect(),
        sig_keys: (0..3).map(|i| ([i as u8 + 1; 32], signers[i].1)).collect(),
        signers,
        accounts: Accounts { transfers_allowed: true, transfer_exceptions: vec![], accounts: vec![] },
        parent: BitcoinConfig::default(),
    }
}

fn config() -> CheckpointConfig {
    CheckpointConfig { sigset_threshold: (2, 3), ..CheckpointConfig::default() }
}

fn new_queue() -> CheckpointQueue {
    let mut queue = CheckpointQueue::new("checkpoint1s".to_string()).unwrap();
    queue.configure(config());
    queue
}

fn step(queue: &mut CheckpointQueue, w: &World, now: u64, btc_height: u32, pool: &mut i64) -> Result<bool, ContractError> {
    queue.maybe_step(now, &vec![], &w.accounts, &vec![], btc_height, true, vec![7; 32], pool, &w.parent, &w.validators, &w.sig_keys)
}

fn payout(tag: u8, value: u64) -> Output {
    let mut script = vec![0x00, 0x14];
    script.extend_from_slice(&[tag; 20]);
    Output { value, script_pubkey: script }
}

fn deposit(queue: &mut CheckpointQueue, tag: u8, amount: u64) {
    let mut building = queue.building().unwrap().0;
    let input = Input::new(OutPoint { txid: [tag; 32], vout: 0 }, &building.sigset, &vec![tag], amount, (2, 3)).unwrap();
    building.batches[2].batch[0].input.push(input);
    building.fees_collected = 1_000_000;
    let index = queue.index();
    queue.set(index, &building).unwrap();
}

fn sign_by(queue: &mut CheckpointQueue, w: &World, who: &[usize], index: u32, btc_height: u32) {
    for _ in 0..3 {
        for i in who {
            let (xpriv, xpub) = &w.signers[*i];
            let to_sign = queue.get(index).unwrap().to_sign(xpub).unwrap();
            queue.sign(xpub, sign_all(xpriv, &to_sign), index, btc_height).unwrap();
        }
    }
}

/// A queue of plain checkpoints with the given states, made at the given times.
fn queue_of(index: u32, times: &[u64], last: &[CheckpointStatus]) -> CheckpointQueue {
    let mut queue = new_queue();
    queue.index = index;
    let n = times.len();
    for (i, time) in times.iter().enumerate() {
        let mut cp = Checkpoint::new(SignatorySet::new(index + 1 - (n - i) as u32, *time)).unwrap();
        let from_end = n - 1 - i;
        cp.status = if from_end < last.len() { last[last.len() - 1 - from_end] } else { CheckpointStatus::Complete };
        queue.queue.push(cp);
    }
    queue
}

fn plain(index: u32, n: usize) -> CheckpointQueue {
    queue_of(index, &vec![0; n], &[CheckpointStatus::Building])
}

#[test]
fn new_queue_is_empty() {
    let queue = CheckpointQueue::new("checkpoint7s".to_string()).unwrap();
    assert_eq!(queue.index(), 0);
    assert_eq!(queue.confirmed_index, None);
    assert_eq!(queue.first_unhandled_confirmed_cp_index, 0);
    assert_eq!(queue.config(), CheckpointConfig::default());
    assert_eq!(queue.queue_id, "checkpoint7s");
    assert_eq!(queue.len(), Ok(0));
    assert_eq!(queue.is_empty(), Ok(true));
    assert_eq!(queue.signing(), Ok(None));
    assert_eq!(queue.building(), Err(ContractError::IndexOutOfBounds));
    assert_eq!(queue.last_completed_index(), Err(ContractError::NoCompletedCheckpoints));
    assert_eq!(queue.completed(5), Ok(vec![]));
    assert_eq!(queue.num_unconfirmed(), Ok(0));
    assert_eq!(queue.unconfirmed(), Ok(vec![]));
    assert_eq!(queue.unhandled_confirmed(), Ok(vec![]));
    assert_eq!(queue.emergency_disbursal_txs(), Ok(vec![]));
    assert_eq!(queue.last_completed_checkpoint_tx(), Ok(vec![]));
    assert_eq!(queue.queue().namespace, b"checkpoint7s".to_vec());
}

#[test]
fn configure_replaces_the_configuration() {
    let mut queue = new_queue();
    let config = CheckpointConfig { max_inputs: 3, ..CheckpointConfig::default() };
    queue.configure(config);
    assert_eq!(queue.config(), config);
    assert_eq!(queue.index(), 0);
}

#[test]
fn deque_index_follows_the_pruning() {
    let queue = plain(34, 5);
    assert_eq!(queue.get_deque_index(30, 5), Ok(0));
    assert_eq!(queue.get_deque_index(32, 5), Ok(2));
    assert_eq!(queue.get_deque_index(34, 5), Ok(4));
    assert_eq!(queue.get_deque_index(29, 5), Err(ContractError::IndexOutOfBounds));
    assert_eq!(queue.get_deque_index(35, 5), Err(ContractError::IndexOutOfBounds));
    assert_eq!(queue.get_deque_index(0, 35), Ok(0));
    assert_eq!(queue.get_deque_index(34, 0), Err(ContractError::IndexOutOfBounds));
    assert_eq!(queue.first_index(), Ok(30));
    assert_eq!(queue.len(), Ok(5));
    assert_eq!(queue.is_empty(), Ok(false));
    assert_eq!(queue.get(31).unwrap().sigset.index(), 31);
    assert_eq!(queue.get(29), Err(ContractError::IndexOutOfBounds));
    assert_eq!(queue.sigset(33).unwrap().index(), 33);
    assert_eq!(queue.active_sigset().unwrap().index(), 34);
    let all = queue.all().unwrap();
    assert_eq!(all.iter().map(|c| c.0).collect::<Vec<u32>>(), vec![30, 31, 32, 33, 34]);
    assert!(all.iter().all(|c| c.1.sigset.index() == c.0));
}

#[test]
fn set_replaces_one_checkpoint() {
    let mut queue = plain(34, 5);
    let mut cp = queue.get(32).unwrap();
    cp.fee_rate = 99;
    assert_eq!(queue.set(32, &cp), Ok(()));
    assert_eq!(queue.get(32), Ok(cp.clone()));
    assert_eq!(queue.get(31).unwrap().fee_rate, 55);
    let before = queue.clone();
    assert_eq!(queue.set(35, &cp), Err(ContractError::IndexOutOfBounds));
    assert_eq!(queue, before);
}

#[test]
fn reset_empties_the_queue() {
    let mut queue = plain(34, 5);
    queue.confirmed_index = Some(31);
    assert_eq!(queue.reset(), Ok(()));
    assert_eq!(queue.index(), 0);
    assert_eq!(queue.len(), Ok(0));
    assert_eq!(queue.confirmed_index, Some(31));
}

#[test]
fn signing_and_completed_checkpoints() {
    let queue = queue_of(6, &[0; 5], &[CheckpointStatus::Signing, CheckpointStatus::Building]);
    assert_eq!(queue.signing().unwrap().unwrap().0.sigset.index(), 5);
    assert_eq!(queue.building().unwrap().0.sigset.index(), 6);
    assert_eq!(queue.last_completed_index(), Ok(4));
    assert_eq!(queue.last_completed().unwrap().sigset.index(), 4);
    let indices = |limit: u32| -> Vec<u32> {
        queue.completed(limit).unwrap().iter().map(|c| c.0.sigset.index()).collect()
    };
    assert_eq!(indices(10), vec![2, 3, 4]);
    assert_eq!(indices(2), vec![3, 4]);
    assert_eq!(indices(0), Vec::<u32>::new());
    assert_eq!(queue.completed_txs(2).unwrap().len(), 2);
    assert_eq!(queue.last_completed_checkpoint_tx().unwrap().len(), 1);
    assert_eq!(queue.last_completed_tx(), queue.get(4).unwrap().checkpoint_tx());
    assert_eq!(queue.emergency_disbursal_txs(), queue.get(4).unwrap().emergency_disbursal_txs());

    let idle = queue_of(6, &[0; 5], &[CheckpointStatus::Building]);
    assert_eq!(idle.signing(), Ok(None));
    assert_eq!(idle.last_completed_index(), Ok(5));
    assert_eq!(
        idle.completed(10).unwrap().iter().map(|c| c.0.sigset.index()).collect::<Vec<u32>>(),
        vec![2, 3, 4, 5]
    );
    let first = plain(0, 1);
    assert_eq!(first.last_completed_index(), Err(ContractError::NoCompletedCheckpoints));
    assert_eq!(first.last_completed(), Err(ContractError::NoCompletedCheckpoints));
    assert_eq!(first.completed(3), Ok(vec![]));
}

#[test]
fn unconfirmed_checkpoints() {
    let mut queue = queue_of(6, &[0; 5], &[CheckpointStatus::Signing, CheckpointStatus::Building]);
    // Nothing is confirmed: all that are retained and complete count.
    assert_eq!(queue.num_unconfirmed(), Ok(3));
    assert_eq!(queue.first_unconfirmed_index(), Ok(Some(2)));
    let indices = |q: &CheckpointQueue| -> Vec<u32> {
        q.unconfirmed().unwrap().iter().map(|c| c.sigset.index()).collect()
    };
    assert_eq!(indices(&queue), vec![2, 3, 4]);
    queue.confirmed_index = Some(3);
    assert_eq!(queue.num_unconfirmed(), Ok(1));
    assert_eq!(queue.first_unconfirmed_index(), Ok(Some(4)));
    assert_eq!(indices(&queue), vec![4]);
    queue.confirmed_index = Some(4);
    assert_eq!(queue.num_unconfirmed(), Ok(0));
    assert_eq!(queue.first_unconfirmed_index(), Ok(None));
    assert_eq!(indices(&queue), Vec::<u32>::new());
    queue.confirmed_index = Some(5);
    assert_eq!(queue.num_unconfirmed(), Err(ContractError::Overflow));
    assert_eq!(queue.unconfirmed_fees_paid(), Err(ContractError::Overflow));

    let mut idle = queue_of(6, &[0; 5], &[CheckpointStatus::Building]);
    idle.confirmed_index = Some(3);
    assert_eq!(idle.num_unconfirmed(), Ok(2));
    assert_eq!(indices(&idle), vec![4, 5]);
    assert_eq!(idle.unconfirmed_fees_paid(), Ok(0));
}

#[test]
fn unhandled_confirmed_checkpoints() {
    let mut queue = queue_of(6, &[0; 5], &[CheckpointStatus::Signing, CheckpointStatus::Building]);
    assert_eq!(queue.unhandled_confirmed(), Ok(vec![]));
    queue.confirmed_index = Some(4);
    queue.first_unhandled_confirmed_cp_index = 3;
    assert_eq!(queue.unhandled_confirmed(), Ok(vec![3, 4]));
    // The run stops at a checkpoint that is not complete.
    queue.confirmed_index = Some(6);
    assert_eq!(queue.unhandled_confirmed(), Ok(vec![3, 4]));
    queue.first_unhandled_confirmed_cp_index = 5;
    assert_eq!(queue.unhandled_confirmed(), Ok(vec![]));
    queue.confirmed_index = Some(4);
    assert_eq!(queue.unhandled_confirmed(), Ok(vec![]));
    queue.first_unhandled_confirmed_cp_index = 1;
    assert_eq!(queue.unhandled_confirmed(), Err(ContractError::IndexOutOfBounds));
}

#[test]
fn prune_removes_old_checkpoints_down_to_ten() {
    let mut times = vec![0u64; 12];
    times[11] = MAX_AGE + 1;
    let mut queue = queue_of(20, &times, &[CheckpointStatus::Building]);
    queue.config.max_age = MAX_AGE;
    assert_eq!(queue.prune(), Ok(()));
    assert_eq!(queue.len(), Ok(10));
    assert_eq!(queue.first_index(), Ok(11));
    assert_eq!(queue.index(), 20);
    assert_eq!(queue.prune(), Ok(()));
    assert_eq!(queue.len(), Ok(10));
}

const MAX_AGE: u64 = 1_000;

#[test]
fn prune_keeps_what_is_young_enough() {
    // The two oldest are too old, the third is exactly of the greatest age.
    let mut times = vec![500u64; 14];
    times[0] = 10;
    times[1] = 499;
    times[13] = 1_500;
    let mut queue = queue_of(20, &times, &[CheckpointStatus::Building]);
    queue.config.max_age = MAX_AGE;
    assert_eq!(queue.prune(), Ok(()));
    assert_eq!(queue.len(), Ok(12));
    assert_eq!(queue.first_index(), Ok(9));
    let mut few = queue_of(20, &[0; 10], &[CheckpointStatus::Building]);
    few.queue[9].sigset.create_time = 5_000;
    few.config.max_age = MAX_AGE;
    assert_eq!(few.prune(), Ok(()));
    assert_eq!(few.len(), Ok(10));
    assert_eq!(new_queue().prune(), Err(ContractError::IndexOutOfBounds));
}

/// A signatory set of one member, and its redeem script for the reserve.
fn scripted(tag: u8, power: u64) -> (SignatorySet, Vec<u8>) {
    let set = SignatorySet {
        create_time: 0,
        present_vp: power,
        possible_vp: power,
        index: 0,
        signatories: vec![Signatory { voting_power: power, pubkey: Pubkey::new([tag; 33]) }],
    };
    let script = set.redeem_script(&vec![0], (2, 3)).unwrap();
    (set, script)
}

#[test]
fn backfill_puts_older_checkpoints_in_front() {
    let mut queue = queue_of(12, &[40, 50, 60], &[CheckpointStatus::Building]);
    let scripts: Vec<Vec<u8>> = (0..4).map(|i| scripted(2 + i, 10 + i as u64).1).collect();
    // For the sequence numbers 11, 10, 9 and 8, of which 11 and 10 are there.
    assert_eq!(queue.backfill(11, scripts, (2, 3)), Ok(()));
    assert_eq!(queue.len(), Ok(5));
    assert_eq!(queue.first_index(), Ok(8));
    assert_eq!(queue.index(), 12);
    for index in [8u32, 9] {
        let cp = queue.get(index).unwrap();
        assert_eq!(cp.status, CheckpointStatus::Complete);
        assert_eq!(cp.sigset.index(), index);
        assert_eq!(cp.sigset.create_time(), 40);
        // The script for 9 is the third, that for 8 the fourth.
        let (set, _) = scripted(2 + (11 - index) as u8, 10 + (11 - index) as u64);
        assert_eq!(cp.sigset.signatories, set.signatories);
        assert_eq!(cp.sigset.present_vp(), set.present_vp());
        assert_eq!(cp.batches.len(), 3);
    }
    assert_eq!(queue.get(10).unwrap().sigset.create_time(), 40);
    assert_eq!(queue.get(10).unwrap().sigset.len(), 0);
    assert_eq!(queue.get(12).unwrap().sigset.create_time(), 60);
}

#[test]
fn backfill_stops_at_zero() {
    let mut queue = queue_of(2, &[40], &[CheckpointStatus::Building]);
    let before = queue.clone();
    let scripts: Vec<Vec<u8>> = (0..3).map(|i| scripted(2 + i, 10).1).collect();
    assert_eq!(queue.backfill(1, scripts.clone(), (2, 3)), Err(ContractError::Overflow));
    assert_eq!(queue, before);
    assert_eq!(queue.backfill(1, scripts[..2].to_vec(), (2, 3)), Ok(()));
    assert_eq!(queue.first_index(), Ok(0));
    assert_eq!(new_queue().backfill(1, vec![], (2, 3)), Err(ContractError::IndexOutOfBounds));
}

#[test]
fn backfill_refuses_what_is_no_redeem_script() {
    let mut queue = queue_of(12, &[40, 50, 60], &[CheckpointStatus::Building]);
    let before = queue.clone();
    let good = scripted(2, 10).1;
    // A script that is needed and does not parse fails the backfill.
    assert_eq!(
        queue.backfill(11, vec![vec![], vec![], good.clone(), vec![0x51]], (2, 3)),
        Err(ContractError::InvalidScript)
    );
    assert_eq!(queue, before);
    // So does a script for another threshold.
    assert_eq!(
        queue.backfill(9, vec![good.clone()], (1, 2)),
        Err(ContractError::InvalidScript)
    );
    // A script that is passed over is not read.
    assert_eq!(queue.backfill(11, vec![vec![0x51], vec![], good], (2, 3)), Ok(()));
    assert_eq!(queue.first_index(), Ok(9));
}

#[test]
fn first_step_opens_the_first_checkpoint() {
    let w = world();
    let mut queue = new_queue();
    let mut pool = 500;
    assert_eq!(
        queue.should_push(1_000, &w.validators, &w.sig_keys, &vec![7; 32], 100),
        Ok(true)
    );
    assert_eq!(step(&mut queue, &w, 1_000, 100, &mut pool), Ok(true));
    assert_eq!(pool, 500);
    assert_eq!(queue.index(), 0);
    assert_eq!(queue.len(), Ok(1));
    let building = queue.building().unwrap().0;
    assert_eq!(building.status, CheckpointStatus::Building);
    assert!(building.deposits_enabled);
    assert_eq!(building.fee_rate, 55);
    assert_eq!(building.sigset.index(), 0);
    assert_eq!(building.sigset.create_time(), 1_000);
    assert_eq!(building.sigset.len(), 3);
    assert_eq!(building.batches.len(), 3);
    // Nothing is pending, and the least interval has not passed.
    assert_eq!(step(&mut queue, &w, 1_000, 100, &mut pool), Ok(false));
    assert_eq!(step(&mut queue, &w, 2_000, 100, &mut pool), Ok(false));
    assert_eq!(queue.len(), Ok(1));
}

#[test]
fn no_checkpoint_without_quorum() {
    let mut w = world();
    let mut queue = new_queue();
    let mut pool = 0;
    w.sig_keys.truncate(1);
    w.validators[0].power = 100;
    w.validators[1].power = 50;
    w.validators[2].power = 50;
    // Exactly half of the weight is no quorum.
    assert_eq!(queue.should_push(1_000, &w.validators, &w.sig_keys, &vec![], 1), Ok(false));
    assert_eq!(queue.maybe_push(1_000, &w.validators, &w.sig_keys, true), Ok(None));
    assert_eq!(step(&mut queue, &w, 1_000, 1, &mut pool), Ok(false));
    assert_eq!(queue.len(), Ok(0));
    w.validators[0].power = 101;
    assert_eq!(queue.should_push(1_000, &w.validators, &w.sig_keys, &vec![], 1), Ok(true));
    assert_eq!(queue.should_push(1_000, &vec![], &w.sig_keys, &vec![], 1), Ok(false));
    let pushed = queue.maybe_push(1_000, &w.validators, &w.sig_keys, false).unwrap().unwrap();
    assert!(!pushed.0.deposits_enabled);
    assert_eq!(queue.building(), Ok(pushed));
}

#[test]
fn steps_seal_sign_and_adjust_the_fee_rate() {
    let w = world();
    let mut queue = new_queue();
    let mut pool: i64 = 100_000_000_000;
    assert_eq!(step(&mut queue, &w, 1_000, 100, &mut pool), Ok(true));
    deposit(&mut queue, 1, 1_000_000);
    assert_eq!(step(&mut queue, &w, 1_299, 100, &mut pool), Ok(false));

    // The checkpoint transaction will take one input of 41 bytes and of
    // 3 * 79 + 39 virtual bytes of witness, and two outputs of 43 bytes.
    let fee = (10 + 41 + 2 * 43 + 276) * 55;
    assert_eq!(queue.calc_fee_checkpoint(0, &vec![7; 32]), Ok(fee));
    assert_eq!(queue.query_building_miner_fee(0, [7; 32]), Ok(fee));
    assert_eq!(step(&mut queue, &w, 1_300, 100, &mut pool), Ok(true));
    assert_eq!(pool, 100_000_000_000 - (fee * 1_000_000) as i64);
    assert_eq!(queue.index(), 1);
    assert_eq!(queue.len(), Ok(2));
    let sealed = queue.signing().unwrap().unwrap().0;
    assert_eq!(sealed.status, CheckpointStatus::Signing);
    assert_eq!(sealed.reserve_output().unwrap().unwrap().value, 1_000_000 - fee);
    assert_eq!(sealed.checkpoint_tx_miner_fees(), Ok(fee));
    let building = queue.building().unwrap().0;
    assert_eq!(building.sigset.index(), 1);
    assert_eq!(building.fee_rate, 55);
    let tx = &building.batches[2].batch[0];
    assert_eq!(tx.input.len(), 1);
    assert_eq!(tx.input[0].amount, 1_000_000 - fee);
    assert_eq!(tx.input[0].prevout, OutPoint { txid: sealed.batches[2].batch[0].txid().unwrap(), vout: 0 });
    assert_eq!(tx.input[0].sigset_index, 0);
    assert!(tx.output.is_empty());

    // While the checkpoint is being signed, no further one is opened.
    deposit(&mut queue, 2, 500_000);
    let before = queue.clone();
    assert_eq!(queue.should_push(9_000, &w.validators, &w.sig_keys, &vec![7; 32], 100), Ok(false));
    assert_eq!(step(&mut queue, &w, 9_000, 100, &mut pool), Ok(false));
    assert_eq!(queue, before);

    sign_by(&mut queue, &w, &[0, 1], 0, 105);
    let done = queue.get(0).unwrap();
    assert_eq!(done.status, CheckpointStatus::Complete);
    assert_eq!(done.signed_at_btc_height, Some(105));
    assert_eq!(queue.signing(), Ok(None));
    assert_eq!(queue.num_unconfirmed(), Ok(1));
    assert_eq!(queue.first_unconfirmed_index(), Ok(Some(0)));
    assert_eq!(queue.unconfirmed_fees_paid(), Ok(fee));
    let vbytes = queue.unconfirmed_vbytes(&config()).unwrap();
    assert_eq!(vbytes, done.est_vsize(&config(), &vec![0; 32]).unwrap());
    assert_eq!(queue.fee_adjustment(55, &config()), Ok(vbytes * 55 - fee));
    assert_eq!(queue.fee_adjustment(1, &config()), Ok(0));

    // The Bitcoin height lies below that of the last signing: a backfill.
    assert_eq!(queue.should_push(9_000, &w.validators, &w.sig_keys, &vec![7; 32], 104), Ok(false));
    // A block was mined, but the target of two blocks has not passed.
    let mut early = queue.clone();
    let mut early_pool = pool;
    assert_eq!(step(&mut early, &w, 9_000, 106, &mut early_pool), Ok(true));
    assert_eq!(early.building().unwrap().0.fee_rate, 55);
    // The first unconfirmed checkpoint has waited two blocks: the rate rises.
    let mut late = queue.clone();
    let mut late_pool = pool;
    assert_eq!(step(&mut late, &w, 9_000, 107, &mut late_pool), Ok(true));
    assert_eq!(late.building().unwrap().0.fee_rate, 68);
    assert_eq!(late.index(), 2);
    assert_eq!(late.signing().unwrap().unwrap().0.sigset.index(), 1);
    let second = late.get(1).unwrap();
    let second_fee = second.checkpoint_tx_miner_fees().unwrap();
    assert_eq!(late_pool, pool - (second_fee * 1_000_000) as i64);
    assert_eq!(second.batches[2].batch[0].input.len(), 2);
    // All checkpoints are confirmed: the rate falls.
    let mut confirmed = queue.clone();
    confirmed.confirmed_index = Some(0);
    let mut confirmed_pool = pool;
    assert_eq!(step(&mut confirmed, &w, 9_000, 107, &mut confirmed_pool), Ok(true));
    assert_eq!(confirmed.building().unwrap().0.fee_rate, 41);
}

#[test]
fn excess_inputs_and_outputs_move_to_the_next_checkpoint() {
    let w = world();
    let mut queue = new_queue();
    queue.configure(CheckpointConfig { max_inputs: 1, max_outputs: 3, ..config() });
    let mut pool: i64 = 0;
    assert_eq!(step(&mut queue, &w, 1_000, 100, &mut pool), Ok(true));
    deposit(&mut queue, 1, 1_000_000);
    deposit(&mut queue, 2, 2_000_000);
    deposit(&mut queue, 3, 3_000_000);
    let mut building = queue.building().unwrap().0;
    building.batches[2].batch[0].output = vec![payout(1, 1_000), payout(2, 2_000), payout(3, 3_000)];
    queue.set(0, &building).unwrap();
    // One input and three outputs count for the step.
    assert_eq!(building.calc_total_input_and_output(&queue.config()), Ok((1_000_000, 6_000)));
    assert_eq!(step(&mut queue, &w, 1_300, 100, &mut pool), Ok(true));
    assert!(pool < 0);
    let sealed = queue.get(0).unwrap();
    assert_eq!(sealed.batches[2].batch[0].input.len(), 1);
    assert_eq!(sealed.batches[2].batch[0].output.len(), 3);
    assert_eq!(sealed.batches[2].batch[0].output[2], payout(1, 1_000));
    let tx = &queue.building().unwrap().0.batches[2].batch[0];
    let amounts: Vec<u64> = tx.input.iter().map(|i| i.amount).collect();
    let reserve = sealed.reserve_output().unwrap().unwrap().value;
    assert_eq!(amounts, vec![reserve, 3_000_000, 2_000_000]);
    assert_eq!(tx.input[1].prevout, OutPoint { txid: [3; 32], vout: 0 });
    assert_eq!(tx.input[1].signatures.message(), [0; 32]);
    assert_eq!(tx.input[1].signatures.signed, 0);
    assert_eq!(tx.output, vec![payout(3, 3_000), payout(2, 2_000)]);
}

#[test]
fn step_without_the_means_for_the_fee_waits() {
    let w = world();
    let mut queue = new_queue();
    let mut pool: i64 = 0;
    assert_eq!(step(&mut queue, &w, 1_000, 100, &mut pool), Ok(true));
    deposit(&mut queue, 1, 10_000);
    // The deposit does not cover the miner fee.
    assert_eq!(step(&mut queue, &w, 1_300, 100, &mut pool), Ok(false));
    let mut building = queue.building().unwrap().0;
    building.batches[2].batch[0].input[0].amount = 1_000_000;
    building.fees_collected = 0;
    queue.set(0, &building).unwrap();
    // The fees collected do not cover it either, however long the wait.
    let late = 1_000 + queue.config().max_checkpoint_interval;
    assert_eq!(step(&mut queue, &w, 1_300, 100, &mut pool), Ok(false));
    assert_eq!(step(&mut queue, &w, late, 100, &mut pool), Ok(false));
    assert_eq!(queue.index(), 0);
    let fee = queue.calc_fee_checkpoint(0, &vec![7; 32]).unwrap();
    building.fees_collected = fee - 1;
    queue.set(0, &building).unwrap();
    assert_eq!(step(&mut queue, &w, late, 100, &mut pool), Ok(false));
    building.fees_collected = fee;
    queue.set(0, &building).unwrap();
    assert_eq!(step(&mut queue, &w, 1_300, 100, &mut pool), Ok(true));
    assert_eq!(queue.index(), 1);
}

#[test]
fn after_the_greatest_interval_nothing_need_be_pending() {
    let w = world();
    let mut queue = new_queue();
    let mut pool: i64 = 0;
    assert_eq!(step(&mut queue, &w, 1_000, 100, &mut pool), Ok(true));
    deposit(&mut queue, 1, 1_000_000);
    assert_eq!(step(&mut queue, &w, 1_300, 100, &mut pool), Ok(true));
    sign_by(&mut queue, &w, &[0, 1, 2], 0, 100);
    // The building checkpoint holds the reserve alone, and fees that cover
    // the miner fee.
    let mut building = queue.building().unwrap().0;
    building.fees_collected = 1_000_000;
    queue.set(1, &building).unwrap();
    let late = 1_300 + queue.config().max_checkpoint_interval;
    assert_eq!(queue.should_push(late - 1, &w.validators, &w.sig_keys, &vec![7; 32], 100), Ok(false));
    assert_eq!(queue.should_push(late, &w.validators, &w.sig_keys, &vec![7; 32], 100), Ok(true));
    // Without the fees, the wait does not help.
    building.fees_collected = 0;
    queue.set(1, &building).unwrap();
    assert_eq!(queue.should_push(late, &w.validators, &w.sig_keys, &vec![7; 32], 100), Ok(false));
}

#[test]
fn step_that_fails_changes_nothing() {
    let w = world();
    let mut queue = new_queue();
    let mut pool: i64 = i64::MIN + 5;
    assert_eq!(step(&mut queue, &w, 1_000, 100, &mut pool), Ok(true));
    deposit(&mut queue, 1, 1_000_000);
    let before = queue.clone();
    // The fee pool cannot hold what is to be taken from it.
    assert_eq!(step(&mut queue, &w, 1_300, 100, &mut pool), Err(ContractError::Overflow));
    assert_eq!(queue, before);
    assert_eq!(pool, i64::MIN + 5);
    // The clock lies before the creation of the checkpoint.
    assert_eq!(step(&mut queue, &w, 999, 100, &mut pool), Err(ContractError::Overflow));
    assert_eq!(queue, before);
}

#[test]
fn too_many_unconfirmed_checkpoints_stop_the_queue() {
    let w = world();
    let mut queue = queue_of(16, &[0; 17], &[CheckpointStatus::Building]);
    for cp in queue.queue.iter_mut() {
        cp.sigset = SignatorySet::from_validator_ctx(&w.validators, &w.sig_keys, 0, cp.sigset.index()).unwrap();
    }
    deposit(&mut queue, 1, 500_000_000);
    deposit(&mut queue, 2, 500_000_000);
    assert_eq!(queue.num_unconfirmed(), Ok(16));
    assert_eq!(queue.should_push(5_000, &w.validators, &w.sig_keys, &vec![], 1), Ok(false));
    queue.confirmed_index = Some(1);
    assert_eq!(queue.num_unconfirmed(), Ok(14));
    assert_eq!(queue.should_push(5_000, &w.validators, &w.sig_keys, &vec![], 1), Ok(true));
    queue.config.max_unconfirmed_checkpoints = 14;
    assert_eq!(queue.should_push(5_000, &w.validators, &w.sig_keys, &vec![], 1), Ok(false));
}

#[test]
fn pending_transfers_count_as_work() {
    let w = world();
    let mut queue = new_queue();
    let mut pool: i64 = 0;
    assert_eq!(step(&mut queue, &w, 1_000, 100, &mut pool), Ok(true));
    deposit(&mut queue, 1, 1_000_000);
    assert_eq!(step(&mut queue, &w, 1_300, 100, &mut pool), Ok(true));
    sign_by(&mut queue, &w, &[0, 1, 2], 0, 100);
    // The building checkpoint holds the reserve alone.
    assert_eq!(queue.should_push(2_000, &w.validators, &w.sig_keys, &vec![7; 32], 100), Ok(false));
    let mut building = queue.building().unwrap();
    building.0.fees_collected = 1_000_000;
    building
        .insert_pending(cw_bitcoin::interface::Dest::Address("alice".to_string()), Coin { denom: "usat".to_string(), amount: 5 })
        .unwrap();
    queue.set(1, &building.0).unwrap();
    assert_eq!(queue.should_push(2_000, &w.validators, &w.sig_keys, &vec![7; 32], 100), Ok(true));
}

#[test]
fn queue_refuses_signatures_that_were_taken() {
    let w = world();
    let mut queue = new_queue();
    let mut pool: i64 = 0;
    assert_eq!(step(&mut queue, &w, 1_000, 100, &mut pool), Ok(true));
    deposit(&mut queue, 1, 1_000_000);
    assert_eq!(step(&mut queue, &w, 1_300, 100, &mut pool), Ok(true));
    let (xpriv, xpub) = &w.signers[0];
    let to_sign = queue.get(0).unwrap().to_sign(xpub).unwrap();
    assert!(!to_sign.is_empty());
    let sigs = sign_all(xpriv, &to_sign);
    assert_eq!(queue.sign(xpub, sigs.clone(), 0, 101), Ok(()));
    assert_eq!(queue.get(0).unwrap().to_sign(xpub), Ok(vec![]));
    let before = queue.clone();
    assert_eq!(queue.sign(xpub, sigs, 0, 102), Err(ContractError::ExcessSignatures));
    assert_eq!(queue, before);
    assert_eq!(queue.sign(xpub, vec![], 0, 102), Ok(()));
    assert_eq!(queue, before);
}

#[test]
fn step_fails_where_the_reserve_cannot_pay_for_its_disbursal() {
    let w = world();
    let mut queue = new_queue();
    let mut pool: i64 = 0;
    assert_eq!(step(&mut queue, &w, 1_000, 100, &mut pool), Ok(true));
    deposit(&mut queue, 1, 1_000_000);
    let fee = queue.calc_fee_checkpoint(0, &vec![7; 32]).unwrap();
    let rate = queue.get(0).unwrap().fee_rate;
    assert!(rate > 0);
    // What the miner fee leaves of the deposit is less than the fee of the
    // intermediate transaction of 137 virtual bytes.
    let mut building = queue.building().unwrap().0;
    building.batches[2].batch[0].input[0].amount = fee + 137 * rate - 1;
    queue.set(0, &building).unwrap();
    let before = queue.clone();
    assert_eq!(queue.should_push(1_300, &w.validators, &w.sig_keys, &vec![7; 32], 100), Ok(true));
    assert_eq!(step(&mut queue, &w, 1_300, 100, &mut pool), Err(ContractError::BitcoinFee(137 * rate)));
    assert_eq!(queue, before);
    assert_eq!(pool, 0);
    assert_eq!(queue.get(0).unwrap().status, CheckpointStatus::Building);
    // One satoshi more, and the checkpoint is sealed; the output of the
    // intermediate transaction cannot pay beyond its dust value and is dropped.
    let mut building = queue.building().unwrap().0;
    building.batches[2].batch[0].input[0].amount += 1;
    queue.set(0, &building).unwrap();
    assert_eq!(step(&mut queue, &w, 1_300, 100, &mut pool), Ok(true));
    let sealed = queue.get(0).unwrap();
    assert_eq!(sealed.status, CheckpointStatus::Signing);
    assert_eq!(sealed.reserve_output().unwrap().unwrap().value, 137 * rate);
    assert!(sealed.batches[1].batch[0].output.is_empty());
    assert_eq!(sealed.batches[0].len(), 0);
}
