use vstd::prelude::*;
use crate::checkpoint::{
    batches_view, copy_txs, pending_view, BatchType, BatchView, Checkpoint, CheckpointStatus,
    CheckpointView,
};
use crate::disbursal::{
    build_disbursal, collect_outputs, link, link_txs, lock_time_at, pack_outputs, popped,
    populate_all, populate_each, populate_inputs, reserve_dest_bytes, settle_fees,
};
use crate::error::{moves, ContractError, ContractResult};
use crate::interface::{
    balances_view, entry_from, scripts_view, Accounts, CheckpointConfig, Coin, CoinView, Dest,
};
use crate::keys::{Signature, Xpub};
use crate::math::min_int;
use crate::signatory::SignatorySet;
use crate::tx::{
    inputs_view, outputs_view, sum_inputs, sum_outputs, txs_view, BitcoinTx, BitcoinTxView,
    Input, InputView, OutPoint, Output, OutputView,
};

verus! {

/// A checkpoint that is held to be in the `Complete` state.
#[derive(Debug, PartialEq)]
pub struct CompletedCheckpoint(pub Checkpoint);

/// A checkpoint that is held to be in the `Signing` state.
#[derive(Debug, PartialEq)]
pub struct SigningCheckpoint(pub Checkpoint);

/// A checkpoint that is held to be in the `Building` state.
#[derive(Debug, PartialEq)]
pub struct BuildingCheckpoint(pub Checkpoint);

/// What sealing a checkpoint hands to the checkpoint after it: the reserve
/// output and its amount, the miner fee paid, and the inputs and outputs
/// that did not fit, last first.
pub type BuildingAdvanceRes = (OutPoint, u64, u64, Vec<Input>, Vec<Output>);

impl CheckpointView {
    /// The checkpoint after it has been sealed, and what it hands to the
    /// checkpoint after it. The reserve output and the commitment to
    /// `commitment` are put in front of the outputs of the checkpoint
    /// transaction; inputs and outputs beyond the configured numbers are
    /// taken off; the reserve output gets what the inputs hold beyond the
    /// outputs and the miner fee `cp_fees`; the digest of every input is
    /// set; and the emergency disbursal transactions are built on the
    /// reserve output.
    pub open spec fn advance(
        self,
        now: u64,
        scripts: Seq<(Seq<char>, Seq<u8>)>,
        accounts: Seq<(Seq<char>, CoinView)>,
        external: Seq<OutputView>,
        commitment: Seq<u8>,
        cp_fees: u64,
        config: CheckpointConfig,
    ) -> Result<
        (CheckpointView, (OutPoint, u64, u64, Seq<InputView>, Seq<OutputView>)),
        ContractError,
    > {
        if self.status != CheckpointStatus::Building {
            Err(ContractError::NotBuilding)
        } else {
            match self.additional_outputs(config, commitment) {
                Err(e) => Err(e),
                Ok(extra) => match self.first_tx(BatchType::Checkpoint) {
                    Err(e) => Err(e),
                    Ok(tx) => {
                        let all = extra + tx.output;
                        let n_in = min_int(config.max_inputs as int, tx.input.len() as int);
                        let n_out = min_int(config.max_outputs as int, all.len() as int);
                        let cut = BitcoinTxView {
                            input: tx.input.take(n_in),
                            output: all.take(n_out),
                            ..tx
                        };
                        if cut.input_value() > u64::MAX || cut.value() > u64::MAX {
                            Err(ContractError::Overflow)
                        } else if cut.input_value() < cut.value() + cp_fees {
                            Err(ContractError::InsufficientReserve)
                        } else if n_out == 0 {
                            Err(ContractError::MissingReserveOutput)
                        } else {
                            let reserve_value = (cut.input_value() - cut.value() - cp_fees) as u64;
                            let sealed = BitcoinTxView {
                                output: cut.output.update(
                                    0,
                                    OutputView { value: reserve_value, ..cut.output[0] },
                                ),
                                ..cut
                            };
                            match populate_inputs(sealed, sealed.input.len() as int) {
                                Err(e) => Err(e),
                                Ok(ready) => match ready.txid() {
                                    Err(e) => Err(e),
                                    Ok(txid) => {
                                        let outpoint = OutPoint { txid, vout: 0 };
                                        match (CheckpointView {
                                            status: CheckpointStatus::Signing,
                                            ..self
                                        }).with_first_tx(
                                            BatchType::Checkpoint,
                                            ready,
                                        ).generate_emergency_disbursal_txs(
                                            now,
                                            scripts,
                                            accounts,
                                            outpoint,
                                            external,
                                            self.fee_rate,
                                            reserve_value,
                                            config,
                                        ) {
                                            Err(e) => Err(e),
                                            Ok(cp) => Ok(
                                                (
                                                    cp,
                                                    (
                                                        outpoint,
                                                        reserve_value,
                                                        cp_fees,
                                                        popped(tx.input, n_in),
                                                        popped(all, n_out),
                                                    ),
                                                ),
                                            ),
                                        }
                                    },
                                },
                            }
                        }
                    },
                },
            }
        }
    }

    /// The checkpoint with the transfer of `coin` to `key` added to the
    /// pending transfers: to the amount that is pending for `key`, or as a
    /// new entry.
    pub open spec fn insert_pending(self, key: Seq<char>, coin: CoinView) -> Result<
        CheckpointView,
        ContractError,
    > {
        match entry_from(self.pending, key, 0) {
            Some(i) => if self.pending[i].1.amount + coin.amount > u128::MAX {
                Err(ContractError::Overflow)
            } else {
                Ok(
                    CheckpointView {
                        pending: self.pending.update(
                            i,
                            (
                                key,
                                CoinView {
                                    amount: (self.pending[i].1.amount + coin.amount) as u128,
                                    ..self.pending[i].1
                                },
                            ),
                        ),
                        ..self
                    },
                )
            },
            None => Ok(CheckpointView { pending: self.pending.push((key, coin)), ..self }),
        }
    }
}

impl Checkpoint {
    /// Puts `tx` in the place of the first transaction of the batch.
    pub(crate) fn set_first_tx(&mut self, kind: BatchType, tx: BitcoinTx)
        requires
            old(self)@.first_tx(kind).is_ok(),
        ensures
            final(self)@ == old(self)@.with_first_tx(kind, tx@),
    {
        let i = kind.index();
        let ghost before = self@;
        let ghost value = tx@;
        let batch = &mut self.batches[i];
        batch.batch[0] = tx;
        assert(self@.batches[i as int].batch =~= before.batches[i as int].batch.update(0, value));
        assert(self@.batches =~= before.with_first_tx(kind, value).batches);
    }

    /// Puts the emergency disbursal transactions in place.
    pub(crate) fn set_disbursal(&mut self, intermediate: BitcoinTx, finals: Vec<BitcoinTx>)
        requires
            old(self)@.first_tx(BatchType::IntermediateTx).is_ok(),
        ensures
            final(self)@ == old(self)@.with_disbursal(intermediate@, txs_view(finals@)),
    {
        let ghost before = self@;
        let ghost first = intermediate@;
        let ghost rest = txs_view(finals@);
        let disbursal = &mut self.batches[0];
        disbursal.batch = finals;
        let batch = &mut self.batches[1];
        batch.batch[0] = intermediate;
        assert(self@.batches[1].batch =~= before.batches[1].batch.update(0, first));
        assert(self@.batches =~= before.with_disbursal(first, rest).batches);
    }
}

/// Builds the emergency disbursal transactions, before miner fees.
pub fn build_txs(
    sigset: &SignatorySet,
    intermediate: &mut BitcoinTx,
    outputs: &Vec<Output>,
    reserve_outpoint: OutPoint,
    reserve_value: u64,
    config: &CheckpointConfig,
    lock_time: u32,
) -> (r: ContractResult<Vec<BitcoinTx>>)
    ensures
        match r {
            Ok(finals) => build_disbursal(
                sigset@,
                old(intermediate)@,
                outputs_view(outputs@),
                reserve_outpoint,
                reserve_value,
                *config,
                lock_time,
            ) == Ok::<_, ContractError>((final(intermediate)@, txs_view(finals@))),
            Err(e) => build_disbursal(
                sigset@,
                old(intermediate)@,
                outputs_view(outputs@),
                reserve_outpoint,
                reserve_value,
                *config,
                lock_time,
            ) == Err::<(BitcoinTxView, Seq<BitcoinTxView>), _>(e),
        },
{
    let mut final_txs: Vec<BitcoinTx> = Vec::new();
    final_txs.push(BitcoinTx::with_lock_time(lock_time));
    assert(txs_view(final_txs@) =~= seq![crate::disbursal::empty_tx(lock_time)]);
    match pack_outputs(sigset, intermediate, &mut final_txs, outputs, config, lock_time) {
        Ok(()) => {},
        Err(e) => {
            return Err(e);
        },
    }
    let ghost packed = txs_view(final_txs@);
    let mut last_tx = final_txs.pop().unwrap();
    assert(txs_view(final_txs@) =~= packed.drop_last());
    assert(last_tx@ == packed.last());
    match link_txs(sigset, intermediate, &mut last_tx, config.sigset_threshold) {
        Ok(()) => {},
        Err(e) => {
            return Err(e);
        },
    }
    let ghost shorter = txs_view(final_txs@);
    final_txs.push(last_tx);
    assert(txs_view(final_txs@) =~= shorter.push(last_tx@));
    let dest = reserve_dest_bytes();
    let tx_in = match Input::new(
        reserve_outpoint,
        sigset,
        &dest,
        reserve_value,
        config.sigset_threshold,
    ) {
        Ok(i) => i,
        Err(e) => {
            return Err(e);
        },
    };
    let output_script = match sigset.output_script(&dest, config.sigset_threshold) {
        Ok(s) => s,
        Err(e) => {
            return Err(e);
        },
    };
    let intermediate_tx_out_value = match intermediate.value() {
        Ok(v) => v,
        Err(e) => {
            return Err(e);
        },
    };
    if intermediate_tx_out_value > reserve_value {
        return Err(ContractError::DisbursalExceedsReserve);
    }
    let excess_value = reserve_value - intermediate_tx_out_value;
    let excess_tx_out = Output { value: excess_value, script_pubkey: output_script };
    let ghost linked = intermediate@;
    intermediate.lock_time = lock_time;
    intermediate.input.push(tx_in);
    intermediate.output.push(excess_tx_out);
    assert(intermediate@.input =~= linked.input.push(tx_in@));
    assert(intermediate@.output =~= linked.output.push(excess_tx_out@));
    Ok(final_txs)
}

impl SigningCheckpoint {
    /// Takes the signatures that the signatory with the extended public
    /// key `xpub` submits, in the order of the inputs that await them.
    pub fn sign(&mut self, xpub: Xpub, sigs: Vec<Signature>, btc_height: u32) -> (r: ContractResult<
        (),
    >)
        ensures
            moves(r, old(self).0@, final(self).0@, old(self).0@.sign(xpub.key@, sigs@, btc_height)),
    {
        self.0.sign(&xpub, sigs, btc_height)
    }
}

impl BuildingCheckpoint {
    /// Links the final emergency disbursal transaction `tx` to the
    /// intermediate transaction: the intermediate transaction gets an output
    /// of the value of `tx`, and `tx` an input that spends it.
    pub fn link_intermediate_tx(&mut self, tx: &mut BitcoinTx, threshold: (u64, u64)) -> (r:
        ContractResult<()>)
        ensures
            match r {
                Ok(()) => old(self).0@.link_intermediate_tx(old(tx)@, threshold.0, threshold.1)
                    == Ok::<_, ContractError>((final(self).0@, final(tx)@)),
                Err(e) => old(self).0@.link_intermediate_tx(old(tx)@, threshold.0, threshold.1)
                    == Err::<(CheckpointView, BitcoinTxView), _>(e) && final(self).0@ == old(
                    self,
                ).0@ && final(tx)@ == old(tx)@,
            },
    {
        let mut intermediate = match self.0.first_tx(BatchType::IntermediateTx) {
            Ok(t) => t.clone(),
            Err(e) => {
                return Err(e);
            },
        };
        match link_txs(&self.0.sigset, &mut intermediate, tx, threshold) {
            Ok(()) => {},
            Err(e) => {
                return Err(e);
            },
        }
        self.0.set_first_tx(BatchType::IntermediateTx, intermediate);
        Ok(())
    }

    /// Deducts the miner fees at `fee_rate` from the outputs of the
    /// emergency disbursal transactions. Outputs that cannot pay their share
    /// are dropped, and so are final transactions whose output of the
    /// intermediate transaction is gone, or which hold less than they owe.
    /// Where the intermediate transaction holds less than its fee, nothing
    /// is deducted and the checkpoint stays as it is.
    pub fn deduct_emergency_disbursal_fees(&mut self, fee_rate: u64) -> (r: ContractResult<()>)
        ensures
            moves(
                r,
                old(self).0@,
                final(self).0@,
                old(self).0@.deduct_emergency_disbursal_fees(fee_rate),
            ),
    {
        let mut intermediate = match self.0.first_tx(BatchType::IntermediateTx) {
            Ok(t) => t.clone(),
            Err(e) => {
                return Err(e);
            },
        };
        let mut finals = copy_txs(&self.0.batches[0].batch);
        match settle_fees(&mut intermediate, &mut finals, fee_rate) {
            Ok(()) => {},
            Err(e) => {
                return Err(e);
            },
        }
        self.0.set_disbursal(intermediate, finals);
        Ok(())
    }

    /// Builds the emergency disbursal transactions of the checkpoint on the
    /// reserve output `reserve_outpoint` of `reserve_value` satoshis: one
    /// output for each holder with a registered recovery script, one for
    /// each pending transfer to such a holder, and those of
    /// `external_outputs`.
    pub fn generate_emergency_disbursal_txs(
        &mut self,
        now: u64,
        recovery_scripts: &Vec<(String, Vec<u8>)>,
        nbtc_accounts: &Accounts,
        reserve_outpoint: OutPoint,
        external_outputs: &Vec<Output>,
        fee_rate: u64,
        reserve_value: u64,
        config: &CheckpointConfig,
    ) -> (r: ContractResult<()>)
        ensures
            moves(
                r,
                old(self).0@,
                final(self).0@,
                old(self).0@.generate_emergency_disbursal_txs(
                    now,
                    scripts_view(recovery_scripts@),
                    balances_view(nbtc_accounts.accounts@),
                    reserve_outpoint,
                    outputs_view(external_outputs@),
                    fee_rate,
                    reserve_value,
                    *config,
                ),
            ),
    {
        let batch = match self.0.batch(BatchType::IntermediateTx) {
            Ok(b) => b,
            Err(e) => {
                return Err(e);
            },
        };
        if batch.batch.len() == 0 {
            return Ok(());
        }
        let seconds: u32 = (now % 0x1_0000_0000u64) as u32;
        let lock_time = match seconds.checked_add(config.emergency_disbursal_lock_time_interval) {
            Some(t) => t,
            None => {
                return Err(ContractError::Overflow);
            },
        };
        let outputs = match collect_outputs(
            &self.0.pending,
            recovery_scripts,
            nbtc_accounts,
            external_outputs,
        ) {
            Ok(o) => o,
            Err(e) => {
                return Err(e);
            },
        };
        let mut intermediate = batch.batch[0].clone();
        let mut final_txs = match build_txs(
            &self.0.sigset,
            &mut intermediate,
            &outputs,
            reserve_outpoint,
            reserve_value,
            config,
            lock_time,
        ) {
            Ok(f) => f,
            Err(e) => {
                return Err(e);
            },
        };
        let mut finals = copy_txs(&self.0.batches[0].batch);
        let ghost earlier = txs_view(finals@);
        let ghost built = txs_view(final_txs@);
        finals.append(&mut final_txs);
        assert(txs_view(finals@) =~= earlier + built);
        match settle_fees(&mut intermediate, &mut finals, fee_rate) {
            Ok(()) => {},
            Err(e) => {
                return Err(e);
            },
        }
        match populate_each(&mut finals) {
            Ok(()) => {},
            Err(e) => {
                return Err(e);
            },
        }
        match intermediate.populate_input_sig_message(0) {
            Ok(()) => {},
            Err(e) => {
                return Err(e);
            },
        }
        self.0.set_disbursal(intermediate, finals);
        Ok(())
    }

    /// Seals the checkpoint: it moves to the `Signing` state, and nothing
    /// but signatures can be added from then on. The checkpoint transaction
    /// gets its reserve output and its commitment to
    /// `timestamping_commitment`, pays `cp_fees` to the miners, and hands
    /// the inputs and outputs beyond the configured numbers back. The
    /// emergency disbursal transactions are built, and every input gets the
    /// digest that is to be signed. Where the inputs do not cover outputs
    /// and fee, or the reserve that is left cannot pay the miner fee of its
    /// emergency disbursal, the checkpoint stays as it is, still `Building`.
    pub fn advance(
        &mut self,
        now: u64,
        recovery_scripts: &Vec<(String, Vec<u8>)>,
        nbtc_accounts: &Accounts,
        external_outputs: &Vec<Output>,
        timestamping_commitment: Vec<u8>,
        cp_fees: u64,
        config: &CheckpointConfig,
    ) -> (r: ContractResult<BuildingAdvanceRes>)
        ensures
            match r {
                Ok(res) => old(self).0@.advance(
                    now,
                    scripts_view(recovery_scripts@),
                    balances_view(nbtc_accounts.accounts@),
                    outputs_view(external_outputs@),
                    timestamping_commitment@,
                    cp_fees,
                    *config,
                ) == Ok::<_, ContractError>(
                    (
                        final(self).0@,
                        (res.0, res.1, res.2, inputs_view(res.3@), outputs_view(res.4@)),
                    ),
                ),
                Err(e) => old(self).0@.advance(
                    now,
                    scripts_view(recovery_scripts@),
                    balances_view(nbtc_accounts.accounts@),
                    outputs_view(external_outputs@),
                    timestamping_commitment@,
                    cp_fees,
                    *config,
                ) == Err::<
                    (CheckpointView, (OutPoint, u64, u64, Seq<InputView>, Seq<OutputView>)),
                    _,
                >(e) && final(self).0@ == old(self).0@,
            },
    {
        if self.0.status != CheckpointStatus::Building {
            return Err(ContractError::NotBuilding);
        }
        let outs = match self.0.additional_outputs(config, &timestamping_commitment) {
            Ok(o) => o,
            Err(e) => {
                return Err(e);
            },
        };
        let mut checkpoint_tx = match self.0.first_tx(BatchType::Checkpoint) {
            Ok(t) => t.clone(),
            Err(e) => {
                return Err(e);
            },
        };
        let ghost tx = checkpoint_tx@;
        let ghost all = outputs_view(outs@) + tx.output;
        checkpoint_tx.output.insert(0, outs[1].clone());
        checkpoint_tx.output.insert(0, outs[0].clone());
        assert(checkpoint_tx@.output =~= all);
        assert(checkpoint_tx@.input == tx.input);

        // Inputs and outputs beyond the configured numbers go to the next checkpoint.
        let mut excess_inputs: Vec<Input> = Vec::new();
        assert(inputs_view(excess_inputs@) =~= popped(tx.input, tx.input.len() as int));
        assert(tx.input.take(tx.input.len() as int) =~= tx.input);
        while checkpoint_tx.input.len() as u64 > config.max_inputs
            invariant
                checkpoint_tx.input.len() <= tx.input.len(),
                checkpoint_tx.input.len() >= min_int(config.max_inputs as int, tx.input.len() as int),
                checkpoint_tx@.input == tx.input.take(checkpoint_tx.input.len() as int),
                inputs_view(excess_inputs@) == popped(tx.input, checkpoint_tx.input.len() as int),
                checkpoint_tx@.output == all,
                checkpoint_tx.lock_time == tx.lock_time,
                checkpoint_tx.signed_inputs == tx.signed_inputs,
            decreases checkpoint_tx.input.len(),
        {
            let ghost n = checkpoint_tx.input.len() as int;
            let ghost less = inputs_view(excess_inputs@);
            let ghost held = checkpoint_tx.input@;
            assert(inputs_view(held)[n - 1] == held[n - 1]@);
            let removed_input = checkpoint_tx.input.pop().unwrap();
            assert(removed_input == held[n - 1]);
            excess_inputs.push(removed_input);
            assert(checkpoint_tx@.input =~= tx.input.take(n - 1));
            assert(removed_input@ == tx.input[n - 1]);
            assert(inputs_view(excess_inputs@) =~= less.push(removed_input@));
            assert(less.push(tx.input[n - 1]) =~= popped(tx.input, n - 1));
        }
        let mut excess_outputs: Vec<Output> = Vec::new();
        assert(outputs_view(excess_outputs@) =~= popped(all, all.len() as int));
        assert(all.take(all.len() as int) =~= all);
        while checkpoint_tx.output.len() as u64 > config.max_outputs
            invariant
                checkpoint_tx.output.len() <= all.len(),
                checkpoint_tx.output.len() >= min_int(config.max_outputs as int, all.len() as int),
                checkpoint_tx@.output == all.take(checkpoint_tx.output.len() as int),
                outputs_view(excess_outputs@) == popped(all, checkpoint_tx.output.len() as int),
                checkpoint_tx@.input == tx.input.take(
                    min_int(config.max_inputs as int, tx.input.len() as int),
                ),
                checkpoint_tx.lock_time == tx.lock_time,
                checkpoint_tx.signed_inputs == tx.signed_inputs,
            decreases checkpoint_tx.output.len(),
        {
            let ghost n = checkpoint_tx.output.len() as int;
            let ghost less = outputs_view(excess_outputs@);
            let ghost held = checkpoint_tx.output@;
            assert(outputs_view(held)[n - 1] == held[n - 1]@);
            let removed_output = checkpoint_tx.output.pop().unwrap();
            assert(removed_output == held[n - 1]);
            excess_outputs.push(removed_output);
            assert(checkpoint_tx@.output =~= all.take(n - 1));
            assert(removed_output@ == all[n - 1]);
            assert(outputs_view(excess_outputs@) =~= less.push(removed_output@));
            assert(less.push(all[n - 1]) =~= popped(all, n - 1));
        }
        let ghost cut = checkpoint_tx@;

        // The reserve output gets what the inputs hold beyond outputs and fee.
        let in_amount = sum_inputs(&checkpoint_tx.input, checkpoint_tx.input.len());
        let out_amount = sum_outputs(&checkpoint_tx.output, checkpoint_tx.output.len());
        let (in_amount, out_amount) = match (in_amount, out_amount) {
            (Ok(i), Ok(o)) => (i, o),
            _ => {
                return Err(ContractError::Overflow);
            },
        };
        let reserve_value = match out_amount.checked_add(cp_fees) {
            Some(spent) => if in_amount < spent {
                return Err(ContractError::InsufficientReserve);
            } else {
                in_amount - spent
            },
            None => {
                return Err(ContractError::InsufficientReserve);
            },
        };
        if checkpoint_tx.output.len() == 0 {
            return Err(ContractError::MissingReserveOutput);
        }
        let reserve_out = &mut checkpoint_tx.output[0];
        reserve_out.value = reserve_value;
        assert(checkpoint_tx@.output =~= cut.output.update(
            0,
            OutputView { value: reserve_value, ..cut.output[0] },
        ));
        let ghost sealed = checkpoint_tx@;

        // Every input gets the digest that is to be signed.
        match populate_all(&mut checkpoint_tx) {
            Ok(()) => {},
            Err(e) => {
                return Err(e);
            },
        }
        let reserve_outpoint = OutPoint {
            txid: match checkpoint_tx.txid() {
                Ok(id) => id,
                Err(e) => {
                    return Err(e);
                },
            },
            vout: 0,
        };
        let mut work = BuildingCheckpoint(self.0.clone());
        work.0.status = CheckpointStatus::Signing;
        work.0.set_first_tx(BatchType::Checkpoint, checkpoint_tx);
        let fee_rate = work.0.fee_rate;
        match work.generate_emergency_disbursal_txs(
            now,
            recovery_scripts,
            nbtc_accounts,
            reserve_outpoint,
            external_outputs,
            fee_rate,
            reserve_value,
            config,
        ) {
            Ok(()) => {},
            Err(e) => {
                return Err(e);
            },
        }
        self.0 = work.0;
        Ok((reserve_outpoint, reserve_value, cp_fees, excess_inputs, excess_outputs))
    }

    /// Adds a transfer to the pending transfers. It is settled once the
    /// checkpoint is fully signed, and has its output in the emergency
    /// disbursal of the checkpoint until then.
    pub fn insert_pending(&mut self, dest: Dest, coin: Coin) -> (r: ContractResult<()>)
        ensures
            moves(
                r,
                old(self).0@,
                final(self).0@,
                old(self).0@.insert_pending(dest.receiver(), coin@),
            ),
    {
        let dest_key = dest.to_receiver_addr();
        let mut i: usize = 0;
        while i < self.0.pending.len()
            invariant
                i <= self.0.pending.len(),
                *self == *old(self),
                dest_key@ == dest.receiver(),
                entry_from(self.0@.pending, dest_key@, 0) == entry_from(
                    self.0@.pending,
                    dest_key@,
                    i as int,
                ),
            decreases self.0.pending.len() - i,
        {
            if self.0.pending[i].0 == dest_key {
                let amount = match self.0.pending[i].1.amount.checked_add(coin.amount) {
                    Some(a) => a,
                    None => {
                        return Err(ContractError::Overflow);
                    },
                };
                let ghost before = self.0@;
                let entry = &mut self.0.pending[i];
                entry.1.amount = amount;
                assert(self.0@.pending =~= before.pending.update(
                    i as int,
                    (dest_key@, CoinView { amount, ..before.pending[i as int].1 }),
                ));
                return Ok(());
            }
            i += 1;
        }
        let ghost before = self.0@;
        self.0.pending.push((dest_key, coin));
        assert(self.0@.pending =~= before.pending.push((dest_key@, coin@)));
        Ok(())
    }
}

} // verus!
