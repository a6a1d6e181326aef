use vstd::prelude::*;
use crate::checkpoint::{
    batches_view, copy_txs, pending_view, BatchType, BatchView, Checkpoint, CheckpointStatus,
    CheckpointView,
};
use crate::math::min_int;
use crate::constants::UNITS_PER_SAT;
use crate::error::{ContractError, ContractResult};
use crate::interface::{
    balances_view, lookup, scripts_view, to_output_script, Accounts, CheckpointConfig, Coin,
    CoinView,
};
use crate::signatory::{SignatorySet, SignatorySetView};
use crate::tx::{
    inputs_view, outputs_view, txs_view, BitcoinTx, BitcoinTxView, Input, InputView, OutPoint,
    Output, OutputView,
};

verus! {

/// The destination commitment of outputs that the signatory set itself holds.
pub open spec fn reserve_dest() -> Seq<u8> {
    seq![0u8]
}

/// The destination commitment of outputs that the signatory set itself holds.
pub fn reserve_dest_bytes() -> (r: Vec<u8>)
    ensures
        r@ == reserve_dest(),
{
    let mut dest: Vec<u8> = Vec::new();
    dest.push(0u8);
    assert(dest@ =~= seq![0u8]);
    dest
}

/// The satoshis in an amount of account units, cut to 64 bits.
pub open spec fn sats_of(amount: u128) -> u64 {
    ((amount / UNITS_PER_SAT) % 0x1_0000_0000_0000_0000) as u64
}

/// The satoshis in an amount of account units, cut to 64 bits.
pub fn sats(amount: u128) -> (r: u64)
    ensures
        r == sats_of(amount),
{
    ((amount / UNITS_PER_SAT) % 0x1_0000_0000_0000_0000u128) as u64
}

/// The intermediate transaction and a final transaction after the final
/// transaction has been linked: the intermediate transaction gets an output
/// of the value of the final transaction, paid to the signatory set, and
/// the final transaction an input that spends it.
pub open spec fn link(
    sigset: SignatorySetView,
    intermediate: BitcoinTxView,
    tx: BitcoinTxView,
    num: u64,
    den: u64,
) -> Result<(BitcoinTxView, BitcoinTxView), ContractError> {
    match sigset.output_script(reserve_dest(), num, den) {
        Err(e) => Err(e),
        Ok(script) => if tx.value() > u64::MAX || intermediate.output.len() > u32::MAX {
            Err(ContractError::Overflow)
        } else {
            match intermediate.txid() {
                Err(e) => Err(e),
                Ok(txid) => match InputView::fresh(
                    OutPoint { txid, vout: intermediate.output.len() as u32 },
                    sigset,
                    reserve_dest(),
                    tx.value() as u64,
                    num,
                    den,
                ) {
                    Err(e) => Err(e),
                    Ok(input) => Ok(
                        (
                            BitcoinTxView {
                                output: intermediate.output.push(
                                    OutputView { value: tx.value() as u64, script_pubkey: script },
                                ),
                                ..intermediate
                            },
                            BitcoinTxView { input: tx.input.push(input), ..tx },
                        ),
                    ),
                },
            }
        },
    }
}

/// A transaction with the given lock time and neither inputs nor outputs.
pub open spec fn empty_tx(lock_time: u32) -> BitcoinTxView {
    BitcoinTxView { lock_time, signed_inputs: 0, input: Seq::empty(), output: Seq::empty() }
}

/// The intermediate transaction and the final transactions after one more
/// output has been placed. An output below the least amount is left out.
/// An output goes into the last final transaction, unless that one has
/// reached the greatest size: then it is linked to the intermediate
/// transaction, and the output opens a new final transaction.
pub open spec fn place(
    sigset: SignatorySetView,
    intermediate: BitcoinTxView,
    finals: Seq<BitcoinTxView>,
    output: OutputView,
    config: CheckpointConfig,
    lock_time: u32,
) -> Result<(BitcoinTxView, Seq<BitcoinTxView>), ContractError> {
    if output.value < config.emergency_disbursal_min_tx_amt || finals.len() == 0 {
        Ok((intermediate, finals))
    } else {
        match finals.last().vsize() {
            Err(e) => Err(e),
            Ok(size) => if size >= config.emergency_disbursal_max_tx_size {
                match link(
                    sigset,
                    intermediate,
                    finals.last(),
                    config.sigset_threshold.0,
                    config.sigset_threshold.1,
                ) {
                    Err(e) => Err(e),
                    Ok((linked, closed)) => Ok(
                        (
                            linked,
                            finals.drop_last().push(closed).push(
                                BitcoinTxView { output: seq![output], ..empty_tx(lock_time) },
                            ),
                        ),
                    ),
                }
            } else {
                Ok(
                    (
                        intermediate,
                        finals.drop_last().push(
                            BitcoinTxView {
                                output: finals.last().output.push(output),
                                ..finals.last()
                            },
                        ),
                    ),
                )
            },
        }
    }
}

/// The intermediate transaction and the final transactions after the
/// first `n` outputs have been placed in turn.
pub open spec fn pack(
    sigset: SignatorySetView,
    intermediate: BitcoinTxView,
    finals: Seq<BitcoinTxView>,
    outputs: Seq<OutputView>,
    n: int,
    config: CheckpointConfig,
    lock_time: u32,
) -> Result<(BitcoinTxView, Seq<BitcoinTxView>), ContractError>
    decreases n,
{
    if n <= 0 {
        Ok((intermediate, finals))
    } else {
        match pack(sigset, intermediate, finals, outputs, n - 1, config, lock_time) {
            Err(e) => Err(e),
            Ok((i, f)) => place(sigset, i, f, outputs[n - 1], config, lock_time),
        }
    }
}

/// Once placing has failed at an output, it has failed for all outputs.
pub proof fn lemma_pack_fails(
    sigset: SignatorySetView,
    intermediate: BitcoinTxView,
    finals: Seq<BitcoinTxView>,
    outputs: Seq<OutputView>,
    k: int,
    n: int,
    config: CheckpointConfig,
    lock_time: u32,
)
    requires
        0 <= k <= n,
        pack(sigset, intermediate, finals, outputs, k, config, lock_time).is_err(),
    ensures
        pack(sigset, intermediate, finals, outputs, n, config, lock_time) == pack(
            sigset,
            intermediate,
            finals,
            outputs,
            k,
            config,
            lock_time,
        ),
    decreases n,
{
    if k < n {
        lemma_pack_fails(sigset, intermediate, finals, outputs, k, n - 1, config, lock_time);
    }
}

/// The outputs for the first `n` holders with a registered recovery
/// script: to each its balance in satoshis, locked by its script.
pub open spec fn holder_outputs(
    scripts: Seq<(Seq<char>, Seq<u8>)>,
    accounts: Seq<(Seq<char>, CoinView)>,
    n: int,
) -> Result<Seq<OutputView>, ContractError>
    decreases n,
{
    if n <= 0 {
        Ok(Seq::empty())
    } else {
        match holder_outputs(scripts, accounts, n - 1) {
            Err(e) => Err(e),
            Ok(outs) => match lookup(accounts, scripts[n - 1].0) {
                None => Err(ContractError::AccountNotFound),
                Some(coin) => Ok(
                    outs.push(
                        OutputView {
                            value: sats_of(coin.amount),
                            script_pubkey: scripts[n - 1].1,
                        },
                    ),
                ),
            },
        }
    }
}

/// Once a holder without account was met, there are no holder outputs.
pub proof fn lemma_holder_outputs_fails(
    scripts: Seq<(Seq<char>, Seq<u8>)>,
    accounts: Seq<(Seq<char>, CoinView)>,
    k: int,
    n: int,
)
    requires
        0 <= k <= n,
        holder_outputs(scripts, accounts, k).is_err(),
    ensures
        holder_outputs(scripts, accounts, n) == holder_outputs(scripts, accounts, k),
    decreases n,
{
    if k < n {
        lemma_holder_outputs_fails(scripts, accounts, k, n - 1);
    }
}

/// The outputs for the first `n` pending transfers: to each destination
/// with a registered recovery script the amount in satoshis.
pub open spec fn pending_outputs(
    pending: Seq<(Seq<char>, CoinView)>,
    scripts: Seq<(Seq<char>, Seq<u8>)>,
    n: int,
) -> Seq<OutputView>
    decreases n,
{
    if n <= 0 {
        Seq::empty()
    } else {
        let outs = pending_outputs(pending, scripts, n - 1);
        match lookup(scripts, pending[n - 1].0) {
            None => outs,
            Some(script) => outs.push(
                OutputView { value: sats_of(pending[n - 1].1.amount), script_pubkey: script },
            ),
        }
    }
}

/// The outputs of the emergency disbursal before they are filtered and
/// packed: those of the holders, those of the pending transfers, and those
/// handed in from outside.
pub open spec fn disbursal_outputs(
    pending: Seq<(Seq<char>, CoinView)>,
    scripts: Seq<(Seq<char>, Seq<u8>)>,
    accounts: Seq<(Seq<char>, CoinView)>,
    external: Seq<OutputView>,
) -> Result<Seq<OutputView>, ContractError> {
    match holder_outputs(scripts, accounts, scripts.len() as int) {
        Err(e) => Err(e),
        Ok(holders) => Ok(holders + pending_outputs(pending, scripts, pending.len() as int) + external),
    }
}

/// Links a final transaction to the intermediate transaction.
pub fn link_txs(
    sigset: &SignatorySet,
    intermediate: &mut BitcoinTx,
    tx: &mut BitcoinTx,
    threshold: (u64, u64),
) -> (r: ContractResult<()>)
    ensures
        match r {
            Ok(()) => link(sigset@, old(intermediate)@, old(tx)@, threshold.0, threshold.1) == Ok::<
                _,
                ContractError,
            >((final(intermediate)@, final(tx)@)),
            Err(e) => link(sigset@, old(intermediate)@, old(tx)@, threshold.0, threshold.1) == Err::<
                (BitcoinTxView, BitcoinTxView),
                _,
            >(e) && final(intermediate)@ == old(intermediate)@ && final(tx)@ == old(tx)@,
        },
{
    let dest = reserve_dest_bytes();
    let output_script = match sigset.output_script(&dest, threshold) {
        Ok(s) => s,
        Err(e) => {
            return Err(e);
        },
    };
    let tx_value = match tx.value() {
        Ok(v) => v,
        Err(e) => {
            return Err(e);
        },
    };
    if intermediate.output.len() > u32::MAX as usize {
        return Err(ContractError::Overflow);
    }
    let num_outputs = intermediate.output.len() as u32;
    let txid = match intermediate.txid() {
        Ok(id) => id,
        Err(e) => {
            return Err(e);
        },
    };
    let prevout = OutPoint { txid, vout: num_outputs };
    let final_tx_input = match Input::new(prevout, sigset, &dest, tx_value, threshold) {
        Ok(i) => i,
        Err(e) => {
            return Err(e);
        },
    };
    let intermediate_tx_output = Output { value: tx_value, script_pubkey: output_script };
    intermediate.output.push(intermediate_tx_output);
    tx.input.push(final_tx_input);
    assert(intermediate@.output =~= old(intermediate)@.output.push(intermediate_tx_output@));
    assert(tx@.input =~= old(tx)@.input.push(final_tx_input@));
    Ok(())
}

/// Places the outputs into final transactions.
pub(crate) fn pack_outputs(
    sigset: &SignatorySet,
    intermediate: &mut BitcoinTx,
    finals: &mut Vec<BitcoinTx>,
    outputs: &Vec<Output>,
    config: &CheckpointConfig,
    lock_time: u32,
) -> (r: ContractResult<()>)
    requires
        old(finals).len() > 0,
    ensures
        match r {
            Ok(()) => pack(
                sigset@,
                old(intermediate)@,
                txs_view(old(finals)@),
                outputs_view(outputs@),
                outputs.len() as int,
                *config,
                lock_time,
            ) == Ok::<_, ContractError>((final(intermediate)@, txs_view(final(finals)@)))
                && final(finals).len() > 0,
            Err(e) => pack(
                sigset@,
                old(intermediate)@,
                txs_view(old(finals)@),
                outputs_view(outputs@),
                outputs.len() as int,
                *config,
                lock_time,
            ) == Err::<(BitcoinTxView, Seq<BitcoinTxView>), _>(e),
        },
{
    let ghost first = old(intermediate)@;
    let ghost txs = txs_view(old(finals)@);
    let ghost outs = outputs_view(outputs@);
    let mut i: usize = 0;
    while i < outputs.len()
        invariant
            i <= outputs.len(),
            finals.len() > 0,
            first == old(intermediate)@,
            txs == txs_view(old(finals)@),
            outs == outputs_view(outputs@),
            pack(sigset@, first, txs, outs, i as int, *config, lock_time) == Ok::<
                _,
                ContractError,
            >((intermediate@, txs_view(finals@))),
        decreases outputs.len() - i,
    {
        let output = &outputs[i];
        if output.value >= config.emergency_disbursal_min_tx_amt {
            let ghost before = txs_view(finals@);
            let mut curr_tx = finals.pop().unwrap();
            assert(txs_view(finals@) =~= before.drop_last());
            assert(curr_tx@ == before.last());
            let size = match curr_tx.vsize() {
                Ok(s) => s,
                Err(e) => {
                    proof {
                        assert(pack(sigset@, first, txs, outs, i + 1, *config, lock_time).is_err());
                        lemma_pack_fails(
                            sigset@,
                            first,
                            txs,
                            outs,
                            i + 1,
                            outs.len() as int,
                            *config,
                            lock_time,
                        );
                    }
                    return Err(e);
                },
            };
            if size >= config.emergency_disbursal_max_tx_size {
                match link_txs(sigset, intermediate, &mut curr_tx, config.sigset_threshold) {
                    Ok(()) => {},
                    Err(e) => {
                        proof {
                            assert(pack(
                                sigset@,
                                first,
                                txs,
                                outs,
                                i + 1,
                                *config,
                                lock_time,
                            ).is_err());
                            lemma_pack_fails(
                                sigset@,
                                first,
                                txs,
                                outs,
                                i + 1,
                                outs.len() as int,
                                *config,
                                lock_time,
                            );
                        }
                        return Err(e);
                    },
                }
                let ghost closed = curr_tx@;
                let ghost rest = txs_view(finals@);
                finals.push(curr_tx);
                assert(txs_view(finals@) =~= rest.push(closed));
                curr_tx = BitcoinTx::with_lock_time(lock_time);
                curr_tx.output.push(output.clone());
                assert(curr_tx@.output =~= seq![output@]);
                assert(curr_tx@ == (BitcoinTxView { output: seq![output@], ..empty_tx(lock_time) }));
                let ghost longer = txs_view(finals@);
                finals.push(curr_tx);
                assert(txs_view(finals@) =~= longer.push(curr_tx@));
            } else {
                let ghost shorter = curr_tx@.output;
                curr_tx.output.push(output.clone());
                assert(curr_tx@.output =~= shorter.push(output@));
                let ghost rest = txs_view(finals@);
                finals.push(curr_tx);
                assert(txs_view(finals@) =~= rest.push(curr_tx@));
            }
        }
        i += 1;
    }
    Ok(())
}

/// The outputs of the emergency disbursal before they are filtered and packed.
pub fn collect_outputs(
    pending: &Vec<(String, Coin)>,
    recovery_scripts: &Vec<(String, Vec<u8>)>,
    nbtc_accounts: &Accounts,
    external_outputs: &Vec<Output>,
) -> (r: ContractResult<Vec<Output>>)
    ensures
        match r {
            Ok(outs) => disbursal_outputs(
                pending_view(pending@),
                scripts_view(recovery_scripts@),
                balances_view(nbtc_accounts.accounts@),
                outputs_view(external_outputs@),
            ) == Ok::<_, ContractError>(outputs_view(outs@)),
            Err(e) => disbursal_outputs(
                pending_view(pending@),
                scripts_view(recovery_scripts@),
                balances_view(nbtc_accounts.accounts@),
                outputs_view(external_outputs@),
            ) == Err::<Seq<OutputView>, _>(e),
        },
{
    let ghost scripts = scripts_view(recovery_scripts@);
    let ghost accounts = balances_view(nbtc_accounts.accounts@);
    let mut outputs: Vec<Output> = Vec::new();
    assert(outputs_view(outputs@) =~= Seq::empty());
    let mut i: usize = 0;
    while i < recovery_scripts.len()
        invariant
            i <= recovery_scripts.len(),
            scripts == scripts_view(recovery_scripts@),
            accounts == balances_view(nbtc_accounts.accounts@),
            holder_outputs(scripts, accounts, i as int) == Ok::<_, ContractError>(
                outputs_view(outputs@),
            ),
        decreases recovery_scripts.len() - i,
    {
        let balance = match nbtc_accounts.balance(&recovery_scripts[i].0) {
            Some(coin) => coin,
            None => {
                proof {
                    assert(holder_outputs(scripts, accounts, i + 1).is_err());
                    lemma_holder_outputs_fails(scripts, accounts, i + 1, scripts.len() as int);
                }
                return Err(ContractError::AccountNotFound);
            },
        };
        let tx_out = Output {
            value: sats(balance.amount),
            script_pubkey: recovery_scripts[i].1.clone(),
        };
        let ghost before = outputs_view(outputs@);
        outputs.push(tx_out);
        assert(outputs_view(outputs@) =~= before.push(tx_out@));
        i += 1;
    }
    let ghost holders = outputs_view(outputs@);
    let ghost transfers = pending_view(pending@);
    let mut k: usize = 0;
    while k < pending.len()
        invariant
            k <= pending.len(),
            scripts == scripts_view(recovery_scripts@),
            transfers == pending_view(pending@),
            outputs_view(outputs@) == holders + pending_outputs(transfers, scripts, k as int),
        decreases pending.len() - k,
    {
        match to_output_script(recovery_scripts, &pending[k].0) {
            Some(script_pubkey) => {
                let tx_out = Output { value: sats(pending[k].1.amount), script_pubkey };
                let ghost before = outputs_view(outputs@);
                outputs.push(tx_out);
                assert(outputs_view(outputs@) =~= before.push(tx_out@));
                assert(holders + pending_outputs(transfers, scripts, k + 1) =~= (holders
                    + pending_outputs(transfers, scripts, k as int)).push(tx_out@));
            },
            None => {},
        }
        k += 1;
    }
    let ghost inner = outputs_view(outputs@);
    let ghost external = outputs_view(external_outputs@);
    let mut j: usize = 0;
    while j < external_outputs.len()
        invariant
            j <= external_outputs.len(),
            external == outputs_view(external_outputs@),
            outputs_view(outputs@) == inner + external.take(j as int),
        decreases external_outputs.len() - j,
    {
        let ghost before = outputs_view(outputs@);
        outputs.push(external_outputs[j].clone());
        assert(outputs_view(outputs@) =~= before.push(external[j as int]));
        assert(inner + external.take(j + 1) =~= (inner + external.take(j as int)).push(
            external[j as int],
        ));
        j += 1;
    }
    assert(external.take(external.len() as int) =~= external);
    Ok(outputs)
}

/// The outputs with their positions.
pub open spec fn numbered(outs: Seq<OutputView>) -> Seq<(u32, u64)> {
    Seq::new(outs.len(), |i: int| (i as u32, outs[i].value))
}

/// The position from `start` on of the first of the numbered outputs that
/// holds `amount`.
pub open spec fn match_from(remaining: Seq<(u32, u64)>, amount: u64, start: int) -> Option<int>
    decreases remaining.len() - start,
{
    if start < 0 || start >= remaining.len() {
        None
    } else if remaining[start].1 == amount {
        Some(start)
    } else {
        match_from(remaining, amount, start + 1)
    }
}

/// The final transactions that are kept so far, and the outputs of the
/// intermediate transaction that are not spent yet, after one more final
/// transaction has been looked at. The transaction is dropped if it has no
/// input, if its input holds less than `share`, or if no unspent output
/// holds what is left of the input after `share` is taken from it.
/// Otherwise its input is set to spend the first such output, and `share`
/// and the transaction's own miner fee are deducted from its outputs. If
/// the outputs hold less than that together, the transaction is dropped as
/// well, and the output that it would have spent stays unspent.
pub open spec fn relink(
    kept: Seq<BitcoinTxView>,
    remaining: Seq<(u32, u64)>,
    tx: BitcoinTxView,
    txid: [u8; 32],
    share: u64,
    fee_rate: u64,
) -> Result<(Seq<BitcoinTxView>, Seq<(u32, u64)>), ContractError> {
    if tx.input.len() == 0 || tx.input[0].amount < share {
        Ok((kept, remaining))
    } else {
        let amount = (tx.input[0].amount - share) as u64;
        match match_from(remaining, amount, 0) {
            None => Ok((kept, remaining)),
            Some(i) => {
                let input = InputView {
                    prevout: OutPoint { txid, vout: remaining[i].0 },
                    amount,
                    ..tx.input[0]
                };
                let spending = BitcoinTxView { input: tx.input.update(0, input), ..tx };
                match spending.vsize() {
                    Err(e) => Err(e),
                    Ok(size) => if share + size * fee_rate > u64::MAX {
                        Err(ContractError::Overflow)
                    } else {
                        match spending.deduct_fee((share + size * fee_rate) as u64) {
                            Err(_) => Ok((kept, remaining)),
                            Ok(paid) => Ok((kept.push(paid), remaining.remove(i))),
                        }
                    },
                }
            },
        }
    }
}

/// The same after the first `n` final transactions have been looked at in turn.
pub open spec fn relink_all(
    finals: Seq<BitcoinTxView>,
    n: int,
    remaining: Seq<(u32, u64)>,
    txid: [u8; 32],
    share: u64,
    fee_rate: u64,
) -> Result<(Seq<BitcoinTxView>, Seq<(u32, u64)>), ContractError>
    decreases n,
{
    if n <= 0 {
        Ok((Seq::empty(), remaining))
    } else {
        match relink_all(finals, n - 1, remaining, txid, share, fee_rate) {
            Err(e) => Err(e),
            Ok((kept, rest)) => relink(kept, rest, finals[n - 1], txid, share, fee_rate),
        }
    }
}

/// Once the fee of a final transaction could not be computed, none is charged.
pub proof fn lemma_relink_all_fails(
    finals: Seq<BitcoinTxView>,
    k: int,
    n: int,
    remaining: Seq<(u32, u64)>,
    txid: [u8; 32],
    share: u64,
    fee_rate: u64,
)
    requires
        0 <= k <= n,
        relink_all(finals, k, remaining, txid, share, fee_rate).is_err(),
    ensures
        relink_all(finals, n, remaining, txid, share, fee_rate) == relink_all(
            finals,
            k,
            remaining,
            txid,
            share,
            fee_rate,
        ),
    decreases n,
{
    if k < n {
        lemma_relink_all_fails(finals, k, n - 1, remaining, txid, share, fee_rate);
    }
}

/// The emergency disbursal transactions after their miner fees have been
/// deducted at `fee_rate`. The intermediate transaction pays its fee out of
/// its outputs. Each final transaction then gets the same share of that fee
/// taken from its input, is linked to an output of the intermediate
/// transaction that holds what is left, and pays that share and its own fee
/// out of its outputs. Final transactions that find no such output, or
/// whose outputs cannot pay, are dropped; so are all of them if the
/// intermediate transaction keeps no output. An intermediate transaction
/// whose outputs hold less than its fee makes the whole fail.
pub open spec fn settle(intermediate: BitcoinTxView, finals: Seq<BitcoinTxView>, fee_rate: u64) -> Result<
    (BitcoinTxView, Seq<BitcoinTxView>),
    ContractError,
> {
    match intermediate.vsize() {
        Err(e) => Err(e),
        Ok(size) => if size * fee_rate > u64::MAX {
            Err(ContractError::Overflow)
        } else {
            let fee = (size * fee_rate) as u64;
            match intermediate.deduct_fee(fee) {
                Err(e) => Err(e),
                Ok(charged) => match charged.txid() {
                    Err(e) => Err(e),
                    Ok(txid) => if charged.output.len() == 0 {
                        Ok((charged, Seq::empty()))
                    } else if charged.output.len() > u32::MAX {
                        Err(ContractError::Overflow)
                    } else {
                        match relink_all(
                            finals,
                            finals.len() as int,
                            numbered(charged.output),
                            txid,
                            (fee as int / charged.output.len() as int) as u64,
                            fee_rate,
                        ) {
                            Err(e) => Err(e),
                            Ok((kept, _)) => Ok((charged, kept)),
                        }
                    },
                },
            }
        },
    }
}

/// The transaction with the messages of its first `n` inputs set to the
/// digests that their signatures sign.
pub open spec fn populate_inputs(tx: BitcoinTxView, n: int) -> Result<BitcoinTxView, ContractError>
    decreases n,
{
    if n <= 0 {
        Ok(tx)
    } else {
        match populate_inputs(tx, n - 1) {
            Err(e) => Err(e),
            Ok(t) => t.populate_input_sig_message(n - 1),
        }
    }
}

/// The transactions with the messages of all inputs of the first `n` set.
pub open spec fn populate_txs(txs: Seq<BitcoinTxView>, n: int) -> Result<
    Seq<BitcoinTxView>,
    ContractError,
>
    decreases n,
{
    if n <= 0 {
        Ok(txs)
    } else {
        match populate_txs(txs, n - 1) {
            Err(e) => Err(e),
            Ok(ts) => match populate_inputs(ts[n - 1], ts[n - 1].input.len() as int) {
                Err(e) => Err(e),
                Ok(t) => Ok(ts.update(n - 1, t)),
            },
        }
    }
}

/// Once a digest could not be computed, the transaction is not populated.
pub proof fn lemma_populate_inputs_fails(tx: BitcoinTxView, k: int, n: int)
    requires
        0 <= k <= n,
        populate_inputs(tx, k).is_err(),
    ensures
        populate_inputs(tx, n) == populate_inputs(tx, k),
    decreases n,
{
    if k < n {
        lemma_populate_inputs_fails(tx, k, n - 1);
    }
}

/// Once a transaction could not be populated, none are.
pub proof fn lemma_populate_txs_fails(txs: Seq<BitcoinTxView>, k: int, n: int)
    requires
        0 <= k <= n,
        populate_txs(txs, k).is_err(),
    ensures
        populate_txs(txs, n) == populate_txs(txs, k),
    decreases n,
{
    if k < n {
        lemma_populate_txs_fails(txs, k, n - 1);
    }
}

/// The lock time of emergency disbursal transactions made at the time
/// `now`: the low 32 bits of `now`, and the configured interval.
pub open spec fn lock_time_at(now: u64, config: CheckpointConfig) -> int {
    now % 0x1_0000_0000 + config.emergency_disbursal_lock_time_interval
}

/// The intermediate transaction and the final transactions for the
/// outputs, before miner fees: the outputs are packed into final
/// transactions, the last of which is linked too; the intermediate
/// transaction gets the lock time and the reserve output as its input, and
/// what the reserve holds beyond its outputs goes back to the signatory set
/// in a last output.
pub open spec fn build_disbursal(
    sigset: SignatorySetView,
    intermediate: BitcoinTxView,
    outputs: Seq<OutputView>,
    reserve_outpoint: OutPoint,
    reserve_value: u64,
    config: CheckpointConfig,
    lock_time: u32,
) -> Result<(BitcoinTxView, Seq<BitcoinTxView>), ContractError> {
    let num = config.sigset_threshold.0;
    let den = config.sigset_threshold.1;
    match pack(
        sigset,
        intermediate,
        seq![empty_tx(lock_time)],
        outputs,
        outputs.len() as int,
        config,
        lock_time,
    ) {
        Err(e) => Err(e),
        Ok((packed, finals)) => match link(sigset, packed, finals.last(), num, den) {
            Err(e) => Err(e),
            Ok((linked, last)) => match InputView::fresh(
                reserve_outpoint,
                sigset,
                reserve_dest(),
                reserve_value,
                num,
                den,
            ) {
                Err(e) => Err(e),
                Ok(tx_in) => match sigset.output_script(reserve_dest(), num, den) {
                    Err(e) => Err(e),
                    Ok(script) => if linked.value() > u64::MAX {
                        Err(ContractError::Overflow)
                    } else if linked.value() > reserve_value {
                        Err(ContractError::DisbursalExceedsReserve)
                    } else {
                        Ok(
                            (
                                BitcoinTxView {
                                    lock_time,
                                    input: linked.input.push(tx_in),
                                    output: linked.output.push(
                                        OutputView {
                                            value: (reserve_value - linked.value()) as u64,
                                            script_pubkey: script,
                                        },
                                    ),
                                    ..linked
                                },
                                finals.drop_last().push(last),
                            ),
                        )
                    },
                },
            },
        },
    }
}

/// The last `s.len() - n` items of `s`, last first.
pub open spec fn popped<T>(s: Seq<T>, n: int) -> Seq<T> {
    Seq::new((s.len() - n) as nat, |i: int| s[s.len() - 1 - i])
}

impl CheckpointView {
    /// The checkpoint with `tx` as the first transaction of the batch.
    pub open spec fn with_first_tx(self, kind: BatchType, tx: BitcoinTxView) -> CheckpointView {
        let i = kind.spec_index();
        CheckpointView {
            batches: self.batches.update(
                i,
                BatchView { batch: self.batches[i].batch.update(0, tx), ..self.batches[i] },
            ),
            ..self
        }
    }

    /// The checkpoint with the given emergency disbursal transactions.
    pub open spec fn with_disbursal(
        self,
        intermediate: BitcoinTxView,
        finals: Seq<BitcoinTxView>,
    ) -> CheckpointView {
        CheckpointView {
            batches: self.batches.update(0, BatchView { batch: finals, ..self.batches[0] }).update(
                1,
                BatchView {
                    batch: self.batches[1].batch.update(0, intermediate),
                    ..self.batches[1]
                },
            ),
            ..self
        }
    }

    /// The checkpoint and the final transaction `tx` after `tx` has been
    /// linked to the intermediate transaction.
    pub open spec fn link_intermediate_tx(self, tx: BitcoinTxView, num: u64, den: u64) -> Result<
        (CheckpointView, BitcoinTxView),
        ContractError,
    > {
        match self.first_tx(BatchType::IntermediateTx) {
            Err(e) => Err(e),
            Ok(intermediate) => match link(self.sigset, intermediate, tx, num, den) {
                Err(e) => Err(e),
                Ok((linked, spending)) => Ok(
                    (self.with_first_tx(BatchType::IntermediateTx, linked), spending),
                ),
            },
        }
    }

    /// The checkpoint after the miner fees of the emergency disbursal
    /// transactions have been deducted at `fee_rate`.
    pub open spec fn deduct_emergency_disbursal_fees(self, fee_rate: u64) -> Result<
        CheckpointView,
        ContractError,
    > {
        match self.first_tx(BatchType::IntermediateTx) {
            Err(e) => Err(e),
            Ok(intermediate) => match settle(intermediate, self.batches[0].batch, fee_rate) {
                Err(e) => Err(e),
                Ok((charged, kept)) => Ok(self.with_disbursal(charged, kept)),
            },
        }
    }

    /// The checkpoint with its emergency disbursal transactions, which
    /// spend the reserve output `reserve_outpoint` of `reserve_value`
    /// satoshis: built from the outputs of the holders, of the pending
    /// transfers and of `external`, charged with their miner fees, and with
    /// the digest of every input set.
    pub open spec fn generate_emergency_disbursal_txs(
        self,
        now: u64,
        scripts: Seq<(Seq<char>, Seq<u8>)>,
        accounts: Seq<(Seq<char>, CoinView)>,
        reserve_outpoint: OutPoint,
        external: Seq<OutputView>,
        fee_rate: u64,
        reserve_value: u64,
        config: CheckpointConfig,
    ) -> Result<CheckpointView, ContractError> {
        match self.batch(BatchType::IntermediateTx) {
            Err(e) => Err(e),
            Ok(batch) => if batch.batch.len() == 0 {
                Ok(self)
            } else if lock_time_at(now, config) > u32::MAX {
                Err(ContractError::Overflow)
            } else {
                match disbursal_outputs(self.pending, scripts, accounts, external) {
                    Err(e) => Err(e),
                    Ok(outputs) => match build_disbursal(
                        self.sigset,
                        batch.batch[0],
                        outputs,
                        reserve_outpoint,
                        reserve_value,
                        config,
                        lock_time_at(now, config) as u32,
                    ) {
                        Err(e) => Err(e),
                        Ok((intermediate, finals)) => match settle(
                            intermediate,
                            self.batches[0].batch + finals,
                            fee_rate,
                        ) {
                            Err(e) => Err(e),
                            Ok((charged, kept)) => match populate_txs(kept, kept.len() as int) {
                                Err(e) => Err(e),
                                Ok(ready) => match charged.populate_input_sig_message(0) {
                                    Err(e) => Err(e),
                                    Ok(spending) => Ok(self.with_disbursal(spending, ready)),
                                },
                            },
                        },
                    },
                }
            },
        }
    }
}

/// The position of the first of the numbered outputs that holds `amount`.
fn find_match(remaining: &Vec<(u32, u64)>, amount: u64) -> (r: Option<usize>)
    ensures
        match r {
            Some(i) => match_from(remaining@, amount, 0) == Some(i as int) && i < remaining.len(),
            None => match_from(remaining@, amount, 0).is_none(),
        },
{
    let mut i: usize = 0;
    while i < remaining.len()
        invariant
            i <= remaining.len(),
            match_from(remaining@, amount, 0) == match_from(remaining@, amount, i as int),
        decreases remaining.len() - i,
    {
        if remaining[i].1 == amount {
            return Some(i);
        }
        i += 1;
    }
    None
}

/// Deducts the miner fees from the emergency disbursal transactions.
pub fn settle_fees(intermediate: &mut BitcoinTx, finals: &mut Vec<BitcoinTx>, fee_rate: u64) -> (r:
    ContractResult<()>)
    ensures
        match r {
            Ok(()) => settle(old(intermediate)@, txs_view(old(finals)@), fee_rate) == Ok::<
                _,
                ContractError,
            >((final(intermediate)@, txs_view(final(finals)@))),
            Err(e) => settle(old(intermediate)@, txs_view(old(finals)@), fee_rate) == Err::<
                (BitcoinTxView, Seq<BitcoinTxView>),
                _,
            >(e),
        },
{
    let size = match intermediate.vsize() {
        Ok(s) => s,
        Err(e) => {
            return Err(e);
        },
    };
    let intermediate_tx_fee = match size.checked_mul(fee_rate) {
        Some(f) => f,
        None => {
            return Err(ContractError::Overflow);
        },
    };
    match intermediate.deduct_fee(intermediate_tx_fee) {
        Ok(()) => {},
        Err(e) => {
            return Err(e);
        },
    }
    let intermediate_tx_id = match intermediate.txid() {
        Ok(id) => id,
        Err(e) => {
            return Err(e);
        },
    };
    let intermediate_tx_len = intermediate.output.len();
    if intermediate_tx_len == 0 {
        // No output is left for a final transaction to spend.
        *finals = Vec::new();
        assert(txs_view(finals@) =~= Seq::empty());
        return Ok(());
    }
    if intermediate_tx_len > u32::MAX as usize {
        return Err(ContractError::Overflow);
    }
    let share: u64 = intermediate_tx_fee / (intermediate_tx_len as u64);
    let mut remaining: Vec<(u32, u64)> = Vec::new();
    let mut v: usize = 0;
    while v < intermediate_tx_len
        invariant
            v <= intermediate_tx_len,
            intermediate_tx_len == intermediate.output.len(),
            intermediate_tx_len <= u32::MAX,
            remaining@ == numbered(intermediate@.output).take(v as int),
        decreases intermediate_tx_len - v,
    {
        remaining.push((v as u32, intermediate.output[v].value));
        assert(numbered(intermediate@.output).take(v + 1) =~= numbered(
            intermediate@.output,
        ).take(v as int).push(numbered(intermediate@.output)[v as int]));
        v += 1;
    }
    assert(remaining@ =~= numbered(intermediate@.output));
    let ghost start = remaining@;
    let ghost all = txs_view(finals@);
    let ghost goal = settle(old(intermediate)@, txs_view(old(finals)@), fee_rate);
    let ghost charged = intermediate@;
    assert(goal == match relink_all(
        all,
        all.len() as int,
        start,
        intermediate_tx_id,
        share,
        fee_rate,
    ) {
        Err(e) => Err::<(BitcoinTxView, Seq<BitcoinTxView>), _>(e),
        Ok((kept, _)) => Ok((charged, kept)),
    });
    let mut kept: Vec<BitcoinTx> = Vec::new();
    assert(txs_view(kept@) =~= Seq::empty());
    let mut i: usize = 0;
    while i < finals.len()
        invariant
            i <= finals.len(),
            all == txs_view(finals@),
            charged == intermediate@,
            goal == settle(old(intermediate)@, txs_view(old(finals)@), fee_rate),
            goal == match relink_all(
                all,
                all.len() as int,
                start,
                intermediate_tx_id,
                share,
                fee_rate,
            ) {
                Err(e) => Err::<(BitcoinTxView, Seq<BitcoinTxView>), _>(e),
                Ok((kept, _)) => Ok((charged, kept)),
            },
            relink_all(all, i as int, start, intermediate_tx_id, share, fee_rate) == Ok::<
                _,
                ContractError,
            >((txs_view(kept@), remaining@)),
        decreases finals.len() - i,
    {
        let mut tx = finals[i].clone();
        if tx.input.len() > 0 && tx.input[0].amount >= share {
            let amount: u64 = tx.input[0].amount - share;
            match find_match(&remaining, amount) {
                None => {},
                Some(j) => {
                    let vout = remaining[j].0;
                    let ghost before = tx@;
                    let input = &mut tx.input[0];
                    input.amount = amount;
                    input.prevout = OutPoint { txid: intermediate_tx_id, vout };
                    assert(tx@.input =~= before.input.update(
                        0,
                        InputView {
                            prevout: OutPoint { txid: intermediate_tx_id, vout },
                            amount,
                            ..before.input[0]
                        },
                    ));
                    let fee = match tx.vsize() {
                        Ok(tx_size) => match tx_size.checked_mul(fee_rate) {
                            Some(own) => share.checked_add(own),
                            None => None,
                        },
                        Err(e) => {
                            proof {
                                assert(relink_all(
                                    all,
                                    i + 1,
                                    start,
                                    intermediate_tx_id,
                                    share,
                                    fee_rate,
                                ).is_err());
                                lemma_relink_all_fails(
                                    all,
                                    i + 1,
                                    all.len() as int,
                                    start,
                                    intermediate_tx_id,
                                    share,
                                    fee_rate,
                                );
                            }
                            return Err(e);
                        },
                    };
                    let fee = match fee {
                        Some(f) => f,
                        None => {
                            proof {
                                assert(relink_all(
                                    all,
                                    i + 1,
                                    start,
                                    intermediate_tx_id,
                                    share,
                                    fee_rate,
                                ).is_err());
                                lemma_relink_all_fails(
                                    all,
                                    i + 1,
                                    all.len() as int,
                                    start,
                                    intermediate_tx_id,
                                    share,
                                    fee_rate,
                                );
                            }
                            return Err(ContractError::Overflow);
                        },
                    };
                    match tx.deduct_fee(fee) {
                        Ok(()) => {
                            let _ = remaining.remove(j);
                            let ghost shorter = txs_view(kept@);
                            kept.push(tx);
                            assert(txs_view(kept@) =~= shorter.push(tx@));
                        },
                        Err(_) => {},
                    }
                },
            }
        }
        i += 1;
    }
    *finals = kept;
    Ok(())
}

/// Sets the digest of every input of the transaction.
pub fn populate_all(tx: &mut BitcoinTx) -> (r: ContractResult<()>)
    ensures
        match r {
            Ok(()) => populate_inputs(old(tx)@, old(tx)@.input.len() as int) == Ok::<
                _,
                ContractError,
            >(final(tx)@),
            Err(e) => populate_inputs(old(tx)@, old(tx)@.input.len() as int) == Err::<
                BitcoinTxView,
                _,
            >(e),
        },
{
    let mut j: usize = 0;
    while j < tx.input.len()
        invariant
            j <= tx.input.len(),
            tx.input.len() == old(tx).input.len(),
            populate_inputs(old(tx)@, j as int) == Ok::<_, ContractError>(tx@),
        decreases tx.input.len() - j,
    {
        let ghost before = tx@;
        match tx.populate_input_sig_message(j) {
            Ok(()) => {
                assert(tx@.input.len() == before.input.len());
            },
            Err(e) => {
                proof {
                    assert(populate_inputs(old(tx)@, j + 1).is_err());
                    lemma_populate_inputs_fails(old(tx)@, j + 1, old(tx)@.input.len() as int);
                }
                return Err(e);
            },
        }
        j += 1;
    }
    Ok(())
}

/// Sets the digest of every input of every transaction.
pub fn populate_each(txs: &mut Vec<BitcoinTx>) -> (r: ContractResult<()>)
    ensures
        match r {
            Ok(()) => populate_txs(txs_view(old(txs)@), old(txs).len() as int) == Ok::<
                _,
                ContractError,
            >(txs_view(final(txs)@)),
            Err(e) => populate_txs(txs_view(old(txs)@), old(txs).len() as int) == Err::<
                Seq<BitcoinTxView>,
                _,
            >(e),
        },
{
    let ghost all = txs_view(old(txs)@);
    let mut i: usize = 0;
    while i < txs.len()
        invariant
            i <= txs.len(),
            txs.len() == old(txs).len(),
            all == txs_view(old(txs)@),
            populate_txs(all, i as int) == Ok::<_, ContractError>(txs_view(txs@)),
        decreases txs.len() - i,
    {
        let ghost before = txs_view(txs@);
        match populate_all(&mut txs[i]) {
            Ok(()) => {},
            Err(e) => {
                proof {
                    assert(populate_txs(all, i + 1).is_err());
                    lemma_populate_txs_fails(all, i + 1, all.len() as int);
                }
                return Err(e);
            },
        }
        assert(txs_view(txs@) =~= before.update(i as int, txs@[i as int]@));
        i += 1;
    }
    Ok(())
}

} // verus!
