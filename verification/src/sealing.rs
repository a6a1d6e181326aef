//! What holds of a checkpoint that has been sealed: its reserve output,
//! and the links between its emergency disbursal transactions.

use vstd::prelude::*;
use crate::checkpoint::{BatchType, CheckpointStatus, CheckpointView};
use crate::disbursal::{
    disbursal_outputs, lock_time_at, populate_txs, build_disbursal, empty_tx, link, pack, place, match_from, numbered, populate_inputs, relink, relink_all, reserve_dest, settle,
};
use crate::error::ContractError;
use crate::frame::{
    checkpoint_encodable, law_sign_keeps_transactions, same_but_signatures, sigs_encodable,
};
use crate::interface::{CheckpointConfig, CoinView};
use crate::keys::Signature;
use crate::signatory::SignatorySetView;
use crate::threshold_sig::ThresholdSigView;
use crate::math::{lemma_sum_push, sum};
use crate::laws::{
    law_deduct_fee_above_value, law_deduct_fee_takes_the_fee, law_deduct_fee_within_value,
};
use crate::tx::{output_values, BitcoinTxView, InputView, OutPoint, OutputView};

verus! {

impl CheckpointView {
    /// Whether the checkpoint holds its three batches, of which the last
    /// holds the one checkpoint transaction, and the one before it no more
    /// than the one intermediate transaction.
    pub open spec fn well_formed(self) -> bool {
        &&& self.batches.len() == 3
        &&& self.batches[BatchType::Checkpoint.spec_index()].batch.len() == 1
        &&& self.batches[BatchType::IntermediateTx.spec_index()].batch.len() <= 1
    }
}

/// A new checkpoint is well-formed.
pub proof fn law_fresh_checkpoint_is_well_formed(sigset: SignatorySetView)
    ensures
        CheckpointView::fresh(sigset).well_formed(),
{
}

/// Setting the digests of the first `n` inputs changes the messages of
/// their signatures alone, and nothing of what goes on the wire.
pub proof fn lemma_populate_inputs_frame(tx: BitcoinTxView, n: int)
    requires
        0 <= n <= tx.input.len(),
    ensures
        match populate_inputs(tx, n) {
            Err(_) => true,
            Ok(after) => {
                &&& same_but_signatures(tx, after)
                &&& after.signed_inputs == tx.signed_inputs
                &&& forall|i: int|
                    0 <= i < tx.input.len() ==> (#[trigger] after.input[i]).signatures
                        == (ThresholdSigView {
                        message: after.input[i].signatures.message,
                        ..tx.input[i].signatures
                    })
                &&& after.wire() == tx.wire()
                &&& (n > 0 ==> tx.wire().is_ok())
                &&& (sigs_encodable(tx) ==> sigs_encodable(after))
            },
        },
    decreases n,
{
    if n > 0 {
        lemma_populate_inputs_frame(tx, n - 1);
        match populate_inputs(tx, n - 1) {
            Ok(t) => {
                match populate_inputs(tx, n) {
                    Ok(after) => {
                        assert forall|i: int| 0 <= i < tx.input.len() implies #[trigger] after.input[i]
                            == (InputView { signatures: after.input[i].signatures, ..tx.input[i] })
                            && after.input[i].signatures == (ThresholdSigView {
                            message: after.input[i].signatures.message,
                            ..tx.input[i].signatures
                        }) by {
                            if i != n - 1 {
                                assert(after.input[i] == t.input[i]);
                            }
                        }
                        assert forall|i: int| 0 <= i < tx.input.len() implies (
                        #[trigger] after.input[i]).txin() == tx.input[i].txin() by {}
                        if sigs_encodable(tx) {
                            assert forall|i: int| 0 <= i < after.input.len() implies (
                            #[trigger] after.input[i]).signatures.encodable() by {
                                assert(tx.input[i].signatures.encodable());
                            }
                        }
                        if tx.encodable() {
                            assert(after.encodable());
                            assert(after.wire().unwrap().input =~= tx.wire().unwrap().input);
                        } else {
                            let j = choose|j: int|
                                0 <= j < tx.input.len() && !(#[trigger] tx.input[j]).txin().is_ok();
                            assert(!after.input[j].txin().is_ok());
                        }
                    },
                    Err(_) => {},
                }
            },
            Err(_) => {},
        }
    }
}

/// Sealing puts the reserve into the first output of the checkpoint
/// transaction: a well-formed checkpoint that has been sealed is
/// well-formed and being signed; its reserve output holds the reserve value
/// that the sealing reports, locked by the script of its signatory set; and
/// the reserve outpoint that the sealing reports is that output.
pub proof fn law_advance_sets_reserve_output(
    cp: CheckpointView,
    now: u64,
    scripts: Seq<(Seq<char>, Seq<u8>)>,
    accounts: Seq<(Seq<char>, CoinView)>,
    external: Seq<OutputView>,
    commitment: Seq<u8>,
    cp_fees: u64,
    config: CheckpointConfig,
)
    requires
        cp.well_formed(),
        cp.advance(now, scripts, accounts, external, commitment, cp_fees, config).is_ok(),
    ensures
        ({
            let (sealed, res) = cp.advance(
                now,
                scripts,
                accounts,
                external,
                commitment,
                cp_fees,
                config,
            ).unwrap();
            let tx = sealed.batches[2].batch[0];
            &&& sealed.well_formed()
            &&& sealed.status == CheckpointStatus::Signing
            &&& sealed.sigset == cp.sigset
            &&& cp.sigset.output_script(
                reserve_dest(),
                config.sigset_threshold.0,
                config.sigset_threshold.1,
            ).is_ok()
            &&& sealed.reserve_output() == Ok::<_, ContractError>(
                Some(
                    OutputView {
                        value: res.1,
                        script_pubkey: cp.sigset.output_script(
                            reserve_dest(),
                            config.sigset_threshold.0,
                            config.sigset_threshold.1,
                        ).unwrap(),
                    },
                ),
            )
            &&& tx.txid() == Ok::<_, ContractError>(res.0.txid)
            &&& res.0.vout == 0
            &&& res.2 == cp_fees
            &&& tx.input_value() == tx.value() + cp_fees
        }),
{
    let extra = cp.additional_outputs(config, commitment).unwrap();
    let tx = cp.first_tx(BatchType::Checkpoint).unwrap();
    let all = extra + tx.output;
    let n_in = crate::math::min_int(config.max_inputs as int, tx.input.len() as int);
    let n_out = crate::math::min_int(config.max_outputs as int, all.len() as int);
    let cut = BitcoinTxView { input: tx.input.take(n_in), output: all.take(n_out), ..tx };
    assert(crate::math::all_nonneg(crate::tx::output_values(cut.output)));
    crate::math::lemma_sum_upto_monotone(
        crate::tx::output_values(cut.output),
        0,
        cut.output.len() as int,
    );
    let reserve_value = (cut.input_value() - cut.value() - cp_fees) as u64;
    let sealed_tx = BitcoinTxView {
        output: cut.output.update(0, OutputView { value: reserve_value, ..cut.output[0] }),
        ..cut
    };
    lemma_populate_inputs_frame(sealed_tx, sealed_tx.input.len() as int);
    let ready = populate_inputs(sealed_tx, sealed_tx.input.len() as int).unwrap();
    assert(ready.output[0] == (OutputView { value: reserve_value, script_pubkey: extra[0].script_pubkey }));
    assert(ready.txid().is_ok());
    assert(ready.wire().is_ok());
    // The first output holds what the inputs hold beyond the other outputs
    // and the fee.
    crate::math::lemma_sum_upto_update(
        crate::tx::output_values(cut.output),
        0,
        reserve_value as int,
        cut.output.len() as int,
    );
    assert(crate::tx::output_values(sealed_tx.output) =~= crate::tx::output_values(
        cut.output,
    ).update(0, reserve_value as int));
    assert(crate::tx::input_amounts(ready.input) =~= crate::tx::input_amounts(cut.input));
    let cp1 = (CheckpointView { status: CheckpointStatus::Signing, ..cp }).with_first_tx(
        BatchType::Checkpoint,
        ready,
    );
    let outpoint = OutPoint { txid: ready.txid().unwrap(), vout: 0 };
    let built = cp1.generate_emergency_disbursal_txs(
        now,
        scripts,
        accounts,
        outpoint,
        external,
        cp.fee_rate,
        reserve_value,
        config,
    );
    assert(built.is_ok());
    let sealed = built.unwrap();
    assert(cp1.batches[2].batch =~= seq![ready]);
    assert(sealed.batches[2] == cp1.batches[2]);
    assert(sealed.batches.len() == 3);
    assert(sealed.batches[1].batch.len() == cp1.batches[1].batch.len());
    assert(sealed.batches[2].batch.last() == ready);
    assert(cut.output[0].value == 0);
    assert(sealed.checkpoint_tx() == ready.wire());
    assert(ready.input_value() == cut.input_value());
    assert(ready.value() == cut.value() + reserve_value);
    assert(reserve_dest() =~= seq![0u8]);
}

/// Signing keeps the reserve output: a well-formed checkpoint whose
/// signatures can be encoded has the same reserve output after a
/// submission of signatures, and is well-formed.
pub proof fn law_sign_keeps_reserve_output(
    cp: CheckpointView,
    xpub: Seq<u8>,
    sigs: Seq<Signature>,
    btc_height: u32,
)
    requires
        cp.well_formed(),
        checkpoint_encodable(cp),
        cp.sign(xpub, sigs, btc_height).is_ok(),
    ensures
        cp.sign(xpub, sigs, btc_height).unwrap().well_formed(),
        cp.reserve_output().is_ok(),
        cp.sign(xpub, sigs, btc_height).unwrap().reserve_output() == cp.reserve_output(),
{
    law_sign_keeps_transactions(cp, xpub, sigs, btc_height, 2, 0);
    crate::frame::lemma_sign_batches_frame_of_txs(cp.batches, 3, xpub, sigs, 0);
    assert(crate::frame::batch_signed_over(
        cp.batches[1],
        cp.sign(xpub, sigs, btc_height).unwrap().batches[1],
    ));
    let after = cp.sign(xpub, sigs, btc_height).unwrap();
    let x = cp.batches[2].batch[0];
    let y = after.batches[2].batch[0];
    assert(sigs_encodable(x));
    assert(sigs_encodable(y));
    crate::frame::law_encodable_goes_on_the_wire_all(x);
    crate::frame::law_encodable_goes_on_the_wire_all(y);
}

/// Whether each of the final transactions spends, with its first input,
/// an output of the intermediate transaction with the identifier `txid`
/// that holds the amount of the input, and no two of them the same output.
pub open spec fn linked(outs: Seq<OutputView>, txid: [u8; 32], finals: Seq<BitcoinTxView>) -> bool {
    &&& forall|k: int|
        0 <= k < finals.len() ==> {
            let tx = #[trigger] finals[k];
            &&& tx.input.len() > 0
            &&& tx.input[0].prevout.txid == txid
            &&& tx.input[0].prevout.vout < outs.len()
            &&& outs[tx.input[0].prevout.vout as int].value == tx.input[0].amount
        }
    &&& forall|j: int, k: int|
        0 <= j < k < finals.len() ==> (#[trigger] finals[j]).input[0].prevout.vout != (
        #[trigger] finals[k]).input[0].prevout.vout
}

/// Whether the numbered outputs that are left to spend are outputs of the
/// intermediate transaction, in rising order, and none of them is spent by
/// a final transaction.
pub open spec fn unspent(outs: Seq<OutputView>, finals: Seq<BitcoinTxView>, rest: Seq<(u32, u64)>) -> bool {
    &&& forall|r: int|
        0 <= r < rest.len() ==> (#[trigger] rest[r]).0 < outs.len() && outs[rest[r].0 as int].value
            == rest[r].1
    &&& forall|a: int, b: int|
        0 <= a < b < rest.len() ==> (#[trigger] rest[a]).0 < (#[trigger] rest[b]).0
    &&& forall|k: int, r: int|
        0 <= k < finals.len() && 0 <= r < rest.len() ==> (#[trigger] finals[k]).input[0].prevout.vout
            != (#[trigger] rest[r]).0
}

/// The first of the numbered outputs that holds an amount holds it.
pub proof fn lemma_match_from(remaining: Seq<(u32, u64)>, amount: u64, start: int)
    requires
        0 <= start,
    ensures
        match match_from(remaining, amount, start) {
            Some(i) => start <= i < remaining.len() && remaining[i].1 == amount,
            None => true,
        },
    decreases remaining.len() - start,
{
    if start < remaining.len() && remaining[start].1 != amount {
        lemma_match_from(remaining, amount, start + 1);
    }
}

/// A final transaction that is kept is linked to an output that was left
/// to spend, which is then no longer left.
pub proof fn lemma_relink_links(
    outs: Seq<OutputView>,
    kept: Seq<BitcoinTxView>,
    rest: Seq<(u32, u64)>,
    tx: BitcoinTxView,
    txid: [u8; 32],
    share: u64,
    fee_rate: u64,
)
    requires
        linked(outs, txid, kept),
        unspent(outs, kept, rest),
    ensures
        match relink(kept, rest, tx, txid, share, fee_rate) {
            Err(_) => true,
            Ok((more, left)) => linked(outs, txid, more) && unspent(outs, more, left),
        },
{
    match relink(kept, rest, tx, txid, share, fee_rate) {
        Ok((more, left)) => {
            if more != kept {
                let amount = (tx.input[0].amount - share) as u64;
                lemma_match_from(rest, amount, 0);
                let i = match_from(rest, amount, 0).unwrap();
                let last = more[more.len() - 1];
                assert(more == kept.push(last));
                assert(last.input[0].prevout == OutPoint { txid, vout: rest[i].0 });
                assert(last.input[0].amount == amount);
                assert(left == rest.remove(i));
                assert forall|r: int| 0 <= r < left.len() implies #[trigger] left[r] == rest[if r
                    < i {
                    r
                } else {
                    r + 1
                }] by {}
                assert forall|k: int| 0 <= k < more.len() implies {
                    let t = #[trigger] more[k];
                    &&& t.input.len() > 0
                    &&& t.input[0].prevout.txid == txid
                    &&& t.input[0].prevout.vout < outs.len()
                    &&& outs[t.input[0].prevout.vout as int].value == t.input[0].amount
                } by {
                    if k < kept.len() {
                        assert(more[k] == kept[k]);
                    } else {
                        assert(rest[i].0 < outs.len());
                    }
                }
                assert forall|j: int, k: int| 0 <= j < k < more.len() implies (
                #[trigger] more[j]).input[0].prevout.vout != (#[trigger] more[k]).input[0].prevout.vout by {
                    assert(more[j] == kept[j]);
                    if k < kept.len() {
                        assert(more[k] == kept[k]);
                    } else {
                        assert(kept[j].input[0].prevout.vout != rest[i].0);
                    }
                }
                assert forall|k: int, r: int|
                    0 <= k < more.len() && 0 <= r < left.len() implies (
                #[trigger] more[k]).input[0].prevout.vout != (#[trigger] left[r]).0 by {
                    let q = if r < i {
                        r
                    } else {
                        r + 1
                    };
                    assert(left[r] == rest[q]);
                    if k < kept.len() {
                        assert(more[k] == kept[k]);
                        assert(kept[k].input[0].prevout.vout != rest[q].0);
                    } else {
                        if q < i {
                            assert(rest[q].0 < rest[i].0);
                        } else {
                            assert(rest[i].0 < rest[q].0);
                        }
                    }
                }
                assert forall|a: int, b: int| 0 <= a < b < left.len() implies (#[trigger] left[a]).0
                    < (#[trigger] left[b]).0 by {
                    let qa = if a < i {
                        a
                    } else {
                        a + 1
                    };
                    let qb = if b < i {
                        b
                    } else {
                        b + 1
                    };
                    assert(left[a] == rest[qa] && left[b] == rest[qb]);
                    assert(rest[qa].0 < rest[qb].0);
                }
                assert forall|r: int| 0 <= r < left.len() implies (#[trigger] left[r]).0 < outs.len()
                    && outs[left[r].0 as int].value == left[r].1 by {
                    let q = if r < i {
                        r
                    } else {
                        r + 1
                    };
                    assert(left[r] == rest[q]);
                    assert(rest[q].0 < outs.len());
                }
            }
        },
        Err(_) => {},
    }
}

/// The final transactions that are kept of the first `n` are linked.
pub proof fn lemma_relink_all_links(
    outs: Seq<OutputView>,
    finals: Seq<BitcoinTxView>,
    n: int,
    txid: [u8; 32],
    share: u64,
    fee_rate: u64,
)
    requires
        0 <= n <= finals.len(),
        outs.len() <= u32::MAX,
    ensures
        match relink_all(finals, n, numbered(outs), txid, share, fee_rate) {
            Err(_) => true,
            Ok((kept, rest)) => linked(outs, txid, kept) && unspent(outs, kept, rest) && kept.len()
                <= n,
        },
    decreases n,
{
    if n > 0 {
        lemma_relink_all_links(outs, finals, n - 1, txid, share, fee_rate);
        match relink_all(finals, n - 1, numbered(outs), txid, share, fee_rate) {
            Ok((kept, rest)) => {
                lemma_relink_links(outs, kept, rest, finals[n - 1], txid, share, fee_rate);
            },
            Err(_) => {},
        }
    } else {
        let rest = numbered(outs);
        assert forall|r: int| 0 <= r < rest.len() implies (#[trigger] rest[r]).0 == r by {}
    }
}

/// After the miner fees have been deducted, no final transaction is left
/// with a dangling input: each final transaction that is kept spends, with
/// its first input, an output that the intermediate transaction still has,
/// by the identifier that the intermediate transaction has after its fee,
/// and of the amount that this output holds; and no two final transactions
/// spend the same output. A final transaction whose output was dropped from
/// the intermediate transaction is dropped with it.
pub proof fn law_settle_leaves_no_dangling_input(
    intermediate: BitcoinTxView,
    finals: Seq<BitcoinTxView>,
    fee_rate: u64,
)
    requires
        settle(intermediate, finals, fee_rate).is_ok(),
    ensures
        settle(intermediate, finals, fee_rate).unwrap().0.txid().is_ok(),
        linked(
            settle(intermediate, finals, fee_rate).unwrap().0.output,
            settle(intermediate, finals, fee_rate).unwrap().0.txid().unwrap(),
            settle(intermediate, finals, fee_rate).unwrap().1,
        ),
        settle(intermediate, finals, fee_rate).unwrap().1.len() <= finals.len(),
        settle(intermediate, finals, fee_rate).unwrap().1.len() <= settle(
            intermediate,
            finals,
            fee_rate,
        ).unwrap().0.output.len(),
        settle(intermediate, finals, fee_rate).unwrap().0.input == intermediate.input,
        settle(intermediate, finals, fee_rate).unwrap().0.lock_time == intermediate.lock_time,
{
    let size = intermediate.vsize().unwrap();
    let fee = (size * fee_rate) as u64;
    let charged = intermediate.deduct_fee(fee).unwrap();
    let txid = charged.txid().unwrap();
    if charged.output.len() > 0 {
        let share = (fee as int / charged.output.len() as int) as u64;
        lemma_relink_all_links(charged.output, finals, finals.len() as int, txid, share, fee_rate);
        let kept = settle(intermediate, finals, fee_rate).unwrap().1;
        lemma_distinct_vouts_bound(charged.output, txid, kept);
    }
}

/// An intermediate transaction whose outputs hold less than its miner fee
/// cannot be charged: the deduction fails as a whole, and with it whatever
/// seals the checkpoint.
pub proof fn law_settle_refuses_fee_above_value(
    intermediate: BitcoinTxView,
    finals: Seq<BitcoinTxView>,
    fee_rate: u64,
)
    requires
        intermediate.vsize().is_ok(),
        intermediate.vsize().unwrap() * fee_rate <= u64::MAX,
        intermediate.vsize().unwrap() * fee_rate > intermediate.value(),
    ensures
        settle(intermediate, finals, fee_rate) == Err::<(BitcoinTxView, Seq<BitcoinTxView>), _>(
            ContractError::BitcoinFee((intermediate.vsize().unwrap() * fee_rate) as u64),
        ),
{
    law_deduct_fee_above_value(intermediate, (intermediate.vsize().unwrap() * fee_rate) as u64);
}

/// A final transaction is kept only if its outputs held what it owes: its
/// share of the fee of the intermediate transaction and its own miner fee
/// at the size that it has once its input is linked. It is then kept with
/// this deducted, and takes one unspent output. Otherwise it is dropped,
/// and the unspent outputs stay as they are.
pub proof fn law_kept_final_could_pay(
    kept: Seq<BitcoinTxView>,
    remaining: Seq<(u32, u64)>,
    tx: BitcoinTxView,
    txid: [u8; 32],
    share: u64,
    fee_rate: u64,
)
    requires
        relink(kept, remaining, tx, txid, share, fee_rate).is_ok(),
    ensures
        ({
            let (after, rest) = relink(kept, remaining, tx, txid, share, fee_rate).unwrap();
            ||| (after == kept && rest == remaining)
            ||| ({
                let linked = BitcoinTxView { output: tx.output, ..after.last() };
                &&& after == kept.push(after.last())
                &&& rest.len() + 1 == remaining.len()
                &&& linked.vsize().is_ok()
                &&& share + linked.vsize().unwrap() * fee_rate <= tx.value()
                &&& linked.deduct_fee((share + linked.vsize().unwrap() * fee_rate) as u64) == Ok::<
                    _,
                    ContractError,
                >(after.last())
            })
        }),
{
    if tx.input.len() == 0 || tx.input[0].amount < share {
    } else {
        let amount = (tx.input[0].amount - share) as u64;
        match match_from(remaining, amount, 0) {
            None => {},
            Some(i) => {
                lemma_match_from(remaining, amount, 0);
                let input = InputView {
                    prevout: OutPoint { txid, vout: remaining[i].0 },
                    amount,
                    ..tx.input[0]
                };
                let spending = BitcoinTxView { input: tx.input.update(0, input), ..tx };
                let size = spending.vsize().unwrap();
                let fee = (share + size * fee_rate) as u64;
                law_deduct_fee_within_value(spending, fee);
                match spending.deduct_fee(fee) {
                    Err(_) => {},
                    Ok(paid) => {
                        let (after, rest) = relink(kept, remaining, tx, txid, share, fee_rate).unwrap();
                        assert(after.last() == paid);
                        let linked = BitcoinTxView { output: tx.output, ..paid };
                        assert(linked == spending);
                    },
                }
            },
        }
    }
}

/// A final transaction that is kept pays out what it receives less its
/// miner fee, but for the remainder of a division: where its outputs held
/// no more than its input before the fees, they hold afterwards less than
/// the input holds then, less the transaction's own miner fee, plus the
/// number of the outputs that stay.
pub proof fn law_kept_final_pays_within_its_input(
    kept: Seq<BitcoinTxView>,
    remaining: Seq<(u32, u64)>,
    tx: BitcoinTxView,
    txid: [u8; 32],
    share: u64,
    fee_rate: u64,
)
    requires
        relink(kept, remaining, tx, txid, share, fee_rate).is_ok(),
        relink(kept, remaining, tx, txid, share, fee_rate).unwrap().0 != kept,
        tx.input.len() > 0,
        tx.value() <= tx.input[0].amount,
    ensures
        ({
            let paid = relink(kept, remaining, tx, txid, share, fee_rate).unwrap().0.last();
            let linked = BitcoinTxView { output: tx.output, ..paid };
            &&& paid.input.len() > 0
            &&& paid.input[0].amount == tx.input[0].amount - share
            &&& linked.vsize().is_ok()
            &&& paid.output.len() > 0 ==> paid.value() < paid.input[0].amount - linked.vsize().unwrap()
                * fee_rate + paid.output.len()
            &&& paid.output.len() == 0 ==> paid.value() == 0
        }),
{
    law_kept_final_could_pay(kept, remaining, tx, txid, share, fee_rate);
    let paid = relink(kept, remaining, tx, txid, share, fee_rate).unwrap().0.last();
    let linked = BitcoinTxView { output: tx.output, ..paid };
    let amount = (tx.input[0].amount - share) as u64;
    let i = match_from(remaining, amount, 0).unwrap();
    let input = InputView { prevout: OutPoint { txid, vout: remaining[i].0 }, amount, ..tx.input[0] };
    let spending = BitcoinTxView { input: tx.input.update(0, input), ..tx };
    assert(linked == spending);
    assert(paid.input[0] == input);
    let size = linked.vsize().unwrap();
    let own = size * fee_rate;
    assert(own >= 0) by (nonlinear_arith)
        requires
            own == size * fee_rate,
            size >= 0,
            fee_rate >= 0,
    ;
    let fee = (share + own) as u64;
    lemma_value_nonneg(paid.output);
    if fee > 0 {
        law_deduct_fee_takes_the_fee(linked, fee);
    }
}

/// Final transactions that spend different outputs are no more than there
/// are outputs.
pub proof fn lemma_distinct_vouts_bound(outs: Seq<OutputView>, txid: [u8; 32], finals: Seq<BitcoinTxView>)
    requires
        linked(outs, txid, finals),
    ensures
        finals.len() <= outs.len(),
{
    let vouts = Seq::new(finals.len(), |k: int| finals[k].input[0].prevout.vout as int);
    assert forall|j: int, k: int| 0 <= j < k < vouts.len() implies vouts[j] != vouts[k] by {
        assert(finals[j].input[0].prevout.vout != finals[k].input[0].prevout.vout);
    }
    assert(vouts.no_duplicates());
    let hit = vouts.to_set();
    vouts.unique_seq_to_set();
    let all = Set::new(|v: int| 0 <= v < outs.len());
    assert(hit.subset_of(all)) by {
        assert forall|v: int| hit.contains(v) implies all.contains(v) by {
            let k = choose|k: int| 0 <= k < vouts.len() && vouts[k] == v;
            assert(finals[k].input[0].prevout.vout < outs.len());
        }
    }
    vstd::set_lib::lemma_int_range(0, outs.len() as int);
    assert(all =~= vstd::set_lib::set_int_range(0, outs.len() as int));
    vstd::set_lib::lemma_len_subset(hit, all);
}

/// The summed amounts of those of the first `n` outputs that hold at
/// least `least`.
pub open spec fn eligible_sum(outputs: Seq<OutputView>, n: int, least: u64) -> int
    decreases n,
{
    if n <= 0 {
        0
    } else {
        eligible_sum(outputs, n - 1, least) + if outputs[n - 1].value >= least {
            outputs[n - 1].value as int
        } else {
            0
        }
    }
}

/// The summed amounts of a list of outputs with one more output.
pub proof fn lemma_value_push(outs: Seq<OutputView>, o: OutputView)
    ensures
        sum(output_values(outs.push(o))) == sum(output_values(outs)) + o.value,
{
    assert(output_values(outs.push(o)) =~= output_values(outs).push(o.value as int));
    lemma_sum_push(output_values(outs), o.value as int);
}

/// The summed amounts of a list of outputs are not negative.
pub proof fn lemma_value_nonneg(outs: Seq<OutputView>)
    ensures
        sum(output_values(outs)) >= 0,
{
    assert(crate::math::all_nonneg(output_values(outs)));
    crate::math::lemma_sum_upto_monotone(output_values(outs), 0, outs.len() as int);
}

/// Whether the intermediate transaction and the final transactions stand
/// as packing leaves them after outputs of `placed` satoshis in all have
/// been placed: each final transaction but the last is linked to the output
/// of its number, which holds what it pays out; the last one is not linked
/// yet; and what the outputs of the intermediate transaction hold, with what
/// the last final transaction pays out, is what was placed.
pub open spec fn packed(inter: BitcoinTxView, finals: Seq<BitcoinTxView>, placed: int) -> bool {
    &&& finals.len() >= 1
    &&& inter.output.len() == finals.len() - 1
    &&& sum(output_values(inter.output)) + finals.last().value() == placed
    &&& finals.last().input.len() == 0
    &&& forall|k: int|
        0 <= k < finals.len() - 1 ==> {
            let tx = #[trigger] finals[k];
            &&& tx.input.len() == 1
            &&& tx.input[0].prevout.vout == k
            &&& tx.input[0].amount == inter.output[k].value
            &&& tx.value() == inter.output[k].value
        }
}

/// Linking the last final transaction adds to the intermediate transaction
/// an output of what the final transaction pays out.
pub proof fn lemma_link_packed(
    sigset: SignatorySetView,
    inter: BitcoinTxView,
    finals: Seq<BitcoinTxView>,
    placed: int,
    num: u64,
    den: u64,
)
    requires
        packed(inter, finals, placed),
    ensures
        match link(sigset, inter, finals.last(), num, den) {
            Err(_) => true,
            Ok((linked, closed)) => {
                &&& linked.input == inter.input
                &&& linked.lock_time == inter.lock_time
                &&& linked.output.len() == finals.len()
                &&& sum(output_values(linked.output)) == placed
                &&& closed.input.len() == 1
                &&& closed.input[0].prevout.vout == finals.len() - 1
                &&& closed.input[0].amount == linked.output[finals.len() - 1].value
                &&& closed.value() == linked.output[finals.len() - 1].value
                &&& closed.output == finals.last().output
                &&& closed.lock_time == finals.last().lock_time
                &&& forall|k: int|
                    0 <= k < finals.len() - 1 ==> #[trigger] linked.output[k] == inter.output[k]
                &&& sigset.output_script(reserve_dest(), num, den).is_ok()
                &&& linked.output[finals.len() - 1].script_pubkey == sigset.output_script(
                    reserve_dest(),
                    num,
                    den,
                ).unwrap()
            },
        },
{
    match link(sigset, inter, finals.last(), num, den) {
        Ok((linked, closed)) => {
            let script = sigset.output_script(reserve_dest(), num, den).unwrap();
            lemma_value_nonneg(finals.last().output);
            let o = OutputView { value: finals.last().value() as u64, script_pubkey: script };
            assert(linked.output == inter.output.push(o));
            lemma_value_push(inter.output, o);
            let txid = inter.txid().unwrap();
            let input = InputView::fresh(
                OutPoint { txid, vout: inter.output.len() as u32 },
                sigset,
                reserve_dest(),
                finals.last().value() as u64,
                num,
                den,
            ).unwrap();
            assert(closed.input == finals.last().input.push(input));
            assert(closed.input[0] == input);
            assert(input.amount == finals.last().value());
            assert(input.prevout.vout == inter.output.len());
            assert(linked.output[finals.len() - 1] == o);
        },
        Err(_) => {},
    }
}

/// Placing one more output keeps the transactions packed.
pub proof fn lemma_place_packed(
    sigset: SignatorySetView,
    inter: BitcoinTxView,
    finals: Seq<BitcoinTxView>,
    output: OutputView,
    config: CheckpointConfig,
    lock_time: u32,
    placed: int,
)
    requires
        packed(inter, finals, placed),
    ensures
        match place(sigset, inter, finals, output, config, lock_time) {
            Err(_) => true,
            Ok((i, f)) => packed(
                i,
                f,
                placed + if output.value >= config.emergency_disbursal_min_tx_amt {
                    output.value as int
                } else {
                    0
                },
            ) && i.input == inter.input && i.lock_time == inter.lock_time,
        },
{
    match place(sigset, inter, finals, output, config, lock_time) {
        Ok((i, f)) => {
            if output.value >= config.emergency_disbursal_min_tx_amt {
                let size = finals.last().vsize().unwrap();
                if size >= config.emergency_disbursal_max_tx_size {
                    lemma_link_packed(
                        sigset,
                        inter,
                        finals,
                        placed,
                        config.sigset_threshold.0,
                        config.sigset_threshold.1,
                    );
                    let (linked, closed) = link(
                        sigset,
                        inter,
                        finals.last(),
                        config.sigset_threshold.0,
                        config.sigset_threshold.1,
                    ).unwrap();
                    let fresh = BitcoinTxView { output: seq![output], ..empty_tx(lock_time) };
                    assert(f == finals.drop_last().push(closed).push(fresh));
                    assert(seq![output] =~= Seq::<OutputView>::empty().push(output));
                    lemma_value_push(Seq::empty(), output);
                    assert(output_values(Seq::<OutputView>::empty()) =~= Seq::<int>::empty());
                    assert(fresh.value() == output.value);
                    assert forall|k: int| 0 <= k < f.len() - 1 implies {
                        let tx = #[trigger] f[k];
                        &&& tx.input.len() == 1
                        &&& tx.input[0].prevout.vout == k
                        &&& tx.input[0].amount == i.output[k].value
                        &&& tx.value() == i.output[k].value
                    } by {
                        if k < finals.len() - 1 {
                            assert(f[k] == finals[k]);
                            assert(linked.output[k] == inter.output[k]);
                        } else {
                            assert(f[k] == closed);
                        }
                    }
                } else {
                    let longer = BitcoinTxView {
                        output: finals.last().output.push(output),
                        ..finals.last()
                    };
                    assert(f == finals.drop_last().push(longer));
                    lemma_value_push(finals.last().output, output);
                    assert forall|k: int| 0 <= k < f.len() - 1 implies {
                        let tx = #[trigger] f[k];
                        &&& tx.input.len() == 1
                        &&& tx.input[0].prevout.vout == k
                        &&& tx.input[0].amount == i.output[k].value
                        &&& tx.value() == i.output[k].value
                    } by {
                        assert(f[k] == finals[k]);
                    }
                }
            }
        },
        Err(_) => {},
    }
}

/// Placing the first `n` outputs leaves the transactions packed with
/// what these outputs hold, as far as they are eligible.
pub proof fn lemma_pack_packed(
    sigset: SignatorySetView,
    inter: BitcoinTxView,
    outputs: Seq<OutputView>,
    n: int,
    config: CheckpointConfig,
    lock_time: u32,
)
    requires
        inter.output.len() == 0,
        0 <= n <= outputs.len(),
    ensures
        match pack(sigset, inter, seq![empty_tx(lock_time)], outputs, n, config, lock_time) {
            Err(_) => true,
            Ok((i, f)) => packed(
                i,
                f,
                eligible_sum(outputs, n, config.emergency_disbursal_min_tx_amt),
            ) && i.input == inter.input && i.lock_time == inter.lock_time,
        },
    decreases n,
{
    if n > 0 {
        lemma_pack_packed(sigset, inter, outputs, n - 1, config, lock_time);
        match pack(sigset, inter, seq![empty_tx(lock_time)], outputs, n - 1, config, lock_time) {
            Ok((i, f)) => {
                lemma_place_packed(
                    sigset,
                    i,
                    f,
                    outputs[n - 1],
                    config,
                    lock_time,
                    eligible_sum(outputs, n - 1, config.emergency_disbursal_min_tx_amt),
                );
            },
            Err(_) => {},
        }
    } else {
        assert(output_values(inter.output) =~= Seq::<int>::empty());
        assert(output_values(empty_tx(lock_time).output) =~= Seq::<int>::empty());
    }
}

/// What the reserve holds beyond the disbursal goes to one catch-all
/// output. Before miner fees are deducted, the intermediate transaction has
/// one output for each final transaction, which that final transaction
/// spends and which holds what it pays out; and one more, the last, which
/// no final transaction spends: it pays the signatory set, and holds the
/// reserve value less the amounts of all outputs that are eligible for the
/// disbursal. The intermediate transaction spends the reserve output.
pub proof fn law_residual_goes_to_the_catch_all(
    sigset: SignatorySetView,
    intermediate: BitcoinTxView,
    outputs: Seq<OutputView>,
    reserve_outpoint: OutPoint,
    reserve_value: u64,
    config: CheckpointConfig,
    lock_time: u32,
)
    requires
        intermediate.output.len() == 0,
        build_disbursal(
            sigset,
            intermediate,
            outputs,
            reserve_outpoint,
            reserve_value,
            config,
            lock_time,
        ).is_ok(),
    ensures
        ({
            let (i, f) = build_disbursal(
                sigset,
                intermediate,
                outputs,
                reserve_outpoint,
                reserve_value,
                config,
                lock_time,
            ).unwrap();
            let placed = eligible_sum(
                outputs,
                outputs.len() as int,
                config.emergency_disbursal_min_tx_amt,
            );
            &&& f.len() >= 1
            &&& i.output.len() == f.len() + 1
            &&& placed <= reserve_value
            &&& i.output.last().value == reserve_value - placed
            &&& sigset.output_script(
                reserve_dest(),
                config.sigset_threshold.0,
                config.sigset_threshold.1,
            ).is_ok()
            &&& i.output.last().script_pubkey == sigset.output_script(
                reserve_dest(),
                config.sigset_threshold.0,
                config.sigset_threshold.1,
            ).unwrap()
            &&& forall|k: int|
                0 <= k < f.len() ==> {
                    let tx = #[trigger] f[k];
                    &&& tx.input.len() == 1
                    &&& tx.input[0].prevout.vout == k
                    &&& tx.input[0].amount == i.output[k].value
                    &&& tx.value() == i.output[k].value
                }
            &&& i.lock_time == lock_time
            &&& i.input.len() == intermediate.input.len() + 1
            &&& i.input.last().prevout == reserve_outpoint
            &&& i.input.last().amount == reserve_value
        }),
{
    let num = config.sigset_threshold.0;
    let den = config.sigset_threshold.1;
    lemma_pack_packed(sigset, intermediate, outputs, outputs.len() as int, config, lock_time);
    let (packed_tx, finals) = pack(
        sigset,
        intermediate,
        seq![empty_tx(lock_time)],
        outputs,
        outputs.len() as int,
        config,
        lock_time,
    ).unwrap();
    let placed = eligible_sum(outputs, outputs.len() as int, config.emergency_disbursal_min_tx_amt);
    lemma_link_packed(sigset, packed_tx, finals, placed, num, den);
    let (linked, last) = link(sigset, packed_tx, finals.last(), num, den).unwrap();
    let (i, f) = build_disbursal(
        sigset,
        intermediate,
        outputs,
        reserve_outpoint,
        reserve_value,
        config,
        lock_time,
    ).unwrap();
    assert(f == finals.drop_last().push(last));
    lemma_value_nonneg(linked.output);
    let script = sigset.output_script(reserve_dest(), num, den).unwrap();
    let tx_in = InputView::fresh(reserve_outpoint, sigset, reserve_dest(), reserve_value, num, den).unwrap();
    assert(i.output == linked.output.push(
        OutputView { value: (reserve_value - linked.value()) as u64, script_pubkey: script },
    ));
    assert(i.input == linked.input.push(tx_in));
    assert(tx_in.prevout == reserve_outpoint && tx_in.amount == reserve_value);
    assert(linked.value() == placed);
    assert forall|k: int| 0 <= k < f.len() implies {
        let tx = #[trigger] f[k];
        &&& tx.input.len() == 1
        &&& tx.input[0].prevout.vout == k
        &&& tx.input[0].amount == i.output[k].value
        &&& tx.value() == i.output[k].value
    } by {
        if k < finals.len() - 1 {
            assert(f[k] == finals[k]);
            assert(linked.output[k] == packed_tx.output[k]);
        } else {
            assert(f[k] == last);
        }
    }
}

/// Setting the digests of the first `n` transactions changes the messages
/// of their signatures alone.
pub proof fn lemma_populate_txs_frame(txs: Seq<BitcoinTxView>, n: int)
    requires
        0 <= n <= txs.len(),
    ensures
        match populate_txs(txs, n) {
            Err(_) => true,
            Ok(after) => after.len() == txs.len() && forall|j: int|
                0 <= j < txs.len() ==> same_but_signatures(txs[j], #[trigger] after[j])
                    && after[j].output == txs[j].output,
        },
    decreases n,
{
    if n > 0 {
        lemma_populate_txs_frame(txs, n - 1);
        match populate_txs(txs, n - 1) {
            Ok(ts) => {
                lemma_populate_inputs_frame(ts[n - 1], ts[n - 1].input.len() as int);
                lemma_populate_txs_tail(txs, n - 1);
                match populate_txs(txs, n) {
                    Ok(after) => {
                        assert forall|j: int| 0 <= j < txs.len() implies same_but_signatures(
                            txs[j],
                            #[trigger] after[j],
                        ) && after[j].output == txs[j].output by {
                            if j != n - 1 {
                                assert(after[j] == ts[j]);
                            }
                        }
                    },
                    Err(_) => {},
                }
            },
            Err(_) => {},
        }
    } else {
        assert forall|j: int| 0 <= j < txs.len() implies same_but_signatures(txs[j], #[trigger] txs[j]) by {}
    }
}

/// Setting the digests of the first `n` transactions leaves the others as
/// they are.
pub proof fn lemma_populate_txs_tail(txs: Seq<BitcoinTxView>, n: int)
    requires
        0 <= n <= txs.len(),
    ensures
        match populate_txs(txs, n) {
            Err(_) => true,
            Ok(after) => after.len() == txs.len() && forall|j: int|
                n <= j < txs.len() ==> after[j] == txs[j],
        },
    decreases n,
{
    if n > 0 {
        lemma_populate_txs_tail(txs, n - 1);
    }
}

/// The emergency disbursal of a checkpoint holds no dangling input: when
/// the emergency disbursal transactions have been generated, each final
/// transaction spends, with its first input, an output that the intermediate
/// transaction has, by the identifier of the intermediate transaction and of
/// the amount that the output holds, and no two final transactions spend the
/// same output.
pub proof fn law_disbursal_leaves_no_dangling_input(
    cp: CheckpointView,
    now: u64,
    scripts: Seq<(Seq<char>, Seq<u8>)>,
    accounts: Seq<(Seq<char>, CoinView)>,
    reserve_outpoint: OutPoint,
    external: Seq<OutputView>,
    fee_rate: u64,
    reserve_value: u64,
    config: CheckpointConfig,
)
    requires
        cp.batches.len() == 3,
        cp.batches[1].batch.len() == 1,
        cp.generate_emergency_disbursal_txs(
            now,
            scripts,
            accounts,
            reserve_outpoint,
            external,
            fee_rate,
            reserve_value,
            config,
        ).is_ok(),
    ensures
        ({
            let after = cp.generate_emergency_disbursal_txs(
                now,
                scripts,
                accounts,
                reserve_outpoint,
                external,
                fee_rate,
                reserve_value,
                config,
            ).unwrap();
            let intermediate = after.batches[1].batch[0];
            &&& after.batches.len() == 3
            &&& after.batches[1].batch.len() == 1
            &&& after.batches[2] == cp.batches[2]
            &&& intermediate.txid().is_ok()
            &&& linked(intermediate.output, intermediate.txid().unwrap(), after.batches[0].batch)
            &&& intermediate.input.len() >= 1
            &&& intermediate.input.last().prevout == reserve_outpoint
            &&& intermediate.input.last().amount == reserve_value
        }),
{
    let lock_time = lock_time_at(now, config) as u32;
    let outputs = disbursal_outputs(cp.pending, scripts, accounts, external).unwrap();
    let (i, f) = build_disbursal(
        cp.sigset,
        cp.batches[1].batch[0],
        outputs,
        reserve_outpoint,
        reserve_value,
        config,
        lock_time,
    ).unwrap();
    let all = cp.batches[0].batch + f;
    law_settle_leaves_no_dangling_input(i, all, fee_rate);
    let (charged, kept) = settle(i, all, fee_rate).unwrap();
    lemma_populate_txs_frame(kept, kept.len() as int);
    let ready = populate_txs(kept, kept.len() as int).unwrap();
    lemma_populate_inputs_frame(charged, 1);
    let spending = charged.populate_input_sig_message(0).unwrap();
    assert(populate_inputs(charged, 0) == Ok::<_, ContractError>(charged));
    assert(populate_inputs(charged, 1) == Ok::<_, ContractError>(spending));
    assert(spending.txid() == charged.txid());
    let txid = charged.txid().unwrap();
    assert forall|k: int| 0 <= k < ready.len() implies {
        let tx = #[trigger] ready[k];
        &&& tx.input.len() > 0
        &&& tx.input[0].prevout.txid == txid
        &&& tx.input[0].prevout.vout < spending.output.len()
        &&& spending.output[tx.input[0].prevout.vout as int].value == tx.input[0].amount
    } by {
        assert(same_but_signatures(kept[k], ready[k]));
        assert(ready[k].input[0] == (InputView {
            signatures: ready[k].input[0].signatures,
            ..kept[k].input[0]
        }));
    }
    assert forall|j: int, k: int| 0 <= j < k < ready.len() implies (#[trigger] ready[j]).input[0].prevout.vout
        != (#[trigger] ready[k]).input[0].prevout.vout by {
        assert(same_but_signatures(kept[j], ready[j]));
        assert(same_but_signatures(kept[k], ready[k]));
        assert(ready[j].input[0] == (InputView {
            signatures: ready[j].input[0].signatures,
            ..kept[j].input[0]
        }));
        assert(ready[k].input[0] == (InputView {
            signatures: ready[k].input[0].signatures,
            ..kept[k].input[0]
        }));
        assert(kept[j].input[0].prevout.vout != kept[k].input[0].prevout.vout);
    }
    let after = cp.with_disbursal(spending, ready);
    assert(after.batches[1].batch =~= seq![spending]);
    // The intermediate transaction spends the reserve output with its last input.
    let num = config.sigset_threshold.0;
    let den = config.sigset_threshold.1;
    assert(spending.input.len() == i.input.len());
    assert(charged.input == i.input);
    let tx_in = InputView::fresh(reserve_outpoint, cp.sigset, reserve_dest(), reserve_value, num, den).unwrap();
    assert(i.input.last() == tx_in);
    assert(spending.input[spending.input.len() - 1] == (InputView {
        signatures: spending.input[spending.input.len() - 1].signatures,
        ..charged.input[spending.input.len() - 1]
    }));
}

/// Without miner fees, the catch-all output of the intermediate
/// transaction holds the whole residual: when the emergency disbursal
/// transactions of a checkpoint are generated at the fee rate zero, the last
/// output of the intermediate transaction pays the signatory set the reserve
/// value less the amounts of all outputs that are eligible for the
/// disbursal.
pub proof fn law_catch_all_without_fees(
    cp: CheckpointView,
    now: u64,
    scripts: Seq<(Seq<char>, Seq<u8>)>,
    accounts: Seq<(Seq<char>, CoinView)>,
    reserve_outpoint: OutPoint,
    external: Seq<OutputView>,
    reserve_value: u64,
    config: CheckpointConfig,
)
    requires
        cp.batches.len() == 3,
        cp.batches[1].batch.len() == 1,
        cp.batches[1].batch[0].output.len() == 0,
        cp.generate_emergency_disbursal_txs(
            now,
            scripts,
            accounts,
            reserve_outpoint,
            external,
            0,
            reserve_value,
            config,
        ).is_ok(),
    ensures
        ({
            let after = cp.generate_emergency_disbursal_txs(
                now,
                scripts,
                accounts,
                reserve_outpoint,
                external,
                0,
                reserve_value,
                config,
            ).unwrap();
            let outputs = disbursal_outputs(cp.pending, scripts, accounts, external).unwrap();
            let placed = eligible_sum(
                outputs,
                outputs.len() as int,
                config.emergency_disbursal_min_tx_amt,
            );
            let intermediate = after.batches[1].batch[0];
            &&& intermediate.output.len() >= 2
            &&& placed <= reserve_value
            &&& intermediate.output.last().value == reserve_value - placed
            &&& intermediate.output.last().script_pubkey == cp.sigset.output_script(
                reserve_dest(),
                config.sigset_threshold.0,
                config.sigset_threshold.1,
            ).unwrap()
        }),
{
    let lock_time = lock_time_at(now, config) as u32;
    let outputs = disbursal_outputs(cp.pending, scripts, accounts, external).unwrap();
    law_residual_goes_to_the_catch_all(
        cp.sigset,
        cp.batches[1].batch[0],
        outputs,
        reserve_outpoint,
        reserve_value,
        config,
        lock_time,
    );
    let (i, f) = build_disbursal(
        cp.sigset,
        cp.batches[1].batch[0],
        outputs,
        reserve_outpoint,
        reserve_value,
        config,
        lock_time,
    ).unwrap();
    let all = cp.batches[0].batch + f;
    let size = i.vsize().unwrap();
    assert(size * 0 == 0) by (nonlinear_arith);
    let (charged, kept) = settle(i, all, 0).unwrap();
    assert(charged == i);
    let ready = populate_txs(kept, kept.len() as int).unwrap();
    let spending = charged.populate_input_sig_message(0).unwrap();
    let after = cp.with_disbursal(spending, ready);
    assert(after.batches[1].batch =~= seq![spending]);
    assert(spending.output == i.output);
}

/// Whether the signatures of every input of every transaction can be
/// encoded for a witness.
pub open spec fn all_encodable(txs: Seq<BitcoinTxView>) -> bool {
    forall|k: int| 0 <= k < txs.len() ==> sigs_encodable(#[trigger] txs[k])
}

/// A transaction with one more input without signatures can still be encoded.
pub proof fn lemma_fresh_input_encodable(
    tx: BitcoinTxView,
    prevout: OutPoint,
    sigset: SignatorySetView,
    dest: Seq<u8>,
    amount: u64,
    num: u64,
    den: u64,
)
    requires
        sigs_encodable(tx),
        InputView::fresh(prevout, sigset, dest, amount, num, den).is_ok(),
    ensures
        sigs_encodable(
            BitcoinTxView {
                input: tx.input.push(
                    InputView::fresh(prevout, sigset, dest, amount, num, den).unwrap(),
                ),
                ..tx
            },
        ),
        InputView::fresh(prevout, sigset, dest, amount, num, den).unwrap().signatures.encodable(),
{
    let input = InputView::fresh(prevout, sigset, dest, amount, num, den).unwrap();
    assert(input.signatures.encodable());
    let longer = tx.input.push(input);
    assert forall|i: int| 0 <= i < longer.len() implies (#[trigger] longer[i]).signatures.encodable() by {
        if i < tx.input.len() {
            assert(longer[i] == tx.input[i]);
        }
    }
}

/// Linking keeps the signatures encodable.
pub proof fn lemma_link_encodable(
    sigset: SignatorySetView,
    inter: BitcoinTxView,
    tx: BitcoinTxView,
    num: u64,
    den: u64,
)
    requires
        sigs_encodable(tx),
    ensures
        match link(sigset, inter, tx, num, den) {
            Err(_) => true,
            Ok((linked, closed)) => sigs_encodable(closed) && linked.input == inter.input,
        },
{
    match link(sigset, inter, tx, num, den) {
        Ok((linked, closed)) => {
            let txid = inter.txid().unwrap();
            lemma_fresh_input_encodable(
                tx,
                OutPoint { txid, vout: inter.output.len() as u32 },
                sigset,
                reserve_dest(),
                tx.value() as u64,
                num,
                den,
            );
        },
        Err(_) => {},
    }
}

/// Packing keeps the signatures encodable.
pub proof fn lemma_pack_encodable(
    sigset: SignatorySetView,
    inter: BitcoinTxView,
    finals: Seq<BitcoinTxView>,
    outputs: Seq<OutputView>,
    n: int,
    config: CheckpointConfig,
    lock_time: u32,
)
    requires
        all_encodable(finals),
        0 <= n <= outputs.len(),
    ensures
        match pack(sigset, inter, finals, outputs, n, config, lock_time) {
            Err(_) => true,
            Ok((i, f)) => all_encodable(f) && i.input == inter.input,
        },
    decreases n,
{
    if n > 0 {
        lemma_pack_encodable(sigset, inter, finals, outputs, n - 1, config, lock_time);
        match pack(sigset, inter, finals, outputs, n - 1, config, lock_time) {
            Ok((i, f)) => {
                match place(sigset, i, f, outputs[n - 1], config, lock_time) {
                    Ok((i2, f2)) => {
                        if f2 != f {
                            assert(sigs_encodable(f.last()));
                            lemma_link_encodable(
                                sigset,
                                i,
                                f.last(),
                                config.sigset_threshold.0,
                                config.sigset_threshold.1,
                            );
                            assert forall|k: int| 0 <= k < f2.len() implies sigs_encodable(
                                #[trigger] f2[k],
                            ) by {
                                if k < f.len() - 1 {
                                    assert(f2[k] == f[k]);
                                }
                            }
                        }
                    },
                    Err(_) => {},
                }
            },
            Err(_) => {},
        }
    }
}

/// Deducting fees from the final transactions keeps the signatures encodable.
pub proof fn lemma_relink_all_encodable(
    finals: Seq<BitcoinTxView>,
    n: int,
    remaining: Seq<(u32, u64)>,
    txid: [u8; 32],
    share: u64,
    fee_rate: u64,
)
    requires
        all_encodable(finals),
        0 <= n <= finals.len(),
    ensures
        match relink_all(finals, n, remaining, txid, share, fee_rate) {
            Err(_) => true,
            Ok((kept, _)) => all_encodable(kept),
        },
    decreases n,
{
    if n > 0 {
        lemma_relink_all_encodable(finals, n - 1, remaining, txid, share, fee_rate);
        match relink_all(finals, n - 1, remaining, txid, share, fee_rate) {
            Ok((kept, rest)) => {
                match relink(kept, rest, finals[n - 1], txid, share, fee_rate) {
                    Ok((more, _)) => {
                        if more != kept {
                            let tx = finals[n - 1];
                            assert(sigs_encodable(tx));
                            let last = more[more.len() - 1];
                            assert forall|i: int| 0 <= i < last.input.len() implies (
                            #[trigger] last.input[i]).signatures.encodable() by {
                                assert(tx.input[i].signatures.encodable());
                            }
                            assert forall|k: int| 0 <= k < more.len() implies sigs_encodable(
                                #[trigger] more[k],
                            ) by {
                                if k < kept.len() {
                                    assert(more[k] == kept[k]);
                                }
                            }
                        }
                    },
                    Err(_) => {},
                }
            },
            Err(_) => {},
        }
    }
}

/// Setting digests keeps the signatures of all transactions encodable.
pub proof fn lemma_populate_txs_encodable(txs: Seq<BitcoinTxView>, n: int)
    requires
        all_encodable(txs),
        0 <= n <= txs.len(),
    ensures
        match populate_txs(txs, n) {
            Err(_) => true,
            Ok(after) => all_encodable(after),
        },
    decreases n,
{
    if n > 0 {
        lemma_populate_txs_encodable(txs, n - 1);
        lemma_populate_txs_tail(txs, n - 1);
        match populate_txs(txs, n - 1) {
            Ok(ts) => {
                lemma_populate_inputs_frame(ts[n - 1], ts[n - 1].input.len() as int);
                match populate_txs(txs, n) {
                    Ok(after) => {
                        assert forall|k: int| 0 <= k < after.len() implies sigs_encodable(
                            #[trigger] after[k],
                        ) by {
                            if k != n - 1 {
                                assert(after[k] == ts[k]);
                            } else {
                                assert(sigs_encodable(ts[n - 1]));
                            }
                        }
                    },
                    Err(_) => {},
                }
            },
            Err(_) => {},
        }
    }
}

/// What the library builds can go on the wire: a well-formed checkpoint
/// whose signatures can be encoded is, once it has been sealed, a checkpoint
/// whose signatures can be encoded. With the laws on signing, every
/// transaction of a checkpoint that was built from inputs without
/// signatures goes on the wire at every stage, and keeps its identifier
/// from the sealing on.
pub proof fn law_advance_keeps_encodable(
    cp: CheckpointView,
    now: u64,
    scripts: Seq<(Seq<char>, Seq<u8>)>,
    accounts: Seq<(Seq<char>, CoinView)>,
    external: Seq<OutputView>,
    commitment: Seq<u8>,
    cp_fees: u64,
    config: CheckpointConfig,
)
    requires
        cp.well_formed(),
        checkpoint_encodable(cp),
        cp.advance(now, scripts, accounts, external, commitment, cp_fees, config).is_ok(),
    ensures
        checkpoint_encodable(
            cp.advance(now, scripts, accounts, external, commitment, cp_fees, config).unwrap().0,
        ),
{
    let num = config.sigset_threshold.0;
    let den = config.sigset_threshold.1;
    let extra = cp.additional_outputs(config, commitment).unwrap();
    let tx = cp.first_tx(BatchType::Checkpoint).unwrap();
    assert(tx == cp.batches[2].batch[0]);
    assert(sigs_encodable(tx));
    let all = extra + tx.output;
    let n_in = crate::math::min_int(config.max_inputs as int, tx.input.len() as int);
    let n_out = crate::math::min_int(config.max_outputs as int, all.len() as int);
    let cut = BitcoinTxView { input: tx.input.take(n_in), output: all.take(n_out), ..tx };
    assert(crate::math::all_nonneg(output_values(cut.output)));
    crate::math::lemma_sum_upto_monotone(output_values(cut.output), 0, cut.output.len() as int);
    let reserve_value = (cut.input_value() - cut.value() - cp_fees) as u64;
    let sealed_tx = BitcoinTxView {
        output: cut.output.update(0, OutputView { value: reserve_value, ..cut.output[0] }),
        ..cut
    };
    assert forall|i: int| 0 <= i < sealed_tx.input.len() implies (
    #[trigger] sealed_tx.input[i]).signatures.encodable() by {
        assert(tx.input[i].signatures.encodable());
    }
    lemma_populate_inputs_frame(sealed_tx, sealed_tx.input.len() as int);
    let ready = populate_inputs(sealed_tx, sealed_tx.input.len() as int).unwrap();
    let cp1 = (CheckpointView { status: CheckpointStatus::Signing, ..cp }).with_first_tx(
        BatchType::Checkpoint,
        ready,
    );
    let outpoint = OutPoint { txid: ready.txid().unwrap(), vout: 0 };
    let sealed = cp1.generate_emergency_disbursal_txs(
        now,
        scripts,
        accounts,
        outpoint,
        external,
        cp.fee_rate,
        reserve_value,
        config,
    ).unwrap();
    assert(cp1.batches[2].batch =~= seq![ready]);
    assert(cp1.batches[0] == cp.batches[0]);
    assert(cp1.batches[1] == cp.batches[1]);
    assert(all_encodable(cp.batches[0].batch)) by {
        assert forall|k: int| 0 <= k < cp.batches[0].batch.len() implies sigs_encodable(
            #[trigger] cp.batches[0].batch[k],
        ) by {}
    }
    if cp1.batches[1].batch.len() == 0 {
        assert(sealed == cp1);
        assert forall|b: int, t: int|
            0 <= b < sealed.batches.len() && 0 <= t < sealed.batches[b].batch.len() implies sigs_encodable(
            #[trigger] sealed.batches[b].batch[t],
        ) by {
            if b == 2 {
                assert(sealed.batches[2].batch[t] == ready);
            } else {
                assert(sealed.batches[b].batch[t] == cp.batches[b].batch[t]);
            }
        }
    } else {
        let inter = cp.batches[1].batch[0];
        assert(sigs_encodable(inter));
        let lock_time = lock_time_at(now, config) as u32;
        let outputs = disbursal_outputs(cp1.pending, scripts, accounts, external).unwrap();
        let start = seq![empty_tx(lock_time)];
        assert(all_encodable(start)) by {
            assert forall|k: int| 0 <= k < start.len() implies sigs_encodable(#[trigger] start[k]) by {}
        }
        lemma_pack_encodable(
            cp.sigset,
            inter,
            start,
            outputs,
            outputs.len() as int,
            config,
            lock_time,
        );
        let (packed_tx, finals) = pack(
            cp.sigset,
            inter,
            start,
            outputs,
            outputs.len() as int,
            config,
            lock_time,
        ).unwrap();
        lemma_pack_nonempty(cp.sigset, inter, start, outputs, outputs.len() as int, config, lock_time);
        assert(sigs_encodable(finals.last()));
        lemma_link_encodable(cp.sigset, packed_tx, finals.last(), num, den);
        let (linked, last) = link(cp.sigset, packed_tx, finals.last(), num, den).unwrap();
        let (i, f) = build_disbursal(
            cp.sigset,
            inter,
            outputs,
            outpoint,
            reserve_value,
            config,
            lock_time,
        ).unwrap();
        assert(f == finals.drop_last().push(last));
        assert(sigs_encodable(BitcoinTxView { input: inter.input, ..i })) by {
            assert forall|j: int| 0 <= j < inter.input.len() implies (
            #[trigger] inter.input[j]).signatures.encodable() by {}
        }
        lemma_fresh_input_encodable(
            BitcoinTxView { input: inter.input, ..i },
            outpoint,
            cp.sigset,
            reserve_dest(),
            reserve_value,
            num,
            den,
        );
        assert(sigs_encodable(i));
        let both = cp.batches[0].batch + f;
        assert(all_encodable(both)) by {
            assert forall|k: int| 0 <= k < both.len() implies sigs_encodable(#[trigger] both[k]) by {
                if k < cp.batches[0].batch.len() {
                    assert(both[k] == cp.batches[0].batch[k]);
                } else {
                    let j = k - cp.batches[0].batch.len();
                    assert(both[k] == f[j]);
                    if j < finals.len() - 1 {
                        assert(f[j] == finals[j]);
                    }
                }
            }
        }
        let (charged, kept) = settle(i, both, cp.fee_rate).unwrap();
        assert(charged.input == i.input);
        if charged.output.len() > 0 {
            let size = i.vsize().unwrap();
            let fee = (size * cp.fee_rate) as u64;
            lemma_relink_all_encodable(
                both,
                both.len() as int,
                numbered(charged.output),
                charged.txid().unwrap(),
                (fee as int / charged.output.len() as int) as u64,
                cp.fee_rate,
            );
        }
        assert(all_encodable(kept));
        lemma_populate_txs_encodable(kept, kept.len() as int);
        let done = populate_txs(kept, kept.len() as int).unwrap();
        assert(sigs_encodable(charged)) by {
            assert forall|j: int| 0 <= j < charged.input.len() implies (
            #[trigger] charged.input[j]).signatures.encodable() by {
                assert(i.input[j].signatures.encodable());
            }
        }
        assert(populate_inputs(charged, 0) == Ok::<_, ContractError>(charged));
        lemma_populate_inputs_frame(charged, 1);
        let spending = charged.populate_input_sig_message(0).unwrap();
        assert(sealed == cp1.with_disbursal(spending, done));
        assert(sealed.batches[1].batch =~= seq![spending]);
        assert forall|b: int, t: int|
            0 <= b < sealed.batches.len() && 0 <= t < sealed.batches[b].batch.len() implies sigs_encodable(
            #[trigger] sealed.batches[b].batch[t],
        ) by {
            if b == 2 {
                assert(sealed.batches[2].batch[t] == ready);
            } else if b == 1 {
                assert(sealed.batches[1].batch[t] == spending);
            } else {
                assert(sealed.batches[0].batch[t] == done[t]);
            }
        }
    }
}

/// Packing leaves at least one final transaction.
pub proof fn lemma_pack_nonempty(
    sigset: SignatorySetView,
    inter: BitcoinTxView,
    finals: Seq<BitcoinTxView>,
    outputs: Seq<OutputView>,
    n: int,
    config: CheckpointConfig,
    lock_time: u32,
)
    requires
        finals.len() >= 1,
        0 <= n <= outputs.len(),
    ensures
        match pack(sigset, inter, finals, outputs, n, config, lock_time) {
            Err(_) => true,
            Ok((_, f)) => f.len() >= 1,
        },
    decreases n,
{
    if n > 0 {
        lemma_pack_nonempty(sigset, inter, finals, outputs, n - 1, config, lock_time);
    }
}

} // verus!
