//! What holds of the library as a whole, proved from the definitions.

use vstd::prelude::*;
use crate::checkpoint::{
    lemma_signed_from_bound, signed_from, BatchView, CheckpointStatus, CheckpointView,
};
use crate::interface::{CoinView, Validator};
use crate::queue::CheckpointQueueView;
use crate::scheduling::{backfilled, pruned};
use crate::signatory::SignatorySetView;
use crate::error::ContractError;
use crate::keys::{signatory_key, Pubkey, Signature, Xpub};
use crate::math::{
    lemma_sum_push, lemma_sum_upto_monotone, lemma_sum_upto_update, lemma_sum_upto_zeros, sum,
    sum_upto,
};
use crate::signatory::{bytes_above, outranks, rank_from, ranked, ranked_insert, Signatory};
use crate::signing::{
    collect_batches, collect_inputs, collect_txs, sign_batch, sign_batches, sign_input,
    sign_inputs, sign_tx, sign_txs,
};
use crate::threshold_sig::{filled_powers, slot_from, Share, ThresholdSigView};
use crate::tx::{
    adjusted_value, charged, fee_rounds, least_adjusted, lemma_fee_rounds_payable,
    lemma_least_adjusted_upto, lemma_paying_upto, lemma_round_shrinks, output_values, paying,
    paying_upto, BitcoinTxView, InputView, OutputView,
};

verus! {

/// The batches before the first unsigned one are signed, and that one is not.
pub proof fn lemma_signed_prefix(batches: Seq<BatchView>, start: int)
    requires
        0 <= start <= batches.len(),
    ensures
        forall|i: int|
            start <= i < start + signed_from(batches, start) ==> (#[trigger] batches[i]).signed(),
        start + signed_from(batches, start) < batches.len() ==> !batches[start + signed_from(
            batches,
            start,
        )].signed(),
        0 <= signed_from(batches, start) <= batches.len() - start,
    decreases batches.len() - start,
{
    if start < batches.len() && batches[start].signed() {
        lemma_signed_prefix(batches, start + 1);
    }
}

/// What offering signatures to the first `n` batches leaves as it was:
/// every batch from `n` on, and every batch behind the first unsigned one.
/// Batches stay open to signatures exactly as long as all before are signed.
pub proof fn lemma_sign_batches_frame(
    batches: Seq<BatchView>,
    n: int,
    xpub: Seq<u8>,
    sigs: Seq<Signature>,
    next: int,
)
    requires
        0 <= n <= batches.len(),
    ensures
        match sign_batches(batches, n, xpub, sigs, next) {
            Err(_) => true,
            Ok((after, _, open)) => {
                &&& after.len() == batches.len()
                &&& forall|j: int| n <= j < batches.len() ==> after[j] == batches[j]
                &&& forall|j: int|
                    signed_from(batches, 0) < j < batches.len() ==> after[j] == batches[j]
                &&& open == (n <= signed_from(batches, 0))
            },
        },
    decreases n,
{
    lemma_signed_prefix(batches, 0);
    if n > 0 {
        lemma_sign_batches_frame(batches, n - 1, xpub, sigs, next);
    }
}

/// A checkpoint has no more signed batches than batches.
pub proof fn law_signed_batches_bounded(cp: CheckpointView)
    ensures
        0 <= cp.signed_batches() <= cp.batches.len(),
{
    lemma_signed_from_bound(cp.batches, 0);
}

/// Batches are signed in order: a submission of signatures leaves every
/// batch behind the first unsigned one as it was, so a batch can become
/// signed only when all batches before it are signed already.
pub proof fn law_batches_signed_in_order(
    cp: CheckpointView,
    xpub: Seq<u8>,
    sigs: Seq<Signature>,
    btc_height: u32,
    j: int,
)
    requires
        cp.sign(xpub, sigs, btc_height).is_ok(),
        0 <= j < cp.batches.len(),
    ensures
        cp.sign(xpub, sigs, btc_height).unwrap().batches.len() == cp.batches.len(),
        cp.signed_batches() < j ==> cp.sign(xpub, sigs, btc_height).unwrap().batches[j]
            == cp.batches[j],
        cp.sign(xpub, sigs, btc_height).unwrap().batches[j].signed() && !cp.batches[j].signed()
            ==> forall|i: int| 0 <= i < j ==> (#[trigger] cp.batches[i]).signed(),
{
    lemma_sign_batches_frame(cp.batches, cp.batches.len() as int, xpub, sigs, 0);
    lemma_signed_prefix(cp.batches, 0);
}

/// The slot of a key depends on the keys of the slots alone.
pub proof fn lemma_slot_from_keys(
    s: Seq<(Pubkey, Share)>,
    t: Seq<(Pubkey, Share)>,
    pubkey: Pubkey,
    start: int,
)
    requires
        s.len() == t.len(),
        forall|j: int| 0 <= j < s.len() ==> (#[trigger] s[j]).0 == t[j].0,
    ensures
        slot_from(s, pubkey, start) == slot_from(t, pubkey, start),
    decreases s.len() - start,
{
    if 0 <= start < s.len() {
        assert(s[start].0 == t[start].0);
        if s[start].0 != pubkey {
            lemma_slot_from_keys(s, t, pubkey, start + 1);
        }
    }
}

/// The slot of a key, if there is one, is a position of the key.
pub proof fn lemma_slot_from_found(s: Seq<(Pubkey, Share)>, pubkey: Pubkey, start: int)
    requires
        0 <= start,
    ensures
        match slot_from(s, pubkey, start) {
            Some(i) => start <= i < s.len() && s[i].0 == pubkey,
            None => true,
        },
    decreases s.len() - start,
{
    if start < s.len() && s[start].0 != pubkey {
        lemma_slot_from_found(s, pubkey, start + 1);
    }
}

/// A slot is filled once: after a key has signed, every further signature
/// under that key is rejected, whatever it is, and the key no longer awaits one.
pub proof fn law_filled_slot_rejects(
    ts: ThresholdSigView,
    pubkey: Pubkey,
    sig: Signature,
    again: Signature,
)
    requires
        ts.sign(pubkey, sig).is_ok(),
    ensures
        ts.sign(pubkey, sig).unwrap().sign(pubkey, again) == Err::<ThresholdSigView, _>(
            ContractError::AlreadySigned,
        ),
        !ts.sign(pubkey, sig).unwrap().needs_sig(pubkey),
{
    let after = ts.sign(pubkey, sig).unwrap();
    lemma_slot_from_found(ts.sigs, pubkey, 0);
    lemma_slot_from_keys(ts.sigs, after.sigs, pubkey, 0);
}

/// A signature touches one slot alone: all other slots stay as they are,
/// and the filled slot holds the signature under the same key and weight.
pub proof fn law_sign_fills_one_slot(ts: ThresholdSigView, pubkey: Pubkey, sig: Signature, j: int)
    requires
        ts.sign(pubkey, sig).is_ok(),
        0 <= j < ts.sigs.len(),
    ensures
        ts.sign(pubkey, sig).unwrap().sigs.len() == ts.sigs.len(),
        ts.slot(pubkey) != Some(j) ==> ts.sign(pubkey, sig).unwrap().sigs[j] == ts.sigs[j],
        ts.slot(pubkey) == Some(j) ==> ts.sign(pubkey, sig).unwrap().sigs[j] == (
            pubkey,
            Share { power: ts.sigs[j].1.power, sig: Some(sig) },
        ) && ts.sigs[j].1.sig.is_none(),
        ts.sign(pubkey, sig).unwrap().message == ts.message,
        ts.sign(pubkey, sig).unwrap().threshold == ts.threshold,
{
    lemma_slot_from_found(ts.sigs, pubkey, 0);
}

/// A new threshold signature records no weight, and that is the weight of
/// its filled slots, of which there are none.
pub proof fn law_fresh_is_well_formed(sigs: Seq<(Pubkey, Share)>, num: u64, den: u64)
    requires
        ThresholdSigView::fresh(sigs, num, den).is_ok(),
    ensures
        ThresholdSigView::fresh(sigs, num, den).unwrap().well_formed(),
        ThresholdSigView::fresh(sigs, num, den).unwrap().signed == 0,
        forall|j: int|
            0 <= j < sigs.len() ==> (#[trigger] ThresholdSigView::fresh(
                sigs,
                num,
                den,
            ).unwrap().sigs[j]).1.sig.is_none(),
{
    let ts = ThresholdSigView::fresh(sigs, num, den).unwrap();
    lemma_sum_upto_zeros(filled_powers(ts.sigs), ts.sigs.len() as int);
}

/// The recorded weight stays the summed weight of the filled slots when a
/// signature is taken, so that a threshold signature is signed if and only
/// if the weight of its filled slots reaches the threshold.
pub proof fn law_sign_keeps_well_formed(ts: ThresholdSigView, pubkey: Pubkey, sig: Signature)
    requires
        ts.well_formed(),
        ts.sign(pubkey, sig).is_ok(),
    ensures
        ts.sign(pubkey, sig).unwrap().well_formed(),
        ts.sign(pubkey, sig).unwrap().signed() == (sum(
            filled_powers(ts.sign(pubkey, sig).unwrap().sigs),
        ) >= ts.threshold),
{
    let after = ts.sign(pubkey, sig).unwrap();
    lemma_slot_from_found(ts.sigs, pubkey, 0);
    let i = ts.slot(pubkey).unwrap();
    assert(filled_powers(after.sigs) =~= filled_powers(ts.sigs).update(
        i,
        ts.sigs[i].1.power as int,
    ));
    lemma_sum_upto_update(
        filled_powers(ts.sigs),
        i,
        ts.sigs[i].1.power as int,
        ts.sigs.len() as int,
    );
}

/// An input that has taken a signature of a signatory takes no second
/// one: offered signatures again, it stays as it is and uses none of them.
pub proof fn law_signed_input_takes_nothing(
    input: InputView,
    xpub: Seq<u8>,
    sigs: Seq<Signature>,
    next: int,
    more: Seq<Signature>,
    k: int,
)
    requires
        sign_input(input, xpub, sigs, next).is_ok(),
        sign_input(input, xpub, sigs, next).unwrap().1 == next + 1,
    ensures
        sign_input(sign_input(input, xpub, sigs, next).unwrap().0, xpub, more, k) == Ok::<
            _,
            ContractError,
        >((sign_input(input, xpub, sigs, next).unwrap().0, k, false)),
{
    let key = signatory_key(xpub, input.sigset_index).unwrap();
    law_filled_slot_rejects(input.signatures, Pubkey { bytes: key }, sigs[next], sigs[next]);
}

/// Deducting no fee changes nothing.
pub proof fn law_deduct_fee_zero(tx: BitcoinTxView)
    ensures
        tx.deduct_fee(0) == Ok::<_, ContractError>(tx),
{
}

/// A fee above the summed amounts of the outputs cannot be deducted; this
/// holds of every fee above zero where there are no outputs.
pub proof fn law_deduct_fee_above_value(tx: BitcoinTxView, fee: u64)
    requires
        fee > tx.value(),
    ensures
        tx.deduct_fee(fee) == Err::<BitcoinTxView, _>(ContractError::BitcoinFee(fee)),
{
    lemma_sum_upto_monotone(output_values(tx.output), 0, tx.output.len() as int);
}

/// A fee that is deducted is covered by what the outputs held together,
/// and is deducted whenever it is.
pub proof fn law_deduct_fee_within_value(tx: BitcoinTxView, fee: u64)
    ensures
        tx.deduct_fee(fee).is_ok() <==> fee <= tx.value(),
{
    lemma_sum_upto_monotone(output_values(tx.output), 0, tx.output.len() as int);
}

/// The order of byte strings of one length is transitive, and no string
/// comes after itself or after one that comes after it.
pub proof fn lemma_bytes_above_order(a: Seq<u8>, b: Seq<u8>, c: Seq<u8>, from: int)
    requires
        a.len() == b.len(),
        b.len() == c.len(),
        0 <= from,
    ensures
        bytes_above(a, b, from) && bytes_above(b, c, from) ==> bytes_above(a, c, from),
        !(bytes_above(a, b, from) && bytes_above(b, a, from)),
        !bytes_above(a, b, from) && !bytes_above(b, a, from) ==> forall|i: int|
            from <= i < a.len() ==> a[i] == b[i],
    decreases a.len() - from,
{
    if from < a.len() {
        lemma_bytes_above_order(a, b, c, from + 1);
    }
}

/// The order of signatories is transitive, and no signatory outranks
/// itself or one that outranks it.
pub proof fn lemma_outranks_order(a: Signatory, b: Signatory, c: Signatory)
    ensures
        outranks(a, b) && outranks(b, c) ==> outranks(a, c),
        !(outranks(a, b) && outranks(b, a)),
        !outranks(a, b) && !outranks(b, a) ==> a == b,
{
    lemma_bytes_above_order(a.pubkey.bytes@, b.pubkey.bytes@, c.pubkey.bytes@, 0);
    if !outranks(a, b) && !outranks(b, a) {
        assert(a.pubkey.bytes =~= b.pubkey.bytes);
    }
}

/// Whether no member is outranked by one behind it.
pub open spec fn ordered(s: Seq<Signatory>) -> bool {
    forall|i: int, j: int| 0 <= i < j < s.len() ==> !outranks(#[trigger] s[j], #[trigger] s[i])
}

/// The rank of a candidate: it outranks none of the members before it, and
/// the member at its rank, if there is one.
pub proof fn lemma_rank_from(s: Seq<Signatory>, x: Signatory, start: int)
    requires
        0 <= start <= s.len(),
    ensures
        start <= rank_from(s, x, start) <= s.len(),
        forall|i: int| start <= i < rank_from(s, x, start) ==> !outranks(x, #[trigger] s[i]),
        rank_from(s, x, start) < s.len() ==> outranks(x, s[rank_from(s, x, start)]),
    decreases s.len() - start,
{
    if start < s.len() && !outranks(x, s[start]) {
        lemma_rank_from(s, x, start + 1);
    }
}

/// A candidate that is put in at its rank leaves the members in order.
pub proof fn lemma_ranked_insert_ordered(s: Seq<Signatory>, x: Signatory)
    requires
        ordered(s),
    ensures
        ordered(ranked_insert(s, x)),
        ranked_insert(s, x).len() == s.len() + 1,
{
    lemma_rank_from(s, x, 0);
    let p = rank_from(s, x, 0);
    let t = ranked_insert(s, x);
    assert forall|i: int, j: int| 0 <= i < j < t.len() implies !outranks(
        #[trigger] t[j],
        #[trigger] t[i],
    ) by {
        if j == p {
            assert(t[i] == s[i]);
        } else if i == p {
            assert(t[j] == s[j - 1]);
            lemma_outranks_order(s[j - 1], x, s[p]);
            if j - 1 > p {
                assert(!outranks(s[j - 1], s[p]));
            }
        } else {
            let a = if i < p {
                i
            } else {
                i - 1
            };
            let b = if j < p {
                j
            } else {
                j - 1
            };
            assert(t[i] == s[a] && t[j] == s[b]);
            assert(!outranks(s[b], s[a]));
        }
    }
}

/// The members of a signatory set stand in order: heavier before lighter,
/// and among equal weights the greater key first.
pub proof fn law_ranked_is_ordered(s: Seq<Signatory>, n: int)
    requires
        0 <= n <= s.len(),
    ensures
        ordered(ranked(s, n)),
        ranked(s, n).len() == n,
    decreases n,
{
    if n > 0 {
        law_ranked_is_ordered(s, n - 1);
        lemma_ranked_insert_ordered(ranked(s, n - 1), s[n - 1]);
    }
}

/// The members of a signatory set are the candidates: every candidate is a
/// member, and every member is a candidate.
pub proof fn law_ranked_holds_the_candidates(s: Seq<Signatory>, n: int)
    requires
        0 <= n <= s.len(),
    ensures
        forall|i: int| 0 <= i < n ==> ranked(s, n).contains(#[trigger] s[i]),
        forall|j: int|
            0 <= j < ranked(s, n).len() ==> exists|i: int|
                0 <= i < n && s[i] == #[trigger] ranked(s, n)[j],
    decreases n,
{
    if n > 0 {
        law_ranked_holds_the_candidates(s, n - 1);
        law_ranked_is_ordered(s, n - 1);
        let r = ranked(s, n - 1);
        let x = s[n - 1];
        lemma_rank_from(r, x, 0);
        let p = rank_from(r, x, 0);
        let t = ranked(s, n);
        assert forall|i: int| 0 <= i < n implies t.contains(#[trigger] s[i]) by {
            if i == n - 1 {
                assert(t[p] == x);
            } else {
                let k = choose|k: int| 0 <= k < r.len() && r[k] == s[i];
                if k < p {
                    assert(t[k] == r[k]);
                } else {
                    assert(t[k + 1] == r[k]);
                }
            }
        }
        assert forall|j: int| 0 <= j < t.len() implies exists|i: int|
            0 <= i < n && s[i] == #[trigger] t[j] by {
            if j == p {
                assert(s[n - 1] == t[j]);
            } else {
                let k = if j < p {
                    j
                } else {
                    j - 1
                };
                assert(t[j] == r[k]);
                let i = choose|i: int| 0 <= i < n - 1 && s[i] == r[k];
                assert(0 <= i < n && s[i] == t[j]);
            }
        }
    }
}

/// The number of the first `n` inputs whose signatures reach the threshold.
pub open spec fn signed_among(inputs: Seq<InputView>, n: int) -> int
    decreases n,
{
    if n <= 0 {
        0
    } else {
        signed_among(inputs, n - 1) + if inputs[n - 1].signatures.signed() {
            1int
        } else {
            0int
        }
    }
}

/// Whether the transaction counts as signed exactly those of its inputs
/// whose signatures reach the threshold.
pub open spec fn tx_counted(tx: BitcoinTxView) -> bool {
    tx.signed_inputs == signed_among(tx.input, tx.input.len() as int)
}

/// The number of the first `n` transactions that have inputs and are signed.
pub open spec fn done_among(txs: Seq<BitcoinTxView>, n: int) -> int
    decreases n,
{
    if n <= 0 {
        0
    } else {
        done_among(txs, n - 1) + if txs[n - 1].signed() && txs[n - 1].input.len() > 0 {
            1int
        } else {
            0int
        }
    }
}

/// Whether the batch counts as signed exactly those of its transactions
/// that have inputs and are signed, and each transaction its signed inputs.
pub open spec fn batch_counted(batch: BatchView) -> bool {
    &&& batch.signed_txs == done_among(batch.batch, batch.batch.len() as int)
    &&& forall|i: int| 0 <= i < batch.batch.len() ==> tx_counted(#[trigger] batch.batch[i])
}

/// The count of signed inputs among the first `n` depends on these alone,
/// lies between zero and `n`, and is `n` only if all of them are signed.
pub proof fn lemma_signed_among(a: Seq<InputView>, b: Seq<InputView>, n: int)
    requires
        0 <= n <= a.len(),
        n <= b.len(),
        forall|i: int| 0 <= i < n ==> a[i].signatures.signed() == b[i].signatures.signed(),
    ensures
        signed_among(a, n) == signed_among(b, n),
        0 <= signed_among(a, n) <= n,
        signed_among(a, n) == n <==> forall|i: int|
            0 <= i < n ==> (#[trigger] a[i]).signatures.signed(),
    decreases n,
{
    if n > 0 {
        lemma_signed_among(a, b, n - 1);
    }
}

/// The count of signed inputs does not fall when inputs stay signed.
pub proof fn lemma_signed_among_grows(a: Seq<InputView>, b: Seq<InputView>, n: int)
    requires
        0 <= n <= a.len(),
        n <= b.len(),
        forall|i: int| 0 <= i < n && a[i].signatures.signed() ==> b[i].signatures.signed(),
    ensures
        signed_among(a, n) <= signed_among(b, n),
    decreases n,
{
    if n > 0 {
        lemma_signed_among_grows(a, b, n - 1);
    }
}

/// The count of signed transactions among the first `n` depends on these alone.
pub proof fn lemma_done_among(a: Seq<BitcoinTxView>, b: Seq<BitcoinTxView>, n: int)
    requires
        0 <= n <= a.len(),
        n <= b.len(),
        forall|i: int| 0 <= i < n ==> a[i] == b[i],
    ensures
        done_among(a, n) == done_among(b, n),
    decreases n,
{
    if n > 0 {
        lemma_done_among(a, b, n - 1);
    }
}

/// What offering signatures to one input does to it: an input that was
/// signed stays signed, and one that was not becomes signed exactly when
/// the offer reports so.
pub proof fn lemma_sign_input_counts(input: InputView, xpub: Seq<u8>, sigs: Seq<Signature>, next: int)
    ensures
        match sign_input(input, xpub, sigs, next) {
            Err(_) => true,
            Ok((after, _, completed)) => {
                &&& completed == (!input.signatures.signed() && after.signatures.signed())
                &&& input.signatures.signed() ==> after.signatures.signed()
            },
        },
{
}

/// What offering signatures to the first `n` inputs does to a transaction:
/// the other inputs stay as they are, signed inputs stay signed, and the
/// count of signed inputs rises by the number of inputs that became signed.
pub proof fn lemma_sign_inputs_counts(
    tx: BitcoinTxView,
    n: int,
    xpub: Seq<u8>,
    sigs: Seq<Signature>,
    next: int,
)
    requires
        0 <= n <= tx.input.len(),
    ensures
        match sign_inputs(tx, n, xpub, sigs, next) {
            Err(_) => true,
            Ok((after, _)) => {
                &&& after.input.len() == tx.input.len()
                &&& forall|j: int| n <= j < tx.input.len() ==> after.input[j] == tx.input[j]
                &&& forall|j: int|
                    0 <= j < tx.input.len() && (#[trigger] tx.input[j]).signatures.signed()
                        ==> after.input[j].signatures.signed()
                &&& after.signed_inputs - tx.signed_inputs == signed_among(after.input, n)
                    - signed_among(tx.input, n)
            },
        },
    decreases n,
{
    if n > 0 {
        lemma_sign_inputs_counts(tx, n - 1, xpub, sigs, next);
        match sign_inputs(tx, n - 1, xpub, sigs, next) {
            Ok((t, k)) => {
                lemma_sign_input_counts(t.input[n - 1], xpub, sigs, k);
                match sign_inputs(tx, n, xpub, sigs, next) {
                    Ok((after, _)) => {
                        lemma_signed_among(t.input, after.input, n - 1);
                    },
                    Err(_) => {},
                }
            },
            Err(_) => {},
        }
    }
}

/// A transaction that counts its signed inputs still does so after
/// signatures were offered to it; if it was signed it stays signed, and if
/// it became signed it has inputs.
pub proof fn lemma_sign_tx_counts(tx: BitcoinTxView, xpub: Seq<u8>, sigs: Seq<Signature>, next: int)
    requires
        tx_counted(tx),
    ensures
        match sign_tx(tx, xpub, sigs, next) {
            Err(_) => true,
            Ok((after, _)) => {
                &&& tx_counted(after)
                &&& after.input.len() == tx.input.len()
                &&& tx.signed() ==> after.signed()
                &&& after.signed() && !tx.signed() ==> after.input.len() > 0
            },
        },
{
    let n = tx.input.len() as int;
    lemma_sign_inputs_counts(tx, n, xpub, sigs, next);
    match sign_tx(tx, xpub, sigs, next) {
        Ok((after, _)) => {
            lemma_signed_among(tx.input, tx.input, n);
            lemma_signed_among(after.input, after.input, n);
            lemma_signed_among_grows(tx.input, after.input, n);
        },
        Err(_) => {},
    }
}

/// What offering signatures to the first `n` transactions does to a batch
/// that counts what is signed: the other transactions stay as they are,
/// every transaction still counts its signed inputs, and the count of signed
/// transactions rises by the number of transactions that became signed.
pub proof fn lemma_sign_txs_counts(
    batch: BatchView,
    n: int,
    xpub: Seq<u8>,
    sigs: Seq<Signature>,
    next: int,
)
    requires
        0 <= n <= batch.batch.len(),
        forall|i: int| 0 <= i < batch.batch.len() ==> tx_counted(#[trigger] batch.batch[i]),
    ensures
        match sign_txs(batch, n, xpub, sigs, next) {
            Err(_) => true,
            Ok((after, _)) => {
                &&& after.batch.len() == batch.batch.len()
                &&& forall|j: int| n <= j < batch.batch.len() ==> after.batch[j] == batch.batch[j]
                &&& forall|j: int|
                    0 <= j < batch.batch.len() ==> tx_counted(#[trigger] after.batch[j])
                &&& after.signed_txs - batch.signed_txs == done_among(after.batch, n) - done_among(
                    batch.batch,
                    n,
                )
            },
        },
    decreases n,
{
    if n > 0 {
        lemma_sign_txs_counts(batch, n - 1, xpub, sigs, next);
        match sign_txs(batch, n - 1, xpub, sigs, next) {
            Ok((b, k)) => {
                lemma_sign_tx_counts(b.batch[n - 1], xpub, sigs, k);
                match sign_txs(batch, n, xpub, sigs, next) {
                    Ok((after, _)) => {
                        lemma_done_among(b.batch, after.batch, n - 1);
                        lemma_signed_among(
                            batch.batch[n - 1].input,
                            batch.batch[n - 1].input,
                            batch.batch[n - 1].input.len() as int,
                        );
                    },
                    Err(_) => {},
                }
            },
            Err(_) => {},
        }
    }
}

/// The counters of a batch stay true under signing: a batch that counts
/// as signed exactly its signed transactions, each of which counts exactly
/// its signed inputs, still does so after signatures were offered to it.
pub proof fn law_sign_batch_keeps_counts(
    batch: BatchView,
    xpub: Seq<u8>,
    sigs: Seq<Signature>,
    next: int,
)
    requires
        batch_counted(batch),
        sign_batch(batch, xpub, sigs, next).is_ok(),
    ensures
        batch_counted(sign_batch(batch, xpub, sigs, next).unwrap().0),
{
    lemma_sign_txs_counts(batch, batch.batch.len() as int, xpub, sigs, next);
}

/// The counters of a checkpoint stay true under signing: if every batch
/// counts what is signed in it, every batch still does so after a
/// submission of signatures.
pub proof fn law_sign_keeps_counts(
    cp: CheckpointView,
    xpub: Seq<u8>,
    sigs: Seq<Signature>,
    btc_height: u32,
)
    requires
        forall|i: int| 0 <= i < cp.batches.len() ==> batch_counted(#[trigger] cp.batches[i]),
        cp.sign(xpub, sigs, btc_height).is_ok(),
    ensures
        forall|i: int|
            0 <= i < cp.batches.len() ==> batch_counted(
                #[trigger] cp.sign(xpub, sigs, btc_height).unwrap().batches[i],
            ),
{
    lemma_sign_batches_counts(cp.batches, cp.batches.len() as int, xpub, sigs, 0);
}

/// What offering signatures to the first `n` batches keeps: the number of
/// batches, and the counters of every batch.
pub proof fn lemma_sign_batches_counts(
    batches: Seq<BatchView>,
    n: int,
    xpub: Seq<u8>,
    sigs: Seq<Signature>,
    next: int,
)
    requires
        0 <= n <= batches.len(),
        forall|i: int| 0 <= i < batches.len() ==> batch_counted(#[trigger] batches[i]),
    ensures
        match sign_batches(batches, n, xpub, sigs, next) {
            Err(_) => true,
            Ok((after, _, _)) => {
                &&& after.len() == batches.len()
                &&& forall|i: int| 0 <= i < batches.len() ==> batch_counted(#[trigger] after[i])
            },
        },
    decreases n,
{
    if n > 0 {
        lemma_sign_batches_counts(batches, n - 1, xpub, sigs, next);
        match sign_batches(batches, n - 1, xpub, sigs, next) {
            Ok((bs, k, open)) => {
                if open {
                    lemma_sign_txs_counts(bs[n - 1], bs[n - 1].batch.len() as int, xpub, sigs, k);
                }
            },
            Err(_) => {},
        }
    }
}

/// A new checkpoint counts what is signed in it: nothing.
pub proof fn law_fresh_checkpoint_counts(sigset: SignatorySetView, i: int)
    requires
        0 <= i < 3,
    ensures
        CheckpointView::fresh(sigset).batches.len() == 3,
        batch_counted(CheckpointView::fresh(sigset).batches[i]),
        CheckpointView::fresh(sigset).status == CheckpointStatus::Building,
{
    let batch = CheckpointView::fresh(sigset).batches[i];
    if i > 0 {
        assert(batch.batch.len() == 1);
        assert(done_among(batch.batch, 1) == done_among(batch.batch, 0) + 0);
    }
}

/// Whether the checkpoints of the queue stand in the order of their
/// states: the last one is being built, the one before it is being signed
/// or complete, and all before that are complete; and the queue holds no
/// more checkpoints than were ever opened.
pub open spec fn queue_in_order(q: CheckpointQueueView) -> bool {
    &&& q.queue.len() <= q.index + 1
    &&& q.queue.len() > 0 ==> q.queue.last().status == CheckpointStatus::Building
    &&& q.queue.len() >= 2 ==> q.queue[q.queue.len() - 2].status != CheckpointStatus::Building
    &&& forall|i: int|
        0 <= i < q.queue.len() - 2 ==> (#[trigger] q.queue[i]).status == CheckpointStatus::Complete
}

/// In a queue in order, the checkpoint with the sequence number `index`
/// is the one at the matching distance from the end.
pub proof fn lemma_get_in_order(q: CheckpointQueueView, index: int)
    requires
        q.queue.len() <= q.index + 1,
    ensures
        match q.get(index) {
            Ok(cp) => q.index - index < q.queue.len() && 0 <= index <= q.index && cp
                == q.queue[q.queue.len() - 1 - (q.index - index)],
            Err(_) => true,
        },
        q.queue.len() <= u32::MAX && 0 <= index <= q.index && q.index - index < q.queue.len()
            ==> q.get(index).is_ok(),
{
}

/// In a queue in order, a checkpoint is put in the place at the matching
/// distance from the end.
pub proof fn lemma_set_in_order(q: CheckpointQueueView, index: u32, cp: CheckpointView)
    requires
        q.queue.len() <= q.index + 1,
    ensures
        match q.set(index, cp) {
            Ok(after) => q.index - index < q.queue.len() && index <= q.index && after
                == (CheckpointQueueView {
                queue: q.queue.update(q.queue.len() - 1 - (q.index - index), cp),
                ..q
            }),
            Err(_) => true,
        },
{
}

/// Signing keeps the queue in order: a checkpoint that is being built takes
/// no signatures, one that is being signed stays so or becomes complete, and
/// one that is complete stays complete.
pub proof fn law_sign_keeps_queue_in_order(
    q: CheckpointQueueView,
    xpub: Seq<u8>,
    sigs: Seq<Signature>,
    index: u32,
    btc_height: u32,
)
    requires
        queue_in_order(q),
        q.sign(xpub, sigs, index, btc_height).is_ok(),
    ensures
        queue_in_order(q.sign(xpub, sigs, index, btc_height).unwrap()),
        q.sign(xpub, sigs, index, btc_height).unwrap().index == q.index,
        q.sign(xpub, sigs, index, btc_height).unwrap().queue.len() == q.queue.len(),
{
    lemma_get_in_order(q, index as int);
    let cp = q.get(index as int).unwrap();
    let signed = cp.sign(xpub, sigs, btc_height).unwrap();
    let done = if cp.status == CheckpointStatus::Signing && signed.signed() {
        CheckpointView { status: CheckpointStatus::Complete, ..signed }
    } else {
        signed
    };
    lemma_set_in_order(q, index, done);
}

/// A queue that was emptied is in order.
pub proof fn law_reset_keeps_queue_in_order(q: CheckpointQueueView)
    ensures
        queue_in_order(CheckpointQueueView { index: 0, queue: Seq::empty(), ..q }),
{
}

/// Pruning leaves the newest checkpoints: what is left is the end of the
/// queue, and nothing is taken from a queue of ten or fewer.
pub proof fn lemma_pruned_is_the_end(queue: Seq<CheckpointView>, latest: u64, max_age: u64)
    ensures
        pruned(queue, latest, max_age).len() <= queue.len(),
        queue.len() >= 10 ==> pruned(queue, latest, max_age).len() >= 10,
        queue.len() < 10 ==> pruned(queue, latest, max_age) == queue,
        forall|i: int|
            0 <= i < pruned(queue, latest, max_age).len() ==> #[trigger] pruned(
                queue,
                latest,
                max_age,
            )[i] == queue[queue.len() - pruned(queue, latest, max_age).len() + i],
    decreases queue.len(),
{
    if !(queue.len() <= 10 || latest - queue[0].sigset.create_time <= max_age) {
        lemma_pruned_is_the_end(queue.drop_first(), latest, max_age);
    }
}

/// A checkpoint that has been sealed is being signed.
pub proof fn lemma_advance_starts_signing(
    cp: CheckpointView,
    now: u64,
    scripts: Seq<(Seq<char>, Seq<u8>)>,
    accounts: Seq<(Seq<char>, CoinView)>,
    external: Seq<OutputView>,
    commitment: Seq<u8>,
    cp_fees: u64,
    config: crate::interface::CheckpointConfig,
)
    ensures
        match cp.advance(now, scripts, accounts, external, commitment, cp_fees, config) {
            Ok((sealed, _)) => sealed.status == CheckpointStatus::Signing && cp.status
                == CheckpointStatus::Building,
            Err(_) => true,
        },
{
}

/// A step keeps the queue in order: a new checkpoint is opened only when
/// none is being signed, and then the one that was being built is sealed
/// and is the one that is being signed.
pub proof fn law_step_keeps_queue_in_order(
    q: CheckpointQueueView,
    now: u64,
    scripts: Seq<(Seq<char>, Seq<u8>)>,
    accounts: Seq<(Seq<char>, CoinView)>,
    external: Seq<OutputView>,
    btc_height: u32,
    should_allow_deposits: bool,
    commitment: Seq<u8>,
    fee_pool: i64,
    units_per_sat: u64,
    validators: Seq<Validator>,
    sig_keys: Seq<([u8; 32], Xpub)>,
)
    requires
        queue_in_order(q),
        q.maybe_step(
            now,
            scripts,
            accounts,
            external,
            btc_height,
            should_allow_deposits,
            commitment,
            fee_pool,
            units_per_sat,
            validators,
            sig_keys,
        ).is_ok(),
    ensures
        queue_in_order(
            q.maybe_step(
                now,
                scripts,
                accounts,
                external,
                btc_height,
                should_allow_deposits,
                commitment,
                fee_pool,
                units_per_sat,
                validators,
                sig_keys,
            ).unwrap().0,
        ),
{
    let stepped = q.maybe_step(
        now,
        scripts,
        accounts,
        external,
        btc_height,
        should_allow_deposits,
        commitment,
        fee_pool,
        units_per_sat,
        validators,
        sig_keys,
    ).unwrap();
    if stepped.2 {
        // No checkpoint is being signed, so the one before the building
        // one, if there is one, is complete.
        assert(q.signing() == Ok::<Option<CheckpointView>, ContractError>(None));
        lemma_get_in_order(q, q.index - 1);
        let pushed = q.maybe_push(now, validators, sig_keys, should_allow_deposits).unwrap().0;
        assert(pushed.queue.len() == q.queue.len() + 1);
        assert(pushed.queue.last().status == CheckpointStatus::Building);
        assert(forall|i: int| 0 <= i < q.queue.len() ==> pushed.queue[i] == q.queue[i]);
        assert(forall|i: int|
            0 <= i < pushed.queue.len() - 2 ==> (#[trigger] pushed.queue[i]).status
                == CheckpointStatus::Complete);
        let building = pushed.building().unwrap();
        lemma_pruned_is_the_end(pushed.queue, building.sigset.create_time, pushed.config.max_age);
        let kept = pushed.prune().unwrap();
        assert(kept.index == pushed.index);
        assert(kept.queue.len() > 0);
        assert(kept.queue.last() == pushed.queue.last());
        assert(forall|i: int|
            0 <= i < kept.queue.len() - 2 ==> (#[trigger] kept.queue[i]).status
                == CheckpointStatus::Complete);
        if kept.index == 0 {
            assert(q.queue.len() == 0);
        } else {
            lemma_step_seals_in_order(
                kept,
                now,
                scripts,
                accounts,
                external,
                btc_height,
                commitment,
                fee_pool,
                units_per_sat,
            );
        }
    }
}

/// Sealing the checkpoint before the building one puts a checkpoint that
/// is being signed in its place, and leaves the building one being built.
pub proof fn lemma_step_seals_in_order(
    q: CheckpointQueueView,
    now: u64,
    scripts: Seq<(Seq<char>, Seq<u8>)>,
    accounts: Seq<(Seq<char>, CoinView)>,
    external: Seq<OutputView>,
    btc_height: u32,
    commitment: Seq<u8>,
    fee_pool: i64,
    units_per_sat: u64,
)
    requires
        q.index > 0,
        q.queue.len() <= q.index + 1,
        q.queue.len() > 0,
        q.queue.last().status == CheckpointStatus::Building,
        forall|i: int|
            0 <= i < q.queue.len() - 2 ==> (#[trigger] q.queue[i]).status
                == CheckpointStatus::Complete,
    ensures
        match q.seal_previous(
            now,
            scripts,
            accounts,
            external,
            btc_height,
            commitment,
            fee_pool,
            units_per_sat,
        ) {
            Ok((done, _)) => queue_in_order(done),
            Err(_) => true,
        },
{
    let prev_index = (q.index - 1) as u32;
    lemma_get_in_order(q, prev_index as int);
    match q.get(prev_index as int) {
        Ok(prev) => {
            match q.calc_fee_checkpoint(prev_index, commitment) {
                Ok(cp_fees) => {
                    lemma_advance_starts_signing(
                        prev,
                        now,
                        scripts,
                        accounts,
                        external,
                        commitment,
                        cp_fees,
                        q.config,
                    );
                    match prev.advance(now, scripts, accounts, external, commitment, cp_fees, q.config) {
                        Ok((sealed, res)) => {
                            lemma_set_in_order(q, prev_index, sealed);
                            match q.set(prev_index, sealed) {
                                Ok(with_sealed) => {
                                    lemma_get_in_order(with_sealed, with_sealed.index as int);
                                    match with_sealed.building() {
                                        Ok(building) => {
                                            assert(building.status == CheckpointStatus::Building);
                                            assert forall|cp: CheckpointView|
                                                cp.status == CheckpointStatus::Building implies (
                                            match #[trigger] with_sealed.set(with_sealed.index, cp) {
                                                Ok(done) => queue_in_order(done),
                                                Err(_) => true,
                                            }) by {
                                                lemma_set_in_order(with_sealed, with_sealed.index, cp);
                                            }
                                        },
                                        Err(_) => {},
                                    }
                                },
                                Err(_) => {},
                            }
                        },
                        Err(_) => {},
                    }
                },
                Err(_) => {},
            }
        },
        Err(_) => {},
    }
}

/// The first `n` inputs of a transaction take as many signatures as
/// there are digests to sign for them.
pub proof fn lemma_inputs_take_what_is_to_sign(
    tx: BitcoinTxView,
    n: int,
    xpub: Seq<u8>,
    sigs: Seq<Signature>,
    next: int,
    found: Seq<(Seq<u8>, u32)>,
)
    requires
        0 <= n <= tx.input.len(),
    ensures
        match sign_inputs(tx, n, xpub, sigs, next) {
            Err(_) => true,
            Ok((after, k)) => {
                &&& after.input.len() == tx.input.len()
                &&& forall|j: int| n <= j < tx.input.len() ==> after.input[j] == tx.input[j]
                &&& collect_inputs(found, tx.input, n, xpub).is_ok()
                &&& collect_inputs(found, tx.input, n, xpub).unwrap().len() - found.len() == k
                    - next
            },
        },
    decreases n,
{
    if n > 0 {
        lemma_inputs_take_what_is_to_sign(tx, n - 1, xpub, sigs, next, found);
    }
}

/// The first `n` transactions of a batch take as many signatures as there
/// are digests to sign for them.
pub proof fn lemma_txs_take_what_is_to_sign(
    batch: BatchView,
    n: int,
    xpub: Seq<u8>,
    sigs: Seq<Signature>,
    next: int,
    found: Seq<(Seq<u8>, u32)>,
)
    requires
        0 <= n <= batch.batch.len(),
    ensures
        match sign_txs(batch, n, xpub, sigs, next) {
            Err(_) => true,
            Ok((after, k)) => {
                &&& after.batch.len() == batch.batch.len()
                &&& forall|j: int| n <= j < batch.batch.len() ==> after.batch[j] == batch.batch[j]
                &&& collect_txs(found, batch.batch, n, xpub).is_ok()
                &&& collect_txs(found, batch.batch, n, xpub).unwrap().len() - found.len() == k - next
            },
        },
    decreases n,
{
    if n > 0 {
        lemma_txs_take_what_is_to_sign(batch, n - 1, xpub, sigs, next, found);
        match sign_txs(batch, n - 1, xpub, sigs, next) {
            Ok((b, k)) => {
                let so_far = collect_txs(found, batch.batch, n - 1, xpub).unwrap();
                lemma_inputs_take_what_is_to_sign(
                    b.batch[n - 1],
                    b.batch[n - 1].input.len() as int,
                    xpub,
                    sigs,
                    k,
                    so_far,
                );
            },
            Err(_) => {},
        }
    }
}

/// The first `n` batches take as many signatures as there are digests to
/// sign in them, and are open to signatures as far as digests are listed.
pub proof fn lemma_batches_take_what_is_to_sign(
    batches: Seq<BatchView>,
    n: int,
    xpub: Seq<u8>,
    sigs: Seq<Signature>,
    next: int,
)
    requires
        0 <= n <= batches.len(),
    ensures
        match sign_batches(batches, n, xpub, sigs, next) {
            Err(_) => true,
            Ok((after, k, open)) => {
                &&& after.len() == batches.len()
                &&& forall|j: int| n <= j < batches.len() ==> after[j] == batches[j]
                &&& collect_batches(batches, n, xpub).is_ok()
                &&& collect_batches(batches, n, xpub).unwrap().0.len() == k - next
                &&& collect_batches(batches, n, xpub).unwrap().1 == open
            },
        },
    decreases n,
{
    if n > 0 {
        lemma_batches_take_what_is_to_sign(batches, n - 1, xpub, sigs, next);
        match sign_batches(batches, n - 1, xpub, sigs, next) {
            Ok((bs, k, open)) => {
                if open {
                    let so_far = collect_batches(batches, n - 1, xpub).unwrap().0;
                    lemma_txs_take_what_is_to_sign(
                        bs[n - 1],
                        bs[n - 1].batch.len() as int,
                        xpub,
                        sigs,
                        k,
                        so_far,
                    );
                }
            },
            Err(_) => {},
        }
    }
}

/// A submission is accepted only if it holds exactly one signature for
/// each digest that the signatory has to sign. So once nothing is left for
/// a signatory to sign, every further signature of it is refused.
pub proof fn law_sign_takes_what_is_to_sign(
    cp: CheckpointView,
    xpub: Seq<u8>,
    sigs: Seq<Signature>,
    btc_height: u32,
)
    requires
        cp.sign(xpub, sigs, btc_height).is_ok(),
    ensures
        cp.to_sign(xpub).is_ok(),
        cp.to_sign(xpub).unwrap().len() == sigs.len(),
{
    lemma_batches_take_what_is_to_sign(cp.batches, cp.batches.len() as int, xpub, sigs, 0);
}

/// Every output that can pay the threshold is among those that pay it.
pub proof fn lemma_paying_holds(outs: Seq<OutputView>, threshold: int, n: int, i: int)
    requires
        0 <= i < n <= outs.len(),
        adjusted_value(outs[i]) > threshold,
    ensures
        paying_upto(outs, threshold, n).contains(outs[i]),
    decreases n,
{
    let all = paying_upto(outs, threshold, n);
    if i == n - 1 {
        assert(all[all.len() - 1] == outs[i]);
    } else {
        lemma_paying_holds(outs, threshold, n - 1, i);
        let rest = paying_upto(outs, threshold, n - 1);
        let k = choose|k: int| 0 <= k < rest.len() && rest[k] == outs[i];
        assert(all[k] == outs[i]);
    }
}

/// What a deduction of `fee` comes to, said without its rounds: the
/// outputs that stay are outputs that were there; each of them holds, beyond
/// its dust value, at least the share that it pays, and every output that
/// holds more than the share stays, so that an output is dropped only if it
/// holds the share at most. The share is the fee divided by the number of
/// outputs that stay, so that no more than the fee is deducted.
pub proof fn law_fee_rounds_split(outs: Seq<OutputView>, fee: int)
    requires
        outs.len() > 0,
        fee >= 0,
    ensures
        fee / (outs.len() as int) <= fee_rounds(outs, fee).1 <= fee,
        fee_rounds(outs, fee).0.len() <= outs.len(),
        fee_rounds(outs, fee).0.len() > 0 ==> fee_rounds(outs, fee).1 == fee / (fee_rounds(
            outs,
            fee,
        ).0.len() as int) && fee_rounds(outs, fee).1 * fee_rounds(outs, fee).0.len() <= fee,
        forall|k: int|
            0 <= k < fee_rounds(outs, fee).0.len() ==> adjusted_value(
                #[trigger] fee_rounds(outs, fee).0[k],
            ) >= fee_rounds(outs, fee).1 && outs.contains(fee_rounds(outs, fee).0[k]),
        forall|i: int|
            0 <= i < outs.len() && adjusted_value(#[trigger] outs[i]) > fee_rounds(outs, fee).1
                ==> fee_rounds(outs, fee).0.contains(outs[i]),
    decreases outs.len(),
{
    let n = outs.len() as int;
    let threshold = fee / n;
    let kept = paying(outs, threshold);
    lemma_paying_upto(outs, threshold, n);
    lemma_round_shrinks(outs, fee);
    assert(0 <= fee / n <= fee) by (nonlinear_arith)
        requires
            fee >= 0,
            n > 0,
    ;
    assert forall|i: int| 0 <= i < n && adjusted_value(#[trigger] outs[i]) > threshold implies kept.contains(
        outs[i],
    ) by {
        lemma_paying_holds(outs, threshold, n, i);
    }
    assert forall|k: int| 0 <= k < kept.len() implies outs.contains(#[trigger] kept[k]) by {
        let j = choose|j: int|
            0 <= j < n && outs[j] == kept[k] && adjusted_value(outs[j]) > threshold;
        assert(outs[j] == kept[k]);
    }
    if kept.len() > 0 {
        let m = kept.len() as int;
        let share = fee / m;
        assert(fee / n <= fee / m <= fee && (fee / m) * m <= fee) by (nonlinear_arith)
            requires
                fee >= 0,
                0 < m <= n,
        ;
        if least_adjusted(kept) >= share {
            lemma_least_adjusted_upto(kept, m, 0);
        } else {
            law_fee_rounds_split(kept, fee);
            let last = fee_rounds(kept, fee);
            assert forall|k: int| 0 <= k < last.0.len() implies outs.contains(#[trigger] last.0[k]) by {
                assert(kept.contains(last.0[k]));
                let j = choose|j: int| 0 <= j < kept.len() && kept[j] == last.0[k];
                assert(outs.contains(kept[j]));
            }
            assert forall|i: int|
                0 <= i < n && adjusted_value(#[trigger] outs[i]) > last.1 implies last.0.contains(
                outs[i],
            ) by {
                assert(kept.contains(outs[i]));
                let j = choose|j: int| 0 <= j < kept.len() && kept[j] == outs[i];
                assert(adjusted_value(kept[j]) > last.1);
            }
        }
    }
}

/// Outputs that pay `share` each hold that much less together.
pub proof fn lemma_charged_sum(kept: Seq<OutputView>, share: int, n: int)
    requires
        0 <= n <= kept.len(),
        0 <= share,
        forall|k: int| 0 <= k < kept.len() ==> (#[trigger] kept[k]).value >= share,
    ensures
        sum_upto(output_values(charged(kept, share)), n) == sum_upto(output_values(kept), n) - share
            * n,
    decreases n,
{
    if n > 0 {
        lemma_charged_sum(kept, share, n - 1);
        assert(kept[n - 1].value >= share);
        assert(charged(kept, share)[n - 1].value == kept[n - 1].value - share);
        assert(output_values(charged(kept, share))[n - 1] == output_values(kept)[n - 1] - share);
        assert(share * n == share * (n - 1) + share) by (nonlinear_arith);
    } else {
        assert(share * n == 0) by (nonlinear_arith)
            requires
                n == 0,
        ;
    }
}

/// The outputs that can pay a threshold hold no more than all outputs.
pub proof fn lemma_paying_sum(outs: Seq<OutputView>, threshold: int, n: int)
    requires
        0 <= n <= outs.len(),
    ensures
        sum(output_values(paying_upto(outs, threshold, n))) <= sum_upto(output_values(outs), n),
    decreases n,
{
    if n > 0 {
        lemma_paying_sum(outs, threshold, n - 1);
        let rest = paying_upto(outs, threshold, n - 1);
        if adjusted_value(outs[n - 1]) > threshold {
            assert(output_values(rest.push(outs[n - 1])) =~= output_values(rest).push(
                outs[n - 1].value as int,
            ));
            lemma_sum_push(output_values(rest), outs[n - 1].value as int);
        }
    }
}

/// The outputs that stay hold no more than all outputs.
pub proof fn lemma_fee_rounds_sum(outs: Seq<OutputView>, fee: int)
    ensures
        sum(output_values(fee_rounds(outs, fee).0)) <= sum(output_values(outs)),
    decreases outs.len(),
{
    if outs.len() > 0 && fee >= 0 {
        let n = outs.len() as int;
        let kept = paying(outs, fee / n);
        lemma_paying_sum(outs, fee / n, n);
        if kept.len() > 0 && least_adjusted(kept) < fee / (kept.len() as int) {
            lemma_round_shrinks(outs, fee);
            lemma_fee_rounds_sum(kept, fee);
        }
    }
}

/// A deduction takes the fee and adds nothing: the outputs that stay hold
/// together no more than all outputs held, less the equal share that each
/// of them pays. Where outputs stay, what the outputs have lost falls short
/// of the fee by less than their number, which is the remainder of the
/// division; where none stays, they have lost all.
pub proof fn law_deduct_fee_takes_the_fee(tx: BitcoinTxView, fee: u64)
    requires
        fee > 0,
        tx.deduct_fee(fee).is_ok(),
    ensures
        tx.deduct_fee(fee).unwrap().value() + fee_rounds(tx.output, fee as int).1 * tx.deduct_fee(
            fee,
        ).unwrap().output.len() <= tx.value(),
        tx.deduct_fee(fee).unwrap().output.len() > 0 ==> tx.value() - tx.deduct_fee(
            fee,
        ).unwrap().value() > fee - tx.deduct_fee(fee).unwrap().output.len(),
        tx.deduct_fee(fee).unwrap().output.len() == 0 ==> tx.deduct_fee(fee).unwrap().value() == 0,
        0 <= tx.deduct_fee(fee).unwrap().value() <= tx.value(),
{
    let (kept, share) = fee_rounds(tx.output, fee as int);
    let after = tx.deduct_fee(fee).unwrap();
    lemma_sum_upto_monotone(output_values(tx.output), 0, tx.output.len() as int);
    lemma_sum_upto_monotone(output_values(after.output), 0, after.output.len() as int);
    lemma_fee_rounds_payable(tx.output, fee as int);
    lemma_fee_rounds_sum(tx.output, fee as int);
    lemma_charged_sum(kept, share, kept.len() as int);
    law_fee_rounds_split(tx.output, fee as int);
    let m = kept.len() as int;
    let whole = fee as int;
    assert(share * m >= 0) by (nonlinear_arith)
        requires
            share >= 0,
            m >= 0,
    ;
    if m > 0 {
        assert(share * m > whole - m) by (nonlinear_arith)
            requires
                share == whole / m,
                m > 0,
                whole >= 0,
        ;
    }
}

/// No checkpoint is opened on fees that do not cover the miner fee: as
/// long as the building checkpoint has collected less than its miner fee,
/// no new checkpoint is to be pushed, whatever time has passed.
pub proof fn law_no_push_without_fees(
    q: CheckpointQueueView,
    now: u64,
    validators: Seq<Validator>,
    sig_keys: Seq<([u8; 32], Xpub)>,
    commitment: Seq<u8>,
    btc_height: u32,
)
    requires
        q.queue.len() > 0,
        q.building().is_ok(),
        q.calc_fee_checkpoint(q.index, commitment).is_ok(),
        q.building().unwrap().fees_collected < q.calc_fee_checkpoint(q.index, commitment).unwrap(),
    ensures
        q.should_push(now, validators, sig_keys, commitment, btc_height) != Ok::<
            bool,
            ContractError,
        >(true),
{
}

/// Signatures that were taken are not taken again by the queue: once a
/// submission has left nothing for the signatory to sign in a checkpoint,
/// every further submission of signatures by it for that checkpoint is
/// refused, and a submission is taken only if it holds exactly one
/// signature for each digest that is left to sign.
pub proof fn law_queue_takes_what_is_to_sign(
    q: CheckpointQueueView,
    xpub: Seq<u8>,
    sigs: Seq<Signature>,
    index: u32,
    btc_height: u32,
)
    requires
        q.sign(xpub, sigs, index, btc_height).is_ok(),
    ensures
        q.get(index as int).is_ok(),
        q.get(index as int).unwrap().status != CheckpointStatus::Building,
        q.get(index as int).unwrap().to_sign(xpub).is_ok(),
        q.get(index as int).unwrap().to_sign(xpub).unwrap().len() == sigs.len(),
{
    let cp = q.get(index as int).unwrap();
    law_sign_takes_what_is_to_sign(cp, xpub, sigs, btc_height);
}

/// Putting older checkpoints in front keeps the queue in order: they are
/// complete, and they are put only where sequence numbers below the oldest
/// checkpoint are free.
pub proof fn lemma_backfilled_in_order(
    q: CheckpointQueueView,
    index: int,
    scripts: Seq<Seq<u8>>,
    n: int,
    create_time: u64,
    num: u64,
    den: u64,
)
    requires
        queue_in_order(q),
        q.queue.len() > 0,
        0 <= n,
    ensures
        match backfilled(q, index, scripts, n, create_time, num, den) {
            Err(_) => true,
            Ok((after, _)) => queue_in_order(after) && after.index == q.index && after.queue.len()
                >= q.queue.len(),
        },
    decreases n,
{
    if n > 0 {
        lemma_backfilled_in_order(q, index, scripts, n - 1, create_time, num, den);
        match backfilled(q, index, scripts, n - 1, create_time, num, den) {
            Ok((mid, i)) => {
                match backfilled(q, index, scripts, n, create_time, num, den) {
                    Ok((after, _)) => {
                        if after != mid {
                            assert(after.queue.len() == mid.queue.len() + 1);
                            assert forall|k: int| 1 <= k < after.queue.len() implies after.queue[k]
                                == mid.queue[k - 1] by {}
                            assert forall|k: int| 0 <= k < after.queue.len() - 2 implies (
                            #[trigger] after.queue[k]).status == CheckpointStatus::Complete by {
                                if k > 0 {
                                    assert(after.queue[k] == mid.queue[k - 1]);
                                }
                            }
                        }
                    },
                    Err(_) => {},
                }
            },
            Err(_) => {},
        }
    }
}

/// A backfill keeps the queue in order.
pub proof fn law_backfill_keeps_queue_in_order(
    q: CheckpointQueueView,
    first_index: u32,
    scripts: Seq<Seq<u8>>,
    num: u64,
    den: u64,
)
    requires
        queue_in_order(q),
        q.backfill(first_index, scripts, num, den).is_ok(),
    ensures
        queue_in_order(q.backfill(first_index, scripts, num, den).unwrap()),
{
    lemma_backfilled_in_order(
        q,
        first_index + 1,
        scripts,
        scripts.len() as int,
        q.queue[0].sigset.create_time,
        num,
        den,
    );
}

} // verus!
