//! Signatures are taken once: what a signatory has submitted is refused
//! when it is submitted again.

use vstd::prelude::*;
use crate::checkpoint::{BatchView, CheckpointStatus, CheckpointView};
use crate::error::ContractError;
use crate::keys::{signatory_key, Pubkey, Signature};
use crate::laws::{
    law_filled_slot_rejects, law_sign_takes_what_is_to_sign, lemma_batches_take_what_is_to_sign,
    lemma_get_in_order, lemma_set_in_order, queue_in_order,
};
use crate::queue::CheckpointQueueView;
use crate::signing::{
    collect_batches, collect_inputs, collect_txs, sign_batch, sign_batches, sign_input, sign_inputs,
    sign_tx, sign_txs,
};
use crate::tx::{BitcoinTxView, InputView};

verus! {

/// Whether none of the first `n` inputs awaits a signature of the
/// signatory with the extended public key `xpub`.
pub open spec fn inputs_settled(inputs: Seq<InputView>, n: int, xpub: Seq<u8>) -> bool {
    forall|j: int|
        0 <= j < n ==> match signatory_key(xpub, (#[trigger] inputs[j]).sigset_index) {
            Some(key) => !inputs[j].signatures.needs_sig(Pubkey { bytes: key }),
            None => false,
        }
}

/// Whether no input of the first `n` transactions awaits a signature of
/// the signatory.
pub open spec fn txs_settled(txs: Seq<BitcoinTxView>, n: int, xpub: Seq<u8>) -> bool {
    forall|j: int|
        0 <= j < n ==> inputs_settled((#[trigger] txs[j]).input, txs[j].input.len() as int, xpub)
}

/// Whether a submission that led from the batches `before` to the batches
/// `after` completed none of them.
pub open spec fn completed_no_batch(before: Seq<BatchView>, after: Seq<BatchView>) -> bool {
    forall|j: int| 0 <= j < before.len() ==> (#[trigger] after[j]).signed() == before[j].signed()
}

/// An input that was offered signatures awaits none of the signatory.
pub proof fn lemma_offered_input_is_settled(
    input: InputView,
    xpub: Seq<u8>,
    sigs: Seq<Signature>,
    next: int,
)
    requires
        sign_input(input, xpub, sigs, next).is_ok(),
    ensures
        inputs_settled(seq![sign_input(input, xpub, sigs, next).unwrap().0], 1, xpub),
{
    let key = signatory_key(xpub, input.sigset_index).unwrap();
    let pubkey = Pubkey { bytes: key };
    if input.signatures.needs_sig(pubkey) {
        law_filled_slot_rejects(input.signatures, pubkey, sigs[next], sigs[next]);
    }
}

/// The inputs that were offered signatures await none of the signatory.
pub proof fn lemma_offered_inputs_are_settled(
    tx: BitcoinTxView,
    n: int,
    xpub: Seq<u8>,
    sigs: Seq<Signature>,
    next: int,
)
    requires
        0 <= n <= tx.input.len(),
        sign_inputs(tx, n, xpub, sigs, next).is_ok(),
    ensures
        sign_inputs(tx, n, xpub, sigs, next).unwrap().0.input.len() == tx.input.len(),
        forall|j: int|
            n <= j < tx.input.len() ==> sign_inputs(tx, n, xpub, sigs, next).unwrap().0.input[j]
                == tx.input[j],
        inputs_settled(sign_inputs(tx, n, xpub, sigs, next).unwrap().0.input, n, xpub),
    decreases n,
{
    if n > 0 {
        let (t, k) = sign_inputs(tx, n - 1, xpub, sigs, next).unwrap();
        lemma_offered_inputs_are_settled(tx, n - 1, xpub, sigs, next);
        lemma_offered_input_is_settled(t.input[n - 1], xpub, sigs, k);
        let input = sign_input(t.input[n - 1], xpub, sigs, k).unwrap().0;
        let after = sign_inputs(tx, n, xpub, sigs, next).unwrap().0;
        assert(seq![input][0] == input);
        assert forall|j: int| 0 <= j < n implies match signatory_key(
            xpub,
            (#[trigger] after.input[j]).sigset_index,
        ) {
            Some(key) => !after.input[j].signatures.needs_sig(Pubkey { bytes: key }),
            None => false,
        } by {
            if j < n - 1 {
                assert(after.input[j] == t.input[j]);
            } else {
                assert(after.input[j] == input);
            }
        }
    }
}

/// Inputs that await no signature of the signatory give it nothing to sign.
pub proof fn lemma_settled_inputs_list_nothing(
    found: Seq<(Seq<u8>, u32)>,
    inputs: Seq<InputView>,
    n: int,
    xpub: Seq<u8>,
)
    requires
        0 <= n <= inputs.len(),
        inputs_settled(inputs, n, xpub),
    ensures
        collect_inputs(found, inputs, n, xpub) == Ok::<_, ContractError>(found),
    decreases n,
{
    if n > 0 {
        lemma_settled_inputs_list_nothing(found, inputs, n - 1, xpub);
        assert(signatory_key(xpub, inputs[n - 1].sigset_index).is_some());
    }
}

/// The transactions that were offered signatures await none of the signatory.
pub proof fn lemma_offered_txs_are_settled(
    batch: BatchView,
    n: int,
    xpub: Seq<u8>,
    sigs: Seq<Signature>,
    next: int,
)
    requires
        0 <= n <= batch.batch.len(),
        sign_txs(batch, n, xpub, sigs, next).is_ok(),
    ensures
        sign_txs(batch, n, xpub, sigs, next).unwrap().0.batch.len() == batch.batch.len(),
        forall|j: int|
            n <= j < batch.batch.len() ==> sign_txs(batch, n, xpub, sigs, next).unwrap().0.batch[j]
                == batch.batch[j],
        txs_settled(sign_txs(batch, n, xpub, sigs, next).unwrap().0.batch, n, xpub),
    decreases n,
{
    if n > 0 {
        let (b, k) = sign_txs(batch, n - 1, xpub, sigs, next).unwrap();
        lemma_offered_txs_are_settled(batch, n - 1, xpub, sigs, next);
        let tx = b.batch[n - 1];
        lemma_offered_inputs_are_settled(tx, tx.input.len() as int, xpub, sigs, k);
        let signed = sign_tx(tx, xpub, sigs, k).unwrap().0;
        let after = sign_txs(batch, n, xpub, sigs, next).unwrap().0;
        assert forall|j: int| 0 <= j < n implies inputs_settled(
            (#[trigger] after.batch[j]).input,
            after.batch[j].input.len() as int,
            xpub,
        ) by {
            if j < n - 1 {
                assert(after.batch[j] == b.batch[j]);
            } else {
                assert(after.batch[j] == signed);
            }
        }
    }
}

/// Transactions that await no signature of the signatory give it nothing
/// to sign.
pub proof fn lemma_settled_txs_list_nothing(
    found: Seq<(Seq<u8>, u32)>,
    txs: Seq<BitcoinTxView>,
    n: int,
    xpub: Seq<u8>,
)
    requires
        0 <= n <= txs.len(),
        txs_settled(txs, n, xpub),
    ensures
        collect_txs(found, txs, n, xpub) == Ok::<_, ContractError>(found),
    decreases n,
{
    if n > 0 {
        lemma_settled_txs_list_nothing(found, txs, n - 1, xpub);
        lemma_settled_inputs_list_nothing(found, txs[n - 1].input, txs[n - 1].input.len() as int, xpub);
    }
}

/// What is to sign in the first `n` batches depends on these alone.
pub proof fn lemma_collect_batches_agree(a: Seq<BatchView>, b: Seq<BatchView>, n: int, xpub: Seq<u8>)
    requires
        0 <= n <= a.len(),
        n <= b.len(),
        forall|j: int| 0 <= j < n ==> a[j] == b[j],
    ensures
        collect_batches(a, n, xpub) == collect_batches(b, n, xpub),
    decreases n,
{
    if n > 0 {
        lemma_collect_batches_agree(a, b, n - 1, xpub);
    }
}

/// After a submission that completed no batch, the batches that were
/// offered signatures give the signatory nothing to sign.
pub proof fn lemma_offered_batches_list_nothing(
    batches: Seq<BatchView>,
    n: int,
    xpub: Seq<u8>,
    sigs: Seq<Signature>,
    next: int,
)
    requires
        0 <= n <= batches.len(),
        sign_batches(batches, n, xpub, sigs, next).is_ok(),
        forall|j: int|
            0 <= j < n ==> (#[trigger] sign_batches(batches, n, xpub, sigs, next).unwrap().0[j]).signed()
                == batches[j].signed(),
    ensures
        sign_batches(batches, n, xpub, sigs, next).unwrap().0.len() == batches.len(),
        forall|j: int|
            n <= j < batches.len() ==> sign_batches(batches, n, xpub, sigs, next).unwrap().0[j]
                == batches[j],
        collect_batches(sign_batches(batches, n, xpub, sigs, next).unwrap().0, n, xpub) == Ok::<
            _,
            ContractError,
        >((Seq::<(Seq<u8>, u32)>::empty(), sign_batches(batches, n, xpub, sigs, next).unwrap().2)),
    decreases n,
{
    if n > 0 {
        let (bs, k, open) = sign_batches(batches, n - 1, xpub, sigs, next).unwrap();
        let after = sign_batches(batches, n, xpub, sigs, next).unwrap().0;
        lemma_batches_take_what_is_to_sign(batches, n - 1, xpub, sigs, next);
        if open {
            let b = sign_batch(bs[n - 1], xpub, sigs, k).unwrap().0;
            assert(after == bs.update(n - 1, b));
        } else {
            assert(after == bs);
        }
        assert forall|j: int| 0 <= j < n - 1 implies (#[trigger] bs[j]).signed()
            == batches[j].signed() by {
            assert(after[j] == bs[j]);
        }
        lemma_offered_batches_list_nothing(batches, n - 1, xpub, sigs, next);
        lemma_collect_batches_agree(after, bs, n - 1, xpub);
        if open {
            let before = bs[n - 1];
            assert(before == batches[n - 1]);
            lemma_offered_txs_are_settled(before, before.batch.len() as int, xpub, sigs, k);
            lemma_settled_txs_list_nothing(
                Seq::empty(),
                after[n - 1].batch,
                after[n - 1].batch.len() as int,
                xpub,
            );
            assert(after[n - 1].signed() == batches[n - 1].signed());
        }
    }
}

/// A checkpoint refuses what it has taken: where a submission of
/// signatures was accepted and completed no batch, the same signatures from
/// the same signatory are refused from then on, at whatever height.
pub proof fn law_resubmission_is_refused(
    cp: CheckpointView,
    xpub: Seq<u8>,
    sigs: Seq<Signature>,
    btc_height: u32,
    later: u32,
)
    requires
        sigs.len() > 0,
        cp.sign(xpub, sigs, btc_height).is_ok(),
        completed_no_batch(cp.batches, cp.sign(xpub, sigs, btc_height).unwrap().batches),
    ensures
        cp.sign(xpub, sigs, btc_height).unwrap().to_sign(xpub) == Ok::<_, ContractError>(
            Seq::<(Seq<u8>, u32)>::empty(),
        ),
        cp.sign(xpub, sigs, btc_height).unwrap().sign(xpub, sigs, later).is_err(),
{
    let after = cp.sign(xpub, sigs, btc_height).unwrap();
    lemma_offered_batches_list_nothing(cp.batches, cp.batches.len() as int, xpub, sigs, 0);
    if after.sign(xpub, sigs, later).is_ok() {
        law_sign_takes_what_is_to_sign(after, xpub, sigs, later);
    }
}

/// The queue refuses what it has taken: where a submission of signatures
/// for a checkpoint was accepted and completed no batch of it, the same
/// signatures from the same signatory for the same checkpoint are refused
/// from then on.
pub proof fn law_queue_resubmission_is_refused(
    q: CheckpointQueueView,
    xpub: Seq<u8>,
    sigs: Seq<Signature>,
    index: u32,
    btc_height: u32,
    later: u32,
)
    requires
        queue_in_order(q),
        sigs.len() > 0,
        q.sign(xpub, sigs, index, btc_height).is_ok(),
        completed_no_batch(
            q.get(index as int).unwrap().batches,
            q.sign(xpub, sigs, index, btc_height).unwrap().get(index as int).unwrap().batches,
        ),
    ensures
        q.sign(xpub, sigs, index, btc_height).unwrap().sign(xpub, sigs, index, later).is_err(),
{
    let cp = q.get(index as int).unwrap();
    let signed = cp.sign(xpub, sigs, btc_height).unwrap();
    let stored = if cp.status == CheckpointStatus::Signing && signed.signed() {
        CheckpointView { status: CheckpointStatus::Complete, ..signed }
    } else {
        signed
    };
    let after = q.sign(xpub, sigs, index, btc_height).unwrap();
    lemma_get_in_order(q, index as int);
    lemma_set_in_order(q, index, stored);
    lemma_get_in_order(after, index as int);
    assert(after.get(index as int) == Ok::<_, ContractError>(stored));
    law_resubmission_is_refused(cp, xpub, sigs, btc_height, later);
    if stored.sign(xpub, sigs, later).is_ok() {
        law_sign_takes_what_is_to_sign(stored, xpub, sigs, later);
    }
}

} // verus!
