//! What signing leaves as it is: the structure of every transaction, its
//! identifier and the digests to sign, and that it can go on the wire.

use vstd::prelude::*;
use crate::checkpoint::{BatchView, CheckpointView};
use crate::keys::{Pubkey, Signature};
use crate::laws::lemma_slot_from_found;
use crate::signing::{sign_batches, sign_input, sign_inputs, sign_txs};
use crate::threshold_sig::{share_item, ThresholdSigView};
use crate::tx::{BitcoinTxView, InputView};

verus! {

/// Whether the signatures of every input can be encoded for a witness.
pub open spec fn sigs_encodable(tx: BitcoinTxView) -> bool {
    forall|i: int| 0 <= i < tx.input.len() ==> (#[trigger] tx.input[i]).signatures.encodable()
}

/// Whether `b` is `a` but for the signatures of its inputs and the count
/// of signed inputs.
pub open spec fn same_but_signatures(a: BitcoinTxView, b: BitcoinTxView) -> bool {
    &&& a.lock_time == b.lock_time
    &&& a.output == b.output
    &&& a.input.len() == b.input.len()
    &&& forall|i: int|
        0 <= i < a.input.len() ==> #[trigger] b.input[i] == (InputView {
            signatures: b.input[i].signatures,
            ..a.input[i]
        })
}

/// Whether `b` is `a` after signing: the same but for signatures, and
/// encodable if `a` was.
pub open spec fn signed_over(a: BitcoinTxView, b: BitcoinTxView) -> bool {
    same_but_signatures(a, b) && (sigs_encodable(a) ==> sigs_encodable(b))
}

/// Whether the transactions of `b` are those of `a` after signing.
pub open spec fn batch_signed_over(a: BatchView, b: BatchView) -> bool {
    &&& a.batch.len() == b.batch.len()
    &&& forall|t: int| 0 <= t < a.batch.len() ==> signed_over(a.batch[t], #[trigger] b.batch[t])
}

/// Whether the signatures of every input of every transaction of the
/// checkpoint can be encoded for a witness.
pub open spec fn checkpoint_encodable(cp: CheckpointView) -> bool {
    forall|b: int, t: int|
        0 <= b < cp.batches.len() && 0 <= t < cp.batches[b].batch.len() ==> sigs_encodable(
            #[trigger] cp.batches[b].batch[t],
        )
}

/// A signature that is taken can be encoded, so a threshold signature
/// that could go into a witness still can after it has taken one.
pub proof fn law_sign_keeps_encodable(ts: ThresholdSigView, pubkey: Pubkey, sig: Signature)
    requires
        ts.encodable(),
        ts.sign(pubkey, sig).is_ok(),
    ensures
        ts.sign(pubkey, sig).unwrap().encodable(),
        ts.sign(pubkey, sig).unwrap().witness().is_some(),
{
    let after = ts.sign(pubkey, sig).unwrap();
    lemma_slot_from_found(ts.sigs, pubkey, 0);
    let i = ts.slot(pubkey).unwrap();
    assert forall|j: int| 0 <= j < after.sigs.len() implies (#[trigger] share_item(
        after.sigs[j].1,
    )).is_some() by {
        if j != i {
            assert(share_item(ts.sigs[j].1).is_some());
        }
    }
}

/// A threshold signature without signatures can be encoded.
pub proof fn law_fresh_is_encodable(
    sigs: Seq<(Pubkey, crate::threshold_sig::Share)>,
    num: u64,
    den: u64,
)
    requires
        ThresholdSigView::fresh(sigs, num, den).is_ok(),
    ensures
        ThresholdSigView::fresh(sigs, num, den).unwrap().encodable(),
{
}

/// What offering signatures to one input leaves as it is: all but its
/// signatures; and these can still be encoded.
pub proof fn lemma_sign_input_frame(input: InputView, xpub: Seq<u8>, sigs: Seq<Signature>, next: int)
    ensures
        match sign_input(input, xpub, sigs, next) {
            Err(_) => true,
            Ok((after, _, _)) => after == (InputView { signatures: after.signatures, ..input })
                && (input.signatures.encodable() ==> after.signatures.encodable()),
        },
{
    match sign_input(input, xpub, sigs, next) {
        Ok((after, k, _)) => {
            if k != next && input.signatures.encodable() {
                let key = crate::keys::signatory_key(xpub, input.sigset_index).unwrap();
                law_sign_keeps_encodable(input.signatures, Pubkey { bytes: key }, sigs[next]);
            }
        },
        Err(_) => {},
    }
}

/// What offering signatures to the first `n` inputs leaves as it is.
pub proof fn lemma_sign_inputs_frame(
    tx: BitcoinTxView,
    n: int,
    xpub: Seq<u8>,
    sigs: Seq<Signature>,
    next: int,
)
    requires
        0 <= n <= tx.input.len(),
    ensures
        match sign_inputs(tx, n, xpub, sigs, next) {
            Err(_) => true,
            Ok((after, _)) => signed_over(tx, after) && forall|j: int|
                n <= j < tx.input.len() ==> after.input[j] == tx.input[j],
        },
    decreases n,
{
    if n > 0 {
        lemma_sign_inputs_frame(tx, n - 1, xpub, sigs, next);
        match sign_inputs(tx, n - 1, xpub, sigs, next) {
            Ok((t, k)) => {
                lemma_sign_input_frame(t.input[n - 1], xpub, sigs, k);
                match sign_inputs(tx, n, xpub, sigs, next) {
                    Ok((after, _)) => {
                        assert forall|i: int| 0 <= i < tx.input.len() implies #[trigger] after.input[i]
                            == (InputView { signatures: after.input[i].signatures, ..tx.input[i] }) by {
                            if i != n - 1 {
                                assert(after.input[i] == t.input[i]);
                            }
                        }
                        if sigs_encodable(tx) {
                            assert forall|i: int| 0 <= i < after.input.len() implies (
                            #[trigger] after.input[i]).signatures.encodable() by {
                                if i != n - 1 {
                                    assert(after.input[i] == t.input[i]);
                                    assert(t.input[i].signatures.encodable());
                                } else {
                                    assert(tx.input[n - 1].signatures.encodable());
                                }
                            }
                        }
                    },
                    Err(_) => {},
                }
            },
            Err(_) => {},
        }
    }
}

/// What offering signatures to the first `n` transactions leaves as it is.
pub proof fn lemma_sign_txs_frame(
    batch: BatchView,
    n: int,
    xpub: Seq<u8>,
    sigs: Seq<Signature>,
    next: int,
)
    requires
        0 <= n <= batch.batch.len(),
    ensures
        match sign_txs(batch, n, xpub, sigs, next) {
            Err(_) => true,
            Ok((after, _)) => batch_signed_over(batch, after) && forall|j: int|
                n <= j < batch.batch.len() ==> after.batch[j] == batch.batch[j],
        },
    decreases n,
{
    if n > 0 {
        lemma_sign_txs_frame(batch, n - 1, xpub, sigs, next);
        match sign_txs(batch, n - 1, xpub, sigs, next) {
            Ok((b, k)) => {
                lemma_sign_inputs_frame(
                    b.batch[n - 1],
                    b.batch[n - 1].input.len() as int,
                    xpub,
                    sigs,
                    k,
                );
                match sign_txs(batch, n, xpub, sigs, next) {
                    Ok((after, _)) => {
                        assert forall|t: int| 0 <= t < batch.batch.len() implies signed_over(
                            batch.batch[t],
                            #[trigger] after.batch[t],
                        ) by {
                            if t != n - 1 {
                                assert(after.batch[t] == b.batch[t]);
                            }
                        }
                    },
                    Err(_) => {},
                }
            },
            Err(_) => {},
        }
    } else {
        assert forall|t: int| 0 <= t < batch.batch.len() implies signed_over(
            batch.batch[t],
            #[trigger] batch.batch[t],
        ) by {}
    }
}

/// What offering signatures to the first `n` batches leaves as it is.
pub proof fn lemma_sign_batches_frame_of_txs(
    batches: Seq<BatchView>,
    n: int,
    xpub: Seq<u8>,
    sigs: Seq<Signature>,
    next: int,
)
    requires
        0 <= n <= batches.len(),
    ensures
        match sign_batches(batches, n, xpub, sigs, next) {
            Err(_) => true,
            Ok((after, _, _)) => {
                &&& after.len() == batches.len()
                &&& forall|b: int|
                    0 <= b < batches.len() ==> batch_signed_over(batches[b], #[trigger] after[b])
                &&& forall|j: int| n <= j < batches.len() ==> after[j] == batches[j]
            },
        },
    decreases n,
{
    if n > 0 {
        lemma_sign_batches_frame_of_txs(batches, n - 1, xpub, sigs, next);
        match sign_batches(batches, n - 1, xpub, sigs, next) {
            Ok((bs, k, open)) => {
                if open {
                    lemma_sign_txs_frame(bs[n - 1], bs[n - 1].batch.len() as int, xpub, sigs, k);
                }
                match sign_batches(batches, n, xpub, sigs, next) {
                    Ok((after, _, _)) => {
                        assert forall|b: int| 0 <= b < batches.len() implies batch_signed_over(
                            batches[b],
                            #[trigger] after[b],
                        ) by {
                            if b != n - 1 {
                                assert(after[b] == bs[b]);
                            }
                        }
                    },
                    Err(_) => {},
                }
            },
            Err(_) => {},
        }
    } else {
        assert forall|b: int| 0 <= b < batches.len() implies batch_signed_over(
            batches[b],
            #[trigger] batches[b],
        ) by {
            assert forall|t: int| 0 <= t < batches[b].batch.len() implies signed_over(
                batches[b].batch[t],
                #[trigger] batches[b].batch[t],
            ) by {}
        }
    }
}

/// A transaction whose signatures can be encoded goes on the wire, and
/// the witness of each of its inputs that is signed ends with the redeem
/// script of the input.
pub proof fn law_encodable_goes_on_the_wire(tx: BitcoinTxView, i: int)
    requires
        sigs_encodable(tx),
        0 <= i < tx.input.len(),
    ensures
        tx.wire().is_ok(),
        tx.txid().is_ok(),
        tx.vsize().is_ok(),
        tx.wire().unwrap().input.len() == tx.input.len(),
        tx.wire().unwrap().output == tx.output,
        tx.wire().unwrap().input[i].previous_output == tx.input[i].prevout,
        tx.input[i].signatures.signed() ==> tx.wire().unwrap().input[i].witness.len()
            == tx.input[i].signatures.sigs.len() + 1 && tx.wire().unwrap().input[i].witness.last()
            == tx.input[i].redeem_script,
        !tx.input[i].signatures.signed() ==> tx.wire().unwrap().input[i].witness.len() == 0,
{
    assert forall|j: int| 0 <= j < tx.input.len() implies (#[trigger] tx.input[j]).txin().is_ok() by {
        assert(tx.input[j].signatures.encodable());
    }
    assert(tx.input[i].signatures.encodable());
}

/// A transaction whose signatures can be encoded goes on the wire with
/// its outputs.
pub proof fn law_encodable_goes_on_the_wire_all(tx: BitcoinTxView)
    requires
        sigs_encodable(tx),
    ensures
        tx.wire().is_ok(),
        tx.wire().unwrap().output == tx.output,
        tx.wire().unwrap().lock_time == tx.lock_time,
        tx.wire().unwrap().input.len() == tx.input.len(),
{
    assert forall|j: int| 0 <= j < tx.input.len() implies (#[trigger] tx.input[j]).txin().is_ok() by {
        assert(tx.input[j].signatures.encodable());
    }
}

/// The identifier of a transaction and the digests that its inputs sign
/// depend on no signature: transactions that differ in signatures alone
/// have the same identifier and the same digests.
pub proof fn law_txid_ignores_signatures(a: BitcoinTxView, b: BitcoinTxView, i: int)
    requires
        same_but_signatures(a, b),
        a.wire().is_ok(),
        b.wire().is_ok(),
    ensures
        a.txid() == b.txid(),
        a.sig_message(i) == b.sig_message(i),
{
    let x = a.wire().unwrap().without_witnesses();
    let y = b.wire().unwrap().without_witnesses();
    assert(x.input =~= y.input) by {
        assert forall|j: int| 0 <= j < x.input.len() implies x.input[j] == y.input[j] by {
            assert(b.input[j] == (InputView { signatures: b.input[j].signatures, ..a.input[j] }));
        }
    }
    if 0 <= i < a.input.len() {
        assert(b.input[i] == (InputView { signatures: b.input[i].signatures, ..a.input[i] }));
    }
}

/// Signing changes signatures alone. Every transaction of a checkpoint
/// keeps its lock time, its outputs and what its inputs spend; if the
/// signatures of the checkpoint could be encoded, they still can, and every
/// transaction keeps its identifier. So the outpoints that were fixed when
/// the checkpoint was sealed stay those of its transactions.
pub proof fn law_sign_keeps_transactions(
    cp: CheckpointView,
    xpub: Seq<u8>,
    sigs: Seq<Signature>,
    btc_height: u32,
    b: int,
    t: int,
)
    requires
        cp.sign(xpub, sigs, btc_height).is_ok(),
        0 <= b < cp.batches.len(),
        0 <= t < cp.batches[b].batch.len(),
    ensures
        cp.sign(xpub, sigs, btc_height).unwrap().batches.len() == cp.batches.len(),
        cp.sign(xpub, sigs, btc_height).unwrap().batches[b].batch.len()
            == cp.batches[b].batch.len(),
        same_but_signatures(
            cp.batches[b].batch[t],
            cp.sign(xpub, sigs, btc_height).unwrap().batches[b].batch[t],
        ),
        checkpoint_encodable(cp) ==> checkpoint_encodable(
            cp.sign(xpub, sigs, btc_height).unwrap(),
        ),
        checkpoint_encodable(cp) ==> cp.batches[b].batch[t].txid().is_ok() && cp.sign(
            xpub,
            sigs,
            btc_height,
        ).unwrap().batches[b].batch[t].txid() == cp.batches[b].batch[t].txid(),
        cp.sign(xpub, sigs, btc_height).unwrap().status == cp.status,
        cp.sign(xpub, sigs, btc_height).unwrap().sigset == cp.sigset,
        cp.sign(xpub, sigs, btc_height).unwrap().pending == cp.pending,
{
    let after = cp.sign(xpub, sigs, btc_height).unwrap();
    lemma_sign_batches_frame_of_txs(cp.batches, cp.batches.len() as int, xpub, sigs, 0);
    assert(batch_signed_over(cp.batches[b], after.batches[b]));
    assert(signed_over(cp.batches[b].batch[t], after.batches[b].batch[t]));
    if checkpoint_encodable(cp) {
        assert forall|c: int, u: int|
            0 <= c < after.batches.len() && 0 <= u < after.batches[c].batch.len() implies sigs_encodable(
            #[trigger] after.batches[c].batch[u],
        ) by {
            assert(batch_signed_over(cp.batches[c], after.batches[c]));
            assert(signed_over(cp.batches[c].batch[u], after.batches[c].batch[u]));
            assert(sigs_encodable(cp.batches[c].batch[u]));
        }
        assert(sigs_encodable(cp.batches[b].batch[t]));
        let x = cp.batches[b].batch[t];
        let y = after.batches[b].batch[t];
        assert(x.wire().is_ok()) by {
            assert forall|j: int| 0 <= j < x.input.len() implies (#[trigger] x.input[j]).txin().is_ok() by {
                assert(x.input[j].signatures.encodable());
            }
        }
        assert(y.wire().is_ok()) by {
            assert forall|j: int| 0 <= j < y.input.len() implies (#[trigger] y.input[j]).txin().is_ok() by {
                assert(y.input[j].signatures.encodable());
            }
        }
        law_txid_ignores_signatures(x, y, 0);
    }
}

} // verus!
