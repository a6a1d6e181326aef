use vstd::prelude::*;
use crate::checkpoint::{batches_view, BatchView, Batch, Checkpoint, CheckpointView};
use crate::error::{moves, ContractError, ContractResult};
use crate::keys::{derive_pubkey, signatory_key, Pubkey, Signature, Xpub};
use crate::tx::{inputs_view, txs_view, BitcoinTx, BitcoinTxView, Input, InputView};

verus! {

/// What becomes of an input when the signatory with the extended public
/// key `xpub` offers the signatures `sigs`, of which `next` is the first
/// not yet used: the input, the first signature not yet used afterwards,
/// and whether the input became fully signed. An input that does not await
/// a signature of the signatory stays as it is and uses none.
pub open spec fn sign_input(input: InputView, xpub: Seq<u8>, sigs: Seq<Signature>, next: int) -> Result<
    (InputView, int, bool),
    ContractError,
> {
    match signatory_key(xpub, input.sigset_index) {
        None => Err(ContractError::KeyDerivation),
        Some(key) => {
            let pubkey = Pubkey { bytes: key };
            if !input.signatures.needs_sig(pubkey) {
                Ok((input, next, false))
            } else if next >= sigs.len() {
                Err(ContractError::NotEnoughSignatures)
            } else {
                match input.signatures.sign(pubkey, sigs[next]) {
                    Err(e) => Err(e),
                    Ok(signatures) => Ok(
                        (
                            InputView { signatures, ..input },
                            next + 1,
                            !input.signatures.signed() && signatures.signed(),
                        ),
                    ),
                }
            }
        },
    }
}

/// What becomes of a transaction when the signatures are offered to its
/// first `n` inputs in turn. Each input that becomes fully signed raises
/// the count of signed inputs.
pub open spec fn sign_inputs(
    tx: BitcoinTxView,
    n: int,
    xpub: Seq<u8>,
    sigs: Seq<Signature>,
    next: int,
) -> Result<(BitcoinTxView, int), ContractError>
    decreases n,
{
    if n <= 0 {
        Ok((tx, next))
    } else {
        match sign_inputs(tx, n - 1, xpub, sigs, next) {
            Err(e) => Err(e),
            Ok((t, k)) => match sign_input(t.input[n - 1], xpub, sigs, k) {
                Err(e) => Err(e),
                Ok((input, k2, completed)) => if completed && t.signed_inputs == u16::MAX {
                    Err(ContractError::Overflow)
                } else {
                    Ok(
                        (
                            BitcoinTxView {
                                input: t.input.update(n - 1, input),
                                signed_inputs: if completed {
                                    (t.signed_inputs + 1) as u16
                                } else {
                                    t.signed_inputs
                                },
                                ..t
                            },
                            k2,
                        ),
                    )
                },
            },
        }
    }
}

/// What becomes of a transaction when the signatures are offered to all its inputs.
pub open spec fn sign_tx(tx: BitcoinTxView, xpub: Seq<u8>, sigs: Seq<Signature>, next: int) -> Result<
    (BitcoinTxView, int),
    ContractError,
> {
    sign_inputs(tx, tx.input.len() as int, xpub, sigs, next)
}

/// What becomes of a batch when the signatures are offered to its first
/// `n` transactions in turn. Each transaction that becomes fully signed
/// raises the count of signed transactions.
pub open spec fn sign_txs(
    batch: BatchView,
    n: int,
    xpub: Seq<u8>,
    sigs: Seq<Signature>,
    next: int,
) -> Result<(BatchView, int), ContractError>
    decreases n,
{
    if n <= 0 {
        Ok((batch, next))
    } else {
        match sign_txs(batch, n - 1, xpub, sigs, next) {
            Err(e) => Err(e),
            Ok((b, k)) => match sign_tx(b.batch[n - 1], xpub, sigs, k) {
                Err(e) => Err(e),
                Ok((tx, k2)) => {
                    let completed = !b.batch[n - 1].signed() && tx.signed();
                    if completed && b.signed_txs == u16::MAX {
                        Err(ContractError::Overflow)
                    } else {
                        Ok(
                            (
                                BatchView {
                                    batch: b.batch.update(n - 1, tx),
                                    signed_txs: if completed {
                                        (b.signed_txs + 1) as u16
                                    } else {
                                        b.signed_txs
                                    },
                                },
                                k2,
                            ),
                        )
                    }
                },
            },
        }
    }
}

/// What becomes of a batch when the signatures are offered to all its transactions.
pub open spec fn sign_batch(batch: BatchView, xpub: Seq<u8>, sigs: Seq<Signature>, next: int) -> Result<
    (BatchView, int),
    ContractError,
> {
    sign_txs(batch, batch.batch.len() as int, xpub, sigs, next)
}

/// What becomes of the first `n` batches when the signatures are offered
/// to them in turn, and whether the batch after them is still offered
/// signatures: the batches that were signed before, and the first that was
/// not, are offered signatures; the batches behind that one are not.
pub open spec fn sign_batches(
    batches: Seq<BatchView>,
    n: int,
    xpub: Seq<u8>,
    sigs: Seq<Signature>,
    next: int,
) -> Result<(Seq<BatchView>, int, bool), ContractError>
    decreases n,
{
    if n <= 0 {
        Ok((batches, next, true))
    } else {
        match sign_batches(batches, n - 1, xpub, sigs, next) {
            Err(e) => Err(e),
            Ok((bs, k, open)) => if !open {
                Ok((bs, k, false))
            } else {
                match sign_batch(bs[n - 1], xpub, sigs, k) {
                    Err(e) => Err(e),
                    Ok((b, k2)) => Ok((bs.update(n - 1, b), k2, bs[n - 1].signed())),
                }
            },
        }
    }
}

/// The digests and signatory set indices of those of the first `n` inputs
/// that await a signature of the signatory, added to `found`.
pub open spec fn collect_inputs(
    found: Seq<(Seq<u8>, u32)>,
    inputs: Seq<InputView>,
    n: int,
    xpub: Seq<u8>,
) -> Result<Seq<(Seq<u8>, u32)>, ContractError>
    decreases n,
{
    if n <= 0 {
        Ok(found)
    } else {
        match collect_inputs(found, inputs, n - 1, xpub) {
            Err(e) => Err(e),
            Ok(msgs) => match signatory_key(xpub, inputs[n - 1].sigset_index) {
                None => Err(ContractError::KeyDerivation),
                Some(key) => if inputs[n - 1].signatures.needs_sig(Pubkey { bytes: key }) {
                    Ok(msgs.push((inputs[n - 1].signatures.message, inputs[n - 1].sigset_index)))
                } else {
                    Ok(msgs)
                },
            },
        }
    }
}

/// The same for the inputs of the first `n` transactions.
pub open spec fn collect_txs(
    found: Seq<(Seq<u8>, u32)>,
    txs: Seq<BitcoinTxView>,
    n: int,
    xpub: Seq<u8>,
) -> Result<Seq<(Seq<u8>, u32)>, ContractError>
    decreases n,
{
    if n <= 0 {
        Ok(found)
    } else {
        match collect_txs(found, txs, n - 1, xpub) {
            Err(e) => Err(e),
            Ok(msgs) => collect_inputs(msgs, txs[n - 1].input, txs[n - 1].input.len() as int, xpub),
        }
    }
}

/// The same for the first `n` batches, as far as they are offered
/// signatures, and whether the batch after them still is.
pub open spec fn collect_batches(
    batches: Seq<BatchView>,
    n: int,
    xpub: Seq<u8>,
) -> Result<(Seq<(Seq<u8>, u32)>, bool), ContractError>
    decreases n,
{
    if n <= 0 {
        Ok((Seq::empty(), true))
    } else {
        match collect_batches(batches, n - 1, xpub) {
            Err(e) => Err(e),
            Ok((msgs, open)) => if !open {
                Ok((msgs, false))
            } else {
                match collect_txs(
                    msgs,
                    batches[n - 1].batch,
                    batches[n - 1].batch.len() as int,
                    xpub,
                ) {
                    Err(e) => Err(e),
                    Ok(more) => Ok((more, batches[n - 1].signed())),
                }
            },
        }
    }
}

/// Once the offer has failed at an input, it has failed for the transaction.
pub proof fn lemma_sign_inputs_fails(
    tx: BitcoinTxView,
    k: int,
    n: int,
    xpub: Seq<u8>,
    sigs: Seq<Signature>,
    next: int,
)
    requires
        0 <= k <= n,
        sign_inputs(tx, k, xpub, sigs, next).is_err(),
    ensures
        sign_inputs(tx, n, xpub, sigs, next) == sign_inputs(tx, k, xpub, sigs, next),
    decreases n,
{
    if k < n {
        lemma_sign_inputs_fails(tx, k, n - 1, xpub, sigs, next);
    }
}

/// Once the offer has failed at a transaction, it has failed for the batch.
pub proof fn lemma_sign_txs_fails(
    batch: BatchView,
    k: int,
    n: int,
    xpub: Seq<u8>,
    sigs: Seq<Signature>,
    next: int,
)
    requires
        0 <= k <= n,
        sign_txs(batch, k, xpub, sigs, next).is_err(),
    ensures
        sign_txs(batch, n, xpub, sigs, next) == sign_txs(batch, k, xpub, sigs, next),
    decreases n,
{
    if k < n {
        lemma_sign_txs_fails(batch, k, n - 1, xpub, sigs, next);
    }
}

/// Once the offer has failed at a batch, it has failed for all batches.
pub proof fn lemma_sign_batches_fails(
    batches: Seq<BatchView>,
    k: int,
    n: int,
    xpub: Seq<u8>,
    sigs: Seq<Signature>,
    next: int,
)
    requires
        0 <= k <= n,
        sign_batches(batches, k, xpub, sigs, next).is_err(),
    ensures
        sign_batches(batches, n, xpub, sigs, next) == sign_batches(batches, k, xpub, sigs, next),
    decreases n,
{
    if k < n {
        lemma_sign_batches_fails(batches, k, n - 1, xpub, sigs, next);
    }
}

/// Once the search has failed at an input, it has failed for the transaction.
pub proof fn lemma_collect_inputs_fails(
    found: Seq<(Seq<u8>, u32)>,
    inputs: Seq<InputView>,
    k: int,
    n: int,
    xpub: Seq<u8>,
)
    requires
        0 <= k <= n,
        collect_inputs(found, inputs, k, xpub).is_err(),
    ensures
        collect_inputs(found, inputs, n, xpub) == collect_inputs(found, inputs, k, xpub),
    decreases n,
{
    if k < n {
        lemma_collect_inputs_fails(found, inputs, k, n - 1, xpub);
    }
}

/// Once the search has failed at a transaction, it has failed for the batch.
pub proof fn lemma_collect_txs_fails(
    found: Seq<(Seq<u8>, u32)>,
    txs: Seq<BitcoinTxView>,
    k: int,
    n: int,
    xpub: Seq<u8>,
)
    requires
        0 <= k <= n,
        collect_txs(found, txs, k, xpub).is_err(),
    ensures
        collect_txs(found, txs, n, xpub) == collect_txs(found, txs, k, xpub),
    decreases n,
{
    if k < n {
        lemma_collect_txs_fails(found, txs, k, n - 1, xpub);
    }
}

/// Once the search has failed at a batch, it has failed for all batches.
pub proof fn lemma_collect_batches_fails(batches: Seq<BatchView>, k: int, n: int, xpub: Seq<u8>)
    requires
        0 <= k <= n,
        collect_batches(batches, k, xpub).is_err(),
    ensures
        collect_batches(batches, n, xpub) == collect_batches(batches, k, xpub),
    decreases n,
{
    if k < n {
        lemma_collect_batches_fails(batches, k, n - 1, xpub);
    }
}

/// The digests of a list of messages to sign.
pub open spec fn messages_view(msgs: Seq<([u8; 32], u32)>) -> Seq<(Seq<u8>, u32)> {
    msgs.map_values(|m: ([u8; 32], u32)| (m.0@, m.1))
}

impl CheckpointView {
    /// The checkpoint after the signatory with the extended public key
    /// `xpub` has submitted the signatures `sigs` at the Bitcoin height
    /// `btc_height`, or the reason why the submission is rejected. The
    /// signatures must be exactly those that the inputs await, in order.
    /// The height is recorded when the submission completes the signing.
    pub open spec fn sign(self, xpub: Seq<u8>, sigs: Seq<Signature>, btc_height: u32) -> Result<
        CheckpointView,
        ContractError,
    > {
        match sign_batches(self.batches, self.batches.len() as int, xpub, sigs, 0) {
            Err(e) => Err(e),
            Ok((batches, next, _)) => if next != sigs.len() {
                Err(ContractError::ExcessSignatures)
            } else {
                let after = CheckpointView { batches, ..self };
                Ok(
                    CheckpointView {
                        signed_at_btc_height: if after.signed() && !self.signed() {
                            Some(btc_height)
                        } else {
                            self.signed_at_btc_height
                        },
                        ..after
                    },
                )
            },
        }
    }

    /// The digests that the signatory with the extended public key `xpub`
    /// has still to sign, each with the index of the signatory set of its
    /// input, in the order in which the signatures are to be submitted.
    pub open spec fn to_sign(self, xpub: Seq<u8>) -> Result<Seq<(Seq<u8>, u32)>, ContractError> {
        match collect_batches(self.batches, self.batches.len() as int, xpub) {
            Err(e) => Err(e),
            Ok((msgs, _)) => Ok(msgs),
        }
    }
}

/// Offers the signatures to one input.
fn offer_to_input(input: &mut Input, xpub: &Xpub, sigs: &Vec<Signature>, next: &mut usize) -> (r:
    ContractResult<bool>)
    requires
        *old(next) <= sigs.len(),
    ensures
        match r {
            Ok(completed) => sign_input(old(input)@, xpub.key@, sigs@, *old(next) as int) == Ok::<
                _,
                ContractError,
            >((final(input)@, *final(next) as int, completed)) && *final(next) <= sigs.len(),
            Err(e) => sign_input(old(input)@, xpub.key@, sigs@, *old(next) as int) == Err::<
                (InputView, int, bool),
                _,
            >(e),
        },
{
    let key = match derive_pubkey(xpub, input.sigset_index) {
        Some(k) => k,
        None => {
            return Err(ContractError::KeyDerivation);
        },
    };
    let pubkey = Pubkey { bytes: key };
    if !input.signatures.needs_sig(&pubkey) {
        return Ok(false);
    }
    if *next >= sigs.len() {
        return Err(ContractError::NotEnoughSignatures);
    }
    let sig = sigs[*next];
    let was_signed = input.signatures.signed();
    match input.signatures.sign(&pubkey, &sig) {
        Ok(()) => {},
        Err(e) => {
            return Err(e);
        },
    }
    *next = *next + 1;
    Ok(!was_signed && input.signatures.signed())
}

/// Offers the signatures to the inputs of one transaction.
fn offer_to_tx(tx: &mut BitcoinTx, xpub: &Xpub, sigs: &Vec<Signature>, next: &mut usize) -> (r:
    ContractResult<()>)
    requires
        *old(next) <= sigs.len(),
    ensures
        match r {
            Ok(()) => sign_tx(old(tx)@, xpub.key@, sigs@, *old(next) as int) == Ok::<
                _,
                ContractError,
            >((final(tx)@, *final(next) as int)) && *final(next) <= sigs.len(),
            Err(e) => sign_tx(old(tx)@, xpub.key@, sigs@, *old(next) as int) == Err::<
                (BitcoinTxView, int),
                _,
            >(e),
        },
{
    let mut k: usize = 0;
    while k < tx.input.len()
        invariant
            k <= tx.input.len(),
            tx.input.len() == old(tx).input.len(),
            *next <= sigs.len(),
            sign_inputs(old(tx)@, k as int, xpub.key@, sigs@, *old(next) as int) == Ok::<
                _,
                ContractError,
            >((tx@, *next as int)),
        decreases tx.input.len() - k,
    {
        let ghost before = tx@;
        let ghost all = old(tx)@;
        let ghost first = *old(next) as int;
        let completed = match offer_to_input(&mut tx.input[k], xpub, sigs, next) {
            Ok(c) => c,
            Err(e) => {
                proof {
                    assert(sign_inputs(all, k + 1, xpub.key@, sigs@, first).is_err());
                    lemma_sign_inputs_fails(all, k + 1, all.input.len() as int, xpub.key@, sigs@, first);
                }
                return Err(e);
            },
        };
        if completed {
            tx.signed_inputs = match tx.signed_inputs.checked_add(1) {
                Some(c) => c,
                None => {
                    proof {
                        assert(sign_inputs(all, k + 1, xpub.key@, sigs@, first).is_err());
                        lemma_sign_inputs_fails(
                            all,
                            k + 1,
                            all.input.len() as int,
                            xpub.key@,
                            sigs@,
                            first,
                        );
                    }
                    return Err(ContractError::Overflow);
                },
            };
        }
        assert(tx@.input =~= before.input.update(k as int, tx@.input[k as int]));
        k += 1;
    }
    Ok(())
}

/// Offers the signatures to the transactions of one batch.
fn offer_to_batch(batch: &mut Batch, xpub: &Xpub, sigs: &Vec<Signature>, next: &mut usize) -> (r:
    ContractResult<()>)
    requires
        *old(next) <= sigs.len(),
    ensures
        match r {
            Ok(()) => sign_batch(old(batch)@, xpub.key@, sigs@, *old(next) as int) == Ok::<
                _,
                ContractError,
            >((final(batch)@, *final(next) as int)) && *final(next) <= sigs.len(),
            Err(e) => sign_batch(old(batch)@, xpub.key@, sigs@, *old(next) as int) == Err::<
                (BatchView, int),
                _,
            >(e),
        },
{
    let mut k: usize = 0;
    while k < batch.batch.len()
        invariant
            k <= batch.batch.len(),
            batch.batch.len() == old(batch).batch.len(),
            *next <= sigs.len(),
            sign_txs(old(batch)@, k as int, xpub.key@, sigs@, *old(next) as int) == Ok::<
                _,
                ContractError,
            >((batch@, *next as int)),
        decreases batch.batch.len() - k,
    {
        let ghost before = batch@;
        let ghost all = old(batch)@;
        let ghost first = *old(next) as int;
        let tx_was_signed = batch.batch[k].signed();
        match offer_to_tx(&mut batch.batch[k], xpub, sigs, next) {
            Ok(()) => {},
            Err(e) => {
                proof {
                    assert(sign_txs(all, k + 1, xpub.key@, sigs@, first).is_err());
                    lemma_sign_txs_fails(all, k + 1, all.batch.len() as int, xpub.key@, sigs@, first);
                }
                return Err(e);
            },
        }
        if !tx_was_signed && batch.batch[k].signed() {
            batch.signed_txs = match batch.signed_txs.checked_add(1) {
                Some(c) => c,
                None => {
                    proof {
                        assert(sign_txs(all, k + 1, xpub.key@, sigs@, first).is_err());
                        lemma_sign_txs_fails(
                            all,
                            k + 1,
                            all.batch.len() as int,
                            xpub.key@,
                            sigs@,
                            first,
                        );
                    }
                    return Err(ContractError::Overflow);
                },
            };
        }
        assert(batch@.batch =~= before.batch.update(k as int, batch@.batch[k as int]));
        k += 1;
    }
    Ok(())
}

/// Collects what the signatory has to sign in one transaction.
fn collect_from_tx(tx: &BitcoinTx, xpub: &Xpub, msgs: &mut Vec<([u8; 32], u32)>) -> (r:
    ContractResult<()>)
    ensures
        match r {
            Ok(()) => collect_inputs(
                messages_view(old(msgs)@),
                tx@.input,
                tx@.input.len() as int,
                xpub.key@,
            ) == Ok::<_, ContractError>(messages_view(final(msgs)@)),
            Err(e) => collect_inputs(
                messages_view(old(msgs)@),
                tx@.input,
                tx@.input.len() as int,
                xpub.key@,
            ) == Err::<Seq<(Seq<u8>, u32)>, _>(e),
        },
{
    let mut k: usize = 0;
    while k < tx.input.len()
        invariant
            k <= tx.input.len(),
            collect_inputs(messages_view(old(msgs)@), tx@.input, k as int, xpub.key@) == Ok::<
                _,
                ContractError,
            >(messages_view(msgs@)),
        decreases tx.input.len() - k,
    {
        let input = &tx.input[k];
        let key = match derive_pubkey(xpub, input.sigset_index) {
            Some(key) => key,
            None => {
                proof {
                    let found = messages_view(old(msgs)@);
                    assert(collect_inputs(found, tx@.input, k + 1, xpub.key@).is_err());
                    lemma_collect_inputs_fails(
                        found,
                        tx@.input,
                        k + 1,
                        tx@.input.len() as int,
                        xpub.key@,
                    );
                }
                return Err(ContractError::KeyDerivation);
            },
        };
        if input.signatures.needs_sig(&Pubkey { bytes: key }) {
            let ghost before = messages_view(msgs@);
            msgs.push((input.signatures.message(), input.sigset_index));
            assert(messages_view(msgs@) =~= before.push(
                (input@.signatures.message, input.sigset_index),
            ));
        }
        k += 1;
    }
    Ok(())
}

/// Collects what the signatory has to sign in one batch.
fn collect_from_batch(batch: &Batch, xpub: &Xpub, msgs: &mut Vec<([u8; 32], u32)>) -> (r:
    ContractResult<()>)
    ensures
        match r {
            Ok(()) => collect_txs(
                messages_view(old(msgs)@),
                batch@.batch,
                batch@.batch.len() as int,
                xpub.key@,
            ) == Ok::<_, ContractError>(messages_view(final(msgs)@)),
            Err(e) => collect_txs(
                messages_view(old(msgs)@),
                batch@.batch,
                batch@.batch.len() as int,
                xpub.key@,
            ) == Err::<Seq<(Seq<u8>, u32)>, _>(e),
        },
{
    let mut k: usize = 0;
    while k < batch.batch.len()
        invariant
            k <= batch.batch.len(),
            collect_txs(messages_view(old(msgs)@), batch@.batch, k as int, xpub.key@) == Ok::<
                _,
                ContractError,
            >(messages_view(msgs@)),
        decreases batch.batch.len() - k,
    {
        match collect_from_tx(&batch.batch[k], xpub, msgs) {
            Ok(()) => {},
            Err(e) => {
                proof {
                    let found = messages_view(old(msgs)@);
                    assert(collect_txs(found, batch@.batch, k + 1, xpub.key@).is_err());
                    lemma_collect_txs_fails(
                        found,
                        batch@.batch,
                        k + 1,
                        batch@.batch.len() as int,
                        xpub.key@,
                    );
                }
                return Err(e);
            },
        }
        k += 1;
    }
    Ok(())
}

impl Checkpoint {
    /// Offers the signatures to the batches in turn.
    fn offer(&mut self, xpub: &Xpub, sigs: &Vec<Signature>, btc_height: u32) -> (r: ContractResult<
        (),
    >)
        ensures
            match r {
                Ok(()) => old(self)@.sign(xpub.key@, sigs@, btc_height) == Ok::<_, ContractError>(
                    final(self)@,
                ),
                Err(e) => old(self)@.sign(xpub.key@, sigs@, btc_height) == Err::<CheckpointView, _>(
                    e,
                ),
            },
    {
        let cp_was_signed = self.signed();
        let mut sig_index: usize = 0;
        let mut open = true;
        let mut k: usize = 0;
        while k < self.batches.len()
            invariant
                k <= self.batches.len(),
                self.batches.len() == old(self).batches.len(),
                sig_index <= sigs.len(),
                self.status == old(self).status,
                self.pending == old(self).pending,
                self.fee_rate == old(self).fee_rate,
                self.signed_at_btc_height == old(self).signed_at_btc_height,
                self.deposits_enabled == old(self).deposits_enabled,
                self.fees_collected == old(self).fees_collected,
                self.sigset == old(self).sigset,
                sign_batches(old(self)@.batches, k as int, xpub.key@, sigs@, 0) == Ok::<
                    _,
                    ContractError,
                >((self@.batches, sig_index as int, open)),
            decreases self.batches.len() - k,
        {
            if open {
                let ghost before = self@.batches;
                let batch_was_signed = self.batches[k].signed();
                match offer_to_batch(&mut self.batches[k], xpub, sigs, &mut sig_index) {
                    Ok(()) => {},
                    Err(e) => {
                        proof {
                            let all = old(self)@.batches;
                            assert(sign_batches(all, k + 1, xpub.key@, sigs@, 0).is_err());
                            lemma_sign_batches_fails(
                                all,
                                k + 1,
                                all.len() as int,
                                xpub.key@,
                                sigs@,
                                0,
                            );
                        }
                        return Err(e);
                    },
                }
                assert(self@.batches =~= before.update(k as int, self@.batches[k as int]));
                open = batch_was_signed;
            }
            k += 1;
        }
        if sig_index != sigs.len() {
            return Err(ContractError::ExcessSignatures);
        }
        if self.signed() && !cp_was_signed {
            self.signed_at_btc_height = Some(btc_height);
        }
        Ok(())
    }

    /// Takes the signatures that the signatory with the extended public
    /// key `xpub` submits. They go to the inputs that await a signature of
    /// the signatory, in order: first those of the batches that are signed
    /// already, then those of the first batch that is not; batches behind
    /// that one take none. The signatory must submit exactly as many
    /// signatures as these inputs await, and each must verify; otherwise
    /// the submission is rejected and nothing changes.
    pub fn sign(&mut self, xpub: &Xpub, sigs: Vec<Signature>, btc_height: u32) -> (r: ContractResult<
        (),
    >)
        ensures
            moves(r, old(self)@, final(self)@, old(self)@.sign(xpub.key@, sigs@, btc_height)),
    {
        let mut work = self.clone();
        match work.offer(xpub, &sigs, btc_height) {
            Ok(()) => {
                *self = work;
                Ok(())
            },
            Err(e) => Err(e),
        }
    }

    /// The digests that the signatory with the extended public key `xpub`
    /// has still to sign, each with the index of the signatory set of its
    /// input, in the order in which the signatures are to be submitted.
    pub fn to_sign(&self, xpub: &Xpub) -> (r: ContractResult<Vec<([u8; 32], u32)>>)
        ensures
            match r {
                Ok(msgs) => self@.to_sign(xpub.key@) == Ok::<_, ContractError>(messages_view(msgs@)),
                Err(e) => self@.to_sign(xpub.key@) == Err::<Seq<(Seq<u8>, u32)>, _>(e),
            },
    {
        let mut msgs: Vec<([u8; 32], u32)> = Vec::new();
        assert(messages_view(msgs@) =~= Seq::empty());
        let mut open = true;
        let mut k: usize = 0;
        while k < self.batches.len()
            invariant
                k <= self.batches.len(),
                collect_batches(self@.batches, k as int, xpub.key@) == Ok::<_, ContractError>(
                    (messages_view(msgs@), open),
                ),
            decreases self.batches.len() - k,
        {
            if open {
                match collect_from_batch(&self.batches[k], xpub, &mut msgs) {
                    Ok(()) => {},
                    Err(e) => {
                        proof {
                            assert(collect_batches(self@.batches, k + 1, xpub.key@).is_err());
                            lemma_collect_batches_fails(
                                self@.batches,
                                k + 1,
                                self@.batches.len() as int,
                                xpub.key@,
                            );
                        }
                        return Err(e);
                    },
                }
                open = self.batches[k].signed();
            }
            k += 1;
        }
        Ok(msgs)
    }
}

} // verus!
