use vstd::prelude::*;
use crate::backend::{
    dust_value, script_dust_value, segwit_sighash, transaction_sighash, transaction_txid,
    transaction_vsize, tx_id, tx_vsize,
};
use crate::bytes::byte_rows;
use crate::error::{moves, yields, ContractError, ContractResult};
use crate::math::{all_nonneg, lemma_sum_upto_monotone, min_int, sum, sum_upto};
use crate::signatory::{SignatorySet, SignatorySetView};
use crate::threshold_sig::{slots_of, ThresholdSig, ThresholdSigView};

verus! {

/// The version number of every transaction that this library builds.
pub const TX_VERSION: i32 = 1;

/// The sequence number of every input that this library builds.
pub const SEQUENCE_FINAL: u32 = 0xffff_ffff;

/// A reference to one output of a transaction.
#[derive(Clone, Copy, Debug, PartialEq, Eq)]
pub struct OutPoint {
    pub txid: [u8; 32],
    pub vout: u32,
}

/// A transaction output: an amount in satoshis and the script that locks it.
#[derive(Debug, PartialEq)]
pub struct Output {
    pub value: u64,
    pub script_pubkey: Vec<u8>,
}

/// The value of an `Output`.
pub struct OutputView {
    pub value: u64,
    pub script_pubkey: Seq<u8>,
}

impl View for Output {
    type V = OutputView;

    open spec fn view(&self) -> OutputView {
        OutputView { value: self.value, script_pubkey: self.script_pubkey@ }
    }
}

impl Clone for Output {
    fn clone(&self) -> (r: Self)
        ensures
            r@ == self@,
    {
        Output { value: self.value, script_pubkey: self.script_pubkey.clone() }
    }
}

/// The values of a sequence of outputs.
pub open spec fn outputs_view(s: Seq<Output>) -> Seq<OutputView> {
    s.map_values(|o: Output| o@)
}

/// The amounts of a sequence of outputs.
pub open spec fn output_values(outs: Seq<OutputView>) -> Seq<int> {
    outs.map_values(|o: OutputView| o.value as int)
}

/// A copy of a list of outputs.
pub fn copy_outputs(outs: &Vec<Output>) -> (r: Vec<Output>)
    ensures
        outputs_view(r@) == outputs_view(outs@),
{
    let mut out: Vec<Output> = Vec::new();
    let mut i: usize = 0;
    while i < outs.len()
        invariant
            i <= outs.len(),
            out.len() == i,
            forall|j: int| 0 <= j < i ==> (#[trigger] out@[j])@ == outs@[j]@,
        decreases outs.len() - i,
    {
        out.push(outs[i].clone());
        i += 1;
    }
    assert(outputs_view(out@) =~= outputs_view(outs@));
    out
}

/// An input of a transaction under construction, with what is needed to
/// sign it and the signatures gathered so far.
#[derive(Debug, PartialEq)]
pub struct Input {
    /// The output that the input spends.
    pub prevout: OutPoint,
    /// The script that locks the spent output.
    pub script_pubkey: Vec<u8>,
    /// The script whose hash `script_pubkey` holds.
    pub redeem_script: Vec<u8>,
    /// The sequence number of the signatory set that signs the input.
    pub sigset_index: u32,
    /// The commitment to the destination that the redeem script holds.
    pub dest: Vec<u8>,
    /// The amount of the spent output, in satoshis.
    pub amount: u64,
    /// The estimated size of the witness, in virtual bytes.
    pub est_witness_vsize: u64,
    /// The signatures gathered so far.
    pub signatures: ThresholdSig,
}

/// The value of an `Input`.
pub struct InputView {
    pub prevout: OutPoint,
    pub script_pubkey: Seq<u8>,
    pub redeem_script: Seq<u8>,
    pub sigset_index: u32,
    pub dest: Seq<u8>,
    pub amount: u64,
    pub est_witness_vsize: u64,
    pub signatures: ThresholdSigView,
}

impl View for Input {
    type V = InputView;

    open spec fn view(&self) -> InputView {
        InputView {
            prevout: self.prevout,
            script_pubkey: self.script_pubkey@,
            redeem_script: self.redeem_script@,
            sigset_index: self.sigset_index,
            dest: self.dest@,
            amount: self.amount,
            est_witness_vsize: self.est_witness_vsize,
            signatures: self.signatures@,
        }
    }
}

impl Clone for Input {
    fn clone(&self) -> (r: Self)
        ensures
            r@ == self@,
    {
        Input {
            prevout: self.prevout,
            script_pubkey: self.script_pubkey.clone(),
            redeem_script: self.redeem_script.clone(),
            sigset_index: self.sigset_index,
            dest: self.dest.clone(),
            amount: self.amount,
            est_witness_vsize: self.est_witness_vsize,
            signatures: self.signatures.clone(),
        }
    }
}

/// The values of a sequence of inputs.
pub open spec fn inputs_view(s: Seq<Input>) -> Seq<InputView> {
    s.map_values(|i: Input| i@)
}

/// The amounts of a sequence of inputs.
pub open spec fn input_amounts(ins: Seq<InputView>) -> Seq<int> {
    ins.map_values(|i: InputView| i.amount as int)
}

/// A copy of a list of inputs.
pub fn copy_inputs(ins: &Vec<Input>) -> (r: Vec<Input>)
    ensures
        inputs_view(r@) == inputs_view(ins@),
{
    let mut out: Vec<Input> = Vec::new();
    let mut i: usize = 0;
    while i < ins.len()
        invariant
            i <= ins.len(),
            out.len() == i,
            forall|j: int| 0 <= j < i ==> (#[trigger] out@[j])@ == ins@[j]@,
        decreases ins.len() - i,
    {
        out.push(ins[i].clone());
        i += 1;
    }
    assert(inputs_view(out@) =~= inputs_view(ins@));
    out
}

/// An input as a transaction on the wire holds it.
#[derive(Debug, PartialEq)]
pub struct TxIn {
    pub previous_output: OutPoint,
    pub script_sig: Vec<u8>,
    pub sequence: u32,
    pub witness: Vec<Vec<u8>>,
}

/// The value of a `TxIn`.
pub struct TxInView {
    pub previous_output: OutPoint,
    pub script_sig: Seq<u8>,
    pub sequence: u32,
    pub witness: Seq<Seq<u8>>,
}

impl View for TxIn {
    type V = TxInView;

    open spec fn view(&self) -> TxInView {
        TxInView {
            previous_output: self.previous_output,
            script_sig: self.script_sig@,
            sequence: self.sequence,
            witness: byte_rows(self.witness@),
        }
    }
}

/// The values of a sequence of wire inputs.
pub open spec fn txins_view(s: Seq<TxIn>) -> Seq<TxInView> {
    s.map_values(|i: TxIn| i@)
}

/// A transaction as it goes on the wire.
#[derive(Debug, PartialEq)]
pub struct Transaction {
    pub version: i32,
    pub lock_time: u32,
    pub input: Vec<TxIn>,
    pub output: Vec<Output>,
}

/// The value of a `Transaction`.
pub struct TransactionView {
    pub version: i32,
    pub lock_time: u32,
    pub input: Seq<TxInView>,
    pub output: Seq<OutputView>,
}

impl View for Transaction {
    type V = TransactionView;

    open spec fn view(&self) -> TransactionView {
        TransactionView {
            version: self.version,
            lock_time: self.lock_time,
            input: txins_view(self.input@),
            output: outputs_view(self.output@),
        }
    }
}

impl TransactionView {
    /// The transaction with the witness of every input taken out.
    pub open spec fn without_witnesses(self) -> TransactionView {
        TransactionView {
            input: self.input.map_values(|i: TxInView| TxInView { witness: Seq::empty(), ..i }),
            ..self
        }
    }
}

impl InputView {
    /// The witness of the input: the items of its signatures and, once these
    /// reach the threshold, the redeem script.
    pub open spec fn witness(self) -> Result<Seq<Seq<u8>>, ContractError> {
        match self.signatures.witness() {
            None => Err(ContractError::SignatureEncoding),
            Some(items) => if self.signatures.signed() {
                Ok(items.push(self.redeem_script))
            } else {
                Ok(items)
            },
        }
    }

    /// The input as it goes on the wire.
    pub open spec fn txin(self) -> Result<TxInView, ContractError> {
        match self.witness() {
            Err(e) => Err(e),
            Ok(witness) => Ok(
                TxInView {
                    previous_output: self.prevout,
                    script_sig: Seq::empty(),
                    sequence: SEQUENCE_FINAL,
                    witness,
                },
            ),
        }
    }

    /// An unsigned input that spends `prevout`, locked to `sigset` for
    /// `dest`, with the threshold `num / den`.
    pub open spec fn fresh(
        prevout: OutPoint,
        sigset: SignatorySetView,
        dest: Seq<u8>,
        amount: u64,
        num: u64,
        den: u64,
    ) -> Result<InputView, ContractError> {
        match sigset.redeem_script(dest, num, den) {
            Err(e) => Err(e),
            Ok(redeem_script) => if sigset.est_witness_vsize() > u64::MAX {
                Err(ContractError::Overflow)
            } else {
                match ThresholdSigView::fresh(slots_of(sigset.signatories), num, den) {
                    Err(e) => Err(e),
                    Ok(signatures) => Ok(
                        InputView {
                            prevout,
                            script_pubkey: crate::backend::p2wsh_script(redeem_script),
                            redeem_script,
                            sigset_index: sigset.index,
                            dest,
                            amount,
                            est_witness_vsize: sigset.est_witness_vsize() as u64,
                            signatures,
                        },
                    ),
                }
            },
        }
    }
}

impl Input {
    /// The input as it goes on the wire, with the witness that its
    /// signatures give so far.
    pub fn to_txin(&self) -> (r: ContractResult<TxIn>)
        ensures
            yields(r, self@.txin()),
    {
        let mut witness = match self.signatures.to_witness() {
            Ok(w) => w,
            Err(e) => {
                return Err(e);
            },
        };
        if self.signatures.signed() {
            let ghost before = byte_rows(witness@);
            witness.push(self.redeem_script.clone());
            assert(byte_rows(witness@) =~= before.push(self.redeem_script@));
        }
        Ok(
            TxIn {
                previous_output: self.prevout,
                script_sig: Vec::new(),
                sequence: SEQUENCE_FINAL,
                witness,
            },
        )
    }

    /// An unsigned input that spends `prevout`, an output of `amount`
    /// satoshis locked to `sigset` for `dest`.
    pub fn new(
        prevout: OutPoint,
        sigset: &SignatorySet,
        dest: &Vec<u8>,
        amount: u64,
        threshold: (u64, u64),
    ) -> (r: ContractResult<Self>)
        ensures
            yields(r, InputView::fresh(prevout, sigset@, dest@, amount, threshold.0, threshold.1)),
    {
        let redeem_script = match sigset.redeem_script(dest, threshold) {
            Ok(s) => s,
            Err(e) => {
                return Err(e);
            },
        };
        let script_pubkey = crate::backend::to_v0_p2wsh(&redeem_script);
        let est_witness_vsize = match sigset.est_witness_vsize() {
            Ok(v) => v,
            Err(e) => {
                return Err(e);
            },
        };
        let signatures = match ThresholdSig::from_sigset(sigset, threshold) {
            Ok(s) => s,
            Err(e) => {
                return Err(e);
            },
        };
        Ok(
            Input {
                prevout,
                script_pubkey,
                redeem_script,
                sigset_index: sigset.index(),
                dest: dest.clone(),
                amount,
                est_witness_vsize,
                signatures,
            },
        )
    }

    /// The estimated size of the input once fully signed, in virtual bytes.
    pub fn est_vsize(&self) -> (r: u64)
        requires
            self.est_witness_vsize <= u64::MAX - 40,
        ensures
            r == self.est_witness_vsize + 40,
    {
        self.est_witness_vsize + 40
    }
}

/// A transaction under construction: its inputs with their signing state,
/// its outputs and its lock time.
#[derive(Debug, PartialEq)]
pub struct BitcoinTx {
    /// The lock time of the transaction, a block height or a timestamp.
    pub lock_time: u32,
    /// The number of inputs that were seen to become fully signed.
    pub signed_inputs: u16,
    /// The inputs.
    pub input: Vec<Input>,
    /// The outputs.
    pub output: Vec<Output>,
}

/// The value of a `BitcoinTx`.
pub struct BitcoinTxView {
    pub lock_time: u32,
    pub signed_inputs: u16,
    pub input: Seq<InputView>,
    pub output: Seq<OutputView>,
}

impl View for BitcoinTx {
    type V = BitcoinTxView;

    open spec fn view(&self) -> BitcoinTxView {
        BitcoinTxView {
            lock_time: self.lock_time,
            signed_inputs: self.signed_inputs,
            input: inputs_view(self.input@),
            output: outputs_view(self.output@),
        }
    }
}

impl Clone for BitcoinTx {
    fn clone(&self) -> (r: Self)
        ensures
            r@ == self@,
    {
        BitcoinTx {
            lock_time: self.lock_time,
            signed_inputs: self.signed_inputs,
            input: copy_inputs(&self.input),
            output: copy_outputs(&self.output),
        }
    }
}

impl Default for BitcoinTx {
    fn default() -> (r: Self)
        ensures
            r@ == (BitcoinTxView {
                lock_time: 0,
                signed_inputs: 0,
                input: Seq::empty(),
                output: Seq::empty(),
            }),
    {
        BitcoinTx::with_lock_time(0)
    }
}

/// The values of a sequence of transactions.
pub open spec fn txs_view(s: Seq<BitcoinTx>) -> Seq<BitcoinTxView> {
    s.map_values(|t: BitcoinTx| t@)
}

/// What is left of an output's amount once its dust value is set aside.
pub open spec fn adjusted_value(o: OutputView) -> int {
    let dust = script_dust_value(o.script_pubkey);
    if o.value >= dust {
        o.value - dust
    } else {
        0
    }
}

/// Those of the first `n` outputs that can pay `threshold` beyond their
/// dust value, in their order.
pub open spec fn paying_upto(outs: Seq<OutputView>, threshold: int, n: int) -> Seq<OutputView>
    decreases n,
{
    if n <= 0 {
        Seq::empty()
    } else {
        let rest = paying_upto(outs, threshold, n - 1);
        if adjusted_value(outs[n - 1]) > threshold {
            rest.push(outs[n - 1])
        } else {
            rest
        }
    }
}

/// The outputs that can pay `threshold` beyond their dust value.
pub open spec fn paying(outs: Seq<OutputView>, threshold: int) -> Seq<OutputView> {
    paying_upto(outs, threshold, outs.len() as int)
}

/// The least adjusted value among the first `n` outputs, and `u64::MAX` if
/// there is none.
pub open spec fn least_adjusted_upto(outs: Seq<OutputView>, n: int) -> int
    decreases n,
{
    if n <= 0 {
        u64::MAX as int
    } else {
        min_int(least_adjusted_upto(outs, n - 1), adjusted_value(outs[n - 1]))
    }
}

/// The least adjusted value among the outputs.
pub open spec fn least_adjusted(outs: Seq<OutputView>) -> int {
    least_adjusted_upto(outs, outs.len() as int)
}

/// What `paying_upto` keeps: no more than `n` outputs, each of them one of
/// the first `n` that pays the threshold, and all of these if nothing was dropped.
pub proof fn lemma_paying_upto(outs: Seq<OutputView>, threshold: int, n: int)
    requires
        0 <= n <= outs.len(),
    ensures
        paying_upto(outs, threshold, n).len() <= n,
        forall|k: int|
            0 <= k < paying_upto(outs, threshold, n).len() ==> exists|j: int|
                0 <= j < n && outs[j] == #[trigger] paying_upto(outs, threshold, n)[k]
                    && adjusted_value(outs[j]) > threshold,
        paying_upto(outs, threshold, n).len() == n ==> forall|j: int|
            0 <= j < n ==> adjusted_value(#[trigger] outs[j]) > threshold,
    decreases n,
{
    if n > 0 {
        lemma_paying_upto(outs, threshold, n - 1);
        let rest = paying_upto(outs, threshold, n - 1);
        let all = paying_upto(outs, threshold, n);
        assert forall|k: int| 0 <= k < all.len() implies exists|j: int|
            0 <= j < n && outs[j] == #[trigger] all[k] && adjusted_value(outs[j]) > threshold by {
            if k < rest.len() {
                assert(all[k] == rest[k]);
                let j = choose|j: int|
                    0 <= j < n - 1 && outs[j] == rest[k] && adjusted_value(outs[j]) > threshold;
                assert(0 <= j < n && outs[j] == all[k] && adjusted_value(outs[j]) > threshold);
            } else {
                assert(outs[n - 1] == all[k]);
            }
        }
    }
}

/// The least adjusted value is no more than any, and above a bound that all are above.
pub proof fn lemma_least_adjusted_upto(outs: Seq<OutputView>, n: int, bound: int)
    requires
        0 <= n <= outs.len(),
    ensures
        forall|j: int| 0 <= j < n ==> least_adjusted_upto(outs, n) <= adjusted_value(#[trigger] outs[j]),
        least_adjusted_upto(outs, n) <= u64::MAX,
        (forall|j: int| 0 <= j < n ==> adjusted_value(#[trigger] outs[j]) > bound) && bound
            < u64::MAX ==> least_adjusted_upto(outs, n) > bound,
    decreases n,
{
    if n > 0 {
        lemma_least_adjusted_upto(outs, n - 1, bound);
    }
}

/// The least adjusted value among the first `n` outputs depends on these alone.
pub proof fn lemma_least_adjusted_agree(a: Seq<OutputView>, b: Seq<OutputView>, n: int)
    requires
        0 <= n <= a.len(),
        n <= b.len(),
        forall|i: int| 0 <= i < n ==> a[i] == b[i],
    ensures
        least_adjusted_upto(a, n) == least_adjusted_upto(b, n),
    decreases n,
{
    if n > 0 {
        lemma_least_adjusted_agree(a, b, n - 1);
    }
}

/// A round that does not end the deduction drops at least one output.
pub proof fn lemma_round_shrinks(outs: Seq<OutputView>, fee: int)
    requires
        outs.len() > 0,
        fee >= 0,
    ensures
        paying(outs, fee / (outs.len() as int)).len() <= outs.len(),
        paying(outs, fee / (outs.len() as int)).len() > 0 && least_adjusted(
            paying(outs, fee / (outs.len() as int)),
        ) < fee / (paying(outs, fee / (outs.len() as int)).len() as int) ==> paying(
            outs,
            fee / (outs.len() as int),
        ).len() < outs.len(),
{
    let n = outs.len() as int;
    let threshold = fee / n;
    let kept = paying(outs, threshold);
    lemma_paying_upto(outs, threshold, n);
    if kept.len() == n {
        assert(adjusted_value(kept[0]) > threshold);
        assert forall|j: int| 0 <= j < n implies adjusted_value(#[trigger] kept[j]) > threshold by {
            let i = choose|i: int|
                0 <= i < n && outs[i] == kept[j] && adjusted_value(outs[i]) > threshold;
        }
        lemma_least_adjusted_upto(kept, n, threshold);
    }
}

/// The outputs that stay and the share that each of them pays when `fee`
/// is deducted from `outs`. Each round divides the fee among the outputs
/// that are left and drops those that cannot pay their share beyond their
/// dust value; the rounds end when no output is left, or when the least
/// adjusted value of the outputs that stay covers their share.
pub open spec fn fee_rounds(outs: Seq<OutputView>, fee: int) -> (Seq<OutputView>, int)
    decreases outs.len(),
{
    if outs.len() == 0 || fee < 0 {
        (outs, 0)
    } else {
        let threshold = fee / (outs.len() as int);
        let kept = paying(outs, threshold);
        if kept.len() == 0 {
            (kept, threshold)
        } else {
            let share = fee / (kept.len() as int);
            if least_adjusted(kept) >= share {
                (kept, share)
            } else {
                proof {
                    lemma_round_shrinks(outs, fee);
                }
                fee_rounds(kept, fee)
            }
        }
    }
}

/// Every output that stays holds at least the share that it pays.
pub proof fn lemma_fee_rounds_payable(outs: Seq<OutputView>, fee: int)
    ensures
        forall|k: int|
            0 <= k < fee_rounds(outs, fee).0.len() ==> (#[trigger] fee_rounds(outs, fee).0[k]).value
                >= fee_rounds(outs, fee).1,
        fee >= 0 ==> 0 <= fee_rounds(outs, fee).1 <= fee,
    decreases outs.len(),
{
    if outs.len() == 0 || fee < 0 {
    } else {
        let n = outs.len() as int;
        let threshold = fee / n;
        let kept = paying(outs, threshold);
        lemma_paying_upto(outs, threshold, n);
        assert(0 <= fee / n <= fee) by (nonlinear_arith)
            requires
                fee >= 0,
                n > 0,
        ;
        if kept.len() == 0 {
        } else {
            let m = kept.len() as int;
            let share = fee / m;
            assert(0 <= fee / m <= fee) by (nonlinear_arith)
                requires
                    fee >= 0,
                    m > 0,
            ;
            if least_adjusted(kept) >= share {
                lemma_least_adjusted_upto(kept, m, 0);
                assert forall|k: int| 0 <= k < kept.len() implies (#[trigger] kept[k]).value
                    >= share by {
                    assert(least_adjusted_upto(kept, m) <= adjusted_value(kept[k]));
                }
            } else {
                lemma_round_shrinks(outs, fee);
                lemma_fee_rounds_payable(kept, fee);
            }
        }
    }
}

/// The outputs with `share` taken from the amount of each.
pub open spec fn charged(outs: Seq<OutputView>, share: int) -> Seq<OutputView> {
    outs.map_values(
        |o: OutputView| OutputView { value: (o.value - share) as u64, script_pubkey: o.script_pubkey },
    )
}

impl BitcoinTxView {
    /// Whether all inputs were seen to become fully signed.
    pub open spec fn signed(self) -> bool {
        self.signed_inputs as int == self.input.len()
    }

    /// Whether every input can go on the wire.
    pub open spec fn encodable(self) -> bool {
        forall|i: int| 0 <= i < self.input.len() ==> (#[trigger] self.input[i]).txin().is_ok()
    }

    /// The transaction as it goes on the wire.
    pub open spec fn wire(self) -> Result<TransactionView, ContractError> {
        if self.encodable() {
            Ok(
                TransactionView {
                    version: TX_VERSION,
                    lock_time: self.lock_time,
                    input: Seq::new(self.input.len(), |i: int| self.input[i].txin().unwrap()),
                    output: self.output,
                },
            )
        } else {
            Err(ContractError::SignatureEncoding)
        }
    }

    /// The size of the transaction in virtual bytes.
    pub open spec fn vsize(self) -> Result<u64, ContractError> {
        match self.wire() {
            Ok(tx) => Ok(tx_vsize(tx)),
            Err(e) => Err(e),
        }
    }

    /// The identifier of the transaction.
    pub open spec fn txid(self) -> Result<[u8; 32], ContractError> {
        match self.wire() {
            Ok(tx) => Ok(tx_id(tx.without_witnesses())),
            Err(e) => Err(e),
        }
    }

    /// The summed amounts of the outputs.
    pub open spec fn value(self) -> int {
        sum(output_values(self.output))
    }

    /// The summed amounts of the inputs.
    pub open spec fn input_value(self) -> int {
        sum(input_amounts(self.input))
    }

    /// The digest that the signatures of input `index` sign.
    pub open spec fn sig_message(self, index: int) -> Result<Seq<u8>, ContractError> {
        match self.wire() {
            Err(e) => Err(e),
            Ok(tx) => if !(0 <= index < self.input.len()) {
                Err(ContractError::InputIndexOutOfBounds(index as usize))
            } else {
                match segwit_sighash(
                    tx.without_witnesses(),
                    index,
                    self.input[index].redeem_script,
                    self.input[index].amount,
                ) {
                    Some(hash) => Ok(hash@),
                    None => Err(ContractError::Sighash),
                }
            },
        }
    }

    /// The transaction with the message of input `index` set to the digest
    /// that its signatures sign.
    pub open spec fn populate_input_sig_message(self, index: int) -> Result<
        BitcoinTxView,
        ContractError,
    > {
        match self.sig_message(index) {
            Err(e) => Err(e),
            Ok(message) => Ok(
                BitcoinTxView {
                    input: self.input.update(
                        index,
                        InputView {
                            signatures: ThresholdSigView {
                                message,
                                ..self.input[index].signatures
                            },
                            ..self.input[index]
                        },
                    ),
                    ..self
                },
            ),
        }
    }

    /// The transaction with `fee` satoshis deducted from its outputs. A fee
    /// above what the outputs hold together cannot be deducted.
    pub open spec fn deduct_fee(self, fee: u64) -> Result<BitcoinTxView, ContractError> {
        if fee == 0 {
            Ok(self)
        } else if fee > self.value() {
            Err(ContractError::BitcoinFee(fee))
        } else {
            let (kept, share) = fee_rounds(self.output, fee as int);
            Ok(BitcoinTxView { output: charged(kept, share), ..self })
        }
    }
}

impl BitcoinTx {
    /// A transaction with the given lock time and neither inputs nor outputs.
    pub fn with_lock_time(lock_time: u32) -> (r: Self)
        ensures
            r@ == (BitcoinTxView {
                lock_time,
                signed_inputs: 0,
                input: Seq::empty(),
                output: Seq::empty(),
            }),
    {
        let r = BitcoinTx { lock_time, signed_inputs: 0, input: Vec::new(), output: Vec::new() };
        assert(r@.input =~= Seq::empty());
        assert(r@.output =~= Seq::empty());
        r
    }

    /// The transaction as it goes on the wire.
    pub fn to_bitcoin_tx(&self) -> (r: ContractResult<Transaction>)
        ensures
            yields(r, self@.wire()),
    {
        let mut input: Vec<TxIn> = Vec::new();
        let mut i: usize = 0;
        while i < self.input.len()
            invariant
                i <= self.input.len(),
                input.len() == i,
                forall|j: int| 0 <= j < i ==> (#[trigger] self@.input[j]).txin().is_ok(),
                forall|j: int|
                    0 <= j < i ==> (#[trigger] input@[j])@ == self@.input[j].txin().unwrap(),
            decreases self.input.len() - i,
        {
            match self.input[i].to_txin() {
                Ok(txin) => {
                    input.push(txin);
                },
                Err(e) => {
                    assert(self@.input[i as int].txin().is_err());
                    assert(!self@.encodable());
                    return Err(e);
                },
            }
            i += 1;
        }
        let tx = Transaction {
            version: TX_VERSION,
            lock_time: self.lock_time,
            input,
            output: copy_outputs(&self.output),
        };
        assert(self@.encodable());
        assert(tx@.input =~= self@.wire().unwrap().input);
        Ok(tx)
    }

    /// Whether all inputs were seen to become fully signed.
    pub fn signed(&self) -> (r: bool)
        ensures
            r == self@.signed(),
    {
        self.signed_inputs as usize == self.input.len()
    }

    /// The size of the transaction in virtual bytes, with the witnesses that
    /// the signatures give so far.
    pub fn vsize(&self) -> (r: ContractResult<u64>)
        ensures
            r == self@.vsize(),
    {
        match self.to_bitcoin_tx() {
            Ok(tx) => Ok(transaction_vsize(&tx)),
            Err(e) => Err(e),
        }
    }

    /// The identifier of the transaction. It changes with every change of an
    /// input or an output.
    pub fn txid(&self) -> (r: ContractResult<[u8; 32]>)
        ensures
            r == self@.txid(),
    {
        match self.to_bitcoin_tx() {
            Ok(tx) => Ok(transaction_txid(&tx)),
            Err(e) => Err(e),
        }
    }

    /// The summed amounts of the outputs, in satoshis.
    pub fn value(&self) -> (r: ContractResult<u64>)
        ensures
            match r {
                Ok(v) => v == self@.value(),
                Err(e) => e == ContractError::Overflow && self@.value() > u64::MAX,
            },
    {
        sum_outputs(&self.output, self.output.len())
    }

    /// Computes the digest that the signatures of input `input_index` sign
    /// and stores it as the message of that input.
    pub fn populate_input_sig_message(&mut self, input_index: usize) -> (r: ContractResult<()>)
        ensures
            moves(r, old(self)@, final(self)@, old(self)@.populate_input_sig_message(input_index as int)),
    {
        let tx = match self.to_bitcoin_tx() {
            Ok(tx) => tx,
            Err(e) => {
                return Err(e);
            },
        };
        if input_index >= self.input.len() {
            return Err(ContractError::InputIndexOutOfBounds(input_index));
        }
        let hash = match transaction_sighash(
            &tx,
            input_index,
            &self.input[input_index].redeem_script,
            self.input[input_index].amount,
        ) {
            Some(h) => h,
            None => {
                return Err(ContractError::Sighash);
            },
        };
        let input = &mut self.input[input_index];
        input.signatures.set_message(hash);
        assert(self@.input =~= old(self)@.populate_input_sig_message(
            input_index as int,
        ).unwrap().input);
        Ok(())
    }

    /// Deducts `fee` satoshis from the outputs in equal shares. Outputs that
    /// cannot pay their share beyond their dust value are dropped, which
    /// raises the share of the others. A fee above what the outputs hold
    /// together is refused, and nothing is changed.
    pub fn deduct_fee(&mut self, fee: u64) -> (r: ContractResult<()>)
        ensures
            moves(r, old(self)@, final(self)@, old(self)@.deduct_fee(fee)),
    {
        if fee == 0 {
            return Ok(());
        }
        match sum_outputs(&self.output, self.output.len()) {
            Ok(total) => {
                if fee > total {
                    return Err(ContractError::BitcoinFee(fee));
                }
            },
            // The outputs hold more than 64 bits can tell, and so more than any fee.
            Err(_) => {},
        }
        let mut done = false;
        let mut share: u64 = 0;
        while !done
            invariant
                fee > 0,
                self.lock_time == old(self).lock_time,
                self.signed_inputs == old(self).signed_inputs,
                self.input == old(self).input,
                old(self).output.len() > 0,
                !done ==> self.output.len() > 0 && fee_rounds(
                    outputs_view(self.output@),
                    fee as int,
                ) == fee_rounds(old(self)@.output, fee as int),
                done ==> (outputs_view(self.output@), share as int) == fee_rounds(
                    old(self)@.output,
                    fee as int,
                ),
            decreases
                    (if done {
                        0
                    } else {
                        1 + self.output.len()
                    }),
        {
            let ghost outs = outputs_view(self.output@);
            let threshold: u64 = fee / (self.output.len() as u64);
            let mut least: u64 = u64::MAX;
            let mut kept: Vec<Output> = Vec::new();
            let mut i: usize = 0;
            while i < self.output.len()
                invariant
                    i <= self.output.len(),
                    outs == outputs_view(self.output@),
                    least == least_adjusted_upto(outputs_view(kept@), kept.len() as int),
                    outputs_view(kept@) == paying_upto(outs, threshold as int, i as int),
                decreases self.output.len() - i,
            {
                let output = &self.output[i];
                let dust: u64 = dust_value(&output.script_pubkey);
                let adjusted: u64 = if output.value >= dust {
                    output.value - dust
                } else {
                    0
                };
                assert(adjusted == adjusted_value(outs[i as int]));
                if adjusted > threshold {
                    let ghost before = outputs_view(kept@);
                    kept.push(output.clone());
                    assert(outputs_view(kept@) =~= before.push(outs[i as int]));
                    proof {
                        lemma_least_adjusted_agree(
                            before,
                            outputs_view(kept@),
                            before.len() as int,
                        );
                    }
                    if adjusted < least {
                        least = adjusted;
                    }
                }
                i += 1;
            }
            proof {
                lemma_round_shrinks(outs, fee as int);
            }
            if kept.len() == 0 {
                share = threshold;
                done = true;
            } else {
                let next: u64 = fee / (kept.len() as u64);
                if least >= next {
                    share = next;
                    done = true;
                }
            }
            self.output = kept;
        }
        proof {
            lemma_fee_rounds_payable(old(self)@.output, fee as int);
        }
        let ghost kept = outputs_view(self.output@);
        let mut i: usize = 0;
        while i < self.output.len()
            invariant
                i <= self.output.len(),
                self.lock_time == old(self).lock_time,
                self.signed_inputs == old(self).signed_inputs,
                self.input == old(self).input,
                self.output.len() == kept.len(),
                forall|k: int| 0 <= k < kept.len() ==> (#[trigger] kept[k]).value >= share,
                forall|k: int|
                    0 <= k < i ==> (#[trigger] self.output@[k])@ == charged(kept, share as int)[k],
                forall|k: int| i <= k < kept.len() ==> (#[trigger] self.output@[k])@ == kept[k],
            decreases self.output.len() - i,
        {
            assert(kept[i as int].value >= share);
            let output = &mut self.output[i];
            output.value = output.value - share;
            i += 1;
        }
        assert(outputs_view(self.output@) =~= charged(kept, share as int));
        Ok(())
    }
}

/// The summed amounts of the first `n` outputs.
pub(crate) fn sum_outputs(outs: &Vec<Output>, n: usize) -> (r: ContractResult<u64>)
    requires
        n <= outs.len(),
    ensures
        match r {
            Ok(v) => v == sum_upto(output_values(outputs_view(outs@)), n as int),
            Err(e) => e == ContractError::Overflow && sum_upto(
                output_values(outputs_view(outs@)),
                n as int,
            ) > u64::MAX,
        },
{
    let ghost values = output_values(outputs_view(outs@));
    assert(all_nonneg(values));
    let mut total: u64 = 0;
    let mut i: usize = 0;
    while i < n
        invariant
            i <= n <= outs.len(),
            values == output_values(outputs_view(outs@)),
            all_nonneg(values),
            total == sum_upto(values, i as int),
        decreases n - i,
    {
        match total.checked_add(outs[i].value) {
            Some(t) => {
                total = t;
            },
            None => {
                proof {
                    assert(sum_upto(values, i + 1) == total + outs[i as int].value);
                    lemma_sum_upto_monotone(values, i + 1, n as int);
                }
                return Err(ContractError::Overflow);
            },
        }
        i += 1;
    }
    Ok(total)
}

/// The summed amounts of the first `n` inputs.
pub(crate) fn sum_inputs(ins: &Vec<Input>, n: usize) -> (r: ContractResult<u64>)
    requires
        n <= ins.len(),
    ensures
        match r {
            Ok(v) => v == sum_upto(input_amounts(inputs_view(ins@)), n as int),
            Err(e) => e == ContractError::Overflow && sum_upto(
                input_amounts(inputs_view(ins@)),
                n as int,
            ) > u64::MAX,
        },
{
    let ghost values = input_amounts(inputs_view(ins@));
    assert(all_nonneg(values));
    let mut total: u64 = 0;
    let mut i: usize = 0;
    while i < n
        invariant
            i <= n <= ins.len(),
            values == input_amounts(inputs_view(ins@)),
            all_nonneg(values),
            total == sum_upto(values, i as int),
        decreases n - i,
    {
        match total.checked_add(ins[i].amount) {
            Some(t) => {
                total = t;
            },
            None => {
                proof {
                    assert(sum_upto(values, i + 1) == total + ins[i as int].amount);
                    lemma_sum_upto_monotone(values, i + 1, n as int);
                }
                return Err(ContractError::Overflow);
            },
        }
        i += 1;
    }
    Ok(total)
}

} // verus!
