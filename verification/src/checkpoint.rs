use vstd::prelude::*;
use crate::backend::{new_op_return, op_return_script, transaction_vsize, tx_vsize};
use crate::constants::DEFAULT_FEE_RATE;
use crate::error::{yields, ContractError, ContractResult};
use crate::interface::{CheckpointConfig, Coin, CoinView};
use crate::math::{all_nonneg, lemma_sum_upto_monotone, min_int, sum_upto};
use crate::signatory::{SignatorySet, SignatorySetView};
use crate::tx::{
    copy_outputs, input_amounts, inputs_view, output_values, outputs_view, sum_inputs,
    sum_outputs, txins_view, txs_view, BitcoinTx, BitcoinTxView, Input, InputView, Output,
    OutputView, Transaction, TransactionView,
};

verus! {

/// The state of a checkpoint. A checkpoint starts as `Building` and moves
/// through the three states in order.
#[derive(Clone, Copy, Debug, PartialEq, Eq, Structural)]
pub enum CheckpointStatus {
    /// Inputs, outputs and pending transfers can still be added.
    Building,
    /// The structure is frozen and the inputs are being signed.
    Signing,
    /// All inputs are signed; the checkpoint transaction can be broadcast.
    Complete,
}

impl Default for CheckpointStatus {
    fn default() -> (r: Self)
        ensures
            r == CheckpointStatus::Building,
    {
        CheckpointStatus::Building
    }
}

/// The three batches of transactions of a checkpoint, in the order in
/// which they are signed.
#[derive(Clone, Copy, Debug, PartialEq, Eq, Structural)]
pub enum BatchType {
    /// The final emergency disbursal transactions, which pay the holders.
    Disbursal,
    /// The intermediate emergency disbursal transaction, which spends the
    /// reserve output and pays into the final transactions.
    IntermediateTx,
    /// The checkpoint transaction.
    Checkpoint,
}

impl BatchType {
    /// The position of the batch in a checkpoint.
    pub open spec fn spec_index(self) -> int {
        match self {
            BatchType::Disbursal => 0,
            BatchType::IntermediateTx => 1,
            BatchType::Checkpoint => 2,
        }
    }

    /// The position of the batch in a checkpoint.
    pub fn index(self) -> (r: usize)
        ensures
            r == self.spec_index(),
    {
        match self {
            BatchType::Disbursal => 0,
            BatchType::IntermediateTx => 1,
            BatchType::Checkpoint => 2,
        }
    }
}

/// Transactions that are signed together: a signatory submits its
/// signatures for all of them at once.
#[derive(Debug, PartialEq)]
pub struct Batch {
    /// The number of transactions that were seen to become fully signed.
    pub signed_txs: u16,
    /// The transactions.
    pub batch: Vec<BitcoinTx>,
}

/// The value of a `Batch`.
pub struct BatchView {
    pub signed_txs: u16,
    pub batch: Seq<BitcoinTxView>,
}

impl View for Batch {
    type V = BatchView;

    open spec fn view(&self) -> BatchView {
        BatchView { signed_txs: self.signed_txs, batch: txs_view(self.batch@) }
    }
}

impl BatchView {
    /// Whether all transactions were seen to become fully signed.
    pub open spec fn signed(self) -> bool {
        self.signed_txs as int == self.batch.len()
    }

    /// A batch without transactions.
    pub open spec fn empty() -> BatchView {
        BatchView { signed_txs: 0, batch: Seq::empty() }
    }

    /// A batch of one transaction without inputs and outputs.
    pub open spec fn single() -> BatchView {
        BatchView {
            signed_txs: 0,
            batch: seq![
                BitcoinTxView {
                    lock_time: 0,
                    signed_inputs: 0,
                    input: Seq::empty(),
                    output: Seq::empty(),
                },
            ],
        }
    }
}

/// A copy of a list of transactions.
pub fn copy_txs(txs: &Vec<BitcoinTx>) -> (r: Vec<BitcoinTx>)
    ensures
        txs_view(r@) == txs_view(txs@),
{
    let mut out: Vec<BitcoinTx> = Vec::new();
    let mut i: usize = 0;
    while i < txs.len()
        invariant
            i <= txs.len(),
            out.len() == i,
            forall|j: int| 0 <= j < i ==> (#[trigger] out@[j])@ == txs@[j]@,
        decreases txs.len() - i,
    {
        out.push(txs[i].clone());
        i += 1;
    }
    assert(txs_view(out@) =~= txs_view(txs@));
    out
}

impl Clone for Batch {
    fn clone(&self) -> (r: Self)
        ensures
            r@ == self@,
    {
        Batch { signed_txs: self.signed_txs, batch: copy_txs(&self.batch) }
    }
}

impl Default for Batch {
    fn default() -> (r: Self)
        ensures
            r@ == BatchView::empty(),
    {
        Batch::new()
    }
}

impl Batch {
    /// A batch without transactions.
    pub fn new() -> (r: Self)
        ensures
            r@ == BatchView::empty(),
    {
        let r = Batch { signed_txs: 0, batch: Vec::new() };
        assert(r@.batch =~= Seq::empty());
        r
    }

    /// Whether all transactions were seen to become fully signed.
    pub fn signed(&self) -> (r: bool)
        ensures
            r == self@.signed(),
    {
        self.signed_txs as usize == self.batch.len()
    }

    /// The number of transactions.
    pub fn len(&self) -> (r: usize)
        ensures
            r == self@.batch.len(),
    {
        self.batch.len()
    }

    /// Adds a transaction at the end.
    pub fn push(&mut self, tx: BitcoinTx)
        ensures
            final(self)@ == (BatchView { batch: old(self)@.batch.push(tx@), ..old(self)@ }),
    {
        self.batch.push(tx);
        assert(self@.batch =~= old(self)@.batch.push(tx@));
    }
}

/// The values of a sequence of batches.
pub open spec fn batches_view(s: Seq<Batch>) -> Seq<BatchView> {
    s.map_values(|b: Batch| b@)
}

/// The values of a sequence of pending transfers.
pub open spec fn pending_view(s: Seq<(String, Coin)>) -> Seq<(Seq<char>, CoinView)> {
    s.map_values(|p: (String, Coin)| (p.0@, p.1@))
}

/// The estimated witness sizes of a sequence of inputs.
pub open spec fn witness_sizes(ins: Seq<InputView>) -> Seq<int> {
    ins.map_values(|i: InputView| i.est_witness_vsize as int)
}

/// One step in the chain of transactions that hold the reserve: the
/// checkpoint transaction, which spends the reserve output of the step
/// before and the deposits, and the emergency disbursal transactions, which
/// pay the reserve out to the holders if the chain of checkpoints halts.
#[derive(Debug, PartialEq)]
pub struct Checkpoint {
    /// The state of the checkpoint.
    pub status: CheckpointStatus,
    /// The transfers that are settled once the checkpoint is fully signed,
    /// by destination.
    pub pending: Vec<(String, Coin)>,
    /// The batches: final disbursal transactions, intermediate disbursal
    /// transaction, checkpoint transaction.
    pub batches: Vec<Batch>,
    /// The fee rate for the transactions, in satoshis per virtual byte.
    pub fee_rate: u64,
    /// The Bitcoin height at which the checkpoint became fully signed.
    pub signed_at_btc_height: Option<u32>,
    /// Whether deposits to the signatory set are honoured.
    pub deposits_enabled: bool,
    /// The fees collected from deposits and withdrawals, in satoshis.
    pub fees_collected: u64,
    /// The signatory set, to which the reserve output is paid.
    pub sigset: SignatorySet,
}

/// The value of a `Checkpoint`.
pub struct CheckpointView {
    pub status: CheckpointStatus,
    pub pending: Seq<(Seq<char>, CoinView)>,
    pub batches: Seq<BatchView>,
    pub fee_rate: u64,
    pub signed_at_btc_height: Option<u32>,
    pub deposits_enabled: bool,
    pub fees_collected: u64,
    pub sigset: SignatorySetView,
}

impl View for Checkpoint {
    type V = CheckpointView;

    open spec fn view(&self) -> CheckpointView {
        CheckpointView {
            status: self.status,
            pending: pending_view(self.pending@),
            batches: batches_view(self.batches@),
            fee_rate: self.fee_rate,
            signed_at_btc_height: self.signed_at_btc_height,
            deposits_enabled: self.deposits_enabled,
            fees_collected: self.fees_collected,
            sigset: self.sigset@,
        }
    }
}

/// A copy of a list of batches.
pub fn copy_batches(batches: &Vec<Batch>) -> (r: Vec<Batch>)
    ensures
        batches_view(r@) == batches_view(batches@),
{
    let mut out: Vec<Batch> = Vec::new();
    let mut i: usize = 0;
    while i < batches.len()
        invariant
            i <= batches.len(),
            out.len() == i,
            forall|j: int| 0 <= j < i ==> (#[trigger] out@[j])@ == batches@[j]@,
        decreases batches.len() - i,
    {
        out.push(batches[i].clone());
        i += 1;
    }
    assert(batches_view(out@) =~= batches_view(batches@));
    out
}

/// A copy of a list of pending transfers.
pub fn copy_pending(pending: &Vec<(String, Coin)>) -> (r: Vec<(String, Coin)>)
    ensures
        pending_view(r@) == pending_view(pending@),
{
    let mut out: Vec<(String, Coin)> = Vec::new();
    let mut i: usize = 0;
    while i < pending.len()
        invariant
            i <= pending.len(),
            out.len() == i,
            forall|j: int|
                0 <= j < i ==> (#[trigger] out@[j]).0@ == pending@[j].0@ && out@[j].1@
                    == pending@[j].1@,
        decreases pending.len() - i,
    {
        out.push((pending[i].0.clone(), pending[i].1.clone()));
        i += 1;
    }
    assert(pending_view(out@) =~= pending_view(pending@));
    out
}

impl Clone for Checkpoint {
    fn clone(&self) -> (r: Self)
        ensures
            r@ == self@,
    {
        Checkpoint {
            status: self.status,
            pending: copy_pending(&self.pending),
            batches: copy_batches(&self.batches),
            fee_rate: self.fee_rate,
            signed_at_btc_height: self.signed_at_btc_height,
            deposits_enabled: self.deposits_enabled,
            fees_collected: self.fees_collected,
            sigset: self.sigset.clone(),
        }
    }
}

/// The number of batches from `start` on that are signed without a gap.
pub open spec fn signed_from(batches: Seq<BatchView>, start: int) -> int
    decreases batches.len() - start,
{
    if start < 0 || start >= batches.len() {
        0
    } else if batches[start].signed() {
        1 + signed_from(batches, start + 1)
    } else {
        0
    }
}

/// There are no more signed batches than batches.
pub proof fn lemma_signed_from_bound(batches: Seq<BatchView>, start: int)
    requires
        0 <= start <= batches.len(),
    ensures
        0 <= signed_from(batches, start) <= batches.len() - start,
    decreases batches.len() - start,
{
    if start < batches.len() && batches[start].signed() {
        lemma_signed_from_bound(batches, start + 1);
    }
}

/// The first `n` transactions as they go on the wire, added to `found`.
pub open spec fn wire_all(found: Seq<TransactionView>, txs: Seq<BitcoinTxView>, n: int) -> Result<
    Seq<TransactionView>,
    ContractError,
>
    decreases n,
{
    if n <= 0 {
        Ok(found)
    } else {
        match wire_all(found, txs, n - 1) {
            Err(e) => Err(e),
            Ok(wires) => match txs[n - 1].wire() {
                Err(e) => Err(e),
                Ok(wire) => Ok(wires.push(wire)),
            },
        }
    }
}

/// Once a transaction cannot go on the wire, none of the list do.
pub proof fn lemma_wire_all_fails(
    found: Seq<TransactionView>,
    txs: Seq<BitcoinTxView>,
    k: int,
    n: int,
)
    requires
        0 <= k <= n,
        wire_all(found, txs, k).is_err(),
    ensures
        wire_all(found, txs, n) == wire_all(found, txs, k),
    decreases n,
{
    if k < n {
        lemma_wire_all_fails(found, txs, k, n - 1);
    }
}

/// The values of a sequence of wire transactions.
pub open spec fn wires_view(s: Seq<Transaction>) -> Seq<TransactionView> {
    s.map_values(|t: Transaction| t@)
}

impl CheckpointView {
    /// A checkpoint in the `Building` state for the signatory set: no final
    /// disbursal transaction, an empty intermediate transaction and an
    /// empty checkpoint transaction.
    pub open spec fn fresh(sigset: SignatorySetView) -> CheckpointView {
        CheckpointView {
            status: CheckpointStatus::Building,
            pending: Seq::empty(),
            batches: seq![BatchView::empty(), BatchView::single(), BatchView::single()],
            fee_rate: DEFAULT_FEE_RATE,
            signed_at_btc_height: None,
            deposits_enabled: true,
            fees_collected: 0,
            sigset,
        }
    }

    /// The number of batches that are signed, counted from the first up to
    /// the first that is not.
    pub open spec fn signed_batches(self) -> int {
        signed_from(self.batches, 0)
    }

    /// Whether all batches are signed.
    pub open spec fn signed(self) -> bool {
        self.signed_batches() == self.batches.len()
    }

    /// The batch of the given kind.
    pub open spec fn batch(self, kind: BatchType) -> Result<BatchView, ContractError> {
        if kind.spec_index() < self.batches.len() {
            Ok(self.batches[kind.spec_index()])
        } else {
            Err(ContractError::MissingBatch)
        }
    }

    /// The first transaction of the batch of the given kind.
    pub open spec fn first_tx(self, kind: BatchType) -> Result<BitcoinTxView, ContractError> {
        match self.batch(kind) {
            Err(e) => Err(e),
            Ok(batch) => if batch.batch.len() == 0 {
                Err(ContractError::MissingTransaction)
            } else {
                Ok(batch.batch[0])
            },
        }
    }

    /// The checkpoint transaction as it goes on the wire.
    pub open spec fn checkpoint_tx(self) -> Result<TransactionView, ContractError> {
        match self.batch(BatchType::Checkpoint) {
            Err(e) => Err(e),
            Ok(batch) => if batch.batch.len() == 0 {
                Err(ContractError::MissingTransaction)
            } else {
                batch.batch.last().wire()
            },
        }
    }

    /// The first output of the checkpoint transaction, if it has one.
    pub open spec fn reserve_output(self) -> Result<Option<OutputView>, ContractError> {
        match self.checkpoint_tx() {
            Err(e) => Err(e),
            Ok(tx) => if tx.output.len() == 0 {
                Ok(None)
            } else {
                Ok(Some(tx.output[0]))
            },
        }
    }

    /// The emergency disbursal transactions as they go on the wire: the
    /// intermediate transaction, then the final transactions. None if
    /// there is no intermediate transaction.
    pub open spec fn emergency_disbursal_txs(self) -> Result<Seq<TransactionView>, ContractError> {
        match self.batch(BatchType::IntermediateTx) {
            Err(e) => Err(e),
            Ok(batch) => if batch.batch.len() == 0 {
                Ok(Seq::empty())
            } else {
                match batch.batch[0].wire() {
                    Err(e) => Err(e),
                    Ok(first) => wire_all(seq![first], self.batches[0].batch, self.batches[0].batch.len() as int),
                }
            },
        }
    }

    /// What the checkpoint transaction leaves to the miners: the amounts of
    /// its inputs less those of its outputs.
    pub open spec fn checkpoint_tx_miner_fees(self) -> Result<u64, ContractError> {
        match self.first_tx(BatchType::Checkpoint) {
            Err(e) => Err(e),
            Ok(tx) => if tx.input_value() > u64::MAX {
                Err(ContractError::Overflow)
            } else if tx.value() > tx.input_value() {
                Err(ContractError::InsufficientReserve)
            } else {
                Ok((tx.input_value() - tx.value()) as u64)
            },
        }
    }

    /// The two outputs that are put in front of the checkpoint transaction's
    /// outputs when the checkpoint is sealed: the reserve output, still
    /// without its amount, and the commitment to `commitment`.
    pub open spec fn additional_outputs(
        self,
        config: CheckpointConfig,
        commitment: Seq<u8>,
    ) -> Result<Seq<OutputView>, ContractError> {
        match self.sigset.output_script(
            seq![0u8],
            config.sigset_threshold.0,
            config.sigset_threshold.1,
        ) {
            Err(e) => Err(e),
            Ok(script) => if commitment.len() >= 0x1_0000_0000 {
                Err(ContractError::Overflow)
            } else {
                Ok(
                    seq![
                        OutputView { value: 0, script_pubkey: script },
                        OutputView { value: 0, script_pubkey: op_return_script(commitment) },
                    ],
                )
            },
        }
    }

    /// The estimated size of the checkpoint transaction once it is sealed
    /// and fully signed, in virtual bytes: the size of the transaction with
    /// the two additional outputs, cut to the configured numbers of inputs
    /// and outputs, and the estimated witness sizes of the inputs that stay.
    pub open spec fn est_vsize(self, config: CheckpointConfig, commitment: Seq<u8>) -> Result<
        u64,
        ContractError,
    > {
        match self.first_tx(BatchType::Checkpoint) {
            Err(e) => Err(e),
            Ok(cp) => match cp.wire() {
                Err(e) => Err(e),
                Ok(tx) => match self.additional_outputs(config, commitment) {
                    Err(e) => Err(e),
                    Ok(extra) => {
                        let all = extra + tx.output;
                        let n_out = min_int(config.max_outputs as int, all.len() as int);
                        let n_in = min_int(config.max_inputs as int, tx.input.len() as int);
                        let size = tx_vsize(
                            TransactionView {
                                input: tx.input.take(n_in),
                                output: all.take(n_out),
                                ..tx
                            },
                        ) + sum_upto(witness_sizes(cp.input), n_in);
                        if all.len() > usize::MAX || size > u64::MAX {
                            Err(ContractError::Overflow)
                        } else {
                            Ok(size as u64)
                        }
                    },
                },
            },
        }
    }

    /// The miner fee of the checkpoint transaction at the checkpoint's fee rate.
    pub open spec fn base_fee(self, config: CheckpointConfig, commitment: Seq<u8>) -> Result<
        u64,
        ContractError,
    > {
        match self.est_vsize(config, commitment) {
            Err(e) => Err(e),
            Ok(size) => if size * self.fee_rate > u64::MAX {
                Err(ContractError::Overflow)
            } else {
                Ok((size * self.fee_rate) as u64)
            },
        }
    }

    /// The summed amounts of the inputs and of the outputs of the checkpoint
    /// transaction, as far as the configured numbers admit them.
    pub open spec fn calc_total_input_and_output(self, config: CheckpointConfig) -> Result<
        (u64, u64),
        ContractError,
    > {
        match self.first_tx(BatchType::Checkpoint) {
            Err(e) => Err(e),
            Ok(tx) => {
                let total_in = sum_upto(
                    input_amounts(tx.input),
                    min_int(config.max_inputs as int, tx.input.len() as int),
                );
                let total_out = sum_upto(
                    output_values(tx.output),
                    min_int(config.max_outputs as int, tx.output.len() as int),
                );
                if total_in > u64::MAX || total_out > u64::MAX {
                    Err(ContractError::Overflow)
                } else {
                    Ok((total_in as u64, total_out as u64))
                }
            },
        }
    }
}

/// The summed estimated witness sizes of the first `n` inputs.
pub(crate) fn sum_witness_sizes(ins: &Vec<Input>, n: usize) -> (r: ContractResult<u64>)
    requires
        n <= ins.len(),
    ensures
        match r {
            Ok(v) => v == sum_upto(witness_sizes(inputs_view(ins@)), n as int),
            Err(e) => e == ContractError::Overflow && sum_upto(
                witness_sizes(inputs_view(ins@)),
                n as int,
            ) > u64::MAX,
        },
{
    let ghost values = witness_sizes(inputs_view(ins@));
    assert(all_nonneg(values));
    let mut total: u64 = 0;
    let mut i: usize = 0;
    while i < n
        invariant
            i <= n <= ins.len(),
            values == witness_sizes(inputs_view(ins@)),
            all_nonneg(values),
            total == sum_upto(values, i as int),
        decreases n - i,
    {
        match total.checked_add(ins[i].est_witness_vsize) {
            Some(t) => {
                total = t;
            },
            None => {
                proof {
                    assert(sum_upto(values, i + 1) == total + ins[i as int].est_witness_vsize);
                    lemma_sum_upto_monotone(values, i + 1, n as int);
                }
                return Err(ContractError::Overflow);
            },
        }
        i += 1;
    }
    Ok(total)
}

/// The lesser of a configured number and a length.
fn capped(limit: u64, len: usize) -> (r: usize)
    ensures
        r == min_int(limit as int, len as int),
{
    if limit < len as u64 {
        limit as usize
    } else {
        len
    }
}

impl Checkpoint {
    /// A checkpoint in the `Building` state for the signatory set.
    pub fn new(sigset: SignatorySet) -> (r: ContractResult<Self>)
        ensures
            yields(r, Ok::<_, ContractError>(CheckpointView::fresh(sigset@))),
    {
        let mut checkpoint = Checkpoint {
            status: CheckpointStatus::default(),
            fee_rate: DEFAULT_FEE_RATE,
            signed_at_btc_height: None,
            deposits_enabled: true,
            sigset,
            fees_collected: 0,
            pending: Vec::new(),
            batches: Vec::new(),
        };
        let disbursal_batch = Batch::new();
        checkpoint.batches.push(disbursal_batch);

        let mut intermediate_tx_batch = Batch::new();
        intermediate_tx_batch.push(BitcoinTx::with_lock_time(0));
        checkpoint.batches.push(intermediate_tx_batch);

        let checkpoint_tx = BitcoinTx::with_lock_time(0);
        let mut checkpoint_batch = Batch::new();
        checkpoint_batch.push(checkpoint_tx);
        checkpoint.batches.push(checkpoint_batch);

        assert(checkpoint@.pending =~= Seq::empty());
        assert(checkpoint@.batches[1] =~= BatchView::single()) by {
            assert(checkpoint@.batches[1].batch =~= BatchView::single().batch);
        }
        assert(checkpoint@.batches[2] =~= BatchView::single()) by {
            assert(checkpoint@.batches[2].batch =~= BatchView::single().batch);
        }
        assert(checkpoint@.batches =~= CheckpointView::fresh(sigset@).batches);
        Ok(checkpoint)
    }

    /// Moves the checkpoint to the `Complete` state.
    pub fn advance(&mut self)
        ensures
            final(self)@ == (CheckpointView { status: CheckpointStatus::Complete, ..old(self)@ }),
    {
        self.status = CheckpointStatus::Complete;
    }

    /// The number of batches that are signed, counted from the first up to
    /// the first that is not.
    pub fn signed_batches(&self) -> (r: u64)
        ensures
            r == self@.signed_batches(),
            r <= self@.batches.len(),
    {
        self.count_signed() as u64
    }

    /// The number of batches that are signed without a gap from the first on.
    fn count_signed(&self) -> (r: usize)
        ensures
            r == self@.signed_batches(),
            r <= self.batches.len(),
            r < self.batches.len() ==> !self@.batches[r as int].signed(),
    {
        let mut count: usize = 0;
        while count < self.batches.len() && self.batches[count].signed()
            invariant
                count <= self.batches.len(),
                count + signed_from(self@.batches, count as int) == signed_from(self@.batches, 0),
            decreases self.batches.len() - count,
        {
            count += 1;
        }
        proof {
            lemma_signed_from_bound(self@.batches, 0);
        }
        count
    }

    /// Whether all batches are signed.
    pub fn signed(&self) -> (r: bool)
        ensures
            r == self@.signed(),
    {
        self.signed_batches() == self.batches.len() as u64
    }

    /// The batch that is being signed, or `None` if all batches are signed.
    pub fn current_batch(&self) -> (r: Option<Batch>)
        ensures
            match r {
                Some(batch) => !self@.signed() && batch@ == self@.batches[self@.signed_batches()],
                None => self@.signed(),
            },
    {
        let pos = self.count_signed();
        if pos == self.batches.len() {
            return None;
        }
        Some(self.batches[pos].clone())
    }

    /// The time at which the checkpoint was created, in seconds.
    pub fn create_time(&self) -> (r: u64)
        ensures
            r == self@.sigset.create_time,
    {
        self.sigset.create_time()
    }

    /// The batch of the given kind.
    pub fn batch(&self, kind: BatchType) -> (r: ContractResult<&Batch>)
        ensures
            match r {
                Ok(batch) => self@.batch(kind) == Ok::<_, ContractError>(batch@)
                    && kind.spec_index() < self.batches.len() && *batch
                    == self.batches[kind.spec_index()],
                Err(e) => self@.batch(kind) == Err::<BatchView, _>(e),
            },
    {
        let i = kind.index();
        if i < self.batches.len() {
            Ok(&self.batches[i])
        } else {
            Err(ContractError::MissingBatch)
        }
    }

    /// The first transaction of the batch of the given kind.
    pub fn first_tx(&self, kind: BatchType) -> (r: ContractResult<&BitcoinTx>)
        ensures
            match r {
                Ok(tx) => self@.first_tx(kind) == Ok::<_, ContractError>(tx@)
                    && kind.spec_index() < self.batches.len()
                    && self.batches[kind.spec_index()].batch.len() > 0 && *tx
                    == self.batches[kind.spec_index()].batch[0],
                Err(e) => self@.first_tx(kind) == Err::<BitcoinTxView, _>(e),
            },
    {
        let batch = match self.batch(kind) {
            Ok(b) => b,
            Err(e) => {
                return Err(e);
            },
        };
        if batch.batch.len() == 0 {
            Err(ContractError::MissingTransaction)
        } else {
            Ok(&batch.batch[0])
        }
    }

    /// The checkpoint transaction as it goes on the wire.
    pub fn checkpoint_tx(&self) -> (r: ContractResult<Transaction>)
        ensures
            yields(r, self@.checkpoint_tx()),
    {
        let batch = match self.batch(BatchType::Checkpoint) {
            Ok(b) => b,
            Err(e) => {
                return Err(e);
            },
        };
        if batch.batch.len() == 0 {
            return Err(ContractError::MissingTransaction);
        }
        batch.batch[batch.batch.len() - 1].to_bitcoin_tx()
    }

    /// The output that holds the reserve: the first output of the
    /// checkpoint transaction. Before the checkpoint is sealed the reserve
    /// output does not exist yet, and the first output may be a withdrawal.
    pub fn reserve_output(&self) -> (r: ContractResult<Option<Output>>)
        ensures
            match r {
                Ok(Some(output)) => self@.reserve_output() == Ok::<_, ContractError>(Some(output@)),
                Ok(None) => self@.reserve_output() == Ok::<Option<OutputView>, ContractError>(None),
                Err(e) => self@.reserve_output() == Err::<Option<OutputView>, _>(e),
            },
    {
        let tx = match self.checkpoint_tx() {
            Ok(tx) => tx,
            Err(e) => {
                return Err(e);
            },
        };
        if tx.output.len() == 0 {
            Ok(None)
        } else {
            Ok(Some(tx.output[0].clone()))
        }
    }

    /// The emergency disbursal transactions as they go on the wire: first
    /// the intermediate transaction, then the final transactions.
    pub fn emergency_disbursal_txs(&self) -> (r: ContractResult<Vec<Transaction>>)
        ensures
            match r {
                Ok(txs) => self@.emergency_disbursal_txs() == Ok::<_, ContractError>(
                    wires_view(txs@),
                ),
                Err(e) => self@.emergency_disbursal_txs() == Err::<Seq<TransactionView>, _>(e),
            },
    {
        let mut txs: Vec<Transaction> = Vec::new();
        let intermediate_tx_batch = match self.batch(BatchType::IntermediateTx) {
            Ok(b) => b,
            Err(e) => {
                return Err(e);
            },
        };
        if intermediate_tx_batch.batch.len() == 0 {
            assert(wires_view(txs@) =~= Seq::empty());
            return Ok(txs);
        }
        let first = match intermediate_tx_batch.batch[0].to_bitcoin_tx() {
            Ok(t) => t,
            Err(e) => {
                return Err(e);
            },
        };
        txs.push(first);
        let ghost found = seq![first@];
        assert(wires_view(txs@) =~= found);
        let disbursal_batch = &self.batches[0];
        assert(self@.emergency_disbursal_txs() == wire_all(
            found,
            disbursal_batch@.batch,
            disbursal_batch@.batch.len() as int,
        ));
        let mut i: usize = 0;
        while i < disbursal_batch.batch.len()
            invariant
                i <= disbursal_batch.batch.len(),
                self@.emergency_disbursal_txs() == wire_all(
                    found,
                    disbursal_batch@.batch,
                    disbursal_batch@.batch.len() as int,
                ),
                wire_all(found, disbursal_batch@.batch, i as int) == Ok::<_, ContractError>(
                    wires_view(txs@),
                ),
            decreases disbursal_batch.batch.len() - i,
        {
            match disbursal_batch.batch[i].to_bitcoin_tx() {
                Ok(t) => {
                    let ghost before = wires_view(txs@);
                    txs.push(t);
                    assert(wires_view(txs@) =~= before.push(t@));
                },
                Err(e) => {
                    proof {
                        assert(wire_all(found, disbursal_batch@.batch, i + 1).is_err());
                        lemma_wire_all_fails(
                            found,
                            disbursal_batch@.batch,
                            i + 1,
                            disbursal_batch@.batch.len() as int,
                        );
                    }
                    return Err(e);
                },
            }
            i += 1;
        }
        Ok(txs)
    }

    /// What the checkpoint transaction leaves to the miners, in satoshis.
    pub fn checkpoint_tx_miner_fees(&self) -> (r: ContractResult<u64>)
        ensures
            r == self@.checkpoint_tx_miner_fees(),
    {
        let tx = match self.first_tx(BatchType::Checkpoint) {
            Ok(tx) => tx,
            Err(e) => {
                return Err(e);
            },
        };
        let total_in = match sum_inputs(&tx.input, tx.input.len()) {
            Ok(v) => v,
            Err(e) => {
                return Err(e);
            },
        };
        match sum_outputs(&tx.output, tx.output.len()) {
            Ok(total_out) => if total_out > total_in {
                Err(ContractError::InsufficientReserve)
            } else {
                Ok(total_in - total_out)
            },
            Err(_) => Err(ContractError::InsufficientReserve),
        }
    }

    /// The two outputs that are put in front of the checkpoint transaction's
    /// outputs when the checkpoint is sealed.
    pub fn additional_outputs(&self, config: &CheckpointConfig, timestamping_commitment: &Vec<u8>) -> (r:
        ContractResult<Vec<Output>>)
        ensures
            match r {
                Ok(outs) => self@.additional_outputs(*config, timestamping_commitment@) == Ok::<
                    _,
                    ContractError,
                >(outputs_view(outs@)) && outs.len() == 2,
                Err(e) => self@.additional_outputs(*config, timestamping_commitment@) == Err::<
                    Seq<OutputView>,
                    _,
                >(e),
            },
    {
        let mut dest: Vec<u8> = Vec::new();
        dest.push(0u8);
        assert(dest@ =~= seq![0u8]);
        let script = match self.sigset.output_script(&dest, config.sigset_threshold) {
            Ok(s) => s,
            Err(e) => {
                return Err(e);
            },
        };
        if timestamping_commitment.len() as u128 >= 0x1_0000_0000u128 {
            return Err(ContractError::Overflow);
        }
        let reserve_out = Output { value: 0, script_pubkey: script };
        let timestamping_commitment_out = Output {
            value: 0,
            script_pubkey: new_op_return(timestamping_commitment),
        };
        let mut outs: Vec<Output> = Vec::new();
        outs.push(reserve_out);
        outs.push(timestamping_commitment_out);
        assert(outputs_view(outs@) =~= self@.additional_outputs(
            *config,
            timestamping_commitment@,
        ).unwrap());
        Ok(outs)
    }

    /// The estimated size of the checkpoint transaction once it is sealed
    /// and fully signed, in virtual bytes.
    pub fn est_vsize(&self, config: &CheckpointConfig, timestamping_commitment: &Vec<u8>) -> (r:
        ContractResult<u64>)
        ensures
            r == self@.est_vsize(*config, timestamping_commitment@),
    {
        let cp = match self.first_tx(BatchType::Checkpoint) {
            Ok(tx) => tx,
            Err(e) => {
                return Err(e);
            },
        };
        let mut tx = match cp.to_bitcoin_tx() {
            Ok(tx) => tx,
            Err(e) => {
                return Err(e);
            },
        };
        let ghost wire = tx@;
        let extra = match self.additional_outputs(config, timestamping_commitment) {
            Ok(outs) => outs,
            Err(e) => {
                return Err(e);
            },
        };
        let ghost all = outputs_view(extra@) + wire.output;
        let all_len = match extra.len().checked_add(tx.output.len()) {
            Some(n) => n,
            None => {
                return Err(ContractError::Overflow);
            },
        };
        let n_out = capped(config.max_outputs, all_len);
        let n_in = capped(config.max_inputs, tx.input.len());
        let mut outs: Vec<Output> = Vec::new();
        let mut i: usize = 0;
        while i < n_out
            invariant
                i <= n_out <= extra.len() + tx.output.len(),
                extra.len() == 2,
                all == outputs_view(extra@) + outputs_view(tx.output@),
                outputs_view(outs@) == all.take(i as int),
            decreases n_out - i,
        {
            let ghost before = outputs_view(outs@);
            if i < extra.len() {
                outs.push(extra[i].clone());
            } else {
                outs.push(tx.output[i - extra.len()].clone());
            }
            assert(outputs_view(outs@) =~= before.push(all[i as int]));
            assert(all.take(i + 1) =~= all.take(i as int).push(all[i as int]));
            i += 1;
        }
        tx.output = outs;
        tx.input.truncate(n_in);
        assert(tx@.input =~= wire.input.take(n_in as int));
        assert(tx@ == (TransactionView {
            input: wire.input.take(n_in as int),
            output: all.take(n_out as int),
            ..wire
        }));
        let size = transaction_vsize(&tx);
        match sum_witness_sizes(&cp.input, n_in) {
            Ok(witnesses) => match size.checked_add(witnesses) {
                Some(total) => Ok(total),
                None => Err(ContractError::Overflow),
            },
            Err(e) => Err(e),
        }
    }

    /// The miner fee of the checkpoint transaction at the checkpoint's fee rate.
    pub fn base_fee(&self, config: &CheckpointConfig, timestamping_commitment: &Vec<u8>) -> (r:
        ContractResult<u64>)
        ensures
            r == self@.base_fee(*config, timestamping_commitment@),
    {
        let est_vsize = match self.est_vsize(config, timestamping_commitment) {
            Ok(v) => v,
            Err(e) => {
                return Err(e);
            },
        };
        match est_vsize.checked_mul(self.fee_rate) {
            Some(fee) => Ok(fee),
            None => Err(ContractError::Overflow),
        }
    }

    /// The summed amounts of the inputs and of the outputs of the checkpoint
    /// transaction, as far as the configured numbers admit them.
    pub fn calc_total_input_and_output(&self, config: &CheckpointConfig) -> (r: ContractResult<
        (u64, u64),
    >)
        ensures
            r == self@.calc_total_input_and_output(*config),
    {
        let checkpoint_tx = match self.first_tx(BatchType::Checkpoint) {
            Ok(tx) => tx,
            Err(e) => {
                return Err(e);
            },
        };
        let n_in = capped(config.max_inputs, checkpoint_tx.input.len());
        let n_out = capped(config.max_outputs, checkpoint_tx.output.len());
        let in_amount = sum_inputs(&checkpoint_tx.input, n_in);
        let out_amount = sum_outputs(&checkpoint_tx.output, n_out);
        match (in_amount, out_amount) {
            (Ok(i), Ok(o)) => Ok((i, o)),
            _ => Err(ContractError::Overflow),
        }
    }
}

} // verus!
