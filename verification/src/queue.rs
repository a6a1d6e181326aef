use vstd::prelude::*;
use crate::building::{BuildingCheckpoint, CompletedCheckpoint, SigningCheckpoint};
use crate::checkpoint::{wires_view, Checkpoint, CheckpointStatus, CheckpointView};
use crate::error::{moves, yields, ContractError, ContractResult};
use crate::interface::{CheckpointConfig, DequeExtension};
use crate::math::min_int;
use crate::signatory::{SignatorySet, SignatorySetView};
use crate::tx::{Transaction, TransactionView};

verus! {

/// The chain of checkpoints, oldest first. The last checkpoint is the one
/// being built and has the sequence number `index`; the one before it is
/// being signed or complete; all before that are complete.
#[derive(Debug, PartialEq)]
pub struct CheckpointQueue {
    /// The sequence number of the checkpoint that is being built.
    pub index: u32,
    /// The sequence number of the last checkpoint that is confirmed on Bitcoin.
    pub confirmed_index: Option<u32>,
    /// The sequence number of the first confirmed checkpoint whose pending
    /// transfers are not settled yet.
    pub first_unhandled_confirmed_cp_index: u32,
    /// The parameters of checkpoint processing.
    pub config: CheckpointConfig,
    /// The name under which the queue is stored.
    pub queue_id: String,
    /// The checkpoints that are retained, oldest first.
    pub queue: Vec<Checkpoint>,
}

/// The value of a `CheckpointQueue`.
pub struct CheckpointQueueView {
    pub index: u32,
    pub confirmed_index: Option<u32>,
    pub first_unhandled_confirmed_cp_index: u32,
    pub config: CheckpointConfig,
    pub queue_id: Seq<char>,
    pub queue: Seq<CheckpointView>,
}

/// The values of a sequence of checkpoints.
pub open spec fn checkpoints_view(s: Seq<Checkpoint>) -> Seq<CheckpointView> {
    s.map_values(|c: Checkpoint| c@)
}

/// The values of a sequence of completed checkpoints.
pub open spec fn completed_view(s: Seq<CompletedCheckpoint>) -> Seq<CheckpointView> {
    s.map_values(|c: CompletedCheckpoint| c.0@)
}

/// The values of a sequence of checkpoints with their sequence numbers.
pub open spec fn numbered_view(s: Seq<(u32, Checkpoint)>) -> Seq<(u32, CheckpointView)> {
    s.map_values(|c: (u32, Checkpoint)| (c.0, c.1@))
}

impl View for CheckpointQueue {
    type V = CheckpointQueueView;

    open spec fn view(&self) -> CheckpointQueueView {
        CheckpointQueueView {
            index: self.index,
            confirmed_index: self.confirmed_index,
            first_unhandled_confirmed_cp_index: self.first_unhandled_confirmed_cp_index,
            config: self.config,
            queue_id: self.queue_id@,
            queue: checkpoints_view(self.queue@),
        }
    }
}

/// A copy of a list of checkpoints.
pub fn copy_checkpoints(cps: &Vec<Checkpoint>) -> (r: Vec<Checkpoint>)
    ensures
        checkpoints_view(r@) == checkpoints_view(cps@),
{
    let mut out: Vec<Checkpoint> = Vec::new();
    let mut i: usize = 0;
    while i < cps.len()
        invariant
            i <= cps.len(),
            out.len() == i,
            forall|j: int| 0 <= j < i ==> (#[trigger] out@[j])@ == cps@[j]@,
        decreases cps.len() - i,
    {
        out.push(cps[i].clone());
        i += 1;
    }
    assert(checkpoints_view(out@) =~= checkpoints_view(cps@));
    out
}

impl Default for CheckpointQueue {
    fn default() -> (r: Self)
        ensures
            r@ == (CheckpointQueueView {
                index: 0,
                confirmed_index: None,
                first_unhandled_confirmed_cp_index: 0,
                config: CheckpointConfig::spec_default(),
                queue_id: Seq::empty(),
                queue: Seq::empty(),
            }),
    {
        let q = CheckpointQueue {
            index: 0,
            confirmed_index: None,
            first_unhandled_confirmed_cp_index: 0,
            config: CheckpointConfig::default(),
            queue_id: String::new(),
            queue: Vec::new(),
        };
        assert(q@.queue =~= Seq::empty());
        q
    }
}

impl Clone for CheckpointQueue {
    fn clone(&self) -> (r: Self)
        ensures
            r@ == self@,
    {
        CheckpointQueue {
            index: self.index,
            confirmed_index: self.confirmed_index,
            first_unhandled_confirmed_cp_index: self.first_unhandled_confirmed_cp_index,
            config: self.config,
            queue_id: self.queue_id.clone(),
            queue: copy_checkpoints(&self.queue),
        }
    }
}

/// Thirty-two zero bytes.
pub open spec fn zero_commitment() -> Seq<u8> {
    Seq::new(32, |i: int| 0u8)
}

/// The checkpoint transactions of the first `n` checkpoints as they go on the wire.
pub open spec fn checkpoint_txs(cps: Seq<CheckpointView>, n: int) -> Result<
    Seq<TransactionView>,
    ContractError,
>
    decreases n,
{
    if n <= 0 {
        Ok(Seq::empty())
    } else {
        match checkpoint_txs(cps, n - 1) {
            Err(e) => Err(e),
            Ok(txs) => match cps[n - 1].checkpoint_tx() {
                Err(e) => Err(e),
                Ok(tx) => Ok(txs.push(tx)),
            },
        }
    }
}

/// What the checkpoint transactions of the first `n` checkpoints leave to the miners.
pub open spec fn fees_paid(cps: Seq<CheckpointView>, n: int) -> Result<u64, ContractError>
    decreases n,
{
    if n <= 0 {
        Ok(0)
    } else {
        match fees_paid(cps, n - 1) {
            Err(e) => Err(e),
            Ok(fees) => match cps[n - 1].checkpoint_tx_miner_fees() {
                Err(e) => Err(e),
                Ok(fee) => if fees + fee > u64::MAX {
                    Err(ContractError::Overflow)
                } else {
                    Ok((fees + fee) as u64)
                },
            },
        }
    }
}

/// The estimated sizes of the checkpoint transactions of the first `n`
/// checkpoints, summed.
pub open spec fn vbytes(cps: Seq<CheckpointView>, n: int, config: CheckpointConfig) -> Result<
    u64,
    ContractError,
>
    decreases n,
{
    if n <= 0 {
        Ok(0)
    } else {
        match vbytes(cps, n - 1, config) {
            Err(e) => Err(e),
            Ok(sum) => match cps[n - 1].est_vsize(config, zero_commitment()) {
                Err(e) => Err(e),
                Ok(size) => if sum + size > u64::MAX {
                    Err(ContractError::Overflow)
                } else {
                    Ok((sum + size) as u64)
                },
            },
        }
    }
}

/// Once a checkpoint transaction cannot go on the wire, none of the list do.
pub proof fn lemma_checkpoint_txs_fails(cps: Seq<CheckpointView>, k: int, n: int)
    requires
        0 <= k <= n,
        checkpoint_txs(cps, k).is_err(),
    ensures
        checkpoint_txs(cps, n) == checkpoint_txs(cps, k),
    decreases n,
{
    if k < n {
        lemma_checkpoint_txs_fails(cps, k, n - 1);
    }
}

/// Once the fees of a checkpoint cannot be told, their sum cannot.
pub proof fn lemma_fees_paid_fails(cps: Seq<CheckpointView>, k: int, n: int)
    requires
        0 <= k <= n,
        fees_paid(cps, k).is_err(),
    ensures
        fees_paid(cps, n) == fees_paid(cps, k),
    decreases n,
{
    if k < n {
        lemma_fees_paid_fails(cps, k, n - 1);
    }
}

/// Once the size of a checkpoint transaction cannot be told, the sum cannot.
pub proof fn lemma_vbytes_fails(cps: Seq<CheckpointView>, k: int, n: int, config: CheckpointConfig)
    requires
        0 <= k <= n,
        vbytes(cps, k, config).is_err(),
    ensures
        vbytes(cps, n, config) == vbytes(cps, k, config),
    decreases n,
{
    if k < n {
        lemma_vbytes_fails(cps, k, n - 1, config);
    }
}

impl CheckpointQueueView {
    /// The number of checkpoints that are retained.
    pub open spec fn len(self) -> Result<u32, ContractError> {
        if self.queue.len() > u32::MAX {
            Err(ContractError::Overflow)
        } else {
            Ok(self.queue.len() as u32)
        }
    }

    /// The position in a queue of `queue_len` checkpoints of the checkpoint
    /// with the sequence number `index`: the last position is that of the
    /// checkpoint that is being built.
    pub open spec fn deque_index(self, index: u32, queue_len: u32) -> Result<u32, ContractError> {
        let start = self.index + 1 - queue_len;
        if index > self.index || index < start {
            Err(ContractError::IndexOutOfBounds)
        } else {
            Ok((index - start) as u32)
        }
    }

    /// The checkpoint with the sequence number `index`.
    pub open spec fn get(self, index: int) -> Result<CheckpointView, ContractError> {
        match self.len() {
            Err(e) => Err(e),
            Ok(len) => if !(0 <= index <= u32::MAX) {
                Err(ContractError::IndexOutOfBounds)
            } else {
                match self.deque_index(index as u32, len) {
                    Err(e) => Err(e),
                    Ok(i) => Ok(self.queue[i as int]),
                }
            },
        }
    }

    /// The queue with `checkpoint` in the place of the checkpoint with the
    /// sequence number `index`.
    pub open spec fn set(self, index: u32, checkpoint: CheckpointView) -> Result<
        CheckpointQueueView,
        ContractError,
    > {
        match self.len() {
            Err(e) => Err(e),
            Ok(len) => match self.deque_index(index, len) {
                Err(e) => Err(e),
                Ok(i) => Ok(
                    CheckpointQueueView { queue: self.queue.update(i as int, checkpoint), ..self },
                ),
            },
        }
    }

    /// The sequence number of the oldest checkpoint that is retained.
    pub open spec fn first_index(self) -> Result<u32, ContractError> {
        match self.len() {
            Err(e) => Err(e),
            Ok(len) => if len > self.index + 1 || self.index + 1 - len > u32::MAX {
                Err(ContractError::Overflow)
            } else {
                Ok((self.index + 1 - len) as u32)
            },
        }
    }

    /// The checkpoint that is being signed, if there is one: the checkpoint
    /// before the one that is being built, if it is in the `Signing` state.
    pub open spec fn signing(self) -> Result<Option<CheckpointView>, ContractError> {
        match self.len() {
            Err(e) => Err(e),
            Ok(len) => if len < 2 {
                Ok(None)
            } else {
                match self.get(self.index - 1) {
                    Err(e) => Err(e),
                    Ok(second) => if second.status == CheckpointStatus::Signing {
                        Ok(Some(second))
                    } else {
                        Ok(None)
                    },
                }
            },
        }
    }

    /// The checkpoint that is being built.
    pub open spec fn building(self) -> Result<CheckpointView, ContractError> {
        self.get(self.index as int)
    }

    /// The number of checkpoints at the end of the queue that are not complete.
    pub open spec fn open_checkpoints(self) -> Result<int, ContractError> {
        match self.signing() {
            Err(e) => Err(e),
            Ok(Some(_)) => Ok(2),
            Ok(None) => Ok(1),
        }
    }

    /// The sequence number of the last checkpoint that is complete.
    pub open spec fn last_completed_index(self) -> Result<u32, ContractError> {
        match self.open_checkpoints() {
            Err(e) => Err(e),
            Ok(open) => if self.index < open {
                Err(ContractError::NoCompletedCheckpoints)
            } else {
                Ok((self.index - open) as u32)
            },
        }
    }

    /// The last checkpoint that is complete.
    pub open spec fn last_completed(self) -> Result<CheckpointView, ContractError> {
        match self.last_completed_index() {
            Err(e) => Err(e),
            Ok(index) => self.get(index as int),
        }
    }

    /// The checkpoint transaction of the last checkpoint that is complete.
    pub open spec fn last_completed_tx(self) -> Result<TransactionView, ContractError> {
        match self.last_completed() {
            Err(e) => Err(e),
            Ok(cp) => cp.checkpoint_tx(),
        }
    }

    /// The `count` checkpoints from the sequence number `from` on.
    pub open spec fn fetch(self, from: int, count: int) -> Result<Seq<CheckpointView>, ContractError>
        decreases count,
    {
        if count <= 0 {
            Ok(Seq::empty())
        } else {
            match self.fetch(from, count - 1) {
                Err(e) => Err(e),
                Ok(cps) => match self.get(from + count - 1) {
                    Err(e) => Err(e),
                    Ok(cp) => Ok(cps.push(cp)),
                },
            }
        }
    }

    /// All checkpoints that are retained, each with its sequence number,
    /// oldest first.
    pub open spec fn all(self) -> Result<Seq<(u32, CheckpointView)>, ContractError> {
        match self.first_index() {
            Err(e) => Err(e),
            Ok(first) => Ok(
                Seq::new(self.queue.len(), |i: int| ((first + i) as u32, self.queue[i])),
            ),
        }
    }

    /// The last `limit` complete checkpoints, or all of them if there are
    /// fewer, oldest first.
    pub open spec fn completed(self, limit: u32) -> Result<Seq<CheckpointView>, ContractError> {
        match self.len() {
            Err(e) => Err(e),
            Ok(length) => if length == 0 {
                Ok(Seq::empty())
            } else {
                match self.open_checkpoints() {
                    Err(e) => Err(e),
                    Ok(skip) => {
                        let end = if self.index >= skip - 1 {
                            self.index - (skip - 1)
                        } else {
                            0
                        };
                        let count = min_int(limit as int, length - skip);
                        if count > end {
                            Err(ContractError::Overflow)
                        } else {
                            self.fetch(end - count, count)
                        }
                    },
                }
            },
        }
    }

    /// The checkpoint transactions of the last `limit` complete checkpoints.
    pub open spec fn completed_txs(self, limit: u32) -> Result<Seq<TransactionView>, ContractError> {
        match self.completed(limit) {
            Err(e) => Err(e),
            Ok(cps) => checkpoint_txs(cps, cps.len() as int),
        }
    }

    /// The emergency disbursal transactions of the last complete checkpoint.
    pub open spec fn emergency_disbursal_txs(self) -> Result<Seq<TransactionView>, ContractError> {
        match self.completed(1) {
            Err(e) => Err(e),
            Ok(cps) => if cps.len() == 0 {
                Ok(Seq::empty())
            } else {
                cps.last().emergency_disbursal_txs()
            },
        }
    }

    /// The checkpoint transaction of the last complete checkpoint, if there is one.
    pub open spec fn last_completed_checkpoint_tx(self) -> Result<
        Seq<TransactionView>,
        ContractError,
    > {
        match self.completed(1) {
            Err(e) => Err(e),
            Ok(cps) => if cps.len() == 0 {
                Ok(Seq::empty())
            } else {
                match cps.last().checkpoint_tx() {
                    Err(e) => Err(e),
                    Ok(tx) => Ok(seq![tx]),
                }
            },
        }
    }

    /// The number of complete checkpoints that are not confirmed on Bitcoin.
    pub open spec fn num_unconfirmed(self) -> Result<u32, ContractError> {
        match self.open_checkpoints() {
            Err(e) => Err(e),
            Ok(open) => if self.index < open {
                Ok(0)
            } else {
                match self.confirmed_index {
                    None => match self.len() {
                        Err(e) => Err(e),
                        Ok(len) => if len < open {
                            Err(ContractError::Overflow)
                        } else {
                            Ok((len - open) as u32)
                        },
                    },
                    Some(confirmed) => if confirmed > self.index - open {
                        Err(ContractError::Overflow)
                    } else {
                        Ok((self.index - open - confirmed) as u32)
                    },
                }
            },
        }
    }

    /// The sequence number of the first complete checkpoint that is not
    /// confirmed on Bitcoin.
    pub open spec fn first_unconfirmed_index(self) -> Result<Option<u32>, ContractError> {
        match self.num_unconfirmed() {
            Err(e) => Err(e),
            Ok(n) => if n == 0 {
                Ok(None)
            } else {
                match self.open_checkpoints() {
                    Err(e) => Err(e),
                    Ok(open) => if self.index - n - (open - 1) < 0 {
                        Err(ContractError::Overflow)
                    } else {
                        Ok(Some((self.index - n - (open - 1)) as u32))
                    },
                }
            },
        }
    }

    /// The complete checkpoints among the `count` from the sequence number
    /// `from` on, up to the first that is not complete, and whether all
    /// were complete.
    pub open spec fn complete_run(self, from: int, count: int) -> Result<
        (Seq<CheckpointView>, bool),
        ContractError,
    >
        decreases count,
    {
        if count <= 0 {
            Ok((Seq::empty(), true))
        } else {
            match self.complete_run(from, count - 1) {
                Err(e) => Err(e),
                Ok((cps, open)) => if !open {
                    Ok((cps, false))
                } else {
                    match self.get(from + count - 1) {
                        Err(e) => Err(e),
                        Ok(cp) => if cp.status == CheckpointStatus::Complete {
                            Ok((cps.push(cp), true))
                        } else {
                            Ok((cps, false))
                        },
                    }
                },
            }
        }
    }

    /// The complete checkpoints that are not confirmed on Bitcoin, oldest first.
    pub open spec fn unconfirmed(self) -> Result<Seq<CheckpointView>, ContractError> {
        match self.first_unconfirmed_index() {
            Err(e) => Err(e),
            Ok(None) => Ok(Seq::empty()),
            Ok(Some(first)) => match self.complete_run(first as int, self.index - first + 1) {
                Err(e) => Err(e),
                Ok((cps, _)) => Ok(cps),
            },
        }
    }

    /// The sequence numbers of the confirmed checkpoints whose pending
    /// transfers are not settled yet, up to the first that is not complete.
    pub open spec fn unhandled_confirmed(self) -> Result<Seq<u32>, ContractError> {
        match self.confirmed_index {
            None => Ok(Seq::empty()),
            Some(confirmed) => match self.complete_run(
                self.first_unhandled_confirmed_cp_index as int,
                confirmed - self.first_unhandled_confirmed_cp_index + 1,
            ) {
                Err(e) => Err(e),
                Ok((cps, _)) => Ok(
                    Seq::new(
                        cps.len(),
                        |i: int| (self.first_unhandled_confirmed_cp_index + i) as u32,
                    ),
                ),
            },
        }
    }

    /// What the checkpoint transactions of the unconfirmed checkpoints
    /// leave to the miners.
    pub open spec fn unconfirmed_fees_paid(self) -> Result<u64, ContractError> {
        match self.unconfirmed() {
            Err(e) => Err(e),
            Ok(cps) => fees_paid(cps, cps.len() as int),
        }
    }

    /// The estimated sizes of the checkpoint transactions of the
    /// unconfirmed checkpoints, summed.
    pub open spec fn unconfirmed_vbytes(self, config: CheckpointConfig) -> Result<u64, ContractError> {
        match self.unconfirmed() {
            Err(e) => Err(e),
            Ok(cps) => vbytes(cps, cps.len() as int, config),
        }
    }

    /// What the unconfirmed checkpoint transactions lack in miner fees at
    /// the rate `fee_rate`.
    pub open spec fn fee_adjustment(self, fee_rate: u64, config: CheckpointConfig) -> Result<
        u64,
        ContractError,
    > {
        match self.unconfirmed_fees_paid() {
            Err(e) => Err(e),
            Ok(paid) => match self.unconfirmed_vbytes(config) {
                Err(e) => Err(e),
                Ok(size) => if size * fee_rate > u64::MAX {
                    Err(ContractError::Overflow)
                } else if size * fee_rate >= paid {
                    Ok((size * fee_rate - paid) as u64)
                } else {
                    Ok(0)
                },
            },
        }
    }

    /// The miner fee of the checkpoint with the sequence number
    /// `cp_index`: that of its own transaction at its fee rate, and what
    /// the unconfirmed checkpoint transactions lack at that rate.
    pub open spec fn calc_fee_checkpoint(self, cp_index: u32, commitment: Seq<u8>) -> Result<
        u64,
        ContractError,
    > {
        match self.get(cp_index as int) {
            Err(e) => Err(e),
            Ok(cp) => match self.fee_adjustment(cp.fee_rate, self.config) {
                Err(e) => Err(e),
                Ok(additional) => match cp.base_fee(self.config, commitment) {
                    Err(e) => Err(e),
                    Ok(base) => if base + additional > u64::MAX {
                        Err(ContractError::Overflow)
                    } else {
                        Ok((base + additional) as u64)
                    },
                },
            },
        }
    }
}

/// Once a checkpoint is out of reach, the run of checkpoints is.
pub proof fn lemma_fetch_fails(q: CheckpointQueueView, from: int, k: int, n: int)
    requires
        0 <= k <= n,
        q.fetch(from, k).is_err(),
    ensures
        q.fetch(from, n) == q.fetch(from, k),
    decreases n,
{
    if k < n {
        lemma_fetch_fails(q, from, k, n - 1);
    }
}

/// A run of complete checkpoints that has ended or failed stays as it is.
pub proof fn lemma_complete_run_ends(q: CheckpointQueueView, from: int, k: int, n: int)
    requires
        0 <= k <= n,
        match q.complete_run(from, k) {
            Err(_) => true,
            Ok((_, open)) => !open,
        },
    ensures
        q.complete_run(from, n) == q.complete_run(from, k),
    decreases n,
{
    if k < n {
        lemma_complete_run_ends(q, from, k, n - 1);
    }
}

/// A run of complete checkpoints is no longer than the stretch it is taken
/// from, and as long if all of the stretch were complete.
pub proof fn lemma_complete_run_len(q: CheckpointQueueView, from: int, n: int)
    requires
        0 <= n,
    ensures
        match q.complete_run(from, n) {
            Err(_) => true,
            Ok((cps, open)) => cps.len() <= n && (open ==> cps.len() == n),
        },
    decreases n,
{
    if n > 0 {
        lemma_complete_run_len(q, from, n - 1);
    }
}

impl CheckpointQueue {
    /// An empty queue that is stored under the name `queue_id`.
    pub fn new(queue_id: String) -> (r: ContractResult<Self>)
        ensures
            yields(
                r,
                Ok::<_, ContractError>(
                    CheckpointQueueView {
                        index: 0,
                        confirmed_index: None,
                        first_unhandled_confirmed_cp_index: 0,
                        config: CheckpointConfig::spec_default(),
                        queue_id: queue_id@,
                        queue: Seq::empty(),
                    },
                ),
            ),
    {
        let q = CheckpointQueue {
            index: 0,
            confirmed_index: None,
            first_unhandled_confirmed_cp_index: 0,
            config: CheckpointConfig::default(),
            queue_id,
            queue: Vec::new(),
        };
        assert(q@.queue =~= Seq::empty());
        Ok(q)
    }

    /// The names of the places at which the checkpoints are stored.
    pub fn queue(&self) -> (r: DequeExtension)
        ensures
            r.namespace@ == vstd::utf8::encode_utf8(self@.queue_id),
            r.key_prefix@ == seq![
                (vstd::utf8::encode_utf8(self@.queue_id).len() / 0x100 % 0x100) as u8,
                (vstd::utf8::encode_utf8(self@.queue_id).len() % 0x100) as u8,
            ],
    {
        DequeExtension::new(self.queue_id.as_str())
    }

    /// Sets the parameters of checkpoint processing.
    pub fn configure(&mut self, config: CheckpointConfig)
        ensures
            final(self)@ == (CheckpointQueueView { config, ..old(self)@ }),
    {
        self.config = config;
    }

    /// The parameters of checkpoint processing.
    pub fn config(&self) -> (r: CheckpointConfig)
        ensures
            r == self@.config,
    {
        self.config
    }

    /// Removes all checkpoints and sets the sequence number of the
    /// building checkpoint back to zero.
    pub fn reset(&mut self) -> (r: ContractResult<()>)
        ensures
            r.is_ok(),
            final(self)@ == (CheckpointQueueView { index: 0, queue: Seq::empty(), ..old(self)@ }),
    {
        self.index = 0;
        self.queue = Vec::new();
        assert(self@.queue =~= Seq::empty());
        Ok(())
    }

    /// The number of checkpoints that are retained.
    pub fn len(&self) -> (r: ContractResult<u32>)
        ensures
            r == self@.len(),
    {
        if self.queue.len() > u32::MAX as usize {
            Err(ContractError::Overflow)
        } else {
            Ok(self.queue.len() as u32)
        }
    }

    /// Whether no checkpoint is retained.
    pub fn is_empty(&self) -> (r: ContractResult<bool>)
        ensures
            r == Ok::<_, ContractError>(self@.queue.len() == 0),
    {
        Ok(self.queue.len() == 0)
    }

    /// The sequence number of the checkpoint that is being built.
    pub fn index(&self) -> (r: u32)
        ensures
            r == self@.index,
    {
        self.index
    }

    /// The position in a queue of `queue_len` checkpoints of the checkpoint
    /// with the sequence number `index`. The two differ once old checkpoints
    /// have been pruned: in a queue of the five checkpoints 30 to 34,
    /// checkpoint 30 is at position 0, and checkpoint 29 is out of bounds.
    pub fn get_deque_index(&self, index: u32, queue_len: u32) -> (r: ContractResult<u32>)
        ensures
            r == self@.deque_index(index, queue_len),
            r.is_ok() ==> r.unwrap() < queue_len,
    {
        let start: i64 = self.index as i64 + 1 - queue_len as i64;
        if index > self.index || (index as i64) < start {
            Err(ContractError::IndexOutOfBounds)
        } else {
            Ok((index as i64 - start) as u32)
        }
    }

    /// The position of the checkpoint with the sequence number `index`.
    fn position(&self, index: u32) -> (r: ContractResult<usize>)
        ensures
            match r {
                Ok(i) => i < self.queue.len() && self@.get(index as int) == Ok::<_, ContractError>(
                    self.queue[i as int]@,
                ) && self@.len().is_ok() && self@.deque_index(index, self@.len().unwrap()) == Ok::<
                    _,
                    ContractError,
                >(i as u32),
                Err(e) => self@.get(index as int) == Err::<CheckpointView, _>(e) && (self@.len()
                    == Err::<u32, _>(e) || (self@.len().is_ok() && self@.deque_index(
                    index,
                    self@.len().unwrap(),
                ) == Err::<u32, _>(e))),
            },
    {
        let queue_len = match self.len() {
            Ok(n) => n,
            Err(e) => {
                return Err(e);
            },
        };
        match self.get_deque_index(index, queue_len) {
            Ok(i) => Ok(i as usize),
            Err(e) => Err(e),
        }
    }

    /// The checkpoint with the sequence number `index`. Fails if `index` is
    /// beyond the checkpoint that is being built, or was pruned.
    pub fn get(&self, index: u32) -> (r: ContractResult<Checkpoint>)
        ensures
            yields(r, self@.get(index as int)),
    {
        match self.position(index) {
            Ok(i) => Ok(self.queue[i].clone()),
            Err(e) => Err(e),
        }
    }

    /// Puts `checkpoint` in the place of the checkpoint with the sequence
    /// number `index`.
    pub fn set(&mut self, index: u32, checkpoint: &Checkpoint) -> (r: ContractResult<()>)
        ensures
            moves(r, old(self)@, final(self)@, old(self)@.set(index, checkpoint@)),
    {
        match self.position(index) {
            Ok(i) => {
                let ghost before = self@.queue;
                self.queue[i] = checkpoint.clone();
                assert(self@.queue =~= before.update(i as int, checkpoint@));
                Ok(())
            },
            Err(e) => Err(e),
        }
    }

    /// The sequence number of the oldest checkpoint that is retained.
    pub fn first_index(&self) -> (r: ContractResult<u32>)
        ensures
            r == self@.first_index(),
    {
        let len = match self.len() {
            Ok(n) => n,
            Err(e) => {
                return Err(e);
            },
        };
        let first: i64 = self.index as i64 + 1 - len as i64;
        if first < 0 || first > u32::MAX as i64 {
            Err(ContractError::Overflow)
        } else {
            Ok(first as u32)
        }
    }

    /// All checkpoints that are retained, each with its sequence number,
    /// oldest first.
    pub fn all(&self) -> (r: ContractResult<Vec<(u32, Checkpoint)>>)
        ensures
            match r {
                Ok(cps) => self@.all() == Ok::<_, ContractError>(numbered_view(cps@)),
                Err(e) => self@.all() == Err::<Seq<(u32, CheckpointView)>, _>(e),
            },
    {
        let first = match self.first_index() {
            Ok(f) => f,
            Err(e) => {
                return Err(e);
            },
        };
        let mut out: Vec<(u32, Checkpoint)> = Vec::new();
        let mut i: usize = 0;
        while i < self.queue.len()
            invariant
                i <= self.queue.len(),
                self.queue.len() <= u32::MAX,
                first + self.queue.len() == self.index + 1,
                out.len() == i,
                forall|j: int|
                    0 <= j < i ==> (#[trigger] out@[j]).0 == first + j && out@[j].1@
                        == self.queue@[j]@,
            decreases self.queue.len() - i,
        {
            out.push((first + i as u32, self.queue[i].clone()));
            i += 1;
        }
        assert(numbered_view(out@) =~= self@.all().unwrap());
        Ok(out)
    }

    /// The checkpoint that is being signed, if there is one.
    pub fn signing(&self) -> (r: ContractResult<Option<SigningCheckpoint>>)
        ensures
            match r {
                Ok(Some(cp)) => self@.signing() == Ok::<_, ContractError>(Some(cp.0@)),
                Ok(None) => self@.signing() == Ok::<Option<CheckpointView>, ContractError>(None),
                Err(e) => self@.signing() == Err::<Option<CheckpointView>, _>(e),
            },
    {
        let len = match self.len() {
            Ok(n) => n,
            Err(e) => {
                return Err(e);
            },
        };
        if len < 2 {
            return Ok(None);
        }
        if self.index == 0 {
            return Err(ContractError::IndexOutOfBounds);
        }
        let second = match self.get(self.index - 1) {
            Ok(cp) => cp,
            Err(e) => {
                return Err(e);
            },
        };
        if second.status != CheckpointStatus::Signing {
            return Ok(None);
        }
        Ok(Some(SigningCheckpoint(second)))
    }

    /// The checkpoint that is being built. There is one from the first
    /// deposit on.
    pub fn building(&self) -> (r: ContractResult<BuildingCheckpoint>)
        ensures
            match r {
                Ok(cp) => self@.building() == Ok::<_, ContractError>(cp.0@),
                Err(e) => self@.building() == Err::<CheckpointView, _>(e),
            },
    {
        match self.get(self.index) {
            Ok(last) => Ok(BuildingCheckpoint(last)),
            Err(e) => Err(e),
        }
    }

    /// The number of checkpoints at the end of the queue that are not complete.
    fn open_checkpoints(&self) -> (r: ContractResult<u32>)
        ensures
            match r {
                Ok(n) => self@.open_checkpoints() == Ok::<_, ContractError>(n as int) && 1 <= n <= 2
                    && (n == 2 ==> self.queue.len() >= 2),
                Err(e) => self@.open_checkpoints() == Err::<int, _>(e),
            },
    {
        match self.signing() {
            Ok(Some(_)) => Ok(2),
            Ok(None) => Ok(1),
            Err(e) => Err(e),
        }
    }

    /// The sequence number of the last checkpoint that is complete.
    pub fn last_completed_index(&self) -> (r: ContractResult<u32>)
        ensures
            r == self@.last_completed_index(),
    {
        let open = match self.open_checkpoints() {
            Ok(n) => n,
            Err(e) => {
                return Err(e);
            },
        };
        if self.index < open {
            Err(ContractError::NoCompletedCheckpoints)
        } else {
            Ok(self.index - open)
        }
    }

    /// The last checkpoint that is complete.
    pub fn last_completed(&self) -> (r: ContractResult<Checkpoint>)
        ensures
            yields(r, self@.last_completed()),
    {
        match self.last_completed_index() {
            Ok(index) => self.get(index),
            Err(e) => Err(e),
        }
    }

    /// The checkpoint transaction of the last checkpoint that is complete.
    pub fn last_completed_tx(&self) -> (r: ContractResult<Transaction>)
        ensures
            yields(r, self@.last_completed_tx()),
    {
        match self.last_completed() {
            Ok(cp) => cp.checkpoint_tx(),
            Err(e) => Err(e),
        }
    }

    /// The last `limit` complete checkpoints, or all of them if there are
    /// fewer, oldest first.
    pub fn completed(&self, limit: u32) -> (r: ContractResult<Vec<CompletedCheckpoint>>)
        ensures
            match r {
                Ok(cps) => self@.completed(limit) == Ok::<_, ContractError>(completed_view(cps@)),
                Err(e) => self@.completed(limit) == Err::<Seq<CheckpointView>, _>(e),
            },
    {
        let mut out: Vec<CompletedCheckpoint> = Vec::new();
        assert(completed_view(out@) =~= Seq::empty());
        let length = match self.len() {
            Ok(n) => n,
            Err(e) => {
                return Err(e);
            },
        };
        if length == 0 {
            return Ok(out);
        }
        let skip = match self.open_checkpoints() {
            Ok(n) => n,
            Err(e) => {
                return Err(e);
            },
        };
        let end: u32 = if self.index >= skip - 1 {
            self.index - (skip - 1)
        } else {
            0
        };
        let count: u32 = if limit < length - skip {
            limit
        } else {
            length - skip
        };
        if count > end {
            return Err(ContractError::Overflow);
        }
        let start: u32 = end - count;
        let mut k: u32 = 0;
        while k < count
            invariant
                k <= count,
                start + count == end,
                self@.completed(limit) == self@.fetch(start as int, count as int),
                self@.fetch(start as int, k as int) == Ok::<_, ContractError>(completed_view(out@)),
            decreases count - k,
        {
            match self.get(start + k) {
                Ok(checkpoint) => {
                    let ghost before = completed_view(out@);
                    out.push(CompletedCheckpoint(checkpoint));
                    assert(completed_view(out@) =~= before.push(checkpoint@));
                },
                Err(e) => {
                    proof {
                        assert(self@.fetch(start as int, k + 1).is_err());
                        lemma_fetch_fails(self@, start as int, k + 1, count as int);
                    }
                    return Err(e);
                },
            }
            k += 1;
        }
        Ok(out)
    }

    /// The checkpoint transactions of the last `limit` complete checkpoints.
    pub fn completed_txs(&self, limit: u32) -> (r: ContractResult<Vec<Transaction>>)
        ensures
            match r {
                Ok(txs) => self@.completed_txs(limit) == Ok::<_, ContractError>(wires_view(txs@)),
                Err(e) => self@.completed_txs(limit) == Err::<Seq<TransactionView>, _>(e),
            },
    {
        let cps = match self.completed(limit) {
            Ok(c) => c,
            Err(e) => {
                return Err(e);
            },
        };
        let ghost all = completed_view(cps@);
        let mut out: Vec<Transaction> = Vec::new();
        assert(wires_view(out@) =~= Seq::empty());
        let mut i: usize = 0;
        while i < cps.len()
            invariant
                i <= cps.len(),
                all == completed_view(cps@),
                self@.completed_txs(limit) == checkpoint_txs(all, all.len() as int),
                checkpoint_txs(all, i as int) == Ok::<_, ContractError>(wires_view(out@)),
            decreases cps.len() - i,
        {
            match cps[i].0.checkpoint_tx() {
                Ok(tx) => {
                    let ghost before = wires_view(out@);
                    out.push(tx);
                    assert(wires_view(out@) =~= before.push(tx@));
                },
                Err(e) => {
                    proof {
                        assert(checkpoint_txs(all, i + 1).is_err());
                        lemma_checkpoint_txs_fails(all, i + 1, all.len() as int);
                    }
                    return Err(e);
                },
            }
            i += 1;
        }
        Ok(out)
    }

    /// The emergency disbursal transactions of the last complete
    /// checkpoint: first the intermediate transaction, then the final
    /// transactions.
    pub fn emergency_disbursal_txs(&self) -> (r: ContractResult<Vec<Transaction>>)
        ensures
            match r {
                Ok(txs) => self@.emergency_disbursal_txs() == Ok::<_, ContractError>(
                    wires_view(txs@),
                ),
                Err(e) => self@.emergency_disbursal_txs() == Err::<Seq<TransactionView>, _>(e),
            },
    {
        let cps = match self.completed(1) {
            Ok(c) => c,
            Err(e) => {
                return Err(e);
            },
        };
        if cps.len() == 0 {
            let out: Vec<Transaction> = Vec::new();
            assert(wires_view(out@) =~= Seq::empty());
            Ok(out)
        } else {
            cps[cps.len() - 1].0.emergency_disbursal_txs()
        }
    }

    /// The checkpoint transaction of the last complete checkpoint, as a
    /// list that is empty if there is none.
    pub fn last_completed_checkpoint_tx(&self) -> (r: ContractResult<Vec<Transaction>>)
        ensures
            match r {
                Ok(txs) => self@.last_completed_checkpoint_tx() == Ok::<_, ContractError>(
                    wires_view(txs@),
                ),
                Err(e) => self@.last_completed_checkpoint_tx() == Err::<Seq<TransactionView>, _>(e),
            },
    {
        let cps = match self.completed(1) {
            Ok(c) => c,
            Err(e) => {
                return Err(e);
            },
        };
        let mut txs: Vec<Transaction> = Vec::new();
        if cps.len() == 0 {
            assert(wires_view(txs@) =~= Seq::empty());
            Ok(txs)
        } else {
            match cps[cps.len() - 1].0.checkpoint_tx() {
                Ok(tx) => {
                    txs.push(tx);
                    assert(wires_view(txs@) =~= seq![tx@]);
                    Ok(txs)
                },
                Err(e) => Err(e),
            }
        }
    }

    /// The signatory set of the checkpoint that is being built.
    pub fn active_sigset(&self) -> (r: ContractResult<SignatorySet>)
        ensures
            match r {
                Ok(sigset) => match self@.building() {
                    Ok(cp) => cp.sigset == sigset@,
                    Err(_) => false,
                },
                Err(e) => self@.building() == Err::<CheckpointView, _>(e),
            },
    {
        match self.building() {
            Ok(cp) => Ok(cp.0.sigset.clone()),
            Err(e) => Err(e),
        }
    }

    /// The signatory set of the checkpoint with the sequence number `index`.
    pub fn sigset(&self, index: u32) -> (r: ContractResult<SignatorySet>)
        ensures
            match r {
                Ok(sigset) => match self@.get(index as int) {
                    Ok(cp) => cp.sigset == sigset@,
                    Err(_) => false,
                },
                Err(e) => self@.get(index as int) == Err::<CheckpointView, _>(e),
            },
    {
        match self.get(index) {
            Ok(cp) => Ok(cp.sigset.clone()),
            Err(e) => Err(e),
        }
    }

    /// The number of complete checkpoints that are not confirmed on Bitcoin.
    pub fn num_unconfirmed(&self) -> (r: ContractResult<u32>)
        ensures
            r == self@.num_unconfirmed(),
    {
        let open = match self.open_checkpoints() {
            Ok(n) => n,
            Err(e) => {
                return Err(e);
            },
        };
        if self.index < open {
            return Ok(0);
        }
        let last_completed_index = self.index - open;
        match self.confirmed_index {
            None => {
                let len = match self.len() {
                    Ok(n) => n,
                    Err(e) => {
                        return Err(e);
                    },
                };
                if len < open {
                    Err(ContractError::Overflow)
                } else {
                    Ok(len - open)
                }
            },
            Some(index) => {
                if index > last_completed_index {
                    Err(ContractError::Overflow)
                } else {
                    Ok(last_completed_index - index)
                }
            },
        }
    }

    /// The sequence number of the first complete checkpoint that is not
    /// confirmed on Bitcoin.
    pub fn first_unconfirmed_index(&self) -> (r: ContractResult<Option<u32>>)
        ensures
            r == self@.first_unconfirmed_index(),
    {
        let num_unconf = match self.num_unconfirmed() {
            Ok(n) => n,
            Err(e) => {
                return Err(e);
            },
        };
        if num_unconf == 0 {
            return Ok(None);
        }
        let open = match self.open_checkpoints() {
            Ok(n) => n,
            Err(e) => {
                return Err(e);
            },
        };
        let first: i64 = self.index as i64 - num_unconf as i64 - (open as i64 - 1);
        if first < 0 {
            Err(ContractError::Overflow)
        } else {
            Ok(Some(first as u32))
        }
    }

    /// The complete checkpoints among those from `from` to `to`, up to
    /// the first that is not complete.
    fn run(&self, from: u32, to: u32) -> (r: ContractResult<Vec<Checkpoint>>)
        ensures
            match r {
                Ok(cps) => match self@.complete_run(from as int, to - from + 1) {
                    Ok((run, _)) => run == checkpoints_view(cps@),
                    Err(_) => false,
                },
                Err(e) => self@.complete_run(from as int, to - from + 1) == Err::<
                    (Seq<CheckpointView>, bool),
                    _,
                >(e),
            },
    {
        let mut out: Vec<Checkpoint> = Vec::new();
        assert(checkpoints_view(out@) =~= Seq::empty());
        if from > to {
            return Ok(out);
        }
        let mut i: u32 = from;
        let mut open = true;
        while open && i <= to
            invariant
                from <= i <= to + 1,
                self@.complete_run(from as int, i - from) == Ok::<_, ContractError>(
                    (checkpoints_view(out@), open),
                ),
            decreases
                    (if open {
                        to + 1 - i
                    } else {
                        0
                    }),
        {
            let cp = match self.get(i) {
                Ok(cp) => cp,
                Err(e) => {
                    proof {
                        assert(self@.complete_run(from as int, i - from + 1).is_err());
                        lemma_complete_run_ends(self@, from as int, i - from + 1, to - from + 1);
                    }
                    return Err(e);
                },
            };
            if cp.status != CheckpointStatus::Complete {
                open = false;
                proof {
                    lemma_complete_run_ends(self@, from as int, i - from + 1, to - from + 1);
                }
                if i == to {
                    return Ok(out);
                }
                i += 1;
            } else {
                let ghost before = checkpoints_view(out@);
                out.push(cp);
                assert(checkpoints_view(out@) =~= before.push(cp@));
                if i == to {
                    return Ok(out);
                }
                i += 1;
            }
        }
        proof {
            if !open {
                lemma_complete_run_ends(self@, from as int, i - from, to - from + 1);
            }
        }
        Ok(out)
    }

    /// The complete checkpoints that are not confirmed on Bitcoin, oldest first.
    pub fn unconfirmed(&self) -> (r: ContractResult<Vec<Checkpoint>>)
        ensures
            match r {
                Ok(cps) => self@.unconfirmed() == Ok::<_, ContractError>(checkpoints_view(cps@)),
                Err(e) => self@.unconfirmed() == Err::<Seq<CheckpointView>, _>(e),
            },
    {
        match self.first_unconfirmed_index() {
            Ok(Some(index)) => self.run(index, self.index),
            Ok(None) => {
                let out: Vec<Checkpoint> = Vec::new();
                assert(checkpoints_view(out@) =~= Seq::empty());
                Ok(out)
            },
            Err(e) => Err(e),
        }
    }

    /// The sequence numbers of the confirmed checkpoints whose pending
    /// transfers are not settled yet, up to the first that is not complete.
    pub fn unhandled_confirmed(&self) -> (r: ContractResult<Vec<u32>>)
        ensures
            match r {
                Ok(indices) => self@.unhandled_confirmed() == Ok::<_, ContractError>(indices@),
                Err(e) => self@.unhandled_confirmed() == Err::<Seq<u32>, _>(e),
            },
    {
        let mut out: Vec<u32> = Vec::new();
        let confirmed = match self.confirmed_index {
            None => {
                return Ok(out);
            },
            Some(c) => c,
        };
        let first = self.first_unhandled_confirmed_cp_index;
        let cps = match self.run(first, confirmed) {
            Ok(cps) => cps,
            Err(e) => {
                return Err(e);
            },
        };
        proof {
            if confirmed >= first {
                lemma_complete_run_len(self@, first as int, confirmed - first + 1);
            }
        }
        let mut i: usize = 0;
        while i < cps.len()
            invariant
                i <= cps.len(),
                first + cps.len() <= u32::MAX + 1,
                out.len() == i,
                forall|j: int| 0 <= j < i ==> out@[j] == first + j,
            decreases cps.len() - i,
        {
            out.push(first + i as u32);
            i += 1;
        }
        assert(out@ =~= self@.unhandled_confirmed().unwrap());
        Ok(out)
    }

    /// What the checkpoint transactions of the unconfirmed checkpoints
    /// leave to the miners, in satoshis.
    pub fn unconfirmed_fees_paid(&self) -> (r: ContractResult<u64>)
        ensures
            r == self@.unconfirmed_fees_paid(),
    {
        let cps = match self.unconfirmed() {
            Ok(c) => c,
            Err(e) => {
                return Err(e);
            },
        };
        let ghost all = checkpoints_view(cps@);
        let mut fees: u64 = 0;
        let mut i: usize = 0;
        while i < cps.len()
            invariant
                i <= cps.len(),
                all == checkpoints_view(cps@),
                self@.unconfirmed_fees_paid() == fees_paid(all, all.len() as int),
                fees_paid(all, i as int) == Ok::<_, ContractError>(fees),
            decreases cps.len() - i,
        {
            let fee = match cps[i].checkpoint_tx_miner_fees() {
                Ok(f) => fees.checked_add(f),
                Err(e) => {
                    proof {
                        assert(fees_paid(all, i + 1).is_err());
                        lemma_fees_paid_fails(all, i + 1, all.len() as int);
                    }
                    return Err(e);
                },
            };
            fees = match fee {
                Some(f) => f,
                None => {
                    proof {
                        assert(fees_paid(all, i + 1).is_err());
                        lemma_fees_paid_fails(all, i + 1, all.len() as int);
                    }
                    return Err(ContractError::Overflow);
                },
            };
            i += 1;
        }
        Ok(fees)
    }

    /// The estimated sizes of the checkpoint transactions of the
    /// unconfirmed checkpoints, summed, in virtual bytes.
    pub fn unconfirmed_vbytes(&self, config: &CheckpointConfig) -> (r: ContractResult<u64>)
        ensures
            r == self@.unconfirmed_vbytes(*config),
    {
        let cps = match self.unconfirmed() {
            Ok(c) => c,
            Err(e) => {
                return Err(e);
            },
        };
        let mut commitment: Vec<u8> = Vec::new();
        let mut z: usize = 0;
        while z < 32
            invariant
                z <= 32,
                commitment@ == Seq::new(z as nat, |i: int| 0u8),
            decreases 32 - z,
        {
            commitment.push(0u8);
            assert(commitment@ =~= Seq::new((z + 1) as nat, |i: int| 0u8));
            z += 1;
        }
        let ghost all = checkpoints_view(cps@);
        let mut sum: u64 = 0;
        let mut i: usize = 0;
        while i < cps.len()
            invariant
                i <= cps.len(),
                all == checkpoints_view(cps@),
                commitment@ == zero_commitment(),
                self@.unconfirmed_vbytes(*config) == vbytes(all, all.len() as int, *config),
                vbytes(all, i as int, *config) == Ok::<_, ContractError>(sum),
            decreases cps.len() - i,
        {
            let size = match cps[i].est_vsize(config, &commitment) {
                Ok(s) => sum.checked_add(s),
                Err(e) => {
                    proof {
                        assert(vbytes(all, i + 1, *config).is_err());
                        lemma_vbytes_fails(all, i + 1, all.len() as int, *config);
                    }
                    return Err(e);
                },
            };
            sum = match size {
                Some(s) => s,
                None => {
                    proof {
                        assert(vbytes(all, i + 1, *config).is_err());
                        lemma_vbytes_fails(all, i + 1, all.len() as int, *config);
                    }
                    return Err(ContractError::Overflow);
                },
            };
            i += 1;
        }
        Ok(sum)
    }

    /// What the unconfirmed checkpoint transactions lack in miner fees at
    /// the rate `fee_rate`, in satoshis.
    pub fn fee_adjustment(&self, fee_rate: u64, config: &CheckpointConfig) -> (r: ContractResult<
        u64,
    >)
        ensures
            r == self@.fee_adjustment(fee_rate, *config),
    {
        let unconf_fees_paid = match self.unconfirmed_fees_paid() {
            Ok(f) => f,
            Err(e) => {
                return Err(e);
            },
        };
        let unconf_vbytes = match self.unconfirmed_vbytes(config) {
            Ok(v) => v,
            Err(e) => {
                return Err(e);
            },
        };
        match unconf_vbytes.checked_mul(fee_rate) {
            Some(due) => if due >= unconf_fees_paid {
                Ok(due - unconf_fees_paid)
            } else {
                Ok(0)
            },
            None => Err(ContractError::Overflow),
        }
    }

    /// The miner fee of the checkpoint with the sequence number `cp_index`.
    pub fn calc_fee_checkpoint(&self, cp_index: u32, timestamping_commitment: &Vec<u8>) -> (r:
        ContractResult<u64>)
        ensures
            r == self@.calc_fee_checkpoint(cp_index, timestamping_commitment@),
    {
        let cp = match self.get(cp_index) {
            Ok(c) => c,
            Err(e) => {
                return Err(e);
            },
        };
        let additional_fees = match self.fee_adjustment(cp.fee_rate, &self.config) {
            Ok(f) => f,
            Err(e) => {
                return Err(e);
            },
        };
        let base_fee = match cp.base_fee(&self.config, timestamping_commitment) {
            Ok(f) => f,
            Err(e) => {
                return Err(e);
            },
        };
        match base_fee.checked_add(additional_fees) {
            Some(total) => Ok(total),
            None => Err(ContractError::Overflow),
        }
    }

    /// The miner fee of the checkpoint with the sequence number `cp_index`,
    /// for a commitment of 32 bytes.
    pub fn query_building_miner_fee(&self, cp_index: u32, timestamping_commitment: [u8; 32]) -> (r:
        ContractResult<u64>)
        ensures
            r == self@.calc_fee_checkpoint(cp_index, timestamping_commitment@),
    {
        let mut commitment: Vec<u8> = Vec::new();
        let mut z: usize = 0;
        while z < 32
            invariant
                z <= 32,
                commitment@ == timestamping_commitment@.take(z as int),
            decreases 32 - z,
        {
            commitment.push(timestamping_commitment[z]);
            assert(commitment@ =~= timestamping_commitment@.take(z + 1));
            z += 1;
        }
        assert(commitment@ =~= timestamping_commitment@);
        self.calc_fee_checkpoint(cp_index, &commitment)
    }
}

} // verus!
