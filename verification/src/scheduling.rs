use vstd::prelude::*;
use crate::building::{BuildingCheckpoint, SigningCheckpoint};
use crate::bytes::byte_rows;
use crate::checkpoint::{BatchType, Checkpoint, CheckpointStatus, CheckpointView};
use crate::constants::MIN_CHECKPOINTS;
use crate::disbursal::{reserve_dest, reserve_dest_bytes};
use crate::error::{moves, ContractError, ContractResult};
use crate::interface::{
    balances_view, scripts_view, Accounts, BitcoinConfig, CheckpointConfig, CoinView, Validator,
};
use crate::keys::{Signature, Xpub};
use crate::math::{max_int, min_int};
use crate::queue::{checkpoints_view, CheckpointQueue, CheckpointQueueView};
use crate::signatory::{SignatorySet, SignatorySetView};
use crate::threshold_sig::{ThresholdSig, ThresholdSigView};
use crate::tx::{
    inputs_view, outputs_view, BitcoinTx, BitcoinTxView, Input, InputView, OutPoint, Output,
    OutputView,
};

verus! {

/// The fee rate after one adjustment of `prev_fee_rate`: a quarter more,
/// and at least one more, if `up`; a quarter less, and at least one less,
/// if not; within the configured bounds, of which the lower one prevails.
pub open spec fn adjusted_fee_rate(prev_fee_rate: u64, up: bool, config: CheckpointConfig) -> int {
    let raw = if up {
        max_int(prev_fee_rate * 5 / 4, prev_fee_rate + 1)
    } else {
        min_int(prev_fee_rate * 3 / 4, prev_fee_rate - 1)
    };
    max_int(min_int(raw, config.max_fee_rate as int), config.min_fee_rate as int)
}

/// Takes a fee rate and returns it adjusted up or down by a quarter,
/// within the bounds of the configuration.
pub fn adjust_fee_rate(prev_fee_rate: u64, up: bool, config: &CheckpointConfig) -> (r: u64)
    ensures
        r == adjusted_fee_rate(prev_fee_rate, up, *config),
{
    let prev: i128 = prev_fee_rate as i128;
    let raw: i128 = if up {
        let more = prev * 5 / 4;
        if more >= prev + 1 {
            more
        } else {
            prev + 1
        }
    } else {
        let less = prev * 3 / 4;
        if less <= prev - 1 {
            less
        } else {
            prev - 1
        }
    };
    let capped: i128 = if raw <= config.max_fee_rate as i128 {
        raw
    } else {
        config.max_fee_rate as i128
    };
    if capped >= config.min_fee_rate as i128 {
        capped as u64
    } else {
        config.min_fee_rate
    }
}

/// The queue without the oldest checkpoints that are older than
/// `max_age`, measured from `latest`, as long as more than the least number
/// of checkpoints is left.
pub open spec fn pruned(queue: Seq<CheckpointView>, latest: u64, max_age: u64) -> Seq<CheckpointView>
    decreases queue.len(),
{
    if queue.len() <= MIN_CHECKPOINTS || latest - queue[0].sigset.create_time <= max_age {
        queue
    } else {
        pruned(queue.drop_first(), latest, max_age)
    }
}

/// The inputs that a checkpoint takes over from the one before it: the
/// first `n` of `excess`, each with an empty threshold signature over the
/// same slots.
pub open spec fn carried(excess: Seq<InputView>, n: int, num: u64, den: u64) -> Result<
    Seq<InputView>,
    ContractError,
>
    decreases n,
{
    if n <= 0 {
        Ok(Seq::empty())
    } else {
        match carried(excess, n - 1, num, den) {
            Err(e) => Err(e),
            Ok(inputs) => match ThresholdSigView::fresh(excess[n - 1].signatures.sigs, num, den) {
                Err(e) => Err(e),
                Ok(signatures) => Ok(inputs.push(InputView { signatures, ..excess[n - 1] })),
            },
        }
    }
}

/// The checkpoint transaction of a new checkpoint with what the
/// checkpoint before it handed over: the reserve output as a further
/// input, then the inputs that did not fit, and the outputs that did not fit.
pub open spec fn extended(
    tx: BitcoinTxView,
    reserve_outpoint: OutPoint,
    reserve_value: u64,
    sigset: SignatorySetView,
    excess_inputs: Seq<InputView>,
    excess_outputs: Seq<OutputView>,
    num: u64,
    den: u64,
) -> Result<BitcoinTxView, ContractError> {
    match InputView::fresh(reserve_outpoint, sigset, reserve_dest(), reserve_value, num, den) {
        Err(e) => Err(e),
        Ok(input) => match carried(excess_inputs, excess_inputs.len() as int, num, den) {
            Err(e) => Err(e),
            Ok(more) => Ok(
                BitcoinTxView {
                    input: tx.input.push(input) + more,
                    output: tx.output + excess_outputs,
                    ..tx
                },
            ),
        },
    }
}

/// Once an input cannot be carried over, none are.
pub proof fn lemma_carried_fails(excess: Seq<InputView>, k: int, n: int, num: u64, den: u64)
    requires
        0 <= k <= n,
        carried(excess, k, num, den).is_err(),
    ensures
        carried(excess, n, num, den) == carried(excess, k, num, den),
    decreases n,
{
    if k < n {
        lemma_carried_fails(excess, k, n - 1, num, den);
    }
}

/// The queue after the first `n` redeem scripts, newest first, have been
/// offered for the sequence numbers below `index`, and the sequence number
/// that the last of them was offered for. A script whose sequence number is
/// below that of the oldest checkpoint is read back into its signatory set,
/// and a complete checkpoint for that set is put in front of the queue.
pub open spec fn backfilled(
    queue: CheckpointQueueView,
    index: int,
    scripts: Seq<Seq<u8>>,
    n: int,
    create_time: u64,
    num: u64,
    den: u64,
) -> Result<(CheckpointQueueView, int), ContractError>
    decreases n,
{
    if n <= 0 {
        Ok((queue, index))
    } else {
        match backfilled(queue, index, scripts, n - 1, create_time, num, den) {
            Err(e) => Err(e),
            Ok((q, i)) => if i <= 0 {
                Err(ContractError::Overflow)
            } else {
                match q.first_index() {
                    Err(e) => Err(e),
                    Ok(first) => if i - 1 >= first {
                        Ok((q, i - 1))
                    } else {
                        match SignatorySetView::from_script(scripts[n - 1], num, den) {
                            Err(e) => Err(e),
                            Ok((sigset, _)) => Ok(
                                (
                                    CheckpointQueueView {
                                        queue: seq![
                                            CheckpointView {
                                                status: CheckpointStatus::Complete,
                                                ..CheckpointView::fresh(
                                                    SignatorySetView {
                                                        index: (i - 1) as u32,
                                                        create_time,
                                                        ..sigset
                                                    },
                                                )
                                            },
                                        ] + q.queue,
                                        ..q
                                    },
                                    i - 1,
                                ),
                            ),
                        }
                    },
                }
            },
        }
    }
}

/// Once a sequence number is out of range, the backfill fails.
pub proof fn lemma_backfilled_fails(
    queue: CheckpointQueueView,
    index: int,
    scripts: Seq<Seq<u8>>,
    k: int,
    n: int,
    create_time: u64,
    num: u64,
    den: u64,
)
    requires
        0 <= k <= n,
        backfilled(queue, index, scripts, k, create_time, num, den).is_err(),
    ensures
        backfilled(queue, index, scripts, n, create_time, num, den) == backfilled(
            queue,
            index,
            scripts,
            k,
            create_time,
            num,
            den,
        ),
    decreases n,
{
    if k < n {
        lemma_backfilled_fails(queue, index, scripts, k, n - 1, create_time, num, den);
    }
}

impl CheckpointQueueView {
    /// The queue without the checkpoints that are pruned.
    pub open spec fn prune(self) -> Result<CheckpointQueueView, ContractError> {
        match self.building() {
            Err(e) => Err(e),
            Ok(building) => Ok(
                CheckpointQueueView {
                    queue: pruned(self.queue, building.sigset.create_time, self.config.max_age),
                    ..self
                },
            ),
        }
    }

    /// The sequence number of the next checkpoint to be built: that of the
    /// one that is being built, and one more once there is one.
    pub open spec fn next_index(self) -> Result<u32, ContractError> {
        if self.queue.len() == 0 {
            Ok(self.index)
        } else if self.index == u32::MAX {
            Err(ContractError::Overflow)
        } else {
            Ok((self.index + 1) as u32)
        }
    }

    /// The signatory set of the next checkpoint, made at the time `now`
    /// from the validators, if these carry weight and the set has a quorum.
    pub open spec fn candidate_set(
        self,
        now: u64,
        validators: Seq<Validator>,
        sig_keys: Seq<([u8; 32], Xpub)>,
    ) -> Result<Option<SignatorySetView>, ContractError> {
        match self.next_index() {
            Err(e) => Err(e),
            Ok(index) => match SignatorySetView::from_validators(
                validators,
                sig_keys,
                now,
                index,
            ) {
                Err(e) => Err(e),
                Ok(sigset) => if sigset.possible_vp == 0 || !sigset.has_quorum() {
                    Ok(None)
                } else {
                    Ok(Some(sigset))
                },
            },
        }
    }

    /// Whether the Bitcoin height `btc_height` lies below the height at
    /// which the last complete checkpoint was signed.
    pub open spec fn backfilling(self, btc_height: u32) -> Result<bool, ContractError> {
        match self.last_completed_index() {
            Err(_) => Ok(false),
            Ok(index) => match self.get(index as int) {
                Err(e) => Err(e),
                Ok(cp) => Ok(
                    btc_height < (match cp.signed_at_btc_height {
                        Some(h) => h,
                        None => 0,
                    }),
                ),
            },
        }
    }

    /// Whether the building checkpoint holds a deposit, a withdrawal or a
    /// pending transfer. The first input of every checkpoint but the first
    /// is the reserve, which is no deposit.
    pub open spec fn has_pending(self, building: CheckpointView) -> Result<bool, ContractError> {
        match building.checkpoint_tx() {
            Err(e) => Err(e),
            Ok(tx) => Ok(
                (if self.index == 0 {
                    tx.input.len() > 0
                } else {
                    tx.input.len() > 1
                }) || tx.output.len() > 0 || building.pending.len() > 0,
            ),
        }
    }

    /// Whether the building checkpoint is ready to be sealed at the time
    /// `now`: the least interval has passed, the Bitcoin headers are not
    /// being backfilled, something is pending (or the greatest interval has
    /// passed), the collected fees cover the miner fee, and the inputs cover
    /// outputs and miner fee.
    pub open spec fn ready(self, now: u64, commitment: Seq<u8>, btc_height: u32) -> Result<
        bool,
        ContractError,
    > {
        match self.building() {
            Err(e) => Err(e),
            Ok(building) => if now < building.sigset.create_time {
                Err(ContractError::Overflow)
            } else if now - building.sigset.create_time < self.config.min_checkpoint_interval {
                Ok(false)
            } else {
                match self.backfilling(btc_height) {
                    Err(e) => Err(e),
                    Ok(true) => Ok(false),
                    Ok(false) => match self.calc_fee_checkpoint(self.index, commitment) {
                        Err(e) => Err(e),
                        Ok(fees) => match (if now - building.sigset.create_time
                            < self.config.max_checkpoint_interval || self.index == 0 {
                            self.has_pending(building)
                        } else {
                            Ok(true)
                        }) {
                            Err(e) => Err(e),
                            Ok(false) => Ok(false),
                            Ok(true) => if building.fees_collected < fees {
                                Ok(false)
                            } else {
                                match building.calc_total_input_and_output(self.config) {
                                    Err(e) => Err(e),
                                    Ok((total_in, total_out)) => Ok(total_in >= total_out + fees),
                                }
                            },
                        },
                    },
                }
            },
        }
    }

    /// Whether a new checkpoint is to be opened at the time `now`. None is
    /// opened while a checkpoint is being signed, while the building
    /// checkpoint is not ready, while too many checkpoints are unconfirmed,
    /// or while the validators give no signatory set with a quorum.
    pub open spec fn should_push(
        self,
        now: u64,
        validators: Seq<Validator>,
        sig_keys: Seq<([u8; 32], Xpub)>,
        commitment: Seq<u8>,
        btc_height: u32,
    ) -> Result<bool, ContractError> {
        match self.signing() {
            Err(e) => Err(e),
            Ok(Some(_)) => Ok(false),
            Ok(None) => match (if self.queue.len() > 0 {
                self.ready(now, commitment, btc_height)
            } else {
                Ok(true)
            }) {
                Err(e) => Err(e),
                Ok(false) => Ok(false),
                Ok(true) => match self.num_unconfirmed() {
                    Err(e) => Err(e),
                    Ok(n) => if n >= self.config.max_unconfirmed_checkpoints {
                        Ok(false)
                    } else {
                        match self.candidate_set(now, validators, sig_keys) {
                            Err(e) => Err(e),
                            Ok(set) => Ok(set.is_some()),
                        }
                    },
                },
            },
        }
    }

    /// The queue with a new building checkpoint for the signatory set that
    /// the validators give, and that checkpoint; or the queue as it is, if
    /// they give none with a quorum.
    pub open spec fn maybe_push(
        self,
        now: u64,
        validators: Seq<Validator>,
        sig_keys: Seq<([u8; 32], Xpub)>,
        deposits_enabled: bool,
    ) -> Result<(CheckpointQueueView, Option<CheckpointView>), ContractError> {
        match self.candidate_set(now, validators, sig_keys) {
            Err(e) => Err(e),
            Ok(None) => Ok((self, None)),
            Ok(Some(sigset)) => if self.queue.len() >= u32::MAX {
                Err(ContractError::Overflow)
            } else {
                let building = CheckpointView { deposits_enabled, ..CheckpointView::fresh(sigset) };
                Ok(
                    (
                        CheckpointQueueView {
                            index: sigset.index,
                            queue: self.queue.push(building),
                            ..self
                        },
                        Some(building),
                    ),
                )
            },
        }
    }

    /// The fee rate of the next checkpoint. It is raised if the first
    /// unconfirmed checkpoint has waited the targeted number of Bitcoin
    /// blocks and a block was mined since the last checkpoint was signed;
    /// it is lowered if no checkpoint is unconfirmed and one is complete.
    pub open spec fn next_fee_rate(self, prev_fee_rate: u64, btc_height: u32) -> Result<
        u64,
        ContractError,
    > {
        match self.first_unconfirmed_index() {
            Err(e) => Err(e),
            Ok(Some(first)) => match self.get(first as int) {
                Err(e) => Err(e),
                Ok(first_unconf) => {
                    let first_height = match first_unconf.signed_at_btc_height {
                        Some(h) => h,
                        None => 0,
                    };
                    if btc_height < first_height {
                        Err(ContractError::Overflow)
                    } else {
                        match self.last_completed() {
                            Err(e) => Err(e),
                            Ok(last_unconf) => {
                                let last_height = match last_unconf.signed_at_btc_height {
                                    Some(h) => h,
                                    None => 0,
                                };
                                if btc_height < last_height {
                                    Err(ContractError::Overflow)
                                } else if btc_height - first_height
                                    >= self.config.target_checkpoint_inclusion && btc_height
                                    - last_height > 0 {
                                    Ok(adjusted_fee_rate(prev_fee_rate, true, self.config) as u64)
                                } else {
                                    Ok(prev_fee_rate)
                                }
                            },
                        }
                    }
                },
            },
            Ok(None) => if self.last_completed_index().is_ok() {
                Ok(adjusted_fee_rate(prev_fee_rate, false, self.config) as u64)
            } else {
                Ok(prev_fee_rate)
            },
        }
    }

    /// The queue after the building checkpoint has got its fee rate and
    /// what the checkpoint before it handed over.
    pub open spec fn thread(
        self,
        fee_rate: u64,
        reserve_outpoint: OutPoint,
        reserve_value: u64,
        sigset: SignatorySetView,
        excess_inputs: Seq<InputView>,
        excess_outputs: Seq<OutputView>,
    ) -> Result<CheckpointQueueView, ContractError> {
        match self.building() {
            Err(e) => Err(e),
            Ok(building) => match building.first_tx(BatchType::Checkpoint) {
                Err(e) => Err(e),
                Ok(tx) => match extended(
                    tx,
                    reserve_outpoint,
                    reserve_value,
                    sigset,
                    excess_inputs,
                    excess_outputs,
                    self.config.sigset_threshold.0,
                    self.config.sigset_threshold.1,
                ) {
                    Err(e) => Err(e),
                    Ok(longer) => self.set(
                        self.index,
                        (CheckpointView { fee_rate, ..building }).with_first_tx(
                            BatchType::Checkpoint,
                            longer,
                        ),
                    ),
                },
            },
        }
    }

    /// The queue and the fee pool after the checkpoint before the building
    /// one has been sealed: it moves to `Signing`, its miner fee leaves the
    /// fee pool, and the building checkpoint gets its fee rate, the reserve
    /// output as its first input, and the inputs and outputs that did not
    /// fit into the sealed one.
    pub open spec fn seal_previous(
        self,
        now: u64,
        scripts: Seq<(Seq<char>, Seq<u8>)>,
        accounts: Seq<(Seq<char>, CoinView)>,
        external: Seq<OutputView>,
        btc_height: u32,
        commitment: Seq<u8>,
        fee_pool: i64,
        units_per_sat: u64,
    ) -> Result<(CheckpointQueueView, i64), ContractError> {
        let prev_index = (self.index - 1) as u32;
        match self.calc_fee_checkpoint(prev_index, commitment) {
            Err(e) => Err(e),
            Ok(cp_fees) => match self.get(prev_index as int) {
                Err(e) => Err(e),
                Ok(prev) => match prev.advance(
                    now,
                    scripts,
                    accounts,
                    external,
                    commitment,
                    cp_fees,
                    self.config,
                ) {
                    Err(e) => Err(e),
                    Ok((sealed, res)) => match self.set(prev_index, sealed) {
                        Err(e) => Err(e),
                        Ok(q) => if res.2 * units_per_sat > i64::MAX || fee_pool - res.2
                            * units_per_sat < i64::MIN {
                            Err(ContractError::Overflow)
                        } else {
                            match q.next_fee_rate(prev.fee_rate, btc_height) {
                                Err(e) => Err(e),
                                Ok(fee_rate) => match q.thread(
                                    fee_rate,
                                    res.0,
                                    res.1,
                                    prev.sigset,
                                    res.3,
                                    res.4,
                                ) {
                                    Err(e) => Err(e),
                                    Ok(done) => Ok(
                                        (done, (fee_pool - res.2 * units_per_sat) as i64),
                                    ),
                                },
                            }
                        },
                    },
                },
            },
        }
    }

    /// The queue and the fee pool after one step at the time `now`, and
    /// whether a new checkpoint was opened. If one is to be opened, it is
    /// pushed, old checkpoints are pruned, and the checkpoint that was being
    /// built, if there was one, is sealed.
    pub open spec fn maybe_step(
        self,
        now: u64,
        scripts: Seq<(Seq<char>, Seq<u8>)>,
        accounts: Seq<(Seq<char>, CoinView)>,
        external: Seq<OutputView>,
        btc_height: u32,
        should_allow_deposits: bool,
        commitment: Seq<u8>,
        fee_pool: i64,
        units_per_sat: u64,
        validators: Seq<Validator>,
        sig_keys: Seq<([u8; 32], Xpub)>,
    ) -> Result<(CheckpointQueueView, i64, bool), ContractError> {
        match self.should_push(now, validators, sig_keys, commitment, btc_height) {
            Err(e) => Err(e),
            Ok(false) => Ok((self, fee_pool, false)),
            Ok(true) => match self.maybe_push(now, validators, sig_keys, should_allow_deposits) {
                Err(e) => Err(e),
                Ok((_, None)) => Ok((self, fee_pool, false)),
                Ok((pushed, Some(_))) => match pushed.prune() {
                    Err(e) => Err(e),
                    Ok(q) => if q.index == 0 {
                        Ok((q, fee_pool, true))
                    } else {
                        match q.seal_previous(
                            now,
                            scripts,
                            accounts,
                            external,
                            btc_height,
                            commitment,
                            fee_pool,
                            units_per_sat,
                        ) {
                            Err(e) => Err(e),
                            Ok((done, pool)) => Ok((done, pool, true)),
                        }
                    },
                },
            },
        }
    }

    /// The queue after the signatory with the extended public key `xpub`
    /// has submitted the signatures `sigs` for the checkpoint with the
    /// sequence number `index`. A checkpoint that is being signed becomes
    /// complete when the submission completes its signing.
    pub open spec fn sign(
        self,
        xpub: Seq<u8>,
        sigs: Seq<Signature>,
        index: u32,
        btc_height: u32,
    ) -> Result<CheckpointQueueView, ContractError> {
        match self.get(index as int) {
            Err(e) => Err(e),
            Ok(cp) => if cp.status == CheckpointStatus::Building {
                Err(ContractError::StillBuilding)
            } else {
                match cp.sign(xpub, sigs, btc_height) {
                    Err(e) => Err(e),
                    Ok(signed) => self.set(
                        index,
                        if cp.status == CheckpointStatus::Signing && signed.signed() {
                            CheckpointView { status: CheckpointStatus::Complete, ..signed }
                        } else {
                            signed
                        },
                    ),
                }
            },
        }
    }

    /// The queue with complete checkpoints put in front for the signatory
    /// sets of the redeem scripts, for the sequence numbers from
    /// `first_index` downwards, as far as these lie below the oldest
    /// checkpoint.
    pub open spec fn backfill(
        self,
        first_index: u32,
        scripts: Seq<Seq<u8>>,
        num: u64,
        den: u64,
    ) -> Result<CheckpointQueueView, ContractError> {
        if self.queue.len() == 0 {
            Err(ContractError::IndexOutOfBounds)
        } else {
            match backfilled(
                self,
                first_index + 1,
                scripts,
                scripts.len() as int,
                self.queue[0].sigset.create_time,
                num,
                den,
            ) {
                Err(e) => Err(e),
                Ok((q, _)) => Ok(q),
            }
        }
    }
}

/// Adds to a new checkpoint transaction what the checkpoint before it
/// handed over.
pub fn extend_tx(
    checkpoint_tx: &mut BitcoinTx,
    reserve_outpoint: OutPoint,
    reserve_value: u64,
    sigset: &SignatorySet,
    excess_inputs: &Vec<Input>,
    excess_outputs: &Vec<Output>,
    threshold: (u64, u64),
) -> (r: ContractResult<()>)
    ensures
        match r {
            Ok(()) => extended(
                old(checkpoint_tx)@,
                reserve_outpoint,
                reserve_value,
                sigset@,
                inputs_view(excess_inputs@),
                outputs_view(excess_outputs@),
                threshold.0,
                threshold.1,
            ) == Ok::<_, ContractError>(final(checkpoint_tx)@),
            Err(e) => extended(
                old(checkpoint_tx)@,
                reserve_outpoint,
                reserve_value,
                sigset@,
                inputs_view(excess_inputs@),
                outputs_view(excess_outputs@),
                threshold.0,
                threshold.1,
            ) == Err::<BitcoinTxView, _>(e),
        },
{
    let ghost tx = checkpoint_tx@;
    let ghost excess = inputs_view(excess_inputs@);
    let ghost spare = outputs_view(excess_outputs@);
    let ghost num = threshold.0;
    let ghost den = threshold.1;
    let dest = reserve_dest_bytes();
    let input = match Input::new(reserve_outpoint, sigset, &dest, reserve_value, threshold) {
        Ok(i) => i,
        Err(e) => {
            return Err(e);
        },
    };
    checkpoint_tx.input.push(input);
    assert(checkpoint_tx@.input =~= tx.input.push(input@));
    let ghost with_reserve = checkpoint_tx@.input;
    let ghost goal = extended(
        tx,
        reserve_outpoint,
        reserve_value,
        sigset@,
        excess,
        spare,
        num,
        den,
    );
    let mut i: usize = 0;
    while i < excess_inputs.len()
        invariant
            i <= excess_inputs.len(),
            excess == inputs_view(excess_inputs@),
            num == threshold.0,
            den == threshold.1,
            goal == match carried(excess, excess.len() as int, num, den) {
                Err(e) => Err::<BitcoinTxView, _>(e),
                Ok(more) => Ok(
                    BitcoinTxView { input: with_reserve + more, output: tx.output + spare, ..tx },
                ),
            },
            goal == extended(
                old(checkpoint_tx)@,
                reserve_outpoint,
                reserve_value,
                sigset@,
                inputs_view(excess_inputs@),
                outputs_view(excess_outputs@),
                threshold.0,
                threshold.1,
            ),
            checkpoint_tx@.output == tx.output,
            checkpoint_tx.lock_time == tx.lock_time,
            checkpoint_tx.signed_inputs == tx.signed_inputs,
            match carried(excess, i as int, num, den) {
                Ok(more) => checkpoint_tx@.input == with_reserve + more,
                Err(_) => false,
            },
        decreases excess_inputs.len() - i,
    {
        let shares = excess_inputs[i].signatures.shares();
        let signatures = match ThresholdSig::from_shares(shares, threshold) {
            Ok(s) => s,
            Err(e) => {
                proof {
                    assert(carried(excess, i + 1, num, den).is_err());
                    lemma_carried_fails(excess, i + 1, excess.len() as int, num, den);
                }
                return Err(e);
            },
        };
        let mut data = excess_inputs[i].clone();
        data.signatures = signatures;
        let ghost before = checkpoint_tx@.input;
        checkpoint_tx.input.push(data);
        assert(checkpoint_tx@.input =~= before.push(data@));
        assert(with_reserve + carried(excess, i + 1, num, den).unwrap() =~= (with_reserve
            + carried(excess, i as int, num, den).unwrap()).push(data@));
        i += 1;
    }
    let mut k: usize = 0;
    while k < excess_outputs.len()
        invariant
            k <= excess_outputs.len(),
            spare == outputs_view(excess_outputs@),
            checkpoint_tx@.input == with_reserve + carried(
                excess,
                excess.len() as int,
                num,
                den,
            ).unwrap(),
            checkpoint_tx.lock_time == tx.lock_time,
            checkpoint_tx.signed_inputs == tx.signed_inputs,
            checkpoint_tx@.output == tx.output + spare.take(k as int),
        decreases excess_outputs.len() - k,
    {
        let ghost before = checkpoint_tx@.output;
        checkpoint_tx.output.push(excess_outputs[k].clone());
        assert(checkpoint_tx@.output =~= before.push(spare[k as int]));
        assert(tx.output + spare.take(k + 1) =~= (tx.output + spare.take(k as int)).push(
            spare[k as int],
        ));
        k += 1;
    }
    assert(spare.take(spare.len() as int) =~= spare);
    Ok(())
}

impl CheckpointQueue {
    /// Removes the oldest checkpoints that are older than the greatest age,
    /// measured from the checkpoint that is being built, as long as more
    /// than ten checkpoints are left.
    pub fn prune(&mut self) -> (r: ContractResult<()>)
        ensures
            moves(r, old(self)@, final(self)@, old(self)@.prune()),
    {
        let latest = match self.building() {
            Ok(b) => b.0.create_time(),
            Err(e) => {
                return Err(e);
            },
        };
        let max_age = self.config.max_age;
        while self.queue.len() > MIN_CHECKPOINTS as usize && latest > self.queue[0].create_time()
            && latest - self.queue[0].create_time() > max_age
            invariant
                self.index == old(self).index,
                self.confirmed_index == old(self).confirmed_index,
                self.first_unhandled_confirmed_cp_index == old(
                    self,
                ).first_unhandled_confirmed_cp_index,
                self.config == old(self).config,
                self.queue_id == old(self).queue_id,
                pruned(self@.queue, latest, max_age) == pruned(old(self)@.queue, latest, max_age),
            decreases self.queue.len(),
        {
            let ghost before = self@.queue;
            let _ = self.queue.remove(0);
            assert(self@.queue =~= before.drop_first());
        }
        Ok(())
    }

    /// The sequence number of the next checkpoint to be built.
    fn next_index(&self) -> (r: ContractResult<u32>)
        ensures
            r == self@.next_index(),
    {
        if self.queue.len() == 0 {
            Ok(self.index)
        } else if self.index == u32::MAX {
            Err(ContractError::Overflow)
        } else {
            Ok(self.index + 1)
        }
    }

    /// The signatory set of the next checkpoint, if the validators give one
    /// with a quorum.
    fn candidate_set(&self, now: u64, validators: &Vec<Validator>, sig_keys: &Vec<([u8; 32], Xpub)>) -> (r:
        ContractResult<Option<SignatorySet>>)
        ensures
            match r {
                Ok(Some(sigset)) => self@.candidate_set(now, validators@, sig_keys@) == Ok::<
                    _,
                    ContractError,
                >(Some(sigset@)),
                Ok(None) => self@.candidate_set(now, validators@, sig_keys@) == Ok::<
                    Option<SignatorySetView>,
                    ContractError,
                >(None),
                Err(e) => self@.candidate_set(now, validators@, sig_keys@) == Err::<
                    Option<SignatorySetView>,
                    _,
                >(e),
            },
    {
        let index = match self.next_index() {
            Ok(i) => i,
            Err(e) => {
                return Err(e);
            },
        };
        let sigset = match SignatorySet::from_validator_ctx(validators, sig_keys, now, index) {
            Ok(s) => s,
            Err(e) => {
                return Err(e);
            },
        };
        if sigset.possible_vp() == 0 {
            return Ok(None);
        }
        if !sigset.has_quorum() {
            return Ok(None);
        }
        Ok(Some(sigset))
    }

    /// Whether the Bitcoin headers are being backfilled.
    fn backfilling(&self, btc_height: u32) -> (r: ContractResult<bool>)
        ensures
            r == self@.backfilling(btc_height),
    {
        match self.last_completed_index() {
            Err(_) => Ok(false),
            Ok(last_completed_index) => {
                let last_completed = match self.get(last_completed_index) {
                    Ok(cp) => cp,
                    Err(e) => {
                        return Err(e);
                    },
                };
                let last_signed_height = match last_completed.signed_at_btc_height {
                    Some(h) => h,
                    None => 0,
                };
                Ok(btc_height < last_signed_height)
            },
        }
    }

    /// Whether the building checkpoint is ready to be sealed.
    fn ready(&self, now: u64, timestamping_commitment: &Vec<u8>, btc_height: u32) -> (r:
        ContractResult<bool>)
        ensures
            r == self@.ready(now, timestamping_commitment@, btc_height),
    {
        let building = match self.building() {
            Ok(b) => b,
            Err(e) => {
                return Err(e);
            },
        };
        let created = building.0.create_time();
        if now < created {
            return Err(ContractError::Overflow);
        }
        let elapsed = now - created;
        if elapsed < self.config.min_checkpoint_interval {
            return Ok(false);
        }
        match self.backfilling(btc_height) {
            Ok(true) => {
                return Ok(false);
            },
            Ok(false) => {},
            Err(e) => {
                return Err(e);
            },
        }
        let cp_miner_fees = match self.calc_fee_checkpoint(self.index, timestamping_commitment) {
            Ok(f) => f,
            Err(e) => {
                return Err(e);
            },
        };
        if elapsed < self.config.max_checkpoint_interval || self.index == 0 {
            let checkpoint_tx = match building.0.checkpoint_tx() {
                Ok(tx) => tx,
                Err(e) => {
                    return Err(e);
                },
            };
            let has_pending_deposit = if self.index == 0 {
                checkpoint_tx.input.len() > 0
            } else {
                checkpoint_tx.input.len() > 1
            };
            let has_pending_withdrawal = checkpoint_tx.output.len() > 0;
            let has_pending_transfers = building.0.pending.len() > 0;
            if !has_pending_deposit && !has_pending_withdrawal && !has_pending_transfers {
                return Ok(false);
            }
        }
        // The fees collected must cover the miner fee, whatever time has passed.
        if building.0.fees_collected < cp_miner_fees {
            return Ok(false);
        }
        let (input_amount, output_amount) = match building.0.calc_total_input_and_output(
            &self.config,
        ) {
            Ok(t) => t,
            Err(e) => {
                return Err(e);
            },
        };
        Ok(input_amount as u128 >= output_amount as u128 + cp_miner_fees as u128)
    }

    /// Whether a new checkpoint is to be opened at the time `now`, given
    /// the validators and the keys that they have registered.
    pub fn should_push(
        &self,
        now: u64,
        validators: &Vec<Validator>,
        sig_keys: &Vec<([u8; 32], Xpub)>,
        timestamping_commitment: &Vec<u8>,
        btc_height: u32,
    ) -> (r: ContractResult<bool>)
        ensures
            r == self@.should_push(
                now,
                validators@,
                sig_keys@,
                timestamping_commitment@,
                btc_height,
            ),
    {
        match self.signing() {
            Ok(Some(_)) => {
                return Ok(false);
            },
            Ok(None) => {},
            Err(e) => {
                return Err(e);
            },
        }
        if self.queue.len() > 0 {
            match self.ready(now, timestamping_commitment, btc_height) {
                Ok(true) => {},
                Ok(false) => {
                    return Ok(false);
                },
                Err(e) => {
                    return Err(e);
                },
            }
        }
        let unconfs = match self.num_unconfirmed() {
            Ok(n) => n,
            Err(e) => {
                return Err(e);
            },
        };
        if unconfs >= self.config.max_unconfirmed_checkpoints {
            return Ok(false);
        }
        match self.candidate_set(now, validators, sig_keys) {
            Ok(set) => Ok(set.is_some()),
            Err(e) => Err(e),
        }
    }

    /// Opens a new building checkpoint for the signatory set that the
    /// validators give, and hands it out; does nothing if they give none
    /// with a quorum.
    pub fn maybe_push(
        &mut self,
        now: u64,
        validators: &Vec<Validator>,
        sig_keys: &Vec<([u8; 32], Xpub)>,
        deposits_enabled: bool,
    ) -> (r: ContractResult<Option<BuildingCheckpoint>>)
        ensures
            match r {
                Ok(Some(building)) => old(self)@.maybe_push(
                    now,
                    validators@,
                    sig_keys@,
                    deposits_enabled,
                ) == Ok::<_, ContractError>((final(self)@, Some(building.0@))),
                Ok(None) => old(self)@.maybe_push(now, validators@, sig_keys@, deposits_enabled)
                    == Ok::<_, ContractError>((final(self)@, None::<CheckpointView>))
                    && final(self)@ == old(self)@,
                Err(e) => old(self)@.maybe_push(now, validators@, sig_keys@, deposits_enabled)
                    == Err::<(CheckpointQueueView, Option<CheckpointView>), _>(e) && final(self)@
                    == old(self)@,
            },
    {
        let sigset = match self.candidate_set(now, validators, sig_keys) {
            Ok(Some(s)) => s,
            Ok(None) => {
                return Ok(None);
            },
            Err(e) => {
                return Err(e);
            },
        };
        if self.queue.len() >= u32::MAX as usize {
            return Err(ContractError::Overflow);
        }
        let index = sigset.index();
        let mut building = match Checkpoint::new(sigset) {
            Ok(cp) => cp,
            Err(e) => {
                return Err(e);
            },
        };
        building.deposits_enabled = deposits_enabled;
        let handed = building.clone();
        let ghost before = self@.queue;
        self.index = index;
        self.queue.push(building);
        assert(self@.queue =~= before.push(building@));
        Ok(Some(BuildingCheckpoint(handed)))
    }

    /// The fee rate of the next checkpoint.
    fn next_fee_rate(&self, prev_fee_rate: u64, btc_height: u32) -> (r: ContractResult<u64>)
        ensures
            r == self@.next_fee_rate(prev_fee_rate, btc_height),
    {
        match self.first_unconfirmed_index() {
            Err(e) => Err(e),
            Ok(Some(first_unconf_index)) => {
                let first_unconf = match self.get(first_unconf_index) {
                    Ok(cp) => cp,
                    Err(e) => {
                        return Err(e);
                    },
                };
                let first_height = match first_unconf.signed_at_btc_height {
                    Some(h) => h,
                    None => 0,
                };
                if btc_height < first_height {
                    return Err(ContractError::Overflow);
                }
                let btc_blocks_since_first = btc_height - first_height;
                let miners_excluded_cps = btc_blocks_since_first
                    >= self.config.target_checkpoint_inclusion;
                let last_unconf = match self.last_completed() {
                    Ok(cp) => cp,
                    Err(e) => {
                        return Err(e);
                    },
                };
                let last_height = match last_unconf.signed_at_btc_height {
                    Some(h) => h,
                    None => 0,
                };
                if btc_height < last_height {
                    return Err(ContractError::Overflow);
                }
                let block_was_mined = btc_height - last_height > 0;
                if miners_excluded_cps && block_was_mined {
                    Ok(adjust_fee_rate(prev_fee_rate, true, &self.config))
                } else {
                    Ok(prev_fee_rate)
                }
            },
            Ok(None) => {
                let has_completed = self.last_completed_index().is_ok();
                if has_completed {
                    Ok(adjust_fee_rate(prev_fee_rate, false, &self.config))
                } else {
                    Ok(prev_fee_rate)
                }
            },
        }
    }

    /// Seals the checkpoint before the building one and threads what it
    /// hands over into the building one.
    fn seal_previous(
        &mut self,
        now: u64,
        recovery_scripts: &Vec<(String, Vec<u8>)>,
        nbtc_accounts: &Accounts,
        external_outputs: &Vec<Output>,
        btc_height: u32,
        timestamping_commitment: &Vec<u8>,
        fee_pool: i64,
        units_per_sat: u64,
    ) -> (r: ContractResult<i64>)
        requires
            old(self).index > 0,
        ensures
            match r {
                Ok(pool) => old(self)@.seal_previous(
                    now,
                    scripts_view(recovery_scripts@),
                    balances_view(nbtc_accounts.accounts@),
                    outputs_view(external_outputs@),
                    btc_height,
                    timestamping_commitment@,
                    fee_pool,
                    units_per_sat,
                ) == Ok::<_, ContractError>((final(self)@, pool)),
                Err(e) => old(self)@.seal_previous(
                    now,
                    scripts_view(recovery_scripts@),
                    balances_view(nbtc_accounts.accounts@),
                    outputs_view(external_outputs@),
                    btc_height,
                    timestamping_commitment@,
                    fee_pool,
                    units_per_sat,
                ) == Err::<(CheckpointQueueView, i64), _>(e),
            },
    {
        let prev_index = self.index - 1;
        let cp_fees = match self.calc_fee_checkpoint(prev_index, timestamping_commitment) {
            Ok(f) => f,
            Err(e) => {
                return Err(e);
            },
        };
        let config = self.config();
        let prev = match self.get(prev_index) {
            Ok(cp) => cp,
            Err(e) => {
                return Err(e);
            },
        };
        let sigset = prev.sigset.clone();
        let prev_fee_rate = prev.fee_rate;
        let mut building_checkpoint = BuildingCheckpoint(prev);
        let (reserve_outpoint, reserve_value, fees_paid, excess_inputs, excess_outputs) =
            match building_checkpoint.advance(
            now,
            recovery_scripts,
            nbtc_accounts,
            external_outputs,
            timestamping_commitment.clone(),
            cp_fees,
            &config,
        ) {
            Ok(res) => res,
            Err(e) => {
                return Err(e);
            },
        };
        match self.set(prev_index, &building_checkpoint.0) {
            Ok(()) => {},
            Err(e) => {
                return Err(e);
            },
        }

        let pool = match fees_paid.checked_mul(units_per_sat) {
            Some(units) => if units > i64::MAX as u64 {
                return Err(ContractError::Overflow);
            } else {
                match fee_pool.checked_sub(units as i64) {
                    Some(p) => p,
                    None => {
                        return Err(ContractError::Overflow);
                    },
                }
            },
            None => {
                return Err(ContractError::Overflow);
            },
        };

        // The fee rate follows the time that checkpoints take to confirm.
        let fee_rate = match self.next_fee_rate(prev_fee_rate, btc_height) {
            Ok(f) => f,
            Err(e) => {
                return Err(e);
            },
        };
        match self.thread(
            fee_rate,
            reserve_outpoint,
            reserve_value,
            &sigset,
            &excess_inputs,
            &excess_outputs,
        ) {
            Ok(()) => Ok(pool),
            Err(e) => Err(e),
        }
    }

    /// Gives the building checkpoint its fee rate and what the checkpoint
    /// before it handed over.
    fn thread(
        &mut self,
        fee_rate: u64,
        reserve_outpoint: OutPoint,
        reserve_value: u64,
        sigset: &SignatorySet,
        excess_inputs: &Vec<Input>,
        excess_outputs: &Vec<Output>,
    ) -> (r: ContractResult<()>)
        ensures
            match r {
                Ok(()) => old(self)@.thread(
                    fee_rate,
                    reserve_outpoint,
                    reserve_value,
                    sigset@,
                    inputs_view(excess_inputs@),
                    outputs_view(excess_outputs@),
                ) == Ok::<_, ContractError>(final(self)@),
                Err(e) => old(self)@.thread(
                    fee_rate,
                    reserve_outpoint,
                    reserve_value,
                    sigset@,
                    inputs_view(excess_inputs@),
                    outputs_view(excess_outputs@),
                ) == Err::<CheckpointQueueView, _>(e),
            },
    {
        let mut building = match self.building() {
            Ok(b) => b,
            Err(e) => {
                return Err(e);
            },
        };
        building.0.fee_rate = fee_rate;
        let mut checkpoint_tx = match building.0.first_tx(BatchType::Checkpoint) {
            Ok(tx) => tx.clone(),
            Err(e) => {
                return Err(e);
            },
        };
        match extend_tx(
            &mut checkpoint_tx,
            reserve_outpoint,
            reserve_value,
            sigset,
            excess_inputs,
            excess_outputs,
            self.config.sigset_threshold,
        ) {
            Ok(()) => {},
            Err(e) => {
                return Err(e);
            },
        }
        building.0.set_first_tx(BatchType::Checkpoint, checkpoint_tx);
        self.set(self.index, &building.0)
    }

    /// Makes one step of the queue; to be called once for each block of
    /// the chain that runs the bridge. If a new checkpoint is to be opened
    /// at the time `now`, it is pushed, old checkpoints are pruned, and the
    /// checkpoint that was being built is sealed and moves to `Signing`; the
    /// result is then `true`. The miner fee of the sealed checkpoint leaves
    /// `fee_pool`. Where the step fails, queue and fee pool stay as they are.
    pub fn maybe_step(
        &mut self,
        now: u64,
        recovery_scripts: &Vec<(String, Vec<u8>)>,
        nbtc_accounts: &Accounts,
        external_outputs: &Vec<Output>,
        btc_height: u32,
        should_allow_deposits: bool,
        timestamping_commitment: Vec<u8>,
        fee_pool: &mut i64,
        parent_config: &BitcoinConfig,
        validators: &Vec<Validator>,
        sig_keys: &Vec<([u8; 32], Xpub)>,
    ) -> (r: ContractResult<bool>)
        ensures
            match r {
                Ok(pushed) => old(self)@.maybe_step(
                    now,
                    scripts_view(recovery_scripts@),
                    balances_view(nbtc_accounts.accounts@),
                    outputs_view(external_outputs@),
                    btc_height,
                    should_allow_deposits,
                    timestamping_commitment@,
                    *old(fee_pool),
                    parent_config.units_per_sat,
                    validators@,
                    sig_keys@,
                ) == Ok::<_, ContractError>((final(self)@, *final(fee_pool), pushed)),
                Err(e) => old(self)@.maybe_step(
                    now,
                    scripts_view(recovery_scripts@),
                    balances_view(nbtc_accounts.accounts@),
                    outputs_view(external_outputs@),
                    btc_height,
                    should_allow_deposits,
                    timestamping_commitment@,
                    *old(fee_pool),
                    parent_config.units_per_sat,
                    validators@,
                    sig_keys@,
                ) == Err::<(CheckpointQueueView, i64, bool), _>(e) && final(self)@ == old(self)@
                    && *final(fee_pool) == *old(fee_pool),
            },
    {
        match self.should_push(now, validators, sig_keys, &timestamping_commitment, btc_height) {
            Ok(true) => {},
            Ok(false) => {
                return Ok(false);
            },
            Err(e) => {
                return Err(e);
            },
        }
        let mut work = self.clone();
        match work.maybe_push(now, validators, sig_keys, should_allow_deposits) {
            Ok(Some(_)) => {},
            Ok(None) => {
                return Ok(false);
            },
            Err(e) => {
                return Err(e);
            },
        }
        match work.prune() {
            Ok(()) => {},
            Err(e) => {
                return Err(e);
            },
        }
        if work.index > 0 {
            let pool = match work.seal_previous(
                now,
                recovery_scripts,
                nbtc_accounts,
                external_outputs,
                btc_height,
                &timestamping_commitment,
                *fee_pool,
                parent_config.units_per_sat,
            ) {
                Ok(p) => p,
                Err(e) => {
                    return Err(e);
                },
            };
            *fee_pool = pool;
        }
        *self = work;
        Ok(true)
    }

    /// Takes the signatures that the signatory with the extended public
    /// key `xpub` submits for the checkpoint with the sequence number
    /// `index`. A checkpoint that is complete takes further signatures
    /// without a change of its state; one that is still being built takes
    /// none. A checkpoint that is being signed becomes complete when the
    /// submission completes its signing.
    pub fn sign(
        &mut self,
        xpub: &Xpub,
        sigs: Vec<Signature>,
        index: u32,
        btc_height: u32,
    ) -> (r: ContractResult<()>)
        ensures
            moves(r, old(self)@, final(self)@, old(self)@.sign(xpub.key@, sigs@, index, btc_height)),
    {
        let mut checkpoint = match self.get(index) {
            Ok(cp) => cp,
            Err(e) => {
                return Err(e);
            },
        };
        let status = checkpoint.status;
        if status == CheckpointStatus::Building {
            return Err(ContractError::StillBuilding);
        }
        match checkpoint.sign(xpub, sigs, btc_height) {
            Ok(()) => {},
            Err(e) => {
                return Err(e);
            },
        }
        if status == CheckpointStatus::Signing && checkpoint.signed() {
            checkpoint.advance();
        }
        self.set(index, &checkpoint)
    }

    /// Puts complete checkpoints for older signatory sets in front of the
    /// queue. The sets are given by their redeem scripts, newest first, the
    /// first of them for the sequence number `first_index`; those whose
    /// sequence number is in the queue already are passed over.
    pub fn backfill(
        &mut self,
        first_index: u32,
        redeem_scripts: Vec<Vec<u8>>,
        threshold_ratio: (u64, u64),
    ) -> (r: ContractResult<()>)
        ensures
            moves(
                r,
                old(self)@,
                final(self)@,
                old(self)@.backfill(
                    first_index,
                    byte_rows(redeem_scripts@),
                    threshold_ratio.0,
                    threshold_ratio.1,
                ),
            ),
    {
        if self.queue.len() == 0 {
            return Err(ContractError::IndexOutOfBounds);
        }
        let create_time = self.queue[0].create_time();
        let ghost start = self@;
        let ghost scripts = byte_rows(redeem_scripts@);
        let ghost num = threshold_ratio.0;
        let ghost den = threshold_ratio.1;
        let mut work = self.clone();
        let mut index: u64 = first_index as u64 + 1;
        let mut k: usize = 0;
        while k < redeem_scripts.len()
            invariant
                k <= redeem_scripts.len(),
                scripts == byte_rows(redeem_scripts@),
                num == threshold_ratio.0,
                den == threshold_ratio.1,
                index <= first_index + 1,
                self@ == start,
                start == old(self)@,
                start.queue.len() > 0,
                create_time == start.queue[0].sigset.create_time,
                backfilled(start, first_index + 1, scripts, k as int, create_time, num, den) == Ok::<
                    _,
                    ContractError,
                >((work@, index as int)),
            decreases redeem_scripts.len() - k,
        {
            if index == 0 {
                proof {
                    assert(backfilled(
                        start,
                        first_index + 1,
                        scripts,
                        k + 1,
                        create_time,
                        num,
                        den,
                    ).is_err());
                    lemma_backfilled_fails(
                        start,
                        first_index + 1,
                        scripts,
                        k + 1,
                        scripts.len() as int,
                        create_time,
                        num,
                        den,
                    );
                }
                return Err(ContractError::Overflow);
            }
            index -= 1;
            let first = match work.first_index() {
                Ok(f) => f,
                Err(e) => {
                    proof {
                        assert(backfilled(
                            start,
                            first_index + 1,
                            scripts,
                            k + 1,
                            create_time,
                            num,
                            den,
                        ).is_err());
                        lemma_backfilled_fails(
                            start,
                            first_index + 1,
                            scripts,
                            k + 1,
                            scripts.len() as int,
                            create_time,
                            num,
                            den,
                        );
                    }
                    return Err(e);
                },
            };
            if index < first as u64 {
                let mut sigset = match SignatorySet::from_script(&redeem_scripts[k], threshold_ratio) {
                    Ok((sigset, _)) => sigset,
                    Err(e) => {
                        proof {
                            assert(backfilled(
                                start,
                                first_index + 1,
                                scripts,
                                k + 1,
                                create_time,
                                num,
                                den,
                            ).is_err());
                            lemma_backfilled_fails(
                                start,
                                first_index + 1,
                                scripts,
                                k + 1,
                                scripts.len() as int,
                                create_time,
                                num,
                                den,
                            );
                        }
                        return Err(e);
                    },
                };
                sigset.index = index as u32;
                sigset.create_time = create_time;
                match Checkpoint::new(sigset) {
                    Ok(mut cp) => {
                        cp.status = CheckpointStatus::Complete;
                        let ghost before = work@.queue;
                        work.queue.insert(0, cp);
                        assert(work@.queue =~= seq![cp@] + before);
                    },
                    Err(e) => {
                        return Err(e);
                    },
                }
            }
            k += 1;
        }
        *self = work;
        Ok(())
    }
}

} // verus!
