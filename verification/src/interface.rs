use vstd::prelude::*;
use vstd::slice::slice_to_vec;
use vstd::utf8::encode_utf8;
use crate::backend::{sha256, sha256_digest};
use crate::bytes::append_bytes;
use crate::constants::{
    MAX_CHECKPOINT_AGE, MAX_CHECKPOINT_INTERVAL, MAX_DEPOSIT_AGE, MAX_FEE_RATE, MIN_DEPOSIT_AMOUNT,
    MIN_FEE_RATE, MIN_WITHDRAWAL_AMOUNT, SIGSET_THRESHOLD_DEN, SIGSET_THRESHOLD_NUM, TRANSFER_FEE,
    USER_FEE_FACTOR,
};

verus! {

/// The parameters of checkpoint processing.
#[derive(Clone, Copy, Debug, PartialEq, Eq)]
pub struct CheckpointConfig {
    /// The least time between the creation of two checkpoints, in seconds.
    pub min_checkpoint_interval: u64,
    /// The time after which a checkpoint is made even without pending
    /// deposits, withdrawals or transfers, in seconds.
    pub max_checkpoint_interval: u64,
    /// The greatest number of inputs of a checkpoint transaction; inputs
    /// beyond it move to the next checkpoint.
    pub max_inputs: u64,
    /// The greatest number of outputs of a checkpoint transaction; outputs
    /// beyond it move to the next checkpoint.
    pub max_outputs: u64,
    /// The fee rate of the first checkpoint, in satoshis per virtual byte.
    pub fee_rate: u64,
    /// The age beyond which a checkpoint may be pruned, in seconds.
    pub max_age: u64,
    /// The number of Bitcoin blocks within which a checkpoint transaction
    /// is meant to confirm.
    pub target_checkpoint_inclusion: u32,
    /// The lowest fee rate that the adjustment reaches.
    pub min_fee_rate: u64,
    /// The highest fee rate that the adjustment reaches.
    pub max_fee_rate: u64,
    /// The factor, in basis points, by which users are charged beyond the
    /// miner fee.
    pub user_fee_factor: u64,
    /// The share of the weight that must sign, as numerator and denominator.
    pub sigset_threshold: (u64, u64),
    /// The least amount that gets an output in the emergency disbursal.
    pub emergency_disbursal_min_tx_amt: u64,
    /// The time from the creation of a checkpoint until its emergency
    /// disbursal can be spent, in seconds.
    pub emergency_disbursal_lock_time_interval: u32,
    /// The size at which a final emergency disbursal transaction is closed,
    /// in virtual bytes.
    pub emergency_disbursal_max_tx_size: u64,
    /// The number of unconfirmed checkpoints at which no further checkpoint
    /// is made.
    pub max_unconfirmed_checkpoints: u32,
}

impl CheckpointConfig {
    /// The parameters that a new queue starts with.
    pub open spec fn spec_default() -> Self {
        CheckpointConfig {
            min_checkpoint_interval: 300,
            max_checkpoint_interval: MAX_CHECKPOINT_INTERVAL,
            max_inputs: 40,
            max_outputs: 200,
            fee_rate: 0,
            max_age: MAX_CHECKPOINT_AGE,
            target_checkpoint_inclusion: 2,
            min_fee_rate: MIN_FEE_RATE,
            max_fee_rate: MAX_FEE_RATE,
            user_fee_factor: USER_FEE_FACTOR,
            sigset_threshold: (SIGSET_THRESHOLD_NUM, SIGSET_THRESHOLD_DEN),
            emergency_disbursal_min_tx_amt: 1000,
            emergency_disbursal_lock_time_interval: 4838400,
            emergency_disbursal_max_tx_size: 50_000,
            max_unconfirmed_checkpoints: 15,
        }
    }
}

impl Default for CheckpointConfig {
    fn default() -> (r: Self)
        ensures
            r == CheckpointConfig::spec_default(),
    {
        CheckpointConfig {
            min_checkpoint_interval: 60 * 5,
            max_checkpoint_interval: MAX_CHECKPOINT_INTERVAL,
            max_inputs: 40,
            max_outputs: 200,
            fee_rate: 0,
            max_age: MAX_CHECKPOINT_AGE,
            target_checkpoint_inclusion: 2,
            min_fee_rate: MIN_FEE_RATE,
            max_fee_rate: MAX_FEE_RATE,
            user_fee_factor: USER_FEE_FACTOR,
            sigset_threshold: (SIGSET_THRESHOLD_NUM, SIGSET_THRESHOLD_DEN),
            emergency_disbursal_min_tx_amt: 1000,
            emergency_disbursal_lock_time_interval: 60 * 60 * 24 * 7 * 8,
            emergency_disbursal_max_tx_size: 50_000,
            max_unconfirmed_checkpoints: 15,
        }
    }
}

/// The parameters of the bridge as a whole.
#[derive(Clone, Copy, Debug, PartialEq, Eq)]
pub struct BitcoinConfig {
    /// The number of checkpoints that must exist before withdrawals are taken.
    pub min_withdrawal_checkpoints: u32,
    /// The least amount of a deposit, in satoshis.
    pub min_deposit_amount: u64,
    /// The least amount of a withdrawal, in satoshis.
    pub min_withdrawal_amount: u64,
    /// Not in use.
    pub max_withdrawal_amount: u64,
    /// The greatest length of the script of a withdrawal, in bytes.
    pub max_withdrawal_script_length: u64,
    /// The fee of a transfer, in millionths of a satoshi.
    pub transfer_fee: u64,
    /// The number of confirmations after which a Bitcoin block is final.
    pub min_confirmations: u32,
    /// The number of account units in one satoshi.
    pub units_per_sat: u64,
    pub emergency_disbursal_min_tx_amt: u64,
    pub emergency_disbursal_lock_time_interval: u32,
    pub emergency_disbursal_max_tx_size: u64,
    /// The number of checkpoints in a row that a signer may miss.
    pub max_offline_checkpoints: u32,
    /// The number of confirmations after which a checkpoint is confirmed.
    pub min_checkpoint_confirmations: u32,
    /// The greatest amount that the reserve may hold, in satoshis.
    pub capacity_limit: u64,
    /// The age beyond which a deposit is no longer honoured, in seconds.
    pub max_deposit_age: u64,
    /// The balance that the fee pool aims at, in satoshis.
    pub fee_pool_target_balance: u64,
    /// The share of the fee pool that is paid out as rewards.
    pub fee_pool_reward_split: (u64, u64),
}

impl BitcoinConfig {
    /// The parameters for the Bitcoin main network and test network.
    pub open spec fn spec_bitcoin() -> Self {
        BitcoinConfig {
            min_withdrawal_checkpoints: 4,
            min_deposit_amount: MIN_DEPOSIT_AMOUNT,
            min_withdrawal_amount: MIN_WITHDRAWAL_AMOUNT,
            max_withdrawal_amount: 64,
            max_withdrawal_script_length: 64,
            transfer_fee: TRANSFER_FEE,
            min_confirmations: 1,
            units_per_sat: 1_000_000,
            emergency_disbursal_min_tx_amt: 1000,
            emergency_disbursal_lock_time_interval: 4838400,
            emergency_disbursal_max_tx_size: 50_000,
            max_offline_checkpoints: 20,
            min_checkpoint_confirmations: 0,
            capacity_limit: 2_100_000_000,
            max_deposit_age: MAX_DEPOSIT_AGE,
            fee_pool_target_balance: 100_000_000,
            fee_pool_reward_split: (1, 10),
        }
    }

    /// The parameters for the Bitcoin main network and test network.
    pub fn bitcoin() -> (r: Self)
        ensures
            r == Self::spec_bitcoin(),
    {
        BitcoinConfig {
            min_withdrawal_checkpoints: 4,
            min_deposit_amount: MIN_DEPOSIT_AMOUNT,
            min_withdrawal_amount: MIN_WITHDRAWAL_AMOUNT,
            max_withdrawal_amount: 64,
            max_withdrawal_script_length: 64,
            transfer_fee: TRANSFER_FEE,
            min_confirmations: 1,
            units_per_sat: 1_000_000,
            emergency_disbursal_min_tx_amt: 1000,
            emergency_disbursal_lock_time_interval: 60 * 60 * 24 * 7 * 8,
            emergency_disbursal_max_tx_size: 50_000,
            max_offline_checkpoints: 20,
            min_checkpoint_confirmations: 0,
            capacity_limit: 21 * 100_000_000,
            max_deposit_age: MAX_DEPOSIT_AGE,
            fee_pool_target_balance: 100_000_000,
            fee_pool_reward_split: (1, 10),
        }
    }
}

impl Default for BitcoinConfig {
    fn default() -> (r: Self)
        ensures
            r == BitcoinConfig::spec_bitcoin(),
    {
        BitcoinConfig::bitcoin()
    }
}

/// The share of the signatory set that changed, and of the reserve that
/// was withdrawn, over a span of time, in basis points.
#[derive(Clone, Copy, Debug, PartialEq, Eq, Default)]
pub struct ChangeRates {
    pub withdrawal: u16,
    pub sigset_change: u16,
}

/// The message that accompanies a migration of the stored state.
#[derive(Clone, Copy, Debug, PartialEq, Eq, Default)]
pub struct MigrateMsg {}

/// A validator: its consensus key and its voting power.
#[derive(Clone, Copy, Debug, PartialEq, Eq)]
pub struct Validator {
    pub pubkey: [u8; 32],
    pub power: u64,
}

/// The destination of a transfer over an inter-chain channel.
#[derive(Debug, PartialEq, Eq)]
pub struct IbcDest {
    pub source_port: String,
    pub source_channel: String,
    pub receiver: String,
    pub sender: String,
    pub timeout_timestamp: u64,
    pub memo: String,
}

/// The destination of a deposit or a transfer.
#[derive(Debug, PartialEq, Eq)]
pub enum Dest {
    /// An account on this chain.
    Address(String),
    /// An account on another chain.
    Ibc(IbcDest),
}

impl Dest {
    /// The address that receives at the destination.
    pub open spec fn receiver(&self) -> Seq<char> {
        match self {
            Dest::Address(addr) => addr@,
            Dest::Ibc(dest) => dest.receiver@,
        }
    }

    /// The address that sends to the destination.
    pub open spec fn source(&self) -> Seq<char> {
        match self {
            Dest::Address(addr) => addr@,
            Dest::Ibc(dest) => dest.sender@,
        }
    }

    /// The bytes that commit an output to the destination: the address
    /// itself, or the digest of the receiving address on the other chain.
    pub open spec fn commitment(&self) -> Seq<u8> {
        match self {
            Dest::Address(addr) => encode_utf8(addr@),
            Dest::Ibc(dest) => sha256_digest(encode_utf8(dest.receiver@)),
        }
    }

    /// The bytes that commit an output to the destination.
    pub fn commitment_bytes(&self) -> (r: Result<Vec<u8>, crate::error::ContractError>)
        ensures
            crate::error::yields(r, Ok::<_, crate::error::ContractError>(self.commitment())),
    {
        match self {
            Dest::Address(addr) => Ok(slice_to_vec(addr.as_str().as_bytes())),
            Dest::Ibc(dest) => {
                let receiver = slice_to_vec(dest.receiver.as_str().as_bytes());
                Ok(sha256(&receiver))
            },
        }
    }

    /// The address that receives at the destination.
    pub fn to_receiver_addr(&self) -> (r: String)
        ensures
            r@ == self.receiver(),
    {
        match self {
            Dest::Address(addr) => addr.clone(),
            Dest::Ibc(dest) => dest.receiver.clone(),
        }
    }

    /// The address that sends to the destination.
    pub fn to_source_addr(&self) -> (r: String)
        ensures
            r@ == self.source(),
    {
        match self {
            Dest::Address(addr) => addr.clone(),
            Dest::Ibc(dest) => dest.sender.clone(),
        }
    }
}

/// An amount of a token.
#[derive(Debug, PartialEq)]
pub struct Coin {
    pub denom: String,
    pub amount: u128,
}

/// The value of a `Coin`.
pub struct CoinView {
    pub denom: Seq<char>,
    pub amount: u128,
}

impl View for Coin {
    type V = CoinView;

    open spec fn view(&self) -> CoinView {
        CoinView { denom: self.denom@, amount: self.amount }
    }
}

impl Clone for Coin {
    fn clone(&self) -> (r: Self)
        ensures
            r@ == self@,
    {
        Coin { denom: self.denom.clone(), amount: self.amount }
    }
}

/// The values of a sequence of balances by address.
pub open spec fn balances_view(s: Seq<(String, Coin)>) -> Seq<(Seq<char>, CoinView)> {
    s.map_values(|p: (String, Coin)| (p.0@, p.1@))
}

/// The position from `start` on of the first entry for `address`.
pub open spec fn entry_from<T>(entries: Seq<(Seq<char>, T)>, address: Seq<char>, start: int) -> Option<
    int,
>
    decreases entries.len() - start,
{
    if start < 0 || start >= entries.len() {
        None
    } else if entries[start].0 == address {
        Some(start)
    } else {
        entry_from(entries, address, start + 1)
    }
}

/// The first entry for `address`.
pub open spec fn lookup<T>(entries: Seq<(Seq<char>, T)>, address: Seq<char>) -> Option<T> {
    match entry_from(entries, address, 0) {
        Some(i) => Some(entries[i].1),
        None => None,
    }
}

/// The balances of the holders of the bridged token.
#[derive(Debug, PartialEq)]
pub struct Accounts {
    pub transfers_allowed: bool,
    pub transfer_exceptions: Vec<String>,
    pub accounts: Vec<(String, Coin)>,
}

impl Default for Accounts {
    fn default() -> (r: Self)
        ensures
            !r.transfers_allowed,
            r.transfer_exceptions@.len() == 0,
            r.accounts@.len() == 0,
    {
        Accounts { transfers_allowed: false, transfer_exceptions: Vec::new(), accounts: Vec::new() }
    }
}

impl Accounts {
    /// The position of the first entry for `address`.
    fn find(&self, address: &String) -> (r: Option<usize>)
        ensures
            match r {
                Some(i) => entry_from(balances_view(self.accounts@), address@, 0) == Some(i as int)
                    && i < self.accounts.len(),
                None => entry_from(balances_view(self.accounts@), address@, 0).is_none(),
            },
    {
        let mut i: usize = 0;
        while i < self.accounts.len()
            invariant
                i <= self.accounts.len(),
                entry_from(balances_view(self.accounts@), address@, 0) == entry_from(
                    balances_view(self.accounts@),
                    address@,
                    i as int,
                ),
            decreases self.accounts.len() - i,
        {
            if self.accounts[i].0 == *address {
                return Some(i);
            }
            i += 1;
        }
        None
    }

    /// The balance of `address`, if it has an account.
    pub fn balance(&self, address: &String) -> (r: Option<Coin>)
        ensures
            match r {
                Some(coin) => lookup(balances_view(self.accounts@), address@) == Some(coin@),
                None => lookup(balances_view(self.accounts@), address@).is_none(),
            },
    {
        match self.find(address) {
            Some(i) => Some(self.accounts[i].1.clone()),
            None => None,
        }
    }

    /// The balance of `address`, provided that it covers `amount`. The
    /// balance itself stays as it is.
    pub fn withdraw(&mut self, address: &String, amount: u128) -> (r: Result<
        Coin,
        crate::error::ContractError,
    >)
        ensures
            *final(self) == *old(self),
            match r {
                Ok(coin) => lookup(balances_view(old(self).accounts@), address@) == Some(coin@)
                    && amount <= coin.amount,
                Err(e) => match lookup(balances_view(old(self).accounts@), address@) {
                    Some(coin) => amount > coin.amount && e == crate::error::ContractError::Overflow,
                    None => e == crate::error::ContractError::InsufficientFunds,
                },
            },
    {
        match self.find(address) {
            Some(i) => {
                if self.accounts[i].1.amount < amount {
                    Err(crate::error::ContractError::Overflow)
                } else {
                    Ok(self.accounts[i].1.clone())
                }
            },
            None => Err(crate::error::ContractError::InsufficientFunds),
        }
    }
}

/// The values of a registry of recovery scripts by address.
pub open spec fn scripts_view(s: Seq<(String, Vec<u8>)>) -> Seq<(Seq<char>, Seq<u8>)> {
    s.map_values(|p: (String, Vec<u8>)| (p.0@, p.1@))
}

/// The recovery script that is registered for `dest`, if there is one.
pub fn to_output_script(recovery_scripts: &Vec<(String, Vec<u8>)>, dest: &String) -> (r: Option<
    Vec<u8>,
>)
    ensures
        match r {
            Some(script) => lookup(scripts_view(recovery_scripts@), dest@) == Some(script@),
            None => lookup(scripts_view(recovery_scripts@), dest@).is_none(),
        },
{
    let mut i: usize = 0;
    while i < recovery_scripts.len()
        invariant
            i <= recovery_scripts.len(),
            entry_from(scripts_view(recovery_scripts@), dest@, 0) == entry_from(
                scripts_view(recovery_scripts@),
                dest@,
                i as int,
            ),
        decreases recovery_scripts.len() - i,
    {
        if recovery_scripts[i].0 == *dest {
            return Some(recovery_scripts[i].1.clone());
        }
        i += 1;
    }
    None
}

/// The four bytes of `x`, highest first.
pub open spec fn be_bytes(x: u32) -> Seq<u8> {
    seq![
        (x / 0x100_0000) as u8,
        (x / 0x1_0000 % 0x100) as u8,
        (x / 0x100 % 0x100) as u8,
        (x % 0x100) as u8,
    ]
}

/// The names of the places in a key-value store at which the items of a
/// stored queue lie.
#[derive(Debug, PartialEq, Eq)]
pub struct DequeExtension {
    /// The length of the name of the queue, in two bytes, highest first.
    pub key_prefix: [u8; 2],
    /// The name of the queue.
    pub namespace: Vec<u8>,
}

impl DequeExtension {
    /// The names for the queue that is stored under `prefix`.
    pub fn new(prefix: &str) -> (r: Self)
        ensures
            r.namespace@ == encode_utf8(prefix@),
            r.key_prefix@ == seq![
                (encode_utf8(prefix@).len() / 0x100 % 0x100) as u8,
                (encode_utf8(prefix@).len() % 0x100) as u8,
            ],
    {
        let namespace = slice_to_vec(prefix.as_bytes());
        let len = namespace.len();
        let key_prefix: [u8; 2] = [(len / 0x100 % 0x100) as u8, (len % 0x100) as u8];
        assert(key_prefix@ =~= seq![(len / 0x100 % 0x100) as u8, (len % 0x100) as u8]);
        DequeExtension { key_prefix, namespace }
    }

    /// The name of the place at which the item at the position `pos` lies:
    /// the length of the name of the queue, the name, and the position in
    /// four bytes, highest first.
    pub fn get_key(&self, pos: u32) -> (r: Vec<u8>)
        ensures
            r@ == self.key_prefix@ + self.namespace@ + be_bytes(pos),
    {
        let mut out: Vec<u8> = Vec::new();
        out.push(self.key_prefix[0]);
        out.push(self.key_prefix[1]);
        assert(out@ =~= self.key_prefix@);
        append_bytes(&mut out, &self.namespace);
        out.push((pos / 0x100_0000) as u8);
        out.push((pos / 0x1_0000 % 0x100) as u8);
        out.push((pos / 0x100 % 0x100) as u8);
        out.push((pos % 0x100) as u8);
        assert(out@ =~= self.key_prefix@ + self.namespace@ + be_bytes(pos));
        out
    }
}

} // verus!
