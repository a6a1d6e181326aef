use vstd::prelude::*;
use crate::backend::{
    int_push, int_push_bytes, p2wsh_script, slice_push,
    slice_push_bytes, to_v0_p2wsh,
};
use crate::interface::Validator;
use crate::bytes::append_bytes;
use crate::error::{ContractError, ContractResult};
use crate::keys::{derive_pubkey, signatory_key, Pubkey, Xpub};
use crate::threshold_sig::{threshold_of, threshold_weight};

verus! {

/// The greatest number of signatories kept in one signatory set.
pub const MAX_SIGNATORIES: usize = 20;

/// The number of bits of a weight that a redeem script keeps.
pub const SCRIPT_PRECISION: u64 = 23;

/// Runs what follows if the top of the stack is true.
pub const OP_IF: u8 = 0x63;

/// Runs what follows if the matching `OP_IF` did not.
pub const OP_ELSE: u8 = 0x67;

/// Ends an `OP_IF`.
pub const OP_ENDIF: u8 = 0x68;

/// Removes the top of the stack.
pub const OP_DROP: u8 = 0x75;

/// Swaps the two items on top of the stack.
pub const OP_SWAP: u8 = 0x7c;

/// Adds the two numbers on top of the stack.
pub const OP_ADD: u8 = 0x93;

/// Whether the second number from the top is at least the top one.
pub const OP_GREATERTHANOREQUAL: u8 = 0xa2;

/// Whether the signature under the top of the stack is one of the key on top.
pub const OP_CHECKSIG: u8 = 0xac;

/// The number of binary digits of `v`.
pub open spec fn bit_length(v: int) -> nat
    decreases v,
{
    if v <= 0 {
        0
    } else {
        1 + bit_length(v / 2)
    }
}

/// `v` without its `t` lowest binary digits.
pub open spec fn truncated(v: int, t: nat) -> int
    decreases t,
{
    if t == 0 {
        v
    } else {
        truncated(v / 2, (t - 1) as nat)
    }
}

/// The number of binary digits of `v`.
pub fn bits_of(v: u64) -> (r: u64)
    ensures
        r == bit_length(v as int),
{
    let mut rest: u64 = v;
    let mut n: u64 = 0;
    while rest > 0
        invariant
            n + bit_length(rest as int) == bit_length(v as int),
            n + rest <= v,
        decreases rest,
    {
        rest = rest / 2;
        n = n + 1;
    }
    n
}

/// `v` without its `t` lowest binary digits.
pub fn drop_bits(v: u64, t: u64) -> (r: u64)
    ensures
        r == truncated(v as int, t as nat),
{
    let mut rest: u64 = v;
    let mut n: u64 = t;
    while n > 0
        invariant
            truncated(rest as int, n as nat) == truncated(v as int, t as nat),
        decreases n,
    {
        rest = rest / 2;
        n = n - 1;
    }
    rest
}

/// One member of a signatory set: a public key and the weight of its vote.
#[derive(Clone, Copy, Debug, PartialEq, Eq)]
pub struct Signatory {
    pub voting_power: u64,
    pub pubkey: Pubkey,
}

/// The weighted keys that sign one checkpoint's transactions.
#[derive(Debug, PartialEq)]
pub struct SignatorySet {
    /// The time at which the set was made, in seconds.
    pub create_time: u64,
    /// The summed weight of the members.
    pub present_vp: u64,
    /// The summed weight of all validators, members or not.
    pub possible_vp: u64,
    /// The sequence number of the checkpoint that the set belongs to.
    pub index: u32,
    /// The members, heaviest first.
    pub signatories: Vec<Signatory>,
}

/// The value of a `SignatorySet`.
pub struct SignatorySetView {
    pub create_time: u64,
    pub present_vp: u64,
    pub possible_vp: u64,
    pub index: u32,
    pub signatories: Seq<Signatory>,
}

impl View for SignatorySet {
    type V = SignatorySetView;

    open spec fn view(&self) -> SignatorySetView {
        SignatorySetView {
            create_time: self.create_time,
            present_vp: self.present_vp,
            possible_vp: self.possible_vp,
            index: self.index,
            signatories: self.signatories@,
        }
    }
}

impl SignatorySetView {
    /// The number of low binary digits that scripts drop from every weight.
    pub open spec fn truncation(self) -> nat {
        if bit_length(self.present_vp as int) > SCRIPT_PRECISION {
            (bit_length(self.present_vp as int) - SCRIPT_PRECISION) as nat
        } else {
            0
        }
    }

    /// The weight of member `i` as a script states it.
    pub open spec fn script_weight(self, i: int) -> int {
        truncated(self.signatories[i].voting_power as int, self.truncation())
    }

    /// The part of the redeem script that checks the signature of member `i`
    /// and adds its weight to the sum.
    pub open spec fn member_script(self, i: int) -> Seq<u8> {
        let key = slice_push(self.signatories[i].pubkey.bytes@);
        let weight = int_push(self.script_weight(i) as i64);
        if i == 0 {
            key + seq![OP_CHECKSIG, OP_IF] + weight + seq![OP_ELSE] + int_push(0) + seq![OP_ENDIF]
        } else {
            seq![OP_SWAP] + key + seq![OP_CHECKSIG, OP_IF] + weight + seq![OP_ADD, OP_ENDIF]
        }
    }

    /// The parts of the redeem script for the first `n` members.
    pub open spec fn members_script(self, n: int) -> Seq<u8>
        decreases n,
    {
        if n <= 0 {
            Seq::empty()
        } else {
            self.members_script(n - 1) + self.member_script(n - 1)
        }
    }

    /// Whether every member's weight, as scripts state it, fits in 32 bits.
    pub open spec fn weights_fit(self) -> bool {
        forall|i: int| 0 <= i < self.signatories.len() ==> #[trigger] self.script_weight(i) <= u32::MAX
    }

    /// The threshold weight for `num / den` as a script states it.
    pub open spec fn script_threshold(self, num: u64, den: u64) -> int {
        truncated(threshold_of(self.present_vp as int, num as int, den as int), self.truncation())
    }

    /// The script that signatures of at least the threshold weight
    /// redeem: one part for each member that adds its weight where its
    /// signature is valid, the comparison with the threshold, and the
    /// commitment to `dest`.
    pub open spec fn redeem_script(self, dest: Seq<u8>, num: u64, den: u64) -> Result<
        Seq<u8>,
        ContractError,
    > {
        if self.signatories.len() == 0 {
            Err(ContractError::EmptySignatorySet)
        } else if den == 0 {
            Err(ContractError::InvalidThreshold)
        } else if threshold_of(self.present_vp as int, num as int, den as int) > u64::MAX
            || self.script_threshold(num, den) > u32::MAX || dest.len() >= 0x1_0000_0000
            || !self.weights_fit() {
            Err(ContractError::Overflow)
        } else {
            Ok(
                self.members_script(self.signatories.len() as int) + int_push(
                    self.script_threshold(num, den) as i64,
                ) + seq![OP_GREATERTHANOREQUAL] + slice_push(dest) + seq![OP_DROP],
            )
        }
    }

    /// The script that locks an output to the redeem script.
    pub open spec fn output_script(self, dest: Seq<u8>, num: u64, den: u64) -> Result<
        Seq<u8>,
        ContractError,
    > {
        match self.redeem_script(dest, num, den) {
            Ok(script) => Ok(p2wsh_script(script)),
            Err(e) => Err(e),
        }
    }

    /// Whether the members hold more than half of the possible weight.
    pub open spec fn has_quorum(self) -> bool {
        2 * self.present_vp > self.possible_vp
    }

    /// The estimated size of a witness that spends from the set, in virtual bytes.
    pub open spec fn est_witness_vsize(self) -> int {
        (self.signatories.len() * 79 + 39) as int
    }
}

impl SignatorySet {
    /// A set without members.
    pub fn new(index: u32, create_time: u64) -> (r: Self)
        ensures
            r@ == (SignatorySetView {
                create_time,
                present_vp: 0,
                possible_vp: 0,
                index,
                signatories: Seq::empty(),
            }),
    {
        SignatorySet { create_time, present_vp: 0, possible_vp: 0, index, signatories: Vec::new() }
    }

    /// The sequence number of the checkpoint that the set belongs to.
    pub fn index(&self) -> (r: u32)
        ensures
            r == self@.index,
    {
        self.index
    }

    /// The time at which the set was made, in seconds.
    pub fn create_time(&self) -> (r: u64)
        ensures
            r == self@.create_time,
    {
        self.create_time
    }

    /// The summed weight of the members.
    pub fn present_vp(&self) -> (r: u64)
        ensures
            r == self@.present_vp,
    {
        self.present_vp
    }

    /// The summed weight of all validators.
    pub fn possible_vp(&self) -> (r: u64)
        ensures
            r == self@.possible_vp,
    {
        self.possible_vp
    }

    /// The number of members.
    pub fn len(&self) -> (r: usize)
        ensures
            r == self@.signatories.len(),
    {
        self.signatories.len()
    }

    /// Whether the members hold more than half of the possible weight.
    pub fn has_quorum(&self) -> (r: bool)
        ensures
            r == self@.has_quorum(),
    {
        self.present_vp as u128 * 2 > self.possible_vp as u128
    }

    /// The estimated size of a witness that spends from the set, in virtual bytes.
    pub fn est_witness_vsize(&self) -> (r: ContractResult<u64>)
        ensures
            match r {
                Ok(v) => v == self@.est_witness_vsize(),
                Err(e) => e == ContractError::Overflow && self@.est_witness_vsize() > u64::MAX,
            },
    {
        let v: u128 = self.signatories.len() as u128 * 79 + 39;
        if v > u64::MAX as u128 {
            Err(ContractError::Overflow)
        } else {
            Ok(v as u64)
        }
    }

    /// The number of low binary digits that scripts drop from every weight.
    fn truncation(&self) -> (r: u64)
        ensures
            r == self@.truncation(),
    {
        let bits = bits_of(self.present_vp);
        if bits > SCRIPT_PRECISION {
            bits - SCRIPT_PRECISION
        } else {
            0
        }
    }

    /// The redeem script of the set for the destination `dest` and the
    /// threshold `threshold.0 / threshold.1`.
    pub fn redeem_script(&self, dest: &Vec<u8>, threshold: (u64, u64)) -> (r: ContractResult<
        Vec<u8>,
    >)
        ensures
            match r {
                Ok(script) => self@.redeem_script(dest@, threshold.0, threshold.1) == Ok::<
                    _,
                    ContractError,
                >(script@),
                Err(e) => self@.redeem_script(dest@, threshold.0, threshold.1) == Err::<Seq<u8>, _>(
                    e,
                ),
            },
    {
        if self.signatories.len() == 0 {
            return Err(ContractError::EmptySignatorySet);
        }
        if threshold.1 == 0 {
            return Err(ContractError::InvalidThreshold);
        }
        let weight = match threshold_weight(self.present_vp, threshold.0, threshold.1) {
            Some(w) => w,
            None => {
                return Err(ContractError::Overflow);
            },
        };
        let truncation = self.truncation();
        let limit = drop_bits(weight, truncation);
        if limit > u32::MAX as u64 || dest.len() as u128 >= 0x1_0000_0000u128 {
            return Err(ContractError::Overflow);
        }
        let mut script: Vec<u8> = Vec::new();
        let mut i: usize = 0;
        while i < self.signatories.len()
            invariant
                i <= self.signatories.len(),
                threshold.1 != 0,
                truncation == self@.truncation(),
                script@ == self@.members_script(i as int),
                forall|j: int| 0 <= j < i ==> #[trigger] self@.script_weight(j) <= u32::MAX,
            decreases self.signatories.len() - i,
        {
            let member = self.signatories[i];
            let w = drop_bits(member.voting_power, truncation);
            if w > u32::MAX as u64 {
                assert(self@.script_weight(i as int) > u32::MAX);
                assert(!self@.weights_fit());
                return Err(ContractError::Overflow);
            }
            let key = slice_push_bytes(&member.pubkey.to_vec());
            let push = int_push_bytes(w as i64);
            if i == 0 {
                append_bytes(&mut script, &key);
                script.push(OP_CHECKSIG);
                script.push(OP_IF);
                append_bytes(&mut script, &push);
                script.push(OP_ELSE);
                append_bytes(&mut script, &int_push_bytes(0));
                script.push(OP_ENDIF);
                assert(script@ =~= self@.member_script(0));
                assert(self@.members_script(1) =~= self@.member_script(0));
            } else {
                let ghost before = script@;
                script.push(OP_SWAP);
                append_bytes(&mut script, &key);
                script.push(OP_CHECKSIG);
                script.push(OP_IF);
                append_bytes(&mut script, &push);
                script.push(OP_ADD);
                script.push(OP_ENDIF);
                assert(script@ =~= before + self@.member_script(i as int));
            }
            i += 1;
        }
        let ghost members = script@;
        append_bytes(&mut script, &int_push_bytes(limit as i64));
        script.push(OP_GREATERTHANOREQUAL);
        append_bytes(&mut script, &slice_push_bytes(dest));
        script.push(OP_DROP);
        assert(self@.weights_fit());
        assert(script@ =~= members + int_push(limit as i64) + seq![OP_GREATERTHANOREQUAL]
            + slice_push(dest@) + seq![OP_DROP]);
        Ok(script)
    }

    /// The script that locks an output to the redeem script of the set.
    pub fn output_script(&self, dest: &Vec<u8>, threshold: (u64, u64)) -> (r: ContractResult<
        Vec<u8>,
    >)
        ensures
            match r {
                Ok(script) => self@.output_script(dest@, threshold.0, threshold.1) == Ok::<
                    _,
                    ContractError,
                >(script@),
                Err(e) => self@.output_script(dest@, threshold.0, threshold.1) == Err::<Seq<u8>, _>(
                    e,
                ),
            },
    {
        match self.redeem_script(dest, threshold) {
            Ok(script) => Ok(to_v0_p2wsh(&script)),
            Err(e) => Err(e),
        }
    }
}

impl Default for SignatorySet {
    fn default() -> (r: Self)
        ensures
            r@ == (SignatorySetView {
                create_time: 0,
                present_vp: 0,
                possible_vp: 0,
                index: 0,
                signatories: Seq::empty(),
            }),
    {
        SignatorySet::new(0, 0)
    }
}

impl Clone for SignatorySet {
    fn clone(&self) -> (r: Self)
        ensures
            r@ == self@,
    {
        SignatorySet {
            create_time: self.create_time,
            present_vp: self.present_vp,
            possible_vp: self.possible_vp,
            index: self.index,
            signatories: self.signatories.clone(),
        }
    }
}

/// Whether the bytes of `a` from `from` on come after those of `b` in
/// the order of byte strings.
pub open spec fn bytes_above(a: Seq<u8>, b: Seq<u8>, from: int) -> bool
    decreases a.len() - from,
{
    if from < 0 || from >= a.len() || from >= b.len() {
        false
    } else if a[from] != b[from] {
        a[from] > b[from]
    } else {
        bytes_above(a, b, from + 1)
    }
}

/// Whether `a` stands before `b` in a signatory set: by greater weight,
/// and among equal weights by the greater key.
pub open spec fn outranks(a: Signatory, b: Signatory) -> bool {
    a.voting_power > b.voting_power || (a.voting_power == b.voting_power && bytes_above(
        a.pubkey.bytes@,
        b.pubkey.bytes@,
        0,
    ))
}

/// The position from `start` on of the first member that `x` outranks,
/// or the number of members if there is none.
pub open spec fn rank_from(s: Seq<Signatory>, x: Signatory, start: int) -> int
    decreases s.len() - start,
{
    if start < 0 || start >= s.len() {
        s.len() as int
    } else if outranks(x, s[start]) {
        start
    } else {
        rank_from(s, x, start + 1)
    }
}

/// The members with `x` put before the first member that it outranks.
pub open spec fn ranked_insert(s: Seq<Signatory>, x: Signatory) -> Seq<Signatory> {
    s.insert(rank_from(s, x, 0), x)
}

/// The first `n` of the candidates in the order of a signatory set.
pub open spec fn ranked(s: Seq<Signatory>, n: int) -> Seq<Signatory>
    decreases n,
{
    if n <= 0 {
        Seq::empty()
    } else {
        ranked_insert(ranked(s, n - 1), s[n - 1])
    }
}

/// The summed weights of the first `n` members.
pub open spec fn power_sum(s: Seq<Signatory>, n: int) -> int
    decreases n,
{
    if n <= 0 {
        0
    } else {
        power_sum(s, n - 1) + s[n - 1].voting_power
    }
}

/// The rank of a candidate is a position in the sequence, or its end.
pub proof fn lemma_rank_from_bounds(s: Seq<Signatory>, x: Signatory, start: int)
    requires
        0 <= start <= s.len(),
    ensures
        start <= rank_from(s, x, start) <= s.len(),
    decreases s.len() - start,
{
    if start < s.len() && !outranks(x, s[start]) {
        lemma_rank_from_bounds(s, x, start + 1);
    }
}

/// A sum of weights is not negative.
pub proof fn lemma_power_sum_nonneg(s: Seq<Signatory>, n: int)
    ensures
        power_sum(s, n) >= 0,
    decreases n,
{
    if n > 0 {
        lemma_power_sum_nonneg(s, n - 1);
    }
}

/// Sums of weights over sequences that agree on their first `n` members.
pub proof fn lemma_power_sum_agree(s: Seq<Signatory>, t: Seq<Signatory>, n: int)
    requires
        0 <= n <= s.len(),
        n <= t.len(),
        forall|i: int| 0 <= i < n ==> s[i] == t[i],
    ensures
        power_sum(s, n) == power_sum(t, n),
    decreases n,
{
    if n > 0 {
        lemma_power_sum_agree(s, t, n - 1);
    }
}

/// A member put in at any position adds its weight to the sum.
pub proof fn lemma_power_sum_insert(s: Seq<Signatory>, p: int, x: Signatory, n: int)
    requires
        0 <= p <= s.len(),
        p <= n <= s.len(),
    ensures
        power_sum(s.insert(p, x), n + 1) == power_sum(s, n) + x.voting_power,
    decreases n,
{
    let t = s.insert(p, x);
    if n == p {
        lemma_power_sum_agree(s, t, p);
        assert(t[p] == x);
    } else {
        lemma_power_sum_insert(s, p, x, n - 1);
        assert(t[n] == s[n - 1]);
    }
}

/// The key that is registered for `consensus_key`, from `start` on.
pub open spec fn sig_key_from(
    sig_keys: Seq<([u8; 32], Xpub)>,
    consensus_key: [u8; 32],
    start: int,
) -> Option<Xpub>
    decreases sig_keys.len() - start,
{
    if start < 0 || start >= sig_keys.len() {
        None
    } else if sig_keys[start].0 == consensus_key {
        Some(sig_keys[start].1)
    } else {
        sig_key_from(sig_keys, consensus_key, start + 1)
    }
}

/// The candidates among the first `n` validators, with the summed weight
/// of these validators: a validator with a registered key is a candidate
/// with the key derived for the signatory set `index`, and its weight.
pub open spec fn candidates(
    validators: Seq<Validator>,
    sig_keys: Seq<([u8; 32], Xpub)>,
    index: u32,
    n: int,
) -> Result<(Seq<Signatory>, int), ContractError>
    decreases n,
{
    if n <= 0 {
        Ok((Seq::empty(), 0))
    } else {
        match candidates(validators, sig_keys, index, n - 1) {
            Err(e) => Err(e),
            Ok((found, possible)) => if possible + validators[n - 1].power > u64::MAX {
                Err(ContractError::Overflow)
            } else {
                match sig_key_from(sig_keys, validators[n - 1].pubkey, 0) {
                    None => Ok((found, possible + validators[n - 1].power)),
                    Some(xpub) => match signatory_key(xpub.key@, index) {
                        None => Err(ContractError::KeyDerivation),
                        Some(key) => Ok(
                            (
                                found.push(
                                    Signatory {
                                        voting_power: validators[n - 1].power,
                                        pubkey: Pubkey { bytes: key },
                                    },
                                ),
                                possible + validators[n - 1].power,
                            ),
                        ),
                    },
                }
            },
        }
    }
}

/// Once a key could not be derived, there are no candidates.
pub proof fn lemma_candidates_fails(
    validators: Seq<Validator>,
    sig_keys: Seq<([u8; 32], Xpub)>,
    index: u32,
    k: int,
    n: int,
)
    requires
        0 <= k <= n,
        candidates(validators, sig_keys, index, k).is_err(),
    ensures
        candidates(validators, sig_keys, index, n) == candidates(validators, sig_keys, index, k),
    decreases n,
{
    if k < n {
        lemma_candidates_fails(validators, sig_keys, index, k, n - 1);
    }
}

/// The candidates carry no more weight than the validators.
pub proof fn lemma_candidates_weight(
    validators: Seq<Validator>,
    sig_keys: Seq<([u8; 32], Xpub)>,
    index: u32,
    n: int,
)
    requires
        0 <= n,
    ensures
        match candidates(validators, sig_keys, index, n) {
            Ok((found, possible)) => 0 <= power_sum(found, found.len() as int) <= possible
                <= u64::MAX,
            Err(_) => true,
        },
    decreases n,
{
    if n > 0 {
        lemma_candidates_weight(validators, sig_keys, index, n - 1);
        match candidates(validators, sig_keys, index, n - 1) {
            Ok((found, possible)) => {
                match candidates(validators, sig_keys, index, n) {
                    Ok((more, _)) => {
                        if more.len() > found.len() {
                            lemma_power_sum_agree(found, more, found.len() as int);
                        }
                    },
                    Err(_) => {},
                }
            },
            Err(_) => {},
        }
    }
}

impl SignatorySetView {
    /// The signatory set `index`, made at `create_time` from the
    /// validators: its members are the candidates in the order of a
    /// signatory set, as many as a set holds.
    pub open spec fn from_validators(
        validators: Seq<Validator>,
        sig_keys: Seq<([u8; 32], Xpub)>,
        create_time: u64,
        index: u32,
    ) -> Result<SignatorySetView, ContractError> {
        match candidates(validators, sig_keys, index, validators.len() as int) {
            Err(e) => Err(e),
            Ok((found, possible)) => {
                let all = ranked(found, found.len() as int);
                let kept = if all.len() > MAX_SIGNATORIES {
                    all.take(MAX_SIGNATORIES as int)
                } else {
                    all
                };
                Ok(
                    SignatorySetView {
                        create_time,
                        present_vp: power_sum(kept, kept.len() as int) as u64,
                        possible_vp: possible as u64,
                        index,
                        signatories: kept,
                    },
                )
            },
        }
    }
}

/// Whether the bytes of `a` come after those of `b`.
fn key_above(a: &Pubkey, b: &Pubkey) -> (r: bool)
    ensures
        r == bytes_above(a.bytes@, b.bytes@, 0),
{
    let mut i: usize = 0;
    while i < 33
        invariant
            i <= 33,
            bytes_above(a.bytes@, b.bytes@, 0) == bytes_above(a.bytes@, b.bytes@, i as int),
        decreases 33 - i,
    {
        if a.bytes[i] != b.bytes[i] {
            return a.bytes[i] > b.bytes[i];
        }
        i += 1;
    }
    false
}

impl SignatorySet {
    /// The key that is registered for `consensus_key`.
    fn sig_key(sig_keys: &Vec<([u8; 32], Xpub)>, consensus_key: &[u8; 32]) -> (r: Option<Xpub>)
        ensures
            r == sig_key_from(sig_keys@, *consensus_key, 0),
    {
        let mut i: usize = 0;
        while i < sig_keys.len()
            invariant
                i <= sig_keys.len(),
                sig_key_from(sig_keys@, *consensus_key, 0) == sig_key_from(
                    sig_keys@,
                    *consensus_key,
                    i as int,
                ),
            decreases sig_keys.len() - i,
        {
            let mut same = true;
            let mut j: usize = 0;
            while j < 32
                invariant
                    j <= 32,
                    i < sig_keys.len(),
                    same == (forall|k: int|
                        0 <= k < j ==> sig_keys@[i as int].0@[k] == consensus_key@[k]),
                decreases 32 - j,
            {
                if sig_keys[i].0[j] != consensus_key[j] {
                    same = false;
                }
                j += 1;
            }
            if same {
                assert(sig_keys@[i as int].0 =~= *consensus_key);
                return Some(sig_keys[i].1);
            }
            i += 1;
        }
        None
    }

    /// Puts a member in its place among the members.
    fn insert(&mut self, signatory: Signatory)
        requires
            old(self).present_vp == power_sum(old(self)@.signatories, old(self)@.signatories.len() as int),
            old(self).present_vp + signatory.voting_power <= u64::MAX,
        ensures
            final(self)@ == (SignatorySetView {
                present_vp: (old(self).present_vp + signatory.voting_power) as u64,
                signatories: ranked_insert(old(self)@.signatories, signatory),
                ..old(self)@
            }),
            final(self).present_vp == power_sum(
                final(self)@.signatories,
                final(self)@.signatories.len() as int,
            ),
    {
        let mut i: usize = 0;
        while i < self.signatories.len() && !(signatory.voting_power > self.signatories[i].voting_power
            || (signatory.voting_power == self.signatories[i].voting_power && key_above(
            &signatory.pubkey,
            &self.signatories[i].pubkey,
        )))
            invariant
                i <= self.signatories.len(),
                *self == *old(self),
                rank_from(self.signatories@, signatory, 0) == rank_from(
                    self.signatories@,
                    signatory,
                    i as int,
                ),
            decreases self.signatories.len() - i,
        {
            i += 1;
        }
        proof {
            lemma_power_sum_insert(
                self.signatories@,
                i as int,
                signatory,
                self.signatories@.len() as int,
            );
        }
        self.present_vp = self.present_vp + signatory.voting_power;
        self.signatories.insert(i, signatory);
    }

    /// The signatory set `index`, made at `create_time` from the
    /// validators and the keys that they have registered.
    pub fn from_validator_ctx(
        validators: &Vec<Validator>,
        sig_keys: &Vec<([u8; 32], Xpub)>,
        create_time: u64,
        index: u32,
    ) -> (r: ContractResult<Self>)
        ensures
            crate::error::yields(
                r,
                SignatorySetView::from_validators(validators@, sig_keys@, create_time, index),
            ),
    {
        let mut sigset = SignatorySet::new(index, create_time);
        let ghost mut found: Seq<Signatory> = Seq::empty();
        let mut i: usize = 0;
        while i < validators.len()
            invariant
                i <= validators.len(),
                candidates(validators@, sig_keys@, index, i as int) == Ok::<_, ContractError>(
                    (found, sigset.possible_vp as int),
                ),
                sigset.create_time == create_time,
                sigset.index == index,
                sigset.signatories@ == ranked(found, found.len() as int),
                sigset.signatories@.len() == found.len(),
                sigset.present_vp == power_sum(
                    sigset.signatories@,
                    sigset.signatories@.len() as int,
                ),
                sigset.present_vp == power_sum(found, found.len() as int),
            decreases validators.len() - i,
        {
            let entry = validators[i];
            sigset.possible_vp = match sigset.possible_vp.checked_add(entry.power) {
                Some(p) => p,
                None => {
                    proof {
                        assert(candidates(validators@, sig_keys@, index, i + 1).is_err());
                        lemma_candidates_fails(
                            validators@,
                            sig_keys@,
                            index,
                            i + 1,
                            validators@.len() as int,
                        );
                    }
                    return Err(ContractError::Overflow);
                },
            };
            match SignatorySet::sig_key(sig_keys, &entry.pubkey) {
                None => {},
                Some(xpub) => {
                    let key = match derive_pubkey(&xpub, index) {
                        Some(k) => k,
                        None => {
                            proof {
                                assert(candidates(validators@, sig_keys@, index, i + 1).is_err());
                                lemma_candidates_fails(
                                    validators@,
                                    sig_keys@,
                                    index,
                                    i + 1,
                                    validators@.len() as int,
                                );
                            }
                            return Err(ContractError::KeyDerivation);
                        },
                    };
                    let signatory = Signatory {
                        voting_power: entry.power,
                        pubkey: Pubkey { bytes: key },
                    };
                    proof {
                        lemma_candidates_weight(validators@, sig_keys@, index, i + 1);
                        let more = found.push(signatory);
                        lemma_power_sum_agree(found, more, found.len() as int);
                        assert(ranked(more, more.len() as int) == ranked_insert(
                            ranked(more, found.len() as int),
                            signatory,
                        ));
                        lemma_ranked_agree(found, more, found.len() as int);
                        lemma_ranked_agree(more, more, more.len() as int);
                    }
                    sigset.insert(signatory);
                    proof {
                        found = found.push(signatory);
                    }
                },
            }
            i += 1;
        }
        while sigset.signatories.len() > MAX_SIGNATORIES
            invariant
                sigset.create_time == create_time,
                sigset.index == index,
                candidates(validators@, sig_keys@, index, validators@.len() as int) == Ok::<
                    _,
                    ContractError,
                >((found, sigset.possible_vp as int)),
                sigset.signatories.len() <= found.len(),
                sigset.signatories.len() >= MAX_SIGNATORIES || sigset.signatories.len()
                    == found.len(),
                ranked(found, found.len() as int).len() == found.len(),
                sigset.signatories@ == ranked(found, found.len() as int).take(
                    sigset.signatories.len() as int,
                ),
                sigset.present_vp == power_sum(
                    sigset.signatories@,
                    sigset.signatories@.len() as int,
                ),
            decreases sigset.signatories.len(),
        {
            let ghost before = sigset.signatories@;
            let removed = sigset.signatories.pop().unwrap();
            proof {
                lemma_power_sum_agree(before, sigset.signatories@, sigset.signatories@.len() as int);
                lemma_power_sum_nonneg(before, before.len() - 1);
            }
            sigset.present_vp = sigset.present_vp - removed.voting_power;
            assert(sigset.signatories@ =~= ranked(found, found.len() as int).take(
                sigset.signatories.len() as int,
            ));
        }
        assert(ranked(found, found.len() as int).take(found.len() as int) =~= ranked(
            found,
            found.len() as int,
        ));
        Ok(sigset)
    }
}

/// The order of the first `n` candidates depends on these alone.
pub proof fn lemma_ranked_agree(s: Seq<Signatory>, t: Seq<Signatory>, n: int)
    requires
        0 <= n <= s.len(),
        n <= t.len(),
        forall|i: int| 0 <= i < n ==> s[i] == t[i],
    ensures
        ranked(s, n) == ranked(t, n),
        ranked(s, n).len() == n,
    decreases n,
{
    if n > 0 {
        lemma_ranked_agree(s, t, n - 1);
        lemma_rank_from_bounds(ranked(s, n - 1), s[n - 1], 0);
    }
}

} // verus!
