use vstd::prelude::*;
use crate::backend::{der_encode, der_signature, ecdsa_valid, verify_ecdsa};
use crate::bytes::byte_rows;
use crate::error::{ContractError, ContractResult};
use crate::keys::{Pubkey, Signature};
use crate::math::{all_nonneg, lemma_sum_upto_monotone, sum, sum_upto};
use crate::signatory::{Signatory, SignatorySet};

verus! {

/// The byte that marks a signature as covering all inputs and outputs.
pub const SIGHASH_ALL: u8 = 1;

/// The slot of one signatory: its weight and, once given, its signature.
#[derive(Clone, Copy, Debug, PartialEq, Eq)]
pub struct Share {
    pub power: u64,
    pub sig: Option<Signature>,
}

/// The signatures gathered for one message, and the weight they carry.
#[derive(Debug, PartialEq)]
pub struct ThresholdSig {
    /// The weight that the filled slots must reach.
    pub threshold: u64,
    /// The summed weight of the filled slots.
    pub signed: u64,
    /// The digest that the signatures sign.
    pub message: [u8; 32],
    /// One slot for each signatory, in the order of the signatory set.
    pub sigs: Vec<(Pubkey, Share)>,
}

/// The value of a `ThresholdSig`.
pub struct ThresholdSigView {
    pub threshold: u64,
    pub signed: u64,
    pub message: Seq<u8>,
    pub sigs: Seq<(Pubkey, Share)>,
}

impl View for ThresholdSig {
    type V = ThresholdSigView;

    open spec fn view(&self) -> ThresholdSigView {
        ThresholdSigView {
            threshold: self.threshold,
            signed: self.signed,
            message: self.message@,
            sigs: self.sigs@,
        }
    }
}

/// The position of the first slot from `start` on that `pubkey` holds.
pub open spec fn slot_from(sigs: Seq<(Pubkey, Share)>, pubkey: Pubkey, start: int) -> Option<int>
    decreases sigs.len() - start,
{
    if start < 0 || start >= sigs.len() {
        None
    } else if sigs[start].0 == pubkey {
        Some(start)
    } else {
        slot_from(sigs, pubkey, start + 1)
    }
}

/// The weights of the slots.
pub open spec fn powers(sigs: Seq<(Pubkey, Share)>) -> Seq<int> {
    sigs.map_values(|s: (Pubkey, Share)| s.1.power as int)
}

/// The weights of the slots that are filled, and zero for the others.
pub open spec fn filled_powers(sigs: Seq<(Pubkey, Share)>) -> Seq<int> {
    sigs.map_values(
        |s: (Pubkey, Share)| if s.1.sig.is_some() {
            s.1.power as int
        } else {
            0
        },
    )
}

/// The slots with their signatures taken out.
pub open spec fn cleared(sigs: Seq<(Pubkey, Share)>) -> Seq<(Pubkey, Share)> {
    sigs.map_values(|s: (Pubkey, Share)| (s.0, Share { power: s.1.power, sig: None }))
}

/// One empty slot for each signatory.
pub open spec fn slots_of(signatories: Seq<Signatory>) -> Seq<(Pubkey, Share)> {
    signatories.map_values(
        |s: Signatory| (s.pubkey, Share { power: s.voting_power, sig: None }),
    )
}

/// The least weight that is at least `num / den` of `total`.
pub open spec fn threshold_of(total: int, num: int, den: int) -> int {
    (total * num + den - 1) / den
}

/// Whether `sig` is a signature of `message` under `pubkey` that can go
/// into a witness: it verifies, and it has a DER encoding.
pub open spec fn valid_signature(pubkey: Pubkey, message: Seq<u8>, sig: Signature) -> bool {
    ecdsa_valid(pubkey.bytes@, message, sig.0@) && der_signature(sig.0@).is_some()
}

/// The witness item of one slot: nothing for an empty slot, else the DER
/// signature followed by the signature-hash byte.
pub open spec fn share_item(share: Share) -> Option<Seq<u8>> {
    match share.sig {
        None => Some(Seq::empty()),
        Some(sig) => match der_signature(sig.0@) {
            Some(der) => Some(der.push(SIGHASH_ALL)),
            None => None,
        },
    }
}

impl ThresholdSigView {
    /// The position of the slot that `pubkey` holds.
    pub open spec fn slot(self, pubkey: Pubkey) -> Option<int> {
        slot_from(self.sigs, pubkey, 0)
    }

    /// Whether `pubkey` holds a slot that is still empty.
    pub open spec fn needs_sig(self, pubkey: Pubkey) -> bool {
        match self.slot(pubkey) {
            Some(i) => self.sigs[i].1.sig.is_none(),
            None => false,
        }
    }

    /// Whether the filled slots reach the threshold.
    pub open spec fn signed(self) -> bool {
        self.signed >= self.threshold
    }

    /// Whether the recorded weight is the summed weight of the filled slots.
    pub open spec fn well_formed(self) -> bool {
        self.signed == sum(filled_powers(self.sigs))
    }

    /// The state after `pubkey` has submitted `sig`, or the reason why the
    /// submission is rejected.
    pub open spec fn sign(self, pubkey: Pubkey, sig: Signature) -> Result<
        ThresholdSigView,
        ContractError,
    > {
        match self.slot(pubkey) {
            None => Err(ContractError::NotASignatory),
            Some(i) => {
                let share = self.sigs[i].1;
                if share.sig.is_some() {
                    Err(ContractError::AlreadySigned)
                } else if !valid_signature(pubkey, self.message, sig) {
                    Err(ContractError::InvalidSignature)
                } else if self.signed + share.power > u64::MAX {
                    Err(ContractError::Overflow)
                } else {
                    Ok(
                        ThresholdSigView {
                            signed: (self.signed + share.power) as u64,
                            sigs: self.sigs.update(
                                i,
                                (pubkey, Share { power: share.power, sig: Some(sig) }),
                            ),
                            ..self
                        },
                    )
                }
            },
        }
    }

    /// Whether every filled slot holds a signature that can be encoded.
    pub open spec fn encodable(self) -> bool {
        forall|i: int| 0 <= i < self.sigs.len() ==> (#[trigger] share_item(self.sigs[i].1)).is_some()
    }

    /// The witness items: none before the threshold is reached, then one for
    /// each slot, last slot first.
    pub open spec fn witness(self) -> Option<Seq<Seq<u8>>> {
        if !self.signed() {
            Some(Seq::empty())
        } else if self.encodable() {
            Some(
                Seq::new(
                    self.sigs.len(),
                    |i: int| share_item(self.sigs[self.sigs.len() - 1 - i].1).unwrap(),
                ),
            )
        } else {
            None
        }
    }

    /// A threshold signature over the given slots, all empty, for the ratio
    /// `num / den`, with no message yet.
    pub open spec fn fresh(sigs: Seq<(Pubkey, Share)>, num: u64, den: u64) -> Result<
        ThresholdSigView,
        ContractError,
    > {
        let total = sum(powers(sigs));
        if den == 0 {
            Err(ContractError::InvalidThreshold)
        } else if total > u64::MAX || threshold_of(total, num as int, den as int) > u64::MAX {
            Err(ContractError::Overflow)
        } else {
            Ok(
                ThresholdSigView {
                    threshold: threshold_of(total, num as int, den as int) as u64,
                    signed: 0,
                    message: Seq::new(32, |i: int| 0u8),
                    sigs: cleared(sigs),
                },
            )
        }
    }
}

impl Clone for ThresholdSig {
    fn clone(&self) -> (r: Self)
        ensures
            r@ == self@,
    {
        ThresholdSig {
            threshold: self.threshold,
            signed: self.signed,
            message: self.message,
            sigs: copy_slots(&self.sigs),
        }
    }
}

/// A copy of a list of slots.
fn copy_slots(sigs: &Vec<(Pubkey, Share)>) -> (r: Vec<(Pubkey, Share)>)
    ensures
        r@ == sigs@,
{
    let mut out: Vec<(Pubkey, Share)> = Vec::new();
    let mut i: usize = 0;
    while i < sigs.len()
        invariant
            i <= sigs.len(),
            out@ == sigs@.take(i as int),
        decreases sigs.len() - i,
    {
        let (pubkey, share) = sigs[i];
        out.push((pubkey, share));
        assert(sigs@.take(i + 1) =~= sigs@.take(i as int).push(sigs@[i as int]));
        i += 1;
    }
    assert(sigs@.take(sigs@.len() as int) =~= sigs@);
    out
}

/// The threshold weight for the ratio `num / den` of `total`, unless it
/// exceeds the range of `u64`.
pub(crate) fn threshold_weight(total: u64, num: u64, den: u64) -> (r: Option<u64>)
    requires
        den > 0,
    ensures
        match r {
            Some(t) => t == threshold_of(total as int, num as int, den as int),
            None => threshold_of(total as int, num as int, den as int) > u64::MAX,
        },
{
    assert(total * num <= 0xffff_ffff_ffff_ffff * 0xffff_ffff_ffff_ffff) by (nonlinear_arith)
        requires
            0 <= total <= 0xffff_ffff_ffff_ffff,
            0 <= num <= 0xffff_ffff_ffff_ffff,
    ;
    let prod: u128 = (total as u128) * (num as u128);
    let t: u128 = (prod + (den as u128 - 1)) / (den as u128);
    if t > u64::MAX as u128 {
        None
    } else {
        Some(t as u64)
    }
}

/// A threshold signature over the given slots, all emptied, for the ratio
/// `num / den`.
fn fresh_from(sigs: Vec<(Pubkey, Share)>, num: u64, den: u64) -> (r: ContractResult<ThresholdSig>)
    ensures
        match r {
            Ok(ts) => ThresholdSigView::fresh(sigs@, num, den) == Ok::<_, ContractError>(ts@),
            Err(e) => ThresholdSigView::fresh(sigs@, num, den) == Err::<ThresholdSigView, _>(e),
        },
{
    if den == 0 {
        return Err(ContractError::InvalidThreshold);
    }
    let mut total: u64 = 0;
    let mut out: Vec<(Pubkey, Share)> = Vec::new();
    let mut i: usize = 0;
    proof {
        assert(all_nonneg(powers(sigs@)));
    }
    while i < sigs.len()
        invariant
            i <= sigs.len(),
            den != 0,
            all_nonneg(powers(sigs@)),
            total == sum_upto(powers(sigs@), i as int),
            out@ == cleared(sigs@).take(i as int),
        decreases sigs.len() - i,
    {
        let (pubkey, share) = sigs[i];
        match total.checked_add(share.power) {
            Some(t) => {
                total = t;
            },
            None => {
                proof {
                    assert(sum_upto(powers(sigs@), i + 1) == total + share.power);
                    lemma_sum_upto_monotone(powers(sigs@), i + 1, sigs@.len() as int);
                }
                return Err(ContractError::Overflow);
            },
        }
        out.push((pubkey, Share { power: share.power, sig: None }));
        assert(cleared(sigs@).take(i + 1) =~= cleared(sigs@).take(i as int).push(
            cleared(sigs@)[i as int],
        ));
        i += 1;
    }
    assert(cleared(sigs@).take(sigs@.len() as int) =~= cleared(sigs@));
    match threshold_weight(total, num, den) {
        Some(threshold) => {
            let message: [u8; 32] = [0u8; 32];
            assert(message@ =~= Seq::new(32, |i: int| 0u8));
            Ok(ThresholdSig { threshold, signed: 0, message, sigs: out })
        },
        None => Err(ContractError::Overflow),
    }
}

impl ThresholdSig {
    /// A threshold signature with one empty slot for each member of
    /// `sigset`, to be met at `threshold.0 / threshold.1` of their weight.
    pub fn from_sigset(sigset: &SignatorySet, threshold: (u64, u64)) -> (r: ContractResult<Self>)
        ensures
            match r {
                Ok(ts) => ThresholdSigView::fresh(
                    slots_of(sigset@.signatories),
                    threshold.0,
                    threshold.1,
                ) == Ok::<_, ContractError>(ts@),
                Err(e) => ThresholdSigView::fresh(
                    slots_of(sigset@.signatories),
                    threshold.0,
                    threshold.1,
                ) == Err::<ThresholdSigView, _>(e),
            },
    {
        let mut slots: Vec<(Pubkey, Share)> = Vec::new();
        let mut i: usize = 0;
        while i < sigset.signatories.len()
            invariant
                i <= sigset.signatories.len(),
                slots@ == slots_of(sigset@.signatories).take(i as int),
            decreases sigset.signatories.len() - i,
        {
            let s = sigset.signatories[i];
            slots.push((s.pubkey, Share { power: s.voting_power, sig: None }));
            assert(slots_of(sigset@.signatories).take(i + 1) =~= slots_of(sigset@.signatories).take(
                i as int,
            ).push(slots_of(sigset@.signatories)[i as int]));
            i += 1;
        }
        assert(slots@ =~= slots_of(sigset@.signatories));
        fresh_from(slots, threshold.0, threshold.1)
    }

    /// A threshold signature over the same slots as `shares`, all empty.
    pub fn from_shares(shares: Vec<(Pubkey, Share)>, threshold: (u64, u64)) -> (r: ContractResult<
        Self,
    >)
        ensures
            match r {
                Ok(ts) => ThresholdSigView::fresh(shares@, threshold.0, threshold.1) == Ok::<
                    _,
                    ContractError,
                >(ts@),
                Err(e) => ThresholdSigView::fresh(shares@, threshold.0, threshold.1) == Err::<
                    ThresholdSigView,
                    _,
                >(e),
            },
    {
        fresh_from(shares, threshold.0, threshold.1)
    }

    /// Sets the digest that the signatures are to sign.
    pub fn set_message(&mut self, message: [u8; 32])
        ensures
            final(self)@ == (ThresholdSigView { message: message@, ..old(self)@ }),
    {
        self.message = message;
    }

    /// The digest that the signatures sign.
    pub fn message(&self) -> (r: [u8; 32])
        ensures
            r@ == self@.message,
    {
        self.message
    }

    /// The slots, with the signatures given so far.
    pub fn shares(&self) -> (r: Vec<(Pubkey, Share)>)
        ensures
            r@ == self@.sigs,
    {
        copy_slots(&self.sigs)
    }

    /// Whether the filled slots reach the threshold.
    pub fn signed(&self) -> (r: bool)
        ensures
            r == self@.signed(),
    {
        self.signed >= self.threshold
    }

    /// The position of the slot that `pubkey` holds.
    fn find_slot(&self, pubkey: &Pubkey) -> (r: Option<usize>)
        ensures
            match r {
                Some(i) => self@.slot(*pubkey) == Some(i as int) && i < self.sigs.len(),
                None => self@.slot(*pubkey).is_none(),
            },
    {
        let mut i: usize = 0;
        while i < self.sigs.len()
            invariant
                i <= self.sigs.len(),
                slot_from(self.sigs@, *pubkey, 0) == slot_from(self.sigs@, *pubkey, i as int),
            decreases self.sigs.len() - i,
        {
            if self.sigs[i].0.same(pubkey) {
                return Some(i);
            }
            i += 1;
        }
        None
    }

    /// Whether `pubkey` holds a slot.
    pub fn contains_key(&self, pubkey: &Pubkey) -> (r: bool)
        ensures
            r == self@.slot(*pubkey).is_some(),
    {
        self.find_slot(pubkey).is_some()
    }

    /// Whether `pubkey` holds a slot that is still empty.
    pub fn needs_sig(&self, pubkey: &Pubkey) -> (r: bool)
        ensures
            r == self@.needs_sig(*pubkey),
    {
        match self.find_slot(pubkey) {
            Some(i) => self.sigs[i].1.sig.is_none(),
            None => false,
        }
    }

    /// Whether `sig` signs the message under `pubkey`.
    pub fn verify(&self, pubkey: &Pubkey, sig: &Signature) -> (r: bool)
        ensures
            r == valid_signature(*pubkey, self@.message, *sig),
    {
        verify_ecdsa(&pubkey.bytes, &self.message, &sig.0)
    }

    /// Records the signature of `pubkey`. The key must hold an empty slot and
    /// the signature must verify; otherwise nothing changes.
    pub fn sign(&mut self, pubkey: &Pubkey, sig: &Signature) -> (r: ContractResult<()>)
        ensures
            match r {
                Ok(()) => old(self)@.sign(*pubkey, *sig) == Ok::<_, ContractError>(final(self)@),
                Err(e) => old(self)@.sign(*pubkey, *sig) == Err::<ThresholdSigView, _>(e)
                    && final(self)@ == old(self)@,
            },
    {
        let i = match self.find_slot(pubkey) {
            Some(i) => i,
            None => {
                return Err(ContractError::NotASignatory);
            },
        };
        let share = self.sigs[i].1;
        if share.sig.is_some() {
            return Err(ContractError::AlreadySigned);
        }
        if !self.verify(pubkey, sig) {
            return Err(ContractError::InvalidSignature);
        }
        let signed = match self.signed.checked_add(share.power) {
            Some(s) => s,
            None => {
                return Err(ContractError::Overflow);
            },
        };
        self.signed = signed;
        self.sigs[i] = (*pubkey, Share { power: share.power, sig: Some(*sig) });
        Ok(())
    }

    /// The witness items that the signatures contribute: none before the
    /// threshold is reached, then one for each slot, last slot first.
    pub fn to_witness(&self) -> (r: ContractResult<Vec<Vec<u8>>>)
        ensures
            match r {
                Ok(w) => self@.witness() == Some(byte_rows(w@)),
                Err(e) => e == ContractError::SignatureEncoding && self@.witness().is_none(),
            },
    {
        let mut out: Vec<Vec<u8>> = Vec::new();
        if !self.signed() {
            assert(byte_rows(out@) =~= Seq::<Seq<u8>>::empty());
            return Ok(out);
        }
        let n = self.sigs.len();
        let mut k: usize = 0;
        while k < n
            invariant
                n == self.sigs.len(),
                k <= n,
                out.len() == k,
                self@.signed(),
                forall|j: int| n - k <= j < n ==> (#[trigger] share_item(self.sigs@[j].1)).is_some(),
                forall|j: int|
                    0 <= j < k ==> (#[trigger] out@[j])@ == share_item(
                        self.sigs@[n - 1 - j].1,
                    ).unwrap(),
            decreases n - k,
        {
            let share = self.sigs[n - 1 - k].1;
            let item: Vec<u8> = match share.sig {
                None => Vec::new(),
                Some(sig) => match der_encode(&sig.0) {
                    Some(mut der) => {
                        der.push(SIGHASH_ALL);
                        der
                    },
                    None => {
                        assert(share_item(self@.sigs[n - 1 - k].1).is_none());
                        assert(!self@.encodable());
                        return Err(ContractError::SignatureEncoding);
                    },
                },
            };
            assert(item@ == share_item(share).unwrap());
            out.push(item);
            k += 1;
        }
        assert(self@.encodable());
        assert(byte_rows(out@) =~= self@.witness().unwrap());
        Ok(out)
    }
}

} // verus!
