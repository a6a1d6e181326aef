use vstd::prelude::*;
use crate::backend::{derive_pubkey_bytes, derived_pubkey};

verus! {

/// A compressed secp256k1 public key.
#[derive(Clone, Copy, Debug, PartialEq, Eq)]
pub struct Pubkey {
    pub bytes: [u8; 33],
}

/// A compact (64-byte) ECDSA signature.
#[derive(Clone, Copy, Debug, PartialEq, Eq)]
pub struct Signature(pub [u8; 64]);

/// An extended public key in its 78-byte encoding, from which the public
/// key that a signatory uses for a given signatory set is derived.
#[derive(Clone, Copy, Debug, PartialEq, Eq)]
pub struct Xpub {
    pub key: [u8; 78],
}

/// The depth of an extended key below which no further key is derived.
pub const MAX_DEPTH: u8 = 255;

/// The public key that the holder of an extended public key uses in the
/// signatory set `sigset_index`: the child key with that number, if the
/// extended key is well-formed and not of the greatest depth.
pub open spec fn signatory_key(xpub: Seq<u8>, sigset_index: u32) -> Option<[u8; 33]> {
    if xpub.len() > 4 && xpub[4] == MAX_DEPTH {
        None
    } else {
        derived_pubkey(xpub, sigset_index)
    }
}

/// The public key that the holder of `xpub` uses in the signatory set
/// `sigset_index`.
pub fn derive_pubkey(xpub: &Xpub, sigset_index: u32) -> (r: Option<[u8; 33]>)
    ensures
        r == signatory_key(xpub.key@, sigset_index),
{
    if xpub.key[4] == MAX_DEPTH {
        None
    } else {
        derive_pubkey_bytes(&xpub.key, sigset_index)
    }
}

impl Pubkey {
    /// The key with these bytes.
    pub fn new(bytes: [u8; 33]) -> (r: Self)
        ensures
            r.bytes == bytes,
    {
        Pubkey { bytes }
    }

    /// Whether two keys hold the same bytes.
    pub fn same(&self, other: &Pubkey) -> (r: bool)
        ensures
            r == (*self == *other),
    {
        let mut i: usize = 0;
        while i < 33
            invariant
                i <= 33,
                forall|j: int| 0 <= j < i ==> self.bytes@[j] == other.bytes@[j],
            decreases 33 - i,
        {
            if self.bytes[i] != other.bytes[i] {
                return false;
            }
            i += 1;
        }
        assert(self.bytes =~= other.bytes);
        true
    }

    /// The bytes as a vector.
    pub fn to_vec(&self) -> (r: Vec<u8>)
        ensures
            r@ == self.bytes@,
    {
        let mut out: Vec<u8> = Vec::new();
        let mut i: usize = 0;
        while i < 33
            invariant
                i <= 33,
                out@ == self.bytes@.take(i as int),
            decreases 33 - i,
        {
            out.push(self.bytes[i]);
            assert(self.bytes@.take(i + 1) =~= self.bytes@.take(i as int).push(self.bytes@[i as int]));
            i += 1;
        }
        assert(self.bytes@.take(33) =~= self.bytes@);
        out
    }
}

impl Xpub {
    /// Wraps an encoded extended public key.
    pub fn new(key: [u8; 78]) -> (r: Self)
        ensures
            r.key == key,
    {
        Xpub { key }
    }

    /// The encoded extended public key.
    pub fn inner(&self) -> (r: &[u8; 78])
        ensures
            *r == self.key,
    {
        &self.key
    }
}

} // verus!
