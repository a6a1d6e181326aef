//! The calls into the `bitcoin`, `secp256k1` and `sha2` crates. Each function
//! here is believed, not proved: its contract names what the call returns.

use vstd::prelude::*;
use sha2::Digest;
use bitcoin::blockdata::script::{read_scriptint, Builder, Instruction as BtcInstruction};
use bitcoin::secp256k1::{ecdsa, Message, PublicKey, Secp256k1};
use bitcoin::util::bip32::{ChildNumber, ExtendedPubKey};
use bitcoin::util::sighash::SighashCache;
use bitcoin::hashes::Hash as HashValue;
use bitcoin::{EcdsaSighashType, PackedLockTime, Script, Sequence, Witness};
use bitcoin::{OutPoint as BtcOutPoint, Transaction as BtcTransaction, TxIn as BtcTxIn, TxOut as BtcTxOut};
use crate::script::{instructions_view, Instruction, InstructionView};
use crate::tx::{Transaction, TransactionView};

verus! {

/// The SHA-256 digest of a byte string.
pub uninterp spec fn sha256_digest(data: Seq<u8>) -> Seq<u8>;

/// Whether the script is a witness program: a version, which is zero or one
/// of `OP_1` to `OP_16`, and the push of the 2 to 40 bytes that follow it.
pub open spec fn is_witness_program(script: Seq<u8>) -> bool {
    4 <= script.len() <= 42 && (script[0] == 0x00 || 0x51 <= script[0] <= 0x60) && 2 <= script[1]
        <= 40 && script.len() - 2 == script[1]
}

/// The number of bytes in which the length of `n` bytes is written in front
/// of them.
pub open spec fn length_prefix(n: nat) -> int {
    if n <= 0xfc {
        1
    } else if n <= 0xffff {
        3
    } else if n <= 0xffff_ffff {
        5
    } else {
        9
    }
}

/// The amount below which an output locked by this script counts as dust:
/// nothing for a script that starts with `OP_RETURN`, else three satoshis
/// for every byte of the output and of the input that is to spend it, which
/// is taken to have 67 bytes for a witness program and 148 bytes otherwise.
pub open spec fn script_dust_value(script: Seq<u8>) -> u64 {
    if script.len() > 0 && script[0] == 0x6a {
        0
    } else {
        let spend: int = if is_witness_program(script) {
            67
        } else {
            148
        };
        (3 * (spend + 8 + length_prefix(script.len()) + script.len())) as u64
    }
}

/// The script that commits to `data` behind `OP_RETURN`: the opcode, and
/// the push of the data.
pub open spec fn op_return_script(data: Seq<u8>) -> Seq<u8> {
    seq![0x6au8] + slice_push(data)
}

/// The version-0 pay-to-witness-script-hash script of a redeem script:
/// the version zero, and the push of the 32 bytes of the SHA-256 digest of
/// the script.
pub open spec fn p2wsh_script(script: Seq<u8>) -> Seq<u8> {
    seq![0x00u8, 0x20u8] + sha256_digest(script)
}

/// The script bytes that push the integer `value`.
pub uninterp spec fn int_push(value: i64) -> Seq<u8>;

/// The script bytes that push the byte string `data`: the length, in one
/// byte below 76, else behind the opcode that tells in how many bytes, lowest
/// first, it is given; and the data.
pub open spec fn slice_push(data: Seq<u8>) -> Seq<u8> {
    let n = data.len();
    if n < 0x4c {
        seq![n as u8] + data
    } else if n < 0x100 {
        seq![0x4cu8, n as u8] + data
    } else if n < 0x1_0000 {
        seq![0x4du8, (n % 0x100) as u8, (n / 0x100) as u8] + data
    } else {
        seq![
            0x4eu8,
            (n % 0x100) as u8,
            (n / 0x100 % 0x100) as u8,
            (n / 0x1_0000 % 0x100) as u8,
            (n / 0x100_0000) as u8,
        ] + data
    }
}

/// The instructions that the bytes of a script spell, if they spell any.
pub uninterp spec fn script_instructions(script: Seq<u8>) -> Option<Seq<InstructionView>>;

/// The number that a pushed byte string of no more than four bytes stands
/// for in a script.
pub uninterp spec fn script_int(bytes: Seq<u8>) -> Option<i64>;

/// The compressed public key derived from an encoded extended public key
/// at a normal child index, if there is one.
pub uninterp spec fn derived_pubkey(xpub: Seq<u8>, index: u32) -> Option<[u8; 33]>;

/// Whether `sig` is a valid ECDSA signature of `message` under `pubkey`.
pub uninterp spec fn ecdsa_valid(pubkey: Seq<u8>, message: Seq<u8>, sig: Seq<u8>) -> bool;

/// The DER encoding of a compact signature, if the signature parses.
pub uninterp spec fn der_signature(sig: Seq<u8>) -> Option<Seq<u8>>;

/// The size of a transaction in virtual bytes.
pub uninterp spec fn tx_vsize(tx: TransactionView) -> u64;

/// The identifier of a transaction without witnesses.
pub uninterp spec fn tx_id(tx: TransactionView) -> [u8; 32];

/// The digest that a signature of input `index` of a transaction without
/// witnesses signs, for a segregated witness input that spends `value`
/// satoshis through `script_code` and covers all inputs and outputs.
pub uninterp spec fn segwit_sighash(
    tx: TransactionView,
    index: int,
    script_code: Seq<u8>,
    value: u64,
) -> Option<[u8; 32]>;

/// `sha2::Sha256::digest`: the result is the digest of `data`, 32 bytes long.
#[verifier::external_body]
pub(crate) fn sha256(data: &Vec<u8>) -> (r: Vec<u8>)
    ensures
        r@ == sha256_digest(data@),
        r@.len() == 32,
{
    sha2::Sha256::digest(data.as_slice()).to_vec()
}

/// `bitcoin::Script::dust_value`, in satoshis, of the script with these
/// bytes: three times the sum of the spend cost, the eight bytes of the
/// amount and the script with its length prefix, in 64 bits; zero behind
/// `OP_RETURN`.
#[verifier::external_body]
pub(crate) fn dust_value(script: &Vec<u8>) -> (r: u64)
    ensures
        r == script_dust_value(script@),
{
    Script::from(script.clone()).dust_value().to_sat()
}

/// `bitcoin::Script::new_op_return`, as bytes: `OP_RETURN` and the push of
/// the data, as `Builder::push_opcode` and `Builder::push_slice` add them.
/// The call panics on data of four gigabytes or more, which the precondition
/// leaves out.
#[verifier::external_body]
pub(crate) fn new_op_return(data: &Vec<u8>) -> (r: Vec<u8>)
    requires
        data@.len() < 0x1_0000_0000,
    ensures
        r@ == op_return_script(data@),
{
    Script::new_op_return(data.as_slice()).into_bytes()
}

/// `bitcoin::Script::to_v0_p2wsh`, as bytes: the witness version zero and
/// the push of the script's `WScriptHash`, which is its SHA-256 digest.
#[verifier::external_body]
pub(crate) fn to_v0_p2wsh(script: &Vec<u8>) -> (r: Vec<u8>)
    ensures
        r@ == p2wsh_script(script@),
{
    Script::from(script.clone()).to_v0_p2wsh().into_bytes()
}

/// `bitcoin::blockdata::script::Builder::push_int` on an empty builder: the
/// bytes that the push adds. The call takes the magnitude of the value as
/// a `usize`, which holds 32 bits on some machines; the precondition admits
/// the values whose magnitude fits in these.
#[verifier::external_body]
pub(crate) fn int_push_bytes(value: i64) -> (r: Vec<u8>)
    requires
        -0x1_0000_0000 < value < 0x1_0000_0000,
    ensures
        r@ == int_push(value),
{
    Builder::new().push_int(value).into_script().into_bytes()
}

/// `bitcoin::blockdata::script::Builder::push_slice` on an empty builder: the
/// bytes that the push adds, which are the length of the data in the
/// shortest of the four forms of a push, and the data. The call panics on
/// data of four gigabytes or more, which the precondition leaves out.
#[verifier::external_body]
pub(crate) fn slice_push_bytes(data: &Vec<u8>) -> (r: Vec<u8>)
    requires
        data@.len() < 0x1_0000_0000,
    ensures
        r@ == slice_push(data@),
{
    Builder::new().push_slice(data.as_slice()).into_script().into_bytes()
}

/// `bitcoin::Script::instructions`, run to its end: the instructions of the
/// script, each a push of bytes or another opcode, or `None` where the
/// bytes end within an instruction.
#[verifier::external_body]
pub(crate) fn parse_script(script: &Vec<u8>) -> (r: Option<Vec<Instruction>>)
    ensures
        match r {
            Some(ins) => script_instructions(script@) == Some(instructions_view(ins@)),
            None => script_instructions(script@).is_none(),
        },
{
    Script::from(script.clone()).instructions().map(|i| match i {
        Ok(BtcInstruction::PushBytes(bytes)) => Some(Instruction::Push(bytes.to_vec())),
        Ok(BtcInstruction::Op(op)) => Some(Instruction::Op(op.to_u8())),
        Err(_) => None,
    }).collect()
}

/// `bitcoin::blockdata::script::read_scriptint`: the number that the bytes
/// stand for, or `None` where they are more than four.
#[verifier::external_body]
pub(crate) fn read_int(bytes: &Vec<u8>) -> (r: Option<i64>)
    ensures
        r == script_int(bytes@),
{
    read_scriptint(bytes.as_slice()).ok()
}

/// `ExtendedPubKey::decode`, `ChildNumber::from_normal_idx` and
/// `ExtendedPubKey::derive_pub`, then `PublicKey::serialize`: the derived
/// key in compressed form, or `None` where one of the calls fails. The
/// derivation adds one to the depth of the key, which is the fifth byte of
/// its encoding and overflows at 255; the precondition leaves that out.
#[verifier::external_body]
pub(crate) fn derive_pubkey_bytes(xpub: &[u8; 78], index: u32) -> (r: Option<[u8; 33]>)
    requires
        xpub@[4] != 255,
    ensures
        r == derived_pubkey(xpub@, index),
{
    let key = ExtendedPubKey::decode(xpub).ok()?;
    let child = ChildNumber::from_normal_idx(index).ok()?;
    let secp = Secp256k1::verification_only();
    key.derive_pub(&secp, &[child]).ok().map(|k| k.public_key.serialize())
}

/// `Secp256k1::verify_ecdsa` on the parsed key, message and signature:
/// `true` where all three parse and the signature verifies. The signature
/// is parsed by `ecdsa::Signature::from_compact`, as it is for its DER
/// encoding, so a signature that verifies has one.
#[verifier::external_body]
pub(crate) fn verify_ecdsa(pubkey: &[u8; 33], message: &[u8; 32], sig: &[u8; 64]) -> (r: bool)
    ensures
        r == ecdsa_valid(pubkey@, message@, sig@),
        r ==> der_signature(sig@).is_some(),
{
    let secp = Secp256k1::verification_only();
    match (PublicKey::from_slice(pubkey), Message::from_slice(message), ecdsa::Signature::from_compact(sig)) {
        (Ok(pk), Ok(msg), Ok(s)) => secp.verify_ecdsa(&msg, &s, &pk).is_ok(),
        _ => false,
    }
}

/// `ecdsa::Signature::from_compact`, then `serialize_der`: the DER bytes, or
/// `None` where the signature does not parse.
#[verifier::external_body]
pub(crate) fn der_encode(sig: &[u8; 64]) -> (r: Option<Vec<u8>>)
    ensures
        match r {
            Some(der) => der_signature(sig@) == Some(der@),
            None => der_signature(sig@).is_none(),
        },
{
    ecdsa::Signature::from_compact(sig).ok().map(|s| s.serialize_der().to_vec())
}

/// `bitcoin::Transaction::vsize` of the transaction with these fields.
#[verifier::external_body]
pub(crate) fn transaction_vsize(tx: &Transaction) -> (r: u64)
    ensures
        r == tx_vsize(tx@),
{
    let input = tx.input.iter().map(|i| BtcTxIn {
        previous_output: BtcOutPoint { txid: HashValue::from_inner(i.previous_output.txid), vout: i.previous_output.vout },
        script_sig: i.script_sig.clone().into(),
        sequence: Sequence(i.sequence),
        witness: Witness::from_vec(i.witness.clone()),
    }).collect();
    let output = tx.output.iter().map(|o| BtcTxOut { value: o.value, script_pubkey: o.script_pubkey.clone().into() }).collect();
    let t = BtcTransaction { version: tx.version, lock_time: PackedLockTime(tx.lock_time), input, output };
    t.vsize() as u64
}

/// `bitcoin::Transaction::txid` of the transaction with these fields. The
/// call hashes version, inputs without their witnesses, outputs and lock
/// time, so the result is that of the transaction without witnesses.
#[verifier::external_body]
pub(crate) fn transaction_txid(tx: &Transaction) -> (r: [u8; 32])
    ensures
        r == tx_id(tx@.without_witnesses()),
{
    let input = tx.input.iter().map(|i| BtcTxIn {
        previous_output: BtcOutPoint { txid: HashValue::from_inner(i.previous_output.txid), vout: i.previous_output.vout },
        script_sig: i.script_sig.clone().into(),
        sequence: Sequence(i.sequence),
        witness: Witness::from_vec(i.witness.clone()),
    }).collect();
    let output = tx.output.iter().map(|o| BtcTxOut { value: o.value, script_pubkey: o.script_pubkey.clone().into() }).collect();
    let t = BtcTransaction { version: tx.version, lock_time: PackedLockTime(tx.lock_time), input, output };
    HashValue::into_inner(t.txid())
}

/// `SighashCache::segwit_signature_hash` with `EcdsaSighashType::All` on the
/// transaction with these fields. The call hashes no witness, so the result
/// is that of the transaction without witnesses. It fails only where the
/// transaction has no input `index`.
#[verifier::external_body]
pub(crate) fn transaction_sighash(tx: &Transaction, index: usize, script_code: &Vec<u8>, value: u64) -> (r: Option<[u8; 32]>)
    ensures
        r == segwit_sighash(tx@.without_witnesses(), index as int, script_code@, value),
        index < tx@.input.len() ==> r.is_some(),
{
    let input = tx.input.iter().map(|i| BtcTxIn {
        previous_output: BtcOutPoint { txid: HashValue::from_inner(i.previous_output.txid), vout: i.previous_output.vout },
        script_sig: i.script_sig.clone().into(),
        sequence: Sequence(i.sequence),
        witness: Witness::from_vec(i.witness.clone()),
    }).collect();
    let output = tx.output.iter().map(|o| BtcTxOut { value: o.value, script_pubkey: o.script_pubkey.clone().into() }).collect();
    let t = BtcTransaction { version: tx.version, lock_time: PackedLockTime(tx.lock_time), input, output };
    SighashCache::new(&t).segwit_signature_hash(index, &script_code.clone().into(), value, EcdsaSighashType::All).ok().map(HashValue::into_inner)
}

} // verus!
