//! Reading a signatory set back from its redeem script.

use vstd::prelude::*;
use crate::backend::{parse_script, read_int, script_instructions, script_int};
use crate::error::{ContractError, ContractResult};
use crate::keys::Pubkey;
use crate::signatory::{
    power_sum, Signatory, SignatorySet, SignatorySetView, OP_ADD, OP_CHECKSIG, OP_DROP, OP_ELSE,
    OP_ENDIF, OP_GREATERTHANOREQUAL, OP_IF, OP_SWAP,
};

verus! {

/// The opcode that pushes the number one; the fifteen after it push the
/// numbers up to sixteen.
pub const OP_1: u8 = 0x51;

/// The opcode that pushes the number sixteen.
pub const OP_16: u8 = 0x60;

/// The number of instructions that a redeem script holds for each member.
pub const MEMBER_INSTRUCTIONS: usize = 7;

/// The number of instructions that a redeem script holds behind its members.
pub const TAIL_INSTRUCTIONS: usize = 4;

/// One instruction of a script: a push of bytes, or another opcode.
#[derive(Debug, PartialEq, Eq)]
pub enum Instruction {
    Push(Vec<u8>),
    Op(u8),
}

/// The value of an `Instruction`.
pub enum InstructionView {
    Push(Seq<u8>),
    Op(u8),
}

impl View for Instruction {
    type V = InstructionView;

    open spec fn view(&self) -> InstructionView {
        match self {
            Instruction::Push(bytes) => InstructionView::Push(bytes@),
            Instruction::Op(op) => InstructionView::Op(*op),
        }
    }
}

/// The values of a sequence of instructions.
pub open spec fn instructions_view(s: Seq<Instruction>) -> Seq<InstructionView> {
    s.map_values(|i: Instruction| i@)
}

/// The number that an instruction pushes, if it pushes one that is not
/// negative: the opcodes for one to sixteen push these, and a push of bytes
/// pushes the number that the bytes stand for.
pub open spec fn number_of(i: InstructionView) -> Option<u64> {
    match i {
        InstructionView::Push(bytes) => match script_int(bytes) {
            Some(v) => if v >= 0 {
                Some(v as u64)
            } else {
                None
            },
            None => None,
        },
        InstructionView::Op(op) => if OP_1 <= op <= OP_16 {
            Some((op - OP_1 + 1) as u64)
        } else {
            None
        },
    }
}

/// The key and the weight of member `g` as the instructions state them:
/// the key is pushed and checked against a signature, and the weight is
/// pushed where the check holds; the first member leaves zero where it does
/// not, and every further member adds its weight to the sum.
pub open spec fn member_at(ins: Seq<InstructionView>, g: int) -> Option<(Seq<u8>, u64)> {
    let at = g * MEMBER_INSTRUCTIONS;
    let shift = if g == 0 {
        0int
    } else {
        1int
    };
    if g < 0 || at + MEMBER_INSTRUCTIONS > ins.len() {
        None
    } else {
        match (ins[at + shift], number_of(ins[at + 3 + shift])) {
            (InstructionView::Push(key), Some(weight)) => if key.len() == 33 && ins[at + 1 + shift]
                == InstructionView::Op(OP_CHECKSIG) && ins[at + 2 + shift] == InstructionView::Op(
                OP_IF,
            ) && ins[at + 6] == InstructionView::Op(OP_ENDIF) && (if g == 0 {
                ins[at + 4] == InstructionView::Op(OP_ELSE) && number_of(ins[at + 5]) == Some(0u64)
            } else {
                ins[at] == InstructionView::Op(OP_SWAP) && ins[at + 5] == InstructionView::Op(
                    OP_ADD,
                )
            }) {
                Some((key, weight))
            } else {
                None
            },
            _ => None,
        }
    }
}

/// The number of members that a redeem script of so many instructions holds.
pub open spec fn member_count(len: int) -> Option<int> {
    if len >= MEMBER_INSTRUCTIONS + TAIL_INSTRUCTIONS && (len - TAIL_INSTRUCTIONS)
        % (MEMBER_INSTRUCTIONS as int) == 0 {
        Some((len - TAIL_INSTRUCTIONS) / (MEMBER_INSTRUCTIONS as int))
    } else {
        None
    }
}

/// The destination commitment that the instructions state behind the
/// members: the threshold is pushed and compared with the sum, and the
/// commitment is pushed and dropped.
pub open spec fn parsed_dest(ins: Seq<InstructionView>) -> Option<Seq<u8>> {
    match member_count(ins.len() as int) {
        None => None,
        Some(m) => {
            let at = m * MEMBER_INSTRUCTIONS;
            match ins[at + 2] {
                InstructionView::Push(dest) => if number_of(ins[at]).is_some() && ins[at + 1]
                    == InstructionView::Op(OP_GREATERTHANOREQUAL) && ins[at + 3]
                    == InstructionView::Op(OP_DROP) {
                    Some(dest)
                } else {
                    None
                },
                _ => None,
            }
        },
    }
}

/// The keys and weights of the members that the instructions state.
pub open spec fn parsed_members(ins: Seq<InstructionView>) -> Option<Seq<(Seq<u8>, u64)>> {
    match member_count(ins.len() as int) {
        None => None,
        Some(m) => if forall|g: int| 0 <= g < m ==> (#[trigger] member_at(ins, g)).is_some() {
            Some(Seq::new(m as nat, |g: int| member_at(ins, g).unwrap()))
        } else {
            None
        },
    }
}

/// Whether the signatories hold these keys and weights, in this order.
pub open spec fn holds(signatories: Seq<Signatory>, members: Seq<(Seq<u8>, u64)>) -> bool {
    &&& signatories.len() == members.len()
    &&& forall|g: int|
        0 <= g < members.len() ==> (#[trigger] signatories[g]).pubkey.bytes@ == members[g].0
            && signatories[g].voting_power == members[g].1
}

/// Whether `set` and `dest` are what `script` was built from for the
/// threshold `num / den`: the script spells the instructions of a redeem
/// script with the keys and weights of the members of `set` and with
/// `dest`; `set` has no weight but that of its members, and neither sequence
/// number nor time; and its redeem script for `dest` is `script`.
pub open spec fn is_set_of_script(
    set: SignatorySetView,
    dest: Seq<u8>,
    script: Seq<u8>,
    num: u64,
    den: u64,
) -> bool {
    match script_instructions(script) {
        None => false,
        Some(ins) => match (parsed_members(ins), parsed_dest(ins)) {
            (Some(members), Some(d)) => {
                &&& d == dest
                &&& holds(set.signatories, members)
                &&& set.index == 0
                &&& set.create_time == 0
                &&& set.present_vp == power_sum(set.signatories, set.signatories.len() as int)
                &&& set.possible_vp == set.present_vp
                &&& set.redeem_script(dest, num, den) == Ok::<_, ContractError>(script)
            },
            _ => false,
        },
    }
}

/// A script was built from no more than one signatory set and destination.
pub proof fn law_script_has_one_set(
    a: SignatorySetView,
    b: SignatorySetView,
    dest_a: Seq<u8>,
    dest_b: Seq<u8>,
    script: Seq<u8>,
    num: u64,
    den: u64,
)
    requires
        is_set_of_script(a, dest_a, script, num, den),
        is_set_of_script(b, dest_b, script, num, den),
    ensures
        a == b,
        dest_a == dest_b,
{
    let ins = script_instructions(script).unwrap();
    let members = parsed_members(ins).unwrap();
    assert forall|g: int| 0 <= g < a.signatories.len() implies a.signatories[g]
        == b.signatories[g] by {
        assert(a.signatories[g].pubkey.bytes@ == members[g].0);
        assert(b.signatories[g].pubkey.bytes@ == members[g].0);
        assert(a.signatories[g].pubkey.bytes =~= b.signatories[g].pubkey.bytes);
    }
    assert(a.signatories =~= b.signatories);
}

impl SignatorySetView {
    /// The signatory set and the destination commitment that `script` was
    /// built from for the threshold `num / den`, if it is the redeem script
    /// of a signatory set.
    pub open spec fn from_script(script: Seq<u8>, num: u64, den: u64) -> Result<
        (SignatorySetView, Seq<u8>),
        ContractError,
    > {
        if exists|p: (SignatorySetView, Seq<u8>)| is_set_of_script(p.0, p.1, script, num, den) {
            Ok(choose|p: (SignatorySetView, Seq<u8>)| is_set_of_script(p.0, p.1, script, num, den))
        } else {
            Err(ContractError::InvalidScript)
        }
    }
}

/// The number that an instruction pushes.
fn number(i: &Instruction) -> (r: Option<u64>)
    ensures
        r == number_of(i@),
{
    match i {
        Instruction::Push(bytes) => match read_int(bytes) {
            Some(v) => if v >= 0 {
                Some(v as u64)
            } else {
                None
            },
            None => None,
        },
        Instruction::Op(op) => if OP_1 <= *op && *op <= OP_16 {
            Some((*op - OP_1 + 1) as u64)
        } else {
            None
        },
    }
}

/// Whether the instruction is the opcode `op`.
fn is_op(i: &Instruction, op: u8) -> (r: bool)
    ensures
        r == (i@ == InstructionView::Op(op)),
{
    match i {
        Instruction::Op(o) => *o == op,
        Instruction::Push(_) => false,
    }
}

/// The key with the bytes of `bytes`.
fn key_from(bytes: &Vec<u8>) -> (r: Pubkey)
    requires
        bytes.len() == 33,
    ensures
        r.bytes@ == bytes@,
{
    let mut key = [0u8; 33];
    let mut i: usize = 0;
    while i < 33
        invariant
            i <= 33,
            bytes.len() == 33,
            forall|j: int| 0 <= j < i ==> key@[j] == bytes@[j],
        decreases 33 - i,
    {
        key[i] = bytes[i];
        i += 1;
    }
    assert(key@ =~= bytes@);
    Pubkey { bytes: key }
}

/// The key and the weight of member `g` as the instructions state them.
fn member(ins: &Vec<Instruction>, g: usize) -> (r: Option<Signatory>)
    requires
        (g + 1) * MEMBER_INSTRUCTIONS <= ins.len(),
    ensures
        match r {
            Some(s) => member_at(instructions_view(ins@), g as int) == Some(
                (s.pubkey.bytes@, s.voting_power),
            ),
            None => member_at(instructions_view(ins@), g as int).is_none(),
        },
{
    let at = g * MEMBER_INSTRUCTIONS;
    let shift: usize = if g == 0 {
        0
    } else {
        1
    };
    let weight = match number(&ins[at + 3 + shift]) {
        Some(w) => w,
        None => {
            return None;
        },
    };
    let framed = is_op(&ins[at + 1 + shift], OP_CHECKSIG) && is_op(&ins[at + 2 + shift], OP_IF)
        && is_op(&ins[at + 6], OP_ENDIF) && (if g == 0 {
        is_op(&ins[at + 4], OP_ELSE) && match number(&ins[at + 5]) {
            Some(zero) => zero == 0,
            None => false,
        }
    } else {
        is_op(&ins[at], OP_SWAP) && is_op(&ins[at + 5], OP_ADD)
    });
    match &ins[at + shift] {
        Instruction::Push(key) => if key.len() == 33 && framed {
            Some(Signatory { voting_power: weight, pubkey: key_from(key) })
        } else {
            None
        },
        Instruction::Op(_) => None,
    }
}

/// Whether two byte strings are the same.
fn same_bytes(a: &Vec<u8>, b: &Vec<u8>) -> (r: bool)
    ensures
        r == (a@ == b@),
{
    if a.len() != b.len() {
        return false;
    }
    let mut i: usize = 0;
    while i < a.len()
        invariant
            a.len() == b.len(),
            i <= a.len(),
            forall|j: int| 0 <= j < i ==> a@[j] == b@[j],
        decreases a.len() - i,
    {
        if a[i] != b[i] {
            return false;
        }
        i += 1;
    }
    assert(a@ =~= b@);
    true
}

impl SignatorySet {
    /// Reads the signatory set and the destination commitment back from a
    /// redeem script for the threshold `threshold_ratio`. The set has the
    /// keys and weights that the script states, no weight beyond theirs, and
    /// neither sequence number nor time. A script that is not the redeem
    /// script of the set that it states is refused.
    pub fn from_script(script: &Vec<u8>, threshold_ratio: (u64, u64)) -> (r: ContractResult<
        (Self, Vec<u8>),
    >)
        ensures
            match r {
                Ok((set, dest)) => is_set_of_script(
                    set@,
                    dest@,
                    script@,
                    threshold_ratio.0,
                    threshold_ratio.1,
                ) && SignatorySetView::from_script(script@, threshold_ratio.0, threshold_ratio.1)
                    == Ok::<_, ContractError>((set@, dest@)),
                Err(e) => e == ContractError::InvalidScript && SignatorySetView::from_script(
                    script@,
                    threshold_ratio.0,
                    threshold_ratio.1,
                ) == Err::<(SignatorySetView, Seq<u8>), _>(e),
            },
    {
        let ghost num = threshold_ratio.0;
        let ghost den = threshold_ratio.1;
        let ins = match parse_script(script) {
            Some(ins) => ins,
            None => {
                return Err(ContractError::InvalidScript);
            },
        };
        let ghost spelled = instructions_view(ins@);
        if ins.len() < MEMBER_INSTRUCTIONS + TAIL_INSTRUCTIONS || (ins.len() - TAIL_INSTRUCTIONS)
            % MEMBER_INSTRUCTIONS != 0 {
            return Err(ContractError::InvalidScript);
        }
        let m = (ins.len() - TAIL_INSTRUCTIONS) / MEMBER_INSTRUCTIONS;
        assert(member_count(spelled.len() as int) == Some(m as int));
        assert(m * MEMBER_INSTRUCTIONS + TAIL_INSTRUCTIONS == ins.len()) by (nonlinear_arith)
            requires
                m == (ins.len() - TAIL_INSTRUCTIONS) / (MEMBER_INSTRUCTIONS as int),
                (ins.len() - TAIL_INSTRUCTIONS) % (MEMBER_INSTRUCTIONS as int) == 0,
                MEMBER_INSTRUCTIONS == 7,
        ;
        let mut signatories: Vec<Signatory> = Vec::new();
        let mut total: u64 = 0;
        let mut g: usize = 0;
        while g < m
            invariant
                g <= m,
                num == threshold_ratio.0,
                den == threshold_ratio.1,
                m * MEMBER_INSTRUCTIONS + TAIL_INSTRUCTIONS == ins.len(),
                spelled == instructions_view(ins@),
                member_count(spelled.len() as int) == Some(m as int),
                script_instructions(script@) == Some(spelled),
                signatories.len() == g,
                total == power_sum(signatories@, g as int),
                forall|j: int|
                    0 <= j < g ==> member_at(spelled, j) == Some(
                        ((#[trigger] signatories@[j]).pubkey.bytes@, signatories@[j].voting_power),
                    ),
            decreases m - g,
        {
            assert((g + 1) * MEMBER_INSTRUCTIONS <= ins.len()) by (nonlinear_arith)
                requires
                    g < m,
                    m * MEMBER_INSTRUCTIONS + TAIL_INSTRUCTIONS == ins.len(),
                    MEMBER_INSTRUCTIONS == 7,
            ;
            let signatory = match member(&ins, g) {
                Some(s) => s,
                None => {
                    proof {
                        assert(parsed_members(spelled).is_none());
                        assert(forall|p: (SignatorySetView, Seq<u8>)|
                            !is_set_of_script(p.0, p.1, script@, num, den));
                    }
                    return Err(ContractError::InvalidScript);
                },
            };
            let ghost before = signatories@;
            total = match total.checked_add(signatory.voting_power) {
                Some(t) => t,
                None => {
                    proof {
                        assert forall|p: (SignatorySetView, Seq<u8>)|
                            !is_set_of_script(p.0, p.1, script@, num, den) by {
                            if is_set_of_script(p.0, p.1, script@, num, den) {
                                let members = parsed_members(spelled).unwrap();
                                let theirs = p.0.signatories;
                                assert(theirs.len() == m);
                                assert(power_sum(before.push(signatory), g + 1) == power_sum(
                                    before.push(signatory),
                                    g as int,
                                ) + signatory.voting_power);
                                assert forall|j: int| 0 <= j <= g implies (#[trigger] theirs[j])
                                    == before.push(signatory)[j] by {
                                    assert(theirs[j].pubkey.bytes@ == members[j].0);
                                    assert(members[j] == member_at(spelled, j).unwrap());
                                    assert(theirs[j].pubkey.bytes =~= before.push(
                                        signatory,
                                    )[j].pubkey.bytes);
                                }
                                crate::signatory::lemma_power_sum_agree(
                                    theirs,
                                    before.push(signatory),
                                    g + 1,
                                );
                                crate::signatory::lemma_power_sum_agree(
                                    before,
                                    before.push(signatory),
                                    g as int,
                                );
                                lemma_power_sum_grows(theirs, g + 1, theirs.len() as int);
                            }
                        }
                    }
                    return Err(ContractError::InvalidScript);
                },
            };
            signatories.push(signatory);
            proof {
                crate::signatory::lemma_power_sum_agree(before, signatories@, g as int);
            }
            g += 1;
        }
        let at = m * MEMBER_INSTRUCTIONS;
        let tail_ok = number(&ins[at]).is_some() && is_op(&ins[at + 1], OP_GREATERTHANOREQUAL)
            && is_op(&ins[at + 3], OP_DROP);
        let dest = match &ins[at + 2] {
            Instruction::Push(dest) => if tail_ok {
                dest.clone()
            } else {
                return Err(ContractError::InvalidScript);
            },
            Instruction::Op(_) => {
                return Err(ContractError::InvalidScript);
            },
        };
        assert(parsed_dest(spelled) == Some(dest@));
        let set = SignatorySet {
            create_time: 0,
            present_vp: total,
            possible_vp: total,
            index: 0,
            signatories,
        };
        proof {
            assert forall|j: int| 0 <= j < m implies (#[trigger] member_at(spelled, j)).is_some() by {
                assert(member_at(spelled, j) == Some(
                    (set@.signatories[j].pubkey.bytes@, set@.signatories[j].voting_power),
                ));
            }
            assert(parsed_members(spelled).is_some());
            assert(holds(set@.signatories, parsed_members(spelled).unwrap()));
        }
        let rebuilt = match set.redeem_script(&dest, threshold_ratio) {
            Ok(s) => same_bytes(&s, script),
            Err(_) => false,
        };
        if !rebuilt {
            proof {
                assert forall|p: (SignatorySetView, Seq<u8>)|
                    !is_set_of_script(p.0, p.1, script@, num, den) by {
                    if is_set_of_script(p.0, p.1, script@, num, den) {
                        let members = parsed_members(spelled).unwrap();
                        assert forall|j: int| 0 <= j < m implies (#[trigger] p.0.signatories[j])
                            == set@.signatories[j] by {
                            assert(p.0.signatories[j].pubkey.bytes@ == members[j].0);
                            assert(set@.signatories[j].pubkey.bytes@ == members[j].0);
                            assert(p.0.signatories[j].pubkey.bytes =~= set@.signatories[j].pubkey.bytes);
                        }
                        assert(p.0.signatories =~= set@.signatories);
                        assert(p.0 == set@);
                    }
                }
            }
            return Err(ContractError::InvalidScript);
        }
        proof {
            assert(is_set_of_script(set@, dest@, script@, num, den));
            let chosen = choose|p: (SignatorySetView, Seq<u8>)|
                is_set_of_script(p.0, p.1, script@, num, den);
            assert(is_set_of_script((set@, dest@).0, (set@, dest@).1, script@, num, den));
            law_script_has_one_set(chosen.0, set@, chosen.1, dest@, script@, num, den);
        }
        Ok((set, dest))
    }
}

/// The summed weights of more members are not less.
pub proof fn lemma_power_sum_grows(s: Seq<Signatory>, m: int, n: int)
    requires
        0 <= m <= n,
    ensures
        power_sum(s, m) <= power_sum(s, n),
    decreases n,
{
    if m < n {
        lemma_power_sum_grows(s, m, n - 1);
    }
}

} // verus!
