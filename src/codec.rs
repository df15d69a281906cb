use vstd::prelude::*;
use vstd::bytes::*;
use vstd::slice::*;
use crate::instruction::{Instruction, InstructionKind};
use crate::location::Location;
use crate::program::{Block, Program};

verus! {

/// The first two bytes of an encoded program: 0x4C4F, little-endian.
pub const MAGIC_LOW: u8 = 0x4F;
pub const MAGIC_HIGH: u8 = 0x4C;
pub const VERSION: u8 = 0x01;

/// The opcode byte of each instruction kind.
pub open spec fn opcode(kind: InstructionKind) -> u8 {
    match kind {
        InstructionKind::NoOp => 0x00,
        InstructionKind::LoadI64(_) => 0x01,
        InstructionKind::LoadF64(_) => 0x02,
        InstructionKind::LoadBool(_) => 0x04,
        InstructionKind::LoadConstant(_) => 0x05,
        InstructionKind::Call(_) => 0x07,
        InstructionKind::Jump(_) => 0x08,
        InstructionKind::JumpIfFalse(_) => 0x09,
        InstructionKind::Patch => 0x0B,
        InstructionKind::Add => 0x10,
        InstructionKind::Sub => 0x11,
        InstructionKind::Mul => 0x12,
        InstructionKind::Div => 0x13,
        InstructionKind::Mod => 0x14,
        InstructionKind::Not => 0x15,
        InstructionKind::And => 0x16,
        InstructionKind::Or => 0x17,
        InstructionKind::Equals => 0x18,
        InstructionKind::NotEquals => 0x19,
        InstructionKind::LessThan => 0x1A,
        InstructionKind::LessThanEquals => 0x1B,
        InstructionKind::GreaterThan => 0x1C,
        InstructionKind::GreaterThanEquals => 0x1D,
        InstructionKind::Dup => 0x1E,
        InstructionKind::Drop => 0x1F,
        InstructionKind::Swap => 0x20,
        InstructionKind::Over => 0x21,
        InstructionKind::Print => 0x22,
        InstructionKind::DebugStack => 0x23,
        InstructionKind::Return => 0x24,
        InstructionKind::Halt => 0x25,
    }
}

/// The kind without an operand that an opcode byte stands for.
pub open spec fn plain_kind(op: u8) -> Option<InstructionKind> {
    if op == 0x00 {
        Some(InstructionKind::NoOp)
    } else if op == 0x0B {
        Some(InstructionKind::Patch)
    } else if op == 0x10 {
        Some(InstructionKind::Add)
    } else if op == 0x11 {
        Some(InstructionKind::Sub)
    } else if op == 0x12 {
        Some(InstructionKind::Mul)
    } else if op == 0x13 {
        Some(InstructionKind::Div)
    } else if op == 0x14 {
        Some(InstructionKind::Mod)
    } else if op == 0x15 {
        Some(InstructionKind::Not)
    } else if op == 0x16 {
        Some(InstructionKind::And)
    } else if op == 0x17 {
        Some(InstructionKind::Or)
    } else if op == 0x18 {
        Some(InstructionKind::Equals)
    } else if op == 0x19 {
        Some(InstructionKind::NotEquals)
    } else if op == 0x1A {
        Some(InstructionKind::LessThan)
    } else if op == 0x1B {
        Some(InstructionKind::LessThanEquals)
    } else if op == 0x1C {
        Some(InstructionKind::GreaterThan)
    } else if op == 0x1D {
        Some(InstructionKind::GreaterThanEquals)
    } else if op == 0x1E {
        Some(InstructionKind::Dup)
    } else if op == 0x1F {
        Some(InstructionKind::Drop)
    } else if op == 0x20 {
        Some(InstructionKind::Swap)
    } else if op == 0x21 {
        Some(InstructionKind::Over)
    } else if op == 0x22 {
        Some(InstructionKind::Print)
    } else if op == 0x23 {
        Some(InstructionKind::DebugStack)
    } else if op == 0x24 {
        Some(InstructionKind::Return)
    } else if op == 0x25 {
        Some(InstructionKind::Halt)
    } else {
        None
    }
}

/// The operand bytes of an instruction, little-endian.
pub open spec fn operand(kind: InstructionKind) -> Seq<u8> {
    match kind {
        InstructionKind::LoadI64(v) => spec_u64_to_le_bytes(v as u64),
        InstructionKind::LoadF64(v) => spec_u64_to_le_bytes(v),
        InstructionKind::LoadBool(b) => seq![if b { 1u8 } else { 0u8 }],
        InstructionKind::LoadConstant(i) => spec_u64_to_le_bytes(i as u64),
        InstructionKind::Call(i) => spec_u64_to_le_bytes(i as u64),
        InstructionKind::Jump(i) => spec_u64_to_le_bytes(i as u64),
        InstructionKind::JumpIfFalse(i) => spec_u64_to_le_bytes(i as u64),
        _ => Seq::empty(),
    }
}

/// The 4-byte header of an instruction: its opcode and three zero bytes.
pub open spec fn header(kind: InstructionKind) -> Seq<u8> {
    seq![opcode(kind), 0u8, 0u8, 0u8]
}

pub open spec fn encode_kind(kind: InstructionKind) -> Seq<u8> {
    header(kind) + operand(kind)
}

/// An index read from eight little-endian bytes, if it fits in `usize`.
pub open spec fn index_of(bs: Seq<u8>) -> Option<usize> {
    let x = spec_u64_from_le_bytes(bs);
    if x <= usize::MAX {
        Some(x as usize)
    } else {
        None
    }
}

/// The instruction encoded at the front of `bs`, and how many bytes it
/// takes.
pub open spec fn decode_kind(bs: Seq<u8>) -> Option<(InstructionKind, int)> {
    if bs.len() < 4 || bs[1] != 0 || bs[2] != 0 || bs[3] != 0 {
        None
    } else {
        let op = bs[0];
        let wide = bs.len() >= 12;
        let word = bs.subrange(4, 12);
        if op == 0x01 {
            if wide { Some((InstructionKind::LoadI64(spec_u64_from_le_bytes(word) as i64), 12)) } else { None }
        } else if op == 0x02 {
            if wide { Some((InstructionKind::LoadF64(spec_u64_from_le_bytes(word)), 12)) } else { None }
        } else if op == 0x04 {
            if bs.len() >= 5 && bs[4] == 1 {
                Some((InstructionKind::LoadBool(true), 5))
            } else if bs.len() >= 5 && bs[4] == 0 {
                Some((InstructionKind::LoadBool(false), 5))
            } else {
                None
            }
        } else if op == 0x05 || op == 0x07 || op == 0x08 || op == 0x09 {
            if wide && index_of(word) is Some {
                let i = index_of(word)->Some_0;
                let kind = if op == 0x05 {
                    InstructionKind::LoadConstant(i)
                } else if op == 0x07 {
                    InstructionKind::Call(i)
                } else if op == 0x08 {
                    InstructionKind::Jump(i)
                } else {
                    InstructionKind::JumpIfFalse(i)
                };
                Some((kind, 12))
            } else {
                None
            }
        } else {
            match plain_kind(op) {
                Some(kind) => Some((kind, 4)),
                None => None,
            }
        }
    }
}

pub open spec fn encode_kinds(kinds: Seq<InstructionKind>) -> Seq<u8>
    decreases kinds.len(),
{
    if kinds.len() == 0 {
        Seq::empty()
    } else {
        encode_kind(kinds[0]) + encode_kinds(kinds.drop_first())
    }
}

/// `n` instructions decoded from the front of `bs`, and how many bytes they
/// take.
pub open spec fn decode_kinds(bs: Seq<u8>, n: nat) -> Option<(Seq<InstructionKind>, int)>
    decreases n,
{
    if n == 0 {
        Some((Seq::empty(), 0))
    } else {
        match decode_kind(bs) {
            None => None,
            Some((k, used)) => match decode_kinds(bs.skip(used), (n - 1) as nat) {
                None => None,
                Some((ks, more)) => Some((seq![k] + ks, used + more)),
            },
        }
    }
}

/// A block: its instruction count in one byte, then its instructions.
pub open spec fn encode_block(kinds: Seq<InstructionKind>) -> Seq<u8> {
    seq![kinds.len() as u8] + encode_kinds(kinds)
}

pub open spec fn encode_blocks(blocks: Seq<Seq<InstructionKind>>) -> Seq<u8>
    decreases blocks.len(),
{
    if blocks.len() == 0 {
        Seq::empty()
    } else {
        encode_block(blocks[0]) + encode_blocks(blocks.drop_first())
    }
}

pub open spec fn decode_blocks(bs: Seq<u8>, n: nat) -> Option<(Seq<Seq<InstructionKind>>, int)>
    decreases n,
{
    if n == 0 {
        Some((Seq::empty(), 0))
    } else if bs.len() == 0 {
        None
    } else {
        match decode_kinds(bs.skip(1), bs[0] as nat) {
            None => None,
            Some((ks, used)) => match decode_blocks(bs.skip(1 + used), (n - 1) as nat) {
                None => None,
                Some((rest, more)) => Some((seq![ks] + rest, 1 + used + more)),
            },
        }
    }
}

/// Blocks and an entry index that the layout can hold: at most 255 blocks
/// of at most 255 instructions, and an entry index below 256.
pub open spec fn encodable(blocks: Seq<Seq<InstructionKind>>, entry: usize) -> bool {
    &&& blocks.len() <= 255
    &&& entry <= 255
    &&& forall|b: int| 0 <= b < blocks.len() ==> (#[trigger] blocks[b]).len() <= 255
}

/// The encoded program: magic value, version, block count, entry index,
/// then the blocks.
pub open spec fn encode_program(blocks: Seq<Seq<InstructionKind>>, entry: usize) -> Seq<u8> {
    seq![MAGIC_LOW, MAGIC_HIGH, VERSION, blocks.len() as u8, entry as u8] + encode_blocks(blocks)
}

/// The blocks and entry index that `bs` encodes, if it is a well-formed
/// encoding with nothing after the last block.
pub open spec fn decode_program(bs: Seq<u8>) -> Option<(Seq<Seq<InstructionKind>>, usize)> {
    if bs.len() < 5 || bs[0] != MAGIC_LOW || bs[1] != MAGIC_HIGH || bs[2] != VERSION {
        None
    } else {
        match decode_blocks(bs.skip(5), bs[3] as nat) {
            Some((blocks, used)) => if 5 + used == bs.len() {
                Some((blocks, bs[4] as usize))
            } else {
                None
            },
            None => None,
        }
    }
}

proof fn lemma_decode_encoded_kind(kind: InstructionKind, rest: Seq<u8>)
    ensures
        decode_kind(encode_kind(kind) + rest) == Some((kind, encode_kind(kind).len() as int)),
{
    lemma_auto_spec_u64_to_from_le_bytes();
    let bs = encode_kind(kind) + rest;
    match kind {
        InstructionKind::LoadI64(v) => {
            assert(bs.subrange(4, 12) =~= spec_u64_to_le_bytes(v as u64));
            assert(((v as u64) as i64) == v) by (bit_vector);
        },
        InstructionKind::LoadF64(v) => {
            assert(bs.subrange(4, 12) =~= spec_u64_to_le_bytes(v));
        },
        InstructionKind::LoadConstant(i) => {
            assert(bs.subrange(4, 12) =~= spec_u64_to_le_bytes(i as u64));
        },
        InstructionKind::Call(i) => {
            assert(bs.subrange(4, 12) =~= spec_u64_to_le_bytes(i as u64));
        },
        InstructionKind::Jump(i) => {
            assert(bs.subrange(4, 12) =~= spec_u64_to_le_bytes(i as u64));
        },
        InstructionKind::JumpIfFalse(i) => {
            assert(bs.subrange(4, 12) =~= spec_u64_to_le_bytes(i as u64));
        },
        _ => {},
    }
}

proof fn lemma_decode_encoded_kinds(kinds: Seq<InstructionKind>, rest: Seq<u8>)
    ensures
        decode_kinds(encode_kinds(kinds) + rest, kinds.len()) == Some(
            (kinds, encode_kinds(kinds).len() as int),
        ),
    decreases kinds.len(),
{
    if kinds.len() > 0 {
        let k = kinds[0];
        let tail = kinds.drop_first();
        let bs = encode_kinds(kinds) + rest;
        assert(bs =~= encode_kind(k) + (encode_kinds(tail) + rest));
        lemma_decode_encoded_kind(k, encode_kinds(tail) + rest);
        assert(bs.skip(encode_kind(k).len() as int) =~= encode_kinds(tail) + rest);
        lemma_decode_encoded_kinds(tail, rest);
        assert(seq![k] + tail =~= kinds);
    } else {
        assert(kinds =~= Seq::<InstructionKind>::empty());
    }
}

proof fn lemma_decode_encoded_blocks(blocks: Seq<Seq<InstructionKind>>, rest: Seq<u8>)
    requires
        forall|b: int| 0 <= b < blocks.len() ==> (#[trigger] blocks[b]).len() <= 255,
    ensures
        decode_blocks(encode_blocks(blocks) + rest, blocks.len()) == Some(
            (blocks, encode_blocks(blocks).len() as int),
        ),
    decreases blocks.len(),
{
    if blocks.len() > 0 {
        let ks = blocks[0];
        let tail = blocks.drop_first();
        let bs = encode_blocks(blocks) + rest;
        assert(bs =~= seq![ks.len() as u8] + (encode_kinds(ks) + (encode_blocks(tail) + rest)));
        assert(bs.skip(1) =~= encode_kinds(ks) + (encode_blocks(tail) + rest));
        lemma_decode_encoded_kinds(ks, encode_blocks(tail) + rest);
        assert(bs.skip(1 + encode_kinds(ks).len() as int) =~= encode_blocks(tail) + rest);
        assert forall|b: int| 0 <= b < tail.len() implies (#[trigger] tail[b]).len() <= 255 by {
            assert(tail[b] == blocks[b + 1]);
        }
        lemma_decode_encoded_blocks(tail, rest);
        assert(seq![ks] + tail =~= blocks);
    } else {
        assert(blocks =~= Seq::<Seq<InstructionKind>>::empty());
    }
}

/// Decoding an encoded program gives back the same instruction kinds, in
/// the same blocks and order, and the same entry index.
pub proof fn lemma_round_trip(blocks: Seq<Seq<InstructionKind>>, entry: usize)
    requires
        encodable(blocks, entry),
    ensures
        decode_program(encode_program(blocks, entry)) == Some((blocks, entry)),
{
    let bs = encode_program(blocks, entry);
    lemma_decode_encoded_blocks(blocks, Seq::empty());
    assert(encode_blocks(blocks) + Seq::<u8>::empty() =~= encode_blocks(blocks));
    assert(bs.skip(5) =~= encode_blocks(blocks));
}

proof fn lemma_encode_kinds_push(kinds: Seq<InstructionKind>, kind: InstructionKind)
    ensures
        encode_kinds(kinds.push(kind)) == encode_kinds(kinds) + encode_kind(kind),
    decreases kinds.len(),
{
    if kinds.len() == 0 {
        assert(kinds.push(kind).drop_first() =~= Seq::<InstructionKind>::empty());
        assert(kinds.push(kind)[0] == kind);
        assert(encode_kinds(kinds.push(kind).drop_first()) == Seq::<u8>::empty());
        assert(encode_kinds(kinds) == Seq::<u8>::empty());
        assert(encode_kinds(kinds.push(kind)) =~= encode_kinds(kinds) + encode_kind(kind));
    } else {
        assert(kinds.push(kind).drop_first() =~= kinds.drop_first().push(kind));
        lemma_encode_kinds_push(kinds.drop_first(), kind);
        assert(encode_kinds(kinds.push(kind)) =~= encode_kinds(kinds) + encode_kind(kind));
    }
}

proof fn lemma_encode_blocks_push(blocks: Seq<Seq<InstructionKind>>, block: Seq<InstructionKind>)
    ensures
        encode_blocks(blocks.push(block)) == encode_blocks(blocks) + encode_block(block),
    decreases blocks.len(),
{
    if blocks.len() == 0 {
        assert(blocks.push(block).drop_first() =~= Seq::<Seq<InstructionKind>>::empty());
        assert(blocks.push(block)[0] == block);
        assert(encode_blocks(blocks.push(block).drop_first()) == Seq::<u8>::empty());
        assert(encode_blocks(blocks) == Seq::<u8>::empty());
        assert(encode_blocks(blocks.push(block)) =~= encode_blocks(blocks) + encode_block(block));
    } else {
        assert(blocks.push(block).drop_first() =~= blocks.drop_first().push(block));
        lemma_encode_blocks_push(blocks.drop_first(), block);
        assert(encode_blocks(blocks.push(block)) =~= encode_blocks(blocks) + encode_block(block));
    }
}

/// Appends `bytes` to `out`.
fn append_bytes(out: &mut Vec<u8>, bytes: &Vec<u8>)
    ensures
        final(out)@ == old(out)@ + bytes@,
{
    let mut i: usize = 0;
    while i < bytes.len()
        invariant
            i <= bytes@.len(),
            out@ == old(out)@ + bytes@.subrange(0, i as int),
        decreases bytes@.len() - i,
    {
        out.push(bytes[i]);
        i = i + 1;
        proof {
            assert(out@ =~= old(out)@ + bytes@.subrange(0, i as int));
        }
    }
    proof {
        assert(bytes@.subrange(0, i as int) =~= bytes@);
    }
}

fn opcode_of(kind: InstructionKind) -> (r: u8)
    ensures
        r == opcode(kind),
{
    match kind {
        InstructionKind::NoOp => 0x00,
        InstructionKind::LoadI64(_) => 0x01,
        InstructionKind::LoadF64(_) => 0x02,
        InstructionKind::LoadBool(_) => 0x04,
        InstructionKind::LoadConstant(_) => 0x05,
        InstructionKind::Call(_) => 0x07,
        InstructionKind::Jump(_) => 0x08,
        InstructionKind::JumpIfFalse(_) => 0x09,
        InstructionKind::Patch => 0x0B,
        InstructionKind::Add => 0x10,
        InstructionKind::Sub => 0x11,
        InstructionKind::Mul => 0x12,
        InstructionKind::Div => 0x13,
        InstructionKind::Mod => 0x14,
        InstructionKind::Not => 0x15,
        InstructionKind::And => 0x16,
        InstructionKind::Or => 0x17,
        InstructionKind::Equals => 0x18,
        InstructionKind::NotEquals => 0x19,
        InstructionKind::LessThan => 0x1A,
        InstructionKind::LessThanEquals => 0x1B,
        InstructionKind::GreaterThan => 0x1C,
        InstructionKind::GreaterThanEquals => 0x1D,
        InstructionKind::Dup => 0x1E,
        InstructionKind::Drop => 0x1F,
        InstructionKind::Swap => 0x20,
        InstructionKind::Over => 0x21,
        InstructionKind::Print => 0x22,
        InstructionKind::DebugStack => 0x23,
        InstructionKind::Return => 0x24,
        InstructionKind::Halt => 0x25,
    }
}

impl Instruction {
    /// The 4-byte header of the instruction: its opcode and three zeros.
    pub fn instruction_bytes(&self) -> (r: Vec<u8>)
        ensures
            r@ == header(self.kind),
    {
        let r = vec![opcode_of(self.kind), 0u8, 0u8, 0u8];
        proof {
            assert(r@ =~= header(self.kind));
        }
        r
    }

    /// The header followed by the little-endian operand, if any.
    pub fn to_bytes(&self) -> (r: Vec<u8>)
        ensures
            r@ == encode_kind(self.kind),
    {
        let mut bytes = self.instruction_bytes();
        match self.kind {
            InstructionKind::LoadI64(v) => append_bytes(&mut bytes, &u64_to_le_bytes(v as u64)),
            InstructionKind::LoadF64(v) => append_bytes(&mut bytes, &u64_to_le_bytes(v)),
            InstructionKind::LoadBool(b) => bytes.push(if b { 1u8 } else { 0u8 }),
            InstructionKind::LoadConstant(i) => append_bytes(&mut bytes, &u64_to_le_bytes(i as u64)),
            InstructionKind::Call(i) => append_bytes(&mut bytes, &u64_to_le_bytes(i as u64)),
            InstructionKind::Jump(i) => append_bytes(&mut bytes, &u64_to_le_bytes(i as u64)),
            InstructionKind::JumpIfFalse(i) => append_bytes(&mut bytes, &u64_to_le_bytes(i as u64)),
            _ => {},
        }
        proof {
            assert(bytes@ =~= encode_kind(self.kind));
        }
        bytes
    }
}

/// The instruction kinds of each block, without locations.
pub open spec fn kinds(instructions: Seq<Instruction>) -> Seq<InstructionKind> {
    instructions.map_values(|i: Instruction| i.kind)
}

impl Program {
    pub open spec fn kind_blocks(&self) -> Seq<Seq<InstructionKind>> {
        self.code().map_values(|b: Seq<Instruction>| kinds(b))
    }

    /// The program's blocks and entry index in the binary layout, or `None`
    /// when the layout cannot hold them. Locations, strings and the
    /// function table are not part of the layout.
    pub fn to_bytes(&self) -> (r: Option<Vec<u8>>)
        ensures
            r is Some <==> encodable(self.kind_blocks(), self.entry_point),
            r is Some ==> r->Some_0@ == encode_program(self.kind_blocks(), self.entry_point),
    {
        let ghost blocks = self.kind_blocks();
        let n = self.blocks.len();
        if n > 255 || self.entry_point > 255 {
            return None;
        }
        let mut b: usize = 0;
        while b < n
            invariant
                b <= n,
                n == self.blocks@.len(),
                blocks == self.kind_blocks(),
                forall|x: int| 0 <= x < b ==> (#[trigger] blocks[x]).len() <= 255,
            decreases n - b,
        {
            proof {
                assert(blocks[b as int] == kinds(self.blocks@[b as int].instructions@));
            }
            if self.blocks[b].instructions.len() > 255 {
                return None;
            }
            b = b + 1;
        }
        let mut out: Vec<u8> = vec![MAGIC_LOW, MAGIC_HIGH, VERSION, n as u8, self.entry_point as u8];
        let ghost head = out@;
        proof {
            assert(blocks.take(0) =~= Seq::<Seq<InstructionKind>>::empty());
            assert(head + encode_blocks(blocks.take(0)) =~= head);
        }
        let mut b: usize = 0;
        while b < n
            invariant
                b <= n,
                n == self.blocks@.len(),
                blocks == self.kind_blocks(),
                encodable(blocks, self.entry_point),
                out@ == head + encode_blocks(blocks.take(b as int)),
            decreases n - b,
        {
            let ghost ks = blocks[b as int];
            proof {
                assert(ks == kinds(self.blocks@[b as int].instructions@));
            }
            let count = self.blocks[b].instructions.len();
            out.push(count as u8);
            let ghost start = out@;
            let mut j: usize = 0;
            proof {
                assert(ks.take(0) =~= Seq::<InstructionKind>::empty());
                assert(start + encode_kinds(ks.take(0)) =~= start);
            }
            while j < count
                invariant
                    j <= count,
                    count == self.blocks@[b as int].instructions@.len(),
                    ks == kinds(self.blocks@[b as int].instructions@),
                    b < n,
                    n == self.blocks@.len(),
                    out@ == start + encode_kinds(ks.take(j as int)),
                decreases count - j,
            {
                let bytes = self.blocks[b].instructions[j].to_bytes();
                append_bytes(&mut out, &bytes);
                proof {
                    assert(ks.take(j + 1) =~= ks.take(j as int).push(ks[j as int]));
                    lemma_encode_kinds_push(ks.take(j as int), ks[j as int]);
                    assert(out@ =~= start + encode_kinds(ks.take(j + 1)));
                }
                j = j + 1;
            }
            proof {
                assert(ks.take(j as int) =~= ks);
                assert(blocks.take(b + 1) =~= blocks.take(b as int).push(ks));
                lemma_encode_blocks_push(blocks.take(b as int), ks);
                assert(out@ =~= head + encode_blocks(blocks.take(b + 1)));
            }
            b = b + 1;
        }
        proof {
            assert(blocks.take(n as int) =~= blocks);
            assert(head =~= seq![MAGIC_LOW, MAGIC_HIGH, VERSION, blocks.len() as u8, self.entry_point as u8]);
        }
        Some(out)
    }
}

fn plain_kind_of(op: u8) -> (r: Option<InstructionKind>)
    ensures
        r == plain_kind(op),
{
    if op == 0x00 {
        Some(InstructionKind::NoOp)
    } else if op == 0x0B {
        Some(InstructionKind::Patch)
    } else if op == 0x10 {
        Some(InstructionKind::Add)
    } else if op == 0x11 {
        Some(InstructionKind::Sub)
    } else if op == 0x12 {
        Some(InstructionKind::Mul)
    } else if op == 0x13 {
        Some(InstructionKind::Div)
    } else if op == 0x14 {
        Some(InstructionKind::Mod)
    } else if op == 0x15 {
        Some(InstructionKind::Not)
    } else if op == 0x16 {
        Some(InstructionKind::And)
    } else if op == 0x17 {
        Some(InstructionKind::Or)
    } else if op == 0x18 {
        Some(InstructionKind::Equals)
    } else if op == 0x19 {
        Some(InstructionKind::NotEquals)
    } else if op == 0x1A {
        Some(InstructionKind::LessThan)
    } else if op == 0x1B {
        Some(InstructionKind::LessThanEquals)
    } else if op == 0x1C {
        Some(InstructionKind::GreaterThan)
    } else if op == 0x1D {
        Some(InstructionKind::GreaterThanEquals)
    } else if op == 0x1E {
        Some(InstructionKind::Dup)
    } else if op == 0x1F {
        Some(InstructionKind::Drop)
    } else if op == 0x20 {
        Some(InstructionKind::Swap)
    } else if op == 0x21 {
        Some(InstructionKind::Over)
    } else if op == 0x22 {
        Some(InstructionKind::Print)
    } else if op == 0x23 {
        Some(InstructionKind::DebugStack)
    } else if op == 0x24 {
        Some(InstructionKind::Return)
    } else if op == 0x25 {
        Some(InstructionKind::Halt)
    } else {
        None
    }
}

/// The combined result of decoded items `done`, taking `offset` bytes, and
/// the decoding of the rest.
pub open spec fn joined<T>(done: Seq<T>, offset: int, rest: Option<(Seq<T>, int)>) -> Option<(Seq<T>, int)> {
    match rest {
        Some((more, used)) => Some((done + more, offset + used)),
        None => None,
    }
}

/// The instruction encoded at `pos`, and the index past it.
fn decode_kind_at(bytes: &Vec<u8>, pos: usize) -> (r: Option<(InstructionKind, usize)>)
    requires
        pos <= bytes@.len(),
    ensures
        match decode_kind(bytes@.skip(pos as int)) {
            Some((k, used)) => r is Some && r->Some_0.0 == k && r->Some_0.1 == pos + used,
            None => r is None,
        },
        r is Some ==> pos < r->Some_0.1 <= bytes@.len(),
{
    let ghost bs = bytes@.skip(pos as int);
    let left = bytes.len() - pos;
    if left < 4 || bytes[pos + 1] != 0 || bytes[pos + 2] != 0 || bytes[pos + 3] != 0 {
        return None;
    }
    let op = bytes[pos];
    if op == 0x04 {
        if left >= 5 && bytes[pos + 4] == 1 {
            return Some((InstructionKind::LoadBool(true), pos + 5));
        } else if left >= 5 && bytes[pos + 4] == 0 {
            return Some((InstructionKind::LoadBool(false), pos + 5));
        } else {
            return None;
        }
    }
    if op == 0x01 || op == 0x02 || op == 0x05 || op == 0x07 || op == 0x08 || op == 0x09 {
        if left < 12 {
            return None;
        }
        let word = slice_subrange(bytes.as_slice(), pos + 4, pos + 12);
        proof {
            assert(word@ =~= bs.subrange(4, 12));
        }
        let x = u64_from_le_bytes(word);
        if op == 0x01 {
            return Some((InstructionKind::LoadI64(x as i64), pos + 12));
        }
        if op == 0x02 {
            return Some((InstructionKind::LoadF64(x), pos + 12));
        }
        if x > usize::MAX as u64 {
            return None;
        }
        let i = x as usize;
        let kind = if op == 0x05 {
            InstructionKind::LoadConstant(i)
        } else if op == 0x07 {
            InstructionKind::Call(i)
        } else if op == 0x08 {
            InstructionKind::Jump(i)
        } else {
            InstructionKind::JumpIfFalse(i)
        };
        return Some((kind, pos + 12));
    }
    match plain_kind_of(op) {
        Some(kind) => Some((kind, pos + 4)),
        None => None,
    }
}

/// `n` instructions decoded from `pos`, and the index past them.
fn decode_kinds_at(bytes: &Vec<u8>, pos: usize, n: usize) -> (r: Option<(Vec<Instruction>, usize)>)
    requires
        pos <= bytes@.len(),
    ensures
        match decode_kinds(bytes@.skip(pos as int), n as nat) {
            Some((ks, used)) => r is Some && kinds(r->Some_0.0@) == ks && r->Some_0.1 == pos + used
                && pos + used <= bytes@.len(),
            None => r is None,
        },
        r is Some ==> pos <= r->Some_0.1 <= bytes@.len(),
{
    let ghost bs = bytes@;
    let mut out: Vec<Instruction> = Vec::new();
    let mut cur = pos;
    let mut i: usize = 0;
    proof {
        assert(kinds(out@) =~= Seq::<InstructionKind>::empty());
        match decode_kinds(bs.skip(pos as int), n as nat) {
            Some((ks, used)) => {
                assert(Seq::<InstructionKind>::empty() + ks =~= ks);
            },
            None => {},
        }
    }
    while i < n
        invariant
            i <= n,
            pos <= cur <= bs.len(),
            bs == bytes@,
            decode_kinds(bs.skip(pos as int), n as nat) == joined(
                kinds(out@),
                cur - pos,
                decode_kinds(bs.skip(cur as int), (n - i) as nat),
            ),
        decreases n - i,
    {
        let ghost done = kinds(out@);
        match decode_kind_at(bytes, cur) {
            None => {
                return None;
            },
            Some((kind, next)) => {
                proof {
                    let used = next - cur;
                    match decode_kind(bs.skip(cur as int)) {
                        Some((k, u)) => {
                            assert(k == kind && u == used);
                        },
                        None => {},
                    }
                    assert(decode_kind(bs.skip(cur as int)) == Some((kind, used)));
                    assert(bs.skip(cur as int).skip(used) =~= bs.skip(next as int));
                    assert(decode_kinds(bs.skip(cur as int), (n - i) as nat) == match decode_kinds(
                        bs.skip(next as int),
                        (n - i - 1) as nat,
                    ) {
                        Some((ks, u)) => Some((seq![kind] + ks, used + u)),
                        None => None,
                    });
                    match decode_kinds(bs.skip(next as int), (n - i - 1) as nat) {
                        Some((more, u)) => {
                            assert(done + (seq![kind] + more) =~= done.push(kind) + more);
                        },
                        None => {},
                    }
                }
                out.push(Instruction::new(kind, &Location::new(0, 0)));
                proof {
                    assert(kinds(out@) =~= done.push(kind));
                }
                cur = next;
            },
        }
        i = i + 1;
    }
    proof {
        assert(kinds(out@) + Seq::<InstructionKind>::empty() =~= kinds(out@));
    }
    Some((out, cur))
}

impl Program {
    /// The program that `bytes` encodes: its blocks, with every location
    /// set to line 0, column 0, and its entry index; no strings and no
    /// function table. `None` when `bytes` is not a well-formed encoding.
    pub fn from_bytes(bytes: &Vec<u8>) -> (r: Option<Program>)
        ensures
            match decode_program(bytes@) {
                Some((blocks, entry)) => r is Some && r->Some_0.kind_blocks() == blocks
                    && r->Some_0.entry_point == entry && r->Some_0.strings@.len() == 0
                    && r->Some_0.functions@.len() == 0,
                None => r is None,
            },
    {
        let ghost bs = bytes@;
        if bytes.len() < 5 || bytes[0] != MAGIC_LOW || bytes[1] != MAGIC_HIGH || bytes[2] != VERSION {
            return None;
        }
        let n = bytes[3] as usize;
        let entry = bytes[4] as usize;
        let mut program = Program::new();
        program.set_entry_point(entry);
        let mut cur: usize = 5;
        let mut i: usize = 0;
        proof {
            assert(program.kind_blocks() =~= Seq::<Seq<InstructionKind>>::empty());
            match decode_blocks(bs.skip(5), n as nat) {
                Some((blocks, used)) => {
                    assert(Seq::<Seq<InstructionKind>>::empty() + blocks =~= blocks);
                },
                None => {},
            }
        }
        while i < n
            invariant
                i <= n,
                5 <= cur <= bs.len(),
                bs == bytes@,
                n == bs[3] as nat,
                program.entry_point == entry,
                entry == bs[4] as usize,
                program.strings@.len() == 0,
                program.functions@.len() == 0,
                decode_blocks(bs.skip(5), n as nat) == joined(
                    program.kind_blocks(),
                    cur - 5,
                    decode_blocks(bs.skip(cur as int), (n - i) as nat),
                ),
            decreases n - i,
        {
            let ghost done = program.kind_blocks();
            if cur >= bytes.len() {
                return None;
            }
            let count = bytes[cur] as usize;
            proof {
                assert(bs.skip(cur as int).skip(1) =~= bs.skip(cur + 1));
            }
            match decode_kinds_at(bytes, cur + 1, count) {
                None => {
                    return None;
                },
                Some((instructions, next)) => {
                    let ghost ks = kinds(instructions@);
                    proof {
                        assert(bs.skip(cur as int).skip(1 + (next - cur - 1)) =~= bs.skip(next as int));
                        match decode_blocks(bs.skip(next as int), (n - i - 1) as nat) {
                            Some((more, u)) => {
                                assert(done + (seq![ks] + more) =~= done.push(ks) + more);
                            },
                            None => {},
                        }
                    }
                    program.blocks.push(Block { instructions });
                    proof {
                        assert(program.kind_blocks() =~= done.push(ks));
                    }
                    cur = next;
                },
            }
            i = i + 1;
        }
        proof {
            assert(program.kind_blocks() + Seq::<Seq<InstructionKind>>::empty() =~= program.kind_blocks());
        }
        if cur != bytes.len() {
            return None;
        }
        Some(program)
    }
}

} // verus!
