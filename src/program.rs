use vstd::prelude::*;
use crate::instruction::{Instruction, InstructionKind};

verus! {

/// The compiled body of one function: an ordered sequence of instructions
/// that grows at the end and whose entries can be overwritten in place.
#[derive(Debug, Clone)]
pub struct Block {
    pub instructions: Vec<Instruction>,
}

impl Block {
    pub fn new() -> (r: Self)
        ensures
            r.instructions@ == Seq::<Instruction>::empty(),
    {
        Block { instructions: Vec::new() }
    }

    /// Appends an instruction and returns its index.
    pub fn add_instruction(&mut self, instruction: Instruction) -> (r: usize)
        ensures
            final(self).instructions@ == old(self).instructions@.push(instruction),
            r == old(self).instructions@.len(),
    {
        self.instructions.push(instruction);
        self.instructions.len() - 1
    }

    /// Overwrites the instruction at `index`.
    pub fn patch_instruction(&mut self, index: usize, instruction: Instruction)
        requires
            index < old(self).instructions@.len(),
        ensures
            final(self).instructions@ == old(self).instructions@.update(index as int, instruction),
    {
        self.instructions.set(index, instruction);
    }
}

/// One entry of the function table: a declared name and its block.
#[derive(Debug, Clone)]
pub struct FunctionEntry {
    pub name: String,
    pub block: usize,
}

/// The block that the latest entry for `name` maps to.
pub open spec fn lookup(entries: Seq<FunctionEntry>, name: Seq<char>) -> Option<usize>
    decreases entries.len(),
{
    if entries.len() == 0 {
        None
    } else if entries.last().name@ == name {
        Some(entries.last().block)
    } else {
        lookup(entries.drop_last(), name)
    }
}

/// No string occurs twice in the table.
pub open spec fn distinct(strings: Seq<Seq<char>>) -> bool {
    forall|i: int, j: int|
        0 <= i < strings.len() && 0 <= j < strings.len() && strings[i] == strings[j] ==> i == j
}

/// The table after interning `s`, and the index of `s` in it.
pub open spec fn intern(strings: Seq<Seq<char>>, s: Seq<char>) -> (Seq<Seq<char>>, int) {
    if strings.contains(s) {
        (strings, choose|i: int| 0 <= i < strings.len() && strings[i] == s)
    } else {
        (strings.push(s), strings.len() as int)
    }
}

/// An instruction that the stack machine can execute against a string table
/// of `n` entries: no placeholder, and constants in range.
pub open spec fn executable(instruction: Instruction, n: nat) -> bool {
    match instruction.kind {
        InstructionKind::Patch => false,
        InstructionKind::LoadConstant(i) => i < n,
        _ => true,
    }
}

/// A compiled program: its blocks, the entry block, the interned strings and
/// the function table.
#[derive(Debug, Clone)]
pub struct Program {
    pub blocks: Vec<Block>,
    pub entry_point: usize,
    pub strings: Vec<String>,
    /// The function table, as a list in which the latest entry for a name
    /// wins, as an insert into a map would. It is not a `HashMap<String,
    /// usize>`: vstd models hash-map lookups only for key types it knows to
    /// hash consistently (integers and `bool`), not `String`, so nothing
    /// about such a map could be proved without an assumption.
    pub functions: Vec<FunctionEntry>,
}

impl Program {
    /// The string table as character sequences.
    pub open spec fn string_table(&self) -> Seq<Seq<char>> {
        self.strings@.map_values(|s: String| s@)
    }

    /// The block that `name` maps to, if it is declared.
    pub open spec fn function(&self, name: Seq<char>) -> Option<usize> {
        lookup(self.functions@, name)
    }

    /// The instructions of each block.
    pub open spec fn code(&self) -> Seq<Seq<Instruction>> {
        self.blocks@.map_values(|b: Block| b.instructions@)
    }

    /// Every instruction is executable and the string table has no
    /// duplicates.
    pub open spec fn runnable(&self) -> bool {
        &&& distinct(self.string_table())
        &&& forall|b: int, i: int|
            0 <= b < self.code().len() && 0 <= i < self.code()[b].len() ==> executable(
                #[trigger] self.code()[b][i],
                self.strings@.len(),
            )
    }

    pub fn new() -> (r: Self)
        ensures
            r.blocks@.len() == 0,
            r.entry_point == 0,
            r.strings@.len() == 0,
            r.functions@.len() == 0,
    {
        Program { blocks: Vec::new(), entry_point: 0, strings: Vec::new(), functions: Vec::new() }
    }

    /// Appends an empty block and returns its index.
    pub fn add_block(&mut self) -> (r: usize)
        ensures
            final(self).code() == old(self).code().push(Seq::<Instruction>::empty()),
            final(self).entry_point == old(self).entry_point,
            final(self).strings == old(self).strings,
            final(self).functions == old(self).functions,
            r == old(self).blocks@.len(),
    {
        self.blocks.push(Block::new());
        proof {
            assert(self.code() =~= old(self).code().push(Seq::<Instruction>::empty()));
        }
        self.blocks.len() - 1
    }

    /// Appends an instruction to the block at `block_id`.
    pub fn add_instruction_at(&mut self, block_id: usize, instruction: Instruction)
        requires
            block_id < old(self).blocks@.len(),
        ensures
            final(self).code() == old(self).code().update(
                block_id as int,
                old(self).code()[block_id as int].push(instruction),
            ),
            final(self).blocks@.len() == old(self).blocks@.len(),
            final(self).entry_point == old(self).entry_point,
            final(self).strings == old(self).strings,
            final(self).functions == old(self).functions,
    {
        self.blocks[block_id].instructions.push(instruction);
        proof {
            assert(self.code() =~= old(self).code().update(
                block_id as int,
                old(self).code()[block_id as int].push(instruction),
            ));
        }
    }

    pub fn set_entry_point(&mut self, entry_point: usize)
        ensures
            final(self).entry_point == entry_point,
            final(self).blocks == old(self).blocks,
            final(self).strings == old(self).strings,
            final(self).functions == old(self).functions,
    {
        self.entry_point = entry_point;
    }

    /// Interns `string`: returns the index of an equal entry of the string
    /// table, appending one first when there is none.
    pub fn add_string(&mut self, string: &String) -> (r: usize)
        requires
            distinct(old(self).string_table()),
        ensures
            (final(self).string_table(), r as int) == intern(old(self).string_table(), string@),
            distinct(final(self).string_table()),
            final(self).blocks == old(self).blocks,
            final(self).entry_point == old(self).entry_point,
            final(self).functions == old(self).functions,
    {
        let ghost table = self.string_table();
        let mut i: usize = 0;
        while i < self.strings.len()
            invariant
                table == self.string_table(),
                distinct(table),
                i <= self.strings@.len(),
                forall|j: int| 0 <= j < i ==> table[j] != string@,
            decreases self.strings@.len() - i,
        {
            proof {
                assert(table[i as int] == self.strings@[i as int]@);
            }
            if self.strings[i] == *string {
                proof {
                    assert(table.contains(string@) && table[i as int] == string@);
                    let k = choose|k: int| 0 <= k < table.len() && table[k] == string@;
                    assert(k == i);
                }
                return i;
            }
            i = i + 1;
        }
        proof {
            assert(!table.contains(string@));
        }
        self.strings.push(string.clone());
        proof {
            assert(self.string_table() =~= table.push(string@));
        }
        self.strings.len() - 1
    }

    /// Registers `name` as the function whose body is the block at
    /// `block_id`; a later registration of the same name takes precedence.
    pub fn add_function(&mut self, name: &String, block_id: usize)
        ensures
            final(self).functions@ == old(self).functions@.push(
                (FunctionEntry { name: *name, block: block_id }),
            ),
            forall|n: Seq<char>| #[trigger] final(self).function(n)
                == if n == name@ { Some(block_id) } else { old(self).function(n) },
            final(self).blocks == old(self).blocks,
            final(self).entry_point == old(self).entry_point,
            final(self).strings == old(self).strings,
    {
        let entry = FunctionEntry { name: name.clone(), block: block_id };
        self.functions.push(entry);
        proof {
            assert(self.functions@.drop_last() =~= old(self).functions@);
        }
    }

    /// The block that `name` maps to, if it is declared.
    pub fn find_function(&self, name: &String) -> (r: Option<usize>)
        ensures
            r == self.function(name@),
    {
        let mut i: usize = self.functions.len();
        proof {
            assert(self.functions@.take(i as int) =~= self.functions@);
        }
        while i > 0
            invariant
                i <= self.functions@.len(),
                lookup(self.functions@, name@) == lookup(self.functions@.take(i as int), name@),
            decreases i,
        {
            proof {
                assert(self.functions@.take(i as int).drop_last() =~= self.functions@.take(i - 1));
            }
            if self.functions[i - 1].name == *name {
                return Some(self.functions[i - 1].block);
            }
            i = i - 1;
        }
        None
    }

    /// Overwrites the instruction at `index` of the block at `block_id`.
    pub fn patch_instruction_at(&mut self, block_id: usize, index: usize, instruction: Instruction)
        requires
            block_id < old(self).blocks@.len(),
            index < old(self).code()[block_id as int].len(),
        ensures
            final(self).code() == old(self).code().update(
                block_id as int,
                old(self).code()[block_id as int].update(index as int, instruction),
            ),
            final(self).blocks@.len() == old(self).blocks@.len(),
            final(self).entry_point == old(self).entry_point,
            final(self).strings == old(self).strings,
            final(self).functions == old(self).functions,
    {
        self.blocks[block_id].instructions.set(index, instruction);
        proof {
            assert(self.code() =~= old(self).code().update(
                block_id as int,
                old(self).code()[block_id as int].update(index as int, instruction),
            ));
        }
    }

    /// The number of instructions in the block at `block_id`.
    pub fn block_len(&self, block_id: usize) -> (r: usize)
        requires
            block_id < self.blocks@.len(),
        ensures
            r == self.code()[block_id as int].len(),
    {
        self.blocks[block_id].instructions.len()
    }
}

} // verus!
