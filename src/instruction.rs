use vstd::prelude::*;
use crate::location::Location;

verus! {

/// An operation of the stack machine with its immediate operand, if any.
#[derive(Debug, Clone, Copy, PartialEq, Eq, Structural)]
pub enum InstructionKind {
    NoOp,
    /// A placeholder for a jump whose target is not known yet; lowering
    /// always overwrites it.
    Patch,

    LoadI64(i64),
    /// Pushes a float, given as its IEEE-754 binary64 bit pattern.
    LoadF64(u64),
    LoadBool(bool),
    /// Pushes the interned string at this index of the string table.
    LoadConstant(usize),

    /// Calls the function whose body is the block at this index.
    Call(usize),

    Add,
    Sub,
    Mul,
    Div,
    Mod,
    Not,
    And,
    Or,
    Equals,
    NotEquals,
    LessThan,
    LessThanEquals,
    GreaterThan,
    GreaterThanEquals,
    Dup,
    Drop,
    Swap,
    Over,
    Print,

    /// Jumps to this index of the current block.
    Jump(usize),
    /// Pops a boolean and jumps to this index of the current block when it
    /// is false.
    JumpIfFalse(usize),

    DebugStack,

    Return,
    Halt,
}

/// An operation and the source location it was lowered from.
#[derive(Debug, Clone, Copy, PartialEq, Eq, Structural)]
pub struct Instruction {
    pub kind: InstructionKind,
    pub location: Location,
}

impl Instruction {
    pub fn new(kind: InstructionKind, location: &Location) -> (r: Self)
        ensures
            r.kind == kind,
            r.location == *location,
    {
        Instruction { kind, location: *location }
    }
}

} // verus!
