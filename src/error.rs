use vstd::prelude::*;
use crate::location::Location;

verus! {

/// Failure while lowering a syntax tree.
#[derive(Debug, Clone, PartialEq)]
pub enum CompilerError {
    /// A call or bare identifier that is neither a built-in operator, a stack
    /// primitive, nor a declared function.
    UnknownFunction(String),
}

/// Failure to parse a token sequence.
#[derive(Debug, Clone, Copy, PartialEq, Eq, Structural)]
pub enum ParseError {
    /// The token at this index does not fit the grammar there; an index
    /// equal to the number of tokens means the tokens ended too early.
    UnexpectedToken(usize),
}

/// Failure of the declaration pass that runs before lowering.
#[derive(Debug, Clone, Copy, PartialEq, Eq, Structural)]
pub enum ResolverError {
    /// An explicit call to the implicit entry function `main`.
    CallToMain(Location),
}

/// Failure while executing a program; each carries the location of the
/// instruction that failed.
#[derive(Debug, Clone, Copy, PartialEq, Eq, Structural)]
pub enum RuntimeError {
    /// An operand was required but the stack was empty.
    StackUnderflow(Location),
    /// The operands' variants do not fit the opcode.
    InvalidTypes(Location),
    /// An integer remainder with a zero divisor.
    DivisionByZero(Location),
}

} // verus!
