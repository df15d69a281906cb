use vstd::prelude::*;
use crate::location::Location;

verus! {

/// A sequence of syntax-tree nodes: a function body or a branch.
#[derive(Debug)]
pub struct Block {
    pub nodes: Vec<AstNode>,
}

impl Block {
    pub fn new(nodes: Vec<AstNode>) -> (r: Block)
        ensures
            r.nodes == nodes,
    {
        Block { nodes }
    }
}

/// A node of the syntax tree that the front end produces. A float literal
/// is held as its IEEE-754 binary64 bit pattern.
#[derive(Debug)]
pub enum AstNode {
    IntegerLiteral(i64, Location),
    FloatLiteral(u64, Location),
    StringLiteral(String, Location),
    BooleanLiteral(bool, Location),
    /// A bare word: a stack primitive or a function name.
    Identifier(String, Location),
    /// A built-in operator or an explicit call of a function.
    FunctionCall { name: String, location: Location },
    IfExpression { then_branch: Block, else_branch: Option<Block>, location: Location },
    WhileExpression { condition: Block, body: Block, location: Location },
    FunctionDeclaration { name: String, body: Block, location: Location },
}

impl AstNode {
    pub open spec fn spec_location(&self) -> Location {
        match self {
            AstNode::IntegerLiteral(_, location) => *location,
            AstNode::FloatLiteral(_, location) => *location,
            AstNode::StringLiteral(_, location) => *location,
            AstNode::BooleanLiteral(_, location) => *location,
            AstNode::Identifier(_, location) => *location,
            AstNode::FunctionCall { location, .. } => *location,
            AstNode::IfExpression { location, .. } => *location,
            AstNode::WhileExpression { location, .. } => *location,
            AstNode::FunctionDeclaration { location, .. } => *location,
        }
    }

    pub fn location(&self) -> (r: &Location)
        ensures
            *r == self.spec_location(),
    {
        match self {
            AstNode::IntegerLiteral(_, location) => location,
            AstNode::FloatLiteral(_, location) => location,
            AstNode::StringLiteral(_, location) => location,
            AstNode::BooleanLiteral(_, location) => location,
            AstNode::Identifier(_, location) => location,
            AstNode::FunctionCall { location, .. } => location,
            AstNode::IfExpression { location, .. } => location,
            AstNode::WhileExpression { location, .. } => location,
            AstNode::FunctionDeclaration { location, .. } => location,
        }
    }
}

} // verus!
