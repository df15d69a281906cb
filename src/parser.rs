use vstd::prelude::*;
use crate::ast::{AstNode, Block};
use crate::error::ParseError;
use crate::location::{combined, Location};
use crate::token::{Token, TokenKind};

verus! {

broadcast use vstd::std_specs::vec::group_vec_axioms;

/// A syntax tree as a mathematical value, each node with its location.
pub enum Tree {
    Int(i64, Location),
    Float(u64, Location),
    Str(Seq<char>, Location),
    Bool(bool, Location),
    Ident(Seq<char>, Location),
    Call(Seq<char>, Location),
    If(Seq<Tree>, Option<Seq<Tree>>, Location),
    While(Seq<Tree>, Seq<Tree>, Location),
    Fun(Seq<char>, Seq<Tree>, Location),
}

pub open spec fn tree_location(t: Tree) -> Location {
    match t {
        Tree::Int(_, l) => l,
        Tree::Float(_, l) => l,
        Tree::Str(_, l) => l,
        Tree::Bool(_, l) => l,
        Tree::Ident(_, l) => l,
        Tree::Call(_, l) => l,
        Tree::If(_, _, l) => l,
        Tree::While(_, _, l) => l,
        Tree::Fun(_, _, l) => l,
    }
}

/// The location of a construct that starts at `start` and whose last
/// nested node is the last of `ts`: the two combined, or `start` alone
/// when `ts` is empty.
pub open spec fn spanning(start: Location, ts: Seq<Tree>) -> Location {
    if ts.len() == 0 {
        combined(start, start)
    } else {
        combined(start, tree_location(ts.last()))
    }
}

pub open spec fn tree(node: AstNode) -> Tree
    decreases node,
{
    match node {
        AstNode::IntegerLiteral(v, l) => Tree::Int(v, l),
        AstNode::FloatLiteral(v, l) => Tree::Float(v, l),
        AstNode::StringLiteral(s, l) => Tree::Str(s@, l),
        AstNode::BooleanLiteral(b, l) => Tree::Bool(b, l),
        AstNode::Identifier(s, l) => Tree::Ident(s@, l),
        AstNode::FunctionCall { name, location } => Tree::Call(name@, location),
        AstNode::IfExpression { then_branch, else_branch, location } => Tree::If(
            trees(then_branch.nodes@),
            match else_branch {
                Some(b) => Some(trees(b.nodes@)),
                None => None,
            },
            location,
        ),
        AstNode::WhileExpression { condition, body, location } => Tree::While(
            trees(condition.nodes@),
            trees(body.nodes@),
            location,
        ),
        AstNode::FunctionDeclaration { name, body, location } => Tree::Fun(
            name@,
            trees(body.nodes@),
            location,
        ),
    }
}

pub open spec fn trees(nodes: Seq<AstNode>) -> Seq<Tree>
    decreases nodes,
{
    if nodes.len() == 0 {
        Seq::empty()
    } else {
        trees(nodes.drop_last()).push(tree(nodes.last()))
    }
}

/// The built-in operator that a token stands for.
pub open spec fn operator_name(kind: TokenKind) -> Option<Seq<char>> {
    match kind {
        TokenKind::Plus => Some("__plus"@),
        TokenKind::Minus => Some("__minus"@),
        TokenKind::Star => Some("__mult"@),
        TokenKind::Slash => Some("__div"@),
        TokenKind::Percent => Some("__mod"@),
        TokenKind::Bang | TokenKind::Not => Some("__not"@),
        TokenKind::Greater => Some("__gt"@),
        TokenKind::GreaterEqual => Some("__gte"@),
        TokenKind::Less => Some("__lt"@),
        TokenKind::LessEqual => Some("__lte"@),
        TokenKind::And => Some("__and"@),
        TokenKind::Or => Some("__or"@),
        TokenKind::EqualEqual => Some("__eqeq"@),
        TokenKind::BangEqual => Some("__noteq"@),
        _ => None,
    }
}

/// Where a sequence of nodes ends.
#[derive(Debug, Clone, Copy, PartialEq, Eq, Structural)]
pub enum Stop {
    /// Only at the end of the tokens.
    Nothing,
    /// At `end`.
    End,
    /// At `do`.
    Do,
    /// At `else` or `end`.
    ElseOrEnd,
}

/// The token at `pos` ends a sequence of nodes.
pub open spec fn stops(toks: Seq<Token>, pos: int, stop: Stop) -> bool {
    pos >= toks.len() || toks[pos].kind == TokenKind::EOF || match stop {
        Stop::Nothing => false,
        Stop::End => toks[pos].kind == TokenKind::End,
        Stop::Do => toks[pos].kind == TokenKind::Do,
        Stop::ElseOrEnd => toks[pos].kind == TokenKind::Else || toks[pos].kind == TokenKind::End,
    }
}

pub open spec fn is_kind(toks: Seq<Token>, pos: int, kind: TokenKind) -> bool {
    0 <= pos < toks.len() && toks[pos].kind == kind
}

/// Nodes up to `stop` and then an `end`, which is consumed.
pub open spec fn parse_block(toks: Seq<Token>, pos: int) -> Result<(Seq<Tree>, int), int>
    decreases toks.len() - pos, 2int,
{
    match parse_nodes(toks, pos, Stop::End) {
        Ok((ts, e)) => if is_kind(toks, e, TokenKind::End) {
            Ok((ts, e + 1))
        } else {
            Err(e)
        },
        Err(e) => Err(e),
    }
}

/// The node that starts at `pos` and the index past it, or the index of
/// the first token that does not fit.
pub open spec fn parse_node(toks: Seq<Token>, pos: int) -> Result<(Tree, int), int>
    decreases toks.len() - pos, 0int,
{
    if pos < 0 || pos >= toks.len() {
        Err(pos)
    } else {
        let n = pos + 1;
        let l = toks[pos].location;
        match toks[pos].kind {
            TokenKind::Integer(v) => Ok((Tree::Int(v, l), n)),
            TokenKind::Float(v) => Ok((Tree::Float(v, l), n)),
            TokenKind::String(s) => Ok((Tree::Str(s@, l), n)),
            TokenKind::True => Ok((Tree::Bool(true, l), n)),
            TokenKind::False => Ok((Tree::Bool(false, l), n)),
            TokenKind::Identifier(s) => Ok((Tree::Ident(s@, l), n)),
            TokenKind::Fun => if n < toks.len() && toks[n].kind is Identifier {
                if is_kind(toks, n + 1, TokenKind::Do) {
                    match parse_block(toks, n + 2) {
                        Ok((ts, e)) => Ok((Tree::Fun(toks[n].kind->Identifier_0@, ts, spanning(l, ts)), e)),
                        Err(e) => Err(e),
                    }
                } else {
                    Err(n + 1)
                }
            } else {
                Err(n)
            },
            TokenKind::While => match parse_nodes(toks, n, Stop::Do) {
                Ok((c, e)) => if e < n {
                    Err(e)
                } else if is_kind(toks, e, TokenKind::Do) {
                    match parse_block(toks, e + 1) {
                        Ok((b, e2)) => Ok((Tree::While(c, b, spanning(l, b)), e2)),
                        Err(e2) => Err(e2),
                    }
                } else {
                    Err(e)
                },
                Err(e) => Err(e),
            },
            TokenKind::If => match parse_nodes(toks, n, Stop::ElseOrEnd) {
                Ok((t, e)) => if e < n {
                    Err(e)
                } else if is_kind(toks, e, TokenKind::Else) {
                    match parse_block(toks, e + 1) {
                        Ok((b, e2)) => Ok((Tree::If(t, Some(b), spanning(l, b)), e2)),
                        Err(e2) => Err(e2),
                    }
                } else if is_kind(toks, e, TokenKind::End) {
                    Ok((Tree::If(t, None, spanning(l, t)), e + 1))
                } else {
                    Err(e)
                },
                Err(e) => Err(e),
            },
            TokenKind::Call => if n < toks.len() && toks[n].kind is Identifier {
                Ok((Tree::Call(toks[n].kind->Identifier_0@, l), n + 1))
            } else {
                Err(n)
            },
            k => match operator_name(k) {
                Some(name) => Ok((Tree::Call(name, l), n)),
                None => Err(pos),
            },
        }
    }
}

/// The nodes from `pos` up to `stop` (not consumed) and the index where
/// they stop, or the index of the first token that does not fit.
pub open spec fn parse_nodes(toks: Seq<Token>, pos: int, stop: Stop) -> Result<(Seq<Tree>, int), int>
    decreases toks.len() - pos, 1int,
{
    if pos < 0 || stops(toks, pos, stop) {
        Ok((Seq::empty(), pos))
    } else {
        match parse_node(toks, pos) {
            Err(e) => Err(e),
            Ok((t, p)) => if p <= pos || p > toks.len() {
                Err(pos)
            } else {
                match parse_nodes(toks, p, stop) {
                    Ok((ts, e)) => Ok((seq![t] + ts, e)),
                    Err(e) => Err(e),
                }
            },
        }
    }
}

/// `done` followed by the nodes of `rest`.
pub open spec fn prepended(done: Seq<Tree>, rest: Result<(Seq<Tree>, int), int>) -> Result<(Seq<Tree>, int), int> {
    match rest {
        Ok((ts, e)) => Ok((done + ts, e)),
        Err(e) => Err(e),
    }
}

fn stops_at(toks: &Vec<Token>, pos: usize, stop: Stop) -> (r: bool)
    ensures
        r == stops(toks@, pos as int, stop),
{
    if pos >= toks.len() {
        return true;
    }
    match &toks[pos].kind {
        TokenKind::EOF => true,
        TokenKind::End => matches!(stop, Stop::End | Stop::ElseOrEnd),
        TokenKind::Do => matches!(stop, Stop::Do),
        TokenKind::Else => matches!(stop, Stop::ElseOrEnd),
        _ => false,
    }
}

fn operator_of(kind: &TokenKind) -> (r: Option<String>)
    ensures
        match operator_name(*kind) {
            Some(name) => r is Some && r->Some_0@ == name,
            None => r is None,
        },
{
    let name = match kind {
        TokenKind::Plus => "__plus",
        TokenKind::Minus => "__minus",
        TokenKind::Star => "__mult",
        TokenKind::Slash => "__div",
        TokenKind::Percent => "__mod",
        TokenKind::Bang | TokenKind::Not => "__not",
        TokenKind::Greater => "__gt",
        TokenKind::GreaterEqual => "__gte",
        TokenKind::Less => "__lt",
        TokenKind::LessEqual => "__lte",
        TokenKind::And => "__and",
        TokenKind::Or => "__or",
        TokenKind::EqualEqual => "__eqeq",
        TokenKind::BangEqual => "__noteq",
        _ => return None,
    };
    Some(String::from_str(name))
}

/// The location of a block's last node, or `fallback` for an empty block.
fn last_location(block: &Block, fallback: Location) -> (r: Location)
    ensures
        combined(fallback, r) == spanning(fallback, trees(block.nodes@)),
{
    if block.nodes.len() == 0 {
        fallback
    } else {
        let r = *block.nodes[block.nodes.len() - 1].location();
        proof {
            let ns = block.nodes@;
            assert(trees(ns) == trees(ns.drop_last()).push(tree(ns.last())));
            assert(ns.last() == ns[ns.len() - 1]);
            assert(tree_location(tree(ns.last())) == ns.last().spec_location());
        }
        r
    }
}

/// The identifier at `pos`, if that token is one.
fn identifier_at(toks: &Vec<Token>, pos: usize) -> (r: Option<String>)
    ensures
        match r {
            Some(s) => pos < toks@.len() && toks@[pos as int].kind is Identifier
                && toks@[pos as int].kind->Identifier_0@ == s@,
            None => !(pos < toks@.len() && toks@[pos as int].kind is Identifier),
        },
{
    if pos < toks.len() {
        if let TokenKind::Identifier(name) = &toks[pos].kind {
            return Some(name.clone());
        }
    }
    None
}

fn kind_is_end(toks: &Vec<Token>, pos: usize) -> (r: bool)
    ensures
        r == is_kind(toks@, pos as int, TokenKind::End),
{
    pos < toks.len() && matches!(toks[pos].kind, TokenKind::End)
}

fn kind_is_do(toks: &Vec<Token>, pos: usize) -> (r: bool)
    ensures
        r == is_kind(toks@, pos as int, TokenKind::Do),
{
    pos < toks.len() && matches!(toks[pos].kind, TokenKind::Do)
}

fn kind_is_else(toks: &Vec<Token>, pos: usize) -> (r: bool)
    ensures
        r == is_kind(toks@, pos as int, TokenKind::Else),
{
    pos < toks.len() && matches!(toks[pos].kind, TokenKind::Else)
}

/// Parses the node that starts at `pos`; returns it and the index past it.
fn node_at(toks: &Vec<Token>, pos: usize) -> (r: Result<(AstNode, usize), ParseError>)
    requires
        pos <= toks@.len(),
    ensures
        match parse_node(toks@, pos as int) {
            Ok((t, e)) => r is Ok && tree(r->Ok_0.0) == t && r->Ok_0.1 == e,
            Err(e) => r == Err::<(AstNode, usize), ParseError>(ParseError::UnexpectedToken(e as usize)),
        },
        r is Ok ==> pos < r->Ok_0.1 <= toks@.len(),
        r is Ok && !(toks@[pos as int].kind is Fun || toks@[pos as int].kind is While
            || toks@[pos as int].kind is If) ==> r->Ok_0.0.spec_location() == toks@[pos as int].location,
    decreases toks@.len() - pos, 0int,
{
    if pos >= toks.len() {
        return Err(ParseError::UnexpectedToken(pos));
    }
    let location = toks[pos].location;
    let n = pos + 1;
    match &toks[pos].kind {
        TokenKind::Integer(v) => Ok((AstNode::IntegerLiteral(*v, location), n)),
        TokenKind::Float(v) => Ok((AstNode::FloatLiteral(*v, location), n)),
        TokenKind::String(text) => Ok((AstNode::StringLiteral(text.clone(), location), n)),
        TokenKind::True => Ok((AstNode::BooleanLiteral(true, location), n)),
        TokenKind::False => Ok((AstNode::BooleanLiteral(false, location), n)),
        TokenKind::Identifier(name) => Ok((AstNode::Identifier(name.clone(), location), n)),
        TokenKind::Fun => {
            let name = match identifier_at(toks, n) {
                Some(name) => name,
                None => return Err(ParseError::UnexpectedToken(n)),
            };
            if !kind_is_do(toks, n + 1) {
                return Err(ParseError::UnexpectedToken(n + 1));
            }
            let (body, e) = match block_at(toks, n + 2) {
                Ok(r) => r,
                Err(err) => return Err(err),
            };
            let location = location.combine(&last_location(&body, location));
            Ok((AstNode::FunctionDeclaration { name, body, location }, e))
        },
        TokenKind::While => {
            let (condition, e) = match nodes_at(toks, n, Stop::Do) {
                Ok(r) => r,
                Err(err) => return Err(err),
            };
            if !kind_is_do(toks, e) {
                return Err(ParseError::UnexpectedToken(e));
            }
            let (body, e2) = match block_at(toks, e + 1) {
                Ok(r) => r,
                Err(err) => return Err(err),
            };
            let location = location.combine(&last_location(&body, location));
            Ok((AstNode::WhileExpression { condition: Block::new(condition), body, location }, e2))
        },
        TokenKind::If => {
            let (nodes, e) = match nodes_at(toks, n, Stop::ElseOrEnd) {
                Ok(r) => r,
                Err(err) => return Err(err),
            };
            let then_branch = Block::new(nodes);
            if kind_is_else(toks, e) {
                let (else_block, e2) = match block_at(toks, e + 1) {
                    Ok(r) => r,
                    Err(err) => return Err(err),
                };
                let location = location.combine(&last_location(&else_block, location));
                Ok((AstNode::IfExpression { then_branch, else_branch: Some(else_block), location }, e2))
            } else if kind_is_end(toks, e) {
                let location = location.combine(&last_location(&then_branch, location));
                Ok((AstNode::IfExpression { then_branch, else_branch: None, location }, e + 1))
            } else {
                Err(ParseError::UnexpectedToken(e))
            }
        },
        TokenKind::Call => match identifier_at(toks, n) {
            Some(name) => Ok((AstNode::FunctionCall { name, location }, n + 1)),
            None => Err(ParseError::UnexpectedToken(n)),
        },
        kind => match operator_of(kind) {
            Some(name) => Ok((AstNode::FunctionCall { name, location }, n)),
            None => Err(ParseError::UnexpectedToken(pos)),
        },
    }
}

/// Parses nodes from `pos` up to `stop`, which is not consumed.
fn nodes_at(toks: &Vec<Token>, pos: usize, stop: Stop) -> (r: Result<(Vec<AstNode>, usize), ParseError>)
    requires
        pos <= toks@.len(),
    ensures
        match parse_nodes(toks@, pos as int, stop) {
            Ok((ts, e)) => r is Ok && trees(r->Ok_0.0@) == ts && r->Ok_0.1 == e,
            Err(e) => r == Err::<(Vec<AstNode>, usize), ParseError>(ParseError::UnexpectedToken(e as usize)),
        },
        r is Ok ==> pos <= r->Ok_0.1 <= toks@.len(),
    decreases toks@.len() - pos, 1int,
{
    let mut nodes: Vec<AstNode> = Vec::new();
    let mut cur = pos;
    proof {
        assert(prepended(trees(nodes@), parse_nodes(toks@, cur as int, stop)) =~= parse_nodes(toks@, pos as int, stop)) by {
            match parse_nodes(toks@, pos as int, stop) {
                Ok((ts, e)) => {
                    assert(Seq::<Tree>::empty() + ts =~= ts);
                },
                Err(e) => {},
            }
        }
    }
    loop
        invariant
            pos <= cur <= toks@.len(),
            parse_nodes(toks@, pos as int, stop) == prepended(trees(nodes@), parse_nodes(toks@, cur as int, stop)),
        decreases toks@.len() - cur,
    {
        if stops_at(toks, cur, stop) {
            proof {
                assert(trees(nodes@) + Seq::<Tree>::empty() =~= trees(nodes@));
            }
            return Ok((nodes, cur));
        }
        let ghost done = trees(nodes@);
        match node_at(toks, cur) {
            Err(err) => {
                return Err(err);
            },
            Ok((node, p)) => {
                proof {
                    let t = tree(node);
                    match parse_nodes(toks@, p as int, stop) {
                        Ok((ts, e)) => {
                            assert(done + (seq![t] + ts) =~= done.push(t) + ts);
                        },
                        Err(e) => {},
                    }
                }
                let ghost before = nodes@;
                let ghost t = tree(node);
                nodes.push(node);
                proof {
                    assert(nodes@.drop_last() =~= before);
                    assert(trees(nodes@) == done.push(t));
                }
                cur = p;
            },
        }
    }
}

/// Parses nodes up to an `end`, which is consumed.
fn block_at(toks: &Vec<Token>, pos: usize) -> (r: Result<(Block, usize), ParseError>)
    requires
        pos <= toks@.len(),
    ensures
        match parse_block(toks@, pos as int) {
            Ok((ts, e)) => r is Ok && trees(r->Ok_0.0.nodes@) == ts && r->Ok_0.1 == e,
            Err(e) => r == Err::<(Block, usize), ParseError>(ParseError::UnexpectedToken(e as usize)),
        },
        r is Ok ==> pos < r->Ok_0.1 <= toks@.len(),
    decreases toks@.len() - pos, 2int,
{
    let (nodes, e) = match nodes_at(toks, pos, Stop::End) {
        Ok(r) => r,
        Err(err) => return Err(err),
    };
    if !kind_is_end(toks, e) {
        return Err(ParseError::UnexpectedToken(e));
    }
    let len = toks.len();
    assert(e < len);
    Ok((Block::new(nodes), e + 1))
}

/// Turns a token sequence into the syntax tree of a program.
#[derive(Debug)]
pub struct Parser {
    pub tokens: Vec<Token>,
    pub current: usize,
}

impl Parser {
    pub fn new(tokens: Vec<Token>) -> (r: Parser)
        ensures
            r.tokens == tokens,
            r.current == 0,
    {
        Parser { tokens, current: 0 }
    }

    /// Parses top-level nodes up to the end of the tokens or `EOF`.
    pub fn parse(&mut self) -> (r: Result<Vec<AstNode>, ParseError>)
        requires
            old(self).current <= old(self).tokens@.len(),
        ensures
            final(self).tokens == old(self).tokens,
            match parse_nodes(old(self).tokens@, old(self).current as int, Stop::Nothing) {
                Ok((ts, e)) => r is Ok && trees(r->Ok_0@) == ts && final(self).current == e,
                Err(e) => r == Err::<Vec<AstNode>, ParseError>(ParseError::UnexpectedToken(e as usize)),
            },
    {
        match nodes_at(&self.tokens, self.current, Stop::Nothing) {
            Ok((nodes, e)) => {
                self.current = e;
                Ok(nodes)
            },
            Err(err) => Err(err),
        }
    }
}

} // verus!
