use vstd::prelude::*;
use vstd::string::*;
use crate::ast::AstNode;
use crate::error::CompilerError;
use crate::instruction::{Instruction, InstructionKind};
use crate::location::Location;
use crate::program::{distinct, executable, intern, lookup, FunctionEntry, Program};

verus! {

broadcast use vstd::std_specs::vec::group_vec_axioms;

/// The state of lowering as a mathematical value: the instructions of each
/// block, the string table and the block being filled.
pub struct Lowering {
    pub code: Seq<Seq<Instruction>>,
    pub strings: Seq<Seq<char>>,
    pub current: usize,
}

/// The opcode of a built-in operator call.
pub open spec fn operator(name: Seq<char>) -> Option<InstructionKind> {
    if name == "__plus"@ {
        Some(InstructionKind::Add)
    } else if name == "__minus"@ {
        Some(InstructionKind::Sub)
    } else if name == "__mult"@ {
        Some(InstructionKind::Mul)
    } else if name == "__div"@ {
        Some(InstructionKind::Div)
    } else if name == "__mod"@ {
        Some(InstructionKind::Mod)
    } else if name == "__not"@ {
        Some(InstructionKind::Not)
    } else if name == "__gt"@ {
        Some(InstructionKind::GreaterThan)
    } else if name == "__gte"@ {
        Some(InstructionKind::GreaterThanEquals)
    } else if name == "__lt"@ {
        Some(InstructionKind::LessThan)
    } else if name == "__lte"@ {
        Some(InstructionKind::LessThanEquals)
    } else if name == "__and"@ {
        Some(InstructionKind::And)
    } else if name == "__or"@ {
        Some(InstructionKind::Or)
    } else if name == "__eqeq"@ {
        Some(InstructionKind::Equals)
    } else if name == "__noteq"@ {
        Some(InstructionKind::NotEquals)
    } else if name == "()__quit"@ {
        Some(InstructionKind::Halt)
    } else {
        None
    }
}

/// The opcode of a stack primitive named by a bare word.
pub open spec fn primitive(name: Seq<char>) -> Option<InstructionKind> {
    if name == "dup"@ {
        Some(InstructionKind::Dup)
    } else if name == "drop"@ {
        Some(InstructionKind::Drop)
    } else if name == "print"@ {
        Some(InstructionKind::Print)
    } else if name == "swap"@ {
        Some(InstructionKind::Swap)
    } else if name == "over"@ {
        Some(InstructionKind::Over)
    } else if name == "???"@ {
        Some(InstructionKind::DebugStack)
    } else {
        None
    }
}

/// The number of instructions in the current block.
pub open spec fn cursor(s: Lowering) -> int {
    s.code[s.current as int].len() as int
}

/// `s` with `instruction` appended to the current block.
pub open spec fn emit(s: Lowering, instruction: Instruction) -> Lowering {
    Lowering { code: s.code.update(s.current as int, s.code[s.current as int].push(instruction)), ..s }
}

/// `s` with the instruction at `index` of the current block overwritten.
pub open spec fn patch(s: Lowering, index: int, instruction: Instruction) -> Lowering {
    Lowering {
        code: s.code.update(s.current as int, s.code[s.current as int].update(index, instruction)),
        ..s
    }
}

/// Appends the opcode for a call form named `name`: a built-in
/// (`builtin(name)`) or a call of a declared function.
pub open spec fn lower_call(
    s: Lowering,
    functions: Seq<FunctionEntry>,
    name: String,
    builtin: Option<InstructionKind>,
    location: Location,
) -> Result<Lowering, CompilerError> {
    match builtin {
        Some(kind) => Ok(emit(s, Instruction { kind, location })),
        None => match lookup(functions, name@) {
            Some(b) => Ok(emit(s, Instruction { kind: InstructionKind::Call(b), location })),
            None => Err(CompilerError::UnknownFunction(name)),
        },
    }
}

/// Lowers one node into the current block.
pub open spec fn lower_node(s: Lowering, functions: Seq<FunctionEntry>, node: AstNode) -> Result<
    Lowering,
    CompilerError,
>
    decreases node,
{
    match node {
        AstNode::IntegerLiteral(v, location) => Ok(
            emit(s, Instruction { kind: InstructionKind::LoadI64(v), location }),
        ),
        AstNode::FloatLiteral(v, location) => Ok(
            emit(s, Instruction { kind: InstructionKind::LoadF64(v), location }),
        ),
        AstNode::BooleanLiteral(v, location) => Ok(
            emit(s, Instruction { kind: InstructionKind::LoadBool(v), location }),
        ),
        AstNode::StringLiteral(text, location) => {
            let (strings, index) = intern(s.strings, text@);
            Ok(
                emit(
                    Lowering { strings, ..s },
                    Instruction { kind: InstructionKind::LoadConstant(index as usize), location },
                ),
            )
        },
        AstNode::FunctionCall { name, location } => lower_call(
            s,
            functions,
            name,
            operator(name@),
            location,
        ),
        AstNode::Identifier(name, location) => lower_call(
            s,
            functions,
            name,
            primitive(name@),
            location,
        ),
        AstNode::FunctionDeclaration { name, body, location } => match lookup(functions, name@) {
            None => Err(CompilerError::UnknownFunction(name)),
            Some(b) => match lower_nodes(Lowering { current: b, ..s }, functions, body.nodes@) {
                Err(e) => Err(e),
                Ok(s1) => {
                    let kind = if name@ == "main"@ {
                        InstructionKind::Halt
                    } else {
                        InstructionKind::Return
                    };
                    Ok(Lowering { current: s.current, ..emit(s1, Instruction { kind, location }) })
                },
            },
        },
        AstNode::IfExpression { then_branch, else_branch, location } => {
            let placeholder = Instruction { kind: InstructionKind::Patch, location };
            let branch = cursor(s);
            match lower_nodes(emit(s, placeholder), functions, then_branch.nodes@) {
                Err(e) => Err(e),
                Ok(s1) => {
                    let exit = cursor(s1);
                    let s2 = emit(s1, placeholder);
                    let else_entry = cursor(s2);
                    let r3 = match else_branch {
                        None => Ok(s2),
                        Some(b) => lower_nodes(s2, functions, b.nodes@),
                    };
                    match r3 {
                        Err(e) => Err(e),
                        Ok(s3) => {
                            let s4 = patch(
                                s3,
                                branch,
                                Instruction {
                                    kind: InstructionKind::JumpIfFalse(else_entry as usize),
                                    location,
                                },
                            );
                            Ok(
                                patch(
                                    s4,
                                    exit,
                                    Instruction {
                                        kind: InstructionKind::Jump(cursor(s4) as usize),
                                        location,
                                    },
                                ),
                            )
                        },
                    }
                },
            }
        },
        AstNode::WhileExpression { condition, body, location } => {
            let start = cursor(s);
            match lower_nodes(s, functions, condition.nodes@) {
                Err(e) => Err(e),
                Ok(s1) => {
                    let exit = cursor(s1);
                    let s2 = emit(s1, Instruction { kind: InstructionKind::Patch, location });
                    match lower_nodes(s2, functions, body.nodes@) {
                        Err(e) => Err(e),
                        Ok(s3) => {
                            let s4 = emit(
                                s3,
                                Instruction { kind: InstructionKind::Jump(start as usize), location },
                            );
                            Ok(
                                patch(
                                    s4,
                                    exit,
                                    Instruction {
                                        kind: InstructionKind::JumpIfFalse(cursor(s4) as usize),
                                        location,
                                    },
                                ),
                            )
                        },
                    }
                },
            }
        },
    }
}

/// Lowers the nodes in order, stopping at the first error.
pub open spec fn lower_nodes(s: Lowering, functions: Seq<FunctionEntry>, nodes: Seq<AstNode>) -> Result<
    Lowering,
    CompilerError,
>
    decreases nodes,
{
    if nodes.len() == 0 {
        Ok(s)
    } else {
        match lower_nodes(s, functions, nodes.drop_last()) {
            Err(e) => Err(e),
            Ok(s1) => lower_node(s1, functions, nodes.last()),
        }
    }
}

/// Every function-table entry names an existing block.
pub open spec fn entries_below(functions: Seq<FunctionEntry>, n: nat) -> bool {
    forall|i: int| 0 <= i < functions.len() ==> (#[trigger] functions[i]).block < n
}

pub(crate) proof fn lemma_lookup_below(functions: Seq<FunctionEntry>, name: Seq<char>, n: nat)
    requires
        entries_below(functions, n),
    ensures
        lookup(functions, name) matches Some(b) ==> b < n,
    decreases functions.len(),
{
    if functions.len() > 0 {
        assert(functions.last() == functions[functions.len() - 1]);
        let rest = functions.drop_last();
        assert forall|i: int| 0 <= i < rest.len() implies (#[trigger] rest[i]).block < n by {
            assert(rest[i] == functions[i]);
        }
        lemma_lookup_below(rest, name, n);
    }
}

/// `t` extends `s`: the same blocks and current block, each block and the
/// string table only grown at the end, and every instruction added is
/// executable.
pub open spec fn grows(s: Lowering, t: Lowering) -> bool {
    &&& t.code.len() == s.code.len()
    &&& t.current == s.current
    &&& t.strings.len() >= s.strings.len()
    &&& forall|k: int| 0 <= k < s.strings.len() ==> #[trigger] t.strings[k] == s.strings[k]
    &&& forall|b: int|
        0 <= b < s.code.len() ==> (#[trigger] t.code[b]).len() >= s.code[b].len()
    &&& forall|b: int, j: int|
        0 <= b < s.code.len() && 0 <= j < s.code[b].len() ==> #[trigger] t.code[b][j]
            == s.code[b][j]
    &&& forall|b: int, j: int|
        0 <= b < s.code.len() && s.code[b].len() <= j < t.code[b].len() ==> executable(
            #[trigger] t.code[b][j],
            t.strings.len(),
        )
}

proof fn lemma_grows_trans(a: Lowering, b: Lowering, c: Lowering)
    requires
        grows(a, b),
        grows(b, c),
    ensures
        grows(a, c),
{
    assert forall|x: int, j: int|
        0 <= x < a.code.len() && a.code[x].len() <= j < c.code[x].len() implies executable(
        #[trigger] c.code[x][j],
        c.strings.len(),
    ) by {
        if j >= b.code[x].len() {
        } else {
            assert(c.code[x][j] == b.code[x][j]);
            assert(executable(b.code[x][j], b.strings.len()));
        }
    }
}

proof fn lemma_emit_grows(s: Lowering, instruction: Instruction)
    requires
        s.current < s.code.len(),
        executable(instruction, s.strings.len()),
    ensures
        grows(s, emit(s, instruction)),
{
    let t = emit(s, instruction);
    assert forall|b: int, j: int|
        0 <= b < s.code.len() && s.code[b].len() <= j < t.code[b].len() implies executable(
        #[trigger] t.code[b][j],
        t.strings.len(),
    ) by {
        assert(b == s.current && j == s.code[b].len());
    }
}

/// The result of a lowering step, against the model's result `spec`.
pub open spec fn lowered(
    before: Lowering,
    after: Lowering,
    r: Result<(), CompilerError>,
    spec: Result<Lowering, CompilerError>,
) -> bool {
    match spec {
        Ok(t) => r is Ok && after == t && grows(before, after),
        Err(e) => r == Err::<(), CompilerError>(e),
    }
}

pub(crate) proof fn lemma_prefix_error(
    s: Lowering,
    functions: Seq<FunctionEntry>,
    nodes: Seq<AstNode>,
    i: int,
)
    requires
        0 <= i <= nodes.len(),
        lower_nodes(s, functions, nodes.take(i)) is Err,
    ensures
        lower_nodes(s, functions, nodes) == lower_nodes(s, functions, nodes.take(i)),
    decreases nodes.len(),
{
    if i < nodes.len() {
        let rest = nodes.drop_last();
        assert(rest.take(i) =~= nodes.take(i));
        lemma_prefix_error(s, functions, rest, i);
    } else {
        assert(nodes.take(i) =~= nodes);
    }
}

/// `t` has the same blocks and current block as `s`, each at least as
/// long and starting with the same instructions.
pub open spec fn lengthens(s: Lowering, t: Lowering) -> bool {
    &&& t.code.len() == s.code.len()
    &&& t.current == s.current
    &&& forall|b: int| 0 <= b < s.code.len() ==> (#[trigger] t.code[b]).len() >= s.code[b].len()
    &&& forall|b: int, j: int|
        0 <= b < s.code.len() && 0 <= j < s.code[b].len() ==> #[trigger] t.code[b][j]
            == s.code[b][j]
}

pub(crate) proof fn lemma_node_lengthens(s: Lowering, functions: Seq<FunctionEntry>, node: AstNode)
    requires
        s.current < s.code.len(),
        entries_below(functions, s.code.len()),
    ensures
        lower_node(s, functions, node) matches Ok(t) ==> lengthens(s, t),
    decreases node,
{
    match node {
        AstNode::FunctionDeclaration { name, body, location } => {
            lemma_lookup_below(functions, name@, s.code.len());
            if let Some(b) = lookup(functions, name@) {
                lemma_nodes_lengthens(Lowering { current: b, ..s }, functions, body.nodes@);
            }
        },
        AstNode::IfExpression { then_branch, else_branch, location } => {
            let placeholder = Instruction { kind: InstructionKind::Patch, location };
            let s0 = emit(s, placeholder);
            lemma_nodes_lengthens(s0, functions, then_branch.nodes@);
            if let Ok(s1) = lower_nodes(s0, functions, then_branch.nodes@) {
                let s2 = emit(s1, placeholder);
                if let Some(b) = else_branch {
                    lemma_nodes_lengthens(s2, functions, b.nodes@);
                }
            }
        },
        AstNode::WhileExpression { condition, body, location } => {
            lemma_nodes_lengthens(s, functions, condition.nodes@);
            if let Ok(s1) = lower_nodes(s, functions, condition.nodes@) {
                let s2 = emit(s1, Instruction { kind: InstructionKind::Patch, location });
                lemma_nodes_lengthens(s2, functions, body.nodes@);
            }
        },
        _ => {},
    }
}

pub(crate) proof fn lemma_nodes_lengthens(s: Lowering, functions: Seq<FunctionEntry>, nodes: Seq<AstNode>)
    requires
        s.current < s.code.len(),
        entries_below(functions, s.code.len()),
    ensures
        lower_nodes(s, functions, nodes) matches Ok(t) ==> lengthens(s, t),
    decreases nodes,
{
    if nodes.len() > 0 {
        lemma_nodes_lengthens(s, functions, nodes.drop_last());
        if let Ok(s1) = lower_nodes(s, functions, nodes.drop_last()) {
            lemma_node_lengthens(s1, functions, nodes.last());
        }
    }
}

/// Backpatching an if/else: the placeholder before the "then" branch
/// becomes a conditional jump to the start of the "else" branch, which
/// lies just past the "then" branch's last instruction, the unconditional
/// jump that ends it; that jump targets the index past the whole
/// construct.
pub proof fn lemma_if_backpatch(s: Lowering, functions: Seq<FunctionEntry>, node: AstNode)
    requires
        node is IfExpression,
        s.current < s.code.len(),
        entries_below(functions, s.code.len()),
        lower_node(s, functions, node) is Ok,
        lower_node(s, functions, node)->Ok_0.code[s.current as int].len() <= usize::MAX,
    ensures
        ({
            let t = lower_node(s, functions, node)->Ok_0;
            let code = t.code[s.current as int];
            let branch = cursor(s);
            &&& t.current == s.current
            &&& code[branch].kind is JumpIfFalse
            &&& branch + 1 < code[branch].kind->JumpIfFalse_0 <= code.len()
            &&& code[code[branch].kind->JumpIfFalse_0 - 1].kind == InstructionKind::Jump(
                code.len() as usize,
            )
        }),
{
    if let AstNode::IfExpression { then_branch, else_branch, location } = node {
        let placeholder = Instruction { kind: InstructionKind::Patch, location };
        let s0 = emit(s, placeholder);
        lemma_nodes_lengthens(s0, functions, then_branch.nodes@);
        let s1 = lower_nodes(s0, functions, then_branch.nodes@)->Ok_0;
        let s2 = emit(s1, placeholder);
        let r3 = match else_branch {
            None => Ok(s2),
            Some(b) => lower_nodes(s2, functions, b.nodes@),
        };
        if let Some(b) = else_branch {
            lemma_nodes_lengthens(s2, functions, b.nodes@);
        }
        let s3 = r3->Ok_0;
        let c = s.current as int;
        assert(s0.code[c].len() == cursor(s) + 1);
        assert(s2.code[c].len() == cursor(s1) + 1);
        assert(s3.code[c].len() >= s2.code[c].len());
        let else_entry = cursor(s2);
        let s4 = patch(
            s3,
            cursor(s),
            Instruction { kind: InstructionKind::JumpIfFalse(else_entry as usize), location },
        );
        assert(s4.code[c].len() == s3.code[c].len());
        let t = patch(
            s4,
            cursor(s1),
            Instruction { kind: InstructionKind::Jump(cursor(s4) as usize), location },
        );
        assert(t == lower_node(s, functions, node)->Ok_0);
        assert(t.code[c].len() == s3.code[c].len());
        assert(t.code[c][cursor(s)] == s4.code[c][cursor(s)]);
        assert((else_entry as usize) as int == else_entry);
        assert(t.code[c][else_entry - 1].kind == InstructionKind::Jump(cursor(s4) as usize));
    }
}

/// Lowering a loop: it ends with an unconditional jump back to the start of
/// its condition, and the conditional jump after the condition targets the
/// index past that jump.
pub proof fn lemma_while_backpatch(s: Lowering, functions: Seq<FunctionEntry>, node: AstNode)
    requires
        node is WhileExpression,
        s.current < s.code.len(),
        entries_below(functions, s.code.len()),
        lower_node(s, functions, node) is Ok,
        lower_node(s, functions, node)->Ok_0.code[s.current as int].len() <= usize::MAX,
    ensures
        ({
            let t = lower_node(s, functions, node)->Ok_0;
            let code = t.code[s.current as int];
            &&& t.current == s.current
            &&& cursor(s) < code.len()
            &&& code[code.len() - 1].kind == InstructionKind::Jump(cursor(s) as usize)
            &&& exists|exit: int|
                cursor(s) <= exit < code.len() - 1 && #[trigger] code[exit].kind
                    == InstructionKind::JumpIfFalse(code.len() as usize)
        }),
{
    if let AstNode::WhileExpression { condition, body, location } = node {
        lemma_nodes_lengthens(s, functions, condition.nodes@);
        let s1 = lower_nodes(s, functions, condition.nodes@)->Ok_0;
        let exit = cursor(s1);
        let s2 = emit(s1, Instruction { kind: InstructionKind::Patch, location });
        lemma_nodes_lengthens(s2, functions, body.nodes@);
        let s3 = lower_nodes(s2, functions, body.nodes@)->Ok_0;
        let s4 = emit(s3, Instruction { kind: InstructionKind::Jump(cursor(s) as usize), location });
        let c = s.current as int;
        let t = patch(
            s4,
            exit,
            Instruction { kind: InstructionKind::JumpIfFalse(cursor(s4) as usize), location },
        );
        assert(t == lower_node(s, functions, node)->Ok_0);
        assert(s3.code[c].len() >= s2.code[c].len());
        assert(t.code[c].len() == s4.code[c].len());
        assert(t.code[c][exit].kind == InstructionKind::JumpIfFalse(t.code[c].len() as usize));
        assert(t.code[c][t.code[c].len() - 1] == s4.code[c][s4.code[c].len() - 1]);
    }
}

/// Two function tables that map every name to the same block.
pub open spec fn same_lookup(f1: Seq<FunctionEntry>, f2: Seq<FunctionEntry>) -> bool {
    forall|name: Seq<char>| #[trigger] lookup(f1, name) == lookup(f2, name)
}

/// Lowering reads the function table only through `lookup`.
pub proof fn lemma_node_same_lookup(
    s: Lowering,
    f1: Seq<FunctionEntry>,
    f2: Seq<FunctionEntry>,
    node: AstNode,
)
    requires
        same_lookup(f1, f2),
    ensures
        lower_node(s, f1, node) == lower_node(s, f2, node),
    decreases node,
{
    match node {
        AstNode::FunctionCall { name, .. } => {
            assert(lookup(f1, name@) == lookup(f2, name@));
        },
        AstNode::Identifier(name, _) => {
            assert(lookup(f1, name@) == lookup(f2, name@));
        },
        AstNode::FunctionDeclaration { name, body, location } => {
            assert(lookup(f1, name@) == lookup(f2, name@));
            if let Some(b) = lookup(f1, name@) {
                lemma_nodes_same_lookup(Lowering { current: b, ..s }, f1, f2, body.nodes@);
            }
        },
        AstNode::IfExpression { then_branch, else_branch, location } => {
            let placeholder = Instruction { kind: InstructionKind::Patch, location };
            let s0 = emit(s, placeholder);
            lemma_nodes_same_lookup(s0, f1, f2, then_branch.nodes@);
            if let Ok(s1) = lower_nodes(s0, f1, then_branch.nodes@) {
                if let Some(b) = else_branch {
                    lemma_nodes_same_lookup(emit(s1, placeholder), f1, f2, b.nodes@);
                }
            }
        },
        AstNode::WhileExpression { condition, body, location } => {
            lemma_nodes_same_lookup(s, f1, f2, condition.nodes@);
            if let Ok(s1) = lower_nodes(s, f1, condition.nodes@) {
                let s2 = emit(s1, Instruction { kind: InstructionKind::Patch, location });
                lemma_nodes_same_lookup(s2, f1, f2, body.nodes@);
            }
        },
        _ => {},
    }
}

pub proof fn lemma_nodes_same_lookup(
    s: Lowering,
    f1: Seq<FunctionEntry>,
    f2: Seq<FunctionEntry>,
    nodes: Seq<AstNode>,
)
    requires
        same_lookup(f1, f2),
    ensures
        lower_nodes(s, f1, nodes) == lower_nodes(s, f2, nodes),
    decreases nodes,
{
    if nodes.len() > 0 {
        lemma_nodes_same_lookup(s, f1, f2, nodes.drop_last());
        if let Ok(s1) = lower_nodes(s, f1, nodes.drop_last()) {
            lemma_node_same_lookup(s1, f1, f2, nodes.last());
        }
    }
}

/// Each prefix of a sequence that lowers without error lowers without
/// error too, and the whole lowering extends the prefix's.
pub proof fn lemma_prefix_lowering(s: Lowering, functions: Seq<FunctionEntry>, nodes: Seq<AstNode>, i: int)
    requires
        s.current < s.code.len(),
        entries_below(functions, s.code.len()),
        0 <= i <= nodes.len(),
        lower_nodes(s, functions, nodes) is Ok,
    ensures
        lower_nodes(s, functions, nodes.take(i)) is Ok,
        lengthens(lower_nodes(s, functions, nodes.take(i))->Ok_0, lower_nodes(s, functions, nodes)->Ok_0),
    decreases nodes.len(),
{
    if i == nodes.len() {
        assert(nodes.take(i) =~= nodes);
    } else {
        let rest = nodes.drop_last();
        assert(rest.take(i) =~= nodes.take(i));
        lemma_nodes_lengthens(s, functions, rest);
        let t1 = lower_nodes(s, functions, rest)->Ok_0;
        lemma_prefix_lowering(s, functions, rest, i);
        lemma_node_lengthens(t1, functions, nodes.last());
    }
}

/// `name` reads `text`.
pub(crate) fn named(name: &String, text: &str) -> (r: bool)
    ensures
        r == (name@ == text@),
{
    let t = String::from_str(text);
    *name == t
}

fn operator_kind(name: &String) -> (r: Option<InstructionKind>)
    ensures
        r == operator(name@),
{
    if named(name, "__plus") {
        Some(InstructionKind::Add)
    } else if named(name, "__minus") {
        Some(InstructionKind::Sub)
    } else if named(name, "__mult") {
        Some(InstructionKind::Mul)
    } else if named(name, "__div") {
        Some(InstructionKind::Div)
    } else if named(name, "__mod") {
        Some(InstructionKind::Mod)
    } else if named(name, "__not") {
        Some(InstructionKind::Not)
    } else if named(name, "__gt") {
        Some(InstructionKind::GreaterThan)
    } else if named(name, "__gte") {
        Some(InstructionKind::GreaterThanEquals)
    } else if named(name, "__lt") {
        Some(InstructionKind::LessThan)
    } else if named(name, "__lte") {
        Some(InstructionKind::LessThanEquals)
    } else if named(name, "__and") {
        Some(InstructionKind::And)
    } else if named(name, "__or") {
        Some(InstructionKind::Or)
    } else if named(name, "__eqeq") {
        Some(InstructionKind::Equals)
    } else if named(name, "__noteq") {
        Some(InstructionKind::NotEquals)
    } else if named(name, "()__quit") {
        Some(InstructionKind::Halt)
    } else {
        None
    }
}

fn primitive_kind(name: &String) -> (r: Option<InstructionKind>)
    ensures
        r == primitive(name@),
{
    if named(name, "dup") {
        Some(InstructionKind::Dup)
    } else if named(name, "drop") {
        Some(InstructionKind::Drop)
    } else if named(name, "print") {
        Some(InstructionKind::Print)
    } else if named(name, "swap") {
        Some(InstructionKind::Swap)
    } else if named(name, "over") {
        Some(InstructionKind::Over)
    } else if named(name, "???") {
        Some(InstructionKind::DebugStack)
    } else {
        None
    }
}

/// Lowers a syntax tree into the blocks of a resolved program.
#[derive(Debug)]
pub struct Compiler {
    pub program: Program,
    /// The block that instructions are appended to.
    pub current_block: usize,
}

impl Program {
    /// A program that lowering can fill: the entry and every function-table
    /// entry name an existing block, and the string table has no
    /// duplicates.
    pub open spec fn lowerable(&self) -> bool {
        &&& distinct(self.string_table())
        &&& self.entry_point < self.blocks@.len()
        &&& entries_below(self.functions@, self.blocks@.len())
    }
}

impl Compiler {
    pub open spec fn lowering(&self) -> Lowering {
        Lowering {
            code: self.program.code(),
            strings: self.program.string_table(),
            current: self.current_block,
        }
    }

    pub open spec fn wf(&self) -> bool {
        &&& self.program.lowerable()
        &&& self.current_block < self.program.blocks@.len()
    }

    /// A compiler that starts in the program's entry block.
    pub fn new(resolved_program: Program) -> (r: Self)
        ensures
            r.program == resolved_program,
            r.current_block == resolved_program.entry_point,
    {
        let current_block = resolved_program.entry_point;
        Compiler { program: resolved_program, current_block }
    }

    /// Appends an instruction to the current block.
    fn emit_here(&mut self, kind: InstructionKind, location: &Location)
        requires
            old(self).wf(),
        ensures
            final(self).wf(),
            final(self).lowering() == emit(
                old(self).lowering(),
                Instruction { kind, location: *location },
            ),
            final(self).program.functions == old(self).program.functions,
            final(self).program.entry_point == old(self).program.entry_point,
            final(self).program.strings == old(self).program.strings,
            executable(Instruction { kind, location: *location }, old(self).program.strings@.len())
                ==> grows(old(self).lowering(), final(self).lowering()),
    {
        self.program.add_instruction_at(self.current_block, Instruction::new(kind, location));
        proof {
            assert(self.program.code().len() == self.program.blocks@.len());
            assert(old(self).program.string_table().len() == old(self).program.strings@.len());
            if executable(Instruction { kind, location: *location }, old(self).program.strings@.len()) {
                lemma_emit_grows(old(self).lowering(), Instruction { kind, location: *location });
            }
        }
    }

    /// Lowers a built-in or a call of a declared function.
    fn compile_call(&mut self, name: &String, builtin: Option<InstructionKind>, location: &Location) -> (r: Result<(), CompilerError>)
        requires
            old(self).wf(),
            builtin matches Some(k) ==> executable(
                (Instruction { kind: k, location: *location }),
                old(self).program.strings@.len(),
            ),
        ensures
            lowered(
                old(self).lowering(),
                final(self).lowering(),
                r,
                lower_call(old(self).lowering(), old(self).program.functions@, *name, builtin, *location),
            ),
            r is Ok ==> final(self).wf(),
            final(self).program.functions == old(self).program.functions,
            final(self).program.entry_point == old(self).program.entry_point,
    {
        let kind = match builtin {
            Some(kind) => kind,
            None => match self.program.find_function(name) {
                Some(b) => InstructionKind::Call(b),
                None => return Err(CompilerError::UnknownFunction(name.clone())),
            },
        };
        self.emit_here(kind, location);
        Ok(())
    }

    /// Lowers one node into the current block.
    fn compile_node(&mut self, node: &AstNode) -> (r: Result<(), CompilerError>)
        requires
            old(self).wf(),
        ensures
            lowered(
                old(self).lowering(),
                final(self).lowering(),
                r,
                lower_node(old(self).lowering(), old(self).program.functions@, *node),
            ),
            r is Ok ==> final(self).wf(),
            final(self).program.functions == old(self).program.functions,
            final(self).program.entry_point == old(self).program.entry_point,
        decreases node,
    {
        let ghost s = self.lowering();
        let ghost functions = self.program.functions@;
        match node {
            AstNode::IntegerLiteral(v, location) => {
                self.emit_here(InstructionKind::LoadI64(*v), location);
                Ok(())
            },
            AstNode::FloatLiteral(v, location) => {
                self.emit_here(InstructionKind::LoadF64(*v), location);
                Ok(())
            },
            AstNode::BooleanLiteral(v, location) => {
                self.emit_here(InstructionKind::LoadBool(*v), location);
                Ok(())
            },
            AstNode::StringLiteral(text, location) => {
                let index = self.program.add_string(text);
                let ghost s1 = self.lowering();
                proof {
                    assert(self.program.code().len() == self.program.blocks@.len());
                    assert(self.program.string_table().len() == self.program.strings@.len());
                    assert(old(self).program.string_table().len() == old(self).program.strings@.len());
                }
                self.emit_here(InstructionKind::LoadConstant(index), location);
                proof {
                    assert(grows(s, s1));
                    lemma_grows_trans(s, s1, self.lowering());
                }
                Ok(())
            },
            AstNode::FunctionCall { name, location } => {
                let builtin = operator_kind(name);
                self.compile_call(name, builtin, location)
            },
            AstNode::Identifier(name, location) => {
                let builtin = primitive_kind(name);
                self.compile_call(name, builtin, location)
            },
            AstNode::FunctionDeclaration { name, body, location } => {
                let b = match self.program.find_function(name) {
                    Some(b) => b,
                    None => return Err(CompilerError::UnknownFunction(name.clone())),
                };
                proof {
                    lemma_lookup_below(functions, name@, self.program.blocks@.len() as nat);
                }
                let old_block = self.current_block;
                self.current_block = b;
                let ghost s1 = self.lowering();
                match self.compile_nodes(&body.nodes) {
                    Ok(()) => {},
                    Err(e) => return Err(e),
                }
                let kind = if named(name, "main") {
                    InstructionKind::Halt
                } else {
                    InstructionKind::Return
                };
                let ghost s2 = self.lowering();
                self.emit_here(kind, location);
                proof {
                    lemma_grows_trans(s1, s2, self.lowering());
                }
                self.current_block = old_block;
                Ok(())
            },
            AstNode::IfExpression { then_branch, else_branch, location } => {
                let cur = self.current_block;
                let branch = self.program.block_len(cur);
                self.emit_here(InstructionKind::Patch, location);
                let ghost s0 = self.lowering();
                match self.compile_nodes(&then_branch.nodes) {
                    Ok(()) => {},
                    Err(e) => return Err(e),
                }
                let ghost s1 = self.lowering();
                let exit = self.program.block_len(cur);
                self.emit_here(InstructionKind::Patch, location);
                let ghost s2 = self.lowering();
                let else_entry = self.program.block_len(cur);
                match else_branch {
                    None => {},
                    Some(b) => match self.compile_nodes(&b.nodes) {
                        Ok(()) => {},
                        Err(e) => return Err(e),
                    },
                }
                let ghost s3 = self.lowering();
                self.program.patch_instruction_at(
                    cur,
                    branch,
                    Instruction::new(InstructionKind::JumpIfFalse(else_entry), location),
                );
                let ghost s4 = self.lowering();
                let end = self.program.block_len(cur);
                self.program.patch_instruction_at(
                    cur,
                    exit,
                    Instruction::new(InstructionKind::Jump(end), location),
                );
                proof {
                    let f = self.lowering();
                    let c = cur as int;
                    assert(f.code[c].len() == s3.code[c].len());
                    assert forall|b: int, j: int|
                        0 <= b < s.code.len() && 0 <= j < s.code[b].len() implies #[trigger] f.code[b][j]
                        == s.code[b][j] by {
                        assert(s0.code[b][j] == s.code[b][j]);
                        assert(s1.code[b][j] == s0.code[b][j]);
                        assert(s2.code[b][j] == s1.code[b][j]);
                        assert(s3.code[b][j] == s2.code[b][j]);
                    }
                    assert forall|b: int, j: int|
                        0 <= b < s.code.len() && s.code[b].len() <= j < f.code[b].len() implies executable(
                        #[trigger] f.code[b][j],
                        f.strings.len(),
                    ) by {
                        if b == c && (j == branch || j == exit) {
                        } else if j < s1.code[b].len() {
                            assert(f.code[b][j] == s3.code[b][j]);
                            assert(s3.code[b][j] == s2.code[b][j]);
                            assert(s2.code[b][j] == s1.code[b][j]);
                            if j >= s0.code[b].len() {
                                assert(executable(s1.code[b][j], s1.strings.len()));
                            } else {
                                assert(b == c && j == branch);
                            }
                        } else {
                            assert(f.code[b][j] == s3.code[b][j]);
                            if j < s2.code[b].len() {
                                assert(b == c && j == exit);
                            }
                            assert(executable(s3.code[b][j], s3.strings.len()));
                        }
                    }
                    assert forall|k: int| 0 <= k < s.strings.len() implies #[trigger] f.strings[k] == s.strings[k] by {
                        assert(s1.strings[k] == s0.strings[k]);
                        assert(s3.strings[k] == s2.strings[k]);
                    }
                    assert(grows(s, f));
                }
                Ok(())
            },
            AstNode::WhileExpression { condition, body, location } => {
                let cur = self.current_block;
                let start = self.program.block_len(cur);
                match self.compile_nodes(&condition.nodes) {
                    Ok(()) => {},
                    Err(e) => return Err(e),
                }
                let ghost s1 = self.lowering();
                let exit = self.program.block_len(cur);
                self.emit_here(InstructionKind::Patch, location);
                let ghost s2 = self.lowering();
                match self.compile_nodes(&body.nodes) {
                    Ok(()) => {},
                    Err(e) => return Err(e),
                }
                let ghost s3 = self.lowering();
                self.emit_here(InstructionKind::Jump(start), location);
                let ghost s4 = self.lowering();
                let end = self.program.block_len(cur);
                self.program.patch_instruction_at(
                    cur,
                    exit,
                    Instruction::new(InstructionKind::JumpIfFalse(end), location),
                );
                proof {
                    let f = self.lowering();
                    let c = cur as int;
                    lemma_grows_trans(s2, s3, s4);
                    assert forall|b: int, j: int|
                        0 <= b < s.code.len() && 0 <= j < s.code[b].len() implies #[trigger] f.code[b][j]
                        == s.code[b][j] by {
                        assert(s1.code[b][j] == s.code[b][j]);
                        assert(s2.code[b][j] == s1.code[b][j]);
                        assert(s4.code[b][j] == s2.code[b][j]);
                    }
                    assert forall|b: int, j: int|
                        0 <= b < s.code.len() && s.code[b].len() <= j < f.code[b].len() implies executable(
                        #[trigger] f.code[b][j],
                        f.strings.len(),
                    ) by {
                        if b == c && j == exit {
                        } else if j < s1.code[b].len() {
                            assert(f.code[b][j] == s4.code[b][j]);
                            assert(s4.code[b][j] == s2.code[b][j]);
                            assert(s2.code[b][j] == s1.code[b][j]);
                            assert(executable(s1.code[b][j], s1.strings.len()));
                        } else {
                            assert(f.code[b][j] == s4.code[b][j]);
                            if j < s2.code[b].len() {
                                assert(b == c && j == exit);
                            }
                            assert(executable(s4.code[b][j], s4.strings.len()));
                        }
                    }
                    assert forall|k: int| 0 <= k < s.strings.len() implies #[trigger] f.strings[k] == s.strings[k] by {
                        assert(s2.strings[k] == s1.strings[k]);
                    }
                    assert(grows(s, f));
                }
                Ok(())
            },
        }
    }

    /// Lowers the nodes in order, stopping at the first error.
    fn compile_nodes(&mut self, nodes: &Vec<AstNode>) -> (r: Result<(), CompilerError>)
        requires
            old(self).wf(),
        ensures
            lowered(
                old(self).lowering(),
                final(self).lowering(),
                r,
                lower_nodes(old(self).lowering(), old(self).program.functions@, nodes@),
            ),
            r is Ok ==> final(self).wf(),
            final(self).program.functions == old(self).program.functions,
            final(self).program.entry_point == old(self).program.entry_point,
        decreases nodes@,
    {
        let ghost s = self.lowering();
        let ghost functions = self.program.functions@;
        let mut i: usize = 0;
        proof {
            assert(nodes@.take(0) =~= Seq::<AstNode>::empty());
        }
        while i < nodes.len()
            invariant
                self.wf(),
                i <= nodes@.len(),
                s == old(self).lowering(),
                functions == old(self).program.functions@,
                self.program.functions == old(self).program.functions,
                self.program.entry_point == old(self).program.entry_point,
                grows(s, self.lowering()),
                lower_nodes(s, functions, nodes@.take(i as int)) == Ok::<Lowering, CompilerError>(self.lowering()),
            decreases nodes@.len() - i,
        {
            proof {
                assert(nodes@.take(i + 1).drop_last() =~= nodes@.take(i as int));
                assert(nodes@.take(i + 1).last() == nodes@[i as int]);
            }
            let ghost before = self.lowering();
            match self.compile_node(&nodes[i]) {
                Ok(()) => {},
                Err(e) => {
                    proof {
                        lemma_prefix_error(s, functions, nodes@, i + 1);
                    }
                    return Err(e);
                },
            }
            proof {
                lemma_grows_trans(s, before, self.lowering());
            }
            i = i + 1;
        }
        proof {
            assert(nodes@.take(i as int) =~= nodes@);
        }
        Ok(())
    }

    /// What lowering `ast` from `start` yields: the model's result, as a
    /// program.
    pub open spec fn compiled(
        before: Program,
        start: usize,
        ast: Seq<AstNode>,
        r: Result<Program, CompilerError>,
    ) -> bool {
        let s = Lowering { code: before.code(), strings: before.string_table(), current: start };
        match lower_nodes(s, before.functions@, ast) {
            Ok(t) => r is Ok && r->Ok_0.code() == t.code && r->Ok_0.string_table() == t.strings
                && r->Ok_0.functions == before.functions && r->Ok_0.entry_point == before.entry_point
                && r->Ok_0.lowerable() && (before.runnable() ==> r->Ok_0.runnable()),
            Err(e) => r == Err::<Program, CompilerError>(e),
        }
    }

    /// Lowers each top-level node in order, starting in the entry block, and
    /// hands back the filled program; the first error aborts.
    pub fn compile(self, ast: Vec<AstNode>) -> (r: Result<Program, CompilerError>)
        requires
            self.wf(),
        ensures
            Self::compiled(self.program, self.current_block, ast@, r),
    {
        let mut compiler = self;
        let ghost before = compiler.program;
        let ghost s = compiler.lowering();
        match compiler.compile_nodes(&ast) {
            Ok(()) => {},
            Err(e) => return Err(e),
        }
        proof {
            let f = compiler.lowering();
            let p = compiler.program;
            assert(p.string_table().len() == p.strings@.len());
            assert(before.string_table().len() == before.strings@.len());
            if before.runnable() {
                assert forall|b: int, i: int|
                    0 <= b < p.code().len() && 0 <= i < p.code()[b].len() implies executable(
                    #[trigger] p.code()[b][i],
                    p.strings@.len(),
                ) by {
                    if i < s.code[b].len() {
                        assert(p.code()[b][i] == s.code[b][i]);
                        assert(executable(before.code()[b][i], before.strings@.len()));
                    }
                }
            }
        }
        Ok(compiler.program)
    }
}

} // verus!
