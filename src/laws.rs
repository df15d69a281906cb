use vstd::prelude::*;
use crate::ast::AstNode;
use crate::compiler::{
    cursor, emit, entries_below, lemma_if_backpatch, lemma_nodes_same_lookup, lemma_prefix_lowering, lower_node, lower_nodes, operator, patch, primitive, same_lookup,
    Compiler, Lowering,
};
use crate::resolver::{declare_node, declare_nodes, Resolver};
use crate::program::lookup;
use crate::error::{CompilerError, RuntimeError};
use crate::instruction::{Instruction, InstructionKind};
use crate::interpreter::{
    binary, execute, execute_binary, fetch, is_binary, next, run, Binary, Effect, Interpreter, Outcome, State,
};
use crate::location::Location;
use crate::program::{distinct, Program};
use crate::value::Value;

verus! {

/// Two values that agree, comparing resolved strings by their text.
pub open spec fn same_value(a: Value, b: Value) -> bool {
    match (a, b) {
        (Value::RawString(x), Value::RawString(y)) => x@ == y@,
        _ => a == b,
    }
}

/// Two outcomes of a run that agree, comparing values by `same_value`.
pub open spec fn same_outcome(a: Outcome, b: Outcome) -> bool {
    match (a, b) {
        (Outcome::Finished(x), Outcome::Finished(y)) => same_value(x, y),
        (Outcome::Print(x), Outcome::Print(y)) => same_value(x, y),
        (Outcome::Float(x), Outcome::Float(y)) => x == y,
        (Outcome::Paused, Outcome::Paused) => true,
        _ => false,
    }
}

/// Compiling the same syntax tree twice, from the same resolved program,
/// yields the same instructions, string table and function table, or the
/// same error.
pub proof fn lemma_compile_deterministic(
    before: Program,
    start: usize,
    ast: Seq<AstNode>,
    r1: Result<Program, CompilerError>,
    r2: Result<Program, CompilerError>,
)
    requires
        Compiler::compiled(before, start, ast, r1),
        Compiler::compiled(before, start, ast, r2),
    ensures
        r1 is Ok <==> r2 is Ok,
        r1 is Ok ==> r1->Ok_0.code() == r2->Ok_0.code() && r1->Ok_0.string_table()
            == r2->Ok_0.string_table() && r1->Ok_0.functions == r2->Ok_0.functions
            && r1->Ok_0.entry_point == r2->Ok_0.entry_point,
        r1 is Err ==> r1 == r2,
{
}

/// Resolving and then compiling the same syntax tree twice yields the same
/// instructions, string table and entry block, function tables that map
/// every name to the same block, or the same error.
pub proof fn lemma_pipeline_deterministic(
    ast: Seq<AstNode>,
    p1: Program,
    p2: Program,
    r1: Result<Program, CompilerError>,
    r2: Result<Program, CompilerError>,
)
    requires
        Resolver::resolved(ast, Ok(p1)),
        Resolver::resolved(ast, Ok(p2)),
        Compiler::compiled(p1, p1.entry_point, ast, r1),
        Compiler::compiled(p2, p2.entry_point, ast, r2),
    ensures
        r1 is Ok <==> r2 is Ok,
        r1 is Ok ==> r1->Ok_0.code() == r2->Ok_0.code() && r1->Ok_0.string_table()
            == r2->Ok_0.string_table() && r1->Ok_0.entry_point == r2->Ok_0.entry_point
            && same_lookup(r1->Ok_0.functions@, r2->Ok_0.functions@),
        r1 is Err ==> r1 == r2,
{
    let f1 = p1.functions@;
    let f2 = p2.functions@;
    assert(p1.code().len() == p2.code().len());
    assert forall|b: int| 0 <= b < p1.code().len() implies #[trigger] p1.code()[b] == p2.code()[b] by {
        assert(p1.code()[b].len() == 0 && p2.code()[b].len() == 0);
        assert(p1.code()[b] =~= p2.code()[b]);
    }
    assert(p1.code() =~= p2.code());
    assert(p1.string_table() =~= p2.string_table());
    let (fs, n) = crate::resolver::declare_nodes(Seq::empty(), 0, ast);
    assert forall|name: Seq<char>| #[trigger] lookup(f1, name) == lookup(f2, name) by {
        if lookup(fs, "main"@) is None {
            assert(f1.drop_last() == fs && f2.drop_last() == fs);
            assert(f1.len() == f2.len());
            assert(f1.len() > 0);
            assert(f1.last().name@ == f2.last().name@);
            assert(f1.last().block == f2.last().block);
        }
    }
    let s = Lowering { code: p1.code(), strings: p1.string_table(), current: p1.entry_point };
    lemma_nodes_same_lookup(s, f1, f2, ast);
}

/// Interpreting from the same state with the same step budget twice yields
/// the same final state and the same outcome (resolved strings compared by
/// text), or the same error.
pub proof fn lemma_interpret_deterministic(
    before: State,
    code: Seq<Seq<Instruction>>,
    fuel: nat,
    after1: State,
    r1: Result<Outcome, RuntimeError>,
    after2: State,
    r2: Result<Outcome, RuntimeError>,
)
    requires
        Interpreter::ran(before, after1, r1, code, fuel),
        Interpreter::ran(before, after2, r2, code, fuel),
    ensures
        r1 is Err ==> r1 == r2,
        r1 is Ok ==> r2 is Ok && same_outcome(r1->Ok_0, r2->Ok_0) && after1 == after2,
{
}

/// Numeric promotion: two integers add, subtract and multiply as integers;
/// any operand that is a float makes an arithmetic opcode a float
/// operation; division of two integers is a float operation too.
pub proof fn lemma_promotion(op: InstructionKind, a: i64, b: i64, x: u64, y: u64, strings: Seq<Seq<char>>)
    requires
        op is Add || op is Sub || op is Mul || op is Div || op is Mod,
    ensures
        binary(InstructionKind::Add, Value::I64(a), Value::I64(b), strings) == Binary::Push(
            Value::I64(a.wrapping_add(b)),
        ),
        binary(InstructionKind::Sub, Value::I64(a), Value::I64(b), strings) == Binary::Push(
            Value::I64(a.wrapping_sub(b)),
        ),
        binary(InstructionKind::Mul, Value::I64(a), Value::I64(b), strings) == Binary::Push(
            Value::I64(a.wrapping_mul(b)),
        ),
        binary(InstructionKind::Div, Value::I64(a), Value::I64(b), strings) is Float,
        binary(op, Value::I64(a), Value::F64(y), strings) is Float,
        binary(op, Value::F64(x), Value::I64(b), strings) is Float,
        binary(op, Value::F64(x), Value::F64(y), strings) is Float,
{
}

/// Adding two interned strings pushes a reference to their concatenation
/// and adds at most one entry to the string table, none when the
/// concatenation is already interned.
pub proof fn lemma_concatenation(s: State, ins: Instruction)
    requires
        ins.kind is Add,
        distinct(s.strings),
        s.strings.len() < usize::MAX,
        s.stack.len() >= 2,
        s.stack[s.stack.len() - 2] is String,
        s.stack.last() is String,
        s.stack[s.stack.len() - 2]->String_0.string_index < s.strings.len(),
        s.stack.last()->String_0.string_index < s.strings.len(),
    ensures
        ({
            let text = s.strings[s.stack[s.stack.len() - 2]->String_0.string_index as int]
                + s.strings[s.stack.last()->String_0.string_index as int];
            let (t, e) = execute(s, ins);
            &&& e is Running
            &&& t.stack.last() is String
            &&& t.stack.last()->String_0.string_index < t.strings.len()
            &&& t.strings[t.stack.last()->String_0.string_index as int] == text
            &&& t.strings.len() <= s.strings.len() + 1
            &&& s.strings.contains(text) ==> t.strings == s.strings
            &&& distinct(t.strings)
        }),
{
    let text = s.strings[s.stack[s.stack.len() - 2]->String_0.string_index as int]
        + s.strings[s.stack.last()->String_0.string_index as int];
    let n = s.stack.len();
    assert(s.stack.last() == s.stack[n - 1]);
    assert(execute(s, ins) == execute_binary(s, ins));
    assert(binary(ins.kind, s.stack[n - 2], s.stack[n - 1], s.strings) == Binary::Concat(text));
    if s.strings.contains(text) {
        let k = choose|k: int| 0 <= k < s.strings.len() && s.strings[k] == text;
        assert(0 <= k < s.strings.len() && s.strings[k] == text);
    } else {
        let t = s.strings.push(text);
        assert forall|i: int, j: int|
            0 <= i < t.len() && 0 <= j < t.len() && t[i] == t[j] implies i == j by {
            if i < s.strings.len() && j < s.strings.len() {
            } else if i < s.strings.len() {
                assert(s.strings[i] == text);
            } else if j < s.strings.len() {
                assert(s.strings[j] == text);
            }
        }
    }
}

/// `t` holds the entries of `s` at the same indices, and possibly more.
pub open spec fn keeps_entries(s: Seq<Seq<char>>, t: Seq<Seq<char>>) -> bool {
    &&& t.len() >= s.len()
    &&& forall|i: int| 0 <= i < s.len() ==> #[trigger] t[i] == s[i]
}

/// One step adds at most one entry to the string table and moves none.
pub proof fn lemma_step_keeps_strings(s: State, code: Seq<Seq<Instruction>>)
    ensures
        keeps_entries(s.strings, next(s, code).0.strings),
        next(s, code).0.strings.len() <= s.strings.len() + 1,
{
    let t = next(s, code).0;
    if let Some(ins) = fetch(code, s.bp, s.ip) {
        assert(t == execute(s, ins).0);
        if t.strings != s.strings {
            let n = s.stack.len();
            assert(execute(s, ins) == execute_binary(s, ins));
            if let Binary::Concat(text) = binary(ins.kind, s.stack[n - 2], s.stack[n - 1], s.strings) {
                assert(t.strings == crate::program::intern(s.strings, text).0);
            }
        }
    }
}

/// A run of any length keeps every string-table entry at its index: the
/// table only grows, by at most one entry per step.
pub proof fn lemma_run_keeps_strings(s: State, code: Seq<Seq<Instruction>>, fuel: nat)
    ensures
        keeps_entries(s.strings, run(s, code, fuel).0.strings),
        run(s, code, fuel).0.strings.len() <= s.strings.len() + fuel,
    decreases fuel,
{
    if fuel > 0 {
        let (s1, e) = next(s, code);
        lemma_step_keeps_strings(s, code);
        if e is Running {
            lemma_run_keeps_strings(s1, code, (fuel - 1) as nat);
            let t = run(s1, code, (fuel - 1) as nat).0;
            assert forall|i: int| 0 <= i < s.strings.len() implies #[trigger] t.strings[i] == s.strings[i] by {
                assert(t.strings[i] == s1.strings[i]);
            }
        }
    }
}

/// An arithmetic, logic or comparison opcode run against an empty stack
/// fails with a stack underflow at that instruction's location.
pub proof fn lemma_empty_stack_underflow(s: State, code: Seq<Seq<Instruction>>)
    requires
        s.stack.len() == 0,
        fetch(code, s.bp, s.ip) is Some,
        is_binary(fetch(code, s.bp, s.ip)->Some_0.kind) || fetch(code, s.bp, s.ip)->Some_0.kind is Not,
    ensures
        next(s, code).1 == Effect::Fault(
            RuntimeError::StackUnderflow(fetch(code, s.bp, s.ip)->Some_0.location),
        ),
{
}

/// Running `a + b` steps is running `a` steps, then `b` more if nothing
/// stopped the machine.
pub proof fn lemma_run_split(s: State, code: Seq<Seq<Instruction>>, a: nat, b: nat)
    ensures
        run(s, code, a + b) == if run(s, code, a).1 is Running {
            run(run(s, code, a).0, code, b)
        } else {
            run(s, code, a)
        },
    decreases a,
{
    if a > 0 {
        let (s1, e) = next(s, code);
        if e is Running {
            lemma_run_split(s1, code, (a - 1) as nat, b);
            assert((a + b - 1) as nat == ((a - 1) as nat + b));
        }
    }
}

/// Code whose first block holds, from index 1, the lowering of
/// `while dup 0 > do 1 - end`: the condition at indices 1 to 4, the body at
/// 5 to 7, then nothing or a halt.
pub open spec fn countdown_shape(code: Seq<Seq<Instruction>>) -> bool {
    &&& code.len() >= 1
    &&& code[0].len() >= 8
    &&& code[0][1].kind == InstructionKind::Dup
    &&& code[0][2].kind == InstructionKind::LoadI64(0)
    &&& code[0][3].kind == InstructionKind::GreaterThan
    &&& code[0][4].kind == InstructionKind::JumpIfFalse(8)
    &&& code[0][5].kind == InstructionKind::LoadI64(1)
    &&& code[0][6].kind == InstructionKind::Sub
    &&& code[0][7].kind == InstructionKind::Jump(1)
    &&& (code[0].len() == 8 || code[0][8].kind == InstructionKind::Halt)
}

/// The machine in the first block at `ip` with the single value `k` on the
/// stack.
pub open spec fn counter_state(s: State, ip: usize, k: i64) -> State {
    State { stack: seq![Value::I64(k)], bp: 0, ip, awaiting: false, ..s }
}

proof fn lemma_countdown_round(s: State, code: Seq<Seq<Instruction>>, k: i64)
    requires
        countdown_shape(code),
        k > 0,
    ensures
        run(counter_state(s, 1, k), code, 7) == (
            counter_state(s, 1, (k - 1) as i64),
            Effect::Running,
        ),
{
    let s0 = counter_state(s, 1, k);
    let s1 = next(s0, code).0;
    let s2 = next(s1, code).0;
    let s3 = next(s2, code).0;
    let s4 = next(s3, code).0;
    let s5 = next(s4, code).0;
    let s6 = next(s5, code).0;
    assert(s1.stack =~= seq![Value::I64(k), Value::I64(k)]);
    assert(s2.stack =~= seq![Value::I64(k), Value::I64(k), Value::I64(0)]);
    assert(s3.stack =~= seq![Value::I64(k), Value::Bool(true)]);
    assert(s4.stack =~= seq![Value::I64(k)] && s4.ip == 5);
    assert(s5.stack =~= seq![Value::I64(k), Value::I64(1)]);
    assert(k.wrapping_sub(1) == k - 1);
    assert(s6.stack =~= seq![Value::I64((k - 1) as i64)] && s6.ip == 7);
    assert(next(s6, code).0 == counter_state(s, 1, (k - 1) as i64));
    reveal_with_fuel(run, 8);
}

proof fn lemma_countdown_exit(s: State, code: Seq<Seq<Instruction>>)
    requires
        countdown_shape(code),
    ensures
        run(counter_state(s, 1, 0), code, 4) == (
            counter_state(s, 8, 0),
            Effect::Running,
        ),
        next(counter_state(s, 8, 0), code).1 is Halted,
{
    let s0 = counter_state(s, 1, 0);
    let s1 = next(s0, code).0;
    let s2 = next(s1, code).0;
    let s3 = next(s2, code).0;
    assert(s1.stack =~= seq![Value::I64(0), Value::I64(0)]);
    assert(s2.stack =~= seq![Value::I64(0), Value::I64(0), Value::I64(0)]);
    assert(s3.stack =~= seq![Value::I64(0), Value::Bool(false)]);
    assert(next(s3, code).0.stack =~= seq![Value::I64(0)]);
    assert(next(s3, code).0 == counter_state(s, 8, 0));
    reveal_with_fuel(run, 5);
}

/// A loop that counts down from `k` to zero: from the condition's start
/// with `k` on the stack, it runs the four condition instructions `k + 1`
/// times and the three body instructions `k` times, `7 * k + 4` steps in
/// all, and leaves zero on the stack past the loop, where the program
/// ends; for `k` zero the body never runs.
pub proof fn lemma_countdown(s: State, code: Seq<Seq<Instruction>>, k: i64)
    requires
        countdown_shape(code),
        k >= 0,
    ensures
        run(counter_state(s, 1, k), code, (7 * k + 4) as nat) == (
            counter_state(s, 8, 0),
            Effect::Running,
        ),
        next(counter_state(s, 8, 0), code).1 is Halted,
    decreases k,
{
    lemma_countdown_exit(s, code);
    if k > 0 {
        lemma_countdown_round(s, code, k);
        lemma_countdown(s, code, (k - 1) as i64);
        lemma_run_split(counter_state(s, 1, k), code, 7, (7 * (k - 1) + 4) as nat);
        assert((7 * k + 4) as nat == 7 + (7 * (k - 1) + 4) as nat);
    }
}

pub open spec fn is_integer(node: AstNode, v: i64) -> bool {
    match node {
        AstNode::IntegerLiteral(x, _) => x == v,
        _ => false,
    }
}

pub open spec fn is_word(node: AstNode, w: Seq<char>) -> bool {
    match node {
        AstNode::Identifier(x, _) => x@ == w,
        _ => false,
    }
}

pub open spec fn is_call(node: AstNode, w: Seq<char>) -> bool {
    match node {
        AstNode::FunctionCall { name, .. } => name@ == w,
        _ => false,
    }
}

/// `fun main do n while dup 0 > do 1 - end end`.
pub open spec fn countdown_program(ast: Seq<AstNode>, n: i64) -> bool {
    &&& ast.len() == 1
    &&& match ast[0] {
        AstNode::FunctionDeclaration { name, body, .. } => {
            &&& name@ == "main"@
            &&& body.nodes@.len() == 2
            &&& is_integer(body.nodes@[0], n)
            &&& match body.nodes@[1] {
                AstNode::WhileExpression { condition, body, .. } => {
                    &&& condition.nodes@.len() == 3
                    &&& is_word(condition.nodes@[0], "dup"@)
                    &&& is_integer(condition.nodes@[1], 0)
                    &&& is_call(condition.nodes@[2], "__gt"@)
                    &&& body.nodes@.len() == 2
                    &&& is_integer(body.nodes@[0], 1)
                    &&& is_call(body.nodes@[1], "__minus"@)
                },
                _ => false,
            }
        },
        _ => false,
    }
}

/// Nodes without declarations, branches or loops register nothing.
proof fn lemma_declare_flat(functions: Seq<crate::program::FunctionEntry>, n: nat, nodes: Seq<AstNode>)
    requires
        forall|i: int| 0 <= i < nodes.len() ==> (#[trigger] nodes[i] is IntegerLiteral || nodes[i] is Identifier || nodes[i] is FunctionCall),
    ensures
        declare_nodes(functions, n, nodes) == (functions, n),
    decreases nodes.len(),
{
    if nodes.len() > 0 {
        let rest = nodes.drop_last();
        assert forall|i: int| 0 <= i < rest.len() implies (#[trigger] rest[i] is IntegerLiteral || rest[i] is Identifier || rest[i] is FunctionCall) by {
            assert(rest[i] == nodes[i]);
        }
        lemma_declare_flat(functions, n, rest);
        assert(nodes.last() == nodes[nodes.len() - 1]);
        let last = nodes[nodes.len() - 1];
        assert(last is IntegerLiteral || last is Identifier || last is FunctionCall);
        assert(declare_node(functions, n, last) == (functions, n));
    }
}

/// Compiling `fun main do n while dup 0 > do 1 - end end` after resolving it
/// gives a first block that loads `n` and then has the shape that
/// `lemma_countdown` runs.
pub proof fn lemma_countdown_compiles(ast: Seq<AstNode>, n: i64, p: Program, r: Result<Program, CompilerError>)
    requires
        countdown_program(ast, n),
        Resolver::resolved(ast, Ok(p)),
        Compiler::compiled(p, p.entry_point, ast, r),
    ensures
        r is Ok,
        countdown_shape(r->Ok_0.code()),
        r->Ok_0.code()[0][0].kind == InstructionKind::LoadI64(n),
        r->Ok_0.code()[0].len() == 9,
        r->Ok_0.entry_point == 0,
{
    reveal_strlit("__plus");
    reveal_strlit("__minus");
    reveal_strlit("__mult");
    reveal_strlit("__div");
    reveal_strlit("__mod");
    reveal_strlit("__not");
    reveal_strlit("__gt");
    reveal_strlit("main");
    let decl = ast[0];
    if let AstNode::FunctionDeclaration { name, body, location } = decl {
        let b0 = body.nodes@[0];
        let b1 = body.nodes@[1];
        if let AstNode::WhileExpression { condition, body: wb, location: wl } = b1 {
            let cs = condition.nodes@;
            let ws = wb.nodes@;
            let entry = crate::program::FunctionEntry { name, block: 0 };
            assert(ast.drop_last() =~= Seq::<AstNode>::empty());
            assert(ast.last() == decl);
            lemma_declare_flat(seq![entry], 1, cs);
            lemma_declare_flat(seq![entry], 1, ws);
            let bn = body.nodes@;
            assert(bn.drop_last() =~= seq![b0]);
            assert(seq![b0].drop_last() =~= Seq::<AstNode>::empty());
            assert(bn.last() == b1);
            assert(seq![b0].last() == b0);
            assert(declare_node(seq![entry], 1, b1) == (seq![entry], 1nat));
            assert(declare_nodes(seq![entry], 1, Seq::<AstNode>::empty()) == (seq![entry], 1nat));
            assert(declare_node(seq![entry], 1, b0) == (seq![entry], 1nat));
            assert(declare_nodes(seq![entry], 1, seq![b0]) == (seq![entry], 1nat));
            assert(declare_nodes(seq![entry], 1, bn.drop_last()) == (seq![entry], 1nat));
            assert(declare_nodes(seq![entry], 1, bn) == (seq![entry], 1nat));
            assert(Seq::<crate::program::FunctionEntry>::empty().push(entry) =~= seq![entry]);
            assert(declare_nodes(Seq::empty(), 0, ast.drop_last()) == (Seq::<crate::program::FunctionEntry>::empty(), 0nat));
            assert(declare_node(Seq::empty(), 0, decl) == declare_nodes(seq![entry], 1, bn));
            assert(declare_nodes(Seq::empty(), 0, ast) == (seq![entry], 1nat));
            let fs = seq![entry];
            assert(crate::program::lookup(fs, "main"@) == Some(0usize));
            assert(p.functions@ == fs);
            assert(p.entry_point == 0);
            assert(p.code().len() == 1);
            assert(p.code()[0].len() == 0);
            let s = Lowering { code: p.code(), strings: p.string_table(), current: 0 };
            // the body of main
            let s1 = emit(s, Instruction { kind: InstructionKind::LoadI64(n), location: b0->IntegerLiteral_1 });
            assert(b0 is IntegerLiteral);
            assert(lower_node(s, fs, b0) == Ok::<Lowering, CompilerError>(s1));
            assert(lower_nodes(s, fs, Seq::<AstNode>::empty()) == Ok::<Lowering, CompilerError>(s));
            assert(lower_nodes(s, fs, seq![b0]) == Ok::<Lowering, CompilerError>(s1));
            // the condition
            assert(primitive("dup"@) == Some(InstructionKind::Dup));
            assert("__plus"@.len() == 6 && "__minus"@.len() == 7 && "__mult"@.len() == 6);
            assert("__div"@.len() == 5 && "__mod"@.len() == 5 && "__not"@.len() == 5);
            assert("__gt"@.len() == 4);
            assert(operator("__gt"@) == Some(InstructionKind::GreaterThan));
            assert(operator("__minus"@) == Some(InstructionKind::Sub));
            assert(cs.drop_last().drop_last().drop_last() =~= Seq::<AstNode>::empty());
            assert(cs.drop_last().drop_last().last() == cs[0]);
            assert(cs.drop_last().last() == cs[1]);
            assert(cs.last() == cs[2]);
            if let (AstNode::Identifier(w0, l0), AstNode::IntegerLiteral(_, l1), AstNode::FunctionCall { name: w2, location: l2 }) = (cs[0], cs[1], cs[2]) {
                if let (AstNode::IntegerLiteral(_, m0), AstNode::FunctionCall { name: v1, location: m1 }) = (ws[0], ws[1]) {
                    let x1 = emit(s1, Instruction { kind: InstructionKind::Dup, location: l0 });
                    let x2 = emit(x1, Instruction { kind: InstructionKind::LoadI64(0), location: l1 });
                    let x3 = emit(x2, Instruction { kind: InstructionKind::GreaterThan, location: l2 });
                    assert(lower_node(s1, fs, cs[0]) == Ok::<Lowering, CompilerError>(x1));
                    assert(lower_node(x1, fs, cs[1]) == Ok::<Lowering, CompilerError>(x2));
                    assert(lower_node(x2, fs, cs[2]) == Ok::<Lowering, CompilerError>(x3));
                    assert(lower_nodes(s1, fs, cs.drop_last().drop_last().drop_last()) == Ok::<Lowering, CompilerError>(s1));
                    assert(lower_nodes(s1, fs, cs.drop_last().drop_last()) == Ok::<Lowering, CompilerError>(x1));
                    assert(lower_nodes(s1, fs, cs.drop_last()) == Ok::<Lowering, CompilerError>(x2));
                    assert(lower_nodes(s1, fs, cs) == Ok::<Lowering, CompilerError>(x3));
                    let y0 = emit(x3, Instruction { kind: InstructionKind::Patch, location: wl });
                    let y1 = emit(y0, Instruction { kind: InstructionKind::LoadI64(1), location: m0 });
                    let y2 = emit(y1, Instruction { kind: InstructionKind::Sub, location: m1 });
                    assert(lower_node(y0, fs, ws[0]) == Ok::<Lowering, CompilerError>(y1));
                    assert(lower_node(y1, fs, ws[1]) == Ok::<Lowering, CompilerError>(y2));
                    assert(lower_nodes(y0, fs, ws.drop_last().drop_last()) == Ok::<Lowering, CompilerError>(y0));
                    assert(lower_nodes(y0, fs, ws.drop_last()) == Ok::<Lowering, CompilerError>(y1));
                    assert(lower_nodes(y0, fs, ws) == Ok::<Lowering, CompilerError>(y2));
                    assert(cursor(s1) == 1);
                    assert(cursor(x3) == 4);
                    let y3 = emit(y2, Instruction { kind: InstructionKind::Jump(1), location: wl });
                    assert(cursor(y3) == 8);
                    let t = patch(y3, 4, Instruction { kind: InstructionKind::JumpIfFalse(8), location: wl });
                    assert(lower_node(s1, fs, b1) == Ok::<Lowering, CompilerError>(t));
                    assert(lower_nodes(s, fs, bn) == lower_node(s1, fs, b1));
                    let f = emit(t, Instruction { kind: InstructionKind::Halt, location });
                    assert(lower_node(s, fs, decl) == Ok::<Lowering, CompilerError>(Lowering { current: 0, ..f }));
                    assert(lower_nodes(s, fs, ast) == lower_node(s, fs, decl));
                    assert(f.code[0].len() == 9);
                    assert(f.code[0][0].kind == InstructionKind::LoadI64(n));
                    assert(f.code[0][4].kind == InstructionKind::JumpIfFalse(8));
                    assert(f.code[0][7].kind == InstructionKind::Jump(1));
                    assert(f.code[0][8].kind == InstructionKind::Halt);
                }
            }
        }
    }
}

/// Running the compiled `fun main do n while dup 0 > do 1 - end end` from
/// the start of its entry block, for `n` at least zero: the load, then the
/// condition `n + 1` times and the body `n` times (`7 * n + 4` steps), then
/// the halt; the program ends with zero on the stack.
pub proof fn lemma_countdown_program(
    ast: Seq<AstNode>,
    n: i64,
    p: Program,
    r: Result<Program, CompilerError>,
    start: State,
)
    requires
        n >= 0,
        countdown_program(ast, n),
        Resolver::resolved(ast, Ok(p)),
        Compiler::compiled(p, p.entry_point, ast, r),
        start.stack.len() == 0,
        start.bp == r->Ok_0.entry_point,
        start.ip == 0,
        !start.awaiting,
    ensures
        r is Ok,
        run(start, r->Ok_0.code(), (7 * n + 6) as nat) == (
            counter_state(start, 8, 0),
            Effect::Halted,
        ),
        crate::interpreter::final_value(counter_state(start, 8, 0)) == Value::I64(0),
{
    lemma_countdown_compiles(ast, n, p, r);
    let code = r->Ok_0.code();
    let s1 = counter_state(start, 1, n);
    assert(next(start, code) == (s1, Effect::Running)) by {
        assert(start.stack.push(Value::I64(n)) =~= seq![Value::I64(n)]);
    }
    lemma_countdown(start, code, n);
    lemma_run_split(start, code, 1, (7 * n + 5) as nat);
    lemma_run_split(s1, code, (7 * n + 4) as nat, 1);
    assert(run(start, code, 1) == (s1, Effect::Running)) by {
        reveal_with_fuel(run, 2);
    }
    assert(run(counter_state(start, 8, 0), code, 1) == (counter_state(start, 8, 0), Effect::Halted)) by {
        reveal_with_fuel(run, 2);
    }
    assert((7 * n + 6) as nat == 1 + (7 * n + 5) as nat);
    assert((7 * n + 5) as nat == (7 * n + 4) as nat + 1);
}

/// In a compiled program, every top-level if/else keeps its backpatched
/// jumps: the placeholder emitted for the `k`-th node becomes a conditional
/// jump to just past the "then" branch's closing jump, and that jump
/// targets the index past the whole construct; later nodes change neither.
pub proof fn lemma_compiled_if_backpatch(
    before: Program,
    start: usize,
    ast: Seq<AstNode>,
    k: int,
    r: Result<Program, CompilerError>,
)
    requires
        Compiler::compiled(before, start, ast, r),
        r is Ok,
        start < before.blocks@.len(),
        entries_below(before.functions@, before.blocks@.len()),
        0 <= k < ast.len(),
        ast[k] is IfExpression,
        r->Ok_0.code()[start as int].len() <= usize::MAX,
    ensures
        ({
            let s = Lowering { code: before.code(), strings: before.string_table(), current: start };
            let branch = cursor(lower_nodes(s, before.functions@, ast.take(k))->Ok_0);
            let end = cursor(lower_nodes(s, before.functions@, ast.take(k + 1))->Ok_0);
            let code = r->Ok_0.code()[start as int];
            &&& code[branch].kind is JumpIfFalse
            &&& branch + 1 < code[branch].kind->JumpIfFalse_0 <= end
            &&& code[code[branch].kind->JumpIfFalse_0 - 1].kind == InstructionKind::Jump(end as usize)
        }),
{
    let fs = before.functions@;
    let s = Lowering { code: before.code(), strings: before.string_table(), current: start };
    assert(s.code.len() == before.blocks@.len());
    lemma_prefix_lowering(s, fs, ast, k);
    lemma_prefix_lowering(s, fs, ast, k + 1);
    let sk = lower_nodes(s, fs, ast.take(k))->Ok_0;
    let tk = lower_nodes(s, fs, ast.take(k + 1))->Ok_0;
    assert(ast.take(k + 1).drop_last() =~= ast.take(k));
    assert(ast.take(k + 1).last() == ast[k]);
    assert(lower_node(sk, fs, ast[k]) == lower_nodes(s, fs, ast.take(k + 1)));
    let t = lower_nodes(s, fs, ast)->Ok_0;
    crate::compiler::lemma_nodes_lengthens(s, fs, ast);
    assert(crate::compiler::lengthens(s, t));
    assert(crate::compiler::lengthens(tk, t));
    assert(crate::compiler::lengthens(sk, t));
    assert(sk.current == start && sk.code.len() == s.code.len());
    assert(t.code[start as int].len() >= tk.code[start as int].len());
    lemma_if_backpatch(sk, fs, ast[k]);
}

/// The same for an if/else at the top of the body of a top-level function
/// declaration: its jumps stand patched in the function's block of the
/// compiled program.
pub proof fn lemma_compiled_declared_if_backpatch(
    before: Program,
    start: usize,
    ast: Seq<AstNode>,
    k: int,
    j: int,
    r: Result<Program, CompilerError>,
)
    requires
        Compiler::compiled(before, start, ast, r),
        r is Ok,
        start < before.blocks@.len(),
        entries_below(before.functions@, before.blocks@.len()),
        0 <= k < ast.len(),
        ast[k] is FunctionDeclaration,
        0 <= j < ast[k]->FunctionDeclaration_body.nodes@.len(),
        ast[k]->FunctionDeclaration_body.nodes@[j] is IfExpression,
        lookup(before.functions@, ast[k]->FunctionDeclaration_name@) is Some,
        r->Ok_0.code()[lookup(before.functions@, ast[k]->FunctionDeclaration_name@)->Some_0 as int].len()
            <= usize::MAX,
    ensures
        ({
            let fs = before.functions@;
            let b = lookup(fs, ast[k]->FunctionDeclaration_name@)->Some_0;
            let body = ast[k]->FunctionDeclaration_body.nodes@;
            let s = Lowering { code: before.code(), strings: before.string_table(), current: start };
            let u = Lowering { current: b, ..lower_nodes(s, fs, ast.take(k))->Ok_0 };
            let branch = cursor(lower_nodes(u, fs, body.take(j))->Ok_0);
            let end = cursor(lower_nodes(u, fs, body.take(j + 1))->Ok_0);
            let code = r->Ok_0.code()[b as int];
            &&& code[branch].kind is JumpIfFalse
            &&& branch + 1 < code[branch].kind->JumpIfFalse_0 <= end
            &&& code[code[branch].kind->JumpIfFalse_0 - 1].kind == InstructionKind::Jump(end as usize)
        }),
{
    let fs = before.functions@;
    let name = ast[k]->FunctionDeclaration_name;
    let body = ast[k]->FunctionDeclaration_body.nodes@;
    let b = lookup(fs, name@)->Some_0;
    let s = Lowering { code: before.code(), strings: before.string_table(), current: start };
    assert(s.code.len() == before.blocks@.len());
    crate::compiler::lemma_lookup_below(fs, name@, s.code.len());
    lemma_prefix_lowering(s, fs, ast, k);
    lemma_prefix_lowering(s, fs, ast, k + 1);
    let sk = lower_nodes(s, fs, ast.take(k))->Ok_0;
    let tk = lower_nodes(s, fs, ast.take(k + 1))->Ok_0;
    assert(ast.take(k + 1).drop_last() =~= ast.take(k));
    assert(ast.take(k + 1).last() == ast[k]);
    let t = lower_nodes(s, fs, ast)->Ok_0;
    crate::compiler::lemma_nodes_lengthens(s, fs, ast);
    assert(crate::compiler::lengthens(s, t));
    assert(crate::compiler::lengthens(sk, t));
    assert(crate::compiler::lengthens(tk, t));
    let u = Lowering { current: b, ..sk };
    assert(lower_node(sk, fs, ast[k]) == lower_nodes(s, fs, ast.take(k + 1)));
    assert(lower_nodes(u, fs, body) is Ok);
    let v = lower_nodes(u, fs, body)->Ok_0;
    crate::compiler::lemma_nodes_lengthens(u, fs, body);
    lemma_prefix_lowering(u, fs, body, j);
    lemma_prefix_lowering(u, fs, body, j + 1);
    let uj = lower_nodes(u, fs, body.take(j))->Ok_0;
    let vj = lower_nodes(u, fs, body.take(j + 1))->Ok_0;
    assert(body.take(j + 1).drop_last() =~= body.take(j));
    assert(body.take(j + 1).last() == body[j]);
    assert(lower_node(uj, fs, body[j]) == lower_nodes(u, fs, body.take(j + 1)));
    assert(crate::compiler::lengthens(vj, v));
    assert(crate::compiler::lengthens(u, v));
    assert(v.current == b);
    assert forall|x: int| 0 <= x < v.code[b as int].len() implies #[trigger] tk.code[b as int][x]
        == v.code[b as int][x] by {}
    assert(tk.code[b as int].len() == v.code[b as int].len() + 1);
    assert(t.code[b as int].len() >= tk.code[b as int].len());
    assert(uj.current == b && uj.code.len() == s.code.len());
    lemma_if_backpatch(uj, fs, body[j]);
}

} // verus!
