use stack_lang::ast::{AstNode, Block};
use stack_lang::compiler::Compiler;
use stack_lang::error::{CompilerError, ResolverError, RuntimeError};
use stack_lang::instruction::{Instruction, InstructionKind};
use stack_lang::interpreter::{FloatRequest, Interpreter, Outcome};
use stack_lang::location::Location;
use stack_lang::program::Program;
use stack_lang::resolver::Resolver;
use stack_lang::value::{Str, Value};

fn at(line: usize, column: usize) -> Location {
    Location::new(line, column)
}

fn integer(v: i64) -> AstNode {
    AstNode::IntegerLiteral(v, at(1, 1))
}

fn float(v: f64) -> AstNode {
    AstNode::FloatLiteral(v.to_bits(), at(1, 1))
}

fn string(s: &str) -> AstNode {
    AstNode::StringLiteral(s.to_string(), at(1, 1))
}

fn op(name: &str) -> AstNode {
    AstNode::FunctionCall { name: name.to_string(), location: at(2, 3) }
}

fn word(name: &str) -> AstNode {
    AstNode::Identifier(name.to_string(), at(1, 1))
}

fn fun(name: &str, body: Vec<AstNode>) -> AstNode {
    AstNode::FunctionDeclaration { name: name.to_string(), body: Block::new(body), location: at(1, 1) }
}

fn as_float(v: &Value) -> f64 {
    match v {
        Value::I64(i) => *i as f64,
        Value::F64(bits) => f64::from_bits(*bits),
        other => panic!("not a number: {:?}", other),
    }
}

fn answer(q: &FloatRequest) -> Value {
    let a = as_float(&q.left);
    let b = as_float(&q.right);
    match q.op {
        InstructionKind::Add => Value::F64((a + b).to_bits()),
        InstructionKind::Sub => Value::F64((a - b).to_bits()),
        InstructionKind::Mul => Value::F64((a * b).to_bits()),
        InstructionKind::Div => Value::F64((a / b).to_bits()),
        InstructionKind::Mod => Value::F64((a % b).to_bits()),
        InstructionKind::Equals => Value::Bool(a == b),
        InstructionKind::NotEquals => Value::Bool(a != b),
        InstructionKind::LessThan => Value::Bool(a < b),
        InstructionKind::LessThanEquals => Value::Bool(a <= b),
        InstructionKind::GreaterThan => Value::Bool(a > b),
        InstructionKind::GreaterThanEquals => Value::Bool(a >= b),
        other => panic!("not a float operation: {:?}", other),
    }
}

/// Runs to the end, answering float requests; returns the final value and
/// what was printed.
fn execute(interpreter: &mut Interpreter) -> Result<(Value, Vec<Value>), RuntimeError> {
    let mut printed = Vec::new();
    loop {
        match interpreter.interpret(1000)? {
            Outcome::Finished(v) => return Ok((v, printed)),
            Outcome::Print(v) => printed.push(v),
            Outcome::Float(q) => interpreter.complete_float(answer(&q)),
            Outcome::Paused => {}
        }
    }
}

fn build(ast: Vec<AstNode>) -> Result<Program, CompilerError> {
    let program = Resolver::new().resolve(&ast).expect("resolves");
    Compiler::new(program).compile(ast)
}

fn run_ast(ast: Vec<AstNode>) -> Result<(Value, Vec<Value>), RuntimeError> {
    let program = build(ast).expect("compiles");
    execute(&mut Interpreter::new(program))
}

fn run_code(code: Vec<InstructionKind>) -> Result<(Value, Vec<Value>), RuntimeError> {
    let mut program = Program::new();
    let b = program.add_block();
    for (i, kind) in code.into_iter().enumerate() {
        program.add_instruction_at(b, Instruction::new(kind, &at(3, i + 1)));
    }
    execute(&mut Interpreter::new(program))
}

#[test]
fn combine_takes_smaller_line_and_column() {
    let a = at(3, 9);
    let b = at(5, 2);
    assert_eq!(a.combine(&b), at(3, 2));
}

#[test]
fn integer_addition_stays_integer() {
    let r = run_code(vec![InstructionKind::LoadI64(1), InstructionKind::LoadI64(2), InstructionKind::Add]);
    assert_eq!(r.unwrap().0, Value::I64(3));
}

#[test]
fn mixed_addition_promotes_to_float() {
    let r = run_code(vec![
        InstructionKind::LoadI64(1),
        InstructionKind::LoadF64(2.0f64.to_bits()),
        InstructionKind::Add,
    ]);
    assert_eq!(r.unwrap().0, Value::F64(3.0f64.to_bits()));
}

#[test]
fn integer_division_gives_float() {
    let r = run_code(vec![InstructionKind::LoadI64(1), InstructionKind::LoadI64(2), InstructionKind::Div]);
    assert_eq!(r.unwrap().0, Value::F64(0.5f64.to_bits()));
}

#[test]
fn division_hands_out_a_float_request() {
    let mut program = Program::new();
    program.add_block();
    program.add_instruction_at(0, Instruction::new(InstructionKind::LoadI64(7), &at(1, 1)));
    program.add_instruction_at(0, Instruction::new(InstructionKind::LoadI64(2), &at(1, 2)));
    program.add_instruction_at(0, Instruction::new(InstructionKind::Div, &at(1, 3)));
    let mut interpreter = Interpreter::new(program);
    let outcome = interpreter.interpret(10).unwrap();
    assert_eq!(
        outcome,
        Outcome::Float(FloatRequest { op: InstructionKind::Div, left: Value::I64(7), right: Value::I64(2) })
    );
    assert!(interpreter.awaiting);
    assert_eq!(interpreter.stack.len(), 0);
}

#[test]
fn subtraction_keeps_operand_order() {
    let r = run_code(vec![InstructionKind::LoadI64(10), InstructionKind::LoadI64(4), InstructionKind::Sub]);
    assert_eq!(r.unwrap().0, Value::I64(6));
    let r = run_code(vec![InstructionKind::LoadI64(-7), InstructionKind::LoadI64(3), InstructionKind::Mod]);
    assert_eq!(r.unwrap().0, Value::I64(-1));
}

#[test]
fn integer_multiplication_wraps() {
    let r = run_code(vec![InstructionKind::LoadI64(i64::MAX), InstructionKind::LoadI64(2), InstructionKind::Mul]);
    assert_eq!(r.unwrap().0, Value::I64(-2));
}

#[test]
fn remainder_by_zero_fails() {
    let r = run_code(vec![InstructionKind::LoadI64(5), InstructionKind::LoadI64(0), InstructionKind::Mod]);
    assert_eq!(r.unwrap_err(), RuntimeError::DivisionByZero(at(3, 3)));
}

#[test]
fn mismatched_operands_fail() {
    let r = run_code(vec![InstructionKind::LoadI64(5), InstructionKind::LoadBool(true), InstructionKind::Add]);
    assert_eq!(r.unwrap_err(), RuntimeError::InvalidTypes(at(3, 3)));
    let r = run_code(vec![InstructionKind::LoadI64(5), InstructionKind::Not]);
    assert_eq!(r.unwrap_err(), RuntimeError::InvalidTypes(at(3, 2)));
    let r = run_code(vec![InstructionKind::LoadI64(5), InstructionKind::JumpIfFalse(0)]);
    assert_eq!(r.unwrap_err(), RuntimeError::InvalidTypes(at(3, 2)));
}

#[test]
fn empty_stack_underflows_with_location() {
    let ops = [
        InstructionKind::Add,
        InstructionKind::Sub,
        InstructionKind::Mul,
        InstructionKind::Div,
        InstructionKind::Mod,
        InstructionKind::Equals,
        InstructionKind::NotEquals,
        InstructionKind::LessThan,
        InstructionKind::LessThanEquals,
        InstructionKind::GreaterThan,
        InstructionKind::GreaterThanEquals,
        InstructionKind::And,
        InstructionKind::Or,
        InstructionKind::Not,
    ];
    for kind in ops {
        let r = run_code(vec![InstructionKind::NoOp, kind]);
        assert_eq!(r.unwrap_err(), RuntimeError::StackUnderflow(at(3, 2)));
    }
    let r = run_code(vec![InstructionKind::LoadI64(1), InstructionKind::Add]);
    assert_eq!(r.unwrap_err(), RuntimeError::StackUnderflow(at(3, 2)));
}

#[test]
fn empty_program_yields_zero() {
    assert_eq!(run_code(vec![]).unwrap().0, Value::I64(0));
}

#[test]
fn comparisons_and_booleans() {
    let r = run_code(vec![InstructionKind::LoadI64(1), InstructionKind::LoadI64(2), InstructionKind::LessThan]);
    assert_eq!(r.unwrap().0, Value::Bool(true));
    let r = run_code(vec![
        InstructionKind::LoadF64(2.5f64.to_bits()),
        InstructionKind::LoadI64(2),
        InstructionKind::GreaterThanEquals,
    ]);
    assert_eq!(r.unwrap().0, Value::Bool(true));
    let r = run_code(vec![InstructionKind::LoadBool(true), InstructionKind::LoadBool(false), InstructionKind::Or]);
    assert_eq!(r.unwrap().0, Value::Bool(true));
    let r = run_code(vec![InstructionKind::LoadBool(true), InstructionKind::LoadBool(false), InstructionKind::And]);
    assert_eq!(r.unwrap().0, Value::Bool(false));
}

#[test]
fn cross_variant_equality_is_false() {
    let r = run_code(vec![InstructionKind::LoadI64(1), InstructionKind::LoadBool(true), InstructionKind::Equals]);
    assert_eq!(r.unwrap().0, Value::Bool(false));
    let r = run_code(vec![InstructionKind::LoadI64(1), InstructionKind::LoadBool(true), InstructionKind::NotEquals]);
    assert_eq!(r.unwrap().0, Value::Bool(true));
    assert_eq!(Value::I64(1).equals(&Value::Bool(true)), Some(false));
    assert_eq!(Value::I64(4).equals(&Value::I64(4)), Some(true));
    assert_eq!(Value::F64(1).equals(&Value::F64(1)), None);
}

#[test]
fn stack_shuffles() {
    let r = run_code(vec![
        InstructionKind::LoadI64(1),
        InstructionKind::LoadI64(2),
        InstructionKind::Over,
        InstructionKind::Print,
        InstructionKind::Swap,
        InstructionKind::Print,
        InstructionKind::Dup,
        InstructionKind::Add,
        InstructionKind::LoadI64(9),
        InstructionKind::Drop,
    ])
    .unwrap();
    assert_eq!(r.1, vec![Value::I64(1), Value::I64(1)]);
    assert_eq!(r.0, Value::I64(4));
}

#[test]
fn concatenation_interns_one_string() {
    let mut program = Program::new();
    program.add_block();
    let a = program.add_string(&"a".to_string());
    let b = program.add_string(&"b".to_string());
    for kind in [InstructionKind::LoadConstant(a), InstructionKind::LoadConstant(b), InstructionKind::Add] {
        program.add_instruction_at(0, Instruction::new(kind, &at(1, 1)));
    }
    let mut interpreter = Interpreter::new(program);
    assert_eq!(interpreter.interpret(3).unwrap(), Outcome::Paused);
    assert_eq!(interpreter.program.strings.len(), 3);
    assert_eq!(interpreter.stack, vec![Value::String(Str::new(2, 2))]);
    let mut interpreter = interpreter;
    assert_eq!(execute(&mut interpreter).unwrap().0, Value::RawString("ab".to_string()));
}

#[test]
fn concatenation_reuses_an_interned_result() {
    let r = run_ast(vec![fun("main", vec![string("ab"), string("a"), string("b"), op("__plus"), op("__eqeq")])]);
    assert_eq!(r.unwrap().0, Value::Bool(true));
    let program = build(vec![string("ab"), string("a"), string("b"), op("__plus")]).unwrap();
    assert_eq!(program.strings.len(), 3);
    let mut interpreter = Interpreter::new(program);
    let v = execute(&mut interpreter).unwrap().0;
    assert_eq!(v, Value::RawString("ab".to_string()));
    assert_eq!(interpreter.program.strings.len(), 3);
}

#[test]
fn string_table_deduplicates() {
    let mut program = Program::new();
    assert_eq!(program.add_string(&"x".to_string()), 0);
    assert_eq!(program.add_string(&"y".to_string()), 1);
    assert_eq!(program.add_string(&"x".to_string()), 0);
    assert_eq!(program.strings.len(), 2);
}

fn if_else(condition: bool) -> Vec<AstNode> {
    vec![fun(
        "main",
        vec![
            AstNode::BooleanLiteral(condition, at(1, 1)),
            AstNode::IfExpression {
                then_branch: Block::new(vec![integer(1), word("print")]),
                else_branch: Some(Block::new(vec![integer(2), word("print")])),
                location: at(4, 1),
            },
        ],
    )]
}

#[test]
fn if_else_runs_exactly_one_branch() {
    let r = run_ast(if_else(true)).unwrap();
    assert_eq!(r.1, vec![Value::I64(1)]);
    let r = run_ast(if_else(false)).unwrap();
    assert_eq!(r.1, vec![Value::I64(2)]);
}

#[test]
fn if_else_jumps_are_patched_past_each_branch() {
    let program = build(if_else(true)).unwrap();
    let code: Vec<InstructionKind> = program.blocks[0].instructions.iter().map(|i| i.kind).collect();
    assert_eq!(
        code,
        vec![
            InstructionKind::LoadBool(true),
            InstructionKind::JumpIfFalse(5),
            InstructionKind::LoadI64(1),
            InstructionKind::Print,
            InstructionKind::Jump(7),
            InstructionKind::LoadI64(2),
            InstructionKind::Print,
            InstructionKind::Halt,
        ]
    );
    for block in &program.blocks {
        assert!(block.instructions.iter().all(|i| i.kind != InstructionKind::Patch));
    }
}

#[test]
fn if_without_else() {
    let ast = vec![
        AstNode::BooleanLiteral(false, at(1, 1)),
        AstNode::IfExpression { then_branch: Block::new(vec![integer(1)]), else_branch: None, location: at(1, 1) },
    ];
    let program = build(ast).unwrap();
    let code: Vec<InstructionKind> = program.blocks[0].instructions.iter().map(|i| i.kind).collect();
    assert_eq!(
        code,
        vec![
            InstructionKind::LoadBool(false),
            InstructionKind::JumpIfFalse(4),
            InstructionKind::LoadI64(1),
            InstructionKind::Jump(4),
        ]
    );
    assert_eq!(execute(&mut Interpreter::new(program)).unwrap().0, Value::I64(0));
}

/// `0 N while dup 0 > do swap 1 + swap 1 - end drop`: counts body runs.
fn countdown(n: i64) -> Vec<AstNode> {
    vec![
        integer(0),
        integer(n),
        AstNode::WhileExpression {
            condition: Block::new(vec![word("dup"), integer(0), op("__gt")]),
            body: Block::new(vec![word("swap"), integer(1), op("__plus"), word("swap"), integer(1), op("__minus")]),
            location: at(5, 1),
        },
        word("drop"),
    ]
}

fn count_condition_runs(n: i64) -> (Value, usize) {
    let program = build(countdown(n)).unwrap();
    let mut interpreter = Interpreter::new(program);
    let mut checks = 0;
    loop {
        if interpreter.bp == 0 && interpreter.ip == 2 {
            checks += 1;
        }
        match interpreter.interpret(1).unwrap() {
            Outcome::Finished(v) => return (v, checks),
            Outcome::Paused => {}
            other => panic!("unexpected {:?}", other),
        }
    }
}

#[test]
fn loop_runs_body_n_times() {
    for n in [0i64, 1, 3, 7] {
        let (v, checks) = count_condition_runs(n);
        assert_eq!(v, Value::I64(n));
        assert_eq!(checks, n as usize + 1);
    }
}

#[test]
fn zero_trip_loop() {
    let (v, checks) = count_condition_runs(0);
    assert_eq!(v, Value::I64(0));
    assert_eq!(checks, 1);
}

#[test]
fn forward_calls_and_nested_returns() {
    let ast = vec![
        fun("main", vec![word("first"), integer(100), op("__plus")]),
        fun("first", vec![AstNode::FunctionCall { name: "second".to_string(), location: at(1, 1) }, integer(10), op("__plus")]),
        fun("second", vec![integer(1)]),
    ];
    assert_eq!(run_ast(ast).unwrap().0, Value::I64(111));
}

#[test]
fn recursion_deeper_than_one() {
    // down: n -> if n > 0 then n - 1 down
    let ast = vec![
        fun("main", vec![integer(0), integer(4), word("down"), word("drop")]),
        fun(
            "down",
            vec![
                word("dup"),
                integer(0),
                op("__gt"),
                AstNode::IfExpression {
                    then_branch: Block::new(vec![
                        word("swap"),
                        integer(1),
                        op("__plus"),
                        word("swap"),
                        integer(1),
                        op("__minus"),
                        word("down"),
                    ]),
                    else_branch: None,
                    location: at(1, 1),
                },
            ],
        ),
    ];
    assert_eq!(run_ast(ast).unwrap().0, Value::I64(4));
}

#[test]
fn resolver_registers_functions_and_entry() {
    let ast = vec![fun("helper", vec![integer(1)]), fun("main", vec![word("helper")])];
    let program = Resolver::new().resolve(&ast).unwrap();
    assert_eq!(program.blocks.len(), 2);
    assert_eq!(program.entry_point, 1);
    assert_eq!(program.find_function(&"helper".to_string()), Some(0));
    assert_eq!(program.find_function(&"main".to_string()), Some(1));
}

#[test]
fn resolver_adds_implicit_entry() {
    let program = Resolver::new().resolve(&vec![integer(1)]).unwrap();
    assert_eq!(program.blocks.len(), 1);
    assert_eq!(program.entry_point, 0);
    assert_eq!(program.find_function(&"main".to_string()), Some(0));
}

#[test]
fn explicit_call_to_main_is_rejected() {
    let ast = vec![fun("main", vec![integer(1)]), AstNode::FunctionCall { name: "main".to_string(), location: at(7, 2) }];
    assert_eq!(Resolver::new().resolve(&ast).unwrap_err(), ResolverError::CallToMain(at(7, 2)));
}

#[test]
fn unknown_function_is_rejected() {
    let r = build(vec![fun("main", vec![word("nowhere")])]);
    assert_eq!(r.unwrap_err(), CompilerError::UnknownFunction("nowhere".to_string()));
    let r = build(vec![op("__nothing")]);
    assert_eq!(r.unwrap_err(), CompilerError::UnknownFunction("__nothing".to_string()));
}

#[test]
fn compilation_and_execution_are_deterministic() {
    let a = build(countdown(3)).unwrap();
    let b = build(countdown(3)).unwrap();
    assert_eq!(a.blocks[0].instructions, b.blocks[0].instructions);
    assert_eq!(a.strings, b.strings);
    let ra = execute(&mut Interpreter::new(a)).unwrap();
    let rb = execute(&mut Interpreter::new(b)).unwrap();
    assert_eq!(ra, rb);
}

#[test]
fn float_literals_and_printing_strings() {
    let r = run_ast(vec![string("hi"), word("print"), float(1.5), float(2.0), op("__mult")]).unwrap();
    assert_eq!(r.1, vec![Value::RawString("hi".to_string())]);
    assert_eq!(r.0, Value::F64(3.0f64.to_bits()));
}

#[test]
fn quit_halts() {
    let r = run_ast(vec![integer(1), op("()__quit"), integer(2)]).unwrap();
    assert_eq!(r.0, Value::I64(1));
}

#[test]
fn countdown_loop_lowering() {
    let ast = vec![
        integer(5),
        AstNode::WhileExpression {
            condition: Block::new(vec![word("dup"), integer(0), op("__gt")]),
            body: Block::new(vec![integer(1), op("__minus")]),
            location: at(1, 1),
        },
    ];
    let program = build(ast).unwrap();
    let code: Vec<InstructionKind> = program.blocks[0].instructions.iter().map(|i| i.kind).collect();
    assert_eq!(
        code,
        vec![
            InstructionKind::LoadI64(5),
            InstructionKind::Dup,
            InstructionKind::LoadI64(0),
            InstructionKind::GreaterThan,
            InstructionKind::JumpIfFalse(8),
            InstructionKind::LoadI64(1),
            InstructionKind::Sub,
            InstructionKind::Jump(1),
        ]
    );
    let mut interpreter = Interpreter::new(program);
    assert_eq!(interpreter.interpret(1).unwrap(), Outcome::Paused);
    assert_eq!(interpreter.interpret(7 * 5 + 4).unwrap(), Outcome::Paused);
    assert_eq!(interpreter.ip, 8);
    assert_eq!(interpreter.stack, vec![Value::I64(0)]);
}

#[test]
fn declarations_nested_in_branches_and_loops_are_registered() {
    let ast = vec![fun(
        "main",
        vec![
            AstNode::BooleanLiteral(true, at(1, 1)),
            AstNode::IfExpression {
                then_branch: Block::new(vec![fun("g", vec![integer(4)])]),
                else_branch: Some(Block::new(vec![fun("h", vec![integer(5)])])),
                location: at(1, 1),
            },
            AstNode::BooleanLiteral(false, at(1, 1)),
            AstNode::WhileExpression {
                condition: Block::new(vec![]),
                body: Block::new(vec![fun("k", vec![integer(6)])]),
                location: at(1, 1),
            },
            word("g"),
            word("h"),
            op("__plus"),
            word("k"),
            op("__plus"),
        ],
    )];
    let program = Resolver::new().resolve(&ast).unwrap();
    assert_eq!(program.blocks.len(), 4);
    assert_eq!(program.find_function(&"g".to_string()), Some(1));
    assert_eq!(program.find_function(&"h".to_string()), Some(2));
    assert_eq!(program.find_function(&"k".to_string()), Some(3));
    assert_eq!(run_ast(ast).unwrap().0, Value::I64(15));
}

#[test]
fn first_unresolved_call_is_reported_after_nested_declaration() {
    let ast = vec![fun(
        "main",
        vec![
            AstNode::BooleanLiteral(true, at(1, 1)),
            AstNode::IfExpression {
                then_branch: Block::new(vec![fun("g", vec![])]),
                else_branch: None,
                location: at(1, 1),
            },
            word("missing"),
        ],
    )];
    assert_eq!(build(ast).unwrap_err(), CompilerError::UnknownFunction("missing".to_string()));
}
