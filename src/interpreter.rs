use vstd::prelude::*;
use vstd::string::*;
use crate::error::RuntimeError;
use crate::instruction::{Instruction, InstructionKind};
use crate::program::{distinct, executable, intern, Program};
use crate::value::{spec_equals, Str, Value};

verus! {

/// Where to resume after a call returns.
#[derive(Debug, Clone, Copy, PartialEq, Eq, Structural)]
pub struct Frame {
    pub block: usize,
    pub instruction: usize,
}

/// An operation on at least one float, which the caller computes with
/// IEEE-754 binary64 arithmetic: an integer operand is first converted to a
/// float. `op` is an arithmetic opcode (the answer is a float) or an
/// equality or ordering opcode (the answer is a boolean).
#[derive(Debug, Clone, PartialEq)]
pub struct FloatRequest {
    pub op: InstructionKind,
    pub left: Value,
    pub right: Value,
}

/// What one instruction did, as seen from outside the machine.
#[derive(Debug, Clone, PartialEq)]
pub enum Step {
    /// Nothing that the caller must act on.
    Running,
    /// A value to write to the output sink, interned strings resolved.
    Print(Value),
    /// A float operation to compute and hand back with `complete_float`.
    Float(FloatRequest),
    /// Execution has stopped: a halt, a return with no caller, or a pointer
    /// out of range.
    Halted,
}

/// How a bounded run of the machine ended.
#[derive(Debug, Clone, PartialEq)]
pub enum Outcome {
    /// The program stopped; this is its final value.
    Finished(Value),
    /// A value to write to the output sink; the run can be continued.
    Print(Value),
    /// A float operation to compute and hand back with `complete_float`.
    Float(FloatRequest),
    /// The step budget ran out; the run can be continued.
    Paused,
}

/// The machine's state as a mathematical value.
pub struct State {
    pub stack: Seq<Value>,
    pub strings: Seq<Seq<char>>,
    pub bp: usize,
    pub ip: usize,
    pub frames: Seq<Frame>,
    pub awaiting: bool,
}

/// What an instruction does, before interned strings are resolved.
pub enum Effect {
    Running,
    Print(Value),
    Float(FloatRequest),
    Halted,
    Fault(RuntimeError),
}

/// The result of a two-operand opcode on its operands.
pub enum Binary {
    Push(Value),
    Concat(Seq<char>),
    Float,
    Invalid,
    ZeroDivisor,
}

/// Truncated integer remainder for a nonzero divisor.
pub open spec fn remainder(a: i64, b: i64) -> i64 {
    match a.checked_rem(b) {
        Some(v) => v,
        None => 0,
    }
}

pub open spec fn is_binary(kind: InstructionKind) -> bool {
    match kind {
        InstructionKind::Add | InstructionKind::Sub | InstructionKind::Mul | InstructionKind::Div
        | InstructionKind::Mod | InstructionKind::And | InstructionKind::Or
        | InstructionKind::Equals | InstructionKind::NotEquals | InstructionKind::LessThan
        | InstructionKind::LessThanEquals | InstructionKind::GreaterThan
        | InstructionKind::GreaterThanEquals => true,
        _ => false,
    }
}

/// An arithmetic or ordering opcode on two integers.
pub open spec fn integer_op(op: InstructionKind, a: i64, b: i64) -> Binary {
    match op {
        InstructionKind::Add => Binary::Push(Value::I64(a.wrapping_add(b))),
        InstructionKind::Sub => Binary::Push(Value::I64(a.wrapping_sub(b))),
        InstructionKind::Mul => Binary::Push(Value::I64(a.wrapping_mul(b))),
        InstructionKind::Div => Binary::Float,
        InstructionKind::Mod => if b == 0 {
            Binary::ZeroDivisor
        } else {
            Binary::Push(Value::I64(remainder(a, b)))
        },
        InstructionKind::LessThan => Binary::Push(Value::Bool(a < b)),
        InstructionKind::LessThanEquals => Binary::Push(Value::Bool(a <= b)),
        InstructionKind::GreaterThan => Binary::Push(Value::Bool(a > b)),
        InstructionKind::GreaterThanEquals => Binary::Push(Value::Bool(a >= b)),
        _ => Binary::Invalid,
    }
}

/// An arithmetic or ordering opcode on two values: integers stay integers
/// (but for division), any float makes it a float operation.
pub open spec fn numeric_op(op: InstructionKind, l: Value, r: Value) -> Binary {
    match (l, r) {
        (Value::I64(a), Value::I64(b)) => integer_op(op, a, b),
        (Value::I64(_), Value::F64(_)) | (Value::F64(_), Value::I64(_)) | (
            Value::F64(_),
            Value::F64(_),
        ) => Binary::Float,
        _ => Binary::Invalid,
    }
}

/// A two-operand opcode on its left and right operand.
pub open spec fn binary(op: InstructionKind, l: Value, r: Value, strings: Seq<Seq<char>>) -> Binary {
    match op {
        InstructionKind::Add => match (l, r) {
            (Value::String(a), Value::String(b)) => Binary::Concat(
                strings[a.string_index as int] + strings[b.string_index as int],
            ),
            _ => numeric_op(op, l, r),
        },
        InstructionKind::And => match (l, r) {
            (Value::Bool(a), Value::Bool(b)) => Binary::Push(Value::Bool(a && b)),
            _ => Binary::Invalid,
        },
        InstructionKind::Or => match (l, r) {
            (Value::Bool(a), Value::Bool(b)) => Binary::Push(Value::Bool(a || b)),
            _ => Binary::Invalid,
        },
        InstructionKind::Equals => match spec_equals(l, r) {
            Some(e) => Binary::Push(Value::Bool(e)),
            None => Binary::Float,
        },
        InstructionKind::NotEquals => match spec_equals(l, r) {
            Some(e) => Binary::Push(Value::Bool(!e)),
            None => Binary::Float,
        },
        _ => numeric_op(op, l, r),
    }
}

/// The instruction at `(bp, ip)`, if both are in range.
pub open spec fn fetch(code: Seq<Seq<Instruction>>, bp: usize, ip: usize) -> Option<Instruction> {
    if bp < code.len() && ip < code[bp as int].len() {
        Some(code[bp as int][ip as int])
    } else {
        None
    }
}

pub open spec fn advanced(s: State) -> State {
    State { ip: (s.ip + 1) as usize, ..s }
}

pub open spec fn pushed(s: State, v: Value) -> State {
    State { stack: s.stack.push(v), ..advanced(s) }
}

/// `s` with its top `n` values dropped.
pub open spec fn popped(s: State, n: int) -> State {
    State { stack: s.stack.subrange(0, s.stack.len() - n), ..s }
}

/// A two-operand opcode on the state.
pub open spec fn execute_binary(s: State, ins: Instruction) -> (State, Effect) {
    let n = s.stack.len();
    if n < 2 {
        (s, Effect::Fault(RuntimeError::StackUnderflow(ins.location)))
    } else {
        let l = s.stack[n - 2];
        let r = s.stack[n - 1];
        let rest = popped(s, 2);
        match binary(ins.kind, l, r, s.strings) {
            Binary::Push(v) => (pushed(rest, v), Effect::Running),
            Binary::Concat(t) => {
                let (strings, index) = intern(s.strings, t);
                let v = Value::String(Str { string_index: index as usize, length: t.len() as usize });
                (pushed(State { strings, ..rest }, v), Effect::Running)
            },
            Binary::Float => (
                State { awaiting: true, ..rest },
                Effect::Float(FloatRequest { op: ins.kind, left: l, right: r }),
            ),
            Binary::Invalid => (s, Effect::Fault(RuntimeError::InvalidTypes(ins.location))),
            Binary::ZeroDivisor => (s, Effect::Fault(RuntimeError::DivisionByZero(ins.location))),
        }
    }
}

/// One instruction on the state.
pub open spec fn execute(s: State, ins: Instruction) -> (State, Effect) {
    let n = s.stack.len();
    let underflow = (s, Effect::Fault(RuntimeError::StackUnderflow(ins.location)));
    let invalid = (s, Effect::Fault(RuntimeError::InvalidTypes(ins.location)));
    match ins.kind {
        InstructionKind::Halt => (s, Effect::Halted),
        InstructionKind::NoOp | InstructionKind::DebugStack | InstructionKind::Patch => (
            advanced(s),
            Effect::Running,
        ),
        InstructionKind::LoadI64(v) => (pushed(s, Value::I64(v)), Effect::Running),
        InstructionKind::LoadF64(v) => (pushed(s, Value::F64(v)), Effect::Running),
        InstructionKind::LoadBool(v) => (pushed(s, Value::Bool(v)), Effect::Running),
        InstructionKind::LoadConstant(i) => (
            pushed(
                s,
                Value::String(Str { string_index: i, length: s.strings[i as int].len() as usize }),
            ),
            Effect::Running,
        ),
        InstructionKind::Call(target) => (
            State {
                frames: s.frames.push(Frame { block: s.bp, instruction: (s.ip + 1) as usize }),
                bp: target,
                ip: 0,
                ..s
            },
            Effect::Running,
        ),
        InstructionKind::Return => if s.frames.len() == 0 {
            (s, Effect::Halted)
        } else {
            (
                State {
                    frames: s.frames.drop_last(),
                    bp: s.frames.last().block,
                    ip: s.frames.last().instruction,
                    ..s
                },
                Effect::Running,
            )
        },
        InstructionKind::Jump(target) => (State { ip: target, ..s }, Effect::Running),
        InstructionKind::JumpIfFalse(target) => if n < 1 {
            underflow
        } else {
            match s.stack[n - 1] {
                Value::Bool(b) => (
                    State { ip: if b { (s.ip + 1) as usize } else { target }, ..popped(s, 1) },
                    Effect::Running,
                ),
                _ => invalid,
            }
        },
        InstructionKind::Not => if n < 1 {
            underflow
        } else {
            match s.stack[n - 1] {
                Value::Bool(b) => (pushed(popped(s, 1), Value::Bool(!b)), Effect::Running),
                _ => invalid,
            }
        },
        InstructionKind::Dup => if n < 1 {
            underflow
        } else {
            (pushed(s, s.stack[n - 1]), Effect::Running)
        },
        InstructionKind::Drop => if n < 1 {
            underflow
        } else {
            (advanced(popped(s, 1)), Effect::Running)
        },
        InstructionKind::Swap => if n < 2 {
            underflow
        } else {
            (
                State {
                    stack: popped(s, 2).stack.push(s.stack[n - 1]).push(s.stack[n - 2]),
                    ..advanced(s)
                },
                Effect::Running,
            )
        },
        InstructionKind::Over => if n < 2 {
            underflow
        } else {
            (pushed(s, s.stack[n - 2]), Effect::Running)
        },
        InstructionKind::Print => if n < 1 {
            underflow
        } else {
            (advanced(popped(s, 1)), Effect::Print(s.stack[n - 1]))
        },
        _ => execute_binary(s, ins),
    }
}

/// One step of the machine on `code`.
pub open spec fn next(s: State, code: Seq<Seq<Instruction>>) -> (State, Effect) {
    match fetch(code, s.bp, s.ip) {
        None => (s, Effect::Halted),
        Some(ins) => execute(s, ins),
    }
}

/// Up to `fuel` steps, stopping at the first one that is not `Running`.
pub open spec fn run(s: State, code: Seq<Seq<Instruction>>, fuel: nat) -> (State, Effect)
    decreases fuel,
{
    if fuel == 0 {
        (s, Effect::Running)
    } else {
        let (s1, e) = next(s, code);
        if e is Running {
            run(s1, code, (fuel - 1) as nat)
        } else {
            (s1, e)
        }
    }
}

/// `out` is `v` with an interned string replaced by its text.
pub open spec fn resolves(out: Value, v: Value, strings: Seq<Seq<char>>) -> bool {
    match v {
        Value::String(s) => out is RawString && out->RawString_0@ == strings[s.string_index as int],
        _ => out == v,
    }
}

/// The state once the final value is taken off the stack.
pub open spec fn finished(s: State) -> State {
    if s.stack.len() == 0 {
        s
    } else {
        popped(s, 1)
    }
}

/// The value a finished program yields: the top of the stack, or integer
/// zero when the stack is empty.
pub open spec fn final_value(s: State) -> Value {
    if s.stack.len() == 0 {
        Value::I64(0)
    } else {
        s.stack.last()
    }
}

/// Every interned-string value refers to an entry of the table.
pub open spec fn refs_in(stack: Seq<Value>, n: nat) -> bool {
    forall|i: int|
        0 <= i < stack.len() && (#[trigger] stack[i]) is String ==> stack[i]->String_0.string_index
            < n
}

/// A stack machine running a compiled program.
#[derive(Debug)]
pub struct Interpreter {
    pub stack: Vec<Value>,
    pub program: Program,
    pub bp: usize,
    pub ip: usize,
    pub frames: Vec<Frame>,
    /// A float operation has been handed out and not yet completed.
    pub awaiting: bool,
}

impl Interpreter {
    pub open spec fn state(&self) -> State {
        State {
            stack: self.stack@,
            strings: self.program.string_table(),
            bp: self.bp,
            ip: self.ip,
            frames: self.frames@,
            awaiting: self.awaiting,
        }
    }

    pub open spec fn wf(&self) -> bool {
        &&& self.program.runnable()
        &&& refs_in(self.stack@, self.program.strings@.len())
        &&& self.awaiting ==> fetch(self.program.code(), self.bp, self.ip) is Some
    }

    /// A machine at the start of `program`'s entry block.
    pub fn new(program: Program) -> (r: Self)
        requires
            program.runnable(),
        ensures
            r.wf(),
            r.program == program,
            r.stack@.len() == 0,
            r.frames@.len() == 0,
            r.bp == program.entry_point,
            r.ip == 0,
            !r.awaiting,
    {
        let bp = program.entry_point;
        Interpreter { stack: Vec::new(), program, bp, ip: 0, frames: Vec::new(), awaiting: false }
    }

    /// `v` with an interned string replaced by its text.
    pub fn resolve(&self, v: Value) -> (r: Value)
        requires
            v is String ==> v->String_0.string_index < self.program.strings@.len(),
        ensures
            resolves(r, v, self.program.string_table()),
    {
        match v {
            Value::String(s) => Value::RawString(self.program.strings[s.string_index].clone()),
            other => other,
        }
    }

    /// Pushes the result of a two-operand opcode on `l` and `r`, interning a
    /// concatenated string first.
    fn apply_binary(&mut self, op: InstructionKind, l: &Value, r: &Value) -> (res: Result<
        (),
        Binary,
    >)
        requires
            distinct(old(self).program.string_table()),
            refs_in(old(self).stack@, old(self).program.strings@.len()),
            l is String ==> l->String_0.string_index < old(self).program.strings@.len(),
            r is String ==> r->String_0.string_index < old(self).program.strings@.len(),
        ensures
            final(self).program.blocks == old(self).program.blocks,
            final(self).program.functions == old(self).program.functions,
            final(self).program.entry_point == old(self).program.entry_point,
            final(self).bp == old(self).bp,
            final(self).ip == old(self).ip,
            final(self).frames == old(self).frames,
            final(self).awaiting == old(self).awaiting,
            distinct(final(self).program.string_table()),
            refs_in(final(self).stack@, final(self).program.strings@.len()),
            final(self).program.strings@.len() >= old(self).program.strings@.len(),
            match binary(op, *l, *r, old(self).program.string_table()) {
                Binary::Push(v) => res is Ok && final(self).stack@ == old(self).stack@.push(v)
                    && final(self).program.strings == old(self).program.strings,
                Binary::Concat(t) => {
                    let (strings, index) = intern(old(self).program.string_table(), t);
                    &&& res is Ok
                    &&& final(self).program.string_table() == strings
                    &&& final(self).stack@ == old(self).stack@.push(
                        Value::String(Str { string_index: index as usize, length: t.len() as usize }),
                    )
                },
                other => res == Err::<(), Binary>(other) && final(self).stack == old(self).stack
                    && final(self).program.strings == old(self).program.strings,
            },
    {
        let ghost strings = self.program.string_table();
        let result = match (l, r) {
            (Value::String(a), Value::String(b)) => {
                if let InstructionKind::Add = op {
                    let mut text = self.program.strings[a.string_index].clone();
                    text.append(self.program.strings[b.string_index].as_str());
                    proof {
                        assert(text@ == strings[a.string_index as int] + strings[b.string_index as int]);
                    }
                    let index = self.program.add_string(&text);
                    let length = text.as_str().unicode_len();
                    self.stack.push(Value::String(Str::new(index, length)));
                    proof {
                        assert(index < self.program.strings@.len()) by {
                            assert(self.program.string_table().len() == self.program.strings@.len());
                        }
                        assert forall|i: int| 0 <= i < self.stack@.len() && self.stack@[i] is String implies
                            self.stack@[i]->String_0.string_index < self.program.strings@.len() by {
                            if i < self.stack@.len() - 1 {
                                assert(self.stack@[i] == old(self).stack@[i]);
                            }
                        }
                    }
                    return Ok(());
                }
                match op {
                    InstructionKind::Equals => Binary::Push(Value::Bool(a.string_index == b.string_index)),
                    InstructionKind::NotEquals => Binary::Push(Value::Bool(a.string_index != b.string_index)),
                    _ => Binary::Invalid,
                }
            },
            _ => Self::binary_value(op, l, r),
        };
        match result {
            Binary::Push(v) => {
                self.stack.push(v);
                proof {
                    assert forall|i: int| 0 <= i < self.stack@.len() && self.stack@[i] is String implies
                        self.stack@[i]->String_0.string_index < self.program.strings@.len() by {
                        if i < self.stack@.len() - 1 {
                            assert(self.stack@[i] == old(self).stack@[i]);
                        }
                    }
                }
                Ok(())
            },
            other => Err(other),
        }
    }

    /// A two-operand opcode on two values that are not both interned strings.
    fn binary_value(op: InstructionKind, l: &Value, r: &Value) -> (res: Binary)
        requires
            !(l is String && r is String),
        ensures
            forall|strings: Seq<Seq<char>>| #[trigger] binary(op, *l, *r, strings) == res,
            res is Push ==> !(res->Push_0 is String),
    {
        match op {
            InstructionKind::And => match (l, r) {
                (Value::Bool(a), Value::Bool(b)) => Binary::Push(Value::Bool(*a && *b)),
                _ => Binary::Invalid,
            },
            InstructionKind::Or => match (l, r) {
                (Value::Bool(a), Value::Bool(b)) => Binary::Push(Value::Bool(*a || *b)),
                _ => Binary::Invalid,
            },
            InstructionKind::Equals => match l.equals(r) {
                Some(e) => Binary::Push(Value::Bool(e)),
                None => Binary::Float,
            },
            InstructionKind::NotEquals => match l.equals(r) {
                Some(e) => Binary::Push(Value::Bool(!e)),
                None => Binary::Float,
            },
            _ => match (l, r) {
                (Value::I64(a), Value::I64(b)) => Self::integer_value(op, *a, *b),
                (Value::I64(_), Value::F64(_)) | (Value::F64(_), Value::I64(_)) | (
                    Value::F64(_),
                    Value::F64(_),
                ) => Binary::Float,
                _ => Binary::Invalid,
            },
        }
    }

    fn integer_value(op: InstructionKind, a: i64, b: i64) -> (res: Binary)
        ensures
            res == integer_op(op, a, b),
            res is Push ==> !(res->Push_0 is String),
    {
        match op {
            InstructionKind::Add => Binary::Push(Value::I64(a.wrapping_add(b))),
            InstructionKind::Sub => Binary::Push(Value::I64(a.wrapping_sub(b))),
            InstructionKind::Mul => Binary::Push(Value::I64(a.wrapping_mul(b))),
            InstructionKind::Div => Binary::Float,
            InstructionKind::Mod => if b == 0 {
                Binary::ZeroDivisor
            } else {
                match a.checked_rem(b) {
                    Some(v) => Binary::Push(Value::I64(v)),
                    None => Binary::Push(Value::I64(0)),
                }
            },
            InstructionKind::LessThan => Binary::Push(Value::Bool(a < b)),
            InstructionKind::LessThanEquals => Binary::Push(Value::Bool(a <= b)),
            InstructionKind::GreaterThan => Binary::Push(Value::Bool(a > b)),
            InstructionKind::GreaterThanEquals => Binary::Push(Value::Bool(a >= b)),
            _ => Binary::Invalid,
        }
    }

    /// The state that a step leaves and what it reports, against the
    /// model's step from `before`.
    pub open spec fn stepped(before: State, after: State, r: Result<Step, RuntimeError>, code: Seq<Seq<Instruction>>) -> bool {
        let (s, e) = next(before, code);
        match e {
            Effect::Running => r == Ok::<Step, RuntimeError>(Step::Running) && after == s,
            Effect::Halted => r == Ok::<Step, RuntimeError>(Step::Halted) && after == s,
            Effect::Float(q) => r == Ok::<Step, RuntimeError>(Step::Float(q)) && after == s,
            Effect::Print(v) => r is Ok && r->Ok_0 is Print && resolves(r->Ok_0->Print_0, v, s.strings)
                && after == s,
            Effect::Fault(err) => r == Err::<Step, RuntimeError>(err),
        }
    }

    /// Executes the current instruction.
    pub fn step(&mut self) -> (r: Result<Step, RuntimeError>)
        requires
            old(self).wf(),
            !old(self).awaiting,
        ensures
            Self::stepped(old(self).state(), final(self).state(), r, old(self).program.code()),
            final(self).program.blocks == old(self).program.blocks,
            final(self).program.functions == old(self).program.functions,
            final(self).program.entry_point == old(self).program.entry_point,
            r is Ok ==> final(self).wf(),
            r is Ok && !(r->Ok_0 is Float) ==> !final(self).awaiting,
    {
        let ghost before = self.state();
        let ghost code = self.program.code();
        if self.bp >= self.program.blocks.len() || self.ip >= self.program.blocks[self.bp].instructions.len() {
            return Ok(Step::Halted);
        }
        let ins = self.program.blocks[self.bp].instructions[self.ip];
        proof {
            assert(code[self.bp as int][self.ip as int] == ins);
            assert(executable(code[self.bp as int][self.ip as int], self.program.strings@.len()));
        }
        let location = ins.location;
        match ins.kind {
            InstructionKind::Halt => Ok(Step::Halted),
            InstructionKind::NoOp | InstructionKind::DebugStack | InstructionKind::Patch => {
                self.ip = self.ip + 1;
                Ok(Step::Running)
            },
            InstructionKind::LoadI64(v) => {
                self.push_value(Value::I64(v));
                Ok(Step::Running)
            },
            InstructionKind::LoadF64(v) => {
                self.push_value(Value::F64(v));
                Ok(Step::Running)
            },
            InstructionKind::LoadBool(v) => {
                self.push_value(Value::Bool(v));
                Ok(Step::Running)
            },
            InstructionKind::LoadConstant(index) => {
                let length = self.program.strings[index].as_str().unicode_len();
                self.push_value(Value::String(Str::new(index, length)));
                Ok(Step::Running)
            },
            InstructionKind::Call(target) => {
                self.frames.push(Frame { block: self.bp, instruction: self.ip + 1 });
                self.bp = target;
                self.ip = 0;
                Ok(Step::Running)
            },
            InstructionKind::Return => {
                match self.frames.pop() {
                    Some(frame) => {
                        self.bp = frame.block;
                        self.ip = frame.instruction;
                        Ok(Step::Running)
                    },
                    None => Ok(Step::Halted),
                }
            },
            InstructionKind::Jump(target) => {
                self.ip = target;
                Ok(Step::Running)
            },
            InstructionKind::JumpIfFalse(target) => {
                if self.stack.len() < 1 {
                    return Err(RuntimeError::StackUnderflow(location));
                }
                let ghost n = self.stack@.len();
                match self.stack[self.stack.len() - 1] {
                    Value::Bool(b) => {
                        self.stack.pop();
                        proof {
                            assert(self.stack@ =~= before.stack.subrange(0, n - 1));
                        }
                        self.ip = if b { self.ip + 1 } else { target };
                        Ok(Step::Running)
                    },
                    _ => Err(RuntimeError::InvalidTypes(location)),
                }
            },
            InstructionKind::Not => {
                if self.stack.len() < 1 {
                    return Err(RuntimeError::StackUnderflow(location));
                }
                let ghost n = self.stack@.len();
                match self.stack[self.stack.len() - 1] {
                    Value::Bool(b) => {
                        self.stack.pop();
                        proof {
                            assert(self.stack@ =~= before.stack.subrange(0, n - 1));
                        }
                        self.push_value(Value::Bool(!b));
                        Ok(Step::Running)
                    },
                    _ => Err(RuntimeError::InvalidTypes(location)),
                }
            },
            InstructionKind::Dup => {
                if self.stack.len() < 1 {
                    return Err(RuntimeError::StackUnderflow(location));
                }
                let v = self.stack[self.stack.len() - 1].duplicate();
                self.push_value(v);
                Ok(Step::Running)
            },
            InstructionKind::Drop => {
                if self.stack.len() < 1 {
                    return Err(RuntimeError::StackUnderflow(location));
                }
                let ghost n = self.stack@.len();
                self.stack.pop();
                proof {
                    assert(self.stack@ =~= before.stack.subrange(0, n - 1));
                }
                self.ip = self.ip + 1;
                Ok(Step::Running)
            },
            InstructionKind::Swap => {
                if self.stack.len() < 2 {
                    return Err(RuntimeError::StackUnderflow(location));
                }
                let ghost n = self.stack@.len();
                let right = self.stack.pop().unwrap();
                let left = self.stack.pop().unwrap();
                proof {
                    assert(self.stack@ =~= before.stack.subrange(0, n - 2));
                }
                self.stack.push(right);
                self.stack.push(left);
                self.ip = self.ip + 1;
                proof {
                    assert forall|i: int| 0 <= i < self.stack@.len() && self.stack@[i] is String implies
                        self.stack@[i]->String_0.string_index < self.program.strings@.len() by {
                        if i < n - 2 {
                            assert(self.stack@[i] == before.stack[i]);
                        } else if i == n - 2 {
                            assert(self.stack@[i] == before.stack[n - 1]);
                        } else {
                            assert(self.stack@[i] == before.stack[n - 2]);
                        }
                    }
                }
                Ok(Step::Running)
            },
            InstructionKind::Over => {
                if self.stack.len() < 2 {
                    return Err(RuntimeError::StackUnderflow(location));
                }
                let v = self.stack[self.stack.len() - 2].duplicate();
                self.push_value(v);
                Ok(Step::Running)
            },
            InstructionKind::Print => {
                if self.stack.len() < 1 {
                    return Err(RuntimeError::StackUnderflow(location));
                }
                let ghost n = self.stack@.len();
                let v = self.stack.pop().unwrap();
                proof {
                    assert(self.stack@ =~= before.stack.subrange(0, n - 1));
                    assert(v == before.stack[n - 1]);
                }
                let out = self.resolve(v);
                self.ip = self.ip + 1;
                Ok(Step::Print(out))
            },
            op => {
                if self.stack.len() < 2 {
                    return Err(RuntimeError::StackUnderflow(location));
                }
                let ghost n = self.stack@.len();
                let right = self.stack.pop().unwrap();
                let left = self.stack.pop().unwrap();
                proof {
                    assert(self.stack@ =~= before.stack.subrange(0, n - 2));
                    assert(left == before.stack[n - 2]);
                    assert(right == before.stack[n - 1]);
                }
                match self.apply_binary(op, &left, &right) {
                    Ok(()) => {
                        self.ip = self.ip + 1;
                        Ok(Step::Running)
                    },
                    Err(Binary::Float) => {
                        self.awaiting = true;
                        Ok(Step::Float(FloatRequest { op, left, right }))
                    },
                    Err(Binary::ZeroDivisor) => Err(RuntimeError::DivisionByZero(location)),
                    Err(_) => Err(RuntimeError::InvalidTypes(location)),
                }
            },
        }
    }

    /// Pushes `v` and moves to the next instruction.
    fn push_value(&mut self, v: Value)
        requires
            refs_in(old(self).stack@, old(self).program.strings@.len()),
            v is String ==> v->String_0.string_index < old(self).program.strings@.len(),
            old(self).ip < usize::MAX,
        ensures
            final(self).stack@ == old(self).stack@.push(v),
            final(self).ip == old(self).ip + 1,
            final(self).program == old(self).program,
            final(self).bp == old(self).bp,
            final(self).frames == old(self).frames,
            final(self).awaiting == old(self).awaiting,
            refs_in(final(self).stack@, final(self).program.strings@.len()),
    {
        self.stack.push(v);
        self.ip = self.ip + 1;
        proof {
            assert forall|i: int| 0 <= i < self.stack@.len() && self.stack@[i] is String implies
                self.stack@[i]->String_0.string_index < self.program.strings@.len() by {
                if i < self.stack@.len() - 1 {
                    assert(self.stack@[i] == old(self).stack@[i]);
                }
            }
        }
    }

    /// The state that a bounded run leaves and what it returns, against
    /// the model's run from `before`.
    pub open spec fn ran(before: State, after: State, r: Result<Outcome, RuntimeError>, code: Seq<Seq<Instruction>>, fuel: nat) -> bool {
        let (s, e) = run(before, code, fuel);
        match e {
            Effect::Running => r == Ok::<Outcome, RuntimeError>(Outcome::Paused) && after == s,
            Effect::Halted => r is Ok && r->Ok_0 is Finished && resolves(
                r->Ok_0->Finished_0,
                final_value(s),
                s.strings,
            ) && after == finished(s),
            Effect::Float(q) => r == Ok::<Outcome, RuntimeError>(Outcome::Float(q)) && after == s,
            Effect::Print(v) => r is Ok && r->Ok_0 is Print && resolves(r->Ok_0->Print_0, v, s.strings)
                && after == s,
            Effect::Fault(err) => r == Err::<Outcome, RuntimeError>(err),
        }
    }

    /// Hands back the answer to the float operation that the last step
    /// asked for: pushes it and moves to the next instruction.
    pub fn complete_float(&mut self, answer: Value)
        requires
            old(self).wf(),
            old(self).awaiting,
            !(answer is String),
        ensures
            final(self).wf(),
            final(self).state() == pushed(State { awaiting: false, ..old(self).state() }, answer),
            final(self).program == old(self).program,
    {
        proof {
            assert(self.program.code()[self.bp as int] == self.program.blocks@[self.bp as int].instructions@);
        }
        let length = self.program.blocks[self.bp].instructions.len();
        self.awaiting = false;
        self.push_value(answer);
    }

    /// Takes the program's final value off the stack: the top, with an
    /// interned string resolved to its text, or integer zero when the stack
    /// is empty.
    pub fn result(&mut self) -> (r: Value)
        requires
            old(self).wf(),
        ensures
            resolves(r, final_value(old(self).state()), old(self).program.string_table()),
            final(self).state() == finished(old(self).state()),
            final(self).program == old(self).program,
            final(self).wf(),
    {
        let ghost before = self.state();
        let ghost n = self.stack@.len();
        match self.stack.pop() {
            Some(v) => {
                proof {
                    assert(self.stack@ =~= before.stack.subrange(0, n - 1));
                    assert(v == before.stack[n - 1]);
                }
                self.resolve(v)
            },
            None => Value::I64(0),
        }
    }

    /// Runs at most `fuel` instructions, stopping early when the program
    /// finishes, prints, needs a float operation, or fails.
    pub fn interpret(&mut self, fuel: u64) -> (r: Result<Outcome, RuntimeError>)
        requires
            old(self).wf(),
            !old(self).awaiting,
        ensures
            Self::ran(old(self).state(), final(self).state(), r, old(self).program.code(), fuel as nat),
            final(self).program.blocks == old(self).program.blocks,
            final(self).program.functions == old(self).program.functions,
            final(self).program.entry_point == old(self).program.entry_point,
            r is Ok ==> final(self).wf(),
    {
        let ghost start = self.state();
        let ghost code = self.program.code();
        let mut remaining: u64 = fuel;
        while remaining > 0
            invariant
                self.wf(),
                !self.awaiting,
                code == self.program.code(),
                start == old(self).state(),
                code == old(self).program.code(),
                self.program.blocks == old(self).program.blocks,
                self.program.functions == old(self).program.functions,
                self.program.entry_point == old(self).program.entry_point,
                run(start, code, fuel as nat) == run(self.state(), code, remaining as nat),
            decreases remaining,
        {
            let ghost before = self.state();
            let r = self.step();
            proof {
                let (s1, e) = next(before, code);
                assert(run(before, code, remaining as nat) == if e is Running {
                    run(s1, code, (remaining - 1) as nat)
                } else {
                    (s1, e)
                });
            }
            match r {
                Ok(Step::Running) => {},
                Ok(Step::Halted) => {
                    let v = self.result();
                    return Ok(Outcome::Finished(v));
                },
                Ok(Step::Print(v)) => {
                    return Ok(Outcome::Print(v));
                },
                Ok(Step::Float(q)) => {
                    return Ok(Outcome::Float(q));
                },
                Err(e) => {
                    return Err(e);
                },
            }
            remaining = remaining - 1;
        }
        Ok(Outcome::Paused)
    }
}

} // verus!
