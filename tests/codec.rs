use stack_lang::instruction::{Instruction, InstructionKind};
use stack_lang::location::Location;
use stack_lang::program::Program;

fn every_kind() -> Vec<InstructionKind> {
    vec![
        InstructionKind::NoOp,
        InstructionKind::Patch,
        InstructionKind::LoadI64(-5),
        InstructionKind::LoadF64(2.5f64.to_bits()),
        InstructionKind::LoadBool(true),
        InstructionKind::LoadBool(false),
        InstructionKind::LoadConstant(3),
        InstructionKind::Call(1),
        InstructionKind::Add,
        InstructionKind::Sub,
        InstructionKind::Mul,
        InstructionKind::Div,
        InstructionKind::Mod,
        InstructionKind::Not,
        InstructionKind::And,
        InstructionKind::Or,
        InstructionKind::Equals,
        InstructionKind::NotEquals,
        InstructionKind::LessThan,
        InstructionKind::LessThanEquals,
        InstructionKind::GreaterThan,
        InstructionKind::GreaterThanEquals,
        InstructionKind::Dup,
        InstructionKind::Drop,
        InstructionKind::Swap,
        InstructionKind::Over,
        InstructionKind::Print,
        InstructionKind::Jump(7),
        InstructionKind::JumpIfFalse(9),
        InstructionKind::DebugStack,
        InstructionKind::Return,
        InstructionKind::Halt,
    ]
}

#[test]
fn encodes_instruction_layout() {
    let at = Location::new(1, 1);
    assert_eq!(Instruction::new(InstructionKind::NoOp, &at).to_bytes(), vec![0, 0, 0, 0]);
    assert_eq!(
        Instruction::new(InstructionKind::LoadI64(1), &at).to_bytes(),
        vec![1, 0, 0, 0, 1, 0, 0, 0, 0, 0, 0, 0]
    );
    assert_eq!(Instruction::new(InstructionKind::LoadBool(true), &at).to_bytes(), vec![4, 0, 0, 0, 1]);
    assert_eq!(Instruction::new(InstructionKind::Jump(258), &at).instruction_bytes(), vec![8, 0, 0, 0]);
    assert_eq!(
        Instruction::new(InstructionKind::Jump(258), &at).to_bytes(),
        vec![8, 0, 0, 0, 2, 1, 0, 0, 0, 0, 0, 0]
    );
}

#[test]
fn program_round_trip() {
    let mut program = Program::new();
    let a = program.add_block();
    let b = program.add_block();
    for kind in every_kind() {
        program.add_instruction_at(a, Instruction::new(kind, &Location::new(4, 2)));
    }
    program.add_instruction_at(b, Instruction::new(InstructionKind::Halt, &Location::new(1, 1)));
    program.set_entry_point(1);
    let bytes = program.to_bytes().unwrap();
    assert_eq!(&bytes[..5], &[0x4F, 0x4C, 0x01, 2, 1]);
    let decoded = Program::from_bytes(&bytes).unwrap();
    assert_eq!(decoded.entry_point, 1);
    assert_eq!(decoded.blocks.len(), 2);
    let kinds: Vec<InstructionKind> = decoded.blocks[0].instructions.iter().map(|i| i.kind).collect();
    assert_eq!(kinds, every_kind());
    assert_eq!(decoded.blocks[1].instructions.len(), 1);
}

#[test]
fn rejects_what_the_layout_cannot_hold() {
    let mut program = Program::new();
    program.add_block();
    program.set_entry_point(256);
    assert!(program.to_bytes().is_none());
    let mut program = Program::new();
    program.add_block();
    for _ in 0..256 {
        program.add_instruction_at(0, Instruction::new(InstructionKind::NoOp, &Location::new(1, 1)));
    }
    assert!(program.to_bytes().is_none());
}

#[test]
fn rejects_malformed_bytes() {
    assert!(Program::from_bytes(&vec![0x4F, 0x4C, 0x02, 0, 0]).is_none());
    assert!(Program::from_bytes(&vec![0x4F, 0x4C, 0x01, 1, 0]).is_none());
    assert!(Program::from_bytes(&vec![0x4F, 0x4C, 0x01, 1, 0, 1, 0x7F, 0, 0, 0]).is_none());
    assert!(Program::from_bytes(&vec![0x4F, 0x4C, 0x01, 0, 0, 9]).is_none());
    let empty = Program::from_bytes(&vec![0x4F, 0x4C, 0x01, 0, 0]).unwrap();
    assert_eq!(empty.blocks.len(), 0);
}
