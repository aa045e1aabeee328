use minicc::assembler::{assemble, BinaryOp, CondCode, Instruction, Operand, Reg, UnaryOp};
use minicc::tacky;

fn program(body: Vec<tacky::Instruction>) -> tacky::Program {
    tacky::Program { function_def: tacky::FunctionDef { name: "main".to_string(), body } }
}

fn var(n: &str) -> tacky::Value {
    tacky::Value::Var(n.to_string())
}

fn instrs(body: Vec<tacky::Instruction>) -> Vec<Instruction> {
    assemble(program(body)).function_def.instructions
}

fn mov(source: Operand, dest: Operand) -> Instruction {
    Instruction::Mov { source, dest }
}

fn st(o: i64) -> Operand {
    Operand::Stack(o)
}

fn reg(r: Reg) -> Operand {
    Operand::Register(r)
}

#[test]
fn return_constant() {
    let p = assemble(program(vec![tacky::Instruction::Ret(tacky::Value::Constant(2))]));
    assert_eq!(p.function_def.name, "main");
    assert_eq!(
        p.function_def.instructions,
        vec![Instruction::AllocateStack(0), mov(Operand::Imm(2), reg(Reg::AX)), Instruction::Ret]
    );
}

#[test]
fn unary_negation_places_variables_on_the_stack() {
    let out = instrs(vec![
        tacky::Instruction::Unary { unary_operator: tacky::UnaryOp::Negation, src: tacky::Value::Constant(5), dest: var("tmp.0") },
        tacky::Instruction::Unary { unary_operator: tacky::UnaryOp::Complement, src: var("tmp.0"), dest: var("tmp.1") },
        tacky::Instruction::Ret(var("tmp.1")),
    ]);
    assert_eq!(
        out,
        vec![
            Instruction::AllocateStack(8),
            mov(Operand::Imm(5), st(-4)),
            Instruction::Unary(UnaryOp::Neg, st(-4)),
            mov(st(-4), reg(Reg::R10)),
            mov(reg(Reg::R10), st(-8)),
            Instruction::Unary(UnaryOp::Not, st(-8)),
            mov(st(-8), reg(Reg::AX)),
            Instruction::Ret,
        ]
    );
}

#[test]
fn logical_not_compares_with_zero() {
    let out = instrs(vec![tacky::Instruction::Unary {
        unary_operator: tacky::UnaryOp::Not,
        src: tacky::Value::Constant(1),
        dest: var("x"),
    }]);
    assert_eq!(
        out,
        vec![
            Instruction::AllocateStack(4),
            mov(Operand::Imm(1), reg(Reg::R11)),
            Instruction::Cmp(Operand::Imm(0), reg(Reg::R11)),
            mov(Operand::Imm(0), st(-4)),
            Instruction::SetCC(CondCode::E, st(-4)),
        ]
    );
}

#[test]
fn division_and_remainder_use_idiv() {
    let out = instrs(vec![
        tacky::Instruction::Binary { binary_operator: tacky::BinaryOp::Divide, src1: tacky::Value::Constant(7), src2: tacky::Value::Constant(2), dest: var("q") },
        tacky::Instruction::Binary { binary_operator: tacky::BinaryOp::Remainder, src1: var("q"), src2: var("q"), dest: var("r") },
    ]);
    assert_eq!(
        out,
        vec![
            Instruction::AllocateStack(8),
            mov(Operand::Imm(7), reg(Reg::AX)),
            Instruction::Cdq,
            mov(Operand::Imm(2), reg(Reg::R10)),
            Instruction::Idiv(reg(Reg::R10)),
            mov(reg(Reg::AX), st(-4)),
            mov(st(-4), reg(Reg::AX)),
            Instruction::Cdq,
            Instruction::Idiv(st(-4)),
            mov(reg(Reg::DX), st(-8)),
        ]
    );
}

#[test]
fn arithmetic_between_stack_slots_goes_through_registers() {
    let out = instrs(vec![
        tacky::Instruction::Copy { src: tacky::Value::Constant(3), dest: var("a") },
        tacky::Instruction::Binary { binary_operator: tacky::BinaryOp::Add, src1: var("a"), src2: var("a"), dest: var("b") },
        tacky::Instruction::Binary { binary_operator: tacky::BinaryOp::Multiply, src1: var("b"), src2: var("a"), dest: var("c") },
        tacky::Instruction::Binary { binary_operator: tacky::BinaryOp::LeftShift, src1: var("c"), src2: var("a"), dest: var("d") },
    ]);
    assert_eq!(
        out,
        vec![
            Instruction::AllocateStack(16),
            mov(Operand::Imm(3), st(-4)),
            mov(st(-4), reg(Reg::R10)),
            mov(reg(Reg::R10), st(-8)),
            mov(st(-4), reg(Reg::R10)),
            Instruction::Binary(BinaryOp::Add, reg(Reg::R10), st(-8)),
            mov(st(-8), reg(Reg::R10)),
            mov(reg(Reg::R10), st(-12)),
            mov(st(-12), reg(Reg::R11)),
            Instruction::Binary(BinaryOp::Mult, st(-4), reg(Reg::R11)),
            mov(reg(Reg::R11), st(-12)),
            mov(st(-12), reg(Reg::R10)),
            mov(reg(Reg::R10), st(-16)),
            mov(st(-4), reg(Reg::CL)),
            Instruction::Binary(BinaryOp::Sal, reg(Reg::CL), st(-16)),
        ]
    );
}

#[test]
fn comparisons_set_condition_codes() {
    let out = instrs(vec![
        tacky::Instruction::Copy { src: tacky::Value::Constant(1), dest: var("a") },
        tacky::Instruction::Binary { binary_operator: tacky::BinaryOp::LessThanOrEqualTo, src1: var("a"), src2: var("a"), dest: var("b") },
        tacky::Instruction::Binary { binary_operator: tacky::BinaryOp::GreaterThan, src1: var("a"), src2: tacky::Value::Constant(9), dest: var("c") },
    ]);
    assert_eq!(
        out,
        vec![
            Instruction::AllocateStack(12),
            mov(Operand::Imm(1), st(-4)),
            mov(st(-4), reg(Reg::R10)),
            Instruction::Cmp(reg(Reg::R10), st(-4)),
            mov(Operand::Imm(0), st(-8)),
            Instruction::SetCC(CondCode::LE, st(-8)),
            Instruction::Cmp(Operand::Imm(9), st(-4)),
            mov(Operand::Imm(0), st(-12)),
            Instruction::SetCC(CondCode::G, st(-12)),
        ]
    );
}

#[test]
fn jumps_and_labels() {
    let out = instrs(vec![
        tacky::Instruction::JumpIfZero { condition: var("a"), label: "l0".to_string() },
        tacky::Instruction::JumpIfNotZero { condition: var("a"), label: "l1".to_string() },
        tacky::Instruction::Jump { label: "l0".to_string() },
        tacky::Instruction::Label("l1".to_string()),
    ]);
    assert_eq!(
        out,
        vec![
            Instruction::AllocateStack(4),
            Instruction::Cmp(Operand::Imm(0), st(-4)),
            Instruction::JmpCC(CondCode::E, "l0".to_string()),
            Instruction::Cmp(Operand::Imm(0), st(-4)),
            Instruction::JmpCC(CondCode::NE, "l1".to_string()),
            Instruction::Jmp("l0".to_string()),
            Instruction::Label("l1".to_string()),
        ]
    );
}

#[test]
fn generated_code_is_encodable_and_placed() {
    let out = instrs(vec![
        tacky::Instruction::Copy { src: tacky::Value::Constant(3), dest: var("a") },
        tacky::Instruction::Binary { binary_operator: tacky::BinaryOp::BitwiseXor, src1: var("a"), src2: var("b"), dest: var("c") },
        tacky::Instruction::Binary { binary_operator: tacky::BinaryOp::EqualTo, src1: var("c"), src2: var("c"), dest: var("a") },
        tacky::Instruction::Binary { binary_operator: tacky::BinaryOp::Divide, src1: var("c"), src2: tacky::Value::Constant(4), dest: var("d") },
        tacky::Instruction::Ret(var("d")),
    ]);
    assert_eq!(out[0], Instruction::AllocateStack(16));
    for i in &out {
        let ops: Vec<&Operand> = match i {
            Instruction::Mov { source, dest } => vec![source, dest],
            Instruction::Binary(_, a, b) | Instruction::Cmp(a, b) => vec![a, b],
            Instruction::Unary(_, a) | Instruction::Idiv(a) | Instruction::SetCC(_, a) => vec![a],
            _ => vec![],
        };
        assert!(ops.iter().all(|o| !matches!(o, Operand::Pseudo(_))));
        match i {
            Instruction::Mov { source: Operand::Stack(_), dest: Operand::Stack(_) }
            | Instruction::Binary(_, Operand::Stack(_), Operand::Stack(_))
            | Instruction::Binary(BinaryOp::Mult, _, Operand::Stack(_))
            | Instruction::Idiv(Operand::Imm(_))
            | Instruction::Cmp(Operand::Stack(_), Operand::Stack(_))
            | Instruction::Cmp(_, Operand::Imm(_)) => panic!("not encodable: {:?}", i),
            _ => {}
        }
    }
}

#[test]
fn operand_from_value() {
    assert_eq!(Operand::from(tacky::Value::Constant(4)), Operand::Imm(4));
    assert_eq!(Operand::from(var("x")), Operand::Pseudo("x".to_string()));
}
