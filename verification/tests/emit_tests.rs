use minicc::assembler::{assemble, CondCode, FunctionDef, Instruction, Operand, Program, Reg, UnaryOp};
use minicc::emit::{write_program, EmitError};
use minicc::lex::lex;
use minicc::parse::parse;
use minicc::tacky::transform;

fn program(instructions: Vec<Instruction>) -> Program {
    Program { function_def: FunctionDef { name: "main".to_string(), instructions } }
}

#[test]
fn return_two_renders_completely() {
    let p = parse(&lex("int main(void) { return 2; }").unwrap()).unwrap();
    let text = write_program(&assemble(transform(p))).unwrap();
    assert_eq!(
        text,
        "\t.globl main\nmain:\n\tpushq %rbp\n\tmovq %rsp, %rbp\n\tsubq $0, %rsp\n\tmovl $2, %eax\n\tmovq %rbp, %rsp\n\tpopq %rbp\n\tret\n\t.section .note.GNU-stack,\"\",@progbits\n"
    );
}

#[test]
fn unary_program_renders_stack_slots() {
    let p = parse(&lex("int main(void) { return -~7; }").unwrap()).unwrap();
    let text = write_program(&assemble(transform(p))).unwrap();
    assert_eq!(
        text,
        "\t.globl main\nmain:\n\tpushq %rbp\n\tmovq %rsp, %rbp\n\tsubq $8, %rsp\n\tmovl $7, -4(%rbp)\n\tnotl -4(%rbp)\n\tmovl -4(%rbp), %r10d\n\tmovl %r10d, -8(%rbp)\n\tnegl -8(%rbp)\n\tmovl -8(%rbp), %eax\n\tmovq %rbp, %rsp\n\tpopq %rbp\n\tret\n\t.section .note.GNU-stack,\"\",@progbits\n"
    );
}

#[test]
fn unplaced_variable_is_an_error() {
    let p = program(vec![Instruction::Unary(UnaryOp::Neg, Operand::Pseudo("x".to_string()))]);
    assert_eq!(write_program(&p), Err(EmitError::InvalidOperand));
}

#[test]
fn instructions_without_rendering_are_errors() {
    let p = program(vec![Instruction::Cdq]);
    assert_eq!(write_program(&p), Err(EmitError::UnsupportedInstruction));
    let p = program(vec![Instruction::SetCC(CondCode::E, Operand::Stack(-4))]);
    assert_eq!(write_program(&p), Err(EmitError::UnsupportedInstruction));
}

#[test]
fn registers_without_rendering_are_errors() {
    let p = program(vec![Instruction::Mov { source: Operand::Register(Reg::DX), dest: Operand::Stack(-4) }]);
    assert_eq!(write_program(&p), Err(EmitError::UnsupportedRegister));
}

#[test]
fn first_emit_error_in_order_wins() {
    let p = program(vec![
        Instruction::Mov { source: Operand::Pseudo("a".to_string()), dest: Operand::Register(Reg::CL) },
        Instruction::Cdq,
    ]);
    assert_eq!(write_program(&p), Err(EmitError::InvalidOperand));
    let p = program(vec![
        Instruction::Mov { source: Operand::Register(Reg::R11), dest: Operand::Pseudo("a".to_string()) },
    ]);
    assert_eq!(write_program(&p), Err(EmitError::UnsupportedRegister));
}

#[test]
fn large_immediates_and_frames() {
    let p = program(vec![
        Instruction::AllocateStack(4096),
        Instruction::Mov { source: Operand::Imm(u64::MAX), dest: Operand::Stack(-4096) },
    ]);
    assert_eq!(
        write_program(&p).unwrap(),
        "\t.globl main\nmain:\n\tpushq %rbp\n\tmovq %rsp, %rbp\n\tsubq $4096, %rsp\n\tmovl $18446744073709551615, -4096(%rbp)\n\t.section .note.GNU-stack,\"\",@progbits\n"
    );
}
