//! Assembly text: renders a program in AT&T syntax.

use vstd::prelude::*;
use crate::assembler::{
    FunctionDef, Instruction, Operand, Program, Reg, SpecAsm, SpecAsmFunction, SpecAsmProgram,
    SpecOperand, UnaryOp, asm_unary_result,
};
use crate::text::{decimal, lemma_appended, push_decimal, push_signed_decimal, push_str, signed_decimal};

verus! {

/// Why a program cannot be rendered.
#[derive(Debug, Clone, Copy, PartialEq, Eq, Structural)]
pub enum EmitError {
    /// A variable that was never placed on the stack.
    InvalidOperand,
    /// An instruction that the renderer does not write.
    UnsupportedInstruction,
    /// A register that the renderer does not write.
    UnsupportedRegister,
}

/// The text of `a` followed by that of `b`, or the first error.
pub open spec fn then(a: Result<Seq<char>, EmitError>, b: Result<Seq<char>, EmitError>) -> Result<
    Seq<char>,
    EmitError,
> {
    match a {
        Ok(x) => match b {
            Ok(y) => Ok(x + y),
            Err(e) => Err(e),
        },
        Err(e) => Err(e),
    }
}

/// The text of a register: `%eax` and `%r10d`; the others are not written.
pub open spec fn register_text(r: Reg) -> Result<Seq<char>, EmitError> {
    match r {
        Reg::AX => Ok("%eax"@),
        Reg::R10 => Ok("%r10d"@),
        _ => Err(EmitError::UnsupportedRegister),
    }
}

/// The text of an operand: `$v` for an immediate, a register, `o(%rbp)`
/// for a stack slot; a variable is an error.
pub open spec fn operand_text(o: SpecOperand) -> Result<Seq<char>, EmitError> {
    match o {
        SpecOperand::Imm(v) => Ok("$"@ + decimal(v as nat)),
        SpecOperand::Register(r) => register_text(r),
        SpecOperand::Stack(off) => Ok(signed_decimal(off as int) + "(%rbp)"@),
        SpecOperand::Pseudo(_) => Err(EmitError::InvalidOperand),
    }
}

/// The text of an instruction: `movl`, the function epilogue and `ret`,
/// `notl`/`negl`, and `subq` for the stack frame; the others are not
/// written.
pub open spec fn instruction_text(i: SpecAsm) -> Result<Seq<char>, EmitError> {
    match i {
        SpecAsm::Mov { source, dest } => then(
            then(then(Ok("\tmovl "@), operand_text(source)), Ok(", "@)),
            then(operand_text(dest), Ok("\n"@)),
        ),
        SpecAsm::Ret => Ok("\tmovq %rbp, %rsp\n"@ + "\tpopq %rbp\n"@ + "\tret\n"@),
        SpecAsm::Unary(op, o) => then(
            Ok(
                "\t"@ + (match op {
                    UnaryOp::Not => "notl"@,
                    UnaryOp::Neg => "negl"@,
                }) + " "@,
            ),
            then(operand_text(o), Ok("\n"@)),
        ),
        SpecAsm::AllocateStack(n) => Ok("\tsubq $"@ + decimal(n as nat) + ", %rsp\n"@),
        _ => Err(EmitError::UnsupportedInstruction),
    }
}

/// The text of the instructions in order, or the first error.
pub open spec fn instructions_text(is: Seq<SpecAsm>) -> Result<Seq<char>, EmitError>
    decreases is.len(),
{
    if is.len() == 0 {
        Ok(Seq::empty())
    } else {
        then(instructions_text(is.drop_last()), instruction_text(is.last()))
    }
}

/// The text of a function: its global declaration, its label, the
/// prologue, then its instructions.
pub open spec fn function_text(f: SpecAsmFunction) -> Result<Seq<char>, EmitError> {
    then(
        Ok(
            "\t.globl "@ + f.name + "\n"@ + f.name + ":\n"@ + "\tpushq %rbp\n"@
                + "\tmovq %rsp, %rbp\n"@,
        ),
        instructions_text(f.instructions),
    )
}

/// The text of a program: its function, then the note that marks the
/// stack non-executable.
pub open spec fn program_text(p: SpecAsmProgram) -> Result<Seq<char>, EmitError> {
    then(function_text(p.function_def), Ok("\t.section .note.GNU-stack,\"\",@progbits\n"@))
}

/// Whether writing into `contents` agrees with the expected text: on
/// success the text was appended.
pub open spec fn wrote(
    res: Result<(), EmitError>,
    before: Seq<char>,
    after: Seq<char>,
    expected: Result<Seq<char>, EmitError>,
) -> bool {
    match (res, expected) {
        (Ok(_), Ok(t)) => after == before + t,
        (Err(e), Err(f)) => e == f,
        _ => false,
    }
}

fn write_register(contents: &mut String, register: Reg) -> (res: Result<(), EmitError>)
    ensures
        wrote(res, old(contents)@, final(contents)@, register_text(register)),
{
    match register {
        Reg::AX => {
            push_str(contents, "%eax");
            Ok(())
        },
        Reg::R10 => {
            push_str(contents, "%r10d");
            Ok(())
        },
        _ => Err(EmitError::UnsupportedRegister),
    }
}

fn write_operand(contents: &mut String, operand: &Operand) -> (res: Result<(), EmitError>)
    ensures
        wrote(res, old(contents)@, final(contents)@, operand_text(operand@)),
{
    let ghost start = contents@;
    match operand {
        Operand::Imm(val) => {
            push_str(contents, "$");
            push_decimal(contents, *val);
            assert(contents@ =~= start + ("$"@ + decimal(*val as nat)));
            Ok(())
        },
        Operand::Register(reg) => write_register(contents, *reg),
        Operand::Stack(offset) => {
            push_signed_decimal(contents, *offset);
            push_str(contents, "(%rbp)");
            assert(contents@ =~= start + (signed_decimal(*offset as int) + "(%rbp)"@));
            Ok(())
        },
        Operand::Pseudo(_) => Err(EmitError::InvalidOperand),
    }
}

fn write_unary_op(contents: &mut String, op: UnaryOp)
    ensures
        final(contents)@ == old(contents)@ + match op {
            UnaryOp::Not => "notl"@,
            UnaryOp::Neg => "negl"@,
        },
{
    match op {
        UnaryOp::Not => push_str(contents, "notl"),
        UnaryOp::Neg => push_str(contents, "negl"),
    }
}

fn write_instruction(contents: &mut String, instruction: &Instruction) -> (res: Result<(), EmitError>)
    ensures
        wrote(res, old(contents)@, final(contents)@, instruction_text(instruction@)),
{
    let ghost start = contents@;
    match instruction {
        Instruction::Mov { source, dest } => {
            push_str(contents, "\tmovl ");
            let ghost c1 = contents@;
            write_operand(contents, source)?;
            let ghost c2 = contents@;
            push_str(contents, ", ");
            let ghost c3 = contents@;
            write_operand(contents, dest)?;
            let ghost c4 = contents@;
            push_str(contents, "\n");
            proof {
                let t1 = c2.subrange(c1.len() as int, c2.len() as int);
                let t2 = c4.subrange(c3.len() as int, c4.len() as int);
                if let Ok(x) = operand_text(source@) {
                    lemma_appended(c1, x, c2);
                }
                if let Ok(x) = operand_text(dest@) {
                    lemma_appended(c3, x, c4);
                }
                assert(contents@ =~= start + ((("\tmovl "@ + t1) + ", "@) + (t2 + "\n"@)));
            }
            Ok(())
        },
        Instruction::Ret => {
            push_str(contents, "\tmovq %rbp, %rsp\n");
            push_str(contents, "\tpopq %rbp\n");
            push_str(contents, "\tret\n");
            assert(contents@ =~= start + ("\tmovq %rbp, %rsp\n"@ + "\tpopq %rbp\n"@ + "\tret\n"@));
            Ok(())
        },
        Instruction::Unary(op, operand) => {
            push_str(contents, "\t");
            write_unary_op(contents, *op);
            push_str(contents, " ");
            let ghost c1 = contents@;
            write_operand(contents, operand)?;
            let ghost c2 = contents@;
            push_str(contents, "\n");
            proof {
                let t1 = c2.subrange(c1.len() as int, c2.len() as int);
                if let Ok(x) = operand_text(operand@) {
                    lemma_appended(c1, x, c2);
                }
                let name = match *op {
                    UnaryOp::Not => "notl"@,
                    UnaryOp::Neg => "negl"@,
                };
                assert(contents@ =~= start + (("\t"@ + name + " "@) + (t1 + "\n"@)));
            }
            Ok(())
        },
        Instruction::AllocateStack(offset) => {
            push_str(contents, "\tsubq $");
            push_decimal(contents, *offset);
            push_str(contents, ", %rsp\n");
            assert(contents@ =~= start + ("\tsubq $"@ + decimal(*offset as nat) + ", %rsp\n"@));
            Ok(())
        },
        _ => Err(EmitError::UnsupportedInstruction),
    }
}

proof fn lemma_error_persists(s: Seq<SpecAsm>, k: int, e: EmitError)
    requires
        0 <= k <= s.len(),
        instructions_text(s.take(k)) == Err::<Seq<char>, EmitError>(e),
    ensures
        instructions_text(s) == Err::<Seq<char>, EmitError>(e),
    decreases s.len() - k,
{
    if k < s.len() {
        assert(s.take(k + 1).drop_last() =~= s.take(k));
        lemma_error_persists(s, k + 1, e);
    } else {
        assert(s.take(k) =~= s);
    }
}

fn write_instructions(contents: &mut String, instructions: &Vec<Instruction>) -> (res: Result<
    (),
    EmitError,
>)
    ensures
        wrote(
            res,
            old(contents)@,
            final(contents)@,
            instructions_text(crate::assembler::asm_view(instructions@)),
        ),
{
    let ghost whole = crate::assembler::asm_view(instructions@);
    let ghost start = contents@;
    let ghost mut written: Seq<char> = Seq::empty();
    let mut i: usize = 0;
    assert(whole.take(0) =~= Seq::<SpecAsm>::empty());
    assert(contents@ =~= start + written);
    while i < instructions.len()
        invariant
            i <= instructions.len(),
            whole == crate::assembler::asm_view(instructions@),
            start == old(contents)@,
            instructions_text(whole.take(i as int)) == Ok::<Seq<char>, EmitError>(written),
            contents@ == start + written,
        decreases instructions.len() - i,
    {
        let ghost mid = contents@;
        proof {
            assert(whole.take(i + 1).drop_last() =~= whole.take(i as int));
            assert(whole.take(i + 1).last() == instructions@[i as int]@);
        }
        match write_instruction(contents, &instructions[i]) {
            Ok(_) => {},
            Err(e) => {
                proof {
                    lemma_error_persists(whole, i + 1, e);
                }
                return Err(e);
            },
        }
        proof {
            let t = contents@.subrange(mid.len() as int, contents@.len() as int);
            if let Ok(x) = instruction_text(instructions@[i as int]@) {
                lemma_appended(mid, x, contents@);
            }
            assert(contents@ =~= mid + t);
            written = written + t;
            assert(contents@ =~= start + written);
        }
        i = i + 1;
    }
    assert(whole.take(i as int) =~= whole);
    Ok(())
}

fn write_function_def(contents: &mut String, function_def: &FunctionDef) -> (res: Result<
    (),
    EmitError,
>)
    ensures
        wrote(res, old(contents)@, final(contents)@, function_text(function_def@)),
{
    let ghost start = contents@;
    let ghost name = function_def.name@;
    push_str(contents, "\t.globl ");
    push_str(contents, function_def.name.as_str());
    push_str(contents, "\n");
    push_str(contents, function_def.name.as_str());
    push_str(contents, ":\n");
    push_str(contents, "\tpushq %rbp\n");
    push_str(contents, "\tmovq %rsp, %rbp\n");
    let ghost head = "\t.globl "@ + name + "\n"@ + name + ":\n"@ + "\tpushq %rbp\n"@
        + "\tmovq %rsp, %rbp\n"@;
    assert(contents@ =~= start + head);
    let ghost mid = contents@;
    write_instructions(contents, &function_def.instructions)?;
    proof {
        let t = contents@.subrange(mid.len() as int, contents@.len() as int);
        if let Ok(x) = instructions_text(crate::assembler::asm_view(function_def.instructions@)) {
            lemma_appended(mid, x, contents@);
        }
        assert(contents@ =~= mid + t);
        assert(contents@ =~= start + (head + t));
    }
    Ok(())
}

/// Renders a program as assembly text: the function's `.globl`
/// declaration, label and prologue, its instructions, and the section note
/// that marks the stack non-executable. Fails on the first operand,
/// register or instruction that has no rendering.
pub fn write_program(program: &Program) -> (res: Result<String, EmitError>)
    ensures
        match res {
            Ok(s) => program_text(program@) == Ok::<Seq<char>, EmitError>(s@),
            Err(e) => program_text(program@) == Err::<Seq<char>, EmitError>(e),
        },
{
    let mut contents = String::new();
    write_function_def(&mut contents, &program.function_def)?;
    let ghost mid = contents@;
    push_str(&mut contents, "\t.section .note.GNU-stack,\"\",@progbits\n");
    assert(contents@ =~= mid + "\t.section .note.GNU-stack,\"\",@progbits\n"@);
    Ok(contents)
}

/// What the AT&T mnemonic `m` of a one-operand instruction leaves in its
/// 32-bit operand of value `x`: `notl` flips every bit, `negl` negates.
pub open spec fn att_unary_meaning(m: Seq<char>, x: i32) -> Option<int> {
    if m == seq!['n', 'o', 't', 'l'] {
        Some((!x) as int)
    } else if m == seq!['n', 'e', 'g', 'l'] {
        Some(-x)
    } else {
        None
    }
}

/// A unary instruction is written as a tab, a mnemonic, a space, its
/// operand and a newline, and the mnemonic is the AT&T one that computes
/// what the instruction computes, on every value.
pub proof fn lemma_unary_mnemonic(op: UnaryOp, o: SpecOperand, x: i32)
    ensures
        exists|m: Seq<char>|
            {
                &&& instruction_text(SpecAsm::Unary(op, o)) == then(
                    Ok("\t"@ + m + " "@),
                    then(operand_text(o), Ok("\n"@)),
                )
                &&& #[trigger] att_unary_meaning(m, x) == Some(asm_unary_result(op, x))
            },
{
    reveal_strlit("notl");
    reveal_strlit("negl");
    assert("notl"@ =~= seq!['n', 'o', 't', 'l']);
    assert("negl"@ =~= seq!['n', 'e', 'g', 'l']);
    let m = match op {
        UnaryOp::Not => "notl"@,
        UnaryOp::Neg => "negl"@,
    };
    assert(att_unary_meaning(m, x) == Some(asm_unary_result(op, x)));
}

} // verus!
