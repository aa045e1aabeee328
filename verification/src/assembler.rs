//! Code generation: lowers the intermediate form to x86-64 instructions,
//! gives every variable a stack slot, and rewrites the instructions that
//! x86-64 cannot encode.

use vstd::prelude::*;
use crate::tacky;
use crate::tacky::{SpecInstruction, SpecValue};

verus! {

// ---------------------------------------------------------------------
// The assembly form
// ---------------------------------------------------------------------

/// A program: one function.
#[derive(Debug, PartialEq, Eq)]
pub struct Program {
    pub function_def: FunctionDef,
}

/// A function: its name and its instructions.
#[derive(Debug, PartialEq, Eq)]
pub struct FunctionDef {
    pub name: String,
    pub instructions: Vec<Instruction>,
}

/// An x86-64 instruction (AT&T operand order: source first).
#[derive(Debug, PartialEq, Eq)]
pub enum Instruction {
    Mov { source: Operand, dest: Operand },
    Unary(UnaryOp, Operand),
    Cmp(Operand, Operand),
    Binary(BinaryOp, Operand, Operand),
    Idiv(Operand),
    Jmp(String),
    JmpCC(CondCode, String),
    SetCC(CondCode, Operand),
    Label(String),
    Cdq,
    AllocateStack(u64),
    Ret,
}

/// A unary instruction.
#[derive(Debug, Clone, Copy, PartialEq, Eq, Structural)]
pub enum UnaryOp {
    Not,
    Neg,
}

/// A binary instruction.
#[derive(Debug, Clone, Copy, PartialEq, Eq, Structural)]
pub enum BinaryOp {
    Add,
    Sub,
    Mult,
    Sal,
    Sar,
    And,
    Xor,
    Or,
}

/// An operand: an immediate, a register, a variable not yet placed, or a
/// stack slot at an offset from the frame base.
#[derive(Debug, PartialEq, Eq)]
pub enum Operand {
    Imm(u64),
    Register(Reg),
    Pseudo(String),
    Stack(i64),
}

/// A register.
#[derive(Debug, Clone, Copy, PartialEq, Eq, Structural)]
pub enum Reg {
    AX,
    DX,
    R10,
    R11,
    CL,
}

/// A condition code.
#[derive(Debug, Clone, Copy, PartialEq, Eq, Structural)]
pub enum CondCode {
    E,
    NE,
    G,
    GE,
    L,
    LE,
}

/// The mathematical value of an [`Operand`].
pub enum SpecOperand {
    Imm(u64),
    Register(Reg),
    Pseudo(Seq<char>),
    Stack(i64),
}

/// The mathematical value of an [`Instruction`].
pub enum SpecAsm {
    Mov { source: SpecOperand, dest: SpecOperand },
    Unary(UnaryOp, SpecOperand),
    Cmp(SpecOperand, SpecOperand),
    Binary(BinaryOp, SpecOperand, SpecOperand),
    Idiv(SpecOperand),
    Jmp(Seq<char>),
    JmpCC(CondCode, Seq<char>),
    SetCC(CondCode, SpecOperand),
    Label(Seq<char>),
    Cdq,
    AllocateStack(u64),
    Ret,
}

/// The mathematical value of a [`FunctionDef`].
pub struct SpecAsmFunction {
    pub name: Seq<char>,
    pub instructions: Seq<SpecAsm>,
}

/// The mathematical value of a [`Program`].
pub struct SpecAsmProgram {
    pub function_def: SpecAsmFunction,
}

impl View for Operand {
    type V = SpecOperand;

    open spec fn view(&self) -> SpecOperand {
        match self {
            Operand::Imm(v) => SpecOperand::Imm(*v),
            Operand::Register(r) => SpecOperand::Register(*r),
            Operand::Pseudo(n) => SpecOperand::Pseudo(n@),
            Operand::Stack(o) => SpecOperand::Stack(*o),
        }
    }
}

impl View for Instruction {
    type V = SpecAsm;

    open spec fn view(&self) -> SpecAsm {
        match self {
            Instruction::Mov { source, dest } => SpecAsm::Mov { source: source@, dest: dest@ },
            Instruction::Unary(op, o) => SpecAsm::Unary(*op, o@),
            Instruction::Cmp(a, b) => SpecAsm::Cmp(a@, b@),
            Instruction::Binary(op, a, b) => SpecAsm::Binary(*op, a@, b@),
            Instruction::Idiv(o) => SpecAsm::Idiv(o@),
            Instruction::Jmp(l) => SpecAsm::Jmp(l@),
            Instruction::JmpCC(c, l) => SpecAsm::JmpCC(*c, l@),
            Instruction::SetCC(c, o) => SpecAsm::SetCC(*c, o@),
            Instruction::Label(l) => SpecAsm::Label(l@),
            Instruction::Cdq => SpecAsm::Cdq,
            Instruction::AllocateStack(n) => SpecAsm::AllocateStack(*n),
            Instruction::Ret => SpecAsm::Ret,
        }
    }
}

/// The values of a sequence of instructions.
pub open spec fn asm_view(is: Seq<Instruction>) -> Seq<SpecAsm> {
    is.map_values(|i: Instruction| i@)
}

impl View for FunctionDef {
    type V = SpecAsmFunction;

    open spec fn view(&self) -> SpecAsmFunction {
        SpecAsmFunction { name: self.name@, instructions: asm_view(self.instructions@) }
    }
}

impl View for Program {
    type V = SpecAsmProgram;

    open spec fn view(&self) -> SpecAsmProgram {
        SpecAsmProgram { function_def: self.function_def@ }
    }
}

/// The operand of an intermediate value: constants become immediates,
/// variables pseudo registers.
pub open spec fn operand_of(v: SpecValue) -> SpecOperand {
    match v {
        SpecValue::Constant(c) => SpecOperand::Imm(c),
        SpecValue::Var(n) => SpecOperand::Pseudo(n),
    }
}

impl From<tacky::Value> for Operand {
    fn from(value: tacky::Value) -> (r: Operand) {
        match value {
            tacky::Value::Constant(val) => Operand::Imm(val),
            tacky::Value::Var(val) => Operand::Pseudo(val),
        }
    }
}

impl vstd::std_specs::convert::FromSpecImpl<tacky::Value> for Operand {
    open spec fn obeys_from_spec() -> bool {
        true
    }

    open spec fn from_spec(value: tacky::Value) -> Operand {
        match value {
            tacky::Value::Constant(val) => Operand::Imm(val),
            tacky::Value::Var(val) => Operand::Pseudo(val),
        }
    }
}

/// Copies an operand; the copy has the same value.
pub fn clone_operand(o: &Operand) -> (r: Operand)
    ensures
        r@ == o@,
{
    match o {
        Operand::Imm(v) => Operand::Imm(*v),
        Operand::Register(r) => Operand::Register(*r),
        Operand::Pseudo(n) => Operand::Pseudo(n.clone()),
        Operand::Stack(s) => Operand::Stack(*s),
    }
}


// ---------------------------------------------------------------------
// Instruction selection
// ---------------------------------------------------------------------

/// The unary instruction of an intermediate unary operator (`!` has
/// none: it becomes a comparison).
pub open spec fn asm_unary(op: tacky::UnaryOp) -> Option<UnaryOp> {
    match op {
        tacky::UnaryOp::Complement => Some(UnaryOp::Not),
        tacky::UnaryOp::Negation => Some(UnaryOp::Neg),
        tacky::UnaryOp::Not => None,
    }
}

impl UnaryOp {
    fn tacky_to_unary_op(op: tacky::UnaryOp) -> (r: Option<UnaryOp>)
        ensures
            r == asm_unary(op),
    {
        match op {
            tacky::UnaryOp::Complement => Some(UnaryOp::Not),
            tacky::UnaryOp::Negation => Some(UnaryOp::Neg),
            tacky::UnaryOp::Not => None,
        }
    }
}

/// The arithmetic instruction of an intermediate binary operator that
/// computes in place.
pub open spec fn asm_binary(op: tacky::BinaryOp) -> Option<BinaryOp> {
    match op {
        tacky::BinaryOp::Add => Some(BinaryOp::Add),
        tacky::BinaryOp::Subtract => Some(BinaryOp::Sub),
        tacky::BinaryOp::Multiply => Some(BinaryOp::Mult),
        tacky::BinaryOp::LeftShift => Some(BinaryOp::Sal),
        tacky::BinaryOp::RightShift => Some(BinaryOp::Sar),
        tacky::BinaryOp::BitwiseAnd => Some(BinaryOp::And),
        tacky::BinaryOp::BitwiseXor => Some(BinaryOp::Xor),
        tacky::BinaryOp::BitwiseOr => Some(BinaryOp::Or),
        _ => None,
    }
}

/// The condition code of an intermediate comparison.
pub open spec fn asm_condition(op: tacky::BinaryOp) -> Option<CondCode> {
    match op {
        tacky::BinaryOp::EqualTo => Some(CondCode::E),
        tacky::BinaryOp::NotEqualTo => Some(CondCode::NE),
        tacky::BinaryOp::LessThan => Some(CondCode::L),
        tacky::BinaryOp::GreaterThan => Some(CondCode::G),
        tacky::BinaryOp::LessThanOrEqualTo => Some(CondCode::LE),
        tacky::BinaryOp::GreaterThanOrEqualTo => Some(CondCode::GE),
        _ => None,
    }
}

/// The x86-64 instructions of one intermediate instruction. Return moves
/// the value to `%eax`; `!` and comparisons compare, clear the
/// destination and set it from the flags; arithmetic copies the first
/// operand to the destination and applies the operator there; division
/// and remainder go through `%eax`/`%edx` with `cdq` and `idiv`;
/// conditional jumps compare with zero.
pub open spec fn select_instruction(i: SpecInstruction) -> Seq<SpecAsm> {
    match i {
        SpecInstruction::Ret(v) => seq![
            SpecAsm::Mov { source: operand_of(v), dest: SpecOperand::Register(Reg::AX) },
            SpecAsm::Ret,
        ],
        SpecInstruction::Unary { unary_operator, src, dest } => if unary_operator
            == tacky::UnaryOp::Not {
            seq![
                SpecAsm::Cmp(SpecOperand::Imm(0), operand_of(src)),
                SpecAsm::Mov { source: SpecOperand::Imm(0), dest: operand_of(dest) },
                SpecAsm::SetCC(CondCode::E, operand_of(dest)),
            ]
        } else {
            seq![
                SpecAsm::Mov { source: operand_of(src), dest: operand_of(dest) },
                SpecAsm::Unary(asm_unary(unary_operator).unwrap(), operand_of(dest)),
            ]
        },
        SpecInstruction::Binary { binary_operator, src1, src2, dest } => {
            let (s1, s2, d) = (operand_of(src1), operand_of(src2), operand_of(dest));
            if binary_operator == tacky::BinaryOp::Divide || binary_operator
                == tacky::BinaryOp::Remainder {
                let result = if binary_operator == tacky::BinaryOp::Divide {
                    Reg::AX
                } else {
                    Reg::DX
                };
                seq![
                    SpecAsm::Mov { source: s1, dest: SpecOperand::Register(Reg::AX) },
                    SpecAsm::Cdq,
                    SpecAsm::Idiv(s2),
                    SpecAsm::Mov { source: SpecOperand::Register(result), dest: d },
                ]
            } else if asm_condition(binary_operator) is Some {
                seq![
                    SpecAsm::Cmp(s2, s1),
                    SpecAsm::Mov { source: SpecOperand::Imm(0), dest: d },
                    SpecAsm::SetCC(asm_condition(binary_operator).unwrap(), d),
                ]
            } else {
                seq![
                    SpecAsm::Mov { source: s1, dest: d },
                    SpecAsm::Binary(asm_binary(binary_operator).unwrap(), s2, d),
                ]
            }
        },
        SpecInstruction::Jump { label } => seq![SpecAsm::Jmp(label)],
        SpecInstruction::JumpIfZero { condition, label } => seq![
            SpecAsm::Cmp(SpecOperand::Imm(0), operand_of(condition)),
            SpecAsm::JmpCC(CondCode::E, label),
        ],
        SpecInstruction::JumpIfNotZero { condition, label } => seq![
            SpecAsm::Cmp(SpecOperand::Imm(0), operand_of(condition)),
            SpecAsm::JmpCC(CondCode::NE, label),
        ],
        SpecInstruction::Copy { src, dest } => seq![
            SpecAsm::Mov { source: operand_of(src), dest: operand_of(dest) },
        ],
        SpecInstruction::Label(l) => seq![SpecAsm::Label(l)],
    }
}

/// The x86-64 instructions of a sequence of intermediate instructions, in
/// order.
pub open spec fn select_instructions(is: Seq<SpecInstruction>) -> Seq<SpecAsm>
    decreases is.len(),
{
    if is.len() == 0 {
        Seq::empty()
    } else {
        select_instructions(is.drop_last()) + select_instruction(is.last())
    }
}

fn push_asm(instrs: &mut Vec<Instruction>, i: Instruction)
    ensures
        asm_view(final(instrs)@) == asm_view(old(instrs)@).push(i@),
{
    let ghost v = i@;
    instrs.push(i);
    assert(asm_view(instrs@) =~= asm_view(old(instrs)@).push(v));
}

fn operand(v: tacky::Value) -> (o: Operand)
    ensures
        o@ == operand_of(v@),
{
    v.into()
}

fn lower_instruction(instr: tacky::Instruction, instrs: &mut Vec<Instruction>)
    ensures
        asm_view(final(instrs)@) == asm_view(old(instrs)@) + select_instruction(instr@),
{
    let ghost before = asm_view(instrs@);
    let ghost iv = instr@;
    match instr {
        tacky::Instruction::Ret(val) => {
            push_asm(instrs, Instruction::Mov { source: operand(val), dest: Operand::Register(Reg::AX) });
            push_asm(instrs, Instruction::Ret);
        },
        tacky::Instruction::Unary { unary_operator: tacky::UnaryOp::Not, src, dest } => {
            let dest = operand(dest);
            push_asm(instrs, Instruction::Cmp(Operand::Imm(0), operand(src)));
            push_asm(instrs, Instruction::Mov { source: Operand::Imm(0), dest: clone_operand(&dest) });
            push_asm(instrs, Instruction::SetCC(CondCode::E, dest));
        },
        tacky::Instruction::Unary { unary_operator, src, dest } => {
            let dest = operand(dest);
            push_asm(instrs, Instruction::Mov { source: operand(src), dest: clone_operand(&dest) });
            push_asm(instrs, Instruction::Unary(UnaryOp::tacky_to_unary_op(unary_operator).unwrap(), dest));
        },
        tacky::Instruction::Binary { binary_operator, src1, src2, dest } => {
            lower_binary(binary_operator, src1, src2, dest, instrs);
        },
        tacky::Instruction::Jump { label } => {
            push_asm(instrs, Instruction::Jmp(label));
        },
        tacky::Instruction::JumpIfZero { condition, label } => {
            push_asm(instrs, Instruction::Cmp(Operand::Imm(0), operand(condition)));
            push_asm(instrs, Instruction::JmpCC(CondCode::E, label));
        },
        tacky::Instruction::JumpIfNotZero { condition, label } => {
            push_asm(instrs, Instruction::Cmp(Operand::Imm(0), operand(condition)));
            push_asm(instrs, Instruction::JmpCC(CondCode::NE, label));
        },
        tacky::Instruction::Copy { src, dest } => {
            push_asm(instrs, Instruction::Mov { source: operand(src), dest: operand(dest) });
        },
        tacky::Instruction::Label(label) => {
            push_asm(instrs, Instruction::Label(label));
        },
    }
    assert(asm_view(instrs@) =~= before + select_instruction(iv));
}

fn lower_binary(
    binary_operator: tacky::BinaryOp,
    src1: tacky::Value,
    src2: tacky::Value,
    dest: tacky::Value,
    instrs: &mut Vec<Instruction>,
)
    ensures
        asm_view(final(instrs)@) == asm_view(old(instrs)@) + select_instruction(
            SpecInstruction::Binary { binary_operator, src1: src1@, src2: src2@, dest: dest@ },
        ),
{
    let ghost before = asm_view(instrs@);
    let ghost iv = SpecInstruction::Binary { binary_operator, src1: src1@, src2: src2@, dest: dest@ };
    match binary_operator {
        tacky::BinaryOp::Divide => {
            push_asm(instrs, Instruction::Mov { source: operand(src1), dest: Operand::Register(Reg::AX) });
            push_asm(instrs, Instruction::Cdq);
            push_asm(instrs, Instruction::Idiv(operand(src2)));
            push_asm(instrs, Instruction::Mov { source: Operand::Register(Reg::AX), dest: operand(dest) });
        },
        tacky::BinaryOp::Remainder => {
            push_asm(instrs, Instruction::Mov { source: operand(src1), dest: Operand::Register(Reg::AX) });
            push_asm(instrs, Instruction::Cdq);
            push_asm(instrs, Instruction::Idiv(operand(src2)));
            push_asm(instrs, Instruction::Mov { source: Operand::Register(Reg::DX), dest: operand(dest) });
        },
        tacky::BinaryOp::EqualTo | tacky::BinaryOp::NotEqualTo | tacky::BinaryOp::LessThan
        | tacky::BinaryOp::GreaterThan | tacky::BinaryOp::LessThanOrEqualTo
        | tacky::BinaryOp::GreaterThanOrEqualTo => {
            let cc = match binary_operator {
                tacky::BinaryOp::EqualTo => CondCode::E,
                tacky::BinaryOp::NotEqualTo => CondCode::NE,
                tacky::BinaryOp::LessThan => CondCode::L,
                tacky::BinaryOp::GreaterThan => CondCode::G,
                tacky::BinaryOp::LessThanOrEqualTo => CondCode::LE,
                _ => CondCode::GE,
            };
            let dest = operand(dest);
            push_asm(instrs, Instruction::Cmp(operand(src2), operand(src1)));
            push_asm(instrs, Instruction::Mov { source: Operand::Imm(0), dest: clone_operand(&dest) });
            push_asm(instrs, Instruction::SetCC(cc, dest));
        },
        _ => {
            let op = match binary_operator {
                tacky::BinaryOp::Add => BinaryOp::Add,
                tacky::BinaryOp::Subtract => BinaryOp::Sub,
                tacky::BinaryOp::Multiply => BinaryOp::Mult,
                tacky::BinaryOp::LeftShift => BinaryOp::Sal,
                tacky::BinaryOp::RightShift => BinaryOp::Sar,
                tacky::BinaryOp::BitwiseAnd => BinaryOp::And,
                tacky::BinaryOp::BitwiseXor => BinaryOp::Xor,
                _ => BinaryOp::Or,
            };
            let dest = operand(dest);
            push_asm(instrs, Instruction::Mov { source: operand(src1), dest: clone_operand(&dest) });
            push_asm(instrs, Instruction::Binary(op, operand(src2), dest));
        },
    }
    assert(asm_view(instrs@) =~= before + select_instruction(iv));
}

fn lower_function_def(function_def: tacky::FunctionDef) -> (f: FunctionDef)
    ensures
        f@ == (SpecAsmFunction {
            name: function_def@.name,
            instructions: select_instructions(function_def@.body),
        }),
{
    let ghost whole = function_def@.body;
    let name = function_def.name;
    let mut instrs: Vec<Instruction> = Vec::new();
    assert(asm_view(instrs@) =~= Seq::<SpecAsm>::empty());
    assert(whole.take(0) =~= Seq::<SpecInstruction>::empty());
    for instr in it: function_def.body
        invariant
            whole == function_def@.body,
            it.seq().len() == whole.len(),
            forall|k: int| 0 <= k < whole.len() ==> #[trigger] whole[k] == it.seq()[k]@,
            asm_view(instrs@) == select_instructions(whole.take(it.index() as int)),
    {
        proof {
            assert(whole.take(it.index() + 1).drop_last() =~= whole.take(it.index() as int));
            assert(whole.take(it.index() + 1).last() == instr@);
        }
        lower_instruction(instr, &mut instrs);
    }
    assert(whole.take(whole.len() as int) =~= whole);
    FunctionDef { name, instructions: instrs }
}

fn lower_program(program: tacky::Program) -> (p: Program)
    ensures
        p@ == (SpecAsmProgram {
            function_def: SpecAsmFunction {
                name: program@.function_def.name,
                instructions: select_instructions(program@.function_def.body),
            },
        }),
{
    let function_def = lower_function_def(program.function_def);
    Program { function_def }
}


// ---------------------------------------------------------------------
// Stack slots
// ---------------------------------------------------------------------

/// Stack slots given so far: each variable with its offset, in the order
/// the variables were first met.
pub type Slots = Seq<(Seq<char>, i64)>;

/// The slot of a variable, if it has one.
pub open spec fn slot_of(slots: Slots, name: Seq<char>) -> Option<i64>
    decreases slots.len(),
{
    if slots.len() == 0 {
        None
    } else if slots.last().0 == name {
        Some(slots.last().1)
    } else {
        slot_of(slots.drop_last(), name)
    }
}

/// An operand with its variable placed on the stack: a variable met
/// before keeps its slot; a new one gets the next 4 bytes below the
/// lowest slot so far. `offset` is the lowest offset given so far.
pub open spec fn place_operand(o: SpecOperand, slots: Slots, offset: int) -> (SpecOperand, Slots, int) {
    match o {
        SpecOperand::Pseudo(n) => match slot_of(slots, n) {
            Some(x) => (SpecOperand::Stack(x), slots, offset),
            None => (
                SpecOperand::Stack((offset - 4) as i64),
                slots.push((n, (offset - 4) as i64)),
                offset - 4,
            ),
        },
        _ => (o, slots, offset),
    }
}

/// An instruction with its operands placed, first operand first.
pub open spec fn place_instruction(i: SpecAsm, slots: Slots, offset: int) -> (SpecAsm, Slots, int) {
    match i {
        SpecAsm::Mov { source, dest } => {
            let (a, s1, o1) = place_operand(source, slots, offset);
            let (b, s2, o2) = place_operand(dest, s1, o1);
            (SpecAsm::Mov { source: a, dest: b }, s2, o2)
        },
        SpecAsm::Unary(op, x) => {
            let (a, s1, o1) = place_operand(x, slots, offset);
            (SpecAsm::Unary(op, a), s1, o1)
        },
        SpecAsm::Binary(op, x, y) => {
            let (a, s1, o1) = place_operand(x, slots, offset);
            let (b, s2, o2) = place_operand(y, s1, o1);
            (SpecAsm::Binary(op, a, b), s2, o2)
        },
        SpecAsm::Idiv(x) => {
            let (a, s1, o1) = place_operand(x, slots, offset);
            (SpecAsm::Idiv(a), s1, o1)
        },
        SpecAsm::Cmp(x, y) => {
            let (a, s1, o1) = place_operand(x, slots, offset);
            let (b, s2, o2) = place_operand(y, s1, o1);
            (SpecAsm::Cmp(a, b), s2, o2)
        },
        SpecAsm::SetCC(c, x) => {
            let (a, s1, o1) = place_operand(x, slots, offset);
            (SpecAsm::SetCC(c, a), s1, o1)
        },
        _ => (i, slots, offset),
    }
}

/// The instructions with all variables placed, the slots given, and the
/// lowest offset; slots start empty at offset 0.
pub open spec fn place_instructions(is: Seq<SpecAsm>) -> (Seq<SpecAsm>, Slots, int)
    decreases is.len(),
{
    if is.len() == 0 {
        (Seq::empty(), Seq::empty(), 0)
    } else {
        let (prefix, slots, offset) = place_instructions(is.drop_last());
        let (i, slots2, offset2) = place_instruction(is.last(), slots, offset);
        (prefix.push(i), slots2, offset2)
    }
}

/// The slots of a function, as a table.
struct StackSlots {
    entries: Vec<(String, i64)>,
}

impl StackSlots {
    spec fn slots(&self) -> Slots {
        self.entries@.map_values(|p: (String, i64)| (p.0@, p.1))
    }

    fn get(&self, name: &String) -> (r: Option<i64>)
        ensures
            r == slot_of(self.slots(), name@),
    {
        let mut i = self.entries.len();
        assert(self.slots().take(i as int) =~= self.slots());
        while i > 0
            invariant
                i <= self.entries.len(),
                slot_of(self.slots(), name@) == slot_of(self.slots().take(i as int), name@),
            decreases i,
        {
            assert(self.slots().take(i as int).drop_last() =~= self.slots().take(i - 1));
            if self.entries[i - 1].0 == *name {
                return Some(self.entries[i - 1].1);
            }
            i = i - 1;
        }
        None
    }

    fn insert(&mut self, name: String, slot: i64)
        ensures
            final(self).slots() == old(self).slots().push((name@, slot)),
    {
        let ghost n = name@;
        self.entries.push((name, slot));
        assert(self.slots() =~= old(self).slots().push((n, slot)));
    }
}

fn replace_pseudo_with_stack(operand: Operand, map: &mut StackSlots, offset: &mut i64) -> (r: Operand)
    requires
        *old(offset) >= i64::MIN + 4,
    ensures
        (r@, final(map).slots(), *final(offset) as int) == place_operand(
            operand@,
            old(map).slots(),
            *old(offset) as int,
        ),
        *final(offset) == *old(offset) || *final(offset) == *old(offset) - 4,
{
    match operand {
        Operand::Pseudo(name) => {
            let stack_offset = match map.get(&name) {
                Some(x) => x,
                None => {
                    *offset = *offset - 4;
                    map.insert(name, *offset);
                    *offset
                },
            };
            Operand::Stack(stack_offset)
        },
        other => other,
    }
}

fn replace_in_instruction(instr: Instruction, map: &mut StackSlots, offset: &mut i64) -> (r: Instruction)
    requires
        *old(offset) >= i64::MIN + 8,
    ensures
        (r@, final(map).slots(), *final(offset) as int) == place_instruction(
            instr@,
            old(map).slots(),
            *old(offset) as int,
        ),
        *old(offset) - 8 <= *final(offset) <= *old(offset),
{
    match instr {
        Instruction::Mov { source, dest } => {
            let source = replace_pseudo_with_stack(source, map, offset);
            let dest = replace_pseudo_with_stack(dest, map, offset);
            Instruction::Mov { source, dest }
        },
        Instruction::Unary(op, operand) => Instruction::Unary(
            op,
            replace_pseudo_with_stack(operand, map, offset),
        ),
        Instruction::Binary(op, operand_1, operand_2) => {
            let operand_1 = replace_pseudo_with_stack(operand_1, map, offset);
            let operand_2 = replace_pseudo_with_stack(operand_2, map, offset);
            Instruction::Binary(op, operand_1, operand_2)
        },
        Instruction::Idiv(operand) => Instruction::Idiv(replace_pseudo_with_stack(operand, map, offset)),
        Instruction::Cmp(operand_1, operand_2) => {
            let operand_1 = replace_pseudo_with_stack(operand_1, map, offset);
            let operand_2 = replace_pseudo_with_stack(operand_2, map, offset);
            Instruction::Cmp(operand_1, operand_2)
        },
        Instruction::SetCC(c, operand) => Instruction::SetCC(
            c,
            replace_pseudo_with_stack(operand, map, offset),
        ),
        other => other,
    }
}

/// Places every variable of the function on the stack; the lowest offset.
fn replace_pseudo(program: &mut Program) -> (offset: i64)
    requires
        old(program)@.function_def.instructions.len() <= 0x0400_0000_0000_0000,
    ensures
        ({
            let (placed, _, lowest) = place_instructions(old(program)@.function_def.instructions);
            &&& final(program)@ == (SpecAsmProgram {
                function_def: SpecAsmFunction {
                    name: old(program)@.function_def.name,
                    instructions: placed,
                },
            })
            &&& offset as int == lowest
        }),
        offset <= 0,
        offset > i64::MIN,
{
    let ghost whole = program@.function_def.instructions;
    let mut offset: i64 = 0;
    let mut pseudo_offset_map = StackSlots { entries: Vec::new() };
    let mut instructions: Vec<Instruction> = Vec::new();
    std::mem::swap(&mut instructions, &mut program.function_def.instructions);
    let mut placed: Vec<Instruction> = Vec::new();
    assert(whole.take(0) =~= Seq::<SpecAsm>::empty());
    assert(pseudo_offset_map.slots() =~= Seq::<(Seq<char>, i64)>::empty());
    assert(asm_view(placed@) =~= Seq::<SpecAsm>::empty());
    for instr in it: instructions
        invariant
            it.seq().len() == whole.len(),
            whole.len() <= 0x0400_0000_0000_0000,
            forall|k: int| 0 <= k < whole.len() ==> #[trigger] whole[k] == it.seq()[k]@,
            (asm_view(placed@), pseudo_offset_map.slots(), offset as int) == place_instructions(
                whole.take(it.index() as int),
            ),
            offset >= -8 * it.index(),
            offset <= 0,
    {
        proof {
            assert(whole.take(it.index() + 1).drop_last() =~= whole.take(it.index() as int));
            assert(whole.take(it.index() + 1).last() == instr@);
        }
        let ghost before = asm_view(placed@);
        let p = replace_in_instruction(instr, &mut pseudo_offset_map, &mut offset);
        let ghost pv = p@;
        placed.push(p);
        assert(asm_view(placed@) =~= before.push(pv));
    }
    assert(whole.take(whole.len() as int) =~= whole);
    program.function_def.instructions = placed;
    offset
}


// ---------------------------------------------------------------------
// Instruction fix-up
// ---------------------------------------------------------------------

/// The instructions that replace one that x86-64 cannot encode: a move,
/// comparison or `add`/`sub`/`and`/`xor`/`or` between two stack slots goes
/// through `%r10d`; a shift between two stack slots takes its count in
/// `%cl`; `imul` into a stack slot computes in `%r11d`; `idiv` of an
/// immediate divides by `%r10d`; a comparison with an immediate second
/// operand compares with `%r11d`. Other instructions stay.
pub open spec fn fix_instruction(i: SpecAsm) -> Seq<SpecAsm> {
    let r10 = SpecOperand::Register(Reg::R10);
    let r11 = SpecOperand::Register(Reg::R11);
    let cl = SpecOperand::Register(Reg::CL);
    match i {
        SpecAsm::Mov { source: SpecOperand::Stack(s), dest: SpecOperand::Stack(d) } => seq![
            SpecAsm::Mov { source: SpecOperand::Stack(s), dest: r10 },
            SpecAsm::Mov { source: r10, dest: SpecOperand::Stack(d) },
        ],
        SpecAsm::Idiv(SpecOperand::Imm(v)) => seq![
            SpecAsm::Mov { source: SpecOperand::Imm(v), dest: r10 },
            SpecAsm::Idiv(r10),
        ],
        SpecAsm::Binary(op, SpecOperand::Stack(o1), SpecOperand::Stack(o2)) if op == BinaryOp::Add
            || op == BinaryOp::Sub || op == BinaryOp::And || op == BinaryOp::Xor || op
            == BinaryOp::Or => seq![
            SpecAsm::Mov { source: SpecOperand::Stack(o1), dest: r10 },
            SpecAsm::Binary(op, r10, SpecOperand::Stack(o2)),
        ],
        SpecAsm::Binary(BinaryOp::Mult, o1, SpecOperand::Stack(o2)) => seq![
            SpecAsm::Mov { source: SpecOperand::Stack(o2), dest: r11 },
            SpecAsm::Binary(BinaryOp::Mult, o1, r11),
            SpecAsm::Mov { source: r11, dest: SpecOperand::Stack(o2) },
        ],
        SpecAsm::Binary(op, SpecOperand::Stack(o1), SpecOperand::Stack(o2)) if op == BinaryOp::Sal
            || op == BinaryOp::Sar => seq![
            SpecAsm::Mov { source: SpecOperand::Stack(o1), dest: cl },
            SpecAsm::Binary(op, cl, SpecOperand::Stack(o2)),
        ],
        SpecAsm::Cmp(SpecOperand::Stack(o1), SpecOperand::Stack(o2)) => seq![
            SpecAsm::Mov { source: SpecOperand::Stack(o1), dest: r10 },
            SpecAsm::Cmp(r10, SpecOperand::Stack(o2)),
        ],
        SpecAsm::Cmp(o1, SpecOperand::Imm(v)) => seq![
            SpecAsm::Mov { source: SpecOperand::Imm(v), dest: r11 },
            SpecAsm::Cmp(o1, r11),
        ],
        _ => seq![i],
    }
}

/// The fixed-up instructions, in order.
pub open spec fn fix_instructions(is: Seq<SpecAsm>) -> Seq<SpecAsm>
    decreases is.len(),
{
    if is.len() == 0 {
        Seq::empty()
    } else {
        fix_instructions(is.drop_last()) + fix_instruction(is.last())
    }
}

/// The bytes of stack that an offset calls for: its magnitude.
pub open spec fn frame_size(offset: int) -> u64 {
    if offset < 0 {
        (-offset) as u64
    } else {
        offset as u64
    }
}

fn fix_instruction_into(instr: Instruction, out: &mut Vec<Instruction>)
    ensures
        asm_view(final(out)@) == asm_view(old(out)@) + fix_instruction(instr@),
{
    let ghost before = asm_view(out@);
    let ghost iv = instr@;
    match instr {
        Instruction::Mov { source: Operand::Stack(s), dest: Operand::Stack(d) } => {
            push_asm(out, Instruction::Mov { source: Operand::Stack(s), dest: Operand::Register(Reg::R10) });
            push_asm(out, Instruction::Mov { source: Operand::Register(Reg::R10), dest: Operand::Stack(d) });
        },
        Instruction::Idiv(Operand::Imm(val)) => {
            push_asm(out, Instruction::Mov { source: Operand::Imm(val), dest: Operand::Register(Reg::R10) });
            push_asm(out, Instruction::Idiv(Operand::Register(Reg::R10)));
        },
        Instruction::Binary(BinaryOp::Add, Operand::Stack(o1), Operand::Stack(o2)) => {
            push_asm(out, Instruction::Mov { source: Operand::Stack(o1), dest: Operand::Register(Reg::R10) });
            push_asm(out, Instruction::Binary(BinaryOp::Add, Operand::Register(Reg::R10), Operand::Stack(o2)));
        },
        Instruction::Binary(BinaryOp::Sub, Operand::Stack(o1), Operand::Stack(o2)) => {
            push_asm(out, Instruction::Mov { source: Operand::Stack(o1), dest: Operand::Register(Reg::R10) });
            push_asm(out, Instruction::Binary(BinaryOp::Sub, Operand::Register(Reg::R10), Operand::Stack(o2)));
        },
        Instruction::Binary(BinaryOp::Mult, o1, Operand::Stack(o2)) => {
            push_asm(out, Instruction::Mov { source: Operand::Stack(o2), dest: Operand::Register(Reg::R11) });
            push_asm(out, Instruction::Binary(BinaryOp::Mult, o1, Operand::Register(Reg::R11)));
            push_asm(out, Instruction::Mov { source: Operand::Register(Reg::R11), dest: Operand::Stack(o2) });
        },
        Instruction::Binary(BinaryOp::Sal, Operand::Stack(o1), Operand::Stack(o2)) => {
            push_asm(out, Instruction::Mov { source: Operand::Stack(o1), dest: Operand::Register(Reg::CL) });
            push_asm(out, Instruction::Binary(BinaryOp::Sal, Operand::Register(Reg::CL), Operand::Stack(o2)));
        },
        Instruction::Binary(BinaryOp::Sar, Operand::Stack(o1), Operand::Stack(o2)) => {
            push_asm(out, Instruction::Mov { source: Operand::Stack(o1), dest: Operand::Register(Reg::CL) });
            push_asm(out, Instruction::Binary(BinaryOp::Sar, Operand::Register(Reg::CL), Operand::Stack(o2)));
        },
        Instruction::Binary(BinaryOp::And, Operand::Stack(o1), Operand::Stack(o2)) => {
            push_asm(out, Instruction::Mov { source: Operand::Stack(o1), dest: Operand::Register(Reg::R10) });
            push_asm(out, Instruction::Binary(BinaryOp::And, Operand::Register(Reg::R10), Operand::Stack(o2)));
        },
        Instruction::Binary(BinaryOp::Xor, Operand::Stack(o1), Operand::Stack(o2)) => {
            push_asm(out, Instruction::Mov { source: Operand::Stack(o1), dest: Operand::Register(Reg::R10) });
            push_asm(out, Instruction::Binary(BinaryOp::Xor, Operand::Register(Reg::R10), Operand::Stack(o2)));
        },
        Instruction::Binary(BinaryOp::Or, Operand::Stack(o1), Operand::Stack(o2)) => {
            push_asm(out, Instruction::Mov { source: Operand::Stack(o1), dest: Operand::Register(Reg::R10) });
            push_asm(out, Instruction::Binary(BinaryOp::Or, Operand::Register(Reg::R10), Operand::Stack(o2)));
        },
        Instruction::Cmp(Operand::Stack(o1), Operand::Stack(o2)) => {
            push_asm(out, Instruction::Mov { source: Operand::Stack(o1), dest: Operand::Register(Reg::R10) });
            push_asm(out, Instruction::Cmp(Operand::Register(Reg::R10), Operand::Stack(o2)));
        },
        Instruction::Cmp(o1, Operand::Imm(val)) => {
            push_asm(out, Instruction::Mov { source: Operand::Imm(val), dest: Operand::Register(Reg::R11) });
            push_asm(out, Instruction::Cmp(o1, Operand::Register(Reg::R11)));
        },
        other => {
            push_asm(out, other);
        },
    }
    assert(asm_view(out@) =~= before + fix_instruction(iv));
}

fn allocate_stack_and_temp_reg(program: Program, offset: i64) -> (p: Program)
    ensures
        p@ == (SpecAsmProgram {
            function_def: SpecAsmFunction {
                name: program@.function_def.name,
                instructions: seq![SpecAsm::AllocateStack(frame_size(offset as int))]
                    + fix_instructions(program@.function_def.instructions),
            },
        }),
        program@.function_def.instructions.len() + 1 <= p@.function_def.instructions.len()
            <= 3 * program@.function_def.instructions.len() + 1,
        forall|k: int|
            0 <= k < p@.function_def.instructions.len() ==> encodable(
                #[trigger] p@.function_def.instructions[k],
            ),
{
    let ghost whole = program@.function_def.instructions;
    let mut updated_instructions: Vec<Instruction> = Vec::new();
    let size: u64 = if offset < 0 {
        ((-(offset + 1)) as u64) + 1
    } else {
        offset as u64
    };
    let alloc_stack = Instruction::AllocateStack(size);
    push_asm(&mut updated_instructions, alloc_stack);
    let ghost head = asm_view(updated_instructions@);
    let FunctionDef { name, instructions } = program.function_def;
    assert(whole.take(0) =~= Seq::<SpecAsm>::empty());
    assert(head + Seq::<SpecAsm>::empty() =~= head);
    for instr in it: instructions
        invariant
            whole == program@.function_def.instructions,
            head == seq![SpecAsm::AllocateStack(frame_size(offset as int))],
            it.seq().len() == whole.len(),
            forall|k: int| 0 <= k < whole.len() ==> #[trigger] whole[k] == it.seq()[k]@,
            asm_view(updated_instructions@) == head + fix_instructions(whole.take(it.index() as int)),
    {
        proof {
            assert(whole.take(it.index() + 1).drop_last() =~= whole.take(it.index() as int));
            assert(whole.take(it.index() + 1).last() == instr@);
        }
        let ghost before = asm_view(updated_instructions@);
        fix_instruction_into(instr, &mut updated_instructions);
        proof {
            let fixed = fix_instructions(whole.take(it.index() as int));
            assert(head + fixed + fix_instruction(whole[it.index() as int]) =~= head + (fixed
                + fix_instruction(whole[it.index() as int])));
        }
    }
    assert(whole.take(whole.len() as int) =~= whole);
    let p = Program { function_def: FunctionDef { name, instructions: updated_instructions } };
    proof {
        lemma_fix_up(whole);
        let out = p@.function_def.instructions;
        assert forall|k: int| 0 <= k < out.len() implies encodable(#[trigger] out[k]) by {
            if k >= 1 {
                assert(out[k] == fix_instructions(whole)[k - 1]);
            }
        }
    }
    p
}

/// The assembly of an intermediate program: instruction selection,
/// stack placement of variables, then fix-up, with an `AllocateStack` of
/// the frame's size in front.
pub open spec fn spec_assemble(p: tacky::SpecProgram) -> SpecAsmProgram {
    let selected = select_instructions(p.function_def.body);
    let (placed, _, lowest) = place_instructions(selected);
    SpecAsmProgram {
        function_def: SpecAsmFunction {
            name: p.function_def.name,
            instructions: seq![SpecAsm::AllocateStack(frame_size(lowest))] + fix_instructions(placed),
        },
    }
}

/// Each intermediate instruction becomes at most four instructions.
proof fn lemma_select_length(is: Seq<SpecInstruction>)
    ensures
        select_instructions(is).len() <= 4 * is.len(),
    decreases is.len(),
{
    if is.len() > 0 {
        lemma_select_length(is.drop_last());
    }
}

/// Generates x86-64 code for an intermediate program.
pub fn assemble(program: tacky::Program) -> (p: Program)
    requires
        program@.function_def.body.len() <= 0x0100_0000_0000_0000,
    ensures
        p@ == spec_assemble(program@),
{
    proof {
        lemma_select_length(program@.function_def.body);
    }
    let mut program = lower_program(program);
    let offset = replace_pseudo(&mut program);
    allocate_stack_and_temp_reg(program, offset)
}


// ---------------------------------------------------------------------
// Properties of code generation
// ---------------------------------------------------------------------

/// The operands of an instruction, first operand first.
pub open spec fn operands_of(i: SpecAsm) -> Seq<SpecOperand> {
    match i {
        SpecAsm::Mov { source, dest } => seq![source, dest],
        SpecAsm::Unary(_, x) => seq![x],
        SpecAsm::Binary(_, x, y) => seq![x, y],
        SpecAsm::Idiv(x) => seq![x],
        SpecAsm::Cmp(x, y) => seq![x, y],
        SpecAsm::SetCC(_, x) => seq![x],
        _ => Seq::empty(),
    }
}

/// An instruction with `f` applied to each of its operands.
pub open spec fn map_operands(i: SpecAsm, f: spec_fn(SpecOperand) -> SpecOperand) -> SpecAsm {
    match i {
        SpecAsm::Mov { source, dest } => SpecAsm::Mov { source: f(source), dest: f(dest) },
        SpecAsm::Unary(op, x) => SpecAsm::Unary(op, f(x)),
        SpecAsm::Binary(op, x, y) => SpecAsm::Binary(op, f(x), f(y)),
        SpecAsm::Idiv(x) => SpecAsm::Idiv(f(x)),
        SpecAsm::Cmp(x, y) => SpecAsm::Cmp(f(x), f(y)),
        SpecAsm::SetCC(c, x) => SpecAsm::SetCC(c, f(x)),
        _ => i,
    }
}

/// An instruction none of whose operands is a variable.
pub open spec fn has_no_variables(i: SpecAsm) -> bool {
    forall|k: int| 0 <= k < operands_of(i).len() ==> !(#[trigger] operands_of(i)[k] is Pseudo)
}

/// An instruction that x86-64 can encode as far as its operands go: no
/// move, comparison or arithmetic between two stack slots, no `imul` into
/// a stack slot, no `idiv` of an immediate, no comparison with an
/// immediate second operand.
pub open spec fn encodable(i: SpecAsm) -> bool {
    match i {
        SpecAsm::Mov { source: SpecOperand::Stack(_), dest: SpecOperand::Stack(_) } => false,
        SpecAsm::Binary(_, SpecOperand::Stack(_), SpecOperand::Stack(_)) => false,
        SpecAsm::Binary(BinaryOp::Mult, _, SpecOperand::Stack(_)) => false,
        SpecAsm::Idiv(SpecOperand::Imm(_)) => false,
        SpecAsm::Cmp(SpecOperand::Stack(_), SpecOperand::Stack(_)) => false,
        SpecAsm::Cmp(_, SpecOperand::Imm(_)) => false,
        _ => true,
    }
}

/// A variable replaced by its slot in `slots`, if it has one.
pub open spec fn slot_operand(o: SpecOperand, slots: Slots) -> SpecOperand {
    match o {
        SpecOperand::Pseudo(n) => match slot_of(slots, n) {
            Some(x) => SpecOperand::Stack(x),
            None => o,
        },
        _ => o,
    }
}

/// An instruction with every variable replaced by its slot in `slots`.
pub open spec fn slot_instruction(i: SpecAsm, slots: Slots) -> SpecAsm {
    map_operands(i, |o: SpecOperand| slot_operand(o, slots))
}

/// Slots as the placement gives them: the `k`-th variable met sits at
/// offset `-4 * (k + 1)`, and no variable has two slots.
pub open spec fn slots_well_formed(slots: Slots) -> bool {
    &&& forall|k: int| 0 <= k < slots.len() ==> (#[trigger] slots[k]).1 == -4 * (k + 1)
    &&& forall|j: int, k: int| 0 <= j < k < slots.len() ==> (#[trigger] slots[j]).0 != (
    #[trigger] slots[k]).0
}

/// `t` keeps every slot of `s`.
pub open spec fn keeps_slots(s: Slots, t: Slots) -> bool {
    forall|n: Seq<char>| (#[trigger] slot_of(s, n)) is Some ==> slot_of(t, n) == slot_of(s, n)
}

/// Every variable of `i` has a slot in `s`.
pub open spec fn variables_placed(i: SpecAsm, s: Slots) -> bool {
    forall|k: int|
        0 <= k < operands_of(i).len() ==> (#[trigger] operands_of(i)[k] matches SpecOperand::Pseudo(
            n,
        ) ==> slot_of(s, n) is Some)
}

proof fn lemma_slot_of_index(s: Slots, n: Seq<char>)
    ensures
        slot_of(s, n) matches Some(x) ==> exists|k: int| 0 <= k < s.len() && #[trigger] s[k] == (n, x),
        slot_of(s, n) is None ==> forall|k: int| 0 <= k < s.len() ==> (#[trigger] s[k]).0 != n,
    decreases s.len(),
{
    if s.len() > 0 {
        lemma_slot_of_index(s.drop_last(), n);
        if slot_of(s, n) is Some && s.last().0 != n {
            let x = slot_of(s, n).unwrap();
            let k = choose|k: int| 0 <= k < s.drop_last().len() && #[trigger] s.drop_last()[k] == (n, x);
            assert(s[k] == (n, x));
        }
        if slot_of(s, n) is None {
            assert forall|k: int| 0 <= k < s.len() implies (#[trigger] s[k]).0 != n by {
                if k < s.len() - 1 {
                    assert(s.drop_last()[k] == s[k]);
                }
            }
        }
    }
}

proof fn lemma_place_operand(o: SpecOperand, s: Slots, l: int)
    requires
        slots_well_formed(s),
        l == -4 * s.len(),
        s.len() < 0x1000_0000_0000_0000,
    ensures
        ({
            let (o2, s2, l2) = place_operand(o, s, l);
            &&& slots_well_formed(s2)
            &&& s2.len() <= s.len() + 1
            &&& l2 == -4 * s2.len()
            &&& keeps_slots(s, s2)
            &&& o2 == slot_operand(o, s2)
            &&& !(o2 is Pseudo)
            &&& (o matches SpecOperand::Pseudo(n) ==> slot_of(s2, n) is Some)
            &&& l2 >= l - 4
        }),
{
    if let SpecOperand::Pseudo(n) = o {
        lemma_slot_of_index(s, n);
        if slot_of(s, n) is None {
            let s2 = s.push((n, (l - 4) as i64));
            assert((l - 4) as i64 == -4 * (s.len() + 1));
            assert forall|j: int, k: int| 0 <= j < k < s2.len() implies (#[trigger] s2[j]).0 != (
            #[trigger] s2[k]).0 by {
                if k < s.len() {
                    assert(s2[j] == s[j] && s2[k] == s[k]);
                }
            }
            assert forall|k: int| 0 <= k < s2.len() implies (#[trigger] s2[k]).1 == -4 * (k + 1) by {
                if k < s.len() {
                    assert(s2[k] == s[k]);
                }
            }
            assert(s2.drop_last() =~= s);
            assert forall|m: Seq<char>| (#[trigger] slot_of(s, m)) is Some implies slot_of(s2, m)
                == slot_of(s, m) by {
                if m == n {
                    assert(false);
                }
            }
        }
    }
}

proof fn lemma_keeps_slots_transitive(a: Slots, b: Slots, c: Slots)
    requires
        keeps_slots(a, b),
        keeps_slots(b, c),
    ensures
        keeps_slots(a, c),
{
    assert forall|n: Seq<char>| (#[trigger] slot_of(a, n)) is Some implies slot_of(c, n) == slot_of(
        a,
        n,
    ) by {
        assert(slot_of(b, n) == slot_of(a, n));
    }
}

proof fn lemma_slot_operand_kept(o: SpecOperand, s: Slots, t: Slots)
    requires
        keeps_slots(s, t),
        o matches SpecOperand::Pseudo(n) ==> slot_of(s, n) is Some,
    ensures
        slot_operand(o, t) == slot_operand(o, s),
        o matches SpecOperand::Pseudo(n) ==> slot_of(t, n) is Some,
{
    if let SpecOperand::Pseudo(n) = o {
        assert(slot_of(t, n) == slot_of(s, n));
    }
}

proof fn lemma_place_instruction(i: SpecAsm, s: Slots, l: int)
    requires
        slots_well_formed(s),
        l == -4 * s.len(),
        s.len() < 0x0800_0000_0000_0000,
    ensures
        ({
            let (i2, s2, l2) = place_instruction(i, s, l);
            &&& slots_well_formed(s2)
            &&& s2.len() <= s.len() + 2
            &&& l2 == -4 * s2.len()
            &&& keeps_slots(s, s2)
            &&& i2 == slot_instruction(i, s2)
            &&& has_no_variables(i2)
            &&& variables_placed(i, s2)
        }),
{
    let (i2, s2, l2) = place_instruction(i, s, l);
    match i {
        SpecAsm::Mov { source: x, dest: y } | SpecAsm::Binary(_, x, y) | SpecAsm::Cmp(x, y) => {
            lemma_place_operand(x, s, l);
            let (a, s1, l1) = place_operand(x, s, l);
            lemma_place_operand(y, s1, l1);
            let (b, s3, l3) = place_operand(y, s1, l1);
            lemma_keeps_slots_transitive(s, s1, s3);
            lemma_slot_operand_kept(x, s1, s3);
            assert(operands_of(i) =~= seq![x, y]);
            assert(operands_of(i2) =~= seq![a, b]);
        },
        SpecAsm::Unary(_, x) | SpecAsm::Idiv(x) | SpecAsm::SetCC(_, x) => {
            lemma_place_operand(x, s, l);
            let (a, s1, l1) = place_operand(x, s, l);
            assert(operands_of(i) =~= seq![x]);
            assert(operands_of(i2) =~= seq![a]);
        },
        _ => {
            assert(keeps_slots(s, s));
        },
    }
}

proof fn lemma_slot_instruction_kept(i: SpecAsm, s: Slots, t: Slots)
    requires
        keeps_slots(s, t),
        variables_placed(i, s),
    ensures
        slot_instruction(i, t) == slot_instruction(i, s),
        variables_placed(i, t),
{
    match i {
        SpecAsm::Mov { source: x, dest: y } | SpecAsm::Binary(_, x, y) | SpecAsm::Cmp(x, y) => {
            assert(operands_of(i)[0] == x && operands_of(i)[1] == y);
            lemma_slot_operand_kept(x, s, t);
            lemma_slot_operand_kept(y, s, t);
        },
        SpecAsm::Unary(_, x) | SpecAsm::Idiv(x) | SpecAsm::SetCC(_, x) => {
            assert(operands_of(i)[0] == x);
            lemma_slot_operand_kept(x, s, t);
        },
        _ => {},
    }
}

/// Stack placement, stated as a whole: every variable gets a slot, the
/// `k`-th distinct variable met (in instruction and operand order) at
/// offset `-4 * (k + 1)`; no variable gets two slots and no two variables
/// share one; the lowest offset is `-4` times the number of variables;
/// and each placed instruction is the original one with every variable
/// replaced by its slot, so no variable remains.
pub proof fn lemma_placement(is: Seq<SpecAsm>)
    requires
        is.len() <= 0x0400_0000_0000_0000,
    ensures
        ({
            let (placed, slots, lowest) = place_instructions(is);
            &&& slots_well_formed(slots)
            &&& slots.len() <= 2 * is.len()
            &&& lowest == -4 * slots.len()
            &&& placed.len() == is.len()
            &&& forall|k: int| 0 <= k < is.len() ==> #[trigger] placed[k] == slot_instruction(is[k], slots)
            &&& forall|k: int| 0 <= k < is.len() ==> has_no_variables(#[trigger] placed[k])
            &&& forall|k: int| 0 <= k < is.len() ==> variables_placed(#[trigger] is[k], slots)
        }),
    decreases is.len(),
{
    if is.len() > 0 {
        let prefix_is = is.drop_last();
        lemma_placement(prefix_is);
        let (prefix, s0, l0) = place_instructions(prefix_is);
        lemma_place_instruction(is.last(), s0, l0);
        let (i2, s1, l1) = place_instruction(is.last(), s0, l0);
        let (placed, slots, lowest) = place_instructions(is);
        assert(placed == prefix.push(i2));
        assert forall|k: int|
            #![trigger placed[k]]
            #![trigger is[k]]
            0 <= k < is.len() implies placed[k] == slot_instruction(is[k], slots)
                && has_no_variables(placed[k]) && variables_placed(is[k], slots) by {
            if k < is.len() - 1 {
                assert(prefix_is[k] == is[k]);
                assert(placed[k] == prefix[k]);
                lemma_slot_instruction_kept(is[k], s0, s1);
            }
        }
    } else {
        assert(slots_well_formed(Seq::<(Seq<char>, i64)>::empty()));
    }
}

/// No two variables share a slot in well-formed slots.
pub proof fn lemma_slots_distinct(slots: Slots, a: Seq<char>, b: Seq<char>)
    requires
        slots_well_formed(slots),
        a != b,
        slot_of(slots, a) is Some,
        slot_of(slots, b) is Some,
    ensures
        slot_of(slots, a) != slot_of(slots, b),
{
    lemma_slot_of_index(slots, a);
    lemma_slot_of_index(slots, b);
    let x = slot_of(slots, a).unwrap();
    let y = slot_of(slots, b).unwrap();
    let j = choose|k: int| 0 <= k < slots.len() && #[trigger] slots[k] == (a, x);
    let k = choose|k: int| 0 <= k < slots.len() && #[trigger] slots[k] == (b, y);
    assert(slots[j].1 == -4 * (j + 1));
    assert(slots[k].1 == -4 * (k + 1));
}

proof fn lemma_fix_instruction(i: SpecAsm)
    ensures
        1 <= fix_instruction(i).len() <= 3,
        forall|k: int|
            0 <= k < fix_instruction(i).len() ==> encodable(#[trigger] fix_instruction(i)[k]),
        has_no_variables(i) ==> forall|k: int|
            0 <= k < fix_instruction(i).len() ==> has_no_variables(#[trigger] fix_instruction(i)[k]),
{
    match i {
        SpecAsm::Mov { source: x, dest: y } | SpecAsm::Binary(_, x, y) | SpecAsm::Cmp(x, y) => {
            assert(operands_of(i)[0] == x && operands_of(i)[1] == y);
        },
        SpecAsm::Unary(_, x) | SpecAsm::Idiv(x) | SpecAsm::SetCC(_, x) => {
            assert(operands_of(i)[0] == x);
        },
        _ => {},
    }
    if has_no_variables(i) {
        assert forall|k: int| 0 <= k < fix_instruction(i).len() implies has_no_variables(
            #[trigger] fix_instruction(i)[k],
        ) by {
            let f = fix_instruction(i)[k];
            assert forall|m: int| 0 <= m < operands_of(f).len() implies !(
            #[trigger] operands_of(f)[m] is Pseudo) by {
                match i {
                    SpecAsm::Mov { source: x, dest: y } | SpecAsm::Binary(_, x, y) | SpecAsm::Cmp(
                        x,
                        y,
                    ) => {
                        assert(!(x is Pseudo) && !(y is Pseudo));
                    },
                    SpecAsm::Unary(_, x) | SpecAsm::Idiv(x) | SpecAsm::SetCC(_, x) => {
                        assert(!(x is Pseudo));
                    },
                    _ => {},
                }
            }
        }
    }
}

/// The fix-up leaves only instructions that x86-64 can encode (see
/// [`encodable`]), whatever it is given; it replaces each instruction by
/// one to three, so the output is at least as long as the input and at
/// most three times as long; and it brings in no variables.
pub proof fn lemma_fix_up(is: Seq<SpecAsm>)
    ensures
        is.len() <= fix_instructions(is).len() <= 3 * is.len(),
        forall|k: int|
            0 <= k < fix_instructions(is).len() ==> encodable(#[trigger] fix_instructions(is)[k]),
        (forall|k: int| 0 <= k < is.len() ==> has_no_variables(#[trigger] is[k])) ==> forall|
            k: int,
        |
            0 <= k < fix_instructions(is).len() ==> has_no_variables(
                #[trigger] fix_instructions(is)[k],
            ),
    decreases is.len(),
{
    if is.len() > 0 {
        lemma_fix_up(is.drop_last());
        lemma_fix_instruction(is.last());
        let a = fix_instructions(is.drop_last());
        let b = fix_instruction(is.last());
        assert forall|k: int| 0 <= k < (a + b).len() implies encodable(#[trigger] (a + b)[k]) by {
            if k >= a.len() {
                assert((a + b)[k] == b[k - a.len()]);
            }
        }
        if forall|k: int| 0 <= k < is.len() ==> has_no_variables(#[trigger] is[k]) {
            assert forall|k: int| 0 <= k < is.drop_last().len() implies has_no_variables(
                #[trigger] is.drop_last()[k],
            ) by {
                assert(is.drop_last()[k] == is[k]);
            }
            assert(has_no_variables(is[is.len() - 1]));
            assert forall|k: int| 0 <= k < (a + b).len() implies has_no_variables(
                #[trigger] (a + b)[k],
            ) by {
                if k >= a.len() {
                    assert((a + b)[k] == b[k - a.len()]);
                }
            }
        }
    }
}

/// The generated code can be encoded and holds no variables: every
/// instruction has only immediates, registers and stack slots as
/// operands, and none combines operands that x86-64 cannot (see
/// [`encodable`]). The first instruction allocates 4 bytes per variable.
pub proof fn lemma_assemble_encodable(p: tacky::SpecProgram)
    requires
        p.function_def.body.len() <= 0x0100_0000_0000_0000,
    ensures
        ({
            let out = spec_assemble(p).function_def.instructions;
            let (_, slots, _) = place_instructions(select_instructions(p.function_def.body));
            &&& out.len() >= 1
            &&& out[0] == SpecAsm::AllocateStack((4 * slots.len()) as u64)
            &&& forall|k: int| 0 <= k < out.len() ==> encodable(#[trigger] out[k])
            &&& forall|k: int| 0 <= k < out.len() ==> has_no_variables(#[trigger] out[k])
        }),
{
    let selected = select_instructions(p.function_def.body);
    lemma_select_length(p.function_def.body);
    lemma_placement(selected);
    let (placed, slots, lowest) = place_instructions(selected);
    lemma_fix_up(placed);
    let fixed = fix_instructions(placed);
    let out = spec_assemble(p).function_def.instructions;
    let head = seq![SpecAsm::AllocateStack(frame_size(lowest))];
    assert(out == head + fixed);
    assert forall|k: int| 0 <= k < out.len() implies encodable(#[trigger] out[k]) && has_no_variables(
        out[k],
    ) by {
        if k >= 1 {
            assert(out[k] == fixed[k - 1]);
        } else {
            assert(operands_of(out[0]) =~= Seq::<SpecOperand>::empty());
        }
    }
}

/// Whether condition code `cc` holds after `cmp b, a` (AT&T order: the
/// flags of `a - b`), comparing `a` and `b` as signed integers: `e` when
/// they are equal, `ne` when not, `l`, `le`, `g`, `ge` when `a` is less,
/// at most, greater, at least.
pub open spec fn condition_holds(cc: CondCode, a: int, b: int) -> bool {
    match cc {
        CondCode::E => a == b,
        CondCode::NE => a != b,
        CondCode::L => a < b,
        CondCode::LE => a <= b,
        CondCode::G => a > b,
        CondCode::GE => a >= b,
    }
}

/// The six comparisons of the intermediate form.
pub open spec fn is_comparison(op: tacky::BinaryOp) -> bool {
    ||| op == tacky::BinaryOp::EqualTo
    ||| op == tacky::BinaryOp::NotEqualTo
    ||| op == tacky::BinaryOp::LessThan
    ||| op == tacky::BinaryOp::GreaterThan
    ||| op == tacky::BinaryOp::LessThanOrEqualTo
    ||| op == tacky::BinaryOp::GreaterThanOrEqualTo
}

/// A comparison is selected as `cmp src2, src1`, then clearing the
/// destination and setting it from the flags, with the condition code
/// that holds exactly when `src1` and `src2` stand in the comparison's
/// relation as signed integers; so the destination receives the value
/// that the comparison computes, 1 or 0, on all operands. The operators
/// with a condition code are exactly the comparisons.
pub proof fn lemma_comparison_selection(
    op: tacky::BinaryOp,
    src1: SpecValue,
    src2: SpecValue,
    dest: SpecValue,
)
    ensures
        (asm_condition(op) is Some) == is_comparison(op),
        is_comparison(op) ==> {
            let cc = asm_condition(op).unwrap();
            &&& select_instruction(
                SpecInstruction::Binary { binary_operator: op, src1, src2, dest },
            ) == seq![
                SpecAsm::Cmp(operand_of(src2), operand_of(src1)),
                SpecAsm::Mov { source: SpecOperand::Imm(0), dest: operand_of(dest) },
                SpecAsm::SetCC(cc, operand_of(dest)),
            ]
            &&& forall|x: i32, y: i32|
                #[trigger] tacky::tacky_result(op, x, y) == tacky::truth(
                    condition_holds(cc, x as int, y as int),
                )
        },
{
}

/// What an in-place arithmetic instruction `op src, dst` leaves in the
/// destination, from the destination's value `d` and the source's `s`,
/// as an exact integer.
pub open spec fn asm_binary_result(op: BinaryOp, d: i32, s: i32) -> int {
    match op {
        BinaryOp::Add => d + s,
        BinaryOp::Sub => d - s,
        BinaryOp::Mult => d * s,
        BinaryOp::Sal => (d << s) as int,
        BinaryOp::Sar => (d >> s) as int,
        BinaryOp::And => (d & s) as int,
        BinaryOp::Xor => (d ^ s) as int,
        BinaryOp::Or => (d | s) as int,
    }
}

/// What a unary instruction leaves in its operand, from its value `x`:
/// `not` flips every bit, `neg` negates.
pub open spec fn asm_unary_result(op: UnaryOp, x: i32) -> int {
    match op {
        UnaryOp::Not => (!x) as int,
        UnaryOp::Neg => -x,
    }
}

/// What `idiv` (after `cdq`) leaves in a register, dividing `x` by `y`:
/// the quotient, rounded toward zero, in `%eax` and the remainder in
/// `%edx`.
pub open spec fn idiv_register(r: Reg, x: int, y: int) -> Option<int> {
    match r {
        Reg::AX => Some(tacky::c_quotient(x, y)),
        Reg::DX => Some(tacky::c_remainder(x, y)),
        _ => None,
    }
}

/// The arithmetic operators that x86-64 computes in place.
pub open spec fn is_in_place(op: tacky::BinaryOp) -> bool {
    ||| op == tacky::BinaryOp::Add
    ||| op == tacky::BinaryOp::Subtract
    ||| op == tacky::BinaryOp::Multiply
    ||| op == tacky::BinaryOp::LeftShift
    ||| op == tacky::BinaryOp::RightShift
    ||| op == tacky::BinaryOp::BitwiseAnd
    ||| op == tacky::BinaryOp::BitwiseXor
    ||| op == tacky::BinaryOp::BitwiseOr
}

/// Arithmetic is selected so that the destination ends with what the
/// operator computes: an in-place operator copies `src1` to the
/// destination and applies an instruction that computes the operator
/// there with `src2`; division and remainder divide `%eax` (holding
/// `src1`, sign-extended by `cdq`) by `src2` and copy the register that
/// holds the quotient, resp. the remainder.
pub proof fn lemma_arithmetic_selection(
    op: tacky::BinaryOp,
    src1: SpecValue,
    src2: SpecValue,
    dest: SpecValue,
)
    ensures
        (asm_binary(op) is Some) == is_in_place(op),
        is_in_place(op) ==> {
            let a = asm_binary(op).unwrap();
            &&& select_instruction(
                SpecInstruction::Binary { binary_operator: op, src1, src2, dest },
            ) == seq![
                SpecAsm::Mov { source: operand_of(src1), dest: operand_of(dest) },
                SpecAsm::Binary(a, operand_of(src2), operand_of(dest)),
            ]
            &&& forall|x: i32, y: i32|
                #[trigger] tacky::tacky_result(op, x, y) == asm_binary_result(a, x, y)
        },
        op == tacky::BinaryOp::Divide || op == tacky::BinaryOp::Remainder ==> {
            let is = select_instruction(
                SpecInstruction::Binary { binary_operator: op, src1, src2, dest },
            );
            &&& is.len() == 4
            &&& is[0] == SpecAsm::Mov {
                source: operand_of(src1),
                dest: SpecOperand::Register(Reg::AX),
            }
            &&& is[1] == SpecAsm::Cdq
            &&& is[2] == SpecAsm::Idiv(operand_of(src2))
            &&& is[3] matches SpecAsm::Mov { source: SpecOperand::Register(r), dest: d } && d
                == operand_of(dest) && forall|x: i32, y: i32|
                #[trigger] idiv_register(r, x as int, y as int) == Some(
                    tacky::tacky_result(op, x, y),
                )
        },
{
}

/// Unary operators are selected so that the destination ends with what
/// the operator computes: `~` and `-` copy the operand and apply `not`,
/// resp. `neg`; `!` compares the operand with 0, clears the destination
/// and sets it when the operand equals 0.
pub proof fn lemma_unary_selection(op: tacky::UnaryOp, src: SpecValue, dest: SpecValue)
    ensures
        op == tacky::UnaryOp::Not ==> {
            let is = select_instruction(SpecInstruction::Unary { unary_operator: op, src, dest });
            &&& is.len() == 3
            &&& is[0] == SpecAsm::Cmp(SpecOperand::Imm(0), operand_of(src))
            &&& is[1] == SpecAsm::Mov { source: SpecOperand::Imm(0), dest: operand_of(dest) }
            &&& is[2] matches SpecAsm::SetCC(cc, d) && d == operand_of(dest) && forall|x: i32|
                #[trigger] tacky::tacky_unary_result(op, x) == tacky::truth(
                    condition_holds(cc, x as int, 0),
                )
        },
        op != tacky::UnaryOp::Not ==> {
            &&& asm_unary(op) is Some
            &&& select_instruction(SpecInstruction::Unary { unary_operator: op, src, dest }) == seq![
                SpecAsm::Mov { source: operand_of(src), dest: operand_of(dest) },
                SpecAsm::Unary(asm_unary(op).unwrap(), operand_of(dest)),
            ]
            &&& forall|x: i32|
                #[trigger] tacky::tacky_unary_result(op, x) == asm_unary_result(
                    asm_unary(op).unwrap(),
                    x,
                )
        },
{
}

/// Conditional jumps compare the condition with 0 and jump, on a
/// condition code that holds exactly when the value is zero
/// (`JumpIfZero`), resp. nonzero (`JumpIfNotZero`).
pub proof fn lemma_jump_selection(condition: SpecValue, label: Seq<char>)
    ensures
        ({
            let is = select_instruction(SpecInstruction::JumpIfZero { condition, label });
            &&& is.len() == 2
            &&& is[0] == SpecAsm::Cmp(SpecOperand::Imm(0), operand_of(condition))
            &&& is[1] matches SpecAsm::JmpCC(cc, l) && l == label && forall|x: int|
                #[trigger] condition_holds(cc, x, 0) == (x == 0)
        }),
        ({
            let is = select_instruction(SpecInstruction::JumpIfNotZero { condition, label });
            &&& is.len() == 2
            &&& is[0] == SpecAsm::Cmp(SpecOperand::Imm(0), operand_of(condition))
            &&& is[1] matches SpecAsm::JmpCC(cc, l) && l == label && forall|x: int|
                #[trigger] condition_holds(cc, x, 0) == (x != 0)
        }),
{
}

} // verus!
