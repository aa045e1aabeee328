//! Lowering of the syntax tree to a three-address intermediate form.

use vstd::prelude::*;
use crate::lex::{SpecToken, lemma_lex_single_operator, spec_lex};
use crate::parse;
use crate::parse::{SpecBlockItem, SpecExpression, SpecStatement};
use crate::text::{decimal, push_decimal, push_str};

verus! {

// ---------------------------------------------------------------------
// The intermediate form
// ---------------------------------------------------------------------

/// A program: one function.
#[derive(Debug, PartialEq, Eq)]
pub struct Program {
    pub function_def: FunctionDef,
}

/// A function: its name and its instructions.
#[derive(Debug, PartialEq, Eq)]
pub struct FunctionDef {
    pub name: String,
    pub body: Vec<Instruction>,
}

/// An instruction. Destinations are variables.
#[derive(Debug, PartialEq, Eq)]
pub enum Instruction {
    Ret(Value),
    Unary { unary_operator: UnaryOp, src: Value, dest: Value },
    Binary { binary_operator: BinaryOp, src1: Value, src2: Value, dest: Value },
    Copy { src: Value, dest: Value },
    Jump { label: String },
    JumpIfZero { condition: Value, label: String },
    JumpIfNotZero { condition: Value, label: String },
    Label(String),
}

/// An operand: a constant or a variable.
#[derive(Debug, PartialEq, Eq)]
pub enum Value {
    Constant(u64),
    Var(String),
}

/// A unary operator.
#[derive(Debug, Clone, Copy, PartialEq, Eq, Structural)]
pub enum UnaryOp {
    Complement,
    Negation,
    Not,
}

/// A binary operator; `&&` and `||` are lowered to jumps instead.
#[derive(Debug, Clone, Copy, PartialEq, Eq, Structural)]
pub enum BinaryOp {
    Add,
    Subtract,
    Multiply,
    Divide,
    Remainder,
    LeftShift,
    RightShift,
    BitwiseAnd,
    BitwiseXor,
    BitwiseOr,
    EqualTo,
    NotEqualTo,
    LessThan,
    GreaterThan,
    LessThanOrEqualTo,
    GreaterThanOrEqualTo,
}

/// The mathematical value of a [`Value`].
pub enum SpecValue {
    Constant(u64),
    Var(Seq<char>),
}

/// The mathematical value of an [`Instruction`].
pub enum SpecInstruction {
    Ret(SpecValue),
    Unary { unary_operator: UnaryOp, src: SpecValue, dest: SpecValue },
    Binary { binary_operator: BinaryOp, src1: SpecValue, src2: SpecValue, dest: SpecValue },
    Copy { src: SpecValue, dest: SpecValue },
    Jump { label: Seq<char> },
    JumpIfZero { condition: SpecValue, label: Seq<char> },
    JumpIfNotZero { condition: SpecValue, label: Seq<char> },
    Label(Seq<char>),
}

/// The mathematical value of a [`FunctionDef`].
pub struct SpecFunctionDef {
    pub name: Seq<char>,
    pub body: Seq<SpecInstruction>,
}

/// The mathematical value of a [`Program`].
pub struct SpecProgram {
    pub function_def: SpecFunctionDef,
}

impl View for Value {
    type V = SpecValue;

    open spec fn view(&self) -> SpecValue {
        match self {
            Value::Constant(v) => SpecValue::Constant(*v),
            Value::Var(n) => SpecValue::Var(n@),
        }
    }
}

impl View for Instruction {
    type V = SpecInstruction;

    open spec fn view(&self) -> SpecInstruction {
        match self {
            Instruction::Ret(v) => SpecInstruction::Ret(v@),
            Instruction::Unary { unary_operator, src, dest } => SpecInstruction::Unary {
                unary_operator: *unary_operator,
                src: src@,
                dest: dest@,
            },
            Instruction::Binary { binary_operator, src1, src2, dest } => SpecInstruction::Binary {
                binary_operator: *binary_operator,
                src1: src1@,
                src2: src2@,
                dest: dest@,
            },
            Instruction::Copy { src, dest } => SpecInstruction::Copy { src: src@, dest: dest@ },
            Instruction::Jump { label } => SpecInstruction::Jump { label: label@ },
            Instruction::JumpIfZero { condition, label } => SpecInstruction::JumpIfZero {
                condition: condition@,
                label: label@,
            },
            Instruction::JumpIfNotZero { condition, label } => SpecInstruction::JumpIfNotZero {
                condition: condition@,
                label: label@,
            },
            Instruction::Label(l) => SpecInstruction::Label(l@),
        }
    }
}

/// The values of a sequence of instructions.
pub open spec fn instructions_view(is: Seq<Instruction>) -> Seq<SpecInstruction> {
    is.map_values(|i: Instruction| i@)
}

impl View for FunctionDef {
    type V = SpecFunctionDef;

    open spec fn view(&self) -> SpecFunctionDef {
        SpecFunctionDef { name: self.name@, body: instructions_view(self.body@) }
    }
}

impl View for Program {
    type V = SpecProgram;

    open spec fn view(&self) -> SpecProgram {
        SpecProgram { function_def: self.function_def@ }
    }
}

/// The intermediate operator of a source unary operator.
pub open spec fn unary_of(op: parse::UnaryOp) -> UnaryOp {
    match op {
        parse::UnaryOp::Complement => UnaryOp::Complement,
        parse::UnaryOp::Negation => UnaryOp::Negation,
        parse::UnaryOp::Not => UnaryOp::Not,
    }
}

impl From<parse::UnaryOp> for UnaryOp {
    fn from(op: parse::UnaryOp) -> (r: UnaryOp) {
        match op {
            parse::UnaryOp::Complement => UnaryOp::Complement,
            parse::UnaryOp::Negation => UnaryOp::Negation,
            parse::UnaryOp::Not => UnaryOp::Not,
        }
    }
}

impl vstd::std_specs::convert::FromSpecImpl<parse::UnaryOp> for UnaryOp {
    open spec fn obeys_from_spec() -> bool {
        true
    }

    open spec fn from_spec(op: parse::UnaryOp) -> UnaryOp {
        unary_of(op)
    }
}

/// The intermediate operator of a source binary operator, for the
/// operators that have one (not `&&`, `||` or the assignments).
pub open spec fn binary_of(op: parse::BinaryOp) -> Option<BinaryOp> {
    match op {
        parse::BinaryOp::Add => Some(BinaryOp::Add),
        parse::BinaryOp::Subtract => Some(BinaryOp::Subtract),
        parse::BinaryOp::Multiply => Some(BinaryOp::Multiply),
        parse::BinaryOp::Divide => Some(BinaryOp::Divide),
        parse::BinaryOp::Remainder => Some(BinaryOp::Remainder),
        parse::BinaryOp::LeftShift => Some(BinaryOp::LeftShift),
        parse::BinaryOp::RightShift => Some(BinaryOp::RightShift),
        parse::BinaryOp::BitwiseAnd => Some(BinaryOp::BitwiseAnd),
        parse::BinaryOp::BitwiseXor => Some(BinaryOp::BitwiseXor),
        parse::BinaryOp::BitwiseOr => Some(BinaryOp::BitwiseOr),
        parse::BinaryOp::EqualTo => Some(BinaryOp::EqualTo),
        parse::BinaryOp::NotEqualTo => Some(BinaryOp::NotEqualTo),
        parse::BinaryOp::LessThan => Some(BinaryOp::LessThan),
        parse::BinaryOp::GreaterThan => Some(BinaryOp::GreaterThan),
        parse::BinaryOp::LessThanOrEqualTo => Some(BinaryOp::LessThanOrEqualTo),
        parse::BinaryOp::GreaterThanOrEqualTo => Some(BinaryOp::GreaterThanOrEqualTo),
        _ => None,
    }
}

impl BinaryOp {
    fn parse_binary_op_to_tacky(op: parse::BinaryOp) -> (r: Option<BinaryOp>)
        ensures
            r == binary_of(op),
    {
        match op {
            parse::BinaryOp::Add => Some(BinaryOp::Add),
            parse::BinaryOp::Subtract => Some(BinaryOp::Subtract),
            parse::BinaryOp::Multiply => Some(BinaryOp::Multiply),
            parse::BinaryOp::Divide => Some(BinaryOp::Divide),
            parse::BinaryOp::Remainder => Some(BinaryOp::Remainder),
            parse::BinaryOp::LeftShift => Some(BinaryOp::LeftShift),
            parse::BinaryOp::RightShift => Some(BinaryOp::RightShift),
            parse::BinaryOp::BitwiseAnd => Some(BinaryOp::BitwiseAnd),
            parse::BinaryOp::BitwiseXor => Some(BinaryOp::BitwiseXor),
            parse::BinaryOp::BitwiseOr => Some(BinaryOp::BitwiseOr),
            parse::BinaryOp::EqualTo => Some(BinaryOp::EqualTo),
            parse::BinaryOp::NotEqualTo => Some(BinaryOp::NotEqualTo),
            parse::BinaryOp::LessThan => Some(BinaryOp::LessThan),
            parse::BinaryOp::GreaterThan => Some(BinaryOp::GreaterThan),
            parse::BinaryOp::LessThanOrEqualTo => Some(BinaryOp::LessThanOrEqualTo),
            parse::BinaryOp::GreaterThanOrEqualTo => Some(BinaryOp::GreaterThanOrEqualTo),
            _ => None,
        }
    }
}


// ---------------------------------------------------------------------
// The lowering
// ---------------------------------------------------------------------

/// The three counters of the lowering: temporaries, `&&` labels and `||`
/// labels.
pub struct Counters {
    pub tmp: nat,
    pub and_false: nat,
    pub or_true: nat,
}

pub open spec fn numbered(prefix: Seq<char>, n: nat) -> Seq<char> {
    prefix + decimal(n)
}

/// The temporary variable numbered `n`: `tmp.n`.
pub open spec fn tmp_name(n: nat) -> Seq<char> {
    numbered(seq!['t', 'm', 'p', '.'], n)
}

/// The label where `&&` number `n` yields false: `and_falsen`.
pub open spec fn and_false_label(n: nat) -> Seq<char> {
    numbered(seq!['a', 'n', 'd', '_', 'f', 'a', 'l', 's', 'e'], n)
}

/// The label after `&&` number `n`: `and_false_endn`.
pub open spec fn and_end_label(n: nat) -> Seq<char> {
    numbered(seq!['a', 'n', 'd', '_', 'f', 'a', 'l', 's', 'e', '_', 'e', 'n', 'd'], n)
}

/// The label where `||` number `n` yields true: `or_truen`.
pub open spec fn or_true_label(n: nat) -> Seq<char> {
    numbered(seq!['o', 'r', '_', 't', 'r', 'u', 'e'], n)
}

/// The label after `||` number `n`: `or_true_endn`.
pub open spec fn or_end_label(n: nat) -> Seq<char> {
    numbered(seq!['o', 'r', '_', 't', 'r', 'u', 'e', '_', 'e', 'n', 'd'], n)
}

/// The expressions that the lowering handles: constants, unary
/// operations, and binary operations other than assignments.
pub open spec fn lowerable(e: SpecExpression) -> bool
    decreases e,
{
    match e {
        SpecExpression::Constant(_) => true,
        SpecExpression::Unary(_, a) => lowerable(*a),
        SpecExpression::Binary(op, a, b) => (op == parse::BinaryOp::And || op == parse::BinaryOp::Or
            || binary_of(op) is Some) && lowerable(*a) && lowerable(*b),
        _ => false,
    }
}

/// The number of operator nodes of an expression.
pub open spec fn operator_count(e: SpecExpression) -> nat
    decreases e,
{
    match e {
        SpecExpression::Unary(_, a) => 1 + operator_count(*a),
        SpecExpression::Binary(_, a, b) => 1 + operator_count(*a) + operator_count(*b),
        _ => 0,
    }
}

/// The instructions that compute `e`, the value that holds its result,
/// and the counters after it. A unary or binary operation computes its
/// operands and then stores into a fresh temporary. `a && b` takes its
/// temporary and label number first, jumps to the false label as soon as
/// an operand is zero, and stores 1 or 0; `a || b` jumps to the true label
/// as soon as an operand is nonzero, and stores 0 or 1.
pub open spec fn lower_expression_with(e: SpecExpression, c: Counters) -> (
    Seq<SpecInstruction>,
    SpecValue,
    Counters,
)
    decreases e,
{
    match e {
        SpecExpression::Constant(v) => (Seq::empty(), SpecValue::Constant(v), c),
        SpecExpression::Unary(op, a) => {
            let (is, src, c1) = lower_expression_with(*a, c);
            let dest = SpecValue::Var(tmp_name(c1.tmp));
            (
                is.push(SpecInstruction::Unary { unary_operator: unary_of(op), src, dest }),
                dest,
                Counters { tmp: c1.tmp + 1, ..c1 },
            )
        },
        SpecExpression::Binary(op, a, b) => if op == parse::BinaryOp::And {
            let var = SpecValue::Var(tmp_name(c.tmp));
            let label = and_false_label(c.and_false);
            let end = and_end_label(c.and_false);
            let c0 = Counters { tmp: c.tmp + 1, and_false: c.and_false + 1, or_true: c.or_true };
            let (is1, src1, c1) = lower_expression_with(*a, c0);
            let (is2, src2, c2) = lower_expression_with(*b, c1);
            (
                is1 + seq![SpecInstruction::JumpIfZero { condition: src1, label }] + is2 + seq![
                    SpecInstruction::JumpIfZero { condition: src2, label },
                    SpecInstruction::Copy { src: SpecValue::Constant(1), dest: var },
                    SpecInstruction::Jump { label: end },
                    SpecInstruction::Label(label),
                    SpecInstruction::Copy { src: SpecValue::Constant(0), dest: var },
                    SpecInstruction::Label(end),
                ],
                var,
                c2,
            )
        } else if op == parse::BinaryOp::Or {
            let var = SpecValue::Var(tmp_name(c.tmp));
            let label = or_true_label(c.or_true);
            let end = or_end_label(c.or_true);
            let c0 = Counters { tmp: c.tmp + 1, and_false: c.and_false, or_true: c.or_true + 1 };
            let (is1, src1, c1) = lower_expression_with(*a, c0);
            let (is2, src2, c2) = lower_expression_with(*b, c1);
            (
                is1 + seq![SpecInstruction::JumpIfNotZero { condition: src1, label }] + is2 + seq![
                    SpecInstruction::JumpIfNotZero { condition: src2, label },
                    SpecInstruction::Copy { src: SpecValue::Constant(0), dest: var },
                    SpecInstruction::Jump { label: end },
                    SpecInstruction::Label(label),
                    SpecInstruction::Copy { src: SpecValue::Constant(1), dest: var },
                    SpecInstruction::Label(end),
                ],
                var,
                c2,
            )
        } else {
            let (is1, src1, c1) = lower_expression_with(*a, c);
            let (is2, src2, c2) = lower_expression_with(*b, c1);
            let dest = SpecValue::Var(tmp_name(c2.tmp));
            (
                is1 + is2 + seq![
                    SpecInstruction::Binary {
                        binary_operator: binary_of(op).unwrap(),
                        src1,
                        src2,
                        dest,
                    },
                ],
                dest,
                Counters { tmp: c2.tmp + 1, ..c2 },
            )
        },
        _ => (Seq::empty(), SpecValue::Constant(0), c),
    }
}

/// The block items that the lowering handles: each is `return e;` with a
/// lowerable `e`.
pub open spec fn lowerable_items(items: Seq<SpecBlockItem>) -> bool {
    forall|i: int|
        0 <= i < items.len() ==> match #[trigger] items[i] {
            SpecBlockItem::S(SpecStatement::Return(e)) => lowerable(e),
            _ => false,
        }
}

/// The number of operator nodes in the returned expressions of the items.
pub open spec fn items_operator_count(items: Seq<SpecBlockItem>) -> nat
    decreases items.len(),
{
    if items.len() == 0 {
        0
    } else {
        (match items[0] {
            SpecBlockItem::S(SpecStatement::Return(e)) => operator_count(e),
            _ => 0,
        }) + items_operator_count(items.drop_first())
    }
}

/// The instructions of the items in order: each `return e;` computes `e`
/// and returns its value.
pub open spec fn lower_items_with(items: Seq<SpecBlockItem>, c: Counters) -> (
    Seq<SpecInstruction>,
    Counters,
)
    decreases items.len(),
{
    if items.len() == 0 {
        (Seq::empty(), c)
    } else {
        let (first, c1) = match items[0] {
            SpecBlockItem::S(SpecStatement::Return(e)) => {
                let (is, v, c1) = lower_expression_with(e, c);
                (is.push(SpecInstruction::Ret(v)), c1)
            },
            _ => (Seq::empty(), c),
        };
        let (rest, c2) = lower_items_with(items.drop_first(), c1);
        (first + rest, c2)
    }
}

/// Whether the lowering handles a program, and its counters cannot
/// overflow on it.
pub open spec fn transformable(p: parse::SpecProgram) -> bool {
    lowerable_items(p.function_def.body) && items_operator_count(p.function_def.body)
        <= usize::MAX
}

/// The lowered program; all counters start at zero.
pub open spec fn spec_transform(p: parse::SpecProgram) -> SpecProgram {
    let (body, _) = lower_items_with(
        p.function_def.body,
        Counters { tmp: 0, and_false: 0, or_true: 0 },
    );
    SpecProgram { function_def: SpecFunctionDef { name: p.function_def.name, body } }
}


fn numbered_name(prefix: &str, n: usize) -> (r: String)
    ensures
        r@ == numbered(prefix@, n as nat),
{
    let mut r = String::new();
    push_str(&mut r, prefix);
    push_decimal(&mut r, n as u64);
    r
}

fn emit(instrs: &mut Vec<Instruction>, instr: Instruction)
    ensures
        instructions_view(final(instrs)@) == instructions_view(old(instrs)@).push(instr@),
{
    let ghost v = instr@;
    instrs.push(instr);
    assert(instructions_view(instrs@) =~= instructions_view(old(instrs)@).push(v));
}

/// The counters of the lowering.
pub struct TackyTransformer {
    tmp_var_count: usize,
    and_false_label: usize,
    or_true_label: usize,
}

impl TackyTransformer {
    pub closed spec fn counters(&self) -> Counters {
        Counters {
            tmp: self.tmp_var_count as nat,
            and_false: self.and_false_label as nat,
            or_true: self.or_true_label as nat,
        }
    }

    spec fn has_room(&self, n: nat) -> bool {
        &&& self.tmp_var_count + n <= usize::MAX
        &&& self.and_false_label + n <= usize::MAX
        &&& self.or_true_label + n <= usize::MAX
    }

    fn next_tmp(&mut self) -> (name: String)
        requires
            old(self).tmp_var_count < usize::MAX,
        ensures
            name@ == tmp_name(old(self).tmp_var_count as nat),
            final(self).tmp_var_count == old(self).tmp_var_count + 1,
            final(self).and_false_label == old(self).and_false_label,
            final(self).or_true_label == old(self).or_true_label,
    {
        let name = numbered_name("tmp.", self.tmp_var_count);
        proof {
            reveal_strlit("tmp.");
        }
        self.tmp_var_count = self.tmp_var_count + 1;
        name
    }

    fn lower_expression(&mut self, exp: parse::Expression, instrs: &mut Vec<Instruction>) -> (val:
        Value)
        requires
            lowerable(exp@),
            old(self).has_room(operator_count(exp@)),
        ensures
            ({
                let (is, v, c) = lower_expression_with(exp@, old(self).counters());
                &&& instructions_view(final(instrs)@) == instructions_view(old(instrs)@) + is
                &&& val@ == v
                &&& final(self).counters() == c
            }),
            final(self).tmp_var_count == old(self).tmp_var_count + operator_count(exp@),
            final(self).and_false_label <= old(self).and_false_label + operator_count(exp@),
            final(self).or_true_label <= old(self).or_true_label + operator_count(exp@),
            final(self).and_false_label >= old(self).and_false_label,
            final(self).or_true_label >= old(self).or_true_label,
        decreases operator_count(exp@), 1int,
    {
        let ghost before = instructions_view(instrs@);
        let ghost c = self.counters();
        let ghost ev = exp@;
        match exp {
            parse::Expression::Constant(val) => {
                assert(instructions_view(instrs@) =~= before + Seq::<SpecInstruction>::empty());
                Value::Constant(val)
            },
            parse::Expression::Unary(op, e) => {
                let unary_operator: UnaryOp = UnaryOp::from(op);
                let src = self.lower_expression(*e, instrs);
                let var = self.next_tmp();
                let dest = Value::Var(var.clone());
                emit(instrs, Instruction::Unary { unary_operator, src, dest });
                proof {
                    let (is, _, _) = lower_expression_with(ev, c);
                    assert(instructions_view(instrs@) =~= before + is);
                }
                Value::Var(var)
            },
            parse::Expression::Binary(parse::BinaryOp::And, exp1, exp2) => {
                self.lower_short_circuit(true, *exp1, *exp2, instrs)
            },
            parse::Expression::Binary(parse::BinaryOp::Or, exp1, exp2) => {
                self.lower_short_circuit(false, *exp1, *exp2, instrs)
            },
            parse::Expression::Binary(op, exp1, exp2) => {
                let binary_operator = BinaryOp::parse_binary_op_to_tacky(op).unwrap();
                let src1 = self.lower_expression(*exp1, instrs);
                let src2 = self.lower_expression(*exp2, instrs);
                let var = self.next_tmp();
                let dest = Value::Var(var.clone());
                emit(instrs, Instruction::Binary { binary_operator, src1, src2, dest });
                proof {
                    let (is, _, _) = lower_expression_with(ev, c);
                    assert(instructions_view(instrs@) =~= before + is);
                }
                Value::Var(var)
            },
            _ => {
                proof {
                    assert(false);
                }
                Value::Constant(0)
            },
        }
    }

    /// Lowers `exp1 && exp2` (when `is_and`) or `exp1 || exp2`.
    #[verifier::spinoff_prover]
    #[verifier::rlimit(40)]
    fn lower_short_circuit(
        &mut self,
        is_and: bool,
        exp1: parse::Expression,
        exp2: parse::Expression,
        instrs: &mut Vec<Instruction>,
    ) -> (val: Value)
        requires
            lowerable(exp1@),
            lowerable(exp2@),
            old(self).has_room(1 + operator_count(exp1@) + operator_count(exp2@)),
        ensures
            ({
                let op = if is_and {
                    parse::BinaryOp::And
                } else {
                    parse::BinaryOp::Or
                };
                let e = SpecExpression::Binary(op, Box::new(exp1@), Box::new(exp2@));
                let (is, v, c) = lower_expression_with(e, old(self).counters());
                &&& instructions_view(final(instrs)@) == instructions_view(old(instrs)@) + is
                &&& val@ == v
                &&& final(self).counters() == c
            }),
            final(self).tmp_var_count == old(self).tmp_var_count + 1 + operator_count(exp1@)
                + operator_count(exp2@),
            final(self).and_false_label <= old(self).and_false_label + 1 + operator_count(exp1@)
                + operator_count(exp2@),
            final(self).or_true_label <= old(self).or_true_label + 1 + operator_count(exp1@)
                + operator_count(exp2@),
            final(self).and_false_label >= old(self).and_false_label,
            final(self).or_true_label >= old(self).or_true_label,
        decreases 1 + operator_count(exp1@) + operator_count(exp2@), 0int,
    {
        let ghost before = instructions_view(instrs@);
        let ghost c = self.counters();
        let ghost av = exp1@;
        let ghost bv = exp2@;
        let var = self.next_tmp();
        let (label, end_label) = if is_and {
            let label = numbered_name("and_false", self.and_false_label);
            let end_label = numbered_name("and_false_end", self.and_false_label);
            proof {
                reveal_strlit("and_false");
                reveal_strlit("and_false_end");
                assert(label@ == and_false_label(self.and_false_label as nat));
                assert(end_label@ == and_end_label(self.and_false_label as nat));
            }
            self.and_false_label = self.and_false_label + 1;
            (label, end_label)
        } else {
            let label = numbered_name("or_true", self.or_true_label);
            let end_label = numbered_name("or_true_end", self.or_true_label);
            proof {
                reveal_strlit("or_true");
                reveal_strlit("or_true_end");
                assert(label@ == or_true_label(self.or_true_label as nat));
                assert(end_label@ == or_end_label(self.or_true_label as nat));
            }
            self.or_true_label = self.or_true_label + 1;
            (label, end_label)
        };
        let ghost c0 = self.counters();
        let src1 = self.lower_expression(exp1, instrs);
        let ghost mid1 = instructions_view(instrs@);
        if is_and {
            emit(instrs, Instruction::JumpIfZero { condition: src1, label: label.clone() });
        } else {
            emit(instrs, Instruction::JumpIfNotZero { condition: src1, label: label.clone() });
        }
        let ghost mid2 = instructions_view(instrs@);
        let src2 = self.lower_expression(exp2, instrs);
        let ghost mid3 = instructions_view(instrs@);
        let (first, second): (u64, u64) = if is_and {
            emit(instrs, Instruction::JumpIfZero { condition: src2, label: label.clone() });
            (1, 0)
        } else {
            emit(instrs, Instruction::JumpIfNotZero { condition: src2, label: label.clone() });
            (0, 1)
        };
        emit(instrs, Instruction::Copy { src: Value::Constant(first), dest: Value::Var(var.clone()) });
        emit(instrs, Instruction::Jump { label: end_label.clone() });
        emit(instrs, Instruction::Label(label));
        emit(instrs, Instruction::Copy { src: Value::Constant(second), dest: Value::Var(var.clone()) });
        emit(instrs, Instruction::Label(end_label));
        proof {
            let (is1, s1, c1) = lower_expression_with(av, c0);
            let (is2, s2, c2) = lower_expression_with(bv, c1);
            assert(mid1 == before + is1);
            assert(mid3 == mid2 + is2);
            let var_v = SpecValue::Var(var@);
            if is_and {
                let e = SpecExpression::Binary(parse::BinaryOp::And, Box::new(av), Box::new(bv));
                let (is, _, _) = lower_expression_with(e, c);
                let tail = seq![
                    SpecInstruction::JumpIfZero { condition: s2, label: label@ },
                    SpecInstruction::Copy { src: SpecValue::Constant(1), dest: var_v },
                    SpecInstruction::Jump { label: end_label@ },
                    SpecInstruction::Label(label@),
                    SpecInstruction::Copy { src: SpecValue::Constant(0), dest: var_v },
                    SpecInstruction::Label(end_label@),
                ];
                assert(is == is1 + seq![SpecInstruction::JumpIfZero { condition: s1, label: label@ }] + is2 + tail);
                assert(instructions_view(instrs@) =~= mid3 + tail);
                assert(instructions_view(instrs@) =~= before + is);
            } else {
                let e = SpecExpression::Binary(parse::BinaryOp::Or, Box::new(av), Box::new(bv));
                let (is, _, _) = lower_expression_with(e, c);
                let tail = seq![
                    SpecInstruction::JumpIfNotZero { condition: s2, label: label@ },
                    SpecInstruction::Copy { src: SpecValue::Constant(0), dest: var_v },
                    SpecInstruction::Jump { label: end_label@ },
                    SpecInstruction::Label(label@),
                    SpecInstruction::Copy { src: SpecValue::Constant(1), dest: var_v },
                    SpecInstruction::Label(end_label@),
                ];
                assert(is == is1 + seq![SpecInstruction::JumpIfNotZero { condition: s1, label: label@ }] + is2 + tail);
                assert(instructions_view(instrs@) =~= mid3 + tail);
                assert(instructions_view(instrs@) =~= before + is);
            }
        }
        Value::Var(var)
    }

    fn lower_statement(&mut self, statement: parse::Statement) -> (instrs: Vec<Instruction>)
        requires
            statement@ matches SpecStatement::Return(e) && lowerable(e),
            statement@ matches SpecStatement::Return(e) && old(self).has_room(operator_count(e)),
        ensures
            statement@ matches SpecStatement::Return(e) && {
                let (is, v, c) = lower_expression_with(e, old(self).counters());
                &&& instructions_view(instrs@) == is.push(SpecInstruction::Ret(v))
                &&& final(self).counters() == c
                &&& final(self).tmp_var_count == old(self).tmp_var_count + operator_count(e)
                &&& final(self).and_false_label <= old(self).and_false_label + operator_count(e)
                &&& final(self).or_true_label <= old(self).or_true_label + operator_count(e)
            },
    {
        let mut instrs: Vec<Instruction> = Vec::new();
        assert(instructions_view(instrs@) =~= Seq::<SpecInstruction>::empty());
        match statement {
            parse::Statement::Return(exp) => {
                let ghost ev = exp@;
                let val = self.lower_expression(exp, &mut instrs);
                assert(instructions_view(instrs@) =~= lower_expression_with(ev, old(self).counters()).0);
                emit(&mut instrs, Instruction::Ret(val));
            },
            _ => {
                proof {
                    assert(false);
                }
            },
        }
        instrs
    }

    fn lower_function_def(&mut self, function_def: parse::FunctionDef) -> (f: FunctionDef)
        requires
            lowerable_items(function_def@.body),
            old(self).has_room(items_operator_count(function_def@.body)),
        ensures
            f@ == (SpecFunctionDef {
                name: function_def@.name,
                body: lower_items_with(function_def@.body, old(self).counters()).0,
            }),
    {
        let ghost whole = function_def@.body;
        let ghost c0 = self.counters();
        let name = function_def.name;
        let mut body: Vec<Instruction> = Vec::new();
        assert(whole.skip(0) =~= whole);
        for item in it: function_def.body
            invariant
                whole == function_def@.body,
                c0 == old(self).counters(),
                lowerable_items(whole),
                it.seq().len() == whole.len(),
                forall|k: int| 0 <= k < whole.len() ==> #[trigger] whole[k] == it.seq()[k]@,
                self.has_room(items_operator_count(whole.skip(it.index() as int))),
                lower_items_with(whole, c0).0 == instructions_view(body@) + lower_items_with(
                    whole.skip(it.index() as int),
                    self.counters(),
                ).0,
        {
            let ghost rem = whole.skip(it.index() as int);
            let ghost done = instructions_view(body@);
            let ghost c = self.counters();
            proof {
                assert(rem[0] == item@);
                assert(rem.drop_first() =~= whole.skip(it.index() + 1));
                assert(whole[it.index() as int] == rem[0]);
            }
            match item {
                parse::BlockItem::S(statement) => {
                    let mut instrs = self.lower_statement(statement);
                    let ghost iv = instructions_view(instrs@);
                    body.append(&mut instrs);
                    proof {
                        assert(instructions_view(body@) =~= done + iv);
                        let rest = lower_items_with(whole.skip(it.index() + 1), self.counters()).0;
                        assert(done + (iv + rest) =~= (done + iv) + rest);
                    }
                },
                parse::BlockItem::D(_) => {
                    proof {
                        assert(false);
                    }
                },
            }
        }
        assert(whole.skip(whole.len() as int) =~= Seq::<SpecBlockItem>::empty());
        assert(instructions_view(body@) + Seq::<SpecInstruction>::empty() =~= instructions_view(body@));
        FunctionDef { name, body }
    }

    fn lower_program(&mut self, program: parse::Program) -> (p: Program)
        requires
            lowerable_items(program@.function_def.body),
            old(self).has_room(items_operator_count(program@.function_def.body)),
        ensures
            p@ == (SpecProgram {
                function_def: SpecFunctionDef {
                    name: program@.function_def.name,
                    body: lower_items_with(program@.function_def.body, old(self).counters()).0,
                },
            }),
    {
        let function_def = self.lower_function_def(program.function_def);
        Program { function_def }
    }
}


/// Lowers a program to the intermediate form, with all counters starting
/// at zero. The body must consist of `return e;` items whose expressions
/// use only constants, unary operators and non-assigning binary operators
/// (see [`can_transform`]).
pub fn transform(program: parse::Program) -> (p: Program)
    requires
        transformable(program@),
    ensures
        p@ == spec_transform(program@),
{
    let mut transformer = TackyTransformer { tmp_var_count: 0, and_false_label: 0, or_true_label: 0 };
    transformer.lower_program(program)
}

proof fn lemma_suffix_operator_count(s: Seq<SpecBlockItem>, k: int)
    requires
        0 <= k <= s.len(),
    ensures
        items_operator_count(s.skip(k)) <= items_operator_count(s),
    decreases k,
{
    if k > 0 {
        lemma_suffix_operator_count(s, k - 1);
        assert(s.skip(k - 1).drop_first() =~= s.skip(k));
    } else {
        assert(s.skip(0) =~= s);
    }
}

fn expression_size(e: &parse::Expression) -> (r: Option<usize>)
    ensures
        r matches Some(n) ==> lowerable(e@) && n == operator_count(e@),
        r is None ==> !lowerable(e@) || operator_count(e@) > usize::MAX,
    decreases e,
{
    match e {
        parse::Expression::Constant(_) => Some(0),
        parse::Expression::Unary(_, a) => match expression_size(a) {
            Some(n) => n.checked_add(1),
            None => None,
        },
        parse::Expression::Binary(op, a, b) => {
            let known = match op {
                parse::BinaryOp::And | parse::BinaryOp::Or => true,
                _ => BinaryOp::parse_binary_op_to_tacky(*op).is_some(),
            };
            if !known {
                return None;
            }
            match (expression_size(a), expression_size(b)) {
                (Some(n), Some(m)) => match n.checked_add(m) {
                    Some(k) => k.checked_add(1),
                    None => None,
                },
                _ => None,
            }
        },
        _ => None,
    }
}

/// Whether [`transform`] handles a program: every item of its body is
/// `return e;` where `e` uses only constants, unary operators and binary
/// operators other than assignments, and the operators are few enough for
/// the counters.
pub fn can_transform(program: &parse::Program) -> (b: bool)
    ensures
        b == transformable(program@),
{
    let body = &program.function_def.body;
    let ghost whole = program@.function_def.body;
    let mut total: usize = 0;
    let mut i: usize = body.len();
    assert(whole.skip(i as int) =~= Seq::<SpecBlockItem>::empty());
    while i > 0
        invariant
            i <= body.len(),
            whole == crate::parse::items_view(body@),
            whole == program@.function_def.body,
            whole.len() == body.len(),
            lowerable_items(whole.skip(i as int)),
            total == items_operator_count(whole.skip(i as int)),
        decreases i,
    {
        let ghost rest = whole.skip(i as int);
        proof {
            assert(whole.skip(i - 1).drop_first() =~= rest);
            assert(whole.skip(i - 1)[0] == whole[i - 1]);
            assert(whole[i - 1] == body@[i - 1]@);
            lemma_suffix_operator_count(whole, i - 1);
        }
        match &body[i - 1] {
            parse::BlockItem::S(parse::Statement::Return(e)) => {
                proof {
                    assert(whole[i - 1] == SpecBlockItem::S(SpecStatement::Return(e@)));
                    assert(items_operator_count(whole.skip(i - 1)) == operator_count(e@)
                        + items_operator_count(whole.skip(i as int)));
                }
                match expression_size(e) {
                    Some(n) => match total.checked_add(n) {
                        Some(t) => {
                            total = t;
                        },
                        None => {
                            return false;
                        },
                    },
                    None => {
                        proof {
                            if !lowerable(e@) {
                                assert(!lowerable_items(whole));
                            }
                        }
                        return false;
                    },
                }
            },
            _ => {
                return false;
            },
        }
        i = i - 1;
        proof {
            assert forall|k: int| 0 <= k < whole.skip(i as int).len() implies match #[trigger] whole.skip(i as int)[k] {
                SpecBlockItem::S(SpecStatement::Return(e)) => lowerable(e),
                _ => false,
            } by {
                if k > 0 {
                    assert(whole.skip(i as int)[k] == rest[k - 1]);
                }
            }
        }
    }
    assert(whole.skip(0) =~= whole);
    true
}


// ---------------------------------------------------------------------
// Properties of the lowering
// ---------------------------------------------------------------------

proof fn lemma_lower_expression_counts(e: SpecExpression, c: Counters)
    ensures
        lower_expression_with(e, c).2.tmp == c.tmp + operator_count(e),
    decreases e,
{
    match e {
        SpecExpression::Unary(_, a) => {
            lemma_lower_expression_counts(*a, c);
        },
        SpecExpression::Binary(op, a, b) => {
            if op == parse::BinaryOp::And {
                let c0 = Counters { tmp: c.tmp + 1, and_false: c.and_false + 1, or_true: c.or_true };
                lemma_lower_expression_counts(*a, c0);
                lemma_lower_expression_counts(*b, lower_expression_with(*a, c0).2);
            } else if op == parse::BinaryOp::Or {
                let c0 = Counters { tmp: c.tmp + 1, and_false: c.and_false, or_true: c.or_true + 1 };
                lemma_lower_expression_counts(*a, c0);
                lemma_lower_expression_counts(*b, lower_expression_with(*a, c0).2);
            } else {
                lemma_lower_expression_counts(*a, c);
                lemma_lower_expression_counts(*b, lower_expression_with(*a, c).2);
            }
        },
        _ => {},
    }
}

/// The lowering takes one temporary per operator: after lowering the
/// items from counters `c`, the temporary counter has advanced by the
/// number of operators in the returned expressions.
pub proof fn lemma_temporaries_per_operator(items: Seq<SpecBlockItem>, c: Counters)
    ensures
        lower_items_with(items, c).1.tmp == c.tmp + items_operator_count(items),
    decreases items.len(),
{
    if items.len() > 0 {
        match items[0] {
            SpecBlockItem::S(SpecStatement::Return(e)) => {
                lemma_lower_expression_counts(e, c);
                lemma_temporaries_per_operator(items.drop_first(), lower_expression_with(e, c).2);
            },
            _ => {
                lemma_temporaries_per_operator(items.drop_first(), c);
            },
        }
    }
}


/// The variable that an instruction writes, if any.
pub open spec fn destination(i: SpecInstruction) -> Option<SpecValue> {
    match i {
        SpecInstruction::Unary { dest, .. } => Some(dest),
        SpecInstruction::Binary { dest, .. } => Some(dest),
        SpecInstruction::Copy { dest, .. } => Some(dest),
        _ => None,
    }
}

/// `v` is a temporary numbered from `lo` up to, not including, `hi`.
pub open spec fn is_temporary_in(v: SpecValue, lo: nat, hi: nat) -> bool {
    exists|j: nat| lo <= j < hi && v == SpecValue::Var(#[trigger] tmp_name(j))
}

/// Every instruction of `is` that writes a value writes a temporary
/// numbered from `lo` up to, not including, `hi`.
pub open spec fn writes_temporaries_in(is: Seq<SpecInstruction>, lo: nat, hi: nat) -> bool {
    forall|k: int|
        0 <= k < is.len() ==> (destination(#[trigger] is[k]) matches Some(v) ==> is_temporary_in(
            v,
            lo,
            hi,
        ))
}

proof fn lemma_writes_widen(is: Seq<SpecInstruction>, lo: nat, hi: nat, lo2: nat, hi2: nat)
    requires
        writes_temporaries_in(is, lo, hi),
        lo2 <= lo,
        hi <= hi2,
    ensures
        writes_temporaries_in(is, lo2, hi2),
{
    assert forall|k: int| 0 <= k < is.len() implies (destination(#[trigger] is[k]) matches Some(v)
        ==> is_temporary_in(v, lo2, hi2)) by {
        if let Some(v) = destination(is[k]) {
            let j = choose|j: nat| lo <= j < hi && v == SpecValue::Var(#[trigger] tmp_name(j));
            assert(lo2 <= j < hi2 && v == SpecValue::Var(tmp_name(j)));
        }
    }
}

proof fn lemma_writes_concat(a: Seq<SpecInstruction>, b: Seq<SpecInstruction>, lo: nat, hi: nat)
    requires
        writes_temporaries_in(a, lo, hi),
        writes_temporaries_in(b, lo, hi),
    ensures
        writes_temporaries_in(a + b, lo, hi),
{
    assert forall|k: int| 0 <= k < (a + b).len() implies (destination(#[trigger] (a + b)[k]) matches Some(
        v,
    ) ==> is_temporary_in(v, lo, hi)) by {
        if k < a.len() {
            assert((a + b)[k] == a[k]);
        } else {
            assert((a + b)[k] == b[k - a.len()]);
        }
    }
}

proof fn lemma_expression_temporaries(e: SpecExpression, c: Counters)
    ensures
        c.tmp <= lower_expression_with(e, c).2.tmp,
        writes_temporaries_in(lower_expression_with(e, c).0, c.tmp, lower_expression_with(e, c).2.tmp),
    decreases e,
{
    lemma_lower_expression_counts(e, c);
    let (is, _, c2) = lower_expression_with(e, c);
    match e {
        SpecExpression::Unary(op, a) => {
            lemma_expression_temporaries(*a, c);
            let (is1, src, c1) = lower_expression_with(*a, c);
            let dest = SpecValue::Var(tmp_name(c1.tmp));
            lemma_writes_widen(is1, c.tmp, c1.tmp, c.tmp, c2.tmp);
            let last = seq![SpecInstruction::Unary { unary_operator: unary_of(op), src, dest }];
            assert(is_temporary_in(dest, c.tmp, c2.tmp));
            assert(writes_temporaries_in(last, c.tmp, c2.tmp));
            lemma_writes_concat(is1, last, c.tmp, c2.tmp);
            assert(is == is1 + last);
        },
        SpecExpression::Binary(op, a, b) => {
            if op == parse::BinaryOp::And || op == parse::BinaryOp::Or {
                let c0 = if op == parse::BinaryOp::And {
                    Counters { tmp: c.tmp + 1, and_false: c.and_false + 1, or_true: c.or_true }
                } else {
                    Counters { tmp: c.tmp + 1, and_false: c.and_false, or_true: c.or_true + 1 }
                };
                lemma_expression_temporaries(*a, c0);
                let (is1, src1, c1) = lower_expression_with(*a, c0);
                lemma_expression_temporaries(*b, c1);
                let (is2, src2, _) = lower_expression_with(*b, c1);
                let var = SpecValue::Var(tmp_name(c.tmp));
                assert(is_temporary_in(var, c.tmp, c2.tmp));
                lemma_writes_widen(is1, c0.tmp, c1.tmp, c.tmp, c2.tmp);
                lemma_writes_widen(is2, c1.tmp, c2.tmp, c.tmp, c2.tmp);
                let (mid, tail) = if op == parse::BinaryOp::And {
                    let label = and_false_label(c.and_false);
                    let end = and_end_label(c.and_false);
                    (
                        seq![SpecInstruction::JumpIfZero { condition: src1, label }],
                        seq![
                            SpecInstruction::JumpIfZero { condition: src2, label },
                            SpecInstruction::Copy { src: SpecValue::Constant(1), dest: var },
                            SpecInstruction::Jump { label: end },
                            SpecInstruction::Label(label),
                            SpecInstruction::Copy { src: SpecValue::Constant(0), dest: var },
                            SpecInstruction::Label(end),
                        ],
                    )
                } else {
                    let label = or_true_label(c.or_true);
                    let end = or_end_label(c.or_true);
                    (
                        seq![SpecInstruction::JumpIfNotZero { condition: src1, label }],
                        seq![
                            SpecInstruction::JumpIfNotZero { condition: src2, label },
                            SpecInstruction::Copy { src: SpecValue::Constant(0), dest: var },
                            SpecInstruction::Jump { label: end },
                            SpecInstruction::Label(label),
                            SpecInstruction::Copy { src: SpecValue::Constant(1), dest: var },
                            SpecInstruction::Label(end),
                        ],
                    )
                };
                assert(writes_temporaries_in(mid, c.tmp, c2.tmp));
                assert(writes_temporaries_in(tail, c.tmp, c2.tmp));
                lemma_writes_concat(is1, mid, c.tmp, c2.tmp);
                lemma_writes_concat(is1 + mid, is2, c.tmp, c2.tmp);
                lemma_writes_concat(is1 + mid + is2, tail, c.tmp, c2.tmp);
                assert(is == is1 + mid + is2 + tail);
            } else {
                lemma_expression_temporaries(*a, c);
                let (is1, src1, c1) = lower_expression_with(*a, c);
                lemma_expression_temporaries(*b, c1);
                let (is2, src2, c3) = lower_expression_with(*b, c1);
                let dest = SpecValue::Var(tmp_name(c3.tmp));
                lemma_writes_widen(is1, c.tmp, c1.tmp, c.tmp, c2.tmp);
                lemma_writes_widen(is2, c1.tmp, c3.tmp, c.tmp, c2.tmp);
                let last = seq![
                    SpecInstruction::Binary {
                        binary_operator: binary_of(op).unwrap(),
                        src1,
                        src2,
                        dest,
                    },
                ];
                assert(is_temporary_in(dest, c.tmp, c2.tmp));
                assert(writes_temporaries_in(last, c.tmp, c2.tmp));
                lemma_writes_concat(is1, is2, c.tmp, c2.tmp);
                lemma_writes_concat(is1 + is2, last, c.tmp, c2.tmp);
                assert(is == is1 + is2 + last);
            }
        },
        _ => {},
    }
}

proof fn lemma_items_temporaries(items: Seq<SpecBlockItem>, c: Counters)
    ensures
        c.tmp <= lower_items_with(items, c).1.tmp,
        writes_temporaries_in(lower_items_with(items, c).0, c.tmp, lower_items_with(items, c).1.tmp),
    decreases items.len(),
{
    if items.len() > 0 {
        let (all, c2) = lower_items_with(items, c);
        match items[0] {
            SpecBlockItem::S(SpecStatement::Return(e)) => {
                lemma_expression_temporaries(e, c);
                let (is, v, c1) = lower_expression_with(e, c);
                lemma_items_temporaries(items.drop_first(), c1);
                let (rest, _) = lower_items_with(items.drop_first(), c1);
                let first = is.push(SpecInstruction::Ret(v));
                assert(first == is + seq![SpecInstruction::Ret(v)]);
                assert(writes_temporaries_in(seq![SpecInstruction::Ret(v)], c.tmp, c2.tmp));
                lemma_writes_widen(is, c.tmp, c1.tmp, c.tmp, c2.tmp);
                lemma_writes_concat(is, seq![SpecInstruction::Ret(v)], c.tmp, c2.tmp);
                lemma_writes_widen(rest, c1.tmp, c2.tmp, c.tmp, c2.tmp);
                lemma_writes_concat(first, rest, c.tmp, c2.tmp);
            },
            _ => {
                lemma_items_temporaries(items.drop_first(), c);
                assert(all == Seq::<SpecInstruction>::empty() + lower_items_with(items.drop_first(), c).0);
                assert(Seq::<SpecInstruction>::empty() + lower_items_with(items.drop_first(), c).0
                    =~= lower_items_with(items.drop_first(), c).0);
            },
        }
    }
}

/// Temporaries are numbered from `tmp.0`: every instruction of a lowered
/// program that writes a value writes a temporary `tmp.j` with `j` below
/// the number of operators in the program's returned expressions.
pub proof fn lemma_transform_temporaries(p: parse::SpecProgram)
    ensures
        writes_temporaries_in(
            spec_transform(p).function_def.body,
            0,
            items_operator_count(p.function_def.body),
        ),
{
    let zero = Counters { tmp: 0, and_false: 0, or_true: 0 };
    lemma_items_temporaries(p.function_def.body, zero);
    lemma_temporaries_per_operator(p.function_def.body, zero);
}

/// The lowering keeps no state from one program to the next: what
/// [`transform`] returns is a function of the program alone, lowered with
/// every counter from zero, so equal programs lower to equal results,
/// however many programs were lowered before, with temporaries numbered
/// from `tmp.0` and labels from `and_false0` and `or_true0`.
pub proof fn lemma_transform_fresh_counters(p1: parse::SpecProgram, p2: parse::SpecProgram)
    requires
        p1 == p2,
    ensures
        spec_transform(p1) == spec_transform(p2),
        spec_transform(p1).function_def.name == p1.function_def.name,
        spec_transform(p1).function_def.body == lower_items_with(
            p1.function_def.body,
            Counters { tmp: 0, and_false: 0, or_true: 0 },
        ).0,
{
}

// ---------------------------------------------------------------------
// Meaning of the operators
// ---------------------------------------------------------------------

/// C's quotient of `x` by `y`: rounded toward zero. (C leaves division by
/// zero undefined; it is 0 here.)
pub open spec fn c_quotient(x: int, y: int) -> int {
    if y == 0 {
        0
    } else {
        let q = (if x < 0 { -x } else { x }) / (if y < 0 { -y } else { y });
        if (x < 0) != (y < 0) {
            -q
        } else {
            q
        }
    }
}

/// C's remainder of `x` by `y`: it has the sign of `x`.
pub open spec fn c_remainder(x: int, y: int) -> int {
    x - y * c_quotient(x, y)
}

/// A truth value as C gives it: 1 or 0.
pub open spec fn truth(b: bool) -> int {
    if b {
        1
    } else {
        0
    }
}

/// What a source binary operator computes from two `int` operands, as an
/// exact integer, for the operators that compute from two values
/// (arithmetic, bitwise, shifts and comparisons; not `&&`, `||`, which
/// may skip their right operand, and not assignments).
pub open spec fn source_result(op: parse::BinaryOp, x: i32, y: i32) -> Option<int> {
    match op {
        parse::BinaryOp::Add => Some(x + y),
        parse::BinaryOp::Subtract => Some(x - y),
        parse::BinaryOp::Multiply => Some(x * y),
        parse::BinaryOp::Divide => Some(c_quotient(x as int, y as int)),
        parse::BinaryOp::Remainder => Some(c_remainder(x as int, y as int)),
        parse::BinaryOp::LeftShift => Some((x << y) as int),
        parse::BinaryOp::RightShift => Some((x >> y) as int),
        parse::BinaryOp::BitwiseAnd => Some((x & y) as int),
        parse::BinaryOp::BitwiseXor => Some((x ^ y) as int),
        parse::BinaryOp::BitwiseOr => Some((x | y) as int),
        parse::BinaryOp::EqualTo => Some(truth(x == y)),
        parse::BinaryOp::NotEqualTo => Some(truth(x != y)),
        parse::BinaryOp::LessThan => Some(truth(x < y)),
        parse::BinaryOp::GreaterThan => Some(truth(x > y)),
        parse::BinaryOp::LessThanOrEqualTo => Some(truth(x <= y)),
        parse::BinaryOp::GreaterThanOrEqualTo => Some(truth(x >= y)),
        _ => None,
    }
}

/// What an intermediate binary operator computes from two `int` operands,
/// as an exact integer.
pub open spec fn tacky_result(op: BinaryOp, x: i32, y: i32) -> int {
    match op {
        BinaryOp::Add => x + y,
        BinaryOp::Subtract => x - y,
        BinaryOp::Multiply => x * y,
        BinaryOp::Divide => c_quotient(x as int, y as int),
        BinaryOp::Remainder => c_remainder(x as int, y as int),
        BinaryOp::LeftShift => (x << y) as int,
        BinaryOp::RightShift => (x >> y) as int,
        BinaryOp::BitwiseAnd => (x & y) as int,
        BinaryOp::BitwiseXor => (x ^ y) as int,
        BinaryOp::BitwiseOr => (x | y) as int,
        BinaryOp::EqualTo => truth(x == y),
        BinaryOp::NotEqualTo => truth(x != y),
        BinaryOp::LessThan => truth(x < y),
        BinaryOp::GreaterThan => truth(x > y),
        BinaryOp::LessThanOrEqualTo => truth(x <= y),
        BinaryOp::GreaterThanOrEqualTo => truth(x >= y),
    }
}

/// What a source unary operator computes from an `int` operand, as an
/// exact integer: `~` flips every bit, `-` negates, `!` gives 1 for zero
/// and 0 otherwise.
pub open spec fn source_unary_result(op: parse::UnaryOp, x: i32) -> int {
    match op {
        parse::UnaryOp::Complement => (!x) as int,
        parse::UnaryOp::Negation => -x,
        parse::UnaryOp::Not => truth(x == 0),
    }
}

/// What an intermediate unary operator computes from an `int` operand.
pub open spec fn tacky_unary_result(op: UnaryOp, x: i32) -> int {
    match op {
        UnaryOp::Complement => (!x) as int,
        UnaryOp::Negation => -x,
        UnaryOp::Not => truth(x == 0),
    }
}

/// The lowering keeps the meaning of every unary operator.
pub proof fn lemma_lowered_unary_keeps_meaning(op: parse::UnaryOp, x: i32)
    ensures
        tacky_unary_result(unary_of(op), x) == source_unary_result(op, x),
{
}

/// The lowering keeps the meaning of every operator it lowers to a single
/// instruction: the source operators that compute from two values are
/// exactly those that get an intermediate operator, and that operator
/// computes what the source operator computes, on all operands.
pub proof fn lemma_lowered_operators_keep_meaning(op: parse::BinaryOp, x: i32, y: i32)
    ensures
        (binary_of(op) is Some) == (source_result(op, x, y) is Some),
        binary_of(op) matches Some(t) ==> source_result(op, x, y) == Some(tacky_result(t, x, y)),
{
}

/// Distinct source operators get distinct intermediate operators.
pub proof fn lemma_lowered_operators_distinct(a: parse::BinaryOp, b: parse::BinaryOp)
    ensures
        binary_of(a) is Some && binary_of(a) == binary_of(b) ==> a == b,
{
}

/// A source operation on two constants lowers to one instruction that
/// applies an operator with the source operator's meaning to the two
/// constants, in order, and stores into `tmp.n`.
pub proof fn lemma_lowered_binary_on_constants(op: parse::BinaryOp, a: u64, b: u64, c: Counters)
    requires
        binary_of(op) is Some,
    ensures
        ({
            let e = SpecExpression::Binary(
                op,
                Box::new(SpecExpression::Constant(a)),
                Box::new(SpecExpression::Constant(b)),
            );
            let (is, v, _) = lower_expression_with(e, c);
            &&& is.len() == 1
            &&& is[0] matches SpecInstruction::Binary { binary_operator: t, src1, src2, dest }
                && src1 == SpecValue::Constant(a) && src2 == SpecValue::Constant(b) && dest
                == SpecValue::Var(tmp_name(c.tmp)) && v == dest && forall|x: i32, y: i32|
                source_result(op, x, y) == Some(#[trigger] tacky_result(t, x, y))
        }),
{
    let t = binary_of(op).unwrap();
    assert(op != parse::BinaryOp::And && op != parse::BinaryOp::Or);
    let e = SpecExpression::Binary(
        op,
        Box::new(SpecExpression::Constant(a)),
        Box::new(SpecExpression::Constant(b)),
    );
    let dest = SpecValue::Var(tmp_name(c.tmp));
    let instr = SpecInstruction::Binary {
        binary_operator: t,
        src1: SpecValue::Constant(a),
        src2: SpecValue::Constant(b),
        dest,
    };
    assert(Seq::<SpecInstruction>::empty() + Seq::<SpecInstruction>::empty() + seq![instr]
        =~= seq![instr]);
    assert(lower_expression_with(SpecExpression::Constant(a), c) == (
        Seq::<SpecInstruction>::empty(),
        SpecValue::Constant(a),
        c,
    ));
    assert(lower_expression_with(SpecExpression::Constant(b), c) == (
        Seq::<SpecInstruction>::empty(),
        SpecValue::Constant(b),
        c,
    ));
    assert(lower_expression_with(e, c).0 == seq![instr]);
    assert forall|x: i32, y: i32| source_result(op, x, y) == Some(#[trigger] tacky_result(t, x, y)) by {
        lemma_lowered_operators_keep_meaning(op, x, y);
    }
}

/// What C's binary operator spelled `s` computes from two `int` operands,
/// for the operators that compute from two values.
pub open spec fn c_binary_spelling_meaning(s: Seq<char>, x: i32, y: i32) -> Option<int> {
    if s == seq!['+'] {
        Some(x + y)
    } else if s == seq!['-'] {
        Some(x - y)
    } else if s == seq!['*'] {
        Some(x * y)
    } else if s == seq!['/'] {
        Some(c_quotient(x as int, y as int))
    } else if s == seq!['%'] {
        Some(c_remainder(x as int, y as int))
    } else if s == seq!['<', '<'] {
        Some((x << y) as int)
    } else if s == seq!['>', '>'] {
        Some((x >> y) as int)
    } else if s == seq!['&'] {
        Some((x & y) as int)
    } else if s == seq!['^'] {
        Some((x ^ y) as int)
    } else if s == seq!['|'] {
        Some((x | y) as int)
    } else if s == seq!['=', '='] {
        Some(truth(x == y))
    } else if s == seq!['!', '='] {
        Some(truth(x != y))
    } else if s == seq!['<'] {
        Some(truth(x < y))
    } else if s == seq!['>'] {
        Some(truth(x > y))
    } else if s == seq!['<', '='] {
        Some(truth(x <= y))
    } else if s == seq!['>', '='] {
        Some(truth(x >= y))
    } else {
        None
    }
}

/// What C's unary operator spelled `s` computes from an `int` operand.
pub open spec fn c_unary_spelling_meaning(s: Seq<char>, x: i32) -> Option<int> {
    if s == seq!['~'] {
        Some((!x) as int)
    } else if s == seq!['-'] {
        Some(-x)
    } else if s == seq!['!'] {
        Some(truth(x == 0))
    } else {
        None
    }
}

/// Each of C's binary operators that compute from two values is read, from
/// its spelling, as one token that the parser takes for an operator that
/// computes what the C operator computes, on all operands.
pub proof fn lemma_binary_spelling(s: Seq<char>, x: i32, y: i32)
    requires
        c_binary_spelling_meaning(s, x, y) is Some,
    ensures
        spec_lex(s) is Ok,
        ({
            let ts = spec_lex(s)->Ok_0;
            &&& ts.len() == 1
            &&& parse::binary_op_of(ts[0]) is Some
            &&& source_result(parse::binary_op_of(ts[0])->Some_0, x, y)
                == c_binary_spelling_meaning(s, x, y)
        }),
{
    let t = if s == seq!['+'] {
        SpecToken::Addition
    } else if s == seq!['-'] {
        SpecToken::Negation
    } else if s == seq!['*'] {
        SpecToken::Multiplication
    } else if s == seq!['/'] {
        SpecToken::Division
    } else if s == seq!['%'] {
        SpecToken::Remainder
    } else if s == seq!['<', '<'] {
        SpecToken::LeftShift
    } else if s == seq!['>', '>'] {
        SpecToken::RightShift
    } else if s == seq!['&'] {
        SpecToken::BitwiseAnd
    } else if s == seq!['^'] {
        SpecToken::BitwiseXor
    } else if s == seq!['|'] {
        SpecToken::BitwiseOr
    } else if s == seq!['=', '='] {
        SpecToken::EqualTo
    } else if s == seq!['!', '='] {
        SpecToken::NotEqualTo
    } else if s == seq!['<'] {
        SpecToken::LessThan
    } else if s == seq!['>'] {
        SpecToken::GreaterThan
    } else if s == seq!['<', '='] {
        SpecToken::LessThanOrEqualTo
    } else {
        SpecToken::GreaterThanOrEqualTo
    };
    lemma_lex_single_operator(s, t);
}

/// Each of C's unary operators is read, from its spelling, as one token
/// that the parser takes for an operator that computes what the C
/// operator computes, and the lowering keeps that meaning.
pub proof fn lemma_unary_spelling(s: Seq<char>, x: i32)
    requires
        c_unary_spelling_meaning(s, x) is Some,
    ensures
        spec_lex(s) is Ok,
        ({
            let ts = spec_lex(s)->Ok_0;
            let op = parse::unary_op_of(ts[0])->Some_0;
            &&& ts.len() == 1
            &&& parse::unary_op_of(ts[0]) is Some
            &&& Some(source_unary_result(op, x)) == c_unary_spelling_meaning(s, x)
            &&& Some(tacky_unary_result(unary_of(op), x)) == c_unary_spelling_meaning(s, x)
        }),
{
    let t = if s == seq!['~'] {
        SpecToken::Complement
    } else if s == seq!['-'] {
        SpecToken::Negation
    } else {
        SpecToken::Not
    };
    lemma_lex_single_operator(s, t);
}

/// What C's compound assignment spelled `s` (`+=`, `-=`, ...) combines the
/// variable's value `x` and the right operand's `y` into, before storing.
pub open spec fn c_compound_spelling_meaning(s: Seq<char>, x: i32, y: i32) -> Option<int> {
    if s == seq!['+', '='] {
        Some(x + y)
    } else if s == seq!['-', '='] {
        Some(x - y)
    } else if s == seq!['*', '='] {
        Some(x * y)
    } else if s == seq!['/', '='] {
        Some(c_quotient(x as int, y as int))
    } else if s == seq!['%', '='] {
        Some(c_remainder(x as int, y as int))
    } else if s == seq!['<', '<', '='] {
        Some((x << y) as int)
    } else if s == seq!['>', '>', '='] {
        Some((x >> y) as int)
    } else if s == seq!['&', '='] {
        Some((x & y) as int)
    } else if s == seq!['^', '='] {
        Some((x ^ y) as int)
    } else if s == seq!['|', '='] {
        Some((x | y) as int)
    } else {
        None
    }
}

/// Each of C's compound assignments is read, from its spelling, as one
/// token that the parser takes for an assignment whose underlying
/// operator computes what the C compound assignment combines.
pub proof fn lemma_compound_spelling(s: Seq<char>, x: i32, y: i32)
    requires
        c_compound_spelling_meaning(s, x, y) is Some,
    ensures
        spec_lex(s) is Ok,
        ({
            let ts = spec_lex(s)->Ok_0;
            let op = parse::binary_op_of(ts[0])->Some_0;
            &&& ts.len() == 1
            &&& parse::binary_op_of(ts[0]) is Some
            &&& parse::compound_base(op) is Some
            &&& source_result(parse::compound_base(op)->Some_0, x, y)
                == c_compound_spelling_meaning(s, x, y)
        }),
{
    let t = if s == seq!['+', '='] {
        SpecToken::CmpdAddAssn
    } else if s == seq!['-', '='] {
        SpecToken::CmpdSubAssn
    } else if s == seq!['*', '='] {
        SpecToken::CmpdMulAssn
    } else if s == seq!['/', '='] {
        SpecToken::CmpdDivAssn
    } else if s == seq!['%', '='] {
        SpecToken::CmpdRemAssn
    } else if s == seq!['<', '<', '='] {
        SpecToken::CmpdLShiftAssn
    } else if s == seq!['>', '>', '='] {
        SpecToken::CmpdRShiftAssn
    } else if s == seq!['&', '='] {
        SpecToken::CmpdBitwiseAndAssn
    } else if s == seq!['^', '='] {
        SpecToken::CmpdBitwiseXorAssn
    } else {
        SpecToken::CmpdBitwiseOrAssn
    };
    lemma_lex_single_operator(s, t);
}

} // verus!
