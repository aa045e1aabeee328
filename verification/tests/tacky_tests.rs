use minicc::lex::lex;
use minicc::parse::{parse, Program as Ast};
use minicc::tacky::{can_transform, transform, BinaryOp, Instruction, UnaryOp, Value};

fn ast(text: &str) -> Ast {
    parse(&lex(text).unwrap()).unwrap()
}

fn tmp(n: usize) -> Value {
    Value::Var(format!("tmp.{}", n))
}

fn lower(ret: &str) -> Vec<Instruction> {
    let p = ast(&format!("int main(void) {{ return {}; }}", ret));
    assert!(can_transform(&p));
    transform(p).function_def.body
}

#[test]
fn constant_is_returned_directly() {
    let p = ast("int main(void) { return 2; }");
    let t = transform(p);
    assert_eq!(t.function_def.name, "main");
    assert_eq!(t.function_def.body, vec![Instruction::Ret(Value::Constant(2))]);
}

#[test]
fn unary_operators_use_fresh_temporaries() {
    assert_eq!(
        lower("-~2"),
        vec![
            Instruction::Unary { unary_operator: UnaryOp::Complement, src: Value::Constant(2), dest: tmp(0) },
            Instruction::Unary { unary_operator: UnaryOp::Negation, src: tmp(0), dest: tmp(1) },
            Instruction::Ret(tmp(1)),
        ]
    );
}

#[test]
fn binary_operators_compute_operands_first() {
    assert_eq!(
        lower("1 * 2 - 3 * 4"),
        vec![
            Instruction::Binary { binary_operator: BinaryOp::Multiply, src1: Value::Constant(1), src2: Value::Constant(2), dest: tmp(0) },
            Instruction::Binary { binary_operator: BinaryOp::Multiply, src1: Value::Constant(3), src2: Value::Constant(4), dest: tmp(1) },
            Instruction::Binary { binary_operator: BinaryOp::Subtract, src1: tmp(0), src2: tmp(1), dest: tmp(2) },
            Instruction::Ret(tmp(2)),
        ]
    );
}

#[test]
fn logical_and_short_circuits() {
    assert_eq!(
        lower("1 && 2"),
        vec![
            Instruction::JumpIfZero { condition: Value::Constant(1), label: "and_false0".to_string() },
            Instruction::JumpIfZero { condition: Value::Constant(2), label: "and_false0".to_string() },
            Instruction::Copy { src: Value::Constant(1), dest: tmp(0) },
            Instruction::Jump { label: "and_false_end0".to_string() },
            Instruction::Label("and_false0".to_string()),
            Instruction::Copy { src: Value::Constant(0), dest: tmp(0) },
            Instruction::Label("and_false_end0".to_string()),
            Instruction::Ret(tmp(0)),
        ]
    );
}

#[test]
fn logical_or_short_circuits() {
    assert_eq!(
        lower("!1 || 2"),
        vec![
            Instruction::Unary { unary_operator: UnaryOp::Not, src: Value::Constant(1), dest: tmp(1) },
            Instruction::JumpIfNotZero { condition: tmp(1), label: "or_true0".to_string() },
            Instruction::JumpIfNotZero { condition: Value::Constant(2), label: "or_true0".to_string() },
            Instruction::Copy { src: Value::Constant(0), dest: tmp(0) },
            Instruction::Jump { label: "or_true_end0".to_string() },
            Instruction::Label("or_true0".to_string()),
            Instruction::Copy { src: Value::Constant(1), dest: tmp(0) },
            Instruction::Label("or_true_end0".to_string()),
            Instruction::Ret(tmp(0)),
        ]
    );
}

#[test]
fn nested_logical_operators_number_their_labels() {
    let body = lower("(1 && 2) && (3 || 4)");
    let labels: Vec<String> = body
        .iter()
        .filter_map(|i| match i {
            Instruction::Label(l) => Some(l.clone()),
            _ => None,
        })
        .collect();
    assert_eq!(
        labels,
        vec!["and_false1", "and_false_end1", "or_true0", "or_true_end0", "and_false0", "and_false_end0"]
    );
}

#[test]
fn one_temporary_per_operator() {
    let body = lower("(1 + 2) * -3 < 4 && !5");
    let mut dests: Vec<String> = Vec::new();
    for i in &body {
        match i {
            Instruction::Unary { dest: Value::Var(d), .. }
            | Instruction::Binary { dest: Value::Var(d), .. }
            | Instruction::Copy { dest: Value::Var(d), .. } => {
                if !dests.contains(d) {
                    dests.push(d.clone());
                }
            }
            _ => {}
        }
    }
    assert_eq!(dests.len(), 6);
    for n in 0..6 {
        assert!(dests.contains(&format!("tmp.{}", n)));
    }
}

#[test]
fn several_returns_are_lowered_in_order() {
    let p = ast("int main(void) { return 1 + 2; return 3 + 4; }");
    let t = transform(p);
    assert_eq!(
        t.function_def.body,
        vec![
            Instruction::Binary { binary_operator: BinaryOp::Add, src1: Value::Constant(1), src2: Value::Constant(2), dest: tmp(0) },
            Instruction::Ret(tmp(0)),
            Instruction::Binary { binary_operator: BinaryOp::Add, src1: Value::Constant(3), src2: Value::Constant(4), dest: tmp(1) },
            Instruction::Ret(tmp(1)),
        ]
    );
}

#[test]
fn unsupported_programs_are_detected() {
    assert!(can_transform(&ast("int main(void) { return 1 + 2 * 3 || !4; }")));
    assert!(can_transform(&ast("int main(void) { }")));
    assert!(!can_transform(&ast("int main(void) { int a; return 1; }")));
    assert!(!can_transform(&ast("int main(void) { return a; }")));
    assert!(!can_transform(&ast("int main(void) { ; }")));
    assert!(!can_transform(&ast("int main(void) { 1 + 2; }")));
    assert!(!can_transform(&ast("int main(void) { return 1 + (a = 2); }")));
    assert!(!can_transform(&ast("int main(void) { return -a++; }")));
}

#[test]
fn unary_operator_conversion() {
    assert_eq!(UnaryOp::from(minicc::parse::UnaryOp::Not), UnaryOp::Not);
    assert_eq!(UnaryOp::from(minicc::parse::UnaryOp::Negation), UnaryOp::Negation);
    assert_eq!(UnaryOp::from(minicc::parse::UnaryOp::Complement), UnaryOp::Complement);
}

#[test]
fn each_transform_numbers_from_zero() {
    let text = "int main(void) { return 1 && (2 || -3); }";
    let first = transform(ast(text));
    let other = transform(ast("int main(void) { return ~1 + 2 * 3; }"));
    let second = transform(ast(text));
    assert_eq!(first, second);
    assert!(other.function_def.body.contains(&Instruction::Ret(tmp(2))));
    assert!(first.function_def.body.contains(&Instruction::Label("and_false0".to_string())));
    assert!(first.function_def.body.contains(&Instruction::Label("or_true0".to_string())));
    assert!(first
        .function_def
        .body
        .contains(&Instruction::Copy { src: Value::Constant(1), dest: tmp(0) }));
}
