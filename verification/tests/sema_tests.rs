use minicc::lex::lex;
use minicc::parse::{parse, BinaryOp, BlockItem, Declaration, Expression, Program, Statement};
use minicc::sema::{resolve, ResolveError};

fn program(text: &str) -> Program {
    parse(&lex(text).unwrap()).unwrap()
}

fn v(n: &str) -> Box<Expression> {
    Box::new(Expression::Var(n.to_string()))
}

#[test]
fn declarations_get_numbered_names() {
    let p = program("int main(void) { int a = 1; int b = a + 2; return b; }");
    let mut count = 0usize;
    let r = resolve(p, &mut count).unwrap();
    assert_eq!(count, 2);
    assert_eq!(r.function_def.name, "main");
    assert_eq!(
        r.function_def.body,
        vec![
            BlockItem::D(Declaration { name: "a.0".to_string(), init: Some(Expression::Constant(1)) }),
            BlockItem::D(Declaration {
                name: "b.1".to_string(),
                init: Some(Expression::Binary(BinaryOp::Add, v("a.0"), Box::new(Expression::Constant(2)))),
            }),
            BlockItem::S(Statement::Return(Expression::Var("b.1".to_string()))),
        ]
    );
}

#[test]
fn counter_starts_where_the_caller_says() {
    let p = program("int main(void) { int x; x = 5; return x; }");
    let mut count = 41usize;
    let r = resolve(p, &mut count).unwrap();
    assert_eq!(count, 42);
    assert_eq!(
        r.function_def.body,
        vec![
            BlockItem::D(Declaration { name: "x.41".to_string(), init: None }),
            BlockItem::S(Statement::Expression(Expression::Assignment(v("x.41"), Box::new(Expression::Constant(5))))),
            BlockItem::S(Statement::Return(Expression::Var("x.41".to_string()))),
        ]
    );
}

#[test]
fn initializer_may_name_its_own_variable() {
    let p = program("int main(void) { int a = a; return a; }");
    let mut count = 0usize;
    let r = resolve(p, &mut count).unwrap();
    assert_eq!(
        r.function_def.body[0],
        BlockItem::D(Declaration { name: "a.0".to_string(), init: Some(Expression::Var("a.0".to_string())) })
    );
}

#[test]
fn duplicate_declaration_is_rejected_and_counter_kept() {
    let p = program("int main(void) { int a; int a; }");
    let mut count = 7usize;
    assert_eq!(resolve(p, &mut count), Err(ResolveError::DuplicateDeclaration));
    assert_eq!(count, 7);
}

#[test]
fn undeclared_variable_is_rejected() {
    let p = program("int main(void) { return a; }");
    let mut count = 0usize;
    assert_eq!(resolve(p, &mut count), Err(ResolveError::UndeclaredVariable));
    let p = program("int main(void) { a = 1; int a; }");
    assert_eq!(resolve(p, &mut count), Err(ResolveError::UndeclaredVariable));
}

#[test]
fn only_variables_can_be_assigned() {
    let p = program("int main(void) { 1 = 2; }");
    let mut count = 0usize;
    assert_eq!(resolve(p, &mut count), Err(ResolveError::InvalidAssignmentTarget));
    let p = program("int main(void) { int a; a + 1 += 2; }");
    assert_eq!(resolve(p, &mut count), Err(ResolveError::InvalidAssignmentTarget));
}

#[test]
fn only_variables_can_be_incremented_or_decremented() {
    let mut count = 0usize;
    assert_eq!(
        resolve(program("int main(void) { return ++3; }"), &mut count),
        Err(ResolveError::InvalidIncrementTarget)
    );
    assert_eq!(
        resolve(program("int main(void) { return 3++; }"), &mut count),
        Err(ResolveError::InvalidIncrementTarget)
    );
    assert_eq!(
        resolve(program("int main(void) { return --3; }"), &mut count),
        Err(ResolveError::InvalidDecrementTarget)
    );
    assert_eq!(
        resolve(program("int main(void) { return (1)--; }"), &mut count),
        Err(ResolveError::InvalidDecrementTarget)
    );
    let p = program("int main(void) { int a; a++; --a; return a--; }");
    let r = resolve(p, &mut count).unwrap();
    assert_eq!(r.function_def.body[1], BlockItem::S(Statement::Expression(Expression::PostfixIncr(v("a.0")))));
    assert_eq!(r.function_def.body[2], BlockItem::S(Statement::Expression(Expression::PrefixDecr(v("a.0")))));
    assert_eq!(r.function_def.body[3], BlockItem::S(Statement::Return(Expression::PostfixDecr(v("a.0")))));
}

#[test]
fn first_resolve_error_in_order_wins() {
    let p = program("int main(void) { return b + (1 = 2); }");
    let mut count = 0usize;
    assert_eq!(resolve(p, &mut count), Err(ResolveError::UndeclaredVariable));
    let p = program("int main(void) { int b; return b + (1 = 2); }");
    assert_eq!(resolve(p, &mut count), Err(ResolveError::InvalidAssignmentTarget));
}

#[test]
fn statements_without_variables_are_unchanged() {
    let p = program("int main(void) { ; return 1 + 2; }");
    let mut count = 3usize;
    let r = resolve(p, &mut count).unwrap();
    assert_eq!(count, 3);
    assert_eq!(r, program("int main(void) { ; return 1 + 2; }"));
}

#[test]
fn resolved_declarations_have_distinct_names() {
    let p = program("int main(void) { int a; int b = 1; int c = b; return c; }");
    let mut count = 9usize;
    let r = resolve(p, &mut count).unwrap();
    let names: Vec<String> = r
        .function_def
        .body
        .iter()
        .filter_map(|i| match i {
            BlockItem::D(d) => Some(d.name.clone()),
            _ => None,
        })
        .collect();
    assert_eq!(names, vec!["a.9", "b.10", "c.11"]);
    assert_eq!(count, 12);
}
