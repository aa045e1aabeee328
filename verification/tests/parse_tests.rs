use minicc::lex::{lex, Token};
use minicc::parse::{
    parse, BinaryOp, BlockItem, Declaration, Expression, ParseContext, ParseError, Program,
    Statement, UnaryOp,
};

fn parse_text(text: &str) -> Result<Program, ParseError> {
    parse(&lex(text).unwrap())
}

fn body_of(text: &str) -> Vec<BlockItem> {
    parse_text(text).unwrap().function_def.body
}

fn returned(text: &str) -> Expression {
    let src = format!("int main(void) {{ return {}; }}", text);
    match body_of(&src).into_iter().next() {
        Some(BlockItem::S(Statement::Return(e))) => e,
        other => panic!("unexpected {:?}", other),
    }
}

fn c(v: u64) -> Box<Expression> {
    Box::new(Expression::Constant(v))
}

fn var(n: &str) -> Box<Expression> {
    Box::new(Expression::Var(n.to_string()))
}

#[test]
fn parses_return_constant() {
    let p = parse_text("int main(void) { return 2; }").unwrap();
    assert_eq!(p.function_def.name, "main");
    assert_eq!(
        p.function_def.body,
        vec![BlockItem::S(Statement::Return(Expression::Constant(2)))]
    );
}

#[test]
fn multiplication_binds_tighter_than_addition() {
    assert_eq!(
        returned("1 + 2 * 3"),
        Expression::Binary(BinaryOp::Add, c(1), Box::new(Expression::Binary(BinaryOp::Multiply, c(2), c(3))))
    );
}

#[test]
fn subtraction_groups_to_the_left() {
    assert_eq!(
        returned("1 - 2 - 3"),
        Expression::Binary(BinaryOp::Subtract, Box::new(Expression::Binary(BinaryOp::Subtract, c(1), c(2))), c(3))
    );
}

#[test]
fn parentheses_override_precedence() {
    assert_eq!(
        returned("(1 + 2) * 3"),
        Expression::Binary(BinaryOp::Multiply, Box::new(Expression::Binary(BinaryOp::Add, c(1), c(2))), c(3))
    );
}

#[test]
fn logical_and_binds_tighter_than_or() {
    assert_eq!(
        returned("1 || 2 && 3"),
        Expression::Binary(BinaryOp::Or, c(1), Box::new(Expression::Binary(BinaryOp::And, c(2), c(3))))
    );
}

#[test]
fn comparisons_and_bitwise_operators() {
    assert_eq!(
        returned("1 < 2 == 3 & 4 | 5 ^ 6"),
        Expression::Binary(
            BinaryOp::BitwiseOr,
            Box::new(Expression::Binary(
                BinaryOp::BitwiseAnd,
                Box::new(Expression::Binary(
                    BinaryOp::EqualTo,
                    Box::new(Expression::Binary(BinaryOp::LessThan, c(1), c(2))),
                    c(3)
                )),
                c(4)
            )),
            Box::new(Expression::Binary(BinaryOp::BitwiseXor, c(5), c(6)))
        )
    );
}

#[test]
fn unary_operators_apply_to_factors() {
    assert_eq!(
        returned("-~!1 << 2"),
        Expression::Binary(
            BinaryOp::LeftShift,
            Box::new(Expression::Unary(
                UnaryOp::Negation,
                Box::new(Expression::Unary(
                    UnaryOp::Complement,
                    Box::new(Expression::Unary(UnaryOp::Not, c(1)))
                ))
            )),
            c(2)
        )
    );
}

#[test]
fn assignment_groups_to_the_right() {
    let body = body_of("int main(void) { a = b = 3; }");
    assert_eq!(
        body,
        vec![BlockItem::S(Statement::Expression(Expression::Assignment(
            var("a"),
            Box::new(Expression::Assignment(var("b"), c(3)))
        )))]
    );
}

#[test]
fn compound_assignment_is_rewritten() {
    let body = body_of("int main(void) { a += 2 * 3; }");
    assert_eq!(
        body,
        vec![BlockItem::S(Statement::Expression(Expression::Assignment(
            var("a"),
            Box::new(Expression::Binary(
                BinaryOp::Add,
                var("a"),
                Box::new(Expression::Binary(BinaryOp::Multiply, c(2), c(3)))
            ))
        )))]
    );
}

#[test]
fn increments_and_decrements() {
    assert_eq!(returned("++a"), Expression::PrefixIncr(var("a")));
    assert_eq!(returned("--a"), Expression::PrefixDecr(var("a")));
    assert_eq!(returned("a++"), Expression::PostfixIncr(var("a")));
    assert_eq!(returned("a--"), Expression::PostfixDecr(var("a")));
    assert_eq!(
        returned("a++ + 1"),
        Expression::Binary(BinaryOp::Add, Box::new(Expression::PostfixIncr(var("a"))), c(1))
    );
}

#[test]
fn declarations_and_null_statements() {
    let body = body_of("int main(void) { int a; int b = 1; ; return a; }");
    assert_eq!(
        body,
        vec![
            BlockItem::D(Declaration { name: "a".to_string(), init: None }),
            BlockItem::D(Declaration { name: "b".to_string(), init: Some(Expression::Constant(1)) }),
            BlockItem::S(Statement::Null),
            BlockItem::S(Statement::Return(Expression::Var("a".to_string()))),
        ]
    );
}

#[test]
fn empty_body_is_accepted() {
    assert_eq!(body_of("int main(void) { }"), vec![]);
}

#[test]
fn missing_semicolon_is_reported() {
    assert_eq!(
        parse_text("int main(void) { return 2 }"),
        Err(ParseError::Expected {
            context: ParseContext::Statement,
            expected: Token::Semicolon,
            found: Some(Token::CloseBrace),
        })
    );
}

#[test]
fn tokens_after_the_function_are_reported() {
    assert_eq!(
        parse_text("int main(void) { return 2; } foo"),
        Err(ParseError::ExpectedEndOfInput(Token::Identifier("foo".to_string())))
    );
}

#[test]
fn missing_function_name_is_reported() {
    assert_eq!(
        parse_text("int (void) { return 2; }"),
        Err(ParseError::ExpectedFunctionName(Some(Token::OpenParen)))
    );
    assert_eq!(parse_text("int"), Err(ParseError::ExpectedFunctionName(None)));
}

#[test]
fn missing_void_is_reported() {
    assert_eq!(
        parse_text("int main() { return 2; }"),
        Err(ParseError::Expected {
            context: ParseContext::FunctionDefinition,
            expected: Token::Void,
            found: Some(Token::CloseParen),
        })
    );
}

#[test]
fn missing_close_brace_is_reported() {
    assert_eq!(
        parse_text("int main(void) { return 2;"),
        Err(ParseError::ExpectedExpression(None))
    );
}

#[test]
fn declaration_needs_a_name() {
    assert_eq!(
        parse_text("int main(void) { int 3; }"),
        Err(ParseError::ExpectedVariableName(Some(Token::Constant(3))))
    );
}

#[test]
fn declaration_needs_a_semicolon() {
    assert_eq!(
        parse_text("int main(void) { int a = 1 }"),
        Err(ParseError::Expected {
            context: ParseContext::Declaration,
            expected: Token::Semicolon,
            found: Some(Token::CloseBrace),
        })
    );
}

#[test]
fn unclosed_parenthesis_is_reported() {
    assert_eq!(
        parse_text("int main(void) { return (1; }"),
        Err(ParseError::Expected {
            context: ParseContext::Expression,
            expected: Token::CloseParen,
            found: Some(Token::Semicolon),
        })
    );
}

#[test]
fn expression_expected() {
    assert_eq!(
        parse_text("int main(void) { return ; }"),
        Err(ParseError::ExpectedExpression(Some(Token::Semicolon)))
    );
}

#[test]
fn precedence_values() {
    assert_eq!(BinaryOp::Assignment.precedence(), 1);
    assert_eq!(BinaryOp::CmpdAddAssn.precedence(), 1);
    assert_eq!(BinaryOp::Or.precedence(), 5);
    assert_eq!(BinaryOp::And.precedence(), 10);
    assert_eq!(BinaryOp::BitwiseOr.precedence(), 15);
    assert_eq!(BinaryOp::BitwiseXor.precedence(), 20);
    assert_eq!(BinaryOp::BitwiseAnd.precedence(), 25);
    assert_eq!(BinaryOp::NotEqualTo.precedence(), 30);
    assert_eq!(BinaryOp::GreaterThanOrEqualTo.precedence(), 35);
    assert_eq!(BinaryOp::RightShift.precedence(), 40);
    assert_eq!(BinaryOp::Subtract.precedence(), 45);
    assert_eq!(BinaryOp::Remainder.precedence(), 50);
}

#[test]
fn cloned_expression_is_equal() {
    let e = returned("-(a + 1) * b--");
    assert_eq!(e.clone(), e);
}

#[test]
fn any_token_after_a_program_is_rejected() {
    let tokens = lex("int main(void) { int a = 1; return a + 2; }").unwrap();
    assert!(parse(&tokens).is_ok());
    for extra in [Token::Semicolon, Token::CloseBrace, Token::Int, Token::Constant(0), Token::Addition] {
        let mut longer = tokens.clone();
        longer.push(extra.clone());
        assert_eq!(parse(&longer), Err(ParseError::ExpectedEndOfInput(extra)));
    }
}
