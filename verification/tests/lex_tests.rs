use minicc::lex::{lex, same_token, LexError, Token};

fn ident(s: &str) -> Token {
    Token::Identifier(s.to_string())
}

#[test]
fn lexes_a_return_program() {
    let toks = lex("int main(void) {\n  return 2;\n}\n").unwrap();
    assert_eq!(
        toks,
        vec![
            Token::Int,
            ident("main"),
            Token::OpenParen,
            Token::Void,
            Token::CloseParen,
            Token::OpenBrace,
            Token::Return,
            Token::Constant(2),
            Token::Semicolon,
            Token::CloseBrace,
        ]
    );
}

#[test]
fn empty_and_blank_texts_have_no_tokens() {
    assert_eq!(lex(""), Ok(vec![]));
    assert_eq!(lex(" \t\r\n\u{a0}\u{3000}"), Ok(vec![]));
}

#[test]
fn words_are_keywords_or_identifiers() {
    assert_eq!(
        lex("int integer _x x_1 void voids return returned"),
        Ok(vec![
            Token::Int,
            ident("integer"),
            ident("_x"),
            ident("x_1"),
            Token::Void,
            ident("voids"),
            Token::Return,
            ident("returned"),
        ])
    );
}

#[test]
fn constants_read_all_digits() {
    assert_eq!(lex("007 42"), Ok(vec![Token::Constant(7), Token::Constant(42)]));
    assert_eq!(lex("18446744073709551615"), Ok(vec![Token::Constant(u64::MAX)]));
}

#[test]
fn constant_too_large_is_out_of_range() {
    assert_eq!(
        lex("18446744073709551616"),
        Err(LexError::ConstantOutOfRange("18446744073709551616".to_string()))
    );
}

#[test]
fn digit_followed_by_letter_is_invalid_constant() {
    assert_eq!(lex("1foo"), Err(LexError::InvalidConstant("1f".to_string())));
    assert_eq!(lex("return 12ab;"), Err(LexError::InvalidConstant("12a".to_string())));
}

#[test]
fn digit_followed_by_underscore_starts_an_identifier() {
    assert_eq!(lex("1_a"), Ok(vec![Token::Constant(1), ident("_a")]));
}

#[test]
fn operators_are_read_greedily() {
    assert_eq!(
        lex("<<= << <= < >>= >> >= > -- -= - ++ += + && &= & || |= | == = != ! ~ ^ ^= * *= / /= % %="),
        Ok(vec![
            Token::CmpdLShiftAssn,
            Token::LeftShift,
            Token::LessThanOrEqualTo,
            Token::LessThan,
            Token::CmpdRShiftAssn,
            Token::RightShift,
            Token::GreaterThanOrEqualTo,
            Token::GreaterThan,
            Token::Decrement,
            Token::CmpdSubAssn,
            Token::Negation,
            Token::Increment,
            Token::CmpdAddAssn,
            Token::Addition,
            Token::And,
            Token::CmpdBitwiseAndAssn,
            Token::BitwiseAnd,
            Token::Or,
            Token::CmpdBitwiseOrAssn,
            Token::BitwiseOr,
            Token::EqualTo,
            Token::Assignment,
            Token::NotEqualTo,
            Token::Not,
            Token::Complement,
            Token::BitwiseXor,
            Token::CmpdBitwiseXorAssn,
            Token::Multiplication,
            Token::CmpdMulAssn,
            Token::Division,
            Token::CmpdDivAssn,
            Token::Remainder,
            Token::CmpdRemAssn,
        ])
    );
}

#[test]
fn adjacent_operators_without_spaces() {
    assert_eq!(
        lex("a---b"),
        Ok(vec![ident("a"), Token::Decrement, Token::Negation, ident("b")])
    );
    assert_eq!(lex("<<<="), Ok(vec![Token::LeftShift, Token::LessThanOrEqualTo]));
}

#[test]
fn invalid_character_is_reported() {
    assert_eq!(lex("int @"), Err(LexError::InvalidCharacter('@')));
    assert_eq!(lex("é"), Err(LexError::InvalidCharacter('é')));
}

#[test]
fn first_error_wins() {
    assert_eq!(lex("$ 1a"), Err(LexError::InvalidCharacter('$')));
    assert_eq!(lex("1a $"), Err(LexError::InvalidConstant("1a".to_string())));
}

#[test]
fn tokens_never_span_white_space() {
    let a = "x+=1";
    let b = "--y";
    let joined = format!("{} {}", a, b);
    let mut expected = lex(a).unwrap();
    expected.extend(lex(b).unwrap());
    assert_eq!(lex(&joined).unwrap(), expected);
    let joined_tab = format!("{}\t{}", "a-", "-b");
    assert_eq!(
        lex(&joined_tab).unwrap(),
        vec![ident("a"), Token::Negation, Token::Negation, ident("b")]
    );
}

#[test]
fn same_token_compares_values() {
    assert!(same_token(&ident("a"), &ident("a")));
    assert!(!same_token(&ident("a"), &ident("b")));
    assert!(same_token(&Token::Constant(3), &Token::Constant(3)));
    assert!(!same_token(&Token::Constant(3), &Token::Constant(4)));
    assert!(same_token(&Token::Semicolon, &Token::Semicolon));
    assert!(!same_token(&Token::Semicolon, &Token::Int));
}

#[test]
fn runs_of_white_space_change_nothing() {
    let text = "int main(void) { return a<<=2; }";
    let expected = lex(text).unwrap();
    assert_eq!(lex(&format!(" \t\n{}", text)).unwrap(), expected);
    assert_eq!(lex(&format!("{}\r\n  \u{3000}", text)).unwrap(), expected);
    let widened = text.replace(' ', " \t \u{a0}\n ");
    assert_eq!(lex(&widened).unwrap(), expected);
    assert_eq!(lex("  1a  "), lex("1a"));
}
