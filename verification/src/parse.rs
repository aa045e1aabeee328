//! The parser: turns tokens into a syntax tree, by recursive descent with
//! precedence climbing for binary operators.

use vstd::prelude::*;
use crate::lex::{Token, SpecToken, clone_token, same_token, tokens_view};

verus! {

// ---------------------------------------------------------------------
// The syntax tree
// ---------------------------------------------------------------------

/// A whole program: one function definition.
#[derive(Debug, PartialEq, Eq, Clone)]
pub struct Program {
    pub function_def: FunctionDef,
}

/// A function definition: its name and the items of its body.
#[derive(Debug, PartialEq, Eq, Clone)]
pub struct FunctionDef {
    pub name: String,
    pub body: Vec<BlockItem>,
}

/// An item of a block: a statement or a declaration.
#[derive(Debug, PartialEq, Eq, Clone)]
pub enum BlockItem {
    S(Statement),
    D(Declaration),
}

/// A statement.
#[derive(Debug, PartialEq, Eq, Clone)]
pub enum Statement {
    Return(Expression),
    Expression(Expression),
    Null,
}

/// A variable declaration with an optional initializer.
#[derive(Debug, PartialEq, Eq, Clone)]
pub struct Declaration {
    pub name: String,
    pub init: Option<Expression>,
}

/// An expression.
#[derive(Debug, PartialEq, Eq)]
pub enum Expression {
    Constant(u64),
    Var(String),
    Unary(UnaryOp, Box<Expression>),
    Binary(BinaryOp, Box<Expression>, Box<Expression>),
    Assignment(Box<Expression>, Box<Expression>),
    PrefixIncr(Box<Expression>),
    PrefixDecr(Box<Expression>),
    PostfixIncr(Box<Expression>),
    PostfixDecr(Box<Expression>),
}

/// A unary operator.
#[derive(Debug, Clone, Copy, PartialEq, Eq, Structural)]
pub enum UnaryOp {
    Complement,
    Negation,
    Not,
}

/// A binary operator, the assignment operators included.
#[derive(Debug, Clone, Copy, PartialEq, Eq, Structural)]
pub enum BinaryOp {
    Add,
    Subtract,
    Multiply,
    Divide,
    Remainder,
    LeftShift,
    RightShift,
    BitwiseAnd,
    BitwiseXor,
    BitwiseOr,
    And,
    Or,
    EqualTo,
    NotEqualTo,
    LessThan,
    GreaterThan,
    LessThanOrEqualTo,
    GreaterThanOrEqualTo,
    Assignment,
    CmpdAddAssn,
    CmpdSubAssn,
    CmpdMulAssn,
    CmpdDivAssn,
    CmpdRemAssn,
    CmpdLShiftAssn,
    CmpdRShiftAssn,
    CmpdBitwiseAndAssn,
    CmpdBitwiseXorAssn,
    CmpdBitwiseOrAssn,
}

/// The mathematical value of a [`Program`].
pub struct SpecProgram {
    pub function_def: SpecFunctionDef,
}

/// The mathematical value of a [`FunctionDef`].
pub struct SpecFunctionDef {
    pub name: Seq<char>,
    pub body: Seq<SpecBlockItem>,
}

/// The mathematical value of a [`BlockItem`].
pub enum SpecBlockItem {
    S(SpecStatement),
    D(SpecDeclaration),
}

/// The mathematical value of a [`Statement`].
pub enum SpecStatement {
    Return(SpecExpression),
    Expression(SpecExpression),
    Null,
}

/// The mathematical value of a [`Declaration`].
pub struct SpecDeclaration {
    pub name: Seq<char>,
    pub init: Option<SpecExpression>,
}

/// The mathematical value of an [`Expression`].
pub enum SpecExpression {
    Constant(u64),
    Var(Seq<char>),
    Unary(UnaryOp, Box<SpecExpression>),
    Binary(BinaryOp, Box<SpecExpression>, Box<SpecExpression>),
    Assignment(Box<SpecExpression>, Box<SpecExpression>),
    PrefixIncr(Box<SpecExpression>),
    PrefixDecr(Box<SpecExpression>),
    PostfixIncr(Box<SpecExpression>),
    PostfixDecr(Box<SpecExpression>),
}

impl View for Expression {
    type V = SpecExpression;

    open spec fn view(&self) -> SpecExpression
        decreases self,
    {
        match self {
            Expression::Constant(v) => SpecExpression::Constant(*v),
            Expression::Var(n) => SpecExpression::Var(n@),
            Expression::Unary(op, e) => SpecExpression::Unary(*op, Box::new((**e).view())),
            Expression::Binary(op, a, b) => SpecExpression::Binary(
                *op,
                Box::new((**a).view()),
                Box::new((**b).view()),
            ),
            Expression::Assignment(a, b) => SpecExpression::Assignment(
                Box::new((**a).view()),
                Box::new((**b).view()),
            ),
            Expression::PrefixIncr(e) => SpecExpression::PrefixIncr(Box::new((**e).view())),
            Expression::PrefixDecr(e) => SpecExpression::PrefixDecr(Box::new((**e).view())),
            Expression::PostfixIncr(e) => SpecExpression::PostfixIncr(Box::new((**e).view())),
            Expression::PostfixDecr(e) => SpecExpression::PostfixDecr(Box::new((**e).view())),
        }
    }
}

/// The value of an optional expression.
pub open spec fn opt_expression_view(e: Option<Expression>) -> Option<SpecExpression> {
    match e {
        Some(e) => Some(e@),
        None => None,
    }
}

impl View for Declaration {
    type V = SpecDeclaration;

    open spec fn view(&self) -> SpecDeclaration {
        SpecDeclaration { name: self.name@, init: opt_expression_view(self.init) }
    }
}

impl View for Statement {
    type V = SpecStatement;

    open spec fn view(&self) -> SpecStatement {
        match self {
            Statement::Return(e) => SpecStatement::Return(e@),
            Statement::Expression(e) => SpecStatement::Expression(e@),
            Statement::Null => SpecStatement::Null,
        }
    }
}

impl View for BlockItem {
    type V = SpecBlockItem;

    open spec fn view(&self) -> SpecBlockItem {
        match self {
            BlockItem::S(s) => SpecBlockItem::S(s@),
            BlockItem::D(d) => SpecBlockItem::D(d@),
        }
    }
}

/// The values of a sequence of block items.
pub open spec fn items_view(items: Seq<BlockItem>) -> Seq<SpecBlockItem> {
    items.map_values(|b: BlockItem| b@)
}

impl View for FunctionDef {
    type V = SpecFunctionDef;

    open spec fn view(&self) -> SpecFunctionDef {
        SpecFunctionDef { name: self.name@, body: items_view(self.body@) }
    }
}

impl View for Program {
    type V = SpecProgram;

    open spec fn view(&self) -> SpecProgram {
        SpecProgram { function_def: self.function_def@ }
    }
}

impl Clone for Expression {
    fn clone(&self) -> (res: Self)
        ensures
            res@ == self@,
    {
        clone_expression(self)
    }
}

/// Copies an expression; the copy has the same value.
pub fn clone_expression(e: &Expression) -> (res: Expression)
    ensures
        res@ == e@,
    decreases e,
{
    match e {
        Expression::Constant(v) => Expression::Constant(*v),
        Expression::Var(n) => Expression::Var(n.clone()),
        Expression::Unary(op, a) => Expression::Unary(*op, Box::new(clone_expression(a))),
        Expression::Binary(op, a, b) => Expression::Binary(
            *op,
            Box::new(clone_expression(a)),
            Box::new(clone_expression(b)),
        ),
        Expression::Assignment(a, b) => Expression::Assignment(
            Box::new(clone_expression(a)),
            Box::new(clone_expression(b)),
        ),
        Expression::PrefixIncr(a) => Expression::PrefixIncr(Box::new(clone_expression(a))),
        Expression::PrefixDecr(a) => Expression::PrefixDecr(Box::new(clone_expression(a))),
        Expression::PostfixIncr(a) => Expression::PostfixIncr(Box::new(clone_expression(a))),
        Expression::PostfixDecr(a) => Expression::PostfixDecr(Box::new(clone_expression(a))),
    }
}


// ---------------------------------------------------------------------
// Errors
// ---------------------------------------------------------------------

/// The construct that was being read when an expected token was missing.
#[derive(Debug, Clone, Copy, PartialEq, Eq, Structural)]
pub enum ParseContext {
    FunctionDefinition,
    Statement,
    DeclarationType,
    Declaration,
    Expression,
}

/// Why a sequence of tokens is not a program.
#[derive(Debug, PartialEq, Eq, Clone)]
pub enum ParseError {
    /// A particular token was required; `found` is what stood there
    /// (`None`: the end of the input).
    Expected { context: ParseContext, expected: Token, found: Option<Token> },
    /// A function definition lacks its name.
    ExpectedFunctionName(Option<Token>),
    /// A declaration lacks the name of its variable.
    ExpectedVariableName(Option<Token>),
    /// An expression was required.
    ExpectedExpression(Option<Token>),
    /// Tokens follow the function definition.
    ExpectedEndOfInput(Token),
}

/// The mathematical value of a [`ParseError`].
pub enum SpecParseError {
    Expected { context: ParseContext, expected: SpecToken, found: Option<SpecToken> },
    ExpectedFunctionName(Option<SpecToken>),
    ExpectedVariableName(Option<SpecToken>),
    ExpectedExpression(Option<SpecToken>),
    ExpectedEndOfInput(SpecToken),
}

/// The value of an optional token.
pub open spec fn opt_token_view(t: Option<Token>) -> Option<SpecToken> {
    match t {
        Some(t) => Some(t@),
        None => None,
    }
}

impl View for ParseError {
    type V = SpecParseError;

    open spec fn view(&self) -> SpecParseError {
        match self {
            ParseError::Expected { context, expected, found } => SpecParseError::Expected {
                context: *context,
                expected: expected@,
                found: opt_token_view(*found),
            },
            ParseError::ExpectedFunctionName(t) => SpecParseError::ExpectedFunctionName(
                opt_token_view(*t),
            ),
            ParseError::ExpectedVariableName(t) => SpecParseError::ExpectedVariableName(
                opt_token_view(*t),
            ),
            ParseError::ExpectedExpression(t) => SpecParseError::ExpectedExpression(
                opt_token_view(*t),
            ),
            ParseError::ExpectedEndOfInput(t) => SpecParseError::ExpectedEndOfInput(t@),
        }
    }
}

// ---------------------------------------------------------------------
// Operators
// ---------------------------------------------------------------------

/// The binding strength of a binary operator: assignments bind loosest,
/// then `||`, `&&`, `|`, `^`, `&`, equality, relations, shifts, additive
/// and multiplicative operators.
pub open spec fn precedence_of(op: BinaryOp) -> u8 {
    match op {
        BinaryOp::Assignment | BinaryOp::CmpdAddAssn | BinaryOp::CmpdSubAssn
        | BinaryOp::CmpdMulAssn | BinaryOp::CmpdDivAssn | BinaryOp::CmpdRemAssn
        | BinaryOp::CmpdLShiftAssn | BinaryOp::CmpdRShiftAssn | BinaryOp::CmpdBitwiseAndAssn
        | BinaryOp::CmpdBitwiseXorAssn | BinaryOp::CmpdBitwiseOrAssn => 1,
        BinaryOp::Or => 5,
        BinaryOp::And => 10,
        BinaryOp::BitwiseOr => 15,
        BinaryOp::BitwiseXor => 20,
        BinaryOp::BitwiseAnd => 25,
        BinaryOp::EqualTo | BinaryOp::NotEqualTo => 30,
        BinaryOp::LessThan | BinaryOp::GreaterThan | BinaryOp::LessThanOrEqualTo
        | BinaryOp::GreaterThanOrEqualTo => 35,
        BinaryOp::LeftShift | BinaryOp::RightShift => 40,
        BinaryOp::Add | BinaryOp::Subtract => 45,
        BinaryOp::Multiply | BinaryOp::Divide | BinaryOp::Remainder => 50,
    }
}

impl BinaryOp {
    /// The binding strength of this operator.
    pub fn precedence(&self) -> (p: u8)
        ensures
            p == precedence_of(*self),
    {
        match self {
            BinaryOp::Assignment | BinaryOp::CmpdAddAssn | BinaryOp::CmpdSubAssn
            | BinaryOp::CmpdMulAssn | BinaryOp::CmpdDivAssn | BinaryOp::CmpdRemAssn
            | BinaryOp::CmpdLShiftAssn | BinaryOp::CmpdRShiftAssn
            | BinaryOp::CmpdBitwiseAndAssn | BinaryOp::CmpdBitwiseXorAssn
            | BinaryOp::CmpdBitwiseOrAssn => 1,
            BinaryOp::Or => 5,
            BinaryOp::And => 10,
            BinaryOp::BitwiseOr => 15,
            BinaryOp::BitwiseXor => 20,
            BinaryOp::BitwiseAnd => 25,
            BinaryOp::EqualTo | BinaryOp::NotEqualTo => 30,
            BinaryOp::LessThan | BinaryOp::GreaterThan | BinaryOp::LessThanOrEqualTo
            | BinaryOp::GreaterThanOrEqualTo => 35,
            BinaryOp::LeftShift | BinaryOp::RightShift => 40,
            BinaryOp::Add | BinaryOp::Subtract => 45,
            BinaryOp::Multiply | BinaryOp::Divide | BinaryOp::Remainder => 50,
        }
    }
}

/// The binary operator that a token stands for, if any (`-` is subtraction).
pub open spec fn binary_op_of(t: SpecToken) -> Option<BinaryOp> {
    match t {
        SpecToken::Addition => Some(BinaryOp::Add),
        SpecToken::Negation => Some(BinaryOp::Subtract),
        SpecToken::Multiplication => Some(BinaryOp::Multiply),
        SpecToken::Division => Some(BinaryOp::Divide),
        SpecToken::Remainder => Some(BinaryOp::Remainder),
        SpecToken::LeftShift => Some(BinaryOp::LeftShift),
        SpecToken::RightShift => Some(BinaryOp::RightShift),
        SpecToken::BitwiseAnd => Some(BinaryOp::BitwiseAnd),
        SpecToken::BitwiseXor => Some(BinaryOp::BitwiseXor),
        SpecToken::BitwiseOr => Some(BinaryOp::BitwiseOr),
        SpecToken::And => Some(BinaryOp::And),
        SpecToken::Or => Some(BinaryOp::Or),
        SpecToken::EqualTo => Some(BinaryOp::EqualTo),
        SpecToken::NotEqualTo => Some(BinaryOp::NotEqualTo),
        SpecToken::LessThan => Some(BinaryOp::LessThan),
        SpecToken::GreaterThan => Some(BinaryOp::GreaterThan),
        SpecToken::LessThanOrEqualTo => Some(BinaryOp::LessThanOrEqualTo),
        SpecToken::GreaterThanOrEqualTo => Some(BinaryOp::GreaterThanOrEqualTo),
        SpecToken::Assignment => Some(BinaryOp::Assignment),
        SpecToken::CmpdAddAssn => Some(BinaryOp::CmpdAddAssn),
        SpecToken::CmpdSubAssn => Some(BinaryOp::CmpdSubAssn),
        SpecToken::CmpdMulAssn => Some(BinaryOp::CmpdMulAssn),
        SpecToken::CmpdDivAssn => Some(BinaryOp::CmpdDivAssn),
        SpecToken::CmpdRemAssn => Some(BinaryOp::CmpdRemAssn),
        SpecToken::CmpdLShiftAssn => Some(BinaryOp::CmpdLShiftAssn),
        SpecToken::CmpdRShiftAssn => Some(BinaryOp::CmpdRShiftAssn),
        SpecToken::CmpdBitwiseAndAssn => Some(BinaryOp::CmpdBitwiseAndAssn),
        SpecToken::CmpdBitwiseXorAssn => Some(BinaryOp::CmpdBitwiseXorAssn),
        SpecToken::CmpdBitwiseOrAssn => Some(BinaryOp::CmpdBitwiseOrAssn),
        _ => None,
    }
}

/// The unary operator that a token stands for, if any.
pub open spec fn unary_op_of(t: SpecToken) -> Option<UnaryOp> {
    match t {
        SpecToken::Complement => Some(UnaryOp::Complement),
        SpecToken::Negation => Some(UnaryOp::Negation),
        SpecToken::Not => Some(UnaryOp::Not),
        _ => None,
    }
}

/// The operator that a compound assignment applies (`+=` applies `+`).
pub open spec fn compound_base(op: BinaryOp) -> Option<BinaryOp> {
    match op {
        BinaryOp::CmpdAddAssn => Some(BinaryOp::Add),
        BinaryOp::CmpdSubAssn => Some(BinaryOp::Subtract),
        BinaryOp::CmpdMulAssn => Some(BinaryOp::Multiply),
        BinaryOp::CmpdDivAssn => Some(BinaryOp::Divide),
        BinaryOp::CmpdRemAssn => Some(BinaryOp::Remainder),
        BinaryOp::CmpdLShiftAssn => Some(BinaryOp::LeftShift),
        BinaryOp::CmpdRShiftAssn => Some(BinaryOp::RightShift),
        BinaryOp::CmpdBitwiseAndAssn => Some(BinaryOp::BitwiseAnd),
        BinaryOp::CmpdBitwiseXorAssn => Some(BinaryOp::BitwiseXor),
        BinaryOp::CmpdBitwiseOrAssn => Some(BinaryOp::BitwiseOr),
        _ => None,
    }
}

// ---------------------------------------------------------------------
// The grammar
// ---------------------------------------------------------------------

/// The token at `pos`, if there is one.
pub open spec fn token_at(t: Seq<SpecToken>, pos: nat) -> Option<SpecToken> {
    if pos < t.len() {
        Some(t[pos as int])
    } else {
        None
    }
}

/// Reads the token `expected` at `pos`; the position after it.
pub open spec fn expect_at(t: Seq<SpecToken>, pos: nat, expected: SpecToken, context: ParseContext) -> Result<
    nat,
    SpecParseError,
> {
    match token_at(t, pos) {
        Some(tok) => if tok == expected {
            Ok(pos + 1)
        } else {
            Err(SpecParseError::Expected { context, expected, found: Some(tok) })
        },
        None => Err(SpecParseError::Expected { context, expected, found: None }),
    }
}

/// A primary factor at `pos`: a constant, a variable, a unary operator or
/// prefix `++`/`--` applied to a factor, or a parenthesized expression.
pub open spec fn parse_primary_at(t: Seq<SpecToken>, pos: nat) -> Result<
    (SpecExpression, nat),
    SpecParseError,
>
    decreases t.len() - pos, 0int,
{
    if pos >= t.len() {
        Err(SpecParseError::ExpectedExpression(None))
    } else {
        let tok = t[pos as int];
        match tok {
            SpecToken::Constant(v) => Ok((SpecExpression::Constant(v), pos + 1)),
            SpecToken::Identifier(n) => Ok((SpecExpression::Var(n), pos + 1)),
            SpecToken::Complement | SpecToken::Negation | SpecToken::Not => match parse_factor_at(
                t,
                pos + 1,
            ) {
                Ok((e, p)) => Ok(
                    (SpecExpression::Unary(unary_op_of(tok).unwrap(), Box::new(e)), p),
                ),
                Err(err) => Err(err),
            },
            SpecToken::Increment => match parse_factor_at(t, pos + 1) {
                Ok((e, p)) => Ok((SpecExpression::PrefixIncr(Box::new(e)), p)),
                Err(err) => Err(err),
            },
            SpecToken::Decrement => match parse_factor_at(t, pos + 1) {
                Ok((e, p)) => Ok((SpecExpression::PrefixDecr(Box::new(e)), p)),
                Err(err) => Err(err),
            },
            SpecToken::OpenParen => match parse_expression_at(t, pos + 1, 0) {
                Ok((e, p)) => match expect_at(t, p, SpecToken::CloseParen, ParseContext::Expression) {
                    Ok(q) => Ok((e, q)),
                    Err(err) => Err(err),
                },
                Err(err) => Err(err),
            },
            _ => Err(SpecParseError::ExpectedExpression(Some(tok))),
        }
    }
}

/// A factor at `pos`: a primary factor, optionally followed by one
/// postfix `++` or `--`.
pub open spec fn parse_factor_at(t: Seq<SpecToken>, pos: nat) -> Result<
    (SpecExpression, nat),
    SpecParseError,
>
    decreases t.len() - pos, 1int,
{
    match parse_primary_at(t, pos) {
        Ok((e, p)) => match token_at(t, p) {
            Some(SpecToken::Increment) => Ok((SpecExpression::PostfixIncr(Box::new(e)), p + 1)),
            Some(SpecToken::Decrement) => Ok((SpecExpression::PostfixDecr(Box::new(e)), p + 1)),
            _ => Ok((e, p)),
        },
        Err(err) => Err(err),
    }
}

/// An expression at `pos` whose binary operators all bind at least as
/// tightly as `min_prec`. (A factor always consumes a token, see
/// [`lemma_expression_consumes`]; the check of the position after it only
/// makes the recursion evidently terminate.)
pub open spec fn parse_expression_at(t: Seq<SpecToken>, pos: nat, min_prec: u8) -> Result<
    (SpecExpression, nat),
    SpecParseError,
>
    decreases t.len() - pos, 2int,
{
    match parse_factor_at(t, pos) {
        Ok((left, p)) => if pos < p <= t.len() {
            parse_operators_at(t, left, p, min_prec)
        } else {
            Err(SpecParseError::ExpectedExpression(None))
        },
        Err(err) => Err(err),
    }
}

/// Extends `left`, read up to `pos`, with binary operators that bind at
/// least as tightly as `min_prec`: `a op b op c` groups to the left,
/// assignments group to the right, and `a op= b` becomes
/// `a = a op b`. (An expression always consumes a token, see
/// [`lemma_expression_consumes`]; the position check only makes the
/// recursion evidently terminate.)
pub open spec fn parse_operators_at(
    t: Seq<SpecToken>,
    left: SpecExpression,
    pos: nat,
    min_prec: u8,
) -> Result<(SpecExpression, nat), SpecParseError>
    decreases t.len() - pos, 3int,
{
    if pos >= t.len() {
        Ok((left, pos))
    } else {
        match binary_op_of(t[pos as int]) {
            Some(op) => if precedence_of(op) >= min_prec {
                let right_prec: u8 = if compound_base(op) is None && op != BinaryOp::Assignment {
                    (precedence_of(op) + 1) as u8
                } else {
                    precedence_of(op)
                };
                match parse_expression_at(t, pos + 1, right_prec) {
                    Ok((right, p)) => {
                        let combined = match compound_base(op) {
                            Some(base) => SpecExpression::Assignment(
                                Box::new(left),
                                Box::new(SpecExpression::Binary(base, Box::new(left), Box::new(right))),
                            ),
                            None => if op == BinaryOp::Assignment {
                                SpecExpression::Assignment(Box::new(left), Box::new(right))
                            } else {
                                SpecExpression::Binary(op, Box::new(left), Box::new(right))
                            },
                        };
                        if pos < p <= t.len() {
                            parse_operators_at(t, combined, p, min_prec)
                        } else {
                            Err(SpecParseError::ExpectedExpression(None))
                        }
                    },
                    Err(err) => Err(err),
                }
            } else {
                Ok((left, pos))
            },
            None => Ok((left, pos)),
        }
    }
}

/// Reading an expression consumes tokens and stays within the input: a
/// successful primary factor, factor or expression read at `pos` ends
/// after `pos` and at most at the end, and operators read after an operand
/// end no earlier than they start. So the position checks in the grammar
/// never fail.
pub proof fn lemma_expression_consumes(t: Seq<SpecToken>, pos: nat, min_prec: u8)
    ensures
        parse_primary_at(t, pos) matches Ok((_, p)) ==> pos < p <= t.len(),
        parse_factor_at(t, pos) matches Ok((_, p)) ==> pos < p <= t.len(),
        parse_expression_at(t, pos, min_prec) matches Ok((_, p)) ==> pos < p <= t.len(),
{
    if pos <= t.len() {
        lemma_factor_consumes(t, pos);
        lemma_expression_consumes_below(t, pos);
        assert(parse_expression_at(t, pos, min_prec) matches Ok((_, p)) ==> pos < p <= t.len());
    }
}

proof fn lemma_factor_consumes(t: Seq<SpecToken>, pos: nat)
    requires
        pos <= t.len(),
    ensures
        parse_primary_at(t, pos) matches Ok((_, p)) ==> pos < p <= t.len(),
        parse_factor_at(t, pos) matches Ok((_, p)) ==> pos < p <= t.len(),
    decreases t.len() - pos, 1int,
{
    if pos < t.len() {
        lemma_factor_consumes(t, pos + 1);
        lemma_expression_consumes_below(t, pos + 1);
        let tok = t[pos as int];
        if tok == SpecToken::OpenParen {
            assert(parse_expression_at(t, pos + 1, 0) matches Ok((_, p)) ==> pos + 1 < p <= t.len());
        }
        assert(parse_primary_at(t, pos) matches Ok((_, p)) ==> pos < p <= t.len());
    }
}

proof fn lemma_expression_consumes_below(t: Seq<SpecToken>, pos: nat)
    requires
        pos <= t.len(),
    ensures
        forall|m: u8|
            #[trigger] parse_expression_at(t, pos, m) matches Ok((_, p)) ==> pos < p <= t.len(),
    decreases t.len() - pos, 2int,
{
    assert forall|m: u8|
        (#[trigger] parse_expression_at(t, pos, m) matches Ok((_, p)) ==> pos < p <= t.len()) by {
        lemma_factor_consumes(t, pos);
        if let Ok((left, p)) = parse_factor_at(t, pos) {
            if pos < p <= t.len() {
                lemma_operators_stay(t, left, p, m);
            }
        }
    }
}

proof fn lemma_operators_stay(t: Seq<SpecToken>, left: SpecExpression, pos: nat, min_prec: u8)
    requires
        0 < pos <= t.len(),
    ensures
        parse_operators_at(t, left, pos, min_prec) matches Ok((_, p)) ==> pos <= p <= t.len(),
    decreases t.len() - pos, 3int,
{
    if pos < t.len() {
        lemma_expression_consumes_below(t, pos + 1);
        if let Some(op) = binary_op_of(t[pos as int]) {
            if precedence_of(op) >= min_prec {
                let right_prec: u8 = if compound_base(op) is None && op != BinaryOp::Assignment {
                    (precedence_of(op) + 1) as u8
                } else {
                    precedence_of(op)
                };
                if let Ok((right, p)) = parse_expression_at(t, pos + 1, right_prec) {
                    let combined = match compound_base(op) {
                        Some(base) => SpecExpression::Assignment(
                            Box::new(left),
                            Box::new(SpecExpression::Binary(base, Box::new(left), Box::new(right))),
                        ),
                        None => if op == BinaryOp::Assignment {
                            SpecExpression::Assignment(Box::new(left), Box::new(right))
                        } else {
                            SpecExpression::Binary(op, Box::new(left), Box::new(right))
                        },
                    };
                    if pos < p <= t.len() {
                        lemma_operators_stay(t, combined, p, min_prec);
                    }
                }
            }
        }
    }
}

/// A statement at `pos`: `return e;`, `;`, or `e;`.
pub open spec fn parse_statement_at(t: Seq<SpecToken>, pos: nat) -> Result<
    (SpecStatement, nat),
    SpecParseError,
> {
    match token_at(t, pos) {
        Some(SpecToken::Return) => match parse_expression_at(t, pos + 1, 0) {
            Ok((e, p)) => match expect_at(t, p, SpecToken::Semicolon, ParseContext::Statement) {
                Ok(q) => Ok((SpecStatement::Return(e), q)),
                Err(err) => Err(err),
            },
            Err(err) => Err(err),
        },
        Some(SpecToken::Semicolon) => Ok((SpecStatement::Null, pos + 1)),
        _ => match parse_expression_at(t, pos, 0) {
            Ok((e, p)) => match expect_at(t, p, SpecToken::Semicolon, ParseContext::Statement) {
                Ok(q) => Ok((SpecStatement::Expression(e), q)),
                Err(err) => Err(err),
            },
            Err(err) => Err(err),
        },
    }
}

/// A declaration at `pos`: `int name;` or `int name = e;`.
pub open spec fn parse_declaration_at(t: Seq<SpecToken>, pos: nat) -> Result<
    (SpecDeclaration, nat),
    SpecParseError,
> {
    match expect_at(t, pos, SpecToken::Int, ParseContext::DeclarationType) {
        Ok(p) => match token_at(t, p) {
            Some(SpecToken::Identifier(name)) => {
                let init = match token_at(t, p + 1) {
                    Some(SpecToken::Assignment) => match parse_expression_at(t, p + 2, 0) {
                        Ok((e, q)) => Ok((Some(e), q)),
                        Err(err) => Err(err),
                    },
                    _ => Ok((None, p + 1)),
                };
                match init {
                    Ok((init, q)) => match expect_at(
                        t,
                        q,
                        SpecToken::Semicolon,
                        ParseContext::Declaration,
                    ) {
                        Ok(r) => Ok((SpecDeclaration { name, init }, r)),
                        Err(err) => Err(err),
                    },
                    Err(err) => Err(err),
                }
            },
            other => Err(SpecParseError::ExpectedVariableName(other)),
        },
        Err(err) => Err(err),
    }
}

/// A block item at `pos`: a declaration when it starts with `int`, else a
/// statement.
pub open spec fn parse_block_item_at(t: Seq<SpecToken>, pos: nat) -> Result<
    (SpecBlockItem, nat),
    SpecParseError,
> {
    match token_at(t, pos) {
        Some(SpecToken::Int) => match parse_declaration_at(t, pos) {
            Ok((d, p)) => Ok((SpecBlockItem::D(d), p)),
            Err(err) => Err(err),
        },
        _ => match parse_statement_at(t, pos) {
            Ok((s, p)) => Ok((SpecBlockItem::S(s), p)),
            Err(err) => Err(err),
        },
    }
}

/// Reading a block item consumes tokens and stays within the input, so the
/// position check in [`parse_items_at`] never fails.
pub proof fn lemma_block_item_consumes(t: Seq<SpecToken>, pos: nat)
    ensures
        parse_block_item_at(t, pos) matches Ok((_, p)) ==> pos < p <= t.len(),
{
    lemma_expression_consumes(t, pos, 0);
    lemma_expression_consumes(t, pos + 1, 0);
    lemma_expression_consumes(t, pos + 3, 0);
}

/// The block items from `pos` up to the first `}` that stands where an
/// item would begin. (An item always consumes a token, see
/// [`lemma_block_item_consumes`]; the check of the position after it only
/// makes the recursion evidently terminate.)
pub open spec fn parse_items_at(t: Seq<SpecToken>, pos: nat) -> Result<
    (Seq<SpecBlockItem>, nat),
    SpecParseError,
>
    decreases t.len() - pos,
{
    if token_at(t, pos) == Some(SpecToken::CloseBrace) {
        Ok((Seq::empty(), pos))
    } else {
        match parse_block_item_at(t, pos) {
            Ok((item, p)) => if pos < p <= t.len() {
                match parse_items_at(t, p) {
                    Ok((rest, q)) => Ok((seq![item] + rest, q)),
                    Err(err) => Err(err),
                }
            } else {
                Err(SpecParseError::ExpectedExpression(None))
            },
            Err(err) => Err(err),
        }
    }
}

/// A function definition at `pos`: `int name ( void ) { items }`.
pub open spec fn parse_function_def_at(t: Seq<SpecToken>, pos: nat) -> Result<
    (SpecFunctionDef, nat),
    SpecParseError,
> {
    let ctx = ParseContext::FunctionDefinition;
    match expect_at(t, pos, SpecToken::Int, ctx) {
        Ok(p) => match token_at(t, p) {
            Some(SpecToken::Identifier(name)) => match expect_at(t, p + 1, SpecToken::OpenParen, ctx) {
                Ok(p2) => match expect_at(t, p2, SpecToken::Void, ctx) {
                    Ok(p3) => match expect_at(t, p3, SpecToken::CloseParen, ctx) {
                        Ok(p4) => match expect_at(t, p4, SpecToken::OpenBrace, ctx) {
                            Ok(p5) => match parse_items_at(t, p5) {
                                Ok((body, p6)) => match expect_at(t, p6, SpecToken::CloseBrace, ctx) {
                                    Ok(p7) => Ok((SpecFunctionDef { name, body }, p7)),
                                    Err(err) => Err(err),
                                },
                                Err(err) => Err(err),
                            },
                            Err(err) => Err(err),
                        },
                        Err(err) => Err(err),
                    },
                    Err(err) => Err(err),
                },
                Err(err) => Err(err),
            },
            other => Err(SpecParseError::ExpectedFunctionName(other)),
        },
        Err(err) => Err(err),
    }
}

/// The program that the tokens `t` spell: one function definition and
/// nothing after it.
pub open spec fn spec_parse(t: Seq<SpecToken>) -> Result<SpecProgram, SpecParseError> {
    match parse_function_def_at(t, 0) {
        Ok((f, p)) => if p < t.len() {
            Err(SpecParseError::ExpectedEndOfInput(t[p as int]))
        } else {
            Ok(SpecProgram { function_def: f })
        },
        Err(err) => Err(err),
    }
}


// ---------------------------------------------------------------------
// Grouping of arithmetic operators
// ---------------------------------------------------------------------

/// The additive operator that a token spells: `+` or `-`.
pub open spec fn additive_operator(t: SpecToken) -> Option<BinaryOp> {
    match t {
        SpecToken::Addition => Some(BinaryOp::Add),
        SpecToken::Negation => Some(BinaryOp::Subtract),
        _ => None,
    }
}

/// The multiplicative operator that a token spells: `*`, `/` or `%`.
pub open spec fn multiplicative_operator(t: SpecToken) -> Option<BinaryOp> {
    match t {
        SpecToken::Multiplication => Some(BinaryOp::Multiply),
        SpecToken::Division => Some(BinaryOp::Divide),
        SpecToken::Remainder => Some(BinaryOp::Remainder),
        _ => None,
    }
}

/// A constant expression.
pub open spec fn constant(v: u64) -> Box<SpecExpression> {
    Box::new(SpecExpression::Constant(v))
}

/// Three constants joined by two operators: `x o1 y o2 z`.
pub open spec fn three_terms(x: u64, o1: SpecToken, y: u64, o2: SpecToken, z: u64) -> Seq<SpecToken> {
    seq![
        SpecToken::Constant(x),
        o1,
        SpecToken::Constant(y),
        o2,
        SpecToken::Constant(z),
    ]
}

proof fn lemma_constant_factor(t: Seq<SpecToken>, i: nat, v: u64)
    requires
        i < t.len(),
        t[i as int] == SpecToken::Constant(v),
        i + 1 < t.len() ==> binary_op_of(t[i + 1int]) is Some,
    ensures
        parse_factor_at(t, i) == Ok::<(SpecExpression, nat), SpecParseError>(
            (SpecExpression::Constant(v), i + 1),
        ),
{
    assert(parse_primary_at(t, i) == Ok::<(SpecExpression, nat), SpecParseError>(
        (SpecExpression::Constant(v), i + 1),
    ));
}

/// `x o1 y o2 z` with both operators of one class (additive, or
/// multiplicative) as read at `min_prec` 0: it groups to the left,
/// `(x o1 y) o2 z`.
proof fn lemma_same_class_left(x: u64, t1: SpecToken, y: u64, t2: SpecToken, z: u64, o1: BinaryOp, o2: BinaryOp)
    requires
        binary_op_of(t1) == Some(o1),
        binary_op_of(t2) == Some(o2),
        precedence_of(o1) == precedence_of(o2),
        precedence_of(o1) >= 2,
        compound_base(o1) is None && o1 != BinaryOp::Assignment,
        compound_base(o2) is None && o2 != BinaryOp::Assignment,
    ensures
        parse_expression_at(three_terms(x, t1, y, t2, z), 0, 0) == Ok::<
            (SpecExpression, nat),
            SpecParseError,
        >((SpecExpression::Binary(o2, Box::new(SpecExpression::Binary(o1, constant(x), constant(y))), constant(z)), 5)),
{
    let t = three_terms(x, t1, y, t2, z);
    let p: u8 = (precedence_of(o1) + 1) as u8;
    lemma_constant_factor(t, 0, x);
    lemma_constant_factor(t, 2, y);
    lemma_constant_factor(t, 4, z);
    assert(parse_expression_at(t, 4, p) == Ok::<(SpecExpression, nat), SpecParseError>(
        (SpecExpression::Constant(z), 5),
    ));
    assert(parse_operators_at(t, SpecExpression::Constant(y), 3, p) == Ok::<
        (SpecExpression, nat),
        SpecParseError,
    >((SpecExpression::Constant(y), 3)));
    assert(parse_expression_at(t, 2, p) == Ok::<(SpecExpression, nat), SpecParseError>(
        (SpecExpression::Constant(y), 3),
    ));
    let left = SpecExpression::Binary(o1, constant(x), constant(y));
    let whole = SpecExpression::Binary(o2, Box::new(left), constant(z));
    assert(parse_operators_at(t, whole, 5, 0) == Ok::<(SpecExpression, nat), SpecParseError>(
        (whole, 5),
    ));
    assert(parse_operators_at(t, left, 3, 0) == Ok::<(SpecExpression, nat), SpecParseError>(
        (whole, 5),
    ));
    assert(parse_operators_at(t, SpecExpression::Constant(x), 1, 0) == Ok::<
        (SpecExpression, nat),
        SpecParseError,
    >((whole, 5)));
}

/// `x o1 y o2 z` where `o2` binds more tightly than `o1`, read at
/// `min_prec` 0: `o2` takes `y` and `z`, `x o1 (y o2 z)`.
proof fn lemma_tighter_right(x: u64, t1: SpecToken, y: u64, t2: SpecToken, z: u64, o1: BinaryOp, o2: BinaryOp)
    requires
        binary_op_of(t1) == Some(o1),
        binary_op_of(t2) == Some(o2),
        precedence_of(o1) < precedence_of(o2),
        precedence_of(o1) >= 2,
        compound_base(o1) is None && o1 != BinaryOp::Assignment,
        compound_base(o2) is None && o2 != BinaryOp::Assignment,
    ensures
        parse_expression_at(three_terms(x, t1, y, t2, z), 0, 0) == Ok::<
            (SpecExpression, nat),
            SpecParseError,
        >((SpecExpression::Binary(o1, constant(x), Box::new(SpecExpression::Binary(o2, constant(y), constant(z)))), 5)),
{
    let t = three_terms(x, t1, y, t2, z);
    let p1: u8 = (precedence_of(o1) + 1) as u8;
    let p2: u8 = (precedence_of(o2) + 1) as u8;
    lemma_constant_factor(t, 0, x);
    lemma_constant_factor(t, 2, y);
    lemma_constant_factor(t, 4, z);
    assert(parse_expression_at(t, 4, p2) == Ok::<(SpecExpression, nat), SpecParseError>(
        (SpecExpression::Constant(z), 5),
    ));
    let right = SpecExpression::Binary(o2, constant(y), constant(z));
    assert(parse_operators_at(t, right, 5, p1) == Ok::<(SpecExpression, nat), SpecParseError>(
        (right, 5),
    ));
    assert(parse_operators_at(t, SpecExpression::Constant(y), 3, p1) == Ok::<
        (SpecExpression, nat),
        SpecParseError,
    >((right, 5)));
    assert(parse_expression_at(t, 2, p1) == Ok::<(SpecExpression, nat), SpecParseError>(
        (right, 5),
    ));
    let whole = SpecExpression::Binary(o1, constant(x), Box::new(right));
    assert(parse_operators_at(t, whole, 5, 0) == Ok::<(SpecExpression, nat), SpecParseError>(
        (whole, 5),
    ));
    assert(parse_operators_at(t, SpecExpression::Constant(x), 1, 0) == Ok::<
        (SpecExpression, nat),
        SpecParseError,
    >((whole, 5)));
}

/// `x o1 y o2 z` where `o1` binds more tightly than `o2`, read at
/// `min_prec` 0: `(x o1 y) o2 z`.
proof fn lemma_tighter_left(x: u64, t1: SpecToken, y: u64, t2: SpecToken, z: u64, o1: BinaryOp, o2: BinaryOp)
    requires
        binary_op_of(t1) == Some(o1),
        binary_op_of(t2) == Some(o2),
        precedence_of(o2) < precedence_of(o1),
        precedence_of(o2) >= 2,
        compound_base(o1) is None && o1 != BinaryOp::Assignment,
        compound_base(o2) is None && o2 != BinaryOp::Assignment,
    ensures
        parse_expression_at(three_terms(x, t1, y, t2, z), 0, 0) == Ok::<
            (SpecExpression, nat),
            SpecParseError,
        >((SpecExpression::Binary(o2, Box::new(SpecExpression::Binary(o1, constant(x), constant(y))), constant(z)), 5)),
{
    let t = three_terms(x, t1, y, t2, z);
    let p1: u8 = (precedence_of(o1) + 1) as u8;
    let p2: u8 = (precedence_of(o2) + 1) as u8;
    lemma_constant_factor(t, 0, x);
    lemma_constant_factor(t, 2, y);
    lemma_constant_factor(t, 4, z);
    assert(parse_expression_at(t, 4, p2) == Ok::<(SpecExpression, nat), SpecParseError>(
        (SpecExpression::Constant(z), 5),
    ));
    assert(parse_operators_at(t, SpecExpression::Constant(y), 3, p1) == Ok::<
        (SpecExpression, nat),
        SpecParseError,
    >((SpecExpression::Constant(y), 3)));
    assert(parse_expression_at(t, 2, p1) == Ok::<(SpecExpression, nat), SpecParseError>(
        (SpecExpression::Constant(y), 3),
    ));
    let left = SpecExpression::Binary(o1, constant(x), constant(y));
    let whole = SpecExpression::Binary(o2, Box::new(left), constant(z));
    assert(parse_operators_at(t, whole, 5, 0) == Ok::<(SpecExpression, nat), SpecParseError>(
        (whole, 5),
    ));
    assert(parse_operators_at(t, left, 3, 0) == Ok::<(SpecExpression, nat), SpecParseError>(
        (whole, 5),
    ));
    assert(parse_operators_at(t, SpecExpression::Constant(x), 1, 0) == Ok::<
        (SpecExpression, nat),
        SpecParseError,
    >((whole, 5)));
}

/// `*`, `/` and `%` bind more tightly than `+` and `-`, and operators of
/// one class group to the left: for all constants `x`, `y`, `z`, with `a`
/// an additive and `m` a multiplicative operator,
/// `x a y m z` reads as `x a (y m z)`, `x m y a z` as `(x m y) a z`, and
/// `x a y a' z`, `x m y m' z` as `(x a y) a' z`, `(x m y) m' z`.
pub proof fn lemma_arithmetic_grouping(
    x: u64,
    y: u64,
    z: u64,
    ta: SpecToken,
    ta2: SpecToken,
    tm: SpecToken,
    tm2: SpecToken,
)
    requires
        additive_operator(ta) is Some,
        additive_operator(ta2) is Some,
        multiplicative_operator(tm) is Some,
        multiplicative_operator(tm2) is Some,
    ensures
        ({
            let a = additive_operator(ta).unwrap();
            let a2 = additive_operator(ta2).unwrap();
            let m = multiplicative_operator(tm).unwrap();
            let m2 = multiplicative_operator(tm2).unwrap();
            &&& parse_expression_at(three_terms(x, ta, y, tm, z), 0, 0) == Ok::<
                (SpecExpression, nat),
                SpecParseError,
            >((SpecExpression::Binary(a, constant(x), Box::new(SpecExpression::Binary(m, constant(y), constant(z)))), 5))
            &&& parse_expression_at(three_terms(x, tm, y, ta, z), 0, 0) == Ok::<
                (SpecExpression, nat),
                SpecParseError,
            >((SpecExpression::Binary(a, Box::new(SpecExpression::Binary(m, constant(x), constant(y))), constant(z)), 5))
            &&& parse_expression_at(three_terms(x, ta, y, ta2, z), 0, 0) == Ok::<
                (SpecExpression, nat),
                SpecParseError,
            >((SpecExpression::Binary(a2, Box::new(SpecExpression::Binary(a, constant(x), constant(y))), constant(z)), 5))
            &&& parse_expression_at(three_terms(x, tm, y, tm2, z), 0, 0) == Ok::<
                (SpecExpression, nat),
                SpecParseError,
            >((SpecExpression::Binary(m2, Box::new(SpecExpression::Binary(m, constant(x), constant(y))), constant(z)), 5))
        }),
{
    let a = additive_operator(ta).unwrap();
    let a2 = additive_operator(ta2).unwrap();
    let m = multiplicative_operator(tm).unwrap();
    let m2 = multiplicative_operator(tm2).unwrap();
    lemma_tighter_right(x, ta, y, tm, z, a, m);
    lemma_tighter_left(x, tm, y, ta, z, m, a);
    lemma_same_class_left(x, ta, y, ta2, z, a, a2);
    lemma_same_class_left(x, tm, y, tm2, z, m, m2);
}

/// The row of C's operator table that a binary operator belongs to,
/// counted from the loosest: assignments, `||`, `&&`, `|`, `^`, `&`,
/// `==` and `!=`, `<` `>` `<=` `>=`, `<<` and `>>`, `+` and `-`, then `*`,
/// `/` and `%`.
pub open spec fn c_operator_row(op: BinaryOp) -> nat {
    if op == BinaryOp::Or {
        2
    } else if op == BinaryOp::And {
        3
    } else if op == BinaryOp::BitwiseOr {
        4
    } else if op == BinaryOp::BitwiseXor {
        5
    } else if op == BinaryOp::BitwiseAnd {
        6
    } else if op == BinaryOp::EqualTo || op == BinaryOp::NotEqualTo {
        7
    } else if op == BinaryOp::LessThan || op == BinaryOp::GreaterThan || op
        == BinaryOp::LessThanOrEqualTo || op == BinaryOp::GreaterThanOrEqualTo {
        8
    } else if op == BinaryOp::LeftShift || op == BinaryOp::RightShift {
        9
    } else if op == BinaryOp::Add || op == BinaryOp::Subtract {
        10
    } else if op == BinaryOp::Multiply || op == BinaryOp::Divide || op == BinaryOp::Remainder {
        11
    } else {
        1
    }
}

/// Binding strengths follow C's operator table: one operator binds more
/// tightly than another exactly when its row comes later, and two bind
/// alike exactly when they share a row.
pub proof fn lemma_precedence_follows_c(a: BinaryOp, b: BinaryOp)
    ensures
        precedence_of(a) < precedence_of(b) <==> c_operator_row(a) < c_operator_row(b),
        precedence_of(a) == precedence_of(b) <==> c_operator_row(a) == c_operator_row(b),
{
}

// ---------------------------------------------------------------------
// Lookahead of the grammar
// ---------------------------------------------------------------------

/// `t` and `u` have the same first `n` tokens.
pub open spec fn agree_below(t: Seq<SpecToken>, u: Seq<SpecToken>, n: nat) -> bool {
    &&& n <= t.len()
    &&& n <= u.len()
    &&& forall|i: int| 0 <= i < n ==> #[trigger] t[i] == u[i]
}

proof fn lemma_primary_agrees(t: Seq<SpecToken>, u: Seq<SpecToken>, n: nat, pos: nat)
    requires
        agree_below(t, u, n),
    ensures
        parse_primary_at(t, pos) matches Ok((_, q)) && q < n ==> parse_primary_at(u, pos)
            == parse_primary_at(t, pos),
    decreases t.len() - pos, 0int,
{
    if pos < t.len() {
        lemma_expression_consumes(t, pos, 0);
        lemma_expression_consumes(t, pos + 1, 0);
        lemma_factor_agrees(t, u, n, pos + 1);
        lemma_expression_agrees(t, u, n, pos + 1, 0);
        if parse_primary_at(t, pos) matches Ok((_, q)) && q < n {
            assert(t[pos as int] == u[pos as int]);
            if let Ok((_, p)) = parse_expression_at(t, pos + 1, 0) {
                if p < n {
                    assert(t[p as int] == u[p as int]);
                }
            }
        }
    }
}

proof fn lemma_factor_agrees(t: Seq<SpecToken>, u: Seq<SpecToken>, n: nat, pos: nat)
    requires
        agree_below(t, u, n),
    ensures
        parse_factor_at(t, pos) matches Ok((_, q)) && q < n ==> parse_factor_at(u, pos)
            == parse_factor_at(t, pos),
    decreases t.len() - pos, 1int,
{
    if pos < t.len() {
        lemma_primary_agrees(t, u, n, pos);
        if let Ok((_, p)) = parse_primary_at(t, pos) {
            if p < n {
                assert(t[p as int] == u[p as int]);
            }
        }
    }
}

proof fn lemma_expression_agrees(t: Seq<SpecToken>, u: Seq<SpecToken>, n: nat, pos: nat, m: u8)
    requires
        agree_below(t, u, n),
    ensures
        parse_expression_at(t, pos, m) matches Ok((_, q)) && q < n ==> parse_expression_at(u, pos, m)
            == parse_expression_at(t, pos, m),
    decreases t.len() - pos, 2int,
{
    if pos < t.len() {
        lemma_factor_agrees(t, u, n, pos);
        if let Ok((left, p)) = parse_factor_at(t, pos) {
            if pos < p <= t.len() {
                lemma_operators_stay(t, left, p, m);
                lemma_operators_agrees(t, u, n, left, p, m);
            }
        }
    }
}

proof fn lemma_operators_agrees(
    t: Seq<SpecToken>,
    u: Seq<SpecToken>,
    n: nat,
    left: SpecExpression,
    pos: nat,
    m: u8,
)
    requires
        agree_below(t, u, n),
        0 < pos,
    ensures
        parse_operators_at(t, left, pos, m) matches Ok((_, q)) && q < n ==> parse_operators_at(
            u,
            left,
            pos,
            m,
        ) == parse_operators_at(t, left, pos, m),
    decreases t.len() - pos, 3int,
{
    if pos < t.len() {
        if let Some(op) = binary_op_of(t[pos as int]) {
            if precedence_of(op) >= m {
                let right_prec: u8 = if compound_base(op) is None && op != BinaryOp::Assignment {
                    (precedence_of(op) + 1) as u8
                } else {
                    precedence_of(op)
                };
                lemma_expression_agrees(t, u, n, pos + 1, right_prec);
                if let Ok((right, p)) = parse_expression_at(t, pos + 1, right_prec) {
                    let combined = match compound_base(op) {
                        Some(base) => SpecExpression::Assignment(
                            Box::new(left),
                            Box::new(SpecExpression::Binary(base, Box::new(left), Box::new(right))),
                        ),
                        None => if op == BinaryOp::Assignment {
                            SpecExpression::Assignment(Box::new(left), Box::new(right))
                        } else {
                            SpecExpression::Binary(op, Box::new(left), Box::new(right))
                        },
                    };
                    if pos < p <= t.len() {
                        lemma_operators_stay(t, combined, p, m);
                        lemma_operators_agrees(t, u, n, combined, p, m);
                    }
                }
            }
        }
        if parse_operators_at(t, left, pos, m) matches Ok((_, q)) && q < n {
            assert(t[pos as int] == u[pos as int]);
        }
    }
}

proof fn lemma_block_item_agrees(t: Seq<SpecToken>, u: Seq<SpecToken>, n: nat, pos: nat)
    requires
        agree_below(t, u, n),
    ensures
        parse_block_item_at(t, pos) matches Ok((_, q)) && q < n ==> parse_block_item_at(u, pos)
            == parse_block_item_at(t, pos),
{
    lemma_block_item_consumes(t, pos);
    lemma_expression_consumes(t, pos, 0);
    lemma_expression_consumes(t, pos + 1, 0);
    lemma_expression_consumes(t, pos + 3, 0);
    lemma_expression_agrees(t, u, n, pos, 0);
    lemma_expression_agrees(t, u, n, pos + 1, 0);
    lemma_expression_agrees(t, u, n, pos + 3, 0);
    if parse_block_item_at(t, pos) matches Ok((_, q)) && q < n {
        assert(t[pos as int] == u[pos as int]);
        if pos + 1 < n {
            assert(t[pos + 1int] == u[pos + 1int]);
        }
        if pos + 2 < n {
            assert(t[pos + 2int] == u[pos + 2int]);
        }
        if let Ok((_, p)) = parse_expression_at(t, pos, 0) {
            if p < n {
                assert(t[p as int] == u[p as int]);
            }
        }
        if let Ok((_, p)) = parse_expression_at(t, pos + 1, 0) {
            if p < n {
                assert(t[p as int] == u[p as int]);
            }
        }
        if let Ok((_, p)) = parse_expression_at(t, pos + 3, 0) {
            if p < n {
                assert(t[p as int] == u[p as int]);
            }
        }
    }
}

proof fn lemma_items_stay(t: Seq<SpecToken>, pos: nat)
    ensures
        parse_items_at(t, pos) matches Ok((_, q)) ==> pos <= q,
    decreases t.len() - pos,
{
    if token_at(t, pos) != Some(SpecToken::CloseBrace) {
        if let Ok((_, p)) = parse_block_item_at(t, pos) {
            if pos < p <= t.len() {
                lemma_items_stay(t, p);
            }
        }
    }
}

proof fn lemma_items_agree(t: Seq<SpecToken>, u: Seq<SpecToken>, n: nat, pos: nat)
    requires
        agree_below(t, u, n),
    ensures
        parse_items_at(t, pos) matches Ok((_, q)) && q < n ==> parse_items_at(u, pos)
            == parse_items_at(t, pos),
    decreases t.len() - pos,
{
    lemma_items_stay(t, pos);
    if parse_items_at(t, pos) matches Ok((_, q)) && q < n {
        assert(t[pos as int] == u[pos as int]);
        if token_at(t, pos) != Some(SpecToken::CloseBrace) {
            lemma_block_item_agrees(t, u, n, pos);
            if let Ok((_, p)) = parse_block_item_at(t, pos) {
                if pos < p <= t.len() {
                    lemma_items_stay(t, p);
                    lemma_items_agree(t, u, n, p);
                }
            }
        }
    }
}

/// Nothing may follow the closing brace: when tokens parse as a program,
/// the same tokens with any token after them do not, and the error names
/// that token.
pub proof fn lemma_parse_rejects_trailing(ts: Seq<SpecToken>, t: SpecToken)
    requires
        spec_parse(ts) is Ok,
    ensures
        spec_parse(ts.push(t)) == Err::<SpecProgram, SpecParseError>(
            SpecParseError::ExpectedEndOfInput(t),
        ),
{
    let u = ts.push(t);
    let n = ts.len();
    assert forall|i: int| 0 <= i < n implies #[trigger] ts[i] == u[i] by {}
    assert(agree_below(ts, u, n));
    let ctx = ParseContext::FunctionDefinition;
    assert(expect_at(ts, 0, SpecToken::Int, ctx) == Ok::<nat, SpecParseError>(1));
    assert(ts[1] is Identifier);
    assert(expect_at(ts, 2, SpecToken::OpenParen, ctx) == Ok::<nat, SpecParseError>(3));
    assert(expect_at(ts, 3, SpecToken::Void, ctx) == Ok::<nat, SpecParseError>(4));
    assert(expect_at(ts, 4, SpecToken::CloseParen, ctx) == Ok::<nat, SpecParseError>(5));
    assert(expect_at(ts, 5, SpecToken::OpenBrace, ctx) == Ok::<nat, SpecParseError>(6));
    assert(ts[0] == u[0] && ts[1] == u[1] && ts[2] == u[2] && ts[3] == u[3] && ts[4] == u[4]
        && ts[5] == u[5]);
    let p6 = match parse_items_at(ts, 6) {
        Ok((_, q)) => q,
        Err(_) => 0,
    };
    assert(expect_at(ts, p6, SpecToken::CloseBrace, ctx) == Ok::<nat, SpecParseError>(p6 + 1));
    assert(p6 < n);
    lemma_items_agree(ts, u, n, 6);
    assert(ts[p6 as int] == u[p6 as int]);
    assert(parse_function_def_at(u, 0) == parse_function_def_at(ts, 0));
    assert(u[n as int] == t);
}

// ---------------------------------------------------------------------
// The parser
// ---------------------------------------------------------------------

/// Whether an executable parse result agrees with the grammar's result:
/// the same value and end position, or the same error.
pub open spec fn agrees<T: View>(
    res: Result<T, ParseError>,
    end: nat,
    expected: Result<(T::V, nat), SpecParseError>,
) -> bool {
    match (res, expected) {
        (Ok(v), Ok((w, p))) => v@ == w && end == p,
        (Err(e), Err(f)) => e@ == f,
        _ => false,
    }
}

/// Whether a unit result agrees with the grammar's end position or error.
pub open spec fn agrees_unit(res: Result<(), ParseError>, end: nat, expected: Result<nat, SpecParseError>) -> bool {
    match (res, expected) {
        (Ok(_), Ok(p)) => end == p,
        (Err(e), Err(f)) => e@ == f,
        _ => false,
    }
}

/// The items `prefix` in front of those of `r`, or the error of `r`.
pub open spec fn after_items(
    prefix: Seq<SpecBlockItem>,
    r: Result<(Seq<SpecBlockItem>, nat), SpecParseError>,
) -> Result<(Seq<SpecBlockItem>, nat), SpecParseError> {
    match r {
        Ok((items, p)) => Ok((prefix + items, p)),
        Err(e) => Err(e),
    }
}

fn parse_unary_op(tok: &Token) -> (op: Option<UnaryOp>)
    ensures
        op == unary_op_of(tok@),
{
    match tok {
        Token::Complement => Some(UnaryOp::Complement),
        Token::Negation => Some(UnaryOp::Negation),
        Token::Not => Some(UnaryOp::Not),
        _ => None,
    }
}

fn parse_binary_op(tok: &Token) -> (op: Option<BinaryOp>)
    ensures
        op == binary_op_of(tok@),
{
    match tok {
        Token::Addition => Some(BinaryOp::Add),
        Token::Negation => Some(BinaryOp::Subtract),
        Token::Multiplication => Some(BinaryOp::Multiply),
        Token::Division => Some(BinaryOp::Divide),
        Token::Remainder => Some(BinaryOp::Remainder),
        Token::LeftShift => Some(BinaryOp::LeftShift),
        Token::RightShift => Some(BinaryOp::RightShift),
        Token::BitwiseAnd => Some(BinaryOp::BitwiseAnd),
        Token::BitwiseXor => Some(BinaryOp::BitwiseXor),
        Token::BitwiseOr => Some(BinaryOp::BitwiseOr),
        Token::And => Some(BinaryOp::And),
        Token::Or => Some(BinaryOp::Or),
        Token::EqualTo => Some(BinaryOp::EqualTo),
        Token::NotEqualTo => Some(BinaryOp::NotEqualTo),
        Token::LessThan => Some(BinaryOp::LessThan),
        Token::GreaterThan => Some(BinaryOp::GreaterThan),
        Token::LessThanOrEqualTo => Some(BinaryOp::LessThanOrEqualTo),
        Token::GreaterThanOrEqualTo => Some(BinaryOp::GreaterThanOrEqualTo),
        Token::Assignment => Some(BinaryOp::Assignment),
        Token::CmpdAddAssn => Some(BinaryOp::CmpdAddAssn),
        Token::CmpdSubAssn => Some(BinaryOp::CmpdSubAssn),
        Token::CmpdMulAssn => Some(BinaryOp::CmpdMulAssn),
        Token::CmpdDivAssn => Some(BinaryOp::CmpdDivAssn),
        Token::CmpdRemAssn => Some(BinaryOp::CmpdRemAssn),
        Token::CmpdLShiftAssn => Some(BinaryOp::CmpdLShiftAssn),
        Token::CmpdRShiftAssn => Some(BinaryOp::CmpdRShiftAssn),
        Token::CmpdBitwiseAndAssn => Some(BinaryOp::CmpdBitwiseAndAssn),
        Token::CmpdBitwiseXorAssn => Some(BinaryOp::CmpdBitwiseXorAssn),
        Token::CmpdBitwiseOrAssn => Some(BinaryOp::CmpdBitwiseOrAssn),
        _ => None,
    }
}

fn compound_assignment_base(op: BinaryOp) -> (base: Option<BinaryOp>)
    ensures
        base == compound_base(op),
{
    match op {
        BinaryOp::CmpdAddAssn => Some(BinaryOp::Add),
        BinaryOp::CmpdSubAssn => Some(BinaryOp::Subtract),
        BinaryOp::CmpdMulAssn => Some(BinaryOp::Multiply),
        BinaryOp::CmpdDivAssn => Some(BinaryOp::Divide),
        BinaryOp::CmpdRemAssn => Some(BinaryOp::Remainder),
        BinaryOp::CmpdLShiftAssn => Some(BinaryOp::LeftShift),
        BinaryOp::CmpdRShiftAssn => Some(BinaryOp::RightShift),
        BinaryOp::CmpdBitwiseAndAssn => Some(BinaryOp::BitwiseAnd),
        BinaryOp::CmpdBitwiseXorAssn => Some(BinaryOp::BitwiseXor),
        BinaryOp::CmpdBitwiseOrAssn => Some(BinaryOp::BitwiseOr),
        _ => None,
    }
}

fn opt_clone_token(t: Option<&Token>) -> (r: Option<Token>)
    ensures
        opt_token_view(r) == match t {
            Some(t) => Some(t@),
            None => None::<SpecToken>,
        },
{
    match t {
        Some(t) => Some(clone_token(t)),
        None => None,
    }
}

/// A cursor over a token sequence.
struct Parser<'a> {
    tokens: &'a [Token],
    pos: usize,
}

impl<'a> Parser<'a> {
    spec fn toks(&self) -> Seq<SpecToken> {
        tokens_view(self.tokens@)
    }

    fn peek(&self) -> (r: Option<&'a Token>)
        ensures
            r is Some <==> self.pos < self.tokens@.len(),
            r matches Some(t) ==> *t == self.tokens@[self.pos as int],
            match r {
                Some(t) => Some(t@),
                None => None::<SpecToken>,
            } == token_at(self.toks(), self.pos as nat),
    {
        if self.pos < self.tokens.len() {
            Some(&self.tokens[self.pos])
        } else {
            None
        }
    }

    fn next(&mut self) -> (r: Option<&'a Token>)
        ensures
            final(self).tokens == old(self).tokens,
            match r {
                Some(t) => Some(t@),
                None => None::<SpecToken>,
            } == token_at(old(self).toks(), old(self).pos as nat),
            r is Some ==> final(self).pos == old(self).pos + 1,
            r is None ==> final(self).pos == old(self).pos,
            r is Some <==> old(self).pos < old(self).tokens@.len(),
    {
        if self.pos < self.tokens.len() {
            let tok = &self.tokens[self.pos];
            self.pos = self.pos + 1;
            Some(tok)
        } else {
            None
        }
    }

    fn expect(&mut self, expected: Token, context: ParseContext) -> (res: Result<(), ParseError>)
        requires
            old(self).pos <= old(self).tokens@.len(),
        ensures
            final(self).tokens == old(self).tokens,
            final(self).pos <= final(self).tokens@.len(),
            agrees_unit(
                res,
                final(self).pos as nat,
                expect_at(old(self).toks(), old(self).pos as nat, expected@, context),
            ),
    {
        match self.next() {
            Some(tok) => {
                if same_token(tok, &expected) {
                    Ok(())
                } else {
                    Err(ParseError::Expected { context, expected, found: Some(clone_token(tok)) })
                }
            },
            None => Err(ParseError::Expected { context, expected, found: None }),
        }
    }

    fn parse_primary_factor(&mut self) -> (res: Result<Expression, ParseError>)
        requires
            old(self).pos <= old(self).tokens@.len(),
        ensures
            final(self).tokens == old(self).tokens,
            final(self).pos <= final(self).tokens@.len(),
            res is Ok ==> old(self).pos < final(self).pos,
            agrees(res, final(self).pos as nat, parse_primary_at(old(self).toks(), old(self).pos as nat)),
        decreases old(self).tokens@.len() - old(self).pos, 0int,
    {
        match self.next() {
            Some(Token::Constant(v)) => Ok(Expression::Constant(*v)),
            Some(Token::Identifier(n)) => Ok(Expression::Var(n.clone())),
            Some(Token::Complement) => {
                let e = self.parse_factor()?;
                Ok(Expression::Unary(UnaryOp::Complement, Box::new(e)))
            },
            Some(Token::Negation) => {
                let e = self.parse_factor()?;
                Ok(Expression::Unary(UnaryOp::Negation, Box::new(e)))
            },
            Some(Token::Not) => {
                let e = self.parse_factor()?;
                Ok(Expression::Unary(UnaryOp::Not, Box::new(e)))
            },
            Some(Token::Increment) => {
                let e = self.parse_factor()?;
                Ok(Expression::PrefixIncr(Box::new(e)))
            },
            Some(Token::Decrement) => {
                let e = self.parse_factor()?;
                Ok(Expression::PrefixDecr(Box::new(e)))
            },
            Some(Token::OpenParen) => {
                let e = self.parse_expression(0)?;
                self.expect(Token::CloseParen, ParseContext::Expression)?;
                Ok(e)
            },
            Some(other) => Err(ParseError::ExpectedExpression(Some(clone_token(other)))),
            None => Err(ParseError::ExpectedExpression(None)),
        }
    }

    fn parse_factor(&mut self) -> (res: Result<Expression, ParseError>)
        requires
            old(self).pos <= old(self).tokens@.len(),
        ensures
            final(self).tokens == old(self).tokens,
            final(self).pos <= final(self).tokens@.len(),
            res is Ok ==> old(self).pos < final(self).pos,
            agrees(res, final(self).pos as nat, parse_factor_at(old(self).toks(), old(self).pos as nat)),
        decreases old(self).tokens@.len() - old(self).pos, 1int,
    {
        let factor = self.parse_primary_factor()?;
        match self.peek() {
            Some(Token::Increment) => {
                self.next();
                Ok(Expression::PostfixIncr(Box::new(factor)))
            },
            Some(Token::Decrement) => {
                self.next();
                Ok(Expression::PostfixDecr(Box::new(factor)))
            },
            _ => Ok(factor),
        }
    }

    fn parse_expression(&mut self, min_prec: u8) -> (res: Result<Expression, ParseError>)
        requires
            old(self).pos <= old(self).tokens@.len(),
        ensures
            final(self).tokens == old(self).tokens,
            final(self).pos <= final(self).tokens@.len(),
            res is Ok ==> old(self).pos < final(self).pos,
            agrees(
                res,
                final(self).pos as nat,
                parse_expression_at(old(self).toks(), old(self).pos as nat, min_prec),
            ),
        decreases old(self).tokens@.len() - old(self).pos, 2int,
    {
        let ghost t = self.toks();
        let ghost pos0 = self.pos;
        let ghost tokens0 = self.tokens;
        let mut left = self.parse_factor()?;
        #[verifier::loop_isolation(false)]
        loop
            invariant
                self.tokens == tokens0,
                t == self.toks(),
                pos0 < self.pos <= self.tokens@.len(),
                parse_expression_at(t, pos0 as nat, min_prec) == parse_operators_at(
                    t,
                    left@,
                    self.pos as nat,
                    min_prec,
                ),
            decreases self.tokens@.len() - self.pos,
        {
            let tok = match self.peek() {
                Some(tok) => tok,
                None => {
                    return Ok(left);
                },
            };
            let op = match parse_binary_op(tok) {
                Some(op) => op,
                None => {
                    return Ok(left);
                },
            };
            let prec = op.precedence();
            if prec < min_prec {
                return Ok(left);
            }
            let ghost left0 = left@;
            let ghost at = self.pos as nat;
            self.next();
            match compound_assignment_base(op) {
                Some(inner_op) => {
                    let exp = self.parse_expression(prec)?;
                    let ghost exp_v = exp@;
                    let right = Expression::Binary(
                        inner_op,
                        Box::new(clone_expression(&left)),
                        Box::new(exp),
                    );
                    assert(right@ == SpecExpression::Binary(inner_op, Box::new(left0), Box::new(exp_v)));
                    left = Expression::Assignment(Box::new(left), Box::new(right));
                },
                None => {
                    if let BinaryOp::Assignment = op {
                        let right = self.parse_expression(prec)?;
                        left = Expression::Assignment(Box::new(left), Box::new(right));
                    } else {
                        let right = self.parse_expression(prec + 1)?;
                        left = Expression::Binary(op, Box::new(left), Box::new(right));
                    }
                },
            }
        }
    }

    fn parse_statement(&mut self) -> (res: Result<Statement, ParseError>)
        requires
            old(self).pos <= old(self).tokens@.len(),
        ensures
            final(self).tokens == old(self).tokens,
            final(self).pos <= final(self).tokens@.len(),
            res is Ok ==> old(self).pos < final(self).pos,
            agrees(res, final(self).pos as nat, parse_statement_at(old(self).toks(), old(self).pos as nat)),
    {
        match self.peek() {
            Some(Token::Return) => {
                self.next();
                let exp = self.parse_expression(0)?;
                self.expect(Token::Semicolon, ParseContext::Statement)?;
                Ok(Statement::Return(exp))
            },
            Some(Token::Semicolon) => {
                self.next();
                Ok(Statement::Null)
            },
            _ => {
                let exp = self.parse_expression(0)?;
                self.expect(Token::Semicolon, ParseContext::Statement)?;
                Ok(Statement::Expression(exp))
            },
        }
    }

    fn parse_declaration(&mut self) -> (res: Result<Declaration, ParseError>)
        requires
            old(self).pos <= old(self).tokens@.len(),
        ensures
            final(self).tokens == old(self).tokens,
            final(self).pos <= final(self).tokens@.len(),
            res is Ok ==> old(self).pos < final(self).pos,
            agrees(res, final(self).pos as nat, parse_declaration_at(old(self).toks(), old(self).pos as nat)),
    {
        self.expect(Token::Int, ParseContext::DeclarationType)?;
        let name = match self.next() {
            Some(Token::Identifier(val)) => val.clone(),
            other => {
                return Err(ParseError::ExpectedVariableName(opt_clone_token(other)));
            },
        };
        let init = match self.peek() {
            Some(Token::Assignment) => {
                self.next();
                Some(self.parse_expression(0)?)
            },
            _ => None,
        };
        self.expect(Token::Semicolon, ParseContext::Declaration)?;
        Ok(Declaration { name, init })
    }

    fn parse_block_item(&mut self) -> (res: Result<BlockItem, ParseError>)
        requires
            old(self).pos <= old(self).tokens@.len(),
        ensures
            final(self).tokens == old(self).tokens,
            final(self).pos <= final(self).tokens@.len(),
            res is Ok ==> old(self).pos < final(self).pos,
            agrees(res, final(self).pos as nat, parse_block_item_at(old(self).toks(), old(self).pos as nat)),
    {
        match self.peek() {
            Some(Token::Int) => Ok(BlockItem::D(self.parse_declaration()?)),
            _ => Ok(BlockItem::S(self.parse_statement()?)),
        }
    }

    fn at_close_brace(&self) -> (b: bool)
        ensures
            b == (token_at(self.toks(), self.pos as nat) == Some(SpecToken::CloseBrace)),
    {
        match self.peek() {
            Some(Token::CloseBrace) => true,
            _ => false,
        }
    }

    fn parse_function_def(&mut self) -> (res: Result<FunctionDef, ParseError>)
        requires
            old(self).pos <= old(self).tokens@.len(),
        ensures
            final(self).tokens == old(self).tokens,
            final(self).pos <= final(self).tokens@.len(),
            agrees(res, final(self).pos as nat, parse_function_def_at(old(self).toks(), old(self).pos as nat)),
    {
        let ghost t = self.toks();
        let ghost tokens0 = self.tokens;
        self.expect(Token::Int, ParseContext::FunctionDefinition)?;
        let name = match self.next() {
            Some(Token::Identifier(val)) => val.clone(),
            other => {
                return Err(ParseError::ExpectedFunctionName(opt_clone_token(other)));
            },
        };
        self.expect(Token::OpenParen, ParseContext::FunctionDefinition)?;
        self.expect(Token::Void, ParseContext::FunctionDefinition)?;
        self.expect(Token::CloseParen, ParseContext::FunctionDefinition)?;
        self.expect(Token::OpenBrace, ParseContext::FunctionDefinition)?;
        let ghost p5 = self.pos as nat;
        let mut body: Vec<BlockItem> = Vec::new();
        assert(items_view(body@) =~= Seq::<SpecBlockItem>::empty());
        #[verifier::loop_isolation(false)]
        while !self.at_close_brace()
            invariant
                self.tokens == tokens0,
                t == self.toks(),
                self.pos <= self.tokens@.len(),
                parse_items_at(t, p5) == after_items(items_view(body@), parse_items_at(t, self.pos as nat)),
            decreases self.tokens@.len() - self.pos,
        {
            let ghost before = items_view(body@);
            let next_block_item = self.parse_block_item()?;
            let ghost iv = next_block_item@;
            body.push(next_block_item);
            proof {
                assert(items_view(body@) =~= before.push(iv));
                match parse_items_at(t, self.pos as nat) {
                    Ok((rest, q)) => {
                        assert(before + (seq![iv] + rest) =~= before.push(iv) + rest);
                    },
                    Err(_) => {},
                }
            }
        }
        assert(items_view(body@) + Seq::<SpecBlockItem>::empty() =~= items_view(body@));
        self.expect(Token::CloseBrace, ParseContext::FunctionDefinition)?;
        Ok(FunctionDef { name, body })
    }

    fn parse_program(&mut self) -> (res: Result<Program, ParseError>)
        requires
            old(self).pos == 0,
        ensures
            match res {
                Ok(p) => spec_parse(old(self).toks()) == Ok::<SpecProgram, SpecParseError>(p@),
                Err(e) => spec_parse(old(self).toks()) == Err::<SpecProgram, SpecParseError>(e@),
            },
    {
        let function_def = self.parse_function_def()?;
        match self.next() {
            None => Ok(Program { function_def }),
            Some(other) => Err(ParseError::ExpectedEndOfInput(clone_token(other))),
        }
    }
}

/// Parses a whole program: `int name(void) { ... }` and nothing after it.
pub fn parse(tokens: &[Token]) -> (res: Result<Program, ParseError>)
    ensures
        match res {
            Ok(p) => spec_parse(tokens_view(tokens@)) == Ok::<SpecProgram, SpecParseError>(p@),
            Err(e) => spec_parse(tokens_view(tokens@)) == Err::<SpecProgram, SpecParseError>(e@),
        },
{
    let mut parser = Parser { tokens, pos: 0 };
    parser.parse_program()
}

} // verus!
