//! The lexer: turns source text into tokens.

use vstd::prelude::*;
use crate::text::{decimal, digit_char, lemma_decimal_digits, push_char};
use vstd::std_specs::iter::IteratorSpec;

verus! {

/// A token of the source language.
#[derive(Debug, PartialEq, Eq, Clone)]
pub enum Token {
    Identifier(String),
    Constant(u64),
    Int,
    Void,
    Return,
    OpenParen,
    CloseParen,
    OpenBrace,
    CloseBrace,
    Semicolon,
    Complement,
    Negation,
    Increment,
    Decrement,
    Addition,
    Multiplication,
    Division,
    Remainder,
    LeftShift,
    RightShift,
    BitwiseAnd,
    BitwiseXor,
    BitwiseOr,
    Not,
    And,
    Or,
    EqualTo,
    NotEqualTo,
    LessThan,
    GreaterThan,
    LessThanOrEqualTo,
    GreaterThanOrEqualTo,
    Assignment,
    CmpdAddAssn,
    CmpdSubAssn,
    CmpdMulAssn,
    CmpdDivAssn,
    CmpdRemAssn,
    CmpdLShiftAssn,
    CmpdRShiftAssn,
    CmpdBitwiseAndAssn,
    CmpdBitwiseXorAssn,
    CmpdBitwiseOrAssn,
}

/// The mathematical value of a [`Token`]: identifiers hold their characters.
pub enum SpecToken {
    Identifier(Seq<char>),
    Constant(u64),
    Int,
    Void,
    Return,
    OpenParen,
    CloseParen,
    OpenBrace,
    CloseBrace,
    Semicolon,
    Complement,
    Negation,
    Increment,
    Decrement,
    Addition,
    Multiplication,
    Division,
    Remainder,
    LeftShift,
    RightShift,
    BitwiseAnd,
    BitwiseXor,
    BitwiseOr,
    Not,
    And,
    Or,
    EqualTo,
    NotEqualTo,
    LessThan,
    GreaterThan,
    LessThanOrEqualTo,
    GreaterThanOrEqualTo,
    Assignment,
    CmpdAddAssn,
    CmpdSubAssn,
    CmpdMulAssn,
    CmpdDivAssn,
    CmpdRemAssn,
    CmpdLShiftAssn,
    CmpdRShiftAssn,
    CmpdBitwiseAndAssn,
    CmpdBitwiseXorAssn,
    CmpdBitwiseOrAssn,
}

impl View for Token {
    type V = SpecToken;

    open spec fn view(&self) -> SpecToken {
        match self {
            Token::Identifier(s) => SpecToken::Identifier(s@),
            Token::Constant(v) => SpecToken::Constant(*v),
            Token::Int => SpecToken::Int,
            Token::Void => SpecToken::Void,
            Token::Return => SpecToken::Return,
            Token::OpenParen => SpecToken::OpenParen,
            Token::CloseParen => SpecToken::CloseParen,
            Token::OpenBrace => SpecToken::OpenBrace,
            Token::CloseBrace => SpecToken::CloseBrace,
            Token::Semicolon => SpecToken::Semicolon,
            Token::Complement => SpecToken::Complement,
            Token::Negation => SpecToken::Negation,
            Token::Increment => SpecToken::Increment,
            Token::Decrement => SpecToken::Decrement,
            Token::Addition => SpecToken::Addition,
            Token::Multiplication => SpecToken::Multiplication,
            Token::Division => SpecToken::Division,
            Token::Remainder => SpecToken::Remainder,
            Token::LeftShift => SpecToken::LeftShift,
            Token::RightShift => SpecToken::RightShift,
            Token::BitwiseAnd => SpecToken::BitwiseAnd,
            Token::BitwiseXor => SpecToken::BitwiseXor,
            Token::BitwiseOr => SpecToken::BitwiseOr,
            Token::Not => SpecToken::Not,
            Token::And => SpecToken::And,
            Token::Or => SpecToken::Or,
            Token::EqualTo => SpecToken::EqualTo,
            Token::NotEqualTo => SpecToken::NotEqualTo,
            Token::LessThan => SpecToken::LessThan,
            Token::GreaterThan => SpecToken::GreaterThan,
            Token::LessThanOrEqualTo => SpecToken::LessThanOrEqualTo,
            Token::GreaterThanOrEqualTo => SpecToken::GreaterThanOrEqualTo,
            Token::Assignment => SpecToken::Assignment,
            Token::CmpdAddAssn => SpecToken::CmpdAddAssn,
            Token::CmpdSubAssn => SpecToken::CmpdSubAssn,
            Token::CmpdMulAssn => SpecToken::CmpdMulAssn,
            Token::CmpdDivAssn => SpecToken::CmpdDivAssn,
            Token::CmpdRemAssn => SpecToken::CmpdRemAssn,
            Token::CmpdLShiftAssn => SpecToken::CmpdLShiftAssn,
            Token::CmpdRShiftAssn => SpecToken::CmpdRShiftAssn,
            Token::CmpdBitwiseAndAssn => SpecToken::CmpdBitwiseAndAssn,
            Token::CmpdBitwiseXorAssn => SpecToken::CmpdBitwiseXorAssn,
            Token::CmpdBitwiseOrAssn => SpecToken::CmpdBitwiseOrAssn,
        }
    }
}

/// Copies a token; the copy has the same value.
pub fn clone_token(t: &Token) -> (res: Token)
    ensures
        res@ == t@,
{
    match t {
        Token::Identifier(s) => Token::Identifier(s.clone()),
        Token::Constant(v) => Token::Constant(*v),
        Token::Int => Token::Int,
        Token::Void => Token::Void,
        Token::Return => Token::Return,
        Token::OpenParen => Token::OpenParen,
        Token::CloseParen => Token::CloseParen,
        Token::OpenBrace => Token::OpenBrace,
        Token::CloseBrace => Token::CloseBrace,
        Token::Semicolon => Token::Semicolon,
        Token::Complement => Token::Complement,
        Token::Negation => Token::Negation,
        Token::Increment => Token::Increment,
        Token::Decrement => Token::Decrement,
        Token::Addition => Token::Addition,
        Token::Multiplication => Token::Multiplication,
        Token::Division => Token::Division,
        Token::Remainder => Token::Remainder,
        Token::LeftShift => Token::LeftShift,
        Token::RightShift => Token::RightShift,
        Token::BitwiseAnd => Token::BitwiseAnd,
        Token::BitwiseXor => Token::BitwiseXor,
        Token::BitwiseOr => Token::BitwiseOr,
        Token::Not => Token::Not,
        Token::And => Token::And,
        Token::Or => Token::Or,
        Token::EqualTo => Token::EqualTo,
        Token::NotEqualTo => Token::NotEqualTo,
        Token::LessThan => Token::LessThan,
        Token::GreaterThan => Token::GreaterThan,
        Token::LessThanOrEqualTo => Token::LessThanOrEqualTo,
        Token::GreaterThanOrEqualTo => Token::GreaterThanOrEqualTo,
        Token::Assignment => Token::Assignment,
        Token::CmpdAddAssn => Token::CmpdAddAssn,
        Token::CmpdSubAssn => Token::CmpdSubAssn,
        Token::CmpdMulAssn => Token::CmpdMulAssn,
        Token::CmpdDivAssn => Token::CmpdDivAssn,
        Token::CmpdRemAssn => Token::CmpdRemAssn,
        Token::CmpdLShiftAssn => Token::CmpdLShiftAssn,
        Token::CmpdRShiftAssn => Token::CmpdRShiftAssn,
        Token::CmpdBitwiseAndAssn => Token::CmpdBitwiseAndAssn,
        Token::CmpdBitwiseXorAssn => Token::CmpdBitwiseXorAssn,
        Token::CmpdBitwiseOrAssn => Token::CmpdBitwiseOrAssn,
    }
}

/// The values of a sequence of tokens.
pub open spec fn tokens_view(ts: Seq<Token>) -> Seq<SpecToken> {
    ts.map_values(|t: Token| t@)
}

/// Why a text cannot be lexed.
#[derive(Debug, PartialEq, Eq, Clone)]
pub enum LexError {
    /// A run of digits directly followed by a letter (the text up to and
    /// including that letter).
    InvalidConstant(String),
    /// A run of digits whose value does not fit in 64 bits.
    ConstantOutOfRange(String),
    /// A character that starts no token.
    InvalidCharacter(char),
}

/// The mathematical value of a [`LexError`].
pub enum SpecLexError {
    InvalidConstant(Seq<char>),
    ConstantOutOfRange(Seq<char>),
    InvalidCharacter(char),
}

impl View for LexError {
    type V = SpecLexError;

    open spec fn view(&self) -> SpecLexError {
        match self {
            LexError::InvalidConstant(s) => SpecLexError::InvalidConstant(s@),
            LexError::ConstantOutOfRange(s) => SpecLexError::ConstantOutOfRange(s@),
            LexError::InvalidCharacter(c) => SpecLexError::InvalidCharacter(*c),
        }
    }
}


// ---------------------------------------------------------------------
// Character classes
// ---------------------------------------------------------------------

/// Unicode white space (the characters for which `char::is_whitespace`
/// holds): U+0009 to U+000D, U+0020, U+0085, U+00A0, U+1680, U+2000 to
/// U+200A, U+2028, U+2029, U+202F, U+205F and U+3000.
pub open spec fn is_white(c: char) -> bool {
    let u = c as u32;
    ||| 0x09 <= u <= 0x0d
    ||| u == 0x20
    ||| u == 0x85
    ||| u == 0xa0
    ||| u == 0x1680
    ||| 0x2000 <= u <= 0x200a
    ||| u == 0x2028
    ||| u == 0x2029
    ||| u == 0x202f
    ||| u == 0x205f
    ||| u == 0x3000
}

/// An ASCII letter.
pub open spec fn is_ascii_letter(c: char) -> bool {
    ('a' <= c <= 'z') || ('A' <= c <= 'Z')
}

/// An ASCII decimal digit.
pub open spec fn is_ascii_digit(c: char) -> bool {
    '0' <= c <= '9'
}

/// A character that may start an identifier or keyword.
pub open spec fn is_word_start(c: char) -> bool {
    is_ascii_letter(c) || c == '_'
}

/// A character that may continue an identifier or keyword.
pub open spec fn is_word_char(c: char) -> bool {
    is_ascii_letter(c) || is_ascii_digit(c) || c == '_'
}

fn white(c: char) -> (b: bool)
    ensures
        b == is_white(c),
{
    let u = c as u32;
    (0x09 <= u && u <= 0x0d) || u == 0x20 || u == 0x85 || u == 0xa0 || u == 0x1680 || (0x2000 <= u
        && u <= 0x200a) || u == 0x2028 || u == 0x2029 || u == 0x202f || u == 0x205f || u == 0x3000
}

fn letter(c: char) -> (b: bool)
    ensures
        b == is_ascii_letter(c),
{
    ('a' <= c && c <= 'z') || ('A' <= c && c <= 'Z')
}

fn digit(c: char) -> (b: bool)
    ensures
        b == is_ascii_digit(c),
{
    '0' <= c && c <= '9'
}

// ---------------------------------------------------------------------
// The lexical grammar
// ---------------------------------------------------------------------

/// The character at `i`, if there is one.
pub open spec fn char_at(s: Seq<char>, i: int) -> Option<char> {
    if 0 <= i < s.len() {
        Some(s[i])
    } else {
        None
    }
}

/// The end of the longest run of word characters that starts at `i`.
pub open spec fn word_end(s: Seq<char>, i: int) -> int
    decreases s.len() - i,
{
    if 0 <= i < s.len() && is_word_char(s[i]) {
        word_end(s, i + 1)
    } else {
        i
    }
}

/// The end of the longest run of decimal digits that starts at `i`.
pub open spec fn digits_end(s: Seq<char>, i: int) -> int
    decreases s.len() - i,
{
    if 0 <= i < s.len() && is_ascii_digit(s[i]) {
        digits_end(s, i + 1)
    } else {
        i
    }
}

/// The number that a run of decimal digits denotes.
pub open spec fn digits_value(d: Seq<char>) -> nat
    decreases d.len(),
{
    if d.len() == 0 {
        0
    } else {
        digits_value(d.drop_last()) * 10 + ((d.last() as int - 48) as nat)
    }
}

/// The token of a word: a keyword, or else an identifier.
pub open spec fn word_token(w: Seq<char>) -> SpecToken {
    if w == seq!['i', 'n', 't'] {
        SpecToken::Int
    } else if w == seq!['v', 'o', 'i', 'd'] {
        SpecToken::Void
    } else if w == seq!['r', 'e', 't', 'u', 'r', 'n'] {
        SpecToken::Return
    } else {
        SpecToken::Identifier(w)
    }
}

/// The punctuation or operator token that starts at `i` (the longest one
/// that matches there), with its width in characters.
pub open spec fn operator_at(s: Seq<char>, i: int) -> Option<(SpecToken, int)> {
    let c = s[i];
    let n1 = char_at(s, i + 1);
    let n2 = char_at(s, i + 2);
    if c == '-' {
        if n1 == Some('-') {
            Some((SpecToken::Decrement, 2))
        } else if n1 == Some('=') {
            Some((SpecToken::CmpdSubAssn, 2))
        } else {
            Some((SpecToken::Negation, 1))
        }
    } else if c == '+' {
        if n1 == Some('+') {
            Some((SpecToken::Increment, 2))
        } else if n1 == Some('=') {
            Some((SpecToken::CmpdAddAssn, 2))
        } else {
            Some((SpecToken::Addition, 1))
        }
    } else if c == '*' {
        if n1 == Some('=') {
            Some((SpecToken::CmpdMulAssn, 2))
        } else {
            Some((SpecToken::Multiplication, 1))
        }
    } else if c == '/' {
        if n1 == Some('=') {
            Some((SpecToken::CmpdDivAssn, 2))
        } else {
            Some((SpecToken::Division, 1))
        }
    } else if c == '%' {
        if n1 == Some('=') {
            Some((SpecToken::CmpdRemAssn, 2))
        } else {
            Some((SpecToken::Remainder, 1))
        }
    } else if c == '<' {
        if n1 == Some('<') {
            if n2 == Some('=') {
                Some((SpecToken::CmpdLShiftAssn, 3))
            } else {
                Some((SpecToken::LeftShift, 2))
            }
        } else if n1 == Some('=') {
            Some((SpecToken::LessThanOrEqualTo, 2))
        } else {
            Some((SpecToken::LessThan, 1))
        }
    } else if c == '>' {
        if n1 == Some('>') {
            if n2 == Some('=') {
                Some((SpecToken::CmpdRShiftAssn, 3))
            } else {
                Some((SpecToken::RightShift, 2))
            }
        } else if n1 == Some('=') {
            Some((SpecToken::GreaterThanOrEqualTo, 2))
        } else {
            Some((SpecToken::GreaterThan, 1))
        }
    } else if c == '&' {
        if n1 == Some('&') {
            Some((SpecToken::And, 2))
        } else if n1 == Some('=') {
            Some((SpecToken::CmpdBitwiseAndAssn, 2))
        } else {
            Some((SpecToken::BitwiseAnd, 1))
        }
    } else if c == '^' {
        if n1 == Some('=') {
            Some((SpecToken::CmpdBitwiseXorAssn, 2))
        } else {
            Some((SpecToken::BitwiseXor, 1))
        }
    } else if c == '|' {
        if n1 == Some('|') {
            Some((SpecToken::Or, 2))
        } else if n1 == Some('=') {
            Some((SpecToken::CmpdBitwiseOrAssn, 2))
        } else {
            Some((SpecToken::BitwiseOr, 1))
        }
    } else if c == '!' {
        if n1 == Some('=') {
            Some((SpecToken::NotEqualTo, 2))
        } else {
            Some((SpecToken::Not, 1))
        }
    } else if c == '~' {
        Some((SpecToken::Complement, 1))
    } else if c == '=' {
        if n1 == Some('=') {
            Some((SpecToken::EqualTo, 2))
        } else {
            Some((SpecToken::Assignment, 1))
        }
    } else if c == '(' {
        Some((SpecToken::OpenParen, 1))
    } else if c == ')' {
        Some((SpecToken::CloseParen, 1))
    } else if c == '{' {
        Some((SpecToken::OpenBrace, 1))
    } else if c == '}' {
        Some((SpecToken::CloseBrace, 1))
    } else if c == ';' {
        Some((SpecToken::Semicolon, 1))
    } else {
        None
    }
}

/// An operator token is one to three characters wide.
pub proof fn lemma_operator_width(s: Seq<char>, i: int)
    ensures
        operator_at(s, i) matches Some((_, w)) ==> 1 <= w <= 3,
{
}

/// `t` in front of the tokens of `r`, or the error of `r`.
pub open spec fn prepend(t: SpecToken, r: Result<Seq<SpecToken>, SpecLexError>) -> Result<
    Seq<SpecToken>,
    SpecLexError,
> {
    match r {
        Ok(ts) => Ok(seq![t] + ts),
        Err(e) => Err(e),
    }
}

/// A run of word characters ends inside the text, after its start, at a
/// character that is not a word character.
pub proof fn lemma_word_end_bounds(s: Seq<char>, i: int)
    requires
        0 <= i <= s.len(),
    ensures
        i <= word_end(s, i) <= s.len(),
        forall|k: int| i <= k < word_end(s, i) ==> is_word_char(#[trigger] s[k]),
        word_end(s, i) < s.len() ==> !is_word_char(s[word_end(s, i)]),
    decreases s.len() - i,
{
    if i < s.len() && is_word_char(s[i]) {
        lemma_word_end_bounds(s, i + 1);
    }
}

/// A run of digits ends inside the text, after its start, at a character
/// that is not a digit.
pub proof fn lemma_digits_end_bounds(s: Seq<char>, i: int)
    requires
        0 <= i <= s.len(),
    ensures
        i <= digits_end(s, i) <= s.len(),
        forall|k: int| i <= k < digits_end(s, i) ==> is_ascii_digit(#[trigger] s[k]),
        digits_end(s, i) < s.len() ==> !is_ascii_digit(s[digits_end(s, i)]),
    decreases s.len() - i,
{
    if i < s.len() && is_ascii_digit(s[i]) {
        lemma_digits_end_bounds(s, i + 1);
    }
}

/// The tokens of `s` from position `i` on, or the first lexical error
/// there. White space separates tokens; words and digit runs are read as
/// far as they go; operators are read greedily.
pub open spec fn lex_from(s: Seq<char>, i: int) -> Result<Seq<SpecToken>, SpecLexError>
    decreases s.len() - i,
{
    if i < 0 || i >= s.len() {
        Ok(seq![])
    } else {
        let c = s[i];
        if is_white(c) {
            lex_from(s, i + 1)
        } else if is_word_start(c) {
            let j = word_end(s, i + 1);
            proof {
                lemma_word_end_bounds(s, i + 1);
            }
            prepend(word_token(s.subrange(i, j)), lex_from(s, j))
        } else if is_ascii_digit(c) {
            let j = digits_end(s, i + 1);
            proof {
                lemma_digits_end_bounds(s, i + 1);
            }
            if j < s.len() && is_ascii_letter(s[j]) {
                Err(SpecLexError::InvalidConstant(s.subrange(i, j + 1)))
            } else if digits_value(s.subrange(i, j)) > u64::MAX {
                Err(SpecLexError::ConstantOutOfRange(s.subrange(i, j)))
            } else {
                prepend(
                    SpecToken::Constant(digits_value(s.subrange(i, j)) as u64),
                    lex_from(s, j),
                )
            }
        } else {
            match operator_at(s, i) {
                Some((t, w)) => {
                    proof {
                        lemma_operator_width(s, i);
                    }
                    prepend(t, lex_from(s, i + w))
                },
                None => Err(SpecLexError::InvalidCharacter(c)),
            }
        }
    }
}

/// The tokens of the text `s`, or the first lexical error in it.
pub open spec fn spec_lex(s: Seq<char>) -> Result<Seq<SpecToken>, SpecLexError> {
    lex_from(s, 0)
}


// ---------------------------------------------------------------------
// The lexer
// ---------------------------------------------------------------------

/// The tokens `prefix` in front of those of `r`, or the error of `r`.
pub open spec fn after_prefix(prefix: Seq<SpecToken>, r: Result<Seq<SpecToken>, SpecLexError>) -> Result<
    Seq<SpecToken>,
    SpecLexError,
> {
    match r {
        Ok(ts) => Ok(prefix + ts),
        Err(e) => Err(e),
    }
}

/// The value of a lexing result.
pub open spec fn lex_result_view(r: Result<Vec<Token>, LexError>) -> Result<Seq<SpecToken>, SpecLexError> {
    match r {
        Ok(ts) => Ok(tokens_view(ts@)),
        Err(e) => Err(e@),
    }
}

fn text_chars(text: &str) -> (cs: Vec<char>)
    ensures
        cs@ == text@,
{
    broadcast use vstd::string::axiom_spec_iter;

    let mut cs: Vec<char> = Vec::new();
    let mut it = text.chars();
    loop
        invariant
            cs@ + it.remaining() == text@,
            it.decrease() is Some,
        ensures
            cs@ == text@,
        decreases it.decrease()->0,
    {
        match it.next() {
            Some(c) => {
                cs.push(c);
            },
            None => {
                assert(cs@ =~= text@);
                break ;
            },
        }
    }
    cs
}

fn scan_word(cs: &Vec<char>, i: usize) -> (j: usize)
    requires
        i <= cs.len(),
    ensures
        j == word_end(cs@, i as int),
        i <= j <= cs.len(),
    decreases cs.len() - i,
{
    if i < cs.len() && (letter(cs[i]) || digit(cs[i]) || cs[i] == '_') {
        scan_word(cs, i + 1)
    } else {
        i
    }
}

fn scan_digits(cs: &Vec<char>, i: usize) -> (j: usize)
    requires
        i <= cs.len(),
    ensures
        j == digits_end(cs@, i as int),
        i <= j <= cs.len(),
    decreases cs.len() - i,
{
    if i < cs.len() && digit(cs[i]) {
        scan_digits(cs, i + 1)
    } else {
        i
    }
}

fn string_of(cs: &Vec<char>, i: usize, j: usize) -> (s: String)
    requires
        i <= j <= cs.len(),
    ensures
        s@ == cs@.subrange(i as int, j as int),
{
    let mut s = String::new();
    let mut k = i;
    while k < j
        invariant
            i <= k <= j <= cs.len(),
            s@ == cs@.subrange(i as int, k as int),
        decreases j - k,
    {
        push_char(&mut s, cs[k]);
        k = k + 1;
        assert(s@ =~= cs@.subrange(i as int, k as int));
    }
    s
}

fn word(cs: &Vec<char>, i: usize, j: usize) -> (t: Token)
    requires
        i <= j <= cs.len(),
    ensures
        t@ == word_token(cs@.subrange(i as int, j as int)),
{
    let ghost w = cs@.subrange(i as int, j as int);
    if j - i == 3 && cs[i] == 'i' && cs[i + 1] == 'n' && cs[i + 2] == 't' {
        assert(w =~= seq!['i', 'n', 't']);
        Token::Int
    } else if j - i == 4 && cs[i] == 'v' && cs[i + 1] == 'o' && cs[i + 2] == 'i' && cs[i + 3]
        == 'd' {
        assert(w =~= seq!['v', 'o', 'i', 'd']);
        Token::Void
    } else if j - i == 6 && cs[i] == 'r' && cs[i + 1] == 'e' && cs[i + 2] == 't' && cs[i + 3]
        == 'u' && cs[i + 4] == 'r' && cs[i + 5] == 'n' {
        assert(w =~= seq!['r', 'e', 't', 'u', 'r', 'n']);
        Token::Return
    } else {
        assert(w.len() == 3 ==> (w[0] != 'i' || w[1] != 'n' || w[2] != 't'));
        assert(w.len() == 4 ==> (w[0] != 'v' || w[1] != 'o' || w[2] != 'i' || w[3] != 'd'));
        assert(w.len() == 6 ==> (w[0] != 'r' || w[1] != 'e' || w[2] != 't' || w[3] != 'u' || w[4]
            != 'r' || w[5] != 'n'));
        Token::Identifier(string_of(cs, i, j))
    }
}

proof fn lemma_digits_value_push(d: Seq<char>, c: char)
    ensures
        digits_value(d.push(c)) == digits_value(d) * 10 + ((c as int - 48) as nat),
{
    assert(d.push(c).drop_last() =~= d);
}

/// The number that the digits `cs[i..j]` denote, when it fits in 64 bits.
fn digits_number(cs: &Vec<char>, i: usize, j: usize) -> (r: Option<u64>)
    requires
        i <= j <= cs.len(),
        forall|k: int| i <= k < j ==> is_ascii_digit(#[trigger] cs@[k]),
    ensures
        r matches Some(v) ==> v == digits_value(cs@.subrange(i as int, j as int)),
        r is None <==> digits_value(cs@.subrange(i as int, j as int)) > u64::MAX,
{
    let mut v: u64 = 0;
    let mut overflow = false;
    let mut k = i;
    assert(cs@.subrange(i as int, i as int) =~= Seq::<char>::empty());
    while k < j
        invariant
            i <= k <= j <= cs.len(),
            forall|m: int| i <= m < j ==> is_ascii_digit(#[trigger] cs@[m]),
            !overflow ==> v == digits_value(cs@.subrange(i as int, k as int)),
            overflow ==> digits_value(cs@.subrange(i as int, k as int)) > u64::MAX,
        decreases j - k,
    {
        let c = cs[k];
        assert(is_ascii_digit(cs@[k as int]));
        let d: u64 = ((c as u32) - 48) as u64;
        proof {
            assert(cs@.subrange(i as int, k + 1) =~= cs@.subrange(i as int, k as int).push(c));
            lemma_digits_value_push(cs@.subrange(i as int, k as int), c);
        }
        if !overflow {
            if v > (u64::MAX - d) / 10 {
                overflow = true;
                assert(v * 10 + d > u64::MAX) by (nonlinear_arith)
                    requires
                        v > (u64::MAX - d) / 10,
                        d <= 9,
                ;
            } else {
                assert(v * 10 + d <= u64::MAX) by (nonlinear_arith)
                    requires
                        v <= (u64::MAX - d) / 10,
                        d <= 9,
                ;
                v = v * 10 + d;
            }
        }
        k = k + 1;
    }
    if overflow {
        None
    } else {
        Some(v)
    }
}

fn peek_char(cs: &Vec<char>, i: usize) -> (r: Option<char>)
    ensures
        r == char_at(cs@, i as int),
{
    if i < cs.len() {
        Some(cs[i])
    } else {
        None
    }
}

/// Reads the punctuation or operator token at `i`.
fn operator(cs: &Vec<char>, i: usize) -> (r: Option<(Token, usize)>)
    requires
        i < cs.len(),
    ensures
        match r {
            Some((t, w)) => operator_at(cs@, i as int) == Some((t@, w as int)),
            None => operator_at(cs@, i as int) is None,
        },
{
    let c = cs[i];
    let n1 = peek_char(cs, i + 1);
    let n2 = if i + 1 < cs.len() {
        peek_char(cs, i + 2)
    } else {
        None
    };
    if c == '-' {
        if n1 == Some('-') {
            Some((Token::Decrement, 2))
        } else if n1 == Some('=') {
            Some((Token::CmpdSubAssn, 2))
        } else {
            Some((Token::Negation, 1))
        }
    } else if c == '+' {
        if n1 == Some('+') {
            Some((Token::Increment, 2))
        } else if n1 == Some('=') {
            Some((Token::CmpdAddAssn, 2))
        } else {
            Some((Token::Addition, 1))
        }
    } else if c == '*' {
        if n1 == Some('=') {
            Some((Token::CmpdMulAssn, 2))
        } else {
            Some((Token::Multiplication, 1))
        }
    } else if c == '/' {
        if n1 == Some('=') {
            Some((Token::CmpdDivAssn, 2))
        } else {
            Some((Token::Division, 1))
        }
    } else if c == '%' {
        if n1 == Some('=') {
            Some((Token::CmpdRemAssn, 2))
        } else {
            Some((Token::Remainder, 1))
        }
    } else if c == '<' {
        if n1 == Some('<') {
            if n2 == Some('=') {
                Some((Token::CmpdLShiftAssn, 3))
            } else {
                Some((Token::LeftShift, 2))
            }
        } else if n1 == Some('=') {
            Some((Token::LessThanOrEqualTo, 2))
        } else {
            Some((Token::LessThan, 1))
        }
    } else if c == '>' {
        if n1 == Some('>') {
            if n2 == Some('=') {
                Some((Token::CmpdRShiftAssn, 3))
            } else {
                Some((Token::RightShift, 2))
            }
        } else if n1 == Some('=') {
            Some((Token::GreaterThanOrEqualTo, 2))
        } else {
            Some((Token::GreaterThan, 1))
        }
    } else if c == '&' {
        if n1 == Some('&') {
            Some((Token::And, 2))
        } else if n1 == Some('=') {
            Some((Token::CmpdBitwiseAndAssn, 2))
        } else {
            Some((Token::BitwiseAnd, 1))
        }
    } else if c == '^' {
        if n1 == Some('=') {
            Some((Token::CmpdBitwiseXorAssn, 2))
        } else {
            Some((Token::BitwiseXor, 1))
        }
    } else if c == '|' {
        if n1 == Some('|') {
            Some((Token::Or, 2))
        } else if n1 == Some('=') {
            Some((Token::CmpdBitwiseOrAssn, 2))
        } else {
            Some((Token::BitwiseOr, 1))
        }
    } else if c == '!' {
        if n1 == Some('=') {
            Some((Token::NotEqualTo, 2))
        } else {
            Some((Token::Not, 1))
        }
    } else if c == '~' {
        Some((Token::Complement, 1))
    } else if c == '=' {
        if n1 == Some('=') {
            Some((Token::EqualTo, 2))
        } else {
            Some((Token::Assignment, 1))
        }
    } else if c == '(' {
        Some((Token::OpenParen, 1))
    } else if c == ')' {
        Some((Token::CloseParen, 1))
    } else if c == '{' {
        Some((Token::OpenBrace, 1))
    } else if c == '}' {
        Some((Token::CloseBrace, 1))
    } else if c == ';' {
        Some((Token::Semicolon, 1))
    } else {
        None
    }
}

/// Splits a source text into tokens.
///
/// White space separates tokens and is dropped. A word (a letter or `_`,
/// then letters, digits and `_`) is the keyword `int`, `void` or `return`,
/// or else an identifier. A run of digits is a constant; it is an error
/// when a letter follows it directly, or when its value does not fit in
/// 64 bits. Operators are read greedily (`<<=` before `<<` before `<`).
/// Any other character is an error.
pub fn lex(text: &str) -> (res: Result<Vec<Token>, LexError>)
    ensures
        lex_result_view(res) == spec_lex(text@),
{
    let cs = text_chars(text);
    let ghost s = cs@;
    let n = cs.len();
    let mut tokens: Vec<Token> = Vec::new();
    let mut i: usize = 0;
    while i < n
        invariant
            s == cs@,
            s == text@,
            n == s.len(),
            i <= n,
            spec_lex(s) == after_prefix(tokens_view(tokens@), lex_from(s, i as int)),
        decreases n - i,
    {
        let ghost before = tokens_view(tokens@);
        let c = cs[i];
        if white(c) {
            i = i + 1;
        } else if letter(c) || c == '_' {
            let j = scan_word(&cs, i + 1);
            let t = word(&cs, i, j);
            tokens.push(t);
            proof {
                assert(tokens_view(tokens@) =~= before.push(t@));
                match lex_from(s, j as int) {
                    Ok(ts) => {
                        assert(before + (seq![t@] + ts) =~= before.push(t@) + ts);
                    },
                    Err(_) => {},
                }
            }
            i = j;
        } else if digit(c) {
            let j = scan_digits(&cs, i + 1);
            proof {
                lemma_digits_end_bounds(s, i + 1);
            }
            if j < n && letter(cs[j]) {
                assert(lex_from(s, i as int) == Err::<Seq<SpecToken>, SpecLexError>(
                    SpecLexError::InvalidConstant(s.subrange(i as int, j + 1)),
                ));
                return Err(LexError::InvalidConstant(string_of(&cs, i, j + 1)));
            }
            match digits_number(&cs, i, j) {
                None => {
                    return Err(LexError::ConstantOutOfRange(string_of(&cs, i, j)));
                },
                Some(v) => {
                    let t = Token::Constant(v);
                    tokens.push(t);
                    proof {
                        assert(tokens_view(tokens@) =~= before.push(t@));
                        match lex_from(s, j as int) {
                            Ok(ts) => {
                                assert(before + (seq![t@] + ts) =~= before.push(t@) + ts);
                            },
                            Err(_) => {},
                        }
                    }
                    i = j;
                },
            }
        } else {
            match operator(&cs, i) {
                Some((t, w)) => {
                    let ghost tv = t@;
                    tokens.push(t);
                    proof {
                        assert(tokens_view(tokens@) =~= before.push(tv));
                        match lex_from(s, i + w) {
                            Ok(ts) => {
                                assert(before + (seq![tv] + ts) =~= before.push(tv) + ts);
                            },
                            Err(_) => {},
                        }
                    }
                    i = i + w;
                },
                None => {
                    assert(lex_from(s, i as int) == Err::<Seq<SpecToken>, SpecLexError>(
                        SpecLexError::InvalidCharacter(c),
                    ));
                    return Err(LexError::InvalidCharacter(c));
                },
            }
        }
    }
    proof {
        assert(tokens_view(tokens@) + Seq::<SpecToken>::empty() =~= tokens_view(tokens@));
    }
    Ok(tokens)
}


/// A number that tells the kinds of tokens apart.
pub open spec fn kind_code(t: SpecToken) -> u8 {
    match t {
        SpecToken::Identifier(_) => 0,
        SpecToken::Constant(_) => 1,
        SpecToken::Int => 2,
        SpecToken::Void => 3,
        SpecToken::Return => 4,
        SpecToken::OpenParen => 5,
        SpecToken::CloseParen => 6,
        SpecToken::OpenBrace => 7,
        SpecToken::CloseBrace => 8,
        SpecToken::Semicolon => 9,
        SpecToken::Complement => 10,
        SpecToken::Negation => 11,
        SpecToken::Increment => 12,
        SpecToken::Decrement => 13,
        SpecToken::Addition => 14,
        SpecToken::Multiplication => 15,
        SpecToken::Division => 16,
        SpecToken::Remainder => 17,
        SpecToken::LeftShift => 18,
        SpecToken::RightShift => 19,
        SpecToken::BitwiseAnd => 20,
        SpecToken::BitwiseXor => 21,
        SpecToken::BitwiseOr => 22,
        SpecToken::Not => 23,
        SpecToken::And => 24,
        SpecToken::Or => 25,
        SpecToken::EqualTo => 26,
        SpecToken::NotEqualTo => 27,
        SpecToken::LessThan => 28,
        SpecToken::GreaterThan => 29,
        SpecToken::LessThanOrEqualTo => 30,
        SpecToken::GreaterThanOrEqualTo => 31,
        SpecToken::Assignment => 32,
        SpecToken::CmpdAddAssn => 33,
        SpecToken::CmpdSubAssn => 34,
        SpecToken::CmpdMulAssn => 35,
        SpecToken::CmpdDivAssn => 36,
        SpecToken::CmpdRemAssn => 37,
        SpecToken::CmpdLShiftAssn => 38,
        SpecToken::CmpdRShiftAssn => 39,
        SpecToken::CmpdBitwiseAndAssn => 40,
        SpecToken::CmpdBitwiseXorAssn => 41,
        SpecToken::CmpdBitwiseOrAssn => 42,
    }
}

fn kind(t: &Token) -> (k: u8)
    ensures
        k == kind_code(t@),
{
    match t {
        Token::Identifier(_) => 0,
        Token::Constant(_) => 1,
        Token::Int => 2,
        Token::Void => 3,
        Token::Return => 4,
        Token::OpenParen => 5,
        Token::CloseParen => 6,
        Token::OpenBrace => 7,
        Token::CloseBrace => 8,
        Token::Semicolon => 9,
        Token::Complement => 10,
        Token::Negation => 11,
        Token::Increment => 12,
        Token::Decrement => 13,
        Token::Addition => 14,
        Token::Multiplication => 15,
        Token::Division => 16,
        Token::Remainder => 17,
        Token::LeftShift => 18,
        Token::RightShift => 19,
        Token::BitwiseAnd => 20,
        Token::BitwiseXor => 21,
        Token::BitwiseOr => 22,
        Token::Not => 23,
        Token::And => 24,
        Token::Or => 25,
        Token::EqualTo => 26,
        Token::NotEqualTo => 27,
        Token::LessThan => 28,
        Token::GreaterThan => 29,
        Token::LessThanOrEqualTo => 30,
        Token::GreaterThanOrEqualTo => 31,
        Token::Assignment => 32,
        Token::CmpdAddAssn => 33,
        Token::CmpdSubAssn => 34,
        Token::CmpdMulAssn => 35,
        Token::CmpdDivAssn => 36,
        Token::CmpdRemAssn => 37,
        Token::CmpdLShiftAssn => 38,
        Token::CmpdRShiftAssn => 39,
        Token::CmpdBitwiseAndAssn => 40,
        Token::CmpdBitwiseXorAssn => 41,
        Token::CmpdBitwiseOrAssn => 42,
    }
}

proof fn lemma_kind_code_injective(a: SpecToken, b: SpecToken)
    requires
        kind_code(a) == kind_code(b),
        !(a is Identifier),
        !(a is Constant),
    ensures
        a == b,
{
}

/// Whether two tokens are equal.
pub fn same_token(a: &Token, b: &Token) -> (r: bool)
    ensures
        r == (a@ == b@),
{
    match (a, b) {
        (Token::Identifier(x), Token::Identifier(y)) => {
            let r = *x == *y;
            assert(r == (x@ == y@));
            r
        },
        (Token::Constant(x), Token::Constant(y)) => {
            let r = *x == *y;
            assert(r == (a@ == b@));
            r
        },
        _ => {
            let r = kind(a) == kind(b) && kind(a) > 1;
            proof {
                if kind_code(a@) == kind_code(b@) && kind_code(a@) > 1 {
                    lemma_kind_code_injective(a@, b@);
                }
            }
            r
        },
    }
}


// ---------------------------------------------------------------------
// Properties of the lexer
// ---------------------------------------------------------------------

/// The tokens of `r` in front of those of `rest`, or the first error.
pub open spec fn join_lex(
    r: Result<Seq<SpecToken>, SpecLexError>,
    rest: Result<Seq<SpecToken>, SpecLexError>,
) -> Result<Seq<SpecToken>, SpecLexError> {
    match r {
        Ok(x) => after_prefix(x, rest),
        Err(e) => Err(e),
    }
}

/// `s` extends `a` with a white-space character.
pub open spec fn extends_with_white(a: Seq<char>, s: Seq<char>) -> bool {
    &&& a.len() < s.len()
    &&& forall|m: int| 0 <= m < a.len() ==> #[trigger] s[m] == a[m]
    &&& is_white(s[a.len() as int])
}

proof fn lemma_white_is_no_operator_char(c: char)
    requires
        is_white(c),
    ensures
        !is_word_char(c),
        !is_ascii_digit(c),
        !is_ascii_letter(c),
        c != '-' && c != '=' && c != '+' && c != '<' && c != '>' && c != '&' && c != '|',
{
}

proof fn lemma_word_end_prefix(a: Seq<char>, s: Seq<char>, k: int)
    requires
        extends_with_white(a, s),
        0 <= k <= a.len(),
    ensures
        word_end(s, k) == word_end(a, k),
    decreases a.len() - k,
{
    lemma_white_is_no_operator_char(s[a.len() as int]);
    if k < a.len() {
        lemma_word_end_prefix(a, s, k + 1);
    }
}

proof fn lemma_digits_end_prefix(a: Seq<char>, s: Seq<char>, k: int)
    requires
        extends_with_white(a, s),
        0 <= k <= a.len(),
    ensures
        digits_end(s, k) == digits_end(a, k),
    decreases a.len() - k,
{
    lemma_white_is_no_operator_char(s[a.len() as int]);
    if k < a.len() {
        lemma_digits_end_prefix(a, s, k + 1);
    }
}

proof fn lemma_prepend_join(
    t: SpecToken,
    r: Result<Seq<SpecToken>, SpecLexError>,
    rest: Result<Seq<SpecToken>, SpecLexError>,
)
    ensures
        prepend(t, join_lex(r, rest)) == join_lex(prepend(t, r), rest),
{
    if let Ok(x) = r {
        if let Ok(y) = rest {
            assert(seq![t] + (x + y) =~= (seq![t] + x) + y);
        }
    }
}

/// Lexing `s`, which extends `a` with white space, gives up to the end of
/// `a` what lexing `a` gives.
proof fn lemma_lex_prefix(a: Seq<char>, s: Seq<char>, i: int)
    requires
        extends_with_white(a, s),
        0 <= i <= a.len(),
    ensures
        lex_from(s, i) == join_lex(lex_from(a, i), lex_from(s, a.len() as int)),
    decreases a.len() - i,
{
    let n = a.len() as int;
    lemma_white_is_no_operator_char(s[n]);
    if i == n {
        if let Ok(y) = lex_from(s, n) {
            assert(Seq::<SpecToken>::empty() + y =~= y);
        }
    } else {
        let c = s[i];
        assert(c == a[i]);
        if is_white(c) {
            lemma_lex_prefix(a, s, i + 1);
        } else if is_word_start(c) {
            lemma_word_end_bounds(a, i + 1);
            lemma_word_end_prefix(a, s, i + 1);
            let j = word_end(a, i + 1);
            assert(s.subrange(i, j) =~= a.subrange(i, j));
            lemma_lex_prefix(a, s, j);
            lemma_prepend_join(word_token(a.subrange(i, j)), lex_from(a, j), lex_from(s, n));
        } else if is_ascii_digit(c) {
            lemma_digits_end_bounds(a, i + 1);
            lemma_digits_end_prefix(a, s, i + 1);
            let j = digits_end(a, i + 1);
            assert(s.subrange(i, j) =~= a.subrange(i, j));
            if j < n {
                assert(s[j] == a[j]);
                assert(s.subrange(i, j + 1) =~= a.subrange(i, j + 1));
            }
            lemma_lex_prefix(a, s, j);
            lemma_prepend_join(
                SpecToken::Constant(digits_value(a.subrange(i, j)) as u64),
                lex_from(a, j),
                lex_from(s, n),
            );
        } else {
            if i + 1 < n {
                assert(s[i + 1] == a[i + 1]);
            }
            if i + 2 < n {
                assert(s[i + 2] == a[i + 2]);
            }
            assert(operator_at(s, i) == operator_at(a, i));
            if let Some((t, w)) = operator_at(a, i) {
                assert(i + w <= n);
                lemma_lex_prefix(a, s, i + w);
                lemma_prepend_join(t, lex_from(a, i + w), lex_from(s, n));
            }
        }
    }
}

proof fn lemma_word_end_shift(p: Seq<char>, b: Seq<char>, k: int)
    requires
        0 <= k <= b.len(),
    ensures
        word_end(p + b, p.len() + k) == p.len() + word_end(b, k),
    decreases b.len() - k,
{
    if k < b.len() {
        assert((p + b)[p.len() + k] == b[k]);
        lemma_word_end_shift(p, b, k + 1);
    }
}

proof fn lemma_digits_end_shift(p: Seq<char>, b: Seq<char>, k: int)
    requires
        0 <= k <= b.len(),
    ensures
        digits_end(p + b, p.len() + k) == p.len() + digits_end(b, k),
    decreases b.len() - k,
{
    if k < b.len() {
        assert((p + b)[p.len() + k] == b[k]);
        lemma_digits_end_shift(p, b, k + 1);
    }
}

/// Lexing looks only forward: lexing `p + b` from inside `b` gives what
/// lexing `b` gives there.
proof fn lemma_lex_shift(p: Seq<char>, b: Seq<char>, k: int)
    requires
        0 <= k <= b.len(),
    ensures
        lex_from(p + b, p.len() + k) == lex_from(b, k),
    decreases b.len() - k,
{
    let s = p + b;
    let i = p.len() + k;
    if k < b.len() {
        let c = b[k];
        assert(s[i] == c);
        if is_white(c) {
            lemma_lex_shift(p, b, k + 1);
        } else if is_word_start(c) {
            lemma_word_end_bounds(b, k + 1);
            lemma_word_end_shift(p, b, k + 1);
            let j = word_end(b, k + 1);
            assert(s.subrange(i, p.len() + j) =~= b.subrange(k, j));
            lemma_lex_shift(p, b, j);
        } else if is_ascii_digit(c) {
            lemma_digits_end_bounds(b, k + 1);
            lemma_digits_end_shift(p, b, k + 1);
            let j = digits_end(b, k + 1);
            assert(s.subrange(i, p.len() + j) =~= b.subrange(k, j));
            if j < b.len() {
                assert(s[p.len() + j] == b[j]);
                assert(s.subrange(i, p.len() + j + 1) =~= b.subrange(k, j + 1));
            }
            lemma_lex_shift(p, b, j);
        } else {
            assert(char_at(s, i + 1) == char_at(b, k + 1));
            assert(char_at(s, i + 2) == char_at(b, k + 2));
            assert(operator_at(s, i) == operator_at(b, k));
            if let Some((t, w)) = operator_at(b, k) {
                if k + w <= b.len() {
                    lemma_lex_shift(p, b, k + w);
                }
            }
        }
    }
}

/// Tokens never span white space: the text `a`, a white-space character,
/// then the text `b` lexes to the tokens of `a` followed by those of `b`,
/// or to the first error in `a`, else in `b`.
pub proof fn lemma_lex_concat(a: Seq<char>, w: char, b: Seq<char>)
    requires
        is_white(w),
    ensures
        spec_lex(a + seq![w] + b) == join_lex(spec_lex(a), spec_lex(b)),
{
    let p = a + seq![w];
    let s = p + b;
    assert(s[a.len() as int] == w);
    assert forall|m: int| 0 <= m < a.len() implies #[trigger] s[m] == a[m] by {
        assert(s[m] == p[m]);
    }
    lemma_lex_prefix(a, s, 0);
    lemma_lex_shift(p, b, 0);
    assert(p.len() == a.len() + 1);
    assert(lex_from(s, a.len() as int) == lex_from(s, (a.len() + 1) as int));
}

/// Every character of `r` is white space.
pub open spec fn all_white(r: Seq<char>) -> bool {
    forall|k: int| 0 <= k < r.len() ==> is_white(#[trigger] r[k])
}

/// White space in front of a text changes nothing: `r + b` lexes as `b`
/// does when `r` is all white space.
pub proof fn lemma_lex_leading_white(r: Seq<char>, b: Seq<char>)
    requires
        all_white(r),
    ensures
        spec_lex(r + b) == spec_lex(b),
    decreases r.len(),
{
    if r.len() == 0 {
        assert(r + b =~= b);
    } else {
        let rest = r.drop_first();
        assert forall|k: int| 0 <= k < rest.len() implies is_white(#[trigger] rest[k]) by {
            assert(rest[k] == r[k + 1]);
        }
        lemma_lex_leading_white(rest, b);
        let p = seq![r[0]];
        assert(r + b =~= p + (rest + b));
        assert(is_white(r[0]));
        assert((p + (rest + b))[0] == r[0]);
        lemma_lex_shift(p, rest + b, 0);
    }
}

/// A text of white space alone lexes to no tokens.
pub proof fn lemma_lex_all_white(r: Seq<char>)
    requires
        all_white(r),
    ensures
        spec_lex(r) == Ok::<Seq<SpecToken>, SpecLexError>(Seq::empty()),
{
    lemma_lex_leading_white(r, Seq::empty());
    assert(r + Seq::<char>::empty() =~= r);
}

/// A non-empty run of white space between two texts separates them as one
/// white-space character does: `a + r + b` lexes to the tokens of `a`
/// followed by those of `b`, or to the first error in `a`, else in `b`.
/// So replacing a white-space character by such a run, anywhere in a text,
/// does not change how it lexes.
pub proof fn lemma_lex_white_run(a: Seq<char>, r: Seq<char>, b: Seq<char>)
    requires
        r.len() > 0,
        all_white(r),
    ensures
        spec_lex(a + r + b) == join_lex(spec_lex(a), spec_lex(b)),
{
    let rest = r.drop_first();
    assert forall|k: int| 0 <= k < rest.len() implies is_white(#[trigger] rest[k]) by {
        assert(rest[k] == r[k + 1]);
    }
    assert(is_white(r[0]));
    assert(a + r + b =~= a + seq![r[0]] + (rest + b));
    lemma_lex_concat(a, r[0], rest + b);
    lemma_lex_leading_white(rest, b);
}

/// White space after a text changes nothing: `a + r` lexes as `a` does
/// when `r` is all white space.
pub proof fn lemma_lex_trailing_white(a: Seq<char>, r: Seq<char>)
    requires
        all_white(r),
    ensures
        spec_lex(a + r) == spec_lex(a),
{
    if r.len() == 0 {
        assert(a + r =~= a);
    } else {
        lemma_lex_white_run(a, r, Seq::empty());
        assert(a + r + Seq::<char>::empty() =~= a + r);
        if let Ok(x) = spec_lex(a) {
            assert(x + Seq::<SpecToken>::empty() =~= x);
        }
    }
}

/// A Latin letter of ASCII, upper case `A` to `Z` or lower case `a` to `z`.
pub open spec fn is_latin_letter_code(c: char) -> bool {
    ('A' <= c <= 'Z') || ('a' <= c <= 'z')
}

/// A text that C reads as one name: an ASCII letter or `_`, then ASCII
/// letters, digits `0` to `9` and `_`.
pub open spec fn is_name_text(w: Seq<char>) -> bool {
    &&& w.len() > 0
    &&& is_latin_letter_code(w[0]) || w[0] == '_'
    &&& forall|k: int|
        1 <= k < w.len() ==> is_latin_letter_code(#[trigger] w[k]) || ('0' <= w[k] <= '9')
            || w[k] == '_'
}

proof fn lemma_word_end_of_name(w: Seq<char>, k: int)
    requires
        is_name_text(w),
        1 <= k <= w.len(),
    ensures
        word_end(w, k) == w.len(),
    decreases w.len() - k,
{
    if k < w.len() {
        assert(is_latin_letter_code(w[k]) || ('0' <= w[k] <= '9') || w[k] == '_');
        lemma_word_end_of_name(w, k + 1);
    }
}

/// Every ASCII letter, upper or lower case, belongs to names: a name text
/// other than the keywords `int`, `void` and `return` lexes to exactly one
/// identifier token holding the whole text.
pub proof fn lemma_lex_name(w: Seq<char>)
    requires
        is_name_text(w),
        w != seq!['i', 'n', 't'],
        w != seq!['v', 'o', 'i', 'd'],
        w != seq!['r', 'e', 't', 'u', 'r', 'n'],
    ensures
        spec_lex(w) == Ok::<Seq<SpecToken>, SpecLexError>(seq![SpecToken::Identifier(w)]),
{
    assert(!is_white(w[0]));
    assert(is_word_start(w[0]));
    lemma_word_end_of_name(w, 1);
    assert(w.subrange(0, w.len() as int) =~= w);
    assert(lex_from(w, w.len() as int) == Ok::<Seq<SpecToken>, SpecLexError>(seq![]));
    assert(seq![SpecToken::Identifier(w)] + Seq::<SpecToken>::empty() =~= seq![SpecToken::Identifier(w)]);
}

/// A text that is one operator or punctuation mark, with nothing after it,
/// lexes to that one token.
pub proof fn lemma_lex_single_operator(s: Seq<char>, t: SpecToken)
    requires
        s.len() > 0,
        !is_white(s[0]),
        !is_word_start(s[0]),
        !is_ascii_digit(s[0]),
        operator_at(s, 0) == Some((t, s.len() as int)),
    ensures
        spec_lex(s) == Ok::<Seq<SpecToken>, SpecLexError>(seq![t]),
{
    assert(lex_from(s, s.len() as int) == Ok::<Seq<SpecToken>, SpecLexError>(seq![]));
    assert(seq![t] + Seq::<SpecToken>::empty() =~= seq![t]);
}

proof fn lemma_digits_value_of_decimal(n: nat)
    ensures
        digits_value(decimal(n)) == n,
    decreases n,
{
    if n < 10 {
        let d = decimal(n);
        assert(d == seq![digit_char(n)]);
        assert(d.drop_last() =~= Seq::<char>::empty());
        assert(d.last() == digit_char(n));
        assert(digit_char(n) as int == 48 + n);
        assert(digits_value(d) == digits_value(d.drop_last()) * 10 + ((d.last() as int - 48) as nat));
    } else {
        lemma_digits_value_of_decimal(n / 10);
        let d = decimal(n);
        assert(d == decimal(n / 10).push(digit_char(n % 10)));
        assert(d.drop_last() =~= decimal(n / 10));
        assert(d.last() == digit_char(n % 10));
        assert(digit_char(n % 10) as int == 48 + n % 10);
        assert(digits_value(d) == digits_value(d.drop_last()) * 10 + ((d.last() as int - 48) as nat));
        assert((n / 10) * 10 + n % 10 == n);
    }
}

proof fn lemma_digits_end_of_decimal(n: nat, k: int)
    requires
        1 <= k <= decimal(n).len(),
    ensures
        digits_end(decimal(n), k) == decimal(n).len(),
    decreases decimal(n).len() - k,
{
    lemma_decimal_digits(n);
    if k < decimal(n).len() {
        assert('0' <= decimal(n)[k] <= '9');
        lemma_digits_end_of_decimal(n, k + 1);
    }
}

/// Numbers read back: the decimal rendering of any 64-bit number lexes to
/// exactly one constant token with that value.
pub proof fn lemma_lex_decimal(n: u64)
    ensures
        spec_lex(decimal(n as nat)) == Ok::<Seq<SpecToken>, SpecLexError>(
            seq![SpecToken::Constant(n)],
        ),
{
    let d = decimal(n as nat);
    lemma_decimal_digits(n as nat);
    assert('0' <= d[0] <= '9');
    lemma_digits_end_of_decimal(n as nat, 1);
    lemma_digits_value_of_decimal(n as nat);
    assert(d.subrange(0, d.len() as int) =~= d);
    assert(lex_from(d, d.len() as int) == Ok::<Seq<SpecToken>, SpecLexError>(seq![]));
    assert(seq![SpecToken::Constant(n)] + Seq::<SpecToken>::empty() =~= seq![SpecToken::Constant(n)]);
}

/// The keywords read as themselves: `int`, `void` and `return` each lex to
/// their keyword token.
pub proof fn lemma_lex_keywords()
    ensures
        spec_lex(seq!['i', 'n', 't']) == Ok::<Seq<SpecToken>, SpecLexError>(seq![SpecToken::Int]),
        spec_lex(seq!['v', 'o', 'i', 'd']) == Ok::<Seq<SpecToken>, SpecLexError>(
            seq![SpecToken::Void],
        ),
        spec_lex(seq!['r', 'e', 't', 'u', 'r', 'n']) == Ok::<Seq<SpecToken>, SpecLexError>(
            seq![SpecToken::Return],
        ),
{
    lemma_keyword(seq!['i', 'n', 't'], SpecToken::Int);
    lemma_keyword(seq!['v', 'o', 'i', 'd'], SpecToken::Void);
    lemma_keyword(seq!['r', 'e', 't', 'u', 'r', 'n'], SpecToken::Return);
}

proof fn lemma_keyword(w: Seq<char>, t: SpecToken)
    requires
        w.len() > 0,
        forall|k: int| 0 <= k < w.len() ==> 'a' <= #[trigger] w[k] <= 'z',
        word_token(w) == t,
    ensures
        spec_lex(w) == Ok::<Seq<SpecToken>, SpecLexError>(seq![t]),
{
    assert forall|k: int| 1 <= k <= w.len() implies word_end(w, k) == w.len() by {
        lemma_word_end_lowercase(w, k);
    }
    assert('a' <= w[0] <= 'z');
    assert(w.subrange(0, w.len() as int) =~= w);
    assert(lex_from(w, w.len() as int) == Ok::<Seq<SpecToken>, SpecLexError>(seq![]));
    assert(seq![t] + Seq::<SpecToken>::empty() =~= seq![t]);
}

proof fn lemma_word_end_lowercase(w: Seq<char>, k: int)
    requires
        forall|j: int| 0 <= j < w.len() ==> 'a' <= #[trigger] w[j] <= 'z',
        1 <= k <= w.len(),
    ensures
        word_end(w, k) == w.len(),
    decreases w.len() - k,
{
    if k < w.len() {
        assert('a' <= w[k] <= 'z');
        lemma_word_end_lowercase(w, k + 1);
    }
}

} // verus!
