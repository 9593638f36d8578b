//! Token kinds, their canonical literals, and the binding power of infix
//! operators.

use vstd::prelude::*;

use crate::parser::Precedence;

verus! {

/// The closed set of lexical token kinds.
#[derive(Debug, PartialEq, Eq, Clone, Copy, Structural)]
pub enum TokenType {
    Illegal,
    Eof,
    Ident,
    Int,
    Assign,
    Plus,
    Minus,
    Bang,
    Asterisk,
    Slash,
    Comma,
    LessThan,
    GreaterThan,
    Semicolon,
    LeftParen,
    RightParen,
    LeftBrace,
    RightBrace,
    Function,
    Let,
    True,
    False,
    If,
    Else,
    Return,
    Equal,
    NotEqual,
}

/// The canonical literal text of a token kind; empty for the kinds whose
/// literal varies (identifiers, integers, illegal characters) and for
/// end-of-input.
pub open spec fn spec_kind_literal(k: TokenType) -> Seq<char> {
    match k {
        TokenType::Int => "int"@,
        TokenType::Assign => "="@,
        TokenType::Plus => "+"@,
        TokenType::Minus => "-"@,
        TokenType::Bang => "!"@,
        TokenType::Asterisk => "*"@,
        TokenType::Slash => "/"@,
        TokenType::Comma => ","@,
        TokenType::LessThan => "<"@,
        TokenType::GreaterThan => ">"@,
        TokenType::Semicolon => ";"@,
        TokenType::LeftParen => "("@,
        TokenType::RightParen => ")"@,
        TokenType::LeftBrace => "{"@,
        TokenType::RightBrace => "}"@,
        TokenType::Function => "function"@,
        TokenType::Let => "let"@,
        TokenType::True => "true"@,
        TokenType::False => "false"@,
        TokenType::If => "if"@,
        TokenType::Else => "else"@,
        TokenType::Return => "return"@,
        TokenType::Equal => "=="@,
        TokenType::NotEqual => "!="@,
        _ => ""@,
    }
}

/// The precedence level a token kind binds with when it appears in infix
/// position; `Lowest` for every kind that is not an infix operator.
pub open spec fn spec_kind_precedence(k: TokenType) -> Precedence {
    match k {
        TokenType::Plus | TokenType::Minus => Precedence::Sum,
        TokenType::Asterisk | TokenType::Slash => Precedence::Product,
        TokenType::LessThan | TokenType::GreaterThan => Precedence::LessGreater,
        TokenType::Equal | TokenType::NotEqual => Precedence::Equals,
        _ => Precedence::Lowest,
    }
}

/// Whether a token kind is one of the recognized infix operators.
pub open spec fn spec_is_infix(k: TokenType) -> bool {
    match k {
        TokenType::Plus
        | TokenType::Minus
        | TokenType::Asterisk
        | TokenType::Slash
        | TokenType::LessThan
        | TokenType::GreaterThan
        | TokenType::Equal
        | TokenType::NotEqual => true,
        _ => false,
    }
}

impl TokenType {
    /// The canonical literal text of this kind, used in diagnostics.
    pub fn get_literal(&self) -> (res: &str)
        ensures
            res@ == spec_kind_literal(*self),
    {
        match self {
            TokenType::Int => "int",
            TokenType::Assign => "=",
            TokenType::Plus => "+",
            TokenType::Minus => "-",
            TokenType::Bang => "!",
            TokenType::Asterisk => "*",
            TokenType::Slash => "/",
            TokenType::Comma => ",",
            TokenType::LessThan => "<",
            TokenType::GreaterThan => ">",
            TokenType::Semicolon => ";",
            TokenType::LeftParen => "(",
            TokenType::RightParen => ")",
            TokenType::LeftBrace => "{",
            TokenType::RightBrace => "}",
            TokenType::Function => "function",
            TokenType::Let => "let",
            TokenType::True => "true",
            TokenType::False => "false",
            TokenType::If => "if",
            TokenType::Else => "else",
            TokenType::Return => "return",
            TokenType::Equal => "==",
            TokenType::NotEqual => "!=",
            _ => "",
        }
    }

    /// The precedence level this kind binds with in infix position.
    pub fn precedence(&self) -> (res: Precedence)
        ensures
            res == spec_kind_precedence(*self),
    {
        match self {
            TokenType::Plus | TokenType::Minus => Precedence::Sum,
            TokenType::Asterisk | TokenType::Slash => Precedence::Product,
            TokenType::LessThan | TokenType::GreaterThan => Precedence::LessGreater,
            TokenType::Equal | TokenType::NotEqual => Precedence::Equals,
            _ => Precedence::Lowest,
        }
    }

    /// Whether this kind is a recognized infix operator.
    pub fn is_infix(&self) -> (res: bool)
        ensures
            res == spec_is_infix(*self),
    {
        matches!(
            self,
            TokenType::Plus
            | TokenType::Minus
            | TokenType::Asterisk
            | TokenType::Slash
            | TokenType::LessThan
            | TokenType::GreaterThan
            | TokenType::Equal
            | TokenType::NotEqual
        )
    }
}

/// The mathematical value of a token: its kind and the text it was read from.
pub struct TokenView {
    pub kind: TokenType,
    pub literal: Seq<char>,
}

/// A lexical token: a kind together with the literal text it was read from.
#[derive(Debug)]
pub struct Token {
    pub token_type: TokenType,
    pub literal: String,
}

impl View for Token {
    type V = TokenView;

    open spec fn view(&self) -> TokenView {
        TokenView { kind: self.token_type, literal: self.literal@ }
    }
}

impl Clone for Token {
    /// A clone has the same kind and literal.
    fn clone(&self) -> (res: Self)
        ensures
            res@ == self@,
    {
        Token { token_type: self.token_type, literal: self.literal.clone() }
    }
}

impl Token {
    pub fn new(token_type: TokenType, literal: String) -> (res: Self)
        ensures
            res@ == (TokenView { kind: token_type, literal: literal@ }),
    {
        Token { token_type, literal }
    }
}

/// The token view that stands for end-of-input: the `Eof` kind with an empty
/// literal. Indexing a token stream past its end yields this value.
pub open spec fn eof_view() -> TokenView {
    TokenView { kind: TokenType::Eof, literal: Seq::empty() }
}

} // verus!
