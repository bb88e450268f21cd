//! Tokens: the shared vocabulary between the lexer, the parser and the
//! tree walks.
use crate::number::Number;
use vstd::prelude::*;

verus! {

/// The closed set of token kinds.
#[allow(non_camel_case_types)]
#[derive(Debug, PartialEq, Eq, Copy, Clone, Hash, Structural)]
pub enum TokenType {
    // Single-character tokens.
    LEFT_PAREN,
    RIGHT_PAREN,
    LEFT_BRACE,
    RIGHT_BRACE,
    COMMA,
    DOT,
    MINUS,
    PLUS,
    SEMICOLON,
    SLASH,
    STAR,
    // One or two character tokens.
    BANG,
    BANG_EQUAL,
    EQUAL,
    EQUAL_EQUAL,
    GREATER,
    GREATER_EQUAL,
    LESS,
    LESS_EQUAL,
    // Literals.
    IDENTIFIER,
    STRING,
    NUMBER,
    // Keywords.
    AND,
    CLASS,
    ELSE,
    FALSE,
    FUN,
    FOR,
    IF,
    NIL,
    OR,
    PRINT,
    RETURN,
    SUPER,
    THIS,
    TRUE,
    VAR,
    WHILE,
    EOF,
}

/// A literal payload; this is also the runtime value type of the
/// language: text, an exact decimal number, a boolean, or nil.
#[derive(Debug, PartialEq)]
pub enum Literal {
    Str(String),
    Num(Number),
    Bool(bool),
    Nil,
}

/// The mathematical shadow of a `Literal`.
pub enum LiteralV {
    Str(Seq<char>),
    Num(Number),
    Bool(bool),
    Nil,
}

impl View for Literal {
    type V = LiteralV;

    open spec fn view(&self) -> LiteralV {
        match self {
            Literal::Str(s) => LiteralV::Str(s@),
            Literal::Num(n) => LiteralV::Num(*n),
            Literal::Bool(b) => LiteralV::Bool(*b),
            Literal::Nil => LiteralV::Nil,
        }
    }
}

impl Clone for Literal {
    fn clone(&self) -> (r: Self)
        ensures
            r == *self,
    {
        match self {
            Literal::Str(s) => Literal::Str(s.clone()),
            Literal::Num(n) => Literal::Num(*n),
            Literal::Bool(b) => Literal::Bool(*b),
            Literal::Nil => Literal::Nil,
        }
    }
}

/// A classified, line-tagged unit of lexical input.
#[derive(Debug, PartialEq)]
pub struct Token {
    pub token_type: TokenType,
    pub lexeme: String,
    pub literal: Literal,
    pub line: i32,
}

/// The mathematical shadow of a `Token`.
pub struct TokenV {
    pub token_type: TokenType,
    pub lexeme: Seq<char>,
    pub literal: LiteralV,
    pub line: int,
}

impl View for Token {
    type V = TokenV;

    open spec fn view(&self) -> TokenV {
        TokenV {
            token_type: self.token_type,
            lexeme: self.lexeme@,
            literal: self.literal@,
            line: self.line as int,
        }
    }
}

impl TokenV {
    /// The literal payload is populated exactly for the two
    /// value-carrying kinds, and a number payload is canonical.
    pub open spec fn wf(self) -> bool {
        &&& match self.token_type {
            TokenType::NUMBER => self.literal matches LiteralV::Num(n) && n.inv(),
            TokenType::STRING => self.literal is Str,
            _ => self.literal is Nil,
        }
        &&& self.line >= 1
    }
}

impl Clone for Token {
    fn clone(&self) -> (r: Self)
        ensures
            r == *self,
    {
        Token {
            token_type: self.token_type,
            lexeme: self.lexeme.clone(),
            literal: self.literal.clone(),
            line: self.line,
        }
    }
}

impl Token {
    pub fn new(tt: TokenType, lexeme: String, literal: Literal, line: i32) -> (t: Token)
        ensures
            t.token_type == tt,
            t.lexeme == lexeme,
            t.literal == literal,
            t.line == line,
    {
        Token { token_type: tt, lexeme, literal, line }
    }
}

} // verus!
