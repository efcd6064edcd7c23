//! Tokens produced by the lexer.

use vstd::prelude::*;
use crate::text::{debug_quoted, debug_string, push_char, append_str};

verus! {

/// The kind of a token.
#[derive(Debug, Clone, Copy, PartialEq, Eq, Structural)]
pub enum TokenType {
    // Literals
    Number,
    Identifier,
    String,
    // Keywords
    Let,
    Const,
    Fn,
    Return,
    If,
    Else,
    While,
    For,
    Struct,
    Enum,
    True,
    False,
    Null,
    Mut,
    Pub,
    Import,
    // Operators
    Plus,
    Minus,
    Star,
    Slash,
    Percent,
    EqualEqual,
    BangEqual,
    Less,
    Greater,
    LessEqual,
    GreaterEqual,
    And,
    Or,
    Bang,
    Equal,
    Colon,
    Dot,
    Arrow,
    Pipe,
    // Delimiters
    OpenParen,
    CloseParen,
    OpenBrace,
    CloseBrace,
    OpenBracket,
    CloseBracket,
    Comma,
    // Special
    Newline,
    Eof,
}

/// The name of a token kind, as `{:?}` prints it.
pub open spec fn kind_name(k: TokenType) -> Seq<char> {
    match k {
        TokenType::Number => "Number"@,
        TokenType::Identifier => "Identifier"@,
        TokenType::String => "String"@,
        TokenType::Let => "Let"@,
        TokenType::Const => "Const"@,
        TokenType::Fn => "Fn"@,
        TokenType::Return => "Return"@,
        TokenType::If => "If"@,
        TokenType::Else => "Else"@,
        TokenType::While => "While"@,
        TokenType::For => "For"@,
        TokenType::Struct => "Struct"@,
        TokenType::Enum => "Enum"@,
        TokenType::True => "True"@,
        TokenType::False => "False"@,
        TokenType::Null => "Null"@,
        TokenType::Mut => "Mut"@,
        TokenType::Pub => "Pub"@,
        TokenType::Import => "Import"@,
        TokenType::Plus => "Plus"@,
        TokenType::Minus => "Minus"@,
        TokenType::Star => "Star"@,
        TokenType::Slash => "Slash"@,
        TokenType::Percent => "Percent"@,
        TokenType::EqualEqual => "EqualEqual"@,
        TokenType::BangEqual => "BangEqual"@,
        TokenType::Less => "Less"@,
        TokenType::Greater => "Greater"@,
        TokenType::LessEqual => "LessEqual"@,
        TokenType::GreaterEqual => "GreaterEqual"@,
        TokenType::And => "And"@,
        TokenType::Or => "Or"@,
        TokenType::Bang => "Bang"@,
        TokenType::Equal => "Equal"@,
        TokenType::Colon => "Colon"@,
        TokenType::Dot => "Dot"@,
        TokenType::Arrow => "Arrow"@,
        TokenType::Pipe => "Pipe"@,
        TokenType::OpenParen => "OpenParen"@,
        TokenType::CloseParen => "CloseParen"@,
        TokenType::OpenBrace => "OpenBrace"@,
        TokenType::CloseBrace => "CloseBrace"@,
        TokenType::OpenBracket => "OpenBracket"@,
        TokenType::CloseBracket => "CloseBracket"@,
        TokenType::Comma => "Comma"@,
        TokenType::Newline => "Newline"@,
        TokenType::Eof => "Eof"@,
    }
}

impl TokenType {
    /// The name of this kind, as `{:?}` prints it.
    pub fn debug_name(&self) -> (r: &'static str)
        ensures
            r@ == kind_name(*self),
    {
        match self {
            TokenType::Number => "Number",
            TokenType::Identifier => "Identifier",
            TokenType::String => "String",
            TokenType::Let => "Let",
            TokenType::Const => "Const",
            TokenType::Fn => "Fn",
            TokenType::Return => "Return",
            TokenType::If => "If",
            TokenType::Else => "Else",
            TokenType::While => "While",
            TokenType::For => "For",
            TokenType::Struct => "Struct",
            TokenType::Enum => "Enum",
            TokenType::True => "True",
            TokenType::False => "False",
            TokenType::Null => "Null",
            TokenType::Mut => "Mut",
            TokenType::Pub => "Pub",
            TokenType::Import => "Import",
            TokenType::Plus => "Plus",
            TokenType::Minus => "Minus",
            TokenType::Star => "Star",
            TokenType::Slash => "Slash",
            TokenType::Percent => "Percent",
            TokenType::EqualEqual => "EqualEqual",
            TokenType::BangEqual => "BangEqual",
            TokenType::Less => "Less",
            TokenType::Greater => "Greater",
            TokenType::LessEqual => "LessEqual",
            TokenType::GreaterEqual => "GreaterEqual",
            TokenType::And => "And",
            TokenType::Or => "Or",
            TokenType::Bang => "Bang",
            TokenType::Equal => "Equal",
            TokenType::Colon => "Colon",
            TokenType::Dot => "Dot",
            TokenType::Arrow => "Arrow",
            TokenType::Pipe => "Pipe",
            TokenType::OpenParen => "OpenParen",
            TokenType::CloseParen => "CloseParen",
            TokenType::OpenBrace => "OpenBrace",
            TokenType::CloseBrace => "CloseBrace",
            TokenType::OpenBracket => "OpenBracket",
            TokenType::CloseBracket => "CloseBracket",
            TokenType::Comma => "Comma",
            TokenType::Newline => "Newline",
            TokenType::Eof => "Eof",
        }
    }
}

/// A token: its kind, its text, and the line and column where it stands.
#[derive(Debug)]
pub struct Token {
    pub kind: TokenType,
    pub value: String,
    pub line: usize,
    pub col: usize,
}

/// The mathematical model of a token.
pub struct TokenView {
    pub kind: TokenType,
    pub value: Seq<char>,
    pub line: int,
    pub col: int,
}

impl View for Token {
    type V = TokenView;

    open spec fn view(&self) -> TokenView {
        TokenView { kind: self.kind, value: self.value@, line: self.line as int, col: self.col as int }
    }
}

/// The models of a sequence of tokens.
pub open spec fn tokens_view(ts: Seq<Token>) -> Seq<TokenView> {
    ts.map_values(|t: Token| t@)
}

impl Clone for Token {
    fn clone(&self) -> (r: Self)
        ensures
            r == *self,
    {
        Token { kind: self.kind, value: self.value.clone(), line: self.line, col: self.col }
    }
}

impl Token {
    pub fn new(kind: TokenType, value: String, line: usize, col: usize) -> (t: Self)
        ensures
            t == (Token { kind, value, line, col }),
    {
        Token { kind, value, line, col }
    }

    /// The text that `{}` printed for a token: the kind's name, then the
    /// debug-quoted value in parentheses.
    pub fn describe(&self) -> (r: String)
        ensures
            r@ == kind_name(self.kind) + seq!['('] + debug_quoted(self.value@) + seq![')'],
    {
        let q = debug_string(&self.value);
        token_text(self.kind, &q)
    }
}

/// A kind's name followed by `quoted` in parentheses: how a token shows
/// once its value is quoted.
pub fn token_text(kind: TokenType, quoted: &String) -> (r: String)
    ensures
        r@ == kind_name(kind) + seq!['('] + quoted@ + seq![')'],
{
    let mut r = String::new();
    append_str(&mut r, kind.debug_name());
    push_char(&mut r, '(');
    append_str(&mut r, quoted.as_str());
    push_char(&mut r, ')');
    assert(r@ =~= kind_name(kind) + seq!['('] + quoted@ + seq![')']);
    r
}

} // verus!
