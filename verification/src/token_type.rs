use vstd::prelude::*;

verus! {

/// The closed set of lexical token categories that the scanner emits and the
/// parser consumes.
#[derive(Clone, Copy, Debug, PartialEq, Eq, Structural)]
pub enum TokenType {
    LeftParen,
    RightParen,
    LeftBrace,
    RightBrace,
    Comma,
    Dot,
    Minus,
    Plus,
    Semicolon,
    Slash,
    Star,
    Bang,
    BangEqual,
    Equal,
    EqualEqual,
    Greater,
    GreaterEqual,
    Less,
    LessEqual,
    Identifier,
    String,
    Number,
    And,
    Or,
    True,
    False,
    Null,
    If,
    Else,
    Return,
    Print,
    While,
    For,
    Let,
    This,
    Extends,
    Fn,
    Class,
    Eof,
}

impl TokenType {
    /// The category's name as a character string.
    pub open spec fn spec_name(self) -> Seq<char> {
        match self {
            TokenType::LeftParen => "LeftParen"@,
            TokenType::RightParen => "RightParen"@,
            TokenType::LeftBrace => "LeftBrace"@,
            TokenType::RightBrace => "RightBrace"@,
            TokenType::Comma => "Comma"@,
            TokenType::Dot => "Dot"@,
            TokenType::Minus => "Minus"@,
            TokenType::Plus => "Plus"@,
            TokenType::Semicolon => "Semicolon"@,
            TokenType::Slash => "Slash"@,
            TokenType::Star => "Star"@,
            TokenType::Bang => "Bang"@,
            TokenType::BangEqual => "BangEqual"@,
            TokenType::Equal => "Equal"@,
            TokenType::EqualEqual => "EqualEqual"@,
            TokenType::Greater => "Greater"@,
            TokenType::GreaterEqual => "GreaterEqual"@,
            TokenType::Less => "Less"@,
            TokenType::LessEqual => "LessEqual"@,
            TokenType::Identifier => "Identifier"@,
            TokenType::String => "String"@,
            TokenType::Number => "Number"@,
            TokenType::And => "And"@,
            TokenType::Or => "Or"@,
            TokenType::True => "True"@,
            TokenType::False => "False"@,
            TokenType::Null => "Null"@,
            TokenType::If => "If"@,
            TokenType::Else => "Else"@,
            TokenType::Return => "Return"@,
            TokenType::Print => "Print"@,
            TokenType::While => "While"@,
            TokenType::For => "For"@,
            TokenType::Let => "Let"@,
            TokenType::This => "This"@,
            TokenType::Extends => "Extends"@,
            TokenType::Fn => "Fn"@,
            TokenType::Class => "Class"@,
            TokenType::Eof => "Eof"@,
        }
    }

    /// The category's name, for rendering a token.
    pub fn name(&self) -> (r: &'static str)
        ensures
            r@ == self.spec_name(),
    {
        match self {
            TokenType::LeftParen => "LeftParen",
            TokenType::RightParen => "RightParen",
            TokenType::LeftBrace => "LeftBrace",
            TokenType::RightBrace => "RightBrace",
            TokenType::Comma => "Comma",
            TokenType::Dot => "Dot",
            TokenType::Minus => "Minus",
            TokenType::Plus => "Plus",
            TokenType::Semicolon => "Semicolon",
            TokenType::Slash => "Slash",
            TokenType::Star => "Star",
            TokenType::Bang => "Bang",
            TokenType::BangEqual => "BangEqual",
            TokenType::Equal => "Equal",
            TokenType::EqualEqual => "EqualEqual",
            TokenType::Greater => "Greater",
            TokenType::GreaterEqual => "GreaterEqual",
            TokenType::Less => "Less",
            TokenType::LessEqual => "LessEqual",
            TokenType::Identifier => "Identifier",
            TokenType::String => "String",
            TokenType::Number => "Number",
            TokenType::And => "And",
            TokenType::Or => "Or",
            TokenType::True => "True",
            TokenType::False => "False",
            TokenType::Null => "Null",
            TokenType::If => "If",
            TokenType::Else => "Else",
            TokenType::Return => "Return",
            TokenType::Print => "Print",
            TokenType::While => "While",
            TokenType::For => "For",
            TokenType::Let => "Let",
            TokenType::This => "This",
            TokenType::Extends => "Extends",
            TokenType::Fn => "Fn",
            TokenType::Class => "Class",
            TokenType::Eof => "Eof",
        }
    }
}

} // verus!
