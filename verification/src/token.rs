//! Lexical tokens of the language, together with their mathematical image.

use vstd::prelude::*;

verus! {

/// A classified lexical unit: end marker, identifier, integer literal,
/// operator, delimiter or keyword. Identifiers carry their text and integer
/// literals their value; all other tokens carry no payload.
#[allow(non_camel_case_types)]
#[derive(Debug, PartialEq)]
pub enum Token {
    ILLEGAL,
    EOF,
    // Identifiers + literals
    IDENT(String),
    INT(i64),
    STRING(String),
    // Operators
    ASSIGN,
    PLUS,
    MINUS,
    GT,
    LT,
    BANG,
    ASTERISK,
    SLASH,
    EQ,
    NOT_EQ,
    // Delimiters
    COMMA,
    SEMICOLON,
    LPAREN,
    RPAREN,
    LBRACE,
    RBRACE,
    // Keywords
    FUNCTION,
    LET,
    WHILE,
    FOR,
    LOOP,
    TRUE,
    FALSE,
    RETURN,
    IF,
    ELSE,
}

/// Mathematical image of a `Token`: identifier and string payloads become
/// character sequences. All specifications about token streams are phrased
/// over this type.
pub enum TokenV {
    Illegal,
    Eof,
    Ident(Seq<char>),
    Int(i64),
    StrLit(Seq<char>),
    Assign,
    Plus,
    Minus,
    Gt,
    Lt,
    Bang,
    Asterisk,
    Slash,
    Equal,
    NotEqual,
    Comma,
    Semicolon,
    Lparen,
    Rparen,
    Lbrace,
    Rbrace,
    Function,
    Let,
    While,
    For,
    Loop,
    True,
    False,
    Return,
    If,
    Else,
}

impl View for Token {
    type V = TokenV;

    open spec fn view(&self) -> TokenV {
        match self {
            Token::ILLEGAL => TokenV::Illegal,
            Token::EOF => TokenV::Eof,
            Token::IDENT(s) => TokenV::Ident(s@),
            Token::INT(v) => TokenV::Int(*v),
            Token::STRING(s) => TokenV::StrLit(s@),
            Token::ASSIGN => TokenV::Assign,
            Token::PLUS => TokenV::Plus,
            Token::MINUS => TokenV::Minus,
            Token::GT => TokenV::Gt,
            Token::LT => TokenV::Lt,
            Token::BANG => TokenV::Bang,
            Token::ASTERISK => TokenV::Asterisk,
            Token::SLASH => TokenV::Slash,
            Token::EQ => TokenV::Equal,
            Token::NOT_EQ => TokenV::NotEqual,
            Token::COMMA => TokenV::Comma,
            Token::SEMICOLON => TokenV::Semicolon,
            Token::LPAREN => TokenV::Lparen,
            Token::RPAREN => TokenV::Rparen,
            Token::LBRACE => TokenV::Lbrace,
            Token::RBRACE => TokenV::Rbrace,
            Token::FUNCTION => TokenV::Function,
            Token::LET => TokenV::Let,
            Token::WHILE => TokenV::While,
            Token::FOR => TokenV::For,
            Token::LOOP => TokenV::Loop,
            Token::TRUE => TokenV::True,
            Token::FALSE => TokenV::False,
            Token::RETURN => TokenV::Return,
            Token::IF => TokenV::If,
            Token::ELSE => TokenV::Else,
        }
    }
}

impl DeepView for Token {
    type V = TokenV;

    open spec fn deep_view(&self) -> TokenV {
        self.view()
    }
}

impl Clone for Token {
    /// A clone is equal to the original, payload included.
    fn clone(&self) -> (t: Token)
        ensures
            t == *self,
    {
        match self {
            Token::ILLEGAL => Token::ILLEGAL,
            Token::EOF => Token::EOF,
            Token::IDENT(s) => Token::IDENT(s.clone()),
            Token::INT(v) => Token::INT(*v),
            Token::STRING(s) => Token::STRING(s.clone()),
            Token::ASSIGN => Token::ASSIGN,
            Token::PLUS => Token::PLUS,
            Token::MINUS => Token::MINUS,
            Token::GT => Token::GT,
            Token::LT => Token::LT,
            Token::BANG => Token::BANG,
            Token::ASTERISK => Token::ASTERISK,
            Token::SLASH => Token::SLASH,
            Token::EQ => Token::EQ,
            Token::NOT_EQ => Token::NOT_EQ,
            Token::COMMA => Token::COMMA,
            Token::SEMICOLON => Token::SEMICOLON,
            Token::LPAREN => Token::LPAREN,
            Token::RPAREN => Token::RPAREN,
            Token::LBRACE => Token::LBRACE,
            Token::RBRACE => Token::RBRACE,
            Token::FUNCTION => Token::FUNCTION,
            Token::LET => Token::LET,
            Token::WHILE => Token::WHILE,
            Token::FOR => Token::FOR,
            Token::LOOP => Token::LOOP,
            Token::TRUE => Token::TRUE,
            Token::FALSE => Token::FALSE,
            Token::RETURN => Token::RETURN,
            Token::IF => Token::IF,
            Token::ELSE => Token::ELSE,
        }
    }
}

/// True exactly when the two string slices hold the same characters.
pub fn str_eq(a: &str, b: &str) -> (r: bool)
    ensures
        r == (a@ == b@),
{
    let sa = a.to_owned();
    let sb = b.to_owned();
    sa == sb
}

} // verus!
