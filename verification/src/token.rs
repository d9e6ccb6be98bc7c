use crate::token_type::TokenType;
use vstd::prelude::*;

verus! {

/// A token: its type, the value it carries (if any), and its line.
#[derive(Copy, Clone, Debug)]
pub struct Token<'a> {
    pub token_type: TokenType,
    pub token_value: Option<TokenValue<'a>>,
    pub line: usize,
}

/// The value a token carries. A number keeps its lexeme; the host turns
/// it into a floating-point value.
#[derive(Copy, Clone, Debug, PartialEq)]
pub enum TokenValue<'a> {
    String(&'a str),
    Number(&'a str),
    False,
    True,
    Nil,
    Identifier(&'a str),
    Comment(&'a str),
}

/// The characters a token value holds.
pub enum SpecTokenValue {
    String(Seq<char>),
    Number(Seq<char>),
    False,
    True,
    Nil,
    Identifier(Seq<char>),
    Comment(Seq<char>),
}

pub struct SpecToken {
    pub token_type: TokenType,
    pub token_value: Option<SpecTokenValue>,
    pub line: nat,
}

impl<'a> View for TokenValue<'a> {
    type V = SpecTokenValue;

    open spec fn view(&self) -> SpecTokenValue {
        match *self {
            TokenValue::String(s) => SpecTokenValue::String(s@),
            TokenValue::Number(s) => SpecTokenValue::Number(s@),
            TokenValue::False => SpecTokenValue::False,
            TokenValue::True => SpecTokenValue::True,
            TokenValue::Nil => SpecTokenValue::Nil,
            TokenValue::Identifier(s) => SpecTokenValue::Identifier(s@),
            TokenValue::Comment(s) => SpecTokenValue::Comment(s@),
        }
    }
}

pub open spec fn option_value_view(v: Option<TokenValue>) -> Option<SpecTokenValue> {
    match v {
        Some(x) => Some(x@),
        None => None,
    }
}

impl<'a> View for Token<'a> {
    type V = SpecToken;

    open spec fn view(&self) -> SpecToken {
        SpecToken {
            token_type: self.token_type,
            token_value: option_value_view(self.token_value),
            line: self.line as nat,
        }
    }
}

/// The value that a keyword token carries, if any.
pub open spec fn keyword_value(token_type: TokenType) -> Option<SpecTokenValue> {
    match token_type {
        TokenType::FALSE => Some(SpecTokenValue::False),
        TokenType::TRUE => Some(SpecTokenValue::True),
        TokenType::NIL => Some(SpecTokenValue::Nil),
        _ => None,
    }
}

impl<'a> Token<'a> {
    pub fn new(kind: TokenType, line: usize) -> (res: Self)
        ensures
            res.token_type == kind,
            res.token_value is None,
            res.line == line,
    {
        Token { token_type: kind, token_value: None, line }
    }

    pub fn new_value(kind: TokenType, token_value: TokenValue<'a>, line: usize) -> (res: Self)
        ensures
            res.token_type == kind,
            res.token_value == Some(token_value),
            res.line == line,
    {
        Token { token_type: kind, token_value: Some(token_value), line }
    }
}

impl TokenValue<'static> {
    /// The value that the keyword `token_type` carries, if any.
    pub fn from_keyword(token_type: TokenType) -> (res: Option<Self>)
        ensures
            option_value_view(res) == keyword_value(token_type),
    {
        match token_type {
            TokenType::FALSE => Some(Self::False),
            TokenType::TRUE => Some(Self::True),
            TokenType::NIL => Some(Self::Nil),
            _ => None,
        }
    }
}

} // verus!
