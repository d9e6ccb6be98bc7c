use crate::token_type::{keyword_of, TokenType};
use vstd::prelude::*;

verus! {

/// The token type of a reserved word of the language's first grammar, which
/// had every keyword but `break`.
pub fn get_keyword(keyword: &str) -> (res: Option<TokenType>)
    ensures
        res == (match keyword_of(keyword@) {
            Some(TokenType::BREAK) => None,
            other => other,
        }),
{
    match TokenType::from_lexeme(keyword) {
        Some(TokenType::BREAK) => None,
        other => other,
    }
}

} // verus!
