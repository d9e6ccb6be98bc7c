use crate::text::str_eq;
use vstd::prelude::*;

verus! {

/// The kinds of token that the scanner produces.
#[allow(non_camel_case_types)]
#[derive(PartialEq, Eq, Structural, Copy, Clone, Debug)]
pub enum TokenType {
    LEFT_PAREN,
    RIGHT_PAREN,
    LEFT_BRACE,
    RIGHT_BRACE,
    COMMA,
    DOT,
    MINUS,
    PLUS,
    SEMICOLON,
    SLASH,
    STAR,
    QUESTION_MARK,
    COLON,
    BANG,
    BANG_EQUAL,
    EQUAL,
    EQUAL_EQUAL,
    GREATER,
    GREATER_EQUAL,
    LESS,
    LESS_EQUAL,
    IDENTIFIER,
    STRING,
    NUMBER,
    AND,
    CLASS,
    ELSE,
    FALSE,
    FUN,
    FOR,
    IF,
    NIL,
    OR,
    PRINT,
    RETURN,
    SUPER,
    THIS,
    TRUE,
    VAR,
    WHILE,
    BREAK,
    COMMENT,
    EOF,
}

/// The keyword spelled by `s`, if any.
pub open spec fn keyword_of(s: Seq<char>) -> Option<TokenType> {
    if s == "and"@ {
        Some(TokenType::AND)
    } else if s == "class"@ {
        Some(TokenType::CLASS)
    } else if s == "else"@ {
        Some(TokenType::ELSE)
    } else if s == "false"@ {
        Some(TokenType::FALSE)
    } else if s == "for"@ {
        Some(TokenType::FOR)
    } else if s == "fun"@ {
        Some(TokenType::FUN)
    } else if s == "if"@ {
        Some(TokenType::IF)
    } else if s == "nil"@ {
        Some(TokenType::NIL)
    } else if s == "or"@ {
        Some(TokenType::OR)
    } else if s == "print"@ {
        Some(TokenType::PRINT)
    } else if s == "return"@ {
        Some(TokenType::RETURN)
    } else if s == "super"@ {
        Some(TokenType::SUPER)
    } else if s == "this"@ {
        Some(TokenType::THIS)
    } else if s == "true"@ {
        Some(TokenType::TRUE)
    } else if s == "var"@ {
        Some(TokenType::VAR)
    } else if s == "while"@ {
        Some(TokenType::WHILE)
    } else if s == "break"@ {
        Some(TokenType::BREAK)
    } else {
        None
    }
}

/// The token types of the reserved words.
pub open spec fn is_keyword_type(t: TokenType) -> bool {
    t == TokenType::AND || t == TokenType::CLASS || t == TokenType::ELSE || t == TokenType::FALSE || t == TokenType::FOR || t == TokenType::FUN || t == TokenType::IF || t == TokenType::NIL || t == TokenType::OR || t == TokenType::PRINT || t == TokenType::RETURN || t == TokenType::SUPER || t == TokenType::THIS || t == TokenType::TRUE || t == TokenType::VAR || t == TokenType::WHILE || t == TokenType::BREAK
}

/// The text that names a token type in messages.
pub open spec fn token_type_text(t: TokenType) -> Seq<char> {
    match t {
        TokenType::LEFT_PAREN => "("@,
        TokenType::RIGHT_PAREN => ")"@,
        TokenType::LEFT_BRACE => "{"@,
        TokenType::RIGHT_BRACE => "}"@,
        TokenType::COMMA => ","@,
        TokenType::DOT => "."@,
        TokenType::MINUS => "-"@,
        TokenType::PLUS => "+"@,
        TokenType::SEMICOLON => ";"@,
        TokenType::SLASH => "/"@,
        TokenType::STAR => "*"@,
        TokenType::QUESTION_MARK => "?"@,
        TokenType::COLON => ":"@,
        TokenType::BANG => "!"@,
        TokenType::BANG_EQUAL => "!="@,
        TokenType::EQUAL => "="@,
        TokenType::EQUAL_EQUAL => "=="@,
        TokenType::GREATER => ">"@,
        TokenType::GREATER_EQUAL => ">="@,
        TokenType::LESS => "<"@,
        TokenType::LESS_EQUAL => "<="@,
        TokenType::IDENTIFIER => "{IDENTIFIER}"@,
        TokenType::STRING => "{STRING}"@,
        TokenType::NUMBER => "{NUMBER}"@,
        TokenType::AND => "and"@,
        TokenType::CLASS => "class"@,
        TokenType::ELSE => "else"@,
        TokenType::FALSE => "false"@,
        TokenType::FUN => "fun"@,
        TokenType::FOR => "for"@,
        TokenType::IF => "if"@,
        TokenType::NIL => "NIL"@,
        TokenType::OR => "or"@,
        TokenType::PRINT => "print"@,
        TokenType::RETURN => "return"@,
        TokenType::SUPER => "super"@,
        TokenType::THIS => "this"@,
        TokenType::TRUE => "true"@,
        TokenType::VAR => "var"@,
        TokenType::WHILE => "while"@,
        TokenType::BREAK => "break"@,
        TokenType::COMMENT => "{COMMENT}"@,
        TokenType::EOF => "EOF"@,
    }
}

impl TokenType {
    /// The keyword spelled by `keyword`, if any.
    pub fn from_lexeme(keyword: &str) -> (res: Option<Self>)
        ensures
            res == keyword_of(keyword@),
    {
        if str_eq(keyword, "and") {
            return Some(TokenType::AND);
        }
        if str_eq(keyword, "class") {
            return Some(TokenType::CLASS);
        }
        if str_eq(keyword, "else") {
            return Some(TokenType::ELSE);
        }
        if str_eq(keyword, "false") {
            return Some(TokenType::FALSE);
        }
        if str_eq(keyword, "for") {
            return Some(TokenType::FOR);
        }
        if str_eq(keyword, "fun") {
            return Some(TokenType::FUN);
        }
        if str_eq(keyword, "if") {
            return Some(TokenType::IF);
        }
        if str_eq(keyword, "nil") {
            return Some(TokenType::NIL);
        }
        if str_eq(keyword, "or") {
            return Some(TokenType::OR);
        }
        if str_eq(keyword, "print") {
            return Some(TokenType::PRINT);
        }
        if str_eq(keyword, "return") {
            return Some(TokenType::RETURN);
        }
        if str_eq(keyword, "super") {
            return Some(TokenType::SUPER);
        }
        if str_eq(keyword, "this") {
            return Some(TokenType::THIS);
        }
        if str_eq(keyword, "true") {
            return Some(TokenType::TRUE);
        }
        if str_eq(keyword, "var") {
            return Some(TokenType::VAR);
        }
        if str_eq(keyword, "while") {
            return Some(TokenType::WHILE);
        }
        if str_eq(keyword, "break") {
            return Some(TokenType::BREAK);
        }
        None
    }

    /// The text that names this token type in messages.
    pub fn text(&self) -> (res: &'static str)
        ensures
            res@ == token_type_text(*self),
    {
        match self {
            TokenType::LEFT_PAREN => "(",
            TokenType::RIGHT_PAREN => ")",
            TokenType::LEFT_BRACE => "{",
            TokenType::RIGHT_BRACE => "}",
            TokenType::COMMA => ",",
            TokenType::DOT => ".",
            TokenType::MINUS => "-",
            TokenType::PLUS => "+",
            TokenType::SEMICOLON => ";",
            TokenType::SLASH => "/",
            TokenType::STAR => "*",
            TokenType::QUESTION_MARK => "?",
            TokenType::COLON => ":",
            TokenType::BANG => "!",
            TokenType::BANG_EQUAL => "!=",
            TokenType::EQUAL => "=",
            TokenType::EQUAL_EQUAL => "==",
            TokenType::GREATER => ">",
            TokenType::GREATER_EQUAL => ">=",
            TokenType::LESS => "<",
            TokenType::LESS_EQUAL => "<=",
            TokenType::IDENTIFIER => "{IDENTIFIER}",
            TokenType::STRING => "{STRING}",
            TokenType::NUMBER => "{NUMBER}",
            TokenType::AND => "and",
            TokenType::CLASS => "class",
            TokenType::ELSE => "else",
            TokenType::FALSE => "false",
            TokenType::FUN => "fun",
            TokenType::FOR => "for",
            TokenType::IF => "if",
            TokenType::NIL => "NIL",
            TokenType::OR => "or",
            TokenType::PRINT => "print",
            TokenType::RETURN => "return",
            TokenType::SUPER => "super",
            TokenType::THIS => "this",
            TokenType::TRUE => "true",
            TokenType::VAR => "var",
            TokenType::WHILE => "while",
            TokenType::BREAK => "break",
            TokenType::COMMENT => "{COMMENT}",
            TokenType::EOF => "EOF",
        }
    }
}

/// A closed subset of the token types, such as the binary operators.
pub trait OperatorSubset: Sized + Copy {
    /// The token types of the subset, in declaration order.
    spec fn spec_variants() -> Seq<TokenType>;

    /// The member standing for `t`, if `t` belongs to the subset.
    spec fn spec_from_token_type(t: TokenType) -> Option<Self>;

    /// The token type that this member stands for.
    spec fn spec_token_type(self) -> TokenType;

    fn variants() -> (res: Vec<TokenType>)
        ensures
            res@ == Self::spec_variants(),
    ;

    fn try_from_token_type(t: TokenType) -> (res: Option<Self>)
        ensures
            res == Self::spec_from_token_type(t),
    ;

    fn token_type(self) -> (res: TokenType)
        ensures
            res == self.spec_token_type(),
    ;

    /// A token type converts to a member exactly when it is one of the
    /// variants, and the member stands for it.
    proof fn lemma_subset(t: TokenType)
        ensures
            Self::spec_from_token_type(t) is Some <==> Self::spec_variants().contains(t),
            Self::spec_from_token_type(t) matches Some(op) ==> op.spec_token_type() == t,
    ;
}

/// The token types that carry a value.
#[allow(non_camel_case_types)]
#[derive(PartialEq, Eq, Structural, Copy, Clone, Debug)]
pub enum ValueTokenTypes {
    STRING,
    NUMBER,
    TRUE,
    FALSE,
    NIL,
    IDENTIFIER,
    COMMENT,
}

impl OperatorSubset for ValueTokenTypes {
    open spec fn spec_variants() -> Seq<TokenType> {
        seq![TokenType::STRING, TokenType::NUMBER, TokenType::TRUE, TokenType::FALSE, TokenType::NIL, TokenType::IDENTIFIER, TokenType::COMMENT]
    }

    open spec fn spec_from_token_type(t: TokenType) -> Option<Self> {
        match t {
            TokenType::STRING => Some(ValueTokenTypes::STRING),
            TokenType::NUMBER => Some(ValueTokenTypes::NUMBER),
            TokenType::TRUE => Some(ValueTokenTypes::TRUE),
            TokenType::FALSE => Some(ValueTokenTypes::FALSE),
            TokenType::NIL => Some(ValueTokenTypes::NIL),
            TokenType::IDENTIFIER => Some(ValueTokenTypes::IDENTIFIER),
            TokenType::COMMENT => Some(ValueTokenTypes::COMMENT),
            _ => None,
        }
    }

    open spec fn spec_token_type(self) -> TokenType {
        match self {
            ValueTokenTypes::STRING => TokenType::STRING,
            ValueTokenTypes::NUMBER => TokenType::NUMBER,
            ValueTokenTypes::TRUE => TokenType::TRUE,
            ValueTokenTypes::FALSE => TokenType::FALSE,
            ValueTokenTypes::NIL => TokenType::NIL,
            ValueTokenTypes::IDENTIFIER => TokenType::IDENTIFIER,
            ValueTokenTypes::COMMENT => TokenType::COMMENT,
        }
    }

    fn variants() -> (res: Vec<TokenType>) {
        let res = vec![TokenType::STRING, TokenType::NUMBER, TokenType::TRUE, TokenType::FALSE, TokenType::NIL, TokenType::IDENTIFIER, TokenType::COMMENT];
        assert(res@ =~= Self::spec_variants());
        res
    }

    fn try_from_token_type(t: TokenType) -> (res: Option<Self>) {
        match t {
            TokenType::STRING => Some(ValueTokenTypes::STRING),
            TokenType::NUMBER => Some(ValueTokenTypes::NUMBER),
            TokenType::TRUE => Some(ValueTokenTypes::TRUE),
            TokenType::FALSE => Some(ValueTokenTypes::FALSE),
            TokenType::NIL => Some(ValueTokenTypes::NIL),
            TokenType::IDENTIFIER => Some(ValueTokenTypes::IDENTIFIER),
            TokenType::COMMENT => Some(ValueTokenTypes::COMMENT),
            _ => None,
        }
    }

    fn token_type(self) -> (res: TokenType) {
        match self {
            ValueTokenTypes::STRING => TokenType::STRING,
            ValueTokenTypes::NUMBER => TokenType::NUMBER,
            ValueTokenTypes::TRUE => TokenType::TRUE,
            ValueTokenTypes::FALSE => TokenType::FALSE,
            ValueTokenTypes::NIL => TokenType::NIL,
            ValueTokenTypes::IDENTIFIER => TokenType::IDENTIFIER,
            ValueTokenTypes::COMMENT => TokenType::COMMENT,
        }
    }

    proof fn lemma_subset(t: TokenType) {
        let v = Self::spec_variants();
        match t {
            TokenType::STRING => {
                assert(v[0] == t);
            }
            TokenType::NUMBER => {
                assert(v[1] == t);
            }
            TokenType::TRUE => {
                assert(v[2] == t);
            }
            TokenType::FALSE => {
                assert(v[3] == t);
            }
            TokenType::NIL => {
                assert(v[4] == t);
            }
            TokenType::IDENTIFIER => {
                assert(v[5] == t);
            }
            TokenType::COMMENT => {
                assert(v[6] == t);
            }
            _ => {
                assert(!v.contains(t)) by {
                    if v.contains(t) {
                        let i = choose|i: int| 0 <= i < v.len() && v[i] == t;
                        assert(v[i] == t);
                    }
                }
            }
        }
    }
}


/// Every reserved word reads back as its own token type, never as an
/// identifier: the word that names a keyword type in messages, read as a
/// lexeme, is that keyword (so `else` is `ELSE`, `and` is `AND`, and so on),
/// and `nil`, whose type is named `NIL` in messages, is `NIL`.
pub proof fn lemma_keyword_round_trip(t: TokenType)
    requires
        is_keyword_type(t),
    ensures
        t != TokenType::NIL ==> keyword_of(token_type_text(t)) == Some(t),
        keyword_of("nil"@) == Some(TokenType::NIL),
{
    reveal_strlit("nil");
    reveal_strlit("and");
    reveal_strlit("class");
    reveal_strlit("else");
    reveal_strlit("false");
    reveal_strlit("for");
    reveal_strlit("fun");
    reveal_strlit("if");
    assert("nil"@[0] != "and"@[0]);
    assert("nil"@.len() != "class"@.len());
    assert("nil"@.len() != "else"@.len());
    assert("nil"@.len() != "false"@.len());
    assert("nil"@[0] != "for"@[0]);
    assert("nil"@[0] != "fun"@[0]);
    assert("nil"@.len() != "if"@.len());
    match t {
        TokenType::AND => {
            reveal_strlit("and");

            assert(keyword_of(token_type_text(t)) == Some(t));
        },
        TokenType::CLASS => {
            reveal_strlit("class");
            reveal_strlit("and");
            assert("class"@.len() != "and"@.len());
            assert(keyword_of(token_type_text(t)) == Some(t));
        },
        TokenType::ELSE => {
            reveal_strlit("else");
            reveal_strlit("and");
            reveal_strlit("class");
            assert("else"@.len() != "and"@.len());
            assert("else"@.len() != "class"@.len());
            assert(keyword_of(token_type_text(t)) == Some(t));
        },
        TokenType::FALSE => {
            reveal_strlit("false");
            reveal_strlit("and");
            reveal_strlit("class");
            reveal_strlit("else");
            assert("false"@.len() != "and"@.len());
            assert("false"@[0] != "class"@[0]);
            assert("false"@.len() != "else"@.len());
            assert(keyword_of(token_type_text(t)) == Some(t));
        },
        TokenType::FOR => {
            reveal_strlit("for");
            reveal_strlit("and");
            reveal_strlit("class");
            reveal_strlit("else");
            reveal_strlit("false");
            assert("for"@[0] != "and"@[0]);
            assert("for"@.len() != "class"@.len());
            assert("for"@.len() != "else"@.len());
            assert("for"@.len() != "false"@.len());
            assert(keyword_of(token_type_text(t)) == Some(t));
        },
        TokenType::FUN => {
            reveal_strlit("fun");
            reveal_strlit("and");
            reveal_strlit("class");
            reveal_strlit("else");
            reveal_strlit("false");
            reveal_strlit("for");
            assert("fun"@[0] != "and"@[0]);
            assert("fun"@.len() != "class"@.len());
            assert("fun"@.len() != "else"@.len());
            assert("fun"@.len() != "false"@.len());
            assert("fun"@[1] != "for"@[1]);
            assert(keyword_of(token_type_text(t)) == Some(t));
        },
        TokenType::IF => {
            reveal_strlit("if");
            reveal_strlit("and");
            reveal_strlit("class");
            reveal_strlit("else");
            reveal_strlit("false");
            reveal_strlit("for");
            reveal_strlit("fun");
            assert("if"@.len() != "and"@.len());
            assert("if"@.len() != "class"@.len());
            assert("if"@.len() != "else"@.len());
            assert("if"@.len() != "false"@.len());
            assert("if"@.len() != "for"@.len());
            assert("if"@.len() != "fun"@.len());
            assert(keyword_of(token_type_text(t)) == Some(t));
        },
        TokenType::OR => {
            reveal_strlit("or");
            reveal_strlit("and");
            reveal_strlit("class");
            reveal_strlit("else");
            reveal_strlit("false");
            reveal_strlit("for");
            reveal_strlit("fun");
            reveal_strlit("if");
            reveal_strlit("nil");
            assert("or"@.len() != "and"@.len());
            assert("or"@.len() != "class"@.len());
            assert("or"@.len() != "else"@.len());
            assert("or"@.len() != "false"@.len());
            assert("or"@.len() != "for"@.len());
            assert("or"@.len() != "fun"@.len());
            assert("or"@[0] != "if"@[0]);
            assert("or"@.len() != "nil"@.len());
            assert(keyword_of(token_type_text(t)) == Some(t));
        },
        TokenType::PRINT => {
            reveal_strlit("print");
            reveal_strlit("and");
            reveal_strlit("class");
            reveal_strlit("else");
            reveal_strlit("false");
            reveal_strlit("for");
            reveal_strlit("fun");
            reveal_strlit("if");
            reveal_strlit("nil");
            reveal_strlit("or");
            assert("print"@.len() != "and"@.len());
            assert("print"@[0] != "class"@[0]);
            assert("print"@.len() != "else"@.len());
            assert("print"@[0] != "false"@[0]);
            assert("print"@.len() != "for"@.len());
            assert("print"@.len() != "fun"@.len());
            assert("print"@.len() != "if"@.len());
            assert("print"@.len() != "nil"@.len());
            assert("print"@.len() != "or"@.len());
            assert(keyword_of(token_type_text(t)) == Some(t));
        },
        TokenType::RETURN => {
            reveal_strlit("return");
            reveal_strlit("and");
            reveal_strlit("class");
            reveal_strlit("else");
            reveal_strlit("false");
            reveal_strlit("for");
            reveal_strlit("fun");
            reveal_strlit("if");
            reveal_strlit("nil");
            reveal_strlit("or");
            reveal_strlit("print");
            assert("return"@.len() != "and"@.len());
            assert("return"@.len() != "class"@.len());
            assert("return"@.len() != "else"@.len());
            assert("return"@.len() != "false"@.len());
            assert("return"@.len() != "for"@.len());
            assert("return"@.len() != "fun"@.len());
            assert("return"@.len() != "if"@.len());
            assert("return"@.len() != "nil"@.len());
            assert("return"@.len() != "or"@.len());
            assert("return"@.len() != "print"@.len());
            assert(keyword_of(token_type_text(t)) == Some(t));
        },
        TokenType::SUPER => {
            reveal_strlit("super");
            reveal_strlit("and");
            reveal_strlit("class");
            reveal_strlit("else");
            reveal_strlit("false");
            reveal_strlit("for");
            reveal_strlit("fun");
            reveal_strlit("if");
            reveal_strlit("nil");
            reveal_strlit("or");
            reveal_strlit("print");
            reveal_strlit("return");
            assert("super"@.len() != "and"@.len());
            assert("super"@[0] != "class"@[0]);
            assert("super"@.len() != "else"@.len());
            assert("super"@[0] != "false"@[0]);
            assert("super"@.len() != "for"@.len());
            assert("super"@.len() != "fun"@.len());
            assert("super"@.len() != "if"@.len());
            assert("super"@.len() != "nil"@.len());
            assert("super"@.len() != "or"@.len());
            assert("super"@[0] != "print"@[0]);
            assert("super"@.len() != "return"@.len());
            assert(keyword_of(token_type_text(t)) == Some(t));
        },
        TokenType::THIS => {
            reveal_strlit("this");
            reveal_strlit("and");
            reveal_strlit("class");
            reveal_strlit("else");
            reveal_strlit("false");
            reveal_strlit("for");
            reveal_strlit("fun");
            reveal_strlit("if");
            reveal_strlit("nil");
            reveal_strlit("or");
            reveal_strlit("print");
            reveal_strlit("return");
            reveal_strlit("super");
            assert("this"@.len() != "and"@.len());
            assert("this"@.len() != "class"@.len());
            assert("this"@[0] != "else"@[0]);
            assert("this"@.len() != "false"@.len());
            assert("this"@.len() != "for"@.len());
            assert("this"@.len() != "fun"@.len());
            assert("this"@.len() != "if"@.len());
            assert("this"@.len() != "nil"@.len());
            assert("this"@.len() != "or"@.len());
            assert("this"@.len() != "print"@.len());
            assert("this"@.len() != "return"@.len());
            assert("this"@.len() != "super"@.len());
            assert(keyword_of(token_type_text(t)) == Some(t));
        },
        TokenType::TRUE => {
            reveal_strlit("true");
            reveal_strlit("and");
            reveal_strlit("class");
            reveal_strlit("else");
            reveal_strlit("false");
            reveal_strlit("for");
            reveal_strlit("fun");
            reveal_strlit("if");
            reveal_strlit("nil");
            reveal_strlit("or");
            reveal_strlit("print");
            reveal_strlit("return");
            reveal_strlit("super");
            reveal_strlit("this");
            assert("true"@.len() != "and"@.len());
            assert("true"@.len() != "class"@.len());
            assert("true"@[0] != "else"@[0]);
            assert("true"@.len() != "false"@.len());
            assert("true"@.len() != "for"@.len());
            assert("true"@.len() != "fun"@.len());
            assert("true"@.len() != "if"@.len());
            assert("true"@.len() != "nil"@.len());
            assert("true"@.len() != "or"@.len());
            assert("true"@.len() != "print"@.len());
            assert("true"@.len() != "return"@.len());
            assert("true"@.len() != "super"@.len());
            assert("true"@[1] != "this"@[1]);
            assert(keyword_of(token_type_text(t)) == Some(t));
        },
        TokenType::VAR => {
            reveal_strlit("var");
            reveal_strlit("and");
            reveal_strlit("class");
            reveal_strlit("else");
            reveal_strlit("false");
            reveal_strlit("for");
            reveal_strlit("fun");
            reveal_strlit("if");
            reveal_strlit("nil");
            reveal_strlit("or");
            reveal_strlit("print");
            reveal_strlit("return");
            reveal_strlit("super");
            reveal_strlit("this");
            reveal_strlit("true");
            assert("var"@[0] != "and"@[0]);
            assert("var"@.len() != "class"@.len());
            assert("var"@.len() != "else"@.len());
            assert("var"@.len() != "false"@.len());
            assert("var"@[0] != "for"@[0]);
            assert("var"@[0] != "fun"@[0]);
            assert("var"@.len() != "if"@.len());
            assert("var"@[0] != "nil"@[0]);
            assert("var"@.len() != "or"@.len());
            assert("var"@.len() != "print"@.len());
            assert("var"@.len() != "return"@.len());
            assert("var"@.len() != "super"@.len());
            assert("var"@.len() != "this"@.len());
            assert("var"@.len() != "true"@.len());
            assert(keyword_of(token_type_text(t)) == Some(t));
        },
        TokenType::WHILE => {
            reveal_strlit("while");
            reveal_strlit("and");
            reveal_strlit("class");
            reveal_strlit("else");
            reveal_strlit("false");
            reveal_strlit("for");
            reveal_strlit("fun");
            reveal_strlit("if");
            reveal_strlit("nil");
            reveal_strlit("or");
            reveal_strlit("print");
            reveal_strlit("return");
            reveal_strlit("super");
            reveal_strlit("this");
            reveal_strlit("true");
            reveal_strlit("var");
            assert("while"@.len() != "and"@.len());
            assert("while"@[0] != "class"@[0]);
            assert("while"@.len() != "else"@.len());
            assert("while"@[0] != "false"@[0]);
            assert("while"@.len() != "for"@.len());
            assert("while"@.len() != "fun"@.len());
            assert("while"@.len() != "if"@.len());
            assert("while"@.len() != "nil"@.len());
            assert("while"@.len() != "or"@.len());
            assert("while"@[0] != "print"@[0]);
            assert("while"@.len() != "return"@.len());
            assert("while"@[0] != "super"@[0]);
            assert("while"@.len() != "this"@.len());
            assert("while"@.len() != "true"@.len());
            assert("while"@.len() != "var"@.len());
            assert(keyword_of(token_type_text(t)) == Some(t));
        },
        TokenType::BREAK => {
            reveal_strlit("break");
            reveal_strlit("and");
            reveal_strlit("class");
            reveal_strlit("else");
            reveal_strlit("false");
            reveal_strlit("for");
            reveal_strlit("fun");
            reveal_strlit("if");
            reveal_strlit("nil");
            reveal_strlit("or");
            reveal_strlit("print");
            reveal_strlit("return");
            reveal_strlit("super");
            reveal_strlit("this");
            reveal_strlit("true");
            reveal_strlit("var");
            reveal_strlit("while");
            assert("break"@.len() != "and"@.len());
            assert("break"@[0] != "class"@[0]);
            assert("break"@.len() != "else"@.len());
            assert("break"@[0] != "false"@[0]);
            assert("break"@.len() != "for"@.len());
            assert("break"@.len() != "fun"@.len());
            assert("break"@.len() != "if"@.len());
            assert("break"@.len() != "nil"@.len());
            assert("break"@.len() != "or"@.len());
            assert("break"@[0] != "print"@[0]);
            assert("break"@.len() != "return"@.len());
            assert("break"@[0] != "super"@[0]);
            assert("break"@.len() != "this"@.len());
            assert("break"@.len() != "true"@.len());
            assert("break"@.len() != "var"@.len());
            assert("break"@[0] != "while"@[0]);
            assert(keyword_of(token_type_text(t)) == Some(t));
        },
        _ => {},
    }
}

} // verus!
