pub mod grammar;
pub mod parser_error;

use crate::expressions::{
    exprs_model, expr_model, function_model, lemma_exprs_model_push, lemma_stmts_model_push,
    opt_expr_model, opt_stmt_model, stmt_model, stmts_model, BinaryOperator, Expr, ExprKind, Function,
    FunctionKind, Literal, LogicalOperator, SExpr, SExprKind, SFunction, SStatement, Statement,
    UnaryOperator,
};
use crate::parser::grammar::{
    advance, args_end, args_loop, binary_loop, block_loop, call_loop, consume_if, consume_name,
    consume_one, return_end,
    current, failed_to_match, infix_binding, lemma_consume_if,
    logical_binding, logical_loop, params_loop, parse_loop, peek_subset, rem, semicolon_or_eof,
    skip_comments, sp_binary, sp_block, sp_build_call, sp_declaration, sp_expression, sp_for,
    sp_for_rest, sp_function, sp_function_declaration, sp_if, sp_keyword, sp_logical,
    sp_loop_body, sp_prefix, sp_program, sp_return, sp_statement, sp_while, sync_loop,
    synchronise, token_value, value_expr, PState,
};
use crate::parser::parser_error::{
    lemma_parser_errors_model, lemma_parser_errors_model_push, parser_errors_model,
    unexpected_token_error, ParserError as Error, SParserError,
};
use crate::scanner::{lexeme, lexeme_len, scan_spec, Lexeme};
use crate::text::newline_count;
use crate::token::{SpecToken, SpecTokenValue, Token, TokenValue};
use crate::token_type::{OperatorSubset, TokenType, ValueTokenTypes};
use vstd::prelude::*;

verus! {

/// How tightly a short-circuit operator binds.
pub fn logical_precedence(token_type: LogicalOperator) -> (res: usize)
    ensures
        res == logical_binding(token_type),
{
    match token_type {
        LogicalOperator::AND => 1,
        LogicalOperator::OR => 2,
    }
}

/// How tightly an infix operator binds on its left and on its right.
pub fn infix_precedence(token_type: BinaryOperator) -> (res: (usize, usize))
    ensures
        res.0 == infix_binding(token_type).0,
        res.1 == infix_binding(token_type).1,
{
    match token_type {
        BinaryOperator::COMMA => (2, 3),
        BinaryOperator::QUESTION_MARK | BinaryOperator::COLON => (5, 4),
        BinaryOperator::EQUAL_EQUAL | BinaryOperator::BANG_EQUAL => (6, 7),
        BinaryOperator::LESS
        | BinaryOperator::LESS_EQUAL
        | BinaryOperator::GREATER
        | BinaryOperator::GREATER_EQUAL => (8, 9),
        BinaryOperator::PLUS | BinaryOperator::MINUS => (10, 11),
        BinaryOperator::STAR | BinaryOperator::SLASH => (12, 13),
    }
}

/// The token types that start a statement.
#[allow(non_camel_case_types)]
#[derive(PartialEq, Eq, Structural, Copy, Clone, Debug)]
pub enum Keyword {
    VAR,
    FUN,
    PRINT,
    IF,
    WHILE,
    FOR,
    BREAK,
    RETURN,
}

impl OperatorSubset for Keyword {
    open spec fn spec_variants() -> Seq<TokenType> {
        seq![TokenType::VAR, TokenType::FUN, TokenType::PRINT, TokenType::IF, TokenType::WHILE, TokenType::FOR, TokenType::BREAK, TokenType::RETURN]
    }

    open spec fn spec_from_token_type(t: TokenType) -> Option<Self> {
        match t {
            TokenType::VAR => Some(Keyword::VAR),
            TokenType::FUN => Some(Keyword::FUN),
            TokenType::PRINT => Some(Keyword::PRINT),
            TokenType::IF => Some(Keyword::IF),
            TokenType::WHILE => Some(Keyword::WHILE),
            TokenType::FOR => Some(Keyword::FOR),
            TokenType::BREAK => Some(Keyword::BREAK),
            TokenType::RETURN => Some(Keyword::RETURN),
            _ => None,
        }
    }

    open spec fn spec_token_type(self) -> TokenType {
        match self {
            Keyword::VAR => TokenType::VAR,
            Keyword::FUN => TokenType::FUN,
            Keyword::PRINT => TokenType::PRINT,
            Keyword::IF => TokenType::IF,
            Keyword::WHILE => TokenType::WHILE,
            Keyword::FOR => TokenType::FOR,
            Keyword::BREAK => TokenType::BREAK,
            Keyword::RETURN => TokenType::RETURN,
        }
    }

    fn variants() -> (res: Vec<TokenType>) {
        let res = vec![TokenType::VAR, TokenType::FUN, TokenType::PRINT, TokenType::IF, TokenType::WHILE, TokenType::FOR, TokenType::BREAK, TokenType::RETURN];
        assert(res@ =~= Self::spec_variants());
        res
    }

    fn try_from_token_type(t: TokenType) -> (res: Option<Self>) {
        match t {
            TokenType::VAR => Some(Keyword::VAR),
            TokenType::FUN => Some(Keyword::FUN),
            TokenType::PRINT => Some(Keyword::PRINT),
            TokenType::IF => Some(Keyword::IF),
            TokenType::WHILE => Some(Keyword::WHILE),
            TokenType::FOR => Some(Keyword::FOR),
            TokenType::BREAK => Some(Keyword::BREAK),
            TokenType::RETURN => Some(Keyword::RETURN),
            _ => None,
        }
    }

    fn token_type(self) -> (res: TokenType) {
        match self {
            Keyword::VAR => TokenType::VAR,
            Keyword::FUN => TokenType::FUN,
            Keyword::PRINT => TokenType::PRINT,
            Keyword::IF => TokenType::IF,
            Keyword::WHILE => TokenType::WHILE,
            Keyword::FOR => TokenType::FOR,
            Keyword::BREAK => TokenType::BREAK,
            Keyword::RETURN => TokenType::RETURN,
        }
    }

    proof fn lemma_subset(t: TokenType) {
        let v = Self::spec_variants();
        match t {
            TokenType::VAR => {
                assert(v[0] == t);
            }
            TokenType::FUN => {
                assert(v[1] == t);
            }
            TokenType::PRINT => {
                assert(v[2] == t);
            }
            TokenType::IF => {
                assert(v[3] == t);
            }
            TokenType::WHILE => {
                assert(v[4] == t);
            }
            TokenType::FOR => {
                assert(v[5] == t);
            }
            TokenType::BREAK => {
                assert(v[6] == t);
            }
            TokenType::RETURN => {
                assert(v[7] == t);
            }
            _ => {
                assert(!v.contains(t)) by {
                    if v.contains(t) {
                        let i = choose|i: int| 0 <= i < v.len() && v[i] == t;
                        assert(v[i] == t);
                    }
                }
            }
        }
    }
}

/// A token as the scanner makes it: a token of a value-carrying type
/// carries a value, and an identifier carries its name.
pub open spec fn token_wf(t: Token) -> bool {
    &&& ValueTokenTypes::spec_from_token_type(t.token_type) is Some ==> t.token_value is Some
    &&& t.token_type == TokenType::IDENTIFIER ==> is_identifier_value(t.token_value)
    &&& is_comment_value(t.token_value) ==> t.token_type == TokenType::COMMENT
}

pub open spec fn is_identifier_value(v: Option<TokenValue>) -> bool {
    match v {
        Some(TokenValue::Identifier(_)) => true,
        _ => false,
    }
}

pub open spec fn is_comment_value(v: Option<TokenValue>) -> bool {
    match v {
        Some(TokenValue::Comment(_)) => true,
        _ => false,
    }
}

pub open spec fn tokens_wf(ts: Seq<Token>) -> bool {
    forall|i: int| 0 <= i < ts.len() ==> token_wf(#[trigger] ts[i])
}

/// `token_wf` on the model of a token.
pub open spec fn spec_token_wf(t: SpecToken) -> bool {
    &&& ValueTokenTypes::spec_from_token_type(t.token_type) is Some ==> t.token_value is Some
    &&& t.token_type == TokenType::IDENTIFIER ==> (t.token_value matches Some(
        SpecTokenValue::Identifier(_),
    ))
    &&& (t.token_value matches Some(SpecTokenValue::Comment(_))) ==> t.token_type
        == TokenType::COMMENT
}

/// A token is well formed when its model is.
pub proof fn lemma_token_wf_view(t: Token)
    ensures
        token_wf(t) <==> spec_token_wf(t@),
{
}

/// Every token that scanning gives is well formed: value tokens carry
/// their value, identifiers their name, and only comments a comment.
pub proof fn lemma_scanned_tokens_wf(r: Seq<char>, line: nat)
    ensures
        forall|i: int|
            0 <= i < scan_spec(r, line).0.len() ==> spec_token_wf(#[trigger] scan_spec(r, line).0[i]),
    decreases r.len(),
{
    if r.len() > 0 {
        let n = lexeme_len(r);
        if n > 0 && n <= r.len() {
            let next_line = line + newline_count(r.take(n as int));
            lemma_scanned_tokens_wf(r.skip(n as int), next_line);
            let toks = scan_spec(r, line).0;
            let rest = scan_spec(r.skip(n as int), next_line).0;
            if let Lexeme::Emit(t, v) = lexeme(r) {
                let tok = SpecToken { token_type: t, token_value: v, line };
                assert(spec_token_wf(tok));
                assert(toks == seq![tok] + rest);
                assert forall|i: int| 0 <= i < toks.len() implies spec_token_wf(#[trigger] toks[i]) by {
                    if i > 0 {
                        assert(toks[i] == rest[i - 1]);
                    }
                }
            }
        }
    }
}

/// A result with its error taken by its model.
pub open spec fn model_result<T>(r: Result<T, Error>) -> Result<T, SParserError> {
    match r {
        Ok(t) => Ok(t),
        Err(e) => Err(e@),
    }
}

/// The tokens, read past comments; an `EOF` token ends them.
struct TokenCursor<'a> {
    tokens: Vec<Token<'a>>,
    pos: usize,
    checked_tokens: Vec<TokenType>,
}

impl<'a> TokenCursor<'a> {
    spec fn wf(&self) -> bool {
        &&& self.pos <= self.tokens.len()
        &&& tokens_wf(self.tokens@)
        &&& self.pos < self.tokens.len() ==> self.tokens@[self.pos as int].token_type
            != TokenType::COMMENT
    }

    /// Where the cursor stands, for the grammar.
    spec fn state(&self) -> PState {
        PState { pos: self.pos as nat, checked: self.checked_tokens@ }
    }

    /// The next token, unless the input has ended.
    spec fn current(&self) -> Option<Token<'a>> {
        current(self.tokens@, self.state())
    }

    /// How many tokens are left.
    spec fn rem(&self) -> nat {
        (self.tokens.len() - self.pos) as nat
    }

    fn skip_comments(&mut self)
        requires
            old(self).pos <= old(self).tokens.len(),
            tokens_wf(old(self).tokens@),
        ensures
            final(self).wf(),
            final(self).tokens@ == old(self).tokens@,
            final(self).checked_tokens@ == old(self).checked_tokens@,
            final(self).pos >= old(self).pos,
            final(self).pos == skip_comments(old(self).tokens@, old(self).pos as nat),
    {
        while self.pos < self.tokens.len() && self.tokens[self.pos].token_type == TokenType::COMMENT
            invariant
                self.pos <= self.tokens.len(),
                self.tokens@ == old(self).tokens@,
                self.checked_tokens@ == old(self).checked_tokens@,
                self.pos >= old(self).pos,
                tokens_wf(self.tokens@),
                skip_comments(self.tokens@, self.pos as nat) == skip_comments(old(self).tokens@, old(self).pos as nat),
            decreases self.tokens.len() - self.pos,
        {
            self.pos = self.pos + 1;
        }
    }

    fn new(tokens: Vec<Token<'a>>) -> (res: Self)
        requires
            tokens_wf(tokens@),
        ensures
            res.wf(),
            res.tokens@ == tokens@,
            res.checked_tokens@.len() == 0,
            res.state() == (PState { pos: skip_comments(tokens@, 0), checked: seq![] }),
    {
        let mut c = TokenCursor { tokens, pos: 0, checked_tokens: vec![] };
        c.skip_comments();
        c
    }

    fn next(&mut self) -> (res: Option<Token<'a>>)
        requires
            old(self).wf(),
        ensures
            final(self).wf(),
            final(self).tokens@ == old(self).tokens@,
            final(self).checked_tokens@.len() == 0,
            res == old(self).current(),
            res is Some ==> final(self).rem() < old(self).rem(),
            res is None ==> final(self).pos == old(self).pos,
            final(self).state() == advance(old(self).tokens@, old(self).state()),
    {
        self.checked_tokens.clear();
        if self.pos < self.tokens.len() && self.tokens[self.pos].token_type != TokenType::EOF {
            let t = self.tokens[self.pos];
            self.pos = self.pos + 1;
            self.skip_comments();
            proof {
                assert(self.checked_tokens@ =~= Seq::<TokenType>::empty());
            }
            Some(t)
        } else {
            proof {
                assert(self.checked_tokens@ =~= Seq::<TokenType>::empty());
            }
            None
        }
    }

    fn peek(&self) -> (res: Option<Token<'a>>)
        requires
            self.wf(),
        ensures
            res == self.current(),
    {
        if self.pos < self.tokens.len() && self.tokens[self.pos].token_type != TokenType::EOF {
            Some(self.tokens[self.pos])
        } else {
            None
        }
    }

    /// Consumes the next token if its type is one of `token_types`.
    fn consume_if(&mut self, token_types: &Vec<TokenType>) -> (res: Result<Token<'a>, Error>)
        requires
            old(self).wf(),
        ensures
            final(self).wf(),
            final(self).tokens@ == old(self).tokens@,
            match res {
                Ok(t) => {
                    &&& old(self).current() == Some(t)
                    &&& token_types@.contains(t.token_type)
                    &&& final(self).rem() < old(self).rem()
                    &&& final(self).checked_tokens@.len() == 0
                },
                Err(e) => {
                    &&& final(self).pos == old(self).pos
                    &&& final(self).checked_tokens@ == old(self).checked_tokens@ + token_types@
                    &&& e.synchronise
                    &&& (old(self).current() matches Some(t) ==> !token_types@.contains(
                        t.token_type,
                    ))
                },
            },
            (model_result(res), final(self).state()) == consume_if(old(self).tokens@, old(self).state(), token_types@),
    {
        self.extend_checked(token_types);
        match self.peek() {
            Some(t) => {
                if contains_type(token_types, t.token_type) {
                    let n = self.next();
                    Ok(n.unwrap())
                } else {
                    Err(Error::unexpected_token(&t, &self.checked_tokens))
                }
            },
            None => Err(Error::expected_token(&self.checked_tokens)),
        }
    }

    fn consume_one(&mut self, token_type: TokenType) -> (res: Result<Token<'a>, Error>)
        requires
            old(self).wf(),
        ensures
            final(self).wf(),
            final(self).tokens@ == old(self).tokens@,
            match res {
                Ok(t) => {
                    &&& old(self).current() == Some(t)
                    &&& t.token_type == token_type
                    &&& final(self).rem() < old(self).rem()
                },
                Err(e) => {
                    &&& final(self).pos == old(self).pos
                    &&& e.synchronise
                    &&& (old(self).current() matches Some(t) ==> t.token_type != token_type)
                },
            },
            (model_result(res), final(self).state()) == consume_if(old(self).tokens@, old(self).state(), seq![token_type]),
    {
        let v = vec![token_type];
        let r = self.consume_if(&v);
        proof {
            assert(v@ =~= seq![token_type]);
            if let Ok(t) = r {
                assert(v@.contains(t.token_type));
                assert(v@ =~= seq![token_type]);
            }
            if let Some(t) = old(self).current() {
                if t.token_type == token_type {
                    assert(v@[0] == token_type);
                }
            }
        }
        r
    }

    fn extend_checked(&mut self, token_types: &Vec<TokenType>)
        requires
            old(self).wf(),
        ensures
            final(self).wf(),
            final(self).tokens@ == old(self).tokens@,
            final(self).pos == old(self).pos,
            final(self).checked_tokens@ == old(self).checked_tokens@ + token_types@,
    {
        for i in 0..token_types.len()
            invariant
                self.wf(),
                self.tokens@ == old(self).tokens@,
                self.pos == old(self).pos,
                self.checked_tokens@ == old(self).checked_tokens@ + token_types@.take(i as int),
        {
            self.checked_tokens.push(token_types[i]);
            assert(token_types@.take(i + 1) =~= token_types@.take(i as int).push(token_types@[i as int]));
        }
        assert(token_types@.take(token_types.len() as int) =~= token_types@);
    }

    /// Consumes an identifier and returns its name.
    fn consume_name(&mut self) -> (res: Result<&'a str, Error>)
        requires
            old(self).wf(),
        ensures
            final(self).wf(),
            final(self).tokens@ == old(self).tokens@,
            match res {
                Ok(name) => {
                    &&& old(self).current() matches Some(t) && t.token_type == TokenType::IDENTIFIER
                        && t.token_value == Some(TokenValue::Identifier(name))
                    &&& final(self).rem() < old(self).rem()
                },
                Err(e) => final(self).pos == old(self).pos && e.synchronise,
            },
            (model_result(res), final(self).state()) == consume_name(old(self).tokens@, old(self).state()),
    {
        let token = self.consume_one(TokenType::IDENTIFIER)?;
        proof {
            assert(token_wf(old(self).tokens@[old(self).pos as int]));
        }
        match token.token_value {
            Some(TokenValue::Identifier(name)) => Ok(name),
            _ => {
                proof {
                    assert(false);
                }
                Err(Error::unexpected_eof("identifier"))
            },
        }
    }

    /// The next token as a member of the subset `Op`, with its line,
    /// without consuming it.
    fn peek_token_subset<Op: OperatorSubset>(&mut self) -> (res: Result<(Op, usize), Error>)
        requires
            old(self).wf(),
        ensures
            final(self).wf(),
            final(self).tokens@ == old(self).tokens@,
            final(self).pos == old(self).pos,
            match res {
                Ok((op, line)) => old(self).current() matches Some(t) && Op::spec_from_token_type(
                    t.token_type,
                ) == Some(op) && line == t.line,
                Err(_) => old(self).current() matches Some(t) ==> Op::spec_from_token_type(
                    t.token_type,
                ) is None,
            },
            (model_result(res), final(self).state()) == peek_subset::<Op>(old(self).tokens@, old(self).state()),
    {
        let variants = Op::variants();
        self.extend_checked(&variants);
        match self.peek() {
            None => Err(Error::expected_token(&self.checked_tokens)),
            Some(token) => match Op::try_from_token_type(token.token_type) {
                Some(op) => Ok((op, token.line)),
                None => Err(Error::unexpected_token(&token, &self.checked_tokens)),
            },
        }
    }

    fn consume_semicolon_or_eof(&mut self) -> (res: Result<(), Error>)
        requires
            old(self).wf(),
        ensures
            final(self).wf(),
            final(self).tokens@ == old(self).tokens@,
            final(self).rem() <= old(self).rem(),
            final(self).pos >= old(self).pos,
            (model_result(res), final(self).state()) == semicolon_or_eof(old(self).tokens@, old(self).state()),
    {
        if self.peek().is_some() {
            self.consume_one(TokenType::SEMICOLON)?;
        }
        Ok(())
    }

    /// Consumes a token that carries a value; returns the value and line.
    fn consume_token_value(&mut self) -> (res: Result<(TokenValue<'a>, usize), Error>)
        requires
            old(self).wf(),
        ensures
            final(self).wf(),
            final(self).tokens@ == old(self).tokens@,
            match res {
                Ok((v, line)) => {
                    &&& old(self).current() matches Some(t) && t.token_value == Some(v) && line
                        == t.line && ValueTokenTypes::spec_from_token_type(t.token_type) is Some
                    &&& final(self).rem() < old(self).rem()
                },
                Err(e) => final(self).pos == old(self).pos && e.synchronise,
            },
            (model_result(res), final(self).state()) == token_value(old(self).tokens@, old(self).state()),
    {
        let variants = ValueTokenTypes::variants();
        let token = self.consume_if(&variants)?;
        proof {
            assert(token_wf(old(self).tokens@[old(self).pos as int]));
            ValueTokenTypes::lemma_subset(token.token_type);
        }
        let line = token.line;
        match token.token_value {
            Some(value) => Ok((value, line)),
            None => {
                proof {
                    assert(false);
                }
                Err(Error::unexpected_eof("value"))
            },
        }
    }

    fn unexpected(&self, token: &Token<'a>) -> (res: Error)
        ensures
            res.synchronise,
            res@ == unexpected_token_error(*token, self.checked_tokens@),
    {
        Error::unexpected_token(token, &self.checked_tokens)
    }

    fn failed_to_match(&mut self) -> (res: Error)
        requires
            old(self).wf(),
        ensures
            *final(self) == *old(self),
            res.synchronise,
            res@ == failed_to_match(old(self).tokens@, old(self).state()),
    {
        match self.peek() {
            Some(token) => Error::unexpected_token(&token, &self.checked_tokens),
            None => Error::expected_token(&self.checked_tokens),
        }
    }
}

/// Whether `t` is one of `types`.
fn contains_type(types: &Vec<TokenType>, t: TokenType) -> (res: bool)
    ensures
        res == types@.contains(t),
{
    for i in 0..types.len()
        invariant
            forall|j: int| 0 <= j < i ==> types@[j] != t,
    {
        if types[i] == t {
            return true;
        }
    }
    false
}


/// A statement result with both sides taken by their models.
pub open spec fn stmt_result<'a>(r: Result<Statement<'a>, Error>) -> Result<SStatement<'a>, SParserError> {
    match r {
        Ok(s) => Ok(stmt_model(s)),
        Err(e) => Err(e@),
    }
}

/// An expression result with both sides taken by their models.
pub open spec fn expr_result<'a>(r: Result<Expr<'a>, Error>) -> Result<SExpr<'a>, SParserError> {
    match r {
        Ok(e) => Ok(expr_model(e)),
        Err(e) => Err(e@),
    }
}

/// A function result with both sides taken by their models.
pub open spec fn function_result<'a>(r: Result<Function<'a>, Error>) -> Result<SFunction<'a>, SParserError> {
    match r {
        Ok(f) => Ok(function_model(f)),
        Err(e) => Err(e@),
    }
}

/// A parameter list result with its error taken by its model.
pub open spec fn params_result<'a>(r: Result<Vec<&'a str>, Error>) -> Result<Seq<&'a str>, SParserError> {
    match r {
        Ok(v) => Ok(v@),
        Err(e) => Err(e@),
    }
}

/// A program result with both sides taken by their models.
pub open spec fn program_result<'a>(r: Result<Vec<Statement<'a>>, Error>) -> Result<
    Seq<SStatement<'a>>,
    SParserError,
> {
    match r {
        Ok(v) => Ok(stmts_model(v@)),
        Err(e) => Err(e@),
    }
}

/// A recursive-descent parser over scanned tokens.
pub struct Parser<'a> {
    tokens: TokenCursor<'a>,
    loop_depth: usize,
}

impl<'a> Parser<'a> {
    pub closed spec fn wf(&self) -> bool {
        &&& self.tokens.wf()
        &&& self.loop_depth <= self.tokens.pos
    }

    /// The tokens being parsed.
    pub closed spec fn token_seq(&self) -> Seq<Token<'a>> {
        self.tokens.tokens@
    }

    /// Where parsing stands.
    pub closed spec fn pstate(&self) -> PState {
        self.tokens.state()
    }

    /// How many tokens are left.
    pub closed spec fn rem(&self) -> nat {
        self.tokens.rem()
    }

    /// How many loops enclose the current position.
    pub closed spec fn depth(&self) -> nat {
        self.loop_depth as nat
    }

    /// The next token, unless the input has ended.
    pub closed spec fn current(&self) -> Option<Token<'a>> {
        self.tokens.current()
    }

    /// A parser over `tokens`, outside any loop.
    pub fn new(tokens: Vec<Token<'a>>) -> (res: Self)
        requires
            tokens_wf(tokens@),
        ensures
            res.wf(),
            res.token_seq() == tokens@,
            res.depth() == 0,
            res.rem() <= tokens@.len(),
            res.pstate() == (PState { pos: skip_comments(tokens@, 0), checked: seq![] }),
    {
        Parser { tokens: TokenCursor::new(tokens), loop_depth: 0 }
    }

    /// Parses statements up to the end of the input, passing over any `}`
    /// that closes no block; all errors are collected into one.
    fn parse(&mut self) -> (res: Result<Vec<Statement<'a>>, Error>)
        requires
            old(self).wf(),
        ensures
            final(self).wf(),
            final(self).token_seq() == old(self).token_seq(),
            final(self).current() is None,
            program_result(res) == parse_loop(
                old(self).token_seq(),
                old(self).pstate(),
                seq![],
                seq![],
                old(self).depth(),
            ).0,
    {
        let ghost ts = self.token_seq();
        let ghost depth = self.depth();
        let mut statements: Vec<Statement<'a>> = Vec::new();
        let mut errors: Vec<Error> = Vec::new();
        proof {
            assert(stmts_model(statements@) =~= Seq::<SStatement<'a>>::empty());
            assert(parser_errors_model(errors@) =~= Seq::<SParserError>::empty());
        }
        while self.tokens.peek().is_some()
            invariant
                self.wf(),
                self.token_seq() == ts,
                ts == old(self).token_seq(),
                self.depth() == depth,
                depth == old(self).depth(),
                parse_loop(ts, old(self).pstate(), seq![], seq![], depth) == parse_loop(
                    ts,
                    self.pstate(),
                    stmts_model(statements@),
                    parser_errors_model(errors@),
                    depth,
                ),
            decreases self.rem(),
        {
            let ghost st = self.pstate();
            let ghost done = stmts_model(statements@);
            let ghost errs = parser_errors_model(errors@);
            proof {
                let _ = parse_loop(ts, st, done, errs, depth);
            }
            if let Some(t) = self.tokens.peek() {
                if t.token_type == TokenType::RIGHT_BRACE {
                    // A `}` that closes no block is passed over.
                    self.tokens.next();
                    continue;
                }
            }
            let before = self.tokens.pos;
            let result = self.statement();
            proof {
                let _ = parse_loop(ts, st, done, errs, depth);
            }
            match result {
                Ok(statement) => {
                    proof {
                        lemma_stmts_model_push(statements@, statement);
                    }
                    statements.push(statement);
                },
                Err(e) => {
                    if self.tokens.pos == before {
                        self.synchronise();
                    }
                    proof {
                        lemma_parser_errors_model_push(errors@, e);
                    }
                    errors.push(e);
                },
            }
        }
        proof {
            lemma_parser_errors_model(errors@);
        }
        if errors.len() != 0 {
            return Err(Error::block_error(errors));
        }
        Ok(statements)
    }

    fn statement(&mut self) -> (res: Result<Statement<'a>, Error>)
        requires
            old(self).wf(),
        ensures
            final(self).wf(),
            final(self).token_seq() == old(self).token_seq(),
            final(self).depth() == old(self).depth(),
            final(self).rem() <= old(self).rem(),
            res is Ok ==> final(self).rem() < old(self).rem(),
            (stmt_result(res), final(self).pstate()) == sp_statement(
                old(self).token_seq(),
                old(self).pstate(),
                old(self).depth(),
            ),
        decreases old(self).rem(), 9nat,
    {
        if self.tokens.peek().is_none() {
            return Err(Error::unexpected_eof("Start of statement"));
        }
        let opened = self.tokens.consume_one(TokenType::LEFT_BRACE);
        if opened.is_ok() {
            self.block()
        } else {
            self.keyword()
        }
    }

    fn block(&mut self) -> (res: Result<Statement<'a>, Error>)
        requires
            old(self).wf(),
        ensures
            final(self).wf(),
            final(self).token_seq() == old(self).token_seq(),
            final(self).depth() == old(self).depth(),
            final(self).rem() <= old(self).rem(),
            res is Ok ==> final(self).rem() < old(self).rem(),
            (stmt_result(res), final(self).pstate()) == sp_block(
                old(self).token_seq(),
                old(self).pstate(),
                old(self).depth(),
            ),
        decreases old(self).rem(), 10nat,
    {
        let ghost ts = self.token_seq();
        let ghost depth = self.depth();
        let mut members: Vec<Statement<'a>> = Vec::new();
        let mut errors: Vec<Error> = Vec::new();
        proof {
            assert(stmts_model(members@) =~= Seq::<SStatement<'a>>::empty());
            assert(parser_errors_model(errors@) =~= Seq::<SParserError>::empty());
            let _ = sp_block(ts, self.pstate(), depth);
        }
        loop
            invariant
                self.wf(),
                self.token_seq() == ts,
                ts == old(self).token_seq(),
                self.depth() == depth,
                depth == old(self).depth(),
                self.rem() <= old(self).rem(),
                sp_block(ts, old(self).pstate(), depth) == block_loop(
                    ts,
                    self.pstate(),
                    stmts_model(members@),
                    parser_errors_model(errors@),
                    depth,
                ),
            ensures
                self.wf(),
                self.token_seq() == ts,
                ts == old(self).token_seq(),
                self.depth() == depth,
                depth == old(self).depth(),
                self.rem() <= old(self).rem(),
                sp_block(ts, old(self).pstate(), depth) == block_loop(
                    ts,
                    self.pstate(),
                    stmts_model(members@),
                    parser_errors_model(errors@),
                    depth,
                ),
                self.current() is None || self.current().unwrap().token_type == TokenType::RIGHT_BRACE,
            decreases self.rem(),
        {
            let ghost st = self.pstate();
            let ghost ms = stmts_model(members@);
            let ghost es = parser_errors_model(errors@);
            let next_token = self.tokens.peek();
            match next_token {
                Some(t) => {
                    if t.token_type == TokenType::RIGHT_BRACE {
                        break;
                    }
                },
                None => {
                    break;
                },
            }
            let before = self.tokens.pos;
            let statement = self.statement();
            proof {
                let _ = block_loop(ts, st, ms, es, depth);
            }
            match statement {
                Ok(s) => {
                    proof {
                        lemma_stmts_model_push(members@, s);
                    }
                    members.push(s);
                },
                Err(err) => {
                    if err.synchronise || self.tokens.pos == before {
                        self.synchronise();
                    }
                    proof {
                        lemma_parser_errors_model_push(errors@, err);
                    }
                    errors.push(err);
                },
            }
        }
        let ghost st = self.pstate();
        let ghost es = parser_errors_model(errors@);
        let closing = self.tokens.consume_one(TokenType::RIGHT_BRACE);
        proof {
            let _ = block_loop(ts, st, stmts_model(members@), es, depth);
        }
        match closing {
            Ok(_) => {},
            Err(e) => {
                proof {
                    lemma_parser_errors_model_push(errors@, e);
                }
                errors.push(e);
            },
        }
        proof {
            lemma_parser_errors_model(errors@);
        }
        if errors.len() != 0 {
            return Err(Error::block_error(errors));
        }
        Ok(Statement::Group(members))
    }

    #[verifier::spinoff_prover]
    #[verifier::rlimit(40)]
    fn function_declaration(&mut self, line: usize) -> (res: Result<Statement<'a>, Error>)
        requires
            old(self).wf(),
        ensures
            final(self).wf(),
            final(self).token_seq() == old(self).token_seq(),
            final(self).depth() == old(self).depth(),
            final(self).rem() <= old(self).rem(),
            res is Ok ==> final(self).rem() < old(self).rem(),
            (stmt_result(res), final(self).pstate()) == sp_function_declaration(
                old(self).token_seq(),
                old(self).pstate(),
                line,
                old(self).depth(),
            ),
        decreases old(self).rem(), 7nat,
    {
        let ghost ts = self.token_seq();
        let ghost st = self.pstate();
        let ghost depth = self.depth();
        let is_named = match self.tokens.peek() {
            Some(t) => t.token_type == TokenType::IDENTIFIER,
            None => false,
        };
        if is_named {
            let name = match self.tokens.consume_name() {
                Ok(name) => name,
                Err(e) => {
                    return Err(e);
                },
            };
            let ghost st1 = self.pstate();
            let r = self.function(name, line);
            assert(sp_function_declaration(ts, st, line, depth) == (match sp_function(ts, st1, name, line, depth).0 {
                Err(e) => Err(e),
                Ok(f) => Ok(SStatement::FunctionDeclaration(f)),
            }, sp_function(ts, st1, name, line, depth).1));
            match r {
                Ok(f) => Ok(Statement::FunctionDeclaration(f)),
                Err(e) => Err(e),
            }
        } else {
            let r = self.function("lambda", line);
            assert(sp_function_declaration(ts, st, line, depth) == (match sp_function(ts, st, "lambda", line, depth).0 {
                Err(e) => Err(e),
                Ok(f) => Ok(SStatement::Expression(SExpr { line, kind: SExprKind::Lambda(f) })),
            }, sp_function(ts, st, "lambda", line, depth).1));
            match r {
                Ok(f) => {
                    let lambda = Expr::lambda(f, line);
                    assert(expr_model(lambda) == SExpr { line, kind: SExprKind::Lambda(function_model(f)) });
                    Ok(Statement::Expression(lambda))
                },
                Err(e) => Err(e),
            }
        }
    }

    /// Parameter names separated by commas, up to the first token that
    /// does not continue the list.
    fn params(&mut self, line: usize) -> (res: Result<Vec<&'a str>, Error>)
        requires
            old(self).wf(),
        ensures
            final(self).wf(),
            final(self).token_seq() == old(self).token_seq(),
            final(self).depth() == old(self).depth(),
            final(self).rem() <= old(self).rem(),
            (params_result(res), final(self).pstate()) == params_loop(
                old(self).token_seq(),
                old(self).pstate(),
                seq![],
                line,
            ),
    {
        let ghost ts = self.token_seq();
        let mut params: Vec<&'a str> = vec![];
        proof {
            assert(params@ =~= Seq::<&'a str>::empty());
        }
        loop
            invariant_except_break
                params_loop(ts, old(self).pstate(), seq![], line) == params_loop(
                    ts,
                    self.pstate(),
                    params@,
                    line,
                ),
            invariant
                self.wf(),
                self.token_seq() == ts,
                ts == old(self).token_seq(),
                self.depth() == old(self).depth(),
                self.rem() <= old(self).rem(),
                params.len() < 255,
            ensures
                params_loop(ts, old(self).pstate(), seq![], line) == (
                    Ok::<Seq<&'a str>, SParserError>(params@),
                    self.pstate(),
                ),
            decreases self.rem(),
        {
            let ghost st = self.pstate();
            let ghost ps = params@;
            proof {
                let _ = params_loop(ts, st, ps, line);
            }
            match self.tokens.consume_name() {
                Ok(param) => {
                    params.push(param);
                    if params.len() >= 255 {
                        return Err(Error::too_many_arguments(line, true));
                    }
                    if self.tokens.consume_one(TokenType::COMMA).is_err() {
                        break;
                    }
                },
                Err(_) => {
                    break;
                },
            }
        }
        Ok(params)
    }

    fn function(&mut self, name: &'a str, line: usize) -> (res: Result<Function<'a>, Error>)
        requires
            old(self).wf(),
        ensures
            final(self).wf(),
            final(self).token_seq() == old(self).token_seq(),
            final(self).depth() == old(self).depth(),
            final(self).rem() <= old(self).rem(),
            res is Ok ==> final(self).rem() < old(self).rem(),
            res matches Ok(f) ==> f.name == name,
            (function_result(res), final(self).pstate()) == sp_function(
                old(self).token_seq(),
                old(self).pstate(),
                name,
                line,
                old(self).depth(),
            ),
        decreases old(self).rem(), 6nat,
    {
        if let Err(e) = self.tokens.consume_one(TokenType::LEFT_PAREN) {
            return Err(e);
        }
        let params = match self.params(line) {
            Ok(p) => p,
            Err(e) => {
                return Err(e);
            },
        };
        if let Err(e) = self.tokens.consume_one(TokenType::RIGHT_PAREN) {
            return Err(e);
        }
        if let Err(e) = self.tokens.consume_one(TokenType::LEFT_BRACE) {
            return Err(e);
        }
        match self.block() {
            Ok(body) => Ok(Function { name, params, body: FunctionKind::Lox(Box::new(body)) }),
            Err(e) => Err(e),
        }
    }

    #[verifier::spinoff_prover]
    #[verifier::rlimit(100)]
    fn keyword(&mut self) -> (res: Result<Statement<'a>, Error>)
        requires
            old(self).wf(),
        ensures
            final(self).wf(),
            final(self).token_seq() == old(self).token_seq(),
            final(self).depth() == old(self).depth(),
            final(self).rem() <= old(self).rem(),
            res is Ok ==> final(self).rem() < old(self).rem(),
            (stmt_result(res), final(self).pstate()) == sp_keyword(
                old(self).token_seq(),
                old(self).pstate(),
                old(self).depth(),
            ),
        decreases old(self).rem(), 8nat,
    {
        let peeked = self.tokens.peek_token_subset::<Keyword>();
        let (keyword, line) = match peeked {
            Ok(k) => k,
            Err(_) => {
                let expression = match self.expression(0) {
                    Ok(e) => e,
                    Err(e) => {
                        return Err(e);
                    },
                };
                if let Err(e) = self.tokens.consume_semicolon_or_eof() {
                    return Err(e);
                }
                return Ok(Statement::Expression(expression));
            },
        };
        let token = match self.tokens.next() {
            Some(t) => t,
            None => {
                return Err(Error::unexpected_eof("keyword"));
            },
        };
        match keyword {
            Keyword::VAR => {
                let declaration = match self.declaration() {
                    Ok(d) => d,
                    Err(e) => {
                        return Err(e);
                    },
                };
                match self.tokens.consume_semicolon_or_eof() {
                    Ok(_) => Ok(declaration),
                    Err(e) => Err(e),
                }
            },
            Keyword::FUN => self.function_declaration(line),
            Keyword::PRINT => {
                let expression = match self.expression(0) {
                    Ok(e) => e,
                    Err(e) => {
                        return Err(e);
                    },
                };
                match self.tokens.consume_semicolon_or_eof() {
                    Ok(_) => Ok(Statement::Print(expression)),
                    Err(e) => Err(e),
                }
            },
            Keyword::IF => self.if_statement(),
            Keyword::WHILE => self.while_statement(),
            Keyword::FOR => self.for_statement(),
            Keyword::BREAK => {
                // A `break` is refused while the body of a `while` loop is
                // parsed, and accepted elsewhere (a `for` body does not
                // count); one that ends up outside every loop is reported
                // when the program runs.
                if self.loop_depth != 0 {
                    return Err(self.tokens.unexpected(&token));
                }
                match self.tokens.consume_semicolon_or_eof() {
                    Ok(_) => Ok(Statement::Break),
                    Err(e) => Err(e),
                }
            },
            Keyword::RETURN => self.return_statement(line),
        }
    }

    #[verifier::spinoff_prover]
    #[verifier::rlimit(40)]
    fn declaration(&mut self) -> (res: Result<Statement<'a>, Error>)
        requires
            old(self).wf(),
        ensures
            final(self).wf(),
            final(self).token_seq() == old(self).token_seq(),
            final(self).depth() == old(self).depth(),
            final(self).rem() <= old(self).rem(),
            res is Ok ==> final(self).rem() < old(self).rem(),
            (stmt_result(res), final(self).pstate()) == sp_declaration(
                old(self).token_seq(),
                old(self).pstate(),
                old(self).depth(),
            ),
        decreases old(self).rem(), 7nat,
    {
        let name = match self.tokens.consume_name() {
            Ok(name) => name,
            Err(e) => {
                return Err(e);
            },
        };
        if self.tokens.consume_one(TokenType::EQUAL).is_ok() {
            match self.expression(0) {
                Ok(e) => Ok(Statement::Declaration { name, expression: Some(e) }),
                Err(e) => Err(e),
            }
        } else {
            Ok(Statement::Declaration { name, expression: None })
        }
    }

    fn if_statement(&mut self) -> (res: Result<Statement<'a>, Error>)
        requires
            old(self).wf(),
        ensures
            final(self).wf(),
            final(self).token_seq() == old(self).token_seq(),
            final(self).depth() == old(self).depth(),
            final(self).rem() <= old(self).rem(),
            res is Ok ==> final(self).rem() < old(self).rem(),
            (stmt_result(res), final(self).pstate()) == sp_if(
                old(self).token_seq(),
                old(self).pstate(),
                old(self).depth(),
            ),
        decreases old(self).rem(), 7nat,
    {
        if let Err(e) = self.tokens.consume_one(TokenType::LEFT_PAREN) {
            return Err(e);
        }
        let condition = match self.expression(0) {
            Ok(c) => c,
            Err(e) => {
                return Err(e);
            },
        };
        if let Err(e) = self.tokens.consume_one(TokenType::RIGHT_PAREN) {
            return Err(e);
        }
        let true_branch = match self.statement() {
            Ok(s) => Box::new(s),
            Err(e) => {
                return Err(e);
            },
        };
        let false_branch = match self.tokens.consume_one(TokenType::ELSE) {
            Ok(_) => match self.statement() {
                Ok(s) => Some(Box::new(s)),
                Err(e) => {
                    return Err(e);
                },
            },
            Err(_) => None,
        };
        Ok(Statement::If { condition, true_branch, false_branch })
    }

    /// Parses a loop body, counting one more enclosing loop while doing so.
    fn loop_body(&mut self) -> (res: Result<Statement<'a>, Error>)
        requires
            old(self).wf(),
            old(self).loop_depth < old(self).tokens.pos,
        ensures
            final(self).wf(),
            final(self).token_seq() == old(self).token_seq(),
            final(self).depth() == old(self).depth(),
            final(self).rem() <= old(self).rem(),
            res is Ok ==> final(self).rem() < old(self).rem(),
            (stmt_result(res), final(self).pstate()) == sp_loop_body(
                old(self).token_seq(),
                old(self).pstate(),
                old(self).depth(),
            ),
        decreases old(self).rem(), 11nat,
    {
        self.loop_depth = self.loop_depth + 1;
        let body = self.statement();
        self.loop_depth = self.loop_depth - 1;
        body
    }

    fn while_statement(&mut self) -> (res: Result<Statement<'a>, Error>)
        requires
            old(self).wf(),
        ensures
            final(self).wf(),
            final(self).token_seq() == old(self).token_seq(),
            final(self).depth() == old(self).depth(),
            final(self).rem() <= old(self).rem(),
            res is Ok ==> final(self).rem() < old(self).rem(),
            (stmt_result(res), final(self).pstate()) == sp_while(
                old(self).token_seq(),
                old(self).pstate(),
                old(self).depth(),
            ),
        decreases old(self).rem(), 7nat,
    {
        if let Err(e) = self.tokens.consume_one(TokenType::LEFT_PAREN) {
            return Err(e);
        }
        let condition = match self.expression(0) {
            Ok(c) => c,
            Err(e) => {
                return Err(e);
            },
        };
        if let Err(e) = self.tokens.consume_one(TokenType::RIGHT_PAREN) {
            return Err(e);
        }
        match self.loop_body() {
            Ok(body) => Ok(Statement::While { condition, body: Box::new(body) }),
            Err(e) => Err(e),
        }
    }

    #[verifier::spinoff_prover]
    #[verifier::rlimit(40)]
    fn for_statement(&mut self) -> (res: Result<Statement<'a>, Error>)
        requires
            old(self).wf(),
        ensures
            final(self).wf(),
            final(self).token_seq() == old(self).token_seq(),
            final(self).depth() == old(self).depth(),
            final(self).rem() <= old(self).rem(),
            res is Ok ==> final(self).rem() < old(self).rem(),
            (stmt_result(res), final(self).pstate()) == sp_for(
                old(self).token_seq(),
                old(self).pstate(),
                old(self).depth(),
            ),
        decreases old(self).rem(), 7nat,
    {
        let ghost ts = self.token_seq();
        let ghost depth = self.depth();
        let ghost start = self.pstate();
        if let Err(e) = self.tokens.consume_one(TokenType::LEFT_PAREN) {
            return Err(e);
        }
        let ghost st1 = self.pstate();
        let next_token = match self.tokens.peek() {
            Some(t) => t,
            None => {
                return Err(Error::unexpected_eof("For statement"));
            },
        };
        let line = next_token.line;
        let initialiser = if next_token.token_type == TokenType::SEMICOLON {
            None
        } else if self.tokens.consume_one(TokenType::VAR).is_ok() {
            proof {
                lemma_consume_if(ts, st1, seq![TokenType::VAR]);
            }
            match self.declaration() {
                Ok(d) => Some(d),
                Err(e) => {
                    return Err(e);
                },
            }
        } else {
            proof {
                lemma_consume_if(ts, st1, seq![TokenType::VAR]);
            }
            match self.expression(0) {
                Ok(x) => Some(Statement::Expression(x)),
                Err(e) => {
                    return Err(e);
                },
            }
        };
        self.for_rest(Ghost(start), initialiser, line)
    }

    /// The rest of a `for` header after its initialiser: condition,
    /// increment, then the body. `start` is where the statement began.
    /// The header must have an increment, so `for (;;)` and `for (a; b;)`
    /// are refused. The body does not count as a loop body for `break`.
    #[verifier::spinoff_prover]
    #[verifier::rlimit(40)]
    fn for_rest(&mut self, Ghost(start): Ghost<PState>, initialiser: Option<Statement<'a>>, line: usize) -> (res:
        Result<Statement<'a>, Error>)
        requires
            old(self).wf(),
            old(self).loop_depth < old(self).tokens.pos,
            rem(old(self).token_seq(), old(self).pstate()) < rem(old(self).token_seq(), start),
        ensures
            final(self).wf(),
            final(self).token_seq() == old(self).token_seq(),
            final(self).depth() == old(self).depth(),
            final(self).rem() <= old(self).rem(),
            (stmt_result(res), final(self).pstate()) == sp_for_rest(
                old(self).token_seq(),
                start,
                old(self).pstate(),
                opt_stmt_model(initialiser),
                line,
                old(self).depth(),
            ),
        decreases rem(old(self).token_seq(), start), 6nat,
    {
        let ghost ts = self.token_seq();
        let ghost st = self.pstate();
        proof {
            lemma_consume_if(ts, st, seq![TokenType::SEMICOLON]);
        }
        if let Err(e) = self.tokens.consume_one(TokenType::SEMICOLON) {
            return Err(e);
        }
        let next_token = match self.tokens.peek() {
            Some(t) => t,
            None => {
                return Err(Error::unexpected_eof("For statement"));
            },
        };
        let condition = if next_token.token_type == TokenType::SEMICOLON {
            None
        } else {
            match self.expression(0) {
                Ok(x) => Some(x),
                Err(e) => {
                    return Err(e);
                },
            }
        };
        if let Err(e) = self.tokens.consume_one(TokenType::SEMICOLON) {
            return Err(e);
        }
        let next_token = match self.tokens.peek() {
            Some(t) => t,
            None => {
                return Err(Error::unexpected_eof("For statement"));
            },
        };
        let increment = if next_token.token_type == TokenType::SEMICOLON {
            None
        } else {
            match self.expression(0) {
                Ok(x) => Some(x),
                Err(e) => {
                    return Err(e);
                },
            }
        };
        if let Err(e) = self.tokens.consume_one(TokenType::RIGHT_PAREN) {
            return Err(e);
        }
        match self.statement() {
            Ok(body) => Ok(Statement::for_loop(initialiser, condition, increment, Box::new(body), line)),
            Err(e) => Err(e),
        }
    }

    fn return_statement(&mut self, line: usize) -> (res: Result<Statement<'a>, Error>)
        requires
            old(self).wf(),
        ensures
            final(self).wf(),
            final(self).token_seq() == old(self).token_seq(),
            final(self).depth() == old(self).depth(),
            final(self).rem() <= old(self).rem(),
            res is Ok ==> final(self).rem() < old(self).rem(),
            (stmt_result(res), final(self).pstate()) == sp_return(
                old(self).token_seq(),
                old(self).pstate(),
                line,
                old(self).depth(),
            ),
        decreases old(self).rem(), 7nat,
    {
        let next_token = match self.tokens.peek() {
            Some(t) => t,
            None => {
                return Err(Error::unexpected_eof("Return statement"));
            },
        };
        if next_token.token_type == TokenType::SEMICOLON {
            return self.return_end(line, None);
        }
        match self.expression(0) {
            Ok(x) => self.return_end(line, Some(x)),
            Err(e) => Err(e),
        }
    }

    /// The `;` that ends a `return`, and the statement.
    fn return_end(&mut self, line: usize, value: Option<Expr<'a>>) -> (res: Result<Statement<'a>, Error>)
        requires
            old(self).wf(),
        ensures
            final(self).wf(),
            final(self).token_seq() == old(self).token_seq(),
            final(self).depth() == old(self).depth(),
            final(self).rem() <= old(self).rem(),
            res is Ok ==> final(self).rem() < old(self).rem(),
            (stmt_result(res), final(self).pstate()) == return_end(
                old(self).token_seq(),
                old(self).pstate(),
                line,
                opt_expr_model(value),
            ),
    {
        if let Err(e) = self.tokens.consume_one(TokenType::SEMICOLON) {
            return Err(e);
        }
        Ok(Statement::Return { line, value })
    }

    fn expression(&mut self, current_precedence: usize) -> (res: Result<Expr<'a>, Error>)
        requires
            old(self).wf(),
        ensures
            final(self).wf(),
            final(self).token_seq() == old(self).token_seq(),
            final(self).depth() == old(self).depth(),
            final(self).rem() <= old(self).rem(),
            res is Ok ==> final(self).rem() < old(self).rem(),
            (expr_result(res), final(self).pstate()) == sp_expression(
                old(self).token_seq(),
                old(self).pstate(),
                current_precedence as nat,
                old(self).depth(),
            ),
        decreases old(self).rem(), 5nat,
    {
        let lhs = match self.build_logical(current_precedence) {
            Ok(l) => l,
            Err(e) => {
                return Err(e);
            },
        };
        if let Ok(token) = self.tokens.consume_one(TokenType::EQUAL) {
            let rhs = match self.expression(current_precedence) {
                Ok(r) => r,
                Err(e) => {
                    return Err(e);
                },
            };
            if let ExprKind::Identifier(name) = lhs.kind {
                return Ok(Expr::assignment(name, Box::new(rhs), token.line));
            }
            return Err(Error::invalid_assignment_target(token.line));
        }
        Ok(lhs)
    }

    /// Parses operands joined by `and`/`or` binding at least as tightly as
    /// `current_precedence`.
    pub fn build_logical(&mut self, current_precedence: usize) -> (res: Result<Expr<'a>, Error>)
        requires
            old(self).wf(),
        ensures
            final(self).wf(),
            final(self).token_seq() == old(self).token_seq(),
            final(self).depth() == old(self).depth(),
            final(self).rem() <= old(self).rem(),
            res is Ok ==> final(self).rem() < old(self).rem(),
            (expr_result(res), final(self).pstate()) == sp_logical(
                old(self).token_seq(),
                old(self).pstate(),
                current_precedence as nat,
                old(self).depth(),
            ),
        decreases old(self).rem(), 4nat,
    {
        let ghost ts = self.token_seq();
        let ghost depth = self.depth();
        let ghost prec = current_precedence as nat;
        let mut lhs = match self.build_binary(current_precedence) {
            Ok(l) => l,
            Err(e) => {
                return Err(e);
            },
        };
        loop
            invariant_except_break
                sp_logical(ts, old(self).pstate(), prec, depth) == logical_loop(
                    ts,
                    self.pstate(),
                    prec,
                    expr_model(lhs),
                    depth,
                ),
            invariant
                prec == current_precedence as nat,
                self.wf(),
                self.token_seq() == ts,
                ts == old(self).token_seq(),
                self.depth() == depth,
                depth == old(self).depth(),
                self.rem() < old(self).rem(),
            ensures
                sp_logical(ts, old(self).pstate(), prec, depth) == (
                    Ok::<SExpr<'a>, SParserError>(expr_model(lhs)),
                    self.pstate(),
                ),
            decreases self.rem(),
        {
            let ghost st = self.pstate();
            let ghost lm = expr_model(lhs);
            proof {
                let _ = logical_loop(ts, st, prec, lm, depth);
            }
            let (infix, line) = match self.tokens.peek_token_subset::<LogicalOperator>() {
                Ok(p) => p,
                Err(_) => {
                    break;
                },
            };
            let precedence = logical_precedence(infix);
            if precedence < current_precedence {
                break;
            }
            self.tokens.next();
            let rhs = match self.build_logical(precedence) {
                Ok(r) => r,
                Err(e) => {
                    return Err(e);
                },
            };
            lhs = Expr::logical(Box::new(lhs), infix, Box::new(rhs), line);
        }
        Ok(lhs)
    }

    /// Parses operands joined by infix operators binding at least as
    /// tightly as `current_precedence`.
    pub fn build_binary(&mut self, current_precedence: usize) -> (res: Result<Expr<'a>, Error>)
        requires
            old(self).wf(),
        ensures
            final(self).wf(),
            final(self).token_seq() == old(self).token_seq(),
            final(self).depth() == old(self).depth(),
            final(self).rem() <= old(self).rem(),
            res is Ok ==> final(self).rem() < old(self).rem(),
            (expr_result(res), final(self).pstate()) == sp_binary(
                old(self).token_seq(),
                old(self).pstate(),
                current_precedence as nat,
                old(self).depth(),
            ),
        decreases old(self).rem(), 3nat,
    {
        let ghost ts = self.token_seq();
        let ghost depth = self.depth();
        let ghost prec = current_precedence as nat;
        let mut lhs = match self.parse_prefix() {
            Ok(l) => l,
            Err(e) => {
                return Err(e);
            },
        };
        loop
            invariant_except_break
                sp_binary(ts, old(self).pstate(), prec, depth) == binary_loop(
                    ts,
                    self.pstate(),
                    prec,
                    expr_model(lhs),
                    depth,
                ),
            invariant
                prec == current_precedence as nat,
                self.wf(),
                self.token_seq() == ts,
                ts == old(self).token_seq(),
                self.depth() == depth,
                depth == old(self).depth(),
                self.rem() < old(self).rem(),
            ensures
                sp_binary(ts, old(self).pstate(), prec, depth) == (
                    Ok::<SExpr<'a>, SParserError>(expr_model(lhs)),
                    self.pstate(),
                ),
            decreases self.rem(),
        {
            let ghost st = self.pstate();
            let ghost lm = expr_model(lhs);
            proof {
                let _ = binary_loop(ts, st, prec, lm, depth);
            }
            let (infix, line) = match self.tokens.peek_token_subset::<BinaryOperator>() {
                Ok(p) => p,
                Err(_) => {
                    break;
                },
            };
            let (l_precedence, r_precedence) = infix_precedence(infix);
            if l_precedence < current_precedence {
                break;
            }
            self.tokens.next();
            let rhs = match self.build_binary(r_precedence) {
                Ok(r) => r,
                Err(e) => {
                    return Err(e);
                },
            };
            lhs = Expr::binary(Box::new(lhs), infix, Box::new(rhs), line);
        }
        Ok(lhs)
    }

    /// Parses a prefix expression: unary operators, then a value, a
    /// parenthesised expression or a lambda, then any calls.
    #[verifier::spinoff_prover]
    #[verifier::rlimit(40)]
    pub fn parse_prefix(&mut self) -> (res: Result<Expr<'a>, Error>)
        requires
            old(self).wf(),
        ensures
            final(self).wf(),
            final(self).token_seq() == old(self).token_seq(),
            final(self).depth() == old(self).depth(),
            final(self).rem() <= old(self).rem(),
            res is Ok ==> final(self).rem() < old(self).rem(),
            (expr_result(res), final(self).pstate()) == sp_prefix(
                old(self).token_seq(),
                old(self).pstate(),
                old(self).depth(),
            ),
        decreases old(self).rem(), 2nat,
    {
        let ghost ts = self.token_seq();
        let ghost depth = self.depth();
        let ghost st0 = self.pstate();
        if let Ok((unary_op, line)) = self.tokens.peek_token_subset::<UnaryOperator>() {
            self.tokens.next();
            return match self.parse_prefix() {
                Ok(inner) => Ok(Expr::unary(unary_op, Box::new(inner), line)),
                Err(e) => Err(e),
            };
        }
        let ghost st1 = self.pstate();
        let mut expr = if let Ok((value, line)) = self.tokens.consume_token_value() {
            proof {
                assert(token_wf(old(self).tokens.tokens@[old(self).tokens.pos as int]));
            }
            build_value(value, line)
        } else if self.tokens.consume_one(TokenType::LEFT_PAREN).is_ok() {
            let inner = match self.expression(0) {
                Ok(x) => x,
                Err(e) => {
                    return Err(e);
                },
            };
            let token = match self.tokens.consume_one(TokenType::RIGHT_PAREN) {
                Ok(t) => t,
                Err(e) => {
                    return Err(e);
                },
            };
            Expr::grouping(Box::new(inner), token.line)
        } else if let Ok(token) = self.tokens.consume_one(TokenType::FUN) {
            match self.function("lambda", token.line) {
                Ok(f) => Expr::lambda(f, token.line),
                Err(e) => {
                    return Err(e);
                },
            }
        } else {
            return Err(self.tokens.failed_to_match());
        };
        proof {
            lemma_consume_if(ts, st1, ValueTokenTypes::spec_variants());
            assert(sp_prefix(ts, st0, depth) == call_loop(ts, self.pstate(), expr_model(expr), depth));
        }
        loop
            invariant_except_break
                sp_prefix(ts, st0, depth) == call_loop(ts, self.pstate(), expr_model(expr), depth),
            invariant
                self.wf(),
                self.token_seq() == ts,
                ts == old(self).token_seq(),
                self.depth() == depth,
                depth == old(self).depth(),
                self.rem() < old(self).rem(),
                st0 == old(self).pstate(),
            ensures
                sp_prefix(ts, st0, depth) == (
                    Ok::<SExpr<'a>, SParserError>(expr_model(expr)),
                    self.pstate(),
                ),
            decreases self.rem(),
        {
            let ghost st = self.pstate();
            let ghost em = expr_model(expr);
            proof {
                let _ = call_loop(ts, st, em, depth);
            }
            if self.tokens.consume_one(TokenType::LEFT_PAREN).is_err() {
                break;
            }
            expr = match self.build_call(expr) {
                Ok(call) => call,
                Err(e) => {
                    return Err(e);
                },
            };
        }
        Ok(expr)
    }

    fn build_call(&mut self, callee: Expr<'a>) -> (res: Result<Expr<'a>, Error>)
        requires
            old(self).wf(),
        ensures
            final(self).wf(),
            final(self).token_seq() == old(self).token_seq(),
            final(self).depth() == old(self).depth(),
            final(self).rem() <= old(self).rem(),
            res is Ok ==> final(self).rem() < old(self).rem(),
            res matches Ok(e) ==> e.line == callee.line,
            (expr_result(res), final(self).pstate()) == sp_build_call(
                old(self).token_seq(),
                old(self).pstate(),
                expr_model(callee),
                old(self).depth(),
            ),
        decreases old(self).rem(), 7nat,
    {
        let ghost ts = self.token_seq();
        let ghost depth = self.depth();
        let ghost cm = expr_model(callee);
        let mut arguments: Vec<Expr<'a>> = Vec::new();
        proof {
            assert(exprs_model(arguments@) =~= Seq::<SExpr<'a>>::empty());
            let _ = sp_build_call(ts, self.pstate(), cm, depth);
        }
        loop
            invariant_except_break
                sp_build_call(ts, old(self).pstate(), cm, depth) == args_loop(
                    ts,
                    self.pstate(),
                    cm,
                    exprs_model(arguments@),
                    depth,
                ),
            invariant
                cm == expr_model(callee),
                exprs_model(arguments@).len() == arguments@.len(),
                self.wf(),
                self.token_seq() == ts,
                ts == old(self).token_seq(),
                self.depth() == depth,
                depth == old(self).depth(),
                self.rem() <= old(self).rem(),
                arguments.len() < 255,
            ensures
                sp_build_call(ts, old(self).pstate(), cm, depth) == args_end(
                    ts,
                    self.pstate(),
                    cm,
                    exprs_model(arguments@),
                ),
            decreases self.rem(),
        {
            let ghost st = self.pstate();
            let ghost am = exprs_model(arguments@);
            proof {
                let _ = args_loop(ts, st, cm, am, depth);
            }
            let next = self.tokens.peek();
            match next {
                Some(t) => {
                    if t.token_type == TokenType::RIGHT_PAREN {
                        break;
                    }
                },
                None => {
                    break;
                },
            }
            let argument = match self.expression(5) {
                Ok(a) => a,
                Err(e) => {
                    return Err(e);
                },
            };
            proof {
                lemma_exprs_model_push(arguments@, argument);
            }
            arguments.push(argument);
            if arguments.len() >= 255 {
                let last = arguments.len() - 1;
                return Err(Error::too_many_arguments(arguments[last].line, false));
            }
            if self.tokens.consume_one(TokenType::COMMA).is_err() {
                break;
            }
        }
        if let Err(e) = self.tokens.consume_one(TokenType::RIGHT_PAREN) {
            return Err(e);
        }
        Ok(Expr::call(Box::new(callee), arguments))
    }

    /// Skips tokens up to the end of the current statement: past a `;`,
    /// or up to a token that starts a statement.
    fn synchronise(&mut self)
        requires
            old(self).wf(),
        ensures
            final(self).wf(),
            final(self).token_seq() == old(self).token_seq(),
            final(self).depth() == old(self).depth(),
            final(self).rem() <= old(self).rem(),
            old(self).current() is Some ==> final(self).rem() < old(self).rem(),
            final(self).pstate() == synchronise(old(self).token_seq(), old(self).pstate()),
    {
        let ghost ts = self.token_seq();
        let mut token = match self.tokens.next() {
            Some(t) => t,
            None => {
                return;
            },
        };
        loop
            invariant_except_break
                synchronise(ts, old(self).pstate()) == sync_loop(ts, self.pstate(), token),
            invariant
                self.wf(),
                self.token_seq() == ts,
                ts == old(self).token_seq(),
                self.depth() == old(self).depth(),
                self.rem() < old(self).rem(),
            ensures
                synchronise(ts, old(self).pstate()) == self.pstate(),
            decreases self.rem(),
        {
            let ghost st = self.pstate();
            proof {
                let _ = sync_loop(ts, st, token);
            }
            if token.token_type == TokenType::SEMICOLON {
                break;
            }
            if let Some(next_token) = self.tokens.peek() {
                let k = next_token.token_type;
                if k == TokenType::CLASS || k == TokenType::FUN || k == TokenType::VAR || k
                    == TokenType::FOR || k == TokenType::WHILE || k == TokenType::PRINT || k
                    == TokenType::RETURN {
                    break;
                }
            }
            token = match self.tokens.next() {
                Some(t) => t,
                None => {
                    break;
                },
            };
        }
    }
}

/// The expression that a value token stands for.
fn build_value<'a>(value: TokenValue<'a>, line: usize) -> (res: Expr<'a>)
    requires
        !(value is Comment),
    ensures
        res.line == line,
        expr_model(res) == value_expr(value, line),
{
    match value {
        TokenValue::String(text) => Expr::literal(Literal::String(text.to_owned()), line),
        TokenValue::Number(number) => Expr::literal(Literal::Number(number), line),
        TokenValue::True => Expr::literal(Literal::Boolean(true), line),
        TokenValue::False => Expr::literal(Literal::Boolean(false), line),
        TokenValue::Nil => Expr::literal(Literal::Nil, line),
        TokenValue::Identifier(name) => Expr::identifier(name, line),
        TokenValue::Comment(_) => Expr::literal(Literal::Nil, line),
    }
}

/// Parses `tokens` into statements, as the grammar does: the statements
/// in order, or one error that collects every error met.
pub fn parse<'a>(tokens: Vec<Token<'a>>) -> (res: Result<Vec<Statement<'a>>, Error>)
    requires
        tokens_wf(tokens@),
    ensures
        program_result(res) == sp_program(tokens@),
{
    let mut parser = Parser::new(tokens);
    parser.parse()
}
} // verus!
