use crate::expressions::{
    BinaryOperator, LogicalOperator, SBody, SExpr, SExprKind, SFunction, SLiteral, SStatement,
    UnaryOperator,
};
use crate::parser::parser_error::{
    block_error_of, eof_error, expected_token_error, unexpected_token_error, SParserError,
    SParserErrorKind,
};
use crate::parser::Keyword;
use crate::token::{Token, TokenValue};
use crate::token_type::{OperatorSubset, TokenType, ValueTokenTypes};
use vstd::prelude::*;

verus! {

/// Where parsing stands: the position in the tokens, and the token types
/// tried since the last token was consumed (an error lists them).
pub struct PState {
    pub pos: nat,
    pub checked: Seq<TokenType>,
}

/// What a parsing step gives, and where parsing then stands.
pub type PRes<T> = (Result<T, SParserError>, PState);

/// How many tokens are left.
pub open spec fn rem<'a>(ts: Seq<Token<'a>>, st: PState) -> nat {
    if st.pos <= ts.len() {
        (ts.len() - st.pos) as nat
    } else {
        0
    }
}

/// The first position at or after `pos` that does not hold a comment.
pub open spec fn skip_comments<'a>(ts: Seq<Token<'a>>, pos: nat) -> nat
    decreases ts.len() - pos,
{
    if pos < ts.len() && ts[pos as int].token_type == TokenType::COMMENT {
        skip_comments(ts, pos + 1)
    } else {
        pos
    }
}

pub proof fn lemma_skip_comments<'a>(ts: Seq<Token<'a>>, pos: nat)
    ensures
        pos <= skip_comments(ts, pos),
        pos <= ts.len() ==> skip_comments(ts, pos) <= ts.len(),
        skip_comments(ts, pos) < ts.len() ==> ts[skip_comments(ts, pos) as int].token_type
            != TokenType::COMMENT,
    decreases ts.len() - pos,
{
    if pos < ts.len() && ts[pos as int].token_type == TokenType::COMMENT {
        lemma_skip_comments(ts, pos + 1);
    }
}

/// The next token, unless the input has ended (at `EOF` or the end).
pub open spec fn current<'a>(ts: Seq<Token<'a>>, st: PState) -> Option<Token<'a>> {
    if st.pos < ts.len() && ts[st.pos as int].token_type != TokenType::EOF {
        Some(ts[st.pos as int])
    } else {
        None
    }
}

/// Moves past the next token (and any comments after it); forgets the
/// types tried.
pub open spec fn advance<'a>(ts: Seq<Token<'a>>, st: PState) -> PState {
    match current(ts, st) {
        Some(_) => PState { pos: skip_comments(ts, st.pos + 1), checked: seq![] },
        None => PState { pos: st.pos, checked: seq![] },
    }
}

pub proof fn lemma_advance<'a>(ts: Seq<Token<'a>>, st: PState)
    requires
        st.pos <= ts.len(),
    ensures
        advance(ts, st).pos <= ts.len(),
        advance(ts, st).pos >= st.pos,
        current(ts, st) is Some ==> rem(ts, advance(ts, st)) < rem(ts, st),
        rem(ts, advance(ts, st)) <= rem(ts, st),
{
    lemma_skip_comments(ts, st.pos + 1);
}

/// Records that `types` were tried.
pub open spec fn tried(st: PState, types: Seq<TokenType>) -> PState {
    PState { pos: st.pos, checked: st.checked + types }
}

/// Consumes the next token if its type is one of `types`.
pub open spec fn consume_if<'a>(ts: Seq<Token<'a>>, st: PState, types: Seq<TokenType>) -> PRes<Token<'a>> {
    let st1 = tried(st, types);
    match current(ts, st1) {
        Some(t) => if types.contains(t.token_type) {
            (Ok(t), advance(ts, st1))
        } else {
            (Err(unexpected_token_error(t, st1.checked)), st1)
        },
        None => (Err(expected_token_error(st1.checked)), st1),
    }
}

pub proof fn lemma_consume_if<'a>(ts: Seq<Token<'a>>, st: PState, types: Seq<TokenType>)
    requires
        st.pos <= ts.len(),
    ensures
        consume_if(ts, st, types).1.pos <= ts.len(),
        consume_if(ts, st, types).1.pos >= st.pos,
        rem(ts, consume_if(ts, st, types).1) <= rem(ts, st),
        consume_if(ts, st, types).0 is Ok ==> rem(ts, consume_if(ts, st, types).1) < rem(ts, st),
        consume_if(ts, st, types).0 is Err ==> consume_if(ts, st, types).1.pos == st.pos,
{
    lemma_advance(ts, tried(st, types));
}

pub open spec fn consume_one<'a>(ts: Seq<Token<'a>>, st: PState, t: TokenType) -> PRes<Token<'a>> {
    consume_if(ts, st, seq![t])
}

/// Consumes an identifier and gives its name.
pub open spec fn consume_name<'a>(ts: Seq<Token<'a>>, st: PState) -> PRes<&'a str> {
    let (r, st1) = consume_one(ts, st, TokenType::IDENTIFIER);
    match r {
        Ok(t) => match t.token_value {
            Some(TokenValue::Identifier(name)) => (Ok(name), st1),
            _ => (Err(eof_error("identifier"@)), st1),
        },
        Err(e) => (Err(e), st1),
    }
}

/// The next token as a member of `Op`, with its line, not consumed.
pub open spec fn peek_subset<'a, Op: OperatorSubset>(ts: Seq<Token<'a>>, st: PState) -> PRes<(Op, usize)> {
    let st1 = tried(st, Op::spec_variants());
    match current(ts, st1) {
        None => (Err(expected_token_error(st1.checked)), st1),
        Some(t) => match Op::spec_from_token_type(t.token_type) {
            Some(op) => (Ok((op, t.line)), st1),
            None => (Err(unexpected_token_error(t, st1.checked)), st1),
        },
    }
}

/// A `;` unless the input has ended.
pub open spec fn semicolon_or_eof<'a>(ts: Seq<Token<'a>>, st: PState) -> PRes<()> {
    if current(ts, st) is Some {
        let (r, st1) = consume_one(ts, st, TokenType::SEMICOLON);
        match r {
            Ok(_) => (Ok(()), st1),
            Err(e) => (Err(e), st1),
        }
    } else {
        (Ok(()), st)
    }
}

/// Consumes a token that carries a value; gives the value and line.
pub open spec fn token_value<'a>(ts: Seq<Token<'a>>, st: PState) -> PRes<(TokenValue<'a>, usize)> {
    let (r, st1) = consume_if(ts, st, ValueTokenTypes::spec_variants());
    match r {
        Ok(t) => match t.token_value {
            Some(v) => (Ok((v, t.line)), st1),
            None => (Err(eof_error("value"@)), st1),
        },
        Err(e) => (Err(e), st1),
    }
}

/// The error for a position where nothing that was tried fits.
pub open spec fn failed_to_match<'a>(ts: Seq<Token<'a>>, st: PState) -> SParserError {
    match current(ts, st) {
        Some(t) => unexpected_token_error(t, st.checked),
        None => expected_token_error(st.checked),
    }
}

/// The expression that a value token stands for.
pub open spec fn value_expr<'a>(v: TokenValue<'a>, line: usize) -> SExpr<'a> {
    SExpr {
        line,
        kind: match v {
            TokenValue::String(text) => SExprKind::Literal(SLiteral::String(text@)),
            TokenValue::Number(n) => SExprKind::Literal(SLiteral::Number(n)),
            TokenValue::True => SExprKind::Literal(SLiteral::Boolean(true)),
            TokenValue::False => SExprKind::Literal(SLiteral::Boolean(false)),
            TokenValue::Nil => SExprKind::Literal(SLiteral::Nil),
            TokenValue::Identifier(name) => SExprKind::Identifier(name),
            TokenValue::Comment(_) => SExprKind::Literal(SLiteral::Nil),
        },
    }
}

/// How tightly a short-circuit operator binds.
pub open spec fn logical_binding(op: LogicalOperator) -> nat {
    match op {
        LogicalOperator::AND => 1,
        LogicalOperator::OR => 2,
    }
}

/// How tightly an infix operator binds on its left and on its right.
pub open spec fn infix_binding(op: BinaryOperator) -> (nat, nat) {
    match op {
        BinaryOperator::COMMA => (2, 3),
        BinaryOperator::QUESTION_MARK | BinaryOperator::COLON => (5, 4),
        BinaryOperator::EQUAL_EQUAL | BinaryOperator::BANG_EQUAL => (6, 7),
        BinaryOperator::LESS
        | BinaryOperator::LESS_EQUAL
        | BinaryOperator::GREATER
        | BinaryOperator::GREATER_EQUAL => (8, 9),
        BinaryOperator::PLUS | BinaryOperator::MINUS => (10, 11),
        BinaryOperator::STAR | BinaryOperator::SLASH => (12, 13),
    }
}

/// The `while` loop that `for (init; cond; inc) body` stands for.
pub open spec fn desugar_for<'a>(
    initialiser: Option<SStatement<'a>>,
    condition: Option<SExpr<'a>>,
    increment: Option<SExpr<'a>>,
    body: SStatement<'a>,
    line: usize,
) -> SStatement<'a> {
    let body = match increment {
        Some(inc) => SStatement::Group(seq![body, SStatement::Expression(inc)]),
        None => body,
    };
    let condition = match condition {
        Some(c) => c,
        None => SExpr { line, kind: SExprKind::Literal(SLiteral::Boolean(true)) },
    };
    let while_loop = SStatement::While { condition, body: Box::new(body) };
    match initialiser {
        None => while_loop,
        Some(init) => SStatement::Group(seq![init, while_loop]),
    }
}

/// A step that cannot happen: parsing never goes backwards.
pub open spec fn stuck<T>(st: PState) -> PRes<T> {
    (Err(eof_error(Seq::empty())), st)
}

/// Whether `name` names a token type that starts a statement, where
/// skipping ahead after an error stops.
pub open spec fn starts_statement(t: TokenType) -> bool {
    t == TokenType::CLASS || t == TokenType::FUN || t == TokenType::VAR || t == TokenType::FOR || t
        == TokenType::WHILE || t == TokenType::PRINT || t == TokenType::RETURN
}

/// Skips ahead after an error: past the next `;`, or up to a token that
/// starts a statement.
pub open spec fn synchronise<'a>(ts: Seq<Token<'a>>, st: PState) -> PState {
    match current(ts, st) {
        None => advance(ts, st),
        Some(t) => sync_loop(ts, advance(ts, st), t),
    }
}

pub open spec fn sync_loop<'a>(ts: Seq<Token<'a>>, st: PState, token: Token<'a>) -> PState
    decreases rem(ts, st),
{
    if token.token_type == TokenType::SEMICOLON {
        st
    } else if current(ts, st) matches Some(n) && starts_statement(n.token_type) {
        st
    } else {
        match current(ts, st) {
            None => advance(ts, st),
            Some(t) => if st.pos <= ts.len() {
                proof {
                    lemma_advance(ts, st);
                }
                sync_loop(ts, advance(ts, st), t)
            } else {
                st
            },
        }
    }
}

/// Parameter names, separated by commas, after `params`.
pub open spec fn params_loop<'a>(ts: Seq<Token<'a>>, st: PState, params: Seq<&'a str>, line: usize) -> PRes<
    Seq<&'a str>,
>
    decreases rem(ts, st),
{
    let (r, st1) = consume_name(ts, st);
    match r {
        Err(_) => (Ok(params), st1),
        Ok(param) => {
            let params = params.push(param);
            if params.len() >= 255 {
                (
                    Err(
                        SParserError {
                            kind: SParserErrorKind::TooManyArguments { line },
                            synchronise: true,
                        },
                    ),
                    st1,
                )
            } else {
                let (c, st2) = consume_one(ts, st1, TokenType::COMMA);
                match c {
                    Err(_) => (Ok(params), st2),
                    Ok(_) => if st.pos <= ts.len() {
                        proof {
                            lemma_consume_if(ts, st, seq![TokenType::IDENTIFIER]);
                            lemma_consume_if(ts, st1, seq![TokenType::COMMA]);
                        }
                        params_loop(ts, st2, params, line)
                    } else {
                        (Ok(params), st2)
                    },
                }
            }
        },
    }
}

/// Parses statements up to the end of the input, after `done` and with
/// the errors so far, passing over any `}` that closes no block; all
/// errors are collected into one.
pub open spec fn parse_loop<'a>(
    ts: Seq<Token<'a>>,
    st: PState,
    done: Seq<SStatement<'a>>,
    errors: Seq<SParserError>,
    depth: nat,
) -> PRes<Seq<SStatement<'a>>>
    decreases rem(ts, st), 13nat,
{
    if current(ts, st) is None {
        if errors.len() != 0 {
            (Err(block_error_of(errors)), st)
        } else {
            (Ok(done), st)
        }
    } else if current(ts, st).unwrap().token_type == TokenType::RIGHT_BRACE {
        // A `}` that closes no block is passed over.
        if st.pos <= ts.len() {
            proof {
                lemma_advance(ts, st);
            }
            parse_loop(ts, advance(ts, st), done, errors, depth)
        } else {
            stuck(st)
        }
    } else {
        let (r, st1) = sp_statement(ts, st, depth);
        match r {
            Ok(s) => if rem(ts, st1) < rem(ts, st) {
                parse_loop(ts, st1, done.push(s), errors, depth)
            } else {
                stuck(st1)
            },
            Err(e) => {
                let st2 = if st1.pos == st.pos {
                    synchronise(ts, st1)
                } else {
                    st1
                };
                if rem(ts, st2) < rem(ts, st) {
                    parse_loop(ts, st2, done, errors.push(e), depth)
                } else {
                    stuck(st2)
                }
            },
        }
    }
}

/// Parses a whole program.
pub open spec fn sp_program<'a>(ts: Seq<Token<'a>>) -> Result<Seq<SStatement<'a>>, SParserError> {
    parse_loop(ts, PState { pos: skip_comments(ts, 0), checked: seq![] }, seq![], seq![], 0).0
}

pub open spec fn sp_statement<'a>(ts: Seq<Token<'a>>, st: PState, depth: nat) -> PRes<SStatement<'a>>
    decreases rem(ts, st), 9nat,
{
    if current(ts, st) is None {
        (Err(eof_error("Start of statement"@)), st)
    } else {
        let (r, st1) = consume_one(ts, st, TokenType::LEFT_BRACE);
        match r {
            Ok(_) => if st.pos <= ts.len() {
                proof {
                    lemma_consume_if(ts, st, seq![TokenType::LEFT_BRACE]);
                }
                sp_block(ts, st1, depth)
            } else {
                stuck(st1)
            },
            Err(_) => sp_keyword(ts, st1, depth),
        }
    }
}

/// The statements of a block, after `{`, and its closing `}`.
pub open spec fn sp_block<'a>(ts: Seq<Token<'a>>, st: PState, depth: nat) -> PRes<SStatement<'a>>
    decreases rem(ts, st), 11nat,
{
    block_loop(ts, st, seq![], seq![], depth)
}

pub open spec fn block_loop<'a>(
    ts: Seq<Token<'a>>,
    st: PState,
    members: Seq<SStatement<'a>>,
    errors: Seq<SParserError>,
    depth: nat,
) -> PRes<SStatement<'a>>
    decreases rem(ts, st), 10nat,
{
    if current(ts, st) is None || current(ts, st).unwrap().token_type == TokenType::RIGHT_BRACE {
        let (r, st1) = consume_one(ts, st, TokenType::RIGHT_BRACE);
        let errors = match r {
            Err(e) => errors.push(e),
            Ok(_) => errors,
        };
        if errors.len() != 0 {
            (Err(block_error_of(errors)), st1)
        } else {
            (Ok(SStatement::Group(members)), st1)
        }
    } else {
        let (r, st1) = sp_statement(ts, st, depth);
        match r {
            Ok(s) => if rem(ts, st1) < rem(ts, st) {
                block_loop(ts, st1, members.push(s), errors, depth)
            } else {
                stuck(st1)
            },
            Err(e) => {
                let st2 = if e.synchronise || st1.pos == st.pos {
                    synchronise(ts, st1)
                } else {
                    st1
                };
                if rem(ts, st2) < rem(ts, st) {
                    block_loop(ts, st2, members, errors.push(e), depth)
                } else {
                    stuck(st2)
                }
            },
        }
    }
}

pub open spec fn sp_keyword<'a>(ts: Seq<Token<'a>>, st: PState, depth: nat) -> PRes<SStatement<'a>>
    decreases rem(ts, st), 8nat,
{
    let (pk, st1) = peek_subset::<Keyword>(ts, st);
    match pk {
        Err(_) => {
            let (r, st2) = sp_expression(ts, st1, 0, depth);
            match r {
                Err(e) => (Err(e), st2),
                Ok(e) => {
                    let (r3, st3) = semicolon_or_eof(ts, st2);
                    match r3 {
                        Err(x) => (Err(x), st3),
                        Ok(_) => (Ok(SStatement::Expression(e)), st3),
                    }
                },
            }
        },
        Ok((keyword, line)) => {
            let token = current(ts, st1).unwrap();
            let st2 = advance(ts, st1);
            if st.pos <= ts.len() {
                proof {
                    lemma_advance(ts, st1);
                }
                match keyword {
                    Keyword::VAR => {
                        let (r, st3) = sp_declaration(ts, st2, depth);
                        match r {
                            Err(e) => (Err(e), st3),
                            Ok(d) => {
                                let (r4, st4) = semicolon_or_eof(ts, st3);
                                match r4 {
                                    Err(x) => (Err(x), st4),
                                    Ok(_) => (Ok(d), st4),
                                }
                            },
                        }
                    },
                    Keyword::FUN => sp_function_declaration(ts, st2, line, depth),
                    Keyword::PRINT => {
                        let (r, st3) = sp_expression(ts, st2, 0, depth);
                        match r {
                            Err(e) => (Err(e), st3),
                            Ok(e) => {
                                let (r4, st4) = semicolon_or_eof(ts, st3);
                                match r4 {
                                    Err(x) => (Err(x), st4),
                                    Ok(_) => (Ok(SStatement::Print(e)), st4),
                                }
                            },
                        }
                    },
                    Keyword::IF => sp_if(ts, st2, depth),
                    Keyword::WHILE => sp_while(ts, st2, depth),
                    Keyword::FOR => sp_for(ts, st2, depth),
                    Keyword::BREAK => if depth != 0 {
                        (Err(unexpected_token_error(token, st2.checked)), st2)
                    } else {
                        let (r4, st4) = semicolon_or_eof(ts, st2);
                        match r4 {
                            Err(x) => (Err(x), st4),
                            Ok(_) => (Ok(SStatement::Break), st4),
                        }
                    },
                    Keyword::RETURN => sp_return(ts, st2, line, depth),
                }
            } else {
                stuck(st2)
            }
        },
    }
}

pub open spec fn sp_declaration<'a>(ts: Seq<Token<'a>>, st: PState, depth: nat) -> PRes<SStatement<'a>>
    decreases rem(ts, st), 7nat,
{
    let (rn, st1) = consume_name(ts, st);
    match rn {
        Err(e) => (Err(e), st1),
        Ok(name) => {
            let (re, st2) = consume_one(ts, st1, TokenType::EQUAL);
            match re {
                Ok(_) => if st.pos <= ts.len() {
                    proof {
                        lemma_consume_if(ts, st, seq![TokenType::IDENTIFIER]);
                        lemma_consume_if(ts, st1, seq![TokenType::EQUAL]);
                    }
                    let (rx, st3) = sp_expression(ts, st2, 0, depth);
                    match rx {
                        Err(e) => (Err(e), st3),
                        Ok(x) => (Ok(SStatement::Declaration { name, expression: Some(x) }), st3),
                    }
                } else {
                    stuck(st2)
                },
                Err(_) => (Ok(SStatement::Declaration { name, expression: None }), st2),
            }
        },
    }
}

pub open spec fn sp_function_declaration<'a>(ts: Seq<Token<'a>>, st: PState, line: usize, depth: nat) -> PRes<
    SStatement<'a>,
>
    decreases rem(ts, st), 7nat,
{
    if current(ts, st) matches Some(t) && t.token_type == TokenType::IDENTIFIER {
        let (rn, st1) = consume_name(ts, st);
        match rn {
            Err(e) => (Err(e), st1),
            Ok(name) => if st.pos <= ts.len() {
                proof {
                    lemma_consume_if(ts, st, seq![TokenType::IDENTIFIER]);
                }
                let (rf, st2) = sp_function(ts, st1, name, line, depth);
                match rf {
                    Err(e) => (Err(e), st2),
                    Ok(f) => (Ok(SStatement::FunctionDeclaration(f)), st2),
                }
            } else {
                stuck(st1)
            },
        }
    } else {
        let (rf, st1) = sp_function(ts, st, "lambda", line, depth);
        match rf {
            Err(e) => (Err(e), st1),
            Ok(f) => (Ok(SStatement::Expression(SExpr { line, kind: SExprKind::Lambda(f) })), st1),
        }
    }
}

/// A function's parameters in parentheses, then its body in braces.
pub open spec fn sp_function<'a>(ts: Seq<Token<'a>>, st: PState, name: &'a str, line: usize, depth: nat) -> PRes<
    SFunction<'a>,
>
    decreases rem(ts, st), 6nat,
{
    let (r1, st1) = consume_one(ts, st, TokenType::LEFT_PAREN);
    match r1 {
        Err(e) => (Err(e), st1),
        Ok(_) => {
            let (rp, st2) = params_loop(ts, st1, seq![], line);
            match rp {
                Err(e) => (Err(e), st2),
                Ok(params) => {
                    let (r3, st3) = consume_one(ts, st2, TokenType::RIGHT_PAREN);
                    match r3 {
                        Err(e) => (Err(e), st3),
                        Ok(_) => {
                            let (r4, st4) = consume_one(ts, st3, TokenType::LEFT_BRACE);
                            match r4 {
                                Err(e) => (Err(e), st4),
                                Ok(_) => if rem(ts, st4) < rem(ts, st) {
                                    let (rb, st5) = sp_block(ts, st4, depth);
                                    match rb {
                                        Err(e) => (Err(e), st5),
                                        Ok(body) => (
                                            Ok(SFunction { name, params, body: SBody::Lox(Box::new(body)) }),
                                            st5,
                                        ),
                                    }
                                } else {
                                    stuck(st4)
                                },
                            }
                        },
                    }
                },
            }
        },
    }
}

pub open spec fn sp_if<'a>(ts: Seq<Token<'a>>, st: PState, depth: nat) -> PRes<SStatement<'a>>
    decreases rem(ts, st), 7nat,
{
    let (r1, st1) = consume_one(ts, st, TokenType::LEFT_PAREN);
    match r1 {
        Err(e) => (Err(e), st1),
        Ok(_) => if st.pos <= ts.len() {
            proof {
                lemma_consume_if(ts, st, seq![TokenType::LEFT_PAREN]);
            }
            let (rc, st2) = sp_expression(ts, st1, 0, depth);
            match rc {
                Err(e) => (Err(e), st2),
                Ok(condition) => {
                    let (r3, st3) = consume_one(ts, st2, TokenType::RIGHT_PAREN);
                    match r3 {
                        Err(e) => (Err(e), st3),
                        Ok(_) => if rem(ts, st3) < rem(ts, st) {
                            let (rt, st4) = sp_statement(ts, st3, depth);
                            match rt {
                                Err(e) => (Err(e), st4),
                                Ok(true_branch) => {
                                    let (r5, st5) = consume_one(ts, st4, TokenType::ELSE);
                                    match r5 {
                                        Err(_) => (
                                            Ok(
                                                SStatement::If {
                                                    condition,
                                                    true_branch: Box::new(true_branch),
                                                    false_branch: None,
                                                },
                                            ),
                                            st5,
                                        ),
                                        Ok(_) => if rem(ts, st5) < rem(ts, st) {
                                            let (rf, st6) = sp_statement(ts, st5, depth);
                                            match rf {
                                                Err(e) => (Err(e), st6),
                                                Ok(false_branch) => (
                                                    Ok(
                                                        SStatement::If {
                                                            condition,
                                                            true_branch: Box::new(true_branch),
                                                            false_branch: Some(Box::new(false_branch)),
                                                        },
                                                    ),
                                                    st6,
                                                ),
                                            }
                                        } else {
                                            stuck(st5)
                                        },
                                    }
                                },
                            }
                        } else {
                            stuck(st3)
                        },
                    }
                },
            }
        } else {
            stuck(st1)
        },
    }
}

/// A loop body, parsed with one more enclosing loop.
pub open spec fn sp_loop_body<'a>(ts: Seq<Token<'a>>, st: PState, depth: nat) -> PRes<SStatement<'a>>
    decreases rem(ts, st), 11nat,
{
    sp_statement(ts, st, depth + 1)
}

pub open spec fn sp_while<'a>(ts: Seq<Token<'a>>, st: PState, depth: nat) -> PRes<SStatement<'a>>
    decreases rem(ts, st), 7nat,
{
    let (r1, st1) = consume_one(ts, st, TokenType::LEFT_PAREN);
    match r1 {
        Err(e) => (Err(e), st1),
        Ok(_) => if st.pos <= ts.len() {
            proof {
                lemma_consume_if(ts, st, seq![TokenType::LEFT_PAREN]);
            }
            let (rc, st2) = sp_expression(ts, st1, 0, depth);
            match rc {
                Err(e) => (Err(e), st2),
                Ok(condition) => {
                    let (r3, st3) = consume_one(ts, st2, TokenType::RIGHT_PAREN);
                    match r3 {
                        Err(e) => (Err(e), st3),
                        Ok(_) => if rem(ts, st3) < rem(ts, st) {
                            let (rb, st4) = sp_loop_body(ts, st3, depth);
                            match rb {
                                Err(e) => (Err(e), st4),
                                Ok(body) => (Ok(SStatement::While { condition, body: Box::new(body) }), st4),
                            }
                        } else {
                            stuck(st3)
                        },
                    }
                },
            }
        } else {
            stuck(st1)
        },
    }
}

pub open spec fn sp_for<'a>(ts: Seq<Token<'a>>, st: PState, depth: nat) -> PRes<SStatement<'a>>
    decreases rem(ts, st), 7nat,
{
    let (r1, st1) = consume_one(ts, st, TokenType::LEFT_PAREN);
    match r1 {
        Err(e) => (Err(e), st1),
        Ok(_) => if st.pos <= ts.len() {
            proof {
                lemma_consume_if(ts, st, seq![TokenType::LEFT_PAREN]);
            }
            match current(ts, st1) {
                None => (Err(eof_error("For statement"@)), st1),
                Some(next1) => {
                    let line = next1.line;
                    let (ri, st2): (Result<Option<SStatement<'a>>, SParserError>, PState) =
                        if next1.token_type == TokenType::SEMICOLON {
                        (Ok(None), st1)
                    } else {
                        let (rv, sv) = consume_one(ts, st1, TokenType::VAR);
                        match rv {
                            Ok(_) => {
                                proof {
                                    lemma_consume_if(ts, st1, seq![TokenType::VAR]);
                                }
                                let (rd, sd) = sp_declaration(ts, sv, depth);
                                match rd {
                                    Ok(d) => (Ok(Some(d)), sd),
                                    Err(e) => (Err(e), sd),
                                }
                            },
                            Err(_) => {
                                proof {
                                    lemma_consume_if(ts, st1, seq![TokenType::VAR]);
                                }
                                let (rx, sx) = sp_expression(ts, sv, 0, depth);
                                match rx {
                                    Ok(x) => (Ok(Some(SStatement::Expression(x))), sx),
                                    Err(e) => (Err(e), sx),
                                }
                            },
                        }
                    };
                    match ri {
                        Err(e) => (Err(e), st2),
                        Ok(initialiser) => sp_for_rest(ts, st, st2, initialiser, line, depth),
                    }
                },
            }
        } else {
            stuck(st1)
        },
    }
}

/// The rest of a `for` header after its initialiser: condition,
/// increment, then the body. `start` is where the statement began.
/// The header must have an increment: a `)` in its place is read as the
/// start of an expression, and a `;` there is passed over but then stands
/// where the `)` must, so `for (;;)` and `for (a; b;)` are refused. The
/// body does not count as a loop body for `break`.
pub open spec fn sp_for_rest<'a>(
    ts: Seq<Token<'a>>,
    start: PState,
    st: PState,
    initialiser: Option<SStatement<'a>>,
    line: usize,
    depth: nat,
) -> PRes<SStatement<'a>>
    decreases rem(ts, start), 6nat,
{
    if rem(ts, st) < rem(ts, start) && st.pos <= ts.len() {
        proof {
            lemma_consume_if(ts, st, seq![TokenType::SEMICOLON]);
        }
        let (r2, st2) = consume_one(ts, st, TokenType::SEMICOLON);
        match r2 {
            Err(e) => (Err(e), st2),
            Ok(_) => match current(ts, st2) {
                None => (Err(eof_error("For statement"@)), st2),
                Some(next2) => {
                    let (rc, st3): (Result<Option<SExpr<'a>>, SParserError>, PState) =
                        if next2.token_type == TokenType::SEMICOLON {
                        (Ok(None), st2)
                    } else {
                        let (rx, sx) = sp_expression(ts, st2, 0, depth);
                        match rx {
                            Ok(x) => (Ok(Some(x)), sx),
                            Err(e) => (Err(e), sx),
                        }
                    };
                    match rc {
                        Err(e) => (Err(e), st3),
                        Ok(condition) => {
                            let (r4, st4) = consume_one(ts, st3, TokenType::SEMICOLON);
                            match r4 {
                                Err(e) => (Err(e), st4),
                                Ok(_) => match current(ts, st4) {
                                    None => (Err(eof_error("For statement"@)), st4),
                                    Some(next3) => {
                                        let (rn, st5): (Result<Option<SExpr<'a>>, SParserError>, PState) =
                                            if next3.token_type == TokenType::SEMICOLON {
                                            (Ok(None), st4)
                                        } else if rem(ts, st4) < rem(ts, start) {
                                            let (rx, sx) = sp_expression(ts, st4, 0, depth);
                                            match rx {
                                                Ok(x) => (Ok(Some(x)), sx),
                                                Err(e) => (Err(e), sx),
                                            }
                                        } else {
                                            (Err(eof_error(Seq::empty())), st4)
                                        };
                                        match rn {
                                            Err(e) => (Err(e), st5),
                                            Ok(increment) => {
                                                let (r6, st6) = consume_one(ts, st5, TokenType::RIGHT_PAREN);
                                                match r6 {
                                                    Err(e) => (Err(e), st6),
                                                    Ok(_) => if rem(ts, st6) < rem(ts, start) {
                                                        let (rb, st7) = sp_statement(ts, st6, depth);
                                                        match rb {
                                                            Err(e) => (Err(e), st7),
                                                            Ok(body) => (
                                                                Ok(desugar_for(initialiser, condition, increment, body, line)),
                                                                st7,
                                                            ),
                                                        }
                                                    } else {
                                                        stuck(st6)
                                                    },
                                                }
                                            },
                                        }
                                    },
                                },
                            }
                        },
                    }
                },
            },
        }
    } else {
        stuck(st)
    }
}

pub open spec fn sp_return<'a>(ts: Seq<Token<'a>>, st: PState, line: usize, depth: nat) -> PRes<SStatement<'a>>
    decreases rem(ts, st), 7nat,
{
    match current(ts, st) {
        None => (Err(eof_error("Return statement"@)), st),
        Some(next) => if next.token_type == TokenType::SEMICOLON {
            return_end(ts, st, line, None)
        } else {
            let (rx, sx) = sp_expression(ts, st, 0, depth);
            match rx {
                Err(e) => (Err(e), sx),
                Ok(x) => return_end(ts, sx, line, Some(x)),
            }
        },
    }
}

/// The `;` that ends a `return`, and the statement.
pub open spec fn return_end<'a>(ts: Seq<Token<'a>>, st: PState, line: usize, value: Option<SExpr<'a>>) -> PRes<
    SStatement<'a>,
> {
    let (r, st1) = consume_one(ts, st, TokenType::SEMICOLON);
    match r {
        Err(e) => (Err(e), st1),
        Ok(_) => (Ok(SStatement::Return { line, value }), st1),
    }
}

/// An expression binding at least as tightly as `prec`, then an optional
/// assignment.
pub open spec fn sp_expression<'a>(ts: Seq<Token<'a>>, st: PState, prec: nat, depth: nat) -> PRes<SExpr<'a>>
    decreases rem(ts, st), 5nat,
{
    let (rl, st1) = sp_logical(ts, st, prec, depth);
    match rl {
        Err(e) => (Err(e), st1),
        Ok(lhs) => {
            let (re, st2) = consume_one(ts, st1, TokenType::EQUAL);
            match re {
                Err(_) => (Ok(lhs), st2),
                Ok(token) => if rem(ts, st2) < rem(ts, st) {
                    let (rr, st3) = sp_expression(ts, st2, prec, depth);
                    match rr {
                        Err(e) => (Err(e), st3),
                        Ok(rhs) => match lhs.kind {
                            SExprKind::Identifier(name) => (
                                Ok(SExpr { line: token.line, kind: SExprKind::Assignment(name, Box::new(rhs)) }),
                                st3,
                            ),
                            _ => (
                                Err(
                                    SParserError {
                                        kind: SParserErrorKind::InvalidAssignmentTarget { line: token.line },
                                        synchronise: true,
                                    },
                                ),
                                st3,
                            ),
                        },
                    }
                } else {
                    stuck(st2)
                },
            }
        },
    }
}

pub open spec fn sp_logical<'a>(ts: Seq<Token<'a>>, st: PState, prec: nat, depth: nat) -> PRes<SExpr<'a>>
    decreases rem(ts, st), 4nat,
{
    let (r, st1) = sp_binary(ts, st, prec, depth);
    match r {
        Err(e) => (Err(e), st1),
        Ok(lhs) => if rem(ts, st1) < rem(ts, st) {
            logical_loop(ts, st1, prec, lhs, depth)
        } else {
            stuck(st1)
        },
    }
}

pub open spec fn logical_loop<'a>(ts: Seq<Token<'a>>, st: PState, prec: nat, lhs: SExpr<'a>, depth: nat) -> PRes<SExpr<'a>>
    decreases rem(ts, st), 4nat,
{
    let (pk, st1) = peek_subset::<LogicalOperator>(ts, st);
    match pk {
        Err(_) => (Ok(lhs), st1),
        Ok((infix, line)) => {
            let precedence = logical_binding(infix);
            if precedence < prec {
                (Ok(lhs), st1)
            } else if st.pos <= ts.len() {
                proof {
                    lemma_advance(ts, st1);
                }
                let st2 = advance(ts, st1);
                let (rr, st3) = sp_logical(ts, st2, precedence, depth);
                match rr {
                    Err(e) => (Err(e), st3),
                    Ok(rhs) => if rem(ts, st3) < rem(ts, st) {
                        logical_loop(
                            ts,
                            st3,
                            prec,
                            SExpr { line, kind: SExprKind::Logical(Box::new(lhs), infix, Box::new(rhs)) },
                            depth,
                        )
                    } else {
                        stuck(st3)
                    },
                }
            } else {
                stuck(st1)
            }
        },
    }
}

pub open spec fn sp_binary<'a>(ts: Seq<Token<'a>>, st: PState, prec: nat, depth: nat) -> PRes<SExpr<'a>>
    decreases rem(ts, st), 3nat,
{
    let (r, st1) = sp_prefix(ts, st, depth);
    match r {
        Err(e) => (Err(e), st1),
        Ok(lhs) => if rem(ts, st1) < rem(ts, st) {
            binary_loop(ts, st1, prec, lhs, depth)
        } else {
            stuck(st1)
        },
    }
}

pub open spec fn binary_loop<'a>(ts: Seq<Token<'a>>, st: PState, prec: nat, lhs: SExpr<'a>, depth: nat) -> PRes<SExpr<'a>>
    decreases rem(ts, st), 3nat,
{
    let (pk, st1) = peek_subset::<BinaryOperator>(ts, st);
    match pk {
        Err(_) => (Ok(lhs), st1),
        Ok((infix, line)) => {
            let (l_precedence, r_precedence) = infix_binding(infix);
            if l_precedence < prec {
                (Ok(lhs), st1)
            } else if st.pos <= ts.len() {
                proof {
                    lemma_advance(ts, st1);
                }
                let st2 = advance(ts, st1);
                let (rr, st3) = sp_binary(ts, st2, r_precedence, depth);
                match rr {
                    Err(e) => (Err(e), st3),
                    Ok(rhs) => if rem(ts, st3) < rem(ts, st) {
                        binary_loop(
                            ts,
                            st3,
                            prec,
                            SExpr { line, kind: SExprKind::Binary(Box::new(lhs), infix, Box::new(rhs)) },
                            depth,
                        )
                    } else {
                        stuck(st3)
                    },
                }
            } else {
                stuck(st1)
            }
        },
    }
}

/// Prefix operators, then a value, a parenthesised expression or a
/// lambda, then any calls.
pub open spec fn sp_prefix<'a>(ts: Seq<Token<'a>>, st: PState, depth: nat) -> PRes<SExpr<'a>>
    decreases rem(ts, st), 2nat,
{
    let (pu, st1) = peek_subset::<UnaryOperator>(ts, st);
    match pu {
        Ok((op, line)) => if st.pos <= ts.len() {
            proof {
                lemma_advance(ts, st1);
            }
            let (r, st2) = sp_prefix(ts, advance(ts, st1), depth);
            match r {
                Err(e) => (Err(e), st2),
                Ok(inner) => (Ok(SExpr { line, kind: SExprKind::Unary(op, Box::new(inner)) }), st2),
            }
        } else {
            stuck(st1)
        },
        Err(_) => {
            let (rv, st2) = token_value(ts, st1);
            match rv {
                Ok((v, line)) => if st.pos <= ts.len() {
                    proof {
                        lemma_consume_if(ts, st1, ValueTokenTypes::spec_variants());
                    }
                    call_loop(ts, st2, value_expr(v, line), depth)
                } else {
                    stuck(st2)
                },
                Err(_) => {
                    let (rp, st3) = consume_one(ts, st2, TokenType::LEFT_PAREN);
                    match rp {
                        Ok(_) => if st.pos <= ts.len() {
                            proof {
                                lemma_consume_if(ts, st1, ValueTokenTypes::spec_variants());
                                lemma_consume_if(ts, st2, seq![TokenType::LEFT_PAREN]);
                            }
                            let (ri, st4) = sp_expression(ts, st3, 0, depth);
                            match ri {
                                Err(e) => (Err(e), st4),
                                Ok(inner) => {
                                    let (rc, st5) = consume_one(ts, st4, TokenType::RIGHT_PAREN);
                                    match rc {
                                        Err(e) => (Err(e), st5),
                                        Ok(token) => if rem(ts, st5) < rem(ts, st) {
                                            call_loop(
                                                ts,
                                                st5,
                                                SExpr { line: token.line, kind: SExprKind::Grouping(Box::new(inner)) },
                                                depth,
                                            )
                                        } else {
                                            stuck(st5)
                                        },
                                    }
                                },
                            }
                        } else {
                            stuck(st3)
                        },
                        Err(_) => {
                            let (rf, st4) = consume_one(ts, st3, TokenType::FUN);
                            match rf {
                                Ok(token) => if st.pos <= ts.len() {
                                    proof {
                                        lemma_consume_if(ts, st1, ValueTokenTypes::spec_variants());
                                        lemma_consume_if(ts, st2, seq![TokenType::LEFT_PAREN]);
                                        lemma_consume_if(ts, st3, seq![TokenType::FUN]);
                                    }
                                    let (rl, st5) = sp_function(ts, st4, "lambda", token.line, depth);
                                    match rl {
                                        Err(e) => (Err(e), st5),
                                        Ok(f) => if rem(ts, st5) < rem(ts, st) {
                                            call_loop(
                                                ts,
                                                st5,
                                                SExpr { line: token.line, kind: SExprKind::Lambda(f) },
                                                depth,
                                            )
                                        } else {
                                            stuck(st5)
                                        },
                                    }
                                } else {
                                    stuck(st4)
                                },
                                Err(_) => (Err(failed_to_match(ts, st4)), st4),
                            }
                        },
                    }
                },
            }
        },
    }
}

/// Calls applied to `expr`, each starting with `(`.
pub open spec fn call_loop<'a>(ts: Seq<Token<'a>>, st: PState, expr: SExpr<'a>, depth: nat) -> PRes<SExpr<'a>>
    decreases rem(ts, st), 1nat,
{
    let (rp, st1) = consume_one(ts, st, TokenType::LEFT_PAREN);
    match rp {
        Err(_) => (Ok(expr), st1),
        Ok(_) => if st.pos <= ts.len() {
            proof {
                lemma_consume_if(ts, st, seq![TokenType::LEFT_PAREN]);
            }
            let (rc, st2) = sp_build_call(ts, st1, expr, depth);
            match rc {
                Err(e) => (Err(e), st2),
                Ok(call) => if rem(ts, st2) < rem(ts, st) {
                    call_loop(ts, st2, call, depth)
                } else {
                    stuck(st2)
                },
            }
        } else {
            stuck(st1)
        },
    }
}

/// The arguments of a call after `(`, and the closing `)`.
pub open spec fn sp_build_call<'a>(ts: Seq<Token<'a>>, st: PState, callee: SExpr<'a>, depth: nat) -> PRes<SExpr<'a>>
    decreases rem(ts, st), 7nat,
{
    args_loop(ts, st, callee, seq![], depth)
}

pub open spec fn args_loop<'a>(ts: Seq<Token<'a>>, st: PState, callee: SExpr<'a>, args: Seq<SExpr<'a>>, depth: nat) -> PRes<
    SExpr<'a>,
>
    decreases rem(ts, st), 6nat,
{
    if current(ts, st) is None || current(ts, st).unwrap().token_type == TokenType::RIGHT_PAREN {
        args_end(ts, st, callee, args)
    } else {
        let (ra, st1) = sp_expression(ts, st, 5, depth);
        match ra {
            Err(e) => (Err(e), st1),
            Ok(arg) => {
                let args = args.push(arg);
                if args.len() >= 255 {
                    (
                        Err(
                            SParserError {
                                kind: SParserErrorKind::TooManyArguments { line: arg.line },
                                synchronise: false,
                            },
                        ),
                        st1,
                    )
                } else {
                    let (rc, st2) = consume_one(ts, st1, TokenType::COMMA);
                    match rc {
                        Err(_) => args_end(ts, st2, callee, args),
                        Ok(_) => if rem(ts, st2) < rem(ts, st) {
                            args_loop(ts, st2, callee, args, depth)
                        } else {
                            stuck(st2)
                        },
                    }
                }
            },
        }
    }
}

/// The closing `)` of a call.
pub open spec fn args_end<'a>(ts: Seq<Token<'a>>, st: PState, callee: SExpr<'a>, args: Seq<SExpr<'a>>) -> PRes<
    SExpr<'a>,
> {
    let (r, st1) = consume_one(ts, st, TokenType::RIGHT_PAREN);
    match r {
        Err(e) => (Err(e), st1),
        Ok(_) => (Ok(SExpr { line: callee.line, kind: SExprKind::Call(Box::new(callee), args) }), st1),
    }
}


/// `*` and `/` bind tighter than `+` and `-`, which bind tighter than the
/// comparisons, which bind tighter than the equalities; within each of
/// these levels the operators bind alike and group to the left. In the
/// loop that builds binary expressions, an operator joins the right
/// operand of the operator before it when its left binding is at least
/// that operator's right binding: so `a + b / c` is `a + (b / c)`,
/// `a / b * c` is `(a / b) * c`, and `a * b - c` is `(a * b) - c`.
pub proof fn lemma_infix_binding_order(tight: BinaryOperator, loose: BinaryOperator)
    ensures
        (tight == BinaryOperator::STAR || tight == BinaryOperator::SLASH) && (loose
            == BinaryOperator::PLUS || loose == BinaryOperator::MINUS) ==> {
            &&& infix_binding(tight).0 >= infix_binding(loose).1
            &&& infix_binding(loose).0 < infix_binding(tight).1
        },
        (tight == BinaryOperator::PLUS || tight == BinaryOperator::MINUS) && (loose
            == BinaryOperator::LESS || loose == BinaryOperator::LESS_EQUAL || loose
            == BinaryOperator::GREATER || loose == BinaryOperator::GREATER_EQUAL) ==> {
            &&& infix_binding(tight).0 >= infix_binding(loose).1
            &&& infix_binding(loose).0 < infix_binding(tight).1
        },
        (tight == BinaryOperator::LESS || tight == BinaryOperator::LESS_EQUAL || tight
            == BinaryOperator::GREATER || tight == BinaryOperator::GREATER_EQUAL) && (loose
            == BinaryOperator::EQUAL_EQUAL || loose == BinaryOperator::BANG_EQUAL) ==> {
            &&& infix_binding(tight).0 >= infix_binding(loose).1
            &&& infix_binding(loose).0 < infix_binding(tight).1
        },
        infix_binding(BinaryOperator::STAR) == infix_binding(BinaryOperator::SLASH),
        infix_binding(BinaryOperator::PLUS) == infix_binding(BinaryOperator::MINUS),
        infix_binding(BinaryOperator::LESS) == infix_binding(BinaryOperator::GREATER),
        infix_binding(BinaryOperator::LESS_EQUAL) == infix_binding(BinaryOperator::GREATER_EQUAL),
        infix_binding(BinaryOperator::LESS) == infix_binding(BinaryOperator::LESS_EQUAL),
        infix_binding(BinaryOperator::EQUAL_EQUAL) == infix_binding(BinaryOperator::BANG_EQUAL),
        infix_binding(tight).0 < infix_binding(tight).1 || tight == BinaryOperator::QUESTION_MARK
            || tight == BinaryOperator::COLON,
{
}

} // verus!
