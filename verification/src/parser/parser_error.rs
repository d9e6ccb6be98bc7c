use crate::token::{SpecTokenValue, Token, TokenValue};
use crate::token_type::{token_type_text, TokenType};
use crate::error_utils::{SStageError, StageError};
use crate::text::{push_all, push_str, string_from_chars};
use vstd::prelude::*;

verus! {

/// A parsing error, and whether the parser should skip ahead to the next
/// statement after it.
#[derive(Debug)]
pub struct ParserError {
    pub kind: ParserErrorKind,
    pub synchronise: bool,
}

#[derive(Debug)]
pub enum ParserErrorKind {
    UnexpectedToken {
        source: String,
        line: usize,
        token_type: TokenType,
        expected_token_types: Vec<TokenType>,
    },
    InvalidAssignmentTarget { line: usize },
    EOFWhileExpecting { expected_token_types: Vec<TokenType> },
    UnexpectedEOF { expected: &'static str },
    TooManyArguments { line: usize },
    BlockError { errors: Vec<ParserError> },
}

/// The model of a parsing error: texts as characters, lists as sequences.
pub struct SParserError {
    pub kind: SParserErrorKind,
    pub synchronise: bool,
}

pub enum SParserErrorKind {
    UnexpectedToken {
        source: Seq<char>,
        line: usize,
        token_type: TokenType,
        expected_token_types: Seq<TokenType>,
    },
    InvalidAssignmentTarget { line: usize },
    EOFWhileExpecting { expected_token_types: Seq<TokenType> },
    UnexpectedEOF { expected: Seq<char> },
    TooManyArguments { line: usize },
    BlockError { errors: Seq<SParserError> },
}

pub open spec fn parser_error_model(e: ParserError) -> SParserError
    decreases e,
{
    SParserError {
        kind: match e.kind {
            ParserErrorKind::UnexpectedToken { source, line, token_type, expected_token_types } =>
                SParserErrorKind::UnexpectedToken {
                source: source@,
                line,
                token_type,
                expected_token_types: expected_token_types@,
            },
            ParserErrorKind::InvalidAssignmentTarget { line } =>
                SParserErrorKind::InvalidAssignmentTarget { line },
            ParserErrorKind::EOFWhileExpecting { expected_token_types } =>
                SParserErrorKind::EOFWhileExpecting { expected_token_types: expected_token_types@ },
            ParserErrorKind::UnexpectedEOF { expected } => SParserErrorKind::UnexpectedEOF {
                expected: expected@,
            },
            ParserErrorKind::TooManyArguments { line } => SParserErrorKind::TooManyArguments { line },
            ParserErrorKind::BlockError { errors } => SParserErrorKind::BlockError {
                errors: parser_errors_model(errors@),
            },
        },
        synchronise: e.synchronise,
    }
}

pub open spec fn parser_errors_model(v: Seq<ParserError>) -> Seq<SParserError>
    decreases v,
{
    if v.len() == 0 {
        Seq::empty()
    } else {
        parser_errors_model(v.drop_last()).push(parser_error_model(v.last()))
    }
}

impl View for ParserError {
    type V = SParserError;

    open spec fn view(&self) -> SParserError {
        parser_error_model(*self)
    }
}

pub proof fn lemma_parser_errors_model(v: Seq<ParserError>)
    ensures
        parser_errors_model(v).len() == v.len(),
        forall|i: int| 0 <= i < v.len() ==> #[trigger] parser_errors_model(v)[i] == parser_error_model(v[i]),
    decreases v.len(),
{
    if v.len() > 0 {
        lemma_parser_errors_model(v.drop_last());
        assert forall|i: int| 0 <= i < v.len() implies #[trigger] parser_errors_model(v)[i] == parser_error_model(v[i]) by {
            if i < v.len() - 1 {
                assert(v.drop_last()[i] == v[i]);
            }
        }
    }
}

pub proof fn lemma_parser_errors_model_push(v: Seq<ParserError>, e: ParserError)
    ensures
        parser_errors_model(v.push(e)) == parser_errors_model(v).push(parser_error_model(e)),
{
    assert(v.push(e).drop_last() =~= v);
}

/// `token` was found where one of `expected` was expected.
pub open spec fn unexpected_token_error(token: Token, expected: Seq<TokenType>) -> SParserError {
    SParserError {
        kind: SParserErrorKind::UnexpectedToken {
            source: token_text(token),
            line: token.line,
            token_type: token.token_type,
            expected_token_types: expected,
        },
        synchronise: true,
    }
}

/// The input ended where one of `expected` was expected.
pub open spec fn expected_token_error(expected: Seq<TokenType>) -> SParserError {
    SParserError {
        kind: SParserErrorKind::EOFWhileExpecting { expected_token_types: expected },
        synchronise: true,
    }
}

/// The input ended while parsing `what`.
pub open spec fn eof_error(what: Seq<char>) -> SParserError {
    SParserError { kind: SParserErrorKind::UnexpectedEOF { expected: what }, synchronise: true }
}

/// The errors of a block as one error, which asks to skip ahead if any of
/// them does.
pub open spec fn block_error_of(errors: Seq<SParserError>) -> SParserError {
    SParserError {
        kind: SParserErrorKind::BlockError { errors },
        synchronise: exists|i: int| 0 <= i < errors.len() && #[trigger] errors[i].synchronise,
    }
}

/// How a token value is shown in messages.
pub open spec fn token_value_text(v: SpecTokenValue) -> Seq<char> {
    match v {
        SpecTokenValue::String(s) => "\""@ + s + "\""@,
        SpecTokenValue::Number(s) => s,
        SpecTokenValue::False => "false"@,
        SpecTokenValue::True => "true"@,
        SpecTokenValue::Nil => "nil"@,
        SpecTokenValue::Identifier(s) => "Var: "@ + s,
        SpecTokenValue::Comment(s) => "// "@ + s,
    }
}

/// How a token is shown in messages: its value, or else its type.
pub open spec fn token_text(t: Token) -> Seq<char> {
    match t.token_value {
        Some(v) => token_value_text(v@),
        None => token_type_text(t.token_type),
    }
}

/// How `token` is shown in messages.
pub fn token_source(token: &Token) -> (res: String)
    ensures
        res@ == token_text(*token),
{
    let mut out: Vec<char> = Vec::new();
    match token.token_value {
        Some(v) => match v {
            TokenValue::String(s) => {
                push_str(&mut out, "\"");
                push_str(&mut out, s);
                push_str(&mut out, "\"");
            },
            TokenValue::Number(s) => push_str(&mut out, s),
            TokenValue::False => push_str(&mut out, "false"),
            TokenValue::True => push_str(&mut out, "true"),
            TokenValue::Nil => push_str(&mut out, "nil"),
            TokenValue::Identifier(s) => {
                push_str(&mut out, "Var: ");
                push_str(&mut out, s);
            },
            TokenValue::Comment(s) => {
                push_str(&mut out, "// ");
                push_str(&mut out, s);
            },
        },
        None => push_str(&mut out, token.token_type.text()),
    }
    assert(out@ =~= token_text(*token));
    string_from_chars(&out)
}

/// A copy of `v`.
pub fn copy_types(v: &Vec<TokenType>) -> (res: Vec<TokenType>)
    ensures
        res@ == v@,
{
    let mut out: Vec<TokenType> = Vec::new();
    for i in 0..v.len()
        invariant
            out@ == v@.take(i as int),
    {
        out.push(v[i]);
        assert(v@.take(i + 1) =~= v@.take(i as int).push(v@[i as int]));
    }
    assert(v@.take(v.len() as int) =~= v@);
    out
}

impl ParserError {
    /// `token` was found where one of `token_types` was expected.
    pub fn unexpected_token(token: &Token, token_types: &Vec<TokenType>) -> (res: Self)
        ensures
            res.synchronise,
            res.kind matches ParserErrorKind::UnexpectedToken {
                source,
                line,
                token_type,
                expected_token_types,
            } && source@ == token_text(*token) && line == token.line && token_type
                == token.token_type && expected_token_types@ == token_types@,
            res@ == unexpected_token_error(*token, token_types@),
    {
        Self {
            kind: ParserErrorKind::UnexpectedToken {
                source: token_source(token),
                line: token.line,
                token_type: token.token_type,
                expected_token_types: copy_types(token_types),
            },
            synchronise: true,
        }
    }

    pub fn invalid_assignment_target(line: usize) -> (res: Self)
        ensures
            res.synchronise,
            res.kind == (ParserErrorKind::InvalidAssignmentTarget { line }),
            res@ == (SParserError { kind: SParserErrorKind::InvalidAssignmentTarget { line }, synchronise: true }),
    {
        Self { kind: ParserErrorKind::InvalidAssignmentTarget { line }, synchronise: true }
    }

    pub fn unexpected_eof(expected: &'static str) -> (res: Self)
        ensures
            res.synchronise,
            res.kind == (ParserErrorKind::UnexpectedEOF { expected }),
            res@ == eof_error(expected@),
    {
        Self { kind: ParserErrorKind::UnexpectedEOF { expected }, synchronise: true }
    }

    pub fn too_many_arguments(line: usize, synchronise: bool) -> (res: Self)
        ensures
            res.synchronise == synchronise,
            res.kind == (ParserErrorKind::TooManyArguments { line }),
            res@ == (SParserError { kind: SParserErrorKind::TooManyArguments { line }, synchronise }),
    {
        Self { kind: ParserErrorKind::TooManyArguments { line }, synchronise }
    }

    /// The input ended where one of `expected_token_types` was expected.
    pub fn expected_token(expected_token_types: &Vec<TokenType>) -> (res: Self)
        ensures
            res.synchronise,
            res.kind matches ParserErrorKind::EOFWhileExpecting { expected_token_types: e }
                && e@ == expected_token_types@,
            res@ == expected_token_error(expected_token_types@),
    {
        Self {
            kind: ParserErrorKind::EOFWhileExpecting {
                expected_token_types: copy_types(expected_token_types),
            },
            synchronise: true,
        }
    }

    /// The errors of a block; the parser skips ahead if any of them asks to.
    pub fn block_error(errors: Vec<Self>) -> (res: Self)
        ensures
            res.synchronise == exists|i: int| 0 <= i < errors@.len() && #[trigger] errors@[i].synchronise,
            res.kind matches ParserErrorKind::BlockError { errors: e } && e@ == errors@,
            res@ == block_error_of(parser_errors_model(errors@)),
    {
        proof {
            lemma_parser_errors_model(errors@);
        }
        let mut synchronise = false;
        let mut i: usize = 0;
        while i < errors.len()
            invariant
                i <= errors.len(),
                synchronise == exists|j: int| 0 <= j < i && #[trigger] errors@[j].synchronise,
            decreases errors.len() - i,
        {
            if errors[i].synchronise {
                synchronise = true;
            }
            i = i + 1;
        }
        proof {
            let m = parser_errors_model(errors@);
            if synchronise {
                let k = choose|k: int| 0 <= k < errors@.len() && #[trigger] errors@[k].synchronise;
                assert(m[k].synchronise);
            } else {
                assert forall|k: int| 0 <= k < m.len() implies !(#[trigger] m[k]).synchronise by {
                    assert(m[k] == parser_error_model(errors@[k]));
                    assert(!errors@[k].synchronise);
                }
            }
        }
        Self { kind: ParserErrorKind::BlockError { errors }, synchronise }
    }
}


/// `'t'` for each type, separated by `, `.
pub open spec fn quoted_types(ts: Seq<TokenType>) -> Seq<char>
    decreases ts.len(),
{
    if ts.len() == 0 {
        Seq::empty()
    } else if ts.len() == 1 {
        "'"@ + token_type_text(ts[0]) + "'"@
    } else {
        quoted_types(ts.drop_last()) + ", "@ + "'"@ + token_type_text(ts.last()) + "'"@
    }
}

/// How `{:?}` shows a list of token types: `[t, u]`.
pub open spec fn types_debug(ts: Seq<TokenType>) -> Seq<char> {
    "["@ + types_listed(ts) + "]"@
}

/// The types' texts, separated by `, `.
pub open spec fn types_listed(ts: Seq<TokenType>) -> Seq<char>
    decreases ts.len(),
{
    if ts.len() == 0 {
        Seq::empty()
    } else if ts.len() == 1 {
        token_type_text(ts[0])
    } else {
        types_listed(ts.drop_last()) + ", "@ + token_type_text(ts.last())
    }
}

/// A parsing error as a stage error.
pub open spec fn parser_stage(e: ParserError) -> SStageError
    decreases e,
{
    match e.kind {
        ParserErrorKind::UnexpectedToken { source, line, token_type, expected_token_types } =>
            SStageError {
            line: Some(line),
            message: "Unexpected Token: Expected one of: "@ + quoted_types(expected_token_types@)
                + ", found "@ + token_type_text(token_type),
            error_location: Some(source@),
            stage: "parsing"@,
            children: Seq::empty(),
        },
        ParserErrorKind::InvalidAssignmentTarget { line } => SStageError {
            line: Some(line),
            message: "Invalid assignment target"@,
            error_location: Some("="@),
            stage: "parsing"@,
            children: Seq::empty(),
        },
        ParserErrorKind::EOFWhileExpecting { expected_token_types } => SStageError {
            line: None,
            message: "Found EOF while expecting "@ + types_debug(expected_token_types@),
            error_location: None,
            stage: "parsing"@,
            children: Seq::empty(),
        },
        ParserErrorKind::UnexpectedEOF { expected } => SStageError {
            line: None,
            message: "Unexpected EOF, while parsing "@ + expected@,
            error_location: None,
            stage: "parsing"@,
            children: Seq::empty(),
        },
        ParserErrorKind::TooManyArguments { line } => SStageError {
            line: Some(line),
            message: "Can't have more than 255 arguments."@,
            error_location: None,
            stage: "Parsing"@,
            children: Seq::empty(),
        },
        ParserErrorKind::BlockError { errors } => SStageError {
            line: None,
            message: "Error while generating block"@,
            error_location: None,
            stage: "parsing"@,
            children: parsers_stage(errors@),
        },
    }
}

pub open spec fn parsers_stage(v: Seq<ParserError>) -> Seq<SStageError>
    decreases v,
{
    if v.len() == 0 {
        Seq::empty()
    } else {
        parsers_stage(v.drop_last()).push(parser_stage(v.last()))
    }
}

/// How deeply block errors nest in `e`.
pub open spec fn nesting(e: ParserError) -> nat
    decreases e,
{
    match e.kind {
        ParserErrorKind::BlockError { errors } => nestings(errors@),
        _ => 0,
    }
}

/// One more than the deepest nesting among `v`.
pub open spec fn nestings(v: Seq<ParserError>) -> nat
    decreases v,
{
    if v.len() == 0 {
        0
    } else {
        let a = nestings(v.drop_last());
        let b = nesting(v.last()) + 1;
        if a < b {
            b
        } else {
            a
        }
    }
}

proof fn lemma_nesting(v: Seq<ParserError>, i: int)
    requires
        0 <= i < v.len(),
    ensures
        nesting(v[i]) < nestings(v),
    decreases v.len(),
{
    if i < v.len() - 1 {
        lemma_nesting(v.drop_last(), i);
        assert(v.drop_last()[i] == v[i]);
    }
}

/// Appends `'t'` for each type, separated by `, `.
fn push_quoted_types(out: &mut Vec<char>, ts: &Vec<TokenType>)
    ensures
        final(out)@ == old(out)@ + quoted_types(ts@),
{
    let mut listed: Vec<char> = Vec::new();
    for i in 0..ts.len()
        invariant
            listed@ == quoted_types(ts@.take(i as int)),
    {
        if i > 0 {
            push_str(&mut listed, ", ");
        }
        push_str(&mut listed, "'");
        push_str(&mut listed, ts[i].text());
        push_str(&mut listed, "'");
        proof {
            assert(ts@.take(i + 1).drop_last() =~= ts@.take(i as int));
            if i == 0 {
                assert(ts@.take(1) =~= seq![ts@[0]]);
            }
        }
    }
    proof {
        assert(ts@.take(ts.len() as int) =~= ts@);
    }
    push_all(out, &listed);
}

/// Appends the types' texts, separated by `, `.
fn push_types_listed(out: &mut Vec<char>, ts: &Vec<TokenType>)
    ensures
        final(out)@ == old(out)@ + types_listed(ts@),
{
    let mut listed: Vec<char> = Vec::new();
    for i in 0..ts.len()
        invariant
            listed@ == types_listed(ts@.take(i as int)),
    {
        if i > 0 {
            push_str(&mut listed, ", ");
        }
        push_str(&mut listed, ts[i].text());
        proof {
            assert(ts@.take(i + 1).drop_last() =~= ts@.take(i as int));
            if i == 0 {
                assert(ts@.take(1) =~= seq![ts@[0]]);
            }
        }
    }
    proof {
        assert(ts@.take(ts.len() as int) =~= ts@);
    }
    push_all(out, &listed);
}

fn text_of_chars(parts: &Vec<char>) -> (res: String)
    ensures
        res@ == parts@,
{
    string_from_chars(parts)
}

impl ParserError {
    /// This error as a stage error: see `parser_stage`.
    pub fn to_stage_error(&self) -> (res: StageError)
        ensures
            res@ == parser_stage(*self),
        decreases nesting(*self),
    {
        proof {
            assert(crate::error_utils::stages_view(Seq::<StageError>::empty()) =~= Seq::<SStageError>::empty());
        }
        match &self.kind {
            ParserErrorKind::UnexpectedToken { source, line, token_type, expected_token_types } => {
                let mut m: Vec<char> = Vec::new();
                push_str(&mut m, "Unexpected Token: Expected one of: ");
                push_quoted_types(&mut m, expected_token_types);
                push_str(&mut m, ", found ");
                push_str(&mut m, token_type.text());
                let r = StageError {
                    line: Some(*line),
                    message: text_of_chars(&m),
                    error_location: Some(source.clone()),
                    stage: "parsing",
                    children: Vec::new(),
                };
                assert(r@ == parser_stage(*self));
                r
            },
            ParserErrorKind::InvalidAssignmentTarget { line } => {
                let r = StageError {
                    line: Some(*line),
                    message: String::from_str("Invalid assignment target"),
                    error_location: Some(String::from_str("=")),
                    stage: "parsing",
                    children: Vec::new(),
                };
                assert(r@ == parser_stage(*self));
                r
            },
            ParserErrorKind::EOFWhileExpecting { expected_token_types } => {
                let mut m: Vec<char> = Vec::new();
                push_str(&mut m, "Found EOF while expecting ");
                push_str(&mut m, "[");
                push_types_listed(&mut m, expected_token_types);
                push_str(&mut m, "]");
                assert(m@ =~= "Found EOF while expecting "@ + types_debug(expected_token_types@));
                let r = StageError {
                    line: None,
                    message: text_of_chars(&m),
                    error_location: None,
                    stage: "parsing",
                    children: Vec::new(),
                };
                assert(r@ == parser_stage(*self));
                r
            },
            ParserErrorKind::UnexpectedEOF { expected } => {
                let mut m: Vec<char> = Vec::new();
                push_str(&mut m, "Unexpected EOF, while parsing ");
                push_str(&mut m, expected);
                let r = StageError {
                    line: None,
                    message: text_of_chars(&m),
                    error_location: None,
                    stage: "parsing",
                    children: Vec::new(),
                };
                assert(r@ == parser_stage(*self));
                r
            },
            ParserErrorKind::TooManyArguments { line } => {
                let r = StageError {
                    line: Some(*line),
                    message: String::from_str("Can't have more than 255 arguments."),
                    error_location: None,
                    stage: "Parsing",
                    children: Vec::new(),
                };
                assert(r@ == parser_stage(*self));
                r
            },
            ParserErrorKind::BlockError { errors } => {
                let mut children: Vec<StageError> = Vec::new();
                for i in 0..errors.len()
                    invariant
                        nesting(*self) == nestings(errors@),
                        crate::error_utils::stages_view(children@) == parsers_stage(errors@.take(i as int)),
                {
                    proof {
                        lemma_nesting(errors@, i as int);
                    }
                    let c = errors[i].to_stage_error();
                    let ghost before = children@;
                    children.push(c);
                    proof {
                        assert(children@.drop_last() =~= before);
                        assert(errors@.take(i + 1).drop_last() =~= errors@.take(i as int));
                    }
                }
                proof {
                    assert(errors@.take(errors.len() as int) =~= errors@);
                }
                let r = StageError {
                    line: None,
                    message: String::from_str("Error while generating block"),
                    error_location: None,
                    stage: "parsing",
                    children,
                };
                assert(r@ == parser_stage(*self));
                r
            },
        }
    }
}

} // verus!
