pub mod chars;
pub mod error_utils;
pub mod evaluator;
pub mod expressions;
pub mod interpreter_error;
pub mod keywords;
pub mod parser;
pub mod printers;
pub mod scanner;
pub mod text;
pub mod token;
pub mod token_type;
pub mod tokenizer;

use crate::error_utils::{stage_message, stage_reports, stages_view, FlattenedError, StageError};
use crate::evaluator::evaluation_error::{errors_view, evaluation_stage, SError};
use crate::evaluator::semantics::{next_text, Answer};
use crate::evaluator::{ask_text, evaluate, program_explains, Host};
use crate::expressions::{display_text, stmts_model, SValue, Statement, Value};
use crate::parser::grammar::sp_program;
use crate::parser::parser_error::{parser_stage, ParserError};
use crate::parser::{lemma_scanned_tokens_wf, lemma_token_wf_view, parse};
use crate::scanner::{scan_errors_text, scan_spec, Scanner};
use crate::text::byte_len;
use crate::token::{SpecToken, Token};
use crate::token_type::TokenType;
use vstd::prelude::*;

verus! {

/// The reports of evaluation errors, in order.
pub open spec fn evaluation_stages<'a, N>(errors: Seq<SError<'a, N>>) -> Seq<crate::error_utils::SStageError>
    decreases errors.len(),
{
    if errors.len() == 0 {
        Seq::empty()
    } else {
        evaluation_stages(errors.drop_last()).push(evaluation_stage(errors.last()))
    }
}

/// How `run` shows the value of the last statement: a string in double
/// quotes, anything else as `print` shows it.
pub open spec fn result_text<'a, N>(v: SValue<'a, N>) -> Seq<char> {
    match v {
        SValue::String(s) => "\""@ + s + "\""@,
        _ => display_text(v),
    }
}

/// How `run` shows the value `v`, given the host's answers `ans`: a number
/// as the host writes that very number (the answer to its text request),
/// anything else as `result_text` says; and the answers left.
pub open spec fn sem_shown<'a, N>(v: SValue<'a, N>, ans: Seq<Answer<N>>) -> (Seq<char>, Seq<Answer<N>>) {
    match v {
        SValue::Number(n) => next_text(ans, n),
        _ => (result_text(v), ans),
    }
}

/// The text shown for a number is exactly what the host answered when
/// asked to write that number, and no other answer is used; a value of
/// any other kind is shown as `result_text` says, asking the host nothing.
pub proof fn lemma_shown_result<'a, N>(v: SValue<'a, N>, n: N, t: Seq<char>, rest: Seq<Answer<N>>)
    ensures
        sem_shown::<N>(SValue::Number(n), seq![Answer::Text(n, t)] + rest) == (t, rest),
        !(v is Number) ==> sem_shown(v, rest) == (result_text(v), rest),
        v matches SValue::String(s) ==> result_text(v) == "\""@ + s + "\""@,
{
    assert((seq![Answer::<N>::Text(n, t)] + rest).drop_first() =~= rest);
}

/// What `run` gives back for an evaluation that ended in `result`, the
/// host having answered `shown` while the value was written: nothing for
/// a program whose last statement is no expression or gives `nil`; the
/// value as `sem_shown` shows it; or the reports of the errors, separated
/// by blank lines.
pub open spec fn outcome_matches<'a, N>(
    result: Result<Option<SValue<'a, N>>, Seq<SError<'a, N>>>,
    res: Result<Option<String>, String>,
    script: Seq<char>,
    shown: Seq<Answer<N>>,
) -> bool {
    match result {
        Ok(None) => res matches Ok(None),
        Ok(Some(v)) => if v is Nil {
            res matches Ok(None)
        } else {
            res matches Ok(Some(text)) && sem_shown(v, shown) == (text@, Seq::<Answer<N>>::empty())
        },
        Err(errors) => res matches Err(report) && report@ == stage_reports(
            evaluation_stages(errors),
            script,
        ).drop_last(),
    }
}

/// What running the scanned `tokens` of `script` gives: where the grammar
/// refuses them, the report of its error and nothing printed; else, for
/// statements that the grammar gives, an evaluation that explains what was
/// printed and what came back.
pub open spec fn runs_as<'a, N>(
    tokens: Seq<Token<'a>>,
    script: Seq<char>,
    out: Seq<char>,
    res: Result<Option<String>, String>,
    printed: Seq<char>,
) -> bool {
    match sp_program(tokens) {
        Err(e) => printed == out && exists|pe: ParserError|
            #![trigger parser_stage(pe)]
            pe@ == e && (res matches Err(report) && report@ == stage_message(parser_stage(pe), script)),
        Ok(model) => exists|
            statements: Seq<Statement<'a>>,
            answers: Seq<Answer<N>>,
            result: Result<Option<SValue<'a, N>>, Seq<SError<'a, N>>>,
            shown: Seq<Answer<N>>,
        |
            #![trigger program_explains(statements, out, answers, result, printed), outcome_matches(result, res, script, shown)]
            stmts_model(statements) == model && program_explains(statements, out, answers, result, printed)
                && outcome_matches(result, res, script, shown),
    }
}

/// Writes the value of the last statement: a number as the host writes it,
/// anything else as `result_text` says.
fn show_result<'a, H: Host>(v: Value<'a, H::Num>, host: &mut H) -> (res: (String, Ghost<Seq<Answer<H::Num>>>))
    requires
        !(v@ is Nil),
    ensures
        sem_shown(v@, res.1@) == (res.0@, Seq::<Answer<H::Num>>::empty()),
{
    match v {
        Value::Number(n) => {
            let (text, g) = ask_text(host, n);
            proof {
                assert(g@.drop_first() =~= Seq::<Answer<H::Num>>::empty());
            }
            (text, g)
        },
        Value::String(text) => {
            let mut quoted = String::from_str("\"");
            quoted.append(text.as_str());
            quoted.append("\"");
            (quoted, Ghost(Seq::empty()))
        },
        value => (value.display(host), Ghost(Seq::empty())),
    }
}

/// Runs `script`: scans it, parses it and evaluates it, writing what it
/// prints to `writer`. The result is the value of the last statement, when
/// that is an expression whose value is not `nil`, as `result_text` shows
/// it (a string in double quotes), or the report of what went wrong.
pub fn run<'a, H: Host>(script: &'a str, writer: &mut String, host: &mut H) -> (res: Result<
    Option<String>,
    String,
>)
    requires
        script@.len() < usize::MAX,
        byte_len(script@) <= usize::MAX,
    ensures
        ({
            let (toks, errs, end) = scan_spec(script@, 1);
            &&& errs.len() > 0 ==> (res matches Err(report) && report@ == scan_errors_text(errs, script@)
                && final(writer)@ == old(writer)@)
            &&& errs.len() == 0 ==> exists|tokens: Seq<Token<'a>>|
                #![trigger runs_as::<H::Num>(tokens, script@, old(writer)@, res, final(writer)@)]
                tokens.map_values(|t: Token<'a>| t@) == toks.push(
                    SpecToken { token_type: TokenType::EOF, token_value: None, line: end },
                ) && runs_as::<H::Num>(tokens, script@, old(writer)@, res, final(writer)@)
        }),
{
    let mut scanner = Scanner::new(script);
    proof {
        assert(scanner.cursor().rest() =~= script@);
    }
    let tokens = match scanner.scan_tokens() {
        Ok(tokens) => tokens,
        Err(errors) => {
            return Err(errors.to_string());
        },
    };
    proof {
        lemma_scanned_tokens_wf(script@, 1);
        let views = tokens@.map_values(|t: Token<'a>| t@);
        let toks = scan_spec(script@, 1).0;
        assert(scan_spec(script@, 1).1.len() == 0);
        assert(views.len() == toks.len() + 1);
        assert forall|i: int| 0 <= i < tokens@.len() implies crate::parser::token_wf(#[trigger] tokens@[i]) by {
            lemma_token_wf_view(tokens@[i]);
            assert(views[i] == tokens@[i]@);
            if i < toks.len() {
                assert(views[i] == toks[i]);
            } else {
                assert(views[i].token_type == crate::token_type::TokenType::EOF);
            }
        }
    }
    let ghost ts = tokens@;
    let ghost before = writer@;
    let parsed = parse(tokens);
    let statements = match parsed {
        Ok(statements) => statements,
        Err(error) => {
            let report = error.to_stage_error().generate_error_message(script);
            proof {
                assert(runs_as::<H::Num>(ts, script@, before, Err(report), writer@));
            }
            return Err(report);
        },
    };
    let evaluated = evaluate(&statements, writer, host);
    let ghost result = crate::evaluator::block_result(evaluated);
    let ghost answers = choose|answers: Seq<Answer<H::Num>>|
        program_explains(statements@, before, answers, result, writer@);
    let (res, shown) = match evaluated {
        Ok(Some(Value::Nil)) => (Ok(None), Ghost(Seq::empty())),
        Ok(Some(value)) => {
            let (text, g) = show_result(value, host);
            (Ok(Some(text)), g)
        },
        Ok(None) => (Ok(None), Ghost(Seq::empty())),
        Err(errors) => {
            let mut reports: Vec<StageError> = Vec::new();
            for i in 0..errors.len()
                invariant
                    stages_view(reports@) == evaluation_stages(errors_view(errors@.take(i as int))),
            {
                let report = errors[i].to_stage_error();
                proof {
                    let prefix = errors@.take(i as int);
                    assert(errors@.take(i + 1).drop_last() =~= prefix);
                    assert(reports@.push(report).drop_last() =~= reports@);
                    let views = errors_view(errors@.take(i + 1));
                    assert(views.drop_last() =~= errors_view(prefix));
                }
                reports.push(report);
            }
            proof {
                assert(errors@.take(errors@.len() as int) =~= errors@);
            }
            (Err(FlattenedError::flatten(reports, script).to_string()), Ghost(Seq::empty()))
        },
    };
    proof {
        assert(outcome_matches(result, res, script@, shown@));
        assert(runs_as::<H::Num>(ts, script@, before, res, writer@));
    }
    res
}

} // verus!
