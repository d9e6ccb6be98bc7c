pub mod environment;
pub mod evaluation_error;
pub mod globals;
pub mod semantics;

use crate::evaluator::environment::{
    defining_scope, lemma_defining_scope, lemma_lookup_wf, slot_of, svalue_wf, Environment, GetError, SEnv,
};
use crate::evaluator::evaluation_error::{
    errors_view, lemma_errors_view, lemma_errors_view_push, EvaluationError, SError,
};
use crate::evaluator::semantics::{
    define_params, numeric_operation_of, sem_args, sem_assignment, sem_binary,
    sem_binary_expr, sem_call_expr, sem_display, sem_equal, sem_expr, sem_function, sem_literal,
    sem_logical_expr, sem_native, sem_numeric, sem_program, sem_stmt, sem_stmts, sem_text,
    sem_unary, sem_unary_expr, sem_while, state, printed_line, Answer, NumberQuery, SState, TruthQuery,
};
use crate::expressions::{
    truthy, Assignment, Binary, BinaryOperator, Call, Expr, ExprKind, Function, FunctionKind, Literal,
    Logical, LogicalOperator, NativeFunction, SValue, Statement, Unary, UnaryOperator, Value,
};
use vstd::prelude::*;

verus! {

/// A request to the host for a number.
pub enum NumberRequest<'r, N> {
    /// The number that a number literal denotes.
    Read(&'r str),
    Negate(N),
    Add(N, N),
    Subtract(N, N),
    Multiply(N, N),
    Divide(N, N),
    /// The current time in milliseconds.
    Clock,
}

/// A request to the host for a truth value.
pub enum TruthRequest<N> {
    /// Whether `lhs op rhs` holds, for a comparison operator `op`.
    Compare(N, BinaryOperator, N),
    /// Whether the two numbers are equal.
    Equal(N, N),
}

/// The model of a number request.
pub open spec fn number_query<'r, N>(r: NumberRequest<'r, N>) -> NumberQuery<N> {
    match r {
        NumberRequest::Read(lexeme) => NumberQuery::Read(lexeme@),
        NumberRequest::Negate(n) => NumberQuery::Negate(n),
        NumberRequest::Add(l, r) => NumberQuery::Add(l, r),
        NumberRequest::Subtract(l, r) => NumberQuery::Subtract(l, r),
        NumberRequest::Multiply(l, r) => NumberQuery::Multiply(l, r),
        NumberRequest::Divide(l, r) => NumberQuery::Divide(l, r),
        NumberRequest::Clock => NumberQuery::Clock,
    }
}

/// The model of a truth request.
pub open spec fn truth_query<N>(r: TruthRequest<N>) -> TruthQuery<N> {
    match r {
        TruthRequest::Compare(l, op, r) => TruthQuery::Compare(l, op, r),
        TruthRequest::Equal(l, r) => TruthQuery::Equal(l, r),
    }
}

/// What the evaluator leaves to its host: the numbers of the language
/// (their type, reading, arithmetic, comparison and text) and the clock.
pub trait Host {
    /// The host's numbers.
    type Num: Copy;

    /// The number that `request` asks for.
    fn number(&mut self, request: NumberRequest<'_, Self::Num>) -> Self::Num;

    /// The truth value that `request` asks for.
    fn truth(&self, request: TruthRequest<Self::Num>) -> bool;

    /// The number as text.
    fn text(&self, n: Self::Num) -> String;
}

/// Asks the host for a number, and records the request with the answer.
fn ask_number<'r, H: Host>(host: &mut H, request: NumberRequest<'r, H::Num>) -> (res: (H::Num, Answers<H::Num>))
    ensures
        res.1@ == one(Answer::Number(number_query(request), res.0)),
{
    let ghost query = number_query(request);
    let n = host.number(request);
    (n, Ghost(one(Answer::Number(query, n))))
}

/// Asks the host for a truth value, and records the request with the
/// answer.
fn ask_truth<H: Host>(host: &mut H, request: TruthRequest<H::Num>) -> (res: (bool, Answers<H::Num>))
    ensures
        res.1@ == one(Answer::Truth(truth_query(request), res.0)),
{
    let ghost query = truth_query(request);
    let b = host.truth(request);
    (b, Ghost(one(Answer::Truth(query, b))))
}

/// Asks the host for the text of `n`, and records the request with the
/// answer.
pub(crate) fn ask_text<H: Host>(host: &mut H, n: H::Num) -> (res: (String, Answers<H::Num>))
    ensures
        res.1@ == one(Answer::Text(n, res.0@)),
{
    let t = host.text(n);
    let ghost text = t@;
    (t, Ghost(one(Answer::Text(n, text))))
}

/// The answers a host gave, in the order it gave them.
pub type Answers<N> = Ghost<Seq<Answer<N>>>;

/// The model of an expression's result.
pub open spec fn value_result<'a, N>(r: Result<Value<'a, N>, EvaluationError<'a, N>>) -> Result<SValue<'a, N>, SError<'a, N>> {
    match r {
        Ok(v) => Ok(v@),
        Err(e) => Err(e@),
    }
}

/// The model of a statement's result.
pub open spec fn stmt_result<'a, N>(r: Result<Option<Value<'a, N>>, EvaluationError<'a, N>>) -> Result<Option<SValue<'a, N>>, SError<'a, N>> {
    match r {
        Ok(Some(v)) => Ok(Some(v@)),
        Ok(None) => Ok(None),
        Err(e) => Err(e@),
    }
}

/// The model of the result of a sequence of statements.
pub open spec fn block_result<'a, N>(r: Result<Option<Value<'a, N>>, Vec<EvaluationError<'a, N>>>) -> Result<Option<SValue<'a, N>>, Seq<SError<'a, N>>> {
    match r {
        Ok(Some(v)) => Ok(Some(v@)),
        Ok(None) => Ok(None),
        Err(e) => Err(errors_view(e@)),
    }
}

/// A returned value refers only to scopes below `n`.
pub open spec fn error_wf<'a, N>(e: SError<'a, N>, n: nat) -> bool {
    e matches SError::Return { value, .. } ==> svalue_wf(value, n)
}

pub open spec fn result_wf<'a, N>(r: Result<SValue<'a, N>, SError<'a, N>>, n: nat) -> bool {
    match r {
        Ok(v) => svalue_wf(v, n),
        Err(e) => error_wf(e, n),
    }
}

pub open spec fn stmt_result_wf<'a, N>(r: Result<Option<SValue<'a, N>>, SError<'a, N>>, n: nat) -> bool {
    match r {
        Ok(Some(v)) => svalue_wf(v, n),
        Ok(None) => true,
        Err(e) => error_wf(e, n),
    }
}

/// What evaluation may do to the environment: keep it well formed, leave
/// the same scopes in force, and only add scopes.
pub open spec fn env_step<'a, N>(before: SEnv<'a, N>, after: SEnv<'a, N>) -> bool {
    &&& after.wf()
    &&& after.stack == before.stack
    &&& before.heap.len() <= after.heap.len()
}

/// `after` starts with `before`: output is only ever appended to.
pub open spec fn extends(before: Seq<char>, after: Seq<char>) -> bool {
    &&& before.len() <= after.len()
    &&& forall|i: int| 0 <= i < before.len() ==> #[trigger] after[i] == before[i]
}

/// The models of a sequence of values.
pub open spec fn values_view<'a, N>(v: Seq<Value<'a, N>>) -> Seq<SValue<'a, N>> {
    v.map_values(|x: Value<'a, N>| x@)
}

/// Running `statements` after `out` was printed, with the host giving
/// `answers` (and then anything), gives the result `result` and leaves
/// `printed` printed.
pub open spec fn program_explains<'a, N>(
    statements: Seq<Statement<'a>>,
    out: Seq<char>,
    answers: Seq<Answer<N>>,
    result: Result<Option<SValue<'a, N>>, Seq<SError<'a, N>>>,
    printed: Seq<char>,
) -> bool {
    forall|rest: Seq<Answer<N>>|
        {
            let run = #[trigger] sem_program(statements, out, u64::MAX as nat, answers + rest);
            &&& run.0 == result
            &&& run.1.out == printed
            &&& run.2 == rest
        }
}

/// Evaluates a program: runs its statements in a fresh environment,
/// writing what `print` shows to `writer`. The result is the value of the
/// last statement if it is an expression, or the errors.
///
/// Evaluation has a budget of `u64::MAX` steps (nested statements, calls
/// and loop rounds); a program that would go past it stops with
/// `StepLimit`. The budget is what lets every loop and recursion of the
/// evaluator be proved to end; no run on a real machine reaches it.
pub fn evaluate<'a, H: Host>(
    statements: &'a Vec<Statement<'a>>,
    writer: &mut String,
    host: &mut H,
) -> (res: Result<Option<Value<'a, H::Num>>, Vec<EvaluationError<'a, H::Num>>>)
    ensures
        extends(old(writer)@, final(writer)@),
        res matches Err(errors) ==> errors@.len() > 0,
        exists|answers: Seq<Answer<H::Num>>|
            program_explains(statements@, old(writer)@, answers, block_result(res), final(writer)@),
{
    let mut env: Environment<'a, H::Num> = Environment::new();
    let (res, answers) = evaluate_statements(statements, &mut env, writer, host, u64::MAX);
    proof {
        assert(program_explains(statements@, old(writer)@, answers@, block_result(res), writer@));
    }
    res
}

/// The one-answer sequence.
pub open spec fn one<N>(a: Answer<N>) -> Seq<Answer<N>> {
    seq![a]
}

proof fn lemma_one<N>(a: Answer<N>, rest: Seq<Answer<N>>)
    ensures
        (one(a) + rest)[0] == a,
        (one(a) + rest).len() > 0,
        (one(a) + rest).drop_first() == rest,
{
    assert((one(a) + rest).drop_first() =~= rest);
}

proof fn lemma_assoc<N>(a: Seq<Answer<N>>, b: Seq<Answer<N>>, rest: Seq<Answer<N>>)
    ensures
        (a + b) + rest == a + (b + rest),
{
    assert((a + b) + rest =~= a + (b + rest));
}

proof fn lemma_empty<N>(rest: Seq<Answer<N>>)
    ensures
        Seq::<Answer<N>>::empty() + rest == rest,
{
    assert(Seq::<Answer<N>>::empty() + rest =~= rest);
}

/// Runs statements in order, from the start; see `sem_stmts` for how
/// errors are collected.
fn evaluate_statements<'a, H: Host>(
    statements: &'a Vec<Statement<'a>>,
    env: &mut Environment<'a, H::Num>,
    out: &mut String,
    host: &mut H,
    fuel: u64,
) -> (res: (Result<Option<Value<'a, H::Num>>, Vec<EvaluationError<'a, H::Num>>>, Answers<H::Num>))
    requires
        old(env)@.wf(),
    ensures
        env_step(old(env)@, final(env)@),
        extends(old(out)@, final(out)@),
        res.0 matches Err(errors) ==> errors@.len() > 0,
        res.0 matches Err(errors) ==> forall|j: int|
            0 <= j < errors@.len() ==> error_wf(#[trigger] errors@[j]@, final(env)@.heap.len()),
        res.0 matches Ok(Some(v)) ==> svalue_wf(v@, final(env)@.heap.len()),
        forall|rest: Seq<Answer<H::Num>>|
            #[trigger] sem_stmts(statements@, 0, seq![], None, state(old(env)@, old(out)@), fuel as nat, res.1@ + rest)
                == (block_result(res.0), state(final(env)@, final(out)@), rest),
    decreases fuel, 2nat, 0nat,
{
    let ghost s0 = state(env@, out@);
    let ghost f = fuel as nat;
    let mut errors: Vec<EvaluationError<'a, H::Num>> = Vec::new();
    let mut last: Option<Value<'a, H::Num>> = None;
    let mut i: usize = 0;
    let ghost mut used: Seq<Answer<H::Num>> = seq![];
    proof {
        assert(errors_view(errors@) =~= seq![]);
        assert forall|rest: Seq<Answer<H::Num>>|
            #[trigger] sem_stmts(statements@, 0, seq![], None, s0, f, used + rest)
                == sem_stmts(statements@, i as int, errors_view(errors@), slot_of(last), state(env@, out@), f, rest) by {
            lemma_empty(rest);
        }
    }
    while i < statements.len()
        invariant
            i <= statements@.len(),
            s0 == state(old(env)@, old(out)@),
            f == fuel as nat,
            env_step(old(env)@, env@),
            extends(old(out)@, out@),
            forall|j: int| 0 <= j < errors@.len() ==> error_wf(#[trigger] errors@[j]@, env@.heap.len()),
            last matches Some(v) ==> svalue_wf(v@, env@.heap.len()),
            forall|rest: Seq<Answer<H::Num>>|
                #[trigger] sem_stmts(statements@, 0, seq![], None, s0, f, used + rest)
                    == sem_stmts(statements@, i as int, errors_view(errors@), slot_of(last), state(env@, out@), f, rest),
        decreases statements@.len() - i,
    {
        let ghost si = state(env@, out@);
        let ghost errors_before = errors@;
        let ghost errs_i = errors_view(errors@);
        let ghost last_i = slot_of(last);
        let ghost st = statements@[i as int];
        let (r, g) = eval(&statements[i], env, out, host, fuel);
        proof {
            lemma_errors_view(errors@);
        }
        match r {
            Ok(value) => {
                last = value;
                proof {
                    assert forall|rest: Seq<Answer<H::Num>>|
                        #[trigger] sem_stmts(statements@, 0, seq![], None, s0, f, (used + g@) + rest)
                            == sem_stmts(statements@, i + 1, errors_view(errors@), slot_of(last), state(env@, out@), f, rest) by {
                        lemma_assoc(used, g@, rest);
                        let _a = sem_stmts(statements@, 0, seq![], None, s0, f, used + (g@ + rest));
                        let _b = sem_stmts(statements@, i as int, errs_i, last_i, si, f, g@ + rest);
                        let _c = sem_stmt(st, si, f, g@ + rest);
                    }
                }
            },
            Err(e) => {
                let stops = match &e {
                    EvaluationError::Break => true,
                    EvaluationError::Return { .. } => true,
                    _ => false,
                };
                let ghost ev = e@;
                proof {
                    assert(stops == (ev is Break || ev is Return));
                }
                if errors.len() == 0 && stops {
                    let ghost all = used + g@;
                    let res = vec![e];
                    proof {
                        assert(errors_view(res@) =~= seq![ev]) by {
                            let empty = Seq::<EvaluationError<'a, H::Num>>::empty();
                            assert(res@ =~= empty.push(res@[0]));
                            lemma_errors_view_push(empty, res@[0]);
                            assert(errors_view(empty) =~= Seq::<SError<'a, H::Num>>::empty());
                        }
                        assert forall|rest: Seq<Answer<H::Num>>|
                            #[trigger] sem_stmts(statements@, 0, seq![], None, s0, f, all + rest)
                                == (block_result(Err(res)), state(env@, out@), rest) by {
                            lemma_assoc(used, g@, rest);
                            let _a = sem_stmts(statements@, 0, seq![], None, s0, f, used + (g@ + rest));
                            let _b = sem_stmts(statements@, i as int, errs_i, last_i, si, f, g@ + rest);
                            let _c = sem_stmt(st, si, f, g@ + rest);
                        }
                        assert forall|j: int| 0 <= j < res@.len() implies error_wf(#[trigger] res@[j]@, env@.heap.len()) by {
                            assert(res@[j] == res@[0]);
                        }
                    }
                    return (Err(res), Ghost(all));
                }
                errors.push(e);
                proof {
                    lemma_errors_view_push(errors_before, errors@.last());
                    assert(errors@ == errors_before.push(errors@.last()));
                    assert forall|rest: Seq<Answer<H::Num>>|
                        #[trigger] sem_stmts(statements@, 0, seq![], None, s0, f, (used + g@) + rest)
                            == sem_stmts(statements@, i + 1, errors_view(errors@), slot_of(last), state(env@, out@), f, rest) by {
                        lemma_assoc(used, g@, rest);
                        let _a = sem_stmts(statements@, 0, seq![], None, s0, f, used + (g@ + rest));
                        let _b = sem_stmts(statements@, i as int, errs_i, last_i, si, f, g@ + rest);
                        let _c = sem_stmt(st, si, f, g@ + rest);
                    }
                }
            },
        }
        proof {
            used = used + g@;
        }
        i = i + 1;
    }
    proof {
        lemma_errors_view(errors@);
    }
    let ghost ev = errors_view(errors@);
    let ghost lv = slot_of(last);
    let res = if errors.len() > 0 {
        Err(errors)
    } else {
        Ok(last)
    };
    proof {
        assert forall|rest: Seq<Answer<H::Num>>|
            #[trigger] sem_stmts(statements@, 0, seq![], None, s0, f, used + rest)
                == (block_result(res), state(env@, out@), rest) by {
            let _b = sem_stmts(statements@, i as int, ev, lv, state(env@, out@), f, rest);
        }
    }
    (res, Ghost(used))
}

/// Executes one statement.
fn eval<'a, H: Host>(
    statement: &'a Statement<'a>,
    env: &mut Environment<'a, H::Num>,
    out: &mut String,
    host: &mut H,
    fuel: u64,
) -> (res: (Result<Option<Value<'a, H::Num>>, EvaluationError<'a, H::Num>>, Answers<H::Num>))
    requires
        old(env)@.wf(),
    ensures
        env_step(old(env)@, final(env)@),
        extends(old(out)@, final(out)@),
        stmt_result_wf(stmt_result(res.0), final(env)@.heap.len()),
        forall|rest: Seq<Answer<H::Num>>|
            #[trigger] sem_stmt(*statement, state(old(env)@, old(out)@), fuel as nat, res.1@ + rest)
                == (stmt_result(res.0), state(final(env)@, final(out)@), rest),
    decreases fuel, 0nat, 0nat,
{
    let ghost s0 = state(env@, out@);
    proof {
        assert forall|rest: Seq<Answer<H::Num>>| #[trigger] (Seq::<Answer<H::Num>>::empty() + rest) == rest by {
            lemma_empty(rest);
        }
    }
    if fuel == 0 {
        return (Err(EvaluationError::StepLimit), Ghost(Seq::empty()));
    }
    let f = fuel - 1;
    let ghost fs = f as nat;
    match statement {
        Statement::Expression(expr) => {
            let (r, g) = visit(expr, env, out, host, f);
            let res = match r {
                Ok(v) => Ok(Some(v)),
                Err(e) => Err(e),
            };
            proof {
                assert forall|rest: Seq<Answer<H::Num>>|
                    #[trigger] sem_stmt(*statement, s0, fuel as nat, g@ + rest)
                        == (stmt_result(res), state(env@, out@), rest) by {
                    let _a = sem_expr(*expr, s0, fs, g@ + rest);
                }
            }
            (res, g)
        },
        Statement::Print(expr) => {
            let (r, g1) = visit(expr, env, out, host, f);
            match r {
                Err(e) => {
                    proof {
                        assert forall|rest: Seq<Answer<H::Num>>|
                            #[trigger] sem_stmt(*statement, s0, fuel as nat, g1@ + rest)
                                == (stmt_result(Err(e)), state(env@, out@), rest) by {
                            let _a = sem_expr(*expr, s0, fs, g1@ + rest);
                        }
                    }
                    (Err(e), g1)
                },
                Ok(v) => {
                    let ghost s1 = state(env@, out@);
                    let (text, g2) = display_value(&v, host);
                    let ghost before = out@;
                    out.append(text.as_str());
                    if !matches!(v, Value::String(_)) {
                        out.append("\n");
                    }
                    proof {
                        reveal_strlit("\n");
                        assert(out@ =~= before + printed_line(v@, text@));
                    }
                    proof {
                        assert forall|rest: Seq<Answer<H::Num>>|
                            #[trigger] sem_stmt(*statement, s0, fuel as nat, (g1@ + g2@) + rest)
                                == (stmt_result::<H::Num>(Ok(None)), state(env@, out@), rest) by {
                            lemma_assoc(g1@, g2@, rest);
                            let _a = sem_expr(*expr, s0, fs, g1@ + (g2@ + rest));
                            let _b = sem_display(v@, g2@ + rest);
                        }
                    }
                    (Ok(None), Ghost(g1@ + g2@))
                },
            }
        },
        Statement::Declaration { name, expression } => match expression {
            Some(expr) => {
                let (r, g) = visit(expr, env, out, host, f);
                match r {
                    Err(e) => {
                        proof {
                            assert forall|rest: Seq<Answer<H::Num>>|
                                #[trigger] sem_stmt(*statement, s0, fuel as nat, g@ + rest)
                                    == (stmt_result(Err(e)), state(env@, out@), rest) by {
                                let _a = sem_expr(*expr, s0, fs, g@ + rest);
                            }
                        }
                        (Err(e), g)
                    },
                    Ok(v) => {
                        env.define(*name, Some(v));
                        proof {
                            assert forall|rest: Seq<Answer<H::Num>>|
                                #[trigger] sem_stmt(*statement, s0, fuel as nat, g@ + rest)
                                    == (stmt_result::<H::Num>(Ok(None)), state(env@, out@), rest) by {
                                let _a = sem_expr(*expr, s0, fs, g@ + rest);
                            }
                        }
                        (Ok(None), g)
                    },
                }
            },
            None => {
                env.define(*name, None);
                (Ok(None), Ghost(Seq::empty()))
            },
        },
        Statement::FunctionDeclaration(declaration) => {
            let v = define_function(declaration, env);
            env.define(declaration.name, Some(v));
            (Ok(None), Ghost(Seq::empty()))
        },
        Statement::Group(statements) => {
            env.narrow();
            let ghost s1 = state(env@, out@);
            let (r, g) = evaluate_statements(statements, env, out, host, f);
            env.pop();
            proof {
                assert(env@.stack =~= old(env)@.stack);
            }
            let ghost br = block_result(r);
            let res = match r {
                Ok(_) => Ok(None),
                Err(errors) => {
                    proof {
                        lemma_errors_view(errors@);
                        if errors@.len() == 1 {
                            assert(error_wf(errors@[0]@, env@.heap.len()));
                        }
                    }
                    Err(EvaluationError::from_errors(errors))
                },
            };
            proof {
                assert forall|rest: Seq<Answer<H::Num>>|
                    #[trigger] sem_stmt(*statement, s0, fuel as nat, g@ + rest)
                        == (stmt_result(res), state(env@, out@), rest) by {
                    let _a = sem_stmts(statements@, 0, seq![], None, s1, fs, g@ + rest);
                }
            }
            (res, g)
        },
        Statement::If { condition, true_branch, false_branch } => {
            let (r, g1) = visit(condition, env, out, host, f);
            let ghost s1 = state(env@, out@);
            match r {
                Err(e) => {
                    proof {
                        assert forall|rest: Seq<Answer<H::Num>>|
                            #[trigger] sem_stmt(*statement, s0, fuel as nat, g1@ + rest)
                                == (stmt_result(Err(e)), state(env@, out@), rest) by {
                            let _a = sem_expr(*condition, s0, fs, g1@ + rest);
                        }
                    }
                    (Err(e), g1)
                },
                Ok(v) => {
                    if as_bool(&v) {
                        let (r2, g2) = eval(&**true_branch, env, out, host, f);
                        let res = match r2 {
                            Ok(_) => Ok(None),
                            Err(e) => Err(e),
                        };
                        proof {
                            assert forall|rest: Seq<Answer<H::Num>>|
                                #[trigger] sem_stmt(*statement, s0, fuel as nat, (g1@ + g2@) + rest)
                                    == (stmt_result(res), state(env@, out@), rest) by {
                                lemma_assoc(g1@, g2@, rest);
                                let _a = sem_expr(*condition, s0, fs, g1@ + (g2@ + rest));
                                let _b = sem_stmt(**true_branch, s1, fs, g2@ + rest);
                            }
                        }
                        (res, Ghost(g1@ + g2@))
                    } else {
                        match false_branch {
                            Some(branch) => {
                                let (r2, g2) = eval(&**branch, env, out, host, f);
                                let res = match r2 {
                                    Ok(_) => Ok(None),
                                    Err(e) => Err(e),
                                };
                                proof {
                                    assert forall|rest: Seq<Answer<H::Num>>|
                                        #[trigger] sem_stmt(*statement, s0, fuel as nat, (g1@ + g2@) + rest)
                                            == (stmt_result(res), state(env@, out@), rest) by {
                                        lemma_assoc(g1@, g2@, rest);
                                        let _a = sem_expr(*condition, s0, fs, g1@ + (g2@ + rest));
                                        let _b = sem_stmt(**branch, s1, fs, g2@ + rest);
                                    }
                                }
                                (res, Ghost(g1@ + g2@))
                            },
                            None => {
                                proof {
                                    assert forall|rest: Seq<Answer<H::Num>>|
                                        #[trigger] sem_stmt(*statement, s0, fuel as nat, g1@ + rest)
                                            == (stmt_result::<H::Num>(Ok(None)), state(env@, out@), rest) by {
                                        let _a = sem_expr(*condition, s0, fs, g1@ + rest);
                                    }
                                }
                                (Ok(None), g1)
                            },
                        }
                    }
                },
            }
        },
        Statement::While { condition, body } => {
            let (r, g) = eval_while(condition, &**body, env, out, host, f);
            proof {
                assert forall|rest: Seq<Answer<H::Num>>|
                    #[trigger] sem_stmt(*statement, s0, fuel as nat, g@ + rest)
                        == (stmt_result(r), state(env@, out@), rest) by {
                    let _a = sem_while(*condition, **body, s0, fs, g@ + rest);
                }
            }
            (r, g)
        },
        Statement::Break => (Err(EvaluationError::Break), Ghost(Seq::empty())),
        Statement::Return { line, value } => match value {
            Some(expr) => {
                let (r, g) = visit(expr, env, out, host, f);
                let res = match r {
                    Err(e) => Err(e),
                    Ok(v) => Err(EvaluationError::Return { line: *line, value: v }),
                };
                proof {
                    assert forall|rest: Seq<Answer<H::Num>>|
                        #[trigger] sem_stmt(*statement, s0, fuel as nat, g@ + rest)
                            == (stmt_result(res), state(env@, out@), rest) by {
                        let _a = sem_expr(*expr, s0, fs, g@ + rest);
                    }
                }
                (res, g)
            },
            None => (Err(EvaluationError::Return { line: *line, value: Value::Nil }), Ghost(Seq::empty())),
        },
    }
}

/// Runs a `while` loop.
fn eval_while<'a, H: Host>(
    condition: &'a Expr<'a>,
    body: &'a Statement<'a>,
    env: &mut Environment<'a, H::Num>,
    out: &mut String,
    host: &mut H,
    fuel: u64,
) -> (res: (Result<Option<Value<'a, H::Num>>, EvaluationError<'a, H::Num>>, Answers<H::Num>))
    requires
        old(env)@.wf(),
    ensures
        env_step(old(env)@, final(env)@),
        extends(old(out)@, final(out)@),
        stmt_result_wf(stmt_result(res.0), final(env)@.heap.len()),
        forall|rest: Seq<Answer<H::Num>>|
            #[trigger] sem_while(*condition, *body, state(old(env)@, old(out)@), fuel as nat, res.1@ + rest)
                == (stmt_result(res.0), state(final(env)@, final(out)@), rest),
    decreases fuel, 1nat, 0nat,
{
    let ghost s0 = state(env@, out@);
    let mut k = fuel;
    let ghost mut used: Seq<Answer<H::Num>> = seq![];
    proof {
        assert forall|rest: Seq<Answer<H::Num>>|
            #[trigger] sem_while(*condition, *body, s0, fuel as nat, used + rest)
                == sem_while(*condition, *body, state(env@, out@), k as nat, rest) by {
            lemma_empty(rest);
        }
    }
    loop
        invariant
            k <= fuel,
            s0 == state(old(env)@, old(out)@),
            env_step(old(env)@, env@),
            extends(old(out)@, out@),
            forall|rest: Seq<Answer<H::Num>>|
                #[trigger] sem_while(*condition, *body, s0, fuel as nat, used + rest)
                    == sem_while(*condition, *body, state(env@, out@), k as nat, rest),
        decreases k,
    {
        let ghost sk = state(env@, out@);
        let ghost kn = k as nat;
        if k == 0 {
            proof {
                assert forall|rest: Seq<Answer<H::Num>>|
                    #[trigger] sem_while(*condition, *body, s0, fuel as nat, used + rest)
                        == (stmt_result::<H::Num>(Err(EvaluationError::StepLimit)), state(env@, out@), rest) by {
                    let _a = sem_while(*condition, *body, sk, kn, rest);
                }
            }
            return (Err(EvaluationError::StepLimit), Ghost(used));
        }
        let (r, g1) = visit(condition, env, out, host, k);
        let v = match r {
            Err(e) => {
                proof {
                    assert forall|rest: Seq<Answer<H::Num>>|
                        #[trigger] sem_while(*condition, *body, s0, fuel as nat, (used + g1@) + rest)
                            == (stmt_result(Err(e)), state(env@, out@), rest) by {
                        lemma_assoc(used, g1@, rest);
                        let _a = sem_while(*condition, *body, s0, fuel as nat, used + (g1@ + rest));
                        let _b = sem_while(*condition, *body, sk, kn, g1@ + rest);
                        let _c = sem_expr(*condition, sk, kn, g1@ + rest);
                    }
                }
                return (Err(e), Ghost(used + g1@));
            },
            Ok(v) => v,
        };
        let ghost s1 = state(env@, out@);
        if !as_bool(&v) {
            proof {
                assert forall|rest: Seq<Answer<H::Num>>|
                    #[trigger] sem_while(*condition, *body, s0, fuel as nat, (used + g1@) + rest)
                        == (stmt_result::<H::Num>(Ok(None)), state(env@, out@), rest) by {
                    lemma_assoc(used, g1@, rest);
                    let _a = sem_while(*condition, *body, s0, fuel as nat, used + (g1@ + rest));
                    let _b = sem_while(*condition, *body, sk, kn, g1@ + rest);
                    let _c = sem_expr(*condition, sk, kn, g1@ + rest);
                }
            }
            return (Ok(None), Ghost(used + g1@));
        }
        let (r2, g2) = eval(body, env, out, host, k);
        let ghost all = used + g1@ + g2@;
        let ghost next = (k - 1) as nat;
        proof {
            assert forall|rest: Seq<Answer<H::Num>>|
                #[trigger] sem_while(*condition, *body, s0, fuel as nat, all + rest)
                    == {
                        let run = sem_stmt(*body, s1, kn, g2@ + rest);
                        match run.0 {
                            Err(SError::Break) => (Ok(None), run.1, run.2),
                            Err(x) => (Err(x), run.1, run.2),
                            Ok(_) => sem_while(*condition, *body, run.1, next, run.2),
                        }
                    } by {
                lemma_assoc(used, g1@, g2@ + rest);
                lemma_assoc(used + g1@, g2@, rest);
                lemma_assoc(used, g1@, g2@);
                lemma_assoc(g1@, g2@, rest);
                let _a = sem_while(*condition, *body, s0, fuel as nat, used + (g1@ + (g2@ + rest)));
                let _b = sem_while(*condition, *body, sk, kn, g1@ + (g2@ + rest));
                let _c = sem_expr(*condition, sk, kn, g1@ + (g2@ + rest));
                let _d = sem_stmt(*body, s1, kn, g2@ + rest);
            }
        }
        match r2 {
            Err(EvaluationError::Break) => {
                return (Ok(None), Ghost(all));
            },
            Err(e) => {
                return (Err(e), Ghost(all));
            },
            Ok(_) => {},
        }
        proof {
            used = all;
        }
        k = k - 1;
    }
}

/// Evaluates one expression.
fn visit<'a, H: Host>(
    expr: &'a Expr<'a>,
    env: &mut Environment<'a, H::Num>,
    out: &mut String,
    host: &mut H,
    fuel: u64,
) -> (res: (Result<Value<'a, H::Num>, EvaluationError<'a, H::Num>>, Answers<H::Num>))
    requires
        old(env)@.wf(),
    ensures
        env_step(old(env)@, final(env)@),
        extends(old(out)@, final(out)@),
        result_wf(value_result(res.0), final(env)@.heap.len()),
        forall|rest: Seq<Answer<H::Num>>|
            #[trigger] sem_expr(*expr, state(old(env)@, old(out)@), fuel as nat, res.1@ + rest)
                == (value_result(res.0), state(final(env)@, final(out)@), rest),
    decreases fuel, 0nat, 0nat,
{
    let ghost s0 = state(env@, out@);
    proof {
        assert forall|rest: Seq<Answer<H::Num>>| #[trigger] (Seq::<Answer<H::Num>>::empty() + rest) == rest by {
            lemma_empty(rest);
        }
    }
    if fuel == 0 {
        return (Err(EvaluationError::StepLimit), Ghost(Seq::empty()));
    }
    let f = fuel - 1;
    let ghost fs = f as nat;
    let res = match &expr.kind {
        ExprKind::Literal(lit) => {
            let (v, g) = literal_value(lit, host);
            proof {
                assert forall|rest: Seq<Answer<H::Num>>| #[trigger] sem_expr(*expr, s0, fuel as nat, g@ + rest)
                    == (value_result::<H::Num>(Ok(v)), state(env@, out@), rest) by {
                    let _a = sem_literal(*lit, g@ + rest);
                }
            }
            (Ok(v), g)
        },
        ExprKind::Identifier(name) => {
            proof {
                lemma_lookup_wf(env@, (*name)@);
            }
            let r = match env.get(*name) {
                Ok(v) => Ok(v),
                Err(GetError::Undefined) => Err(EvaluationError::UndefinedVariable { name: *name, line: expr.line }),
                Err(GetError::Uninitalised) => Err(EvaluationError::UnitialisedVariable { name: *name, line: expr.line }),
            };
            (r, Ghost(Seq::empty()))
        },
        ExprKind::Grouping(inner) => {
            let (r, g) = visit(&**inner, env, out, host, f);
            proof {
                assert forall|rest: Seq<Answer<H::Num>>| #[trigger] sem_expr(*expr, s0, fuel as nat, g@ + rest)
                    == (value_result(r), state(env@, out@), rest) by {
                    let _a = sem_expr(**inner, s0, fs, g@ + rest);
                }
            }
            (r, g)
        },
        ExprKind::Unary(unary) => {
            let (r, g) = visit_unary(unary, expr.line, env, out, host, f);
            proof {
                assert forall|rest: Seq<Answer<H::Num>>| #[trigger] sem_expr(*expr, s0, fuel as nat, g@ + rest)
                    == (value_result(r), state(env@, out@), rest) by {
                    let _a = sem_unary_expr(*unary, expr.line, s0, fs, g@ + rest);
                }
            }
            (r, g)
        },
        ExprKind::Binary(binary) => {
            let (r, g) = visit_binary(binary, expr.line, env, out, host, f);
            proof {
                assert forall|rest: Seq<Answer<H::Num>>| #[trigger] sem_expr(*expr, s0, fuel as nat, g@ + rest)
                    == (value_result(r), state(env@, out@), rest) by {
                    let _a = sem_binary_expr(*binary, expr.line, s0, fs, g@ + rest);
                }
            }
            (r, g)
        },
        ExprKind::Logical(logical) => {
            let (r, g) = visit_logical(logical, env, out, host, f);
            proof {
                assert forall|rest: Seq<Answer<H::Num>>| #[trigger] sem_expr(*expr, s0, fuel as nat, g@ + rest)
                    == (value_result(r), state(env@, out@), rest) by {
                    let _a = sem_logical_expr(*logical, s0, fs, g@ + rest);
                }
            }
            (r, g)
        },
        ExprKind::Assignment(assignment) => {
            let (r, g) = visit_assignment(assignment, expr.line, env, out, host, f);
            proof {
                assert forall|rest: Seq<Answer<H::Num>>| #[trigger] sem_expr(*expr, s0, fuel as nat, g@ + rest)
                    == (value_result(r), state(env@, out@), rest) by {
                    let _a = sem_assignment(*assignment, expr.line, s0, fs, g@ + rest);
                }
            }
            (r, g)
        },
        ExprKind::Call(call) => {
            let (r, g) = visit_call(call, expr.line, env, out, host, f);
            proof {
                assert forall|rest: Seq<Answer<H::Num>>| #[trigger] sem_expr(*expr, s0, fuel as nat, g@ + rest)
                    == (value_result(r), state(env@, out@), rest) by {
                    let _a = sem_call_expr(*call, expr.line, s0, fs, g@ + rest);
                }
            }
            (r, g)
        },
        ExprKind::Lambda(function) => (Ok(define_function(function, env)), Ghost(Seq::empty())),
    };
    res
}

/// The function value of `declaration` closing over scope `closure`.
pub open spec fn function_value<'a, N>(declaration: Function<'a>, closure: usize) -> SValue<'a, N> {
    SValue::Function { declaration, closure }
}

/// A function value for `declaration`, closing over the innermost scope.
fn define_function<'a, N: Copy>(declaration: &'a Function<'a>, env: &Environment<'a, N>) -> (res: Value<'a, N>)
    requires
        env@.wf(),
    ensures
        res@ == function_value::<N>(*declaration, env@.top()),
        svalue_wf(res@, env@.heap.len()),
{
    Value::Function { declaration, closure: env.top() }
}

/// The value a literal denotes.
fn literal_value<'a, H: Host>(lit: &'a Literal<'a>, host: &mut H) -> (res: (Value<'a, H::Num>, Answers<H::Num>))
    ensures
        svalue_wf(res.0@, 0),
        forall|rest: Seq<Answer<H::Num>>| #[trigger] sem_literal(*lit, res.1@ + rest) == (res.0@, rest),
{
    proof {
        assert forall|rest: Seq<Answer<H::Num>>| #[trigger] (Seq::<Answer<H::Num>>::empty() + rest) == rest by {
            lemma_empty(rest);
        }
    }
    match lit {
        Literal::Number(lexeme) => {
            let (n, g) = ask_number(host, NumberRequest::Read(lexeme));
            proof {
                assert forall|rest: Seq<Answer<H::Num>>| #[trigger] (g@ + rest).drop_first() == rest by {
                    lemma_one(Answer::Number(NumberQuery::Read(lexeme@), n), rest);
                }
            }
            (Value::Number(n), g)
        },
        Literal::String(s) => (Value::String(s.clone()), Ghost(Seq::empty())),
        Literal::Boolean(b) => (Value::Boolean(*b), Ghost(Seq::empty())),
        Literal::Nil => (Value::Nil, Ghost(Seq::empty())),
    }
}

fn visit_unary<'a, H: Host>(
    unary: &'a Unary<'a>,
    line: usize,
    env: &mut Environment<'a, H::Num>,
    out: &mut String,
    host: &mut H,
    fuel: u64,
) -> (res: (Result<Value<'a, H::Num>, EvaluationError<'a, H::Num>>, Answers<H::Num>))
    requires
        old(env)@.wf(),
    ensures
        env_step(old(env)@, final(env)@),
        extends(old(out)@, final(out)@),
        result_wf(value_result(res.0), final(env)@.heap.len()),
        forall|rest: Seq<Answer<H::Num>>|
            #[trigger] sem_unary_expr(*unary, line, state(old(env)@, old(out)@), fuel as nat, res.1@ + rest)
                == (value_result(res.0), state(final(env)@, final(out)@), rest),
    decreases fuel, 1nat, 0nat,
{
    let (r, g1) = visit(&*unary.expr, env, out, host, fuel);
    match r {
        Err(e) => {
            proof {
                assert forall|rest: Seq<Answer<H::Num>>|
                    #[trigger] sem_unary_expr(*unary, line, state(old(env)@, old(out)@), fuel as nat, g1@ + rest)
                        == (value_result(Err(e)), state(env@, out@), rest) by {
                    let _a = sem_expr(*unary.expr, state(old(env)@, old(out)@), fuel as nat, g1@ + rest);
                }
            }
            (Err(e), g1)
        },
        Ok(v) => {
            let ghost vv = v@;
            let (r2, g2) = apply_unary(unary.operator, v, line, host);
            proof {
                assert forall|rest: Seq<Answer<H::Num>>|
                    #[trigger] sem_unary_expr(*unary, line, state(old(env)@, old(out)@), fuel as nat, (g1@ + g2@) + rest)
                        == (value_result(r2), state(env@, out@), rest) by {
                    lemma_assoc(g1@, g2@, rest);
                    let _a = sem_expr(*unary.expr, state(old(env)@, old(out)@), fuel as nat, g1@ + (g2@ + rest));
                    let _b = sem_unary(unary.operator, vv, line, g2@ + rest);
                }
            }
            (r2, Ghost(g1@ + g2@))
        },
    }
}

/// `op v` on a value.
fn apply_unary<'a, H: Host>(op: UnaryOperator, v: Value<'a, H::Num>, line: usize, host: &mut H) -> (res: (
    Result<Value<'a, H::Num>, EvaluationError<'a, H::Num>>,
    Answers<H::Num>,
))
    ensures
        result_wf(value_result(res.0), 0),
        forall|rest: Seq<Answer<H::Num>>| #[trigger] sem_unary(op, v@, line, res.1@ + rest) == (value_result(res.0), rest),
{
    proof {
        assert forall|rest: Seq<Answer<H::Num>>| #[trigger] (Seq::<Answer<H::Num>>::empty() + rest) == rest by {
            lemma_empty(rest);
        }
    }
    match op {
        UnaryOperator::MINUS => match v {
            Value::Number(n) => {
                let (m, g) = ask_number(host, NumberRequest::Negate(n));
                proof {
                    assert forall|rest: Seq<Answer<H::Num>>| #[trigger] (g@ + rest).drop_first() == rest by {
                        lemma_one(Answer::Number(NumberQuery::Negate(n), m), rest);
                    }
                }
                (Ok(Value::Number(m)), g)
            },
            _ => (
                Err(EvaluationError::UnsupportedUnaryOperand { operator: op, expr_type: v.type_text(), line }),
                Ghost(Seq::empty()),
            ),
        },
        UnaryOperator::BANG => (Ok(Value::Boolean(!as_bool(&v))), Ghost(Seq::empty())),
    }
}

fn visit_binary<'a, H: Host>(
    binary: &'a Binary<'a>,
    line: usize,
    env: &mut Environment<'a, H::Num>,
    out: &mut String,
    host: &mut H,
    fuel: u64,
) -> (res: (Result<Value<'a, H::Num>, EvaluationError<'a, H::Num>>, Answers<H::Num>))
    requires
        old(env)@.wf(),
    ensures
        env_step(old(env)@, final(env)@),
        extends(old(out)@, final(out)@),
        result_wf(value_result(res.0), final(env)@.heap.len()),
        forall|rest: Seq<Answer<H::Num>>|
            #[trigger] sem_binary_expr(*binary, line, state(old(env)@, old(out)@), fuel as nat, res.1@ + rest)
                == (value_result(res.0), state(final(env)@, final(out)@), rest),
    decreases fuel, 1nat, 0nat,
{
    let ghost s0 = state(env@, out@);
    let (r1, g1) = visit(&*binary.left, env, out, host, fuel);
    let left = match r1 {
        Err(e) => {
            proof {
                assert forall|rest: Seq<Answer<H::Num>>|
                    #[trigger] sem_binary_expr(*binary, line, s0, fuel as nat, g1@ + rest)
                        == (value_result(Err(e)), state(env@, out@), rest) by {
                    let _a = sem_expr(*binary.left, s0, fuel as nat, g1@ + rest);
                }
            }
            return (Err(e), g1);
        },
        Ok(v) => v,
    };
    let ghost env1 = env@;
    let ghost out1 = out@;
    let (r2, g2) = visit(&*binary.right, env, out, host, fuel);
    let right = match r2 {
        Err(e) => {
            proof {
                assert forall|rest: Seq<Answer<H::Num>>|
                    #[trigger] sem_binary_expr(*binary, line, s0, fuel as nat, (g1@ + g2@) + rest)
                        == (value_result(Err(e)), state(env@, out@), rest) by {
                    lemma_assoc(g1@, g2@, rest);
                    let _a = sem_expr(*binary.left, s0, fuel as nat, g1@ + (g2@ + rest));
                    let _b = sem_expr(*binary.right, state(env1, out1), fuel as nat, g2@ + rest);
                }
            }
            return (Err(e), Ghost(g1@ + g2@));
        },
        Ok(v) => v,
    };
    let ghost lv = left@;
    let ghost rv = right@;
    let (r3, g3) = apply_binary(binary.operator, left, right, line, host);
    let ghost all = g1@ + g2@ + g3@;
    proof {
        assert forall|rest: Seq<Answer<H::Num>>|
            #[trigger] sem_binary_expr(*binary, line, s0, fuel as nat, all + rest)
                == (value_result(r3), state(env@, out@), rest) by {
            lemma_assoc(g1@, g2@, g3@ + rest);
            lemma_assoc(g1@ + g2@, g3@, rest);
            lemma_assoc(g1@, g2@, g3@);
            let _a = sem_expr(*binary.left, s0, fuel as nat, g1@ + (g2@ + (g3@ + rest)));
            let _b = sem_expr(*binary.right, state(env1, out1), fuel as nat, g2@ + (g3@ + rest));
            let _c = sem_binary(binary.operator, lv, rv, line, g3@ + rest);
        }
    }
    (r3, Ghost(all))
}

/// `l op r` on values.
fn apply_binary<'a, H: Host>(
    op: BinaryOperator,
    l: Value<'a, H::Num>,
    r: Value<'a, H::Num>,
    line: usize,
    host: &mut H,
) -> (res: (Result<Value<'a, H::Num>, EvaluationError<'a, H::Num>>, Answers<H::Num>))
    ensures
        result_wf(value_result(res.0), 0),
        forall|rest: Seq<Answer<H::Num>>|
            #[trigger] sem_binary(op, l@, r@, line, res.1@ + rest) == (value_result(res.0), rest),
{
    proof {
        assert forall|rest: Seq<Answer<H::Num>>| #[trigger] (Seq::<Answer<H::Num>>::empty() + rest) == rest by {
            lemma_empty(rest);
        }
    }
    if op == BinaryOperator::EQUAL_EQUAL {
        let (b, g) = is_equal(&l, &r, host);
        return (Ok(Value::Boolean(b)), g);
    }
    if op == BinaryOperator::BANG_EQUAL {
        let (b, g) = is_equal(&l, &r, host);
        return (Ok(Value::Boolean(!b)), g);
    }
    if op == BinaryOperator::PLUS {
        if let Value::String(ls) = &l {
            let (t, g) = text_of(&r, host);
            let joined = ls.clone().concat(t.as_str());
            return (Ok(Value::String(joined)), g);
        }
        if let Value::String(rs) = &r {
            let (t, g) = text_of(&l, host);
            let joined = t.concat(rs.as_str());
            return (Ok(Value::String(joined)), g);
        }
    }
    if let Value::Number(a) = l {
        if let Value::Number(b) = r {
            let (o, g) = numeric_binary_operations(a, op, b, host);
            if let Some(v) = o {
                return (Ok(v), g);
            }
        }
    }
    (
        Err(EvaluationError::UnsupportedBinaryOperand {
            lhs_type: l.type_text(),
            operator: op,
            rhs_type: r.type_text(),
            line,
        }),
        Ghost(Seq::empty()),
    )
}

/// The host's arithmetic or comparison of two numbers; `None` for an
/// operator that numbers do not support.
fn numeric_binary_operations<'a, H: Host>(lhs: H::Num, op: BinaryOperator, rhs: H::Num, host: &mut H) -> (res: (
    Option<Value<'a, H::Num>>,
    Answers<H::Num>,
))
    ensures
        res.0 is None <==> numeric_operation_of(op) is None,
        res.0 is None ==> res.1@ == Seq::<Answer<H::Num>>::empty(),
        res.0 matches Some(v) ==> svalue_wf(v@, 0) && forall|rest: Seq<Answer<H::Num>>|
            #[trigger] sem_numeric(op, lhs, rhs, res.1@ + rest) == (v@, rest),
{
    let request = match op {
        BinaryOperator::MINUS => NumberRequest::Subtract(lhs, rhs),
        BinaryOperator::SLASH => NumberRequest::Divide(lhs, rhs),
        BinaryOperator::STAR => NumberRequest::Multiply(lhs, rhs),
        BinaryOperator::PLUS => NumberRequest::Add(lhs, rhs),
        BinaryOperator::GREATER | BinaryOperator::GREATER_EQUAL | BinaryOperator::LESS
        | BinaryOperator::LESS_EQUAL => {
            let (b, g) = ask_truth(host, TruthRequest::Compare(lhs, op, rhs));
            proof {
                assert forall|rest: Seq<Answer<H::Num>>| #[trigger] (g@ + rest).drop_first() == rest by {
                    lemma_one(Answer::<H::Num>::Truth(TruthQuery::Compare(lhs, op, rhs), b), rest);
                }
            }
            return (Some(Value::Boolean(b)), g);
        },
        _ => {
            return (None, Ghost(Seq::empty()));
        },
    };
    let ghost query = number_query(request);
    let (n, g) = ask_number(host, request);
    proof {
        assert forall|rest: Seq<Answer<H::Num>>| #[trigger] (g@ + rest).drop_first() == rest by {
            lemma_one(Answer::Number(query, n), rest);
        }
    }
    (Some(Value::Number(n)), g)
}

/// Whether a value counts as true: everything but `nil` and `false`.
pub fn as_bool<'a, N>(value: &Value<'a, N>) -> (res: bool)
    ensures
        res == truthy(value@),
{
    match value {
        Value::Nil => false,
        Value::Boolean(b) => *b,
        _ => true,
    }
}

/// Whether two values are equal.
fn is_equal<'a, H: Host>(l: &Value<'a, H::Num>, r: &Value<'a, H::Num>, host: &mut H) -> (res: (bool, Answers<H::Num>))
    ensures
        forall|rest: Seq<Answer<H::Num>>| #[trigger] sem_equal(l@, r@, res.1@ + rest) == (res.0, rest),
{
    proof {
        assert forall|rest: Seq<Answer<H::Num>>| #[trigger] (Seq::<Answer<H::Num>>::empty() + rest) == rest by {
            lemma_empty(rest);
        }
    }
    match l {
        Value::String(a) => {
            if let Value::String(b) = r {
                return (*a == *b, Ghost(Seq::empty()));
            }
        },
        Value::Number(a) => {
            if let Value::Number(b) = r {
                let (e, g) = ask_truth(host, TruthRequest::Equal(*a, *b));
                proof {
                    assert forall|rest: Seq<Answer<H::Num>>| #[trigger] (g@ + rest).drop_first() == rest by {
                        lemma_one(Answer::<H::Num>::Truth(TruthQuery::Equal(*a, *b), e), rest);
                    }
                }
                return (e, g);
            }
        },
        Value::Boolean(a) => {
            if let Value::Boolean(b) = r {
                return (*a == *b, Ghost(Seq::empty()));
            }
        },
        Value::Nil => {
            let e = match r {
                Value::Nil => true,
                _ => false,
            };
            return (e, Ghost(Seq::empty()));
        },
        _ => {},
    }
    (false, Ghost(Seq::empty()))
}

/// A value as text, the host writing numbers.
fn text_of<'a, H: Host>(v: &Value<'a, H::Num>, host: &mut H) -> (res: (String, Answers<H::Num>))
    ensures
        forall|rest: Seq<Answer<H::Num>>| #[trigger] sem_text(v@, res.1@ + rest) == (res.0@, rest),
{
    proof {
        assert forall|rest: Seq<Answer<H::Num>>| #[trigger] (Seq::<Answer<H::Num>>::empty() + rest) == rest by {
            lemma_empty(rest);
        }
    }
    match v {
        Value::Number(n) => {
            let (t, g) = ask_text(host, *n);
            proof {
                assert forall|rest: Seq<Answer<H::Num>>| #[trigger] (g@ + rest).drop_first() == rest by {
                    lemma_one(Answer::<H::Num>::Text(*n, t@), rest);
                }
            }
            (t, g)
        },
        _ => (v.cast_to_string(host), Ghost(Seq::empty())),
    }
}

/// A value as `print` shows it, the host writing numbers.
fn display_value<'a, H: Host>(v: &Value<'a, H::Num>, host: &mut H) -> (res: (String, Answers<H::Num>))
    ensures
        forall|rest: Seq<Answer<H::Num>>| #[trigger] sem_display(v@, res.1@ + rest) == (res.0@, rest),
{
    proof {
        assert forall|rest: Seq<Answer<H::Num>>| #[trigger] (Seq::<Answer<H::Num>>::empty() + rest) == rest by {
            lemma_empty(rest);
        }
    }
    match v {
        Value::Number(n) => {
            let (t, g) = ask_text(host, *n);
            proof {
                assert forall|rest: Seq<Answer<H::Num>>| #[trigger] (g@ + rest).drop_first() == rest by {
                    lemma_one(Answer::<H::Num>::Text(*n, t@), rest);
                }
            }
            (t, g)
        },
        _ => (v.display(host), Ghost(Seq::empty())),
    }
}

fn visit_logical<'a, H: Host>(
    logical: &'a Logical<'a>,
    env: &mut Environment<'a, H::Num>,
    out: &mut String,
    host: &mut H,
    fuel: u64,
) -> (res: (Result<Value<'a, H::Num>, EvaluationError<'a, H::Num>>, Answers<H::Num>))
    requires
        old(env)@.wf(),
    ensures
        env_step(old(env)@, final(env)@),
        extends(old(out)@, final(out)@),
        result_wf(value_result(res.0), final(env)@.heap.len()),
        forall|rest: Seq<Answer<H::Num>>|
            #[trigger] sem_logical_expr(*logical, state(old(env)@, old(out)@), fuel as nat, res.1@ + rest)
                == (value_result(res.0), state(final(env)@, final(out)@), rest),
    decreases fuel, 1nat, 0nat,
{
    let ghost s0 = state(env@, out@);
    let (r1, g1) = visit(&*logical.left, env, out, host, fuel);
    let ghost s1 = state(env@, out@);
    let left = match r1 {
        Err(e) => {
            proof {
                assert forall|rest: Seq<Answer<H::Num>>|
                    #[trigger] sem_logical_expr(*logical, s0, fuel as nat, g1@ + rest)
                        == (value_result(Err(e)), state(env@, out@), rest) by {
                    let _a = sem_expr(*logical.left, s0, fuel as nat, g1@ + rest);
                }
            }
            return (Err(e), g1);
        },
        Ok(v) => v,
    };
    let truthy_left = as_bool(&left);
    let go_on = match logical.operator {
        LogicalOperator::OR => !truthy_left,
        LogicalOperator::AND => truthy_left,
    };
    if go_on {
        let (r2, g2) = visit(&*logical.right, env, out, host, fuel);
        proof {
            assert forall|rest: Seq<Answer<H::Num>>|
                #[trigger] sem_logical_expr(*logical, s0, fuel as nat, (g1@ + g2@) + rest)
                    == (value_result(r2), state(env@, out@), rest) by {
                lemma_assoc(g1@, g2@, rest);
                let _a = sem_expr(*logical.left, s0, fuel as nat, g1@ + (g2@ + rest));
                let _b = sem_expr(*logical.right, s1, fuel as nat, g2@ + rest);
            }
        }
        (r2, Ghost(g1@ + g2@))
    } else {
        proof {
            assert forall|rest: Seq<Answer<H::Num>>|
                #[trigger] sem_logical_expr(*logical, s0, fuel as nat, g1@ + rest)
                    == (value_result::<H::Num>(Ok(left)), state(env@, out@), rest) by {
                let _a = sem_expr(*logical.left, s0, fuel as nat, g1@ + rest);
            }
        }
        (Ok(left), g1)
    }
}

fn visit_assignment<'a, H: Host>(
    assignment: &'a Assignment<'a>,
    line: usize,
    env: &mut Environment<'a, H::Num>,
    out: &mut String,
    host: &mut H,
    fuel: u64,
) -> (res: (Result<Value<'a, H::Num>, EvaluationError<'a, H::Num>>, Answers<H::Num>))
    requires
        old(env)@.wf(),
    ensures
        env_step(old(env)@, final(env)@),
        extends(old(out)@, final(out)@),
        result_wf(value_result(res.0), final(env)@.heap.len()),
        forall|rest: Seq<Answer<H::Num>>|
            #[trigger] sem_assignment(*assignment, line, state(old(env)@, old(out)@), fuel as nat, res.1@ + rest)
                == (value_result(res.0), state(final(env)@, final(out)@), rest),
    decreases fuel, 1nat, 0nat,
{
    let ghost s0 = state(env@, out@);
    let (r, g) = visit(&*assignment.expr, env, out, host, fuel);
    let ghost e1 = env@;
    let res = match r {
        Err(e) => Err(e),
        Ok(v) => {
            let ghost vv = v@;
            let u = env.update(assignment.name, v.duplicate());
            proof {
                lemma_defining_scope(e1.heap, e1.stack, assignment.name@);
                if let Some(e2) = e1.assign(assignment.name@, vv) {
                    let h = defining_scope(e1.heap, e1.stack, assignment.name@).unwrap();
                    let k = choose|k: int| 0 <= k < e1.stack.len() && e1.stack[k] == h;
                    assert(e1.stack[k] < e1.heap.len());
                    assert(e2.heap.len() == e1.heap.len());
                    assert(e2.stack == e1.stack);
                }
            }
            match u {
                Ok(()) => Ok(v),
                Err(()) => Err(EvaluationError::UndefinedVariable { name: assignment.name, line }),
            }
        },
    };
    proof {
        assert forall|rest: Seq<Answer<H::Num>>|
            #[trigger] sem_assignment(*assignment, line, s0, fuel as nat, g@ + rest)
                == (value_result(res), state(env@, out@), rest) by {
            let _a = sem_expr(*assignment.expr, s0, fuel as nat, g@ + rest);
        }
    }
    (res, g)
}

fn visit_call<'a, H: Host>(
    call: &'a Call<'a>,
    line: usize,
    env: &mut Environment<'a, H::Num>,
    out: &mut String,
    host: &mut H,
    fuel: u64,
) -> (res: (Result<Value<'a, H::Num>, EvaluationError<'a, H::Num>>, Answers<H::Num>))
    requires
        old(env)@.wf(),
    ensures
        env_step(old(env)@, final(env)@),
        extends(old(out)@, final(out)@),
        result_wf(value_result(res.0), final(env)@.heap.len()),
        forall|rest: Seq<Answer<H::Num>>|
            #[trigger] sem_call_expr(*call, line, state(old(env)@, old(out)@), fuel as nat, res.1@ + rest)
                == (value_result(res.0), state(final(env)@, final(out)@), rest),
    decreases fuel, 3nat, 0nat,
{
    let ghost s0 = state(env@, out@);
    let ghost fs = fuel as nat;
    let (r1, g1) = visit(&*call.callee, env, out, host, fuel);
    let ghost s1 = state(env@, out@);
    let callee = match r1 {
        Err(e) => {
            proof {
                assert forall|rest: Seq<Answer<H::Num>>|
                    #[trigger] sem_call_expr(*call, line, s0, fs, g1@ + rest)
                        == (value_result(Err(e)), state(env@, out@), rest) by {
                    let _a = sem_expr(*call.callee, s0, fs, g1@ + rest);
                }
            }
            return (Err(e), g1);
        },
        Ok(v) => v,
    };
    let ghost cv = callee@;
    match callee {
        Value::Function { declaration, closure } => {
            if call.arguments.len() != declaration.params.len() {
                let res = Err(EvaluationError::IncorrectArgumentCount {
                    line,
                    expected_arguments: declaration.params.len(),
                    recieved_arguments_count: call.arguments.len(),
                });
                proof {
                    assert forall|rest: Seq<Answer<H::Num>>|
                        #[trigger] sem_call_expr(*call, line, s0, fs, g1@ + rest)
                            == (value_result(res), state(env@, out@), rest) by {
                        let _a = sem_expr(*call.callee, s0, fs, g1@ + rest);
                    }
                }
                return (res, g1);
            }
            let (r2, g2) = eval_args(&call.arguments, env, out, host, fuel);
            let ghost s2 = state(env@, out@);
            let args = match r2 {
                Err(e) => {
                    proof {
                        assert forall|rest: Seq<Answer<H::Num>>|
                            #[trigger] sem_call_expr(*call, line, s0, fs, (g1@ + g2@) + rest)
                                == (value_result(Err(e)), state(env@, out@), rest) by {
                            lemma_assoc(g1@, g2@, rest);
                            let _a = sem_expr(*call.callee, s0, fs, g1@ + (g2@ + rest));
                            let _b = sem_args(call.arguments@, 0, seq![], s1, fs, g2@ + rest);
                        }
                    }
                    return (Err(e), Ghost(g1@ + g2@));
                },
                Ok(args) => args,
            };
            let ghost av = values_view(args@);
            let (r3, g3) = call_function(declaration, closure, args, env, out, host, fuel);
            let ghost all = g1@ + g2@ + g3@;
            proof {
                assert forall|rest: Seq<Answer<H::Num>>|
                    #[trigger] sem_call_expr(*call, line, s0, fs, all + rest)
                        == (value_result(r3), state(env@, out@), rest) by {
                    lemma_assoc(g1@, g2@, g3@ + rest);
                    lemma_assoc(g1@ + g2@, g3@, rest);
                    lemma_assoc(g1@, g2@, g3@);
                    let _a = sem_expr(*call.callee, s0, fs, g1@ + (g2@ + (g3@ + rest)));
                    let _b = sem_args(call.arguments@, 0, seq![], s1, fs, g2@ + (g3@ + rest));
                    let _c = sem_function(*declaration, closure, av, s2, fs, g3@ + rest);
                }
            }
            (r3, Ghost(all))
        },
        Value::NativeFunction(f) => {
            if call.arguments.len() != 0 {
                let res = Err(EvaluationError::IncorrectArgumentCount {
                    line,
                    expected_arguments: 0,
                    recieved_arguments_count: call.arguments.len(),
                });
                proof {
                    assert forall|rest: Seq<Answer<H::Num>>|
                        #[trigger] sem_call_expr(*call, line, s0, fs, g1@ + rest)
                            == (value_result(res), state(env@, out@), rest) by {
                        let _a = sem_expr(*call.callee, s0, fs, g1@ + rest);
                    }
                }
                return (res, g1);
            }
            let (r2, g2) = call_native(f, host);
            proof {
                assert forall|rest: Seq<Answer<H::Num>>|
                    #[trigger] sem_call_expr(*call, line, s0, fs, (g1@ + g2@) + rest)
                        == (value_result(r2), state(env@, out@), rest) by {
                    lemma_assoc(g1@, g2@, rest);
                    let _a = sem_expr(*call.callee, s0, fs, g1@ + (g2@ + rest));
                    let _b = sem_native(f, s1, g2@ + rest);
                }
            }
            (r2, Ghost(g1@ + g2@))
        },
        _ => {
            let res = Err(EvaluationError::NonFunctionCalled { line });
            proof {
                assert forall|rest: Seq<Answer<H::Num>>|
                    #[trigger] sem_call_expr(*call, line, s0, fs, g1@ + rest)
                        == (value_result(res), state(env@, out@), rest) by {
                    let _a = sem_expr(*call.callee, s0, fs, g1@ + rest);
                }
            }
            (res, g1)
        },
    }
}

/// Calls a host function.
fn call_native<'a, H: Host>(f: NativeFunction, host: &mut H) -> (res: (
    Result<Value<'a, H::Num>, EvaluationError<'a, H::Num>>,
    Answers<H::Num>,
))
    ensures
        result_wf(value_result(res.0), 0),
        forall|s: SState<'a, H::Num>, rest: Seq<Answer<H::Num>>|
            #[trigger] sem_native(f, s, res.1@ + rest) == (value_result(res.0), s, rest),
{
    match f {
        NativeFunction::Clock => {
            let (n, g) = ask_number(host, NumberRequest::Clock);
            proof {
                assert forall|rest: Seq<Answer<H::Num>>| #[trigger] (g@ + rest).drop_first() == rest by {
                    lemma_one(Answer::Number(NumberQuery::Clock, n), rest);
                }
            }
            (Ok(Value::Number(n)), g)
        },
    }
}

/// The models of the arguments as far as evaluated, or the error.
pub open spec fn args_result<'a, N>(r: Result<Vec<Value<'a, N>>, EvaluationError<'a, N>>) -> Result<Seq<SValue<'a, N>>, SError<'a, N>> {
    match r {
        Ok(v) => Ok(values_view(v@)),
        Err(e) => Err(e@),
    }
}

/// Evaluates the arguments of a call, left to right.
fn eval_args<'a, H: Host>(
    args: &'a Vec<Expr<'a>>,
    env: &mut Environment<'a, H::Num>,
    out: &mut String,
    host: &mut H,
    fuel: u64,
) -> (res: (Result<Vec<Value<'a, H::Num>>, EvaluationError<'a, H::Num>>, Answers<H::Num>))
    requires
        old(env)@.wf(),
    ensures
        env_step(old(env)@, final(env)@),
        extends(old(out)@, final(out)@),
        res.0 matches Ok(vals) ==> vals@.len() == args@.len() && forall|j: int|
            0 <= j < vals@.len() ==> svalue_wf(#[trigger] vals@[j]@, final(env)@.heap.len()),
        res.0 matches Err(e) ==> error_wf(e@, final(env)@.heap.len()),
        forall|rest: Seq<Answer<H::Num>>|
            #[trigger] sem_args(args@, 0, seq![], state(old(env)@, old(out)@), fuel as nat, res.1@ + rest)
                == (args_result(res.0), state(final(env)@, final(out)@), rest),
    decreases fuel, 2nat, 0nat,
{
    let ghost s0 = state(env@, out@);
    let ghost fs = fuel as nat;
    let mut vals: Vec<Value<'a, H::Num>> = Vec::new();
    let mut i: usize = 0;
    let ghost mut used: Seq<Answer<H::Num>> = seq![];
    proof {
        assert(values_view(vals@) =~= seq![]);
        assert forall|rest: Seq<Answer<H::Num>>|
            #[trigger] sem_args(args@, 0, seq![], s0, fs, used + rest)
                == sem_args(args@, i as int, values_view(vals@), state(env@, out@), fs, rest) by {
            lemma_empty(rest);
        }
    }
    while i < args.len()
        invariant
            i <= args@.len(),
            vals@.len() == i,
            s0 == state(old(env)@, old(out)@),
            fs == fuel as nat,
            env_step(old(env)@, env@),
            extends(old(out)@, out@),
            forall|j: int| 0 <= j < vals@.len() ==> svalue_wf(#[trigger] vals@[j]@, env@.heap.len()),
            forall|rest: Seq<Answer<H::Num>>|
                #[trigger] sem_args(args@, 0, seq![], s0, fs, used + rest)
                    == sem_args(args@, i as int, values_view(vals@), state(env@, out@), fs, rest),
        decreases args@.len() - i,
    {
        let ghost si = state(env@, out@);
        let ghost vals_before = vals@;
        let ghost done = values_view(vals@);
        let ghost arg = args@[i as int];
        let (r, g) = visit(&args[i], env, out, host, fuel);
        match r {
            Err(e) => {
                proof {
                    assert forall|rest: Seq<Answer<H::Num>>|
                        #[trigger] sem_args(args@, 0, seq![], s0, fs, (used + g@) + rest)
                            == (args_result(Err(e)), state(env@, out@), rest) by {
                        lemma_assoc(used, g@, rest);
                        let _a = sem_args(args@, 0, seq![], s0, fs, used + (g@ + rest));
                        let _b = sem_args(args@, i as int, done, si, fs, g@ + rest);
                        let _c = sem_expr(arg, si, fs, g@ + rest);
                    }
                }
                return (Err(e), Ghost(used + g@));
            },
            Ok(v) => {
                let ghost vv = v@;
                vals.push(v);
                proof {
                    assert(values_view(vals@) =~= done.push(vv));
                    assert forall|rest: Seq<Answer<H::Num>>|
                        #[trigger] sem_args(args@, 0, seq![], s0, fs, (used + g@) + rest)
                            == sem_args(args@, i + 1, values_view(vals@), state(env@, out@), fs, rest) by {
                        lemma_assoc(used, g@, rest);
                        let _a = sem_args(args@, 0, seq![], s0, fs, used + (g@ + rest));
                        let _b = sem_args(args@, i as int, done, si, fs, g@ + rest);
                        let _c = sem_expr(arg, si, fs, g@ + rest);
                    }
                    used = used + g@;
                }
            },
        }
        i = i + 1;
    }
    proof {
        assert forall|rest: Seq<Answer<H::Num>>|
            #[trigger] sem_args(args@, 0, seq![], s0, fs, used + rest)
                == (args_result::<H::Num>(Ok(vals)), state(env@, out@), rest) by {
            let _b = sem_args(args@, i as int, values_view(vals@), state(env@, out@), fs, rest);
        }
    }
    (Ok(vals), Ghost(used))
}

/// Calls `declaration`, closing over scope `closure`, on `args`.
fn call_function<'a, H: Host>(
    declaration: &'a Function<'a>,
    closure: usize,
    args: Vec<Value<'a, H::Num>>,
    env: &mut Environment<'a, H::Num>,
    out: &mut String,
    host: &mut H,
    fuel: u64,
) -> (res: (Result<Value<'a, H::Num>, EvaluationError<'a, H::Num>>, Answers<H::Num>))
    requires
        old(env)@.wf(),
        closure < old(env)@.heap.len(),
        args@.len() == declaration.params@.len(),
        forall|j: int| 0 <= j < args@.len() ==> svalue_wf(#[trigger] args@[j]@, old(env)@.heap.len()),
    ensures
        env_step(old(env)@, final(env)@),
        extends(old(out)@, final(out)@),
        result_wf(value_result(res.0), final(env)@.heap.len()),
        forall|rest: Seq<Answer<H::Num>>|
            #[trigger] sem_function(*declaration, closure, values_view(args@), state(old(env)@, old(out)@), fuel as nat, res.1@ + rest)
                == (value_result(res.0), state(final(env)@, final(out)@), rest),
    decreases fuel, 1nat, 0nat,
{
    let ghost s0 = state(env@, out@);
    let ghost arg_views = values_view(args@);
    match &declaration.body {
        FunctionKind::Native(f) => {
            let (r, g) = call_native(*f, host);
            proof {
                assert forall|rest: Seq<Answer<H::Num>>|
                    #[trigger] sem_function(*declaration, closure, arg_views, s0, fuel as nat, g@ + rest)
                        == (value_result(r), state(env@, out@), rest) by {
                    let _a = sem_native(*f, s0, g@ + rest);
                }
            }
            (r, g)
        },
        FunctionKind::Lox(body) => {
            env.push(closure);
            env.narrow();
            let ghost start = env@;
            let mut i: usize = 0;
            while i < declaration.params.len()
                invariant
                    i <= declaration.params@.len(),
                    args@.len() == declaration.params@.len(),
                    env@.wf(),
                    env@.stack == start.stack,
                    env@.heap.len() == start.heap.len(),
                    start.heap.len() >= old(env)@.heap.len(),
                    arg_views == values_view(args@),
                    forall|j: int| 0 <= j < args@.len() ==> svalue_wf(#[trigger] args@[j]@, old(env)@.heap.len()),
                    define_params(env@, declaration.params@, arg_views, i as int)
                        == define_params(start, declaration.params@, arg_views, 0),
                decreases declaration.params@.len() - i,
            {
                let ghost before = env@;
                proof {
                    assert(arg_views[i as int] == args@[i as int]@);
                }
                env.define(declaration.params[i], Some(args[i].duplicate()));
                proof {
                    let _a = define_params(before, declaration.params@, arg_views, i as int);
                }
                i = i + 1;
            }
            proof {
                let _a = define_params(env@, declaration.params@, arg_views, i as int);
            }
            let ghost bound = state(env@, out@);
            let (r, g) = eval(&**body, env, out, host, fuel);
            let ghost s1 = state(env@, out@);
            env.pop();
            env.pop();
            proof {
                assert(env@.stack =~= old(env)@.stack);
            }
            let res = match r {
                Ok(_) => Ok(Value::Nil),
                Err(EvaluationError::Return { value, .. }) => Ok(value),
                Err(e) => Err(e),
            };
            proof {
                assert forall|rest: Seq<Answer<H::Num>>|
                    #[trigger] sem_function(*declaration, closure, arg_views, s0, fuel as nat, g@ + rest)
                        == (value_result(res), state(env@, out@), rest) by {
                    let _a = sem_stmt(**body, bound, fuel as nat, g@ + rest);
                }
            }
            (res, g)
        },
    }
}

} // verus!
