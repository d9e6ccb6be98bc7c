use crate::evaluator::environment::{initial_env, SEnv};
use crate::evaluator::evaluation_error::{group_error, SError};
use crate::expressions::{
    display_text, plain_text, truthy, type_text_of, Assignment, Binary, BinaryOperator, Call, Expr,
    ExprKind, Function, FunctionKind, Literal, Logical, LogicalOperator, NativeFunction, SValue,
    Statement, Unary, UnaryOperator,
};
use vstd::prelude::*;

verus! {

/// A request for a number: reading a number literal, the arithmetic of
/// numbers, or the clock.
pub enum NumberQuery<N> {
    Read(Seq<char>),
    Negate(N),
    Add(N, N),
    Subtract(N, N),
    Multiply(N, N),
    Divide(N, N),
    Clock,
}

/// A request for a truth value: comparing or equating two numbers.
pub enum TruthQuery<N> {
    Compare(N, BinaryOperator, N),
    Equal(N, N),
}

/// One request to the host and what the host answered: a number, a truth
/// value, or the text of a number.
pub enum Answer<N> {
    Number(NumberQuery<N>, N),
    Truth(TruthQuery<N>, bool),
    Text(N, Seq<char>),
}

/// The answer to `query`, which must be the next request answered.
pub open spec fn next_number<N>(ans: Seq<Answer<N>>, query: NumberQuery<N>) -> (N, Seq<Answer<N>>) {
    if ans.len() > 0 && ans[0] is Number && ans[0]->Number_0 == query {
        (ans[0]->Number_1, ans.drop_first())
    } else {
        (vstd::pervasive::arbitrary(), ans)
    }
}

/// The answer to `query`, which must be the next request answered.
pub open spec fn next_truth<N>(ans: Seq<Answer<N>>, query: TruthQuery<N>) -> (bool, Seq<Answer<N>>) {
    if ans.len() > 0 && ans[0] is Truth && ans[0]->Truth_0 == query {
        (ans[0]->Truth_1, ans.drop_first())
    } else {
        (vstd::pervasive::arbitrary(), ans)
    }
}

/// The text of `n`, which must be the next request answered.
pub open spec fn next_text<N>(ans: Seq<Answer<N>>, n: N) -> (Seq<char>, Seq<Answer<N>>) {
    if ans.len() > 0 && ans[0] is Text && ans[0]->Text_0 == n {
        (ans[0]->Text_1, ans.drop_first())
    } else {
        (vstd::pervasive::arbitrary(), ans)
    }
}

/// The variables in force and what has been printed.
pub struct SState<'a, N> {
    pub env: SEnv<'a, N>,
    pub out: Seq<char>,
}

pub open spec fn state<'a, N>(env: SEnv<'a, N>, out: Seq<char>) -> SState<'a, N> {
    SState { env, out }
}

/// The result of evaluating an expression, the state after it, and the
/// answers left.
pub type ExprRun<'a, N> = (Result<SValue<'a, N>, SError<'a, N>>, SState<'a, N>, Seq<Answer<N>>);

/// The result of executing a statement, the state after it, and the
/// answers left.
pub type StmtRun<'a, N> = (Result<Option<SValue<'a, N>>, SError<'a, N>>, SState<'a, N>, Seq<Answer<N>>);

/// The kinds of operation that the host performs on two numbers.
#[derive(PartialEq, Eq, Structural, Copy, Clone, Debug)]
pub enum NumericOperation {
    Subtract,
    Divide,
    Multiply,
    Add,
    Compare,
}

/// What the host does with two numbers under `op`; `None` for operators
/// that numbers do not support.
pub open spec fn numeric_operation_of(op: BinaryOperator) -> Option<NumericOperation> {
    match op {
        BinaryOperator::MINUS => Some(NumericOperation::Subtract),
        BinaryOperator::SLASH => Some(NumericOperation::Divide),
        BinaryOperator::STAR => Some(NumericOperation::Multiply),
        BinaryOperator::PLUS => Some(NumericOperation::Add),
        BinaryOperator::GREATER => Some(NumericOperation::Compare),
        BinaryOperator::GREATER_EQUAL => Some(NumericOperation::Compare),
        BinaryOperator::LESS => Some(NumericOperation::Compare),
        BinaryOperator::LESS_EQUAL => Some(NumericOperation::Compare),
        _ => None,
    }
}

/// The host's arithmetic or comparison of the numbers `l` and `r` under
/// `op`.
pub open spec fn sem_numeric<'a, N>(op: BinaryOperator, l: N, r: N, ans: Seq<Answer<N>>) -> (SValue<'a, N>, Seq<Answer<N>>) {
    if numeric_operation_of(op) == Some(NumericOperation::Compare) {
        let (b, a) = next_truth(ans, TruthQuery::Compare(l, op, r));
        (SValue::Boolean(b), a)
    } else {
        let query = match op {
            BinaryOperator::MINUS => NumberQuery::Subtract(l, r),
            BinaryOperator::SLASH => NumberQuery::Divide(l, r),
            BinaryOperator::STAR => NumberQuery::Multiply(l, r),
            _ => NumberQuery::Add(l, r),
        };
        let (n, a) = next_number(ans, query);
        (SValue::Number(n), a)
    }
}

/// A value as text; a number is written by the host.
pub open spec fn sem_text<'a, N>(v: SValue<'a, N>, ans: Seq<Answer<N>>) -> (Seq<char>, Seq<Answer<N>>) {
    match v {
        SValue::Number(n) => next_text(ans, n),
        _ => (plain_text(v), ans),
    }
}

/// What `print` writes for `v` shown as `t`: a string as it is, anything
/// else followed by a newline.
pub open spec fn printed_line<'a, N>(v: SValue<'a, N>, t: Seq<char>) -> Seq<char> {
    if v is String {
        t
    } else {
        t + "\n"@
    }
}

/// A value as `print` shows it; a number is written by the host.
pub open spec fn sem_display<'a, N>(v: SValue<'a, N>, ans: Seq<Answer<N>>) -> (Seq<char>, Seq<Answer<N>>) {
    match v {
        SValue::Number(n) => next_text(ans, n),
        _ => (display_text(v), ans),
    }
}

/// Whether two values are equal: strings, booleans and `nil` by value,
/// numbers as the host compares them, functions never, and values of
/// different types never.
pub open spec fn sem_equal<'a, N>(l: SValue<'a, N>, r: SValue<'a, N>, ans: Seq<Answer<N>>) -> (bool, Seq<Answer<N>>) {
    match (l, r) {
        (SValue::String(a), SValue::String(b)) => (a == b, ans),
        (SValue::Number(a), SValue::Number(b)) => next_truth(ans, TruthQuery::Equal(a, b)),
        (SValue::Boolean(a), SValue::Boolean(b)) => (a == b, ans),
        (SValue::Nil, SValue::Nil) => (true, ans),
        _ => (false, ans),
    }
}

/// The error for operands that `op` does not support.
pub open spec fn unsupported_binary<'a, N>(
    op: BinaryOperator,
    l: SValue<'a, N>,
    r: SValue<'a, N>,
    line: usize,
) -> SError<'a, N> {
    SError::UnsupportedBinaryOperand {
        lhs_type: type_text_of(l),
        operator: op,
        rhs_type: type_text_of(r),
        line,
    }
}

/// `l op r` on values: equality on anything, `+` joining text when either
/// side is a string, and otherwise the host's arithmetic and comparison
/// on two numbers.
pub open spec fn sem_binary<'a, N>(
    op: BinaryOperator,
    l: SValue<'a, N>,
    r: SValue<'a, N>,
    line: usize,
    ans: Seq<Answer<N>>,
) -> (Result<SValue<'a, N>, SError<'a, N>>, Seq<Answer<N>>) {
    if op == BinaryOperator::EQUAL_EQUAL {
        let (b, a) = sem_equal(l, r, ans);
        (Ok(SValue::Boolean(b)), a)
    } else if op == BinaryOperator::BANG_EQUAL {
        let (b, a) = sem_equal(l, r, ans);
        (Ok(SValue::Boolean(!b)), a)
    } else if op == BinaryOperator::PLUS && l is String {
        let (t, a) = sem_text(r, ans);
        (Ok(SValue::String(l->String_0 + t)), a)
    } else if op == BinaryOperator::PLUS && r is String {
        let (t, a) = sem_text(l, ans);
        (Ok(SValue::String(t + r->String_0)), a)
    } else if l is Number && r is Number && numeric_operation_of(op) is Some {
        let (v, a) = sem_numeric(op, l->Number_0, r->Number_0, ans);
        (Ok(v), a)
    } else {
        (Err(unsupported_binary(op, l, r, line)), ans)
    }
}

/// `op v`: `-` negates a number (the host's arithmetic), `!` negates
/// truthiness.
pub open spec fn sem_unary<'a, N>(op: UnaryOperator, v: SValue<'a, N>, line: usize, ans: Seq<Answer<N>>) -> (
    Result<SValue<'a, N>, SError<'a, N>>,
    Seq<Answer<N>>,
) {
    match op {
        UnaryOperator::MINUS => match v {
            SValue::Number(n) => {
                let (m, a) = next_number(ans, NumberQuery::Negate(n));
                (Ok(SValue::Number(m)), a)
            },
            _ => (
                Err(SError::UnsupportedUnaryOperand { operator: op, expr_type: type_text_of(v), line }),
                ans,
            ),
        },
        UnaryOperator::BANG => (Ok(SValue::Boolean(!truthy(v))), ans),
    }
}

/// The value a literal denotes; a number literal is read by the host.
pub open spec fn sem_literal<'a, N>(lit: Literal<'a>, ans: Seq<Answer<N>>) -> (SValue<'a, N>, Seq<Answer<N>>) {
    match lit {
        Literal::Number(lexeme) => {
            let (n, a) = next_number(ans, NumberQuery::Read(lexeme@));
            (SValue::Number(n), a)
        },
        Literal::String(s) => (SValue::String(s@), ans),
        Literal::Boolean(b) => (SValue::Boolean(b), ans),
        Literal::Nil => (SValue::Nil, ans),
    }
}

/// Reading the variable `name`.
pub open spec fn sem_identifier<'a, N>(name: &'a str, line: usize, env: SEnv<'a, N>) -> Result<
    SValue<'a, N>,
    SError<'a, N>,
> {
    match env.lookup(name@) {
        None => Err(SError::UndefinedVariable { name: name@, line }),
        Some(None) => Err(SError::UnitialisedVariable { name: name@, line }),
        Some(Some(v)) => Ok(v),
    }
}

/// A host function applied (to no arguments).
pub open spec fn sem_native<'a, N>(f: NativeFunction, s: SState<'a, N>, ans: Seq<Answer<N>>) -> ExprRun<'a, N> {
    match f {
        NativeFunction::Clock => {
            let (n, a) = next_number(ans, NumberQuery::Clock);
            (Ok(SValue::Number(n)), s, a)
        },
    }
}

/// Binds the parameters from position `i` on to their arguments.
pub open spec fn define_params<'a, N>(
    env: SEnv<'a, N>,
    params: Seq<&'a str>,
    args: Seq<SValue<'a, N>>,
    i: int,
) -> SEnv<'a, N>
    decreases params.len() - i,
{
    if 0 <= i < params.len() {
        define_params(env.define(params[i]@, Some(args[i])), params, args, i + 1)
    } else {
        env
    }
}

/// The result of a function body as the result of the call: `nil` when it
/// ends without `return`, the returned value on `return`.
pub open spec fn call_result<'a, N>(r: Result<Option<SValue<'a, N>>, SError<'a, N>>) -> Result<
    SValue<'a, N>,
    SError<'a, N>,
> {
    match r {
        Ok(_) => Ok(SValue::Nil),
        Err(SError::Return { value, .. }) => Ok(value),
        Err(e) => Err(e),
    }
}

/// Evaluates `e`. Each level of nesting spends one unit of `fuel`; with
/// none left, evaluation stops with `StepLimit`.
pub open spec fn sem_expr<'a, N>(e: Expr<'a>, s: SState<'a, N>, fuel: nat, ans: Seq<Answer<N>>) -> ExprRun<'a, N>
    decreases fuel, 0nat, 0nat,
{
    if fuel == 0 {
        (Err(SError::StepLimit), s, ans)
    } else {
        let f = (fuel - 1) as nat;
        match e.kind {
            ExprKind::Literal(lit) => {
                let (v, a) = sem_literal(lit, ans);
                (Ok(v), s, a)
            },
            ExprKind::Identifier(name) => (sem_identifier(name, e.line, s.env), s, ans),
            ExprKind::Grouping(inner) => sem_expr(*inner, s, f, ans),
            ExprKind::Unary(u) => sem_unary_expr(u, e.line, s, f, ans),
            ExprKind::Binary(b) => sem_binary_expr(b, e.line, s, f, ans),
            ExprKind::Logical(l) => sem_logical_expr(l, s, f, ans),
            ExprKind::Assignment(a) => sem_assignment(a, e.line, s, f, ans),
            ExprKind::Call(c) => sem_call_expr(c, e.line, s, f, ans),
            ExprKind::Lambda(function) => (
                Ok(SValue::Function { declaration: function, closure: s.env.top() }),
                s,
                ans,
            ),
        }
    }
}

pub open spec fn sem_unary_expr<'a, N>(u: Unary<'a>, line: usize, s: SState<'a, N>, fuel: nat, ans: Seq<Answer<N>>) -> ExprRun<'a, N>
    decreases fuel, 1nat, 0nat,
{
    let (r, s1, a1) = sem_expr(*u.expr, s, fuel, ans);
    match r {
        Err(x) => (Err(x), s1, a1),
        Ok(v) => {
            let (r2, a2) = sem_unary(u.operator, v, line, a1);
            (r2, s1, a2)
        },
    }
}

pub open spec fn sem_binary_expr<'a, N>(b: Binary<'a>, line: usize, s: SState<'a, N>, fuel: nat, ans: Seq<Answer<N>>) -> ExprRun<'a, N>
    decreases fuel, 1nat, 0nat,
{
    let (r1, s1, a1) = sem_expr(*b.left, s, fuel, ans);
    match r1 {
        Err(x) => (Err(x), s1, a1),
        Ok(lv) => {
            let (r2, s2, a2) = sem_expr(*b.right, s1, fuel, a1);
            match r2 {
                Err(x) => (Err(x), s2, a2),
                Ok(rv) => {
                    let (r3, a3) = sem_binary(b.operator, lv, rv, line, a2);
                    (r3, s2, a3)
                },
            }
        },
    }
}

pub open spec fn sem_logical_expr<'a, N>(l: Logical<'a>, s: SState<'a, N>, fuel: nat, ans: Seq<Answer<N>>) -> ExprRun<'a, N>
    decreases fuel, 1nat, 0nat,
{
    let (r1, s1, a1) = sem_expr(*l.left, s, fuel, ans);
    match r1 {
        Err(x) => (Err(x), s1, a1),
        Ok(lv) => if (l.operator == LogicalOperator::OR && !truthy(lv)) || (l.operator
            == LogicalOperator::AND && truthy(lv)) {
            sem_expr(*l.right, s1, fuel, a1)
        } else {
            (Ok(lv), s1, a1)
        },
    }
}

pub open spec fn sem_assignment<'a, N>(a: Assignment<'a>, line: usize, s: SState<'a, N>, fuel: nat, ans: Seq<Answer<N>>) -> ExprRun<'a, N>
    decreases fuel, 1nat, 0nat,
{
    let (r1, s1, a1) = sem_expr(*a.expr, s, fuel, ans);
    match r1 {
        Err(x) => (Err(x), s1, a1),
        Ok(v) => match s1.env.assign(a.name@, v) {
            None => (Err(SError::UndefinedVariable { name: a.name@, line }), s1, a1),
            Some(env) => (Ok(v), state(env, s1.out), a1),
        },
    }
}

pub open spec fn sem_call_expr<'a, N>(c: Call<'a>, line: usize, s: SState<'a, N>, fuel: nat, ans: Seq<Answer<N>>) -> ExprRun<'a, N>
    decreases fuel, 3nat, 0nat,
{
    let (r1, s1, a1) = sem_expr(*c.callee, s, fuel, ans);
    match r1 {
        Err(x) => (Err(x), s1, a1),
        Ok(SValue::Function { declaration, closure }) => if c.arguments@.len()
            != declaration.params@.len() {
            (
                Err(
                    SError::IncorrectArgumentCount {
                        line,
                        expected_arguments: declaration.params@.len() as usize,
                        recieved_arguments_count: c.arguments@.len() as usize,
                    },
                ),
                s1,
                a1,
            )
        } else {
            let (r2, s2, a2) = sem_args(c.arguments@, 0, seq![], s1, fuel, a1);
            match r2 {
                Err(x) => (Err(x), s2, a2),
                Ok(args) => sem_function(declaration, closure, args, s2, fuel, a2),
            }
        },
        Ok(SValue::NativeFunction(f)) => if c.arguments@.len() != 0 {
            (
                Err(
                    SError::IncorrectArgumentCount {
                        line,
                        expected_arguments: 0,
                        recieved_arguments_count: c.arguments@.len() as usize,
                    },
                ),
                s1,
                a1,
            )
        } else {
            sem_native(f, s1, a1)
        },
        Ok(_) => (Err(SError::NonFunctionCalled { line }), s1, a1),
    }
}

/// Evaluates the arguments from position `i` on, after `done`, left to
/// right; the first error stops it.
pub open spec fn sem_args<'a, N>(
    args: Seq<Expr<'a>>,
    i: int,
    done: Seq<SValue<'a, N>>,
    s: SState<'a, N>,
    fuel: nat,
    ans: Seq<Answer<N>>,
) -> (Result<Seq<SValue<'a, N>>, SError<'a, N>>, SState<'a, N>, Seq<Answer<N>>)
    decreases fuel, 2nat, args.len() - i,
{
    if 0 <= i < args.len() {
        let (r, s1, a1) = sem_expr(args[i], s, fuel, ans);
        match r {
            Err(x) => (Err(x), s1, a1),
            Ok(v) => sem_args(args, i + 1, done.push(v), s1, fuel, a1),
        }
    } else {
        (Ok(done), s, ans)
    }
}

/// Calls `declaration`, closing over scope `closure`, on `args`: its body
/// runs in a new scope inside the closure, with the parameters bound.
pub open spec fn sem_function<'a, N>(
    declaration: Function<'a>,
    closure: usize,
    args: Seq<SValue<'a, N>>,
    s: SState<'a, N>,
    fuel: nat,
    ans: Seq<Answer<N>>,
) -> ExprRun<'a, N>
    decreases fuel, 1nat, 0nat,
{
    match declaration.body {
        FunctionKind::Native(f) => sem_native(f, s, ans),
        FunctionKind::Lox(body) => {
            let env = define_params(s.env.enter(closure).narrow(), declaration.params@, args, 0);
            let (r, s1, a1) = sem_stmt(*body, state(env, s.out), fuel, ans);
            (call_result(r), state(s1.env.leave().leave(), s1.out), a1)
        },
    }
}

/// Executes `st`. Each level of nesting spends one unit of `fuel`; with
/// none left, execution stops with `StepLimit`.
pub open spec fn sem_stmt<'a, N>(st: Statement<'a>, s: SState<'a, N>, fuel: nat, ans: Seq<Answer<N>>) -> StmtRun<'a, N>
    decreases fuel, 0nat, 0nat,
{
    if fuel == 0 {
        (Err(SError::StepLimit), s, ans)
    } else {
        let f = (fuel - 1) as nat;
        match st {
            Statement::Expression(e) => {
                let (r, s1, a1) = sem_expr(e, s, f, ans);
                (
                    match r {
                        Ok(v) => Ok(Some(v)),
                        Err(x) => Err(x),
                    },
                    s1,
                    a1,
                )
            },
            Statement::Print(e) => {
                let (r, s1, a1) = sem_expr(e, s, f, ans);
                match r {
                    Err(x) => (Err(x), s1, a1),
                    Ok(v) => {
                        let (t, a2) = sem_display(v, a1);
                        (Ok(None), state(s1.env, s1.out + printed_line(v, t)), a2)
                    },
                }
            },
            Statement::Declaration { name, expression } => match expression {
                Some(e) => {
                    let (r, s1, a1) = sem_expr(e, s, f, ans);
                    match r {
                        Err(x) => (Err(x), s1, a1),
                        Ok(v) => (Ok(None), state(s1.env.define(name@, Some(v)), s1.out), a1),
                    }
                },
                None => (Ok(None), state(s.env.define(name@, None), s.out), ans),
            },
            Statement::FunctionDeclaration(declaration) => (
                Ok(None),
                state(
                    s.env.define(
                        declaration.name@,
                        Some(SValue::Function { declaration, closure: s.env.top() }),
                    ),
                    s.out,
                ),
                ans,
            ),
            Statement::Group(statements) => {
                let (r, s1, a1) = sem_stmts(statements@, 0, seq![], None, state(s.env.narrow(), s.out), f, ans);
                (
                    match r {
                        Ok(_) => Ok(None),
                        Err(errors) => Err(group_error(errors)),
                    },
                    state(s1.env.leave(), s1.out),
                    a1,
                )
            },
            Statement::If { condition, true_branch, false_branch } => {
                let (r, s1, a1) = sem_expr(condition, s, f, ans);
                match r {
                    Err(x) => (Err(x), s1, a1),
                    Ok(v) => if truthy(v) {
                        let (r2, s2, a2) = sem_stmt(*true_branch, s1, f, a1);
                        (
                            match r2 {
                                Ok(_) => Ok(None),
                                Err(x) => Err(x),
                            },
                            s2,
                            a2,
                        )
                    } else {
                        match false_branch {
                            Some(b) => {
                                let (r2, s2, a2) = sem_stmt(*b, s1, f, a1);
                                (
                                    match r2 {
                                        Ok(_) => Ok(None),
                                        Err(x) => Err(x),
                                    },
                                    s2,
                                    a2,
                                )
                            },
                            None => (Ok(None), s1, a1),
                        }
                    },
                }
            },
            Statement::While { condition, body } => sem_while(condition, *body, s, f, ans),
            Statement::Break => (Err(SError::Break), s, ans),
            Statement::Return { line, value } => match value {
                Some(e) => {
                    let (r, s1, a1) = sem_expr(e, s, f, ans);
                    match r {
                        Err(x) => (Err(x), s1, a1),
                        Ok(v) => (Err(SError::Return { line, value: v }), s1, a1),
                    }
                },
                None => (Err(SError::Return { line, value: SValue::Nil }), s, ans),
            },
        }
    }
}

/// Runs a `while` loop. Each round spends one unit of `fuel`; with none
/// left, it stops with `StepLimit`. A `break` ends the loop normally.
pub open spec fn sem_while<'a, N>(
    condition: Expr<'a>,
    body: Statement<'a>,
    s: SState<'a, N>,
    fuel: nat,
    ans: Seq<Answer<N>>,
) -> StmtRun<'a, N>
    decreases fuel, 1nat, 0nat,
{
    if fuel == 0 {
        (Err(SError::StepLimit), s, ans)
    } else {
        let (r, s1, a1) = sem_expr(condition, s, fuel, ans);
        match r {
            Err(x) => (Err(x), s1, a1),
            Ok(v) => if !truthy(v) {
                (Ok(None), s1, a1)
            } else {
                let (r2, s2, a2) = sem_stmt(body, s1, fuel, a1);
                match r2 {
                    Err(SError::Break) => (Ok(None), s2, a2),
                    Err(x) => (Err(x), s2, a2),
                    Ok(_) => sem_while(condition, body, s2, (fuel - 1) as nat, a2),
                }
            },
        }
    }
}

/// Executes the statements from position `i` on. The value is that of the
/// last statement (`None` unless it is an expression). An error is kept
/// and execution goes on with the next statement, except that a `break`
/// or `return` before any error ends it at once.
pub open spec fn sem_stmts<'a, N>(
    statements: Seq<Statement<'a>>,
    i: int,
    errors: Seq<SError<'a, N>>,
    last: Option<SValue<'a, N>>,
    s: SState<'a, N>,
    fuel: nat,
    ans: Seq<Answer<N>>,
) -> (Result<Option<SValue<'a, N>>, Seq<SError<'a, N>>>, SState<'a, N>, Seq<Answer<N>>)
    decreases fuel, 2nat, statements.len() - i,
{
    if 0 <= i < statements.len() {
        let (r, s1, a1) = sem_stmt(statements[i], s, fuel, ans);
        match r {
            Ok(v) => sem_stmts(statements, i + 1, errors, v, s1, fuel, a1),
            Err(x) => if errors.len() == 0 && (x is Break || x is Return) {
                (Err(seq![x]), s1, a1)
            } else {
                sem_stmts(statements, i + 1, errors.push(x), last, s1, fuel, a1)
            },
        }
    } else if errors.len() > 0 {
        (Err(errors), s, ans)
    } else {
        (Ok(last), s, ans)
    }
}

/// Runs a program from the initial environment, after `out` was printed.
pub open spec fn sem_program<'a, N>(
    statements: Seq<Statement<'a>>,
    out: Seq<char>,
    fuel: nat,
    ans: Seq<Answer<N>>,
) -> (Result<Option<SValue<'a, N>>, Seq<SError<'a, N>>>, SState<'a, N>, Seq<Answer<N>>) {
    sem_stmts(statements, 0, seq![], None, state(initial_env(), out), fuel, ans)
}


/// Arithmetic on two numbers asks the host about the numbers in the order
/// they are written, the left operand first: `l - r` is the host's answer
/// for `l` minus `r`, `l / r` its answer for `l` divided by `r`, `l + r`
/// and `l * r` likewise, and each comparison `l op r` its answer about `l`
/// compared with `r`. The answer used is exactly the one given.
pub proof fn lemma_numeric_operand_order<'a, N>(l: N, r: N, v: N, b: bool, line: usize, rest: Seq<Answer<N>>)
    ensures
        sem_binary(BinaryOperator::MINUS, SValue::Number(l), SValue::Number(r), line,
            seq![Answer::Number(NumberQuery::Subtract(l, r), v)] + rest) == (Ok::<SValue<'a, N>, SError<'a, N>>(SValue::Number(v)), rest),
        sem_binary(BinaryOperator::SLASH, SValue::Number(l), SValue::Number(r), line,
            seq![Answer::Number(NumberQuery::Divide(l, r), v)] + rest) == (Ok::<SValue<'a, N>, SError<'a, N>>(SValue::Number(v)), rest),
        sem_binary(BinaryOperator::PLUS, SValue::Number(l), SValue::Number(r), line,
            seq![Answer::Number(NumberQuery::Add(l, r), v)] + rest) == (Ok::<SValue<'a, N>, SError<'a, N>>(SValue::Number(v)), rest),
        sem_binary(BinaryOperator::STAR, SValue::Number(l), SValue::Number(r), line,
            seq![Answer::Number(NumberQuery::Multiply(l, r), v)] + rest) == (Ok::<SValue<'a, N>, SError<'a, N>>(SValue::Number(v)), rest),
        sem_binary(BinaryOperator::LESS, SValue::Number(l), SValue::Number(r), line,
            seq![Answer::Truth(TruthQuery::Compare(l, BinaryOperator::LESS, r), b)] + rest) == (Ok::<SValue<'a, N>, SError<'a, N>>(SValue::Boolean(b)), rest),
        sem_binary(BinaryOperator::LESS_EQUAL, SValue::Number(l), SValue::Number(r), line,
            seq![Answer::Truth(TruthQuery::Compare(l, BinaryOperator::LESS_EQUAL, r), b)] + rest) == (Ok::<SValue<'a, N>, SError<'a, N>>(SValue::Boolean(b)), rest),
        sem_binary(BinaryOperator::GREATER, SValue::Number(l), SValue::Number(r), line,
            seq![Answer::Truth(TruthQuery::Compare(l, BinaryOperator::GREATER, r), b)] + rest) == (Ok::<SValue<'a, N>, SError<'a, N>>(SValue::Boolean(b)), rest),
        sem_binary(BinaryOperator::GREATER_EQUAL, SValue::Number(l), SValue::Number(r), line,
            seq![Answer::Truth(TruthQuery::Compare(l, BinaryOperator::GREATER_EQUAL, r), b)] + rest) == (Ok::<SValue<'a, N>, SError<'a, N>>(SValue::Boolean(b)), rest),
        sem_binary(BinaryOperator::EQUAL_EQUAL, SValue::Number(l), SValue::Number(r), line,
            seq![Answer::Truth(TruthQuery::Equal(l, r), b)] + rest) == (Ok::<SValue<'a, N>, SError<'a, N>>(SValue::Boolean(b)), rest),
{
    let n = seq![Answer::Number(NumberQuery::Subtract(l, r), v)];
    assert((n + rest).drop_first() =~= rest);
    let n = seq![Answer::Number(NumberQuery::Divide(l, r), v)];
    assert((n + rest).drop_first() =~= rest);
    let n = seq![Answer::Number(NumberQuery::Add(l, r), v)];
    assert((n + rest).drop_first() =~= rest);
    let n = seq![Answer::Number(NumberQuery::Multiply(l, r), v)];
    assert((n + rest).drop_first() =~= rest);
    let t = seq![Answer::<N>::Truth(TruthQuery::Compare(l, BinaryOperator::LESS, r), b)];
    assert((t + rest).drop_first() =~= rest);
    let t = seq![Answer::<N>::Truth(TruthQuery::Compare(l, BinaryOperator::LESS_EQUAL, r), b)];
    assert((t + rest).drop_first() =~= rest);
    let t = seq![Answer::<N>::Truth(TruthQuery::Compare(l, BinaryOperator::GREATER, r), b)];
    assert((t + rest).drop_first() =~= rest);
    let t = seq![Answer::<N>::Truth(TruthQuery::Compare(l, BinaryOperator::GREATER_EQUAL, r), b)];
    assert((t + rest).drop_first() =~= rest);
    let t = seq![Answer::<N>::Truth(TruthQuery::Equal(l, r), b)];
    assert((t + rest).drop_first() =~= rest);
}

} // verus!
