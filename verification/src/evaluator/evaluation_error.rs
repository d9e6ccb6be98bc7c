use crate::error_utils::{stages_view, SStageError, StageError};
use crate::expressions::{BinaryOperator, SValue, UnaryOperator, Value};
use crate::text::{decimal, decimal_chars, push_all, push_str, string_from_chars};
use crate::token_type::{token_type_text, OperatorSubset};
use vstd::prelude::*;

verus! {

/// Why evaluation stopped.
#[allow(inconsistent_fields)]
#[derive(Debug)]
pub enum EvaluationError<'a, N> {
    UnsupportedBinaryOperand {
        lhs_type: &'static str,
        operator: BinaryOperator,
        rhs_type: &'static str,
        line: usize,
    },
    UnsupportedUnaryOperand { operator: UnaryOperator, expr_type: &'static str, line: usize },
    UndefinedVariable { name: &'a str, line: usize },
    UnitialisedVariable { name: &'a str, line: usize },
    /// The errors of a block.
    GroupErrors(Vec<Self>),
    NonFunctionCalled { line: usize },
    IncorrectArgumentCount { line: usize, expected_arguments: usize, recieved_arguments_count: usize },
    /// A `break` leaving its loop.
    Break,
    /// A `return` leaving its function, with the value it returns.
    Return { line: usize, value: Value<'a, N> },
    /// Statements nested, or a loop repeated, beyond the evaluator's budget
    /// of `u64::MAX` steps.
    StepLimit,
}

/// The model of an evaluation error: texts as characters, values by their
/// model.
#[allow(inconsistent_fields)]
pub enum SError<'a, N> {
    UnsupportedBinaryOperand {
        lhs_type: Seq<char>,
        operator: BinaryOperator,
        rhs_type: Seq<char>,
        line: usize,
    },
    UnsupportedUnaryOperand { operator: UnaryOperator, expr_type: Seq<char>, line: usize },
    UndefinedVariable { name: Seq<char>, line: usize },
    UnitialisedVariable { name: Seq<char>, line: usize },
    GroupErrors(Seq<SError<'a, N>>),
    NonFunctionCalled { line: usize },
    IncorrectArgumentCount { line: usize, expected_arguments: usize, recieved_arguments_count: usize },
    Break,
    Return { line: usize, value: SValue<'a, N> },
    StepLimit,
}

/// The model of an evaluation error.
pub open spec fn error_view<'a, N>(e: EvaluationError<'a, N>) -> SError<'a, N>
    decreases e,
{
    match e {
        EvaluationError::UnsupportedBinaryOperand { lhs_type, operator, rhs_type, line } =>
            SError::UnsupportedBinaryOperand { lhs_type: lhs_type@, operator, rhs_type: rhs_type@, line },
        EvaluationError::UnsupportedUnaryOperand { operator, expr_type, line } =>
            SError::UnsupportedUnaryOperand { operator, expr_type: expr_type@, line },
        EvaluationError::UndefinedVariable { name, line } => SError::UndefinedVariable { name: name@, line },
        EvaluationError::UnitialisedVariable { name, line } => SError::UnitialisedVariable { name: name@, line },
        EvaluationError::GroupErrors(v) => SError::GroupErrors(errors_view(v@)),
        EvaluationError::NonFunctionCalled { line } => SError::NonFunctionCalled { line },
        EvaluationError::IncorrectArgumentCount { line, expected_arguments, recieved_arguments_count } =>
            SError::IncorrectArgumentCount { line, expected_arguments, recieved_arguments_count },
        EvaluationError::Break => SError::Break,
        EvaluationError::Return { line, value } => SError::Return { line, value: value@ },
        EvaluationError::StepLimit => SError::StepLimit,
    }
}

/// The models of a sequence of evaluation errors.
pub open spec fn errors_view<'a, N>(v: Seq<EvaluationError<'a, N>>) -> Seq<SError<'a, N>>
    decreases v,
{
    if v.len() == 0 {
        Seq::empty()
    } else {
        errors_view(v.drop_last()).push(error_view(v.last()))
    }
}

impl<'a, N> View for EvaluationError<'a, N> {
    type V = SError<'a, N>;

    open spec fn view(&self) -> SError<'a, N> {
        error_view(*self)
    }
}

/// The errors of a block as one error: the error itself when there is
/// only one.
pub open spec fn group_error<'a, N>(errors: Seq<SError<'a, N>>) -> SError<'a, N> {
    if errors.len() == 1 {
        errors[0]
    } else {
        SError::GroupErrors(errors)
    }
}

/// `errors_view` is taken element by element.
pub proof fn lemma_errors_view<'a, N>(v: Seq<EvaluationError<'a, N>>)
    ensures
        errors_view(v).len() == v.len(),
        forall|i: int| 0 <= i < v.len() ==> #[trigger] errors_view(v)[i] == error_view(v[i]),
    decreases v.len(),
{
    if v.len() > 0 {
        lemma_errors_view(v.drop_last());
        assert forall|i: int| 0 <= i < v.len() implies #[trigger] errors_view(v)[i] == error_view(v[i]) by {
            if i < v.len() - 1 {
                assert(v.drop_last()[i] == v[i]);
            }
        }
    }
}

/// Appending an error appends its model.
pub proof fn lemma_errors_view_push<'a, N>(v: Seq<EvaluationError<'a, N>>, e: EvaluationError<'a, N>)
    ensures
        errors_view(v.push(e)) == errors_view(v).push(error_view(e)),
{
    assert(v.push(e).drop_last() =~= v);
}

impl<'a, N> EvaluationError<'a, N> {
    /// The errors of a block as one error: the error itself when there is
    /// only one.
    pub fn from_errors(mut errors: Vec<Self>) -> (res: Self)
        ensures
            res@ == group_error(errors_view(errors@)),
    {
        proof {
            lemma_errors_view(errors@);
        }
        if errors.len() == 1 {
            errors.pop().unwrap()
        } else {
            EvaluationError::GroupErrors(errors)
        }
    }
}


/// The report line that names the line of an evaluation error.
pub open spec fn line_prefix(line: usize) -> Seq<char> {
    "Line "@ + decimal(line as nat)
}

/// An evaluation error as a stage error.
pub open spec fn evaluation_stage<'a, N>(e: SError<'a, N>) -> SStageError
    decreases e,
{
    match e {
        SError::UnsupportedBinaryOperand { lhs_type, operator, rhs_type, line } => SStageError {
            line: Some(line),
            message: line_prefix(line) + "\nEvaluation Error: Unsupported operand type for "@
                + token_type_text(operator.spec_token_type()) + ": '"@ + lhs_type + "' and '"@
                + rhs_type + "'"@,
            error_location: None,
            stage: "evaulation"@,
            children: Seq::empty(),
        },
        SError::UnsupportedUnaryOperand { operator, expr_type, line } => SStageError {
            line: Some(line),
            message: line_prefix(line) + "\n Evaluation Error: Bad operand type for unary "@
                + token_type_text(operator.spec_token_type()) + ": '"@ + expr_type + "'"@,
            error_location: None,
            stage: "evaulation"@,
            children: Seq::empty(),
        },
        SError::UndefinedVariable { name, line } => SStageError {
            line: Some(line),
            message: line_prefix(line) + "\n Evaluation Error: Variable "@ + name
                + " is not defined"@,
            error_location: Some(name),
            stage: "evaulation"@,
            children: Seq::empty(),
        },
        SError::UnitialisedVariable { name, line } => SStageError {
            line: Some(line),
            message: line_prefix(line) + "\n Evaluation Error: Variable "@ + name
                + " is not initalised"@,
            error_location: Some(name),
            stage: "evaulation"@,
            children: Seq::empty(),
        },
        SError::GroupErrors(errors) => SStageError {
            line: None,
            message: "Error while parsing group"@,
            error_location: None,
            stage: "parsing"@,
            children: evaluations_stage(errors),
        },
        SError::NonFunctionCalled { line } => SStageError {
            line: Some(line),
            message: "Can only call functions and classes"@,
            error_location: None,
            stage: "evaluation"@,
            children: Seq::empty(),
        },
        SError::IncorrectArgumentCount { line, expected_arguments, recieved_arguments_count } =>
            SStageError {
            line: Some(line),
            message: "Expected "@ + decimal(expected_arguments as nat) + " arguments, but got "@
                + decimal(recieved_arguments_count as nat) + "."@,
            error_location: None,
            stage: "evaluation"@,
            children: Seq::empty(),
        },
        SError::Break => SStageError {
            line: None,
            message: "Can't break outside of a loop."@,
            error_location: None,
            stage: "evaluation"@,
            children: Seq::empty(),
        },
        SError::Return { line, .. } => SStageError {
            line: Some(line),
            message: "Can't return from top-level code."@,
            error_location: None,
            stage: "evaluation"@,
            children: Seq::empty(),
        },
        SError::StepLimit => SStageError {
            line: None,
            message: "Evaluation exceeded its step limit."@,
            error_location: None,
            stage: "evaluation"@,
            children: Seq::empty(),
        },
    }
}

pub open spec fn evaluations_stage<'a, N>(v: Seq<SError<'a, N>>) -> Seq<SStageError>
    decreases v,
{
    if v.len() == 0 {
        Seq::empty()
    } else {
        evaluations_stage(v.drop_last()).push(evaluation_stage(v.last()))
    }
}

fn line_text(line: usize) -> (res: Vec<char>)
    ensures
        res@ == line_prefix(line),
{
    let mut m: Vec<char> = Vec::new();
    push_str(&mut m, "Line ");
    push_all(&mut m, &decimal_chars(line));
    m
}

impl<'a, N> EvaluationError<'a, N> {
    /// This error as a stage error: see `evaluation_stage`.
    pub fn to_stage_error(&self) -> (res: StageError)
        ensures
            res@ == evaluation_stage(self@),
        decreases self,
    {
        proof {
            assert(stages_view(Seq::<StageError>::empty()) =~= Seq::<SStageError>::empty());
        }
        let r = match self {
            EvaluationError::UnsupportedBinaryOperand { lhs_type, operator, rhs_type, line } => {
                let mut m = line_text(*line);
                push_str(&mut m, "\nEvaluation Error: Unsupported operand type for ");
                push_str(&mut m, operator.token_type().text());
                push_str(&mut m, ": '");
                push_str(&mut m, lhs_type);
                push_str(&mut m, "' and '");
                push_str(&mut m, rhs_type);
                push_str(&mut m, "'");
                StageError {
                    line: Some(*line),
                    message: string_from_chars(&m),
                    error_location: None,
                    stage: "evaulation",
                    children: Vec::new(),
                }
            },
            EvaluationError::UnsupportedUnaryOperand { operator, expr_type, line } => {
                let mut m = line_text(*line);
                push_str(&mut m, "\n Evaluation Error: Bad operand type for unary ");
                push_str(&mut m, operator.token_type().text());
                push_str(&mut m, ": '");
                push_str(&mut m, expr_type);
                push_str(&mut m, "'");
                StageError {
                    line: Some(*line),
                    message: string_from_chars(&m),
                    error_location: None,
                    stage: "evaulation",
                    children: Vec::new(),
                }
            },
            EvaluationError::UndefinedVariable { name, line } => {
                let mut m = line_text(*line);
                push_str(&mut m, "\n Evaluation Error: Variable ");
                push_str(&mut m, name);
                push_str(&mut m, " is not defined");
                StageError {
                    line: Some(*line),
                    message: string_from_chars(&m),
                    error_location: Some(String::from_str(name)),
                    stage: "evaulation",
                    children: Vec::new(),
                }
            },
            EvaluationError::UnitialisedVariable { name, line } => {
                let mut m = line_text(*line);
                push_str(&mut m, "\n Evaluation Error: Variable ");
                push_str(&mut m, name);
                push_str(&mut m, " is not initalised");
                StageError {
                    line: Some(*line),
                    message: string_from_chars(&m),
                    error_location: Some(String::from_str(name)),
                    stage: "evaulation",
                    children: Vec::new(),
                }
            },
            EvaluationError::GroupErrors(errors) => {
                let ghost v = errors_view(errors@);
                proof {
                    lemma_errors_view(errors@);
                }
                let mut children: Vec<StageError> = Vec::new();
                for i in 0..errors.len()
                    invariant
                        (*self matches EvaluationError::GroupErrors(es) && es == *errors),
                        v == errors_view(errors@),
                        v.len() == errors@.len(),
                        forall|j: int| 0 <= j < errors@.len() ==> #[trigger] v[j] == error_view(errors@[j]),
                        stages_view(children@) == evaluations_stage(v.take(i as int)),
                {
                    proof {
                        assert(decreases_to!(*self => errors@[i as int]));
                    }
                    let c = errors[i].to_stage_error();
                    let ghost before = children@;
                    children.push(c);
                    proof {
                        assert(children@.drop_last() =~= before);
                        assert(v.take(i + 1).drop_last() =~= v.take(i as int));
                    }
                }
                proof {
                    assert(v.take(errors.len() as int) =~= v);
                }
                StageError {
                    line: None,
                    message: String::from_str("Error while parsing group"),
                    error_location: None,
                    stage: "parsing",
                    children,
                }
            },
            EvaluationError::NonFunctionCalled { line } => StageError {
                line: Some(*line),
                message: String::from_str("Can only call functions and classes"),
                error_location: None,
                stage: "evaluation",
                children: Vec::new(),
            },
            EvaluationError::IncorrectArgumentCount {
                line,
                expected_arguments,
                recieved_arguments_count,
            } => {
                let mut m: Vec<char> = Vec::new();
                push_str(&mut m, "Expected ");
                push_all(&mut m, &decimal_chars(*expected_arguments));
                push_str(&mut m, " arguments, but got ");
                push_all(&mut m, &decimal_chars(*recieved_arguments_count));
                push_str(&mut m, ".");
                StageError {
                    line: Some(*line),
                    message: string_from_chars(&m),
                    error_location: None,
                    stage: "evaluation",
                    children: Vec::new(),
                }
            },
            EvaluationError::Break => StageError {
                line: None,
                message: String::from_str("Can't break outside of a loop."),
                error_location: None,
                stage: "evaluation",
                children: Vec::new(),
            },
            EvaluationError::Return { line, .. } => StageError {
                line: Some(*line),
                message: String::from_str("Can't return from top-level code."),
                error_location: None,
                stage: "evaluation",
                children: Vec::new(),
            },
            EvaluationError::StepLimit => StageError {
                line: None,
                message: String::from_str("Evaluation exceeded its step limit."),
                error_location: None,
                stage: "evaluation",
                children: Vec::new(),
            },
        };
        proof {
            reveal_strlit("Line ");
        }
        assert(r@.message =~= evaluation_stage(self@).message);
        r
    }
}

} // verus!
