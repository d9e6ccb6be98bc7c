use crate::evaluator::Host;
use crate::token_type::{OperatorSubset, TokenType};
use vstd::prelude::*;

verus! {

/// A statement of a program.
#[derive(Debug)]
pub enum Statement<'a> {
    Declaration { name: &'a str, expression: Option<Expr<'a>> },
    FunctionDeclaration(Function<'a>),
    Expression(Expr<'a>),
    Print(Expr<'a>),
    Group(Vec<Statement<'a>>),
    If {
        condition: Expr<'a>,
        true_branch: Box<Statement<'a>>,
        false_branch: Option<Box<Statement<'a>>>,
    },
    While { condition: Expr<'a>, body: Box<Statement<'a>> },
    Return { line: usize, value: Option<Expr<'a>> },
    Break,
}

/// An expression and the line it starts on.
#[derive(Debug)]
pub struct Expr<'a> {
    pub line: usize,
    pub kind: ExprKind<'a>,
}

#[derive(Debug)]
pub enum ExprKind<'a> {
    Literal(Literal<'a>),
    Identifier(&'a str),
    Unary(Unary<'a>),
    Grouping(Box<Expr<'a>>),
    Binary(Binary<'a>),
    Assignment(Assignment<'a>),
    Logical(Logical<'a>),
    Call(Call<'a>),
    Lambda(Function<'a>),
}

/// A literal written in the source. A number keeps its lexeme.
#[derive(Clone, Debug)]
pub enum Literal<'a> {
    String(String),
    Number(&'a str),
    Boolean(bool),
    Nil,
}

#[derive(Debug)]
pub struct Assignment<'a> {
    pub name: &'a str,
    pub expr: Box<Expr<'a>>,
}

#[derive(Debug)]
pub struct Unary<'a> {
    pub operator: UnaryOperator,
    pub expr: Box<Expr<'a>>,
}

#[derive(Debug)]
pub struct Binary<'a> {
    pub left: Box<Expr<'a>>,
    pub operator: BinaryOperator,
    pub right: Box<Expr<'a>>,
}

#[derive(Debug)]
pub struct Logical<'a> {
    pub left: Box<Expr<'a>>,
    pub operator: LogicalOperator,
    pub right: Box<Expr<'a>>,
}

#[derive(Debug)]
pub struct Call<'a> {
    pub callee: Box<Expr<'a>>,
    pub arguments: Vec<Expr<'a>>,
}

/// A function: its name, its body and its parameters.
#[derive(Debug)]
pub struct Function<'a> {
    pub name: &'a str,
    pub body: FunctionKind<'a>,
    pub params: Vec<&'a str>,
}

/// A function body: statements of the program, or a function the host
/// provides.
#[derive(Debug)]
pub enum FunctionKind<'a> {
    Lox(Box<Statement<'a>>),
    Native(NativeFunction),
}

/// The functions the host provides.
#[derive(PartialEq, Eq, Structural, Copy, Clone, Debug)]
pub enum NativeFunction {
    /// The current time in milliseconds.
    Clock,
}

/// The prefix operators.
#[allow(non_camel_case_types)]
#[derive(PartialEq, Eq, Structural, Copy, Clone, Debug)]
pub enum UnaryOperator {
    MINUS,
    BANG,
}

impl OperatorSubset for UnaryOperator {
    open spec fn spec_variants() -> Seq<TokenType> {
        seq![TokenType::MINUS, TokenType::BANG]
    }

    open spec fn spec_from_token_type(t: TokenType) -> Option<Self> {
        match t {
            TokenType::MINUS => Some(UnaryOperator::MINUS),
            TokenType::BANG => Some(UnaryOperator::BANG),
            _ => None,
        }
    }

    open spec fn spec_token_type(self) -> TokenType {
        match self {
            UnaryOperator::MINUS => TokenType::MINUS,
            UnaryOperator::BANG => TokenType::BANG,
        }
    }

    fn variants() -> (res: Vec<TokenType>) {
        let res = vec![TokenType::MINUS, TokenType::BANG];
        assert(res@ =~= Self::spec_variants());
        res
    }

    fn try_from_token_type(t: TokenType) -> (res: Option<Self>) {
        match t {
            TokenType::MINUS => Some(UnaryOperator::MINUS),
            TokenType::BANG => Some(UnaryOperator::BANG),
            _ => None,
        }
    }

    fn token_type(self) -> (res: TokenType) {
        match self {
            UnaryOperator::MINUS => TokenType::MINUS,
            UnaryOperator::BANG => TokenType::BANG,
        }
    }

    proof fn lemma_subset(t: TokenType) {
        let v = Self::spec_variants();
        match t {
            TokenType::MINUS => {
                assert(v[0] == t);
            }
            TokenType::BANG => {
                assert(v[1] == t);
            }
            _ => {
                assert(!v.contains(t)) by {
                    if v.contains(t) {
                        let i = choose|i: int| 0 <= i < v.len() && v[i] == t;
                        assert(v[i] == t);
                    }
                }
            }
        }
    }
}

/// The infix operators.
#[allow(non_camel_case_types)]
#[derive(PartialEq, Eq, Structural, Copy, Clone, Debug)]
pub enum BinaryOperator {
    MINUS,
    PLUS,
    GREATER,
    GREATER_EQUAL,
    BANG_EQUAL,
    EQUAL_EQUAL,
    SLASH,
    STAR,
    COMMA,
    QUESTION_MARK,
    COLON,
    LESS,
    LESS_EQUAL,
}

impl OperatorSubset for BinaryOperator {
    open spec fn spec_variants() -> Seq<TokenType> {
        seq![TokenType::MINUS, TokenType::PLUS, TokenType::GREATER, TokenType::GREATER_EQUAL, TokenType::BANG_EQUAL, TokenType::EQUAL_EQUAL, TokenType::SLASH, TokenType::STAR, TokenType::COMMA, TokenType::QUESTION_MARK, TokenType::COLON, TokenType::LESS, TokenType::LESS_EQUAL]
    }

    open spec fn spec_from_token_type(t: TokenType) -> Option<Self> {
        match t {
            TokenType::MINUS => Some(BinaryOperator::MINUS),
            TokenType::PLUS => Some(BinaryOperator::PLUS),
            TokenType::GREATER => Some(BinaryOperator::GREATER),
            TokenType::GREATER_EQUAL => Some(BinaryOperator::GREATER_EQUAL),
            TokenType::BANG_EQUAL => Some(BinaryOperator::BANG_EQUAL),
            TokenType::EQUAL_EQUAL => Some(BinaryOperator::EQUAL_EQUAL),
            TokenType::SLASH => Some(BinaryOperator::SLASH),
            TokenType::STAR => Some(BinaryOperator::STAR),
            TokenType::COMMA => Some(BinaryOperator::COMMA),
            TokenType::QUESTION_MARK => Some(BinaryOperator::QUESTION_MARK),
            TokenType::COLON => Some(BinaryOperator::COLON),
            TokenType::LESS => Some(BinaryOperator::LESS),
            TokenType::LESS_EQUAL => Some(BinaryOperator::LESS_EQUAL),
            _ => None,
        }
    }

    open spec fn spec_token_type(self) -> TokenType {
        match self {
            BinaryOperator::MINUS => TokenType::MINUS,
            BinaryOperator::PLUS => TokenType::PLUS,
            BinaryOperator::GREATER => TokenType::GREATER,
            BinaryOperator::GREATER_EQUAL => TokenType::GREATER_EQUAL,
            BinaryOperator::BANG_EQUAL => TokenType::BANG_EQUAL,
            BinaryOperator::EQUAL_EQUAL => TokenType::EQUAL_EQUAL,
            BinaryOperator::SLASH => TokenType::SLASH,
            BinaryOperator::STAR => TokenType::STAR,
            BinaryOperator::COMMA => TokenType::COMMA,
            BinaryOperator::QUESTION_MARK => TokenType::QUESTION_MARK,
            BinaryOperator::COLON => TokenType::COLON,
            BinaryOperator::LESS => TokenType::LESS,
            BinaryOperator::LESS_EQUAL => TokenType::LESS_EQUAL,
        }
    }

    fn variants() -> (res: Vec<TokenType>) {
        let res = vec![TokenType::MINUS, TokenType::PLUS, TokenType::GREATER, TokenType::GREATER_EQUAL, TokenType::BANG_EQUAL, TokenType::EQUAL_EQUAL, TokenType::SLASH, TokenType::STAR, TokenType::COMMA, TokenType::QUESTION_MARK, TokenType::COLON, TokenType::LESS, TokenType::LESS_EQUAL];
        assert(res@ =~= Self::spec_variants());
        res
    }

    fn try_from_token_type(t: TokenType) -> (res: Option<Self>) {
        match t {
            TokenType::MINUS => Some(BinaryOperator::MINUS),
            TokenType::PLUS => Some(BinaryOperator::PLUS),
            TokenType::GREATER => Some(BinaryOperator::GREATER),
            TokenType::GREATER_EQUAL => Some(BinaryOperator::GREATER_EQUAL),
            TokenType::BANG_EQUAL => Some(BinaryOperator::BANG_EQUAL),
            TokenType::EQUAL_EQUAL => Some(BinaryOperator::EQUAL_EQUAL),
            TokenType::SLASH => Some(BinaryOperator::SLASH),
            TokenType::STAR => Some(BinaryOperator::STAR),
            TokenType::COMMA => Some(BinaryOperator::COMMA),
            TokenType::QUESTION_MARK => Some(BinaryOperator::QUESTION_MARK),
            TokenType::COLON => Some(BinaryOperator::COLON),
            TokenType::LESS => Some(BinaryOperator::LESS),
            TokenType::LESS_EQUAL => Some(BinaryOperator::LESS_EQUAL),
            _ => None,
        }
    }

    fn token_type(self) -> (res: TokenType) {
        match self {
            BinaryOperator::MINUS => TokenType::MINUS,
            BinaryOperator::PLUS => TokenType::PLUS,
            BinaryOperator::GREATER => TokenType::GREATER,
            BinaryOperator::GREATER_EQUAL => TokenType::GREATER_EQUAL,
            BinaryOperator::BANG_EQUAL => TokenType::BANG_EQUAL,
            BinaryOperator::EQUAL_EQUAL => TokenType::EQUAL_EQUAL,
            BinaryOperator::SLASH => TokenType::SLASH,
            BinaryOperator::STAR => TokenType::STAR,
            BinaryOperator::COMMA => TokenType::COMMA,
            BinaryOperator::QUESTION_MARK => TokenType::QUESTION_MARK,
            BinaryOperator::COLON => TokenType::COLON,
            BinaryOperator::LESS => TokenType::LESS,
            BinaryOperator::LESS_EQUAL => TokenType::LESS_EQUAL,
        }
    }

    proof fn lemma_subset(t: TokenType) {
        let v = Self::spec_variants();
        match t {
            TokenType::MINUS => {
                assert(v[0] == t);
            }
            TokenType::PLUS => {
                assert(v[1] == t);
            }
            TokenType::GREATER => {
                assert(v[2] == t);
            }
            TokenType::GREATER_EQUAL => {
                assert(v[3] == t);
            }
            TokenType::BANG_EQUAL => {
                assert(v[4] == t);
            }
            TokenType::EQUAL_EQUAL => {
                assert(v[5] == t);
            }
            TokenType::SLASH => {
                assert(v[6] == t);
            }
            TokenType::STAR => {
                assert(v[7] == t);
            }
            TokenType::COMMA => {
                assert(v[8] == t);
            }
            TokenType::QUESTION_MARK => {
                assert(v[9] == t);
            }
            TokenType::COLON => {
                assert(v[10] == t);
            }
            TokenType::LESS => {
                assert(v[11] == t);
            }
            TokenType::LESS_EQUAL => {
                assert(v[12] == t);
            }
            _ => {
                assert(!v.contains(t)) by {
                    if v.contains(t) {
                        let i = choose|i: int| 0 <= i < v.len() && v[i] == t;
                        assert(v[i] == t);
                    }
                }
            }
        }
    }
}

/// The short-circuit operators.
#[allow(non_camel_case_types)]
#[derive(PartialEq, Eq, Structural, Copy, Clone, Debug)]
pub enum LogicalOperator {
    OR,
    AND,
}

impl OperatorSubset for LogicalOperator {
    open spec fn spec_variants() -> Seq<TokenType> {
        seq![TokenType::OR, TokenType::AND]
    }

    open spec fn spec_from_token_type(t: TokenType) -> Option<Self> {
        match t {
            TokenType::OR => Some(LogicalOperator::OR),
            TokenType::AND => Some(LogicalOperator::AND),
            _ => None,
        }
    }

    open spec fn spec_token_type(self) -> TokenType {
        match self {
            LogicalOperator::OR => TokenType::OR,
            LogicalOperator::AND => TokenType::AND,
        }
    }

    fn variants() -> (res: Vec<TokenType>) {
        let res = vec![TokenType::OR, TokenType::AND];
        assert(res@ =~= Self::spec_variants());
        res
    }

    fn try_from_token_type(t: TokenType) -> (res: Option<Self>) {
        match t {
            TokenType::OR => Some(LogicalOperator::OR),
            TokenType::AND => Some(LogicalOperator::AND),
            _ => None,
        }
    }

    fn token_type(self) -> (res: TokenType) {
        match self {
            LogicalOperator::OR => TokenType::OR,
            LogicalOperator::AND => TokenType::AND,
        }
    }

    proof fn lemma_subset(t: TokenType) {
        let v = Self::spec_variants();
        match t {
            TokenType::OR => {
                assert(v[0] == t);
            }
            TokenType::AND => {
                assert(v[1] == t);
            }
            _ => {
                assert(!v.contains(t)) by {
                    if v.contains(t) {
                        let i = choose|i: int| 0 <= i < v.len() && v[i] == t;
                        assert(v[i] == t);
                    }
                }
            }
        }
    }
}

impl<'a> Statement<'a> {
    /// The loop `for (initialiser; condition; increment) body` as a
    /// `while` loop: the increment runs after the body, a missing
    /// condition is `true`, and the initialiser runs first.
    pub fn for_loop(
        initialiser: Option<Self>,
        condition: Option<Expr<'a>>,
        increment: Option<Expr<'a>>,
        body: Box<Self>,
        line: usize,
    ) -> (res: Self)
        ensures
            ({
                let while_loop = |w: Statement<'a>|
                    w matches Statement::While { condition: c, body: b } && (match condition {
                        Some(cond) => c == cond,
                        None => c == (Expr { line, kind: ExprKind::Literal(Literal::Boolean(true)) }),
                    }) && (match increment {
                        Some(inc) => *b matches Statement::Group(g) && g@ == seq![*body, Statement::Expression(inc)],
                        None => b == body,
                    });
                match initialiser {
                    None => while_loop(res),
                    Some(init) => res matches Statement::Group(g) && g@.len() == 2 && g@[0] == init
                        && while_loop(g@[1]),
                }
            }),
            stmt_model(res) == crate::parser::grammar::desugar_for(
                opt_stmt_model(initialiser),
                opt_expr_model(condition),
                opt_expr_model(increment),
                stmt_model(*body),
                line,
            ),
    {
        let ghost body_model = stmt_model(*body);
        let ghost old_body = body;
        let ghost inc_g = increment;
        let ghost condition_g = condition;
        let body = match increment {
            Some(inc) => {
                let v = vec![*body, Statement::Expression(inc)];
                Box::new(Statement::Group(v))
            },
            None => body,
        };
        let flattened_condition = match condition {
            Some(c) => c,
            None => Expr::literal(Literal::Boolean(true), line),
        };
        let ghost body_g = body;
        let ghost cond_g = flattened_condition;
        let while_loop = Statement::While { condition: flattened_condition, body };
        proof {
            if let Some(inc) = inc_g {
                lemma_stmts_model_pair(*old_body, Statement::Expression(inc));
                if let Statement::Group(v) = *body_g {
                    assert(v@ == seq![*old_body, Statement::Expression(inc)]);
                }
                assert(stmt_model(*body_g) == SStatement::Group(
                    seq![body_model, SStatement::Expression(expr_model(inc))],
                ));
            }
            assert(expr_model(cond_g) == match condition_g {
                Some(c) => expr_model(c),
                None => SExpr { line, kind: SExprKind::Literal(SLiteral::Boolean(true)) },
            });
            assert(stmt_model(while_loop) == SStatement::While {
                condition: expr_model(cond_g),
                body: Box::new(stmt_model(*body_g)),
            });
        }
        match initialiser {
            None => while_loop,
            Some(init) => {
                let ghost wm = stmt_model(while_loop);
                let ghost im = stmt_model(init);
                let v = vec![init, while_loop];
                proof {
                    assert(v@ =~= seq![v@[0], v@[1]]);
                    lemma_stmts_model_pair(v@[0], v@[1]);
                }
                Statement::Group(v)
            },
        }
    }
}

impl<'a> Expr<'a> {
    pub fn logical(left: Box<Self>, operator: LogicalOperator, right: Box<Self>, line: usize) -> (res: Self)
        ensures
            res == (Expr { line, kind: ExprKind::Logical(Logical { left, operator, right }) }),
    {
        Expr { line, kind: ExprKind::Logical(Logical { left, operator, right }) }
    }

    pub fn binary(left: Box<Self>, operator: BinaryOperator, right: Box<Self>, line: usize) -> (res: Self)
        ensures
            res == (Expr { line, kind: ExprKind::Binary(Binary { left, operator, right }) }),
    {
        Expr { line, kind: ExprKind::Binary(Binary { left, operator, right }) }
    }

    pub fn unary(operator: UnaryOperator, expr: Box<Self>, line: usize) -> (res: Self)
        ensures
            res == (Expr { line, kind: ExprKind::Unary(Unary { operator, expr }) }),
    {
        Expr { line, kind: ExprKind::Unary(Unary { operator, expr }) }
    }

    pub fn literal(value: Literal<'a>, line: usize) -> (res: Self)
        ensures
            res == (Expr { line, kind: ExprKind::Literal(value) }),
    {
        Expr { line, kind: ExprKind::Literal(value) }
    }

    pub fn identifier(identifier: &'a str, line: usize) -> (res: Self)
        ensures
            res == (Expr { line, kind: ExprKind::Identifier(identifier) }),
    {
        Expr { line, kind: ExprKind::Identifier(identifier) }
    }

    pub fn grouping(grouping: Box<Self>, line: usize) -> (res: Self)
        ensures
            res == (Expr { line, kind: ExprKind::Grouping(grouping) }),
    {
        Expr { line, kind: ExprKind::Grouping(grouping) }
    }

    pub fn assignment(name: &'a str, expr: Box<Self>, line: usize) -> (res: Self)
        ensures
            res == (Expr { line, kind: ExprKind::Assignment(Assignment { name, expr }) }),
    {
        Expr { line, kind: ExprKind::Assignment(Assignment { name, expr }) }
    }

    /// A call; it has the line of its callee.
    pub fn call(callee: Box<Self>, arguments: Vec<Self>) -> (res: Self)
        ensures
            res.line == callee.line,
            res.kind == ExprKind::Call(Call { callee, arguments }),
    {
        let line = callee.line;
        Expr { line, kind: ExprKind::Call(Call { callee, arguments }) }
    }

    pub fn lambda(function: Function<'a>, line: usize) -> (res: Self)
        ensures
            res == (Expr { line, kind: ExprKind::Lambda(function) }),
    {
        Expr { line, kind: ExprKind::Lambda(function) }
    }
}


/// The model of a literal: a string is its characters.
pub enum SLiteral<'a> {
    String(Seq<char>),
    Number(&'a str),
    Boolean(bool),
    Nil,
}

/// The model of an expression: its line and what it is.
pub struct SExpr<'a> {
    pub line: usize,
    pub kind: SExprKind<'a>,
}

pub enum SExprKind<'a> {
    Literal(SLiteral<'a>),
    Identifier(&'a str),
    Unary(UnaryOperator, Box<SExpr<'a>>),
    Grouping(Box<SExpr<'a>>),
    Binary(Box<SExpr<'a>>, BinaryOperator, Box<SExpr<'a>>),
    Assignment(&'a str, Box<SExpr<'a>>),
    Logical(Box<SExpr<'a>>, LogicalOperator, Box<SExpr<'a>>),
    Call(Box<SExpr<'a>>, Seq<SExpr<'a>>),
    Lambda(SFunction<'a>),
}

/// The model of a function: its name, its parameters and its body.
pub struct SFunction<'a> {
    pub name: &'a str,
    pub params: Seq<&'a str>,
    pub body: SBody<'a>,
}

pub enum SBody<'a> {
    Lox(Box<SStatement<'a>>),
    Native(NativeFunction),
}

/// The model of a statement.
pub enum SStatement<'a> {
    Declaration { name: &'a str, expression: Option<SExpr<'a>> },
    FunctionDeclaration(SFunction<'a>),
    Expression(SExpr<'a>),
    Print(SExpr<'a>),
    Group(Seq<SStatement<'a>>),
    If {
        condition: SExpr<'a>,
        true_branch: Box<SStatement<'a>>,
        false_branch: Option<Box<SStatement<'a>>>,
    },
    While { condition: SExpr<'a>, body: Box<SStatement<'a>> },
    Return { line: usize, value: Option<SExpr<'a>> },
    Break,
}

pub open spec fn literal_model<'a>(l: Literal<'a>) -> SLiteral<'a> {
    match l {
        Literal::String(s) => SLiteral::String(s@),
        Literal::Number(n) => SLiteral::Number(n),
        Literal::Boolean(b) => SLiteral::Boolean(b),
        Literal::Nil => SLiteral::Nil,
    }
}

pub open spec fn expr_model<'a>(e: Expr<'a>) -> SExpr<'a>
    decreases e,
{
    SExpr {
        line: e.line,
        kind: match e.kind {
            ExprKind::Literal(l) => SExprKind::Literal(literal_model(l)),
            ExprKind::Identifier(n) => SExprKind::Identifier(n),
            ExprKind::Unary(u) => SExprKind::Unary(u.operator, Box::new(expr_model(*u.expr))),
            ExprKind::Grouping(g) => SExprKind::Grouping(Box::new(expr_model(*g))),
            ExprKind::Binary(b) => SExprKind::Binary(
                Box::new(expr_model(*b.left)),
                b.operator,
                Box::new(expr_model(*b.right)),
            ),
            ExprKind::Assignment(a) => SExprKind::Assignment(a.name, Box::new(expr_model(*a.expr))),
            ExprKind::Logical(l) => SExprKind::Logical(
                Box::new(expr_model(*l.left)),
                l.operator,
                Box::new(expr_model(*l.right)),
            ),
            ExprKind::Call(c) => SExprKind::Call(
                Box::new(expr_model(*c.callee)),
                exprs_model(c.arguments@),
            ),
            ExprKind::Lambda(f) => SExprKind::Lambda(function_model(f)),
        },
    }
}

pub open spec fn exprs_model<'a>(v: Seq<Expr<'a>>) -> Seq<SExpr<'a>>
    decreases v,
{
    if v.len() == 0 {
        Seq::empty()
    } else {
        exprs_model(v.drop_last()).push(expr_model(v.last()))
    }
}

pub open spec fn function_model<'a>(f: Function<'a>) -> SFunction<'a>
    decreases f,
{
    SFunction {
        name: f.name,
        params: f.params@,
        body: match f.body {
            FunctionKind::Lox(b) => SBody::Lox(Box::new(stmt_model(*b))),
            FunctionKind::Native(n) => SBody::Native(n),
        },
    }
}

pub open spec fn stmt_model<'a>(s: Statement<'a>) -> SStatement<'a>
    decreases s,
{
    match s {
        Statement::Declaration { name, expression } => SStatement::Declaration {
            name,
            expression: match expression {
                Some(e) => Some(expr_model(e)),
                None => None,
            },
        },
        Statement::FunctionDeclaration(f) => SStatement::FunctionDeclaration(function_model(f)),
        Statement::Expression(e) => SStatement::Expression(expr_model(e)),
        Statement::Print(e) => SStatement::Print(expr_model(e)),
        Statement::Group(v) => SStatement::Group(stmts_model(v@)),
        Statement::If { condition, true_branch, false_branch } => SStatement::If {
            condition: expr_model(condition),
            true_branch: Box::new(stmt_model(*true_branch)),
            false_branch: match false_branch {
                Some(b) => Some(Box::new(stmt_model(*b))),
                None => None,
            },
        },
        Statement::While { condition, body } => SStatement::While {
            condition: expr_model(condition),
            body: Box::new(stmt_model(*body)),
        },
        Statement::Return { line, value } => SStatement::Return {
            line,
            value: match value {
                Some(e) => Some(expr_model(e)),
                None => None,
            },
        },
        Statement::Break => SStatement::Break,
    }
}

pub open spec fn stmts_model<'a>(v: Seq<Statement<'a>>) -> Seq<SStatement<'a>>
    decreases v,
{
    if v.len() == 0 {
        Seq::empty()
    } else {
        stmts_model(v.drop_last()).push(stmt_model(v.last()))
    }
}

pub proof fn lemma_stmts_model_push<'a>(v: Seq<Statement<'a>>, s: Statement<'a>)
    ensures
        stmts_model(v.push(s)) == stmts_model(v).push(stmt_model(s)),
{
    assert(v.push(s).drop_last() =~= v);
}

pub proof fn lemma_stmts_model_pair<'a>(a: Statement<'a>, b: Statement<'a>)
    ensures
        stmts_model(seq![a, b]) == seq![stmt_model(a), stmt_model(b)],
{
    let e = Seq::<Statement<'a>>::empty();
    assert(stmts_model(e) =~= Seq::<SStatement<'a>>::empty());
    lemma_stmts_model_push(e, a);
    assert(e.push(a) =~= seq![a]);
    lemma_stmts_model_push(seq![a], b);
    assert(seq![a].push(b) =~= seq![a, b]);
    assert(stmts_model(seq![a, b]) =~= seq![stmt_model(a), stmt_model(b)]);
}

pub proof fn lemma_exprs_model_push<'a>(v: Seq<Expr<'a>>, e: Expr<'a>)
    ensures
        exprs_model(v.push(e)) == exprs_model(v).push(expr_model(e)),
{
    assert(v.push(e).drop_last() =~= v);
}

pub open spec fn opt_stmt_model<'a>(o: Option<Statement<'a>>) -> Option<SStatement<'a>> {
    match o {
        Some(s) => Some(stmt_model(s)),
        None => None,
    }
}

pub open spec fn opt_expr_model<'a>(o: Option<Expr<'a>>) -> Option<SExpr<'a>> {
    match o {
        Some(e) => Some(expr_model(e)),
        None => None,
    }
}

/// A runtime value. Numbers are the host's; a function value refers to
/// its declaration and to the scope it closes over.
#[derive(Debug)]
pub enum Value<'a, N> {
    Function { declaration: &'a Function<'a>, closure: usize },
    NativeFunction(NativeFunction),
    String(String),
    Number(N),
    Boolean(bool),
    Nil,
}

/// The mathematical model of a runtime value: a string is its characters.
pub enum SValue<'a, N> {
    Function { declaration: Function<'a>, closure: usize },
    NativeFunction(NativeFunction),
    String(Seq<char>),
    Number(N),
    Boolean(bool),
    Nil,
}

impl<'a, N> View for Value<'a, N> {
    type V = SValue<'a, N>;

    open spec fn view(&self) -> SValue<'a, N> {
        match *self {
            Value::Function { declaration, closure } => SValue::Function {
                declaration: *declaration,
                closure,
            },
            Value::NativeFunction(f) => SValue::NativeFunction(f),
            Value::String(s) => SValue::String(s@),
            Value::Number(n) => SValue::Number(n),
            Value::Boolean(b) => SValue::Boolean(b),
            Value::Nil => SValue::Nil,
        }
    }
}

/// The name of a value's type, as messages show it.
pub open spec fn type_text_of<'a, N>(v: SValue<'a, N>) -> Seq<char> {
    match v {
        SValue::String(..) => "String"@,
        SValue::Number(..) => "Number"@,
        SValue::Boolean(..) => "Boolean"@,
        SValue::Nil => "nil"@,
        SValue::Function { .. } => "Function"@,
        SValue::NativeFunction(..) => "Function"@,
    }
}

/// Whether a value counts as true: everything but `nil` and `false`.
pub open spec fn truthy<'a, N>(v: SValue<'a, N>) -> bool {
    match v {
        SValue::Nil => false,
        SValue::Boolean(b) => b,
        _ => true,
    }
}

/// A value's text when it is not a number: a string's characters,
/// `true`/`false`, `nil`, or `Function`.
pub open spec fn plain_text<'a, N>(v: SValue<'a, N>) -> Seq<char> {
    match v {
        SValue::String(s) => s,
        SValue::Boolean(b) => if b {
            "true"@
        } else {
            "false"@
        },
        SValue::Nil => "nil"@,
        _ => "Function"@,
    }
}

/// How `print` shows a value that is not a number: a string as it is, a
/// function as `<fn name>`, anything else as its text.
pub open spec fn display_text<'a, N>(v: SValue<'a, N>) -> Seq<char> {
    match v {
        SValue::Function { declaration, .. } => "<fn "@ + declaration.name@ + ">"@,
        SValue::NativeFunction(NativeFunction::Clock) => "<fn clock>"@,
        _ => plain_text(v),
    }
}

impl<'a, N: Copy> Value<'a, N> {
    /// A copy of this value.
    pub fn duplicate(&self) -> (res: Self)
        ensures
            res@ == self@,
    {
        match self {
            Value::Function { declaration, closure } => Value::Function {
                declaration: *declaration,
                closure: *closure,
            },
            Value::NativeFunction(f) => Value::NativeFunction(*f),
            Value::String(s) => Value::String(s.clone()),
            Value::Number(n) => Value::Number(*n),
            Value::Boolean(b) => Value::Boolean(*b),
            Value::Nil => Value::Nil,
        }
    }

    pub fn type_text(&self) -> (res: &'static str)
        ensures
            res@ == type_text_of(self@),
    {
        match self {
            Value::String(..) => "String",
            Value::Number(..) => "Number",
            Value::Boolean(..) => "Boolean",
            Value::Nil => "nil",
            Value::Function { .. } => "Function",
            Value::NativeFunction(..) => "Function",
        }
    }

    /// The value as text: a number as the host writes it, anything else
    /// as `plain_text` says.
    pub fn cast_to_string<H: Host<Num = N>>(&self, host: &H) -> (res: String)
        ensures
            !(self@ is Number) ==> res@ == plain_text(self@),
    {
        match self {
            Value::String(value) => value.clone(),
            Value::Number(value) => host.text(*value),
            Value::Boolean(value) => {
                if *value {
                    String::from_str("true")
                } else {
                    String::from_str("false")
                }
            },
            Value::Nil => String::from_str("nil"),
            Value::Function { .. } => String::from_str("Function"),
            Value::NativeFunction(..) => String::from_str("Function"),
        }
    }

    /// The value as `print` shows it: a number as the host writes it,
    /// anything else as `display_text` says.
    pub fn display<H: Host<Num = N>>(&self, host: &H) -> (res: String)
        ensures
            !(self@ is Number) ==> res@ == display_text(self@),
    {
        match self {
            Value::Function { declaration, .. } => {
                let mut out = String::from_str("<fn ");
                out.append(declaration.name);
                out.append(">");
                out
            },
            Value::NativeFunction(NativeFunction::Clock) => String::from_str("<fn clock>"),
            _ => self.cast_to_string(host),
        }
    }
}

} // verus!
