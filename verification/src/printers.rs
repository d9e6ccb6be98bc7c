use crate::expressions::{
    expr_model, plain_text, Expr, ExprKind, Literal, SExpr, SExprKind, SLiteral, SValue,
};
use crate::text::{push_str, string_from_chars};
use crate::token_type::{token_type_text, OperatorSubset};
use vstd::prelude::*;

verus! {

/// An expression that the printers know: literals under unary operators,
/// binary operators and groupings.
pub open spec fn printable<'a>(e: SExpr<'a>) -> bool
    decreases e,
{
    match e.kind {
        SExprKind::Literal(_) => true,
        SExprKind::Unary(_, x) => printable(*x),
        SExprKind::Grouping(x) => printable(*x),
        SExprKind::Binary(l, _, r) => printable(*l) && printable(*r),
        _ => false,
    }
}

/// How a literal is printed: a number as it was written.
pub open spec fn literal_text<'a>(l: SLiteral<'a>) -> Seq<char> {
    match l {
        SLiteral::String(s) => s,
        SLiteral::Number(n) => n@,
        SLiteral::Boolean(b) => if b {
            "true"@
        } else {
            "false"@
        },
        SLiteral::Nil => "nil"@,
    }
}

/// The expression written with each operator before its operands, in
/// parentheses, a grouping named `group`: `(* (- 123) (Group 45.67))`.
pub open spec fn ast_text<'a>(e: SExpr<'a>, group: Seq<char>) -> Seq<char>
    decreases e,
{
    match e.kind {
        SExprKind::Literal(l) => literal_text(l),
        SExprKind::Unary(op, x) => "("@ + token_type_text(op.spec_token_type()) + " "@ + ast_text(*x, group)
            + ")"@,
        SExprKind::Grouping(x) => "("@ + group + " "@ + ast_text(*x, group) + ")"@,
        SExprKind::Binary(l, op, r) => "("@ + token_type_text(op.spec_token_type()) + " "@ + ast_text(*l, group) + " "@ + ast_text(*r, group) + ")"@,
        _ => Seq::empty(),
    }
}

/// The expression written with each operator after its operands:
/// `1 2 + 4 3 - *`, a grouping followed by `group`.
pub open spec fn rpn_text<'a>(e: SExpr<'a>, group: Seq<char>) -> Seq<char>
    decreases e,
{
    match e.kind {
        SExprKind::Literal(l) => literal_text(l),
        SExprKind::Unary(op, x) => rpn_text(*x, group) + " "@ + token_type_text(op.spec_token_type()),
        SExprKind::Grouping(x) => rpn_text(*x, group) + " "@ + group,
        SExprKind::Binary(l, op, r) => rpn_text(*l, group) + " "@ + rpn_text(*r, group) + " "@ + token_type_text(
            op.spec_token_type(),
        ),
        _ => Seq::empty(),
    }
}

/// Appends how `lit` is printed.
fn push_literal(out: &mut Vec<char>, lit: &Literal)
    ensures
        final(out)@ == old(out)@ + literal_text(crate::expressions::literal_model(*lit)),
{
    match lit {
        Literal::String(s) => push_str(out, s.as_str()),
        Literal::Number(n) => push_str(out, n),
        Literal::Boolean(b) => {
            if *b {
                push_str(out, "true");
            } else {
                push_str(out, "false");
            }
        },
        Literal::Nil => push_str(out, "nil"),
    }
}

fn push_ast(out: &mut Vec<char>, expr: &Expr, group: &str)
    requires
        printable(expr_model(*expr)),
    ensures
        final(out)@ == old(out)@ + ast_text(expr_model(*expr), group@),
    decreases expr,
{
    let ghost before = out@;
    match &expr.kind {
        ExprKind::Literal(lit) => push_literal(out, lit),
        ExprKind::Unary(u) => {
            push_str(out, "(");
            push_str(out, u.operator.token_type().text());
            push_str(out, " ");
            push_ast(out, &u.expr, group);
            push_str(out, ")");
        },
        ExprKind::Grouping(g) => {
            push_str(out, "(");
            push_str(out, group);
            push_str(out, " ");
            push_ast(out, g, group);
            push_str(out, ")");
        },
        ExprKind::Binary(b) => {
            push_str(out, "(");
            push_str(out, b.operator.token_type().text());
            push_str(out, " ");
            push_ast(out, &b.left, group);
            push_str(out, " ");
            push_ast(out, &b.right, group);
            push_str(out, ")");
        },
        _ => {},
    }
    proof {
        assert(out@ =~= before + ast_text(expr_model(*expr), group@));
    }
}

fn push_rpn(out: &mut Vec<char>, expr: &Expr, group: &str)
    requires
        printable(expr_model(*expr)),
    ensures
        final(out)@ == old(out)@ + rpn_text(expr_model(*expr), group@),
    decreases expr,
{
    let ghost before = out@;
    match &expr.kind {
        ExprKind::Literal(lit) => push_literal(out, lit),
        ExprKind::Unary(u) => {
            push_rpn(out, &u.expr, group);
            push_str(out, " ");
            push_str(out, u.operator.token_type().text());
        },
        ExprKind::Grouping(g) => {
            push_rpn(out, g, group);
            push_str(out, " ");
            push_str(out, group);
        },
        ExprKind::Binary(b) => {
            push_rpn(out, &b.left, group);
            push_str(out, " ");
            push_rpn(out, &b.right, group);
            push_str(out, " ");
            push_str(out, b.operator.token_type().text());
        },
        _ => {},
    }
    proof {
        assert(out@ =~= before + rpn_text(expr_model(*expr), group@));
    }
}

/// The expression with each operator before its operands, in
/// parentheses, groupings named `Group`.
pub fn ast_print(expr: &Expr) -> (res: String)
    requires
        printable(expr_model(*expr)),
    ensures
        res@ == ast_text(expr_model(*expr), "Group"@),
{
    let mut out: Vec<char> = Vec::new();
    push_ast(&mut out, expr, "Group");
    string_from_chars(&out)
}

/// The expression with each operator after its operands, groupings
/// followed by `Group`.
pub fn rpn_print(expr: &Expr) -> (res: String)
    requires
        printable(expr_model(*expr)),
    ensures
        res@ == rpn_text(expr_model(*expr), "Group"@),
{
    let mut out: Vec<char> = Vec::new();
    push_rpn(&mut out, expr, "Group");
    string_from_chars(&out)
}

/// Prints expressions with each operator before its operands, in
/// parentheses, groupings named `group`.
pub struct AstPrinter;

impl AstPrinter {
    pub fn print(&self, expr: &Expr) -> (res: String)
        requires
            printable(expr_model(*expr)),
        ensures
            res@ == ast_text(expr_model(*expr), "group"@),
    {
        let mut out: Vec<char> = Vec::new();
        push_ast(&mut out, expr, "group");
        string_from_chars(&out)
    }
}

/// Prints expressions with each operator after its operands, groupings
/// followed by `group`.
pub struct RpnPrinter;

impl RpnPrinter {
    pub fn print(&self, expr: &Expr) -> (res: String)
        requires
            printable(expr_model(*expr)),
        ensures
            res@ == rpn_text(expr_model(*expr), "group"@),
    {
        let mut out: Vec<char> = Vec::new();
        push_rpn(&mut out, expr, "group");
        string_from_chars(&out)
    }
}


/// A literal that is no number is printed as the text the evaluator gives
/// the value it denotes: a boolean as `true` or `false`, `nil` as `nil`, a
/// string as its characters; the two boolean literals print differently,
/// and a number is printed as it was written. Both printers show a lone
/// literal that way.
pub proof fn lemma_literal_text<'a>(l: SLiteral<'a>, line: usize, group: Seq<char>)
    ensures
        l matches SLiteral::Boolean(b) ==> literal_text(l) == plain_text::<u8>(SValue::Boolean(b)),
        l matches SLiteral::Nil ==> literal_text(l) == plain_text::<u8>(SValue::Nil),
        l matches SLiteral::String(s) ==> literal_text(l) == s,
        l matches SLiteral::Number(n) ==> literal_text(l) == n@,
        literal_text(SLiteral::Boolean(true)) != literal_text(SLiteral::Boolean(false)),
        ast_text(SExpr { line, kind: SExprKind::Literal(l) }, group) == literal_text(l),
        rpn_text(SExpr { line, kind: SExprKind::Literal(l) }, group) == literal_text(l),
{
    reveal_strlit("true");
    reveal_strlit("false");
    assert(literal_text(SLiteral::Boolean(true)).len() != literal_text(SLiteral::Boolean(false)).len());
}

} // verus!
