use interpreter::expressions::{
    BinaryOperator, Expr, ExprKind, Literal, LogicalOperator, Statement,
};
use interpreter::parser::parse;
use interpreter::scanner::Scanner;
use interpreter::token::Token;

fn tokens(source: &str) -> Vec<Token<'_>> {
    match Scanner::new(source).scan_tokens() {
        Ok(tokens) => tokens,
        Err(_) => panic!("scanning failed"),
    }
}

fn number(e: &Expr<'_>) -> String {
    match &e.kind {
        ExprKind::Literal(Literal::Number(n)) => n.to_string(),
        other => panic!("not a number: {other:?}"),
    }
}

fn name(e: &Expr<'_>) -> String {
    match &e.kind {
        ExprKind::Identifier(n) => n.to_string(),
        other => panic!("not a name: {other:?}"),
    }
}

#[test]
fn product_binds_tighter_than_sum() {
    let statements = parse(tokens("1 + 2 * 3;")).unwrap();
    assert_eq!(statements.len(), 1);
    let Statement::Expression(e) = &statements[0] else { panic!("not an expression") };
    let ExprKind::Binary(sum) = &e.kind else { panic!("not binary") };
    assert_eq!(sum.operator, BinaryOperator::PLUS);
    assert_eq!(number(&sum.left), "1");
    let ExprKind::Binary(product) = &sum.right.kind else { panic!("not binary") };
    assert_eq!(product.operator, BinaryOperator::STAR);
    assert_eq!(number(&product.left), "2");
    assert_eq!(number(&product.right), "3");
}

#[test]
fn subtraction_groups_to_the_left() {
    let statements = parse(tokens("7 - 2 - 1;")).unwrap();
    let Statement::Expression(e) = &statements[0] else { panic!("not an expression") };
    let ExprKind::Binary(outer) = &e.kind else { panic!("not binary") };
    assert_eq!(number(&outer.right), "1");
    let ExprKind::Binary(inner) = &outer.left.kind else { panic!("not binary") };
    assert_eq!(number(&inner.left), "7");
    assert_eq!(number(&inner.right), "2");
}

#[test]
fn logical_operators_nest_by_their_binding() {
    let statements = parse(tokens("a or b and c;")).unwrap();
    let Statement::Expression(e) = &statements[0] else { panic!("not an expression") };
    let ExprKind::Logical(outer) = &e.kind else { panic!("not logical") };
    assert_eq!(outer.operator, LogicalOperator::AND);
    assert_eq!(name(&outer.right), "c");
    let ExprKind::Logical(inner) = &outer.left.kind else { panic!("not logical") };
    assert_eq!(inner.operator, LogicalOperator::OR);
    assert_eq!(name(&inner.left), "a");
    assert_eq!(name(&inner.right), "b");
}

#[test]
fn for_loop_becomes_a_while_loop() {
    let statements = parse(tokens("for (var i = 0; i < 2; i = i + 1) print i;")).unwrap();
    assert_eq!(statements.len(), 1);
    let Statement::Group(parts) = &statements[0] else { panic!("not a group") };
    assert_eq!(parts.len(), 2);
    assert!(matches!(parts[0], Statement::Declaration { name: "i", .. }));
    let Statement::While { condition, body } = &parts[1] else { panic!("not a loop") };
    assert!(matches!(condition.kind, ExprKind::Binary(_)));
    let Statement::Group(steps) = body.as_ref() else { panic!("not a group") };
    assert_eq!(steps.len(), 2);
    assert!(matches!(steps[0], Statement::Print(_)));
    assert!(matches!(&steps[1], Statement::Expression(Expr { kind: ExprKind::Assignment(_), .. })));
}

#[test]
fn missing_for_condition_loops_on_true() {
    let statements = parse(tokens("for (;; x = 1) break;")).unwrap();
    let Statement::While { condition, body } = &statements[0] else { panic!("not a loop") };
    assert!(matches!(condition.kind, ExprKind::Literal(Literal::Boolean(true))));
    let Statement::Group(steps) = body.as_ref() else { panic!("not a group") };
    assert!(matches!(steps[0], Statement::Break));
}

#[test]
fn for_header_needs_an_increment() {
    assert!(parse(tokens("for (;;) break;")).is_err());
    assert!(parse(tokens("for (;;;) break;")).is_err());
}

#[test]
fn assignment_needs_a_name() {
    assert!(parse(tokens("1 = 2;")).is_err());
}

#[test]
fn break_is_refused_only_in_while_bodies() {
    assert!(parse(tokens("break;")).is_ok());
    assert!(parse(tokens("while (true) { break; }")).is_err());
    assert!(parse(tokens("for (;; x = 1) { break; }")).is_ok());
}

#[test]
fn comments_are_skipped() {
    let statements = parse(tokens("// nothing\nprint 1; // one\n")).unwrap();
    assert_eq!(statements.len(), 1);
    assert!(matches!(statements[0], Statement::Print(_)));
}

#[test]
fn closing_brace_without_a_block_is_passed_over() {
    let statements = parse(tokens("print 1; } print 2;")).unwrap();
    assert_eq!(statements.len(), 2);
    assert!(parse(tokens("{ print 1; }}")).is_ok());
}
