use interpreter::expressions::{BinaryOperator, Expr, Literal, UnaryOperator};
use interpreter::printers::{ast_print, rpn_print, AstPrinter, RpnPrinter};

fn number(lexeme: &str) -> Box<Expr<'_>> {
    Box::new(Expr::literal(Literal::Number(lexeme), 1))
}

fn negated_product() -> Expr<'static> {
    Expr::binary(
        Box::new(Expr::unary(UnaryOperator::MINUS, number("123"), 1)),
        BinaryOperator::STAR,
        Box::new(Expr::grouping(number("45.67"), 1)),
        1,
    )
}

fn product_of_sums() -> Expr<'static> {
    Expr::binary(
        Box::new(Expr::binary(number("1"), BinaryOperator::PLUS, number("2"), 1)),
        BinaryOperator::STAR,
        Box::new(Expr::binary(number("4"), BinaryOperator::MINUS, number("3"), 1)),
        1,
    )
}

#[test]
fn ast() {
    let output = ast_print(&negated_product());
    assert!(output == "(* (- 123) (Group 45.67))");
}

#[test]
fn rpn() {
    assert!(rpn_print(&product_of_sums()) == "1 2 + 4 3 - *");
}

#[test]
fn ast_printer_expression() {
    assert!(AstPrinter {}.print(&negated_product()) == "(* (- 123) (group 45.67))");
}

#[test]
fn rpn_printer_expression() {
    let output = RpnPrinter {}.print(&product_of_sums());
    assert!(output == "1 2 + 4 3 - *");
}

#[test]
fn rpn_writes_groupings_after_their_contents() {
    let grouped = Expr::grouping(Box::new(Expr::unary(UnaryOperator::BANG, Box::new(Expr::literal(Literal::Boolean(true), 1)), 1)), 1);
    assert_eq!(rpn_print(&grouped), "true ! Group");
    assert_eq!(ast_print(&grouped), "(Group (! true))");
}
