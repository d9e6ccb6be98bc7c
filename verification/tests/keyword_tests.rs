use interpreter::interpreter_error::{error_text, InterpreterError};
use interpreter::keywords::get_keyword;
use interpreter::token_type::TokenType;

#[test]
fn keywords_are_found() {
    assert_eq!(get_keyword("while"), Some(TokenType::WHILE));
    assert_eq!(get_keyword("and"), Some(TokenType::AND));
    assert_eq!(get_keyword("super"), Some(TokenType::SUPER));
}

#[test]
fn break_and_other_words_are_not_keywords() {
    assert_eq!(get_keyword("break"), None);
    assert_eq!(get_keyword("whilst"), None);
    assert_eq!(get_keyword(""), None);
}

#[test]
fn interpreter_error_with_a_place() {
    let e = InterpreterError { line: 3, message: "boom", error_location: Some("here") };
    assert_eq!(e.report_text(), "[line 3] io::Error here: boom");
}

#[test]
fn interpreter_error_without_a_place() {
    let e = InterpreterError { line: 120, message: "boom", error_location: None };
    assert_eq!(e.report_text(), "[line 120] io:Error: boom");
}

#[test]
fn error_report_has_an_empty_place() {
    assert_eq!(error_text(12, "oops"), "[line 12] io::Error : oops");
}
