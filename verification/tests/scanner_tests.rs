use interpreter::scanner::Scanner;
use interpreter::token::TokenValue;
use interpreter::token::TokenValue as TV;
use interpreter::token_type::TokenType as TT;

#[test]
fn empty_input_yields_only_eof() {
    let tokens = Scanner::new("").scan_tokens().unwrap();

    assert_eq!(tokens.len(), 1);
    assert_eq!(tokens[0].token_type, TT::EOF);
}

#[test]
fn single_char_tokens() {
    let tokens = Scanner::new("(){},.-+;*").scan_tokens().unwrap();
    let types: Vec<_> = tokens.into_iter().map(|t| t.token_type).collect();

    let expected_types = vec![
        TT::LEFT_PAREN,
        TT::RIGHT_PAREN,
        TT::LEFT_BRACE,
        TT::RIGHT_BRACE,
        TT::COMMA,
        TT::DOT,
        TT::MINUS,
        TT::PLUS,
        TT::SEMICOLON,
        TT::STAR,
        TT::EOF,
    ];

    assert_eq!(types, expected_types);
}

#[test]
fn compound_operators_prefer_two_char() {
    let tokens = Scanner::new("!= == <= >= ! = < >").scan_tokens().unwrap();
    let types: Vec<_> = tokens.into_iter().map(|t| t.token_type).collect();

    let expected_types = vec![
        TT::BANG_EQUAL,
        TT::EQUAL_EQUAL,
        TT::LESS_EQUAL,
        TT::GREATER_EQUAL,
        TT::BANG,
        TT::EQUAL,
        TT::LESS,
        TT::GREATER,
        TT::EOF,
    ];

    assert_eq!(types, expected_types);
}

#[test]
fn slash_is_division_when_not_doubled() {
    let tokens = Scanner::new("a / b").scan_tokens().unwrap();
    let types: Vec<_> = tokens.into_iter().map(|t| t.token_type).collect();

    let expected_types =
        vec![TT::IDENTIFIER, TT::SLASH, TT::IDENTIFIER, TT::EOF];

    assert_eq!(types, expected_types);
}

#[test]
fn comment_consumes_to_newline() {
    let tokens =
        Scanner::new("// this is ignored\n+").scan_tokens().unwrap();
    let types: Vec<_> = tokens.into_iter().map(|t| t.token_type).collect();

    let expected_types = vec![TT::COMMENT, TT::PLUS, TT::EOF];

    assert_eq!(types, expected_types);
}

#[test]
fn whitespace_is_skipped_but_tracks_lines() {
    let tokens = Scanner::new("  \t\r\n+\n\n-").scan_tokens().unwrap();
    let types: Vec<_> = tokens.iter().map(|t| t.token_type).collect();
    let lines: Vec<_> = tokens.iter().map(|t| t.line).collect();

    let expected_types = vec![TT::PLUS, TT::MINUS, TT::EOF];
    let expected_lines = vec![2, 4, 4];

    assert_eq!(types, expected_types);
    assert_eq!(lines, expected_lines);
}

#[test]
fn string_literal_strips_quotes_in_value() {
    let tokens = Scanner::new(r#""hello""#).scan_tokens().unwrap();
    let token = &tokens[0];

    let expected_token_type = TT::STRING;
    let expected_literal = TokenValue::String("hello");

    assert_eq!(tokens.len(), 2);
    assert_eq!(token.token_type, expected_token_type);
    assert_eq!(token.token_value, Some(expected_literal));
    assert_eq!(tokens[1].token_type, TT::EOF);
}

#[test]
fn empty_string_literal() {
    let tokens = Scanner::new(r#""""#).scan_tokens().unwrap();
    let token = &tokens[0];

    let expected_token_type = TT::STRING;
    let expected_literal = TokenValue::String("");

    assert_eq!(tokens.len(), 2);
    assert_eq!(token.token_type, expected_token_type);
    assert_eq!(token.token_value, Some(expected_literal));
    assert_eq!(tokens[1].token_type, TT::EOF);
}

#[test]
fn multiline_string_tracks_lines() {
    let tokens = Scanner::new("\"line1\nline2\"\n+").scan_tokens().unwrap();

    assert_eq!(tokens.len(), 3);
    assert_eq!(tokens[0].token_type, TT::STRING);
    assert_eq!(tokens[0].line, 1);
    assert_eq!(tokens[1].token_type, TT::PLUS);
    assert_eq!(tokens[1].line, 3);
    assert_eq!(tokens[2].token_type, TT::EOF);
}

#[test]
fn unterminated_string_is_error() {
    let error = Scanner::new(r#""no end"#).scan_tokens().unwrap_err();
    let expected_error_message = "Error during scanning: Unterminated string\n   1 | \"no end\n     | ^^^^^^^\n";

    assert_eq!(error.to_string(), expected_error_message);
}

#[test]
fn lone_quote_is_unterminated_not_panic() {
    let error = Scanner::new(r#"""#).scan_tokens().unwrap_err();
    let expected_error_message = "Error during scanning: Unterminated string\n   1 | \"\n     | ^\n";

    assert_eq!(error.to_string(), expected_error_message);
}

#[test]
fn scan_number() {
    // A number token keeps its lexeme; its value is the lexeme read as an f64.
    fn number_value(value: Option<TokenValue>) -> Option<f64> {
        match value {
            Some(TokenValue::Number(lexeme)) => lexeme.parse::<f64>().ok(),
            _ => None,
        }
    }

    let mut tokens = Scanner::new("123").scan_tokens().unwrap();
    let mut token = tokens[0];

    let expected_token_type = TT::NUMBER;
    let mut expected_token_literal: f64 = 123.0;

    assert_eq!(tokens.len(), 2);
    assert_eq!(token.token_type, expected_token_type);
    assert_eq!(number_value(token.token_value), Some(expected_token_literal));
    assert_eq!(tokens[1].token_type, TT::EOF);

    tokens = Scanner::new("3.15").scan_tokens().unwrap();
    token = tokens[0];

    expected_token_literal = 3.15;

    assert_eq!(tokens.len(), 2);
    assert_eq!(token.token_type, expected_token_type);
    assert_eq!(number_value(token.token_value), Some(expected_token_literal));
    assert_eq!(tokens[1].token_type, TT::EOF);
}

#[test]
fn trailing_dot_is_separate_token() {
    let tokens = Scanner::new("123.").scan_tokens().unwrap();
    let types: Vec<_> = tokens.into_iter().map(|t| t.token_type).collect();

    let expected_types = vec![TT::NUMBER, TT::DOT, TT::EOF];

    assert_eq!(types, expected_types);
}

#[test]
fn leading_dot_is_separate_token() {
    let tokens = Scanner::new(".123").scan_tokens().unwrap();
    let types: Vec<_> = tokens.into_iter().map(|t| t.token_type).collect();

    let expected_types = vec![TT::DOT, TT::NUMBER, TT::EOF];

    assert_eq!(types, expected_types);
}

#[test]
fn identifier_vs_keyword() {
    let tokens = Scanner::new("var foo if").scan_tokens().unwrap();
    let types: Vec<_> = tokens.into_iter().map(|t| t.token_type).collect();

    let expected_types = vec![TT::VAR, TT::IDENTIFIER, TT::IF, TT::EOF];

    assert_eq!(types, expected_types);
}

#[test]
fn identifier_with_underscore_and_digits() {
    let tokens = Scanner::new("_foo bar123 _").scan_tokens().unwrap();
    let types: Vec<_> = tokens.iter().map(|t| t.token_type).collect();

    let expected_types =
        vec![TT::IDENTIFIER, TT::IDENTIFIER, TT::IDENTIFIER, TT::EOF];

    assert_eq!(tokens.len(), 4);

    assert_eq!(types, expected_types);
    assert_eq!(tokens[0].token_value, Some(TV::Identifier("_foo")));
    assert_eq!(tokens[1].token_value, Some(TV::Identifier("bar123")));
    assert_eq!(tokens[2].token_value, Some(TV::Identifier("_")));
    assert_eq!(tokens[3].token_type, TT::EOF);
}

#[test]
fn identifier_cannot_start_with_digit() {
    let result = Scanner::new("123abc").scan_tokens();
    let types: Vec<_> =
        result.unwrap().into_iter().map(|t| t.token_type).collect();

    let expected_types = vec![TT::NUMBER, TT::IDENTIFIER, TT::EOF];
    assert_eq!(types, expected_types);
}

#[test]
fn comment_skips_until_eol() {
    let result = Scanner::new("123//some words if\n+").scan_tokens();
    let types: Vec<_> =
        result.unwrap().into_iter().map(|t| t.token_type).collect();

    let expected_types = vec![TT::NUMBER, TT::COMMENT, TT::PLUS, TT::EOF];
    assert_eq!(types, expected_types);
}

#[test]
fn multiple_errors_are_produced() {
    let error = Scanner::new("@+`").scan_tokens().unwrap_err();

    let expected_error_message = "Error during scanning: Unexpected character\n   1 | @+`\n     | ^\n\nError during scanning: Unexpected character\n   1 | @+`\n     |   ^\n";

    assert_eq!(error.to_string(), expected_error_message);
}

#[test]
fn always_terminates_with_eof() {
    for src in ["", " "] {
        let tokens = Scanner::new(src).scan_tokens().unwrap();

        assert_eq!(tokens.iter().last().unwrap().token_type, TT::EOF);
    }
}
