use interpreter::tokenizer::Tokenizer;

#[test]
fn test_peek() {
    let tokenizer = Tokenizer::new("test");

    assert_eq!(tokenizer.first(), Some('t'));
    assert_eq!(tokenizer.second(), Some('e'));
}

#[test]
fn test_pop() {
    let mut tokenizer = Tokenizer::new("test");

    assert_eq!(tokenizer.pop(), Some('t'));
    assert_eq!(tokenizer.pop(), Some('e'));
    assert_eq!(tokenizer.pop(), Some('s'));
    assert_eq!(tokenizer.pop(), Some('t'));
    assert_eq!(tokenizer.pop(), None);
}

#[test]
fn test_consume() {
    let mut tokenizer = Tokenizer::new("test");

    assert_eq!(tokenizer.consume_chars(3), "tes");
    assert!(tokenizer.location.index == "tes".chars().map(char::len_utf8).sum());

    assert_eq!(tokenizer.first(), Some('t'));
    assert_eq!(tokenizer.second(), None);

    assert_eq!(tokenizer.consume_chars(5), "t");
}

#[test]
fn test_consume_chars() {
    let mut tokenizer = Tokenizer::new("test");
    assert_eq!(tokenizer.consume_chars(3), "tes");
    assert_eq!(tokenizer.first(), Some('t'));

    tokenizer = Tokenizer::new("testy");
    let _ = tokenizer.consume_chars(2);
    let _ = tokenizer.consume_chars(2);
    assert_eq!(tokenizer.first(), Some('y'));
    assert_eq!(tokenizer.second(), None);
}

#[test]
fn tokenizer_empty_source() {
    let mut tokenizer = Tokenizer::new("");
    assert_eq!(tokenizer.first(), None);
    assert_eq!(tokenizer.second(), None);
    assert_eq!(tokenizer.pop(), None);
    assert_eq!(tokenizer.consume_chars(5), "");
    assert_eq!(tokenizer.line(), 1);
}

#[test]
fn tokenizer_consume_zero_chars_is_noop() {
    let mut tokenizer = Tokenizer::new("abc");
    assert_eq!(tokenizer.consume_chars(0), "");
    assert_eq!(tokenizer.first(), Some('a'));
    assert_eq!(tokenizer.location.index, 0);
}

#[test]
fn tokenizer_line_starts_at_one_and_increments_on_newline() {
    let mut tokenizer = Tokenizer::new("a\nb\n\nc");
    assert_eq!(tokenizer.line(), 1);
    assert_eq!(tokenizer.pop(), Some('a'));
    assert_eq!(tokenizer.line(), 1);
    assert_eq!(tokenizer.pop(), Some('\n'));
    assert_eq!(tokenizer.line(), 2);
    assert_eq!(tokenizer.pop(), Some('b'));
    assert_eq!(tokenizer.pop(), Some('\n'));
    assert_eq!(tokenizer.pop(), Some('\n'));
    assert_eq!(tokenizer.line(), 4);
}

#[test]
fn tokenizer_advance_while_stops_at_predicate() {
    let mut tokenizer = Tokenizer::new("12345abc");
    tokenizer.advance_while(|c| c.is_ascii_digit());
    assert_eq!(tokenizer.first(), Some('a'));
    assert_eq!(tokenizer.location.index, 5);
}

#[test]
fn tokenizer_advance_while_handles_eof() {
    let mut tokenizer = Tokenizer::new("12345");
    tokenizer.advance_while(|c| c.is_ascii_digit());
    assert_eq!(tokenizer.first(), None);
}

#[test]
fn tokenizer_advance_while_empty_match_is_noop() {
    let mut tokenizer = Tokenizer::new("abc");
    tokenizer.advance_while(|c| c.is_ascii_digit());
    assert_eq!(tokenizer.first(), Some('a'));
    assert_eq!(tokenizer.location.index, 0);
}

#[test]
fn consume_to_char_finds_target() {
    let mut tokenizer = Tokenizer::new("hello\nworld");
    tokenizer.skip_past_char('\n');
    assert_eq!(tokenizer.first(), Some('w'));
    assert_eq!(tokenizer.line(), 2); // newline was consumed
}

#[test]
fn consume_to_char_eof_without_match() {
    let mut tokenizer = Tokenizer::new("hello");
    tokenizer.skip_past_char('\n');
    assert_eq!(tokenizer.first(), None);
}

#[test]
fn tokenizer_slice_from_returns_span_between_locations() {
    let mut tokenizer = Tokenizer::new("foobar");
    let start = tokenizer.location;
    tokenizer.consume_chars(3);
    assert_eq!(tokenizer.slice_from(start), "foo");
}

#[test]
fn tokenizer_remaining_reflects_cursor() {
    let mut tokenizer = Tokenizer::new("foobar");
    assert_eq!(tokenizer.remaining(), "foobar");
    tokenizer.consume_chars(3);
    assert_eq!(tokenizer.remaining(), "bar");
    tokenizer.consume_chars(10);
    assert_eq!(tokenizer.remaining(), "");
}

#[test]
fn tokenizer_handles_multibyte_utf8() {
    let mut tokenizer = Tokenizer::new("é🦀z");
    assert_eq!(tokenizer.first(), Some('é'));
    assert_eq!(tokenizer.pop(), Some('é'));
    assert_eq!(tokenizer.location.index, 2);
    assert_eq!(tokenizer.pop(), Some('🦀'));
    assert_eq!(tokenizer.location.index, 6);
    assert_eq!(tokenizer.pop(), Some('z'));
    assert_eq!(tokenizer.pop(), None);
}

#[test]
fn tokenizer_consume_chars_with_multibyte() {
    let mut tokenizer = Tokenizer::new("é🦀z");
    assert_eq!(tokenizer.consume_chars(2), "é🦀");
    assert_eq!(tokenizer.first(), Some('z'));
}

#[test]
fn tokenizer_advance_while_counts_newlines() {
    let mut tokenizer = Tokenizer::new("\n\n\nx");
    tokenizer.advance_while(|c| c == '\n');
    assert_eq!(tokenizer.line(), 4);
    assert_eq!(tokenizer.first(), Some('x'));
}

#[test]
fn saved_location_slices_what_was_consumed() {
    let mut tokenizer = Tokenizer::new("foobar");
    let start = tokenizer.current_location();
    tokenizer.consume_chars(3);
    assert_eq!(tokenizer.slice_from(start), "foo");
}
