use interpreter::scanner::Cursor;

#[test]
fn peek() {
    let tokenizer = Cursor::new("test");

    assert_eq!(tokenizer.first(), Some('t'));
    assert_eq!(tokenizer.second(), Some('e'));
}

#[test]
fn pop() {
    let mut tokenizer = Cursor::new("test");

    assert_eq!(tokenizer.pop(), Some('t'));
    assert_eq!(tokenizer.pop(), Some('e'));
    assert_eq!(tokenizer.pop(), Some('s'));
    assert_eq!(tokenizer.pop(), Some('t'));
    assert_eq!(tokenizer.pop(), None);
}

#[test]
fn consume() {
    let mut tokenizer = Cursor::new("test");

    assert_eq!(tokenizer.consume_chars(3), "tes");
    assert!(
        tokenizer.location.index == "tes".chars().map(char::len_utf8).sum()
    );

    assert_eq!(tokenizer.first(), Some('t'));
    assert_eq!(tokenizer.second(), None);

    assert_eq!(tokenizer.consume_chars(5), "t");
}

#[test]
fn consume_chars() {
    let mut tokenizer = Cursor::new("test");
    assert_eq!(tokenizer.consume_chars(3), "tes");
    assert_eq!(tokenizer.first(), Some('t'));

    tokenizer = Cursor::new("testy");
    let _: &str = tokenizer.consume_chars(2);
    let _: &str = tokenizer.consume_chars(2);
    assert_eq!(tokenizer.first(), Some('y'));
    assert_eq!(tokenizer.second(), None);
}

#[test]
fn scanner_empty_source() {
    let mut tokenizer = Cursor::new("");
    assert_eq!(tokenizer.first(), None);
    assert_eq!(tokenizer.second(), None);
    assert_eq!(tokenizer.pop(), None);
    assert_eq!(tokenizer.consume_chars(5), "");
    assert_eq!(tokenizer.line(), 1);
}

#[test]
fn scanner_consume_zero_chars_is_noop() {
    let mut tokenizer = Cursor::new("abc");
    assert_eq!(tokenizer.consume_chars(0), "");
    assert_eq!(tokenizer.first(), Some('a'));
    assert_eq!(tokenizer.location.index, 0);
}

#[test]
fn scanner_line_starts_at_one_and_increments_on_newline() {
    let mut tokenizer = Cursor::new("a\nb\n\nc");
    assert_eq!(tokenizer.line(), 1);
    assert_eq!(tokenizer.pop(), Some('a'));
    assert_eq!(tokenizer.line(), 1);
    assert_eq!(tokenizer.pop(), Some('\n'));
    assert_eq!(tokenizer.line(), 2);
    assert_eq!(tokenizer.pop(), Some('b'));
    assert_eq!(tokenizer.pop(), Some('\n'));
    assert_eq!(tokenizer.pop(), Some('\n'));
    assert_eq!(tokenizer.line(), 4);
}

#[test]
fn scanner_advance_while_stops_at_predicate() {
    let mut tokenizer = Cursor::new("12345abc");
    tokenizer.advance_while(|c| c.is_ascii_digit());
    assert_eq!(tokenizer.first(), Some('a'));
    assert_eq!(tokenizer.location.index, 5);
}

#[test]
fn scanner_advance_while_handles_eof() {
    let mut tokenizer = Cursor::new("12345");
    tokenizer.advance_while(|c| c.is_ascii_digit());
    assert_eq!(tokenizer.first(), None);
}

#[test]
fn scanner_advance_while_empty_match_is_noop() {
    let mut tokenizer = Cursor::new("abc");
    tokenizer.advance_while(|c| c.is_ascii_digit());
    assert_eq!(tokenizer.first(), Some('a'));
    assert_eq!(tokenizer.location.index, 0);
}

#[test]
fn scanner_slice_from_returns_span_between_locations() {
    let mut tokenizer = Cursor::new("foobar");
    let start = tokenizer.location;
    tokenizer.consume_chars(3);
    assert_eq!(tokenizer.slice_from(start), "foo");
}

#[test]
fn scanner_remaining_reflects_cursor() {
    let mut tokenizer = Cursor::new("foobar");
    assert_eq!(tokenizer.remaining(), "foobar");
    tokenizer.consume_chars(3);
    assert_eq!(tokenizer.remaining(), "bar");
    tokenizer.consume_chars(10);
    assert_eq!(tokenizer.remaining(), "");
}

#[test]
fn scanner_handles_multibyte_utf8() {
    let mut tokenizer = Cursor::new("é🦀z");
    assert_eq!(tokenizer.first(), Some('é'));
    assert_eq!(tokenizer.pop(), Some('é'));
    assert_eq!(tokenizer.location.index, 2);
    assert_eq!(tokenizer.pop(), Some('🦀'));
    assert_eq!(tokenizer.location.index, 6);
    assert_eq!(tokenizer.pop(), Some('z'));
    assert_eq!(tokenizer.pop(), None);
}

#[test]
fn scanner_consume_chars_with_multibyte() {
    let mut tokenizer = Cursor::new("é🦀z");
    assert_eq!(tokenizer.consume_chars(2), "é🦀");
    assert_eq!(tokenizer.first(), Some('z'));
}

#[test]
fn scanner_advance_while_counts_newlines() {
    let mut tokenizer = Cursor::new("\n\n\nx");
    tokenizer.advance_while(|c| c == '\n');
    assert_eq!(tokenizer.line(), 4);
    assert_eq!(tokenizer.first(), Some('x'));
}

#[test]
fn saved_cursor_location_slices_what_was_consumed() {
    let mut cursor = Cursor::new("foobar");
    let start = cursor.current_location();
    cursor.consume_chars(3);
    assert_eq!(cursor.slice_from(start), "foo");
}
