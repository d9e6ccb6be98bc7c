use crate::chars::{ascii_alpha, ascii_digit, ident_char, is_alpha, is_digit, is_ident_char, lemma_span_exact, lemma_span_props, span};
use crate::text::{lemma_concat, lemma_no_newline, byte_len, char_width, lemma_take_full, lemma_take_monotone, lemma_take_succ, newline_count, str_to_chars, utf8_width};
use crate::token::{keyword_value, SpecToken, SpecTokenValue, Token, TokenValue};
use crate::token_type::{keyword_of, TokenType};
use crate::error_utils::{highlight_line_selection, highlight_spec};
use crate::text::{
    debug_text, decimal, decimal_chars, lemma_nth_line_bytes, nth_line, nth_line_of, pad_left,
    push_all, push_padded, push_str, str_debug, string_from_chars,
};
use vstd::prelude::*;

verus! {

/// A position in a source text: a byte offset and a 1-based line number.
#[derive(Clone, Copy, Debug)]
pub struct Location {
    pub index: usize,
    pub line: usize,
}

impl Default for Location {
    fn default() -> (res: Self)
        ensures
            res.index == 0,
            res.line == 1,
    {
        Location { index: 0, line: 1 }
    }
}

impl Location {
    /// Moves past `character`: its UTF-8 width in bytes, and one line on `'\n'`.
    pub fn bump(&mut self, character: char)
        requires
            old(self).index + char_width(character) <= usize::MAX,
            character == '\n' ==> old(self).line < usize::MAX,
        ensures
            final(self).index == old(self).index + char_width(character),
            final(self).line == old(self).line + if character == '\n' {
                1nat
            } else {
                0nat
            },
    {
        self.index = self.index + utf8_width(character);
        if character == '\n' {
            self.line = self.line + 1;
        }
    }
}

/// Byte and line position reached after the characters `consumed`.
pub open spec fn location_after(consumed: Seq<char>) -> (usize, usize) {
    (byte_len(consumed) as usize, (1 + newline_count(consumed)) as usize)
}

/// Characters a string literal at the start of `r` takes: the opening
/// quote, the characters up to the next quote, and that quote if present.
pub open spec fn string_len(r: Seq<char>) -> nat {
    let q = span(r.drop_first(), |c: char| c != '"');
    if 1 + q < r.len() {
        q + 2
    } else {
        q + 1
    }
}

/// Whether the string literal at the start of `r` has a closing quote.
pub open spec fn string_terminated(r: Seq<char>) -> bool {
    1 + span(r.drop_first(), |c: char| c != '"') < r.len()
}

/// Characters a number literal at the start of `r` takes: digits, and a
/// fraction when a `.` is followed by a digit.
pub open spec fn number_len(r: Seq<char>) -> nat {
    let d = span(r, |c: char| is_digit(c));
    if d + 1 < r.len() && r[d as int] == '.' && is_digit(r[d + 1int]) {
        d + 1 + span(r.skip(d + 1int), |c: char| is_digit(c))
    } else {
        d
    }
}

/// A cursor over the characters of a source text.
pub struct Cursor<'a> {
    source: &'a str,
    chars: Vec<char>,
    pos: usize,
    pub location: Location,
}

impl<'a> Cursor<'a> {
    /// The whole source text.
    pub closed spec fn text(&self) -> Seq<char> {
        self.chars@
    }

    /// The cursor's current location.
    pub closed spec fn loc(&self) -> Location {
        self.location
    }

    /// The cursor's current location, to hand back to `slice_from` later.
    pub fn current_location(&self) -> (res: Location)
        requires
            self.wf(),
        ensures
            res == self.loc(),
            res.index == byte_len(self.text().take(self.offset() as int)),
    {
        self.location
    }

    /// How many characters have been consumed.
    pub closed spec fn offset(&self) -> nat {
        self.pos as nat
    }

    /// The characters not yet consumed.
    pub open spec fn rest(&self) -> Seq<char> {
        self.text().skip(self.offset() as int)
    }

    /// The characters consumed so far.
    pub open spec fn consumed(&self) -> Seq<char> {
        self.text().take(self.offset() as int)
    }

    /// The cursor's location matches its offset, and nothing overflows.
    pub closed spec fn wf(&self) -> bool {
        &&& self.chars@ == self.source@
        &&& self.pos <= self.chars.len()
        &&& self.chars.len() < usize::MAX
        &&& byte_len(self.chars@) <= usize::MAX
        &&& self.location.index == byte_len(self.chars@.take(self.pos as int))
        &&& self.location.line == 1 + newline_count(self.chars@.take(self.pos as int))
    }

    pub proof fn lemma_wf(&self)
        requires
            self.wf(),
        ensures
            self.offset() <= self.text().len(),
            self.text().len() < usize::MAX,
            self.loc().index == byte_len(self.consumed()),
            self.loc().line == 1 + newline_count(self.consumed()),
            byte_len(self.text()) <= usize::MAX,
    {
    }

    /// Whatever calls a cursor has gone through since `new`, its location
    /// stands on a character boundary of the text, within it: the byte
    /// index and the line are those of the characters consumed, and what
    /// remains is the text after them.
    pub proof fn lemma_location_law(&self)
        requires
            self.wf(),
        ensures
            self.loc().index == byte_len(self.text().take(self.offset() as int)),
            self.loc().index <= byte_len(self.text()),
            self.loc().line == 1 + newline_count(self.text().take(self.offset() as int)),
            self.consumed() + self.rest() == self.text(),
            self.rest().len() > 1 ==> self.rest().len() > 0,
    {
        self.lemma_wf();
        lemma_take_monotone(self.text(), self.offset() as int, self.text().len() as int);
        lemma_take_full(self.text());
        assert(self.consumed() + self.rest() =~= self.text());
    }

    /// Moving from this cursor to a later one on the same text adds the
    /// newlines of the characters in between.
    pub proof fn lemma_advance(&self, later: &Self)
        requires
            self.wf(),
            later.wf(),
            later.text() == self.text(),
            self.offset() <= later.offset(),
        ensures
            later.loc().line == self.loc().line + newline_count(
                self.text().subrange(self.offset() as int, later.offset() as int),
            ),
    {
        let t = self.text();
        assert(t.take(later.offset() as int) =~= t.take(self.offset() as int) + t.subrange(
            self.offset() as int,
            later.offset() as int,
        ));
        lemma_concat(
            t.take(self.offset() as int),
            t.subrange(self.offset() as int, later.offset() as int),
        );
    }

    /// If the characters consumed since `earlier` hold no newline, the
    /// line is unchanged.
    pub proof fn lemma_same_line(&self, earlier: &Self)
        requires
            self.wf(),
            earlier.wf(),
            earlier.text() == self.text(),
            earlier.offset() <= self.offset(),
            forall|i: int|
                0 <= i < self.offset() - earlier.offset() ==> earlier.rest()[i] != '\n',
        ensures
            self.loc().line == earlier.loc().line,
    {
        let sub = self.text().subrange(earlier.offset() as int, self.offset() as int);
        assert forall|i: int| 0 <= i < sub.len() implies sub[i] != '\n' by {
            assert(sub[i] == earlier.rest()[i]);
        }
        lemma_no_newline(sub);
        earlier.lemma_advance(self);
    }

    pub fn new(source: &'a str) -> (res: Self)
        requires
            source@.len() < usize::MAX,
            byte_len(source@) <= usize::MAX,
        ensures
            res.wf(),
            res.text() == source@,
            res.offset() == 0,
            res.loc().index == 0,
            res.loc().line == 1,
    {
        let chars = str_to_chars(source);
        assert(chars@.take(0) =~= Seq::<char>::empty());
        Self { source, chars, pos: 0, location: Location::default() }
    }

    pub fn line(&self) -> (res: usize)
        ensures
            res == self.loc().line,
    {
        self.location.line
    }

    /// The unconsumed part of the source.
    pub fn remaining(&self) -> (res: &'a str)
        requires
            self.wf(),
        ensures
            res@ == self.rest(),
    {
        self.source.substring_char(self.pos, self.chars.len())
    }

    /// An iterator over the unconsumed characters.
    pub fn chars(&self) -> (res: std::str::Chars<'a>)
        requires
            self.wf(),
        ensures
            exists|r: &'a str| r@ == self.rest() && res == vstd::string::spec_iter(r),
    {
        let r = self.remaining();
        r.chars()
    }

    pub fn first(&self) -> (res: Option<char>)
        requires
            self.wf(),
        ensures
            res == if self.rest().len() > 0 {
                Some(self.rest()[0])
            } else {
                None
            },
    {
        if self.pos < self.chars.len() {
            Some(self.chars[self.pos])
        } else {
            None
        }
    }

    pub fn second(&self) -> (res: Option<char>)
        requires
            self.wf(),
        ensures
            res == if self.rest().len() > 1 {
                Some(self.rest()[1])
            } else {
                None
            },
    {
        if self.pos + 1 < self.chars.len() {
            Some(self.chars[self.pos + 1])
        } else {
            None
        }
    }

    /// Consumes one character.
    fn step(&mut self)
        requires
            old(self).wf(),
            old(self).offset() < old(self).text().len(),
        ensures
            final(self).wf(),
            final(self).text() == old(self).text(),
            final(self).offset() == old(self).offset() + 1,
    {
        let c = self.chars[self.pos];
        proof {
            lemma_take_succ(self.chars@, self.pos as int);
            lemma_take_monotone(self.chars@, self.pos + 1, self.chars@.len() as int);
            lemma_take_monotone(self.chars@, 0, self.pos as int);
            lemma_take_full(self.chars@);
        }
        self.location.bump(c);
        self.pos = self.pos + 1;
    }

    /// The text between `location` (an earlier location of this cursor)
    /// and the current location.
    pub fn slice_from(&self, location: Location) -> (res: &'a str)
        requires
            self.wf(),
            exists|k: int|
                0 <= k <= self.offset() && byte_len(#[trigger] self.text().take(k))
                    == location.index,
        ensures
            exists|k: int|
                0 <= k <= self.offset() && byte_len(#[trigger] self.text().take(k))
                    == location.index && res@ == self.text().subrange(k, self.offset() as int),
    {
        let ghost target = choose|k: int|
            0 <= k <= self.offset() && byte_len(#[trigger] self.text().take(k))
                == location.index;
        let mut k: usize = 0;
        let mut bytes: usize = 0;
        proof {
            assert(self.chars@.take(0) =~= Seq::<char>::empty());
            lemma_take_monotone(self.chars@, 0, self.pos as int);
        }
        while bytes < location.index && k < self.pos
            invariant
                self.wf(),
                0 <= k <= self.pos,
                0 <= target <= self.pos,
                bytes == byte_len(self.chars@.take(k as int)),
                byte_len(self.chars@.take(target)) == location.index,
                k <= target,
                bytes <= self.location.index,
            decreases self.pos - k,
        {
            proof {
                lemma_take_succ(self.chars@, k as int);
                lemma_take_monotone(self.chars@, k + 1, self.pos as int);
                if target == k {
                } else {
                    lemma_take_monotone(self.chars@, k as int, target);
                }
            }
            bytes = bytes + utf8_width(self.chars[k]);
            k = k + 1;
            proof {
                if (k as int) > target {
                    lemma_take_monotone(self.chars@, target, k as int);
                    lemma_take_succ(self.chars@, (k - 1) as int);
                    lemma_take_monotone(self.chars@, target, (k - 1) as int);
                }
            }
        }
        proof {
            if (k as int) < target {
                lemma_take_monotone(self.chars@, k as int, target);
                lemma_take_monotone(self.chars@, target, self.pos as int);
            }
        }
        self.source.substring_char(k, self.pos)
    }

    /// The text consumed since the offset `start` (whose location was `loc`).
    fn slice_since(&self, start: Ghost<nat>, loc: Location) -> (res: &'a str)
        requires
            self.wf(),
            start@ <= self.offset(),
            loc.index == byte_len(self.text().take(start@ as int)),
        ensures
            res@ == self.text().subrange(start@ as int, self.offset() as int),
    {
        proof {
            self.lemma_wf();
        }
        let r = self.slice_from(loc);
        proof {
            let k = choose|k: int|
                0 <= k <= self.offset() && byte_len(#[trigger] self.text().take(k))
                    == loc.index && r@ == self.text().subrange(k, self.offset() as int);
            if k < start@ {
                lemma_take_monotone(self.text(), k, start@ as int);
            } else if k > start@ {
                lemma_take_monotone(self.text(), start@ as int, k);
            }
        }
        r
    }

    /// Consumes up to `n` characters and returns them.
    pub fn consume_chars(&mut self, n: usize) -> (res: &'a str)
        requires
            old(self).wf(),
        ensures
            final(self).wf(),
            final(self).text() == old(self).text(),
            final(self).offset() == old(self).offset() + if n < old(self).rest().len() {
                n as nat
            } else {
                old(self).rest().len()
            },
            res@ == old(self).rest().take(final(self).offset() - old(self).offset()),
    {
        let start = self.location;
        let ghost start_pos = self.offset();
        let mut i: usize = 0;
        while i < n && self.pos < self.chars.len()
            invariant
                self.wf(),
                self.text() == old(self).text(),
                self.offset() == old(self).offset() + i,
                i <= n,
            decreases n - i,
        {
            self.step();
            i = i + 1;
        }
        let r = self.slice_since(Ghost(start_pos), start);
        assert(r@ =~= old(self).rest().take(self.offset() - old(self).offset()));
        r
    }

    /// Consumes and returns the next character, if any.
    pub fn pop(&mut self) -> (res: Option<char>)
        requires
            old(self).wf(),
        ensures
            final(self).wf(),
            final(self).text() == old(self).text(),
            res == if old(self).rest().len() > 0 {
                Some(old(self).rest()[0])
            } else {
                None
            },
            final(self).offset() == old(self).offset() + if old(self).rest().len() > 0 {
                1nat
            } else {
                0nat
            },
    {
        let result = self.first();
        if result.is_some() {
            self.step();
        }
        result
    }

    /// Consumes characters while `predicate` holds of them.
    pub fn advance_while(&mut self, predicate: impl Fn(char) -> bool)
        requires
            old(self).wf(),
            forall|c: char| call_requires(predicate, (c,)),
        ensures
            final(self).wf(),
            final(self).text() == old(self).text(),
            old(self).offset() <= final(self).offset() <= old(self).text().len(),
            forall|i: int|
                old(self).offset() <= i < final(self).offset() ==> call_ensures(
                    predicate,
                    (old(self).text()[i],),
                    true,
                ),
            final(self).offset() < old(self).text().len() ==> call_ensures(
                predicate,
                (old(self).text()[final(self).offset() as int],),
                false,
            ),
    {
        let mut going = true;
        while going && self.pos < self.chars.len()
            invariant
                self.wf(),
                self.text() == old(self).text(),
                old(self).offset() <= self.offset() <= self.text().len(),
                forall|c: char| call_requires(predicate, (c,)),
                forall|i: int|
                    old(self).offset() <= i < self.offset() ==> call_ensures(
                        predicate,
                        (old(self).text()[i],),
                        true,
                    ),
                !going ==> self.offset() < self.text().len() && call_ensures(
                    predicate,
                    (old(self).text()[self.offset() as int],),
                    false,
                ),
            decreases self.text().len() - self.offset(), if going {
                1int
            } else {
                0int
            },
        {
            let c = self.chars[self.pos];
            if predicate(c) {
                self.step();
            } else {
                going = false;
            }
        }
    }

    /// Consumes the longest prefix of the rest whose characters satisfy `p`.
    fn advance_span(&mut self, predicate: impl Fn(char) -> bool, p: Ghost<spec_fn(char) -> bool>)
        requires
            old(self).wf(),
            forall|c: char| call_requires(predicate, (c,)),
            forall|c: char, r: bool| call_ensures(predicate, (c,), r) ==> r == p@(c),
        ensures
            final(self).wf(),
            final(self).text() == old(self).text(),
            final(self).offset() == old(self).offset() + span(old(self).rest(), p@),
    {
        self.advance_while(predicate);
        proof {
            let r = old(self).rest();
            let m = self.offset() - old(self).offset();
            assert forall|i: int| 0 <= i < m implies p@(#[trigger] r[i]) by {
                assert(r[i] == old(self).text()[old(self).offset() + i]);
            }
            if m < r.len() {
                assert(r[m] == old(self).text()[self.offset() as int]);
            }
            lemma_span_exact(r, p@, m);
        }
    }

    /// Consumes a string literal: the opening quote, everything up to the
    /// next `"`, and that quote if there is one. Returns the consumed text
    /// and whether the closing quote was found.
    pub fn consume_string(&mut self) -> (res: (&'a str, bool))
        requires
            old(self).wf(),
            old(self).rest().len() > 0,
            old(self).rest()[0] == '"',
        ensures
            final(self).wf(),
            final(self).text() == old(self).text(),
            final(self).offset() == old(self).offset() + string_len(old(self).rest()),
            res.0@ == old(self).rest().take(string_len(old(self).rest()) as int),
            res.1 == string_terminated(old(self).rest()),
    {
        let start = self.location;
        let ghost start_pos = self.offset();
        let _ = self.pop();
        let ghost mid = self.offset();
        self.advance_span(|c: char| -> (r: bool) ensures r == (c != '"') { c != '"' }, Ghost(|c: char| c != '"'));
        let terminated_by_quote = self.pop().is_some();
        proof {
            let r = old(self).rest();
            assert(self.text().skip(mid as int) =~= r.drop_first());
            lemma_span_props(r.drop_first(), |c: char| c != '"');
        }
        let s = self.slice_since(Ghost(start_pos), start);
        assert(s@ =~= old(self).rest().take(string_len(old(self).rest()) as int));
        (s, terminated_by_quote)
    }

    /// Consumes a number literal: digits, then a fraction if a `.` is
    /// followed by a digit.
    pub fn consume_number(&mut self) -> (res: &'a str)
        requires
            old(self).wf(),
        ensures
            final(self).wf(),
            final(self).text() == old(self).text(),
            final(self).offset() == old(self).offset() + number_len(old(self).rest()),
            res@ == old(self).rest().take(number_len(old(self).rest()) as int),
    {
        let start = self.location;
        let ghost start_pos = self.offset();
        self.advance_span(|c: char| -> (r: bool) ensures r == is_digit(c) { ascii_digit(c) }, Ghost(|c: char| is_digit(c)));
        let ghost d = self.offset();
        let f = self.first();
        let s2 = self.second();
        if f == Some('.') && s2.is_some() && ascii_digit(s2.unwrap()) {
            self.pop();
            let ghost d2 = self.offset();
            self.advance_span(|c: char| -> (r: bool) ensures r == is_digit(c) { ascii_digit(c) }, Ghost(|c: char| is_digit(c)));
            proof {
                let r = old(self).rest();
                let k = span(r, |c: char| is_digit(c));
                assert(self.text().skip(d2 as int) =~= r.skip(k + 1int));
            }
        }
        proof {
            lemma_span_props(old(self).rest(), |c: char| is_digit(c));
        }
        let s = self.slice_since(Ghost(start_pos), start);
        assert(s@ =~= old(self).rest().take(number_len(old(self).rest()) as int));
        s
    }

    /// Consumes identifier characters (letters, digits, `_`).
    pub fn consume_identifier(&mut self) -> (res: &'a str)
        requires
            old(self).wf(),
        ensures
            final(self).wf(),
            final(self).text() == old(self).text(),
            final(self).offset() == old(self).offset() + span(old(self).rest(), |c: char| is_ident_char(c)),
            res@ == old(self).rest().take(span(old(self).rest(), |c: char| is_ident_char(c)) as int),
    {
        let start = self.location;
        let ghost start_pos = self.offset();
        self.advance_span(|c: char| -> (r: bool) ensures r == is_ident_char(c) { ident_char(c) }, Ghost(|c: char| is_ident_char(c)));
        let s = self.slice_since(Ghost(start_pos), start);
        assert(s@ =~= old(self).rest().take(span(old(self).rest(), |c: char| is_ident_char(c)) as int));
        s
    }

    /// Consumes a comment: everything up to the next newline.
    pub fn consume_comment(&mut self) -> (res: &'a str)
        requires
            old(self).wf(),
        ensures
            final(self).wf(),
            final(self).text() == old(self).text(),
            final(self).offset() == old(self).offset() + span(old(self).rest(), |c: char| c != '\n'),
            res@ == old(self).rest().take(span(old(self).rest(), |c: char| c != '\n') as int),
    {
        let start = self.location;
        let ghost start_pos = self.offset();
        self.advance_span(|c: char| -> (r: bool) ensures r == (c != '\n') { c != '\n' }, Ghost(|c: char| c != '\n'));
        let s = self.slice_since(Ghost(start_pos), start);
        assert(s@ =~= old(self).rest().take(span(old(self).rest(), |c: char| c != '\n') as int));
        s
    }
}


/// The single-character token that `c` always forms, if any.
pub open spec fn single_char_type(c: char) -> Option<TokenType> {
    if c == '(' {
        Some(TokenType::LEFT_PAREN)
    } else if c == ')' {
        Some(TokenType::RIGHT_PAREN)
    } else if c == '{' {
        Some(TokenType::LEFT_BRACE)
    } else if c == '}' {
        Some(TokenType::RIGHT_BRACE)
    } else if c == ',' {
        Some(TokenType::COMMA)
    } else if c == '.' {
        Some(TokenType::DOT)
    } else if c == '-' {
        Some(TokenType::MINUS)
    } else if c == '+' {
        Some(TokenType::PLUS)
    } else if c == ';' {
        Some(TokenType::SEMICOLON)
    } else if c == '*' {
        Some(TokenType::STAR)
    } else if c == '?' {
        Some(TokenType::QUESTION_MARK)
    } else if c == ':' {
        Some(TokenType::COLON)
    } else {
        None
    }
}

/// For a character that may be followed by `=`: the two-character token
/// and the one-character token.
pub open spec fn compound_types(c: char) -> Option<(TokenType, TokenType)> {
    if c == '!' {
        Some((TokenType::BANG_EQUAL, TokenType::BANG))
    } else if c == '=' {
        Some((TokenType::EQUAL_EQUAL, TokenType::EQUAL))
    } else if c == '<' {
        Some((TokenType::LESS_EQUAL, TokenType::LESS))
    } else if c == '>' {
        Some((TokenType::GREATER_EQUAL, TokenType::GREATER))
    } else {
        None
    }
}

pub open spec fn is_blank(c: char) -> bool {
    c == ' ' || c == '\r' || c == '\t' || c == '\n'
}

/// What the scanner makes of the characters at the start of `r`.
pub enum Lexeme {
    /// Whitespace: nothing.
    Skip,
    /// A token of this type carrying this value.
    Emit(TokenType, Option<SpecTokenValue>),
    /// A character that starts no token.
    Unexpected,
    /// A string literal without its closing quote.
    Unterminated,
}

/// How many characters the next lexeme at the start of `r` takes.
pub open spec fn lexeme_len(r: Seq<char>) -> nat {
    let c = r[0];
    if single_char_type(c) is Some {
        1
    } else if compound_types(c) is Some {
        if r.len() > 1 && r[1] == '=' {
            2
        } else {
            1
        }
    } else if c == '/' {
        if r.len() > 1 && r[1] == '/' {
            span(r, |x: char| x != '\n')
        } else {
            1
        }
    } else if is_blank(c) {
        1
    } else if c == '"' {
        string_len(r)
    } else if is_digit(c) {
        number_len(r)
    } else if is_alpha(c) || c == '_' {
        span(r, |x: char| is_ident_char(x))
    } else {
        1
    }
}

/// What the next lexeme at the start of `r` is.
pub open spec fn lexeme(r: Seq<char>) -> Lexeme {
    let c = r[0];
    let n = lexeme_len(r);
    if single_char_type(c) is Some {
        Lexeme::Emit(single_char_type(c)->0, None)
    } else if compound_types(c) is Some {
        let (two, one) = compound_types(c)->0;
        if r.len() > 1 && r[1] == '=' {
            Lexeme::Emit(two, None)
        } else {
            Lexeme::Emit(one, None)
        }
    } else if c == '/' {
        if r.len() > 1 && r[1] == '/' {
            Lexeme::Emit(TokenType::COMMENT, Some(SpecTokenValue::Comment(r.take(n as int))))
        } else {
            Lexeme::Emit(TokenType::SLASH, None)
        }
    } else if is_blank(c) {
        Lexeme::Skip
    } else if c == '"' {
        if string_terminated(r) {
            Lexeme::Emit(
                TokenType::STRING,
                Some(SpecTokenValue::String(r.subrange(1, n - 1))),
            )
        } else {
            Lexeme::Unterminated
        }
    } else if is_digit(c) {
        Lexeme::Emit(TokenType::NUMBER, Some(SpecTokenValue::Number(r.take(n as int))))
    } else if is_alpha(c) || c == '_' {
        match keyword_of(r.take(n as int)) {
            Some(k) => Lexeme::Emit(k, keyword_value(k)),
            None => Lexeme::Emit(
                TokenType::IDENTIFIER,
                Some(SpecTokenValue::Identifier(r.take(n as int))),
            ),
        }
    } else {
        Lexeme::Unexpected
    }
}

/// A scanning error: its line, message and the offending text.
pub struct SpecScanError {
    pub line: nat,
    pub message: Seq<char>,
    pub location: Option<Seq<char>>,
}

pub open spec fn unexpected_message() -> Seq<char> {
    "Unexpected character"@
}

pub open spec fn unterminated_message() -> Seq<char> {
    "Unterminated string"@
}

/// Scans `r`, starting on line `line`: the tokens, the errors, and the
/// line reached at the end.
pub open spec fn scan_spec(r: Seq<char>, line: nat) -> (Seq<SpecToken>, Seq<SpecScanError>, nat)
    decreases r.len(),
{
    if r.len() == 0 {
        (seq![], seq![], line)
    } else {
        let n = lexeme_len(r);
        if n == 0 || n > r.len() {
            (seq![], seq![], line)
        } else {
            let next = scan_spec(r.skip(n as int), line + newline_count(r.take(n as int)));
            match lexeme(r) {
                Lexeme::Skip => next,
                Lexeme::Emit(t, v) => (
                    seq![SpecToken { token_type: t, token_value: v, line }] + next.0,
                    next.1,
                    next.2,
                ),
                Lexeme::Unexpected => (
                    next.0,
                    seq![
                        SpecScanError {
                            line,
                            message: unexpected_message(),
                            location: Some(r.take(1)),
                        },
                    ] + next.1,
                    next.2,
                ),
                Lexeme::Unterminated => (
                    next.0,
                    seq![
                        SpecScanError {
                            line,
                            message: unterminated_message(),
                            location: Some(r.take(n as int)),
                        },
                    ] + next.1,
                    next.2,
                ),
            }
        }
    }
}

/// A scanning error.
#[derive(Debug)]
pub struct ScannerError<'a> {
    pub line: usize,
    pub message: &'static str,
    pub error_location: Option<&'a str>,
}

impl<'a> View for ScannerError<'a> {
    type V = SpecScanError;

    open spec fn view(&self) -> SpecScanError {
        SpecScanError {
            line: self.line as nat,
            message: self.message@,
            location: match self.error_location {
                Some(s) => Some(s@),
                None => None,
            },
        }
    }
}

/// Whether `res` is what scanning the lexeme `lx`, on line `line`, gives.
pub open spec fn scan_step_result(
    res: Result<Option<Token>, ScannerError>,
    lx: Lexeme,
    r: Seq<char>,
    line: nat,
) -> bool {
    match lx {
        Lexeme::Skip => res matches Ok(None),
        Lexeme::Emit(t, v) => res matches Ok(Some(tok)) && tok@ == SpecToken {
            token_type: t,
            token_value: v,
            line,
        },
        Lexeme::Unexpected => res matches Err(e) && e@ == SpecScanError {
            line,
            message: unexpected_message(),
            location: Some(r.take(1)),
        },
        Lexeme::Unterminated => res matches Err(e) && e@ == SpecScanError {
            line,
            message: unterminated_message(),
            location: Some(r.take(lexeme_len(r) as int)),
        },
    }
}

/// Turns a source text into tokens.
pub struct Scanner<'a> {
    iter: Cursor<'a>,
}

impl<'a> Scanner<'a> {
    pub closed spec fn cursor(&self) -> Cursor<'a> {
        self.iter
    }

    pub fn new(source: &'a str) -> (res: Self)
        requires
            source@.len() < usize::MAX,
            byte_len(source@) <= usize::MAX,
        ensures
            res.cursor().wf(),
            res.cursor().text() == source@,
            res.cursor().offset() == 0,
            res.cursor().loc().line == 1,
    {
        Scanner { iter: Cursor::new(source) }
    }

    /// Scans the next lexeme, which starts with `character`.
    fn scan_token(&mut self, character: char) -> (res: Result<Option<Token<'a>>, ScannerError<'a>>)
        requires
            old(self).cursor().wf(),
            old(self).cursor().rest().len() > 0,
            character == old(self).cursor().rest()[0],
        ensures
            final(self).cursor().wf(),
            final(self).cursor().text() == old(self).cursor().text(),
            0 < lexeme_len(old(self).cursor().rest()) <= old(self).cursor().rest().len(),
            final(self).cursor().offset() == old(self).cursor().offset() + lexeme_len(
                old(self).cursor().rest(),
            ),
            scan_step_result(
                res,
                lexeme(old(self).cursor().rest()),
                old(self).cursor().rest(),
                old(self).cursor().loc().line as nat,
            ),
    {
        let ghost r = self.iter.rest();
        proof {
            self.iter.lemma_wf();
        }
        let token = if character == '(' {
            self.build_single_char_token(TokenType::LEFT_PAREN)
        } else if character == ')' {
            self.build_single_char_token(TokenType::RIGHT_PAREN)
        } else if character == '{' {
            self.build_single_char_token(TokenType::LEFT_BRACE)
        } else if character == '}' {
            self.build_single_char_token(TokenType::RIGHT_BRACE)
        } else if character == ',' {
            self.build_single_char_token(TokenType::COMMA)
        } else if character == '.' {
            self.build_single_char_token(TokenType::DOT)
        } else if character == '-' {
            self.build_single_char_token(TokenType::MINUS)
        } else if character == '+' {
            self.build_single_char_token(TokenType::PLUS)
        } else if character == ';' {
            self.build_single_char_token(TokenType::SEMICOLON)
        } else if character == '*' {
            self.build_single_char_token(TokenType::STAR)
        } else if character == '?' {
            self.build_single_char_token(TokenType::QUESTION_MARK)
        } else if character == ':' {
            self.build_single_char_token(TokenType::COLON)
        } else if character == '!' {
            self.build_compound('=', TokenType::BANG_EQUAL, TokenType::BANG)
        } else if character == '=' {
            self.build_compound('=', TokenType::EQUAL_EQUAL, TokenType::EQUAL)
        } else if character == '<' {
            self.build_compound('=', TokenType::LESS_EQUAL, TokenType::LESS)
        } else if character == '>' {
            self.build_compound('=', TokenType::GREATER_EQUAL, TokenType::GREATER)
        } else if character == '/' && self.iter.second() == Some('/') {
            self.build_comment()
        } else if character == '/' {
            self.build_single_char_token(TokenType::SLASH)
        } else if character == ' ' || character == '\r' || character == '\t' || character == '\n' {
            self.iter.pop();
            return Ok(None);
        } else if character == '"' {
            match self.build_string() {
                Ok(t) => t,
                Err(e) => {
                    return Err(e);
                },
            }
        } else if ascii_digit(character) {
            self.build_number()
        } else if ascii_alpha(character) || character == '_' {
            self.build_identifier()
        } else {
            return Err(self.scan_unexpected());
        };
        Ok(Some(token))
    }

    /// A token of `token_type` taking the next character.
    fn build_single_char_token(&mut self, token_type: TokenType) -> (res: Token<'a>)
        requires
            old(self).cursor().wf(),
            old(self).cursor().rest().len() > 0,
            old(self).cursor().rest()[0] != '\n',
        ensures
            final(self).cursor().wf(),
            final(self).cursor().text() == old(self).cursor().text(),
            final(self).cursor().offset() == old(self).cursor().offset() + 1,
            res@ == (SpecToken {
                token_type,
                token_value: None,
                line: old(self).cursor().loc().line as nat,
            }),
    {
        self.build_sized_token(token_type, 1)
    }

    /// A token of `token_type` taking the next `size` characters, which
    /// hold no newline.
    fn build_sized_token(&mut self, token_type: TokenType, size: usize) -> (res: Token<'a>)
        requires
            old(self).cursor().wf(),
            size <= old(self).cursor().rest().len(),
            forall|i: int| 0 <= i < size ==> old(self).cursor().rest()[i] != '\n',
        ensures
            final(self).cursor().wf(),
            final(self).cursor().text() == old(self).cursor().text(),
            final(self).cursor().offset() == old(self).cursor().offset() + size,
            res@ == (SpecToken {
                token_type,
                token_value: None,
                line: old(self).cursor().loc().line as nat,
            }),
    {
        let ghost before = self.iter;
        let _ = self.iter.consume_chars(size);
        proof {
            self.iter.lemma_same_line(&before);
        }
        Token::new(token_type, self.iter.line())
    }

    fn build_compound(
        &mut self,
        char_flag: char,
        two_char_token: TokenType,
        one_char_token: TokenType,
    ) -> (res: Token<'a>)
        requires
            old(self).cursor().wf(),
            old(self).cursor().rest().len() > 0,
            old(self).cursor().rest()[0] != '\n',
            char_flag != '\n',
        ensures
            final(self).cursor().wf(),
            final(self).cursor().text() == old(self).cursor().text(),
            ({
                let r = old(self).cursor().rest();
                let two = r.len() > 1 && r[1] == char_flag;
                &&& final(self).cursor().offset() == old(self).cursor().offset() + if two {
                    2nat
                } else {
                    1nat
                }
                &&& res@ == (SpecToken {
                    token_type: if two {
                        two_char_token
                    } else {
                        one_char_token
                    },
                    token_value: None,
                    line: old(self).cursor().loc().line as nat,
                })
            }),
    {
        if self.iter.second() == Some(char_flag) {
            self.build_sized_token(two_char_token, 2)
        } else {
            self.build_single_char_token(one_char_token)
        }
    }

    fn build_string(&mut self) -> (res: Result<Token<'a>, ScannerError<'a>>)
        requires
            old(self).cursor().wf(),
            old(self).cursor().rest().len() > 0,
            old(self).cursor().rest()[0] == '"',
        ensures
            final(self).cursor().wf(),
            final(self).cursor().text() == old(self).cursor().text(),
            final(self).cursor().offset() == old(self).cursor().offset() + string_len(
                old(self).cursor().rest(),
            ),
            ({
                let r = old(self).cursor().rest();
                let n = string_len(r);
                let line = old(self).cursor().loc().line as nat;
                if string_terminated(r) {
                    res matches Ok(tok) && tok@ == SpecToken {
                        token_type: TokenType::STRING,
                        token_value: Some(SpecTokenValue::String(r.subrange(1, n - 1))),
                        line,
                    }
                } else {
                    res matches Err(e) && e@ == SpecScanError {
                        line,
                        message: unterminated_message(),
                        location: Some(r.take(n as int)),
                    }
                }
            }),
    {
        let line = self.iter.line();
        let (lexeme, success) = self.iter.consume_string();
        if !success {
            return Err(ScannerError { line, message: "Unterminated string", error_location: Some(lexeme) });
        }
        let len = lexeme.unicode_len();
        let literal_value = TokenValue::String(lexeme.substring_char(1, len - 1));
        proof {
            let r = old(self).cursor().rest();
            assert(lexeme@.subrange(1, len - 1) =~= r.subrange(1, string_len(r) - 1));
        }
        Ok(Token::new_value(TokenType::STRING, literal_value, line))
    }

    fn build_number(&mut self) -> (res: Token<'a>)
        requires
            old(self).cursor().wf(),
        ensures
            final(self).cursor().wf(),
            final(self).cursor().text() == old(self).cursor().text(),
            final(self).cursor().offset() == old(self).cursor().offset() + number_len(
                old(self).cursor().rest(),
            ),
            res@ == (SpecToken {
                token_type: TokenType::NUMBER,
                token_value: Some(
                    SpecTokenValue::Number(
                        old(self).cursor().rest().take(number_len(old(self).cursor().rest()) as int),
                    ),
                ),
                line: old(self).cursor().loc().line as nat,
            }),
    {
        let ghost before = self.iter;
        let lexeme = self.iter.consume_number();
        proof {
            let r = before.rest();
            lemma_span_props(r, |c: char| is_digit(c));
            let d = span(r, |c: char| is_digit(c));
            if d + 1 < r.len() && r[d as int] == '.' && is_digit(r[d + 1int]) {
                lemma_span_props(r.skip(d + 1int), |c: char| is_digit(c));
                assert forall|i: int| 0 <= i < number_len(r) implies r[i] != '\n' by {
                    if i > d {
                        assert(r[i] == r.skip(d + 1int)[i - d - 1]);
                    }
                }
            }
            self.iter.lemma_same_line(&before);
        }
        Token::new_value(TokenType::NUMBER, TokenValue::Number(lexeme), self.iter.line())
    }

    fn build_identifier(&mut self) -> (res: Token<'a>)
        requires
            old(self).cursor().wf(),
        ensures
            final(self).cursor().wf(),
            final(self).cursor().text() == old(self).cursor().text(),
            ({
                let r = old(self).cursor().rest();
                let n = span(r, |x: char| is_ident_char(x));
                let line = old(self).cursor().loc().line as nat;
                &&& final(self).cursor().offset() == old(self).cursor().offset() + n
                &&& res@ == match keyword_of(r.take(n as int)) {
                    Some(k) => SpecToken { token_type: k, token_value: keyword_value(k), line },
                    None => SpecToken {
                        token_type: TokenType::IDENTIFIER,
                        token_value: Some(SpecTokenValue::Identifier(r.take(n as int))),
                        line,
                    },
                }
            }),
    {
        let ghost before = self.iter;
        let lexeme = self.iter.consume_identifier();
        proof {
            lemma_span_props(before.rest(), |x: char| is_ident_char(x));
            self.iter.lemma_same_line(&before);
        }
        if let Some(keyword) = TokenType::from_lexeme(lexeme) {
            if let Some(value) = TokenValue::from_keyword(keyword) {
                return Token::new_value(keyword, value, self.iter.line());
            }
            return Token::new(keyword, self.iter.line());
        }
        Token::new_value(TokenType::IDENTIFIER, TokenValue::Identifier(lexeme), self.iter.line())
    }

    fn scan_unexpected(&mut self) -> (res: ScannerError<'a>)
        requires
            old(self).cursor().wf(),
            old(self).cursor().rest().len() > 0,
            old(self).cursor().rest()[0] != '\n',
        ensures
            final(self).cursor().wf(),
            final(self).cursor().text() == old(self).cursor().text(),
            final(self).cursor().offset() == old(self).cursor().offset() + 1,
            res@ == (SpecScanError {
                line: old(self).cursor().loc().line as nat,
                message: unexpected_message(),
                location: Some(old(self).cursor().rest().take(1)),
            }),
    {
        let ghost before = self.iter;
        let character = self.iter.consume_chars(1);
        proof {
            self.iter.lemma_same_line(&before);
        }
        ScannerError { line: self.iter.line(), message: "Unexpected character", error_location: Some(character) }
    }

    fn build_comment(&mut self) -> (res: Token<'a>)
        requires
            old(self).cursor().wf(),
        ensures
            final(self).cursor().wf(),
            final(self).cursor().text() == old(self).cursor().text(),
            ({
                let r = old(self).cursor().rest();
                let n = span(r, |x: char| x != '\n');
                &&& final(self).cursor().offset() == old(self).cursor().offset() + n
                &&& res@ == (SpecToken {
                    token_type: TokenType::COMMENT,
                    token_value: Some(SpecTokenValue::Comment(r.take(n as int))),
                    line: old(self).cursor().loc().line as nat,
                })
            }),
    {
        let ghost before = self.iter;
        let lexeme = self.iter.consume_comment();
        proof {
            lemma_span_props(before.rest(), |x: char| x != '\n');
            self.iter.lemma_same_line(&before);
        }
        Token::new_value(TokenType::COMMENT, TokenValue::Comment(lexeme), self.iter.line())
    }
}

/// How `{:?}` shows a scanning error.
pub open spec fn scan_error_debug(e: SpecScanError) -> Seq<char> {
    "ScannerError { line: "@ + decimal(e.line) + ", message: "@ + str_debug(e.message)
        + ", error_location: "@ + match e.location {
        Some(l) => "Some("@ + str_debug(l) + ")"@,
        None => "None"@,
    } + " }"@
}

/// The source line that an error on line `line` refers to, or `EOF`.
pub open spec fn source_line_of(source: Seq<char>, line: nat) -> Seq<char> {
    match nth_line(source, (line - 1) as nat) {
        Some(l) => l,
        None => "EOF"@,
    }
}

/// The report for one scanning error in `source`.
pub open spec fn scan_error_message(e: SpecScanError, source: Seq<char>) -> Seq<char> {
    let source_line = source_line_of(source, e.line);
    match e.location {
        None => "Error during scanning: "@ + e.message + "\n "@ + pad_left(decimal(e.line), 3)
            + " | "@ + source_line,
        Some(loc) => match highlight_spec(e.line, source_line, loc) {
            Some(sel) => "Error during scanning: "@ + e.message + "\n"@ + sel,
            None => "Errored generating the error message for "@ + scan_error_debug(e)
                + "\nCouldn't find "@ + str_debug(loc) + " in "@ + str_debug(source_line),
        },
    }
}

/// Each report followed by a blank line.
pub open spec fn scan_reports(errs: Seq<SpecScanError>, source: Seq<char>) -> Seq<char>
    decreases errs.len(),
{
    if errs.len() == 0 {
        seq![]
    } else {
        scan_reports(errs.drop_last(), source) + scan_error_message(errs.last(), source) + "\n\n"@
    }
}

/// The combined report: the reports of all errors, separated by blank
/// lines, ending in one newline.
pub open spec fn scan_errors_text(errs: Seq<SpecScanError>, source: Seq<char>) -> Seq<char> {
    scan_reports(errs, source).drop_last()
}

impl<'a> ScannerError<'a> {
    /// The report for this error in `source_string`.
    pub fn generate_error_message(&self, source_string: &str) -> (res: String)
        requires
            self.line >= 1,
            byte_len(source_string@) <= usize::MAX,
        ensures
            res@ == scan_error_message(self@, source_string@),
    {
        let source_line = match nth_line_of(source_string, self.line - 1) {
            Some(l) => l,
            None => "EOF",
        };
        proof {
            lemma_nth_line_bytes(source_string@, (self.line - 1) as nat);
            assert(byte_len("EOF"@) <= usize::MAX) by {
                reveal_strlit("EOF");
                reveal_with_fuel(byte_len, 4);
            }
        }
        let mut out: Vec<char> = Vec::new();
        match self.error_location {
            None => {
                push_str(&mut out, "Error during scanning: ");
                push_str(&mut out, self.message);
                push_str(&mut out, "\n ");
                push_padded(&mut out, &decimal_chars(self.line), 3);
                push_str(&mut out, " | ");
                push_str(&mut out, source_line);
            },
            Some(error_location) => {
                match highlight_line_selection(self.line, source_line, error_location) {
                    Some(line_selection) => {
                        push_str(&mut out, "Error during scanning: ");
                        push_str(&mut out, self.message);
                        push_str(&mut out, "\n");
                        push_str(&mut out, line_selection.as_str());
                    },
                    None => {
                        push_str(&mut out, "Errored generating the error message for ");
                        push_str(&mut out, "ScannerError { line: ");
                        push_all(&mut out, &decimal_chars(self.line));
                        push_str(&mut out, ", message: ");
                        push_str(&mut out, debug_text(self.message).as_str());
                        push_str(&mut out, ", error_location: ");
                        push_str(&mut out, "Some(");
                        push_str(&mut out, debug_text(error_location).as_str());
                        push_str(&mut out, ")");
                        push_str(&mut out, " }");
                        push_str(&mut out, "\nCouldn't find ");
                        push_str(&mut out, debug_text(error_location).as_str());
                        push_str(&mut out, " in ");
                        push_str(&mut out, debug_text(source_line).as_str());
                    },
                }
            },
        }
        assert(out@ =~= scan_error_message(self@, source_string@));
        string_from_chars(&out)
    }
}

/// The report for a failed scan.
#[derive(Debug)]
pub struct ScannerErrors {
    error_message: String,
}

impl View for ScannerErrors {
    type V = Seq<char>;

    closed spec fn view(&self) -> Seq<char> {
        self.error_message@
    }
}

impl ScannerErrors {
    /// Reports `errors`, which refer to `source`.
    pub fn new<'a>(errors: Vec<ScannerError<'a>>, source: &'a str) -> (res: Self)
        requires
            errors.len() > 0,
            forall|i: int| 0 <= i < errors.len() ==> errors[i].line >= 1,
            byte_len(source@) <= usize::MAX,
        ensures
            res@ == scan_errors_text(errors@.map_values(|e: ScannerError<'a>| e@), source@),
    {
        let ghost errs = errors@.map_values(|e: ScannerError<'a>| e@);
        let mut out: Vec<char> = Vec::new();
        let n = errors.len();
        for i in 0..n
            invariant
                n == errors.len(),
                errs == errors@.map_values(|e: ScannerError<'a>| e@),
                forall|j: int| 0 <= j < errors.len() ==> errors[j].line >= 1,
                byte_len(source@) <= usize::MAX,
                out@ == scan_reports(errs.take(i as int), source@),
        {
            let m = errors[i].generate_error_message(source);
            push_str(&mut out, m.as_str());
            push_str(&mut out, "\n\n");
            proof {
                assert(errs.take(i + 1).drop_last() =~= errs.take(i as int));
            }
        }
        proof {
            assert(errs.take(n as int) =~= errs);
        }
        out.pop();
        ScannerErrors { error_message: string_from_chars(&out) }
    }

    /// The report text.
    pub fn to_string(&self) -> (res: String)
        ensures
            res@ == self@,
    {
        self.error_message.clone()
    }
}

impl<'a> Scanner<'a> {
    /// Scans the rest of the source: the tokens followed by `EOF`, or the
    /// report of every scanning error.
    pub fn scan_tokens(&mut self) -> (res: Result<Vec<Token<'a>>, ScannerErrors>)
        requires
            old(self).cursor().wf(),
        ensures
            final(self).cursor().wf(),
            final(self).cursor().text() == old(self).cursor().text(),
            final(self).cursor().rest().len() == 0,
            ({
                let (toks, errs, end) = scan_spec(
                    old(self).cursor().rest(),
                    old(self).cursor().loc().line as nat,
                );
                &&& errs.len() == 0 ==> (res matches Ok(v) && v@.map_values(|t: Token<'a>| t@)
                    == toks.push(SpecToken { token_type: TokenType::EOF, token_value: None, line: end }))
                &&& errs.len() > 0 ==> (res matches Err(e) && e@ == scan_errors_text(
                    errs,
                    old(self).cursor().text(),
                ))
            }),
    {
        let ghost full = scan_spec(self.iter.rest(), self.iter.loc().line as nat);
        let mut tokens: Vec<Token<'a>> = Vec::new();
        let mut errors: Vec<ScannerError<'a>> = Vec::new();
        proof {
            self.iter.lemma_wf();
            assert(tokens@.map_values(|t: Token<'a>| t@) + full.0 =~= full.0);
            assert(errors@.map_values(|e: ScannerError<'a>| e@) + full.1 =~= full.1);
        }
        let mut current = self.iter.first();
        while current.is_some()
            invariant
                self.iter.wf(),
                self.iter.text() == old(self).cursor().text(),
                current == if self.iter.rest().len() > 0 {
                    Some(self.iter.rest()[0])
                } else {
                    None
                },
                ({
                    let cur = scan_spec(self.iter.rest(), self.iter.loc().line as nat);
                    &&& tokens@.map_values(|t: Token<'a>| t@) + cur.0 == full.0
                    &&& errors@.map_values(|e: ScannerError<'a>| e@) + cur.1 == full.1
                    &&& cur.2 == full.2
                }),
                forall|i: int| 0 <= i < errors.len() ==> errors[i].line >= 1,
            decreases self.iter.rest().len(),
        {
            let character = current.unwrap();
            let ghost before = self.iter;
            let ghost r = self.iter.rest();
            let ghost line = self.iter.loc().line as nat;
            let ghost prev_t = tokens@.map_values(|t: Token<'a>| t@);
            let ghost prev_e = errors@.map_values(|e: ScannerError<'a>| e@);
            proof {
                before.lemma_wf();
            }
            let result = self.scan_token(character);
            proof {
                let n = lexeme_len(r);
                before.lemma_advance(&self.iter);
                assert(self.iter.text().subrange(before.offset() as int, self.iter.offset() as int)
                    =~= r.take(n as int));
                assert(self.iter.rest() =~= r.skip(n as int));
                self.iter.lemma_wf();
            }
            match result {
                Ok(Some(token)) => {
                    tokens.push(token);
                    proof {
                        assert(tokens@.map_values(|t: Token<'a>| t@) =~= prev_t.push(token@));
                    }
                },
                Ok(None) => {},
                Err(error) => {
                    errors.push(error);
                    proof {
                        assert(errors@.map_values(|e: ScannerError<'a>| e@) =~= prev_e.push(error@));
                    }
                },
            }
            proof {
                let cur = scan_spec(self.iter.rest(), self.iter.loc().line as nat);
                let before_spec = scan_spec(r, line);
                assert(tokens@.map_values(|t: Token<'a>| t@) + cur.0 =~= prev_t + before_spec.0);
                assert(errors@.map_values(|e: ScannerError<'a>| e@) + cur.1 =~= prev_e + before_spec.1);
            }
            current = self.iter.first();
        }
        proof {
            self.iter.lemma_wf();
        }
        let eof = Token::new(TokenType::EOF, self.iter.line());
        tokens.push(eof);
        proof {
            let cur = scan_spec(self.iter.rest(), self.iter.loc().line as nat);
            assert(cur.0 =~= Seq::<SpecToken>::empty());
            assert(cur.1 =~= Seq::<SpecScanError>::empty());
        }
        if errors.len() == 0 {
            proof {
                assert(errors@.map_values(|e: ScannerError<'a>| e@) =~= Seq::<SpecScanError>::empty());
                assert(tokens@.map_values(|t: Token<'a>| t@) =~= full.0.push(eof@));
            }
            Ok(tokens)
        } else {
            proof {
                assert(errors@.map_values(|e: ScannerError<'a>| e@) =~= full.1);
            }
            Err(ScannerErrors::new(errors, self.iter.source))
        }
    }
}

/// Every lexeme takes at least one character and no more than there are.
pub proof fn lemma_lexeme_len_bounds(r: Seq<char>)
    requires
        r.len() > 0,
    ensures
        0 < lexeme_len(r) <= r.len(),
{
    let c = r[0];
    crate::chars::lemma_span_props(r, |x: char| x != '\n');
    crate::chars::lemma_span_props(r, |x: char| is_ident_char(x));
    crate::chars::lemma_span_props(r.drop_first(), |x: char| x != '"');
    crate::chars::lemma_span_props(r, |x: char| is_digit(x));
    let d = span(r, |x: char| is_digit(x));
    if d + 1 < r.len() {
        crate::chars::lemma_span_props(r.skip(d + 1int), |x: char| is_digit(x));
    }
}

/// Scanning ends on the line it started on plus the number of newlines
/// in the text: the `EOF` token sits on the last line.
pub proof fn lemma_scan_end_line(r: Seq<char>, line: nat)
    ensures
        scan_spec(r, line).2 == line + newline_count(r),
    decreases r.len(),
{
    if r.len() > 0 {
        lemma_lexeme_len_bounds(r);
        let n = lexeme_len(r);
        if n > 0 && n <= r.len() {
            lemma_scan_end_line(r.skip(n as int), line + newline_count(r.take(n as int)));
            crate::text::lemma_concat(r.take(n as int), r.skip(n as int));
            assert(r.take(n as int) + r.skip(n as int) =~= r);
        }
    }
}

/// Every token lies between the starting line and the final line, and
/// the tokens come in order of their lines.
pub proof fn lemma_scan_lines_ordered(r: Seq<char>, line: nat)
    ensures
        ({
            let (toks, _, end) = scan_spec(r, line);
            &&& forall|i: int| 0 <= i < toks.len() ==> line <= #[trigger] toks[i].line <= end
            &&& forall|i: int, j: int| 0 <= i <= j < toks.len() ==> #[trigger] toks[i].line <= #[trigger] toks[j].line
        }),
    decreases r.len(),
{
    lemma_scan_end_line(r, line);
    if r.len() > 0 {
        let n = lexeme_len(r);
        if n > 0 && n <= r.len() {
            let next_line = line + newline_count(r.take(n as int));
            lemma_scan_lines_ordered(r.skip(n as int), next_line);
            lemma_scan_end_line(r.skip(n as int), next_line);
            let toks = scan_spec(r, line).0;
            let rest = scan_spec(r.skip(n as int), next_line).0;
            if let Lexeme::Emit(t, v) = lexeme(r) {
                assert forall|i: int| 0 <= i < toks.len() implies #[trigger] toks[i] == if i == 0 {
                    SpecToken { token_type: t, token_value: v, line }
                } else {
                    rest[i - 1]
                } by {}
            }
        }
    }
}

} // verus!
