use crate::chars::{lemma_span_exact, span};
use crate::scanner::Location;
use crate::text::{byte_len, lemma_concat, lemma_take_full, lemma_take_monotone, lemma_take_succ, newline_count, str_to_chars, utf8_width};
use vstd::prelude::*;

verus! {

/// The test for characters other than `stop`.
pub open spec fn not_char(stop: char) -> spec_fn(char) -> bool {
    |c: char| c != stop
}

/// Characters `skip_past_char` consumes from `r`: up to and including the
/// first `stop`, or all of `r`.
pub open spec fn skip_len(r: Seq<char>, stop: char) -> nat {
    let p = span(r, not_char(stop));
    if p < r.len() {
        p + 1
    } else {
        p
    }
}

/// A cursor over the characters of a source text.
pub struct Tokenizer<'a> {
    source: &'a str,
    chars: Vec<char>,
    pos: usize,
    pub location: Location,
}

impl<'a> Tokenizer<'a> {
    /// The whole source text.
    pub closed spec fn text(&self) -> Seq<char> {
        self.chars@
    }

    /// The cursor's current location.
    pub closed spec fn loc(&self) -> Location {
        self.location
    }

    /// The cursor's current location, to hand back to `slice_from` later.
    pub fn current_location(&self) -> (res: Location)
        requires
            self.wf(),
        ensures
            res == self.loc(),
            res.index == byte_len(self.text().take(self.offset() as int)),
    {
        self.location
    }

    /// How many characters have been consumed.
    pub closed spec fn offset(&self) -> nat {
        self.pos as nat
    }

    /// The characters not yet consumed.
    pub open spec fn rest(&self) -> Seq<char> {
        self.text().skip(self.offset() as int)
    }

    /// The characters consumed so far.
    pub open spec fn consumed(&self) -> Seq<char> {
        self.text().take(self.offset() as int)
    }

    /// The cursor's location matches its offset, and nothing overflows.
    pub closed spec fn wf(&self) -> bool {
        &&& self.chars@ == self.source@
        &&& self.pos <= self.chars.len()
        &&& self.chars.len() < usize::MAX
        &&& byte_len(self.chars@) <= usize::MAX
        &&& self.location.index == byte_len(self.chars@.take(self.pos as int))
        &&& self.location.line == 1 + newline_count(self.chars@.take(self.pos as int))
    }

    pub proof fn lemma_wf(&self)
        requires
            self.wf(),
        ensures
            self.offset() <= self.text().len(),
            self.text().len() < usize::MAX,
            self.loc().index == byte_len(self.consumed()),
            self.loc().line == 1 + newline_count(self.consumed()),
            byte_len(self.text()) <= usize::MAX,
    {
    }

    /// Whatever calls a cursor has gone through since `new`, its location
    /// stands on a character boundary of the text, within it: the byte
    /// index and the line are those of the characters consumed, and what
    /// remains is the text after them.
    pub proof fn lemma_location_law(&self)
        requires
            self.wf(),
        ensures
            self.loc().index == byte_len(self.text().take(self.offset() as int)),
            self.loc().index <= byte_len(self.text()),
            self.loc().line == 1 + newline_count(self.text().take(self.offset() as int)),
            self.consumed() + self.rest() == self.text(),
            self.rest().len() > 1 ==> self.rest().len() > 0,
    {
        self.lemma_wf();
        lemma_take_monotone(self.text(), self.offset() as int, self.text().len() as int);
        lemma_take_full(self.text());
        assert(self.consumed() + self.rest() =~= self.text());
    }

    /// Moving from this cursor to a later one on the same text adds the
    /// newlines of the characters in between.
    pub proof fn lemma_advance(&self, later: &Self)
        requires
            self.wf(),
            later.wf(),
            later.text() == self.text(),
            self.offset() <= later.offset(),
        ensures
            later.loc().line == self.loc().line + newline_count(
                self.text().subrange(self.offset() as int, later.offset() as int),
            ),
    {
        let t = self.text();
        assert(t.take(later.offset() as int) =~= t.take(self.offset() as int) + t.subrange(
            self.offset() as int,
            later.offset() as int,
        ));
        lemma_concat(
            t.take(self.offset() as int),
            t.subrange(self.offset() as int, later.offset() as int),
        );
    }


    pub fn new(source: &'a str) -> (res: Self)
        requires
            source@.len() < usize::MAX,
            byte_len(source@) <= usize::MAX,
        ensures
            res.wf(),
            res.text() == source@,
            res.offset() == 0,
            res.loc().index == 0,
            res.loc().line == 1,
    {
        let chars = str_to_chars(source);
        assert(chars@.take(0) =~= Seq::<char>::empty());
        Self { source, chars, pos: 0, location: Location::default() }
    }

    pub fn line(&self) -> (res: usize)
        ensures
            res == self.loc().line,
    {
        self.location.line
    }

    /// The unconsumed part of the source.
    pub fn remaining(&self) -> (res: &'a str)
        requires
            self.wf(),
        ensures
            res@ == self.rest(),
    {
        self.source.substring_char(self.pos, self.chars.len())
    }

    /// An iterator over the unconsumed characters.
    pub fn chars(&self) -> (res: std::str::Chars<'a>)
        requires
            self.wf(),
        ensures
            exists|r: &'a str| r@ == self.rest() && res == vstd::string::spec_iter(r),
    {
        let r = self.remaining();
        r.chars()
    }

    pub fn first(&self) -> (res: Option<char>)
        requires
            self.wf(),
        ensures
            res == if self.rest().len() > 0 {
                Some(self.rest()[0])
            } else {
                None
            },
    {
        if self.pos < self.chars.len() {
            Some(self.chars[self.pos])
        } else {
            None
        }
    }

    pub fn second(&self) -> (res: Option<char>)
        requires
            self.wf(),
        ensures
            res == if self.rest().len() > 1 {
                Some(self.rest()[1])
            } else {
                None
            },
    {
        if self.pos + 1 < self.chars.len() {
            Some(self.chars[self.pos + 1])
        } else {
            None
        }
    }

    /// Consumes one character.
    fn step(&mut self)
        requires
            old(self).wf(),
            old(self).offset() < old(self).text().len(),
        ensures
            final(self).wf(),
            final(self).text() == old(self).text(),
            final(self).offset() == old(self).offset() + 1,
    {
        let c = self.chars[self.pos];
        proof {
            lemma_take_succ(self.chars@, self.pos as int);
            lemma_take_monotone(self.chars@, self.pos + 1, self.chars@.len() as int);
            lemma_take_monotone(self.chars@, 0, self.pos as int);
            lemma_take_full(self.chars@);
        }
        self.location.bump(c);
        self.pos = self.pos + 1;
    }

    /// The text between `location` (an earlier location of this cursor)
    /// and the current location.
    pub fn slice_from(&self, location: Location) -> (res: &'a str)
        requires
            self.wf(),
            exists|k: int|
                0 <= k <= self.offset() && byte_len(#[trigger] self.text().take(k))
                    == location.index,
        ensures
            exists|k: int|
                0 <= k <= self.offset() && byte_len(#[trigger] self.text().take(k))
                    == location.index && res@ == self.text().subrange(k, self.offset() as int),
    {
        let ghost target = choose|k: int|
            0 <= k <= self.offset() && byte_len(#[trigger] self.text().take(k))
                == location.index;
        let mut k: usize = 0;
        let mut bytes: usize = 0;
        proof {
            assert(self.chars@.take(0) =~= Seq::<char>::empty());
            lemma_take_monotone(self.chars@, 0, self.pos as int);
        }
        while bytes < location.index && k < self.pos
            invariant
                self.wf(),
                0 <= k <= self.pos,
                0 <= target <= self.pos,
                bytes == byte_len(self.chars@.take(k as int)),
                byte_len(self.chars@.take(target)) == location.index,
                k <= target,
                bytes <= self.location.index,
            decreases self.pos - k,
        {
            proof {
                lemma_take_succ(self.chars@, k as int);
                lemma_take_monotone(self.chars@, k + 1, self.pos as int);
                if target == k {
                } else {
                    lemma_take_monotone(self.chars@, k as int, target);
                }
            }
            bytes = bytes + utf8_width(self.chars[k]);
            k = k + 1;
            proof {
                if (k as int) > target {
                    lemma_take_monotone(self.chars@, target, k as int);
                    lemma_take_succ(self.chars@, (k - 1) as int);
                    lemma_take_monotone(self.chars@, target, (k - 1) as int);
                }
            }
        }
        proof {
            if (k as int) < target {
                lemma_take_monotone(self.chars@, k as int, target);
                lemma_take_monotone(self.chars@, target, self.pos as int);
            }
        }
        self.source.substring_char(k, self.pos)
    }

    /// The text consumed since the offset `start` (whose location was `loc`).
    fn slice_since(&self, start: Ghost<nat>, loc: Location) -> (res: &'a str)
        requires
            self.wf(),
            start@ <= self.offset(),
            loc.index == byte_len(self.text().take(start@ as int)),
        ensures
            res@ == self.text().subrange(start@ as int, self.offset() as int),
    {
        proof {
            self.lemma_wf();
        }
        let r = self.slice_from(loc);
        proof {
            let k = choose|k: int|
                0 <= k <= self.offset() && byte_len(#[trigger] self.text().take(k))
                    == loc.index && r@ == self.text().subrange(k, self.offset() as int);
            if k < start@ {
                lemma_take_monotone(self.text(), k, start@ as int);
            } else if k > start@ {
                lemma_take_monotone(self.text(), start@ as int, k);
            }
        }
        r
    }

    /// Consumes up to `n` characters and returns them.
    pub fn consume_chars(&mut self, n: usize) -> (res: &'a str)
        requires
            old(self).wf(),
        ensures
            final(self).wf(),
            final(self).text() == old(self).text(),
            final(self).offset() == old(self).offset() + if n < old(self).rest().len() {
                n as nat
            } else {
                old(self).rest().len()
            },
            res@ == old(self).rest().take(final(self).offset() - old(self).offset()),
    {
        let start = self.location;
        let ghost start_pos = self.offset();
        let mut i: usize = 0;
        while i < n && self.pos < self.chars.len()
            invariant
                self.wf(),
                self.text() == old(self).text(),
                self.offset() == old(self).offset() + i,
                i <= n,
            decreases n - i,
        {
            self.step();
            i = i + 1;
        }
        let r = self.slice_since(Ghost(start_pos), start);
        assert(r@ =~= old(self).rest().take(self.offset() - old(self).offset()));
        r
    }

    /// Consumes and returns the next character, if any.
    pub fn pop(&mut self) -> (res: Option<char>)
        requires
            old(self).wf(),
        ensures
            final(self).wf(),
            final(self).text() == old(self).text(),
            res == if old(self).rest().len() > 0 {
                Some(old(self).rest()[0])
            } else {
                None
            },
            final(self).offset() == old(self).offset() + if old(self).rest().len() > 0 {
                1nat
            } else {
                0nat
            },
    {
        let result = self.first();
        if result.is_some() {
            self.step();
        }
        result
    }

    /// Consumes characters while `predicate` holds of them.
    pub fn advance_while(&mut self, predicate: impl Fn(char) -> bool)
        requires
            old(self).wf(),
            forall|c: char| call_requires(predicate, (c,)),
        ensures
            final(self).wf(),
            final(self).text() == old(self).text(),
            old(self).offset() <= final(self).offset() <= old(self).text().len(),
            forall|i: int|
                old(self).offset() <= i < final(self).offset() ==> call_ensures(
                    predicate,
                    (old(self).text()[i],),
                    true,
                ),
            final(self).offset() < old(self).text().len() ==> call_ensures(
                predicate,
                (old(self).text()[final(self).offset() as int],),
                false,
            ),
    {
        let mut going = true;
        while going && self.pos < self.chars.len()
            invariant
                self.wf(),
                self.text() == old(self).text(),
                old(self).offset() <= self.offset() <= self.text().len(),
                forall|c: char| call_requires(predicate, (c,)),
                forall|i: int|
                    old(self).offset() <= i < self.offset() ==> call_ensures(
                        predicate,
                        (old(self).text()[i],),
                        true,
                    ),
                !going ==> self.offset() < self.text().len() && call_ensures(
                    predicate,
                    (old(self).text()[self.offset() as int],),
                    false,
                ),
            decreases self.text().len() - self.offset(), if going {
                1int
            } else {
                0int
            },
        {
            let c = self.chars[self.pos];
            if predicate(c) {
                self.step();
            } else {
                going = false;
            }
        }
    }

    /// Consumes characters up to and including the next `stop_char`, or
    /// to the end when there is none.
    pub fn skip_past_char(&mut self, stop_char: char)
        requires
            old(self).wf(),
        ensures
            final(self).wf(),
            final(self).text() == old(self).text(),
            final(self).offset() == old(self).offset() + skip_len(old(self).rest(), stop_char),
    {
        let ghost r = self.rest();
        let mut done = false;
        while !done
            invariant
                self.wf(),
                self.text() == old(self).text(),
                old(self).offset() <= self.offset(),
                r == old(self).rest(),
                !done ==> forall|i: int| 0 <= i < self.offset() - old(self).offset() ==> r[i] != stop_char,
                done ==> self.offset() == old(self).offset() + skip_len(r, stop_char),
            decreases self.rest().len(), if done { 0int } else { 1int },
        {
            let ghost off = self.offset();
            let ghost before_rest = self.rest();
            proof {
                self.lemma_wf();
            }
            match self.pop() {
                Some(character) => {
                    if character == stop_char {
                        done = true;
                        proof {
                            let m = off - old(self).offset();
                            assert(r[m] == before_rest[0]);
                            assert(r[m] == stop_char);
                            lemma_span_exact(r, not_char(stop_char), m);
                        }
                    }
                },
                None => {
                    done = true;
                    proof {
                        let m = off - old(self).offset();
                        assert(before_rest.len() == 0);
                        assert(m == r.len());
                        lemma_span_exact(r, not_char(stop_char), m);
                    }
                },
            }
        }
    }
}

} // verus!
