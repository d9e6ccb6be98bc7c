use vstd::prelude::*;

verus! {

/// ASCII decimal digit (`char::is_ascii_digit`).
pub open spec fn is_digit(c: char) -> bool {
    '0' <= c && c <= '9'
}

/// ASCII letter (`char::is_ascii_alphabetic`).
pub open spec fn is_alpha(c: char) -> bool {
    ('a' <= c && c <= 'z') || ('A' <= c && c <= 'Z')
}

/// A character that may continue an identifier.
pub open spec fn is_ident_char(c: char) -> bool {
    is_alpha(c) || is_digit(c) || c == '_'
}

/// Length of the longest prefix of `s` whose characters all satisfy `p`.
pub open spec fn span(s: Seq<char>, p: spec_fn(char) -> bool) -> nat
    decreases s.len(),
{
    if s.len() == 0 || !p(s[0]) {
        0
    } else {
        1 + span(s.drop_first(), p)
    }
}

/// `span` is the first index at which `p` fails (or the length).
pub proof fn lemma_span_exact(s: Seq<char>, p: spec_fn(char) -> bool, m: int)
    requires
        0 <= m <= s.len(),
        forall|i: int| 0 <= i < m ==> p(#[trigger] s[i]),
        m == s.len() || !p(s[m]),
    ensures
        span(s, p) == m,
    decreases m,
{
    if m > 0 {
        assert forall|i: int| 0 <= i < m - 1 implies p(#[trigger] s.drop_first()[i]) by {
            assert(s.drop_first()[i] == s[i + 1]);
        }
        lemma_span_exact(s.drop_first(), p, m - 1);
    }
}

/// Facts about `span`: bounded, all inside satisfy `p`, the next does not.
pub proof fn lemma_span_props(s: Seq<char>, p: spec_fn(char) -> bool)
    ensures
        span(s, p) <= s.len(),
        forall|i: int| 0 <= i < span(s, p) ==> p(#[trigger] s[i]),
        span(s, p) < s.len() ==> !p(s[span(s, p) as int]),
    decreases s.len(),
{
    if s.len() > 0 && p(s[0]) {
        lemma_span_props(s.drop_first(), p);
        assert forall|i: int| 0 <= i < span(s, p) implies p(#[trigger] s[i]) by {
            if i > 0 {
                assert(s[i] == s.drop_first()[i - 1]);
            }
        }
    }
}

pub fn ascii_digit(c: char) -> (res: bool)
    ensures
        res == is_digit(c),
{
    '0' <= c && c <= '9'
}

pub fn ascii_alpha(c: char) -> (res: bool)
    ensures
        res == is_alpha(c),
{
    ('a' <= c && c <= 'z') || ('A' <= c && c <= 'Z')
}

pub fn ident_char(c: char) -> (res: bool)
    ensures
        res == is_ident_char(c),
{
    ascii_alpha(c) || ascii_digit(c) || c == '_'
}

} // verus!
