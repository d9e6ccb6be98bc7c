use vstd::prelude::*;

verus! {

broadcast use vstd::string::group_string_axioms;

/// Number of bytes that UTF-8 uses for `c`.
pub open spec fn char_width(c: char) -> nat {
    let u = c as u32;
    if u < 0x80 {
        1
    } else if u < 0x800 {
        2
    } else if u < 0x10000 {
        3
    } else {
        4
    }
}

/// Number of bytes that UTF-8 uses for the characters `s`.
pub open spec fn byte_len(s: Seq<char>) -> nat
    decreases s.len(),
{
    if s.len() == 0 {
        0
    } else {
        byte_len(s.drop_last()) + char_width(s.last())
    }
}

/// Number of `'\n'` characters in `s`.
pub open spec fn newline_count(s: Seq<char>) -> nat
    decreases s.len(),
{
    if s.len() == 0 {
        0
    } else {
        newline_count(s.drop_last()) + if s.last() == '\n' {
            1nat
        } else {
            0nat
        }
    }
}

/// The number of bytes that UTF-8 uses for `c` (`char::len_utf8`).
pub fn utf8_width(c: char) -> (res: usize)
    ensures
        res == char_width(c),
        1 <= res <= 4,
{
    let u = c as u32;
    if u < 0x80 {
        1
    } else if u < 0x800 {
        2
    } else if u < 0x10000 {
        3
    } else {
        4
    }
}

pub proof fn lemma_byte_len_push(s: Seq<char>, c: char)
    ensures
        byte_len(s.push(c)) == byte_len(s) + char_width(c),
        newline_count(s.push(c)) == newline_count(s) + if c == '\n' {
            1nat
        } else {
            0nat
        },
{
    assert(s.push(c).drop_last() =~= s);
}

pub proof fn lemma_take_succ(s: Seq<char>, k: int)
    requires
        0 <= k < s.len(),
    ensures
        s.take(k + 1) =~= s.take(k).push(s[k]),
        byte_len(s.take(k + 1)) == byte_len(s.take(k)) + char_width(s[k]),
        newline_count(s.take(k + 1)) == newline_count(s.take(k)) + if s[k] == '\n' {
            1nat
        } else {
            0nat
        },
{
    assert(s.take(k + 1) =~= s.take(k).push(s[k]));
    lemma_byte_len_push(s.take(k), s[k]);
}

/// Taking more characters never gives fewer bytes or newlines, and every
/// character adds at least one byte.
pub proof fn lemma_take_monotone(s: Seq<char>, i: int, j: int)
    requires
        0 <= i <= j <= s.len(),
    ensures
        byte_len(s.take(i)) + (j - i) <= byte_len(s.take(j)),
        newline_count(s.take(i)) <= newline_count(s.take(j)),
        newline_count(s.take(j)) <= newline_count(s.take(i)) + (j - i),
    decreases j - i,
{
    if i < j {
        lemma_take_monotone(s, i, j - 1);
        lemma_take_succ(s, j - 1);
    }
}

/// Newlines and bytes add up over concatenation.
pub proof fn lemma_concat(a: Seq<char>, b: Seq<char>)
    ensures
        newline_count(a + b) == newline_count(a) + newline_count(b),
        byte_len(a + b) == byte_len(a) + byte_len(b),
    decreases b.len(),
{
    if b.len() == 0 {
        assert(a + b =~= a);
    } else {
        lemma_concat(a, b.drop_last());
        assert((a + b).drop_last() =~= a + b.drop_last());
        assert((a + b).last() == b.last());
    }
}

/// A text without `'\n'` has no newlines.
pub proof fn lemma_no_newline(s: Seq<char>)
    requires
        forall|i: int| 0 <= i < s.len() ==> s[i] != '\n',
    ensures
        newline_count(s) == 0,
    decreases s.len(),
{
    if s.len() > 0 {
        lemma_no_newline(s.drop_last());
    }
}

pub proof fn lemma_take_full(s: Seq<char>)
    ensures
        s.take(s.len() as int) =~= s,
{
}

/// Appends `c` to `s` (`String::push`).
#[verifier::external_body]
pub(crate) fn push_char(s: &mut String, c: char)
    ensures
        final(s)@ == old(s)@.push(c),
{
    s.push(c);
}

/// The characters of `s`, in order.
pub fn str_to_chars(s: &str) -> (res: Vec<char>)
    ensures
        res@ == s@,
{
    let mut out: Vec<char> = Vec::new();
    for c in it: s.chars()
        invariant
            out@ == it.seq().take(it.index() as int),
    {
        out.push(c);
    }
    out
}

/// Whether `a` and `b` hold the same characters.
pub fn str_eq(a: &str, b: &str) -> (res: bool)
    ensures
        res == (a@ == b@),
{
    let x = str_to_chars(a);
    let y = str_to_chars(b);
    chars_eq(&x, &y)
}

/// Whether `a` and `b` hold the same characters.
pub fn chars_eq(a: &Vec<char>, b: &Vec<char>) -> (res: bool)
    ensures
        res == (a@ == b@),
{
    if a.len() != b.len() {
        return false;
    }
    let n = a.len();
    for i in 0..n
        invariant
            n == a.len(),
            n == b.len(),
            forall|j: int| 0 <= j < i ==> a@[j] == b@[j],
    {
        if a[i] != b[i] {
            return false;
        }
    }
    assert(a@ =~= b@);
    true
}

/// A `String` holding the characters `v`.
pub fn string_from_chars(v: &Vec<char>) -> (res: String)
    ensures
        res@ == v@,
{
    let mut s = String::new();
    for i in 0..v.len()
        invariant
            s@ == v@.take(i as int),
    {
        push_char(&mut s, v[i]);
        assert(v@.take(i + 1) =~= v@.take(i as int).push(v@[i as int]));
    }
    assert(v@.take(v.len() as int) =~= v@);
    s
}


/// The decimal digit for `d` (below 10).
pub open spec fn digit_char(d: nat) -> char {
    if d == 0 {
        '0'
    } else if d == 1 {
        '1'
    } else if d == 2 {
        '2'
    } else if d == 3 {
        '3'
    } else if d == 4 {
        '4'
    } else if d == 5 {
        '5'
    } else if d == 6 {
        '6'
    } else if d == 7 {
        '7'
    } else if d == 8 {
        '8'
    } else {
        '9'
    }
}

/// The decimal numeral for `n`.
pub open spec fn decimal(n: nat) -> Seq<char>
    decreases n,
{
    if n < 10 {
        seq![digit_char(n)]
    } else {
        decimal(n / 10).push(digit_char(n % 10))
    }
}

/// `n` copies of `c`.
pub open spec fn repeat_char(c: char, n: nat) -> Seq<char> {
    Seq::new(n, |i: int| c)
}

/// `s` right-aligned in a field of `width` characters (spaces on the left).
pub open spec fn pad_left(s: Seq<char>, width: nat) -> Seq<char> {
    if s.len() < width {
        repeat_char(' ', (width - s.len()) as nat) + s
    } else {
        s
    }
}

/// Line `k` (from 0) of `s`, splitting at `'\n'`; `None` when `s` has
/// fewer lines.
pub open spec fn nth_line(s: Seq<char>, k: nat) -> Option<Seq<char>>
    decreases k,
{
    let p = crate::chars::span(s, |c: char| c != '\n');
    if k == 0 {
        Some(s.take(p as int))
    } else if p == s.len() {
        None
    } else {
        nth_line(s.skip(p + 1int), (k - 1) as nat)
    }
}

/// The first position at or after `i` where `sub` occurs in `s`.
pub open spec fn find_from(s: Seq<char>, sub: Seq<char>, i: int) -> Option<int>
    decreases s.len() + 1 - i,
{
    if i < 0 || i + sub.len() > s.len() {
        None
    } else if s.subrange(i, i + sub.len()) == sub {
        Some(i)
    } else {
        find_from(s, sub, i + 1)
    }
}

fn digit_of(d: usize) -> (res: char)
    requires
        d < 10,
    ensures
        res == digit_char(d as nat),
{
    if d == 0 {
        '0'
    } else if d == 1 {
        '1'
    } else if d == 2 {
        '2'
    } else if d == 3 {
        '3'
    } else if d == 4 {
        '4'
    } else if d == 5 {
        '5'
    } else if d == 6 {
        '6'
    } else if d == 7 {
        '7'
    } else if d == 8 {
        '8'
    } else {
        '9'
    }
}

/// The decimal numeral for `n`.
pub fn decimal_chars(n: usize) -> (res: Vec<char>)
    ensures
        res@ == decimal(n as nat),
    decreases n,
{
    if n < 10 {
        vec![digit_of(n)]
    } else {
        let mut v = decimal_chars(n / 10);
        v.push(digit_of(n % 10));
        v
    }
}

/// Appends the characters of `s` to `out`.
pub fn push_str(out: &mut Vec<char>, s: &str)
    ensures
        final(out)@ == old(out)@ + s@,
{
    let v = str_to_chars(s);
    push_all(out, &v);
}

/// Appends `v` to `out`.
pub fn push_all(out: &mut Vec<char>, v: &Vec<char>)
    ensures
        final(out)@ == old(out)@ + v@,
{
    for i in 0..v.len()
        invariant
            out@ == old(out)@ + v@.take(i as int),
    {
        out.push(v[i]);
        assert(v@.take(i + 1) =~= v@.take(i as int).push(v@[i as int]));
    }
    assert(v@.take(v.len() as int) =~= v@);
}

/// Appends `n` copies of `c` to `out`.
pub fn push_repeat(out: &mut Vec<char>, c: char, n: usize)
    ensures
        final(out)@ == old(out)@ + repeat_char(c, n as nat),
{
    for i in 0..n
        invariant
            out@ == old(out)@ + repeat_char(c, i as nat),
    {
        out.push(c);
        assert(repeat_char(c, (i + 1) as nat) =~= repeat_char(c, i as nat).push(c));
    }
}

/// Appends `s` right-aligned in a field of `width` characters.
pub fn push_padded(out: &mut Vec<char>, s: &Vec<char>, width: usize)
    ensures
        final(out)@ == old(out)@ + pad_left(s@, width as nat),
{
    if s.len() < width {
        push_repeat(out, ' ', width - s.len());
        push_all(out, s);
        assert(final(out)@ =~= old(out)@ + pad_left(s@, width as nat));
    } else {
        push_all(out, s);
    }
}

/// Line `k` (from 0) of `s`, splitting at `'\n'` (`str::split('\n').nth(k)`).
pub fn nth_line_of(s: &str, k: usize) -> (res: Option<&str>)
    ensures
        match res {
            Some(l) => nth_line(s@, k as nat) == Some(l@),
            None => nth_line(s@, k as nat) is None,
        },
{
    let v = str_to_chars(s);
    let n = v.len();
    let mut start: usize = 0;
    let mut i: usize = 0;
    assert(s@.skip(0) =~= s@);
    loop
        invariant
            v@ == s@,
            n == v@.len(),
            start <= n,
            i <= k,
            nth_line(s@, k as nat) == nth_line(s@.skip(start as int), (k - i) as nat),
        decreases k - i,
    {
        let ghost rest = s@.skip(start as int);
        let mut end = start;
        while end < n && v[end] != '\n'
            invariant
                v@ == s@,
                n == v@.len(),
                start <= end <= n,
                rest == s@.skip(start as int),
                forall|j: int| start <= j < end ==> v@[j] != '\n',
            decreases n - end,
        {
            end = end + 1;
        }
        proof {
            crate::chars::lemma_span_exact(rest, |c: char| c != '\n', (end - start) as int);
        }
        if i == k {
            let l = s.substring_char(start, end);
            assert(l@ =~= rest.take((end - start) as int));
            return Some(l);
        }
        if end == n {
            return None;
        }
        assert(rest.skip((end - start) + 1int) =~= s@.skip(end + 1int));
        start = end + 1;
        i = i + 1;
    }
}

/// Whether `sub` occurs in `s` at position `i`.
fn occurs_at(s: &Vec<char>, sub: &Vec<char>, i: usize) -> (res: bool)
    requires
        i + sub.len() <= s.len(),
    ensures
        res == (s@.subrange(i as int, i + sub.len()) == sub@),
{
    let m = sub.len();
    for j in 0..m
        invariant
            m == sub.len(),
            i + m <= s.len(),
            forall|t: int| 0 <= t < j ==> s@[i + t] == sub@[t],
    {
        if s[i + j] != sub[j] {
            assert(s@.subrange(i as int, i + m)[j as int] != sub@[j as int]);
            return false;
        }
    }
    assert(s@.subrange(i as int, i + m) =~= sub@);
    true
}

/// The first character position where `sub` occurs in `s`.
pub fn find_chars(s: &Vec<char>, sub: &Vec<char>) -> (res: Option<usize>)
    ensures
        match res {
            Some(k) => find_from(s@, sub@, 0) == Some(k as int),
            None => find_from(s@, sub@, 0) is None,
        },
{
    let n = s.len();
    let m = sub.len();
    if m > n {
        return None;
    }
    if m == 0 {
        assert(s@.subrange(0, 0) =~= sub@);
        return Some(0);
    }
    let mut i: usize = 0;
    while i <= n - m
        invariant
            n == s.len(),
            m == sub.len(),
            m <= n,
            1 <= m,
            i <= n - m + 1,
            find_from(s@, sub@, 0) == find_from(s@, sub@, i as int),
        decreases n - m + 1 - i,
    {
        if occurs_at(s, sub, i) {
            return Some(i);
        }
        i = i + 1;
    }
    None
}

/// The UTF-8 byte count of the first `k` characters of `s`.
pub fn byte_offset(s: &Vec<char>, k: usize) -> (res: usize)
    requires
        k <= s.len(),
        byte_len(s@) <= usize::MAX,
    ensures
        res == byte_len(s@.take(k as int)),
{
    let mut b: usize = 0;
    proof {
        assert(s@.take(0) =~= Seq::<char>::empty());
    }
    for i in 0..k
        invariant
            k <= s.len(),
            byte_len(s@) <= usize::MAX,
            b == byte_len(s@.take(i as int)),
    {
        proof {
            lemma_take_succ(s@, i as int);
            lemma_take_monotone(s@, i + 1, s@.len() as int);
            lemma_take_full(s@);
        }
        b = b + utf8_width(s[i]);
    }
    b
}

/// How `{:?}` shows a string: in double quotes, each character escaped as
/// `char::escape_debug` does. The escaping rules are not written out here:
/// they depend on Unicode tables.
pub uninterp spec fn str_debug(s: Seq<char>) -> Seq<char>;

/// `s` formatted with `{:?}` (the `Debug` impl of `str`). The contract only
/// names the result: the same text always gives the same report.
#[verifier::external_body]
pub(crate) fn debug_text(s: &str) -> (res: String)
    ensures
        res@ == str_debug(s@),
{
    format!("{s:?}")
}

/// Line `k` of a text is part of it, so it has no more bytes.
pub proof fn lemma_nth_line_bytes(s: Seq<char>, k: nat)
    ensures
        nth_line(s, k) matches Some(l) ==> byte_len(l) <= byte_len(s) && l.len() <= s.len(),
    decreases k,
{
    let p = crate::chars::span(s, |c: char| c != '\n');
    crate::chars::lemma_span_props(s, |c: char| c != '\n');
    lemma_take_full(s);
    if k == 0 {
        lemma_take_monotone(s, p as int, s.len() as int);
    } else if p < s.len() {
        lemma_nth_line_bytes(s.skip(p + 1int), (k - 1) as nat);
        assert(s =~= s.take(p + 1int) + s.skip(p + 1int));
        lemma_concat(s.take(p + 1int), s.skip(p + 1int));
    }
}

/// A match found by `find_from` lies inside `s`.
pub proof fn lemma_find_from_bound(s: Seq<char>, sub: Seq<char>, i: int)
    ensures
        find_from(s, sub, i) matches Some(k) ==> i <= k && k + sub.len() <= s.len(),
    decreases s.len() + 1 - i,
{
    if !(i < 0 || i + sub.len() > s.len()) && s.subrange(i, i + sub.len()) != sub {
        lemma_find_from_bound(s, sub, i + 1);
    }
}
} // verus!
