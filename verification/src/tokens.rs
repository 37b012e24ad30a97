//! Whitespace tokenization of a single config line.
//!
//! A directive line is read as a sequence of words separated by ASCII
//! whitespace; the parser only ever looks at the first word (the keyword)
//! and the second word (the value).

use vstd::prelude::*;

verus! {

/// The characters that `str::split_ascii_whitespace` treats as separators.
pub open spec fn is_config_ws(c: char) -> bool {
    c == ' ' || c == '\t' || c == '\n' || c == '\x0c' || c == '\r'
}

/// Index of the first non-whitespace character at or after `i`, or the
/// length of `s` if every remaining character is whitespace.
pub open spec fn skip_ws(s: Seq<char>, i: int) -> int
    decreases s.len() - i,
{
    if i < 0 || i >= s.len() {
        s.len() as int
    } else if is_config_ws(s[i]) {
        skip_ws(s, i + 1)
    } else {
        i
    }
}

/// Index of the first whitespace character at or after `i`, or the length
/// of `s`: the exclusive end of a word that starts at `i`.
pub open spec fn token_end(s: Seq<char>, i: int) -> int
    decreases s.len() - i,
{
    if i < 0 || i >= s.len() {
        s.len() as int
    } else if is_config_ws(s[i]) {
        i
    } else {
        token_end(s, i + 1)
    }
}

/// The first whitespace-separated word of `s`, or `None` for a blank line.
pub open spec fn first_token(s: Seq<char>) -> Option<Seq<char>> {
    let a = skip_ws(s, 0);
    if a == s.len() {
        None
    } else {
        Some(s.subrange(a, token_end(s, a)))
    }
}

/// The second whitespace-separated word of `s`, or the empty sequence when
/// the line has fewer than two words.
pub open spec fn second_token_or_empty(s: Seq<char>) -> Seq<char> {
    let a = skip_ws(s, 0);
    let b = token_end(s, a);
    let c = skip_ws(s, b);
    if c == s.len() {
        Seq::empty()
    } else {
        s.subrange(c, token_end(s, c))
    }
}

/// A sequence free of ASCII whitespace, as every extracted word is.
pub open spec fn ws_free(s: Seq<char>) -> bool {
    forall|j: int| 0 <= j < s.len() ==> !is_config_ws(s[j])
}

pub proof fn lemma_skip_ws_bounds(s: Seq<char>, i: int)
    requires
        0 <= i <= s.len(),
    ensures
        i <= skip_ws(s, i) <= s.len(),
        skip_ws(s, i) < s.len() ==> !is_config_ws(s[skip_ws(s, i)]),
        forall|j: int| i <= j < skip_ws(s, i) ==> is_config_ws(s[j]),
    decreases s.len() - i,
{
    if i < s.len() && is_config_ws(s[i]) {
        lemma_skip_ws_bounds(s, i + 1);
    }
}

pub proof fn lemma_token_end_bounds(s: Seq<char>, i: int)
    requires
        0 <= i <= s.len(),
    ensures
        i <= token_end(s, i) <= s.len(),
        token_end(s, i) < s.len() ==> is_config_ws(s[token_end(s, i)]),
        forall|j: int| i <= j < token_end(s, i) ==> !is_config_ws(s[j]),
    decreases s.len() - i,
{
    if i < s.len() && !is_config_ws(s[i]) {
        lemma_token_end_bounds(s, i + 1);
    }
}

/// Every word that tokenization hands out is free of whitespace.
pub proof fn lemma_tokens_ws_free(s: Seq<char>)
    ensures
        first_token(s) is Some ==> ws_free(first_token(s)->Some_0),
        ws_free(second_token_or_empty(s)),
{
    lemma_skip_ws_bounds(s, 0);
    let a = skip_ws(s, 0);
    lemma_token_end_bounds(s, a);
    let b = token_end(s, a);
    lemma_skip_ws_bounds(s, b);
    let c = skip_ws(s, b);
    lemma_token_end_bounds(s, c);
}

pub proof fn lemma_skip_ws_through(s: Seq<char>, a: int, b: int)
    requires
        0 <= a <= b <= s.len(),
        forall|j: int| a <= j < b ==> is_config_ws(s[j]),
    ensures
        skip_ws(s, a) == skip_ws(s, b),
    decreases b - a,
{
    if a < b {
        assert(skip_ws(s, a) == skip_ws(s, a + 1));
        lemma_skip_ws_through(s, a + 1, b);
    }
}

pub proof fn lemma_token_end_through(s: Seq<char>, a: int, b: int)
    requires
        0 <= a <= b <= s.len(),
        forall|j: int| a <= j < b ==> !is_config_ws(s[j]),
    ensures
        token_end(s, a) == token_end(s, b),
    decreases b - a,
{
    if a < b {
        assert(token_end(s, a) == token_end(s, a + 1));
        lemma_token_end_through(s, a + 1, b);
    }
}

/// Tokenization of a rendered directive line: whitespace, then a keyword,
/// then one separating whitespace character, then a whitespace-free value.
/// The first word is the keyword and the second word is the value (empty
/// value included).
pub proof fn lemma_keyword_value_line(head: Seq<char>, v: Seq<char>, p: int)
    requires
        0 <= p,
        p + 2 <= head.len(),
        forall|j: int| 0 <= j < p ==> is_config_ws(head[j]),
        forall|j: int| p <= j < head.len() - 1 ==> !is_config_ws(head[j]),
        is_config_ws(head[head.len() - 1]),
        ws_free(v),
    ensures
        first_token(head + v) == Some(head.subrange(p, head.len() - 1)),
        second_token_or_empty(head + v) == v,
{
    let s = head + v;
    let n = head.len() as int;
    let len = s.len() as int;
    assert(forall|j: int| 0 <= j < n ==> s[j] == head[j]);
    assert(forall|j: int| n <= j < len ==> s[j] == v[j - n]);
    lemma_skip_ws_through(s, 0, p);
    assert(skip_ws(s, p) == p);
    lemma_token_end_through(s, p, n - 1);
    assert(token_end(s, n - 1) == n - 1);
    assert(first_token(s) == Some(s.subrange(p, n - 1)));
    assert(s.subrange(p, n - 1) =~= head.subrange(p, n - 1));
    assert(skip_ws(s, n - 1) == skip_ws(s, n));
    if v.len() == 0 {
        assert(skip_ws(s, n) == len);
        assert(second_token_or_empty(s) =~= v);
    } else {
        assert(!is_config_ws(s[n]));
        assert(skip_ws(s, n) == n);
        lemma_token_end_through(s, n, len);
        assert(token_end(s, len) == len);
        assert(second_token_or_empty(s) == s.subrange(n, len));
        assert(s.subrange(n, len) =~= v);
    }
}

fn is_ws_char(c: char) -> (r: bool)
    ensures
        r == is_config_ws(c),
{
    c == ' ' || c == '\t' || c == '\n' || c == '\x0c' || c == '\r'
}

fn ws_at(s: &str, i: usize) -> (r: bool)
    requires
        i < s@.len(),
    ensures
        r == is_config_ws(s@[i as int]),
{
    is_ws_char(s.get_char(i))
}

fn scan_non_ws(s: &str, from: usize, n: usize) -> (r: usize)
    requires
        n == s@.len(),
        from <= n,
    ensures
        r == skip_ws(s@, from as int),
        from <= r <= n,
{
    let mut i = from;
    while i < n && ws_at(s, i)
        invariant
            from <= i <= n,
            n == s@.len(),
            skip_ws(s@, from as int) == skip_ws(s@, i as int),
        decreases n - i,
    {
        assert(skip_ws(s@, i as int) == skip_ws(s@, i + 1));
        i = i + 1;
    }
    assert(skip_ws(s@, i as int) == i);
    i
}

fn scan_token_end(s: &str, from: usize, n: usize) -> (r: usize)
    requires
        n == s@.len(),
        from <= n,
    ensures
        r == token_end(s@, from as int),
        from <= r <= n,
{
    let mut i = from;
    while i < n && !ws_at(s, i)
        invariant
            from <= i <= n,
            n == s@.len(),
            token_end(s@, from as int) == token_end(s@, i as int),
        decreases n - i,
    {
        assert(token_end(s@, i as int) == token_end(s@, i + 1));
        i = i + 1;
    }
    assert(token_end(s@, i as int) == i);
    i
}

/// The first word of `line` (`None` for a blank line) together with the
/// second word (empty when the line has fewer than two words).
pub fn line_first_two_tokens(line: &str) -> (r: (Option<String>, String))
    ensures
        r.0 is Some <==> first_token(line@) is Some,
        r.0 is Some ==> r.0->Some_0@ == first_token(line@)->Some_0,
        r.1@ == second_token_or_empty(line@),
{
    let n = line.unicode_len();
    let a = scan_non_ws(line, 0, n);
    if a == n {
        (None, String::new())
    } else {
        let b = scan_token_end(line, a, n);
        let tok1 = String::from_str(line.substring_char(a, b));
        let c = scan_non_ws(line, b, n);
        let tok2 = if c == n {
            String::new()
        } else {
            let d = scan_token_end(line, c, n);
            String::from_str(line.substring_char(c, d))
        };
        (Some(tok1), tok2)
    }
}

} // verus!
