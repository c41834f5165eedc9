use vstd::prelude::*;
use crate::ast::{Identifier, Literal};
use crate::strings::{chars_of, string_from};
use crate::text::{is_whitespace, is_ws};
use crate::token::Token;

verus! {

/// The text of a script, with its characters at hand.
pub struct Source {
    pub text: String,
    pub chars: Vec<char>,
}

impl Source {
    /// The characters are those of the text.
    pub open spec fn wf(&self) -> bool {
        self.chars@ == self.text@
    }

    /// The source with the text `text`.
    pub fn new(text: &str) -> (r: Source)
        ensures
            r.wf(),
            r.text@ == text@,
    {
        Source { text: string_from(text), chars: chars_of(text) }
    }

    /// The text from `from` to `to`.
    pub(crate) fn slice(&self, from: usize, to: usize) -> (r: String)
        requires
            self.wf(),
            from <= to <= self.chars@.len(),
        ensures
            r@ == self.chars@.subrange(from as int, to as int),
    {
        string_from(self.text.as_str().substring_char(from, to))
    }
}

// ---------------------------------------------------------------------
// Punctuation.

/// The punctuation token of the character `c`, if it is one.
pub open spec fn punct_v(c: char) -> Option<Token> {
    if c == '\\' { Some(Token::BSlash) }
    else if c == '=' { Some(Token::Eq) }
    else if c == '(' { Some(Token::LParen) }
    else if c == ')' { Some(Token::RParen) }
    else if c == '{' { Some(Token::LBrace) }
    else if c == '}' { Some(Token::RBrace) }
    else if c == ';' { Some(Token::SColon) }
    else if c == ':' { Some(Token::Colon) }
    else if c == ',' { Some(Token::Comma) }
    else if c == '.' { Some(Token::Dot) }
    else { None }
}

/// A punctuation character at `at`: its token and the position after it.
pub fn punctuation(src: &Source, at: usize) -> (r: Option<(Token, usize)>)
    requires
        src.wf(),
    ensures
        match r {
            Some((t, end)) => at < src.chars@.len() && punct_v(src.chars@[at as int]) == Some(t) && end == at + 1,
            None => at >= src.chars@.len() || punct_v(src.chars@[at as int]) is None,
        },
{
    if at >= src.chars.len() {
        return None;
    }
    let c = src.chars[at];
    let t = if c == '\\' { Token::BSlash }
        else if c == '=' { Token::Eq }
        else if c == '(' { Token::LParen }
        else if c == ')' { Token::RParen }
        else if c == '{' { Token::LBrace }
        else if c == '}' { Token::RBrace }
        else if c == ';' { Token::SColon }
        else if c == ':' { Token::Colon }
        else if c == ',' { Token::Comma }
        else if c == '.' { Token::Dot }
        else { return None; };
    Some((t, at + 1))
}

// ---------------------------------------------------------------------
// Comments.

/// `*/` stands at position `k` of `s`.
pub open spec fn closes_at(s: Seq<char>, k: int) -> bool {
    0 <= k && k + 1 < s.len() && s[k] == '*' && s[k + 1] == '/'
}

/// A block comment starts at `at` (with `/*`) and the first `*/` after
/// that opening ends at `end`.
pub open spec fn comment_at(s: Seq<char>, at: int, end: int) -> bool {
    &&& closes_at(s, at) == false
    &&& at + 1 < s.len() && s[at] == '/' && s[at + 1] == '*'
    &&& closes_at(s, end - 2)
    &&& at + 2 <= end - 2
    &&& forall|k: int| at + 2 <= k < end - 2 ==> !closes_at(s, k)
}

/// A block comment at `at`: the whole comment, from `/*` to the first `*/`
/// after it, and the position after it. There is none when the comment is
/// never closed.
pub fn comment(src: &Source, at: usize) -> (r: Option<(Token, usize)>)
    requires
        src.wf(),
    ensures
        match r {
            Some((Token::Comment(t), end)) => comment_at(src.chars@, at as int, end as int)
                && t@ == src.chars@.subrange(at as int, end as int),
            Some(_) => false,
            None => forall|end: int| !comment_at(src.chars@, at as int, end),
        },
        r matches Some((_, end)) ==> at < end <= src.chars@.len(),
{
    let n = src.chars.len();
    if !(at < n && n - at >= 2 && src.chars[at] == '/' && src.chars[at + 1] == '*') {
        return None;
    }
    let mut k = at + 2;
    while k < n - 1
        invariant
            src.wf(),
            n >= 2,
            at + 2 <= k <= n,
            n == src.chars@.len(),
            src.chars@[at as int] == '/' && src.chars@[at + 1] == '*',
            forall|j: int| at + 2 <= j < k ==> !closes_at(src.chars@, j),
        decreases n - k,
    {
        if src.chars[k] == '*' && src.chars[k + 1] == '/' {
            let end = k + 2;
            proof {
                assert(!closes_at(src.chars@, at as int));
            }
            return Some((Token::Comment(src.slice(at, end)), end));
        }
        k += 1;
    }
    proof {
        assert forall|end: int| !comment_at(src.chars@, at as int, end) by {
            if comment_at(src.chars@, at as int, end) {
                assert(closes_at(src.chars@, end - 2));
                assert(end - 2 >= k);
            }
        }
    }
    None
}

// ---------------------------------------------------------------------
// Identifiers.

/// A character that can stand in a name: not white space, nor one of
/// `<>(){};:,`.
pub open spec fn ident_char(c: char) -> bool {
    !is_ws(c) && c != '<' && c != '>' && c != '(' && c != ')' && c != '{' && c != '}' && c != ';' && c != ':' && c != ','
}

fn is_ident_char(c: char) -> (r: bool)
    ensures
        r == ident_char(c),
{
    !is_whitespace(c) && c != '<' && c != '>' && c != '(' && c != ')' && c != '{' && c != '}' && c != ';' && c != ':' && c != ','
}

/// The characters from `at` to `end` can stand in a name, and the one at
/// `end` (if any) cannot: the longest run of name characters.
pub open spec fn ident_run(s: Seq<char>, at: int, end: int) -> bool {
    &&& 0 <= at <= end <= s.len()
    &&& forall|k: int| at <= k < end ==> ident_char(#[trigger] s[k])
    &&& (end == s.len() || !ident_char(s[end]))
}

/// The end of the run of name characters that starts at `at`.
pub(crate) fn ident_end(src: &Source, at: usize) -> (end: usize)
    requires
        at <= src.chars@.len(),
    ensures
        ident_run(src.chars@, at as int, end as int),
{
    let mut k = at;
    while k < src.chars.len() && is_ident_char(src.chars[k])
        invariant
            at <= k <= src.chars@.len(),
            forall|j: int| at <= j < k ==> ident_char(#[trigger] src.chars@[j]),
        decreases src.chars@.len() - k,
    {
        k += 1;
    }
    k
}

/// A name at `at`: the longest run of name characters there (at least one),
/// and the position after it.
pub fn identifier(src: &Source, at: usize) -> (r: Option<(Token, usize)>)
    requires
        src.wf(),
    ensures
        match r {
            Some((Token::Identifier(id), end)) => at < end && ident_run(src.chars@, at as int, end as int)
                && id@ == src.chars@.subrange(at as int, end as int),
            Some(_) => false,
            None => at >= src.chars@.len() || !ident_char(src.chars@[at as int]),
        },
{
    if at >= src.chars.len() {
        return None;
    }
    let end = ident_end(src, at);
    if end == at {
        return None;
    }
    Some((Token::Identifier(Identifier(src.slice(at, end))), end))
}

// ---------------------------------------------------------------------
// Literals.

/// The value of the decimal digits `d`.
pub open spec fn digits_value(d: Seq<char>) -> int
    decreases d.len(),
{
    if d.len() == 0 {
        0
    } else {
        digits_value(d.drop_last()) * 10 + (d.last() as int - '0' as int)
    }
}

/// `c` is a decimal digit.
pub open spec fn is_digit(c: char) -> bool {
    '0' <= c <= '9'
}

/// The digits from `at` to `end`, and not the character at `end`.
pub open spec fn digit_run(s: Seq<char>, at: int, end: int) -> bool {
    &&& 0 <= at <= end <= s.len()
    &&& forall|k: int| at <= k < end ==> is_digit(#[trigger] s[k])
    &&& (end == s.len() || !is_digit(s[end]))
}

/// An integer without sign at `at`, ending at `end`: `0`, or a digit other
/// than `0` followed by all the digits after it.
pub open spec fn int_at(s: Seq<char>, at: int, end: int) -> bool {
    &&& 0 <= at < s.len()
    &&& if s[at] == '0' { end == at + 1 } else { is_digit(s[at]) && digit_run(s, at, end) }
}

/// Where the sign of a number starting at `at` ends: after a `+` or `-`.
pub open spec fn after_sign(s: Seq<char>, at: int) -> int {
    if 0 <= at < s.len() && (s[at] == '+' || s[at] == '-') { at + 1 } else { at }
}

/// A float at `at` ending at `end`: an optional sign, then an integer, a
/// dot and digits, or `inf`.
pub open spec fn float_at(s: Seq<char>, at: int, end: int) -> bool {
    let p = after_sign(s, at);
    ||| exists|q: int| #![trigger int_at(s, p, q)] int_at(s, p, q) && q < s.len() && s[q] == '.' && q + 1 < end && digit_run(s, q + 1, end)
    ||| (p + 3 <= s.len() && s.subrange(p, p + 3) == "inf"@ && end == p + 3)
}

/// An int at `at` ending at `end` with the value `v`: an optional sign, an
/// integer, and no name character right after it.
pub open spec fn int_lit_at(s: Seq<char>, at: int, end: int, v: int) -> bool {
    let p = after_sign(s, at);
    &&& int_at(s, p, end)
    &&& (end == s.len() || !ident_char(s[end]))
    &&& v == (if p > at && s[at] == '-' { -digits_value(s.subrange(p, end)) } else { digits_value(s.subrange(p, end)) })
}

/// A string at `at` ending at `end`: between double quotes, characters
/// other than `"` and `\`, or `\` and any character.
pub open spec fn string_body(s: Seq<char>, k: int, end: int) -> bool
    decreases s.len() - k,
{
    if k < 0 || k >= s.len() {
        false
    } else if s[k] == '"' {
        end == k + 1
    } else if s[k] == '\\' {
        if k + 2 <= s.len() {
            string_body(s, k + 2, end)
        } else {
            false
        }
    } else {
        string_body(s, k + 1, end)
    }
}

pub open spec fn string_at(s: Seq<char>, at: int, end: int) -> bool {
    0 <= at < s.len() && s[at] == '"' && string_body(s, at + 1, end)
}

/// The digits of the int at `at` fit an `i64`.
pub open spec fn int_fits(s: Seq<char>, at: int) -> bool {
    let p = after_sign(s, at);
    forall|end: int| int_at(s, p, end) ==> digits_value(s.subrange(p, end)) <= i64::MAX
}

/// A literal at `at`: a float (kept as its text), else an int, else a
/// string (kept as written, quotes included); and the position after it.
pub fn literal(src: &Source, at: usize) -> (r: Option<(Token, usize)>)
    requires
        src.wf(),
        int_fits(src.chars@, at as int),
    ensures
        match r {
            Some((Token::Literal(Literal::Float(t)), end)) => float_at(src.chars@, at as int, end as int)
                && t@ == src.chars@.subrange(at as int, end as int),
            Some((Token::Literal(Literal::Int(v)), end)) => (forall|e: int| !float_at(src.chars@, at as int, e))
                && int_lit_at(src.chars@, at as int, end as int, v as int),
            Some((Token::Literal(Literal::Str(t)), end)) => (forall|e: int| !float_at(src.chars@, at as int, e))
                && (forall|e: int, v: int| !int_lit_at(src.chars@, at as int, e, v))
                && string_at(src.chars@, at as int, end as int)
                && t@ == src.chars@.subrange(at as int, end as int),
            Some(_) => false,
            None => (forall|e: int| !float_at(src.chars@, at as int, e))
                && (forall|e: int, v: int| !int_lit_at(src.chars@, at as int, e, v))
                && (forall|e: int| !string_at(src.chars@, at as int, e)),
        },
        r matches Some((_, end)) ==> at < end <= src.chars@.len(),
{
    let ghost s = src.chars@;
    let n = src.chars.len();
    if at >= n {
        proof {
            assert forall|e: int| !float_at(s, at as int, e) by {
                assert(after_sign(s, at as int) == at);
            }
        }
        return None;
    }
    let p = if src.chars[at] == '+' || src.chars[at] == '-' { at + 1 } else { at };
    proof {
        assert(p == after_sign(s, at as int));
    }
    // the integer part
    let q = int_end(src, p);
    match q {
        Some(q) => {
            if q < n && src.chars[q] == '.' {
                let r = digits_end(src, q + 1);
                if r > q + 1 {
                    proof {
                        assert(int_at(s, p as int, q as int));
                    }
                    return Some((Token::Literal(Literal::Float(src.slice(at, r))), r));
                }
            }
        },
        None => {},
    }
    if n - p >= 3 && src.chars[p] == 'i' && src.chars[p + 1] == 'n' && src.chars[p + 2] == 'f' {
        proof {
            reveal_strlit("inf");
            assert(s.subrange(p as int, p + 3) =~= "inf"@);
        }
        return Some((Token::Literal(Literal::Float(src.slice(at, p + 3))), p + 3));
    }
    proof {
        reveal_strlit("inf");
        assert forall|e: int| !float_at(s, at as int, e) by {
            if p + 3 <= s.len() && s.subrange(p as int, p + 3) == "inf"@ {
                assert(s.subrange(p as int, p + 3)[0] == 'i');
                assert(s.subrange(p as int, p + 3)[1] == 'n');
                assert(s.subrange(p as int, p + 3)[2] == 'f');
            }
            lemma_int_at_unique(s, p as int);
        }
    }
    match q {
        Some(q) => {
            if q == n || !is_ident_char(src.chars[q]) {
                let v = digits_to_i64(src, p, q);
                let val: i64 = if p > at && src.chars[at] == '-' { -v } else { v };
                return Some((Token::Literal(Literal::Int(val)), q));
            }
        },
        None => {},
    }
    proof {
        assert forall|e: int, v: int| !int_lit_at(s, at as int, e, v) by {
            lemma_int_at_unique(s, p as int);
        }
    }
    if src.chars[at] == '"' {
        match string_end(src, at + 1) {
            Some(e) => {
                return Some((Token::Literal(Literal::Str(src.slice(at, e))), e));
            },
            None => {},
        }
    }
    None
}

/// An integer without sign starts at `p` in at most one way.
pub(crate) proof fn lemma_int_at_unique(s: Seq<char>, p: int)
    ensures
        forall|e1: int, e2: int| int_at(s, p, e1) && int_at(s, p, e2) ==> e1 == e2,
{
    assert forall|e1: int, e2: int| int_at(s, p, e1) && int_at(s, p, e2) implies e1 == e2 by {
        if s[p] != '0' {
            if e1 < e2 {
                assert(is_digit(s[e1]));
            } else if e2 < e1 {
                assert(is_digit(s[e2]));
            }
        }
    }
}

/// The end of the run of digits that starts at `at`.
fn digits_end(src: &Source, at: usize) -> (end: usize)
    requires
        at <= src.chars@.len(),
    ensures
        digit_run(src.chars@, at as int, end as int),
{
    let mut k = at;
    while k < src.chars.len() && '0' <= src.chars[k] && src.chars[k] <= '9'
        invariant
            at <= k <= src.chars@.len(),
            forall|j: int| at <= j < k ==> is_digit(#[trigger] src.chars@[j]),
        decreases src.chars@.len() - k,
    {
        k += 1;
    }
    k
}

/// The end of the integer without sign that starts at `p`, if one does.
pub(crate) fn int_end(src: &Source, p: usize) -> (r: Option<usize>)
    ensures
        match r {
            Some(q) => int_at(src.chars@, p as int, q as int),
            None => forall|q: int| !int_at(src.chars@, p as int, q),
        },
{
    if p >= src.chars.len() {
        return None;
    }
    let c = src.chars[p];
    if c == '0' {
        Some(p + 1)
    } else if '1' <= c && c <= '9' {
        Some(digits_end(src, p))
    } else {
        None
    }
}

/// The value of the digits from `p` to `q`, which fits an `i64`.
fn digits_to_i64(src: &Source, p: usize, q: usize) -> (v: i64)
    requires
        p <= q <= src.chars@.len(),
        forall|k: int| p <= k < q ==> is_digit(#[trigger] src.chars@[k]),
        digits_value(src.chars@.subrange(p as int, q as int)) <= i64::MAX,
    ensures
        v == digits_value(src.chars@.subrange(p as int, q as int)),
        v >= 0,
{
    proof {
        lemma_digits_nonneg(src.chars@.subrange(p as int, q as int));
    }
    let mut v: i64 = 0;
    let mut k = p;
    while k < q
        invariant
            p <= k <= q <= src.chars@.len(),
            forall|j: int| p <= j < q ==> is_digit(#[trigger] src.chars@[j]),
            digits_value(src.chars@.subrange(p as int, q as int)) <= i64::MAX,
            v == digits_value(src.chars@.subrange(p as int, k as int)),
        decreases q - k,
    {
        proof {
            let s = src.chars@;
            assert(s.subrange(p as int, k + 1).drop_last() =~= s.subrange(p as int, k as int));
            lemma_digits_prefix(s.subrange(p as int, q as int), (k - p) as int);
            assert(s.subrange(p as int, q as int).take(k + 1 - p) =~= s.subrange(p as int, k + 1));
            assert(is_digit(s[k as int]));
        }
        let d = (src.chars[k] as u32 - '0' as u32) as i64;
        v = v * 10 + d;
        k += 1;
    }
    v
}

/// The value of a prefix of digits is no more than that of the whole.
pub(crate) proof fn lemma_digits_prefix(d: Seq<char>, i: int)
    requires
        0 <= i < d.len(),
        forall|k: int| 0 <= k < d.len() ==> is_digit(#[trigger] d[k]),
    ensures
        digits_value(d.take(i + 1)) <= digits_value(d),
        digits_value(d.take(i)) >= 0,
        digits_value(d.take(i + 1)) == digits_value(d.take(i)) * 10 + (d[i] as int - '0' as int),
    decreases d.len() - i,
{
    assert(d.take(i + 1).drop_last() =~= d.take(i));
    lemma_digits_nonneg(d.take(i));
    if i + 1 < d.len() {
        lemma_digits_prefix(d, i + 1);
        lemma_digits_nonneg(d.take(i + 1));
    } else {
        assert(d.take(i + 1) =~= d);
    }
}

proof fn lemma_digits_nonneg(d: Seq<char>)
    requires
        forall|k: int| 0 <= k < d.len() ==> is_digit(#[trigger] d[k]),
    ensures
        digits_value(d) >= 0,
    decreases d.len(),
{
    if d.len() > 0 {
        lemma_digits_nonneg(d.drop_last());
    }
}

/// The end of the string whose body starts at `k` (just after the opening
/// quote), if the string is closed.
fn string_end(src: &Source, k: usize) -> (r: Option<usize>)
    ensures
        match r {
            Some(e) => string_body(src.chars@, k as int, e as int) && k < e <= src.chars@.len(),
            None => forall|e: int| !string_body(src.chars@, k as int, e),
        },
{
    let n = src.chars.len();
    if k >= n {
        return None;
    }
    let mut j = k;
    while j < n && src.chars[j] != '"'
        invariant
            k <= j <= n,
            n == src.chars@.len(),
            forall|e: int| string_body(src.chars@, k as int, e) == string_body(src.chars@, j as int, e),
        decreases n - j,
    {
        if src.chars[j] == '\\' {
            if j + 1 < n {
                j = j + 2;
            } else {
                j = n;
            }
        } else {
            j = j + 1;
        }
    }
    if j < n {
        Some(j + 1)
    } else {
        None
    }
}

} // verus!
