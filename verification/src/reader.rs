use vstd::prelude::*;
use crate::ast::{Identifier, Literal, Span, Spanned};
use crate::lexer::{
    Source, comment, literal, ident_end, int_end, int_fits, int_at, after_sign, digits_value, is_digit, comment_at,
    float_at, int_lit_at, string_at, ident_run, closes_at, string_body, digit_run, ident_char, punct_v, punctuation, lemma_int_at_unique,
    lemma_digits_prefix,
};
use crate::text::{is_whitespace, is_ws};
use crate::token::Token;
use crate::statement::{ParseError, SourceFile, parse_errs_view, comments_view};
use crate::parser::{parse_file, parse_v, comments_v, nodes_view};
use crate::strings::{str_eq, string_from};

verus! {

// ---------------------------------------------------------------------
// Reading a script into tokens.
//
// Positions count characters. White space between tokens is skipped. At
// each position the reader tries, in order: a block comment; a literal; a
// word (a run of name characters), which is a keyword, an operator, a
// command (a word that starts with a lower-case letter) or a name; `<`,
// `<=`, `>` or `>=`; a punctuation character. A number too large for an
// `i64` is an error, and so is a character that starts no token.

/// One step of reading: a token with its start and end, or an error with
/// its start, end and message.
pub enum LexStep {
    Tok(Token, usize, usize),
    Fault(usize, usize, Seq<char>),
}

/// The first position from `at` on that is not white space.
pub open spec fn skip_ws_v(s: Seq<char>, at: int) -> int
    decreases s.len() - at,
{
    if 0 <= at < s.len() && is_ws(s[at]) {
        skip_ws_v(s, at + 1)
    } else {
        at
    }
}

pub open spec fn is_lower(c: char) -> bool {
    'a' <= c && c <= 'z'
}

/// The token that a word is read as, when it is a keyword or an operator.
pub open spec fn fixed_word(w: Seq<char>) -> Option<Token> {
    if w == "#const"@ { Some(Token::Const) }
    else if w == "#define"@ { Some(Token::Define) }
    else if w == "#undefine"@ { Some(Token::Undefine) }
    else if w == "if"@ { Some(Token::If) }
    else if w == "elseif"@ { Some(Token::ElseIf) }
    else if w == "else"@ { Some(Token::Else) }
    else if w == "endif"@ { Some(Token::EndIf) }
    else if w == "start_random"@ { Some(Token::StartRandom) }
    else if w == "percent_chance"@ { Some(Token::PercentChance) }
    else if w == "end_random"@ { Some(Token::EndRandom) }
    else if w == "rnd"@ { Some(Token::Rnd) }
    else if w == "#include_drs"@ { Some(Token::IncludeDrs) }
    else if w == "#includeXS"@ { Some(Token::IncludeXs) }
    else if w == "+"@ { Some(Token::Plus) }
    else if w == "-"@ { Some(Token::Minus) }
    else if w == "*"@ { Some(Token::Star) }
    else if w == "/"@ { Some(Token::FSlash) }
    else if w == "%"@ { Some(Token::PCent) }
    else if w == "++"@ { Some(Token::DPlus) }
    else if w == "--"@ { Some(Token::DMinus) }
    else if w == "=="@ { Some(Token::Deq) }
    else if w == "!="@ { Some(Token::Neq) }
    else if w == "&&"@ { Some(Token::DAmp) }
    else if w == "||"@ { Some(Token::DPipe) }
    else if w == "!"@ { Some(Token::Excl) }
    else if w == "="@ { Some(Token::Eq) }
    else if w == "."@ { Some(Token::Dot) }
    else if w == "\\"@ { Some(Token::BSlash) }
    else { None }
}

/// The word `w` is read as the token `t`.
pub open spec fn word_tok(w: Seq<char>, t: Token) -> bool {
    match fixed_word(w) {
        Some(f) => t == f,
        None => match t {
            Token::Command(id) => id@ == w && w.len() > 0 && is_lower(w[0]),
            Token::Identifier(id) => id@ == w && !(w.len() > 0 && is_lower(w[0])),
            _ => false,
        },
    }
}

/// `<`, `<=`, `>` or `>=` at `at`, ending at `end`.
pub open spec fn angle_tok(s: Seq<char>, at: int, t: Token, end: int) -> bool {
    let eq_next = at + 1 < s.len() && s[at + 1] == '=';
    if s[at] == '<' {
        if eq_next { t is Le && end == at + 2 } else { t is Lt && end == at + 1 }
    } else if s[at] == '>' {
        if eq_next { t is Ge && end == at + 2 } else { t is Gt && end == at + 1 }
    } else {
        false
    }
}

/// A literal token at `at` ending at `end` (as [`literal`] reads it).
pub open spec fn lit_tok(s: Seq<char>, at: int, t: Token, end: int) -> bool {
    match t {
        Token::Literal(Literal::Float(x)) => float_at(s, at, end) && x@ == s.subrange(at, end),
        Token::Literal(Literal::Int(v)) => (forall|e: int| !float_at(s, at, e)) && int_lit_at(s, at, end, v as int),
        Token::Literal(Literal::Str(x)) => (forall|e: int| !float_at(s, at, e))
            && (forall|e: int, v: int| !int_lit_at(s, at, e, v))
            && string_at(s, at, end) && x@ == s.subrange(at, end),
        _ => false,
    }
}

/// No literal starts at `at`.
pub open spec fn no_lit(s: Seq<char>, at: int) -> bool {
    &&& forall|e: int| !float_at(s, at, e)
    &&& forall|e: int, v: int| !int_lit_at(s, at, e, v)
    &&& forall|e: int| !string_at(s, at, e)
}

/// No comment starts at `at`.
pub open spec fn no_comment(s: Seq<char>, at: int) -> bool {
    forall|e: int| !comment_at(s, at, e)
}

/// The step `st` is what the reader does at `at` (where no white space is).
pub open spec fn step_ok(s: Seq<char>, at: int, st: LexStep) -> bool {
    match st {
        LexStep::Tok(t, a, e) => a == at && at < e <= s.len() && {
            ||| (t matches Token::Comment(x) && comment_at(s, at, e as int) && x@ == s.subrange(at, e as int))
            ||| (no_comment(s, at) && int_fits(s, at) && lit_tok(s, at, t, e as int))
            ||| (no_comment(s, at) && int_fits(s, at) && no_lit(s, at) && ident_run(s, at, e as int)
                && word_tok(s.subrange(at, e as int), t))
            ||| (no_comment(s, at) && int_fits(s, at) && no_lit(s, at) && !ident_char(s[at]) && angle_tok(s, at, t, e as int))
            ||| (no_comment(s, at) && int_fits(s, at) && no_lit(s, at) && !ident_char(s[at]) && s[at] != '<' && s[at] != '>'
                && e == at + 1 && punct_v(s[at]) == Some(t))
        },
        LexStep::Fault(a, e, m) => a == at && at < e <= s.len() && {
            ||| (no_comment(s, at) && !int_fits(s, at) && ident_run(s, at, e as int) && m == "number too large"@)
            ||| (no_comment(s, at) && int_fits(s, at) && no_lit(s, at) && !ident_char(s[at]) && s[at] != '<' && s[at] != '>'
                && punct_v(s[at]) is None && e == at + 1 && m == "unexpected character"@)
        },
    }
}

pub open spec fn step_end(st: LexStep) -> int {
    match st {
        LexStep::Tok(_, _, e) => e as int,
        LexStep::Fault(_, e, _) => e as int,
    }
}

/// The steps `steps` read the text `s` from `at` to its end.
pub open spec fn steps_ok(s: Seq<char>, at: int, steps: Seq<LexStep>) -> bool
    decreases steps.len(),
{
    let p = skip_ws_v(s, at);
    if steps.len() == 0 {
        p >= s.len()
    } else {
        p < s.len() && step_ok(s, p, steps[0]) && steps_ok(s, step_end(steps[0]), steps.drop_first())
    }
}

/// The tokens of the steps, with their spans.
pub open spec fn tokens_of(steps: Seq<LexStep>) -> Seq<Spanned<Token>>
    decreases steps.len(),
{
    if steps.len() == 0 {
        Seq::empty()
    } else {
        match steps.last() {
            LexStep::Tok(t, a, e) => tokens_of(steps.drop_last()).push((t, Span { start: a, end: e })),
            LexStep::Fault(..) => tokens_of(steps.drop_last()),
        }
    }
}

/// The errors of the steps.
pub open spec fn errs_of(steps: Seq<LexStep>) -> Seq<(Span, Seq<char>)>
    decreases steps.len(),
{
    if steps.len() == 0 {
        Seq::empty()
    } else {
        match steps.last() {
            LexStep::Tok(..) => errs_of(steps.drop_last()),
            LexStep::Fault(a, e, m) => errs_of(steps.drop_last()).push((Span { start: a, end: e }, m)),
        }
    }
}

/// The first position from `at` on that is not white space.
fn skip_ws(src: &Source, at: usize) -> (r: usize)
    requires
        src.wf(),
        at <= src.chars@.len(),
    ensures
        r as int == skip_ws_v(src.chars@, at as int),
        at <= r <= src.chars@.len(),
{
    let mut k = at;
    while k < src.chars.len() && is_whitespace(src.chars[k])
        invariant
            at <= k <= src.chars@.len(),
            skip_ws_v(src.chars@, at as int) == skip_ws_v(src.chars@, k as int),
        decreases src.chars@.len() - k,
    {
        k += 1;
    }
    k
}

/// Whether the int at `at`, if any, fits an `i64`.
fn fits_at(src: &Source, at: usize) -> (r: bool)
    requires
        src.wf(),
    ensures
        r == int_fits(src.chars@, at as int),
{
    let ghost s = src.chars@;
    let n = src.chars.len();
    let p = if at < n && (src.chars[at] == '+' || src.chars[at] == '-') { at + 1 } else { at };
    proof {
        assert(p as int == after_sign(s, at as int));
        lemma_int_at_unique(s, p as int);
    }
    match int_end(src, p) {
        None => true,
        Some(q) => {
            let ghost d = s.subrange(p as int, q as int);
            proof {
                assert forall|k: int| 0 <= k < d.len() implies is_digit(#[trigger] d[k]) by {
                    assert(d[k] == s[p + k]);
                }
            }
            let mut v: u128 = 0;
            let mut k = p;
            while k < q
                invariant
                    p <= k <= q <= s.len(),
                    s == src.chars@,
                    int_at(s, p as int, q as int),
                    p as int == after_sign(s, at as int),
                    d == s.subrange(p as int, q as int),
                    forall|j: int| 0 <= j < d.len() ==> is_digit(#[trigger] d[j]),
                    v == digits_value(d.take(k - p)),
                    v <= i64::MAX,
                decreases q - k,
            {
                proof {
                    lemma_digits_prefix(d, k - p);
                    assert(d[k - p] == s[k as int]);
                }
                let c = src.chars[k];
                let dv = (c as u32 - '0' as u32) as u128;
                let nv = v * 10 + dv;
                if nv > i64::MAX as u128 {
                    proof {
                        assert(digits_value(d.take(k - p + 1)) == nv);
                        assert(digits_value(d) > i64::MAX);
                        assert(int_at(s, p as int, q as int));
                        assert(after_sign(s, at as int) == p);
                    }
                    return false;
                }
                v = nv;
                k += 1;
            }
            proof {
                assert(d.take(q - p) =~= d);
            }
            true
        },
    }
}

/// The token a word is read as (see [`word_tok`]).
fn classify(w: Identifier) -> (t: Token)
    requires
        w@.len() > 0,
    ensures
        word_tok(w@, t),
{
    let s = w.0.as_str();
    if str_eq(s, "#const") { Token::Const }
    else if str_eq(s, "#define") { Token::Define }
    else if str_eq(s, "#undefine") { Token::Undefine }
    else if str_eq(s, "if") { Token::If }
    else if str_eq(s, "elseif") { Token::ElseIf }
    else if str_eq(s, "else") { Token::Else }
    else if str_eq(s, "endif") { Token::EndIf }
    else if str_eq(s, "start_random") { Token::StartRandom }
    else if str_eq(s, "percent_chance") { Token::PercentChance }
    else if str_eq(s, "end_random") { Token::EndRandom }
    else if str_eq(s, "rnd") { Token::Rnd }
    else if str_eq(s, "#include_drs") { Token::IncludeDrs }
    else if str_eq(s, "#includeXS") { Token::IncludeXs }
    else if str_eq(s, "+") { Token::Plus }
    else if str_eq(s, "-") { Token::Minus }
    else if str_eq(s, "*") { Token::Star }
    else if str_eq(s, "/") { Token::FSlash }
    else if str_eq(s, "%") { Token::PCent }
    else if str_eq(s, "++") { Token::DPlus }
    else if str_eq(s, "--") { Token::DMinus }
    else if str_eq(s, "==") { Token::Deq }
    else if str_eq(s, "!=") { Token::Neq }
    else if str_eq(s, "&&") { Token::DAmp }
    else if str_eq(s, "||") { Token::DPipe }
    else if str_eq(s, "!") { Token::Excl }
    else if str_eq(s, "=") { Token::Eq }
    else if str_eq(s, ".") { Token::Dot }
    else if str_eq(s, "\\") { Token::BSlash }
    else {
        let c = s.get_char(0);
        if 'a' <= c && c <= 'z' {
            Token::Command(w)
        } else {
            Token::Identifier(w)
        }
    }
}

/// The step of reading at `p` (where no white space is): a token or an
/// error, and where it ends.
fn step(src: &Source, p: usize) -> (r: (Result<Token, ParseError>, usize))
    requires
        src.wf(),
        p < src.chars@.len(),
    ensures
        p < r.1 <= src.chars@.len(),
        step_ok(src.chars@, p as int, match r.0 {
            Ok(t) => LexStep::Tok(t, p, r.1),
            Err(e) => LexStep::Fault(p, r.1, e.msg@),
        }),
        r.0 matches Err(e) ==> e.span == (Span { start: p, end: r.1 }),
{
    let ghost s = src.chars@;
    match comment(src, p) {
        Some((t, e)) => {
            return (Ok(t), e);
        },
        None => {},
    }
    if !fits_at(src, p) {
        let e = ident_end(src, p);
        proof {
            // an int that does not fit starts here, so its characters are name characters
            let q = choose|end: int| int_at(s, after_sign(s, p as int), end) && !(digits_value(s.subrange(after_sign(s, p as int), end)) <= i64::MAX);
            if s[p as int] == '+' || s[p as int] == '-' {
                assert(ident_char(s[p as int]));
            } else {
                assert(is_digit(s[p as int]));
                assert(ident_char(s[p as int]));
            }
        }
        let msg = string_from("number too large");
        return (Err(ParseError { span: Span { start: p, end: e }, msg }), e);
    }
    match literal(src, p) {
        Some((t, e)) => {
            return (Ok(t), e);
        },
        None => {},
    }
    let e = ident_end(src, p);
    if e > p {
        let w = Identifier(src.slice(p, e));
        let t = classify(w);
        return (Ok(t), e);
    }
    let c = src.chars[p];
    let n = src.chars.len();
    if c == '<' || c == '>' {
        let eq_next = p + 1 < n && src.chars[p + 1] == '=';
        let t = if c == '<' {
            if eq_next { Token::Le } else { Token::Lt }
        } else {
            if eq_next { Token::Ge } else { Token::Gt }
        };
        let e = if eq_next { p + 2 } else { p + 1 };
        return (Ok(t), e);
    }
    match punctuation(src, p) {
        Some((t, e)) => (Ok(t), e),
        None => {
            let msg = string_from("unexpected character");
            (Err(ParseError { span: Span { start: p, end: p + 1 }, msg }), p + 1)
        },
    }
}

/// Reads the text of a script into tokens, with the errors found (see
/// [`step_ok`]): the steps that the reader takes from the start of the text
/// to its end give the tokens and the errors, in order. Those steps are
/// determined by the text (see [`law_lex_unique`]).
pub fn lex(src: &Source) -> (r: (Vec<Spanned<Token>>, Vec<ParseError>))
    requires
        src.wf(),
    ensures
        exists|steps: Seq<LexStep>| #![trigger tokens_of(steps)]
            steps_ok(src.chars@, 0, steps) && r.0@ == tokens_of(steps) && parse_errs_view(r.1@) == errs_of(steps),
{
    let ghost s = src.chars@;
    let n = src.chars.len();
    let mut toks: Vec<Spanned<Token>> = Vec::new();
    let mut errs: Vec<ParseError> = Vec::new();
    let ghost mut done: Seq<LexStep> = Seq::empty();
    let mut pos: usize = 0;
    proof {
        assert(parse_errs_view(errs@) =~= Seq::<(Span, Seq<char>)>::empty());
    }
    loop
        invariant
            s == src.chars@,
            src.wf(),
            n == s.len(),
            pos <= n,
            toks@ == tokens_of(done),
            parse_errs_view(errs@) == errs_of(done),
            forall|rest: Seq<LexStep>| steps_ok(s, pos as int, rest) ==> #[trigger] steps_ok(s, 0, done + rest),
        ensures
            steps_ok(s, 0, done),
            toks@ == tokens_of(done),
            parse_errs_view(errs@) == errs_of(done),
        decreases n - pos,
    {
        let p = skip_ws(src, pos);
        if p >= n {
            proof {
                assert(steps_ok(s, pos as int, Seq::empty()));
                assert(done + Seq::<LexStep>::empty() =~= done);
            }
            break;
        }
        let (res, e) = step(src, p);
        let ghost st = match &res {
            Ok(t) => LexStep::Tok(*t, p, e),
            Err(er) => LexStep::Fault(p, e, er.msg@),
        };
        proof {
            assert forall|rest: Seq<LexStep>| steps_ok(s, e as int, rest) implies #[trigger] steps_ok(s, 0, done.push(st) + rest) by {
                let r2 = seq![st] + rest;
                assert(r2.drop_first() =~= rest);
                assert(r2[0] == st);
                assert(steps_ok(s, pos as int, r2));
                assert(done + r2 =~= done.push(st) + rest);
            }
            assert(done.push(st).drop_last() =~= done);
        }
        match res {
            Ok(t) => {
                toks.push((t, Span { start: p, end: e }));
            },
            Err(er) => {
                let ghost old_e = errs@;
                errs.push(er);
                proof {
                    assert(parse_errs_view(errs@) =~= parse_errs_view(old_e).push((Span { start: p, end: e }, st->Fault_2)));
                }
            },
        }
        proof {
            done = done.push(st);
        }
        pos = e;
    }
    (toks, errs)
}


/// Reads the script at `path` whose text is `text`: its tokens, then its
/// statements. The errors of both steps are kept, those found among the
/// characters first.
pub fn read_script(path: &str, text: &str) -> (r: SourceFile)
    ensures
        exists|steps: Seq<LexStep>| #![trigger tokens_of(steps)]
            steps_ok(text@, 0, steps)
            && r.path@ == path@
            && nodes_view(r.ast@) == parse_v(tokens_of(steps)).0
            && parse_errs_view(r.parse_errs@) == errs_of(steps) + parse_v(tokens_of(steps)).1
            && comments_view(r.comments@) == comments_v(tokens_of(steps)),
{
    let src = Source::new(text);
    let (toks, mut errs) = lex(&src);
    let ghost steps = choose|steps: Seq<LexStep>| #![trigger tokens_of(steps)]
        steps_ok(src.chars@, 0, steps) && toks@ == tokens_of(steps) && parse_errs_view(errs@) == errs_of(steps);
    let mut f = parse_file(path, &toks);
    let ghost lexed = errs@;
    let ghost parsed = f.parse_errs@;
    errs.append(&mut f.parse_errs);
    proof {
        assert(parse_errs_view(errs@) =~= parse_errs_view(lexed) + parse_errs_view(parsed));
    }
    f.parse_errs = errs;
    proof {
        assert(steps_ok(text@, 0, steps) && tokens_of(steps) == toks@);
    }
    f
}


// ---------------------------------------------------------------------
// A text is read in one way only.

/// The tokens `a` and `b` are the same, their text compared by value.
pub open spec fn same_token(a: Token, b: Token) -> bool {
    match (a, b) {
        (Token::Literal(Literal::Float(x)), Token::Literal(Literal::Float(y))) => x@ == y@,
        (Token::Literal(Literal::Str(x)), Token::Literal(Literal::Str(y))) => x@ == y@,
        (Token::Identifier(x), Token::Identifier(y)) => x@ == y@,
        (Token::Command(x), Token::Command(y)) => x@ == y@,
        (Token::Comment(x), Token::Comment(y)) => x@ == y@,
        _ => a == b,
    }
}

/// The steps `a` and `b` are the same.
pub open spec fn same_step(a: LexStep, b: LexStep) -> bool {
    match (a, b) {
        (LexStep::Tok(t, s1, e1), LexStep::Tok(u, s2, e2)) => same_token(t, u) && s1 == s2 && e1 == e2,
        (LexStep::Fault(s1, e1, m1), LexStep::Fault(s2, e2, m2)) => s1 == s2 && e1 == e2 && m1 == m2,
        _ => false,
    }
}

proof fn lemma_ident_run_unique(s: Seq<char>, at: int, e1: int, e2: int)
    requires
        ident_run(s, at, e1),
        ident_run(s, at, e2),
    ensures
        e1 == e2,
{
    if e1 < e2 {
        assert(ident_char(s[e1]));
    } else if e2 < e1 {
        assert(ident_char(s[e2]));
    }
}

proof fn lemma_comment_unique(s: Seq<char>, at: int, e1: int, e2: int)
    requires
        comment_at(s, at, e1),
        comment_at(s, at, e2),
    ensures
        e1 == e2,
{
    if e1 < e2 {
        assert(closes_at(s, e1 - 2));
    } else if e2 < e1 {
        assert(closes_at(s, e2 - 2));
    }
}

proof fn lemma_digit_run_unique(s: Seq<char>, at: int, e1: int, e2: int)
    requires
        digit_run(s, at, e1),
        digit_run(s, at, e2),
    ensures
        e1 == e2,
{
    if e1 < e2 {
        assert(is_digit(s[e1]));
    } else if e2 < e1 {
        assert(is_digit(s[e2]));
    }
}

proof fn lemma_string_body_unique(s: Seq<char>, k: int, e1: int, e2: int)
    requires
        string_body(s, k, e1),
        string_body(s, k, e2),
    ensures
        e1 == e2,
    decreases s.len() - k,
{
    if 0 <= k < s.len() && s[k] != '"' {
        if s[k] == '\\' {
            lemma_string_body_unique(s, k + 2, e1, e2);
        } else {
            lemma_string_body_unique(s, k + 1, e1, e2);
        }
    }
}

proof fn lemma_float_unique(s: Seq<char>, at: int, e1: int, e2: int)
    requires
        0 <= at,
        float_at(s, at, e1),
        float_at(s, at, e2),
    ensures
        e1 == e2,
{
    let p = after_sign(s, at);
    lemma_int_at_unique(s, p);
    let inf1 = p + 3 <= s.len() && s.subrange(p, p + 3) == "inf"@ && e1 == p + 3;
    let inf2 = p + 3 <= s.len() && s.subrange(p, p + 3) == "inf"@ && e2 == p + 3;
    if !inf1 && !inf2 {
        let q1 = choose|q: int| #![trigger int_at(s, p, q)] int_at(s, p, q) && q < s.len() && s[q] == '.' && q + 1 < e1 && digit_run(s, q + 1, e1);
        let q2 = choose|q: int| #![trigger int_at(s, p, q)] int_at(s, p, q) && q < s.len() && s[q] == '.' && q + 1 < e2 && digit_run(s, q + 1, e2);
        assert(q1 == q2);
        lemma_digit_run_unique(s, q1 + 1, e1, e2);
    } else if inf1 && inf2 {
    } else {
        reveal_strlit("inf");
        assert(s.subrange(p, p + 3)[0] == "inf"@[0]);
        assert(s[p] == 'i');
        if inf1 {
            let q2 = choose|q: int| #![trigger int_at(s, p, q)] int_at(s, p, q) && q < s.len() && s[q] == '.' && q + 1 < e2 && digit_run(s, q + 1, e2);
            assert(is_digit(s[p]) || s[p] == '0');
        } else {
            let q1 = choose|q: int| #![trigger int_at(s, p, q)] int_at(s, p, q) && q < s.len() && s[q] == '.' && q + 1 < e1 && digit_run(s, q + 1, e1);
            assert(is_digit(s[p]) || s[p] == '0');
        }
    }
}

/// One step of reading is determined by the text and the position.
proof fn lemma_step_unique(s: Seq<char>, at: int, a: LexStep, b: LexStep)
    requires
        step_ok(s, at, a),
        step_ok(s, at, b),
    ensures
        same_step(a, b),
{
    lemma_int_at_unique(s, after_sign(s, at));
    match (a, b) {
        (LexStep::Tok(t, _, e1), LexStep::Tok(u, _, e2)) => {
            let (e1, e2) = (e1 as int, e2 as int);
            if t matches Token::Comment(_) && comment_at(s, at, e1) {
                assert(!no_comment(s, at));
                if u matches Token::Comment(_) && comment_at(s, at, e2) {
                    lemma_comment_unique(s, at, e1, e2);
                }
            } else if u matches Token::Comment(_) && comment_at(s, at, e2) {
                assert(!no_comment(s, at));
            } else if lit_tok(s, at, t, e1) {
                assert(!no_lit(s, at));
                assert(lit_tok(s, at, u, e2));
                lemma_lit_unique(s, at, t, u, e1, e2);
            } else if lit_tok(s, at, u, e2) {
                assert(!no_lit(s, at));
            } else if ident_run(s, at, e1) && word_tok(s.subrange(at, e1), t) {
                assert(ident_char(s[at]));
                assert(ident_run(s, at, e2) && word_tok(s.subrange(at, e2), u));
                lemma_ident_run_unique(s, at, e1, e2);
                lemma_word_unique(s.subrange(at, e1), t, u);
            } else if ident_run(s, at, e2) && word_tok(s.subrange(at, e2), u) {
                assert(ident_char(s[at]));
            }
        },
        (LexStep::Tok(..), LexStep::Fault(..)) => {
            lemma_tok_not_fault(s, at, a, b);
        },
        (LexStep::Fault(..), LexStep::Tok(..)) => {
            lemma_tok_not_fault(s, at, b, a);
        },
        (LexStep::Fault(_, e1, m1), LexStep::Fault(_, e2, m2)) => {
            if !int_fits(s, at) {
                lemma_ident_run_unique(s, at, e1 as int, e2 as int);
            }
        },
    }
}

proof fn lemma_tok_not_fault(s: Seq<char>, at: int, a: LexStep, b: LexStep)
    requires
        step_ok(s, at, a),
        step_ok(s, at, b),
        b is Fault,
    ensures
        a is Fault,
{
    let (t, e1) = match a { LexStep::Tok(t, _, e) => (t, e as int), _ => (Token::Dot, 0) };
    if a is Fault {
    } else if t matches Token::Comment(_) && comment_at(s, at, e1) {
        assert(!no_comment(s, at));
    } else if lit_tok(s, at, t, e1) {
        assert(!no_lit(s, at));
    } else if ident_run(s, at, e1) && word_tok(s.subrange(at, e1), t) {
        assert(ident_char(s[at]));
    }
}

proof fn lemma_lit_unique(s: Seq<char>, at: int, t: Token, u: Token, e1: int, e2: int)
    requires
        0 <= at,
        lit_tok(s, at, t, e1),
        lit_tok(s, at, u, e2),
    ensures
        e1 == e2,
        same_token(t, u),
{
    let p = after_sign(s, at);
    lemma_int_at_unique(s, p);
    match (t, u) {
        (Token::Literal(Literal::Float(_)), Token::Literal(Literal::Float(_))) => lemma_float_unique(s, at, e1, e2),
        (Token::Literal(Literal::Str(_)), Token::Literal(Literal::Str(_))) => lemma_string_body_unique(s, at + 1, e1, e2),
        (Token::Literal(Literal::Int(_)), Token::Literal(Literal::Int(_))) => {},
        (Token::Literal(Literal::Float(_)), _) => {},
        (_, Token::Literal(Literal::Float(_))) => {},
        (Token::Literal(Literal::Int(v)), _) => { assert(int_lit_at(s, at, e1, v as int)); },
        (_, Token::Literal(Literal::Int(v))) => { assert(int_lit_at(s, at, e2, v as int)); },
        _ => {},
    }
}

proof fn lemma_word_unique(w: Seq<char>, t: Token, u: Token)
    requires
        word_tok(w, t),
        word_tok(w, u),
    ensures
        same_token(t, u),
{
}

/// Two sequences of steps that both read `s` from `at` to its end agree
/// step by step.
proof fn lemma_steps_unique(s: Seq<char>, at: int, a: Seq<LexStep>, b: Seq<LexStep>)
    requires
        steps_ok(s, at, a),
        steps_ok(s, at, b),
    ensures
        a.len() == b.len(),
        forall|i: int| 0 <= i < a.len() ==> same_step(#[trigger] a[i], b[i]),
    decreases a.len(),
{
    if a.len() > 0 {
        let p = skip_ws_v(s, at);
        lemma_step_unique(s, p, a[0], b[0]);
        assert(step_end(a[0]) == step_end(b[0]));
        lemma_steps_unique(s, step_end(a[0]), a.drop_first(), b.drop_first());
        assert forall|i: int| 0 <= i < a.len() implies same_step(#[trigger] a[i], b[i]) by {
            if i > 0 {
                assert(a[i] == a.drop_first()[i - 1]);
                assert(b[i] == b.drop_first()[i - 1]);
            }
        }
    }
}

/// Steps that agree one by one give the same tokens and errors.
proof fn lemma_same_steps_out(a: Seq<LexStep>, b: Seq<LexStep>)
    requires
        a.len() == b.len(),
        forall|i: int| 0 <= i < a.len() ==> same_step(#[trigger] a[i], b[i]),
    ensures
        errs_of(a) == errs_of(b),
        tokens_of(a).len() == tokens_of(b).len(),
        forall|i: int| 0 <= i < tokens_of(a).len() ==> same_token(#[trigger] tokens_of(a)[i].0, tokens_of(b)[i].0)
            && tokens_of(a)[i].1 == tokens_of(b)[i].1,
    decreases a.len(),
{
    if a.len() > 0 {
        assert(same_step(a[a.len() - 1], b[b.len() - 1]));
        lemma_same_steps_out(a.drop_last(), b.drop_last());
    }
}

/// A text is read in one way only: whatever steps read it, the tokens
/// (with their spans) and the errors are the same, the text of each token
/// compared by value. So what [`lex`] gives is determined by the text.
pub proof fn law_lex_unique(s: Seq<char>, a: Seq<LexStep>, b: Seq<LexStep>)
    requires
        steps_ok(s, 0, a),
        steps_ok(s, 0, b),
    ensures
        errs_of(a) == errs_of(b),
        tokens_of(a).len() == tokens_of(b).len(),
        forall|i: int| 0 <= i < tokens_of(a).len() ==> same_token(#[trigger] tokens_of(a)[i].0, tokens_of(b)[i].0)
            && tokens_of(a)[i].1 == tokens_of(b)[i].1,
{
    lemma_steps_unique(s, 0, a, b);
    lemma_same_steps_out(a, b);
}

} // verus!
