use vstd::prelude::*;
use crate::ast::{AstNode, Body, Expr, Identifier, Literal, Span, Spanned};
use crate::token::{Token, token_text};
use crate::statement::{ParseError, SourceFile, parse_errs_view, comments_view};
use crate::strings::{concat, string_from};

verus! {

// ---------------------------------------------------------------------
// The values of syntax trees.

/// The value of a [`Literal`].
pub enum LitV {
    Int(i64),
    Float(Seq<char>),
    Str(Seq<char>),
}

/// The value of an [`Expr`], with the spans of its parts.
pub enum ExprV {
    Rnd(Box<(ExprV, Span)>, Box<(ExprV, Span)>),
    Literal(LitV),
    Identifier(Seq<char>),
    Paren(Box<(ExprV, Span)>),
    Neg(Box<(ExprV, Span)>),
    Star(Box<(ExprV, Span)>, Box<(ExprV, Span)>),
    FSlash(Box<(ExprV, Span)>, Box<(ExprV, Span)>),
    PCent(Box<(ExprV, Span)>, Box<(ExprV, Span)>),
    Minus(Box<(ExprV, Span)>, Box<(ExprV, Span)>),
    Plus(Box<(ExprV, Span)>, Box<(ExprV, Span)>),
}

/// A branch of a condition or an arm of a random block: its expression and
/// its statements.
pub type ArmV = ((ExprV, Span), (Seq<(NodeV, Span)>, Span));

/// The value of an [`AstNode`], with the spans of its parts.
pub enum NodeV {
    Error,
    IncludeDrs((Seq<char>, Span)),
    IncludeXs((Seq<char>, Span)),
    LabelDef((Seq<char>, Span)),
    ConstDef { name: (Seq<char>, Span), value: (ExprV, Span) },
    UnDef((Seq<char>, Span)),
    IfElseIf { consequents: Seq<ArmV>, alternate: Option<(Seq<(NodeV, Span)>, Span)> },
    Random { arms: Seq<ArmV> },
    SectionStart((Seq<char>, Span)),
    Command { name: (Seq<char>, Span), params: Seq<(ExprV, Span)> },
    Block((Seq<(NodeV, Span)>, Span)),
}

pub open spec fn lit_view(l: Literal) -> LitV {
    match l {
        Literal::Int(v) => LitV::Int(v),
        Literal::Float(s) => LitV::Float(s@),
        Literal::Str(s) => LitV::Str(s@),
    }
}

pub open spec fn expr_view(e: Expr) -> ExprV
    decreases e,
{
    match e {
        Expr::Rnd(a, b) => ExprV::Rnd(Box::new((expr_view(a.0), a.1)), Box::new((expr_view(b.0), b.1))),
        Expr::Literal(l) => ExprV::Literal(lit_view(l)),
        Expr::Identifier(id) => ExprV::Identifier(id@),
        Expr::Paren(a) => ExprV::Paren(Box::new((expr_view(a.0), a.1))),
        Expr::Neg(a) => ExprV::Neg(Box::new((expr_view(a.0), a.1))),
        Expr::Star(a, b) => ExprV::Star(Box::new((expr_view(a.0), a.1)), Box::new((expr_view(b.0), b.1))),
        Expr::FSlash(a, b) => ExprV::FSlash(Box::new((expr_view(a.0), a.1)), Box::new((expr_view(b.0), b.1))),
        Expr::PCent(a, b) => ExprV::PCent(Box::new((expr_view(a.0), a.1)), Box::new((expr_view(b.0), b.1))),
        Expr::Minus(a, b) => ExprV::Minus(Box::new((expr_view(a.0), a.1)), Box::new((expr_view(b.0), b.1))),
        Expr::Plus(a, b) => ExprV::Plus(Box::new((expr_view(a.0), a.1)), Box::new((expr_view(b.0), b.1))),
    }
}

/// The value of a spanned expression.
pub open spec fn sexpr_view(e: Spanned<Expr>) -> (ExprV, Span) {
    (expr_view(e.0), e.1)
}

pub open spec fn exprs_view(v: Seq<Spanned<Expr>>) -> Seq<(ExprV, Span)> {
    v.map_values(|e: Spanned<Expr>| sexpr_view(e))
}

pub open spec fn nodes_view(b: Seq<Spanned<AstNode>>) -> Seq<(NodeV, Span)>
    decreases b,
{
    Seq::new(b.len(), |i: int| if 0 <= i < b.len() { (node_view(b[i].0), b[i].1) } else { (NodeV::Error, Span { start: 0, end: 0 }) })
}

pub open spec fn arms_view(a: Seq<(Spanned<Expr>, Spanned<Body>)>) -> Seq<ArmV>
    decreases a,
{
    Seq::new(a.len(), |i: int| if 0 <= i < a.len() {
        (sexpr_view(a[i].0), (nodes_view(a[i].1.0@), a[i].1.1))
    } else {
        ((ExprV::Identifier(Seq::empty()), Span { start: 0, end: 0 }), (Seq::empty(), Span { start: 0, end: 0 }))
    })
}

pub open spec fn node_view(n: AstNode) -> NodeV
    decreases n,
{
    match n {
        AstNode::Error => NodeV::Error,
        AstNode::IncludeDrs(p) => NodeV::IncludeDrs((p.0@, p.1)),
        AstNode::IncludeXs(p) => NodeV::IncludeXs((p.0@, p.1)),
        AstNode::LabelDef(id) => NodeV::LabelDef((id.0@, id.1)),
        AstNode::ConstDef { name, value } => NodeV::ConstDef { name: (name.0@, name.1), value: sexpr_view(value) },
        AstNode::UnDef(id) => NodeV::UnDef((id.0@, id.1)),
        AstNode::IfElseIf { consequents, alternate } => NodeV::IfElseIf {
            consequents: arms_view(consequents@),
            alternate: match alternate {
                Some(b) => Some((nodes_view(b.0@), b.1)),
                None => None,
            },
        },
        AstNode::Random { arms } => NodeV::Random { arms: arms_view(arms@) },
        AstNode::SectionStart(id) => NodeV::SectionStart((id.0@, id.1)),
        AstNode::Command { name, params } => NodeV::Command { name: (name.0@, name.1), params: exprs_view(params@) },
        AstNode::Block(b) => NodeV::Block((nodes_view(b.0@), b.1)),
    }
}

// ---------------------------------------------------------------------
// The tokens a script is read from.

/// The tokens that are not comments, in order.
pub open spec fn code_v(ts: Seq<Spanned<Token>>) -> Seq<Spanned<Token>>
    decreases ts.len(),
{
    if ts.len() == 0 {
        ts
    } else if ts.last().0 is Comment {
        code_v(ts.drop_last())
    } else {
        code_v(ts.drop_last()).push(ts.last())
    }
}

/// The comments among the tokens: their text and span, in order.
pub open spec fn comments_v(ts: Seq<Spanned<Token>>) -> Seq<(Seq<char>, Span)>
    decreases ts.len(),
{
    if ts.len() == 0 {
        Seq::empty()
    } else {
        match ts.last().0 {
            Token::Comment(t) => comments_v(ts.drop_last()).push((t@, ts.last().1)),
            _ => comments_v(ts.drop_last()),
        }
    }
}

/// The tokens at the positions `ix` of `ts`.
pub open spec fn picked(ts: Seq<Spanned<Token>>, ix: Seq<usize>) -> Seq<Spanned<Token>> {
    Seq::new(ix.len(), |i: int| ts[ix[i] as int])
}

/// The positions `ix` are positions of `ts`.
pub open spec fn ix_ok(ts: Seq<Spanned<Token>>, ix: Seq<usize>) -> bool {
    forall|i: int| 0 <= i < ix.len() ==> #[trigger] ix[i] < ts.len()
}

/// The span from the token at `a` to the token at `b`.
pub open spec fn span_v(cs: Seq<Spanned<Token>>, a: int, b: int) -> Span {
    Span { start: cs[a].1.start, end: cs[b].1.end }
}

// ---------------------------------------------------------------------
// Expressions.
//
// An expression is a sum of terms (`+`, `-`), a term a product of atoms
// (`*`, `/`, `%`), both taken from the left. An atom is a literal, a
// name, `rnd(a, b)`, an expression in parentheses, or `-` before an atom.

/// An atom at `at`, and the position after it.
pub open spec fn atom_v(cs: Seq<Spanned<Token>>, at: int) -> Option<((ExprV, Span), int)>
    decreases cs.len() - at, 0nat,
{
    if at < 0 || at >= cs.len() {
        None
    } else {
        match cs[at].0 {
            Token::Literal(l) => Some(((ExprV::Literal(lit_view(l)), cs[at].1), at + 1)),
            Token::Identifier(id) => Some(((ExprV::Identifier(id@), cs[at].1), at + 1)),
            Token::Minus => match atom_v(cs, at + 1) {
                Some((e, k)) => if at + 1 < k <= cs.len() {
                    Some(((ExprV::Neg(Box::new(e)), span_v(cs, at, k - 1)), k))
                } else {
                    None
                },
                None => None,
            },
            Token::LParen => match expr_v(cs, at + 1) {
                Some((e, k)) => if at + 1 < k < cs.len() && cs[k].0 is RParen {
                    Some(((ExprV::Paren(Box::new(e)), span_v(cs, at, k)), k + 1))
                } else {
                    None
                },
                None => None,
            },
            Token::Rnd => if at + 1 < cs.len() && cs[at + 1].0 is LParen {
                match expr_v(cs, at + 2) {
                    Some((a, k)) => if at + 2 < k < cs.len() && cs[k].0 is Comma {
                        match expr_v(cs, k + 1) {
                            Some((b, m)) => if k + 1 < m < cs.len() && cs[m].0 is RParen {
                                Some(((ExprV::Rnd(Box::new(a), Box::new(b)), span_v(cs, at, m)), m + 1))
                            } else {
                                None
                            },
                            None => None,
                        }
                    } else {
                        None
                    },
                    None => None,
                }
            } else {
                None
            },
            _ => None,
        }
    }
}

/// The product operator at `at`, if there is one: 0 for `*`, 1 for `/`, 2 for `%`.
pub open spec fn mul_op(cs: Seq<Spanned<Token>>, at: int) -> Option<u8> {
    if 0 <= at < cs.len() {
        match cs[at].0 {
            Token::Star => Some(0u8),
            Token::FSlash => Some(1u8),
            Token::PCent => Some(2u8),
            _ => None,
        }
    } else {
        None
    }
}

/// The sum operator at `at`, if there is one: 0 for `+`, 1 for `-`.
pub open spec fn add_op(cs: Seq<Spanned<Token>>, at: int) -> Option<u8> {
    if 0 <= at < cs.len() {
        match cs[at].0 {
            Token::Plus => Some(0u8),
            Token::Minus => Some(1u8),
            _ => None,
        }
    } else {
        None
    }
}

/// The product of `l` and `r` by the operator `op`.
pub open spec fn mul_v(op: u8, l: (ExprV, Span), r: (ExprV, Span)) -> (ExprV, Span) {
    let span = Span { start: l.1.start, end: r.1.end };
    if op == 0 {
        (ExprV::Star(Box::new(l), Box::new(r)), span)
    } else if op == 1 {
        (ExprV::FSlash(Box::new(l), Box::new(r)), span)
    } else {
        (ExprV::PCent(Box::new(l), Box::new(r)), span)
    }
}

/// The sum of `l` and `r` by the operator `op`.
pub open spec fn add_v(op: u8, l: (ExprV, Span), r: (ExprV, Span)) -> (ExprV, Span) {
    let span = Span { start: l.1.start, end: r.1.end };
    if op == 0 {
        (ExprV::Plus(Box::new(l), Box::new(r)), span)
    } else {
        (ExprV::Minus(Box::new(l), Box::new(r)), span)
    }
}

/// The rest of a product whose left part `acc` ends before `at`.
pub open spec fn term_tail_v(cs: Seq<Spanned<Token>>, at: int, acc: (ExprV, Span)) -> Option<((ExprV, Span), int)>
    decreases cs.len() - at, 1nat,
{
    match mul_op(cs, at) {
        Some(op) => match atom_v(cs, at + 1) {
            Some((r, k)) => if at + 1 < k <= cs.len() {
                term_tail_v(cs, k, mul_v(op, acc, r))
            } else {
                None
            },
            None => None,
        },
        None => Some((acc, at)),
    }
}

/// A product of atoms at `at`.
pub open spec fn term_v(cs: Seq<Spanned<Token>>, at: int) -> Option<((ExprV, Span), int)>
    decreases cs.len() - at, 2nat,
{
    match atom_v(cs, at) {
        Some((e, k)) => if at < k <= cs.len() { term_tail_v(cs, k, e) } else { None },
        None => None,
    }
}

/// The rest of a sum whose left part `acc` ends before `at`.
pub open spec fn expr_tail_v(cs: Seq<Spanned<Token>>, at: int, acc: (ExprV, Span)) -> Option<((ExprV, Span), int)>
    decreases cs.len() - at, 3nat,
{
    match add_op(cs, at) {
        Some(op) => match term_v(cs, at + 1) {
            Some((r, k)) => if at + 1 < k <= cs.len() {
                expr_tail_v(cs, k, add_v(op, acc, r))
            } else {
                None
            },
            None => None,
        },
        None => Some((acc, at)),
    }
}

/// An expression at `at`, and the position after it.
pub open spec fn expr_v(cs: Seq<Spanned<Token>>, at: int) -> Option<((ExprV, Span), int)>
    decreases cs.len() - at, 4nat,
{
    match term_v(cs, at) {
        Some((e, k)) => if at < k <= cs.len() { expr_tail_v(cs, k, e) } else { None },
        None => None,
    }
}

/// The value of an optional expression found by the reader.
pub open spec fn opt_expr(r: Option<(Spanned<Expr>, usize)>) -> Option<((ExprV, Span), int)> {
    match r {
        Some((e, k)) => Some((sexpr_view(e), k as int)),
        None => None,
    }
}

fn clone_literal(l: &Literal) -> (r: Literal)
    ensures
        lit_view(r) == lit_view(*l),
{
    match l {
        Literal::Int(v) => Literal::Int(*v),
        Literal::Float(s) => Literal::Float(string_from(s.as_str())),
        Literal::Str(s) => Literal::Str(string_from(s.as_str())),
    }
}

fn atom(ts: &Vec<Spanned<Token>>, ix: &Vec<usize>, at: usize) -> (r: Option<(Spanned<Expr>, usize)>)
    requires
        ix_ok(ts@, ix@),
    ensures
        opt_expr(r) == atom_v(picked(ts@, ix@), at as int),
    decreases ix@.len() - at, 0nat,
{
    let ghost cs = picked(ts@, ix@);
    if at >= ix.len() {
        return None;
    }
    let t = &ts[ix[at]];
    proof {
        assert(cs[at as int] == ts@[ix@[at as int] as int]);
    }
    match &t.0 {
        Token::Literal(l) => Some(((Expr::Literal(clone_literal(l)), t.1), at + 1)),
        Token::Identifier(id) => Some(((Expr::Identifier(id.clone()), t.1), at + 1)),
        Token::Minus => match atom(ts, ix, at + 1) {
            Some((e, k)) => {
                if at + 1 < k && k <= ix.len() {
                    let end = ts[ix[k - 1]].1.end;
                    proof {
                        assert(cs[k - 1] == ts@[ix@[k - 1] as int]);
                    }
                    Some(((Expr::Neg(Box::new(e)), Span { start: t.1.start, end }), k))
                } else {
                    None
                }
            },
            None => None,
        },
        Token::LParen => match expr(ts, ix, at + 1) {
            Some((e, k)) => {
                if at + 1 < k && k < ix.len() {
                    let c = &ts[ix[k]];
                    proof {
                        assert(cs[k as int] == ts@[ix@[k as int] as int]);
                    }
                    match c.0 {
                        Token::RParen => Some(((Expr::Paren(Box::new(e)), Span { start: t.1.start, end: c.1.end }), k + 1)),
                        _ => None,
                    }
                } else {
                    None
                }
            },
            None => None,
        },
        Token::Rnd => {
            if at + 1 < ix.len() {
                proof {
                    assert(cs[at + 1] == ts@[ix@[at + 1] as int]);
                }
                match ts[ix[at + 1]].0 {
                    Token::LParen => {},
                    _ => { return None; },
                }
                match expr(ts, ix, at + 2) {
                    Some((a, k)) => {
                        if at + 2 < k && k < ix.len() {
                            proof {
                                assert(cs[k as int] == ts@[ix@[k as int] as int]);
                            }
                            match ts[ix[k]].0 {
                                Token::Comma => {},
                                _ => { return None; },
                            }
                            match expr(ts, ix, k + 1) {
                                Some((b, m)) => {
                                    if k + 1 < m && m < ix.len() {
                                        let c = &ts[ix[m]];
                                        proof {
                                            assert(cs[m as int] == ts@[ix@[m as int] as int]);
                                        }
                                        match c.0 {
                                            Token::RParen => Some((
                                                (Expr::Rnd(Box::new(a), Box::new(b)), Span { start: t.1.start, end: c.1.end }),
                                                m + 1,
                                            )),
                                            _ => None,
                                        }
                                    } else {
                                        None
                                    }
                                },
                                None => None,
                            }
                        } else {
                            None
                        }
                    },
                    None => None,
                }
            } else {
                None
            }
        },
        _ => None,
    }
}

fn mul_op_at(ts: &Vec<Spanned<Token>>, ix: &Vec<usize>, at: usize) -> (r: Option<u8>)
    requires
        ix_ok(ts@, ix@),
    ensures
        r == mul_op(picked(ts@, ix@), at as int),
        r is Some ==> at < ix@.len(),
{
    if at >= ix.len() {
        return None;
    }
    proof {
        assert(picked(ts@, ix@)[at as int] == ts@[ix@[at as int] as int]);
    }
    match ts[ix[at]].0 {
        Token::Star => Some(0u8),
        Token::FSlash => Some(1u8),
        Token::PCent => Some(2u8),
        _ => None,
    }
}

fn add_op_at(ts: &Vec<Spanned<Token>>, ix: &Vec<usize>, at: usize) -> (r: Option<u8>)
    requires
        ix_ok(ts@, ix@),
    ensures
        r == add_op(picked(ts@, ix@), at as int),
        r is Some ==> at < ix@.len(),
{
    if at >= ix.len() {
        return None;
    }
    proof {
        assert(picked(ts@, ix@)[at as int] == ts@[ix@[at as int] as int]);
    }
    match ts[ix[at]].0 {
        Token::Plus => Some(0u8),
        Token::Minus => Some(1u8),
        _ => None,
    }
}

fn mul_expr(op: u8, l: Spanned<Expr>, r: Spanned<Expr>) -> (e: Spanned<Expr>)
    ensures
        sexpr_view(e) == mul_v(op, sexpr_view(l), sexpr_view(r)),
{
    let span = Span { start: l.1.start, end: r.1.end };
    if op == 0 {
        (Expr::Star(Box::new(l), Box::new(r)), span)
    } else if op == 1 {
        (Expr::FSlash(Box::new(l), Box::new(r)), span)
    } else {
        (Expr::PCent(Box::new(l), Box::new(r)), span)
    }
}

fn add_expr(op: u8, l: Spanned<Expr>, r: Spanned<Expr>) -> (e: Spanned<Expr>)
    ensures
        sexpr_view(e) == add_v(op, sexpr_view(l), sexpr_view(r)),
{
    let span = Span { start: l.1.start, end: r.1.end };
    if op == 0 {
        (Expr::Plus(Box::new(l), Box::new(r)), span)
    } else {
        (Expr::Minus(Box::new(l), Box::new(r)), span)
    }
}

fn term(ts: &Vec<Spanned<Token>>, ix: &Vec<usize>, at: usize) -> (r: Option<(Spanned<Expr>, usize)>)
    requires
        ix_ok(ts@, ix@),
    ensures
        opt_expr(r) == term_v(picked(ts@, ix@), at as int),
    decreases ix@.len() - at, 2nat,
{
    let ghost cs = picked(ts@, ix@);
    match atom(ts, ix, at) {
        Some((e, k)) => {
            if at < k && k <= ix.len() {
                let mut acc = e;
                let mut pos = k;
                loop
                    invariant
                        ix_ok(ts@, ix@),
                        cs == picked(ts@, ix@),
                        at < pos <= ix@.len(),
                        term_v(cs, at as int) == term_tail_v(cs, pos as int, sexpr_view(acc)),
                    decreases ix@.len() - pos,
                {
                    let found = mul_op_at(ts, ix, pos);
                    if found.is_none() {
                        return Some((acc, pos));
                    }
                    let op = found.unwrap();
                    assert(pos < ix.len());
                    let next = pos + 1;
                    match atom(ts, ix, next) {
                        Some((r, m)) => {
                            if next < m && m <= ix.len() {
                                acc = mul_expr(op, acc, r);
                                pos = m;
                            } else {
                                return None;
                            }
                        },
                        None => { return None; },
                    }
                }
            } else {
                None
            }
        },
        None => None,
    }
}

fn expr(ts: &Vec<Spanned<Token>>, ix: &Vec<usize>, at: usize) -> (r: Option<(Spanned<Expr>, usize)>)
    requires
        ix_ok(ts@, ix@),
    ensures
        opt_expr(r) == expr_v(picked(ts@, ix@), at as int),
    decreases ix@.len() - at, 4nat,
{
    let ghost cs = picked(ts@, ix@);
    match term(ts, ix, at) {
        Some((e, k)) => {
            if at < k && k <= ix.len() {
                let mut acc = e;
                let mut pos = k;
                loop
                    invariant
                        ix_ok(ts@, ix@),
                        cs == picked(ts@, ix@),
                        at < pos <= ix@.len(),
                        expr_v(cs, at as int) == expr_tail_v(cs, pos as int, sexpr_view(acc)),
                    decreases ix@.len() - pos,
                {
                    let found = add_op_at(ts, ix, pos);
                    if found.is_none() {
                        return Some((acc, pos));
                    }
                    let op = found.unwrap();
                    assert(pos < ix.len());
                    let next = pos + 1;
                    match term(ts, ix, next) {
                        Some((r, m)) => {
                            if next < m && m <= ix.len() {
                                acc = add_expr(op, acc, r);
                                pos = m;
                            } else {
                                return None;
                            }
                        },
                        None => { return None; },
                    }
                }
            } else {
                None
            }
        },
        None => None,
    }
}


// ---------------------------------------------------------------------
// Statements.
//
// A statement is a section header `< NAME >`, `#include_drs` or
// `#includeXS` with a path (a string or a name), `#define NAME`,
// `#undefine NAME`, `#const NAME expression`, a condition
// `if e body (elseif e body)* (else body)? endif`, a random block
// `start_random (percent_chance e body)* end_random`, a command with the
// expressions after it, or a block `{ body }`. A body is the statements
// that follow one another.

/// Where the token at `at` starts (the end of the last token past them).
pub open spec fn pos_v(cs: Seq<Spanned<Token>>, at: int) -> usize {
    if 0 <= at < cs.len() {
        cs[at].1.start
    } else if cs.len() > 0 {
        cs.last().1.end
    } else {
        0
    }
}

/// The span of the statements `ns` read from `at`: from the first to the
/// last, or empty where they would start.
pub open spec fn body_span_v(cs: Seq<Spanned<Token>>, at: int, ns: Seq<(NodeV, Span)>) -> Span {
    if ns.len() == 0 {
        Span { start: pos_v(cs, at), end: pos_v(cs, at) }
    } else {
        Span { start: ns[0].1.start, end: ns.last().1.end }
    }
}

/// The name at `at`, with its span: any word (a name, or a word that would
/// otherwise be read as a command).
pub open spec fn name_at(cs: Seq<Spanned<Token>>, at: int) -> Option<(Seq<char>, Span)> {
    if 0 <= at < cs.len() {
        match cs[at].0 {
            Token::Identifier(id) => Some((id@, cs[at].1)),
            Token::Command(id) => Some((id@, cs[at].1)),
            _ => None,
        }
    } else {
        None
    }
}

/// `w` between double quotes.
pub open spec fn quoted(w: Seq<char>) -> Seq<char> {
    "\""@ + w + "\""@
}

/// The path of an include at `at`: a string literal as written, or a word
/// put between double quotes.
pub open spec fn path_at(cs: Seq<Spanned<Token>>, at: int) -> Option<Seq<char>> {
    if 0 <= at < cs.len() {
        match cs[at].0 {
            Token::Literal(Literal::Str(p)) => Some(p@),
            Token::Identifier(id) => Some(quoted(id@)),
            Token::Command(id) => Some(quoted(id@)),
            _ => None,
        }
    } else {
        None
    }
}

/// The token at `at` is `t` (compared by kind, for tokens without content).
pub open spec fn is_tok(cs: Seq<Spanned<Token>>, at: int, k: u8) -> bool {
    0 <= at < cs.len() && match cs[at].0 {
        Token::RParen => k == 0,
        Token::Gt => k == 1,
        Token::EndIf => k == 2,
        Token::Else => k == 3,
        Token::ElseIf => k == 4,
        Token::EndRandom => k == 5,
        Token::PercentChance => k == 6,
        Token::RBrace => k == 7,
        _ => false,
    }
}

/// The chance of an arm, when it is an int literal.
pub open spec fn chance_of(a: ArmV) -> Option<i64> {
    match a.0.0 {
        ExprV::Literal(LitV::Int(v)) => Some(v),
        _ => None,
    }
}

/// The arm `a` with the chance `v`.
pub open spec fn set_chance_v(a: ArmV, v: i64) -> ArmV {
    ((ExprV::Literal(LitV::Int(v)), a.0.1), a.1)
}

/// The sum of the int chances of `arms`.
pub open spec fn total_v(arms: Seq<ArmV>) -> int
    decreases arms.len(),
{
    if arms.len() == 0 {
        0
    } else {
        total_v(arms.drop_last()) + match chance_of(arms.last()) {
            Some(v) => v as int,
            None => 0,
        }
    }
}

/// The arms of a random block as read: the first arm's int chance one more,
/// then, when the int chances add up to more than a hundred, the last arm's
/// int chance one less (a chance at the end of the range of an `i64` is
/// left as it is).
pub open spec fn adjust_v(arms: Seq<ArmV>) -> Seq<ArmV> {
    let r = if arms.len() > 0 && chance_of(arms[0]) is Some && chance_of(arms[0])->0 < i64::MAX {
        arms.update(0, set_chance_v(arms[0], (chance_of(arms[0])->0 + 1) as i64))
    } else {
        arms
    };
    if total_v(r) > 100 && r.len() > 0 && chance_of(r.last()) is Some && chance_of(r.last())->0 > i64::MIN {
        r.update(r.len() - 1, set_chance_v(r.last(), (chance_of(r.last())->0 - 1) as i64))
    } else {
        r
    }
}

/// A statement at `at`, and the position after it.
pub open spec fn stmt_v(cs: Seq<Spanned<Token>>, at: int) -> Option<((NodeV, Span), int)>
    decreases cs.len() - at, 6nat,
{
    if at < 0 || at >= cs.len() {
        None
    } else {
        match cs[at].0 {
            Token::Lt => match name_at(cs, at + 1) {
                Some(n) => if is_tok(cs, at + 2, 1) {
                    Some(((NodeV::SectionStart(n), span_v(cs, at, at + 2)), at + 3))
                } else {
                    None
                },
                None => None,
            },
            Token::IncludeXs => match path_at(cs, at + 1) {
                Some(p) => Some(((NodeV::IncludeXs((p, span_v(cs, at, at + 1))), span_v(cs, at, at + 1)), at + 2)),
                None => None,
            },
            Token::IncludeDrs => match path_at(cs, at + 1) {
                Some(p) => Some(((NodeV::IncludeDrs((p, span_v(cs, at, at + 1))), span_v(cs, at, at + 1)), at + 2)),
                None => None,
            },
            Token::Define => match name_at(cs, at + 1) {
                Some(n) => Some(((NodeV::LabelDef(n), span_v(cs, at, at + 1)), at + 2)),
                None => None,
            },
            Token::Undefine => match name_at(cs, at + 1) {
                Some(n) => Some(((NodeV::UnDef(n), span_v(cs, at, at + 1)), at + 2)),
                None => None,
            },
            Token::Const => match name_at(cs, at + 1) {
                Some(n) => match expr_v(cs, at + 2) {
                    Some((e, k)) => if at + 2 < k <= cs.len() {
                        Some(((NodeV::ConstDef { name: n, value: e }, span_v(cs, at, k - 1)), k))
                    } else {
                        None
                    },
                    None => None,
                },
                None => None,
            },
            Token::If => match expr_v(cs, at + 1) {
                Some((c, k)) => if at + 1 < k <= cs.len() {
                    let (b, m) = body_block_v(cs, k);
                    if k <= m <= cs.len() {
                        let (conds, n) = elif_v(cs, m, seq![(c, b)]);
                        if m <= n <= cs.len() {
                            if is_tok(cs, n, 3) {
                                let (eb, e) = body_block_v(cs, n + 1);
                                if n + 1 <= e && is_tok(cs, e, 2) {
                                    Some(((NodeV::IfElseIf { consequents: conds, alternate: Some(eb) }, span_v(cs, at, e)), e + 1))
                                } else {
                                    None
                                }
                            } else if is_tok(cs, n, 2) {
                                Some(((NodeV::IfElseIf { consequents: conds, alternate: None }, span_v(cs, at, n)), n + 1))
                            } else {
                                None
                            }
                        } else {
                            None
                        }
                    } else {
                        None
                    }
                } else {
                    None
                },
                None => None,
            },
            Token::StartRandom => {
                let (arms, n) = arms_v(cs, at + 1, Seq::empty());
                if at + 1 <= n && is_tok(cs, n, 5) {
                    Some(((NodeV::Random { arms: adjust_v(arms) }, span_v(cs, at, n)), n + 1))
                } else {
                    None
                }
            },
            Token::Command(c) => {
                let (ps, n) = params_v(cs, at + 1, Seq::empty());
                if at + 1 <= n <= cs.len() {
                    Some(((NodeV::Command { name: (c@, cs[at].1), params: ps }, span_v(cs, at, n - 1)), n))
                } else {
                    None
                }
            },
            Token::LBrace => {
                let (b, m) = body_block_v(cs, at + 1);
                if at + 1 <= m && is_tok(cs, m, 7) {
                    Some(((NodeV::Block((b.0, span_v(cs, at, m))), span_v(cs, at, m)), m + 1))
                } else {
                    None
                }
            },
            _ => None,
        }
    }
}

/// The statements from `at` on, after those of `acc`, and the position
/// after them.
pub open spec fn body_v(cs: Seq<Spanned<Token>>, at: int, acc: Seq<(NodeV, Span)>) -> (Seq<(NodeV, Span)>, int)
    decreases cs.len() - at, 7nat,
{
    match stmt_v(cs, at) {
        Some((n, k)) => if at < k <= cs.len() { body_v(cs, k, acc.push(n)) } else { (acc, at) },
        None => (acc, at),
    }
}

/// The body at `at`, with its span, and the position after it.
pub open spec fn body_block_v(cs: Seq<Spanned<Token>>, at: int) -> ((Seq<(NodeV, Span)>, Span), int)
    decreases cs.len() - at, 8nat,
{
    let (ns, k) = body_v(cs, at, Seq::empty());
    ((ns, body_span_v(cs, at, ns)), k)
}

/// The `elseif` branches from `at` on, after those of `acc`.
pub open spec fn elif_v(cs: Seq<Spanned<Token>>, at: int, acc: Seq<ArmV>) -> (Seq<ArmV>, int)
    decreases cs.len() - at, 5nat,
{
    if is_tok(cs, at, 4) {
        match expr_v(cs, at + 1) {
            Some((c, k)) => if at + 1 < k <= cs.len() {
                let (b, m) = body_block_v(cs, k);
                if k <= m <= cs.len() { elif_v(cs, m, acc.push((c, b))) } else { (acc, at) }
            } else {
                (acc, at)
            },
            None => (acc, at),
        }
    } else {
        (acc, at)
    }
}

/// The `percent_chance` arms from `at` on, after those of `acc`.
pub open spec fn arms_v(cs: Seq<Spanned<Token>>, at: int, acc: Seq<ArmV>) -> (Seq<ArmV>, int)
    decreases cs.len() - at, 5nat,
{
    if is_tok(cs, at, 6) {
        match expr_v(cs, at + 1) {
            Some((c, k)) => if at + 1 < k <= cs.len() {
                let (b, m) = body_block_v(cs, k);
                if k <= m <= cs.len() { arms_v(cs, m, acc.push((c, b))) } else { (acc, at) }
            } else {
                (acc, at)
            },
            None => (acc, at),
        }
    } else {
        (acc, at)
    }
}

/// The expressions after a command from `at` on, after those of `acc`.
pub open spec fn params_v(cs: Seq<Spanned<Token>>, at: int, acc: Seq<(ExprV, Span)>) -> (Seq<(ExprV, Span)>, int)
    decreases cs.len() - at, 5nat,
{
    match expr_v(cs, at) {
        Some((e, k)) => if at < k <= cs.len() { params_v(cs, k, acc.push(e)) } else { (acc, at) },
        None => (acc, at),
    }
}

/// The message of an error at the token `t`.
pub open spec fn unexpected_v(t: Token) -> Seq<char> {
    "unexpected "@ + token_text(t)
}

/// A whole file from `at` on: the statements, and an error for each token
/// where no statement can start, which is skipped.
pub open spec fn file_v(
    cs: Seq<Spanned<Token>>,
    at: int,
    nodes: Seq<(NodeV, Span)>,
    errs: Seq<(Span, Seq<char>)>,
) -> (Seq<(NodeV, Span)>, Seq<(Span, Seq<char>)>)
    decreases cs.len() - at,
{
    let (ns, k) = body_v(cs, at, nodes);
    if at <= k < cs.len() {
        file_v(cs, k + 1, ns, errs.push((cs[k].1, unexpected_v(cs[k].0))))
    } else {
        (ns, errs)
    }
}

/// The statements of a file read from the tokens `ts`, and the errors found.
pub open spec fn parse_v(ts: Seq<Spanned<Token>>) -> (Seq<(NodeV, Span)>, Seq<(Span, Seq<char>)>) {
    file_v(code_v(ts), 0, Seq::empty(), Seq::empty())
}


/// The value of an optional statement found by the reader.
pub open spec fn opt_node(r: Option<(Spanned<AstNode>, usize)>) -> Option<((NodeV, Span), int)> {
    match r {
        Some((n, k)) => Some(((node_view(n.0), n.1), k as int)),
        None => None,
    }
}

/// The value of an arm.
pub open spec fn arm_view(a: (Spanned<Expr>, Spanned<Body>)) -> ArmV {
    (sexpr_view(a.0), (nodes_view(a.1.0@), a.1.1))
}

proof fn lemma_nodes_push(v: Seq<Spanned<AstNode>>, x: Spanned<AstNode>)
    ensures
        nodes_view(v.push(x)) == nodes_view(v).push((node_view(x.0), x.1)),
{
    assert(nodes_view(v.push(x)) =~= nodes_view(v).push((node_view(x.0), x.1)));
}

proof fn lemma_arms_push(v: Seq<(Spanned<Expr>, Spanned<Body>)>, x: (Spanned<Expr>, Spanned<Body>))
    ensures
        arms_view(v.push(x)) == arms_view(v).push(arm_view(x)),
{
    assert(arms_view(v.push(x)) =~= arms_view(v).push(arm_view(x)));
}

proof fn lemma_arms_update(v: Seq<(Spanned<Expr>, Spanned<Body>)>, i: int, x: (Spanned<Expr>, Spanned<Body>))
    requires
        0 <= i < v.len(),
    ensures
        arms_view(v.update(i, x)) == arms_view(v).update(i, arm_view(x)),
{
    assert(arms_view(v.update(i, x)) =~= arms_view(v).update(i, arm_view(x)));
}

/// Where the token at `at` starts (see [`pos_v`]).
fn pos_at(ts: &Vec<Spanned<Token>>, ix: &Vec<usize>, at: usize) -> (r: usize)
    requires
        ix_ok(ts@, ix@),
    ensures
        r == pos_v(picked(ts@, ix@), at as int),
{
    let ghost cs = picked(ts@, ix@);
    if at < ix.len() {
        proof {
            assert(cs[at as int] == ts@[ix@[at as int] as int]);
        }
        ts[ix[at]].1.start
    } else if ix.len() > 0 {
        proof {
            assert(cs[ix@.len() - 1] == ts@[ix@[ix@.len() - 1] as int]);
        }
        ts[ix[ix.len() - 1]].1.end
    } else {
        0
    }
}

/// The span from the token at `a` to the token at `b`.
fn span_of(ts: &Vec<Spanned<Token>>, ix: &Vec<usize>, a: usize, b: usize) -> (r: Span)
    requires
        ix_ok(ts@, ix@),
        a < ix@.len(),
        b < ix@.len(),
    ensures
        r == span_v(picked(ts@, ix@), a as int, b as int),
{
    proof {
        assert(picked(ts@, ix@)[a as int] == ts@[ix@[a as int] as int]);
        assert(picked(ts@, ix@)[b as int] == ts@[ix@[b as int] as int]);
    }
    Span { start: ts[ix[a]].1.start, end: ts[ix[b]].1.end }
}

/// The name at `at`, with its span.
fn name_tok(ts: &Vec<Spanned<Token>>, ix: &Vec<usize>, at: usize) -> (r: Option<Spanned<Identifier>>)
    requires
        ix_ok(ts@, ix@),
    ensures
        match r {
            Some(n) => name_at(picked(ts@, ix@), at as int) == Some((n.0@, n.1)) && at < ix@.len(),
            None => name_at(picked(ts@, ix@), at as int) is None,
        },
{
    if at >= ix.len() {
        return None;
    }
    proof {
        assert(picked(ts@, ix@)[at as int] == ts@[ix@[at as int] as int]);
    }
    let t = &ts[ix[at]];
    match &t.0 {
        Token::Identifier(id) => Some((id.clone(), t.1)),
        Token::Command(id) => Some((id.clone(), t.1)),
        _ => None,
    }
}

/// `w` between double quotes.
fn quote(w: &str) -> (r: String)
    ensures
        r@ == quoted(w@),
{
    let a = concat("\"", w);
    concat(a.as_str(), "\"")
}

/// The path of an include at `at`.
fn path_tok(ts: &Vec<Spanned<Token>>, ix: &Vec<usize>, at: usize) -> (r: Option<String>)
    requires
        ix_ok(ts@, ix@),
    ensures
        match r {
            Some(p) => path_at(picked(ts@, ix@), at as int) == Some(p@) && at < ix@.len(),
            None => path_at(picked(ts@, ix@), at as int) is None,
        },
{
    if at >= ix.len() {
        return None;
    }
    proof {
        assert(picked(ts@, ix@)[at as int] == ts@[ix@[at as int] as int]);
    }
    match &ts[ix[at]].0 {
        Token::Literal(Literal::Str(p)) => Some(string_from(p.as_str())),
        Token::Identifier(id) => Some(quote(id.0.as_str())),
        Token::Command(id) => Some(quote(id.0.as_str())),
        _ => None,
    }
}

/// Whether the token at `at` is of the kind `k` (see [`is_tok`]).
fn is_tok_at(ts: &Vec<Spanned<Token>>, ix: &Vec<usize>, at: usize, k: u8) -> (r: bool)
    requires
        ix_ok(ts@, ix@),
    ensures
        r == is_tok(picked(ts@, ix@), at as int, k),
        r ==> at < ix@.len(),
{
    if at >= ix.len() {
        return false;
    }
    proof {
        assert(picked(ts@, ix@)[at as int] == ts@[ix@[at as int] as int]);
    }
    match ts[ix[at]].0 {
        Token::RParen => k == 0,
        Token::Gt => k == 1,
        Token::EndIf => k == 2,
        Token::Else => k == 3,
        Token::ElseIf => k == 4,
        Token::EndRandom => k == 5,
        Token::PercentChance => k == 6,
        Token::RBrace => k == 7,
        _ => false,
    }
}

/// The body at `at`, with its span, and the position after it.
fn body_block(ts: &Vec<Spanned<Token>>, ix: &Vec<usize>, at: usize) -> (r: (Spanned<Body>, usize))
    requires
        ix_ok(ts@, ix@),
    ensures
        ((nodes_view(r.0.0@), r.0.1), r.1 as int) == body_block_v(picked(ts@, ix@), at as int),
    decreases ix@.len() - at, 8nat,
{
    let ghost cs = picked(ts@, ix@);
    let mut v: Vec<Spanned<AstNode>> = Vec::new();
    let mut pos = at;
    proof {
        assert(nodes_view(v@) =~= Seq::<(NodeV, Span)>::empty());
    }
    loop
        invariant
            ix_ok(ts@, ix@),
            cs == picked(ts@, ix@),
            at <= pos,
            pos > at ==> pos <= ix@.len(),
            body_v(cs, at as int, Seq::empty()) == body_v(cs, pos as int, nodes_view(v@)),
            v@.len() == 0 ==> pos == at,
        ensures
            body_v(cs, at as int, Seq::empty()) == (nodes_view(v@), pos as int),
            v@.len() == 0 ==> pos == at,
        decreases ix@.len() - pos,
    {
        match stmt(ts, ix, pos) {
            Some((n, k)) => {
                if pos < k && k <= ix.len() {
                    let ghost old_v = v@;
                    v.push(n);
                    proof {
                        lemma_nodes_push(old_v, n);
                    }
                    pos = k;
                } else {
                    break;
                }
            },
            None => {
                break;
            },
        }
    }
    let span = if v.len() == 0 {
        let p = pos_at(ts, ix, at);
        Span { start: p, end: p }
    } else {
        Span { start: v[0].1.start, end: v[v.len() - 1].1.end }
    };
    ((v, span), pos)
}

/// The `elseif` branches from `at` on, after those of `acc`.
fn elifs(ts: &Vec<Spanned<Token>>, ix: &Vec<usize>, at: usize, acc: Vec<(Spanned<Expr>, Spanned<Body>)>) -> (r: (Vec<(Spanned<Expr>, Spanned<Body>)>, usize))
    requires
        ix_ok(ts@, ix@),
    ensures
        (arms_view(r.0@), r.1 as int) == elif_v(picked(ts@, ix@), at as int, arms_view(acc@)),
    decreases ix@.len() - at, 5nat,
{
    let ghost cs = picked(ts@, ix@);
    let ghost acc0 = arms_view(acc@);
    let mut acc = acc;
    let mut pos = at;
    loop
        invariant
            ix_ok(ts@, ix@),
            cs == picked(ts@, ix@),
            at <= pos,
            pos > at ==> pos <= ix@.len(),
            elif_v(cs, at as int, acc0) == elif_v(cs, pos as int, arms_view(acc@)),
        ensures
            elif_v(cs, at as int, acc0) == (arms_view(acc@), pos as int),
        decreases ix@.len() - pos,
    {
        let found = is_tok_at(ts, ix, pos, 4);
        if !found {
            break;
        }
        assert(pos < ix.len());
        let next = pos + 1;
        match expr(ts, ix, next) {
            Some((c, k)) => {
                if pos + 1 < k && k <= ix.len() {
                    let (b, m) = body_block(ts, ix, k);
                    if k <= m && m <= ix.len() {
                        let ghost old = acc@;
                        let arm = (c, b);
                        acc.push(arm);
                        proof {
                            lemma_arms_push(old, arm);
                        }
                        pos = m;
                    } else {
                        break;
                    }
                } else {
                    break;
                }
            },
            None => {
                break;
            },
        }
    }
    (acc, pos)
}


/// The `percent_chance` arms from `at` on.
fn arms(ts: &Vec<Spanned<Token>>, ix: &Vec<usize>, at: usize) -> (r: (Vec<(Spanned<Expr>, Spanned<Body>)>, usize))
    requires
        ix_ok(ts@, ix@),
    ensures
        (arms_view(r.0@), r.1 as int) == arms_v(picked(ts@, ix@), at as int, Seq::empty()),
    decreases ix@.len() - at, 5nat,
{
    let ghost cs = picked(ts@, ix@);
    let mut acc: Vec<(Spanned<Expr>, Spanned<Body>)> = Vec::new();
    let mut pos = at;
    proof {
        assert(arms_view(acc@) =~= Seq::<ArmV>::empty());
    }
    loop
        invariant
            ix_ok(ts@, ix@),
            cs == picked(ts@, ix@),
            at <= pos,
            pos > at ==> pos <= ix@.len(),
            arms_v(cs, at as int, Seq::empty()) == arms_v(cs, pos as int, arms_view(acc@)),
        ensures
            arms_v(cs, at as int, Seq::empty()) == (arms_view(acc@), pos as int),
        decreases ix@.len() - pos,
    {
        let found = is_tok_at(ts, ix, pos, 6);
        if !found {
            break;
        }
        assert(pos < ix.len());
        let next = pos + 1;
        match expr(ts, ix, next) {
            Some((c, k)) => {
                if pos + 1 < k && k <= ix.len() {
                    let (b, m) = body_block(ts, ix, k);
                    if k <= m && m <= ix.len() {
                        let ghost old = acc@;
                        let arm = (c, b);
                        acc.push(arm);
                        proof {
                            lemma_arms_push(old, arm);
                        }
                        pos = m;
                    } else {
                        break;
                    }
                } else {
                    break;
                }
            },
            None => {
                break;
            },
        }
    }
    (acc, pos)
}

/// The expressions after a command, from `at` on.
fn params(ts: &Vec<Spanned<Token>>, ix: &Vec<usize>, at: usize) -> (r: (Vec<Spanned<Expr>>, usize))
    requires
        ix_ok(ts@, ix@),
    ensures
        (exprs_view(r.0@), r.1 as int) == params_v(picked(ts@, ix@), at as int, Seq::empty()),
{
    let ghost cs = picked(ts@, ix@);
    let mut acc: Vec<Spanned<Expr>> = Vec::new();
    let mut pos = at;
    proof {
        assert(exprs_view(acc@) =~= Seq::<(ExprV, Span)>::empty());
    }
    loop
        invariant
            ix_ok(ts@, ix@),
            cs == picked(ts@, ix@),
            at <= pos,
            params_v(cs, at as int, Seq::empty()) == params_v(cs, pos as int, exprs_view(acc@)),
        ensures
            params_v(cs, at as int, Seq::empty()) == (exprs_view(acc@), pos as int),
        decreases ix@.len() - pos,
    {
        match expr(ts, ix, pos) {
            Some((e, k)) => {
                if pos < k && k <= ix.len() {
                    let ghost old = acc@;
                    let ghost ev = sexpr_view(e);
                    acc.push(e);
                    proof {
                        assert(exprs_view(acc@) =~= exprs_view(old).push(ev));
                    }
                    pos = k;
                } else {
                    break;
                }
            },
            None => {
                break;
            },
        }
    }
    (acc, pos)
}

/// The int chance of an arm.
fn arm_chance_of(a: &(Spanned<Expr>, Spanned<Body>)) -> (r: Option<i64>)
    ensures
        r == chance_of(arm_view(*a)),
{
    match &a.0.0 {
        Expr::Literal(Literal::Int(v)) => Some(*v),
        _ => None,
    }
}

/// The arm `a` with the chance `v`.
fn set_chance(a: (Spanned<Expr>, Spanned<Body>), v: i64) -> (r: (Spanned<Expr>, Spanned<Body>))
    ensures
        arm_view(r) == set_chance_v(arm_view(a), v),
{
    let ((_, span), body) = a;
    ((Expr::Literal(Literal::Int(v)), span), body)
}

/// Adjusts the chances of the arms of a random block (see [`adjust_v`]).
fn adjust(arms: &mut Vec<(Spanned<Expr>, Spanned<Body>)>)
    ensures
        arms_view(final(arms)@) == adjust_v(arms_view(old(arms)@)),
{
    let ghost a0 = arms_view(arms@);
    if arms.len() > 0 {
        match arm_chance_of(&arms[0]) {
            Some(v) => {
                if v < i64::MAX {
                    let a = arms.remove(0);
                    let ghost rest = arms@;
                    let b = set_chance(a, v + 1);
                    arms.insert(0, b);
                    proof {
                        assert(arms@ =~= old(arms)@.update(0, b));
                        lemma_arms_update(old(arms)@, 0, b);
                    }
                }
            },
            None => {},
        }
    }
    let ghost r = arms_view(arms@);
    let mut total: i128 = 0;
    let mut i: usize = 0;
    while i < arms.len()
        invariant
            i <= arms@.len(),
            r == arms_view(arms@),
            total == total_v(r.take(i as int)),
            -(i as int) * 0x8000_0000_0000_0000 <= total <= (i as int) * 0x8000_0000_0000_0000,
        decreases arms@.len() - i,
    {
        proof {
            assert(r.take(i + 1).drop_last() =~= r.take(i as int));
            assert(r[i as int] == arm_view(arms@[i as int]));
        }
        match arm_chance_of(&arms[i]) {
            Some(v) => {
                total = total + v as i128;
            },
            None => {},
        }
        i += 1;
    }
    proof {
        assert(r.take(r.len() as int) =~= r);
    }
    if total > 100 && arms.len() > 0 {
        let n = arms.len();
        match arm_chance_of(&arms[n - 1]) {
            Some(v) => {
                if v > i64::MIN {
                    let ghost before = arms@;
                    let a = arms.remove(n - 1);
                    let b = set_chance(a, v - 1);
                    arms.push(b);
                    proof {
                        assert(arms@ =~= before.update(n - 1, b));
                        lemma_arms_update(before, n - 1, b);
                    }
                }
            },
            None => {},
        }
    }
}


/// A statement at `at`, and the position after it.
#[verifier::rlimit(80)]
#[verifier::spinoff_prover]
fn stmt(ts: &Vec<Spanned<Token>>, ix: &Vec<usize>, at: usize) -> (r: Option<(Spanned<AstNode>, usize)>)
    requires
        ix_ok(ts@, ix@),
    ensures
        opt_node(r) == stmt_v(picked(ts@, ix@), at as int),
    decreases ix@.len() - at, 6nat,
{
    let ghost cs = picked(ts@, ix@);
    if at >= ix.len() {
        return None;
    }
    proof {
        assert(cs[at as int] == ts@[ix@[at as int] as int]);
    }
    let t = &ts[ix[at]];
    match &t.0 {
        Token::Lt => match name_tok(ts, ix, at + 1) {
            Some(n) => {
                if is_tok_at(ts, ix, at + 2, 1) {
                    let span = span_of(ts, ix, at, at + 2);
                    Some(((AstNode::SectionStart(n), span), at + 3))
                } else {
                    None
                }
            },
            None => None,
        },
        Token::IncludeXs => match path_tok(ts, ix, at + 1) {
            Some(p) => {
                let span = span_of(ts, ix, at, at + 1);
                Some(((AstNode::IncludeXs((p, span)), span), at + 2))
            },
            None => None,
        },
        Token::IncludeDrs => match path_tok(ts, ix, at + 1) {
            Some(p) => {
                let span = span_of(ts, ix, at, at + 1);
                Some(((AstNode::IncludeDrs((p, span)), span), at + 2))
            },
            None => None,
        },
        Token::Define => match name_tok(ts, ix, at + 1) {
            Some(n) => {
                let span = span_of(ts, ix, at, at + 1);
                Some(((AstNode::LabelDef(n), span), at + 2))
            },
            None => None,
        },
        Token::Undefine => match name_tok(ts, ix, at + 1) {
            Some(n) => {
                let span = span_of(ts, ix, at, at + 1);
                Some(((AstNode::UnDef(n), span), at + 2))
            },
            None => None,
        },
        Token::Const => match name_tok(ts, ix, at + 1) {
            Some(n) => match expr(ts, ix, at + 2) {
                Some((e, k)) => {
                    if at + 2 < k && k <= ix.len() {
                        let span = span_of(ts, ix, at, k - 1);
                        Some(((AstNode::ConstDef { name: n, value: e }, span), k))
                    } else {
                        None
                    }
                },
                None => None,
            },
            None => None,
        },
        Token::If => match expr(ts, ix, at + 1) {
            Some((c, k)) => {
                if !(at + 1 < k && k <= ix.len()) {
                    return None;
                }
                let (b, m) = body_block(ts, ix, k);
                if !(k <= m && m <= ix.len()) {
                    return None;
                }
                let first = (c, b);
                let mut conds: Vec<(Spanned<Expr>, Spanned<Body>)> = Vec::new();
                conds.push(first);
                proof {
                    assert(arms_view(conds@) =~= seq![arm_view(first)]);
                }
                let (conds, n) = elifs(ts, ix, m, conds);
                if !(m <= n && n <= ix.len()) {
                    return None;
                }
                if is_tok_at(ts, ix, n, 3) {
                    let (eb, e) = body_block(ts, ix, n + 1);
                    if n + 1 <= e && is_tok_at(ts, ix, e, 2) {
                        let span = span_of(ts, ix, at, e);
                        Some(((AstNode::IfElseIf { consequents: conds, alternate: Some(eb) }, span), e + 1))
                    } else {
                        None
                    }
                } else if is_tok_at(ts, ix, n, 2) {
                    let span = span_of(ts, ix, at, n);
                    Some(((AstNode::IfElseIf { consequents: conds, alternate: None }, span), n + 1))
                } else {
                    None
                }
            },
            None => None,
        },
        Token::StartRandom => {
            let (mut a, n) = arms(ts, ix, at + 1);
            if at + 1 <= n && is_tok_at(ts, ix, n, 5) {
                adjust(&mut a);
                let span = span_of(ts, ix, at, n);
                Some(((AstNode::Random { arms: a }, span), n + 1))
            } else {
                None
            }
        },
        Token::Command(c) => {
            let (ps, n) = params(ts, ix, at + 1);
            if at + 1 <= n && n <= ix.len() {
                let span = span_of(ts, ix, at, n - 1);
                Some(((AstNode::Command { name: (c.clone(), t.1), params: ps }, span), n))
            } else {
                None
            }
        },
        Token::LBrace => {
            let (b, m) = body_block(ts, ix, at + 1);
            if at + 1 <= m && is_tok_at(ts, ix, m, 7) {
                let span = span_of(ts, ix, at, m);
                Some(((AstNode::Block((b.0, span)), span), m + 1))
            } else {
                None
            }
        },
        _ => None,
    }
}


/// The statements of a body read after `acc` are those of `acc` followed by
/// those read alone.
proof fn lemma_body_acc(cs: Seq<Spanned<Token>>, at: int, acc: Seq<(NodeV, Span)>)
    ensures
        body_v(cs, at, acc) == (acc + body_v(cs, at, Seq::empty()).0, body_v(cs, at, Seq::empty()).1),
    decreases cs.len() - at,
{
    match stmt_v(cs, at) {
        Some((n, k)) => {
            if at < k <= cs.len() {
                lemma_body_acc(cs, k, acc.push(n));
                lemma_body_acc(cs, k, seq![n]);
                assert(Seq::<(NodeV, Span)>::empty().push(n) =~= seq![n]);
                assert(acc.push(n) + body_v(cs, k, Seq::empty()).0 =~= acc + (seq![n] + body_v(cs, k, Seq::empty()).0));
            } else {
                assert(acc + Seq::<(NodeV, Span)>::empty() =~= acc);
            }
        },
        None => {
            assert(acc + Seq::<(NodeV, Span)>::empty() =~= acc);
        },
    }
}

/// Reads the statements of the file at `path` from its tokens: comments are
/// set aside, statements are read one after another, and where no statement
/// can start, an error names the token, which is skipped.
pub fn parse_file(path: &str, tokens: &Vec<Spanned<Token>>) -> (r: SourceFile)
    ensures
        r.path@ == path@,
        (nodes_view(r.ast@), parse_errs_view(r.parse_errs@)) == parse_v(tokens@),
        comments_view(r.comments@) == comments_v(tokens@),
{
    let ghost ts = tokens@;
    let mut ix: Vec<usize> = Vec::new();
    let mut comments: Vec<Spanned<String>> = Vec::new();
    let mut i: usize = 0;
    proof {
        assert(ts.take(0) =~= Seq::<Spanned<Token>>::empty());
        assert(picked(ts, ix@) =~= Seq::<Spanned<Token>>::empty());
        assert(comments_view(comments@) =~= Seq::<(Seq<char>, Span)>::empty());
    }
    while i < tokens.len()
        invariant
            i <= ts.len(),
            ts == tokens@,
            ix_ok(ts, ix@),
            picked(ts, ix@) == code_v(ts.take(i as int)),
            comments_view(comments@) == comments_v(ts.take(i as int)),
        decreases ts.len() - i,
    {
        proof {
            assert(ts.take(i + 1).drop_last() =~= ts.take(i as int));
            assert(ts.take(i + 1).last() == ts[i as int]);
        }
        let ghost old_ix = ix@;
        let ghost old_c = comments@;
        match &tokens[i].0 {
            Token::Comment(t) => {
                let c = (string_from(t.as_str()), tokens[i].1);
                comments.push(c);
                proof {
                    assert(comments_view(comments@) =~= comments_view(old_c).push((c.0@, c.1)));
                }
            },
            _ => {
                ix.push(i);
                proof {
                    assert(picked(ts, ix@) =~= picked(ts, old_ix).push(ts[i as int]));
                }
            },
        }
        i += 1;
    }
    proof {
        assert(ts.take(ts.len() as int) =~= ts);
    }
    let ghost cs = picked(ts, ix@);
    let mut nodes: Vec<Spanned<AstNode>> = Vec::new();
    let mut errs: Vec<ParseError> = Vec::new();
    let mut pos: usize = 0;
    proof {
        assert(nodes_view(nodes@) =~= Seq::<(NodeV, Span)>::empty());
        assert(parse_errs_view(errs@) =~= Seq::<(Span, Seq<char>)>::empty());
    }
    loop
        invariant_except_break
            file_v(cs, 0, Seq::empty(), Seq::empty()) == file_v(cs, pos as int, nodes_view(nodes@), parse_errs_view(errs@)),
        invariant
            ts == tokens@,
            ix_ok(ts, ix@),
            cs == picked(ts, ix@),
            cs == code_v(ts),
            pos <= ix@.len(),
        ensures
            file_v(cs, 0, Seq::empty(), Seq::empty()) == (nodes_view(nodes@), parse_errs_view(errs@)),
        decreases ix@.len() - pos,
    {
        let ghost nv = nodes_view(nodes@);
        let ghost ev = parse_errs_view(errs@);
        let (b, k) = body_block(tokens, &ix, pos);
        let mut stmts = b.0;
        let ghost sv = stmts@;
        proof {
            lemma_body_acc(cs, pos as int, nv);
        }
        nodes.append(&mut stmts);
        proof {
            assert(nodes_view(nodes@) =~= nv + nodes_view(sv));
        }
        if pos <= k && k < ix.len() {
            let t = &tokens[ix[k]];
            proof {
                assert(cs[k as int] == ts[ix@[k as int] as int]);
            }
            let shown = t.0.to_display_string();
            let msg = concat("unexpected ", shown.as_str());
            let e = ParseError { span: t.1, msg };
            errs.push(e);
            proof {
                assert(parse_errs_view(errs@) =~= ev.push((cs[k as int].1, unexpected_v(cs[k as int].0))));
            }
            pos = k + 1;
        } else {
            break;
        }
    }
    SourceFile { path: string_from(path), ast: nodes, comments, parse_errs: errs }
}

} // verus!
