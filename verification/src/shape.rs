use vstd::prelude::*;
use crate::ast::{AstNode, Expr, Spanned};
use crate::type_check::expr_spans_ok;
use crate::statement::{body_ok, stmt_ok, include_name_ok};

verus! {

// ---------------------------------------------------------------------
// Whether statements have the shape that a check relies on.

/// Whether each part of the expression starts no earlier than a negation
/// around it (see [`expr_spans_ok`]).
pub fn expr_spans_checked(e: &Spanned<Expr>) -> (r: bool)
    ensures
        r == expr_spans_ok(*e),
    decreases e,
{
    match &e.0 {
        Expr::Rnd(a, b) => expr_spans_checked(a) && expr_spans_checked(b),
        Expr::Literal(_) => true,
        Expr::Identifier(_) => true,
        Expr::Paren(a) => expr_spans_checked(a),
        Expr::Neg(a) => a.1.start >= e.1.start && expr_spans_checked(a),
        Expr::Star(a, b) => expr_spans_checked(a) && expr_spans_checked(b),
        Expr::FSlash(a, b) => expr_spans_checked(a) && expr_spans_checked(b),
        Expr::PCent(a, b) => expr_spans_checked(a) && expr_spans_checked(b),
        Expr::Minus(a, b) => expr_spans_checked(a) && expr_spans_checked(b),
        Expr::Plus(a, b) => expr_spans_checked(a) && expr_spans_checked(b),
    }
}

/// Whether an include's file name has a first and a last character that
/// are single bytes (see [`include_name_ok`]).
pub fn include_name_checked(f: &String) -> (r: bool)
    ensures
        r == include_name_ok(f@),
{
    let s = f.as_str();
    let n = s.unicode_len();
    if n < 2 {
        return false;
    }
    s.get_char(0) <= '\u{7f}' && s.get_char(n - 1) <= '\u{7f}'
}

/// Whether every expression of a list has the expected shape.
fn exprs_checked(ps: &Vec<Spanned<Expr>>) -> (r: bool)
    ensures
        r == (forall|i: int| 0 <= i < ps@.len() ==> expr_spans_ok(#[trigger] ps@[i])),
{
    let mut i: usize = 0;
    while i < ps.len()
        invariant
            i <= ps@.len(),
            forall|j: int| 0 <= j < i ==> expr_spans_ok(#[trigger] ps@[j]),
        decreases ps@.len() - i,
    {
        if !expr_spans_checked(&ps[i]) {
            return false;
        }
        i += 1;
    }
    true
}

/// Whether the statement has the shape that a check relies on (see
/// [`stmt_ok`]).
#[verifier::loop_isolation(false)]
pub fn stmt_checked(s: &Spanned<AstNode>, drs: bool) -> (r: bool)
    ensures
        r == stmt_ok(*s, drs),
    decreases s,
{
    match &s.0 {
        AstNode::IncludeDrs(f) => drs && include_name_checked(&f.0),
        AstNode::IncludeXs(f) => include_name_checked(&f.0),
        AstNode::ConstDef { name: _, value } => expr_spans_checked(value),
        AstNode::IfElseIf { consequents, alternate } => {
            let mut i: usize = 0;
            while i < consequents.len()
                invariant
                    i <= consequents@.len(),
                    forall|j: int| 0 <= j < i ==> expr_spans_ok(#[trigger] consequents@[j].0),
                    forall|j: int| 0 <= j < i ==> body_ok((#[trigger] consequents@[j]).1.0@, drs),
                decreases consequents@.len() - i,
            {
                if !expr_spans_checked(&consequents[i].0) {
                    return false;
                }
                proof {
                    assert(decreases_to!(*s => consequents@[i as int].1.0));
                }
                if !body_checked(&consequents[i].1.0, drs) {
                    return false;
                }
                i += 1;
            }
            match alternate {
                Some(b) => body_checked(&b.0, drs),
                None => true,
            }
        },
        AstNode::Random { arms } => {
            let mut i: usize = 0;
            while i < arms.len()
                invariant
                    i <= arms@.len(),
                    forall|j: int| 0 <= j < i ==> expr_spans_ok(#[trigger] arms@[j].0),
                    forall|j: int| 0 <= j < i ==> body_ok((#[trigger] arms@[j]).1.0@, drs),
                decreases arms@.len() - i,
            {
                if !expr_spans_checked(&arms[i].0) {
                    return false;
                }
                proof {
                    assert(decreases_to!(*s => arms@[i as int].1.0));
                }
                if !body_checked(&arms[i].1.0, drs) {
                    return false;
                }
                i += 1;
            }
            true
        },
        AstNode::Command { name: _, params } => exprs_checked(params),
        AstNode::Block(b) => body_checked(&b.0, drs),
        _ => true,
    }
}

/// Whether every statement of the body has the shape that a check relies
/// on (see [`body_ok`]).
pub fn body_checked(b: &Vec<Spanned<AstNode>>, drs: bool) -> (r: bool)
    ensures
        r == body_ok(b@, drs),
    decreases b,
{
    let mut i: usize = 0;
    while i < b.len()
        invariant
            i <= b@.len(),
            forall|j: int| 0 <= j < i ==> stmt_ok(#[trigger] b@[j], drs),
        decreases b@.len() - i,
    {
        if !stmt_checked(&b[i], drs) {
            return false;
        }
        i += 1;
    }
    true
}

} // verus!
