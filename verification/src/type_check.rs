use vstd::prelude::*;
use crate::ast::{Expr, Literal, Span, Spanned, Type, type_label, is_default_name_v};
use crate::rms_error::{RmsError, RmsErrorV};
use crate::type_env::{EnvV, Liveness, TypeEnv};

verus! {

// ---------------------------------------------------------------------
// Results of checks.

/// The errors of the results `rs`, in order.
pub open spec fn all_errs<T>(rs: Seq<Result<(), Vec<T>>>) -> Seq<T>
    decreases rs.len(),
{
    if rs.len() == 0 {
        Seq::empty()
    } else {
        all_errs(rs.drop_last()) + match rs.last() {
            Ok(()) => Seq::empty(),
            Err(es) => es@,
        }
    }
}

/// `Ok` when `errs` is empty, else the errors `errs`.
pub open spec fn result_of<T>(r: Result<(), Vec<T>>, errs: Seq<T>) -> bool {
    match r {
        Ok(()) => errs.len() == 0,
        Err(es) => es@ == errs && errs.len() > 0,
    }
}

/// Combines results: `Ok` when none of them holds an error, else all
/// their errors, in order.
pub fn combine_results<T>(results: Vec<Result<(), Vec<T>>>) -> (r: Result<(), Vec<T>>)
    ensures
        result_of(r, all_errs(results@)),
{
    let ghost rs = results@;
    let mut rest = results;
    let mut acc: Vec<T> = Vec::new();
    let n = rest.len();
    let mut i: usize = 0;
    while i < n
        invariant
            i <= n,
            n == rs.len(),
            rest@ == rs.skip(i as int),
            acc@ == all_errs(rs.take(i as int)),
        decreases n - i,
    {
        let r = rest.remove(0);
        proof {
            assert(rest@ =~= rs.skip(i + 1));
            assert(r == rs[i as int]);
            assert(rs.take(i + 1).drop_last() =~= rs.take(i as int));
        }
        match r {
            Ok(()) => {
                proof {
                    assert(acc@ =~= all_errs(rs.take(i + 1)));
                }
            },
            Err(mut es) => {
                acc.append(&mut es);
                proof {
                    assert(acc@ =~= all_errs(rs.take(i + 1)));
                }
            },
        }
        i += 1;
    }
    proof {
        assert(rs.take(n as int) =~= rs);
    }
    if acc.len() == 0 {
        Ok(())
    } else {
        Err(acc)
    }
}

// ---------------------------------------------------------------------
// Expressions.

/// The number of nodes of an expression.
pub open spec fn expr_size(e: Spanned<Expr>) -> nat
    decreases e,
{
    match e.0 {
        Expr::Rnd(a, b) => 1 + expr_size(*a) + expr_size(*b),
        Expr::Literal(_) => 1,
        Expr::Identifier(_) => 1,
        Expr::Paren(a) => 1 + expr_size(*a),
        Expr::Neg(a) => 1 + expr_size(*a),
        Expr::Star(a, b) => 1 + expr_size(*a) + expr_size(*b),
        Expr::FSlash(a, b) => 1 + expr_size(*a) + expr_size(*b),
        Expr::PCent(a, b) => 1 + expr_size(*a) + expr_size(*b),
        Expr::Minus(a, b) => 1 + expr_size(*a) + expr_size(*b),
        Expr::Plus(a, b) => 1 + expr_size(*a) + expr_size(*b),
    }
}

/// The operand of each negation starts no earlier than the negation itself
/// (as the parser makes it), so the gap between them is a length.
pub open spec fn expr_spans_ok(e: Spanned<Expr>) -> bool
    decreases e,
{
    match e.0 {
        Expr::Rnd(a, b) => expr_spans_ok(*a) && expr_spans_ok(*b),
        Expr::Literal(_) => true,
        Expr::Identifier(_) => true,
        Expr::Paren(a) => expr_spans_ok(*a),
        Expr::Neg(a) => a.1.start >= e.1.start && expr_spans_ok(*a),
        Expr::Star(a, b) => expr_spans_ok(*a) && expr_spans_ok(*b),
        Expr::FSlash(a, b) => expr_spans_ok(*a) && expr_spans_ok(*b),
        Expr::PCent(a, b) => expr_spans_ok(*a) && expr_spans_ok(*b),
        Expr::Minus(a, b) => expr_spans_ok(*a) && expr_spans_ok(*b),
        Expr::Plus(a, b) => expr_spans_ok(*a) && expr_spans_ok(*b),
    }
}

/// The syntax error for a space between a unary minus and its operand.
pub open spec fn neg_space_err(span: Span) -> RmsErrorV {
    RmsErrorV::Syntax {
        span,
        msg: "Spaces are not allowed between unary negative ({0}) and {1} literals"@,
        keywords: seq!["-"@, "int | float"@],
    }
}

/// The type of an arithmetic operation `op` on operands of types `t1` and
/// `t2` (each `None` when its check failed), and the environment after it:
/// ints give an int, an int with a float gives a float, any other pair is
/// an error.
pub open spec fn arith_combine(path: Seq<char>, span: Span, t1: Option<Type>, t2: Option<Type>, env: EnvV, op: Seq<char>) -> (Option<Type>, EnvV) {
    match (t1, t2) {
        (Some(Type::Int), Some(Type::Int)) => (Some(Type::Int), env),
        (Some(Type::Int), Some(Type::Float)) => (Some(Type::Float), env),
        (Some(Type::Float), Some(Type::Int)) => (Some(Type::Float), env),
        (Some(x), Some(y)) => (None, env.with_err(path, RmsErrorV::OpMismatch {
            op,
            type1: type_label(x),
            type2: type_label(y),
            span,
            note: None,
        })),
        _ => (None, env),
    }
}

/// The type of the expression `e` checked in the file `path`, and the
/// environment after the check (with the errors it found).
pub open spec fn tc_expr_v(path: Seq<char>, e: Spanned<Expr>, env: EnvV) -> (Option<Type>, EnvV)
    decreases e,
{
    let span = e.1;
    match e.0 {
        Expr::Rnd(_, _) => (Some(Type::Int), env),
        Expr::Literal(Literal::Int(_)) => (Some(Type::Int), env),
        Expr::Literal(Literal::Float(_)) => (Some(Type::Float), env),
        Expr::Literal(Literal::Str(_)) => (None, env),
        Expr::Identifier(id) => match env.get(id@) {
            None => if is_default_name_v(id@) {
                (Some(Type::Label), env)
            } else {
                (None, env.with_err(path, RmsErrorV::UndefinedName { name: id@, span }))
            },
            Some(info) => (Some(info.type_), match env.liveness(id@, false) {
                Liveness::Live => env,
                Liveness::Dead => env.with_err(path, RmsErrorV::DeadName { name: id@, span }),
                Liveness::Maybe => env.with_err(path, RmsErrorV::MaybeDeadName { name: id@, span }),
            }),
        },
        Expr::Paren(a) => tc_expr_v(path, *a, env),
        Expr::Neg(a) => {
            let env1 = if a.1.start - span.start > 1 { env.with_err(path, neg_space_err(span)) } else { env };
            tc_expr_v(path, *a, env1)
        },
        Expr::Star(a, b) => {
            let (t1, env1) = tc_expr_v(path, *a, env);
            let (t2, env2) = tc_expr_v(path, *b, env1);
            arith_combine(path, span, t1, t2, env2, "multiply"@)
        },
        Expr::FSlash(a, b) => {
            let (t1, env1) = tc_expr_v(path, *a, env);
            let (t2, env2) = tc_expr_v(path, *b, env1);
            arith_combine(path, span, t1, t2, env2, "divide"@)
        },
        Expr::PCent(a, b) => {
            let (t1, env1) = tc_expr_v(path, *a, env);
            let (t2, env2) = tc_expr_v(path, *b, env1);
            arith_combine(path, span, t1, t2, env2, "reduce modulo"@)
        },
        Expr::Minus(a, b) => {
            let (t1, env1) = tc_expr_v(path, *a, env);
            let (t2, env2) = tc_expr_v(path, *b, env1);
            arith_combine(path, span, t1, t2, env2, "subtract"@)
        },
        Expr::Plus(a, b) => {
            let (t1, env1) = tc_expr_v(path, *a, env);
            let (t2, env2) = tc_expr_v(path, *b, env1);
            arith_combine(path, span, t1, t2, env2, "add"@)
        },
    }
}

/// An arithmetic operation `op` on `a` and `b`: both operands checked in
/// order, then their types combined (see [`arith_combine`]).
pub open spec fn arith_v(path: Seq<char>, span: Span, a: Spanned<Expr>, b: Spanned<Expr>, env: EnvV, op: Seq<char>) -> (Option<Type>, EnvV) {
    let (t1, env1) = tc_expr_v(path, a, env);
    let (t2, env2) = tc_expr_v(path, b, env1);
    arith_combine(path, span, t1, t2, env2, op)
}

/// Checks both operands of the arithmetic operation `op_name` and the
/// types they combine to; a failed operand gives `None` with no further
/// error.
pub fn arith_op(
    path: &str,
    span: &Span,
    expr1: &Spanned<Expr>,
    expr2: &Spanned<Expr>,
    type_env: &mut TypeEnv,
    op_name: &str,
) -> (r: Option<Type>)
    requires
        expr_spans_ok(*expr1),
        expr_spans_ok(*expr2),
    ensures
        (r, final(type_env)@) == arith_v(path@, *span, *expr1, *expr2, old(type_env)@, op_name@),
        final(type_env)@.same_but_errs(old(type_env)@),
    decreases 2 * (expr_size(*expr1) + expr_size(*expr2)) + 1,
{
    let t1 = rms_tc_expr(path, expr1, type_env);
    let t2 = rms_tc_expr(path, expr2, type_env);
    match (t1, t2) {
        (Some(Type::Int), Some(Type::Int)) => Some(Type::Int),
        (Some(Type::Int), Some(Type::Float)) => Some(Type::Float),
        (Some(Type::Float), Some(Type::Int)) => Some(Type::Float),
        (Some(x), Some(y)) => {
            let s1 = x.to_display_string();
            let s2 = y.to_display_string();
            type_env.add_err(path, RmsError::op_mismatch(op_name, s1.as_str(), s2.as_str(), span, None));
            None
        },
        _ => None,
    }
}

/// The type of the expression `e` in the file `path`; the errors found are
/// recorded in `type_env`. A name must be defined (or defined by the game)
/// and live here; arithmetic needs numbers.
pub fn rms_tc_expr(path: &str, e: &Spanned<Expr>, type_env: &mut TypeEnv) -> (r: Option<Type>)
    requires
        expr_spans_ok(*e),
    ensures
        (r, final(type_env)@) == tc_expr_v(path@, *e, old(type_env)@),
        final(type_env)@.same_but_errs(old(type_env)@),
    decreases 2 * expr_size(*e),
{
    let span = &e.1;
    match &e.0 {
        Expr::Rnd(_, _) => Some(Type::Int),
        Expr::Literal(Literal::Int(_)) => Some(Type::Int),
        Expr::Literal(Literal::Float(_)) => Some(Type::Float),
        Expr::Literal(Literal::Str(_)) => None,
        Expr::Identifier(id) => {
            match type_env.get(id) {
                None => {
                    if id.is_default_name() {
                        Some(Type::Label)
                    } else {
                        type_env.add_err(path, RmsError::undefined_name(id, span));
                        None
                    }
                },
                Some(info) => {
                    match type_env.check_live(id, false) {
                        Liveness::Live => {},
                        Liveness::Dead => {
                            type_env.add_err(path, RmsError::dead_name(id, span));
                        },
                        Liveness::Maybe => {
                            type_env.add_err(path, RmsError::maybe_dead_name(id, span));
                        },
                    }
                    Some(info.type_)
                },
            }
        },
        Expr::Paren(a) => rms_tc_expr(path, a, type_env),
        Expr::Neg(a) => {
            if a.1.start - span.start > 1 {
                let mut keywords: Vec<&str> = Vec::new();
                keywords.push("-");
                keywords.push("int | float");
                let err = RmsError::syntax(
                    span,
                    "Spaces are not allowed between unary negative ({0}) and {1} literals",
                    keywords,
                );
                proof {
                    assert(crate::rms_error::strs_view(keywords@) =~= seq!["-"@, "int | float"@]);
                }
                type_env.add_err(path, err);
            }
            rms_tc_expr(path, a, type_env)
        },
        Expr::Star(a, b) => arith_op(path, span, a, b, type_env, "multiply"),
        Expr::FSlash(a, b) => arith_op(path, span, a, b, type_env, "divide"),
        Expr::PCent(a, b) => arith_op(path, span, a, b, type_env, "reduce modulo"),
        Expr::Minus(a, b) => arith_op(path, span, a, b, type_env, "subtract"),
        Expr::Plus(a, b) => arith_op(path, span, a, b, type_env, "add"),
    }
}

} // verus!
