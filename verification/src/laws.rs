use vstd::prelude::*;
use crate::prop::{PropV, SymbolV, negate_v};
use crate::simplify::{
    canonical, conj_v, dedup, disj_v, is_lit, other_part, rand_part, simplify_and_v, simplify_or_v,
    and_pair_conflict, or_pair_true,
};
use crate::type_env::{
    subst_seq, lookup_list, tr_prop, fl_prop, tr_seq, fl_seq,
    EnvV, Liveness, invert_v, liveness_v, subst, subst_name, info_of, info_names, set_info_v, add_errs_v, err_paths, processed,
};
use crate::names::{first_at, pos_of, lemma_first_at, lemma_pos_of};
use crate::id_info::IdInfoV;
use crate::rms_error::{RmsErrorV, error_code_v};
use crate::simplify::{guard_prop, simplify_v, height, max_height};
use crate::guard::GuardV;
use crate::statement::{
    Ctx, define_v, nested_v, tc_body_v, tc_node_v, tc_params_v, tc_stmt_v, include_step_v, comments_view,
    open_files, file_paths, cond_step_v, tc_conds_v, arm_step_v, tc_arms_v, tc_file_v, cond_name_v, chance_v,
    lemma_find_include, SourceFile,
};
use crate::names::{unseen, lemma_unseen_insert, lemma_unseen_mono};
use crate::type_check::tc_expr_v;
use crate::ast::{AstNode, Body, Expr, Span, Spanned, Type};
use crate::valuation::{
    Valuation, one_chance_per_arm, asserted_arm_alone, conj_terms, is_conjunctive, arm_in, one_chance_in, ranked,
    is_dnf, dnf_lits, or_lits, lits_of, lit_blocks, lits_blocks, prop_blocks, or_apart, apart, disjuncts_apart,
};
use crate::simplify::{
    simplified_all, drop_true, drop_false,
    arm_split, factor_pair, first_factor_pair, factor_v, first_arm_at,
    ginc, collect_or, or_kept, or_keeps, or_true, or_single_true, or_block_true, or_adjust, with_chance, pos_sum, first_of_block,
};
use crate::prop::is_singleton_v;
use crate::simplify::{
    and_kept, and_keeps, and_conflict, and_single_conflict, collect_and, gchosen, has_other_arm, is_rand_lit, other_arm_of, rand_of, name_of,
};

verus! {

// ---------------------------------------------------------------------
// The algebra of propositions.

/// `p & true = p`.
pub proof fn law_identity_and(p: PropV)
    ensures
        conj_v(p, PropV::True) == p,
{
}

/// `p | false = p`.
pub proof fn law_identity_or(p: PropV)
    ensures
        disj_v(p, PropV::False) == p,
{
}

/// `p & false = false`.
pub proof fn law_null_and(p: PropV)
    ensures
        conj_v(p, PropV::False) == PropV::False,
{
}

/// `p | true = true`.
pub proof fn law_null_or(p: PropV)
    ensures
        disj_v(p, PropV::True) == PropV::True,
{
}

/// Negating twice gives the proposition back.
pub proof fn law_double_negation(p: PropV)
    ensures
        negate_v(negate_v(p)) == p,
    decreases p,
{
    match p {
        PropV::And(xs) => {
            assert forall|i: int| 0 <= i < xs.len() implies negate_v(negate_v(xs[i])) == xs[i] by {
                law_double_negation(xs[i]);
            }
            assert(negate_v(negate_v(p))->And_0 =~= xs);
        },
        PropV::Or(xs) => {
            assert forall|i: int| 0 <= i < xs.len() implies negate_v(negate_v(xs[i])) == xs[i] by {
                law_double_negation(xs[i]);
            }
            assert(negate_v(negate_v(p))->Or_0 =~= xs);
        },
        _ => {},
    }
}

/// The terms of a literal taken twice are the literal once.
proof fn lemma_canonical_twice(p: PropV)
    requires
        is_lit(p),
    ensures
        canonical(seq![p, p]) == seq![p],
{
    let s = seq![p, p];
    assert(s.drop_last() =~= seq![p]);
    assert(seq![p].drop_last() =~= Seq::<PropV>::empty());
    reveal_with_fuel(rand_part, 3);
    reveal_with_fuel(other_part, 3);
    reveal_with_fuel(dedup, 3);
    if crate::simplify::is_rand_lit(p) {
        assert(rand_part(s) =~= seq![p, p]);
        assert(other_part(s) =~= Seq::<PropV>::empty());
        assert(dedup(seq![p, p]) =~= seq![p]);
    } else {
        assert(other_part(s) =~= seq![p, p]);
        assert(rand_part(s) =~= Seq::<PropV>::empty());
        assert(dedup(seq![p, p]) =~= seq![p]);
    }
    assert(canonical(s) =~= seq![p]);
}

/// A literal (a name or a random arm, negated or not) and itself: `p & p = p`.
pub proof fn law_idempotent_and(p: PropV)
    requires
        is_lit(p),
    ensures
        conj_v(p, p) == p,
{
    lemma_canonical_twice(p);
}

/// A literal or itself: `p | p = p`.
pub proof fn law_idempotent_or(p: PropV)
    requires
        is_lit(p),
    ensures
        disj_v(p, p) == p,
{
    lemma_canonical_twice(p);
}

/// The terms of a name and its negation.
proof fn lemma_canonical_name_pair(p: PropV, q: PropV)
    requires
        p is Var || p is Not,
        crate::simplify::name_of(p) is Some,
        q == negate_v(p),
    ensures
        canonical(seq![p, q]) == seq![p, q],
{
    let s = seq![p, q];
    assert(s.drop_last() =~= seq![p]);
    assert(seq![p].drop_last() =~= Seq::<PropV>::empty());
    reveal_with_fuel(rand_part, 3);
    reveal_with_fuel(other_part, 3);
    reveal_with_fuel(dedup, 3);
    assert(rand_part(s) =~= Seq::<PropV>::empty());
    assert(other_part(s) =~= seq![p, q]);
    assert(p != q);
    assert(dedup(seq![p]) =~= seq![p]);
    assert(dedup(seq![p, q]) =~= seq![p, q]);
    assert(canonical(s) =~= seq![p, q]);
}

/// The terms of a random arm and its negation.
proof fn lemma_canonical_arm_pair(p: PropV, q: PropV)
    requires
        p is Var || p is Not,
        crate::simplify::rand_of(p) is Some,
        q == negate_v(p),
    ensures
        canonical(seq![p, q]) == seq![p, q],
{
    let s = seq![p, q];
    assert(s.drop_last() =~= seq![p]);
    assert(seq![p].drop_last() =~= Seq::<PropV>::empty());
    reveal_with_fuel(rand_part, 3);
    reveal_with_fuel(other_part, 3);
    reveal_with_fuel(dedup, 3);
    assert(rand_part(s) =~= seq![p, q]);
    assert(other_part(s) =~= Seq::<PropV>::empty());
    assert(p != q);
    assert(dedup(seq![p]) =~= seq![p]);
    assert(dedup(seq![p, q]) =~= seq![p, q]);
    assert(canonical(s) =~= seq![p, q]);
}

/// A literal and its negation: `A & A' = false` for a name, and
/// `P_in & P'_in = false` for an arm of a random block.
pub proof fn law_inverse_and(p: PropV)
    requires
        p is Var || p is Not,
    ensures
        conj_v(p, negate_v(p)) == PropV::False,
{
    let q = negate_v(p);
    if crate::simplify::name_of(p) is Some {
        lemma_canonical_name_pair(p, q);
    } else {
        lemma_canonical_arm_pair(p, q);
    }
    let ys = seq![p, q];
    if p is Var {
        assert(and_pair_conflict(ys, 0, 1));
    } else {
        assert(and_pair_conflict(ys, 1, 0));
    }
}

/// A name or its negation: `A | A' = true`.
pub proof fn law_inverse_or(p: PropV)
    requires
        p is Var || p is Not,
        crate::simplify::name_of(p) is Some,
    ensures
        disj_v(p, negate_v(p)) == PropV::True,
{
    let q = negate_v(p);
    lemma_canonical_name_pair(p, q);
    let ys = seq![p, q];
    if p is Var {
        assert(or_pair_true(ys, 0, 1));
    } else {
        assert(or_pair_true(ys, 1, 0));
    }
}

/// Two different arms of one random block are never both taken:
/// `P_in & P_im = false`.
pub proof fn law_random_arms_exclusive(block: u32, a1: u32, c1: u32, a2: u32, c2: u32)
    requires
        a1 != a2,
    ensures
        conj_v(
            PropV::Var(SymbolV::Random { block, arm: a1, chance: c1 }),
            PropV::Var(SymbolV::Random { block, arm: a2, chance: c2 }),
        ) == PropV::False,
{
    let p = PropV::Var(SymbolV::Random { block, arm: a1, chance: c1 });
    let q = PropV::Var(SymbolV::Random { block, arm: a2, chance: c2 });
    let s = seq![p, q];
    assert(s.drop_last() =~= seq![p]);
    assert(seq![p].drop_last() =~= Seq::<PropV>::empty());
    reveal_with_fuel(rand_part, 3);
    reveal_with_fuel(other_part, 3);
    reveal_with_fuel(dedup, 3);
    assert(rand_part(s) =~= seq![p, q]);
    assert(other_part(s) =~= Seq::<PropV>::empty());
    assert(dedup(seq![p]) =~= seq![p]);
    assert(dedup(seq![p, q]) =~= seq![p, q]);
    assert(canonical(s) =~= seq![p, q]);
    assert(and_pair_conflict(seq![p, q], 0, 1));
}

/// One of two different arms of a random block is not taken:
/// `P'_in | P'_im = true`.
pub proof fn law_random_arms_not_both(block: u32, a1: u32, c1: u32, a2: u32, c2: u32)
    requires
        a1 != a2,
    ensures
        disj_v(
            PropV::Not(SymbolV::Random { block, arm: a1, chance: c1 }),
            PropV::Not(SymbolV::Random { block, arm: a2, chance: c2 }),
        ) == PropV::True,
{
    let p = PropV::Not(SymbolV::Random { block, arm: a1, chance: c1 });
    let q = PropV::Not(SymbolV::Random { block, arm: a2, chance: c2 });
    let s = seq![p, q];
    assert(s.drop_last() =~= seq![p]);
    assert(seq![p].drop_last() =~= Seq::<PropV>::empty());
    reveal_with_fuel(rand_part, 3);
    reveal_with_fuel(other_part, 3);
    reveal_with_fuel(dedup, 3);
    assert(rand_part(s) =~= seq![p, q]);
    assert(other_part(s) =~= Seq::<PropV>::empty());
    assert(dedup(seq![p]) =~= seq![p]);
    assert(dedup(seq![p, q]) =~= seq![p, q]);
    assert(canonical(s) =~= seq![p, q]);
    assert(or_pair_true(seq![p, q], 0, 1));
}

/// The terms of a single term.
proof fn lemma_canonical_single(p: PropV)
    ensures
        canonical(seq![p]) == seq![p],
{
    let s = seq![p];
    assert(s.drop_last() =~= Seq::<PropV>::empty());
    reveal_with_fuel(rand_part, 2);
    reveal_with_fuel(other_part, 2);
    reveal_with_fuel(dedup, 2);
    if crate::simplify::is_rand_lit(p) {
        assert(rand_part(s) =~= seq![p]);
        assert(other_part(s) =~= Seq::<PropV>::empty());
    } else {
        assert(other_part(s) =~= seq![p]);
        assert(rand_part(s) =~= Seq::<PropV>::empty());
    }
    assert(dedup(seq![p]) =~= seq![p]);
    assert(canonical(s) =~= seq![p]);
}

/// A conjunction `g` taken with either of two arms of a random block whose
/// chances add up to 100 is `g`:
/// `(P_k1(x1) & g) | (P_k2(x2) & g) = g` when `x1 + x2 >= 100`.
/// Here `g` is the conjunction of `rest`, which asserts no random arm.
pub proof fn law_factor_arms(rest: Seq<PropV>, block: u32, a1: u32, c1: u32, a2: u32, c2: u32)
    requires
        a1 != a2,
        c1 + c2 >= 100,
        forall|i: int| 0 <= i < rest.len() ==> !(rest[i] is Var && #[trigger] is_rand_lit(rest[i])),
    ensures
        simplify_or_v(
            seq![
                PropV::And(rest.push(PropV::Var(SymbolV::Random { block, arm: a1, chance: c1 }))),
                PropV::And(rest.push(PropV::Var(SymbolV::Random { block, arm: a2, chance: c2 }))),
            ],
            None,
        ) == collect_and(rest),
{
    let p1 = PropV::Var(SymbolV::Random { block, arm: a1, chance: c1 });
    let p2 = PropV::Var(SymbolV::Random { block, arm: a2, chance: c2 });
    let t1 = rest.push(p1);
    let t2 = rest.push(p2);
    let xs = seq![PropV::And(t1), PropV::And(t2)];
    let n = rest.len() as int;
    assert(first_arm_at(t1, n)) by {
        assert forall|j: int| 0 <= j < n implies !(t1[j] is Var && #[trigger] is_rand_lit(t1[j])) by {
            assert(t1[j] == rest[j]);
        }
    }
    assert(first_arm_at(t2, n)) by {
        assert forall|j: int| 0 <= j < n implies !(t2[j] is Var && #[trigger] is_rand_lit(t2[j])) by {
            assert(t2[j] == rest[j]);
        }
    }
    crate::simplify::lemma_first_arm_unique(t1, n);
    crate::simplify::lemma_first_arm_unique(t2, n);
    assert(t1.remove(n) =~= rest);
    assert(t2.remove(n) =~= rest);
    assert(arm_split(xs[0]) == Some((block, a1, c1, rest)));
    assert(arm_split(xs[1]) == Some((block, a2, c2, rest)));
    assert(factor_pair(xs, None, 0, 1));
    assert(first_factor_pair(xs, None, 0, 1));
    crate::simplify::lemma_first_pair_unique(xs, None, 0, 1);
    let ys = xs.update(0, collect_and(rest)).remove(1);
    assert(ys =~= seq![collect_and(rest)]);
    assert(!exists|i: int, j: int| first_factor_pair(ys, None, i, j));
    assert(factor_v(ys, None) == ys);
    assert(factor_v(xs, None) == factor_v(ys, None));
    lemma_canonical_single(collect_and(rest));
}

// ---------------------------------------------------------------------
// Liveness.

/// Swapping live and dead twice gives the liveness back.
pub proof fn law_invert_involutive(l: Liveness)
    ensures
        invert_v(invert_v(l)) == l,
{
}

// ---------------------------------------------------------------------
// What is known of names.

/// Recording what is known of a name: a lookup of that name gives it back,
/// and a lookup of any other name gives what it gave before.
pub proof fn law_set_then_lookup(l: Seq<(Seq<char>, IdInfoV)>, n: Seq<char>, info: IdInfoV, m: Seq<char>)
    ensures
        info_of(set_info_v(l, n, info), n) == Some(info),
        m != n ==> info_of(set_info_v(l, n, info), m) == info_of(l, m),
{
    let names = info_names(l);
    let l2 = set_info_v(l, n, info);
    if names.contains(n) {
        lemma_pos_of(names, n);
        let k = pos_of(names, n);
        assert(info_names(l2) =~= names);
        if m != n && names.contains(m) {
            lemma_pos_of(names, m);
        }
    } else {
        assert(info_names(l2) =~= names.push(n));
        assert(first_at(info_names(l2), n, names.len() as int));
        lemma_first_at(info_names(l2), n, names.len() as int);
        if m != n {
            if names.contains(m) {
                lemma_pos_of(names, m);
                let k = pos_of(names, m);
                assert(first_at(info_names(l2), m, k));
                lemma_first_at(info_names(l2), m, k);
            } else {
                assert(!info_names(l2).contains(m)) by {
                    if info_names(l2).contains(m) {
                        let j = choose|j: int| 0 <= j < info_names(l2).len() && info_names(l2)[j] == m;
                        assert(names[j] == m);
                    }
                }
            }
        }
    }
}

/// Defining a name (`#const` or `#define`) under the guard `G`: a new name
/// is recorded as defined where `G` holds; a name defined already keeps its
/// type and place and becomes defined where its old proposition or `G`
/// holds; every other name is unchanged.
pub proof fn law_define(env: EnvV, n: Seq<char>, t: Type, path: Seq<char>, span: Span, m: Seq<char>)
    ensures
        info_of(define_v(env, n, t, path, span).ids, n) == Some(match info_of(env.ids, n) {
            None => IdInfoV { type_: t, path, span, guard: guard_prop(env.guard) },
            Some(old) => IdInfoV { guard: simplify_v(crate::simplify::disj_v(old.guard, guard_prop(env.guard)), GuardV::empty()), ..old },
        }),
        m != n ==> info_of(define_v(env, n, t, path, span).ids, m) == info_of(env.ids, m),
{
    let names = info_names(env.ids);
    match info_of(env.ids, n) {
        None => {
            law_set_then_lookup(env.ids, n, IdInfoV { type_: t, path, span, guard: guard_prop(env.guard) }, m);
        },
        Some(old) => {
            let new_info = IdInfoV { guard: simplify_v(crate::simplify::disj_v(old.guard, guard_prop(env.guard)), GuardV::empty()), ..old };
            assert(define_v(env, n, t, path, span).ids == set_info_v(env.ids, n, new_info));
            law_set_then_lookup(env.ids, n, new_info, m);
        },
    }
}

/// A name that is never defined is dead wherever the guard does not
/// assume it to be defined.
pub proof fn law_undefined_is_dead(
    ids: Seq<(Seq<char>, IdInfoV)>,
    groups: Seq<(Seq<char>, IdInfoV)>,
    g: GuardV,
    n: Seq<char>,
)
    requires
        !info_names(ids).contains(n),
        !g.is_true_v(n),
    ensures
        liveness_v(ids, groups, g, n, false) == Liveness::Dead,
{
    assert(!Set::<Seq<char>>::empty().contains(n));
    assert(subst(ids, groups, g, Set::empty(), PropV::Var(SymbolV::Name(n)), false)
        == subst_name(ids, groups, g, Set::empty(), n, false));
}

// ---------------------------------------------------------------------
// Errors.

/// The errors recorded for the file `path` (none when it has no entry).
pub open spec fn errs_of(l: Seq<(Seq<char>, Seq<RmsErrorV>)>, path: Seq<char>) -> Seq<RmsErrorV> {
    if err_paths(l).contains(path) {
        l[pos_of(err_paths(l), path)].1
    } else {
        Seq::empty()
    }
}

/// Recording errors in a file adds them, in order, after the errors that
/// file had; the errors of every other file are unchanged.
pub proof fn law_add_errs(l: Seq<(Seq<char>, Seq<RmsErrorV>)>, path: Seq<char>, new: Seq<RmsErrorV>, other: Seq<char>)
    ensures
        errs_of(add_errs_v(l, path, new), path) == errs_of(l, path) + new,
        other != path ==> errs_of(add_errs_v(l, path, new), other) == errs_of(l, other),
{
    let ps = err_paths(l);
    let l2 = add_errs_v(l, path, new);
    if ps.contains(path) {
        lemma_pos_of(ps, path);
        assert(err_paths(l2) =~= ps);
        if other != path && ps.contains(other) {
            lemma_pos_of(ps, other);
        }
    } else {
        assert(err_paths(l2) =~= ps.push(path));
        assert(first_at(err_paths(l2), path, ps.len() as int));
        lemma_first_at(err_paths(l2), path, ps.len() as int);
        assert(Seq::<RmsErrorV>::empty() + new =~= new);
        if other != path {
            if ps.contains(other) {
                lemma_pos_of(ps, other);
                let k = pos_of(ps, other);
                assert(first_at(err_paths(l2), other, k));
                lemma_first_at(err_paths(l2), other, k);
            } else {
                assert(!err_paths(l2).contains(other)) by {
                    if err_paths(l2).contains(other) {
                        let j = choose|j: int| 0 <= j < err_paths(l2).len() && err_paths(l2)[j] == other;
                        assert(ps[j] == other);
                    }
                }
            }
        }
    }
}

/// A warning recorded while its code is ignored is recorded as ignored; a
/// warning recorded while it is not is recorded as not ignored; any other
/// error is recorded as it is. It goes last among the errors of its file.
pub proof fn law_recorded_warning(env: EnvV, path: Seq<char>, e: RmsErrorV)
    ensures
        errs_of(env.with_err(path, e).errs, path) == errs_of(env.errs, path).push(processed(e, env.ignores)),
        processed(e, env.ignores) == (match e {
            RmsErrorV::Warning { span, msg, keywords, kind, ignored } => RmsErrorV::Warning {
                span,
                msg,
                keywords,
                kind,
                ignored: match env.ignores {
                    Some(set) => set.contains(error_code_v(e)),
                    None => false,
                },
            },
            _ => e,
        }),
{
    let new = seq![e].map_values(|x: RmsErrorV| processed(x, env.ignores));
    assert(new =~= seq![processed(e, env.ignores)]);
    law_add_errs(env.errs, path, new, path);
    assert(errs_of(env.errs, path) + seq![processed(e, env.ignores)] =~= errs_of(env.errs, path).push(processed(e, env.ignores)));
}

// ---------------------------------------------------------------------
// Checks.

/// Checking an expression changes nothing but the errors.
pub proof fn law_expr_only_errs(path: Seq<char>, e: Spanned<Expr>, env: EnvV)
    ensures
        tc_expr_v(path, e, env).1.same_but_errs(env),
    decreases e,
{
    match e.0 {
        Expr::Paren(a) => law_expr_only_errs(path, *a, env),
        Expr::Neg(a) => {
            let env1 = if a.1.start - e.1.start > 1 { env.with_err(path, crate::type_check::neg_space_err(e.1)) } else { env };
            law_expr_only_errs(path, *a, env1);
        },
        Expr::Star(a, b) | Expr::FSlash(a, b) | Expr::PCent(a, b) | Expr::Minus(a, b) | Expr::Plus(a, b) => {
            law_expr_only_errs(path, *a, env);
            law_expr_only_errs(path, *b, tc_expr_v(path, *a, env).1);
        },
        _ => {},
    }
}

/// Checking the arguments of a command changes nothing but the errors.
pub proof fn law_params_only_errs(path: Seq<char>, ps: Seq<Spanned<Expr>>, env: EnvV)
    ensures
        tc_params_v(path, ps, env).1.same_but_errs(env),
    decreases ps.len(),
{
    if ps.len() > 0 {
        law_params_only_errs(path, ps.drop_last(), env);
        let env1 = tc_params_v(path, ps.drop_last(), env).1;
        law_expr_only_errs(path, ps.last(), env1);
    }
}

/// Section headers, commands and `#includeXS` define no name and leave the
/// guard as it was: they change nothing but the errors.
pub proof fn law_no_definitions(ctx: Ctx, node: AstNode, span: Span, env: EnvV, pos: nat, ignoring: bool)
    requires
        node is SectionStart || node is Command || node is IncludeXs,
    ensures
        tc_node_v(ctx, node, span, env, pos, ignoring).1.same_but_errs(env),
{
    match node {
        AstNode::Command { name, params } => law_params_only_errs(ctx.path, params@, env),
        _ => {},
    }
}

/// A block is checked as the statements in it.
pub proof fn law_block_is_body(ctx: Ctx, b: Spanned<Body>, span: Span, env: EnvV, pos: nat, ignoring: bool)
    ensures
        ({
            let (errs, env1, pos1) = tc_body_v(ctx, b.0@, env, pos);
            tc_node_v(ctx, AstNode::Block(b), span, env, pos, ignoring) == (errs, env1, pos1, ignoring)
        }),
{
}

/// After an `if` or a random block the guard is the one from before it:
/// what its branches assumed holds only inside them.
pub proof fn law_scoped_guard(ctx: Ctx, node: AstNode, span: Span, env: EnvV, pos: nat, ignoring: bool)
    requires
        node is IfElseIf || node is Random,
    ensures
        tc_node_v(ctx, node, span, env, pos, ignoring).1.guard == env.guard,
{
}

/// An `#include_drs` of a file that is found, read without errors and not
/// being checked already checks that file's statements, from its start, in
/// the environment the include leaves: the names it defines are those the
/// file's statements define.
pub proof fn law_include_checks_file(ctx: Ctx, f: Spanned<String>, span: Span, env: EnvV, pos: nat, ignoring: bool)
    requires
        include_step_v(ctx, f, span, env, ignoring).1 is Some,
        ctx.files[(include_step_v(ctx, f, span, env, ignoring).1->0).1].parse_errs@.len() == 0,
    ensures
        ({
            let (env1, next, _) = include_step_v(ctx, f, span, env, ignoring);
            let (cand, k) = next->0;
            let file = ctx.files[k];
            let fctx = Ctx { path: file.path@, comments: comments_view(file.comments@), files: ctx.files, visiting: ctx.visiting.insert(cand) };
            let (errs, env2, _) = tc_body_v(fctx, file.ast@, env1, 0);
            tc_node_v(ctx, AstNode::IncludeDrs(f), span, env, pos, ignoring) == (errs, env2, pos, false)
        }),
{
    let (env1, next, still) = include_step_v(ctx, f, span, env, ignoring);
    assert(!still);
}

/// Entering a nested block and restoring the guard after it leaves
/// everything as it was but the count of blocks.
pub proof fn law_nested_restores(env: EnvV)
    ensures
        nested_v(env).with_guard(env.guard) == (EnvV { last_block: nested_v(env).last_block, ..env }),
{
}

/// Checking a body statement by statement: the statements `b1` followed by
/// `b2` are checked as `b1` and then `b2` from where `b1` left off, the
/// errors of both in order.
pub proof fn law_body_seq(ctx: Ctx, b1: Seq<Spanned<crate::ast::AstNode>>, b2: Seq<Spanned<crate::ast::AstNode>>, env: EnvV, pos: nat)
    ensures
        ({
            let (e1, env1, p1) = tc_body_v(ctx, b1, env, pos);
            let (e2, env2, p2) = tc_body_v(ctx, b2, env1, p1);
            tc_body_v(ctx, b1 + b2, env, pos) == (e1 + e2, env2, p2)
        }),
    decreases b2.len(),
{
    let (e1, env1, p1) = tc_body_v(ctx, b1, env, pos);
    if b2.len() == 0 {
        assert(b1 + b2 =~= b1);
        assert(e1 + Seq::<(Span, Seq<char>)>::empty() =~= e1);
    } else {
        law_body_seq(ctx, b1, b2.drop_last(), env, pos);
        assert((b1 + b2).drop_last() =~= b1 + b2.drop_last());
        assert((b1 + b2).last() == b2.last());
        let (e2, env2, p2) = tc_body_v(ctx, b2.drop_last(), env1, p1);
        let (e3, env3, p3) = tc_stmt_v(ctx, b2.last(), env2, p2);
        assert((e1 + e2) + e3 =~= e1 + (e2 + e3));
    }
}

// ---------------------------------------------------------------------
// Errors are never lost.

/// Each file's errors in `old` are still at the front of its errors in
/// `new`, in order.
pub open spec fn errs_kept(old: Seq<(Seq<char>, Seq<RmsErrorV>)>, new: Seq<(Seq<char>, Seq<RmsErrorV>)>) -> bool {
    forall|p: Seq<char>| #[trigger] errs_of(old, p).is_prefix_of(errs_of(new, p))
}

proof fn lemma_kept_refl(l: Seq<(Seq<char>, Seq<RmsErrorV>)>)
    ensures
        errs_kept(l, l),
{
    assert forall|p: Seq<char>| #[trigger] errs_of(l, p).is_prefix_of(errs_of(l, p)) by {
        assert(errs_of(l, p).take(errs_of(l, p).len() as int) =~= errs_of(l, p));
    }
}

proof fn lemma_kept_trans(a: Seq<(Seq<char>, Seq<RmsErrorV>)>, b: Seq<(Seq<char>, Seq<RmsErrorV>)>, c: Seq<(Seq<char>, Seq<RmsErrorV>)>)
    requires
        errs_kept(a, b),
        errs_kept(b, c),
    ensures
        errs_kept(a, c),
{
    assert forall|p: Seq<char>| #[trigger] errs_of(a, p).is_prefix_of(errs_of(c, p)) by {
        assert(errs_of(a, p).is_prefix_of(errs_of(b, p)));
        assert(errs_of(b, p).is_prefix_of(errs_of(c, p)));
        let n = errs_of(a, p).len() as int;
        assert(errs_of(c, p).take(n) =~= errs_of(b, p).take(errs_of(b, p).len() as int).take(n));
    }
}

proof fn lemma_kept_add(env: EnvV, path: Seq<char>, es: Seq<RmsErrorV>)
    ensures
        errs_kept(env.errs, env.with_errs(path, es).errs),
{
    let new = es.map_values(|e: RmsErrorV| processed(e, env.ignores));
    assert forall|p: Seq<char>| #[trigger] errs_of(env.errs, p).is_prefix_of(errs_of(env.with_errs(path, es).errs, p)) by {
        law_add_errs(env.errs, path, new, p);
        if p == path {
            assert((errs_of(env.errs, p) + new).take(errs_of(env.errs, p).len() as int) =~= errs_of(env.errs, p));
        } else {
            assert(errs_of(env.errs, p).take(errs_of(env.errs, p).len() as int) =~= errs_of(env.errs, p));
        }
    }
}

proof fn lemma_kept_expr(path: Seq<char>, e: Spanned<Expr>, env: EnvV)
    ensures
        errs_kept(env.errs, tc_expr_v(path, e, env).1.errs),
    decreases e,
{
    lemma_kept_refl(env.errs);
    match e.0 {
        Expr::Identifier(id) => {
            lemma_kept_add(env, path, seq![RmsErrorV::UndefinedName { name: id@, span: e.1 }]);
            lemma_kept_add(env, path, seq![RmsErrorV::DeadName { name: id@, span: e.1 }]);
            lemma_kept_add(env, path, seq![RmsErrorV::MaybeDeadName { name: id@, span: e.1 }]);
        },
        Expr::Paren(a) => lemma_kept_expr(path, *a, env),
        Expr::Neg(a) => {
            let env1 = if a.1.start - e.1.start > 1 { env.with_err(path, crate::type_check::neg_space_err(e.1)) } else { env };
            lemma_kept_add(env, path, seq![crate::type_check::neg_space_err(e.1)]);
            lemma_kept_expr(path, *a, env1);
            lemma_kept_trans(env.errs, env1.errs, tc_expr_v(path, *a, env1).1.errs);
        },
        Expr::Star(a, b) | Expr::FSlash(a, b) | Expr::PCent(a, b) | Expr::Minus(a, b) | Expr::Plus(a, b) => {
            let env1 = tc_expr_v(path, *a, env).1;
            let env2 = tc_expr_v(path, *b, env1).1;
            lemma_kept_expr(path, *a, env);
            lemma_kept_expr(path, *b, env1);
            lemma_kept_trans(env.errs, env1.errs, env2.errs);
            let t1 = tc_expr_v(path, *a, env).0;
            let t2 = tc_expr_v(path, *b, env1).0;
            if t1 is Some && t2 is Some {
                let op = match e.0 {
                    Expr::Star(_, _) => "multiply"@,
                    Expr::FSlash(_, _) => "divide"@,
                    Expr::PCent(_, _) => "reduce modulo"@,
                    Expr::Minus(_, _) => "subtract"@,
                    _ => "add"@,
                };
                let err = RmsErrorV::OpMismatch {
                    op,
                    type1: crate::ast::type_label(t1->0),
                    type2: crate::ast::type_label(t2->0),
                    span: e.1,
                    note: None,
                };
                lemma_kept_add(env2, path, seq![err]);
                lemma_kept_trans(env.errs, env2.errs, env2.with_err(path, err).errs);
            }
        },
        _ => {},
    }
}

proof fn lemma_kept_params(path: Seq<char>, ps: Seq<Spanned<Expr>>, env: EnvV)
    ensures
        errs_kept(env.errs, tc_params_v(path, ps, env).1.errs),
    decreases ps.len(),
{
    if ps.len() == 0 {
        lemma_kept_refl(env.errs);
    } else {
        let env1 = tc_params_v(path, ps.drop_last(), env).1;
        lemma_kept_params(path, ps.drop_last(), env);
        if !tc_params_v(path, ps.drop_last(), env).0 {
            let env2 = tc_expr_v(path, ps.last(), env1).1;
            lemma_kept_expr(path, ps.last(), env1);
            lemma_kept_trans(env.errs, env1.errs, env2.errs);
            let err = crate::statement::arg_type_err(Type::Label, ps.last().1);
            lemma_kept_add(env2, path, seq![err]);
            lemma_kept_trans(env.errs, env2.errs, env2.with_err(path, err).errs);
        }
    }
}

proof fn lemma_kept_stmt(ctx: Ctx, stmt: Spanned<AstNode>, env: EnvV, pos: nat)
    ensures
        errs_kept(env.errs, tc_stmt_v(ctx, stmt, env, pos).1.errs),
    decreases 2 * open_files(ctx), stmt, 0nat,
{
    let (doc, pos1) = crate::statement::skip_comments(ctx.comments, pos, stmt.1.start, None);
    let (env1, ignoring) = crate::statement::doc_effect(ctx.path, ctx.comments, doc, env);
    lemma_kept_refl(env.errs);
    match doc {
        Some(k) => {
            match crate::doxygen::parse_v(ctx.comments[k as int].0) {
                Err(e) => lemma_kept_add(env, ctx.path, seq![crate::statement::unknown_warning_err(ctx.comments[k as int].1, e)]),
                _ => {},
            }
        },
        None => {},
    }
    lemma_kept_node(ctx, stmt.0, stmt.1, env1, pos1, ignoring);
    let env2 = tc_node_v(ctx, stmt.0, stmt.1, env1, pos1, ignoring).1;
    lemma_kept_trans(env.errs, env1.errs, env2.errs);
}

proof fn lemma_kept_node(ctx: Ctx, node: AstNode, span: Span, env: EnvV, pos: nat, ignoring: bool)
    ensures
        errs_kept(env.errs, tc_node_v(ctx, node, span, env, pos, ignoring).1.errs),
    decreases 2 * open_files(ctx), node, 0nat,
{
    lemma_kept_refl(env.errs);
    match node {
        AstNode::IncludeDrs(f) => {
            let name = f.0@.subrange(1, f.0@.len() - 1);
            let env0 = EnvV { deps: crate::type_env::touch_dep(env.deps, ctx.path), ..env };
            lemma_kept_add(env0, ctx.path, seq![RmsErrorV::UnresolvedInclude { inc_filename: f.0@, span }]);
            let (env1, next, still) = include_step_v(ctx, f, span, env, ignoring);
            match next {
                None => {},
                Some((cand, k)) => {
                    lemma_find_include(env.include_dirs, ctx.files, name, 0);
                    lemma_unseen_insert(file_paths(ctx.files), ctx.visiting, cand);
                    lemma_kept_file(ctx.files, ctx.visiting.insert(cand), ctx.files[k], env1);
                },
            }
        },
        AstNode::IncludeXs(f) => {
            lemma_kept_add(env, ctx.path, seq![RmsErrorV::UnresolvedInclude { inc_filename: f.0@, span }]);
        },
        AstNode::ConstDef { name, value } => {
            lemma_kept_expr(ctx.path, value, env);
        },
        AstNode::IfElseIf { consequents, alternate } => {
            let env1 = nested_v(env);
            lemma_kept_conds(ctx, consequents@, env1, pos);
            let (errs1, env2, pos1) = tc_conds_v(ctx, consequents@, env1, pos);
            match alternate {
                Some(b) => {
                    lemma_kept_body(ctx, b.0@, env2, pos1);
                    lemma_kept_trans(env.errs, env2.errs, tc_body_v(ctx, b.0@, env2, pos1).1.errs);
                },
                None => {},
            }
        },
        AstNode::Random { arms } => {
            lemma_kept_arms(ctx, arms@, nested_v(env), pos);
        },
        AstNode::SectionStart(name) => {
            lemma_kept_add(env, ctx.path, seq![crate::statement::section_err(name.1, name.0@)]);
        },
        AstNode::Command { name, params } => {
            lemma_kept_params(ctx.path, params@, env);
        },
        AstNode::Block(b) => {
            lemma_kept_body(ctx, b.0@, env, pos);
        },
        _ => {},
    }
}

proof fn lemma_kept_body(ctx: Ctx, b: Seq<Spanned<AstNode>>, env: EnvV, pos: nat)
    ensures
        errs_kept(env.errs, tc_body_v(ctx, b, env, pos).1.errs),
    decreases 2 * open_files(ctx), b, 0nat,
{
    if b.len() == 0 {
        lemma_kept_refl(env.errs);
    } else {
        let (errs1, env1, pos1) = tc_body_v(ctx, b.drop_last(), env, pos);
        lemma_kept_body(ctx, b.drop_last(), env, pos);
        lemma_kept_stmt(ctx, b.last(), env1, pos1);
        lemma_kept_trans(env.errs, env1.errs, tc_stmt_v(ctx, b.last(), env1, pos1).1.errs);
    }
}

#[verifier::spinoff_prover]
proof fn lemma_kept_cond(ctx: Ctx, c: (Spanned<Expr>, crate::ast::Spanned<crate::ast::Body>), env: EnvV, pos: nat)
    ensures
        errs_kept(env.errs, cond_step_v(ctx, c, env, pos).1.errs),
    decreases 2 * open_files(ctx), c, 0nat,
{
    let (n, env1) = cond_name_v(ctx.path, c.0, env);
    lemma_kept_refl(env.errs);
    lemma_kept_add(env, ctx.path, seq![crate::statement::if_cond_err(c.0.1)]);
    let env2 = env1.with_guard(crate::type_env::tr_name(env1.ids, env1.guard, Set::empty(), n));
    lemma_kept_body(ctx, c.1.0@, env2, pos);
    lemma_kept_trans(env.errs, env2.errs, tc_body_v(ctx, c.1.0@, env2, pos).1.errs);
}

proof fn lemma_kept_conds(ctx: Ctx, cs: Seq<(Spanned<Expr>, crate::ast::Spanned<crate::ast::Body>)>, env: EnvV, pos: nat)
    ensures
        errs_kept(env.errs, tc_conds_v(ctx, cs, env, pos).1.errs),
    decreases 2 * open_files(ctx), cs, 0nat,
{
    if cs.len() == 0 {
        lemma_kept_refl(env.errs);
    } else {
        let (errs1, env1, pos1) = tc_conds_v(ctx, cs.drop_last(), env, pos);
        lemma_kept_conds(ctx, cs.drop_last(), env, pos);
        lemma_kept_cond(ctx, cs.last(), env1, pos1);
        lemma_kept_trans(env.errs, env1.errs, cond_step_v(ctx, cs.last(), env1, pos1).1.errs);
    }
}

proof fn lemma_kept_arm(ctx: Ctx, a: (Spanned<Expr>, crate::ast::Spanned<crate::ast::Body>), i: usize, env: EnvV, pos: nat)
    ensures
        errs_kept(env.errs, arm_step_v(ctx, a, i, env, pos).1.errs),
    decreases 2 * open_files(ctx), a, 0nat,
{
    let (c, env1) = chance_v(ctx.path, a.0, env);
    lemma_kept_refl(env.errs);
    lemma_kept_add(env, ctx.path, seq![crate::statement::chance_err(a.0.1)]);
    let env2 = env1.with_guard(env1.guard.with_arm(env1.guard.current_block, i as u32, c as u32));
    lemma_kept_body(ctx, a.1.0@, env2, pos);
    lemma_kept_trans(env.errs, env2.errs, tc_body_v(ctx, a.1.0@, env2, pos).1.errs);
}

proof fn lemma_kept_arms(ctx: Ctx, arms: Seq<(Spanned<Expr>, crate::ast::Spanned<crate::ast::Body>)>, env: EnvV, pos: nat)
    ensures
        errs_kept(env.errs, tc_arms_v(ctx, arms, env, pos).1.errs),
    decreases 2 * open_files(ctx), arms, 0nat,
{
    if arms.len() == 0 {
        lemma_kept_refl(env.errs);
    } else {
        let (errs1, env1, pos1) = tc_arms_v(ctx, arms.drop_last(), env, pos);
        lemma_kept_arms(ctx, arms.drop_last(), env, pos);
        lemma_kept_arm(ctx, arms.last(), (arms.len() - 1) as usize, env1, pos1);
        lemma_kept_trans(env.errs, env1.errs, arm_step_v(ctx, arms.last(), (arms.len() - 1) as usize, env1, pos1).1.errs);
    }
}

proof fn lemma_kept_file(files: Seq<SourceFile>, visiting: Set<Seq<char>>, file: SourceFile, env: EnvV)
    ensures
        errs_kept(env.errs, tc_file_v(files, visiting, file, env).1.errs),
    decreases 2 * unseen(file_paths(files), visiting) + 1, file, 0nat,
{
    if file.parse_errs@.len() > 0 {
        lemma_kept_refl(env.errs);
    } else {
        let fctx = Ctx { path: file.path@, comments: comments_view(file.comments@), files, visiting };
        lemma_kept_body(fctx, file.ast@, env, 0);
    }
}

/// Checking a statement never loses or reorders an error found before it:
/// each file's earlier errors stay, in order, at the front of its errors.
pub proof fn law_errors_kept(ctx: Ctx, stmt: Spanned<AstNode>, env: EnvV, pos: nat, path: Seq<char>)
    ensures
        errs_of(env.errs, path).is_prefix_of(errs_of(tc_stmt_v(ctx, stmt, env, pos).1.errs, path)),
{
    lemma_kept_stmt(ctx, stmt, env, pos);
}


// ---------------------------------------------------------------------
// Soundness with respect to valuations.

/// What the guard says of a symbol is true in every valuation that agrees
/// with the guard and with the chance of the symbol: `true` only when the
/// symbol holds, `false` only when it does not.
pub proof fn law_lookup_sound(g: GuardV, v: Valuation, s: SymbolV)
    requires
        v.satisfies(g),
        v.fits_chance(s, g),
    ensures
        v.holds(g.lookup_v(s)) == v.holds_symbol(s),
{
    match s {
        SymbolV::Name(n) => {
            if g.is_true_v(n) {
                assert(v.names.contains(n));
            } else if g.is_false_v(n) {
                assert(!v.names.contains(n));
            }
        },
        SymbolV::Random { block, arm, chance } => {
            match g.block_arm {
                Some((cb, ca, _)) => {
                    assert(v.takes(cb, ca));
                },
                None => {
                    if g.chosen(block) is Some {
                        assert(v.takes(block, g.chosen(block).unwrap()));
                    } else if g.falsy_arm(block, arm) {
                        assert(!v.takes(block, arm));
                    }
                },
            }
        },
    }
}


proof fn lemma_push_contains<A>(d: Seq<A>, y: A)
    ensures
        forall|x: A| #[trigger] d.push(y).contains(x) <==> (d.contains(x) || x == y),
{
    assert forall|x: A| #[trigger] d.push(y).contains(x) <==> (d.contains(x) || x == y) by {
        if d.contains(x) {
            let k = choose|k: int| 0 <= k < d.len() && d[k] == x;
            assert(d.push(y)[k] == x);
        }
        if x == y {
            assert(d.push(y)[d.len() as int] == x);
        }
        if d.push(y).contains(x) && x != y {
            let k = choose|k: int| 0 <= k < d.len() + 1 && d.push(y)[k] == x;
            assert(k < d.len());
            assert(d[k] == x);
        }
    }
}

proof fn lemma_drop_last_contains<A>(s: Seq<A>)
    requires
        s.len() > 0,
    ensures
        forall|x: A| #[trigger] s.contains(x) <==> (s.drop_last().contains(x) || x == s.last()),
{
    assert(s.drop_last().push(s.last()) =~= s);
    lemma_push_contains(s.drop_last(), s.last());
}

proof fn lemma_push_no_dup<A>(d: Seq<A>, y: A)
    requires
        d.no_duplicates(),
        !d.contains(y),
    ensures
        d.push(y).no_duplicates(),
{
    let m = d.push(y);
    assert forall|i: int, j: int| 0 <= i < m.len() && 0 <= j < m.len() && i != j implies m[i] != m[j] by {
        if i == d.len() {
            assert(d[j] == m[j]);
        } else if j == d.len() {
            assert(d[i] == m[i]);
        } else {
            assert(d[i] == m[i] && d[j] == m[j]);
        }
    }
}

/// `dedup` keeps the elements and drops the repeats.
proof fn lemma_dedup(s: Seq<PropV>)
    ensures
        forall|x: PropV| #[trigger] dedup(s).contains(x) <==> s.contains(x),
        dedup(s).no_duplicates(),
    decreases s.len(),
{
    if s.len() > 0 {
        let t = s.drop_last();
        lemma_dedup(t);
        lemma_drop_last_contains(s);
        let d = dedup(t);
        if !d.contains(s.last()) {
            lemma_push_contains(d, s.last());
            lemma_push_no_dup(d, s.last());
        }
    }
}

/// `rand_part` keeps the random-arm literals.
proof fn lemma_rand_part(s: Seq<PropV>)
    ensures
        forall|x: PropV| #[trigger] rand_part(s).contains(x) <==> (s.contains(x) && is_rand_lit(x)),
    decreases s.len(),
{
    if s.len() > 0 {
        lemma_rand_part(s.drop_last());
        lemma_drop_last_contains(s);
        lemma_push_contains(rand_part(s.drop_last()), s.last());
    }
}

/// `other_part` keeps the terms that are not random-arm literals.
proof fn lemma_other_part(s: Seq<PropV>)
    ensures
        forall|x: PropV| #[trigger] other_part(s).contains(x) <==> (s.contains(x) && !is_rand_lit(x)),
    decreases s.len(),
{
    if s.len() > 0 {
        lemma_other_part(s.drop_last());
        lemma_drop_last_contains(s);
        lemma_push_contains(other_part(s.drop_last()), s.last());
    }
}

/// The terms as examined are those given, each once.
proof fn lemma_canonical(s: Seq<PropV>)
    ensures
        forall|x: PropV| #[trigger] canonical(s).contains(x) <==> s.contains(x),
        canonical(s).no_duplicates(),
{
    let a = dedup(rand_part(s));
    let b = dedup(other_part(s));
    lemma_rand_part(s);
    lemma_other_part(s);
    lemma_dedup(rand_part(s));
    lemma_dedup(other_part(s));
    let c = a + b;
    assert forall|x: PropV| #[trigger] c.contains(x) <==> (a.contains(x) || b.contains(x)) by {
        if a.contains(x) {
            let k = choose|k: int| 0 <= k < a.len() && a[k] == x;
            assert(c[k] == x);
        }
        if b.contains(x) {
            let k = choose|k: int| 0 <= k < b.len() && b[k] == x;
            assert(c[a.len() + k] == x);
        }
        if c.contains(x) {
            let k = choose|k: int| 0 <= k < c.len() && c[k] == x;
            if k < a.len() {
                assert(a[k] == x);
            } else {
                assert(b[k - a.len()] == x);
            }
        }
    }
    assert forall|i: int, j: int| 0 <= i < c.len() && 0 <= j < c.len() && i != j implies c[i] != c[j] by {
        if i < a.len() && j < a.len() {
        } else if i >= a.len() && j >= a.len() {
            assert(c[i] == b[i - a.len()] && c[j] == b[j - a.len()]);
        } else if i < a.len() {
            assert(a.contains(c[i]));
            assert(b.contains(b[j - a.len()]));
        } else {
            assert(a.contains(c[j]));
            assert(b.contains(b[i - a.len()]));
        }
    }
}

/// The terms kept of a conjunction are those of `ys` that `and_keeps` keeps.
proof fn lemma_and_kept(ys: Seq<PropV>, all: Seq<PropV>, g: Option<GuardV>)
    ensures
        forall|x: PropV| #[trigger] and_kept(ys, all, g).contains(x) <==> (ys.contains(x) && and_keeps(x, all, g)),
    decreases ys.len(),
{
    if ys.len() > 0 {
        lemma_and_kept(ys.drop_last(), all, g);
        lemma_drop_last_contains(ys);
        lemma_push_contains(and_kept(ys.drop_last(), all, g), ys.last());
    }
}

/// A conjunction of terms holds when every term holds.
proof fn lemma_collect_and(v: Valuation, zs: Seq<PropV>)
    ensures
        v.holds(collect_and(zs)) == v.holds_all(zs),
{
    if zs.len() == 1 {
        assert(v.holds_all(zs) ==> v.holds(zs[0]));
        if v.holds(zs[0]) {
            assert forall|i: int| 0 <= i < zs.len() implies v.holds(#[trigger] zs[i]) by {
                assert(i == 0);
            }
        }
    } else if zs.len() >= 2 {
        assert(collect_and(zs) == PropV::And(zs));
        crate::valuation::lemma_all_hold(v, zs);
    }
}

/// Two sequences with the same elements hold together.
proof fn lemma_holds_all_same(v: Valuation, a: Seq<PropV>, b: Seq<PropV>)
    requires
        forall|x: PropV| #[trigger] a.contains(x) <==> b.contains(x),
    ensures
        v.holds_all(a) == v.holds_all(b),
{
    if v.holds_all(a) {
        assert forall|i: int| 0 <= i < b.len() implies v.holds(#[trigger] b[i]) by {
            assert(b.contains(b[i]));
            assert(a.contains(b[i]));
            let k = choose|k: int| 0 <= k < a.len() && a[k] == b[i];
            assert(v.holds(a[k]));
        }
    }
    if v.holds_all(b) {
        assert forall|i: int| 0 <= i < a.len() implies v.holds(#[trigger] a[i]) by {
            assert(a.contains(a[i]));
            assert(b.contains(a[i]));
            let k = choose|k: int| 0 <= k < b.len() && b[k] == a[i];
            assert(v.holds(b[k]));
        }
    }
}

/// A conjunction of literals, simplified under a guard, holds in exactly the
/// valuations that agree with the guard and in which all its terms hold. The
/// terms are `true`, `false` or literals, and each random arm among them
/// carries one chance.
pub proof fn law_simplify_and_sound(xs: Seq<PropV>, g: Option<GuardV>, v: Valuation)
    requires
        forall|i: int| 0 <= i < xs.len() ==> is_singleton_v(#[trigger] xs[i]),
        one_chance_per_arm(xs),
        g matches Some(gg) ==> v.satisfies(gg),
    ensures
        v.holds(simplify_and_v(xs, g)) == v.holds_all(xs),
{
    let ys = canonical(xs);
    lemma_canonical(xs);
    lemma_holds_all_same(v, ys, xs);
    assert forall|i: int| 0 <= i < ys.len() implies is_singleton_v(#[trigger] ys[i]) by {
        assert(ys.contains(ys[i]));
        let k = choose|k: int| 0 <= k < xs.len() && xs[k] == ys[i];
    }
    assert(one_chance_per_arm(ys)) by {
        assert forall|i: int, j: int|
            0 <= i < ys.len() && 0 <= j < ys.len() && (#[trigger] rand_of(ys[i])) is Some && (#[trigger] rand_of(ys[j])) is Some
                && rand_of(ys[i]).unwrap().0 == rand_of(ys[j]).unwrap().0 && rand_of(ys[i]).unwrap().1 == rand_of(ys[j]).unwrap().1
            implies rand_of(ys[i]).unwrap().2 == rand_of(ys[j]).unwrap().2 by {
            assert(ys.contains(ys[i]));
            assert(ys.contains(ys[j]));
            let ki = choose|k: int| 0 <= k < xs.len() && xs[k] == ys[i];
            let kj = choose|k: int| 0 <= k < xs.len() && xs[k] == ys[j];
            assert(rand_of(xs[ki]) is Some && rand_of(xs[kj]) is Some);
        }
    }
    if ys.len() == 0 {
    } else if ys.len() == 1 {
        assert(v.holds_all(ys) == v.holds(ys[0]));
    } else if and_conflict(ys, g) {
        lemma_conflict_fails(ys, g, v);
    } else {
        let kept = and_kept(ys, ys, g);
        lemma_and_kept(ys, ys, g);
        lemma_collect_and(v, kept);
        if v.holds_all(kept) {
            assert forall|i: int| 0 <= i < ys.len() implies v.holds(#[trigger] ys[i]) by {
                lemma_kept_or_holds(ys, g, v, i);
            }
        }
        if v.holds_all(ys) {
            assert forall|i: int| 0 <= i < kept.len() implies v.holds(#[trigger] kept[i]) by {
                assert(kept.contains(kept[i]));
                let k = choose|k: int| 0 <= k < ys.len() && ys[k] == kept[i];
            }
        }
    }
}

/// A conjunction with a conflict does not hold.
proof fn lemma_conflict_fails(ys: Seq<PropV>, g: Option<GuardV>, v: Valuation)
    requires
        forall|i: int| 0 <= i < ys.len() ==> is_singleton_v(#[trigger] ys[i]),
        one_chance_per_arm(ys),
        ys.no_duplicates(),
        g matches Some(gg) ==> v.satisfies(gg),
        and_conflict(ys, g),
    ensures
        !v.holds_all(ys),
{
    if exists|i: int| 0 <= i < ys.len() && #[trigger] and_single_conflict(ys, g, i) {
        let i = choose|i: int| 0 <= i < ys.len() && #[trigger] and_single_conflict(ys, g, i);
        if !(ys[i] is False) {
            let (b, a, c) = rand_of(ys[i]).unwrap();
            if gchosen(g, b) is Some {
                let gg = g.unwrap();
                assert(v.takes(b, gg.chosen(b).unwrap()));
            } else {
                let gg = g.unwrap();
                assert(gg.falsy_arm(b, a));
            }
        }
        assert(!v.holds(ys[i]));
    } else {
        let (i, j) = choose|i: int, j: int| 0 <= i < ys.len() && 0 <= j < ys.len() && #[trigger] and_pair_conflict(ys, i, j);
        if v.holds(ys[i]) && v.holds(ys[j]) {
            if rand_of(ys[i]) is Some && rand_of(ys[j]) is Some && ys[i] is Var && ys[j] is Var {
                assert(rand_of(ys[i]).unwrap().1 == rand_of(ys[j]).unwrap().1);
                assert(ys[i] == ys[j]);
            }
        }
        assert(!(v.holds(ys[i]) && v.holds(ys[j])));
    }
}

/// A term of a conflict-free conjunction that is not kept holds when the
/// kept terms hold.
proof fn lemma_kept_or_holds(ys: Seq<PropV>, g: Option<GuardV>, v: Valuation, i: int)
    requires
        0 <= i < ys.len(),
        forall|k: int| 0 <= k < ys.len() ==> is_singleton_v(#[trigger] ys[k]),
        g matches Some(gg) ==> v.satisfies(gg),
        !and_conflict(ys, g),
        forall|x: PropV| #[trigger] and_kept(ys, ys, g).contains(x) <==> (ys.contains(x) && and_keeps(x, ys, g)),
        v.holds_all(and_kept(ys, ys, g)),
    ensures
        v.holds(ys[i]),
{
    let kept = and_kept(ys, ys, g);
    let y = ys[i];
    assert(ys.contains(y));
    assert(!and_single_conflict(ys, g, i));
    if and_keeps(y, ys, g) {
        assert(kept.contains(y));
        let k = choose|k: int| 0 <= k < kept.len() && kept[k] == y;
        assert(v.holds(kept[k]));
    } else if y is True {
    } else if is_rand_lit(y) && y is Var && gchosen(g, rand_of(y).unwrap().0) is Some {
        let gg = g.unwrap();
        let b = rand_of(y).unwrap().0;
        assert(v.takes(b, gg.chosen(b).unwrap()));
    } else {
        let (b, a, c) = rand_of(y).unwrap();
        assert(has_other_arm(ys, b, a));
        let k = choose|k: int| 0 <= k < ys.len() && #[trigger] other_arm_of(ys[k], b, a);
        let z = ys[k];
        let a2 = rand_of(z).unwrap().1;
        assert(!and_single_conflict(ys, g, k));
        if gchosen(g, b) is Some {
            let gg = g.unwrap();
            assert(v.takes(b, gg.chosen(b).unwrap()));
            assert(gg.chosen(b) == Some(a2));
        } else {
            assert(and_keeps(z, ys, g));
            assert(ys.contains(z));
            assert(kept.contains(z));
            let m = choose|m: int| 0 <= m < kept.len() && kept[m] == z;
            assert(v.holds(kept[m]));
        }
        assert(v.takes(b, a2));
    }
}


/// Two sequences with the same elements hold or fail together as disjunctions.
proof fn lemma_holds_some_same(v: Valuation, a: Seq<PropV>, b: Seq<PropV>)
    requires
        forall|x: PropV| #[trigger] a.contains(x) <==> b.contains(x),
    ensures
        v.holds_some(a) == v.holds_some(b),
{
    if v.holds_some(a) {
        let k = choose|k: int| 0 <= k < a.len() && v.holds(#[trigger] a[k]);
        assert(a.contains(a[k]));
        assert(b.contains(a[k]));
        let m = choose|m: int| 0 <= m < b.len() && b[m] == a[k];
        assert(v.holds(b[m]));
    }
    if v.holds_some(b) {
        let k = choose|k: int| 0 <= k < b.len() && v.holds(#[trigger] b[k]);
        assert(b.contains(b[k]));
        assert(a.contains(b[k]));
        let m = choose|m: int| 0 <= m < a.len() && a[m] == b[k];
        assert(v.holds(a[m]));
    }
}

/// A disjunction of terms holds when some term holds.
proof fn lemma_collect_or(v: Valuation, zs: Seq<PropV>)
    ensures
        v.holds(collect_or(zs)) == v.holds_some(zs),
{
    if zs.len() == 1 {
        if v.holds(zs[0]) {
            assert(v.holds_some(zs));
        }
        if v.holds_some(zs) {
            let k = choose|k: int| 0 <= k < zs.len() && v.holds(#[trigger] zs[k]);
            assert(k == 0);
        }
    } else if zs.len() >= 2 {
        assert(collect_or(zs) == PropV::Or(zs));
        crate::valuation::lemma_some_holds(v, zs);
    }
}

/// No arm of block `b` is asserted in `ys`: its summed chance is 0.
proof fn lemma_pos_sum_none(ys: Seq<PropV>, b: u32)
    requires
        forall|j: int| 0 <= j < ys.len() && ys[j] is Var && (#[trigger] rand_of(ys[j])) is Some ==> rand_of(ys[j]).unwrap().0 != b,
    ensures
        pos_sum(ys, b) == 0,
    decreases ys.len(),
{
    if ys.len() > 0 {
        let t = ys.drop_last();
        assert forall|j: int| 0 <= j < t.len() && t[j] is Var && (#[trigger] rand_of(t[j])) is Some implies rand_of(t[j]).unwrap().0 != b by {
            assert(t[j] == ys[j]);
        }
        lemma_pos_sum_none(t, b);
        assert(rand_of(ys[ys.len() - 1]) is Some ==> ys[ys.len() - 1] is Var ==> rand_of(ys[ys.len() - 1]).unwrap().0 != b);
    }
}

/// The only arm of block `b` asserted in `ys`, at `i`, gives the summed chance.
proof fn lemma_pos_sum_single(ys: Seq<PropV>, b: u32, i: int)
    requires
        0 <= i < ys.len(),
        ys.no_duplicates(),
        ys[i] is Var,
        rand_of(ys[i]) is Some,
        rand_of(ys[i]).unwrap().0 == b,
        forall|j: int| 0 <= j < ys.len() && ys[j] is Var && (#[trigger] rand_of(ys[j])) is Some && rand_of(ys[j]).unwrap().0 == b ==> ys[j] == ys[i],
    ensures
        pos_sum(ys, b) == rand_of(ys[i]).unwrap().2,
    decreases ys.len(),
{
    let t = ys.drop_last();
    let last = ys.len() - 1;
    if i == last {
        assert forall|j: int| 0 <= j < t.len() && t[j] is Var && (#[trigger] rand_of(t[j])) is Some implies rand_of(t[j]).unwrap().0 != b by {
            assert(t[j] == ys[j]);
            if rand_of(t[j]).unwrap().0 == b {
                assert(ys[j] == ys[i]);
            }
        }
        lemma_pos_sum_none(t, b);
    } else {
        assert(t[i] == ys[i]);
        assert forall|j: int| 0 <= j < t.len() && t[j] is Var && (#[trigger] rand_of(t[j])) is Some && rand_of(t[j]).unwrap().0 == b implies t[j] == t[i] by {
            assert(t[j] == ys[j]);
        }
        assert(t.no_duplicates()) by {
            assert forall|p: int, q: int| 0 <= p < t.len() && 0 <= q < t.len() && p != q implies t[p] != t[q] by {
                assert(t[p] == ys[p] && t[q] == ys[q]);
            }
        }
        lemma_pos_sum_single(t, b, i);
        if ys[last] is Var && rand_of(ys[last]) is Some && rand_of(ys[last]).unwrap().0 == b {
            assert(ys[last] == ys[i]);
        }
    }
}

/// The terms kept of a disjunction, among the first `n` of `ys`.
proof fn lemma_or_kept(ys: Seq<PropV>, g: Option<GuardV>, n: int)
    requires
        0 <= n <= ys.len(),
    ensures
        forall|x: PropV| #[trigger] or_kept(ys, g, n).contains(x)
            <==> exists|k: int| 0 <= k < n && or_keeps(ys, g, k) && x == #[trigger] or_adjust(ys, ys[k]),
    decreases n,
{
    if n > 0 {
        lemma_or_kept(ys, g, n - 1);
        lemma_push_contains(or_kept(ys, g, n - 1), or_adjust(ys, ys[n - 1]));
        assert forall|x: PropV| #[trigger] or_kept(ys, g, n).contains(x)
            <==> exists|k: int| 0 <= k < n && or_keeps(ys, g, k) && x == #[trigger] or_adjust(ys, ys[k]) by {
            if exists|k: int| 0 <= k < n && or_keeps(ys, g, k) && x == #[trigger] or_adjust(ys, ys[k]) {
                let k = choose|k: int| 0 <= k < n && or_keeps(ys, g, k) && x == #[trigger] or_adjust(ys, ys[k]);
                if k < n - 1 {
                    assert(exists|k2: int| 0 <= k2 < n - 1 && or_keeps(ys, g, k2) && x == #[trigger] or_adjust(ys, ys[k2]));
                }
            }
            if or_kept(ys, g, n - 1).contains(x) {
                let k = choose|k: int| 0 <= k < n - 1 && or_keeps(ys, g, k) && x == #[trigger] or_adjust(ys, ys[k]);
                assert(0 <= k < n);
            }
        }
    } else {
        assert(or_kept(ys, g, n) =~= Seq::<PropV>::empty());
    }
}

/// Terms that are no conjunctions hold no pair to factor.
proof fn lemma_no_factor_pair(xs: Seq<PropV>, g: Option<GuardV>)
    requires
        forall|i: int| 0 <= i < xs.len() ==> !(#[trigger] xs[i] is And),
    ensures
        forall|i: int, j: int| !#[trigger] factor_pair(xs, g, i, j),
{
    assert forall|i: int, j: int| !#[trigger] factor_pair(xs, g, i, j) by {
        if 0 <= i < xs.len() {
            assert(!(xs[i] is And));
        }
    }
}

/// A disjunction of constants, literals and conjunctions of literals,
/// simplified under a guard, holds in exactly the valuations that agree
/// with the guard and with the chances of the arms it asserts, and in which
/// one of its terms holds. Each random arm among the terms carries one
/// chance, an arm that is asserted is the only term of its block (so that
/// no arms are merged), and no two conjunctions differ only in an arm of
/// one block (so that none are factored).
pub proof fn law_simplify_or_sound(xs: Seq<PropV>, g: Option<GuardV>, v: Valuation)
    requires
        forall|i: int| 0 <= i < xs.len() ==> is_conjunctive(#[trigger] xs[i]),
        forall|i: int, j: int| !#[trigger] factor_pair(xs, g, i, j),
        one_chance_per_arm(xs),
        asserted_arm_alone(xs),
        g matches Some(gg) ==> v.satisfies(gg),
        v.covers(xs, g),
    ensures
        v.holds(simplify_or_v(xs, g)) == v.holds_some(xs),
{
    assert(factor_v(xs, g) == xs) by {
        if exists|i: int, j: int| first_factor_pair(xs, g, i, j) {
            let (i, j) = choose|i: int, j: int| first_factor_pair(xs, g, i, j);
            assert(factor_pair(xs, g, i, j));
        }
    }
    let ys = canonical(xs);
    lemma_canonical(xs);
    lemma_holds_some_same(v, ys, xs);
    assert forall|i: int| 0 <= i < ys.len() implies is_conjunctive(#[trigger] ys[i]) by {
        assert(ys.contains(ys[i]));
        let k = choose|k: int| 0 <= k < xs.len() && xs[k] == ys[i];
    }
    assert(asserted_arm_alone(ys)) by {
        assert forall|i: int, j: int|
            0 <= i < ys.len() && 0 <= j < ys.len() && ys[i] is Var && (#[trigger] rand_of(ys[i])) is Some
                && (#[trigger] rand_of(ys[j])) is Some && rand_of(ys[i]).unwrap().0 == rand_of(ys[j]).unwrap().0
            implies ys[i] == ys[j] by {
            assert(ys.contains(ys[i]));
            assert(ys.contains(ys[j]));
            let ki = choose|k: int| 0 <= k < xs.len() && xs[k] == ys[i];
            let kj = choose|k: int| 0 <= k < xs.len() && xs[k] == ys[j];
            assert(rand_of(xs[ki]) is Some && rand_of(xs[kj]) is Some);
        }
    }
    assert(v.covers(ys, g)) by {
        assert forall|i: int|
            0 <= i < ys.len() && ys[i] is Var && (#[trigger] rand_of(ys[i])) is Some
                && rand_of(ys[i]).unwrap().2 + ginc(g, rand_of(ys[i]).unwrap().0) >= 100
            implies v.takes(rand_of(ys[i]).unwrap().0, rand_of(ys[i]).unwrap().1) by {
            assert(ys.contains(ys[i]));
            let k = choose|k: int| 0 <= k < xs.len() && xs[k] == ys[i];
            assert(rand_of(xs[k]) is Some);
        }
    }
    if ys.len() == 0 {
    } else if ys.len() == 1 {
        if v.holds(ys[0]) {
            assert(v.holds_some(ys));
        }
        if v.holds_some(ys) {
            let k = choose|k: int| 0 <= k < ys.len() && v.holds(#[trigger] ys[k]);
            assert(k == 0);
        }
    } else if or_true(ys, g) {
        lemma_or_true_holds(ys, g, v);
    } else {
        let n = ys.len() as int;
        let kept = or_kept(ys, g, n);
        lemma_or_kept(ys, g, n);
        lemma_collect_or(v, kept);
        if v.holds_some(kept) {
            let m = choose|m: int| 0 <= m < kept.len() && v.holds(#[trigger] kept[m]);
            assert(kept.contains(kept[m]));
            let k = choose|k: int| 0 <= k < n && or_keeps(ys, g, k) && kept[m] == #[trigger] or_adjust(ys, ys[k]);
            lemma_adjust_holds(v, ys, ys[k]);
            assert(v.holds(ys[k]));
        }
        if v.holds_some(ys) {
            let k = choose|k: int| 0 <= k < ys.len() && v.holds(#[trigger] ys[k]);
            lemma_or_dropped_fails(ys, g, v, k);
            assert(kept.contains(or_adjust(ys, ys[k])));
            let m = choose|m: int| 0 <= m < kept.len() && kept[m] == or_adjust(ys, ys[k]);
            lemma_adjust_holds(v, ys, ys[k]);
            assert(v.holds(kept[m]));
        }
    }
}

/// The chance a kept disjunct is given does not change its truth.
proof fn lemma_adjust_holds(v: Valuation, ys: Seq<PropV>, p: PropV)
    requires
        is_conjunctive(p),
    ensures
        v.holds(or_adjust(ys, p)) == v.holds(p),
{
}

/// A disjunction found true holds.
proof fn lemma_or_true_holds(ys: Seq<PropV>, g: Option<GuardV>, v: Valuation)
    requires
        forall|i: int| 0 <= i < ys.len() ==> is_conjunctive(#[trigger] ys[i]),
        asserted_arm_alone(ys),
        ys.no_duplicates(),
        g matches Some(gg) ==> v.satisfies(gg),
        v.covers(ys, g),
        or_true(ys, g),
    ensures
        v.holds_some(ys),
{
    if exists|i: int| 0 <= i < ys.len() && #[trigger] or_single_true(ys, g, i) {
        let i = choose|i: int| 0 <= i < ys.len() && #[trigger] or_single_true(ys, g, i);
        if !(ys[i] is True) {
            let (b, a, c) = rand_of(ys[i]).unwrap();
            let gg = g.unwrap();
            assert(v.takes(b, gg.chosen(b).unwrap()));
        }
        assert(v.holds(ys[i]));
    } else if exists|i: int, j: int| 0 <= i < ys.len() && 0 <= j < ys.len() && #[trigger] or_pair_true(ys, i, j) {
        let (i, j) = choose|i: int, j: int| 0 <= i < ys.len() && 0 <= j < ys.len() && #[trigger] or_pair_true(ys, i, j);
        assert(v.holds(ys[i]) || v.holds(ys[j]));
    } else {
        let i = choose|i: int| 0 <= i < ys.len() && #[trigger] or_block_true(ys, g, i);
        let (b, a, c) = rand_of(ys[i]).unwrap();
        assert forall|j: int| 0 <= j < ys.len() && ys[j] is Var && (#[trigger] rand_of(ys[j])) is Some && rand_of(ys[j]).unwrap().0 == b implies ys[j] == ys[i] by {
            assert(rand_of(ys[i]) is Some);
        }
        lemma_pos_sum_single(ys, b, i);
        assert(v.takes(b, a));
        assert(v.holds(ys[i]));
    }
}

/// A term of a disjunction not found true is kept when it holds.
proof fn lemma_or_dropped_fails(ys: Seq<PropV>, g: Option<GuardV>, v: Valuation, k: int)
    requires
        0 <= k < ys.len(),
        forall|i: int| 0 <= i < ys.len() ==> is_conjunctive(#[trigger] ys[i]),
        asserted_arm_alone(ys),
        ys.no_duplicates(),
        g matches Some(gg) ==> v.satisfies(gg),
        !or_true(ys, g),
        v.holds(ys[k]),
    ensures
        or_keeps(ys, g, k),
{
    assert(!or_single_true(ys, g, k));
    let y = ys[k];
    if is_rand_lit(y) && gchosen(g, rand_of(y).unwrap().0) is Some {
        let gg = g.unwrap();
        let b = rand_of(y).unwrap().0;
        assert(v.takes(b, gg.chosen(b).unwrap()));
    }
    if is_rand_lit(y) && y is Var && !first_of_block(ys, k) {
        let j = choose|j: int| 0 <= j < k && #[trigger] is_rand_lit(ys[j]) && rand_of(ys[j]).unwrap().0 == rand_of(y).unwrap().0;
        assert(rand_of(ys[j]) is Some && rand_of(ys[k]) is Some);
        assert(ys[k] == ys[j]);
    }
}


/// `drop_true` keeps the terms that are not `true`.
proof fn lemma_drop_true(ys: Seq<PropV>)
    ensures
        forall|x: PropV| #[trigger] drop_true(ys).contains(x) <==> (ys.contains(x) && !(x is True)),
    decreases ys.len(),
{
    if ys.len() > 0 {
        lemma_drop_true(ys.drop_last());
        lemma_drop_last_contains(ys);
        lemma_push_contains(drop_true(ys.drop_last()), ys.last());
    }
}

/// `drop_false` keeps the terms that are not `false`.
proof fn lemma_drop_false(ys: Seq<PropV>)
    ensures
        forall|x: PropV| #[trigger] drop_false(ys).contains(x) <==> (ys.contains(x) && !(x is False)),
    decreases ys.len(),
{
    if ys.len() > 0 {
        lemma_drop_false(ys.drop_last());
        lemma_drop_last_contains(ys);
        lemma_push_contains(drop_false(ys.drop_last()), ys.last());
    }
}

/// A constant or literal simplified under the guard is a constant or the
/// same literal, and is true exactly when the term is.
proof fn lemma_simplify_literal(x: PropV, g: GuardV, v: Valuation)
    requires
        is_singleton_v(x),
        v.satisfies(g),
        match x {
            PropV::Var(s) => v.fits_chance(s, g),
            PropV::Not(s) => v.fits_chance(s, g),
            _ => true,
        },
    ensures
        is_singleton_v(simplify_v(x, g)),
        v.holds(simplify_v(x, g)) == v.holds(x),
        simplify_v(x, g) is True || simplify_v(x, g) is False || simplify_v(x, g) == x,
{
    match x {
        PropV::Var(s) => {
            law_lookup_sound(g, v, s);
        },
        PropV::Not(s) => {
            law_lookup_sound(g, v, s);
        },
        _ => {},
    }
}

/// A conjunction of literals simplified under the guard `g` holds in exactly
/// the valuations, agreeing with `g` and with the chances of its arms, in
/// which the conjunction holds.
pub proof fn law_simplify_conj_sound(xs: Seq<PropV>, g: GuardV, v: Valuation)
    requires
        forall|i: int| 0 <= i < xs.len() ==> is_singleton_v(#[trigger] xs[i]),
        one_chance_per_arm(xs),
        v.satisfies(g),
        v.fits_chances(xs, g),
    ensures
        v.holds(simplify_v(PropV::And(xs), g)) == v.holds(PropV::And(xs)),
{
    let ys = simplified_all(xs, g);
    crate::valuation::lemma_all_hold(v, xs);
    assert forall|i: int| 0 <= i < xs.len() implies
        is_singleton_v(#[trigger] ys[i]) && v.holds(ys[i]) == v.holds(xs[i])
            && (ys[i] is True || ys[i] is False || ys[i] == xs[i]) by {
        lemma_simplify_literal(xs[i], g, v);
    }
    if exists|i: int| 0 <= i < ys.len() && ys[i] is False {
        let i = choose|i: int| 0 <= i < ys.len() && ys[i] is False;
        assert(!v.holds(xs[i]));
    } else {
        let zs = drop_true(ys);
        lemma_drop_true(ys);
        assert forall|k: int| 0 <= k < zs.len() implies
            is_singleton_v(#[trigger] zs[k]) && exists|m: int| 0 <= m < xs.len() && zs[k] == xs[m] by {
            assert(zs.contains(zs[k]));
            let m = choose|m: int| 0 <= m < ys.len() && ys[m] == zs[k];
            assert(zs[k] == xs[m]);
        }
        assert(one_chance_per_arm(zs)) by {
            assert forall|i: int, j: int|
                0 <= i < zs.len() && 0 <= j < zs.len() && (#[trigger] rand_of(zs[i])) is Some && (#[trigger] rand_of(zs[j])) is Some
                    && rand_of(zs[i]).unwrap().0 == rand_of(zs[j]).unwrap().0 && rand_of(zs[i]).unwrap().1 == rand_of(zs[j]).unwrap().1
                implies rand_of(zs[i]).unwrap().2 == rand_of(zs[j]).unwrap().2 by {
                let mi = choose|m: int| 0 <= m < xs.len() && zs[i] == xs[m];
                let mj = choose|m: int| 0 <= m < xs.len() && zs[j] == xs[m];
                assert(rand_of(xs[mi]) is Some && rand_of(xs[mj]) is Some);
            }
        }
        law_simplify_and_sound(zs, Some(g), v);
        if v.holds_all(xs) {
            assert forall|k: int| 0 <= k < zs.len() implies v.holds(#[trigger] zs[k]) by {
                let m = choose|m: int| 0 <= m < xs.len() && zs[k] == xs[m];
                assert(v.holds(xs[m]));
            }
        }
        if v.holds_all(zs) {
            assert forall|i: int| 0 <= i < xs.len() implies v.holds(#[trigger] xs[i]) by {
                if !(ys[i] is True) {
                    assert(ys.contains(ys[i]));
                    assert(zs.contains(ys[i]));
                    let k = choose|k: int| 0 <= k < zs.len() && zs[k] == ys[i];
                    assert(v.holds(zs[k]));
                }
            }
        }
    }
}

/// A disjunction of literals simplified under the guard `g` holds in exactly
/// the valuations, agreeing with `g` and with the chances of its arms, in
/// which the disjunction holds. Each random arm carries one chance, and an
/// arm that is asserted is the only term of its block.
pub proof fn law_simplify_disj_sound(xs: Seq<PropV>, g: GuardV, v: Valuation)
    requires
        forall|i: int| 0 <= i < xs.len() ==> is_singleton_v(#[trigger] xs[i]),
        one_chance_per_arm(xs),
        asserted_arm_alone(xs),
        v.satisfies(g),
        v.fits_chances(xs, g),
        v.covers(xs, Some(g)),
    ensures
        v.holds(simplify_v(PropV::Or(xs), g)) == v.holds(PropV::Or(xs)),
{
    let ys = simplified_all(xs, g);
    crate::valuation::lemma_some_holds(v, xs);
    assert forall|i: int| 0 <= i < xs.len() implies
        is_singleton_v(#[trigger] ys[i]) && v.holds(ys[i]) == v.holds(xs[i])
            && (ys[i] is True || ys[i] is False || ys[i] == xs[i]) by {
        lemma_simplify_literal(xs[i], g, v);
    }
    if exists|i: int| 0 <= i < ys.len() && ys[i] is True {
        let i = choose|i: int| 0 <= i < ys.len() && ys[i] is True;
        assert(v.holds(xs[i]));
    } else {
        let zs = drop_false(ys);
        lemma_drop_false(ys);
        assert forall|k: int| 0 <= k < zs.len() implies
            is_singleton_v(#[trigger] zs[k]) && exists|m: int| 0 <= m < xs.len() && zs[k] == xs[m] by {
            assert(zs.contains(zs[k]));
            let m = choose|m: int| 0 <= m < ys.len() && ys[m] == zs[k];
            assert(zs[k] == xs[m]);
        }
        assert(one_chance_per_arm(zs)) by {
            assert forall|i: int, j: int|
                0 <= i < zs.len() && 0 <= j < zs.len() && (#[trigger] rand_of(zs[i])) is Some && (#[trigger] rand_of(zs[j])) is Some
                    && rand_of(zs[i]).unwrap().0 == rand_of(zs[j]).unwrap().0 && rand_of(zs[i]).unwrap().1 == rand_of(zs[j]).unwrap().1
                implies rand_of(zs[i]).unwrap().2 == rand_of(zs[j]).unwrap().2 by {
                let mi = choose|m: int| 0 <= m < xs.len() && zs[i] == xs[m];
                let mj = choose|m: int| 0 <= m < xs.len() && zs[j] == xs[m];
                assert(rand_of(xs[mi]) is Some && rand_of(xs[mj]) is Some);
            }
        }
        assert(asserted_arm_alone(zs)) by {
            assert forall|i: int, j: int|
                0 <= i < zs.len() && 0 <= j < zs.len() && zs[i] is Var && (#[trigger] rand_of(zs[i])) is Some
                    && (#[trigger] rand_of(zs[j])) is Some && rand_of(zs[i]).unwrap().0 == rand_of(zs[j]).unwrap().0
                implies zs[i] == zs[j] by {
                let mi = choose|m: int| 0 <= m < xs.len() && zs[i] == xs[m];
                let mj = choose|m: int| 0 <= m < xs.len() && zs[j] == xs[m];
                assert(rand_of(xs[mi]) is Some && rand_of(xs[mj]) is Some);
            }
        }
        assert(v.covers(zs, Some(g))) by {
            assert forall|i: int|
                0 <= i < zs.len() && zs[i] is Var && (#[trigger] rand_of(zs[i])) is Some
                    && rand_of(zs[i]).unwrap().2 + ginc(Some(g), rand_of(zs[i]).unwrap().0) >= 100
                implies v.takes(rand_of(zs[i]).unwrap().0, rand_of(zs[i]).unwrap().1) by {
                let m = choose|m: int| 0 <= m < xs.len() && zs[i] == xs[m];
                assert(rand_of(xs[m]) is Some);
            }
        }
        lemma_no_factor_pair(zs, Some(g));
        law_simplify_or_sound(zs, Some(g), v);
        if v.holds_some(xs) {
            let m = choose|m: int| 0 <= m < xs.len() && v.holds(#[trigger] xs[m]);
            assert(v.holds(ys[m]));
            assert(ys.contains(ys[m]));
            assert(zs.contains(ys[m]));
            let k = choose|k: int| 0 <= k < zs.len() && zs[k] == ys[m];
            assert(v.holds(zs[k]));
        }
        if v.holds_some(zs) {
            let k = choose|k: int| 0 <= k < zs.len() && v.holds(#[trigger] zs[k]);
            let m = choose|m: int| 0 <= m < xs.len() && zs[k] == xs[m];
            assert(v.holds(xs[m]));
        }
    }
}


/// Replacing names in terms that hold none simplifies each term under the
/// guard, and meets no name.
proof fn lemma_subst_seq_nameless(
    ids: Seq<(Seq<char>, IdInfoV)>,
    groups: Seq<(Seq<char>, IdInfoV)>,
    g: GuardV,
    seen: Set<Seq<char>>,
    xs: Seq<PropV>,
)
    requires
        forall|i: int| 0 <= i < xs.len() ==> is_singleton_v(#[trigger] xs[i]) && name_of(xs[i]) is None,
    ensures
        subst_seq(ids, groups, g, seen, xs) == (simplified_all(xs, g), seen),
    decreases xs.len(),
{
    if xs.len() > 0 {
        let t = xs.drop_last();
        assert forall|i: int| 0 <= i < t.len() implies is_singleton_v(#[trigger] t[i]) && name_of(t[i]) is None by {
            assert(t[i] == xs[i]);
        }
        lemma_subst_seq_nameless(ids, groups, g, seen, t);
        let x = xs.last();
        assert(is_singleton_v(xs[xs.len() - 1]) && name_of(xs[xs.len() - 1]) is None);
        assert(subst(ids, groups, g, seen, x, false) == (simplify_v(x, g), seen));
        assert(simplified_all(xs, g) =~= simplified_all(t, g).push(simplify_v(x, g)));
    } else {
        assert(simplified_all(xs, g) =~= Seq::<PropV>::empty());
    }
}

/// A simplified conjunction is `true`, `false`, one of its terms, or a
/// conjunction.
proof fn lemma_and_result(xs: Seq<PropV>, g: Option<GuardV>)
    ensures
        simplify_and_v(xs, g) is True || simplify_and_v(xs, g) is False || simplify_and_v(xs, g) is And
            || xs.contains(simplify_and_v(xs, g)),
{
    let ys = canonical(xs);
    lemma_canonical(xs);
    if ys.len() == 1 {
        assert(ys.contains(ys[0]));
    } else if ys.len() > 1 && !and_conflict(ys, g) {
        let kept = and_kept(ys, ys, g);
        lemma_and_kept(ys, ys, g);
        if kept.len() == 1 {
            assert(kept.contains(kept[0]));
        }
    }
}

/// Liveness is sound for a name defined under random arms alone: when its
/// proposition is a random-arm literal or a conjunction of them, and a
/// valuation that agrees with the guard and with the chances of those arms
/// defines the name exactly when its proposition holds, then a name found
/// live is defined and a name found dead is not.
pub proof fn law_liveness_sound_for_arms(
    ids: Seq<(Seq<char>, IdInfoV)>,
    groups: Seq<(Seq<char>, IdInfoV)>,
    g: GuardV,
    n: Seq<char>,
    et: Seq<PropV>,
    v: Valuation,
)
    requires
        info_of(ids, n) is Some,
        info_of(ids, n).unwrap().guard == PropV::And(et) || (et.len() == 1 && info_of(ids, n).unwrap().guard == et[0]),
        forall|i: int| 0 <= i < et.len() ==> is_singleton_v(#[trigger] et[i]) && name_of(et[i]) is None,
        one_chance_per_arm(et),
        v.satisfies(g),
        v.fits_chances(et, g),
        v.names.contains(n) == v.holds(info_of(ids, n).unwrap().guard),
    ensures
        liveness_v(ids, groups, g, n, false) == Liveness::Live ==> v.names.contains(n),
        liveness_v(ids, groups, g, n, false) == Liveness::Dead ==> !v.names.contains(n),
{
    let vg = subst(ids, groups, g, Set::empty(), PropV::Var(SymbolV::Name(n)), false).0;
    assert(subst(ids, groups, g, Set::empty(), PropV::Var(SymbolV::Name(n)), false)
        == subst_name(ids, groups, g, Set::empty(), n, false));
    if g.is_true_v(n) {
        assert(v.names.contains(n));
    } else if g.is_false_v(n) {
        assert(!v.names.contains(n));
    } else {
        let s1 = Set::<Seq<char>>::empty().insert(n);
        if info_of(ids, n).unwrap().guard != PropV::And(et) {
            let x = et[0];
            assert(is_singleton_v(et[0]) && name_of(et[0]) is None);
            assert(subst(ids, groups, g, s1, x, false) == (simplify_v(x, g), s1));
            lemma_simplify_literal(x, g, v);
            let r = simplify_v(x, g);
            assert(vg == r);
            if r == x {
                lemma_simplify_literal(r, g, v);
            }
        } else {
            lemma_subst_seq_nameless(ids, groups, g, s1, et);
            let rs = simplified_all(et, g);
            let r = simplify_and_v(rs, Some(g));
            assert(subst(ids, groups, g, s1, PropV::And(et), false) == (r, s1));
            crate::valuation::lemma_all_hold(v, et);
            assert forall|i: int| 0 <= i < et.len() implies
                is_singleton_v(#[trigger] rs[i]) && v.holds(rs[i]) == v.holds(et[i])
                    && (rs[i] is True || rs[i] is False || rs[i] == et[i]) by {
                lemma_simplify_literal(et[i], g, v);
            }
            assert(one_chance_per_arm(rs)) by {
                assert forall|i: int, j: int|
                    0 <= i < rs.len() && 0 <= j < rs.len() && (#[trigger] rand_of(rs[i])) is Some && (#[trigger] rand_of(rs[j])) is Some
                        && rand_of(rs[i]).unwrap().0 == rand_of(rs[j]).unwrap().0 && rand_of(rs[i]).unwrap().1 == rand_of(rs[j]).unwrap().1
                    implies rand_of(rs[i]).unwrap().2 == rand_of(rs[j]).unwrap().2 by {
                    assert(rs[i] == et[i] && rs[j] == et[j]);
                }
            }
            law_simplify_and_sound(rs, Some(g), v);
            assert(v.holds_all(rs) == v.holds_all(et)) by {
                if v.holds_all(et) {
                    assert forall|i: int| 0 <= i < rs.len() implies v.holds(#[trigger] rs[i]) by {
                        assert(v.holds(et[i]));
                    }
                }
                if v.holds_all(rs) {
                    assert forall|i: int| 0 <= i < et.len() implies v.holds(#[trigger] et[i]) by {
                        assert(v.holds(rs[i]));
                    }
                }
            }
            assert(v.holds(r) == v.names.contains(n));
            if is_singleton_v(r) {
                assert(vg == r);
                lemma_and_result(rs, Some(g));
                if !(r is True) && !(r is False) {
                    let k = choose|k: int| 0 <= k < rs.len() && rs[k] == r;
                    assert(r == et[k]);
                    lemma_simplify_literal(r, g, v);
                }
            } else {
                assert(vg == PropV::Var(SymbolV::Name(n)));
                assert(info_names(lookup_list(ids, groups, false)).contains(n));
        }
        }
    }
}


/// The names of `s` that are defined have rank at least `bound`.
spec fn seen_ranked(
    ids: Seq<(Seq<char>, IdInfoV)>,
    rank: spec_fn(Seq<char>) -> nat,
    s: Set<Seq<char>>,
    bound: nat,
) -> bool {
    forall|m: Seq<char>| #[trigger] s.contains(m) && info_names(ids).contains(m) ==> rank(m) >= bound
}

/// The names that `r` holds beyond `s` are not defined.
spec fn met_undefined(ids: Seq<(Seq<char>, IdInfoV)>, s: Set<Seq<char>>, r: Set<Seq<char>>) -> bool {
    &&& s.subset_of(r)
    &&& forall|m: Seq<char>| #[trigger] r.contains(m) && !s.contains(m) ==> !info_names(ids).contains(m)
}

/// The literal `t` fits: a defined name in it ranks below `bound`, its
/// random arm occurs in `ids`, and the valuation fits its chance.
spec fn lit_fit(
    ids: Seq<(Seq<char>, IdInfoV)>,
    rank: spec_fn(Seq<char>) -> nat,
    g: GuardV,
    v: Valuation,
    t: PropV,
    bound: nat,
) -> bool {
    &&& is_singleton_v(t)
    &&& (name_of(t) is Some && info_names(ids).contains(name_of(t).unwrap()) ==> rank(name_of(t).unwrap()) < bound)
    &&& (rand_of(t) is Some ==> arm_in(ids, rand_of(t).unwrap()))
    &&& v.fits_lit(t, g)
}

/// Every literal of `ts` fits.
spec fn lits_fit(
    ids: Seq<(Seq<char>, IdInfoV)>,
    rank: spec_fn(Seq<char>) -> nat,
    g: GuardV,
    v: Valuation,
    ts: Seq<PropV>,
    bound: nat,
) -> bool {
    forall|t: PropV| #[trigger] ts.contains(t) ==> lit_fit(ids, rank, g, v, t, bound)
}

/// `r` is conjunctive, and each random arm among its literals occurs in
/// `ids` and belongs to one of the blocks `bs`.
spec fn known_in(ids: Seq<(Seq<char>, IdInfoV)>, r: PropV, bs: Set<u32>) -> bool {
    &&& is_conjunctive(r)
    &&& forall|t: PropV| #[trigger] conj_terms(r).contains(t) && rand_of(t) is Some
        ==> arm_in(ids, rand_of(t).unwrap()) && bs.contains(rand_of(t).unwrap().0)
}

/// The blocks that the proposition of `n` reaches (none when `n` is not
/// defined).
spec fn name_blocks(ids: Seq<(Seq<char>, IdInfoV)>, rank: spec_fn(Seq<char>) -> nat, n: Seq<char>) -> Set<u32> {
    if info_names(ids).contains(n) {
        prop_blocks(ids, rank, info_of(ids, n).unwrap().guard, rank(n))
    } else {
        Set::empty()
    }
}

/// All that the liveness law assumes of the names and of the valuation.
spec fn sound_setting(
    ids: Seq<(Seq<char>, IdInfoV)>,
    g: GuardV,
    v: Valuation,
    rank: spec_fn(Seq<char>) -> nat,
) -> bool {
    &&& ranked(ids, rank)
    &&& one_chance_in(ids)
    &&& disjuncts_apart(ids, rank)
    &&& v.models(ids)
    &&& v.satisfies(g)
    &&& v.arms_fit(ids, g)
    &&& v.covers_arms(ids, g)
}

proof fn lemma_lits_blocks_single(ids: Seq<(Seq<char>, IdInfoV)>, rank: spec_fn(Seq<char>) -> nat, t: PropV, bound: nat)
    ensures
        lits_blocks(ids, rank, seq![t], bound) == lit_blocks(ids, rank, t, bound),
{
    assert(seq![t].drop_last() =~= Seq::<PropV>::empty());
    assert(seq![t].last() == t);
    assert(lits_blocks(ids, rank, Seq::<PropV>::empty(), bound) == Set::<u32>::empty());
    assert(lits_blocks(ids, rank, seq![t], bound) =~= lit_blocks(ids, rank, t, bound));
}

/// The blocks of a member of `ts` are among those of `ts`.
proof fn lemma_lits_blocks_mem(ids: Seq<(Seq<char>, IdInfoV)>, rank: spec_fn(Seq<char>) -> nat, ts: Seq<PropV>, t: PropV, bound: nat)
    requires
        ts.contains(t),
    ensures
        lit_blocks(ids, rank, t, bound).subset_of(lits_blocks(ids, rank, ts, bound)),
    decreases ts.len(),
{
    if ts.last() != t {
        let k = choose|k: int| 0 <= k < ts.len() && ts[k] == t;
        assert(ts.drop_last()[k] == t);
        lemma_lits_blocks_mem(ids, rank, ts.drop_last(), t, bound);
    }
}

/// The blocks of a concatenation are those of its parts.
proof fn lemma_lits_blocks_add(ids: Seq<(Seq<char>, IdInfoV)>, rank: spec_fn(Seq<char>) -> nat, a: Seq<PropV>, c: Seq<PropV>, bound: nat)
    ensures
        lits_blocks(ids, rank, a + c, bound) == lits_blocks(ids, rank, a, bound) + lits_blocks(ids, rank, c, bound),
    decreases c.len(),
{
    if c.len() == 0 {
        assert(a + c =~= a);
        assert(lits_blocks(ids, rank, a, bound) + Set::empty() =~= lits_blocks(ids, rank, a, bound));
    } else {
        assert((a + c).drop_last() =~= a + c.drop_last());
        assert((a + c).last() == c.last());
        lemma_lits_blocks_add(ids, rank, a, c.drop_last(), bound);
        assert(lits_blocks(ids, rank, a + c, bound) =~= lits_blocks(ids, rank, a, bound) + lits_blocks(ids, rank, c, bound));
    }
}

/// The literals of a disjunct are literals of the disjunction, and its
/// blocks are among those of the disjunction.
proof fn lemma_or_lits_mem(ids: Seq<(Seq<char>, IdInfoV)>, rank: spec_fn(Seq<char>) -> nat, vel: Seq<PropV>, k: int, bound: nat)
    requires
        0 <= k < vel.len(),
    ensures
        forall|t: PropV| #[trigger] conj_terms(vel[k]).contains(t) ==> or_lits(vel).contains(t),
        lits_blocks(ids, rank, conj_terms(vel[k]), bound).subset_of(lits_blocks(ids, rank, or_lits(vel), bound)),
    decreases vel.len(),
{
    let front = or_lits(vel.drop_last());
    let back = conj_terms(vel.last());
    assert(or_lits(vel) == front + back);
    lemma_lits_blocks_add(ids, rank, front, back, bound);
    if k < vel.len() - 1 {
        assert(vel.drop_last()[k] == vel[k]);
        lemma_or_lits_mem(ids, rank, vel.drop_last(), k, bound);
        assert forall|t: PropV| #[trigger] conj_terms(vel[k]).contains(t) implies or_lits(vel).contains(t) by {
            assert(front.contains(t));
            let i = choose|i: int| 0 <= i < front.len() && front[i] == t;
            assert((front + back)[i] == t);
        }
    } else {
        assert forall|t: PropV| #[trigger] conj_terms(vel[k]).contains(t) implies or_lits(vel).contains(t) by {
            let i = choose|i: int| 0 <= i < back.len() && back[i] == t;
            assert((front + back)[front.len() + i] == t);
        }
    }
}

/// What a name is replaced by is true exactly when the name is defined.
proof fn lemma_subst_name_sound(
    ids: Seq<(Seq<char>, IdInfoV)>,
    groups: Seq<(Seq<char>, IdInfoV)>,
    g: GuardV,
    v: Valuation,
    rank: spec_fn(Seq<char>) -> nat,
    seen: Set<Seq<char>>,
    n: Seq<char>,
    bound: nat,
)
    requires
        sound_setting(ids, g, v, rank),
        seen_ranked(ids, rank, seen, bound),
        info_names(ids).contains(n) ==> rank(n) < bound,
    ensures
        is_singleton_v(subst_name(ids, groups, g, seen, n, false).0),
        known_in(ids, subst_name(ids, groups, g, seen, n, false).0, name_blocks(ids, rank, n)),
        v.holds(subst_name(ids, groups, g, seen, n, false).0) == v.names.contains(n),
        met_undefined(ids, seen, subst_name(ids, groups, g, seen, n, false).1),
    decreases 0nat, unseen(info_names(ids), seen), 0nat, 0nat,
{
    if seen.contains(n) {
        assert(!info_names(ids).contains(n));
        assert(!v.names.contains(n));
    } else if g.is_true_v(n) {
    } else if g.is_false_v(n) {
    } else {
        let s1 = seen.insert(n);
        match info_of(ids, n) {
            None => {
                assert(!info_names(ids).contains(n));
                assert(met_undefined(ids, seen, s1));
            },
            Some(info) => {
                assert(info_names(ids).contains(n));
                lemma_unseen_insert(info_names(ids), seen, n);
                let p = info.guard;
                assert(seen_ranked(ids, rank, s1, rank(n)));
                assert(lits_fit(ids, rank, g, v, dnf_lits(p), rank(n))) by {
                    assert forall|t: PropV| #[trigger] dnf_lits(p).contains(t) implies lit_fit(ids, rank, g, v, t, rank(n)) by {
                        assert(lits_of(ids, n).contains(t));
                        if rand_of(t) is Some {
                            assert(arm_in(ids, rand_of(t).unwrap()));
                        }
                        if !is_singleton_v(t) {
                            if p is Or {
                                let vel = p->Or_0;
                                lemma_dnf_lits_singletons(vel);
                            } else if p is And {
                                let k = choose|k: int| 0 <= k < p->And_0.len() && p->And_0[k] == t;
                            }
                        }
                    }
                }
                lemma_subst_sound(ids, groups, g, v, rank, s1, p, rank(n));
                let (r, s2) = subst(ids, groups, g, s1, p, false);
                assert(v.names.contains(n) == v.holds(p));
                assert(met_undefined(ids, seen, s2.remove(n)));
            },
        }
    }
}

/// The literals of a disjunction of conjunctive propositions are constants
/// or literals.
proof fn lemma_dnf_lits_singletons(vel: Seq<PropV>)
    requires
        forall|i: int| 0 <= i < vel.len() ==> is_conjunctive(#[trigger] vel[i]),
    ensures
        forall|t: PropV| #[trigger] or_lits(vel).contains(t) ==> is_singleton_v(t),
    decreases vel.len(),
{
    if vel.len() > 0 {
        let front = or_lits(vel.drop_last());
        let back = conj_terms(vel.last());
        assert forall|i: int| 0 <= i < vel.drop_last().len() implies is_conjunctive(#[trigger] vel.drop_last()[i]) by {
            assert(vel.drop_last()[i] == vel[i]);
        }
        lemma_dnf_lits_singletons(vel.drop_last());
        assert(is_conjunctive(vel[vel.len() - 1]));
        assert(or_lits(vel) == front + back);
        assert forall|t: PropV| #[trigger] or_lits(vel).contains(t) implies is_singleton_v(t) by {
            let i = choose|i: int| 0 <= i < (front + back).len() && (front + back)[i] == t;
            if i < front.len() {
                assert(front[i] == t);
                assert(front.contains(t));
            } else {
                assert(back[i - front.len()] == t);
                if vel.last() is And {
                    assert(is_singleton_v(vel.last()->And_0[i - front.len()]));
                }
            }
        }
    }
}

/// Replacing names in a proposition in disjunctive normal form keeps its
/// truth.
proof fn lemma_subst_sound(
    ids: Seq<(Seq<char>, IdInfoV)>,
    groups: Seq<(Seq<char>, IdInfoV)>,
    g: GuardV,
    v: Valuation,
    rank: spec_fn(Seq<char>) -> nat,
    seen: Set<Seq<char>>,
    p: PropV,
    bound: nat,
)
    requires
        sound_setting(ids, g, v, rank),
        seen_ranked(ids, rank, seen, bound),
        is_dnf(p),
        lits_fit(ids, rank, g, v, dnf_lits(p), bound),
        or_apart(ids, rank, p, bound),
    ensures
        v.holds(subst(ids, groups, g, seen, p, false).0) == v.holds(p),
        is_singleton_v(p) ==> is_singleton_v(subst(ids, groups, g, seen, p, false).0),
        (is_conjunctive(p) || is_singleton_v(subst(ids, groups, g, seen, p, false).0))
            ==> known_in(ids, subst(ids, groups, g, seen, p, false).0, prop_blocks(ids, rank, p, bound)),
        met_undefined(ids, seen, subst(ids, groups, g, seen, p, false).1),
    decreases 0nat, unseen(info_names(ids), seen), height(p) + 1, 0nat,
{
    let r = subst(ids, groups, g, seen, p, false).0;
    match p {
        PropV::Var(SymbolV::Name(m)) => {
            assert(dnf_lits(p).contains(p)) by { assert(dnf_lits(p)[0] == p); }
            lemma_subst_name_sound(ids, groups, g, v, rank, seen, m, bound);
            lemma_lits_blocks_single(ids, rank, p, bound);
        },
        PropV::Not(SymbolV::Name(m)) => {
            assert(dnf_lits(p).contains(p)) by { assert(dnf_lits(p)[0] == p); }
            lemma_subst_name_sound(ids, groups, g, v, rank, seen, m, bound);
            lemma_lits_blocks_single(ids, rank, p, bound);
            let r0 = subst_name(ids, groups, g, seen, m, false).0;
            assert forall|t: PropV| #[trigger] conj_terms(r).contains(t) && rand_of(t) is Some
                implies arm_in(ids, rand_of(t).unwrap()) && name_blocks(ids, rank, m).contains(rand_of(t).unwrap().0) by {
                assert(conj_terms(r)[0] == r);
                assert(conj_terms(r0).contains(r0)) by { assert(conj_terms(r0)[0] == r0); }
                assert(rand_of(r) == rand_of(r0));
            }
        },
        PropV::Var(s) => {
            assert(dnf_lits(p).contains(p)) by { assert(dnf_lits(p)[0] == p); }
            law_lookup_sound(g, v, s);
            lemma_lits_blocks_single(ids, rank, p, bound);
            assert forall|t: PropV| #[trigger] conj_terms(r).contains(t) && rand_of(t) is Some
                implies arm_in(ids, rand_of(t).unwrap()) && prop_blocks(ids, rank, p, bound).contains(rand_of(t).unwrap().0) by {
                assert(t == r);
            }
        },
        PropV::Not(s) => {
            assert(dnf_lits(p).contains(p)) by { assert(dnf_lits(p)[0] == p); }
            law_lookup_sound(g, v, s);
            lemma_lits_blocks_single(ids, rank, p, bound);
            assert forall|t: PropV| #[trigger] conj_terms(r).contains(t) && rand_of(t) is Some
                implies arm_in(ids, rand_of(t).unwrap()) && prop_blocks(ids, rank, p, bound).contains(rand_of(t).unwrap().0) by {
                assert(t == r);
            }
        },
        PropV::And(et) => {
            assert forall|i: int| 0 <= i < et.len() implies is_conjunctive(#[trigger] et[i])
                && lits_fit(ids, rank, g, v, conj_terms(et[i]), bound) by {
                assert(dnf_lits(p).contains(et[i]));
                assert forall|t: PropV| #[trigger] conj_terms(et[i]).contains(t) implies lit_fit(ids, rank, g, v, t, bound) by {
                    assert(conj_terms(et[i])[0] == et[i]);
                }
            }
            lemma_subst_seq_sound(ids, groups, g, v, rank, seen, et, bound);
            let (rs, s) = subst_seq(ids, groups, g, seen, et);
            assert forall|i: int| 0 <= i < rs.len() implies is_singleton_v(#[trigger] rs[i]) && v.holds(rs[i]) == v.holds(et[i])
                && known_in(ids, rs[i], prop_blocks(ids, rank, et[i], bound)) by {
                assert(is_singleton_v(et[i]));
                assert(known_in(ids, subst_seq(ids, groups, g, seen, et).0[i], prop_blocks(ids, rank, et[i], bound)));
            }
            assert(one_chance_per_arm(rs)) by {
                assert forall|i: int, j: int|
                    0 <= i < rs.len() && 0 <= j < rs.len() && (#[trigger] rand_of(rs[i])) is Some && (#[trigger] rand_of(rs[j])) is Some
                        && rand_of(rs[i]).unwrap().0 == rand_of(rs[j]).unwrap().0 && rand_of(rs[i]).unwrap().1 == rand_of(rs[j]).unwrap().1
                    implies rand_of(rs[i]).unwrap().2 == rand_of(rs[j]).unwrap().2 by {
                    assert(known_in(ids, rs[i], prop_blocks(ids, rank, et[i], bound)));
                    assert(known_in(ids, rs[j], prop_blocks(ids, rank, et[j], bound)));
                    assert(conj_terms(rs[i]).contains(rs[i])) by { assert(conj_terms(rs[i])[0] == rs[i]); }
                    assert(conj_terms(rs[j]).contains(rs[j])) by { assert(conj_terms(rs[j])[0] == rs[j]); }
                    assert(arm_in(ids, rand_of(rs[i]).unwrap()) && arm_in(ids, rand_of(rs[j]).unwrap()));
                }
            }
            law_simplify_and_sound(rs, Some(g), v);
            crate::valuation::lemma_all_hold(v, et);
            assert(v.holds_all(rs) == v.holds_all(et)) by {
                if v.holds_all(et) {
                    assert forall|i: int| 0 <= i < rs.len() implies v.holds(#[trigger] rs[i]) by {
                        assert(v.holds(et[i]));
                    }
                }
                if v.holds_all(rs) {
                    assert forall|i: int| 0 <= i < et.len() implies v.holds(#[trigger] et[i]) by {
                        assert(v.holds(rs[i]));
                    }
                }
            }
            lemma_and_result_terms(rs, Some(g));
            assert(prop_blocks(ids, rank, p, bound) == lits_blocks(ids, rank, et, bound));
            assert forall|t: PropV| #[trigger] conj_terms(r).contains(t) && rand_of(t) is Some
                implies arm_in(ids, rand_of(t).unwrap()) && prop_blocks(ids, rank, p, bound).contains(rand_of(t).unwrap().0) by {
                let k = choose|k: int| 0 <= k < rs.len() && rs[k] == t;
                assert(known_in(ids, rs[k], prop_blocks(ids, rank, et[k], bound)));
                assert(conj_terms(rs[k]).contains(rs[k])) by { assert(conj_terms(rs[k])[0] == rs[k]); }
                lemma_lits_blocks_single(ids, rank, et[k], bound);
                assert(et.contains(et[k]));
                lemma_lits_blocks_mem(ids, rank, et, et[k], bound);
            }
        },
        PropV::Or(vel) => {
            assert forall|i: int| 0 <= i < vel.len() implies is_conjunctive(#[trigger] vel[i])
                && lits_fit(ids, rank, g, v, conj_terms(vel[i]), bound) by {
                lemma_or_lits_mem(ids, rank, vel, i, bound);
            }
            lemma_subst_seq_sound(ids, groups, g, v, rank, seen, vel, bound);
            let (rs, s) = subst_seq(ids, groups, g, seen, vel);
            assert forall|i: int| 0 <= i < vel.len() implies #[trigger] known_in(ids, rs[i], prop_blocks(ids, rank, vel[i], bound)) by {
                assert(known_in(ids, subst_seq(ids, groups, g, seen, vel).0[i], prop_blocks(ids, rank, vel[i], bound)));
            }
            assert forall|i: int| 0 <= i < vel.len() implies v.holds(#[trigger] rs[i]) == v.holds(vel[i]) by {
                assert(known_in(ids, subst_seq(ids, groups, g, seen, vel).0[i], prop_blocks(ids, rank, vel[i], bound)));
            }
            assert(apart(ids, rank, vel, bound));
            lemma_or_terms_sound(ids, g, v, rank, vel, rs, bound);
            crate::valuation::lemma_some_holds(v, vel);
            if is_singleton_v(r) && !(r is True) && !(r is False) {
                lemma_or_result_terms(rs, Some(g));
                assert forall|t: PropV| #[trigger] conj_terms(r).contains(t) && rand_of(t) is Some
                    implies arm_in(ids, rand_of(t).unwrap()) && prop_blocks(ids, rank, p, bound).contains(rand_of(t).unwrap().0) by {
                    assert(conj_terms(r)[0] == r);
                    assert(t == r);
                    let k = choose|k: int| 0 <= k < rs.len() && rs[k] == r;
                    assert(known_in(ids, rs[k], prop_blocks(ids, rank, vel[k], bound)));
                    assert(conj_terms(rs[k]).contains(rs[k])) by { assert(conj_terms(rs[k])[0] == rs[k]); }
                    lemma_or_lits_mem(ids, rank, vel, k, bound);
                }
            }
        },
        _ => {},
    }
}

/// The disjunction of the replaced disjuncts holds when the disjunction
/// does.
proof fn lemma_or_terms_sound(
    ids: Seq<(Seq<char>, IdInfoV)>,
    g: GuardV,
    v: Valuation,
    rank: spec_fn(Seq<char>) -> nat,
    vel: Seq<PropV>,
    rs: Seq<PropV>,
    bound: nat,
)
    requires
        sound_setting(ids, g, v, rank),
        apart(ids, rank, vel, bound),
        rs.len() == vel.len(),
        forall|i: int| 0 <= i < vel.len() ==> #[trigger] known_in(ids, rs[i], prop_blocks(ids, rank, vel[i], bound)),
        forall|i: int| 0 <= i < vel.len() ==> v.holds(#[trigger] rs[i]) == v.holds(vel[i]),
    ensures
        v.holds(simplify_or_v(rs, Some(g))) == v.holds_some(vel),
        forall|i: int| 0 <= i < rs.len() ==> is_conjunctive(#[trigger] rs[i]),
        forall|i: int, j: int| !#[trigger] factor_pair(rs, Some(g), i, j),
        asserted_arm_alone(rs),
{
    assert forall|i: int| 0 <= i < rs.len() implies is_conjunctive(#[trigger] rs[i]) by {
        assert(known_in(ids, rs[i], prop_blocks(ids, rank, vel[i], bound)));
    }
    assert forall|i: int, j: int| !#[trigger] factor_pair(rs, Some(g), i, j) by {
        if factor_pair(rs, Some(g), i, j) {
            assert(rs[i] is And && rs[j] is And);
            let ai = rs[i]->And_0;
            let aj = rs[j]->And_0;
            assert(exists|k: int| first_arm_at(ai, k));
            assert(exists|k: int| first_arm_at(aj, k));
            let ki = choose|k: int| first_arm_at(ai, k);
            let kj = choose|k: int| first_arm_at(aj, k);
            assert(first_arm_at(ai, ki) && first_arm_at(aj, kj));
            assert(arm_split(rs[i]).unwrap().0 == rand_of(ai[ki]).unwrap().0);
            assert(arm_split(rs[j]).unwrap().0 == rand_of(aj[kj]).unwrap().0);
            assert(known_in(ids, rs[i], prop_blocks(ids, rank, vel[i], bound)));
            assert(known_in(ids, rs[j], prop_blocks(ids, rank, vel[j], bound)));
            assert(conj_terms(rs[i]) == ai);
            assert(conj_terms(rs[j]) == aj);
            assert(ai.contains(ai[ki]));
            assert(aj.contains(aj[kj]));
            let b = rand_of(ai[ki]).unwrap().0;
            assert(rand_of(aj[kj]).unwrap().0 == b);
            assert(prop_blocks(ids, rank, vel[i], bound).contains(b));
            assert(prop_blocks(ids, rank, vel[j], bound).contains(b));
            assert(i != j);
            assert(!prop_blocks(ids, rank, vel[j], bound).contains(b));
        }
    }
    assert forall|i: int| 0 <= i < rs.len() && (#[trigger] rand_of(rs[i])) is Some implies arm_in(ids, rand_of(rs[i]).unwrap())
        && prop_blocks(ids, rank, vel[i], bound).contains(rand_of(rs[i]).unwrap().0) by {
        assert(known_in(ids, rs[i], prop_blocks(ids, rank, vel[i], bound)));
        assert(conj_terms(rs[i]).contains(rs[i])) by { assert(conj_terms(rs[i])[0] == rs[i]); }
    }
    assert(one_chance_per_arm(rs)) by {
        assert forall|i: int, j: int|
            0 <= i < rs.len() && 0 <= j < rs.len() && (#[trigger] rand_of(rs[i])) is Some && (#[trigger] rand_of(rs[j])) is Some
                && rand_of(rs[i]).unwrap().0 == rand_of(rs[j]).unwrap().0 && rand_of(rs[i]).unwrap().1 == rand_of(rs[j]).unwrap().1
            implies rand_of(rs[i]).unwrap().2 == rand_of(rs[j]).unwrap().2 by {
            assert(arm_in(ids, rand_of(rs[i]).unwrap()) && arm_in(ids, rand_of(rs[j]).unwrap()));
        }
    }
    assert(asserted_arm_alone(rs)) by {
        assert forall|i: int, j: int|
            0 <= i < rs.len() && 0 <= j < rs.len() && rs[i] is Var && (#[trigger] rand_of(rs[i])) is Some
                && (#[trigger] rand_of(rs[j])) is Some && rand_of(rs[i]).unwrap().0 == rand_of(rs[j]).unwrap().0
            implies rs[i] == rs[j] by {
            let b = rand_of(rs[i]).unwrap().0;
            assert(prop_blocks(ids, rank, vel[i], bound).contains(b));
            assert(prop_blocks(ids, rank, vel[j], bound).contains(b));
            if i != j {
                assert(!prop_blocks(ids, rank, vel[j], bound).contains(b));
            }
        }
    }
    assert(v.covers(rs, Some(g))) by {
        assert forall|i: int|
            0 <= i < rs.len() && rs[i] is Var && (#[trigger] rand_of(rs[i])) is Some
                && rand_of(rs[i]).unwrap().2 + ginc(Some(g), rand_of(rs[i]).unwrap().0) >= 100
            implies v.takes(rand_of(rs[i]).unwrap().0, rand_of(rs[i]).unwrap().1) by {
            assert(arm_in(ids, rand_of(rs[i]).unwrap()));
        }
    }
    law_simplify_or_sound(rs, Some(g), v);
    if v.holds_some(rs) {
        let k = choose|k: int| 0 <= k < rs.len() && v.holds(#[trigger] rs[k]);
        assert(v.holds(rs[k]) == v.holds(vel[k]));
        assert(v.holds(vel[k]));
    }
    if v.holds_some(vel) {
        let k = choose|k: int| 0 <= k < vel.len() && v.holds(#[trigger] vel[k]);
        assert(v.holds(rs[k]) == v.holds(vel[k]));
        assert(v.holds(rs[k]));
    }
}

/// Replacing names in a sequence of conjunctive propositions keeps the
/// truth of each.
proof fn lemma_subst_seq_sound(
    ids: Seq<(Seq<char>, IdInfoV)>,
    groups: Seq<(Seq<char>, IdInfoV)>,
    g: GuardV,
    v: Valuation,
    rank: spec_fn(Seq<char>) -> nat,
    seen: Set<Seq<char>>,
    xs: Seq<PropV>,
    bound: nat,
)
    requires
        sound_setting(ids, g, v, rank),
        seen_ranked(ids, rank, seen, bound),
        forall|i: int| 0 <= i < xs.len() ==> is_conjunctive(#[trigger] xs[i]) && lits_fit(ids, rank, g, v, conj_terms(xs[i]), bound),
    ensures
        subst_seq(ids, groups, g, seen, xs).0.len() == xs.len(),
        forall|i: int| 0 <= i < xs.len() ==> #[trigger] known_in(ids, subst_seq(ids, groups, g, seen, xs).0[i], prop_blocks(ids, rank, xs[i], bound))
            && v.holds(subst_seq(ids, groups, g, seen, xs).0[i]) == v.holds(xs[i])
            && (is_singleton_v(xs[i]) ==> is_singleton_v(subst_seq(ids, groups, g, seen, xs).0[i])),
        met_undefined(ids, seen, subst_seq(ids, groups, g, seen, xs).1),
    decreases 0nat, unseen(info_names(ids), seen), max_height(xs) + 1, xs.len(),
{
    if xs.len() > 0 {
        let t = xs.drop_last();
        assert forall|i: int| 0 <= i < t.len() implies is_conjunctive(#[trigger] t[i]) && lits_fit(ids, rank, g, v, conj_terms(t[i]), bound) by {
            assert(t[i] == xs[i]);
        }
        crate::simplify::lemma_max_height_take(xs, xs.len() - 1);
        assert(t == xs.take(xs.len() - 1));
        lemma_subst_seq_sound(ids, groups, g, v, rank, seen, t, bound);
        let (rs, s1) = subst_seq(ids, groups, g, seen, t);
        lemma_unseen_mono(info_names(ids), seen, s1);
        let x = xs.last();
        crate::simplify::lemma_max_height(xs, xs.len() - 1);
        assert(seen_ranked(ids, rank, s1, bound));
        let k = xs.len() - 1;
        assert(is_conjunctive(xs[k]) && lits_fit(ids, rank, g, v, conj_terms(xs[k]), bound));
        assert(is_dnf(x) && dnf_lits(x) == conj_terms(x));
        lemma_subst_sound(ids, groups, g, v, rank, s1, x, bound);
        let (r, s2) = subst(ids, groups, g, s1, x, false);
        assert(subst_seq(ids, groups, g, seen, xs) == (rs.push(r), s2));
        assert forall|i: int| 0 <= i < xs.len() implies #[trigger] known_in(ids, rs.push(r)[i], prop_blocks(ids, rank, xs[i], bound))
            && v.holds(rs.push(r)[i]) == v.holds(xs[i])
            && (is_singleton_v(xs[i]) ==> is_singleton_v(rs.push(r)[i])) by {
            if i < k {
                assert(rs.push(r)[i] == rs[i]);
                assert(xs[i] == t[i]);
            }
        }
    }
}

/// The literals of a simplified conjunction are terms of the conjunction.
proof fn lemma_and_result_terms(xs: Seq<PropV>, g: Option<GuardV>)
    requires
        forall|i: int| 0 <= i < xs.len() ==> is_singleton_v(#[trigger] xs[i]),
    ensures
        is_conjunctive(simplify_and_v(xs, g)),
        forall|t: PropV| #[trigger] conj_terms(simplify_and_v(xs, g)).contains(t) && !(t is True) && !(t is False) ==> xs.contains(t),
{
    let ys = canonical(xs);
    lemma_canonical(xs);
    let r = simplify_and_v(xs, g);
    if ys.len() == 1 {
        assert(ys.contains(ys[0]));
        assert forall|t: PropV| #[trigger] conj_terms(r).contains(t) && !(t is True) && !(t is False) implies xs.contains(t) by {
            assert(conj_terms(r)[0] == r);
        }
    } else if ys.len() > 1 && !and_conflict(ys, g) {
        let kept = and_kept(ys, ys, g);
        lemma_and_kept(ys, ys, g);
        assert forall|i: int| 0 <= i < kept.len() implies is_singleton_v(#[trigger] kept[i]) by {
            assert(kept.contains(kept[i]));
            assert(ys.contains(kept[i]));
            let k = choose|k: int| 0 <= k < xs.len() && xs[k] == kept[i];
        }
        if kept.len() == 1 {
            assert(kept.contains(kept[0]));
            assert forall|t: PropV| #[trigger] conj_terms(r).contains(t) && !(t is True) && !(t is False) implies xs.contains(t) by {
                assert(conj_terms(r)[0] == r);
            }
        } else if kept.len() > 1 {
            assert forall|t: PropV| #[trigger] conj_terms(r).contains(t) && !(t is True) && !(t is False) implies xs.contains(t) by {
                assert(kept.contains(t));
            }
        }
    }
}

/// A simplified disjunction of terms without pairs to factor and with each
/// asserted arm alone, when it is a constant or a literal, is one of the
/// terms or a constant.
proof fn lemma_or_result_terms(xs: Seq<PropV>, g: Option<GuardV>)
    requires
        forall|i: int| 0 <= i < xs.len() ==> is_conjunctive(#[trigger] xs[i]),
        forall|i: int, j: int| !#[trigger] factor_pair(xs, g, i, j),
        asserted_arm_alone(xs),
        is_singleton_v(simplify_or_v(xs, g)),
        !(simplify_or_v(xs, g) is True),
        !(simplify_or_v(xs, g) is False),
    ensures
        xs.contains(simplify_or_v(xs, g)),
{
    assert(factor_v(xs, g) == xs) by {
        if exists|i: int, j: int| first_factor_pair(xs, g, i, j) {
            let (i, j) = choose|i: int, j: int| first_factor_pair(xs, g, i, j);
            assert(factor_pair(xs, g, i, j));
        }
    }
    let ys = canonical(xs);
    lemma_canonical(xs);
    assert forall|i: int| 0 <= i < ys.len() implies is_conjunctive(#[trigger] ys[i]) by {
        assert(ys.contains(ys[i]));
        let k = choose|k: int| 0 <= k < xs.len() && xs[k] == ys[i];
    }
    if ys.len() == 1 {
        assert(ys.contains(ys[0]));
    } else if ys.len() > 1 {
        assert(asserted_arm_alone(ys)) by {
            assert forall|i: int, j: int|
                0 <= i < ys.len() && 0 <= j < ys.len() && ys[i] is Var && (#[trigger] rand_of(ys[i])) is Some
                    && (#[trigger] rand_of(ys[j])) is Some && rand_of(ys[i]).unwrap().0 == rand_of(ys[j]).unwrap().0
                implies ys[i] == ys[j] by {
                assert(ys.contains(ys[i]));
                assert(ys.contains(ys[j]));
                let ki = choose|k: int| 0 <= k < xs.len() && xs[k] == ys[i];
                let kj = choose|k: int| 0 <= k < xs.len() && xs[k] == ys[j];
                assert(rand_of(xs[ki]) is Some && rand_of(xs[kj]) is Some);
            }
        }
        lemma_or_kept_terms(ys, g);
        let zs = or_kept(ys, g, ys.len() as int);
        assert(zs.len() == 1);
        assert(zs.contains(zs[0]));
    }
}

/// Liveness is sound: when no definition depends on itself, each defined
/// name has a proposition in disjunctive normal form, no two disjuncts of
/// one proposition reach one random block, and each random arm carries one
/// chance, then in every valuation that defines exactly the names whose
/// propositions hold and agrees with the guard and with the chances of the
/// arms, a name found live is defined and a name found dead is not.
pub proof fn law_liveness_sound(
    ids: Seq<(Seq<char>, IdInfoV)>,
    groups: Seq<(Seq<char>, IdInfoV)>,
    g: GuardV,
    n: Seq<char>,
    v: Valuation,
    rank: spec_fn(Seq<char>) -> nat,
)
    requires
        ranked(ids, rank),
        one_chance_in(ids),
        disjuncts_apart(ids, rank),
        v.models(ids),
        v.satisfies(g),
        v.arms_fit(ids, g),
        v.covers_arms(ids, g),
    ensures
        liveness_v(ids, groups, g, n, false) == Liveness::Live ==> v.names.contains(n),
        liveness_v(ids, groups, g, n, false) == Liveness::Dead ==> !v.names.contains(n),
{
    let bound = rank(n) + 1;
    let empty = Set::<Seq<char>>::empty();
    assert(seen_ranked(ids, rank, empty, bound));
    lemma_subst_name_sound(ids, groups, g, v, rank, empty, n, bound);
    assert(subst(ids, groups, g, empty, PropV::Var(SymbolV::Name(n)), false)
        == subst_name(ids, groups, g, empty, n, false));
    let vg = subst_name(ids, groups, g, empty, n, false).0;
    assert(conj_terms(vg).contains(vg)) by { assert(conj_terms(vg)[0] == vg); }
    match vg {
        PropV::Var(s) => {
            if rand_of(vg) is Some {
                let arm = rand_of(vg).unwrap();
                assert(arm_in(ids, arm));
                let (m, t) = choose|m: Seq<char>, t: PropV| info_names(ids).contains(m) && lits_of(ids, m).contains(t) && rand_of(t) == Some(arm);
                assert(v.fits_lit(t, g));
            }
            law_lookup_sound(g, v, s);
        },
        PropV::Not(s) => {
            if rand_of(vg) is Some {
                let arm = rand_of(vg).unwrap();
                assert(arm_in(ids, arm));
                let (m, t) = choose|m: Seq<char>, t: PropV| info_names(ids).contains(m) && lits_of(ids, m).contains(t) && rand_of(t) == Some(arm);
                assert(v.fits_lit(t, g));
            }
            law_lookup_sound(g, v, s);
        },
        _ => {},
    }
}

/// The terms kept of a disjunction in which each asserted arm is alone are
/// terms of the disjunction.
proof fn lemma_or_kept_terms(ys: Seq<PropV>, g: Option<GuardV>)
    requires
        forall|i: int| 0 <= i < ys.len() ==> is_conjunctive(#[trigger] ys[i]),
        asserted_arm_alone(ys),
        ys.no_duplicates(),
    ensures
        forall|x: PropV| #[trigger] or_kept(ys, g, ys.len() as int).contains(x) ==> ys.contains(x),
{
    lemma_or_kept(ys, g, ys.len() as int);
    assert forall|x: PropV| #[trigger] or_kept(ys, g, ys.len() as int).contains(x) implies ys.contains(x) by {
        let k = choose|k: int| 0 <= k < ys.len() && or_keeps(ys, g, k) && x == #[trigger] or_adjust(ys, ys[k]);
        if is_rand_lit(ys[k]) && ys[k] is Var {
            let b = rand_of(ys[k]).unwrap().0;
            assert forall|j: int| 0 <= j < ys.len() && ys[j] is Var && (#[trigger] rand_of(ys[j])) is Some && rand_of(ys[j]).unwrap().0 == b
                implies ys[j] == ys[k] by {
                assert(rand_of(ys[k]) is Some);
            }
            lemma_pos_sum_single(ys, b, k);
        }
        assert(x == ys[k]);
    }
}

/// Defining a name again joins its two propositions into one. When both are
/// literals, each random arm carries one chance and an asserted arm is the
/// only term of its block (so that no arms are merged), the joined
/// proposition holds exactly when one of the two holds, in every valuation
/// that fits the chances of their arms.
#[verifier::rlimit(100)]
#[verifier::spinoff_prover]
pub proof fn law_join_sound(p: PropV, q: PropV, v: Valuation)
    requires
        is_lit(p),
        is_lit(q),
        one_chance_per_arm(seq![p, q]),
        asserted_arm_alone(seq![p, q]),
        v.covers(seq![p, q], None),
        v.fits_chances(seq![p, q], GuardV::empty()),
    ensures
        v.holds(simplify_v(disj_v(p, q), GuardV::empty())) == (v.holds(p) || v.holds(q)),
{
    let xs = seq![p, q];
    let e = GuardV::empty();
    assert(disj_v(p, q) == simplify_or_v(xs, None));
    assert(is_singleton_v(xs[0]) && is_singleton_v(xs[1]));
    lemma_no_factor_pair(xs, None);
    law_simplify_or_sound(xs, None, v);
    assert(v.holds_some(xs) == (v.holds(p) || v.holds(q))) by {
        if v.holds(p) {
            assert(v.holds(xs[0]));
        }
        if v.holds(q) {
            assert(v.holds(xs[1]));
        }
    }
    assert forall|n: Seq<char>| #[trigger] e.is_true_v(n) implies false by {}
    assert forall|n: Seq<char>| #[trigger] e.is_false_v(n) implies false by {}
    assert(v.satisfies(e));
    let d = disj_v(p, q);
    let ys = canonical(factor_v(xs, None));
    assert(factor_v(xs, None) == xs) by {
        if exists|i: int, j: int| first_factor_pair(xs, None, i, j) {
            let (i, j) = choose|i: int, j: int| first_factor_pair(xs, None, i, j);
            assert(!(xs[i] is And));
        }
    }
    lemma_canonical(xs);
    assert forall|x: PropV| #[trigger] ys.contains(x) implies x == p || x == q by {
        let k = choose|k: int| 0 <= k < xs.len() && xs[k] == x;
    }
    assert forall|i: int| 0 <= i < ys.len() implies is_singleton_v(#[trigger] ys[i]) by {
        assert(ys.contains(ys[i]));
    }
    // every term left is `p` or `q`
    let zs = or_kept(ys, None, ys.len() as int);
    if ys.len() >= 2 && !or_true(ys, None) {
        assert(asserted_arm_alone(ys)) by {
            assert forall|i: int, j: int|
                0 <= i < ys.len() && 0 <= j < ys.len() && ys[i] is Var && (#[trigger] rand_of(ys[i])) is Some
                    && (#[trigger] rand_of(ys[j])) is Some && rand_of(ys[i]).unwrap().0 == rand_of(ys[j]).unwrap().0
                implies ys[i] == ys[j] by {
                assert(ys.contains(ys[i]) && ys.contains(ys[j]));
                if ys[i] == p && ys[j] == q {
                    assert(rand_of(xs[0]) is Some && rand_of(xs[1]) is Some);
                } else if ys[i] == q && ys[j] == p {
                    assert(rand_of(xs[1]) is Some && rand_of(xs[0]) is Some);
                }
            }
        }
        lemma_or_kept_terms(ys, None);
        assert forall|k: int| 0 <= k < zs.len() implies #[trigger] zs[k] == p || zs[k] == q by {
            assert(zs.contains(zs[k]));
        }
        if zs.len() >= 2 {
            assert(d == PropV::Or(zs));
            assert forall|i: int| 0 <= i < zs.len() implies is_singleton_v(#[trigger] zs[i]) by {
                assert(zs[i] == p || zs[i] == q);
            }
            assert(v.fits_chances(zs, e)) by {
                assert forall|i: int| 0 <= i < zs.len() implies match #[trigger] zs[i] {
                    PropV::Var(s) => v.fits_chance(s, e),
                    PropV::Not(s) => v.fits_chance(s, e),
                    _ => true,
                } by {
                    if zs[i] == p {
                        assert(xs[0] == zs[i]);
                    } else {
                        assert(xs[1] == zs[i]);
                    }
                }
            }
            assert(one_chance_per_arm(zs)) by {
                assert forall|i: int, j: int|
                    0 <= i < zs.len() && 0 <= j < zs.len() && (#[trigger] rand_of(zs[i])) is Some && (#[trigger] rand_of(zs[j])) is Some
                        && rand_of(zs[i]).unwrap().0 == rand_of(zs[j]).unwrap().0 && rand_of(zs[i]).unwrap().1 == rand_of(zs[j]).unwrap().1
                    implies rand_of(zs[i]).unwrap().2 == rand_of(zs[j]).unwrap().2 by {
                    assert(zs[i] == p || zs[i] == q);
                    assert(zs[j] == p || zs[j] == q);
                    assert(rand_of(xs[0]) is Some ==> rand_of(xs[1]) is Some ==> true);
                    if zs[i] != zs[j] {
                        assert(rand_of(xs[0]) is Some && rand_of(xs[1]) is Some);
                    }
                }
            }
            assert(asserted_arm_alone(zs)) by {
                assert forall|i: int, j: int|
                    0 <= i < zs.len() && 0 <= j < zs.len() && zs[i] is Var && (#[trigger] rand_of(zs[i])) is Some
                        && (#[trigger] rand_of(zs[j])) is Some && rand_of(zs[i]).unwrap().0 == rand_of(zs[j]).unwrap().0
                    implies zs[i] == zs[j] by {
                    assert(zs[i] == p || zs[i] == q);
                    assert(zs[j] == p || zs[j] == q);
                    if zs[i] != zs[j] {
                        if zs[i] == p {
                            assert(rand_of(xs[0]) is Some && rand_of(xs[1]) is Some);
                        } else {
                            assert(rand_of(xs[1]) is Some && rand_of(xs[0]) is Some);
                        }
                    }
                }
            }
            assert(v.covers(zs, Some(e))) by {
                assert forall|i: int|
                    0 <= i < zs.len() && zs[i] is Var && (#[trigger] rand_of(zs[i])) is Some
                        && rand_of(zs[i]).unwrap().2 + ginc(Some(e), rand_of(zs[i]).unwrap().0) >= 100
                    implies v.takes(rand_of(zs[i]).unwrap().0, rand_of(zs[i]).unwrap().1) by {
                    if zs[i] == p {
                        assert(rand_of(xs[0]) is Some);
                    } else {
                        assert(rand_of(xs[1]) is Some);
                    }
                }
            }
            law_simplify_disj_sound(zs, e, v);
            crate::valuation::lemma_some_holds(v, zs);
            lemma_collect_or(v, zs);
        } else if zs.len() == 1 {
            assert(d == zs[0]);
            if zs[0] == p {
                assert(xs[0] == p);
                lemma_simplify_literal(p, e, v);
            } else {
                assert(xs[1] == zs[0]);
                lemma_simplify_literal(q, e, v);
            }
        }
    } else if ys.len() == 1 {
        assert(ys.contains(ys[0]));
        if ys[0] == p {
            assert(xs[0] == p);
            lemma_simplify_literal(p, e, v);
        } else {
            assert(xs[1] == ys[0]);
            lemma_simplify_literal(q, e, v);
        }
    }
}


proof fn lemma_falsify_seq_as_truthify(ids: Seq<(Seq<char>, IdInfoV)>, g: GuardV, seen: Set<Seq<char>>, xs: Seq<PropV>)
    ensures
        fl_seq(ids, g, seen, xs) == tr_seq(ids, g, seen, negate_v(PropV::Or(xs))->And_0),
    decreases max_height(xs), 1nat, xs.len(),
{
    let ns = negate_v(PropV::Or(xs))->And_0;
    if xs.len() > 0 {
        let d = xs.drop_last();
        assert(negate_v(PropV::Or(d))->And_0 =~= ns.drop_last());
        crate::simplify::lemma_max_height_take(xs, xs.len() - 1);
        assert(xs.take(xs.len() - 1) =~= d);
        crate::simplify::lemma_max_height(xs, xs.len() - 1);
        lemma_falsify_seq_as_truthify(ids, g, seen, d);
        lemma_falsify_as_truthify(ids, fl_seq(ids, g, seen, d), seen, xs.last());
        assert(ns.last() == negate_v(xs.last()));
    }
}

proof fn lemma_falsify_as_truthify(ids: Seq<(Seq<char>, IdInfoV)>, g: GuardV, seen: Set<Seq<char>>, p: PropV)
    ensures
        fl_prop(ids, g, seen, p) == tr_prop(ids, g, seen, negate_v(p)),
    decreases height(p), 0nat, 0nat,
{
    match p {
        PropV::Or(xs) => {
            lemma_falsify_seq_as_truthify(ids, g, seen, xs);
        },
        _ => {},
    }
}

/// Making a proposition false acts on the guard exactly as making its
/// negation true.
pub proof fn law_falsify_is_truthify_negation(ids: Seq<(Seq<char>, IdInfoV)>, g: GuardV, p: PropV)
    ensures
        fl_prop(ids, g, Set::empty(), p) == tr_prop(ids, g, Set::empty(), negate_v(p)),
{
    lemma_falsify_as_truthify(ids, g, Set::empty(), p);
}

} // verus!
