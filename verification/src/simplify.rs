use vstd::prelude::*;
use crate::prop::{Prop, PropV, Symbol, SymbolV, view_prop, view_seq, props_view, negate_v, clone_props, same_props};
use crate::guard::{Guard, GuardV};

verus! {

/// `(block, arm, chance)` of a (possibly negated) random-arm symbol.
pub open spec fn rand_of(p: PropV) -> Option<(u32, u32, u32)> {
    match p {
        PropV::Var(SymbolV::Random { block, arm, chance }) => Some((block, arm, chance)),
        PropV::Not(SymbolV::Random { block, arm, chance }) => Some((block, arm, chance)),
        _ => None,
    }
}

/// The name of a (possibly negated) name symbol.
pub open spec fn name_of(p: PropV) -> Option<Seq<char>> {
    match p {
        PropV::Var(SymbolV::Name(n)) => Some(n),
        PropV::Not(SymbolV::Name(n)) => Some(n),
        _ => None,
    }
}

pub open spec fn is_rand_lit(p: PropV) -> bool {
    rand_of(p) is Some
}

/// The sequence without its repeated elements (first occurrences kept).
pub open spec fn dedup(s: Seq<PropV>) -> Seq<PropV>
    decreases s.len(),
{
    if s.len() == 0 {
        s
    } else {
        let d = dedup(s.drop_last());
        if d.contains(s.last()) {
            d
        } else {
            d.push(s.last())
        }
    }
}

/// The random-arm literals of `s`, in order.
pub open spec fn rand_part(s: Seq<PropV>) -> Seq<PropV>
    decreases s.len(),
{
    if s.len() == 0 {
        s
    } else if is_rand_lit(s.last()) {
        rand_part(s.drop_last()).push(s.last())
    } else {
        rand_part(s.drop_last())
    }
}

/// The elements of `s` that are not random-arm literals, in order.
pub open spec fn other_part(s: Seq<PropV>) -> Seq<PropV>
    decreases s.len(),
{
    if s.len() == 0 {
        s
    } else if !is_rand_lit(s.last()) {
        other_part(s.drop_last()).push(s.last())
    } else {
        other_part(s.drop_last())
    }
}

/// The terms of a conjunction or disjunction as they are examined: each
/// term once, the random-arm literals first, each group in the order of
/// first occurrence.
pub open spec fn canonical(s: Seq<PropV>) -> Seq<PropV> {
    dedup(rand_part(s)) + dedup(other_part(s))
}

/// Does `v` hold `p`?
fn holds(v: &Vec<Prop>, p: &Prop) -> (r: bool)
    ensures
        r == props_view(*v).contains(p@),
{
    let mut i: usize = 0;
    while i < v.len()
        invariant
            i <= v.len(),
            forall|j: int| 0 <= j < i ==> view_prop(#[trigger] v@[j]) != p@,
        decreases v.len() - i,
    {
        if v[i].same(p) {
            proof {
                assert(props_view(*v)[i as int] == p@);
            }
            return true;
        }
        i += 1;
    }
    proof {
        if props_view(*v).contains(p@) {
            let k = choose|k: int| 0 <= k < props_view(*v).len() && props_view(*v)[k] == p@;
            assert(view_prop(v@[k]) == p@);
        }
    }
    false
}

fn is_random_literal(p: &Prop) -> (r: bool)
    ensures
        r == is_rand_lit(p@),
{
    match p {
        Prop::Var(Symbol::Random { .. }) | Prop::Not(Symbol::Random { .. }) => true,
        _ => false,
    }
}

/// Puts the terms `v` in the order in which they are examined (see [`canonical`]).
pub fn canonical_terms(v: Vec<Prop>) -> (r: Vec<Prop>)
    ensures
        props_view(r) == canonical(props_view(v)),
{
    let ghost vs = props_view(v);
    let mut rs: Vec<Prop> = Vec::new();
    let mut os: Vec<Prop> = Vec::new();
    let mut i: usize = 0;
    while i < v.len()
        invariant
            i <= v.len(),
            vs == props_view(v),
            props_view(rs) == dedup(rand_part(vs.take(i as int))),
            props_view(os) == dedup(other_part(vs.take(i as int))),
        decreases v.len() - i,
    {
        let ghost t = vs.take(i as int);
        let ghost t1 = vs.take(i + 1);
        proof {
            assert(t1.drop_last() =~= t);
            assert(t1.last() == vs[i as int]);
            assert(vs[i as int] == view_prop(v@[i as int]));
        }
        let x = &v[i];
        if is_random_literal(x) {
            proof {
                assert(rand_part(t1) == rand_part(t).push(vs[i as int]));
                assert(other_part(t1) == other_part(t));
                assert(rand_part(t1).drop_last() =~= rand_part(t));
            }
            if !holds(&rs, x) {
                let ghost old_rs = props_view(rs);
                rs.push(x.clone_prop());
                proof {
                    assert(props_view(rs) =~= old_rs.push(vs[i as int]));
                }
            }
        } else {
            proof {
                assert(other_part(t1) == other_part(t).push(vs[i as int]));
                assert(rand_part(t1) == rand_part(t));
                assert(other_part(t1).drop_last() =~= other_part(t));
            }
            if !holds(&os, x) {
                let ghost old_os = props_view(os);
                os.push(x.clone_prop());
                proof {
                    assert(props_view(os) =~= old_os.push(vs[i as int]));
                }
            }
        }
        i += 1;
    }
    proof {
        assert(vs.take(v.len() as int) =~= vs);
    }
    let ghost pr = props_view(rs);
    let ghost po = props_view(os);
    rs.append(&mut os);
    proof {
        assert(props_view(rs) =~= pr + po);
    }
    rs
}


/// The value of an optional guard.
pub open spec fn gv(g: Option<&Guard>) -> Option<GuardV> {
    match g {
        Some(g) => Some(g@),
        None => None,
    }
}

/// The arm known to be taken in `b`, under an optional guard.
pub open spec fn gchosen(g: Option<GuardV>, b: u32) -> Option<u32> {
    match g {
        Some(g) => g.chosen(b),
        None => None,
    }
}

/// Arm `a` of `b` is known not to be taken, under an optional guard.
pub open spec fn gfalsy(g: Option<GuardV>, b: u32, a: u32) -> bool {
    match g {
        Some(g) => g.falsy_arm(b, a),
        None => false,
    }
}

/// The chance of the arms of `b` known not to be taken, under an optional guard.
pub open spec fn ginc(g: Option<GuardV>, b: u32) -> int {
    match g {
        Some(g) => g.increase(b) as int,
        None => 0,
    }
}

/// The conjunct `ys[i]` makes the conjunction false by itself: it is `false`,
/// it contradicts the arm known to be taken in its block, or it asserts an arm
/// known not to be taken.
pub open spec fn and_single_conflict(ys: Seq<PropV>, g: Option<GuardV>, i: int) -> bool {
    ||| ys[i] is False
    ||| match rand_of(ys[i]) {
        Some((b, a, _)) => {
            ||| (gchosen(g, b) is Some && ((gchosen(g, b) == Some(a)) != (ys[i] is Var)))
            ||| (ys[i] is Var && gfalsy(g, b, a))
        },
        None => false,
    }
}

/// The conjuncts `ys[i]` and `ys[j]` contradict each other: a name and its
/// negation (`A.A' = 0`), two arms of one random block (`P_in.P_im = 0`), or
/// an arm and its own negation (`P_in.P'_in = 0`).
pub open spec fn and_pair_conflict(ys: Seq<PropV>, i: int, j: int) -> bool {
    &&& i != j
    &&& {
        ||| (name_of(ys[i]) is Some && name_of(ys[i]) == name_of(ys[j]) && ys[i] is Var && ys[j] is Not)
        ||| (rand_of(ys[i]) is Some && rand_of(ys[j]) is Some && ys[i] is Var && ys[j] is Var
            && rand_of(ys[i]).unwrap().0 == rand_of(ys[j]).unwrap().0)
        ||| (rand_of(ys[i]) is Some && rand_of(ys[j]) is Some && ys[i] is Var && ys[j] is Not
            && rand_of(ys[i]).unwrap().0 == rand_of(ys[j]).unwrap().0
            && rand_of(ys[i]).unwrap().1 == rand_of(ys[j]).unwrap().1)
    }
}

pub open spec fn and_conflict(ys: Seq<PropV>, g: Option<GuardV>) -> bool {
    ||| exists|i: int| 0 <= i < ys.len() && #[trigger] and_single_conflict(ys, g, i)
    ||| exists|i: int, j: int| 0 <= i < ys.len() && 0 <= j < ys.len() && #[trigger] and_pair_conflict(ys, i, j)
}

/// `p` asserts an arm of block `b` other than arm `a`.
pub open spec fn other_arm_of(p: PropV, b: u32, a: u32) -> bool {
    match p {
        PropV::Var(SymbolV::Random { block, arm, chance }) => block == b && arm != a,
        _ => false,
    }
}

/// Some term of `ys` asserts an arm of block `b` other than arm `a`.
pub open spec fn has_other_arm(ys: Seq<PropV>, b: u32, a: u32) -> bool {
    exists|i: int| 0 <= i < ys.len() && #[trigger] other_arm_of(ys[i], b, a)
}

/// A conjunct of `all` that is kept: not `true`, not an arm known to be
/// taken, and not a negated arm when another arm of its block is asserted
/// (`P_in.P'_im = P_in`).
pub open spec fn and_keeps(p: PropV, all: Seq<PropV>, g: Option<GuardV>) -> bool {
    &&& !(p is True)
    &&& !(is_rand_lit(p) && p is Var && gchosen(g, rand_of(p).unwrap().0) is Some)
    &&& !(is_rand_lit(p) && p is Not && has_other_arm(all, rand_of(p).unwrap().0, rand_of(p).unwrap().1))
}

pub open spec fn and_kept(ys: Seq<PropV>, all: Seq<PropV>, g: Option<GuardV>) -> Seq<PropV>
    decreases ys.len(),
{
    if ys.len() == 0 {
        ys
    } else if and_keeps(ys.last(), all, g) {
        and_kept(ys.drop_last(), all, g).push(ys.last())
    } else {
        and_kept(ys.drop_last(), all, g)
    }
}

/// The conjunction of `zs`: `true` when empty, the term itself when single.
pub open spec fn collect_and(zs: Seq<PropV>) -> PropV {
    if zs.len() == 0 {
        PropV::True
    } else if zs.len() == 1 {
        zs[0]
    } else {
        PropV::And(zs)
    }
}

/// The simplified conjunction of the terms `xs` under the optional guard `g`.
pub open spec fn simplify_and_v(xs: Seq<PropV>, g: Option<GuardV>) -> PropV {
    let ys = canonical(xs);
    if ys.len() == 0 {
        PropV::True
    } else if ys.len() == 1 {
        ys[0]
    } else if and_conflict(ys, g) {
        PropV::False
    } else {
        collect_and(and_kept(ys, ys, g))
    }
}

fn rand_parts(p: &Prop) -> (r: Option<(u32, u32, u32)>)
    ensures
        r == rand_of(p@),
{
    match p {
        Prop::Var(Symbol::Random { block, arm, chance }) => Some((*block, *arm, *chance)),
        Prop::Not(Symbol::Random { block, arm, chance }) => Some((*block, *arm, *chance)),
        _ => None,
    }
}

fn chosen_arm(guard: Option<&Guard>, b: u32) -> (r: Option<u32>)
    ensures
        r == gchosen(gv(guard), b),
{
    match guard {
        Some(g) => match g.truthy_block_arm.get(&b) {
            Some(a) => Some(*a),
            None => None,
        },
        None => None,
    }
}

fn falsy_arm(guard: Option<&Guard>, b: u32, a: u32) -> (r: bool)
    ensures
        r == gfalsy(gv(guard), b, a),
{
    match guard {
        Some(g) => g.arm_is_falsy(b, a),
        None => false,
    }
}

fn chance_increase_of(guard: Option<&Guard>, b: u32) -> (r: u32)
    ensures
        r == ginc(gv(guard), b),
{
    match guard {
        Some(g) => g.chance_increase(b),
        None => 0,
    }
}

fn single_conflict(ys: &Vec<Prop>, guard: Option<&Guard>, i: usize) -> (r: bool)
    requires
        i < ys.len(),
    ensures
        r == and_single_conflict(props_view(*ys), gv(guard), i as int),
{
    let ghost vs = props_view(*ys);
    assert(vs[i as int] == view_prop(ys@[i as int]));
    if let Prop::False = &ys[i] {
        return true;
    }
    match rand_parts(&ys[i]) {
        Some((b, a, _c)) => {
            let positive = !ys[i].is_not();
            let c = chosen_arm(guard, b);
            match c {
                Some(ca) => {
                    if (ca == a) != positive {
                        return true;
                    }
                },
                None => {},
            }
            positive && falsy_arm(guard, b, a)
        },
        None => false,
    }
}

fn same_name(p: &Prop, q: &Prop) -> (r: bool)
    ensures
        r == (name_of(p@) is Some && name_of(p@) == name_of(q@)),
{
    match (p, q) {
        (Prop::Var(Symbol::Name(a)), Prop::Var(Symbol::Name(b))) => a.same(b),
        (Prop::Var(Symbol::Name(a)), Prop::Not(Symbol::Name(b))) => a.same(b),
        (Prop::Not(Symbol::Name(a)), Prop::Var(Symbol::Name(b))) => a.same(b),
        (Prop::Not(Symbol::Name(a)), Prop::Not(Symbol::Name(b))) => a.same(b),
        _ => false,
    }
}

fn pair_conflict(ys: &Vec<Prop>, i: usize, j: usize) -> (r: bool)
    requires
        i < ys.len(),
        j < ys.len(),
    ensures
        r == and_pair_conflict(props_view(*ys), i as int, j as int),
{
    let ghost vs = props_view(*ys);
    assert(vs[i as int] == view_prop(ys@[i as int]));
    assert(vs[j as int] == view_prop(ys@[j as int]));
    if i == j {
        return false;
    }
    let x = &ys[i];
    let y = &ys[j];
    if !x.is_not() && y.is_not() && same_name(x, y) {
        return true;
    }
    match (rand_parts(x), rand_parts(y)) {
        (Some((b1, a1, _)), Some((b2, a2, _))) => !x.is_not() && b1 == b2 && (!y.is_not() || a1 == a2),
        _ => false,
    }
}

fn conflict(ys: &Vec<Prop>, guard: Option<&Guard>) -> (r: bool)
    ensures
        r == and_conflict(props_view(*ys), gv(guard)),
{
    let ghost vs = props_view(*ys);
    let mut i: usize = 0;
    while i < ys.len()
        invariant
            i <= ys.len(),
            vs == props_view(*ys),
            forall|k: int| 0 <= k < i ==> !#[trigger] and_single_conflict(vs, gv(guard), k),
            forall|k: int, l: int| 0 <= k < i && 0 <= l < vs.len() ==> !#[trigger] and_pair_conflict(vs, k, l),
        decreases ys.len() - i,
    {
        if single_conflict(ys, guard, i) {
            return true;
        }
        let mut j: usize = 0;
        while j < ys.len()
            invariant
                i < ys.len(),
                j <= ys.len(),
                vs == props_view(*ys),
                forall|l: int| 0 <= l < j ==> !#[trigger] and_pair_conflict(vs, i as int, l),
            decreases ys.len() - j,
        {
            if pair_conflict(ys, i, j) {
                return true;
            }
            j += 1;
        }
        i += 1;
    }
    false
}

fn other_arm_asserted(ys: &Vec<Prop>, b: u32, a: u32) -> (r: bool)
    ensures
        r == has_other_arm(props_view(*ys), b, a),
{
    let ghost vs = props_view(*ys);
    let mut i: usize = 0;
    while i < ys.len()
        invariant
            i <= ys.len(),
            vs == props_view(*ys),
            forall|k: int| 0 <= k < i ==> !#[trigger] other_arm_of(vs[k], b, a),
        decreases ys.len() - i,
    {
        assert(vs[i as int] == view_prop(ys@[i as int]));
        let hit = match &ys[i] {
            Prop::Var(Symbol::Random { block, arm, .. }) => *block == b && *arm != a,
            _ => false,
        };
        proof {
            assert(hit == other_arm_of(vs[i as int], b, a));
        }
        if hit {
            return true;
        }
        i += 1;
    }
    false
}

/// The last element of a non-empty vector, moved out.
fn into_single(v: Vec<Prop>) -> (r: Prop)
    requires
        v.len() == 1,
    ensures
        r@ == props_view(v)[0],
{
    let mut v = v;
    let ghost pv = props_view(v);
    let r = v.pop().unwrap();
    assert(pv[0] == view_prop(r));
    r
}

/// The conjunction of `terms`, simplified under `guard` when there is one:
/// repeated terms are dropped, contradictions give `False`, terms known to
/// be true are dropped, and a single remaining term stands for itself.
#[verifier::rlimit(40)]
pub fn simplify_and(terms: Vec<Prop>, guard: Option<&Guard>) -> (r: Prop)
    ensures
        r@ == simplify_and_v(props_view(terms), gv(guard)),
{
    let ys = canonical_terms(terms);
    let ghost vs = props_view(ys);
    if ys.len() == 0 {
        return Prop::True;
    }
    if ys.len() == 1 {
        return into_single(ys);
    }
    if conflict(&ys, guard) {
        return Prop::False;
    }
    let mut kept: Vec<Prop> = Vec::new();
    let mut i: usize = 0;
    while i < ys.len()
        invariant
            i <= ys.len(),
            vs == props_view(ys),
            props_view(kept) == and_kept(vs.take(i as int), vs, gv(guard)),
        decreases ys.len() - i,
    {
        let ghost t = vs.take(i as int);
        let ghost t1 = vs.take(i + 1);
        proof {
            assert(t1.drop_last() =~= t);
            assert(t1.last() == vs[i as int]);
            assert(vs[i as int] == view_prop(ys@[i as int]));
        }
        let x = &ys[i];
        let keep = match x {
            Prop::True => false,
            _ => match rand_parts(x) {
                Some((b, a, _c)) => if x.is_not() {
                    !other_arm_asserted(&ys, b, a)
                } else {
                    chosen_arm(guard, b).is_none()
                },
                None => true,
            },
        };
        if keep {
            let ghost old_k = props_view(kept);
            kept.push(x.clone_prop());
            proof {
                assert(props_view(kept) =~= old_k.push(vs[i as int]));
            }
        }
        i += 1;
    }
    proof {
        assert(vs.take(ys.len() as int) =~= vs);
    }
    if kept.len() == 0 {
        Prop::True
    } else if kept.len() == 1 {
        into_single(kept)
    } else {
        Prop::And(kept)
    }
}


/// The disjunct `ys[i]` makes the disjunction true by itself: it is `true`,
/// or it agrees with the arm known to be taken in its block.
pub open spec fn or_single_true(ys: Seq<PropV>, g: Option<GuardV>, i: int) -> bool {
    ||| ys[i] is True
    ||| match rand_of(ys[i]) {
        Some((b, a, _)) => gchosen(g, b) is Some && ((gchosen(g, b) == Some(a)) == (ys[i] is Var)),
        None => false,
    }
}

/// The disjuncts `ys[i]` and `ys[j]` together are true: a name and its
/// negation (`A + A' = 1`), or the negations of two different arms of one
/// random block (`P'_in + P'_im = 1`).
pub open spec fn or_pair_true(ys: Seq<PropV>, i: int, j: int) -> bool {
    &&& i != j
    &&& {
        ||| (name_of(ys[i]) is Some && name_of(ys[i]) == name_of(ys[j]) && ys[i] is Var && ys[j] is Not)
        ||| (is_rand_lit(ys[i]) && is_rand_lit(ys[j]) && ys[i] is Not && ys[j] is Not
            && rand_of(ys[i]).unwrap().0 == rand_of(ys[j]).unwrap().0
            && rand_of(ys[i]).unwrap().1 != rand_of(ys[j]).unwrap().1)
    }
}

/// The summed chance of the (non-negated) arms of block `b` among `ys`.
pub open spec fn pos_sum(ys: Seq<PropV>, b: u32) -> int
    decreases ys.len(),
{
    if ys.len() == 0 {
        0
    } else {
        pos_sum(ys.drop_last(), b) + match ys.last() {
            PropV::Var(SymbolV::Random { block, arm, chance }) => if block == b { chance as int } else { 0 },
            _ => 0,
        }
    }
}

/// The arms of the block of `ys[i]` add up to certainty (`P_in(x1) + P_im(x2) = P_inm(x1 + x2)`).
pub open spec fn or_block_true(ys: Seq<PropV>, g: Option<GuardV>, i: int) -> bool {
    &&& is_rand_lit(ys[i])
    &&& ys[i] is Var
    &&& pos_sum(ys, rand_of(ys[i]).unwrap().0) + ginc(g, rand_of(ys[i]).unwrap().0) >= 100
}

pub open spec fn or_true(ys: Seq<PropV>, g: Option<GuardV>) -> bool {
    ||| exists|i: int| 0 <= i < ys.len() && #[trigger] or_single_true(ys, g, i)
    ||| exists|i: int, j: int| 0 <= i < ys.len() && 0 <= j < ys.len() && #[trigger] or_pair_true(ys, i, j)
    ||| exists|i: int| 0 <= i < ys.len() && #[trigger] or_block_true(ys, g, i)
}

/// `ys[i]` is the first random-arm literal of its block.
pub open spec fn first_of_block(ys: Seq<PropV>, i: int) -> bool {
    forall|j: int| 0 <= j < i ==> !(#[trigger] is_rand_lit(ys[j]) && rand_of(ys[j]).unwrap().0 == rand_of(ys[i]).unwrap().0)
}

/// A disjunct that is kept: not `false`, not of a block whose taken arm is
/// known, and not a later arm of a block (merged into the first one).
pub open spec fn or_keeps(ys: Seq<PropV>, g: Option<GuardV>, i: int) -> bool {
    &&& !(ys[i] is False)
    &&& !(is_rand_lit(ys[i]) && gchosen(g, rand_of(ys[i]).unwrap().0) is Some)
    &&& !(is_rand_lit(ys[i]) && ys[i] is Var && !first_of_block(ys, i))
}

/// `p` with the chance of its random-arm symbol replaced by `c`.
pub open spec fn with_chance(p: PropV, c: u32) -> PropV {
    match p {
        PropV::Var(SymbolV::Random { block, arm, chance }) => PropV::Var(SymbolV::Random { block, arm, chance: c }),
        PropV::Not(SymbolV::Random { block, arm, chance }) => PropV::Not(SymbolV::Random { block, arm, chance: c }),
        _ => p,
    }
}

/// A kept disjunct; an asserted random arm carries the summed chance of the
/// asserted arms of its block (a negated arm keeps its own chance).
pub open spec fn or_adjust(ys: Seq<PropV>, p: PropV) -> PropV {
    if is_rand_lit(p) && p is Var {
        with_chance(p, pos_sum(ys, rand_of(p).unwrap().0) as u32)
    } else {
        p
    }
}

pub open spec fn or_kept(ys: Seq<PropV>, g: Option<GuardV>, n: int) -> Seq<PropV>
    decreases n,
{
    if n <= 0 {
        Seq::empty()
    } else if or_keeps(ys, g, n - 1) {
        or_kept(ys, g, n - 1).push(or_adjust(ys, ys[n - 1]))
    } else {
        or_kept(ys, g, n - 1)
    }
}

/// The disjunction of `zs`: `false` when empty, the term itself when single.
pub open spec fn collect_or(zs: Seq<PropV>) -> PropV {
    if zs.len() == 0 {
        PropV::False
    } else if zs.len() == 1 {
        zs[0]
    } else {
        PropV::Or(zs)
    }
}

/// `k` is the position of the first asserted random arm among `a`.
pub open spec fn first_arm_at(a: Seq<PropV>, k: int) -> bool {
    &&& 0 <= k < a.len()
    &&& a[k] is Var && is_rand_lit(a[k])
    &&& forall|j: int| 0 <= j < k ==> !(a[j] is Var && #[trigger] is_rand_lit(a[j]))
}

/// A conjunction split at its first asserted random arm: the arm's block,
/// arm and chance, and the other conjuncts.
pub open spec fn arm_split(p: PropV) -> Option<(u32, u32, u32, Seq<PropV>)> {
    match p {
        PropV::And(a) => if exists|k: int| first_arm_at(a, k) {
            let k = choose|k: int| first_arm_at(a, k);
            Some((rand_of(a[k]).unwrap().0, rand_of(a[k]).unwrap().1, rand_of(a[k]).unwrap().2, a.remove(k)))
        } else {
            None
        },
        _ => None,
    }
}

/// The disjuncts `xs[i]` and `xs[j]` are one conjunction `g` taken with two
/// different arms of a block whose chances (with those of the arms known not
/// to be taken) make up the whole block:
/// `(P_k1(x1) & g) | (P_k2(x2) & g) = g` when `x1 + x2 >= 100`.
pub open spec fn factor_pair(xs: Seq<PropV>, g: Option<GuardV>, i: int, j: int) -> bool {
    &&& 0 <= i < j < xs.len()
    &&& arm_split(xs[i]) is Some
    &&& arm_split(xs[j]) is Some
    &&& arm_split(xs[i]).unwrap().0 == arm_split(xs[j]).unwrap().0
    &&& arm_split(xs[i]).unwrap().1 != arm_split(xs[j]).unwrap().1
    &&& arm_split(xs[i]).unwrap().3 == arm_split(xs[j]).unwrap().3
    &&& arm_split(xs[i]).unwrap().2 + arm_split(xs[j]).unwrap().2 + ginc(g, arm_split(xs[i]).unwrap().0) >= 100
}

/// `(i, j)` is the first such pair, by `i` and then by `j`.
pub open spec fn first_factor_pair(xs: Seq<PropV>, g: Option<GuardV>, i: int, j: int) -> bool {
    &&& factor_pair(xs, g, i, j)
    &&& forall|i2: int, j2: int| (i2 < i || (i2 == i && j2 < j)) ==> !#[trigger] factor_pair(xs, g, i2, j2)
}

/// The disjuncts with each such pair replaced by the conjunction they share,
/// first pair first.
pub open spec fn factor_v(xs: Seq<PropV>, g: Option<GuardV>) -> Seq<PropV>
    decreases xs.len(),
{
    if exists|i: int, j: int| first_factor_pair(xs, g, i, j) {
        let (i, j) = choose|i: int, j: int| first_factor_pair(xs, g, i, j);
        factor_v(xs.update(i, collect_and(arm_split(xs[i]).unwrap().3)).remove(j), g)
    } else {
        xs
    }
}

/// The simplified disjunction of the terms `xs` under the optional guard `g`.
pub open spec fn simplify_or_v(xs: Seq<PropV>, g: Option<GuardV>) -> PropV {
    let ys = canonical(factor_v(xs, g));
    if ys.len() == 0 {
        PropV::False
    } else if ys.len() == 1 {
        ys[0]
    } else if or_true(ys, g) {
        PropV::True
    } else {
        collect_or(or_kept(ys, g, ys.len() as int))
    }
}

proof fn lemma_pos_sum_witness(ys: Seq<PropV>, b: u32)
    requires
        pos_sum(ys, b) > 0,
    ensures
        exists|j: int| 0 <= j < ys.len() && #[trigger] is_rand_lit(ys[j]) && ys[j] is Var
            && rand_of(ys[j]).unwrap().0 == b,
    decreases ys.len(),
{
    let last = ys.last();
    if let PropV::Var(SymbolV::Random { block, arm, chance }) = last {
        if block == b && chance > 0 {
            assert(is_rand_lit(ys[ys.len() - 1]));
            return;
        }
    }
    lemma_pos_sum_witness(ys.drop_last(), b);
    let j = choose|j: int| 0 <= j < ys.drop_last().len() && #[trigger] is_rand_lit(ys.drop_last()[j])
        && ys.drop_last()[j] is Var && rand_of(ys.drop_last()[j]).unwrap().0 == b;
    assert(ys[j] == ys.drop_last()[j]);
}

proof fn lemma_pos_sum_nonneg(ys: Seq<PropV>, b: u32)
    ensures
        pos_sum(ys, b) >= 0,
    decreases ys.len(),
{
    if ys.len() > 0 {
        lemma_pos_sum_nonneg(ys.drop_last(), b);
    }
}

/// The summed chance of the arms of block `b`, capped at 100.
fn capped_sum(ys: &Vec<Prop>, b: u32) -> (r: u64)
    ensures
        r == (if pos_sum(props_view(*ys), b) >= 100 { 100 } else { pos_sum(props_view(*ys), b) }),
{
    let ghost vs = props_view(*ys);
    let mut acc: u64 = 0;
    let mut j: usize = 0;
    while j < ys.len()
        invariant
            j <= ys.len(),
            vs == props_view(*ys),
            acc == (if pos_sum(vs.take(j as int), b) >= 100 { 100 } else { pos_sum(vs.take(j as int), b) }),
        decreases ys.len() - j,
    {
        let ghost t = vs.take(j as int);
        let ghost t1 = vs.take(j + 1);
        proof {
            assert(t1.drop_last() =~= t);
            assert(t1.last() == vs[j as int]);
            assert(vs[j as int] == view_prop(ys@[j as int]));
            lemma_pos_sum_nonneg(t, b);
        }
        if let Prop::Var(Symbol::Random { block, arm: _, chance }) = &ys[j] {
            if *block == b {
                let s = acc + *chance as u64;
                acc = if s >= 100 { 100 } else { s };
            }
        }
        j += 1;
    }
    proof {
        assert(vs.take(ys.len() as int) =~= vs);
    }
    acc
}

fn or_single(ys: &Vec<Prop>, guard: Option<&Guard>, i: usize) -> (r: bool)
    requires
        i < ys.len(),
    ensures
        r == or_single_true(props_view(*ys), gv(guard), i as int),
{
    let ghost vs = props_view(*ys);
    assert(vs[i as int] == view_prop(ys@[i as int]));
    if let Prop::True = &ys[i] {
        return true;
    }
    match rand_parts(&ys[i]) {
        Some((b, a, _c)) => {
            let positive = !ys[i].is_not();
            match chosen_arm(guard, b) {
                Some(ca) => (ca == a) == positive,
                None => false,
            }
        },
        None => false,
    }
}

fn or_pair(ys: &Vec<Prop>, i: usize, j: usize) -> (r: bool)
    requires
        i < ys.len(),
        j < ys.len(),
    ensures
        r == or_pair_true(props_view(*ys), i as int, j as int),
{
    let ghost vs = props_view(*ys);
    assert(vs[i as int] == view_prop(ys@[i as int]));
    assert(vs[j as int] == view_prop(ys@[j as int]));
    if i == j {
        return false;
    }
    let x = &ys[i];
    let y = &ys[j];
    if !x.is_not() && y.is_not() && same_name(x, y) {
        return true;
    }
    match (rand_parts(x), rand_parts(y)) {
        (Some((b1, a1, _)), Some((b2, a2, _))) => x.is_not() && y.is_not() && b1 == b2 && a1 != a2,
        _ => false,
    }
}

fn or_block(ys: &Vec<Prop>, guard: Option<&Guard>, i: usize) -> (r: bool)
    requires
        i < ys.len(),
    ensures
        r == or_block_true(props_view(*ys), gv(guard), i as int),
{
    let ghost vs = props_view(*ys);
    assert(vs[i as int] == view_prop(ys@[i as int]));
    if ys[i].is_not() {
        return false;
    }
    match rand_parts(&ys[i]) {
        Some((b, _a, _c)) => {
            let total = capped_sum(ys, b) + chance_increase_of(guard, b) as u64;
            total >= 100
        },
        None => false,
    }
}

fn or_is_true(ys: &Vec<Prop>, guard: Option<&Guard>) -> (r: bool)
    ensures
        r == or_true(props_view(*ys), gv(guard)),
{
    let ghost vs = props_view(*ys);
    let mut i: usize = 0;
    while i < ys.len()
        invariant
            i <= ys.len(),
            vs == props_view(*ys),
            forall|k: int| 0 <= k < i ==> !#[trigger] or_single_true(vs, gv(guard), k),
            forall|k: int| 0 <= k < i ==> !#[trigger] or_block_true(vs, gv(guard), k),
            forall|k: int, l: int| 0 <= k < i && 0 <= l < vs.len() ==> !#[trigger] or_pair_true(vs, k, l),
        decreases ys.len() - i,
    {
        if or_single(ys, guard, i) {
            return true;
        }
        if or_block(ys, guard, i) {
            return true;
        }
        let mut j: usize = 0;
        while j < ys.len()
            invariant
                i < ys.len(),
                j <= ys.len(),
                vs == props_view(*ys),
                forall|l: int| 0 <= l < j ==> !#[trigger] or_pair_true(vs, i as int, l),
            decreases ys.len() - j,
        {
            if or_pair(ys, i, j) {
                return true;
            }
            j += 1;
        }
        i += 1;
    }
    false
}

fn is_first_of_block(ys: &Vec<Prop>, i: usize, b: u32) -> (r: bool)
    requires
        i < ys.len(),
        rand_of(props_view(*ys)[i as int]) matches Some((b2, _, _)) && b2 == b,
    ensures
        r == first_of_block(props_view(*ys), i as int),
{
    let ghost vs = props_view(*ys);
    let mut j: usize = 0;
    while j < i
        invariant
            j <= i < ys.len(),
            vs == props_view(*ys),
            rand_of(vs[i as int]) matches Some((b2, _, _)) && b2 == b,
            forall|k: int| 0 <= k < j ==> !(#[trigger] is_rand_lit(vs[k]) && rand_of(vs[k]).unwrap().0 == b),
        decreases i - j,
    {
        assert(vs[j as int] == view_prop(ys@[j as int]));
        match rand_parts(&ys[j]) {
            Some((bj, _, _)) => {
                if bj == b {
                    proof {
                        assert(is_rand_lit(vs[j as int]) && rand_of(vs[j as int]).unwrap().0 == rand_of(vs[i as int]).unwrap().0);
                    }
                    return false;
                }
            },
            None => {},
        }
        j += 1;
    }
    true
}

/// `p`, a random-arm literal, with its chance replaced by `c`.
fn set_chance(p: &Prop, c: u32) -> (r: Prop)
    ensures
        r@ == with_chance(p@, c),
{
    match p {
        Prop::Var(Symbol::Random { block, arm, chance: _ }) => Prop::Var(Symbol::Random { block: *block, arm: *arm, chance: c }),
        Prop::Not(Symbol::Random { block, arm, chance: _ }) => Prop::Not(Symbol::Random { block: *block, arm: *arm, chance: c }),
        _ => p.clone_prop(),
    }
}

/// The position of the first asserted random arm of `a`, if any.
fn first_arm(a: &Vec<Prop>) -> (r: Option<usize>)
    ensures
        match r {
            Some(k) => first_arm_at(props_view(*a), k as int),
            None => !exists|k: int| first_arm_at(props_view(*a), k),
        },
{
    let ghost va = props_view(*a);
    let mut k: usize = 0;
    while k < a.len()
        invariant
            k <= a.len(),
            va == props_view(*a),
            forall|j: int| 0 <= j < k ==> !(va[j] is Var && #[trigger] is_rand_lit(va[j])),
        decreases a.len() - k,
    {
        proof {
            assert(va[k as int] == view_prop(a@[k as int]));
        }
        match &a[k] {
            Prop::Var(Symbol::Random { .. }) => {
                return Some(k);
            },
            _ => {},
        }
        k += 1;
    }
    proof {
        if exists|k2: int| first_arm_at(va, k2) {
            let k2 = choose|k2: int| first_arm_at(va, k2);
            assert(va[k2] is Var && is_rand_lit(va[k2]));
        }
    }
    None
}

pub proof fn lemma_first_arm_unique(a: Seq<PropV>, k: int)
    requires
        first_arm_at(a, k),
    ensures
        (choose|k2: int| first_arm_at(a, k2)) == k,
{
    let k2 = choose|k2: int| first_arm_at(a, k2);
    assert(first_arm_at(a, k2));
    if k2 < k {
        assert(!(a[k2] is Var && is_rand_lit(a[k2])));
    } else if k < k2 {
        assert(!(a[k] is Var && is_rand_lit(a[k])));
    }
}

/// `p` split at the first random arm it asserts (see [`arm_split`]).
fn split_arm(p: &Prop) -> (r: Option<(u32, u32, u32, Vec<Prop>)>)
    ensures
        match r {
            Some((b, a, c, rest)) => arm_split(p@) == Some((b, a, c, props_view(rest))),
            None => arm_split(p@) is None,
        },
{
    match p {
        Prop::And(v) => {
            let ghost va = props_view(*v);
            proof {
                assert(p@ == PropV::And(va));
            }
            match first_arm(v) {
                Some(k) => {
                    proof {
                        lemma_first_arm_unique(va, k as int);
                    }
                    let mut rest: Vec<Prop> = Vec::new();
                    let mut i: usize = 0;
                    while i < k
                        invariant
                            i <= k < v.len(),
                            va == props_view(*v),
                            props_view(rest) == va.take(i as int),
                        decreases k - i,
                    {
                        let ghost old_r = props_view(rest);
                        rest.push(v[i].clone_prop());
                        proof {
                            assert(va[i as int] == view_prop(v@[i as int]));
                            assert(props_view(rest) =~= old_r.push(va[i as int]));
                            assert(va.take(i + 1) =~= va.take(i as int).push(va[i as int]));
                        }
                        i += 1;
                    }
                    let mut i: usize = k + 1;
                    while i < v.len()
                        invariant
                            k < i <= v.len(),
                            va == props_view(*v),
                            props_view(rest) == va.take(k as int) + va.subrange(k + 1, i as int),
                        decreases v.len() - i,
                    {
                        let ghost old_r = props_view(rest);
                        rest.push(v[i].clone_prop());
                        proof {
                            assert(va[i as int] == view_prop(v@[i as int]));
                            assert(props_view(rest) =~= old_r.push(va[i as int]));
                            assert(va.subrange(k + 1, i + 1) =~= va.subrange(k + 1, i as int).push(va[i as int]));
                        }
                        i += 1;
                    }
                    proof {
                        assert(va.remove(k as int) =~= va.take(k as int) + va.subrange(k + 1, v.len() as int));
                        assert(va[k as int] == view_prop(v@[k as int]));
                    }
                    match rand_parts(&v[k]) {
                        Some((b, a, c)) => Some((b, a, c, rest)),
                        None => None,
                    }
                },
                None => None,
            }
        },
        _ => None,
    }
}

/// The first pair of disjuncts to factor (see [`first_factor_pair`]), with
/// the conjunction they share.
fn find_factor_pair(xs: &Vec<Prop>, guard: Option<&Guard>) -> (r: Option<(usize, usize, Vec<Prop>)>)
    ensures
        match r {
            Some((i, j, rest)) => first_factor_pair(props_view(*xs), gv(guard), i as int, j as int)
                && props_view(rest) == arm_split(props_view(*xs)[i as int]).unwrap().3,
            None => !exists|i: int, j: int| #[trigger] factor_pair(props_view(*xs), gv(guard), i, j),
        },
{
    let ghost vs = props_view(*xs);
    let ghost g = gv(guard);
    let mut i: usize = 0;
    while i < xs.len()
        invariant
            i <= xs.len(),
            vs == props_view(*xs),
            g == gv(guard),
            forall|i2: int, j2: int| i2 < i ==> !#[trigger] factor_pair(vs, g, i2, j2),
        decreases xs.len() - i,
    {
        proof {
            assert(vs[i as int] == view_prop(xs@[i as int]));
        }
        match split_arm(&xs[i]) {
            Some((b1, a1, c1, r1)) => {
                let mut j: usize = i + 1;
                while j < xs.len()
                    invariant
                        i < j <= xs.len(),
                        vs == props_view(*xs),
                        g == gv(guard),
                        arm_split(vs[i as int]) == Some((b1, a1, c1, props_view(r1))),
                        forall|i2: int, j2: int| i2 < i ==> !#[trigger] factor_pair(vs, g, i2, j2),
                        forall|j2: int| j2 < j ==> !#[trigger] factor_pair(vs, g, i as int, j2),
                    decreases xs.len() - j,
                {
                    proof {
                        assert(vs[j as int] == view_prop(xs@[j as int]));
                    }
                    match split_arm(&xs[j]) {
                        Some((b2, a2, c2, r2)) => {
                            let inc = chance_increase_of(guard, b1);
                            if b1 == b2 && a1 != a2 && (c1 as u64) + (c2 as u64) + (inc as u64) >= 100 && same_props(&r1, &r2) {
                                return Some((i, j, r1));
                            }
                        },
                        None => {},
                    }
                    j += 1;
                }
            },
            None => {},
        }
        proof {
            assert forall|i2: int, j2: int| i2 < i + 1 implies !#[trigger] factor_pair(vs, g, i2, j2) by {
                if i2 == i && factor_pair(vs, g, i2, j2) {
                    assert(arm_split(vs[i as int]) is Some);
                }
            }
        }
        i += 1;
    }
    None
}

pub proof fn lemma_first_pair_unique(xs: Seq<PropV>, g: Option<GuardV>, i: int, j: int)
    requires
        first_factor_pair(xs, g, i, j),
    ensures
        (choose|i2: int, j2: int| first_factor_pair(xs, g, i2, j2)) == (i, j),
{
    let (i2, j2) = choose|i2: int, j2: int| first_factor_pair(xs, g, i2, j2);
    assert(first_factor_pair(xs, g, i2, j2));
    if i2 < i || (i2 == i && j2 < j) {
        assert(!factor_pair(xs, g, i2, j2));
    } else if i < i2 || (i == i2 && j < j2) {
        assert(!factor_pair(xs, g, i, j));
    }
}

/// The conjunction of `v`: `True` when empty, the term itself when single.
fn join_and(v: Vec<Prop>) -> (r: Prop)
    ensures
        r@ == collect_and(props_view(v)),
{
    if v.len() == 0 {
        Prop::True
    } else if v.len() == 1 {
        into_single(v)
    } else {
        Prop::And(v)
    }
}

/// The disjuncts with each pair that covers a random block around one
/// conjunction replaced by that conjunction (see [`factor_v`]).
fn factor(terms: Vec<Prop>, guard: Option<&Guard>) -> (r: Vec<Prop>)
    ensures
        props_view(r) == factor_v(props_view(terms), gv(guard)),
    decreases terms.len(),
{
    let ghost vs = props_view(terms);
    match find_factor_pair(&terms, guard) {
        Some((i, j, rest)) => {
            proof {
                lemma_first_pair_unique(vs, gv(guard), i as int, j as int);
            }
            let joined = join_and(rest);
            let ghost jv = joined@;
            let mut t = terms;
            t.set(i, joined);
            let ghost t1 = t@;
            t.remove(j);
            proof {
                assert(props_view(t) =~= vs.update(i as int, jv).remove(j as int)) by {
                    assert(t@ =~= t1.remove(j as int));
                    assert forall|k: int| 0 <= k < t@.len() implies #[trigger] view_prop(t@[k]) == vs.update(i as int, jv).remove(j as int)[k] by {
                        if k < j {
                            assert(t@[k] == t1[k]);
                        } else {
                            assert(t@[k] == t1[k + 1]);
                        }
                    }
                }
            }
            factor(t, guard)
        },
        None => {
            proof {
                if exists|i: int, j: int| first_factor_pair(vs, gv(guard), i, j) {
                    let (i, j) = choose|i: int, j: int| first_factor_pair(vs, gv(guard), i, j);
                    assert(factor_pair(vs, gv(guard), i, j));
                }
            }
            terms
        },
    }
}

/// The disjunction of `terms`, simplified under `guard` when there is one:
/// two conjunctions that differ only in the arm they take of a random block
/// whose chances they cover become the conjunction they share, repeated
/// terms and `False` are dropped, a name with its negation gives
/// `True`, the arms of a random block are merged into one whose chance is
/// their sum (`True` once it reaches 100), and a single remaining term
/// stands for itself.
pub fn simplify_or(terms: Vec<Prop>, guard: Option<&Guard>) -> (r: Prop)
    ensures
        r@ == simplify_or_v(props_view(terms), gv(guard)),
{
    let terms = factor(terms, guard);
    let ys = canonical_terms(terms);
    let ghost vs = props_view(ys);
    if ys.len() == 0 {
        return Prop::False;
    }
    if ys.len() == 1 {
        return into_single(ys);
    }
    if or_is_true(&ys, guard) {
        return Prop::True;
    }
    let mut kept: Vec<Prop> = Vec::new();
    let mut i: usize = 0;
    while i < ys.len()
        invariant
            i <= ys.len(),
            vs == props_view(ys),
            !or_true(vs, gv(guard)),
            props_view(kept) == or_kept(vs, gv(guard), i as int),
        decreases ys.len() - i,
    {
        proof {
            assert(vs[i as int] == view_prop(ys@[i as int]));
        }
        let x = &ys[i];
        match x {
            Prop::False => {},
            _ => match rand_parts(x) {
                Some((b, _a, own)) => {
                    let dropped = chosen_arm(guard, b).is_some() || (!x.is_not() && !is_first_of_block(&ys, i, b));
                    if !dropped {
                        let total = capped_sum(&ys, b);
                        proof {
                            lemma_pos_sum_nonneg(vs, b);
                            if pos_sum(vs, b) >= 100 {
                                lemma_pos_sum_witness(vs, b);
                                let j = choose|j: int| 0 <= j < vs.len() && #[trigger] is_rand_lit(vs[j]) && vs[j] is Var
                                    && rand_of(vs[j]).unwrap().0 == b;
                                assert(or_block_true(vs, gv(guard), j));
                            }
                        }
                        let ghost old_k = props_view(kept);
                        let c = if x.is_not() { own } else { total as u32 };
                        kept.push(set_chance(x, c));
                        proof {
                            assert(props_view(kept) =~= old_k.push(or_adjust(vs, vs[i as int])));
                        }
                    }
                },
                None => {
                    let ghost old_k = props_view(kept);
                    kept.push(x.clone_prop());
                    proof {
                        assert(props_view(kept) =~= old_k.push(or_adjust(vs, vs[i as int])));
                    }
                },
            },
        }
        i += 1;
    }
    if kept.len() == 0 {
        Prop::False
    } else if kept.len() == 1 {
        into_single(kept)
    } else {
        Prop::Or(kept)
    }
}


/// The nesting depth of a proposition.
pub open spec fn height(p: PropV) -> nat
    decreases p,
{
    match p {
        PropV::And(xs) => 1 + max_height(xs),
        PropV::Or(xs) => 1 + max_height(xs),
        _ => 0,
    }
}

pub open spec fn max_height(xs: Seq<PropV>) -> nat
    decreases xs,
{
    if xs.len() == 0 {
        0
    } else {
        let m = max_height(xs.drop_last());
        let h = height(xs.last());
        if m >= h { m } else { h }
    }
}

pub proof fn lemma_max_height(xs: Seq<PropV>, i: int)
    requires
        0 <= i < xs.len(),
    ensures
        height(xs[i]) <= max_height(xs),
    decreases xs.len(),
{
    if i < xs.len() - 1 {
        assert(xs[i] == xs.drop_last()[i]);
        lemma_max_height(xs.drop_last(), i);
    }
}

pub proof fn lemma_max_height_take(xs: Seq<PropV>, n: int)
    requires
        0 <= n <= xs.len(),
    ensures
        max_height(xs.take(n)) <= max_height(xs),
    decreases xs.len(),
{
    if n < xs.len() {
        assert(xs.drop_last().take(n) =~= xs.take(n));
        lemma_max_height_take(xs.drop_last(), n);
    } else {
        assert(xs.take(n) =~= xs);
    }
}

pub open spec fn is_lit(p: PropV) -> bool {
    p is Var || p is Not
}

/// `p & q`: the conjunction, distributed over a disjunction and simplified
/// (without a guard).
pub open spec fn conj_v(p: PropV, q: PropV) -> PropV
    decreases height(p) + height(q), 1nat, 0nat,
{
    if p is False || q is False {
        PropV::False
    } else if q is True {
        p
    } else if p is True {
        q
    } else {
        match (p, q) {
            (PropV::And(et), PropV::And(et2)) => simplify_and_v(et + et2, None),
            (PropV::And(et), _) => if is_lit(q) { simplify_and_v(et.push(q), None) } else {
                conj_or(q->Or_0, p)
            },
            (_, PropV::And(et)) => if is_lit(p) { simplify_and_v(et.push(p), None) } else {
                conj_or(p->Or_0, q)
            },
            (PropV::Or(vel), _) => conj_or(vel, q),
            (_, PropV::Or(vel)) => conj_or(vel, p),
            _ => simplify_and_v(seq![p, q], None),
        }
    }
}

/// Each disjunct of `vel` conjoined with `q`.
pub open spec fn conj_map(vel: Seq<PropV>, q: PropV) -> Seq<PropV>
    decreases max_height(vel) + 1 + height(q), 0nat, vel.len(),
{
    if vel.len() == 0 {
        Seq::empty()
    } else {
        conj_map(vel.drop_last(), q).push(conj_v(vel.last(), q))
    }
}

/// Each disjunct of `vel` conjoined with `q`, then the simplified disjunction.
pub open spec fn conj_or(vel: Seq<PropV>, q: PropV) -> PropV
    decreases max_height(vel) + 1 + height(q), 0nat, vel.len() + 1,
{
    simplify_or_v(conj_map(vel, q), None)
}

/// `p | q`: the disjunction, simplified (without a guard).
pub open spec fn disj_v(p: PropV, q: PropV) -> PropV {
    if q is True || p is True {
        PropV::True
    } else if q is False {
        p
    } else if p is False {
        q
    } else {
        match (p, q) {
            (PropV::Or(v1), PropV::Or(v2)) => simplify_or_v(v1 + v2, None),
            (PropV::Or(vel), _) => if is_lit(q) || q is And { simplify_or_v(vel.push(q), None) } else {
                simplify_or_v(seq![p, q], None)
            },
            (_, PropV::Or(vel)) => if is_lit(p) { simplify_or_v(vel.push(p), None) } else {
                simplify_or_v(seq![p, q], None)
            },
            _ => simplify_or_v(seq![p, q], None),
        }
    }
}

/// A vector holding `a` and then `b`.
fn pair_of(a: Prop, b: Prop) -> (r: Vec<Prop>)
    ensures
        props_view(r) == seq![a@, b@],
{
    let mut r: Vec<Prop> = Vec::new();
    r.push(a);
    r.push(b);
    assert(props_view(r) =~= seq![a@, b@]);
    r
}

fn push_prop(v: Vec<Prop>, p: Prop) -> (r: Vec<Prop>)
    ensures
        props_view(r) == props_view(v).push(p@),
{
    let mut v = v;
    let ghost old_v = props_view(v);
    v.push(p);
    assert(props_view(v) =~= old_v.push(p@));
    v
}

fn append_props(v: Vec<Prop>, w: Vec<Prop>) -> (r: Vec<Prop>)
    ensures
        props_view(r) == props_view(v) + props_view(w),
{
    let mut v = v;
    let mut w = w;
    let ghost pv = props_view(v);
    let ghost pw = props_view(w);
    v.append(&mut w);
    assert(props_view(v) =~= pv + pw);
    v
}

/// Each of `vel` conjoined with `q`, then the simplified disjunction.
fn conj_each(vel: &Vec<Prop>, q: &Prop) -> (r: Prop)
    requires
        !(q@ is Or),
    ensures
        r@ == conj_or(props_view(*vel), q@),
    decreases max_height(props_view(*vel)) + 1 + height(q@), 0nat, 0nat,
{
    let ghost vs = props_view(*vel);
    let mut out: Vec<Prop> = Vec::new();
    let mut i: usize = 0;
    while i < vel.len()
        invariant
            i <= vel.len(),
            vs == props_view(*vel),
            !(q@ is Or),
            props_view(out) == conj_map(vs.take(i as int), q@),
        decreases vel.len() - i,
    {
        proof {
            assert(vs[i as int] == view_prop(vel@[i as int]));
            lemma_max_height(vs, i as int);
        }
        let x = vel[i].clone_prop();
        let c = x.conj(q.clone_prop());
        let ghost old_out = props_view(out);
        out.push(c);
        proof {
            let t1 = vs.take(i + 1);
            assert(t1.drop_last() =~= vs.take(i as int));
            assert(t1.last() == vs[i as int]);
            assert(props_view(out) =~= old_out.push(conj_v(vs[i as int], q@)));
            assert(max_height(t1) <= max_height(vs)) by {
                lemma_max_height_take(vs, i + 1);
            }
        }
        i += 1;
    }
    proof {
        assert(vs.take(vel.len() as int) =~= vs);
    }
    simplify_or(out, None)
}

impl Prop {
    /// `self & other`: the conjunction, distributed over a disjunction and
    /// simplified without a guard. Two disjunctions are not conjoined.
    pub fn conj(self, other: Prop) -> (r: Prop)
        requires
            !(self@ is Or && other@ is Or),
        ensures
            r@ == conj_v(self@, other@),
        decreases height(self@) + height(other@), 1nat, 0nat,
    {
        match (self, other) {
            (Prop::False, _) => Prop::False,
            (_, Prop::False) => Prop::False,
            (p, Prop::True) => p,
            (Prop::True, q) => q,
            (Prop::And(et), Prop::And(et2)) => simplify_and(append_props(et, et2), None),
            (Prop::And(et), Prop::Or(vel)) => {
                let p = Prop::And(et);
                proof {
                    assert(height(view_prop(p)) >= 1);
                }
                conj_each(&vel, &p)
            },
            (Prop::And(et), q) => simplify_and(push_prop(et, q), None),
            (Prop::Or(vel), Prop::And(et)) => {
                let q = Prop::And(et);
                conj_each(&vel, &q)
            },
            (p, Prop::And(et)) => simplify_and(push_prop(et, p), None),
            (Prop::Or(vel), q) => conj_each(&vel, &q),
            (p, Prop::Or(vel)) => conj_each(&vel, &p),
            (p, q) => simplify_and(pair_of(p, q), None),
        }
    }

    /// `self | other`: the disjunction, simplified without a guard.
    pub fn disj(self, other: Prop) -> (r: Prop)
        ensures
            r@ == disj_v(self@, other@),
    {
        match (self, other) {
            (_, Prop::True) => Prop::True,
            (Prop::True, _) => Prop::True,
            (p, Prop::False) => p,
            (Prop::False, q) => q,
            (Prop::Or(v1), Prop::Or(v2)) => simplify_or(append_props(v1, v2), None),
            (Prop::Or(vel), Prop::And(et)) => simplify_or(push_prop(vel, Prop::And(et)), None),
            (Prop::Or(vel), q) => simplify_or(push_prop(vel, q), None),
            (Prop::And(et), Prop::Or(vel)) => simplify_or(pair_of(Prop::And(et), Prop::Or(vel)), None),
            (p, Prop::Or(vel)) => simplify_or(push_prop(vel, p), None),
            (p, q) => simplify_or(pair_of(p, q), None),
        }
    }
}


impl vstd::std_specs::ops::NotSpecImpl for Prop {
    open spec fn obeys_not_spec() -> bool {
        false
    }

    open spec fn not_req(self) -> bool {
        true
    }

    open spec fn not_spec(self) -> Prop {
        vstd::pervasive::arbitrary()
    }
}

impl vstd::std_specs::ops::BitAndSpecImpl for Prop {
    open spec fn obeys_bitand_spec() -> bool {
        false
    }

    /// Two disjunctions are not conjoined.
    open spec fn bitand_req(self, rhs: Prop) -> bool {
        !(self matches Prop::Or(_) && rhs matches Prop::Or(_))
    }

    open spec fn bitand_spec(self, rhs: Prop) -> Prop {
        vstd::pervasive::arbitrary()
    }
}

impl vstd::std_specs::ops::BitOrSpecImpl for Prop {
    open spec fn obeys_bitor_spec() -> bool {
        false
    }

    open spec fn bitor_req(self, rhs: Prop) -> bool {
        true
    }

    open spec fn bitor_spec(self, rhs: Prop) -> Prop {
        vstd::pervasive::arbitrary()
    }
}

impl core::ops::Not for Prop {
    type Output = Prop;

    fn not(self) -> (r: Prop)
        ensures
            r@ == negate_v(self@),
    {
        self.negated()
    }
}

impl core::ops::BitAnd for Prop {
    type Output = Prop;

    fn bitand(self, rhs: Prop) -> (r: Prop)
        ensures
            r@ == conj_v(self@, rhs@),
    {
        self.conj(rhs)
    }
}

impl core::ops::BitOr for Prop {
    type Output = Prop;

    fn bitor(self, rhs: Prop) -> (r: Prop)
        ensures
            r@ == disj_v(self@, rhs@),
    {
        self.disj(rhs)
    }
}


/// Each of `xs` simplified under `g`.
pub open spec fn simplified_all(xs: Seq<PropV>, g: GuardV) -> Seq<PropV>
    decreases xs,
{
    Seq::new(xs.len(), |i: int| if 0 <= i < xs.len() { simplify_v(xs[i], g) } else { PropV::True })
}

/// `ys` without its `True` elements.
pub open spec fn drop_true(ys: Seq<PropV>) -> Seq<PropV>
    decreases ys.len(),
{
    if ys.len() == 0 {
        ys
    } else if ys.last() is True {
        drop_true(ys.drop_last())
    } else {
        drop_true(ys.drop_last()).push(ys.last())
    }
}

/// `ys` without its `False` elements.
pub open spec fn drop_false(ys: Seq<PropV>) -> Seq<PropV>
    decreases ys.len(),
{
    if ys.len() == 0 {
        ys
    } else if ys.last() is False {
        drop_false(ys.drop_last())
    } else {
        drop_false(ys.drop_last()).push(ys.last())
    }
}

/// `p` simplified under the guard `g`: symbols known to be true or false
/// are replaced, and conjunctions and disjunctions are simplified.
pub open spec fn simplify_v(p: PropV, g: GuardV) -> PropV
    decreases p,
{
    match p {
        PropV::True => p,
        PropV::False => p,
        PropV::Var(v) => g.lookup_v(v),
        PropV::Not(v) => negate_v(g.lookup_v(v)),
        PropV::And(xs) => {
            let ys = simplified_all(xs, g);
            if exists|i: int| 0 <= i < ys.len() && ys[i] is False {
                PropV::False
            } else {
                simplify_and_v(drop_true(ys), Some(g))
            }
        },
        PropV::Or(xs) => {
            let ys = simplified_all(xs, g);
            if exists|i: int| 0 <= i < ys.len() && ys[i] is True {
                PropV::True
            } else {
                simplify_or_v(drop_false(ys), Some(g))
            }
        },
    }
}

/// The conjunction of `xs`, each simplified under `guard`, then simplified.
fn simplify_conjuncts(xs: &Vec<Prop>, guard: &Guard) -> (r: Prop)
    ensures
        r@ == simplify_v(PropV::And(props_view(*xs)), guard@),
    decreases xs,
{
    let ghost vs = props_view(*xs);
    let ghost ys = simplified_all(vs, guard@);
    let mut et: Vec<Prop> = Vec::new();
    let mut i: usize = 0;
    while i < xs.len()
        invariant
            i <= xs.len(),
            vs == props_view(*xs),
            ys == simplified_all(vs, guard@),
            forall|j: int| 0 <= j < i ==> !(ys[j] is False),
            props_view(et) == drop_true(ys.take(i as int)),
        decreases xs.len() - i,
    {
        proof {
            assert(vs[i as int] == view_prop(xs@[i as int]));
            let t1 = ys.take(i + 1);
            assert(t1.drop_last() =~= ys.take(i as int));
            assert(t1.last() == ys[i as int]);
        }
        let x = xs[i].simplify(guard);
        match x {
            Prop::True => {},
            Prop::False => {
                proof {
                    assert(ys[i as int] is False);
                }
                return Prop::False;
            },
            v => {
                let ghost old_et = props_view(et);
                et.push(v);
                proof {
                    assert(props_view(et) =~= old_et.push(ys[i as int]));
                }
            },
        }
        i += 1;
    }
    proof {
        assert(ys.take(xs.len() as int) =~= ys);
    }
    simplify_and(et, Some(guard))
}

/// The disjunction of `xs`, each simplified under `guard`, then simplified.
fn simplify_disjuncts(xs: &Vec<Prop>, guard: &Guard) -> (r: Prop)
    ensures
        r@ == simplify_v(PropV::Or(props_view(*xs)), guard@),
    decreases xs,
{
    let ghost vs = props_view(*xs);
    let ghost ys = simplified_all(vs, guard@);
    let mut vel: Vec<Prop> = Vec::new();
    let mut i: usize = 0;
    while i < xs.len()
        invariant
            i <= xs.len(),
            vs == props_view(*xs),
            ys == simplified_all(vs, guard@),
            forall|j: int| 0 <= j < i ==> !(ys[j] is True),
            props_view(vel) == drop_false(ys.take(i as int)),
        decreases xs.len() - i,
    {
        proof {
            assert(vs[i as int] == view_prop(xs@[i as int]));
            let t1 = ys.take(i + 1);
            assert(t1.drop_last() =~= ys.take(i as int));
            assert(t1.last() == ys[i as int]);
        }
        let x = xs[i].simplify(guard);
        match x {
            Prop::False => {},
            Prop::True => {
                proof {
                    assert(ys[i as int] is True);
                }
                return Prop::True;
            },
            v => {
                let ghost old_vel = props_view(vel);
                vel.push(v);
                proof {
                    assert(props_view(vel) =~= old_vel.push(ys[i as int]));
                }
            },
        }
        i += 1;
    }
    proof {
        assert(ys.take(xs.len() as int) =~= ys);
    }
    simplify_or(vel, Some(guard))
}

impl Prop {
    /// `self` simplified under `guard`: symbols known to be true or false
    /// are replaced, and conjunctions and disjunctions are simplified.
    pub fn simplify(&self, guard: &Guard) -> (r: Prop)
        ensures
            r@ == simplify_v(self@, guard@),
        decreases self,
    {
        match self {
            Prop::True => Prop::True,
            Prop::False => Prop::False,
            Prop::Var(v) => guard.lookup(v),
            Prop::Not(v) => guard.lookup(v).negated(),
            Prop::And(xs) => simplify_conjuncts(xs, guard),
            Prop::Or(xs) => simplify_disjuncts(xs, guard),
        }
    }
}

/// The conjunction of what `g` knows: its true names, its false names, and
/// the random arm being checked.
pub open spec fn guard_terms(g: GuardV) -> Seq<PropV> {
    g.truthy.map_values(|e: (Seq<char>, Set<u32>)| PropV::Var(SymbolV::Name(e.0)))
        + g.falsy.map_values(|e: (Seq<char>, Set<u32>)| PropV::Not(SymbolV::Name(e.0)))
        + match g.block_arm {
            Some((b, a, c)) => seq![PropV::Var(SymbolV::Random { block: b, arm: a, chance: c })],
            None => Seq::empty(),
        }
}

/// The proposition that holds under the guard `g`, simplified under it.
pub open spec fn guard_prop(g: GuardV) -> PropV {
    simplify_and_v(guard_terms(g), Some(g))
}

impl Guard {
    /// The proposition that holds under this guard, simplified under it.
    pub fn get_prop(&self) -> (r: Prop)
        ensures
            r@ == guard_prop(self@),
    {
        let mut et: Vec<Prop> = Vec::new();
        let mut i: usize = 0;
        while i < self.truthy.len()
            invariant
                i <= self.truthy.len(),
                et@.len() == i,
                forall|k: int| 0 <= k < i ==> view_prop(#[trigger] et@[k]) == PropV::Var(SymbolV::Name(self.truthy@[k].0@)),
            decreases self.truthy.len() - i,
        {
            et.push(Prop::Var(Symbol::Name(self.truthy[i].0.clone())));
            i += 1;
        }
        proof {
            assert(props_view(et) =~= self.truthy_v().map_values(|e: (Seq<char>, Set<u32>)| PropV::Var(SymbolV::Name(e.0))));
        }
        let ghost t_part = props_view(et);
        let mut j: usize = 0;
        while j < self.falsy.len()
            invariant
                j <= self.falsy.len(),
                et@.len() == t_part.len() + j,
                forall|k: int| 0 <= k < t_part.len() ==> view_prop(#[trigger] et@[k]) == t_part[k],
                forall|k: int| 0 <= k < j ==> view_prop(#[trigger] et@[t_part.len() + k]) == PropV::Not(SymbolV::Name(self.falsy@[k].0@)),
            decreases self.falsy.len() - j,
        {
            et.push(Prop::Not(Symbol::Name(self.falsy[j].0.clone())));
            j += 1;
        }
        proof {
            let rhs = t_part + self.falsy_v().map_values(|e: (Seq<char>, Set<u32>)| PropV::Not(SymbolV::Name(e.0)));
            assert forall|k: int| 0 <= k < props_view(et).len() implies props_view(et)[k] == rhs[k] by {
                if k >= t_part.len() {
                    let k2 = k - t_part.len();
                    assert(view_prop(et@[t_part.len() + k2]) == PropV::Not(SymbolV::Name(self.falsy@[k2].0@)));
                } else {
                    assert(view_prop(et@[k]) == t_part[k]);
                }
            }
            assert(props_view(et) =~= rhs);
        }
        let ghost tf_part = props_view(et);
        if let Some((block, arm, chance)) = self.block_arm {
            et.push(Prop::from_block(block, arm, chance));
            proof {
                assert(props_view(et) =~= guard_terms(self@));
            }
        } else {
            proof {
                assert(props_view(et) =~= guard_terms(self@));
            }
        }
        simplify_and(et, Some(self))
    }
}

/// A collection of terms that can be combined into one simplified
/// proposition.
pub trait Simplifiable: Sized {
    /// The terms, as propositions.
    spec fn terms_v(&self) -> Seq<PropV>;

    /// The simplified conjunction of the terms (see [`simplify_and_v`]).
    fn simplify_and(self, guard: Option<&Guard>) -> (r: Prop)
        ensures
            r@ == simplify_and_v(self.terms_v(), gv(guard));

    /// The simplified disjunction of the terms (see [`simplify_or_v`]).
    fn simplify_or(self, guard: Option<&Guard>) -> (r: Prop)
        ensures
            r@ == simplify_or_v(self.terms_v(), gv(guard));
}

impl Simplifiable for Vec<Prop> {
    open spec fn terms_v(&self) -> Seq<PropV> {
        props_view(*self)
    }

    fn simplify_and(self, guard: Option<&Guard>) -> (r: Prop) {
        simplify_and(self, guard)
    }

    fn simplify_or(self, guard: Option<&Guard>) -> (r: Prop) {
        simplify_or(self, guard)
    }
}

} // verus!
