use std::collections::HashSet;
use vstd::prelude::*;
use crate::ast::{Identifier, Type};
use crate::guard::{Guard, GuardV};
use crate::id_info::{IdInfo, IdInfoV};
use crate::names::{first_at, pos_of, unseen, lemma_first_at, lemma_pos_of, lemma_unseen_insert, lemma_unseen_mono};
use crate::strings::{str_eq, string_from};
use crate::prop::{Prop, PropV, Symbol, SymbolV, negate_v, is_singleton_v};
use crate::rms_error::{RmsError, RmsErrorV, error_code_v};
use crate::simplify::{height, max_height, simplify_and_v, simplify_or_v, simplify_v};

verus! {

/// Whether a name is defined at a point of a script.
#[derive(Debug, Clone, Copy, PartialEq, Eq, PartialOrd, Ord, Structural)]
pub enum Liveness {
    Live,
    Dead,
    Maybe,
}

/// Live and dead swapped; maybe stays maybe.
pub open spec fn invert_v(l: Liveness) -> Liveness {
    match l {
        Liveness::Live => Liveness::Dead,
        Liveness::Dead => Liveness::Live,
        Liveness::Maybe => Liveness::Maybe,
    }
}

impl Liveness {
    /// Live and dead swapped; maybe stays maybe.
    pub fn invert(self) -> (r: Liveness)
        ensures
            r == invert_v(self),
    {
        match self {
            Liveness::Live => Liveness::Dead,
            Liveness::Dead => Liveness::Live,
            Liveness::Maybe => Liveness::Maybe,
        }
    }

    /// The name may be defined (live or maybe).
    pub fn is_maybe_live(&self) -> (r: bool)
        ensures
            r == (*self is Live || *self is Maybe),
    {
        match self {
            Liveness::Live | Liveness::Maybe => true,
            Liveness::Dead => false,
        }
    }
}

/// A list of defined names, by their values.
pub open spec fn ids_view(l: Seq<(Identifier, IdInfo)>) -> Seq<(Seq<char>, IdInfoV)> {
    l.map_values(|e: (Identifier, IdInfo)| (e.0@, e.1@))
}

/// Changing what is known of one name changes only that entry of the view.
proof fn lemma_ids_view_update(l: Seq<(Identifier, IdInfo)>, k: int)
    requires
        0 <= k < l.len(),
    ensures
        forall|x: IdInfo| #[trigger] ids_view(l.update(k, (l[k].0, x))) == ids_view(l).update(k, (l[k].0@, x@)),
{
    assert forall|x: IdInfo| #[trigger] ids_view(l.update(k, (l[k].0, x))) == ids_view(l).update(k, (l[k].0@, x@)) by {
        assert(ids_view(l.update(k, (l[k].0, x))) =~= ids_view(l).update(k, (l[k].0@, x@)));
    }
}


/// The names of a list of defined names.
pub open spec fn info_names(l: Seq<(Seq<char>, IdInfoV)>) -> Seq<Seq<char>> {
    l.map_values(|e: (Seq<char>, IdInfoV)| e.0)
}

/// What a list of defined names knows of the name `n`.
pub open spec fn info_of(l: Seq<(Seq<char>, IdInfoV)>, n: Seq<char>) -> Option<IdInfoV> {
    if info_names(l).contains(n) {
        Some(l[pos_of(info_names(l), n)].1)
    } else {
        None
    }
}

/// The set of names held by a list of identifiers.
pub open spec fn id_set(v: Seq<Identifier>) -> Set<Seq<char>> {
    v.map_values(|i: Identifier| i@).to_set()
}

/// The position of `id` in `l`, if it is there.
pub fn find_info(l: &Vec<(Identifier, IdInfo)>, id: &Identifier) -> (r: Option<usize>)
    ensures
        match r {
            Some(k) => first_at(info_names(ids_view(l@)), id@, k as int) && info_of(ids_view(l@), id@) == Some(l@[k as int].1@),
            None => !info_names(ids_view(l@)).contains(id@) && info_of(ids_view(l@), id@) is None,
        },
{
    let mut i: usize = 0;
    while i < l.len()
        invariant
            i <= l.len(),
            forall|j: int| 0 <= j < i ==> (#[trigger] info_names(ids_view(l@))[j]) != id@,
        decreases l.len() - i,
    {
        if l[i].0.same(id) {
            proof {
                assert(first_at(info_names(ids_view(l@)), id@, i as int));
                lemma_first_at(info_names(ids_view(l@)), id@, i as int);
            }
            return Some(i);
        }
        i += 1;
    }
    proof {
        if info_names(ids_view(l@)).contains(id@) {
            let k = choose|k: int| 0 <= k < info_names(ids_view(l@)).len() && info_names(ids_view(l@))[k] == id@;
            assert(info_names(ids_view(l@))[k] != id@);
        }
    }
    None
}

/// `id` is in `seen`.
fn seen_holds(seen: &Vec<Identifier>, id: &Identifier) -> (r: bool)
    ensures
        r == id_set(seen@).contains(id@),
{
    let mut i: usize = 0;
    while i < seen.len()
        invariant
            i <= seen.len(),
            forall|j: int| 0 <= j < i ==> (#[trigger] seen@[j])@ != id@,
        decreases seen.len() - i,
    {
        if seen[i].same(id) {
            proof {
                assert(seen@.map_values(|i: Identifier| i@)[i as int] == id@);
            }
            return true;
        }
        i += 1;
    }
    proof {
        if id_set(seen@).contains(id@) {
            let ms = seen@.map_values(|i: Identifier| i@);
            let k = choose|k: int| 0 <= k < ms.len() && ms[k] == id@;
            assert(seen@[k]@ == id@);
        }
    }
    false
}

proof fn lemma_id_set_push(v: Seq<Identifier>, x: Identifier)
    ensures
        id_set(v.push(x)) == id_set(v).insert(x@),
{
    let m = v.map_values(|i: Identifier| i@);
    assert(v.push(x).map_values(|i: Identifier| i@) =~= m.push(x@));
    m.lemma_push_to_set_commute(x@);
}

// ---------------------------------------------------------------------
// Making a name true or false, and what follows from it.

/// The guard after the name `v` is made true, followed by what its own
/// proposition then says. A name met again on this path is made true but
/// not followed again.
pub open spec fn tr_name(ids: Seq<(Seq<char>, IdInfoV)>, g: GuardV, seen: Set<Seq<char>>, v: Seq<char>) -> GuardV
    decreases unseen(info_names(ids), seen), 0nat, 0nat,
{
    let g1 = g.with_name_true(v, g.current_block);
    match info_of(ids, v) {
        Some(info) => if !seen.contains(v) {
            proof {
                lemma_unseen_insert(info_names(ids), seen, v);
            }
            tr_prop(ids, g1, seen.insert(v), info.guard)
        } else {
            g1
        },
        None => g1,
    }
}

/// The guard after the name `v` is made false, followed by what its own
/// proposition then says.
pub open spec fn fl_name(ids: Seq<(Seq<char>, IdInfoV)>, g: GuardV, seen: Set<Seq<char>>, v: Seq<char>) -> GuardV
    decreases unseen(info_names(ids), seen), 0nat, 0nat,
{
    let g1 = g.with_name_false(v, g.current_block);
    match info_of(ids, v) {
        Some(info) => if !seen.contains(v) {
            proof {
                lemma_unseen_insert(info_names(ids), seen, v);
            }
            fl_prop(ids, g1, seen.insert(v), info.guard)
        } else {
            g1
        },
        None => g1,
    }
}

/// The guard after the proposition `p` is known to be true: each conjunct
/// is made true; a disjunction tells nothing.
pub open spec fn tr_prop(ids: Seq<(Seq<char>, IdInfoV)>, g: GuardV, seen: Set<Seq<char>>, p: PropV) -> GuardV
    decreases unseen(info_names(ids), seen), height(p) + 1, 0nat,
{
    match p {
        PropV::Var(SymbolV::Random { block, arm, chance }) => g.with_chosen_arm(block, arm),
        PropV::Var(SymbolV::Name(n)) => tr_name(ids, g, seen, n),
        PropV::Not(SymbolV::Random { block, arm, chance }) => g.with_falsy_arm(block, arm, chance),
        PropV::Not(SymbolV::Name(n)) => fl_name(ids, g, seen, n),
        PropV::And(et) => tr_seq(ids, g, seen, et),
        _ => g,
    }
}

/// The guard after the proposition `p` is known to be false: each
/// disjunct is made false; a conjunction tells nothing.
pub open spec fn fl_prop(ids: Seq<(Seq<char>, IdInfoV)>, g: GuardV, seen: Set<Seq<char>>, p: PropV) -> GuardV
    decreases unseen(info_names(ids), seen), height(p) + 1, 0nat,
{
    match p {
        PropV::Var(SymbolV::Random { block, arm, chance }) => g.with_falsy_arm(block, arm, chance),
        PropV::Var(SymbolV::Name(n)) => fl_name(ids, g, seen, n),
        PropV::Not(SymbolV::Random { block, arm, chance }) => g.with_chosen_arm(block, arm),
        PropV::Not(SymbolV::Name(n)) => tr_name(ids, g, seen, n),
        PropV::Or(vel) => fl_seq(ids, g, seen, vel),
        _ => g,
    }
}

pub open spec fn tr_seq(ids: Seq<(Seq<char>, IdInfoV)>, g: GuardV, seen: Set<Seq<char>>, xs: Seq<PropV>) -> GuardV
    decreases unseen(info_names(ids), seen), max_height(xs) + 1, xs.len(),
{
    if xs.len() == 0 {
        g
    } else {
        tr_prop(ids, tr_seq(ids, g, seen, xs.drop_last()), seen, xs.last())
    }
}

pub open spec fn fl_seq(ids: Seq<(Seq<char>, IdInfoV)>, g: GuardV, seen: Set<Seq<char>>, xs: Seq<PropV>) -> GuardV
    decreases unseen(info_names(ids), seen), max_height(xs) + 1, xs.len(),
{
    if xs.len() == 0 {
        g
    } else {
        fl_prop(ids, fl_seq(ids, g, seen, xs.drop_last()), seen, xs.last())
    }
}

fn truthify_in(guard: &mut Guard, ids: &Vec<(Identifier, IdInfo)>, v: &Identifier, seen: &mut Vec<Identifier>)
    ensures
        final(guard)@ == tr_name(ids_view(ids@), old(guard)@, id_set(old(seen)@), v@),
        final(seen)@ == old(seen)@,
    decreases unseen(info_names(ids_view(ids@)), id_set(old(seen)@)), 0nat, 0nat,
{
    let cb = guard.current_block;
    guard.truthify(cb, v.0.as_str());
    match find_info(ids, v) {
        Some(k) => {
            if !seen_holds(seen, v) {
                let p = ids[k].1.guard.clone_prop();
                proof {
                    lemma_id_set_push(seen@, *v);
                    lemma_unseen_insert(info_names(ids_view(ids@)), id_set(seen@), v@);
                }
                seen.push(v.clone());
                proof {
                    lemma_id_set_push(old(seen)@, seen@.last());
                }
                truthify_prop_in(guard, ids, &p, seen);
                seen.pop();
                proof {
                    assert(seen@ =~= old(seen)@);
                }
            }
        },
        None => {},
    }
}

fn falsify_in(guard: &mut Guard, ids: &Vec<(Identifier, IdInfo)>, v: &Identifier, seen: &mut Vec<Identifier>)
    ensures
        final(guard)@ == fl_name(ids_view(ids@), old(guard)@, id_set(old(seen)@), v@),
        final(seen)@ == old(seen)@,
    decreases unseen(info_names(ids_view(ids@)), id_set(old(seen)@)), 0nat, 0nat,
{
    let cb = guard.current_block;
    guard.falsify(cb, v.0.as_str());
    match find_info(ids, v) {
        Some(k) => {
            if !seen_holds(seen, v) {
                let p = ids[k].1.guard.clone_prop();
                proof {
                    lemma_unseen_insert(info_names(ids_view(ids@)), id_set(seen@), v@);
                }
                seen.push(v.clone());
                proof {
                    lemma_id_set_push(old(seen)@, seen@.last());
                }
                falsify_prop_in(guard, ids, &p, seen);
                seen.pop();
                proof {
                    assert(seen@ =~= old(seen)@);
                }
            }
        },
        None => {},
    }
}

fn truthify_prop_in(guard: &mut Guard, ids: &Vec<(Identifier, IdInfo)>, p: &Prop, seen: &mut Vec<Identifier>)
    ensures
        final(guard)@ == tr_prop(ids_view(ids@), old(guard)@, id_set(old(seen)@), p@),
        final(seen)@ == old(seen)@,
    decreases unseen(info_names(ids_view(ids@)), id_set(old(seen)@)), height(p@) + 1, 0nat,
{
    match p {
        Prop::Var(Symbol::Random { block, arm, .. }) => guard.choose_arm(*block, *arm),
        Prop::Var(Symbol::Name(id)) => truthify_in(guard, ids, id, seen),
        Prop::Not(Symbol::Random { block, arm, chance }) => guard.rule_out_arm(*block, *arm, *chance),
        Prop::Not(Symbol::Name(id)) => falsify_in(guard, ids, id, seen),
        Prop::And(et) => truthify_all_in(guard, ids, et, seen),
        _ => {},
    }
}

fn falsify_prop_in(guard: &mut Guard, ids: &Vec<(Identifier, IdInfo)>, p: &Prop, seen: &mut Vec<Identifier>)
    ensures
        final(guard)@ == fl_prop(ids_view(ids@), old(guard)@, id_set(old(seen)@), p@),
        final(seen)@ == old(seen)@,
    decreases unseen(info_names(ids_view(ids@)), id_set(old(seen)@)), height(p@) + 1, 0nat,
{
    match p {
        Prop::Var(Symbol::Random { block, arm, chance }) => guard.rule_out_arm(*block, *arm, *chance),
        Prop::Var(Symbol::Name(id)) => falsify_in(guard, ids, id, seen),
        Prop::Not(Symbol::Random { block, arm, .. }) => guard.choose_arm(*block, *arm),
        Prop::Not(Symbol::Name(id)) => truthify_in(guard, ids, id, seen),
        Prop::Or(vel) => falsify_all_in(guard, ids, vel, seen),
        _ => {},
    }
}

fn truthify_all_in(guard: &mut Guard, ids: &Vec<(Identifier, IdInfo)>, xs: &Vec<Prop>, seen: &mut Vec<Identifier>)
    ensures
        final(guard)@ == tr_seq(ids_view(ids@), old(guard)@, id_set(old(seen)@), crate::prop::props_view(*xs)),
        final(seen)@ == old(seen)@,
    decreases unseen(info_names(ids_view(ids@)), id_set(old(seen)@)), max_height(crate::prop::props_view(*xs)) + 1, xs.len() + 1,
{
    let ghost vs = crate::prop::props_view(*xs);
    let ghost g0 = guard@;
    let mut i: usize = 0;
    while i < xs.len()
        invariant
            i <= xs.len(),
            vs == crate::prop::props_view(*xs),
            seen@ == old(seen)@,
            guard@ == tr_seq(ids_view(ids@), g0, id_set(seen@), vs.take(i as int)),
        decreases xs.len() - i,
    {
        proof {
            let t1 = vs.take(i + 1);
            assert(t1.drop_last() =~= vs.take(i as int));
            assert(t1.last() == vs[i as int]);
            assert(vs[i as int] == crate::prop::view_prop(xs@[i as int]));
            crate::simplify::lemma_max_height(vs, i as int);
        }
        truthify_prop_in(guard, ids, &xs[i], seen);
        i += 1;
    }
    proof {
        assert(vs.take(xs.len() as int) =~= vs);
    }
}

fn falsify_all_in(guard: &mut Guard, ids: &Vec<(Identifier, IdInfo)>, xs: &Vec<Prop>, seen: &mut Vec<Identifier>)
    ensures
        final(guard)@ == fl_seq(ids_view(ids@), old(guard)@, id_set(old(seen)@), crate::prop::props_view(*xs)),
        final(seen)@ == old(seen)@,
    decreases unseen(info_names(ids_view(ids@)), id_set(old(seen)@)), max_height(crate::prop::props_view(*xs)) + 1, xs.len() + 1,
{
    let ghost vs = crate::prop::props_view(*xs);
    let ghost g0 = guard@;
    let mut i: usize = 0;
    while i < xs.len()
        invariant
            i <= xs.len(),
            vs == crate::prop::props_view(*xs),
            seen@ == old(seen)@,
            guard@ == fl_seq(ids_view(ids@), g0, id_set(seen@), vs.take(i as int)),
        decreases xs.len() - i,
    {
        proof {
            let t1 = vs.take(i + 1);
            assert(t1.drop_last() =~= vs.take(i as int));
            assert(t1.last() == vs[i as int]);
            assert(vs[i as int] == crate::prop::view_prop(xs@[i as int]));
            crate::simplify::lemma_max_height(vs, i as int);
        }
        falsify_prop_in(guard, ids, &xs[i], seen);
        i += 1;
    }
    proof {
        assert(vs.take(xs.len() as int) =~= vs);
    }
}


// ---------------------------------------------------------------------
// Replacing names by what is known of them.

/// What the name `n` stands for: `False` when it was already met
/// (`seen`), `True` or `False` when the guard knows it, the name itself
/// when it is not defined, else its own proposition with names replaced
/// in turn, kept only when that is a single symbol or constant. Returns
/// the names met: a name that the guard decides is not counted as met,
/// and `n` is no longer among them once its proposition was used.
pub open spec fn subst_name(
    ids: Seq<(Seq<char>, IdInfoV)>,
    groups: Seq<(Seq<char>, IdInfoV)>,
    g: GuardV,
    seen: Set<Seq<char>>,
    n: Seq<char>,
    group: bool,
) -> (PropV, Set<Seq<char>>)
    decreases (if group { 1nat } else { 0nat }), unseen(info_names(ids), seen), 0nat, 0nat,
{
    if seen.contains(n) {
        (PropV::False, seen)
    } else if g.is_true_v(n) {
        (PropV::True, seen)
    } else if g.is_false_v(n) {
        (PropV::False, seen)
    } else {
        let s1 = seen.insert(n);
        {
            match info_of(if group { groups } else { ids }, n) {
                None => (PropV::Var(SymbolV::Name(n)), s1),
                Some(info) => {
                    proof {
                        if !group {
                            lemma_unseen_insert(info_names(ids), seen, n);
                        }
                    }
                    let (r, s2) = subst(ids, groups, g, s1, info.guard, false);
                    (if is_singleton_v(r) { r } else { PropV::Var(SymbolV::Name(n)) }, s2.remove(n))
                },
            }
        }
    }
}

/// `p` with each name replaced by what it stands for (see [`subst_name`])
/// and each random arm by what the guard knows of it, then simplified.
pub open spec fn subst(
    ids: Seq<(Seq<char>, IdInfoV)>,
    groups: Seq<(Seq<char>, IdInfoV)>,
    g: GuardV,
    seen: Set<Seq<char>>,
    p: PropV,
    group: bool,
) -> (PropV, Set<Seq<char>>)
    decreases (if group { 1nat } else { 0nat }), unseen(info_names(ids), seen), height(p) + 1, 0nat,
{
    match p {
        PropV::Var(SymbolV::Name(n)) => subst_name(ids, groups, g, seen, n, group),
        PropV::Not(SymbolV::Name(n)) => {
            let (r, s) = subst_name(ids, groups, g, seen, n, group);
            (negate_v(r), s)
        },
        PropV::Var(v) => (g.lookup_v(v), seen),
        PropV::Not(v) => (negate_v(g.lookup_v(v)), seen),
        PropV::And(et) => {
            let (rs, s) = subst_seq(ids, groups, g, seen, et);
            (simplify_and_v(rs, Some(g)), s)
        },
        PropV::Or(vel) => {
            let (rs, s) = subst_seq(ids, groups, g, seen, vel);
            (simplify_or_v(rs, Some(g)), s)
        },
        _ => (p, seen),
    }
}

/// Each of `xs` with names replaced, in order, the names met carried from
/// one to the next.
pub open spec fn subst_seq(
    ids: Seq<(Seq<char>, IdInfoV)>,
    groups: Seq<(Seq<char>, IdInfoV)>,
    g: GuardV,
    seen: Set<Seq<char>>,
    xs: Seq<PropV>,
) -> (Seq<PropV>, Set<Seq<char>>)
    decreases 0nat, unseen(info_names(ids), seen), max_height(xs) + 1, xs.len(),
{
    if xs.len() == 0 {
        (Seq::empty(), seen)
    } else {
        let (rs, s1) = subst_seq(ids, groups, g, seen, xs.drop_last());
        if seen.subset_of(s1) {
            proof {
                lemma_unseen_mono(info_names(ids), seen, s1);
            }
            let (r, s2) = subst(ids, groups, g, s1, xs.last(), false);
            (rs.push(r), s2)
        } else {
            (rs, s1)
        }
    }
}

/// `seen` without the name `id`.
fn forget(seen: &mut Vec<Identifier>, id: &Identifier)
    ensures
        id_set(final(seen)@) == id_set(old(seen)@).remove(id@),
{
    let ghost old_s = seen@;
    let mut kept: Vec<Identifier> = Vec::new();
    let mut i: usize = 0;
    while i < seen.len()
        invariant
            i <= seen.len(),
            seen@ == old_s,
            id_set(kept@) == id_set(old_s.take(i as int)).remove(id@),
        decreases seen.len() - i,
    {
        proof {
            assert(old_s.take(i + 1) =~= old_s.take(i as int).push(old_s[i as int]));
            lemma_id_set_push(old_s.take(i as int), old_s[i as int]);
        }
        if !seen[i].same(id) {
            let ghost old_kept = kept@;
            kept.push(seen[i].clone());
            proof {
                assert(kept@ == old_kept.push(kept@.last()));
                lemma_id_set_push(old_kept, kept@.last());
                assert(id_set(kept@) =~= id_set(old_s.take(i + 1)).remove(id@));
            }
        } else {
            proof {
                assert(id_set(kept@) =~= id_set(old_s.take(i + 1)).remove(id@));
            }
        }
        i += 1;
    }
    proof {
        assert(old_s.take(old_s.len() as int) =~= old_s);
    }
    *seen = kept;
}

/// The list of defined names to look a name up in.
pub open spec fn lookup_list(ids: Seq<(Seq<char>, IdInfoV)>, groups: Seq<(Seq<char>, IdInfoV)>, group: bool) -> Seq<(Seq<char>, IdInfoV)> {
    if group { groups } else { ids }
}


fn subst_name_in(
    ids: &Vec<(Identifier, IdInfo)>,
    groups: &Vec<(Identifier, IdInfo)>,
    guard: &Guard,
    seen: &mut Vec<Identifier>,
    id: &Identifier,
    group: bool,
) -> (r: Prop)
    ensures
        (r@, id_set(final(seen)@)) == subst_name(ids_view(ids@), ids_view(groups@), guard@, id_set(old(seen)@), id@, group),
        id_set(old(seen)@).subset_of(id_set(final(seen)@)),
    decreases (if group { 1nat } else { 0nat }), unseen(info_names(ids_view(ids@)), id_set(old(seen)@)), 0nat, 0nat,
{
    if seen_holds(seen, id) {
        return Prop::False;
    }
    if guard.is_true(id) {
        return Prop::True;
    }
    if guard.is_false(id) {
        return Prop::False;
    }
    let ghost s0 = id_set(seen@);
    seen.push(id.clone());
    proof {
        lemma_id_set_push(old(seen)@, seen@.last());
        assert(id_set(seen@) == s0.insert(id@));
    }
    let list = if group { groups } else { ids };
    match find_info(list, id) {
        None => Prop::Var(Symbol::Name(id.clone())),
        Some(k) => {
            proof {
                if !group {
                    lemma_unseen_insert(info_names(ids_view(ids@)), s0, id@);
                }
            }
            let r = subst_in(ids, groups, guard, seen, &list[k].1.guard, false);
            forget(seen, id);
            proof {
                assert(s0.subset_of(id_set(seen@)));
            }
            if r.is_singleton() {
                r
            } else {
                Prop::Var(Symbol::Name(id.clone()))
            }
        },
    }
}

fn subst_in(
    ids: &Vec<(Identifier, IdInfo)>,
    groups: &Vec<(Identifier, IdInfo)>,
    guard: &Guard,
    seen: &mut Vec<Identifier>,
    p: &Prop,
    group: bool,
) -> (r: Prop)
    ensures
        (r@, id_set(final(seen)@)) == subst(ids_view(ids@), ids_view(groups@), guard@, id_set(old(seen)@), p@, group),
        id_set(old(seen)@).subset_of(id_set(final(seen)@)),
    decreases (if group { 1nat } else { 0nat }), unseen(info_names(ids_view(ids@)), id_set(old(seen)@)), height(p@) + 1, 0nat,
{
    match p {
        Prop::True => Prop::True,
        Prop::False => Prop::False,
        Prop::Var(Symbol::Name(id)) => subst_name_in(ids, groups, guard, seen, id, group),
        Prop::Not(Symbol::Name(id)) => subst_name_in(ids, groups, guard, seen, id, group).negated(),
        Prop::Var(v) => guard.lookup(v),
        Prop::Not(v) => guard.lookup(v).negated(),
        Prop::And(et) => {
            let rs = subst_all_in(ids, groups, guard, seen, et);
            crate::simplify::simplify_and(rs, Some(guard))
        },
        Prop::Or(vel) => {
            let rs = subst_all_in(ids, groups, guard, seen, vel);
            crate::simplify::simplify_or(rs, Some(guard))
        },
    }
}

fn subst_all_in(
    ids: &Vec<(Identifier, IdInfo)>,
    groups: &Vec<(Identifier, IdInfo)>,
    guard: &Guard,
    seen: &mut Vec<Identifier>,
    xs: &Vec<Prop>,
) -> (r: Vec<Prop>)
    ensures
        (crate::prop::props_view(r), id_set(final(seen)@)) == subst_seq(ids_view(ids@), ids_view(groups@), guard@, id_set(old(seen)@), crate::prop::props_view(*xs)),
        id_set(old(seen)@).subset_of(id_set(final(seen)@)),
    decreases 0nat, unseen(info_names(ids_view(ids@)), id_set(old(seen)@)), max_height(crate::prop::props_view(*xs)) + 1, xs.len() + 1,
{
    let ghost vs = crate::prop::props_view(*xs);
    let ghost s0 = id_set(seen@);
    let mut out: Vec<Prop> = Vec::new();
    let mut i: usize = 0;
    while i < xs.len()
        invariant
            i <= xs.len(),
            vs == crate::prop::props_view(*xs),
            s0 == id_set(old(seen)@),
            s0.subset_of(id_set(seen@)),
            (crate::prop::props_view(out), id_set(seen@)) == subst_seq(ids_view(ids@), ids_view(groups@), guard@, s0, vs.take(i as int)),
        decreases xs.len() - i,
    {
        proof {
            let t1 = vs.take(i + 1);
            assert(t1.drop_last() =~= vs.take(i as int));
            assert(t1.last() == vs[i as int]);
            assert(vs[i as int] == crate::prop::view_prop(xs@[i as int]));
            crate::simplify::lemma_max_height(vs, i as int);
            lemma_unseen_mono(info_names(ids_view(ids@)), s0, id_set(seen@));
        }
        let r = subst_in(ids, groups, guard, seen, &xs[i], false);
        let ghost old_out = crate::prop::props_view(out);
        out.push(r);
        proof {
            assert(crate::prop::props_view(out) =~= old_out.push(r@));
        }
        i += 1;
    }
    proof {
        assert(vs.take(xs.len() as int) =~= vs);
    }
    out
}

/// Whether the name `n` is defined under the guard `g` (see [`TypeEnv::check_live`]).
pub open spec fn liveness_v(
    ids: Seq<(Seq<char>, IdInfoV)>,
    groups: Seq<(Seq<char>, IdInfoV)>,
    g: GuardV,
    n: Seq<char>,
    group: bool,
) -> Liveness {
    let vg = subst(ids, groups, g, Set::empty(), PropV::Var(SymbolV::Name(n)), group).0;
    match simplify_v(vg, g) {
        PropV::True => Liveness::Live,
        PropV::False => Liveness::Dead,
        PropV::Var(SymbolV::Name(m)) => if info_names(lookup_list(ids, groups, group)).contains(m) {
            Liveness::Maybe
        } else {
            Liveness::Dead
        },
        _ => Liveness::Maybe,
    }
}


// ---------------------------------------------------------------------
// The environment of a type check.

/// Returned by [`TypeEnv::temp_ignore`]; hand it back to
/// [`TypeEnv::end_ignore`] when the statement it was made for is done.
pub struct TempIgnore;

/// Returned by [`TypeEnv::nested_guard`]: the guard to restore with
/// [`TypeEnv::leave_nested`] when the nested block is done.
pub struct NestedGuard {
    pub prev_guard: Guard,
}

/// What a type check knows: the defined names (each with its type, place
/// and guard), the current guard, and the errors found so far.
pub struct TypeEnv {
    identifiers: Vec<(Identifier, IdInfo)>,
    object_groups: Vec<(Identifier, IdInfo)>,
    guard: Guard,
    /// The errors found, file by file.
    errs: Vec<(String, Vec<RmsError>)>,
    /// The warning codes ignored while the current statement is checked.
    current_ignores: Option<HashSet<u32>>,
    include_dirs: Vec<String>,
    /// For each file, the files it includes.
    dependencies: Option<Vec<(String, Vec<String>)>>,
    last_block: u32,
    skip_includes: bool,
    check_dead_paths: bool,
}

/// The mathematical value of a [`TypeEnv`].
pub struct EnvV {
    pub ids: Seq<(Seq<char>, IdInfoV)>,
    pub groups: Seq<(Seq<char>, IdInfoV)>,
    pub guard: GuardV,
    pub errs: Seq<(Seq<char>, Seq<RmsErrorV>)>,
    pub ignores: Option<Set<u32>>,
    pub include_dirs: Seq<Seq<char>>,
    pub deps: Option<Seq<(Seq<char>, Seq<Seq<char>>)>>,
    pub last_block: u32,
    pub skip_includes: bool,
    pub check_dead_paths: bool,
}

pub open spec fn errs_view(l: Seq<(String, Vec<RmsError>)>) -> Seq<(Seq<char>, Seq<RmsErrorV>)> {
    l.map_values(|e: (String, Vec<RmsError>)| (e.0@, e.1@.map_values(|x: RmsError| x@)))
}

pub open spec fn strings_v(l: Seq<String>) -> Seq<Seq<char>> {
    l.map_values(|s: String| s@)
}

pub open spec fn deps_view(d: Option<Vec<(String, Vec<String>)>>) -> Option<Seq<(Seq<char>, Seq<Seq<char>>)>> {
    match d {
        Some(v) => Some(v@.map_values(|e: (String, Vec<String>)| (e.0@, strings_v(e.1@)))),
        None => None,
    }
}

impl View for TypeEnv {
    type V = EnvV;

    closed spec fn view(&self) -> EnvV {
        EnvV {
            ids: ids_view(self.identifiers@),
            groups: ids_view(self.object_groups@),
            guard: self.guard@,
            errs: errs_view(self.errs@),
            ignores: match self.current_ignores {
                Some(set) => Some(set@),
                None => None,
            },
            include_dirs: strings_v(self.include_dirs@),
            deps: deps_view(self.dependencies),
            last_block: self.last_block,
            skip_includes: self.skip_includes,
            check_dead_paths: self.check_dead_paths,
        }
    }
}

/// The paths of a list of per-file errors.
pub open spec fn err_paths(l: Seq<(Seq<char>, Seq<RmsErrorV>)>) -> Seq<Seq<char>> {
    l.map_values(|e: (Seq<char>, Seq<RmsErrorV>)| e.0)
}

/// The per-file errors `l` with `new` added, in order, to those of `path`
/// (a new entry at the end when `path` has none).
pub open spec fn add_errs_v(l: Seq<(Seq<char>, Seq<RmsErrorV>)>, path: Seq<char>, new: Seq<RmsErrorV>) -> Seq<(Seq<char>, Seq<RmsErrorV>)> {
    if err_paths(l).contains(path) {
        let k = pos_of(err_paths(l), path);
        l.update(k, (path, l[k].1 + new))
    } else {
        l.push((path, new))
    }
}

/// A warning code is ignored under `ignores`.
pub open spec fn ignored_by(ignores: Option<Set<u32>>, code: u32) -> bool {
    match ignores {
        Some(set) => set.contains(code),
        None => false,
    }
}

/// The error as it is recorded: a warning is marked ignored exactly when
/// its code is ignored.
pub open spec fn processed(err: RmsErrorV, ignores: Option<Set<u32>>) -> RmsErrorV {
    match err {
        RmsErrorV::Warning { span, msg, keywords, kind, ignored } => RmsErrorV::Warning {
            span,
            msg,
            keywords,
            kind,
            ignored: ignored_by(ignores, error_code_v(err)),
        },
        _ => err,
    }
}

/// `l` with `info` stored for the name `n`, replacing what was there.
pub open spec fn set_info_v(l: Seq<(Seq<char>, IdInfoV)>, n: Seq<char>, info: IdInfoV) -> Seq<(Seq<char>, IdInfoV)> {
    if info_names(l).contains(n) {
        l.update(pos_of(info_names(l), n), (n, info))
    } else {
        l.push((n, info))
    }
}

/// Pushing a name that is not there yet keeps the names distinct.
proof fn lemma_push_unique(ns: Seq<Seq<char>>, n: Seq<char>)
    requires
        ns.no_duplicates(),
        !ns.contains(n),
    ensures
        ns.push(n).no_duplicates(),
{
    let m = ns.push(n);
    assert forall|i: int, j: int| 0 <= i < m.len() && 0 <= j < m.len() && i != j implies m[i] != m[j] by {
        if i == ns.len() {
            assert(ns[j] == m[j]);
        } else if j == ns.len() {
            assert(ns[i] == m[i]);
        } else {
            assert(ns[i] == m[i] && ns[j] == m[j]);
        }
    }
}

/// Recording what is known of a name keeps the names of a list distinct.
proof fn lemma_set_info_unique(l: Seq<(Seq<char>, IdInfoV)>, n: Seq<char>, info: IdInfoV)
    requires
        info_names(l).no_duplicates(),
    ensures
        info_names(set_info_v(l, n, info)).no_duplicates(),
{
    if info_names(l).contains(n) {
        lemma_pos_of(info_names(l), n);
        assert(info_names(set_info_v(l, n, info)) =~= info_names(l));
    } else {
        assert(info_names(set_info_v(l, n, info)) =~= info_names(l).push(n));
        lemma_push_unique(info_names(l), n);
    }
}

/// Adding errors to a file keeps one entry per file.
proof fn lemma_add_errs_unique(l: Seq<(Seq<char>, Seq<RmsErrorV>)>, path: Seq<char>)
    requires
        err_paths(l).no_duplicates(),
    ensures
        forall|new: Seq<RmsErrorV>| #[trigger] err_paths(add_errs_v(l, path, new)).no_duplicates(),
{
    assert forall|new: Seq<RmsErrorV>| #[trigger] err_paths(add_errs_v(l, path, new)).no_duplicates() by {
        if err_paths(l).contains(path) {
            lemma_pos_of(err_paths(l), path);
            assert(err_paths(add_errs_v(l, path, new)) =~= err_paths(l));
        } else {
            assert(err_paths(add_errs_v(l, path, new)) =~= err_paths(l).push(path));
            lemma_push_unique(err_paths(l), path);
        }
    }
}

impl EnvV {
    pub open spec fn with_guard(self, g: GuardV) -> EnvV {
        EnvV { guard: g, ..self }
    }

    pub open spec fn with_ignores(self, ignores: Option<Set<u32>>) -> EnvV {
        EnvV { ignores, ..self }
    }

    pub open spec fn with_ids(self, ids: Seq<(Seq<char>, IdInfoV)>) -> EnvV {
        EnvV { ids, ..self }
    }

    /// The errors `es` recorded in the file `path`.
    pub open spec fn with_errs(self, path: Seq<char>, es: Seq<RmsErrorV>) -> EnvV {
        EnvV {
            errs: add_errs_v(self.errs, path, es.map_values(|e: RmsErrorV| processed(e, self.ignores))),
            ..self
        }
    }

    /// No name is defined twice, among the names and among the object
    /// groups, and each file has a single list of errors.
    pub open spec fn well_formed(self) -> bool {
        &&& info_names(self.ids).no_duplicates()
        &&& info_names(self.groups).no_duplicates()
        &&& err_paths(self.errs).no_duplicates()
    }

    /// `self` and `other` differ at most in their errors.
    pub open spec fn same_but_errs(self, other: EnvV) -> bool {
        self == EnvV { errs: self.errs, ..other }
    }

    /// The error `e` recorded in the file `path`.
    pub open spec fn with_err(self, path: Seq<char>, e: RmsErrorV) -> EnvV {
        self.with_errs(path, seq![e])
    }

    /// Whether the name `n` (an object group when `group`) is defined here.
    pub open spec fn liveness(self, n: Seq<char>, group: bool) -> Liveness {
        liveness_v(self.ids, self.groups, self.guard, n, group)
    }

    /// The name `n` is defined but dead here.
    pub open spec fn is_dead(self, n: Seq<char>) -> bool {
        info_names(self.ids).contains(n) && self.liveness(n, false) == Liveness::Dead
    }

    /// What is known of the name `n`: a dead name is looked up among the
    /// object groups first.
    pub open spec fn get(self, n: Seq<char>) -> Option<IdInfoV> {
        let ids = info_of(self.ids, n);
        let grps = info_of(self.groups, n);
        if self.is_dead(n) {
            if grps is Some { grps } else { ids }
        } else {
            if ids is Some { ids } else { grps }
        }
    }
}

/// The first position of `path` in `l`, if it is there.
fn find_path(l: &Vec<(String, Vec<RmsError>)>, path: &str) -> (r: Option<usize>)
    ensures
        match r {
            Some(k) => first_at(err_paths(errs_view(l@)), path@, k as int),
            None => !err_paths(errs_view(l@)).contains(path@),
        },
{
    let mut i: usize = 0;
    while i < l.len()
        invariant
            i <= l.len(),
            forall|j: int| 0 <= j < i ==> (#[trigger] err_paths(errs_view(l@))[j]) != path@,
        decreases l.len() - i,
    {
        if crate::strings::str_eq(l[i].0.as_str(), path) {
            return Some(i);
        }
        i += 1;
    }
    proof {
        if err_paths(errs_view(l@)).contains(path@) {
            let k = choose|k: int| 0 <= k < err_paths(errs_view(l@)).len() && err_paths(errs_view(l@))[k] == path@;
            assert(err_paths(errs_view(l@))[k] != path@);
        }
    }
    None
}

/// The paths of a list of dependencies.
pub open spec fn dep_paths(d: Seq<(Seq<char>, Seq<Seq<char>>)>) -> Seq<Seq<char>> {
    d.map_values(|e: (Seq<char>, Seq<Seq<char>>)| e.0)
}

/// The dependencies with an entry for `path` (an empty one when it had none).
pub open spec fn touch_dep(deps: Option<Seq<(Seq<char>, Seq<Seq<char>>)>>, path: Seq<char>) -> Option<Seq<(Seq<char>, Seq<Seq<char>>)>> {
    match deps {
        Some(d) => Some(if dep_paths(d).contains(path) { d } else { d.push((path, Seq::empty())) }),
        None => None,
    }
}

/// The dependencies with `dep` added to those of `path`.
pub open spec fn add_dep(deps: Option<Seq<(Seq<char>, Seq<Seq<char>>)>>, path: Seq<char>, dep: Seq<char>) -> Option<Seq<(Seq<char>, Seq<Seq<char>>)>> {
    match deps {
        Some(d) => {
            let k = pos_of(dep_paths(d), path);
            Some(d.update(k, (path, d[k].1.push(dep))))
        },
        None => None,
    }
}

/// The first entry of the dependencies for `path`.
fn find_dep(d: &Vec<(String, Vec<String>)>, path: &str) -> (r: Option<usize>)
    ensures
        match r {
            Some(k) => first_at(dep_paths(deps_view(Some(*d))->0), path@, k as int),
            None => !dep_paths(deps_view(Some(*d))->0).contains(path@),
        },
{
    let ghost dp = dep_paths(deps_view(Some(*d))->0);
    let mut i: usize = 0;
    while i < d.len()
        invariant
            i <= d.len(),
            dp == dep_paths(deps_view(Some(*d))->0),
            forall|j: int| 0 <= j < i ==> (#[trigger] dp[j]) != path@,
        decreases d.len() - i,
    {
        if str_eq(d[i].0.as_str(), path) {
            return Some(i);
        }
        i += 1;
    }
    proof {
        if dp.contains(path@) {
            let k = choose|k: int| 0 <= k < dp.len() && dp[k] == path@;
            assert(dp[k] != path@);
        }
    }
    None
}

impl TypeEnv {
    /// Records `dep` (when given) among the dependencies of `path`, making
    /// sure `path` has an entry.
    pub(crate) fn record_dep(&mut self, path: &str, dep: Option<&str>)
        requires
            old(self)@.deps is Some,
        ensures
            final(self)@ == (EnvV {
                deps: match dep {
                    Some(x) => add_dep(touch_dep(old(self)@.deps, path@), path@, x@),
                    None => touch_dep(old(self)@.deps, path@),
                },
                ..old(self)@
            }),
    {
        let taken = self.dependencies.take();
        let mut d = match taken {
            Some(d) => d,
            None => Vec::new(),
        };
        let ghost d0 = deps_view(Some(d))->0;
        let k = match find_dep(&d, path) {
            Some(k) => {
                proof {
                    lemma_first_at(dep_paths(d0), path@, k as int);
                }
                k
            },
            None => {
                let ghost dv0 = d@;
                let e: Vec<String> = Vec::new();
                let ps = string_from(path);
                proof {
                    assert(strings_v(e@) =~= Seq::<Seq<char>>::empty());
                }
                d.push((ps, e));
                proof {
                    assert(d@ == dv0.push((ps, e)));
                    assert(deps_view(Some(d))->0 =~= d0.push((path@, Seq::empty())));
                    assert(dep_paths(deps_view(Some(d))->0) =~= dep_paths(d0).push(path@));
                    assert(first_at(dep_paths(deps_view(Some(d))->0), path@, d0.len() as int));
                    lemma_first_at(dep_paths(deps_view(Some(d))->0), path@, d0.len() as int);
                }
                d.len() - 1
            },
        };
        let ghost d1 = deps_view(Some(d))->0;
        match dep {
            Some(x) => {
                let (p, mut v) = d.remove(k);
                let ghost vv = v@;
                v.push(string_from(x));
                d.insert(k, (p, v));
                proof {
                    assert(strings_v(v@) =~= strings_v(vv).push(x@));
                    assert(deps_view(Some(d))->0 =~= d1.update(k as int, (path@, d1[k as int].1.push(x@))));
                }
            },
            None => {},
        }
        self.dependencies = Some(d);
    }

    /// Whether the files that each file includes are being recorded.
    pub fn keeps_dependencies(&self) -> (r: bool)
        ensures
            r == (self@.deps is Some),
    {
        self.dependencies.is_some()
    }

    /// The directories searched for included files.
    pub fn include_dirs(&self) -> (r: &Vec<String>)
        ensures
            strings_v(r@) == self@.include_dirs,
    {
        &self.include_dirs
    }

    /// An environment that knows nothing yet.
    pub fn new(include_dirs: Vec<String>, check_dead_paths: bool, skip_includes: bool) -> (r: TypeEnv)
        ensures
            r@ == (EnvV {
                ids: Seq::empty(),
                groups: Seq::empty(),
                guard: GuardV::empty(),
                errs: Seq::empty(),
                ignores: None,
                include_dirs: strings_v(include_dirs@),
                deps: Some(Seq::empty()),
                last_block: 0,
                skip_includes,
                check_dead_paths,
            }),
            r@.well_formed(),
    {
        let r = TypeEnv {
            identifiers: Vec::new(),
            object_groups: Vec::new(),
            guard: Guard::new(),
            errs: Vec::new(),
            current_ignores: None,
            include_dirs,
            dependencies: Some(Vec::new()),
            last_block: 0,
            skip_includes,
            check_dead_paths,
        };
        proof {
            assert(r@.ids =~= Seq::empty());
            assert(r@.groups =~= Seq::empty());
            assert(r@.errs =~= Seq::empty());
            assert(r@.deps->0 =~= Seq::empty());
        }
        r
    }

    /// Enters a nested block: a new block number, checked under a copy of
    /// the current guard; the current guard is returned for restoring.
    pub fn nested_guard(&mut self) -> (r: NestedGuard)
        ensures
            final(self)@ == (EnvV {
                last_block: vstd::wrapping::u32_specs::wrapping_add(old(self)@.last_block, 1u32),
                guard: old(self)@.guard.in_block(vstd::wrapping::u32_specs::wrapping_add(old(self)@.last_block, 1u32)),
                ..old(self)@
            }),
            r.prev_guard@ == old(self)@.guard,
    {
        self.last_block = self.last_block.wrapping_add(1);
        let prev_guard = self.guard.clone_guard();
        self.guard.current_block = self.last_block;
        NestedGuard { prev_guard }
    }

    /// Leaves a nested block: the guard from before it is restored.
    pub fn leave_nested(&mut self, nested: NestedGuard)
        ensures
            final(self)@ == old(self)@.with_guard(nested.prev_guard@),
    {
        self.guard = nested.prev_guard;
    }

    /// The current guard.
    pub fn guard(&self) -> (r: &Guard)
        ensures
            r@ == self@.guard,
    {
        &self.guard
    }

    /// The current guard, to change.
    pub fn guard_mut(&mut self) -> (r: &mut Guard)
        ensures
            (*r)@ == old(self)@.guard,
            final(self)@ == old(self)@.with_guard(final(r)@),
    {
        &mut self.guard
    }

    /// What is known of the defined name `id`, to change.
    pub fn get_id_mut(&mut self, id: &Identifier) -> (r: Option<&mut IdInfo>)
        ensures
            match r {
                Some(info) => {
                    let k = pos_of(info_names(old(self)@.ids), id@);
                    &&& info_names(old(self)@.ids).contains(id@)
                    &&& info@ == old(self)@.ids[k].1
                    &&& final(self)@ == old(self)@.with_ids(old(self)@.ids.update(k, (id@, final(info)@)))
                },
                None => !info_names(old(self)@.ids).contains(id@) && final(self)@ == old(self)@,
            },
    {
        match find_info(&self.identifiers, id) {
            Some(k) => {
                proof {
                    lemma_first_at(info_names(self@.ids), id@, k as int);
                    lemma_ids_view_update(self.identifiers@, k as int);
                }
                Some(&mut self.identifiers[k].1)
            },
            None => None,
        }
    }

    /// What is known of the object group `id`, to change.
    pub fn get_group_mut(&mut self, id: &Identifier) -> (r: Option<&mut IdInfo>)
        ensures
            match r {
                Some(info) => {
                    let k = pos_of(info_names(old(self)@.groups), id@);
                    &&& info_names(old(self)@.groups).contains(id@)
                    &&& info@ == old(self)@.groups[k].1
                    &&& final(self)@ == (EnvV { groups: old(self)@.groups.update(k, (id@, final(info)@)), ..old(self)@ })
                },
                None => !info_names(old(self)@.groups).contains(id@) && final(self)@ == old(self)@,
            },
    {
        match find_info(&self.object_groups, id) {
            Some(k) => {
                proof {
                    lemma_first_at(info_names(self@.groups), id@, k as int);
                    lemma_ids_view_update(self.object_groups@, k as int);
                }
                Some(&mut self.object_groups[k].1)
            },
            None => None,
        }
    }

    /// What is known of the name `id`, to change: a dead name is looked up
    /// among the object groups first (see [`EnvV::get`]).
    pub fn get_mut(&mut self, id: &Identifier) -> (r: Option<&mut IdInfo>)
        ensures
            match r {
                Some(info) => {
                    &&& old(self)@.get(id@) == Some(info@)
                    &&& {
                        ||| (info_names(old(self)@.groups).contains(id@)
                            && old(self)@.get(id@) == info_of(old(self)@.groups, id@)
                            && final(self)@ == (EnvV {
                                groups: old(self)@.groups.update(pos_of(info_names(old(self)@.groups), id@), (id@, final(info)@)),
                                ..old(self)@
                            }))
                        ||| (info_names(old(self)@.ids).contains(id@)
                            && old(self)@.get(id@) == info_of(old(self)@.ids, id@)
                            && final(self)@ == old(self)@.with_ids(
                                old(self)@.ids.update(pos_of(info_names(old(self)@.ids), id@), (id@, final(info)@)),
                            ))
                    }
                },
                None => old(self)@.get(id@) is None && final(self)@ == old(self)@,
            },
    {
        let dead = self.is_dead_id(id);
        let in_ids = find_info(&self.identifiers, id);
        let in_groups = find_info(&self.object_groups, id);
        if dead && in_groups.is_some() || !dead && in_ids.is_none() {
            self.get_group_mut(id)
        } else {
            self.get_id_mut(id)
        }
    }

    /// Enters arm `arm` (taken with `chance` percent) of the current random block.
    pub fn in_arm(&mut self, arm: u32, chance: u32)
        ensures
            final(self)@ == old(self)@.with_guard(old(self)@.guard.with_arm(old(self)@.guard.current_block, arm, chance)),
    {
        let cb = self.guard.current_block;
        self.guard.in_arm(cb, arm, chance);
    }

    /// The proposition `guard` is known to hold from here on.
    pub fn truthify_guard(&mut self, guard: &Prop)
        ensures
            final(self)@ == old(self)@.with_guard(tr_prop(old(self)@.ids, old(self)@.guard, Set::empty(), guard@)),
    {
        let mut seen: Vec<Identifier> = Vec::new();
        proof {
            assert(id_set(seen@) =~= Set::empty());
        }
        truthify_prop_in(&mut self.guard, &self.identifiers, guard, &mut seen);
    }

    /// The name `v` is defined from here on.
    pub fn truthify(&mut self, v: &str)
        ensures
            final(self)@ == old(self)@.with_guard(tr_name(old(self)@.ids, old(self)@.guard, Set::empty(), v@)),
    {
        let mut seen: Vec<Identifier> = Vec::new();
        proof {
            assert(id_set(seen@) =~= Set::empty());
        }
        let id = Identifier::new(v);
        truthify_in(&mut self.guard, &self.identifiers, &id, &mut seen);
    }

    /// The proposition `guard` is known not to hold from here on.
    pub fn falsify_guard(&mut self, guard: &Prop)
        ensures
            final(self)@ == old(self)@.with_guard(fl_prop(old(self)@.ids, old(self)@.guard, Set::empty(), guard@)),
    {
        let mut seen: Vec<Identifier> = Vec::new();
        proof {
            assert(id_set(seen@) =~= Set::empty());
        }
        falsify_prop_in(&mut self.guard, &self.identifiers, guard, &mut seen);
    }

    /// The name `v` is undefined from here on.
    pub fn falsify(&mut self, v: &str)
        ensures
            final(self)@ == old(self)@.with_guard(fl_name(old(self)@.ids, old(self)@.guard, Set::empty(), v@)),
    {
        let mut seen: Vec<Identifier> = Vec::new();
        proof {
            assert(id_set(seen@) =~= Set::empty());
        }
        let id = Identifier::new(v);
        falsify_in(&mut self.guard, &self.identifiers, &id, &mut seen);
    }

    /// The errors found so far, file by file.
    pub fn errs(&self) -> (r: &Vec<(String, Vec<RmsError>)>)
        ensures
            errs_view(r@) == self@.errs,
    {
        &self.errs
    }

    /// Forgets what was worked out of names for earlier guards. Nothing is
    /// kept between lookups, so nothing changes.
    pub fn clear_cache(&mut self)
        ensures
            final(self)@ == old(self)@,
    {
    }

    /// The warning code `ignore` is ignored for the current statement.
    pub fn is_warning_ignored(&self, ignore: u32) -> (r: bool)
        ensures
            r == ignored_by(self@.ignores, ignore),
    {
        match &self.current_ignores {
            Some(ignores) => ignores.contains(&ignore),
            None => false,
        }
    }

    /// Ignores the warning codes `ignores` until [`TypeEnv::end_ignore`].
    pub fn temp_ignore(&mut self, ignores: HashSet<u32>) -> (r: TempIgnore)
        ensures
            final(self)@ == old(self)@.with_ignores(Some(ignores@)),
    {
        self.current_ignores = Some(ignores);
        TempIgnore
    }

    /// No warning is ignored any more.
    pub fn end_ignore(&mut self, t: TempIgnore)
        ensures
            final(self)@ == old(self)@.with_ignores(None),
    {
        self.current_ignores = None;
    }

    /// `p` with each name replaced by what it stands for (see [`subst`]).
    pub fn substitute_singletons(&self, prop: &Prop, guard: &Guard, seen: &mut Vec<Identifier>, group_name: bool) -> (r: Prop)
        ensures
            (r@, id_set(final(seen)@)) == subst(self@.ids, self@.groups, guard@, id_set(old(seen)@), prop@, group_name),
            id_set(old(seen)@).subset_of(id_set(final(seen)@)),
    {
        subst_in(&self.identifiers, &self.object_groups, guard, seen, prop, group_name)
    }

    /// Whether the name `id` (an object group when `group_name`) is
    /// defined here: live, dead, or maybe.
    pub fn check_live(&self, id: &Identifier, group_name: bool) -> (r: Liveness)
        ensures
            r == self@.liveness(id@, group_name),
    {
        let mut seen: Vec<Identifier> = Vec::new();
        proof {
            assert(id_set(seen@) =~= Set::empty());
        }
        let var_guard = self.substitute_singletons(&Prop::from_id(id), &self.guard, &mut seen, group_name);
        let prop = var_guard.simplify(&self.guard);
        match prop {
            Prop::True => Liveness::Live,
            Prop::False => Liveness::Dead,
            Prop::Var(Symbol::Name(n)) => {
                let list = if group_name { &self.object_groups } else { &self.identifiers };
                if find_info(list, &n).is_some() {
                    Liveness::Maybe
                } else {
                    Liveness::Dead
                }
            },
            _ => Liveness::Maybe,
        }
    }

    /// The name `id` is defined, but dead here.
    pub fn is_dead_id(&self, id: &Identifier) -> (r: bool)
        ensures
            r == self@.is_dead(id@),
    {
        find_info(&self.identifiers, id).is_some() && self.check_live(id, false) == Liveness::Dead
    }

    /// What is known of the name `id` (see [`EnvV::get`]).
    pub fn get_ref(&self, id: &Identifier) -> (r: Option<&IdInfo>)
        ensures
            match r {
                Some(info) => self@.get(id@) == Some(info@),
                None => self@.get(id@) is None,
            },
    {
        let in_ids = find_info(&self.identifiers, id);
        let in_groups = find_info(&self.object_groups, id);
        if self.is_dead_id(id) {
            match in_groups {
                Some(k) => Some(&self.object_groups[k].1),
                None => match in_ids {
                    Some(k) => Some(&self.identifiers[k].1),
                    None => None,
                },
            }
        } else {
            match in_ids {
                Some(k) => Some(&self.identifiers[k].1),
                None => match in_groups {
                    Some(k) => Some(&self.object_groups[k].1),
                    None => None,
                },
            }
        }
    }

    /// A copy of what is known of the name `id` (see [`EnvV::get`]).
    pub fn get(&self, id: &Identifier) -> (r: Option<IdInfo>)
        ensures
            match r {
                Some(info) => self@.get(id@) == Some(info@),
                None => self@.get(id@) is None,
            },
    {
        match self.get_ref(id) {
            Some(info) => Some(info.clone_info()),
            None => None,
        }
    }

    /// Records what is known of the name `id`, replacing what was known.
    pub fn set(&mut self, id: &Identifier, info: IdInfo)
        ensures
            final(self)@ == old(self)@.with_ids(set_info_v(old(self)@.ids, id@, info@)),
            old(self)@.well_formed() ==> final(self)@.well_formed(),
    {
        let ghost iv = info@;
        proof {
            if self@.well_formed() {
                lemma_set_info_unique(self@.ids, id@, iv);
            }
        }
        match find_info(&self.identifiers, id) {
            Some(k) => {
                proof {
                    lemma_first_at(info_names(self@.ids), id@, k as int);
                }
                self.identifiers.set(k, (id.clone(), info));
                proof {
                    assert(self@.ids =~= old(self)@.ids.update(k as int, (id@, iv)));
                }
            },
            None => {
                self.identifiers.push((id.clone(), info));
                proof {
                    assert(self@.ids =~= old(self)@.ids.push((id@, iv)));
                }
            },
        }
    }

    /// The error as it is recorded (see [`processed`]).
    fn process_err(&self, err: RmsError) -> (r: RmsError)
        ensures
            r@ == processed(err@, self@.ignores),
    {
        let to_ignore = self.is_warning_ignored(err.code());
        match err {
            RmsError::Warning { span, msg, keywords, kind, ignored: _ } => RmsError::Warning {
                span,
                msg,
                keywords,
                kind,
                ignored: to_ignore,
            },
            e => e,
        }
    }

    /// Records the error `err` in the file `path` (a warning marked ignored
    /// when its code is ignored).
    pub fn add_err(&mut self, path: &str, err: RmsError)
        ensures
            final(self)@ == old(self)@.with_err(path@, err@),
            old(self)@.well_formed() ==> final(self)@.well_formed(),
    {
        proof {
            if self@.well_formed() {
                lemma_add_errs_unique(self@.errs, path@);
            }
        }
        let e = self.process_err(err);
        let mut v: Vec<RmsError> = Vec::new();
        v.push(e);
        proof {
            assert(v@.map_values(|x: RmsError| x@) =~= seq![err@].map_values(|e: RmsErrorV| processed(e, self@.ignores)));
        }
        self.extend_errs(path, v);
    }

    /// Records the errors `errs` in the file `path`, in order.
    pub fn add_errs(&mut self, path: &str, errs: Vec<RmsError>)
        ensures
            final(self)@ == old(self)@.with_errs(path@, errs@.map_values(|e: RmsError| e@)),
            old(self)@.well_formed() ==> final(self)@.well_formed(),
    {
        let ghost es = errs@;
        proof {
            if self@.well_formed() {
                lemma_add_errs_unique(self@.errs, path@);
            }
        }
        let ghost ign = self@.ignores;
        let mut rest = errs;
        let mut v: Vec<RmsError> = Vec::new();
        let n = rest.len();
        let mut i: usize = 0;
        while i < n
            invariant
                i <= n,
                n == es.len(),
                rest@ == es.skip(i as int),
                ign == self@.ignores,
                v@.map_values(|x: RmsError| x@) == es.take(i as int).map_values(|e: RmsError| processed(e@, ign)),
            decreases n - i,
        {
            let ghost old_v = v@;
            let e = rest.remove(0);
            proof {
                assert(rest@ =~= es.skip(i + 1));
                assert(e == es[i as int]);
            }
            let p = self.process_err(e);
            v.push(p);
            proof {
                assert(es.take(i + 1) =~= es.take(i as int).push(es[i as int]));
                assert(v@ =~= old_v.push(p));
                assert(v@.map_values(|x: RmsError| x@) =~= old_v.map_values(|x: RmsError| x@).push(p@));
                assert(es.take(i + 1).map_values(|e: RmsError| processed(e@, ign)) =~= es.take(i as int).map_values(|e: RmsError| processed(e@, ign)).push(processed(es[i as int]@, ign)));
                assert(v@.map_values(|x: RmsError| x@) =~= es.take(i + 1).map_values(|e: RmsError| processed(e@, ign)));
            }
            i += 1;
        }
        proof {
            assert(es.take(n as int) =~= es);
            assert(v@.map_values(|x: RmsError| x@) =~= es.map_values(|e: RmsError| e@).map_values(|e: RmsErrorV| processed(e, self@.ignores)));
        }
        self.extend_errs(path, v);
    }

    /// Appends `new`, as they are, to the errors of `path`.
    fn extend_errs(&mut self, path: &str, new: Vec<RmsError>)
        ensures
            final(self)@ == (EnvV { errs: add_errs_v(old(self)@.errs, path@, new@.map_values(|x: RmsError| x@)), ..old(self)@ }),
    {
        let mut new = new;
        let ghost nv = new@.map_values(|x: RmsError| x@);
        match find_path(&self.errs, path) {
            Some(k) => {
                proof {
                    lemma_first_at(err_paths(self@.errs), path@, k as int);
                }
                let ghost old_l = self.errs@;
                let (p, mut v) = self.errs.remove(k);
                let ghost old_v = v@;
                let ghost new_v = new@;
                v.append(&mut new);
                self.errs.insert(k, (p, v));
                proof {
                    assert(v@ == old_v + new_v);
                    assert(v@.map_values(|x: RmsError| x@) =~= old_v.map_values(|x: RmsError| x@) + nv);
                    assert(self.errs@ =~= old_l.update(k as int, (p, v)));
                    assert(self@.errs =~= add_errs_v(old(self)@.errs, path@, nv));
                }
            },
            None => {
                let ghost old_l = self.errs@;
                self.errs.push((crate::strings::string_from(path), new));
                proof {
                    assert(self@.errs =~= add_errs_v(old(self)@.errs, path@, nv));
                }
            },
        }
    }
}

} // verus!
