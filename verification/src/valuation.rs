use vstd::prelude::*;
use crate::prop::{PropV, SymbolV, is_singleton_v};
use crate::guard::GuardV;
use crate::simplify::{rand_of, ginc, name_of};
use crate::type_env::{info_names, info_of};
use crate::id_info::IdInfoV;

verus! {

/// One way a script can run: the names that end up defined, and for each
/// random block the arm that is taken (no entry: none of its arms is taken).
pub struct Valuation {
    pub names: Set<Seq<char>>,
    pub arms: Map<u32, u32>,
}

impl Valuation {
    /// Arm `arm` of random block `block` is taken.
    pub open spec fn takes(self, block: u32, arm: u32) -> bool {
        self.arms.contains_key(block) && self.arms[block] == arm
    }

    /// The truth of a symbol.
    pub open spec fn holds_symbol(self, s: SymbolV) -> bool {
        match s {
            SymbolV::Name(n) => self.names.contains(n),
            SymbolV::Random { block, arm, chance } => self.takes(block, arm),
        }
    }

    /// The truth of a proposition.
    pub open spec fn holds(self, p: PropV) -> bool
        decreases p,
    {
        match p {
            PropV::True => true,
            PropV::False => false,
            PropV::Var(s) => self.holds_symbol(s),
            PropV::Not(s) => !self.holds_symbol(s),
            PropV::And(xs) => self.all_hold(xs),
            PropV::Or(xs) => self.some_holds(xs),
        }
    }

    /// Every term of `xs` holds (the conjunction of `xs`).
    pub open spec fn all_hold(self, xs: Seq<PropV>) -> bool
        decreases xs,
    {
        if xs.len() == 0 {
            true
        } else {
            self.all_hold(xs.drop_last()) && self.holds(xs.last())
        }
    }

    /// Some term of `xs` holds (the disjunction of `xs`).
    pub open spec fn some_holds(self, xs: Seq<PropV>) -> bool
        decreases xs,
    {
        if xs.len() == 0 {
            false
        } else {
            self.some_holds(xs.drop_last()) || self.holds(xs.last())
        }
    }

    /// Every term of `xs` holds.
    pub open spec fn holds_all(self, xs: Seq<PropV>) -> bool {
        forall|i: int| 0 <= i < xs.len() ==> self.holds(#[trigger] xs[i])
    }

    /// Some term of `xs` holds.
    pub open spec fn holds_some(self, xs: Seq<PropV>) -> bool {
        exists|i: int| 0 <= i < xs.len() && self.holds(#[trigger] xs[i])
    }

    /// The valuation agrees with the chances of the random arms that `xs`
    /// asserts: an arm whose chance and that of the arms of its block known
    /// under `g` not to be taken make up the whole block is taken.
    pub open spec fn covers(self, xs: Seq<PropV>, g: Option<GuardV>) -> bool {
        forall|i: int|
            0 <= i < xs.len() && xs[i] is Var && (#[trigger] rand_of(xs[i])) is Some
                && rand_of(xs[i]).unwrap().2 + ginc(g, rand_of(xs[i]).unwrap().0) >= 100
                ==> self.takes(rand_of(xs[i]).unwrap().0, rand_of(xs[i]).unwrap().1)
    }

    /// The valuation agrees with the chance of each random arm of `xs` (see
    /// [`Valuation::fits_chance`]).
    pub open spec fn fits_chances(self, xs: Seq<PropV>, g: GuardV) -> bool {
        forall|i: int| 0 <= i < xs.len() ==> match #[trigger] xs[i] {
            PropV::Var(s) => self.fits_chance(s, g),
            PropV::Not(s) => self.fits_chance(s, g),
            _ => true,
        }
    }

    /// The valuation defines each defined name exactly when its proposition
    /// holds, and no other name.
    pub open spec fn models(self, ids: Seq<(Seq<char>, IdInfoV)>) -> bool {
        forall|n: Seq<char>| #[trigger] self.names.contains(n)
            <==> (info_names(ids).contains(n) && self.holds(info_of(ids, n).unwrap().guard))
    }

    /// The valuation agrees with the chance of the random arm of the
    /// literal `t`, if it has one.
    pub open spec fn fits_lit(self, t: PropV, g: GuardV) -> bool {
        match t {
            PropV::Var(s) => self.fits_chance(s, g),
            PropV::Not(s) => self.fits_chance(s, g),
            _ => true,
        }
    }

    /// The valuation agrees, under `g`, with the chance of every random arm
    /// of the propositions of `ids`.
    pub open spec fn arms_fit(self, ids: Seq<(Seq<char>, IdInfoV)>, g: GuardV) -> bool {
        forall|n: Seq<char>, t: PropV| info_names(ids).contains(n) && #[trigger] lits_of(ids, n).contains(t)
            ==> self.fits_lit(t, g)
    }

    /// An arm of the propositions of `ids` whose chance and that of the arms
    /// of its block known under `g` not to be taken make up the whole block
    /// is taken.
    pub open spec fn covers_arms(self, ids: Seq<(Seq<char>, IdInfoV)>, g: GuardV) -> bool {
        forall|arm: (u32, u32, u32)| #[trigger] arm_in(ids, arm) && arm.2 + ginc(Some(g), arm.0) >= 100
            ==> self.takes(arm.0, arm.1)
    }

    /// The valuation agrees with all that the guard `g` knows: the names it
    /// makes true or false, the arm being checked, the arms known to be
    /// taken and those known not to be taken.
    pub open spec fn satisfies(self, g: GuardV) -> bool {
        &&& forall|n: Seq<char>| #[trigger] g.is_true_v(n) ==> self.names.contains(n)
        &&& forall|n: Seq<char>| #[trigger] g.is_false_v(n) ==> !self.names.contains(n)
        &&& (g.block_arm matches Some((b, a, _)) ==> self.takes(b, a))
        &&& forall|b: u32| #[trigger] g.chosen(b) is Some ==> self.takes(b, g.chosen(b).unwrap())
        &&& forall|b: u32, a: u32| #[trigger] g.falsy_arm(b, a) ==> !self.takes(b, a)
    }

    /// The valuation agrees with the chance of the random arm `s`: an arm of
    /// chance 0 is never taken, and an arm is taken when its chance and that
    /// of the arms of its block known under `g` not to be taken make up the
    /// whole block.
    pub open spec fn fits_chance(self, s: SymbolV, g: GuardV) -> bool {
        match s {
            SymbolV::Random { block, arm, chance } => {
                &&& (chance == 0 ==> !self.takes(block, arm))
                &&& (chance + g.increase(block) >= 100 && !g.falsy_arm(block, arm) ==> self.takes(block, arm))
            },
            SymbolV::Name(_) => true,
        }
    }
}


/// Each random arm of `xs` carries one chance wherever it occurs.
pub open spec fn one_chance_per_arm(xs: Seq<PropV>) -> bool {
    forall|i: int, j: int|
        0 <= i < xs.len() && 0 <= j < xs.len() && (#[trigger] rand_of(xs[i])) is Some && (#[trigger] rand_of(xs[j])) is Some
            && rand_of(xs[i]).unwrap().0 == rand_of(xs[j]).unwrap().0 && rand_of(xs[i]).unwrap().1 == rand_of(xs[j]).unwrap().1
            ==> rand_of(xs[i]).unwrap().2 == rand_of(xs[j]).unwrap().2
}


/// The conjunction of `xs` holds when each of its terms holds.
pub proof fn lemma_all_hold(v: Valuation, xs: Seq<PropV>)
    ensures
        v.all_hold(xs) == v.holds_all(xs),
    decreases xs.len(),
{
    if xs.len() > 0 {
        let t = xs.drop_last();
        lemma_all_hold(v, t);
        if v.all_hold(xs) {
            assert forall|i: int| 0 <= i < xs.len() implies v.holds(#[trigger] xs[i]) by {
                if i < xs.len() - 1 {
                    assert(t[i] == xs[i]);
                }
            }
        }
        if v.holds_all(xs) {
            assert forall|i: int| 0 <= i < t.len() implies v.holds(#[trigger] t[i]) by {
                assert(t[i] == xs[i]);
            }
            assert(v.holds(xs[xs.len() - 1]));
        }
    }
}


/// A random arm that `xs` asserts is the only random-arm term of its block
/// in `xs`.
pub open spec fn asserted_arm_alone(xs: Seq<PropV>) -> bool {
    forall|i: int, j: int|
        0 <= i < xs.len() && 0 <= j < xs.len() && xs[i] is Var && (#[trigger] rand_of(xs[i])) is Some
            && (#[trigger] rand_of(xs[j])) is Some && rand_of(xs[i]).unwrap().0 == rand_of(xs[j]).unwrap().0
            ==> xs[i] == xs[j]
}

/// The disjunction of `xs` holds when one of its terms holds.
pub proof fn lemma_some_holds(v: Valuation, xs: Seq<PropV>)
    ensures
        v.some_holds(xs) == v.holds_some(xs),
    decreases xs.len(),
{
    if xs.len() > 0 {
        let t = xs.drop_last();
        lemma_some_holds(v, t);
        if v.holds_some(t) {
            let k = choose|k: int| 0 <= k < t.len() && v.holds(#[trigger] t[k]);
            assert(xs[k] == t[k]);
        }
        if v.holds(xs.last()) {
            assert(v.holds(xs[xs.len() - 1]));
        }
        if v.holds_some(xs) {
            let k = choose|k: int| 0 <= k < xs.len() && v.holds(#[trigger] xs[k]);
            if k < xs.len() - 1 {
                assert(t[k] == xs[k]);
            }
        }
    }
}


/// The terms of a conjunction, or the proposition itself.
pub open spec fn conj_terms(p: PropV) -> Seq<PropV> {
    match p {
        PropV::And(et) => et,
        _ => seq![p],
    }
}

/// A constant, a literal, or a conjunction of them.
pub open spec fn is_conjunctive(p: PropV) -> bool {
    match p {
        PropV::And(et) => forall|i: int| 0 <= i < et.len() ==> is_singleton_v(#[trigger] et[i]),
        _ => is_singleton_v(p),
    }
}

/// The literals of the disjuncts `vel`, in order.
pub open spec fn or_lits(vel: Seq<PropV>) -> Seq<PropV>
    decreases vel.len(),
{
    if vel.len() == 0 {
        Seq::empty()
    } else {
        or_lits(vel.drop_last()) + conj_terms(vel.last())
    }
}

/// The literals of a proposition in disjunctive normal form.
pub open spec fn dnf_lits(p: PropV) -> Seq<PropV> {
    match p {
        PropV::Or(vel) => or_lits(vel),
        _ => conj_terms(p),
    }
}

/// A conjunctive proposition, or a disjunction of them.
pub open spec fn is_dnf(p: PropV) -> bool {
    match p {
        PropV::Or(vel) => forall|i: int| 0 <= i < vel.len() ==> is_conjunctive(#[trigger] vel[i]),
        _ => is_conjunctive(p),
    }
}

/// The literals of the proposition of the name `n`.
pub open spec fn lits_of(ids: Seq<(Seq<char>, IdInfoV)>, n: Seq<char>) -> Seq<PropV> {
    dnf_lits(info_of(ids, n).unwrap().guard)
}

/// The random arm `(block, arm, chance)` occurs in a proposition of `ids`.
pub open spec fn arm_in(ids: Seq<(Seq<char>, IdInfoV)>, arm: (u32, u32, u32)) -> bool {
    exists|n: Seq<char>, t: PropV| #![trigger lits_of(ids, n).contains(t), rand_of(t)]
        info_names(ids).contains(n) && lits_of(ids, n).contains(t) && rand_of(t) == Some(arm)
}

/// Every random arm of the propositions of `ids` carries one chance.
pub open spec fn one_chance_in(ids: Seq<(Seq<char>, IdInfoV)>) -> bool {
    forall|x: (u32, u32, u32), y: (u32, u32, u32)|
        #[trigger] arm_in(ids, x) && #[trigger] arm_in(ids, y) && x.0 == y.0 && x.1 == y.1 ==> x.2 == y.2
}

/// Every defined name has a proposition in disjunctive normal form, in which
/// each defined name is of lower rank: no definition depends on itself.
pub open spec fn ranked(ids: Seq<(Seq<char>, IdInfoV)>, rank: spec_fn(Seq<char>) -> nat) -> bool {
    forall|n: Seq<char>| #[trigger] info_names(ids).contains(n) ==> {
        &&& is_dnf(info_of(ids, n).unwrap().guard)
        &&& forall|t: PropV| #[trigger] lits_of(ids, n).contains(t) && name_of(t) is Some
            && info_names(ids).contains(name_of(t).unwrap())
            ==> rank(name_of(t).unwrap()) < rank(n)
    }
}

/// The random blocks that the literal `t` reaches: its own, or those of
/// the proposition of the name it holds (a defined name of rank below
/// `bound`).
pub open spec fn lit_blocks(ids: Seq<(Seq<char>, IdInfoV)>, rank: spec_fn(Seq<char>) -> nat, t: PropV, bound: nat) -> Set<u32>
    decreases bound, 0nat, 0nat,
{
    match rand_of(t) {
        Some(arm) => set![arm.0],
        None => match name_of(t) {
            Some(m) => if info_names(ids).contains(m) && rank(m) < bound {
                prop_blocks(ids, rank, info_of(ids, m).unwrap().guard, rank(m))
            } else {
                Set::empty()
            },
            None => Set::empty(),
        },
    }
}

/// The random blocks that the literals `ts` reach.
pub open spec fn lits_blocks(ids: Seq<(Seq<char>, IdInfoV)>, rank: spec_fn(Seq<char>) -> nat, ts: Seq<PropV>, bound: nat) -> Set<u32>
    decreases bound, 1nat, ts.len(),
{
    if ts.len() == 0 {
        Set::empty()
    } else {
        lits_blocks(ids, rank, ts.drop_last(), bound) + lit_blocks(ids, rank, ts.last(), bound)
    }
}

/// The random blocks that the proposition `p` reaches.
pub open spec fn prop_blocks(ids: Seq<(Seq<char>, IdInfoV)>, rank: spec_fn(Seq<char>) -> nat, p: PropV, bound: nat) -> Set<u32>
    decreases bound, 2nat, 0nat,
{
    lits_blocks(ids, rank, dnf_lits(p), bound)
}

/// No two disjuncts of `p` reach one random block.
pub open spec fn or_apart(ids: Seq<(Seq<char>, IdInfoV)>, rank: spec_fn(Seq<char>) -> nat, p: PropV, bound: nat) -> bool {
    match p {
        PropV::Or(vel) => apart(ids, rank, vel, bound),
        _ => true,
    }
}

/// No two of the disjuncts `vel` reach one random block.
pub open spec fn apart(ids: Seq<(Seq<char>, IdInfoV)>, rank: spec_fn(Seq<char>) -> nat, vel: Seq<PropV>, bound: nat) -> bool {
    forall|i: int, j: int, b: u32|
        0 <= i < vel.len() && 0 <= j < vel.len() && i != j
            && #[trigger] prop_blocks(ids, rank, vel[i], bound).contains(b)
            ==> !#[trigger] prop_blocks(ids, rank, vel[j], bound).contains(b)
}

/// In the proposition of each defined name, no two disjuncts reach one
/// random block.
pub open spec fn disjuncts_apart(ids: Seq<(Seq<char>, IdInfoV)>, rank: spec_fn(Seq<char>) -> nat) -> bool {
    forall|n: Seq<char>| #[trigger] info_names(ids).contains(n)
        ==> or_apart(ids, rank, info_of(ids, n).unwrap().guard, rank(n))
}

} // verus!
