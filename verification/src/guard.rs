use std::collections::{HashMap, HashSet};
use vstd::prelude::*;
use crate::ast::Identifier;
use crate::prop::{Prop, PropV, Symbol, SymbolV};

verus! {

/// A list of names, each with the set of blocks in which it was made
/// true (or false).
pub open spec fn entries_v(t: Seq<(Identifier, Vec<u32>)>) -> Seq<(Seq<char>, Set<u32>)> {
    t.map_values(|e: (Identifier, Vec<u32>)| (e.0@, e.1@.to_set()))
}

/// `k` is the first index of the name `n` in `es`.
pub open spec fn first_name_at(es: Seq<(Seq<char>, Set<u32>)>, n: Seq<char>, k: int) -> bool {
    &&& 0 <= k < es.len()
    &&& es[k].0 == n
    &&& forall|j: int| 0 <= j < k ==> es[j].0 != n
}

pub open spec fn has_name(es: Seq<(Seq<char>, Set<u32>)>, n: Seq<char>) -> bool {
    exists|k: int| 0 <= k < es.len() && es[k].0 == n
}

pub open spec fn name_index(es: Seq<(Seq<char>, Set<u32>)>, n: Seq<char>) -> int {
    choose|k: int| first_name_at(es, n, k)
}

/// Adding `b` to the blocks of `n`, or a new entry for `n` at the end.
pub open spec fn add_block_v(es: Seq<(Seq<char>, Set<u32>)>, n: Seq<char>, b: u32) -> Seq<(Seq<char>, Set<u32>)> {
    if has_name(es, n) {
        let k = name_index(es, n);
        es.update(k, (n, es[k].1.insert(b)))
    } else {
        es.push((n, set![b]))
    }
}

/// Removing `b` from the blocks of `n`; an entry left without blocks is removed.
pub open spec fn remove_block_v(es: Seq<(Seq<char>, Set<u32>)>, n: Seq<char>, b: u32) -> Seq<(Seq<char>, Set<u32>)> {
    if has_name(es, n) {
        let k = name_index(es, n);
        let s = es[k].1.remove(b);
        if s.is_empty() {
            es.remove(k)
        } else {
            es.update(k, (n, s))
        }
    } else {
        es
    }
}

/// Every name occurs once.
pub open spec fn names_unique(es: Seq<(Seq<char>, Set<u32>)>) -> bool {
    forall|i: int, j: int| 0 <= i < j < es.len() ==> es[i].0 != es[j].0
}

pub proof fn lemma_first_name_unique(es: Seq<(Seq<char>, Set<u32>)>, n: Seq<char>, k: int)
    requires
        first_name_at(es, n, k),
    ensures
        has_name(es, n),
        name_index(es, n) == k,
{
    let k2 = name_index(es, n);
    assert(first_name_at(es, n, k2));
    if k2 < k {
        assert(es[k2].0 != n);
    } else if k < k2 {
        assert(es[k].0 != n);
    }
}

pub proof fn lemma_has_name_first(es: Seq<(Seq<char>, Set<u32>)>, n: Seq<char>)
    requires
        has_name(es, n),
    ensures
        first_name_at(es, n, name_index(es, n)),
    decreases es.len(),
{
    let k = choose|k: int| 0 <= k < es.len() && es[k].0 == n;
    if es[0].0 == n {
        assert(first_name_at(es, n, 0));
    } else {
        let rest = es.drop_first();
        assert(rest[k - 1].0 == n);
        lemma_has_name_first(rest, n);
        let k1 = name_index(rest, n);
        assert forall|j: int| 0 <= j < k1 + 1 implies es[j].0 != n by {
            if j > 0 {
                assert(es[j] == rest[j - 1]);
            }
        }
        assert(first_name_at(es, n, k1 + 1));
    }
}

fn clone_entries(t: &Vec<(Identifier, Vec<u32>)>) -> (r: Vec<(Identifier, Vec<u32>)>)
    ensures
        entries_v(r@) == entries_v(t@),
{
    let mut r: Vec<(Identifier, Vec<u32>)> = Vec::new();
    let mut i: usize = 0;
    while i < t.len()
        invariant
            i <= t.len(),
            r@.len() == i,
            forall|j: int| 0 <= j < i ==> #[trigger] r@[j].0@ == t@[j].0@ && r@[j].1@ == t@[j].1@,
        decreases t.len() - i,
    {
        let blocks = copy_blocks(&t[i].1);
        r.push((t[i].0.clone(), blocks));
        i += 1;
    }
    assert(entries_v(r@) =~= entries_v(t@));
    r
}

fn copy_blocks(v: &Vec<u32>) -> (r: Vec<u32>)
    ensures
        r@ == v@,
{
    let mut r: Vec<u32> = Vec::new();
    let mut i: usize = 0;
    while i < v.len()
        invariant
            i <= v.len(),
            r@ == v@.take(i as int),
        decreases v.len() - i,
    {
        r.push(v[i]);
        assert(r@ =~= v@.take(i + 1));
        i += 1;
    }
    assert(v@.take(v.len() as int) =~= v@);
    r
}

/// The first index of the entry for `name`, if any.
fn find_name(t: &Vec<(Identifier, Vec<u32>)>, name: &Identifier) -> (r: Option<usize>)
    ensures
        match r {
            Some(k) => first_name_at(entries_v(t@), name@, k as int),
            None => !has_name(entries_v(t@), name@),
        },
{
    let mut i: usize = 0;
    while i < t.len()
        invariant
            i <= t.len(),
            forall|j: int| 0 <= j < i ==> (#[trigger] entries_v(t@)[j]).0 != name@,
        decreases t.len() - i,
    {
        if t[i].0.same(name) {
            return Some(i);
        }
        i += 1;
    }
    None
}

/// `v` with `b` added, unless it is there already.
fn insert_block(v: &Vec<u32>, b: u32) -> (r: Vec<u32>)
    ensures
        r@.to_set() == v@.to_set().insert(b),
{
    let mut r = v.clone();
    let mut i: usize = 0;
    while i < v.len()
        invariant
            i <= v.len(),
            r@ == v@,
            forall|j: int| 0 <= j < i ==> v@[j] != b,
        decreases v.len() - i,
    {
        if v[i] == b {
            proof {
                assert(v@.to_set().contains(b));
                assert(v@.to_set().insert(b) =~= v@.to_set());
            }
            return r;
        }
        i += 1;
    }
    r.push(b);
    proof {
        assert(r@ == v@.push(b));
        v@.lemma_push_to_set_commute(b);
    }
    r
}

/// `v` without `b`.
fn remove_block(v: &Vec<u32>, b: u32) -> (r: Vec<u32>)
    ensures
        r@.to_set() == v@.to_set().remove(b),
{
    let mut r: Vec<u32> = Vec::new();
    let mut i: usize = 0;
    while i < v.len()
        invariant
            i <= v.len(),
            r@.to_set() == v@.subrange(0, i as int).to_set().remove(b),
        decreases v.len() - i,
    {
        proof {
            assert(v@.subrange(0, i + 1) == v@.subrange(0, i as int).push(v@[i as int]));
            v@.subrange(0, i as int).lemma_push_to_set_commute(v@[i as int]);
        }
        if v[i] != b {
            let ghost old_r = r@;
            r.push(v[i]);
            proof {
                old_r.lemma_push_to_set_commute(v@[i as int]);
                assert(r@.to_set() =~= v@.subrange(0, i + 1).to_set().remove(b));
            }
        } else {
            proof {
                assert(r@.to_set() =~= v@.subrange(0, i + 1).to_set().remove(b));
            }
        }
        i += 1;
    }
    proof {
        assert(v@.subrange(0, v@.len() as int) == v@);
    }
    r
}

fn add_block(t: &mut Vec<(Identifier, Vec<u32>)>, name: Identifier, b: u32)
    ensures
        entries_v(final(t)@) == add_block_v(entries_v(old(t)@), name@, b),
{
    match find_name(t, &name) {
        Some(k) => {
            proof {
                lemma_first_name_unique(entries_v(t@), name@, k as int);
            }
            let blocks = insert_block(&t[k].1, b);
            let ghost old_t = t@;
            t.set(k, (name, blocks));
            proof {
                assert(entries_v(t@) =~= entries_v(old_t).update(
                    k as int,
                    (entries_v(old_t)[k as int].0, entries_v(old_t)[k as int].1.insert(b)),
                ));
            }
        },
        None => {
            let ghost old_t = t@;
            let mut blocks: Vec<u32> = Vec::new();
            blocks.push(b);
            proof {
                assert(blocks@ == seq![b]);
                assert(blocks@[0] == b);
                assert(blocks@.to_set().contains(b));
                assert(blocks@.to_set() =~= set![b]);
            }
            t.push((name, blocks));
            proof {
                assert(entries_v(t@) =~= entries_v(old_t).push((name@, set![b])));
            }
        },
    }
}

fn remove_block_of(t: &mut Vec<(Identifier, Vec<u32>)>, name: &Identifier, b: u32)
    ensures
        entries_v(final(t)@) == remove_block_v(entries_v(old(t)@), name@, b),
{
    match find_name(t, name) {
        Some(k) => {
            proof {
                lemma_first_name_unique(entries_v(t@), name@, k as int);
            }
            let blocks = remove_block(&t[k].1, b);
            let ghost old_t = t@;
            if blocks.len() == 0 {
                t.remove(k);
                proof {
                    assert(blocks@.to_set() =~= Set::<u32>::empty());
                    assert(entries_v(t@) =~= entries_v(old_t).remove(k as int));
                }
            } else {
                let id = t[k].0.clone();
                t.set(k, (id, blocks));
                proof {
                    assert(blocks@.to_set().contains(blocks@[0]));
                    assert(!blocks@.to_set().is_empty());
                    assert(entries_v(t@) =~= entries_v(old_t).update(
                        k as int,
                        (entries_v(old_t)[k as int].0, entries_v(old_t)[k as int].1.remove(b)),
                    ));
                }
            }
        },
        None => {},
    }
}


/// What is known to hold at a point of a script: the names made true or
/// false by enclosing conditions (each with the blocks that did so), the
/// random arm being checked, and what is known of earlier random blocks.
pub struct Guard {
    /// Names known to be defined, with the blocks that made them so.
    pub truthy: Vec<(Identifier, Vec<u32>)>,
    /// Names known to be undefined, with the blocks that made them so.
    pub falsy: Vec<(Identifier, Vec<u32>)>,
    /// The random arm `(block, arm, chance)` being checked, if any.
    pub block_arm: Option<(u32, u32, u32)>,
    /// The block (an `if` or a random block) being checked.
    pub current_block: u32,
    /// For a random block: the chance of its arms known not to be taken, and those arms.
    pub falsy_block_arms: HashMap<u32, (u32, HashSet<u32>)>,
    /// For a random block: the arm known to be taken.
    pub truthy_block_arm: HashMap<u32, u32>,
}

/// The mathematical value of a [`Guard`].
pub struct GuardV {
    pub truthy: Seq<(Seq<char>, Set<u32>)>,
    pub falsy: Seq<(Seq<char>, Set<u32>)>,
    pub block_arm: Option<(u32, u32, u32)>,
    pub current_block: u32,
    pub falsy_block_arms: Map<u32, (u32, Set<u32>)>,
    pub truthy_block_arm: Map<u32, u32>,
}

impl View for Guard {
    type V = GuardV;

    open spec fn view(&self) -> GuardV {
        GuardV {
            truthy: entries_v(self.truthy@),
            falsy: entries_v(self.falsy@),
            block_arm: self.block_arm,
            current_block: self.current_block,
            falsy_block_arms: self.falsy_block_arms@.map_values(|v: (u32, HashSet<u32>)| (v.0, v.1@)),
            truthy_block_arm: self.truthy_block_arm@,
        }
    }
}

impl GuardV {
    /// A guard that knows nothing.
    pub open spec fn empty() -> GuardV {
        GuardV {
            truthy: Seq::empty(),
            falsy: Seq::empty(),
            block_arm: None,
            current_block: 0,
            falsy_block_arms: Map::empty(),
            truthy_block_arm: Map::empty(),
        }
    }

    /// The arm known to be taken in `block`.
    pub open spec fn chosen(&self, block: u32) -> Option<u32> {
        if self.truthy_block_arm.contains_key(block) {
            Some(self.truthy_block_arm[block])
        } else {
            None
        }
    }

    /// Arm `arm` of `block` is known not to be taken.
    pub open spec fn falsy_arm(&self, block: u32, arm: u32) -> bool {
        self.falsy_block_arms.contains_key(block) && self.falsy_block_arms[block].1.contains(arm)
    }

    /// The chance of the arms of `block` known not to be taken.
    pub open spec fn increase(&self, block: u32) -> u32 {
        if self.falsy_block_arms.contains_key(block) {
            self.falsy_block_arms[block].0
        } else {
            0
        }
    }

    pub open spec fn is_true_v(&self, n: Seq<char>) -> bool {
        has_name(self.truthy, n)
    }

    /// The name `v` made true in block `b`.
    pub open spec fn with_name_true(self, v: Seq<char>, b: u32) -> GuardV {
        GuardV {
            truthy: add_block_v(self.truthy, v, b),
            falsy: remove_block_v(self.falsy, v, b),
            block_arm: self.block_arm,
            current_block: self.current_block,
            falsy_block_arms: self.falsy_block_arms,
            truthy_block_arm: self.truthy_block_arm,
        }
    }

    /// The name `v` made false in block `b`.
    pub open spec fn with_name_false(self, v: Seq<char>, b: u32) -> GuardV {
        GuardV {
            truthy: remove_block_v(self.truthy, v, b),
            falsy: add_block_v(self.falsy, v, b),
            block_arm: self.block_arm,
            current_block: self.current_block,
            falsy_block_arms: self.falsy_block_arms,
            truthy_block_arm: self.truthy_block_arm,
        }
    }

    /// Checking arm `a` (taken with `c` percent) of random block `b`.
    pub open spec fn with_arm(self, b: u32, a: u32, c: u32) -> GuardV {
        GuardV {
            truthy: self.truthy,
            falsy: self.falsy,
            block_arm: Some((b, a, c)),
            current_block: self.current_block,
            falsy_block_arms: self.falsy_block_arms,
            truthy_block_arm: self.truthy_block_arm,
        }
    }

    /// Arm `a` of random block `b` known to be taken; what was known of its
    /// arms not being taken is dropped.
    pub open spec fn with_chosen_arm(self, b: u32, a: u32) -> GuardV {
        GuardV {
            truthy: self.truthy,
            falsy: self.falsy,
            block_arm: self.block_arm,
            current_block: self.current_block,
            falsy_block_arms: self.falsy_block_arms.remove(b),
            truthy_block_arm: self.truthy_block_arm.insert(b, a),
        }
    }

    /// Arm `a` (of chance `c`) of random block `b` known not to be taken: the
    /// chance of the block's other arms grows by `c`, and if `a` was known to
    /// be taken that is dropped.
    pub open spec fn with_falsy_arm(self, b: u32, a: u32, c: u32) -> GuardV {
        let old = if self.falsy_block_arms.contains_key(b) {
            self.falsy_block_arms[b]
        } else {
            (0u32, Set::<u32>::empty())
        };
        GuardV {
            truthy: self.truthy,
            falsy: self.falsy,
            block_arm: self.block_arm,
            current_block: self.current_block,
            falsy_block_arms: self.falsy_block_arms.insert(b, (vstd::wrapping::u32_specs::wrapping_add(old.0, c), old.1.insert(a))),
            truthy_block_arm: if self.chosen(b) == Some(a) {
                self.truthy_block_arm.remove(b)
            } else {
                self.truthy_block_arm
            },
        }
    }

    /// Checking block `b`.
    pub open spec fn in_block(self, b: u32) -> GuardV {
        GuardV {
            truthy: self.truthy,
            falsy: self.falsy,
            block_arm: self.block_arm,
            current_block: b,
            falsy_block_arms: self.falsy_block_arms,
            truthy_block_arm: self.truthy_block_arm,
        }
    }

    pub open spec fn is_false_v(&self, n: Seq<char>) -> bool {
        has_name(self.falsy, n)
    }

    /// What `v` is known to be: true, false, or unknown (the symbol itself).
    /// An arm of chance 0 is never taken.
    pub open spec fn lookup_v(&self, v: SymbolV) -> PropV {
        let by_names = if v is Name && self.is_true_v(v->Name_0) {
            PropV::True
        } else if v is Name && self.is_false_v(v->Name_0) {
            PropV::False
        } else {
            PropV::Var(v)
        };
        match v {
            SymbolV::Random { block, arm, chance } => match self.block_arm {
                Some((cb, ca, _)) => if block == cb {
                    if arm == ca { PropV::True } else { PropV::False }
                } else if chance == 0 {
                    PropV::False
                } else {
                    by_names
                },
                None => if self.chosen(block) is Some {
                    if self.chosen(block) == Some(arm) { PropV::True } else { PropV::False }
                } else if self.falsy_arm(block, arm) {
                    PropV::False
                } else if chance == 0 {
                    PropV::False
                } else if chance + self.increase(block) >= 100 {
                    PropV::True
                } else {
                    by_names
                },
            },
            SymbolV::Name(_) => by_names,
        }
    }

}

impl Guard {
    pub open spec fn truthy_v(&self) -> Seq<(Seq<char>, Set<u32>)> {
        entries_v(self.truthy@)
    }

    pub open spec fn falsy_v(&self) -> Seq<(Seq<char>, Set<u32>)> {
        entries_v(self.falsy@)
    }

    /// A copy of this guard.
    pub fn clone_guard(&self) -> (r: Guard)
        ensures
            r@ == self@,
    {
        Guard {
            truthy: clone_entries(&self.truthy),
            falsy: clone_entries(&self.falsy),
            block_arm: self.block_arm,
            current_block: self.current_block,
            falsy_block_arms: self.falsy_block_arms.clone(),
            truthy_block_arm: self.truthy_block_arm.clone(),
        }
    }

    /// Arm `arm` of random block `block` is known to be taken.
    pub fn choose_arm(&mut self, block: u32, arm: u32)
        ensures
            final(self)@ == old(self)@.with_chosen_arm(block, arm),
    {
        self.truthy_block_arm.insert(block, arm);
        self.falsy_block_arms.remove(&block);
        proof {
            assert(self@.falsy_block_arms =~= old(self)@.falsy_block_arms.remove(block));
        }
    }

    /// Arm `arm` (of chance `chance`) of random block `block` is known not to be taken.
    pub fn rule_out_arm(&mut self, block: u32, arm: u32, chance: u32)
        ensures
            final(self)@ == old(self)@.with_falsy_arm(block, arm, chance),
    {
        let (increase, mut arms) = match self.falsy_block_arms.remove(&block) {
            Some(entry) => entry,
            None => (0u32, HashSet::new()),
        };
        arms.insert(arm);
        self.falsy_block_arms.insert(block, (increase.wrapping_add(chance), arms));
        if self.is_arm_chosen(block, arm) {
            self.truthy_block_arm.remove(&block);
        }
        proof {
            assert(self@.falsy_block_arms =~= old(self)@.with_falsy_arm(block, arm, chance).falsy_block_arms);
            assert(self@.truthy_block_arm =~= old(self)@.with_falsy_arm(block, arm, chance).truthy_block_arm);
        }
    }

    /// A guard that knows nothing.
    pub fn new() -> (r: Guard)
        ensures
            r@ == GuardV::empty(),
    {
        let r = Guard {
            truthy: Vec::new(),
            falsy: Vec::new(),
            block_arm: None,
            current_block: 0,
            falsy_block_arms: HashMap::new(),
            truthy_block_arm: HashMap::new(),
        };
        proof {
            assert(r@.truthy =~= Seq::empty());
            assert(r@.falsy =~= Seq::empty());
            assert(r@.falsy_block_arms =~= Map::empty());
        }
        r
    }

    /// Arm `arm` is known to be the one taken in `block`.
    pub fn is_arm_chosen(&self, block: u32, arm: u32) -> (r: bool)
        ensures
            r == (self@.chosen(block) == Some(arm)),
    {
        match self.truthy_block_arm.get(&block) {
            Some(chosen_arm) => *chosen_arm == arm,
            None => false,
        }
    }

    /// The chance of the arms of `block` known not to be taken.
    pub fn chance_increase(&self, block: u32) -> (r: u32)
        ensures
            r == self@.increase(block),
    {
        match self.falsy_block_arms.get(&block) {
            Some(entry) => entry.0,
            None => 0,
        }
    }

    /// Arm `arm` of `block` is known not to be taken.
    pub fn arm_is_falsy(&self, block: u32, arm: u32) -> (r: bool)
        ensures
            r == self@.falsy_arm(block, arm),
    {
        match self.falsy_block_arms.get(&block) {
            Some(entry) => entry.1.contains(&arm),
            None => false,
        }
    }

    /// Enters arm `arm` (taken with `chance` percent) of random block `block`.
    pub fn in_arm(&mut self, block: u32, arm: u32, chance: u32)
        ensures
            final(self)@ == old(self)@.with_arm(block, arm, chance),
    {
        self.block_arm = Some((block, arm, chance));
    }

    /// Records that the name `v` is defined from here on in `block`.
    pub fn truthify(&mut self, block: u32, v: &str)
        ensures
            final(self)@ == old(self)@.with_name_true(v@, block),
    {
        let key = Identifier::new(v);
        remove_block_of(&mut self.falsy, &key, block);
        add_block(&mut self.truthy, key, block);
    }

    /// Records that the name `v` is undefined from here on in `block`.
    pub fn falsify(&mut self, block: u32, v: &str)
        ensures
            final(self)@ == old(self)@.with_name_false(v@, block),
    {
        let key = Identifier::new(v);
        remove_block_of(&mut self.truthy, &key, block);
        add_block(&mut self.falsy, key, block);
    }

    /// The name `v` is known to be defined.
    pub fn is_true(&self, v: &Identifier) -> (r: bool)
        ensures
            r == self@.is_true_v(v@),
    {
        find_name(&self.truthy, v).is_some()
    }

    /// The name `v` is known to be undefined.
    pub fn is_false(&self, v: &Identifier) -> (r: bool)
        ensures
            r == self@.is_false_v(v@),
    {
        find_name(&self.falsy, v).is_some()
    }

    /// What `v` is known to be here: `True`, `False`, or the symbol itself.
    pub fn lookup(&self, v: &Symbol) -> (r: Prop)
        ensures
            r@ == self@.lookup_v(v@),
    {
        if let Symbol::Random { block, arm, chance } = v {
            match self.block_arm {
                Some((current_block, current_arm, _chance)) => {
                    if *block == current_block {
                        return if *arm == current_arm { Prop::True } else { Prop::False };
                    }
                    if *chance == 0 {
                        return Prop::False;
                    }
                },
                None => {
                    if let Some(chosen_arm) = self.truthy_block_arm.get(block) {
                        return if *chosen_arm == *arm { Prop::True } else { Prop::False };
                    }
                    if self.arm_is_falsy(*block, *arm) {
                        return Prop::False;
                    }
                    if *chance == 0 {
                        return Prop::False;
                    }
                    let total: u64 = *chance as u64 + self.chance_increase(*block) as u64;
                    if total >= 100 {
                        return Prop::True;
                    }
                },
            }
        }
        if let Symbol::Name(id) = v {
            if self.is_true(id) {
                return Prop::True;
            }
            if self.is_false(id) {
                return Prop::False;
            }
        }
        Prop::Var(v.clone())
    }
}

impl Default for Guard {
    fn default() -> (r: Guard)
        ensures
            r@ == GuardV::empty(),
    {
        Guard::new()
    }
}

} // verus!
