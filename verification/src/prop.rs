use vstd::prelude::*;
use crate::ast::Identifier;
use crate::strings::{concat, string_from};
use crate::text::join_v;
use crate::token::{nat_text, nat_to_string};

verus! {

/// An atom of a guard proposition: a name that is defined, or the choice of
/// arm `arm` (taken with `chance` percent) in the random block `block`.
#[derive(Debug, PartialEq, Eq, Hash)]
pub enum Symbol {
    Name(Identifier),
    Random { block: u32, arm: u32, chance: u32 },
}

/// A proposition over symbols, kept in disjunctive normal form.
#[derive(Debug, PartialEq, Eq, Hash)]
pub enum Prop {
    True,
    False,
    Var(Symbol),
    And(Vec<Prop>),
    Or(Vec<Prop>),
    Not(Symbol),
}

/// The mathematical value of a [`Symbol`]: names are compared by their text.
pub enum SymbolV {
    Name(Seq<char>),
    Random { block: u32, arm: u32, chance: u32 },
}

/// The mathematical value of a [`Prop`].
pub enum PropV {
    True,
    False,
    Var(SymbolV),
    And(Seq<PropV>),
    Or(Seq<PropV>),
    Not(SymbolV),
}

impl View for Symbol {
    type V = SymbolV;

    open spec fn view(&self) -> SymbolV {
        match self {
            Symbol::Name(id) => SymbolV::Name(id@),
            Symbol::Random { block, arm, chance } => SymbolV::Random {
                block: *block,
                arm: *arm,
                chance: *chance,
            },
        }
    }
}

pub open spec fn view_seq(v: Seq<Prop>) -> Seq<PropV>
    decreases v,
{
    Seq::new(v.len(), |i: int| if 0 <= i < v.len() { view_prop(v[i]) } else { PropV::True })
}

pub open spec fn view_prop(p: Prop) -> PropV
    decreases p,
{
    match p {
        Prop::True => PropV::True,
        Prop::False => PropV::False,
        Prop::Var(s) => PropV::Var(s@),
        Prop::Not(s) => PropV::Not(s@),
        Prop::And(v) => PropV::And(view_seq(v@)),
        Prop::Or(v) => PropV::Or(view_seq(v@)),
    }
}

impl View for Prop {
    type V = PropV;

    open spec fn view(&self) -> PropV {
        view_prop(*self)
    }
}

/// The view of a vector of propositions, element by element.
pub open spec fn props_view(v: Vec<Prop>) -> Seq<PropV> {
    view_seq(v@)
}

/// `true`, `false` or a (possibly negated) symbol.
pub open spec fn is_singleton_v(p: PropV) -> bool {
    p matches PropV::True || p matches PropV::False || p matches PropV::Var(_) || p matches PropV::Not(_)
}

/// The logical negation, pushed down to the symbols by De Morgan's laws.
pub open spec fn negate_v(p: PropV) -> PropV
    decreases p,
{
    match p {
        PropV::True => PropV::False,
        PropV::False => PropV::True,
        PropV::Var(s) => PropV::Not(s),
        PropV::Not(s) => PropV::Var(s),
        PropV::And(xs) => PropV::Or(Seq::new(xs.len(), |i: int| if 0 <= i < xs.len() { negate_v(xs[i]) } else { PropV::True })),
        PropV::Or(xs) => PropV::And(Seq::new(xs.len(), |i: int| if 0 <= i < xs.len() { negate_v(xs[i]) } else { PropV::True })),
    }
}

impl Clone for Symbol {
    fn clone(&self) -> (r: Self)
        ensures
            r@ == self@,
    {
        match self {
            Symbol::Name(id) => Symbol::Name(id.clone()),
            Symbol::Random { block, arm, chance } => Symbol::Random { block: *block, arm: *arm, chance: *chance },
        }
    }
}

impl Symbol {
    /// The symbol of the name `name`.
    pub fn from_name(name: &str) -> (r: Symbol)
        ensures
            r@ == SymbolV::Name(name@),
    {
        Symbol::Name(Identifier::new(name))
    }

    /// The symbol of arm `arm` of random block `block`, taken with `chance` percent.
    pub fn from_block(block: u32, arm: u32, chance: u32) -> (r: Symbol)
        ensures
            r@ == (SymbolV::Random { block, arm, chance }),
    {
        Symbol::Random { block, arm, chance }
    }

    /// Equality of symbols, names compared by their text.
    pub fn same(&self, other: &Symbol) -> (r: bool)
        ensures
            r == (self@ == other@),
    {
        match (self, other) {
            (Symbol::Name(a), Symbol::Name(b)) => a.same(b),
            (Symbol::Random { block: b1, arm: a1, chance: c1 }, Symbol::Random { block: b2, arm: a2, chance: c2 }) => {
                *b1 == *b2 && *a1 == *a2 && *c1 == *c2
            },
            _ => false,
        }
    }
}

/// Copies a vector of propositions.
pub fn clone_props(v: &Vec<Prop>) -> (r: Vec<Prop>)
    ensures
        props_view(r) == props_view(*v),
    decreases v,
{
    let mut r: Vec<Prop> = Vec::new();
    let mut i: usize = 0;
    while i < v.len()
        invariant
            i <= v.len(),
            r@.len() == i,
            forall|j: int| 0 <= j < i ==> view_prop(#[trigger] r@[j]) == view_prop(v@[j]),
        decreases v.len() - i,
    {
        let c = v[i].clone_prop();
        r.push(c);
        i += 1;
    }
    assert(props_view(r) =~= props_view(*v));
    r
}

impl Prop {
    /// A deep copy.
    pub fn clone_prop(&self) -> (r: Prop)
        ensures
            r@ == self@,
        decreases self,
    {
        match self {
            Prop::True => Prop::True,
            Prop::False => Prop::False,
            Prop::Var(s) => Prop::Var(s.clone()),
            Prop::Not(s) => Prop::Not(s.clone()),
            Prop::And(v) => Prop::And(clone_props(v)),
            Prop::Or(v) => Prop::Or(clone_props(v)),
        }
    }
}


impl Clone for Prop {
    fn clone(&self) -> (r: Self)
        ensures
            r@ == self@,
    {
        self.clone_prop()
    }
}

/// Element-wise equality of two vectors of propositions.
pub fn same_props(a: &Vec<Prop>, b: &Vec<Prop>) -> (r: bool)
    ensures
        r == (props_view(*a) == props_view(*b)),
    decreases a,
{
    if a.len() != b.len() {
        proof {
            assert(props_view(*a).len() != props_view(*b).len());
        }
        return false;
    }
    let mut i: usize = 0;
    while i < a.len()
        invariant
            i <= a.len(),
            a.len() == b.len(),
            forall|j: int| 0 <= j < i ==> view_prop(#[trigger] a@[j]) == view_prop(b@[j]),
        decreases a.len() - i,
    {
        if !a[i].same(&b[i]) {
            proof {
                assert(props_view(*a)[i as int] != props_view(*b)[i as int]);
            }
            return false;
        }
        i += 1;
    }
    assert(props_view(*a) =~= props_view(*b));
    true
}

/// Negates every element of a vector.
pub fn negate_props(v: &Vec<Prop>) -> (r: Vec<Prop>)
    ensures
        props_view(r) == Seq::new(
            v@.len(),
            |i: int| if 0 <= i < v@.len() { negate_v(view_prop(v@[i])) } else { PropV::True },
        ),
    decreases v,
{
    let mut r: Vec<Prop> = Vec::new();
    let mut i: usize = 0;
    while i < v.len()
        invariant
            i <= v.len(),
            r@.len() == i,
            forall|j: int| 0 <= j < i ==> view_prop(#[trigger] r@[j]) == negate_v(view_prop(v@[j])),
        decreases v.len() - i,
    {
        r.push(v[i].negated());
        i += 1;
    }
    assert(props_view(r) =~= Seq::new(
            v@.len(),
            |i: int| if 0 <= i < v@.len() { negate_v(view_prop(v@[i])) } else { PropV::True },
        ));
    r
}

impl Prop {
    /// Structural equality, names compared by their text.
    pub fn same(&self, other: &Prop) -> (r: bool)
        ensures
            r == (self@ == other@),
        decreases self,
    {
        match (self, other) {
            (Prop::True, Prop::True) => true,
            (Prop::False, Prop::False) => true,
            (Prop::Var(a), Prop::Var(b)) => a.same(b),
            (Prop::Not(a), Prop::Not(b)) => a.same(b),
            (Prop::And(a), Prop::And(b)) => same_props(a, b),
            (Prop::Or(a), Prop::Or(b)) => same_props(a, b),
            _ => false,
        }
    }

    /// The negation of `self`, pushed down to its symbols by De Morgan's laws.
    pub fn negated(&self) -> (r: Prop)
        ensures
            r@ == negate_v(self@),
        decreases self,
    {
        match self {
            Prop::True => Prop::False,
            Prop::False => Prop::True,
            Prop::Var(s) => Prop::Not(s.clone()),
            Prop::Not(s) => Prop::Var(s.clone()),
            Prop::And(et) => {
                let r = negate_props(et);
                proof {
                    if let PropV::Or(ys) = negate_v(self@) {
                        assert(ys =~= props_view(r));
                    }
                }
                Prop::Or(r)
            },
            Prop::Or(vel) => {
                let r = negate_props(vel);
                proof {
                    if let PropV::And(ys) = negate_v(self@) {
                        assert(ys =~= props_view(r));
                    }
                }
                Prop::And(r)
            },
        }
    }

    /// `true`, `false` or a (possibly negated) symbol.
    pub fn is_singleton(&self) -> (r: bool)
        ensures
            r == is_singleton_v(self@),
    {
        match self {
            Prop::True | Prop::False | Prop::Var(_) | Prop::Not(_) => true,
            _ => false,
        }
    }

    /// A negated symbol.
    pub fn is_not(&self) -> (r: bool)
        ensures
            r == (self@ is Not),
    {
        match self {
            Prop::Not(_) => true,
            _ => false,
        }
    }

    /// The proposition that `name` is defined.
    pub fn from_name(name: &str) -> (r: Prop)
        ensures
            r@ == PropV::Var(SymbolV::Name(name@)),
    {
        Prop::Var(Symbol::from_name(name))
    }

    /// The proposition that the identifier `id` is defined.
    pub fn from_id(id: &Identifier) -> (r: Prop)
        ensures
            r@ == PropV::Var(SymbolV::Name(id@)),
    {
        Prop::Var(Symbol::Name(id.clone()))
    }

    /// The proposition that arm `arm` of random block `block` was taken.
    pub fn from_block(block: u32, arm: u32, chance: u32) -> (r: Prop)
        ensures
            r@ == PropV::Var(SymbolV::Random { block, arm, chance }),
    {
        Prop::Var(Symbol::from_block(block, arm, chance))
    }
}

// ---------------------------------------------------------------------
// Text.

/// The text of a symbol: its name, or `Rnd(block, arm, chance)`.
pub open spec fn symbol_text(s: SymbolV) -> Seq<char> {
    match s {
        SymbolV::Name(n) => n,
        SymbolV::Random { block, arm, chance } => "Rnd("@ + nat_text(block as nat) + ", "@ + nat_text(arm as nat) + ", "@
            + nat_text(chance as nat) + ")"@,
    }
}

/// The text of a proposition: `true`, `false`, a symbol, a symbol
/// followed by `'` when negated, and conjunctions and disjunctions in
/// brackets with ` & ` or ` | ` between their terms.
pub open spec fn prop_text(p: PropV) -> Seq<char>
    decreases p,
{
    match p {
        PropV::True => "true"@,
        PropV::False => "false"@,
        PropV::Var(s) => symbol_text(s),
        PropV::Not(s) => symbol_text(s) + "'"@,
        PropV::And(xs) => "("@ + join_v(texts(xs), " & "@) + ")"@,
        PropV::Or(xs) => "("@ + join_v(texts(xs), " | "@) + ")"@,
    }
}

/// The text of each of `xs`.
pub open spec fn texts(xs: Seq<PropV>) -> Seq<Seq<char>>
    decreases xs,
{
    Seq::new(xs.len(), |i: int| if 0 <= i < xs.len() { prop_text(xs[i]) } else { Seq::empty() })
}

impl Symbol {
    /// The text of the symbol (see [`symbol_text`]).
    pub fn to_display_string(&self) -> (r: String)
        ensures
            r@ == symbol_text(self@),
    {
        match self {
            Symbol::Name(id) => string_from(id.0.as_str()),
            Symbol::Random { block, arm, chance } => {
                let b = nat_to_string(*block as u64);
                let a = nat_to_string(*arm as u64);
                let c = nat_to_string(*chance as u64);
                let s1 = concat("Rnd(", b.as_str());
                let s2 = concat(s1.as_str(), ", ");
                let s3 = concat(s2.as_str(), a.as_str());
                let s4 = concat(s3.as_str(), ", ");
                let s5 = concat(s4.as_str(), c.as_str());
                concat(s5.as_str(), ")")
            },
        }
    }
}

/// The texts of the terms `v` with `sep` between each two, in brackets.
fn terms_text(v: &Vec<Prop>, sep: &str) -> (r: String)
    ensures
        r@ == "("@ + join_v(texts(props_view(*v)), sep@) + ")"@,
    decreases v,
{
    let ghost ts = texts(props_view(*v));
    let mut s = string_from("(");
    let mut i: usize = 0;
    while i < v.len()
        invariant
            i <= v.len(),
            ts == texts(props_view(*v)),
            ts.len() == v@.len(),
            s@ == "("@ + join_v(ts.take(i as int), sep@),
        decreases v.len() - i,
    {
        let t = v[i].to_display_string();
        proof {
            assert(ts.take(i + 1).drop_last() =~= ts.take(i as int));
            assert(ts.take(i + 1).last() == ts[i as int]);
            assert(ts[i as int] == prop_text(view_prop(v@[i as int])));
        }
        if i > 0 {
            s.append(sep);
        }
        s.append(t.as_str());
        proof {
            if i == 0 {
                assert(ts.take(1).len() == 1);
                assert(s@ =~= "("@ + join_v(ts.take(1), sep@));
            } else {
                assert(s@ =~= "("@ + (join_v(ts.take(i as int), sep@) + sep@ + ts[i as int]));
            }
        }
        i += 1;
    }
    proof {
        assert(ts.take(v@.len() as int) =~= ts);
    }
    concat(s.as_str(), ")")
}

impl Prop {
    /// The text of the proposition (see [`prop_text`]).
    pub fn to_display_string(&self) -> (r: String)
        ensures
            r@ == prop_text(self@),
        decreases self,
    {
        match self {
            Prop::True => string_from("true"),
            Prop::False => string_from("false"),
            Prop::Var(s) => s.to_display_string(),
            Prop::Not(s) => {
                let t = s.to_display_string();
                concat(t.as_str(), "'")
            },
            Prop::And(et) => terms_text(et, " & "),
            Prop::Or(vel) => terms_text(vel, " | "),
        }
    }
}

} // verus!
