use vstd::prelude::*;
use crate::ast::{Span, Type};
use crate::guard::{Guard, GuardV};
use crate::prop::{Prop, PropV};
use crate::simplify::{guard_prop, disj_v, conj_v, simplify_v};
use crate::prop::negate_v;
use crate::strings::string_from;

verus! {

/// Where a name was defined: a file and a span in it.
#[derive(Debug)]
pub struct SrcLoc {
    pub path: String,
    pub span: Span,
}

impl SrcLoc {
    /// The location `span` in the file `path`.
    pub fn from(path: &str, span: &Span) -> (r: SrcLoc)
        ensures
            r.path@ == path@,
            r.span == *span,
    {
        SrcLoc { path: string_from(path), span: *span }
    }

    /// A copy of this location.
    pub fn clone_loc(&self) -> (r: SrcLoc)
        ensures
            r.path@ == self.path@,
            r.span == self.span,
    {
        SrcLoc { path: self.path.clone(), span: self.span }
    }
}

/// What is known of a defined name: its type, where it was defined, and
/// the proposition under which it is defined.
#[derive(Debug)]
pub struct IdInfo {
    pub type_: Type,
    pub src_loc: SrcLoc,
    pub guard: Prop,
}

/// The mathematical value of an [`IdInfo`].
pub struct IdInfoV {
    pub type_: Type,
    pub path: Seq<char>,
    pub span: Span,
    pub guard: PropV,
}

impl View for IdInfo {
    type V = IdInfoV;

    open spec fn view(&self) -> IdInfoV {
        IdInfoV { type_: self.type_, path: self.src_loc.path@, span: self.src_loc.span, guard: self.guard@ }
    }
}

impl IdInfo {
    /// A name of type `type_` defined at `src_loc`, under what `guard` knows.
    pub fn from(type_: &Type, src_loc: SrcLoc, guard: &Guard) -> (r: IdInfo)
        ensures
            r.type_ == *type_,
            r.src_loc == src_loc,
            r.guard@ == guard_prop(guard@),
    {
        IdInfo { type_: *type_, src_loc, guard: guard.get_prop() }
    }

    /// A copy of this information.
    pub fn clone_info(&self) -> (r: IdInfo)
        ensures
            r@ == self@,
    {
        IdInfo { type_: self.type_, src_loc: self.src_loc.clone_loc(), guard: self.guard.clone_prop() }
    }

    /// The name is also defined under what `guard` knows: its proposition
    /// becomes the disjunction of the two, simplified.
    pub fn join(&mut self, guard: &Guard)
        ensures
            final(self).guard@ == simplify_v(disj_v(old(self).guard@, guard_prop(guard@)), GuardV::empty()),
            final(self).type_ == old(self).type_,
            final(self).src_loc == old(self).src_loc,
    {
        let current = self.guard.clone_prop();
        let joined = current.disj(guard.get_prop());
        let empty = Guard::new();
        self.guard = joined.simplify(&empty);
    }

    /// The name is no longer defined under what `guard` knows: its
    /// proposition becomes the conjunction with the negation, simplified.
    pub fn join_not(&mut self, guard: &Guard)
        requires
            !(old(self).guard@ is Or && negate_v(guard_prop(guard@)) is Or),
        ensures
            final(self).guard@ == simplify_v(conj_v(old(self).guard@, negate_v(guard_prop(guard@))), GuardV::empty()),
            final(self).type_ == old(self).type_,
            final(self).src_loc == old(self).src_loc,
    {
        let current = self.guard.clone_prop();
        let negated = guard.get_prop().negated();
        let met = current.conj(negated);
        let empty = Guard::new();
        self.guard = met.simplify(&empty);
    }
}

} // verus!
