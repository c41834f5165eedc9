use rmsc_core::ast::{Identifier, Span, Type};
use rmsc_core::guard::Guard;
use rmsc_core::id_info::{IdInfo, SrcLoc};
use rmsc_core::prop::{Prop, Symbol};
use rmsc_core::simplify::Simplifiable;
use rmsc_core::type_env::{Liveness, TypeEnv};

fn loc() -> SrcLoc {
    SrcLoc::from("f.rms", &Span { start: 0, end: 1 })
}

#[test]
fn arm_and_its_own_negation_is_false() {
    let p = Prop::from_block(1, 0, 50);
    let r = vec![p.clone(), !p].simplify_and(None);
    assert_eq!(r, Prop::False);
}

#[test]
fn negated_arm_kept_beside_an_arm_of_another_block() {
    let p = Prop::from_block(1, 0, 50);
    let q = !Prop::from_block(2, 1, 50);
    let r = vec![p.clone(), q.clone()].simplify_and(None);
    assert_eq!(r, Prop::And(vec![p, q]));
}

#[test]
fn negated_arm_dropped_beside_another_arm_of_its_block() {
    let p = Prop::from_block(1, 0, 50);
    let q = !Prop::from_block(1, 1, 50);
    let r = vec![p.clone(), q].simplify_and(None);
    assert_eq!(r, p);
}

#[test]
fn negated_arms_of_two_blocks_stay_a_disjunction() {
    let p = !Prop::from_block(1, 0, 50);
    let q = !Prop::from_block(2, 0, 50);
    let r = vec![p, q].simplify_or(None);
    assert_ne!(r, Prop::True);
    assert_eq!(r, Prop::Or(vec![!Prop::from_block(1, 0, 50), !Prop::from_block(2, 0, 50)]));
}

#[test]
fn negated_arms_of_one_block_are_true() {
    let p = !Prop::from_block(1, 0, 50);
    let q = !Prop::from_block(1, 1, 50);
    assert_eq!(vec![p, q].simplify_or(None), Prop::True);
}

#[test]
fn arms_of_chance_zero_and_hundred() {
    let g = Guard::new();
    assert_eq!(g.lookup(&Symbol::from_block(1, 0, 100)), Prop::True);
    assert_eq!(g.lookup(&Symbol::from_block(1, 0, 0)), Prop::False);
    assert_eq!(g.lookup(&Symbol::from_block(1, 0, 40)), Prop::from_block(1, 0, 40));
}

#[test]
fn arm_of_chance_zero_inside_another_arm() {
    let mut g = Guard::new();
    g.in_arm(2, 0, 50);
    assert_eq!(g.lookup(&Symbol::from_block(1, 3, 0)), Prop::False);
    assert_eq!(g.lookup(&Symbol::from_block(2, 0, 50)), Prop::True);
    assert_eq!(g.lookup(&Symbol::from_block(2, 1, 50)), Prop::False);
}

#[test]
fn name_made_true_is_not_met_again() {
    let mut env = TypeEnv::new(vec![], false, false);
    env.set(&Identifier::new("B"), IdInfo { type_: Type::Label, src_loc: loc(), guard: Prop::from_name("A") });
    env.set(
        &Identifier::new("D"),
        IdInfo { type_: Type::Label, src_loc: loc(), guard: Prop::from_name("A") & Prop::from_name("B") },
    );
    env.truthify("A");
    assert_eq!(env.check_live(&Identifier::new("D"), false), Liveness::Live);
}

#[test]
fn name_made_false_is_dead_through_its_uses() {
    let mut env = TypeEnv::new(vec![], false, false);
    env.set(&Identifier::new("B"), IdInfo { type_: Type::Label, src_loc: loc(), guard: Prop::from_name("A") });
    env.set(
        &Identifier::new("D"),
        IdInfo { type_: Type::Label, src_loc: loc(), guard: Prop::from_name("A") & Prop::from_name("B") },
    );
    env.falsify("A");
    assert_eq!(env.check_live(&Identifier::new("D"), false), Liveness::Dead);
}

#[test]
fn identifier_from_text() {
    let id: Identifier = Identifier::from("TOWN_CENTER");
    assert!(id.same(&Identifier::new("TOWN_CENTER")));
    assert_eq!(id, Identifier::new("TOWN_CENTER"));
}

#[test]
fn conjunctions_covering_a_block_give_what_they_share() {
    let g = Prop::from_name("A");
    let r = vec![
        Prop::And(vec![g.clone(), Prop::from_block(2, 0, 50)]),
        Prop::And(vec![g.clone(), Prop::from_block(2, 1, 50)]),
    ]
    .simplify_or(None);
    assert_eq!(r, g);
}

#[test]
fn conjunctions_short_of_a_block_stay_a_disjunction() {
    let g = Prop::from_name("A");
    let t1 = Prop::And(vec![g.clone(), Prop::from_block(2, 0, 40)]);
    let t2 = Prop::And(vec![g.clone(), Prop::from_block(2, 1, 50)]);
    let r = vec![t1.clone(), t2.clone()].simplify_or(None);
    assert_eq!(r, Prop::Or(vec![t1, t2]));
}

#[test]
fn conjunctions_covering_a_block_with_two_names() {
    let a = Prop::from_name("A");
    let b = Prop::from_name("B");
    let r = vec![
        Prop::And(vec![a.clone(), Prop::from_block(3, 0, 70), b.clone()]),
        Prop::And(vec![a.clone(), Prop::from_block(3, 2, 30), b.clone()]),
    ]
    .simplify_or(None);
    assert_eq!(r, Prop::And(vec![a, b]));
}

#[test]
fn name_defined_in_certain_and_impossible_arms() {
    let mut env = TypeEnv::new(vec![], false, false);
    env.set(&Identifier::new("X"), IdInfo { type_: Type::Label, src_loc: loc(), guard: Prop::from_block(1, 0, 100) });
    env.set(&Identifier::new("Y"), IdInfo { type_: Type::Label, src_loc: loc(), guard: Prop::from_block(1, 1, 0) });
    env.set(
        &Identifier::new("Z"),
        IdInfo { type_: Type::Label, src_loc: loc(), guard: Prop::from_block(1, 0, 100) & Prop::from_block(2, 1, 40) },
    );
    assert_eq!(env.check_live(&Identifier::new("X"), false), Liveness::Live);
    assert_eq!(env.check_live(&Identifier::new("Y"), false), Liveness::Dead);
    assert_eq!(env.check_live(&Identifier::new("Z"), false), Liveness::Maybe);
}

#[test]
fn negated_arm_keeps_its_chance_in_a_disjunction() {
    let p = !Prop::from_block(1, 0, 50);
    let q = Prop::from_name("Q");
    let r = vec![p.clone(), q.clone()].simplify_or(None);
    assert_eq!(r, Prop::Or(vec![p.clone(), q.clone()]));
    assert_eq!(r.simplify(&Guard::new()), Prop::Or(vec![p, q]));
}

#[test]
fn asserted_arms_of_a_block_are_merged() {
    let r = vec![Prop::from_block(1, 0, 30), Prop::from_block(1, 1, 30), Prop::from_name("Q")].simplify_or(None);
    assert_eq!(r, Prop::Or(vec![Prop::from_block(1, 0, 60), Prop::from_name("Q")]));
}

#[test]
fn joined_definitions_hold_when_either_does() {
    let mut info = IdInfo { type_: Type::Label, src_loc: loc(), guard: Prop::from_name("A") };
    let mut g = Guard::new();
    g.truthify(1, "B");
    info.join(&g);
    assert_eq!(info.guard, Prop::Or(vec![Prop::from_name("A"), Prop::from_name("B")]));
    let mut env = TypeEnv::new(vec![], false, false);
    env.set(&Identifier::new("X"), info);
    env.truthify("B");
    assert_eq!(env.check_live(&Identifier::new("X"), false), Liveness::Live);
}
