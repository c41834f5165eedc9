use std::collections::HashSet;

use rmsc_core::ast::{AstNode, Identifier, Span, Spanned, Type};
use rmsc_core::guard::Guard;
use rmsc_core::id_info::{IdInfo, SrcLoc};
use rmsc_core::prop::Prop;
use rmsc_core::rms_error::{RmsError, WarningKind};
use rmsc_core::statement::{rms_tc, rms_tc_stmt, SourceFile};
use rmsc_core::type_env::{Liveness, TypeEnv};

fn sp(start: usize) -> Span {
    Span { start, end: start + 1 }
}

fn define(n: &str, at: usize) -> Spanned<AstNode> {
    (AstNode::LabelDef((Identifier::new(n), sp(at))), sp(at))
}

fn section(n: &str, at: usize) -> Spanned<AstNode> {
    (AstNode::SectionStart((Identifier::new(n), sp(at))), sp(at))
}

#[test]
fn law_case_double_negation() {
    let p = Prop::from_name("A") & Prop::from_name("B");
    assert_eq!(!!p.clone(), p);
    let q = Prop::from_block(2, 1, 40);
    assert_eq!(!!q.clone(), q);
}

#[test]
fn law_case_set_then_lookup() {
    let mut env = TypeEnv::new(vec![], false, false);
    let loc = || SrcLoc::from("f.rms", &sp(0));
    env.set(&Identifier::new("A"), IdInfo::from(&Type::Int, loc(), &Guard::new()));
    env.set(&Identifier::new("B"), IdInfo::from(&Type::Label, loc(), &Guard::new()));
    env.set(&Identifier::new("A"), IdInfo::from(&Type::Float, loc(), &Guard::new()));
    assert_eq!(env.get(&Identifier::new("A")).unwrap().type_, Type::Float);
    assert_eq!(env.get(&Identifier::new("B")).unwrap().type_, Type::Label);
    assert!(env.get(&Identifier::new("C")).is_none());
}

#[test]
fn law_case_recorded_errors() {
    let mut env = TypeEnv::new(vec![], false, false);
    env.add_err("a.rms", RmsError::syntax(&sp(1), "first", vec![]));
    env.add_err("b.rms", RmsError::syntax(&sp(2), "other", vec![]));
    env.add_err("a.rms", RmsError::syntax(&sp(3), "second", vec![]));
    let errs = env.errs();
    assert_eq!(errs.len(), 2);
    assert_eq!(errs[0].0, "a.rms");
    assert_eq!(errs[0].1.len(), 2);
    assert_eq!(*errs[0].1[0].span(), sp(1));
    assert_eq!(*errs[0].1[1].span(), sp(3));
    assert_eq!(errs[1].1.len(), 1);
}

#[test]
fn law_case_ignored_warning() {
    let mut env = TypeEnv::new(vec![], false, false);
    let mut codes = HashSet::new();
    codes.insert(1000u32);
    let t = env.temp_ignore(codes);
    env.add_err("f.rms", RmsError::warning(&sp(0), "w", vec![], WarningKind::UnknownWarningName));
    env.add_err("f.rms", RmsError::warning(&sp(1), "v", vec![], WarningKind::ShadowedVarName));
    env.end_ignore(t);
    env.add_err("f.rms", RmsError::warning(&sp(2), "u", vec![], WarningKind::UnknownWarningName));
    let errs = &env.errs()[0].1;
    assert!(errs[0].is_ignored());
    assert!(!errs[1].is_ignored());
    assert!(!errs[2].is_ignored());
}

#[test]
fn law_case_nested_restores() {
    let mut env = TypeEnv::new(vec![], false, false);
    env.truthify("A");
    let before = env.guard().get_prop();
    let nested = env.nested_guard();
    env.truthify("B");
    env.in_arm(1, 50);
    env.leave_nested(nested);
    assert_eq!(env.guard().get_prop(), before);
}

#[test]
fn law_case_body_in_sequence() {
    let body = vec![define("A", 1), section("NOT_A_SECTION", 2), define("B", 3)];
    let whole = SourceFile { path: String::from("f.rms"), ast: body, comments: vec![], parse_errs: vec![] };
    let mut at_once = TypeEnv::new(vec![], false, false);
    assert!(rms_tc(&whole, &mut at_once, &vec![]).is_ok());

    let mut one_by_one = TypeEnv::new(vec![], false, false);
    let mut pos = 0usize;
    let files: Vec<SourceFile> = vec![];
    let visiting = vec![String::from("f.rms")];
    let comments: Vec<Spanned<String>> = vec![];
    for stmt in whole.ast.iter() {
        assert!(rms_tc_stmt("f.rms", stmt, &mut one_by_one, &files, &visiting, &comments, &mut pos, true).is_ok());
    }
    assert_eq!(at_once.errs().len(), one_by_one.errs().len());
    assert_eq!(at_once.errs()[0].1.len(), one_by_one.errs()[0].1.len());
    for n in ["A", "B"] {
        assert_eq!(at_once.check_live(&Identifier::new(n), false), one_by_one.check_live(&Identifier::new(n), false));
    }
}

#[test]
fn law_case_no_definitions() {
    let ast = vec![
        define("A", 1),
        section("NOT_A_SECTION", 2),
        (AstNode::Command { name: (Identifier::new("cmd"), sp(3)), params: vec![] }, sp(3)),
    ];
    let f = SourceFile { path: String::from("f.rms"), ast, comments: vec![], parse_errs: vec![] };
    let mut env = TypeEnv::new(vec![], false, false);
    assert!(rms_tc(&f, &mut env, &vec![]).is_ok());
    assert_eq!(env.check_live(&Identifier::new("A"), false), Liveness::Live);
    assert!(env.get(&Identifier::new("NOT_A_SECTION")).is_none());
    assert!(env.get(&Identifier::new("cmd")).is_none());
}

#[test]
fn law_case_errors_kept() {
    let mut env = TypeEnv::new(vec![], false, false);
    env.add_err("f.rms", RmsError::syntax(&sp(0), "before", vec![]));
    let f = SourceFile {
        path: String::from("f.rms"),
        ast: vec![section("NOT_A_SECTION", 2)],
        comments: vec![],
        parse_errs: vec![],
    };
    assert!(rms_tc(&f, &mut env, &vec![]).is_ok());
    let errs = &env.errs()[0].1;
    assert_eq!(errs.len(), 2);
    assert_eq!(*errs[0].span(), sp(0));
    assert_eq!(*errs[1].span(), sp(2));
}

#[test]
fn law_case_falsify_is_truthify_negation() {
    let p = Prop::from_name("A") | (Prop::from_name("B") & !Prop::from_block(3, 1, 40));
    let mut e1 = TypeEnv::new(vec![], false, false);
    let mut e2 = TypeEnv::new(vec![], false, false);
    e1.falsify_guard(&p);
    e2.truthify_guard(&p.negated());
    let (g1, g2) = (e1.guard(), e2.guard());
    assert_eq!(g1.truthy, g2.truthy);
    assert_eq!(g1.falsy, g2.falsy);
    assert_eq!(g1.block_arm, g2.block_arm);
    assert_eq!(g1.falsy_block_arms, g2.falsy_block_arms);
    assert_eq!(g1.truthy_block_arm, g2.truthy_block_arm);
    assert!(g1.is_false(&Identifier::new("A")));
    assert!(!g1.is_false(&Identifier::new("B")));
}
