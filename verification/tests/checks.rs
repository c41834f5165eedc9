use std::collections::HashSet;

use rmsc_core::ast::{AstNode, Body, Expr, Identifier, Literal, Span, Spanned, Type};
use rmsc_core::doxygen::{warnings_from_str, Doc};
use rmsc_core::id_info::{IdInfo, SrcLoc};
use rmsc_core::guard::Guard;
use rmsc_core::prop::Prop;
use rmsc_core::rms_error::{RmsError, WarningKind};
use rmsc_core::statement::{join_path, rms_tc, rms_tc_stmt, ParseError, SourceFile};
use rmsc_core::token::{int_to_string, Token};
use rmsc_core::type_check::{arith_op, combine_results, rms_tc_expr};
use rmsc_core::type_env::{Liveness, TypeEnv};

fn sp(start: usize, end: usize) -> Span {
    Span { start, end }
}

fn lit_int(v: i64, at: usize) -> Spanned<Expr> {
    (Expr::Literal(Literal::Int(v)), sp(at, at + 1))
}

fn lit_float(text: &str, at: usize) -> Spanned<Expr> {
    (Expr::Literal(Literal::Float(String::from(text))), sp(at, at + 1))
}

fn name(n: &str, at: usize) -> Spanned<Expr> {
    (Expr::Identifier(Identifier::new(n)), sp(at, at + 1))
}

fn define(n: &str, at: usize) -> Spanned<AstNode> {
    (AstNode::LabelDef((Identifier::new(n), sp(at, at + 1))), sp(at, at + 1))
}

fn file(path: &str, ast: Body, comments: Vec<Spanned<String>>) -> SourceFile {
    SourceFile { path: String::from(path), ast, comments, parse_errs: vec![] }
}

fn all_errs(env: &TypeEnv, path: &str) -> Vec<String> {
    let mut out = vec![];
    for (p, errs) in env.errs().iter() {
        if p == path {
            for e in errs {
                out.push(String::from(e.kind()));
            }
        }
    }
    out
}

fn err_count(env: &TypeEnv) -> usize {
    env.errs().iter().map(|(_, errs)| errs.len()).sum()
}

// ---------------------------------------------------------------------
// Names the game defines.

#[test]
fn default_names_listed_and_numbered() {
    assert!(Identifier::new("DEATH_MATCH").is_default_name());
    assert!(Identifier::new("MAPSIZE_LUDICROUS").is_default_name());
    assert!(Identifier::new("DE_GAME_AGE2").is_default_name());
    assert!(Identifier::new("2_PLAYER_GAME").is_default_name());
    assert!(Identifier::new("12_TEAM_GAME").is_default_name());
    assert!(Identifier::new("PLAYER1_TEAM2").is_default_name());
    assert!(Identifier::new("TEAM3_SIZE4").is_default_name());
}

#[test]
fn default_names_rejected() {
    assert!(!Identifier::new("MY_NAME").is_default_name());
    assert!(!Identifier::new("PLAYER_TEAM").is_default_name());
    assert!(!Identifier::new("X2_PLAYER_GAME").is_default_name());
    assert!(!Identifier::new("death_match").is_default_name());
}

// ---------------------------------------------------------------------
// Expressions.

#[test]
fn arithmetic_types() {
    let mut env = TypeEnv::new(vec![], false, false);
    let s = sp(0, 5);
    assert_eq!(arith_op("f.rms", &s, &lit_int(1, 0), &lit_int(2, 2), &mut env, "add"), Some(Type::Int));
    assert_eq!(arith_op("f.rms", &s, &lit_int(1, 0), &lit_float("2.5", 2), &mut env, "add"), Some(Type::Float));
    assert_eq!(err_count(&env), 0);
    assert_eq!(arith_op("f.rms", &s, &lit_float("1.5", 0), &lit_float("2.5", 2), &mut env, "multiply"), None);
    let errs = &env.errs()[0].1;
    assert_eq!(errs.len(), 1);
    match &errs[0] {
        RmsError::OpMismatch { op, type1, type2, span, note } => {
            assert_eq!(op, "multiply");
            assert_eq!(type1, "float");
            assert_eq!(type2, "float");
            assert_eq!(*span, s);
            assert!(note.is_none());
        }
        e => panic!("unexpected error {:?}", e),
    }
}

#[test]
fn undefined_and_default_names() {
    let mut env = TypeEnv::new(vec![], false, false);
    assert_eq!(rms_tc_expr("f.rms", &name("TINY_MAP", 0), &mut env), Some(Type::Label));
    assert_eq!(err_count(&env), 0);
    assert_eq!(rms_tc_expr("f.rms", &name("NOPE", 3), &mut env), None);
    match &env.errs()[0].1[0] {
        RmsError::UndefinedName { name, span } => {
            assert_eq!(name, "NOPE");
            assert_eq!(*span, sp(3, 4));
        }
        e => panic!("unexpected error {:?}", e),
    }
}

#[test]
fn string_literal_has_no_type() {
    let mut env = TypeEnv::new(vec![], false, false);
    let e = (Expr::Literal(Literal::str("\"x\"")), sp(0, 3));
    assert_eq!(rms_tc_expr("f.rms", &e, &mut env), None);
    assert_eq!(err_count(&env), 0);
}

#[test]
fn negation_with_space() {
    let mut env = TypeEnv::new(vec![], false, false);
    let tight = (Expr::Neg(Box::new(lit_int(3, 1))), sp(0, 2));
    assert_eq!(rms_tc_expr("f.rms", &tight, &mut env), Some(Type::Int));
    assert_eq!(err_count(&env), 0);
    let spaced = (Expr::Neg(Box::new(lit_int(3, 5))), sp(3, 6));
    assert_eq!(rms_tc_expr("f.rms", &spaced, &mut env), Some(Type::Int));
    assert_eq!(all_errs(&env, "f.rms"), vec![String::from("SyntaxError")]);
}

#[test]
fn dead_name_is_reported() {
    let ast = vec![
        (
            AstNode::IfElseIf {
                consequents: vec![(name("A", 1), (vec![define("X", 2)], sp(2, 3)))],
                alternate: None,
            },
            sp(0, 4),
        ),
        (AstNode::Command { name: (Identifier::new("cmd"), sp(5, 8)), params: vec![name("X", 9)] }, sp(5, 10)),
    ];
    let mut env = TypeEnv::new(vec![], false, false);
    assert!(rms_tc(&file("f.rms", ast, vec![]), &mut env, &vec![]).is_ok());
    assert_eq!(env.check_live(&Identifier::new("X"), false), Liveness::Dead);
    // X is a label, so the command also gets a type error
    assert_eq!(all_errs(&env, "f.rms"), vec![String::from("NameError"), String::from("TypeError")]);
    assert!(matches!(&env.errs()[0].1[0], RmsError::DeadName { .. }));
}

// ---------------------------------------------------------------------
// Statements.

#[test]
fn const_and_section() {
    let ast = vec![
        (
            AstNode::ConstDef { name: (Identifier::new("N"), sp(0, 1)), value: lit_int(4, 2) },
            sp(0, 3),
        ),
        (AstNode::SectionStart((Identifier::new("PLAYER_SETUP"), sp(4, 16))), sp(3, 17)),
        (AstNode::SectionStart((Identifier::new("BAD_SECTION"), sp(18, 29))), sp(17, 30)),
        (AstNode::Command { name: (Identifier::new("cmd"), sp(31, 34)), params: vec![name("N", 35)] }, sp(31, 36)),
    ];
    let mut env = TypeEnv::new(vec![], false, false);
    assert!(rms_tc(&file("f.rms", ast, vec![]), &mut env, &vec![]).is_ok());
    assert_eq!(env.check_live(&Identifier::new("N"), false), Liveness::Live);
    assert_eq!(env.get(&Identifier::new("N")).unwrap().type_, Type::Int);
    assert_eq!(all_errs(&env, "f.rms"), vec![String::from("SyntaxError")]);
    match &env.errs()[0].1[0] {
        RmsError::Syntax { span, msg, keywords } => {
            assert_eq!(*span, sp(18, 29));
            assert_eq!(msg, "Unrecognized script section <{}>");
            assert_eq!(keywords, &vec![String::from("BAD_SECTION")]);
        }
        e => panic!("unexpected error {:?}", e),
    }
}

#[test]
fn if_condition_must_be_a_name() {
    let ast = vec![(
        AstNode::IfElseIf {
            consequents: vec![(lit_int(1, 3), (vec![define("X", 5)], sp(5, 6)))],
            alternate: None,
        },
        sp(0, 7),
    )];
    let mut env = TypeEnv::new(vec![], false, false);
    assert!(rms_tc(&file("f.rms", ast, vec![]), &mut env, &vec![]).is_ok());
    assert_eq!(all_errs(&env, "f.rms"), vec![String::from("SyntaxError")]);
    // the condition stands for a name that is never defined
    assert_eq!(env.check_live(&Identifier::new("X"), false), Liveness::Dead);
}

#[test]
fn random_chance_must_be_an_int() {
    let ast = vec![(
        AstNode::Random { arms: vec![(name("C", 2), (vec![define("X", 4)], sp(4, 5)))] },
        sp(0, 6),
    )];
    let mut env = TypeEnv::new(vec![], false, false);
    assert!(rms_tc(&file("f.rms", ast, vec![]), &mut env, &vec![]).is_ok());
    assert_eq!(all_errs(&env, "f.rms"), vec![String::from("SyntaxError")]);
    // the arm is given chance 0, and an arm of chance 0 is never taken
    assert_eq!(env.check_live(&Identifier::new("X"), false), Liveness::Dead);
}

#[test]
fn random_arms_summing_to_hundred() {
    let arm = |c: i64, at: usize| (lit_int(c, at), (vec![define("A", at + 1)], sp(at + 1, at + 2)));
    let ast = vec![(AstNode::Random { arms: vec![arm(50, 1), arm(50, 4)] }, sp(0, 8))];
    let mut env = TypeEnv::new(vec![], false, false);
    assert!(rms_tc(&file("f.rms", ast, vec![]), &mut env, &vec![]).is_ok());
    assert_eq!(env.check_live(&Identifier::new("A"), false), Liveness::Live);
}

#[test]
fn guard_restored_after_if() {
    let ast = vec![(
        AstNode::IfElseIf {
            consequents: vec![(name("A", 1), (vec![define("X", 2)], sp(2, 3)))],
            alternate: Some((vec![define("Y", 4)], sp(4, 5))),
        },
        sp(0, 6),
    )];
    let mut env = TypeEnv::new(vec![], false, false);
    let before = env.guard().get_prop();
    assert!(rms_tc(&file("f.rms", ast, vec![]), &mut env, &vec![]).is_ok());
    assert_eq!(env.guard().get_prop(), before);
}

// ---------------------------------------------------------------------
// Comments.

#[test]
fn ignore_comment_marks_warning() {
    let mut set = HashSet::new();
    set.insert(1000u32);
    let doc = Doc::parse("  /* rms-ignore: ShadowedVarName */");
    match doc {
        Ok(Doc::Ignore(codes)) => {
            let mut expected = HashSet::new();
            expected.insert(100u32);
            assert_eq!(codes, expected);
        }
        d => panic!("unexpected doc {:?}", d),
    }
    match Doc::parse("/* rms-ignore: Nonsense */") {
        Err(name) => assert_eq!(name, "Nonsense"),
        d => panic!("unexpected doc {:?}", d),
    }
}

#[test]
fn bad_ignore_comment_is_a_warning() {
    let ast = vec![define("A", 20)];
    let comments = vec![(String::from("/* rms-ignore: Nonsense */"), sp(0, 19))];
    let mut env = TypeEnv::new(vec![], false, false);
    assert!(rms_tc(&file("f.rms", ast, comments), &mut env, &vec![]).is_ok());
    let errs = &env.errs()[0].1;
    assert_eq!(errs.len(), 1);
    match &errs[0] {
        RmsError::Warning { span, msg, kind, ignored, .. } => {
            assert_eq!(*span, sp(0, 19));
            assert_eq!(msg, "Unrecognised warning name 'Nonsense'");
            assert_eq!(*kind, WarningKind::UnknownWarningName);
            assert!(!ignored);
        }
        e => panic!("unexpected error {:?}", e),
    }
    assert_eq!(errs[0].code(), 1000);
    let mut shown = HashSet::new();
    assert!(errs[0].is_reported(&shown));
    shown.insert(1000u32);
    assert!(!errs[0].is_reported(&shown));
}

#[test]
fn comment_position_moves_past_earlier_comments() {
    let comments = vec![
        (String::from("/** first */"), sp(0, 12)),
        (String::from("/** second */"), sp(13, 26)),
        (String::from("/** later */"), sp(40, 52)),
    ];
    let stmt = define("A", 30);
    let mut env = TypeEnv::new(vec![], false, false);
    let mut pos = 0usize;
    let files: Vec<SourceFile> = vec![];
    let visiting: Vec<String> = vec![];
    assert!(rms_tc_stmt("f.rms", &stmt, &mut env, &files, &visiting, &comments, &mut pos, true).is_ok());
    assert_eq!(pos, 2);
}

#[test]
fn doc_descriptions() {
    match Doc::parse("/**\n * The size.\n *   Second line.\n */") {
        Ok(Doc::Desc(d)) => assert_eq!(d, "The size.\nSecond line."),
        d => panic!("unexpected doc {:?}", d),
    }
    assert!(Doc::parse("/* plain */").unwrap().is_none());
    let info = IdInfo::from(&Type::Int, SrcLoc::from("f.rms", &sp(0, 1)), &Guard::new());
    let doc = Doc::Desc(String::from("The size."));
    assert_eq!(doc.render(&Identifier::new("SIZE"), &info), "```rms\n#const SIZE\n```\n\nThe size.");
    let label = IdInfo::from(&Type::Label, SrcLoc::from("f.rms", &sp(0, 1)), &Guard::new());
    assert_eq!(Doc::Nothing.render(&Identifier::new("L"), &label), "```rms\n#define L\n```");
}

#[test]
fn warning_lists() {
    let mut expected = HashSet::new();
    expected.insert(100u32);
    assert_eq!(warnings_from_str("ShadowedVarName").unwrap(), expected);
    assert_eq!(warnings_from_str(" ShadowedVarName , ShadowedVarName").unwrap(), expected);
    assert_eq!(warnings_from_str("ShadowedVarName, Other").unwrap_err(), "Other");
}

// ---------------------------------------------------------------------
// Includes.

#[test]
fn include_found_and_checked() {
    let inc = file("lib/defs.rms", vec![define("FROM_LIB", 1)], vec![]);
    let main = file(
        "main.rms",
        vec![(AstNode::IncludeDrs((String::from("\"defs.rms\""), sp(13, 23))), sp(0, 23))],
        vec![],
    );
    let mut env = TypeEnv::new(vec![String::from("lib")], false, false);
    let files = vec![inc];
    assert!(rms_tc(&main, &mut env, &files).is_ok());
    assert_eq!(env.check_live(&Identifier::new("FROM_LIB"), false), Liveness::Live);
    assert_eq!(err_count(&env), 0);
}

#[test]
fn include_not_found() {
    let main = file(
        "main.rms",
        vec![
            (AstNode::IncludeDrs((String::from("\"missing.rms\""), sp(13, 26))), sp(0, 26)),
            (AstNode::IncludeXs((String::from("\"x.xs\""), sp(39, 45))), sp(27, 45)),
        ],
        vec![],
    );
    let mut env = TypeEnv::new(vec![String::from("lib")], false, false);
    assert!(rms_tc(&main, &mut env, &vec![]).is_ok());
    let errs = &env.errs()[0].1;
    assert_eq!(errs.len(), 2);
    match &errs[0] {
        RmsError::UnresolvedInclude { inc_filename, span } => {
            assert_eq!(inc_filename, "\"missing.rms\"");
            assert_eq!(*span, sp(0, 26));
        }
        e => panic!("unexpected error {:?}", e),
    }
}

#[test]
fn include_read_errors_and_cycles() {
    let broken = SourceFile {
        path: String::from("lib/broken.rms"),
        ast: vec![],
        comments: vec![],
        parse_errs: vec![ParseError { span: sp(0, 1), msg: String::from("bad token") }],
    };
    let looping = file(
        "lib/loop.rms",
        vec![(AstNode::IncludeDrs((String::from("\"loop.rms\""), sp(13, 23))), sp(0, 23))],
        vec![],
    );
    let main = file(
        "main.rms",
        vec![
            (AstNode::IncludeDrs((String::from("\"broken.rms\""), sp(13, 25))), sp(0, 25)),
            (AstNode::IncludeDrs((String::from("\"loop.rms\""), sp(39, 49))), sp(26, 49)),
        ],
        vec![],
    );
    let mut env = TypeEnv::new(vec![String::from("lib/")], false, false);
    let files = vec![broken, looping];
    match rms_tc(&main, &mut env, &files) {
        Err(errs) => {
            assert_eq!(errs.len(), 1);
            assert_eq!(errs[0].msg, "bad token");
        }
        Ok(()) => panic!("the read error of the included file is lost"),
    }
}

#[test]
fn paths_joined() {
    assert_eq!(join_path("lib", "a.rms"), "lib/a.rms");
    assert_eq!(join_path("lib/", "a.rms"), "lib/a.rms");
    assert_eq!(join_path("", "a.rms"), "a.rms");
    assert_eq!(join_path("lib", "/abs/a.rms"), "/abs/a.rms");
}

// ---------------------------------------------------------------------
// Odds and ends.

#[test]
fn results_combined() {
    let rs: Vec<Result<(), Vec<u32>>> = vec![Ok(()), Err(vec![1, 2]), Ok(()), Err(vec![3])];
    assert_eq!(combine_results(rs), Err(vec![1, 2, 3]));
    let ok: Vec<Result<(), Vec<u32>>> = vec![Ok(()), Err(vec![])];
    assert_eq!(combine_results(ok), Ok(()));
}

#[test]
fn tokens_shown() {
    assert_eq!(Token::IncludeXs.to_display_string(), "#includeXS");
    assert_eq!(Token::LBrace.to_display_string(), "{");
    assert_eq!(Token::Literal(Literal::Int(-42)).to_display_string(), "-42");
    assert_eq!(Token::Command(Identifier::new("create_land")).to_display_string(), "create_land");
    assert!(Token::Comment(String::from("/* x */")).is_comment());
    assert!(!Token::Dot.is_comment());
    assert_eq!(int_to_string(i64::MIN), "-9223372036854775808");
    assert_eq!(int_to_string(0), "0");
    assert_eq!(int_to_string(1907), "1907");
}

#[test]
fn liveness_inverted() {
    assert_eq!(Liveness::Live.invert(), Liveness::Dead);
    assert_eq!(Liveness::Dead.invert(), Liveness::Live);
    assert_eq!(Liveness::Maybe.invert(), Liveness::Maybe);
    assert!(Liveness::Maybe.is_maybe_live());
    assert!(!Liveness::Dead.is_maybe_live());
}

#[test]
fn error_kinds_and_codes() {
    let e = RmsError::type_mismatch("label", "int | float", &sp(1, 2), Some("a note"));
    assert_eq!(e.kind(), "TypeError");
    assert_eq!(e.code(), 0);
    assert_eq!(*e.span(), sp(1, 2));
    assert!(!e.is_warning());
    assert_eq!(WarningKind::ShadowedVarName.as_u32(), 100);
    assert_eq!(WarningKind::from_name("ShadowedVarName"), Some(WarningKind::ShadowedVarName));
    assert_eq!(WarningKind::from_name("UnknownWarningName"), None);
}

#[test]
fn propositions_shown() {
    let a = Prop::from_name("A");
    let b = Prop::from_name("B");
    assert_eq!((a.clone() & !b).to_display_string(), "(A & B')");
    let p = Prop::from_block(1, 2, 50);
    assert_eq!(p.to_display_string(), "Rnd(1, 2, 50)");
    assert_eq!((a | p).to_display_string(), "(Rnd(1, 2, 50) | A)");
    assert_eq!(Prop::True.to_display_string(), "true");
}
