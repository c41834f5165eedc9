use rmsc_core::ast::{AstNode, Expr, Identifier, Literal};
use rmsc_core::lexer::Source;
use rmsc_core::parser::parse_file;
use rmsc_core::reader::{lex, read_script};
use rmsc_core::shape::body_checked;
use rmsc_core::statement::{rms_tc, SourceFile};
use rmsc_core::token::Token;
use rmsc_core::type_env::{Liveness, TypeEnv};

fn tokens(text: &str) -> Vec<Token> {
    let src = Source::new(text);
    let (toks, errs) = lex(&src);
    assert!(errs.is_empty());
    toks.into_iter().map(|(t, _)| t).collect()
}

fn shown(text: &str) -> Vec<String> {
    tokens(text).iter().map(|t| t.to_display_string()).collect()
}

/// Reads and checks a script, and gives the number of errors found.
fn check_script(text: &str) -> (usize, TypeEnv) {
    let file: SourceFile = read_script("test.rms", text);
    assert!(file.parse_errs.is_empty(), "read errors: {:?}", file.parse_errs);
    assert!(body_checked(&file.ast, true));
    let mut env = TypeEnv::new(vec![], false, false);
    assert!(rms_tc(&file, &mut env, &vec![]).is_ok());
    let n = env.errs().iter().map(|(_, errs)| errs.len()).sum::<usize>();
    (n, env)
}

#[test]
fn lex_keywords_names_and_literals() {
    assert_eq!(
        shown("#const A 5 #define B if A elseif B else endif"),
        vec!["#const", "A", "5", "#define", "B", "if", "A", "elseif", "B", "else", "endif"]
    );
    let toks = tokens("create_land { land_percent 20 }");
    assert!(matches!(&toks[0], Token::Command(id) if id.0 == "create_land"));
    assert!(matches!(toks[1], Token::LBrace));
    assert!(matches!(&toks[2], Token::Command(id) if id.0 == "land_percent"));
    assert!(matches!(toks[3], Token::Literal(Literal::Int(20))));
    assert!(matches!(toks[4], Token::RBrace));
}

#[test]
fn lex_sections_operators_and_comments() {
    assert_eq!(shown("<PLAYER_SETUP>"), vec!["<", "PLAYER_SETUP", ">"]);
    assert_eq!(shown("( A + B ) * -2"), vec!["(", "A", "+", "B", ")", "*", "-2"]);
    assert_eq!(shown("rnd(1,5)"), vec!["rnd", "(", "1", ",", "5", ")"]);
    let toks = tokens("/* a note */ #define X");
    assert!(matches!(&toks[0], Token::Comment(c) if c == "/* a note */"));
    assert!(matches!(toks[1], Token::Define));
}

#[test]
fn lex_errors() {
    let src = Source::new("#const A 99999999999999999999 ?");
    let (toks, errs) = lex(&src);
    assert_eq!(toks.len(), 3);
    assert_eq!(errs.len(), 1);
    assert_eq!(errs[0].msg, "number too large");
    assert_eq!((errs[0].span.start, errs[0].span.end), (9, 29));
}

#[test]
fn parse_statements() {
    let f = read_script("f.rms", "<PLAYER_SETUP> #define A #const B ( 1 + 2 ) #undefine A #include_drs random_map.def");
    assert!(f.parse_errs.is_empty());
    assert_eq!(f.ast.len(), 5);
    assert!(matches!(&f.ast[0].0, AstNode::SectionStart((id, _)) if id.0 == "PLAYER_SETUP"));
    assert!(matches!(&f.ast[1].0, AstNode::LabelDef((id, _)) if id.0 == "A"));
    match &f.ast[2].0 {
        AstNode::ConstDef { name, value } => {
            assert_eq!(name.0 .0, "B");
            assert!(matches!(&value.0, Expr::Paren(inner) if matches!(inner.0, Expr::Plus(_, _))));
        },
        _ => panic!("not a constant"),
    }
    assert!(matches!(&f.ast[3].0, AstNode::UnDef((id, _)) if id.0 == "A"));
    assert!(matches!(&f.ast[4].0, AstNode::IncludeDrs((p, _)) if p == "\"random_map.def\""));
}

#[test]
fn parse_conditions_and_blocks() {
    let f = read_script("f.rms", "if A create_land { land_percent 10 } elseif B #define C else #define D endif");
    assert!(f.parse_errs.is_empty());
    assert_eq!(f.ast.len(), 1);
    match &f.ast[0].0 {
        AstNode::IfElseIf { consequents, alternate } => {
            assert_eq!(consequents.len(), 2);
            assert_eq!(consequents[0].1 .0.len(), 2);
            assert!(matches!(&consequents[0].1 .0[1].0, AstNode::Block(b) if b.0.len() == 1));
            assert!(alternate.is_some());
        },
        _ => panic!("not a condition"),
    }
}

#[test]
fn parse_random_adjusts_chances() {
    let f = read_script("f.rms", "start_random percent_chance 50 #define A percent_chance 50 #define B end_random");
    assert!(f.parse_errs.is_empty());
    match &f.ast[0].0 {
        AstNode::Random { arms } => {
            assert_eq!(arms.len(), 2);
            assert!(matches!(arms[0].0 .0, Expr::Literal(Literal::Int(51))));
            assert!(matches!(arms[1].0 .0, Expr::Literal(Literal::Int(49))));
        },
        _ => panic!("not a random block"),
    }
}

#[test]
fn parse_errors_skip_tokens() {
    let f = read_script("f.rms", "endif #define A )");
    assert_eq!(f.ast.len(), 1);
    assert_eq!(f.parse_errs.len(), 2);
    assert_eq!(f.parse_errs[0].msg, "unexpected endif");
    assert_eq!(f.parse_errs[1].msg, "unexpected )");
    let f = read_script("f.rms", "if A #define B");
    assert_eq!(f.parse_errs[0].msg, "unexpected if");
    assert!(matches!(&f.ast[0].0, AstNode::LabelDef((id, _)) if id.0 == "B"));
}

#[test]
fn parse_from_tokens_keeps_comments() {
    let src = Source::new("/* x */ #define A");
    let (toks, _) = lex(&src);
    let f = parse_file("f.rms", &toks);
    assert_eq!(f.comments.len(), 1);
    assert_eq!(f.comments[0].0, "/* x */");
    assert_eq!(f.ast.len(), 1);
}

#[test]
fn script_liveness() {
    let (n, env) = check_script(
        "start_random percent_chance 50 #define A percent_chance 50 #define B end_random \
         if A #define C elseif B #define C endif",
    );
    assert_eq!(n, 0);
    assert_eq!(env.check_live(&Identifier::new("C"), false), Liveness::Live);
    assert_eq!(env.check_live(&Identifier::new("A"), false), Liveness::Maybe);
}

// Whole scripts that check without an error.

#[test]
fn test_unified_multiple_def() {
    let (n, _) = check_script("#define A #define A if A #const B 5 endif <PLAYER_SETUP> random_placement");
    assert_eq!(n, 0);
}

#[test]
fn test_unified_random_else() {
    let (n, _) = check_script(
        "start_random percent_chance 50 #define X percent_chance 50 #define Y end_random \
         if X #const Z 1 else #const Z 2 endif <LAND_GENERATION> base_terrain Z",
    );
    assert_eq!(n, 0);
}

#[test]
fn test_unified_random_else2() {
    let (n, _) = check_script(
        "start_random percent_chance 30 #const Z 1 percent_chance 30 #const Z 2 percent_chance 40 #const Z 3 end_random \
         <LAND_GENERATION> base_terrain Z",
    );
    assert_eq!(n, 0);
}

#[test]
fn test_back_prop() {
    let (n, _) = check_script(
        "#define A if A #const B 1 endif if A #const C B endif <LAND_GENERATION> base_terrain C",
    );
    assert_eq!(n, 0);
}

#[test]
fn test_nested_blocks() {
    let (n, _) = check_script(
        "#const GRASS 0 <LAND_GENERATION> create_land { terrain_type GRASS land_percent 10 { base_size 5 } }",
    );
    assert_eq!(n, 0);
}

#[test]
fn law_case_lex_unique() {
    let text = "#const N -12 /* c */ if N <= 3 create_land { x \"s\" 1.5 } endif 99999999999999999999";
    let (t1, e1) = lex(&Source::new(text));
    let (t2, e2) = lex(&Source::new(text));
    assert_eq!(t1.len(), t2.len());
    for (a, b) in t1.iter().zip(t2.iter()) {
        assert_eq!(a.0.to_display_string(), b.0.to_display_string());
        assert_eq!(a.1, b.1);
    }
    assert_eq!(e1.len(), 1);
    assert_eq!(e1.len(), e2.len());
    assert_eq!(e1[0].span, e2[0].span);
    assert_eq!(e1[0].msg, "number too large");
}
