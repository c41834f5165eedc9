use rmsc_core::ast::Identifier;
use rmsc_core::reader::read_script;
use rmsc_core::shape::body_checked;
use rmsc_core::statement::{rms_tc, SourceFile};
use rmsc_core::type_env::{Liveness, TypeEnv};

/// A script that defines each name of the tests in a different way.
const LIVENESS_SCRIPT: &str = "
/* defined at the top: live */
#define A
/* defined in one of two arms: maybe */
start_random percent_chance 50 #define B percent_chance 50 end_random
/* defined where B is: maybe */
if B #define C endif
/* defined in arms that together have 60 percent: maybe */
start_random percent_chance 30 #define D percent_chance 30 #define D percent_chance 40 end_random
/* defined in every arm: live */
start_random percent_chance 50 #define E percent_chance 50 #define E end_random
/* defined where a live name is: live */
if A #define F endif
/* G is never defined: dead; defined where a dead name is: dead */
if G #define H endif
/* defined only where a live name is not: dead */
if A else #define I endif
/* defined where a maybe-defined name is: maybe */
if C #define J endif
/* defined both where B is and where it is not: live */
if B #define K else #define K endif
/* a constant at the top: live */
#const L 5
/* defined in arms that together have 100 percent: live */
start_random percent_chance 60 #define M percent_chance 40 #define M end_random
/* defined in a block: live */
{ #define N }
";

fn liveness_env() -> TypeEnv {
    let file = read_script("liveness_test.rms", LIVENESS_SCRIPT);
    assert!(file.parse_errs.is_empty(), "read errors: {:?}", file.parse_errs);
    assert!(body_checked(&file.ast, true));
    let mut type_env = TypeEnv::new(vec![], false, false);
    let files: Vec<SourceFile> = vec![];
    assert!(rms_tc(&file, &mut type_env, &files).is_ok());
    type_env
}

#[test]
fn test_is_live_a() {
    assert_eq!(liveness_env().check_live(&Identifier::new("A"), false), Liveness::Live)
}

#[test]
fn test_is_live_b() {
    assert_eq!(liveness_env().check_live(&Identifier::new("B"), false), Liveness::Maybe)
}

#[test]
fn test_is_live_c() {
    assert_eq!(liveness_env().check_live(&Identifier::new("C"), false), Liveness::Maybe)
}

#[test]
fn test_is_live_d() {
    assert_eq!(liveness_env().check_live(&Identifier::new("D"), false), Liveness::Maybe)
}

#[test]
fn test_is_live_e() {
    assert_eq!(liveness_env().check_live(&Identifier::new("E"), false), Liveness::Live)
}

#[test]
fn test_is_live_f() {
    assert_eq!(liveness_env().check_live(&Identifier::new("F"), false), Liveness::Live)
}

#[test]
fn test_is_live_g() {
    assert_eq!(liveness_env().check_live(&Identifier::new("G"), false), Liveness::Dead)
}

#[test]
fn test_is_live_h() {
    assert_eq!(liveness_env().check_live(&Identifier::new("H"), false), Liveness::Dead)
}

#[test]
fn test_is_live_i() {
    assert_eq!(liveness_env().check_live(&Identifier::new("I"), false), Liveness::Dead)
}

#[test]
fn test_is_live_j() {
    assert_eq!(liveness_env().check_live(&Identifier::new("J"), false), Liveness::Maybe)
}

#[test]
fn test_is_live_k() {
    assert_eq!(liveness_env().check_live(&Identifier::new("K"), false), Liveness::Live)
}

#[test]
fn test_is_live_l() {
    assert_eq!(liveness_env().check_live(&Identifier::new("L"), false), Liveness::Live)
}

#[test]
fn test_is_live_m() {
    assert_eq!(liveness_env().check_live(&Identifier::new("M"), false), Liveness::Live)
}

#[test]
fn test_is_live_n() {
    assert_eq!(liveness_env().check_live(&Identifier::new("N"), false), Liveness::Live)
}
