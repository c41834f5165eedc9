use rmsc_core::ast::{Body, Expr, Literal, Span, Spanned};
use rmsc_core::lexer::{comment, identifier, literal, punctuation, Source};
use rmsc_core::statement::adjust_random_arms;
use rmsc_core::token::Token;

fn text_of(t: &Option<(Token, usize)>) -> Option<(String, usize)> {
    t.as_ref().map(|(tok, end)| (tok.to_display_string(), *end))
}

#[test]
fn punctuation_tokens() {
    let src = Source::new("a{;}");
    assert!(punctuation(&src, 0).is_none());
    assert_eq!(text_of(&punctuation(&src, 1)), Some((String::from("{"), 2)));
    assert_eq!(text_of(&punctuation(&src, 2)), Some((String::from(";"), 3)));
    assert!(punctuation(&src, 4).is_none());
}

#[test]
fn comments_end_at_first_close() {
    let src = Source::new("x /* one */ two */");
    match comment(&src, 2) {
        Some((Token::Comment(t), end)) => {
            assert_eq!(t, "/* one */");
            assert_eq!(end, 11);
        }
        t => panic!("unexpected token {:?}", t),
    }
    assert!(comment(&src, 0).is_none());
    let open = Source::new("/* never closed");
    assert!(comment(&open, 0).is_none());
    let tight = Source::new("/*/ x */");
    match comment(&tight, 0) {
        Some((Token::Comment(t), _)) => assert_eq!(t, "/*/ x */"),
        t => panic!("unexpected token {:?}", t),
    }
}

#[test]
fn identifiers_run_to_delimiters() {
    let src = Source::new("create_land{ PLAYER_LAND;");
    match identifier(&src, 0) {
        Some((Token::Identifier(id), end)) => {
            assert_eq!(id.0, "create_land");
            assert_eq!(end, 11);
        }
        t => panic!("unexpected token {:?}", t),
    }
    assert!(identifier(&src, 11).is_none());
    assert!(identifier(&src, 12).is_none());
    match identifier(&src, 13) {
        Some((Token::Identifier(id), end)) => {
            assert_eq!(id.0, "PLAYER_LAND");
            assert_eq!(end, 24);
        }
        t => panic!("unexpected token {:?}", t),
    }
}

#[test]
fn literals() {
    let src = Source::new("-12 3.50 0 +inf \"a\\\"b\" 12ab 01 \"open");
    match literal(&src, 0) {
        Some((Token::Literal(Literal::Int(v)), end)) => {
            assert_eq!(v, -12);
            assert_eq!(end, 3);
        }
        t => panic!("unexpected token {:?}", t),
    }
    match literal(&src, 4) {
        Some((Token::Literal(Literal::Float(t)), end)) => {
            assert_eq!(t, "3.50");
            assert_eq!(end, 8);
        }
        t => panic!("unexpected token {:?}", t),
    }
    match literal(&src, 9) {
        Some((Token::Literal(Literal::Int(v)), end)) => {
            assert_eq!(v, 0);
            assert_eq!(end, 10);
        }
        t => panic!("unexpected token {:?}", t),
    }
    match literal(&src, 11) {
        Some((Token::Literal(Literal::Float(t)), end)) => {
            assert_eq!(t, "+inf");
            assert_eq!(end, 15);
        }
        t => panic!("unexpected token {:?}", t),
    }
    match literal(&src, 16) {
        Some((Token::Literal(Literal::Str(t)), end)) => {
            assert_eq!(t, "\"a\\\"b\"");
            assert_eq!(end, 22);
        }
        t => panic!("unexpected token {:?}", t),
    }
    // a number followed by name characters is no literal
    assert!(literal(&src, 23).is_none());
    // a leading zero ends the number
    assert!(literal(&src, 28).is_none());
    // a string that is never closed
    assert!(literal(&src, 31).is_none());
}

fn arm(chance: Expr) -> (Spanned<Expr>, Spanned<Body>) {
    ((chance, Span { start: 0, end: 1 }), (vec![], Span { start: 1, end: 2 }))
}

fn chances(arms: &Vec<(Spanned<Expr>, Spanned<Body>)>) -> Vec<Option<i64>> {
    arms.iter()
        .map(|a| match &a.0 .0 {
            Expr::Literal(Literal::Int(v)) => Some(*v),
            _ => None,
        })
        .collect()
}

#[test]
fn random_arms_adjusted() {
    let mut arms = vec![
        arm(Expr::Literal(Literal::Int(50))),
        arm(Expr::Literal(Literal::Int(50))),
    ];
    adjust_random_arms(&mut arms);
    assert_eq!(chances(&arms), vec![Some(51), Some(49)]);

    let mut arms = vec![
        arm(Expr::Literal(Literal::Int(30))),
        arm(Expr::Literal(Literal::Int(30))),
    ];
    adjust_random_arms(&mut arms);
    assert_eq!(chances(&arms), vec![Some(31), Some(30)]);

    let mut arms = vec![arm(Expr::Literal(Literal::Int(100)))];
    adjust_random_arms(&mut arms);
    assert_eq!(chances(&arms), vec![Some(100)]);

    let mut empty: Vec<(Spanned<Expr>, Spanned<Body>)> = vec![];
    adjust_random_arms(&mut empty);
    assert!(empty.is_empty());
}
