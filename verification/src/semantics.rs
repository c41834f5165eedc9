use vstd::prelude::*;
use crate::ast::{AstNode, Expr, Identifier, Literal, Span, Spanned, Type, type_label, is_default_name_v};
use crate::guard::{GuardV, has_name, name_index, names_unique, lemma_has_name_first};
use crate::prop::{PropV, SymbolV};
use crate::rms_error::RmsErrorV;
use crate::statement::{Ctx, tc_node_v};
use crate::type_check::tc_expr_v;
use crate::type_env::{EnvV, Liveness};
use crate::token::Token;
use crate::reader::{word_tok, angle_tok};
use crate::lexer::punct_v;
use crate::parser::{LitV, NodeV, stmt_v, ExprV, atom_v, term_v, expr_v, term_tail_v, expr_tail_v, add_op, add_v, mul_op, mul_v};

verus! {

// ---------------------------------------------------------------------
// What the guard knows of a symbol, case by case.

/// The summed chance of the arms of block `b` that `g` rules out.
pub open spec fn ruled_out_chance(g: GuardV, b: u32) -> int {
    if g.falsy_block_arms.contains_key(b) { g.falsy_block_arms[b].0 as int } else { 0 }
}

/// What the guard says of arm `a` (of chance `c`) of block `b`.
///
/// Inside an arm of that block, that arm is true and every other arm
/// false. Elsewhere: an arm known to be taken is true and the other arms of
/// its block false; an arm ruled out is false; an arm of chance 0 is false;
/// an arm whose chance, with that of the arms of its block ruled out,
/// reaches 100 is true (one of the arms left is taken, and it is the only
/// one); any other arm is unknown.
pub proof fn law_lookup_arm(g: GuardV, b: u32, a: u32, c: u32)
    ensures
        ({
            let r = g.lookup_v(SymbolV::Random { block: b, arm: a, chance: c });
            let inside = g.block_arm is Some && g.block_arm.unwrap().0 == b;
            let chosen = g.truthy_block_arm.contains_key(b);
            let out = g.falsy_block_arms.contains_key(b) && g.falsy_block_arms[b].1.contains(a);
            &&& inside ==> r == (if a == g.block_arm.unwrap().1 { PropV::True } else { PropV::False })
            &&& g.block_arm is None && chosen
                ==> r == (if g.truthy_block_arm[b] == a { PropV::True } else { PropV::False })
            &&& g.block_arm is None && !chosen && out ==> r == PropV::False
            &&& !inside && (g.block_arm is None ==> !chosen) && c == 0 ==> r == PropV::False
            &&& g.block_arm is None && !chosen && !out && c > 0 && c + ruled_out_chance(g, b) >= 100
                ==> r == PropV::True
            &&& g.block_arm is None && !chosen && !out && c > 0 && c + ruled_out_chance(g, b) < 100
                ==> r == PropV::Var(SymbolV::Random { block: b, arm: a, chance: c })
            &&& g.block_arm is Some && !inside && c > 0
                ==> r == PropV::Var(SymbolV::Random { block: b, arm: a, chance: c })
        }),
{
}

/// What the guard says of a name: true when a condition made it true,
/// else false when one made it false, else unknown.
pub proof fn law_lookup_name(g: GuardV, n: Seq<char>)
    ensures
        g.lookup_v(SymbolV::Name(n)) == (if exists|k: int| 0 <= k < g.truthy.len() && g.truthy[k].0 == n {
            PropV::True
        } else if exists|k: int| 0 <= k < g.falsy.len() && g.falsy[k].0 == n {
            PropV::False
        } else {
            PropV::Var(SymbolV::Name(n))
        }),
{
}

/// A name made true by a condition is known to be defined there.
pub proof fn law_name_made_true(g: GuardV, n: Seq<char>, b: u32)
    ensures
        g.with_name_true(n, b).lookup_v(SymbolV::Name(n)) == PropV::True,
{
    let t = g.with_name_true(n, b).truthy;
    if has_name(g.truthy, n) {
        lemma_has_name_first(g.truthy, n);
        assert(t[name_index(g.truthy, n)].0 == n);
    } else {
        assert(t[t.len() - 1].0 == n);
    }
}

/// A name made false by a condition, and made true by no other enclosing
/// block, is known to be undefined there.
pub proof fn law_name_made_false(g: GuardV, n: Seq<char>, b: u32)
    requires
        names_unique(g.truthy),
        forall|k: int| 0 <= k < g.truthy.len() && g.truthy[k].0 == n ==> g.truthy[k].1.subset_of(set![b]),
    ensures
        g.with_name_false(n, b).lookup_v(SymbolV::Name(n)) == PropV::False,
{
    let g2 = g.with_name_false(n, b);
    if has_name(g.truthy, n) {
        lemma_has_name_first(g.truthy, n);
        let k = name_index(g.truthy, n);
        assert(g.truthy[k].1.remove(b) =~= Set::<u32>::empty());
        assert(!has_name(g2.truthy, n)) by {
            if has_name(g2.truthy, n) {
                let j = choose|j: int| 0 <= j < g2.truthy.len() && g2.truthy[j].0 == n;
                if j < k {
                    assert(g.truthy[j].0 == n);
                } else {
                    assert(g.truthy[j + 1].0 == n);
                }
            }
        }
    }
    let f = g2.falsy;
    if has_name(g.falsy, n) {
        lemma_has_name_first(g.falsy, n);
        assert(f[name_index(g.falsy, n)].0 == n);
    } else {
        assert(f[f.len() - 1].0 == n);
    }
}

/// Ruling out arm `a` (of chance `c`) of block `b`: that arm is then ruled
/// out, the chance of the block's arms ruled out grows by `c`, the other
/// arms of `b` stay ruled out or not as they were, an arm known to be taken
/// stays so unless it is `a`, and nothing changes for other blocks.
pub proof fn law_rule_out_arm(g: GuardV, b: u32, a: u32, c: u32)
    requires
        ruled_out_chance(g, b) + c <= u32::MAX,
    ensures
        ({
            let g2 = g.with_falsy_arm(b, a, c);
            &&& g2.falsy_block_arms.contains_key(b) && g2.falsy_block_arms[b].1.contains(a)
            &&& ruled_out_chance(g2, b) == ruled_out_chance(g, b) + c
            &&& forall|a2: u32| a2 != a ==> (g2.falsy_block_arms[b].1.contains(a2)
                <==> (g.falsy_block_arms.contains_key(b) && g.falsy_block_arms[b].1.contains(a2)))
            &&& g2.truthy_block_arm.contains_key(b) <==> (g.truthy_block_arm.contains_key(b) && g.truthy_block_arm[b] != a)
            &&& g2.truthy_block_arm.contains_key(b) ==> g2.truthy_block_arm[b] == g.truthy_block_arm[b]
            &&& forall|b2: u32| b2 != b ==> g2.falsy_block_arms.contains_key(b2) == g.falsy_block_arms.contains_key(b2)
                && g2.falsy_block_arms[b2] == g.falsy_block_arms[b2]
                && g2.truthy_block_arm.contains_key(b2) == g.truthy_block_arm.contains_key(b2)
                && g2.truthy_block_arm[b2] == g.truthy_block_arm[b2]
            &&& g2.block_arm == g.block_arm
        }),
{
    let g2 = g.with_falsy_arm(b, a, c);
    assert(ruled_out_chance(g2, b) == ruled_out_chance(g, b) + c) by {
        let o = if g.falsy_block_arms.contains_key(b) { g.falsy_block_arms[b].0 } else { 0u32 };
        assert(o as int == ruled_out_chance(g, b));
        assert(vstd::wrapping::u32_specs::wrapping_add(o, c) == o + c);
    }
}

/// Once the other arms of a block are ruled out, so that what is left of
/// the block's chance is that of arm `a`, arm `a` is known to be taken:
/// ruling out arm `r` (of chance `cr`) where the chance of `a` and of the
/// arms ruled out reaches 100 makes the guard say `a` is true, outside the
/// block and where no arm of it is known to be taken.
pub proof fn law_last_arm_left(g: GuardV, b: u32, r: u32, cr: u32, a: u32, c: u32)
    requires
        g.block_arm is None,
        !g.truthy_block_arm.contains_key(b),
        a != r,
        c > 0,
        !(g.falsy_block_arms.contains_key(b) && g.falsy_block_arms[b].1.contains(a)),
        ruled_out_chance(g, b) + cr <= u32::MAX,
        c + ruled_out_chance(g, b) + cr >= 100,
    ensures
        g.with_falsy_arm(b, r, cr).lookup_v(SymbolV::Random { block: b, arm: a, chance: c }) == PropV::True,
{
    law_rule_out_arm(g, b, r, cr);
    law_lookup_arm(g.with_falsy_arm(b, r, cr), b, a, c);
}

// ---------------------------------------------------------------------
// Section headers.

/// The seven sections of a script are accepted without an error and leave
/// everything as it was; any other name gives one syntax error that names
/// it.
pub proof fn law_section_headers(ctx: Ctx, id: Identifier, nspan: Span, span: Span, env: EnvV, pos: nat, ignoring: bool)
    ensures
        ({
            let known = id@ == "PLAYER_SETUP"@ || id@ == "LAND_GENERATION"@ || id@ == "ELEVATION_GENERATION"@
                || id@ == "CLIFF_GENERATION"@ || id@ == "TERRAIN_GENERATION"@ || id@ == "CONNECTION_GENERATION"@
                || id@ == "OBJECTS_GENERATION"@;
            let r = tc_node_v(ctx, AstNode::SectionStart((id, nspan)), span, env, pos, ignoring);
            &&& known ==> r == (Seq::<(Span, Seq<char>)>::empty(), env, pos, ignoring)
            &&& !known ==> r == (Seq::<(Span, Seq<char>)>::empty(), env.with_err(ctx.path, RmsErrorV::Syntax {
                span: nspan,
                msg: "Unrecognized script section <{}>"@,
                keywords: seq![id@],
            }), pos, ignoring)
        }),
{
}

// ---------------------------------------------------------------------
// Arithmetic.

/// `r` is the result of an arithmetic operation named `op` whose operands
/// have the types `t1` and `t2`, checked in the environment `env`: two ints
/// give an int and an int with a float (either way round) a float, with no
/// error; an operand that failed fails the operation with no further
/// error; any other pair of types fails with one mismatch error.
pub open spec fn arith_typed(r: (Option<Type>, EnvV), t1: Option<Type>, t2: Option<Type>, env: EnvV, path: Seq<char>, span: Span, op: Seq<char>) -> bool {
    &&& t1 == Some(Type::Int) && t2 == Some(Type::Int) ==> r == (Some(Type::Int), env)
    &&& t1 == Some(Type::Int) && t2 == Some(Type::Float) ==> r == (Some(Type::Float), env)
    &&& t1 == Some(Type::Float) && t2 == Some(Type::Int) ==> r == (Some(Type::Float), env)
    &&& t1 is None || t2 is None ==> r == (None::<Type>, env)
    &&& t1 is Some && t2 is Some
        && !(t1 == Some(Type::Int) && t2 == Some(Type::Int))
        && !(t1 == Some(Type::Int) && t2 == Some(Type::Float))
        && !(t1 == Some(Type::Float) && t2 == Some(Type::Int))
        ==> r == (None::<Type>, env.with_err(path, RmsErrorV::OpMismatch {
            op,
            type1: type_label(t1.unwrap()),
            type2: type_label(t2.unwrap()),
            span,
            note: None,
        }))
}

/// The five arithmetic operations check both operands in order, then type
/// the result as [`arith_typed`] says, under their own names.
pub proof fn law_arith_types(path: Seq<char>, a: Spanned<Expr>, b: Spanned<Expr>, span: Span, env: EnvV)
    ensures
        ({
            let (t1, env1) = tc_expr_v(path, a, env);
            let (t2, env2) = tc_expr_v(path, b, env1);
            &&& arith_typed(tc_expr_v(path, (Expr::Plus(Box::new(a), Box::new(b)), span), env), t1, t2, env2, path, span, "add"@)
            &&& arith_typed(tc_expr_v(path, (Expr::Minus(Box::new(a), Box::new(b)), span), env), t1, t2, env2, path, span, "subtract"@)
            &&& arith_typed(tc_expr_v(path, (Expr::Star(Box::new(a), Box::new(b)), span), env), t1, t2, env2, path, span, "multiply"@)
            &&& arith_typed(tc_expr_v(path, (Expr::FSlash(Box::new(a), Box::new(b)), span), env), t1, t2, env2, path, span, "divide"@)
            &&& arith_typed(tc_expr_v(path, (Expr::PCent(Box::new(a), Box::new(b)), span), env), t1, t2, env2, path, span, "reduce modulo"@)
        }),
{
}

/// The types of the expressions that are not arithmetic: an int literal and
/// `rnd(..)` are ints, a float literal a float, a string has no type; a
/// parenthesised expression is checked as what it holds, and so is a
/// negation, which is also an error when spaces stand after its `-`. A
/// defined name has the type it was defined with, and its use is an error
/// when it is dead or maybe dead there; an undefined name is a label when
/// it is a default name and an error otherwise.
pub proof fn law_expr_types(path: Seq<char>, span: Span, env: EnvV, a: Spanned<Expr>, b: Spanned<Expr>, i: i64, x: String, id: Identifier)
    ensures
        tc_expr_v(path, (Expr::Literal(Literal::Int(i)), span), env) == (Some(Type::Int), env),
        tc_expr_v(path, (Expr::Literal(Literal::Float(x)), span), env) == (Some(Type::Float), env),
        tc_expr_v(path, (Expr::Literal(Literal::Str(x)), span), env) == (None::<Type>, env),
        tc_expr_v(path, (Expr::Rnd(Box::new(a), Box::new(b)), span), env) == (Some(Type::Int), env),
        tc_expr_v(path, (Expr::Paren(Box::new(a)), span), env) == tc_expr_v(path, a, env),
        a.1.start - span.start > 1 ==> tc_expr_v(path, (Expr::Neg(Box::new(a)), span), env)
            == tc_expr_v(path, a, env.with_err(path, RmsErrorV::Syntax {
                span,
                msg: "Spaces are not allowed between unary negative ({0}) and {1} literals"@,
                keywords: seq!["-"@, "int | float"@],
            })),
        a.1.start - span.start <= 1 ==> tc_expr_v(path, (Expr::Neg(Box::new(a)), span), env) == tc_expr_v(path, a, env),
        ({
            let r = tc_expr_v(path, (Expr::Identifier(id), span), env);
            match env.get(id@) {
                Some(info) => r.0 == Some(info.type_) && r.1 == match env.liveness(id@, false) {
                    Liveness::Live => env,
                    Liveness::Dead => env.with_err(path, RmsErrorV::DeadName { name: id@, span }),
                    Liveness::Maybe => env.with_err(path, RmsErrorV::MaybeDeadName { name: id@, span }),
                },
                None => r == if is_default_name_v(id@) {
                    (Some(Type::Label), env)
                } else {
                    (None, env.with_err(path, RmsErrorV::UndefinedName { name: id@, span }))
                },
            }
        }),
{
}

/// The punctuation characters and their tokens; no other character is
/// punctuation.
pub proof fn law_punctuation(c: char)
    ensures
        punct_v('\\') == Some(Token::BSlash),
        punct_v('=') == Some(Token::Eq),
        punct_v('(') == Some(Token::LParen),
        punct_v(')') == Some(Token::RParen),
        punct_v('{') == Some(Token::LBrace),
        punct_v('}') == Some(Token::RBrace),
        punct_v(';') == Some(Token::SColon),
        punct_v(':') == Some(Token::Colon),
        punct_v(',') == Some(Token::Comma),
        punct_v('.') == Some(Token::Dot),
        c != '\\' && c != '=' && c != '(' && c != ')' && c != '{' && c != '}' && c != ';' && c != ':' && c != ','
            && c != '.' ==> punct_v(c) is None,
{
}

/// `<` and `>`, each followed by `=` or not, are read as the four
/// comparisons, spanning one or two characters.
pub proof fn law_angles(s: Seq<char>, at: int, t: Token, end: int)
    requires
        0 <= at < s.len(),
    ensures
        ({
            let eq_next = at + 1 < s.len() && s[at + 1] == '=';
            &&& s[at] == '<' && eq_next ==> (angle_tok(s, at, t, end) <==> t == Token::Le && end == at + 2)
            &&& s[at] == '<' && !eq_next ==> (angle_tok(s, at, t, end) <==> t == Token::Lt && end == at + 1)
            &&& s[at] == '>' && eq_next ==> (angle_tok(s, at, t, end) <==> t == Token::Ge && end == at + 2)
            &&& s[at] == '>' && !eq_next ==> (angle_tok(s, at, t, end) <==> t == Token::Gt && end == at + 1)
            &&& s[at] != '<' && s[at] != '>' ==> !angle_tok(s, at, t, end)
        }),
{
}

// ---------------------------------------------------------------------
// Words and sums.

/// The keywords and operators of a script and the tokens they are read as;
/// no other token is read from them.
pub proof fn law_keywords(t: Token)
    ensures
        word_tok("#const"@, t) <==> t == Token::Const,
        word_tok("#define"@, t) <==> t == Token::Define,
        word_tok("#undefine"@, t) <==> t == Token::Undefine,
        word_tok("if"@, t) <==> t == Token::If,
        word_tok("elseif"@, t) <==> t == Token::ElseIf,
        word_tok("else"@, t) <==> t == Token::Else,
        word_tok("endif"@, t) <==> t == Token::EndIf,
        word_tok("start_random"@, t) <==> t == Token::StartRandom,
        word_tok("percent_chance"@, t) <==> t == Token::PercentChance,
        word_tok("end_random"@, t) <==> t == Token::EndRandom,
        word_tok("rnd"@, t) <==> t == Token::Rnd,
        word_tok("#include_drs"@, t) <==> t == Token::IncludeDrs,
        word_tok("#includeXS"@, t) <==> t == Token::IncludeXs,
        word_tok("+"@, t) <==> t == Token::Plus,
        word_tok("-"@, t) <==> t == Token::Minus,
        word_tok("*"@, t) <==> t == Token::Star,
        word_tok("/"@, t) <==> t == Token::FSlash,
        word_tok("%"@, t) <==> t == Token::PCent,
        word_tok("++"@, t) <==> t == Token::DPlus,
        word_tok("--"@, t) <==> t == Token::DMinus,
        word_tok("=="@, t) <==> t == Token::Deq,
        word_tok("!="@, t) <==> t == Token::Neq,
        word_tok("&&"@, t) <==> t == Token::DAmp,
        word_tok("||"@, t) <==> t == Token::DPipe,
        word_tok("!"@, t) <==> t == Token::Excl,
        word_tok("="@, t) <==> t == Token::Eq,
        word_tok("."@, t) <==> t == Token::Dot,
        word_tok("\\"@, t) <==> t == Token::BSlash,
{
    reveal_strlit("#const");
    reveal_strlit("#define");
    reveal_strlit("#undefine");
    reveal_strlit("if");
    reveal_strlit("elseif");
    reveal_strlit("else");
    reveal_strlit("endif");
    reveal_strlit("start_random");
    reveal_strlit("percent_chance");
    reveal_strlit("end_random");
    reveal_strlit("rnd");
    reveal_strlit("#include_drs");
    reveal_strlit("#includeXS");
    reveal_strlit("+");
    reveal_strlit("-");
    reveal_strlit("*");
    reveal_strlit("/");
    reveal_strlit("%");
    reveal_strlit("++");
    reveal_strlit("--");
    reveal_strlit("==");
    reveal_strlit("!=");
    reveal_strlit("&&");
    reveal_strlit("||");
    reveal_strlit("!");
    reveal_strlit("=");
    reveal_strlit(".");
    reveal_strlit("\\");
    assert("elseif"@[0] != "#const"@[0]);
    assert("#include_drs"@[0] != "start_random"@[0]);
    assert("#includeXS"@[0] != "end_random"@[0]);
    assert("-"@[0] != "+"@[0]);
    assert("*"@[0] != "+"@[0]);
    assert("*"@[0] != "-"@[0]);
    assert("/"@[0] != "+"@[0]);
    assert("/"@[0] != "-"@[0]);
    assert("/"@[0] != "*"@[0]);
    assert("%"@[0] != "+"@[0]);
    assert("%"@[0] != "-"@[0]);
    assert("%"@[0] != "*"@[0]);
    assert("%"@[0] != "/"@[0]);
    assert("++"@[0] != "if"@[0]);
    assert("--"@[0] != "if"@[0]);
    assert("--"@[0] != "++"@[0]);
    assert("=="@[0] != "if"@[0]);
    assert("=="@[0] != "++"@[0]);
    assert("=="@[0] != "--"@[0]);
    assert("!="@[0] != "if"@[0]);
    assert("!="@[0] != "++"@[0]);
    assert("!="@[0] != "--"@[0]);
    assert("!="@[0] != "=="@[0]);
    assert("&&"@[0] != "if"@[0]);
    assert("&&"@[0] != "++"@[0]);
    assert("&&"@[0] != "--"@[0]);
    assert("&&"@[0] != "=="@[0]);
    assert("&&"@[0] != "!="@[0]);
    assert("||"@[0] != "if"@[0]);
    assert("||"@[0] != "++"@[0]);
    assert("||"@[0] != "--"@[0]);
    assert("||"@[0] != "=="@[0]);
    assert("||"@[0] != "!="@[0]);
    assert("||"@[0] != "&&"@[0]);
    assert("!"@[0] != "+"@[0]);
    assert("!"@[0] != "-"@[0]);
    assert("!"@[0] != "*"@[0]);
    assert("!"@[0] != "/"@[0]);
    assert("!"@[0] != "%"@[0]);
    assert("="@[0] != "+"@[0]);
    assert("="@[0] != "-"@[0]);
    assert("="@[0] != "*"@[0]);
    assert("="@[0] != "/"@[0]);
    assert("="@[0] != "%"@[0]);
    assert("="@[0] != "!"@[0]);
    assert("."@[0] != "+"@[0]);
    assert("."@[0] != "-"@[0]);
    assert("."@[0] != "*"@[0]);
    assert("."@[0] != "/"@[0]);
    assert("."@[0] != "%"@[0]);
    assert("."@[0] != "!"@[0]);
    assert("."@[0] != "="@[0]);
    assert("\\"@[0] != "+"@[0]);
    assert("\\"@[0] != "-"@[0]);
    assert("\\"@[0] != "*"@[0]);
    assert("\\"@[0] != "/"@[0]);
    assert("\\"@[0] != "%"@[0]);
    assert("\\"@[0] != "!"@[0]);
    assert("\\"@[0] != "="@[0]);
    assert("\\"@[0] != "."@[0]);
}

/// The expression `l + r` or `l - r`: a term, a `+` or `-`, and a term
/// that no further sign follows, is the sum or the difference of the two
/// terms, by the sign that stands between them, and spans both.
pub proof fn law_sum(cs: Seq<Spanned<Token>>, at: int, l: (ExprV, Span), k: int, r: (ExprV, Span), m: int)
    requires
        term_v(cs, at) == Some((l, k)),
        at < k < cs.len(),
        cs[k].0 is Plus || cs[k].0 is Minus,
        term_v(cs, k + 1) == Some((r, m)),
        k + 1 < m <= cs.len(),
        m == cs.len() || !(cs[m].0 is Plus || cs[m].0 is Minus),
    ensures
        expr_v(cs, at) == Some(((if cs[k].0 is Minus {
            ExprV::Minus(Box::new(l), Box::new(r))
        } else {
            ExprV::Plus(Box::new(l), Box::new(r))
        }, Span { start: l.1.start, end: r.1.end }), m)),
{
    assert(expr_tail_v(cs, m, add_v(add_op(cs, k).unwrap(), l, r)) == Some((add_v(add_op(cs, k).unwrap(), l, r), m)));
}

/// The term `l * r`, `l / r` or `l % r`: an atom, one of those signs, and
/// an atom that no further such sign follows, is the product, quotient or
/// remainder of the two, by the sign between them, and spans both.
pub proof fn law_product(cs: Seq<Spanned<Token>>, at: int, l: (ExprV, Span), k: int, r: (ExprV, Span), m: int)
    requires
        atom_v(cs, at) == Some((l, k)),
        at < k < cs.len(),
        cs[k].0 is Star || cs[k].0 is FSlash || cs[k].0 is PCent,
        atom_v(cs, k + 1) == Some((r, m)),
        k + 1 < m <= cs.len(),
        m == cs.len() || !(cs[m].0 is Star || cs[m].0 is FSlash || cs[m].0 is PCent),
    ensures
        term_v(cs, at) == Some(((if cs[k].0 is Star {
            ExprV::Star(Box::new(l), Box::new(r))
        } else if cs[k].0 is FSlash {
            ExprV::FSlash(Box::new(l), Box::new(r))
        } else {
            ExprV::PCent(Box::new(l), Box::new(r))
        }, Span { start: l.1.start, end: r.1.end }), m)),
{
    assert(term_tail_v(cs, m, mul_v(mul_op(cs, k).unwrap(), l, r)) == Some((mul_v(mul_op(cs, k).unwrap(), l, r), m)));
}

/// The atoms: a literal token is that literal and a name token that name,
/// each spanning its token; `-` before an atom is its negation, `( e )` the
/// expression `e` in parentheses and `rnd ( a , b )` the random int between
/// `a` and `b`, each spanning from its first token to its last.
pub proof fn law_atoms(cs: Seq<Spanned<Token>>, at: int)
    requires
        0 <= at < cs.len(),
    ensures
        cs[at].0 matches Token::Literal(Literal::Int(v))
            ==> atom_v(cs, at) == Some(((ExprV::Literal(LitV::Int(v)), cs[at].1), at + 1)),
        cs[at].0 matches Token::Literal(Literal::Float(x))
            ==> atom_v(cs, at) == Some(((ExprV::Literal(LitV::Float(x@)), cs[at].1), at + 1)),
        cs[at].0 matches Token::Literal(Literal::Str(x))
            ==> atom_v(cs, at) == Some(((ExprV::Literal(LitV::Str(x@)), cs[at].1), at + 1)),
        cs[at].0 matches Token::Identifier(id)
            ==> atom_v(cs, at) == Some(((ExprV::Identifier(id@), cs[at].1), at + 1)),
        ({
            let (e, k) = atom_v(cs, at + 1).unwrap();
            cs[at].0 is Minus && atom_v(cs, at + 1) is Some && at + 1 < k <= cs.len()
            ==> atom_v(cs, at) == Some(((ExprV::Neg(Box::new(e)), Span { start: cs[at].1.start, end: cs[k - 1].1.end }), k))
        }),
        ({
            let (e, k) = expr_v(cs, at + 1).unwrap();
            cs[at].0 is LParen && expr_v(cs, at + 1) is Some && at + 1 < k < cs.len() && cs[k].0 is RParen
            ==> atom_v(cs, at) == Some(((ExprV::Paren(Box::new(e)), Span { start: cs[at].1.start, end: cs[k].1.end }), k + 1))
        }),
        ({
            let (a, k) = expr_v(cs, at + 2).unwrap();
            let (b, m) = expr_v(cs, k + 1).unwrap();
            cs[at].0 is Rnd && at + 1 < cs.len() && cs[at + 1].0 is LParen
            && expr_v(cs, at + 2) is Some && at + 2 < k < cs.len() && cs[k].0 is Comma
            && expr_v(cs, k + 1) is Some && k + 1 < m < cs.len() && cs[m].0 is RParen
            ==> atom_v(cs, at) == Some(((ExprV::Rnd(Box::new(a), Box::new(b)), Span { start: cs[at].1.start, end: cs[m].1.end }), m + 1))
        }),
{
}

/// The statements that take a name: `#define N` defines the label `N`,
/// `#undefine N` undefines it, `#const N e` defines the constant `N` as the
/// expression `e`, and `< N >` starts the section `N`; each names `N` with
/// the span of its word and spans from its first token to its last.
pub proof fn law_named_statements(cs: Seq<Spanned<Token>>, at: int, id: Identifier)
    requires
        0 <= at,
        at + 1 < cs.len(),
        cs[at + 1].0 == Token::Identifier(id),
    ensures
        ({
            let n = (id@, cs[at + 1].1);
            let sp = Span { start: cs[at].1.start, end: cs[at + 1].1.end };
            &&& cs[at].0 is Define ==> stmt_v(cs, at) == Some(((NodeV::LabelDef(n), sp), at + 2))
            &&& cs[at].0 is Undefine ==> stmt_v(cs, at) == Some(((NodeV::UnDef(n), sp), at + 2))
            &&& cs[at].0 is Lt && at + 2 < cs.len() && cs[at + 2].0 is Gt ==> stmt_v(cs, at)
                == Some(((NodeV::SectionStart(n), Span { start: cs[at].1.start, end: cs[at + 2].1.end }), at + 3))
            &&& cs[at].0 is Const && expr_v(cs, at + 2) is Some && at + 2 < expr_v(cs, at + 2).unwrap().1 <= cs.len()
                ==> stmt_v(cs, at) == Some(((NodeV::ConstDef { name: n, value: expr_v(cs, at + 2).unwrap().0 },
                    Span { start: cs[at].1.start, end: cs[expr_v(cs, at + 2).unwrap().1 - 1].1.end }), expr_v(cs, at + 2).unwrap().1))
        }),
{
}

} // verus!
