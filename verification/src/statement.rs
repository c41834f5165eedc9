use vstd::prelude::*;
use crate::ast::{AstNode, Body, Expr, Identifier, Literal, Span, Spanned, Type, type_label};
use crate::doxygen::{Doc, DocV, parse_v};
use crate::guard::GuardV;
use crate::id_info::{IdInfo, IdInfoV, SrcLoc};
use crate::names::{first_at, lemma_first_at, lemma_unseen_insert, pos_of, unseen};
use crate::rms_error::{RmsError, RmsErrorV, WarningKind};
use crate::simplify::{disj_v, guard_prop, simplify_v};
use crate::type_check::{expr_spans_ok, rms_tc_expr, tc_expr_v};
use crate::type_env::{EnvV, TempIgnore, TypeEnv, fl_name, info_names, tr_name, strings_v, touch_dep, add_dep};
use crate::strings::{concat, str_eq, string_from};

verus! {

/// An error found while reading a file: where, and what.
#[derive(Debug)]
pub struct ParseError {
    pub span: Span,
    pub msg: String,
}

impl View for ParseError {
    type V = (Span, Seq<char>);

    open spec fn view(&self) -> (Span, Seq<char>) {
        (self.span, self.msg@)
    }
}

impl ParseError {
    /// A copy of this error.
    pub fn clone_err(&self) -> (r: ParseError)
        ensures
            r@ == self@,
    {
        ParseError { span: self.span, msg: self.msg.clone() }
    }
}

/// A script file as read: its path, its statements, its comments (in
/// order), and the errors found while reading it.
#[derive(Debug)]
pub struct SourceFile {
    pub path: String,
    pub ast: Body,
    pub comments: Vec<Spanned<String>>,
    pub parse_errs: Vec<ParseError>,
}

/// The views of a list of read errors.
pub open spec fn parse_errs_view(v: Seq<ParseError>) -> Seq<(Span, Seq<char>)> {
    v.map_values(|e: ParseError| e@)
}

/// The views of a list of comments.
pub open spec fn comments_view(v: Seq<Spanned<String>>) -> Seq<(Seq<char>, Span)> {
    v.map_values(|c: Spanned<String>| (c.0@, c.1))
}

/// The paths of a list of files.
pub open spec fn file_paths(fs: Seq<SourceFile>) -> Seq<Seq<char>> {
    fs.map_values(|f: SourceFile| f.path@)
}

// ---------------------------------------------------------------------
// What a check may rely on.

/// An include's file name can have its first and last characters cut off:
/// it has two characters at least, and they are single bytes.
pub open spec fn include_name_ok(f: Seq<char>) -> bool {
    f.len() >= 2 && f[0] <= '\u{7f}' && f.last() <= '\u{7f}'
}

/// Every expression and include of the statement is as the parser makes it
/// (see [`expr_spans_ok`] and [`include_name_ok`]), and it has an
/// `#include_drs` only where `drs` allows it (where dependencies are kept).
pub open spec fn stmt_ok(s: Spanned<AstNode>, drs: bool) -> bool
    decreases s,
{
    match s.0 {
        AstNode::IncludeDrs(f) => drs && include_name_ok(f.0@),
        AstNode::IncludeXs(f) => include_name_ok(f.0@),
        AstNode::ConstDef { name, value } => expr_spans_ok(value),
        AstNode::IfElseIf { consequents, alternate } => {
            &&& forall|i: int| 0 <= i < consequents@.len() ==> expr_spans_ok(#[trigger] consequents@[i].0)
            &&& forall|i: int| 0 <= i < consequents@.len() ==> body_ok((#[trigger] consequents@[i]).1.0@, drs)
            &&& match alternate {
                Some(b) => body_ok(b.0@, drs),
                None => true,
            }
        },
        AstNode::Random { arms } => {
            &&& forall|i: int| 0 <= i < arms@.len() ==> expr_spans_ok(#[trigger] arms@[i].0)
            &&& forall|i: int| 0 <= i < arms@.len() ==> body_ok((#[trigger] arms@[i]).1.0@, drs)
        },
        AstNode::Command { name, params } => forall|i: int| 0 <= i < params@.len() ==> expr_spans_ok(#[trigger] params@[i]),
        AstNode::Block(b) => body_ok(b.0@, drs),
        _ => true,
    }
}

/// Every statement of the body is as the parser makes it.
pub open spec fn body_ok(b: Seq<Spanned<AstNode>>, drs: bool) -> bool
    decreases b,
{
    forall|i: int| 0 <= i < b.len() ==> stmt_ok(#[trigger] b[i], drs)
}

/// Every file that can be included was read without errors into
/// statements as the parser makes them, or has its read errors.
pub open spec fn files_ok(fs: Seq<SourceFile>) -> bool {
    forall|i: int| 0 <= i < fs.len() ==> body_ok((#[trigger] fs[i]).ast@, true)
}

// ---------------------------------------------------------------------
// What a check does, stated over values.

/// The fixed part of a check: the file checked, its comments, the files
/// an include can reach, and the files being checked already.
pub struct Ctx {
    pub path: Seq<char>,
    pub comments: Seq<(Seq<char>, Span)>,
    pub files: Seq<SourceFile>,
    pub visiting: Set<Seq<char>>,
}

/// How many of the reachable files are not being checked yet.
pub open spec fn open_files(ctx: Ctx) -> nat {
    unseen(file_paths(ctx.files), ctx.visiting)
}

/// The comments from `pos` on that end before `start`: the position after
/// them, and the last of them (or `last` when there is none).
pub open spec fn skip_comments(cs: Seq<(Seq<char>, Span)>, pos: nat, start: usize, last: Option<nat>) -> (Option<nat>, nat)
    decreases cs.len() - pos,
{
    if pos < cs.len() && cs[pos as int].1.end <= start {
        skip_comments(cs, pos + 1, start, Some(pos))
    } else {
        (last, pos)
    }
}

/// The warning for a name in an ignore list that names no warning.
pub open spec fn unknown_warning_err(span: Span, name: Seq<char>) -> RmsErrorV {
    RmsErrorV::Warning {
        span,
        msg: "Unrecognised warning name '"@ + name + "'"@,
        keywords: Seq::empty(),
        kind: WarningKind::UnknownWarningName,
        ignored: false,
    }
}

/// What the comment before a statement (the `doc`-th, if any) does: a bad
/// ignore list is a warning; a good one ignores its warnings until the
/// statement is checked (the flag).
pub open spec fn doc_effect(path: Seq<char>, cs: Seq<(Seq<char>, Span)>, doc: Option<nat>, env: EnvV) -> (EnvV, bool) {
    match doc {
        None => (env, false),
        Some(k) => match parse_v(cs[k as int].0) {
            Err(e) => (env.with_err(path, unknown_warning_err(cs[k as int].1, e)), false),
            Ok(DocV::Ignore(set)) => (env.with_ignores(Some(set)), true),
            Ok(_) => (env, false),
        },
    }
}

/// The name `n` defined (as a `t`, at `span` of `path`) under the current
/// guard: a name defined already is also defined under it, a new name is
/// recorded.
pub open spec fn define_v(env: EnvV, n: Seq<char>, t: Type, path: Seq<char>, span: Span) -> EnvV {
    if info_names(env.ids).contains(n) {
        let k = pos_of(info_names(env.ids), n);
        let old = env.ids[k].1;
        env.with_ids(env.ids.update(k, (n, IdInfoV {
            guard: simplify_v(disj_v(old.guard, guard_prop(env.guard)), GuardV::empty()),
            ..old
        })))
    } else {
        env.with_ids(env.ids.push((n, IdInfoV { type_: t, path, span, guard: guard_prop(env.guard) })))
    }
}

/// The environment inside a nested block: a new block number, made current.
pub open spec fn nested_v(env: EnvV) -> EnvV {
    let b = vstd::wrapping::u32_specs::wrapping_add(env.last_block, 1u32);
    EnvV { last_block: b, guard: env.guard.in_block(b), ..env }
}

/// The sections a script may have.
pub open spec fn known_section(n: Seq<char>) -> bool {
    ||| n == "PLAYER_SETUP"@
    ||| n == "LAND_GENERATION"@
    ||| n == "ELEVATION_GENERATION"@
    ||| n == "CLIFF_GENERATION"@
    ||| n == "TERRAIN_GENERATION"@
    ||| n == "CONNECTION_GENERATION"@
    ||| n == "OBJECTS_GENERATION"@
}

/// `name` pushed onto the path `dir`: `name` itself when it is absolute or
/// `dir` is empty, else the two with one separator between them.
pub open spec fn join_path_v(dir: Seq<char>, name: Seq<char>) -> Seq<char> {
    if (name.len() > 0 && name[0] == '/') || dir.len() == 0 {
        name
    } else if dir.last() == '/' {
        dir + name
    } else {
        dir + "/"@ + name
    }
}

/// The first directory (from the `j`-th on) in which a reachable file
/// `name` lies: the file's path and its position among the files.
pub open spec fn find_include(dirs: Seq<Seq<char>>, files: Seq<SourceFile>, name: Seq<char>, j: nat) -> Option<(Seq<char>, int)>
    decreases dirs.len() - j,
{
    if j >= dirs.len() {
        None
    } else {
        let cand = join_path_v(dirs[j as int], name);
        if file_paths(files).contains(cand) {
            Some((cand, pos_of(file_paths(files), cand)))
        } else {
            find_include(dirs, files, name, j + 1)
        }
    }
}

/// The syntax error of a condition that is not a single name.
pub open spec fn if_cond_err(span: Span) -> RmsErrorV {
    RmsErrorV::Syntax { span, msg: "{0} conditions can only check for a single variable"@, keywords: seq!["if"@] }
}

/// The syntax error of a chance that is not an int literal.
pub open spec fn chance_err(span: Span) -> RmsErrorV {
    RmsErrorV::Syntax { span, msg: "{0} can only take int chances"@, keywords: seq!["percent_chance"@] }
}

/// The syntax error of an unknown section.
pub open spec fn section_err(span: Span, n: Seq<char>) -> RmsErrorV {
    RmsErrorV::Syntax { span, msg: "Unrecognized script section <{}>"@, keywords: seq![n] }
}

/// The type error of a command argument that is not a number.
pub open spec fn arg_type_err(t: Type, span: Span) -> RmsErrorV {
    RmsErrorV::TypeMismatch { actual: type_label(t), expected: "int | float"@, span, note: None }
}

/// The arguments of a command, checked in order until one fails: whether
/// one failed, and the environment after.
pub open spec fn tc_params_v(path: Seq<char>, ps: Seq<Spanned<Expr>>, env: EnvV) -> (bool, EnvV)
    decreases ps.len(),
{
    if ps.len() == 0 {
        (false, env)
    } else {
        let (stopped, env1) = tc_params_v(path, ps.drop_last(), env);
        if stopped {
            (true, env1)
        } else {
            let (t, env2) = tc_expr_v(path, ps.last(), env1);
            match t {
                None => (true, env2),
                Some(Type::Label) => (false, env2.with_err(path, arg_type_err(Type::Label, ps.last().1))),
                Some(_) => (false, env2),
            }
        }
    }
}

/// Where the search for an include lands: the file is reachable and its
/// position is the first of its path.
pub proof fn lemma_find_include(dirs: Seq<Seq<char>>, files: Seq<SourceFile>, name: Seq<char>, j: nat)
    ensures
        match find_include(dirs, files, name, j) {
            Some((cand, k)) => file_paths(files).contains(cand) && first_at(file_paths(files), cand, k),
            None => true,
        },
    decreases dirs.len() - j,
{
    if j < dirs.len() {
        let cand = join_path_v(dirs[j as int], name);
        if file_paths(files).contains(cand) {
            crate::names::lemma_pos_of(file_paths(files), cand);
        } else {
            lemma_find_include(dirs, files, name, j + 1);
        }
    }
}

/// An `#include_drs` of the file named `f` (in quotes) looked up: the
/// environment after it, the position of the file to check in turn (none
/// when it is found nowhere, which is an error, or when it is being checked
/// already), and whether the ignore list of the statement's comment is
/// still in force (it ends before the file is checked).
pub open spec fn include_step_v(ctx: Ctx, f: Spanned<String>, span: Span, env: EnvV, ignoring: bool) -> (EnvV, Option<(Seq<char>, int)>, bool) {
    let name = f.0@.subrange(1, f.0@.len() - 1);
    let env1 = EnvV { deps: touch_dep(env.deps, ctx.path), ..env };
    match find_include(env.include_dirs, ctx.files, name, 0) {
        None => (env1.with_err(ctx.path, RmsErrorV::UnresolvedInclude { inc_filename: f.0@, span }), None, ignoring),
        Some((cand, k)) => {
            let env2 = EnvV { deps: add_dep(env1.deps, ctx.path, cand), ..env1 };
            let env3 = if ignoring { env2.with_ignores(None) } else { env2 };
            if ctx.visiting.contains(cand) {
                (env3, None, false)
            } else {
                (env3, Some((cand, k)), false)
            }
        },
    }
}

/// A statement checked: the read errors of the files it included, the
/// environment after it, and the position of the next comment to look at.
pub open spec fn tc_stmt_v(ctx: Ctx, stmt: Spanned<AstNode>, env: EnvV, pos: nat) -> (Seq<(Span, Seq<char>)>, EnvV, nat)
    decreases 2 * open_files(ctx), stmt, 0nat,
{
    let (doc, pos1) = skip_comments(ctx.comments, pos, stmt.1.start, None);
    let (env1, ignoring) = doc_effect(ctx.path, ctx.comments, doc, env);
    let (errs, env2, pos2, still) = tc_node_v(ctx, stmt.0, stmt.1, env1, pos1, ignoring);
    (errs, if still { env2.with_ignores(None) } else { env2 }, pos2)
}

/// The statement `node` (at `span`) checked, its comment's ignore list in
/// force when `ignoring`; the last value says whether it still is.
pub open spec fn tc_node_v(ctx: Ctx, node: AstNode, span: Span, env: EnvV, pos: nat, ignoring: bool) -> (Seq<(Span, Seq<char>)>, EnvV, nat, bool)
    decreases 2 * open_files(ctx), node, 0nat,
{
    match node {
        AstNode::IncludeDrs(f) => {
            let (env1, next, still) = include_step_v(ctx, f, span, env, ignoring);
            match next {
                None => (Seq::empty(), env1, pos, still),
                Some((cand, k)) => {
                    proof {
                        lemma_find_include(env.include_dirs, ctx.files, f.0@.subrange(1, f.0@.len() - 1), 0);
                        lemma_unseen_insert(file_paths(ctx.files), ctx.visiting, cand);
                    }
                    let (errs, env2) = tc_file_v(ctx.files, ctx.visiting.insert(cand), ctx.files[k], env1);
                    (errs, env2, pos, still)
                },
            }
        },
        AstNode::IncludeXs(f) => {
            let name = f.0@.subrange(1, f.0@.len() - 1);
            match find_include(env.include_dirs, ctx.files, name, 0) {
                None => (Seq::empty(), env.with_err(ctx.path, RmsErrorV::UnresolvedInclude { inc_filename: f.0@, span }), pos, ignoring),
                Some(_) => (Seq::empty(), env, pos, ignoring),
            }
        },
        AstNode::LabelDef(name) => (Seq::empty(), define_v(env, name.0@, Type::Label, ctx.path, name.1), pos, ignoring),
        AstNode::ConstDef { name, value } => {
            let (t, env1) = tc_expr_v(ctx.path, value, env);
            match t {
                None => (Seq::empty(), env1, pos, ignoring),
                Some(t) => (Seq::empty(), define_v(env1, name.0@, t, ctx.path, name.1), pos, ignoring),
            }
        },
        AstNode::IfElseIf { consequents, alternate } => {
            let env1 = nested_v(env);
            let (errs1, env2, pos1) = tc_conds_v(ctx, consequents@, env1, pos);
            let (errs2, env3, pos2) = match alternate {
                Some(b) => tc_body_v(ctx, b.0@, env2, pos1),
                None => (Seq::empty(), env2, pos1),
            };
            (errs1 + errs2, env3.with_guard(env.guard), pos2, ignoring)
        },
        AstNode::Random { arms } => {
            let env1 = nested_v(env);
            let (errs, env2, pos1) = tc_arms_v(ctx, arms@, env1, pos);
            (errs, env2.with_guard(env.guard), pos1, ignoring)
        },
        AstNode::SectionStart(name) => {
            if known_section(name.0@) {
                (Seq::empty(), env, pos, ignoring)
            } else {
                (Seq::empty(), env.with_err(ctx.path, section_err(name.1, name.0@)), pos, ignoring)
            }
        },
        AstNode::Command { name, params } => (Seq::empty(), tc_params_v(ctx.path, params@, env).1, pos, ignoring),
        AstNode::Block(b) => {
            let (errs, env1, pos1) = tc_body_v(ctx, b.0@, env, pos);
            (errs, env1, pos1, ignoring)
        },
        _ => (Seq::empty(), env, pos, ignoring),
    }
}

/// The statements of a body checked in order.
pub open spec fn tc_body_v(ctx: Ctx, b: Seq<Spanned<AstNode>>, env: EnvV, pos: nat) -> (Seq<(Span, Seq<char>)>, EnvV, nat)
    decreases 2 * open_files(ctx), b, 0nat,
{
    if b.len() == 0 {
        (Seq::empty(), env, pos)
    } else {
        let (errs1, env1, pos1) = tc_body_v(ctx, b.drop_last(), env, pos);
        let (errs2, env2, pos2) = tc_stmt_v(ctx, b.last(), env1, pos1);
        (errs1 + errs2, env2, pos2)
    }
}

/// The name an `if` condition checks: the name itself, or (with an error)
/// a name that is never defined.
pub open spec fn cond_name_v(path: Seq<char>, c: Spanned<Expr>, env: EnvV) -> (Seq<char>, EnvV) {
    match c.0 {
        Expr::Identifier(id) => (id@, env),
        _ => ("__UNKNOWN__"@, env.with_err(path, if_cond_err(c.1))),
    }
}

/// One branch of an `if` checked, under its condition made true, which is
/// made false after it.
pub open spec fn cond_step_v(ctx: Ctx, c: (Spanned<Expr>, Spanned<Body>), env: EnvV, pos: nat) -> (Seq<(Span, Seq<char>)>, EnvV, nat)
    decreases 2 * open_files(ctx), c, 0nat,
{
    let (n, env1) = cond_name_v(ctx.path, c.0, env);
    let env2 = env1.with_guard(tr_name(env1.ids, env1.guard, Set::empty(), n));
    let (errs, env3, pos1) = tc_body_v(ctx, c.1.0@, env2, pos);
    (errs, env3.with_guard(fl_name(env3.ids, env3.guard, Set::empty(), n)), pos1)
}

/// The branches of an `if` checked in order (see [`cond_step_v`]).
pub open spec fn tc_conds_v(ctx: Ctx, cs: Seq<(Spanned<Expr>, Spanned<Body>)>, env: EnvV, pos: nat) -> (Seq<(Span, Seq<char>)>, EnvV, nat)
    decreases 2 * open_files(ctx), cs, 0nat,
{
    if cs.len() == 0 {
        (Seq::empty(), env, pos)
    } else {
        let (errs1, env1, pos1) = tc_conds_v(ctx, cs.drop_last(), env, pos);
        let (errs2, env2, pos2) = cond_step_v(ctx, cs.last(), env1, pos1);
        (errs1 + errs2, env2, pos2)
    }
}

/// The chance of an arm: its int literal, or (with an error) zero.
pub open spec fn chance_v(path: Seq<char>, c: Spanned<Expr>, env: EnvV) -> (i64, EnvV) {
    match c.0 {
        Expr::Literal(Literal::Int(v)) => (v, env),
        _ => (0, env.with_err(path, chance_err(c.1))),
    }
}

/// The `i`-th arm of a random block checked, in that arm.
pub open spec fn arm_step_v(ctx: Ctx, a: (Spanned<Expr>, Spanned<Body>), i: usize, env: EnvV, pos: nat) -> (Seq<(Span, Seq<char>)>, EnvV, nat)
    decreases 2 * open_files(ctx), a, 0nat,
{
    let (c, env1) = chance_v(ctx.path, a.0, env);
    let env2 = env1.with_guard(env1.guard.with_arm(env1.guard.current_block, i as u32, c as u32));
    tc_body_v(ctx, a.1.0@, env2, pos)
}

/// The arms of a random block checked in order (see [`arm_step_v`]).
pub open spec fn tc_arms_v(ctx: Ctx, arms: Seq<(Spanned<Expr>, Spanned<Body>)>, env: EnvV, pos: nat) -> (Seq<(Span, Seq<char>)>, EnvV, nat)
    decreases 2 * open_files(ctx), arms, 0nat,
{
    if arms.len() == 0 {
        (Seq::empty(), env, pos)
    } else {
        let (errs1, env1, pos1) = tc_arms_v(ctx, arms.drop_last(), env, pos);
        let (errs2, env2, pos2) = arm_step_v(ctx, arms.last(), (arms.len() - 1) as usize, env1, pos1);
        (errs1 + errs2, env2, pos2)
    }
}

/// A file checked: its read errors when it has any, else the read errors
/// of what its statements include.
pub open spec fn tc_file_v(files: Seq<SourceFile>, visiting: Set<Seq<char>>, file: SourceFile, env: EnvV) -> (Seq<(Span, Seq<char>)>, EnvV)
    decreases 2 * unseen(file_paths(files), visiting) + 1, file, 0nat,
{
    if file.parse_errs@.len() > 0 {
        (parse_errs_view(file.parse_errs@), env)
    } else {
        let fctx = Ctx { path: file.path@, comments: comments_view(file.comments@), files, visiting };
        let (errs, env1, pos) = tc_body_v(fctx, file.ast@, env, 0);
        (errs, env1)
    }
}

// ---------------------------------------------------------------------
// The check itself.

/// The fixed part of a check, from its executable pieces.
pub open spec fn ctx_of(path: Seq<char>, comments: Seq<Spanned<String>>, files: Seq<SourceFile>, visiting: Seq<String>) -> Ctx {
    Ctx { path, comments: comments_view(comments), files, visiting: strings_v(visiting).to_set() }
}

/// An optional position as a natural number.
pub open spec fn opt_nat(o: Option<usize>) -> Option<nat> {
    match o {
        Some(k) => Some(k as nat),
        None => None,
    }
}

/// Moves past the comments that end before `start`; returns the last of
/// them (see [`skip_comments`]).
fn next_doc(comments: &Vec<Spanned<String>>, comment_pos: &mut usize, start: usize) -> (r: Option<usize>)
    ensures
        (opt_nat(r), *final(comment_pos) as nat) == skip_comments(comments_view(comments@), *old(comment_pos) as nat, start, None),
        r matches Some(k) ==> k < comments.len(),
{
    let ghost cv = comments_view(comments@);
    let ghost p0 = *comment_pos as nat;
    let mut last: Option<usize> = None;
    while *comment_pos < comments.len() && comments[*comment_pos].1.end <= start
        invariant
            cv == comments_view(comments@),
            skip_comments(cv, *comment_pos as nat, start, opt_nat(last)) == skip_comments(cv, p0, start, None),
            last matches Some(k) ==> k < comments.len(),
        decreases comments.len() - *comment_pos,
    {
        last = Some(*comment_pos);
        *comment_pos = *comment_pos + 1;
    }
    last
}

/// What the comment before a statement does (see [`doc_effect`]); the
/// token is held while its ignore list is in force.
fn apply_doc(path: &str, comments: &Vec<Spanned<String>>, doc: Option<usize>, type_env: &mut TypeEnv) -> (r: Option<TempIgnore>)
    requires
        doc matches Some(k) ==> k < comments.len(),
    ensures
        (final(type_env)@, r is Some) == doc_effect(path@, comments_view(comments@), opt_nat(doc), old(type_env)@),
{
    match doc {
        None => None,
        Some(k) => {
            let com = &comments[k];
            match Doc::parse(com.0.as_str()) {
                Err(e) => {
                    let m1 = concat("Unrecognised warning name '", e.as_str());
                    let msg = concat(m1.as_str(), "'");
                    let keywords: Vec<&str> = Vec::new();
                    proof {
                        assert(crate::rms_error::strs_view(keywords@) =~= Seq::<Seq<char>>::empty());
                    }
                    let err = RmsError::warning(&com.1, msg.as_str(), keywords, WarningKind::UnknownWarningName);
                    type_env.add_err(path, err);
                    None
                },
                Ok(Doc::Ignore(set)) => Some(type_env.temp_ignore(set)),
                Ok(_) => None,
            }
        },
    }
}

/// Defines the name `name` (see [`define_v`]).
fn define_name(type_env: &mut TypeEnv, name: &Identifier, t: Type, path: &str, span: &Span)
    ensures
        final(type_env)@ == define_v(old(type_env)@, name@, t, path@, *span),
{
    let guard = type_env.guard().clone_guard();
    match type_env.get_id_mut(name) {
        None => {
            type_env.set(name, IdInfo::from(&t, SrcLoc::from(path, span), &guard));
        },
        Some(info) => {
            info.join(&guard);
        },
    }
}

/// `name` pushed onto the path `dir` (see [`join_path_v`]).
pub fn join_path(dir: &str, name: &str) -> (r: String)
    ensures
        r@ == join_path_v(dir@, name@),
{
    let nl = name.unicode_len();
    let dl = dir.unicode_len();
    if (nl > 0 && name.get_char(0) == '/') || dl == 0 {
        string_from(name)
    } else if dir.get_char(dl - 1) == '/' {
        concat(dir, name)
    } else {
        let d = concat(dir, "/");
        concat(d.as_str(), name)
    }
}

/// The first file whose path is `p`.
fn find_file(files: &Vec<SourceFile>, p: &str) -> (r: Option<usize>)
    ensures
        match r {
            Some(k) => first_at(file_paths(files@), p@, k as int),
            None => !file_paths(files@).contains(p@),
        },
{
    let mut i: usize = 0;
    while i < files.len()
        invariant
            i <= files.len(),
            forall|j: int| 0 <= j < i ==> (#[trigger] file_paths(files@)[j]) != p@,
        decreases files.len() - i,
    {
        if str_eq(files[i].path.as_str(), p) {
            return Some(i);
        }
        i += 1;
    }
    proof {
        if file_paths(files@).contains(p@) {
            let k = choose|k: int| 0 <= k < file_paths(files@).len() && file_paths(files@)[k] == p@;
            assert(file_paths(files@)[k] != p@);
        }
    }
    None
}

/// The first directory of `dirs` in which a file `name` lies (see
/// [`find_include`]).
fn find_include_in(dirs: &Vec<String>, files: &Vec<SourceFile>, name: &str) -> (r: Option<(String, usize)>)
    ensures
        match (r, find_include(strings_v(dirs@), files@, name@, 0)) {
            (Some((c, k)), Some((cv, kv))) => c@ == cv && k == kv,
            (None, None) => true,
            _ => false,
        },
{
    let ghost dv = strings_v(dirs@);
    let mut j: usize = 0;
    while j < dirs.len()
        invariant
            j <= dirs.len(),
            dv == strings_v(dirs@),
            find_include(dv, files@, name@, j as nat) == find_include(dv, files@, name@, 0),
        decreases dirs.len() - j,
    {
        let cand = join_path(dirs[j].as_str(), name);
        match find_file(files, cand.as_str()) {
            Some(k) => {
                proof {
                    lemma_first_at(file_paths(files@), cand@, k as int);
                }
                return Some((cand, k));
            },
            None => {},
        }
        j += 1;
    }
    None
}

/// `visiting` with `p` added.
fn with_path(visiting: &Vec<String>, p: &str) -> (r: Vec<String>)
    ensures
        strings_v(r@) == strings_v(visiting@).push(p@),
{
    let mut r: Vec<String> = Vec::new();
    let mut i: usize = 0;
    while i < visiting.len()
        invariant
            i <= visiting.len(),
            strings_v(r@) == strings_v(visiting@).take(i as int),
        decreases visiting.len() - i,
    {
        let ghost r0 = r@;
        let x = string_from(visiting[i].as_str());
        r.push(x);
        proof {
            assert(r@ == r0.push(x));
            assert(strings_v(r0.push(x)) =~= strings_v(r0).push(x@));
            assert(strings_v(visiting@).take(i + 1) =~= strings_v(visiting@).take(i as int).push(visiting@[i as int]@));
            assert(strings_v(r@) =~= strings_v(visiting@).take(i + 1));
        }
        i += 1;
    }
    let ghost r1 = r@;
    let y = string_from(p);
    r.push(y);
    proof {
        assert(r@ == r1.push(y));
        assert(strings_v(visiting@).take(visiting@.len() as int) =~= strings_v(visiting@));
        assert(strings_v(r@) =~= strings_v(visiting@).push(p@));
    }
    r
}

/// `p` is one of `visiting`.
fn visited(visiting: &Vec<String>, p: &str) -> (r: bool)
    ensures
        r == strings_v(visiting@).to_set().contains(p@),
{
    let mut i: usize = 0;
    while i < visiting.len()
        invariant
            i <= visiting.len(),
            forall|j: int| 0 <= j < i ==> (#[trigger] strings_v(visiting@)[j]) != p@,
        decreases visiting.len() - i,
    {
        if str_eq(visiting[i].as_str(), p) {
            proof {
                assert(strings_v(visiting@)[i as int] == p@);
            }
            return true;
        }
        i += 1;
    }
    proof {
        if strings_v(visiting@).to_set().contains(p@) {
            let k = choose|k: int| 0 <= k < strings_v(visiting@).len() && strings_v(visiting@)[k] == p@;
            assert(strings_v(visiting@)[k] != p@);
        }
    }
    false
}

/// The errors `v` are the read errors `errs`.
pub open spec fn errs_are(v: Vec<ParseError>, errs: Seq<(Span, Seq<char>)>) -> bool {
    parse_errs_view(v@) == errs
}

/// An `#include_drs` of `f` looked up (see [`include_step_v`]): the file to
/// check in turn, and the ignore token while it is still in force.
fn include_step(
    path: &str,
    f: &Spanned<String>,
    span: &Span,
    type_env: &mut TypeEnv,
    files: &Vec<SourceFile>,
    visiting: &Vec<String>,
    comments: &Vec<Spanned<String>>,
    ign: Option<TempIgnore>,
) -> (r: (Option<(String, usize)>, Option<TempIgnore>))
    requires
        include_name_ok(f.0@),
        old(type_env)@.deps is Some,
    ensures
        ({
            let (env, next, still) = include_step_v(ctx_of(path@, comments@, files@, visiting@), *f, *span, old(type_env)@, ign is Some);
            &&& final(type_env)@ == env
            &&& (r.1 is Some) == still
            &&& match (r.0, next) {
                (Some((c, k)), Some((cv, kv))) => c@ == cv && k == kv,
                (None, None) => true,
                _ => false,
            }
        }),
        final(type_env)@.deps is Some,
{
    let ghost ctx = ctx_of(path@, comments@, files@, visiting@);
    let n = f.0.as_str().unicode_len();
    let name = f.0.as_str().substring_char(1, n - 1);
    let found = find_include_in(type_env.include_dirs(), files, name);
    match found {
        None => {
            type_env.record_dep(path, None);
            type_env.add_err(path, RmsError::unresolved_include(f.0.as_str(), span));
            (None, ign)
        },
        Some((cand, k)) => {
            type_env.record_dep(path, Some(cand.as_str()));
            match ign {
                Some(t) => type_env.end_ignore(t),
                None => {},
            }
            if visited(visiting, cand.as_str()) {
                (None, None)
            } else {
                (Some((cand, k)), None)
            }
        },
    }
}

/// An `#includeXS` of `f`: an error when the file lies in no include
/// directory.
fn check_include_xs(path: &str, f: &Spanned<String>, span: &Span, type_env: &mut TypeEnv, files: &Vec<SourceFile>)
    requires
        include_name_ok(f.0@),
    ensures
        final(type_env)@ == (match find_include(old(type_env)@.include_dirs, files@, f.0@.subrange(1, f.0@.len() - 1), 0) {
            None => old(type_env)@.with_err(path@, RmsErrorV::UnresolvedInclude { inc_filename: f.0@, span: *span }),
            Some(_) => old(type_env)@,
        }),
{
    let n = f.0.as_str().unicode_len();
    let name = f.0.as_str().substring_char(1, n - 1);
    let found = find_include_in(type_env.include_dirs(), files, name);
    if found.is_none() {
        type_env.add_err(path, RmsError::unresolved_include(f.0.as_str(), span));
    }
}

/// A section header: an error when the section is not one a script has.
fn check_section(path: &str, name: &Spanned<Identifier>, type_env: &mut TypeEnv)
    ensures
        final(type_env)@ == (if known_section(name.0@) {
            old(type_env)@
        } else {
            old(type_env)@.with_err(path@, section_err(name.1, name.0@))
        }),
{
    let n = name.0.0.as_str();
    let known = str_eq(n, "PLAYER_SETUP") || str_eq(n, "LAND_GENERATION") || str_eq(n, "ELEVATION_GENERATION")
        || str_eq(n, "CLIFF_GENERATION") || str_eq(n, "TERRAIN_GENERATION") || str_eq(n, "CONNECTION_GENERATION")
        || str_eq(n, "OBJECTS_GENERATION");
    if !known {
        let mut keywords: Vec<&str> = Vec::new();
        keywords.push(n);
        proof {
            assert(crate::rms_error::strs_view(keywords@) =~= seq![name.0@]);
        }
        type_env.add_err(path, RmsError::syntax(&name.1, "Unrecognized script section <{}>", keywords));
    }
}

/// Once an argument fails, the arguments after it change nothing.
proof fn lemma_params_stop(path: Seq<char>, ps: Seq<Spanned<Expr>>, env: EnvV, k: int)
    requires
        0 <= k <= ps.len(),
        tc_params_v(path, ps.take(k), env).0,
    ensures
        tc_params_v(path, ps, env) == tc_params_v(path, ps.take(k), env),
    decreases ps.len() - k,
{
    if k < ps.len() {
        assert(ps.take(k + 1).drop_last() =~= ps.take(k));
        lemma_params_stop(path, ps, env, k + 1);
    } else {
        assert(ps.take(k) =~= ps);
    }
}

/// The arguments of a command checked (see [`tc_params_v`]).
fn check_command(path: &str, params: &Vec<Spanned<Expr>>, type_env: &mut TypeEnv)
    requires
        forall|i: int| 0 <= i < params@.len() ==> expr_spans_ok(#[trigger] params@[i]),
    ensures
        final(type_env)@ == tc_params_v(path@, params@, old(type_env)@).1,
        final(type_env)@.same_but_errs(old(type_env)@),
{
    let ghost env0 = type_env@;
    let mut i: usize = 0;
    while i < params.len()
        invariant
            i <= params.len(),
            forall|j: int| 0 <= j < params@.len() ==> expr_spans_ok(#[trigger] params@[j]),
            env0 == old(type_env)@,
            type_env@.same_but_errs(env0),
            tc_params_v(path@, params@.take(i as int), env0) == (false, type_env@),
        decreases params.len() - i,
    {
        proof {
            assert(params@.take(i + 1).drop_last() =~= params@.take(i as int));
            assert(params@.take(i + 1).last() == params@[i as int]);
        }
        let t = rms_tc_expr(path, &params[i], type_env);
        match t {
            None => {
                proof {
                    lemma_params_stop(path@, params@, env0, i + 1);
                }
                return;
            },
            Some(Type::Label) => {
                let actual = Type::Label.to_display_string();
                type_env.add_err(path, RmsError::type_mismatch(actual.as_str(), "int | float", &params[i].1, None));
            },
            Some(_) => {},
        }
        i += 1;
    }
    proof {
        assert(params@.take(params@.len() as int) =~= params@);
    }
}

/// A statement checked (see [`tc_stmt_v`]): the read errors of the files it
/// included. Dependencies are kept exactly when they were kept before.
#[verifier::rlimit(40)]
fn check_stmt(
    path: &str,
    stmt: &Spanned<AstNode>,
    type_env: &mut TypeEnv,
    files: &Vec<SourceFile>,
    visiting: &Vec<String>,
    comments: &Vec<Spanned<String>>,
    comment_pos: &mut usize,
) -> (r: Vec<ParseError>)
    requires
        stmt_ok(*stmt, old(type_env)@.deps is Some),
        files_ok(files@),
    ensures
        (parse_errs_view(r@), final(type_env)@, *final(comment_pos) as nat)
            == tc_stmt_v(ctx_of(path@, comments@, files@, visiting@), *stmt, old(type_env)@, *old(comment_pos) as nat),
        (final(type_env)@.deps is Some) == (old(type_env)@.deps is Some),
    decreases 2 * open_files(ctx_of(path@, comments@, files@, visiting@)), *stmt, 2nat,
{
    let ghost ctx = ctx_of(path@, comments@, files@, visiting@);
    let doc = next_doc(comments, comment_pos, stmt.1.start);
    let ign = apply_doc(path, comments, doc, type_env);
    let ghost env1 = type_env@;
    let ghost pos1 = *comment_pos as nat;
    let ghost ignoring = ign is Some;
    let mut ign = ign;
    let mut errs: Vec<ParseError> = Vec::new();
    match &stmt.0 {
        AstNode::Error => {},
        AstNode::UnDef(_) => {},
        AstNode::IncludeDrs(f) => {
            let (next, still) = include_step(path, f, &stmt.1, type_env, files, visiting, comments, ign);
            ign = still;
            match next {
                None => {},
                Some((cand, k)) => {
                    let v2 = with_path(visiting, cand.as_str());
                    proof {
                        lemma_find_include(env1.include_dirs, files@, f.0@.subrange(1, f.0@.len() - 1), 0);
                        lemma_unseen_insert(file_paths(files@), ctx.visiting, cand@);
                        strings_v(visiting@).lemma_push_to_set_commute(cand@);
                        assert(strings_v(v2@).to_set() == ctx.visiting.insert(cand@));
                    }
                    errs = check_file(files, &v2, k, type_env);
                },
            }
        },
        AstNode::IncludeXs(f) => {
            check_include_xs(path, f, &stmt.1, type_env, files);
        },
        AstNode::LabelDef(name) => {
            define_name(type_env, &name.0, Type::Label, path, &name.1);
        },
        AstNode::ConstDef { name, value } => {
            match rms_tc_expr(path, value, type_env) {
                None => {},
                Some(t) => define_name(type_env, &name.0, t, path, &name.1),
            }
        },
        AstNode::IfElseIf { .. } => {
            errs = check_if(path, stmt, type_env, files, visiting, comments, comment_pos);
        },
        AstNode::Random { .. } => {
            errs = check_random(path, stmt, type_env, files, visiting, comments, comment_pos);
        },
        AstNode::SectionStart(name) => {
            check_section(path, name, type_env);
        },
        AstNode::Command { name: _, params } => {
            check_command(path, params, type_env);
        },
        AstNode::Block(b) => {
            errs = check_body(path, &b.0, type_env, files, visiting, comments, comment_pos);
        },
    }
    proof {
        assert(skip_comments(ctx.comments, *old(comment_pos) as nat, stmt.1.start, None) == (opt_nat(doc), pos1));
    }
    match ign {
        Some(t) => type_env.end_ignore(t),
        None => {},
    }
    errs
}

/// The `i`-th branch of an `if` checked (see [`cond_step_v`]).
#[verifier::rlimit(40)]
fn check_cond(
    path: &str,
    stmt: &Spanned<AstNode>,
    i: usize,
    type_env: &mut TypeEnv,
    files: &Vec<SourceFile>,
    visiting: &Vec<String>,
    comments: &Vec<Spanned<String>>,
    comment_pos: &mut usize,
) -> (r: Vec<ParseError>)
    requires
        stmt.0 is IfElseIf,
        i < stmt.0->consequents@.len(),
        body_ok(stmt.0->consequents@[i as int].1.0@, old(type_env)@.deps is Some),
        files_ok(files@),
    ensures
        (parse_errs_view(r@), final(type_env)@, *final(comment_pos) as nat)
            == cond_step_v(ctx_of(path@, comments@, files@, visiting@), stmt.0->consequents@[i as int], old(type_env)@, *old(comment_pos) as nat),
        (final(type_env)@.deps is Some) == (old(type_env)@.deps is Some),
    decreases 2 * open_files(ctx_of(path@, comments@, files@, visiting@)), *stmt, 0nat,
{
    match &stmt.0 {
        AstNode::IfElseIf { consequents, alternate: _ } => {
            let cond = &consequents[i].0;
            let id = match &cond.0 {
                Expr::Identifier(id) => id.clone(),
                _ => {
                    let mut keywords: Vec<&str> = Vec::new();
                    keywords.push("if");
                    proof {
                        assert(crate::rms_error::strs_view(keywords@) =~= seq!["if"@]);
                    }
                    type_env.add_err(path, RmsError::syntax(&cond.1, "{0} conditions can only check for a single variable", keywords));
                    Identifier::new("__UNKNOWN__")
                },
            };
            type_env.truthify(id.0.as_str());
            proof {
                assert(decreases_to!(*stmt => consequents@[i as int].1.0@));
            }
            let e = check_body(path, &consequents[i].1.0, type_env, files, visiting, comments, comment_pos);
            type_env.falsify(id.0.as_str());
            e
        },
        _ => Vec::new(),
    }
}

/// The `i`-th arm of a random block checked (see [`arm_step_v`]).
#[verifier::rlimit(40)]
fn check_arm(
    path: &str,
    stmt: &Spanned<AstNode>,
    i: usize,
    type_env: &mut TypeEnv,
    files: &Vec<SourceFile>,
    visiting: &Vec<String>,
    comments: &Vec<Spanned<String>>,
    comment_pos: &mut usize,
) -> (r: Vec<ParseError>)
    requires
        stmt.0 is Random,
        i < stmt.0->arms@.len(),
        body_ok(stmt.0->arms@[i as int].1.0@, old(type_env)@.deps is Some),
        files_ok(files@),
    ensures
        (parse_errs_view(r@), final(type_env)@, *final(comment_pos) as nat)
            == arm_step_v(ctx_of(path@, comments@, files@, visiting@), stmt.0->arms@[i as int], i, old(type_env)@, *old(comment_pos) as nat),
        (final(type_env)@.deps is Some) == (old(type_env)@.deps is Some),
    decreases 2 * open_files(ctx_of(path@, comments@, files@, visiting@)), *stmt, 0nat,
{
    match &stmt.0 {
        AstNode::Random { arms } => {
            let chance_expr = &arms[i].0;
            let chance: i64 = match &chance_expr.0 {
                Expr::Literal(Literal::Int(c)) => *c,
                _ => {
                    let mut keywords: Vec<&str> = Vec::new();
                    keywords.push("percent_chance");
                    proof {
                        assert(crate::rms_error::strs_view(keywords@) =~= seq!["percent_chance"@]);
                    }
                    type_env.add_err(path, RmsError::syntax(&chance_expr.1, "{0} can only take int chances", keywords));
                    0
                },
            };
            type_env.in_arm(i as u32, chance as u32);
            proof {
                assert(decreases_to!(*stmt => arms@[i as int].1.0@));
            }
            let e = check_body(path, &arms[i].1.0, type_env, files, visiting, comments, comment_pos);
            e
        },
        _ => Vec::new(),
    }
}

/// An `if` checked (see [`tc_node_v`]).
#[verifier::rlimit(40)]
fn check_if(
    path: &str,
    stmt: &Spanned<AstNode>,
    type_env: &mut TypeEnv,
    files: &Vec<SourceFile>,
    visiting: &Vec<String>,
    comments: &Vec<Spanned<String>>,
    comment_pos: &mut usize,
) -> (r: Vec<ParseError>)
    requires
        stmt.0 is IfElseIf,
        stmt_ok(*stmt, old(type_env)@.deps is Some),
        files_ok(files@),
    ensures
        ({
            let (errs, env, pos, _) = tc_node_v(ctx_of(path@, comments@, files@, visiting@), stmt.0, stmt.1, old(type_env)@, *old(comment_pos) as nat, false);
            parse_errs_view(r@) == errs && final(type_env)@ == env && *final(comment_pos) as nat == pos
        }),
        (final(type_env)@.deps is Some) == (old(type_env)@.deps is Some),
    decreases 2 * open_files(ctx_of(path@, comments@, files@, visiting@)), *stmt, 1nat,
{
    let ghost ctx = ctx_of(path@, comments@, files@, visiting@);
    let ghost drs = type_env@.deps is Some;
    let ghost cs = stmt.0->consequents@;
    let ghost pos0 = *comment_pos as nat;
    let ghost env0 = type_env@;
    let nested = type_env.nested_guard();
    let ghost env1 = type_env@;
    let mut errs: Vec<ParseError> = Vec::new();
    let n = match &stmt.0 {
        AstNode::IfElseIf { consequents, alternate: _ } => consequents.len(),
        _ => 0,
    };
    let mut i: usize = 0;
    while i < n
        invariant
            i <= n,
            n == cs.len(),
            stmt.0 is IfElseIf,
            cs == stmt.0->consequents@,
            ctx == ctx_of(path@, comments@, files@, visiting@),
            drs == (type_env@.deps is Some),
            forall|j: int| 0 <= j < cs.len() ==> body_ok(#[trigger] cs[j].1.0@, drs),
            files_ok(files@),
            (parse_errs_view(errs@), type_env@, *comment_pos as nat) == tc_conds_v(ctx, cs.take(i as int), env1, pos0),
        decreases n - i,
    {
        proof {
            assert(cs.take(i + 1).drop_last() =~= cs.take(i as int));
            assert(cs.take(i + 1).last() == cs[i as int]);
        }
        let mut e2 = check_cond(path, stmt, i, type_env, files, visiting, comments, comment_pos);
        let ghost old_errs = parse_errs_view(errs@);
        let ghost added = parse_errs_view(e2@);
        errs.append(&mut e2);
        proof {
            assert(parse_errs_view(errs@) =~= old_errs + added);
        }
        i += 1;
    }
    proof {
        assert(cs.take(cs.len() as int) =~= cs);
    }
    match &stmt.0 {
        AstNode::IfElseIf { consequents: _, alternate: Some(b) } => {
            proof {
                assert(decreases_to!(*stmt => b.0@));
            }
            let mut e3 = check_body(path, &b.0, type_env, files, visiting, comments, comment_pos);
            let ghost old_errs = parse_errs_view(errs@);
            let ghost added = parse_errs_view(e3@);
            errs.append(&mut e3);
            proof {
                assert(parse_errs_view(errs@) =~= old_errs + added);
            }
        },
        _ => {
            proof {
                assert(parse_errs_view(errs@) =~= parse_errs_view(errs@) + Seq::<(Span, Seq<char>)>::empty());
            }
        },
    }
    type_env.leave_nested(nested);
    errs
}

/// A random block checked (see [`tc_node_v`]).
#[verifier::rlimit(40)]
fn check_random(
    path: &str,
    stmt: &Spanned<AstNode>,
    type_env: &mut TypeEnv,
    files: &Vec<SourceFile>,
    visiting: &Vec<String>,
    comments: &Vec<Spanned<String>>,
    comment_pos: &mut usize,
) -> (r: Vec<ParseError>)
    requires
        stmt.0 is Random,
        stmt_ok(*stmt, old(type_env)@.deps is Some),
        files_ok(files@),
    ensures
        ({
            let (errs, env, pos, _) = tc_node_v(ctx_of(path@, comments@, files@, visiting@), stmt.0, stmt.1, old(type_env)@, *old(comment_pos) as nat, false);
            parse_errs_view(r@) == errs && final(type_env)@ == env && *final(comment_pos) as nat == pos
        }),
        (final(type_env)@.deps is Some) == (old(type_env)@.deps is Some),
    decreases 2 * open_files(ctx_of(path@, comments@, files@, visiting@)), *stmt, 1nat,
{
    let ghost ctx = ctx_of(path@, comments@, files@, visiting@);
    let ghost drs = type_env@.deps is Some;
    let ghost arms = stmt.0->arms@;
    let ghost pos0 = *comment_pos as nat;
    let nested = type_env.nested_guard();
    let ghost env1 = type_env@;
    let mut errs: Vec<ParseError> = Vec::new();
    let n = match &stmt.0 {
        AstNode::Random { arms } => arms.len(),
        _ => 0,
    };
    let mut i: usize = 0;
    while i < n
        invariant
            i <= n,
            n == arms.len(),
            stmt.0 is Random,
            arms == stmt.0->arms@,
            ctx == ctx_of(path@, comments@, files@, visiting@),
            drs == (type_env@.deps is Some),
            forall|j: int| 0 <= j < arms.len() ==> body_ok(#[trigger] arms[j].1.0@, drs),
            files_ok(files@),
            (parse_errs_view(errs@), type_env@, *comment_pos as nat) == tc_arms_v(ctx, arms.take(i as int), env1, pos0),
        decreases n - i,
    {
        proof {
            assert(arms.take(i + 1).drop_last() =~= arms.take(i as int));
            assert(arms.take(i + 1).last() == arms[i as int]);
        }
        let mut e2 = check_arm(path, stmt, i, type_env, files, visiting, comments, comment_pos);
        let ghost old_errs = parse_errs_view(errs@);
        let ghost added = parse_errs_view(e2@);
        errs.append(&mut e2);
        proof {
            assert(parse_errs_view(errs@) =~= old_errs + added);
        }
        i += 1;
    }
    proof {
        assert(arms.take(arms.len() as int) =~= arms);
    }
    type_env.leave_nested(nested);
    errs
}

/// The statements of a body checked in order (see [`tc_body_v`]).
#[verifier::rlimit(40)]
fn check_body(
    path: &str,
    body: &Vec<Spanned<AstNode>>,
    type_env: &mut TypeEnv,
    files: &Vec<SourceFile>,
    visiting: &Vec<String>,
    comments: &Vec<Spanned<String>>,
    comment_pos: &mut usize,
) -> (r: Vec<ParseError>)
    requires
        body_ok(body@, old(type_env)@.deps is Some),
        files_ok(files@),
    ensures
        (parse_errs_view(r@), final(type_env)@, *final(comment_pos) as nat)
            == tc_body_v(ctx_of(path@, comments@, files@, visiting@), body@, old(type_env)@, *old(comment_pos) as nat),
        (final(type_env)@.deps is Some) == (old(type_env)@.deps is Some),
    decreases 2 * open_files(ctx_of(path@, comments@, files@, visiting@)), body@, 1nat,
{
    let ghost ctx = ctx_of(path@, comments@, files@, visiting@);
    let ghost drs = type_env@.deps is Some;
    let ghost env0 = type_env@;
    let ghost pos0 = *comment_pos as nat;
    let mut errs: Vec<ParseError> = Vec::new();
    let mut i: usize = 0;
    while i < body.len()
        invariant
            i <= body.len(),
            ctx == ctx_of(path@, comments@, files@, visiting@),
            drs == (type_env@.deps is Some),
            body_ok(body@, drs),
            files_ok(files@),
            (parse_errs_view(errs@), type_env@, *comment_pos as nat) == tc_body_v(ctx, body@.take(i as int), env0, pos0),
        decreases body.len() - i,
    {
        proof {
            assert(body@.take(i + 1).drop_last() =~= body@.take(i as int));
            assert(body@.take(i + 1).last() == body@[i as int]);
            assert(stmt_ok(body@[i as int], drs));
        }
        let mut e = check_stmt(path, &body[i], type_env, files, visiting, comments, comment_pos);
        let ghost old_errs = parse_errs_view(errs@);
        let ghost added = parse_errs_view(e@);
        errs.append(&mut e);
        proof {
            assert(parse_errs_view(errs@) =~= old_errs + added);
        }
        i += 1;
    }
    proof {
        assert(body@.take(body@.len() as int) =~= body@);
    }
    errs
}

/// The file `files[k]` checked (see [`tc_file_v`]).
#[verifier::rlimit(40)]
fn check_file(files: &Vec<SourceFile>, visiting: &Vec<String>, k: usize, type_env: &mut TypeEnv) -> (r: Vec<ParseError>)
    requires
        k < files.len(),
        files_ok(files@),
        old(type_env)@.deps is Some,
    ensures
        (parse_errs_view(r@), final(type_env)@)
            == tc_file_v(files@, strings_v(visiting@).to_set(), files@[k as int], old(type_env)@),
        final(type_env)@.deps is Some,
    decreases 2 * unseen(file_paths(files@), strings_v(visiting@).to_set()) + 1, files@[k as int], 0nat,
{
    let file = &files[k];
    if file.parse_errs.len() > 0 {
        let mut out: Vec<ParseError> = Vec::new();
        let mut i: usize = 0;
        while i < file.parse_errs.len()
            invariant
                i <= file.parse_errs.len(),
                parse_errs_view(out@) == parse_errs_view(file.parse_errs@).take(i as int),
            decreases file.parse_errs.len() - i,
        {
            let ghost o0 = out@;
            let e = file.parse_errs[i].clone_err();
            out.push(e);
            proof {
                assert(out@ == o0.push(e));
                assert(parse_errs_view(o0.push(e)) =~= parse_errs_view(o0).push(e@));
                assert(parse_errs_view(file.parse_errs@).take(i + 1) =~= parse_errs_view(file.parse_errs@).take(i as int).push(file.parse_errs@[i as int]@));
                assert(parse_errs_view(out@) =~= parse_errs_view(file.parse_errs@).take(i + 1));
            }
            i += 1;
        }
        proof {
            assert(parse_errs_view(file.parse_errs@).take(file.parse_errs@.len() as int) =~= parse_errs_view(file.parse_errs@));
        }
        return out;
    }
    let mut pos: usize = 0;
    proof {
        assert(body_ok(files@[k as int].ast@, true));
    }
    check_body(file.path.as_str(), &file.ast, type_env, files, visiting, &file.comments, &mut pos)
}

/// The result of a check whose read errors are `errs`: `Ok` when there are
/// none, else those errors.
pub open spec fn result_errs(r: Result<(), Vec<ParseError>>, errs: Seq<(Span, Seq<char>)>) -> bool {
    match r {
        Ok(()) => errs.len() == 0,
        Err(v) => parse_errs_view(v@) == errs && errs.len() > 0,
    }
}

fn into_result(errs: Vec<ParseError>) -> (r: Result<(), Vec<ParseError>>)
    ensures
        result_errs(r, parse_errs_view(errs@)),
{
    if errs.len() == 0 {
        Ok(())
    } else {
        Err(errs)
    }
}

/// Checks the statement `stmt` of the file `path` (see [`tc_stmt_v`]): the
/// errors found are recorded in `type_env`, the comments before it are
/// read from `comment_pos` on, and an `#include_drs` checks the file it
/// names among `files` (unless it is one of `visiting`, the files being
/// checked already). The result holds the read errors of included files.
pub fn rms_tc_stmt(
    path: &str,
    stmt: &Spanned<AstNode>,
    type_env: &mut TypeEnv,
    files: &Vec<SourceFile>,
    visiting: &Vec<String>,
    comments: &Vec<Spanned<String>>,
    comment_pos: &mut usize,
    is_top_level: bool,
) -> (r: Result<(), Vec<ParseError>>)
    requires
        stmt_ok(*stmt, old(type_env)@.deps is Some),
        files_ok(files@),
    ensures
        ({
            let (errs, env, pos) = tc_stmt_v(ctx_of(path@, comments@, files@, visiting@), *stmt, old(type_env)@, *old(comment_pos) as nat);
            &&& final(type_env)@ == env
            &&& *final(comment_pos) as nat == pos
            &&& result_errs(r, errs)
        }),
{
    let errs = check_stmt(path, stmt, type_env, files, visiting, comments, comment_pos);
    into_result(errs)
}

/// Checks the file `file` (see [`tc_file_v`]), each `#include_drs` checking
/// the file it names among `files`: the errors found are recorded in
/// `type_env`; the result holds the read errors of the file or of the
/// files it includes.
pub fn rms_tc(file: &SourceFile, type_env: &mut TypeEnv, files: &Vec<SourceFile>) -> (r: Result<(), Vec<ParseError>>)
    requires
        body_ok(file.ast@, old(type_env)@.deps is Some),
        files_ok(files@),
    ensures
        ({
            let (errs, env) = tc_file_v(files@, set![file.path@], *file, old(type_env)@);
            final(type_env)@ == env && result_errs(r, errs)
        }),
{
    let mut visiting: Vec<String> = Vec::new();
    visiting.push(string_from(file.path.as_str()));
    proof {
        assert(strings_v(visiting@) =~= seq![file.path@]);
        assert(strings_v(visiting@).to_set() =~= set![file.path@]) by {
            assert forall|x: Seq<char>| strings_v(visiting@).to_set().contains(x) <==> set![file.path@].contains(x) by {
                if x == file.path@ {
                    assert(strings_v(visiting@)[0] == x);
                }
            }
        }
    }
    if file.parse_errs.len() > 0 {
        let mut out: Vec<ParseError> = Vec::new();
        let mut i: usize = 0;
        while i < file.parse_errs.len()
            invariant
                i <= file.parse_errs.len(),
                parse_errs_view(out@) == parse_errs_view(file.parse_errs@).take(i as int),
            decreases file.parse_errs.len() - i,
        {
            let ghost o0 = out@;
            let e = file.parse_errs[i].clone_err();
            out.push(e);
            proof {
                assert(parse_errs_view(o0.push(e)) =~= parse_errs_view(o0).push(e@));
                assert(parse_errs_view(file.parse_errs@).take(i + 1) =~= parse_errs_view(file.parse_errs@).take(i as int).push(file.parse_errs@[i as int]@));
            }
            i += 1;
        }
        proof {
            assert(parse_errs_view(file.parse_errs@).take(file.parse_errs@.len() as int) =~= parse_errs_view(file.parse_errs@));
        }
        return into_result(out);
    }
    let mut pos: usize = 0;
    let errs = check_body(file.path.as_str(), &file.ast, type_env, files, &visiting, &file.comments, &mut pos);
    into_result(errs)
}

// ---------------------------------------------------------------------
// The arms of a random block, as read.

/// The chance of an arm, when it is an int literal.
pub open spec fn arm_chance(a: (Spanned<Expr>, Spanned<Body>)) -> Option<i64> {
    match a.0.0 {
        Expr::Literal(Literal::Int(v)) => Some(v),
        _ => None,
    }
}

/// The sum of the int chances of `arms`.
pub open spec fn chance_total(arms: Seq<(Spanned<Expr>, Spanned<Body>)>) -> int
    decreases arms.len(),
{
    if arms.len() == 0 {
        0
    } else {
        chance_total(arms.drop_last()) + match arm_chance(arms.last()) {
            Some(v) => v as int,
            None => 0,
        }
    }
}

/// The arm `a` with the chance `v` (its span and body kept).
pub open spec fn with_chance_v(a: (Spanned<Expr>, Spanned<Body>), v: i64) -> (Spanned<Expr>, Spanned<Body>) {
    ((Expr::Literal(Literal::Int(v)), a.0.1), a.1)
}

/// The first arm's int chance raised by one.
pub open spec fn raise_first(arms: Seq<(Spanned<Expr>, Spanned<Body>)>) -> Seq<(Spanned<Expr>, Spanned<Body>)> {
    if arms.len() > 0 && arm_chance(arms[0]) is Some {
        arms.update(0, with_chance_v(arms[0], (arm_chance(arms[0])->0 + 1) as i64))
    } else {
        arms
    }
}

/// The arms of a random block as the reader leaves them: the first arm's
/// int chance one more, then, when the int chances add up to more than a
/// hundred, the last arm's int chance one less.
pub open spec fn adjusted_arms(arms: Seq<(Spanned<Expr>, Spanned<Body>)>) -> Seq<(Spanned<Expr>, Spanned<Body>)> {
    let r = raise_first(arms);
    if chance_total(r) > 100 && r.len() > 0 && arm_chance(r.last()) is Some {
        r.update(r.len() - 1, with_chance_v(r.last(), (arm_chance(r.last())->0 - 1) as i64))
    } else {
        r
    }
}

/// The adjustments fit an `i64`: the first chance can grow by one, the
/// total can be summed, and the last chance can shrink by one.
pub open spec fn arms_adjustable(arms: Seq<(Spanned<Expr>, Spanned<Body>)>) -> bool {
    &&& (arms.len() > 0 && arm_chance(arms[0]) is Some ==> arm_chance(arms[0])->0 < i64::MAX)
    &&& forall|k: int| 0 <= k <= arms.len() ==> i64::MIN <= #[trigger] chance_total(raise_first(arms).take(k)) <= i64::MAX
    &&& (arms.len() > 0 && arm_chance(raise_first(arms).last()) is Some ==> arm_chance(raise_first(arms).last())->0 > i64::MIN)
}

/// The arm `a` with the chance `v`.
fn with_chance(a: (Spanned<Expr>, Spanned<Body>), v: i64) -> (r: (Spanned<Expr>, Spanned<Body>))
    ensures
        r == with_chance_v(a, v),
{
    let ((_, span), body) = a;
    ((Expr::Literal(Literal::Int(v)), span), body)
}

/// Adjusts the chances of the arms of a random block as the reader does
/// (see [`adjusted_arms`]).
pub fn adjust_random_arms(arms: &mut Vec<(Spanned<Expr>, Spanned<Body>)>)
    requires
        arms_adjustable(old(arms)@),
    ensures
        final(arms)@ == adjusted_arms(old(arms)@),
{
    let ghost a0 = arms@;
    if arms.len() > 0 {
        let first = match &arms[0].0.0 {
            Expr::Literal(Literal::Int(v)) => Some(*v),
            _ => None,
        };
        match first {
            Some(v) => {
                let a = arms.remove(0);
                arms.insert(0, with_chance(a, v + 1));
                proof {
                    assert(arms@ =~= raise_first(a0));
                }
            },
            None => {},
        }
    }
    let ghost r = arms@;
    proof {
        assert(r == raise_first(a0));
    }
    let mut total: i64 = 0;
    let mut i: usize = 0;
    while i < arms.len()
        invariant
            i <= arms.len(),
            arms@ == r,
            r == raise_first(a0),
            arms_adjustable(a0),
            total == chance_total(r.take(i as int)),
        decreases arms.len() - i,
    {
        proof {
            assert(r.take(i + 1).drop_last() =~= r.take(i as int));
            assert(r.take(i + 1).last() == r[i as int]);
            assert(i64::MIN <= chance_total(r.take(i + 1)) <= i64::MAX);
        }
        match &arms[i].0.0 {
            Expr::Literal(Literal::Int(v)) => {
                total = total + *v;
            },
            _ => {},
        }
        i += 1;
    }
    proof {
        assert(r.take(r.len() as int) =~= r);
    }
    if total > 100 && arms.len() > 0 {
        let n = arms.len();
        let last = match &arms[n - 1].0.0 {
            Expr::Literal(Literal::Int(v)) => Some(*v),
            _ => None,
        };
        match last {
            Some(v) => {
                let a = arms.remove(n - 1);
                arms.push(with_chance(a, v - 1));
                proof {
                    assert(arms@ =~= r.update(r.len() - 1, with_chance_v(r.last(), (v - 1) as i64)));
                }
            },
            None => {},
        }
    }
}

} // verus!
