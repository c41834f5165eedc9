use vstd::prelude::*;
use crate::ast::{Identifier, Span};
use crate::strings::{str_eq, string_from};

verus! {

/// The kinds of warning a script can produce.
#[derive(Debug, Clone, Copy, PartialEq, Eq, Structural)]
pub enum WarningKind {
    ShadowedVarName,
    UnknownWarningName,
}

/// An error or warning found in a script.
#[derive(Debug)]
pub enum RmsError {
    TypeMismatch { actual: String, expected: String, span: Span, note: Option<String> },
    OpMismatch { op: String, type1: String, type2: String, span: Span, note: Option<String> },
    UndefinedName { name: String, span: Span },
    DeadName { name: String, span: Span },
    MaybeDeadName { name: String, span: Span },
    UnresolvedInclude { inc_filename: String, span: Span },
    Syntax { span: Span, msg: String, keywords: Vec<String> },
    Warning { span: Span, msg: String, keywords: Vec<String>, kind: WarningKind, ignored: bool },
}

/// The mathematical value of an [`RmsError`]: its texts as character sequences.
pub enum RmsErrorV {
    TypeMismatch { actual: Seq<char>, expected: Seq<char>, span: Span, note: Option<Seq<char>> },
    OpMismatch { op: Seq<char>, type1: Seq<char>, type2: Seq<char>, span: Span, note: Option<Seq<char>> },
    UndefinedName { name: Seq<char>, span: Span },
    DeadName { name: Seq<char>, span: Span },
    MaybeDeadName { name: Seq<char>, span: Span },
    UnresolvedInclude { inc_filename: Seq<char>, span: Span },
    Syntax { span: Span, msg: Seq<char>, keywords: Seq<Seq<char>> },
    Warning { span: Span, msg: Seq<char>, keywords: Seq<Seq<char>>, kind: WarningKind, ignored: bool },
}

pub open spec fn note_view(n: Option<String>) -> Option<Seq<char>> {
    match n {
        Some(s) => Some(s@),
        None => None,
    }
}

impl View for RmsError {
    type V = RmsErrorV;

    open spec fn view(&self) -> RmsErrorV {
        match *self {
            RmsError::TypeMismatch { actual, expected, span, note } => RmsErrorV::TypeMismatch {
                actual: actual@,
                expected: expected@,
                span,
                note: note_view(note),
            },
            RmsError::OpMismatch { op, type1, type2, span, note } => RmsErrorV::OpMismatch {
                op: op@,
                type1: type1@,
                type2: type2@,
                span,
                note: note_view(note),
            },
            RmsError::UndefinedName { name, span } => RmsErrorV::UndefinedName { name: name@, span },
            RmsError::DeadName { name, span } => RmsErrorV::DeadName { name: name@, span },
            RmsError::MaybeDeadName { name, span } => RmsErrorV::MaybeDeadName { name: name@, span },
            RmsError::UnresolvedInclude { inc_filename, span } => RmsErrorV::UnresolvedInclude {
                inc_filename: inc_filename@,
                span,
            },
            RmsError::Syntax { span, msg, keywords } => RmsErrorV::Syntax {
                span,
                msg: msg@,
                keywords: strings_view(keywords@),
            },
            RmsError::Warning { span, msg, keywords, kind, ignored } => RmsErrorV::Warning {
                span,
                msg: msg@,
                keywords: strings_view(keywords@),
                kind,
                ignored,
            },
        }
    }
}

/// The numeric code of an error's value.
pub open spec fn error_code_v(e: RmsErrorV) -> u32 {
    match e {
        RmsErrorV::TypeMismatch { .. } => 0,
        RmsErrorV::OpMismatch { .. } => 1,
        RmsErrorV::UndefinedName { .. } => 2,
        RmsErrorV::DeadName { .. } => 3,
        RmsErrorV::MaybeDeadName { .. } => 4,
        RmsErrorV::UnresolvedInclude { .. } => 5,
        RmsErrorV::Syntax { .. } => 6,
        RmsErrorV::Warning { kind, .. } => warning_code(kind),
    }
}

/// The numeric code of a warning kind.
pub open spec fn warning_code(k: WarningKind) -> u32 {
    match k {
        WarningKind::ShadowedVarName => 100,
        WarningKind::UnknownWarningName => 1000,
    }
}

/// The numeric code of an error: its position in the list of error kinds,
/// or the code of its warning kind.
pub open spec fn error_code(e: RmsError) -> u32 {
    match e {
        RmsError::TypeMismatch { .. } => 0,
        RmsError::OpMismatch { .. } => 1,
        RmsError::UndefinedName { .. } => 2,
        RmsError::DeadName { .. } => 3,
        RmsError::MaybeDeadName { .. } => 4,
        RmsError::UnresolvedInclude { .. } => 5,
        RmsError::Syntax { .. } => 6,
        RmsError::Warning { kind, .. } => warning_code(kind),
    }
}

/// The span that an error points at.
pub open spec fn error_span(e: RmsError) -> Span {
    match e {
        RmsError::TypeMismatch { span, .. } => span,
        RmsError::OpMismatch { span, .. } => span,
        RmsError::UndefinedName { span, .. } => span,
        RmsError::DeadName { span, .. } => span,
        RmsError::MaybeDeadName { span, .. } => span,
        RmsError::UnresolvedInclude { span, .. } => span,
        RmsError::Syntax { span, .. } => span,
        RmsError::Warning { span, .. } => span,
    }
}

/// The views of a list of string slices.
pub open spec fn strs_view(v: Seq<&str>) -> Seq<Seq<char>> {
    v.map_values(|s: &str| s@)
}

/// The views of a list of strings.
pub open spec fn strings_view(v: Seq<String>) -> Seq<Seq<char>> {
    v.map_values(|s: String| s@)
}

fn owned_strings(v: Vec<&str>) -> (r: Vec<String>)
    ensures
        strings_view(r@) == strs_view(v@),
{
    let mut r: Vec<String> = Vec::new();
    let mut i: usize = 0;
    while i < v.len()
        invariant
            i <= v.len(),
            r@.len() == i,
            forall|j: int| 0 <= j < i ==> (#[trigger] r@[j])@ == v@[j]@,
        decreases v.len() - i,
    {
        r.push(string_from(v[i]));
        i += 1;
    }
    assert(strings_view(r@) =~= strs_view(v@));
    r
}

fn owned_note(note: Option<&str>) -> (r: Option<String>)
    ensures
        match note {
            Some(n) => r matches Some(s) && s@ == n@,
            None => r is None,
        },
{
    match note {
        Some(n) => Some(string_from(n)),
        None => None,
    }
}

impl RmsError {
    /// A value of type `actual` where `expected` was wanted.
    pub fn type_mismatch(actual: &str, expected: &str, span: &Span, note: Option<&str>) -> (r: RmsError)
        ensures
            r matches RmsError::TypeMismatch { actual: a, expected: x, span: s, note: n }
                && a@ == actual@ && x@ == expected@ && s == *span
                && (match note { Some(t) => n matches Some(u) && u@ == t@, None => n is None }),
    {
        RmsError::TypeMismatch {
            actual: string_from(actual),
            expected: string_from(expected),
            span: *span,
            note: owned_note(note),
        }
    }

    /// The operation `op` applied to values of types `type1` and `type2`.
    pub fn op_mismatch(op: &str, type1: &str, type2: &str, span: &Span, note: Option<&str>) -> (r: RmsError)
        ensures
            r matches RmsError::OpMismatch { op: o, type1: t1, type2: t2, span: s, note: n }
                && o@ == op@ && t1@ == type1@ && t2@ == type2@ && s == *span
                && (match note { Some(t) => n matches Some(u) && u@ == t@, None => n is None }),
    {
        RmsError::OpMismatch {
            op: string_from(op),
            type1: string_from(type1),
            type2: string_from(type2),
            span: *span,
            note: owned_note(note),
        }
    }

    /// A use of a name that is never defined.
    pub fn undefined_name(name: &Identifier, span: &Span) -> (r: RmsError)
        ensures
            r matches RmsError::UndefinedName { name: n, span: s } && n@ == name@ && s == *span,
    {
        RmsError::UndefinedName { name: name.0.clone(), span: *span }
    }

    /// A use of a name that is undefined at this point.
    pub fn dead_name(name: &Identifier, span: &Span) -> (r: RmsError)
        ensures
            r matches RmsError::DeadName { name: n, span: s } && n@ == name@ && s == *span,
    {
        RmsError::DeadName { name: name.0.clone(), span: *span }
    }

    /// A use of a name that may be undefined at this point.
    pub fn maybe_dead_name(name: &Identifier, span: &Span) -> (r: RmsError)
        ensures
            r matches RmsError::MaybeDeadName { name: n, span: s } && n@ == name@ && s == *span,
    {
        RmsError::MaybeDeadName { name: name.0.clone(), span: *span }
    }

    /// An included file that could not be found.
    pub fn unresolved_include(inc_filename: &str, span: &Span) -> (r: RmsError)
        ensures
            r matches RmsError::UnresolvedInclude { inc_filename: f, span: s } && f@ == inc_filename@ && s == *span,
    {
        RmsError::UnresolvedInclude { inc_filename: string_from(inc_filename), span: *span }
    }

    /// A syntax error with message `msg`, whose placeholders refer to `keywords`.
    pub fn syntax(span: &Span, msg: &str, keywords: Vec<&str>) -> (r: RmsError)
        ensures
            r matches RmsError::Syntax { span: s, msg: m, keywords: k }
                && s == *span && m@ == msg@ && strings_view(k@) == strs_view(keywords@),
    {
        RmsError::Syntax { span: *span, msg: string_from(msg), keywords: owned_strings(keywords) }
    }

    /// A warning of kind `kind`, not (yet) ignored.
    pub fn warning(span: &Span, msg: &str, keywords: Vec<&str>, kind: WarningKind) -> (r: RmsError)
        ensures
            r matches RmsError::Warning { span: s, msg: m, keywords: k, kind: w, ignored: i }
                && s == *span && m@ == msg@ && strings_view(k@) == strs_view(keywords@)
                && w == kind && !i,
    {
        RmsError::Warning {
            span: *span,
            msg: string_from(msg),
            keywords: owned_strings(keywords),
            kind,
            ignored: false,
        }
    }

    /// The span that the error points at.
    pub fn span(&self) -> (r: &Span)
        ensures
            *r == error_span(*self),
    {
        match self {
            RmsError::TypeMismatch { span, .. } => span,
            RmsError::OpMismatch { span, .. } => span,
            RmsError::UndefinedName { span, .. } => span,
            RmsError::DeadName { span, .. } => span,
            RmsError::MaybeDeadName { span, .. } => span,
            RmsError::UnresolvedInclude { span, .. } => span,
            RmsError::Syntax { span, .. } => span,
            RmsError::Warning { span, .. } => span,
        }
    }

    /// The name of the error's class.
    pub fn kind(&self) -> (r: &str)
        ensures
            r@ == (match *self {
                RmsError::TypeMismatch { .. } => "TypeError"@,
                RmsError::OpMismatch { .. } => "TypeError"@,
                RmsError::UndefinedName { .. } => "NameError"@,
                RmsError::DeadName { .. } => "NameError"@,
                RmsError::MaybeDeadName { .. } => "NameError"@,
                RmsError::UnresolvedInclude { .. } => "UnresolvedInclude"@,
                RmsError::Syntax { .. } => "SyntaxError"@,
                RmsError::Warning { kind, .. } => warning_name(kind),
            }),
    {
        match self {
            RmsError::TypeMismatch { .. } => "TypeError",
            RmsError::OpMismatch { .. } => "TypeError",
            RmsError::UndefinedName { .. } => "NameError",
            RmsError::DeadName { .. } => "NameError",
            RmsError::MaybeDeadName { .. } => "NameError",
            RmsError::UnresolvedInclude { .. } => "UnresolvedInclude",
            RmsError::Syntax { .. } => "SyntaxError",
            RmsError::Warning { kind, .. } => kind.as_str(),
        }
    }

    /// The error is a warning.
    pub fn is_warning(&self) -> (r: bool)
        ensures
            r == (*self is Warning),
    {
        match self {
            RmsError::Warning { .. } => true,
            _ => false,
        }
    }

    /// The error is a warning that is ignored.
    pub fn is_ignored(&self) -> (r: bool)
        ensures
            r == (*self matches RmsError::Warning { ignored, .. } && ignored),
    {
        match self {
            RmsError::Warning { ignored, .. } => *ignored,
            _ => false,
        }
    }

    /// The error is to be shown: it is not ignored, and its code is not
    /// among `ignores`.
    pub fn is_reported(&self, ignores: &std::collections::HashSet<u32>) -> (r: bool)
        ensures
            r == !(ignores@.contains(error_code(*self)) || (*self matches RmsError::Warning { ignored, .. } && ignored)),
    {
        let code = self.code();
        !(ignores.contains(&code) || self.is_ignored())
    }

    /// The numeric code of the error.
    pub fn code(&self) -> (r: u32)
        ensures
            r == error_code(*self),
    {
        match self {
            RmsError::TypeMismatch { .. } => 0,
            RmsError::OpMismatch { .. } => 1,
            RmsError::UndefinedName { .. } => 2,
            RmsError::DeadName { .. } => 3,
            RmsError::MaybeDeadName { .. } => 4,
            RmsError::UnresolvedInclude { .. } => 5,
            RmsError::Syntax { .. } => 6,
            RmsError::Warning { kind, .. } => kind.as_u32(),
        }
    }
}

/// The name that a warning kind is shown with.
pub open spec fn warning_name(k: WarningKind) -> Seq<char> {
    match k {
        WarningKind::ShadowedVarName => "TopStrInit"@,
        WarningKind::UnknownWarningName => "UnknownWarningName"@,
    }
}

impl WarningKind {
    /// The numeric code of the warning kind.
    pub fn as_u32(&self) -> (r: u32)
        ensures
            r == warning_code(*self),
    {
        match self {
            WarningKind::ShadowedVarName => 100,
            WarningKind::UnknownWarningName => 1000,
        }
    }

    /// The name that the warning kind is shown with.
    pub fn as_str(&self) -> (r: &'static str)
        ensures
            r@ == warning_name(*self),
    {
        match self {
            WarningKind::ShadowedVarName => "TopStrInit",
            WarningKind::UnknownWarningName => "UnknownWarningName",
        }
    }

    /// The warning kind that a script may ignore by this name.
    /// `UnknownWarningName` cannot be ignored, so no name gives it.
    pub fn from_name(name: &str) -> (r: Option<WarningKind>)
        ensures
            r == (if name@ == "ShadowedVarName"@ { Some(WarningKind::ShadowedVarName) } else { None::<WarningKind> }),
    {
        if str_eq(name, "ShadowedVarName") {
            Some(WarningKind::ShadowedVarName)
        } else {
            None
        }
    }
}

} // verus!
