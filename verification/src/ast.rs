use vstd::prelude::*;
use crate::strings::{string_from, str_eq};

verus! {

/// A name in an RMS script (a constant, a label or a command).
#[derive(Debug, PartialEq, Eq, Hash)]
pub struct Identifier(pub String);

impl View for Identifier {
    type V = Seq<char>;

    open spec fn view(&self) -> Seq<char> {
        self.0@
    }
}

impl Clone for Identifier {
    fn clone(&self) -> (r: Self)
        ensures
            r@ == self@,
    {
        Identifier(self.0.clone())
    }
}

impl From<&str> for Identifier {
    /// The identifier holding `name`.
    fn from(name: &str) -> (r: Identifier)
        ensures
            r@ == name@,
    {
        Identifier::new(name)
    }
}

impl vstd::std_specs::convert::FromSpecImpl<&str> for Identifier {
    /// Two strings with the same text are not known to be one value, so
    /// no single identifier is named here; `from` states the text instead.
    open spec fn obeys_from_spec() -> bool {
        false
    }

    open spec fn from_spec(v: &str) -> Identifier {
        choose|r: Identifier| r@ == v@
    }
}

impl Identifier {
    /// Makes an identifier holding `name`.
    pub fn new(name: &str) -> (r: Identifier)
        ensures
            r@ == name@,
    {
        Identifier(String::from_str(name))
    }

    /// Two identifiers are the same name when their text is the same.
    pub fn same(&self, other: &Identifier) -> (r: bool)
        ensures
            r == (self@ == other@),
    {
        self.0 == other.0
    }

    /// Whether the game itself defines this name (game modes, map sizes,
    /// lobby settings, and the numbered names such as `2_PLAYER_GAME`).
    pub fn is_default_name(&self) -> (r: bool)
        ensures
            r == is_default_name_v(self@),
    {
        let name = self.0.as_str();
        if is_listed_default_name(name) {
            return true;
        }
        let m = regex_is_match(DEFAULT_NAME_PATTERN, name);
        default_name_given(name, m)
    }
}

/// The pattern of the names the game defines with numbers in them
/// (`2_PLAYER_GAME`, `PLAYER1_TEAM2`, ...).
pub const DEFAULT_NAME_PATTERN: &'static str = "^(?:\\d+_PLAYER_GAME|\\d+_TEAM_GAME|PLAYER\\d+_TEAM\\d+|TEAM\\d+_SIZE\\d+)$";

/// Whether the regular expression `pattern` matches somewhere in `text`;
/// `None` when `pattern` is not a valid regular expression.
pub uninterp spec fn regex_matches(pattern: Seq<char>, text: Seq<char>) -> Option<bool>;

/// Compiles `pattern` with `regex::Regex::new` and, when it compiles, asks
/// `Regex::is_match` whether it matches somewhere in `text`. The contract
/// names the result (`regex_matches`) and says nothing of its value: the
/// matching rules are those of the `regex` crate.
#[verifier::external_body]
fn regex_is_match(pattern: &str, text: &str) -> (r: Option<bool>)
    ensures
        r == regex_matches(pattern@, text@),
{
    match regex::Regex::new(pattern) {
        Ok(re) => Some(re.is_match(text)),
        Err(_) => None,
    }
}

/// The names the game defines for every script, spelled out.
pub open spec fn listed_default_name(n: Seq<char>) -> bool {
    ||| n == "DEATH_MATCH"@
        ||| n == "REGICIDE"@
        ||| n == "CAPTURE_THE_RELIC"@
        ||| n == "CAPTURE_RELICS"@
        ||| n == "RANDOM_MAP"@
        ||| n == "TURBO_RANDOM_MAP"@
        ||| n == "KING_OT_HILL"@
        ||| n == "WONDER_RACE"@
        ||| n == "DEFEND_WONDER"@
        ||| n == "EMPIRE_WARS"@
        ||| n == "BATTLE_ROYALE"@
        ||| n == "SUDDEN_DEATH"@
        ||| n == "TINY_MAP"@
        ||| n == "SMALL_MAP"@
        ||| n == "MEDIUM_MAP"@
        ||| n == "LARGE_MAP"@
        ||| n == "HUGE_MAP"@
        ||| n == "GIGANTIC_MAP"@
        ||| n == "LUDIKRIS_MAP"@
        ||| n == "MAPSIZE_MINI"@
        ||| n == "MAPSIZE_TINY"@
        ||| n == "MAPSIZE_SMALL"@
        ||| n == "MAPSIZE_MEDIUM"@
        ||| n == "MAPSIZE_NORMAL"@
        ||| n == "MAPSIZE_LARGE"@
        ||| n == "MAPSIZE_HUGE"@
        ||| n == "MAPSIZE_GIANT"@
        ||| n == "MAPSIZE_MASSIVE"@
        ||| n == "MAPSIZE_ENORMOUS"@
        ||| n == "MAPSIZE_COLOSSAL"@
        ||| n == "MAPSIZE_INCREDIBLE"@
        ||| n == "MAPSIZE_MONSTROUS"@
        ||| n == "MAPSIZE_LUDICROUS"@
        ||| n == "HIGH_RESOURCES"@
        ||| n == "MEDIUM_RESOURCES"@
        ||| n == "LOW_RESOURCES"@
        ||| n == "DEFAULT_RESOURCES"@
        ||| n == "INFINITE_RESOURCES"@
        ||| n == "RANDOM_RESOURCES"@
        ||| n == "DARK_AGE_START"@
        ||| n == "FEUDAL_AGE_START"@
        ||| n == "CASTLE_AGE_START"@
        ||| n == "IMPERIAL_AGE_START"@
        ||| n == "POST_IMPERIAL_AGE_START"@
        ||| n == "FIXED_POSITIONS"@
        ||| n == "TURBO_MODE"@
        ||| n == "TEAM_POSITIONS"@
        ||| n == "FULL_TECH_TREE"@
        ||| n == "AI_PLAYERS"@
        ||| n == "SOLID_FARMS"@
        ||| n == "ANTIQUITY_MODE"@
        ||| n == "UP_AVAILABLE"@
        ||| n == "UP_EXTENSION"@
        ||| n == "DE_AVAILABLE"@
        ||| n == "DE_GAME_ROME"@
        ||| n == "DE_GAME_AGE2"@
}

fn is_listed_default_name(n: &str) -> (r: bool)
    ensures
        r == listed_default_name(n@),
{
    str_eq(n, "DEATH_MATCH")
        || str_eq(n, "REGICIDE")
        || str_eq(n, "CAPTURE_THE_RELIC")
        || str_eq(n, "CAPTURE_RELICS")
        || str_eq(n, "RANDOM_MAP")
        || str_eq(n, "TURBO_RANDOM_MAP")
        || str_eq(n, "KING_OT_HILL")
        || str_eq(n, "WONDER_RACE")
        || str_eq(n, "DEFEND_WONDER")
        || str_eq(n, "EMPIRE_WARS")
        || str_eq(n, "BATTLE_ROYALE")
        || str_eq(n, "SUDDEN_DEATH")
        || str_eq(n, "TINY_MAP")
        || str_eq(n, "SMALL_MAP")
        || str_eq(n, "MEDIUM_MAP")
        || str_eq(n, "LARGE_MAP")
        || str_eq(n, "HUGE_MAP")
        || str_eq(n, "GIGANTIC_MAP")
        || str_eq(n, "LUDIKRIS_MAP")
        || str_eq(n, "MAPSIZE_MINI")
        || str_eq(n, "MAPSIZE_TINY")
        || str_eq(n, "MAPSIZE_SMALL")
        || str_eq(n, "MAPSIZE_MEDIUM")
        || str_eq(n, "MAPSIZE_NORMAL")
        || str_eq(n, "MAPSIZE_LARGE")
        || str_eq(n, "MAPSIZE_HUGE")
        || str_eq(n, "MAPSIZE_GIANT")
        || str_eq(n, "MAPSIZE_MASSIVE")
        || str_eq(n, "MAPSIZE_ENORMOUS")
        || str_eq(n, "MAPSIZE_COLOSSAL")
        || str_eq(n, "MAPSIZE_INCREDIBLE")
        || str_eq(n, "MAPSIZE_MONSTROUS")
        || str_eq(n, "MAPSIZE_LUDICROUS")
        || str_eq(n, "HIGH_RESOURCES")
        || str_eq(n, "MEDIUM_RESOURCES")
        || str_eq(n, "LOW_RESOURCES")
        || str_eq(n, "DEFAULT_RESOURCES")
        || str_eq(n, "INFINITE_RESOURCES")
        || str_eq(n, "RANDOM_RESOURCES")
        || str_eq(n, "DARK_AGE_START")
        || str_eq(n, "FEUDAL_AGE_START")
        || str_eq(n, "CASTLE_AGE_START")
        || str_eq(n, "IMPERIAL_AGE_START")
        || str_eq(n, "POST_IMPERIAL_AGE_START")
        || str_eq(n, "FIXED_POSITIONS")
        || str_eq(n, "TURBO_MODE")
        || str_eq(n, "TEAM_POSITIONS")
        || str_eq(n, "FULL_TECH_TREE")
        || str_eq(n, "AI_PLAYERS")
        || str_eq(n, "SOLID_FARMS")
        || str_eq(n, "ANTIQUITY_MODE")
        || str_eq(n, "UP_AVAILABLE")
        || str_eq(n, "UP_EXTENSION")
        || str_eq(n, "DE_AVAILABLE")
        || str_eq(n, "DE_GAME_ROME")
        || str_eq(n, "DE_GAME_AGE2")
}

/// A name is defined by the game when it is listed, or when the pattern of
/// numbered names matched it (`pattern_match`).
pub open spec fn default_name_v(n: Seq<char>, pattern_match: Option<bool>) -> bool {
    listed_default_name(n) || pattern_match == Some(true)
}

/// Whether the game defines the name `n`.
pub open spec fn is_default_name_v(n: Seq<char>) -> bool {
    default_name_v(n, regex_matches(DEFAULT_NAME_PATTERN@, n))
}

/// Whether the game defines `name`, given what the pattern of numbered
/// names answered for it.
pub fn default_name_given(name: &str, pattern_match: Option<bool>) -> (r: bool)
    ensures
        r == default_name_v(name@, pattern_match),
{
    is_listed_default_name(name) || pattern_match == Some(true)
}


/// A range of byte offsets in a source file.
#[derive(Debug, Clone, Copy, PartialEq, Eq, Structural)]
pub struct Span {
    pub start: usize,
    pub end: usize,
}

/// A value with the span it was read from.
pub type Spanned<T> = (T, Span);


/// The type of a value in a script.
#[derive(Debug, Clone, Copy, PartialEq, Eq, Hash, Structural)]
pub enum Type {
    Int,
    Float,
    Label,
}

/// The name a type is shown with.
pub open spec fn type_label(t: Type) -> Seq<char> {
    match t {
        Type::Int => "int"@,
        Type::Float => "float"@,
        Type::Label => "label"@,
    }
}

impl Type {
    /// The name the type is shown with: `int`, `float` or `label`.
    pub fn to_display_string(&self) -> (r: String)
        ensures
            r@ == type_label(*self),
    {
        match self {
            Type::Int => string_from("int"),
            Type::Float => string_from("float"),
            Type::Label => string_from("label"),
        }
    }
}

/// A literal value. A float is kept as the text it was written with.
#[derive(Debug, PartialEq, Eq, Hash)]
pub enum Literal {
    Int(i64),
    Float(String),
    Str(String),
}

impl Literal {
    /// A string literal, as written (quotes included).
    pub fn str(val: &str) -> (r: Literal)
        ensures
            r matches Literal::Str(s) && s@ == val@,
    {
        Literal::Str(string_from(val))
    }
}

/// An expression.
#[derive(Debug)]
pub enum Expr {
    Rnd(Box<Spanned<Expr>>, Box<Spanned<Expr>>),
    Literal(Literal),
    Identifier(Identifier),
    Paren(Box<Spanned<Expr>>),
    Neg(Box<Spanned<Expr>>),
    Star(Box<Spanned<Expr>>, Box<Spanned<Expr>>),
    FSlash(Box<Spanned<Expr>>, Box<Spanned<Expr>>),
    PCent(Box<Spanned<Expr>>, Box<Spanned<Expr>>),
    Minus(Box<Spanned<Expr>>, Box<Spanned<Expr>>),
    Plus(Box<Spanned<Expr>>, Box<Spanned<Expr>>),
}

/// A sequence of statements.
pub type Body = Vec<Spanned<AstNode>>;

/// A statement of a script.
#[derive(Debug)]
pub enum AstNode {
    Error,
    IncludeDrs(Spanned<String>),
    IncludeXs(Spanned<String>),
    LabelDef(Spanned<Identifier>),
    ConstDef { name: Spanned<Identifier>, value: Spanned<Expr> },
    UnDef(Spanned<Identifier>),
    IfElseIf { consequents: Vec<(Spanned<Expr>, Spanned<Body>)>, alternate: Option<Spanned<Body>> },
    Random { arms: Vec<(Spanned<Expr>, Spanned<Body>)> },
    SectionStart(Spanned<Identifier>),
    Command { name: Spanned<Identifier>, params: Vec<Spanned<Expr>> },
    Block(Spanned<Body>),
}

} // verus!
