use vstd::prelude::*;
use crate::ast::{Identifier, Literal};
use crate::strings::{concat, string_from};

verus! {

/// A token of an RMS script.
#[derive(Debug)]
pub enum Token {
    Error,

    Plus,
    Minus,
    Star,
    FSlash,
    PCent,
    DPlus,
    DMinus,
    Lt,
    Gt,
    Le,
    Ge,
    Deq,
    Neq,
    DAmp,
    DPipe,
    Excl,

    BSlash,
    Eq,
    LBrace,
    RBrace,
    LParen,
    RParen,
    SColon,
    Colon,
    Comma,
    Dot,

    Literal(Literal),
    Identifier(Identifier),

    Comment(String),

    Const,
    Define,
    Undefine,

    If,
    ElseIf,
    Else,
    EndIf,

    StartRandom,
    PercentChance,
    EndRandom,

    Rnd,

    IncludeDrs,
    IncludeXs,

    Command(Identifier),
}

/// The decimal digit `d` (below ten) as a character.
pub open spec fn digit_char(d: nat) -> char {
    if d == 0 { '0' }
    else if d == 1 { '1' }
    else if d == 2 { '2' }
    else if d == 3 { '3' }
    else if d == 4 { '4' }
    else if d == 5 { '5' }
    else if d == 6 { '6' }
    else if d == 7 { '7' }
    else if d == 8 { '8' }
    else { '9' }
}

/// The decimal digits of `n`, most significant first, with no leading zero.
pub open spec fn nat_text(n: nat) -> Seq<char>
    decreases n,
{
    if n < 10 {
        seq![digit_char(n)]
    } else {
        nat_text(n / 10).push(digit_char(n % 10))
    }
}

/// An integer as it is written in decimal: a minus sign when negative.
pub open spec fn int_text(v: int) -> Seq<char> {
    if v < 0 {
        seq!['-'] + nat_text((-v) as nat)
    } else {
        nat_text(v as nat)
    }
}

/// The text of a literal: an int in decimal, a float or a string as it
/// was written.
pub open spec fn literal_text(l: Literal) -> Seq<char> {
    match l {
        Literal::Int(v) => int_text(v as int),
        Literal::Float(s) => s@,
        Literal::Str(s) => s@,
    }
}

/// The text a token is shown with.
pub open spec fn token_text(t: Token) -> Seq<char> {
    match t {
        Token::Error => "ERROR"@,
        Token::Plus => "+"@,
        Token::Minus => "-"@,
        Token::Star => "*"@,
        Token::FSlash => "/"@,
        Token::PCent => "%"@,
        Token::DPlus => "++"@,
        Token::DMinus => "--"@,
        Token::Lt => "<"@,
        Token::Gt => ">"@,
        Token::Le => "<="@,
        Token::Ge => ">="@,
        Token::Deq => "=="@,
        Token::Neq => "!="@,
        Token::DAmp => "&&"@,
        Token::DPipe => "||"@,
        Token::Excl => "!"@,
        Token::BSlash => "\\"@,
        Token::Eq => "="@,
        Token::LBrace => "{"@,
        Token::RBrace => "}"@,
        Token::LParen => "("@,
        Token::RParen => ")"@,
        Token::SColon => ";"@,
        Token::Colon => ":"@,
        Token::Comma => ","@,
        Token::Dot => "."@,
        Token::Literal(l) => literal_text(l),
        Token::Identifier(id) => id@,
        Token::Command(id) => id@,
        Token::Comment(_) => "comment"@,
        Token::Const => "#const"@,
        Token::Define => "#define"@,
        Token::Undefine => "#undefine"@,
        Token::If => "if"@,
        Token::ElseIf => "elseif"@,
        Token::Else => "else"@,
        Token::EndIf => "endif"@,
        Token::StartRandom => "start_random"@,
        Token::PercentChance => "percent_chance"@,
        Token::EndRandom => "end_random"@,
        Token::Rnd => "rnd"@,
        Token::IncludeDrs => "#include_drs"@,
        Token::IncludeXs => "#includeXS"@,
    }
}

/// The digit `d` as a one-character string.
fn digit_str(d: u64) -> (r: &'static str)
    requires
        d < 10,
    ensures
        r@ == seq![digit_char(d as nat)],
{
    proof {
        reveal_strlit("0");
        reveal_strlit("1");
        reveal_strlit("2");
        reveal_strlit("3");
        reveal_strlit("4");
        reveal_strlit("5");
        reveal_strlit("6");
        reveal_strlit("7");
        reveal_strlit("8");
        reveal_strlit("9");
    }
    if d == 0 { "0" }
    else if d == 1 { "1" }
    else if d == 2 { "2" }
    else if d == 3 { "3" }
    else if d == 4 { "4" }
    else if d == 5 { "5" }
    else if d == 6 { "6" }
    else if d == 7 { "7" }
    else if d == 8 { "8" }
    else { "9" }
}

/// The decimal text of `n`.
pub fn nat_to_string(n: u64) -> (r: String)
    ensures
        r@ == nat_text(n as nat),
    decreases n,
{
    if n < 10 {
        string_from(digit_str(n))
    } else {
        let mut s = nat_to_string(n / 10);
        s.append(digit_str(n % 10));
        s
    }
}

/// The decimal text of `v`, with a minus sign when it is negative.
pub fn int_to_string(v: i64) -> (r: String)
    ensures
        r@ == int_text(v as int),
{
    if v < 0 {
        let m: u64 = if v == i64::MIN { 9223372036854775808u64 } else { (-v) as u64 };
        let digits = nat_to_string(m);
        proof {
            reveal_strlit("-");
        }
        concat("-", digits.as_str())
    } else {
        nat_to_string(v as u64)
    }
}

impl Literal {
    /// The text the literal is shown with (see [`literal_text`]).
    pub fn to_display_string(&self) -> (r: String)
        ensures
            r@ == literal_text(*self),
    {
        match self {
            Literal::Int(v) => int_to_string(*v),
            Literal::Float(s) => string_from(s.as_str()),
            Literal::Str(s) => string_from(s.as_str()),
        }
    }
}

impl Token {
    /// The token is a comment.
    pub fn is_comment(&self) -> (r: bool)
        ensures
            r == (*self is Comment),
    {
        match self {
            Token::Comment(_) => true,
            _ => false,
        }
    }

    /// The text the token is shown with (see [`token_text`]).
    pub fn to_display_string(&self) -> (r: String)
        ensures
            r@ == token_text(*self),
    {
        match self {
            Token::Error => string_from("ERROR"),
            Token::Plus => string_from("+"),
            Token::Minus => string_from("-"),
            Token::Star => string_from("*"),
            Token::FSlash => string_from("/"),
            Token::PCent => string_from("%"),
            Token::DPlus => string_from("++"),
            Token::DMinus => string_from("--"),
            Token::Lt => string_from("<"),
            Token::Gt => string_from(">"),
            Token::Le => string_from("<="),
            Token::Ge => string_from(">="),
            Token::Deq => string_from("=="),
            Token::Neq => string_from("!="),
            Token::DAmp => string_from("&&"),
            Token::DPipe => string_from("||"),
            Token::Excl => string_from("!"),
            Token::BSlash => string_from("\\"),
            Token::Eq => string_from("="),
            Token::LBrace => string_from("{"),
            Token::RBrace => string_from("}"),
            Token::LParen => string_from("("),
            Token::RParen => string_from(")"),
            Token::SColon => string_from(";"),
            Token::Colon => string_from(":"),
            Token::Comma => string_from(","),
            Token::Dot => string_from("."),
            Token::Literal(l) => l.to_display_string(),
            Token::Identifier(id) => string_from(id.0.as_str()),
            Token::Command(id) => string_from(id.0.as_str()),
            Token::Comment(_) => string_from("comment"),
            Token::Const => string_from("#const"),
            Token::Define => string_from("#define"),
            Token::Undefine => string_from("#undefine"),
            Token::If => string_from("if"),
            Token::ElseIf => string_from("elseif"),
            Token::Else => string_from("else"),
            Token::EndIf => string_from("endif"),
            Token::StartRandom => string_from("start_random"),
            Token::PercentChance => string_from("percent_chance"),
            Token::EndRandom => string_from("end_random"),
            Token::Rnd => string_from("rnd"),
            Token::IncludeDrs => string_from("#include_drs"),
            Token::IncludeXs => string_from("#includeXS"),
        }
    }
}

} // verus!
