use std::collections::HashSet;
use vstd::prelude::*;
use crate::ast::{Identifier, Type};
use crate::id_info::IdInfo;
use crate::rms_error::{WarningKind, warning_code};
use crate::strings::{chars_of, concat, string_from};
use crate::text::{
    cut_suffixes, cut_ws, is_ws, join_v, skip_prefixes, skip_ws, split_ranges, split_v, starts_with_v,
    strip_prefixes_v, strip_suffixes_v, trim_start_v, trim_v, matches_at, lemma_split_len,
};

verus! {

/// What the comment written before a statement says of it.
#[derive(Debug)]
pub enum Doc {
    /// Nothing (the comment is not one of the two kinds below).
    Nothing,
    /// The warning codes to ignore while the statement is checked.
    Ignore(HashSet<u32>),
    /// A description of what the statement defines.
    Desc(String),
}

/// The mathematical value of a [`Doc`].
pub enum DocV {
    Nothing,
    Ignore(Set<u32>),
    Desc(Seq<char>),
}

impl View for Doc {
    type V = DocV;

    open spec fn view(&self) -> DocV {
        match self {
            Doc::Nothing => DocV::Nothing,
            Doc::Ignore(s) => DocV::Ignore(s@),
            Doc::Desc(d) => DocV::Desc(d@),
        }
    }
}

/// The code of the warning that a script may ignore by the name `n`.
pub open spec fn warning_code_of(n: Seq<char>) -> Option<u32> {
    if n == "ShadowedVarName"@ {
        Some(warning_code(WarningKind::ShadowedVarName))
    } else {
        None
    }
}

/// The codes named by the names `ns` (each taken without the white space
/// around it), or the first name that names no warning that can be ignored.
pub open spec fn codes_of(ns: Seq<Seq<char>>) -> Result<Set<u32>, Seq<char>>
    decreases ns.len(),
{
    if ns.len() == 0 {
        Ok(Set::empty())
    } else {
        match codes_of(ns.drop_last()) {
            Err(e) => Err(e),
            Ok(set) => match warning_code_of(trim_v(ns.last())) {
                Some(c) => Ok(set.insert(c)),
                None => Err(trim_v(ns.last())),
            },
        }
    }
}

/// Once a name fails, the names after it change nothing.
proof fn lemma_codes_err_stays(ns: Seq<Seq<char>>, k: int)
    requires
        0 <= k <= ns.len(),
        codes_of(ns.take(k)) is Err,
    ensures
        codes_of(ns) == codes_of(ns.take(k)),
    decreases ns.len() - k,
{
    if k < ns.len() {
        assert(ns.take(k + 1).drop_last() =~= ns.take(k));
        lemma_codes_err_stays(ns, k + 1);
    } else {
        assert(ns.take(k) =~= ns);
    }
}

/// The warning codes of a comma-separated list of warning names, or the
/// first name that is not one.
pub open spec fn warnings_v(s: Seq<char>) -> Result<Set<u32>, Seq<char>> {
    codes_of(split_v(s, ','))
}

/// `l` without the carriage return that ends it, if any.
pub open spec fn drop_cr(l: Seq<char>) -> Seq<char> {
    if l.len() > 0 && l.last() == '\r' {
        l.drop_last()
    } else {
        l
    }
}

/// A line of a description: its leading white space, then its leading
/// stars, then the white space after them taken off.
pub open spec fn doc_line_v(l: Seq<char>) -> Seq<char> {
    trim_start_v(strip_prefixes_v(trim_start_v(drop_cr(l)), "*"@))
}

/// The description that the comment `c` (starting with `/**`) holds: the
/// comment's markers taken off, each line cleaned (see [`doc_line_v`]),
/// the lines joined again, and the white space around the whole taken off.
pub open spec fn desc_v(c: Seq<char>) -> Seq<char> {
    trim_v(join_v(split_v(strip_suffixes_v(strip_prefixes_v(c, "/**"@), "*/"@), '\n').map_values(|l: Seq<char>| doc_line_v(l)), "\n"@))
}

/// What the comment `comment` says: `/* rms-ignore: NAMES */` ignores the
/// warnings named, `/** ... */` describes, anything else says nothing. The
/// error is a name that is not the name of a warning.
pub open spec fn parse_v(comment: Seq<char>) -> Result<DocV, Seq<char>> {
    let c = trim_start_v(comment);
    if starts_with_v(c, "/* rms-ignore: "@) {
        match warnings_v(strip_suffixes_v(strip_prefixes_v(c, "/* rms-ignore: "@), " */"@)) {
            Ok(set) => Ok(DocV::Ignore(set)),
            Err(e) => Err(e),
        }
    } else if !starts_with_v(c, "/**"@) {
        Ok(DocV::Nothing)
    } else {
        Ok(DocV::Desc(desc_v(c)))
    }
}

/// The text shown for a defined name: its definition in a code block,
/// followed by its description when there is one.
pub open spec fn render_v(doc: DocV, name: Seq<char>, t: Type) -> Seq<char> {
    let sign = if t == Type::Label {
        "```rms\n#define "@ + name + "\n```"@
    } else {
        "```rms\n#const "@ + name + "\n```"@
    };
    match doc {
        DocV::Desc(d) => sign + "\n\n"@ + d,
        _ => sign,
    }
}

/// The warning codes of the comma-separated warning names in `s`.
pub fn warnings_from_str(s: &str) -> (r: Result<HashSet<u32>, String>)
    ensures
        match (r, warnings_v(s@)) {
            (Ok(set), Ok(v)) => set@ == v,
            (Err(e), Err(v)) => e@ == v,
            _ => false,
        },
{
    let cs = chars_of(s);
    let ranges = split_ranges(&cs, 0, cs.len(), ',');
    let ghost ps = split_v(s@, ',');
    proof {
        assert(cs@.subrange(0, cs@.len() as int) =~= s@);
    }
    let mut set: HashSet<u32> = HashSet::new();
    let mut i: usize = 0;
    while i < ranges.len()
        invariant
            i <= ranges.len(),
            ranges@.len() == ps.len(),
            cs@ == s@,
            ps == split_v(s@, ','),
            forall|j: int| 0 <= j < ranges@.len() ==> {
                &&& 0 <= (#[trigger] ranges@[j]).0 <= ranges@[j].1 <= cs@.len()
                &&& cs@.subrange(ranges@[j].0 as int, ranges@[j].1 as int) == ps[j]
            },
            codes_of(ps.take(i as int)) == Ok::<Set<u32>, Seq<char>>(set@),
        decreases ranges.len() - i,
    {
        let (a, b) = ranges[i];
        let a1 = skip_ws(&cs, a, b);
        let b1 = cut_ws(&cs, a1, b);
        let name = s.substring_char(a1, b1);
        proof {
            assert(ps.take(i + 1).drop_last() =~= ps.take(i as int));
            assert(ps.take(i + 1).last() == ps[i as int]);
            assert(name@ == trim_v(ps[i as int]));
        }
        match WarningKind::from_name(name) {
            Some(kind) => {
                set.insert(kind.as_u32());
            },
            None => {
                proof {
                    lemma_codes_err_stays(ps, i + 1);
                }
                return Err(string_from(name));
            },
        }
        i += 1;
    }
    proof {
        assert(ps.take(ranges@.len() as int) =~= ps);
    }
    Ok(set)
}

/// The end of a line of `cs` once a carriage return ending it is cut.
fn cut_cr(cs: &Vec<char>, from: usize, to: usize) -> (k: usize)
    requires
        from <= to <= cs.len(),
    ensures
        from <= k <= to,
        cs@.subrange(from as int, k as int) == drop_cr(cs@.subrange(from as int, to as int)),
{
    if to > from && cs[to - 1] == '\r' {
        proof {
            assert(cs@.subrange(from as int, to as int).drop_last() =~= cs@.subrange(from as int, to - 1));
        }
        to - 1
    } else {
        to
    }
}

/// The description held by the comment `s`, which starts with `/**`.
fn parse_desc(s: &str) -> (r: String)
    ensures
        r@ == desc_v(s@),
{
    let cs = chars_of(s);
    let open = chars_of("/**");
    let close = chars_of("*/");
    let star = chars_of("*");
    proof {
        assert(cs@.subrange(0, cs@.len() as int) =~= s@);
    }
    let a = skip_prefixes(&cs, 0, cs.len(), &open);
    let b = cut_suffixes(&cs, a, cs.len(), &close);
    let ranges = split_ranges(&cs, a, b, '\n');
    let ghost ls = split_v(cs@.subrange(a as int, b as int), '\n');
    let ghost dl = ls.map_values(|l: Seq<char>| doc_line_v(l));
    proof {
        lemma_split_len(cs@.subrange(a as int, b as int), '\n');
    }
    let mut joined = String::new();
    let mut i: usize = 0;
    while i < ranges.len()
        invariant
            i <= ranges.len(),
            ranges@.len() == ls.len(),
            ls.len() >= 1,
            cs@ == s@,
            star@ == "*"@,
            dl == ls.map_values(|l: Seq<char>| doc_line_v(l)),
            forall|j: int| 0 <= j < ranges@.len() ==> {
                &&& 0 <= (#[trigger] ranges@[j]).0 <= ranges@[j].1 <= cs@.len()
                &&& cs@.subrange(ranges@[j].0 as int, ranges@[j].1 as int) == ls[j]
            },
            joined@ == join_v(dl.take(i as int), "\n"@),
        decreases ranges.len() - i,
    {
        let (x, y) = ranges[i];
        let y1 = cut_cr(&cs, x, y);
        let x1 = skip_ws(&cs, x, y1);
        let x2 = skip_prefixes(&cs, x1, y1, &star);
        let x3 = skip_ws(&cs, x2, y1);
        let line = s.substring_char(x3, y1);
        proof {
            assert(line@ == doc_line_v(ls[i as int]));
            assert(dl.take(i + 1).drop_last() =~= dl.take(i as int));
        }
        if i > 0 {
            joined.append("\n");
        }
        joined.append(line);
        proof {
            if i == 0 {
                assert(joined@ =~= dl.take(1)[0]);
            } else {
                assert(joined@ =~= join_v(dl.take(i as int), "\n"@) + "\n"@ + dl.take(i + 1).last());
            }
        }
        i += 1;
    }
    proof {
        assert(dl.take(ranges@.len() as int) =~= dl);
        assert(cs@.subrange(a as int, cs@.len() as int) == strip_prefixes_v(s@, "/**"@));
    }
    let js = joined.as_str();
    let jc = chars_of(js);
    let p = skip_ws(&jc, 0, jc.len());
    let q = cut_ws(&jc, p, jc.len());
    proof {
        assert(jc@.subrange(0, jc@.len() as int) =~= js@);
    }
    string_from(js.substring_char(p, q))
}

impl Doc {
    /// The comment says nothing.
    pub fn is_none(&self) -> (r: bool)
        ensures
            r == (self@ is Nothing),
    {
        match self {
            Doc::Nothing => true,
            _ => false,
        }
    }

    /// What the comment `comment` says (see [`parse_v`]); the error is the
    /// name in an ignore list that names no warning.
    pub fn parse(comment: &str) -> (r: Result<Doc, String>)
        ensures
            match (r, parse_v(comment@)) {
                (Ok(d), Ok(v)) => d@ == v,
                (Err(e), Err(v)) => e@ == v,
                _ => false,
            },
    {
        let cs = chars_of(comment);
        let start = skip_ws(&cs, 0, cs.len());
        proof {
            assert(cs@.subrange(0, cs@.len() as int) =~= comment@);
        }
        let c = comment.substring_char(start, cs.len());
        let cc = chars_of(c);
        let ignore = chars_of("/* rms-ignore: ");
        let tail = chars_of(" */");
        let open = chars_of("/**");
        proof {
            assert(cc@.subrange(0, cc@.len() as int) =~= c@);
        }
        if matches_at(&cc, 0, cc.len(), &ignore) {
            let a = skip_prefixes(&cc, 0, cc.len(), &ignore);
            let b = cut_suffixes(&cc, a, cc.len(), &tail);
            let names = c.substring_char(a, b);
            match warnings_from_str(names) {
                Ok(set) => Ok(Doc::Ignore(set)),
                Err(e) => Err(e),
            }
        } else if !matches_at(&cc, 0, cc.len(), &open) {
            Ok(Doc::Nothing)
        } else {
            Ok(Doc::Desc(parse_desc(c)))
        }
    }

    /// The text shown for the name `id` defined as `info` says (see
    /// [`render_v`]).
    pub fn render(&self, id: &Identifier, info: &IdInfo) -> (r: String)
        ensures
            r@ == render_v(self@, id@, info.type_),
    {
        let head = match info.type_ {
            Type::Label => "```rms\n#define ",
            _ => "```rms\n#const ",
        };
        let sign0 = concat(head, id.0.as_str());
        let sign = concat(sign0.as_str(), "\n```");
        match self {
            Doc::Desc(desc) => {
                let with_gap = concat(sign.as_str(), "\n\n");
                concat(with_gap.as_str(), desc.as_str())
            },
            _ => sign,
        }
    }
}

} // verus!
