use vstd::prelude::*;

verus! {

/// The characters with the Unicode `White_Space` property (those for which
/// `char::is_whitespace` holds).
pub open spec fn is_ws(c: char) -> bool {
    ||| '\u{9}' <= c <= '\u{d}'
    ||| c == ' '
    ||| c == '\u{85}'
    ||| c == '\u{a0}'
    ||| c == '\u{1680}'
    ||| '\u{2000}' <= c <= '\u{200a}'
    ||| c == '\u{2028}'
    ||| c == '\u{2029}'
    ||| c == '\u{202f}'
    ||| c == '\u{205f}'
    ||| c == '\u{3000}'
}

/// Whether `c` is a white-space character (see [`is_ws`]).
pub fn is_whitespace(c: char) -> (r: bool)
    ensures
        r == is_ws(c),
{
    ('\u{9}' <= c && c <= '\u{d}') || c == ' ' || c == '\u{85}' || c == '\u{a0}' || c == '\u{1680}'
        || ('\u{2000}' <= c && c <= '\u{200a}') || c == '\u{2028}' || c == '\u{2029}' || c == '\u{202f}'
        || c == '\u{205f}' || c == '\u{3000}'
}

/// `s` without its leading white space.
pub open spec fn trim_start_v(s: Seq<char>) -> Seq<char>
    decreases s.len(),
{
    if s.len() > 0 && is_ws(s[0]) {
        trim_start_v(s.skip(1))
    } else {
        s
    }
}

/// `s` without its trailing white space.
pub open spec fn trim_end_v(s: Seq<char>) -> Seq<char>
    decreases s.len(),
{
    if s.len() > 0 && is_ws(s.last()) {
        trim_end_v(s.drop_last())
    } else {
        s
    }
}

/// `s` without white space at either end.
pub open spec fn trim_v(s: Seq<char>) -> Seq<char> {
    trim_end_v(trim_start_v(s))
}

/// `s` begins with `p`.
pub open spec fn starts_with_v(s: Seq<char>, p: Seq<char>) -> bool {
    s.len() >= p.len() && s.take(p.len() as int) == p
}

/// `s` ends with `p`.
pub open spec fn ends_with_v(s: Seq<char>, p: Seq<char>) -> bool {
    s.len() >= p.len() && s.skip(s.len() - p.len()) == p
}

/// `s` with `p` taken off its front as many times as it is there.
pub open spec fn strip_prefixes_v(s: Seq<char>, p: Seq<char>) -> Seq<char>
    decreases s.len(),
{
    if p.len() > 0 && starts_with_v(s, p) {
        strip_prefixes_v(s.skip(p.len() as int), p)
    } else {
        s
    }
}

/// `s` with `p` taken off its end as many times as it is there.
pub open spec fn strip_suffixes_v(s: Seq<char>, p: Seq<char>) -> Seq<char>
    decreases s.len(),
{
    if p.len() > 0 && ends_with_v(s, p) {
        strip_suffixes_v(s.take(s.len() - p.len()), p)
    } else {
        s
    }
}

/// The pieces of `s` between the occurrences of `sep` (one more piece than
/// there are separators).
pub open spec fn split_v(s: Seq<char>, sep: char) -> Seq<Seq<char>>
    decreases s.len(),
{
    if s.len() == 0 {
        seq![Seq::empty()]
    } else {
        let ps = split_v(s.drop_last(), sep);
        if s.last() == sep {
            ps.push(Seq::empty())
        } else {
            ps.update(ps.len() - 1, ps.last().push(s.last()))
        }
    }
}

/// The pieces `ps` joined, with `sep` between each two.
pub open spec fn join_v(ps: Seq<Seq<char>>, sep: Seq<char>) -> Seq<char>
    decreases ps.len(),
{
    if ps.len() == 0 {
        Seq::empty()
    } else if ps.len() == 1 {
        ps[0]
    } else {
        join_v(ps.drop_last(), sep) + sep + ps.last()
    }
}

pub proof fn lemma_split_len(s: Seq<char>, sep: char)
    ensures
        split_v(s, sep).len() >= 1,
    decreases s.len(),
{
    if s.len() > 0 {
        lemma_split_len(s.drop_last(), sep);
    }
}

/// The position of the first character at or after `from` (and before
/// `to`) that is not white space; the rest of the range trimmed at its start.
pub fn skip_ws(cs: &Vec<char>, from: usize, to: usize) -> (k: usize)
    requires
        from <= to <= cs.len(),
    ensures
        from <= k <= to,
        cs@.subrange(k as int, to as int) == trim_start_v(cs@.subrange(from as int, to as int)),
{
    let mut k = from;
    while k < to && is_whitespace(cs[k])
        invariant
            from <= k <= to <= cs.len(),
            trim_start_v(cs@.subrange(k as int, to as int)) == trim_start_v(cs@.subrange(from as int, to as int)),
        decreases to - k,
    {
        proof {
            assert(cs@.subrange(k as int, to as int).skip(1) =~= cs@.subrange(k + 1, to as int));
        }
        k += 1;
    }
    k
}

/// The end of the range `from..to` once its trailing white space is cut.
pub fn cut_ws(cs: &Vec<char>, from: usize, to: usize) -> (k: usize)
    requires
        from <= to <= cs.len(),
    ensures
        from <= k <= to,
        cs@.subrange(from as int, k as int) == trim_end_v(cs@.subrange(from as int, to as int)),
{
    let mut k = to;
    while k > from && is_whitespace(cs[k - 1])
        invariant
            from <= k <= to <= cs.len(),
            trim_end_v(cs@.subrange(from as int, k as int)) == trim_end_v(cs@.subrange(from as int, to as int)),
        decreases k - from,
    {
        proof {
            assert(cs@.subrange(from as int, k as int).drop_last() =~= cs@.subrange(from as int, k - 1));
        }
        k -= 1;
    }
    k
}

/// The characters `p` stand at position `at` of `cs`.
pub fn matches_at(cs: &Vec<char>, at: usize, to: usize, p: &Vec<char>) -> (r: bool)
    requires
        at <= to <= cs.len(),
    ensures
        r == starts_with_v(cs@.subrange(at as int, to as int), p@),
{
    if to - at < p.len() {
        return false;
    }
    let mut i: usize = 0;
    while i < p.len()
        invariant
            i <= p.len(),
            at + p.len() <= to <= cs.len(),
            forall|j: int| 0 <= j < i ==> cs@[at + j] == p@[j],
        decreases p.len() - i,
    {
        if cs[at + i] != p[i] {
            proof {
                assert(cs@.subrange(at as int, to as int).take(p.len() as int)[i as int] != p@[i as int]);
            }
            return false;
        }
        i += 1;
    }
    proof {
        assert(cs@.subrange(at as int, to as int).take(p.len() as int) =~= p@);
    }
    true
}

/// The start of the range `from..to` once the repeated prefix `p` is cut.
pub fn skip_prefixes(cs: &Vec<char>, from: usize, to: usize, p: &Vec<char>) -> (k: usize)
    requires
        from <= to <= cs.len(),
    ensures
        from <= k <= to,
        cs@.subrange(k as int, to as int) == strip_prefixes_v(cs@.subrange(from as int, to as int), p@),
{
    if p.len() == 0 {
        return from;
    }
    let mut k = from;
    while matches_at(cs, k, to, p)
        invariant
            from <= k <= to <= cs.len(),
            p.len() > 0,
            strip_prefixes_v(cs@.subrange(k as int, to as int), p@) == strip_prefixes_v(cs@.subrange(from as int, to as int), p@),
        decreases to - k,
    {
        proof {
            assert(cs@.subrange(k as int, to as int).skip(p.len() as int) =~= cs@.subrange(k + p.len(), to as int));
        }
        k += p.len();
    }
    k
}

/// The end of the range `from..to` once the repeated suffix `p` is cut.
pub fn cut_suffixes(cs: &Vec<char>, from: usize, to: usize, p: &Vec<char>) -> (k: usize)
    requires
        from <= to <= cs.len(),
    ensures
        from <= k <= to,
        cs@.subrange(from as int, k as int) == strip_suffixes_v(cs@.subrange(from as int, to as int), p@),
{
    if p.len() == 0 {
        return to;
    }
    let mut k = to;
    while k - from >= p.len() && matches_at(cs, k - p.len(), k, p)
        invariant
            from <= k <= to <= cs.len(),
            p.len() > 0,
            strip_suffixes_v(cs@.subrange(from as int, k as int), p@) == strip_suffixes_v(cs@.subrange(from as int, to as int), p@),
        decreases k - from,
    {
        proof {
            let s = cs@.subrange(from as int, k as int);
            assert(s.skip(s.len() - p.len()) =~= cs@.subrange(k - p.len(), k as int));
            assert(cs@.subrange(k - p.len(), k as int).take(p.len() as int) =~= cs@.subrange(k - p.len(), k as int));
            assert(s.take(s.len() - p.len()) =~= cs@.subrange(from as int, k - p.len()));
        }
        k -= p.len();
    }
    proof {
        let s = cs@.subrange(from as int, k as int);
        if k - from >= p.len() {
            assert(s.skip(s.len() - p.len()) =~= cs@.subrange(k - p.len(), k as int));
            assert(cs@.subrange(k - p.len(), k as int).take(p.len() as int) =~= cs@.subrange(k - p.len(), k as int));
        }
    }
    k
}

/// The pieces of `cs[from..to]` between the occurrences of `sep`, as
/// ranges of `cs`.
pub fn split_ranges(cs: &Vec<char>, from: usize, to: usize, sep: char) -> (r: Vec<(usize, usize)>)
    requires
        from <= to <= cs.len(),
    ensures
        r@.len() == split_v(cs@.subrange(from as int, to as int), sep).len(),
        forall|i: int| 0 <= i < r@.len() ==> {
            &&& from <= (#[trigger] r@[i]).0 <= r@[i].1 <= to
            &&& cs@.subrange(r@[i].0 as int, r@[i].1 as int) == split_v(cs@.subrange(from as int, to as int), sep)[i]
        },
{
    let mut done: Vec<(usize, usize)> = Vec::new();
    let mut start = from;
    let mut k = from;
    while k < to
        invariant
            from <= start <= k <= to <= cs.len(),
            split_v(cs@.subrange(from as int, k as int), sep).len() == done@.len() + 1,
            split_v(cs@.subrange(from as int, k as int), sep).last() == cs@.subrange(start as int, k as int),
            forall|i: int| 0 <= i < done@.len() ==> {
                &&& from <= (#[trigger] done@[i]).0 <= done@[i].1 <= k
                &&& cs@.subrange(done@[i].0 as int, done@[i].1 as int) == split_v(cs@.subrange(from as int, k as int), sep)[i]
            },
        decreases to - k,
    {
        proof {
            assert(cs@.subrange(from as int, k + 1).drop_last() =~= cs@.subrange(from as int, k as int));
            assert(cs@.subrange(from as int, k + 1).last() == cs@[k as int]);
        }
        if cs[k] == sep {
            done.push((start, k));
            start = k + 1;
            proof {
                assert(cs@.subrange(start as int, k + 1) =~= Seq::<char>::empty());
            }
        } else {
            proof {
                assert(cs@.subrange(start as int, k + 1) =~= cs@.subrange(start as int, k as int).push(cs@[k as int]));
            }
        }
        k += 1;
    }
    done.push((start, to));
    proof {
        if from == to {
            assert(cs@.subrange(from as int, to as int) =~= Seq::<char>::empty());
        }
    }
    done
}

} // verus!
