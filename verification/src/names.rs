use vstd::prelude::*;

verus! {

/// `k` is the first position of the name `n` in `ns`.
pub open spec fn first_at(ns: Seq<Seq<char>>, n: Seq<char>, k: int) -> bool {
    &&& 0 <= k < ns.len()
    &&& ns[k] == n
    &&& forall|j: int| 0 <= j < k ==> ns[j] != n
}

/// The first position of the name `n` in `ns` (meaningful when `ns` holds it).
pub open spec fn pos_of(ns: Seq<Seq<char>>, n: Seq<char>) -> int {
    choose|k: int| first_at(ns, n, k)
}

pub proof fn lemma_first_at(ns: Seq<Seq<char>>, n: Seq<char>, k: int)
    requires
        first_at(ns, n, k),
    ensures
        ns.contains(n),
        pos_of(ns, n) == k,
{
    assert(ns[k] == n);
    let k2 = pos_of(ns, n);
    assert(first_at(ns, n, k2));
    if k2 < k {
        assert(ns[k2] != n);
    } else if k < k2 {
        assert(ns[k] != n);
    }
}

pub proof fn lemma_pos_of(ns: Seq<Seq<char>>, n: Seq<char>)
    requires
        ns.contains(n),
    ensures
        first_at(ns, n, pos_of(ns, n)),
    decreases ns.len(),
{
    if ns[0] == n {
        assert(first_at(ns, n, 0));
    } else {
        let rest = ns.drop_first();
        let k = choose|k: int| 0 <= k < ns.len() && ns[k] == n;
        assert(rest[k - 1] == n);
        lemma_pos_of(rest, n);
        let k1 = pos_of(rest, n);
        assert forall|j: int| 0 <= j < k1 + 1 implies ns[j] != n by {
            if j > 0 {
                assert(ns[j] == rest[j - 1]);
            }
        }
        assert(first_at(ns, n, k1 + 1));
    }
}

/// The number of entries of `ns` whose name is not in `seen`.
pub open spec fn unseen(ns: Seq<Seq<char>>, seen: Set<Seq<char>>) -> nat
    decreases ns.len(),
{
    if ns.len() == 0 {
        0
    } else {
        unseen(ns.drop_last(), seen) + if seen.contains(ns.last()) { 0nat } else { 1nat }
    }
}

pub proof fn lemma_unseen_mono(ns: Seq<Seq<char>>, s1: Set<Seq<char>>, s2: Set<Seq<char>>)
    requires
        s1.subset_of(s2),
    ensures
        unseen(ns, s2) <= unseen(ns, s1),
    decreases ns.len(),
{
    if ns.len() > 0 {
        lemma_unseen_mono(ns.drop_last(), s1, s2);
    }
}

pub proof fn lemma_unseen_insert(ns: Seq<Seq<char>>, seen: Set<Seq<char>>, n: Seq<char>)
    requires
        ns.contains(n),
        !seen.contains(n),
    ensures
        unseen(ns, seen.insert(n)) < unseen(ns, seen),
    decreases ns.len(),
{
    lemma_unseen_mono(ns.drop_last(), seen, seen.insert(n));
    if ns.last() != n {
        let k = choose|k: int| 0 <= k < ns.len() && ns[k] == n;
        assert(ns.drop_last()[k] == n);
        lemma_unseen_insert(ns.drop_last(), seen, n);
    }
}

} // verus!
