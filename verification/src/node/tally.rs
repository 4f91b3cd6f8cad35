//! Counting the entries of a map that satisfy a condition: the votes a
//! candidate was granted, the peers that hold an entry.

use std::collections::HashMap;
use vstd::prelude::*;
use vstd::std_specs::hash::spec_hash_map_iter;
use vstd::std_specs::iter::IteratorSpec;

use crate::NodeId;

verus! {

broadcast use vstd::std_specs::hash::group_hash_axioms;

/// The number of keys of `m` whose value satisfies `p`.
pub open spec fn count_where<K, V>(m: Map<K, V>, p: spec_fn(V) -> bool) -> nat {
    m.dom().filter(|k: K| p(m[k])).len()
}

/// The number of pairs of `s` whose value satisfies `p`.
pub open spec fn count_pairs<K, V>(s: Seq<(K, V)>, p: spec_fn(V) -> bool) -> nat
    decreases s.len(),
{
    if s.len() == 0 {
        0
    } else {
        count_pairs(s.drop_last(), p) + if p(s.last().1) {
            1nat
        } else {
            0nat
        }
    }
}

/// The value condition of a granted vote.
pub open spec fn is_granted() -> spec_fn(bool) -> bool {
    |v: bool| v
}

/// The value condition of a match index that reaches `bound`.
pub open spec fn reaches(bound: u32) -> spec_fn(u32) -> bool {
    |v: u32| v >= bound
}

/// Counting over a list of the pairs of a finite map, each once, counts the
/// map.
pub proof fn lemma_count_pairs_of_map<K, V>(s: Seq<(K, V)>, m: Map<K, V>, p: spec_fn(V) -> bool)
    requires
        s.no_duplicates(),
        s.to_set() == m.kv_pairs(),
        m.dom().finite(),
    ensures
        count_pairs(s, p) == count_where(m, p),
    decreases s.len(),
{
    let d = m.dom().filter(|k: K| p(m[k]));
    if s.len() == 0 {
        assert forall|k: K| !m.dom().contains(k) by {
            if m.dom().contains(k) {
                assert(m.kv_pairs().contains((k, m[k])));
                assert(s.to_set().contains((k, m[k])));
            }
        }
        assert(d =~= Set::empty());
    } else {
        let (k, v) = s.last();
        let s2 = s.drop_last();
        let m2 = m.remove(k);
        assert(s.to_set().contains(s.last()));
        assert(m.kv_pairs().contains((k, v)));
        assert(m.dom().contains(k) && m[k] == v);
        assert(s2.no_duplicates());
        assert forall|kv: (K, V)| s2.to_set().contains(kv) <==> m2.kv_pairs().contains(kv) by {
            if s2.to_set().contains(kv) {
                let j = choose|j: int| 0 <= j < s2.len() && s2[j] == kv;
                assert(s[j] == kv);
                assert(s.to_set().contains(kv));
                assert(m.kv_pairs().contains(kv));
                if kv.0 == k {
                    assert(kv == s[s.len() - 1]);
                    assert(false);
                }
            }
            if m2.kv_pairs().contains(kv) {
                assert(m.kv_pairs().contains(kv));
                assert(s.to_set().contains(kv));
                let j = choose|j: int| 0 <= j < s.len() && s[j] == kv;
                assert(j != s.len() - 1);
                assert(s2[j] == kv);
            }
        }
        assert(s2.to_set() =~= m2.kv_pairs());
        lemma_count_pairs_of_map(s2, m2, p);
        let d2 = m2.dom().filter(|k2: K| p(m2[k2]));
        if p(v) {
            assert(d =~= d2.insert(k));
        } else {
            assert(d =~= d2);
        }
    }
}

/// Dropping the references of a list of distinct pairs keeps them distinct.
pub proof fn lemma_pairs_no_duplicates<K, V>(s: Seq<(&K, &V)>)
    requires
        s.no_duplicates(),
    ensures
        s.unref().no_duplicates(),
{
    let t = s.unref();
    assert forall|i: int, j: int| 0 <= i < t.len() && 0 <= j < t.len() && i != j implies t[i] != t[j] by {
        assert(s[i] != s[j]);
    }
}

/// The number of votes in `votes` that were granted.
pub fn count_granted(votes: &HashMap<NodeId, bool>) -> (n: usize)
    ensures
        n == count_where(votes@, is_granted()),
{
    let mut n: usize = 0;
    let ghost p = is_granted();
    let ghost full = spec_hash_map_iter(votes).remaining().unref();
    let ghost mut seen: int = 0;
    let total = votes.len();
    assert(full.len() == total);
    for kv in it: votes.iter()
        invariant
            it.seq().unref() == full,
            p == is_granted(),
            full.len() == total,
            seen == it.index(),
            n == count_pairs(full.take(seen), p),
            n <= seen,
    {
        proof {
            assert(full[seen] == (*kv.0, *kv.1));
            assert(full.take(seen + 1).drop_last() =~= full.take(seen));
            assert(full.take(seen + 1).last() == full[seen]);
            assert(p(*kv.1) == *kv.1);
            seen = seen + 1;
        }
        if *kv.1 {
            n = n + 1;
        }
        assert(n == count_pairs(full.take(seen), p));
    }
    proof {
        assert(full.take(seen) =~= full);
        lemma_pairs_no_duplicates(spec_hash_map_iter(votes).remaining());
        lemma_count_pairs_of_map(full, votes@, p);
    }
    n
}

/// The number of peers in `match_index` whose match index reaches `bound`.
pub fn count_reaching(match_index: &HashMap<NodeId, u32>, bound: u32) -> (n: usize)
    ensures
        n == count_where(match_index@, reaches(bound)),
{
    let mut n: usize = 0;
    let ghost p = reaches(bound);
    let ghost full = spec_hash_map_iter(match_index).remaining().unref();
    let ghost mut seen: int = 0;
    let total = match_index.len();
    assert(full.len() == total);
    for kv in it: match_index.iter()
        invariant
            it.seq().unref() == full,
            p == reaches(bound),
            full.len() == total,
            seen == it.index(),
            n == count_pairs(full.take(seen), p),
            n <= seen,
    {
        proof {
            assert(full[seen] == (*kv.0, *kv.1));
            assert(full.take(seen + 1).drop_last() =~= full.take(seen));
            assert(full.take(seen + 1).last() == full[seen]);
            assert(p(*kv.1) == (*kv.1 >= bound));
            seen = seen + 1;
        }
        if *kv.1 >= bound {
            n = n + 1;
        }
        assert(n == count_pairs(full.take(seen), p));
    }
    proof {
        assert(full.take(seen) =~= full);
        lemma_pairs_no_duplicates(spec_hash_map_iter(match_index).remaining());
        lemma_count_pairs_of_map(full, match_index@, p);
    }
    n
}

} // verus!
