//! Ranking of fuzzy-match scores: which entries a search shows, in which order.
use vstd::prelude::*;

verus! {

/// Entry `i` has a non-negative match.
pub open spec fn qualifies(scores: Seq<Option<i64>>, i: int) -> bool {
    0 <= i < scores.len() && (scores[i] matches Some(s) && s >= 0)
}

/// The score of a matching entry.
pub open spec fn score_of(scores: Seq<Option<i64>>, i: int) -> int {
    match scores[i] {
        Some(s) => s as int,
        None => 0,
    }
}

/// Entry `i` comes before entry `j`: a higher score, or the same score and a
/// later (newer) position.
pub open spec fn ranks_above(scores: Seq<Option<i64>>, i: int, j: int) -> bool {
    score_of(scores, i) > score_of(scores, j) || (score_of(scores, i) == score_of(scores, j) && i > j)
}

/// The entries of a list of positions, as integers.
pub open spec fn positions(s: Seq<usize>) -> Seq<int> {
    s.map_values(|x: usize| x as int)
}

/// `sel` lists the best `max` matching entries (all of them, if fewer), best first.
pub open spec fn is_ranking(scores: Seq<Option<i64>>, max: nat, sel: Seq<int>) -> bool {
    &&& sel.len() <= max
    &&& forall|k: int| 0 <= k < sel.len() ==> qualifies(scores, #[trigger] sel[k])
    &&& forall|k: int, l: int|
        0 <= k < l < sel.len() ==> ranks_above(scores, #[trigger] sel[k], #[trigger] sel[l])
    &&& forall|i: int|
        qualifies(scores, i) && !sel.contains(i) ==> sel.len() == max && (sel.len() > 0
            ==> ranks_above(scores, sel.last(), i))
}

/// A ranking is unique: two lists that both rank `scores` are the same.
pub proof fn lemma_ranking_unique(scores: Seq<Option<i64>>, max: nat, s1: Seq<int>, s2: Seq<int>)
    requires
        is_ranking(scores, max, s1),
        is_ranking(scores, max, s2),
    ensures
        s1 == s2,
{
    assert forall|k: int| 0 <= k < s1.len() && k < s2.len() implies s1[k] == s2[k] by {
        lemma_rankings_agree_at(scores, max, s1, s2, k);
    }
    lemma_longer_ranking(scores, max, s1, s2);
    lemma_longer_ranking(scores, max, s2, s1);
    assert(s1 =~= s2);
}

proof fn lemma_rankings_agree_at(scores: Seq<Option<i64>>, max: nat, s1: Seq<int>, s2: Seq<int>, k: int)
    requires
        is_ranking(scores, max, s1),
        is_ranking(scores, max, s2),
        0 <= k < s1.len(),
        k < s2.len(),
    ensures
        s1[k] == s2[k],
    decreases k,
{
    assert forall|j: int| 0 <= j < k implies s1[j] == s2[j] by {
        lemma_rankings_agree_at(scores, max, s1, s2, j);
    }
    lemma_first_difference(scores, max, s1, s2, k);
    lemma_first_difference(scores, max, s2, s1, k);
}

/// Where two rankings first differ, the entry of neither ranks above the
/// other's.
proof fn lemma_first_difference(scores: Seq<Option<i64>>, max: nat, s1: Seq<int>, s2: Seq<int>, k: int)
    requires
        is_ranking(scores, max, s1),
        is_ranking(scores, max, s2),
        0 <= k < s1.len(),
        k < s2.len(),
        forall|j: int| 0 <= j < k ==> s1[j] == s2[j],
    ensures
        !ranks_above(scores, s1[k], s2[k]),
{
    if !ranks_above(scores, s1[k], s2[k]) {
        return;
    }
    let a = s1[k];
    assert(qualifies(scores, a));
    if s2.contains(a) {
        let l = choose|l: int| 0 <= l < s2.len() && s2[l] == a;
        if l < k {
            assert(s1[l] == a);
            assert(ranks_above(scores, s1[l], s1[k]));
        } else if l > k {
            assert(ranks_above(scores, s2[k], s2[l]));
        }
    } else {
        assert(s2.len() == max);
        let last = s2.len() - 1;
        assert(ranks_above(scores, s2.last(), a));
        if k < last {
            assert(ranks_above(scores, s2[k], s2[last]));
        }
    }
}

/// Of two rankings that agree where both have entries, the first is not
/// the shorter.
proof fn lemma_longer_ranking(scores: Seq<Option<i64>>, max: nat, s1: Seq<int>, s2: Seq<int>)
    requires
        is_ranking(scores, max, s1),
        is_ranking(scores, max, s2),
        forall|k: int| 0 <= k < s1.len() && k < s2.len() ==> s1[k] == s2[k],
    ensures
        s1.len() >= s2.len(),
{
    if s1.len() >= s2.len() {
        return;
    }
    let n = s1.len() as int;
    let b = s2[n];
    assert(qualifies(scores, b));
    if s1.contains(b) {
        let l = choose|l: int| 0 <= l < s1.len() && s1[l] == b;
        assert(s2[l] == b);
        assert(ranks_above(scores, s2[l], s2[n]));
    } else {
        assert(s1.len() == max);
    }
}

/// The positions of the best `max` non-negative matches among `scores`,
/// best score first, the later position first among equal scores.
pub fn rank_matches(scores: &Vec<Option<i64>>, max: usize) -> (r: Vec<usize>)
    ensures
        is_ranking(scores@, max as nat, positions(r@)),
{
    let n = scores.len();
    let mut sel: Vec<usize> = Vec::new();
    let mut exhausted = false;
    while !exhausted && sel.len() < max
        invariant
            n == scores@.len(),
            sel@.len() <= max,
            forall|k: int| 0 <= k < sel@.len() ==> qualifies(scores@, #[trigger] sel@[k] as int),
            forall|k: int, l: int|
                0 <= k < l < sel@.len() ==> ranks_above(
                    scores@,
                    #[trigger] sel@[k] as int,
                    #[trigger] sel@[l] as int,
                ),
            forall|i: int|
                qualifies(scores@, i) && !positions(sel@).contains(i) ==> (
                sel@.len() > 0 ==> ranks_above(scores@, sel@.last() as int, i)),
            exhausted ==> forall|i: int|
                qualifies(scores@, i) ==> positions(sel@).contains(i),
        decreases max - sel@.len() + (if exhausted { 0int } else { 1int }),
    {
        let ghost old_sel = sel@;
        let mut best: Option<usize> = None;
        let mut j: usize = 0;
        while j < n
            invariant
                n == scores@.len(),
                j <= n,
                sel@ == old_sel,
                forall|k: int| 0 <= k < sel@.len() ==> qualifies(scores@, #[trigger] sel@[k] as int),
                best matches Some(b) ==> {
                    &&& b < j
                    &&& qualifies(scores@, b as int)
                    &&& (sel@.len() > 0 ==> ranks_above(scores@, sel@.last() as int, b as int))
                },
                forall|m: int|
                    0 <= m < j && qualifies(scores@, m) && (sel@.len() > 0 ==> ranks_above(
                        scores@,
                        sel@.last() as int,
                        m,
                    )) ==> (best matches Some(b) && (b == m || ranks_above(scores@, b as int, m))),
            decreases n - j,
        {
            let candidate = match scores[j] {
                Some(s) => {
                    if s < 0 {
                        false
                    } else if sel.len() == 0 {
                        true
                    } else {
                        let last = sel[sel.len() - 1];
                        match scores[last] {
                            Some(t) => s < t || (s == t && j < last),
                            None => false,
                        }
                    }
                },
                None => false,
            };
            if candidate {
                let better = match best {
                    None => true,
                    Some(b) => match (scores[j], scores[b]) {
                        (Some(s), Some(t)) => s > t || s == t,
                        _ => false,
                    },
                };
                if better {
                    best = Some(j);
                }
            }
            j = j + 1;
        }
        match best {
            None => {
                assert forall|i: int| qualifies(scores@, i) implies positions(sel@).contains(i) by {
                    if !positions(sel@).contains(i) {
                        assert(i < n);
                    }
                }
                exhausted = true;
            },
            Some(b) => {
                proof {
                    assert forall|i: int|
                        qualifies(scores@, i) && !positions(sel@.push(b)).contains(i) implies ranks_above(scores@, b as int, i) by {
                        if positions(sel@).contains(i) {
                            let k = choose|k: int|
                                0 <= k < sel@.len() && #[trigger] positions(sel@)[k]
                                    == i;
                            assert(positions(sel@.push(b))[k] == i);
                        }
                        assert(positions(sel@.push(b))[sel@.len() as int] == b);
                        assert(i != b);
                        assert(i < n);
                    }
                }
                sel.push(b);
            },
        }
    }
    proof {
        let r = positions(sel@);
        assert forall|k: int| 0 <= k < r.len() implies qualifies(scores@, #[trigger] r[k]) by {
            assert(qualifies(scores@, sel@[k] as int));
        }
        assert forall|k: int, l: int| 0 <= k < l < r.len() implies ranks_above(
            scores@,
            #[trigger] r[k],
            #[trigger] r[l],
        ) by {
            assert(ranks_above(scores@, sel@[k] as int, sel@[l] as int));
        }
    }
    sel
}

} // verus!
