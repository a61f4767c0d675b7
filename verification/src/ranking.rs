//! Ranking a population by a score, as a stable sort of the indices.

use vstd::prelude::*;

verus! {

/// Whether score `a` ranks strictly ahead of score `b`: higher first when
/// `descending`, lower first otherwise.
pub open spec fn better(a: u32, b: u32, descending: bool) -> bool {
    if descending { a > b } else { a < b }
}

/// Whether member `a` comes before member `b` in the ranking: a strictly
/// better score, or an equal score and an earlier place (the sort is stable).
pub open spec fn ranks_before(keys: Seq<u32>, a: int, b: int, descending: bool) -> bool {
    better(keys[a], keys[b], descending) || (keys[a] == keys[b] && a < b)
}

/// `order` lists every index of `keys` exactly once, best first, and members
/// with equal scores in their original order.
pub open spec fn is_ranking(keys: Seq<u32>, order: Seq<usize>, descending: bool) -> bool {
    &&& order.len() == keys.len()
    &&& forall|p: int| 0 <= p < order.len() ==> #[trigger] order[p] < keys.len()
    &&& forall|m: int| 0 <= m < keys.len() ==> #[trigger] order.contains(m as usize)
    &&& forall|p: int, q: int|
        0 <= p < q < order.len() ==> ranks_before(keys, #[trigger] order[p] as int, #[trigger] order[q] as int, descending)
}

/// Two rankings of the same scores agree on their first `p + 1` places.
proof fn lemma_rankings_agree_upto(
    keys: Seq<u32>,
    o1: Seq<usize>,
    o2: Seq<usize>,
    descending: bool,
    p: int,
)
    requires
        is_ranking(keys, o1, descending),
        is_ranking(keys, o2, descending),
        0 <= p < o1.len(),
    ensures
        forall|r: int| 0 <= r <= p ==> o1[r] == o2[r],
    decreases p,
{
    if p > 0 {
        lemma_rankings_agree_upto(keys, o1, o2, descending, p - 1);
    }
    let a = o1[p];
    let b = o2[p];
    if a != b {
        assert(o1.contains((b as int) as usize));
        let q = choose|q: int| 0 <= q < o1.len() && o1[q] == b;
        assert(o2.contains((a as int) as usize));
        let r = choose|r: int| 0 <= r < o2.len() && o2[r] == a;
        if q < p {
            assert(o2[q] == b);
            assert(ranks_before(keys, o2[q] as int, o2[p] as int, descending));
        } else if r < p {
            assert(o1[r] == a);
            assert(ranks_before(keys, o1[r] as int, o1[p] as int, descending));
        } else {
            assert(q > p && r > p);
            assert(ranks_before(keys, o1[p] as int, o1[q] as int, descending));
            assert(ranks_before(keys, o2[p] as int, o2[r] as int, descending));
        }
    }
}

/// The scores determine their ranking: two rankings of the same scores are
/// the same sequence.
pub proof fn lemma_ranking_unique(keys: Seq<u32>, o1: Seq<usize>, o2: Seq<usize>, descending: bool)
    requires
        is_ranking(keys, o1, descending),
        is_ranking(keys, o2, descending),
    ensures
        o1 == o2,
{
    if o1.len() > 0 {
        lemma_rankings_agree_upto(keys, o1, o2, descending, o1.len() - 1);
    }
    assert(o1 =~= o2);
}

/// Along a ranking the scores never get better: a member placed before
/// another scores at least as well.
pub proof fn lemma_ranking_scores_ordered(keys: Seq<u32>, order: Seq<usize>, descending: bool, p: int, q: int)
    requires
        is_ranking(keys, order, descending),
        0 <= p < q < order.len(),
    ensures
        !better(keys[order[q] as int], keys[order[p] as int], descending),
{
    assert(ranks_before(keys, order[p] as int, order[q] as int, descending));
}

/// The members placed among the first `top` of a ranking score at least as
/// well as every member placed after them.
pub proof fn lemma_top_outranks_rest(keys: Seq<u32>, order: Seq<usize>, descending: bool, top: int, r: int, m: usize)
    requires
        is_ranking(keys, order, descending),
        0 <= r < top <= order.len(),
        0 <= m < keys.len(),
        forall|p: int| 0 <= p < top ==> order[p] != m,
    ensures
        !better(keys[m as int], keys[order[r] as int], descending),
{
    assert(order.contains(((m as int) as usize)));
    let q = choose|q: int| 0 <= q < order.len() && order[q] == m;
    assert(q >= top);
    lemma_ranking_scores_ordered(keys, order, descending, r, q);
}

/// The ranking of `keys`: best score first, ties in index order.
pub closed spec fn ranking(keys: Seq<u32>, descending: bool) -> Seq<usize> {
    choose|order: Seq<usize>| is_ranking(keys, order, descending)
}

/// Whether score `a` ranks strictly ahead of score `b`.
pub fn is_better(a: u32, b: u32, descending: bool) -> (res: bool)
    ensures
        res == better(a, b, descending),
{
    if descending {
        a > b
    } else {
        a < b
    }
}

/// The indices of `keys` from best to worst score, ties in index order.
pub fn rank_indices(keys: &Vec<u32>, descending: bool) -> (order: Vec<usize>)
    ensures
        is_ranking(keys@, order@, descending),
        order@ == ranking(keys@, descending),
{
    let n = keys.len();
    let mut order: Vec<usize> = Vec::new();
    let mut i: usize = 0;
    while i < n
        invariant
            n == keys@.len(),
            0 <= i <= n,
            order@.len() == i,
            forall|p: int| 0 <= p < order@.len() ==> #[trigger] order@[p] < i,
            forall|m: int| 0 <= m < i ==> #[trigger] order@.contains(m as usize),
            forall|p: int, q: int|
                0 <= p < q < order@.len() ==> ranks_before(keys@, #[trigger] order@[p] as int, #[trigger] order@[q] as int, descending),
        decreases n - i,
    {
        let key = keys[i];
        let mut pos: usize = 0;
        while pos < order.len() && !is_better(key, keys[order[pos]], descending)
            invariant
                n == keys@.len(),
                i < n,
                key == keys@[i as int],
                order@.len() == i,
                0 <= pos <= order@.len(),
                forall|p: int| 0 <= p < order@.len() ==> #[trigger] order@[p] < i,
                forall|p: int| 0 <= p < pos ==> !better(keys@[i as int], keys@[#[trigger] order@[p] as int], descending),
            decreases order@.len() - pos,
        {
            pos += 1;
        }
        let ghost old_order = order@;
        order.insert(pos, i);
        proof {
            assert(order@ == old_order.insert(pos as int, i));
            assert forall|p: int| 0 <= p < order@.len() implies #[trigger] order@[p] < i + 1 by {
                if p < pos {
                    assert(order@[p] == old_order[p]);
                } else if p > pos {
                    assert(order@[p] == old_order[p - 1]);
                }
            }
            assert forall|m: int| 0 <= m < i + 1 implies #[trigger] order@.contains(m as usize) by {
                if m == i {
                    assert(order@[pos as int] == i);
                } else {
                    assert(old_order.contains(m as usize));
                    let p = choose|p: int| 0 <= p < old_order.len() && old_order[p] == m as usize;
                    if p < pos {
                        assert(order@[p] == old_order[p]);
                    } else {
                        assert(order@[p + 1] == old_order[p]);
                    }
                }
            }
            // Everything from `pos` on in the old order scores strictly worse than `i`.
            assert forall|p: int| pos <= p < old_order.len() implies better(
                keys@[i as int],
                keys@[#[trigger] old_order[p] as int],
                descending,
            ) by {
                if p > pos {
                    assert(ranks_before(keys@, old_order[pos as int] as int, old_order[p] as int, descending));
                }
            }
            assert forall|p: int, q: int| 0 <= p < q < order@.len() implies ranks_before(
                keys@,
                #[trigger] order@[p] as int,
                #[trigger] order@[q] as int,
                descending,
            ) by {
                if q < pos {
                    assert(order@[p] == old_order[p] && order@[q] == old_order[q]);
                    assert(ranks_before(keys@, old_order[p] as int, old_order[q] as int, descending));
                } else if q == pos {
                    assert(order@[p] == old_order[p]);
                    assert(!better(keys@[i as int], keys@[old_order[p] as int], descending));
                } else if p < pos {
                    assert(order@[p] == old_order[p] && order@[q] == old_order[q - 1]);
                    assert(ranks_before(keys@, old_order[p] as int, old_order[q - 1] as int, descending));
                } else if p == pos {
                    assert(order@[q] == old_order[q - 1]);
                    assert(better(keys@[i as int], keys@[old_order[q - 1] as int], descending));
                } else {
                    assert(order@[p] == old_order[p - 1] && order@[q] == old_order[q - 1]);
                    assert(ranks_before(keys@, old_order[p - 1] as int, old_order[q - 1] as int, descending));
                }
            }
        }
        i += 1;
    }
    proof {
        assert(is_ranking(keys@, order@, descending));
        lemma_ranking_unique(keys@, order@, ranking(keys@, descending), descending);
    }
    order
}

} // verus!
