//! Breeding plans: which ranked members are copied into the next generation,
//! and which copies are mutated.

use vstd::prelude::*;
use crate::ranking::{ranking, rank_indices, is_ranking, lemma_top_outranks_rest};

verus! {

/// One member of the next generation: a copy of the network of member
/// `parent` of the current one, mutated or kept exact.
#[derive(Clone, Copy, Debug, PartialEq, Eq, Structural)]
pub struct Offspring {
    pub parent: usize,
    pub mutated: bool,
}

/// An exact copy of the network of `parent`.
pub open spec fn exact_copy(parent: usize) -> Offspring {
    Offspring { parent, mutated: false }
}

/// A mutated copy of the network of `parent`.
pub open spec fn mutated_copy(parent: usize) -> Offspring {
    Offspring { parent, mutated: true }
}

/// How many of the best birds become parents.
pub const ELITE_SIZE: usize = 20;

/// How many of the best blackjack models are kept.
pub const TOP_MODELS: usize = 10;

/// The sum of the rank weights `1 + 2 + ... + n`.
pub open spec fn weight_sum(n: nat) -> nat
    decreases n,
{
    if n == 0 { 0 } else { n + weight_sum((n - 1) as nat) }
}

/// Sums the rank weights `1 + 2 + ... + n`.
pub fn rank_weight_total(n: usize) -> (total: usize)
    requires
        weight_sum(n as nat) <= usize::MAX,
    ensures
        total == weight_sum(n as nat),
{
    let mut total: usize = 0;
    let mut w: usize = 1;
    while w <= n
        invariant
            1 <= w <= n + 1,
            weight_sum(n as nat) <= usize::MAX,
            total == weight_sum((w - 1) as nat),
        decreases n + 1 - w,
    {
        proof {
            lemma_weight_sum_monotone(w as nat, n as nat);
        }
        total += w;
        w += 1;
    }
    total
}

/// The weight sum grows with `n`.
pub proof fn lemma_weight_sum_monotone(m: nat, n: nat)
    requires
        m <= n,
    ensures
        weight_sum(m) <= weight_sum(n),
    decreases n,
{
    if m < n {
        lemma_weight_sum_monotone(m, (n - 1) as nat);
    }
}

/// The rank weights of the 20 elite birds sum to 210.
pub proof fn lemma_weight_sum_elite()
    ensures
        weight_sum(ELITE_SIZE as nat) == 210,
{
    reveal_with_fuel(weight_sum, 21);
}

/// The share of the next generation that the bird at `rank` (0 is the best)
/// earns: its rank weight `20 - rank` out of the total weight 210, of
/// `count` birds, rounded down.
pub open spec fn offspring_count(rank: int, count: int) -> int {
    (ELITE_SIZE - rank) * count / 210
}

/// The networks that one elite parent passes on: one exact copy, then
/// mutated copies up to its share (always at least the exact copy).
pub open spec fn parent_block(parent: usize, share: int) -> Seq<Offspring> {
    seq![Offspring { parent, mutated: false }]
        + Seq::new(if share > 1 { (share - 1) as nat } else { 0 }, |k: int| Offspring { parent, mutated: true })
}

/// The blocks of the `upto` best birds, best first.
pub open spec fn elite_blocks(ranked: Seq<usize>, count: int, upto: nat) -> Seq<Offspring>
    decreases upto,
{
    if upto == 0 {
        Seq::empty()
    } else {
        elite_blocks(ranked, count, (upto - 1) as nat) + parent_block(
            ranked[upto - 1],
            offspring_count(upto - 1, count),
        )
    }
}

/// The number of networks in the blocks of the `upto` best birds.
pub open spec fn elite_blocks_len(count: int, upto: nat) -> int
    decreases upto,
{
    if upto == 0 {
        0
    } else {
        elite_blocks_len(count, (upto - 1) as nat) + if offspring_count(upto - 1, count) > 1 {
            offspring_count(upto - 1, count)
        } else {
            1
        }
    }
}

proof fn lemma_elite_blocks_len(ranked: Seq<usize>, count: int, upto: nat)
    ensures
        elite_blocks(ranked, count, upto).len() == elite_blocks_len(count, upto),
    decreases upto,
{
    if upto > 0 {
        lemma_elite_blocks_len(ranked, count, (upto - 1) as nat);
    }
}

/// Given at least 20 birds to fill, the shares of the 20 elite birds,
/// each at least one, add up to no more than the generation.
pub proof fn lemma_shares_fit(count: int)
    requires
        count >= ELITE_SIZE,
    ensures
        elite_blocks_len(count, ELITE_SIZE as nat) <= count,
{
    reveal_with_fuel(elite_blocks_len, 21);
    let s = elite_blocks_len(count, ELITE_SIZE as nat);
    assert(s == (if 1 * count / 210 > 1 { 1 * count / 210 } else { 1 }) + (if 2 * count / 210 > 1 { 2 * count / 210 } else { 1 }) + (if 3 * count / 210 > 1 { 3 * count / 210 } else { 1 }) + (if 4 * count / 210 > 1 { 4 * count / 210 } else { 1 }) + (if 5 * count / 210 > 1 { 5 * count / 210 } else { 1 }) + (if 6 * count / 210 > 1 { 6 * count / 210 } else { 1 }) + (if 7 * count / 210 > 1 { 7 * count / 210 } else { 1 }) + (if 8 * count / 210 > 1 { 8 * count / 210 } else { 1 }) + (if 9 * count / 210 > 1 { 9 * count / 210 } else { 1 }) + (if 10 * count / 210 > 1 { 10 * count / 210 } else { 1 }) + (if 11 * count / 210 > 1 { 11 * count / 210 } else { 1 }) + (if 12 * count / 210 > 1 { 12 * count / 210 } else { 1 }) + (if 13 * count / 210 > 1 { 13 * count / 210 } else { 1 }) + (if 14 * count / 210 > 1 { 14 * count / 210 } else { 1 }) + (if 15 * count / 210 > 1 { 15 * count / 210 } else { 1 }) + (if 16 * count / 210 > 1 { 16 * count / 210 } else { 1 }) + (if 17 * count / 210 > 1 { 17 * count / 210 } else { 1 }) + (if 18 * count / 210 > 1 { 18 * count / 210 } else { 1 }) + (if 19 * count / 210 > 1 { 19 * count / 210 } else { 1 }) + (if 20 * count / 210 > 1 { 20 * count / 210 } else { 1 }));
}

/// The Flappy Bird breeding plan for the ranking `ranked` (best first):
/// the blocks of the 20 best, then mutated copies of the best bird until the
/// plan holds `count` networks.
pub open spec fn flappy_plan(ranked: Seq<usize>, count: int) -> Seq<Offspring> {
    let blocks = elite_blocks(ranked, count, ELITE_SIZE as nat);
    if blocks.len() < count {
        blocks + Seq::new((count - blocks.len()) as nat, |k: int| Offspring { parent: ranked[0], mutated: true })
    } else {
        blocks
    }
}

/// The next Flappy Bird generation, from the frames each bird survived: the
/// birds are ranked by frames, most first and ties in their order, and
/// the 20 best breed by `flappy_plan`.
pub fn flappy_breeding_plan(survival_frames: &Vec<u32>, count: usize) -> (plan: Vec<Offspring>)
    requires
        survival_frames@.len() >= ELITE_SIZE,
        count <= usize::MAX / ELITE_SIZE,
    ensures
        plan@ == flappy_plan(ranking(survival_frames@, true), count as int),
{
    let ranked = rank_indices(survival_frames, true);
    proof {
        lemma_weight_sum_elite();
    }
    let total_weight: usize = rank_weight_total(ELITE_SIZE);
    let mut plan: Vec<Offspring> = Vec::new();
    let mut i: usize = 0;
    while i < ELITE_SIZE
        invariant
            0 <= i <= ELITE_SIZE,
            ranked@.len() >= ELITE_SIZE,
            total_weight == 210,
            weight_sum(20) == 210,
            count <= usize::MAX / ELITE_SIZE,
            plan@ == elite_blocks(ranked@, count as int, i as nat),
        decreases ELITE_SIZE - i,
    {
        let parent = ranked[i];
        let rank_weight: usize = ELITE_SIZE - i;
        proof {
            assert(rank_weight * count <= ELITE_SIZE * count) by (nonlinear_arith)
                requires
                    rank_weight <= ELITE_SIZE,
            ;
            assert(ELITE_SIZE * count <= usize::MAX) by (nonlinear_arith)
                requires
                    count <= usize::MAX / ELITE_SIZE,
            ;
        }
        let offspring: usize = (rank_weight * count) / total_weight;
        let ghost before = plan@;
        plan.push(Offspring { parent, mutated: false });
        let mut c: usize = 1;
        while c < offspring
            invariant
                1 <= c,
                c <= offspring || c == 1,
                plan@ == before + seq![Offspring { parent, mutated: false }] + Seq::new(
                    (c - 1) as nat,
                    |k: int| Offspring { parent, mutated: true },
                ),
            decreases offspring - c,
        {
            plan.push(Offspring { parent, mutated: true });
            c += 1;
            assert(plan@ =~= before + seq![Offspring { parent, mutated: false }] + Seq::new(
                (c - 1) as nat,
                |k: int| Offspring { parent, mutated: true },
            ));
        }
        proof {
            assert(offspring == offspring_count(i as int, count as int));
            assert(plan@ =~= elite_blocks(ranked@, count as int, (i + 1) as nat));
        }
        i += 1;
    }
    let ghost blocks = plan@;
    while plan.len() < count
        invariant
            ranked@.len() >= ELITE_SIZE,
            blocks == elite_blocks(ranked@, count as int, ELITE_SIZE as nat),
            blocks.len() <= plan@.len(),
            plan@.len() <= count || plan@ == blocks,
            plan@ == blocks + Seq::new(
                (plan@.len() - blocks.len()) as nat,
                |k: int| Offspring { parent: ranked@[0], mutated: true },
            ),
        decreases count - plan@.len(),
    {
        plan.push(Offspring { parent: ranked[0], mutated: true });
        assert(plan@ =~= blocks + Seq::new(
            (plan@.len() - blocks.len()) as nat,
            |k: int| Offspring { parent: ranked@[0], mutated: true },
        ));
    }
    proof {
        assert(plan@ =~= flappy_plan(ranked@, count as int));
    }
    plan
}

/// The blackjack breeding plan for the ranking `ranked` (lowest loss first):
/// `count - 10` mutated copies that cycle through the 10 best models, then
/// the 10 best models themselves, unchanged and in rank order.
pub open spec fn blackjack_plan(ranked: Seq<usize>, count: int) -> Seq<Offspring> {
    Seq::new(
        count as nat,
        |k: int|
            if k < count - TOP_MODELS {
                Offspring { parent: ranked[k % TOP_MODELS as int], mutated: true }
            } else {
                Offspring { parent: ranked[k - (count - TOP_MODELS)], mutated: false }
            },
    )
}

/// The next blackjack population, from the number of games each model lost:
/// the models are ranked by losses, fewest first and ties in their order,
/// and the 10 best breed by `blackjack_plan`.
pub fn blackjack_breeding_plan(loss_rates: &Vec<u32>, count: usize) -> (plan: Vec<Offspring>)
    requires
        loss_rates@.len() >= TOP_MODELS,
        count >= TOP_MODELS,
    ensures
        plan@ == blackjack_plan(ranking(loss_rates@, false), count as int),
{
    let ranked = rank_indices(loss_rates, false);
    let ghost spec_plan = blackjack_plan(ranked@, count as int);
    let mut plan: Vec<Offspring> = Vec::new();
    let bred: usize = count - TOP_MODELS;
    let mut i: usize = 0;
    while i < bred
        invariant
            ranked@.len() >= TOP_MODELS,
            bred == count - TOP_MODELS,
            0 <= i <= bred,
            spec_plan == blackjack_plan(ranked@, count as int),
            plan@ == spec_plan.take(i as int),
        decreases bred - i,
    {
        plan.push(Offspring { parent: ranked[i % TOP_MODELS], mutated: true });
        assert(plan@ =~= spec_plan.take(i + 1));
        i += 1;
    }
    let mut j: usize = 0;
    while j < TOP_MODELS
        invariant
            ranked@.len() >= TOP_MODELS,
            bred == count - TOP_MODELS,
            0 <= j <= TOP_MODELS,
            spec_plan == blackjack_plan(ranked@, count as int),
            plan@ == spec_plan.take(bred + j),
        decreases TOP_MODELS - j,
    {
        plan.push(Offspring { parent: ranked[j], mutated: false });
        assert(plan@ =~= spec_plan.take(bred + j + 1));
        j += 1;
    }
    assert(plan@ =~= spec_plan);
    plan
}

/// The network at place `k` of the block of rank `r`: the exact copy at the
/// start of the block, mutated copies after it.
pub open spec fn block_entry(ranked: Seq<usize>, count: int, r: int, k: int) -> Offspring {
    if k == elite_blocks_len(count, r as nat) {
        exact_copy(ranked[r])
    } else {
        mutated_copy(ranked[r])
    }
}

/// The next blackjack population holds `count` models: the 10 best models
/// unchanged, in rank order, at the end, and before them mutated copies that
/// cycle through the 10 best, the best first.
pub proof fn lemma_blackjack_plan_layout(ranked: Seq<usize>, count: int, k: int)
    requires
        count >= TOP_MODELS,
        0 <= k < count,
    ensures
        blackjack_plan(ranked, count).len() == count,
        k < count - TOP_MODELS ==> blackjack_plan(ranked, count)[k] == mutated_copy(ranked[k % 10]),
        k >= count - TOP_MODELS ==> blackjack_plan(ranked, count)[k] == exact_copy(
            ranked[k - (count - TOP_MODELS)],
        ),
{
}

/// The networks of the blocks of the `upto` best birds keep their places
/// when further blocks follow: block `r` starts at `elite_blocks_len(count, r)`,
/// holds the exact copy of bird `ranked[r]` there and mutated copies of it
/// after that, up to the start of the next block.
proof fn lemma_elite_blocks_layout(ranked: Seq<usize>, count: int, upto: nat, r: int, k: int)
    requires
        0 <= r < upto,
        elite_blocks_len(count, r as nat) <= k < elite_blocks_len(count, (r + 1) as nat),
    ensures
        elite_blocks(ranked, count, upto)[k] == block_entry(ranked, count, r, k),
    decreases upto,
{
    lemma_elite_blocks_len(ranked, count, upto);
    lemma_elite_blocks_len(ranked, count, (upto - 1) as nat);
    lemma_elite_blocks_len_monotone(count, r as nat, r as nat);
    let prev = elite_blocks(ranked, count, (upto - 1) as nat);
    let block = parent_block(ranked[upto - 1], offspring_count(upto - 1, count));
    assert(elite_blocks(ranked, count, upto) == prev + block);
    if r < upto - 1 {
        lemma_elite_blocks_len_monotone(count, (r + 1) as nat, (upto - 1) as nat);
        lemma_elite_blocks_layout(ranked, count, (upto - 1) as nat, r, k);
        assert((prev + block)[k] == prev[k]);
    } else {
        let j = k - prev.len();
        assert((prev + block)[k] == block[j]);
        if j == 0 {
            assert(block[j] == exact_copy(ranked[r]));
        } else {
            assert(block[j] == mutated_copy(ranked[r]));
        }
    }
}

proof fn lemma_elite_blocks_len_monotone(count: int, m: nat, n: nat)
    requires
        m <= n,
    ensures
        elite_blocks_len(count, m) <= elite_blocks_len(count, n),
        elite_blocks_len(count, m) >= m,
    decreases n,
{
    if m < n {
        lemma_elite_blocks_len_monotone(count, m, (n - 1) as nat);
    } else if m > 0 {
        lemma_elite_blocks_len_monotone(count, (m - 1) as nat, (m - 1) as nat);
    }
}

/// The next Flappy Bird generation is exactly as large as the current one
/// was meant to be: the plan holds `count` networks.
pub proof fn lemma_flappy_plan_size(ranked: Seq<usize>, count: int)
    requires
        count >= ELITE_SIZE,
    ensures
        flappy_plan(ranked, count).len() == count,
{
    lemma_elite_blocks_len(ranked, count, ELITE_SIZE as nat);
    lemma_shares_fit(count);
}

/// The layout of the Flappy Bird plan: the bird at rank `r < 20` passes on
/// one exact copy, at the start of its block, then mutated copies until the
/// next block; its block holds its share, but at least one network. After
/// the 20 blocks, the plan is filled with mutated copies of the best bird.
pub proof fn lemma_flappy_plan_layout(ranked: Seq<usize>, count: int, k: int)
    requires
        ranked.len() >= ELITE_SIZE,
        0 <= k < flappy_plan(ranked, count).len(),
    ensures
        k >= elite_blocks_len(count, ELITE_SIZE as nat) ==> flappy_plan(ranked, count)[k] == mutated_copy(ranked[0]),
        forall|r: int|
            0 <= r < ELITE_SIZE && elite_blocks_len(count, r as nat) <= k < elite_blocks_len(count, (r + 1) as nat)
                ==> flappy_plan(ranked, count)[k] == #[trigger] block_entry(ranked, count, r, k),
{
    lemma_elite_blocks_len(ranked, count, ELITE_SIZE as nat);
    assert forall|r: int|
        0 <= r < ELITE_SIZE && elite_blocks_len(count, r as nat) <= k < elite_blocks_len(count, (r + 1) as nat)
            implies flappy_plan(ranked, count)[k] == #[trigger] block_entry(ranked, count, r, k) by {
        lemma_elite_blocks_len_monotone(count, (r + 1) as nat, ELITE_SIZE as nat);
        lemma_elite_blocks_layout(ranked, count, ELITE_SIZE as nat, r, k);
    }
}

/// The block of each elite bird holds its share of the generation, at least
/// one network: `elite_blocks_len(count, r + 1) - elite_blocks_len(count, r)`.
/// A better rank earns at least as large a share.
pub proof fn lemma_shares_by_rank(count: int, r: int)
    requires
        count >= 0,
        0 <= r < ELITE_SIZE - 1,
    ensures
        offspring_count(r, count) >= offspring_count(r + 1, count),
        elite_blocks_len(count, (r + 1) as nat) - elite_blocks_len(count, r as nat) == (if offspring_count(
            r,
            count,
        ) > 1 {
            offspring_count(r, count)
        } else {
            1
        }),
{
    assert((ELITE_SIZE - r) * count >= (ELITE_SIZE - (r + 1)) * count) by (nonlinear_arith)
        requires
            count >= 0,
            r < ELITE_SIZE,
    ;
    vstd::arithmetic::div_mod::lemma_div_is_ordered(
        (ELITE_SIZE - (r + 1)) * count,
        (ELITE_SIZE - r) * count,
        210,
    );
}

/// Every network of the Flappy Bird plan descends from one of the 20 best
/// birds, and each of them passes on exactly one exact copy.
pub proof fn lemma_flappy_plan_parents(ranked: Seq<usize>, count: int)
    requires
        ranked.len() >= ELITE_SIZE,
        count >= ELITE_SIZE,
    ensures
        forall|k: int|
            0 <= k < flappy_plan(ranked, count).len() ==> exists|r: int|
                0 <= r < ELITE_SIZE && (#[trigger] flappy_plan(ranked, count)[k]).parent == ranked[r],
        forall|r: int|
            0 <= r < ELITE_SIZE ==> flappy_plan(ranked, count)[elite_blocks_len(count, r as nat)]
                == #[trigger] exact_copy(ranked[r]),
{
    lemma_flappy_plan_size(ranked, count);
    lemma_elite_blocks_len(ranked, count, ELITE_SIZE as nat);
    assert(flappy_plan(ranked, count).len() >= elite_blocks_len(count, ELITE_SIZE as nat));
    assert forall|k: int| 0 <= k < flappy_plan(ranked, count).len() implies exists|r: int|
        0 <= r < ELITE_SIZE && (#[trigger] flappy_plan(ranked, count)[k]).parent == ranked[r] by {
        lemma_flappy_plan_layout(ranked, count, k);
        if k >= elite_blocks_len(count, ELITE_SIZE as nat) {
            assert(flappy_plan(ranked, count)[k].parent == ranked[0]);
        } else {
            let r = lemma_block_of(count, k);
            assert(flappy_plan(ranked, count)[k] == block_entry(ranked, count, r, k));
            assert(flappy_plan(ranked, count)[k].parent == ranked[r]);
        }
    }
    assert forall|r: int| 0 <= r < ELITE_SIZE implies flappy_plan(ranked, count)[elite_blocks_len(
        count,
        r as nat,
    )] == #[trigger] exact_copy(ranked[r]) by {
        lemma_elite_blocks_len_monotone(count, (r + 1) as nat, ELITE_SIZE as nat);
        lemma_block_nonempty(count, r);
        lemma_elite_blocks_len_monotone(count, r as nat, r as nat);
        let k = elite_blocks_len(count, r as nat);
        lemma_flappy_plan_layout(ranked, count, k);
        assert(flappy_plan(ranked, count)[k] == block_entry(ranked, count, r, k));
    }
}

/// Only the birds that survived longest have children: the parent of every
/// network in the Flappy Bird plan survived at least as many frames as any
/// bird outside the 20 best.
pub proof fn lemma_flappy_parents_survived_longest(
    survival_frames: Seq<u32>,
    ranked: Seq<usize>,
    count: int,
    k: int,
    other: usize,
)
    requires
        is_ranking(survival_frames, ranked, true),
        survival_frames.len() >= ELITE_SIZE,
        count >= ELITE_SIZE,
        0 <= k < count,
        other < survival_frames.len(),
        forall|r: int| 0 <= r < ELITE_SIZE ==> ranked[r] != other,
    ensures
        survival_frames[flappy_plan(ranked, count)[k].parent as int] >= survival_frames[other as int],
{
    lemma_flappy_plan_parents(ranked, count);
    lemma_flappy_plan_size(ranked, count);
    let r = choose|r: int| 0 <= r < ELITE_SIZE && (#[trigger] flappy_plan(ranked, count)[k]).parent == ranked[r];
    lemma_top_outranks_rest(survival_frames, ranked, true, ELITE_SIZE as int, r, other);
}

/// Only the models that lost least have children: the parent of every model
/// of the next blackjack population lost no more games than any model
/// outside the 10 best.
pub proof fn lemma_blackjack_parents_lost_least(
    loss_rates: Seq<u32>,
    ranked: Seq<usize>,
    count: int,
    k: int,
    other: usize,
)
    requires
        is_ranking(loss_rates, ranked, false),
        loss_rates.len() >= TOP_MODELS,
        count >= TOP_MODELS,
        0 <= k < count,
        other < loss_rates.len(),
        forall|r: int| 0 <= r < TOP_MODELS ==> ranked[r] != other,
    ensures
        loss_rates[blackjack_plan(ranked, count)[k].parent as int] <= loss_rates[other as int],
{
    let r = if k < count - TOP_MODELS { k % 10 } else { k - (count - TOP_MODELS) };
    assert(blackjack_plan(ranked, count)[k].parent == ranked[r]);
    lemma_top_outranks_rest(loss_rates, ranked, false, TOP_MODELS as int, r, other);
}

proof fn lemma_block_nonempty(count: int, r: int)
    requires
        0 <= r,
    ensures
        elite_blocks_len(count, r as nat) < elite_blocks_len(count, (r + 1) as nat),
{
}

/// A place among the elite blocks lies in the block of some rank.
proof fn lemma_block_of(count: int, k: int) -> (r: int)
    requires
        0 <= k < elite_blocks_len(count, ELITE_SIZE as nat),
    ensures
        0 <= r < ELITE_SIZE,
        elite_blocks_len(count, r as nat) <= k < elite_blocks_len(count, (r + 1) as nat),
{
    lemma_block_of_upto(count, k, ELITE_SIZE as nat)
}

proof fn lemma_block_of_upto(count: int, k: int, upto: nat) -> (r: int)
    requires
        0 <= k < elite_blocks_len(count, upto),
    ensures
        0 <= r < upto,
        elite_blocks_len(count, r as nat) <= k < elite_blocks_len(count, (r + 1) as nat),
    decreases upto,
{
    if k >= elite_blocks_len(count, (upto - 1) as nat) {
        (upto - 1) as int
    } else {
        lemma_block_of_upto(count, k, (upto - 1) as nat)
    }
}

} // verus!
