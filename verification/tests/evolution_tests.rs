use ml_from_scratch::breeding::{
    blackjack_breeding_plan, flappy_breeding_plan, rank_weight_total, Offspring, ELITE_SIZE,
    TOP_MODELS,
};
use ml_from_scratch::generation::Generation;
use ml_from_scratch::network::layer_shapes;
use ml_from_scratch::ranking::{is_better, rank_indices};

fn exact(parent: usize) -> Offspring {
    Offspring { parent, mutated: false }
}

fn mutated(parent: usize) -> Offspring {
    Offspring { parent, mutated: true }
}

#[test]
fn ranking_most_frames_first_ties_in_order() {
    assert_eq!(rank_indices(&vec![3, 1, 3, 2], true), vec![0, 2, 3, 1]);
    assert_eq!(rank_indices(&vec![5, 5, 5], true), vec![0, 1, 2]);
    assert_eq!(rank_indices(&vec![], true), Vec::<usize>::new());
}

#[test]
fn ranking_fewest_losses_first_ties_in_order() {
    assert_eq!(rank_indices(&vec![3, 1, 3, 2], false), vec![1, 3, 0, 2]);
    assert_eq!(rank_indices(&vec![0, 9, 0, 4, 9], false), vec![0, 2, 3, 1, 4]);
}

#[test]
fn ranking_is_a_sorted_permutation() {
    let keys: Vec<u32> = (0..300u32).map(|i| (i * 7919) % 53).collect();
    let order = rank_indices(&keys, true);
    let mut seen = order.clone();
    seen.sort();
    assert_eq!(seen, (0..300).collect::<Vec<usize>>());
    for w in order.windows(2) {
        assert!(keys[w[0]] > keys[w[1]] || (keys[w[0]] == keys[w[1]] && w[0] < w[1]));
    }
}

#[test]
fn better_scores() {
    assert!(is_better(5, 3, true));
    assert!(!is_better(3, 5, true));
    assert!(!is_better(3, 3, true));
    assert!(is_better(3, 5, false));
    assert!(!is_better(5, 3, false));
}

#[test]
fn rank_weights_sum_to_210() {
    assert_eq!(rank_weight_total(20), 210);
    assert_eq!(rank_weight_total(0), 0);
    assert_eq!(rank_weight_total(4), 10);
}

#[test]
fn flappy_plan_for_a_thousand_birds() {
    let frames: Vec<u32> = (0..1000u32).collect();
    let plan = flappy_breeding_plan(&frames, 1000);
    assert_eq!(plan.len(), 1000);
    // The best bird (999 frames) gets 20 * 1000 / 210 = 95 networks.
    assert_eq!(plan[0], exact(999));
    for k in 1..95 {
        assert_eq!(plan[k], mutated(999));
    }
    // The second gets 19 * 1000 / 210 = 90.
    assert_eq!(plan[95], exact(998));
    assert_eq!(plan[184], mutated(998));
    assert_eq!(plan[185], exact(997));
    // Exactly twenty exact copies, one of each of the twenty best birds.
    let exact_parents: Vec<usize> = plan.iter().filter(|o| !o.mutated).map(|o| o.parent).collect();
    assert_eq!(exact_parents, (980..1000).rev().collect::<Vec<usize>>());
    assert!(plan.iter().all(|o| o.parent >= 980));
}

#[test]
fn flappy_plan_shares_by_rank() {
    let frames: Vec<u32> = (0..1000u32).map(|i| 1000 - i).collect();
    let plan = flappy_breeding_plan(&frames, 1000);
    let expected: Vec<usize> = (0..ELITE_SIZE).map(|r| (20 - r) * 1000 / 210).collect();
    for r in 0..ELITE_SIZE {
        let got = plan.iter().filter(|o| o.parent == r).count();
        let filler = if r == 0 { 1000 - expected.iter().sum::<usize>() } else { 0 };
        assert_eq!(got, expected[r] + filler);
    }
}

#[test]
fn flappy_plan_small_generation() {
    let frames: Vec<u32> = (0..20u32).collect();
    let plan = flappy_breeding_plan(&frames, 20);
    assert_eq!(plan, (0..20).rev().map(exact).collect::<Vec<_>>());
}

#[test]
fn flappy_plan_fills_with_the_best() {
    let frames: Vec<u32> = (0..25u32).collect();
    let plan = flappy_breeding_plan(&frames, 30);
    assert_eq!(plan.len(), 30);
    // (20 - r) * 30 / 210 for r = 0..6 is 2; then 1 up to r = 13, then 0 (one exact copy).
    assert_eq!(plan[0], exact(24));
    assert_eq!(plan[1], mutated(24));
    assert_eq!(plan[2], exact(23));
    assert_eq!(plan[26], exact(5));
    for k in 27..30 {
        assert_eq!(plan[k], mutated(24));
    }
}

#[test]
fn every_generation_size_from_twenty_is_kept() {
    let frames: Vec<u32> = (0..20u32).collect();
    for count in 20..400 {
        assert_eq!(flappy_breeding_plan(&frames, count).len(), count);
    }
}

#[test]
fn blackjack_plan_keeps_the_best_ten() {
    let losses: Vec<u32> = (0..30u32).map(|i| 100 + (i * 17) % 30).collect();
    let ranked = rank_indices(&losses, false);
    let plan = blackjack_breeding_plan(&losses, 1000);
    assert_eq!(plan.len(), 1000);
    for k in 0..990 {
        assert_eq!(plan[k], mutated(ranked[k % 10]));
    }
    for j in 0..TOP_MODELS {
        assert_eq!(plan[990 + j], exact(ranked[j]));
    }
}

#[test]
fn blackjack_plan_of_exactly_ten() {
    let losses: Vec<u32> = vec![5, 4, 3, 2, 1, 0, 9, 8, 7, 6];
    let plan = blackjack_breeding_plan(&losses, 10);
    assert_eq!(plan, vec![5, 4, 3, 2, 1, 0, 9, 8, 7, 6].into_iter().map(exact).collect::<Vec<_>>());
}

#[test]
fn generation_bookkeeping() {
    let mut generation = Generation::new(1000);
    assert_eq!((generation.count, generation.alive, generation.evolution, generation.score), (1000, 1000, 0, 0));
    assert!(!generation.is_over());
    assert_eq!(generation.pipe_passed(), 1);
    assert_eq!(generation.pipe_passed(), 2);
    generation.bird_died(7);
    assert_eq!(generation.alive, 999);
    assert!(!generation.is_alive(7));
    assert!(generation.is_alive(8));
    generation.end_early();
    assert!(generation.is_over());
    assert_eq!(generation.score, 2);
    generation.start_next();
    assert_eq!((generation.count, generation.alive, generation.evolution, generation.score), (1000, 1000, 1, 0));
    assert!(generation.living.iter().all(|&b| b));
}

#[test]
fn generation_over_when_last_bird_dies() {
    let mut generation = Generation::new(2);
    generation.bird_died(1);
    assert!(!generation.is_over());
    generation.bird_died(0);
    assert!(generation.is_over());
    assert_eq!(generation.living, vec![false, false]);
}

#[test]
fn bird_network_shape() {
    assert_eq!(layer_shapes(&[5, 10, 1]), vec![(10, 5), (1, 10)]);
}

#[test]
fn blackjack_network_shape() {
    assert_eq!(layer_shapes(&[4, 8, 8, 1]), vec![(8, 4), (8, 8), (1, 8)]);
}

#[test]
fn degenerate_network_shapes() {
    assert_eq!(layer_shapes(&[3]), Vec::<(usize, usize)>::new());
    assert_eq!(layer_shapes(&[]), Vec::<(usize, usize)>::new());
}

#[test]
fn blackjack_parents_lost_least() {
    let losses: Vec<u32> = (0..40u32).map(|i| (i * 29) % 41).collect();
    let ranked = rank_indices(&losses, false);
    let plan = blackjack_breeding_plan(&losses, 100);
    let worst_parent = plan.iter().map(|o| losses[o.parent]).max().unwrap();
    for (m, &loss) in losses.iter().enumerate() {
        if !ranked[..TOP_MODELS].contains(&m) {
            assert!(worst_parent <= loss);
        }
    }
}

#[test]
fn flappy_parents_survived_longest() {
    let frames: Vec<u32> = (0..60u32).map(|i| (i * 37) % 61).collect();
    let ranked = rank_indices(&frames, true);
    let plan = flappy_breeding_plan(&frames, 300);
    let weakest_parent = plan.iter().map(|o| frames[o.parent]).min().unwrap();
    for (m, &f) in frames.iter().enumerate() {
        if !ranked[..ELITE_SIZE].contains(&m) {
            assert!(weakest_parent >= f);
        }
    }
}

#[test]
fn ending_early_kills_every_bird() {
    let mut generation = Generation::new(5);
    generation.end_early();
    assert!(generation.is_over());
    assert_eq!(generation.living, vec![false; 5]);
}
