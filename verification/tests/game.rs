use rand::rngs::StdRng;
use xyzw_petsim::rng::SimRng;
use rand::{RngExt, SeedableRng};
use xyzw_petsim::game::{apply_merge, check_pity, find_merge_level, open_egg, pity_threshold, try_merge, GameState};

// Merge success probabilities by level, as documented.
const P: [f64; 7] = [0.0, 0.95, 0.80, 0.65, 0.45, 0.20, 0.05];

fn rng_for_outcome(level: usize, want_success: bool) -> SimRng {
    for seed in 0_u64..100_000 {
        let mut probe = StdRng::seed_from_u64(seed);
        if probe.random_bool(P[level]) == want_success {
            return SimRng::new(Some(seed));
        }
    }

    panic!("未在搜索范围内找到满足条件的随机种子");
}

#[test]
fn merge_success_keeps_pity_and_upgrades_pet() {
    let mut state = GameState::new();
    state.pets[3] = 2;
    state.pity[4] = 7;

    let mut rng = rng_for_outcome(3, true);
    try_merge(&mut state, 3, &mut rng);

    assert_eq!(state.pets[3], 0);
    assert_eq!(state.pets[4], 1);
    assert_eq!(state.pity[4], 7);
}

#[test]
fn merge_failure_refunds_one_and_increments_pity() {
    let mut state = GameState::new();
    state.pets[5] = 2;
    state.pity[6] = 3;

    let mut rng = rng_for_outcome(5, false);
    try_merge(&mut state, 5, &mut rng);

    assert_eq!(state.pets[5], 1);
    assert_eq!(state.pets[6], 0);
    assert_eq!(state.pity[6], 4);
}

#[test]
fn pity_exchange_resets_counter_and_grants_pet_without_consumption() {
    let mut state = GameState::new();
    state.pets[6] = 2;
    state.pity[6] = pity_threshold(6);

    let redeemed = check_pity(&mut state);

    assert_eq!(state.pity[6], 0);
    // Existing pets remain; pity exchange grants one extra pet.
    assert_eq!(state.pets[6], 3);
    assert_eq!(redeemed[6], 1);
}

#[test]
fn pity_does_not_trigger_below_threshold() {
    let mut state = GameState::new();
    state.pets[7] = 1;
    state.pity[7] = pity_threshold(7) - 1;

    let redeemed = check_pity(&mut state);

    assert_eq!(state.pity[7], pity_threshold(7) - 1);
    assert_eq!(state.pets[7], 1);
    assert_eq!(redeemed, [0; 8]);
}

#[test]
fn pity_thresholds_follow_five_per_level() {
    assert_eq!(pity_threshold(2), 5);
    assert_eq!(pity_threshold(4), 15);
    assert_eq!(pity_threshold(7), 30);
}

#[test]
fn try_merge_reports_the_rolled_outcome() {
    let mut state = GameState::new();
    state.pets[1] = 2;
    let mut rng = rng_for_outcome(1, false);
    let success = try_merge(&mut state, 1, &mut rng);
    assert!(!success);
    assert_eq!(state.pets[1], 1);
    assert_eq!(state.pity[2], 1);
}

#[test]
fn opening_an_egg_adds_a_level_one_pet() {
    let mut state = GameState::new();
    open_egg(&mut state);
    open_egg(&mut state);
    assert_eq!(state.c1, 2);
    assert_eq!(state.pets[1], 2);
}

#[test]
fn merge_level_is_the_lowest_with_two_pets_below_target() {
    let mut state = GameState::new();
    state.pets[2] = 1;
    state.pets[3] = 3;
    state.pets[5] = 2;
    assert_eq!(find_merge_level(&state, 7), Some(3));
    assert_eq!(find_merge_level(&state, 3), None);
    assert_eq!(find_merge_level(&state, 4), Some(3));
}

#[test]
fn applied_merges_follow_the_rules() {
    let mut state = GameState::new();
    state.pets[2] = 3;
    apply_merge(&mut state, 2, true);
    assert_eq!(state.pets[2], 1);
    assert_eq!(state.pets[3], 1);
    state.pets[2] = 2;
    apply_merge(&mut state, 2, false);
    assert_eq!(state.pets[2], 1);
    assert_eq!(state.pity[3], 1);
}

#[test]
fn all_reached_thresholds_are_redeemed_at_once() {
    let mut state = GameState::new();
    state.pity[2] = 5;
    state.pity[3] = 10;
    state.pity[4] = 14;
    let redeemed = check_pity(&mut state);
    assert_eq!(redeemed, [0, 0, 1, 1, 0, 0, 0, 0]);
    assert_eq!(state.pets, [0, 0, 1, 1, 0, 0, 0, 0]);
    assert_eq!(state.pity, [0, 0, 0, 0, 14, 0, 0, 0]);
}
