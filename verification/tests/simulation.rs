use rand::rngs::StdRng;
use xyzw_petsim::rng::SimRng;
use rand::{RngExt, SeedableRng};
use xyzw_petsim::game::pity_threshold;
use xyzw_petsim::parallel::{effective_threads, splitmix64};
use xyzw_petsim::stock_drain::{
    assemble_stock_drain, run_stock_drain, run_stock_drain_trial, run_stock_drain_worker,
    single_stock_drain_result, stock_drain_threads, StockDrainRequest, StockDrainTrialRequest,
};
use xyzw_petsim::target_cost::{
    finish_target_cost, resolve_theory_mode, run_target_cost, run_target_cost_worker,
    target_cost_threads, simulate_target_cost_once,
    simulate_target_cost_once_with_rng, simulate_target_cost_trials, single_target_cost_result,
    summarize_target_cost_samples, TargetCostRequest, TargetCostTheoryMode, TheoryEstimate,
    PITY_EGG_BOUND,
};

fn trial_request(stock: [usize; 6], seed: u64, enable_pity: bool) -> StockDrainTrialRequest {
    StockDrainTrialRequest {
        stock,
        seed: Some(seed),
        enable_pity,
    }
}

#[test]
fn empty_stock_stays_empty() {
    let result = run_stock_drain_trial(trial_request([0; 6], 123, true));

    assert_eq!(result.pets, [0; 7]);
    assert_eq!(result.pity, [0; 6]);
    assert_eq!(result.pity_used, [0; 6]);
}

#[test]
fn fixed_seed_is_reproducible() {
    let request = trial_request([200, 2, 0, 0, 0, 3], 111, true);

    assert_eq!(run_stock_drain_trial(request), run_stock_drain_trial(request));
}

#[test]
fn drains_every_mergeable_level() {
    let result = run_stock_drain_trial(trial_request([200, 2, 0, 0, 0, 3], 111, true));

    assert!(result.pets[..6].iter().all(|&count| count < 2));
}

#[test]
fn immediately_redeems_and_counts_pity() {
    let result = (0..10_000)
        .map(|seed| run_stock_drain_trial(trial_request([0, 0, 0, 0, 0, 31], seed, true)))
        .find(|result| result.pity_used[5] > 0)
        .expect("测试种子范围内应至少有一次 7 级保底兑换");

    assert!(result.pets[6] > 0);
    assert!(result.pity[5] < pity_threshold(7));
    assert!(result.pets[..6].iter().all(|&count| count < 2));
}

fn batch_request(trials: usize, threads: Option<usize>) -> StockDrainRequest {
    StockDrainRequest {
        stock: [200, 2, 0, 0, 0, 3],
        trials,
        requested_threads: threads,
        seed: Some(111),
        enable_pity: true,
    }
}

#[test]
fn rejects_zero_trials() {
    assert_eq!(
        run_stock_drain(batch_request(0, Some(1)), 1).unwrap_err(),
        "trials 必须 >= 1"
    );
}

#[test]
fn returns_one_terminal_state_per_trial() {
    let result = run_stock_drain(batch_request(25, Some(4)), 1).unwrap();

    assert_eq!(result.trials, 25);
    assert_eq!(result.threads, 4);
    assert_eq!(result.samples.len(), 25);
    assert!(result
        .samples
        .iter()
        .all(|sample| sample.pets[..6].iter().all(|&count| count < 2)));
}

#[test]
fn fixed_seed_and_thread_count_are_reproducible() {
    assert_eq!(
        run_stock_drain(batch_request(25, Some(4)), 1).unwrap(),
        run_stock_drain(batch_request(25, Some(4)), 1).unwrap()
    );
}

#[test]
fn without_pity_no_progress_is_redeemed() {
    for seed in 0..20 {
        let result = run_stock_drain_trial(trial_request([300, 40, 7, 0, 0, 3], seed, false));
        assert_eq!(result.pity_used, [0; 6]);
        assert!(result.pets[..6].iter().all(|&count| count < 2));
    }
}

#[test]
fn with_pity_progress_ends_below_thresholds() {
    for seed in 0..20 {
        let result = run_stock_drain_trial(trial_request([300, 40, 7, 0, 0, 3], seed, true));
        for level in 2..=7 {
            assert!(result.pity[level - 2] < pity_threshold(level));
        }
    }
}

#[test]
fn batch_samples_come_worker_by_worker() {
    // Two workers: the first runs two trials, the second one.
    let request = StockDrainRequest {
        stock: [50, 3, 1, 0, 0, 0],
        trials: 3,
        requested_threads: Some(2),
        seed: Some(9),
        enable_pity: true,
    };
    let result = run_stock_drain(request, 8).unwrap();
    assert_eq!(result.threads, 2);

    let mut first = SimRng::new(Some(splitmix64(9)));
    let mut second = SimRng::new(Some(splitmix64(9 ^ 1)));
    let expected = [
        xyzw_petsim::stock_drain::simulate_stock_drain_once(request.stock, true, &mut first),
        xyzw_petsim::stock_drain::simulate_stock_drain_once(request.stock, true, &mut first),
        xyzw_petsim::stock_drain::simulate_stock_drain_once(request.stock, true, &mut second),
    ];
    assert_eq!(result.samples, expected.to_vec());
}

#[test]
fn effective_thread_counts() {
    assert_eq!(effective_threads(1, Some(8), 4), 1);
    assert_eq!(effective_threads(10, Some(4), 16), 4);
    assert_eq!(effective_threads(10, Some(0), 3), 3);
    assert_eq!(effective_threads(10, None, 16), 10);
    assert_eq!(effective_threads(3, Some(8), 1), 3);
}

#[test]
fn splitmix64_known_values() {
    // Reference outputs of the SplitMix64 finaliser.
    assert_eq!(splitmix64(0), 0xE220A8397B1DCDAF);
    assert_eq!(splitmix64(1), 0x910A2DEC89025CC1);
}

fn rng_with_first_merge_success(level: usize) -> SimRng {
    const P: [f64; 7] = [0.0, 0.95, 0.80, 0.65, 0.45, 0.20, 0.05];
    for seed in 0_u64..100_000 {
        let mut rng = StdRng::seed_from_u64(seed);
        if rng.random_bool(P[level]) {
            return SimRng::new(Some(seed));
        }
    }

    panic!("no successful merge seed found in test range");
}

#[test]
fn target_two_returns_after_first_successful_merge() {
    let mut rng = rng_with_first_merge_success(1);

    assert_eq!(simulate_target_cost_once_with_rng(2, false, &mut rng), Some(2));
}

#[test]
fn fixed_seed_single_run_is_reproducible_with_and_without_pity() {
    for enable_pity in [false, true] {
        let mut first_rng = SimRng::new(Some(123));
        let mut second_rng = SimRng::new(Some(123));

        assert_eq!(
            simulate_target_cost_once_with_rng(5, enable_pity, &mut first_rng),
            simulate_target_cost_once_with_rng(5, enable_pity, &mut second_rng)
        );
    }
}

#[test]
fn fixed_seed_trials_are_reproducible_with_multiple_threads() {
    for enable_pity in [false, true] {
        let first = simulate_target_cost_trials(4, 32, Some(2), Some(456), enable_pity, 1).unwrap();
        let second = simulate_target_cost_trials(4, 32, Some(2), Some(456), enable_pity, 1).unwrap();

        assert_eq!(first.threads, 2);
        assert_eq!(first.samples.len(), 32);
        assert_eq!(first.samples, second.samples);
    }
}

#[test]
fn pity_runs_stay_within_the_egg_bound() {
    for seed in 0..10 {
        let eggs = simulate_target_cost_once(6, Some(seed), true).unwrap();
        assert!(eggs >= 32);
        assert!(eggs <= PITY_EGG_BOUND);
    }
}

#[test]
fn summary_keeps_trial_order_and_sorts_for_statistics() {
    let result = summarize_target_cost_samples(vec![9, 3, 7, 1, 5, 11, 2, 8, 4, 10, 6], 3);
    assert_eq!(result.samples, vec![9, 3, 7, 1, 5, 11, 2, 8, 4, 10, 6]);
    assert_eq!(result.trials, 11);
    assert_eq!(result.threads, 3);
    assert_eq!(result.min, 1);
    assert_eq!(result.max, 11);
    assert_eq!(result.p50, 6);
    assert_eq!(result.p90, 10);
    assert_eq!(result.p95, 11);
}

#[test]
fn single_trial_summary_repeats_its_cost() {
    let result = single_target_cost_result(17);
    assert_eq!(result.trials, 1);
    assert_eq!(result.threads, 1);
    assert_eq!((result.min, result.max, result.p50, result.p90, result.p95), (17, 17, 17, 17, 17));
    assert_eq!(result.samples, vec![17]);
}

#[test]
fn theory_mode_names_and_resolution() {
    assert_eq!(TargetCostTheoryMode::Auto.as_str(), "auto");
    assert_eq!(TargetCostTheoryMode::NoTheory.as_str(), "none");
    assert_eq!(TargetCostTheoryMode::NoPity.as_str(), "no-pity");
    assert_eq!(TargetCostTheoryMode::PityDp.as_str(), "pity-dp");
    assert_eq!(TargetCostTheoryMode::All.as_str(), "all");
    assert_eq!(resolve_theory_mode(TargetCostTheoryMode::Auto, true), TargetCostTheoryMode::PityDp);
    assert_eq!(resolve_theory_mode(TargetCostTheoryMode::Auto, false), TargetCostTheoryMode::NoPity);
    assert_eq!(resolve_theory_mode(TargetCostTheoryMode::All, false), TargetCostTheoryMode::All);
}

fn cost_request(target: usize, trials: usize, enable_pity: bool, mode: TargetCostTheoryMode) -> TargetCostRequest {
    TargetCostRequest {
        target,
        trials,
        requested_threads: Some(1),
        seed: Some(123),
        enable_pity,
        theory_mode: mode,
    }
}

#[test]
fn target_cost_rejects_bad_requests() {
    let err = run_target_cost(cost_request(1, 1, true, TargetCostTheoryMode::Auto), 1).unwrap_err();
    assert_eq!(err, "目标等级必须在 2 到 7 之间");
    let err = run_target_cost(cost_request(8, 1, true, TargetCostTheoryMode::Auto), 1).unwrap_err();
    assert_eq!(err, "目标等级必须在 2 到 7 之间");
    let err = run_target_cost(cost_request(3, 0, true, TargetCostTheoryMode::Auto), 1).unwrap_err();
    assert_eq!(err, "trials 必须 >= 1");
}

#[test]
fn target_cost_single_trial_uses_the_run_seed() {
    let outcome = run_target_cost(cost_request(5, 1, true, TargetCostTheoryMode::Auto), 1).unwrap();
    let expected = simulate_target_cost_once(5, Some(123), true).unwrap();
    assert_eq!(outcome.simulation.samples, vec![expected]);
    assert_eq!(outcome.simulation.threads, 1);
    assert_eq!(outcome.theory_mode, TargetCostTheoryMode::PityDp);
    assert!(!outcome.show_no_pity);
    assert!(outcome.show_pity_dp);
    assert_eq!(outcome.error_reference, Some(TheoryEstimate::PityDpApprox));
}

#[test]
fn target_cost_theory_selection() {
    let outcome = run_target_cost(cost_request(3, 4, false, TargetCostTheoryMode::All), 1).unwrap();
    assert!(outcome.show_no_pity && outcome.show_pity_dp);
    assert_eq!(outcome.error_reference, Some(TheoryEstimate::NoPityExact));
    assert_eq!(outcome.simulation.samples.len(), 4);

    let outcome = run_target_cost(cost_request(3, 4, false, TargetCostTheoryMode::PityDp), 1).unwrap();
    assert_eq!(outcome.error_reference, None);

    let outcome = run_target_cost(cost_request(3, 4, true, TargetCostTheoryMode::NoTheory), 1).unwrap();
    assert!(!outcome.show_no_pity && !outcome.show_pity_dp);
    assert_eq!(outcome.error_reference, None);
}

#[test]
fn seeded_batches_depend_on_the_actual_worker_count_only() {
    let mut first = StockDrainRequest {
        stock: [200, 2, 0, 0, 0, 3],
        trials: 6,
        requested_threads: Some(2),
        seed: Some(111),
        enable_pity: true,
    };
    let a = run_stock_drain(first, 8).unwrap();
    first.requested_threads = Some(0);
    let b = run_stock_drain(first, 2).unwrap();
    assert_eq!(a.threads, 2);
    assert_eq!(b.threads, 2);
    assert_eq!(a.samples, b.samples);
}

#[test]
fn seeded_target_cost_runs_repeat() {
    let mut request = cost_request(4, 12, false, TargetCostTheoryMode::Auto);
    request.requested_threads = Some(3);
    let a = run_target_cost(request, 1).unwrap();
    request.requested_threads = None;
    let b = run_target_cost(request, 3).unwrap();
    assert_eq!(a.simulation.threads, 3);
    assert_eq!(b.simulation.threads, 3);
    assert_eq!(a.simulation.samples, b.simulation.samples);
    assert_eq!(a.simulation.p50, b.simulation.p50);
    assert_eq!(a.simulation.p95, b.simulation.p95);
}

#[test]
fn seeded_single_target_cost_trials_repeat() {
    for target in 2..=7 {
        assert_eq!(
            simulate_target_cost_once(target, Some(99), true),
            simulate_target_cost_once(target, Some(99), true)
        );
    }
}

#[test]
fn workers_run_apart_give_the_same_batch() {
    let request = StockDrainRequest {
        stock: [60, 4, 1, 0, 0, 0],
        trials: 7,
        requested_threads: Some(3),
        seed: Some(321),
        enable_pity: true,
    };
    let threads = stock_drain_threads(request, 8).unwrap();
    assert_eq!(threads, 3);
    let chunks: Vec<_> = (0..threads)
        .map(|worker| run_stock_drain_worker(request, threads, worker))
        .collect();
    assert_eq!(chunks.iter().map(Vec::len).collect::<Vec<_>>(), vec![3, 2, 2]);
    let assembled = assemble_stock_drain(request, threads, chunks);
    let sequential = run_stock_drain(request, 8).unwrap();
    assert_eq!(assembled, sequential);
    assert_eq!(stock_drain_threads(StockDrainRequest { trials: 0, ..request }, 8).unwrap_err(), "trials 必须 >= 1");
}

#[test]
fn target_cost_workers_run_apart_give_the_same_run() {
    let mut request = cost_request(5, 9, true, TargetCostTheoryMode::Auto);
    request.requested_threads = Some(4);
    let threads = target_cost_threads(request, 1).unwrap();
    assert_eq!(threads, 4);
    let chunks: Option<Vec<_>> = (0..threads)
        .map(|worker| run_target_cost_worker(5, 9, threads, worker, Some(123), true))
        .collect();
    let finished = finish_target_cost(request, threads, chunks).unwrap();
    let sequential = run_target_cost(request, 1).unwrap();
    assert_eq!(finished.simulation.samples, sequential.simulation.samples);
    assert_eq!(finished.simulation.p90, sequential.simulation.p90);
    assert_eq!(finished.theory_mode, sequential.theory_mode);
    assert_eq!(finish_target_cost(request, threads, None).unwrap_err(), "一级蛋消耗超出可计数范围");
    assert_eq!(target_cost_threads(cost_request(9, 3, true, TargetCostTheoryMode::Auto), 1).unwrap_err(), "目标等级必须在 2 到 7 之间");
}

#[test]
fn single_trial_batches_use_the_run_seed() {
    let request = trial_request([200, 2, 0, 0, 0, 3], 111, true);
    let batch = single_stock_drain_result(request);
    assert_eq!((batch.trials, batch.threads), (1, 1));
    assert_eq!(batch.samples, vec![run_stock_drain_trial(request)]);
}
