use xyzw_petsim::options::{parse_stock, parse_trials};
use xyzw_petsim::path::{
    accepts_export, answered_csv_path, build_stock_drain_run_tag, build_target_cost_run_tag,
    resolve_output_path,
};
use xyzw_petsim::report::{
    stock_drain_csv_header, stock_drain_csv_row, summarize_stock_drain_columns, target_cost_csv_header,
    target_cost_csv_row, write_values, column_values, summarize_stock_drain, SampleColumn,
    StockDrainSummaryJsonInput,
};
use xyzw_petsim::stock_drain::{checked_stock_total, StockDrainSimulationResult, StockDrainTrialResult};
use xyzw_petsim::stats::{percentile, rank_of};
use xyzw_petsim::text::{trimmed, usize_to_decimal};

#[test]
fn parses_six_level_stock_vector() {
    assert_eq!(parse_stock("200,2,0,0,0,3"), Ok([200, 2, 0, 0, 0, 3]));
}

#[test]
fn rejects_stock_vector_with_wrong_length() {
    assert!(parse_stock("200,2,0").is_err());
}

#[test]
fn rejects_negative_stock_value() {
    assert!(parse_stock("200,-2,0,0,0,3").is_err());
}

#[test]
fn stock_parts_may_carry_whitespace_and_plus_signs() {
    assert_eq!(parse_stock(" 1, +2 ,3\t,4,5 , 6"), Ok([1, 2, 3, 4, 5, 6]));
}

#[test]
fn stock_errors_name_the_problem() {
    assert_eq!(parse_stock("1,2,x,4,5,6").unwrap_err(), "stock 必须包含 6 个非负整数");
    assert_eq!(parse_stock("1,2,3,4,5,6,7").unwrap_err(), "stock 必须恰好包含 6 个数量，对应 1-6 级");
    assert_eq!(parse_stock("1,2,,4,5,6").unwrap_err(), "stock 必须包含 6 个非负整数");
    assert_eq!(parse_stock("").unwrap_err(), "stock 必须包含 6 个非负整数");
    assert_eq!(
        parse_stock("1,2,3,4,5,18446744073709551616").unwrap_err(),
        "stock 必须包含 6 个非负整数"
    );
}

#[test]
fn trial_counts_must_be_positive_integers() {
    assert_eq!(parse_trials("10000"), Ok(10000));
    assert_eq!(parse_trials("+7"), Ok(7));
    assert_eq!(parse_trials("0").unwrap_err(), "trials 必须 >= 1");
    assert_eq!(parse_trials("-3").unwrap_err(), "trials 必须是正整数");
    assert_eq!(parse_trials(" 5").unwrap_err(), "trials 必须是正整数");
    assert_eq!(parse_trials("").unwrap_err(), "trials 必须是正整数");
    assert_eq!(parse_trials("+").unwrap_err(), "trials 必须是正整数");
}

#[test]
fn decimal_numerals() {
    assert_eq!(usize_to_decimal(0), "0");
    assert_eq!(usize_to_decimal(7), "7");
    assert_eq!(usize_to_decimal(10), "10");
    assert_eq!(usize_to_decimal(100000), "100000");
    assert_eq!(usize_to_decimal(usize::MAX), usize::MAX.to_string());
}

#[test]
fn run_tags_match_the_documented_file_names() {
    assert_eq!(
        build_target_cost_run_tag(7, 100000, 4, true, Some(123)),
        "t7_n100000_th4_pon_s123"
    );
    assert_eq!(build_target_cost_run_tag(2, 3, 1, false, None), "t2_n3_th1_poff_srand");
    assert_eq!(
        build_stock_drain_run_tag([200, 2, 0, 0, 0, 3], 10000, 4, true, Some(111)),
        "stock_200-2-0-0-0-3_n10000_th4_pon_s111"
    );
    assert_eq!(
        build_stock_drain_run_tag([1, 0, 0, 0, 0, 0], 1, 1, false, None),
        "stock_1-0-0-0-0-0_n1_th1_poff_srand"
    );
}

#[test]
fn output_paths_resolve_like_the_flags_say() {
    assert_eq!(resolve_output_path(None, "d.csv"), None);
    assert_eq!(resolve_output_path(Some(None), "d.csv"), Some("d.csv".to_string()));
    assert_eq!(
        resolve_output_path(Some(Some("__AUTO__".to_string())), "d.csv"),
        Some("d.csv".to_string())
    );
    assert_eq!(
        resolve_output_path(Some(Some(" \t".to_string())), "d.csv"),
        Some("d.csv".to_string())
    );
    assert_eq!(
        resolve_output_path(Some(Some("out.csv".to_string())), "d.csv"),
        Some("out.csv".to_string())
    );
}

fn csv_samples() -> Vec<StockDrainTrialResult> {
    vec![
        StockDrainTrialResult {
            pets: [0, 1, 0, 1, 0, 1, 0],
            pity: [1, 2, 3, 4, 5, 6],
            pity_used: [0, 1, 0, 1, 0, 1],
        },
        StockDrainTrialResult {
            pets: [1, 0, 0, 1, 0, 1, 2],
            pity: [3, 4, 5, 6, 7, 8],
            pity_used: [2, 1, 2, 1, 2, 1],
        },
    ]
}

#[test]
fn writes_stock_drain_csv_with_pity_columns() {
    let samples = csv_samples();
    let mut content = stock_drain_csv_header(true);
    content.push('\n');
    for (index, sample) in samples.iter().enumerate() {
        content.push_str(&stock_drain_csv_row(index, sample, true));
        content.push('\n');
    }

    let mut lines = content.lines();
    assert_eq!(lines.next().unwrap().split(',').count(), 20);
    assert_eq!(lines.next().unwrap().split(',').count(), 20);
    assert_eq!(lines.count(), 1);
}

#[test]
fn stock_drain_csv_rows_without_pity() {
    let samples = csv_samples();
    assert_eq!(
        stock_drain_csv_header(false),
        "trial,level1,level2,level3,level4,level5,level6,level7"
    );
    assert_eq!(stock_drain_csv_row(1, &samples[1], false), "2,1,0,0,1,0,1,2");
    assert_eq!(
        stock_drain_csv_row(0, &samples[0], true),
        "1,0,1,0,1,0,1,0,1,2,3,4,5,6,0,1,0,1,0,1"
    );
}

#[test]
fn target_cost_csv_layout() {
    assert_eq!(target_cost_csv_header(), "trial,eggs");
    assert_eq!(target_cost_csv_row(0, 42), "1,42");
    assert_eq!(target_cost_csv_row(9, 7), "10,7");
}

#[test]
fn values_are_written_after_commas() {
    let mut out = String::from("x");
    write_values(&mut out, &[3, 0, 12]);
    assert_eq!(out, "x,3,0,12");
    let mut empty = String::new();
    write_values(&mut empty, &[]);
    assert_eq!(empty, "");
}

#[test]
fn computes_stock_drain_column_summaries() {
    let samples: Vec<_> = (0..10)
        .map(|value| StockDrainTrialResult {
            pets: [value; 7],
            pity: [value; 6],
            pity_used: [0; 6],
        })
        .collect();

    let summary = summarize_stock_drain_columns(&samples, SampleColumn::Pets);
    // The mean is a float; it is computed by the caller from the column values.
    let mean = |column: SampleColumn, index: usize| {
        let values = column_values(&samples, column, index);
        values.iter().sum::<usize>() as f64 / values.len() as f64
    };

    assert_eq!(summary.len(), 7);
    for (index, stats) in summary.iter().enumerate() {
        assert_eq!(mean(SampleColumn::Pets, index), 4.5);
        assert_eq!(stats.level, index + 1);
        assert_eq!(stats.p5, 0);
        assert_eq!(stats.p10, 1);
        assert_eq!(stats.p20, 2);
        assert_eq!(stats.p30, 3);
        assert_eq!(stats.p40, 4);
        assert_eq!(stats.p50, 5);
        assert_eq!(stats.p60, 5);
        assert_eq!(stats.p70, 6);
        assert_eq!(stats.p80, 7);
        assert_eq!(stats.p90, 8);
        assert_eq!(stats.p95, 9);
    }
    for index in 0..6 {
        assert_eq!(mean(SampleColumn::Pity, index), 4.5);
    }
}

#[test]
fn stock_written_with_commas_reads_back() {
    let stock = [200, 2, 0, 0, 0, 3];
    let text = stock.iter().map(|v| v.to_string()).collect::<Vec<_>>().join(",");
    assert_eq!(parse_stock(&text), Ok(stock));
    let big = [usize::MAX, 0, 1, 10, 100, 1000];
    let text = big.iter().map(|v| v.to_string()).collect::<Vec<_>>().join(",");
    assert_eq!(parse_stock(&text), Ok(big));
    assert_eq!(parse_trials(&usize::MAX.to_string()), Ok(usize::MAX));
}

#[test]
fn export_answers_and_paths() {
    assert!(accepts_export("y\n"));
    assert!(accepts_export("  Y "));
    assert!(!accepts_export("yes"));
    assert!(!accepts_export("n"));
    assert!(!accepts_export(""));
    assert_eq!(answered_csv_path("\n", "samples.csv"), "samples.csv");
    assert_eq!(answered_csv_path("  out/my.csv \n", "samples.csv"), "out/my.csv");
    assert_eq!(trimmed(" \t a b \n"), "a b");
    assert_eq!(trimmed(""), "");
}

#[test]
fn stock_totals_that_fit() {
    assert_eq!(checked_stock_total([200, 2, 0, 0, 0, 3]), Some(205));
    assert_eq!(checked_stock_total([0; 6]), Some(0));
    assert_eq!(checked_stock_total([usize::MAX, 0, 0, 0, 0, 0]), Some(usize::MAX));
    assert_eq!(checked_stock_total([usize::MAX, 0, 0, 0, 0, 1]), None);
}

#[test]
fn stock_drain_summary_holds_every_column() {
    let simulation = StockDrainSimulationResult {
        trials: 2,
        threads: 1,
        samples: csv_samples(),
    };
    let command = ["xyzw-petsim".to_string(), "stock-drain".to_string()];
    let input = StockDrainSummaryJsonInput {
        path: "report.json",
        command: &command,
        stock: [2, 0, 0, 0, 0, 0],
        enable_pity: true,
        seed: Some(123),
        output_csv_path: Some("samples.csv"),
        output_json_path: Some("report.json"),
        simulation: &simulation,
    };
    let summary = summarize_stock_drain(&input);
    assert_eq!(summary.pets_by_level.len(), 7);
    let first = summary.pets_by_level[0];
    assert_eq!((first.level, first.min, first.max), (1, 0, 1));
    assert_eq!((first.p5, first.p40, first.p50, first.p95), (0, 0, 1, 1));
    assert_eq!(summary.pets_by_level[6].p50, 2);
    let pity = summary.pity.unwrap();
    assert_eq!(pity.progress_by_level.len(), 6);
    assert_eq!(pity.used_by_level.len(), 6);
    assert_eq!(pity.progress_by_level[0].level, 2);
    assert_eq!((pity.progress_by_level[0].min, pity.progress_by_level[0].p50), (1, 3));
    assert_eq!((pity.used_by_level[0].p40, pity.used_by_level[0].max), (0, 2));

    let without = StockDrainSummaryJsonInput { enable_pity: false, ..input };
    assert!(summarize_stock_drain(&without).pity.is_none());
}

#[test]
fn percentile_ranks_round_like_doubles() {
    // (46 - 1) * 0.7 is 31.499999999999996 in doubles, so the 70th percentile is index 31.
    assert_eq!(rank_of(46, 70), 31);
    assert_eq!(rank_of(86, 70), 59);
    assert_eq!(rank_of(11, 50), 5);
    assert_eq!(rank_of(10, 5), 0);
    assert_eq!(rank_of(1, 95), 0);
    let sorted: Vec<usize> = (0..46).collect();
    assert_eq!(percentile(&sorted, 70), 31);
    for len in 1..3000usize {
        for (percent, q) in [(5, 0.05), (10, 0.10), (20, 0.20), (30, 0.30), (40, 0.40), (50, 0.50),
            (60, 0.60), (70, 0.70), (80, 0.80), (90, 0.90), (95, 0.95)] {
            let expected = ((len - 1) as f64 * q).round() as usize;
            assert_eq!(rank_of(len, percent), expected, "len {len} percent {percent}");
        }
    }
    assert_eq!(rank_of(usize::MAX, 95), ((usize::MAX - 1) as f64 * 0.95).round() as usize);
}
