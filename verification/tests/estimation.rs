use rewriter_queue::estimation::{
    confidence, history_path, is_calibrated, load_history, record, EstimationRecord, MIN_SAMPLES,
};

fn rec(effort: u8, iterations: usize, secs: f64, tokens: u32) -> EstimationRecord {
    EstimationRecord {
        milestone_name: "m".to_string(),
        estimated_effort: effort,
        actual_iterations: iterations,
        max_iter: 10,
        converged: true,
        wall_clock_secs: serde_json::Number::from_f64(secs).unwrap(),
        tokens_in: tokens,
        tokens_out: tokens,
        timestamp: "2026-01-01T00:00:00Z".to_string(),
    }
}

#[test]
fn record_and_load_round_trip_through_a_real_file() {
    let a = rec(80, 3, 210.5, 12_345);
    let b = rec(200, 8, 650.25, 40_000);
    let mut file = String::new();
    file.push_str(&record(&a));
    file.push_str(&record(&b));

    let loaded = load_history(Some(file));
    assert_eq!(loaded, vec![a, b]);
}

#[test]
fn load_history_of_a_missing_file_is_an_empty_history_not_an_error() {
    assert_eq!(load_history(None), Vec::new());
}

#[test]
fn history_path_honors_the_env_override() {
    assert_eq!(
        history_path(Some("/tmp/override-test.jsonl".into()), Some("/home/u".into())),
        "/tmp/override-test.jsonl"
    );
}

#[test]
fn lines_that_are_no_records_are_passed_over() {
    let mut file = String::from("not json\n\n{\"milestone_name\": \"x\"}\n");
    file.push_str(&record(&rec(1, 1, 1.0, 1)));
    assert_eq!(load_history(Some(file)), vec![rec(1, 1, 1.0, 1)]);
    let line = record(&rec(1, 1, 1.0, 1));
    assert_eq!(line.matches('\n').count(), 1);
    assert!(line.ends_with('\n'));
}

#[test]
fn of_a_number_that_is_too_large_the_low_bits_are_kept() {
    let line =
        record(&rec(7, 1, 1.0, 1)).replace("\"estimated_effort\":7", "\"estimated_effort\":257");
    assert_eq!(load_history(Some(line)), vec![rec(1, 1, 1.0, 1)]);
}

#[test]
fn three_records_are_enough_to_calibrate() {
    assert_eq!(MIN_SAMPLES, 3);
    assert!(!is_calibrated(2) && is_calibrated(3));
    assert_ne!(confidence(true, 3), confidence(false, 2));
    assert!(confidence(true, 12).contains("12"));
}
