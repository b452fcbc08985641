use modscore::{evaluate, Config, EvalError, Markers, ScoreEntry, ThresholdEntry};

fn markers() -> Markers {
    Markers {
        passed: String::from("P"),
        failed: String::from("F"),
        passed_highest: String::from("PH"),
        passed_lowest: String::from("PL"),
        failed_highest: String::from("FH"),
        failed_lowest: String::from("FL"),
    }
}

fn config(thresholds: &[(&str, u32)]) -> Config {
    Config {
        thresholds: thresholds
            .iter()
            .map(|(n, t)| ThresholdEntry { name: String::from(*n), threshold: *t })
            .collect(),
        markers: markers(),
    }
}

fn scores(entries: &[(&str, u32)]) -> Vec<ScoreEntry> {
    entries.iter().map(|(n, s)| ScoreEntry { name: String::from(*n), score: *s }).collect()
}

#[test]
fn scenario_two_attributes_one_rejected() {
    // thresholds 0.7 / 0.5, scores 0.9 / 0.3: rejected and passed are both
    // singletons, so both keep their plain markers.
    let cfg = config(&[("toxicity", 700), ("insult", 500)]);
    let s = scores(&[("toxicity", 900), ("insult", 300)]);
    let rep = evaluate(&s, &cfg).unwrap();
    assert!(rep.verdict);
    assert_eq!(rep.entries.len(), 2);
    assert_eq!(rep.entries[0].name, "toxicity");
    assert_eq!(rep.entries[0].score, 900);
    assert!(rep.entries[0].rejected);
    assert_eq!(rep.entries[0].marker, "F");
    assert_eq!(rep.entries[1].name, "insult");
    assert_eq!(rep.entries[1].score, 300);
    assert!(!rep.entries[1].rejected);
    assert_eq!(rep.entries[1].marker, "P");
    assert_eq!(rep.stats.min, 300);
    assert_eq!(rep.stats.max, 900);
    assert_eq!(rep.stats.mean, 600);
}

#[test]
fn scenario_three_attributes_passed_class_ranked() {
    // thresholds all 0.5, scores 0.9 / 0.1 / 0.5: only `a` is rejected;
    // `c` (exactly at threshold) passes and heads the passed class.
    let cfg = config(&[("a", 500), ("b", 500), ("c", 500)]);
    let s = scores(&[("a", 900), ("b", 100), ("c", 500)]);
    let rep = evaluate(&s, &cfg).unwrap();
    assert!(rep.verdict);
    assert_eq!(rep.entries.len(), 3);
    assert_eq!(rep.entries[0].name, "a");
    assert!(rep.entries[0].rejected);
    assert_eq!(rep.entries[0].marker, "F");
    assert_eq!(rep.entries[1].name, "c");
    assert!(!rep.entries[1].rejected);
    assert_eq!(rep.entries[1].marker, "PH");
    assert_eq!(rep.entries[2].name, "b");
    assert!(!rep.entries[2].rejected);
    assert_eq!(rep.entries[2].marker, "PL");
    assert_eq!(rep.stats.min, 100);
    assert_eq!(rep.stats.max, 900);
    assert_eq!(rep.stats.mean, 500);
}

#[test]
fn empty_score_set_is_refused() {
    let cfg = config(&[("toxicity", 700)]);
    let s = scores(&[]);
    assert!(matches!(evaluate(&s, &cfg), Err(EvalError::EmptyScoreSet)));
}

#[test]
fn unconfigured_attribute_is_a_mismatch() {
    let cfg = config(&[("toxicity", 700)]);
    let s = scores(&[("toxicity", 200), ("spam", 900)]);
    assert!(matches!(evaluate(&s, &cfg), Err(EvalError::ConfigMismatch)));
}

#[test]
fn score_equal_to_threshold_passes() {
    let cfg = config(&[("toxicity", 700)]);
    let s = scores(&[("toxicity", 700)]);
    let rep = evaluate(&s, &cfg).unwrap();
    assert!(!rep.verdict);
    assert_eq!(rep.entries.len(), 1);
    assert!(!rep.entries[0].rejected);
    assert_eq!(rep.entries[0].marker, "P");
}

#[test]
fn score_just_above_threshold_rejects() {
    let cfg = config(&[("toxicity", 700)]);
    let s = scores(&[("toxicity", 701)]);
    let rep = evaluate(&s, &cfg).unwrap();
    assert!(rep.verdict);
    assert!(rep.entries[0].rejected);
}

#[test]
fn rejected_entries_precede_passed_and_classes_are_sorted() {
    let cfg = config(&[("a", 100), ("b", 100), ("c", 900), ("d", 900)]);
    let s = scores(&[("c", 300), ("a", 400), ("d", 550), ("b", 800)]);
    let rep = evaluate(&s, &cfg).unwrap();
    assert!(rep.verdict);
    let names: Vec<&str> = rep.entries.iter().map(|e| e.name.as_str()).collect();
    // rejected (over 0.1): b 0.8, a 0.4 — then passed (under 0.9): d 0.55, c 0.3
    assert_eq!(names, vec!["b", "a", "d", "c"]);
    let flags: Vec<bool> = rep.entries.iter().map(|e| e.rejected).collect();
    assert_eq!(flags, vec![true, true, false, false]);
    let ms: Vec<&str> = rep.entries.iter().map(|e| e.marker.as_str()).collect();
    assert_eq!(ms, vec!["FH", "FL", "PH", "PL"]);
    assert_eq!(rep.stats.min, 300);
    assert_eq!(rep.stats.max, 800);
    // (300 + 400 + 550 + 800) / 4 = 512 (integer division)
    assert_eq!(rep.stats.mean, 512);
}

#[test]
fn extremal_markers_only_in_classes_of_two_or_more() {
    let cfg = config(&[("a", 0), ("b", 0), ("c", 0)]);
    let s = scores(&[("a", 100), ("b", 300), ("c", 200)]);
    let rep = evaluate(&s, &cfg).unwrap();
    // all rejected: b highest, c middle (plain), a lowest
    let ms: Vec<&str> = rep.entries.iter().map(|e| e.marker.as_str()).collect();
    assert_eq!(ms, vec!["FH", "F", "FL"]);
    let highs = rep.entries.iter().filter(|e| e.marker == "FH").count();
    let lows = rep.entries.iter().filter(|e| e.marker == "FL").count();
    assert_eq!(highs, 1);
    assert_eq!(lows, 1);
}

#[test]
fn ties_keep_insertion_order() {
    let cfg = config(&[("x", 500), ("y", 500), ("z", 500)]);
    let s = scores(&[("x", 400), ("y", 400), ("z", 400)]);
    let rep = evaluate(&s, &cfg).unwrap();
    assert!(!rep.verdict);
    let names: Vec<&str> = rep.entries.iter().map(|e| e.name.as_str()).collect();
    assert_eq!(names, vec!["x", "y", "z"]);
    let ms: Vec<&str> = rep.entries.iter().map(|e| e.marker.as_str()).collect();
    assert_eq!(ms, vec!["PH", "P", "PL"]);
}

#[test]
fn evaluate_twice_yields_identical_output() {
    let cfg = config(&[("a", 500), ("b", 500), ("c", 500)]);
    let s = scores(&[("a", 900), ("b", 100), ("c", 500)]);
    let r1 = evaluate(&s, &cfg).unwrap();
    let r2 = evaluate(&s, &cfg).unwrap();
    assert_eq!(r1.verdict, r2.verdict);
    assert_eq!(r1.stats, r2.stats);
    assert_eq!(r1.entries.len(), r2.entries.len());
    for (e1, e2) in r1.entries.iter().zip(r2.entries.iter()) {
        assert_eq!(e1.name, e2.name);
        assert_eq!(e1.score, e2.score);
        assert_eq!(e1.rejected, e2.rejected);
        assert_eq!(e1.marker, e2.marker);
    }
}

#[test]
fn mean_lies_between_min_and_max() {
    let cfg = config(&[("a", 1000), ("b", 1000), ("c", 1000)]);
    let s = scores(&[("a", 7), ("b", 999), ("c", 123)]);
    let rep = evaluate(&s, &cfg).unwrap();
    assert!(rep.stats.min <= rep.stats.mean && rep.stats.mean <= rep.stats.max);
    assert_eq!(rep.stats.min, 7);
    assert_eq!(rep.stats.max, 999);
    assert_eq!(rep.stats.mean, (7 + 999 + 123) / 3);
}

#[test]
fn report_length_equals_attribute_count() {
    let cfg = config(&[("a", 500), ("b", 500), ("c", 500), ("d", 500), ("e", 500)]);
    let s = scores(&[("a", 10), ("b", 600), ("c", 500), ("d", 990), ("e", 0)]);
    let rep = evaluate(&s, &cfg).unwrap();
    assert_eq!(rep.entries.len(), 5);
}

#[test]
fn last_threshold_listing_wins() {
    let cfg = config(&[("a", 100), ("a", 900)]);
    let s = scores(&[("a", 500)]);
    let rep = evaluate(&s, &cfg).unwrap();
    assert!(!rep.verdict);
}

#[test]
fn scores_above_one_are_not_clamped() {
    let cfg = config(&[("a", 700), ("b", 700)]);
    let s = scores(&[("a", 1500), ("b", 100)]);
    let rep = evaluate(&s, &cfg).unwrap();
    assert!(rep.verdict);
    assert_eq!(rep.stats.max, 1500);
    assert_eq!(rep.stats.mean, 800);
}
