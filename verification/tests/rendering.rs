use modscore::{
    evaluate, render_line, render_lines, render_stats, AttributeResult, Config, Markers,
    ScoreEntry, Stats, ThresholdEntry,
};

fn markers() -> Markers {
    Markers {
        passed: String::from("P"),
        failed: String::from("F"),
        passed_highest: String::from("PH"),
        passed_lowest: String::from("PL"),
        failed_highest: String::from("FH"),
        failed_lowest: String::from("FL"),
    }
}

#[test]
fn line_renders_marker_name_and_percent() {
    let e = AttributeResult {
        name: String::from("toxicity"),
        score: 900,
        rejected: true,
        marker: String::from("F"),
    };
    assert_eq!(render_line(&e), "F `toxicity` - 90.0%\n");
}

#[test]
fn percent_keeps_one_decimal_digit() {
    let e = AttributeResult {
        name: String::from("a"),
        score: 505,
        rejected: false,
        marker: String::from("P"),
    };
    assert_eq!(render_line(&e), "P `a` - 50.5%\n");
}

#[test]
fn zero_score_renders_as_zero_percent() {
    let e = AttributeResult {
        name: String::from("a"),
        score: 0,
        rejected: false,
        marker: String::from("P"),
    };
    assert_eq!(render_line(&e), "P `a` - 0.0%\n");
}

#[test]
fn scores_above_one_render_above_hundred_percent() {
    let e = AttributeResult {
        name: String::from("a"),
        score: 1234,
        rejected: true,
        marker: String::from("F"),
    };
    assert_eq!(render_line(&e), "F `a` - 123.4%\n");
}

#[test]
fn stats_block_renders_min_max_avg() {
    let st = Stats { min: 300, max: 900, mean: 600 };
    assert_eq!(render_stats(&st), "Min: 30.0%\nMax: 90.0%\nAvg: 60.0%");
}

#[test]
fn report_lines_follow_report_order() {
    let cfg = Config {
        thresholds: vec![
            ThresholdEntry { name: String::from("toxicity"), threshold: 700 },
            ThresholdEntry { name: String::from("insult"), threshold: 500 },
        ],
        markers: markers(),
    };
    let s = vec![
        ScoreEntry { name: String::from("toxicity"), score: 900 },
        ScoreEntry { name: String::from("insult"), score: 300 },
    ];
    let rep = evaluate(&s, &cfg).unwrap();
    let lines = render_lines(&rep);
    assert_eq!(lines.len(), 2);
    assert_eq!(lines[0], "F `toxicity` - 90.0%\n");
    assert_eq!(lines[1], "P `insult` - 30.0%\n");
    assert_eq!(render_stats(&rep.stats), "Min: 30.0%\nMax: 90.0%\nAvg: 60.0%");
}
