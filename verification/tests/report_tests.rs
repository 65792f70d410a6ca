use contest_trainer::report::{export_file_name, markdown_report};
use contest_trainer::stats::{QsoRecord, SessionStats};

fn rates(v: &[&str]) -> Vec<String> {
    v.iter().map(|s| s.to_string()).collect()
}

#[test]
fn empty_session_report() {
    let stats = SessionStats::new();
    let md = markdown_report("W1AW", "2024-01-01 10:00", &stats, &rates(&["0.0", "0.0", "0.0", "0.0", ""]));
    let expected = "# CWCT Session Export\n\n**Callsign:** W1AW  \n**Exported:** 2024-01-01 10:00\n\n\
## Session Summary\n\n- Total QSOs: 0\n- Correct QSOs: 0 (0.0%)\n- Total Points: 0\n\n\
## Accuracy\n\n- Callsign Accuracy: 0/0 (0.0%)\n- Exchange Accuracy: 0/0 (0.0%)\n\n\
## Streaks\n\n- Current Clean: 0\n- Max Clean: 0\n- Current Error: 0\n- Max Error: 0\n\n\
## F5/F8 Usage\n\n- F5 (His Call): 0\n- F8 Callsign: 0\n- F8 Exchange: 0\n- Total with F8: 0\n\n\
## Calling Station Speed\n\nNo QSOs logged yet.\n\n\
## WPM Accuracy (2-WPM buckets)\n\nNo QSOs logged yet.\n\n\
## Character Error Analysis\n\nNo character errors recorded.\n\n\
## QSO Log\n\nNo QSOs logged yet.\n";
    assert_eq!(md, expected);
}

#[test]
fn one_qso_report() {
    let mut stats = SessionStats::new();
    stats.log_qso(QsoRecord {
        expected_callsign: "W1AW".to_string(),
        entered_callsign: "W1AX".to_string(),
        callsign_correct: false,
        expected_exchange: "5NN 1".to_string(),
        entered_exchange: "5NN 1".to_string(),
        exchange_correct: true,
        station_wpm: 25,
        points: 0,
        used_agn_callsign: false,
        used_agn_exchange: false,
        used_f5_callsign: true,
    });
    let md = markdown_report("W1AW", "now", &stats, &rates(&["0.0", "0.0", "100.0", "0.0", "25.0", "0.0"]));
    assert!(md.contains("- Total QSOs: 1\n- Correct QSOs: 0 (0.0%)\n"));
    assert!(md.contains("- Total with F8: 0 (0.0%)\n\n"));
    assert!(md.contains("- Average WPM: 25.0\n- WPM Range: 25 - 25\n\n"));
    assert!(md.contains("| 24-25 | 1 | 0 | 0.0% |\n"));
    assert!(md.contains("| 1 | W1AW | W1AX | No | 5NN 1 | 5NN 1 | Yes | 25 | 0 | No | No | Yes |\n"));
    assert!(md.ends_with("| Yes |\n"));
}

#[test]
fn export_file_names() {
    assert_eq!(export_file_name(" w1aw ", "20240101-1000"), "CWCT-W1AW-20240101-1000.md");
    assert_eq!(export_file_name("   ", "20240101-1000"), "CWCT-NOCALL-20240101-1000.md");
}
