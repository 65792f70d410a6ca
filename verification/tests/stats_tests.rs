use contest_trainer::stats::{CharStat, QsoRecord, SessionStats, WpmBucket};

fn record(call: &str, typed: &str, exch: &str, typed_exch: &str, wpm: u8, points: u32) -> QsoRecord {
    QsoRecord {
        expected_callsign: call.to_string(),
        entered_callsign: typed.to_string(),
        callsign_correct: call.eq_ignore_ascii_case(typed),
        expected_exchange: exch.to_string(),
        entered_exchange: typed_exch.to_string(),
        exchange_correct: exch.eq_ignore_ascii_case(typed_exch),
        station_wpm: wpm,
        points,
        used_agn_callsign: false,
        used_agn_exchange: false,
        used_f5_callsign: false,
    }
}

#[test]
fn empty_log_analysis() {
    let stats = SessionStats::new();
    let a = stats.analyze();
    assert_eq!(a.total_qsos, 0);
    assert_eq!(a.total_points, 0);
    assert_eq!(a.min_station_wpm, 0);
    assert_eq!(a.max_station_wpm, 0);
    assert!(stats.wpm_buckets().is_empty());
    assert!(stats.analyze_character_errors().is_empty());
}

#[test]
fn analysis_counts_and_streaks() {
    let mut stats = SessionStats::new();
    stats.log_qso(record("W1AW", "W1AW", "BOB 1", "BOB 1", 28, 1));
    stats.log_qso(record("K3LR", "K3LR", "JOE 2", "JOE 2", 31, 1));
    stats.log_qso(record("N5XX", "N5XY", "ANN 3", "ANN 3", 35, 0));
    let mut agn = record("DL1AB", "DL1AB", "TOM 4", "TOM 4", 29, 1);
    agn.used_agn_exchange = true;
    stats.log_qso(agn);
    let a = stats.analyze();
    assert_eq!(a.total_qsos, 4);
    assert_eq!(a.correct_callsigns, 3);
    assert_eq!(a.correct_exchanges, 4);
    assert_eq!(a.correct_qsos, 3);
    assert_eq!(a.perfect_qsos, 2);
    assert_eq!(a.total_points, 3);
    assert_eq!(a.agn_exchange_count, 1);
    assert_eq!(a.agn_any_count, 1);
    assert_eq!(a.wpm_sum, 123);
    assert_eq!(a.min_station_wpm, 28);
    assert_eq!(a.max_station_wpm, 35);
    assert_eq!(a.streaks.current_clean, 1);
    assert_eq!(a.streaks.max_clean, 2);
    assert_eq!(a.streaks.current_error, 0);
    assert_eq!(a.streaks.max_error, 1);
    stats.clear();
    assert_eq!(stats.analyze().total_qsos, 0);
}

#[test]
fn wpm_buckets_are_two_wide_and_ordered() {
    let mut stats = SessionStats::new();
    stats.log_qso(record("W1AW", "W1AW", "A", "A", 29, 1));
    stats.log_qso(record("K3LR", "K3LX", "A", "A", 28, 0));
    stats.log_qso(record("N5XX", "N5XX", "A", "A", 35, 1));
    stats.log_qso(record("W6YX", "W6YX", "A", "A", 22, 1));
    let b = stats.wpm_buckets();
    assert_eq!(
        b,
        vec![
            WpmBucket { start: 22, total: 1, correct: 1 },
            WpmBucket { start: 28, total: 2, correct: 1 },
            WpmBucket { start: 34, total: 1, correct: 1 },
        ]
    );
    assert_eq!(b.iter().map(|x| x.total).sum::<usize>(), stats.qsos.len());
}

#[test]
fn character_errors_are_counted_by_position() {
    let mut stats = SessionStats::new();
    stats.log_qso(record("W1AW", "W1AX", "5", "5", 30, 0));
    stats.log_qso(record("w2aw", "W2AW", "5", "5", 30, 1));
    stats.log_qso(record("W3AW", "W3", "5", "6", 30, 0));
    stats.log_qso(record("K9A", "K9A", "5", "5", 30, 1));
    let r = stats.analyze_character_errors();
    // W: 6 samples, 2 errors (the last W of W1AW and of W3AW).
    // 5 and A: 4 samples, 1 error each; equal rates go in character order.
    assert_eq!(
        r,
        vec![
            CharStat { ch: 'W', errors: 2, total: 6 },
            CharStat { ch: '5', errors: 1, total: 4 },
            CharStat { ch: 'A', errors: 1, total: 4 },
        ]
    );
}

#[test]
fn character_errors_need_three_samples() {
    let mut stats = SessionStats::new();
    stats.log_qso(record("K1", "X1", "", "", 30, 0));
    stats.log_qso(record("K2", "X2", "", "", 30, 0));
    let r = stats.analyze_character_errors();
    assert!(r.is_empty());
}
