use contest_trainer::config::{ContestSettings, FileDialogTarget, SimulationSettings, UserSettings};
use contest_trainer::contest::create_contest;
use contest_trainer::contest::types::{SettingValue, SettingsTable};
use contest_trainer::cty::CtyDat;
use contest_trainer::num::{parse_u8, u64_to_string, u64_to_string_padded};
use contest_trainer::state::{ContestState, QsoContext, StationTxType, StatusColor, UserTxType};
use contest_trainer::station::caller_manager::{answer_chance, settings_usable};
use contest_trainer::session::typed_callsign;
use contest_trainer::stats::{CharStat, QsoRecord, SessionStats};
use contest_trainer::text::str_eq_ignore_case;

#[test]
fn uppercasing_follows_std() {
    assert_eq!(typed_callsign("w1aw"), "W1AW");
    assert_eq!(typed_callsign(" dl/w1aw/p "), "DL/W1AW/P");
    assert_eq!(typed_callsign("straße"), "STRASSE");
}

fn copied(call: &str, typed: &str) -> QsoRecord {
    QsoRecord {
        expected_callsign: call.to_string(),
        entered_callsign: typed.to_string(),
        callsign_correct: false,
        expected_exchange: String::new(),
        entered_exchange: String::new(),
        exchange_correct: true,
        station_wpm: 30,
        points: 0,
        used_agn_callsign: false,
        used_agn_exchange: false,
        used_f5_callsign: false,
    }
}

#[test]
fn only_alphanumeric_characters_are_analysed() {
    let mut stats = SessionStats::new();
    for _ in 0..3 {
        stats.log_qso(copied("é/ ", "x"));
    }
    // 'é' is alphanumeric (and uppercases to 'É'); '/' and ' ' are not counted.
    assert_eq!(stats.analyze_character_errors(), vec![CharStat { ch: 'É', errors: 3, total: 3 }]);
}

#[test]
fn ignoring_case() {
    assert!(str_eq_ignore_case("W1aw", "w1AW"));
    assert!(!str_eq_ignore_case("W1AW", "W1AX"));
    assert!(!str_eq_ignore_case("W1AW", "W1A"));
}

#[test]
fn numbers_format_and_parse() {
    assert_eq!(u64_to_string(0), "0");
    assert_eq!(u64_to_string(1234), "1234");
    assert_eq!(u64_to_string_padded(5, 2), "05");
    assert_eq!(u64_to_string_padded(123, 2), "123");
    assert_eq!(parse_u8("255"), Some(255));
    assert_eq!(parse_u8("+7"), Some(7));
    assert_eq!(parse_u8("256"), None);
    assert_eq!(parse_u8(""), None);
    assert_eq!(parse_u8("-1"), None);
}

#[test]
fn defaults() {
    let u = UserSettings::default();
    assert_eq!(u.callsign, "N9UNX");
    assert_eq!(u.wpm, 32);
    assert_eq!(u.agn_message, "?");
    let s = SimulationSettings::default();
    assert_eq!(s.max_simultaneous_stations, 2);
    assert_eq!(s.frequency_spread_hz, 300);
    let c = ContestSettings::default();
    assert_eq!(c.active_contest_id, "arrldx");
    assert!(c.contests.is_empty());
}

#[test]
fn stored_settings_are_completed_with_defaults() {
    let contest = create_contest("cwt", CtyDat::empty()).unwrap();
    let mut stored = SettingsTable::new();
    stored.insert("user_name", SettingValue::Str("ANN".to_string()));
    let mut c = ContestSettings::default();
    c.contests.push(("cwt".to_string(), stored));
    let t = c.settings_for(&contest);
    assert_eq!(t.get_string("user_name", ""), "ANN");
    assert_eq!(t.get_string("cq_message", ""), "CQ TEST");
    let other = create_contest("cqwpx", CtyDat::empty()).unwrap();
    let t = c.settings_for(&other);
    assert_eq!(t.get_integer("serial_min"), Some(1000));
}

#[test]
fn status_line_texts() {
    let ctx = QsoContext::new();
    assert_eq!(ContestState::Idle.status_text(&ctx), ("Press F1/Enter to call CQ", StatusColor::Gray));
    assert_eq!(ContestState::CallingCq.status_text(&ctx).0, "Calling CQ...");
    assert_eq!(
        ContestState::UserTransmitting { tx_type: UserTxType::Tu }.status_text(&ctx).0,
        "Sending TU..."
    );
    assert_eq!(
        ContestState::StationTransmitting { tx_type: StationTxType::SendingExchange }.status_text(&ctx),
        ("Receiving exchange - press Enter to log", StatusColor::Green)
    );
}

#[test]
fn picked_files_go_to_their_setting() {
    let mut c = ContestSettings::default();
    let target = FileDialogTarget::ContestSetting {
        contest_id: "cwt".to_string(),
        key: "callsign_file".to_string(),
    };
    assert!(c.apply_picked_path(&target, "/tmp/calls.txt"));
    c.set_setting("cwt", "user_name", SettingValue::Str("ANN".to_string()));
    c.set_setting("cqwpx", "serial_min", SettingValue::Int(5));
    assert_eq!(c.contests.len(), 2);
    let contest = create_contest("cwt", CtyDat::empty()).unwrap();
    let t = c.settings_for(&contest);
    assert_eq!(t.get_string("callsign_file", ""), "/tmp/calls.txt");
    assert_eq!(t.get_string("user_name", ""), "ANN");
    assert!(!c.apply_picked_path(&FileDialogTarget::ExportDirectory, "/tmp"));
    assert_eq!(c.contests.len(), 2);
}

#[test]
fn answer_chances() {
    assert_eq!(answer_chance(2, 0, false), 600_000);
    assert_eq!(answer_chance(5, 3, false), 900_000);
    assert_eq!(answer_chance(2, 1, true), 300_000);
    assert_eq!(answer_chance(2, 2, true), 150_000);
    assert_eq!(answer_chance(5, 0, true), 900_000);
}

#[test]
fn usable_simulation_settings() {
    let mut s = SimulationSettings::default();
    assert!(settings_usable(&s));
    s.wpm_min = 40;
    s.wpm_max = 30;
    assert!(!settings_usable(&s));
    let mut s = SimulationSettings::default();
    s.frequency_spread_hz = 1;
    assert!(settings_usable(&s));
    s.frequency_spread_hz = 0;
    assert!(!settings_usable(&s));
}

fn all_distinct(calls: &[String]) -> bool {
    let mut i = 0;
    while i < calls.len() {
        let mut j = i + 1;
        while j < calls.len() {
            if calls[i] == calls[j] {
                return false;
            }
            j += 1;
        }
        i += 1;
    }
    true
}

#[test]
fn cwt_reset_makes_every_station_available_again() {
    for _ in 0..10 {
        let mut pool = contest_trainer::station::callsign::CwtCallsignPool::default_pool();
        assert!(pool.random().is_some());
        pool.reset();
        let mut calls: Vec<String> = Vec::new();
        for _ in 0..5 {
            let (c, _) = pool.random().unwrap();
            calls.push(c);
        }
        assert!(all_distinct(&calls));
    }
}

#[test]
fn arrldx_reset_makes_every_station_available_again() {
    for _ in 0..10 {
        let mut pool = contest_trainer::contest::arrldx::ArrlDxCallsignSource::default_pool();
        assert!(pool.random().is_some());
        pool.reset();
        let mut calls: Vec<String> = Vec::new();
        for _ in 0..4 {
            let (c, _) = pool.random().unwrap();
            calls.push(c);
        }
        assert!(all_distinct(&calls));
    }
}

#[test]
fn default_pool_draws_every_callsign_once() {
    let mut pool = contest_trainer::contest::callsign::CallsignPool::default_pool();
    let n = pool.len();
    for _ in 0..2 {
        let mut calls: Vec<String> = Vec::new();
        for _ in 0..n {
            calls.push(pool.random().unwrap());
        }
        assert!(all_distinct(&calls));
        pool.reset();
    }
}

#[test]
fn ranges_are_fixed_up() {
    let mut s = SimulationSettings::default();
    s.wpm_min = 40;
    s.wpm_max = 30;
    s.amplitude_min_milli = 900;
    s.amplitude_max_milli = 500;
    let f = s.with_ranges_fixed();
    assert_eq!(f.wpm_max, 40);
    assert_eq!(f.amplitude_max_milli, 900);
    assert_eq!(f.wpm_min, 40);
    let d = SimulationSettings::default();
    assert_eq!(d.with_ranges_fixed(), d);
}
