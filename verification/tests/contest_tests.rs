use contest_trainer::contest::arrldx::sent_exchange_for;
use contest_trainer::contest::common::{
    format_serial, normalize_cw_digits, normalize_rst, parse_serial, rst_for_roll, serial_range,
    validate_serial_settings, SerialSettingsError,
};
use contest_trainer::contest::cqwpx::CqWpxContest;
use contest_trainer::contest::sprint::NaSprintContest;
use contest_trainer::contest::sweepstakes::SweepstakesContest;
use contest_trainer::contest::types::{Exchange, SettingValue, SettingsTable};
use contest_trainer::contest::{create_contest, default_contest_id, registry};
use contest_trainer::cty::CtyDat;

fn strings(v: &[&str]) -> Vec<String> {
    v.iter().map(|s| s.to_string()).collect()
}

fn exchange(v: &[&str]) -> Exchange {
    Exchange::new(strings(v))
}

#[test]
fn serial_numbers_are_padded_to_three_digits() {
    assert_eq!(format_serial(5), "005");
    assert_eq!(format_serial(42), "042");
    assert_eq!(format_serial(100), "100");
    assert_eq!(format_serial(1234), "1234");
}

#[test]
fn serial_numbers_read_cut_numbers() {
    assert_eq!(parse_serial("005"), Some(5));
    assert_eq!(parse_serial("T5"), Some(5));
    assert_eq!(parse_serial("1tt"), Some(100));
    assert_eq!(parse_serial(" 1N "), Some(19));
    assert_eq!(parse_serial(""), None);
    assert_eq!(parse_serial("12A"), None);
    assert_eq!(parse_serial("99999999999"), None);
}

#[test]
fn serial_round_trip() {
    for n in [0u32, 1, 9, 10, 99, 100, 999, 1000, 12000, u32::MAX] {
        assert_eq!(parse_serial(&format_serial(n)), Some(n));
    }
}

#[test]
fn sent_reports_read_as_599() {
    assert_eq!(normalize_rst("ENN"), "599");
    assert_eq!(normalize_rst("5NN"), "599");
    assert_eq!(normalize_rst("599"), "599");
    assert_eq!(normalize_rst(" 5nn "), "599");
    assert_eq!(normalize_cw_digits("1tt"), "100");
    assert_eq!(normalize_cw_digits("5nn"), "599");
}

#[test]
fn report_rolls() {
    assert_eq!(rst_for_roll(0), "ENN");
    assert_eq!(rst_for_roll(4), "ENN");
    assert_eq!(rst_for_roll(5), "599");
    assert_eq!(rst_for_roll(14), "599");
    assert_eq!(rst_for_roll(15), "5NN");
    assert_eq!(rst_for_roll(99), "5NN");
}

#[test]
fn power_is_sent_with_cut_zeros_on_most_rolls() {
    assert_eq!(sent_exchange_for("100", 10), "1TT");
    assert_eq!(sent_exchange_for("100", 79), "1TT");
    assert_eq!(sent_exchange_for("100", 80), "100");
    assert_eq!(sent_exchange_for("CT", 10), "CT");
}

#[test]
fn registry_lists_contests_in_order() {
    let ids: Vec<&str> = registry().iter().map(|d| d.id).collect();
    assert_eq!(ids, vec!["arrldx", "cqwpx", "cqww", "cwt", "sweepstakes"]);
    assert_eq!(default_contest_id(), Some("arrldx"));
    let names: Vec<&str> = registry().iter().map(|d| d.display_name).collect();
    assert_eq!(names[0], "ARRL DX CW");
    assert_eq!(names[1], "CQ WPX");
}

#[test]
fn contests_are_created_by_id() {
    for id in ["arrldx", "cqwpx", "cqww", "cwt", "sweepstakes"] {
        let c = create_contest(id, CtyDat::empty()).unwrap();
        assert_eq!(c.id(), id);
    }
    assert!(create_contest("nope", CtyDat::empty()).is_none());
}

#[test]
fn cwt_validation_ignores_case() {
    let c = create_contest("cwt", CtyDat::empty()).unwrap();
    let t = c.default_settings();
    let e = exchange(&["BOB", "1234"]);
    let v = c.validate("W1AW", &e, "w1aw", &strings(&["bob", "1234"]), &t);
    assert!(v.callsign_correct && v.exchange_correct);
    assert_eq!(v.points, 1);
    let v = c.validate("W1AW", &e, "W1AW", &strings(&["BOB", "1235"]), &t);
    assert!(v.callsign_correct && !v.exchange_correct);
    assert_eq!(v.points, 0);
    let v = c.validate("W1AW", &e, "W1AX", &strings(&["BOB", "1234"]), &t);
    assert!(!v.callsign_correct && v.exchange_correct);
    assert_eq!(v.points, 0);
}

#[test]
fn cqwpx_validation_reads_cut_numbers() {
    let c = create_contest("cqwpx", CtyDat::empty()).unwrap();
    let t = c.default_settings();
    let e = exchange(&["ENN", "005"]);
    let v = c.validate("K3LR", &e, "K3LR", &strings(&["5NN", "T5"]), &t);
    assert!(v.exchange_correct);
    assert_eq!(v.points, 1);
    let v = c.validate("K3LR", &e, "K3LR", &strings(&["5NN", "6"]), &t);
    assert!(!v.exchange_correct);
}

#[test]
fn cqww_validation_compares_zones_as_numbers() {
    let c = create_contest("cqww", CtyDat::empty()).unwrap();
    let t = c.default_settings();
    let e = exchange(&["599", "05"]);
    let v = c.validate("W1AW", &e, "W1AW", &strings(&["5nn", "5"]), &t);
    assert!(v.exchange_correct);
    let v = c.validate("W1AW", &e, "W1AW", &strings(&["5nn", "14"]), &t);
    assert!(!v.exchange_correct);
    let v = c.validate("W1AW", &e, "W1AW", &strings(&["5nn", "x"]), &t);
    assert!(!v.exchange_correct);
}

#[test]
fn cqww_zone_without_country_data_is_five() {
    let c = create_contest("cqww", CtyDat::empty()).unwrap();
    let t = c.default_settings();
    let e = c.generate_exchange("DL1ABC", 1, &t);
    assert_eq!(e.fields[1], "05");
    assert!(["ENN", "599", "5NN"].contains(&e.fields[0].as_str()));
}

#[test]
fn sweepstakes_validation_scores_two_points() {
    let c = create_contest("sweepstakes", CtyDat::empty()).unwrap();
    let t = c.default_settings();
    let e = exchange(&["042", "A", "W1AW", "99", "CT"]);
    let v = c.validate("W1AW", &e, "W1AW", &strings(&["42", "a", "99", "ct"]), &t);
    assert!(v.callsign_correct && v.exchange_correct);
    assert_eq!(v.points, 2);
    let v = c.validate("W1AW", &e, "W1AW", &strings(&["42", "B", "99", "CT"]), &t);
    assert!(!v.exchange_correct);
    assert_eq!(v.points, 0);
}

#[test]
fn sweepstakes_section_follows_call_area() {
    assert_eq!(SweepstakesContest::section_for_callsign("W1AW"), "CT");
    assert_eq!(SweepstakesContest::section_for_callsign("K6XX"), "SDG");
    assert_eq!(SweepstakesContest::section_for_callsign("N0ABC"), "CO");
    assert_eq!(SweepstakesContest::section_for_callsign("ABC"), "SDG");
}

#[test]
fn sweepstakes_exchange_layout() {
    let e = SweepstakesContest::exchange_for("W1AW", 1, 42, 99);
    assert_eq!(strings(&["042", "A", "W1AW", "99", "CT"]), e.fields);
}

#[test]
fn cqwpx_exchange_for_rolls() {
    let c = CqWpxContest::new();
    let e = c.exchange_for(0, 7);
    assert_eq!(e.fields, strings(&["ENN", "007"]));
    let e = c.exchange_for(50, 1234);
    assert_eq!(e.fields, strings(&["5NN", "1234"]));
}

#[test]
fn serial_range_clamps_and_orders() {
    let mut t = SettingsTable::new();
    assert_eq!(serial_range(&t, 1000, 2500), (1000, 2500));
    t.insert("serial_min", SettingValue::Int(50000));
    t.insert("serial_max", SettingValue::Str(" 10 ".to_string()));
    assert_eq!(serial_range(&t, 1000, 2500), (10, 12000));
}

#[test]
fn serial_settings_errors() {
    let mut t = SettingsTable::new();
    assert_eq!(validate_serial_settings(&t), Err(SerialSettingsError::MinNotInteger));
    t.insert("serial_min", SettingValue::Int(5));
    assert_eq!(validate_serial_settings(&t), Err(SerialSettingsError::MaxNotInteger));
    t.insert("serial_max", SettingValue::Int(20000));
    assert_eq!(validate_serial_settings(&t), Err(SerialSettingsError::MaxOutOfRange));
    t.insert("serial_max", SettingValue::Int(3));
    assert_eq!(validate_serial_settings(&t), Err(SerialSettingsError::MinAboveMax));
    t.insert("serial_min", SettingValue::Int(0));
    assert_eq!(validate_serial_settings(&t), Err(SerialSettingsError::MinOutOfRange));
    t.insert("serial_min", SettingValue::Str("1".to_string()));
    assert_eq!(validate_serial_settings(&t), Ok(()));
    assert_eq!(
        SerialSettingsError::MinAboveMax.message(),
        "Serial Min must be less than or equal to Serial Max."
    );
}

#[test]
fn settings_table_reads_back_what_was_written() {
    let mut t = SettingsTable::new();
    t.insert("user_name", SettingValue::Str("ANN".to_string()));
    assert_eq!(t.get_string("user_name", "OP"), "ANN");
    assert_eq!(t.get_string("missing", "OP"), "OP");
    t.insert("user_name", SettingValue::Str("JOE".to_string()));
    assert_eq!(t.get_string("user_name", "OP"), "JOE");
    assert_eq!(t.keys(), strings(&["user_name"]));
    t.insert("n", SettingValue::Int(7));
    assert_eq!(t.get_integer("n"), Some(7));
    assert_eq!(t.get_integer("user_name"), None);
}

#[test]
fn merged_defaults_fill_missing_keys_only() {
    let c = create_contest("cwt", CtyDat::empty()).unwrap();
    let mut t = SettingsTable::new();
    t.insert("user_name", SettingValue::Str("ANN".to_string()));
    t.merge_defaults(&c.default_settings());
    assert_eq!(t.get_string("user_name", ""), "ANN");
    assert_eq!(t.get_string("cq_message", ""), "CQ TEST");
}

#[test]
fn user_exchange_uses_settings() {
    let c = create_contest("cwt", CtyDat::empty()).unwrap();
    let mut t = c.default_settings();
    t.insert("user_name", SettingValue::Str("ANN".to_string()));
    t.insert("user_number", SettingValue::Str("123".to_string()));
    let f = c.user_exchange_fields("W1AW", 1, &t);
    assert_eq!(f, strings(&["ANN", "123"]));
    assert_eq!(c.format_user_exchange(&f), "ANN 123");
    let c = create_contest("cqwpx", CtyDat::empty()).unwrap();
    let f = c.user_exchange_fields("W1AW", 7, &c.default_settings());
    assert_eq!(f, strings(&["5NN", "007"]));
}

#[test]
fn sprint_exchange_and_validation() {
    assert_eq!(NaSprintContest::qth_for_callsign("K2ABC"), "NY");
    assert_eq!(NaSprintContest::qth_for_callsign("ABC"), "CA");
    let c = NaSprintContest::new();
    let e = NaSprintContest::exchange_for("W1AW", 12, 0);
    assert_eq!(e.fields[0], "12");
    assert_eq!(e.fields[2], "CT");
    let line = format!("12 {} ct", e.fields[1].to_lowercase());
    let v = c.validate("W1AW", &e, "W1AW", &line);
    assert!(v.callsign_correct && v.exchange_correct);
}
