//! CQ WPX: signal report and serial number. One point per QSO.

use vstd::prelude::*;
use crate::contest::common::{
    format_serial, normalize_rst, parse_serial, rst_for_roll, rst_for_roll_spec, rst_normalized,
    serial_range, serial_range_spec, serial_settings_check, serial_text, serial_value,
    validate_serial_settings, SerialSettingsError,
};
use crate::contest::cwt::received_view;
use crate::contest::types::{
    setting_str, table_get, Exchange, ExchangeField, FieldKind, SettingField, SettingFieldGroup,
    SettingFieldKind, SettingValue, SettingsTable, SpecValue, ValidationResult,
};
use crate::random::random_u64_in;
use crate::text::{copy_string, eq_ignore_case, str_eq_ignore_case};

verus! {

pub const CONTEST_ID: &'static str = "cqwpx";
pub const DISPLAY_NAME: &'static str = "CQ WPX";

/// Default lowest serial number a calling station sends.
pub const SERIAL_MIN_DEFAULT: i64 = 1000;
/// Default highest serial number a calling station sends.
pub const SERIAL_MAX_DEFAULT: i64 = 2500;

/// CQ WPX contest.
#[derive(Clone, Copy, Debug)]
pub struct CqWpxContest;

/// CQ WPX logging check: callsign ignoring case; signal reports equal once
/// normalized; serial numbers read the same way (cut numbers allowed).
pub open spec fn cqwpx_validation(
    expected_call: Seq<char>,
    expected: Seq<Seq<char>>,
    received_call: Seq<char>,
    received: Seq<Seq<char>>,
) -> ValidationResult {
    let call_ok = eq_ignore_case(expected_call, received_call);
    let rst_ok = expected.len() >= 1 && received.len() >= 1 && rst_normalized(expected[0])
        == rst_normalized(received[0]);
    let serial_ok = expected.len() >= 2 && received.len() >= 2 && serial_value(expected[1])
        == serial_value(received[1]);
    let exch_ok = rst_ok && serial_ok;
    ValidationResult {
        callsign_correct: call_ok,
        exchange_correct: exch_ok,
        points: if call_ok && exch_ok {
            1
        } else {
            0
        },
    }
}

pub open spec fn cqwpx_exchange_fields() -> Seq<ExchangeField> {
    seq![
        ExchangeField {
            label: "RST",
            placeholder: "5NN",
            width_chars: 3,
            kind: FieldKind::Text,
            default_value: Some("5NN"),
            focus_on_enter: false,
        },
        ExchangeField {
            label: "SER",
            placeholder: "SER",
            width_chars: 5,
            kind: FieldKind::Alnum,
            default_value: None,
            focus_on_enter: true,
        },
    ]
}

pub open spec fn cqwpx_settings_fields() -> Seq<SettingField> {
    seq![
        SettingField {
            key: "cq_message",
            label: "CQ Message",
            placeholder: "CQ TEST",
            width_chars: 12,
            kind: SettingFieldKind::Text,
            group: SettingFieldGroup::Contest,
        },
        SettingField {
            key: "callsign_file",
            label: "Callsign File",
            placeholder: "callsigns.txt",
            width_chars: 24,
            kind: SettingFieldKind::FilePath,
            group: SettingFieldGroup::Contest,
        },
        SettingField {
            key: "serial_min",
            label: "Serial Min",
            placeholder: "1000",
            width_chars: 5,
            kind: SettingFieldKind::Integer { min: 1, max: 12000 },
            group: SettingFieldGroup::Contest,
        },
        SettingField {
            key: "serial_max",
            label: "Serial Max",
            placeholder: "2500",
            width_chars: 5,
            kind: SettingFieldKind::Integer { min: 1, max: 12000 },
            group: SettingFieldGroup::Contest,
        },
    ]
}

/// The settings the contest starts with, by key.
pub open spec fn cqwpx_defaults(k: Seq<char>) -> Option<SpecValue> {
    if k == "cq_message"@ {
        Some(SpecValue::Str("CQ TEST"@))
    } else if k == "callsign_file"@ {
        Some(SpecValue::Str("callsigns.txt"@))
    } else if k == "serial_min"@ {
        Some(SpecValue::Int(1000))
    } else if k == "serial_max"@ {
        Some(SpecValue::Int(2500))
    } else {
        None
    }
}

impl CqWpxContest {
    pub fn new() -> (c: Self)
        ensures
            c == (CqWpxContest),
    {
        CqWpxContest
    }

    pub fn id(&self) -> (s: &'static str)
        ensures
            s == CONTEST_ID,
    {
        CONTEST_ID
    }

    pub fn display_name(&self) -> (s: &'static str)
        ensures
            s == DISPLAY_NAME,
    {
        DISPLAY_NAME
    }

    pub fn exchange_fields(&self) -> (r: Vec<ExchangeField>)
        ensures
            r@ == cqwpx_exchange_fields(),
    {
        let r = vec![
            ExchangeField::new("RST", "5NN", 3, FieldKind::Text).with_default_value("5NN"),
            ExchangeField::new("SER", "SER", 5, FieldKind::Alnum).focus_on_enter(),
        ];
        assert(r@ =~= cqwpx_exchange_fields());
        r
    }
    pub fn settings_fields(&self) -> (r: Vec<SettingField>)
        ensures
            r@ == cqwpx_settings_fields(),
    {
        let r = vec![
            SettingField {
                key: "cq_message",
                label: "CQ Message",
                placeholder: "CQ TEST",
                width_chars: 12,
                kind: SettingFieldKind::Text,
                group: SettingFieldGroup::Contest,
            },
            SettingField {
                key: "callsign_file",
                label: "Callsign File",
                placeholder: "callsigns.txt",
                width_chars: 24,
                kind: SettingFieldKind::FilePath,
                group: SettingFieldGroup::Contest,
            },
            SettingField {
                key: "serial_min",
                label: "Serial Min",
                placeholder: "1000",
                width_chars: 5,
                kind: SettingFieldKind::Integer { min: 1, max: 12000 },
                group: SettingFieldGroup::Contest,
            },
            SettingField {
                key: "serial_max",
                label: "Serial Max",
                placeholder: "2500",
                width_chars: 5,
                kind: SettingFieldKind::Integer { min: 1, max: 12000 },
                group: SettingFieldGroup::Contest,
            },
        ];
        assert(r@ =~= cqwpx_settings_fields());
        r
    }

    pub fn default_settings(&self) -> (t: SettingsTable)
        ensures
            t.wf(),
            forall|k: Seq<char>| #[trigger] table_get(t.view_table(), k) == cqwpx_defaults(k),
    {
        proof {
            reveal_strlit("cq_message");
            assert("cq_message"@.len() == 10);
            reveal_strlit("callsign_file");
            assert("callsign_file"@.len() == 13);
            reveal_strlit("serial_min");
            assert("serial_min"@.len() == 10);
            reveal_strlit("serial_max");
            assert("serial_max"@.len() == 10);
        }
        let mut t = SettingsTable::new();
        t.insert("cq_message", SettingValue::Str(copy_string("CQ TEST")));
        t.insert("callsign_file", SettingValue::Str(copy_string("callsigns.txt")));
        assert(table_get(t.view_table(), "cq_message"@) == Some(SpecValue::Str("CQ TEST"@)));
        assert("serial_min"@[0] != "cq_message"@[0]);
        t.insert("serial_min", SettingValue::Int(1000));
        assert(table_get(t.view_table(), "cq_message"@) == Some(SpecValue::Str("CQ TEST"@)));
        assert(table_get(t.view_table(), "callsign_file"@) == Some(SpecValue::Str("callsigns.txt"@)));
        assert("serial_max"@[0] != "cq_message"@[0]);
        assert("serial_max"@[8] != "serial_min"@[8]);
        t.insert("serial_max", SettingValue::Int(2500));
        assert(table_get(t.view_table(), "cq_message"@) == Some(SpecValue::Str("CQ TEST"@)));
        assert(table_get(t.view_table(), "callsign_file"@) == Some(SpecValue::Str("callsigns.txt"@)));
        assert(table_get(t.view_table(), "serial_min"@) == Some(SpecValue::Int(1000)));
        assert forall|k: Seq<char>| #[trigger] table_get(t.view_table(), k) == cqwpx_defaults(k) by {}
        t
    }

    /// Checks the serial-range settings.
    pub fn validate_settings(&self, settings: &SettingsTable) -> (r: Result<(), SerialSettingsError>)
        ensures
            r == serial_settings_check(settings.view_table()),
    {
        validate_serial_settings(settings)
    }

    /// The CQ message.
    pub fn cq_message(&self, settings: &SettingsTable) -> (s: String)
        ensures
            s@ == setting_str(settings.view_table(), "cq_message"@, "CQ TEST"@),
    {
        settings.get_string("cq_message", "CQ TEST")
    }

    /// The callsign list file to read.
    pub fn callsign_file(&self, settings: &SettingsTable) -> (s: String)
        ensures
            s@ == setting_str(settings.view_table(), "callsign_file"@, "callsigns.txt"@),
    {
        settings.get_string("callsign_file", "callsigns.txt")
    }

    /// The range of serial numbers calling stations send.
    pub fn serial_range(&self, settings: &SettingsTable) -> (r: (u32, u32))
        ensures
            (r.0 as int, r.1 as int) == serial_range_spec(
                settings.view_table(),
                SERIAL_MIN_DEFAULT as int,
                SERIAL_MAX_DEFAULT as int,
            ),
            1 <= r.0 <= r.1 <= 12000,
    {
        serial_range(settings, SERIAL_MIN_DEFAULT, SERIAL_MAX_DEFAULT)
    }

    /// The exchange for a signal-report roll of 0 to 99 and a serial number.
    pub fn exchange_for(&self, roll: u64, serial: u32) -> (e: Exchange)
        ensures
            e.view_fields() == seq![rst_for_roll_spec(roll)@, serial_text(serial as nat)],
    {
        let e = Exchange::new(vec![copy_string(rst_for_roll(roll)), format_serial(serial)]);
        assert(e.view_fields() =~= seq![rst_for_roll_spec(roll)@, serial_text(serial as nat)]);
        e
    }

    /// The exchange a calling station sends: a random signal report and a
    /// random serial number in the configured range.
    pub fn generate_exchange(&self, callsign: &str, serial: u32, settings: &SettingsTable) -> (e: Exchange)
        ensures
            exists|roll: u64, n: u32|
                roll <= 99 && serial_range_spec(
                    settings.view_table(),
                    SERIAL_MIN_DEFAULT as int,
                    SERIAL_MAX_DEFAULT as int,
                ).0 <= n <= serial_range_spec(
                    settings.view_table(),
                    SERIAL_MIN_DEFAULT as int,
                    SERIAL_MAX_DEFAULT as int,
                ).1 && e.view_fields() == seq![rst_for_roll_spec(roll)@, serial_text(n as nat)],
    {
        let (lo, hi) = self.serial_range(settings);
        let n = random_u64_in(lo as u64, hi as u64);
        let roll = random_u64_in(0, 99);
        self.exchange_for(roll, n as u32)
    }

    /// The user's exchange: `5NN` and the user's serial number.
    pub fn user_exchange_fields(&self, user_callsign: &str, serial: u32, settings: &SettingsTable) -> (r: Vec<String>)
        ensures
            received_view(r@) == seq!["5NN"@, serial_text(serial as nat)],
    {
        let r = vec![copy_string("5NN"), format_serial(serial)];
        assert(received_view(r@) =~= seq!["5NN"@, serial_text(serial as nat)]);
        r
    }

    /// Checks a logged QSO.
    pub fn validate(
        &self,
        expected_call: &str,
        expected_exchange: &Exchange,
        received_call: &str,
        received_fields: &[String],
        settings: &SettingsTable,
    ) -> (v: ValidationResult)
        ensures
            v == cqwpx_validation(
                expected_call@,
                expected_exchange.view_fields(),
                received_call@,
                received_view(received_fields@),
            ),
    {
        let call_ok = str_eq_ignore_case(expected_call, received_call);
        let rst_ok = if expected_exchange.fields.len() >= 1 && received_fields.len() >= 1 {
            let a = normalize_rst(expected_exchange.fields[0].as_str());
            let b = normalize_rst(received_fields[0].as_str());
            a == b
        } else {
            false
        };
        let serial_ok = if expected_exchange.fields.len() >= 2 && received_fields.len() >= 2 {
            parse_serial(expected_exchange.fields[1].as_str()) == parse_serial(received_fields[1].as_str())
        } else {
            false
        };
        let exch_ok = rst_ok && serial_ok;
        ValidationResult {
            callsign_correct: call_ok,
            exchange_correct: exch_ok,
            points: if call_ok && exch_ok {
                1
            } else {
                0
            },
        }
    }
}

} // verus!
