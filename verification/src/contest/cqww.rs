//! CQ World Wide: signal report and CQ zone, the zone looked up in the
//! country table. One point per QSO.

use vstd::prelude::*;
use crate::contest::common::{normalize_rst, rst_for_roll, rst_for_roll_spec, rst_normalized};
use crate::contest::cwt::received_view;
use crate::contest::types::{
    setting_str, table_get, Exchange, ExchangeField, FieldKind, SettingField, SettingFieldGroup,
    SettingFieldKind, SettingValue, SettingsTable, SpecValue, ValidationResult,
};
use crate::cty::{lookup_entry, CtyDat, SpecCty};
use crate::num::{dec_padded, parse_u8, parse_unsigned, u64_to_string_padded};
use crate::random::random_u64_in;
use crate::text::{copy_string, eq_ignore_case, str_eq_ignore_case, unicode_upper};

verus! {

pub const CONTEST_ID: &'static str = "cqww";
pub const DISPLAY_NAME: &'static str = "CQ World Wide";

/// CQ World Wide contest, with the country table that gives CQ zones.
pub struct CqWwContest {
    cty: CtyDat,
}

/// The CQ zone for a callsign: the one the country table gives, else 5.
pub open spec fn zone_for(db: SpecCty, call: Seq<char>) -> u8 {
    match lookup_entry(db, unicode_upper(call)) {
        Some(e) => e.cq_zone,
        None => 5,
    }
}

/// A zone as it is sent: two digits.
pub open spec fn zone_text(zone: u8) -> Seq<char> {
    dec_padded(zone as nat, 2)
}

/// CQ WW logging check: callsign ignoring case; signal reports equal once
/// normalized; zones equal as numbers (both must parse).
pub open spec fn cqww_validation(
    expected_call: Seq<char>,
    expected: Seq<Seq<char>>,
    received_call: Seq<char>,
    received: Seq<Seq<char>>,
) -> ValidationResult {
    let call_ok = eq_ignore_case(expected_call, received_call);
    let rst_ok = expected.len() >= 1 && received.len() >= 1 && rst_normalized(expected[0])
        == rst_normalized(received[0]);
    let zone_ok = expected.len() >= 2 && received.len() >= 2 && parse_unsigned(expected[1], 255) is Some
        && parse_unsigned(expected[1], 255) == parse_unsigned(received[1], 255);
    let exch_ok = rst_ok && zone_ok;
    ValidationResult {
        callsign_correct: call_ok,
        exchange_correct: exch_ok,
        points: if call_ok && exch_ok {
            1
        } else {
            0
        },
    }
}

pub open spec fn cqww_exchange_fields() -> Seq<ExchangeField> {
    seq![
        ExchangeField {
            label: "RST",
            placeholder: "5NN",
            width_chars: 3,
            kind: FieldKind::Text,
            default_value: Some("5NN"),
            focus_on_enter: false,
        },
        ExchangeField {
            label: "Zone",
            placeholder: "05",
            width_chars: 2,
            kind: FieldKind::Number,
            default_value: None,
            focus_on_enter: true,
        },
    ]
}

pub open spec fn cqww_settings_fields() -> Seq<SettingField> {
    seq![
        SettingField {
            key: "cq_message",
            label: "CQ Message",
            placeholder: "CQ TEST",
            width_chars: 12,
            kind: SettingFieldKind::Text,
            group: SettingFieldGroup::Contest,
        },
        SettingField {
            key: "callsign_file",
            label: "Callsign File",
            placeholder: "callsigns.txt",
            width_chars: 24,
            kind: SettingFieldKind::FilePath,
            group: SettingFieldGroup::Contest,
        },
        SettingField {
            key: "user_zone",
            label: "Your Zone",
            placeholder: "05",
            width_chars: 2,
            kind: SettingFieldKind::Text,
            group: SettingFieldGroup::UserExchange,
        },
    ]
}


/// The settings the contest starts with, by key.
pub open spec fn cqww_defaults(k: Seq<char>) -> Option<SpecValue> {
    if k == "cq_message"@ {
        Some(SpecValue::Str("CQ TEST"@))
    } else if k == "callsign_file"@ {
        Some(SpecValue::Str("callsigns.txt"@))
    } else if k == "user_zone"@ {
        Some(SpecValue::Str("05"@))
    } else {
        None
    }
}

impl CqWwContest {
    pub closed spec fn spec_cty(&self) -> SpecCty {
        self.cty.view_cty()
    }

    /// The contest, with the country table to take zones from.
    pub fn new(cty: CtyDat) -> (c: Self)
        ensures
            c.spec_cty() == cty.view_cty(),
    {
        CqWwContest { cty }
    }

    pub fn id(&self) -> (s: &'static str)
        ensures
            s == CONTEST_ID,
    {
        CONTEST_ID
    }

    pub fn display_name(&self) -> (s: &'static str)
        ensures
            s == DISPLAY_NAME,
    {
        DISPLAY_NAME
    }

    /// The CQ zone of a callsign, from the country table (5 when unknown).
    pub fn zone_for_callsign(&self, callsign: &str) -> (z: u8)
        ensures
            z == zone_for(self.spec_cty(), callsign@),
    {
        match self.cty.lookup_cq_zone(callsign) {
            Some(z) => z,
            None => 5,
        }
    }

    pub fn exchange_fields(&self) -> (r: Vec<ExchangeField>)
        ensures
            r@ == cqww_exchange_fields(),
    {
        let r = vec![
            ExchangeField::new("RST", "5NN", 3, FieldKind::Text).with_default_value("5NN"),
            ExchangeField::new("Zone", "05", 2, FieldKind::Number).focus_on_enter(),
        ];
        assert(r@ =~= cqww_exchange_fields());
        r
    }

    pub fn settings_fields(&self) -> (r: Vec<SettingField>)
        ensures
            r@ == cqww_settings_fields(),
    {
        let r = vec![
            SettingField {
                key: "cq_message",
                label: "CQ Message",
                placeholder: "CQ TEST",
                width_chars: 12,
                kind: SettingFieldKind::Text,
                group: SettingFieldGroup::Contest,
            },
            SettingField {
                key: "callsign_file",
                label: "Callsign File",
                placeholder: "callsigns.txt",
                width_chars: 24,
                kind: SettingFieldKind::FilePath,
                group: SettingFieldGroup::Contest,
            },
            SettingField {
                key: "user_zone",
                label: "Your Zone",
                placeholder: "05",
                width_chars: 2,
                kind: SettingFieldKind::Text,
                group: SettingFieldGroup::UserExchange,
            },
        ];
        assert(r@ =~= cqww_settings_fields());
        r
    }

    pub fn default_settings(&self) -> (t: SettingsTable)
        ensures
            t.wf(),
            forall|k: Seq<char>| #[trigger] table_get(t.view_table(), k) == cqww_defaults(k),
    {
        proof {
            reveal_strlit("cq_message");
            assert("cq_message"@.len() == 10);
            reveal_strlit("callsign_file");
            assert("callsign_file"@.len() == 13);
            reveal_strlit("user_zone");
            assert("user_zone"@.len() == 9);
        }
        let mut t = SettingsTable::new();
        t.insert("cq_message", SettingValue::Str(copy_string("CQ TEST")));
        t.insert("callsign_file", SettingValue::Str(copy_string("callsigns.txt")));
        assert(table_get(t.view_table(), "cq_message"@) == Some(SpecValue::Str("CQ TEST"@)));
        t.insert("user_zone", SettingValue::Str(copy_string("05")));
        assert(table_get(t.view_table(), "cq_message"@) == Some(SpecValue::Str("CQ TEST"@)));
        assert(table_get(t.view_table(), "callsign_file"@) == Some(SpecValue::Str("callsigns.txt"@)));
        assert forall|k: Seq<char>| #[trigger] table_get(t.view_table(), k) == cqww_defaults(k) by {}
        t
    }

    /// The CQ message.
    pub fn cq_message(&self, settings: &SettingsTable) -> (s: String)
        ensures
            s@ == setting_str(settings.view_table(), "cq_message"@, "CQ TEST"@),
    {
        settings.get_string("cq_message", "CQ TEST")
    }

    /// The callsign list file to read.
    pub fn callsign_file(&self, settings: &SettingsTable) -> (s: String)
        ensures
            s@ == setting_str(settings.view_table(), "callsign_file"@, "callsigns.txt"@),
    {
        settings.get_string("callsign_file", "callsigns.txt")
    }

    /// The exchange a station sends, for a signal-report roll of 0 to 99:
    /// the report for the roll and the station's zone.
    pub fn exchange_for_roll(&self, callsign: &str, roll: u64) -> (e: Exchange)
        ensures
            e.view_fields() == seq![
                rst_for_roll_spec(roll)@,
                zone_text(zone_for(self.spec_cty(), callsign@)),
            ],
    {
        let zone = self.zone_for_callsign(callsign);
        let e = Exchange::new(vec![copy_string(rst_for_roll(roll)), u64_to_string_padded(zone as u64, 2)]);
        assert(e.view_fields() =~= seq![
            rst_for_roll_spec(roll)@,
            zone_text(zone_for(self.spec_cty(), callsign@)),
        ]);
        e
    }

    /// The exchange a calling station sends: a random signal report and its zone.
    pub fn generate_exchange(&self, callsign: &str, serial: u32, settings: &SettingsTable) -> (e: Exchange)
        ensures
            exists|roll: u64| roll <= 99 && e.view_fields() == seq![
                rst_for_roll_spec(roll)@,
                zone_text(zone_for(self.spec_cty(), callsign@)),
            ],
    {
        let roll = random_u64_in(0, 99);
        self.exchange_for_roll(callsign, roll)
    }

    /// The user's exchange: `5NN` and the zone from settings (5 when it does
    /// not parse).
    pub fn user_exchange_fields(&self, user_callsign: &str, serial: u32, settings: &SettingsTable) -> (r: Vec<String>)
        ensures
            received_view(r@) == seq![
                "5NN"@,
                zone_text(
                    match parse_unsigned(setting_str(settings.view_table(), "user_zone"@, "05"@), 255) {
                        Some(z) => z as u8,
                        None => 5u8,
                    },
                ),
            ],
    {
        let zs = settings.get_string("user_zone", "05");
        let zone: u8 = match parse_u8(zs.as_str()) {
            Some(z) => z,
            None => 5,
        };
        let r = vec![copy_string("5NN"), u64_to_string_padded(zone as u64, 2)];
        assert(received_view(r@) =~= seq!["5NN"@, zone_text(zone)]);
        r
    }

    /// Checks a logged QSO.
    pub fn validate(
        &self,
        expected_call: &str,
        expected_exchange: &Exchange,
        received_call: &str,
        received_fields: &[String],
        settings: &SettingsTable,
    ) -> (v: ValidationResult)
        ensures
            v == cqww_validation(
                expected_call@,
                expected_exchange.view_fields(),
                received_call@,
                received_view(received_fields@),
            ),
    {
        let call_ok = str_eq_ignore_case(expected_call, received_call);
        let rst_ok = if expected_exchange.fields.len() >= 1 && received_fields.len() >= 1 {
            let a = normalize_rst(expected_exchange.fields[0].as_str());
            let b = normalize_rst(received_fields[0].as_str());
            a == b
        } else {
            false
        };
        let zone_ok = if expected_exchange.fields.len() >= 2 && received_fields.len() >= 2 {
            match (parse_u8(expected_exchange.fields[1].as_str()), parse_u8(received_fields[1].as_str())) {
                (Some(a), Some(b)) => a == b,
                _ => false,
            }
        } else {
            false
        };
        let exch_ok = rst_ok && zone_ok;
        ValidationResult {
            callsign_correct: call_ok,
            exchange_correct: exch_ok,
            points: if call_ok && exch_ok {
                1
            } else {
                0
            },
        }
    }
}

} // verus!
