//! CWT (CW Ops CW Test): exchange of name and member number (or state or
//! country for non-members). One point per QSO.

use vstd::prelude::*;
use crate::contest::types::{
    setting_str, table_get, Exchange, ExchangeField, FieldKind, SettingField, SettingFieldGroup,
    SettingFieldKind, SettingValue, SettingsTable, SpecValue, ValidationResult,
};
use crate::text::{copy_string, eq_ignore_case, str_eq_ignore_case};

verus! {

pub const CONTEST_ID: &'static str = "cwt";
pub const DISPLAY_NAME: &'static str = "CWT";

/// CWT (CW Ops CW Test) contest.
#[derive(Clone, Copy, Debug)]
pub struct CwtContest;

/// Whether received field `i` matches expected field `i`, ignoring ASCII case.
pub open spec fn field_matches(expected: Seq<Seq<char>>, received: Seq<Seq<char>>, i: int) -> bool {
    eq_ignore_case(received[i], expected[i])
}

/// CWT logging check: callsign, name and number each match ignoring case.
pub open spec fn cwt_validation(
    expected_call: Seq<char>,
    expected: Seq<Seq<char>>,
    received_call: Seq<char>,
    received: Seq<Seq<char>>,
) -> ValidationResult {
    let call_ok = eq_ignore_case(expected_call, received_call);
    let exch_ok = expected.len() >= 2 && received.len() >= 2 && field_matches(expected, received, 0)
        && field_matches(expected, received, 1);
    ValidationResult {
        callsign_correct: call_ok,
        exchange_correct: exch_ok,
        points: if call_ok && exch_ok {
            1
        } else {
            0
        },
    }
}

pub open spec fn cwt_exchange_fields() -> Seq<ExchangeField> {
    seq![
        ExchangeField {
            label: "Name",
            placeholder: "BOB",
            width_chars: 8,
            kind: FieldKind::Text,
            default_value: None,
            focus_on_enter: false,
        },
        ExchangeField {
            label: "Number",
            placeholder: "123",
            width_chars: 6,
            kind: FieldKind::Alnum,
            default_value: None,
            focus_on_enter: false,
        },
    ]
}

pub open spec fn cwt_settings_fields() -> Seq<SettingField> {
    seq![
        SettingField {
            key: "cq_message",
            label: "CQ Message",
            placeholder: "CQ TEST",
            width_chars: 12,
            kind: SettingFieldKind::Text,
            group: SettingFieldGroup::Contest,
        },
        SettingField {
            key: "callsign_file",
            label: "CWT Callsign File",
            placeholder: "cwt_callsigns.txt",
            width_chars: 24,
            kind: SettingFieldKind::FilePath,
            group: SettingFieldGroup::Contest,
        },
        SettingField {
            key: "user_name",
            label: "Your Name",
            placeholder: "OP",
            width_chars: 8,
            kind: SettingFieldKind::Text,
            group: SettingFieldGroup::UserExchange,
        },
        SettingField {
            key: "user_number",
            label: "Your Number",
            placeholder: "CT",
            width_chars: 6,
            kind: SettingFieldKind::Text,
            group: SettingFieldGroup::UserExchange,
        },
    ]
}

/// Compares two fields ignoring ASCII case.
pub fn fields_match(expected: &Exchange, received: &[String], i: usize) -> (b: bool)
    requires
        i < expected.fields@.len(),
        i < received@.len(),
    ensures
        b == eq_ignore_case(received@[i as int]@, expected.view_fields()[i as int]),
{
    str_eq_ignore_case(received[i].as_str(), expected.fields[i].as_str())
}

pub open spec fn received_view(received: Seq<String>) -> Seq<Seq<char>> {
    Seq::new(received.len(), |i: int| received[i]@)
}

/// The settings the contest starts with, by key.
pub open spec fn cwt_defaults(k: Seq<char>) -> Option<SpecValue> {
    if k == "cq_message"@ {
        Some(SpecValue::Str("CQ TEST"@))
    } else if k == "callsign_file"@ {
        Some(SpecValue::Str("cwt_callsigns.txt"@))
    } else if k == "user_name"@ {
        Some(SpecValue::Str("OP"@))
    } else if k == "user_number"@ {
        Some(SpecValue::Str("CT"@))
    } else {
        None
    }
}

impl CwtContest {
    pub fn new() -> (c: Self)
        ensures
            c == (CwtContest),
    {
        CwtContest
    }

    pub fn id(&self) -> (s: &'static str)
        ensures
            s == CONTEST_ID,
    {
        CONTEST_ID
    }

    pub fn display_name(&self) -> (s: &'static str)
        ensures
            s == DISPLAY_NAME,
    {
        DISPLAY_NAME
    }

    /// Name and number fields.
    pub fn exchange_fields(&self) -> (r: Vec<ExchangeField>)
        ensures
            r@ == cwt_exchange_fields(),
    {
        let r = vec![
            ExchangeField::new("Name", "BOB", 8, FieldKind::Text),
            ExchangeField::new("Number", "123", 6, FieldKind::Alnum),
        ];
        assert(r@ =~= cwt_exchange_fields());
        r
    }

    pub fn settings_fields(&self) -> (r: Vec<SettingField>)
        ensures
            r@ == cwt_settings_fields(),
    {
        let r = vec![
            SettingField {
                key: "cq_message",
                label: "CQ Message",
                placeholder: "CQ TEST",
                width_chars: 12,
                kind: SettingFieldKind::Text,
                group: SettingFieldGroup::Contest,
            },
            SettingField {
                key: "callsign_file",
                label: "CWT Callsign File",
                placeholder: "cwt_callsigns.txt",
                width_chars: 24,
                kind: SettingFieldKind::FilePath,
                group: SettingFieldGroup::Contest,
            },
            SettingField {
                key: "user_name",
                label: "Your Name",
                placeholder: "OP",
                width_chars: 8,
                kind: SettingFieldKind::Text,
                group: SettingFieldGroup::UserExchange,
            },
            SettingField {
                key: "user_number",
                label: "Your Number",
                placeholder: "CT",
                width_chars: 6,
                kind: SettingFieldKind::Text,
                group: SettingFieldGroup::UserExchange,
            },
        ];
        assert(r@ =~= cwt_settings_fields());
        r
    }

    /// Default settings.
    pub fn default_settings(&self) -> (t: SettingsTable)
        ensures
            t.wf(),
            forall|k: Seq<char>| #[trigger] table_get(t.view_table(), k) == cwt_defaults(k),
    {
        proof {
            reveal_strlit("cq_message");
            assert("cq_message"@.len() == 10);
            reveal_strlit("callsign_file");
            assert("callsign_file"@.len() == 13);
            reveal_strlit("user_name");
            assert("user_name"@.len() == 9);
            reveal_strlit("user_number");
            assert("user_number"@.len() == 11);
        }
        let mut t = SettingsTable::new();
        t.insert("cq_message", SettingValue::Str(copy_string("CQ TEST")));
        t.insert("callsign_file", SettingValue::Str(copy_string("cwt_callsigns.txt")));
        assert(table_get(t.view_table(), "cq_message"@) == Some(SpecValue::Str("CQ TEST"@)));
        t.insert("user_name", SettingValue::Str(copy_string("OP")));
        assert(table_get(t.view_table(), "cq_message"@) == Some(SpecValue::Str("CQ TEST"@)));
        assert(table_get(t.view_table(), "callsign_file"@) == Some(SpecValue::Str("cwt_callsigns.txt"@)));
        t.insert("user_number", SettingValue::Str(copy_string("CT")));
        assert(table_get(t.view_table(), "cq_message"@) == Some(SpecValue::Str("CQ TEST"@)));
        assert(table_get(t.view_table(), "callsign_file"@) == Some(SpecValue::Str("cwt_callsigns.txt"@)));
        assert(table_get(t.view_table(), "user_name"@) == Some(SpecValue::Str("OP"@)));
        assert forall|k: Seq<char>| #[trigger] table_get(t.view_table(), k) == cwt_defaults(k) by {}
        t
    }

    /// The CQ message.
    pub fn cq_message(&self, settings: &SettingsTable) -> (s: String)
        ensures
            s@ == setting_str(settings.view_table(), "cq_message"@, "CQ TEST"@),
    {
        settings.get_string("cq_message", "CQ TEST")
    }

    /// The station list file to read.
    pub fn callsign_file(&self, settings: &SettingsTable) -> (s: String)
        ensures
            s@ == setting_str(settings.view_table(), "callsign_file"@, "cwt_callsigns.txt"@),
    {
        settings.get_string("callsign_file", "cwt_callsigns.txt")
    }

    /// Exchange for a station that has no list data.
    pub fn generate_exchange(&self, callsign: &str, serial: u32, settings: &SettingsTable) -> (e: Exchange)
        ensures
            e.view_fields() == seq!["BOB"@, "1234"@],
    {
        let e = Exchange::new(vec![copy_string("BOB"), copy_string("1234")]);
        assert(e.view_fields() =~= seq!["BOB"@, "1234"@]);
        e
    }

    /// The user's exchange: name and number from settings.
    pub fn user_exchange_fields(&self, user_callsign: &str, serial: u32, settings: &SettingsTable) -> (r: Vec<String>)
        ensures
            received_view(r@) == seq![
                setting_str(settings.view_table(), "user_name"@, "OP"@),
                setting_str(settings.view_table(), "user_number"@, "CT"@),
            ],
    {
        let name = settings.get_string("user_name", "OP");
        let number = settings.get_string("user_number", "CT");
        let r = vec![name, number];
        assert(received_view(r@) =~= seq![
            setting_str(settings.view_table(), "user_name"@, "OP"@),
            setting_str(settings.view_table(), "user_number"@, "CT"@),
        ]);
        r
    }

    /// Checks a logged QSO.
    pub fn validate(
        &self,
        expected_call: &str,
        expected_exchange: &Exchange,
        received_call: &str,
        received_fields: &[String],
        settings: &SettingsTable,
    ) -> (v: ValidationResult)
        ensures
            v == cwt_validation(
                expected_call@,
                expected_exchange.view_fields(),
                received_call@,
                received_view(received_fields@),
            ),
    {
        let call_ok = str_eq_ignore_case(expected_call, received_call);
        let exch_ok = if expected_exchange.fields.len() >= 2 && received_fields.len() >= 2 {
            fields_match(expected_exchange, received_fields, 0) && fields_match(
                expected_exchange,
                received_fields,
                1,
            )
        } else {
            false
        };
        ValidationResult {
            callsign_correct: call_ok,
            exchange_correct: exch_ok,
            points: if call_ok && exch_ok {
                1
            } else {
                0
            },
        }
    }
}

} // verus!
