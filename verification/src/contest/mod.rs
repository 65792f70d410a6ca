//! Contests: shared types, callsign sources, the contest rules, and the
//! registry of contests.

pub mod arrldx;
pub mod callsign;
pub mod common;
pub mod cqwpx;
pub mod cqww;
pub mod cwt;
pub mod pool;
pub mod sprint;
pub mod sweepstakes;
pub mod types;

use vstd::prelude::*;
use crate::contest::arrldx::{
    arrldx_defaults, arrldx_exchange_fields, arrldx_sent_fields, arrldx_settings_fields, arrldx_validation, ArrlDxCallsignSource,
    ArrlDxContest,
};
use crate::contest::callsign::{default_callsigns, list_callsigns, FileCallsignSource, PoolError};
use crate::contest::common::{
    join_fields, join_spaces, rst_for_roll_spec, serial_range_spec, serial_settings_check,
    serial_text, SerialSettingsError,
};
use crate::contest::cqwpx::{cqwpx_defaults, cqwpx_exchange_fields, cqwpx_settings_fields, cqwpx_validation, CqWpxContest};
use crate::contest::cqww::{
    cqww_defaults, cqww_exchange_fields, cqww_settings_fields, cqww_validation, zone_for, zone_text, CqWwContest,
};
use crate::contest::cwt::{
    cwt_defaults, cwt_exchange_fields, cwt_settings_fields, cwt_validation, received_view, CwtContest,
};
use crate::contest::pool::StationListError;
use crate::contest::sweepstakes::{
    precedence, ss_defaults, ss_exchange_fields, ss_fields, ss_section, ss_sent_fields, ss_settings_fields,
    ss_validation, SweepstakesCallsignSource, SweepstakesContest,
};
use crate::contest::types::{
    setting_str, table_get, Exchange, ExchangeField, SettingField, SettingsTable, SpecValue,
    ValidationResult,
};
use crate::cty::CtyDat;
use crate::num::{lemma_dec_padded_parses, parse_unsigned};
use crate::contest::arrldx::arrldx_list;
use crate::contest::sweepstakes::{nth_value, ss_list};
use crate::station::callsign::{cwt_list, CwtCallsignPool};
use crate::text::{ascii_upper, chars_eq, chars_of, eq_ignore_case, is_upper_ascii, split_char, unicode_upper};

verus! {

/// One of the contests the trainer runs.
pub enum AnyContest {
    ArrlDx(ArrlDxContest),
    CqWpx(CqWpxContest),
    CqWw(CqWwContest),
    Cwt(CwtContest),
    Sweepstakes(SweepstakesContest),
}

/// A contest in the registry: its id and display name.
#[derive(Clone, Copy, Debug)]
pub struct ContestDescriptor {
    pub id: &'static str,
    pub display_name: &'static str,
}

/// The contest ids of the registry, in order.
pub open spec fn registry_ids() -> Seq<Seq<char>> {
    seq![
        crate::contest::arrldx::CONTEST_ID@,
        crate::contest::cqwpx::CONTEST_ID@,
        crate::contest::cqww::CONTEST_ID@,
        crate::contest::cwt::CONTEST_ID@,
        crate::contest::sweepstakes::CONTEST_ID@,
    ]
}

/// The display names of the registry, in order.
pub open spec fn registry_names() -> Seq<Seq<char>> {
    seq![
        crate::contest::arrldx::DISPLAY_NAME@,
        crate::contest::cqwpx::DISPLAY_NAME@,
        crate::contest::cqww::DISPLAY_NAME@,
        crate::contest::cwt::DISPLAY_NAME@,
        crate::contest::sweepstakes::DISPLAY_NAME@,
    ]
}

/// The contests, in order of their ids.
pub fn registry() -> (r: Vec<ContestDescriptor>)
    ensures
        r@.len() == 5,
        forall|i: int| 0 <= i < 5 ==> (#[trigger] r@[i]).id@ == registry_ids()[i] && r@[i].display_name@
            == registry_names()[i],
{
    let r = vec![
        ContestDescriptor {
            id: crate::contest::arrldx::CONTEST_ID,
            display_name: crate::contest::arrldx::DISPLAY_NAME,
        },
        ContestDescriptor {
            id: crate::contest::cqwpx::CONTEST_ID,
            display_name: crate::contest::cqwpx::DISPLAY_NAME,
        },
        ContestDescriptor {
            id: crate::contest::cqww::CONTEST_ID,
            display_name: crate::contest::cqww::DISPLAY_NAME,
        },
        ContestDescriptor { id: crate::contest::cwt::CONTEST_ID, display_name: crate::contest::cwt::DISPLAY_NAME },
        ContestDescriptor {
            id: crate::contest::sweepstakes::CONTEST_ID,
            display_name: crate::contest::sweepstakes::DISPLAY_NAME,
        },
    ];
    r
}

/// The id of a contest.
pub open spec fn contest_id(c: AnyContest) -> &'static str {
    match c {
        AnyContest::ArrlDx(_) => crate::contest::arrldx::CONTEST_ID,
        AnyContest::CqWpx(_) => crate::contest::cqwpx::CONTEST_ID,
        AnyContest::CqWw(_) => crate::contest::cqww::CONTEST_ID,
        AnyContest::Cwt(_) => crate::contest::cwt::CONTEST_ID,
        AnyContest::Sweepstakes(_) => crate::contest::sweepstakes::CONTEST_ID,
    }
}

proof fn lemma_registry_ids_distinct()
    ensures
        forall|i: int, j: int| 0 <= i < j < 5 ==> registry_ids()[i] != registry_ids()[j],
{
    reveal_strlit("arrldx");
    reveal_strlit("cqwpx");
    reveal_strlit("cqww");
    reveal_strlit("cwt");
    reveal_strlit("sweepstakes");
    assert("arrldx"@.len() == 6);
    assert("cqwpx"@.len() == 5);
    assert("cqww"@.len() == 4);
    assert("cwt"@.len() == 3);
    assert("sweepstakes"@.len() == 11);
}

/// Makes the contest with the given id; CQ WW takes its zones from `cty`.
/// An unknown id gives nothing.
pub fn create_contest(id: &str, cty: CtyDat) -> (r: Option<AnyContest>)
    ensures
        match r {
            Some(c) => contest_id(c)@ == id@ && (c matches AnyContest::CqWw(w) ==> w.spec_cty()
                == cty.view_cty()),
            None => !registry_ids().contains(id@),
        },
{
    proof {
        lemma_registry_ids_distinct();
    }
    let v = chars_of(id);
    let a = chars_of(crate::contest::arrldx::CONTEST_ID);
    let b = chars_of(crate::contest::cqwpx::CONTEST_ID);
    let c = chars_of(crate::contest::cqww::CONTEST_ID);
    let d = chars_of(crate::contest::cwt::CONTEST_ID);
    let e = chars_of(crate::contest::sweepstakes::CONTEST_ID);
    if chars_eq(v.as_slice(), a.as_slice()) {
        Some(AnyContest::ArrlDx(ArrlDxContest::new()))
    } else if chars_eq(v.as_slice(), b.as_slice()) {
        Some(AnyContest::CqWpx(CqWpxContest::new()))
    } else if chars_eq(v.as_slice(), c.as_slice()) {
        Some(AnyContest::CqWw(CqWwContest::new(cty)))
    } else if chars_eq(v.as_slice(), d.as_slice()) {
        Some(AnyContest::Cwt(CwtContest::new()))
    } else if chars_eq(v.as_slice(), e.as_slice()) {
        Some(AnyContest::Sweepstakes(SweepstakesContest::new()))
    } else {
        assert(forall|i: int| 0 <= i < 5 ==> registry_ids()[i] != id@);
        None
    }
}

/// The id of the first contest of the registry.
pub fn default_contest_id() -> (r: Option<&'static str>)
    ensures
        r matches Some(s) && s@ == registry_ids()[0],
{
    let reg = registry();
    if reg.len() > 0 {
        Some(reg[0].id)
    } else {
        None
    }
}

/// The settings a contest starts with, by key.
pub open spec fn default_value(c: AnyContest, k: Seq<char>) -> Option<SpecValue> {
    match c {
        AnyContest::ArrlDx(_) => arrldx_defaults(k),
        AnyContest::CqWpx(_) => cqwpx_defaults(k),
        AnyContest::CqWw(_) => cqww_defaults(k),
        AnyContest::Cwt(_) => cwt_defaults(k),
        AnyContest::Sweepstakes(_) => ss_defaults(k),
    }
}

/// The exchange fields the user logs in a contest.
pub open spec fn exchange_fields_of(c: AnyContest) -> Seq<ExchangeField> {
    match c {
        AnyContest::ArrlDx(_) => arrldx_exchange_fields(),
        AnyContest::CqWpx(_) => cqwpx_exchange_fields(),
        AnyContest::CqWw(_) => cqww_exchange_fields(),
        AnyContest::Cwt(_) => cwt_exchange_fields(),
        AnyContest::Sweepstakes(_) => ss_exchange_fields(),
    }
}

/// What an exchange field starts with: its default value, or nothing.
pub open spec fn default_input(f: ExchangeField) -> Seq<char> {
    match f.default_value {
        Some(v) => v@,
        None => Seq::empty(),
    }
}

/// The station list file a contest reads when the setting is missing.
pub open spec fn default_callsign_file(c: AnyContest) -> Seq<char> {
    match c {
        AnyContest::ArrlDx(_) => "arrldx_callsigns.txt"@,
        AnyContest::CqWpx(_) => "callsigns.txt"@,
        AnyContest::CqWw(_) => "callsigns.txt"@,
        AnyContest::Cwt(_) => "cwt_callsigns.txt"@,
        AnyContest::Sweepstakes(_) => "ss_callsigns.txt"@,
    }
}

/// What a contest accepts as the exchange it makes up for a station without
/// list data.
pub open spec fn generated_ok(c: AnyContest, call: Seq<char>, t: Seq<(Seq<char>, SpecValue)>, e: Seq<Seq<char>>) -> bool {
    match c {
        AnyContest::ArrlDx(_) => e == seq!["5NN"@, setting_str(t, "user_exchange"@, "CT"@)],
        AnyContest::CqWpx(_) => exists|roll: u64, n: u32|
            roll <= 99 && serial_range_spec(t, 1000, 2500).0 <= n <= serial_range_spec(t, 1000, 2500).1
                && e == seq![rst_for_roll_spec(roll)@, serial_text(n as nat)],
        AnyContest::CqWw(w) => exists|roll: u64|
            roll <= 99 && e == seq![rst_for_roll_spec(roll)@, zone_text(zone_for(w.spec_cty(), call))],
        AnyContest::Cwt(_) => e == seq!["BOB"@, "1234"@],
        AnyContest::Sweepstakes(_) => exists|p: int, n: nat, ck: nat|
            0 <= p < 6 && serial_range_spec(t, 100, 400).0 <= n <= serial_range_spec(t, 100, 400).1 && 60
                <= ck <= 99 && e == #[trigger] ss_fields(n, precedence(p), call, ck, ss_section(call)),
    }
}

/// The user's exchange fields in a contest.
pub open spec fn user_fields(c: AnyContest, call: Seq<char>, serial: u32, t: Seq<(Seq<char>, SpecValue)>) -> Seq<
    Seq<char>,
> {
    match c {
        AnyContest::ArrlDx(_) => seq!["5NN"@, setting_str(t, "user_exchange"@, "CT"@)],
        AnyContest::CqWpx(_) => seq!["5NN"@, serial_text(serial as nat)],
        AnyContest::CqWw(_) => seq![
            "5NN"@,
            zone_text(
                match parse_unsigned(setting_str(t, "user_zone"@, "05"@), 255) {
                    Some(z) => z as u8,
                    None => 5u8,
                },
            ),
        ],
        AnyContest::Cwt(_) => seq![setting_str(t, "user_name"@, "OP"@), setting_str(t, "user_number"@, "CT"@)],
        AnyContest::Sweepstakes(_) => seq![
            serial_text(serial as nat),
            setting_str(t, "user_precedence"@, "A"@),
            call,
            setting_str(t, "user_check"@, "99"@),
            setting_str(t, "user_section"@, "CT"@),
        ],
    }
}

/// A contest's logging check.
pub open spec fn contest_validation(
    c: AnyContest,
    expected_call: Seq<char>,
    expected: Seq<Seq<char>>,
    received_call: Seq<char>,
    received: Seq<Seq<char>>,
) -> ValidationResult {
    match c {
        AnyContest::ArrlDx(_) => arrldx_validation(expected_call, expected, received_call, received),
        AnyContest::CqWpx(_) => cqwpx_validation(expected_call, expected, received_call, received),
        AnyContest::CqWw(_) => cqww_validation(expected_call, expected, received_call, received),
        AnyContest::Cwt(_) => cwt_validation(expected_call, expected, received_call, received),
        AnyContest::Sweepstakes(_) => ss_validation(expected_call, expected, received_call, received),
    }
}

/// A contest's check of its settings: the serial-number range for the
/// contests that send serial numbers; nothing to check for the others.
pub open spec fn settings_check(c: AnyContest, t: Seq<(Seq<char>, SpecValue)>) -> Result<(), SerialSettingsError> {
    match c {
        AnyContest::CqWpx(_) => serial_settings_check(t),
        AnyContest::Sweepstakes(_) => serial_settings_check(t),
        _ => Ok(()),
    }
}

/// The fields a user logs for an exchange as it was sent: in Sweepstakes the
/// sent callsign field is logged as the callsign, not again, so serial,
/// precedence, check and section remain; elsewhere every field is logged.
pub open spec fn copied_fields(c: AnyContest, e: Seq<Seq<char>>) -> Seq<Seq<char>> {
    match c {
        AnyContest::Sweepstakes(_) => seq![e[0], e[1], e[3], e[4]],
        _ => e,
    }
}

/// Points of a QSO with callsign and exchange right.
pub open spec fn full_points(c: AnyContest) -> u32 {
    match c {
        AnyContest::Sweepstakes(_) => 2,
        _ => 1,
    }
}

/// A sent exchange that a faithful copy of it can be checked against: it has
/// the contest's fields; in CQ WW its zone is a number; in Sweepstakes its
/// precedence is one capital letter that uppercasing keeps.
pub open spec fn checkable(c: AnyContest, e: Seq<Seq<char>>) -> bool {
    match c {
        AnyContest::CqWw(_) => e.len() >= 2 && parse_unsigned(e[1], 255) is Some,
        AnyContest::Sweepstakes(_) => e.len() >= 5 && e[1].len() == 1 && is_upper_ascii(e[1][0])
            && unicode_upper(e[1]) == e[1],
        _ => e.len() >= 2,
    }
}

/// Logging the callsign and the exchange exactly as the station sent them is
/// judged right in every contest and scores the contest's full points.
pub proof fn lemma_faithful_copy_is_correct(c: AnyContest, call: Seq<char>, e: Seq<Seq<char>>)
    requires
        checkable(c, e),
    ensures
        ({
            let v = contest_validation(c, call, e, call, copied_fields(c, e));
            v.callsign_correct && v.exchange_correct && v.points == full_points(c)
        }),
{
    assert(eq_ignore_case(call, call));
    if e.len() >= 2 {
        assert(eq_ignore_case(e[0], e[0]) && eq_ignore_case(e[1], e[1]));
    }
    if let AnyContest::Sweepstakes(_) = c {
        assert(seq![ascii_upper(e[1][0])] =~= e[1]);
    }
}

/// In every contest a QSO scores only when the callsign and the exchange were
/// both copied right, and then its contest's full points; a wrong callsign
/// (ignoring case) is never judged right and scores nothing.
pub proof fn lemma_validation_scores(
    c: AnyContest,
    expected_call: Seq<char>,
    expected: Seq<Seq<char>>,
    received_call: Seq<char>,
    received: Seq<Seq<char>>,
)
    ensures
        ({
            let v = contest_validation(c, expected_call, expected, received_call, received);
            &&& v.points > 0 <==> v.callsign_correct && v.exchange_correct
            &&& v.points > 0 ==> v.points == full_points(c)
            &&& !eq_ignore_case(expected_call, received_call) ==> !v.callsign_correct && v.points == 0
        }),
{
}

/// ARRL DX: the signal report and the state or power each count. When
/// either logged field differs from the one sent (signal reports once
/// normalized, the state or power once trimmed, uppercased and read with
/// cut numbers as digits), or is missing, the exchange is wrong and the QSO
/// scores nothing.
pub proof fn lemma_arrldx_every_field_counts(
    c: AnyContest,
    expected_call: Seq<char>,
    expected: Seq<Seq<char>>,
    received_call: Seq<char>,
    received: Seq<Seq<char>>,
)
    requires
        c is ArrlDx,
    ensures
        ({
            let v = contest_validation(c, expected_call, expected, received_call, received);
            &&& received.len() < 2 || expected.len() < 2 ==> !v.exchange_correct && v.points == 0
            &&& expected.len() >= 2 && received.len() >= 2 && crate::contest::common::rst_normalized(expected[0])
                != crate::contest::common::rst_normalized(received[0]) ==> !v.exchange_correct && v.points == 0
            &&& expected.len() >= 2 && received.len() >= 2 && crate::contest::common::cw_normalized(expected[1])
                != crate::contest::common::cw_normalized(received[1]) ==> !v.exchange_correct && v.points == 0
        }),
{
}

/// CQ WPX: the signal report and the serial number each count; a logged
/// serial of another value (cut numbers read as digits) or a different
/// report makes the exchange wrong and scores nothing.
pub proof fn lemma_cqwpx_every_field_counts(
    c: AnyContest,
    expected_call: Seq<char>,
    expected: Seq<Seq<char>>,
    received_call: Seq<char>,
    received: Seq<Seq<char>>,
)
    requires
        c is CqWpx,
    ensures
        ({
            let v = contest_validation(c, expected_call, expected, received_call, received);
            &&& received.len() < 2 || expected.len() < 2 ==> !v.exchange_correct && v.points == 0
            &&& expected.len() >= 2 && received.len() >= 2 && crate::contest::common::rst_normalized(expected[0])
                != crate::contest::common::rst_normalized(received[0]) ==> !v.exchange_correct && v.points == 0
            &&& expected.len() >= 2 && received.len() >= 2 && crate::contest::common::serial_value(expected[1])
                != crate::contest::common::serial_value(received[1]) ==> !v.exchange_correct && v.points == 0
        }),
{
}

/// CQ WW: the signal report and the zone each count; a logged zone of
/// another number makes the exchange wrong and scores nothing.
pub proof fn lemma_cqww_every_field_counts(
    c: AnyContest,
    expected_call: Seq<char>,
    expected: Seq<Seq<char>>,
    received_call: Seq<char>,
    received: Seq<Seq<char>>,
)
    requires
        c is CqWw,
    ensures
        ({
            let v = contest_validation(c, expected_call, expected, received_call, received);
            &&& received.len() < 2 || expected.len() < 2 ==> !v.exchange_correct && v.points == 0
            &&& expected.len() >= 2 && received.len() >= 2 && crate::contest::common::rst_normalized(expected[0])
                != crate::contest::common::rst_normalized(received[0]) ==> !v.exchange_correct && v.points == 0
            &&& expected.len() >= 2 && received.len() >= 2 && parse_unsigned(expected[1], 255) != parse_unsigned(
                received[1],
                255,
            ) ==> !v.exchange_correct && v.points == 0
        }),
{
}

/// CWT: the name and the member number (or QTH) each count; either logged
/// differently from what was sent, ignoring case, makes the exchange wrong
/// and scores nothing.
pub proof fn lemma_cwt_every_field_counts(
    c: AnyContest,
    expected_call: Seq<char>,
    expected: Seq<Seq<char>>,
    received_call: Seq<char>,
    received: Seq<Seq<char>>,
)
    requires
        c is Cwt,
    ensures
        ({
            let v = contest_validation(c, expected_call, expected, received_call, received);
            &&& received.len() < 2 || expected.len() < 2 ==> !v.exchange_correct && v.points == 0
            &&& expected.len() >= 2 && received.len() >= 2 && !eq_ignore_case(expected[0], received[0])
                ==> !v.exchange_correct && v.points == 0
            &&& expected.len() >= 2 && received.len() >= 2 && !eq_ignore_case(expected[1], received[1])
                ==> !v.exchange_correct && v.points == 0
        }),
{
}

/// Sweepstakes: serial, precedence, check and section each count. A logged
/// serial of another value, a precedence other than the one sent, a check of
/// another number, or a section other than the one sent (ignoring case)
/// makes the exchange wrong and scores nothing.
pub proof fn lemma_ss_every_field_counts(
    c: AnyContest,
    expected_call: Seq<char>,
    expected: Seq<Seq<char>>,
    received_call: Seq<char>,
    received: Seq<Seq<char>>,
)
    requires
        c is Sweepstakes,
    ensures
        ({
            let v = contest_validation(c, expected_call, expected, received_call, received);
            &&& received.len() < 4 || expected.len() < 5 ==> !v.exchange_correct && v.points == 0
            &&& received.len() >= 4 && expected.len() >= 5 && crate::contest::common::serial_value(expected[0])
                != crate::contest::common::serial_value(received[0]) ==> !v.exchange_correct && v.points == 0
            &&& received.len() >= 4 && expected.len() >= 5 && (received[1].len() == 0 || seq![ascii_upper(received[1][0])]
                != unicode_upper(expected[1])) ==> !v.exchange_correct && v.points == 0
            &&& received.len() >= 4 && expected.len() >= 5 && parse_unsigned(received[2], 65535) != parse_unsigned(
                expected[3],
                65535,
            ) ==> !v.exchange_correct && v.points == 0
            &&& received.len() >= 4 && expected.len() >= 5 && unicode_upper(received[3]) != unicode_upper(expected[4])
                ==> !v.exchange_correct && v.points == 0
        }),
{
}

/// The exchanges a contest makes up can be checked against, the Sweepstakes
/// precedence as far as uppercasing keeps it.
pub proof fn lemma_generated_is_checkable(
    c: AnyContest,
    call: Seq<char>,
    t: Seq<(Seq<char>, SpecValue)>,
    e: Seq<Seq<char>>,
)
    requires
        generated_ok(c, call, t, e),
        c is Sweepstakes ==> unicode_upper(e[1]) == e[1],
    ensures
        checkable(c, e),
{
    if let AnyContest::CqWw(w) = c {
        lemma_dec_padded_parses(zone_for(w.spec_cty(), call) as nat, 2, 255);
    }
}

impl AnyContest {
    pub fn id(&self) -> (s: &'static str)
        ensures
            s == contest_id(*self),
    {
        match self {
            AnyContest::ArrlDx(c) => c.id(),
            AnyContest::CqWpx(c) => c.id(),
            AnyContest::CqWw(c) => c.id(),
            AnyContest::Cwt(c) => c.id(),
            AnyContest::Sweepstakes(c) => c.id(),
        }
    }

    pub fn display_name(&self) -> (s: &'static str)
        ensures
            s == match *self {
                AnyContest::ArrlDx(_) => crate::contest::arrldx::DISPLAY_NAME,
                AnyContest::CqWpx(_) => crate::contest::cqwpx::DISPLAY_NAME,
                AnyContest::CqWw(_) => crate::contest::cqww::DISPLAY_NAME,
                AnyContest::Cwt(_) => crate::contest::cwt::DISPLAY_NAME,
                AnyContest::Sweepstakes(_) => crate::contest::sweepstakes::DISPLAY_NAME,
            },
    {
        match self {
            AnyContest::ArrlDx(c) => c.display_name(),
            AnyContest::CqWpx(c) => c.display_name(),
            AnyContest::CqWw(c) => c.display_name(),
            AnyContest::Cwt(c) => c.display_name(),
            AnyContest::Sweepstakes(c) => c.display_name(),
        }
    }

    /// The exchange fields the user logs.
    pub fn exchange_fields(&self) -> (r: Vec<ExchangeField>)
        ensures
            r@ == exchange_fields_of(*self),
    {
        match self {
            AnyContest::ArrlDx(c) => c.exchange_fields(),
            AnyContest::CqWpx(c) => c.exchange_fields(),
            AnyContest::CqWw(c) => c.exchange_fields(),
            AnyContest::Cwt(c) => c.exchange_fields(),
            AnyContest::Sweepstakes(c) => c.exchange_fields(),
        }
    }

    /// The contest's settings schema.
    pub fn settings_fields(&self) -> (r: Vec<SettingField>)
        ensures
            r@ == match *self {
                AnyContest::ArrlDx(_) => arrldx_settings_fields(),
                AnyContest::CqWpx(_) => cqwpx_settings_fields(),
                AnyContest::CqWw(_) => cqww_settings_fields(),
                AnyContest::Cwt(_) => cwt_settings_fields(),
                AnyContest::Sweepstakes(_) => ss_settings_fields(),
            },
    {
        match self {
            AnyContest::ArrlDx(c) => c.settings_fields(),
            AnyContest::CqWpx(c) => c.settings_fields(),
            AnyContest::CqWw(c) => c.settings_fields(),
            AnyContest::Cwt(c) => c.settings_fields(),
            AnyContest::Sweepstakes(c) => c.settings_fields(),
        }
    }

    /// The settings the contest starts with.
    pub fn default_settings(&self) -> (t: SettingsTable)
        ensures
            t.wf(),
            forall|k: Seq<char>| #[trigger] table_get(t.view_table(), k) == default_value(*self, k),
    {
        match self {
            AnyContest::ArrlDx(c) => c.default_settings(),
            AnyContest::CqWpx(c) => c.default_settings(),
            AnyContest::CqWw(c) => c.default_settings(),
            AnyContest::Cwt(c) => c.default_settings(),
            AnyContest::Sweepstakes(c) => c.default_settings(),
        }
    }

    /// Checks the contest settings: the serial range for CQ WPX and
    /// Sweepstakes; the others accept any settings.
    pub fn validate_settings(&self, settings: &SettingsTable) -> (r: Result<(), SerialSettingsError>)
        ensures
            r == settings_check(*self, settings.view_table()),
    {
        match self {
            AnyContest::CqWpx(c) => c.validate_settings(settings),
            AnyContest::Sweepstakes(c) => c.validate_settings(settings),
            _ => Ok(()),
        }
    }

    /// The CQ message.
    pub fn cq_message(&self, settings: &SettingsTable) -> (s: String)
        ensures
            s@ == setting_str(settings.view_table(), "cq_message"@, "CQ TEST"@),
    {
        settings.get_string("cq_message", "CQ TEST")
    }

    /// The station list file to read.
    pub fn callsign_file(&self, settings: &SettingsTable) -> (s: String)
        ensures
            s@ == setting_str(settings.view_table(), "callsign_file"@, default_callsign_file(*self)),
    {
        match self {
            AnyContest::ArrlDx(c) => c.callsign_file(settings),
            AnyContest::CqWpx(c) => c.callsign_file(settings),
            AnyContest::CqWw(c) => c.callsign_file(settings),
            AnyContest::Cwt(c) => c.callsign_file(settings),
            AnyContest::Sweepstakes(c) => c.callsign_file(settings),
        }
    }

    /// The exchange made up for a station without list data.
    pub fn generate_exchange(&self, callsign: &str, serial: u32, settings: &SettingsTable) -> (e: Exchange)
        ensures
            generated_ok(*self, callsign@, settings.view_table(), e.view_fields()),
    {
        match self {
            AnyContest::ArrlDx(c) => c.generate_exchange(callsign, serial, settings),
            AnyContest::CqWpx(c) => c.generate_exchange(callsign, serial, settings),
            AnyContest::CqWw(c) => c.generate_exchange(callsign, serial, settings),
            AnyContest::Cwt(c) => c.generate_exchange(callsign, serial, settings),
            AnyContest::Sweepstakes(c) => c.generate_exchange(callsign, serial, settings),
        }
    }

    /// An exchange as sent in CW: its fields separated by spaces.
    pub fn format_exchange(&self, exchange: &Exchange) -> (s: String)
        ensures
            s@ == join_spaces(exchange.view_fields()),
    {
        let s = join_fields(exchange.fields.as_slice());
        assert(Seq::new(exchange.fields@.len(), |i: int| exchange.fields@[i]@) =~= exchange.view_fields());
        s
    }

    /// The user's exchange fields.
    pub fn user_exchange_fields(&self, user_callsign: &str, serial: u32, settings: &SettingsTable) -> (r: Vec<String>)
        ensures
            received_view(r@) == user_fields(*self, user_callsign@, serial, settings.view_table()),
    {
        match self {
            AnyContest::ArrlDx(c) => c.user_exchange_fields(user_callsign, serial, settings),
            AnyContest::CqWpx(c) => c.user_exchange_fields(user_callsign, serial, settings),
            AnyContest::CqWw(c) => c.user_exchange_fields(user_callsign, serial, settings),
            AnyContest::Cwt(c) => c.user_exchange_fields(user_callsign, serial, settings),
            AnyContest::Sweepstakes(c) => c.user_exchange_fields(user_callsign, serial, settings),
        }
    }

    /// The user's exchange as sent in CW: fields separated by spaces.
    pub fn format_user_exchange(&self, fields: &[String]) -> (s: String)
        ensures
            s@ == join_spaces(received_view(fields@)),
    {
        join_fields(fields)
    }

    /// A logged exchange for display: fields separated by spaces.
    pub fn format_received_exchange(&self, fields: &[String]) -> (s: String)
        ensures
            s@ == join_spaces(received_view(fields@)),
    {
        join_fields(fields)
    }

    /// Checks a logged QSO.
    pub fn validate(
        &self,
        expected_call: &str,
        expected_exchange: &Exchange,
        received_call: &str,
        received_fields: &[String],
        settings: &SettingsTable,
    ) -> (v: ValidationResult)
        ensures
            v == contest_validation(
                *self,
                expected_call@,
                expected_exchange.view_fields(),
                received_call@,
                received_view(received_fields@),
            ),
    {
        match self {
            AnyContest::ArrlDx(c) => c.validate(expected_call, expected_exchange, received_call, received_fields, settings),
            AnyContest::CqWpx(c) => c.validate(expected_call, expected_exchange, received_call, received_fields, settings),
            AnyContest::CqWw(c) => c.validate(expected_call, expected_exchange, received_call, received_fields, settings),
            AnyContest::Cwt(c) => c.validate(expected_call, expected_exchange, received_call, received_fields, settings),
            AnyContest::Sweepstakes(c) => c.validate(
                expected_call,
                expected_exchange,
                received_call,
                received_fields,
                settings,
            ),
        }
    }
}

/// Where the stations calling in a contest come from.
pub enum AnySource {
    /// A callsign list; exchanges made up by the contest.
    File(FileCallsignSource),
    /// CWT stations with name and number.
    Cwt(CwtCallsignPool),
    /// ARRL DX stations with state or power.
    ArrlDx(ArrlDxCallsignSource),
    /// Sweepstakes stations with section and check.
    Sweepstakes(SweepstakesCallsignSource),
}

/// The callsigns a source hands out.
pub open spec fn source_calls(s: AnySource) -> Seq<Seq<char>> {
    match s {
        AnySource::File(f) => f.spec_callsigns(),
        AnySource::Cwt(p) => p.spec_stations().map_values(|st: (Seq<char>, Seq<Seq<char>>)| st.0),
        AnySource::ArrlDx(p) => p.spec_stations().map_values(|st: (Seq<char>, Seq<Seq<char>>)| st.0),
        AnySource::Sweepstakes(p) => p.spec_stations().map_values(
            |st: (Seq<char>, Seq<Seq<char>>)| st.0,
        ),
    }
}

/// What a source may hand out as (callsign, exchange).
pub open spec fn source_gives(
    s: AnySource,
    contest: AnyContest,
    t: Seq<(Seq<char>, SpecValue)>,
    c: Seq<char>,
    e: Seq<Seq<char>>,
) -> bool {
    match s {
        AnySource::File(f) => f.spec_callsigns().contains(c) && generated_ok(contest, c, t, e),
        AnySource::Cwt(p) => p.spec_stations().contains((c, e)),
        AnySource::ArrlDx(p) => exists|i: int, rst_roll: u64, cut_roll: u64|
            0 <= i < p.spec_stations().len() && rst_roll <= 99 && cut_roll <= 99 && p.spec_stations()[i].0
                == c && e == #[trigger] arrldx_sent_fields(p.spec_stations()[i], rst_roll, cut_roll),
        AnySource::Sweepstakes(p) => exists|i: int, n: nat, pr: int|
            0 <= i < p.spec_stations().len() && serial_range_spec(t, 100, 400).0 <= n <= serial_range_spec(
                t,
                100,
                400,
            ).1 && 0 <= pr < 6 && p.spec_stations()[i].0 == c && #[trigger] ss_sent_fields(
                p.spec_stations()[i],
                n,
                pr,
            ) == Some(e),
    }
}

/// A source that may hand out nothing: it has no station, or (Sweepstakes)
/// one of its stations has a check that is not a number.
pub open spec fn source_can_run_dry(s: AnySource) -> bool {
    source_calls(s).len() == 0 || match s {
        AnySource::Sweepstakes(p) => exists|i: int|
            0 <= i < p.spec_stations().len() && parse_unsigned(
                nth_value((#[trigger] p.spec_stations()[i]).1, 1),
                65535,
            ) is None,
        _ => false,
    }
}

/// Two states of a source hold the same stations (which of them were
/// handed out may differ).
pub open spec fn same_stations(a: AnySource, b: AnySource) -> bool {
    match (a, b) {
        (AnySource::File(x), AnySource::File(y)) => x.spec_callsigns() == y.spec_callsigns(),
        (AnySource::Cwt(x), AnySource::Cwt(y)) => x.spec_stations() == y.spec_stations(),
        (AnySource::ArrlDx(x), AnySource::ArrlDx(y)) => x.spec_stations() == y.spec_stations(),
        (AnySource::Sweepstakes(x), AnySource::Sweepstakes(y)) => x.spec_stations() == y.spec_stations(),
        _ => false,
    }
}

impl AnySource {
    /// A random station as (callsign, exchange), avoiding the ones handed out
    /// since the source was last exhausted.
    pub fn random(&mut self, contest: &AnyContest, serial: u32, settings: &SettingsTable) -> (r: Option<
        (String, Exchange),
    >)
        ensures
            same_stations(*old(self), *final(self)),
            source_calls(*final(self)) == source_calls(*old(self)),
            match r {
                Some((c, e)) => source_gives(*old(self), *contest, settings.view_table(), c@, e.view_fields()),
                None => source_can_run_dry(*old(self)),
            },
            source_calls(*old(self)).len() == 0 ==> r is None,
    {
        match self {
            AnySource::File(f) => f.random(contest, serial, settings),
            AnySource::Cwt(p) => p.random(),
            AnySource::ArrlDx(p) => p.random(),
            AnySource::Sweepstakes(p) => p.random(settings),
        }
    }
}

/// The source a contest draws stations from, given the station list that
/// was read (`None` when it could not be read): the list when it holds a
/// valid station, else the built-in stations.
pub open spec fn source_for(c: AnyContest, content: Option<Seq<char>>, s: AnySource) -> bool {
    match c {
        AnyContest::Cwt(_) => s matches AnySource::Cwt(p) && p.spec_stations() == match content {
            Some(t) if cwt_list(t).len() > 0 => cwt_list(t),
            _ => seq![
                ("W1AW"@, seq!["JOE"@, "1"@]),
                ("K5ZD"@, seq!["RANDY"@, "2"@]),
                ("N1MM"@, seq!["TOM"@, "100"@]),
                ("K3LR"@, seq!["TIM"@, "55"@]),
                ("W9RE"@, seq!["MIKE"@, "IN"@]),
            ],
        },
        AnyContest::ArrlDx(_) => s matches AnySource::ArrlDx(p) && p.spec_stations() == match content {
            Some(t) if arrldx_list(t).len() > 0 => arrldx_list(t),
            _ => seq![
                ("VE2FK"@, seq!["QC"@]),
                ("K3LR"@, seq!["PA"@]),
                ("DL1ABC"@, seq!["100"@]),
                ("JA1ABC"@, seq!["500"@]),
            ],
        },
        AnyContest::Sweepstakes(_) => s matches AnySource::Sweepstakes(p) && p.spec_stations() == match content {
            Some(t) if ss_list(t).len() > 0 => ss_list(t),
            _ => seq![
                ("W1AW"@, seq!["CT"@, "38"@]),
                ("K5ZD"@, seq!["EMA"@, "90"@]),
                ("N0AX"@, seq!["WCF"@, "72"@]),
                ("K3LR"@, seq!["WPA"@, "79"@]),
            ],
        },
        _ => s matches AnySource::File(f) && f.spec_callsigns() == match content {
            Some(t) if list_callsigns(split_char(t, '\n')).len() > 0 => list_callsigns(split_char(t, '\n')),
            _ => default_callsigns(),
        },
    }
}

impl AnyContest {
    /// The source of calling stations, from the station list the contest
    /// reads (its content, or `None` when it could not be read).
    pub fn callsign_source(&self, content: Option<&str>) -> (s: AnySource)
        ensures
            source_for(
                *self,
                match content {
                    Some(t) => Some(t@),
                    None => None,
                },
                s,
            ),
    {
        match self {
            AnyContest::Cwt(_) => {
                let loaded = match content {
                    Some(t) => match CwtCallsignPool::load(t) {
                        Ok(p) => Some(p),
                        Err(_) => None,
                    },
                    None => None,
                };
                match loaded {
                    Some(p) => AnySource::Cwt(p),
                    None => AnySource::Cwt(CwtCallsignPool::default_pool()),
                }
            },
            AnyContest::ArrlDx(_) => {
                let loaded = match content {
                    Some(t) => match ArrlDxCallsignSource::load(t) {
                        Ok(p) => Some(p),
                        Err(_) => None,
                    },
                    None => None,
                };
                match loaded {
                    Some(p) => AnySource::ArrlDx(p),
                    None => AnySource::ArrlDx(ArrlDxCallsignSource::default_pool()),
                }
            },
            AnyContest::Sweepstakes(_) => {
                let loaded = match content {
                    Some(t) => match SweepstakesCallsignSource::load(t) {
                        Ok(p) => Some(p),
                        Err(_) => None,
                    },
                    None => None,
                };
                match loaded {
                    Some(p) => AnySource::Sweepstakes(p),
                    None => AnySource::Sweepstakes(SweepstakesCallsignSource::default_pool()),
                }
            },
            _ => {
                let loaded = match content {
                    Some(t) => match FileCallsignSource::load(t) {
                        Ok(p) => Some(p),
                        Err(_) => None,
                    },
                    None => None,
                };
                match loaded {
                    Some(p) => AnySource::File(p),
                    None => AnySource::File(FileCallsignSource::default_pool()),
                }
            },
        }
    }
}

} // verus!
