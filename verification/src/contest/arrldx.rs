//! ARRL DX CW: signal report and state/province (from W/VE stations) or
//! power (from DX stations). One point per QSO.

use vstd::prelude::*;
use crate::contest::common::{
    cw_normalized, normalize_cw_digits, normalize_rst, rst_for_roll, rst_for_roll_spec,
    rst_normalized,
};
use crate::contest::cwt::received_view;
use crate::contest::pool::{
    clone_strings, content_line, content_line_exec, station_view, stations_from_lines,
    trimmed_fields, trimmed_fields_exec, upper_chars, PoolStation, StationListError, StationPool,
};
use crate::contest::types::{
    setting_str, table_get, Exchange, ExchangeField, FieldKind, SettingField, SettingFieldGroup,
    SettingFieldKind, SettingValue, SettingsTable, SpecValue, ValidationResult,
};
use crate::num::all_digits;
use crate::random::random_u64_in;
use crate::text::{
    chars_of, copy_string, eq_ignore_case, is_ascii_digit, split_char, split_chars, str_eq_ignore_case,
    string_of, unicode_upper,
};

verus! {

pub const CONTEST_ID: &'static str = "arrldx";
pub const DISPLAY_NAME: &'static str = "ARRL DX CW";

/// ARRL DX CW contest.
#[derive(Clone, Copy, Debug)]
pub struct ArrlDxContest;

/// ARRL DX logging check: callsign ignoring case; signal reports equal once
/// normalized; exchanges equal with cut-number digits read as digits.
pub open spec fn arrldx_validation(
    expected_call: Seq<char>,
    expected: Seq<Seq<char>>,
    received_call: Seq<char>,
    received: Seq<Seq<char>>,
) -> ValidationResult {
    let call_ok = eq_ignore_case(expected_call, received_call);
    let rst_ok = expected.len() >= 1 && received.len() >= 1 && rst_normalized(expected[0])
        == rst_normalized(received[0]);
    let exch_ok2 = expected.len() >= 2 && received.len() >= 2 && cw_normalized(expected[1])
        == cw_normalized(received[1]);
    let exch_ok = rst_ok && exch_ok2;
    ValidationResult {
        callsign_correct: call_ok,
        exchange_correct: exch_ok,
        points: if call_ok && exch_ok {
            1
        } else {
            0
        },
    }
}

/// A line of an ARRL DX list: `call, name, state, power, ...` with at least
/// four fields and exactly one of state and power given; that one is the
/// exchange. Values are uppercased.
pub open spec fn arrldx_line(line: Seq<char>) -> Option<(Seq<char>, Seq<Seq<char>>)> {
    match content_line(line) {
        None => None,
        Some(t) => {
            let f = trimmed_fields(t);
            if f.len() < 4 {
                None
            } else {
                let c = unicode_upper(f[0]);
                let st = unicode_upper(f[2]);
                let pw = unicode_upper(f[3]);
                if (st.len() > 0) == (pw.len() > 0) || c.len() == 0 {
                    None
                } else if st.len() > 0 {
                    Some((c, seq![st]))
                } else {
                    Some((c, seq![pw]))
                }
            }
        },
    }
}

/// The stations of an ARRL DX list.
pub open spec fn arrldx_list(content: Seq<char>) -> Seq<(Seq<char>, Seq<Seq<char>>)> {
    stations_from_lines(split_char(content, '\n'), |l: Seq<char>| arrldx_line(l))
}

/// Power sent with cut numbers: every `0` sent as `T`.
pub open spec fn cut_zeros(s: Seq<char>) -> Seq<char> {
    s.map_values(|c: char| if c == '0' { 'T' } else { c })
}

/// What a station sends for its exchange on a roll of 0 to 99: a power (all
/// digits) is sent with cut zeros on rolls below 80; anything else as it is.
pub open spec fn sent_exchange(exch: Seq<char>, roll: u64) -> Seq<char> {
    if exch.len() > 0 && all_digits(exch) && roll < 80 {
        cut_zeros(exch)
    } else {
        exch
    }
}

/// The exchange of a station for a signal-report roll and a cut-number roll.
pub fn sent_exchange_for(exch: &str, roll: u64) -> (r: String)
    ensures
        r@ == sent_exchange(exch@, roll),
{
    let v = chars_of(exch);
    let mut digits = v.len() > 0;
    let mut i: usize = 0;
    while i < v.len()
        invariant
            i <= v@.len(),
            digits == (v@.len() > 0 && forall|k: int| 0 <= k < i ==> crate::text::is_digit(#[trigger] v@[k])),
        decreases v@.len() - i,
    {
        if !is_ascii_digit(v[i]) {
            digits = false;
        }
        i = i + 1;
    }
    if digits && roll < 80 {
        let mut out: Vec<char> = Vec::new();
        let mut j: usize = 0;
        while j < v.len()
            invariant
                j <= v@.len(),
                out@ == cut_zeros(v@.take(j as int)),
            decreases v@.len() - j,
        {
            let c = v[j];
            out.push(if c == '0' { 'T' } else { c });
            j = j + 1;
            assert(out@ =~= cut_zeros(v@.take(j as int)));
        }
        assert(v@.take(v@.len() as int) =~= v@);
        string_of(out.as_slice())
    } else {
        copy_string(exch)
    }
}

fn arrldx_line_exec(line: &[char]) -> (r: Option<PoolStation>)
    ensures
        match r {
            Some(s) => arrldx_line(line@) == Some(station_view(s)),
            None => arrldx_line(line@) is None,
        },
{
    let t = match content_line_exec(line) {
        Some(t) => t,
        None => return None,
    };
    let f = trimmed_fields_exec(t.as_slice());
    if f.len() < 4 {
        return None;
    }
    let c = upper_chars(f[0].as_slice());
    let st = upper_chars(f[2].as_slice());
    let pw = upper_chars(f[3].as_slice());
    let cv = chars_of(c.as_str());
    let sv = chars_of(st.as_str());
    let pv = chars_of(pw.as_str());
    if (sv.len() > 0) == (pv.len() > 0) || cv.len() == 0 {
        return None;
    }
    if sv.len() > 0 {
        let s = PoolStation { callsign: c, data: vec![st] };
        assert(station_view(s).1 =~= seq![sv@]);
        Some(s)
    } else {
        let s = PoolStation { callsign: c, data: vec![pw] };
        assert(station_view(s).1 =~= seq![pv@]);
        Some(s)
    }
}

/// Pool of ARRL DX stations with their exchange.
pub struct ArrlDxCallsignSource {
    pool: StationPool,
}

/// The exchange a listed station sends for a signal-report roll and a
/// cut-number roll.
pub open spec fn arrldx_sent_fields(st: (Seq<char>, Seq<Seq<char>>), rst_roll: u64, cut_roll: u64) -> Seq<
    Seq<char>,
> {
    seq![rst_for_roll_spec(rst_roll)@, sent_exchange(first_value(st.1), cut_roll)]
}

/// The first value of a station's data (empty when it has none).
pub open spec fn first_value(d: Seq<Seq<char>>) -> Seq<char> {
    if d.len() > 0 {
        d[0]
    } else {
        Seq::empty()
    }
}

impl ArrlDxCallsignSource {
    pub closed spec fn spec_stations(&self) -> Seq<(Seq<char>, Seq<Seq<char>>)> {
        self.pool.spec_stations()
    }

    /// Whether a station (by callsign) was handed out since the source was
    /// last exhausted or reset.
    pub closed spec fn spec_used(&self, call: Seq<char>) -> bool {
        self.pool.spec_used(call)
    }

    /// Reads an ARRL DX list (`#` and `!` lines are comments). A list without
    /// any valid station gives an error.
    pub fn load(content: &str) -> (r: Result<Self, StationListError>)
        ensures
            match r {
                Ok(p) => p.spec_stations() == arrldx_list(content@) && p.spec_stations().len() > 0
                    && forall|c: Seq<char>| !p.spec_used(c),
                Err(_) => arrldx_list(content@).len() == 0,
            },
    {
        let chars = chars_of(content);
        let lines = split_chars(chars.as_slice(), '\n');
        let ghost slines = split_char(content@, '\n');
        let ghost f = |l: Seq<char>| arrldx_line(l);
        let mut stations: Vec<PoolStation> = Vec::new();
        let mut k: usize = 0;
        assert(slines.take(0) =~= Seq::<Seq<char>>::empty());
        while k < lines.len()
            invariant
                k <= lines@.len(),
                lines@.len() == slines.len(),
                f == (|l: Seq<char>| arrldx_line(l)),
                forall|j: int| 0 <= j < lines@.len() ==> #[trigger] lines@[j]@ == slines[j],
                Seq::new(stations@.len(), |i: int| station_view(stations@[i])) == stations_from_lines(
                    slines.take(k as int),
                    f,
                ),
            decreases lines@.len() - k,
        {
            assert(slines.take(k + 1).drop_last() =~= slines.take(k as int));
            assert(slines.take(k + 1).last() == lines@[k as int]@);
            let ghost before = stations@;
            match arrldx_line_exec(lines[k].as_slice()) {
                Some(s) => {
                    stations.push(s);
                    assert(Seq::new(stations@.len(), |i: int| station_view(stations@[i])) =~= Seq::new(
                        before.len(),
                        |i: int| station_view(before[i]),
                    ).push(station_view(s)));
                },
                None => {},
            }
            k = k + 1;
        }
        assert(slines.take(slines.len() as int) =~= slines);
        if stations.len() == 0 {
            return Err(StationListError::NoValidStations);
        }
        Ok(ArrlDxCallsignSource { pool: StationPool::new(stations) })
    }

    /// The built-in ARRL DX stations.
    pub fn default_pool() -> (p: Self)
        ensures
            forall|c: Seq<char>| !p.spec_used(c),
            p.spec_stations() == seq![
                ("VE2FK"@, seq!["QC"@]),
                ("K3LR"@, seq!["PA"@]),
                ("DL1ABC"@, seq!["100"@]),
                ("JA1ABC"@, seq!["500"@]),
            ],
    {
        let stations = vec![
            PoolStation { callsign: copy_string("VE2FK"), data: vec![copy_string("QC")] },
            PoolStation { callsign: copy_string("K3LR"), data: vec![copy_string("PA")] },
            PoolStation { callsign: copy_string("DL1ABC"), data: vec![copy_string("100")] },
            PoolStation { callsign: copy_string("JA1ABC"), data: vec![copy_string("500")] },
        ];
        let p = ArrlDxCallsignSource { pool: StationPool::new(stations) };
        assert(p.spec_stations() =~~= seq![
            ("VE2FK"@, seq!["QC"@]),
            ("K3LR"@, seq!["PA"@]),
            ("DL1ABC"@, seq!["100"@]),
            ("JA1ABC"@, seq!["500"@]),
        ]);
        p
    }

    /// A random station as (callsign, exchange): a random signal report and
    /// the station's exchange, a power sent with cut zeros 80% of the time.
    /// Stations handed out since the pool was last exhausted are avoided.
    pub fn random(&mut self) -> (r: Option<(String, Exchange)>)
        ensures
            final(self).spec_stations() == old(self).spec_stations(),
            (r is None) == (old(self).spec_stations().len() == 0),
            match r {
                Some((c, e)) => exists|i: int, rst_roll: u64, cut_roll: u64|
                    0 <= i < old(self).spec_stations().len() && rst_roll <= 99 && cut_roll <= 99
                        && old(self).spec_stations()[i].0 == c@ && e.view_fields()
                        == #[trigger] arrldx_sent_fields(old(self).spec_stations()[i], rst_roll, cut_roll),
                None => true,
            },
    {
        match self.pool.random_station() {
            Some(s) => {
                let rst_roll = random_u64_in(0, 99);
                let cut_roll = random_u64_in(0, 99);
                let value = if s.data.len() > 0 {
                    copy_string(s.data[0].as_str())
                } else {
                    String::new()
                };
                assert(value@ == first_value(station_view(s).1));
                let sent = sent_exchange_for(value.as_str(), cut_roll);
                let e = Exchange::new(vec![copy_string(rst_for_roll(rst_roll)), sent]);
                assert(e.view_fields() =~= arrldx_sent_fields(station_view(s), rst_roll, cut_roll));
                let ghost i = choose|i: int|
                    0 <= i < old(self).spec_stations().len() && old(self).spec_stations()[i] == station_view(s);
                assert(e.view_fields() == arrldx_sent_fields(old(self).spec_stations()[i], rst_roll, cut_roll));
                Some((s.callsign, e))
            },
            None => None,
        }
    }

    /// Forgets which stations were handed out.
    pub fn reset(&mut self)
        ensures
            final(self).spec_stations() == old(self).spec_stations(),
            forall|c: Seq<char>| !final(self).spec_used(c),
    {
        self.pool.reset();
    }
}

pub open spec fn arrldx_exchange_fields() -> Seq<ExchangeField> {
    seq![
        ExchangeField {
            label: "RST",
            placeholder: "5NN",
            width_chars: 3,
            kind: FieldKind::Text,
            default_value: Some("5NN"),
            focus_on_enter: false,
        },
        ExchangeField {
            label: "Exchange",
            placeholder: "ST/PWR",
            width_chars: 6,
            kind: FieldKind::Alnum,
            default_value: None,
            focus_on_enter: true,
        },
    ]
}

pub open spec fn arrldx_settings_fields() -> Seq<SettingField> {
    seq![
        SettingField {
            key: "cq_message",
            label: "CQ Message",
            placeholder: "CQ TEST",
            width_chars: 12,
            kind: SettingFieldKind::Text,
            group: SettingFieldGroup::Contest,
        },
        SettingField {
            key: "callsign_file",
            label: "Callsign File",
            placeholder: "arrldx_callsigns.txt",
            width_chars: 24,
            kind: SettingFieldKind::FilePath,
            group: SettingFieldGroup::Contest,
        },
        SettingField {
            key: "user_exchange",
            label: "Your Exchange",
            placeholder: "CT",
            width_chars: 6,
            kind: SettingFieldKind::Text,
            group: SettingFieldGroup::UserExchange,
        },
    ]
}

/// The settings the contest starts with, by key.
pub open spec fn arrldx_defaults(k: Seq<char>) -> Option<SpecValue> {
    if k == "cq_message"@ {
        Some(SpecValue::Str("CQ TEST"@))
    } else if k == "callsign_file"@ {
        Some(SpecValue::Str("arrldx_callsigns.txt"@))
    } else if k == "user_exchange"@ {
        Some(SpecValue::Str("CT"@))
    } else {
        None
    }
}

impl ArrlDxContest {
    pub fn new() -> (c: Self)
        ensures
            c == (ArrlDxContest),
    {
        ArrlDxContest
    }

    pub fn id(&self) -> (s: &'static str)
        ensures
            s == CONTEST_ID,
    {
        CONTEST_ID
    }

    pub fn display_name(&self) -> (s: &'static str)
        ensures
            s == DISPLAY_NAME,
    {
        DISPLAY_NAME
    }

    pub fn exchange_fields(&self) -> (r: Vec<ExchangeField>)
        ensures
            r@ == arrldx_exchange_fields(),
    {
        let r = vec![
            ExchangeField::new("RST", "5NN", 3, FieldKind::Text).with_default_value("5NN"),
            ExchangeField::new("Exchange", "ST/PWR", 6, FieldKind::Alnum).focus_on_enter(),
        ];
        assert(r@ =~= arrldx_exchange_fields());
        r
    }
    pub fn settings_fields(&self) -> (r: Vec<SettingField>)
        ensures
            r@ == arrldx_settings_fields(),
    {
        let r = vec![
            SettingField {
                key: "cq_message",
                label: "CQ Message",
                placeholder: "CQ TEST",
                width_chars: 12,
                kind: SettingFieldKind::Text,
                group: SettingFieldGroup::Contest,
            },
            SettingField {
                key: "callsign_file",
                label: "Callsign File",
                placeholder: "arrldx_callsigns.txt",
                width_chars: 24,
                kind: SettingFieldKind::FilePath,
                group: SettingFieldGroup::Contest,
            },
            SettingField {
                key: "user_exchange",
                label: "Your Exchange",
                placeholder: "CT",
                width_chars: 6,
                kind: SettingFieldKind::Text,
                group: SettingFieldGroup::UserExchange,
            },
        ];
        assert(r@ =~= arrldx_settings_fields());
        r
    }

    pub fn default_settings(&self) -> (t: SettingsTable)
        ensures
            t.wf(),
            forall|k: Seq<char>| #[trigger] table_get(t.view_table(), k) == arrldx_defaults(k),
    {
        proof {
            reveal_strlit("cq_message");
            assert("cq_message"@.len() == 10);
            reveal_strlit("callsign_file");
            assert("callsign_file"@.len() == 13);
            reveal_strlit("user_exchange");
            assert("user_exchange"@.len() == 13);
        }
        let mut t = SettingsTable::new();
        t.insert("cq_message", SettingValue::Str(copy_string("CQ TEST")));
        t.insert("callsign_file", SettingValue::Str(copy_string("arrldx_callsigns.txt")));
        assert(table_get(t.view_table(), "cq_message"@) == Some(SpecValue::Str("CQ TEST"@)));
        assert("user_exchange"@[0] != "callsign_file"@[0]);
        t.insert("user_exchange", SettingValue::Str(copy_string("CT")));
        assert(table_get(t.view_table(), "cq_message"@) == Some(SpecValue::Str("CQ TEST"@)));
        assert(table_get(t.view_table(), "callsign_file"@) == Some(SpecValue::Str("arrldx_callsigns.txt"@)));
        assert forall|k: Seq<char>| #[trigger] table_get(t.view_table(), k) == arrldx_defaults(k) by {}
        t
    }

    /// The CQ message.
    pub fn cq_message(&self, settings: &SettingsTable) -> (s: String)
        ensures
            s@ == setting_str(settings.view_table(), "cq_message"@, "CQ TEST"@),
    {
        settings.get_string("cq_message", "CQ TEST")
    }

    /// The station list file to read.
    pub fn callsign_file(&self, settings: &SettingsTable) -> (s: String)
        ensures
            s@ == setting_str(settings.view_table(), "callsign_file"@, "arrldx_callsigns.txt"@),
    {
        settings.get_string("callsign_file", "arrldx_callsigns.txt")
    }

    /// Exchange for a station that has no list data: `5NN` and the exchange
    /// setting.
    pub fn generate_exchange(&self, callsign: &str, serial: u32, settings: &SettingsTable) -> (e: Exchange)
        ensures
            e.view_fields() == seq!["5NN"@, setting_str(settings.view_table(), "user_exchange"@, "CT"@)],
    {
        let x = settings.get_string("user_exchange", "CT");
        let e = Exchange::new(vec![copy_string("5NN"), x]);
        assert(e.view_fields() =~= seq!["5NN"@, setting_str(settings.view_table(), "user_exchange"@, "CT"@)]);
        e
    }

    /// The user's exchange: `5NN` and the exchange setting.
    pub fn user_exchange_fields(&self, user_callsign: &str, serial: u32, settings: &SettingsTable) -> (r: Vec<String>)
        ensures
            received_view(r@) == seq!["5NN"@, setting_str(settings.view_table(), "user_exchange"@, "CT"@)],
    {
        let x = settings.get_string("user_exchange", "CT");
        let r = vec![copy_string("5NN"), x];
        assert(received_view(r@) =~= seq!["5NN"@, setting_str(settings.view_table(), "user_exchange"@, "CT"@)]);
        r
    }

    /// Checks a logged QSO.
    pub fn validate(
        &self,
        expected_call: &str,
        expected_exchange: &Exchange,
        received_call: &str,
        received_fields: &[String],
        settings: &SettingsTable,
    ) -> (v: ValidationResult)
        ensures
            v == arrldx_validation(
                expected_call@,
                expected_exchange.view_fields(),
                received_call@,
                received_view(received_fields@),
            ),
    {
        let call_ok = str_eq_ignore_case(expected_call, received_call);
        let rst_ok = if expected_exchange.fields.len() >= 1 && received_fields.len() >= 1 {
            let a = normalize_rst(expected_exchange.fields[0].as_str());
            let b = normalize_rst(received_fields[0].as_str());
            a == b
        } else {
            false
        };
        let x_ok = if expected_exchange.fields.len() >= 2 && received_fields.len() >= 2 {
            let a = normalize_cw_digits(expected_exchange.fields[1].as_str());
            let b = normalize_cw_digits(received_fields[1].as_str());
            a == b
        } else {
            false
        };
        let exch_ok = rst_ok && x_ok;
        ValidationResult {
            callsign_correct: call_ok,
            exchange_correct: exch_ok,
            points: if call_ok && exch_ok {
                1
            } else {
                0
            },
        }
    }
}

} // verus!
