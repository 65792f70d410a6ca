//! ARRL Sweepstakes: serial, precedence, callsign, check and section. Two
//! points per QSO.

use vstd::prelude::*;
use crate::contest::callsign::valid_callsign;
use crate::contest::common::{
    first_digit, first_digit_of, format_serial, parse_serial, serial_range, serial_range_spec,
    serial_settings_check, serial_text, serial_value, validate_serial_settings, SerialSettingsError,
};
use crate::contest::cwt::received_view;
use crate::contest::pool::{
    content_line, content_line_exec, station_view, stations_from_lines, trimmed_fields,
    trimmed_fields_exec, upper_chars, PoolStation, StationListError, StationPool,
};
use crate::contest::types::{
    setting_str, table_get, Exchange, ExchangeField, FieldKind, SettingField, SettingFieldGroup,
    SettingFieldKind, SettingValue, SettingsTable, SpecValue, ValidationResult,
};
use crate::num::{all_digits, dec_padded, parse_unsigned, parse_unsigned_chars, u64_to_string_padded};
use crate::random::{random_below, random_u64_in};
use crate::text::{
    ascii_upper, chars_of, copy_string, eq_ignore_case, is_ascii_digit, split_char, split_chars,
    str_eq_ignore_case, string_of, to_ascii_upper, to_upper, unicode_upper,
};

verus! {

pub const CONTEST_ID: &'static str = "sweepstakes";
pub const DISPLAY_NAME: &'static str = "ARRL Sweepstakes";

/// Default lowest serial number a calling station sends.
pub const SERIAL_MIN_DEFAULT: i64 = 100;
/// Default highest serial number a calling station sends.
pub const SERIAL_MAX_DEFAULT: i64 = 400;

/// ARRL Sweepstakes contest.
#[derive(Clone, Copy, Debug)]
pub struct SweepstakesContest;

/// The precedences, in order: Q, A, B, U, M, S.
pub open spec fn precedence(i: int) -> char {
    if i == 0 {
        'Q'
    } else if i == 1 {
        'A'
    } else if i == 2 {
        'B'
    } else if i == 3 {
        'U'
    } else if i == 4 {
        'M'
    } else {
        'S'
    }
}

fn precedence_exec(i: usize) -> (c: char)
    ensures
        c == precedence(i as int),
{
    if i == 0 {
        'Q'
    } else if i == 1 {
        'A'
    } else if i == 2 {
        'B'
    } else if i == 3 {
        'U'
    } else if i == 4 {
        'M'
    } else {
        'S'
    }
}

/// The ARRL section guessed from a callsign's call area.
pub open spec fn ss_section(call: Seq<char>) -> Seq<char> {
    match first_digit(call) {
        Some('1') => "CT"@,
        Some('2') => "NNJ"@,
        Some('3') => "EPA"@,
        Some('4') => "VA"@,
        Some('5') => "NTX"@,
        Some('6') => "SDG"@,
        Some('7') => "OR"@,
        Some('8') => "OH"@,
        Some('9') => "IL"@,
        Some('0') => "CO"@,
        _ => "SDG"@,
    }
}

/// A check sent as two digits.
pub open spec fn check_text(check: nat) -> Seq<char> {
    dec_padded(check, 2)
}

/// A Sweepstakes exchange: serial, precedence, callsign, check, section.
pub open spec fn ss_fields(serial: nat, prec: char, call: Seq<char>, check: nat, section: Seq<char>) -> Seq<
    Seq<char>,
> {
    seq![serial_text(serial), seq![prec], call, check_text(check), section]
}

/// The precedence field matches: the first received character, uppercased,
/// is the expected precedence uppercased.
pub open spec fn precedence_matches(received: Seq<char>, expected: Seq<char>) -> bool {
    received.len() > 0 && seq![ascii_upper(received[0])] == unicode_upper(expected)
}

/// Sweepstakes logging check. The user logs serial, precedence, check and
/// section; they are held against fields 0, 1, 3 and 4 of what was sent.
pub open spec fn ss_validation(
    expected_call: Seq<char>,
    expected: Seq<Seq<char>>,
    received_call: Seq<char>,
    received: Seq<Seq<char>>,
) -> ValidationResult {
    let call_ok = eq_ignore_case(expected_call, received_call);
    let exch_ok = received.len() >= 4 && expected.len() >= 5 && serial_value(expected[0])
        == serial_value(received[0]) && precedence_matches(received[1], expected[1])
        && parse_unsigned(received[2], 65535) == parse_unsigned(expected[3], 65535) && unicode_upper(
        received[3],
    ) == unicode_upper(expected[4]);
    ValidationResult {
        callsign_correct: call_ok,
        exchange_correct: exch_ok,
        points: if call_ok && exch_ok {
            2
        } else {
            0
        },
    }
}

/// A line of a Sweepstakes list: `call, section, state, check, ...` with at
/// least four fields, callsign, section and check present, the check all
/// digits and the callsign valid. Values are uppercased; the station's data
/// is (section, check).
pub open spec fn ss_line(line: Seq<char>) -> Option<(Seq<char>, Seq<Seq<char>>)> {
    match content_line(line) {
        None => None,
        Some(t) => {
            let f = trimmed_fields(t);
            if f.len() < 4 {
                None
            } else {
                let c = unicode_upper(f[0]);
                let sec = unicode_upper(f[1]);
                let ck = unicode_upper(f[3]);
                if c.len() > 0 && sec.len() > 0 && ck.len() > 0 && all_digits(ck) && valid_callsign(c) {
                    Some((c, seq![sec, ck]))
                } else {
                    None
                }
            }
        },
    }
}

/// The stations of a Sweepstakes list.
pub open spec fn ss_list(content: Seq<char>) -> Seq<(Seq<char>, Seq<Seq<char>>)> {
    stations_from_lines(split_char(content, '\n'), |l: Seq<char>| ss_line(l))
}

/// Value `k` of a station's data (empty when missing).
pub open spec fn nth_value(d: Seq<Seq<char>>, k: int) -> Seq<char> {
    if 0 <= k < d.len() {
        d[k]
    } else {
        Seq::empty()
    }
}

/// What a listed station sends for a serial number and a precedence index:
/// nothing when its check does not fit a `u16`.
pub open spec fn ss_sent_fields(st: (Seq<char>, Seq<Seq<char>>), serial: nat, prec: int) -> Option<
    Seq<Seq<char>>,
> {
    match parse_unsigned(nth_value(st.1, 1), 65535) {
        Some(ck) => Some(ss_fields(serial, precedence(prec), st.0, ck, nth_value(st.1, 0))),
        None => None,
    }
}

fn ss_line_exec(line: &[char]) -> (r: Option<PoolStation>)
    ensures
        match r {
            Some(s) => ss_line(line@) == Some(station_view(s)),
            None => ss_line(line@) is None,
        },
{
    let t = match content_line_exec(line) {
        Some(t) => t,
        None => return None,
    };
    let f = trimmed_fields_exec(t.as_slice());
    if f.len() < 4 {
        return None;
    }
    let c = upper_chars(f[0].as_slice());
    let sec = upper_chars(f[1].as_slice());
    let ck = upper_chars(f[3].as_slice());
    let cv = chars_of(c.as_str());
    let sv = chars_of(sec.as_str());
    let kv = chars_of(ck.as_str());
    if cv.len() == 0 || sv.len() == 0 || kv.len() == 0 {
        return None;
    }
    if !crate::num::all_digits_chars(kv.as_slice()) {
        return None;
    }
    if !crate::contest::callsign::is_valid_callsign_chars(cv.as_slice()) {
        return None;
    }
    let s = PoolStation { callsign: c, data: vec![sec, ck] };
    assert(station_view(s).1 =~= seq![sv@, kv@]);
    Some(s)
}

fn value_at(d: &Vec<String>, k: usize) -> (r: String)
    ensures
        r@ == nth_value(Seq::new(d@.len(), |i: int| d@[i]@), k as int),
{
    if k < d.len() {
        copy_string(d[k].as_str())
    } else {
        String::new()
    }
}

/// Pool of Sweepstakes stations with their section and check.
pub struct SweepstakesCallsignSource {
    pool: StationPool,
}

impl SweepstakesCallsignSource {
    pub closed spec fn spec_stations(&self) -> Seq<(Seq<char>, Seq<Seq<char>>)> {
        self.pool.spec_stations()
    }

    /// Whether a station (by callsign) was handed out since the source was
    /// last exhausted or reset.
    pub closed spec fn spec_used(&self, call: Seq<char>) -> bool {
        self.pool.spec_used(call)
    }

    /// Reads a Sweepstakes list (`#` and `!` lines are comments). A list
    /// without any valid station gives an error.
    pub fn load(content: &str) -> (r: Result<Self, StationListError>)
        ensures
            match r {
                Ok(p) => p.spec_stations() == ss_list(content@) && p.spec_stations().len() > 0
                    && forall|c: Seq<char>| !p.spec_used(c),
                Err(_) => ss_list(content@).len() == 0,
            },
    {
        let chars = chars_of(content);
        let lines = split_chars(chars.as_slice(), '\n');
        let ghost slines = split_char(content@, '\n');
        let ghost f = |l: Seq<char>| ss_line(l);
        let mut stations: Vec<PoolStation> = Vec::new();
        let mut k: usize = 0;
        assert(slines.take(0) =~= Seq::<Seq<char>>::empty());
        while k < lines.len()
            invariant
                k <= lines@.len(),
                lines@.len() == slines.len(),
                f == (|l: Seq<char>| ss_line(l)),
                forall|j: int| 0 <= j < lines@.len() ==> #[trigger] lines@[j]@ == slines[j],
                Seq::new(stations@.len(), |i: int| station_view(stations@[i])) == stations_from_lines(
                    slines.take(k as int),
                    f,
                ),
            decreases lines@.len() - k,
        {
            assert(slines.take(k + 1).drop_last() =~= slines.take(k as int));
            assert(slines.take(k + 1).last() == lines@[k as int]@);
            let ghost before = stations@;
            match ss_line_exec(lines[k].as_slice()) {
                Some(s) => {
                    stations.push(s);
                    assert(Seq::new(stations@.len(), |i: int| station_view(stations@[i])) =~= Seq::new(
                        before.len(),
                        |i: int| station_view(before[i]),
                    ).push(station_view(s)));
                },
                None => {},
            }
            k = k + 1;
        }
        assert(slines.take(slines.len() as int) =~= slines);
        if stations.len() == 0 {
            return Err(StationListError::NoValidStations);
        }
        Ok(SweepstakesCallsignSource { pool: StationPool::new(stations) })
    }

    /// The built-in Sweepstakes stations.
    pub fn default_pool() -> (p: Self)
        ensures
            forall|c: Seq<char>| !p.spec_used(c),
            p.spec_stations() == seq![
                ("W1AW"@, seq!["CT"@, "38"@]),
                ("K5ZD"@, seq!["EMA"@, "90"@]),
                ("N0AX"@, seq!["WCF"@, "72"@]),
                ("K3LR"@, seq!["WPA"@, "79"@]),
            ],
    {
        let stations = vec![
            PoolStation { callsign: copy_string("W1AW"), data: vec![copy_string("CT"), copy_string("38")] },
            PoolStation { callsign: copy_string("K5ZD"), data: vec![copy_string("EMA"), copy_string("90")] },
            PoolStation { callsign: copy_string("N0AX"), data: vec![copy_string("WCF"), copy_string("72")] },
            PoolStation { callsign: copy_string("K3LR"), data: vec![copy_string("WPA"), copy_string("79")] },
        ];
        let p = SweepstakesCallsignSource { pool: StationPool::new(stations) };
        assert(p.spec_stations() =~~= seq![
            ("W1AW"@, seq!["CT"@, "38"@]),
            ("K5ZD"@, seq!["EMA"@, "90"@]),
            ("N0AX"@, seq!["WCF"@, "72"@]),
            ("K3LR"@, seq!["WPA"@, "79"@]),
        ]);
        p
    }

    /// The exchange a listed station sends for a serial number and a
    /// precedence index below 6: nothing when its check does not fit a `u16`.
    pub fn exchange_for(st: &PoolStation, serial: u32, prec: usize) -> (r: Option<Exchange>)
        requires
            prec < 6,
        ensures
            match r {
                Some(e) => ss_sent_fields(station_view(*st), serial as nat, prec as int) == Some(
                    e.view_fields(),
                ),
                None => ss_sent_fields(station_view(*st), serial as nat, prec as int) is None,
            },
    {
        let section = value_at(&st.data, 0);
        let check = value_at(&st.data, 1);
        let cv = chars_of(check.as_str());
        let ck = match parse_unsigned_chars(cv.as_slice(), 65535) {
            Some(x) => x,
            None => return None,
        };
        let p = precedence_exec(prec);
        let pv = vec![p];
        assert(pv@ =~= seq![p]);
        let ps = string_of(pv.as_slice());
        let f0 = format_serial(serial);
        let f2 = copy_string(st.callsign.as_str());
        let f3 = u64_to_string_padded(ck, 2);
        assert(f3@ == check_text(ck as nat));
        let e = Exchange::new(vec![f0, ps, f2, f3, section]);
        assert(e.view_fields() =~= ss_fields(
            serial as nat,
            precedence(prec as int),
            st.callsign@,
            ck as nat,
            nth_value(station_view(*st).1, 0),
        ));
        Some(e)
    }

    /// A random station as (callsign, exchange): a random serial number in
    /// the configured range, a random precedence, and the station's check and
    /// section. Stations handed out since the pool was last exhausted are
    /// avoided. Nothing comes when the pool is empty or the station's check
    /// does not fit a `u16`.
    pub fn random(&mut self, settings: &SettingsTable) -> (r: Option<(String, Exchange)>)
        ensures
            final(self).spec_stations() == old(self).spec_stations(),
            match r {
                Some((c, e)) => exists|i: int, n: nat, p: int|
                    0 <= i < old(self).spec_stations().len() && serial_range_spec(
                        settings.view_table(),
                        SERIAL_MIN_DEFAULT as int,
                        SERIAL_MAX_DEFAULT as int,
                    ).0 <= n <= serial_range_spec(
                        settings.view_table(),
                        SERIAL_MIN_DEFAULT as int,
                        SERIAL_MAX_DEFAULT as int,
                    ).1 && 0 <= p < 6 && old(self).spec_stations()[i].0 == c@ && #[trigger] ss_sent_fields(
                        old(self).spec_stations()[i],
                        n,
                        p,
                    ) == Some(e.view_fields()),
                None => old(self).spec_stations().len() == 0 || exists|i: int|
                    0 <= i < old(self).spec_stations().len() && parse_unsigned(
                        nth_value((#[trigger] old(self).spec_stations()[i]).1, 1),
                        65535,
                    ) is None,
            },
    {
        match self.pool.random_station() {
            Some(s) => {
                let (lo, hi) = serial_range(settings, SERIAL_MIN_DEFAULT, SERIAL_MAX_DEFAULT);
                let n = random_u64_in(lo as u64, hi as u64) as u32;
                let p = random_below(6);
                let ghost i = choose|i: int|
                    0 <= i < old(self).spec_stations().len() && old(self).spec_stations()[i] == station_view(s);
                match Self::exchange_for(&s, n, p) {
                    Some(e) => {
                        assert(ss_sent_fields(old(self).spec_stations()[i], n as nat, p as int) == Some(
                            e.view_fields(),
                        ));
                        Some((s.callsign, e))
                    },
                    None => {
                        assert(old(self).spec_stations()[i] == station_view(s));
                        None
                    },
                }
            },
            None => None,
        }
    }

    /// Forgets which stations were handed out.
    pub fn reset(&mut self)
        ensures
            final(self).spec_stations() == old(self).spec_stations(),
            forall|c: Seq<char>| !final(self).spec_used(c),
    {
        self.pool.reset();
    }
}

pub open spec fn ss_exchange_fields() -> Seq<ExchangeField> {
    seq![
        ExchangeField {
            label: "NR",
            placeholder: "001",
            width_chars: 4,
            kind: FieldKind::Number,
            default_value: None,
            focus_on_enter: false,
        },
        ExchangeField {
            label: "P",
            placeholder: "A",
            width_chars: 1,
            kind: FieldKind::Text,
            default_value: None,
            focus_on_enter: false,
        },
        ExchangeField {
            label: "CK",
            placeholder: "99",
            width_chars: 2,
            kind: FieldKind::Number,
            default_value: None,
            focus_on_enter: false,
        },
        ExchangeField {
            label: "Sec",
            placeholder: "CT",
            width_chars: 3,
            kind: FieldKind::Section,
            default_value: None,
            focus_on_enter: false,
        },
    ]
}

pub open spec fn ss_settings_fields() -> Seq<SettingField> {
    seq![
        SettingField {
            key: "cq_message",
            label: "CQ Message",
            placeholder: "CQ TEST",
            width_chars: 12,
            kind: SettingFieldKind::Text,
            group: SettingFieldGroup::Contest,
        },
        SettingField {
            key: "callsign_file",
            label: "SS Callsign File",
            placeholder: "ss_callsigns.txt",
            width_chars: 24,
            kind: SettingFieldKind::FilePath,
            group: SettingFieldGroup::Contest,
        },
        SettingField {
            key: "serial_min",
            label: "Serial Min",
            placeholder: "100",
            width_chars: 5,
            kind: SettingFieldKind::Integer { min: 1, max: 12000 },
            group: SettingFieldGroup::Contest,
        },
        SettingField {
            key: "serial_max",
            label: "Serial Max",
            placeholder: "400",
            width_chars: 5,
            kind: SettingFieldKind::Integer { min: 1, max: 12000 },
            group: SettingFieldGroup::Contest,
        },
        SettingField {
            key: "user_precedence",
            label: "Your Precedence",
            placeholder: "A",
            width_chars: 1,
            kind: SettingFieldKind::Text,
            group: SettingFieldGroup::UserExchange,
        },
        SettingField {
            key: "user_check",
            label: "Your Check",
            placeholder: "99",
            width_chars: 2,
            kind: SettingFieldKind::Text,
            group: SettingFieldGroup::UserExchange,
        },
        SettingField {
            key: "user_section",
            label: "Your Section",
            placeholder: "CT",
            width_chars: 3,
            kind: SettingFieldKind::Text,
            group: SettingFieldGroup::UserExchange,
        },
    ]
}

/// The settings the contest starts with, by key.
pub open spec fn ss_defaults(k: Seq<char>) -> Option<SpecValue> {
    if k == "cq_message"@ {
        Some(SpecValue::Str("CQ TEST"@))
    } else if k == "callsign_file"@ {
        Some(SpecValue::Str("ss_callsigns.txt"@))
    } else if k == "serial_min"@ {
        Some(SpecValue::Int(100))
    } else if k == "serial_max"@ {
        Some(SpecValue::Int(400))
    } else if k == "user_precedence"@ {
        Some(SpecValue::Str("A"@))
    } else if k == "user_check"@ {
        Some(SpecValue::Str("99"@))
    } else if k == "user_section"@ {
        Some(SpecValue::Str("CT"@))
    } else {
        None
    }
}

impl SweepstakesContest {
    pub fn new() -> (c: Self)
        ensures
            c == (SweepstakesContest),
    {
        SweepstakesContest
    }

    pub fn id(&self) -> (s: &'static str)
        ensures
            s == CONTEST_ID,
    {
        CONTEST_ID
    }

    pub fn display_name(&self) -> (s: &'static str)
        ensures
            s == DISPLAY_NAME,
    {
        DISPLAY_NAME
    }

    pub fn section_for_callsign(callsign: &str) -> (s: String)
        ensures
            s@ == ss_section(callsign@),
    {
        let sec: &'static str = match first_digit_of(callsign) {
            Some('1') => "CT",
            Some('2') => "NNJ",
            Some('3') => "EPA",
            Some('4') => "VA",
            Some('5') => "NTX",
            Some('6') => "SDG",
            Some('7') => "OR",
            Some('8') => "OH",
            Some('9') => "IL",
            Some('0') => "CO",
            _ => "SDG",
        };
        copy_string(sec)
    }

    pub fn exchange_fields(&self) -> (r: Vec<ExchangeField>)
        ensures
            r@ == ss_exchange_fields(),
    {
        let r = vec![
            ExchangeField::new("NR", "001", 4, FieldKind::Number),
            ExchangeField::new("P", "A", 1, FieldKind::Text),
            ExchangeField::new("CK", "99", 2, FieldKind::Number),
            ExchangeField::new("Sec", "CT", 3, FieldKind::Section),
        ];
        assert(r@ =~= ss_exchange_fields());
        r
    }
    pub fn settings_fields(&self) -> (r: Vec<SettingField>)
        ensures
            r@ == ss_settings_fields(),
    {
        let r = vec![
            SettingField {
                key: "cq_message",
                label: "CQ Message",
                placeholder: "CQ TEST",
                width_chars: 12,
                kind: SettingFieldKind::Text,
                group: SettingFieldGroup::Contest,
            },
            SettingField {
                key: "callsign_file",
                label: "SS Callsign File",
                placeholder: "ss_callsigns.txt",
                width_chars: 24,
                kind: SettingFieldKind::FilePath,
                group: SettingFieldGroup::Contest,
            },
            SettingField {
                key: "serial_min",
                label: "Serial Min",
                placeholder: "100",
                width_chars: 5,
                kind: SettingFieldKind::Integer { min: 1, max: 12000 },
                group: SettingFieldGroup::Contest,
            },
            SettingField {
                key: "serial_max",
                label: "Serial Max",
                placeholder: "400",
                width_chars: 5,
                kind: SettingFieldKind::Integer { min: 1, max: 12000 },
                group: SettingFieldGroup::Contest,
            },
            SettingField {
                key: "user_precedence",
                label: "Your Precedence",
                placeholder: "A",
                width_chars: 1,
                kind: SettingFieldKind::Text,
                group: SettingFieldGroup::UserExchange,
            },
            SettingField {
                key: "user_check",
                label: "Your Check",
                placeholder: "99",
                width_chars: 2,
                kind: SettingFieldKind::Text,
                group: SettingFieldGroup::UserExchange,
            },
            SettingField {
                key: "user_section",
                label: "Your Section",
                placeholder: "CT",
                width_chars: 3,
                kind: SettingFieldKind::Text,
                group: SettingFieldGroup::UserExchange,
            },
        ];
        assert(r@ =~= ss_settings_fields());
        r
    }

    pub fn default_settings(&self) -> (t: SettingsTable)
        ensures
            t.wf(),
            forall|k: Seq<char>| #[trigger] table_get(t.view_table(), k) == ss_defaults(k),
    {
        proof {
            reveal_strlit("cq_message");
            assert("cq_message"@.len() == 10);
            reveal_strlit("callsign_file");
            assert("callsign_file"@.len() == 13);
            reveal_strlit("serial_min");
            assert("serial_min"@.len() == 10);
            reveal_strlit("serial_max");
            assert("serial_max"@.len() == 10);
            reveal_strlit("user_precedence");
            assert("user_precedence"@.len() == 15);
            reveal_strlit("user_check");
            assert("user_check"@.len() == 10);
            reveal_strlit("user_section");
            assert("user_section"@.len() == 12);
        }
        let mut t = SettingsTable::new();
        t.insert("cq_message", SettingValue::Str(copy_string("CQ TEST")));
        t.insert("callsign_file", SettingValue::Str(copy_string("ss_callsigns.txt")));
        assert(table_get(t.view_table(), "cq_message"@) == Some(SpecValue::Str("CQ TEST"@)));
        assert("serial_min"@[0] != "cq_message"@[0]);
        t.insert("serial_min", SettingValue::Int(100));
        assert(table_get(t.view_table(), "cq_message"@) == Some(SpecValue::Str("CQ TEST"@)));
        assert(table_get(t.view_table(), "callsign_file"@) == Some(SpecValue::Str("ss_callsigns.txt"@)));
        assert("serial_max"@[0] != "cq_message"@[0]);
        assert("serial_max"@[8] != "serial_min"@[8]);
        t.insert("serial_max", SettingValue::Int(400));
        assert(table_get(t.view_table(), "cq_message"@) == Some(SpecValue::Str("CQ TEST"@)));
        assert(table_get(t.view_table(), "callsign_file"@) == Some(SpecValue::Str("ss_callsigns.txt"@)));
        assert(table_get(t.view_table(), "serial_min"@) == Some(SpecValue::Int(100)));
        t.insert("user_precedence", SettingValue::Str(copy_string("A")));
        assert(table_get(t.view_table(), "cq_message"@) == Some(SpecValue::Str("CQ TEST"@)));
        assert(table_get(t.view_table(), "callsign_file"@) == Some(SpecValue::Str("ss_callsigns.txt"@)));
        assert(table_get(t.view_table(), "serial_min"@) == Some(SpecValue::Int(100)));
        assert(table_get(t.view_table(), "serial_max"@) == Some(SpecValue::Int(400)));
        assert("user_check"@[0] != "cq_message"@[0]);
        assert("user_check"@[0] != "serial_min"@[0]);
        assert("user_check"@[0] != "serial_max"@[0]);
        t.insert("user_check", SettingValue::Str(copy_string("99")));
        assert(table_get(t.view_table(), "cq_message"@) == Some(SpecValue::Str("CQ TEST"@)));
        assert(table_get(t.view_table(), "callsign_file"@) == Some(SpecValue::Str("ss_callsigns.txt"@)));
        assert(table_get(t.view_table(), "serial_min"@) == Some(SpecValue::Int(100)));
        assert(table_get(t.view_table(), "serial_max"@) == Some(SpecValue::Int(400)));
        assert(table_get(t.view_table(), "user_precedence"@) == Some(SpecValue::Str("A"@)));
        t.insert("user_section", SettingValue::Str(copy_string("CT")));
        assert(table_get(t.view_table(), "cq_message"@) == Some(SpecValue::Str("CQ TEST"@)));
        assert(table_get(t.view_table(), "callsign_file"@) == Some(SpecValue::Str("ss_callsigns.txt"@)));
        assert(table_get(t.view_table(), "serial_min"@) == Some(SpecValue::Int(100)));
        assert(table_get(t.view_table(), "serial_max"@) == Some(SpecValue::Int(400)));
        assert(table_get(t.view_table(), "user_precedence"@) == Some(SpecValue::Str("A"@)));
        assert(table_get(t.view_table(), "user_check"@) == Some(SpecValue::Str("99"@)));
        assert forall|k: Seq<char>| #[trigger] table_get(t.view_table(), k) == ss_defaults(k) by {}
        t
    }

    /// Checks the serial-range settings.
    pub fn validate_settings(&self, settings: &SettingsTable) -> (r: Result<(), SerialSettingsError>)
        ensures
            r == serial_settings_check(settings.view_table()),
    {
        validate_serial_settings(settings)
    }

    /// The CQ message.
    pub fn cq_message(&self, settings: &SettingsTable) -> (s: String)
        ensures
            s@ == setting_str(settings.view_table(), "cq_message"@, "CQ TEST"@),
    {
        settings.get_string("cq_message", "CQ TEST")
    }

    /// The station list file to read.
    pub fn callsign_file(&self, settings: &SettingsTable) -> (s: String)
        ensures
            s@ == setting_str(settings.view_table(), "callsign_file"@, "ss_callsigns.txt"@),
    {
        settings.get_string("callsign_file", "ss_callsigns.txt")
    }

    /// The range of serial numbers calling stations send.
    pub fn serial_range(&self, settings: &SettingsTable) -> (r: (u32, u32))
        ensures
            (r.0 as int, r.1 as int) == serial_range_spec(
                settings.view_table(),
                SERIAL_MIN_DEFAULT as int,
                SERIAL_MAX_DEFAULT as int,
            ),
            1 <= r.0 <= r.1 <= 12000,
    {
        serial_range(settings, SERIAL_MIN_DEFAULT, SERIAL_MAX_DEFAULT)
    }

    /// The exchange for a station without list data, for a precedence index
    /// below 6, a serial number and a check.
    pub fn exchange_for(callsign: &str, prec: usize, serial: u32, check: u16) -> (e: Exchange)
        requires
            prec < 6,
        ensures
            e.view_fields() == ss_fields(
                serial as nat,
                precedence(prec as int),
                callsign@,
                check as nat,
                ss_section(callsign@),
            ),
    {
        let p = precedence_exec(prec);
        let pv = vec![p];
        assert(pv@ =~= seq![p]);
        let ps = string_of(pv.as_slice());
        let f0 = format_serial(serial);
        let f2 = copy_string(callsign);
        let f3 = u64_to_string_padded(check as u64, 2);
        assert(f3@ == check_text(check as nat));
        let f4 = Self::section_for_callsign(callsign);
        let e = Exchange::new(vec![f0, ps, f2, f3, f4]);
        assert(e.view_fields() =~= ss_fields(
            serial as nat,
            precedence(prec as int),
            callsign@,
            check as nat,
            ss_section(callsign@),
        ));
        e
    }

    /// The exchange of a station without list data: random precedence, a
    /// random serial number in the configured range, a random check from 60 to
    /// 99, and the section guessed from the callsign.
    pub fn generate_exchange(&self, callsign: &str, serial: u32, settings: &SettingsTable) -> (e: Exchange)
        ensures
            exists|p: int, n: nat, ck: nat|
                0 <= p < 6 && serial_range_spec(
                    settings.view_table(),
                    SERIAL_MIN_DEFAULT as int,
                    SERIAL_MAX_DEFAULT as int,
                ).0 <= n <= serial_range_spec(
                    settings.view_table(),
                    SERIAL_MIN_DEFAULT as int,
                    SERIAL_MAX_DEFAULT as int,
                ).1 && 60 <= ck <= 99 && e.view_fields() == #[trigger] ss_fields(
                    n,
                    precedence(p),
                    callsign@,
                    ck,
                    ss_section(callsign@),
                ),
    {
        let p = random_below(6);
        let (lo, hi) = self.serial_range(settings);
        let n = random_u64_in(lo as u64, hi as u64) as u32;
        let ck = random_u64_in(60, 99) as u16;
        Self::exchange_for(callsign, p, n, ck)
    }

    /// The user's exchange: serial, precedence, callsign, check and section.
    pub fn user_exchange_fields(&self, user_callsign: &str, serial: u32, settings: &SettingsTable) -> (r: Vec<String>)
        ensures
            received_view(r@) == seq![
                serial_text(serial as nat),
                setting_str(settings.view_table(), "user_precedence"@, "A"@),
                user_callsign@,
                setting_str(settings.view_table(), "user_check"@, "99"@),
                setting_str(settings.view_table(), "user_section"@, "CT"@),
            ],
    {
        let prec = settings.get_string("user_precedence", "A");
        let check = settings.get_string("user_check", "99");
        let section = settings.get_string("user_section", "CT");
        let r = vec![format_serial(serial), prec, copy_string(user_callsign), check, section];
        assert(received_view(r@) =~= seq![
            serial_text(serial as nat),
            setting_str(settings.view_table(), "user_precedence"@, "A"@),
            user_callsign@,
            setting_str(settings.view_table(), "user_check"@, "99"@),
            setting_str(settings.view_table(), "user_section"@, "CT"@),
        ]);
        r
    }

    /// Checks a logged QSO.
    pub fn validate(
        &self,
        expected_call: &str,
        expected_exchange: &Exchange,
        received_call: &str,
        received_fields: &[String],
        settings: &SettingsTable,
    ) -> (v: ValidationResult)
        ensures
            v == ss_validation(
                expected_call@,
                expected_exchange.view_fields(),
                received_call@,
                received_view(received_fields@),
            ),
    {
        let call_ok = str_eq_ignore_case(expected_call, received_call);
        let exch_ok = if received_fields.len() >= 4 && expected_exchange.fields.len() >= 5 {
            let serial_ok = parse_serial(expected_exchange.fields[0].as_str()) == parse_serial(
                received_fields[0].as_str(),
            );
            let r1 = chars_of(received_fields[1].as_str());
            let prec_ok = if r1.len() > 0 {
                let mv = vec![to_ascii_upper(r1[0])];
                assert(mv@ =~= seq![ascii_upper(r1@[0])]);
                let mine = string_of(mv.as_slice());
                let theirs = to_upper(expected_exchange.fields[1].as_str());
                assert(mine@ =~= seq![ascii_upper(r1@[0])]);
                mine == theirs
            } else {
                false
            };
            let rc = chars_of(received_fields[2].as_str());
            let ec = chars_of(expected_exchange.fields[3].as_str());
            let check_ok = parse_unsigned_chars(rc.as_slice(), 65535) == parse_unsigned_chars(
                ec.as_slice(),
                65535,
            );
            let rs = to_upper(received_fields[3].as_str());
            let es = to_upper(expected_exchange.fields[4].as_str());
            let section_ok = rs == es;
            serial_ok && prec_ok && check_ok && section_ok
        } else {
            false
        };
        ValidationResult {
            callsign_correct: call_ok,
            exchange_correct: exch_ok,
            points: if call_ok && exch_ok {
                2
            } else {
                0
            },
        }
    }
}

} // verus!
