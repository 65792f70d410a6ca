//! North American Sprint: serial number, name and QTH.

use vstd::prelude::*;
use crate::contest::common::{first_digit, first_digit_of, join_fields, join_spaces};
use crate::contest::types::{Exchange, ValidationResult};
use crate::num::{dec, parse_unsigned, parse_unsigned_chars, u64_to_string};
use crate::random::random_below;
use crate::text::{
    chars_eq_ignore_case, chars_of, copy_string, eq_ignore_case, split_whitespace_chars,
    str_eq_ignore_case, ws_words,
};

verus! {

/// The names a Sprint station may send.
pub open spec fn sprint_names() -> Seq<Seq<char>> {
    seq![
        "BOB"@,
        "JIM"@,
        "TOM"@,
        "JOHN"@,
        "MIKE"@,
        "DAVE"@,
        "BILL"@,
        "JOE"@,
        "DAN"@,
        "RICK"@,
        "PAUL"@,
        "MARK"@,
        "GARY"@,
        "KEN"@,
        "RON"@,
        "DON"@,
        "JACK"@,
        "PETE"@,
        "AL"@,
        "ED"@,
        "STEVE"@,
        "FRED"@,
        "GEORGE"@,
        "FRANK"@,
        "LARRY"@,
        "JERRY"@,
        "RAY"@,
        "CARL"@,
        "RALPH"@,
        "BRUCE"@,
    ]
}

fn name_at(i: usize) -> (s: &'static str)
    requires
        i < 30,
    ensures
        s@ == sprint_names()[i as int],
{
    let s: &'static str = if i == 0 {
        "BOB"
    } else if i == 1 {
        "JIM"
    } else if i == 2 {
        "TOM"
    } else if i == 3 {
        "JOHN"
    } else if i == 4 {
        "MIKE"
    } else if i == 5 {
        "DAVE"
    } else if i == 6 {
        "BILL"
    } else if i == 7 {
        "JOE"
    } else if i == 8 {
        "DAN"
    } else if i == 9 {
        "RICK"
    } else if i == 10 {
        "PAUL"
    } else if i == 11 {
        "MARK"
    } else if i == 12 {
        "GARY"
    } else if i == 13 {
        "KEN"
    } else if i == 14 {
        "RON"
    } else if i == 15 {
        "DON"
    } else if i == 16 {
        "JACK"
    } else if i == 17 {
        "PETE"
    } else if i == 18 {
        "AL"
    } else if i == 19 {
        "ED"
    } else if i == 20 {
        "STEVE"
    } else if i == 21 {
        "FRED"
    } else if i == 22 {
        "GEORGE"
    } else if i == 23 {
        "FRANK"
    } else if i == 24 {
        "LARRY"
    } else if i == 25 {
        "JERRY"
    } else if i == 26 {
        "RAY"
    } else if i == 27 {
        "CARL"
    } else if i == 28 {
        "RALPH"
    } else {
        "BRUCE"
    };
    proof {
        reveal_strlit("BOB");
        reveal_strlit("JIM");
        reveal_strlit("TOM");
        reveal_strlit("JOHN");
        reveal_strlit("MIKE");
        reveal_strlit("DAVE");
        reveal_strlit("BILL");
        reveal_strlit("JOE");
        reveal_strlit("DAN");
        reveal_strlit("RICK");
        reveal_strlit("PAUL");
        reveal_strlit("MARK");
        reveal_strlit("GARY");
        reveal_strlit("KEN");
        reveal_strlit("RON");
        reveal_strlit("DON");
        reveal_strlit("JACK");
        reveal_strlit("PETE");
        reveal_strlit("AL");
        reveal_strlit("ED");
        reveal_strlit("STEVE");
        reveal_strlit("FRED");
        reveal_strlit("GEORGE");
        reveal_strlit("FRANK");
        reveal_strlit("LARRY");
        reveal_strlit("JERRY");
        reveal_strlit("RAY");
        reveal_strlit("CARL");
        reveal_strlit("RALPH");
        reveal_strlit("BRUCE");
    }
    s
}

/// The QTH guessed from a callsign's call area.
pub open spec fn sprint_qth(call: Seq<char>) -> Seq<char> {
    match first_digit(call) {
        Some('1') => "CT"@,
        Some('2') => "NY"@,
        Some('3') => "PA"@,
        Some('4') => "VA"@,
        Some('5') => "TX"@,
        Some('6') => "CA"@,
        Some('7') => "WA"@,
        Some('8') => "OH"@,
        Some('9') => "IL"@,
        Some('0') => "CO"@,
        _ => "CA"@,
    }
}

/// A Sprint exchange: serial number, name, QTH.
pub open spec fn sprint_fields(serial: nat, name: Seq<char>, qth: Seq<char>) -> Seq<Seq<char>> {
    seq![dec(serial), name, qth]
}

/// Sprint logging check on the exchange typed as one line: at least three
/// words; the first is the serial number, the next two the name and QTH
/// (ignoring case).
pub open spec fn sprint_validation(
    expected_call: Seq<char>,
    expected: Seq<Seq<char>>,
    received_call: Seq<char>,
    received: Seq<char>,
) -> ValidationResult {
    let call_ok = eq_ignore_case(expected_call, received_call);
    let w = ws_words(received);
    let exch_ok = expected.len() >= 3 && w.len() >= 3 && parse_unsigned(expected[0], u32::MAX as nat) is Some
        && parse_unsigned(w[0], u32::MAX as nat) == parse_unsigned(expected[0], u32::MAX as nat)
        && eq_ignore_case(w[1], expected[1]) && eq_ignore_case(w[2], expected[2]);
    ValidationResult {
        callsign_correct: call_ok,
        exchange_correct: exch_ok,
        points: if call_ok && exch_ok {
            1
        } else {
            0
        },
    }
}

/// North American Sprint contest.
#[derive(Clone, Copy, Debug)]
pub struct NaSprintContest;

impl NaSprintContest {
    pub fn new() -> (c: Self)
        ensures
            c == (NaSprintContest),
    {
        NaSprintContest
    }

    pub fn name(&self) -> (s: &'static str)
        ensures
            s@ == "North American Sprint"@,
    {
        "North American Sprint"
    }

    pub fn qth_for_callsign(callsign: &str) -> (s: String)
        ensures
            s@ == sprint_qth(callsign@),
    {
        let q: &'static str = match first_digit_of(callsign) {
            Some('1') => "CT",
            Some('2') => "NY",
            Some('3') => "PA",
            Some('4') => "VA",
            Some('5') => "TX",
            Some('6') => "CA",
            Some('7') => "WA",
            Some('8') => "OH",
            Some('9') => "IL",
            Some('0') => "CO",
            _ => "CA",
        };
        copy_string(q)
    }

    /// The exchange for a name index below 30.
    pub fn exchange_for(callsign: &str, serial: u32, name_index: usize) -> (e: Exchange)
        requires
            name_index < 30,
        ensures
            e.view_fields() == sprint_fields(serial as nat, sprint_names()[name_index as int], sprint_qth(callsign@)),
    {
        let f0 = u64_to_string(serial as u64);
        let f1 = copy_string(name_at(name_index));
        let f2 = Self::qth_for_callsign(callsign);
        let e = Exchange::new(vec![f0, f1, f2]);
        assert(e.view_fields() =~= sprint_fields(
            serial as nat,
            sprint_names()[name_index as int],
            sprint_qth(callsign@),
        ));
        e
    }

    /// The exchange of a calling station: its serial number, a random name,
    /// and the QTH guessed from its callsign.
    pub fn generate_exchange(&self, callsign: &str, serial: u32) -> (e: Exchange)
        ensures
            exists|k: int| 0 <= k < 30 && e.view_fields() == #[trigger] sprint_fields(
                serial as nat,
                sprint_names()[k],
                sprint_qth(callsign@),
            ),
    {
        let k = random_below(30);
        Self::exchange_for(callsign, serial, k)
    }

    /// The exchange as sent: fields separated by spaces.
    pub fn format_sent_exchange(&self, exchange: &Exchange) -> (s: String)
        ensures
            s@ == join_spaces(exchange.view_fields()),
    {
        let s = join_fields(exchange.fields.as_slice());
        assert(Seq::new(exchange.fields@.len(), |i: int| exchange.fields@[i]@) =~= exchange.view_fields());
        s
    }

    /// The user's exchange: serial number, name and section.
    pub fn user_exchange(&self, callsign: &str, serial: u32, zone: u8, section: &str, name: &str) -> (s: String)
        ensures
            s@ == join_spaces(seq![dec(serial as nat), name@, section@]),
    {
        let v = vec![u64_to_string(serial as u64), copy_string(name), copy_string(section)];
        let s = join_fields(v.as_slice());
        assert(Seq::new(v@.len(), |i: int| v@[i]@) =~= seq![dec(serial as nat), name@, section@]);
        s
    }

    /// Checks a logged QSO, the exchange typed as one line.
    pub fn validate(
        &self,
        expected_call: &str,
        expected_exchange: &Exchange,
        received_call: &str,
        received_exchange: &str,
    ) -> (v: ValidationResult)
        ensures
            v == sprint_validation(
                expected_call@,
                expected_exchange.view_fields(),
                received_call@,
                received_exchange@,
            ),
    {
        let call_ok = str_eq_ignore_case(expected_call, received_call);
        let rv = chars_of(received_exchange);
        let w = split_whitespace_chars(rv.as_slice());
        let exch_ok = if expected_exchange.fields.len() >= 3 && w.len() >= 3 {
            let ev = chars_of(expected_exchange.fields[0].as_str());
            match parse_unsigned_chars(ev.as_slice(), 0xffff_ffff) {
                Some(want) => {
                    let got = parse_unsigned_chars(w[0].as_slice(), 0xffff_ffff);
                    let n = chars_of(expected_exchange.fields[1].as_str());
                    let q = chars_of(expected_exchange.fields[2].as_str());
                    got == Some(want) && chars_eq_ignore_case(w[1].as_slice(), n.as_slice())
                        && chars_eq_ignore_case(w[2].as_slice(), q.as_slice())
                },
                None => false,
            }
        } else {
            false
        };
        ValidationResult {
            callsign_correct: call_ok,
            exchange_correct: exch_ok,
            points: if call_ok && exch_ok {
                1
            } else {
                0
            },
        }
    }
}

} // verus!
