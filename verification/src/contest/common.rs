//! Rules several contests share: CW digit and RST normalization, serial
//! numbers, signal reports, the serial-range settings, and joining fields.

use vstd::prelude::*;
use crate::num::{
    all_digits, dec, dec_padded, lemma_dec_len, lemma_dec_padded_parses, lemma_dec_value, parse_unsigned, parse_unsigned_chars,
    u64_to_string, u64_to_string_padded,
};
use crate::random::random_u64_in;
use crate::contest::types::{setting_int, SettingsTable};
use crate::text::{
    chars_of, copy_string, is_ascii_digit, is_digit, lemma_trim_plain, string_of, to_upper, trim, unicode_upper,
    upper_stable,
};

verus! {

/// Cut-number digits: `T` is read as 0 and `N` as 9.
pub open spec fn cw_digit(c: char) -> char {
    if c == 'T' {
        '0'
    } else if c == 'N' {
        '9'
    } else {
        c
    }
}

/// RST cut numbers: `E` is read as 5, `N` as 9 and `T` as 0.
pub open spec fn rst_digit(c: char) -> char {
    if c == 'E' {
        '5'
    } else if c == 'N' {
        '9'
    } else if c == 'T' {
        '0'
    } else {
        c
    }
}

/// A value trimmed, uppercased, with cut-number digits read as digits.
pub open spec fn cw_normalized(v: Seq<char>) -> Seq<char> {
    unicode_upper(trim(v)).map_values(|c: char| cw_digit(c))
}

/// A signal report trimmed, uppercased, with RST cut numbers read as digits.
pub open spec fn rst_normalized(v: Seq<char>) -> Seq<char> {
    unicode_upper(trim(v)).map_values(|c: char| rst_digit(c))
}

/// A serial number sent in CW: its normalized form when it is all digits and
/// fits in a `u32`.
pub open spec fn serial_value(v: Seq<char>) -> Option<nat> {
    let n = cw_normalized(v);
    if n.len() > 0 && all_digits(n) {
        parse_unsigned(n, u32::MAX as nat)
    } else {
        None
    }
}

/// How a serial number is sent: zero-padded to three digits below 100.
pub open spec fn serial_text(serial: nat) -> Seq<char> {
    if serial < 100 {
        dec_padded(serial, 3)
    } else {
        dec(serial)
    }
}

fn map_digits(v: &[char], rst: bool) -> (r: Vec<char>)
    ensures
        rst ==> r@ == v@.map_values(|c: char| rst_digit(c)),
        !rst ==> r@ == v@.map_values(|c: char| cw_digit(c)),
{
    let mut r: Vec<char> = Vec::new();
    let mut i: usize = 0;
    while i < v.len()
        invariant
            i <= v@.len(),
            rst ==> r@ == v@.take(i as int).map_values(|c: char| rst_digit(c)),
            !rst ==> r@ == v@.take(i as int).map_values(|c: char| cw_digit(c)),
        decreases v@.len() - i,
    {
        let c = v[i];
        let d = if c == 'T' {
            '0'
        } else if c == 'N' {
            '9'
        } else if rst && c == 'E' {
            '5'
        } else {
            c
        };
        r.push(d);
        i = i + 1;
        assert(rst ==> r@ =~= v@.take(i as int).map_values(|c: char| rst_digit(c)));
        assert(!rst ==> r@ =~= v@.take(i as int).map_values(|c: char| cw_digit(c)));
    }
    assert(v@.take(v@.len() as int) =~= v@);
    r
}

fn upper_trimmed(value: &str) -> (r: Vec<char>)
    ensures
        r@ == unicode_upper(trim(value@)),
        upper_stable(trim(value@)) ==> r@ == trim(value@),
{
    let t = crate::text::trimmed_chars(value);
    let t = string_of(t.as_slice());
    let up = to_upper(t.as_str());
    chars_of(up.as_str())
}

/// Trims, uppercases, and reads `T` as 0 and `N` as 9.
pub fn normalize_cw_digits(value: &str) -> (r: String)
    ensures
        r@ == cw_normalized(value@),
        upper_stable(trim(value@)) ==> r@ == trim(value@).map_values(|c: char| cw_digit(c)),
{
    let up = upper_trimmed(value);
    let m = map_digits(up.as_slice(), false);
    string_of(m.as_slice())
}

/// Trims, uppercases, and reads `E` as 5, `N` as 9 and `T` as 0. Every
/// report a station sends (`ENN`, `599`, `5NN`) reads as `599`.
pub fn normalize_rst(value: &str) -> (r: String)
    ensures
        r@ == rst_normalized(value@),
        upper_stable(trim(value@)) ==> r@ == trim(value@).map_values(|c: char| rst_digit(c)),
        value@ == "ENN"@ || value@ == "599"@ || value@ == "5NN"@ ==> r@ == "599"@,
{
    let up = upper_trimmed(value);
    let m = map_digits(up.as_slice(), true);
    proof {
        reveal_strlit("ENN");
        reveal_strlit("599");
        reveal_strlit("5NN");
        if value@ == "ENN"@ || value@ == "599"@ || value@ == "5NN"@ {
            lemma_trim_plain(value@);
            assert(upper_stable(value@));
            assert(value@.map_values(|c: char| rst_digit(c)) =~= "599"@);
        }
    }
    string_of(m.as_slice())
}

/// A serial number as sent is plain digits, its own trim and uppercase,
/// unchanged by reading cut numbers, and parses back as itself.
proof fn lemma_serial_text_plain(n: nat)
    requires
        n <= u32::MAX,
    ensures
        trim(serial_text(n)) == serial_text(n),
        upper_stable(serial_text(n)),
        serial_text(n).map_values(|c: char| cw_digit(c)) == serial_text(n),
        serial_text(n).len() > 0,
        all_digits(serial_text(n)),
        parse_unsigned(serial_text(n), u32::MAX as nat) == Some(n),
{
    lemma_dec_padded_parses(n, 3, u32::MAX as nat);
    lemma_dec_value(n);
    lemma_dec_len(n);
    let t = serial_text(n);
    assert(all_digits(t));
    assert(is_digit(t[0]) && is_digit(t.last()));
    lemma_trim_plain(t);
    assert(t.map_values(|c: char| cw_digit(c)) =~= t);
}

/// Reads a serial number sent in CW. A serial number as `format_serial`
/// sends it reads back as itself.
pub fn parse_serial(value: &str) -> (r: Option<u32>)
    ensures
        match r {
            Some(x) => serial_value(value@) == Some(x as nat),
            None => serial_value(value@) is None,
        },
        forall|m: u32| #[trigger] serial_text(m as nat) == value@ ==> r == Some(m),
{
    let ghost sent = exists|m: u32| #[trigger] serial_text(m as nat) == value@;
    let ghost m: u32 = choose|m: u32| #[trigger] serial_text(m as nat) == value@;
    proof {
        if sent {
            lemma_serial_text_plain(m as nat);
        }
    }
    let up = upper_trimmed(value);
    let n = map_digits(up.as_slice(), false);
    assert(n@ == cw_normalized(value@));
    proof {
        if sent {
            assert(n@ == value@);
        }
    }
    let mut i: usize = 0;
    while i < n.len()
        invariant
            i <= n@.len(),
            n@ == cw_normalized(value@),
            forall|k: int| 0 <= k < i ==> crate::text::is_digit(#[trigger] n@[k]),
            sent == exists|m: u32| #[trigger] serial_text(m as nat) == value@,
            sent ==> n@ == value@ && all_digits(value@),
        decreases n@.len() - i,
    {
        if !is_ascii_digit(n[i]) {
            assert(!crate::text::is_digit(n@[i as int]));
            assert(!all_digits(n@));
            return None;
        }
        i = i + 1;
    }
    if n.len() == 0 {
        return None;
    }
    let r = match parse_unsigned_chars(n.as_slice(), 0xffff_ffff) {
        Some(x) => Some(x as u32),
        None => None,
    };
    proof {
        assert forall|k: u32| #[trigger] serial_text(k as nat) == value@ implies r == Some(k) by {
            lemma_serial_text_plain(k as nat);
        }
    }
    r
}

/// Formats a serial number: zero-padded to three digits below 100.
pub fn format_serial(serial: u32) -> (s: String)
    ensures
        s@ == serial_text(serial as nat),
{
    if serial < 100 {
        u64_to_string_padded(serial as u64, 3)
    } else {
        u64_to_string(serial as u64)
    }
}

/// The signal report for a roll of 0 to 99: `ENN` for 0-4, `599` for 5-14,
/// `5NN` otherwise.
pub open spec fn rst_for_roll_spec(roll: u64) -> &'static str {
    if roll < 5 {
        "ENN"
    } else if roll < 15 {
        "599"
    } else {
        "5NN"
    }
}

pub fn rst_for_roll(roll: u64) -> (s: &'static str)
    ensures
        s == rst_for_roll_spec(roll),
{
    if roll < 5 {
        "ENN"
    } else if roll < 15 {
        "599"
    } else {
        "5NN"
    }
}

/// A random signal report (5% `ENN`, 10% `599`, 85% `5NN`).
pub fn random_rst() -> (s: String)
    ensures
        s@ == "ENN"@ || s@ == "599"@ || s@ == "5NN"@,
{
    let roll = random_u64_in(0, 99);
    copy_string(rst_for_roll(roll))
}

/// Smallest serial number a setting may hold.
pub const SERIAL_MIN_ALLOWED: i64 = 1;
/// Largest serial number a setting may hold.
pub const SERIAL_MAX_ALLOWED: i64 = 12000;

pub open spec fn clamp_serial(v: int) -> int {
    if v < SERIAL_MIN_ALLOWED {
        SERIAL_MIN_ALLOWED as int
    } else if v > SERIAL_MAX_ALLOWED {
        SERIAL_MAX_ALLOWED as int
    } else {
        v
    }
}

/// The serial range from settings: each bound from `serial_min`/`serial_max`
/// (or its default), clamped to 1..=12000, and put in order.
pub open spec fn serial_range_spec(
    t: Seq<(Seq<char>, crate::contest::types::SpecValue)>,
    default_min: int,
    default_max: int,
) -> (int, int) {
    let lo = clamp_serial(
        match setting_int(t, "serial_min"@) {
            Some(v) => v,
            None => default_min,
        },
    );
    let hi = clamp_serial(
        match setting_int(t, "serial_max"@) {
            Some(v) => v,
            None => default_max,
        },
    );
    if lo <= hi {
        (lo, hi)
    } else {
        (hi, lo)
    }
}

fn clamp_serial_exec(v: i64) -> (r: i64)
    ensures
        r == clamp_serial(v as int),
{
    if v < SERIAL_MIN_ALLOWED {
        SERIAL_MIN_ALLOWED
    } else if v > SERIAL_MAX_ALLOWED {
        SERIAL_MAX_ALLOWED
    } else {
        v
    }
}

/// The serial range the settings ask for.
pub fn serial_range(settings: &SettingsTable, default_min: i64, default_max: i64) -> (r: (u32, u32))
    ensures
        (r.0 as int, r.1 as int) == serial_range_spec(
            settings.view_table(),
            default_min as int,
            default_max as int,
        ),
        1 <= r.0 <= r.1 <= 12000,
{
    let lo = match settings.get_integer("serial_min") {
        Some(v) => v,
        None => default_min,
    };
    let hi = match settings.get_integer("serial_max") {
        Some(v) => v,
        None => default_max,
    };
    let lo = clamp_serial_exec(lo);
    let hi = clamp_serial_exec(hi);
    if lo <= hi {
        (lo as u32, hi as u32)
    } else {
        (hi as u32, lo as u32)
    }
}

/// Why the serial-range settings are refused.
#[derive(Clone, Copy, Debug, PartialEq, Eq, Structural)]
pub enum SerialSettingsError {
    /// `serial_min` is missing or not an integer.
    MinNotInteger,
    /// `serial_max` is missing or not an integer.
    MaxNotInteger,
    /// `serial_min` is outside 1..=12000.
    MinOutOfRange,
    /// `serial_max` is outside 1..=12000.
    MaxOutOfRange,
    /// `serial_min` is above `serial_max`.
    MinAboveMax,
}

impl SerialSettingsError {
    /// The message shown for the error.
    pub fn message(&self) -> (s: String)
        ensures
            s@ == serial_error_message(*self),
    {
        match self {
            SerialSettingsError::MinNotInteger => copy_string(
                "Serial Min must be an integer between 1 and 12000.",
            ),
            SerialSettingsError::MaxNotInteger => copy_string(
                "Serial Max must be an integer between 1 and 12000.",
            ),
            SerialSettingsError::MinOutOfRange => copy_string("Serial Min must be between 1 and 12000."),
            SerialSettingsError::MaxOutOfRange => copy_string("Serial Max must be between 1 and 12000."),
            SerialSettingsError::MinAboveMax => copy_string(
                "Serial Min must be less than or equal to Serial Max.",
            ),
        }
    }
}

pub open spec fn serial_error_message(e: SerialSettingsError) -> Seq<char> {
    match e {
        SerialSettingsError::MinNotInteger => "Serial Min must be an integer between 1 and 12000."@,
        SerialSettingsError::MaxNotInteger => "Serial Max must be an integer between 1 and 12000."@,
        SerialSettingsError::MinOutOfRange => "Serial Min must be between 1 and 12000."@,
        SerialSettingsError::MaxOutOfRange => "Serial Max must be between 1 and 12000."@,
        SerialSettingsError::MinAboveMax => "Serial Min must be less than or equal to Serial Max."@,
    }
}

/// The verdict on serial-range settings.
pub open spec fn serial_settings_check(t: Seq<(Seq<char>, crate::contest::types::SpecValue)>) -> Result<
    (),
    SerialSettingsError,
> {
    match setting_int(t, "serial_min"@) {
        None => Err(SerialSettingsError::MinNotInteger),
        Some(lo) => match setting_int(t, "serial_max"@) {
            None => Err(SerialSettingsError::MaxNotInteger),
            Some(hi) => if !(1 <= lo <= 12000) {
                Err(SerialSettingsError::MinOutOfRange)
            } else if !(1 <= hi <= 12000) {
                Err(SerialSettingsError::MaxOutOfRange)
            } else if lo > hi {
                Err(SerialSettingsError::MinAboveMax)
            } else {
                Ok(())
            },
        },
    }
}

/// Checks `serial_min` and `serial_max`: both integers in 1..=12000, in order.
pub fn validate_serial_settings(settings: &SettingsTable) -> (r: Result<(), SerialSettingsError>)
    ensures
        r == serial_settings_check(settings.view_table()),
{
    let lo = match settings.get_integer("serial_min") {
        Some(v) => v,
        None => return Err(SerialSettingsError::MinNotInteger),
    };
    let hi = match settings.get_integer("serial_max") {
        Some(v) => v,
        None => return Err(SerialSettingsError::MaxNotInteger),
    };
    if !(SERIAL_MIN_ALLOWED <= lo && lo <= SERIAL_MAX_ALLOWED) {
        return Err(SerialSettingsError::MinOutOfRange);
    }
    if !(SERIAL_MIN_ALLOWED <= hi && hi <= SERIAL_MAX_ALLOWED) {
        return Err(SerialSettingsError::MaxOutOfRange);
    }
    if lo > hi {
        return Err(SerialSettingsError::MinAboveMax);
    }
    Ok(())
}

/// The first ASCII digit of a callsign (its call area), if any.
pub open spec fn first_digit(s: Seq<char>) -> Option<char>
    decreases s.len(),
{
    if s.len() == 0 {
        None
    } else if crate::text::is_digit(s[0]) {
        Some(s[0])
    } else {
        first_digit(s.drop_first())
    }
}

/// Finds the first ASCII digit of a string.
pub fn first_digit_of(s: &str) -> (r: Option<char>)
    ensures
        r == first_digit(s@),
{
    let v = chars_of(s);
    let mut i: usize = 0;
    assert(v@.skip(0) =~= v@);
    while i < v.len()
        invariant
            i <= v@.len(),
            v@ == s@,
            first_digit(v@) == first_digit(v@.skip(i as int)),
        decreases v@.len() - i,
    {
        assert(v@.skip(i as int)[0] == v@[i as int]);
        assert(v@.skip(i as int).len() > 0);
        if is_ascii_digit(v[i]) {
            assert(first_digit(v@.skip(i as int)) == Some(v@[i as int]));
            return Some(v[i]);
        }
        assert(v@.skip(i as int).drop_first() =~= v@.skip(i + 1));
        i = i + 1;
    }
    assert(v@.skip(i as int).len() == 0);
    None
}

/// Fields joined with single spaces.
pub open spec fn join_spaces(fields: Seq<Seq<char>>) -> Seq<char>
    decreases fields.len(),
{
    if fields.len() == 0 {
        Seq::empty()
    } else if fields.len() == 1 {
        fields[0]
    } else {
        join_spaces(fields.drop_last()).push(' ') + fields.last()
    }
}

/// Joins fields with single spaces (`fields.join(" ")`).
pub fn join_fields(fields: &[String]) -> (s: String)
    ensures
        s@ == join_spaces(Seq::new(fields@.len(), |i: int| fields@[i]@)),
{
    let ghost fv = Seq::new(fields@.len(), |i: int| fields@[i]@);
    let mut out: Vec<char> = Vec::new();
    let mut k: usize = 0;
    assert(fv.take(0) =~= Seq::<Seq<char>>::empty());
    while k < fields.len()
        invariant
            k <= fields@.len(),
            fv == Seq::new(fields@.len(), |i: int| fields@[i]@),
            out@ == join_spaces(fv.take(k as int)),
        decreases fields@.len() - k,
    {
        let ghost t = fv.take(k + 1);
        assert(t.drop_last() =~= fv.take(k as int));
        if k > 0 {
            out.push(' ');
        }
        let ghost mid = out@;
        let f = chars_of(fields[k].as_str());
        let mut j: usize = 0;
        while j < f.len()
            invariant
                j <= f@.len(),
                out@ == mid + f@.take(j as int),
            decreases f@.len() - j,
        {
            out.push(f[j]);
            j = j + 1;
            assert(out@ =~= mid + f@.take(j as int));
        }
        assert(f@.take(f@.len() as int) =~= f@);
        k = k + 1;
        proof {
            if k == 1 {
                assert(t =~= seq![fv[0]]);
                assert(out@ =~= f@);
            } else {
                assert(out@ =~= join_spaces(t));
            }
        }
    }
    assert(fv.take(fv.len() as int) =~= fv);
    string_of(out.as_slice())
}

} // verus!
