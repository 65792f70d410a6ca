//! The QSO state machine: what the operator's keys and the audio side's
//! reports do to the state, the QSO context, the score and the log, and the
//! audio commands that result. Time is given in milliseconds by the caller.

use vstd::prelude::*;
use crate::cty::{utf8_len, utf8_len_exec};
use crate::config::{SimulationSettings, UserSettings};
use crate::contest::common::{join_spaces, serial_error_message};
use crate::contest::cwt::received_view;
use crate::contest::types::{setting_str, Exchange, ExchangeField, SettingsTable};
use crate::contest::{
    contest_validation, default_input, exchange_fields_of, settings_check, user_fields, AnyContest, AnySource,
};
use crate::cty::CtyDat;
use crate::messages::{
    command_view, commands_view, segment_view, AudioCommand, AudioEvent, MessageSegment,
    MessageSegmentType, SpecCommand, SpecParams, StationId, StationParams,
};
use crate::station::caller_manager::{response_in_context, settings_ok, still_in_play, CallerManager, CallerResponse};
use crate::state::{
    caller_view, callers_view, status_for, ActiveCaller, ContestState, QsoContext, StationTxType,
    StatusColor, UserTxType,
};
use crate::stats::{QsoRecord, SessionStats};
use crate::random::{random_below, random_bool};
use crate::text::{
    chars_contains, chars_of, contains_seq, copy_string, string_of, to_upper, trim, trimmed_chars,
    unicode_upper,
};

verus! {

/// Which input field has focus.
#[derive(Clone, Copy, PartialEq, Eq, Structural, Debug)]
pub enum InputField {
    Callsign,
    Exchange(usize),
}

/// The outcome of a logged QSO, for display.
#[derive(Clone, Debug)]
pub struct QsoResult {
    pub callsign: String,
    pub expected_call: String,
    pub expected_exchange: String,
    pub callsign_correct: bool,
    pub exchange_correct: bool,
    pub points: u32,
}

/// QSO count, points, and when the first QSO was logged (ms).
#[derive(Clone, Copy, Debug, PartialEq, Eq, Structural)]
pub struct Score {
    pub qso_count: u32,
    pub total_points: u32,
    pub start_time_ms: Option<u64>,
}

/// QSOs per hour: the count divided by the hours since the first QSO,
/// rounded down and capped at `u32::MAX`; 0 before 0.01 hours (36 s) have
/// passed, or with no QSO.
pub open spec fn hourly_rate_spec(qso_count: u32, start: Option<u64>, now_ms: u64) -> int {
    match start {
        Some(t) => {
            let elapsed = if now_ms >= t {
                now_ms - t
            } else {
                0
            };
            if elapsed > 36_000 {
                let r = qso_count * 3_600_000 / elapsed;
                if r > u32::MAX {
                    u32::MAX as int
                } else {
                    r
                }
            } else {
                0
            }
        },
        None => 0,
    }
}

/// The hourly rate is the QSO count per hour rounded down: once 36 s have
/// passed, the rate times the elapsed time does not exceed the count times an
/// hour, and one more would (unless the rate is capped).
pub proof fn lemma_hourly_rate_is_floor(count: u32, t: u64, now_ms: u64)
    requires
        now_ms >= t,
        now_ms - t > 36_000,
    ensures
        ({
            let r = hourly_rate_spec(count, Some(t), now_ms);
            let e = now_ms - t;
            r == u32::MAX || (r * e <= count * 3_600_000 && count * 3_600_000 < (r + 1) * e)
        }),
{
    let e: int = now_ms - t;
    let x: int = count * 3_600_000;
    vstd::arithmetic::div_mod::lemma_fundamental_div_mod(x, e);
    vstd::arithmetic::div_mod::lemma_mod_bound(x, e);
    let q = x / e;
    assert(q * e <= x && x < (q + 1) * e) by (nonlinear_arith)
        requires
            x == e * q + x % e,
            0 <= x % e < e,
    ;
}

/// More QSOs in the same time never lower the rate, and the same QSOs over a
/// longer time never raise it.
pub proof fn lemma_hourly_rate_monotone(c1: u32, c2: u32, t: u64, now1: u64, now2: u64)
    requires
        c1 <= c2,
        t <= now1 <= now2,
        now1 - t > 36_000,
    ensures
        hourly_rate_spec(c1, Some(t), now1) <= hourly_rate_spec(c2, Some(t), now1),
        hourly_rate_spec(c1, Some(t), now2) <= hourly_rate_spec(c1, Some(t), now1),
{
    let e1: int = now1 - t;
    let e2: int = now2 - t;
    vstd::arithmetic::div_mod::lemma_div_is_ordered(c1 * 3_600_000, c2 * 3_600_000, e1);
    vstd::arithmetic::div_mod::lemma_div_is_ordered_by_denominator(c1 * 3_600_000, e1, e2);
}

impl Score {
    pub fn new() -> (s: Self)
        ensures
            s == (Score { qso_count: 0, total_points: 0, start_time_ms: None }),
    {
        Score { qso_count: 0, total_points: 0, start_time_ms: None }
    }

    /// QSOs per hour at `now_ms`.
    pub fn hourly_rate(&self, now_ms: u64) -> (r: u32)
        ensures
            r == hourly_rate_spec(self.qso_count, self.start_time_ms, now_ms),
    {
        match self.start_time_ms {
            Some(t) => {
                let elapsed: u64 = if now_ms >= t {
                    now_ms - t
                } else {
                    0
                };
                if elapsed > 36_000 {
                    let r: u64 = (self.qso_count as u64) * 3_600_000 / elapsed;
                    if r > 0xffff_ffff {
                        0xffff_ffff
                    } else {
                        r as u32
                    }
                } else {
                    0
                }
            },
            None => 0,
        }
    }

    /// Counts a QSO worth `points`; the first one starts the clock.
    pub fn add_qso(&mut self, points: u32, now_ms: u64)
        requires
            old(self).qso_count < u32::MAX,
            old(self).total_points + points <= u32::MAX,
        ensures
            final(self).qso_count == old(self).qso_count + 1,
            final(self).total_points == old(self).total_points + points,
            final(self).start_time_ms == match old(self).start_time_ms {
                Some(t) => Some(t),
                None => Some(now_ms),
            },
    {
        if self.start_time_ms.is_none() {
            self.start_time_ms = Some(now_ms);
        }
        self.qso_count = self.qso_count + 1;
        self.total_points = self.total_points + points;
    }
}

impl Default for Score {
    fn default() -> (s: Self)
        ensures
            s == (Score { qso_count: 0, total_points: 0, start_time_ms: None }),
    {
        Score::new()
    }
}

// ---------------------------------------------------------------------------
// Matching what the user typed to a caller
// ---------------------------------------------------------------------------

/// Strings longer than this many bytes are never counted as similar.
pub const MAX_COMPARED_BYTES: u128 = 0x100_0000_0000;

/// Where `c` first occurs in `b` at or after `from`.
pub open spec fn find_char_from(b: Seq<char>, from: int, c: char) -> Option<int>
    decreases b.len() - from,
{
    if from < 0 || from >= b.len() {
        None
    } else if b[from] == c {
        Some(from)
    } else {
        find_char_from(b, from + 1, c)
    }
}

/// Characters of `a` matched in order in `b`: each is looked for in `b`
/// after the previous match, and skipped when not found.
pub open spec fn greedy_matches(a: Seq<char>, b: Seq<char>, from: int) -> nat
    decreases a.len(),
{
    if a.len() == 0 {
        0
    } else {
        match find_char_from(b, from, a[0]) {
            Some(j) => 1 + greedy_matches(a.drop_first(), b, j + 1),
            None => greedy_matches(a.drop_first(), b, from),
        }
    }
}

proof fn lemma_find_char_from(b: Seq<char>, from: int, c: char)
    requires
        0 <= from,
    ensures
        match find_char_from(b, from, c) {
            Some(j) => from <= j < b.len() && b[j] == c && forall|k: int| from <= k < j ==> b[k] != c,
            None => forall|k: int| from <= k < b.len() ==> b[k] != c,
        },
    decreases b.len() - from,
{
    if from < b.len() && b[from] != c {
        lemma_find_char_from(b, from + 1, c);
    }
}

/// A character of the typed text that the callsign no longer holds is
/// skipped: putting it in front of the text changes nothing.
pub proof fn lemma_greedy_skips_unmatched(c: char, a: Seq<char>, b: Seq<char>, from: int)
    requires
        0 <= from,
        forall|k: int| from <= k < b.len() ==> b[k] != c,
    ensures
        greedy_matches(seq![c] + a, b, from) == greedy_matches(a, b, from),
{
    lemma_find_char_from(b, from, c);
    let t = seq![c] + a;
    assert(t[0] == c);
    assert(t.drop_first() =~= a);
}

/// Matching from a later place in the callsign finds no more matches.
pub proof fn lemma_greedy_start_mono(a: Seq<char>, b: Seq<char>, p: int, q: int)
    requires
        0 <= p <= q,
    ensures
        greedy_matches(a, b, q) <= greedy_matches(a, b, p),
    decreases a.len(),
{
    if a.len() > 0 {
        lemma_find_char_from(b, p, a[0]);
        lemma_find_char_from(b, q, a[0]);
        let r = a.drop_first();
        match (find_char_from(b, p, a[0]), find_char_from(b, q, a[0])) {
            (Some(j), Some(k)) => {
                assert(j <= k);
                lemma_greedy_start_mono(r, b, j + 1, k + 1);
            },
            (Some(j), None) => {
                assert(j < q);
                lemma_greedy_start_mono(r, b, j + 1, q);
            },
            (None, Some(k)) => {
                assert(b[k] == a[0]);
                assert(false);
            },
            (None, None) => {
                lemma_greedy_start_mono(r, b, p, q);
            },
        }
    }
}

/// Each character of the typed text is matched at most once, each place of
/// the callsign at most once: the count is at most either length.
pub proof fn lemma_greedy_bounds(a: Seq<char>, b: Seq<char>, from: int)
    requires
        0 <= from <= b.len(),
    ensures
        greedy_matches(a, b, from) <= a.len(),
        greedy_matches(a, b, from) <= b.len() - from,
    decreases a.len(),
{
    if a.len() > 0 {
        lemma_find_char_from(b, from, a[0]);
        match find_char_from(b, from, a[0]) {
            Some(j) => lemma_greedy_bounds(a.drop_first(), b, j + 1),
            None => lemma_greedy_bounds(a.drop_first(), b, from),
        }
    }
}

/// A callsign typed exactly as sent matches every character.
pub proof fn lemma_greedy_exact(b: Seq<char>, from: int)
    requires
        0 <= from <= b.len(),
    ensures
        greedy_matches(b.skip(from), b, from) == b.len() - from,
    decreases b.len() - from,
{
    if from < b.len() {
        let s = b.skip(from);
        assert(s[0] == b[from]);
        assert(s.drop_first() =~= b.skip(from + 1));
        lemma_greedy_exact(b, from + 1);
    } else {
        assert(b.skip(from).len() == 0);
    }
}

/// One more character in front of the typed text adds at most one match.
pub proof fn lemma_greedy_prepend(c: char, a: Seq<char>, b: Seq<char>, from: int)
    requires
        0 <= from,
    ensures
        greedy_matches(seq![c] + a, b, from) <= greedy_matches(a, b, from) + 1,
{
    lemma_find_char_from(b, from, c);
    let t = seq![c] + a;
    assert(t[0] == c);
    assert(t.drop_first() =~= a);
    match find_char_from(b, from, c) {
        Some(j) => lemma_greedy_start_mono(a, b, from, j + 1),
        None => {},
    }
}

/// How similar two callsigns are, as a fraction (numerator, denominator)
/// between 0 and 1: 0 when either is empty; when one contains the other,
/// the shorter byte length over the longer; otherwise twice the in-order
/// matches over the sum of the byte lengths.
pub open spec fn similarity(a: Seq<char>, b: Seq<char>) -> (int, int) {
    if a.len() == 0 || b.len() == 0 || utf8_len(a) > MAX_COMPARED_BYTES || utf8_len(b) > MAX_COMPARED_BYTES {
        (0, 1)
    } else if contains_seq(a, b) || contains_seq(b, a) {
        if utf8_len(a) <= utf8_len(b) {
            (utf8_len(a) as int, utf8_len(b) as int)
        } else {
            (utf8_len(b) as int, utf8_len(a) as int)
        }
    } else {
        ((2 * greedy_matches(a, b, 0)) as int, (utf8_len(a) + utf8_len(b)) as int)
    }
}

/// A similarity is a fraction between 0 and 1, and a callsign typed
/// exactly as sent (and not too long to compare) is fully similar.
pub proof fn lemma_similarity_range(a: Seq<char>, b: Seq<char>)
    ensures
        0 <= similarity(a, b).0 <= similarity(a, b).1,
        similarity(a, b).1 > 0,
        a.len() > 0 && utf8_len(a) <= MAX_COMPARED_BYTES ==> similarity(a, a).0 == similarity(a, a).1,
{
    crate::cty::lemma_utf8_len_chars(a);
    crate::cty::lemma_utf8_len_chars(b);
    crate::cty::lemma_utf8_len_pos(a);
    crate::cty::lemma_utf8_len_pos(b);
    lemma_greedy_bounds(a, b, 0);
    if a.len() > 0 {
        assert(crate::text::occurs_at(a, a, 0)) by {
            assert(a.subrange(0, a.len() as int) =~= a);
        }
    }
}

/// A similarity of at least 0.4 counts as a match.
pub open spec fn similar_enough(s: (int, int)) -> bool {
    5 * s.0 >= 2 * s.1
}

/// `s` is at least as similar as `t`.
pub open spec fn at_least(s: (int, int), t: (int, int)) -> bool {
    s.0 * t.1 >= t.0 * s.1
}

fn find_char_from_exec(b: &[char], from: usize, c: char) -> (r: Option<usize>)
    ensures
        match r {
            Some(j) => find_char_from(b@, from as int, c) == Some(j as int) && j < b@.len(),
            None => find_char_from(b@, from as int, c) is None,
        },
    decreases b@.len() - from,
{
    if from >= b.len() {
        None
    } else if b[from] == c {
        Some(from)
    } else {
        find_char_from_exec(b, from + 1, c)
    }
}

fn greedy_matches_exec(a: &[char], b: &[char]) -> (n: u64)
    ensures
        n == greedy_matches(a@, b@, 0),
        n <= a@.len(),
{
    let mut n: u64 = 0;
    let mut from: usize = 0;
    let mut i: usize = 0;
    assert(a@.skip(0) =~= a@);
    let blen = b.len();
    while i < a.len()
        invariant
            i <= a@.len(),
            blen == b@.len(),
            n <= i,
            from <= b@.len(),
            n + greedy_matches(a@.skip(i as int), b@, from as int) == greedy_matches(a@, b@, 0),
        decreases a@.len() - i,
    {
        assert(a@.skip(i as int)[0] == a@[i as int]);
        assert(a@.skip(i as int).drop_first() =~= a@.skip(i + 1));
        match find_char_from_exec(b, from, a[i]) {
            Some(j) => {
                proof {
                    lemma_find_char_from_bounds(b@, from as int, a@[i as int]);
                }
                n = n + 1;
                from = j + 1;
            },
            None => {},
        }
        i = i + 1;
    }
    assert(a@.skip(i as int).len() == 0);
    n
}

/// Similarity of two callsigns as a fraction.
pub fn callsign_similarity(a: &str, b: &str) -> (r: (u128, u128))
    ensures
        (r.0 as int, r.1 as int) == similarity(a@, b@),
        r.1 > 0,
        r.0 <= r.1,
        r.1 <= 2 * MAX_COMPARED_BYTES,
{
    let av = chars_of(a);
    let bv = chars_of(b);
    if av.len() == 0 || bv.len() == 0 {
        return (0, 1);
    }
    let la = utf8_len_exec(av.as_slice());
    let lb = utf8_len_exec(bv.as_slice());
    if la > MAX_COMPARED_BYTES || lb > MAX_COMPARED_BYTES {
        return (0, 1);
    }
    proof {
        crate::cty::lemma_utf8_len_pos(av@);
        crate::cty::lemma_utf8_len_pos(bv@);
    }
    if chars_contains(av.as_slice(), bv.as_slice()) || chars_contains(bv.as_slice(), av.as_slice()) {
        if la <= lb {
            (la, lb)
        } else {
            (lb, la)
        }
    } else {
        let m = greedy_matches_exec(av.as_slice(), bv.as_slice());
        proof {
            crate::cty::lemma_utf8_len_chars(av@);
            crate::cty::lemma_utf8_len_chars(bv@);
            lemma_greedy_le(av@, bv@, 0);
        }
        (2 * m as u128, la + lb)
    }
}

/// Matches never exceed the characters of either string.
proof fn lemma_greedy_le(a: Seq<char>, b: Seq<char>, from: int)
    requires
        0 <= from <= b.len(),
    ensures
        greedy_matches(a, b, from) <= a.len(),
        greedy_matches(a, b, from) <= b.len() - from,
    decreases a.len(),
{
    if a.len() > 0 {
        match find_char_from(b, from, a[0]) {
            Some(j) => {
                lemma_find_char_from_bounds(b, from, a[0]);
                lemma_greedy_le(a.drop_first(), b, j + 1);
            },
            None => {
                lemma_greedy_le(a.drop_first(), b, from);
            },
        }
    }
}

proof fn lemma_find_char_from_bounds(b: Seq<char>, from: int, c: char)
    ensures
        find_char_from(b, from, c) matches Some(j) ==> from <= j < b.len() && b[j] == c,
    decreases b.len() - from,
{
    if 0 <= from < b.len() && b[from] != c {
        lemma_find_char_from_bounds(b, from + 1, c);
    }
}

/// The caller most similar to what was typed, among those similar enough;
/// among equally similar ones the last.
pub open spec fn best_match(entered: Seq<char>, calls: Seq<Seq<char>>) -> Option<int>
    decreases calls.len(),
{
    if calls.len() == 0 {
        None
    } else {
        let rest = best_match(entered, calls.drop_last());
        let s = similarity(entered, calls.last());
        if !similar_enough(s) {
            rest
        } else {
            match rest {
                None => Some(calls.len() - 1),
                Some(i) => if at_least(s, similarity(entered, calls[i])) {
                    Some(calls.len() - 1)
                } else {
                    rest
                },
            }
        }
    }
}

/// The callsigns of the callers.
pub open spec fn calls_of(v: Seq<ActiveCaller>) -> Seq<Seq<char>> {
    v.map_values(|c: ActiveCaller| c.params.callsign@)
}

fn at_least_exec(s: (u128, u128), t: (u128, u128)) -> (b: bool)
    requires
        s.0 <= s.1 <= 2 * MAX_COMPARED_BYTES,
        t.0 <= t.1 <= 2 * MAX_COMPARED_BYTES,
    ensures
        b == at_least((s.0 as int, s.1 as int), (t.0 as int, t.1 as int)),
{
    proof {
        assert(2 * MAX_COMPARED_BYTES == 0x200_0000_0000);
        assert(s.0 * t.1 <= 0x4_0000_0000_0000_0000_0000) by (nonlinear_arith)
            requires
                s.0 <= 0x200_0000_0000,
                t.1 <= 0x200_0000_0000,
        ;
        assert(t.0 * s.1 <= 0x4_0000_0000_0000_0000_0000) by (nonlinear_arith)
            requires
                t.0 <= 0x200_0000_0000,
                s.1 <= 0x200_0000_0000,
        ;
    }
    s.0 * t.1 >= t.0 * s.1
}


/// The caller most similar to what was typed (at least 0.4 similar); among
/// equally similar callers the last one.
pub fn find_similar_caller(entered: &str, callers: &[ActiveCaller]) -> (r: Option<usize>)
    ensures
        match r {
            Some(i) => i < callers@.len() && best_match(entered@, calls_of(callers@)) == Some(i as int),
            None => best_match(entered@, calls_of(callers@)) is None,
        },
{
    let ghost calls = calls_of(callers@);
    let mut best: Option<usize> = None;
    let mut best_sim: (u128, u128) = (0, 1);
    let mut i: usize = 0;
    while i < callers.len()
        invariant
            i <= callers@.len(),
            calls == calls_of(callers@),
            calls.len() == callers@.len(),
            best_sim.0 <= best_sim.1 <= 2 * MAX_COMPARED_BYTES,
            match best {
                Some(k) => k < i && best_match(entered@, calls.take(i as int)) == Some(k as int) && (
                best_sim.0 as int,
                best_sim.1 as int,
                ) == similarity(entered@, calls[k as int]),
                None => best_match(entered@, calls.take(i as int)) is None,
            },
        decreases callers@.len() - i,
    {
        let sim = callsign_similarity(entered, callers[i].params.callsign.as_str());
        let ghost t = calls.take(i + 1);
        assert(t.drop_last() =~= calls.take(i as int));
        assert(t.last() == callers@[i as int].params.callsign@);
        let enough = 5 * sim.0 >= 2 * sim.1;
        if enough {
            match best {
                None => {
                    best = Some(i);
                    best_sim = sim;
                },
                Some(k) => {
                    assert(t[k as int] == calls[k as int]);
                    if at_least_exec(sim, best_sim) {
                        best = Some(i);
                        best_sim = sim;
                    }
                },
            }
        }
        i = i + 1;
    }
    assert(calls.take(calls.len() as int) =~= calls);
    best
}

/// `at_least` is transitive.
proof fn lemma_at_least_trans(s: (int, int), t: (int, int), u: (int, int))
    requires
        s.1 > 0,
        t.1 > 0,
        u.1 > 0,
        at_least(s, t),
        at_least(t, u),
    ensures
        at_least(s, u),
{
    assert(s.0 * u.1 >= u.0 * s.1) by (nonlinear_arith)
        requires
            s.1 > 0,
            t.1 > 0,
            u.1 > 0,
            s.0 * t.1 >= t.0 * s.1,
            t.0 * u.1 >= u.0 * t.1,
    {
        assert(s.0 * t.1 * u.1 >= t.0 * s.1 * u.1);
        assert(t.0 * u.1 * s.1 >= u.0 * t.1 * s.1);
    }
}

proof fn lemma_similarity_den(a: Seq<char>, b: Seq<char>)
    ensures
        similarity(a, b).1 > 0,
{
    crate::cty::lemma_utf8_len_pos(a);
    crate::cty::lemma_utf8_len_pos(b);
}

/// The caller a typed callsign is matched to is similar enough and at least
/// as similar as every caller that is similar enough; when none is matched,
/// no caller is similar enough.
pub proof fn lemma_best_match_is_most_similar(entered: Seq<char>, calls: Seq<Seq<char>>)
    ensures
        match best_match(entered, calls) {
            Some(i) => 0 <= i < calls.len() && similar_enough(similarity(entered, calls[i])) && forall|j: int|
                0 <= j < calls.len() && similar_enough(similarity(entered, #[trigger] calls[j])) ==> at_least(
                    similarity(entered, calls[i]),
                    similarity(entered, calls[j]),
                ),
            None => forall|j: int| 0 <= j < calls.len() ==> !similar_enough(similarity(entered, #[trigger] calls[j])),
        },
    decreases calls.len(),
{
    if calls.len() > 0 {
        let init = calls.drop_last();
        lemma_best_match_is_most_similar(entered, init);
        let n = calls.len() - 1;
        assert forall|j: int| 0 <= j < n implies #[trigger] calls[j] == init[j] by {}
        let s = similarity(entered, calls.last());
        lemma_similarity_den(entered, calls.last());
        match best_match(entered, init) {
            Some(i) => {
                let si = similarity(entered, init[i]);
                lemma_similarity_den(entered, init[i]);
                if similar_enough(s) && at_least(s, si) {
                    assert forall|j: int|
                        0 <= j < calls.len() && similar_enough(similarity(entered, #[trigger] calls[j])) implies at_least(
                        s,
                        similarity(entered, calls[j]),
                    ) by {
                        if j < n {
                            lemma_similarity_den(entered, calls[j]);
                            lemma_at_least_trans(s, si, similarity(entered, calls[j]));
                        } else {
                            assert(s.0 * s.1 >= s.0 * s.1);
                        }
                    }
                } else if similar_enough(s) {
                    assert(!at_least(s, si));
                    assert(at_least(si, s)) by (nonlinear_arith)
                        requires
                            !(s.0 * si.1 >= si.0 * s.1),
                    {
                    }
                }
            },
            None => {
                if similar_enough(s) {
                    assert(at_least(s, s)) by (nonlinear_arith);
                }
            },
        }
    }
}

// ---------------------------------------------------------------------------
// The session
// ---------------------------------------------------------------------------

/// Keys the operator presses.
#[derive(Clone, Copy, PartialEq, Eq, Structural, Debug)]
pub enum Key {
    /// Send CQ (stops everything and starts over).
    F1,
    /// Send our exchange only.
    F2,
    /// Send TU.
    F3,
    /// Send the callsign typed.
    F5,
    /// Ask for a repeat.
    F8,
    /// Wipe the input fields.
    F12,
    /// Submit the field in focus.
    Enter,
    /// Stop transmitting.
    Escape,
    /// Next field (Tab or Space).
    NextField,
    /// Previous field (Shift+Tab or Shift+Space).
    PreviousField,
    /// One WPM faster.
    Up,
    /// One WPM slower.
    Down,
}

/// Text of the CQ call: the CQ message and our callsign, each trimmed.
pub open spec fn cq_text(t: Seq<(Seq<char>, crate::contest::types::SpecValue)>, user_call: Seq<char>) -> Seq<char> {
    trim(setting_str(t, "cq_message"@, "CQ TEST"@)) + seq![' '] + trim(user_call)
}

/// Text of the TU.
pub open spec fn tu_text(user_call: Seq<char>) -> Seq<char> {
    "TU "@ + user_call
}

/// A callsign as typed: trimmed and uppercased.
pub open spec fn typed_call(input: Seq<char>) -> Seq<char> {
    unicode_upper(trim(input))
}

/// Our exchange as sent.
pub open spec fn our_exchange_text(
    c: AnyContest,
    user_call: Seq<char>,
    serial: u32,
    t: Seq<(Seq<char>, crate::contest::types::SpecValue)>,
) -> Seq<char> {
    join_spaces(user_fields(c, user_call, serial, t))
}

/// What the operator works with: the QSO state machine, the contest, the
/// callers, the score and the log. Audio commands pile up in an outbox the
/// caller empties with `take_commands`.
pub struct ContestSession {
    pub state: ContestState,
    pub context: QsoContext,
    pub score: Score,
    pub callsign_input: String,
    pub exchange_inputs: Vec<String>,
    pub current_field: InputField,
    pub last_exchange_field_index: usize,
    pub last_qso_result: Option<QsoResult>,
    pub session_stats: SessionStats,
    pub user: UserSettings,
    pub settings_changed: bool,
    pub contest: AnyContest,
    pub contest_settings: SettingsTable,
    pub user_serial: u32,
    pub last_cq_finished_ms: Option<u64>,
    pub used_agn_callsign: bool,
    pub used_agn_exchange: bool,
    pub used_f5_callsign: bool,
    pub caller_manager: CallerManager,
    pub cty: CtyDat,
    pub outbox: Vec<AudioCommand>,
    /// Why the last CQ was refused: the contest settings' error message.
    pub settings_notice: Option<String>,
}

impl ContestSession {
    /// The session's invariant: a sound caller manager and settings table.
    pub closed spec fn wf(&self) -> bool {
        self.caller_manager.wf() && self.contest_settings.wf()
    }

    /// The audio commands not yet taken.
    pub closed spec fn spec_outbox(&self) -> Seq<SpecCommand> {
        commands_view(self.outbox@)
    }

    pub closed spec fn spec_cty(&self) -> crate::cty::SpecCty {
        self.cty.view_cty()
    }

    /// A new session, idle, with nothing logged.
    pub fn new(
        user: UserSettings,
        simulation: SimulationSettings,
        contest: AnyContest,
        contest_settings: SettingsTable,
        source: AnySource,
        cty: CtyDat,
        now_ms: u64,
    ) -> (s: Self)
        requires
            settings_ok(simulation),
            contest_settings.wf(),
        ensures
            s.wf(),
            s.state == ContestState::Idle,
            s.context.is_fresh(),
            s.score == (Score { qso_count: 0, total_points: 0, start_time_ms: None }),
            s.callsign_input@.len() == 0,
            s.current_field == InputField::Callsign,
            s.last_qso_result is None,
            s.session_stats.qsos@.len() == 0,
            s.user_serial == 1,
            s.spec_outbox().len() == 0,
            s.spec_cty() == cty.view_cty(),
            s.settings_notice is None,
    {
        let defaults = Self::default_inputs(&contest);
        ContestSession {
            state: ContestState::Idle,
            context: QsoContext::new(),
            score: Score::new(),
            callsign_input: String::new(),
            exchange_inputs: defaults,
            current_field: InputField::Callsign,
            last_exchange_field_index: 0,
            last_qso_result: None,
            session_stats: SessionStats::new(),
            user,
            settings_changed: false,
            contest,
            contest_settings,
            user_serial: 1,
            last_cq_finished_ms: None,
            used_agn_callsign: false,
            used_agn_exchange: false,
            used_f5_callsign: false,
            caller_manager: CallerManager::new(source, simulation, now_ms),
            cty,
            outbox: Vec::new(),
            settings_notice: None,
        }
    }

    /// Hands over the audio commands issued so far.
    pub fn take_commands(&mut self) -> (r: Vec<AudioCommand>)
        ensures
            commands_view(r@) == old(self).spec_outbox(),
            final(self).spec_outbox().len() == 0,
            final(self).state == old(self).state,
            final(self).wf() == old(self).wf(),
    {
        let mut r: Vec<AudioCommand> = Vec::new();
        std::mem::swap(&mut r, &mut self.outbox);
        assert(commands_view(self.outbox@) =~= Seq::<SpecCommand>::empty());
        r
    }

    /// What each exchange field starts with: its default value, or nothing.
    pub fn default_inputs(contest: &AnyContest) -> (r: Vec<String>)
        ensures
            r@.len() == exchange_fields_of(*contest).len(),
            forall|i: int| 0 <= i < r@.len() ==> #[trigger] r@[i]@ == default_input(exchange_fields_of(*contest)[i]),
    {
        let fields = contest.exchange_fields();
        let mut r: Vec<String> = Vec::new();
        let mut i: usize = 0;
        while i < fields.len()
            invariant
                i <= fields@.len(),
                fields@ == exchange_fields_of(*contest),
                r@.len() == i,
                forall|k: int| 0 <= k < i ==> #[trigger] r@[k]@ == default_input(fields@[k]),
            decreases fields@.len() - i,
        {
            match fields[i].default_value {
                Some(v) => r.push(copy_string(v)),
                None => r.push(String::new()),
            }
            i = i + 1;
        }
        r
    }
}

fn concat_chars(a: &[char], b: &[char]) -> (r: Vec<char>)
    ensures
        r@ == a@ + b@,
{
    let mut r: Vec<char> = Vec::new();
    let mut i: usize = 0;
    while i < a.len()
        invariant
            i <= a@.len(),
            r@ == a@.take(i as int),
        decreases a@.len() - i,
    {
        r.push(a[i]);
        i = i + 1;
        assert(r@ =~= a@.take(i as int));
    }
    let mut j: usize = 0;
    while j < b.len()
        invariant
            j <= b@.len(),
            r@ == a@ + b@.take(j as int),
        decreases b@.len() - j,
    {
        r.push(b[j]);
        j = j + 1;
        assert(r@ =~= a@ + b@.take(j as int));
    }
    assert(a@.take(a@.len() as int) =~= a@);
    assert(b@.take(b@.len() as int) =~= b@);
    r
}

/// The callsign typed: trimmed and uppercased.
pub fn typed_callsign(input: &str) -> (r: String)
    ensures
        r@ == typed_call(input@),
        (r@.len() == 0) == (trim(input@).len() == 0),
{
    let t = trimmed_chars(input);
    let t = string_of(t.as_slice());
    to_upper(t.as_str())
}

impl ContestSession {
    /// Everything here but the outbox is as before.
    pub open spec fn same_but_outbox(&self, other: &Self) -> bool {
        &&& self.state == other.state
        &&& self.context == other.context
        &&& self.score == other.score
        &&& self.callsign_input == other.callsign_input
        &&& self.exchange_inputs == other.exchange_inputs
        &&& self.current_field == other.current_field
        &&& self.session_stats == other.session_stats
        &&& self.user == other.user
        &&& self.contest == other.contest
        &&& self.contest_settings == other.contest_settings
        &&& self.user_serial == other.user_serial
        &&& self.caller_manager == other.caller_manager
        &&& self.used_agn_callsign == other.used_agn_callsign
        &&& self.used_agn_exchange == other.used_agn_exchange
        &&& self.used_f5_callsign == other.used_f5_callsign
        &&& self.last_cq_finished_ms == other.last_cq_finished_ms
    }

    /// The status line.
    pub fn get_status(&self) -> (r: (&'static str, StatusColor))
        ensures
            r == status_for(self.state, self.context.correction_in_progress, self.context.active_callers@.len()),
    {
        self.state.status_text(&self.context)
    }

    /// New settings take effect: the session runs `contest` with its settings,
    /// callers come from `source` with the simulation settings given, the
    /// caller queue starts empty, and the exchange fields are those of the
    /// contest, with their defaults. The QSO state, score and log stay.
    pub fn apply_settings(
        &mut self,
        contest: AnyContest,
        contest_settings: SettingsTable,
        source: AnySource,
        simulation: SimulationSettings,
    )
        requires
            old(self).wf(),
            settings_ok(simulation),
            contest_settings.wf(),
        ensures
            final(self).wf(),
            final(self).contest == contest,
            final(self).contest_settings == contest_settings,
            final(self).caller_manager.spec_source() == source,
            final(self).caller_manager.spec_settings() == simulation,
            final(self).caller_manager.spec_queue().len() == 0,
            final(self).caller_manager.spec_active_ids().len() == 0,
            final(self).exchange_inputs@.len() == exchange_fields_of(contest).len(),
            forall|i: int|
                0 <= i < final(self).exchange_inputs@.len() ==> #[trigger] final(self).exchange_inputs@[i]@
                    == default_input(exchange_fields_of(contest)[i]),
            final(self).current_field == InputField::Callsign,
            !final(self).settings_changed,
            final(self).state == old(self).state,
            final(self).context == old(self).context,
            final(self).score == old(self).score,
            final(self).session_stats == old(self).session_stats,
            final(self).spec_outbox() == old(self).spec_outbox(),
    {
        self.exchange_inputs = Self::default_inputs(&contest);
        self.current_field = InputField::Callsign;
        self.contest = contest;
        self.contest_settings = contest_settings;
        self.caller_manager.update_callsigns(source);
        self.caller_manager.update_settings(simulation);
        self.settings_changed = false;
    }

    /// Clears the score and the last result; serial numbers start again at 1.
    pub fn reset_score(&mut self)
        ensures
            final(self).score == (Score { qso_count: 0, total_points: 0, start_time_ms: None }),
            final(self).last_qso_result is None,
            final(self).user_serial == 1,
            final(self).state == old(self).state,
            final(self).context == old(self).context,
            final(self).wf() == old(self).wf(),
            final(self).spec_outbox() == old(self).spec_outbox(),
    {
        self.score = Score::new();
        self.last_qso_result = None;
        self.user_serial = 1;
    }

    fn issue(&mut self, c: AudioCommand)
        ensures
            final(self).spec_outbox() == old(self).spec_outbox().push(command_view(c)),
            *final(self) == (ContestSession { outbox: final(self).outbox, ..*old(self) }),
            final(self).same_but_outbox(old(self)),
            final(self).wf() == old(self).wf(),
            final(self).last_qso_result == old(self).last_qso_result,
            final(self).cty == old(self).cty,
    {
        let ghost before = self.outbox@;
        self.outbox.push(c);
        assert(commands_view(self.outbox@) =~= commands_view(before).push(command_view(c)));
    }

    /// Calls CQ: plays the CQ message and our callsign, and starts a new QSO
    /// (context cleared, repeat requests forgotten).
    pub fn send_cq(&mut self)
        ensures
            final(self).spec_outbox() == old(self).spec_outbox().push(
                SpecCommand::PlayUserMessage(cq_text(old(self).contest_settings.view_table(), old(self).user.callsign@), old(self).user.wpm),
            ),
            final(self).state == ContestState::CallingCq,
            final(self).context.is_fresh(),
            !final(self).used_agn_callsign,
            !final(self).used_agn_exchange,
            !final(self).used_f5_callsign,
            final(self).wf() == old(self).wf(),
            final(self).score == old(self).score,
            final(self).session_stats == old(self).session_stats,
            final(self).user_serial == old(self).user_serial,
            final(self).callsign_input == old(self).callsign_input,
            final(self).exchange_inputs == old(self).exchange_inputs,
            final(self).current_field == old(self).current_field,
            final(self).contest == old(self).contest,
            final(self).contest_settings == old(self).contest_settings,
            final(self).user == old(self).user,
            final(self).caller_manager == old(self).caller_manager,
    {
        let cq = self.contest.cq_message(&self.contest_settings);
        let a = trimmed_chars(cq.as_str());
        let b = trimmed_chars(self.user.callsign.as_str());
        let a = concat_chars(a.as_slice(), vec![' '].as_slice());
        let m = concat_chars(a.as_slice(), b.as_slice());
        let message = string_of(m.as_slice());
        assert(message@ =~= cq_text(self.contest_settings.view_table(), self.user.callsign@));
        let wpm = self.user.wpm;
        self.issue(AudioCommand::PlayUserMessage { message, wpm });
        self.state = ContestState::CallingCq;
        self.used_agn_callsign = false;
        self.used_agn_exchange = false;
        self.used_f5_callsign = false;
        self.context.reset();
    }

    /// Our exchange as it is sent.
    pub fn our_exchange(&self) -> (r: String)
        ensures
            r@ == our_exchange_text(self.contest, self.user.callsign@, self.user_serial, self.contest_settings.view_table()),
    {
        let fields = self.contest.user_exchange_fields(self.user.callsign.as_str(), self.user_serial, &self.contest_settings);
        self.contest.format_user_exchange(fields.as_slice())
    }

    /// Sends their callsign and our exchange, each segment reported when
    /// done; we no longer hold back the exchange.
    pub fn send_exchange(&mut self, their_call: &str)
        ensures
            final(self).spec_outbox() == old(self).spec_outbox().push(
                SpecCommand::PlayUserMessageSegmented(
                    seq![
                        (their_call@, MessageSegmentType::TheirCallsign),
                        (our_exchange_text(old(self).contest, old(self).user.callsign@, old(self).user_serial, old(self).contest_settings.view_table()), MessageSegmentType::OurExchange),
                    ],
                    old(self).user.wpm,
                ),
            ),
            final(self).context == (QsoContext { awaiting_user_exchange: false, ..old(self).context }),
            final(self).state == old(self).state,
            final(self).wf() == old(self).wf(),
            final(self).score == old(self).score,
            final(self).session_stats == old(self).session_stats,
            final(self).user_serial == old(self).user_serial,
            final(self).callsign_input == old(self).callsign_input,
            final(self).exchange_inputs == old(self).exchange_inputs,
            final(self).current_field == old(self).current_field,
            final(self).contest == old(self).contest,
            final(self).contest_settings == old(self).contest_settings,
            final(self).user == old(self).user,
            final(self).caller_manager == old(self).caller_manager,
            final(self).used_agn_callsign == old(self).used_agn_callsign,
            final(self).used_agn_exchange == old(self).used_agn_exchange,
            final(self).used_f5_callsign == old(self).used_f5_callsign,
            final(self).last_qso_result == old(self).last_qso_result,
            final(self).last_cq_finished_ms == old(self).last_cq_finished_ms,
            final(self).cty == old(self).cty,
    {
        self.context.awaiting_user_exchange = false;
        let exchange = self.our_exchange();
        let segments = vec![
            MessageSegment { content: copy_string(their_call), segment_type: MessageSegmentType::TheirCallsign },
            MessageSegment { content: exchange, segment_type: MessageSegmentType::OurExchange },
        ];
        let wpm = self.user.wpm;
        let c = AudioCommand::PlayUserMessageSegmented { segments, wpm };
        assert(segments@.map_values(|s: MessageSegment| segment_view(s)) =~= seq![
            (their_call@, MessageSegmentType::TheirCallsign),
            (our_exchange_text(self.contest, self.user.callsign@, self.user_serial, self.contest_settings.view_table()), MessageSegmentType::OurExchange),
        ]);
        self.issue(c);
    }

    /// Sends our exchange alone.
    pub fn send_exchange_only(&mut self)
        ensures
            final(self).spec_outbox() == old(self).spec_outbox().push(
                SpecCommand::PlayUserMessageSegmented(
                    seq![
                        (our_exchange_text(old(self).contest, old(self).user.callsign@, old(self).user_serial, old(self).contest_settings.view_table()), MessageSegmentType::OurExchange),
                    ],
                    old(self).user.wpm,
                ),
            ),
            final(self).context == (QsoContext { awaiting_user_exchange: false, ..old(self).context }),
            final(self).state == old(self).state,
            final(self).wf() == old(self).wf(),
            final(self).score == old(self).score,
            final(self).session_stats == old(self).session_stats,
            final(self).user_serial == old(self).user_serial,
            final(self).callsign_input == old(self).callsign_input,
            final(self).exchange_inputs == old(self).exchange_inputs,
            final(self).current_field == old(self).current_field,
            final(self).contest == old(self).contest,
            final(self).contest_settings == old(self).contest_settings,
            final(self).user == old(self).user,
            final(self).caller_manager == old(self).caller_manager,
            final(self).used_agn_callsign == old(self).used_agn_callsign,
            final(self).used_agn_exchange == old(self).used_agn_exchange,
            final(self).used_f5_callsign == old(self).used_f5_callsign,
            final(self).last_cq_finished_ms == old(self).last_cq_finished_ms,
    {
        self.context.awaiting_user_exchange = false;
        let exchange = self.our_exchange();
        let segments = vec![MessageSegment { content: exchange, segment_type: MessageSegmentType::OurExchange }];
        let wpm = self.user.wpm;
        let c = AudioCommand::PlayUserMessageSegmented { segments, wpm };
        assert(segments@.map_values(|s: MessageSegment| segment_view(s)) =~= seq![
            (our_exchange_text(self.contest, self.user.callsign@, self.user_serial, self.contest_settings.view_table()), MessageSegmentType::OurExchange),
        ]);
        self.issue(c);
    }

    /// Sends TU and our callsign.
    pub fn send_tu(&mut self)
        ensures
            final(self).spec_outbox() == old(self).spec_outbox().push(
                SpecCommand::PlayUserMessage(tu_text(old(self).user.callsign@), old(self).user.wpm),
            ),
            *final(self) == (ContestSession { outbox: final(self).outbox, ..*old(self) }),
            final(self).same_but_outbox(old(self)),
            final(self).wf() == old(self).wf(),
            final(self).last_qso_result == old(self).last_qso_result,
            final(self).cty == old(self).cty,
    {
        let tu = chars_of("TU ");
        let call = chars_of(self.user.callsign.as_str());
        let m = concat_chars(tu.as_slice(), call.as_slice());
        let message = string_of(m.as_slice());
        let wpm = self.user.wpm;
        self.issue(AudioCommand::PlayUserMessage { message, wpm });
    }

    /// Sends the callsign typed (nothing when none is typed).
    pub fn send_his_call(&mut self)
        ensures
            typed_call(old(self).callsign_input@).len() == 0 ==> final(self).spec_outbox() == old(self).spec_outbox(),
            typed_call(old(self).callsign_input@).len() > 0 ==> final(self).spec_outbox() == old(self).spec_outbox().push(
                SpecCommand::PlayUserMessageSegmented(
                    seq![(typed_call(old(self).callsign_input@), MessageSegmentType::TheirCallsign)],
                    old(self).user.wpm,
                ),
            ),
            final(self).same_but_outbox(old(self)),
            final(self).wf() == old(self).wf(),
            final(self).last_qso_result == old(self).last_qso_result,
            final(self).cty == old(self).cty,
    {
        let their_call = typed_callsign(self.callsign_input.as_str());
        let v = chars_of(their_call.as_str());
        if v.len() == 0 {
            return;
        }
        let segments = vec![MessageSegment { content: their_call, segment_type: MessageSegmentType::TheirCallsign }];
        let wpm = self.user.wpm;
        let c = AudioCommand::PlayUserMessageSegmented { segments, wpm };
        assert(segments@.map_values(|s: MessageSegment| segment_view(s)) =~= seq![
            (typed_call(self.callsign_input@), MessageSegmentType::TheirCallsign),
        ]);
        self.issue(c);
    }
}

/// Times are milliseconds that leave room for the delays added to them.
pub open spec fn time_ok(now_ms: u64) -> bool {
    now_ms <= 0x7fff_ffff_ffff_ffff
}

/// The field after `f` in the order Callsign, Exchange(0), ..., Exchange(n - 1),
/// wrapping around.
pub open spec fn next_field(f: InputField, n: nat) -> InputField {
    match f {
        InputField::Callsign => if n > 0 {
            InputField::Exchange(0)
        } else {
            InputField::Callsign
        },
        InputField::Exchange(i) => if i + 1 < n {
            InputField::Exchange((i + 1) as usize)
        } else {
            InputField::Callsign
        },
    }
}

/// The field before `f` in the same order.
pub open spec fn previous_field(f: InputField, n: nat) -> InputField {
    match f {
        InputField::Callsign => if n > 0 {
            InputField::Exchange((n - 1) as usize)
        } else {
            InputField::Callsign
        },
        InputField::Exchange(i) => if i == 0 || i > n {
            InputField::Callsign
        } else {
            InputField::Exchange((i - 1) as usize)
        },
    }
}

impl ContestSession {
    /// F8 while receiving the exchange: stops the audio and asks for it again.
    pub fn handle_agn_request(&mut self)
        ensures
            old(self).state != (ContestState::StationTransmitting { tx_type: StationTxType::SendingExchange })
                ==> *final(self) == *old(self),
            old(self).state == (ContestState::StationTransmitting { tx_type: StationTxType::SendingExchange })
                ==> {
                &&& final(self).spec_outbox() == old(self).spec_outbox().push(SpecCommand::StopAll).push(
                    SpecCommand::PlayUserMessage(old(self).user.agn_message@, old(self).user.wpm),
                )
                &&& final(self).state == (ContestState::UserTransmitting { tx_type: UserTxType::Agn })
                &&& final(self).used_agn_exchange
                &&& final(self).context == old(self).context
                &&& final(self).used_agn_callsign == old(self).used_agn_callsign
                &&& final(self).wf() == old(self).wf()
            },
    {
        if self.state != (ContestState::StationTransmitting { tx_type: StationTxType::SendingExchange }) {
            return;
        }
        self.issue(AudioCommand::StopAll);
        let message = self.user.agn_message.clone();
        let wpm = self.user.wpm;
        self.issue(AudioCommand::PlayUserMessage { message, wpm });
        self.state = ContestState::UserTransmitting { tx_type: UserTxType::Agn };
        self.used_agn_exchange = true;
    }

    /// F8 while stations call: stops the audio, asks for the callsign again,
    /// and expects the caller to repeat it.
    pub fn handle_callsign_agn_request(&mut self)
        ensures
            old(self).state != ContestState::StationsCalling ==> *final(self) == *old(self),
            old(self).state == ContestState::StationsCalling ==> {
                &&& final(self).spec_outbox() == old(self).spec_outbox().push(SpecCommand::StopAll).push(
                    SpecCommand::PlayUserMessage(old(self).user.agn_message@, old(self).user.wpm),
                )
                &&& final(self).state == (ContestState::UserTransmitting { tx_type: UserTxType::Agn })
                &&& final(self).used_agn_callsign
                &&& final(self).context == (QsoContext { expecting_callsign_repeat: true, ..old(self).context })
                &&& final(self).used_agn_exchange == old(self).used_agn_exchange
                &&& final(self).wf() == old(self).wf()
            },
    {
        if self.state != ContestState::StationsCalling {
            return;
        }
        self.issue(AudioCommand::StopAll);
        let message = self.user.agn_message.clone();
        let wpm = self.user.wpm;
        self.issue(AudioCommand::PlayUserMessage { message, wpm });
        self.context.expecting_callsign_repeat = true;
        self.state = ContestState::UserTransmitting { tx_type: UserTxType::Agn };
        self.used_agn_callsign = true;
    }

    /// A station finished sending: after an AGN request or a correction the
    /// stations are calling again; otherwise nothing changes.
    pub fn on_station_audio_complete(&mut self, id: StationId)
        ensures
            station_audio_effect(*old(self), *final(self)),
    {
        match self.state {
            ContestState::StationTransmitting { tx_type } => match tx_type {
                StationTxType::RequestingAgn => {
                    self.state = ContestState::StationsCalling;
                },
                StationTxType::Correction => {
                    self.state = ContestState::StationsCalling;
                },
                StationTxType::SendingExchange => {},
            },
            _ => {},
        }
    }

    /// A segment of our message finished: the caller has now heard its
    /// callsign, or our exchange.
    pub fn on_segment_complete(&mut self, segment_type: MessageSegmentType)
        ensures
            segment_effect(*old(self), *final(self), segment_type),
    {
        match segment_type {
            MessageSegmentType::TheirCallsign => {
                self.context.progress.sent_their_call = true;
            },
            MessageSegmentType::OurExchange => {
                self.context.progress.sent_our_exchange = true;
            },
            _ => {},
        }
    }

    fn exchange_field_count(&self) -> (n: usize)
        ensures
            n == exchange_fields_of(self.contest).len(),
    {
        self.contest.exchange_fields().len()
    }

    /// Tab or Space: focus the next field.
    pub fn focus_next_field(&mut self)
        ensures
            focus_next_effect(*old(self), *final(self)),
    {
        let n = self.exchange_field_count();
        self.current_field = match self.current_field {
            InputField::Callsign => if n > 0 {
                InputField::Exchange(0)
            } else {
                InputField::Callsign
            },
            InputField::Exchange(i) => if i < n && i + 1 < n {
                InputField::Exchange(i + 1)
            } else {
                InputField::Callsign
            },
        };
        if let InputField::Exchange(i) = self.current_field {
            self.last_exchange_field_index = i;
        }
    }

    /// Shift+Tab or Shift+Space: focus the previous field.
    pub fn focus_previous_field(&mut self)
        ensures
            focus_previous_effect(*old(self), *final(self)),
    {
        let n = self.exchange_field_count();
        self.current_field = match self.current_field {
            InputField::Callsign => if n > 0 {
                InputField::Exchange(n - 1)
            } else {
                InputField::Callsign
            },
            InputField::Exchange(i) => if i == 0 || i > n {
                InputField::Callsign
            } else {
                InputField::Exchange(i - 1)
            },
        };
        if let InputField::Exchange(i) = self.current_field {
            self.last_exchange_field_index = i;
        }
    }

    /// F12: clears the callsign, puts the exchange fields back to their
    /// defaults, and focuses the callsign field.
    pub fn wipe(&mut self)
        ensures
            wipe_effect(*old(self), *final(self)),
    {
        self.callsign_input = String::new();
        self.exchange_inputs = Self::default_inputs(&self.contest);
        self.current_field = InputField::Callsign;
    }

    /// The field that takes focus once a callsign is sent: the exchange
    /// field marked for it, else the first exchange field.
    pub fn entry_field(&self) -> (f: InputField)
        ensures
            f == InputField::Exchange(entry_index(exchange_fields_of(self.contest)) as usize),
    {
        let fields = self.contest.exchange_fields();
        let mut i: usize = 0;
        while i < fields.len()
            invariant
                i <= fields@.len(),
                fields@ == exchange_fields_of(self.contest),
                forall|k: int| 0 <= k < i ==> !(#[trigger] fields@[k]).focus_on_enter,
            decreases fields@.len() - i,
        {
            if fields[i].focus_on_enter {
                proof {
                    lemma_entry_index(fields@, i as int);
                }
                return InputField::Exchange(i);
            }
            i = i + 1;
        }
        proof {
            lemma_entry_index_none(fields@);
        }
        InputField::Exchange(0)
    }
}

/// Index of the first field marked to take focus after the callsign (0 when
/// none is).
pub open spec fn entry_index(fields: Seq<ExchangeField>) -> nat
    decreases fields.len(),
{
    if fields.len() == 0 {
        0
    } else if fields[0].focus_on_enter {
        0
    } else if exists|k: int| 0 < k < fields.len() && (#[trigger] fields[k]).focus_on_enter {
        1 + entry_index(fields.drop_first())
    } else {
        0
    }
}

proof fn lemma_entry_index(fields: Seq<ExchangeField>, i: int)
    requires
        0 <= i < fields.len(),
        fields[i].focus_on_enter,
        forall|k: int| 0 <= k < i ==> !(#[trigger] fields[k]).focus_on_enter,
    ensures
        entry_index(fields) == i,
    decreases i,
{
    if i > 0 {
        let d = fields.drop_first();
        assert(d[i - 1] == fields[i]);
        assert forall|k: int| 0 <= k < i - 1 implies !(#[trigger] d[k]).focus_on_enter by {
            assert(d[k] == fields[k + 1]);
        }
        lemma_entry_index(d, i - 1);
        assert(0 < i < fields.len() && fields[i].focus_on_enter);
    }
}

proof fn lemma_entry_index_none(fields: Seq<ExchangeField>)
    requires
        forall|k: int| 0 <= k < fields.len() ==> !(#[trigger] fields[k]).focus_on_enter,
    ensures
        entry_index(fields) == 0,
{
    if fields.len() > 0 {
        assert(!fields[0].focus_on_enter);
    }
}

/// The current caller is the one at `i` (as plain data).
pub open spec fn current_is(ctx: QsoContext, callers: Seq<ActiveCaller>, i: int) -> bool {
    ctx.current_caller matches Some(c) && caller_view(c) == caller_view(callers[i])
}

/// The context after the typed callsign picks a caller from the pileup: the
/// caller best matching it becomes current, and a pileup narrows down to
/// that caller alone. Nothing changes when no caller matches.
pub open spec fn narrowed(old_ctx: QsoContext, ctx: QsoContext, entered: Seq<char>) -> bool {
    match best_match(entered, calls_of(old_ctx.active_callers@)) {
        Some(i) => {
            &&& current_is(ctx, old_ctx.active_callers@, i)
            &&& if old_ctx.active_callers@.len() > 1 {
                callers_view(ctx.active_callers@) == seq![caller_view(old_ctx.active_callers@[i])]
            } else {
                ctx.active_callers == old_ctx.active_callers
            }
            &&& ctx.progress == old_ctx.progress
            &&& ctx.correction_in_progress == old_ctx.correction_in_progress
            &&& ctx.correction_attempts == old_ctx.correction_attempts
            &&& ctx.caller_exchange_sent_once == old_ctx.caller_exchange_sent_once
            &&& ctx.wait_until == old_ctx.wait_until
        },
        None => ctx == old_ctx,
    }
}

impl ContestSession {
    fn narrow_to_match(&mut self, entered: &str)
        ensures
            narrowed(old(self).context, final(self).context, entered@),
            *final(self) == (ContestSession { context: final(self).context, ..*old(self) }),
            final(self).context.expecting_callsign_repeat == old(self).context.expecting_callsign_repeat,
            final(self).context.awaiting_user_exchange == old(self).context.awaiting_user_exchange,
    {
        let matching = find_similar_caller(entered, self.context.active_callers.as_slice());
        match matching {
            Some(i) => {
                let multiple = self.context.active_callers.len() > 1;
                let caller = self.context.active_callers[i].clone_caller();
                let keep = caller.clone_caller();
                let ghost old_callers = self.context.active_callers@;
                self.context.select_caller(caller);
                if multiple {
                    self.context.set_callers(vec![keep]);
                    assert(callers_view(self.context.active_callers@) =~= seq![caller_view(old_callers[i as int])]);
                }
            },
            None => {},
        }
    }

    /// F5: stops the audio and sends the callsign typed. The caller best
    /// matching it is selected (a pileup narrows to it), and it is expected to
    /// repeat its callsign. When the callsign is exactly the caller's and our
    /// exchange is not yet sent, the caller also waits for our exchange.
    pub fn handle_f5_his_call(&mut self)
        ensures
            f5_effect(*old(self), *final(self)),
    {
        let entered = typed_callsign(self.callsign_input.as_str());
        let ev = chars_of(entered.as_str());
        if ev.len() == 0 {
            return;
        }
        if self.context.active_callers.len() == 0 {
            return;
        }
        self.issue(AudioCommand::StopAll);
        self.narrow_to_match(entered.as_str());
        let exact = match self.context.get_current_caller() {
            Some(c) => c.params.callsign == entered,
            None => false,
        };
        self.send_his_call();
        self.context.awaiting_user_exchange = exact && !self.context.progress.sent_our_exchange;
        self.context.expecting_callsign_repeat = true;
        self.used_f5_callsign = true;
        self.state = ContestState::UserTransmitting { tx_type: UserTxType::CallsignOnly };
    }

    /// F2: stops the audio and sends our exchange. When a callsign is typed,
    /// the caller best matching it is selected first.
    pub fn handle_f2_exchange(&mut self)
        ensures
            f2_effect(*old(self), *final(self)),
    {
        if self.context.active_callers.len() == 0 {
            return;
        }
        self.issue(AudioCommand::StopAll);
        let entered = typed_callsign(self.callsign_input.as_str());
        let ev = chars_of(entered.as_str());
        if ev.len() > 0 {
            self.narrow_to_match(entered.as_str());
        }
        self.send_exchange_only();
        self.state = ContestState::UserTransmitting { tx_type: UserTxType::ExchangeOnly };
    }

    /// Makes caller `i` current and decides on a correction: none when the
    /// callsign is right, else with the correction probability while
    /// attempts are left.
    fn answer_caller(&mut self, i: usize, entered: &String)
        requires
            i < old(self).context.active_callers@.len(),
        ensures
            *final(self) == (ContestSession { context: final(self).context, ..*old(self) }),
            ({
                let callers = old(self).context.active_callers@;
                let exact = entered@ == callers[i as int].params.callsign@;
                let max = old(self).caller_manager.spec_settings().call_correction.max_correction_attempts;
                &&& current_is(final(self).context, callers, i as int)
                &&& final(self).context.active_callers == old(self).context.active_callers
                &&& final(self).context.progress == old(self).context.progress
                &&& exact ==> !final(self).context.correction_in_progress
                    && final(self).context.correction_attempts == old(self).context.correction_attempts
                &&& !exact && final(self).context.correction_in_progress ==> old(self).context.correction_attempts < max
                    && final(self).context.correction_attempts == old(self).context.correction_attempts + 1
                &&& !exact && !final(self).context.correction_in_progress ==> final(self).context.correction_attempts
                    == old(self).context.correction_attempts
                &&& final(self).context.awaiting_user_exchange == old(self).context.awaiting_user_exchange
                &&& final(self).context.expecting_callsign_repeat == old(self).context.expecting_callsign_repeat
            }),
    {
        let caller = self.context.active_callers[i].clone_caller();
        let exact = *entered == caller.params.callsign;
        self.context.select_caller(caller);
        if exact {
            self.context.end_correction();
        } else {
            let cc = self.caller_manager.settings().call_correction;
            let roll = random_below(1_000_000) as u64;
            let should_correct = roll < cc.correction_probability_ppm as u64
                && self.context.correction_attempts < cc.max_correction_attempts;
            if should_correct {
                self.context.correction_in_progress = true;
                self.context.increment_correction_attempt();
            } else {
                self.context.end_correction();
            }
        }
    }

    /// Sends their callsign and our exchange to the pileup, for the caller
    /// best matching what was typed (else the first caller).
    fn submit_callsign_to_pileup(&mut self, entered: String)
        requires
            old(self).context.active_callers@.len() > 0,
        ensures
            final(self).caller_manager == old(self).caller_manager,
            final(self).score == old(self).score,
            final(self).session_stats == old(self).session_stats,
            final(self).user_serial == old(self).user_serial,
            ({
                let callers = old(self).context.active_callers@;
                let i = match best_match(entered@, calls_of(callers)) {
                    Some(i) => i,
                    None => 0,
                };
                let exact = entered@ == callers[i].params.callsign@;
                let max = old(self).caller_manager.spec_settings().call_correction.max_correction_attempts;
                &&& current_is(final(self).context, callers, i)
                &&& final(self).context.active_callers@ == callers
                &&& final(self).context.progress == old(self).context.progress
                &&& exact ==> !final(self).context.correction_in_progress
                    && final(self).context.correction_attempts == old(self).context.correction_attempts
                &&& !exact && final(self).context.correction_in_progress ==> old(self).context.correction_attempts < max
                    && final(self).context.correction_attempts == old(self).context.correction_attempts + 1
                &&& !exact && !final(self).context.correction_in_progress ==> final(self).context.correction_attempts
                    == old(self).context.correction_attempts
                &&& !final(self).context.awaiting_user_exchange
                &&& final(self).context.expecting_callsign_repeat == old(self).context.expecting_callsign_repeat
                &&& final(self).spec_outbox() == old(self).spec_outbox().push(
                    SpecCommand::PlayUserMessageSegmented(
                        seq![
                            (entered@, MessageSegmentType::TheirCallsign),
                            (our_exchange_text(old(self).contest, old(self).user.callsign@, old(self).user_serial, old(self).contest_settings.view_table()), MessageSegmentType::OurExchange),
                        ],
                        old(self).user.wpm,
                    ),
                )
                &&& final(self).state == (ContestState::UserTransmitting { tx_type: UserTxType::Exchange })
                &&& final(self).current_field == InputField::Exchange(entry_index(exchange_fields_of(old(self).contest)) as usize)
                &&& final(self).wf() == old(self).wf()
            }),
    {
        let i = match find_similar_caller(entered.as_str(), self.context.active_callers.as_slice()) {
            Some(i) => i,
            None => 0,
        };
        self.answer_caller(i, &entered);
        self.send_exchange(entered.as_str());
        self.state = ContestState::UserTransmitting { tx_type: UserTxType::Exchange };
        self.current_field = self.entry_field();
    }

    /// Enter in the callsign field while stations call: the callsign counts
    /// as received, and the caller best matching it (else the first caller)
    /// becomes current. A busted callsign makes the caller correct it, with
    /// the correction probability, while it has correction attempts left;
    /// a right one ends any correction. Their callsign and our exchange are
    /// sent and the exchange field takes focus.
    #[verifier::rlimit(100)]
    pub fn handle_callsign_submit(&mut self)
        ensures
            callsign_submit_effect(*old(self), *final(self)),
    {
        let entered = typed_callsign(self.callsign_input.as_str());
        let ev = chars_of(entered.as_str());
        if ev.len() == 0 {
            return;
        }
        if self.state != ContestState::StationsCalling {
            return;
        }
        self.context.progress.received_their_call = true;
        if self.context.active_callers.len() == 0 {
            return;
        }
        self.submit_callsign_to_pileup(entered);
    }
}

/// Some exchange field holds more than whitespace.
pub open spec fn any_input(v: Seq<String>) -> bool {
    exists|i: int| 0 <= i < v.len() && trim((#[trigger] v[i])@).len() > 0
}

/// A contest never gives more than two points for a QSO.
pub proof fn lemma_points_at_most_two(
    c: AnyContest,
    expected_call: Seq<char>,
    expected: Seq<Seq<char>>,
    received_call: Seq<char>,
    received: Seq<Seq<char>>,
)
    ensures
        contest_validation(c, expected_call, expected, received_call, received).points <= 2,
{
}

/// The record logged for a QSO.
pub open spec fn record_ok(
    r: QsoRecord,
    caller: ActiveCaller,
    entered_call: Seq<char>,
    inputs: Seq<String>,
    v: crate::contest::types::ValidationResult,
    used_agn_callsign: bool,
    used_agn_exchange: bool,
    used_f5_callsign: bool,
) -> bool {
    &&& r.expected_callsign@ == caller.params.callsign@
    &&& r.entered_callsign@ == entered_call
    &&& r.callsign_correct == v.callsign_correct
    &&& r.expected_exchange@ == join_spaces(caller.params.exchange.view_fields())
    &&& r.entered_exchange@ == join_spaces(received_view(inputs))
    &&& r.exchange_correct == v.exchange_correct
    &&& r.station_wpm == caller.params.wpm
    &&& r.points == v.points
    &&& r.used_agn_callsign == used_agn_callsign
    &&& r.used_agn_exchange == used_agn_exchange
    &&& r.used_f5_callsign == used_f5_callsign
}

fn any_input_exec(v: &Vec<String>) -> (b: bool)
    ensures
        b == any_input(v@),
{
    let mut i: usize = 0;
    while i < v.len()
        invariant
            i <= v@.len(),
            forall|k: int| 0 <= k < i ==> trim((#[trigger] v@[k])@).len() == 0,
        decreases v@.len() - i,
    {
        let t = trimmed_chars(v[i].as_str());
        if t.len() > 0 {
            return true;
        }
        i = i + 1;
    }
    false
}

impl ContestSession {
    /// Enter in an exchange field while the caller sends its exchange: the
    /// QSO is checked, logged and scored, the caller is marked worked, TU is
    /// sent, and the fields are cleared for the next QSO. Whatever happens,
    /// something typed in the exchange fields counts as the exchange received.
    #[verifier::rlimit(100)]
    pub fn handle_exchange_submit(&mut self, now_ms: u64)
        requires
            old(self).wf(),
            old(self).score.qso_count < u32::MAX,
            old(self).score.total_points + 2 <= u32::MAX,
            old(self).user_serial < u32::MAX,
        ensures
            exchange_submit_effect(*old(self), *final(self), now_ms),
    {
        if any_input_exec(&self.exchange_inputs) {
            self.context.progress.received_their_exchange = true;
        }
        let caller = match self.context.get_current_caller() {
            Some(c) => c.clone_caller(),
            None => return,
        };
        if self.state != (ContestState::StationTransmitting { tx_type: StationTxType::SendingExchange }) {
            return;
        }
        self.log_current_qso(caller, now_ms);
    }

    #[verifier::rlimit(100)]
    fn log_current_qso(&mut self, caller: ActiveCaller, now_ms: u64)
        requires
            old(self).wf(),
            old(self).score.qso_count < u32::MAX,
            old(self).score.total_points + 2 <= u32::MAX,
            old(self).user_serial < u32::MAX,
        ensures
            final(self).wf(),
            final(self).context.progress == old(self).context.progress,
            ({
                let entered = typed_call(old(self).callsign_input@);
                let v = contest_validation(
                    old(self).contest,
                    caller.params.callsign@,
                    caller.params.exchange.view_fields(),
                    entered,
                    received_view(old(self).exchange_inputs@),
                );
                &&& final(self).session_stats.qsos@.len() == old(self).session_stats.qsos@.len() + 1
                &&& final(self).session_stats.qsos@.drop_last() == old(self).session_stats.qsos@
                &&& record_ok(
                    final(self).session_stats.qsos@.last(),
                    caller,
                    entered,
                    old(self).exchange_inputs@,
                    v,
                    old(self).used_agn_callsign,
                    old(self).used_agn_exchange,
                    old(self).used_f5_callsign,
                )
                &&& final(self).score.qso_count == old(self).score.qso_count + 1
                &&& final(self).score.total_points == old(self).score.total_points + v.points
                &&& final(self).user_serial == old(self).user_serial + 1
                &&& final(self).last_qso_result matches Some(r) && r.callsign@ == entered && r.expected_call@
                    == caller.params.callsign@ && r.expected_exchange@ == join_spaces(caller.params.exchange.view_fields())
                    && r.callsign_correct == v.callsign_correct && r.exchange_correct == v.exchange_correct
                    && r.points == v.points
                &&& final(self).spec_outbox() == old(self).spec_outbox().push(
                    SpecCommand::PlayUserMessage(tu_text(old(self).user.callsign@), old(self).user.wpm),
                )
                &&& final(self).state == ContestState::QsoComplete
                &&& final(self).callsign_input@.len() == 0
                &&& final(self).current_field == InputField::Callsign
                &&& final(self).exchange_inputs@.len() == exchange_fields_of(old(self).contest).len()
                &&& !final(self).context.correction_in_progress
                &&& final(self).caller_manager.spec_active_ids() == crate::station::caller_manager::without_id(
                    old(self).caller_manager.spec_active_ids(),
                    caller.params.id,
                )
            }),
    {
        let entered = typed_callsign(self.callsign_input.as_str());
        let v = self.contest.validate(
            caller.params.callsign.as_str(),
            &caller.params.exchange,
            entered.as_str(),
            self.exchange_inputs.as_slice(),
            &self.contest_settings,
        );
        proof {
            lemma_points_at_most_two(
                self.contest,
                caller.params.callsign@,
                caller.params.exchange.view_fields(),
                entered@,
                received_view(self.exchange_inputs@),
            );
        }
        let expected_exchange = self.contest.format_exchange(&caller.params.exchange);
        let entered_exchange = self.contest.format_received_exchange(self.exchange_inputs.as_slice());
        let result = QsoResult {
            callsign: entered.clone(),
            expected_call: caller.params.callsign.clone(),
            expected_exchange: expected_exchange.clone(),
            callsign_correct: v.callsign_correct,
            exchange_correct: v.exchange_correct,
            points: v.points,
        };
        let record = QsoRecord {
            expected_callsign: caller.params.callsign.clone(),
            entered_callsign: entered,
            callsign_correct: v.callsign_correct,
            expected_exchange,
            entered_exchange,
            exchange_correct: v.exchange_correct,
            station_wpm: caller.params.wpm,
            points: v.points,
            used_agn_callsign: self.used_agn_callsign,
            used_agn_exchange: self.used_agn_exchange,
            used_f5_callsign: self.used_f5_callsign,
        };
        self.session_stats.log_qso(record);
        self.score.add_qso(v.points, now_ms);
        self.user_serial = self.user_serial + 1;
        self.caller_manager.on_qso_complete(caller.params.id);
        self.send_tu();
        self.last_qso_result = Some(result);
        self.state = ContestState::QsoComplete;
        self.callsign_input = String::new();
        self.exchange_inputs = Self::default_inputs(&self.contest);
        self.current_field = InputField::Callsign;
        self.context.end_correction();
    }
}

/// The random outcomes a caller's reply depends on.
#[derive(Clone, Copy, PartialEq, Eq, Structural, Debug)]
pub struct ReplyRolls {
    /// Answer a repeated callsign with "R R" (when allowed).
    pub ack: bool,
    /// Send a correction twice.
    pub twice: bool,
    /// Which of two answers (callsign or "?", "AGN" or "?").
    pub coin: bool,
    /// A draw of 0 to 999999 against the AGN-request probability.
    pub agn_roll: u32,
}

/// What the current caller sends, and the state that follows, given the
/// context, its callsign and exchange as sent, and the rolls: a callsign
/// repeat when one is expected ("R R" instead, when allowed and rolled);
/// a correction (its callsign, once or twice); otherwise by what it heard:
/// confused (its callsign or "?"), an AGN request ("AGN" or "?"), its
/// exchange (or, before it ever sent it, an AGN request with the AGN
/// probability), or silence while it waits for our exchange.
pub open spec fn reply_for(
    ctx: QsoContext,
    call: Seq<char>,
    exch: Seq<char>,
    agn_ppm: u32,
    r: ReplyRolls,
) -> (Option<Seq<char>>, ContestState) {
    if ctx.expecting_callsign_repeat {
        (
            Some(
                if ctx.allow_callsign_repeat_ack && r.ack {
                    "R R"@
                } else {
                    call
                },
            ),
            ContestState::StationsCalling,
        )
    } else if ctx.correction_in_progress {
        (
            Some(
                if r.twice {
                    call + seq![' '] + call
                } else {
                    call
                },
            ),
            ContestState::StationTransmitting { tx_type: StationTxType::Correction },
        )
    } else {
        match response_in_context(ctx.progress, ctx.awaiting_user_exchange) {
            CallerResponse::Confused => (
                Some(
                    if r.coin {
                        call
                    } else {
                        "?"@
                    },
                ),
                ContestState::StationsCalling,
            ),
            CallerResponse::RequestAgn => (
                Some(
                    if r.coin {
                        "AGN"@
                    } else {
                        "?"@
                    },
                ),
                ContestState::StationTransmitting { tx_type: StationTxType::RequestingAgn },
            ),
            CallerResponse::SendExchange => if !ctx.caller_exchange_sent_once && r.agn_roll < agn_ppm {
                (
                    Some(
                        if r.coin {
                            "AGN"@
                        } else {
                            "?"@
                        },
                    ),
                    ContestState::StationTransmitting { tx_type: StationTxType::RequestingAgn },
                )
            } else {
                (Some(exch), ContestState::StationTransmitting { tx_type: StationTxType::SendingExchange })
            },
            CallerResponse::Wait => (None, ContestState::StationsCalling),
        }
    }
}

/// The context after the caller's reply: a callsign repeat is no longer
/// expected once given; waiting clears the timer; sending the exchange
/// is remembered.
pub open spec fn context_after_reply(ctx: QsoContext, next: ContestState) -> QsoContext {
    if ctx.expecting_callsign_repeat {
        QsoContext { expecting_callsign_repeat: false, ..ctx }
    } else if ctx.correction_in_progress {
        ctx
    } else if response_in_context(ctx.progress, ctx.awaiting_user_exchange) == CallerResponse::Wait {
        QsoContext { wait_until: None, ..ctx }
    } else if next == (ContestState::StationTransmitting { tx_type: StationTxType::SendingExchange }) {
        QsoContext { caller_exchange_sent_once: true, ..ctx }
    } else {
        ctx
    }
}

fn join_call_twice(call: &str) -> (r: String)
    ensures
        r@ == call@ + seq![' '] + call@,
{
    let a = chars_of(call);
    let b = concat_chars(a.as_slice(), vec![' '].as_slice());
    let c = concat_chars(b.as_slice(), a.as_slice());
    string_of(c.as_slice())
}

/// The caller's reply for given rolls (see `reply_for`).
pub fn caller_reply(context: &QsoContext, call: &str, exch: &str, agn_ppm: u32, rolls: ReplyRolls) -> (r: (
    Option<String>,
    ContestState,
))
    ensures
        (match r.0 {
            Some(t) => Some(t@),
            None => None,
        }, r.1) == reply_for(*context, call@, exch@, agn_ppm, rolls),
{
    if context.expecting_callsign_repeat {
        let t = if context.allow_callsign_repeat_ack && rolls.ack {
            copy_string("R R")
        } else {
            copy_string(call)
        };
        return (Some(t), ContestState::StationsCalling);
    }
    if context.correction_in_progress {
        let t = if rolls.twice {
            join_call_twice(call)
        } else {
            copy_string(call)
        };
        return (Some(t), ContestState::StationTransmitting { tx_type: StationTxType::Correction });
    }
    match CallerResponse::from_progress_and_context(&context.progress, context) {
        CallerResponse::Confused => {
            let t = if rolls.coin {
                copy_string(call)
            } else {
                copy_string("?")
            };
            (Some(t), ContestState::StationsCalling)
        },
        CallerResponse::RequestAgn => {
            let t = if rolls.coin {
                copy_string("AGN")
            } else {
                copy_string("?")
            };
            (Some(t), ContestState::StationTransmitting { tx_type: StationTxType::RequestingAgn })
        },
        CallerResponse::SendExchange => {
            if !context.caller_exchange_sent_once && rolls.agn_roll < agn_ppm {
                let t = if rolls.coin {
                    copy_string("AGN")
                } else {
                    copy_string("?")
                };
                (Some(t), ContestState::StationTransmitting { tx_type: StationTxType::RequestingAgn })
            } else {
                (Some(copy_string(exch)), ContestState::StationTransmitting { tx_type: StationTxType::SendingExchange })
            }
        },
        CallerResponse::Wait => (None, ContestState::StationsCalling),
    }
}

/// The commands that start each caller sending its callsign.
pub open spec fn start_all(callers: Seq<ActiveCaller>) -> Seq<SpecCommand> {
    callers.map_values(|c: ActiveCaller| SpecCommand::StartStation(caller_view(c)))
}

impl ContestSession {
    fn start_all_callers(&mut self)
        ensures
            final(self).spec_outbox() == old(self).spec_outbox() + start_all(old(self).context.active_callers@),
            final(self).same_but_outbox(old(self)),
            final(self).wf() == old(self).wf(),
            final(self).last_qso_result == old(self).last_qso_result,
            final(self).cty == old(self).cty,
    {
        let mut i: usize = 0;
        let ghost start = self.outbox@;
        while i < self.context.active_callers.len()
            invariant
                i <= self.context.active_callers@.len(),
                self.same_but_outbox(old(self)),
                self.wf() == old(self).wf(),
                self.last_qso_result == old(self).last_qso_result,
                self.cty == old(self).cty,
                self.spec_outbox() == old(self).spec_outbox() + start_all(old(self).context.active_callers@.take(i as int)),
            decreases self.context.active_callers@.len() - i,
        {
            let p = self.context.active_callers[i].params.clone_params();
            self.issue(AudioCommand::StartStation(p));
            i = i + 1;
            assert(start_all(old(self).context.active_callers@.take(i as int)) =~= start_all(
                old(self).context.active_callers@.take(i - 1),
            ).push(SpecCommand::StartStation(caller_view(old(self).context.active_callers@[i - 1]))));
            assert(self.spec_outbox() =~= old(self).spec_outbox() + start_all(old(self).context.active_callers@.take(i as int)));
        }
        assert(old(self).context.active_callers@.take(i as int) =~= old(self).context.active_callers@);
    }

    /// The wait after our message is over: the current caller replies (see
    /// `reply_for`); with no caller selected, all callers send their callsigns
    /// again.
    pub fn handle_station_response(&mut self)
        ensures
            station_response_effect(*old(self), *final(self)),
    {
        let caller = match self.context.get_current_caller() {
            Some(c) => c.clone_caller(),
            None => {
                self.start_all_callers();
                self.state = ContestState::StationsCalling;
                return;
            },
        };
        let rolls = ReplyRolls {
            ack: random_bool(),
            twice: random_below(100) >= 75,
            coin: random_bool(),
            agn_roll: random_below(1_000_000) as u32,
        };
        let exch = self.contest.format_exchange(&caller.params.exchange);
        let agn_ppm = self.caller_manager.settings().agn_request_probability_ppm;
        let (text, next) = caller_reply(&self.context, caller.params.callsign.as_str(), exch.as_str(), agn_ppm, rolls);
        let ghost reply = reply_for(
            self.context,
            caller.params.callsign@,
            join_spaces(caller.params.exchange.view_fields()),
            agn_ppm,
            rolls,
        );
        let ghost ctx0 = self.context;
        if self.context.expecting_callsign_repeat {
            self.context.expecting_callsign_repeat = false;
        } else if !self.context.correction_in_progress {
            let resp = CallerResponse::from_progress_and_context(&self.context.progress, &self.context);
            if resp == CallerResponse::Wait {
                self.context.clear_wait();
            } else if next == (ContestState::StationTransmitting { tx_type: StationTxType::SendingExchange }) {
                self.context.caller_exchange_sent_once = true;
            }
        }
        assert(self.context == context_after_reply(ctx0, next));
        match text {
            Some(t) => {
                let p = caller.params.sending(t);
                self.issue(AudioCommand::StartStation(p));
            },
            None => {},
        }
        self.state = next;
        proof {
            let oc = old(self).context.current_caller->Some_0;
            assert(caller_view(caller) == caller_view(oc));
            assert(reply_for(
                old(self).context,
                oc.params.callsign@,
                join_spaces(oc.params.exchange.view_fields()),
                old(self).caller_manager.spec_settings().agn_request_probability_ppm,
                rolls,
            ) == reply);
        }
    }
}

/// The station at `k` of the list is calling (as the caller manager promises
/// of what it returns).
pub open spec fn calling_in_witness(q: Seq<crate::station::caller_manager::PersistentCaller>, ps: Seq<StationParams>, k: int, ready_by: Option<u64>) -> bool {
    crate::station::caller_manager::calling_in(q, ps[k].view_params(), ready_by)
}

/// The callers made from the stations that call.
pub open spec fn callers_from(params: Seq<StationParams>) -> Seq<SpecParams> {
    params.map_values(|p: StationParams| p.view_params())
}

fn callers_of_params(params: Vec<StationParams>) -> (r: Vec<ActiveCaller>)
    ensures
        callers_view(r@) == callers_from(params@),
{
    let mut r: Vec<ActiveCaller> = Vec::new();
    let mut rest = params;
    let ghost all = rest@;
    let total = rest.len();
    let mut k: usize = 0;
    assert(all.skip(0) =~= all);
    assert(callers_view(r@) =~= callers_from(all.take(0)));
    while rest.len() > 0
        invariant
            rest@ == all.skip(k as int),
            k <= all.len(),
            all.len() == total,
            callers_view(r@) == callers_from(all.take(k as int)),
        decreases rest@.len(),
    {
        assert(rest@[0] == all[k as int]);
        let p = rest.remove(0);
        assert(rest@ =~= all.skip(k + 1));
        let ghost before = r@;
        let ghost pv = p.view_params();
        r.push(ActiveCaller { params: p });
        assert(r@ == before.push(ActiveCaller { params: all[k as int] }));
        assert(all.take(k + 1) =~= all.take(k as int).push(all[k as int]));
        assert(callers_view(r@) =~= callers_view(before).push(pv));
        assert(callers_from(all.take(k + 1)) =~= callers_from(all.take(k as int)).push(pv));
        k = k + 1;
    }
    assert(all.take(k as int) =~= all);
    r
}

/// Whether callers may answer at `now_ms`: 300 ms have passed since the CQ
/// ended (or no CQ end is known).
pub open spec fn cq_wait_over(finished_ms: Option<u64>, now_ms: u64) -> bool {
    match finished_ms {
        Some(t) => now_ms >= t && now_ms - t >= 300,
        None => true,
    }
}

impl ContestSession {
    /// Stations call after a CQ: once 300 ms have passed since the CQ
    /// ended, the callers that answer (if any) start sending and become the
    /// callers in play.
    pub fn maybe_spawn_callers(&mut self, now_ms: u64)
        requires
            old(self).wf(),
        ensures
            final(self).wf(),
            old(self).state != ContestState::WaitingForCallers ==> *final(self) == *old(self),
            old(self).state == ContestState::WaitingForCallers && (old(self).last_cq_finished_ms matches Some(t) && (
            now_ms < t || now_ms - t < 300)) ==> *final(self) == *old(self),
            old(self).state == ContestState::WaitingForCallers ==> (final(self).state == ContestState::WaitingForCallers
                || final(self).state == ContestState::StationsCalling),
            old(self).state == ContestState::WaitingForCallers && final(self).state == ContestState::StationsCalling ==> {
                &&& final(self).context.active_callers@.len() > 0
                &&& final(self).context.active_callers@.len()
                    <= old(self).caller_manager.spec_settings().max_simultaneous_stations
                &&& final(self).spec_outbox() == old(self).spec_outbox() + start_all(final(self).context.active_callers@)
                &&& forall|k: int|
                    0 <= k < final(self).context.active_callers@.len() ==> crate::station::caller_manager::calling_in(
                        final(self).caller_manager.spec_queue(),
                        caller_view(#[trigger] final(self).context.active_callers@[k]),
                        None,
                    )
            },
            old(self).state == ContestState::WaitingForCallers && cq_wait_over(old(self).last_cq_finished_ms, now_ms)
                ==> {
                &&& final(self).caller_manager.spec_settings() == old(self).caller_manager.spec_settings()
                &&& final(self).caller_manager.spec_active_ids().len() == if final(self).state
                    == ContestState::StationsCalling {
                    final(self).context.active_callers@.len()
                } else {
                    0
                }
                &&& forall|i: int|
                    0 <= i < final(self).caller_manager.spec_queue().len() ==> still_in_play(
                        #[trigger] final(self).caller_manager.spec_queue()[i],
                    )
                &&& forall|i: int|
                    0 <= i < old(self).caller_manager.spec_queue().len() ==> (still_in_play(
                        #[trigger] old(self).caller_manager.spec_queue()[i],
                    ) ==> exists|j: int|
                        0 <= j < final(self).caller_manager.spec_queue().len()
                            && final(self).caller_manager.spec_queue()[j].params
                            == old(self).caller_manager.spec_queue()[i].params)
                &&& (final(self).state == ContestState::WaitingForCallers ==> final(self).context == old(self).context
                    && final(self).spec_outbox() == old(self).spec_outbox())
            },
            final(self).context.progress == old(self).context.progress,
            final(self).score == old(self).score,
            final(self).session_stats == old(self).session_stats,
    {
        if self.state != ContestState::WaitingForCallers {
            return;
        }
        if let Some(t) = self.last_cq_finished_ms {
            if now_ms < t || now_ms - t < 300 {
                return;
            }
        }
        let responding = self.caller_manager.on_cq_complete(
            &self.contest,
            &self.contest_settings,
            Some(self.user.callsign.as_str()),
            Some(&self.cty),
            now_ms,
        );
        if responding.len() == 0 {
            return;
        }
        let ghost params = responding@;
        let callers = callers_of_params(responding);
        self.context.set_callers(callers);
        let ghost active = self.context.active_callers@;
        assert(callers_view(active) == callers_from(params));
        assert forall|k: int| 0 <= k < active.len() implies crate::station::caller_manager::calling_in(
            self.caller_manager.spec_queue(),
            caller_view(#[trigger] active[k]),
            None,
        ) by {
            assert(callers_view(active)[k] == callers_from(params)[k]);
            assert(params[k].view_params() == caller_view(active[k]));
            assert(calling_in_witness(self.caller_manager.spec_queue(), params, k, None));
        }
        self.start_all_callers();
        self.state = ContestState::StationsCalling;
    }

    /// After TU: tail-enders may call. With none the session goes idle;
    /// otherwise a new QSO starts with them after a 100 ms pause.
    pub fn try_spawn_tail_ender(&mut self, now_ms: u64)
        requires
            old(self).wf(),
            time_ok(now_ms),
        ensures
            tail_ender_effect(*old(self), *final(self), now_ms),
    {
        let params = self.caller_manager.try_spawn_tail_ender(
            &self.contest,
            &self.contest_settings,
            Some(self.user.callsign.as_str()),
            Some(&self.cty),
            now_ms,
        );
        if params.len() == 0 {
            self.state = ContestState::Idle;
            return;
        }
        let ghost ps = params@;
        let callers = callers_of_params(params);
        let ghost cv = callers@;
        assert(callers_view(cv) == callers_from(ps));
        self.used_agn_callsign = false;
        self.used_agn_exchange = false;
        self.used_f5_callsign = false;
        self.context.reset();
        self.context.set_callers(callers);
        assert(self.context.active_callers@ == cv);
        self.context.set_wait(now_ms, 100);
        let ghost active = self.context.active_callers@;
        assert(active == cv);
        assert forall|k: int| 0 <= k < active.len() implies crate::station::caller_manager::calling_in(
            self.caller_manager.spec_queue(),
            caller_view(#[trigger] active[k]),
            Some(now_ms),
        ) by {
            assert(callers_view(active)[k] == callers_from(ps)[k]);
            assert(ps[k].view_params() == caller_view(active[k]));
            assert(calling_in_witness(self.caller_manager.spec_queue(), ps, k, Some(now_ms)));
        }
        self.state = ContestState::WaitingForTailEnder;
    }
}

impl ContestSession {
    /// Our message finished: after CQ we wait for callers; after a callsign,
    /// exchange or repeat request we wait 250 ms for the station; after TU
    /// (also when the QSO was just logged) tail-enders may call.
    pub fn on_user_message_complete(&mut self, now_ms: u64)
        requires
            old(self).wf(),
            time_ok(now_ms),
        ensures
            user_message_effect(*old(self), *final(self), now_ms),
    {
        match self.state {
            ContestState::CallingCq => {
                self.state = ContestState::WaitingForCallers;
                self.last_cq_finished_ms = Some(now_ms);
            },
            ContestState::UserTransmitting { tx_type } => match tx_type {
                UserTxType::Tu => {
                    self.try_spawn_tail_ender(now_ms);
                },
                _ => {
                    self.context.set_wait(now_ms, 250);
                    self.state = ContestState::WaitingForStation;
                },
            },
            ContestState::QsoComplete => {
                self.try_spawn_tail_ender(now_ms);
            },
            _ => {},
        }
    }

    /// Ends the waits that are over: the station answers, or the
    /// tail-enders start calling.
    pub fn check_waiting_states(&mut self, now_ms: u64)
        ensures
            final(self).wf() == old(self).wf(),
            !old(self).context.wait_elapsed_spec(now_ms) ==> *final(self) == *old(self),
            old(self).context.wait_elapsed_spec(now_ms) && old(self).state == ContestState::WaitingForTailEnder ==> {
                &&& final(self).state == ContestState::StationsCalling
                &&& final(self).spec_outbox() == old(self).spec_outbox() + start_all(old(self).context.active_callers@)
                &&& final(self).context == old(self).context
            },
            old(self).context.wait_elapsed_spec(now_ms) && old(self).state != ContestState::WaitingForTailEnder
                && old(self).state != ContestState::WaitingForStation ==> *final(self) == *old(self),
            old(self).state == ContestState::WaitingForStation && old(self).context.wait_elapsed_spec(now_ms) ==> (
            final(self).state == ContestState::StationsCalling || final(self).state is StationTransmitting),
            old(self).state == ContestState::WaitingForStation && old(self).context.wait_elapsed_spec(now_ms)
                ==> station_response_effect(*old(self), *final(self)),
    {
        if !self.context.wait_elapsed(now_ms) {
            return;
        }
        match self.state {
            ContestState::WaitingForStation => {
                self.handle_station_response();
                proof {
                    lemma_reply_states(old(self).context);
                }
            },
            ContestState::WaitingForTailEnder => {
                self.start_all_callers();
                self.state = ContestState::StationsCalling;
            },
            _ => {},
        }
    }

    /// Handles a report from the audio side.
    pub fn process_audio_event(&mut self, event: AudioEvent, now_ms: u64)
        requires
            old(self).wf(),
            time_ok(now_ms),
        ensures
            final(self).wf(),
            event matches AudioEvent::StationComplete(id) ==> station_audio_effect(*old(self), *final(self)),
            event == AudioEvent::UserMessageComplete ==> user_message_effect(*old(self), *final(self), now_ms),
            event matches AudioEvent::UserSegmentComplete(t) ==> segment_effect(*old(self), *final(self), t),
    {
        match event {
            AudioEvent::StationComplete(id) => {
                self.caller_manager.station_audio_complete(id);
                self.on_station_audio_complete(id);
            },
            AudioEvent::UserMessageComplete => {
                self.on_user_message_complete(now_ms);
            },
            AudioEvent::UserSegmentComplete(t) => {
                self.on_segment_complete(t);
            },
        }
    }

    /// F1 (or Enter with no callsign typed): with valid contest settings,
    /// stops all audio, lets the callers that were calling retry or give up,
    /// clears the fields and calls CQ; otherwise nothing happens but the
    /// settings' error message being kept as the notice.
    pub fn handle_f1_cq(&mut self, now_ms: u64)
        requires
            old(self).wf(),
            time_ok(now_ms),
        ensures
            cq_effect(*old(self), *final(self), now_ms),
    {
        match self.contest.validate_settings(&self.contest_settings) {
            Err(e) => {
                self.settings_notice = Some(e.message());
                return;
            },
            Ok(()) => {},
        }
        self.issue(AudioCommand::StopAll);
        self.caller_manager.on_cq_restart(now_ms);
        self.wipe();
        self.send_cq();
    }
}

/// A station's answer either has stations calling again or has one station
/// transmitting.
pub proof fn lemma_reply_states(ctx: QsoContext)
    ensures
        forall|call: Seq<char>, exch: Seq<char>, agn_ppm: u32, r: ReplyRolls|
            (#[trigger] reply_for(ctx, call, exch, agn_ppm, r)).1 == ContestState::StationsCalling || reply_for(
                ctx,
                call,
                exch,
                agn_ppm,
                r,
            ).1 is StationTransmitting,
{
}

impl ContestSession {
    /// F3: sends TU.
    pub fn handle_f3_tu(&mut self)
        ensures
            tu_effect(*old(self), *final(self)),
    {
        self.send_tu();
        self.state = ContestState::UserTransmitting { tx_type: UserTxType::Tu };
    }

    /// F8: asks for the callsign again while it is still in question
    /// (correction, repeat expected, or not yet entered), else for the
    /// exchange.
    pub fn handle_f8(&mut self)
        ensures
            f8_effect(*old(self), *final(self)),
    {
        if self.context.wants_callsign_repeat() {
            self.handle_callsign_agn_request();
        } else {
            self.handle_agn_request();
        }
    }

    /// Handles a key press.
    pub fn handle_key(&mut self, key: Key, now_ms: u64)
        requires
            old(self).wf(),
            time_ok(now_ms),
            old(self).score.qso_count < u32::MAX,
            old(self).score.total_points + 2 <= u32::MAX,
            old(self).user_serial < u32::MAX,
        ensures
            final(self).wf(),
            key == Key::F1 ==> cq_effect(*old(self), *final(self), now_ms),
            key == Key::F2 ==> f2_effect(*old(self), *final(self)),
            key == Key::F3 ==> tu_effect(*old(self), *final(self)),
            key == Key::F5 ==> f5_effect(*old(self), *final(self)),
            key == Key::F8 ==> f8_effect(*old(self), *final(self)),
            key == Key::F12 ==> wipe_effect(*old(self), *final(self)),
            key == Key::Enter && old(self).current_field == InputField::Callsign && trim(old(self).callsign_input@).len()
                == 0 ==> cq_effect(*old(self), *final(self), now_ms),
            key == Key::Enter && old(self).current_field == InputField::Callsign && trim(old(self).callsign_input@).len()
                > 0 ==> callsign_submit_effect(*old(self), *final(self)),
            key == Key::Enter && old(self).current_field is Exchange ==> exchange_submit_effect(
                *old(self),
                *final(self),
                now_ms,
            ),
            key == Key::Escape ==> *final(self) == (ContestSession { outbox: final(self).outbox, ..*old(self) })
                && final(self).spec_outbox() == old(self).spec_outbox().push(SpecCommand::StopAll),
            key == Key::Up ==> *final(self) == (ContestSession {
                user: UserSettings {
                    wpm: if old(self).user.wpm < 50 {
                        (old(self).user.wpm + 1) as u8
                    } else {
                        old(self).user.wpm
                    },
                    ..old(self).user
                },
                settings_changed: old(self).settings_changed || old(self).user.wpm < 50,
                ..*old(self)
            }),
            key == Key::Down ==> *final(self) == (ContestSession {
                user: UserSettings {
                    wpm: if old(self).user.wpm > 15 {
                        (old(self).user.wpm - 1) as u8
                    } else {
                        old(self).user.wpm
                    },
                    ..old(self).user
                },
                settings_changed: old(self).settings_changed || old(self).user.wpm > 15,
                ..*old(self)
            }),
            key == Key::NextField ==> focus_next_effect(*old(self), *final(self)),
            key == Key::PreviousField ==> focus_previous_effect(*old(self), *final(self)),
    {
        match key {
            Key::F1 => {
                self.handle_f1_cq(now_ms);
            },
            Key::F2 => {
                self.handle_f2_exchange();
            },
            Key::F3 => {
                self.handle_f3_tu();
            },
            Key::F5 => {
                self.handle_f5_his_call();
            },
            Key::F8 => {
                self.handle_f8();
            },
            Key::F12 => {
                self.wipe();
            },
            Key::Enter => match self.current_field {
                InputField::Callsign => {
                    let t = trimmed_chars(self.callsign_input.as_str());
                    if t.len() == 0 {
                        self.handle_f1_cq(now_ms);
                    } else {
                        self.handle_callsign_submit();
                    }
                },
                InputField::Exchange(_) => {
                    self.handle_exchange_submit(now_ms);
                },
            },
            Key::Escape => {
                self.issue(AudioCommand::StopAll);
            },
            Key::NextField => {
                self.focus_next_field();
            },
            Key::PreviousField => {
                self.focus_previous_field();
            },
            Key::Up => {
                if self.user.wpm < 50 {
                    self.user.wpm = self.user.wpm + 1;
                    self.settings_changed = true;
                }
            },
            Key::Down => {
                if self.user.wpm > 15 {
                    self.user.wpm = self.user.wpm - 1;
                    self.settings_changed = true;
                }
            },
        }
    }
}

// ---------------------------------------------------------------------------
// What each step does, from the session before to the session after
// ---------------------------------------------------------------------------

/// F1 (or Enter with no callsign typed): with valid contest settings,
/// stops all audio, lets the callers that were calling retry or give up,
/// clears the fields and calls CQ; otherwise nothing happens but the
/// settings' error message being kept as the notice.
pub open spec fn cq_effect(o: ContestSession, n: ContestSession, now_ms: u64) -> bool {
    &&& (n.wf())
    &&& (settings_check(o.contest, o.contest_settings.view_table()) matches Err(e) ==> {
        &&& n == (ContestSession { settings_notice: n.settings_notice, ..o })
        &&& n.settings_notice matches Some(m) && m@ == serial_error_message(e)
    })
    &&& (settings_check(o.contest, o.contest_settings.view_table()) is Ok ==> {
        &&& n.spec_outbox() == o.spec_outbox().push(SpecCommand::StopAll).push(
            SpecCommand::PlayUserMessage(cq_text(o.contest_settings.view_table(), o.user.callsign@), o.user.wpm),
        )
        &&& n.state == ContestState::CallingCq
        &&& n.context.is_fresh()
        &&& n.callsign_input@.len() == 0
        &&& n.current_field == InputField::Callsign
        &&& n.exchange_inputs@.len() == exchange_fields_of(o.contest).len()
        &&& n.caller_manager.spec_active_ids().len() == 0
        &&& !n.used_agn_callsign && !n.used_agn_exchange && !n.used_f5_callsign
        &&& n.score == o.score
        &&& n.session_stats == o.session_stats
        &&& n.user_serial == o.user_serial
    })
}

/// F2: stops the audio and sends our exchange. When a callsign is typed,
/// the caller best matching it is selected first.
pub open spec fn f2_effect(o: ContestSession, n: ContestSession) -> bool {
    &&& (o.context.active_callers@.len() == 0 ==> n == o)
    &&& (o.context.active_callers@.len() > 0 ==> {
        let entered = typed_call(o.callsign_input@);
        &&& entered.len() > 0 ==> narrowed(
            o.context,
            QsoContext { awaiting_user_exchange: o.context.awaiting_user_exchange, ..n.context },
            entered,
        )
        &&& entered.len() == 0 ==> n.context == (QsoContext {
            awaiting_user_exchange: false,
            ..o.context
        })
        &&& !n.context.awaiting_user_exchange
        &&& n.spec_outbox() == o.spec_outbox().push(SpecCommand::StopAll).push(
            SpecCommand::PlayUserMessageSegmented(
                seq![
                    (our_exchange_text(o.contest, o.user.callsign@, o.user_serial, o.contest_settings.view_table()), MessageSegmentType::OurExchange),
                ],
                o.user.wpm,
            ),
        )
        &&& n.state == (ContestState::UserTransmitting { tx_type: UserTxType::ExchangeOnly })
        &&& n.wf() == o.wf()
    })
}

/// F3: sends TU.
pub open spec fn tu_effect(o: ContestSession, n: ContestSession) -> bool {
    &&& (n.spec_outbox() == o.spec_outbox().push(
        SpecCommand::PlayUserMessage(tu_text(o.user.callsign@), o.user.wpm),
    ))
    &&& (n == (ContestSession {
        state: ContestState::UserTransmitting { tx_type: UserTxType::Tu },
        outbox: n.outbox,
        ..o
    }))
}

/// F5: stops the audio and sends the callsign typed. The caller best
/// matching it is selected (a pileup narrows to it), and it is expected to
/// repeat its callsign. When the callsign is exactly the caller's and our
/// exchange is not yet sent, the caller also waits for our exchange.
pub open spec fn f5_effect(o: ContestSession, n: ContestSession) -> bool {
    &&& (typed_call(o.callsign_input@).len() == 0) == (trim(o.callsign_input@).len() == 0)
    &&& (typed_call(o.callsign_input@).len() == 0 || o.context.active_callers@.len() == 0
        ==> n == o)
    &&& (typed_call(o.callsign_input@).len() > 0 && o.context.active_callers@.len() > 0 ==> {
        let entered = typed_call(o.callsign_input@);
        let exact = n.context.current_caller matches Some(c) && c.params.callsign@ == entered;
        &&& narrowed(o.context, QsoContext {
            expecting_callsign_repeat: o.context.expecting_callsign_repeat,
            awaiting_user_exchange: o.context.awaiting_user_exchange,
            ..n.context
        }, entered)
        &&& n.context.awaiting_user_exchange == (exact && !o.context.progress.sent_our_exchange)
        &&& n.context.expecting_callsign_repeat
        &&& n.spec_outbox() == o.spec_outbox().push(SpecCommand::StopAll).push(
            SpecCommand::PlayUserMessageSegmented(
                seq![(entered, MessageSegmentType::TheirCallsign)],
                o.user.wpm,
            ),
        )
        &&& n.state == (ContestState::UserTransmitting { tx_type: UserTxType::CallsignOnly })
        &&& n.used_f5_callsign
        &&& n.used_agn_callsign == o.used_agn_callsign
        &&& n.used_agn_exchange == o.used_agn_exchange
        &&& n.wf() == o.wf()
    })
}

/// F8: asks for the callsign again while it is still in question
/// (correction, repeat expected, or not yet entered), else for the
/// exchange.
pub open spec fn f8_effect(o: ContestSession, n: ContestSession) -> bool {
    &&& (n.wf() == o.wf())
    &&& (o.context.wants_callsign_repeat_spec() && o.state == ContestState::StationsCalling ==> {
        &&& n.state == (ContestState::UserTransmitting { tx_type: UserTxType::Agn })
        &&& n.context == (QsoContext { expecting_callsign_repeat: true, ..o.context })
        &&& n.used_agn_callsign
    })
    &&& (!o.context.wants_callsign_repeat_spec() && o.state == (ContestState::StationTransmitting {
        tx_type: StationTxType::SendingExchange,
    }) ==> {
        &&& n.state == (ContestState::UserTransmitting { tx_type: UserTxType::Agn })
        &&& n.context == o.context
        &&& n.used_agn_exchange
    })
    &&& (o.context.wants_callsign_repeat_spec() && o.state != ContestState::StationsCalling
        ==> n == o)
    &&& (!o.context.wants_callsign_repeat_spec() && o.state != (ContestState::StationTransmitting {
        tx_type: StationTxType::SendingExchange,
    }) ==> n == o)
}

/// F12: clears the callsign, puts the exchange fields back to their
/// defaults, and focuses the callsign field.
pub open spec fn wipe_effect(o: ContestSession, n: ContestSession) -> bool {
    &&& (n.callsign_input@.len() == 0)
    &&& (n.exchange_inputs@.len() == exchange_fields_of(o.contest).len())
    &&& (forall|i: int|
        0 <= i < n.exchange_inputs@.len() ==> #[trigger] n.exchange_inputs@[i]@
            == default_input(exchange_fields_of(o.contest)[i]))
    &&& (n == (ContestSession {
        callsign_input: n.callsign_input,
        exchange_inputs: n.exchange_inputs,
        current_field: InputField::Callsign,
        ..o
    }))
}

/// Tab or Space: focus the next field.
pub open spec fn focus_next_effect(o: ContestSession, n: ContestSession) -> bool {
    &&& (n.current_field == next_field(o.current_field, exchange_fields_of(o.contest).len()))
    &&& (n.state == o.state)
    &&& (n.context == o.context)
    &&& (n.spec_outbox() == o.spec_outbox())
    &&& (n.wf() == o.wf())
}

/// Shift+Tab or Shift+Space: focus the previous field.
pub open spec fn focus_previous_effect(o: ContestSession, n: ContestSession) -> bool {
    &&& (n.current_field == previous_field(o.current_field, exchange_fields_of(o.contest).len()))
    &&& (n.state == o.state)
    &&& (n.context == o.context)
    &&& (n.spec_outbox() == o.spec_outbox())
    &&& (n.wf() == o.wf())
}

/// Enter in the callsign field while stations call: the callsign counts
/// as received, and the caller best matching it (else the first caller)
/// becomes current. A busted callsign makes the caller correct it, with
/// the correction probability, while it has correction attempts left;
/// a right one ends any correction. Their callsign and our exchange are
/// sent and the exchange field takes focus.
pub open spec fn callsign_submit_effect(o: ContestSession, n: ContestSession) -> bool {
    &&& (typed_call(o.callsign_input@).len() == 0) == (trim(o.callsign_input@).len() == 0)
    &&& (typed_call(o.callsign_input@).len() == 0 || o.state != ContestState::StationsCalling
        ==> n == o)
    &&& (typed_call(o.callsign_input@).len() > 0 && o.state == ContestState::StationsCalling
        && o.context.active_callers@.len() == 0 ==> n == (ContestSession {
        context: QsoContext {
            progress: crate::state::QsoProgress { received_their_call: true, ..o.context.progress },
            ..o.context
        },
        ..o
    }))
    &&& (typed_call(o.callsign_input@).len() > 0 && o.state == ContestState::StationsCalling
        && o.context.active_callers@.len() > 0 ==> {
        let entered = typed_call(o.callsign_input@);
        let callers = o.context.active_callers@;
        let i = match best_match(entered, calls_of(callers)) {
            Some(i) => i,
            None => 0,
        };
        let exact = entered == callers[i].params.callsign@;
        let max = o.caller_manager.spec_settings().call_correction.max_correction_attempts;
        &&& current_is(n.context, callers, i)
        &&& n.context.active_callers@ == callers
        &&& n.context.progress == (crate::state::QsoProgress {
            received_their_call: true,
            ..o.context.progress
        })
        &&& exact ==> !n.context.correction_in_progress
            && n.context.correction_attempts == o.context.correction_attempts
        &&& !exact && n.context.correction_in_progress ==> o.context.correction_attempts < max
            && n.context.correction_attempts == o.context.correction_attempts + 1
        &&& !exact && !n.context.correction_in_progress ==> n.context.correction_attempts
            == o.context.correction_attempts
        &&& !n.context.awaiting_user_exchange
        &&& n.context.expecting_callsign_repeat == o.context.expecting_callsign_repeat
        &&& n.spec_outbox() == o.spec_outbox().push(
            SpecCommand::PlayUserMessageSegmented(
                seq![
                    (entered, MessageSegmentType::TheirCallsign),
                    (our_exchange_text(o.contest, o.user.callsign@, o.user_serial, o.contest_settings.view_table()), MessageSegmentType::OurExchange),
                ],
                o.user.wpm,
            ),
        )
        &&& n.state == (ContestState::UserTransmitting { tx_type: UserTxType::Exchange })
        &&& n.current_field == InputField::Exchange(entry_index(exchange_fields_of(o.contest)) as usize)
        &&& n.wf() == o.wf()
        &&& n.caller_manager == o.caller_manager
        &&& n.score == o.score
        &&& n.session_stats == o.session_stats
        &&& n.user_serial == o.user_serial
    })
}

/// Enter in an exchange field while the caller sends its exchange: the
/// QSO is checked, logged and scored, the caller is marked worked, TU is
/// sent, and the fields are cleared for the next QSO. Whatever happens,
/// something typed in the exchange fields counts as the exchange received.
pub open spec fn exchange_submit_effect(o: ContestSession, n: ContestSession, now_ms: u64) -> bool {
    &&& (n.wf())
    &&& (n.context.progress.received_their_exchange == (o.context.progress.received_their_exchange
        || any_input(o.exchange_inputs@)))
    &&& (o.context.current_caller is None || o.state != (ContestState::StationTransmitting {
        tx_type: StationTxType::SendingExchange,
    }) ==> n == (ContestSession {
        context: QsoContext {
            progress: crate::state::QsoProgress {
                received_their_exchange: n.context.progress.received_their_exchange,
                ..o.context.progress
            },
            ..o.context
        },
        ..o
    }))
    &&& (match o.context.current_caller {
        None => true,
        Some(caller) => o.state == (ContestState::StationTransmitting {
        tx_type: StationTxType::SendingExchange,
    }) ==> {
        let entered = typed_call(o.callsign_input@);
        let v = contest_validation(
            o.contest,
            caller.params.callsign@,
            caller.params.exchange.view_fields(),
            entered,
            received_view(o.exchange_inputs@),
        );
        &&& n.session_stats.qsos@.len() == o.session_stats.qsos@.len() + 1
        &&& n.session_stats.qsos@.drop_last() == o.session_stats.qsos@
        &&& record_ok(
            n.session_stats.qsos@.last(),
            caller,
            entered,
            o.exchange_inputs@,
            v,
            o.used_agn_callsign,
            o.used_agn_exchange,
            o.used_f5_callsign,
        )
        &&& n.score.qso_count == o.score.qso_count + 1
        &&& n.score.total_points == o.score.total_points + v.points
        &&& n.user_serial == o.user_serial + 1
        &&& n.last_qso_result matches Some(r) && r.callsign@ == entered && r.expected_call@
            == caller.params.callsign@ && r.expected_exchange@ == join_spaces(caller.params.exchange.view_fields())
            && r.callsign_correct == v.callsign_correct && r.exchange_correct == v.exchange_correct
            && r.points == v.points
        &&& n.spec_outbox() == o.spec_outbox().push(
            SpecCommand::PlayUserMessage(tu_text(o.user.callsign@), o.user.wpm),
        )
        &&& n.state == ContestState::QsoComplete
        &&& n.callsign_input@.len() == 0
        &&& n.current_field == InputField::Callsign
        &&& n.exchange_inputs@.len() == exchange_fields_of(o.contest).len()
        &&& !n.context.correction_in_progress
        &&& n.caller_manager.spec_active_ids() == crate::station::caller_manager::without_id(
            o.caller_manager.spec_active_ids(),
            caller.params.id,
        )
    },
    })
}

/// The wait after our message is over: the current caller replies (see
/// `reply_for`); with no caller selected, all callers send their callsigns
/// again.
pub open spec fn station_response_effect(o: ContestSession, n: ContestSession) -> bool {
    &&& (n.wf() == o.wf())
    &&& (n.score == o.score)
    &&& (n.session_stats == o.session_stats)
    &&& (n.caller_manager == o.caller_manager)
    &&& (match o.context.current_caller {
        None => {
            &&& n.spec_outbox() == o.spec_outbox() + start_all(o.context.active_callers@)
            &&& n.state == ContestState::StationsCalling
            &&& n.context == o.context
        },
        Some(c) => exists|r: ReplyRolls|
            {
                let reply = #[trigger] reply_for(
                    o.context,
                    c.params.callsign@,
                    join_spaces(c.params.exchange.view_fields()),
                    o.caller_manager.spec_settings().agn_request_probability_ppm,
                    r,
                );
                &&& r.agn_roll < 1_000_000
                &&& n.state == reply.1
                &&& n.context == context_after_reply(o.context, reply.1)
                &&& n.spec_outbox() == match reply.0 {
                    Some(t) => o.spec_outbox().push(
                        SpecCommand::StartStation(SpecParams { callsign: t, ..caller_view(c) }),
                    ),
                    None => o.spec_outbox(),
                }
            },
    })
}

/// A station finished sending: after an AGN request or a correction the
/// stations are calling again; otherwise nothing changes.
pub open spec fn station_audio_effect(o: ContestSession, n: ContestSession) -> bool {
    &&& ((o.state == (ContestState::StationTransmitting { tx_type: StationTxType::RequestingAgn })
        || o.state == (ContestState::StationTransmitting { tx_type: StationTxType::Correction }))
        ==> n == (ContestSession { state: ContestState::StationsCalling, ..o }))
    &&& (!(o.state == (ContestState::StationTransmitting { tx_type: StationTxType::RequestingAgn })
        || o.state == (ContestState::StationTransmitting { tx_type: StationTxType::Correction }))
        ==> n == o)
}

/// A segment of our message finished: the caller has now heard its
/// callsign, or our exchange.
pub open spec fn segment_effect(o: ContestSession, n: ContestSession, segment_type: MessageSegmentType) -> bool {
    &&& (segment_type == MessageSegmentType::TheirCallsign ==> n == (ContestSession {
        context: QsoContext {
            progress: crate::state::QsoProgress { sent_their_call: true, ..o.context.progress },
            ..o.context
        },
        ..o
    }))
    &&& (segment_type == MessageSegmentType::OurExchange ==> n == (ContestSession {
        context: QsoContext {
            progress: crate::state::QsoProgress { sent_our_exchange: true, ..o.context.progress },
            ..o.context
        },
        ..o
    }))
    &&& (segment_type != MessageSegmentType::TheirCallsign && segment_type != MessageSegmentType::OurExchange
        ==> n == o)
}

/// After TU: tail-enders may call. With none the session goes idle;
/// otherwise a new QSO starts with them after a 100 ms pause.
pub open spec fn tail_ender_effect(o: ContestSession, n: ContestSession, now_ms: u64) -> bool {
    &&& (n.wf())
    &&& (n.state == ContestState::Idle || n.state == ContestState::WaitingForTailEnder)
    &&& (n.state == ContestState::Idle ==> n.context == o.context)
    &&& (n.state == ContestState::WaitingForTailEnder ==> {
        &&& n.context.active_callers@.len() > 0
        &&& n.context.active_callers@.len()
            <= o.caller_manager.spec_settings().max_simultaneous_stations
        &&& n.context.progress == crate::state::fresh_progress()
        &&& !n.context.correction_in_progress
        &&& n.context.correction_attempts == 0
        &&& n.context.wait_until == Some((now_ms + 100) as u64)
        &&& !n.used_agn_callsign && !n.used_agn_exchange && !n.used_f5_callsign
        &&& forall|k: int|
            0 <= k < n.context.active_callers@.len() ==> crate::station::caller_manager::calling_in(
                n.caller_manager.spec_queue(),
                caller_view(#[trigger] n.context.active_callers@[k]),
                Some(now_ms),
            )
    })
    &&& (n.spec_outbox() == o.spec_outbox())
    &&& (n.score == o.score)
    &&& (n.session_stats == o.session_stats)
}

/// Our message finished: after CQ we wait for callers; after a callsign,
/// exchange or repeat request we wait 250 ms for the station; after TU
/// (also when the QSO was just logged) tail-enders may call.
pub open spec fn user_message_effect(o: ContestSession, n: ContestSession, now_ms: u64) -> bool {
    &&& (n.wf())
    &&& (o.state == ContestState::CallingCq ==> n == (ContestSession {
        state: ContestState::WaitingForCallers,
        last_cq_finished_ms: Some(now_ms),
        ..o
    }))
    &&& ((o.state == (ContestState::UserTransmitting { tx_type: UserTxType::Exchange })
        || o.state == (ContestState::UserTransmitting { tx_type: UserTxType::ExchangeOnly })
        || o.state == (ContestState::UserTransmitting { tx_type: UserTxType::CallsignOnly })
        || o.state == (ContestState::UserTransmitting { tx_type: UserTxType::Agn })) ==> n
        == (ContestSession {
        state: ContestState::WaitingForStation,
        context: QsoContext { wait_until: Some((now_ms + 250) as u64), ..o.context },
        ..o
    }))
    &&& ((o.state == (ContestState::UserTransmitting { tx_type: UserTxType::Tu }) || o.state
        == ContestState::QsoComplete) ==> tail_ender_effect(o, n, now_ms))
    &&& (!(o.state == ContestState::CallingCq || o.state == ContestState::QsoComplete
        || o.state is UserTransmitting) ==> n == o)
}

} // verus!
