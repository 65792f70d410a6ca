//! Session statistics: the log of QSOs and what is learned from it.

use vstd::prelude::*;
use crate::text::{chars_of, count_char, count_chars_eq, is_alphanumeric, to_upper, unicode_alphanumeric, unicode_upper};

verus! {

/// One logged QSO.
#[derive(Clone, Debug)]
pub struct QsoRecord {
    pub expected_callsign: String,
    pub entered_callsign: String,
    pub callsign_correct: bool,
    pub expected_exchange: String,
    pub entered_exchange: String,
    pub exchange_correct: bool,
    pub station_wpm: u8,
    pub points: u32,
    pub used_agn_callsign: bool,
    pub used_agn_exchange: bool,
    pub used_f5_callsign: bool,
}

/// The QSOs logged in this session.
#[derive(Clone, Debug)]
pub struct SessionStats {
    pub qsos: Vec<QsoRecord>,
}

impl SessionStats {
    pub fn new() -> (s: Self)
        ensures
            s.qsos@.len() == 0,
    {
        SessionStats { qsos: Vec::new() }
    }

    /// Adds a QSO to the log.
    pub fn log_qso(&mut self, record: QsoRecord)
        ensures
            final(self).qsos@ == old(self).qsos@.push(record),
    {
        self.qsos.push(record);
    }

    /// Empties the log.
    pub fn clear(&mut self)
        ensures
            final(self).qsos@.len() == 0,
    {
        self.qsos.clear();
    }
}

/// What is counted over the log.
#[derive(Clone, Copy, PartialEq, Eq, Structural, Debug)]
pub enum Tally {
    CallsignCorrect,
    ExchangeCorrect,
    /// Callsign and exchange both right.
    Clean,
    /// Clean, without any repeat request.
    Perfect,
    AgnCallsign,
    AgnExchange,
    /// A repeat request of either kind.
    AgnAny,
    /// F5 used to send the callsign.
    F5Callsign,
}

/// Whether a QSO is counted under `t`.
pub open spec fn tallies(q: QsoRecord, t: Tally) -> bool {
    match t {
        Tally::CallsignCorrect => q.callsign_correct,
        Tally::ExchangeCorrect => q.exchange_correct,
        Tally::Clean => q.callsign_correct && q.exchange_correct,
        Tally::Perfect => q.callsign_correct && q.exchange_correct && !q.used_agn_callsign && !q.used_agn_exchange,
        Tally::AgnCallsign => q.used_agn_callsign,
        Tally::AgnExchange => q.used_agn_exchange,
        Tally::AgnAny => q.used_agn_callsign || q.used_agn_exchange,
        Tally::F5Callsign => q.used_f5_callsign,
    }
}

/// How many QSOs are counted under `t`.
pub open spec fn count_of(qs: Seq<QsoRecord>, t: Tally) -> nat
    decreases qs.len(),
{
    if qs.len() == 0 {
        0
    } else {
        count_of(qs.drop_last(), t) + if tallies(qs.last(), t) {
            1nat
        } else {
            0nat
        }
    }
}

/// Points over the log.
pub open spec fn points_of(qs: Seq<QsoRecord>) -> nat
    decreases qs.len(),
{
    if qs.len() == 0 {
        0
    } else {
        points_of(qs.drop_last()) + qs.last().points as nat
    }
}

/// Calling-station speeds added up.
pub open spec fn wpm_sum_of(qs: Seq<QsoRecord>) -> nat
    decreases qs.len(),
{
    if qs.len() == 0 {
        0
    } else {
        wpm_sum_of(qs.drop_last()) + qs.last().station_wpm as nat
    }
}

/// Slowest calling station (0 with no QSO).
pub open spec fn min_wpm_of(qs: Seq<QsoRecord>) -> u8
    decreases qs.len(),
{
    if qs.len() == 0 {
        0
    } else if qs.len() == 1 {
        qs[0].station_wpm
    } else {
        let m = min_wpm_of(qs.drop_last());
        if qs.last().station_wpm < m {
            qs.last().station_wpm
        } else {
            m
        }
    }
}

/// Fastest calling station (0 with no QSO).
pub open spec fn max_wpm_of(qs: Seq<QsoRecord>) -> u8
    decreases qs.len(),
{
    if qs.len() == 0 {
        0
    } else if qs.len() == 1 {
        qs[0].station_wpm
    } else {
        let m = max_wpm_of(qs.drop_last());
        if qs.last().station_wpm > m {
            qs.last().station_wpm
        } else {
            m
        }
    }
}

/// QSOs with callsign and exchange right in which a repeat of either was
/// asked for.
pub open spec fn clean_with_repeat(qs: Seq<QsoRecord>) -> nat
    decreases qs.len(),
{
    if qs.len() == 0 {
        0
    } else {
        let q = qs.last();
        clean_with_repeat(qs.drop_last()) + if q.callsign_correct && q.exchange_correct && (q.used_agn_callsign
            || q.used_agn_exchange) {
            1nat
        } else {
            0nat
        }
    }
}

/// How the counts of a log relate: a clean QSO is perfect exactly when no
/// repeat of either kind was asked for, so the perfect QSOs and the clean
/// ones with a repeat request make up the clean ones; clean QSOs have both
/// parts right; a QSO with a repeat request had one of the two kinds, and
/// each kind counts among them; no count exceeds the log.
pub proof fn lemma_tally_relations(qs: Seq<QsoRecord>)
    ensures
        count_of(qs, Tally::Perfect) + clean_with_repeat(qs) == count_of(qs, Tally::Clean),
        count_of(qs, Tally::Clean) <= count_of(qs, Tally::CallsignCorrect),
        count_of(qs, Tally::Clean) <= count_of(qs, Tally::ExchangeCorrect),
        count_of(qs, Tally::CallsignCorrect) + count_of(qs, Tally::ExchangeCorrect) <= qs.len() + count_of(
            qs,
            Tally::Clean,
        ),
        count_of(qs, Tally::AgnCallsign) <= count_of(qs, Tally::AgnAny),
        count_of(qs, Tally::AgnExchange) <= count_of(qs, Tally::AgnAny),
        count_of(qs, Tally::AgnAny) <= count_of(qs, Tally::AgnCallsign) + count_of(qs, Tally::AgnExchange),
        count_of(qs, Tally::AgnAny) <= qs.len(),
        count_of(qs, Tally::F5Callsign) <= qs.len(),
    decreases qs.len(),
{
    if qs.len() > 0 {
        lemma_tally_relations(qs.drop_last());
    }
}

/// Runs of clean and of erroneous QSOs.
#[derive(Clone, Copy, PartialEq, Eq, Structural, Debug)]
pub struct Streaks {
    pub current_clean: usize,
    pub max_clean: usize,
    pub current_error: usize,
    pub max_error: usize,
}

/// The streaks after the QSOs in order: a clean QSO extends the clean run
/// and ends the error run, any other one the reverse.
pub open spec fn streaks_of(qs: Seq<QsoRecord>) -> (nat, nat, nat, nat)
    decreases qs.len(),
{
    if qs.len() == 0 {
        (0, 0, 0, 0)
    } else {
        let (cc, mc, ce, me) = streaks_of(qs.drop_last());
        if tallies(qs.last(), Tally::Clean) {
            (cc + 1, if cc + 1 > mc { cc + 1 } else { mc }, 0, me)
        } else {
            (0, mc, ce + 1, if ce + 1 > me { ce + 1 } else { me })
        }
    }
}

/// The current runs end at the last QSO, so one of them is empty (both with
/// no QSO); a current run is never longer than the longest one of its kind,
/// and no run is longer than the log.
pub proof fn lemma_streaks_shape(qs: Seq<QsoRecord>)
    ensures
        ({
            let (cc, mc, ce, me) = streaks_of(qs);
            &&& cc == 0 || ce == 0
            &&& qs.len() > 0 <==> cc + ce > 0
            &&& cc <= mc <= qs.len()
            &&& ce <= me <= qs.len()
        }),
    decreases qs.len(),
{
    if qs.len() > 0 {
        lemma_streaks_shape(qs.drop_last());
    }
}

/// The summary of the log.
#[derive(Clone, Copy, PartialEq, Eq, Structural, Debug)]
pub struct StatsAnalysis {
    pub total_qsos: usize,
    pub correct_callsigns: usize,
    pub correct_exchanges: usize,
    /// Callsign and exchange both right.
    pub correct_qsos: usize,
    /// Correct without any repeat request.
    pub perfect_qsos: usize,
    pub total_points: u128,
    pub agn_callsign_count: usize,
    pub agn_exchange_count: usize,
    pub agn_any_count: usize,
    pub f5_callsign_count: usize,
    /// Calling-station speeds added up (the average is this over the count).
    pub wpm_sum: u128,
    pub min_station_wpm: u8,
    pub max_station_wpm: u8,
    pub streaks: Streaks,
}

impl SessionStats {
    /// Counts over the log.
    pub fn analyze(&self) -> (a: StatsAnalysis)
        ensures
            ({
                let qs = self.qsos@;
                &&& a.total_qsos == qs.len()
                &&& a.correct_callsigns == count_of(qs, Tally::CallsignCorrect)
                &&& a.correct_exchanges == count_of(qs, Tally::ExchangeCorrect)
                &&& a.correct_qsos == count_of(qs, Tally::Clean)
                &&& a.perfect_qsos == count_of(qs, Tally::Perfect)
                &&& a.total_points == points_of(qs)
                &&& a.agn_callsign_count == count_of(qs, Tally::AgnCallsign)
                &&& a.agn_exchange_count == count_of(qs, Tally::AgnExchange)
                &&& a.agn_any_count == count_of(qs, Tally::AgnAny)
                &&& a.f5_callsign_count == count_of(qs, Tally::F5Callsign)
                &&& a.wpm_sum == wpm_sum_of(qs)
                &&& a.min_station_wpm == min_wpm_of(qs)
                &&& a.max_station_wpm == max_wpm_of(qs)
                &&& (a.streaks.current_clean as nat, a.streaks.max_clean as nat, a.streaks.current_error as nat, a.streaks.max_error as nat)
                    == streaks_of(qs)
            }),
    {
        let ghost qs = self.qsos@;
        let mut n_call: usize = 0;
        let mut n_exch: usize = 0;
        let mut n_clean: usize = 0;
        let mut n_perfect: usize = 0;
        let mut n_agn_call: usize = 0;
        let mut n_agn_exch: usize = 0;
        let mut n_agn_any: usize = 0;
        let mut n_f5: usize = 0;
        let mut points: u128 = 0;
        let mut wpm_sum: u128 = 0;
        let mut min_wpm: u8 = 0;
        let mut max_wpm: u8 = 0;
        let mut cc: usize = 0;
        let mut mc: usize = 0;
        let mut ce: usize = 0;
        let mut me: usize = 0;
        let mut i: usize = 0;
        assert(qs.take(0) =~= Seq::<QsoRecord>::empty());
        while i < self.qsos.len()
            invariant
                i <= qs.len(),
                qs == self.qsos@,
                n_call == count_of(qs.take(i as int), Tally::CallsignCorrect),
                n_exch == count_of(qs.take(i as int), Tally::ExchangeCorrect),
                n_clean == count_of(qs.take(i as int), Tally::Clean),
                n_perfect == count_of(qs.take(i as int), Tally::Perfect),
                n_agn_call == count_of(qs.take(i as int), Tally::AgnCallsign),
                n_agn_exch == count_of(qs.take(i as int), Tally::AgnExchange),
                n_agn_any == count_of(qs.take(i as int), Tally::AgnAny),
                n_f5 == count_of(qs.take(i as int), Tally::F5Callsign),
                n_call <= i && n_exch <= i && n_clean <= i && n_perfect <= i,
                n_agn_call <= i && n_agn_exch <= i && n_agn_any <= i && n_f5 <= i,
                points == points_of(qs.take(i as int)),
                points <= i * 0x1_0000_0000,
                wpm_sum == wpm_sum_of(qs.take(i as int)),
                wpm_sum <= i * 256,
                min_wpm == min_wpm_of(qs.take(i as int)),
                max_wpm == max_wpm_of(qs.take(i as int)),
                (cc as nat, mc as nat, ce as nat, me as nat) == streaks_of(qs.take(i as int)),
                cc <= i && mc <= i && ce <= i && me <= i,
            decreases qs.len() - i,
        {
            let q = &self.qsos[i];
            let ghost t = qs.take(i + 1);
            assert(t.drop_last() =~= qs.take(i as int));
            assert(t.last() == qs[i as int]);
            if q.callsign_correct {
                n_call = n_call + 1;
            }
            if q.exchange_correct {
                n_exch = n_exch + 1;
            }
            let clean = q.callsign_correct && q.exchange_correct;
            if clean {
                n_clean = n_clean + 1;
            }
            if clean && !q.used_agn_callsign && !q.used_agn_exchange {
                n_perfect = n_perfect + 1;
            }
            if q.used_agn_callsign {
                n_agn_call = n_agn_call + 1;
            }
            if q.used_agn_exchange {
                n_agn_exch = n_agn_exch + 1;
            }
            if q.used_agn_callsign || q.used_agn_exchange {
                n_agn_any = n_agn_any + 1;
            }
            if q.used_f5_callsign {
                n_f5 = n_f5 + 1;
            }
            assert(points + q.points <= (i + 1) * 0x1_0000_0000) by (nonlinear_arith)
                requires
                    points <= i * 0x1_0000_0000,
                    q.points < 0x1_0000_0000,
            ;
            points = points + q.points as u128;
            assert(wpm_sum + q.station_wpm <= (i + 1) * 256) by (nonlinear_arith)
                requires
                    wpm_sum <= i * 256,
                    q.station_wpm < 256,
            ;
            wpm_sum = wpm_sum + q.station_wpm as u128;
            if i == 0 {
                min_wpm = q.station_wpm;
                max_wpm = q.station_wpm;
            } else {
                if q.station_wpm < min_wpm {
                    min_wpm = q.station_wpm;
                }
                if q.station_wpm > max_wpm {
                    max_wpm = q.station_wpm;
                }
            }
            if clean {
                cc = cc + 1;
                if cc > mc {
                    mc = cc;
                }
                ce = 0;
            } else {
                ce = ce + 1;
                if ce > me {
                    me = ce;
                }
                cc = 0;
            }
            i = i + 1;
        }
        assert(qs.take(qs.len() as int) =~= qs);
        StatsAnalysis {
            total_qsos: self.qsos.len(),
            correct_callsigns: n_call,
            correct_exchanges: n_exch,
            correct_qsos: n_clean,
            perfect_qsos: n_perfect,
            total_points: points,
            agn_callsign_count: n_agn_call,
            agn_exchange_count: n_agn_exch,
            agn_any_count: n_agn_any,
            f5_callsign_count: n_f5,
            wpm_sum,
            min_station_wpm: min_wpm,
            max_station_wpm: max_wpm,
            streaks: Streaks { current_clean: cc, max_clean: mc, current_error: ce, max_error: me },
        }
    }
}


// ---------------------------------------------------------------------------
// Accuracy by calling speed
// ---------------------------------------------------------------------------

/// The speed band of a QSO: bands are two words per minute wide and start at
/// an even speed.
pub open spec fn band_start(wpm: u8) -> int {
    (wpm as int / 2) * 2
}

/// QSOs of the log in the band starting at `start`.
pub open spec fn band_total(qs: Seq<QsoRecord>, start: int) -> nat
    decreases qs.len(),
{
    if qs.len() == 0 {
        0
    } else {
        band_total(qs.drop_last(), start) + if band_start(qs.last().station_wpm) == start {
            1nat
        } else {
            0nat
        }
    }
}

/// Clean QSOs (callsign and exchange right) of the log in the band starting
/// at `start`.
pub open spec fn band_correct(qs: Seq<QsoRecord>, start: int) -> nat
    decreases qs.len(),
{
    if qs.len() == 0 {
        0
    } else {
        band_correct(qs.drop_last(), start) + if band_start(qs.last().station_wpm) == start
            && tallies(qs.last(), Tally::Clean) {
            1nat
        } else {
            0nat
        }
    }
}

/// QSOs in the bands starting below `upto` (`upto` even).
pub open spec fn bands_sum(qs: Seq<QsoRecord>, upto: nat) -> nat
    decreases upto,
{
    if upto < 2 {
        0
    } else {
        bands_sum(qs, (upto - 2) as nat) + band_total(qs, upto - 2)
    }
}

/// QSOs counted over a list of buckets.
pub open spec fn buckets_total(b: Seq<WpmBucket>) -> nat
    decreases b.len(),
{
    if b.len() == 0 {
        0
    } else {
        buckets_total(b.drop_last()) + b.last().total as nat
    }
}

proof fn lemma_bands_sum_step(qs: Seq<QsoRecord>, upto: nat)
    requires
        qs.len() > 0,
        upto % 2 == 0,
    ensures
        bands_sum(qs, upto) == bands_sum(qs.drop_last(), upto) + if band_start(qs.last().station_wpm) + 2
            <= upto {
            1nat
        } else {
            0nat
        },
    decreases upto,
{
    if upto >= 2 {
        lemma_bands_sum_step(qs, (upto - 2) as nat);
    }
}

/// Every QSO falls in exactly one band: the bands together hold the whole log.
pub proof fn lemma_bands_hold_log(qs: Seq<QsoRecord>)
    ensures
        bands_sum(qs, 256) == qs.len(),
    decreases qs.len(),
{
    if qs.len() > 0 {
        lemma_bands_hold_log(qs.drop_last());
        lemma_bands_sum_step(qs, 256);
    } else {
        lemma_bands_empty(qs, 256);
    }
}

proof fn lemma_bands_empty(qs: Seq<QsoRecord>, upto: nat)
    requires
        qs.len() == 0,
    ensures
        bands_sum(qs, upto) == 0,
    decreases upto,
{
    if upto >= 2 {
        lemma_bands_empty(qs, (upto - 2) as nat);
    }
}

/// The QSOs of one speed band.
#[derive(Clone, Copy, PartialEq, Eq, Structural, Debug)]
pub struct WpmBucket {
    /// Lowest speed of the band, which covers `start` and `start + 1`.
    pub start: u8,
    pub total: usize,
    /// QSOs of the band with callsign and exchange right.
    pub correct: usize,
}

/// The speed bands of a log as `wpm_buckets` lists them: one entry per band
/// that holds a QSO, with its counts, in increasing order of speed.
pub open spec fn bands_of(qs: Seq<QsoRecord>, b: Seq<WpmBucket>) -> bool {
    &&& forall|i: int|
        0 <= i < b.len() ==> {
            &&& #[trigger] b[i].start % 2 == 0
            &&& b[i].total == band_total(qs, b[i].start as int)
            &&& b[i].total > 0
            &&& b[i].correct == band_correct(qs, b[i].start as int)
        }
    &&& forall|i: int, j: int| 0 <= i < j < b.len() ==> b[i].start < b[j].start
    &&& forall|s: int|
        0 <= s < 256 && s % 2 == 0 && #[trigger] band_total(qs, s) > 0 ==> exists|i: int|
            0 <= i < b.len() && b[i].start == s
    &&& buckets_total(b) == qs.len()
}

impl SessionStats {
    /// Counts the QSOs of the band starting at `start`, and the clean ones.
    fn band_counts(&self, start: u8) -> (r: (usize, usize))
        ensures
            r.0 == band_total(self.qsos@, start as int),
            r.1 == band_correct(self.qsos@, start as int),
    {
        let ghost qs = self.qsos@;
        let mut total: usize = 0;
        let mut correct: usize = 0;
        let mut i: usize = 0;
        while i < self.qsos.len()
            invariant
                i <= qs.len(),
                qs == self.qsos@,
                total == band_total(qs.take(i as int), start as int),
                correct == band_correct(qs.take(i as int), start as int),
                correct <= total <= i,
            decreases qs.len() - i,
        {
            let q = &self.qsos[i];
            let ghost t = qs.take(i + 1);
            assert(t.drop_last() =~= qs.take(i as int));
            assert(t.last() == qs[i as int]);
            if (q.station_wpm / 2) * 2 == start {
                total = total + 1;
                if q.callsign_correct && q.exchange_correct {
                    correct = correct + 1;
                }
            }
            i = i + 1;
        }
        assert(qs.take(qs.len() as int) =~= qs);
        (total, correct)
    }

    /// Accuracy by calling speed: one entry per band that holds a QSO, in
    /// increasing order of speed.
    pub fn wpm_buckets(&self) -> (b: Vec<WpmBucket>)
        ensures
            bands_of(self.qsos@, b@),
    {
        let mut out: Vec<WpmBucket> = Vec::new();
        let mut s: u16 = 0;
        while s < 256
            invariant
                s % 2 == 0,
                s <= 256,
                forall|i: int|
                    0 <= i < out@.len() ==> {
                        &&& #[trigger] out@[i].start % 2 == 0
                        &&& out@[i].start < s
                        &&& out@[i].total == band_total(self.qsos@, out@[i].start as int)
                        &&& out@[i].total > 0
                        &&& out@[i].correct == band_correct(self.qsos@, out@[i].start as int)
                    },
                forall|i: int, j: int| 0 <= i < j < out@.len() ==> out@[i].start < out@[j].start,
                forall|t: int|
                    0 <= t < s && t % 2 == 0 && #[trigger] band_total(self.qsos@, t) > 0 ==> exists|i: int|
                        0 <= i < out@.len() && out@[i].start == t,
                buckets_total(out@) == bands_sum(self.qsos@, s as nat),
            decreases 256 - s,
        {
            let start: u8 = s as u8;
            let (total, correct) = self.band_counts(start);
            let ghost before = out@;
            if total > 0 {
                out.push(WpmBucket { start, total, correct });
                assert(out@.drop_last() =~= before);
            }
            assert(bands_sum(self.qsos@, (s + 2) as nat) == bands_sum(self.qsos@, s as nat) + band_total(
                self.qsos@,
                s as int,
            ));
            assert forall|t: int|
                0 <= t < s + 2 && t % 2 == 0 && #[trigger] band_total(self.qsos@, t) > 0 implies exists|i: int|
                    0 <= i < out@.len() && out@[i].start == t by {
                if t < s {
                    let i = choose|i: int| 0 <= i < before.len() && before[i].start == t;
                    assert(out@[i] == before[i]);
                } else {
                    assert(t == s);
                    assert(out@[out@.len() - 1].start == t);
                }
            }
            s = s + 2;
        }
        proof {
            lemma_bands_hold_log(self.qsos@);
        }
        out
    }
}


// ---------------------------------------------------------------------------
// Errors by character
// ---------------------------------------------------------------------------

/// Copies of `c` in `s`, counted only where `c` is alphanumeric.
pub open spec fn alnum_count(s: Seq<char>, c: char) -> nat {
    if unicode_alphanumeric(c) {
        count_char(s, c)
    } else {
        0
    }
}

/// The expected characters that were not copied at their place: an
/// alphanumeric character of `exp` is missed where `ent` is shorter or holds
/// another character at the same index.
pub open spec fn missed(exp: Seq<char>, ent: Seq<char>) -> Seq<char>
    decreases exp.len(),
{
    if exp.len() == 0 {
        Seq::empty()
    } else {
        let i = exp.len() - 1;
        let c = exp[i];
        missed(exp.drop_last(), ent) + if unicode_alphanumeric(c) && !(i < ent.len() && ent[i] == c) {
            seq![c]
        } else {
            Seq::empty()
        }
    }
}

/// Every expected character of the log, uppercased, QSO after QSO: the
/// callsign, then the exchange.
pub open spec fn expected_chars(qs: Seq<QsoRecord>) -> Seq<char>
    decreases qs.len(),
{
    if qs.len() == 0 {
        Seq::empty()
    } else {
        let q = qs.last();
        expected_chars(qs.drop_last()) + unicode_upper(q.expected_callsign@) + unicode_upper(
            q.expected_exchange@,
        )
    }
}

/// Every missed character of the log, uppercased; a part that was copied
/// right adds none.
pub open spec fn missed_chars(qs: Seq<QsoRecord>) -> Seq<char>
    decreases qs.len(),
{
    if qs.len() == 0 {
        Seq::empty()
    } else {
        let q = qs.last();
        missed_chars(qs.drop_last()) + (if !q.callsign_correct {
            missed(unicode_upper(q.expected_callsign@), unicode_upper(q.entered_callsign@))
        } else {
            Seq::empty()
        }) + (if !q.exchange_correct {
            missed(unicode_upper(q.expected_exchange@), unicode_upper(q.entered_exchange@))
        } else {
            Seq::empty()
        })
    }
}

/// How often `c` was expected over the log.
pub open spec fn samples_of(qs: Seq<QsoRecord>, c: char) -> nat {
    alnum_count(expected_chars(qs), c)
}

/// How often `c` was missed over the log.
pub open spec fn errors_of(qs: Seq<QsoRecord>, c: char) -> nat {
    count_char(missed_chars(qs), c)
}

/// Fewest samples for a character to be reported.
pub const MIN_CHAR_SAMPLES: usize = 3;

/// Errors and samples of one character.
#[derive(Clone, Copy, PartialEq, Eq, Structural, Debug)]
pub struct CharStat {
    pub ch: char,
    pub errors: usize,
    pub total: usize,
}

/// The character report of a log as `analyze_character_errors` gives it:
/// every alphanumeric character expected at least `MIN_CHAR_SAMPLES` times,
/// with its counts, in report order.
pub open spec fn char_ranking(qs: Seq<QsoRecord>, r: Seq<CharStat>) -> bool {
    &&& forall|i: int|
        0 <= i < r.len() ==> {
            &&& #[trigger] r[i].total == samples_of(qs, r[i].ch)
            &&& r[i].total >= MIN_CHAR_SAMPLES
            &&& r[i].errors == errors_of(qs, r[i].ch)
            &&& r[i].errors <= r[i].total
        }
    &&& forall|c: char|
        #[trigger] samples_of(qs, c) >= MIN_CHAR_SAMPLES ==> exists|i: int| 0 <= i < r.len() && r[i].ch == c
    &&& forall|i: int, j: int| 0 <= i < j < r.len() ==> ranks_before(r[i], r[j])
}

/// Report order: higher error rate (`errors / total`) first, then the
/// lower character.
pub open spec fn ranks_before(a: CharStat, b: CharStat) -> bool {
    let x = a.errors * b.total;
    let y = b.errors * a.total;
    x > y || (x == y && (a.ch as u32) < (b.ch as u32))
}

/// Any two reports of different characters are ordered one way or the other.
pub proof fn lemma_ranks_total(a: CharStat, b: CharStat)
    requires
        a.ch != b.ch,
    ensures
        ranks_before(a, b) || ranks_before(b, a),
{
    assert((a.ch as u32) != (b.ch as u32));
}

/// The report order is transitive where every total is positive.
pub proof fn lemma_ranks_trans(a: CharStat, b: CharStat, c: CharStat)
    requires
        a.total > 0,
        b.total > 0,
        c.total > 0,
        ranks_before(a, b),
        ranks_before(b, c),
    ensures
        ranks_before(a, c),
{
    let ae = a.errors as int;
    let at = a.total as int;
    let be = b.errors as int;
    let bt = b.total as int;
    let ce = c.errors as int;
    let ct = c.total as int;
    let rab = ae * bt - be * at;
    let rbc = be * ct - ce * bt;
    let rac = ae * ct - ce * at;
    assert(rab * ct + rbc * at == rac * bt) by (nonlinear_arith)
        requires
            rab == ae * bt - be * at,
            rbc == be * ct - ce * bt,
            rac == ae * ct - ce * at,
    ;
    assert(rab >= 0 && rbc >= 0);
    assert(rab * ct >= 0 && rbc * at >= 0) by (nonlinear_arith)
        requires
            rab >= 0,
            rbc >= 0,
            ct > 0,
            at > 0,
    ;
    if rab > 0 || rbc > 0 {
        assert(rab * ct + rbc * at > 0) by (nonlinear_arith)
            requires
                rab >= 0,
                rbc >= 0,
                ct > 0,
                at > 0,
                rab > 0 || rbc > 0,
        ;
        assert(rac > 0) by (nonlinear_arith)
            requires
                rac * bt > 0,
                bt > 0,
        ;
    } else {
        assert(rab == 0 && rbc == 0);
        assert(rab * ct + rbc * at == 0) by (nonlinear_arith)
            requires
                rab == 0,
                rbc == 0,
        ;
        assert(rac == 0) by (nonlinear_arith)
            requires
                rac * bt == 0,
                bt > 0,
        ;
    }
}

proof fn lemma_product_fits(x: usize, y: usize)
    ensures
        (x as int) * (y as int) <= u128::MAX,
{
    assert((x as int) * (y as int) <= 0xffff_ffff_ffff_ffff * 0xffff_ffff_ffff_ffff) by (nonlinear_arith)
        requires
            0 <= x <= 0xffff_ffff_ffff_ffff,
            0 <= y <= 0xffff_ffff_ffff_ffff,
    ;
}

/// `ranks_before` computed.
fn ranks_before_exec(a: &CharStat, b: &CharStat) -> (r: bool)
    ensures
        r == ranks_before(*a, *b),
{
    proof {
        lemma_product_fits(a.errors, b.total);
        lemma_product_fits(b.errors, a.total);
    }
    let x: u128 = (a.errors as u128) * (b.total as u128);
    let y: u128 = (b.errors as u128) * (a.total as u128);
    x > y || (x == y && (a.ch as u32) < (b.ch as u32))
}

/// Whether the reports stand in report order.
pub open spec fn ranked(s: Seq<CharStat>) -> bool {
    forall|i: int, j: int| 0 <= i < j < s.len() ==> ranks_before(s[i], s[j])
}

/// Inserts `st` into the ranked `out` where it belongs; returns where.
fn insert_ranked(out: &mut Vec<CharStat>, st: CharStat) -> (p: usize)
    requires
        ranked(old(out)@),
        st.total > 0,
        forall|i: int| 0 <= i < old(out)@.len() ==> (#[trigger] old(out)@[i]).total > 0 && old(out)@[i].ch != st.ch,
    ensures
        p <= old(out)@.len(),
        final(out)@ == old(out)@.insert(p as int, st),
        ranked(final(out)@),
{
    let mut p: usize = 0;
    while p < out.len() && ranks_before_exec(&out[p], &st)
        invariant
            p <= out@.len(),
            forall|i: int| 0 <= i < p ==> ranks_before(#[trigger] out@[i], st),
        decreases out@.len() - p,
    {
        p = p + 1;
    }
    proof {
        if p < out@.len() {
            lemma_ranks_total(out@[p as int], st);
            assert forall|i: int| p <= i < out@.len() implies ranks_before(st, #[trigger] out@[i]) by {
                if i > p {
                    lemma_ranks_trans(st, out@[p as int], out@[i]);
                }
            }
        }
    }
    let ghost before = out@;
    out.insert(p, st);
    proof {
        before.insert_ensures(p as int, st);
        assert forall|i: int, j: int| 0 <= i < j < out@.len() implies ranks_before(out@[i], out@[j]) by {
            if j < p {
                assert(out@[i] == before[i] && out@[j] == before[j]);
            } else if j == p {
                assert(out@[i] == before[i]);
            } else if i < p {
                assert(out@[i] == before[i] && out@[j] == before[j - 1]);
                lemma_ranks_trans(before[i], st, before[j - 1]);
            } else if i == p {
                assert(out@[j] == before[j - 1]);
            } else {
                assert(out@[i] == before[i - 1] && out@[j] == before[j - 1]);
            }
        }
    }
    p
}

/// Appends to `out` the characters of `exp` missed in `ent`.
fn push_missed(exp: &[char], ent: &[char], out: &mut Vec<char>)
    ensures
        final(out)@ == old(out)@ + missed(exp@, ent@),
{
    let mut i: usize = 0;
    while i < exp.len()
        invariant
            i <= exp@.len(),
            out@ == old(out)@ + missed(exp@.take(i as int), ent@),
        decreases exp@.len() - i,
    {
        let c = exp[i];
        let ghost t = exp@.take(i + 1);
        assert(t.drop_last() =~= exp@.take(i as int));
        assert(t.last() == c);
        let hit = i < ent.len() && ent[i] == c;
        if is_alphanumeric(c) && !hit {
            out.push(c);
            assert(out@ =~= old(out)@ + missed(t, ent@));
        } else {
            assert(out@ =~= old(out)@ + missed(t, ent@));
        }
        i = i + 1;
    }
    assert(exp@.take(exp@.len() as int) =~= exp@);
}

/// Whether `c` is in `v`.
fn holds_char(v: &Vec<char>, c: char) -> (b: bool)
    ensures
        b == v@.contains(c),
{
    let mut i: usize = 0;
    while i < v.len()
        invariant
            i <= v@.len(),
            forall|k: int| 0 <= k < i ==> v@[k] != c,
        decreases v@.len() - i,
    {
        if v[i] == c {
            assert(v@[i as int] == c);
            return true;
        }
        i = i + 1;
    }
    false
}

proof fn lemma_count_char_take(s: Seq<char>, j: int, c: char)
    requires
        0 <= j < s.len(),
    ensures
        count_char(s.take(j + 1), c) == count_char(s.take(j), c) + if s[j] == c {
            1nat
        } else {
            0nat
        },
{
    assert(s.take(j + 1).drop_last() =~= s.take(j));
}

proof fn lemma_count_char_add(a: Seq<char>, b: Seq<char>, c: char)
    ensures
        count_char(a + b, c) == count_char(a, c) + count_char(b, c),
    decreases b.len(),
{
    if b.len() == 0 {
        assert(a + b =~= a);
    } else {
        assert((a + b).drop_last() =~= a + b.drop_last());
        assert((a + b).last() == b.last());
        lemma_count_char_add(a, b.drop_last(), c);
    }
}

/// Each character is missed at most as often as it is expected.
proof fn lemma_missed_le(exp: Seq<char>, ent: Seq<char>, c: char)
    ensures
        count_char(missed(exp, ent), c) <= alnum_count(exp, c),
    decreases exp.len(),
{
    if exp.len() > 0 {
        let i = exp.len() - 1;
        let x = exp[i];
        lemma_missed_le(exp.drop_last(), ent, c);
        let tail: Seq<char> = if unicode_alphanumeric(x) && !(i < ent.len() && ent[i] == x) {
            seq![x]
        } else {
            Seq::empty()
        };
        lemma_count_char_add(missed(exp.drop_last(), ent), tail, c);
        assert(missed(exp, ent) == missed(exp.drop_last(), ent) + tail);
        if tail.len() == 1 {
            assert(tail.drop_last() =~= Seq::<char>::empty());
            assert(count_char(Seq::<char>::empty(), c) == 0);
            assert(count_char(tail.drop_last(), c) == 0);
            assert(count_char(tail, c) == if tail.last() == c {
                1nat
            } else {
                0nat
            });
            assert(tail.last() == x);
        } else {
            assert(tail =~= Seq::<char>::empty());
            assert(count_char(tail, c) == 0);
        }
        assert(exp.last() == x);
        assert(count_char(exp, c) == count_char(exp.drop_last(), c) + if x == c {
            1nat
        } else {
            0nat
        });
    }
}

/// Over a log, each character is missed at most as often as it is expected:
/// no error rate is above one.
pub proof fn lemma_errors_le_samples(qs: Seq<QsoRecord>, c: char)
    ensures
        errors_of(qs, c) <= samples_of(qs, c),
    decreases qs.len(),
{
    if qs.len() > 0 {
        let p = qs.drop_last();
        let q = qs.last();
        lemma_errors_le_samples(p, c);
        let uc = unicode_upper(q.expected_callsign@);
        let ux = unicode_upper(q.expected_exchange@);
        let mc: Seq<char> = if !q.callsign_correct {
            missed(uc, unicode_upper(q.entered_callsign@))
        } else {
            Seq::empty()
        };
        let mx: Seq<char> = if !q.exchange_correct {
            missed(ux, unicode_upper(q.entered_exchange@))
        } else {
            Seq::empty()
        };
        assert(missed_chars(qs) == missed_chars(p) + mc + mx);
        assert(expected_chars(qs) == expected_chars(p) + uc + ux);
        lemma_count_char_add(missed_chars(p) + mc, mx, c);
        lemma_count_char_add(missed_chars(p), mc, c);
        lemma_count_char_add(expected_chars(p) + uc, ux, c);
        lemma_count_char_add(expected_chars(p), uc, c);
        if !q.callsign_correct {
            lemma_missed_le(uc, unicode_upper(q.entered_callsign@), c);
        } else {
            assert(count_char(mc, c) == 0);
        }
        if !q.exchange_correct {
            lemma_missed_le(ux, unicode_upper(q.entered_exchange@), c);
        } else {
            assert(count_char(mx, c) == 0);
        }
    }
}

impl SessionStats {
    /// The expected and the missed characters of the whole log.
    fn collect_chars(&self) -> (r: (Vec<char>, Vec<char>))
        ensures
            r.0@ == expected_chars(self.qsos@),
            r.1@ == missed_chars(self.qsos@),
    {
        let ghost qs = self.qsos@;
        let mut expected: Vec<char> = Vec::new();
        let mut misses: Vec<char> = Vec::new();
        let mut i: usize = 0;
        while i < self.qsos.len()
            invariant
                i <= qs.len(),
                qs == self.qsos@,
                expected@ == expected_chars(qs.take(i as int)),
                misses@ == missed_chars(qs.take(i as int)),
            decreases qs.len() - i,
        {
            let q = &self.qsos[i];
            let ghost t = qs.take(i + 1);
            assert(t.drop_last() =~= qs.take(i as int));
            assert(t.last() == qs[i as int]);
            let exp_call = chars_of(to_upper(q.expected_callsign.as_str()).as_str());
            let exp_exch = chars_of(to_upper(q.expected_exchange.as_str()).as_str());
            if !q.callsign_correct {
                let ent = chars_of(to_upper(q.entered_callsign.as_str()).as_str());
                push_missed(exp_call.as_slice(), ent.as_slice(), &mut misses);
            }
            if !q.exchange_correct {
                let ent = chars_of(to_upper(q.entered_exchange.as_str()).as_str());
                push_missed(exp_exch.as_slice(), ent.as_slice(), &mut misses);
            }
            assert(misses@ =~= missed_chars(t));
            let mut a = exp_call;
            let mut b = exp_exch;
            expected.append(&mut a);
            expected.append(&mut b);
            i = i + 1;
        }
        assert(qs.take(qs.len() as int) =~= qs);
        (expected, misses)
    }

    /// Errors by character: every alphanumeric character expected at least
    /// `MIN_CHAR_SAMPLES` times over the log, with how often it was expected
    /// and how often missed, highest error rate first and, at equal rates,
    /// in character order.
    pub fn analyze_character_errors(&self) -> (r: Vec<CharStat>)
        ensures
            char_ranking(self.qsos@, r@),
    {
        let ghost qs = self.qsos@;
        let (expected, misses) = self.collect_chars();
        // The distinct alphanumeric characters expected.
        let mut cands: Vec<char> = Vec::new();
        let mut j: usize = 0;
        while j < expected.len()
            invariant
                j <= expected@.len(),
                forall|c: char| #[trigger] alnum_count(expected@.take(j as int), c) > 0 ==> cands@.contains(c),
                forall|a: int, b: int| 0 <= a < b < cands@.len() ==> cands@[a] != cands@[b],
                forall|a: int| 0 <= a < cands@.len() ==> unicode_alphanumeric(#[trigger] cands@[a]),
            decreases expected@.len() - j,
        {
            let c = expected[j];
            let ghost before = cands@;
            if is_alphanumeric(c) && !holds_char(&cands, c) {
                cands.push(c);
            }
            assert forall|d: char| #[trigger] alnum_count(expected@.take(j + 1), d) > 0 implies cands@.contains(d) by {
                lemma_count_char_take(expected@, j as int, d);
                if alnum_count(expected@.take(j as int), d) > 0 {
                    let k = choose|k: int| 0 <= k < before.len() && before[k] == d;
                    assert(cands@[k] == d);
                } else {
                    assert(d == c);
                    if !before.contains(c) {
                        assert(cands@[cands@.len() - 1] == d);
                    } else {
                        let k = choose|k: int| 0 <= k < before.len() && before[k] == d;
                        assert(cands@[k] == d);
                    }
                }
            }
            j = j + 1;
        }
        assert(expected@.take(expected@.len() as int) =~= expected@);
        let mut out: Vec<CharStat> = Vec::new();
        let mut k: usize = 0;
        while k < cands.len()
            invariant
                k <= cands@.len(),
                expected@ == expected_chars(qs),
                misses@ == missed_chars(qs),
                qs == self.qsos@,
                forall|c: char| #[trigger] alnum_count(expected@, c) > 0 ==> cands@.contains(c),
                forall|a: int, b: int| 0 <= a < b < cands@.len() ==> cands@[a] != cands@[b],
                forall|a: int| 0 <= a < cands@.len() ==> unicode_alphanumeric(#[trigger] cands@[a]),
                forall|i: int|
                    #![trigger out@[i]]
                    0 <= i < out@.len() ==> {
                        &&& out@[i].total == samples_of(qs, out@[i].ch)
                        &&& out@[i].total >= MIN_CHAR_SAMPLES
                        &&& out@[i].errors == errors_of(qs, out@[i].ch)
                        &&& exists|a: int| 0 <= a < k && cands@[a] == out@[i].ch
                    },
                forall|a: int|
                    0 <= a < k && #[trigger] samples_of(qs, cands@[a]) >= MIN_CHAR_SAMPLES ==> exists|i: int|
                        0 <= i < out@.len() && out@[i].ch == cands@[a],
                ranked(out@),
            decreases cands@.len() - k,
        {
            let c = cands[k];
            let total = count_chars_eq(expected.as_slice(), c);
            let errors = count_chars_eq(misses.as_slice(), c);
            assert(total == samples_of(qs, c));
            if total >= MIN_CHAR_SAMPLES {
                let st = CharStat { ch: c, errors, total };
                // Every entry so far belongs to an earlier candidate.
                assert forall|i: int| 0 <= i < out@.len() implies (#[trigger] out@[i]).ch != c by {
                    let a = choose|a: int| 0 <= a < k && cands@[a] == out@[i].ch;
                    assert(cands@[a] != cands@[k as int]);
                }
                let ghost before = out@;
                let p = insert_ranked(&mut out, st);
                proof {
                    before.insert_ensures(p as int, st);
                }
                assert forall|i: int|
                    #![trigger out@[i]]
                    0 <= i < out@.len() implies {
                        &&& out@[i].total == samples_of(qs, out@[i].ch)
                        &&& out@[i].total >= MIN_CHAR_SAMPLES
                        &&& out@[i].errors == errors_of(qs, out@[i].ch)
                        &&& exists|a: int| 0 <= a < k + 1 && cands@[a] == out@[i].ch
                    } by {
                    if i < p {
                        assert(out@[i] == before[i]);
                    } else if i == p {
                        assert(cands@[k as int] == out@[i].ch);
                    } else {
                        assert(out@[i] == before[i - 1]);
                    }
                }
                assert forall|a: int|
                    0 <= a < k + 1 && #[trigger] samples_of(qs, cands@[a]) >= MIN_CHAR_SAMPLES implies exists|i: int|
                        0 <= i < out@.len() && out@[i].ch == cands@[a] by {
                    if a < k {
                        let i = choose|i: int| 0 <= i < before.len() && before[i].ch == cands@[a];
                        if i < p {
                            assert(out@[i] == before[i]);
                        } else {
                            assert(out@[i + 1] == before[i]);
                        }
                    } else {
                        assert(out@[p as int].ch == cands@[a]);
                    }
                }
            }
            k = k + 1;
        }
        proof {
            assert forall|i: int| 0 <= i < out@.len() implies (#[trigger] out@[i]).errors <= out@[i].total by {
                lemma_errors_le_samples(qs, out@[i].ch);
            }
            assert forall|c: char| #[trigger] samples_of(qs, c) >= MIN_CHAR_SAMPLES implies exists|i: int|
                0 <= i < out@.len() && out@[i].ch == c by {
                assert(alnum_count(expected@, c) > 0);
                let a = choose|a: int| 0 <= a < cands@.len() && cands@[a] == c;
                assert(samples_of(qs, cands@[a]) >= MIN_CHAR_SAMPLES);
            }
        }
        out
    }
}

} // verus!
