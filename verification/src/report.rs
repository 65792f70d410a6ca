//! The Markdown report of a session and the name of the file it goes to.
//!
//! The percentages and the average speed are worked out by the caller (they
//! are fractions) and handed in as text, in this order: correct QSOs,
//! callsign accuracy, exchange accuracy, QSOs with a repeat request, average
//! speed, then one per speed band, then one per character reported. A rate
//! that is missing is left empty.

use vstd::prelude::*;
use crate::contest::callsign::strings_view;
use crate::num::{dec, u128_to_dec, u64_to_dec};
use crate::stats::{
    bands_of, char_ranking, count_of, max_wpm_of, min_wpm_of, points_of, streaks_of, CharStat, QsoRecord,
    SessionStats, Tally, WpmBucket,
};
use crate::text::{chars_of, string_of, to_upper, trim, trimmed_chars, unicode_upper};

verus! {

/// The `i`-th rate, or nothing when there is none.
pub open spec fn rate_of(r: Seq<Seq<char>>, i: int) -> Seq<char> {
    if 0 <= i < r.len() {
        r[i]
    } else {
        Seq::empty()
    }
}

pub open spec fn yes_no(b: bool) -> Seq<char> {
    if b {
        "Yes"@
    } else {
        "No"@
    }
}

pub open spec fn report_head(call: Seq<char>, exported: Seq<char>) -> Seq<char> {
    "# CWCT Session Export\n\n"@ + "**Callsign:** "@ + call + "  \n"@ + "**Exported:** "@ + exported + "\n\n"@
}

pub open spec fn report_summary(qs: Seq<QsoRecord>, r: Seq<Seq<char>>) -> Seq<char> {
    "## Session Summary\n\n"@ + "- Total QSOs: "@ + dec(qs.len()) + "\n"@ + "- Correct QSOs: "@ + dec(
        count_of(qs, Tally::Clean),
    ) + " ("@ + rate_of(r, 0) + "%)\n"@ + "- Total Points: "@ + dec(points_of(qs)) + "\n\n"@
}

pub open spec fn report_accuracy(qs: Seq<QsoRecord>, r: Seq<Seq<char>>) -> Seq<char> {
    "## Accuracy\n\n"@ + "- Callsign Accuracy: "@ + dec(count_of(qs, Tally::CallsignCorrect)) + "/"@ + dec(qs.len())
        + " ("@ + rate_of(r, 1) + "%)\n"@ + "- Exchange Accuracy: "@ + dec(count_of(qs, Tally::ExchangeCorrect))
        + "/"@ + dec(qs.len()) + " ("@ + rate_of(r, 2) + "%)\n\n"@
}

pub open spec fn report_streaks(qs: Seq<QsoRecord>) -> Seq<char> {
    let s = streaks_of(qs);
    "## Streaks\n\n"@ + "- Current Clean: "@ + dec(s.0) + "\n"@ + "- Max Clean: "@ + dec(s.1) + "\n"@
        + "- Current Error: "@ + dec(s.2) + "\n"@ + "- Max Error: "@ + dec(s.3) + "\n\n"@
}

pub open spec fn report_usage(qs: Seq<QsoRecord>, r: Seq<Seq<char>>) -> Seq<char> {
    "## F5/F8 Usage\n\n"@ + "- F5 (His Call): "@ + dec(count_of(qs, Tally::F5Callsign)) + "\n"@ + "- F8 Callsign: "@
        + dec(count_of(qs, Tally::AgnCallsign)) + "\n"@ + "- F8 Exchange: "@ + dec(count_of(qs, Tally::AgnExchange))
        + "\n"@ + "- Total with F8: "@ + dec(count_of(qs, Tally::AgnAny)) + if qs.len() > 0 {
        " ("@ + rate_of(r, 3) + "%)\n\n"@
    } else {
        "\n\n"@
    }
}

pub open spec fn report_speed(qs: Seq<QsoRecord>, r: Seq<Seq<char>>) -> Seq<char> {
    "## Calling Station Speed\n\n"@ + if qs.len() > 0 {
        "- Average WPM: "@ + rate_of(r, 4) + "\n"@ + "- WPM Range: "@ + dec(min_wpm_of(qs) as nat) + " - "@ + dec(
            max_wpm_of(qs) as nat,
        ) + "\n\n"@
    } else {
        "No QSOs logged yet.\n\n"@
    }
}

pub open spec fn bucket_row(x: WpmBucket, rate: Seq<char>) -> Seq<char> {
    "| "@ + dec(x.start as nat) + "-"@ + dec(x.start as nat + 1) + " | "@ + dec(x.total as nat) + " | "@ + dec(
        x.correct as nat,
    ) + " | "@ + rate + "% |\n"@
}

/// The rows of the first `n` bands.
pub open spec fn bucket_rows(b: Seq<WpmBucket>, r: Seq<Seq<char>>, n: nat) -> Seq<char>
    decreases n,
{
    if n == 0 || n > b.len() {
        Seq::empty()
    } else {
        bucket_rows(b, r, (n - 1) as nat) + bucket_row(b[n - 1], rate_of(r, 5 + n - 1))
    }
}

pub open spec fn report_buckets(b: Seq<WpmBucket>, r: Seq<Seq<char>>) -> Seq<char> {
    "## WPM Accuracy (2-WPM buckets)\n\n"@ + if b.len() == 0 {
        "No QSOs logged yet.\n\n"@
    } else {
        "| Bucket | Total | Correct | Accuracy |\n"@ + "|--------|-------|---------|----------|\n"@ + bucket_rows(
            b,
            r,
            b.len(),
        ) + "\n"@
    }
}

/// The characters of a report with at least one error, in order.
pub open spec fn erring(cs: Seq<CharStat>) -> Seq<CharStat>
    decreases cs.len(),
{
    if cs.len() == 0 {
        Seq::empty()
    } else if cs.last().errors > 0 {
        erring(cs.drop_last()).push(cs.last())
    } else {
        erring(cs.drop_last())
    }
}

/// The first ten characters with an error.
pub open spec fn top_errors(cs: Seq<CharStat>) -> Seq<CharStat> {
    if erring(cs).len() > 10 {
        erring(cs).take(10)
    } else {
        erring(cs)
    }
}

/// A character as the report shows it: the space by name.
pub open spec fn shown_char(c: char) -> Seq<char> {
    if c == ' ' {
        "[space]"@
    } else {
        seq![c]
    }
}

pub open spec fn char_row(c: CharStat, rate: Seq<char>) -> Seq<char> {
    "| "@ + shown_char(c.ch) + " | "@ + rate + "% | "@ + dec(c.total as nat) + " |\n"@
}

/// The rows of the first `n` characters; their rates follow the `base`
/// rates before them.
pub open spec fn char_rows(cs: Seq<CharStat>, r: Seq<Seq<char>>, base: int, n: nat) -> Seq<char>
    decreases n,
{
    if n == 0 || n > cs.len() {
        Seq::empty()
    } else {
        char_rows(cs, r, base, (n - 1) as nat) + char_row(cs[n - 1], rate_of(r, base + n - 1))
    }
}

pub open spec fn report_chars(cs: Seq<CharStat>, r: Seq<Seq<char>>, base: int) -> Seq<char> {
    let t = top_errors(cs);
    "## Character Error Analysis\n\n"@ + if t.len() == 0 {
        "No character errors recorded.\n\n"@
    } else {
        "| Char | Error Rate | Samples |\n"@ + "|------|------------|--------|\n"@ + char_rows(t, r, base, t.len())
            + "\n"@
    }
}

pub open spec fn log_row_calls(k: nat, q: QsoRecord) -> Seq<char> {
    "| "@ + dec(k) + " | "@ + q.expected_callsign@ + " | "@ + q.entered_callsign@ + " | "@ + yes_no(q.callsign_correct)
        + " | "@
}

pub open spec fn log_row_exchanges(q: QsoRecord) -> Seq<char> {
    q.expected_exchange@ + " | "@ + q.entered_exchange@ + " | "@ + yes_no(q.exchange_correct) + " | "@ + dec(
        q.station_wpm as nat,
    ) + " | "@
}

pub open spec fn log_row_rest(q: QsoRecord) -> Seq<char> {
    dec(q.points as nat) + " | "@ + yes_no(q.used_agn_callsign) + " | "@ + yes_no(q.used_agn_exchange) + " | "@
        + yes_no(q.used_f5_callsign) + " |\n"@
}

/// Row `k` of the QSO log: number, callsigns, exchanges, speed, points and
/// the repeat requests used.
pub open spec fn log_row(k: nat, q: QsoRecord) -> Seq<char> {
    log_row_calls(k, q) + log_row_exchanges(q) + log_row_rest(q)
}

/// The log rows of the first `n` QSOs, numbered from 1.
pub open spec fn log_rows(qs: Seq<QsoRecord>, n: nat) -> Seq<char>
    decreases n,
{
    if n == 0 || n > qs.len() {
        Seq::empty()
    } else {
        log_rows(qs, (n - 1) as nat) + log_row(n, qs[n - 1])
    }
}

pub open spec fn report_log(qs: Seq<QsoRecord>) -> Seq<char> {
    "## QSO Log\n\n"@ + if qs.len() == 0 {
        "No QSOs logged yet.\n"@
    } else {
        "| # | Expected Call | Entered Call | Call OK | Expected Exch | Entered Exch | Exch OK | WPM | Points | AGN Call | AGN Exch | F5 Used |\n"@
            + "|---|---------------|--------------|---------|---------------|--------------|---------|-----|--------|----------|----------|--------|\n"@
            + log_rows(qs, qs.len())
    }
}

/// The whole report: header, summary, accuracy, streaks, repeat requests,
/// calling speed, accuracy by speed band, character errors and the QSO log,
/// for the speed bands `b` and character report `cs` of the log.
pub open spec fn markdown_report_spec(
    call: Seq<char>,
    exported: Seq<char>,
    qs: Seq<QsoRecord>,
    b: Seq<WpmBucket>,
    cs: Seq<CharStat>,
    r: Seq<Seq<char>>,
) -> Seq<char> {
    report_head(call, exported) + report_summary(qs, r) + report_accuracy(qs, r) + report_streaks(qs) + report_usage(
        qs,
        r,
    ) + report_speed(qs, r) + report_buckets(b, r) + report_chars(cs, r, 5 + b.len() as int) + report_log(qs)
}

fn put_chars(out: &mut Vec<char>, v: &[char])
    ensures
        final(out)@ == old(out)@ + v@,
{
    let mut i: usize = 0;
    while i < v.len()
        invariant
            i <= v@.len(),
            out@ == old(out)@ + v@.take(i as int),
        decreases v@.len() - i,
    {
        out.push(v[i]);
        i = i + 1;
        assert(out@ =~= old(out)@ + v@.take(i as int));
    }
    assert(v@.take(v@.len() as int) =~= v@);
}

fn put(out: &mut Vec<char>, s: &str)
    ensures
        final(out)@ == old(out)@ + s@,
{
    let v = chars_of(s);
    put_chars(out, v.as_slice());
}

fn put_num(out: &mut Vec<char>, n: u128)
    ensures
        final(out)@ == old(out)@ + dec(n as nat),
{
    let v = u128_to_dec(n);
    put_chars(out, v.as_slice());
}

fn put_yes_no(out: &mut Vec<char>, b: bool)
    ensures
        final(out)@ == old(out)@ + yes_no(b),
{
    if b {
        put(out, "Yes");
    } else {
        put(out, "No");
    }
}

/// Appends the rate at `a + b + c`.
fn put_rate(out: &mut Vec<char>, rates: &Vec<String>, a: usize, b: usize, c: usize)
    ensures
        final(out)@ == old(out)@ + rate_of(strings_view(rates@), a + b + c),
{
    let n = rates.len();
    if c < n && b < n - c && a < n - c - b {
        let v = chars_of(rates[a + b + c].as_str());
        put_chars(out, v.as_slice());
    } else {
        assert(old(out)@ + Seq::<char>::empty() =~= old(out)@);
    }
}

fn put_head(out: &mut Vec<char>, callsign: &str, exported: &str)
    ensures
        final(out)@ == old(out)@ + report_head(callsign@, exported@),
{
    put(out, "# CWCT Session Export\n\n");
    put(out, "**Callsign:** ");
    put(out, callsign);
    put(out, "  \n");
    put(out, "**Exported:** ");
    put(out, exported);
    put(out, "\n\n");
    assert(out@ =~= old(out)@ + report_head(callsign@, exported@));
}

fn put_summary(out: &mut Vec<char>, stats: &SessionStats, rates: &Vec<String>)
    ensures
        final(out)@ == old(out)@ + report_summary(stats.qsos@, strings_view(rates@)),
{
    let a = stats.analyze();
    put(out, "## Session Summary\n\n");
    put(out, "- Total QSOs: ");
    put_num(out, a.total_qsos as u128);
    put(out, "\n");
    put(out, "- Correct QSOs: ");
    put_num(out, a.correct_qsos as u128);
    put(out, " (");
    put_rate(out, rates, 0, 0, 0);
    put(out, "%)\n");
    put(out, "- Total Points: ");
    put_num(out, a.total_points);
    put(out, "\n\n");
    assert(out@ =~= old(out)@ + report_summary(stats.qsos@, strings_view(rates@)));
}

fn put_accuracy(out: &mut Vec<char>, stats: &SessionStats, rates: &Vec<String>)
    ensures
        final(out)@ == old(out)@ + report_accuracy(stats.qsos@, strings_view(rates@)),
{
    let a = stats.analyze();
    put(out, "## Accuracy\n\n");
    put(out, "- Callsign Accuracy: ");
    put_num(out, a.correct_callsigns as u128);
    put(out, "/");
    put_num(out, a.total_qsos as u128);
    put(out, " (");
    put_rate(out, rates, 1, 0, 0);
    put(out, "%)\n");
    put(out, "- Exchange Accuracy: ");
    put_num(out, a.correct_exchanges as u128);
    put(out, "/");
    put_num(out, a.total_qsos as u128);
    put(out, " (");
    put_rate(out, rates, 2, 0, 0);
    put(out, "%)\n\n");
    assert(out@ =~= old(out)@ + report_accuracy(stats.qsos@, strings_view(rates@)));
}

fn put_streaks(out: &mut Vec<char>, stats: &SessionStats)
    ensures
        final(out)@ == old(out)@ + report_streaks(stats.qsos@),
{
    let a = stats.analyze();
    put(out, "## Streaks\n\n");
    put(out, "- Current Clean: ");
    put_num(out, a.streaks.current_clean as u128);
    put(out, "\n");
    put(out, "- Max Clean: ");
    put_num(out, a.streaks.max_clean as u128);
    put(out, "\n");
    put(out, "- Current Error: ");
    put_num(out, a.streaks.current_error as u128);
    put(out, "\n");
    put(out, "- Max Error: ");
    put_num(out, a.streaks.max_error as u128);
    put(out, "\n\n");
    assert(out@ =~= old(out)@ + report_streaks(stats.qsos@));
}

fn put_usage(out: &mut Vec<char>, stats: &SessionStats, rates: &Vec<String>)
    ensures
        final(out)@ == old(out)@ + report_usage(stats.qsos@, strings_view(rates@)),
{
    let a = stats.analyze();
    put(out, "## F5/F8 Usage\n\n");
    put(out, "- F5 (His Call): ");
    put_num(out, a.f5_callsign_count as u128);
    put(out, "\n");
    put(out, "- F8 Callsign: ");
    put_num(out, a.agn_callsign_count as u128);
    put(out, "\n");
    put(out, "- F8 Exchange: ");
    put_num(out, a.agn_exchange_count as u128);
    put(out, "\n");
    put(out, "- Total with F8: ");
    put_num(out, a.agn_any_count as u128);
    if a.total_qsos > 0 {
        put(out, " (");
        put_rate(out, rates, 3, 0, 0);
        put(out, "%)\n\n");
    } else {
        put(out, "\n\n");
    }
    assert(out@ =~= old(out)@ + report_usage(stats.qsos@, strings_view(rates@)));
}

fn put_speed(out: &mut Vec<char>, stats: &SessionStats, rates: &Vec<String>)
    ensures
        final(out)@ == old(out)@ + report_speed(stats.qsos@, strings_view(rates@)),
{
    let a = stats.analyze();
    put(out, "## Calling Station Speed\n\n");
    if a.total_qsos > 0 {
        put(out, "- Average WPM: ");
        put_rate(out, rates, 4, 0, 0);
        put(out, "\n");
        put(out, "- WPM Range: ");
        put_num(out, a.min_station_wpm as u128);
        put(out, " - ");
        put_num(out, a.max_station_wpm as u128);
        put(out, "\n\n");
    } else {
        put(out, "No QSOs logged yet.\n\n");
    }
    assert(out@ =~= old(out)@ + report_speed(stats.qsos@, strings_view(rates@)));
}

fn put_buckets(out: &mut Vec<char>, b: &Vec<WpmBucket>, rates: &Vec<String>)
    ensures
        final(out)@ == old(out)@ + report_buckets(b@, strings_view(rates@)),
{
    let ghost r = strings_view(rates@);
    put(out, "## WPM Accuracy (2-WPM buckets)\n\n");
    if b.len() == 0 {
        put(out, "No QSOs logged yet.\n\n");
        assert(out@ =~= old(out)@ + report_buckets(b@, r));
        return;
    }
    put(out, "| Bucket | Total | Correct | Accuracy |\n");
    put(out, "|--------|-------|---------|----------|\n");
    let ghost start = out@;
    let mut k: usize = 0;
    while k < b.len()
        invariant
            k <= b@.len(),
            r == strings_view(rates@),
            out@ == start + bucket_rows(b@, r, k as nat),
        decreases b@.len() - k,
    {
        let ghost before = out@;
        let x = b[k];
        put(out, "| ");
        put_num(out, x.start as u128);
        put(out, "-");
        put_num(out, x.start as u128 + 1);
        put(out, " | ");
        put_num(out, x.total as u128);
        put(out, " | ");
        put_num(out, x.correct as u128);
        put(out, " | ");
        put_rate(out, rates, 5, 0, k);
        put(out, "% |\n");
        assert(out@ =~= before + bucket_row(x, rate_of(r, 5 + k)));
        k = k + 1;
        assert(bucket_rows(b@, r, k as nat) == bucket_rows(b@, r, (k - 1) as nat) + bucket_row(
            b@[k - 1],
            rate_of(r, 5 + k - 1),
        ));
        assert(out@ =~= start + bucket_rows(b@, r, k as nat));
    }
    put(out, "\n");
    assert(out@ =~= old(out)@ + report_buckets(b@, r));
}

fn erring_of(cs: &Vec<CharStat>) -> (e: Vec<CharStat>)
    ensures
        e@ == erring(cs@),
{
    let mut e: Vec<CharStat> = Vec::new();
    let mut i: usize = 0;
    assert(cs@.take(0) =~= Seq::<CharStat>::empty());
    while i < cs.len()
        invariant
            i <= cs@.len(),
            e@ == erring(cs@.take(i as int)),
        decreases cs@.len() - i,
    {
        assert(cs@.take(i + 1).drop_last() =~= cs@.take(i as int));
        assert(cs@.take(i + 1).last() == cs@[i as int]);
        if cs[i].errors > 0 {
            e.push(cs[i]);
        }
        i = i + 1;
    }
    assert(cs@.take(cs@.len() as int) =~= cs@);
    e
}

fn put_chars_section(out: &mut Vec<char>, cs: &Vec<CharStat>, rates: &Vec<String>, base: usize)
    ensures
        final(out)@ == old(out)@ + report_chars(cs@, strings_view(rates@), 5 + base as int),
{
    let ghost r = strings_view(rates@);
    let e = erring_of(cs);
    let shown: usize = if e.len() > 10 {
        10
    } else {
        e.len()
    };
    let ghost t = top_errors(cs@);
    assert(t =~= e@.take(shown as int));
    put(out, "## Character Error Analysis\n\n");
    if shown == 0 {
        put(out, "No character errors recorded.\n\n");
        assert(out@ =~= old(out)@ + report_chars(cs@, r, 5 + base));
        return;
    }
    put(out, "| Char | Error Rate | Samples |\n");
    put(out, "|------|------------|--------|\n");
    let ghost start = out@;
    let mut k: usize = 0;
    while k < shown
        invariant
            k <= shown,
            shown <= e@.len(),
            t == e@.take(shown as int),
            r == strings_view(rates@),
            out@ == start + char_rows(t, r, 5 + base, k as nat),
        decreases shown - k,
    {
        let ghost before = out@;
        let c = e[k];
        assert(c == t[k as int]);
        put(out, "| ");
        if c.ch == ' ' {
            put(out, "[space]");
        } else {
            out.push(c.ch);
        }
        put(out, " | ");
        put_rate(out, rates, 5, base, k);
        put(out, "% | ");
        put_num(out, c.total as u128);
        put(out, " |\n");
        assert(out@ =~= before + char_row(c, rate_of(r, 5 + base + k)));
        k = k + 1;
        assert(char_rows(t, r, 5 + base, k as nat) == char_rows(t, r, 5 + base, (k - 1) as nat) + char_row(
            t[k - 1],
            rate_of(r, 5 + base + k - 1),
        ));
        assert(out@ =~= start + char_rows(t, r, 5 + base, k as nat));
    }
    put(out, "\n");
    assert(out@ =~= old(out)@ + report_chars(cs@, r, 5 + base));
}

fn put_log_calls(out: &mut Vec<char>, k: usize, q: &QsoRecord)
    ensures
        final(out)@ == old(out)@ + log_row_calls(k as nat + 1, *q),
{
    put(out, "| ");
    put_num(out, k as u128 + 1);
    put(out, " | ");
    put(out, q.expected_callsign.as_str());
    put(out, " | ");
    put(out, q.entered_callsign.as_str());
    put(out, " | ");
    put_yes_no(out, q.callsign_correct);
    put(out, " | ");
    assert(out@ =~= old(out)@ + log_row_calls(k as nat + 1, *q));
}

fn put_log_exchanges(out: &mut Vec<char>, q: &QsoRecord)
    ensures
        final(out)@ == old(out)@ + log_row_exchanges(*q),
{
    put(out, q.expected_exchange.as_str());
    put(out, " | ");
    put(out, q.entered_exchange.as_str());
    put(out, " | ");
    put_yes_no(out, q.exchange_correct);
    put(out, " | ");
    put_num(out, q.station_wpm as u128);
    put(out, " | ");
    assert(out@ =~= old(out)@ + log_row_exchanges(*q));
}

fn put_log_rest(out: &mut Vec<char>, q: &QsoRecord)
    ensures
        final(out)@ == old(out)@ + log_row_rest(*q),
{
    put_num(out, q.points as u128);
    put(out, " | ");
    put_yes_no(out, q.used_agn_callsign);
    put(out, " | ");
    put_yes_no(out, q.used_agn_exchange);
    put(out, " | ");
    put_yes_no(out, q.used_f5_callsign);
    put(out, " |\n");
    assert(out@ =~= old(out)@ + log_row_rest(*q));
}

fn put_log_row(out: &mut Vec<char>, k: usize, q: &QsoRecord)
    ensures
        final(out)@ == old(out)@ + log_row(k as nat + 1, *q),
{
    put_log_calls(out, k, q);
    put_log_exchanges(out, q);
    put_log_rest(out, q);
    assert(out@ =~= old(out)@ + log_row(k as nat + 1, *q));
}

fn put_log(out: &mut Vec<char>, stats: &SessionStats)
    ensures
        final(out)@ == old(out)@ + report_log(stats.qsos@),
{
    let ghost qs = stats.qsos@;
    put(out, "## QSO Log\n\n");
    if stats.qsos.len() == 0 {
        put(out, "No QSOs logged yet.\n");
        assert(out@ =~= old(out)@ + report_log(qs));
        return;
    }
    put(
        out,
        "| # | Expected Call | Entered Call | Call OK | Expected Exch | Entered Exch | Exch OK | WPM | Points | AGN Call | AGN Exch | F5 Used |\n",
    );
    put(
        out,
        "|---|---------------|--------------|---------|---------------|--------------|---------|-----|--------|----------|----------|--------|\n",
    );
    let ghost start = out@;
    let mut k: usize = 0;
    while k < stats.qsos.len()
        invariant
            k <= qs.len(),
            qs == stats.qsos@,
            out@ == start + log_rows(qs, k as nat),
        decreases qs.len() - k,
    {
        put_log_row(out, k, &stats.qsos[k]);
        k = k + 1;
        assert(out@ =~= start + log_rows(qs, k as nat));
    }
    assert(out@ =~= old(out)@ + report_log(qs));
}

/// The Markdown report of a session (see `markdown_report_spec`), with the
/// rates given as text in the order the module describes.
pub fn markdown_report(callsign: &str, exported: &str, stats: &SessionStats, rates: &Vec<String>) -> (md: String)
    ensures
        exists|b: Seq<WpmBucket>, cs: Seq<CharStat>|
            #![trigger markdown_report_spec(callsign@, exported@, stats.qsos@, b, cs, strings_view(rates@))]
            bands_of(stats.qsos@, b) && char_ranking(stats.qsos@, cs) && md@ == markdown_report_spec(
                callsign@,
                exported@,
                stats.qsos@,
                b,
                cs,
                strings_view(rates@),
            ),
{
    let ghost qs = stats.qsos@;
    let ghost r = strings_view(rates@);
    let mut out: Vec<char> = Vec::new();
    put_head(&mut out, callsign, exported);
    let ghost o1 = out@;
    put_summary(&mut out, stats, rates);
    put_accuracy(&mut out, stats, rates);
    put_streaks(&mut out, stats);
    let ghost o2 = out@;
    put_usage(&mut out, stats, rates);
    put_speed(&mut out, stats, rates);
    let ghost o3 = out@;
    let b = stats.wpm_buckets();
    put_buckets(&mut out, &b, rates);
    let ghost o4 = out@;
    let cs = stats.analyze_character_errors();
    put_chars_section(&mut out, &cs, rates, b.len());
    let ghost o5 = out@;
    put_log(&mut out, stats);
    assert(out@ =~= markdown_report_spec(callsign@, exported@, qs, b@, cs@, r));
    string_of(out.as_slice())
}

/// The name of a session's report file: `CWCT-{CALL}-{stamp}.md`, the
/// callsign trimmed and uppercased, or `NOCALL` when it is blank.
pub open spec fn export_file_name_spec(call: Seq<char>, stamp: Seq<char>) -> Seq<char> {
    "CWCT-"@ + (if trim(call).len() == 0 {
        "NOCALL"@
    } else {
        unicode_upper(trim(call))
    }) + "-"@ + stamp + ".md"@
}

/// `export_file_name_spec` computed; `stamp` is the local time as
/// `YYYYMMDD-HHMM`.
pub fn export_file_name(callsign: &str, stamp: &str) -> (name: String)
    ensures
        name@ == export_file_name_spec(callsign@, stamp@),
{
    let t = trimmed_chars(callsign);
    let mut out: Vec<char> = Vec::new();
    put(&mut out, "CWCT-");
    if t.len() == 0 {
        put(&mut out, "NOCALL");
    } else {
        let ts = string_of(t.as_slice());
        let up = to_upper(ts.as_str());
        let v = chars_of(up.as_str());
        put_chars(&mut out, v.as_slice());
    }
    put(&mut out, "-");
    put(&mut out, stamp);
    put(&mut out, ".md");
    assert(out@ =~= export_file_name_spec(callsign@, stamp@));
    string_of(out.as_slice())
}

} // verus!
