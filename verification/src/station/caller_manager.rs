//! Callers that persist across CQs: a queue of stations with patience,
//! how they answer a CQ, retry after a new CQ, and call in after a QSO.

use vstd::prelude::*;
use vstd::multiset::Multiset;
use crate::config::{SimulationSettings, PPM};
use crate::contest::types::{Exchange, SettingsTable};
use crate::contest::{same_stations, source_calls, source_can_run_dry, source_gives, AnyContest, AnySource};
use crate::cty::{same_country_in, CtyDat, SpecCty};
use crate::messages::{SpecParams, StationId, StationParams};
use crate::random::{random_below, random_i64_in, random_u64_in};
use crate::state::{QsoContext, QsoProgress};

verus! {

/// How a caller answers, given what it has heard.
#[derive(Clone, Copy, Debug, PartialEq, Eq, Structural)]
pub enum CallerResponse {
    /// It did not hear its callsign: resends it or sends "?".
    Confused,
    /// It heard its callsign but not our exchange: sends "AGN" or "?".
    RequestAgn,
    /// It heard both: sends its exchange.
    SendExchange,
    /// It keeps quiet, waiting for our exchange.
    Wait,
}

/// The answer from what was sent: both heard gives the exchange, only the
/// callsign gives an AGN request, no callsign gives confusion.
pub open spec fn response_for(p: QsoProgress) -> CallerResponse {
    if p.sent_their_call && p.sent_our_exchange {
        CallerResponse::SendExchange
    } else if p.sent_their_call {
        CallerResponse::RequestAgn
    } else {
        CallerResponse::Confused
    }
}

/// The answer when the user is about to send the exchange: a caller that
/// heard its callsign but not yet the exchange waits.
pub open spec fn response_in_context(p: QsoProgress, awaiting_user_exchange: bool) -> CallerResponse {
    if awaiting_user_exchange && p.sent_their_call && !p.sent_our_exchange {
        CallerResponse::Wait
    } else {
        response_for(p)
    }
}

impl CallerResponse {
    pub fn from_progress(progress: &QsoProgress) -> (r: Self)
        ensures
            r == response_for(*progress),
    {
        match (progress.sent_their_call, progress.sent_our_exchange) {
            (true, true) => CallerResponse::SendExchange,
            (true, false) => CallerResponse::RequestAgn,
            (false, _) => CallerResponse::Confused,
        }
    }

    pub fn from_progress_and_context(progress: &QsoProgress, context: &QsoContext) -> (r: Self)
        ensures
            r == response_in_context(*progress, context.awaiting_user_exchange),
    {
        if context.awaiting_user_exchange && progress.sent_their_call && !progress.sent_our_exchange {
            return CallerResponse::Wait;
        }
        Self::from_progress(progress)
    }
}

/// Where a caller stands in the queue.
#[derive(Clone, Copy, Debug, PartialEq, Eq, Structural)]
pub enum CallerState {
    /// In the queue, ready for the next chance to call.
    Waiting,
    /// Calling now.
    Calling,
    /// Gave up and left.
    GaveUp,
    /// Worked.
    Worked,
}

/// A caller that stays across CQs.
#[derive(Debug)]
pub struct PersistentCaller {
    pub params: StationParams,
    /// How many attempts the caller makes before giving up.
    pub patience: u8,
    /// Attempts made so far.
    pub attempts: u8,
    pub state: CallerState,
    /// When (ms) the caller is ready to call again.
    pub ready_at_ms: u64,
    /// How fast the caller answers a CQ.
    pub reaction_delay_ms: u32,
}

impl PersistentCaller {
    /// Waiting and its delay is over.
    pub fn is_ready_to_call(&self, now_ms: u64) -> (b: bool)
        ensures
            b == (self.state == CallerState::Waiting && now_ms >= self.ready_at_ms),
    {
        self.state == CallerState::Waiting && now_ms >= self.ready_at_ms
    }

    /// Gave up, or used up its patience.
    pub fn has_given_up(&self) -> (b: bool)
        ensures
            b == (self.state == CallerState::GaveUp || self.attempts >= self.patience),
    {
        self.state == CallerState::GaveUp || self.attempts >= self.patience
    }

    /// Counts an attempt.
    pub fn record_attempt(&mut self)
        requires
            old(self).attempts < 255,
        ensures
            final(self).attempts == old(self).attempts + 1,
            final(self).state == old(self).state,
            final(self).params == old(self).params,
            final(self).patience == old(self).patience,
            final(self).ready_at_ms == old(self).ready_at_ms,
            final(self).reaction_delay_ms == old(self).reaction_delay_ms,
    {
        self.attempts = self.attempts + 1;
    }

    /// Waits a random delay of `min_ms` to `max_ms` from `now_ms` before
    /// calling again.
    pub fn set_retry_delay(&mut self, now_ms: u64, min_ms: u32, max_ms: u32)
        requires
            min_ms <= max_ms,
            now_ms + max_ms <= u64::MAX,
        ensures
            final(self).state == CallerState::Waiting,
            now_ms + min_ms <= final(self).ready_at_ms <= now_ms + max_ms,
            final(self).attempts == old(self).attempts,
            final(self).params == old(self).params,
            final(self).patience == old(self).patience,
            final(self).reaction_delay_ms == old(self).reaction_delay_ms,
    {
        let delay = random_u64_in(min_ms as u64, max_ms as u64);
        self.ready_at_ms = now_ms + delay;
        self.state = CallerState::Waiting;
    }

    pub fn mark_calling(&mut self)
        ensures
            final(self).state == CallerState::Calling,
            final(self).attempts == old(self).attempts,
            final(self).params == old(self).params,
            final(self).patience == old(self).patience,
            final(self).ready_at_ms == old(self).ready_at_ms,
            final(self).reaction_delay_ms == old(self).reaction_delay_ms,
    {
        self.state = CallerState::Calling;
    }

    pub fn mark_worked(&mut self)
        ensures
            final(self).state == CallerState::Worked,
            final(self).attempts == old(self).attempts,
            final(self).params == old(self).params,
            final(self).patience == old(self).patience,
            final(self).ready_at_ms == old(self).ready_at_ms,
            final(self).reaction_delay_ms == old(self).reaction_delay_ms,
    {
        self.state = CallerState::Worked;
    }
}

/// One more attempt, staying at the counter's top (255).
pub open spec fn one_more(attempts: u8) -> u8 {
    if attempts < 255 {
        (attempts + 1) as u8
    } else {
        255
    }
}

/// Settings the random draws can be made with (each range non-empty).
pub open spec fn settings_ok(s: SimulationSettings) -> bool {
    &&& s.wpm_min <= s.wpm_max
    &&& s.amplitude_min_milli < s.amplitude_max_milli
    &&& 1 <= s.frequency_spread_hz
    &&& s.pileup.min_patience <= s.pileup.max_patience
    &&& s.pileup.retry_delay_min_ms <= s.pileup.retry_delay_max_ms
}

/// Every caller of `q` is one of `q0` (by its parameters).
#[verifier::opaque]
pub open spec fn callers_from_queue(q0: Seq<PersistentCaller>, q: Seq<PersistentCaller>) -> bool {
    forall|i: int| 0 <= i < q.len() ==> exists|j: int| 0 <= j < q0.len() && q0[j].params == (#[trigger] q[i]).params
}

/// A queue topped up (`q1` extends `q0`), cleaned and ordered (`q2`), then
/// called from (`q3`, index by index the same callers, in the same order):
/// every caller of `q0` still in play is in `q3`, and `q3` is ordered by
/// reaction time up to the jitter.
proof fn lemma_persisting(
    q0: Seq<PersistentCaller>,
    q1: Seq<PersistentCaller>,
    q2: Seq<PersistentCaller>,
    q3: Seq<PersistentCaller>,
)
    requires
        q1.len() >= q0.len(),
        forall|i: int| 0 <= i < q0.len() ==> #[trigger] q1[i] == q0[i],
        forall|i: int| 0 <= i < q1.len() ==> (still_in_play(#[trigger] q1[i]) ==> q2.contains(q1[i])),
        forall|i: int, j: int| 0 <= i < j < q2.len() ==> q2[i].reaction_delay_ms <= q2[j].reaction_delay_ms + 99,
        q3.len() == q2.len(),
        forall|i: int|
            0 <= i < q3.len() ==> (#[trigger] q3[i]).params == q2[i].params && q3[i].reaction_delay_ms
                == q2[i].reaction_delay_ms,
    ensures
        forall|i: int|
            0 <= i < q0.len() ==> (still_in_play(#[trigger] q0[i]) ==> exists|j: int|
                0 <= j < q3.len() && q3[j].params == q0[i].params),
        forall|i: int, j: int| 0 <= i < j < q3.len() ==> q3[i].reaction_delay_ms <= q3[j].reaction_delay_ms + 99,
{
    assert forall|i: int| 0 <= i < q0.len() implies (still_in_play(#[trigger] q0[i]) ==> exists|j: int|
        0 <= j < q3.len() && q3[j].params == q0[i].params) by {
        if still_in_play(q0[i]) {
            assert(q1[i] == q0[i]);
            let j = choose|j: int| 0 <= j < q2.len() && q2[j] == q1[i];
            assert(q3[j].params == q2[j].params);
        }
    }
    assert forall|i: int, j: int| 0 <= i < j < q3.len() implies q3[i].reaction_delay_ms <= q3[j].reaction_delay_ms
        + 99 by {
        assert(q3[i].reaction_delay_ms == q2[i].reaction_delay_ms);
        assert(q3[j].reaction_delay_ms == q2[j].reaction_delay_ms);
    }
}

/// A queue topped up (`q1` extends `q0` with new waiting callers, or is `q0`
/// when no top-up was due), cleaned (`q2`, callers of `q1` still in play)
/// and called from (`q3`, the same callers index by index): `q2` is a queue
/// a call for answers may start from, and without a top-up every caller of
/// `q3` was in `q0`.
proof fn lemma_queue_origin(
    q0: Seq<PersistentCaller>,
    q1: Seq<PersistentCaller>,
    q2: Seq<PersistentCaller>,
    q3: Seq<PersistentCaller>,
    due: bool,
)
    requires
        q1.len() >= q0.len(),
        forall|i: int| 0 <= i < q0.len() ==> #[trigger] q1[i] == q0[i],
        forall|i: int|
            q0.len() <= i < q1.len() ==> (#[trigger] q1[i]).state == CallerState::Waiting && q1[i].attempts == 0,
        forall|i: int| 0 <= i < q2.len() ==> still_in_play(#[trigger] q2[i]) && q1.contains(q2[i]),
        !due ==> q1 == q0,
        q3.len() == q2.len(),
        forall|i: int| 0 <= i < q3.len() ==> (#[trigger] q3[i]).params == q2[i].params,
    ensures
        cleaned_from(q0, q2),
        !due ==> callers_from_queue(q0, q3),
{
    reveal(cleaned_from);
    reveal(callers_from_queue);
    assert forall|i: int| 0 <= i < q2.len() implies still_in_play(#[trigger] q2[i]) && (q0.contains(q2[i]) || (
    q2[i].state == CallerState::Waiting && q2[i].attempts == 0)) by {
        let j = choose|j: int| 0 <= j < q1.len() && q1[j] == q2[i];
        if j < q0.len() {
            assert(q0[j] == q1[j]);
        }
    }
    if !due {
        assert forall|i: int| 0 <= i < q3.len() implies exists|j: int|
            0 <= j < q0.len() && q0[j].params == (#[trigger] q3[i]).params by {
            assert(q2[i] == q3[i] || q3[i].params == q2[i].params);
            let j = choose|j: int| 0 <= j < q1.len() && q1[j] == q2[i];
            assert(q0[j].params == q3[i].params);
        }
    }
}

proof fn lemma_mod_step(base: int, d: int, sc: int)
    requires
        0 <= base < 0x1_0000_0000,
        0 <= d,
        sc == (base + d) % 0x1_0000_0000,
    ensures
        (if sc + 1 > 0xffff_ffff { sc + 1 - 0x1_0000_0000 } else { sc + 1 }) == (base + d + 1) % 0x1_0000_0000,
{
}

proof fn lemma_mod_diff(base: int, d: int)
    requires
        0 <= base < 0x1_0000_0000,
        0 <= d <= 10,
    ensures
        ((base + d) % 0x1_0000_0000 - base) % 0x1_0000_0000 == d,
{
}

/// A text argument that may be missing, as plain data.
pub open spec fn str_opt(o: Option<&str>) -> Option<Seq<char>> {
    match o {
        Some(t) => Some(t@),
        None => None,
    }
}

/// A country table that may be missing, as plain data.
pub open spec fn cty_opt(o: Option<&CtyDat>) -> Option<SpecCty> {
    match o {
        Some(d) => Some(d.view_cty()),
        None => None,
    }
}

/// The id after `id`, wrapping around at the top.
pub open spec fn next_id_after(id: u32) -> u32 {
    if id == u32::MAX {
        0
    } else {
        (id + 1) as u32
    }
}

/// Whether the same-country filter can turn every station away: it is on,
/// the user's callsign and the country table are known, and a station of the
/// user's country is not always let through.
pub open spec fn gives_up_on_country(s: SimulationSettings, user: Option<Seq<char>>, db: Option<SpecCty>) -> bool {
    &&& s.same_country_filter_enabled
    &&& user is Some
    &&& db is Some
    &&& s.same_country_probability_ppm < 1_000_000
}

/// Whether the same-country filter applies to a station: the filter is on,
/// the user's callsign and the country table are known, and both callsigns
/// are from the same country.
pub open spec fn filter_applies(
    s: SimulationSettings,
    user: Option<Seq<char>>,
    db: Option<SpecCty>,
    call: Seq<char>,
) -> bool {
    s.same_country_filter_enabled && match (user, db) {
        (Some(u), Some(d)) => same_country_in(d, u, call),
        _ => false,
    }
}

/// Whether simulation settings can be run with (`settings_ok`).
pub fn settings_usable(s: &SimulationSettings) -> (b: bool)
    ensures
        b == settings_ok(*s),
{
    s.wpm_min <= s.wpm_max && s.amplitude_min_milli < s.amplitude_max_milli && 1 <= s.frequency_spread_hz
        && s.pileup.min_patience <= s.pileup.max_patience
        && s.pileup.retry_delay_min_ms <= s.pileup.retry_delay_max_ms
}

/// Chance, in millionths, that a waiting caller of this patience calls:
/// 0.5 + (patience - 1) * 0.1.
pub open spec fn call_probability_ppm(patience: u8) -> int {
    400_000 + 100_000 * patience
}

/// The chance, in millionths, that a waiting caller answers when `slot`
/// callers have answered already: `call_probability_ppm` after a CQ; for a
/// tail-ender halved once per caller already answering.
pub open spec fn answer_chance_ppm(patience: u8, slot: nat, tail: bool) -> int
    decreases slot,
{
    if !tail || slot == 0 {
        call_probability_ppm(patience)
    } else {
        answer_chance_ppm(patience, (slot - 1) as nat, tail) / 2
    }
}

/// How the chance to answer behaves: a more patient caller is more likely
/// to answer; after a CQ the chance does not depend on how many answered
/// already; for tail-enders each further slot halves it (rounding down), so
/// it never grows and never exceeds the caller's base chance.
pub proof fn lemma_answer_chance(p1: u8, p2: u8, slot: nat)
    ensures
        p1 <= p2 ==> call_probability_ppm(p1) <= call_probability_ppm(p2),
        answer_chance_ppm(p1, slot, false) == answer_chance_ppm(p1, 0, true),
        answer_chance_ppm(p1, slot + 1, true) * 2 <= answer_chance_ppm(p1, slot, true),
        answer_chance_ppm(p1, slot, true) <= answer_chance_ppm(p1, slot + 1, true) * 2 + 1,
        0 <= answer_chance_ppm(p1, slot, true) <= call_probability_ppm(p1),
    decreases slot,
{
    if slot > 0 {
        lemma_answer_chance(p1, p2, (slot - 1) as nat);
    }
}

/// `answer_chance_ppm` computed.
pub fn answer_chance(patience: u8, slot: usize, tail: bool) -> (r: u64)
    ensures
        r == answer_chance_ppm(patience, slot as nat, tail),
{
    let base: u64 = 400_000 + 100_000 * patience as u64;
    if !tail {
        return base;
    }
    let mut prob = base;
    let mut k: usize = 0;
    while k < slot
        invariant
            k <= slot,
            tail,
            prob == answer_chance_ppm(patience, k as nat, tail),
            prob <= base,
        decreases slot - k,
    {
        prob = prob / 2;
        k = k + 1;
        assert(answer_chance_ppm(patience, k as nat, tail) == answer_chance_ppm(patience, (k - 1) as nat, tail) / 2);
    }
    prob
}

/// The callers that stay when the queue is cleaned: neither worked nor
/// gone.
pub open spec fn still_in_play(c: PersistentCaller) -> bool {
    c.state != CallerState::Worked && c.state != CallerState::GaveUp
}

/// Sorts callers by key, keeping the order of equal keys: the result holds
/// the same (key, caller) pairs with keys in order.
fn sort_by_key(v: Vec<(u64, PersistentCaller)>) -> (r: Vec<(u64, PersistentCaller)>)
    ensures
        r@.to_multiset() == v@.to_multiset(),
        forall|i: int, j: int| 0 <= i < j < r@.len() ==> r@[i].0 <= r@[j].0,
{
    let ghost orig = v@;
    let mut rest = v;
    let mut out: Vec<(u64, PersistentCaller)> = Vec::new();
    proof {
        out@.to_multiset_ensures();
        vstd::multiset::lemma_multiset_empty_len(out@.to_multiset());
        assert(out@.to_multiset().add(rest@.to_multiset()) =~= orig.to_multiset());
    }
    while rest.len() > 0
        invariant
            out@.to_multiset().add(rest@.to_multiset()) == orig.to_multiset(),
            forall|i: int, j: int| 0 <= i < j < out@.len() ==> out@[i].0 <= out@[j].0,
            forall|i: int, j: int| 0 <= i < out@.len() && 0 <= j < rest@.len() ==> out@[i].0 <= rest@[j].0,
        decreases rest@.len(),
    {
        let mut best: usize = 0;
        let mut k: usize = 1;
        while k < rest.len()
            invariant
                1 <= k <= rest@.len(),
                best < k,
                forall|j: int| 0 <= j < k ==> rest@[best as int].0 <= rest@[j].0,
            decreases rest@.len() - k,
        {
            if rest[k].0 < rest[best].0 {
                best = k;
            }
            k = k + 1;
        }
        let ghost before_rest = rest@;
        let ghost before_out = out@;
        let x = rest.remove(best);
        assert(before_rest.remove(best as int) == rest@);
        out.push(x);
        proof {
            before_rest.to_multiset_ensures();
            before_out.to_multiset_ensures();
            assert(before_rest.remove(best as int).to_multiset() =~= before_rest.to_multiset().remove(
                before_rest[best as int],
            ));
            assert(before_out.push(x).to_multiset() =~= before_out.to_multiset().insert(x));
            assert(before_rest.to_multiset().count(x) > 0) by {
                assert(before_rest.contains(x)) by {
                    assert(before_rest[best as int] == x);
                }
            }
            assert(out@.to_multiset().add(rest@.to_multiset()) =~= before_out.to_multiset().add(
                before_rest.to_multiset(),
            ));
            assert forall|i: int, j: int| 0 <= i < out@.len() && 0 <= j < rest@.len() implies out@[i].0
                <= rest@[j].0 by {
                if j < best {
                    assert(rest@[j] == before_rest[j]);
                } else {
                    assert(rest@[j] == before_rest[j + 1]);
                }
            }
        }
    }
    proof {
        rest@.to_multiset_ensures();
        vstd::multiset::lemma_multiset_empty_len(rest@.to_multiset());
    }
    assert(rest@.to_multiset() =~= Multiset::empty());
    assert(out@.to_multiset() =~= orig.to_multiset());
    out
}

/// Manages the persistent queue of callers.
pub struct CallerManager {
    source: AnySource,
    settings: SimulationSettings,
    next_id: u32,
    serial_counter: u32,
    queue: Vec<PersistentCaller>,
    active_ids: Vec<StationId>,
    last_replenish_ms: u64,
}

impl CallerManager {
    /// The manager's invariant: usable settings, and a waiting caller can
    /// still count an attempt.
    pub closed spec fn wf(&self) -> bool {
        &&& settings_ok(self.settings)
        &&& forall|i: int| 0 <= i < self.queue@.len() && (#[trigger] self.queue@[i]).state == CallerState::Waiting
            ==> self.queue@[i].attempts < 255
    }

    pub closed spec fn spec_settings(&self) -> SimulationSettings {
        self.settings
    }

    pub closed spec fn spec_source(&self) -> AnySource {
        self.source
    }

    pub closed spec fn spec_queue(&self) -> Seq<PersistentCaller> {
        self.queue@
    }

    pub closed spec fn spec_active_ids(&self) -> Seq<StationId> {
        self.active_ids@
    }

    /// The id given to the last caller created.
    pub closed spec fn spec_next_id(&self) -> u32 {
        self.next_id
    }

    /// When (ms) the queue was last topped up.
    pub closed spec fn spec_last_replenish_ms(&self) -> u64 {
        self.last_replenish_ms
    }

    /// The simulation settings in use.
    pub fn settings(&self) -> (s: SimulationSettings)
        ensures
            s == self.spec_settings(),
    {
        self.settings
    }

    /// A manager with an empty queue.
    pub fn new(source: AnySource, settings: SimulationSettings, now_ms: u64) -> (m: Self)
        requires
            settings_ok(settings),
        ensures
            m.wf(),
            m.spec_source() == source,
            m.spec_settings() == settings,
            m.spec_queue().len() == 0,
            m.spec_active_ids().len() == 0,
    {
        CallerManager {
            source,
            settings,
            next_id: 0,
            serial_counter: 1,
            queue: Vec::new(),
            active_ids: Vec::new(),
            last_replenish_ms: now_ms,
        }
    }

    /// New simulation settings; the queue stays.
    pub fn update_settings(&mut self, settings: SimulationSettings)
        requires
            old(self).wf(),
            settings_ok(settings),
        ensures
            final(self).wf(),
            final(self).spec_settings() == settings,
            final(self).spec_queue() == old(self).spec_queue(),
            final(self).spec_source() == old(self).spec_source(),
            final(self).spec_active_ids() == old(self).spec_active_ids(),
    {
        self.settings = settings;
    }

    /// A new station source; the queue is emptied.
    pub fn update_callsigns(&mut self, source: AnySource)
        requires
            old(self).wf(),
        ensures
            final(self).wf(),
            final(self).spec_source() == source,
            final(self).spec_queue().len() == 0,
            final(self).spec_active_ids().len() == 0,
            final(self).spec_settings() == old(self).spec_settings(),
    {
        self.source = source;
        self.queue.clear();
        self.active_ids.clear();
    }

    /// Whether a caller from the user's country is turned away: only when
    /// the filter is on and both callsigns are known to be from the same
    /// country, and then unless the roll (in millionths) falls below the
    /// same-country probability.
    fn reject_same_country(&self, user_callsign: Option<&str>, cty: Option<&CtyDat>, callsign: &str) -> (b: bool)
        ensures
            b ==> filter_applies(self.settings, str_opt(user_callsign), cty_opt(cty), callsign@),
            filter_applies(self.settings, str_opt(user_callsign), cty_opt(cty), callsign@)
                && self.settings.same_country_probability_ppm == 0 ==> b,
            self.settings.same_country_probability_ppm >= 1_000_000 ==> !b,
    {
        if !self.settings.same_country_filter_enabled {
            return false;
        }
        match (user_callsign, cty) {
            (Some(user), Some(db)) => {
                if db.same_country(user, callsign) {
                    let roll = random_below(1_000_000) as u64;
                    roll >= self.settings.same_country_probability_ppm as u64
                } else {
                    false
                }
            },
            _ => false,
        }
    }

    /// A new caller from the source: random speed, offset, amplitude,
    /// patience and reaction time within the settings. Up to ten stations
    /// are drawn when the same-country filter turns some away.
    fn create_caller(
        &mut self,
        contest: &AnyContest,
        contest_settings: &SettingsTable,
        user_callsign: Option<&str>,
        cty: Option<&CtyDat>,
        now_ms: u64,
    ) -> (r: Option<PersistentCaller>)
        requires
            old(self).wf(),
        ensures
            (final(self).serial_counter as int - old(self).serial_counter as int) % 0x1_0000_0000 <= 10,
            final(self).wf(),
            final(self).settings == old(self).settings,
            same_stations(old(self).source, final(self).source),
            final(self).queue == old(self).queue,
            final(self).active_ids == old(self).active_ids,
            final(self).last_replenish_ms == old(self).last_replenish_ms,
            match r {
                Some(c) => {
                    &&& c.state == CallerState::Waiting
                    &&& c.attempts == 0
                    &&& c.ready_at_ms == now_ms
                    &&& final(self).next_id == next_id_after(old(self).next_id)
                    &&& c.params.id == StationId(final(self).next_id)
                    &&& old(self).settings.pileup.min_patience <= c.patience <= old(self).settings.pileup.max_patience
                    &&& 100 <= c.reaction_delay_ms < 800
                    &&& c.params.reaction_delay_ms == c.reaction_delay_ms
                    &&& old(self).settings.wpm_min <= c.params.wpm <= old(self).settings.wpm_max
                    &&& old(self).settings.amplitude_min_milli <= c.params.amplitude_milli
                        < old(self).settings.amplitude_max_milli
                    &&& -(old(self).settings.frequency_spread_hz as int / 2) <= c.params.frequency_offset_hz
                        <= old(self).settings.frequency_spread_hz / 2
                    &&& source_gives(
                        old(self).source,
                        *contest,
                        contest_settings.view_table(),
                        c.params.callsign@,
                        c.params.exchange.view_fields(),
                    )
                },
                None => final(self).next_id == old(self).next_id && (source_can_run_dry(old(self).source) || gives_up_on_country(
                    old(self).settings,
                    str_opt(user_callsign),
                    cty_opt(cty),
                )),
            },
    {
        let mut found: Option<(String, Exchange)> = None;
        let mut tries: usize = 0;
        let ghost mut dry = false;
        let ghost mut draws: int = 0;
        while tries < 10
            invariant_except_break
                found is None,
            invariant
                tries <= 10,
                0 <= draws <= 10,
                found is None ==> draws == tries,
                self.serial_counter as int == (old(self).serial_counter as int + draws) % 0x1_0000_0000,
                dry ==> source_can_run_dry(old(self).source),
                tries > 0 ==> gives_up_on_country(old(self).settings, str_opt(user_callsign), cty_opt(cty)),
                self.wf(),
                self.settings == old(self).settings,
                same_stations(old(self).source, self.source),
                self.queue == old(self).queue,
                self.active_ids == old(self).active_ids,
                self.last_replenish_ms == old(self).last_replenish_ms,
                self.next_id == old(self).next_id,
                match found {
                    Some((c, e)) => source_gives(
                        old(self).source,
                        *contest,
                        contest_settings.view_table(),
                        c@,
                        e.view_fields(),
                    ),
                    None => true,
                },
            ensures
                found is None ==> dry || gives_up_on_country(old(self).settings, str_opt(user_callsign), cty_opt(cty)),
                0 <= draws <= 10,
                self.serial_counter as int == (old(self).serial_counter as int + draws) % 0x1_0000_0000,
                self.wf(),
                self.settings == old(self).settings,
                same_stations(old(self).source, self.source),
                self.queue == old(self).queue,
                self.active_ids == old(self).active_ids,
                self.last_replenish_ms == old(self).last_replenish_ms,
                self.next_id == old(self).next_id,
                match found {
                    Some((c, e)) => source_gives(
                        old(self).source,
                        *contest,
                        contest_settings.view_table(),
                        c@,
                        e.view_fields(),
                    ),
                    None => true,
                },
            decreases 10 - tries,
        {
            let ghost before = self.source;
            let drawn = self.source.random(contest, self.serial_counter, contest_settings);
            let (callsign, exchange) = match drawn {
                Some(x) => x,
                None => {
                    proof {
                        lemma_same_stations_dry(old(self).source, before);
                        dry = true;
                    }
                    break;
                },
            };
            assert(source_gives(before, *contest, contest_settings.view_table(), callsign@, exchange.view_fields()));
            proof {
                lemma_same_stations_gives(old(self).source, before, *contest, contest_settings.view_table(), callsign@, exchange.view_fields());
                lemma_same_stations_trans(old(self).source, before, self.source);
            }
            let ghost sc = self.serial_counter;
            self.serial_counter = self.serial_counter.wrapping_add(1);
            proof {
                draws = draws + 1;
                lemma_mod_step(old(self).serial_counter as int, draws - 1, sc as int);
            }
            if !self.reject_same_country(user_callsign, cty, callsign.as_str()) {
                found = Some((callsign, exchange));
                break;
            }
            tries = tries + 1;
        }
        proof {
            lemma_mod_diff(old(self).serial_counter as int, draws);
        }
        let (callsign, exchange) = match found {
            Some(x) => x,
            None => return None,
        };
        let s = self.settings;
        let wpm = random_u64_in(s.wpm_min as u64, s.wpm_max as u64) as u8;
        let half = (s.frequency_spread_hz / 2) as i64;
        let offset = random_i64_in(-half, half) as i32;
        let amplitude = random_u64_in(s.amplitude_min_milli as u64, (s.amplitude_max_milli - 1) as u64) as u32;
        let patience = random_u64_in(s.pileup.min_patience as u64, s.pileup.max_patience as u64) as u8;
        let reaction = random_u64_in(100, 799) as u32;
        self.next_id = self.next_id.wrapping_add(1);
        Some(
            PersistentCaller {
                params: StationParams {
                    id: StationId(self.next_id),
                    callsign,
                    exchange,
                    frequency_offset_hz: offset,
                    wpm,
                    amplitude_milli: amplitude,
                    reaction_delay_ms: reaction,
                },
                patience,
                attempts: 0,
                state: CallerState::Waiting,
                ready_at_ms: now_ms,
                reaction_delay_ms: reaction,
            },
        )
    }

    /// Adds callers to the queue, at most once every 500 ms: while fewer
    /// than ceil(2.5 * max simultaneous stations) callers are in play, each
    /// addition succeeds with the station probability; the first failure
    /// stops it.
    fn replenish_queue(
        &mut self,
        contest: &AnyContest,
        contest_settings: &SettingsTable,
        user_callsign: Option<&str>,
        cty: Option<&CtyDat>,
        now_ms: u64,
    )
        requires
            old(self).wf(),
        ensures
            final(self).wf(),
            final(self).settings == old(self).settings,
            same_stations(old(self).source, final(self).source),
            final(self).active_ids == old(self).active_ids,
            final(self).queue@.len() >= old(self).queue@.len(),
            forall|i: int| 0 <= i < old(self).queue@.len() ==> #[trigger] final(self).queue@[i] == old(self).queue@[i],
            forall|i: int|
                old(self).queue@.len() <= i < final(self).queue@.len() ==> (#[trigger] final(self).queue@[i]).state
                    == CallerState::Waiting && final(self).queue@[i].attempts == 0 && source_gives(
                    old(self).source,
                    *contest,
                    contest_settings.view_table(),
                    final(self).queue@[i].params.callsign@,
                    final(self).queue@[i].params.exchange.view_fields(),
                ),
            !replenish_due(old(self).last_replenish_ms, now_ms) ==> {
                &&& final(self).queue@ == old(self).queue@
                &&& final(self).last_replenish_ms == old(self).last_replenish_ms
            },
            in_play_count(final(self).queue@) <= if in_play_count(old(self).queue@) >= queue_target(old(self).settings) {
                in_play_count(old(self).queue@) as int
            } else {
                queue_target(old(self).settings)
            },
            replenish_due(old(self).last_replenish_ms, now_ms) ==> {
                &&& final(self).last_replenish_ms == now_ms
                &&& (old(self).settings.station_probability_ppm == 0 ==> final(self).queue@ == old(self).queue@)
                &&& (in_play_count(final(self).queue@) >= queue_target(old(self).settings)
                    || old(self).settings.station_probability_ppm < 1_000_000
                    || source_can_run_dry(old(self).source)
                    || gives_up_on_country(old(self).settings, str_opt(user_callsign), cty_opt(cty)))
            },
    {
        if now_ms < self.last_replenish_ms || now_ms - self.last_replenish_ms < 500 {
            return;
        }
        self.last_replenish_ms = now_ms;
        let target: usize = (self.settings.max_simultaneous_stations as usize * 5 + 1) / 2;
        let mut in_play: usize = 0;
        let mut i: usize = 0;
        assert(self.queue@.take(0) =~= Seq::<PersistentCaller>::empty());
        while i < self.queue.len()
            invariant
                i <= self.queue@.len(),
                in_play <= i,
                in_play == in_play_count(self.queue@.take(i as int)),
            decreases self.queue@.len() - i,
        {
            assert(self.queue@.take(i + 1).drop_last() =~= self.queue@.take(i as int));
            if self.queue[i].state != CallerState::Worked && self.queue[i].state != CallerState::GaveUp {
                in_play = in_play + 1;
            }
            i = i + 1;
        }
        assert(self.queue@.take(i as int) =~= self.queue@);
        let ghost q0 = self.queue@;
        while in_play < target
            invariant
                self.wf(),
                self.settings == old(self).settings,
                target == queue_target(self.settings),
                same_stations(old(self).source, self.source),
                self.active_ids == old(self).active_ids,
                self.last_replenish_ms == now_ms,
                self.queue@.len() >= old(self).queue@.len(),
                q0 == old(self).queue@,
                in_play == in_play_count(self.queue@),
                in_play <= if in_play_count(q0) >= target { in_play_count(q0) as int } else { target as int },
                self.settings.station_probability_ppm == 0 ==> self.queue@ == q0,
                forall|i: int| 0 <= i < old(self).queue@.len() ==> #[trigger] self.queue@[i] == old(self).queue@[i],
                forall|i: int|
                    old(self).queue@.len() <= i < self.queue@.len() ==> (#[trigger] self.queue@[i]).state
                        == CallerState::Waiting && self.queue@[i].attempts == 0 && source_gives(
                        old(self).source,
                        *contest,
                        contest_settings.view_table(),
                        self.queue@[i].params.callsign@,
                        self.queue@[i].params.exchange.view_fields(),
                    ),
            ensures
                self.wf(),
                self.settings == old(self).settings,
                same_stations(old(self).source, self.source),
                self.active_ids == old(self).active_ids,
                self.last_replenish_ms == now_ms,
                self.queue@.len() >= old(self).queue@.len(),
                self.settings.station_probability_ppm == 0 ==> self.queue@ == q0,
                forall|i: int| 0 <= i < old(self).queue@.len() ==> #[trigger] self.queue@[i] == old(self).queue@[i],
                forall|i: int|
                    old(self).queue@.len() <= i < self.queue@.len() ==> (#[trigger] self.queue@[i]).state
                        == CallerState::Waiting && self.queue@[i].attempts == 0 && source_gives(
                        old(self).source,
                        *contest,
                        contest_settings.view_table(),
                        self.queue@[i].params.callsign@,
                        self.queue@[i].params.exchange.view_fields(),
                    ),
                in_play_count(self.queue@) <= if in_play_count(q0) >= queue_target(self.settings) {
                    in_play_count(q0) as int
                } else {
                    queue_target(self.settings)
                },
                in_play_count(self.queue@) >= queue_target(self.settings)
                    || self.settings.station_probability_ppm < 1_000_000
                    || source_can_run_dry(old(self).source)
                    || gives_up_on_country(self.settings, str_opt(user_callsign), cty_opt(cty)),
            decreases target - in_play,
        {
            let roll = random_below(1_000_000) as u64;
            if roll >= self.settings.station_probability_ppm as u64 {
                break;
            }
            let ghost src = self.source;
            match self.create_caller(contest, contest_settings, user_callsign, cty, now_ms) {
                Some(c) => {
                    proof {
                        lemma_same_stations_gives(old(self).source, src, *contest, contest_settings.view_table(), c.params.callsign@, c.params.exchange.view_fields());
                        lemma_same_stations_trans(old(self).source, src, self.source);
                    }
                    let ghost before = self.queue@;
                    self.queue.push(c);
                    assert(self.queue@.drop_last() =~= before);
                },
                None => {
                    proof {
                        lemma_same_stations_trans(old(self).source, src, self.source);
                        lemma_same_stations_dry(old(self).source, src);
                    }
                    break;
                },
            }
            in_play = in_play + 1;
        }
    }
}

/// Whether the queue may be topped up at `now_ms`: 500 ms or more since the
/// last time.
pub open spec fn replenish_due(last_ms: u64, now_ms: u64) -> bool {
    now_ms >= last_ms && now_ms - last_ms >= 500
}

/// How many callers the queue aims to hold in play: 2.5 times the
/// simultaneous maximum, rounded up.
pub open spec fn queue_target(s: SimulationSettings) -> int {
    (s.max_simultaneous_stations * 5 + 1) / 2
}

/// How many callers of a queue are still in play.
pub open spec fn in_play_count(q: Seq<PersistentCaller>) -> nat
    decreases q.len(),
{
    if q.len() == 0 {
        0
    } else {
        in_play_count(q.drop_last()) + if still_in_play(q.last()) {
            1nat
        } else {
            0nat
        }
    }
}

/// A caller the queue can hold: a waiting caller can still count an attempt.
pub open spec fn caller_ok(c: PersistentCaller) -> bool {
    c.state == CallerState::Waiting ==> c.attempts < 255
}

/// A caller with these parameters is calling (and was waiting in `before`,
/// the queue as it stood before the selection).
pub open spec fn picked(q: Seq<PersistentCaller>, before: Seq<PersistentCaller>, p: SpecParams) -> bool {
    exists|i: int|
        0 <= i < q.len() && #[trigger] q[i].params.view_params() == p && q[i].state == CallerState::Calling
            && before[i].state == CallerState::Waiting
}

/// A caller with these parameters is calling, and was ready at `now_ms`.
pub open spec fn calling_in(q: Seq<PersistentCaller>, p: SpecParams, ready_by: Option<u64>) -> bool {
    exists|i: int|
        0 <= i < q.len() && #[trigger] q[i].params.view_params() == p && q[i].state == CallerState::Calling
            && match ready_by {
            Some(t) => q[i].ready_at_ms <= t,
            None => true,
        }
}

/// The ids of a list without `id`, in order.
pub open spec fn without_id(ids: Seq<StationId>, id: StationId) -> Seq<StationId>
    decreases ids.len(),
{
    if ids.len() == 0 {
        ids
    } else {
        let r = without_id(ids.drop_last(), id);
        if ids.last() == id {
            r
        } else {
            r.push(ids.last())
        }
    }
}

/// How a call for answers went: `post` is `pre` with the callers that
/// answered marked calling (each was waiting, and ready for a tail-ender),
/// their attempts counted and their ids active; and some rolls, one per
/// caller and each below a million, decide exactly who answered (see
/// `answers`), `answered` of them.
#[verifier::opaque]
pub open spec fn answered_from(
    pre: Seq<PersistentCaller>,
    post: Seq<PersistentCaller>,
    active: Seq<StationId>,
    answered: nat,
    now_ms: u64,
    tail: bool,
    max: int,
) -> bool {
    &&& post.len() == pre.len()
    &&& (forall|i: int|
        0 <= i < post.len() ==> {
            let a = pre[i];
            let b = #[trigger] post[i];
            &&& b.params == a.params
            &&& b.patience == a.patience
            &&& b.ready_at_ms == a.ready_at_ms
            &&& b.reaction_delay_ms == a.reaction_delay_ms
            &&& ((b == a) || (a.state == CallerState::Waiting && (tail ==> now_ms >= a.ready_at_ms)
                && b.state == CallerState::Calling && b.attempts == a.attempts + 1
                && active.contains(a.params.id)))
        })
    &&& (exists|rolls: Seq<u64>|
        #![trigger answered_upto(pre, rolls, pre.len() as nat, now_ms, tail, max)]
        {
            &&& rolls.len() == pre.len()
            &&& forall|k: int| 0 <= k < rolls.len() ==> #[trigger] rolls[k] < 1_000_000
            &&& answered == answered_upto(
                pre,
                rolls,
                pre.len() as nat,
                now_ms,
                tail,
                max,
            )
            &&& forall|i: int|
                0 <= i < pre.len() ==> ((#[trigger] post[i] != pre[i])
                    == answers(
                    pre[i],
                    rolls[i],
                    answered_upto(
                        pre,
                        rolls,
                        i as nat,
                        now_ms,
                        tail,
                        max,
                    ),
                    now_ms,
                    tail,
                    max,
                ))
        })
}

/// The queue a call for answers starts from: callers still in play, each
/// from the queue before or newly added (waiting, no attempt yet).
#[verifier::opaque]
pub open spec fn cleaned_from(q0: Seq<PersistentCaller>, pre: Seq<PersistentCaller>) -> bool {
    forall|i: int|
        0 <= i < pre.len() ==> still_in_play(#[trigger] pre[i]) && (q0.contains(pre[i]) || (pre[i].state
            == CallerState::Waiting && pre[i].attempts == 0))
}

/// Whether a caller may answer now: it waits, and a tail-ender must also be
/// ready.
pub open spec fn eligible(c: PersistentCaller, now_ms: u64, tail: bool) -> bool {
    c.state == CallerState::Waiting && (tail ==> now_ms >= c.ready_at_ms)
}

/// Whether a caller answers, given its roll (in millionths) and how many
/// callers answered before it: it may answer, the maximum is not reached,
/// and the roll falls below its chance.
pub open spec fn answers(c: PersistentCaller, roll: u64, count: nat, now_ms: u64, tail: bool, max: int) -> bool {
    &&& eligible(c, now_ms, tail)
    &&& count < max
    &&& roll < answer_chance_ppm(c.patience, count, tail)
}

/// How many of the first `n` callers of `q` answer, with `rolls[i]` the
/// roll of caller `i`.
pub open spec fn answered_upto(q: Seq<PersistentCaller>, rolls: Seq<u64>, n: nat, now_ms: u64, tail: bool, max: int) -> nat
    decreases n,
{
    if n == 0 {
        0
    } else {
        let before = answered_upto(q, rolls, (n - 1) as nat, now_ms, tail, max);
        before + if answers(q[n - 1], rolls[n - 1], before, now_ms, tail, max) {
            1nat
        } else {
            0nat
        }
    }
}

/// The count of answers up to `n` depends only on the first `n` rolls.
proof fn lemma_answered_prefix(
    q: Seq<PersistentCaller>,
    r1: Seq<u64>,
    r2: Seq<u64>,
    n: nat,
    now_ms: u64,
    tail: bool,
    max: int,
)
    requires
        n <= r1.len(),
        n <= r2.len(),
        forall|k: int| 0 <= k < n ==> r1[k] == r2[k],
    ensures
        answered_upto(q, r1, n, now_ms, tail, max) == answered_upto(q, r2, n, now_ms, tail, max),
    decreases n,
{
    if n > 0 {
        lemma_answered_prefix(q, r1, r2, (n - 1) as nat, now_ms, tail, max);
    }
}

/// `base` halved `k` times (rounding down).
pub open spec fn halved(base: int, k: nat) -> int
    decreases k,
{
    if k == 0 {
        base
    } else {
        halved(base, (k - 1) as nat) / 2
    }
}

impl CallerManager {
    /// Removes worked and gone callers and orders the rest by reaction time
    /// plus a random jitter of 0 to 99 ms (equal keys keep their order).
    fn clean_and_order(&mut self)
        requires
            old(self).wf(),
        ensures
            final(self).last_replenish_ms == old(self).last_replenish_ms,
            final(self).next_id == old(self).next_id,
            final(self).wf(),
            final(self).settings == old(self).settings,
            final(self).source == old(self).source,
            final(self).active_ids == old(self).active_ids,
            forall|i: int|
                0 <= i < final(self).queue@.len() ==> still_in_play(#[trigger] final(self).queue@[i])
                    && old(self).queue@.contains(final(self).queue@[i]),
            forall|i: int|
                0 <= i < old(self).queue@.len() ==> (still_in_play(#[trigger] old(self).queue@[i])
                    ==> final(self).queue@.contains(old(self).queue@[i])),
            forall|i: int, j: int|
                0 <= i < j < final(self).queue@.len() ==> final(self).queue@[i].reaction_delay_ms
                    <= final(self).queue@[j].reaction_delay_ms + 99,
    {
        let ghost orig = self.queue@;
        let mut q: Vec<PersistentCaller> = Vec::new();
        std::mem::swap(&mut q, &mut self.queue);
        assert(q@ == orig);
        assert(orig.skip(0) =~= orig);
        let total: usize = q.len();
        let mut keyed: Vec<(u64, PersistentCaller)> = Vec::new();
        let mut taken: usize = 0;
        while q.len() > 0
            invariant
                q@ == orig.skip(taken as int),
                taken <= orig.len(),
                orig.len() == total,
                forall|i: int| 0 <= i < orig.len() ==> caller_ok(#[trigger] orig[i]),
                forall|j: int|
                    0 <= j < keyed@.len() ==> still_in_play((#[trigger] keyed@[j]).1) && caller_ok(keyed@[j].1)
                        && orig.contains(keyed@[j].1) && keyed@[j].1.reaction_delay_ms <= keyed@[j].0
                        <= keyed@[j].1.reaction_delay_ms + 99,
                forall|i: int|
                    0 <= i < taken ==> (still_in_play(#[trigger] orig[i]) ==> exists|j: int|
                        0 <= j < keyed@.len() && keyed@[j].1 == orig[i]),
            decreases q@.len(),
        {
            assert(q@[0] == orig[taken as int]);
            let ghost before = keyed@;
            let c = q.remove(0);
            assert(q@ =~= orig.skip(taken + 1));
            if c.state != CallerState::Worked && c.state != CallerState::GaveUp {
                let jitter = random_below(100) as u64;
                keyed.push((c.reaction_delay_ms as u64 + jitter, c));
                assert(keyed@[keyed@.len() - 1].1 == orig[taken as int]);
            }
            assert forall|i: int| 0 <= i < taken + 1 implies (still_in_play(#[trigger] orig[i]) ==> exists|j: int|
                0 <= j < keyed@.len() && keyed@[j].1 == orig[i]) by {
                if i < taken && still_in_play(orig[i]) {
                    let j = choose|j: int| 0 <= j < before.len() && before[j].1 == orig[i];
                    assert(keyed@[j] == before[j]);
                }
            }
            taken = taken + 1;
        }
        let sorted = sort_by_key(keyed);
        proof {
            sorted@.to_multiset_ensures();
            keyed@.to_multiset_ensures();
            assert forall|j: int| 0 <= j < sorted@.len() implies still_in_play((#[trigger] sorted@[j]).1)
                && caller_ok(sorted@[j].1) && orig.contains(sorted@[j].1) && sorted@[j].1.reaction_delay_ms
                <= sorted@[j].0 <= sorted@[j].1.reaction_delay_ms + 99 by {
                assert(sorted@.contains(sorted@[j]));
                assert(sorted@.to_multiset().count(sorted@[j]) > 0);
                assert(keyed@.to_multiset().count(sorted@[j]) > 0);
                assert(keyed@.contains(sorted@[j]));
                let k = choose|k: int| 0 <= k < keyed@.len() && keyed@[k] == sorted@[j];
                assert(keyed@[k] == sorted@[j]);
            }
            assert forall|i: int| 0 <= i < orig.len() implies (still_in_play(#[trigger] orig[i]) ==> exists|j: int|
                0 <= j < sorted@.len() && sorted@[j].1 == orig[i]) by {
                if still_in_play(orig[i]) {
                    let k = choose|k: int| 0 <= k < keyed@.len() && keyed@[k].1 == orig[i];
                    assert(keyed@.contains(keyed@[k]));
                    assert(keyed@.to_multiset().count(keyed@[k]) > 0);
                    assert(sorted@.to_multiset().count(keyed@[k]) > 0);
                    assert(sorted@.contains(keyed@[k]));
                }
            }
        }
        let ghost all = sorted@;
        let mut rest = sorted;
        assert(rest@.skip(0) =~= all);
        while rest.len() > 0
            invariant
                rest@ == all.skip(self.queue@.len() as int),
                self.queue@.len() <= all.len(),
                forall|k: int| 0 <= k < self.queue@.len() ==> #[trigger] self.queue@[k] == all[k].1,
                forall|j: int|
                    0 <= j < all.len() ==> still_in_play((#[trigger] all[j]).1) && caller_ok(all[j].1)
                        && orig.contains(all[j].1),
                self.settings == old(self).settings,
                self.last_replenish_ms == old(self).last_replenish_ms,
                self.next_id == old(self).next_id,
                self.source == old(self).source,
                self.active_ids == old(self).active_ids,
                settings_ok(self.settings),
            decreases rest@.len(),
        {
            let ghost n = self.queue@.len() as int;
            assert(rest@[0] == all[n]);
            let (_, c) = rest.remove(0);
            assert(rest@ =~= all.skip(n + 1));
            self.queue.push(c);
        }
        proof {
            assert(self.queue@.len() == all.len());
            assert forall|i: int| 0 <= i < self.queue@.len() implies still_in_play(#[trigger] self.queue@[i])
                && caller_ok(self.queue@[i]) && orig.contains(self.queue@[i]) by {
                assert(self.queue@[i] == all[i].1);
            }
            assert forall|i: int| 0 <= i < orig.len() implies (still_in_play(#[trigger] orig[i])
                ==> self.queue@.contains(orig[i])) by {
                if still_in_play(orig[i]) {
                    let j = choose|j: int| 0 <= j < all.len() && all[j].1 == orig[i];
                    assert(self.queue@[j] == orig[i]);
                }
            }
            assert forall|i: int, j: int| 0 <= i < j < self.queue@.len() implies self.queue@[i].reaction_delay_ms
                <= self.queue@[j].reaction_delay_ms + 99 by {
                assert(self.queue@[i] == all[i].1 && self.queue@[j] == all[j].1);
                assert(all[i].0 <= all[j].0);
            }
        }
    }

    /// Goes through the ordered queue and lets callers call, up to the
    /// simultaneous maximum. A CQ answer takes waiting callers; a tail-ender
    /// must also be ready at `now_ms`, and each further tail-ender is half
    /// as likely as the one before. Each chosen caller is marked calling,
    /// counts an attempt, and becomes active.
    fn select_callers(&mut self, now_ms: u64, tail: bool) -> (r: Vec<StationParams>)
        requires
            old(self).wf(),
            old(self).active_ids@.len() == 0,
        ensures
            final(self).last_replenish_ms == old(self).last_replenish_ms,
            final(self).next_id == old(self).next_id,
            final(self).wf(),
            final(self).settings == old(self).settings,
            final(self).source == old(self).source,
            r@.len() <= old(self).settings.max_simultaneous_stations,
            final(self).active_ids@.len() == r@.len(),
            final(self).queue@.len() == old(self).queue@.len(),
            forall|k: int| 0 <= k < r@.len() ==> (#[trigger] r@[k]).id == final(self).active_ids@[k],
            forall|i: int|
                0 <= i < final(self).queue@.len() ==> {
                    let a = old(self).queue@[i];
                    let b = #[trigger] final(self).queue@[i];
                    &&& b.params == a.params
                    &&& b.patience == a.patience
                    &&& b.ready_at_ms == a.ready_at_ms
                    &&& b.reaction_delay_ms == a.reaction_delay_ms
                    &&& ((b == a) || (a.state == CallerState::Waiting && (tail ==> now_ms >= a.ready_at_ms)
                        && b.state == CallerState::Calling && b.attempts == a.attempts + 1
                        && final(self).active_ids@.contains(a.params.id)))
                },
            answered_from(
                old(self).queue@,
                final(self).queue@,
                final(self).active_ids@,
                r@.len(),
                now_ms,
                tail,
                old(self).settings.max_simultaneous_stations as int,
            ),
            forall|k: int| 0 <= k < r@.len() ==> picked(final(self).queue@, old(self).queue@, (#[trigger] r@[k]).view_params()),
    {
        let ghost orig = self.queue@;
        let ghost mut rolls_g: Seq<u64> = Seq::empty();
        let max = self.settings.max_simultaneous_stations as usize;
        let mut q: Vec<PersistentCaller> = Vec::new();
        std::mem::swap(&mut q, &mut self.queue);
        assert(q@ == orig);
        assert(orig.skip(0) =~= orig);
        let total: usize = q.len();
        let mut responding: Vec<StationParams> = Vec::new();
        let mut taken: usize = 0;
        while q.len() > 0
            invariant
                q@ == orig.skip(taken as int),
                taken <= orig.len(),
                orig.len() == total,
                self.queue@.len() == taken,
                forall|i: int| 0 <= i < orig.len() ==> caller_ok(#[trigger] orig[i]),
                responding@.len() <= max,
                max == self.settings.max_simultaneous_stations,
                self.active_ids@.len() == responding@.len(),
                self.settings == old(self).settings,
                self.last_replenish_ms == old(self).last_replenish_ms,
                self.next_id == old(self).next_id,
                self.source == old(self).source,
                settings_ok(self.settings),
                forall|k: int| 0 <= k < responding@.len() ==> (#[trigger] responding@[k]).id == self.active_ids@[k],
                forall|i: int|
                    0 <= i < self.queue@.len() ==> {
                        let a = orig[i];
                        let b = #[trigger] self.queue@[i];
                        &&& caller_ok(b)
                        &&& b.params == a.params
                        &&& b.patience == a.patience
                        &&& b.ready_at_ms == a.ready_at_ms
                        &&& b.reaction_delay_ms == a.reaction_delay_ms
                        &&& ((b == a) || (a.state == CallerState::Waiting && (tail ==> now_ms >= a.ready_at_ms)
                            && b.state == CallerState::Calling && b.attempts == a.attempts + 1
                            && self.active_ids@.contains(a.params.id)))
                    },
                forall|k: int| 0 <= k < responding@.len() ==> picked(self.queue@, orig, (#[trigger] responding@[k]).view_params()),
                rolls_g.len() == taken,
                forall|k: int| 0 <= k < rolls_g.len() ==> #[trigger] rolls_g[k] < 1_000_000,
                responding@.len() == answered_upto(orig, rolls_g, taken as nat, now_ms, tail, max as int),
                forall|i: int|
                    0 <= i < taken ==> ((#[trigger] self.queue@[i] != orig[i]) == answers(
                        orig[i],
                        rolls_g[i],
                        answered_upto(orig, rolls_g, i as nat, now_ms, tail, max as int),
                        now_ms,
                        tail,
                        max as int,
                    )),
            decreases q@.len(),
        {
            assert(q@[0] == orig[taken as int]);
            let ghost mut roll_g: u64 = 0;
            let mut c = q.remove(0);
            assert(q@ =~= orig.skip(taken + 1));
            let ghost a = c;
            let eligible = if tail {
                c.is_ready_to_call(now_ms)
            } else {
                c.state == CallerState::Waiting
            };
            let ghost ids_before = self.active_ids@;
            let ghost resp_before = responding@;
            let ghost queue_before = self.queue@;
            let ghost mut chosen = false;
            assert(a == orig[taken as int]);
            if responding.len() < max && eligible {
                let prob = answer_chance(c.patience, responding.len(), tail);
                let roll = random_below(1_000_000) as u64;
                proof {
                    roll_g = roll;
                }
                if roll < prob {
                    c.mark_calling();
                    assert(caller_ok(a));
                    c.record_attempt();
                    self.active_ids.push(c.params.id);
                    responding.push(c.params.clone_params());
                    assert(self.active_ids@.contains(a.params.id)) by {
                        assert(self.active_ids@[self.active_ids@.len() - 1] == a.params.id);
                    }
                    proof {
                        chosen = true;
                    }
                }
            }
            assert(chosen ==> a.state == CallerState::Waiting && (tail ==> now_ms >= a.ready_at_ms)
                && c.state == CallerState::Calling && c.attempts == a.attempts + 1 && c.params == a.params
                && responding@ == resp_before.push(responding@.last()) && responding@.last().view_params()
                == c.params.view_params());
            assert(!chosen ==> c == a && responding@ == resp_before && self.active_ids@ == ids_before);
            let ghost rolls_before = rolls_g;
            proof {
                rolls_g = rolls_g.push(roll_g);
                assert(chosen == answers(a, roll_g, resp_before.len(), now_ms, tail, max as int));
                assert forall|i: int| 0 <= i <= taken implies #[trigger] answered_upto(orig, rolls_g, i as nat, now_ms, tail, max as int)
                    == answered_upto(orig, rolls_before, i as nat, now_ms, tail, max as int) by {
                    lemma_answered_prefix(orig, rolls_g, rolls_before, i as nat, now_ms, tail, max as int);
                }
                assert(answered_upto(orig, rolls_g, (taken + 1) as nat, now_ms, tail, max as int)
                    == answered_upto(orig, rolls_g, taken as nat, now_ms, tail, max as int) + if answers(
                    orig[taken as int],
                    rolls_g[taken as int],
                    answered_upto(orig, rolls_g, taken as nat, now_ms, tail, max as int),
                    now_ms,
                    tail,
                    max as int,
                ) {
                    1nat
                } else {
                    0nat
                });
            }
            let ghost idx = self.queue@.len() as int;
            self.queue.push(c);
            proof {
                assert forall|i: int| 0 <= i < taken + 1 implies ((#[trigger] self.queue@[i] != orig[i]) == answers(
                    orig[i],
                    rolls_g[i],
                    answered_upto(orig, rolls_g, i as nat, now_ms, tail, max as int),
                    now_ms,
                    tail,
                    max as int,
                )) by {
                    if i < taken {
                        assert(self.queue@[i] == queue_before[i]);
                        assert(rolls_g[i] == rolls_before[i]);
                    } else {
                        assert(self.queue@[i] == c);
                    }
                }
                assert forall|i: int| 0 <= i < self.queue@.len() implies {
                    let a = orig[i];
                    let b = #[trigger] self.queue@[i];
                    &&& caller_ok(b)
                    &&& b.params == a.params
                    &&& b.patience == a.patience
                    &&& b.ready_at_ms == a.ready_at_ms
                    &&& b.reaction_delay_ms == a.reaction_delay_ms
                    &&& ((b == a) || (a.state == CallerState::Waiting && (tail ==> now_ms >= a.ready_at_ms)
                        && b.state == CallerState::Calling && b.attempts == a.attempts + 1
                        && self.active_ids@.contains(a.params.id)))
                } by {
                    if i < idx {
                        assert(self.queue@[i] == queue_before[i]);
                        let b = queue_before[i];
                        if b != orig[i] {
                            assert(ids_before.contains(orig[i].params.id));
                            let m = choose|m: int| 0 <= m < ids_before.len() && ids_before[m] == orig[i].params.id;
                            assert(self.active_ids@[m] == ids_before[m]);
                        }
                    }
                }
                assert forall|k: int| 0 <= k < responding@.len() implies picked(
                    self.queue@,
                    orig,
                    (#[trigger] responding@[k]).view_params(),
                ) by {
                    if k < resp_before.len() {
                        assert(responding@[k] == resp_before[k]);
                        assert(picked(queue_before, orig, resp_before[k].view_params()));
                        let i = choose|i: int|
                            0 <= i < queue_before.len() && #[trigger] queue_before[i].params.view_params()
                                == resp_before[k].view_params() && queue_before[i].state == CallerState::Calling
                                && orig[i].state == CallerState::Waiting;
                        assert(self.queue@[i] == queue_before[i]);
                        assert(self.queue@[i].params.view_params() == responding@[k].view_params());
                    } else {
                        assert(chosen);
                        assert(self.queue@[idx] == c);
                        assert(orig[idx] == a);
                        assert(responding@[k] == responding@.last());
                        assert(self.queue@[idx].params.view_params() == responding@[k].view_params());
                    }
                }
                assert forall|k: int| 0 <= k < responding@.len() implies (#[trigger] responding@[k]).id
                    == self.active_ids@[k] by {
                    if k < resp_before.len() {
                        assert(responding@[k] == resp_before[k]);
                        assert(self.active_ids@[k] == ids_before[k]);
                    }
                }
            }
            taken = taken + 1;
        }
        assert(taken == orig.len());
        assert(answered_upto(orig, rolls_g, orig.len() as nat, now_ms, tail, max as int) == responding@.len());
        proof {
            reveal(answered_from);
        }
        responding
    }

    /// A CQ ended: the queue is topped up and cleaned, and waiting callers
    /// answer (more patient ones more likely), fastest first, up to the
    /// simultaneous maximum. Returns the stations that call.
    pub fn on_cq_complete(
        &mut self,
        contest: &AnyContest,
        contest_settings: &SettingsTable,
        user_callsign: Option<&str>,
        cty: Option<&CtyDat>,
        now_ms: u64,
    ) -> (r: Vec<StationParams>)
        requires
            old(self).wf(),
        ensures
            final(self).wf(),
            final(self).spec_settings() == old(self).spec_settings(),
            same_stations(old(self).spec_source(), final(self).spec_source()),
            r@.len() <= old(self).spec_settings().max_simultaneous_stations,
            final(self).spec_active_ids().len() == r@.len(),
            forall|k: int| 0 <= k < r@.len() ==> (#[trigger] r@[k]).id == final(self).spec_active_ids()[k],
            forall|i: int| 0 <= i < final(self).spec_queue().len() ==> still_in_play(#[trigger] final(self).spec_queue()[i]),
            forall|k: int| 0 <= k < r@.len() ==> calling_in(final(self).spec_queue(), (#[trigger] r@[k]).view_params(), None),
            forall|i: int|
                0 <= i < old(self).spec_queue().len() ==> (still_in_play(#[trigger] old(self).spec_queue()[i])
                    ==> exists|j: int|
                    0 <= j < final(self).spec_queue().len() && final(self).spec_queue()[j].params
                        == old(self).spec_queue()[i].params),
            forall|i: int, j: int|
                0 <= i < j < final(self).spec_queue().len() ==> final(self).spec_queue()[i].reaction_delay_ms
                    <= final(self).spec_queue()[j].reaction_delay_ms + 99,
            exists|pre: Seq<PersistentCaller>|
                #[trigger] cleaned_from(old(self).spec_queue(), pre) && answered_from(
                    pre,
                    final(self).spec_queue(),
                    final(self).spec_active_ids(),
                    r@.len(),
                    now_ms,
                    false,
                    old(self).spec_settings().max_simultaneous_stations as int,
                ),
            replenish_due(old(self).spec_last_replenish_ms(), now_ms) ==> final(self).spec_last_replenish_ms() == now_ms,
            !replenish_due(old(self).spec_last_replenish_ms(), now_ms) ==> {
                &&& final(self).spec_last_replenish_ms() == old(self).spec_last_replenish_ms()
                &&& callers_from_queue(old(self).spec_queue(), final(self).spec_queue())
            },
    {
        let ghost q0_last = self.last_replenish_ms;
        let ghost q0 = self.queue@;
        self.replenish_queue(contest, contest_settings, user_callsign, cty, now_ms);
        let ghost q1 = self.queue@;
        self.clean_and_order();
        self.active_ids.clear();
        let ghost before = self.queue@;
        let r = self.select_callers(now_ms, false);
        proof {
            lemma_queue_origin(q0, q1, before, self.queue@, replenish_due(q0_last, now_ms));
            assert(answered_from(
                before,
                self.queue@,
                self.active_ids@,
                r@.len(),
                now_ms,
                false,
                self.settings.max_simultaneous_stations as int,
            ));
            assert(q0 == old(self).spec_queue());
            assert(self.queue@ == self.spec_queue());
            assert(self.active_ids@ == self.spec_active_ids());
            assert(cleaned_from(old(self).spec_queue(), before) && answered_from(
                before,
                self.spec_queue(),
                self.spec_active_ids(),
                r@.len(),
                now_ms,
                false,
                old(self).spec_settings().max_simultaneous_stations as int,
            ));
        }
        proof {
            lemma_persisting(q0, q1, before, self.queue@);
            assert forall|i: int| 0 <= i < self.queue@.len() implies still_in_play(#[trigger] self.queue@[i]) by {
                assert(still_in_play(before[i]));
            }
            assert forall|k: int| 0 <= k < r@.len() implies calling_in(self.queue@, (#[trigger] r@[k]).view_params(), None) by {
                assert(picked(self.queue@, before, r@[k].view_params()));
                let i = choose|i: int|
                    0 <= i < self.queue@.len() && #[trigger] self.queue@[i].params.view_params() == r@[k].view_params()
                        && self.queue@[i].state == CallerState::Calling && before[i].state == CallerState::Waiting;
                assert(self.queue@[i].params.view_params() == r@[k].view_params());
            }
        }
        r
    }

    /// The user called CQ again before finishing: each caller that was calling
    /// counts one more attempt, then gives up when its patience is used up, or
    /// else waits a random retry delay. No caller stays active.
    pub fn on_cq_restart(&mut self, now_ms: u64)
        requires
            old(self).wf(),
            now_ms + old(self).spec_settings().pileup.retry_delay_max_ms <= u64::MAX,
        ensures
            final(self).wf(),
            final(self).spec_settings() == old(self).spec_settings(),
            final(self).spec_source() == old(self).spec_source(),
            final(self).spec_active_ids().len() == 0,
            final(self).spec_queue().len() == old(self).spec_queue().len(),
            forall|i: int|
                0 <= i < final(self).spec_queue().len() ==> {
                    let a = old(self).spec_queue()[i];
                    let b = #[trigger] final(self).spec_queue()[i];
                    &&& b.params == a.params
                    &&& b.patience == a.patience
                    &&& (a.state != CallerState::Calling ==> b == a)
                    &&& (a.state == CallerState::Calling ==> b.attempts == one_more(a.attempts))
                    &&& (a.state == CallerState::Calling && one_more(a.attempts) >= a.patience ==> b.state
                        == CallerState::GaveUp && b.ready_at_ms == a.ready_at_ms)
                    &&& (a.state == CallerState::Calling && one_more(a.attempts) < a.patience ==> b.state
                        == CallerState::Waiting && now_ms + old(self).spec_settings().pileup.retry_delay_min_ms
                        <= b.ready_at_ms <= now_ms + old(self).spec_settings().pileup.retry_delay_max_ms)
                },
    {
        let ghost orig = self.queue@;
        let lo = self.settings.pileup.retry_delay_min_ms;
        let hi = self.settings.pileup.retry_delay_max_ms;
        let mut q: Vec<PersistentCaller> = Vec::new();
        std::mem::swap(&mut q, &mut self.queue);
        assert(q@ == orig);
        assert(orig.skip(0) =~= orig);
        let total: usize = q.len();
        let mut taken: usize = 0;
        while q.len() > 0
            invariant
                q@ == orig.skip(taken as int),
                taken <= orig.len(),
                orig.len() == total,
                self.queue@.len() == taken,
                self.settings == old(self).settings,
                self.source == old(self).source,
                lo == self.settings.pileup.retry_delay_min_ms,
                hi == self.settings.pileup.retry_delay_max_ms,
                lo <= hi,
                now_ms + hi <= u64::MAX,
                settings_ok(self.settings),
                forall|i: int| 0 <= i < orig.len() ==> caller_ok(#[trigger] orig[i]),
                forall|i: int|
                    0 <= i < self.queue@.len() ==> {
                        let a = orig[i];
                        let b = #[trigger] self.queue@[i];
                        &&& caller_ok(b)
                        &&& b.params == a.params
                        &&& b.patience == a.patience
                        &&& (a.state != CallerState::Calling ==> b == a)
                        &&& (a.state == CallerState::Calling ==> b.attempts == one_more(a.attempts))
                        &&& (a.state == CallerState::Calling && one_more(a.attempts) >= a.patience ==> b.state
                            == CallerState::GaveUp && b.ready_at_ms == a.ready_at_ms)
                        &&& (a.state == CallerState::Calling && one_more(a.attempts) < a.patience ==> b.state
                            == CallerState::Waiting && now_ms + lo <= b.ready_at_ms <= now_ms + hi)
                    },
            decreases q@.len(),
        {
            assert(q@[0] == orig[taken as int]);
            let mut c = q.remove(0);
            assert(q@ =~= orig.skip(taken + 1));
            if c.state == CallerState::Calling {
                c.attempts = c.attempts.saturating_add(1);
                if c.has_given_up() {
                    c.state = CallerState::GaveUp;
                } else {
                    c.set_retry_delay(now_ms, lo, hi);
                }
            }
            self.queue.push(c);
            taken = taken + 1;
        }
        self.active_ids.clear();
    }

    /// A QSO with a station was logged: that caller is worked and no longer
    /// active.
    pub fn on_qso_complete(&mut self, station_id: StationId)
        requires
            old(self).wf(),
        ensures
            final(self).wf(),
            final(self).spec_settings() == old(self).spec_settings(),
            final(self).spec_source() == old(self).spec_source(),
            final(self).spec_queue().len() == old(self).spec_queue().len(),
            forall|i: int|
                0 <= i < final(self).spec_queue().len() ==> {
                    let a = old(self).spec_queue()[i];
                    let b = #[trigger] final(self).spec_queue()[i];
                    &&& b.params == a.params
                    &&& b.attempts == a.attempts
                    &&& (a.params.id != station_id ==> b == a)
                    &&& (a.params.id == station_id ==> b.state == CallerState::Worked)
                },
            final(self).spec_active_ids() == without_id(old(self).spec_active_ids(), station_id),
    {
        let ghost orig = self.queue@;
        let mut q: Vec<PersistentCaller> = Vec::new();
        std::mem::swap(&mut q, &mut self.queue);
        assert(q@ == orig);
        assert(orig.skip(0) =~= orig);
        let total: usize = q.len();
        let mut taken: usize = 0;
        while q.len() > 0
            invariant
                q@ == orig.skip(taken as int),
                taken <= orig.len(),
                orig.len() == total,
                self.queue@.len() == taken,
                self.settings == old(self).settings,
                self.active_ids == old(self).active_ids,
                self.source == old(self).source,
                settings_ok(self.settings),
                forall|i: int| 0 <= i < orig.len() ==> caller_ok(#[trigger] orig[i]),
                forall|i: int|
                    0 <= i < self.queue@.len() ==> {
                        let a = orig[i];
                        let b = #[trigger] self.queue@[i];
                        &&& caller_ok(b)
                        &&& b.params == a.params
                        &&& b.attempts == a.attempts
                        &&& (a.params.id != station_id ==> b == a)
                        &&& (a.params.id == station_id ==> b.state == CallerState::Worked)
                    },
            decreases q@.len(),
        {
            assert(q@[0] == orig[taken as int]);
            let mut c = q.remove(0);
            assert(q@ =~= orig.skip(taken + 1));
            if c.params.id == station_id {
                c.mark_worked();
            }
            self.queue.push(c);
            taken = taken + 1;
        }
        let ghost ids = self.active_ids@;
        let mut kept: Vec<StationId> = Vec::new();
        let mut k: usize = 0;
        assert(ids.take(0) =~= Seq::<StationId>::empty());
        while k < self.active_ids.len()
            invariant
                k <= self.active_ids@.len(),
                self.active_ids@ == ids,
                kept@ == without_id(ids.take(k as int), station_id),
            decreases self.active_ids@.len() - k,
        {
            let id = self.active_ids[k];
            proof {
                assert(ids.take(k + 1).drop_last() =~= ids.take(k as int));
                assert(ids.take(k + 1).last() == id);
            }
            if id != station_id {
                kept.push(id);
            }
            k = k + 1;
        }
        assert(ids.take(ids.len() as int) =~= ids);
        self.active_ids = kept;
    }

    /// A station finished sending; nothing changes.
    pub fn station_audio_complete(&mut self, id: StationId)
        ensures
            *final(self) == *old(self),
    {
    }

    /// After a QSO: the queue is topped up and cleaned, and ready waiting
    /// callers may call in as tail-enders, fastest first, up to the
    /// simultaneous maximum; each further tail-ender is half as likely as the
    /// one before. Returns the stations that call (none: nobody tails in).
    pub fn try_spawn_tail_ender(
        &mut self,
        contest: &AnyContest,
        contest_settings: &SettingsTable,
        user_callsign: Option<&str>,
        cty: Option<&CtyDat>,
        now_ms: u64,
    ) -> (r: Vec<StationParams>)
        requires
            old(self).wf(),
        ensures
            final(self).wf(),
            final(self).spec_settings() == old(self).spec_settings(),
            same_stations(old(self).spec_source(), final(self).spec_source()),
            r@.len() <= old(self).spec_settings().max_simultaneous_stations,
            final(self).spec_active_ids().len() == r@.len(),
            forall|k: int| 0 <= k < r@.len() ==> (#[trigger] r@[k]).id == final(self).spec_active_ids()[k],
            forall|i: int| 0 <= i < final(self).spec_queue().len() ==> still_in_play(#[trigger] final(self).spec_queue()[i]),
            forall|k: int| 0 <= k < r@.len() ==> calling_in(final(self).spec_queue(), (#[trigger] r@[k]).view_params(), Some(now_ms)),
            forall|i: int|
                0 <= i < old(self).spec_queue().len() ==> (still_in_play(#[trigger] old(self).spec_queue()[i])
                    ==> exists|j: int|
                    0 <= j < final(self).spec_queue().len() && final(self).spec_queue()[j].params
                        == old(self).spec_queue()[i].params),
            forall|i: int, j: int|
                0 <= i < j < final(self).spec_queue().len() ==> final(self).spec_queue()[i].reaction_delay_ms
                    <= final(self).spec_queue()[j].reaction_delay_ms + 99,
            exists|pre: Seq<PersistentCaller>|
                #[trigger] cleaned_from(old(self).spec_queue(), pre) && answered_from(
                    pre,
                    final(self).spec_queue(),
                    final(self).spec_active_ids(),
                    r@.len(),
                    now_ms,
                    true,
                    old(self).spec_settings().max_simultaneous_stations as int,
                ),
            replenish_due(old(self).spec_last_replenish_ms(), now_ms) ==> final(self).spec_last_replenish_ms() == now_ms,
            !replenish_due(old(self).spec_last_replenish_ms(), now_ms) ==> {
                &&& final(self).spec_last_replenish_ms() == old(self).spec_last_replenish_ms()
                &&& callers_from_queue(old(self).spec_queue(), final(self).spec_queue())
            },
    {
        let ghost q0_last = self.last_replenish_ms;
        let ghost q0 = self.queue@;
        self.replenish_queue(contest, contest_settings, user_callsign, cty, now_ms);
        let ghost q1 = self.queue@;
        self.clean_and_order();
        self.active_ids.clear();
        let ghost before = self.queue@;
        let r = self.select_callers(now_ms, true);
        proof {
            lemma_queue_origin(q0, q1, before, self.queue@, replenish_due(q0_last, now_ms));
            assert(answered_from(
                before,
                self.queue@,
                self.active_ids@,
                r@.len(),
                now_ms,
                true,
                self.settings.max_simultaneous_stations as int,
            ));
            assert(q0 == old(self).spec_queue());
            assert(self.queue@ == self.spec_queue());
            assert(self.active_ids@ == self.spec_active_ids());
            assert(cleaned_from(old(self).spec_queue(), before) && answered_from(
                before,
                self.spec_queue(),
                self.spec_active_ids(),
                r@.len(),
                now_ms,
                true,
                old(self).spec_settings().max_simultaneous_stations as int,
            ));
        }
        proof {
            lemma_persisting(q0, q1, before, self.queue@);
            assert forall|i: int| 0 <= i < self.queue@.len() implies still_in_play(#[trigger] self.queue@[i]) by {
                assert(still_in_play(before[i]));
            }
            assert forall|k: int| 0 <= k < r@.len() implies calling_in(self.queue@, (#[trigger] r@[k]).view_params(), Some(now_ms)) by {
                assert(picked(self.queue@, before, r@[k].view_params()));
                let i = choose|i: int|
                    0 <= i < self.queue@.len() && #[trigger] self.queue@[i].params.view_params() == r@[k].view_params()
                        && self.queue@[i].state == CallerState::Calling && before[i].state == CallerState::Waiting;
                assert(self.queue@[i] != before[i]);
                assert(self.queue@[i].params.view_params() == r@[k].view_params());
            }
        }
        r
    }
}

/// Sources with the same stations give the same things.
pub proof fn lemma_same_stations_gives(
    a: AnySource,
    b: AnySource,
    contest: AnyContest,
    t: Seq<(Seq<char>, crate::contest::types::SpecValue)>,
    c: Seq<char>,
    e: Seq<Seq<char>>,
)
    requires
        same_stations(a, b),
    ensures
        source_gives(a, contest, t, c, e) == source_gives(b, contest, t, c, e),
{
}

/// Sources with the same stations run dry alike.
pub proof fn lemma_same_stations_dry(a: AnySource, b: AnySource)
    requires
        same_stations(a, b),
    ensures
        source_can_run_dry(a) == source_can_run_dry(b),
{
    assert(source_calls(a) =~= source_calls(b));
}

/// Having the same stations is transitive.
pub proof fn lemma_same_stations_trans(a: AnySource, b: AnySource, c: AnySource)
    requires
        same_stations(a, b),
        same_stations(b, c),
    ensures
        same_stations(a, c),
{
}

} // verus!
