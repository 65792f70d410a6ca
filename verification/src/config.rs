//! Settings the simulation runs with. Probabilities are held in millionths
//! (700000 is 0.7) and amplitudes in thousandths.

use vstd::prelude::*;
use crate::contest::types::{table_get, value_view, SettingValue, SettingsTable, SpecValue};
use crate::contest::{contest_id, default_value, registry_ids, AnyContest};
use crate::text::{chars_eq, chars_of, copy_string};

verus! {

/// One in a million: the unit of the probabilities below.
pub const PPM: u32 = 1_000_000;

/// How long callers keep trying.
#[derive(Clone, Copy, Debug, PartialEq, Eq, Structural)]
pub struct PileupSettings {
    /// Minimum patience (call attempts) of a new caller.
    pub min_patience: u8,
    /// Maximum patience (call attempts) of a new caller.
    pub max_patience: u8,
    /// Minimum delay before a caller retries (ms).
    pub retry_delay_min_ms: u32,
    /// Maximum delay before a caller retries (ms).
    pub retry_delay_max_ms: u32,
}

impl PileupSettings {
    pub fn default() -> (s: Self)
        ensures
            s == (PileupSettings {
                min_patience: 2,
                max_patience: 5,
                retry_delay_min_ms: 200,
                retry_delay_max_ms: 1200,
            }),
    {
        PileupSettings { min_patience: 2, max_patience: 5, retry_delay_min_ms: 200, retry_delay_max_ms: 1200 }
    }
}

/// How callers correct a busted callsign.
#[derive(Clone, Copy, Debug, PartialEq, Eq, Structural)]
pub struct CallCorrectionSettings {
    /// Chance, in millionths, that a caller corrects a busted callsign.
    pub correction_probability_ppm: u32,
    /// How many times a caller tries to correct before giving up.
    pub max_correction_attempts: u8,
}

impl CallCorrectionSettings {
    pub fn default() -> (s: Self)
        ensures
            s == (CallCorrectionSettings { correction_probability_ppm: 800_000, max_correction_attempts: 2 }),
    {
        CallCorrectionSettings { correction_probability_ppm: 800_000, max_correction_attempts: 2 }
    }
}

/// How the calling stations are made.
#[derive(Clone, Copy, Debug, PartialEq, Eq, Structural)]
pub struct SimulationSettings {
    pub max_simultaneous_stations: u8,
    /// Chance, in millionths, that another caller joins (and that a
    /// tail-ender calls).
    pub station_probability_ppm: u32,
    pub wpm_min: u8,
    pub wpm_max: u8,
    /// Callers spread over this many hertz around the user's frequency.
    pub frequency_spread_hz: u32,
    pub amplitude_min_milli: u32,
    pub amplitude_max_milli: u32,
    /// Chance, in millionths, that a caller asks for the exchange again
    /// before sending its own.
    pub agn_request_probability_ppm: u32,
    /// Whether callers from the user's own country are mostly kept away.
    pub same_country_filter_enabled: bool,
    /// Chance, in millionths, that a caller from the user's country is kept.
    pub same_country_probability_ppm: u32,
    pub pileup: PileupSettings,
    pub call_correction: CallCorrectionSettings,
}

impl SimulationSettings {
    /// The ranges as the settings editor keeps them: a speed or signal
    /// maximum below its minimum is raised to the minimum.
    pub fn with_ranges_fixed(&self) -> (r: Self)
        ensures
            r == (SimulationSettings {
                wpm_max: if self.wpm_min > self.wpm_max {
                    self.wpm_min
                } else {
                    self.wpm_max
                },
                amplitude_max_milli: if self.amplitude_min_milli > self.amplitude_max_milli {
                    self.amplitude_min_milli
                } else {
                    self.amplitude_max_milli
                },
                ..*self
            }),
    {
        let mut r = *self;
        if r.wpm_min > r.wpm_max {
            r.wpm_max = r.wpm_min;
        }
        if r.amplitude_min_milli > r.amplitude_max_milli {
            r.amplitude_max_milli = r.amplitude_min_milli;
        }
        r
    }

    pub fn default() -> (s: Self)
        ensures
            s == (SimulationSettings {
                max_simultaneous_stations: 2,
                station_probability_ppm: 700_000,
                wpm_min: 28,
                wpm_max: 36,
                frequency_spread_hz: 300,
                amplitude_min_milli: 400,
                amplitude_max_milli: 1000,
                agn_request_probability_ppm: 100_000,
                same_country_filter_enabled: false,
                same_country_probability_ppm: 100_000,
                pileup: PileupSettings {
                    min_patience: 2,
                    max_patience: 5,
                    retry_delay_min_ms: 200,
                    retry_delay_max_ms: 1200,
                },
                call_correction: CallCorrectionSettings {
                    correction_probability_ppm: 800_000,
                    max_correction_attempts: 2,
                },
            }),
    {
        SimulationSettings {
            max_simultaneous_stations: 2,
            station_probability_ppm: 700_000,
            wpm_min: 28,
            wpm_max: 36,
            frequency_spread_hz: 300,
            amplitude_min_milli: 400,
            amplitude_max_milli: 1000,
            agn_request_probability_ppm: 100_000,
            same_country_filter_enabled: false,
            same_country_probability_ppm: 100_000,
            pileup: PileupSettings::default(),
            call_correction: CallCorrectionSettings::default(),
        }
    }
}

/// The operator's settings the logic uses.
#[derive(Clone, Debug)]
pub struct UserSettings {
    pub callsign: String,
    pub wpm: u8,
    pub agn_message: String,
}

impl UserSettings {
    pub fn default() -> (s: Self)
        ensures
            s.callsign@ == "N9UNX"@,
            s.wpm == 32,
            s.agn_message@ == "?"@,
    {
        UserSettings { callsign: copy_string("N9UNX"), wpm: 32, agn_message: copy_string("?") }
    }
}

/// Which contest runs, and the settings stored for each contest by id.
pub struct ContestSettings {
    pub active_contest_id: String,
    pub contests: Vec<(String, SettingsTable)>,
}

/// The settings stored for a contest id: the first entry with that id.
pub open spec fn stored_for(contests: Seq<(String, SettingsTable)>, id: Seq<char>) -> Option<SettingsTable>
    decreases contests.len(),
{
    if contests.len() == 0 {
        None
    } else if contests[0].0@ == id {
        Some(contests[0].1)
    } else {
        stored_for(contests.drop_first(), id)
    }
}

impl ContestSettings {
    /// The first contest of the registry, with nothing stored yet.
    pub fn default() -> (s: Self)
        ensures
            s.active_contest_id@ == registry_ids()[0],
            s.contests@.len() == 0,
    {
        ContestSettings { active_contest_id: copy_string(crate::contest::arrldx::CONTEST_ID), contests: Vec::new() }
    }

    /// The first entry stored for `id`.
    fn find(&self, id: &str) -> (r: Option<usize>)
        ensures
            match r {
                Some(i) => i < self.contests@.len() && self.contests@[i as int].0@ == id@ && (forall|j: int|
                    0 <= j < i ==> (#[trigger] self.contests@[j]).0@ != id@) && stored_for(self.contests@, id@)
                    == Some(self.contests@[i as int].1),
                None => (forall|j: int| 0 <= j < self.contests@.len() ==> (#[trigger] self.contests@[j]).0@ != id@)
                    && stored_for(self.contests@, id@) is None,
            },
    {
        let v = chars_of(id);
        let mut i: usize = 0;
        while i < self.contests.len()
            invariant
                i <= self.contests@.len(),
                v@ == id@,
                forall|j: int| 0 <= j < i ==> (#[trigger] self.contests@[j]).0@ != id@,
            decreases self.contests@.len() - i,
        {
            let k = chars_of(self.contests[i].0.as_str());
            if chars_eq(k.as_slice(), v.as_slice()) {
                proof {
                    lemma_stored_for_first(self.contests@, i as int);
                }
                return Some(i);
            }
            i = i + 1;
        }
        proof {
            lemma_stored_for_none(self.contests@, id@);
        }
        None
    }

    /// The settings a contest runs with: what is stored for it, with every
    /// missing key filled from the contest's defaults.
    pub fn settings_for(&self, contest: &AnyContest) -> (t: SettingsTable)
        requires
            forall|i: int| 0 <= i < self.contests@.len() ==> (#[trigger] self.contests@[i]).1.wf(),
        ensures
            t.wf(),
            forall|k: Seq<char>| #[trigger] table_get(t.view_table(), k) == match stored_for(self.contests@, contest_id(*contest)@) {
                Some(s) => match table_get(s.view_table(), k) {
                    Some(v) => Some(v),
                    None => default_value(*contest, k),
                },
                None => default_value(*contest, k),
            },
    {
        let defaults = contest.default_settings();
        match self.find(contest.id()) {
            Some(i) => {
                assert(self.contests@[i as int].1.wf());
                let mut t = self.contests[i].1.clone_table();
                t.merge_defaults(&defaults);
                t
            },
            None => defaults,
        }
    }
}

/// Whether every stored table is well formed.
pub open spec fn tables_wf(contests: Seq<(String, SettingsTable)>) -> bool {
    forall|i: int| 0 <= i < contests.len() ==> (#[trigger] contests[i]).1.wf()
}

proof fn lemma_stored_for_first(s: Seq<(String, SettingsTable)>, i: int)
    requires
        0 <= i < s.len(),
        forall|j: int| 0 <= j < i ==> (#[trigger] s[j]).0@ != s[i].0@,
    ensures
        stored_for(s, s[i].0@) == Some(s[i].1),
    decreases s.len(),
{
    if i > 0 {
        let t = s.drop_first();
        assert forall|j: int| 0 <= j < i - 1 implies (#[trigger] t[j]).0@ != t[i - 1].0@ by {
            assert(t[j] == s[j + 1]);
        }
        lemma_stored_for_first(t, i - 1);
        assert(s[0].0@ != s[i].0@);
    }
}

proof fn lemma_stored_for_none(s: Seq<(String, SettingsTable)>, id: Seq<char>)
    requires
        forall|j: int| 0 <= j < s.len() ==> (#[trigger] s[j]).0@ != id,
    ensures
        stored_for(s, id) is None,
    decreases s.len(),
{
    if s.len() > 0 {
        let t = s.drop_first();
        assert forall|j: int| 0 <= j < t.len() implies (#[trigger] t[j]).0@ != id by {
            assert(t[j] == s[j + 1]);
        }
        lemma_stored_for_none(t, id);
    }
}

proof fn lemma_stored_for_update(s: Seq<(String, SettingsTable)>, i: int, e: (String, SettingsTable), other: Seq<char>)
    requires
        0 <= i < s.len(),
        e.0@ == s[i].0@,
        other != s[i].0@,
    ensures
        stored_for(s.update(i, e), other) == stored_for(s, other),
    decreases s.len(),
{
    if i > 0 {
        assert(s.update(i, e).drop_first() =~= s.drop_first().update(i - 1, e));
        lemma_stored_for_update(s.drop_first(), i - 1, e, other);
    } else {
        assert(s.update(i, e).drop_first() =~= s.drop_first());
    }
}

proof fn lemma_stored_for_push(s: Seq<(String, SettingsTable)>, e: (String, SettingsTable), other: Seq<char>)
    requires
        stored_for(s, e.0@) is None || other != e.0@,
    ensures
        stored_for(s.push(e), other) == if stored_for(s, other) is Some {
            stored_for(s, other)
        } else if other == e.0@ {
            Some(e.1)
        } else {
            None
        },
    decreases s.len(),
{
    if s.len() > 0 {
        assert(s.push(e)[0] == s[0]);
        assert(s.push(e).drop_first() =~= s.drop_first().push(e));
        if s[0].0@ == other {
            assert(stored_for(s, other) == Some(s[0].1));
            assert(stored_for(s.push(e), other) == Some(s[0].1));
        } else {
            assert(stored_for(s, other) == stored_for(s.drop_first(), other));
            assert(stored_for(s.push(e), other) == stored_for(s.drop_first().push(e), other));
            if s[0].0@ == e.0@ {
                assert(other != e.0@);
            } else {
                assert(stored_for(s, e.0@) == stored_for(s.drop_first(), e.0@));
            }
            lemma_stored_for_push(s.drop_first(), e, other);
        }
    } else {
        assert(s.push(e)[0] == e);
        assert(s.push(e).drop_first() =~= Seq::<(String, SettingsTable)>::empty());
        assert(stored_for(s, other) is None);
        assert(stored_for(Seq::<(String, SettingsTable)>::empty(), other) is None);
        if other == e.0@ {
            assert(stored_for(s.push(e), other) == Some(e.1));
        } else {
            assert(stored_for(s.push(e), other) == stored_for(s.push(e).drop_first(), other));
        }
    }
}

/// Where a picked file or directory goes: a contest's file setting, or the
/// directory the statistics are exported to.
#[derive(Clone, Debug)]
pub enum FileDialogTarget {
    ContestSetting { contest_id: String, key: String },
    ExportDirectory,
}

impl ContestSettings {
    /// Stores `value` under `key` in the settings of contest `contest_id`,
    /// adding a table for the contest when it has none. A read of that key
    /// gives back `value`; every other key and every other contest keep theirs.
    pub fn set_setting(&mut self, contest_id: &str, key: &str, value: SettingValue)
        requires
            tables_wf(old(self).contests@),
        ensures
            tables_wf(final(self).contests@),
            final(self).active_contest_id == old(self).active_contest_id,
            stored_for(final(self).contests@, contest_id@) matches Some(t) && {
                &&& table_get(t.view_table(), key@) == Some(value_view(value))
                &&& forall|k: Seq<char>|
                    k != key@ ==> #[trigger] table_get(t.view_table(), k) == match stored_for(
                        old(self).contests@,
                        contest_id@,
                    ) {
                        Some(s) => table_get(s.view_table(), k),
                        None => None,
                    }
            },
            forall|other: Seq<char>|
                other != contest_id@ ==> #[trigger] stored_for(final(self).contests@, other) == stored_for(
                    old(self).contests@,
                    other,
                ),
    {
        let ghost before = self.contests@;
        let found = self.find(contest_id);
        if let Some(i) = found {
            assert(before[i as int].1.wf());
            let mut t = self.contests[i].1.clone_table();
            t.insert(key, value);
            let e = (copy_string(contest_id), t);
            self.contests.set(i, e);
            proof {
                let after = self.contests@;
                assert(after =~= before.update(i as int, e));
                assert forall|j: int| 0 <= j < i implies (#[trigger] after[j]).0@ != after[i as int].0@ by {
                    assert(after[j] == before[j]);
                }
                lemma_stored_for_first(after, i as int);
                assert forall|other: Seq<char>| other != contest_id@ implies #[trigger] stored_for(after, other)
                    == stored_for(before, other) by {
                    lemma_stored_for_update(before, i as int, e, other);
                }
                assert forall|j: int| 0 <= j < after.len() implies (#[trigger] after[j]).1.wf() by {
                    if j != i {
                        assert(after[j] == before[j]);
                    }
                }
            }
        } else {
            let mut t = SettingsTable::new();
            t.insert(key, value);
            let e = (copy_string(contest_id), t);
            self.contests.push(e);
            proof {
                let after = self.contests@;
                assert(after == before.push(e));
                lemma_stored_for_push(before, e, contest_id@);
                assert forall|other: Seq<char>| other != contest_id@ implies #[trigger] stored_for(after, other)
                    == stored_for(before, other) by {
                    lemma_stored_for_push(before, e, other);
                }
                assert forall|j: int| 0 <= j < after.len() implies (#[trigger] after[j]).1.wf() by {
                    if j < before.len() {
                        assert(after[j] == before[j]);
                    }
                }
            }
        }
    }

    /// Applies a picked path to its target: a contest's file setting takes
    /// the path (true); the export directory is not a contest setting and is
    /// left to the caller (false).
    pub fn apply_picked_path(&mut self, target: &FileDialogTarget, path: &str) -> (stored: bool)
        requires
            tables_wf(old(self).contests@),
        ensures
            tables_wf(final(self).contests@),
            stored == (target is ContestSetting),
            match target {
                FileDialogTarget::ContestSetting { contest_id, key } => stored_for(
                    final(self).contests@,
                    contest_id@,
                ) matches Some(t) && table_get(t.view_table(), key@) == Some(SpecValue::Str(path@)),
                FileDialogTarget::ExportDirectory => final(self).contests@ == old(self).contests@,
            },
    {
        match target {
            FileDialogTarget::ContestSetting { contest_id, key } => {
                self.set_setting(contest_id.as_str(), key.as_str(), SettingValue::Str(copy_string(path)));
                true
            },
            FileDialogTarget::ExportDirectory => false,
        }
    }
}

} // verus!
