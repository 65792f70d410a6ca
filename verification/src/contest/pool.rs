//! A pool of stations (callsign plus contest data) handed out at random,
//! avoiding the ones handed out since the pool was last exhausted.

use vstd::prelude::*;
use crate::contest::callsign::contains_string;
use crate::random::random_below;

verus! {

/// A station in a pool: its callsign and the contest data that goes with it.
#[derive(Clone, Debug)]
pub struct PoolStation {
    pub callsign: String,
    pub data: Vec<String>,
}

/// A station as plain data.
pub open spec fn station_view(s: PoolStation) -> (Seq<char>, Seq<Seq<char>>) {
    (s.callsign@, Seq::new(s.data@.len(), |i: int| s.data@[i]@))
}

/// Copies a list of strings.
pub fn clone_strings(v: &Vec<String>) -> (r: Vec<String>)
    ensures
        r@.len() == v@.len(),
        forall|i: int| 0 <= i < v@.len() ==> #[trigger] r@[i]@ == v@[i]@,
{
    let mut r: Vec<String> = Vec::new();
    let mut i: usize = 0;
    while i < v.len()
        invariant
            i <= v@.len(),
            r@.len() == i,
            forall|k: int| 0 <= k < i ==> #[trigger] r@[k]@ == v@[k]@,
        decreases v@.len() - i,
    {
        r.push(v[i].clone());
        i = i + 1;
    }
    r
}

/// Copies a pool station.
pub fn clone_station(s: &PoolStation) -> (r: PoolStation)
    ensures
        station_view(r) == station_view(*s),
{
    let r = PoolStation { callsign: s.callsign.clone(), data: clone_strings(&s.data) };
    assert(station_view(r).1 =~= station_view(*s).1);
    r
}

/// Whether `x` is one of the strings of `v`.
pub open spec fn in_strings(v: Seq<String>, x: Seq<char>) -> bool {
    exists|i: int| 0 <= i < v.len() && (#[trigger] v[i])@ == x
}

/// A string is in a list with one more string exactly when it is that string
/// or was in the list.
pub proof fn lemma_in_strings_push(v: Seq<String>, s: String)
    ensures
        forall|x: Seq<char>| #[trigger] in_strings(v.push(s), x) == (in_strings(v, x) || x == s@),
{
    assert forall|x: Seq<char>| #[trigger] in_strings(v.push(s), x) == (in_strings(v, x) || x == s@) by {
        if in_strings(v, x) {
            let m = choose|m: int| 0 <= m < v.len() && (#[trigger] v[m])@ == x;
            assert(v.push(s)[m] == v[m]);
        }
        if x == s@ {
            assert(v.push(s)[v.len() as int] == s);
        }
        if in_strings(v.push(s), x) {
            let m = choose|m: int| 0 <= m < v.len() + 1 && (#[trigger] v.push(s)[m])@ == x;
            if m < v.len() {
                assert(v.push(s)[m] == v[m]);
            }
        }
    }
}

pub struct StationPool {
    stations: Vec<PoolStation>,
    used: Vec<String>,
}

impl StationPool {
    pub closed spec fn spec_stations(&self) -> Seq<(Seq<char>, Seq<Seq<char>>)> {
        Seq::new(self.stations@.len(), |i: int| station_view(self.stations@[i]))
    }

    /// Whether a callsign was handed out since the pool was last exhausted.
    pub closed spec fn spec_used(&self, call: Seq<char>) -> bool {
        in_strings(self.used@, call)
    }

    pub fn new(stations: Vec<PoolStation>) -> (p: Self)
        ensures
            p.spec_stations() == Seq::new(stations@.len(), |i: int| station_view(stations@[i])),
            forall|c: Seq<char>| !p.spec_used(c),
    {
        StationPool { stations, used: Vec::new() }
    }

    pub fn len(&self) -> (n: usize)
        ensures
            n == self.spec_stations().len(),
    {
        self.stations.len()
    }

    /// Forgets which stations were handed out.
    pub fn reset(&mut self)
        ensures
            final(self).spec_stations() == old(self).spec_stations(),
            forall|c: Seq<char>| !final(self).spec_used(c),
    {
        self.used.clear();
    }

    fn available(&self) -> (r: Vec<usize>)
        ensures
            forall|j: int| 0 <= j < r@.len() ==> #[trigger] r@[j] < self.spec_stations().len()
                && !self.spec_used(self.spec_stations()[r@[j] as int].0),
            forall|i: int|
                0 <= i < self.spec_stations().len() && !self.spec_used(
                    (#[trigger] self.spec_stations()[i]).0,
                ) ==> r@.contains(i as usize),
    {
        let mut r: Vec<usize> = Vec::new();
        let mut i: usize = 0;
        while i < self.stations.len()
            invariant
                i <= self.stations@.len(),
                forall|j: int| 0 <= j < r@.len() ==> #[trigger] r@[j] < i && !self.spec_used(
                    self.spec_stations()[r@[j] as int].0,
                ),
                forall|k: int|
                    0 <= k < i && !self.spec_used((#[trigger] self.spec_stations()[k]).0) ==> r@.contains(
                        k as usize,
                    ),
            decreases self.stations@.len() - i,
        {
            assert(self.spec_stations()[i as int].0 == self.stations@[i as int].callsign@);
            if !contains_string(&self.used, &self.stations[i].callsign) {
                let ghost before = r@;
                r.push(i);
                assert forall|k: int|
                    0 <= k < i + 1 && !self.spec_used((#[trigger] self.spec_stations()[k]).0) implies r@.contains(
                    k as usize,
                ) by {
                    if k < i {
                        let m = choose|m: int| 0 <= m < before.len() && before[m] == k as usize;
                        assert(r@[m] == k as usize);
                    } else {
                        assert(r@[r@.len() - 1] == k as usize);
                    }
                }
            }
            i = i + 1;
        }
        r
    }

    /// A random station, avoiding the ones handed out since the pool was last
    /// exhausted; when all were handed out, that record is cleared first. The
    /// station handed out is recorded.
    pub fn random_station(&mut self) -> (r: Option<PoolStation>)
        ensures
            final(self).spec_stations() == old(self).spec_stations(),
            (r is None) == (old(self).spec_stations().len() == 0),
            match r {
                Some(s) => {
                    &&& old(self).spec_stations().contains(station_view(s))
                    &&& (exists|i: int|
                        0 <= i < old(self).spec_stations().len() && !old(self).spec_used(
                            (#[trigger] old(self).spec_stations()[i]).0,
                        )) ==> (!old(self).spec_used(s.callsign@) && forall|x: Seq<char>|
                        final(self).spec_used(x) == (old(self).spec_used(x) || x == s.callsign@))
                    &&& (forall|i: int|
                        0 <= i < old(self).spec_stations().len() ==> old(self).spec_used(
                            (#[trigger] old(self).spec_stations()[i]).0,
                        )) ==> forall|x: Seq<char>| final(self).spec_used(x) == (x == s.callsign@)
                    &&& drew(*old(self), *final(self), s.callsign@)
                },
                None => true,
            },
    {
        let avail = self.available();
        let k = if avail.len() == 0 {
            self.used.clear();
            if self.stations.len() == 0 {
                return None;
            }
            random_below(self.stations.len())
        } else {
            let j = random_below(avail.len());
            avail[j]
        };
        let s = clone_station(&self.stations[k]);
        assert(self.spec_stations()[k as int] == station_view(s));
        assert(old(self).spec_stations()[k as int] == station_view(s));
        assert(old(self).spec_stations().contains(station_view(s)));
        assert(pool_calls(*old(self))[k as int] == s.callsign@);
        let ghost before = self.used@;
        proof {
            if avail@.len() > 0 {
                assert(before == old(self).used@);
                assert(!old(self).spec_used(old(self).spec_stations()[k as int].0));
            } else {
                assert(before.len() == 0);
            }
        }
        self.used.push(s.callsign.clone());
        proof {
            lemma_in_strings_push(before, s.callsign);
            assert(self.used@ == before.push(s.callsign));
            if avail@.len() == 0 {
                assert forall|x: Seq<char>| !in_strings(before, x) by {}
            }
        }
        Some(s)
    }
}


/// One draw from a pool: the stations stay, the callsign drawn is one of
/// theirs, and while some station was not handed out yet, the callsign drawn
/// is one of those and is now recorded.
pub open spec fn drew(a: StationPool, b: StationPool, c: Seq<char>) -> bool {
    &&& b.spec_stations() == a.spec_stations()
    &&& pool_calls(a).contains(c)
    &&& (exists|i: int| 0 <= i < a.spec_stations().len() && !a.spec_used((#[trigger] a.spec_stations()[i]).0))
        ==> !a.spec_used(c) && forall|x: Seq<char>| #[trigger] b.spec_used(x) == (a.spec_used(x) || x == c)
}

/// The callsigns of a pool's stations.
pub open spec fn pool_calls(p: StationPool) -> Seq<Seq<char>> {
    p.spec_stations().map_values(|st: (Seq<char>, Seq<Seq<char>>)| st.0)
}

proof fn lemma_draws_prefix(ps: Seq<StationPool>, calls: Seq<Seq<char>>, k: nat)
    requires
        ps.len() == calls.len() + 1,
        k <= calls.len(),
        forall|x: Seq<char>| !ps[0].spec_used(x),
        calls.len() <= ps[0].spec_stations().len(),
        pool_calls(ps[0]).no_duplicates(),
        forall|j: int| 0 <= j < calls.len() ==> drew(#[trigger] ps[j], ps[j + 1], calls[j]),
    ensures
        ps[k as int].spec_stations() == ps[0].spec_stations(),
        forall|x: Seq<char>| #[trigger] ps[k as int].spec_used(x) == calls.take(k as int).contains(x),
        calls.take(k as int).no_duplicates(),
    decreases k,
{
    broadcast use vstd::seq_lib::seq_to_set_is_finite;
    if k == 0 {
        assert(calls.take(0) =~= Seq::<Seq<char>>::empty());
    } else {
        let j = (k - 1) as int;
        lemma_draws_prefix(ps, calls, (k - 1) as nat);
        let a = ps[j];
        let b = ps[j + 1];
        assert(drew(a, b, calls[j]));
        let before = calls.take(j);
        assert(calls.take(k as int) =~= before.push(calls[j]));
        let sc = pool_calls(ps[0]);
        if !(exists|i: int| 0 <= i < a.spec_stations().len() && !a.spec_used((#[trigger] a.spec_stations()[i]).0)) {
            sc.unique_seq_to_set();
            before.lemma_cardinality_of_set();
            assert forall|x: Seq<char>| sc.to_set().contains(x) implies before.to_set().contains(x) by {
                let i = choose|i: int| 0 <= i < sc.len() && sc[i] == x;
                assert(a.spec_stations()[i].0 == x);
                assert(a.spec_used(a.spec_stations()[i].0));
            }
            vstd::set_lib::lemma_len_subset(sc.to_set(), before.to_set());
            assert(false);
        }
        assert(!before.contains(calls[j]));
        assert forall|x: Seq<char>| #[trigger] b.spec_used(x) == calls.take(k as int).contains(x) by {
            if x == calls[j] {
                assert(calls.take(k as int)[j] == x);
            }
            if calls.take(k as int).contains(x) && x != calls[j] {
                let m = choose|m: int| 0 <= m < k && calls.take(k as int)[m] == x;
                assert(before[m] == x);
            }
            if before.contains(x) {
                let m = choose|m: int| 0 <= m < before.len() && before[m] == x;
                assert(calls.take(k as int)[m] == x);
            }
        }
        assert forall|p: int, q: int| 0 <= p < q < calls.take(k as int).len() implies calls.take(k as int)[p]
            != calls.take(k as int)[q] by {
            if q == j {
                assert(before[p] == calls.take(k as int)[p]);
            } else {
                assert(before[p] == calls.take(k as int)[p]);
                assert(before[q] == calls.take(k as int)[q]);
            }
        }
    }
}

/// Drawing from a pool whose stations have distinct callsigns, starting
/// with nothing handed out (a new pool, or one just reset): every draw gives
/// a callsign of the pool, the first draws are all different, and as many
/// draws as there are stations give each callsign exactly once.
pub proof fn lemma_draws_distinct(ps: Seq<StationPool>, calls: Seq<Seq<char>>)
    requires
        ps.len() == calls.len() + 1,
        forall|x: Seq<char>| !ps[0].spec_used(x),
        calls.len() <= ps[0].spec_stations().len(),
        pool_calls(ps[0]).no_duplicates(),
        forall|j: int| 0 <= j < calls.len() ==> drew(#[trigger] ps[j], ps[j + 1], calls[j]),
    ensures
        calls.no_duplicates(),
        forall|j: int| 0 <= j < calls.len() ==> pool_calls(ps[0]).contains(#[trigger] calls[j]),
        calls.len() == ps[0].spec_stations().len() ==> calls.to_set() == pool_calls(ps[0]).to_set(),
{
    broadcast use vstd::seq_lib::seq_to_set_is_finite;
    lemma_draws_prefix(ps, calls, calls.len());
    assert(calls.take(calls.len() as int) =~= calls);
    assert forall|j: int| 0 <= j < calls.len() implies pool_calls(ps[0]).contains(#[trigger] calls[j]) by {
        lemma_draws_prefix(ps, calls, j as nat);
        assert(drew(ps[j], ps[j + 1], calls[j]));
        assert(pool_calls(ps[j]) == pool_calls(ps[0]));
    }
    if calls.len() == ps[0].spec_stations().len() {
        let sc = pool_calls(ps[0]);
        calls.unique_seq_to_set();
        sc.unique_seq_to_set();
        assert forall|x: Seq<char>| calls.to_set().contains(x) implies sc.to_set().contains(x) by {
            let j = choose|j: int| 0 <= j < calls.len() && calls[j] == x;
            assert(sc.contains(calls[j]));
        }
        vstd::set_lib::lemma_subset_equality(calls.to_set(), sc.to_set());
    }
}

} // verus!

verus! {

/// The stations a list gives, in order: one per line that `f` accepts.
pub open spec fn stations_from_lines(
    lines: Seq<Seq<char>>,
    f: spec_fn(Seq<char>) -> Option<(Seq<char>, Seq<Seq<char>>)>,
) -> Seq<(Seq<char>, Seq<Seq<char>>)>
    decreases lines.len(),
{
    if lines.len() == 0 {
        Seq::empty()
    } else {
        let rest = stations_from_lines(lines.drop_last(), f);
        match f(lines.last()) {
            Some(s) => rest.push(s),
            None => rest,
        }
    }
}

/// Why a station list gave no pool.
#[derive(Clone, Copy, Debug, PartialEq, Eq, Structural)]
pub enum StationListError {
    /// No line held a valid station.
    NoValidStations,
}

/// A line of a station list, trimmed, when it is not blank and not a
/// `#` or `!` comment.
pub open spec fn content_line(line: Seq<char>) -> Option<Seq<char>> {
    let t = crate::text::trim(line);
    if t.len() == 0 || t[0] == '#' || t[0] == '!' {
        None
    } else {
        Some(t)
    }
}

pub fn content_line_exec(line: &[char]) -> (r: Option<Vec<char>>)
    ensures
        match r {
            Some(t) => content_line(line@) == Some(t@),
            None => content_line(line@) is None,
        },
{
    let t = crate::text::trim_chars(line);
    if t.len() == 0 || t[0] == '#' || t[0] == '!' {
        None
    } else {
        Some(t)
    }
}

/// The comma-separated fields of a line, each trimmed.
pub open spec fn trimmed_fields(t: Seq<char>) -> Seq<Seq<char>> {
    crate::text::split_char(t, ',').map_values(|f: Seq<char>| crate::text::trim(f))
}

pub fn trimmed_fields_exec(t: &[char]) -> (r: Vec<Vec<char>>)
    ensures
        r@.len() == trimmed_fields(t@).len(),
        forall|k: int| 0 <= k < r@.len() ==> #[trigger] r@[k]@ == trimmed_fields(t@)[k],
{
    let parts = crate::text::split_chars(t, ',');
    let mut r: Vec<Vec<char>> = Vec::new();
    let mut k: usize = 0;
    while k < parts.len()
        invariant
            k <= parts@.len(),
            parts@.len() == crate::text::split_char(t@, ',').len(),
            forall|j: int| 0 <= j < parts@.len() ==> #[trigger] parts@[j]@ == crate::text::split_char(t@, ',')[j],
            r@.len() == k,
            forall|j: int| 0 <= j < k ==> #[trigger] r@[j]@ == trimmed_fields(t@)[j],
        decreases parts@.len() - k,
    {
        r.push(crate::text::trim_chars(parts[k].as_slice()));
        k = k + 1;
    }
    r
}

/// Uppercases a character vector with `to_upper`.
pub fn upper_chars(v: &[char]) -> (r: String)
    ensures
        r@ == crate::text::unicode_upper(v@),
{
    let s = crate::text::string_of(v);
    crate::text::to_upper(s.as_str())
}

} // verus!
