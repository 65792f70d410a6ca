//! CWT stations: callsign, name and member number.

use vstd::prelude::*;
use crate::contest::callsign::valid_callsign;
use crate::contest::pool::{
    clone_strings, content_line, content_line_exec, station_view, stations_from_lines,
    trimmed_fields, trimmed_fields_exec, upper_chars, PoolStation, StationListError, StationPool,
};
use crate::contest::types::Exchange;
use crate::text::{chars_of, copy_string, split_char, split_chars, unicode_upper};

verus! {

/// CWT station data (callsign, name, member number).
#[derive(Clone, Debug)]
pub struct CwtStation {
    pub callsign: String,
    pub name: String,
    pub number: String,
}

/// A line of a CWT list: `callsign, name, number` (all three present and the
/// callsign valid), uppercased.
pub open spec fn cwt_line(line: Seq<char>) -> Option<(Seq<char>, Seq<Seq<char>>)> {
    match content_line(line) {
        None => None,
        Some(t) => {
            let f = trimmed_fields(t);
            if f.len() < 3 {
                None
            } else {
                let c = unicode_upper(f[0]);
                let n = unicode_upper(f[1]);
                let num = unicode_upper(f[2]);
                if c.len() > 0 && n.len() > 0 && num.len() > 0 && valid_callsign(c) {
                    Some((c, seq![n, num]))
                } else {
                    None
                }
            }
        },
    }
}

fn cwt_line_exec(line: &[char]) -> (r: Option<PoolStation>)
    ensures
        match r {
            Some(s) => cwt_line(line@) == Some(station_view(s)),
            None => cwt_line(line@) is None,
        },
{
    let t = match content_line_exec(line) {
        Some(t) => t,
        None => return None,
    };
    let f = trimmed_fields_exec(t.as_slice());
    if f.len() < 3 {
        return None;
    }
    let c = upper_chars(f[0].as_slice());
    let n = upper_chars(f[1].as_slice());
    let num = upper_chars(f[2].as_slice());
    let cv = chars_of(c.as_str());
    let nv = chars_of(n.as_str());
    let numv = chars_of(num.as_str());
    if cv.len() > 0 && nv.len() > 0 && numv.len() > 0
        && crate::contest::callsign::is_valid_callsign_chars(cv.as_slice()) {
        let s = PoolStation { callsign: c, data: vec![n, num] };
        assert(station_view(s).1 =~= seq![nv@, numv@]);
        Some(s)
    } else {
        None
    }
}

/// The stations of a CWT list.
pub open spec fn cwt_list(content: Seq<char>) -> Seq<(Seq<char>, Seq<Seq<char>>)> {
    stations_from_lines(split_char(content, '\n'), |l: Seq<char>| cwt_line(l))
}

/// Pool of CWT stations with name and number data.
pub struct CwtCallsignPool {
    pool: StationPool,
}

impl CwtCallsignPool {
    pub closed spec fn spec_stations(&self) -> Seq<(Seq<char>, Seq<Seq<char>>)> {
        self.pool.spec_stations()
    }

    /// Whether a station (by callsign) was handed out since the source was
    /// last exhausted or reset.
    pub closed spec fn spec_used(&self, call: Seq<char>) -> bool {
        self.pool.spec_used(call)
    }

    /// Reads a CWT list (`callsign, name, number` per line; `#` and `!`
    /// lines are comments). A list without any valid station gives an error.
    pub fn load(content: &str) -> (r: Result<Self, StationListError>)
        ensures
            match r {
                Ok(p) => p.spec_stations() == cwt_list(content@) && p.spec_stations().len() > 0
                    && forall|c: Seq<char>| !p.spec_used(c),
                Err(_) => cwt_list(content@).len() == 0,
            },
    {
        let chars = chars_of(content);
        let lines = split_chars(chars.as_slice(), '\n');
        let ghost slines = split_char(content@, '\n');
        let ghost f = |l: Seq<char>| cwt_line(l);
        let mut stations: Vec<PoolStation> = Vec::new();
        let mut k: usize = 0;
        assert(slines.take(0) =~= Seq::<Seq<char>>::empty());
        while k < lines.len()
            invariant
                k <= lines@.len(),
                lines@.len() == slines.len(),
                f == (|l: Seq<char>| cwt_line(l)),
                forall|j: int| 0 <= j < lines@.len() ==> #[trigger] lines@[j]@ == slines[j],
                Seq::new(stations@.len(), |i: int| station_view(stations@[i])) == stations_from_lines(
                    slines.take(k as int),
                    f,
                ),
            decreases lines@.len() - k,
        {
            assert(slines.take(k + 1).drop_last() =~= slines.take(k as int));
            assert(slines.take(k + 1).last() == lines@[k as int]@);
            let ghost before = stations@;
            match cwt_line_exec(lines[k].as_slice()) {
                Some(s) => {
                    stations.push(s);
                    assert(Seq::new(stations@.len(), |i: int| station_view(stations@[i])) =~= Seq::new(
                        before.len(),
                        |i: int| station_view(before[i]),
                    ).push(station_view(s)));
                },
                None => {},
            }
            k = k + 1;
        }
        assert(slines.take(slines.len() as int) =~= slines);
        if stations.len() == 0 {
            return Err(StationListError::NoValidStations);
        }
        Ok(CwtCallsignPool { pool: StationPool::new(stations) })
    }

    /// The built-in CWT stations.
    pub fn default_pool() -> (p: Self)
        ensures
            forall|c: Seq<char>| !p.spec_used(c),
            p.spec_stations() == seq![
                ("W1AW"@, seq!["JOE"@, "1"@]),
                ("K5ZD"@, seq!["RANDY"@, "2"@]),
                ("N1MM"@, seq!["TOM"@, "100"@]),
                ("K3LR"@, seq!["TIM"@, "55"@]),
                ("W9RE"@, seq!["MIKE"@, "IN"@]),
            ],
    {
        let stations = vec![
            PoolStation { callsign: copy_string("W1AW"), data: vec![copy_string("JOE"), copy_string("1")] },
            PoolStation { callsign: copy_string("K5ZD"), data: vec![copy_string("RANDY"), copy_string("2")] },
            PoolStation { callsign: copy_string("N1MM"), data: vec![copy_string("TOM"), copy_string("100")] },
            PoolStation { callsign: copy_string("K3LR"), data: vec![copy_string("TIM"), copy_string("55")] },
            PoolStation { callsign: copy_string("W9RE"), data: vec![copy_string("MIKE"), copy_string("IN")] },
        ];
        let p = CwtCallsignPool { pool: StationPool::new(stations) };
        assert(p.spec_stations() =~~= seq![
            ("W1AW"@, seq!["JOE"@, "1"@]),
            ("K5ZD"@, seq!["RANDY"@, "2"@]),
            ("N1MM"@, seq!["TOM"@, "100"@]),
            ("K3LR"@, seq!["TIM"@, "55"@]),
            ("W9RE"@, seq!["MIKE"@, "IN"@]),
        ]);
        p
    }

    /// A random station as (callsign, exchange of name and number), avoiding
    /// the ones handed out since the pool was last exhausted.
    pub fn random(&mut self) -> (r: Option<(String, Exchange)>)
        ensures
            final(self).spec_stations() == old(self).spec_stations(),
            (r is None) == (old(self).spec_stations().len() == 0),
            match r {
                Some((c, e)) => old(self).spec_stations().contains((c@, e.view_fields())),
                None => true,
            },
    {
        match self.pool.random_station() {
            Some(s) => {
                let fields = clone_strings(&s.data);
                let e = Exchange::new(fields);
                assert(e.view_fields() =~= station_view(s).1);
                Some((s.callsign, e))
            },
            None => None,
        }
    }

    /// Forgets which stations were handed out.
    pub fn reset(&mut self)
        ensures
            final(self).spec_stations() == old(self).spec_stations(),
            forall|c: Seq<char>| !final(self).spec_used(c),
    {
        self.pool.reset();
    }
}

} // verus!
