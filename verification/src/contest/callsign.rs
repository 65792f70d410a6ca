//! Callsign pools: the shared validity rule, a pool read from a callsign list,
//! and the source that pairs pool callsigns with generated exchanges.

use vstd::prelude::*;
use crate::random::random_below;
use crate::text::{
    chars_of, copy_string, is_alnum_ascii, is_alpha_ascii, is_ascii_alpha, is_ascii_digit, is_digit, split_char,
    split_chars, string_of, to_upper, trim, trim_chars, unicode_upper,
};

verus! {

/// Basic callsign rule: 3 to 10 characters, ASCII letters, digits and `/`
/// only, with at least one letter and one digit.
pub open spec fn valid_callsign(call: Seq<char>) -> bool {
    &&& 3 <= call.len() <= 10
    &&& exists|i: int| 0 <= i < call.len() && is_alpha_ascii(#[trigger] call[i])
    &&& exists|i: int| 0 <= i < call.len() && is_digit(#[trigger] call[i])
    &&& forall|i: int| 0 <= i < call.len() ==> is_alnum_ascii(#[trigger] call[i]) || call[i] == '/'
}

/// Checks the callsign rule.
pub fn is_valid_callsign(call: &str) -> (b: bool)
    ensures
        b == valid_callsign(call@),
{
    let v = chars_of(call);
    is_valid_callsign_chars(v.as_slice())
}

pub fn is_valid_callsign_chars(v: &[char]) -> (b: bool)
    ensures
        b == valid_callsign(v@),
{
    if v.len() < 3 || v.len() > 10 {
        return false;
    }
    let mut has_alpha = false;
    let mut has_digit = false;
    let mut i: usize = 0;
    while i < v.len()
        invariant
            i <= v@.len(),
            has_alpha == exists|k: int| 0 <= k < i && is_alpha_ascii(#[trigger] v@[k]),
            has_digit == exists|k: int| 0 <= k < i && is_digit(#[trigger] v@[k]),
            forall|k: int| 0 <= k < i ==> is_alnum_ascii(#[trigger] v@[k]) || v@[k] == '/',
        decreases v@.len() - i,
    {
        let c = v[i];
        let alpha = is_ascii_alpha(c);
        let digit = is_ascii_digit(c);
        if !(alpha || digit || c == '/') {
            return false;
        }
        if alpha {
            has_alpha = true;
        }
        if digit {
            has_digit = true;
        }
        i = i + 1;
    }
    has_alpha && has_digit
}

/// Why a callsign list gave no pool.
#[derive(Clone, Copy, Debug, PartialEq, Eq, Structural)]
pub enum PoolError {
    /// No line held a valid callsign.
    NoValidCallsigns,
}

/// A line of a list is kept when, trimmed, it is not empty and not a comment.
pub open spec fn list_line(line: Seq<char>, bang_comments: bool) -> bool {
    let t = trim(line);
    t.len() > 0 && t[0] != '#' && !(bang_comments && t[0] == '!')
}

/// The callsign of a list line: its first comma field, trimmed, uppercased.
pub open spec fn line_callsign(line: Seq<char>) -> Seq<char> {
    unicode_upper(trim(split_char(trim(line), ',')[0]))
}

/// The callsigns a list gives, in order: one per kept line, when valid.
pub open spec fn list_callsigns(lines: Seq<Seq<char>>) -> Seq<Seq<char>>
    decreases lines.len(),
{
    if lines.len() == 0 {
        Seq::empty()
    } else {
        let rest = list_callsigns(lines.drop_last());
        let line = lines.last();
        if list_line(line, false) && valid_callsign(line_callsign(line)) {
            rest.push(line_callsign(line))
        } else {
            rest
        }
    }
}

/// Whether `s` is one of the strings in `v`.
pub fn contains_string(v: &Vec<String>, s: &String) -> (b: bool)
    ensures
        b == exists|i: int| 0 <= i < v@.len() && (#[trigger] v@[i])@ == s@,
{
    let mut i: usize = 0;
    while i < v.len()
        invariant
            i <= v@.len(),
            forall|k: int| 0 <= k < i ==> (#[trigger] v@[k])@ != s@,
        decreases v@.len() - i,
    {
        if v[i] == *s {
            return true;
        }
        i = i + 1;
    }
    false
}

/// The strings of a vector as character sequences.
pub open spec fn strings_view(v: Seq<String>) -> Seq<Seq<char>> {
    Seq::new(v.len(), |i: int| v[i]@)
}

/// Pool of callsigns, remembering which ones were handed out.
pub struct CallsignPool {
    callsigns: Vec<String>,
    used: Vec<String>,
}

impl CallsignPool {
    pub closed spec fn spec_callsigns(&self) -> Seq<Seq<char>> {
        strings_view(self.callsigns@)
    }

    /// Whether a callsign was handed out since the last reset.
    pub closed spec fn spec_used(&self, call: Seq<char>) -> bool {
        exists|i: int| 0 <= i < self.used@.len() && (#[trigger] self.used@[i])@ == call
    }

    /// Reads a callsign list: one callsign per line (or the first field of a
    /// comma-separated line), `#` lines are comments, invalid callsigns are
    /// dropped. A list without any valid callsign gives an error.
    pub fn load(content: &str) -> (r: Result<Self, PoolError>)
        ensures
            match r {
                Ok(p) => {
                    &&& p.spec_callsigns() == list_callsigns(split_char(content@, '\n'))
                    &&& p.spec_callsigns().len() > 0
                    &&& forall|c: Seq<char>| !p.spec_used(c)
                },
                Err(e) => list_callsigns(split_char(content@, '\n')).len() == 0 && e
                    == PoolError::NoValidCallsigns,
            },
    {
        let chars = chars_of(content);
        let lines = split_chars(chars.as_slice(), '\n');
        let ghost slines = split_char(content@, '\n');
        let mut callsigns: Vec<String> = Vec::new();
        let mut k: usize = 0;
        assert(slines.take(0) =~= Seq::<Seq<char>>::empty());
        while k < lines.len()
            invariant
                k <= lines@.len(),
                lines@.len() == slines.len(),
                forall|j: int| 0 <= j < lines@.len() ==> #[trigger] lines@[j]@ == slines[j],
                strings_view(callsigns@) == list_callsigns(slines.take(k as int)),
            decreases lines@.len() - k,
        {
            assert(slines.take(k + 1).drop_last() =~= slines.take(k as int));
            assert(slines.take(k + 1).last() == lines@[k as int]@);
            let line = trim_chars(lines[k].as_slice());
            if line.len() > 0 && line[0] != '#' {
                let fields = split_chars(line.as_slice(), ',');
                proof {
                    crate::text::lemma_split_char_nonempty(line@, ',');
                }
                let first = trim_chars(fields[0].as_slice());
                let first = string_of(first.as_slice());
                let call = to_upper(first.as_str());
                let cv = chars_of(call.as_str());
                if is_valid_callsign_chars(cv.as_slice()) {
                    let ghost before = callsigns@;
                    callsigns.push(call);
                    assert(strings_view(callsigns@) =~= strings_view(before).push(cv@));
                }
            }
            k = k + 1;
        }
        assert(slines.take(slines.len() as int) =~= slines);
        if callsigns.len() == 0 {
            return Err(PoolError::NoValidCallsigns);
        }
        Ok(CallsignPool { callsigns, used: Vec::new() })
    }

    /// The built-in pool, for when no list is available.
    pub fn default_pool() -> (p: Self)
        ensures
            p.spec_callsigns() == default_callsigns(),
            forall|c: Seq<char>| !p.spec_used(c),
    {
        let callsigns: Vec<String> = vec![
            copy_string("W1AW"),
            copy_string("K1TTT"),
            copy_string("N1MM"),
            copy_string("W2FU"),
            copy_string("K2LE"),
            copy_string("N2IC"),
            copy_string("W3LPL"),
            copy_string("K3LR"),
            copy_string("N3RS"),
            copy_string("W4MYA"),
            copy_string("K4JA"),
            copy_string("N4AF"),
            copy_string("W5WMU"),
            copy_string("K5ZD"),
            copy_string("N5TJ"),
            copy_string("W6YX"),
            copy_string("K6XX"),
            copy_string("N6TV"),
            copy_string("W7RN"),
            copy_string("K7RL"),
            copy_string("N7DR"),
            copy_string("W8ND"),
            copy_string("K8ND"),
            copy_string("N8II"),
            copy_string("W9RE"),
            copy_string("K9CT"),
            copy_string("N9RV"),
            copy_string("W0AIH"),
            copy_string("K0RF"),
            copy_string("N0AX"),
            copy_string("VE3EJ"),
            copy_string("VE7CC"),
            copy_string("VA3DX"),
            copy_string("VE2IM"),
            copy_string("VE6SV"),
            copy_string("DL1A"),
            copy_string("DL6FBL"),
            copy_string("G3PXT"),
            copy_string("G4AMJ"),
            copy_string("JA1ABC"),
            copy_string("JH1NBN"),
            copy_string("PY2SEX"),
            copy_string("LU1FAM"),
            copy_string("ZS6EZ"),
            copy_string("VK2GR"),
            copy_string("ZL1BQD"),
        ];
        let p = CallsignPool { callsigns, used: Vec::new() };
        assert(p.spec_callsigns() =~= default_callsigns());
        p
    }

    /// Number of callsigns in the pool.
    pub fn len(&self) -> (n: usize)
        ensures
            n == self.spec_callsigns().len(),
    {
        self.callsigns.len()
    }

    /// Whether the pool has no callsigns.
    pub fn is_empty(&self) -> (b: bool)
        ensures
            b == (self.spec_callsigns().len() == 0),
    {
        self.callsigns.len() == 0
    }

    /// Forgets which callsigns were handed out.
    pub fn reset(&mut self)
        ensures
            final(self).spec_callsigns() == old(self).spec_callsigns(),
            forall|c: Seq<char>| !final(self).spec_used(c),
    {
        self.used.clear();
    }

    /// Indices of the callsigns not handed out yet.
    fn available(&self) -> (r: Vec<usize>)
        ensures
            forall|j: int| 0 <= j < r@.len() ==> #[trigger] r@[j] < self.spec_callsigns().len()
                && !self.spec_used(self.spec_callsigns()[r@[j] as int]),
            forall|i: int|
                0 <= i < self.spec_callsigns().len() && !self.spec_used(
                    #[trigger] self.spec_callsigns()[i],
                ) ==> r@.contains(i as usize),
    {
        let mut r: Vec<usize> = Vec::new();
        let mut i: usize = 0;
        while i < self.callsigns.len()
            invariant
                i <= self.callsigns@.len(),
                forall|j: int| 0 <= j < r@.len() ==> #[trigger] r@[j] < i
                    && !self.spec_used(self.spec_callsigns()[r@[j] as int]),
                forall|k: int|
                    0 <= k < i && !self.spec_used(#[trigger] self.spec_callsigns()[k]) ==> r@.contains(
                        k as usize,
                    ),
            decreases self.callsigns@.len() - i,
        {
            if !contains_string(&self.used, &self.callsigns[i]) {
                let ghost before = r@;
                r.push(i);
                assert forall|k: int|
                    0 <= k < i + 1 && !self.spec_used(#[trigger] self.spec_callsigns()[k]) implies r@.contains(
                    k as usize,
                ) by {
                    if k < i {
                        assert(before.contains(k as usize));
                        let m = choose|m: int| 0 <= m < before.len() && before[m] == k as usize;
                        assert(r@[m] == k as usize);
                    } else {
                        assert(r@[r@.len() - 1] == k as usize);
                    }
                }
            }
            i = i + 1;
        }
        r
    }

    /// A random callsign from the pool, avoiding the ones handed out since the
    /// last reset. When all were handed out, the pool is reset and any
    /// callsign may come (it is then not marked as handed out).
    pub fn random(&mut self) -> (r: Option<String>)
        ensures
            final(self).spec_callsigns() == old(self).spec_callsigns(),
            (r is None) == (old(self).spec_callsigns().len() == 0),
            match r {
                Some(c) => old(self).spec_callsigns().contains(c@) && drew_call(*old(self), *final(self), c@),
                None => true,
            },
            (exists|i: int|
                0 <= i < old(self).spec_callsigns().len() && !old(self).spec_used(
                    #[trigger] old(self).spec_callsigns()[i],
                )) ==> (r matches Some(c) && !old(self).spec_used(c@) && forall|x: Seq<char>|
                final(self).spec_used(x) == (old(self).spec_used(x) || x == c@)),
            (forall|i: int|
                0 <= i < old(self).spec_callsigns().len() ==> old(self).spec_used(
                    #[trigger] old(self).spec_callsigns()[i],
                )) ==> forall|x: Seq<char>| !final(self).spec_used(x),
    {
        let avail = self.available();
        if avail.len() == 0 {
            self.used.clear();
            if self.callsigns.len() == 0 {
                return None;
            }
            let k = random_below(self.callsigns.len());
            let c = self.callsigns[k].clone();
            assert(self.spec_callsigns()[k as int] == c@);
            return Some(c);
        }
        let j = random_below(avail.len());
        let k = avail[j];
        let c = self.callsigns[k].clone();
        assert(self.spec_callsigns()[k as int] == c@);
        let ghost before = self.used@;
        self.used.push(c.clone());
        assert forall|x: Seq<char>| self.spec_used(x) == (old(self).spec_used(x) || x == c@) by {
            if old(self).spec_used(x) {
                let m = choose|m: int| 0 <= m < before.len() && (#[trigger] before[m])@ == x;
                assert(self.used@[m] == before[m]);
            }
            if x == c@ {
                assert(self.used@[before.len() as int]@ == c@);
            }
        }
        Some(c)
    }
}

/// One draw from a callsign pool: the callsigns stay, the one drawn is in
/// the pool, and while some callsign was not handed out yet, it is one of
/// those and is now recorded.
pub open spec fn drew_call(a: CallsignPool, b: CallsignPool, c: Seq<char>) -> bool {
    &&& b.spec_callsigns() == a.spec_callsigns()
    &&& a.spec_callsigns().contains(c)
    &&& (exists|i: int| 0 <= i < a.spec_callsigns().len() && !a.spec_used(#[trigger] a.spec_callsigns()[i]))
        ==> !a.spec_used(c) && forall|x: Seq<char>| #[trigger] b.spec_used(x) == (a.spec_used(x) || x == c)
}

proof fn lemma_call_draws_prefix(ps: Seq<CallsignPool>, calls: Seq<Seq<char>>, k: nat)
    requires
        ps.len() == calls.len() + 1,
        k <= calls.len(),
        forall|x: Seq<char>| !ps[0].spec_used(x),
        calls.len() <= ps[0].spec_callsigns().len(),
        ps[0].spec_callsigns().no_duplicates(),
        forall|j: int| 0 <= j < calls.len() ==> drew_call(#[trigger] ps[j], ps[j + 1], calls[j]),
    ensures
        ps[k as int].spec_callsigns() == ps[0].spec_callsigns(),
        forall|x: Seq<char>| #[trigger] ps[k as int].spec_used(x) == calls.take(k as int).contains(x),
        calls.take(k as int).no_duplicates(),
    decreases k,
{
    broadcast use vstd::seq_lib::seq_to_set_is_finite;
    if k == 0 {
        assert(calls.take(0) =~= Seq::<Seq<char>>::empty());
    } else {
        let j = (k - 1) as int;
        lemma_call_draws_prefix(ps, calls, (k - 1) as nat);
        let a = ps[j];
        let b = ps[j + 1];
        assert(drew_call(a, b, calls[j]));
        let before = calls.take(j);
        assert(calls.take(k as int) =~= before.push(calls[j]));
        let sc = ps[0].spec_callsigns();
        if !(exists|i: int| 0 <= i < a.spec_callsigns().len() && !a.spec_used(#[trigger] a.spec_callsigns()[i])) {
            sc.unique_seq_to_set();
            before.lemma_cardinality_of_set();
            assert forall|x: Seq<char>| sc.to_set().contains(x) implies before.to_set().contains(x) by {
                let i = choose|i: int| 0 <= i < sc.len() && sc[i] == x;
                assert(a.spec_used(a.spec_callsigns()[i]));
            }
            vstd::set_lib::lemma_len_subset(sc.to_set(), before.to_set());
            assert(false);
        }
        assert(!before.contains(calls[j]));
        assert forall|x: Seq<char>| #[trigger] b.spec_used(x) == calls.take(k as int).contains(x) by {
            if x == calls[j] {
                assert(calls.take(k as int)[j] == x);
            }
            if calls.take(k as int).contains(x) && x != calls[j] {
                let m = choose|m: int| 0 <= m < k && calls.take(k as int)[m] == x;
                assert(before[m] == x);
            }
            if before.contains(x) {
                let m = choose|m: int| 0 <= m < before.len() && before[m] == x;
                assert(calls.take(k as int)[m] == x);
            }
        }
        assert forall|p: int, q: int| 0 <= p < q < calls.take(k as int).len() implies calls.take(k as int)[p]
            != calls.take(k as int)[q] by {
            assert(before[p] == calls.take(k as int)[p]);
            if q != j {
                assert(before[q] == calls.take(k as int)[q]);
            }
        }
    }
}

/// Drawing from a pool of distinct callsigns with nothing handed out yet (a
/// new pool, or one just reset): every draw gives a callsign of the pool,
/// the first draws are all different, and as many draws as there are
/// callsigns give each callsign of the pool exactly once.
pub proof fn lemma_call_draws(ps: Seq<CallsignPool>, calls: Seq<Seq<char>>)
    requires
        ps.len() == calls.len() + 1,
        forall|x: Seq<char>| !ps[0].spec_used(x),
        calls.len() <= ps[0].spec_callsigns().len(),
        ps[0].spec_callsigns().no_duplicates(),
        forall|j: int| 0 <= j < calls.len() ==> drew_call(#[trigger] ps[j], ps[j + 1], calls[j]),
    ensures
        calls.no_duplicates(),
        forall|j: int| 0 <= j < calls.len() ==> ps[0].spec_callsigns().contains(#[trigger] calls[j]),
        calls.len() == ps[0].spec_callsigns().len() ==> calls.to_set() == ps[0].spec_callsigns().to_set(),
{
    broadcast use vstd::seq_lib::seq_to_set_is_finite;
    lemma_call_draws_prefix(ps, calls, calls.len());
    assert(calls.take(calls.len() as int) =~= calls);
    assert forall|j: int| 0 <= j < calls.len() implies ps[0].spec_callsigns().contains(#[trigger] calls[j]) by {
        lemma_call_draws_prefix(ps, calls, j as nat);
        assert(drew_call(ps[j], ps[j + 1], calls[j]));
    }
    if calls.len() == ps[0].spec_callsigns().len() {
        let sc = ps[0].spec_callsigns();
        calls.unique_seq_to_set();
        sc.unique_seq_to_set();
        assert forall|x: Seq<char>| calls.to_set().contains(x) implies sc.to_set().contains(x) by {
            let j = choose|j: int| 0 <= j < calls.len() && calls[j] == x;
            assert(sc.contains(calls[j]));
        }
        vstd::set_lib::lemma_subset_equality(calls.to_set(), sc.to_set());
    }
}

/// The built-in callsigns.
pub open spec fn default_callsigns() -> Seq<Seq<char>> {
    seq![
        "W1AW"@,
        "K1TTT"@,
        "N1MM"@,
        "W2FU"@,
        "K2LE"@,
        "N2IC"@,
        "W3LPL"@,
        "K3LR"@,
        "N3RS"@,
        "W4MYA"@,
        "K4JA"@,
        "N4AF"@,
        "W5WMU"@,
        "K5ZD"@,
        "N5TJ"@,
        "W6YX"@,
        "K6XX"@,
        "N6TV"@,
        "W7RN"@,
        "K7RL"@,
        "N7DR"@,
        "W8ND"@,
        "K8ND"@,
        "N8II"@,
        "W9RE"@,
        "K9CT"@,
        "N9RV"@,
        "W0AIH"@,
        "K0RF"@,
        "N0AX"@,
        "VE3EJ"@,
        "VE7CC"@,
        "VA3DX"@,
        "VE2IM"@,
        "VE6SV"@,
        "DL1A"@,
        "DL6FBL"@,
        "G3PXT"@,
        "G4AMJ"@,
        "JA1ABC"@,
        "JH1NBN"@,
        "PY2SEX"@,
        "LU1FAM"@,
        "ZS6EZ"@,
        "VK2GR"@,
        "ZL1BQD"@
    ]
}

} // verus!

verus! {

/// Callsigns from a list, each paired with the exchange the contest makes up
/// for it.
pub struct FileCallsignSource {
    pool: CallsignPool,
}

impl FileCallsignSource {
    pub closed spec fn spec_callsigns(&self) -> Seq<Seq<char>> {
        self.pool.spec_callsigns()
    }

    /// Reads a callsign list (see `CallsignPool::load`).
    pub fn load(content: &str) -> (r: Result<Self, PoolError>)
        ensures
            match r {
                Ok(s) => s.spec_callsigns() == list_callsigns(split_char(content@, '\n'))
                    && s.spec_callsigns().len() > 0,
                Err(_) => list_callsigns(split_char(content@, '\n')).len() == 0,
            },
    {
        match CallsignPool::load(content) {
            Ok(pool) => Ok(FileCallsignSource { pool }),
            Err(e) => Err(e),
        }
    }

    /// The built-in callsigns.
    pub fn default_pool() -> (s: Self)
        ensures
            s.spec_callsigns() == default_callsigns(),
    {
        FileCallsignSource { pool: CallsignPool::default_pool() }
    }

    /// A random callsign from the list (avoiding the ones handed out since
    /// the list was last exhausted) with the exchange the contest makes up
    /// for it.
    pub fn random(
        &mut self,
        contest: &crate::contest::AnyContest,
        serial: u32,
        settings: &crate::contest::types::SettingsTable,
    ) -> (r: Option<(String, crate::contest::types::Exchange)>)
        ensures
            final(self).spec_callsigns() == old(self).spec_callsigns(),
            (r is None) == (old(self).spec_callsigns().len() == 0),
            match r {
                Some((c, e)) => old(self).spec_callsigns().contains(c@) && crate::contest::generated_ok(
                    *contest,
                    c@,
                    settings.view_table(),
                    e.view_fields(),
                ),
                None => true,
            },
    {
        match self.pool.random() {
            Some(c) => {
                let e = contest.generate_exchange(c.as_str(), serial, settings);
                Some((c, e))
            },
            None => None,
        }
    }
}

} // verus!
