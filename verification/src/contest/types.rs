//! Shared contest types: exchanges, entry fields, settings schema and values,
//! and validation results.

use vstd::prelude::*;
use crate::num::{parse_i64, parse_i64_chars};
use crate::text::{
    chars_eq, chars_of, is_ascii_digit, is_digit, is_whitespace, is_ws, string_of, to_upper, trim,
    trim_chars, unicode_upper,
};

verus! {

/// An exchange: the fields a station sends after its callsign.
#[derive(Clone, Debug)]
pub struct Exchange {
    pub fields: Vec<String>,
}

/// The fields of an exchange as character sequences.
pub open spec fn fields_view(fields: Seq<String>) -> Seq<Seq<char>> {
    Seq::new(fields.len(), |i: int| fields[i]@)
}

impl Exchange {
    pub open spec fn view_fields(&self) -> Seq<Seq<char>> {
        fields_view(self.fields@)
    }

    pub fn new(fields: Vec<String>) -> (e: Self)
        ensures
            e.fields == fields,
    {
        Self { fields }
    }
}

/// Kind of an exchange entry field.
#[derive(Clone, Copy, Debug, PartialEq, Eq, Structural)]
pub enum FieldKind {
    Text,
    Number,
    Alnum,
    Section,
}

/// `s` without its whitespace characters.
pub open spec fn without_ws(s: Seq<char>) -> Seq<char>
    decreases s.len(),
{
    if s.len() == 0 {
        s
    } else if is_ws(s.last()) {
        without_ws(s.drop_last())
    } else {
        without_ws(s.drop_last()).push(s.last())
    }
}

/// The ASCII digits of `s`, in order.
pub open spec fn only_digits(s: Seq<char>) -> Seq<char>
    decreases s.len(),
{
    if s.len() == 0 {
        s
    } else if is_digit(s.last()) {
        only_digits(s.drop_last()).push(s.last())
    } else {
        only_digits(s.drop_last())
    }
}

/// What an entry field holds after normalization: trimmed, uppercased,
/// whitespace removed, and for a number field only the digits kept.
pub open spec fn normalized_input(value: Seq<char>, kind: FieldKind) -> Seq<char> {
    let cleaned = without_ws(unicode_upper(trim(value)));
    if kind == FieldKind::Number {
        only_digits(cleaned)
    } else {
        cleaned
    }
}

fn remove_whitespace(v: &[char]) -> (r: Vec<char>)
    ensures
        r@ == without_ws(v@),
{
    let mut r: Vec<char> = Vec::new();
    let mut i: usize = 0;
    assert(v@.take(0) =~= Seq::<char>::empty());
    while i < v.len()
        invariant
            i <= v@.len(),
            r@ == without_ws(v@.take(i as int)),
        decreases v@.len() - i,
    {
        assert(v@.take(i + 1).drop_last() =~= v@.take(i as int));
        if !is_whitespace(v[i]) {
            r.push(v[i]);
        }
        i = i + 1;
    }
    assert(v@.take(v@.len() as int) =~= v@);
    r
}

fn keep_digits(v: &[char]) -> (r: Vec<char>)
    ensures
        r@ == only_digits(v@),
{
    let mut r: Vec<char> = Vec::new();
    let mut i: usize = 0;
    assert(v@.take(0) =~= Seq::<char>::empty());
    while i < v.len()
        invariant
            i <= v@.len(),
            r@ == only_digits(v@.take(i as int)),
        decreases v@.len() - i,
    {
        assert(v@.take(i + 1).drop_last() =~= v@.take(i as int));
        if is_ascii_digit(v[i]) {
            r.push(v[i]);
        }
        i = i + 1;
    }
    assert(v@.take(v@.len() as int) =~= v@);
    r
}

/// Normalizes what the user typed into an exchange field.
pub fn normalize_exchange_input(value: &str, kind: FieldKind) -> (r: String)
    ensures
        r@ == normalized_input(value@, kind),
{
    let t = crate::text::trimmed_chars(value);
    let t = string_of(t.as_slice());
    let up = to_upper(t.as_str());
    let up = chars_of(up.as_str());
    let cleaned = remove_whitespace(up.as_slice());
    if kind == FieldKind::Number {
        let d = keep_digits(cleaned.as_slice());
        string_of(d.as_slice())
    } else {
        string_of(cleaned.as_slice())
    }
}

/// An exchange field the user fills in.
#[derive(Clone, Debug)]
pub struct ExchangeField {
    pub label: &'static str,
    pub placeholder: &'static str,
    pub width_chars: u8,
    pub kind: FieldKind,
    pub default_value: Option<&'static str>,
    pub focus_on_enter: bool,
}

impl ExchangeField {
    pub fn new(label: &'static str, placeholder: &'static str, width_chars: u8, kind: FieldKind) -> (f: Self)
        ensures
            f.label == label,
            f.placeholder == placeholder,
            f.width_chars == width_chars,
            f.kind == kind,
            f.default_value is None,
            !f.focus_on_enter,
    {
        Self { label, placeholder, width_chars, kind, default_value: None, focus_on_enter: false }
    }

    /// The same field with a value filled in by default.
    pub fn with_default_value(self, value: &'static str) -> (f: Self)
        ensures
            f == (ExchangeField { default_value: Some(value), ..self }),
    {
        let mut f = self;
        f.default_value = Some(value);
        f
    }

    /// The same field, marked to take focus after a callsign is entered.
    pub fn focus_on_enter(self) -> (f: Self)
        ensures
            f == (ExchangeField { focus_on_enter: true, ..self }),
    {
        let mut f = self;
        f.focus_on_enter = true;
        f
    }
}

/// Kind of a contest setting.
#[derive(Clone, Copy, Debug, PartialEq, Eq, Structural)]
pub enum SettingFieldKind {
    Text,
    FilePath,
    Integer { min: i64, max: i64 },
}

/// Where a contest setting is shown.
#[derive(Clone, Copy, Debug, PartialEq, Eq, Structural)]
pub enum SettingFieldGroup {
    Contest,
    UserExchange,
}

/// A contest setting in the settings schema.
#[derive(Clone, Debug)]
pub struct SettingField {
    pub key: &'static str,
    pub label: &'static str,
    pub placeholder: &'static str,
    pub width_chars: u8,
    pub kind: SettingFieldKind,
    pub group: SettingFieldGroup,
}

/// Result of validating a logged entry against what was sent.
#[derive(Clone, Copy, Debug, PartialEq, Eq, Structural)]
pub struct ValidationResult {
    pub callsign_correct: bool,
    pub exchange_correct: bool,
    pub points: u32,
}

// ---------------------------------------------------------------------------
// Contest settings values
// ---------------------------------------------------------------------------

/// A contest setting's value: a string, an integer, or something else.
#[derive(Clone, Debug)]
pub enum SettingValue {
    Str(String),
    Int(i64),
    Other,
}

/// A setting's value as plain data.
pub enum SpecValue {
    Str(Seq<char>),
    Int(i64),
    Other,
}

pub open spec fn value_view(v: SettingValue) -> SpecValue {
    match v {
        SettingValue::Str(s) => SpecValue::Str(s@),
        SettingValue::Int(i) => SpecValue::Int(i),
        SettingValue::Other => SpecValue::Other,
    }
}

/// The value of the first entry with the given key.
pub open spec fn table_get(t: Seq<(Seq<char>, SpecValue)>, key: Seq<char>) -> Option<SpecValue>
    decreases t.len(),
{
    if t.len() == 0 {
        None
    } else if t[0].0 == key {
        Some(t[0].1)
    } else {
        table_get(t.drop_first(), key)
    }
}

/// A setting as a string, or `default` when it is missing or not a string.
pub open spec fn setting_str(t: Seq<(Seq<char>, SpecValue)>, key: Seq<char>, default: Seq<char>) -> Seq<
    char,
> {
    match table_get(t, key) {
        Some(SpecValue::Str(s)) => s,
        _ => default,
    }
}

/// A setting as an integer: an integer value, or a string that parses as one
/// once trimmed.
pub open spec fn setting_int(t: Seq<(Seq<char>, SpecValue)>, key: Seq<char>) -> Option<int> {
    match table_get(t, key) {
        Some(SpecValue::Int(i)) => Some(i as int),
        Some(SpecValue::Str(s)) => parse_i64(trim(s)),
        _ => None,
    }
}

/// The keys of a table are distinct.
pub open spec fn keys_distinct(t: Seq<(Seq<char>, SpecValue)>) -> bool {
    forall|i: int, j: int| 0 <= i < j < t.len() ==> t[i].0 != t[j].0
}

/// The contest settings table: keys with values, each key at most once.
#[derive(Clone, Debug)]
pub struct SettingsTable {
    entries: Vec<(String, SettingValue)>,
}

impl SettingsTable {
    pub closed spec fn view_table(&self) -> Seq<(Seq<char>, SpecValue)> {
        Seq::new(self.entries@.len(), |i: int| (self.entries@[i].0@, value_view(self.entries@[i].1)))
    }

    pub closed spec fn wf(&self) -> bool {
        keys_distinct(self.view_table())
    }

    /// An empty table.
    pub fn new() -> (t: Self)
        ensures
            t.wf(),
            t.view_table() == Seq::<(Seq<char>, SpecValue)>::empty(),
    {
        let t = SettingsTable { entries: Vec::new() };
        assert(t.view_table() =~= Seq::<(Seq<char>, SpecValue)>::empty());
        t
    }

    fn find(&self, key: &[char]) -> (r: Option<usize>)
        ensures
            match r {
                Some(i) => i < self.view_table().len() && self.view_table()[i as int].0 == key@
                    && forall|j: int| 0 <= j < i ==> self.view_table()[j].0 != key@,
                None => forall|j: int| 0 <= j < self.view_table().len() ==> self.view_table()[j].0 != key@,
            },
    {
        let mut i: usize = 0;
        while i < self.entries.len()
            invariant
                i <= self.entries@.len(),
                forall|j: int| 0 <= j < i ==> self.view_table()[j].0 != key@,
            decreases self.entries@.len() - i,
        {
            let k = chars_of(self.entries[i].0.as_str());
            if chars_eq(k.as_slice(), key) {
                return Some(i);
            }
            i = i + 1;
        }
        None
    }

    /// The value stored under `key`.
    pub fn get(&self, key: &str) -> (r: Option<&SettingValue>)
        ensures
            match r {
                Some(v) => table_get(self.view_table(), key@) == Some(value_view(*v)),
                None => table_get(self.view_table(), key@) is None,
            },
    {
        let k = chars_of(key);
        let r = self.find(k.as_slice());
        proof {
            lemma_table_get_first(self.view_table(), key@, r);
        }
        match r {
            Some(i) => Some(&self.entries[i].1),
            None => None,
        }
    }

    /// Stores `value` under `key`, replacing what was there.
    pub fn insert(&mut self, key: &str, value: SettingValue)
        requires
            old(self).wf(),
        ensures
            final(self).wf(),
            table_get(final(self).view_table(), key@) == Some(value_view(value)),
            forall|k: Seq<char>| k != key@ ==> table_get(final(self).view_table(), k) == table_get(
                old(self).view_table(),
                k,
            ),
    {
        let kc = chars_of(key);
        let found = self.find(kc.as_slice());
        let ghost before = self.view_table();
        match found {
            Some(i) => {
                let name = string_of(kc.as_slice());
                self.entries.set(i, (name, value));
                proof {
                    assert(self.view_table() =~= before.update(i as int, (key@, value_view(value))));
                    lemma_table_update(before, i as int, key@, value_view(value));
                }
            },
            None => {
                let name = string_of(kc.as_slice());
                self.entries.push((name, value));
                proof {
                    assert(self.view_table() =~= before.push((key@, value_view(value))));
                    lemma_table_push(before, key@, value_view(value));
                }
            },
        }
    }

    /// A string setting, or `default` when missing or not a string.
    pub fn get_string(&self, key: &str, default: &str) -> (s: String)
        ensures
            s@ == setting_str(self.view_table(), key@, default@),
    {
        match self.get(key) {
            Some(SettingValue::Str(s)) => s.clone(),
            _ => crate::text::copy_string(default),
        }
    }

    /// An integer setting, from an integer or from a string that parses as one.
    pub fn get_integer(&self, key: &str) -> (r: Option<i64>)
        ensures
            match r {
                Some(x) => setting_int(self.view_table(), key@) == Some(x as int),
                None => setting_int(self.view_table(), key@) is None,
            },
    {
        match self.get(key) {
            Some(SettingValue::Int(i)) => Some(*i),
            Some(SettingValue::Str(s)) => {
                let t = crate::text::trimmed_chars(s.as_str());
                parse_i64_chars(t.as_slice())
            },
            _ => None,
        }
    }

    /// A copy of the table.
    pub fn clone_table(&self) -> (t: Self)
        ensures
            t.view_table() == self.view_table(),
            t.wf() == self.wf(),
    {
        let mut entries: Vec<(String, SettingValue)> = Vec::new();
        let mut i: usize = 0;
        while i < self.entries.len()
            invariant
                i <= self.entries@.len(),
                entries@.len() == i,
                forall|j: int| 0 <= j < i ==> #[trigger] entries@[j].0@ == self.entries@[j].0@ && value_view(entries@[j].1)
                    == value_view(self.entries@[j].1),
            decreases self.entries@.len() - i,
        {
            entries.push((self.entries[i].0.clone(), clone_value(&self.entries[i].1)));
            i = i + 1;
        }
        let t = SettingsTable { entries };
        assert(t.view_table() =~= self.view_table());
        t
    }

    /// Fills in, from `defaults`, every key the table lacks; keys it has keep
    /// their values.
    pub fn merge_defaults(&mut self, defaults: &SettingsTable)
        requires
            old(self).wf(),
        ensures
            final(self).wf(),
            forall|k: Seq<char>| #[trigger] table_get(final(self).view_table(), k) == match table_get(old(self).view_table(), k) {
                Some(v) => Some(v),
                None => table_get(defaults.view_table(), k),
            },
    {
        let ghost d = defaults.view_table();
        let mut i: usize = 0;
        assert(d.take(0) =~= Seq::<(Seq<char>, SpecValue)>::empty());
        while i < defaults.entries.len()
            invariant
                i <= defaults.entries@.len(),
                d == defaults.view_table(),
                self.wf(),
                forall|k: Seq<char>| #[trigger] table_get(self.view_table(), k) == match table_get(old(self).view_table(), k) {
                    Some(v) => Some(v),
                    None => table_get(d.take(i as int), k),
                },
            decreases defaults.entries@.len() - i,
        {
            let key = &defaults.entries[i].0;
            let ghost e = d[i as int];
            assert(e.0 == key@);
            assert(d.take(i + 1) =~= d.take(i as int).push(e));
            proof {
                assert forall|k: Seq<char>| #[trigger] table_get(d.take(i + 1), k) == match table_get(d.take(i as int), k) {
                    Some(v) => Some(v),
                    None => if e.0 == k {
                        Some(e.1)
                    } else {
                        None
                    },
                } by {
                    lemma_table_get_push(d.take(i as int), e, k);
                }
            }
            let present = match self.get(key.as_str()) {
                Some(_) => true,
                None => false,
            };
            if !present {
                let v = clone_value(&defaults.entries[i].1);
                assert(value_view(v) == e.1);
                let ghost before = self.view_table();
                self.insert(key.as_str(), v);
                assert forall|k: Seq<char>| #[trigger] table_get(self.view_table(), k) == match table_get(old(self).view_table(), k) {
                    Some(v) => Some(v),
                    None => table_get(d.take(i + 1), k),
                } by {
                    if k != key@ {
                        assert(table_get(self.view_table(), k) == table_get(before, k));
                    }
                }
            } else {
                assert forall|k: Seq<char>| #[trigger] table_get(self.view_table(), k) == match table_get(old(self).view_table(), k) {
                    Some(v) => Some(v),
                    None => table_get(d.take(i + 1), k),
                } by {
                    if k == key@ {
                        if table_get(old(self).view_table(), k) is None {
                            assert(table_get(d.take(i as int), k) is Some);
                        }
                    }
                }
            }
            i = i + 1;
        }
        assert(d.take(d.len() as int) =~= d);
    }

    /// The keys, in order.
    pub fn keys(&self) -> (r: Vec<String>)
        ensures
            r@.len() == self.view_table().len(),
            forall|i: int| 0 <= i < r@.len() ==> #[trigger] r@[i]@ == self.view_table()[i].0,
    {
        let mut r: Vec<String> = Vec::new();
        let mut i: usize = 0;
        while i < self.entries.len()
            invariant
                i <= self.entries@.len(),
                r@.len() == i,
                forall|j: int| 0 <= j < i ==> #[trigger] r@[j]@ == self.view_table()[j].0,
            decreases self.entries@.len() - i,
        {
            r.push(self.entries[i].0.clone());
            i = i + 1;
        }
        r
    }
}

/// A copy of a setting's value.
pub fn clone_value(v: &SettingValue) -> (r: SettingValue)
    ensures
        value_view(r) == value_view(*v),
{
    match v {
        SettingValue::Str(s) => SettingValue::Str(s.clone()),
        SettingValue::Int(i) => SettingValue::Int(*i),
        SettingValue::Other => SettingValue::Other,
    }
}

/// Looking up a key in a table with one more entry at the end.
pub proof fn lemma_table_get_push(t: Seq<(Seq<char>, SpecValue)>, e: (Seq<char>, SpecValue), k: Seq<char>)
    ensures
        table_get(t.push(e), k) == match table_get(t, k) {
            Some(v) => Some(v),
            None => if e.0 == k {
                Some(e.1)
            } else {
                None
            },
        },
    decreases t.len(),
{
    if t.len() > 0 {
        assert(t.push(e)[0] == t[0]);
        assert(t.push(e).drop_first() =~= t.drop_first().push(e));
        lemma_table_get_push(t.drop_first(), e, k);
    } else {
        assert(t.push(e)[0] == e);
        assert(t.push(e).drop_first() =~= Seq::<(Seq<char>, SpecValue)>::empty());
        assert(table_get(Seq::<(Seq<char>, SpecValue)>::empty(), k) is None);
    }
}

proof fn lemma_table_get_first(t: Seq<(Seq<char>, SpecValue)>, key: Seq<char>, r: Option<usize>)
    requires
        match r {
            Some(i) => i < t.len() && t[i as int].0 == key && forall|j: int| 0 <= j < i ==> t[j].0 != key,
            None => forall|j: int| 0 <= j < t.len() ==> t[j].0 != key,
        },
    ensures
        match r {
            Some(i) => table_get(t, key) == Some(t[i as int].1),
            None => table_get(t, key) is None,
        },
    decreases t.len(),
{
    if t.len() > 0 && t[0].0 != key {
        let r2: Option<usize> = match r {
            Some(i) => Some((i - 1) as usize),
            None => None,
        };
        assert forall|j: int| 0 <= j < t.len() - 1 implies t.drop_first()[j] == t[j + 1] by {}
        lemma_table_get_first(t.drop_first(), key, r2);
    }
}

proof fn lemma_table_get_absent(t: Seq<(Seq<char>, SpecValue)>, key: Seq<char>)
    requires
        forall|j: int| 0 <= j < t.len() ==> t[j].0 != key,
    ensures
        table_get(t, key) is None,
    decreases t.len(),
{
    if t.len() > 0 {
        assert forall|j: int| 0 <= j < t.len() - 1 implies t.drop_first()[j].0 != key by {
            assert(t.drop_first()[j] == t[j + 1]);
        }
        lemma_table_get_absent(t.drop_first(), key);
    }
}

proof fn lemma_table_get_index(t: Seq<(Seq<char>, SpecValue)>, i: int)
    requires
        keys_distinct(t),
        0 <= i < t.len(),
    ensures
        table_get(t, t[i].0) == Some(t[i].1),
    decreases t.len(),
{
    if i > 0 {
        let d = t.drop_first();
        assert forall|a: int, b: int| 0 <= a < b < d.len() implies d[a].0 != d[b].0 by {
            assert(d[a] == t[a + 1]);
            assert(d[b] == t[b + 1]);
        }
        assert(d[i - 1] == t[i]);
        lemma_table_get_index(d, i - 1);
    }
}

proof fn lemma_table_get_spec(t: Seq<(Seq<char>, SpecValue)>, k: Seq<char>)
    requires
        keys_distinct(t),
    ensures
        match table_get(t, k) {
            Some(v) => exists|i: int| 0 <= i < t.len() && t[i].0 == k && t[i].1 == v,
            None => forall|j: int| 0 <= j < t.len() ==> t[j].0 != k,
        },
    decreases t.len(),
{
    if t.len() > 0 {
        if t[0].0 != k {
            let d = t.drop_first();
            assert forall|a: int, b: int| 0 <= a < b < d.len() implies d[a].0 != d[b].0 by {
                assert(d[a] == t[a + 1]);
                assert(d[b] == t[b + 1]);
            }
            lemma_table_get_spec(d, k);
            match table_get(d, k) {
                Some(v) => {
                    let i = choose|i: int| 0 <= i < d.len() && d[i].0 == k && d[i].1 == v;
                    assert(t[i + 1] == d[i]);
                },
                None => {
                    assert forall|j: int| 0 <= j < t.len() implies t[j].0 != k by {
                        if j > 0 {
                            assert(t[j] == d[j - 1]);
                        }
                    }
                },
            }
        }
    }
}

proof fn lemma_table_update(t: Seq<(Seq<char>, SpecValue)>, i: int, key: Seq<char>, v: SpecValue)
    requires
        keys_distinct(t),
        0 <= i < t.len(),
        t[i].0 == key,
    ensures
        keys_distinct(t.update(i, (key, v))),
        table_get(t.update(i, (key, v)), key) == Some(v),
        forall|k: Seq<char>| k != key ==> table_get(t.update(i, (key, v)), k) == table_get(t, k),
{
    let u = t.update(i, (key, v));
    lemma_table_get_index(u, i);
    assert forall|k: Seq<char>| k != key implies table_get(u, k) == table_get(t, k) by {
        lemma_table_get_spec(t, k);
        lemma_table_get_spec(u, k);
        match table_get(t, k) {
            Some(w) => {
                let j = choose|j: int| 0 <= j < t.len() && t[j].0 == k && t[j].1 == w;
                assert(u[j] == t[j]);
                lemma_table_get_index(u, j);
            },
            None => {
                assert forall|j: int| 0 <= j < u.len() implies u[j].0 != k by {
                    if j != i {
                        assert(u[j] == t[j]);
                    }
                }
                lemma_table_get_absent(u, k);
            },
        }
    }
}

proof fn lemma_table_push(t: Seq<(Seq<char>, SpecValue)>, key: Seq<char>, v: SpecValue)
    requires
        keys_distinct(t),
        forall|j: int| 0 <= j < t.len() ==> t[j].0 != key,
    ensures
        keys_distinct(t.push((key, v))),
        table_get(t.push((key, v)), key) == Some(v),
        forall|k: Seq<char>| k != key ==> table_get(t.push((key, v)), k) == table_get(t, k),
{
    let u = t.push((key, v));
    assert(keys_distinct(u));
    lemma_table_get_index(u, t.len() as int);
    assert forall|k: Seq<char>| k != key implies table_get(u, k) == table_get(t, k) by {
        lemma_table_get_spec(t, k);
        match table_get(t, k) {
            Some(w) => {
                let j = choose|j: int| 0 <= j < t.len() && t[j].0 == k && t[j].1 == w;
                assert(u[j] == t[j]);
                lemma_table_get_index(u, j);
            },
            None => {
                assert forall|j: int| 0 <= j < u.len() implies u[j].0 != k by {
                    if j < t.len() {
                        assert(u[j] == t[j]);
                    }
                }
                lemma_table_get_absent(u, k);
            },
        }
    }
}

} // verus!
