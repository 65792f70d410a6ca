//! Country data (`cty.dat`): entity headers, prefix and callsign aliases with
//! zone overrides, and callsign lookups.
//!
//! The file is a series of entities. A header line
//! `Name: CQ: ITU: Cont: Lat: Lon: TZ: Prefix:` starts an entity; the lines
//! that follow, up to the next header, list its aliases separated by commas
//! and ended by `;`. An alias is a prefix, or a whole callsign when it starts
//! with `=`, and may carry `(cq)` and `[itu]` zone overrides and `{..}`,
//! `<..>`, `~..~` groups that are skipped.

use vstd::prelude::*;
use crate::num::{parse_unsigned, parse_unsigned_chars};
use crate::text::{
    chars_eq, chars_of, chars_starts_with, count_char, count_chars_eq, slice_chars, split_char,
    split_chars, string_of, to_upper, trim, trim_chars, trim_end_char, trim_end_matches,
    trim_start_char, trim_start_matches, unicode_upper, all_ascii, ascii_upper,
};

verus! {

// ---------------------------------------------------------------------------
// Model
// ---------------------------------------------------------------------------

/// An entity as the header line gives it.
pub struct SpecEntity {
    pub name: Seq<char>,
    pub cq_zone: u8,
    pub itu_zone: u8,
    pub continent: Seq<char>,
    pub primary_prefix: Seq<char>,
}

/// What a prefix or callsign alias maps to.
pub struct SpecEntry {
    pub cq_zone: u8,
    pub itu_zone: u8,
    pub is_exact: bool,
    pub country_prefix: Seq<char>,
}

/// The lookup tables: exact callsigns and prefixes, each with its entry, in
/// the order the file gives them.
pub struct SpecCty {
    pub exact: Seq<(Seq<char>, SpecEntry)>,
    pub prefixes: Seq<(Seq<char>, SpecEntry)>,
}

/// A zone number field: its value when it parses as a `u8`, else 0.
pub open spec fn zone_or_zero(s: Seq<char>) -> u8 {
    match parse_unsigned(s, 255) {
        Some(v) => v as u8,
        None => 0,
    }
}

/// A zone override's digits, when they parse as a `u8`.
pub open spec fn zone_opt(s: Seq<char>) -> Option<u8> {
    match parse_unsigned(s, 255) {
        Some(v) => Some(v as u8),
        None => None,
    }
}

/// A header line: at least seven colons, not ending with `;` or `,`.
pub open spec fn is_header(line: Seq<char>) -> bool {
    count_char(line, ':') >= 7 && !(line.len() > 0 && (line.last() == ';' || line.last() == ','))
}

/// The entity a header line describes, when it has at least eight fields.
pub open spec fn header_entity(line: Seq<char>) -> Option<SpecEntity> {
    let parts = split_char(line, ':');
    if parts.len() < 8 {
        None
    } else {
        Some(
            SpecEntity {
                name: trim(parts[0]),
                cq_zone: zone_or_zero(trim(parts[1])),
                itu_zone: zone_or_zero(trim(parts[2])),
                continent: trim(parts[3]),
                primary_prefix: trim_start_char(trim(parts[7]), '*'),
            },
        )
    }
}

/// Index of the first `c` at or after `k`, or the length when there is none.
pub open spec fn find_from(s: Seq<char>, k: int, c: char) -> int
    decreases s.len() - k,
{
    if k >= s.len() {
        s.len() as int
    } else if s[k] == c {
        k
    } else {
        find_from(s, k + 1, c)
    }
}

/// Where a group opened at `i` and closed by `c` ends: past the closer, or at
/// the end of the text when it is not closed.
pub open spec fn after_group(s: Seq<char>, i: int, c: char) -> int {
    let j = find_from(s, i + 1, c);
    if j < s.len() {
        j + 1
    } else {
        j
    }
}

/// State of an alias scan: the characters kept and the zone overrides seen.
pub struct AliasScan {
    pub text: Seq<char>,
    pub cq: Option<u8>,
    pub itu: Option<u8>,
}

/// Scans an alias from index `i`: `(n)` sets the CQ override, `[n]` the ITU
/// override (the last group wins, and digits that do not parse clear it),
/// `{..}`, `<..>` and `~..~` are dropped, and other characters are kept.
pub open spec fn scan_alias(s: Seq<char>, i: int, st: AliasScan) -> AliasScan
    decreases s.len() - i,
{
    if i < 0 || i >= s.len() {
        st
    } else {
        let c = s[i];
        proof {
            lemma_find_from_bounds(s, i + 1, ')');
            lemma_find_from_bounds(s, i + 1, ']');
            lemma_find_from_bounds(s, i + 1, '}');
            lemma_find_from_bounds(s, i + 1, '>');
            lemma_find_from_bounds(s, i + 1, '~');
        }
        if c == '(' {
            let j = find_from(s, i + 1, ')');
            scan_alias(
                s,
                after_group(s, i, ')'),
                AliasScan { cq: zone_opt(s.subrange(i + 1, j)), ..st },
            )
        } else if c == '[' {
            let j = find_from(s, i + 1, ']');
            scan_alias(
                s,
                after_group(s, i, ']'),
                AliasScan { itu: zone_opt(s.subrange(i + 1, j)), ..st },
            )
        } else if c == '{' {
            scan_alias(s, after_group(s, i, '}'), st)
        } else if c == '<' {
            scan_alias(s, after_group(s, i, '>'), st)
        } else if c == '~' {
            scan_alias(s, after_group(s, i, '~'), st)
        } else {
            scan_alias(s, i + 1, AliasScan { text: st.text.push(c), ..st })
        }
    }
}

/// An alias: (callsign or prefix, CQ override, ITU override, exact match).
pub open spec fn alias_parts(alias: Seq<char>) -> (Seq<char>, Option<u8>, Option<u8>, bool) {
    let exact = alias.len() > 0 && alias[0] == '=';
    let body = if exact {
        alias.drop_first()
    } else {
        alias
    };
    let st = scan_alias(body, 0, AliasScan { text: Seq::empty(), cq: None, itu: None });
    (st.text, st.cq, st.itu, exact)
}

/// A search for `c` from `k` ends at the first `c` at or after `k`, or at the end.
pub proof fn lemma_find_from_bounds(s: Seq<char>, k: int, c: char)
    requires
        0 <= k,
    ensures
        k <= find_from(s, k, c) || k > s.len(),
        find_from(s, k, c) <= s.len(),
        find_from(s, k, c) < s.len() ==> s[find_from(s, k, c)] == c,
        forall|m: int| k <= m < find_from(s, k, c) ==> s[m] != c,
    decreases s.len() - k,
{
    if k < s.len() && s[k] != c {
        lemma_find_from_bounds(s, k + 1, c);
    }
}

// ---------------------------------------------------------------------------
// Entities and aliases
// ---------------------------------------------------------------------------

/// Parsed entry from cty.dat representing a DXCC entity.
#[derive(Debug, Clone)]
pub struct DxccEntity {
    pub name: String,
    pub cq_zone: u8,
    pub itu_zone: u8,
    pub continent: String,
    pub primary_prefix: String,
}

impl DxccEntity {
    pub open spec fn view_entity(&self) -> SpecEntity {
        SpecEntity {
            name: self.name@,
            cq_zone: self.cq_zone,
            itu_zone: self.itu_zone,
            continent: self.continent@,
            primary_prefix: self.primary_prefix@,
        }
    }
}

/// Zone field value, 0 when it does not parse.
fn zone_field(v: &[char]) -> (z: u8)
    ensures
        z == zone_or_zero(v@),
{
    match parse_unsigned_chars(v, 255) {
        Some(x) => x as u8,
        None => 0,
    }
}

/// Index of the first `c` at or after `k`, or the length.
fn find_from_exec(v: &[char], k: usize, c: char) -> (j: usize)
    requires
        k <= v@.len(),
    ensures
        j == find_from(v@, k as int, c),
{
    let mut j = k;
    while j < v.len() && v[j] != c
        invariant
            k <= j <= v@.len(),
            find_from(v@, k as int, c) == find_from(v@, j as int, c),
        decreases v@.len() - j,
    {
        j = j + 1;
    }
    j
}

pub fn is_header_chars(line: &[char]) -> (b: bool)
    ensures
        b == is_header(line@),
{
    let colons = count_chars_eq(line, ':');
    let n = line.len();
    colons >= 7 && !(n > 0 && (line[n - 1] == ';' || line[n - 1] == ','))
}

pub fn parse_header_chars(line: &[char]) -> (r: Option<DxccEntity>)
    ensures
        match r {
            Some(e) => header_entity(line@) == Some(e.view_entity()),
            None => header_entity(line@) is None,
        },
{
    let parts = split_chars(line, ':');
    if parts.len() < 8 {
        return None;
    }
    let name = trim_chars(parts[0].as_slice());
    let cq = trim_chars(parts[1].as_slice());
    let itu = trim_chars(parts[2].as_slice());
    let continent = trim_chars(parts[3].as_slice());
    let prefix = trim_chars(parts[7].as_slice());
    let prefix = trim_start_matches(prefix.as_slice(), '*');
    Some(
        DxccEntity {
            name: string_of(name.as_slice()),
            cq_zone: zone_field(cq.as_slice()),
            itu_zone: zone_field(itu.as_slice()),
            continent: string_of(continent.as_slice()),
            primary_prefix: string_of(prefix.as_slice()),
        },
    )
}

/// Scans an alias (after any leading `=`) into its text and zone overrides.
fn scan_alias_exec(s: &[char]) -> (r: (Vec<char>, Option<u8>, Option<u8>))
    ensures
        ({
            let st = scan_alias(s@, 0, AliasScan { text: Seq::empty(), cq: None, itu: None });
            r.0@ == st.text && r.1 == st.cq && r.2 == st.itu
        }),
{
    let ghost init = AliasScan { text: Seq::empty(), cq: None, itu: None };
    let mut text: Vec<char> = Vec::new();
    let mut cq: Option<u8> = None;
    let mut itu: Option<u8> = None;
    let mut i: usize = 0;
    while i < s.len()
        invariant
            i <= s@.len(),
            scan_alias(s@, 0, init) == scan_alias(
                s@,
                i as int,
                AliasScan { text: text@, cq: cq, itu: itu },
            ),
        decreases s@.len() - i,
    {
        let c = s[i];
        if c == '(' || c == '[' || c == '{' || c == '<' || c == '~' {
            let closer = if c == '(' {
                ')'
            } else if c == '[' {
                ']'
            } else if c == '{' {
                '}'
            } else if c == '<' {
                '>'
            } else {
                '~'
            };
            let j = find_from_exec(s, i + 1, closer);
            proof {
                lemma_find_from_bounds(s@, i + 1, closer);
            }
            if c == '(' {
                let num = slice_chars(s, i + 1, j);
                cq = zone_opt_exec(num.as_slice());
            } else if c == '[' {
                let num = slice_chars(s, i + 1, j);
                itu = zone_opt_exec(num.as_slice());
            }
            i = if j < s.len() {
                j + 1
            } else {
                j
            };
        } else {
            text.push(c);
            i = i + 1;
        }
    }
    (text, cq, itu)
}

fn zone_opt_exec(v: &[char]) -> (z: Option<u8>)
    ensures
        z == zone_opt(v@),
{
    match parse_unsigned_chars(v, 255) {
        Some(x) => Some(x as u8),
        None => None,
    }
}

/// An alias as characters: (callsign or prefix, CQ override, ITU override, exact).
pub fn parse_alias_chars(alias: &[char]) -> (r: (Vec<char>, Option<u8>, Option<u8>, bool))
    ensures
        (r.0@, r.1, r.2, r.3) == alias_parts(alias@),
{
    let exact = alias.len() > 0 && alias[0] == '=';
    let body = if exact {
        slice_chars(alias, 1, alias.len())
    } else {
        slice_chars(alias, 0, alias.len())
    };
    assert(body@ =~= (if exact {
        alias@.drop_first()
    } else {
        alias@
    }));
    let (text, cq, itu) = scan_alias_exec(body.as_slice());
    (text, cq, itu, exact)
}

// ---------------------------------------------------------------------------
// The whole file
// ---------------------------------------------------------------------------

/// The entry an alias of `entity` adds: (exact, uppercased key, entry).
pub open spec fn alias_entry(alias: Seq<char>, entity: SpecEntity) -> (bool, Seq<char>, SpecEntry) {
    let parts = alias_parts(alias);
    (
        parts.3,
        unicode_upper(parts.0),
        SpecEntry {
            cq_zone: match parts.1 {
                Some(z) => z,
                None => entity.cq_zone,
            },
            itu_zone: match parts.2 {
                Some(z) => z,
                None => entity.itu_zone,
            },
            is_exact: parts.3,
            country_prefix: unicode_upper(entity.primary_prefix),
        },
    )
}

/// Adds one comma-separated item of an alias list (skipped when blank).
pub open spec fn add_alias_item(db: SpecCty, item: Seq<char>, entity: SpecEntity) -> SpecCty {
    let a = trim(item);
    if a.len() == 0 {
        db
    } else {
        let (exact, key, e) = alias_entry(a, entity);
        if exact {
            SpecCty { exact: db.exact.push((key, e)), prefixes: db.prefixes }
        } else {
            SpecCty { exact: db.exact, prefixes: db.prefixes.push((key, e)) }
        }
    }
}

pub open spec fn add_alias_items(db: SpecCty, items: Seq<Seq<char>>, entity: SpecEntity) -> SpecCty
    decreases items.len(),
{
    if items.len() == 0 {
        db
    } else {
        add_alias_item(add_alias_items(db, items.drop_last(), entity), items.last(), entity)
    }
}

/// Adds an entity's alias text: trimmed, trailing `;` dropped, split on `,`.
pub open spec fn add_aliases(db: SpecCty, aliases: Seq<char>, entity: SpecEntity) -> SpecCty {
    add_alias_items(db, split_char(trim_end_char(trim(aliases), ';'), ','), entity)
}

/// Parser state between lines.
pub struct ParseState {
    pub db: SpecCty,
    pub entity: Option<SpecEntity>,
    pub buffer: Seq<char>,
}

pub open spec fn flush(st: ParseState) -> SpecCty {
    match st.entity {
        Some(e) => add_aliases(st.db, st.buffer, e),
        None => st.db,
    }
}

/// One line: blank lines are skipped; a header flushes the aliases of the
/// entity before it and starts a new one; any other line is added, with a
/// trailing space, to the alias text.
pub open spec fn parse_step(st: ParseState, raw: Seq<char>) -> ParseState {
    let line = trim(raw);
    if line.len() == 0 {
        st
    } else if is_header(line) {
        ParseState { db: flush(st), entity: header_entity(line), buffer: Seq::empty() }
    } else {
        ParseState { db: st.db, entity: st.entity, buffer: st.buffer + line.push(' ') }
    }
}

pub open spec fn empty_cty() -> SpecCty {
    SpecCty { exact: Seq::empty(), prefixes: Seq::empty() }
}

pub open spec fn parse_lines(lines: Seq<Seq<char>>) -> ParseState
    decreases lines.len(),
{
    if lines.len() == 0 {
        ParseState { db: empty_cty(), entity: None, buffer: Seq::empty() }
    } else {
        parse_step(parse_lines(lines.drop_last()), lines.last())
    }
}

/// The tables a `cty.dat` text gives (its lines are split on `\n`; trimming
/// removes any `\r`).
pub open spec fn parse_cty(content: Seq<char>) -> SpecCty {
    flush(parse_lines(split_char(content, '\n')))
}

/// The lines of a text that the parser reads: each trimmed, blank ones left
/// out.
pub open spec fn content_lines(lines: Seq<Seq<char>>) -> Seq<Seq<char>>
    decreases lines.len(),
{
    if lines.len() == 0 {
        Seq::empty()
    } else if trim(lines.last()).len() == 0 {
        content_lines(lines.drop_last())
    } else {
        content_lines(lines.drop_last()).push(trim(lines.last()))
    }
}

proof fn lemma_parse_lines_content(lines: Seq<Seq<char>>)
    ensures
        parse_lines(lines) == parse_lines(content_lines(lines)),
    decreases lines.len(),
{
    if lines.len() > 0 {
        lemma_parse_lines_content(lines.drop_last());
        crate::text::lemma_trim_idem(lines.last());
        let c = content_lines(lines);
        if trim(lines.last()).len() > 0 {
            assert(c.drop_last() =~= content_lines(lines.drop_last()));
        }
    }
}

/// Parsing ignores layout: two texts whose lines are the same once trimmed
/// and with blank lines left out give the same tables.
pub proof fn lemma_parse_ignores_layout(c1: Seq<char>, c2: Seq<char>)
    requires
        content_lines(split_char(c1, '\n')) == content_lines(split_char(c2, '\n')),
    ensures
        parse_cty(c1) == parse_cty(c2),
{
    lemma_parse_lines_content(split_char(c1, '\n'));
    lemma_parse_lines_content(split_char(c2, '\n'));
}

proof fn lemma_no_header_lines(lines: Seq<Seq<char>>)
    requires
        forall|i: int| 0 <= i < lines.len() ==> !is_header(trim(#[trigger] lines[i])),
    ensures
        parse_lines(lines).entity is None,
        parse_lines(lines).db == empty_cty(),
    decreases lines.len(),
{
    if lines.len() > 0 {
        assert forall|i: int| 0 <= i < lines.drop_last().len() implies !is_header(trim(#[trigger] lines.drop_last()[i])) by {
            assert(lines.drop_last()[i] == lines[i]);
        }
        lemma_no_header_lines(lines.drop_last());
        assert(!is_header(trim(lines[lines.len() - 1])));
    }
}

/// A text without a header line gives no entry: every lookup finds nothing.
pub proof fn lemma_no_header_no_entries(content: Seq<char>, call: Seq<char>)
    requires
        forall|i: int|
            0 <= i < split_char(content, '\n').len() ==> !is_header(trim(#[trigger] split_char(content, '\n')[i])),
    ensures
        parse_cty(content) == empty_cty(),
        lookup_entry(parse_cty(content), call) is None,
{
    lemma_no_header_lines(split_char(content, '\n'));
}

/// UTF-8 width of a character (`char::len_utf8`).
pub open spec fn utf8_width(c: char) -> nat {
    if (c as u32) < 0x80 {
        1
    } else if (c as u32) < 0x800 {
        2
    } else if (c as u32) < 0x10000 {
        3
    } else {
        4
    }
}

/// Byte length of the UTF-8 encoding (`str::len`).
pub open spec fn utf8_len(s: Seq<char>) -> nat
    decreases s.len(),
{
    if s.len() == 0 {
        0
    } else {
        utf8_len(s.drop_last()) + utf8_width(s.last())
    }
}

/// The last exact entry for `call` (a later one replaces an earlier one).
pub open spec fn exact_find(ex: Seq<(Seq<char>, SpecEntry)>, call: Seq<char>) -> Option<SpecEntry>
    decreases ex.len(),
{
    if ex.len() == 0 {
        None
    } else if ex.last().0 == call {
        Some(ex.last().1)
    } else {
        exact_find(ex.drop_last(), call)
    }
}

/// The longest prefix (in bytes) of `call` in the list, the first of the
/// longest ones when several have that length.
pub open spec fn best_prefix(ps: Seq<(Seq<char>, SpecEntry)>, call: Seq<char>) -> Option<
    (Seq<char>, SpecEntry),
>
    decreases ps.len(),
{
    if ps.len() == 0 {
        None
    } else {
        let r = best_prefix(ps.drop_last(), call);
        let p = ps.last();
        let longer = match r {
            Some(b) => utf8_len(p.0) > utf8_len(b.0),
            None => true,
        };
        if p.0.is_prefix_of(call) && longer {
            Some(p)
        } else {
            r
        }
    }
}

/// The entry for an uppercased callsign: an exact match first, else the
/// longest matching prefix.
pub open spec fn lookup_entry(db: SpecCty, call: Seq<char>) -> Option<SpecEntry> {
    match exact_find(db.exact, call) {
        Some(e) => Some(e),
        None => match best_prefix(db.prefixes, call) {
            Some(p) => Some(p.1),
            None => None,
        },
    }
}

/// The CQ zone found for an uppercased callsign.
pub open spec fn cq_zone_of(db: SpecCty, call: Seq<char>) -> Option<u8> {
    match lookup_entry(db, call) {
        Some(e) => Some(e.cq_zone),
        None => None,
    }
}

/// The CQ and ITU zones found for an uppercased callsign.
pub open spec fn zones_of(db: SpecCty, call: Seq<char>) -> Option<(u8, u8)> {
    match lookup_entry(db, call) {
        Some(e) => Some((e.cq_zone, e.itu_zone)),
        None => None,
    }
}

/// The country prefix found for an uppercased callsign.
pub open spec fn prefix_of(db: SpecCty, call: Seq<char>) -> Option<Seq<char>> {
    match lookup_entry(db, call) {
        Some(e) => Some(e.country_prefix),
        None => None,
    }
}

/// An ASCII text with its lowercase letters made capitals.
pub open spec fn ascii_upper_text(s: Seq<char>) -> Seq<char> {
    s.map_values(|c: char| ascii_upper(c))
}

/// For ASCII callsigns the lookups ignore case: two callsigns that are the
/// same once capitalized find the same zones and prefix.
pub proof fn lemma_lookup_ignores_ascii_case(db: SpecCty, c1: Seq<char>, c2: Seq<char>)
    requires
        ascii_upper_text(c1) == ascii_upper_text(c2),
    ensures
        cq_zone_of(db, ascii_upper_text(c1)) == cq_zone_of(db, ascii_upper_text(c2)),
        zones_of(db, ascii_upper_text(c1)) == zones_of(db, ascii_upper_text(c2)),
        prefix_of(db, ascii_upper_text(c1)) == prefix_of(db, ascii_upper_text(c2)),
{
}

/// The three lookups agree: they find an entry for the same callsigns, and
/// the zones' CQ zone is the CQ zone found.
pub proof fn lemma_lookups_agree(db: SpecCty, call: Seq<char>)
    ensures
        (zones_of(db, call) is Some) == (cq_zone_of(db, call) is Some),
        (zones_of(db, call) is Some) == (prefix_of(db, call) is Some),
        zones_of(db, call) matches Some(z) ==> cq_zone_of(db, call) == Some(z.0),
{
}

/// A prefix or callsign entry with optional zone overrides.
#[derive(Debug, Clone)]
struct PrefixEntry {
    cq_zone: u8,
    itu_zone: u8,
    is_exact: bool,
    country_prefix: String,
}

impl PrefixEntry {
    spec fn view_entry(&self) -> SpecEntry {
        SpecEntry {
            cq_zone: self.cq_zone,
            itu_zone: self.itu_zone,
            is_exact: self.is_exact,
            country_prefix: self.country_prefix@,
        }
    }
}

spec fn table_view(v: Seq<(Vec<char>, PrefixEntry)>) -> Seq<(Seq<char>, SpecEntry)> {
    Seq::new(v.len(), |i: int| (v[i].0@, v[i].1.view_entry()))
}

proof fn lemma_table_view_push(v: Seq<(Vec<char>, PrefixEntry)>, x: (Vec<char>, PrefixEntry))
    ensures
        table_view(v.push(x)) == table_view(v).push((x.0@, x.1.view_entry())),
{
    assert(table_view(v.push(x)) =~= table_view(v).push((x.0@, x.1.view_entry())));
}

/// Whether two callsigns are from the same country of a table: both are
/// known and have the same country prefix.
pub open spec fn same_country_in(db: SpecCty, call1: Seq<char>, call2: Seq<char>) -> bool {
    lookup_entry(db, unicode_upper(call1)) matches Some(e1) && lookup_entry(db, unicode_upper(call2)) matches Some(
        e2,
    ) && e1.country_prefix == e2.country_prefix
}

/// CTY.DAT database for callsign lookups.
pub struct CtyDat {
    /// Exact callsign entries, in file order.
    exact_calls: Vec<(Vec<char>, PrefixEntry)>,
    /// Prefix entries, in file order.
    prefixes: Vec<(Vec<char>, PrefixEntry)>,
}

fn char_utf8_width(c: char) -> (w: usize)
    ensures
        w == utf8_width(c),
{
    let code: u32 = c as u32;
    if code < 0x80 {
        1
    } else if code < 0x800 {
        2
    } else if code < 0x10000 {
        3
    } else {
        4
    }
}

/// Every character takes at least one byte.
pub proof fn lemma_utf8_len_chars(s: Seq<char>)
    ensures
        utf8_len(s) >= s.len(),
    decreases s.len(),
{
    if s.len() > 0 {
        lemma_utf8_len_chars(s.drop_last());
    }
}

/// A non-empty string takes at least one byte.
pub proof fn lemma_utf8_len_pos(s: Seq<char>)
    ensures
        s.len() > 0 ==> utf8_len(s) >= 1,
{
    lemma_utf8_len_chars(s);
}

proof fn lemma_utf8_len_bound(s: Seq<char>)
    ensures
        utf8_len(s) <= 4 * s.len(),
    decreases s.len(),
{
    if s.len() > 0 {
        lemma_utf8_len_bound(s.drop_last());
    }
}

pub fn utf8_len_exec(v: &[char]) -> (n: u128)
    ensures
        n == utf8_len(v@),
{
    let mut n: u128 = 0;
    let mut i: usize = 0;
    while i < v.len()
        invariant
            i <= v@.len(),
            n == utf8_len(v@.take(i as int)),
            n <= 4 * i,
        decreases v@.len() - i,
    {
        assert(v@.take(i + 1).drop_last() =~= v@.take(i as int));
        n = n + (char_utf8_width(v[i]) as u128);
        i = i + 1;
    }
    assert(v@.take(v@.len() as int) =~= v@);
    n
}

proof fn lemma_exact_find_skip(ex: Seq<(Seq<char>, SpecEntry)>, i: int, call: Seq<char>)
    requires
        0 < i <= ex.len(),
        ex[i - 1].0 != call,
    ensures
        exact_find(ex.take(i), call) == exact_find(ex.take(i - 1), call),
{
    assert(ex.take(i).drop_last() =~= ex.take(i - 1));
}

impl CtyDat {
    /// The lookup tables as sequences.
    pub closed spec fn view_cty(&self) -> SpecCty {
        SpecCty { exact: table_view(self.exact_calls@), prefixes: table_view(self.prefixes@) }
    }

    /// A database with no entries.
    pub fn empty() -> (c: Self)
        ensures
            c.view_cty() == empty_cty(),
    {
        let c = CtyDat { exact_calls: Vec::new(), prefixes: Vec::new() };
        assert(c.view_cty().exact =~= Seq::<(Seq<char>, SpecEntry)>::empty());
        assert(c.view_cty().prefixes =~= Seq::<(Seq<char>, SpecEntry)>::empty());
        c
    }

    /// Whether a (trimmed) line is an entity header.
    pub fn is_header_line(line: &str) -> (b: bool)
        ensures
            b == is_header(line@),
    {
        let v = chars_of(line);
        is_header_chars(v.as_slice())
    }

    /// Parses a header line into an entity.
    pub fn parse_header(line: &str) -> (r: Option<DxccEntity>)
        ensures
            match r {
                Some(e) => header_entity(line@) == Some(e.view_entity()),
                None => header_entity(line@) is None,
            },
    {
        let v = chars_of(line);
        parse_header_chars(v.as_slice())
    }

    /// Parses one alias: (callsign or prefix, CQ override, ITU override, exact).
    pub fn parse_alias(alias: &str) -> (r: (String, Option<u8>, Option<u8>, bool))
        ensures
            (r.0@, r.1, r.2, r.3) == alias_parts(alias@),
    {
        let v = chars_of(alias);
        let (text, cq, itu, exact) = parse_alias_chars(v.as_slice());
        (string_of(text.as_slice()), cq, itu, exact)
    }

    /// Adds the alias text of an entity to the tables.
    fn parse_aliases(&mut self, aliases: &[char], entity: &DxccEntity)
        ensures
            final(self).view_cty() == add_aliases(old(self).view_cty(), aliases@, entity.view_entity()),
    {
        let t = trim_chars(aliases);
        let t = trim_end_matches(t.as_slice(), ';');
        let items = split_chars(t.as_slice(), ',');
        let ghost sitems = split_char(trim_end_char(trim(aliases@), ';'), ',');
        let country = to_upper(entity.primary_prefix.as_str());
        let mut k: usize = 0;
        let ghost start = old(self).view_cty();
        assert(sitems.take(0) =~= Seq::<Seq<char>>::empty());
        while k < items.len()
            invariant
                k <= items@.len(),
                items@.len() == sitems.len(),
                forall|j: int| 0 <= j < items@.len() ==> #[trigger] items@[j]@ == sitems[j],
                country@ == unicode_upper(entity.primary_prefix@),
                self.view_cty() == add_alias_items(start, sitems.take(k as int), entity.view_entity()),
            decreases items@.len() - k,
        {
            let ghost before = self.view_cty();
            assert(sitems.take(k + 1).drop_last() =~= sitems.take(k as int));
            assert(sitems.take(k + 1).last() == items@[k as int]@);
            let a = trim_chars(items[k].as_slice());
            if a.len() > 0 {
                let (call, cq, itu, exact) = parse_alias_chars(a.as_slice());
                let call_s = string_of(call.as_slice());
                let key_s = to_upper(call_s.as_str());
                let key = chars_of(key_s.as_str());
                let entry = PrefixEntry {
                    cq_zone: match cq {
                        Some(z) => z,
                        None => entity.cq_zone,
                    },
                    itu_zone: match itu {
                        Some(z) => z,
                        None => entity.itu_zone,
                    },
                    is_exact: exact,
                    country_prefix: country.clone(),
                };
                if exact {
                    proof {
                        lemma_table_view_push(self.exact_calls@, (key, entry));
                    }
                    self.exact_calls.push((key, entry));
                } else {
                    proof {
                        lemma_table_view_push(self.prefixes@, (key, entry));
                    }
                    self.prefixes.push((key, entry));
                }
            }
            k = k + 1;
        }
        assert(sitems.take(sitems.len() as int) =~= sitems);
    }

    /// Parses `cty.dat` content.
    pub fn parse(content: &str) -> (c: Self)
        ensures
            c.view_cty() == parse_cty(content@),
    {
        let chars = chars_of(content);
        let lines = split_chars(chars.as_slice(), '\n');
        let ghost slines = split_char(content@, '\n');
        let mut db = CtyDat::empty();
        let mut entity: Option<DxccEntity> = None;
        let mut buffer: Vec<char> = Vec::new();
        let mut k: usize = 0;
        assert(slines.take(0) =~= Seq::<Seq<char>>::empty());
        while k < lines.len()
            invariant
                k <= lines@.len(),
                lines@.len() == slines.len(),
                forall|j: int| 0 <= j < lines@.len() ==> #[trigger] lines@[j]@ == slines[j],
                ({
                    let st = parse_lines(slines.take(k as int));
                    &&& db.view_cty() == st.db
                    &&& buffer@ == st.buffer
                    &&& match entity {
                        Some(e) => st.entity == Some(e.view_entity()),
                        None => st.entity is None,
                    }
                }),
            decreases lines@.len() - k,
        {
            assert(slines.take(k + 1).drop_last() =~= slines.take(k as int));
            assert(slines.take(k + 1).last() == lines@[k as int]@);
            let line = trim_chars(lines[k].as_slice());
            if line.len() > 0 {
                if is_header_chars(line.as_slice()) {
                    match &entity {
                        Some(e) => db.parse_aliases(buffer.as_slice(), e),
                        None => {},
                    }
                    buffer = Vec::new();
                    entity = parse_header_chars(line.as_slice());
                } else {
                    let ghost b0 = buffer@;
                    let mut j: usize = 0;
                    while j < line.len()
                        invariant
                            j <= line@.len(),
                            buffer@ == b0 + line@.take(j as int),
                        decreases line@.len() - j,
                    {
                        buffer.push(line[j]);
                        j = j + 1;
                        assert(buffer@ =~= b0 + line@.take(j as int));
                    }
                    buffer.push(' ');
                    assert(line@.take(line@.len() as int) =~= line@);
                    assert(buffer@ =~= b0 + line@.push(' '));
                }
            }
            k = k + 1;
        }
        assert(slines.take(slines.len() as int) =~= slines);
        match &entity {
            Some(e) => db.parse_aliases(buffer.as_slice(), e),
            None => {},
        }
        db
    }

    fn find_entry(&self, call: &[char]) -> (r: Option<&PrefixEntry>)
        ensures
            match r {
                Some(e) => lookup_entry(self.view_cty(), call@) == Some(e.view_entry()),
                None => lookup_entry(self.view_cty(), call@) is None,
            },
    {
        let ghost ex = self.view_cty().exact;
        let mut i = self.exact_calls.len();
        assert(ex.take(ex.len() as int) =~= ex);
        while i > 0
            invariant
                i <= self.exact_calls@.len(),
                ex == self.view_cty().exact,
                exact_find(ex, call@) == exact_find(ex.take(i as int), call@),
            decreases i,
        {
            if chars_eq(self.exact_calls[i - 1].0.as_slice(), call) {
                assert(ex.take(i as int).last() == ex[i - 1]);
                return Some(&self.exact_calls[i - 1].1);
            }
            proof {
                lemma_exact_find_skip(ex, i as int, call@);
            }
            i = i - 1;
        }
        assert(ex.take(0) =~= Seq::<(Seq<char>, SpecEntry)>::empty());
        let ghost ps = self.view_cty().prefixes;
        let mut best: Option<usize> = None;
        let mut best_len: u128 = 0;
        let mut k: usize = 0;
        assert(ps.take(0) =~= Seq::<(Seq<char>, SpecEntry)>::empty());
        while k < self.prefixes.len()
            invariant
                k <= self.prefixes@.len(),
                ps == self.view_cty().prefixes,
                match best {
                    Some(b) => b < k && best_prefix(ps.take(k as int), call@) == Some(ps[b as int])
                        && best_len == utf8_len(ps[b as int].0),
                    None => best_prefix(ps.take(k as int), call@) is None,
                },
            decreases self.prefixes@.len() - k,
        {
            assert(ps.take(k + 1).drop_last() =~= ps.take(k as int));
            assert(ps.take(k + 1).last() == ps[k as int]);
            let key = &self.prefixes[k].0;
            if chars_starts_with(call, key.as_slice()) {
                let len = utf8_len_exec(key.as_slice());
                let longer = match best {
                    Some(_) => len > best_len,
                    None => true,
                };
                if longer {
                    best = Some(k);
                    best_len = len;
                }
            }
            k = k + 1;
        }
        assert(ps.take(ps.len() as int) =~= ps);
        match best {
            Some(b) => Some(&self.prefixes[b].1),
            None => None,
        }
    }

    /// Looks up the CQ zone for a callsign.
    pub fn lookup_cq_zone(&self, callsign: &str) -> (r: Option<u8>)
        ensures
            r == cq_zone_of(self.view_cty(), unicode_upper(callsign@)),
            all_ascii(callsign@) ==> r == cq_zone_of(self.view_cty(), ascii_upper_text(callsign@)),
    {
        let up = to_upper(callsign);
        let call = chars_of(up.as_str());
        match self.find_entry(call.as_slice()) {
            Some(e) => Some(e.cq_zone),
            None => None,
        }
    }

    /// Looks up both the CQ and ITU zones for a callsign.
    pub fn lookup_zones(&self, callsign: &str) -> (r: Option<(u8, u8)>)
        ensures
            r == zones_of(self.view_cty(), unicode_upper(callsign@)),
            all_ascii(callsign@) ==> r == zones_of(self.view_cty(), ascii_upper_text(callsign@)),
    {
        let up = to_upper(callsign);
        let call = chars_of(up.as_str());
        match self.find_entry(call.as_slice()) {
            Some(e) => Some((e.cq_zone, e.itu_zone)),
            None => None,
        }
    }

    /// Looks up the country (primary prefix of its entity) for a callsign.
    pub fn lookup_prefix(&self, callsign: &str) -> (r: Option<String>)
        ensures
            match r {
                Some(p) => prefix_of(self.view_cty(), unicode_upper(callsign@)) == Some(p@),
                None => prefix_of(self.view_cty(), unicode_upper(callsign@)) is None,
            },
            all_ascii(callsign@) ==> match r {
                Some(p) => prefix_of(self.view_cty(), ascii_upper_text(callsign@)) == Some(p@),
                None => prefix_of(self.view_cty(), ascii_upper_text(callsign@)) is None,
            },
    {
        let up = to_upper(callsign);
        let call = chars_of(up.as_str());
        match self.find_entry(call.as_slice()) {
            Some(e) => Some(e.country_prefix.clone()),
            None => None,
        }
    }

    /// Whether two callsigns are from the same country: both are known and
    /// have the same country prefix.
    pub fn same_country(&self, call1: &str, call2: &str) -> (b: bool)
        ensures
            b == same_country_in(self.view_cty(), call1@, call2@),
    {
        match (self.lookup_prefix(call1), self.lookup_prefix(call2)) {
            (Some(p1), Some(p2)) => p1 == p2,
            _ => false,
        }
    }
}

// ---------------------------------------------------------------------------
// Laws
// ---------------------------------------------------------------------------

/// Prefix lookup finds the longest matching prefix: the one it returns is a
/// prefix of the callsign taken from the table, no matching prefix in the
/// table is longer, and it finds none only when no prefix matches.
pub proof fn lemma_best_prefix_is_longest(ps: Seq<(Seq<char>, SpecEntry)>, call: Seq<char>)
    ensures
        match best_prefix(ps, call) {
            Some(b) => {
                &&& b.0.is_prefix_of(call)
                &&& ps.contains(b)
                &&& forall|k: int|
                    0 <= k < ps.len() && (#[trigger] ps[k]).0.is_prefix_of(call) ==> utf8_len(ps[k].0)
                        <= utf8_len(b.0)
            },
            None => forall|k: int| 0 <= k < ps.len() ==> !(#[trigger] ps[k]).0.is_prefix_of(call),
        },
    decreases ps.len(),
{
    if ps.len() > 0 {
        let init = ps.drop_last();
        let p = ps.last();
        lemma_best_prefix_is_longest(init, call);
        assert forall|k: int| 0 <= k < init.len() implies #[trigger] init[k] == ps[k] by {}
        let r = best_prefix(init, call);
        match r {
            Some(b) => {
                let j = choose|j: int| 0 <= j < init.len() && init[j] == b;
                assert(ps[j] == b);
                if p.0.is_prefix_of(call) && utf8_len(p.0) > utf8_len(b.0) {
                    assert(ps[ps.len() - 1] == p);
                    assert forall|k: int|
                        0 <= k < ps.len() && (#[trigger] ps[k]).0.is_prefix_of(call) implies utf8_len(
                        ps[k].0,
                    ) <= utf8_len(p.0) by {
                        if k < ps.len() - 1 {
                            assert(init[k] == ps[k]);
                        }
                    }
                } else {
                    assert forall|k: int|
                        0 <= k < ps.len() && (#[trigger] ps[k]).0.is_prefix_of(call) implies utf8_len(
                        ps[k].0,
                    ) <= utf8_len(b.0) by {
                        if k < ps.len() - 1 {
                            assert(init[k] == ps[k]);
                        } else {
                            assert(ps[k] == p);
                        }
                    }
                }
            },
            None => {
                if p.0.is_prefix_of(call) {
                    assert(ps[ps.len() - 1] == p);
                    assert forall|k: int|
                        0 <= k < ps.len() && (#[trigger] ps[k]).0.is_prefix_of(call) implies utf8_len(
                        ps[k].0,
                    ) <= utf8_len(p.0) by {
                        if k < ps.len() - 1 {
                            assert(init[k] == ps[k]);
                        }
                    }
                } else {
                    assert forall|k: int| 0 <= k < ps.len() implies !(#[trigger] ps[k]).0.is_prefix_of(
                        call,
                    ) by {
                        if k < ps.len() - 1 {
                            assert(init[k] == ps[k]);
                        }
                    }
                }
            },
        }
    }
}

} // verus!
