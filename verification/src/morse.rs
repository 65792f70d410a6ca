//! Morse code: element durations, the character table, and text encoding.

use vstd::prelude::*;
use crate::text::{ascii_upper, chars_of, is_whitespace, is_ws, split_whitespace_chars, to_ascii_upper, ws_words};
use crate::cty::{utf8_len, utf8_len_exec};

verus! {

/// A single Morse code element.
#[derive(Clone, Copy, Debug, PartialEq, Eq, Structural)]
pub enum MorseElement {
    /// One unit of tone.
    Dit,
    /// Three units of tone.
    Dah,
    /// One unit of silence between the elements of a character.
    ElementGap,
    /// Three units of silence between characters.
    CharGap,
    /// Seven units of silence between words.
    WordGap,
}

pub open spec fn element_units(e: MorseElement) -> nat {
    match e {
        MorseElement::Dit => 1,
        MorseElement::Dah => 3,
        MorseElement::ElementGap => 1,
        MorseElement::CharGap => 3,
        MorseElement::WordGap => 7,
    }
}

impl MorseElement {
    /// Duration in units (one unit is the length of a dit).
    pub fn units(&self) -> (u: u32)
        ensures
            u == element_units(*self),
    {
        match self {
            MorseElement::Dit => 1,
            MorseElement::Dah => 3,
            MorseElement::ElementGap => 1,
            MorseElement::CharGap => 3,
            MorseElement::WordGap => 7,
        }
    }

    /// Whether this element is keyed (a dit or a dah).
    pub fn is_tone(&self) -> (b: bool)
        ensures
            b == (*self == MorseElement::Dit || *self == MorseElement::Dah),
    {
        match self {
            MorseElement::Dit => true,
            MorseElement::Dah => true,
            _ => false,
        }
    }
}

/// Samples per unit at the given rate and speed, by the PARIS standard
/// (50 units per word): `sample_rate / (wpm * 50 / 60)`, rounded down and
/// saturated to `usize`. A speed of zero gives the largest `usize`.
pub open spec fn spec_samples_per_unit(sample_rate: u32, wpm: u8) -> nat {
    if wpm == 0 {
        usize::MAX as nat
    } else {
        let v = (sample_rate as nat * 60) / (wpm as nat * 50);
        if v > usize::MAX {
            usize::MAX as nat
        } else {
            v
        }
    }
}

/// Morse timing for one speed at one sample rate.
pub struct MorseTimer {
    sample_rate: u32,
    samples_per_unit: usize,
}

impl MorseTimer {
    pub closed spec fn spec_sample_rate(&self) -> u32 {
        self.sample_rate
    }

    pub closed spec fn spec_unit(&self) -> nat {
        self.samples_per_unit as nat
    }

    pub fn new(sample_rate: u32, wpm: u8) -> (t: Self)
        ensures
            t.spec_sample_rate() == sample_rate,
            t.spec_unit() == spec_samples_per_unit(sample_rate, wpm),
    {
        let samples_per_unit: usize = if wpm == 0 {
            usize::MAX
        } else {
            let num: u64 = (sample_rate as u64) * 60;
            let den: u64 = (wpm as u64) * 50;
            let v: u64 = num / den;
            if v > usize::MAX as u64 {
                usize::MAX
            } else {
                v as usize
            }
        };
        MorseTimer { sample_rate, samples_per_unit }
    }

    /// Samples taken by one element.
    pub fn element_samples(&self, element: MorseElement) -> (n: usize)
        requires
            self.spec_unit() * element_units(element) <= usize::MAX,
        ensures
            n == self.spec_unit() * element_units(element),
    {
        self.samples_per_unit * (element.units() as usize)
    }

    /// Samples per unit (the length of a dit).
    pub fn samples_per_unit(&self) -> (n: usize)
        ensures
            n == self.spec_unit(),
    {
        self.samples_per_unit
    }

    pub fn sample_rate(&self) -> (r: u32)
        ensures
            r == self.spec_sample_rate(),
    {
        self.sample_rate
    }
}

/// The Morse table: A-Z, 0-9, `/`, `?`, `.`, `,` and `=` (BT), for
/// uppercase letters.
pub open spec fn morse_code(c: char) -> Option<Seq<MorseElement>> {
    let i = MorseElement::Dit;
    let a = MorseElement::Dah;
    if c == 'A' { Some(seq![i, a]) }
    else if c == 'B' { Some(seq![a, i, i, i]) }
    else if c == 'C' { Some(seq![a, i, a, i]) }
    else if c == 'D' { Some(seq![a, i, i]) }
    else if c == 'E' { Some(seq![i]) }
    else if c == 'F' { Some(seq![i, i, a, i]) }
    else if c == 'G' { Some(seq![a, a, i]) }
    else if c == 'H' { Some(seq![i, i, i, i]) }
    else if c == 'I' { Some(seq![i, i]) }
    else if c == 'J' { Some(seq![i, a, a, a]) }
    else if c == 'K' { Some(seq![a, i, a]) }
    else if c == 'L' { Some(seq![i, a, i, i]) }
    else if c == 'M' { Some(seq![a, a]) }
    else if c == 'N' { Some(seq![a, i]) }
    else if c == 'O' { Some(seq![a, a, a]) }
    else if c == 'P' { Some(seq![i, a, a, i]) }
    else if c == 'Q' { Some(seq![a, a, i, a]) }
    else if c == 'R' { Some(seq![i, a, i]) }
    else if c == 'S' { Some(seq![i, i, i]) }
    else if c == 'T' { Some(seq![a]) }
    else if c == 'U' { Some(seq![i, i, a]) }
    else if c == 'V' { Some(seq![i, i, i, a]) }
    else if c == 'W' { Some(seq![i, a, a]) }
    else if c == 'X' { Some(seq![a, i, i, a]) }
    else if c == 'Y' { Some(seq![a, i, a, a]) }
    else if c == 'Z' { Some(seq![a, a, i, i]) }
    else if c == '0' { Some(seq![a, a, a, a, a]) }
    else if c == '1' { Some(seq![i, a, a, a, a]) }
    else if c == '2' { Some(seq![i, i, a, a, a]) }
    else if c == '3' { Some(seq![i, i, i, a, a]) }
    else if c == '4' { Some(seq![i, i, i, i, a]) }
    else if c == '5' { Some(seq![i, i, i, i, i]) }
    else if c == '6' { Some(seq![a, i, i, i, i]) }
    else if c == '7' { Some(seq![a, a, i, i, i]) }
    else if c == '8' { Some(seq![a, a, a, i, i]) }
    else if c == '9' { Some(seq![a, a, a, a, i]) }
    else if c == '/' { Some(seq![a, i, i, a, i]) }
    else if c == '?' { Some(seq![i, i, a, a, i, i]) }
    else if c == '.' { Some(seq![i, a, i, a, i, a]) }
    else if c == ',' { Some(seq![a, a, i, i, a, a]) }
    else if c == '=' { Some(seq![a, i, i, i, a]) }
    else { None }
}

/// The characters of the Morse table: capital letters, digits and `/`, `?`,
/// `.`, `,`, `=`.
pub open spec fn in_table(c: char) -> bool {
    ||| 65 <= (c as u32) <= 90
    ||| 48 <= (c as u32) <= 57
    ||| c == '/' || c == '?' || c == '.' || c == ',' || c == '='
}

/// A code read as a number in base 3 behind a leading 1 (dit 1, dah 2).
spec fn code_value(v: Seq<MorseElement>) -> int
    decreases v.len(),
{
    if v.len() == 0 {
        1
    } else {
        3 * code_value(v.drop_last()) + match v.last() {
            MorseElement::Dit => 1int,
            MorseElement::Dah => 2int,
            _ => 0int,
        }
    }
}

/// The code number of each character of the table, written out.
spec fn table_number(c: char) -> int {
    if c == 'A' { 14 }
    else if c == 'B' { 148 }
    else if c == 'C' { 151 }
    else if c == 'D' { 49 }
    else if c == 'E' { 4 }
    else if c == 'F' { 124 }
    else if c == 'G' { 52 }
    else if c == 'H' { 121 }
    else if c == 'I' { 13 }
    else if c == 'J' { 134 }
    else if c == 'K' { 50 }
    else if c == 'L' { 130 }
    else if c == 'M' { 17 }
    else if c == 'N' { 16 }
    else if c == 'O' { 53 }
    else if c == 'P' { 133 }
    else if c == 'Q' { 158 }
    else if c == 'R' { 43 }
    else if c == 'S' { 40 }
    else if c == 'T' { 5 }
    else if c == 'U' { 41 }
    else if c == 'V' { 122 }
    else if c == 'W' { 44 }
    else if c == 'X' { 149 }
    else if c == 'Y' { 152 }
    else if c == 'Z' { 157 }
    else if c == '0' { 485 }
    else if c == '1' { 404 }
    else if c == '2' { 377 }
    else if c == '3' { 368 }
    else if c == '4' { 365 }
    else if c == '5' { 364 }
    else if c == '6' { 445 }
    else if c == '7' { 472 }
    else if c == '8' { 481 }
    else if c == '9' { 484 }
    else if c == '/' { 448 }
    else if c == '?' { 1129 }
    else if c == '.' { 1184 }
    else if c == ',' { 1421 }
    else if c == '=' { 446 }
    else { 0 }
}

proof fn lemma_code_value(c: char)
    requires
        morse_code(c) is Some,
    ensures
        code_value(morse_code(c)->0) == table_number(c),
{
    reveal_with_fuel(code_value, 8);
}

/// The Morse table: exactly the table's characters have a code; a lowercase
/// letter is sent as its capital; every code is a non-empty run of dits and
/// dahs; and different characters of the table have different codes.
pub proof fn lemma_morse_table(c: char, d: char)
    ensures
        (morse_code(c) is Some) == in_table(c),
        has_code(c) == in_table(ascii_upper(c)),
        char_elements(c) == char_elements(ascii_upper(c)),
        morse_code(c) matches Some(v) ==> v.len() > 0 && forall|i: int|
            0 <= i < v.len() ==> v[i] == MorseElement::Dit || v[i] == MorseElement::Dah,
        morse_code(c) is Some && morse_code(c) == morse_code(d) ==> c == d,
{
    if morse_code(c) is Some {
        lemma_code_value(c);
        if morse_code(d) == morse_code(c) {
            lemma_code_value(d);
        }
    }
}

/// Converts a character (either case) to its Morse elements.
pub fn char_to_morse(ch: char) -> (r: Option<Vec<MorseElement>>)
    ensures
        match r {
            Some(v) => morse_code(ascii_upper(ch)) == Some(v@),
            None => morse_code(ascii_upper(ch)) is None,
        },
{
    let i = MorseElement::Dit;
    let a = MorseElement::Dah;
    let c = to_ascii_upper(ch);
    let code: Vec<MorseElement> = if c == 'A' { vec![i, a] }
    else if c == 'B' { vec![a, i, i, i] }
    else if c == 'C' { vec![a, i, a, i] }
    else if c == 'D' { vec![a, i, i] }
    else if c == 'E' { vec![i] }
    else if c == 'F' { vec![i, i, a, i] }
    else if c == 'G' { vec![a, a, i] }
    else if c == 'H' { vec![i, i, i, i] }
    else if c == 'I' { vec![i, i] }
    else if c == 'J' { vec![i, a, a, a] }
    else if c == 'K' { vec![a, i, a] }
    else if c == 'L' { vec![i, a, i, i] }
    else if c == 'M' { vec![a, a] }
    else if c == 'N' { vec![a, i] }
    else if c == 'O' { vec![a, a, a] }
    else if c == 'P' { vec![i, a, a, i] }
    else if c == 'Q' { vec![a, a, i, a] }
    else if c == 'R' { vec![i, a, i] }
    else if c == 'S' { vec![i, i, i] }
    else if c == 'T' { vec![a] }
    else if c == 'U' { vec![i, i, a] }
    else if c == 'V' { vec![i, i, i, a] }
    else if c == 'W' { vec![i, a, a] }
    else if c == 'X' { vec![a, i, i, a] }
    else if c == 'Y' { vec![a, i, a, a] }
    else if c == 'Z' { vec![a, a, i, i] }
    else if c == '0' { vec![a, a, a, a, a] }
    else if c == '1' { vec![i, a, a, a, a] }
    else if c == '2' { vec![i, i, a, a, a] }
    else if c == '3' { vec![i, i, i, a, a] }
    else if c == '4' { vec![i, i, i, i, a] }
    else if c == '5' { vec![i, i, i, i, i] }
    else if c == '6' { vec![a, i, i, i, i] }
    else if c == '7' { vec![a, a, i, i, i] }
    else if c == '8' { vec![a, a, a, i, i] }
    else if c == '9' { vec![a, a, a, a, i] }
    else if c == '/' { vec![a, i, i, a, i] }
    else if c == '?' { vec![i, i, a, a, i, i] }
    else if c == '.' { vec![i, a, i, a, i, a] }
    else if c == ',' { vec![a, a, i, i, a, a] }
    else if c == '=' { vec![a, i, i, i, a] }
    else { return None; };
    proof {
        assert(morse_code(c) == Some(code@));
    }
    Some(code)
}

/// The elements of a code with an element gap between consecutive ones.
pub open spec fn spaced_code(code: Seq<MorseElement>) -> Seq<MorseElement>
    decreases code.len(),
{
    if code.len() <= 1 {
        code
    } else {
        spaced_code(code.drop_last()).push(MorseElement::ElementGap).push(code.last())
    }
}

/// The elements sent for one character: its spaced code, or nothing for a
/// character without a code.
pub open spec fn char_elements(c: char) -> Seq<MorseElement> {
    match morse_code(ascii_upper(c)) {
        Some(code) => spaced_code(code),
        None => Seq::empty(),
    }
}

/// Whether a character (either case) has a Morse code.
pub open spec fn has_code(c: char) -> bool {
    morse_code(ascii_upper(c)) is Some
}

/// The characters of a word that have a code, in order: the others are
/// skipped.
pub open spec fn known_chars(w: Seq<char>) -> Seq<char>
    decreases w.len(),
{
    if w.len() == 0 {
        Seq::empty()
    } else if has_code(w.last()) {
        known_chars(w.drop_last()).push(w.last())
    } else {
        known_chars(w.drop_last())
    }
}

/// The words of a text as they are sent: each reduced to its characters
/// with a code, and words left with none dropped.
pub open spec fn coded_words(ws: Seq<Seq<char>>) -> Seq<Seq<char>>
    decreases ws.len(),
{
    if ws.len() == 0 {
        Seq::empty()
    } else if known_chars(ws.last()).len() > 0 {
        coded_words(ws.drop_last()).push(known_chars(ws.last()))
    } else {
        coded_words(ws.drop_last())
    }
}

/// The elements sent for one word: the characters' elements with a character
/// gap between consecutive characters.
pub open spec fn word_elements(w: Seq<char>) -> Seq<MorseElement>
    decreases w.len(),
{
    if w.len() == 0 {
        Seq::empty()
    } else if w.len() == 1 {
        char_elements(w[0])
    } else {
        word_elements(w.drop_last()).push(MorseElement::CharGap) + char_elements(w.last())
    }
}

/// The elements sent for a list of words: word gaps between the words.
pub open spec fn words_elements(ws: Seq<Seq<char>>) -> Seq<MorseElement>
    decreases ws.len(),
{
    if ws.len() == 0 {
        Seq::empty()
    } else if ws.len() == 1 {
        word_elements(ws[0])
    } else {
        words_elements(ws.drop_last()).push(MorseElement::WordGap) + word_elements(ws.last())
    }
}

/// The elements sent for a text: its whitespace-separated words, with the
/// characters that have no code skipped (and words left empty dropped).
pub open spec fn text_elements(s: Seq<char>) -> Seq<MorseElement> {
    words_elements(coded_words(ws_words(s)))
}

/// A tone (dit or dah), as opposed to a gap.
pub open spec fn tone(e: MorseElement) -> bool {
    e == MorseElement::Dit || e == MorseElement::Dah
}

/// Elements as they can be keyed: empty, or starting and ending with a tone
/// with never two gaps in a row.
pub open spec fn well_spaced(v: Seq<MorseElement>) -> bool {
    v.len() == 0 || (tone(v[0]) && tone(v.last()) && forall|i: int|
        0 <= i < v.len() - 1 ==> tone(#[trigger] v[i]) || tone(v[i + 1]))
}

proof fn lemma_join_spaced(x: Seq<MorseElement>, g: MorseElement, y: Seq<MorseElement>)
    requires
        well_spaced(x),
        well_spaced(y),
        x.len() > 0,
        y.len() > 0,
    ensures
        well_spaced(x.push(g) + y),
        (x.push(g) + y).len() > 0,
{
    let z = x.push(g) + y;
    assert forall|i: int| 0 <= i < z.len() - 1 implies tone(#[trigger] z[i]) || tone(z[i + 1]) by {
        if i < x.len() - 1 {
            assert(z[i] == x[i] && z[i + 1] == x[i + 1]);
        } else if i == x.len() - 1 {
            assert(z[i] == x.last());
        } else if i == x.len() {
            assert(z[i + 1] == y[0]);
        } else {
            assert(z[i] == y[i - x.len() - 1] && z[i + 1] == y[i - x.len()]);
        }
    }
    assert(z[0] == x[0]);
    assert(z.last() == y.last());
}

proof fn lemma_spaced_code(code: Seq<MorseElement>)
    requires
        code.len() > 0,
        forall|i: int| 0 <= i < code.len() ==> tone(#[trigger] code[i]),
    ensures
        well_spaced(spaced_code(code)),
        spaced_code(code).len() > 0,
    decreases code.len(),
{
    if code.len() > 1 {
        let p = code.drop_last();
        assert forall|i: int| 0 <= i < p.len() implies tone(#[trigger] p[i]) by {
            assert(p[i] == code[i]);
        }
        lemma_spaced_code(p);
        assert(seq![code.last()] =~= Seq::empty().push(code.last()));
        lemma_join_spaced(spaced_code(p), MorseElement::ElementGap, seq![code.last()]);
        assert(spaced_code(p).push(MorseElement::ElementGap).push(code.last()) =~= spaced_code(p).push(
            MorseElement::ElementGap,
        ) + seq![code.last()]);
    } else {
        assert(spaced_code(code) == code);
    }
}

proof fn lemma_char_spaced(c: char)
    requires
        has_code(c),
    ensures
        well_spaced(char_elements(c)),
        char_elements(c).len() > 0,
{
    lemma_morse_table(ascii_upper(c), ascii_upper(c));
    let code = morse_code(ascii_upper(c))->0;
    assert forall|i: int| 0 <= i < code.len() implies tone(#[trigger] code[i]) by {}
    lemma_spaced_code(code);
}

proof fn lemma_word_spaced(w: Seq<char>)
    requires
        w.len() > 0,
        forall|i: int| 0 <= i < w.len() ==> has_code(#[trigger] w[i]),
    ensures
        well_spaced(word_elements(w)),
        word_elements(w).len() > 0,
    decreases w.len(),
{
    if w.len() == 1 {
        lemma_char_spaced(w[0]);
    } else {
        let p = w.drop_last();
        assert forall|i: int| 0 <= i < p.len() implies has_code(#[trigger] p[i]) by {
            assert(p[i] == w[i]);
        }
        lemma_word_spaced(p);
        lemma_char_spaced(w.last());
        lemma_join_spaced(word_elements(p), MorseElement::CharGap, char_elements(w.last()));
    }
}

proof fn lemma_known_chars(w: Seq<char>)
    ensures
        forall|i: int| 0 <= i < known_chars(w).len() ==> has_code(#[trigger] known_chars(w)[i]),
    decreases w.len(),
{
    if w.len() > 0 {
        lemma_known_chars(w.drop_last());
        let p = known_chars(w.drop_last());
        if has_code(w.last()) {
            assert forall|i: int| 0 <= i < known_chars(w).len() implies has_code(#[trigger] known_chars(w)[i]) by {
                if i < p.len() {
                    assert(known_chars(w)[i] == p[i]);
                }
            }
        }
    }
}

proof fn lemma_coded_words(ws: Seq<Seq<char>>)
    ensures
        forall|k: int| 0 <= k < coded_words(ws).len() ==> (#[trigger] coded_words(ws)[k]).len() > 0 && forall|i: int|
            0 <= i < coded_words(ws)[k].len() ==> has_code(#[trigger] coded_words(ws)[k][i]),
    decreases ws.len(),
{
    if ws.len() > 0 {
        lemma_coded_words(ws.drop_last());
        lemma_known_chars(ws.last());
        let p = coded_words(ws.drop_last());
        if known_chars(ws.last()).len() > 0 {
            assert forall|k: int| 0 <= k < coded_words(ws).len() implies (#[trigger] coded_words(ws)[k]).len() > 0
                && forall|i: int| 0 <= i < coded_words(ws)[k].len() ==> has_code(#[trigger] coded_words(ws)[k][i]) by {
                if k < p.len() {
                    assert(coded_words(ws)[k] == p[k]);
                }
            }
        }
    }
}

proof fn lemma_words_spaced(ws: Seq<Seq<char>>)
    requires
        forall|k: int| 0 <= k < ws.len() ==> (#[trigger] ws[k]).len() > 0 && forall|i: int|
            0 <= i < ws[k].len() ==> has_code(#[trigger] ws[k][i]),
    ensures
        well_spaced(words_elements(ws)),
        ws.len() > 0 ==> words_elements(ws).len() > 0,
    decreases ws.len(),
{
    if ws.len() == 1 {
        lemma_word_spaced(ws[0]);
    } else if ws.len() > 1 {
        let p = ws.drop_last();
        assert forall|k: int| 0 <= k < p.len() implies (#[trigger] p[k]).len() > 0 && forall|i: int|
            0 <= i < p[k].len() ==> has_code(#[trigger] p[k][i]) by {
            assert(p[k] == ws[k]);
        }
        lemma_words_spaced(p);
        lemma_word_spaced(ws.last());
        lemma_join_spaced(words_elements(p), MorseElement::WordGap, word_elements(ws.last()));
    }
}

/// What a text is sent as can be keyed as it is: it starts and ends with a
/// tone and never has two gaps in a row (characters without a code leave no
/// gap behind).
pub proof fn lemma_text_well_spaced(s: Seq<char>)
    ensures
        well_spaced(text_elements(s)),
{
    lemma_coded_words(ws_words(s));
    lemma_words_spaced(coded_words(ws_words(s)));
}

fn push_spaced(out: &mut Vec<MorseElement>, code: &Vec<MorseElement>)
    ensures
        final(out)@ == old(out)@ + spaced_code(code@),
{
    let mut k: usize = 0;
    assert(spaced_code(code@.take(0)) =~= Seq::<MorseElement>::empty());
    assert(old(out)@ + Seq::<MorseElement>::empty() =~= old(out)@);
    while k < code.len()
        invariant
            k <= code@.len(),
            out@ == old(out)@ + spaced_code(code@.take(k as int)),
        decreases code@.len() - k,
    {
        let ghost t = code@.take(k + 1);
        assert(t.drop_last() =~= code@.take(k as int));
        if k > 0 {
            out.push(MorseElement::ElementGap);
        }
        out.push(code[k]);
        k = k + 1;
        proof {
            if k == 1 {
                assert(code@.take(0) =~= Seq::<MorseElement>::empty());
                assert(t =~= seq![code@[0]]);
            }
        }
        assert(out@ =~= old(out)@ + spaced_code(code@.take(k as int)));
    }
    assert(code@.take(code@.len() as int) =~= code@);
}

fn word_to_morse(w: &Vec<char>, out: &mut Vec<MorseElement>)
    ensures
        final(out)@ == old(out)@ + word_elements(w@),
{
    let mut k: usize = 0;
    assert(w@.take(0) =~= Seq::<char>::empty());
    assert(old(out)@ + Seq::<MorseElement>::empty() =~= old(out)@);
    while k < w.len()
        invariant
            k <= w@.len(),
            out@ == old(out)@ + word_elements(w@.take(k as int)),
        decreases w@.len() - k,
    {
        let ghost before = out@;
        let ghost t = w@.take(k + 1);
        assert(t.drop_last() =~= w@.take(k as int));
        if k > 0 {
            out.push(MorseElement::CharGap);
        }
        let ghost mid = out@;
        match char_to_morse(w[k]) {
            Some(code) => push_spaced(out, &code),
            None => {},
        }
        assert(out@ == mid + char_elements(w@[k as int]));
        k = k + 1;
        proof {
            if k == 1 {
                assert(t =~= seq![w@[0]]);
                assert(out@ =~= old(out)@ + word_elements(t));
            } else {
                assert(out@ =~= old(out)@ + word_elements(t));
            }
        }
    }
    assert(w@.take(w@.len() as int) =~= w@);
}

/// The characters of a word that have a code.
fn known_of(w: &Vec<char>) -> (r: Vec<char>)
    ensures
        r@ == known_chars(w@),
{
    let mut r: Vec<char> = Vec::new();
    let mut k: usize = 0;
    assert(w@.take(0) =~= Seq::<char>::empty());
    while k < w.len()
        invariant
            k <= w@.len(),
            r@ == known_chars(w@.take(k as int)),
        decreases w@.len() - k,
    {
        assert(w@.take(k + 1).drop_last() =~= w@.take(k as int));
        assert(w@.take(k + 1).last() == w@[k as int]);
        if char_to_morse(w[k]).is_some() {
            r.push(w[k]);
        }
        k = k + 1;
    }
    assert(w@.take(w@.len() as int) =~= w@);
    r
}

/// Converts text to Morse elements: whitespace separates words, characters
/// without a code are skipped, and a word left without characters is dropped.
pub fn text_to_morse(text: &str) -> (r: Vec<MorseElement>)
    ensures
        r@ == text_elements(text@),
{
    let chars = chars_of(text);
    let words = split_whitespace_chars(chars.as_slice());
    let mut out: Vec<MorseElement> = Vec::new();
    let mut k: usize = 0;
    let ghost ws = ws_words(text@);
    let ghost mut sent: Seq<Seq<char>> = Seq::empty();
    let mut any = false;
    assert(ws.take(0) =~= Seq::<Seq<char>>::empty());
    while k < words.len()
        invariant
            k <= words@.len(),
            words@.len() == ws.len(),
            forall|j: int| 0 <= j < words@.len() ==> #[trigger] words@[j]@ == ws[j],
            sent == coded_words(ws.take(k as int)),
            out@ == words_elements(sent),
            any == (sent.len() > 0),
        decreases words@.len() - k,
    {
        let ghost t = ws.take(k + 1);
        assert(t.drop_last() =~= ws.take(k as int));
        assert(t.last() == words@[k as int]@);
        let kw = known_of(&words[k]);
        if kw.len() > 0 {
            let ghost before = sent;
            if any {
                out.push(MorseElement::WordGap);
            }
            any = true;
            let ghost mid = out@;
            word_to_morse(&kw, &mut out);
            proof {
                sent = before.push(kw@);
                assert(sent.drop_last() =~= before);
                if before.len() == 0 {
                    assert(mid =~= Seq::<MorseElement>::empty());
                    assert(out@ =~= word_elements(kw@));
                } else {
                    assert(out@ =~= words_elements(sent));
                }
            }
        }
        k = k + 1;
    }
    assert(ws.take(ws.len() as int) =~= ws);
    out
}

// ---------------------------------------------------------------------------
// Progress through a message being sent
// ---------------------------------------------------------------------------

/// Whether a character of a message takes a place in the progress map:
/// whitespace and characters with a code do; others are skipped.
pub open spec fn is_mapped(c: char) -> bool {
    is_ws(c) || morse_code(ascii_upper(c)) is Some
}

/// Characters of `s` that take a place in the progress map.
pub open spec fn mapped_count(s: Seq<char>) -> nat
    decreases s.len(),
{
    if s.len() == 0 {
        0
    } else {
        mapped_count(s.drop_last()) + if is_mapped(s.last()) {
            1nat
        } else {
            0nat
        }
    }
}

/// For each element sent, the index of the character it belongs to: one
/// entry for whitespace; for a character with a code, one entry per element,
/// one per gap between them and one for the gap after it (twice the code's
/// length); none for a character without a code, which takes no index.
pub open spec fn element_char_map(s: Seq<char>) -> Seq<nat>
    decreases s.len(),
{
    if s.len() == 0 {
        Seq::empty()
    } else {
        let p = s.drop_last();
        let c = s.last();
        let k = mapped_count(p);
        element_char_map(p) + if is_ws(c) {
            seq![k]
        } else {
            match morse_code(ascii_upper(c)) {
                Some(code) => Seq::new(2 * code.len(), |i: int| k),
                None => Seq::empty(),
            }
        }
    }
}

proof fn lemma_mapped_count_le(s: Seq<char>)
    ensures
        mapped_count(s) <= s.len(),
    decreases s.len(),
{
    if s.len() > 0 {
        lemma_mapped_count_le(s.drop_last());
    }
}

/// Builds the progress map of a message (see `element_char_map`).
pub fn build_element_char_map(message: &str) -> (r: Vec<usize>)
    ensures
        r@.len() == element_char_map(message@).len(),
        forall|i: int| 0 <= i < r@.len() ==> r@[i] as nat == #[trigger] element_char_map(message@)[i],
{
    let chars = chars_of(message);
    let mut map: Vec<usize> = Vec::new();
    let mut idx: usize = 0;
    let mut i: usize = 0;
    while i < chars.len()
        invariant
            i <= chars@.len(),
            chars@ == message@,
            idx as nat == mapped_count(chars@.take(i as int)),
            idx <= i,
            map@.len() == element_char_map(chars@.take(i as int)).len(),
            forall|j: int| 0 <= j < map@.len() ==> map@[j] as nat == #[trigger] element_char_map(chars@.take(i as int))[j],
        decreases chars@.len() - i,
    {
        let c = chars[i];
        let ghost t = chars@.take(i + 1);
        let ghost before = map@;
        assert(t.drop_last() =~= chars@.take(i as int));
        assert(t.last() == c);
        if is_whitespace(c) {
            map.push(idx);
            idx = idx + 1;
        } else {
            match char_to_morse(c) {
                Some(code) => {
                    let mut e: usize = 0;
                    while e < code.len()
                        invariant
                            e <= code@.len(),
                            map@.len() == before.len() + 2 * e,
                            forall|j: int| 0 <= j < before.len() ==> map@[j] == before[j],
                            forall|j: int| before.len() <= j < map@.len() ==> map@[j] == idx,
                        decreases code@.len() - e,
                    {
                        map.push(idx);
                        map.push(idx);
                        e = e + 1;
                    }
                    idx = idx + 1;
                },
                None => {},
            }
        }
        proof {
            let m = element_char_map(t);
            assert(m == element_char_map(chars@.take(i as int)) + if is_ws(c) {
                seq![mapped_count(chars@.take(i as int))]
            } else {
                match morse_code(ascii_upper(c)) {
                    Some(code) => Seq::new(2 * code.len(), |k: int| mapped_count(chars@.take(i as int))),
                    None => Seq::empty(),
                }
            });
            assert forall|j: int| 0 <= j < map@.len() implies map@[j] as nat == #[trigger] m[j] by {
                if j < before.len() {
                    assert(map@[j] == before[j]);
                }
            }
        }
        i = i + 1;
    }
    assert(chars@.take(chars@.len() as int) =~= chars@);
    map
}

/// How far a message has been sent, for the transmit indicator: the index
/// of the character the current element belongs to; the message's length in
/// bytes once it is done, when the map is empty, or past its end.
pub open spec fn chars_sent_spec(map: Seq<usize>, current: int, completed: bool, message: Seq<char>) -> nat {
    if completed || map.len() == 0 || current >= map.len() {
        utf8_len(message)
    } else {
        map[current] as nat
    }
}

/// `chars_sent_spec` computed.
pub fn chars_sent(map: &[usize], current: usize, completed: bool, message: &str) -> (r: u128)
    ensures
        r == chars_sent_spec(map@, current as int, completed, message@),
{
    if completed || map.len() == 0 || current >= map.len() {
        let chars = chars_of(message);
        utf8_len_exec(chars.as_slice())
    } else {
        map[current] as u128
    }
}

} // verus!
