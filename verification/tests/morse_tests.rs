use contest_trainer::morse::{build_element_char_map, char_to_morse, chars_sent, text_to_morse, MorseElement, MorseTimer};
use contest_trainer::morse::MorseElement::{CharGap, Dah, Dit, ElementGap};

#[test]
fn test_char_to_morse() {
    assert_eq!(char_to_morse('A'), Some(vec![Dit, Dah]));
    assert_eq!(char_to_morse('S'), Some(vec![Dit, Dit, Dit]));
    assert_eq!(char_to_morse('O'), Some(vec![Dah, Dah, Dah]));
}

#[test]
fn test_text_to_morse() {
    let elements = text_to_morse("SOS");
    assert!(!elements.is_empty());
}

#[test]
fn test_morse_timer() {
    let timer = MorseTimer::new(44100, 20);
    assert!(timer.samples_per_unit() > 2000);
    assert!(timer.samples_per_unit() < 3000);
}

#[test]
fn morse_timer_paris_unit() {
    // 1200 ms / 20 WPM = 60 ms per unit = 2646 samples at 44.1 kHz
    let timer = MorseTimer::new(44100, 20);
    assert_eq!(timer.samples_per_unit(), 2646);
    assert_eq!(timer.element_samples(MorseElement::Dah), 3 * 2646);
    assert_eq!(timer.sample_rate(), 44100);
}

#[test]
fn sos_elements_exact() {
    let elements = text_to_morse("SOS");
    assert_eq!(
        elements,
        vec![
            Dit, ElementGap, Dit, ElementGap, Dit, CharGap, Dah, ElementGap, Dah, ElementGap, Dah,
            CharGap, Dit, ElementGap, Dit, ElementGap, Dit
        ]
    );
}

#[test]
fn unknown_character_has_no_code() {
    assert_eq!(char_to_morse('#'), None);
    assert_eq!(char_to_morse('a'), char_to_morse('A'));
}

#[test]
fn progress_map_follows_the_characters() {
    // E: one element, two entries; space: one entry; T: two entries.
    let map = build_element_char_map("E T");
    assert_eq!(map, vec![0, 0, 1, 2, 2]);
    // A character without a code takes no index.
    let map = build_element_char_map("E#T");
    assert_eq!(map, vec![0, 0, 1, 1]);
    assert_eq!(chars_sent(&map, 2, false, "E#T"), 1);
    assert_eq!(chars_sent(&map, 9, false, "E#T"), 3);
    assert_eq!(chars_sent(&map, 0, true, "E#T"), 3);
    assert_eq!(chars_sent(&[], 0, false, "é"), 2);
}

#[test]
fn unknown_characters_are_skipped_in_text() {
    assert_eq!(text_to_morse("A#B"), text_to_morse("AB"));
    assert_eq!(
        text_to_morse("A#B"),
        vec![Dit, ElementGap, Dah, CharGap, Dah, ElementGap, Dit, ElementGap, Dit, ElementGap, Dit]
    );
    assert_eq!(text_to_morse("A # B"), text_to_morse("A B"));
    assert_eq!(text_to_morse("#"), vec![]);
}

#[test]
fn morse_table_codes_are_distinct() {
    let table = "ABCDEFGHIJKLMNOPQRSTUVWXYZ0123456789/?.,=";
    let codes: Vec<Vec<MorseElement>> = table.chars().map(|c| char_to_morse(c).unwrap()).collect();
    for i in 0..codes.len() {
        for j in (i + 1)..codes.len() {
            assert_ne!(codes[i], codes[j]);
        }
    }
    assert_eq!(char_to_morse('='), Some(vec![Dah, Dit, Dit, Dit, Dah]));
}
