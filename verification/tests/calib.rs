use g2p2_server::calib::{analyze, count_nuclei, word_facts};

fn segs(v: &[&str]) -> Vec<String> {
    v.iter().map(|s| s.to_string()).collect()
}

fn an(v: &[&str], diph: &[String]) -> g2p2_server::calib::Analyzed {
    let s = segs(v);
    analyze(&s.concat(), &s, diph)
}

#[test]
fn diphthongs_are_language_specific() {
    // English merges aɪ/eɪ into one nucleus; French keeps a-ɛ as a hiatus.
    let en = vec!["aɪ".to_string(), "eɪ".to_string()];
    let fr_none: Vec<String> = vec![];
    // Michael /maɪkəl/ → EN: 2 nuclei (aɪ + ə)
    assert_eq!(an(&["m", "a", "ɪ", "k", "ə", "l"], &en).syllables(), 2);
    // Mickaël /mikaɛl/ → FR: 3 nuclei (i, a, ɛ — no diphthongs)
    assert_eq!(an(&["m", "i", "k", "a", "ɛ", "l"], &fr_none).syllables(), 3);
    // Caitlin /keɪtlaɪn/: eɪ + aɪ
    assert_eq!(an(&["k", "e", "ɪ", "t", "l", "a", "ɪ", "n"], &en).syllables(), 2);
}

#[test]
fn glide_mark_and_minimum_nucleus() {
    // a non-syllabic vowel does not start a nucleus
    assert_eq!(an(&["a", "i\u{032F}"], &[]).syllables(), 1);
    // a word whose only vowel is a glide still has one nucleus
    assert_eq!(an(&["p", "i\u{032F}"], &[]).syllables(), 1);
    // no vowel, no nucleus
    assert_eq!(an(&["p", "t", "k"], &[]).syllables(), 0);
    assert_eq!(an(&[], &[]).syllables(), 0);
    // a consonant breaks a diphthong
    let en = vec!["aɪ".to_string()];
    assert_eq!(an(&["a", "t", "ɪ"], &en).syllables(), 2);
}

#[test]
fn count_nuclei_on_chars() {
    let s: Vec<Vec<char>> = ["a", "ɪ"].iter().map(|x| x.chars().collect()).collect();
    let d: Vec<Vec<char>> = vec!["aɪ".chars().collect()];
    assert_eq!(count_nuclei(&s, &d), 1);
    assert_eq!(count_nuclei(&s, &Vec::new()), 2);
}

#[test]
fn analyzed_structure() {
    let a = an(&["ʒ", "ɑ̃"], &[]);
    assert_eq!(a.ipa, "ʒɑ̃");
    assert_eq!(a.onset(), Some('ʒ'));
    assert_eq!(a.seg_count(), 2);
    assert_eq!(a.segs()[1], vec!['ɑ', '\u{0303}']);
    assert_eq!(an(&[], &[]).onset(), None);
}

#[test]
fn word_level_facts() {
    let jean = an(&["ʒ", "ɑ̃"], &[]);
    let roland = an(&["ʁ", "ɔ", "l", "ɑ̃"], &[]);
    let f = word_facts(&jean, &roland);
    assert!(!f.both_empty);
    assert!(f.onset_differs);
    assert_eq!(f.len_diff, 2);
    assert_eq!(f.denom, 4);
    assert_eq!(f.syllable_diff, 1);
    assert_eq!(f.syllable_max, 2);
    assert_eq!(word_facts(&roland, &jean), f);
    let e = word_facts(&an(&[], &[]), &an(&[], &[]));
    assert!(e.both_empty);
    assert_eq!(e.denom, 1);
    assert_eq!(e.syllable_max, 1);
    let same = word_facts(&jean, &jean);
    assert!(!same.onset_differs);
    assert_eq!(same.len_diff, 0);
}

#[test]
fn more_diphthongs_never_add_nuclei() {
    let word = ["k", "e", "ɪ", "t", "l", "a", "ɪ", "n"];
    let none: Vec<String> = vec![];
    let one = vec!["eɪ".to_string()];
    let both = vec!["eɪ".to_string(), "aɪ".to_string()];
    assert_eq!(an(&word, &none).syllables(), 4);
    assert_eq!(an(&word, &one).syllables(), 3);
    assert_eq!(an(&word, &both).syllables(), 2);
}

#[test]
fn nuclei_are_vowels_that_start_a_nucleus() {
    // a, ɪ (folded into aɪ), glide i̯ (not a nucleus), ə: two nuclei
    let en = vec!["aɪ".to_string()];
    assert_eq!(an(&["a", "ɪ", "t", "i\u{032F}", "ə"], &en).syllables(), 2);
    // only glides: still one nucleus
    assert_eq!(an(&["i\u{032F}", "u\u{032F}"], &[]).syllables(), 1);
}
