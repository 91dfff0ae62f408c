use g2p2_server::segment::{
    base_char, feature_twentieths, features, is_tone_mark, is_vowel, long, nasalized,
    seg_features, substitution_facts, tone, ScaleClass,
};

fn cs(s: &str) -> Vec<char> {
    s.chars().collect()
}

#[test]
fn feature_table_lookups() {
    assert_eq!(features('p'), Some([-1, -1, -1, -1, 1, 0, 0, 0, 0, 0]));
    assert_eq!(features('g'), features('ɡ'));
    assert_eq!(features('ɯ'), Some([1, 1, -1, 1, 0, 0, 0, 1, 1, -1]));
    assert_eq!(features('?'), None);
}

#[test]
fn segment_classes() {
    assert!(is_vowel(&cs("a")));
    assert!(is_vowel(&cs("ɑ̃")));
    assert!(!is_vowel(&cs("p")));
    assert!(!is_vowel(&cs("?")));
    assert!(!is_vowel(&cs("")));
    assert!(nasalized(&cs("ɑ̃")));
    assert!(nasalized(&cs("m")));
    assert!(!nasalized(&cs("ɑ")));
    assert!(long(&cs("aː")));
    assert!(long(&cs("aˑ")));
    assert!(!long(&cs("a")));
    assert_eq!(base_char(&cs("ɑ̃")), Some('ɑ'));
    assert_eq!(base_char(&cs("")), None);
}

#[test]
fn tone_marks() {
    assert!(is_tone_mark('˥'));
    assert!(is_tone_mark('˩'));
    assert!(is_tone_mark('²'));
    assert!(is_tone_mark('5'));
    assert!(is_tone_mark('⁵'));
    assert!(!is_tone_mark('a'));
    assert_eq!(tone(&cs("a˥˩")), cs("˥˩"));
    assert_eq!(tone(&cs("a")), cs(""));
}

#[test]
fn nasal_diacritic_sets_feature() {
    let f = seg_features(&cs("ɑ̃")).unwrap();
    assert_eq!(f[2], 1);
    assert_eq!(seg_features(&cs("ɑ")).unwrap()[2], -1);
    assert_eq!(seg_features(&cs("?")), None);
}

#[test]
fn feature_distance_in_twentieths() {
    // p and b differ only in voicing: 2 / 20
    assert_eq!(feature_twentieths(&cs("p"), &cs("b")), 2);
    assert_eq!(feature_twentieths(&cs("p"), &cs("p")), 0);
    // nasal diacritic adds the nasal dimension: ɑ vs ɑ̃ differ by 2
    assert_eq!(feature_twentieths(&cs("ɑ"), &cs("ɑ̃")), 2);
    // unknown symbols: same base -> 4 (0.2), different -> 20 (1.0)
    assert_eq!(feature_twentieths(&cs("?"), &cs("?ː")), 4);
    assert_eq!(feature_twentieths(&cs("?"), &cs("!")), 20);
    assert_eq!(feature_twentieths(&cs("?"), &cs("p")), 20);
    // a vowel against a consonant: i vs p
    assert_eq!(feature_twentieths(&cs("i"), &cs("p")), 10);
}

#[test]
fn substitution_facts_of_pairs() {
    let f = substitution_facts(&cs("ɑ̃"), &cs("ɑ"));
    assert!(!f.identical);
    assert!(f.nasal_differs);
    assert!(!f.length_differs);
    assert!(!f.tone_differs);
    assert!(!f.class_differs);
    assert_eq!(f.scale, ScaleClass::BothVowels);

    let t = substitution_facts(&cs("a˥"), &cs("a˩"));
    assert!(t.tone_differs);
    assert_eq!(t.feature_twentieths, 0);

    let vc = substitution_facts(&cs("a"), &cs("p"));
    assert!(vc.class_differs);
    assert_eq!(vc.scale, ScaleClass::Mixed);

    let cc = substitution_facts(&cs("p"), &cs("b"));
    assert_eq!(cc.scale, ScaleClass::BothConsonants);
    assert_eq!(cc.feature_twentieths, 2);

    let same = substitution_facts(&cs("aː"), &cs("aː"));
    assert!(same.identical);
    assert!(!same.length_differs);
    assert_eq!(substitution_facts(&cs("aː"), &cs("p")), substitution_facts(&cs("p"), &cs("aː")));
}
