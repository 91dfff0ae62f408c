use g2p2_server::text::{
    ascii_lower, chars_eq, chars_of, eq_ignore_ascii_case, is_blank, is_whitespace, lex_lt,
    parse_u32, split_on, string_of, strip_suffix, trim, words,
};

use g2p2_server::calib::analyze;
use g2p2_server::handlers::keep_candidate;
use g2p2_server::segment::is_tone_mark;
use g2p2_server::state::{Gender, NameEntry};

fn cs(s: &str) -> Vec<char> {
    s.chars().collect()
}

fn st(v: &[char]) -> String {
    v.iter().collect()
}

#[test]
fn whitespace_matches_std_for_every_char() {
    for u in 0..=0x10FFFFu32 {
        if let Some(c) = char::from_u32(u) {
            assert_eq!(is_whitespace(c), c.is_whitespace(), "U+{u:04X}");
        }
    }
}

#[test]
fn numeric_chars_are_tone_marks() {
    // outside the tone-letter and superscript ranges, a character is a tone
    // mark exactly when it is numeric
    for c in ['0', '9', '½', 'Ⅻ', '٣', '൬', 'a', 'Z', ' ', 'ɑ', '\u{0303}'] {
        assert_eq!(is_tone_mark(c), c.is_numeric(), "{c:?}");
    }
}

const SAMPLES: &[&str] = &[
    "", " ", "a", " a ", "\t\nab c\r\n", "\u{3000}x\u{2028}", "ʒɑ̃ ɡi", "a\tb\t\tc\t", "\t",
    "  many   spaced   words  ", "\u{85}nel\u{a0}", "x\ny\n\nz\n",
];

#[test]
fn trim_matches_std() {
    for s in SAMPLES {
        assert_eq!(st(&trim(&cs(s))), s.trim(), "{s:?}");
        assert_eq!(is_blank(&cs(s)), s.trim().is_empty(), "{s:?}");
    }
}

#[test]
fn split_matches_std() {
    for s in SAMPLES {
        for sep in ['\t', '\n', ' '] {
            let got: Vec<String> = split_on(&cs(s), sep).iter().map(|p| st(p)).collect();
            let want: Vec<String> = s.split(sep).map(|p| p.to_string()).collect();
            assert_eq!(got, want, "{s:?} on {sep:?}");
        }
    }
}

#[test]
fn words_match_std() {
    for s in SAMPLES {
        let got: Vec<String> = words(&cs(s)).iter().map(|p| st(p)).collect();
        let want: Vec<String> = s.split_whitespace().map(|p| p.to_string()).collect();
        assert_eq!(got, want, "{s:?}");
    }
}

#[test]
fn parse_u32_matches_std() {
    let cases = [
        "", "+", "-", "0", "007", "+42", "-0", "42a", " 1", "4294967295", "4294967296",
        "99999999999999999999", "+4294967295", "1_000", "١٢", "++1",
    ];
    for s in cases {
        assert_eq!(parse_u32(&cs(s)), s.parse::<u32>().ok(), "{s:?}");
    }
}

#[test]
fn lex_order_matches_string_order() {
    let names = ["", "a", "ab", "b", "B", "Émile", "emile", "zoé", "zo", "Åsa", "ʒan", "ʒ"];
    for a in names {
        for b in names {
            assert_eq!(lex_lt(&cs(a), &cs(b)), a.to_string() < b.to_string(), "{a:?} < {b:?}");
        }
    }
}

#[test]
fn ascii_case_folding() {
    assert_eq!(ascii_lower('M'), 'm' as u32);
    assert_eq!(ascii_lower('m'), 'm' as u32);
    assert_eq!(ascii_lower('É'), 'É' as u32);
    assert!(eq_ignore_ascii_case(&cs("MaLe"), &cs("male")));
    assert!(!eq_ignore_ascii_case(&cs("mal"), &cs("male")));
    assert!(!eq_ignore_ascii_case(&cs("É"), &cs("é")));
    for (a, b) in [("Female", "female"), ("F", "f"), ("x", "y")] {
        assert_eq!(eq_ignore_ascii_case(&cs(a), &cs(b)), a.eq_ignore_ascii_case(b));
    }
}

#[test]
fn conversions_round_trip() {
    for s in SAMPLES {
        assert_eq!(chars_of(s), cs(s));
        assert_eq!(string_of(&cs(s)), *s);
        assert!(chars_eq(&cs(s), &cs(s)));
    }
    assert!(!chars_eq(&cs("ab"), &cs("ba")));
    assert!(!chars_eq(&cs("a"), &cs("ab")));
}

#[test]
fn strip_suffix_matches_std() {
    for (s, suf) in [("fr.txt", ".txt"), ("fr.txt", ".json"), (".txt", ".txt"), ("txt", ".txt"), ("é.g2p", ".g2p")] {
        assert_eq!(strip_suffix(s, suf).as_deref(), s.strip_suffix(suf));
    }
}

#[test]
fn exact_name_exclusion_lowercases_the_name() {
    let e = |name: &str| NameEntry {
        name: name.to_string(),
        gender: Gender::Male,
        freq: 0,
        phon: analyze("", &[], &[]),
    };
    assert!(!keep_candidate(&e("ÉMILE"), "émile", true, None));
    assert!(!keep_candidate(&e("Ana"), "ana", true, None));
    assert!(keep_candidate(&e("ÉMILE"), "emile", true, None));
}
