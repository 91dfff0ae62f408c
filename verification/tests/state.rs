use g2p2_server::calib::analyze;
use g2p2_server::state::{
    entries_for, model_code, name_list, onset_key, parse_corpus, Gender, NameEntry, NameIndex,
    NameList, NameRecord,
};

#[test]
fn gender_parse_and_filter() {
    assert_eq!(Gender::parse("m"), Gender::Male);
    assert_eq!(Gender::parse("f"), Gender::Female);
    assert_eq!(Gender::parse("u"), Gender::Unisex);
    assert_eq!(Gender::parse(""), Gender::Unisex);
    // unisex passes both male and female filters; opposite gender does not
    assert!(Gender::Unisex.passes(Gender::Male));
    assert!(Gender::Unisex.passes(Gender::Female));
    assert!(Gender::Male.passes(Gender::Male));
    assert!(!Gender::Male.passes(Gender::Female));
    assert!(!Gender::Female.passes(Gender::Male));
}

#[test]
fn gender_parse_trims_and_folds_case() {
    assert_eq!(Gender::parse("  M "), Gender::Male);
    assert_eq!(Gender::parse("Female"), Gender::Female);
    assert_eq!(Gender::parse("\tmale"), Gender::Male);
    assert_eq!(Gender::parse("x"), Gender::Unisex);
    assert_eq!(Gender::parse("   "), Gender::Unisex);
}

#[test]
fn gender_code_roundtrip() {
    for g in [Gender::Male, Gender::Female, Gender::Unisex] {
        assert_eq!(Gender::parse(g.code()), g);
    }
    assert_eq!(Gender::Male.code(), "m");
    assert_eq!(Gender::Female.code(), "f");
    assert_eq!(Gender::Unisex.code(), "u");
}

#[test]
fn unisex_filter_admits_only_unisex() {
    assert!(Gender::Unisex.passes(Gender::Unisex));
    assert!(!Gender::Male.passes(Gender::Unisex));
    assert!(!Gender::Female.passes(Gender::Unisex));
    assert!(Gender::Female.passes(Gender::Female));
}

fn rec(name: &str, gender: Gender, freq: u32, ipa: Option<&str>) -> (String, Gender, u32, Option<String>) {
    (name.to_string(), gender, freq, ipa.map(|s| s.to_string()))
}

fn view(r: &NameRecord) -> (String, Gender, u32, Option<String>) {
    (r.name.clone(), r.gender, r.freq, r.ipa.clone())
}

#[test]
fn corpus_lines_are_parsed() {
    let text = "Ana\tf\t50\nAnna\tf\t10\r\n# comment\n\n  Bob\tm\t100000\t bɔb \nTom\nDido\tu\tlots\n";
    let recs: Vec<_> = parse_corpus(text).iter().map(view).collect();
    assert_eq!(
        recs,
        vec![
            rec("Ana", Gender::Female, 50, None),
            rec("Anna", Gender::Female, 10, None),
            rec("Bob", Gender::Male, 100000, Some("bɔb")),
            rec("Tom", Gender::Unisex, 0, None),
            rec("Dido", Gender::Unisex, 0, None),
        ]
    );
}

#[test]
fn corpus_frequency_edge_cases() {
    let text = "A\tf\t+7\nB\tf\t4294967295\nC\tf\t4294967296\nD\tf\t-1\nE\tf\t\t \n";
    let recs: Vec<_> = parse_corpus(text).iter().map(view).collect();
    assert_eq!(recs[0].2, 7);
    assert_eq!(recs[1].2, 4294967295);
    assert_eq!(recs[2].2, 0);
    assert_eq!(recs[3].2, 0);
    assert_eq!(recs[4], rec("E", Gender::Female, 0, None));
}

#[test]
fn corpus_empty_text_has_no_records() {
    assert!(parse_corpus("").is_empty());
    assert!(parse_corpus("\n\n# only comments\n   \n").is_empty());
}

fn list(lang: &str, text: &str) -> NameList {
    NameList { lang: lang.to_string(), entries: parse_corpus(text) }
}

#[test]
fn entries_for_picks_the_language() {
    let corpus = vec![list("fr", "Jean\tm\t5\nJeanne\tf\t3\n"), list("en", "Kate\tf\t9\n")];
    let got: Vec<_> = entries_for(&corpus, "fr").iter().map(view).collect();
    assert_eq!(got, vec![rec("Jean", Gender::Male, 5, None), rec("Jeanne", Gender::Female, 3, None)]);
}

#[test]
fn entries_for_unknown_language_merges_sorted_and_dedups() {
    let corpus = vec![
        list("fr", "Jean\tm\t5\nAnna\tf\t3\n"),
        list("en", "Kate\tf\t9\nAnna\tu\t7\nBob\tm\t1\n"),
    ];
    let got: Vec<_> = entries_for(&corpus, "zz").iter().map(view).collect();
    assert_eq!(
        got,
        vec![
            rec("Anna", Gender::Female, 3, None),
            rec("Bob", Gender::Male, 1, None),
            rec("Jean", Gender::Male, 5, None),
            rec("Kate", Gender::Female, 9, None),
        ]
    );
}

#[test]
fn entries_for_matches_std_sort_and_dedup() {
    let corpus = vec![
        list("a", "zoé\nÉmile\nemile\nÅsa\nzoé\tf\nAbe\n"),
        list("b", "Émile\tm\t4\nabe\nAbe\tf\n"),
    ];
    let mut all: Vec<(String, Gender, u32, Option<String>)> =
        corpus.iter().flat_map(|l| l.entries.iter().map(view)).collect();
    all.sort_by(|a, b| a.0.cmp(&b.0));
    all.dedup_by(|a, b| a.0 == b.0);
    let got: Vec<_> = entries_for(&corpus, "none").iter().map(view).collect();
    assert_eq!(got, all);
}

#[test]
fn name_list_needs_txt_and_records() {
    let l = name_list("fr.txt", "Jean\tm\n").unwrap();
    assert_eq!(l.lang, "fr");
    assert_eq!(l.entries.len(), 1);
    assert!(name_list("fr.json", "Jean\tm\n").is_none());
    assert!(name_list("fr.txt", "# nothing\n").is_none());
    assert_eq!(name_list(".txt", "A\n").unwrap().lang, "");
}

#[test]
fn model_code_strips_extension() {
    assert_eq!(model_code("fr.g2p").as_deref(), Some("fr"));
    assert_eq!(model_code("fr.g2p.bak"), None);
    assert_eq!(model_code("g2p"), None);
}

fn entry(name: &str, gender: Gender, freq: u32, segs: &[&str]) -> NameEntry {
    let segs: Vec<String> = segs.iter().map(|s| s.to_string()).collect();
    let ipa: String = segs.concat();
    NameEntry { name: name.to_string(), gender, freq, phon: analyze(&ipa, &segs, &[]) }
}

#[test]
fn index_buckets_by_onset_in_order() {
    let entries = vec![
        entry("Ana", Gender::Female, 50, &["a", "n", "a"]),
        entry("Bob", Gender::Male, 1, &["b", "ɔ", "b"]),
        entry("Anna", Gender::Female, 10, &["a", "n", "a"]),
        entry("Empty", Gender::Unisex, 0, &[]),
    ];
    let idx = NameIndex::from_entries(entries);
    let a: Vec<&str> = idx.bucket(Some('a')).iter().map(|e| e.name.as_str()).collect();
    assert_eq!(a, vec!["Ana", "Anna"]);
    let b: Vec<&str> = idx.bucket(Some('b')).iter().map(|e| e.name.as_str()).collect();
    assert_eq!(b, vec!["Bob"]);
    assert_eq!(idx.bucket(None).len(), 1);
    assert!(idx.bucket(Some('z')).is_empty());
    assert!(!idx.is_empty());
    assert_eq!(idx.by_onset().len(), 3);
}

#[test]
fn index_is_empty() {
    let idx = NameIndex::from_entries(Vec::new());
    assert!(idx.is_empty());
}

#[test]
fn onset_keys_are_distinct() {
    assert_eq!(onset_key(None), 0);
    assert_eq!(onset_key(Some('\0')), 1);
    assert_eq!(onset_key(Some('a')), 98);
    assert_eq!(onset_key(Some('\u{10FFFF}')), 0x110000);
}

#[test]
fn index_of_one_name_is_not_empty() {
    let idx = NameIndex::from_entries(vec![entry("Empty", Gender::Unisex, 0, &[])]);
    assert!(!idx.is_empty());
    assert_eq!(idx.bucket(None).len(), 1);
}

#[test]
fn entries_for_first_list_of_a_language_wins() {
    let corpus = vec![list("fr", "Jean\tm\t5\n"), list("fr", "Luc\tm\t2\n")];
    let got: Vec<_> = entries_for(&corpus, "fr").iter().map(view).collect();
    assert_eq!(got, vec![rec("Jean", Gender::Male, 5, None)]);
}

#[test]
fn built_index_emptiness_follows_its_buckets() {
    let idx = NameIndex::from_entries(vec![entry("Ana", Gender::Female, 1, &["a", "n", "a"])]);
    assert!(!idx.is_empty());
    assert_eq!(idx.bucket(Some('a')).len(), 1);
    let empty = NameIndex::from_entries(Vec::new());
    assert!(empty.is_empty());
    for o in [None, Some('a'), Some('ʒ'), Some('\u{10FFFF}')] {
        assert!(empty.bucket(o).is_empty());
    }
}
