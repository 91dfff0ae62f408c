use g2p2_server::calib::analyze;
use g2p2_server::handlers::{
    effective_top_k, gender_filter, has_model, join, keep_candidate, keep_lowered, max_frequency,
    query_norm, resolve_lang,
    text_is_blank, text_words, G2pQuery, LangError,
};
use g2p2_server::state::{Gender, NameEntry};
use g2p2_server::types::{default_true, MethodArg};

fn avail() -> Vec<String> {
    vec!["en".to_string(), "fr".to_string(), "xx".to_string()]
}

#[test]
fn requested_language_wins() {
    let c = resolve_lang(&avail(), "en", Some("fr"), Some("xx")).unwrap();
    assert_eq!(c.lang, "fr");
    assert!(!c.detected);
}

#[test]
fn requested_language_without_model_is_not_found() {
    match resolve_lang(&avail(), "en", Some("zz"), None) {
        Err(LangError::NoModel(code)) => assert_eq!(code, "zz"),
        _ => panic!("expected NoModel"),
    }
}

#[test]
fn detection_then_default() {
    let c = resolve_lang(&avail(), "en", None, Some("xx")).unwrap();
    assert_eq!((c.lang.as_str(), c.detected), ("xx", true));
    let c = resolve_lang(&avail(), "en", None, Some("de")).unwrap();
    assert_eq!((c.lang.as_str(), c.detected), ("en", true));
    let c = resolve_lang(&avail(), "fr", None, None).unwrap();
    assert_eq!((c.lang.as_str(), c.detected), ("fr", true));
}

#[test]
fn no_supported_language_is_bad_request() {
    assert!(matches!(
        resolve_lang(&avail(), "de", None, Some("it")),
        Err(LangError::NoSupportedLanguage)
    ));
    assert!(matches!(resolve_lang(&[], "en", None, None), Err(LangError::NoSupportedLanguage)));
}

#[test]
fn model_availability() {
    assert!(has_model(&avail(), "fr"));
    assert!(!has_model(&avail(), "f"));
    assert!(!has_model(&[], "fr"));
}

#[test]
fn gender_filter_forms() {
    assert_eq!(gender_filter(Some("m")), Some(Gender::Male));
    assert_eq!(gender_filter(Some(" MALE ")), Some(Gender::Male));
    assert_eq!(gender_filter(Some("F")), Some(Gender::Female));
    assert_eq!(gender_filter(Some("female")), Some(Gender::Female));
    assert_eq!(gender_filter(Some("u")), None);
    assert_eq!(gender_filter(Some("any")), None);
    assert_eq!(gender_filter(Some("males")), None);
    assert_eq!(gender_filter(None), None);
}

fn entry(name: &str, g: Gender) -> NameEntry {
    NameEntry { name: name.to_string(), gender: g, freq: 1, phon: analyze("", &[], &[]) }
}

#[test]
fn candidates_exclude_self_and_filter_gender() {
    let ana = entry("ANA", Gender::Female);
    assert!(!keep_candidate(&ana, "ana", true, None));
    assert!(keep_candidate(&ana, "ana", false, None));
    assert!(keep_candidate(&ana, "anna", true, Some(Gender::Female)));
    assert!(!keep_candidate(&ana, "anna", true, Some(Gender::Male)));
    let u = entry("Dominique", Gender::Unisex);
    assert!(keep_candidate(&u, "ana", true, Some(Gender::Male)));
    assert!(keep_candidate(&u, "ana", true, Some(Gender::Female)));
}

#[test]
fn top_k_defaults_to_ten() {
    assert_eq!(effective_top_k(0), 10);
    assert_eq!(effective_top_k(3), 3);
}

#[test]
fn text_helpers() {
    assert!(text_is_blank(""));
    assert!(text_is_blank(" \t\n"));
    assert!(!text_is_blank(" a "));
    assert_eq!(text_words("  bonjour le  monde "), vec!["bonjour", "le", "monde"]);
    assert!(text_words("   ").is_empty());
    let parts = vec!["bɔ̃ʒuʁ".to_string(), "lə".to_string()];
    assert_eq!(join(&parts, " "), "bɔ̃ʒuʁ lə");
    assert_eq!(join(&parts, ""), "bɔ̃ʒuʁlə");
    assert_eq!(join(&[], " "), "");
}

#[test]
fn g2p_query_defaults_numbers_on() {
    let q = G2pQuery { text: "ana".to_string(), lang: None, numbers: None };
    assert!(q.into_request().numbers);
    let q = G2pQuery { text: "ana".to_string(), lang: Some("xx".to_string()), numbers: Some(false) };
    let r = q.into_request();
    assert!(!r.numbers);
    assert_eq!(r.lang.as_deref(), Some("xx"));
}

#[test]
fn method_names_and_default() {
    assert_eq!(MethodArg::default(), MethodArg::Calibrated);
    assert_eq!(MethodArg::Weighted.as_str(), "weighted");
    assert_eq!(MethodArg::Levenshtein.as_str(), "levenshtein");
    assert_eq!(MethodArg::Calibrated.as_str(), "calibrated");
    assert!(default_true());
}

#[test]
fn lowered_names_are_compared_exactly() {
    assert!(!keep_lowered("ana", Gender::Female, "ana", true, None));
    assert!(keep_lowered("ana", Gender::Female, "ana", false, None));
    assert!(keep_lowered("ana", Gender::Female, "Ana", true, None));
    assert!(!keep_lowered("bob", Gender::Male, "ana", true, Some(Gender::Female)));
    assert!(keep_lowered("dominique", Gender::Unisex, "ana", true, Some(Gender::Female)));
}

#[test]
fn popularity_scale_is_the_largest_frequency() {
    assert_eq!(max_frequency(&[]), 1);
    assert_eq!(max_frequency(&[0, 0]), 1);
    assert_eq!(max_frequency(&[50, 1, 10]), 50);
    assert_eq!(max_frequency(&[3, 7, 7, 2]), 7);
}

#[test]
fn query_norm_matches_candidate_lowering() {
    assert_eq!(query_norm("ÉMILE"), "émile");
    let e = NameEntry { name: "Émile".to_string(), gender: Gender::Male, freq: 0, phon: analyze("", &[], &[]) };
    assert!(!keep_candidate(&e, &query_norm("ÉMILE"), true, None));
    assert!(keep_candidate(&e, &query_norm("EMILE"), true, None));
}
