use chunk_tokenizer::exceptions::{
    base_exceptions, capitalize, get_english_tokenizer_exceptions, get_exception, merge_exceptions, url_match,
    ExceptionToken,
};
use chunk_tokenizer::pattern::{
    concat_strs, dedup_texts, escape_class_chars, get_english_literal_infix_strings, get_english_prefix_patterns,
    get_english_regex_infix_patterns, get_english_suffix_patterns, get_english_token_match_pattern_str,
    get_english_url_match_pattern_str, join_with, literal_alternation, sort_longest_first,
};

#[test]
fn english_exceptions_spell_their_keys() {
    let m = get_english_tokenizer_exceptions();
    for key in ["don't", "I'm", "y'all", "10pm", "cannot", "Dr.", ":)", "somethin'", "'em", "How'd'y"] {
        let entry = m.get(key).unwrap_or_else(|| panic!("missing {}", key));
        let joined: String = entry.iter().map(|t| t.orth.as_str()).collect();
        assert_eq!(joined, key);
    }
    let dont = m.get("don't").unwrap();
    assert_eq!(dont[0].orth, "do");
    assert_eq!(dont[1].orth, "n't");
    assert_eq!(dont[1].norm.as_deref(), Some("not"));
    for gone in ["ill", "Ill", "its", "well", "were", "shed"] {
        assert!(!m.contains_key(gone), "{}", gone);
    }
    let ima = m.get("Ima").unwrap();
    assert_eq!(ima.iter().map(|t| t.orth.as_str()).collect::<Vec<_>>(), vec!["I", "m", "a"]);
}

#[test]
fn base_exceptions_hold_degree_forms() {
    let entry = get_exception("°C.").unwrap();
    assert_eq!(entry.iter().map(|t| t.orth.as_str()).collect::<Vec<_>>(), vec!["°", "C", "."]);
    assert!(get_exception("C++").is_some());
    assert!(get_exception("nothing-here").is_none());
    let nbsp = base_exceptions();
    assert_eq!(nbsp.get("\u{00a0}").unwrap()[0].norm.as_deref(), Some("  "));
}

#[test]
fn merged_exceptions_override_base_entries() {
    let custom = vec![(
        "C++".to_string(),
        vec![
            ExceptionToken { orth: "C".to_string(), norm: None },
            ExceptionToken { orth: "++".to_string(), norm: None },
        ],
    )];
    let m = merge_exceptions(&custom);
    assert_eq!(m.get("C++").unwrap().len(), 2);
    assert!(m.get(":)").is_some());
}

#[test]
fn urls_are_recognised() {
    assert!(url_match("https://www.example.com/path?q=1"));
    assert!(url_match("example.org"));
    assert!(!url_match("hello"));
    assert!(!url_match("http://10.0.0.1"));
}

#[test]
fn literal_infixes_are_unique_and_longest_first() {
    let lits = get_english_literal_infix_strings();
    for w in lits.windows(2) {
        assert!(w[0].len() >= w[1].len());
    }
    let mut seen = std::collections::HashSet::new();
    for l in &lits {
        assert!(seen.insert(l.clone()));
    }
    for gone in ["o.o", "0.0", "._.", ":0", ":1", ":3"] {
        assert!(!lits.iter().any(|l| l == gone));
    }
    assert!(lits.iter().any(|l| l == "/"));
    assert_eq!(lits[0], "(╯°□°）╯︵┻━┻");
}

#[test]
fn rule_tables_have_their_sizes() {
    assert_eq!(get_english_prefix_patterns().len(), 66);
    assert_eq!(get_english_suffix_patterns().len(), 92);
    assert_eq!(get_english_regex_infix_patterns().len(), 12);
    let regex_infixes = get_english_regex_infix_patterns();
    assert_eq!(regex_infixes[2], r"(?<=[0-9])[+\-*^](?=[0-9-])");
    let url = get_english_url_match_pattern_str();
    assert!(url.starts_with("^(?:(?:[\\w+\\-.]{2,})://)?"));
    assert!(url.contains("(?:[a-z]{2,63})"));
    assert!(url.ends_with("$"));
    let token = get_english_token_match_pattern_str().unwrap();
    assert!(token.starts_with("^(?:"));
    assert!(token.ends_with(")$"));
}

#[test]
fn suffix_period_pattern_escapes_class_characters() {
    let suffixes = get_english_suffix_patterns();
    assert_eq!(suffixes[1], r"\.{3,}");
    assert_eq!(suffixes[91], r"(?<=[A-Z][A-Z])\.");
    assert!(suffixes[90].starts_with(r"(?<=[a-zA-Z0-9%²\-+'"));
}

#[test]
fn helpers_compute_their_texts() {
    assert_eq!(capitalize("hello"), "Hello");
    assert_eq!(capitalize("ßa"), "SSa");
    assert_eq!(capitalize(""), "");
    assert_eq!(capitalize("élan"), "Élan");
    assert_eq!(literal_alternation(&vec!["a.b+"]), r"(?:a\.b\+)");
    assert_eq!(escape_class_chars("a[b]-c"), r"a\[b\]\-c");
    assert_eq!(concat_strs(&vec!["ab", "", "c"]), "abc");
    assert_eq!(join_with(&vec!["a".to_string(), "b".to_string(), "c".to_string()], "|"), "a|b|c");
    assert_eq!(join_with(&vec![], "|"), "");
    assert_eq!(literal_alternation(&vec![":)", "a"]), r"(?::\)|a)");
    assert_eq!(literal_alternation(&vec!["…", "a\tb."]), "(?:…|a\\tb\\.)");
    assert_eq!(sort_longest_first(&vec!["a", "ccc", "bb", "d", "é"]), vec!["ccc", "bb", "é", "a", "d"]);
    assert_eq!(dedup_texts(&vec!["x", "y", "x", "z", "y"]), vec!["x", "y", "z"]);
}

#[test]
fn english_exceptions_hold_their_fixed_entries() {
    let m = get_english_tokenizer_exceptions();
    let dec = m.get("Dec.").unwrap();
    assert_eq!(dec.len(), 1);
    assert_eq!(dec[0].orth, "Dec.");
    assert_eq!(dec[0].norm.as_deref(), Some("December"));
    let ny = m.get("N.Y.").unwrap();
    assert_eq!(ny[0].norm.as_deref(), Some("New York"));
    let smile = m.get(":)").unwrap();
    assert_eq!(smile[0].orth, ":)");
    assert!(smile[0].norm.is_none());
    for h in 1..=12 {
        for (suffix, norm) in [("am", "a.m."), ("a.m.", "a.m."), ("pm", "p.m."), ("p.m.", "p.m.")] {
            let key = format!("{}{}", h, suffix);
            let e = m.get(&key).unwrap();
            assert_eq!(e.len(), 2);
            assert_eq!(e[0].orth, h.to_string());
            assert!(e[0].norm.is_none());
            assert_eq!(e[1].orth, suffix);
            assert_eq!(e[1].norm.as_deref(), Some(norm));
        }
    }
    let cant = m.get("can't").unwrap();
    assert_eq!(cant[0].orth, "ca");
    assert_eq!(cant[0].norm.as_deref(), Some("can"));
    assert_eq!(cant[1].norm.as_deref(), Some("not"));
}
