use chunk_tokenizer::chunk::{simple_infix_tokenize_chunk_internal, tokenize_chunk};
use chunk_tokenizer::exceptions::{exc_entry, merge_into, ExceptionToken};
use chunk_tokenizer::line::{assemble_chunk_tokens, next_line_offset, split_chunks, tokenize_line};
use chunk_tokenizer::rules::{ExceptionMap, RuleError, TokenizerRules};
use chunk_tokenizer::spans::{merge_sorted_spans, resolve_spans, sort_spans, split_at_spans};

fn strings(v: &[&str]) -> Vec<String> {
    v.iter().map(|s| s.to_string()).collect()
}

fn exceptions(entries: Vec<(&str, Vec<(&str, Option<&str>)>)>) -> ExceptionMap {
    let custom: Vec<(String, Vec<ExceptionToken>)> = entries
        .into_iter()
        .map(|(k, parts)| (k.to_string(), parts.into_iter().map(|(o, n)| exc_entry(o, n)).collect()))
        .collect();
    merge_into(ExceptionMap::new(), &custom)
}

fn rules(
    prefixes: &[&str],
    suffixes: &[&str],
    infixes: &[&str],
    literals: &[&str],
    token_match: Option<&str>,
    url_match: Option<&str>,
    exc: ExceptionMap,
) -> TokenizerRules {
    TokenizerRules::from_parts(
        &strings(prefixes),
        &strings(suffixes),
        &strings(infixes),
        &strings(literals),
        token_match,
        url_match,
        exc,
    )
    .unwrap()
}

fn empty_rules() -> TokenizerRules {
    rules(&[], &[], &[], &[], None, None, ExceptionMap::new())
}

fn texts(toks: &[(String, usize, usize)]) -> Vec<&str> {
    toks.iter().map(|t| t.0.as_str()).collect()
}

fn offsets(toks: &[(String, usize, usize)]) -> Vec<(usize, usize)> {
    toks.iter().map(|t| (t.1, t.2)).collect()
}

#[test]
fn overlapping_infix_spans_merge_into_one() {
    let merged = resolve_spans(&vec![(2, 5), (4, 8)]);
    assert_eq!(merged, vec![(2, 8)]);
    let pieces = split_at_spans("abcdefgh", &merged);
    assert_eq!(pieces, strings(&["ab", "cdefgh"]));
}

#[test]
fn spans_sort_leftmost_then_longest() {
    let sorted = sort_spans(&vec![(4, 5), (1, 2), (1, 4), (0, 1)]);
    assert_eq!(sorted, vec![(0, 1), (1, 4), (1, 2), (4, 5)]);
}

#[test]
fn sweep_keeps_touching_spans_apart_and_drops_contained_ones() {
    let merged = merge_sorted_spans(&vec![(0, 2), (2, 4), (2, 3), (3, 6), (7, 8)]);
    assert_eq!(merged, vec![(0, 2), (2, 6), (7, 8)]);
}

#[test]
fn split_at_spans_cuts_runs_and_spans() {
    let pieces = split_at_spans("ab-cd-", &vec![(2, 3), (5, 6)]);
    assert_eq!(pieces, strings(&["ab", "-", "cd", "-"]));
    let whole = split_at_spans("xyz", &vec![]);
    assert_eq!(whole, strings(&["xyz"]));
}

#[test]
fn end_to_end_exception_and_suffix() {
    let exc = exceptions(vec![("don't", vec![("do", None), ("n't", Some("not"))])]);
    let r = rules(&[], &[r"\."], &[], &[], None, None, exc);
    let toks = tokenize_line("don't stop.", &r, 0);
    assert_eq!(texts(&toks), vec!["do", "n't", "stop", "."]);
    assert_eq!(offsets(&toks), vec![(0, 2), (2, 5), (6, 10), (10, 11)]);
}

#[test]
fn end_to_end_whole_token_and_suffix() {
    let r = rules(&[], &["!"], &[], &[], Some(r"^\$[0-9]+(?:\.[0-9]{2})?$"), None, ExceptionMap::new());
    let toks = tokenize_line("$5.00!", &r, 0);
    assert_eq!(texts(&toks), vec!["$5.00", "!"]);
    assert_eq!(offsets(&toks), vec![(0, 5), (5, 6)]);
}

#[test]
fn chunk_without_rules_is_one_token() {
    let toks = tokenize_chunk("hello", &empty_rules(), 7);
    assert_eq!(toks, vec![("hello".to_string(), 7, 12)]);
}

#[test]
fn empty_chunk_gives_no_tokens() {
    assert!(tokenize_chunk("", &empty_rules(), 3).is_empty());
}

#[test]
fn exception_wins_over_other_rules() {
    let exc = exceptions(vec![("can't", vec![("ca", None), ("n't", None)])]);
    let r = rules(&["c"], &["t"], &["'"], &["a"], Some(".*"), None, exc);
    let toks = tokenize_chunk("can't", &r, 10);
    assert_eq!(toks, vec![("ca".to_string(), 10, 12), ("n't".to_string(), 12, 15)]);
}

#[test]
fn partial_exception_falls_through() {
    let exc = exceptions(vec![("abc", vec![("ab", None)])]);
    let r = rules(&[], &[], &[], &[], None, None, exc);
    let toks = tokenize_chunk("abc", &r, 0);
    assert_eq!(toks, vec![("abc".to_string(), 0, 3)]);
}

#[test]
fn url_match_keeps_chunk_whole() {
    let r = rules(&[], &["/"], &["[.]"], &[], None, Some(r"^https?://\S+$"), ExceptionMap::new());
    let toks = tokenize_chunk("http://a.b/", &r, 0);
    assert_eq!(texts(&toks), vec!["http://a.b/"]);
}

#[test]
fn prefixes_restart_from_first_pattern() {
    let r = rules(&[r#"""#, r"\("], &[], &[], &[], None, None, ExceptionMap::new());
    let toks = tokenize_chunk("(\"(x", &r, 0);
    assert_eq!(texts(&toks), vec!["(", "\"", "(", "x"]);
    assert_eq!(offsets(&toks), vec![(0, 1), (1, 2), (2, 3), (3, 4)]);
}

#[test]
fn suffixes_come_out_innermost_first() {
    let r = rules(&[], &[r"\)", r"\.", r"'s"], &[], &[], None, None, ExceptionMap::new());
    let toks = tokenize_chunk("dog's.)", &r, 0);
    assert_eq!(texts(&toks), vec!["dog", "'s", ".", ")"]);
}

#[test]
fn suffix_must_end_at_the_edge() {
    let r = rules(&[], &["ab"], &[], &[], None, None, ExceptionMap::new());
    let toks = tokenize_chunk("abxab", &r, 0);
    assert_eq!(texts(&toks), vec!["abx", "ab"]);
}

#[test]
fn literal_and_regex_infixes_split_the_middle() {
    let r = rules(&[], &[], &[r"(?<=[0-9])-(?=[0-9])"], &["/"], None, None, ExceptionMap::new());
    let toks = tokenize_chunk("a/b1-2", &r, 0);
    assert_eq!(texts(&toks), vec!["a", "/", "b1", "-", "2"]);
}

#[test]
fn infix_resolver_without_candidates_keeps_text() {
    let pieces = simple_infix_tokenize_chunk_internal("plain", None, &vec![]);
    assert_eq!(pieces, strings(&["plain"]));
    assert!(simple_infix_tokenize_chunk_internal("", None, &vec![]).is_empty());
}

#[test]
fn offsets_count_characters_not_bytes() {
    let r = rules(&[], &["!"], &[], &[], None, None, ExceptionMap::new());
    let toks = tokenize_line("héé! ça", &r, 100);
    assert_eq!(texts(&toks), vec!["héé", "!", "ça"]);
    assert_eq!(offsets(&toks), vec![(100, 103), (103, 104), (105, 107)]);
}

#[test]
fn chunks_carry_character_offsets() {
    let chunks = split_chunks("  a\u{3000}bc\t\td ");
    assert_eq!(chunks, vec![(2, "a".to_string()), (4, "bc".to_string()), (8, "d".to_string())]);
    assert!(split_chunks(" \n ").is_empty());
}

#[test]
fn whitespace_test_matches_std() {
    for u in 0u32..0x3100 {
        if let Some(c) = char::from_u32(u) {
            assert_eq!(chunk_tokenizer::line::is_whitespace_char(c), c.is_whitespace(), "{:x}", u);
        }
    }
}

#[test]
fn tokens_of_one_chunk_are_contiguous() {
    let r = TokenizerRules::new().unwrap();
    let toks = tokenize_chunk("(\"Hello,world!!\")", &r, 5);
    let joined: String = toks.iter().map(|t| t.0.as_str()).collect();
    assert_eq!(joined, "(\"Hello,world!!\")");
    assert_eq!(toks[0].1, 5);
    for w in toks.windows(2) {
        assert_eq!(w[0].2, w[1].1);
    }
    for t in &toks {
        assert_eq!(t.2 - t.1, t.0.chars().count());
    }
}

#[test]
fn assembly_ignores_arrival_order() {
    let r = TokenizerRules::new().unwrap();
    let line = "I can't  go (now), ok?";
    let sequential = tokenize_line(line, &r, 40);
    let chunks = split_chunks(line);
    let mut results: Vec<(usize, Vec<(String, usize, usize)>)> =
        chunks.iter().map(|(off, text)| (*off, tokenize_chunk(text, &r, 40 + off))).collect();
    results.reverse();
    results.swap(0, 2);
    let assembled = assemble_chunk_tokens(results);
    assert_eq!(assembled, sequential);
}

#[test]
fn english_rules_split_contractions_and_punctuation() {
    let r = TokenizerRules::new().unwrap();
    let toks = tokenize_line("don't stop.", &r, 0);
    assert_eq!(texts(&toks), vec!["do", "n't", "stop", "."]);
    assert_eq!(offsets(&toks), vec![(0, 2), (2, 5), (6, 10), (10, 11)]);
}

#[test]
fn english_rules_keep_numbers_and_abbreviations() {
    let r = TokenizerRules::new().unwrap();
    let toks = tokenize_line("Dr. Smith paid 1,000.50 :)", &r, 0);
    assert_eq!(texts(&toks), vec!["Dr.", "Smith", "paid", "1,000.50", ":)"]);
}

#[test]
fn compile_errors_name_the_failing_rule() {
    let bad = "(";
    let e = |p: &[&str], s: &[&str], i: &[&str], t: Option<&str>, u: Option<&str>| {
        TokenizerRules::from_parts(&strings(p), &strings(s), &strings(i), &vec![], t, u, ExceptionMap::new()).err()
    };
    assert_eq!(e(&["a", bad], &[], &[], None, None), Some(RuleError::Prefix(1)));
    assert_eq!(e(&["a"], &[bad], &[], None, None), Some(RuleError::Suffix(0)));
    assert_eq!(e(&[], &[], &["x", "y", bad], None, None), Some(RuleError::RegexInfix(2)));
    assert_eq!(e(&[], &[], &[], Some(bad), None), Some(RuleError::TokenMatch));
    assert_eq!(e(&[], &[], &[], None, Some(bad)), Some(RuleError::UrlMatch));
    assert_eq!(e(&[], &[], &[], Some("a"), Some("b")), None);
    let lit = |l: &[&str]| {
        TokenizerRules::from_parts(&vec![], &vec![], &vec![], &strings(l), None, None, ExceptionMap::new()).err()
    };
    assert_eq!(lit(&["-", ""]), Some(RuleError::LiteralInfix));
    assert_eq!(lit(&["-", "é"]), None);
}

#[test]
fn regex_positions_are_in_characters() {
    let r = rules(&[], &[], &["b+"], &[], None, None, ExceptionMap::new());
    let toks = tokenize_chunk("ééxbbc", &r, 0);
    assert_eq!(texts(&toks), vec!["ééx", "bb", "c"]);
    assert_eq!(offsets(&toks), vec![(0, 3), (3, 5), (5, 6)]);
    let toks = tokenize_chunk("bébb", &r, 0);
    assert_eq!(texts(&toks), vec!["b", "é", "bb"]);
}

#[test]
fn literal_matches_are_in_characters() {
    let r = rules(&[], &[], &[], &["--", "-", "é"], None, None, ExceptionMap::new());
    let toks = tokenize_chunk("aé--b-", &r, 0);
    assert_eq!(texts(&toks), vec!["a", "é", "--", "b", "-"]);
    assert_eq!(offsets(&toks), vec![(0, 1), (1, 2), (2, 4), (4, 5), (5, 6)]);
}

#[test]
fn prefix_and_suffix_positions_are_in_characters() {
    let r = rules(&["«"], &["»"], &[], &[], None, None, ExceptionMap::new());
    let toks = tokenize_chunk("«ça»", &r, 2);
    assert_eq!(texts(&toks), vec!["«", "ça", "»"]);
    assert_eq!(offsets(&toks), vec![(2, 3), (3, 5), (5, 6)]);
}

#[test]
fn tokens_are_line_text_at_their_offsets() {
    let r = TokenizerRules::new().unwrap();
    let line = "  «Hello», world!! (see: https://example.com/x) — 3.14km 5+6  ";
    let base = 1000;
    let toks = tokenize_line(line, &r, base);
    let chars: Vec<char> = line.chars().collect();
    assert!(!toks.is_empty());
    for t in &toks {
        let at: String = chars[t.1 - base..t.2 - base].iter().collect();
        assert_eq!(at, t.0);
    }
    for w in toks.windows(2) {
        assert!(w[0].2 <= w[1].1);
    }
}

#[test]
fn single_chunk_line_tokens_meet_from_the_base() {
    let r = TokenizerRules::new().unwrap();
    let toks = tokenize_line("(stop).  ", &r, 9);
    assert_eq!(texts(&toks), vec!["(", "stop", ")", "."]);
    assert_eq!(toks[0].1, 9);
    for w in toks.windows(2) {
        assert_eq!(w[0].2, w[1].1);
    }
}

#[test]
fn overlapping_literal_occurrences_merge() {
    let r = rules(&[], &[], &[], &["ab", "bc"], None, None, ExceptionMap::new());
    let toks = tokenize_chunk("xabcy", &r, 0);
    assert_eq!(texts(&toks), vec!["x", "abc", "y"]);
}

#[test]
fn english_rule_set_compiles_every_table() {
    let r = TokenizerRules::new().unwrap();
    let toks = tokenize_line("10pm I'll", &r, 0);
    assert_eq!(texts(&toks), vec!["10", "pm", "I", "'ll"]);
}

#[test]
fn line_offsets_advance_past_terminators() {
    assert_eq!(next_line_offset(0, "don't stop.", "\n"), Some(12));
    assert_eq!(next_line_offset(12, "", "\r\n"), Some(14));
    assert_eq!(next_line_offset(14, "é", ""), Some(15));
    assert_eq!(next_line_offset(usize::MAX - 1, "ab", ""), None);
}

#[test]
fn empty_literal_never_reaches_the_matcher() {
    let r = TokenizerRules::from_parts(&vec![], &vec![], &vec![], &strings(&[""]), None, None, ExceptionMap::new());
    assert!(matches!(r, Err(RuleError::LiteralInfix)));
}
