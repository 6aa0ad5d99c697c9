//! Filters: fuzzy, substring, and regex.

use fuzzy_matcher::skim::SkimMatcherV2;
use logtui::filter::{
    find_folded, find_occurrences, hits_of_spans, indices_of_spans, is_case_sensitive,
    smart_matcher, substring_indices, Filter, MatchMode,
};

fn fuzzy() -> SkimMatcherV2 {
    SkimMatcherV2::default().smart_case()
}

fn hits(query: &str, mode: MatchMode, line: &str) -> Option<Vec<usize>> {
    Filter::new(query.into(), mode).match_indices(&fuzzy(), line)
}

#[test]
fn substring_smart_case() {
    assert_eq!(
        substring_indices("Error error", "error"),
        Some(vec![0, 1, 2, 3, 4, 6, 7, 8, 9, 10])
    );
    assert_eq!(substring_indices("Error error", "Error"), Some(vec![0, 1, 2, 3, 4]));
    assert_eq!(substring_indices("hello", "xyz"), None);
}

#[test]
fn fuzzy_matches_subsequence() {
    let f = Filter::new("err".into(), MatchMode::Fuzzy);
    assert!(f.match_indices(&fuzzy(), "2024-01-01 ERRor happened").is_some());
    assert!(f.match_indices(&fuzzy(), "completely unrelated").is_none());
}

#[test]
fn regex_and_fallback() {
    let f = Filter::new(r"er+r".into(), MatchMode::Regex);
    assert_eq!(f.effective_mode(), MatchMode::Regex);
    assert!(f.match_indices(&fuzzy(), "an errror here").is_some());

    let bad = Filter::new("([".into(), MatchMode::Regex);
    assert!(bad.is_regex_fallback());
    assert_eq!(bad.effective_mode(), MatchMode::Substring);
    // falls back to literal substring
    assert!(bad.match_indices(&fuzzy(), "literal ([ in text").is_some());
}

#[test]
fn labels() {
    assert_eq!(MatchMode::Fuzzy.label(), "fuzzy");
    assert_eq!(MatchMode::Substring.label(), "substr");
    assert_eq!(MatchMode::Regex.label(), "regex");
}

#[test]
fn only_an_uppercase_character_makes_case_count() {
    assert!(!is_case_sensitive("error 42 ü"));
    assert!(is_case_sensitive("Error"));
    assert!(is_case_sensitive("caseÜ"));
    assert!(!is_case_sensitive(""));
    // In any script.
    assert_eq!(substring_indices("GRÜSSE", "grüsse"), Some(vec![0, 1, 2, 3, 4, 5]));
    assert_eq!(substring_indices("ÜBER", "über"), Some(vec![0, 1, 2, 3]));
    assert_eq!(substring_indices("ΔΕΛΤΑ δέλτα", "δε"), Some(vec![0, 1]));
    assert_eq!(substring_indices("über", "Über"), None);
    // A lowercase of several characters is compared as a whole.
    assert_eq!(substring_indices("x\u{130}y", "i\u{307}"), None);
    assert_eq!(find_occurrences("x\u{130}y", "\u{130}", false), Some(vec![1]));
    assert_eq!(find_occurrences("Ü", "ü", true), None);
    assert_eq!(find_occurrences("aAa", "a", true), Some(vec![0, 2]));
    assert_eq!(find_occurrences("aAa", "a", false), Some(vec![0, 1, 2]));
}

#[test]
fn characters_are_compared_by_what_they_fold_to() {
    let line = vec![vec!['a'], vec!['i', '\u{307}'], vec!['a'], vec!['i', '\u{307}']];
    let query = vec![vec!['a'], vec!['i', '\u{307}']];
    assert_eq!(find_folded(&line, &query), Some(vec![0, 1, 2, 3]));
    assert_eq!(find_folded(&line, &vec![vec!['i']]), None);
    assert_eq!(find_folded(&line, &vec![]), None);
    assert_eq!(find_folded(&vec![], &query), None);
}

#[test]
fn substring_hits_do_not_overlap() {
    assert_eq!(substring_indices("aaaaa", "aa"), Some(vec![0, 1, 2, 3]));
    assert_eq!(substring_indices("aXaaX", "aax"), Some(vec![2, 3, 4]));
    assert_eq!(substring_indices("baab", "ab"), Some(vec![2, 3]));
    assert_eq!(substring_indices("ab", "abc"), None);
    assert_eq!(substring_indices("ab", ""), None);
    assert_eq!(substring_indices("", ""), None);
    assert_eq!(substring_indices("abc", "abc"), Some(vec![0, 1, 2]));
}

#[test]
fn fuzzy_highlights_are_increasing_and_in_range() {
    for (line, query) in [
        ("2024-01-01 ERRor happened", "err"),
        ("a b c d e f", "ace"),
        ("grüße aus köln", "gkn"),
        ("src/app.rs", "srs"),
    ] {
        let found = hits(query, MatchMode::Fuzzy, line).unwrap();
        assert!(!found.is_empty() && found.len() <= query.chars().count());
        assert!(found.windows(2).all(|w| w[0] < w[1]));
        assert!(found.iter().all(|i| *i < line.chars().count()));
        // they pick the query out of the line
        let chars: Vec<char> = line.chars().collect();
        let picked: String = found.iter().map(|i| chars[*i]).collect();
        assert_eq!(picked.to_lowercase(), query);
    }
}

#[test]
fn fuzzy_picks_the_query_whatever_was_matched_before() {
    let matcher = fuzzy();
    let mut line = String::new();
    for i in 0..400 {
        line.push_str(["ab/", "Cd ", "e.f", "xy_"][i % 4]);
        let chars: Vec<char> = line.chars().collect();
        for query in ["ad", "bCe", "xyabcd", "f", "yc"] {
            let f = Filter::new(query.into(), MatchMode::Fuzzy);
            if let Some(found) = f.match_indices(&matcher, &line) {
                let picked: String = found.iter().map(|i| chars[*i]).collect();
                assert!(picked.eq_ignore_ascii_case(query));
            }
        }
    }
}

#[test]
fn the_librarys_matcher_is_smart() {
    let f = Filter::new("err".into(), MatchMode::Fuzzy);
    assert!(f.match_indices(&smart_matcher(), "an ERROR").is_some());
    let f = Filter::new("Err".into(), MatchMode::Fuzzy);
    assert!(f.match_indices(&smart_matcher(), "an ERROR").is_none());
    // Fuzzy matching folds ASCII letters only.
    let f = Filter::new("über".into(), MatchMode::Fuzzy);
    assert!(f.match_indices(&smart_matcher(), "ÜBER").is_none());
}

#[test]
fn fuzzy_is_smart_case() {
    assert!(hits("error", MatchMode::Fuzzy, "ERROR").is_some());
    assert!(hits("Error", MatchMode::Fuzzy, "ERROR").is_none());
    assert!(hits("ER", MatchMode::Fuzzy, "an ERROR").is_some());
    assert!(hits("ro", MatchMode::Fuzzy, "or").is_none());
    assert!(hits("abc", MatchMode::Fuzzy, "").is_none());
}

#[test]
fn a_longer_fuzzy_query_never_matches_more() {
    let lines = ["error one", "ok", "Error Two", "rerror", "", "e r r o r"];
    let query: Vec<char> = "erRor".chars().collect();
    for n in 1..query.len() {
        let short: String = query[..n].iter().collect();
        let long: String = query[..n + 1].iter().collect();
        for line in lines {
            if hits(&long, MatchMode::Fuzzy, line).is_some() {
                assert!(hits(&short, MatchMode::Fuzzy, line).is_some());
            }
        }
    }
}

#[test]
fn regex_highlights_every_match_in_chars() {
    assert_eq!(hits("e+", MatchMode::Regex, "eegee"), Some(vec![0, 1, 3, 4]));
    // Offsets are characters, not bytes.
    assert_eq!(hits("ß.", MatchMode::Regex, "grüße ß!"), Some(vec![3, 4, 6, 7]));
    assert_eq!(hits("^x", MatchMode::Regex, "axx"), None);
    // Only empty matches: a match with nothing to highlight.
    assert_eq!(hits("x*", MatchMode::Regex, "abc"), Some(vec![]));
    assert_eq!(hits("x*", MatchMode::Regex, "axb"), Some(vec![1]));
    assert_eq!(hits("^$", MatchMode::Regex, ""), Some(vec![]));
    assert_eq!(hits("^$", MatchMode::Regex, "a"), None);
    // Case counts as the pattern says.
    assert_eq!(hits("error", MatchMode::Regex, "ERROR"), None);
    assert_eq!(hits("(?i)error", MatchMode::Regex, "ERROR"), Some(vec![0, 1, 2, 3, 4]));
}

#[test]
fn byte_ranges_become_char_indices() {
    // "aüb": bytes 0..1, 1..3, 3..4
    assert_eq!(indices_of_spans("aüb", &vec![(0, 1), (1, 3), (3, 4)]), vec![0, 1, 2]);
    assert_eq!(indices_of_spans("aüb", &vec![(1, 4)]), vec![1, 2]);
    assert_eq!(indices_of_spans("aüb", &vec![(3, 3)]), Vec::<usize>::new());
    assert_eq!(indices_of_spans("", &vec![]), Vec::<usize>::new());
    assert_eq!(hits_of_spans("aüb", &vec![]), None);
    assert_eq!(hits_of_spans("aüb", &vec![(0, 0), (3, 3)]), Some(vec![]));
    assert_eq!(hits_of_spans("aüb", &vec![(0, 0), (1, 3)]), Some(vec![1]));
}

#[test]
fn an_invalid_regex_matches_like_a_substring() {
    for line in ["a ([ b", "A ([ B", "nothing", "(["] {
        assert_eq!(
            hits("([", MatchMode::Regex, line),
            hits("([", MatchMode::Substring, line)
        );
    }
    let good = Filter::new("a".into(), MatchMode::Regex);
    assert!(!good.is_regex_fallback());
    let asked = Filter::new("([".into(), MatchMode::Substring);
    assert!(!asked.is_regex_fallback());
}

#[test]
fn an_empty_query_matches_nothing() {
    for mode in [MatchMode::Fuzzy, MatchMode::Substring, MatchMode::Regex] {
        let f = Filter::new("".into(), mode);
        assert_eq!(f.query(), "");
        assert_eq!(f.match_indices(&fuzzy(), "anything"), None);
        assert_eq!(f.match_indices(&fuzzy(), ""), None);
    }
}
