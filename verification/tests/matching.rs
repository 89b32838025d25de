use rainstash::fuzzy_match;
use rainstash::fuzzy_match_simple;

#[test]
fn empty_pattern_never_matches() {
    assert_eq!(fuzzy_match("", "Item"), (false, 0, vec![]));
    assert!(!fuzzy_match_simple("", "Item"));
}

#[test]
fn empty_document_never_matches() {
    assert_eq!(fuzzy_match("itm", ""), (false, 0, vec![]));
    assert!(!fuzzy_match_simple("itm", ""));
}

#[test]
fn both_empty_never_match() {
    assert_eq!(fuzzy_match("", ""), (false, 0, vec![]));
    assert!(!fuzzy_match_simple("", ""));
}

#[test]
fn concrete_scenario_itm_item() {
    let (matched, score, indices) = fuzzy_match("itm", "Item");
    assert!(matched);
    assert_eq!(indices, vec![0, 1, 3]);
    assert_eq!(score, 14);
}

#[test]
fn matching_is_case_insensitive() {
    let (matched, score, indices) = fuzzy_match("abc", "ABC");
    assert!(matched);
    assert_eq!(indices, vec![0, 1, 2]);
    assert_eq!(score, 20);
    assert!(fuzzy_match_simple("abc", "ABC"));
    assert!(fuzzy_match_simple("ABC", "abc"));
}

#[test]
fn case_insensitive_beyond_ascii() {
    assert!(fuzzy_match("\u{e9}", "\u{c9}").0);
    assert!(fuzzy_match_simple("\u{e9}", "\u{c9}"));
}

#[test]
fn contiguous_match_outranks_scattered_match() {
    let scattered = fuzzy_match("ab", "xaxb").1;
    let contiguous = fuzzy_match("ab", "xabx").1;
    assert!(scattered < contiguous);
    assert_eq!(scattered, -5);
    assert_eq!(contiguous, 1);
}

#[test]
fn separator_boundary_bonus() {
    let after_separator = fuzzy_match("b", "a_b").1;
    let mid_word = fuzzy_match("b", "aab").1;
    assert!(after_separator > mid_word);
    assert_eq!(after_separator, 2);
    assert_eq!(mid_word, -8);
}

#[test]
fn space_counts_as_separator() {
    assert!(fuzzy_match("b", "a b").1 > fuzzy_match("b", "aab").1);
}

#[test]
fn camel_case_boundary_bonus() {
    let camel = fuzzy_match("b", "aB").1;
    let plain = fuzzy_match("b", "ab").1;
    assert!(camel > plain);
    assert_eq!(camel, 6);
    assert_eq!(plain, -4);
}

#[test]
fn leading_letter_penalty_is_clamped() {
    assert_eq!(fuzzy_match("b", "aaaab").1, -13);
    assert_eq!(fuzzy_match("b", "ab").1, -4);
}

#[test]
fn first_character_match_gets_separator_bonus() {
    let (matched, score, indices) = fuzzy_match("a", "a");
    assert!(matched);
    assert_eq!(score, 10);
    assert_eq!(indices, vec![0]);
}

#[test]
fn adjacency_bonus_for_consecutive_matches() {
    let (matched, score, indices) = fuzzy_match("ab", "ab");
    assert!(matched);
    assert_eq!(indices, vec![0, 1]);
    assert_eq!(score, 15);
}

#[test]
fn no_subsequence_means_no_match() {
    let (matched, score, indices) = fuzzy_match("abc", "acb");
    assert!(!matched);
    assert!(indices.len() < 3);
    let _ = score;
    assert!(!fuzzy_match_simple("abc", "acb"));
}

#[test]
fn indices_are_strictly_increasing_and_one_per_pattern_char() {
    for (pattern, document) in [
        ("itm", "Item"),
        ("fzf", "fuzzy_finder"),
        ("aa", "banana"),
        ("xyz", "mixfiylz"),
    ] {
        let (matched, _, indices) = fuzzy_match(pattern, document);
        assert!(matched);
        assert_eq!(indices.len(), pattern.chars().count());
        for pair in indices.windows(2) {
            assert!(pair[0] < pair[1]);
        }
        for &i in &indices {
            assert!(i < document.chars().count());
        }
    }
}

#[test]
fn simple_agrees_whenever_engine_matches() {
    let cases = [
        ("itm", "Item"),
        ("ab", "xaxb"),
        ("b", "a_b"),
        ("abc", "acb"),
        ("zz", "pizza"),
        ("q", "pizza"),
        ("AA", "banana"),
    ];
    for (pattern, document) in cases {
        let (matched, _, _) = fuzzy_match(pattern, document);
        let simple = fuzzy_match_simple(pattern, document);
        if matched {
            assert!(simple);
        }
        if !simple {
            assert!(!matched);
        }
    }
}

#[test]
fn repeated_calls_are_deterministic() {
    let first = fuzzy_match("itm", "Item");
    let second = fuzzy_match("itm", "Item");
    assert_eq!(first, second);
    assert_eq!(
        fuzzy_match_simple("itm", "Item"),
        fuzzy_match_simple("itm", "Item")
    );
}

#[test]
fn repeated_pattern_letters_commit_in_order() {
    let (matched, _, indices) = fuzzy_match("aa", "banana");
    assert!(matched);
    assert_eq!(indices.len(), 2);
    assert!(indices[0] < indices[1]);
}
