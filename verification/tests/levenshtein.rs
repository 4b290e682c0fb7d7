use omni_compiler::levenshtein::{
    damerau_levenshtein_distance, damerau_suggestions, get_edit_operations, keyword_suggestion,
    levenshtein_distance, levenshtein_suggestions, DidYouMean, EditType,
};
use std::collections::HashMap;

fn keyword_list() -> Vec<String> {
    vec![
        "fn".to_string(),
        "let".to_string(),
        "mut".to_string(),
        "pub".to_string(),
        "struct".to_string(),
        "enum".to_string(),
        "trait".to_string(),
        "impl".to_string(),
    ]
}

#[test]
fn test_levenshtein_basic() {
    assert_eq!(levenshtein_distance("kitten", "kitten"), 0);
    assert_eq!(levenshtein_distance("kitten", "kittEn"), 1);
    assert_eq!(levenshtein_distance("kitten", "sitting"), 3);
    assert_eq!(levenshtein_distance("kitten", "sit"), 4);
    assert_eq!(levenshtein_distance("", "test"), 4);
    assert_eq!(levenshtein_distance("test", ""), 4);
}

#[test]
fn test_damerau_levenshtein() {
    assert_eq!(damerau_levenshtein_distance("ca", "abc"), 3);
    assert_eq!(damerau_levenshtein_distance("ca", "acb"), 2);
    assert_eq!(damerau_levenshtein_distance("ab", "ba"), 1);
}

#[test]
fn test_did_you_mean() {
    let candidates = keyword_list();
    let dym = DidYouMean::new("fnn").with_candidates(candidates.clone(), 2);

    assert!(!dym.is_empty());
    assert_eq!(dym.len(), 1);
    assert_eq!(dym.best().unwrap().name, "fn");

    let candidates = keyword_list();
    let dym = DidYouMean::new("struc").with_candidates(candidates, 2);
    assert_eq!(dym.best().unwrap().name, "struct");
}

#[test]
fn test_did_you_mean_multiple() {
    let candidates = vec!["fn".to_string(), "for".to_string(), "func".to_string()];
    let dym = DidYouMean::new("fnn").with_candidates(candidates, 2);

    assert!(dym.len() >= 2);
    let msg = dym.message().unwrap();
    assert!(msg.contains("fn") || msg.contains(","));
}

#[test]
fn test_keyword_suggestion() {
    let keywords = &["fn", "let", "mut", "pub", "struct", "enum"];

    assert_eq!(keyword_suggestion("fnn", keywords), Some("fn".to_string()));
    assert_eq!(keyword_suggestion("mutt", keywords), Some("mut".to_string()));
    assert_eq!(keyword_suggestion("publi", keywords), Some("pub".to_string()));
    assert_eq!(keyword_suggestion("xyz", keywords), None);
}

#[test]
fn test_suggestions_sorted() {
    let candidates = &["pub", "put", "fn", "fun"];
    let suggestions = levenshtein_suggestions("fnn", candidates, 3);

    assert!(!suggestions.is_empty());
    assert!(suggestions[0].1 <= suggestions.get(1).map(|(_, d)| *d).unwrap_or(0));
}

#[test]
fn distance_to_itself_is_zero_and_symmetric() {
    assert_eq!(levenshtein_distance("omni", "omni"), 0);
    assert_eq!(levenshtein_distance("flaw", "lawn"), levenshtein_distance("lawn", "flaw"));
    assert_eq!(levenshtein_distance("flaw", "lawn"), 2);
    assert_eq!(damerau_levenshtein_distance("abcd", "abcd"), 0);
}

#[test]
fn transposition_distance_never_exceeds_edit_distance() {
    assert_eq!(levenshtein_distance("ab", "ba"), 2);
    assert_eq!(damerau_levenshtein_distance("ab", "ba"), 1);
    assert!(damerau_levenshtein_distance("struct", "sturct") <= levenshtein_distance("struct", "sturct"));
}

#[test]
fn distance_is_bounded_by_longer_input() {
    assert_eq!(levenshtein_distance("abc", "xyz"), 3);
    assert!(levenshtein_distance("ab", "wxyz") <= 4);
}

#[test]
fn edit_operations_count_matches_distance() {
    let r = get_edit_operations("kitten", "sitting");
    assert_eq!(r.distance(), 3);
    assert_eq!(r.operations().len(), 3);
    let r = get_edit_operations("abc", "abc");
    assert_eq!(r.distance(), 0);
    assert!(r.operations().is_empty());
    let r = get_edit_operations("", "ab");
    assert_eq!(r.operations().len(), 2);
    assert!(matches!(r.operations()[0].op, EditType::Insert));
}

#[test]
fn did_you_mean_is_case_insensitive() {
    let dym = DidYouMean::new("FN").with_candidates(vec!["fn".to_string()], 0);
    assert_eq!(dym.len(), 1);
    assert_eq!(dym.best().unwrap().distance, 0);
}

#[test]
fn did_you_mean_without_candidates_has_no_message() {
    let dym = DidYouMean::new("zzzzzz").with_candidates(keyword_list(), 1);
    assert!(dym.is_empty());
    assert_eq!(dym.message(), None);
    assert!(dym.best().is_none());
}

#[test]
fn damerau_suggestions_count_swaps_once() {
    let candidates = &["struct", "enum"];
    let s = damerau_suggestions("sturct", candidates, 1);
    assert_eq!(s, vec![("struct", 1)]);
    let s = levenshtein_suggestions("sturct", candidates, 1);
    assert!(s.is_empty());
}

#[test]
fn similar_identifier_found_within_distance() {
    let mut ids: HashMap<String, usize> = HashMap::new();
    ids.insert("counter".to_string(), 1);
    ids.insert("total".to_string(), 2);
    let found = omni_compiler::levenshtein::find_similar_identifier("countr", &ids, 2);
    assert_eq!(found, Some(("counter".to_string(), 1)));
    let none = omni_compiler::levenshtein::find_similar_identifier("zzzzzzzz", &ids, 2);
    assert_eq!(none, None);
}

#[test]
fn distance_laws_on_examples() {
    for (a, b) in [("kitten", "sitting"), ("ab", "ba"), ("", "xyz"), ("flaw", "lawn")] {
        assert_eq!(levenshtein_distance(a, a), 0);
        assert_eq!(damerau_levenshtein_distance(a, a), 0);
        assert_eq!(levenshtein_distance(a, b), levenshtein_distance(b, a));
        assert_eq!(damerau_levenshtein_distance(a, b), damerau_levenshtein_distance(b, a));
        assert!(damerau_levenshtein_distance(a, b) <= levenshtein_distance(a, b));
        let (la, lb) = (a.chars().count(), b.chars().count());
        assert!(levenshtein_distance(a, b) <= la.max(lb));
        assert!(levenshtein_distance(a, b) >= la.abs_diff(lb));
    }
    assert_eq!(damerau_levenshtein_distance("ab", "ba"), 1);
    assert_eq!(levenshtein_distance("ab", "ba"), 2);
}

#[test]
fn zero_distance_only_between_equal_strings() {
    assert_eq!(levenshtein_distance("same", "same"), 0);
    assert!(levenshtein_distance("same", "Same") > 0);
    assert!(levenshtein_distance("", "a") > 0);
}

#[test]
fn distance_obeys_the_triangle_inequality() {
    let (a, b, c) = ("kitten", "sitten", "sitting");
    assert!(levenshtein_distance(a, c) <= levenshtein_distance(a, b) + levenshtein_distance(b, c));
    assert_eq!(levenshtein_distance(a, c), 3);
}

#[test]
fn edit_script_balances_insertions_and_deletions() {
    let r = get_edit_operations("abc", "xabcde");
    let ins = r.operations().iter().filter(|o| o.op == EditType::Insert).count() as i64;
    let del = r.operations().iter().filter(|o| o.op == EditType::Delete).count() as i64;
    assert_eq!(ins - del, 3);
    let r = get_edit_operations("kitten", "sitting");
    assert!(r.operations().iter().all(|o| o.op != EditType::Transpose));
    assert!(r.operations().iter().filter(|o| o.op == EditType::Replace).all(|o| o.from != o.to));
}
