use word_suggest::suggest::{is_legal, refresh_suggestions, starts_with, word_start};

fn cv(s: &str) -> Vec<char> {
    s.chars().collect()
}

fn dict(words: &[&str]) -> Vec<Vec<char>> {
    words.iter().map(|w| cv(w)).collect()
}

#[test]
fn word_start_plain() {
    assert_eq!(word_start(&cv("abc")), cv("abc"));
}

#[test]
fn word_start_after_space() {
    assert_eq!(word_start(&cv("ab cd")), cv("cd"));
}

#[test]
fn word_start_trailing_space() {
    assert_eq!(word_start(&cv("ab cd ")), cv(""));
    assert_eq!(word_start(&cv("ab\t")), cv(""));
}

#[test]
fn word_start_empty() {
    assert_eq!(word_start(&cv("")), cv(""));
}

#[test]
fn starts_with_prefix() {
    assert!(starts_with(&cv("ca"), &cv("cat")));
    assert!(starts_with(&cv(""), &cv("cat")));
    assert!(!starts_with(&cv("co"), &cv("cat")));
    assert!(!starts_with(&cv("cats"), &cv("cat")));
}

#[test]
fn legal_zero_account_rejects_letters() {
    let zeros = vec![0i32; 26];
    assert!(is_legal(&cv(""), &cv(""), &zeros));
    assert!(!is_legal(&cv(""), &cv("a"), &zeros));
    assert!(is_legal(&cv(""), &cv("?!"), &zeros));
}

#[test]
fn legal_positive_account_boundary() {
    let mut acct = vec![0i32; 26];
    acct[0] = 2;
    assert!(is_legal(&cv(""), &cv("aa"), &acct));
    assert!(!is_legal(&cv(""), &cv("aaa"), &acct));
}

#[test]
fn ranking_descending_length_stable() {
    let letters = vec![10i32; 26];
    let words = dict(&["cat", "dogs", "ox", "a"]);
    let r = refresh_suggestions(&cv(""), &letters, &words);
    assert_eq!(r, dict(&["dogs", "cat", "ox", "a"]));
}

#[test]
fn ranking_ties_keep_dictionary_order() {
    let letters = vec![10i32; 26];
    let words = dict(&["bat", "cat", "at"]);
    let r = refresh_suggestions(&cv(""), &letters, &words);
    assert_eq!(r, dict(&["bat", "cat", "at"]));
}

#[test]
fn prefix_filters_candidates() {
    let letters = vec![10i32; 26];
    let words = dict(&["cat", "car", "dog"]);
    let r = refresh_suggestions(&cv("ca"), &letters, &words);
    assert_eq!(r, dict(&["cat", "car"]));
}

#[test]
fn refresh_is_idempotent() {
    let letters = vec![3i32; 26];
    let words = dict(&["cat", "dogs", "ox", "a"]);
    let r1 = refresh_suggestions(&cv("o"), &letters, &words);
    let r2 = refresh_suggestions(&cv("o"), &letters, &words);
    assert_eq!(r1, r2);
}

#[test]
fn suggestions_capped_at_100() {
    let letters = vec![1i32; 26];
    let mut words: Vec<Vec<char>> = Vec::new();
    for _ in 0..150 {
        words.push(cv("a"));
    }
    let r = refresh_suggestions(&cv(""), &letters, &words);
    assert_eq!(r.len(), 100);
}

#[test]
fn empty_dictionary_gives_empty_list() {
    let letters = vec![5i32; 26];
    let r = refresh_suggestions(&cv("a"), &letters, &Vec::new());
    assert!(r.is_empty());
}
