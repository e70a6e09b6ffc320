use word_suggest::letters::{count_chars, letter_to_index};

fn cv(s: &str) -> Vec<char> {
    s.chars().collect()
}

#[test]
fn letter_to_index_bounds() {
    assert_eq!(letter_to_index('a'), 0);
    assert_eq!(letter_to_index('z'), 25);
    assert_eq!(letter_to_index('A'), 0);
    assert_eq!(letter_to_index('Z'), 25);
    assert_eq!(letter_to_index('m'), 12);
}

#[test]
fn count_chars_basic() {
    let r = count_chars(&cv("abc"), &cv("cc"));
    assert_eq!(r.len(), 26);
    assert_eq!(r[0], -1);
    assert_eq!(r[1], -1);
    assert_eq!(r[2], 1);
    for i in 3..26 {
        assert_eq!(r[i], 0);
    }
}

#[test]
fn count_chars_ignores_non_letters() {
    let r = count_chars(&cv("a1! "), &cv("2b?\n"));
    assert_eq!(r[0], -1);
    assert_eq!(r[1], 1);
    for i in 2..26 {
        assert_eq!(r[i], 0);
    }
}

#[test]
fn count_chars_case_insensitive() {
    let r = count_chars(&cv("AbC"), &cv("aBc"));
    for i in 0..26 {
        assert_eq!(r[i], 0);
    }
}

#[test]
fn count_chars_reorder_invariant() {
    let r1 = count_chars(&cv("listen"), &cv("dogs"));
    let r2 = count_chars(&cv("netsil"), &cv("gods"));
    assert_eq!(r1, r2);
}

#[test]
fn count_chars_empty() {
    let r = count_chars(&cv(""), &cv(""));
    assert_eq!(r, vec![0; 26]);
}
