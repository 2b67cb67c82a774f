use license_me::alike::{is_alike, levenshtein};

#[test]
fn identical_texts_reach_full_similarity() {
    assert!(is_alike("abc", "abc", 100));
}

#[test]
fn disjoint_texts_fail_any_positive_threshold() {
    assert!(!is_alike("abc", "xyz", 1));
    assert!(!is_alike("abc", "xyz", 50));
    assert!(!is_alike("abc", "xyz", 100));
}

#[test]
fn similarity_is_symmetric_on_samples() {
    let pairs = [
        ("abc", "abd"),
        ("hello world", "hello there"),
        ("", "x"),
        ("MIT License", "MIT Licence"),
        ("aaaa", "bbbb"),
    ];
    for (a, b) in pairs {
        for t in [0isize, 25, 50, 75, 100] {
            assert_eq!(is_alike(a, b, t), is_alike(b, a, t));
        }
    }
}

#[test]
fn empty_texts_are_always_alike() {
    assert!(is_alike("", "", 100));
    assert!(is_alike("", "", 1000));
}

#[test]
fn levenshtein_known_distances() {
    assert_eq!(levenshtein("kitten", "sitting"), 3);
    assert_eq!(levenshtein("", "abc"), 3);
    assert_eq!(levenshtein("abc", ""), 3);
    assert_eq!(levenshtein("flaw", "lawn"), 2);
    assert_eq!(levenshtein("abc", "abc"), 0);
    assert_eq!(levenshtein("abc", "axc"), 1);
}

#[test]
fn similarity_threshold_is_an_exact_percentage() {
    // distance 1 over length 4: similarity is exactly 75 percent.
    assert!(is_alike("abcd", "abce", 75));
    assert!(!is_alike("abcd", "abce", 76));
}

#[test]
fn negative_thresholds_always_pass() {
    assert!(is_alike("abc", "xyz", -1));
    assert!(is_alike("abc", "xyz", 0));
}
