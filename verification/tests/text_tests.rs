use license_me::text::{
    concat_parts, contains_str, ends_with_str, last_segment_str, replace_all, split_inclusive,
    str_contains_char, str_eq,
};

#[test]
fn substring_search_finds_inner_matches() {
    assert!(contains_str("hello world", "lo wo"));
    assert!(contains_str("abc", ""));
    assert!(!contains_str("abc", "abcd"));
    assert!(!contains_str("hello", "He"));
}

#[test]
fn character_search_and_suffix_checks() {
    assert!(str_contains_char("a$b", '$'));
    assert!(!str_contains_char("ab", '$'));
    assert!(ends_with_str("/home/u/p/.git", "/.git"));
    assert!(!ends_with_str("/home/u/p/.gitx", "/.git"));
    assert!(!ends_with_str("it", "/.git"));
}

#[test]
fn string_equality_compares_contents() {
    assert!(str_eq("abc", "abc"));
    assert!(!str_eq("abc", "abd"));
    assert!(!str_eq("abc", "ab"));
    assert!(str_eq("", ""));
}

#[test]
fn last_segment_takes_the_tail_after_the_separator() {
    assert_eq!(last_segment_str("/home/u/proj"), "proj");
    assert_eq!(last_segment_str("proj"), "proj");
    assert_eq!(last_segment_str("/a/b/"), "");
    assert_eq!(last_segment_str(""), "");
}

#[test]
fn replace_all_rewrites_every_occurrence() {
    assert_eq!(replace_all("aaa", "a", "b"), "bbb");
    assert_eq!(replace_all("abcabc", "bc", "X"), "aXaX");
    assert_eq!(replace_all("aaa", "aa", "b"), "ba");
    assert_eq!(replace_all("no match", "zz", "y"), "no match");
    assert_eq!(replace_all("[year] and [year]", "[year]", "2024"), "2024 and 2024");
}

#[test]
fn split_inclusive_keeps_the_separator() {
    assert_eq!(split_inclusive("a##b##", "##"), vec!["a##".to_string(), "b##".to_string()]);
    assert_eq!(split_inclusive("a##b", "##"), vec!["a##".to_string(), "b".to_string()]);
    assert_eq!(split_inclusive("x", "##"), vec!["x".to_string()]);
    assert_eq!(split_inclusive("", "##"), Vec::<String>::new());
}

#[test]
fn adjacent_separators_each_end_a_slice() {
    assert_eq!(split_inclusive("####", "##"), vec!["##".to_string(), "##".to_string()]);
    assert_eq!(split_inclusive("###", "##"), vec!["##".to_string(), "#".to_string()]);
}

#[test]
fn concat_restores_the_split_text() {
    let text = "one##two##three";
    let parts = split_inclusive(text, "##");
    assert_eq!(concat_parts(&parts), text);
}
