use googletest::internal::glob::{is_glob_pattern, Pattern};

fn pattern(p: &str) -> Pattern {
    Pattern::new(p.to_string())
}

#[test]
fn simple_character_match() {
    assert!(pattern("a").matches("a"));
}

#[test]
fn simple_character_mismatch() {
    assert!(!pattern("b").matches("a"));
}

#[test]
fn simple_word_mismatch() {
    assert!(!pattern("judgement").matches("judgment"));
}

#[test]
fn question_match() {
    assert!(pattern("?").matches("a"));
}

#[test]
fn simple_word_question_match() {
    let p = pattern("judg?ment");
    assert!(!p.matches("judgment"));
    assert!(p.matches("judgement"));
    assert!(!p.matches("judge ment"));
}

#[test]
fn question_mismatch() {
    let p = pattern("?");
    assert!(!p.matches(""));
    assert!(!p.matches("aa"));
}

#[test]
fn glob_on_empty() {
    assert!(pattern("*").matches(""));
    assert!(pattern("**").matches(""));
}

#[test]
fn glob_prefix() {
    let p = pattern("*a");
    assert!(!p.matches(""));
    assert!(p.matches("a"));
    assert!(p.matches("ba"));
    assert!(p.matches("bba"));
    assert!(!p.matches("bbab"));
}

#[test]
fn glob_within() {
    let p = pattern("b*a");
    assert!(!p.matches(""));
    assert!(!p.matches("b"));
    assert!(!p.matches("bb"));
    assert!(p.matches("ba"));
    assert!(p.matches("bbbba"));
    assert!(p.matches("baa"));
}

#[test]
fn glob_suffix() {
    let p = pattern("ba*");
    assert!(!p.matches(""));
    assert!(!p.matches("b"));
    assert!(!p.matches("bb"));
    assert!(p.matches("ba"));
    assert!(p.matches("baa"));
    assert!(p.matches("bab"));
    assert!(!p.matches("bba"));
    assert!(!p.matches("bbbba"));
}

#[test]
fn redundant_stars() {
    let p = pattern("**a");
    assert!(!p.matches(""));
    assert!(p.matches("a"));
    assert!(p.matches("ba"));
    assert!(p.matches("bba"));
    assert!(!p.matches("bbab"));
    assert!(p.matches("bbaba"));
}

#[test]
fn star_question_star_case() {
    let p = pattern("*?*");
    assert!(!p.matches(""));
    assert!(p.matches("a"));
    assert!(p.matches("aa"));
    assert!(p.matches("aaa"));
}

#[test]
fn another_case_finding_two_separated_a() {
    let p = pattern("*a?a*");
    assert!(!p.matches(""));
    assert!(!p.matches("a"));
    assert!(!p.matches("aa"));
    assert!(p.matches("aaa"));
    assert!(p.matches("aba"));
    assert!(p.matches("baba"));
    assert!(p.matches("abab"));
    assert!(p.matches("babab"));
}

#[test]
fn banana() {
    let p = pattern("b?n???");
    assert!(p.matches("banana"));
    assert!(p.matches("binary"));
    assert!(p.matches("bundle"));
    assert!(p.matches("bindir"));

    assert!(!p.matches("bananas"));
    assert!(!p.matches("bucket"));
    assert!(!p.matches("budget"));
    assert!(!p.matches("bazzar"));
    assert!(!p.matches("burger"));
}

#[test]
fn glob_word() {
    let word = pattern("*word*");
    assert!(!word.matches("bird"));
    assert!(word.matches("This is a wordy sentence"));
    assert!(word.matches("word soup"));
    assert!(word.matches("bird is the word"));
    assert!(word.matches("word"));
}

#[test]
fn degenerate_glob() {
    assert!(pattern("************************************************.*").matches("this is a test.com"));
}

#[test]
fn degenerate_glob_2_mismatch() {
    let n: usize = 1000;
    let long_pattern = ["a*"; 1000].into_iter().collect::<String>() + "b";
    let long_string = ["a"; 1000].into_iter().collect::<String>();
    assert_eq!(long_string.len(), n);
    assert!(!Pattern::new(long_pattern).matches(&long_string));
}

#[test]
fn glob_pattern_detection() {
    assert!(is_glob_pattern("a*b"));
    assert!(is_glob_pattern("a?b"));
    assert!(!is_glob_pattern("plain_name"));
    assert!(!is_glob_pattern(""));
}

#[test]
fn star_matches_any_text_and_question_needs_one_character() {
    assert!(pattern("*").matches("anything at all"));
    assert!(pattern("a*b*c").matches("aXXbYYc"));
    assert!(!pattern("a*b*c").matches("aXXcYYb"));
    assert!(pattern("??").matches("ab"));
    assert!(!pattern("??").matches("a"));
}
