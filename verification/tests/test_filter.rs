use googletest::internal::test_filter::{
    get_test_filter, test_should_run_with_filter, AcceptAll, TestFilter,
};

#[test]
fn accept_all_accepts_all() {
    let filter = AcceptAll;

    assert!(filter.filter(""));
    assert!(filter.filter("abcdefg"));
}

#[test]
fn empty_filter_accepts_all() {
    let filter = get_test_filter("");

    assert!(filter.filter(""));
    assert!(filter.filter("abcdefg"));
}

#[test]
fn empty_negation_filter_accepts_all() {
    let filter = get_test_filter("-");

    assert!(filter.filter(""));
    assert!(filter.filter("abcdefg"));
}

#[test]
fn simple_literal_filter() {
    let filter = get_test_filter("*magic*");

    assert!(filter.filter("this_is_magic"));
    assert!(!filter.filter(""));
    assert!(filter.filter("magic"));
    assert!(!filter.filter("science"));
}

#[test]
fn star_globs() {
    let filter = get_test_filter("a*b");

    assert!(!filter.filter(""));
    assert!(!filter.filter("a"));
    assert!(filter.filter("ab"));
    assert!(filter.filter("a b"));
    assert!(!filter.filter("b"));
    assert!(!filter.filter("b a"));
}

#[test]
fn question_globs() {
    let filter = get_test_filter("a?b");

    assert!(!filter.filter(""));
    assert!(!filter.filter("a"));
    assert!(!filter.filter("ab"));
    assert!(filter.filter("aXb"));
    assert!(filter.filter("a b"));
    assert!(!filter.filter("b"));
    assert!(!filter.filter("b a"));
}

#[test]
fn collection() {
    let filter = get_test_filter("a,b");

    assert!(!filter.filter(""));
    assert!(filter.filter("a"));
    assert!(!filter.filter("ab"));
    assert!(!filter.filter("a b"));
    assert!(filter.filter("b"));
    assert!(!filter.filter("b a"));
    assert!(!filter.filter("c"));
}

#[test]
fn collection_with_globs() {
    let filter = get_test_filter("*test1*,*test2*");

    assert!(!filter.filter(""));
    assert!(filter.filter("this is test1"));
    assert!(filter.filter("and test2 is it"));
    assert!(!filter.filter("but test3 is not"));
}

#[test]
fn collection_with_globs_negation() {
    let filter = get_test_filter("*test*-*testbad");

    assert!(!filter.filter(""));
    assert!(!filter.filter("module"));
    assert!(filter.filter("module::my_test1"));
    assert!(filter.filter("module::my_test2"));
    assert!(!filter.filter("module::my_testbad"));
}

#[test]
fn mount_doom() {
    let filter = get_test_filter("*mount*-*doom*");

    assert!(!filter.filter(""));
    assert!(filter.filter("mount rushmore"));
    assert!(!filter.filter("doom mount"));
    assert!(filter.filter("dismount"));
    assert!(filter.filter("mountains of moria"));
    assert!(!filter.filter("frodo and sam went to mount doom"));
}

#[test]
fn collection_with_only_negation() {
    let filter = get_test_filter("-testbad1,testbad2");

    assert!(filter.filter(""));
    assert!(filter.filter("test"));
    assert!(!filter.filter("testbad1"));
    assert!(!filter.filter("testbad2"));
    assert!(filter.filter("testbad3"));
}

#[test]
fn magic_words_a_and_e() {
    let filter = get_test_filter("a*,e*-abracadabra,elbereth,avada kedavra");

    assert!(filter.filter("alakazam"));
    assert!(!filter.filter("abracadabra"));
    assert!(!filter.filter("avada kedavra"));
    assert!(filter.filter("enchantment"));
    assert!(!filter.filter("elbereth"));
    assert!(filter.filter("expecto patronum"));
    assert!(!filter.filter("fuego"));
}

#[test]
fn missing_filter_string_runs_every_test() {
    assert!(test_should_run_with_filter(None, "any_test"));
    assert!(test_should_run_with_filter(Some("any_*"), "any_test"));
    assert!(!test_should_run_with_filter(Some("other"), "any_test"));
}
