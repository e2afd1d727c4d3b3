use k8s_workflow_deploy::text::{decimal_string, last_position, sort_strings, string_leq};

#[test]
fn numbers_are_written_in_decimal() {
    for n in [0u64, 1, 9, 10, 11, 99, 100, 1234567890, u32::MAX as u64, u64::MAX] {
        assert_eq!(decimal_string(n), n.to_string());
    }
}

#[test]
fn strings_are_ordered_by_their_bytes() {
    let words = ["", "a", "A", "ab", "b", "é", "z", "~", "10", "9", "日本", "a\u{0}"];
    for a in words {
        for b in words {
            assert_eq!(string_leq(a, b), a <= b, "{a:?} {b:?}");
        }
    }
}

#[test]
fn sorting_agrees_with_std() {
    let mut words: Vec<String> =
        ["pear", "apple", "fig", "apple", "Apple", "", "zeta", "é", "fig2"].iter().map(|s| s.to_string()).collect();
    let sorted = sort_strings(&words);
    words.sort();
    assert_eq!(sorted, words);
    assert_eq!(sort_strings(&vec![]), Vec::<String>::new());
}

#[test]
fn last_position_follows_the_last_occurrence() {
    assert_eq!(last_position("a:b:c", ':'), 4);
    assert_eq!(last_position("abc", ':'), 0);
    assert_eq!(last_position("", ':'), 0);
    assert_eq!(last_position(":", ':'), 1);
    assert_eq!(last_position("é:é", ':'), 2);
}
