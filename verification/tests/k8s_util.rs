use k8s_workflow_deploy::k8s_util::{
    annotation_maybe_int, annotation_true, find_annotation, parse_u32, replace_last,
};

fn annotations(pairs: &[(&str, &str)]) -> Vec<(String, String)> {
    pairs.iter().map(|(k, v)| (k.to_string(), v.to_string())).collect()
}

#[test]
fn annotation_true_reads_the_first_letter() {
    let all = annotations(&[
        ("a", "true"),
        ("b", "True"),
        ("c", "t"),
        ("d", "TRUE"),
        ("e", "false"),
        ("f", ""),
        ("g", "yes"),
        ("h", " true"),
        ("i", "1"),
        ("j", "tomato"),
    ]);
    for key in ["a", "b", "c", "d", "j"] {
        assert!(annotation_true(&all, key), "{key}");
    }
    for key in ["e", "f", "g", "h", "i", "missing"] {
        assert!(!annotation_true(&all, key), "{key}");
    }
    assert!(!annotation_true(&vec![], "a"));
}

#[test]
fn find_annotation_takes_the_first_pair() {
    let all = annotations(&[("k", "one"), ("other", "x"), ("k", "two")]);
    assert_eq!(find_annotation(&all, "k"), Some(&"one".to_string()));
    assert_eq!(find_annotation(&all, "K"), None);
}

#[test]
fn annotation_maybe_int_reads_a_number() {
    let all = annotations(&[
        ("n", "42"),
        ("zero", "0"),
        ("plus", "+7"),
        ("max", "4294967295"),
        ("over", "4294967296"),
        ("neg", "-1"),
        ("empty", ""),
        ("text", "12a"),
        ("space", " 12"),
        ("zeros", "000000000000000000000012"),
    ]);
    assert_eq!(annotation_maybe_int(&all, "n"), Some(42));
    assert_eq!(annotation_maybe_int(&all, "zero"), Some(0));
    assert_eq!(annotation_maybe_int(&all, "plus"), Some(7));
    assert_eq!(annotation_maybe_int(&all, "max"), Some(u32::MAX));
    assert_eq!(annotation_maybe_int(&all, "zeros"), Some(12));
    for key in ["over", "neg", "empty", "text", "space", "missing"] {
        assert_eq!(annotation_maybe_int(&all, key), None, "{key}");
    }
}

#[test]
fn parse_u32_agrees_with_std() {
    for text in [
        "", "+", "-", "0", "+0", "-0", "7", "+7", "++7", "1_000", "12 ", "99999999999", "4294967295",
        "4294967296", "42949672950", "00", "0x10", "٣", "1e3", "+4294967295",
    ] {
        assert_eq!(parse_u32(text), text.parse::<u32>().ok(), "{text:?}");
    }
}

#[test]
fn replace_last_swaps_the_tag() {
    assert_eq!(
        replace_last(Some("r.io/app:abc123".to_string()), ':', "v2"),
        Some("r.io/app:v2".to_string())
    );
    assert_eq!(replace_last(Some("app".to_string()), ':', "v2"), Some("v2".to_string()));
    assert_eq!(replace_last(None, ':', "v2"), None);
    assert_eq!(replace_last(Some("".to_string()), ':', "v2"), Some("v2".to_string()));
    assert_eq!(replace_last(Some("app:".to_string()), ':', "v2"), Some("app:v2".to_string()));
    assert_eq!(replace_last(Some(":x".to_string()), ':', ""), Some(":".to_string()));
    assert_eq!(
        replace_last(Some("host:5000/app:1".to_string()), ':', "2"),
        Some("host:5000/app:2".to_string())
    );
    assert_eq!(
        replace_last(Some("régistre/app→old".to_string()), '→', "new"),
        Some("régistre/app→new".to_string())
    );
}
