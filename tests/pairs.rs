use ctag::pairs::{parse_tag_pairs, PairError};

fn strings(v: &[&str]) -> Vec<String> {
    v.iter().map(|s| s.to_string()).collect()
}

fn lookup<'a>(m: &'a [(String, String)], key: &str) -> Option<&'a String> {
    m.iter().find(|(k, _)| k == key).map(|(_, v)| v)
}

#[test]
fn parse_tag_pairs_trims_whitespace_and_parses_correctly() {
    let input = strings(&["old=new", " foo = bar "]);
    let mapping = parse_tag_pairs(&input, false).unwrap();
    assert_eq!(lookup(&mapping, "old"), Some(&"new".to_string()));
    assert_eq!(lookup(&mapping, "foo"), Some(&"bar".to_string()));
}

#[test]
fn parse_tag_pairs_rejects_missing_equal_sign() {
    let input = strings(&["invalidpair"]);
    let err = parse_tag_pairs(&input, false).unwrap_err();
    let msg = err.message();
    assert!(msg.contains("Invalid tag pair format"), "unexpected error message: {}", msg);
}

#[test]
fn parse_tag_pairs_rejects_empty_old_or_new() {
    let inputs = strings(&["=new", "old=", " = new ", " old =  "]);
    for s in inputs {
        let err = parse_tag_pairs(std::slice::from_ref(&s), false).unwrap_err();
        let msg = err.message();
        assert!(
            msg.contains("Old and new tags must be non-empty"),
            "unexpected error for '{}': {}",
            s,
            msg
        );
    }
}

#[test]
fn parse_tag_pairs_positional_mode_works() {
    let input = strings(&["test-.*", "new-test", "id-[0-9]+", "matched-id"]);
    let mapping = parse_tag_pairs(&input, true).unwrap();
    assert_eq!(lookup(&mapping, "test-.*"), Some(&"new-test".to_string()));
    assert_eq!(lookup(&mapping, "id-[0-9]+"), Some(&"matched-id".to_string()));
}

#[test]
fn parse_tag_pairs_positional_mode_rejects_odd_count() {
    let input = strings(&["test-.*", "new-test", "orphan"]);
    let err = parse_tag_pairs(&input, true).unwrap_err();
    let msg = err.message();
    assert!(msg.contains("Invalid number of arguments"), "unexpected error message: {}", msg);
    assert!(msg.contains("got 3 arguments"), "unexpected error message: {}", msg);
}

#[test]
fn parse_tag_pairs_positional_mode_rejects_empty() {
    let inputs = vec![strings(&["", "new"]), strings(&["old", ""])];
    for input in inputs {
        let err = parse_tag_pairs(&input, true).unwrap_err();
        let msg = err.message();
        assert!(msg.contains("must be non-empty"), "unexpected error message: {}", msg);
    }
}

#[test]
fn later_pair_overrides_earlier_value_in_place() {
    let input = strings(&["a=1", "b=2", "a=3"]);
    let mapping = parse_tag_pairs(&input, false).unwrap();
    assert_eq!(
        mapping,
        vec![("a".to_string(), "3".to_string()), ("b".to_string(), "2".to_string())]
    );
}

#[test]
fn only_first_equal_sign_splits() {
    let input = strings(&["k=v=w"]);
    let mapping = parse_tag_pairs(&input, false).unwrap();
    assert_eq!(mapping, vec![("k".to_string(), "v=w".to_string())]);
}

#[test]
fn first_faulty_pair_decides_the_error() {
    let input = strings(&["ok=fine", "broken", "=x"]);
    match parse_tag_pairs(&input, false) {
        Err(PairError::MissingSeparator(p)) => assert_eq!(p, "broken"),
        _ => panic!("expected a missing separator"),
    }
}
