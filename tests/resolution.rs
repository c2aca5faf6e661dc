use ctag::batch::{plan_with_tags, PagePlan};
use ctag::pattern::{first_match, TagPattern};
use ctag::resolve::{
    compute_replacements_by_regex, filter_tags_by_regex, resolve, Resolution, TagOperation,
};

fn strings(v: &[&str]) -> Vec<String> {
    v.iter().map(|s| s.to_string()).collect()
}

fn lookup<'a>(m: &'a [(String, String)], key: &str) -> Option<&'a String> {
    m.iter().find(|(k, _)| k == key).map(|(_, v)| v)
}

#[test]
fn filter_tags_by_regex_works() {
    let tags = strings(&["test-1", "test-2", "other", "TEST-3"]);
    let regexes = vec![
        TagPattern::new("test-.*").unwrap(),
        TagPattern::new("^other$").unwrap(),
    ];
    let filtered = filter_tags_by_regex(tags, &regexes);
    assert_eq!(filtered.len(), 3);
    assert!(filtered.contains(&"test-1".to_string()));
    assert!(filtered.contains(&"test-2".to_string()));
    assert!(filtered.contains(&"other".to_string()));
    assert!(!filtered.contains(&"TEST-3".to_string()));
}

#[test]
fn filter_tags_by_regex_empty() {
    let tags = strings(&["a", "b"]);
    let regexes = vec![TagPattern::new("z").unwrap()];
    let filtered = filter_tags_by_regex(tags, &regexes);
    assert!(filtered.is_empty());
}

#[test]
fn compute_replacements_by_regex_works() {
    let tags = strings(&["id-123", "id-456", "other", "special-1"]);
    let regex_pairs = vec![
        (TagPattern::new("id-.*").unwrap(), "matched-id".to_string()),
        (TagPattern::new("special-.*").unwrap(), "matched-special".to_string()),
    ];
    let replacements = compute_replacements_by_regex(tags, &regex_pairs);
    assert_eq!(replacements.len(), 3);
    assert_eq!(lookup(&replacements, "id-123"), Some(&"matched-id".to_string()));
    assert_eq!(lookup(&replacements, "id-456"), Some(&"matched-id".to_string()));
    assert_eq!(lookup(&replacements, "special-1"), Some(&"matched-special".to_string()));
    assert!(lookup(&replacements, "other").is_none());
}

#[test]
fn compute_replacements_by_regex_priority() {
    let tags = strings(&["match-both"]);
    let regex_pairs = vec![
        (TagPattern::new("match-.*").unwrap(), "first".to_string()),
        (TagPattern::new(".*-both").unwrap(), "second".to_string()),
    ];
    let replacements = compute_replacements_by_regex(tags, &regex_pairs);
    assert_eq!(lookup(&replacements, "match-both"), Some(&"first".to_string()));
}

#[test]
fn regex_replace_order_decides_the_winner() {
    let tags = strings(&["match-both"]);
    let regex_pairs = vec![
        (TagPattern::new(".*-both").unwrap(), "second".to_string()),
        (TagPattern::new("match-.*").unwrap(), "first".to_string()),
    ];
    let replacements = compute_replacements_by_regex(tags, &regex_pairs);
    assert_eq!(replacements, vec![("match-both".to_string(), "second".to_string())]);
}

#[test]
fn regex_replace_lists_each_tag_once() {
    let tags = strings(&["id-1", "id-1", "x"]);
    let regex_pairs = vec![(TagPattern::new("id").unwrap(), "n".to_string())];
    let replacements = compute_replacements_by_regex(tags, &regex_pairs);
    assert_eq!(replacements, vec![("id-1".to_string(), "n".to_string())]);
}

#[test]
fn pattern_matching_is_unanchored_and_case_sensitive() {
    let p = TagPattern::new("tag").unwrap();
    assert!(p.is_match("my-tag-1"));
    assert!(!p.is_match("TAG"));
    assert_eq!(p.as_str(), "tag");
}

#[test]
fn invalid_pattern_is_rejected() {
    let err = TagPattern::new("foo(bar").err().unwrap();
    assert_eq!(err.pattern, "foo(bar");
    assert!(!err.reason.is_empty());
}

#[test]
fn first_match_picks_lowest_true_flag() {
    assert_eq!(first_match(&[false, true, true]), Some(1));
    assert_eq!(first_match(&[true]), Some(0));
    assert_eq!(first_match(&[false, false]), None);
    assert_eq!(first_match(&[]), None);
}

#[test]
fn literal_add_and_remove_ignore_current_tags() {
    let add = TagOperation::Add(strings(&["a", "b"]));
    let remove = TagOperation::Remove(strings(&["zz"]));
    for current in [strings(&[]), strings(&["a", "q"])] {
        match resolve(&add, &current) {
            Resolution::Add(t) => assert_eq!(t, strings(&["a", "b"])),
            _ => panic!("expected an addition"),
        }
        match resolve(&remove, &current) {
            Resolution::Remove(t) => assert_eq!(t, strings(&["zz"])),
            _ => panic!("expected a removal"),
        }
    }
}

#[test]
fn regex_remove_selects_matching_current_tags() {
    let op = TagOperation::RemoveMatching(vec![
        TagPattern::new("^a").unwrap(),
        TagPattern::new("z$").unwrap(),
    ]);
    match resolve(&op, &strings(&["abc", "xyz", "mid", "zab"])) {
        Resolution::Remove(t) => assert_eq!(t, strings(&["abc", "xyz"])),
        _ => panic!("expected a removal"),
    }
    assert!(matches!(resolve(&op, &strings(&["mid"])), Resolution::Skip));
}

#[test]
fn literal_replace_keeps_only_present_pairs() {
    let op = TagOperation::Replace(vec![
        ("old".to_string(), "new".to_string()),
        ("gone".to_string(), "x".to_string()),
    ]);
    match resolve(&op, &strings(&["old", "other"])) {
        Resolution::Replace(m) => assert_eq!(m, vec![("old".to_string(), "new".to_string())]),
        _ => panic!("expected a replacement"),
    }
}

#[test]
fn regex_replace_without_match_is_skipped() {
    let op = TagOperation::ReplaceMatching(vec![(TagPattern::new("^q").unwrap(), "n".to_string())]);
    assert!(matches!(resolve(&op, &strings(&["a", "b"])), Resolution::Skip));
}

#[test]
fn dry_run_regex_remove_previews_matching_tags() {
    let op = TagOperation::RemoveMatching(vec![TagPattern::new("test-.*").unwrap()]);
    let fetched = Some(strings(&["test-1", "test-2", "other"]));
    match plan_with_tags(&op, &fetched) {
        PagePlan::Mutate(Resolution::Remove(t)) => assert_eq!(t, strings(&["test-1", "test-2"])),
        _ => panic!("expected a removal preview"),
    }
    // The preview built no label call, so the page keeps its tags.
    assert_eq!(fetched, Some(strings(&["test-1", "test-2", "other"])));
}

#[test]
fn failed_tag_fetch_counts_as_no_tags() {
    let op = TagOperation::RemoveMatching(vec![TagPattern::new(".*").unwrap()]);
    assert!(matches!(plan_with_tags(&op, &None), PagePlan::Skip));
}
