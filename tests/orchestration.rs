use std::collections::BTreeSet;

use ctag::batch::{
    filter_excluded_pages, page_detail, page_outcome, start_page, tally_outcomes, ActionResult, Decision,
    PagePlan, SequentialRun,
};
use ctag::model::{Content, SearchResultItem};
use ctag::mutation::{LabelCall, MutationRun};
use ctag::resolve::{resolve, Resolution, TagOperation};

fn strings(v: &[&str]) -> Vec<String> {
    v.iter().map(|s| s.to_string()).collect()
}

fn item(id: Option<&str>) -> SearchResultItem {
    SearchResultItem {
        content: Some(Content {
            id: id.map(|s| s.to_string()),
            title: None,
            content_type: None,
            status: None,
            space: None,
            ancestors: vec![],
        }),
        title: None,
        space: None,
        result_global_container: None,
    }
}

fn success(added: usize, removed: usize) -> ActionResult {
    ActionResult::Success { added, removed, detail: None }
}

/// Runs a mutation against an in-memory label set; `fail` names tags whose calls fail.
fn run_against(labels: &mut BTreeSet<String>, delta: &Resolution, fail: &[&str]) -> (bool, Vec<String>) {
    let mut run = MutationRun::new(delta);
    let mut issued = Vec::new();
    while let Some(call) = run.next_call() {
        let ok = match &call {
            LabelCall::Add(t) => {
                issued.push(format!("+{}", t));
                if fail.contains(&t.as_str()) {
                    false
                } else {
                    labels.insert(t.clone());
                    true
                }
            }
            LabelCall::Remove(t) => {
                issued.push(format!("-{}", t));
                if fail.contains(&t.as_str()) {
                    false
                } else {
                    labels.remove(t);
                    true
                }
            }
        };
        run.record(ok);
    }
    (run.succeeded(), issued)
}

#[test]
fn add_scenario_three_pages_without_tag() {
    let op = TagOperation::Add(strings(&["foo"]));
    let pages = vec![item(Some("1")), item(Some("2")), item(Some("3"))];
    let mut outcomes = Vec::new();
    for p in &pages {
        let mut labels: BTreeSet<String> = BTreeSet::new();
        match start_page(&op, p) {
            PagePlan::Mutate(delta) => {
                let (ok, _) = run_against(&mut labels, &delta, &[]);
                assert!(labels.contains("foo"));
                outcomes.push(page_outcome(&delta, ok, None));
            }
            _ => panic!("an addition needs no fetch"),
        }
    }
    let r = tally_outcomes(outcomes);
    assert_eq!((r.total, r.processed, r.skipped, r.success, r.failed), (3, 3, 0, 3, 0));
    assert_eq!(r.tags_added, 3);
    assert!(!r.aborted);
}

#[test]
fn tally_mixture_keeps_processed_equal_to_success_plus_failed() {
    let r = tally_outcomes(vec![
        success(2, 0),
        ActionResult::Failed,
        ActionResult::Skipped,
        success(0, 1),
        ActionResult::Failed,
    ]);
    assert_eq!(r.total, 5);
    assert_eq!(r.success, 2);
    assert_eq!(r.failed, 2);
    assert_eq!(r.skipped, 1);
    assert_eq!(r.processed, r.success + r.failed);
    assert_eq!(r.processed + r.skipped, r.total);
    assert_eq!((r.tags_added, r.tags_removed), (2, 1));
}

#[test]
fn tally_saturates_tag_counts() {
    let r = tally_outcomes(vec![success(usize::MAX, 0), success(5, 0)]);
    assert_eq!(r.tags_added, usize::MAX);
}

#[test]
fn add_twice_succeeds_both_times() {
    let op = TagOperation::Add(strings(&["a", "b"]));
    let mut labels: BTreeSet<String> = ["x".to_string()].into_iter().collect();
    let first = resolve(&op, &labels.iter().cloned().collect());
    let (ok1, calls1) = run_against(&mut labels, &first, &[]);
    let after_first = labels.clone();
    let second = resolve(&op, &labels.iter().cloned().collect());
    let (ok2, calls2) = run_against(&mut labels, &second, &[]);
    assert!(ok1 && ok2);
    assert_eq!(calls1, calls2);
    assert_eq!(labels, after_first);
}

#[test]
fn replace_round_trip_restores_labels() {
    let initial: BTreeSet<String> = ["old", "keep"].iter().map(|s| s.to_string()).collect();
    let mut labels = initial.clone();
    let there = TagOperation::Replace(vec![("old".to_string(), "new".to_string())]);
    let back = TagOperation::Replace(vec![("new".to_string(), "old".to_string())]);
    let d1 = resolve(&there, &labels.iter().cloned().collect());
    let (ok1, calls1) = run_against(&mut labels, &d1, &[]);
    assert_eq!(calls1, vec!["-old".to_string(), "+new".to_string()]);
    let d2 = resolve(&back, &labels.iter().cloned().collect());
    let (ok2, _) = run_against(&mut labels, &d2, &[]);
    assert!(ok1 && ok2);
    assert_eq!(labels, initial);
}

#[test]
fn failed_removal_skips_its_replacement() {
    let delta = Resolution::Replace(vec![
        ("a".to_string(), "b".to_string()),
        ("c".to_string(), "d".to_string()),
    ]);
    let mut labels: BTreeSet<String> = ["a", "c"].iter().map(|s| s.to_string()).collect();
    let (ok, calls) = run_against(&mut labels, &delta, &["a"]);
    assert!(!ok);
    assert_eq!(calls, vec!["-a".to_string(), "-c".to_string(), "+d".to_string()]);
}

#[test]
fn partial_add_failure_fails_page_without_rollback() {
    let delta = Resolution::Add(strings(&["p", "q", "r"]));
    let mut labels = BTreeSet::new();
    let (ok, calls) = run_against(&mut labels, &delta, &["q"]);
    assert!(!ok);
    assert_eq!(calls.len(), 3);
    assert!(labels.contains("p") && labels.contains("r"));
    assert!(matches!(page_outcome(&delta, ok, None), ActionResult::Failed));
}

#[test]
fn exclusion_removes_by_identity() {
    let pages = vec![item(Some("A")), item(Some("B")), item(Some("C")), item(None)];
    let excluded = vec![item(Some("B"))];
    let kept = filter_excluded_pages(pages, &excluded);
    let ids: Vec<Option<&str>> = kept.iter().map(|p| p.page_id()).collect();
    assert_eq!(ids, vec![Some("A"), Some("C"), None]);
}

#[test]
fn page_without_id_is_skipped() {
    let op = TagOperation::Add(strings(&["x"]));
    assert!(matches!(start_page(&op, &item(None)), PagePlan::Skip));
    let regex_op = TagOperation::Remove(strings(&["x"]));
    assert!(matches!(start_page(&regex_op, &item(Some("1"))), PagePlan::Mutate(_)));
}

#[test]
fn interactive_run_counts_skip_abort_and_outcomes() {
    let mut run = SequentialRun::new(4);
    assert!(run.decide(Decision::Proceed));
    run.record(success(1, 0));
    assert!(!run.decide(Decision::Skip));
    assert!(run.decide(Decision::Proceed));
    run.record(ActionResult::Failed);
    assert!(!run.is_finished());
    assert!(!run.decide(Decision::AbortAll));
    assert!(run.is_finished());
    let r = run.into_results();
    assert!(r.aborted);
    assert_eq!((r.total, r.processed, r.skipped, r.success, r.failed), (4, 2, 1, 1, 1));
    assert!(r.processed + r.skipped < r.total);
}

#[test]
fn interactive_run_without_abort_accounts_for_every_page() {
    let mut run = SequentialRun::new(2);
    run.record(ActionResult::Skipped);
    assert!(run.decide(Decision::Proceed));
    run.record(success(0, 2));
    assert!(run.is_finished());
    let r = run.into_results();
    assert_eq!((r.processed, r.skipped, r.tags_removed), (1, 1, 2));
    assert_eq!(r.processed + r.skipped, r.total);
}

#[test]
fn page_detail_lists_delta_tags() {
    let page = item(Some("5"));
    let d = page_detail(&page, "5", &Resolution::Replace(vec![("o".to_string(), "n".to_string())]), "https://h");
    assert_eq!(d.page_id, "5");
    assert_eq!(d.title, "Unknown");
    assert_eq!(d.tags_added, strings(&["n"]));
    assert_eq!(d.tags_removed, strings(&["o"]));
    assert_eq!(d.url, "\x1b]8;;https://h/wiki/pages/viewpage.action?pageId=5\x1b\\Unknown\x1b]8;;\x1b\\");
    let a = page_detail(&page, "5", &Resolution::Add(strings(&["x", "y"])), "https://h");
    assert_eq!(a.tags_added, strings(&["x", "y"]));
    assert!(a.tags_removed.is_empty());
}
