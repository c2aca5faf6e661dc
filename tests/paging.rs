use ctag::model::{Content, SearchResultItem};
use ctag::paging::{collect_batch, merge_search_record, PageRequest, Paginator};

fn content(id: &str, title: &str) -> Content {
    Content {
        id: Some(id.to_string()),
        title: Some(title.to_string()),
        content_type: None,
        status: None,
        space: None,
        ancestors: vec![],
    }
}

fn full(id: &str) -> SearchResultItem {
    SearchResultItem {
        content: Some(content(id, id)),
        title: Some(id.to_string()),
        space: None,
        result_global_container: None,
    }
}

fn ids(pages: &[SearchResultItem]) -> Vec<String> {
    pages.iter().map(|p| p.page_id().unwrap_or("?").to_string()).collect()
}

#[test]
fn pagination_concatenates_batches_in_cursor_order() {
    let source: Vec<(Vec<SearchResultItem>, Option<String>)> = vec![
        (vec![full("1"), full("2")], Some("/next?c=1".to_string())),
        (vec![full("3")], Some("/next?c=2".to_string())),
        (vec![full("4"), full("5")], None),
    ];
    let mut pager = Paginator::new();
    let mut requests = Vec::new();
    let mut served = 0;
    while let Some(req) = pager.next_request() {
        requests.push(match req {
            PageRequest::First => "first".to_string(),
            PageRequest::Next(c) => c,
        });
        let (batch, next) = source[served].clone();
        served += 1;
        pager.accept(batch, next);
    }
    assert_eq!(requests, vec!["first", "/next?c=1", "/next?c=2"]);
    assert_eq!(ids(&pager.into_pages()), vec!["1", "2", "3", "4", "5"]);
}

#[test]
fn empty_batch_ends_pagination() {
    let mut pager = Paginator::new();
    pager.accept(vec![full("1")], Some("/more".to_string()));
    assert!(!pager.is_done());
    pager.accept(vec![], Some("/again".to_string()));
    assert!(pager.is_done());
    assert!(pager.next_request().is_none());
    assert_eq!(pager.count(), 1);
}

#[test]
fn malformed_records_degrade_to_minimal_pages() {
    let records = vec![
        (Some(full("1")), None),
        (None, Some(content("2", "Second"))),
        (None, None),
        (
            Some(SearchResultItem { content: None, title: Some("T".to_string()), space: None, result_global_container: None }),
            Some(content("3", "Third")),
        ),
    ];
    let pages = collect_batch(records);
    assert_eq!(ids(&pages), vec!["1", "2", "3"]);
    assert_eq!(pages[1].title.as_deref(), Some("Second"));
    assert_eq!(pages[2].title.as_deref(), Some("T"));
    assert!(merge_search_record(None, None).is_none());
}
