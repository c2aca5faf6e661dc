use ctag::model::{Ancestor, Content, GlobalContainer, OutputFormat, ProcessResults, SearchResultItem, Space};
use ctag::render::{
    build_page_path, format_as_paths, format_directory, format_space, format_tags_list,
    make_clickable, make_page_clickable, page_data_for, page_url, unique_sorted_tags, PageData,
};
use ctag::text::{sanitize_text, strip_control_chars, trim_text};

fn item(id: Option<&str>, title: Option<&str>) -> SearchResultItem {
    SearchResultItem {
        content: Some(Content {
            id: id.map(|s| s.to_string()),
            title: title.map(|s| s.to_string()),
            content_type: None,
            status: None,
            space: None,
            ancestors: vec![],
        }),
        title: title.map(|s| s.to_string()),
        space: None,
        result_global_container: None,
    }
}

#[test]
fn process_results_new_initializes_counts_correctly() {
    let pr = ProcessResults::new(42);
    assert_eq!(pr.total, 42);
    assert_eq!(pr.processed, 0);
    assert_eq!(pr.skipped, 0);
    assert_eq!(pr.success, 0);
    assert_eq!(pr.failed, 0);
    assert!(!pr.aborted);
    assert_eq!(pr.tags_added, 0);
    assert_eq!(pr.tags_removed, 0);
}

#[test]
fn output_format_predicates() {
    assert!(OutputFormat::Verbose.is_verbose());
    assert!(!OutputFormat::Simple.is_verbose());
    assert!(OutputFormat::Json.is_structured());
    assert!(OutputFormat::Csv.is_structured());
    assert!(!OutputFormat::Verbose.is_structured());
}

#[test]
fn space_name_prefers_content_space_then_record_then_container() {
    let mut it = item(Some("1"), Some("T"));
    assert_eq!(it.space_name(), "Unknown");
    it.result_global_container = Some(GlobalContainer { title: Some("Container".to_string()) });
    assert_eq!(it.space_name(), "Container");
    it.space = Some(Space { id: None, key: None, name: Some("Record".to_string()) });
    assert_eq!(it.space_name(), "Record");
    if let Some(c) = it.content.as_mut() {
        c.space = Some(Space { id: Some(7), key: Some("K".to_string()), name: Some("Content".to_string()) });
    }
    assert_eq!(it.space_name(), "Content");
}

#[test]
fn page_id_comes_from_content() {
    assert_eq!(item(Some("55"), None).page_id(), Some("55"));
    assert_eq!(item(None, None).page_id(), None);
}

#[test]
fn printable_clickable_title_links_pages_with_id() {
    let t = item(Some("9"), Some("A &amp; B")).printable_clickable_title("https://x.net//");
    assert_eq!(
        t,
        "\x1b]8;;https://x.net/wiki/pages/viewpage.action?pageId=9\x1b\\A & B\x1b]8;;\x1b\\"
    );
    let plain = item(None, Some("Plain")).printable_clickable_title("https://x.net");
    assert_eq!(plain, "Plain");
    let untitled = item(None, None).printable_clickable_title("https://x.net");
    assert_eq!(untitled, "Unknown");
}

#[test]
fn sanitize_text_removes_control_chars_but_keeps_whitespace() {
    let input = "Hello\u{7} World\nNext\tLine";
    let output = sanitize_text(input);
    assert!(!output.contains('\u{7}'));
    assert!(output.contains(' '));
    assert!(output.contains('\n'));
    assert!(output.contains('\t'));
    assert!(output.contains("Hello"));
    assert!(output.contains("World"));
}

#[test]
fn sanitize_text_decodes_html_entities() {
    let input = "Lock &#128274; Page";
    let output = sanitize_text(input);
    assert!(output.contains("\u{1F512}"), "Expected emoji in output: {}", output);
    let input2 = "Hello &amp; World";
    let output2 = sanitize_text(input2);
    assert!(output2.contains("&"), "Expected & in output: {}", output2);
}

#[test]
fn strip_control_chars_exact() {
    assert_eq!(strip_control_chars("a\u{0}b\u{1b}c\u{85}d\u{9f}e\r"), "abc\u{85}de\r");
}

#[test]
fn trim_text_uses_unicode_white_space() {
    assert_eq!(trim_text("\u{3000} a b \t"), "a b");
    assert_eq!(trim_text("   "), "");
}

#[test]
fn build_page_path_basic() {
    let path = build_page_path("MySpace", &[], "MyPage");
    assert_eq!(path, "/MySpace/MyPage");
}

#[test]
fn build_page_path_with_ancestors() {
    let ancestors = vec!["Parent".to_string(), "Child".to_string()];
    let path = build_page_path("DOCS", &ancestors, "GrandChild");
    assert_eq!(path, "/DOCS/Parent/Child/GrandChild");
}

#[test]
fn format_tags_list_empty() {
    let tags: Vec<String> = vec![];
    let result = format_tags_list(&tags);
    assert!(result.contains("[]"), "Expected [] in output: {}", result);
}

#[test]
fn format_tags_list_single() {
    let tags = vec!["migration".to_string()];
    let result = format_tags_list(&tags);
    assert!(result.contains("[migration]"), "Expected [migration] in output: {}", result);
}

#[test]
fn format_tags_list_multiple() {
    let tags = vec!["alpha".to_string(), "beta".to_string()];
    let result = format_tags_list(&tags);
    assert!(result.contains("[alpha, beta]"), "Expected [alpha, beta] in output: {}", result);
    assert_eq!(result, "\x1b[32m[alpha, beta]\x1b[0m");
}

#[test]
fn links_and_colors() {
    assert_eq!(make_clickable("t", "u"), "\x1b]8;;u\x1b\\t\x1b]8;;\x1b\\");
    assert_eq!(page_url("https://h/", "3"), "https://h/wiki/pages/viewpage.action?pageId=3");
    assert_eq!(
        make_page_clickable("t", "3", "https://h"),
        "\x1b]8;;https://h/wiki/pages/viewpage.action?pageId=3\x1b\\t\x1b]8;;\x1b\\"
    );
    assert_eq!(format_space("S"), "\x1b[1;36mS\x1b[0m");
    assert_eq!(format_directory("D"), "\x1b[1;34mD\x1b[0m");
}

fn page(id: &str, title: &str, space: &str, tags: &[&str], ancestors: &[&str]) -> PageData {
    PageData {
        id: id.to_string(),
        title: title.to_string(),
        space: space.to_string(),
        tags: tags.iter().map(|s| s.to_string()).collect(),
        ancestors: ancestors.iter().map(|s| s.to_string()).collect(),
        url: format!("http://example.com/{}", id),
    }
}

#[test]
fn format_as_paths_produces_sorted_output() {
    let pages = vec![
        PageData {
            id: "2".to_string(),
            title: "Zebra".to_string(),
            space: "DOCS".to_string(),
            tags: vec!["z-tag".to_string()],
            ancestors: vec![],
            url: "http://example.com/2".to_string(),
        },
        PageData {
            id: "1".to_string(),
            title: "Alpha".to_string(),
            space: "DOCS".to_string(),
            tags: vec!["a-tag".to_string()],
            ancestors: vec![],
            url: "http://example.com/1".to_string(),
        },
    ];
    let output = format_as_paths(&pages, "https://example.atlassian.net");
    let lines: Vec<&str> = output.lines().collect();
    assert!(lines[0].contains("Alpha"));
    assert!(lines[1].contains("Zebra"));
}

#[test]
fn format_as_paths_orders_by_full_path() {
    let pages = vec![
        page("1", "B", "S", &[], &["P"]),
        page("2", "A", "S", &["t"], &[]),
        page("3", "Z", "R", &[], &[]),
    ];
    let output = format_as_paths(&pages, "https://h");
    let lines: Vec<&str> = output.lines().collect();
    assert_eq!(lines.len(), 3);
    assert!(lines[0].contains("/R/Z"));
    assert!(lines[1].contains("/S/A"));
    assert!(lines[1].ends_with("\x1b[32m[t]\x1b[0m"));
    assert!(lines[2].contains("/S/P/B"));
    assert!(format_as_paths(&[], "https://h").is_empty());
}

#[test]
fn page_data_for_sanitizes_and_links() {
    let mut it = item(Some("7"), Some("A &amp; B"));
    if let Some(c) = it.content.as_mut() {
        c.ancestors = vec![
            Ancestor { id: None, title: Some("Root\u{7}".to_string()) },
            Ancestor { id: None, title: None },
            Ancestor { id: None, title: Some("Mid".to_string()) },
        ];
    }
    let d = page_data_for(&it, vec!["t".to_string()], "https://h/").unwrap();
    assert_eq!(d.id, "7");
    assert_eq!(d.title, "A & B");
    assert_eq!(d.space, "Unknown");
    assert_eq!(d.tags, vec!["t".to_string()]);
    assert_eq!(d.ancestors, vec!["Root".to_string(), "Mid".to_string()]);
    assert_eq!(d.url, "https://h/wiki/pages/viewpage.action?pageId=7");
    assert!(page_data_for(&item(None, Some("x")), vec![], "https://h").is_none());
}

#[test]
fn unique_sorted_tags_merges_pages() {
    let pages = vec![
        page("1", "A", "S", &["b", "a", "b"], &[]),
        page("2", "B", "S", &["c", "a"], &[]),
        page("3", "C", "S", &[], &[]),
    ];
    assert_eq!(unique_sorted_tags(&pages), vec!["a".to_string(), "b".to_string(), "c".to_string()]);
    assert!(unique_sorted_tags(&[]).is_empty());
}
