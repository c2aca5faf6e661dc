use ctag::render::PageData;
use ctag::tree::format_as_tree;

fn page(id: &str, title: &str, space: &str, tags: &[&str], ancestors: &[&str]) -> PageData {
    PageData {
        id: id.to_string(),
        title: title.to_string(),
        space: space.to_string(),
        tags: tags.iter().map(|s| s.to_string()).collect(),
        ancestors: ancestors.iter().map(|s| s.to_string()).collect(),
        url: format!("http://example.com/{}", id),
    }
}

fn link(text: &str, id: &str) -> String {
    format!(
        "\x1b]8;;https://h/wiki/pages/viewpage.action?pageId={}\x1b\\{}\x1b]8;;\x1b\\",
        id, text
    )
}

#[test]
fn format_as_tree_single_page() {
    let pages = vec![PageData {
        id: "123".to_string(),
        title: "TestPage".to_string(),
        space: "MYSPACE".to_string(),
        tags: vec!["tag1".to_string()],
        ancestors: vec![],
        url: "http://example.com/123".to_string(),
    }];
    let output = format_as_tree(&pages, "https://example.atlassian.net");
    assert!(output.contains("MYSPACE"));
    assert!(output.contains("TestPage"));
    assert!(output.contains("[tag1]"));
}

#[test]
fn format_as_tree_with_hierarchy() {
    let pages = vec![
        PageData {
            id: "1".to_string(),
            title: "ChildPage".to_string(),
            space: "DOCS".to_string(),
            tags: vec!["child-tag".to_string()],
            ancestors: vec!["ParentPage".to_string()],
            url: "http://example.com/1".to_string(),
        },
        PageData {
            id: "2".to_string(),
            title: "ParentPage".to_string(),
            space: "DOCS".to_string(),
            tags: vec!["parent-tag".to_string()],
            ancestors: vec![],
            url: "http://example.com/2".to_string(),
        },
    ];
    let output = format_as_tree(&pages, "https://example.atlassian.net");
    assert!(output.contains("DOCS"));
    assert!(output.contains("ParentPage"));
    assert!(output.contains("ChildPage"));
    assert!(output.contains("└──") || output.contains("├──"));
}

#[test]
fn format_as_tree_exact_layout() {
    let pages = vec![
        page("1", "ChildPage", "DOCS", &["child-tag"], &["ParentPage"]),
        page("2", "ParentPage", "DOCS", &["parent-tag"], &[]),
        page("3", "Other", "DOCS", &[], &["Missing"]),
        page("4", "Solo", "ARCH", &[], &[]),
    ];
    let output = format_as_tree(&pages, "https://h");
    let expected = vec![
        "\x1b[1;36mARCH\x1b[0m".to_string(),
        format!("└── {} \x1b[2m[]\x1b[0m", link("Solo", "4")),
        String::new(),
        "\x1b[1;36mDOCS\x1b[0m".to_string(),
        "├── \x1b[1;34mMissing\x1b[0m".to_string(),
        format!("│   └── {} \x1b[2m[]\x1b[0m", link("Other", "3")),
        format!("└── {} \x1b[32m[parent-tag]\x1b[0m", link("ParentPage", "2")),
        format!("    └── {} \x1b[32m[child-tag]\x1b[0m", link("ChildPage", "1")),
    ]
    .join("\n");
    assert_eq!(output, expected);
    assert_eq!(format_as_tree(&[], "https://h"), "");
}
