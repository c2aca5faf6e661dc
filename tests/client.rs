use ctag::client::ClientConfig;

fn config() -> ClientConfig {
    ClientConfig::new("https://example.atlassian.net/".to_string(), "me".to_string(), "tok".to_string())
}

#[test]
fn base_url_drops_trailing_slashes() {
    assert_eq!(config().base_url(), "https://example.atlassian.net");
}

#[test]
fn search_url_encodes_query() {
    assert_eq!(
        config().search_url("space = DOCS", 100),
        "https://example.atlassian.net/wiki/rest/api/search?cql=space%20%3D%20DOCS&limit=100&expand=content.space,content.metadata.labels,content.version"
    );
}

#[test]
fn label_urls() {
    let c = config();
    assert_eq!(c.next_url("/rest/api/search?cursor=x"), "https://example.atlassian.net/wiki/rest/api/search?cursor=x");
    assert_eq!(c.labels_url("42"), "https://example.atlassian.net/wiki/rest/api/content/42/label");
    assert_eq!(
        c.label_url("42", "a b&c"),
        "https://example.atlassian.net/wiki/rest/api/content/42/label?name=a%20b%26c"
    );
}

#[test]
fn auth_header_is_basic_base64() {
    assert_eq!(config().auth_header(), "Basic bWU6dG9r");
}
