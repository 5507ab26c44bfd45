use crawler::crawler::{extract_links, extract_text, extract_title, page_result};

const PAGE: &str = "<html><head><title>Example Page</title></head><body>\
<p>  Hello  </p><p>   </p><a href=\"/a\">x</a><a href=\"mailto:me@x.org\">m</a>\
<a href=\"https://other.org/p\">o</a><a name=\"anchor\">no href</a>\
<script>var s = 1;</script><p>World</p></body></html>";

#[test]
fn links_are_absolute_http() {
    let links = extract_links(PAGE, "https://example.com/dir/page.html");
    assert_eq!(
        links,
        vec!["https://example.com/a".to_string(), "https://other.org/p".to_string()]
    );
}

#[test]
fn relative_links_resolve_against_base() {
    let links = extract_links("<a href=\"next\">n</a><a href=\"../up\">u</a>", "http://h.com/a/b/c");
    assert_eq!(links, vec!["http://h.com/a/b/next".to_string(), "http://h.com/a/up".to_string()]);
}

#[test]
fn no_links_with_bad_base() {
    assert!(extract_links(PAGE, "not a base").is_empty());
}

#[test]
fn title_is_first_title_text() {
    assert_eq!(extract_title(PAGE), "Example Page");
}

#[test]
fn missing_title() {
    assert_eq!(extract_title("<html><body>hi</body></html>"), "(No title)");
}

#[test]
fn text_is_trimmed_nodes_joined() {
    assert_eq!(extract_text(PAGE), "Hello x m o no href var s = 1; World");
}

#[test]
fn text_of_empty_document() {
    assert_eq!(extract_text(""), "");
}

#[test]
fn page_result_collects_everything() {
    let r = page_result("https://example.com/dir/".to_string(), 2, PAGE);
    assert_eq!(r.url, "https://example.com/dir/");
    assert_eq!(r.depth, 2);
    assert_eq!(r.title, "Example Page");
    assert_eq!(r.links.len(), 2);
    assert!(r.text.starts_with("Hello"));
}

use crawler::crawler::{keep_http_links, text_of, title_of};

fn joined(scheme: &str, text: &str) -> Option<(String, String)> {
    Some((scheme.to_string(), text.to_string()))
}

#[test]
fn only_http_and_https_links_are_kept() {
    let j = vec![
        joined("https", "https://a.com/"),
        None,
        joined("mailto", "mailto:me@x.org"),
        joined("http", "http://b.com/x"),
        joined("HTTP", "http://c.com/"),
        joined("ftp", "ftp://d.com/"),
    ];
    assert_eq!(keep_http_links(&j), vec!["https://a.com/".to_string(), "http://b.com/x".to_string()]);
}

#[test]
fn title_from_text_nodes() {
    let nodes = Some(vec![vec!["A ".to_string(), "title".to_string()], vec!["second".to_string()]]);
    assert_eq!(title_of(&nodes), "A title");
    assert_eq!(title_of(&Some(vec![])), "(No title)");
    assert_eq!(title_of(&None), "(No title)");
    assert_eq!(title_of(&Some(vec![vec![]])), "");
}

#[test]
fn text_from_text_nodes() {
    let nodes = Some(vec![vec![
        "\n  one ".to_string(),
        " \t\n".to_string(),
        "two\u{a0}".to_string(),
        "\u{3000}three four ".to_string(),
    ]]);
    assert_eq!(text_of(&nodes), "one two three four");
    assert_eq!(text_of(&None), "");
    assert_eq!(text_of(&Some(vec![vec![" ".to_string()]])), "");
}
