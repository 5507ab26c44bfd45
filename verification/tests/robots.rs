use crawler::robots::parse_crawl_delay;

#[test]
fn crawl_delay_for_any_agent() {
    let values = parse_crawl_delay("User-agent: *\nCrawl-delay: 5\n");
    assert_eq!(values, vec!["5".to_string()]);
}

#[test]
fn crawl_delay_only_in_our_sections() {
    let body = "User-agent: googlebot\nCrawl-delay: 10\n\nUser-agent: MUSE-Crawler\nCrawl-delay: 2.5\n";
    assert_eq!(parse_crawl_delay(body), vec!["2.5".to_string()]);
}

#[test]
fn crawl_delay_before_any_section_is_ignored() {
    assert!(parse_crawl_delay("Crawl-delay: 4\nUser-agent: *\nDisallow: /x\n").is_empty());
}

#[test]
fn crawl_delay_skips_comments_and_trims() {
    let body = "# Crawl-delay: 9\n   User-agent:   *   \n\n  Crawl-delay:    7   \n";
    assert_eq!(parse_crawl_delay(body), vec!["7".to_string()]);
}

#[test]
fn crawl_delay_with_crlf_lines() {
    let body = "User-agent: *\r\nCrawl-delay: 3\r\n";
    assert_eq!(parse_crawl_delay(body), vec!["3".to_string()]);
}

#[test]
fn crawl_delay_keeps_every_offered_value_in_order() {
    let body = "User-agent: *\nCrawl-delay: soon\nCrawl-delay: 1.5\nUser-agent: other\nCrawl-delay: 8";
    assert_eq!(parse_crawl_delay(body), vec!["soon".to_string(), "1.5".to_string()]);
}

#[test]
fn crawl_delay_empty_body() {
    assert!(parse_crawl_delay("").is_empty());
}

#[test]
fn crawl_delay_section_closed_by_other_agent() {
    let body = "User-agent: *\nUser-agent: bot\nCrawl-delay: 2\n";
    assert!(parse_crawl_delay(body).is_empty());
}

use crawler::robots::robots_body_is_readable;

#[test]
fn overlong_line_with_non_ascii_tail_is_unreadable() {
    let mut body = "a".repeat(16663);
    body.push('€');
    body.push('\n');
    assert!(!robots_body_is_readable(&body));
}

#[test]
fn overlong_ascii_line_is_readable() {
    let mut body = "a".repeat(20000);
    body.push_str("\nUser-agent: *\nDisallow: /x\n");
    assert!(robots_body_is_readable(&body));
}

#[test]
fn non_ascii_within_line_limit_is_readable() {
    let mut body = "€".repeat(5000);
    body.push('\r');
    body.push_str(&"é".repeat(8000));
    assert!(robots_body_is_readable(&body));
    assert!(robots_body_is_readable(""));
}
