use crawler::domain::{extract_domain, Delay, DomainAction, DomainActor};
use crawler::messages::{CrawlUrl, CrawlerMessage, PageResult};

fn url(u: &str) -> CrawlUrl {
    CrawlUrl { url: u.to_string(), depth: 1 }
}

fn page(u: &str) -> PageResult {
    PageResult {
        url: u.to_string(),
        title: String::new(),
        links: vec![],
        text: String::new(),
        depth: 1,
    }
}

fn dispatched(a: &DomainAction) -> Option<String> {
    match a {
        DomainAction::Dispatch(c) => Some(c.url.clone()),
        _ => None,
    }
}

const ONE: Delay = Delay { secs: 1, nanos: 0 };

#[test]
fn urls_wait_for_robots_txt() {
    let mut actor = DomainActor::new("example.com".to_string(), ONE);
    let a = actor.handle(CrawlerMessage::CrawlUrl(url("https://example.com/a")), None);
    assert!(matches!(a, DomainAction::Idle));
    assert_eq!(actor.queue_len(), 1);
    assert!(!actor.in_flight());
}

#[test]
fn missing_robots_allows_all_and_keeps_default_delay() {
    let mut actor = DomainActor::new("example.com".to_string(), ONE);
    actor.handle(CrawlerMessage::CrawlUrl(url("https://example.com/a")), None);
    actor.handle(CrawlerMessage::CrawlUrl(url("https://example.com/b")), None);
    let a = actor.handle(CrawlerMessage::RobotsReady(None), None);
    assert_eq!(dispatched(&a), Some("https://example.com/a".to_string()));
    assert!(actor.in_flight());
    assert_eq!(actor.crawl_delay(), ONE);
    assert_eq!(actor.queue_len(), 1);
}

#[test]
fn robots_delay_is_used() {
    let mut actor = DomainActor::new("example.com".to_string(), ONE);
    let body = "User-agent: *\nCrawl-delay: 5\n".to_string();
    let d = Delay { secs: 5, nanos: 0 };
    actor.handle(CrawlerMessage::RobotsReady(Some(body)), Some(d));
    assert_eq!(actor.crawl_delay(), d);
}

#[test]
fn one_fetch_at_a_time() {
    let mut actor = DomainActor::new("example.com".to_string(), ONE);
    actor.handle(CrawlerMessage::RobotsReady(None), None);
    let a = actor.handle(CrawlerMessage::CrawlUrl(url("https://example.com/a")), None);
    assert!(dispatched(&a).is_some());
    let b = actor.handle(CrawlerMessage::CrawlUrl(url("https://example.com/b")), None);
    assert!(matches!(b, DomainAction::Idle));
    let c = actor.handle(CrawlerMessage::Tick, None);
    assert!(matches!(c, DomainAction::Idle));
    assert_eq!(actor.queue_len(), 1);
}

#[test]
fn page_result_schedules_tick_then_dispatches() {
    let d = Delay { secs: 3, nanos: 500 };
    let mut actor = DomainActor::new("example.com".to_string(), d);
    actor.handle(CrawlerMessage::RobotsReady(None), None);
    actor.handle(CrawlerMessage::CrawlUrl(url("https://example.com/a")), None);
    actor.handle(CrawlerMessage::CrawlUrl(url("https://example.com/b")), None);
    let a = actor.handle(CrawlerMessage::PageResult(page("https://example.com/a")), None);
    match a {
        DomainAction::ForwardAndTick(r, delay) => {
            assert_eq!(r.url, "https://example.com/a");
            assert_eq!(delay, d);
        }
        _ => panic!("expected a tick"),
    }
    assert!(!actor.in_flight());
    let b = actor.handle(CrawlerMessage::Tick, None);
    assert_eq!(dispatched(&b), Some("https://example.com/b".to_string()));
}

#[test]
fn page_result_with_empty_queue_stops() {
    let mut actor = DomainActor::new("example.com".to_string(), ONE);
    actor.handle(CrawlerMessage::RobotsReady(None), None);
    actor.handle(CrawlerMessage::CrawlUrl(url("https://example.com/a")), None);
    let a = actor.handle(CrawlerMessage::PageResult(page("https://example.com/a")), None);
    assert!(matches!(a, DomainAction::ForwardAndStop(_)));
    match actor.post_stop() {
        CrawlerMessage::DomainStopped(d) => assert_eq!(d, "example.com"),
        _ => panic!("expected DomainStopped"),
    }
}

#[test]
fn disallowed_urls_are_skipped() {
    let mut actor = DomainActor::new("example.com".to_string(), ONE);
    actor.handle(CrawlerMessage::CrawlUrl(url("https://example.com/private/1")), None);
    actor.handle(CrawlerMessage::CrawlUrl(url("https://example.com/private/2")), None);
    actor.handle(CrawlerMessage::CrawlUrl(url("https://example.com/public")), None);
    actor.handle(CrawlerMessage::CrawlUrl(url("https://example.com/private/3")), None);
    let body = "User-agent: *\nDisallow: /private\n".to_string();
    let a = actor.handle(CrawlerMessage::RobotsReady(Some(body)), None);
    assert_eq!(dispatched(&a), Some("https://example.com/public".to_string()));
    assert_eq!(actor.queue_len(), 1);
    actor.handle(CrawlerMessage::PageResult(page("https://example.com/public")), None);
    let b = actor.handle(CrawlerMessage::Tick, None);
    assert!(matches!(b, DomainAction::Idle));
    assert_eq!(actor.queue_len(), 0);
    assert!(!actor.in_flight());
}

#[test]
fn is_allowed_follows_robots_rules() {
    let mut actor = DomainActor::new("example.com".to_string(), ONE);
    assert!(actor.is_allowed("https://example.com/private"));
    let body = "User-agent: muse-crawler\nDisallow: /private\n".to_string();
    actor.handle(CrawlerMessage::RobotsReady(Some(body)), None);
    assert!(!actor.is_allowed("https://example.com/private/page"));
    assert!(actor.is_allowed("https://example.com/open"));
}

#[test]
fn dispatch_failure_frees_the_slot() {
    let mut actor = DomainActor::new("example.com".to_string(), ONE);
    actor.handle(CrawlerMessage::RobotsReady(None), None);
    actor.handle(CrawlerMessage::CrawlUrl(url("https://example.com/a")), None);
    assert!(actor.in_flight());
    actor.dispatch_failed();
    assert!(!actor.in_flight());
    actor.handle(CrawlerMessage::CrawlUrl(url("https://example.com/b")), None);
    assert!(actor.in_flight());
}

#[test]
fn other_messages_are_ignored() {
    let mut actor = DomainActor::new("example.com".to_string(), ONE);
    let a = actor.handle(CrawlerMessage::DomainStopped("x".to_string()), None);
    assert!(matches!(a, DomainAction::Idle));
    assert_eq!(actor.queue_len(), 0);
}

#[test]
fn robots_url_of_domain() {
    let actor = DomainActor::new("example.com".to_string(), ONE);
    assert_eq!(actor.robots_url(), "https://example.com/robots.txt");
}

#[test]
fn extract_domain_gives_host() {
    assert_eq!(extract_domain("https://example.com/a/b?c=d"), Some("example.com".to_string()));
    assert_eq!(extract_domain("http://Sub.Example.org:8080/"), Some("sub.example.org".to_string()));
    assert_eq!(extract_domain("not a url"), None);
}

#[test]
fn missing_robots_keeps_default_delay_whatever_the_caller_read() {
    let mut actor = DomainActor::new("example.com".to_string(), ONE);
    actor.handle(CrawlerMessage::RobotsReady(None), Some(Delay { secs: 9, nanos: 0 }));
    assert_eq!(actor.crawl_delay(), ONE);
}
