use crawler::domain::Delay;
use crawler::frontier::{FrontierAction, Route, URLFrontierActor};
use crawler::messages::{CrawlUrl, CrawlerMessage, FrontierStatus, GetFrontierStatus, PageResult};

fn page(depth: u32, links: &[&str]) -> PageResult {
    PageResult {
        url: "https://example.com/".to_string(),
        title: "t".to_string(),
        links: links.iter().map(|l| l.to_string()).collect(),
        text: String::new(),
        depth,
    }
}

fn routed(a: &FrontierAction) -> Vec<(String, u32)> {
    match a {
        FrontierAction::Route(v) => v.iter().map(|c| (c.url.clone(), c.depth)).collect(),
        _ => vec![],
    }
}

fn status(f: &mut URLFrontierActor) -> FrontierStatus {
    match f.handle(CrawlerMessage::GetFrontierStatus(GetFrontierStatus), true) {
        FrontierAction::Respond(s) => s,
        _ => panic!("expected a status"),
    }
}

#[test]
fn seed_is_routed_once() {
    let mut f = URLFrontierActor::default();
    let seed = CrawlUrl { url: "https://example.com".to_string(), depth: 0 };
    let a = f.handle(CrawlerMessage::CrawlUrl(seed.clone()), false);
    assert_eq!(routed(&a), vec![("https://example.com".to_string(), 0)]);
    let b = f.handle(CrawlerMessage::CrawlUrl(seed), false);
    assert!(matches!(b, FrontierAction::Ignore));
}

#[test]
fn page_links_filtered_trimmed_and_deduplicated() {
    let mut f = URLFrontierActor::new(3, 100, Delay { secs: 1, nanos: 0 });
    let links = ["  https://a.com/x  ", "ftp://x.org", "", "   ", "http://b.com", "https://a.com/x", "mailto:me@x"];
    let a = f.handle(CrawlerMessage::PageResult(page(0, &links)), false);
    assert_eq!(
        routed(&a),
        vec![("https://a.com/x".to_string(), 1), ("http://b.com".to_string(), 1)]
    );
    let b = f.handle(CrawlerMessage::PageResult(page(1, &["http://b.com", "https://c.com"])), false);
    assert_eq!(routed(&b), vec![("https://c.com".to_string(), 2)]);
    let st = status(&mut f);
    assert_eq!((st.queued, st.crawled), (0, 2));
}

#[test]
fn no_links_at_depth_limit() {
    let mut f = URLFrontierActor::new(2, 100, Delay { secs: 1, nanos: 0 });
    let a = f.handle(CrawlerMessage::PageResult(page(2, &["https://a.com"])), false);
    assert!(routed(&a).is_empty());
    let b = f.handle(CrawlerMessage::PageResult(page(1, &["https://a.com"])), false);
    assert_eq!(routed(&b), vec![("https://a.com".to_string(), 2)]);
}

#[test]
fn no_links_once_page_limit_reached() {
    let mut f = URLFrontierActor::new(5, 2, Delay { secs: 1, nanos: 0 });
    let a = f.handle(CrawlerMessage::PageResult(page(0, &["https://a.com"])), false);
    assert_eq!(routed(&a).len(), 1);
    let b = f.handle(CrawlerMessage::PageResult(page(0, &["https://b.com"])), false);
    assert!(routed(&b).is_empty());
    let c = f.handle(CrawlerMessage::PageResult(page(0, &["https://c.com"])), false);
    assert!(routed(&c).is_empty());
    assert_eq!(status(&mut f).crawled, 3);
}

#[test]
fn link_seen_from_crawl_url_is_not_routed_again() {
    let mut f = URLFrontierActor::default();
    f.handle(CrawlerMessage::CrawlUrl(CrawlUrl { url: "https://a.com".to_string(), depth: 0 }), false);
    let a = f.handle(CrawlerMessage::PageResult(page(0, &["https://a.com", "https://b.com"])), false);
    assert_eq!(routed(&a), vec![("https://b.com".to_string(), 1)]);
}

#[test]
fn status_only_for_ask_requests() {
    let mut f = URLFrontierActor::default();
    let a = f.handle(CrawlerMessage::GetFrontierStatus(GetFrontierStatus), false);
    assert!(matches!(a, FrontierAction::Ignore));
    assert!(f.handle_status_request(false).is_none());
    let st = f.handle_status_request(true).expect("a status");
    assert_eq!((st.queued, st.crawled), (0, 0));
}

#[test]
fn routing_spawns_once_per_live_domain() {
    let mut f = URLFrontierActor::default();
    let u = CrawlUrl { url: "https://example.com/a".to_string(), depth: 0 };
    match f.route_url(&u) {
        Route::SpawnDomain(d) => {
            assert_eq!(d, "example.com");
            f.domain_spawned(d);
        }
        _ => panic!("expected a spawn"),
    }
    match f.route_url(&u) {
        Route::ToDomain(d) => assert_eq!(d, "example.com"),
        _ => panic!("expected the live actor"),
    }
    f.handle(CrawlerMessage::DomainStopped("example.com".to_string()), false);
    assert!(matches!(f.route_url(&u), Route::SpawnDomain(_)));
}

#[test]
fn url_without_domain_is_unroutable() {
    let f = URLFrontierActor::default();
    let u = CrawlUrl { url: "nonsense".to_string(), depth: 0 };
    assert!(matches!(f.route_url(&u), Route::Unroutable));
}

#[test]
fn default_frontier_settings() {
    let f = URLFrontierActor::default();
    assert_eq!(f.default_delay(), Delay { secs: 1, nanos: 0 });
    let mut g = URLFrontierActor::default();
    // depth 2 < 3 still follows links, depth 3 does not
    assert_eq!(routed(&g.handle(CrawlerMessage::PageResult(page(2, &["https://x.com"])), false)).len(), 1);
    assert!(routed(&g.handle(CrawlerMessage::PageResult(page(3, &["https://y.com"])), false)).is_empty());
}

#[test]
fn unrelated_messages_are_ignored() {
    let mut f = URLFrontierActor::default();
    assert!(matches!(f.handle(CrawlerMessage::Tick, false), FrontierAction::Ignore));
    assert!(matches!(f.handle(CrawlerMessage::RobotsReady(None), false), FrontierAction::Ignore));
}

#[test]
fn route_for_given_host() {
    let mut f = URLFrontierActor::default();
    assert!(matches!(f.route_for_host(None), Route::Unroutable));
    match f.route_for_host(Some("a.org".to_string())) {
        Route::SpawnDomain(d) => assert_eq!(d, "a.org"),
        _ => panic!("expected a spawn"),
    }
    f.domain_spawned("a.org".to_string());
    f.domain_spawned("a.org".to_string());
    assert!(matches!(f.route_for_host(Some("a.org".to_string())), Route::ToDomain(_)));
    assert!(matches!(f.route_for_host(Some("b.org".to_string())), Route::SpawnDomain(_)));
    f.handle(CrawlerMessage::DomainStopped("a.org".to_string()), false);
    assert!(matches!(f.route_for_host(Some("a.org".to_string())), Route::SpawnDomain(_)));
}
