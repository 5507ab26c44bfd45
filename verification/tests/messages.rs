use crawler::messages::{CrawlUrl, CrawlerMessage, FrontierStatus, GetFrontierStatus, PageResult};

#[test]
fn conversions_wrap_messages() {
    let m: CrawlerMessage = CrawlUrl { url: "u".to_string(), depth: 3 }.into();
    assert!(matches!(m, CrawlerMessage::CrawlUrl(ref c) if c.url == "u" && c.depth == 3));
    let p = PageResult { url: "p".to_string(), title: String::new(), links: vec![], text: String::new(), depth: 0 };
    assert!(matches!(CrawlerMessage::from(p), CrawlerMessage::PageResult(_)));
    assert!(matches!(CrawlerMessage::from(GetFrontierStatus), CrawlerMessage::GetFrontierStatus(_)));
    let s = FrontierStatus { queued: 1, crawled: 2 };
    assert!(matches!(CrawlerMessage::from(s), CrawlerMessage::FrontierStatus(FrontierStatus { queued: 1, crawled: 2 })));
}

#[test]
fn message_type_names() {
    assert_eq!(CrawlUrl { url: String::new(), depth: 0 }.type_id(), "CrawlUrl");
    assert_eq!(GetFrontierStatus.type_id(), "GetFrontierStatus");
    assert_eq!(FrontierStatus { queued: 0, crawled: 0 }.type_id(), "FrontierStatus");
    assert_eq!(CrawlerMessage::Tick.type_id(), "CrawlerMessage");
    let p = PageResult { url: String::new(), title: String::new(), links: vec![], text: String::new(), depth: 0 };
    assert_eq!(p.type_id(), "PageResult");
}
