//! The messages that the crawler's actors exchange.

use vstd::prelude::*;
use vstd::std_specs::convert::FromSpecImpl;

verus! {

/// Message to crawl a URL
#[derive(Debug, Clone)]
pub struct CrawlUrl {
    pub url: String,
    pub depth: u32,
}

/// A URL to crawl, as text, with its depth.
pub struct CrawlUrlView {
    pub url: Seq<char>,
    pub depth: u32,
}

impl View for CrawlUrl {
    type V = CrawlUrlView;

    open spec fn view(&self) -> CrawlUrlView {
        CrawlUrlView { url: self.url@, depth: self.depth }
    }
}

impl CrawlUrl {
    /// The message's type name.
    pub fn type_id(&self) -> (res: &'static str)
        ensures
            res@ == "CrawlUrl"@,
    {
        "CrawlUrl"
    }
}

/// Result from crawling a page
#[derive(Debug, Clone)]
pub struct PageResult {
    pub url: String,
    pub title: String,
    pub links: Vec<String>,
    /// Full text content for indexing
    pub text: String,
    pub depth: u32,
}

/// A crawled page, as text.
pub struct PageResultView {
    pub url: Seq<char>,
    pub title: Seq<char>,
    pub links: Seq<Seq<char>>,
    pub text: Seq<char>,
    pub depth: u32,
}

impl View for PageResult {
    type V = PageResultView;

    open spec fn view(&self) -> PageResultView {
        PageResultView {
            url: self.url@,
            title: self.title@,
            links: self.links@.map_values(|s: String| s@),
            text: self.text@,
            depth: self.depth,
        }
    }
}

impl PageResult {
    /// The message's type name.
    pub fn type_id(&self) -> (res: &'static str)
        ensures
            res@ == "PageResult"@,
    {
        "PageResult"
    }
}

/// Request to get frontier status
#[derive(Debug, Clone)]
pub struct GetFrontierStatus;

impl GetFrontierStatus {
    /// The message's type name.
    pub fn type_id(&self) -> (res: &'static str)
        ensures
            res@ == "GetFrontierStatus"@,
    {
        "GetFrontierStatus"
    }
}

/// Response with frontier status
#[derive(Debug, Clone)]
pub struct FrontierStatus {
    pub queued: usize,
    pub crawled: usize,
}

impl FrontierStatus {
    /// The message's type name.
    pub fn type_id(&self) -> (res: &'static str)
        ensures
            res@ == "FrontierStatus"@,
    {
        "FrontierStatus"
    }
}

/// Unified message type for all crawler actors
#[derive(Debug, Clone)]
pub enum CrawlerMessage {
    CrawlUrl(CrawlUrl),
    PageResult(PageResult),
    GetFrontierStatus(GetFrontierStatus),
    FrontierStatus(FrontierStatus),
    /// Carries fetched robots.txt body (None = unreachable/404, allow all)
    RobotsReady(Option<String>),
    /// Scheduled by DomainActor after crawl-delay elapses
    Tick,
    /// Sent by DomainActor to Frontier when it self-terminates (idle)
    DomainStopped(String),
}

impl CrawlerMessage {
    /// The message's type name.
    pub fn type_id(&self) -> (res: &'static str)
        ensures
            res@ == "CrawlerMessage"@,
    {
        "CrawlerMessage"
    }
}

impl From<CrawlUrl> for CrawlerMessage {
    fn from(msg: CrawlUrl) -> (res: Self) {
        CrawlerMessage::CrawlUrl(msg)
    }
}

impl FromSpecImpl<CrawlUrl> for CrawlerMessage {
    open spec fn obeys_from_spec() -> bool {
        true
    }

    open spec fn from_spec(msg: CrawlUrl) -> Self {
        CrawlerMessage::CrawlUrl(msg)
    }
}

impl From<PageResult> for CrawlerMessage {
    fn from(msg: PageResult) -> (res: Self) {
        CrawlerMessage::PageResult(msg)
    }
}

impl FromSpecImpl<PageResult> for CrawlerMessage {
    open spec fn obeys_from_spec() -> bool {
        true
    }

    open spec fn from_spec(msg: PageResult) -> Self {
        CrawlerMessage::PageResult(msg)
    }
}

impl From<GetFrontierStatus> for CrawlerMessage {
    fn from(msg: GetFrontierStatus) -> (res: Self) {
        CrawlerMessage::GetFrontierStatus(msg)
    }
}

impl FromSpecImpl<GetFrontierStatus> for CrawlerMessage {
    open spec fn obeys_from_spec() -> bool {
        true
    }

    open spec fn from_spec(msg: GetFrontierStatus) -> Self {
        CrawlerMessage::GetFrontierStatus(msg)
    }
}

impl From<FrontierStatus> for CrawlerMessage {
    fn from(msg: FrontierStatus) -> (res: Self) {
        CrawlerMessage::FrontierStatus(msg)
    }
}

impl FromSpecImpl<FrontierStatus> for CrawlerMessage {
    open spec fn obeys_from_spec() -> bool {
        true
    }

    open spec fn from_spec(msg: FrontierStatus) -> Self {
        CrawlerMessage::FrontierStatus(msg)
    }
}

} // verus!
