//! The URL frontier's decisions: it remembers every URL it has seen, counts
//! crawled pages, picks the new links of each page within the depth and page
//! limits, and routes each URL to the actor of its domain.
//!
//! Spawning domain actors, sending messages and answering requests are done
//! by the caller: each message here becomes the next state and one action.

use std::collections::VecDeque;
use vstd::prelude::*;
use crate::domain::{extract_domain, url_host, Delay};
use crate::messages::{CrawlUrl, CrawlUrlView, CrawlerMessage, FrontierStatus, PageResult, PageResultView};
use crate::string_set::StringSet;
use crate::text::{chars_to_string, has_prefix, starts_with, to_chars, trim, trim_chars};

verus! {

/// The actor that decides which URLs get crawled.
pub struct URLFrontierActor {
    queue: VecDeque<CrawlUrl>,
    seen: StringSet,
    crawled_count: usize,
    max_depth: u32,
    max_urls: usize,
    default_delay: Delay,
    domains: StringSet,
}

/// The state of a [`URLFrontierActor`].
pub struct FrontierModel {
    /// URLs held back by the frontier itself (none are ever queued).
    pub queue: Seq<CrawlUrl>,
    /// Every URL ever accepted for crawling.
    pub seen: Set<Seq<char>>,
    /// Pages reported crawled.
    pub crawled_count: usize,
    pub max_depth: u32,
    pub max_urls: usize,
    /// The crawl delay handed to new domain actors.
    pub default_delay: Delay,
    /// Domains that have a live domain actor.
    pub domains: Set<Seq<char>>,
}

impl View for URLFrontierActor {
    type V = FrontierModel;

    closed spec fn view(&self) -> FrontierModel {
        FrontierModel {
            queue: self.queue@,
            seen: self.seen@,
            crawled_count: self.crawled_count,
            max_depth: self.max_depth,
            max_urls: self.max_urls,
            default_delay: self.default_delay,
            domains: self.domains@,
        }
    }
}

/// What the frontier asks its caller to do after a message.
pub enum FrontierAction {
    /// Nothing.
    Ignore,
    /// Route each of these URLs, in order, to its domain (see `route_url`).
    Route(Vec<CrawlUrl>),
    /// Answer the request with this status.
    Respond(FrontierStatus),
}

/// A [`FrontierAction`], its URLs as text.
pub enum FrontierActionView {
    Ignore,
    Route(Seq<CrawlUrlView>),
    Respond(FrontierStatus),
}

impl View for FrontierAction {
    type V = FrontierActionView;

    open spec fn view(&self) -> FrontierActionView {
        match self {
            FrontierAction::Ignore => FrontierActionView::Ignore,
            FrontierAction::Route(v) => FrontierActionView::Route(v@.map_values(|c: CrawlUrl| c@)),
            FrontierAction::Respond(st) => FrontierActionView::Respond(*st),
        }
    }
}

/// Where a URL goes.
pub enum Route {
    /// Nowhere: it has no domain.
    Unroutable,
    /// To the live actor of this domain.
    ToDomain(String),
    /// To a new actor for this domain, to be spawned first (and registered
    /// with `domain_spawned` once it runs).
    SpawnDomain(String),
}

/// A [`Route`], its domain as text.
pub enum RouteView {
    Unroutable,
    ToDomain(Seq<char>),
    SpawnDomain(Seq<char>),
}

impl View for Route {
    type V = RouteView;

    open spec fn view(&self) -> RouteView {
        match self {
            Route::Unroutable => RouteView::Unroutable,
            Route::ToDomain(d) => RouteView::ToDomain(d@),
            Route::SpawnDomain(d) => RouteView::SpawnDomain(d@),
        }
    }
}

/// Whether a trimmed link is one the crawler follows: not empty, and an
/// `http://` or `https://` address.
pub open spec fn link_ok(t: Seq<char>) -> bool {
    !(t.len() == 0 || (!has_prefix(t, "http://"@) && !has_prefix(t, "https://"@)))
}

/// The links of a page that are new, in page order: each link trimmed, kept
/// when it is followed and not yet in `seen` (nor earlier on the page); and
/// `seen` with them added.
pub open spec fn page_links(seen: Set<Seq<char>>, links: Seq<Seq<char>>) -> (Set<Seq<char>>, Seq<Seq<char>>)
    decreases links.len(),
{
    if links.len() == 0 {
        (seen, Seq::empty())
    } else {
        let (s1, out) = page_links(seen, links.drop_last());
        let t = trim(links.last());
        if link_ok(t) && !s1.contains(t) {
            (s1.insert(t), out.push(t))
        } else {
            (s1, out)
        }
    }
}

/// The frontier's answer to a crawled page: the page is counted; unless the
/// page limit is reached or the page is at the depth limit, its new links
/// are routed one level deeper.
pub open spec fn page_step(s: FrontierModel, r: PageResultView) -> (FrontierModel, FrontierActionView) {
    let count = (s.crawled_count + 1) as usize;
    let s1 = FrontierModel { crawled_count: count, ..s };
    if count >= s.max_urls || r.depth >= s.max_depth {
        (s1, FrontierActionView::Route(Seq::empty()))
    } else {
        let (seen2, out) = page_links(s.seen, r.links);
        (
            FrontierModel { seen: seen2, ..s1 },
            FrontierActionView::Route(
                out.map_values(|t: Seq<char>| CrawlUrlView { url: t, depth: (r.depth + 1) as u32 }),
            ),
        )
    }
}

/// The status the frontier reports.
pub open spec fn status_of(s: FrontierModel) -> FrontierStatus {
    FrontierStatus { queued: s.queue.len() as usize, crawled: s.crawled_count }
}

/// The frontier's answer to a message: its next state and its action.
/// `is_ask_request` says whether the message was sent as a request that
/// awaits an answer.
pub open spec fn frontier_step(s: FrontierModel, msg: CrawlerMessage, is_ask_request: bool) -> (FrontierModel, FrontierActionView) {
    match msg {
        CrawlerMessage::CrawlUrl(u) => {
            if s.seen.contains(u.url@) {
                (s, FrontierActionView::Ignore)
            } else {
                (FrontierModel { seen: s.seen.insert(u.url@), ..s }, FrontierActionView::Route(seq![u@]))
            }
        },
        CrawlerMessage::PageResult(r) => page_step(s, r@),
        CrawlerMessage::GetFrontierStatus(_) => {
            if is_ask_request {
                (s, FrontierActionView::Respond(status_of(s)))
            } else {
                (s, FrontierActionView::Ignore)
            }
        },
        CrawlerMessage::DomainStopped(d) => (FrontierModel { domains: s.domains.remove(d@), ..s }, FrontierActionView::Ignore),
        _ => (s, FrontierActionView::Ignore),
    }
}

/// Where the frontier sends a URL whose domain is `host`: to the domain's
/// live actor, or to a new one; nowhere when there is no domain.
pub open spec fn route_for(s: FrontierModel, host: Option<Seq<char>>) -> RouteView {
    match host {
        None => RouteView::Unroutable,
        Some(d) => if s.domains.contains(d) {
            RouteView::ToDomain(d)
        } else {
            RouteView::SpawnDomain(d)
        },
    }
}

/// Where the frontier sends `url` (see [`route_for`]).
pub open spec fn route_of(s: FrontierModel, url: Seq<char>) -> RouteView {
    route_for(s, url_host(url))
}

/// The page counter can take one more page.
pub open spec fn can_count(s: FrontierModel) -> bool {
    s.crawled_count < usize::MAX
}

/// The URLs routed in an action (none for other actions).
pub open spec fn routed(a: FrontierActionView) -> Seq<CrawlUrlView> {
    match a {
        FrontierActionView::Route(us) => us,
        _ => Seq::empty(),
    }
}

/// What `page_links` keeps: new, followed links, each once, all added to
/// the seen set and nothing else.
pub proof fn lemma_page_links(seen: Set<Seq<char>>, links: Seq<Seq<char>>)
    ensures
        forall|t: Seq<char>| #[trigger] page_links(seen, links).0.contains(t) <==> (seen.contains(t)
            || page_links(seen, links).1.contains(t)),
        forall|k: int|
            0 <= k < page_links(seen, links).1.len() ==> !seen.contains(#[trigger] page_links(seen, links).1[k])
                && link_ok(page_links(seen, links).1[k]),
        page_links(seen, links).1.no_duplicates(),
    decreases links.len(),
{
    if links.len() > 0 {
        lemma_page_links(seen, links.drop_last());
        let (s1, out) = page_links(seen, links.drop_last());
        let t = trim(links.last());
        if link_ok(t) && !s1.contains(t) {
            let out2 = out.push(t);
            assert forall|u: Seq<char>| #[trigger] out2.contains(u) <==> (out.contains(u) || u == t) by {
                if out2.contains(u) {
                    let k = choose|k: int| 0 <= k < out2.len() && out2[k] == u;
                    if k < out.len() {
                        assert(out[k] == u);
                    }
                }
                if out.contains(u) {
                    let k = choose|k: int| 0 <= k < out.len() && out[k] == u;
                    assert(out2[k] == u);
                }
                if u == t {
                    assert(out2[out.len() as int] == u);
                }
            }
            assert forall|i: int, j: int| 0 <= i < out2.len() && 0 <= j < out2.len() && i != j implies out2[i] != out2[j] by {
                if i < out.len() && j < out.len() {
                } else if i < out.len() {
                    assert(out.contains(out2[i]));
                } else {
                    assert(out.contains(out2[j]));
                }
            }
        }
    }
}

/// Each URL is routed at most once: a routed URL was not seen before, is
/// seen after, and is routed once in the action; the seen set only grows.
pub proof fn lemma_routed_fresh(s: FrontierModel, msg: CrawlerMessage, is_ask_request: bool)
    ensures
        s.seen.subset_of(frontier_step(s, msg, is_ask_request).0.seen),
        forall|k: int|
            0 <= k < routed(frontier_step(s, msg, is_ask_request).1).len() ==> !s.seen.contains(
                #[trigger] routed(frontier_step(s, msg, is_ask_request).1)[k].url,
            ) && frontier_step(s, msg, is_ask_request).0.seen.contains(routed(frontier_step(s, msg, is_ask_request).1)[k].url),
        forall|i: int, j: int|
            0 <= i < routed(frontier_step(s, msg, is_ask_request).1).len() && 0 <= j < routed(
                frontier_step(s, msg, is_ask_request).1,
            ).len() && i != j ==> #[trigger] routed(frontier_step(s, msg, is_ask_request).1)[i].url
                != #[trigger] routed(frontier_step(s, msg, is_ask_request).1)[j].url,
{
    match msg {
        CrawlerMessage::PageResult(r) => {
            lemma_page_links(s.seen, r@.links);
            let (seen2, out) = page_links(s.seen, r@.links);
            let us = out.map_values(|t: Seq<char>| CrawlUrlView { url: t, depth: (r@.depth + 1) as u32 });
            assert forall|k: int| 0 <= k < us.len() implies #[trigger] us[k].url == out[k] by {}
            assert forall|k: int| 0 <= k < out.len() implies seen2.contains(#[trigger] out[k]) by {
                assert(out.contains(out[k]));
            }
        },
        _ => {},
    }
}

/// A URL routed once is not routed by the next message either.
pub proof fn lemma_routed_once(s: FrontierModel, m1: CrawlerMessage, ask1: bool, m2: CrawlerMessage, ask2: bool)
    ensures
        ({
            let (s1, a1) = frontier_step(s, m1, ask1);
            let a2 = frontier_step(s1, m2, ask2).1;
            forall|i: int, j: int|
                0 <= i < routed(a1).len() && 0 <= j < routed(a2).len() ==> #[trigger] routed(a1)[i].url
                    != #[trigger] routed(a2)[j].url
        }),
{
    let (s1, a1) = frontier_step(s, m1, ask1);
    lemma_routed_fresh(s, m1, ask1);
    lemma_routed_fresh(s1, m2, ask2);
    let a2 = frontier_step(s1, m2, ask2).1;
    assert forall|i: int, j: int|
        0 <= i < routed(a1).len() && 0 <= j < routed(a2).len() implies #[trigger] routed(a1)[i].url
            != #[trigger] routed(a2)[j].url by {
        assert(s1.seen.contains(routed(a1)[i].url));
        assert(!s1.seen.contains(routed(a2)[j].url));
    }
}

/// A crawled page is counted; its links are followed only while the page
/// limit is not reached and the page is above the depth limit, and then
/// they are `http`/`https` links one level deeper, at most at the depth limit.
pub proof fn lemma_page_limits(s: FrontierModel, r: PageResult, is_ask_request: bool)
    ensures
        ({
            let (s2, a) = frontier_step(s, CrawlerMessage::PageResult(r), is_ask_request);
            &&& s2.crawled_count == (s.crawled_count + 1) as usize
            &&& a is Route
            &&& (s2.crawled_count >= s.max_urls || r.depth >= s.max_depth) ==> routed(a).len() == 0
            &&& forall|k: int|
                0 <= k < routed(a).len() ==> #[trigger] routed(a)[k].depth == r.depth + 1
                    && routed(a)[k].depth <= s.max_depth && link_ok(routed(a)[k].url)
        }),
{
    lemma_page_links(s.seen, r@.links);
}

/// Only crawled pages are counted, and the frontier never queues URLs itself:
/// its status always reports an empty queue.
pub proof fn lemma_counts_and_queue(s: FrontierModel, msg: CrawlerMessage, is_ask_request: bool)
    ensures
        !(msg is PageResult) ==> frontier_step(s, msg, is_ask_request).0.crawled_count == s.crawled_count,
        frontier_step(s, msg, is_ask_request).0.queue == s.queue,
        s.queue.len() == 0 ==> status_of(s).queued == 0,
{
}

/// Once a domain's actor has stopped, the next URL of that domain is sent
/// to a new actor for it.
pub proof fn lemma_stopped_domain_respawns(s: FrontierModel, d: String, is_ask_request: bool, url: Seq<char>)
    requires
        url_host(url) == Some(d@),
    ensures
        route_of(frontier_step(s, CrawlerMessage::DomainStopped(d), is_ask_request).0, url)
            == RouteView::SpawnDomain(d@),
{
}

/// Only a `DomainStopped` message changes the set of live domains (besides
/// `domain_spawned`); only `CrawlUrl` and `PageResult` change the seen set;
/// the limits and the default delay never change.
pub proof fn lemma_frontier_settings_kept(s: FrontierModel, msg: CrawlerMessage, is_ask_request: bool)
    ensures
        !(msg is DomainStopped) ==> frontier_step(s, msg, is_ask_request).0.domains == s.domains,
        msg matches CrawlerMessage::DomainStopped(d) ==> frontier_step(s, msg, is_ask_request).0.domains
            == s.domains.remove(d@),
        !(msg is CrawlUrl) && !(msg is PageResult) ==> frontier_step(s, msg, is_ask_request).0.seen == s.seen,
        frontier_step(s, msg, is_ask_request).0.max_depth == s.max_depth,
        frontier_step(s, msg, is_ask_request).0.max_urls == s.max_urls,
        frontier_step(s, msg, is_ask_request).0.default_delay == s.default_delay,
{
}

/// A URL is sent to a new actor exactly when its domain has no live one,
/// and to the live one otherwise.
pub proof fn lemma_route_spawns_only_without_live_actor(s: FrontierModel, url: Seq<char>)
    ensures
        route_of(s, url) is SpawnDomain <==> (url_host(url) is Some && !s.domains.contains(url_host(url)->0)),
        route_of(s, url) is ToDomain <==> (url_host(url) is Some && s.domains.contains(url_host(url)->0)),
        route_of(s, url) is Unroutable <==> url_host(url) is None,
{
}

proof fn lemma_page_links_sources(seen: Set<Seq<char>>, links: Seq<Seq<char>>)
    ensures
        forall|k: int|
            0 <= k < page_links(seen, links).1.len() ==> exists|j: int|
                0 <= j < links.len() && #[trigger] page_links(seen, links).1[k] == trim(#[trigger] links[j]),
        forall|j: int|
            0 <= j < links.len() && link_ok(trim(#[trigger] links[j])) ==> page_links(seen, links).0.contains(
                trim(links[j]),
            ),
    decreases links.len(),
{
    if links.len() > 0 {
        let l0 = links.drop_last();
        lemma_page_links_sources(seen, l0);
        let (s1, out) = page_links(seen, l0);
        let n = links.len() - 1;
        assert(forall|j: int| 0 <= j < n ==> #[trigger] l0[j] == links[j]);
        assert(links[n] == links.last());
        let out2 = page_links(seen, links).1;
        assert forall|k: int| 0 <= k < out2.len() implies exists|j: int|
            0 <= j < links.len() && #[trigger] out2[k] == trim(#[trigger] links[j]) by {
            if k < out.len() {
                assert(out2[k] == out[k]);
                let j = choose|j: int| 0 <= j < l0.len() && #[trigger] out[k] == trim(#[trigger] l0[j]);
                assert(out2[k] == trim(links[j]));
            } else {
                assert(out2[k] == trim(links[n]));
            }
        }
        let s2 = page_links(seen, links).0;
        assert(s1.subset_of(s2));
        assert forall|j: int| 0 <= j < links.len() && link_ok(trim(#[trigger] links[j])) implies s2.contains(
            trim(links[j]),
        ) by {
            if j < n {
                assert(s1.contains(trim(l0[j])));
            }
        }
    }
}

/// The URLs a page has routed are its own links, trimmed: each is one of
/// them; and, while the page and depth limits allow links, every link of the
/// page that is a followed link not seen before is routed, one level deeper.
pub proof fn lemma_page_routes_its_new_links(s: FrontierModel, r: PageResult, is_ask_request: bool)
    ensures
        ({
            let (s2, a) = frontier_step(s, CrawlerMessage::PageResult(r), is_ask_request);
            let links = r@.links;
            &&& forall|k: int|
                0 <= k < routed(a).len() ==> exists|j: int|
                    0 <= j < links.len() && #[trigger] routed(a)[k].url == trim(#[trigger] links[j])
            &&& ((s.crawled_count + 1) as usize) < s.max_urls && r.depth < s.max_depth ==> forall|j: int|
                0 <= j < links.len() && link_ok(trim(#[trigger] links[j])) && !s.seen.contains(trim(links[j]))
                    ==> exists|k: int|
                    0 <= k < routed(a).len() && #[trigger] routed(a)[k] == (CrawlUrlView {
                        url: trim(links[j]),
                        depth: (r.depth + 1) as u32,
                    })
        }),
{
    let links = r@.links;
    lemma_page_links(s.seen, links);
    lemma_page_links_sources(s.seen, links);
    let (s2, a) = frontier_step(s, CrawlerMessage::PageResult(r), is_ask_request);
    let (seen2, out) = page_links(s.seen, links);
    if ((s.crawled_count + 1) as usize) < s.max_urls && r.depth < s.max_depth {
        let us = routed(a);
        assert forall|k: int| 0 <= k < us.len() implies exists|j: int|
            0 <= j < links.len() && #[trigger] us[k].url == trim(#[trigger] links[j]) by {
            assert(us[k].url == out[k]);
            let j = choose|j: int| 0 <= j < links.len() && #[trigger] out[k] == trim(#[trigger] links[j]);
            assert(us[k].url == trim(links[j]));
        }
        assert forall|j: int|
            0 <= j < links.len() && link_ok(trim(#[trigger] links[j])) && !s.seen.contains(trim(links[j]))
                implies exists|k: int|
                0 <= k < us.len() && #[trigger] us[k] == (CrawlUrlView {
                    url: trim(links[j]),
                    depth: (r.depth + 1) as u32,
                }) by {
            let t = trim(links[j]);
            assert(seen2.contains(t));
            assert(out.contains(t));
            let k = choose|k: int| 0 <= k < out.len() && out[k] == t;
            assert(us[k] == (CrawlUrlView { url: t, depth: (r.depth + 1) as u32 }));
        }
    }
}

/// A `CrawlUrl` message routes its own URL with its own depth, exactly when
/// the URL was not seen before, and nothing else.
pub proof fn lemma_crawl_url_routed_as_sent(s: FrontierModel, u: CrawlUrl, is_ask_request: bool)
    ensures
        ({
            let (s2, a) = frontier_step(s, CrawlerMessage::CrawlUrl(u), is_ask_request);
            &&& s.seen.contains(u.url@) ==> a is Ignore && s2 == s
            &&& !s.seen.contains(u.url@) ==> routed(a) == seq![u@] && s2.seen == s.seen.insert(u.url@)
            &&& s2.crawled_count == s.crawled_count
        }),
{
}

/// The states a run of messages takes the frontier through, starting from
/// `s`; each message comes with whether it was sent as an ask request.
pub open spec fn frontier_run_states(s: FrontierModel, run: Seq<(CrawlerMessage, bool)>) -> Seq<FrontierModel>
    decreases run.len(),
{
    if run.len() == 0 {
        seq![s]
    } else {
        let prev = frontier_run_states(s, run.drop_last());
        prev.push(frontier_step(prev.last(), run.last().0, run.last().1).0)
    }
}

/// The action the frontier takes on the `k`th message of a run.
pub open spec fn frontier_run_action(s: FrontierModel, run: Seq<(CrawlerMessage, bool)>, k: int) -> FrontierActionView {
    frontier_step(frontier_run_states(s, run)[k], run[k].0, run[k].1).1
}

/// A run that `handle` can take: the page counter never overflows.
pub open spec fn frontier_run_countable(s: FrontierModel, run: Seq<(CrawlerMessage, bool)>) -> bool {
    forall|k: int|
        0 <= k < run.len() && #[trigger] run[k].0 is PageResult ==> can_count(frontier_run_states(s, run)[k])
}

/// A run passes through one state per message, each the step of the one
/// before.
pub proof fn lemma_frontier_run_states(s: FrontierModel, run: Seq<(CrawlerMessage, bool)>)
    ensures
        frontier_run_states(s, run).len() == run.len() + 1,
        frontier_run_states(s, run)[0] == s,
        forall|k: int|
            #![trigger run[k]]
            0 <= k < run.len() ==> frontier_run_states(s, run)[k + 1] == frontier_step(
                frontier_run_states(s, run)[k],
                run[k].0,
                run[k].1,
            ).0,
    decreases run.len(),
{
    if run.len() > 0 {
        let r0 = run.drop_last();
        lemma_frontier_run_states(s, r0);
        let prev = frontier_run_states(s, r0);
        let states = frontier_run_states(s, run);
        assert forall|k: int|
            #![trigger run[k]]
            0 <= k < run.len() implies states[k + 1] == frontier_step(states[k], run[k].0, run[k].1).0 by {
            if k < run.len() - 1 {
                assert(r0[k] == run[k]);
                assert(states[k] == prev[k]);
                assert(states[k + 1] == prev[k + 1]);
            }
        }
    }
}

/// Over any run, the seen set never shrinks, and in a run `handle` can take
/// the page counter never decreases.
pub proof fn lemma_run_monotone(s: FrontierModel, run: Seq<(CrawlerMessage, bool)>, i: int, j: int)
    requires
        0 <= i <= j <= run.len(),
    ensures
        frontier_run_states(s, run)[i].seen.subset_of(frontier_run_states(s, run)[j].seen),
        frontier_run_countable(s, run) ==> frontier_run_states(s, run)[i].crawled_count
            <= frontier_run_states(s, run)[j].crawled_count,
    decreases j - i,
{
    lemma_frontier_run_states(s, run);
    if i < j {
        let states = frontier_run_states(s, run);
        lemma_run_monotone(s, run, i, j - 1);
        assert(run[j - 1] == run[j - 1]);
        lemma_routed_fresh(states[j - 1], run[j - 1].0, run[j - 1].1);
        lemma_counts_and_queue(states[j - 1], run[j - 1].0, run[j - 1].1);
        if frontier_run_countable(s, run) && run[j - 1].0 is PageResult {
            assert(can_count(states[j - 1]));
        }
    }
}

proof fn lemma_run_domains_up_to(s: FrontierModel, run: Seq<(CrawlerMessage, bool)>, k: int)
    requires
        forall|i: int| 0 <= i < run.len() ==> !(#[trigger] run[i].0 is DomainStopped),
        0 <= k <= run.len(),
    ensures
        frontier_run_states(s, run)[k].domains == s.domains,
    decreases k,
{
    lemma_frontier_run_states(s, run);
    if k > 0 {
        lemma_run_domains_up_to(s, run, k - 1);
        assert(!(run[k - 1].0 is DomainStopped));
        lemma_frontier_settings_kept(frontier_run_states(s, run)[k - 1], run[k - 1].0, run[k - 1].1);
    }
}

/// Over a run without `DomainStopped`, the live domains stay as they were,
/// so no URL of a live domain is ever sent to a new actor.
pub proof fn lemma_run_domains_kept(s: FrontierModel, run: Seq<(CrawlerMessage, bool)>)
    requires
        forall|i: int| 0 <= i < run.len() ==> !(#[trigger] run[i].0 is DomainStopped),
    ensures
        forall|k: int| 0 <= k <= run.len() ==> #[trigger] frontier_run_states(s, run)[k].domains == s.domains,
{
    assert forall|k: int| 0 <= k <= run.len() implies #[trigger] frontier_run_states(s, run)[k].domains == s.domains by {
        lemma_run_domains_up_to(s, run, k);
    }
}

/// No URL is routed twice over any run: every URL routed was unseen before
/// its message and is seen ever after, and no two routings in the run, in
/// one action or in two, carry the same URL.
pub proof fn lemma_run_routed_once(s: FrontierModel, run: Seq<(CrawlerMessage, bool)>)
    ensures
        forall|k: int, a: int|
            0 <= k < run.len() && 0 <= a < routed(frontier_run_action(s, run, k)).len() ==> !frontier_run_states(
                s,
                run,
            )[k].seen.contains(#[trigger] routed(frontier_run_action(s, run, k))[a].url) && frontier_run_states(
                s,
                run,
            )[run.len() as int].seen.contains(routed(frontier_run_action(s, run, k))[a].url),
        forall|i: int, a: int, j: int, b: int|
            0 <= i < run.len() && 0 <= j < run.len() && 0 <= a < routed(frontier_run_action(s, run, i)).len()
                && 0 <= b < routed(frontier_run_action(s, run, j)).len() && (i != j || a != b)
                ==> #[trigger] routed(frontier_run_action(s, run, i))[a].url != #[trigger] routed(
                frontier_run_action(s, run, j),
            )[b].url,
{
    lemma_frontier_run_states(s, run);
    let states = frontier_run_states(s, run);
    let n = run.len() as int;
    assert forall|k: int, a: int|
        0 <= k < n && 0 <= a < routed(frontier_run_action(s, run, k)).len() implies !states[k].seen.contains(
            #[trigger] routed(frontier_run_action(s, run, k))[a].url,
        ) && states[n].seen.contains(routed(frontier_run_action(s, run, k))[a].url) by {
        assert(run[k] == run[k]);
        lemma_routed_fresh(states[k], run[k].0, run[k].1);
        lemma_run_monotone(s, run, k + 1, n);
    }
    assert forall|i: int, a: int, j: int, b: int|
        0 <= i < n && 0 <= j < n && 0 <= a < routed(frontier_run_action(s, run, i)).len() && 0 <= b < routed(
            frontier_run_action(s, run, j),
        ).len() && (i != j || a != b) implies #[trigger] routed(frontier_run_action(s, run, i))[a].url
        != #[trigger] routed(frontier_run_action(s, run, j))[b].url by {
        assert(run[i] == run[i]);
        assert(run[j] == run[j]);
        lemma_routed_fresh(states[i], run[i].0, run[i].1);
        lemma_routed_fresh(states[j], run[j].0, run[j].1);
        if i < j {
            lemma_run_monotone(s, run, i + 1, j);
        } else if j < i {
            lemma_run_monotone(s, run, j + 1, i);
        }
    }
}

impl URLFrontierActor {
    /// A frontier that follows links up to `max_depth` and stops following
    /// them once `max_urls` pages are crawled.
    pub fn new(max_depth: u32, max_urls: usize, default_delay: Delay) -> (res: URLFrontierActor)
        ensures
            res@ == (FrontierModel {
                queue: Seq::empty(),
                seen: Set::empty(),
                crawled_count: 0,
                max_depth: max_depth,
                max_urls: max_urls,
                default_delay: default_delay,
                domains: Set::empty(),
            }),
    {
        URLFrontierActor {
            queue: VecDeque::new(),
            seen: StringSet::new(),
            crawled_count: 0,
            max_depth,
            max_urls,
            default_delay,
            domains: StringSet::new(),
        }
    }

    /// The crawl delay handed to new domain actors.
    pub fn default_delay(&self) -> (res: Delay)
        ensures
            res == self@.default_delay,
    {
        self.default_delay
    }

    /// Where `crawl_url` is to be sent.
    pub fn route_url(&self, crawl_url: &CrawlUrl) -> (res: Route)
        ensures
            res@ == route_of(self@, crawl_url.url@),
    {
        let host = extract_domain(crawl_url.url.as_str());
        self.route_for_host(host)
    }

    /// Where a URL whose domain is `host` is to be sent.
    pub fn route_for_host(&self, host: Option<String>) -> (res: Route)
        ensures
            res@ == route_for(self@, match host {
                Some(h) => Some(h@),
                None => None,
            }),
    {
        match host {
            None => Route::Unroutable,
            Some(domain) => {
                if self.domains.contains(&domain) {
                    Route::ToDomain(domain)
                } else {
                    Route::SpawnDomain(domain)
                }
            },
        }
    }

    /// An actor for `domain` was spawned and now runs.
    pub fn domain_spawned(&mut self, domain: String)
        ensures
            final(self)@ == (FrontierModel { domains: old(self)@.domains.insert(domain@), ..old(self)@ }),
    {
        self.domains.insert(domain);
    }

    /// Counts a crawled page and picks its links to route (see [`page_step`]).
    pub fn handle_page_result(&mut self, result: PageResult) -> (res: Vec<CrawlUrl>)
        requires
            can_count(old(self)@),
        ensures
            (final(self)@, FrontierActionView::Route(res@.map_values(|c: CrawlUrl| c@))) == page_step(old(self)@, result@),
    {
        self.crawled_count = self.crawled_count + 1;
        let mut routed: Vec<CrawlUrl> = Vec::new();
        if self.crawled_count >= self.max_urls || result.depth >= self.max_depth {
            assert(routed@.map_values(|c: CrawlUrl| c@) =~= Seq::<CrawlUrlView>::empty());
            return routed;
        }
        let new_depth = result.depth + 1;
        let http = to_chars("http://");
        let https = to_chars("https://");
        let ghost links = result@.links;
        let ghost seen0 = old(self)@.seen;
        let mut i: usize = 0;
        while i < result.links.len()
            invariant
                i <= result.links@.len(),
                links == result@.links,
                links.len() == result.links@.len(),
                http@ == "http://"@,
                https@ == "https://"@,
                new_depth == result.depth + 1,
                self@.crawled_count == (old(self)@.crawled_count + 1) as usize,
                self@.queue == old(self)@.queue,
                self@.max_depth == old(self)@.max_depth,
                self@.max_urls == old(self)@.max_urls,
                self@.default_delay == old(self)@.default_delay,
                self@.domains == old(self)@.domains,
                self@.seen == page_links(seen0, links.take(i as int)).0,
                routed@.len() == page_links(seen0, links.take(i as int)).1.len(),
                forall|k: int|
                    0 <= k < routed@.len() ==> #[trigger] routed@[k]@ == (CrawlUrlView {
                        url: page_links(seen0, links.take(i as int)).1[k],
                        depth: new_depth,
                    }),
            decreases result.links.len() - i,
        {
            assert(links.take(i + 1).drop_last() =~= links.take(i as int));
            assert(links.take(i + 1).last() == result.links@[i as int]@);
            let chars = to_chars(result.links[i].as_str());
            let t = trim_chars(chars.as_slice());
            if !(t.len() == 0 || (!starts_with(t.as_slice(), http.as_slice()) && !starts_with(
                t.as_slice(),
                https.as_slice(),
            ))) {
                let normalized = chars_to_string(t.as_slice());
                let key = normalized.clone();
                if self.seen.insert(key) {
                    routed.push(CrawlUrl { url: normalized, depth: new_depth });
                }
            }
            i = i + 1;
        }
        assert(links.take(links.len() as int) =~= links);
        assert(routed@.map_values(|c: CrawlUrl| c@) =~= page_links(seen0, links).1.map_values(
            |t: Seq<char>| CrawlUrlView { url: t, depth: (result.depth + 1) as u32 },
        ));
        routed
    }

    /// The status to answer an ask request with; `None` when the message was
    /// not sent as one.
    pub fn handle_status_request(&self, is_ask_request: bool) -> (res: Option<FrontierStatus>)
        ensures
            res == (if is_ask_request { Some(status_of(self@)) } else { None::<FrontierStatus> }),
    {
        if is_ask_request {
            Some(FrontierStatus { queued: self.queue.len(), crawled: self.crawled_count })
        } else {
            None
        }
    }

    /// Handles one message (see [`frontier_step`]).
    pub fn handle(&mut self, msg: CrawlerMessage, is_ask_request: bool) -> (res: FrontierAction)
        requires
            msg is PageResult ==> can_count(old(self)@),
        ensures
            (final(self)@, res@) == frontier_step(old(self)@, msg, is_ask_request),
    {
        match msg {
            CrawlerMessage::CrawlUrl(crawl_url) => {
                if self.seen.insert(crawl_url.url.clone()) {
                    let routed = vec![crawl_url];
                    assert(routed@.map_values(|c: CrawlUrl| c@) =~= seq![crawl_url@]);
                    FrontierAction::Route(routed)
                } else {
                    assert(old(self)@.seen.insert(crawl_url.url@) =~= old(self)@.seen);
                    FrontierAction::Ignore
                }
            },
            CrawlerMessage::PageResult(result) => {
                let routed = self.handle_page_result(result);
                FrontierAction::Route(routed)
            },
            CrawlerMessage::GetFrontierStatus(_) => {
                match self.handle_status_request(is_ask_request) {
                    Some(status) => FrontierAction::Respond(status),
                    None => FrontierAction::Ignore,
                }
            },
            CrawlerMessage::DomainStopped(domain) => {
                self.domains.remove(&domain);
                FrontierAction::Ignore
            },
            _ => FrontierAction::Ignore,
        }
    }
}

impl Default for URLFrontierActor {
    /// Depth 3, 100 pages, one second between fetches.
    fn default() -> (res: Self)
        ensures
            res@ == (FrontierModel {
                queue: Seq::empty(),
                seen: Set::empty(),
                crawled_count: 0,
                max_depth: 3,
                max_urls: 100,
                default_delay: Delay { secs: 1, nanos: 0 },
                domains: Set::empty(),
            }),
    {
        Self::new(3, 100, Delay { secs: 1, nanos: 0 })
    }
}

} // verus!
